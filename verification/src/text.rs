//! Byte-level helpers on UTF-8 text, shared by the path and record code.
//!
//! Text is modelled by the bytes of its UTF-8 encoding. The delimiters this
//! crate looks for (`%`, newline, `/`, `.`) are ASCII, so every cut it makes
//! falls between two characters.

use vstd::prelude::*;
use vstd::string::*;
use vstd::utf8::*;

verus! {

/// A text is fixed by its bytes: two texts with the same UTF-8 encoding are
/// the same text.
pub proof fn lemma_text_fixed_by_bytes(a: Seq<char>, b: Seq<char>)
    requires
        encode_utf8(a) == encode_utf8(b),
    ensures
        a == b,
{
    encode_utf8_decode_utf8(a);
    encode_utf8_decode_utf8(b);
}

/// The byte right after an ASCII byte starts a character (or ends the text).
pub proof fn lemma_boundary_after_ascii(bytes: Seq<u8>, i: int)
    requires
        valid_utf8(bytes),
        0 <= i < bytes.len(),
        bytes[i] < 0x80,
    ensures
        is_char_boundary(bytes, i + 1),
    decreases bytes.len(),
{
    let width = length_of_first_scalar(bytes);
    let tail = pop_first_scalar(bytes);
    if i == 0 {
        assert(width == 1);
        assert(valid_utf8(tail));
        assert(is_char_boundary(tail, 0));
        assert(is_char_boundary(bytes, 1));
    } else if i < width {
        assert(is_continuation_byte(bytes[i]));
    } else {
        assert(tail[i - width] == bytes[i]);
        lemma_boundary_after_ascii(tail, i - width);
        assert(is_char_boundary(bytes, i + 1));
    }
}

/// An ASCII byte always starts a character.
pub proof fn lemma_boundary_at_ascii(bytes: Seq<u8>, i: int)
    requires
        valid_utf8(bytes),
        0 <= i < bytes.len(),
        bytes[i] < 0x80,
    ensures
        is_char_boundary(bytes, i),
{
    is_char_boundary_iff_not_is_continuation_byte(bytes, i);
}

/// The part of `s` between the byte offsets `from` and `to`.
pub(crate) fn byte_slice<'a>(s: &'a str, from: usize, to: usize) -> (part: &'a str)
    requires
        from <= to <= s.spec_bytes().len(),
        is_char_boundary(s.spec_bytes(), from as int),
        is_char_boundary(s.spec_bytes(), to as int),
    ensures
        part.spec_bytes() == s.spec_bytes().subrange(from as int, to as int),
{
    let (head, _) = s.split_at(to);
    proof {
        let whole = s.spec_bytes();
        encode_utf8_valid_utf8(s@);
        encode_utf8_valid_utf8(head@);
        if from == to {
            is_char_boundary_start_end_of_seq(head.spec_bytes());
        } else {
            is_char_boundary_iff_not_is_continuation_byte(whole, from as int);
            is_char_boundary_iff_not_is_continuation_byte(head.spec_bytes(), from as int);
        }
    }
    let (_, part) = head.split_at(from);
    assert(part.spec_bytes() =~= s.spec_bytes().subrange(from as int, to as int));
    part
}

} // verus!
