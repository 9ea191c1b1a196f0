//! The fortune file format.
//!
//! A fortune file is UTF-8 text, read here as bytes. A line that holds exactly
//! `%` and is ended by a newline closes a record. The text of a record is what
//! stands between two such lines (or between one of them and an end of the
//! file) without its trailing whitespace; a record whose text is empty is
//! dropped.

use vstd::prelude::*;

verus! {

/// The byte `%`, which alone on a line closes a record.
pub const PERCENT: u8 = 0x25;

/// The newline byte.
pub const NEWLINE: u8 = 0x0a;

/// ASCII whitespace: space, tab, newline, vertical tab, form feed, carriage
/// return.
pub open spec fn is_space(b: u8) -> bool {
    b == 0x20 || (0x09 <= b && b <= 0x0d)
}

/// A delimiter line starts at byte `i` of `s`: `%` at the start of a line,
/// directly followed by a newline.
pub open spec fn delimiter_at(s: Seq<u8>, i: int) -> bool {
    &&& 0 <= i
    &&& i + 1 < s.len()
    &&& (i == 0 || s[i - 1] == NEWLINE)
    &&& s[i] == PERCENT
    &&& s[i + 1] == NEWLINE
}

/// The start of the first delimiter line at or after `from`, or the length of
/// `s` when there is none.
pub open spec fn next_delimiter(s: Seq<u8>, from: int) -> int
    decreases s.len() - from,
{
    if from < 0 || from >= s.len() {
        s.len() as int
    } else if delimiter_at(s, from) {
        from
    } else {
        next_delimiter(s, from + 1)
    }
}

/// `s` without its trailing whitespace.
pub open spec fn trim_end(s: Seq<u8>) -> Seq<u8>
    decreases s.len(),
{
    if s.len() > 0 && is_space(s.last()) {
        trim_end(s.drop_last())
    } else {
        s
    }
}

/// What one segment of a file contributes: its trimmed text, unless that is
/// empty.
pub open spec fn record_of(segment: Seq<u8>) -> Seq<Seq<u8>> {
    if trim_end(segment).len() == 0 {
        Seq::empty()
    } else {
        seq![trim_end(segment)]
    }
}

/// The record texts of `s` from the segment that starts at byte `start`.
pub open spec fn records_from(s: Seq<u8>, start: int) -> Seq<Seq<u8>>
    decreases s.len() - start,
{
    if start < 0 || start >= s.len() {
        Seq::empty()
    } else {
        let d = next_delimiter(s, start);
        proof {
            lemma_next_delimiter_bounds(s, start);
        }
        if d < s.len() {
            record_of(s.subrange(start, d)) + records_from(s, d + 2)
        } else {
            record_of(s.subrange(start, s.len() as int))
        }
    }
}

/// The record texts of a whole file, in the order in which they appear.
pub open spec fn records(s: Seq<u8>) -> Seq<Seq<u8>> {
    records_from(s, 0)
}

/// `next_delimiter` stays between its starting point and the end of `s`.
pub proof fn lemma_next_delimiter_bounds(s: Seq<u8>, from: int)
    requires
        0 <= from <= s.len(),
    ensures
        from <= next_delimiter(s, from) <= s.len(),
        next_delimiter(s, from) < s.len() ==> delimiter_at(s, next_delimiter(s, from)),
        forall|k: int| from <= k < next_delimiter(s, from) ==> !delimiter_at(s, k),
    decreases s.len() - from,
{
    if from < s.len() && !delimiter_at(s, from) {
        lemma_next_delimiter_bounds(s, from + 1);
    }
}

/// Whether `b` is ASCII whitespace.
pub fn is_space_byte(b: u8) -> (r: bool)
    ensures
        r == is_space(b),
{
    b == 0x20 || (0x09 <= b && b <= 0x0d)
}

/// Whether a delimiter line starts at byte `i`.
pub fn is_delimiter(bytes: &[u8], i: usize) -> (r: bool)
    ensures
        r == delimiter_at(bytes@, i as int),
{
    let n = bytes.len();
    i < n && n - i > 1 && bytes[i] == PERCENT && bytes[i + 1] == NEWLINE && (i == 0 || bytes[i - 1]
        == NEWLINE)
}

/// The end of the segment `start..end` once its trailing whitespace is cut.
pub(crate) fn trimmed_end(bytes: &[u8], start: usize, end: usize) -> (e: usize)
    requires
        start <= end <= bytes@.len(),
    ensures
        start <= e <= end,
        bytes@.subrange(start as int, e as int) == trim_end(
            bytes@.subrange(start as int, end as int),
        ),
        e < end ==> is_space(bytes@[e as int]),
{
    let mut e = end;
    while e > start && is_space_byte(bytes[e - 1])
        invariant
            start <= e <= end <= bytes@.len(),
            trim_end(bytes@.subrange(start as int, e as int)) == trim_end(
                bytes@.subrange(start as int, end as int),
            ),
            e < end ==> is_space(bytes@[e as int]),
        decreases e,
    {
        assert(bytes@.subrange(start as int, e as int).drop_last() == bytes@.subrange(
            start as int,
            e - 1,
        ));
        e = e - 1;
    }
    e
}

/// What every parsed record text satisfies: it is not empty, does not end in
/// whitespace, and holds no delimiter line.
pub open spec fn is_record_text(t: Seq<u8>) -> bool {
    &&& t.len() > 0
    &&& !is_space(t.last())
    &&& forall|i: int| !delimiter_at(t, i)
}

/// A text that can be written to a fortune file and read back: a record text
/// none of whose lines is exactly `%`, the last one included.
pub open spec fn is_plain_text(t: Seq<u8>) -> bool {
    &&& t.len() > 0
    &&& !is_space(t.last())
    &&& forall|i: int| !delimiter_at(t.push(NEWLINE), i)
}

/// The bytes that close a record in a file: the newline that ends its last
/// line, then the delimiter line.
pub open spec fn separator() -> Seq<u8> {
    seq![NEWLINE, PERCENT, NEWLINE]
}

/// The file that holds `texts` in order, each closed by a delimiter line.
pub open spec fn delimited(texts: Seq<Seq<u8>>) -> Seq<u8>
    decreases texts.len(),
{
    if texts.len() == 0 {
        Seq::empty()
    } else {
        texts[0] + separator() + delimited(texts.drop_first())
    }
}

/// Trimming keeps a prefix, and what it keeps is empty or ends in a byte
/// that is not whitespace.
pub proof fn lemma_trim_end_prefix(s: Seq<u8>)
    ensures
        trim_end(s).len() <= s.len(),
        trim_end(s) == s.subrange(0, trim_end(s).len() as int),
        trim_end(s).len() > 0 ==> !is_space(trim_end(s).last()),
    decreases s.len(),
{
    if s.len() > 0 && is_space(s.last()) {
        lemma_trim_end_prefix(s.drop_last());
        let t = trim_end(s.drop_last());
        assert(t == s.subrange(0, t.len() as int));
    } else {
        assert(s == s.subrange(0, s.len() as int));
    }
}

/// Every record text of a file is a record text in the sense of
/// `is_record_text`.
pub proof fn lemma_records_are_texts(s: Seq<u8>, start: int)
    requires
        0 <= start <= s.len(),
        start == 0 || s[start - 1] == NEWLINE,
    ensures
        forall|k: int|
            0 <= k < records_from(s, start).len() ==> is_record_text(
                #[trigger] records_from(s, start)[k],
            ),
    decreases s.len() - start,
{
    if start < s.len() {
        lemma_next_delimiter_bounds(s, start);
        let d = next_delimiter(s, start);
        let segment = s.subrange(start, d);
        let t = trim_end(segment);
        lemma_trim_end_prefix(segment);
        assert forall|i: int| !delimiter_at(t, i) by {
            if delimiter_at(t, i) {
                assert(t[i] == s[start + i]);
                assert(t[i + 1] == s[start + i + 1]);
                if i > 0 {
                    assert(t[i - 1] == s[start + i - 1]);
                }
                assert(delimiter_at(s, start + i));
            }
        }
        let rest = if d < s.len() {
            records_from(s, d + 2)
        } else {
            Seq::empty()
        };
        if d < s.len() {
            lemma_records_are_texts(s, d + 2);
        }
        assert(records_from(s, start) == record_of(segment) + rest);
        assert forall|k: int| 0 <= k < records_from(s, start).len() implies is_record_text(
            #[trigger] records_from(s, start)[k],
        ) by {
            if k < record_of(segment).len() {
                assert(records_from(s, start)[k] == t);
            } else {
                assert(records_from(s, start)[k] == rest[k - record_of(segment).len()]);
            }
        }
    }
}

/// The first delimiter after `from` is `d` when `d` starts one and nothing
/// before it does.
pub proof fn lemma_next_delimiter_is(s: Seq<u8>, from: int, d: int)
    requires
        0 <= from <= d <= s.len(),
        d < s.len() ==> delimiter_at(s, d),
        forall|k: int| from <= k < d ==> !delimiter_at(s, k),
    ensures
        next_delimiter(s, from) == d,
    decreases d - from,
{
    if from < d {
        lemma_next_delimiter_is(s, from + 1, d);
    }
}

/// Records do not depend on what stands before the line they start at: after
/// a prefix that ends in a newline, the records of `a + b` from the end of `a`
/// are those of `b`.
pub proof fn lemma_records_after_prefix(a: Seq<u8>, b: Seq<u8>, j: int)
    requires
        a.len() > 0,
        a.last() == NEWLINE,
        0 <= j <= b.len(),
    ensures
        records_from(a + b, a.len() + j) == records_from(b, j),
    decreases b.len() - j,
{
    let s = a + b;
    let n = a.len() as int;
    assert forall|i: int| 0 <= i implies delimiter_at(s, n + i) == delimiter_at(b, i) by {
        if i < b.len() {
            assert(s[n + i] == b[i]);
        }
        if i + 1 < b.len() {
            assert(s[n + i + 1] == b[i + 1]);
        }
        if 0 < i <= b.len() {
            assert(s[n + i - 1] == b[i - 1]);
        }
        if i == 0 {
            assert(s[n - 1] == a.last());
        }
    }
    if j < b.len() {
        lemma_next_delimiter_bounds(b, j);
        let d = next_delimiter(b, j);
        assert forall|k: int| n + j <= k < n + d implies !delimiter_at(s, k) by {
            assert(delimiter_at(s, n + (k - n)) == delimiter_at(b, k - n));
        }
        if d < b.len() {
            assert(delimiter_at(s, n + d) == delimiter_at(b, d));
        }
        lemma_next_delimiter_is(s, n + j, n + d);
        assert(s.subrange(n + j, n + d) == b.subrange(j, d));
        if d < b.len() {
            lemma_records_after_prefix(a, b, d + 2);
        }
    }
}

/// Writing record texts with their delimiter lines and reading the file back
/// gives the same texts, as many as there are delimiter lines.
pub proof fn lemma_records_of_delimited(texts: Seq<Seq<u8>>)
    requires
        forall|k: int| 0 <= k < texts.len() ==> is_plain_text(#[trigger] texts[k]),
    ensures
        records(delimited(texts)) == texts,
    decreases texts.len(),
{
    if texts.len() > 0 {
        let t = texts[0];
        let rest = delimited(texts.drop_first());
        let a = t + separator();
        let s = a + rest;
        let d = t.len() as int + 1;
        assert(s == delimited(texts));
        assert forall|k: int| 0 <= k < texts.drop_first().len() implies is_plain_text(
            #[trigger] texts.drop_first()[k],
        ) by {
            assert(texts.drop_first()[k] == texts[k + 1]);
        }
        lemma_records_of_delimited(texts.drop_first());
        assert(s[d - 1] == NEWLINE && s[d] == PERCENT && s[d + 1] == NEWLINE);
        assert(delimiter_at(s, d));
        assert forall|k: int| 0 <= k < d implies !delimiter_at(s, k) by {
            if k < t.len() {
                let line = t.push(NEWLINE);
                assert(s[k] == line[k]);
                assert(s[k + 1] == line[k + 1]);
                if k > 0 {
                    assert(s[k - 1] == line[k - 1]);
                }
                assert(!delimiter_at(line, k));
            }
        }
        lemma_next_delimiter_is(s, 0, d);
        let segment = s.subrange(0, d);
        assert(segment == t.push(NEWLINE));
        assert(segment.drop_last() == t);
        assert(trim_end(segment) == trim_end(t));
        assert(trim_end(t) == t);
        assert(a.last() == NEWLINE);
        lemma_records_after_prefix(a, rest, 0);
        assert(records_from(s, d + 2) == records(rest));
        assert(records(s) == seq![t] + texts.drop_first());
        assert(seq![t] + texts.drop_first() == texts);
    }
}

} // verus!
