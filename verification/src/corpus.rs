//! The corpus: fortunes parsed from the content of fortune files.

use vstd::prelude::*;
use vstd::string::*;
use vstd::utf8::*;
use crate::error::FileSystemError;
use crate::paths::{base_name, file_name};
use crate::records::{
    is_delimiter, is_record_text, lemma_next_delimiter_bounds, lemma_records_are_texts,
    next_delimiter, record_of, records, records_from, trimmed_end, NEWLINE,
};
use crate::text::{byte_slice, lemma_boundary_after_ascii, lemma_boundary_at_ascii};

verus! {

/// One displayable snippet and the base name of the file it came from.
#[derive(Debug)]
pub struct Fortune {
    pub source: String,
    pub text: String,
}

impl Fortune {
    /// The UTF-8 bytes of the text.
    pub open spec fn text_bytes(&self) -> Seq<u8> {
        encode_utf8(self.text@)
    }

    /// The UTF-8 bytes of the source label.
    pub open spec fn source_bytes(&self) -> Seq<u8> {
        encode_utf8(self.source@)
    }

    /// What holds of every fortune that was parsed from a file: its text is
    /// not empty, does not end in whitespace and holds no delimiter line.
    pub open spec fn well_formed(&self) -> bool {
        is_record_text(self.text_bytes())
    }
}

/// The content of one resolved file as it was read, or the cause for which
/// it could not be read.
#[derive(Debug)]
pub struct SourceFile {
    pub path: String,
    pub content: Result<String, String>,
}

/// The texts of a list of fortunes, as bytes.
pub open spec fn texts_of(fortunes: Seq<Fortune>) -> Seq<Seq<u8>> {
    Seq::new(fortunes.len(), |i: int| fortunes[i].text_bytes())
}

/// Splits the content of one fortune file into its records, each labelled
/// with `source`.
pub fn parse_fortunes(source: &str, content: &str) -> (out: Vec<Fortune>)
    ensures
        texts_of(out@) == records(content.spec_bytes()),
        forall|k: int| 0 <= k < out@.len() ==> (#[trigger] out@[k]).source@ == source@,
        forall|k: int| 0 <= k < out@.len() ==> (#[trigger] out@[k]).well_formed(),
{
    let bytes = content.as_bytes();
    let n = bytes.len();
    let mut out: Vec<Fortune> = Vec::new();
    let mut start: usize = 0;
    let mut i: usize = 0;
    proof {
        encode_utf8_valid_utf8(content@);
    }
    while start < n
        invariant
            bytes@ == content.spec_bytes(),
            valid_utf8(bytes@),
            n == bytes@.len(),
            start <= i <= n,
            start < n ==> start == 0 || bytes@[start - 1] == NEWLINE,
            start < n ==> next_delimiter(bytes@, start as int) == next_delimiter(bytes@, i as int),
            texts_of(out@) + records_from(bytes@, start as int) == records(bytes@),
            forall|k: int| 0 <= k < out@.len() ==> (#[trigger] out@[k]).source@ == source@,
        decreases n - start, n - i,
    {
        let found = is_delimiter(bytes, i);
        if found || i == n {
            proof {
                lemma_next_delimiter_bounds(bytes@, i as int);
                lemma_next_delimiter_bounds(bytes@, start as int);
                if start > 0 {
                    lemma_boundary_after_ascii(bytes@, start - 1);
                }
                if i < n {
                    lemma_boundary_at_ascii(bytes@, i as int);
                } else {
                    is_char_boundary_start_end_of_seq(bytes@);
                }
            }
            let e = trimmed_end(bytes, start, i);
            let ghost before = texts_of(out@);
            if e > start {
                proof {
                    if e < i {
                        lemma_boundary_at_ascii(bytes@, e as int);
                    }
                }
                let text = byte_slice(content, start, e);
                out.push(Fortune { source: source.to_owned(), text: text.to_owned() });
                assert(texts_of(out@) == before + record_of(
                    bytes@.subrange(start as int, i as int),
                ));
            } else {
                assert(record_of(bytes@.subrange(start as int, i as int)) == Seq::<
                    Seq<u8>,
                >::empty());
            }
            if found {
                start = i + 2;
            } else {
                start = n;
            }
            i = start;
        } else {
            i = i + 1;
        }
    }
    proof {
        lemma_records_are_texts(bytes@, 0);
        assert forall|k: int| 0 <= k < out@.len() implies (#[trigger] out@[k]).well_formed() by {
            assert(texts_of(out@)[k] == out@[k].text_bytes());
        }
    }
    out
}

/// The label and the text of each fortune, as bytes.
pub open spec fn labelled(fortunes: Seq<Fortune>) -> Seq<(Seq<u8>, Seq<u8>)> {
    Seq::new(fortunes.len(), |i: int| (fortunes[i].source_bytes(), fortunes[i].text_bytes()))
}

/// The fortunes of one file: its records in order, each under the base name
/// of the file's path.
pub open spec fn file_fortunes(path: Seq<u8>, content: Seq<u8>) -> Seq<(Seq<u8>, Seq<u8>)> {
    Seq::new(records(content).len(), |i: int| (base_name(path), records(content)[i]))
}

/// The fortunes of the first `upto` files: files in the order given, records
/// within a file in the order in which they appear.
pub open spec fn corpus_of(files: Seq<SourceFile>, upto: int) -> Seq<(Seq<u8>, Seq<u8>)>
    decreases upto,
{
    if upto <= 0 || upto > files.len() {
        Seq::empty()
    } else {
        let file = files[upto - 1];
        let content = if file.content is Ok {
            encode_utf8(file.content->Ok_0@)
        } else {
            Seq::empty()
        };
        corpus_of(files, upto - 1) + file_fortunes(encode_utf8(file.path@), content)
    }
}

/// Every file could be read.
pub open spec fn all_read(files: Seq<SourceFile>) -> bool {
    forall|k: int| 0 <= k < files.len() ==> (#[trigger] files[k]).content is Ok
}

/// The file at `f` could not be read and all before it could.
pub open spec fn unread_first_at(files: Seq<SourceFile>, f: int) -> bool {
    &&& 0 <= f < files.len()
    &&& files[f].content is Err
    &&& forall|k: int| 0 <= k < f ==> (#[trigger] files[k]).content is Ok
}

/// Builds the corpus from the content of the resolved files.
///
/// Fails on the first file that could not be read, with its path and cause.
/// Otherwise the corpus holds the records of every file, files in the order
/// given and records in the order in which they appear, each under the base
/// name of its file.
pub fn read_fortunes(files: &[SourceFile]) -> (r: Result<Vec<Fortune>, FileSystemError>)
    ensures
        match r {
            Ok(corpus) => {
                &&& all_read(files@)
                &&& labelled(corpus@) == corpus_of(files@, files@.len() as int)
                &&& forall|k: int| 0 <= k < corpus@.len() ==> (#[trigger] corpus@[k]).well_formed()
            },
            Err(e) => exists|f: int|
                unread_first_at(files@, f) && e.path@ == files@[f].path@ && e.cause@
                    == files@[f].content->Err_0@,
        },
{
    let mut corpus: Vec<Fortune> = Vec::new();
    let mut i: usize = 0;
    while i < files.len()
        invariant
            i <= files@.len(),
            forall|k: int| 0 <= k < i ==> (#[trigger] files@[k]).content is Ok,
            labelled(corpus@) == corpus_of(files@, i as int),
            forall|k: int| 0 <= k < corpus@.len() ==> (#[trigger] corpus@[k]).well_formed(),
        decreases files@.len() - i,
    {
        let file = &files[i];
        match &file.content {
            Err(cause) => {
                assert(unread_first_at(files@, i as int));
                return Err(FileSystemError { path: file.path.clone(), cause: cause.clone() });
            },
            Ok(content) => {
                let source = file_name(file.path.as_str());
                let mut part = parse_fortunes(source, content.as_str());
                let ghost held = corpus@;
                let ghost added = part@;
                corpus.append(&mut part);
                proof {
                    assert(corpus@ == held + added);
                    assert(labelled(added) == file_fortunes(
                        encode_utf8(file.path@),
                        encode_utf8(content@),
                    )) by {
                        assert forall|k: int| 0 <= k < added.len() implies labelled(added)[k]
                            == file_fortunes(encode_utf8(file.path@), encode_utf8(content@))[k] by {
                            assert(texts_of(added)[k] == added[k].text_bytes());
                        }
                        assert(texts_of(added).len() == added.len());
                    }
                    assert(labelled(corpus@) == labelled(held) + labelled(added));
                }
            },
        }
        i = i + 1;
    }
    Ok(corpus)
}

} // verus!
