//! File discovery: from what was found under the input paths to the list of
//! fortune files.
//!
//! The caller looks each input path up and walks it; this module decides. An
//! input that could not be looked up fails the whole resolution. Of what the
//! walks visited, the regular files that are not compiled indexes are kept,
//! sorted byte-wise by path, each path once.

use vstd::prelude::*;
use vstd::string::*;
use vstd::utf8::*;
use crate::error::FileSystemError;
use crate::lex::{
    bytes_lt, compare_bytes, lemma_lt_transitive, lemma_sorted_unique, strictly_sorted, Position,
};
use crate::text::{byte_slice, lemma_boundary_after_ascii};

verus! {

/// The byte `/`, which separates the components of a path.
pub const SLASH: u8 = 0x2f;

/// The extension of a compiled index, with its dot: `.dat`.
pub open spec fn index_suffix() -> Seq<u8> {
    seq![0x2e, 0x64, 0x61, 0x74]
}

/// Where the base name of `path` starts: after its last `/`, or at 0.
pub open spec fn base_start(path: Seq<u8>) -> int
    decreases path.len(),
{
    if path.len() == 0 {
        0
    } else if path.last() == SLASH {
        path.len() as int
    } else {
        base_start(path.drop_last())
    }
}

/// The base name of `path`: what follows its last `/`.
pub open spec fn base_name(path: Seq<u8>) -> Seq<u8> {
    path.subrange(base_start(path), path.len() as int)
}

/// Whether the extension of `path` is the one of a compiled index: its base
/// name ends in `.dat` and has something before that.
pub open spec fn has_index_extension(path: Seq<u8>) -> bool {
    let name = base_name(path);
    name.len() > 4 && name.subrange(name.len() - 4, name.len() as int) == index_suffix()
}

/// The base name starts within the path.
pub proof fn lemma_base_start_bounds(path: Seq<u8>)
    ensures
        0 <= base_start(path) <= path.len(),
        base_start(path) > 0 ==> path[base_start(path) - 1] == SLASH,
    decreases path.len(),
{
    if path.len() > 0 && path.last() != SLASH {
        lemma_base_start_bounds(path.drop_last());
    }
}

/// The byte offset at which the base name of `path` starts.
pub fn base_offset(bytes: &[u8]) -> (k: usize)
    ensures
        k == base_start(bytes@),
        k <= bytes@.len(),
{
    let mut k = bytes.len();
    assert(bytes@ == bytes@.subrange(0, k as int));
    while k > 0 && bytes[k - 1] != SLASH
        invariant
            k <= bytes@.len(),
            base_start(bytes@) == base_start(bytes@.subrange(0, k as int)),
        decreases k,
    {
        assert(bytes@.subrange(0, k as int).drop_last() == bytes@.subrange(0, k - 1));
        k = k - 1;
    }
    k
}

/// The base name of `path`: what follows its last `/`.
pub fn file_name(path: &str) -> (name: &str)
    ensures
        name.spec_bytes() == base_name(path.spec_bytes()),
{
    let bytes = path.as_bytes();
    let k = base_offset(bytes);
    proof {
        encode_utf8_valid_utf8(path@);
        lemma_base_start_bounds(bytes@);
        is_char_boundary_start_end_of_seq(bytes@);
        if k > 0 {
            lemma_boundary_after_ascii(bytes@, k - 1);
        }
    }
    byte_slice(path, k, bytes.len())
}

/// Whether `path` names a compiled index, which is never read as text.
pub fn is_index_file(path: &str) -> (r: bool)
    ensures
        r == has_index_extension(path.spec_bytes()),
{
    let bytes = path.as_bytes();
    let n = bytes.len();
    let k = base_offset(bytes);
    if n - k > 4 {
        let r = bytes[n - 4] == 0x2e && bytes[n - 3] == 0x64 && bytes[n - 2] == 0x61 && bytes[n
            - 1] == 0x74;
        proof {
            let name = base_name(bytes@);
            let tail = name.subrange(name.len() - 4, name.len() as int);
            assert(tail[0] == bytes@[n - 4]);
            assert(tail[1] == bytes@[n - 3]);
            assert(tail[2] == bytes@[n - 2]);
            assert(tail[3] == bytes@[n - 1]);
            if r {
                assert(tail =~= index_suffix());
            }
        }
        r
    } else {
        false
    }
}

/// One entry that a walk visited.
#[derive(Debug)]
pub struct Entry {
    pub path: String,
    pub is_file: bool,
}

/// What became of one input path: the entries that the walk from it visited
/// (the path itself where it is a file), or the cause for which it could not
/// be looked up.
#[derive(Debug)]
pub struct Probe {
    pub path: String,
    pub entries: Result<Vec<Entry>, String>,
}

impl Entry {
    /// The UTF-8 bytes of the path.
    pub open spec fn path_bytes(&self) -> Seq<u8> {
        encode_utf8(self.path@)
    }

    /// Whether the entry belongs in a resolved list: a regular file that is
    /// not a compiled index.
    pub open spec fn is_listed(&self) -> bool {
        self.is_file && !has_index_extension(self.path_bytes())
    }
}

/// The paths of a resolved list, as bytes.
pub open spec fn path_bytes(files: Seq<String>) -> Seq<Seq<u8>> {
    Seq::new(files.len(), |i: int| encode_utf8(files[i]@))
}

/// `path` is that of a listed entry among the first `upto` of `entries`.
pub open spec fn listed_in(entries: Seq<Entry>, upto: int, path: Seq<u8>) -> bool {
    exists|j: int|
        0 <= j < upto && j < entries.len() && #[trigger] entries[j].is_listed()
            && entries[j].path_bytes() == path
}

/// `path` is that of a listed entry of one of the first `upto` probes.
pub open spec fn found_in(probes: Seq<Probe>, upto: int, path: Seq<u8>) -> bool {
    exists|i: int|
        0 <= i < upto && i < probes.len() && (#[trigger] probes[i]).entries is Ok && listed_in(
            probes[i].entries->Ok_0@,
            probes[i].entries->Ok_0@.len() as int,
            path,
        )
}

/// `path` is that of a listed entry of one of the probes.
pub open spec fn found(probes: Seq<Probe>, path: Seq<u8>) -> bool {
    found_in(probes, probes.len() as int, path)
}

/// Every input path could be looked up.
pub open spec fn all_walked(probes: Seq<Probe>) -> bool {
    forall|k: int| 0 <= k < probes.len() ==> (#[trigger] probes[k]).entries is Ok
}

/// The probe at `f` failed and none before it did.
pub open spec fn fails_first_at(probes: Seq<Probe>, f: int) -> bool {
    &&& 0 <= f < probes.len()
    &&& probes[f].entries is Err
    &&& forall|k: int| 0 <= k < f ==> (#[trigger] probes[k]).entries is Ok
}

/// `files` is the resolved list of `probes`: strictly sorted, so free of
/// duplicates, and holding exactly the paths found.
pub open spec fn is_resolution(probes: Seq<Probe>, files: Seq<Seq<u8>>) -> bool {
    &&& strictly_sorted(files)
    &&& forall|p: Seq<u8>| files.contains(p) <==> found(probes, p)
}

/// Puts `path` at its place in the sorted list, unless it is there already.
fn insert_path(files: &mut Vec<String>, path: &str)
    requires
        strictly_sorted(path_bytes(old(files)@)),
    ensures
        strictly_sorted(path_bytes(final(files)@)),
        forall|p: Seq<u8>|
            path_bytes(final(files)@).contains(p) <==> (path_bytes(old(files)@).contains(p) || p
                == path.spec_bytes()),
{
    let key = path.as_bytes();
    let ghost before = path_bytes(files@);
    let mut lo: usize = 0;
    let mut hi: usize = files.len();
    while lo < hi
        invariant
            lo <= hi <= files@.len(),
            files@ == old(files)@,
            before == path_bytes(files@),
            key@ == path.spec_bytes(),
            strictly_sorted(before),
            forall|k: int| 0 <= k < lo ==> bytes_lt(#[trigger] before[k], key@),
            forall|k: int| hi <= k < before.len() ==> bytes_lt(key@, #[trigger] before[k]),
        decreases hi - lo,
    {
        let mid = lo + (hi - lo) / 2;
        let at = compare_bytes(files[mid].as_str().as_bytes(), key);
        match at {
            Position::Same => {
                assert(before[mid as int] == key@);
                return ;
            },
            Position::Before => {
                assert forall|k: int| 0 <= k < mid + 1 implies bytes_lt(
                    #[trigger] before[k],
                    key@,
                ) by {
                    if k < mid {
                        lemma_lt_transitive(before[k], before[mid as int], key@);
                    }
                }
                lo = mid + 1;
            },
            Position::After => {
                assert forall|k: int| mid <= k < before.len() implies bytes_lt(
                    key@,
                    #[trigger] before[k],
                ) by {
                    if k > mid {
                        lemma_lt_transitive(key@, before[mid as int], before[k]);
                    }
                }
                hi = mid;
            },
        }
    }
    files.insert(lo, path.to_owned());
    proof {
        let after = path_bytes(files@);
        assert(after =~= before.insert(lo as int, key@));
        assert forall|i: int, j: int| 0 <= i < j < after.len() implies bytes_lt(
            after[i],
            after[j],
        ) by {
            if j < lo {
                assert(bytes_lt(before[i], before[j]));
            } else if j == lo {
                assert(bytes_lt(before[i], key@));
            } else if i < lo {
                assert(bytes_lt(before[i], before[j - 1]));
            } else if i == lo {
                assert(bytes_lt(key@, before[j - 1]));
            } else {
                assert(bytes_lt(before[i - 1], before[j - 1]));
            }
        }
        assert forall|p: Seq<u8>| after.contains(p) <==> (before.contains(p) || p == key@) by {
            if after.contains(p) {
                let k = choose|k: int| 0 <= k < after.len() && after[k] == p;
                if k < lo {
                    assert(before[k] == p);
                } else if k > lo {
                    assert(before[k - 1] == p);
                }
            }
            if before.contains(p) {
                let k = choose|k: int| 0 <= k < before.len() && before[k] == p;
                if k < lo {
                    assert(after[k] == p);
                } else {
                    assert(after[k + 1] == p);
                }
            }
            if p == key@ {
                assert(after[lo as int] == p);
            }
        }
    }
}

/// Taking one more entry into account adds its path, if it is listed.
proof fn lemma_listed_step(entries: Seq<Entry>, j: int, path: Seq<u8>)
    requires
        0 <= j < entries.len(),
    ensures
        listed_in(entries, j + 1, path) <==> (listed_in(entries, j, path) || (
        entries[j].is_listed() && entries[j].path_bytes() == path)),
{
    if listed_in(entries, j + 1, path) {
        let w = choose|w: int|
            0 <= w < j + 1 && w < entries.len() && #[trigger] entries[w].is_listed()
                && entries[w].path_bytes() == path;
        if w < j {
            assert(listed_in(entries, j, path));
        }
    }
    if listed_in(entries, j, path) {
        let w = choose|w: int|
            0 <= w < j && w < entries.len() && #[trigger] entries[w].is_listed()
                && entries[w].path_bytes() == path;
        assert(listed_in(entries, j + 1, path));
    }
    if entries[j].is_listed() && entries[j].path_bytes() == path {
        assert(listed_in(entries, j + 1, path));
    }
}

/// Taking one more probe into account adds the paths listed in its walk.
proof fn lemma_found_step(probes: Seq<Probe>, i: int, path: Seq<u8>)
    requires
        0 <= i < probes.len(),
    ensures
        found_in(probes, i + 1, path) <==> (found_in(probes, i, path) || (probes[i].entries is Ok
            && listed_in(
            probes[i].entries->Ok_0@,
            probes[i].entries->Ok_0@.len() as int,
            path,
        ))),
{
    if found_in(probes, i + 1, path) {
        let w = choose|w: int|
            0 <= w < i + 1 && w < probes.len() && (#[trigger] probes[w]).entries is Ok
                && listed_in(
                probes[w].entries->Ok_0@,
                probes[w].entries->Ok_0@.len() as int,
                path,
            );
        if w < i {
            assert(found_in(probes, i, path));
        }
    }
    if found_in(probes, i, path) {
        let w = choose|w: int|
            0 <= w < i && w < probes.len() && (#[trigger] probes[w]).entries is Ok && listed_in(
                probes[w].entries->Ok_0@,
                probes[w].entries->Ok_0@.len() as int,
                path,
            );
        assert(found_in(probes, i + 1, path));
    }
    if probes[i].entries is Ok && listed_in(
        probes[i].entries->Ok_0@,
        probes[i].entries->Ok_0@.len() as int,
        path,
    ) {
        assert(found_in(probes, i + 1, path));
    }
}

/// Adds the listed entries of one walk to the sorted list.
fn add_entries(files: &mut Vec<String>, entries: &Vec<Entry>)
    requires
        strictly_sorted(path_bytes(old(files)@)),
    ensures
        strictly_sorted(path_bytes(final(files)@)),
        forall|p: Seq<u8>|
            path_bytes(final(files)@).contains(p) <==> (path_bytes(old(files)@).contains(p)
                || listed_in(entries@, entries@.len() as int, p)),
{
    let ghost before = path_bytes(files@);
    let mut j: usize = 0;
    while j < entries.len()
        invariant
            j <= entries@.len(),
            strictly_sorted(path_bytes(files@)),
            forall|p: Seq<u8>|
                path_bytes(files@).contains(p) <==> (before.contains(p) || listed_in(
                    entries@,
                    j as int,
                    p,
                )),
        decreases entries@.len() - j,
    {
        let entry = &entries[j];
        let ghost held = path_bytes(files@);
        assert forall|p: Seq<u8>| held.contains(p) <==> (before.contains(p) || listed_in(
            entries@,
            j as int,
            p,
        )) by {}
        if entry.is_file && !is_index_file(entry.path.as_str()) {
            insert_path(files, entry.path.as_str());
        }
        assert forall|p: Seq<u8>|
            path_bytes(files@).contains(p) <==> (before.contains(p) || listed_in(
                entries@,
                j + 1,
                p,
            )) by {
            lemma_listed_step(entries@, j as int, p);
            assert(held.contains(p) <==> (before.contains(p) || listed_in(entries@, j as int, p)));
        }
        j = j + 1;
    }
}

/// Resolves the input paths to the list of fortune files.
///
/// Fails on the first input that could not be looked up, with its path and
/// cause. Otherwise the result holds every regular file that the walks
/// visited and that is not a compiled index, sorted byte-wise, each once.
pub fn find_files(probes: &[Probe]) -> (r: Result<Vec<String>, FileSystemError>)
    ensures
        match r {
            Ok(files) => all_walked(probes@) && is_resolution(probes@, path_bytes(files@)),
            Err(e) => exists|f: int|
                fails_first_at(probes@, f) && e.path@ == probes@[f].path@ && e.cause@
                    == probes@[f].entries->Err_0@,
        },
{
    let mut files: Vec<String> = Vec::new();
    let mut i: usize = 0;
    while i < probes.len()
        invariant
            i <= probes@.len(),
            forall|k: int| 0 <= k < i ==> (#[trigger] probes@[k]).entries is Ok,
            strictly_sorted(path_bytes(files@)),
            forall|p: Seq<u8>| path_bytes(files@).contains(p) <==> found_in(probes@, i as int, p),
        decreases probes@.len() - i,
    {
        let probe = &probes[i];
        match &probe.entries {
            Err(cause) => {
                assert(fails_first_at(probes@, i as int));
                return Err(FileSystemError { path: probe.path.clone(), cause: cause.clone() });
            },
            Ok(entries) => {
                let ghost held = path_bytes(files@);
                assert forall|p: Seq<u8>| held.contains(p) <==> found_in(probes@, i as int, p) by {}
                add_entries(&mut files, entries);
                assert forall|p: Seq<u8>|
                    path_bytes(files@).contains(p) <==> found_in(probes@, i + 1, p) by {
                    lemma_found_step(probes@, i as int, p);
                    assert(held.contains(p) <==> found_in(probes@, i as int, p));
                }
            },
        }
        i = i + 1;
    }
    Ok(files)
}

/// The resolved list depends only on which paths were found: two resolutions
/// over inputs that find the same paths are the same list. So resolving the
/// same inputs twice, naming an input twice, or naming a directory and a file
/// inside it, changes nothing.
pub proof fn lemma_resolution_unique(
    first: Seq<Probe>,
    second: Seq<Probe>,
    a: Seq<Seq<u8>>,
    b: Seq<Seq<u8>>,
)
    requires
        is_resolution(first, a),
        is_resolution(second, b),
        forall|p: Seq<u8>| found(first, p) <==> found(second, p),
    ensures
        a == b,
{
    lemma_sorted_unique(a, b);
}

/// What is found under two lists of inputs taken together is what is found
/// under either.
pub proof fn lemma_found_concat(first: Seq<Probe>, second: Seq<Probe>, path: Seq<u8>)
    ensures
        found(first + second, path) <==> (found(first, path) || found(second, path)),
{
    let both = first + second;
    if found(both, path) {
        let w = choose|w: int|
            0 <= w < both.len() && w < both.len() && (#[trigger] both[w]).entries is Ok
                && listed_in(both[w].entries->Ok_0@, both[w].entries->Ok_0@.len() as int, path);
        if w < first.len() {
            assert(first[w] == both[w]);
        } else {
            assert(second[w - first.len()] == both[w]);
        }
    }
    if found(first, path) {
        let w = choose|w: int|
            0 <= w < first.len() && w < first.len() && (#[trigger] first[w]).entries is Ok
                && listed_in(first[w].entries->Ok_0@, first[w].entries->Ok_0@.len() as int, path);
        assert(both[w] == first[w]);
    }
    if found(second, path) {
        let w = choose|w: int|
            0 <= w < second.len() && w < second.len() && (#[trigger] second[w]).entries is Ok
                && listed_in(
                second[w].entries->Ok_0@,
                second[w].entries->Ok_0@.len() as int,
                path,
            );
        assert(both[w + first.len()] == second[w]);
    }
}

/// No compiled index is in a resolved list.
pub proof fn lemma_no_index_file(probes: Seq<Probe>, files: Seq<Seq<u8>>, k: int)
    requires
        is_resolution(probes, files),
        0 <= k < files.len(),
    ensures
        !has_index_extension(files[k]),
{
    assert(files.contains(files[k]));
    assert(found(probes, files[k]));
}

} // verus!
