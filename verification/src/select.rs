//! Selection: one fortune drawn from the corpus, reproducibly from a seed or
//! from the thread's generator.

use rand::rngs::StdRng;
use rand::seq::SliceRandom;
use rand::{thread_rng, SeedableRng};
use vstd::prelude::*;
use crate::corpus::Fortune;

verus! {

/// The index that `rand` draws from a slice of `len > 0` items with a
/// standard generator freshly seeded with `seed`.
pub uninterp spec fn seeded_index(seed: u64, len: nat) -> nat;

/// `SliceRandom::choose` on the corpus, with a `StdRng` made by
/// `SeedableRng::seed_from_u64(seed)`.
///
/// Trusted: an empty slice gives nothing; otherwise the element at an index
/// below the length is handed out, and that index is fixed by the seed and the
/// length, since a fresh generator is seeded for the one draw.
#[verifier::external_body]
fn choose_seeded<'a>(fortunes: &'a [Fortune], seed: u64) -> (r: Option<&'a Fortune>)
    ensures
        r is None <==> fortunes@.len() == 0,
        r is Some ==> seeded_index(seed, fortunes@.len()) < fortunes@.len(),
        r is Some ==> *r->Some_0 == fortunes@[seeded_index(seed, fortunes@.len()) as int],
{
    fortunes.choose(&mut StdRng::seed_from_u64(seed))
}

/// `SliceRandom::choose` on the corpus, with the generator that
/// `rand::thread_rng` hands out.
///
/// Trusted: an empty slice gives nothing; otherwise some element of the slice
/// is handed out. Which one is not stated.
#[verifier::external_body]
fn choose_unseeded<'a>(fortunes: &'a [Fortune]) -> (r: Option<&'a Fortune>)
    ensures
        r is None <==> fortunes@.len() == 0,
        r is Some ==> fortunes@.contains(*r->Some_0),
{
    fortunes.choose(&mut thread_rng())
}

/// The text that a seeded draw yields: none from an empty corpus, else that of
/// the fortune at the seeded index.
pub open spec fn seeded_pick(fortunes: Seq<Fortune>, seed: u64) -> Option<Seq<char>> {
    if fortunes.len() == 0 {
        None
    } else {
        Some(fortunes[seeded_index(seed, fortunes.len()) as int].text@)
    }
}

/// `picked` is the text of one of the fortunes.
pub open spec fn is_text_of(fortunes: Seq<Fortune>, picked: Seq<char>) -> bool {
    exists|i: int| 0 <= i < fortunes.len() && (#[trigger] fortunes[i]).text@ == picked
}

/// `picked` is a result that a draw from `fortunes` with `seed` may have:
/// nothing exactly when the corpus is empty, else the text of one of the
/// fortunes, and with a seed exactly the text of `seeded_pick`.
pub open spec fn is_pick(
    fortunes: Seq<Fortune>,
    seed: Option<u64>,
    picked: Option<Seq<char>>,
) -> bool {
    &&& picked is None <==> fortunes.len() == 0
    &&& picked is Some ==> is_text_of(fortunes, picked->Some_0)
    &&& seed is Some ==> picked == seeded_pick(fortunes, seed->Some_0)
}

/// The view of an optional string.
pub open spec fn text_view(picked: Option<String>) -> Option<Seq<char>> {
    match picked {
        Some(text) => Some(text@),
        None => None,
    }
}

/// The text of the fortune that was drawn, if one was.
pub fn chosen_text(choice: Option<&Fortune>) -> (picked: Option<String>)
    ensures
        choice is None ==> picked is None,
        choice is Some ==> picked is Some && picked->Some_0@ == choice->Some_0.text@,
{
    match choice {
        Some(fortune) => Some(fortune.text.clone()),
        None => None,
    }
}

/// Draws one fortune from the corpus, each index being as likely as any
/// other, and returns its text; nothing when the corpus is empty. With a seed
/// the draw is reproducible.
pub fn pick_fortune(fortunes: &[Fortune], seed: Option<u64>) -> (picked: Option<String>)
    ensures
        is_pick(fortunes@, seed, text_view(picked)),
{
    let choice = match seed {
        Some(seed) => choose_seeded(fortunes, seed),
        None => choose_unseeded(fortunes),
    };
    proof {
        if choice is Some {
            let i = choose|i: int| 0 <= i < fortunes@.len() && fortunes@[i] == *choice->Some_0;
            assert(fortunes@[i].text@ == choice->Some_0.text@);
        }
    }
    chosen_text(choice)
}

/// The line shown when there is nothing to draw from.
pub open spec fn no_fortunes_text() -> Seq<char> {
    "No fortunes found"@
}

/// What is printed for a draw: the text that was picked, or the fixed line
/// that says that there are no fortunes.
pub open spec fn shown_text(picked: Option<Seq<char>>) -> Seq<char> {
    match picked {
        Some(text) => text,
        None => no_fortunes_text(),
    }
}

/// What is printed for a draw, before the newline that ends it.
pub fn shown_pick(picked: Option<String>) -> (line: String)
    ensures
        line@ == shown_text(text_view(picked)),
{
    match picked {
        Some(text) => text,
        None => "No fortunes found".to_owned(),
    }
}

/// Draws one fortune and returns what is printed for it: its text, or the
/// fixed line `No fortunes found` when the corpus is empty.
pub fn random_line(fortunes: &[Fortune], seed: Option<u64>) -> (line: String)
    ensures
        fortunes@.len() == 0 ==> line@ == no_fortunes_text(),
        fortunes@.len() > 0 ==> is_text_of(fortunes@, line@),
        seed is Some ==> line@ == shown_text(seeded_pick(fortunes@, seed->Some_0)),
{
    shown_pick(pick_fortune(fortunes, seed))
}

/// A seeded draw is reproducible: two results for the same corpus and the
/// same seed are the same.
pub proof fn lemma_seeded_pick_deterministic(
    fortunes: Seq<Fortune>,
    seed: u64,
    first: Option<Seq<char>>,
    second: Option<Seq<char>>,
)
    requires
        is_pick(fortunes, Some(seed), first),
        is_pick(fortunes, Some(seed), second),
    ensures
        first == second,
{
}

} // verus!
