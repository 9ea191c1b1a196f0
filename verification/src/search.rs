//! Search: the fortunes whose text a pattern matches, grouped under the name
//! of the file they came from.
//!
//! The corpus is walked in order. A matching fortune is emitted as a body. A
//! header naming its source goes before it when that source differs from the
//! source of the match before it, or when it is the first match. Only the
//! most recent match counts: a source that comes back after another one gets
//! its header again.

use regex::Regex;
use vstd::prelude::*;
use vstd::string::*;
use crate::corpus::Fortune;
use crate::pattern::regex_accepts;

verus! {

/// One piece of search output.
#[derive(Debug)]
pub enum Block {
    /// Names the source of the bodies that follow; meant for the diagnostic
    /// stream.
    Header { source: String },
    /// The text of one matching fortune; meant for the standard output.
    Body { text: String },
}

/// A `Block` with its strings as sequences of characters.
pub enum BlockView {
    Header { source: Seq<char> },
    Body { text: Seq<char> },
}

impl View for Block {
    type V = BlockView;

    open spec fn view(&self) -> BlockView {
        match self {
            Block::Header { source } => BlockView::Header { source: source@ },
            Block::Body { text } => BlockView::Body { text: text@ },
        }
    }
}

impl BlockView {
    /// What is printed for the block, before the newline that ends it: a
    /// header is the source in parentheses, a body is the text; either is
    /// followed by a line that holds `%`.
    pub open spec fn rendered(self) -> Seq<char> {
        match self {
            BlockView::Header { source } => "("@ + source + ")\n%"@,
            BlockView::Body { text } => text + "\n%"@,
        }
    }
}

impl Block {
    /// What is printed for the block, before the newline that ends it.
    pub fn render(&self) -> (out: String)
        ensures
            out@ == self@.rendered(),
    {
        match self {
            Block::Header { source } => {
                let mut out = "(".to_owned();
                out.append(source.as_str());
                out.append(")\n%");
                out
            },
            Block::Body { text } => {
                let mut out = text.clone();
                out.append("\n%");
                out
            },
        }
    }

    /// Whether the block is a header.
    pub fn is_header(&self) -> (r: bool)
        ensures
            r == (self@ is Header),
    {
        match self {
            Block::Header { .. } => true,
            Block::Body { .. } => false,
        }
    }
}

/// The views of a list of blocks.
pub open spec fn block_views(blocks: Seq<Block>) -> Seq<BlockView> {
    Seq::new(blocks.len(), |i: int| blocks[i]@)
}

/// Whether the fortune at `i` counts as matching: its flag is there and set.
pub open spec fn is_hit(hits: Seq<bool>, i: int) -> bool {
    0 <= i < hits.len() && hits[i]
}

/// The source of the last matching fortune before `upto`, if there is one.
pub open spec fn last_match_source(corpus: Seq<Fortune>, hits: Seq<bool>, upto: int) -> Option<
    Seq<char>,
>
    decreases upto,
{
    if upto <= 0 || upto > corpus.len() {
        None
    } else if is_hit(hits, upto - 1) {
        Some(corpus[upto - 1].source@)
    } else {
        last_match_source(corpus, hits, upto - 1)
    }
}

/// What the fortune at `i` contributes to the output: nothing unless it
/// matches; else its body, after a header when its source is not that of the
/// match before it.
pub open spec fn blocks_at(corpus: Seq<Fortune>, hits: Seq<bool>, i: int) -> Seq<BlockView> {
    if !is_hit(hits, i) {
        Seq::empty()
    } else if last_match_source(corpus, hits, i) == Some(corpus[i].source@) {
        seq![BlockView::Body { text: corpus[i].text@ }]
    } else {
        seq![
            BlockView::Header { source: corpus[i].source@ },
            BlockView::Body { text: corpus[i].text@ },
        ]
    }
}

/// The output for the first `upto` fortunes.
pub open spec fn blocks_upto(corpus: Seq<Fortune>, hits: Seq<bool>, upto: int) -> Seq<BlockView>
    decreases upto,
{
    if upto <= 0 || upto > corpus.len() {
        Seq::empty()
    } else {
        blocks_upto(corpus, hits, upto - 1) + blocks_at(corpus, hits, upto - 1)
    }
}

/// The output of a search over `corpus` in which `hits` tells which fortunes
/// match.
pub open spec fn search_blocks(corpus: Seq<Fortune>, hits: Seq<bool>) -> Seq<BlockView> {
    blocks_upto(corpus, hits, corpus.len() as int)
}

/// Where nothing matches there is no output at all, not even a header.
pub proof fn lemma_no_match_no_output(corpus: Seq<Fortune>, hits: Seq<bool>)
    requires
        forall|i: int| 0 <= i < corpus.len() ==> !is_hit(hits, i),
    ensures
        search_blocks(corpus, hits) == Seq::<BlockView>::empty(),
{
    lemma_no_match_prefix(corpus, hits, corpus.len() as int);
}

/// Where nothing matches, no prefix of the corpus gives any output.
proof fn lemma_no_match_prefix(corpus: Seq<Fortune>, hits: Seq<bool>, upto: int)
    requires
        forall|i: int| 0 <= i < corpus.len() ==> !is_hit(hits, i),
        0 <= upto <= corpus.len(),
    ensures
        blocks_upto(corpus, hits, upto) == Seq::<BlockView>::empty(),
    decreases upto,
{
    if upto > 0 {
        lemma_no_match_prefix(corpus, hits, upto - 1);
    }
}

/// A fortune that does not match changes nothing: the output up to and
/// including it is the output before it, and the source that the next header
/// is held against stays the same.
pub proof fn lemma_miss_is_silent(corpus: Seq<Fortune>, hits: Seq<bool>, i: int)
    requires
        0 <= i < corpus.len(),
        !is_hit(hits, i),
    ensures
        blocks_upto(corpus, hits, i + 1) == blocks_upto(corpus, hits, i),
        last_match_source(corpus, hits, i + 1) == last_match_source(corpus, hits, i),
{
}

/// For each fortune, whether the pattern matches its text.
pub open spec fn hits_of(corpus: Seq<Fortune>, pattern: Regex) -> Seq<bool> {
    Seq::new(corpus.len(), |i: int| regex_accepts(pattern, corpus[i].text@))
}

/// Tests the pattern on the text of each fortune.
pub fn match_flags(corpus: &[Fortune], pattern: &Regex) -> (hits: Vec<bool>)
    ensures
        hits@ == hits_of(corpus@, *pattern),
{
    let mut hits: Vec<bool> = Vec::new();
    let mut i: usize = 0;
    while i < corpus.len()
        invariant
            i <= corpus@.len(),
            hits@ == hits_of(corpus@, *pattern).subrange(0, i as int),
        decreases corpus@.len() - i,
    {
        hits.push(pattern.is_match(corpus[i].text.as_str()));
        i = i + 1;
    }
    hits
}

/// Groups the matching fortunes for display. `hits` tells which fortunes
/// match; a fortune without a flag does not.
pub fn group_matches(corpus: &[Fortune], hits: &[bool]) -> (blocks: Vec<Block>)
    ensures
        block_views(blocks@) == search_blocks(corpus@, hits@),
{
    let mut blocks: Vec<Block> = Vec::new();
    let mut last: Option<usize> = None;
    let mut i: usize = 0;
    while i < corpus.len()
        invariant
            i <= corpus@.len(),
            block_views(blocks@) == blocks_upto(corpus@, hits@, i as int),
            match last {
                Some(k) => k < i && last_match_source(corpus@, hits@, i as int) == Some(
                    corpus@[k as int].source@,
                ),
                None => last_match_source(corpus@, hits@, i as int) is None,
            },
        decreases corpus@.len() - i,
    {
        let ghost held = block_views(blocks@);
        if i < hits.len() && hits[i] {
            let fortune = &corpus[i];
            let same = match last {
                Some(k) => corpus[k].source == fortune.source,
                None => false,
            };
            if !same {
                blocks.push(Block::Header { source: fortune.source.clone() });
            }
            blocks.push(Block::Body { text: fortune.text.clone() });
            last = Some(i);
            assert(block_views(blocks@) == held + blocks_at(corpus@, hits@, i as int));
        } else {
            assert(block_views(blocks@) == held + blocks_at(corpus@, hits@, i as int));
        }
        i = i + 1;
    }
    blocks
}

/// Searches the corpus: every fortune whose text the pattern matches, in
/// corpus order, with a header wherever the source changes from one match to
/// the next.
pub fn search(corpus: &[Fortune], pattern: &Regex) -> (blocks: Vec<Block>)
    ensures
        block_views(blocks@) == search_blocks(corpus@, hits_of(corpus@, *pattern)),
{
    let hits = match_flags(corpus, pattern);
    group_matches(corpus, hits.as_slice())
}

} // verus!
