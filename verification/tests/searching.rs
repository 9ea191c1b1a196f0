use fortuner::corpus::Fortune;
use fortuner::search::{group_matches, match_flags, search, Block};
use regex::{Regex, RegexBuilder};

fn fortune(source: &str, text: &str) -> Fortune {
    Fortune { source: source.to_string(), text: text.to_string() }
}

fn shape(blocks: &[Block]) -> Vec<(bool, String)> {
    blocks
        .iter()
        .map(|b| match b {
            Block::Header { source } => (true, source.clone()),
            Block::Body { text } => (false, text.clone()),
        })
        .collect()
}

fn header(source: &str) -> (bool, String) {
    (true, source.to_string())
}

fn body(text: &str) -> (bool, String) {
    (false, text.to_string())
}

#[test]
fn header_comes_back_when_the_source_comes_back() {
    let corpus = vec![fortune("a", "one"), fortune("b", "two"), fortune("a", "three")];
    let blocks = search(&corpus, &Regex::new(".").unwrap());
    assert_eq!(
        shape(&blocks),
        vec![header("a"), body("one"), header("b"), body("two"), header("a"), body("three")]
    );
    let headers = blocks.iter().filter(|b| b.is_header()).count();
    assert_eq!(headers, 3);
}

#[test]
fn consecutive_matches_share_one_header() {
    let corpus = vec![
        fortune("a", "x1"),
        fortune("a", "x2"),
        fortune("b", "x3"),
        fortune("b", "x4"),
    ];
    let blocks = search(&corpus, &Regex::new("x").unwrap());
    assert_eq!(
        shape(&blocks),
        vec![header("a"), body("x1"), body("x2"), header("b"), body("x3"), body("x4")]
    );
}

#[test]
fn misses_do_not_touch_the_previous_source() {
    let corpus = vec![
        fortune("a", "hit 1"),
        fortune("b", "miss"),
        fortune("a", "hit 2"),
        fortune("c", "miss"),
        fortune("c", "hit 3"),
    ];
    let blocks = search(&corpus, &Regex::new("hit").unwrap());
    assert_eq!(
        shape(&blocks),
        vec![header("a"), body("hit 1"), body("hit 2"), header("c"), body("hit 3")]
    );
}

#[test]
fn no_match_gives_no_output() {
    let corpus = vec![fortune("a", "one"), fortune("b", "two")];
    assert!(search(&corpus, &Regex::new("zzz").unwrap()).is_empty());
    assert!(search(&[], &Regex::new(".").unwrap()).is_empty());
}

#[test]
fn pattern_sees_the_whole_text() {
    let corpus = vec![fortune("a", "first line\nsecond line"), fortune("a", "first only")];
    let blocks = search(&corpus, &Regex::new("line\nsecond").unwrap());
    assert_eq!(shape(&blocks), vec![header("a"), body("first line\nsecond line")]);
}

#[test]
fn case_is_decided_by_the_compiled_pattern() {
    let corpus = vec![fortune("a", "Yogi Berra"), fortune("a", "yogi")];
    let sensitive = Regex::new("Yogi").unwrap();
    let insensitive = RegexBuilder::new("YOGI").case_insensitive(true).build().unwrap();
    assert_eq!(match_flags(&corpus, &sensitive), vec![true, false]);
    assert_eq!(match_flags(&corpus, &insensitive), vec![true, true]);
    assert_eq!(match_flags(&corpus, &Regex::new("^yogi$").unwrap()), vec![false, true]);
}

#[test]
fn flags_follow_the_corpus() {
    let corpus = vec![fortune("a", "abc"), fortune("b", "xyz"), fortune("c", "cab")];
    assert_eq!(match_flags(&corpus, &Regex::new("ab").unwrap()), vec![true, false, true]);
    assert_eq!(match_flags(&[], &Regex::new("ab").unwrap()), Vec::<bool>::new());
}

#[test]
fn grouping_by_flags() {
    let corpus = vec![fortune("a", "1"), fortune("a", "2"), fortune("b", "3"), fortune("a", "4")];
    let blocks = group_matches(&corpus, &[true, false, true, true]);
    assert_eq!(
        shape(&blocks),
        vec![header("a"), body("1"), header("b"), body("3"), header("a"), body("4")]
    );
    assert!(group_matches(&corpus, &[false, false, false, false]).is_empty());
}

#[test]
fn missing_flags_count_as_misses() {
    let corpus = vec![fortune("a", "1"), fortune("b", "2"), fortune("c", "3")];
    let blocks = group_matches(&corpus, &[false, true]);
    assert_eq!(shape(&blocks), vec![header("b"), body("2")]);
    assert!(group_matches(&corpus, &[]).is_empty());
    let blocks = group_matches(&corpus[..1], &[true, true, true]);
    assert_eq!(shape(&blocks), vec![header("a"), body("1")]);
}

#[test]
fn blocks_are_rendered_with_their_delimiter_line() {
    let head = Block::Header { source: "jokes".to_string() };
    let text = Block::Body { text: "Q: why?\nA: because.".to_string() };
    assert_eq!(head.render(), "(jokes)\n%");
    assert_eq!(text.render(), "Q: why?\nA: because.\n%");
    assert!(head.is_header());
    assert!(!text.is_header());
}

#[test]
fn valid_pattern_compiles_and_matches() {
    let compiled = fortuner::pattern::compile_pattern("yo+gi", false).unwrap();
    assert_eq!(compiled.as_str(), "yo+gi");
    assert!(compiled.is_match("a yoogi b"));
    assert!(!compiled.is_match("a YOOGI b"));
    assert!(!compiled.is_match("yo+gi"));
}

#[test]
fn insensitive_pattern_ignores_case() {
    let compiled = fortuner::pattern::compile_pattern("yo+gi", true).unwrap();
    assert!(compiled.is_match("a yoogi b"));
    assert!(compiled.is_match("a YOOGI b"));
    assert!(!compiled.is_match("bear"));
}

#[test]
fn invalid_pattern_is_reported_with_its_reason() {
    let err = fortuner::pattern::compile_pattern("*", false).unwrap_err();
    assert_eq!(err.message, Regex::new("*").unwrap_err().to_string());
    assert!(err.message.contains("repetition operator missing expression"));
    let err = fortuner::pattern::compile_pattern("(", true).unwrap_err();
    assert!(err.message.contains("unclosed group"));
}

#[test]
fn compiled_pattern_drives_the_search() {
    let corpus = vec![fortune("a", "Yogi Berra"), fortune("b", "yogi"), fortune("b", "bear")];
    let sensitive = fortuner::pattern::compile_pattern("Yogi", false).unwrap();
    let insensitive = fortuner::pattern::compile_pattern("Yogi", true).unwrap();
    assert_eq!(shape(&search(&corpus, &sensitive)), vec![header("a"), body("Yogi Berra")]);
    assert_eq!(
        shape(&search(&corpus, &insensitive)),
        vec![header("a"), body("Yogi Berra"), header("b"), body("yogi")]
    );
}
