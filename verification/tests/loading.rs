use fortuner::corpus::{parse_fortunes, read_fortunes, Fortune, SourceFile};
use fortuner::records::{is_delimiter, is_space_byte};

const JOKES: &str = "Q. What do you call a head of lettuce in a shirt and tie?\n\
A. Collared greens.\n\
%\n\
Q: Why did the gardener quit his job?\n\
A: His celery wasn't high enough.\n\
%\n\
Q. Why did the honeydew couple get married in a church?\n\
A. Their parents told them they cantaloupe.\n\
%\n\
Q: What do you call a bee from America?\n\
A: A USB.\n\
%\n\
Q: What is fast, loud and crunchy?\n\
A: A rocket chip.\n\
%\n\
Q: What do you call a deer wearing an eye patch?\n\
A: A bad idea (bad-eye deer).\n\
%\n";

const QUOTES: &str = "You can observe a lot just by watching.\n\
-- Yogi Berra\n\
%\n\
Beware of bugs in the above code.\n\
%\n\
Simplicity is prerequisite for reliability.\n\
%\n\
Talk is cheap.\n\
%\n\
There is no reason anyone would want a computer in their home.\n\
%\n";

fn readable(path: &str, content: &str) -> SourceFile {
    SourceFile { path: path.to_string(), content: Ok(content.to_string()) }
}

fn unreadable(path: &str, cause: &str) -> SourceFile {
    SourceFile { path: path.to_string(), content: Err(cause.to_string()) }
}

fn texts(fortunes: &[Fortune]) -> Vec<String> {
    fortunes.iter().map(|f| f.text.clone()).collect()
}

fn delimited(texts: &[&str]) -> String {
    let mut out = String::new();
    for text in texts {
        out.push_str(text);
        out.push_str("\n%\n");
    }
    out
}

#[test]
fn test_read_fortunes() {
    let res = read_fortunes(&[readable("./tests/inputs/jokes", JOKES)]);
    assert!(res.is_ok());

    if let Ok(fortunes) = res {
        assert_eq!(fortunes.len(), 6);
        assert_eq!(
            fortunes.first().unwrap().text,
            "Q. What do you call a head of lettuce in a shirt and tie?\n\
                A. Collared greens."
        );
        assert_eq!(
            fortunes.last().unwrap().text,
            "Q: What do you call a deer wearing an eye patch?\n\
                A: A bad idea (bad-eye deer)."
        );
    }

    let res = read_fortunes(&[
        readable("./tests/inputs/jokes", JOKES),
        readable("./tests/inputs/quotes", QUOTES),
    ]);
    assert!(res.is_ok());
    assert_eq!(res.unwrap().len(), 11);
}

#[test]
fn fortunes_carry_the_base_name_of_their_file() {
    let corpus = read_fortunes(&[
        readable("./tests/inputs/jokes", "a\n%\nb\n%\n"),
        readable("quotes", "c\n%\n"),
    ])
    .unwrap();
    let labels: Vec<(&str, &str)> =
        corpus.iter().map(|f| (f.source.as_str(), f.text.as_str())).collect();
    assert_eq!(labels, vec![("jokes", "a"), ("jokes", "b"), ("quotes", "c")]);
}

#[test]
fn corpus_keeps_file_order_then_record_order() {
    let corpus = read_fortunes(&[
        readable("z", "z1\n%\nz2\n%\n"),
        readable("a", "a1\n%\na2\n%\n"),
    ])
    .unwrap();
    assert_eq!(texts(&corpus), vec!["z1", "z2", "a1", "a2"]);
}

#[test]
fn unreadable_file_fails_the_whole_load() {
    let err = read_fortunes(&[
        readable("dir/jokes", JOKES),
        unreadable("dir/locked", "Permission denied (os error 13)"),
        unreadable("dir/other", "gone"),
    ])
    .unwrap_err();
    assert_eq!(err.path, "dir/locked");
    assert_eq!(err.cause, "Permission denied (os error 13)");
    assert_eq!(err.message(), "dir/locked: Permission denied (os error 13)");
}

#[test]
fn no_files_give_an_empty_corpus() {
    assert!(read_fortunes(&[]).unwrap().is_empty());
}

#[test]
fn file_without_records_is_absorbed() {
    let corpus = read_fortunes(&[
        readable("empty", ""),
        readable("blank", "\n\n%\n  \n%\n"),
        readable("one", "x\n%\n"),
    ])
    .unwrap();
    assert_eq!(texts(&corpus), vec!["x"]);
}

#[test]
fn delimited_texts_are_read_back() {
    let written = ["first", "second\nline", "  third", "50%", "%%", "% of", "a\n%b"];
    let content = delimited(&written);
    let parsed = parse_fortunes("f", &content);
    assert_eq!(parsed.len(), written.len());
    assert_eq!(texts(&parsed), written.to_vec());
    let again: Vec<&str> = parsed.iter().map(|f| f.text.as_str()).collect();
    assert_eq!(delimited(&again), content);
}

#[test]
fn trailing_delimiter_gives_no_empty_record() {
    let parsed = parse_fortunes("f", "one\n%\ntwo\n%\n");
    assert_eq!(texts(&parsed), vec!["one", "two"]);
}

#[test]
fn last_record_may_lack_its_delimiter() {
    let parsed = parse_fortunes("f", "one\n%\ntwo\n");
    assert_eq!(texts(&parsed), vec!["one", "two"]);
    let parsed = parse_fortunes("f", "only");
    assert_eq!(texts(&parsed), vec!["only"]);
}

#[test]
fn delimiter_needs_its_newline() {
    let parsed = parse_fortunes("f", "one\n%\ntwo\n%");
    assert_eq!(texts(&parsed), vec!["one", "two\n%"]);
}

#[test]
fn delimiter_is_a_whole_line() {
    let parsed = parse_fortunes("f", "100%\nsure\n%\n %\n% \n%%\nx%\n%\n");
    assert_eq!(texts(&parsed), vec!["100%\nsure", " %\n% \n%%\nx%"]);
}

#[test]
fn leading_delimiter_and_blank_segments_are_dropped() {
    let parsed = parse_fortunes("f", "%\n%\n\n%\none\n%\n \t\r\n%\ntwo\n%\n%\n");
    assert_eq!(texts(&parsed), vec!["one", "two"]);
}

#[test]
fn trailing_whitespace_is_trimmed_and_the_rest_kept() {
    let parsed = parse_fortunes("f", "  lead\n\n  mid  \nend \t\r\n\n\n%\n\nnext\n%\n");
    assert_eq!(texts(&parsed), vec!["  lead\n\n  mid  \nend", "\nnext"]);
}

#[test]
fn text_beyond_ascii_is_kept() {
    let parsed = parse_fortunes("f", "\u{e9}t\u{e9}\n\u{4e16}\u{754c}\n%\n\u{1f600}\n%\n");
    assert_eq!(texts(&parsed), vec!["\u{e9}t\u{e9}\n\u{4e16}\u{754c}", "\u{1f600}"]);
}

#[test]
fn empty_content_has_no_records() {
    assert!(parse_fortunes("f", "").is_empty());
    assert!(parse_fortunes("f", "%\n").is_empty());
    assert!(parse_fortunes("f", "\n").is_empty());
}

#[test]
fn parsed_texts_are_never_empty_nor_end_in_whitespace() {
    let parsed = parse_fortunes("f", "a \n%\n\n%\n b\n\n%\n%\nc");
    assert_eq!(parsed.len(), 3);
    for fortune in &parsed {
        assert!(!fortune.text.is_empty());
        assert!(!fortune.text.ends_with(|c: char| c.is_ascii_whitespace()));
        assert!(!fortune.text.contains("\n%\n"));
        assert!(!fortune.text.starts_with("%\n"));
        assert_eq!(fortune.source, "f");
    }
}

#[test]
fn delimiter_lines_are_recognised() {
    let bytes = b"%\na\n%\n%";
    assert!(is_delimiter(bytes, 0));
    assert!(!is_delimiter(bytes, 1));
    assert!(!is_delimiter(bytes, 2));
    assert!(is_delimiter(bytes, 4));
    assert!(!is_delimiter(bytes, 6));
    assert!(!is_delimiter(bytes, 7));
    assert!(!is_delimiter(b"a%\n", 1));
}

#[test]
fn whitespace_bytes() {
    for b in [b' ', b'\t', b'\n', 0x0b, 0x0c, b'\r'] {
        assert!(is_space_byte(b));
    }
    for b in [0x00, 0x08, 0x0e, 0x1f, b'%', b'a', 0x7f, 0x85, 0xa0, 0xff] {
        assert!(!is_space_byte(b));
    }
}
