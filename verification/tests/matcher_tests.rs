use grrs::find_matches;
use grrs::CappedSink;
use grrs::StringSink;

#[test]
fn find_a_match() {
    let mut result = StringSink::new();
    find_matches("lorem ipsum\ndolor sit amet", "lorem", &mut result).unwrap();
    assert_eq!(result.as_text(), "lorem ipsum\n");
}

#[test]
fn check_answer_validity() {
    assert_eq!(grrs::answer(), 42);
}

#[test]
fn repeated_matches_kept_in_order() {
    let mut result = StringSink::new();
    find_matches("foo\nfoo\nbar", "foo", &mut result).unwrap();
    assert_eq!(result.as_text(), "foo\nfoo\n");
}

#[test]
fn empty_pattern_matches_single_line() {
    let mut result = StringSink::new();
    find_matches("abc", "", &mut result).unwrap();
    assert_eq!(result.as_text(), "abc\n");
}

#[test]
fn empty_pattern_matches_every_line() {
    let mut result = StringSink::new();
    find_matches("ab\n\ncd", "", &mut result).unwrap();
    assert_eq!(result.as_text(), "ab\n\ncd\n");
}

#[test]
fn empty_content_matches_nothing() {
    let mut result = StringSink::new();
    find_matches("", "x", &mut result).unwrap();
    assert_eq!(result.as_text(), "");
}

#[test]
fn matching_is_case_sensitive() {
    let mut result = StringSink::new();
    find_matches("lorem ipsum\ndolor sit amet", "Lorem", &mut result).unwrap();
    assert_eq!(result.as_text(), "");
}

#[test]
fn matches_come_in_source_order() {
    let mut result = StringSink::new();
    find_matches("x first\nother\nx second\nx third", "x ", &mut result).unwrap();
    assert_eq!(result.as_text(), "x first\nx second\nx third\n");
}

#[test]
fn trailing_terminator_yields_trailing_empty_line() {
    let mut result = StringSink::new();
    find_matches("a\n", "", &mut result).unwrap();
    assert_eq!(result.as_text(), "a\n\n");
}

#[test]
fn trailing_empty_line_does_not_match_nonempty_pattern() {
    let mut result = StringSink::new();
    find_matches("a\n", "a", &mut result).unwrap();
    assert_eq!(result.as_text(), "a\n");
}

#[test]
fn lone_terminator_is_two_empty_lines() {
    let mut result = StringSink::new();
    find_matches("\n", "", &mut result).unwrap();
    assert_eq!(result.as_text(), "\n\n");
}

#[test]
fn crlf_terminators_are_stripped() {
    let mut result = StringSink::new();
    find_matches("one\r\ntwo\r\nthree", "t", &mut result).unwrap();
    assert_eq!(result.as_text(), "two\nthree\n");
}

#[test]
fn two_runs_write_identical_output() {
    let mut first = StringSink::new();
    let mut second = StringSink::new();
    find_matches("foo\nbar\nfoobar", "foo", &mut first).unwrap();
    find_matches("foo\nbar\nfoobar", "foo", &mut second).unwrap();
    assert_eq!(first.as_text(), second.as_text());
    assert_eq!(first.as_text(), "foo\nfoobar\n");
}

#[test]
fn failing_write_stops_the_search() {
    let mut sink = CappedSink::with_room(1);
    let outcome = find_matches("foo one\nskip\nfoo two\nfoo three", "foo", &mut sink);
    assert!(outcome.is_err());
    assert_eq!(sink.as_text(), "foo one\n");
}

#[test]
fn failure_on_the_first_write_leaves_nothing() {
    let mut sink = CappedSink::with_room(0);
    let outcome = find_matches("match\nmatch", "match", &mut sink);
    assert!(outcome.is_err());
    assert_eq!(sink.as_text(), "");
}
