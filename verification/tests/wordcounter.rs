use std::io::{Error, ErrorKind};

use wordcount::wordcounter::{count_words, Counter, LineResult, WordCountError};

#[test]
fn count_single_word() {
    let input = vec![LineResult::Line(String::from("foobar"))];
    let wordcount = count_words(input).unwrap();
    assert_eq!(wordcount, 1);
}

#[test]
fn count_multiple_words() {
    let input = vec![
        LineResult::Line(String::from("foo bar")),
        LineResult::Line(String::from("baz")),
    ];
    let wordcount = count_words(input).unwrap();
    assert_eq!(wordcount, 3);
}

#[test]
fn empty_input() {
    let input = Vec::new();
    let err = count_words(input).unwrap_err();
    assert!(matches!(err, WordCountError::EmptySource { .. }));
}

#[test]
fn read_timeout() {
    let input = vec![LineResult::ReadFailed(Error::new(
        ErrorKind::TimedOut,
        "read: timeout",
    ))];
    let err = count_words(input).unwrap_err();
    assert!(matches!(err, WordCountError::ReadError { .. }));
}

#[test]
fn whitespace_only_is_empty() {
    let input = vec![
        LineResult::Line(String::from("  ")),
        LineResult::Line(String::from("\t ")),
    ];
    let err = count_words(input).unwrap_err();
    assert!(matches!(err, WordCountError::EmptySource { .. }));
}

#[test]
fn read_failure_cause_is_preserved() {
    let input = vec![
        LineResult::Line(String::from("one two three")),
        LineResult::ReadFailed(Error::new(ErrorKind::BrokenPipe, "pipe closed")),
    ];
    let err = count_words(input).unwrap_err();
    match err {
        WordCountError::ReadError { source } => {
            assert_eq!(source.kind(), ErrorKind::BrokenPipe);
            assert_eq!(source.to_string(), "pipe closed");
        }
        _ => panic!("expected a read error"),
    }
}

#[test]
fn events_after_failure_are_ignored() {
    let input = vec![
        LineResult::Line(String::from("one two")),
        LineResult::ReadFailed(Error::new(ErrorKind::TimedOut, "read: timeout")),
        LineResult::Line(String::from("three")),
    ];
    let err = count_words(input).unwrap_err();
    assert!(matches!(err, WordCountError::ReadError { .. }));
}

#[test]
fn repeated_invocation_yields_same_count() {
    let first = vec![
        LineResult::Line(String::from("foo bar")),
        LineResult::Line(String::from("baz")),
    ];
    let second = vec![
        LineResult::Line(String::from("foo bar")),
        LineResult::Line(String::from("baz")),
    ];
    assert_eq!(count_words(first).unwrap(), count_words(second).unwrap());
}

#[test]
fn chunking_does_not_change_the_count() {
    let joined = vec![LineResult::Line(String::from("foo bar\nbaz"))];
    let split = vec![
        LineResult::Line(String::from("foo bar")),
        LineResult::Line(String::from("baz")),
    ];
    assert_eq!(count_words(joined).unwrap(), 3);
    assert_eq!(count_words(split).unwrap(), 3);
}

#[test]
fn counter_accumulates_lines() {
    let mut counter = Counter::new();
    counter.add_line("hello world");
    assert_eq!(counter.count(), 2);
    counter.add_line("  spaced   out  ");
    assert_eq!(counter.count(), 4);
    assert_eq!(counter.finish().unwrap(), 4);
}

#[test]
fn counter_with_no_words_is_empty() {
    let mut counter = Counter::new();
    counter.add_line("");
    counter.add_line("   ");
    let err = counter.finish().unwrap_err();
    assert!(matches!(err, WordCountError::EmptySource { .. }));
}

#[test]
fn io_error_variant_keeps_its_cause() {
    let err = WordCountError::IOError(Error::new(ErrorKind::Other, "transport fault"));
    match err {
        WordCountError::IOError(cause) => assert_eq!(cause.to_string(), "transport fault"),
        _ => panic!("expected the wrapped failure"),
    }
}
