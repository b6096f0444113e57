use wordcount::count_words;
use wordcount::text::{line_word_count, whitespace_char};

#[test]
fn counts_words_across_lines() {
    let lines = vec![
        String::from("hello world"),
        String::from(""),
        String::from("a b c"),
    ];
    assert_eq!(count_words(&lines), 5);
}

#[test]
fn no_lines_hold_no_words() {
    let lines: Vec<String> = Vec::new();
    assert_eq!(count_words(&lines), 0);
}

#[test]
fn leading_and_trailing_whitespace() {
    assert_eq!(line_word_count("  foo   bar "), 2);
    assert_eq!(line_word_count(""), 0);
    assert_eq!(line_word_count("\t\t"), 0);
    assert_eq!(line_word_count("one"), 1);
}

#[test]
fn unicode_whitespace_separates_words() {
    // U+3000 (ideographic space) has the White_Space property.
    assert_eq!(line_word_count("foo\u{3000}bar"), 2);
    // U+200B (zero width space) does not, so it stays inside one word.
    assert_eq!(line_word_count("foo\u{200B}bar"), 1);
}

#[test]
fn whitespace_char_matches_the_standard_library() {
    for code in 0u32..0x3100 {
        if let Some(c) = char::from_u32(code) {
            assert_eq!(whitespace_char(c), c.is_whitespace(), "U+{:04X}", code);
        }
    }
}
