use ccwc::{count_content, count_text, Counts};

fn counts(bytes: usize, chars: usize, words: usize, lines: usize) -> Counts {
    Counts { bytes, chars, words, lines }
}

#[test]
fn bytes_are_the_raw_length() {
    let c = count_content(&[0xff, 0xfe, b'a']);
    assert_eq!(c.bytes, 3);
    // each invalid byte decodes to one replacement character
    assert_eq!(c.chars, 3);
    assert_eq!(c.words, 1);
    assert_eq!(c.lines, 0);
}

#[test]
fn chars_count_scalar_values() {
    let text = "h\u{e9}llo w\u{f6}rld\n";
    let c = count_content(text.as_bytes());
    assert_eq!(c, counts(14, 12, 2, 1));
    assert!(c.chars <= c.bytes);
}

#[test]
fn four_byte_characters() {
    let c = count_content("\u{1F600}\u{1F600}".as_bytes());
    assert_eq!(c, counts(8, 2, 1, 0));
}

#[test]
fn empty_content_counts_nothing() {
    assert_eq!(count_content(b""), counts(0, 0, 0, 0));
}

#[test]
fn final_line_without_line_feed_is_not_counted() {
    assert_eq!(count_content(b"a\nb").lines, 1);
    assert_eq!(count_content(b"\n\n\n").lines, 3);
}

#[test]
fn words_are_maximal_runs() {
    assert_eq!(count_content(b"  foo   bar  ").words, 2);
    assert_eq!(count_content(b"foo bar").words, 2);
    assert_eq!(count_content(b"averyveryverylongword x").words, 2);
    assert_eq!(count_content(b" \t\n\r ").words, 0);
    assert_eq!(count_content(b"one").words, 1);
}

#[test]
fn unicode_white_space_separates_words() {
    let text = "a\u{3000}b\u{a0}c\u{2028}d\u{85}e";
    assert_eq!(count_content(text.as_bytes()).words, 5);
}

#[test]
fn white_space_agrees_with_char_classification() {
    for u in 0u32..=0x10FFFF {
        if let Some(ch) = char::from_u32(u) {
            let s = ch.to_string();
            let c = count_text(s.as_str(), 0);
            let expected = if ch.is_whitespace() { 0 } else { 1 };
            assert_eq!(c.words, expected, "U+{:04X}", u);
        }
    }
}

#[test]
fn count_text_keeps_given_bytes() {
    let c = count_text("ab c\n", 99);
    assert_eq!(c, counts(99, 5, 2, 1));
}

#[test]
fn counting_twice_gives_the_same_counters() {
    let data = b"some text\nover two lines\n";
    assert_eq!(count_content(data), count_content(data));
}
