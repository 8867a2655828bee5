use language_identifier::layers::normalize::normalize;

#[test]
fn trims_and_collapses_whitespace() {
    let n = normalize("  hello   world  ");
    let joined: String = n.chars.iter().collect();
    assert_eq!(joined, "hello world");
}

#[test]
fn nfc_combines_decomposed() {
    let n = normalize("cafe\u{0301}");
    let joined: String = n.chars.iter().collect();
    assert_eq!(joined, "café");
}

#[test]
fn counts_visible_chars_excludes_punctuation() {
    let n = normalize("Hello, world!");
    assert_eq!(n.visible_chars, 10);
}

#[test]
fn cjk_punctuation_excluded_from_visible() {
    let n = normalize("先生は大学で日本語を教えています。");
    assert_eq!(n.visible_chars, n.chars.len() - 1);
}

#[test]
fn controls_are_dropped_and_line_breaks_become_spaces() {
    let n = normalize("a\u{7}b\n\tc\r\nd");
    assert_eq!(n.text, "ab c d");
    assert_eq!(n.chars.iter().collect::<String>(), n.text);
}

#[test]
fn byte_offsets_follow_utf8_widths() {
    let n = normalize("aé先😀");
    assert_eq!(n.char_byte_offsets, vec![0, 1, 3, 6, 10]);
    assert_eq!(n.text.len(), 10);
}

#[test]
fn normalizing_twice_changes_nothing() {
    for input in ["  Hello \t world \n", "cafe\u{0301}  au lait", "先生 \u{3000} です", ""] {
        let once = normalize(input);
        let twice = normalize(&once.text);
        assert_eq!(once.text, twice.text);
        assert_eq!(once.visible_chars, twice.visible_chars);
    }
}

#[test]
fn normalized_text_has_no_double_or_edge_whitespace() {
    let n = normalize("\u{3000} a \u{a0}\u{a0} b\u{2003}");
    assert_eq!(n.text, "a b");
    assert!(!n.text.contains("  "));
}

#[test]
fn combining_mark_after_dropped_control_is_not_composed_in_one_pass() {
    let once = normalize("e\u{7}\u{301}");
    assert_eq!(once.text, "e\u{301}");
    let twice = normalize(&once.text);
    assert_eq!(twice.text, "é");
}
