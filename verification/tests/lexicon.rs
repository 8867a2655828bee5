use language_identifier::lexicon::Lexicons;

#[test]
fn a_list_reads_back_its_words() {
    let mut lex = Lexicons::new();
    lex.add("en", "the\r\nof\n\nand");
    assert!(lex.contains("en", &['t', 'h', 'e']));
    assert!(lex.contains("en", &['o', 'f']));
    assert!(lex.contains("en", &['a', 'n', 'd']));
    assert!(!lex.contains("en", &[]));
    assert!(!lex.contains("fr", &['t', 'h', 'e']));
    assert_eq!(lex.raw_for("en"), "the\r\nof\n\nand");
}

#[test]
fn adding_again_replaces_the_list() {
    let mut lex = Lexicons::new();
    lex.add("en", "the\n");
    lex.add("vi", "là\n");
    lex.add("en", "of\n");
    assert!(!lex.contains("en", &['t', 'h', 'e']));
    assert!(lex.contains("en", &['o', 'f']));
    assert!(lex.contains("vi", &['l', 'à']));
}

#[test]
fn top_words_are_the_first_fifty_lines() {
    let mut raw = String::new();
    for i in 0..55 {
        raw.push_str(&format!("w{i}\n"));
    }
    let mut lex = Lexicons::new();
    lex.add("en", &raw);
    assert!(lex.is_top_word("en", &['w', '4', '9']));
    assert!(!lex.is_top_word("en", &['w', '5', '0']));
    assert!(lex.contains("en", &['w', '5', '4']));
}
