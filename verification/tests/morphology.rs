use language_identifier::layers::morphology::score;
use language_identifier::layers::normalize::normalize;
use language_identifier::lexicon::Lexicons;

/// Small word lists standing in for the bundled ones.
fn lexicons() -> Lexicons {
    let mut lex = Lexicons::new();
    lex.add("en", "the\nof\nand\nteacher\nstudent\nla\nthing\n");
    lex.add("vi", "là\ncủa\ngiáo\nviên\nnhanh\nla\nthing\n");
    lex
}

#[test]
fn english_only_word_attributes_to_en() {
    let n = normalize("teacher");
    let s = score(&n, &lexicons());
    assert_eq!(s.latin_attribution.len(), 1);
    assert_eq!(s.latin_attribution[0].language, "en");
}

#[test]
fn vi_diacritic_word_attributes_to_vi() {
    let n = normalize("thầy");
    let s = score(&n, &lexicons());
    assert_eq!(s.latin_attribution[0].language, "vi");
}

#[test]
fn shape_word_with_vi_initial_and_final_attributes_to_vi() {
    let n = normalize("nhanh");
    let s = score(&n, &lexicons());
    if !s.latin_attribution.is_empty() {
        assert_eq!(s.latin_attribution[0].language, "vi");
    }
}

#[test]
fn ambiguous_la_falls_to_en() {
    let n = normalize("la");
    let s = score(&n, &lexicons());
    if !s.latin_attribution.is_empty() {
        assert_eq!(s.latin_attribution[0].language, "en");
    }
}

#[test]
fn multi_word_input_produces_multiple_attributions() {
    let n = normalize("teacher giáo viên student");
    let s = score(&n, &lexicons());
    let langs: Vec<&str> = s.latin_attribution.iter().map(|a| a.language).collect();
    assert!(langs.contains(&"en"));
    assert!(langs.contains(&"vi"));
}

#[test]
fn ja_verb_ending_counted() {
    let n = normalize("先生は教えています");
    let s = score(&n, &lexicons());
    assert!(s.per_language.get("ja").copied().unwrap_or(0) >= 1);
}

#[test]
fn ja_copula_endings_counted() {
    let n = normalize("私は学生です。先生はとても親切でした。");
    let s = score(&n, &lexicons());
    assert!(s.per_language.get("ja").copied().unwrap_or(0) >= 2);
}

#[test]
fn ko_predicate_ending_counted() {
    let n = normalize("학생입니다");
    let s = score(&n, &lexicons());
    assert!(s.per_language.get("ko").copied().unwrap_or(0) >= 1);
}

#[test]
fn zh_pattern_counted() {
    let n = normalize("这是老师");
    let s = score(&n, &lexicons());
    assert!(s.per_language.get("zh").copied().unwrap_or(0) >= 1);
}

#[test]
fn empty_input_empty_signal() {
    let n = normalize("");
    let s = score(&n, &lexicons());
    assert!(s.per_language.is_empty());
    assert!(s.latin_attribution.is_empty());
}

#[test]
fn cjk_only_input_has_no_latin_attribution() {
    let n = normalize("先生は大学で日本語を教えています");
    let s = score(&n, &lexicons());
    assert!(s.latin_attribution.is_empty());
}

#[test]
fn unknown_token_leaves_no_attribution() {
    let n = normalize("xqzplmwyt");
    let s = score(&n, &lexicons());
    assert!(s.latin_attribution.is_empty());
}

#[test]
fn attributions_carry_character_spans_in_order() {
    let n = normalize("teacher, thầy và student");
    let s = score(&n, &lexicons());
    let got: Vec<(usize, usize, &str)> =
        s.latin_attribution.iter().map(|a| (a.start, a.end, a.language)).collect();
    assert_eq!(got, vec![(0, 7, "en"), (9, 13, "vi"), (17, 24, "en")]);
    assert_eq!(s.per_language.get("en").copied(), Some(2));
    assert_eq!(s.per_language.get("vi").copied(), Some(1));
}

#[test]
fn shape_decides_words_in_both_lists() {
    let n = normalize("nhanh the thing");
    let mut lex = Lexicons::new();
    lex.add("en", "nhanh\nthe\nthing\n");
    lex.add("vi", "nhanh\nthe\nthing\n");
    let s = score(&n, &lex);
    let langs: Vec<&str> = s.latin_attribution.iter().map(|a| a.language).collect();
    // "thing" starts with th- and ends with -ng: both Vietnamese clusters.
    assert_eq!(langs, vec!["vi", "en", "vi"]);
}

#[test]
fn ending_counts_are_exact() {
    let n = normalize("这是不是也是");
    let s = score(&n, &lexicons());
    // 是 ×3, 不是, 这是, 也是
    assert_eq!(s.per_language.get("zh").copied(), Some(6));
    let n = normalize("でしたでした");
    let s = score(&n, &lexicons());
    assert_eq!(s.per_language.get("ja").copied(), Some(2));
}
