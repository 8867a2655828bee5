use language_identifier::layers::dictionary::{contains, raw_lexicon_for_function_words, score};
use language_identifier::layers::normalize::normalize;
use language_identifier::lexicon::Lexicons;

/// Small word lists standing in for the bundled ones.
fn lexicons() -> Lexicons {
    let mut lex = Lexicons::new();
    lex.add("en", "the\nof\nteacher\nprofessor\nuniversity\nstudent\nla\n");
    lex.add("vi", "là\ncủa\ngiáo\nviên\nđại\nhọc\nla\n");
    lex.add("ja", "の\nは\n先生\n大学\n日本語\n");
    lex.add("zh-Hans", "的\n是\n先生\n大学\n老师\n");
    lex.add("zh-Hant", "的\n是\n先生\n大學\n老師\n");
    lex.add("ko", "이\n학생\n학교\n");
    lex
}

#[test]
fn english_tokens_resolve_to_en_exclusively() {
    let n = normalize("teacher professor university student");
    let s = score(&n, &lexicons());
    assert!(s.exclusive_per_language.get("en").copied().unwrap_or(0) >= 2);
    assert_eq!(s.exclusive_per_language.get("ja").copied().unwrap_or(0), 0);
}

#[test]
fn shared_cjk_token_marks_ambiguity() {
    let n = normalize("先生");
    let s = score(&n, &lexicons());
    let in_ja = s.hits_per_language.get("ja").copied().unwrap_or(0) > 0;
    let in_zh = s.hits_per_language.get("zh-Hans").copied().unwrap_or(0) > 0
        || s.hits_per_language.get("zh-Hant").copied().unwrap_or(0) > 0;
    assert!(in_ja && in_zh, "expected 先生 in both ja and zh: {s:?}");
    assert!(s.ambiguous_tokens >= 1);
}

#[test]
fn vietnamese_tokens_resolve_to_vi() {
    let n = normalize("giáo viên đại học");
    let s = score(&n, &lexicons());
    assert!(s.hits_per_language.get("vi").copied().unwrap_or(0) >= 1);
}

#[test]
fn dictionary_empty_input_yields_empty_signal() {
    let n = normalize("");
    let s = score(&n, &lexicons());
    assert_eq!(s.recognized_tokens, 0);
    assert!(s.hits_per_language.is_empty());
}

#[test]
fn repeated_tokens_count_once() {
    let n = normalize("Teacher teacher TEACHER la");
    let s = score(&n, &lexicons());
    // "Teacher", "teacher", "TEACHER" are three distinct tokens that all
    // lower-case into the English list; "la" is in two lists.
    assert_eq!(s.recognized_tokens, 4);
    assert_eq!(s.ambiguous_tokens, 1);
    assert_eq!(s.hits_per_language.get("en").copied(), Some(4));
    assert_eq!(s.exclusive_per_language.get("en").copied(), Some(3));
    assert_eq!(s.shared_per_language.get("en").copied(), Some(1));
    assert_eq!(s.shared_per_language.get("vi").copied(), Some(1));
    let n = normalize("teacher teacher");
    let s = score(&n, &lexicons());
    assert_eq!(s.recognized_tokens, 1);
}

#[test]
fn hits_are_exclusive_plus_shared() {
    let n = normalize("先生は大学で日本語 teacher la 老师");
    let s = score(&n, &lexicons());
    for lang in ["en", "vi", "ja", "zh-Hans", "zh-Hant", "ko"] {
        let hits = s.hits_per_language.get(lang).copied().unwrap_or(0);
        let excl = s.exclusive_per_language.get(lang).copied().unwrap_or(0);
        let shared = s.shared_per_language.get(lang).copied().unwrap_or(0);
        assert_eq!(hits, excl + shared, "{lang}");
    }
    assert!(s.ambiguous_tokens <= s.recognized_tokens);
}

#[test]
fn cjk_windows_of_two_to_four() {
    let n = normalize("大学");
    let s = score(&n, &lexicons());
    assert_eq!(s.hits_per_language.get("ja").copied(), Some(1));
    assert_eq!(s.hits_per_language.get("zh-Hans").copied(), Some(1));
    assert_eq!(s.hits_per_language.get("zh-Hant").copied(), None);
    let n = normalize("日本語");
    let s = score(&n, &lexicons());
    assert_eq!(s.exclusive_per_language.get("ja").copied(), Some(1));
}

#[test]
fn list_lookup_reads_the_registered_list() {
    let lex = lexicons();
    assert!(contains(&lex, "en", "teacher"));
    assert!(!contains(&lex, "en", "Teacher"));
    assert!(!contains(&lex, "de", "teacher"));
    assert_eq!(raw_lexicon_for_function_words(&lex, "ko"), "이\n학생\n학교\n");
    assert_eq!(raw_lexicon_for_function_words(&lex, "de"), "");
}

#[test]
fn only_the_dictionary_languages_are_consulted() {
    let mut lex = lexicons();
    lex.add("fr", "le\nla\n");
    assert!(!contains(&lex, "fr", "le"));
    assert_eq!(raw_lexicon_for_function_words(&lex, "fr"), "");
    let n = normalize("le la");
    let s = score(&n, &lex);
    assert_eq!(s.recognized_tokens, 1);
    assert_eq!(s.hits_per_language.get("fr"), None);
}
