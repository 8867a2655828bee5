use language_identifier::layers::function_words::{is_top_function_word, score};
use language_identifier::layers::normalize::normalize;
use language_identifier::lexicon::Lexicons;

/// Small frequency-ranked word lists standing in for the bundled ones.
fn lexicons() -> Lexicons {
    let mut lex = Lexicons::new();
    lex.add("en", "the\nof\nand\nto\na\nin\nis\nthat\nfor\nit\nwas\non\nteacher\nstudent\nschool\n");
    lex.add("fr", "de\nla\nle\net\nles\ndes\nen\nun\nune\nest\ndans\nsur\npour\nqui\n");
    lex.add("vi", "là\ncủa\nvà\ncó\nkhông\nđược\ntrong\nngười\nnhững\nmột\ncác\ncho\n");
    lex.add("ja", "の\nに\nは\nを\nた\nが\nで\nて\nと\nし\nも\nます\n先生\n大学\n");
    lex.add("zh-Hans", "的\n是\n在\n了\n不\n和\n有\n大\n这\n中\n人\n老师\n大学\n");
    lex.add("zh-Hant", "的\n是\n在\n了\n不\n和\n有\n大\n這\n中\n人\n老師\n大學\n");
    lex.add("ko", "이\n의\n는\n을\n에\n가\n은\n를\n로\n다\n학교\n");
    lex
}

#[test]
fn english_stopwords_counted() {
    let n = normalize("the teacher and the student of the school");
    let s = score(&n, &lexicons());
    assert!(s.per_language.get("en").copied().unwrap_or(0) >= 3);
}

#[test]
fn japanese_particles_counted() {
    let n = normalize("先生は大学で日本語を教えています");
    let s = score(&n, &lexicons());
    assert!(s.per_language.get("ja").copied().unwrap_or(0) >= 2);
}

#[test]
fn chinese_particles_counted() {
    let n = normalize("老师在大学教中文");
    let s = score(&n, &lexicons());
    let zh = s.per_language.get("zh-Hans").copied().unwrap_or(0)
        + s.per_language.get("zh-Hant").copied().unwrap_or(0);
    assert!(zh >= 1, "{s:?}");
}

#[test]
fn vietnamese_stopwords_counted() {
    let n = normalize("là của và có không được");
    let s = score(&n, &lexicons());
    assert!(s.per_language.get("vi").copied().unwrap_or(0) >= 3);
}

#[test]
fn french_stopwords_counted() {
    let n = normalize("le chat est sur la table et dans la maison");
    let s = score(&n, &lexicons());
    assert!(s.per_language.get("fr").copied().unwrap_or(0) >= 4);
}

#[test]
fn korean_particles_counted() {
    let n = normalize("선생님은 학생을 가르치는 학교에서");
    let s = score(&n, &lexicons());
    assert!(s.per_language.get("ko").copied().unwrap_or(0) >= 1);
}

#[test]
fn cantonese_particles_counted() {
    let n = normalize("我嘅學生喺學校");
    let s = score(&n, &lexicons());
    assert!(s.per_language.get("yue").copied().unwrap_or(0) >= 2);
}

#[test]
fn classical_function_words_counted() {
    let n = normalize("學而時習之，不亦說乎");
    let s = score(&n, &lexicons());
    assert!(s.per_language.get("lzh").copied().unwrap_or(0) >= 2);
}

#[test]
fn function_words_empty_input_yields_empty_signal() {
    let n = normalize("");
    let s = score(&n, &lexicons());
    assert!(s.per_language.is_empty());
}

#[test]
fn counts_are_exact() {
    let n = normalize("The cat and the dog");
    let s = score(&n, &lexicons());
    assert_eq!(s.per_language.get("en").copied(), Some(3));
    assert_eq!(s.per_language.len(), 1);
    let n = normalize("我嘅學生喺學校");
    let s = score(&n, &lexicons());
    assert_eq!(s.per_language.get("yue").copied(), Some(2));
    assert_eq!(s.per_language.get("zh-Hans").copied(), None);
}

#[test]
fn two_character_windows_count() {
    let n = normalize("老师");
    let s = score(&n, &lexicons());
    assert_eq!(s.per_language.get("zh-Hans").copied(), Some(1));
    assert_eq!(s.per_language.get("zh-Hant").copied(), None);
}

#[test]
fn only_the_head_of_a_list_is_a_function_word() {
    let mut words = String::new();
    for i in 0..60 {
        words.push_str(&format!("w{i}\n"));
    }
    let mut lex = Lexicons::new();
    lex.add("en", &words);
    assert!(is_top_function_word(&lex, "en", "w0"));
    assert!(is_top_function_word(&lex, "en", "w49"));
    assert!(!is_top_function_word(&lex, "en", "w50"));
    assert!(!is_top_function_word(&lex, "de", "w0"));
    assert!(is_top_function_word(&lex, "yue", "嘅"));
    assert!(is_top_function_word(&lex, "lzh", "之"));
}
