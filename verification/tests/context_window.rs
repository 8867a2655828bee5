use language_identifier::layers::context_window::{classify_sentence, count_embedded_han_runs, score};
use language_identifier::layers::normalize::normalize;

#[test]
fn pure_english_paragraph_one_winner() {
    let n = normalize("The teacher asked a question. The student answered.");
    let s = score(&n);
    assert_eq!(s.per_language.get("en").copied(), Some(2));
    assert!(!s.multi_language);
}

#[test]
fn pure_japanese_paragraph_one_winner() {
    let n = normalize("先生は親切です。学生たちは熱心に勉強しています。");
    let s = score(&n);
    assert_eq!(s.per_language.get("ja").copied().unwrap_or(0), 2);
    assert!(!s.multi_language);
}

#[test]
fn cjk_full_stop_splits_sentences() {
    let n = normalize("先生は親切です。学生は元気です。");
    let s = score(&n);
    assert_eq!(s.sentences.len(), 2);
}

#[test]
fn period_splits_latin_sentences() {
    let n = normalize("Hello world. How are you?");
    let s = score(&n);
    assert_eq!(s.sentences.len(), 2);
}

#[test]
fn normalize_collapses_newlines_so_one_logical_paragraph_yields_one_sentence() {
    let n = normalize("line one\nline two");
    let s = score(&n);
    assert_eq!(s.sentences.len(), 1);
}

#[test]
fn mixed_en_ja_paragraph_is_multi_language() {
    let n = normalize("The teacher asked a question. 先生は親切です。");
    let s = score(&n);
    assert!(s.multi_language, "{s:?}");
}

#[test]
fn empty_input_no_sentences() {
    let n = normalize("");
    let s = score(&n);
    assert!(s.sentences.is_empty());
}

#[test]
fn single_sentence_no_terminator() {
    let n = normalize("hello world");
    let s = score(&n);
    assert_eq!(s.sentences.len(), 1);
}

#[test]
fn sentence_boundaries_index_into_normalized_text() {
    let n = normalize("先生。学生。");
    let s = score(&n);
    for sent in &s.sentences {
        let slice = &n.text[sent.start..sent.end];
        assert!(!slice.is_empty());
    }
}

#[test]
fn sentence_byte_ranges_are_exact() {
    let n = normalize("Hi. 先生。");
    let s = score(&n);
    assert_eq!(s.sentences.len(), 2);
    assert_eq!((s.sentences[0].start, s.sentences[0].end), (0, 3));
    assert_eq!(s.sentences[0].language, "en");
    assert_eq!((s.sentences[1].start, s.sentences[1].end), (4, 13));
    assert_eq!(s.sentences[1].language, "zh");
}

#[test]
fn at_most_fifty_sentences_are_classified() {
    let text = "Go. ".repeat(60);
    let n = normalize(&text);
    let s = score(&n);
    assert_eq!(s.sentences.len(), 50);
    assert_eq!(s.per_language.get("en").copied(), Some(50));
}

#[test]
fn sentence_language_rules() {
    assert_eq!(classify_sentence(&"先生です".chars().collect()), Some("ja"));
    assert_eq!(classify_sentence(&"한국어".chars().collect()), Some("ko"));
    assert_eq!(classify_sentence(&"老师好".chars().collect()), Some("zh-Hans"));
    assert_eq!(classify_sentence(&"學生".chars().collect()), Some("zh-Hant"));
    assert_eq!(classify_sentence(&"这們".chars().collect()), Some("zh"));
    assert_eq!(classify_sentence(&"先生 hello".chars().collect()), Some("en"));
    assert_eq!(classify_sentence(&"123 !".chars().collect()), None);
}

#[test]
fn vietnamese_needs_five_percent_of_latin_letters() {
    let mut s: Vec<char> = "ạ".chars().collect();
    s.extend("b".repeat(19).chars());
    assert_eq!(classify_sentence(&s), Some("vi"));
    s.push('b');
    assert_eq!(classify_sentence(&s), Some("en"));
}

#[test]
fn embedded_han_runs_need_five_characters() {
    assert_eq!(count_embedded_han_runs(&"中文老师在大学は中文老师".chars().collect()), 1);
    assert_eq!(count_embedded_han_runs(&"日本語を勉強".chars().collect()), 0);
    assert_eq!(count_embedded_han_runs(&"中文老师在".chars().collect()), 1);
}

#[test]
fn embedded_chinese_in_japanese_sentences_is_multi_language() {
    let n = normalize("これは中文老师在大学教中文です。それも中文老师在大学です。");
    let s = score(&n);
    assert_eq!(s.embedded_han_runs, 2);
    assert!(s.multi_language);
}

#[test]
fn runner_up_below_a_fifth_is_not_multi_language() {
    let text = format!("{}先生は親切です。", "Hello there. ".repeat(6));
    let n = normalize(&text);
    let s = score(&n);
    assert_eq!(s.per_language.get("en").copied(), Some(6));
    assert_eq!(s.per_language.get("ja").copied(), Some(1));
    assert!(!s.multi_language);
}

#[test]
fn simplified_and_traditional_sentences_count_as_one_language() {
    let n = normalize("老师好。學生好。");
    let s = score(&n);
    assert!(!s.multi_language, "{s:?}");
}
