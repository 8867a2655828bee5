use language_identifier::tokenize::{icu, ja, tokenize, zh};
use language_identifier::types::{Segment, Token};

fn segment(language: &str, start: usize, text: &str) -> Segment {
    Segment {
        language: language.to_string(),
        start,
        end: start + text.len(),
        text: text.to_string(),
        tokens: Vec::new(),
    }
}

fn check_tokens(seg: &Segment) {
    let mut last_end = seg.start;
    for tok in &seg.tokens {
        assert!(tok.start >= seg.start && tok.end <= seg.end, "{tok:?}");
        assert!(tok.start < tok.end);
        assert!(tok.start >= last_end, "{tok:?}");
        assert_eq!(&seg.text[tok.start - seg.start..tok.end - seg.start], tok.text);
        assert!(!tok.text.chars().all(char::is_whitespace));
        last_end = tok.end;
    }
}

#[test]
fn icu_tokenizes_english_segment() {
    let mut seg = segment("en", 5, "The quick brown fox");
    tokenize(&mut seg, &Vec::new());
    check_tokens(&seg);
    let texts: Vec<&str> = seg.tokens.iter().map(|t| t.text.as_str()).collect();
    assert_eq!(texts, vec!["The", "quick", "brown", "fox"]);
    assert_eq!((seg.tokens[1].start, seg.tokens[1].end), (9, 14));
}

#[test]
fn jieba_tokenizes_chinese_segment() {
    let mut seg = segment("zh-Hans", 3, "王老师在大学教中文");
    tokenize(&mut seg, &Vec::new());
    assert!(!seg.tokens.is_empty());
    check_tokens(&seg);
    let joined: String = seg.tokens.iter().map(|t| t.text.as_str()).collect();
    assert_eq!(joined, "王老师在大学教中文");
}

#[test]
fn japanese_spans_are_lifted() {
    let mut seg = segment("ja", 10, "先生です");
    tokenize(&mut seg, &vec![(0, 6), (6, 12), (12, 12), (6, 99)]);
    check_tokens(&seg);
    let got: Vec<(String, usize, usize)> =
        seg.tokens.iter().map(|t| (t.text.clone(), t.start, t.end)).collect();
    assert_eq!(got, vec![("先生".to_string(), 10, 16), ("です".to_string(), 16, 22)]);
}

#[test]
fn empty_segment_keeps_its_tokens() {
    let mut seg = segment("en", 0, "");
    seg.tokens.push(Token { text: "x".to_string(), start: 0, end: 1 });
    tokenize(&mut seg, &Vec::new());
    assert_eq!(seg.tokens.len(), 1);
}

#[test]
fn whitespace_only_spans_are_dropped() {
    let pairs = ja::tokenize("a  b", &vec![(0, 1), (1, 3), (3, 4)]);
    assert_eq!(pairs, vec![("a".to_string(), 0, 1), ("b".to_string(), 3, 4)]);
}

#[test]
fn backends_can_be_called_directly() {
    let pairs = icu::tokenize("hello world");
    assert_eq!(pairs, vec![("hello".to_string(), 0, 5), ("world".to_string(), 6, 11)]);
    let pairs = zh::tokenize("中文");
    let joined: String = pairs.iter().map(|p| p.0.as_str()).collect();
    assert_eq!(joined, "中文");
}
