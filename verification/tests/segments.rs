use language_identifier::layers::morphology::LatinAttribution;
use language_identifier::layers::normalize::normalize;
use language_identifier::layers::orthography;
use language_identifier::segments::{extract, HanStrategy};

#[test]
fn pure_english_single_segment() {
    let n = normalize("Teacher and student");
    let o = orthography::detect(&n);
    let segs = extract(&n, &o, HanStrategy::HanAmbiguous, &Vec::new());
    assert_eq!(segs.len(), 1);
    assert_eq!(segs[0].language, "en");
    assert_eq!(&n.text[segs[0].start..segs[0].end], "Teacher and student");
}

#[test]
fn japanese_embedded_in_english() {
    let n = normalize("Please read 先生 carefully");
    let o = orthography::detect(&n);
    let segs = extract(&n, &o, HanStrategy::JapaneseClaimsHan, &Vec::new());
    let langs: Vec<&str> = segs.iter().map(|s| s.language.as_str()).collect();
    assert!(langs.contains(&"en") && langs.contains(&"ja"), "{segs:?}");
    let ja_span = segs.iter().find(|s| s.language == "ja").unwrap();
    assert_eq!(&n.text[ja_span.start..ja_span.end], "先生");
}

#[test]
fn vietnamese_segment_keeps_plain_latin_inside() {
    let n = normalize("xin chào bạn");
    let o = orthography::detect(&n);
    let segs = extract(&n, &o, HanStrategy::HanAmbiguous, &Vec::new());
    assert!(segs.iter().any(|s| s.language == "vi"));
}

#[test]
fn empty_input_no_segments() {
    let n = normalize("");
    let o = orthography::detect(&n);
    let segs = extract(&n, &o, HanStrategy::HanAmbiguous, &Vec::new());
    assert!(segs.is_empty());
}

#[test]
fn segment_offsets_are_valid_utf8_boundaries() {
    let n = normalize("a先生b");
    let o = orthography::detect(&n);
    let segs = extract(&n, &o, HanStrategy::JapaneseClaimsHan, &Vec::new());
    for s in &segs {
        let _ = &n.text[s.start..s.end];
    }
}

#[test]
fn segments_are_ordered_and_carry_their_text() {
    let n = normalize("Hello こんにちは middle 先生 trailing");
    let o = orthography::detect(&n);
    let segs = extract(&n, &o, HanStrategy::JapaneseClaimsHan, &Vec::new());
    let langs: Vec<&str> = segs.iter().map(|s| s.language.as_str()).collect();
    assert_eq!(langs, vec!["en", "ja", "en", "ja", "en"]);
    for w in segs.windows(2) {
        assert!(w[0].end <= w[1].start);
    }
    for s in &segs {
        assert!(s.start < s.end);
        assert_eq!(s.text, &n.text[s.start..s.end]);
        assert!(s.tokens.is_empty());
    }
}

#[test]
fn latin_attribution_overrides_letters() {
    let n = normalize("I like giao vien");
    let o = orthography::detect(&n);
    let attrs = vec![LatinAttribution { start: 7, end: 11, language: "vi" }, LatinAttribution {
        start: 12,
        end: 16,
        language: "vi",
    }];
    let segs = extract(&n, &o, HanStrategy::HanAmbiguous, &attrs);
    let got: Vec<(&str, &str)> = segs.iter().map(|s| (s.language.as_str(), s.text.as_str())).collect();
    assert_eq!(got, vec![("en", "I like"), ("vi", "giao vien")]);
}

#[test]
fn han_strategy_tags() {
    let n = normalize("先生");
    let o = orthography::detect(&n);
    for (h, tag) in [
        (HanStrategy::HansPreferred, "zh-Hans"),
        (HanStrategy::HantPreferred, "zh-Hant"),
        (HanStrategy::HantHkPreferred, "zh-Hant-HK"),
        (HanStrategy::HantTwPreferred, "zh-Hant-TW"),
        (HanStrategy::CantonesePreferred, "yue"),
        (HanStrategy::ClassicalPreferred, "lzh"),
        (HanStrategy::HanAmbiguous, "zh"),
        (HanStrategy::JapaneseClaimsHan, "ja"),
    ] {
        let segs = extract(&n, &o, h, &Vec::new());
        assert_eq!(segs.len(), 1);
        assert_eq!(segs[0].language, tag);
    }
}

#[test]
fn chinese_run_inside_japanese_takes_its_own_strategy() {
    let n = normalize("日本語の文の中に 中文老师在大学教中文 という例です");
    let o = orthography::detect(&n);
    let segs = extract(&n, &o, HanStrategy::JapaneseClaimsHan, &Vec::new());
    let zh = segs.iter().find(|s| s.language == "zh-Hans").expect("zh-Hans segment");
    assert_eq!(zh.text, "中文老师在大学教中文");
    assert!(segs.iter().any(|s| s.language == "ja"));
}

#[test]
fn french_markers_pull_ascii_letters_to_french() {
    let n = normalize("garçon");
    let o = orthography::detect(&n);
    let segs = extract(&n, &o, HanStrategy::HanAmbiguous, &Vec::new());
    assert_eq!(segs.len(), 1);
    assert_eq!(segs[0].language, "fr");
}

#[test]
fn latin_letters_close_a_han_run() {
    let n = normalize("日本の中A们です");
    let o = orthography::detect(&n);
    let segs = extract(&n, &o, HanStrategy::JapaneseClaimsHan, &Vec::new());
    let got: Vec<(&str, &str)> = segs.iter().map(|s| (s.language.as_str(), s.text.as_str())).collect();
    assert_eq!(got, vec![("ja", "日本の中"), ("en", "A"), ("zh-Hans", "们"), ("ja", "です")]);
}
