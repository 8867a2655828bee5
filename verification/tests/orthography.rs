use language_identifier::layers::normalize::normalize;
use language_identifier::layers::orthography::{
    detect, detect_chars, has_yue_marker, is_classical_chinese, is_fr_marker_char,
    is_vi_marker_char,
};

#[test]
fn detects_vi_diacritics() {
    let n = normalize("giáo viên đại học");
    let s = detect(&n);
    assert!(s.vi_markers >= 3);
}

#[test]
fn no_vi_markers_in_english() {
    let n = normalize("university teacher");
    let s = detect(&n);
    assert_eq!(s.vi_markers, 0);
}

#[test]
fn detects_hans_markers() {
    let n = normalize("大学老师");
    let s = detect(&n);
    assert!(s.hans_markers >= 1);
    assert_eq!(s.hant_markers, 0);
}

#[test]
fn detects_hant_markers() {
    let n = normalize("學國來");
    let s = detect(&n);
    assert!(s.hant_markers >= 3);
    assert_eq!(s.hans_markers, 0);
}

#[test]
fn detects_extended_hant_markers() {
    for word in ["權限", "體會", "關係", "戰爭", "對話", "氣候", "臺灣"] {
        let n = normalize(word);
        let s = detect(&n);
        assert!(
            s.hant_markers >= 1,
            "expected at least one Hant marker in {word:?}: {s:?}"
        );
        assert_eq!(s.hans_markers, 0, "{word:?} must not register as Hans: {s:?}");
    }
}

#[test]
fn japanese_kanji_with_kana_no_strong_hans() {
    let n = normalize("先生");
    let s = detect(&n);
    assert_eq!(s.hans_markers, 0);
    assert_eq!(s.hant_markers, 0);
}

#[test]
fn vi_marker_includes_breve_and_horn() {
    let n = normalize("ăn cơm");
    let s = detect(&n);
    assert!(s.vi_markers >= 2);
}

#[test]
fn french_diacritics_do_not_register_as_vi() {
    let n = normalize("café résumé naïve");
    let s = detect(&n);
    assert_eq!(s.vi_markers, 0);
}

#[test]
fn french_cedilla_and_ligatures_register_as_fr_markers() {
    let n = normalize("garçon œuvre cœur");
    let s = detect(&n);
    assert!(s.fr_markers >= 3, "expected fr markers: {s:?}");
    assert_eq!(s.vi_markers, 0);
}

#[test]
fn fr_marker_check_is_disjoint_from_vi() {
    let n = normalize("đại học");
    let s = detect(&n);
    assert_eq!(s.fr_markers, 0);
}

#[test]
fn shinjitai_kanji_does_not_register_as_hans_only() {
    let n = normalize("学校で国語を勉強する");
    let s = detect(&n);
    assert_eq!(s.hans_markers, 0, "Shinjitai must not be Hans-only: {s:?}");
}

#[test]
fn vi_and_hans_can_coexist_in_one_input() {
    let n = normalize("Tôi học 老师");
    let s = detect(&n);
    assert!(s.vi_markers >= 1);
    assert!(s.hans_markers >= 1);
}

#[test]
fn detects_cantonese_markers() {
    let n = normalize("我嘅學生喺學校");
    let s = detect(&n);
    assert!(s.yue_markers >= 2, "expected yue markers: {s:?}");
}

#[test]
fn classical_chinese_density_trips() {
    assert!(is_classical_chinese("子曰：學而時習之，不亦說乎？"));
}

#[test]
fn modern_chinese_with_one_classical_particle_does_not_trip() {
    assert!(!is_classical_chinese("我之前去过北京"));
}

#[test]
fn detects_hant_tw_marker() {
    let n = normalize("臺灣");
    let s = detect(&n);
    assert!(s.hant_tw_markers >= 1);
}

#[test]
fn detects_hant_hk_marker() {
    let n = normalize("嘥時間");
    let s = detect(&n);
    assert!(s.hant_hk_markers >= 1);
}

#[test]
fn detects_wu_marker() {
    let n = normalize("儂好");
    let s = detect(&n);
    assert!(s.wuu_markers >= 1);
}

#[test]
fn marker_counts_are_exact() {
    let s = detect_chars(&['đ', 'ạ', 'a', 'ç', '们', '們', '嘅', '之', '臺', '阮', '儂']);
    assert_eq!(s.vi_markers, 2);
    assert_eq!(s.fr_markers, 1);
    assert_eq!(s.hans_markers, 1);
    assert_eq!(s.hant_markers, 1);
    assert_eq!(s.yue_markers, 1);
    assert_eq!(s.lzh_markers, 1);
    assert_eq!(s.hant_tw_markers, 1);
    assert_eq!(s.nan_markers, 1);
    assert_eq!(s.wuu_markers, 1);
    assert_eq!(s.hak_markers, 0);
    assert_eq!(s.hant_hk_markers, 0);
}

#[test]
fn no_letter_is_both_vi_and_fr_marker() {
    for c in ['đ', 'ạ', 'ă', 'ơ', 'ư', 'ç', 'œ', 'æ', 'Ç', 'Œ', 'Æ', 'é'] {
        assert!(!(is_vi_marker_char(c) && is_fr_marker_char(c)), "{c}");
    }
}

#[test]
fn detection_adds_up_over_concatenation() {
    let a = detect_chars(&['đ', '们', 'x']);
    let b = detect_chars(&['ạ', '們']);
    let ab = detect_chars(&['đ', '们', 'x', 'ạ', '們']);
    assert_eq!(ab.vi_markers, a.vi_markers + b.vi_markers);
    assert_eq!(ab.hans_markers, a.hans_markers + b.hans_markers);
    assert_eq!(ab.hant_markers, a.hant_markers + b.hant_markers);
}

#[test]
fn yue_marker_presence() {
    assert!(has_yue_marker("佢係學生"));
    assert!(!has_yue_marker("他是学生"));
    // Everyday Mandarin words: freedom, relation, careful.
    assert!(!has_yue_marker("自由"));
    assert!(!has_yue_marker("關係"));
    assert!(!has_yue_marker("仔细"));
}

#[test]
fn classical_needs_three_markers_among_four_han() {
    assert!(is_classical_chinese("之乎者也"));
    assert!(!is_classical_chinese("之乎者"));
    assert!(!is_classical_chinese("之乎 abc"));
}
