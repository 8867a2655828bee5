use language_identifier::bcp47::{macro_of, resolve_zh, variants_of};

#[test]
fn mandarin_words_are_not_cantonese() {
    assert_eq!(resolve_zh("自由"), "zh-Hans");
    assert_eq!(resolve_zh("仔细"), "zh-Hans");
}

#[test]
fn resolve_zh_defaults_to_hans() {
    assert_eq!(resolve_zh("我们今天去学校"), "zh-Hans");
    assert_eq!(resolve_zh(""), "zh-Hans");
    assert_eq!(resolve_zh("Hello world"), "zh-Hans");
}

#[test]
fn resolve_zh_routes_to_hant() {
    assert_eq!(resolve_zh("學生"), "zh-Hant");
    assert_eq!(resolve_zh("我們的關係"), "zh-Hant");
    assert_eq!(resolve_zh("權限"), "zh-Hant");
}

#[test]
fn resolve_zh_routes_to_yue_on_cantonese_markers() {
    assert_eq!(resolve_zh("我嘅學生"), "yue");
    assert_eq!(resolve_zh("佢喺學校"), "yue");
}

#[test]
fn resolve_zh_routes_to_lzh_on_classical_density() {
    assert_eq!(resolve_zh("子曰：學而時習之，不亦說乎？"), "lzh");
}

#[test]
fn resolve_zh_routes_to_hant_hk() {
    assert_eq!(resolve_zh("學生嘥時間"), "zh-Hant-HK");
}

#[test]
fn resolve_zh_routes_to_hant_tw() {
    assert_eq!(resolve_zh("臺灣的學生"), "zh-Hant-TW");
}

#[test]
fn macro_of_collapses_sinitic_variants_to_zh() {
    for fine in [
        "zh",
        "zh-Hans",
        "zh-Hant",
        "zh-Hant-HK",
        "zh-Hant-TW",
        "yue",
        "lzh",
        "nan",
        "hak",
        "wuu",
    ] {
        assert_eq!(macro_of(fine), "zh", "{fine} should collapse to zh");
    }
}

#[test]
fn macro_of_is_identity_for_other_supported_tags() {
    for tag in ["en", "fr", "vi", "ja", "ko"] {
        assert_eq!(macro_of(tag), tag);
    }
}

#[test]
fn macro_of_passes_unknown_tags_through() {
    assert_eq!(macro_of("de"), "de");
    assert_eq!(macro_of("es"), "es");
    assert_eq!(macro_of(""), "");
}

#[test]
fn variants_of_zh_lists_every_fine_tag() {
    let v = variants_of("zh");
    for fine in [
        "zh-Hans",
        "zh-Hant",
        "zh-Hant-HK",
        "zh-Hant-TW",
        "yue",
        "lzh",
        "nan",
        "hak",
        "wuu",
    ] {
        assert!(v.contains(&fine), "variants_of(\"zh\") missing {fine}");
    }
}

#[test]
fn variants_of_single_macro_languages_returns_self() {
    for tag in ["en", "fr", "vi", "ja", "ko"] {
        assert_eq!(variants_of(tag), &[tag]);
    }
}

#[test]
fn variants_of_unknown_macro_is_empty() {
    assert_eq!(variants_of("de"), &[] as &[&str]);
}

#[test]
fn every_variant_collapses_back_to_its_macro() {
    for m in ["zh", "en", "fr", "vi", "ja", "ko"] {
        for v in variants_of(m) {
            assert_eq!(macro_of(v), m);
        }
    }
}

#[test]
fn resolved_chinese_is_always_a_zh_variant() {
    for text in ["我们", "學生", "我嘅學生", "子曰：學而時習之，不亦說乎？", "學生嘥時間", "臺灣的學生", ""] {
        let tag = resolve_zh(text);
        assert!(variants_of("zh").contains(&tag));
        assert_eq!(macro_of(tag), "zh");
    }
}

#[test]
fn macro_of_twice_is_macro_of_once() {
    for tag in ["zh-Hant-HK", "yue", "en", "de", ""] {
        assert_eq!(macro_of(macro_of(tag)), macro_of(tag));
    }
}

#[test]
fn cantonese_beats_classical_and_regional_markers() {
    assert_eq!(resolve_zh("佢之乎者也嘥"), "yue");
    assert_eq!(resolve_zh("學生嘥臺"), "zh-Hant");
}
