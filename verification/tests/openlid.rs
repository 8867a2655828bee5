use language_identifier::layers::ml::openlid::unsupported_label;
use language_identifier::openlid::{from_openlid_label, is_supported_openlid_label, static_lookup};

#[test]
fn tolerates_label_prefix() {
    assert_eq!(from_openlid_label("__label__eng_Latn", ""), Some("en"));
    assert_eq!(from_openlid_label("__label__yue_Hant", ""), Some("yue"));
}

#[test]
fn tier1_round_trips() {
    for (label, tag) in [
        ("eng_Latn", "en"),
        ("fra_Latn", "fr"),
        ("vie_Latn", "vi"),
        ("jpn_Jpan", "ja"),
        ("kor_Hang", "ko"),
        ("yue_Hant", "yue"),
        ("lzh_Hani", "lzh"),
        ("nan_Hani", "nan"),
        ("hak_Hani", "hak"),
        ("wuu_Hans", "wuu"),
    ] {
        assert_eq!(from_openlid_label(label, ""), Some(tag), "{label}");
    }
}

#[test]
fn sinitic_delegates_to_resolve_zh() {
    assert_eq!(from_openlid_label("cmn_Hans", "我们今天去学校"), Some("zh-Hans"));
    assert_eq!(from_openlid_label("cmn_Hans", "Hello"), Some("zh-Hans"));
    assert_eq!(from_openlid_label("cmn_Hant", "學生"), Some("zh-Hant"));
    assert_eq!(from_openlid_label("cmn_Hant", "學生嘥時間"), Some("zh-Hant-HK"));
    assert_eq!(from_openlid_label("cmn_Hant", "臺灣的學生"), Some("zh-Hant-TW"));
    assert_eq!(from_openlid_label("cmn_Hant", "我嘅學生"), Some("yue"));
    assert_eq!(
        from_openlid_label("cmn_Hans", "子曰：學而時習之，不亦說乎？"),
        Some("lzh")
    );
}

#[test]
fn tier2_newcomers_lookup() {
    for (label, tag) in [
        ("spa_Latn", "es"),
        ("deu_Latn", "de"),
        ("rus_Cyrl", "ru"),
        ("arb_Arab", "ar"),
        ("tha_Thai", "th"),
        ("hin_Deva", "hi"),
        ("por_Latn", "pt"),
        ("ita_Latn", "it"),
        ("nld_Latn", "nl"),
        ("ckb_Arab", "ckb"),
        ("uig_Arab", "ug"),
    ] {
        assert_eq!(from_openlid_label(label, ""), Some(tag), "{label}");
    }
}

#[test]
fn unknown_label_returns_none() {
    assert_eq!(from_openlid_label("xxx_Yyyy", ""), None);
    assert_eq!(from_openlid_label("", ""), None);
    assert_eq!(from_openlid_label("en", ""), None);
}

#[test]
fn is_supported_covers_known_labels() {
    for label in [
        "eng_Latn", "fra_Latn", "cmn_Hans", "cmn_Hant", "yue_Hant", "spa_Latn", "rus_Cyrl",
        "arb_Arab",
    ] {
        assert!(is_supported_openlid_label(label), "expected {label} supported");
        assert!(is_supported_openlid_label(&format!("__label__{label}")));
    }
}

#[test]
fn is_supported_rejects_off_list_labels() {
    for label in ["xxx_Yyyy", "en", ""] {
        assert!(!is_supported_openlid_label(label), "expected {label} unsupported");
    }
}

#[test]
fn supported_exactly_when_mapped() {
    for label in ["eng_Latn", "cmn_Hant", "__label__zul_Latn", "xxx_Yyyy", "", "__label__"] {
        for text in ["", "學生", "hello"] {
            assert_eq!(
                is_supported_openlid_label(label),
                from_openlid_label(label, text).is_some(),
                "{label}"
            );
        }
    }
}

#[test]
fn prefix_is_stripped_only_once() {
    assert_eq!(from_openlid_label("__label____label__eng_Latn", ""), None);
    assert_eq!(from_openlid_label("__label__eng_Latn", ""), from_openlid_label("eng_Latn", ""));
}

#[test]
fn table_rows_with_several_labels() {
    assert_eq!(static_lookup("nan_Latn"), Some("nan"));
    assert_eq!(static_lookup("min_Arab"), Some("min"));
    assert_eq!(static_lookup("taq_Tfng"), Some("taq"));
    assert_eq!(static_lookup("vec_Latn"), Some("vec"));
    assert_eq!(static_lookup("cmn_Hans"), None);
}

#[test]
fn unsupported_label_reports_bare_code() {
    assert_eq!(unsupported_label("__label__xxx_Yyyy").as_deref(), Some("xxx_Yyyy"));
    assert_eq!(unsupported_label("__label__eng_Latn"), None);
    assert_eq!(unsupported_label("cmn_Hans"), None);
}
