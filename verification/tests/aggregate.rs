use language_identifier::aggregate::{han_plan, latin_plan, HanPlan, LatinPlan};
use language_identifier::layers::morphology::LatinAttribution;
use language_identifier::layers::orthography::OrthoSignals;

fn attr(start: usize, end: usize, language: &'static str) -> LatinAttribution {
    LatinAttribution { start, end, language }
}

#[test]
fn attributed_letters_go_to_their_languages() {
    let attrs = vec![attr(0, 7, "en"), attr(8, 12, "vi"), attr(13, 20, "en")];
    let p = latin_plan(20, 0, 0, 0, 0, &attrs);
    assert_eq!(p, LatinPlan::Attributed { en: 14, fr: 0, vi: 4, remainder: 2, rest: "en" });
}

#[test]
fn unattributed_rest_follows_dense_vietnamese_markers() {
    let attrs = vec![attr(0, 5, "vi")];
    assert_eq!(
        latin_plan(10, 1, 0, 0, 0, &attrs),
        LatinPlan::Attributed { en: 0, fr: 0, vi: 5, remainder: 5, rest: "vi" }
    );
    assert_eq!(
        latin_plan(11, 1, 0, 0, 0, &attrs),
        LatinPlan::Attributed { en: 0, fr: 0, vi: 5, remainder: 6, rest: "en" }
    );
    let attrs = vec![attr(0, 5, "fr")];
    assert_eq!(
        latin_plan(8, 0, 1, 0, 0, &attrs),
        LatinPlan::Attributed { en: 0, fr: 5, vi: 0, remainder: 3, rest: "fr" }
    );
}

#[test]
fn without_attributions_markers_decide() {
    let none = Vec::new();
    assert_eq!(latin_plan(10, 1, 0, 0, 0, &none), LatinPlan::All("vi"));
    assert_eq!(latin_plan(20, 0, 1, 0, 0, &none), LatinPlan::All("fr"));
    assert_eq!(latin_plan(11, 1, 0, 0, 0, &none), LatinPlan::Split { tag: "vi", markers: 1 });
    assert_eq!(latin_plan(21, 0, 1, 0, 0, &none), LatinPlan::Split { tag: "fr", markers: 1 });
    assert_eq!(latin_plan(21, 0, 0, 1, 4, &none), LatinPlan::All("vi"));
    assert_eq!(latin_plan(21, 0, 0, 1, 3, &none), LatinPlan::All("en"));
}

#[test]
fn han_goes_to_classical_then_cantonese() {
    let mut o = OrthoSignals::default();
    o.lzh_markers = 3;
    o.yue_markers = 1;
    assert_eq!(han_plan(0, 4, &o), HanPlan::All("lzh"));
    assert_eq!(han_plan(0, 3, &o), HanPlan::All("yue"));
}

#[test]
fn han_splits_by_kana_and_markers() {
    let mut o = OrthoSignals::default();
    o.hans_markers = 2;
    o.hant_markers = 1;
    o.hant_tw_markers = 1;
    o.wuu_markers = 3;
    assert_eq!(
        han_plan(4, 10, &o),
        HanPlan::Proportional(vec![("ja", 4), ("zh-Hans", 2), ("zh-Hant-TW", 1), ("wuu", 3)])
    );
}

#[test]
fn han_without_evidence_is_split_evenly() {
    let mut o = OrthoSignals::default();
    assert_eq!(han_plan(0, 2, &o), HanPlan::Even("zh-Hant"));
    o.hant_hk_markers = 1;
    assert_eq!(han_plan(0, 2, &o), HanPlan::Even("zh-Hant-HK"));
}
