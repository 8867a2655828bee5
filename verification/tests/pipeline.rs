use language_identifier::layers::orthography::OrthoSignals;
use language_identifier::layers::script::ScriptCounts;
use language_identifier::lexicon::Lexicons;
use language_identifier::aggregate::{is_lzh_active, pick_hant_tag};
use language_identifier::pipeline::{
    analyze, context_note, decimal, dictionary_note, early_verdict, function_word_note,
    is_unsupported_only, kana_note, morphology_note, pick_han_strategy, script_notes,
};
use language_identifier::types::Status;
use language_identifier::segments::HanStrategy;

fn counts(kana: usize) -> ScriptCounts {
    ScriptCounts { hiragana: kana, ..Default::default() }
}

fn ortho(hans: usize, hant: usize) -> OrthoSignals {
    OrthoSignals { hans_markers: hans, hant_markers: hant, ..Default::default() }
}

#[test]
fn han_strategy_follows_kana_and_markers() {
    assert_eq!(pick_han_strategy(&counts(2), &ortho(3, 0)), HanStrategy::HansPreferred);
    assert_eq!(pick_han_strategy(&counts(2), &ortho(0, 3)), HanStrategy::HantPreferred);
    assert_eq!(pick_han_strategy(&counts(2), &ortho(2, 0)), HanStrategy::JapaneseClaimsHan);
    assert_eq!(pick_han_strategy(&counts(0), &ortho(1, 0)), HanStrategy::HansPreferred);
    assert_eq!(pick_han_strategy(&counts(0), &ortho(0, 1)), HanStrategy::HantPreferred);
    assert_eq!(pick_han_strategy(&counts(0), &ortho(1, 1)), HanStrategy::HanAmbiguous);
    assert_eq!(pick_han_strategy(&counts(0), &ortho(0, 0)), HanStrategy::HanAmbiguous);
    assert_eq!(pick_han_strategy(&counts(1), &ortho(5, 5)), HanStrategy::JapaneseClaimsHan);
}

#[test]
fn hant_tag_follows_regional_markers() {
    let mut o = OrthoSignals::default();
    assert_eq!(pick_hant_tag(&o), "zh-Hant");
    o.hant_hk_markers = 1;
    assert_eq!(pick_hant_tag(&o), "zh-Hant-HK");
    o.hant_tw_markers = 1;
    assert_eq!(pick_hant_tag(&o), "zh-Hant");
    o.hant_hk_markers = 0;
    assert_eq!(pick_hant_tag(&o), "zh-Hant-TW");
}

#[test]
fn classical_needs_three_markers_and_four_han() {
    let mut o = OrthoSignals::default();
    o.lzh_markers = 3;
    assert!(is_lzh_active(&o, 4));
    assert!(!is_lzh_active(&o, 3));
    o.lzh_markers = 2;
    assert!(!is_lzh_active(&o, 10));
}

#[test]
fn unsupported_only_when_no_supported_script() {
    let mut c = ScriptCounts::default();
    assert!(!is_unsupported_only(&c));
    c.other = 3;
    assert!(is_unsupported_only(&c));
    c.latin = 1;
    assert!(!is_unsupported_only(&c));
}

#[test]
fn kana_notes() {
    assert_eq!(kana_note(&counts(0), &ortho(0, 0)), None);
    assert_eq!(
        kana_note(&counts(2), &ortho(0, 0)),
        Some("Japanese kana present — Han characters interpreted as kanji")
    );
    assert_eq!(
        kana_note(&counts(2), &ortho(1, 0)),
        Some("Japanese kana present alongside Chinese-only markers — Han split proportionally")
    );
    assert_eq!(
        kana_note(&counts(2), &ortho(0, 3)),
        Some("Japanese kana present, but Chinese-only markers outweigh kana — Han attributed proportionally")
    );
}

#[test]
fn analysis_runs_every_layer() {
    let mut lex = Lexicons::new();
    lex.add("en", "the\nteacher\n");
    let a = analyze("  The teacher  先生です。", &lex);
    assert_eq!(a.normalized.text, "The teacher 先生です。");
    assert_eq!(a.counts.latin, 10);
    assert_eq!(a.counts.hiragana, 2);
    assert_eq!(a.counts.han, 2);
    assert_eq!(a.han_strategy, HanStrategy::JapaneseClaimsHan);
    assert_eq!(a.function_words.per_language.get("en").copied(), Some(2));
    assert_eq!(a.dictionary.recognized_tokens, 2);
    assert_eq!(a.morphology.latin_attribution.len(), 2);
    assert_eq!(a.morphology.per_language.get("ja").copied(), Some(1));
    assert_eq!(a.context.sentences.len(), 1);
    let langs: Vec<&str> = a.segments.iter().map(|s| s.language.as_str()).collect();
    assert_eq!(langs, vec!["en", "ja"]);
}

#[test]
fn blank_input_has_nothing_visible() {
    let a = analyze(" \n\t ", &Lexicons::new());
    assert_eq!(a.normalized.visible_chars, 0);
    assert!(a.segments.is_empty());
}

#[test]
fn decimals() {
    assert_eq!(decimal(0), "0");
    assert_eq!(decimal(7), "7");
    assert_eq!(decimal(10), "10");
    assert_eq!(decimal(1203), "1203");
    assert_eq!(decimal(usize::MAX), usize::MAX.to_string());
}

#[test]
fn script_notes_list_counts_and_markers() {
    let a = analyze("Tôi học 老师です", &Lexicons::new());
    let notes = script_notes(&a.counts, &a.ortho);
    assert_eq!(
        notes,
        vec![
            "Script counts — latin:6, hiragana:2, katakana:0, han:2, hangul:0".to_string(),
            "Vietnamese diacritic markers detected: 1".to_string(),
            "Simplified-Chinese-only markers detected: 1".to_string(),
            "Japanese kana present alongside Chinese-only markers — Han split proportionally"
                .to_string(),
        ]
    );
}

#[test]
fn dictionary_note_reports_recognized_tokens() {
    let mut lex = Lexicons::new();
    lex.add("en", "teacher\nla\n");
    lex.add("vi", "la\n");
    let a = analyze("teacher la", &lex);
    assert_eq!(
        dictionary_note(&a.dictionary).as_deref(),
        Some("Dictionary — 2 recognized tokens (1 ambiguous across lexicons)")
    );
    let a = analyze("xyz", &lex);
    assert_eq!(dictionary_note(&a.dictionary), None);
}

#[test]
fn early_verdicts() {
    let lex = Lexicons::new();
    let a = analyze(" ... ", &lex);
    assert_eq!(early_verdict(&a), Some((Status::Unknown, "Empty input after normalization")));
    let a = analyze("123 ΩΣ", &lex);
    assert_eq!(
        early_verdict(&a),
        Some((Status::Unsupported, "Input uses scripts that are not in the supported set"))
    );
    let a = analyze("hello", &lex);
    assert_eq!(early_verdict(&a), None);
}

#[test]
fn count_listings_are_in_code_point_order() {
    let mut lex = Lexicons::new();
    lex.add("en", "the\nof\n");
    lex.add("ja", "は\n");
    let a = analyze("the of the 先生は学生です。 Hello there. 老师好。學生好。", &lex);
    assert_eq!(
        function_word_note(&a.function_words).as_deref(),
        Some("Function-word hits — en:3, ja:1")
    );
    assert_eq!(
        context_note(&a.context).as_deref(),
        Some("Context window — 4 sentences, dominant: {en:1, ja:1, zh-Hans:1, zh-Hant:1}; multi-language paragraph")
    );
    let a = analyze("这是老师。他是学生。", &lex);
    // "zh-Hans:1" sorts before "zh:1" as text.
    assert_eq!(
        context_note(&a.context).as_deref(),
        Some("Context window — 2 sentences, dominant: {zh-Hans:1, zh:1}")
    );
    assert_eq!(morphology_note(&a.morphology).as_deref(), Some("Morphology — zh:3"));
}

#[test]
fn morphology_note_counts_attributed_words() {
    let mut lex = Lexicons::new();
    lex.add("en", "teacher\n");
    let a = analyze("teacher です", &lex);
    assert_eq!(
        morphology_note(&a.morphology).as_deref(),
        Some("Morphology — en:1, ja:1 (1 Latin tokens attributed)")
    );
    let a = analyze("xyz", &lex);
    assert_eq!(morphology_note(&a.morphology), None);
    assert_eq!(function_word_note(&a.function_words), None);
}
