use language_identifier::layers::ml::openlid::{scrub_newlines, LoadError, OpenLidClassifier};

#[test]
fn openlid_scrub_newlines_replaces_cr_and_lf() {
    assert_eq!(scrub_newlines("a\nb\rc\r\nd"), "a b c  d");
}

#[test]
fn openlid_builder_without_path_errors() {
    let r = OpenLidClassifier::builder().build(Err(String::new()));
    assert!(matches!(r, Err(LoadError::NoModelPath)));
}

#[test]
fn openlid_builder_with_bogus_path_errors() {
    let b = OpenLidClassifier::builder().model_path("/nonexistent/path/to/openlid-v3.bin");
    let loaded = fasttext::FastText::load_model(b.path().unwrap()).map_err(|e| e.to_string());
    let r = b.build(loaded);
    assert!(matches!(r, Err(LoadError::FastText(_))));
}

#[test]
fn openlid_classifier_is_send_and_sync() {
    fn assert_send_sync<T: Send + Sync>() {}
    assert_send_sync::<OpenLidClassifier>();
}

#[test]
fn scrub_keeps_length_and_other_characters() {
    let s = scrub_newlines("日本\r\n語");
    assert_eq!(s, "日本  語");
    assert_eq!(s.chars().count(), 5);
}
