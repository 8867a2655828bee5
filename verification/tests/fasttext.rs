use language_identifier::layers::ml::fasttext::{
    is_supported_lid176_code, map_label, scrub_newlines, unsupported_code, FastTextClassifier,
    LoadError,
};

/// Read a model file as the program does.
fn load(path: &str) -> Result<fasttext::FastText, String> {
    fasttext::FastText::load_model(path).map_err(|e| e.to_string())
}

#[test]
fn label_mapping_supported() {
    assert_eq!(map_label("__label__en"), Some("en-US"));
    assert_eq!(map_label("__label__vi"), Some("vi-VN"));
    assert_eq!(map_label("__label__ja"), Some("ja"));
    assert_eq!(map_label("__label__ko"), Some("ko"));
}

#[test]
fn label_mapping_drops_zh() {
    assert_eq!(map_label("__label__zh"), None);
}

#[test]
fn label_mapping_drops_unrelated_languages() {
    assert_eq!(map_label("__label__fr"), None);
    assert_eq!(map_label("__label__de"), None);
    assert_eq!(map_label("__label__zh-cn"), None);
    assert_eq!(map_label("__label__"), None);
}

#[test]
fn label_mapping_tolerates_missing_prefix() {
    assert_eq!(map_label("en"), Some("en-US"));
}

#[test]
fn is_supported_treats_zh_as_supported() {
    assert!(is_supported_lid176_code("zh"));
}

#[test]
fn is_supported_rejects_unsupported_codes() {
    assert!(!is_supported_lid176_code("fr"));
    assert!(!is_supported_lid176_code("de"));
    assert!(!is_supported_lid176_code("es"));
    assert!(!is_supported_lid176_code(""));
}

#[test]
fn fasttext_scrub_newlines_replaces_cr_and_lf() {
    assert_eq!(scrub_newlines("a\nb\rc\r\nd"), "a b c  d");
}

#[test]
fn fasttext_builder_without_path_errors() {
    let b = FastTextClassifier::builder();
    assert!(b.path().is_none());
    let r = b.build(Err(String::new()));
    assert!(matches!(r, Err(LoadError::NoModelPath)));
}

#[test]
fn fasttext_builder_with_bogus_path_errors() {
    let b = FastTextClassifier::builder().model_path("/nonexistent/path/to/lid.176.bin");
    let loaded = load(b.path().unwrap());
    let r = b.build(loaded);
    assert!(matches!(r, Err(LoadError::FastText(_))));
}

#[test]
fn fasttext_classifier_is_send_and_sync() {
    fn assert_send_sync<T: Send + Sync>() {}
    assert_send_sync::<FastTextClassifier>();
}

#[test]
fn every_mapped_code_is_supported() {
    for label in ["en", "vi", "ja", "ko", "zh", "fr", "__label__en", ""] {
        if map_label(label).is_some() {
            let code = label.strip_prefix("__label__").unwrap_or(label);
            assert!(is_supported_lid176_code(code));
        }
    }
}

#[test]
fn unsupported_code_strips_prefix() {
    assert_eq!(unsupported_code("__label__fr").as_deref(), Some("fr"));
    assert_eq!(unsupported_code("__label__zh"), None);
    assert_eq!(unsupported_code("ko"), None);
}

#[test]
fn top_k_is_at_least_one() {
    let b = FastTextClassifier::builder().top_k(0).model_path("/nonexistent/model.bin");
    let loaded = load(b.path().unwrap());
    match b.build(loaded) {
        Err(LoadError::FastText(msg)) => assert!(!msg.is_empty()),
        _ => panic!("expected a load error"),
    }
}
