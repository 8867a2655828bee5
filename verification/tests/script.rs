use language_identifier::layers::normalize::normalize;
use language_identifier::layers::script::{classify, count_scripts, Script};

#[test]
fn classifies_latin_extended() {
    assert_eq!(classify('a'), Script::Latin);
    assert_eq!(classify('é'), Script::Latin);
    assert_eq!(classify('ế'), Script::Latin);
    assert_eq!(classify('Đ'), Script::Latin);
}

#[test]
fn classifies_kana_and_han() {
    assert_eq!(classify('の'), Script::Hiragana);
    assert_eq!(classify('カ'), Script::Katakana);
    assert_eq!(classify('先'), Script::Han);
}

#[test]
fn classifies_hangul() {
    assert_eq!(classify('한'), Script::Hangul);
}

#[test]
fn counts_mixed_text() {
    let n = normalize("先生は大学で日本語を教えています。");
    let c = count_scripts(&n);
    assert!(c.han > 0);
    assert!(c.hiragana > 0);
}

#[test]
fn counts_each_script_exactly() {
    let n = normalize("Ab カナ の 한 先 1!");
    let c = count_scripts(&n);
    assert_eq!(c.latin, 2);
    assert_eq!(c.katakana, 2);
    assert_eq!(c.hiragana, 1);
    assert_eq!(c.hangul, 1);
    assert_eq!(c.han, 1);
    assert_eq!(c.other, 2);
    assert_eq!(c.supported_total(), 7);
    assert_eq!(c.kana(), 3);
}

#[test]
fn digits_and_symbols_are_other() {
    assert_eq!(classify('1'), Script::Other);
    assert_eq!(classify('Ω'), Script::Other);
    assert_eq!(classify('ㄱ'), Script::Hangul);
    assert_eq!(classify('ㇰ'), Script::Katakana);
}
