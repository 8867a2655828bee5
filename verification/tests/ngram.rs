use language_identifier::layers::ngram::score;
use language_identifier::layers::normalize::normalize;

#[test]
fn english_text_scores_more_en_hits() {
    let n = normalize("the teacher is in the classroom and teaching English");
    let s = score(&n);
    assert!(s.en_hits > s.vi_hits);
}

#[test]
fn empty_on_non_latin() {
    let n = normalize("先生は大学で日本語を教えています");
    let s = score(&n);
    assert_eq!(s.en_hits, 0);
    assert_eq!(s.vi_hits, 0);
}

#[test]
fn ngram_counts_are_exact() {
    let n = normalize("The thing");
    let s = score(&n);
    // th ×2, he, in, ng, the, ing
    assert_eq!(s.en_hits, 7);
    // ng
    assert_eq!(s.vi_hits, 1);
}
