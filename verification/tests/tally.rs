use language_identifier::tally::Tally;

#[test]
fn entries_come_in_key_order() {
    let mut t = Tally::new();
    t.add("zh-Hant", 1);
    t.add("en", 2);
    t.add("zh", 3);
    t.add("ja", 1);
    t.add("en", 1);
    let keys: Vec<(&str, usize)> = t.entries().iter().map(|(k, n)| (k.as_str(), *n)).collect();
    assert_eq!(keys, vec![("en", 3), ("ja", 1), ("zh", 3), ("zh-Hant", 1)]);
    assert_eq!(t.len(), 4);
    assert_eq!(t.count("fr"), 0);
}

#[test]
fn insert_overwrites_a_count() {
    let mut t = Tally::new();
    t.insert("vi", 4);
    t.insert("vi", 2);
    assert_eq!(t.get("vi"), Some(&2));
    assert!(!t.is_empty());
}

#[test]
fn key_order_is_code_point_order() {
    let mut t = Tally::new();
    for k in ["é", "z", "Z", "", "a"] {
        t.add(k, 1);
    }
    let keys: Vec<&str> = t.entries().iter().map(|(k, _)| k.as_str()).collect();
    let mut sorted = keys.clone();
    sorted.sort();
    assert_eq!(keys, sorted);
}
