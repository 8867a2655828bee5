use language_identifier::cli::take_flag_value;

fn args(v: &[&str]) -> Vec<String> {
    v.iter().map(|s| s.to_string()).collect()
}

#[test]
fn flag_and_value_are_taken_out() {
    let mut a = args(&["--pretty", "--ml-openlid", "model.bin", "hello"]);
    let r = take_flag_value(&mut a, "--ml-openlid");
    assert_eq!(r, Ok(Some("model.bin".to_string())));
    assert_eq!(a, args(&["--pretty", "hello"]));
}

#[test]
fn missing_flag_changes_nothing() {
    let mut a = args(&["hello"]);
    assert_eq!(take_flag_value(&mut a, "--ml-openlid"), Ok(None));
    assert_eq!(a, args(&["hello"]));
}

#[test]
fn flag_without_value_is_an_error() {
    let mut a = args(&["hello", "--ml-openlid"]);
    assert_eq!(
        take_flag_value(&mut a, "--ml-openlid"),
        Err("--ml-openlid requires a value".to_string())
    );
    assert_eq!(a, args(&["hello", "--ml-openlid"]));
}

#[test]
fn only_the_first_occurrence_is_taken() {
    let mut a = args(&["--m", "a", "--m", "b"]);
    assert_eq!(take_flag_value(&mut a, "--m"), Ok(Some("a".to_string())));
    assert_eq!(a, args(&["--m", "b"]));
}
