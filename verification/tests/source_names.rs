use textutils::source::is_standard_input;

#[test]
fn dash_is_the_standard_input() {
    assert!(is_standard_input("-"));
}

#[test]
fn other_names_are_files() {
    assert!(!is_standard_input(""));
    assert!(!is_standard_input("--"));
    assert!(!is_standard_input("- "));
    assert!(!is_standard_input("a"));
    assert!(!is_standard_input("./-"));
    assert!(!is_standard_input("–"));
}
