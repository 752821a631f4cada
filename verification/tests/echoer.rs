use textutils::cli::ArgsError;
use textutils::echor::{echo, get_args, Config};

fn strings(items: &[&str]) -> Vec<String> {
    items.iter().map(|s| s.to_string()).collect()
}

#[test]
fn die_no_args() {
    let error = get_args(&strings(&["echor"])).unwrap_err();
    assert!(error.failed());
    assert!(error.message().contains("USAGE"));
}

#[test]
fn runs() {
    let config = get_args(&strings(&["echor", "hello"])).unwrap();
    assert_eq!(config.run(), "hello\n");
}

#[test]
fn echo_joins_with_single_blanks() {
    assert_eq!(echo(&strings(&["hello", "world"]), false), "hello world\n");
    assert_eq!(echo(&strings(&["hello", "world"]), true), "hello world");
}

#[test]
fn echo_keeps_each_word_as_it_is() {
    assert_eq!(echo(&strings(&["a  b", "", "c"]), false), "a  b  c\n");
    assert_eq!(echo(&strings(&["one"]), true), "one");
    assert_eq!(echo(&Vec::new(), false), "\n");
    assert_eq!(echo(&Vec::new(), true), "");
}

#[test]
fn echo_flag_is_read_from_the_command_line() {
    let config = get_args(&strings(&["echor", "-n", "hello", "world"])).unwrap();
    assert_eq!(config.text, strings(&["hello", "world"]));
    assert!(config.omit_newline);
    assert_eq!(config.run(), "hello world");

    let config = get_args(&strings(&["echor", "hello", "world"])).unwrap();
    assert!(!config.omit_newline);
    assert_eq!(config.run(), "hello world\n");
}

#[test]
fn config_needs_a_word() {
    assert!(matches!(Config::new(None, false), Err(ArgsError::MissingText)));
    assert!(matches!(Config::new(Some(Vec::new()), true), Err(ArgsError::MissingText)));
    let error = Config::new(None, false).unwrap_err();
    assert!(error.failed());
    assert_eq!(error.message(), "no text was given");
    let config = Config::new(Some(strings(&["x"])), true).unwrap();
    assert_eq!(config.text, strings(&["x"]));
    assert!(config.omit_newline);
}
