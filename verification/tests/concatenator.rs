use textutils::catr::{
    emit, get_args, number_lines, number_nonblank_lines, plain_lines, run, warning, Config,
    Numbering, Reading, Report, Source,
};
use textutils::cli::ArgsError;

fn strings(items: &[&str]) -> Vec<String> {
    items.iter().map(|s| s.to_string()).collect()
}

fn opened(name: &str, lines: &[&str], failure: Option<&str>) -> Source {
    Source {
        name: name.to_string(),
        reading: Reading::Opened { lines: strings(lines), failure: failure.map(|f| f.to_string()) },
    }
}

fn unopened(name: &str, reason: &str) -> Source {
    Source { name: name.to_string(), reading: Reading::Unopened { reason: reason.to_string() } }
}

fn config(number_lines: bool, number_nonblank_lines: bool) -> Config {
    Config::new(None, number_lines, number_nonblank_lines)
}

#[test]
fn plain_lines_are_unchanged() {
    let lines = strings(&["a", "", "  b\t", "héllo"]);
    assert_eq!(plain_lines(&lines), lines);
    assert_eq!(plain_lines(&Vec::new()), Vec::<String>::new());
}

#[test]
fn every_line_is_numbered() {
    let lines = strings(&["a", "", "b"]);
    assert_eq!(number_lines(&lines), strings(&["     1\ta", "     2\t", "     3\tb"]));
    assert_eq!(number_lines(&Vec::new()), Vec::<String>::new());
}

#[test]
fn numbered_lines_are_as_many_as_the_lines() {
    let lines: Vec<String> = (0..1200).map(|i| format!("line {}", i)).collect();
    let out = number_lines(&lines);
    assert_eq!(out.len(), lines.len());
    for (k, line) in out.iter().enumerate() {
        assert_eq!(line, &format!("{:>6}\t{}", k + 1, lines[k]));
    }
}

#[test]
fn nonblank_lines_are_numbered_without_gaps() {
    let lines = strings(&["", "a", "", "", "b", " ", ""]);
    assert_eq!(
        number_nonblank_lines(&lines),
        strings(&["", "     1\ta", "", "", "     2\tb", "     3\t ", ""])
    );
}

#[test]
fn emit_follows_the_numbering() {
    let lines = strings(&["x", "", "y"]);
    assert_eq!(emit(Numbering::Plain, &lines), strings(&["x", "", "y"]));
    assert_eq!(emit(Numbering::All, &lines), strings(&["     1\tx", "     2\t", "     3\ty"]));
    assert_eq!(emit(Numbering::Nonblank, &lines), strings(&["     1\tx", "", "     2\ty"]));
}

#[test]
fn flags_select_the_numbering() {
    assert!(matches!(config(false, false).numbering(), Numbering::Plain));
    assert!(matches!(config(true, false).numbering(), Numbering::All));
    assert!(matches!(config(false, true).numbering(), Numbering::Nonblank));
    assert!(matches!(config(true, true).numbering(), Numbering::Plain));
}

#[test]
fn warning_names_the_source_and_the_reason() {
    assert_eq!(
        warning(&"nope.txt".to_string(), &"No such file or directory (os error 2)".to_string()),
        "Failed to open nope.txt: No such file or directory (os error 2)"
    );
}

#[test]
fn missing_first_file_is_a_warning_only() {
    let sources = vec![
        unopened("missing.txt", "No such file or directory (os error 2)"),
        opened("present.txt", &["a", "", "b"], None),
    ];
    let report = run(&config(false, true), &sources);
    assert_eq!(
        report.warnings,
        strings(&["Failed to open missing.txt: No such file or directory (os error 2)"])
    );
    assert_eq!(report.lines, strings(&["     1\ta", "", "     2\tb"]));
    assert_eq!(report.failure, None);
}

#[test]
fn numbering_starts_anew_with_each_source() {
    let sources = vec![
        opened("one", &["a", "b"], None),
        opened("two", &["c"], None),
    ];
    let report = run(&config(true, false), &sources);
    assert_eq!(report.lines, strings(&["     1\ta", "     2\tb", "     1\tc"]));
    assert!(report.warnings.is_empty());
}

#[test]
fn read_failure_ends_the_run() {
    let sources = vec![
        opened("-", &["a"], Some("broken pipe")),
        unopened("x", "denied"),
        opened("y", &["never"], None),
    ];
    let report = run(&config(false, false), &sources);
    assert_eq!(report.lines, strings(&["a"]));
    assert!(report.warnings.is_empty());
    assert_eq!(report.failure, Some("broken pipe".to_string()));
}

#[test]
fn no_sources_give_an_empty_report() {
    let report = run(&config(true, false), &Vec::new());
    assert!(report.lines.is_empty());
    assert!(report.warnings.is_empty());
    assert_eq!(report.failure, None);
}

#[test]
fn new_config_defaults_to_standard_input() {
    assert_eq!(Config::new(None, false, false).files, strings(&["-"]));
    assert_eq!(Config::new(Some(Vec::new()), false, false).files, strings(&["-"]));
    let named = Config::new(Some(strings(&["a", "b"])), true, false);
    assert_eq!(named.files, strings(&["a", "b"]));
    assert!(named.number_lines);
    assert!(!named.number_nonblank_lines);
}

#[test]
fn command_line_without_arguments_reads_standard_input() {
    let config = get_args(&strings(&["catr"])).unwrap();
    assert_eq!(config.files, strings(&["-"]));
    assert!(!config.number_lines);
    assert!(!config.number_nonblank_lines);
}

#[test]
fn command_line_names_files_and_flags() {
    let config = get_args(&strings(&["catr", "-n", "one.txt", "two.txt"])).unwrap();
    assert_eq!(config.files, strings(&["one.txt", "two.txt"]));
    assert!(config.number_lines);
    assert!(!config.number_nonblank_lines);

    let config = get_args(&strings(&["catr", "--number-nonblank", "-"])).unwrap();
    assert_eq!(config.files, strings(&["-"]));
    assert!(!config.number_lines);
    assert!(config.number_nonblank_lines);

    let config = get_args(&strings(&["catr", "--number", "f"])).unwrap();
    assert!(config.number_lines);
    let config = get_args(&strings(&["catr", "-b", "f"])).unwrap();
    assert!(config.number_nonblank_lines);
}

#[test]
fn both_numberings_at_once_are_refused() {
    let error = get_args(&strings(&["catr", "-n", "-b", "f"])).unwrap_err();
    assert!(matches!(error, ArgsError::Usage(_)));
    assert!(error.failed());
    assert!(error.message().contains("USAGE"));
}

#[test]
fn unknown_flag_is_refused() {
    let error = get_args(&strings(&["catr", "--frobnicate"])).unwrap_err();
    assert!(matches!(error, ArgsError::Usage(_)));
    assert!(error.failed());
}

#[test]
fn help_is_no_failure() {
    let error = get_args(&strings(&["catr", "--help"])).unwrap_err();
    assert!(matches!(error, ArgsError::Notice(_)));
    assert!(!error.failed());
    assert!(error.message().contains("Rust cat"));
    let error = get_args(&strings(&["catr", "--version"])).unwrap_err();
    assert!(matches!(error, ArgsError::Notice(_)));
    assert!(error.message().contains("0.1.0"));
}

#[test]
fn report_text_ends_every_line() {
    let sources = vec![opened("f", &["a", "", "b"], None)];
    let report = run(&config(false, false), &sources);
    assert_eq!(report.text(), "a\n\nb\n");
    assert_eq!(report.exit_status(), 0);
    let report = run(&config(false, false), &Vec::new());
    assert_eq!(report.text(), "");
}

#[test]
fn exit_status_follows_the_failure_only() {
    let report = run(&config(false, false), &vec![unopened("gone", "why")]);
    assert_eq!(report.exit_status(), 0);
    let report = run(&config(false, false), &vec![opened("f", &["a"], Some("boom"))]);
    assert_eq!(report.exit_status(), 1);
}

#[test]
fn refused_command_line_has_status_two() {
    let error = get_args(&strings(&["catr", "-n", "-b"])).unwrap_err();
    assert_eq!(error.exit_status(), 2);
    let error = get_args(&strings(&["catr", "--help"])).unwrap_err();
    assert_eq!(error.exit_status(), 0);
}

#[test]
fn report_grows_source_by_source() {
    let config = config(true, false);
    let mut report = Report::new();
    assert!(!report.ended());
    assert_eq!(report.text(), "");

    report.advance(&config, &opened("one", &["a", "b"], None));
    assert_eq!(report.text_from(0), "     1\ta\n     2\tb\n");
    report.advance(&config, &unopened("gone", "why"));
    assert_eq!(report.warnings, strings(&["Failed to open gone: why"]));
    assert_eq!(report.text_from(2), "");

    report.advance(&config, &opened("two", &["c"], Some("boom")));
    assert_eq!(report.text_from(2), "     1\tc\n");
    assert_eq!(report.text_from(3), "");
    assert_eq!(report.text_from(99), "");
    assert!(report.ended());

    report.advance(&config, &opened("three", &["never"], None));
    report.advance(&config, &unopened("four", "never"));
    assert_eq!(report.lines, strings(&["     1\ta", "     2\tb", "     1\tc"]));
    assert_eq!(report.warnings.len(), 1);
    assert_eq!(report.failure, Some("boom".to_string()));
}

#[test]
fn report_built_in_steps_is_the_report_of_the_run() {
    let config = config(false, true);
    let make = || {
        vec![
            unopened("gone", "why"),
            opened("one", &["a", "", "b"], None),
            opened("two", &["", "c"], Some("boom")),
            opened("three", &["d"], None),
        ]
    };
    let whole = run(&config, &make());
    let mut report = Report::new();
    for source in &make() {
        report.advance(&config, source);
    }
    assert_eq!(report.lines, whole.lines);
    assert_eq!(report.warnings, whole.warnings);
    assert_eq!(report.failure, whole.failure);
}

#[test]
fn configuration_from_a_command_line_never_has_both_numberings() {
    for line in [
        vec!["catr"],
        vec!["catr", "-n"],
        vec!["catr", "-b"],
        vec!["catr", "-n", "-b"],
        vec!["catr", "-b", "-n", "x"],
        vec!["catr", "-nb"],
        vec!["catr", "--number", "--number-nonblank"],
    ] {
        match get_args(&strings(&line)) {
            Ok(config) => {
                assert!(!(config.number_lines && config.number_nonblank_lines));
                assert!(!config.files.is_empty());
            }
            Err(error) => assert!(matches!(error, ArgsError::Usage(_))),
        }
    }
    assert!(get_args(&strings(&["catr", "-n", "-b"])).is_err());
    assert!(get_args(&strings(&["catr", "-nb"])).is_err());
}

#[test]
fn lines_one_by_one_give_the_source_as_a_whole() {
    let lines = ["a", "", "b", "", "", "c"];
    for (number, nonblank) in [(false, false), (true, false), (false, true)] {
        let config = config(number, nonblank);
        let whole = run(&config, &vec![opened("f", &lines, Some("boom"))]);

        let mut report = Report::new();
        let mut numbered = 0;
        for line in lines {
            numbered = report.advance_line(&config, numbered, &line.to_string());
        }
        report.fail("boom".to_string());
        assert_eq!(report.lines, whole.lines);
        assert_eq!(report.failure, whole.failure);
        assert!(report.warnings.is_empty());
    }
}

#[test]
fn line_steps_count_the_numbered_lines() {
    let mut report = Report::new();
    let all = config(true, false);
    assert_eq!(report.advance_line(&all, 0, &"x".to_string()), 1);
    assert_eq!(report.advance_line(&all, 1, &"".to_string()), 2);
    assert_eq!(report.lines, strings(&["     1\tx", "     2\t"]));

    let mut report = Report::new();
    let nonblank = config(false, true);
    assert_eq!(report.advance_line(&nonblank, 0, &"".to_string()), 0);
    assert_eq!(report.advance_line(&nonblank, 0, &"x".to_string()), 1);
    assert_eq!(report.advance_line(&nonblank, 41, &"y".to_string()), 42);
    assert_eq!(report.lines, strings(&["", "     1\tx", "    42\ty"]));

    let mut report = Report::new();
    let plain = config(false, false);
    assert_eq!(report.advance_line(&plain, 0, &"x".to_string()), 0);
    assert_eq!(report.lines, strings(&["x"]));
}

#[test]
fn nothing_is_taken_after_a_failure() {
    let config = config(true, false);
    let mut report = Report::new();
    report.advance_line(&config, 0, &"a".to_string());
    report.fail("first".to_string());
    assert!(report.ended());
    report.fail("second".to_string());
    assert_eq!(report.advance_line(&config, 1, &"b".to_string()), 2);
    assert_eq!(report.lines, strings(&["     1\ta"]));
    assert_eq!(report.failure, Some("first".to_string()));
    assert_eq!(report.exit_status(), 1);
}
