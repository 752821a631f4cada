use textutils::cli::ArgsError;
use textutils::headr::{
    append_header, get_args, keep, process_bytes, process_lines, run, warning, Config, Limit,
    Reading, Report, Source,
};

fn strings(items: &[&str]) -> Vec<String> {
    items.iter().map(|s| s.to_string()).collect()
}

fn chunks(items: &[&str]) -> Vec<Vec<u8>> {
    items.iter().map(|s| s.as_bytes().to_vec()).collect()
}

fn opened(name: &str, items: &[&str]) -> Source {
    Source { name: name.to_string(), reading: Reading::Opened { chunks: chunks(items), failure: None } }
}

fn by_lines(n: usize, files: &[&str]) -> Config {
    Config { files: strings(files), lines: n, bytes: None }
}

fn by_bytes(n: usize, files: &[&str]) -> Config {
    Config { files: strings(files), lines: 10, bytes: Some(n) }
}

#[test]
fn first_lines_are_kept_verbatim() {
    let lines = chunks(&["one\n", "two\r\n", "\n", "four"]);
    let block = process_lines(&lines, 2, &None);
    assert_eq!(block.text, "one\ntwo\r\n");
    assert_eq!(block.failure, None);
    let block = process_lines(&lines, 4, &None);
    assert_eq!(block.text, "one\ntwo\r\n\nfour");
    let block = process_lines(&lines, 1, &None);
    assert_eq!(block.text, "one\n");
}

#[test]
fn fewer_lines_than_asked_is_no_error() {
    let lines = chunks(&["one\n", "two\n"]);
    let block = process_lines(&lines, 10, &None);
    assert_eq!(block.text, "one\ntwo\n");
    assert_eq!(block.failure, None);
    let block = process_lines(&Vec::new(), 3, &None);
    assert_eq!(block.text, "");
    assert_eq!(block.failure, None);
}

#[test]
fn read_failure_counts_only_before_the_limit() {
    let lines = chunks(&["one\n", "two\n"]);
    let failure = Some("input/output error".to_string());
    let block = process_lines(&lines, 2, &failure);
    assert_eq!(block.text, "one\ntwo\n");
    assert_eq!(block.failure, None);
    let block = process_lines(&lines, 3, &failure);
    assert_eq!(block.text, "one\ntwo\n");
    assert_eq!(block.failure, failure);
}

#[test]
fn line_that_is_no_utf8_is_a_failure() {
    let lines = vec![b"fine\n".to_vec(), vec![0x66, 0xff, 0x0a], b"after\n".to_vec()];
    let block = process_lines(&lines, 3, &None);
    assert_eq!(block.text, "fine\n");
    assert_eq!(block.failure, Some("stream did not contain valid UTF-8".to_string()));
    let block = process_lines(&lines, 1, &None);
    assert_eq!(block.text, "fine\n");
    assert_eq!(block.failure, None);
}

#[test]
fn first_bytes_are_kept() {
    let data = chunks(&["hello, ", "world\n"]);
    assert_eq!(process_bytes(&data, 5, &None).text, "hello");
    assert_eq!(process_bytes(&data, 7, &None).text, "hello, ");
    assert_eq!(process_bytes(&data, 9, &None).text, "hello, wo");
    assert_eq!(process_bytes(&data, 13, &None).text, "hello, world\n");
    assert_eq!(process_bytes(&data, 100, &None).text, "hello, world\n");
    assert_eq!(process_bytes(&Vec::new(), 4, &None).text, "");
}

#[test]
fn bytes_that_are_no_utf8_are_replaced() {
    let data = vec![vec![0x61, 0xff, 0x62]];
    assert_eq!(process_bytes(&data, 3, &None).text, "a\u{fffd}b");
    // "é" is two bytes: cut after the first, a replacement character is left
    let data = chunks(&["é!"]);
    assert_eq!(process_bytes(&data, 1, &None).text, "\u{fffd}");
    assert_eq!(process_bytes(&data, 2, &None).text, "é");
    assert_eq!(process_bytes(&data, 3, &None).text, "é!");
}

#[test]
fn byte_read_failure_counts_only_before_the_limit() {
    let failure = Some("input/output error".to_string());
    let data = chunks(&["abc"]);
    let block = process_bytes(&data, 3, &failure);
    assert_eq!(block.text, "abc");
    assert_eq!(block.failure, None);
    let block = process_bytes(&data, 4, &failure);
    assert_eq!(block.text, "abc");
    assert_eq!(block.failure, failure);
}

#[test]
fn keep_follows_the_limit() {
    let data = chunks(&["ab\n", "cd\n"]);
    assert_eq!(keep(Limit::Lines(1), &data, &None).text, "ab\n");
    assert_eq!(keep(Limit::Bytes(1), &data, &None).text, "a");
}

#[test]
fn byte_count_overrides_line_count() {
    assert!(matches!(by_lines(3, &["-"]).limit(), Limit::Lines(3)));
    assert!(matches!(by_bytes(4, &["-"]).limit(), Limit::Bytes(4)));
}

#[test]
fn header_is_written_for_several_sources_only() {
    let name = "a.txt".to_string();
    let mut text = String::new();
    append_header(&mut text, &name, 0, 1);
    assert_eq!(text, "");
    append_header(&mut text, &name, 0, 2);
    assert_eq!(text, "==> a.txt <==\n");
    let mut text = String::from("x\n");
    append_header(&mut text, &name, 1, 2);
    assert_eq!(text, "x\n\n==> a.txt <==\n");
}

#[test]
fn single_source_has_no_header() {
    let report = run(&by_lines(1, &["a.txt"]), &vec![opened("a.txt", &["1\n", "2\n"])]);
    assert_eq!(report.text, "1\n");
    assert!(report.warnings.is_empty());
    assert_eq!(report.failure, None);
}

#[test]
fn second_header_follows_one_blank_line() {
    let sources = vec![opened("a.txt", &["a1\n", "a2\n", "a3\n"]), opened("b.txt", &["b1\n"])];
    let report = run(&by_lines(2, &["a.txt", "b.txt"]), &sources);
    assert_eq!(report.text, "==> a.txt <==\na1\na2\n\n==> b.txt <==\nb1\n");
    assert!(report.text.starts_with("==> a.txt <=="));
}

#[test]
fn unopened_source_is_a_warning_only() {
    let sources = vec![
        Source {
            name: "gone".to_string(),
            reading: Reading::Unopened { reason: "No such file or directory (os error 2)".to_string() },
        },
        opened("b.txt", &["b1\n", "b2\n"]),
    ];
    let report = run(&by_bytes(4, &["gone", "b.txt"]), &sources);
    assert_eq!(report.warnings, strings(&["gone: No such file or directory (os error 2)"]));
    assert_eq!(report.text, "\n==> b.txt <==\nb1\nb");
    assert_eq!(report.failure, None);
    assert_eq!(warning(&"gone".to_string(), &"why".to_string()), "gone: why");
}

#[test]
fn failure_ends_the_run() {
    let sources = vec![
        Source {
            name: "a".to_string(),
            reading: Reading::Opened { chunks: chunks(&["a1\n"]), failure: Some("boom".to_string()) },
        },
        opened("b", &["b1\n"]),
    ];
    let report = run(&by_lines(5, &["a", "b"]), &sources);
    assert_eq!(report.text, "==> a <==\na1\n");
    assert_eq!(report.failure, Some("boom".to_string()));
}

#[test]
fn header_goes_by_the_sources_named() {
    // the second source was never read: the first one failed
    let sources = vec![Source {
        name: "a".to_string(),
        reading: Reading::Opened { chunks: chunks(&["a1\n"]), failure: Some("boom".to_string()) },
    }];
    let report = run(&by_lines(5, &["a", "b"]), &sources);
    assert_eq!(report.text, "==> a <==\na1\n");
    assert_eq!(report.failure, Some("boom".to_string()));
}

#[test]
fn new_config_reads_counts() {
    let config = Config::new(None, None, None).unwrap();
    assert_eq!(config.files, strings(&["-"]));
    assert_eq!(config.lines, 10);
    assert_eq!(config.bytes, None);

    let config =
        Config::new(Some(strings(&["f"])), Some("3".to_string()), Some("12".to_string())).unwrap();
    assert_eq!(config.files, strings(&["f"]));
    assert_eq!(config.lines, 3);
    assert_eq!(config.bytes, Some(12));
}

#[test]
fn new_config_refuses_lines_before_bytes() {
    let error = Config::new(None, Some("0".to_string()), Some("x".to_string())).unwrap_err();
    assert!(matches!(&error, ArgsError::LineCount(v) if v == "0"));
    assert_eq!(error.message(), "illegal line count -- 0");
    assert!(error.failed());

    let error = Config::new(None, Some("5".to_string()), Some("x".to_string())).unwrap_err();
    assert!(matches!(&error, ArgsError::ByteCount(v) if v == "x"));
    assert_eq!(error.message(), "illegal byte count -- x");

    let error = Config::new(None, None, Some("0".to_string())).unwrap_err();
    assert_eq!(error.message(), "illegal byte count -- 0");
}

#[test]
fn command_line_defaults() {
    let config = get_args(&strings(&["headr"])).unwrap();
    assert_eq!(config.files, strings(&["-"]));
    assert_eq!(config.lines, 10);
    assert_eq!(config.bytes, None);
}

#[test]
fn command_line_counts() {
    let config = get_args(&strings(&["headr", "-n", "3", "a", "b"])).unwrap();
    assert_eq!(config.files, strings(&["a", "b"]));
    assert_eq!(config.lines, 3);
    assert_eq!(config.bytes, None);

    let config = get_args(&strings(&["headr", "--lines", "7"])).unwrap();
    assert_eq!(config.lines, 7);

    let config = get_args(&strings(&["headr", "-c", "5", "a"])).unwrap();
    assert_eq!(config.bytes, Some(5));
    let config = get_args(&strings(&["headr", "--bytes", "12"])).unwrap();
    assert_eq!(config.bytes, Some(12));
}

#[test]
fn illegal_line_counts_are_refused() {
    let error = get_args(&strings(&["headr", "--lines", "0"])).unwrap_err();
    assert!(error.failed());
    assert_eq!(error.message(), "illegal line count -- 0");

    let error = get_args(&strings(&["headr", "--lines", "abc"])).unwrap_err();
    assert!(error.failed());
    assert_eq!(error.message(), "illegal line count -- abc");

    let error = get_args(&strings(&["headr", "--lines", "-3"])).unwrap_err();
    assert!(error.failed());
    assert_eq!(error.message(), "illegal line count -- -3");

    let error = get_args(&strings(&["headr", "-n", "-3"])).unwrap_err();
    assert_eq!(error.message(), "illegal line count -- -3");

    let error = get_args(&strings(&["headr", "--lines=-3"])).unwrap_err();
    assert!(error.failed());
    assert_eq!(error.message(), "illegal line count -- -3");
}

#[test]
fn refused_counts_have_status_one_and_no_configuration() {
    for value in ["0", "-3", "abc"] {
        let result = get_args(&strings(&["headr", "--lines", value, "a.txt"]));
        let error = result.unwrap_err();
        assert!(matches!(&error, ArgsError::LineCount(v) if v == value));
        assert_eq!(error.exit_status(), 1);
        let error = get_args(&strings(&["headr", "--bytes", value, "a.txt"])).unwrap_err();
        assert!(matches!(&error, ArgsError::ByteCount(v) if v == value));
        assert_eq!(error.message(), format!("illegal byte count -- {}", value));
    }
}

#[test]
fn illegal_byte_counts_are_refused() {
    let error = get_args(&strings(&["headr", "-c", "0"])).unwrap_err();
    assert_eq!(error.message(), "illegal byte count -- 0");
    let error = get_args(&strings(&["headr", "--bytes", "many"])).unwrap_err();
    assert_eq!(error.message(), "illegal byte count -- many");
}

#[test]
fn lines_and_bytes_together_are_refused() {
    let error = get_args(&strings(&["headr", "-n", "1", "-c", "2"])).unwrap_err();
    assert!(matches!(error, ArgsError::Usage(_)));
    assert!(error.failed());
}

#[test]
fn illegal_count_has_status_one() {
    let error = get_args(&strings(&["headr", "-n", "0"])).unwrap_err();
    assert_eq!(error.exit_status(), 1);
    let error = get_args(&strings(&["headr", "-x"])).unwrap_err();
    assert_eq!(error.exit_status(), 2);
}

#[test]
fn truncator_exit_status_follows_the_failure_only() {
    let sources = vec![Source {
        name: "gone".to_string(),
        reading: Reading::Unopened { reason: "why".to_string() },
    }];
    assert_eq!(run(&by_lines(1, &["gone"]), &sources).exit_status(), 0);
    let sources = vec![Source {
        name: "a".to_string(),
        reading: Reading::Opened { chunks: Vec::new(), failure: Some("boom".to_string()) },
    }];
    assert_eq!(run(&by_lines(1, &["a"]), &sources).exit_status(), 1);
}

#[test]
fn truncator_report_grows_source_by_source() {
    let config = by_lines(1, &["a", "b", "c"]);
    let mut report = Report::new();
    assert!(!report.ended());
    report.advance(&config, 0, &opened("a", &["a1\n", "a2\n"]));
    assert_eq!(report.text, "==> a <==\na1\n");
    let bad = Source {
        name: "b".to_string(),
        reading: Reading::Opened { chunks: vec![vec![0xff, 0x0a]], failure: None },
    };
    report.advance(&config, 1, &bad);
    assert_eq!(report.text, "==> a <==\na1\n\n==> b <==\n");
    assert!(report.ended());
    assert_eq!(report.failure, Some("stream did not contain valid UTF-8".to_string()));
    report.advance(&config, 2, &opened("c", &["c1\n"]));
    assert_eq!(report.text, "==> a <==\na1\n\n==> b <==\n");
    assert_eq!(report.exit_status(), 1);
}

#[test]
fn truncator_report_built_in_steps_is_the_report_of_the_run() {
    let config = by_bytes(3, &["a", "gone", "c"]);
    let make = || {
        vec![
            opened("a", &["abcdef"]),
            Source {
                name: "gone".to_string(),
                reading: Reading::Unopened { reason: "why".to_string() },
            },
            opened("c", &["xy"]),
        ]
    };
    let whole = run(&config, &make());
    let mut report = Report::new();
    for (index, source) in make().iter().enumerate() {
        report.advance(&config, index, source);
    }
    assert_eq!(report.text, whole.text);
    assert_eq!(report.text, "==> a <==\nabc\n==> c <==\nxy");
    assert_eq!(report.warnings, whole.warnings);
    assert_eq!(report.failure, whole.failure);
}
