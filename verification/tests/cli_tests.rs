use forge::logging::diagnostic_lines;
use forge::options::{parse_cli_arguments, parse_cli_options, CliError, CliOption};

fn value(s: &str) -> CliOption {
    CliOption::Value(s.to_string())
}

fn flag(s: &str) -> CliOption {
    CliOption::Flag(s.to_string())
}

#[test]
fn values_are_files_and_output_defaults() {
    let options = parse_cli_options("linux", vec![value("a.fg"), value("b.fg")]).unwrap();
    assert_eq!(options.files, vec!["a.fg".to_string(), "b.fg".to_string()]);
    assert_eq!(options.output, "output");
}

#[test]
fn output_flag_takes_the_next_value() {
    let options = parse_cli_options("linux", vec![value("a.fg"), flag("o"), value("bin"), value("c.fg")]).unwrap();
    assert_eq!(options.files, vec!["a.fg".to_string(), "c.fg".to_string()]);
    assert_eq!(options.output, "bin");
}

#[test]
fn output_flag_without_value_does_nothing() {
    let options = parse_cli_options("linux", vec![value("a.fg"), flag("o")]).unwrap();
    assert_eq!(options.output, "output");
    // The first `-o` is followed by a flag, not a value; the second takes `x`.
    let options = parse_cli_options("linux", vec![flag("o"), flag("o"), value("x")]).unwrap();
    assert_eq!(options.output, "x");
    assert!(options.files.is_empty());
}

#[test]
fn output_option() {
    let options = parse_cli_options(
        "linux",
        vec![CliOption::Option("output".to_string(), "out/prog".to_string()), value("m.fg")],
    )
    .unwrap();
    assert_eq!(options.output, "out/prog");
    assert_eq!(options.files, vec!["m.fg".to_string()]);
}

#[test]
fn unknown_flag_and_option() {
    match parse_cli_options("linux", vec![value("a"), flag("v")]) {
        Err(CliError::UnknownFlag(m)) => assert_eq!(m, "Unknown flag: '-v'"),
        other => panic!("unexpected {:?}", other),
    }
    match parse_cli_options("linux", vec![CliOption::Option("target".to_string(), "x".to_string())]) {
        Err(CliError::UnknownOption(m)) => assert_eq!(m, "Unknown option: '--target=...'"),
        other => panic!("unexpected {:?}", other),
    }
}

#[test]
fn only_linux_is_supported() {
    match parse_cli_options("windows", vec![value("a")]) {
        Err(CliError::UnsupportedPlatform(m)) => assert_eq!(m, "Unsupported compilation platform."),
        other => panic!("unexpected {:?}", other),
    }
}

#[test]
fn arguments_are_classified() {
    let args: Vec<String> = ["forge", "a.fg", "-o", "out", "--output=bin=x", "--verbose", "-", "--"]
        .iter()
        .map(|s| s.to_string())
        .collect();
    let options = parse_cli_arguments(args);
    assert_eq!(options.len(), 7);
    assert!(matches!(&options[0], CliOption::Value(v) if v == "a.fg"));
    assert!(matches!(&options[1], CliOption::Flag(f) if f == "o"));
    assert!(matches!(&options[2], CliOption::Value(v) if v == "out"));
    assert!(matches!(&options[3], CliOption::Option(k, v) if k == "output" && v == "bin=x"));
    assert!(matches!(&options[4], CliOption::Option(k, v) if k == "verbose" && v.is_empty()));
    assert!(matches!(&options[5], CliOption::Value(v) if v == "-"));
    assert!(matches!(&options[6], CliOption::Option(k, v) if k.is_empty() && v.is_empty()));
    assert!(parse_cli_arguments(Vec::new()).is_empty());
}

#[test]
fn diagnostic_text() {
    let source = vec!["int32 main()".to_string(), "{".to_string()];
    assert_eq!(
        diagnostic_lines("warning", "main.fg", &source, 2, "unused"),
        vec!["warning: unused", " --> main.fg:2", "  |", "2 | {", "  |"]
    );
    let source: Vec<String> = (1..=12).map(|i| format!("line {}", i)).collect();
    assert_eq!(
        diagnostic_lines("error", "x.fg", &source, 12, "bad"),
        vec!["error: bad", " --> x.fg:12", "   |", "12 | line 12", "   |"]
    );
}
