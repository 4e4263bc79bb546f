use linc::cli::{
    next_option, parse_command, parse_define, parse_header_flavor, parse_preprocessed_flavor,
    required_value, usage, Command, OptionStep,
};
use linc::raw_headers::Flavor;

fn words(items: &[&str]) -> Vec<String> {
    items.iter().map(|s| s.to_string()).collect()
}

#[test]
fn define_splits_at_the_first_equals_sign() {
    assert_eq!(parse_define("FOO"), ("FOO".to_string(), None));
    assert_eq!(parse_define("FOO=1"), ("FOO".to_string(), Some("1".to_string())));
    assert_eq!(parse_define("A=B=C"), ("A".to_string(), Some("B=C".to_string())));
    assert_eq!(parse_define("EMPTY="), ("EMPTY".to_string(), Some(String::new())));
    assert_eq!(parse_define("=x"), (String::new(), Some("x".to_string())));
}

#[test]
fn flavor_names_select_dialects() {
    assert_eq!(parse_header_flavor("gnu"), Ok(Flavor::GnuC11));
    assert_eq!(parse_header_flavor("gnu-c11"), Ok(Flavor::GnuC11));
    assert_eq!(parse_header_flavor("clang"), Ok(Flavor::ClangC11));
    assert_eq!(parse_header_flavor("clang-c11"), Ok(Flavor::ClangC11));
    assert_eq!(parse_header_flavor("std"), Ok(Flavor::StdC11));
    assert_eq!(parse_header_flavor("std-c11"), Ok(Flavor::StdC11));
    assert_eq!(parse_header_flavor("msvc"), Err("unsupported header flavor 'msvc'".to_string()));
    assert_eq!(parse_preprocessed_flavor("clang"), Ok(Flavor::ClangC11));
    assert_eq!(
        parse_preprocessed_flavor("c89"),
        Err("unsupported preprocessed flavor 'c89'".to_string())
    );
}

#[test]
fn commands_are_named_and_unknown_words_refused() {
    assert_eq!(parse_command("scan"), Ok(Command::Scan));
    assert_eq!(parse_command("scan-preprocessed"), Ok(Command::ScanPreprocessed));
    assert_eq!(parse_command("inspect-symbols"), Ok(Command::InspectSymbols));
    assert_eq!(parse_command("validate"), Ok(Command::Validate));
    assert_eq!(parse_command("link-plan"), Ok(Command::LinkPlan));
    assert_eq!(parse_command("probe-layout"), Ok(Command::ProbeLayout));
    assert_eq!(parse_command("-h"), Ok(Command::Help));
    assert_eq!(parse_command("--help"), Ok(Command::Help));
    assert_eq!(parse_command("help"), Ok(Command::Help));
    let err = parse_command("bogus").unwrap_err();
    assert_eq!(err, format!("unknown command 'bogus'\n\n{}", usage()));
}

#[test]
fn usage_lists_every_command() {
    let text = usage();
    assert!(text.starts_with("Usage:\n"));
    for command in ["scan", "scan-preprocessed", "inspect-symbols", "validate", "link-plan", "probe-layout"] {
        assert!(text.contains(&format!("  linc {command} ")), "{command}");
    }
    assert!(text.ends_with("  --type <name>"));
}

#[test]
fn required_value_reports_the_missing_flag() {
    let args = words(&["--header", "a.h"]);
    assert_eq!(required_value(&args, 1, "--header"), Ok("a.h".to_string()));
    assert_eq!(required_value(&args, 2, "--header"), Err("missing value for --header".to_string()));
}

#[test]
fn options_are_read_one_at_a_time() {
    let args = words(&["--header", "a.h", "--prefer-static", "-h"]);
    let valued = ["--header"];
    let switches = ["--prefer-static"];
    assert_eq!(
        next_option(&args, 0, "scan", &valued, &switches),
        Ok(OptionStep::Value { flag: "--header".into(), value: "a.h".into(), next: 2 })
    );
    assert_eq!(
        next_option(&args, 2, "scan", &valued, &switches),
        Ok(OptionStep::Switch { flag: "--prefer-static".into(), next: 3 })
    );
    assert_eq!(next_option(&args, 3, "scan", &valued, &switches), Ok(OptionStep::Help));
    assert_eq!(next_option(&args, 4, "scan", &valued, &switches), Ok(OptionStep::Done));
}

#[test]
fn option_errors_name_the_command_or_the_flag() {
    let args = words(&["--bogus", "--header"]);
    assert_eq!(
        next_option(&args, 0, "scan", &["--header"], &[]),
        Err("unknown scan option '--bogus'".to_string())
    );
    assert_eq!(
        next_option(&args, 1, "scan", &["--header"], &[]),
        Err("missing value for --header".to_string())
    );
}
