use argparse::{ArgumentParser, DestValue};

fn run(
    ap: &mut ArgumentParser,
    args: &[&str],
    env: &[(&str, &str)],
) -> (Result<(), i32>, String, String) {
    let owned: Vec<String> = args.iter().map(|s| s.to_string()).collect();
    let envv: Vec<(String, String)> = env
        .iter()
        .map(|(k, v)| (k.to_string(), v.to_string()))
        .collect();
    let mut out = String::new();
    let mut err = String::new();
    let r = ap.parse(&owned, &envv, &mut out, &mut err);
    (r, out, err)
}

fn check_ok(ap: &mut ArgumentParser, args: &[&str]) {
    let (r, _out, err) = run(ap, args, &[]);
    match r {
        Ok(()) => (),
        Err(x) => panic!("{}Expected ok, but found Exit({})", err, x),
    }
}

fn check_err(ap: &mut ArgumentParser, args: &[&str]) {
    let (r, _out, _err) = run(ap, args, &[]);
    match r {
        Err(2) => (),
        Err(x) => panic!("Expected code 2 got {}", x),
        Ok(()) => panic!("Expected failure, got success"),
    }
}

fn check_exit(ap: &mut ArgumentParser, args: &[&str]) {
    let (r, _out, _err) = run(ap, args, &[]);
    match r {
        Err(0) => (),
        Err(x) => panic!("Expected code 0 got {}", x),
        Ok(()) => panic!("Expected failure, got success"),
    }
}

#[test]
fn test_parser_test_no_arg() {
    let mut ap = ArgumentParser::new();
    check_ok(&mut ap, &["./argparse_test"]);
    check_err(&mut ap, &["./argparse_test", "a"]);
    check_err(&mut ap, &["./argparse_test", "-a"]);
    check_err(&mut ap, &["./argparse_test", "--an-option"]);
}

#[test]
fn test_help() {
    let mut ap = ArgumentParser::new();
    check_ok(&mut ap, &["./argparse_test"]);
    check_exit(&mut ap, &["./argparse_test", "--help"]);
}

#[test]
fn scenario_no_declarations_no_output() {
    let mut ap = ArgumentParser::new();
    let (r, out, err) = run(&mut ap, &["prog"], &[]);
    assert_eq!(r, Ok(()));
    assert_eq!(out, "");
    assert_eq!(err, "");
}

#[test]
fn scenario_help_prints_and_exits_zero() {
    let mut ap = ArgumentParser::new();
    let (r, out, _err) = run(&mut ap, &["prog", "--help"], &[]);
    assert_eq!(r, Err(0));
    assert_eq!(
        out,
        "Usage:\n  prog\n\n\nOptional arguments:\n  -h,--help             Show this help message and exit\n"
    );
}

#[test]
fn unknown_option_message() {
    let mut ap = ArgumentParser::new();
    let (r, _out, err) = run(&mut ap, &["prog", "--an-option"], &[]);
    assert_eq!(r, Err(2));
    assert!(err.contains("Unknown option --an-option"));
    assert!(err.starts_with("Usage:\n  prog\n"));
    assert!(err.contains("prog: Unknown option --an-option\n"));
}

#[test]
fn unknown_short_option_message() {
    let mut ap = ArgumentParser::new();
    let (r, _out, err) = run(&mut ap, &["prog", "-a"], &[]);
    assert_eq!(r, Err(2));
    assert!(err.contains("Unknown short option \"a\""));
}

#[test]
fn missing_value_message() {
    let mut ap = ArgumentParser::new();
    let r1 = ap.refer(DestValue::Int(0));
    r1.add_option(&mut ap, &["-s", "--set"], argparse::Store, "Set value");
    let (r, _out, err) = run(&mut ap, &["prog", "--set"], &[]);
    assert_eq!(r, Err(2));
    assert!(err.contains("Option [\"-s\", \"--set\"] requires an argument"));
}

#[test]
fn required_message_names_options() {
    let mut ap = ArgumentParser::new();
    let r1 = ap.refer(DestValue::Int(0));
    r1.add_option(&mut ap, &["-s", "--set"], argparse::Store, "Set value");
    r1.required(&mut ap);
    let (r, _out, err) = run(&mut ap, &["prog"], &[]);
    assert_eq!(r, Err(2));
    assert!(err.contains("One of the options [\"-s\", \"--set\"] is required"));
}

#[test]
fn env_conversion_failure_is_warning_only() {
    let mut ap = ArgumentParser::new();
    let r1 = ap.refer(DestValue::Int(7));
    r1.add_option(&mut ap, &["-s"], argparse::Store, "Set value");
    r1.envvar(&mut ap, "SOME_INT");
    let (r, _out, err) = run(&mut ap, &["prog"], &[("SOME_INT", "junk")]);
    assert_eq!(r, Ok(()));
    assert!(err.contains("WARNING: Environment variable SOME_INT: Bad value junk\n"));
    match ap.value_of(&r1) {
        DestValue::Int(v) => assert_eq!(*v, 7),
        _ => panic!("wrong kind"),
    }
}

#[test]
fn env_value_applies_before_tokens() {
    let mut ap = ArgumentParser::new();
    let r1 = ap.refer(DestValue::Int(0));
    r1.add_option(&mut ap, &["-s"], argparse::Store, "Set value");
    r1.envvar(&mut ap, "SOME_INT");
    let (r, _out, _err) = run(&mut ap, &["prog"], &[("SOME_INT", "41")]);
    assert_eq!(r, Ok(()));
    match ap.value_of(&r1) {
        DestValue::Int(v) => assert_eq!(*v, 41),
        _ => panic!("wrong kind"),
    }
}
