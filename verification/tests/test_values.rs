use argparse::{
    ArgumentParser, DestValue, Print, PushConst, Store, StoreOption, format_bool, format_int,
    parse_bool, parse_int,
};

fn check_ok(ap: &mut ArgumentParser, args: &[&str]) {
    let owned: Vec<String> = args.iter().map(|s| s.to_string()).collect();
    let mut out = String::new();
    let mut err = String::new();
    let r = ap.parse(&owned, &Vec::new(), &mut out, &mut err);
    match r {
        Ok(()) => (),
        Err(x) => panic!("{}Expected ok, but found Exit({})", err, x),
    }
}

fn parse_str(args: &[&str]) -> String {
    let mut ap = ArgumentParser::new();
    let r = ap.refer(DestValue::Str(String::new()));
    r.add_option(&mut ap, &["-s", "--set"], Store, "Set string value");
    check_ok(&mut ap, args);
    match ap.value_of(&r) {
        DestValue::Str(s) => s.clone(),
        _ => panic!("wrong kind"),
    }
}

#[test]
fn test_str_test_str() {
    assert_eq!(parse_str(&["./argparse_test", "-s", "10"]), "10".to_string());
    assert_eq!(parse_str(&["./argparse_test", "--set", "value"]), "value".to_string());
}

#[test]
#[should_panic]
fn test_str_test_err() {
    parse_str(&["./argparse_test", "--set"]);
}

fn opt(args: &[&str]) -> Option<i64> {
    let mut ap = ArgumentParser::new();
    let r = ap.refer(DestValue::OptInt(None));
    r.add_option(&mut ap, &["-s", "--set"], StoreOption, "Set int value");
    check_ok(&mut ap, args);
    match ap.value_of(&r) {
        DestValue::OptInt(v) => *v,
        _ => panic!("wrong kind"),
    }
}

#[test]
fn test_optional_test_opt() {
    assert_eq!(opt(&["./argparse_test"]), None);
    assert_eq!(opt(&["./argparse_test", "-s", "10"]), Some(10));
    assert_eq!(opt(&["./argparse_test", "--set", "11"]), Some(11));
}

#[test]
#[should_panic]
fn test_opt_no_arg() {
    opt(&["./argparse_test", "--set"]);
}

fn optstr(args: &[&str]) -> Option<String> {
    let mut ap = ArgumentParser::new();
    let r = ap.refer(DestValue::OptStr(None));
    r.add_option(&mut ap, &["-s", "--set"], StoreOption, "Set string value");
    check_ok(&mut ap, args);
    match ap.value_of(&r) {
        DestValue::OptStr(v) => v.clone(),
        _ => panic!("wrong kind"),
    }
}

#[test]
fn test_optional_test_str() {
    assert_eq!(optstr(&["./argparse_test"]), None);
    assert_eq!(optstr(&["./argparse_test", "-s", "10"]), Some(10.to_string()));
    assert_eq!(optstr(&["./argparse_test", "--set", "11"]), Some(11.to_string()));
}

#[test]
#[should_panic]
fn test_str_no_art() {
    optstr(&["./argparse_test", "--set"]);
}

fn push_const(args: &[&str]) -> Vec<i64> {
    let mut ap = ArgumentParser::new();
    let r = ap.refer(DestValue::IntList(Vec::new()));
    r.add_option(&mut ap, &["-o", "--one"], PushConst(1i64), "Add one to the list");
    r.add_option(&mut ap, &["-t", "--two"], PushConst(2i64), "Add two to the list");
    r.add_option(&mut ap, &["-3", "--three"], PushConst(3i64), "Add three to the list");
    check_ok(&mut ap, args);
    match ap.value_of(&r) {
        DestValue::IntList(v) => v.clone(),
        _ => panic!("wrong kind"),
    }
}

#[test]
fn test_push() {
    assert_eq!(push_const(&["./argparse_test"]), vec![]);
    assert_eq!(push_const(&["./argparse_test", "--one"]), vec![1]);
    assert_eq!(push_const(&["./argparse_test", "-3"]), vec![3]);
    assert_eq!(push_const(&["./argparse_test", "-oo3tt"]), vec![1, 1, 3, 2, 2]);
}

fn print_str(args: &[&str]) -> String {
    let mut ap = ArgumentParser::new();
    ap.add_option(&["-V", "--version"], Print("program 0.42".to_string()), "Print version");
    let owned: Vec<String> = args.iter().map(|s| s.to_string()).collect();
    let mut out = String::new();
    let mut err = String::new();
    let r = ap.parse(&owned, &Vec::new(), &mut out, &mut err);
    match r {
        Err(0) => out,
        Err(x) => panic!("Expected code 0 got {}", x),
        Ok(()) => panic!("Expected failure, got success"),
    }
}

#[test]
fn test_print_test_str() {
    let expected = "program 0.42\n".to_string();
    assert_eq!(print_str(&["./argparse_test", "-V"]), expected);
    assert_eq!(print_str(&["./argparse_test", "--version"]), expected);
}

fn required(args: &[&str], env: &[(&str, &str)]) -> (i64, i64) {
    let mut ap = ArgumentParser::new();
    let r1 = ap.refer(DestValue::Int(1));
    r1.add_option(&mut ap, &["--v1"], Store, "The value 1");
    r1.add_argument(&mut ap, "v1", Store, "The value 1");
    r1.envvar(&mut ap, "TEST_ENV_REQUIRED_V1");
    r1.required(&mut ap);
    let r2 = ap.refer(DestValue::Int(2));
    r2.add_argument(&mut ap, "v2", Store, "The value 2");
    let owned: Vec<String> = args.iter().map(|s| s.to_string()).collect();
    let envv: Vec<(String, String)> = env
        .iter()
        .map(|(k, v)| (k.to_string(), v.to_string()))
        .collect();
    let mut out = String::new();
    let mut err = String::new();
    let r = ap.parse(&owned, &envv, &mut out, &mut err);
    match r {
        Ok(()) => (),
        Err(x) => panic!("{}Expected ok, but found Exit({})", err, x),
    }
    let v1 = match ap.value_of(&r1) {
        DestValue::Int(v) => *v,
        _ => panic!("wrong kind"),
    };
    let v2 = match ap.value_of(&r2) {
        DestValue::Int(v) => *v,
        _ => panic!("wrong kind"),
    };
    (v1, v2)
}

#[test]
fn test_req() {
    let crap = [("TEST_ENV_REQUIRED_V1", "some_crap")];
    assert_eq!(required(&["./argparse_test", "10"], &crap), (10, 2));
    assert_eq!(required(&["./argparse_test", "11", "21"], &crap), (11, 21));
    assert_eq!(required(&["./argparse_test", "--v1=7"], &crap), (7, 2));
    let nine = [("TEST_ENV_REQUIRED_V1", "9")];
    assert_eq!(required(&["./argparse_test", "10"], &nine), (9, 10));
    assert_eq!(required(&["./argparse_test", "7", "--v1=15"], &nine), (15, 7));
}

#[test]
#[should_panic]
fn test_required() {
    required(&["./argparse_test"], &[("TEST_ENV_REQUIRED_V1", "some_crap")]);
}

#[test]
fn int_round_trip() {
    for v in [0i64, 1, -1, 42, -42, 1000000007, i64::MAX, i64::MIN] {
        let tok = format_int(v);
        assert_eq!(parse_int(tok.as_str()), Some(v));
    }
    assert_eq!(format_int(-42), "-42".to_string());
    assert_eq!(format_int(0), "0".to_string());
    assert_eq!(format_int(i64::MIN), "-9223372036854775808".to_string());
}

#[test]
fn bool_round_trip() {
    for b in [true, false] {
        let tok = format_bool(b);
        assert_eq!(parse_bool(tok.as_str()), Some(b));
    }
    assert_eq!(parse_bool("yes"), None);
    assert_eq!(parse_bool(""), None);
}

#[test]
fn int_token_forms() {
    assert_eq!(parse_int("+7"), Some(7));
    assert_eq!(parse_int("007"), Some(7));
    assert_eq!(parse_int(""), None);
    assert_eq!(parse_int("-"), None);
    assert_eq!(parse_int("1.5"), None);
    assert_eq!(parse_int("12a"), None);
    assert_eq!(parse_int("9223372036854775808"), None);
    assert_eq!(parse_int("-9223372036854775809"), None);
}
