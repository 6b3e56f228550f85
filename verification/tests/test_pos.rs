use argparse::{ArgumentParser, DestValue, List, Store};

fn check_ok(ap: &mut ArgumentParser, args: &[&str]) {
    let owned: Vec<String> = args.iter().map(|s| s.to_string()).collect();
    let mut out = String::new();
    let mut err = String::new();
    let r = ap.parse(&owned, &Vec::new(), &mut out, &mut err);
    match r {
        Ok(()) => (),
        Err(x) => panic!("{}Expected ok, but found Exit({})", err, x),
    }
}

fn parse_pos(args: &[&str]) -> i64 {
    let mut ap = ArgumentParser::new();
    let r = ap.refer(DestValue::Int(0));
    r.add_argument(&mut ap, "value", Store, "The value");
    check_ok(&mut ap, args);
    match ap.value_of(&r) {
        DestValue::Int(v) => *v,
        _ => panic!("wrong kind"),
    }
}

#[test]
fn test_pos_test_argument() {
    assert_eq!(parse_pos(&["./argparse_test", "10"]), 10);
}

#[test]
#[should_panic]
fn too_much_args() {
    parse_pos(&["./argparse_test", "10", "20"]);
}

#[test]
#[should_panic]
fn wrong_value() {
    parse_pos(&["./argparse_test", "test", "20"]);
}

#[test]
#[should_panic]
fn float_value() {
    parse_pos(&["./argparse_test", "1.5"]);
}

fn parse_two(args: &[&str]) -> (i64, i64) {
    let mut ap = ArgumentParser::new();
    let r1 = ap.refer(DestValue::Int(1));
    r1.add_argument(&mut ap, "v1", Store, "The value 1");
    let r2 = ap.refer(DestValue::Int(2));
    r2.add_argument(&mut ap, "v2", Store, "The value 2");
    check_ok(&mut ap, args);
    let v1 = match ap.value_of(&r1) {
        DestValue::Int(v) => *v,
        _ => panic!("wrong kind"),
    };
    let v2 = match ap.value_of(&r2) {
        DestValue::Int(v) => *v,
        _ => panic!("wrong kind"),
    };
    (v1, v2)
}

#[test]
fn test_pos_test_two() {
    assert_eq!(parse_two(&["./argparse_test", "10"]), (10, 2));
    assert_eq!(parse_two(&["./argparse_test", "11", "21"]), (11, 21));
}

#[test]
#[should_panic]
fn test_two_fail_many() {
    parse_two(&["./argparse_test", "10", "20", "30"]);
}

#[test]
#[should_panic]
fn test_two_fail_value() {
    parse_two(&["./argparse_test", "test", "20"]);
}

#[test]
#[should_panic]
fn test_two_fail_float() {
    parse_two(&["./argparse_test", "1.5"]);
}

fn parse_pos_opt(args: &[&str]) -> (i64, i64) {
    let mut ap = ArgumentParser::new();
    let r1 = ap.refer(DestValue::Int(1));
    r1.add_option(&mut ap, &["--v1"], Store, "The value 1");
    r1.add_argument(&mut ap, "v1", Store, "The value 1");
    let r2 = ap.refer(DestValue::Int(2));
    r2.add_argument(&mut ap, "v2", Store, "The value 2");
    check_ok(&mut ap, args);
    let v1 = match ap.value_of(&r1) {
        DestValue::Int(v) => *v,
        _ => panic!("wrong kind"),
    };
    let v2 = match ap.value_of(&r2) {
        DestValue::Int(v) => *v,
        _ => panic!("wrong kind"),
    };
    (v1, v2)
}

#[test]
fn test_positional_optional() {
    assert_eq!(parse_pos_opt(&["./argparse_test", "10"]), (10, 2));
    assert_eq!(parse_pos_opt(&["./argparse_test", "11", "21"]), (11, 21));
    assert_eq!(parse_pos_opt(&["./argparse_test", "--v1=7", "8"]), (7, 8));
    assert_eq!(parse_pos_opt(&["./argparse_test", "10", "--v1=9"]), (9, 10));
}

#[test]
#[should_panic]
fn test_pos_opt_err() {
    parse_pos_opt(&["./argparse_test", "--v1=10", "20", "30"]);
}

fn parse_pos_req(args: &[&str]) -> (i64, i64) {
    let mut ap = ArgumentParser::new();
    let r1 = ap.refer(DestValue::Int(1));
    r1.add_option(&mut ap, &["--v1"], Store, "The value 1");
    r1.add_argument(&mut ap, "v1", Store, "The value 1");
    r1.required(&mut ap);
    let r2 = ap.refer(DestValue::Int(2));
    r2.add_argument(&mut ap, "v2", Store, "The value 2");
    check_ok(&mut ap, args);
    let v1 = match ap.value_of(&r1) {
        DestValue::Int(v) => *v,
        _ => panic!("wrong kind"),
    };
    let v2 = match ap.value_of(&r2) {
        DestValue::Int(v) => *v,
        _ => panic!("wrong kind"),
    };
    (v1, v2)
}

#[test]
fn test_positional_required() {
    assert_eq!(parse_pos_req(&["./argparse_test", "10"]), (10, 2));
    assert_eq!(parse_pos_req(&["./argparse_test", "11", "21"]), (11, 21));
    assert_eq!(parse_pos_req(&["./argparse_test", "--v1=7"]), (7, 2));
    assert_eq!(parse_pos_req(&["./argparse_test", "10", "--v1=9"]), (9, 10));
}

#[test]
#[should_panic]
fn test_pos_extra() {
    parse_pos_req(&["./argparse_test", "--v1=10", "20", "30"]);
}

#[test]
#[should_panic]
fn test_pos_no_req() {
    parse_pos_req(&["./argparse_test"]);
}

fn pos_stop(args: &[&str]) -> (i64, Vec<String>) {
    let mut ap = ArgumentParser::new();
    let r1 = ap.refer(DestValue::Int(1));
    r1.add_option(&mut ap, &["--v1"], Store, "The value 1");
    r1.add_argument(&mut ap, "v1", Store, "The value 1");
    r1.required(&mut ap);
    let r2 = ap.refer(DestValue::StrList(Vec::new()));
    r2.add_argument(&mut ap, "v2", List, "The value 2");
    ap.stop_on_first_argument(true);
    check_ok(&mut ap, args);
    let v1 = match ap.value_of(&r1) {
        DestValue::Int(v) => *v,
        _ => panic!("wrong kind"),
    };
    let v2 = match ap.value_of(&r2) {
        DestValue::StrList(v) => v.clone(),
        _ => panic!("wrong kind"),
    };
    (v1, v2)
}

#[test]
fn test_pos_stop() {
    assert_eq!(pos_stop(&["./argparse_test", "10"]), (10, vec![]));
    assert_eq!(pos_stop(&["./argparse_test", "11", "21"]), (11, vec!["21".to_string()]));
    assert_eq!(pos_stop(&["./argparse_test", "--v1=7"]), (7, vec![]));
    assert_eq!(
        pos_stop(&["./argparse_test", "10", "--v1=9", "--whatever"]),
        (10, vec!["--v1=9".to_string(), "--whatever".to_string()])
    );
}

#[test]
#[should_panic]
fn test_test() {
    pos_stop(&["./argparse_test"]);
}

fn pos_dash(args: &[&str], dash: bool) -> Vec<String> {
    let mut ap = ArgumentParser::new();
    let r = ap.refer(DestValue::StrList(Vec::new()));
    r.add_argument(&mut ap, "v1", List, "The value");
    ap.silence_double_dash(dash);
    check_ok(&mut ap, args);
    match ap.value_of(&r) {
        DestValue::StrList(v) => v.clone(),
        _ => panic!("wrong kind"),
    }
}

#[test]
fn test_pos_dash() {
    assert_eq!(pos_dash(&["./argparse_test", "1"], true), vec!["1".to_string()]);
    assert_eq!(pos_dash(&["./argparse_test", "--", "1"], true), vec!["1".to_string()]);
    assert_eq!(
        pos_dash(&["./argparse_test", "--", "1"], false),
        vec!["--".to_string(), "1".to_string()]
    );
}
