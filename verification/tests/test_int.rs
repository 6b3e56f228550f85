use argparse::{ArgumentParser, DecrBy, DestValue, IncrBy, Store};

fn check_ok(ap: &mut ArgumentParser, args: &[&str]) {
    let owned: Vec<String> = args.iter().map(|s| s.to_string()).collect();
    let mut out = String::new();
    let mut err = String::new();
    let r = ap.parse(&owned, &Vec::new(), &mut out, &mut err);
    match r {
        Ok(()) => (),
        Err(x) => panic!("{}Expected ok, but found Exit({})", err, x),
    }
}

fn incr_int(args: &[&str]) -> i64 {
    let mut ap = ArgumentParser::new();
    let r = ap.refer(DestValue::Int(0));
    r.add_option(&mut ap, &["-i", "--incr"], IncrBy(1i64), "Increment value");
    check_ok(&mut ap, args);
    match ap.value_of(&r) {
        DestValue::Int(v) => *v,
        _ => panic!("wrong kind"),
    }
}

#[test]
fn test_incr_int() {
    assert_eq!(incr_int(&["./argparse_test"]), 0);
    assert_eq!(incr_int(&["./argparse_test", "--incr"]), 1);
    assert_eq!(incr_int(&["./argparse_test", "-iiiii"]), 5);
}

fn decr_int(args: &[&str]) -> i64 {
    let mut ap = ArgumentParser::new();
    let r = ap.refer(DestValue::Int(5));
    r.add_option(&mut ap, &["-d", "--decr"], DecrBy(1i64), "Decrement value");
    check_ok(&mut ap, args);
    match ap.value_of(&r) {
        DestValue::Int(v) => *v,
        _ => panic!("wrong kind"),
    }
}

#[test]
fn test_int_test_decr_int() {
    assert_eq!(decr_int(&["./argparse_test"]), 5);
    assert_eq!(decr_int(&["./argparse_test", "--decr"]), 4);
    assert_eq!(decr_int(&["./argparse_test", "-dddddd"]), -1);
}

#[test]
fn test_int_test_incr_decr() {
    let mut ap = ArgumentParser::new();
    let r = ap.refer(DestValue::Int(0));
    r.add_option(&mut ap, &["-d", "--decr"], DecrBy(1i64), "Decrement value");
    r.add_option(&mut ap, &["-i", "--incr"], IncrBy(1i64), "Increment value");
    check_ok(&mut ap, &["./argparse_test", "-iiddd", "--incr", "-iii"]);
    match ap.value_of(&r) {
        DestValue::Int(v) => assert_eq!(*v, 3),
        _ => panic!("wrong kind"),
    }
}

fn set_int(args: &[&str]) -> i64 {
    let mut ap = ArgumentParser::new();
    let r = ap.refer(DestValue::Int(0));
    r.add_option(&mut ap, &["-s", "--set"], Store, "Set integer value");
    check_ok(&mut ap, args);
    match ap.value_of(&r) {
        DestValue::Int(v) => *v,
        _ => panic!("wrong kind"),
    }
}

#[test]
fn test_set_int() {
    assert_eq!(set_int(&["./argparse_test", "-s", "10"]), 10);
    assert_eq!(set_int(&["./argparse_test", "--set", "99"]), 99);
    assert_eq!(set_int(&["./argparse_test", "-s", "7", "-s77"]), 77);
    assert_eq!(set_int(&["./argparse_test", "-s333", "--set=123"]), 123);
}

#[test]
#[should_panic(expected = "Bad value 1.5")]
fn test_set_int_bad() {
    set_int(&["./argparse_test", "-s1.5"]);
}

#[test]
fn test_int_test_i16() {
    assert_eq!(set_int(&["./argparse_test", "-s", "124"]), 124);
}

#[test]
fn scenario_attached_and_detached_values() {
    assert_eq!(set_int(&["prog", "-s", "7", "-s77"]), 77);
}

#[test]
fn scenario_bad_value_names_token() {
    let mut ap = ArgumentParser::new();
    let r = ap.refer(DestValue::Int(0));
    r.add_option(&mut ap, &["-s"], Store, "Set integer value");
    let owned: Vec<String> = vec!["prog".to_string(), "-s1.5".to_string()];
    let mut out = String::new();
    let mut err = String::new();
    let res = ap.parse(&owned, &Vec::new(), &mut out, &mut err);
    assert_eq!(res, Err(2));
    assert!(err.contains("Bad value 1.5"));
}

#[test]
fn negative_and_extreme_values() {
    assert_eq!(set_int(&["prog", "-s", "-42"]), -42);
    assert_eq!(set_int(&["prog", "-s", "9223372036854775807"]), i64::MAX);
    assert_eq!(set_int(&["prog", "-s", "-9223372036854775808"]), i64::MIN);
}

#[test]
fn out_of_range_value() {
    let mut ap = ArgumentParser::new();
    let r = ap.refer(DestValue::Int(0));
    r.add_option(&mut ap, &["-s"], Store, "Set integer value");
    let owned: Vec<String> = vec!["prog".to_string(), "-s".to_string(), "9223372036854775808".to_string()];
    let mut out = String::new();
    let mut err = String::new();
    let res = ap.parse(&owned, &Vec::new(), &mut out, &mut err);
    assert_eq!(res, Err(2));
    assert!(err.contains("Bad value 9223372036854775808"));
}
