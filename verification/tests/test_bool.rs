use argparse::{ArgumentParser, DestValue, Store, StoreFalse, StoreTrue};

fn check_ok(ap: &mut ArgumentParser, args: &[&str]) {
    let owned: Vec<String> = args.iter().map(|s| s.to_string()).collect();
    let mut out = String::new();
    let mut err = String::new();
    let r = ap.parse(&owned, &Vec::new(), &mut out, &mut err);
    match r {
        Ok(()) => (),
        Err(x) => panic!("{}Expected ok, but found Exit({})", err, x),
    }
}

fn store_true(args: &[&str]) -> bool {
    let mut ap = ArgumentParser::new();
    let r = ap.refer(DestValue::Bool(false));
    r.add_option(&mut ap, &["-t", "--true"], StoreTrue, "Store true action");
    check_ok(&mut ap, args);
    match ap.value_of(&r) {
        DestValue::Bool(b) => *b,
        _ => panic!("wrong kind"),
    }
}

#[test]
fn test_bool_test_store_true() {
    assert!(!store_true(&["./argparse_test"]));
    assert!(store_true(&["./argparse_test", "--true"]));
}

fn store_false(args: &[&str]) -> bool {
    let mut ap = ArgumentParser::new();
    let r = ap.refer(DestValue::Bool(true));
    r.add_option(&mut ap, &["-f", "--false"], StoreFalse, "Store false action");
    check_ok(&mut ap, args);
    match ap.value_of(&r) {
        DestValue::Bool(b) => *b,
        _ => panic!("wrong kind"),
    }
}

#[test]
fn test_bool_test_store_false() {
    assert!(store_false(&["./argparse_test"]));
    assert!(!store_false(&["./argparse_test", "--false"]));
}

fn store_bool(args: &[&str]) -> bool {
    let mut ap = ArgumentParser::new();
    let r = ap.refer(DestValue::Bool(false));
    r.add_option(&mut ap, &["-f", "--false"], StoreFalse, "Store false action");
    r.add_option(&mut ap, &["-t", "--true"], StoreTrue, "Store false action");
    check_ok(&mut ap, args);
    match ap.value_of(&r) {
        DestValue::Bool(b) => *b,
        _ => panic!("wrong kind"),
    }
}

#[test]
fn test_bool_test_bool() {
    assert!(!store_bool(&["./argparse_test"]));
    assert!(store_bool(&["./argparse_test", "-t"]));
    assert!(!store_bool(&["./argparse_test", "-f"]));
    assert!(store_bool(&["./argparse_test", "-fft"]));
    assert!(!store_bool(&["./argparse_test", "-fffft", "-f"]));
    assert!(store_bool(&["./argparse_test", "--false", "-fffft", "-f", "--true"]));
}

fn set_bool(args: &[&str]) -> bool {
    let mut ap = ArgumentParser::new();
    let r = ap.refer(DestValue::Bool(false));
    r.add_option(&mut ap, &["-s", "--set"], Store, "Set boolean value");
    check_ok(&mut ap, args);
    match ap.value_of(&r) {
        DestValue::Bool(b) => *b,
        _ => panic!("wrong kind"),
    }
}

#[test]
fn test_bool_test_set_bool() {
    assert!(!set_bool(&["./argparse_test"]));
    assert!(set_bool(&["./argparse_test", "-strue"]));
    assert!(!set_bool(&["./argparse_test", "-sfalse"]));
}

#[test]
#[should_panic(expected = "Bad value yes")]
fn test_bad_bools1() {
    assert!(!set_bool(&["./argparse_test", "-syes"]));
}

#[test]
#[should_panic(expected = "Bad value no")]
fn test_bad_bools2() {
    assert!(!set_bool(&["./argparse_test", "-sno"]));
}

#[test]
fn scenario_last_flag_wins() {
    assert!(!store_bool(&["prog", "-fffft", "-f"]));
}
