use argparse::{ArgumentParser, Collect, DestValue, List, Store};

fn check_ok(ap: &mut ArgumentParser, args: &[&str]) {
    let owned: Vec<String> = args.iter().map(|s| s.to_string()).collect();
    let mut out = String::new();
    let mut err = String::new();
    let r = ap.parse(&owned, &Vec::new(), &mut out, &mut err);
    match r {
        Ok(()) => (),
        Err(x) => panic!("{}Expected ok, but found Exit({})", err, x),
    }
}

fn pos_list(args: &[&str]) -> (i64, Vec<i64>) {
    let mut ap = ArgumentParser::new();
    let r1 = ap.refer(DestValue::Int(1));
    r1.add_argument(&mut ap, "v1", Store, "The value 1");
    let r2 = ap.refer(DestValue::IntList(Vec::new()));
    r2.add_argument(&mut ap, "v2", List, "The list of vals");
    check_ok(&mut ap, args);
    let v1 = match ap.value_of(&r1) {
        DestValue::Int(v) => *v,
        _ => panic!("wrong kind"),
    };
    let v2 = match ap.value_of(&r2) {
        DestValue::IntList(v) => v.clone(),
        _ => panic!("wrong kind"),
    };
    (v1, v2)
}

#[test]
fn test_many_test_pos_list() {
    assert_eq!(pos_list(&["./argparse_test", "10"]), (10, vec![]));
    assert_eq!(pos_list(&["./argparse_test", "11", "21"]), (11, vec![21]));
    assert_eq!(pos_list(&["./argparse_test", "10", "20", "30"]), (10, vec![20, 30]));
}

fn pos_collect(args: &[&str]) -> Vec<i64> {
    let mut ap = ArgumentParser::new();
    let r = ap.refer(DestValue::IntList(Vec::new()));
    r.add_argument(&mut ap, "v", Collect, "The list of vals");
    check_ok(&mut ap, args);
    match ap.value_of(&r) {
        DestValue::IntList(v) => v.clone(),
        _ => panic!("wrong kind"),
    }
}

#[test]
fn test_many_test_pos_collect() {
    assert_eq!(pos_collect(&["./argparse_test", "10"]), vec![10]);
    assert_eq!(pos_collect(&["./argparse_test", "11", "21"]), vec![11, 21]);
    assert_eq!(pos_collect(&["./argparse_test", "10", "20", "30"]), vec![10, 20, 30]);
}

#[test]
#[should_panic]
fn wrong_type() {
    pos_collect(&["./argparse_test", "10", "20", "test"]);
}

fn collect(args: &[&str]) -> Vec<i64> {
    let mut ap = ArgumentParser::new();
    let r = ap.refer(DestValue::IntList(Vec::new()));
    r.add_option(&mut ap, &["-a", "--add"], Collect, "The list of vals");
    check_ok(&mut ap, args);
    match ap.value_of(&r) {
        DestValue::IntList(v) => v.clone(),
        _ => panic!("wrong kind"),
    }
}

#[test]
fn test_many_test_collect() {
    assert_eq!(collect(&["./argparse_test", "-a10"]), vec![10]);
    assert_eq!(collect(&["./argparse_test", "--add=11", "-a", "21"]), vec![11, 21]);
    assert_eq!(
        collect(&["./argparse_test", "-a", "10", "--add=20", "--add", "30"]),
        vec![10, 20, 30]
    );
}

#[test]
#[should_panic]
fn test_extra() {
    collect(&["./argparse_test", "-a", "10", "20", "30"]);
}

fn list(args: &[&str]) -> Vec<i64> {
    let mut ap = ArgumentParser::new();
    let r = ap.refer(DestValue::IntList(Vec::new()));
    r.add_option(&mut ap, &["-a", "--add"], List, "The list of vals");
    check_ok(&mut ap, args);
    match ap.value_of(&r) {
        DestValue::IntList(v) => v.clone(),
        _ => panic!("wrong kind"),
    }
}

#[test]
#[should_panic]
fn test_list() {
    assert_eq!(list(&["./argparse_test", "-a10"]), vec![10]);
    assert_eq!(list(&["./argparse_test", "--add", "11", "21"]), vec![11, 21]);
    assert_eq!(list(&["./argparse_test", "-a", "10", "20", "30"]), vec![10, 20, 30]);
    assert_eq!(list(&["./argparse_test", "10", "20", "30"]), vec![10, 20, 30]);
}

#[test]
fn greedy_list_keeps_order() {
    assert_eq!(list(&["prog", "-a", "3", "1", "2"]), vec![3, 1, 2]);
}

#[test]
fn failing_batch_leaves_destination_unmodified() {
    let mut ap = ArgumentParser::new();
    let r = ap.refer(DestValue::IntList(vec![7, 8]));
    r.add_option(&mut ap, &["-a"], Collect, "The list of vals");
    let owned: Vec<String> = vec![
        "prog".to_string(),
        "-a".to_string(),
        "1".to_string(),
        "-a".to_string(),
        "x".to_string(),
    ];
    let mut out = String::new();
    let mut err = String::new();
    let res = ap.parse(&owned, &Vec::new(), &mut out, &mut err);
    assert_eq!(res, Err(2));
    assert!(err.contains("Bad value x"));
    match ap.value_of(&r) {
        DestValue::IntList(v) => assert_eq!(v.clone(), vec![7, 8]),
        _ => panic!("wrong kind"),
    }
}

#[test]
fn scenario_required_positional_and_catchall() {
    let mut ap = ArgumentParser::new();
    let r1 = ap.refer(DestValue::Int(0));
    r1.add_argument(&mut ap, "v1", Store, "The value 1");
    r1.required(&mut ap);
    let r2 = ap.refer(DestValue::IntList(Vec::new()));
    r2.add_argument(&mut ap, "v2", List, "The list of vals");
    check_ok(&mut ap, &["prog", "11", "21"]);
    match ap.value_of(&r1) {
        DestValue::Int(v) => assert_eq!(*v, 11),
        _ => panic!("wrong kind"),
    }
    match ap.value_of(&r2) {
        DestValue::IntList(v) => assert_eq!(v.clone(), vec![21]),
        _ => panic!("wrong kind"),
    }
}
