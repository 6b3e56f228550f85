use argparse::{ArgKind, ArgumentParser, DestValue, List, Store, wrap_text};

#[test]
fn test_usage_test_empty() {
    let ap = ArgumentParser::new();
    assert_eq!(ap.print_usage("./argparse_test"), "Usage:\n  ./argparse_test\n");
}

#[test]
fn test_usage_test_options() {
    let mut ap = ArgumentParser::new();
    let r = ap.refer(DestValue::Int(0));
    r.add_option(&mut ap, &["--value"], Store, "Set integer value");
    assert_eq!(ap.print_usage("./argparse_test"), "Usage:\n  ./argparse_test [OPTIONS]\n");
}

#[test]
fn test_usage_test_argument() {
    let mut ap = ArgumentParser::new();
    let r = ap.refer(DestValue::Int(0));
    r.add_argument(&mut ap, "value", Store, "Integer value");
    assert_eq!(ap.print_usage("./argparse_test"), "Usage:\n  ./argparse_test [VALUE]\n");
}

#[test]
fn test_usage_test_arguments() {
    let mut ap = ArgumentParser::new();
    let r1 = ap.refer(DestValue::Int(0));
    r1.add_argument(&mut ap, "v1", Store, "Integer value 1");
    let r2 = ap.refer(DestValue::IntList(Vec::new()));
    r2.add_argument(&mut ap, "v2", List, "More values");
    assert_eq!(ap.print_usage("./argparse_test"), "Usage:\n  ./argparse_test [V1] [V2 ...]\n");
}

#[test]
fn wrap_text_greedy_layout() {
    let mut buf = String::new();
    wrap_text(&mut buf, "a bb ccc", 7, 0);
    assert_eq!(buf, "a bb\nccc");

    let mut buf2 = String::new();
    wrap_text(&mut buf2, "  spaced   out  ", 80, 0);
    assert_eq!(buf2, "spaced out");

    let mut buf3 = String::new();
    wrap_text(&mut buf3, "", 80, 0);
    assert_eq!(buf3, "");
}

#[test]
fn classify_token_shapes() {
    assert_eq!(argparse::tokens::classify(""), ArgKind::Positional);
    assert_eq!(argparse::tokens::classify("plain"), ArgKind::Positional);
    assert_eq!(argparse::tokens::classify("-"), ArgKind::Positional);
    assert_eq!(argparse::tokens::classify("-x"), ArgKind::ShortOption);
    assert_eq!(argparse::tokens::classify("-xyz"), ArgKind::ShortOption);
    assert_eq!(argparse::tokens::classify("--"), ArgKind::Delimiter);
    assert_eq!(argparse::tokens::classify("--name"), ArgKind::LongOption);
    assert_eq!(argparse::tokens::classify("--name=value"), ArgKind::LongOption);
}
