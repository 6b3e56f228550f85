use argparse::{ArgumentParser, DestValue, List, Store};

#[test]
fn test_help_test_empty() {
    let mut ap = ArgumentParser::new();
    ap.set_description("Test program");
    assert_eq!(
        ap.print_help("./argparse_test"),
        "Usage:\n".to_string()
            + "  ./argparse_test\n"
            + "\n"
            + "Test program\n"
            + "\n"
            + "Optional arguments:\n"
            + "  -h,--help             Show this help message and exit\n"
    );
}

#[test]
fn test_help_test_options() {
    let mut ap = ArgumentParser::new();
    ap.set_description(
        "Test program. The description of the program is ought
        to be very long, because we want to test how word wrapping works for
        it. So some more text would be ok for the test",
    );
    let r1 = ap.refer(DestValue::Int(0));
    r1.add_option(&mut ap, &["--value"], Store, "Set integer value");
    let r2 = ap.refer(DestValue::Int(0));
    r2.add_option(&mut ap, &["-L", "--long-option"], Store, "Long option value");
    assert_eq!(
        ap.print_help("./argparse_test"),
        "Usage:\n".to_string()
            + "  ./argparse_test [OPTIONS]

Test program. The description of the program is ought to be very long, because
we want to test how word wrapping works for it. So some more text would be ok
for the test\n"
            + "\n"
            + "Optional arguments:\n"
            + "  -h,--help             Show this help message and exit\n"
            + "  --value VALUE         Set integer value\n"
            + "  -L,--long-option LONG_OPTION\n"
            + "                        Long option value\n"
    );
}

#[test]
fn test_help_test_argument() {
    let mut ap = ArgumentParser::new();
    ap.set_description("Test program");
    let r = ap.refer(DestValue::Int(0));
    r.add_argument(&mut ap, "value", Store, "Integer value");
    assert_eq!(
        ap.print_help("./argparse_test"),
        "Usage:\n".to_string()
            + "  ./argparse_test [VALUE]\n"
            + "\n"
            + "Test program\n"
            + "\n"
            + "Positional arguments:\n"
            + "  value                 Integer value\n"
            + "\n"
            + "Optional arguments:\n"
            + "  -h,--help             Show this help message and exit\n"
    );
}

#[test]
fn test_help_test_arguments() {
    let mut ap = ArgumentParser::new();
    ap.set_description("Test program");
    let r1 = ap.refer(DestValue::Int(0));
    r1.add_argument(&mut ap, "v1", Store, "Integer value 1");
    let r2 = ap.refer(DestValue::IntList(Vec::new()));
    r2.add_argument(&mut ap, "v2", List, "More values");
    assert_eq!(
        ap.print_help("./argparse_test"),
        "Usage:\n".to_string()
            + "  ./argparse_test [V1] [V2 ...]\n"
            + "\n"
            + "Test program\n"
            + "\n"
            + "Positional arguments:\n"
            + "  v1                    Integer value 1\n"
            + "  v2                    More values\n"
            + "\n"
            + "Optional arguments:\n"
            + "  -h,--help             Show this help message and exit\n"
    );
}

#[test]
fn test_help_test_req_arguments() {
    let mut ap = ArgumentParser::new();
    ap.set_description("Test program");
    let r1 = ap.refer(DestValue::Int(0));
    r1.add_argument(&mut ap, "v1", Store, "Integer value 1");
    r1.required(&mut ap);
    let r2 = ap.refer(DestValue::IntList(Vec::new()));
    r2.add_argument(&mut ap, "v2", List, "More values");
    r2.required(&mut ap);
    assert_eq!(
        ap.print_help("./argparse_test"),
        "Usage:\n".to_string()
            + "  ./argparse_test V1 V2 [...]\n"
            + "\n"
            + "Test program\n"
            + "\n"
            + "Positional arguments:\n"
            + "  v1                    Integer value 1\n"
            + "  v2                    More values\n"
            + "\n"
            + "Optional arguments:\n"
            + "  -h,--help             Show this help message and exit\n"
    );
}

#[test]
fn metavar_derived_from_short_only_spelling() {
    let mut ap = ArgumentParser::new();
    ap.set_description("Test program.");
    let r = ap.refer(DestValue::Int(0));
    r.add_option(&mut ap, &["-x"], Store, "X value");
    assert_eq!(
        ap.print_help("./argparse_test"),
        "Usage:\n".to_string()
            + "  ./argparse_test [OPTIONS]\n"
            + "\n"
            + "Test program.\n"
            + "\n"
            + "Optional arguments:\n"
            + "  -h,--help             Show this help message and exit\n"
            + "  -x X                  X value\n"
    );
}

#[test]
fn metavar_strips_all_leading_dashes() {
    let mut ap = ArgumentParser::new();
    ap.set_description("Test program.");
    let r = ap.refer(DestValue::Int(0));
    r.add_option(&mut ap, &["-L", "--long-option"], Store, "Long option value");
    assert_eq!(
        ap.print_help("./argparse_test"),
        "Usage:\n".to_string()
            + "  ./argparse_test [OPTIONS]\n"
            + "\n"
            + "Test program.\n"
            + "\n"
            + "Optional arguments:\n"
            + "  -h,--help             Show this help message and exit\n"
            + "  -L,--long-option LONG_OPTION\n"
            + "                        Long option value\n"
    );
}

#[test]
fn test_help_test_metavar() {
    let mut ap = ArgumentParser::new();
    ap.set_description("Test program.");
    let r = ap.refer(DestValue::Int(0));
    r.add_option(&mut ap, &["-L", "--long-option"], Store, "Long option value");
    r.metavar(&mut ap, "VAL");
    assert_eq!(
        ap.print_help("./argparse_test"),
        "Usage:\n".to_string()
            + "  ./argparse_test [OPTIONS]\n"
            + "\n"
            + "Test program.\n"
            + "\n"
            + "Optional arguments:\n"
            + "  -h,--help             Show this help message and exit\n"
            + "  -L,--long-option VAL  Long option value\n"
    );
}
