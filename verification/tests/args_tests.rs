use wake::args::{classify_args, ProgArg};

fn classify(tokens: &[&str]) -> Vec<ProgArg> {
    let owned: Vec<String> = tokens.iter().map(|t| t.to_string()).collect();
    classify_args(&owned)
}

#[test]
fn mac_option_takes_the_next_token() {
    let r = classify(&["-m", "01-02-03-04-05-06"]);
    assert_eq!(r.len(), 1);
    match &r[0] {
        ProgArg::MacTarget(s) => assert_eq!(s, "01-02-03-04-05-06"),
        _ => panic!("expected a literal address target"),
    }
}

#[test]
fn lookup_option_takes_the_next_token() {
    let r = classify(&["--lookup", "office"]);
    assert_eq!(r.len(), 1);
    match &r[0] {
        ProgArg::LookupTarget(s) => assert_eq!(s, "office"),
        _ => panic!("expected a lookup target"),
    }
}

#[test]
fn options_match_case_insensitively_but_values_are_kept() {
    let r = classify(&["--MAC", "aa-bb-cc-dd-ee-ff"]);
    match &r[0] {
        ProgArg::MacTarget(s) => assert_eq!(s, "aa-bb-cc-dd-ee-ff"),
        _ => panic!("expected a literal address target"),
    }
}

#[test]
fn an_option_missing_its_value_is_a_no_op() {
    let r = classify(&["-m"]);
    assert_eq!(r.len(), 1);
    assert!(matches!(r[0], ProgArg::NoOp));
    let r = classify(&["-l"]);
    assert!(matches!(r[0], ProgArg::NoOp));
}

#[test]
fn an_unrecognized_token_is_a_no_op() {
    let r = classify(&["whatever"]);
    assert_eq!(r.len(), 1);
    assert!(matches!(r[0], ProgArg::NoOp));
}

#[test]
fn help_stands_alone() {
    let r = classify(&["-h", "extra"]);
    assert_eq!(r.len(), 2);
    assert!(matches!(r[0], ProgArg::Help));
    assert!(matches!(r[1], ProgArg::NoOp));
}

#[test]
fn several_targets_are_kept_in_order() {
    let r = classify(&["-m", "01-02-03-04-05-06", "-l", "home", "--help"]);
    assert_eq!(r.len(), 3);
    assert!(matches!(&r[0], ProgArg::MacTarget(s) if s == "01-02-03-04-05-06"));
    assert!(matches!(&r[1], ProgArg::LookupTarget(s) if s == "home"));
    assert!(matches!(r[2], ProgArg::Help));
}

#[test]
fn no_tokens_yield_no_entries() {
    let r = classify(&[]);
    assert!(r.is_empty());
}
