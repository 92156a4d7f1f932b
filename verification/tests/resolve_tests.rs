use wake::args::ProgArg;
use wake::error::WakeError;
use wake::resolve::{plan_target, resolve, TargetPlan};
use wake::table::{parse_table, LookupTable};

#[test]
fn a_name_absent_from_the_table_is_a_resolution_error() {
    let table = parse_table("office:AA-BB-CC-DD-EE-FF");
    match resolve("nas", &table, true) {
        Err(WakeError::ResolutionError(t)) => assert_eq!(t, "nas"),
        _ => panic!("an absent name must fail with ResolutionError"),
    }
}

#[test]
fn an_absent_name_never_falls_back_to_another_entry() {
    let table = parse_table("only:AA-BB-CC-DD-EE-FF");
    assert!(matches!(
        resolve("other", &table, true),
        Err(WakeError::ResolutionError(_))
    ));
}

#[test]
fn a_present_name_resolves_to_its_address() {
    let table = parse_table("office:AA-BB-CC-DD-EE-FF");
    let a = resolve("office", &table, true).unwrap();
    assert_eq!(a.canonical(), "AA-BB-CC-DD-EE-FF");
}

#[test]
fn a_present_name_with_a_malformed_address_is_a_format_error() {
    let table = parse_table("bad:not-an-address");
    match resolve("bad", &table, true) {
        Err(WakeError::FormatError(t)) => assert_eq!(t, "not-an-address"),
        _ => panic!("a malformed stored address must fail with FormatError"),
    }
}

#[test]
fn a_literal_token_is_parsed_directly() {
    let table = LookupTable::new();
    let a = resolve("11-22-33-44-55-66", &table, false).unwrap();
    assert_eq!(a.canonical(), "11-22-33-44-55-66");
    assert!(matches!(
        resolve("11-22-33", &table, false),
        Err(WakeError::FormatError(_))
    ));
}

#[test]
fn a_valid_mac_target_plans_one_packet() {
    let table = LookupTable::new();
    let arg = ProgArg::MacTarget("ff-ff-ff-ff-ff-ff".to_string());
    match plan_target(&arg, &table) {
        TargetPlan::Send(packet, shown) => {
            assert_eq!(packet.len(), 102);
            assert_eq!(shown, "FF-FF-FF-FF-FF-FF");
            for i in 0..102 {
                assert_eq!(packet.bytes()[i], 0xff);
            }
        },
        _ => panic!("a valid literal target must plan a send"),
    }
}

#[test]
fn a_malformed_mac_target_plans_a_rejection() {
    let table = LookupTable::new();
    let arg = ProgArg::MacTarget("zz-zz".to_string());
    match plan_target(&arg, &table) {
        TargetPlan::Reject(WakeError::FormatError(t)) => assert_eq!(t, "zz-zz"),
        _ => panic!("a malformed literal target must plan a rejection"),
    }
}

#[test]
fn an_unknown_lookup_target_plans_a_rejection() {
    let table = parse_table("office:AA-BB-CC-DD-EE-FF");
    let arg = ProgArg::LookupTarget("nas".to_string());
    match plan_target(&arg, &table) {
        TargetPlan::Reject(WakeError::ResolutionError(t)) => assert_eq!(t, "nas"),
        _ => panic!("an unknown name must plan a rejection"),
    }
}

#[test]
fn a_known_lookup_target_plans_its_packet() {
    let table = parse_table("home : 11-22-33-44-55-66");
    let arg = ProgArg::LookupTarget("home".to_string());
    match plan_target(&arg, &table) {
        TargetPlan::Send(packet, shown) => {
            assert_eq!(shown, "11-22-33-44-55-66");
            assert_eq!(packet.len(), 102);
            assert_eq!(packet.bytes()[6], 0x11);
            assert_eq!(packet.bytes()[11], 0x66);
        },
        _ => panic!("a known name must plan a send"),
    }
}

#[test]
fn help_and_noop_plan_no_send() {
    let table = LookupTable::new();
    assert!(matches!(plan_target(&ProgArg::Help, &table), TargetPlan::ShowHelp));
    assert!(matches!(plan_target(&ProgArg::NoOp, &table), TargetPlan::Skip));
}
