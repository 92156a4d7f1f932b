use wake::addr::{parse_mac, str_to_byte};
use wake::error::WakeError;

fn octets_of(a: &wake::addr::HardwareAddress) -> Vec<u8> {
    vec![a.octet(0), a.octet(1), a.octet(2), a.octet(3), a.octet(4), a.octet(5)]
}

#[test]
fn str_to_byte_parses_two_digit_hex() {
    assert_eq!(str_to_byte("00").unwrap(), 0x00);
    assert_eq!(str_to_byte("7f").unwrap(), 0x7f);
    assert_eq!(str_to_byte("FF").unwrap(), 0xff);
    assert_eq!(str_to_byte("aB").unwrap(), 0xab);
}

#[test]
fn str_to_byte_parses_short_and_padded_groups() {
    assert_eq!(str_to_byte("1").unwrap(), 0x01);
    assert_eq!(str_to_byte("007").unwrap(), 0x07);
    assert_eq!(str_to_byte("00ff").unwrap(), 0xff);
}

#[test]
fn str_to_byte_rejects_empty() {
    match str_to_byte("") {
        Err(WakeError::FormatError(t)) => assert_eq!(t, ""),
        _ => panic!("empty group must be rejected"),
    }
}

#[test]
fn str_to_byte_rejects_non_hex() {
    assert!(matches!(str_to_byte("g0"), Err(WakeError::FormatError(_))));
    assert!(matches!(str_to_byte("0-"), Err(WakeError::FormatError(_))));
    assert!(matches!(str_to_byte(" 1"), Err(WakeError::FormatError(_))));
}

#[test]
fn str_to_byte_rejects_values_over_one_octet() {
    assert!(matches!(str_to_byte("100"), Err(WakeError::FormatError(_))));
    assert!(matches!(str_to_byte("1FF"), Err(WakeError::FormatError(_))));
}

#[test]
fn parse_mac_accepts_canonical_form() {
    let a = parse_mac("01-02-03-04-05-06").unwrap();
    assert_eq!(octets_of(&a), vec![0x01, 0x02, 0x03, 0x04, 0x05, 0x06]);
}

#[test]
fn parse_mac_is_case_insensitive() {
    let a = parse_mac("aa-bB-Cc-DD-ee-Ff").unwrap();
    assert_eq!(octets_of(&a), vec![0xaa, 0xbb, 0xcc, 0xdd, 0xee, 0xff]);
}

#[test]
fn parse_mac_rejects_wrong_field_count() {
    assert!(matches!(parse_mac("01-02-03-04-05"), Err(WakeError::FormatError(_))));
    assert!(matches!(parse_mac("01-02-03-04-05-06-07"), Err(WakeError::FormatError(_))));
    assert!(matches!(parse_mac(""), Err(WakeError::FormatError(_))));
    assert!(matches!(parse_mac("010203040506"), Err(WakeError::FormatError(_))));
}

#[test]
fn parse_mac_rejects_non_hex_characters() {
    match parse_mac("01-02-03-04-05-0g") {
        Err(WakeError::FormatError(t)) => assert_eq!(t, "01-02-03-04-05-0g"),
        _ => panic!("non-hex character must be rejected"),
    }
    assert!(matches!(parse_mac("01-02-03-04--06"), Err(WakeError::FormatError(_))));
    assert!(matches!(parse_mac("01:02:03:04:05:06"), Err(WakeError::FormatError(_))));
}

#[test]
fn parse_mac_rejects_out_of_range_groups() {
    assert!(matches!(parse_mac("1FF-02-03-04-05-06"), Err(WakeError::FormatError(_))));
}

#[test]
fn canonical_is_uppercase_two_digit_groups() {
    let a = parse_mac("aa-bb-cc-dd-ee-ff").unwrap();
    assert_eq!(a.canonical(), "AA-BB-CC-DD-EE-FF");
    let b = parse_mac("0-1-2-3-4-5").unwrap();
    assert_eq!(b.canonical(), "00-01-02-03-04-05");
}

#[test]
fn parse_then_canonical_then_parse_is_idempotent() {
    for s in ["01-02-03-04-05-06", "ff-ee-dd-cc-bb-aa", "0-00-000-a-B-fF"] {
        let once = parse_mac(s).unwrap();
        let again = parse_mac(&once.canonical()).unwrap();
        assert_eq!(octets_of(&once), octets_of(&again));
        assert_eq!(once.canonical(), again.canonical());
    }
}
