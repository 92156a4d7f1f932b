use wake::addr::parse_mac;
use wake::packet::MagicPacket;

#[test]
fn packet_is_102_bytes_sync_then_sixteen_repetitions() {
    let a = parse_mac("01-02-03-04-05-06").unwrap();
    let p = MagicPacket::build(&a);
    let bytes = p.bytes();
    assert_eq!(p.len(), 102);
    assert_eq!(bytes.len(), 102);
    for i in 0..6 {
        assert_eq!(bytes[i], 0xff);
    }
    let mac = [0x01u8, 0x02, 0x03, 0x04, 0x05, 0x06];
    for k in 0..16 {
        for j in 0..6 {
            assert_eq!(bytes[6 + 6 * k + j], mac[j]);
        }
    }
}

#[test]
fn broadcast_address_packet() {
    let a = parse_mac("FF-FF-FF-FF-FF-FF").unwrap();
    let p = MagicPacket::build(&a);
    assert_eq!(p.len(), 102);
    for i in 0..102 {
        assert_eq!(p.bytes()[i], 0xff);
    }
}

#[test]
fn wake_on_lan_port_is_nine() {
    assert_eq!(wake::WOL_PORT, 9);
}
