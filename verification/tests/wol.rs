use conectdesk_agent::json::Json;
use conectdesk_agent::wol::{dispatch_wol, magic_packet, WAKE_ADDRESS, WAKE_ADDRESS_TOO};

fn packet(mac: [u8; 6]) -> Vec<u8> {
    let mut bytes = vec![0xff; 6];
    for _ in 0..16 {
        bytes.extend_from_slice(&mac);
    }
    bytes
}

const MAC: [u8; 6] = [0x00, 0x1a, 0x2b, 0x3c, 0x4d, 0xff];

#[test]
fn address_with_colons_or_hyphens() {
    assert_eq!(magic_packet("00:1a:2B:3c:4D:ff"), Some(packet(MAC)));
    assert_eq!(magic_packet("00-1a-2b-3c-4d-ff"), Some(packet(MAC)));
    assert_eq!(magic_packet("0:1a-2b:3c-4d:FF"), Some(packet(MAC)));
    assert_eq!(packet(MAC).len(), 102);
}

#[test]
fn parts_that_spell_no_byte_are_passed_over() {
    assert_eq!(magic_packet("xx:00:1a:2b:3c:4d:ff:100::"), Some(packet(MAC)));
}

#[test]
fn addresses_of_another_length() {
    for bad in ["", "00:1a:2b:3c:4d", "00:1a:2b:3c:4d:ff:00", "001a2b3c4dff", "00 1a 2b 3c 4d ff"] {
        assert_eq!(magic_packet(bad), None, "{}", bad);
    }
}

#[test]
fn targets_in_their_order() {
    let targets = Json::parse(
        b"[{\"mac\":\"00:1a:2b:3c:4d:ff\"},{\"mac\":5},{},{\"mac\":\"zz\"},{\"mac\":\"01:01:01:01:01:01\"}]",
    )
    .unwrap();
    assert_eq!(dispatch_wol(targets.as_array().unwrap()), vec![packet(MAC), packet([1; 6])]);
    assert_eq!(dispatch_wol(&vec![]), Vec::<Vec<u8>>::new());
}

#[test]
fn addresses_of_the_broadcast() {
    assert_eq!(WAKE_ADDRESS, "255.255.255.255:9");
    assert_eq!(WAKE_ADDRESS_TOO, "255.255.255.255:7");
}
