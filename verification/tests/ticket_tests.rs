use peerlink::errors::DecodeError;
use peerlink::ticket::{AddressTicket, EndpointIdentity, TransportAddress};

fn sample_identity() -> EndpointIdentity {
    let mut key: Vec<u8> = Vec::new();
    for i in 0..32u8 {
        key.push(i);
    }
    EndpointIdentity::from_bytes(key).unwrap()
}

#[test]
fn identity_needs_exactly_32_bytes() {
    assert!(EndpointIdentity::from_bytes(vec![0u8; 31]).is_none());
    assert!(EndpointIdentity::from_bytes(vec![0u8; 33]).is_none());
    assert!(EndpointIdentity::from_bytes(vec![0u8; 32]).is_some());
    assert!(EndpointIdentity::from_bytes(Vec::new()).is_none());
}

#[test]
fn serialize_exact_text() {
    let ticket = AddressTicket::new(
        sample_identity(),
        vec![TransportAddress::ipv4(127, 0, 0, 1, 1024)],
    );
    let text = ticket.serialize();
    let mut expected = String::from("endpoint1");
    expected.push_str("000102030405060708090a0b0c0d0e0f101112131415161718191a1b1c1d1e1f");
    expected.push_str("007f0000010400");
    assert_eq!(text, expected);
}

#[test]
fn serialize_is_deterministic() {
    let ticket = AddressTicket::new(
        sample_identity(),
        vec![TransportAddress::ipv4(10, 0, 0, 7, 9999)],
    );
    assert_eq!(ticket.serialize(), ticket.serialize());
}

#[test]
fn round_trip_all_address_kinds() {
    let v6 = TransportAddress::ipv6(vec![0xfe, 0x80, 0, 0, 0, 0, 0, 0, 0, 0, 0, 0, 0, 0, 0, 1], 443)
        .unwrap();
    let relay = TransportAddress::relay(b"https://relay.example/".to_vec()).unwrap();
    let addrs = vec![TransportAddress::ipv4(192, 168, 1, 2, 4433), v6, relay];
    let ticket = AddressTicket::new(sample_identity(), addrs);
    let text = ticket.serialize();
    let back = AddressTicket::deserialize(&text).unwrap();
    assert_eq!(back, ticket);
}

#[test]
fn round_trip_no_addresses() {
    let ticket = AddressTicket::new(sample_identity(), Vec::new());
    let text = ticket.serialize();
    let back = AddressTicket::deserialize(&text).unwrap();
    assert_eq!(back, ticket);
    assert_eq!(back.address_count(), 0);
}

#[test]
fn round_trip_keeps_address_order() {
    let addrs = vec![
        TransportAddress::ipv4(1, 2, 3, 4, 1),
        TransportAddress::ipv4(5, 6, 7, 8, 2),
        TransportAddress::ipv4(9, 10, 11, 12, 3),
    ];
    let ticket = AddressTicket::new(sample_identity(), addrs.clone());
    let back = AddressTicket::deserialize(&ticket.serialize()).unwrap();
    assert_eq!(back.addresses(), &addrs);
    assert_eq!(back.identity().bytes(), ticket.identity().bytes());
}

#[test]
fn reject_wrong_kind() {
    assert_eq!(AddressTicket::deserialize(""), Err(DecodeError::WrongKind));
    assert_eq!(AddressTicket::deserialize("endpoin"), Err(DecodeError::WrongKind));
    assert_eq!(AddressTicket::deserialize("ticket100aa"), Err(DecodeError::WrongKind));
    assert_eq!(AddressTicket::deserialize("ENDPOINT1"), Err(DecodeError::WrongKind));
}

#[test]
fn reject_unrecognized_version() {
    assert_eq!(AddressTicket::deserialize("endpoint"), Err(DecodeError::UnsupportedVersion));
    let ticket = AddressTicket::new(sample_identity(), Vec::new());
    let text = ticket.serialize();
    let other_version = text.replacen("endpoint1", "endpoint2", 1);
    assert_eq!(
        AddressTicket::deserialize(&other_version),
        Err(DecodeError::UnsupportedVersion)
    );
}

#[test]
fn reject_bad_hex() {
    // A character that is no lowercase hexadecimal digit.
    assert_eq!(AddressTicket::deserialize("endpoint1zz"), Err(DecodeError::Malformed));
    // Uppercase digits are not the canonical form.
    assert_eq!(AddressTicket::deserialize("endpoint1AB"), Err(DecodeError::Malformed));
    // Odd number of digits.
    assert_eq!(AddressTicket::deserialize("endpoint1abc"), Err(DecodeError::Malformed));
}

#[test]
fn reject_short_payload() {
    // Valid hex, but fewer bytes than one identity.
    assert_eq!(AddressTicket::deserialize("endpoint100ff"), Err(DecodeError::Malformed));
}

#[test]
fn reject_trailing_garbage_and_bad_tags() {
    let ticket = AddressTicket::new(sample_identity(), Vec::new());
    let text = ticket.serialize();
    // An unknown address tag after the identity.
    let mut with_bad_tag = text.clone();
    with_bad_tag.push_str("ff");
    assert_eq!(AddressTicket::deserialize(&with_bad_tag), Err(DecodeError::Malformed));
    // A truncated IPv4 entry.
    let mut truncated = text.clone();
    truncated.push_str("007f00");
    assert_eq!(AddressTicket::deserialize(&truncated), Err(DecodeError::Malformed));
    // A relay entry whose stated length overruns the payload.
    let mut overrun = text;
    overrun.push_str("02000561");
    assert_eq!(AddressTicket::deserialize(&overrun), Err(DecodeError::Malformed));
}

#[test]
fn relay_hint_is_bounded() {
    assert!(TransportAddress::relay(vec![b'a'; 65535]).is_some());
    assert!(TransportAddress::relay(vec![b'a'; 65536]).is_none());
}

#[test]
fn ipv6_needs_sixteen_octets() {
    assert!(TransportAddress::ipv6(vec![0u8; 15], 1).is_none());
    assert!(TransportAddress::ipv6(vec![0u8; 16], 1).is_some());
}

#[test]
fn round_trip_largest_relay_hint() {
    let relay = TransportAddress::relay(vec![b'r'; 65535]).unwrap();
    let ticket = AddressTicket::new(sample_identity(), vec![relay]);
    let back = AddressTicket::deserialize(&ticket.serialize()).unwrap();
    assert_eq!(back, ticket);
}
