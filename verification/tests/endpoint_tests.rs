use peerlink::endpoint::Endpoint;
use peerlink::errors::ConnectError;
use peerlink::ticket::{AddressTicket, EndpointIdentity, TransportAddress};

fn identity_of(byte: u8) -> EndpointIdentity {
    EndpointIdentity::from_bytes(vec![byte; 32]).unwrap()
}

#[test]
fn bind_starts_open_with_no_addresses() {
    let ep = Endpoint::bind(identity_of(1));
    assert!(ep.is_open());
    assert_eq!(ep.local_ticket().address_count(), 0);
}

#[test]
fn local_ticket_snapshots_identity_and_addresses() {
    let mut ep = Endpoint::bind(identity_of(3));
    ep.note_address(TransportAddress::ipv4(10, 1, 2, 3, 7777));
    ep.note_address(TransportAddress::relay(b"https://relay.example/".to_vec()).unwrap());
    let ticket = ep.local_ticket();
    assert_eq!(ticket.identity().bytes(), &vec![3u8; 32]);
    assert_eq!(ticket.address_count(), 2);
    // The published snapshot survives the text form unchanged.
    let back = AddressTicket::deserialize(&ticket.serialize()).unwrap();
    assert_eq!(back, ticket);
}

#[test]
fn snapshots_grow_as_connectivity_is_learned() {
    let mut ep = Endpoint::bind(identity_of(4));
    let early = ep.local_ticket();
    ep.note_address(TransportAddress::ipv4(10, 1, 2, 3, 7777));
    let late = ep.local_ticket();
    assert_eq!(early.address_count(), 0);
    assert_eq!(late.address_count(), 1);
}

#[test]
fn connect_precheck_rejects_empty_candidate_set() {
    let ep = Endpoint::bind(identity_of(5));
    let unreachable = AddressTicket::new(identity_of(6), Vec::new());
    assert_eq!(ep.connect_precheck(&unreachable), Err(ConnectError::Unreachable));
}

#[test]
fn connect_precheck_accepts_any_candidate() {
    let ep = Endpoint::bind(identity_of(5));
    let remote = AddressTicket::new(
        identity_of(6),
        vec![TransportAddress::ipv4(127, 0, 0, 1, 4433)],
    );
    assert_eq!(ep.connect_precheck(&remote), Ok(()));
}

#[test]
fn shutdown_closes_the_endpoint() {
    let mut ep = Endpoint::bind(identity_of(7));
    assert!(ep.is_open());
    ep.shutdown();
    assert!(!ep.is_open());
}
