use peerlink::errors::DuplicateProtocolError;
use peerlink::ping::ping_protocol_id;
use peerlink::router::{AcceptEvent, DispatchDecision, ProtocolRouter, ServeAction};

#[test]
fn register_then_dispatch() {
    let mut router = ProtocolRouter::new();
    router.register(ping_protocol_id(), 7).unwrap();
    assert_eq!(
        router.dispatch(&ping_protocol_id()),
        DispatchDecision::Handle { handler: 7 }
    );
}

#[test]
fn duplicate_registration_is_refused_and_first_stays() {
    let mut router = ProtocolRouter::new();
    router.register(ping_protocol_id(), 1).unwrap();
    let second = router.register(ping_protocol_id(), 2);
    assert_eq!(second, Err(DuplicateProtocolError::AlreadyRegistered));
    // The first registration remains intact.
    assert_eq!(
        router.dispatch(&ping_protocol_id()),
        DispatchDecision::Handle { handler: 1 }
    );
}

#[test]
fn distinct_protocols_coexist() {
    let mut router = ProtocolRouter::new();
    router.register(b"proto/a".to_vec(), 1).unwrap();
    router.register(b"proto/b".to_vec(), 2).unwrap();
    assert_eq!(router.dispatch(&b"proto/a".to_vec()), DispatchDecision::Handle { handler: 1 });
    assert_eq!(router.dispatch(&b"proto/b".to_vec()), DispatchDecision::Handle { handler: 2 });
}

#[test]
fn unknown_identifier_is_rejected_no_prefix_matching() {
    let mut router = ProtocolRouter::new();
    router.register(b"proto/a".to_vec(), 1).unwrap();
    assert_eq!(router.dispatch(&b"proto".to_vec()), DispatchDecision::Reject);
    assert_eq!(router.dispatch(&b"proto/a/x".to_vec()), DispatchDecision::Reject);
    assert_eq!(router.dispatch(&b"proto/b".to_vec()), DispatchDecision::Reject);
}

#[test]
fn rejection_leaves_router_serving() {
    let mut router = ProtocolRouter::new();
    router.register(b"proto/a".to_vec(), 9).unwrap();
    // A connection with an unregistered identifier is rejected...
    let rejected = router.serve_step(&AcceptEvent::Incoming { protocol_id: b"nope".to_vec() });
    assert_eq!(rejected, ServeAction::RejectConnection);
    // ...and the router still dispatches the next connection.
    let served = router.serve_step(&AcceptEvent::Incoming { protocol_id: b"proto/a".to_vec() });
    assert_eq!(served, ServeAction::Dispatch { handler: 9 });
}

#[test]
fn endpoint_close_stops_the_serve_loop() {
    let mut router = ProtocolRouter::new();
    router.register(b"proto/a".to_vec(), 9).unwrap();
    assert_eq!(router.serve_step(&AcceptEvent::Closed), ServeAction::Stop);
}

#[test]
fn empty_router_rejects_everything() {
    let router = ProtocolRouter::new();
    assert_eq!(router.dispatch(&Vec::new()), DispatchDecision::Reject);
    assert_eq!(router.dispatch(&ping_protocol_id()), DispatchDecision::Reject);
}
