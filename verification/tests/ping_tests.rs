use peerlink::errors::PingError;
use peerlink::ping::{
    decode_frame, encode_frame, ping_protocol_id, responder_step, Frame, Probe, ResponderAction,
};

#[test]
fn protocol_identifier_bytes() {
    assert_eq!(ping_protocol_id(), b"iroh/ping/0".to_vec());
}

#[test]
fn frame_round_trip() {
    let frames = [
        Frame::Request { token: 0 },
        Frame::Request { token: 0xdead_beef_0102_0304 },
        Frame::Response { token: u64::MAX },
    ];
    for f in frames {
        let bytes = encode_frame(&f);
        assert_eq!(bytes.len(), 9);
        assert_eq!(decode_frame(&bytes), Some(f));
    }
}

#[test]
fn frame_exact_bytes() {
    let bytes = encode_frame(&Frame::Request { token: 0x0102_0304_0506_0708 });
    assert_eq!(bytes, vec![0u8, 1, 2, 3, 4, 5, 6, 7, 8]);
    let bytes = encode_frame(&Frame::Response { token: 0x0102_0304_0506_0708 });
    assert_eq!(bytes, vec![1u8, 1, 2, 3, 4, 5, 6, 7, 8]);
}

#[test]
fn malformed_frames_are_rejected() {
    assert_eq!(decode_frame(&Vec::new()), None);
    assert_eq!(decode_frame(&vec![0u8; 8]), None);
    assert_eq!(decode_frame(&vec![0u8; 10]), None);
    assert_eq!(decode_frame(&vec![9u8, 0, 0, 0, 0, 0, 0, 0, 0]), None);
}

#[test]
fn responder_echoes_the_token() {
    let request = encode_frame(&Frame::Request { token: 4242 });
    match responder_step(&request) {
        ResponderAction::Reply { frame } => {
            assert_eq!(decode_frame(&frame), Some(Frame::Response { token: 4242 }));
        }
        ResponderAction::CloseConnection => panic!("a probe request must be answered"),
    }
}

#[test]
fn responder_closes_on_malformed_input() {
    assert_eq!(responder_step(&b"PING".to_vec()), ResponderAction::CloseConnection);
    let response = encode_frame(&Frame::Response { token: 1 });
    assert_eq!(responder_step(&response), ResponderAction::CloseConnection);
}

#[test]
fn live_probe_measures_elapsed_time() {
    let probe = Probe::start(99, 1_000, 5_000);
    let response = encode_frame(&Frame::Response { token: 99 });
    // A near-zero network round trip: the clock moved one tick.
    assert_eq!(probe.finish(&response, 1_001), Ok(1));
    assert_eq!(probe.finish(&response, 4_500), Ok(3_500));
}

#[test]
fn late_response_is_a_timeout() {
    let probe = Probe::start(99, 1_000, 5_000);
    let response = encode_frame(&Frame::Response { token: 99 });
    assert_eq!(probe.finish(&response, 6_000), Err(PingError::Timeout));
    assert_eq!(probe.finish(&response, 6_001), Err(PingError::Timeout));
}

#[test]
fn foreign_token_is_a_mismatch() {
    let probe = Probe::start(99, 1_000, 5_000);
    let stale = encode_frame(&Frame::Response { token: 98 });
    assert_eq!(probe.finish(&stale, 1_001), Err(PingError::ProtocolMismatch));
    let not_a_response = encode_frame(&Frame::Request { token: 99 });
    assert_eq!(probe.finish(&not_a_response, 1_001), Err(PingError::ProtocolMismatch));
    assert_eq!(probe.finish(&b"junk".to_vec(), 1_001), Err(PingError::ProtocolMismatch));
}

#[test]
fn concurrent_probes_have_no_cross_talk() {
    let first = Probe::start(1111, 100, 10_000);
    let second = Probe::start(2222, 100, 10_000);
    // The responder answers each connection with that connection's token.
    let reply_to_first = match responder_step(&first.request_frame()) {
        ResponderAction::Reply { frame } => frame,
        ResponderAction::CloseConnection => panic!("a probe request must be answered"),
    };
    let reply_to_second = match responder_step(&second.request_frame()) {
        ResponderAction::Reply { frame } => frame,
        ResponderAction::CloseConnection => panic!("a probe request must be answered"),
    };
    // Each initiator accepts its own response...
    assert_eq!(first.finish(&reply_to_first, 150), Ok(50));
    assert_eq!(second.finish(&reply_to_second, 160), Ok(60));
    // ...and would reject the other's.
    assert_eq!(first.finish(&reply_to_second, 150), Err(PingError::ProtocolMismatch));
    assert_eq!(second.finish(&reply_to_first, 160), Err(PingError::ProtocolMismatch));
}
