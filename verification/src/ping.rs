//! The round-trip-time probe protocol: fixed-size frames carrying a
//! correlation token, the responder's echo step, and the initiator's probe
//! bookkeeping.
//!
//! A request frame and its response carry the same token, so a response is
//! matched to exactly the probe that sent it; a stale or foreign response is
//! rejected. Timestamps are taken from a monotonic clock by the runtime layer
//! and handed in as plain numbers.

use vstd::prelude::*;

use crate::errors::PingError;

verus! {

/// Wire length of every ping frame: one tag byte and the 64-bit token.
pub const FRAME_LEN: usize = 9;

/// Frame tag of a probe request.
pub const TAG_REQUEST: u8 = 0;

/// Frame tag of a probe response.
pub const TAG_RESPONSE: u8 = 1;

/// One ping frame: a probe request or its echoed response.
#[derive(Clone, Copy, Debug, PartialEq, Eq, Structural)]
pub enum Frame {
    Request { token: u64 },
    Response { token: u64 },
}

/// The negotiated protocol identifier under which the probe protocol is
/// registered: the bytes of `iroh/ping/0`.
pub open spec fn ping_alpn() -> Seq<u8> {
    seq![105u8, 114u8, 111u8, 104u8, 47u8, 112u8, 105u8, 110u8, 103u8, 47u8, 48u8]
}

/// The protocol identifier the initiator negotiates and the responder
/// registers; initiator and responder must carry it byte for byte.
pub fn ping_protocol_id() -> (r: Vec<u8>)
    ensures
        r@ == ping_alpn(),
{
    let mut r: Vec<u8> = Vec::new();
    r.push(105);
    r.push(114);
    r.push(111);
    r.push(104);
    r.push(47);
    r.push(112);
    r.push(105);
    r.push(110);
    r.push(103);
    r.push(47);
    r.push(48);
    proof {
        assert(r@ =~= ping_alpn());
    }
    r
}

/// The eight bytes of a 64-bit token in big-endian order.
pub open spec fn be64_bytes(t: u64) -> Seq<u8> {
    seq![
        (t >> 56) as u8,
        (t >> 48) as u8,
        (t >> 40) as u8,
        (t >> 32) as u8,
        (t >> 24) as u8,
        (t >> 16) as u8,
        (t >> 8) as u8,
        t as u8,
    ]
}

/// The 64-bit token read from eight bytes in big-endian order.
pub open spec fn be64(b: Seq<u8>) -> u64
    recommends
        b.len() == 8,
{
    ((b[0] as u64) << 56) | ((b[1] as u64) << 48) | ((b[2] as u64) << 40) | ((b[3] as u64) << 32)
        | ((b[4] as u64) << 24) | ((b[5] as u64) << 16) | ((b[6] as u64) << 8) | (b[7] as u64)
}

pub proof fn lemma_be64_roundtrip(t: u64)
    ensures
        be64(be64_bytes(t)) == t,
{
    let b = be64_bytes(t);
    assert((((t >> 56) as u8 as u64) << 56) | (((t >> 48) as u8 as u64) << 48) | (((t >> 40) as u8
        as u64) << 40) | (((t >> 32) as u8 as u64) << 32) | (((t >> 24) as u8 as u64) << 24) | (((t
        >> 16) as u8 as u64) << 16) | (((t >> 8) as u8 as u64) << 8) | (t as u8 as u64) == t)
        by (bit_vector);
}

pub proof fn lemma_be64_split(b: Seq<u8>)
    requires
        b.len() == 8,
    ensures
        be64_bytes(be64(b)) == b,
{
    let b0 = b[0];
    let b1 = b[1];
    let b2 = b[2];
    let b3 = b[3];
    let b4 = b[4];
    let b5 = b[5];
    let b6 = b[6];
    let b7 = b[7];
    let t = be64(b);
    assert(t == ((b0 as u64) << 56) | ((b1 as u64) << 48) | ((b2 as u64) << 40) | ((b3 as u64)
        << 32) | ((b4 as u64) << 24) | ((b5 as u64) << 16) | ((b6 as u64) << 8) | (b7 as u64));
    let u = ((b0 as u64) << 56) | ((b1 as u64) << 48) | ((b2 as u64) << 40) | ((b3 as u64) << 32)
        | ((b4 as u64) << 24) | ((b5 as u64) << 16) | ((b6 as u64) << 8) | (b7 as u64);
    assert((u >> 56) as u8 == b0 && (u >> 48) as u8 == b1 && (u >> 40) as u8 == b2 && (u >> 32)
        as u8 == b3 && (u >> 24) as u8 == b4 && (u >> 16) as u8 == b5 && (u >> 8) as u8 == b6 && u
        as u8 == b7) by (bit_vector)
        requires
            u == ((b0 as u64) << 56) | ((b1 as u64) << 48) | ((b2 as u64) << 40) | ((b3 as u64)
                << 32) | ((b4 as u64) << 24) | ((b5 as u64) << 16) | ((b6 as u64) << 8) | (b7
                as u64),
    ;
    assert(be64_bytes(t) =~= b);
}

/// The wire bytes of a frame: the tag byte, then the token in big-endian
/// order.
pub open spec fn frame_bytes(f: Frame) -> Seq<u8> {
    match f {
        Frame::Request { token } => seq![TAG_REQUEST] + be64_bytes(token),
        Frame::Response { token } => seq![TAG_RESPONSE] + be64_bytes(token),
    }
}

/// The frame denoted by wire bytes; `None` where the bytes are not an
/// encoding that `frame_bytes` produces.
pub open spec fn parse_frame(b: Seq<u8>) -> Option<Frame> {
    if b.len() != FRAME_LEN {
        None
    } else if b[0] == TAG_REQUEST {
        Some(Frame::Request { token: be64(b.skip(1)) })
    } else if b[0] == TAG_RESPONSE {
        Some(Frame::Response { token: be64(b.skip(1)) })
    } else {
        None
    }
}

/// Frame round trip: parsing the bytes of a frame yields that frame.
pub proof fn lemma_parse_frame_roundtrip(f: Frame)
    ensures
        parse_frame(frame_bytes(f)) == Some(f),
{
    let b = frame_bytes(f);
    match f {
        Frame::Request { token } => {
            assert(b.skip(1) =~= be64_bytes(token));
            lemma_be64_roundtrip(token);
        },
        Frame::Response { token } => {
            assert(b.skip(1) =~= be64_bytes(token));
            lemma_be64_roundtrip(token);
        },
    }
}

/// A successful frame parse is canonical: the frame encodes back to the very
/// bytes.
pub proof fn lemma_parse_frame_sound(b: Seq<u8>)
    ensures
        parse_frame(b) matches Some(f) ==> frame_bytes(f) == b,
{
    if b.len() == FRAME_LEN && (b[0] == TAG_REQUEST || b[0] == TAG_RESPONSE) {
        lemma_be64_split(b.skip(1));
        match parse_frame(b) {
            Some(f) => {
                assert(frame_bytes(f) =~= b);
            },
            None => {},
        }
    }
}

/// The big-endian bytes of a token, for the wire.
fn push_be64(out: &mut Vec<u8>, t: u64)
    ensures
        final(out)@ == old(out)@ + be64_bytes(t),
{
    out.push((t >> 56) as u8);
    out.push((t >> 48) as u8);
    out.push((t >> 40) as u8);
    out.push((t >> 32) as u8);
    out.push((t >> 24) as u8);
    out.push((t >> 16) as u8);
    out.push((t >> 8) as u8);
    out.push(t as u8);
    proof {
        assert(out@ =~= old(out)@ + be64_bytes(t));
    }
}

/// The wire bytes of a frame.
pub fn encode_frame(f: &Frame) -> (r: Vec<u8>)
    ensures
        r@ == frame_bytes(*f),
{
    let mut out: Vec<u8> = Vec::new();
    match f {
        Frame::Request { token } => {
            out.push(TAG_REQUEST);
            push_be64(&mut out, *token);
        },
        Frame::Response { token } => {
            out.push(TAG_RESPONSE);
            push_be64(&mut out, *token);
        },
    }
    proof {
        assert(out@ =~= frame_bytes(*f));
    }
    out
}

/// Reads a frame from wire bytes; rejects anything `encode_frame` does not
/// produce.
pub fn decode_frame(b: &Vec<u8>) -> (r: Option<Frame>)
    ensures
        r == parse_frame(b@),
{
    if b.len() != FRAME_LEN {
        return None;
    }
    let tag = b[0];
    if tag != TAG_REQUEST && tag != TAG_RESPONSE {
        return None;
    }
    let token = ((b[1] as u64) << 56) | ((b[2] as u64) << 48) | ((b[3] as u64) << 40) | ((b[4]
        as u64) << 32) | ((b[5] as u64) << 24) | ((b[6] as u64) << 16) | ((b[7] as u64) << 8) | (
    b[8] as u64);
    proof {
        let rest = b@.skip(1);
        assert(rest[0] == b@[1] && rest[1] == b@[2] && rest[2] == b@[3] && rest[3] == b@[4]
            && rest[4] == b@[5] && rest[5] == b@[6] && rest[6] == b@[7] && rest[7] == b@[8]);
    }
    if tag == TAG_REQUEST {
        Some(Frame::Request { token })
    } else {
        Some(Frame::Response { token })
    }
}

/// What the responder does with one inbound frame.
#[derive(Debug, PartialEq, Eq)]
pub enum ResponderAction {
    /// Echo this response frame and keep the connection open.
    Reply { frame: Vec<u8> },
    /// The frame is not a probe request: close only this connection.
    CloseConnection,
}

/// The responder's step: a probe request is answered at once with a response
/// carrying the same correlation token; a malformed or unexpected frame
/// closes only this connection and never the router.
pub fn responder_step(input: &Vec<u8>) -> (a: ResponderAction)
    ensures
        match parse_frame(input@) {
            Some(f) => match f {
                Frame::Request { token } => a matches ResponderAction::Reply { frame } && frame@
                    == frame_bytes(Frame::Response { token }),
                Frame::Response { .. } => a matches ResponderAction::CloseConnection,
            },
            None => a matches ResponderAction::CloseConnection,
        },
{
    match decode_frame(input) {
        Some(Frame::Request { token }) => ResponderAction::Reply {
            frame: encode_frame(&Frame::Response { token }),
        },
        _ => ResponderAction::CloseConnection,
    }
}

/// One outstanding probe on the initiator side: its fresh correlation token,
/// the start timestamp, and the bounded wait. Timestamps and the timeout are
/// in the same unit of the runtime's monotonic clock.
#[derive(Clone, Copy, Debug, PartialEq, Eq, Structural)]
pub struct Probe {
    pub token: u64,
    pub started_at: u64,
    pub timeout: u64,
}

/// The outcome of a probe given the bytes that came back and the time the
/// answer arrived: the elapsed duration on a timely matching response, a
/// timeout on a late one, and a mismatch on anything else.
pub open spec fn spec_probe_outcome(probe: Probe, response: Seq<u8>, now: u64) -> Result<
    u64,
    PingError,
>
    recommends
        now >= probe.started_at,
{
    match parse_frame(response) {
        Some(Frame::Response { token }) => if token == probe.token {
            if now - probe.started_at < probe.timeout {
                Ok((now - probe.started_at) as u64)
            } else {
                Err(PingError::Timeout)
            }
        } else {
            Err(PingError::ProtocolMismatch)
        },
        _ => Err(PingError::ProtocolMismatch),
    }
}

impl Probe {
    /// Starts a probe: records the fresh token, the start timestamp and the
    /// bounded wait.
    pub fn start(token: u64, now: u64, timeout: u64) -> (r: Probe)
        ensures
            r == (Probe { token, started_at: now, timeout }),
    {
        Probe { token, started_at: now, timeout }
    }

    /// The request frame this probe sends: exactly one, with its own token.
    pub fn request_frame(&self) -> (r: Vec<u8>)
        ensures
            r@ == frame_bytes(Frame::Request { token: self.token }),
    {
        encode_frame(&Frame::Request { token: self.token })
    }

    /// Finishes the probe against the bytes that came back. The clock is
    /// monotonic: the answer cannot arrive before the probe started.
    pub fn finish(&self, response: &Vec<u8>, now: u64) -> (r: Result<u64, PingError>)
        requires
            now >= self.started_at,
        ensures
            r == spec_probe_outcome(*self, response@, now),
    {
        match decode_frame(response) {
            Some(Frame::Response { token }) => {
                if token == self.token {
                    let elapsed = now - self.started_at;
                    if elapsed < self.timeout {
                        Ok(elapsed)
                    } else {
                        Err(PingError::Timeout)
                    }
                } else {
                    Err(PingError::ProtocolMismatch)
                }
            },
            _ => Err(PingError::ProtocolMismatch),
        }
    }
}

/// Law: against a live responder, a probe whose echoed response arrives after
/// a positive delay below the timeout completes with exactly that delay,
/// greater than zero and less than the timeout.
pub proof fn lemma_live_probe_measures_delay(probe: Probe, now: u64)
    requires
        probe.started_at < now,
        now - probe.started_at < probe.timeout,
    ensures
        spec_probe_outcome(probe, frame_bytes(Frame::Response { token: probe.token }), now) == Ok::<
            u64,
            PingError,
        >((now - probe.started_at) as u64),
        0 < (now - probe.started_at) as u64,
        ((now - probe.started_at) as u64) < probe.timeout,
{
    lemma_parse_frame_roundtrip(Frame::Response { token: probe.token });
}

/// Law: no cross-talk between concurrent probes. A response is correlated by
/// its token: the probe that sent that token accepts it, and a probe with any
/// other token rejects the same response as a mismatch, at any arrival time.
pub proof fn lemma_response_correlation(probe: Probe, echoed: u64, now: u64)
    requires
        now >= probe.started_at,
        echoed != probe.token,
    ensures
        spec_probe_outcome(probe, frame_bytes(Frame::Response { token: echoed }), now) == Err::<
            u64,
            PingError,
        >(PingError::ProtocolMismatch),
{
    lemma_parse_frame_roundtrip(Frame::Response { token: echoed });
}

/// Law: the responder echoes the initiator's own token, so what each of two
/// concurrent initiators gets back from its own connection completes its own
/// probe and would be rejected by the other.
pub proof fn lemma_concurrent_probes_no_cross_talk(
    first: Probe,
    second: Probe,
    first_now: u64,
    second_now: u64,
)
    requires
        first.token != second.token,
        first.started_at < first_now,
        first_now - first.started_at < first.timeout,
        second_now >= second.started_at,
    ensures
        spec_probe_outcome(
            first,
            frame_bytes(Frame::Response { token: first.token }),
            first_now,
        ) == Ok::<u64, PingError>((first_now - first.started_at) as u64),
        spec_probe_outcome(
            second,
            frame_bytes(Frame::Response { token: first.token }),
            second_now,
        ) == Err::<u64, PingError>(PingError::ProtocolMismatch),
{
    lemma_live_probe_measures_delay(first, first_now);
    lemma_response_correlation(second, first.token, second_now);
}

} // verus!
