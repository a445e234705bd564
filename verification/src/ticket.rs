//! Address tickets: portable, serializable descriptors of how to reach an
//! endpoint (identity plus known candidate addresses).
//!
//! The textual form is one printable line: the kind prefix `endpoint`, a
//! version tag, then the lowercase hexadecimal of a byte payload. The payload
//! is the 32-byte identity followed by the candidate addresses, each a tag
//! byte and its fields in big-endian order. The decoder accepts exactly what
//! the encoder produces and rejects anything else.

use vstd::prelude::*;

use crate::codec::{
    append_hex, be16, be16_hi, be16_lo, hex_char_value, hex_of, join_be16,
    lemma_be16_roundtrip, lemma_be16_split, lemma_hex_digit_of_val, lemma_hex_of_push,
    lemma_parse_hex_concat, lemma_parse_hex_of, lemma_parse_hex_sound, parse_hex, split_be16,
};
use crate::errors::DecodeError;
use vstd::string::StringExecFns;

verus! {

/// Number of bytes in an endpoint identity (a raw public key).
pub const IDENTITY_LEN: usize = 32;

/// Payload tag of an IPv4 socket address.
pub const TAG_V4: u8 = 0;

/// Payload tag of an IPv6 socket address.
pub const TAG_V6: u8 = 1;

/// Payload tag of a relay hint.
pub const TAG_RELAY: u8 = 2;

/// A unique, stable identifier of one participant: a 32-byte public key.
#[derive(Debug, PartialEq, Eq)]
pub struct EndpointIdentity {
    key: Vec<u8>,
}

impl View for EndpointIdentity {
    type V = Seq<u8>;

    closed spec fn view(&self) -> Seq<u8> {
        self.key@
    }
}

impl EndpointIdentity {
    pub open spec fn wf(&self) -> bool {
        self@.len() == IDENTITY_LEN
    }

    /// Accepts exactly 32 bytes as an identity.
    pub fn from_bytes(key: Vec<u8>) -> (r: Option<EndpointIdentity>)
        ensures
            match r {
                Some(id) => id@ == key@ && id.wf(),
                None => key@.len() != IDENTITY_LEN,
            },
    {
        if key.len() == IDENTITY_LEN {
            Some(EndpointIdentity { key })
        } else {
            None
        }
    }

    /// The raw key bytes.
    pub fn bytes(&self) -> (r: &Vec<u8>)
        ensures
            r@ == self@,
    {
        &self.key
    }
}

impl Clone for EndpointIdentity {
    fn clone(&self) -> (r: Self)
        ensures
            r@ == self@,
    {
        EndpointIdentity { key: self.key.clone() }
    }
}

/// One candidate transport address of an endpoint.
#[derive(Debug, PartialEq, Eq)]
pub enum TransportAddress {
    /// An IPv4 socket address: four octets and a port.
    Ipv4 { octets: Vec<u8>, port: u16 },
    /// An IPv6 socket address: sixteen octets and a port.
    Ipv6 { octets: Vec<u8>, port: u16 },
    /// A relay hint: the bytes of a relay URL.
    Relay { url: Vec<u8> },
}

/// The mathematical model of one transport address.
#[verifier::ext_equal]
pub enum AddrModel {
    V4 { octets: Seq<u8>, port: u16 },
    V6 { octets: Seq<u8>, port: u16 },
    Relay { url: Seq<u8> },
}

impl View for TransportAddress {
    type V = AddrModel;

    open spec fn view(&self) -> AddrModel {
        match self {
            TransportAddress::Ipv4 { octets, port } => AddrModel::V4 {
                octets: octets@,
                port: *port,
            },
            TransportAddress::Ipv6 { octets, port } => AddrModel::V6 {
                octets: octets@,
                port: *port,
            },
            TransportAddress::Relay { url } => AddrModel::Relay { url: url@ },
        }
    }
}

pub open spec fn addr_wf(a: AddrModel) -> bool {
    match a {
        AddrModel::V4 { octets, .. } => octets.len() == 4,
        AddrModel::V6 { octets, .. } => octets.len() == 16,
        AddrModel::Relay { url } => url.len() <= 0xFFFF,
    }
}

pub open spec fn addrs_wf(s: Seq<AddrModel>) -> bool {
    forall|i: int| 0 <= i < s.len() ==> addr_wf(#[trigger] s[i])
}

impl TransportAddress {
    pub open spec fn wf(&self) -> bool {
        addr_wf(self@)
    }

    /// An IPv4 candidate from its four octets and port.
    pub fn ipv4(a: u8, b: u8, c: u8, d: u8, port: u16) -> (r: TransportAddress)
        ensures
            r@ == (AddrModel::V4 { octets: seq![a, b, c, d], port }),
            r.wf(),
    {
        let mut octets: Vec<u8> = Vec::new();
        octets.push(a);
        octets.push(b);
        octets.push(c);
        octets.push(d);
        proof {
            assert(octets@ =~= seq![a, b, c, d]);
        }
        TransportAddress::Ipv4 { octets, port }
    }

    /// An IPv6 candidate from its sixteen octets and port.
    pub fn ipv6(octets: Vec<u8>, port: u16) -> (r: Option<TransportAddress>)
        ensures
            match r {
                Some(t) => t@ == (AddrModel::V6 { octets: octets@, port }) && t.wf(),
                None => octets@.len() != 16,
            },
    {
        if octets.len() == 16 {
            Some(TransportAddress::Ipv6 { octets, port })
        } else {
            None
        }
    }

    /// A relay hint from the bytes of its URL.
    pub fn relay(url: Vec<u8>) -> (r: Option<TransportAddress>)
        ensures
            match r {
                Some(t) => t@ == (AddrModel::Relay { url: url@ }) && t.wf(),
                None => url@.len() > 0xFFFF,
            },
    {
        if url.len() <= 0xFFFF {
            Some(TransportAddress::Relay { url })
        } else {
            None
        }
    }
}

impl Clone for TransportAddress {
    fn clone(&self) -> (r: Self)
        ensures
            r@ == self@,
    {
        match self {
            TransportAddress::Ipv4 { octets, port } => TransportAddress::Ipv4 {
                octets: octets.clone(),
                port: *port,
            },
            TransportAddress::Ipv6 { octets, port } => TransportAddress::Ipv6 {
                octets: octets.clone(),
                port: *port,
            },
            TransportAddress::Relay { url } => TransportAddress::Relay { url: url.clone() },
        }
    }
}

/// The mathematical model of an address ticket.
#[verifier::ext_equal]
pub struct TicketView {
    pub id: Seq<u8>,
    pub addrs: Seq<AddrModel>,
}

impl TicketView {
    pub open spec fn wf(&self) -> bool {
        self.id.len() == IDENTITY_LEN && addrs_wf(self.addrs)
    }
}

/// The models of a sequence of transport addresses.
pub open spec fn addr_models(s: Seq<TransportAddress>) -> Seq<AddrModel> {
    s.map_values(|a: TransportAddress| a@)
}

/// An immutable value combining one identity and its candidate addresses,
/// made for lossless serialization to and from a compact text form.
#[derive(Debug, PartialEq, Eq)]
pub struct AddressTicket {
    identity: EndpointIdentity,
    addresses: Vec<TransportAddress>,
}

impl View for AddressTicket {
    type V = TicketView;

    closed spec fn view(&self) -> TicketView {
        TicketView { id: self.identity@, addrs: addr_models(self.addresses@) }
    }
}

/// The payload bytes of one address: a tag byte and the fields.
pub open spec fn addr_bytes(a: AddrModel) -> Seq<u8> {
    match a {
        AddrModel::V4 { octets, port } => seq![TAG_V4] + octets + seq![
            be16_hi(port),
            be16_lo(port),
        ],
        AddrModel::V6 { octets, port } => seq![TAG_V6] + octets + seq![
            be16_hi(port),
            be16_lo(port),
        ],
        AddrModel::Relay { url } => seq![
            TAG_RELAY,
            be16_hi(url.len() as u16),
            be16_lo(url.len() as u16),
        ] + url,
    }
}

/// The payload bytes of an address sequence, in order.
pub open spec fn addrs_bytes(s: Seq<AddrModel>) -> Seq<u8>
    decreases s.len(),
{
    if s.len() == 0 {
        Seq::<u8>::empty()
    } else {
        addr_bytes(s[0]) + addrs_bytes(s.drop_first())
    }
}

/// The whole payload: the identity followed by the addresses.
pub open spec fn payload_bytes(t: TicketView) -> Seq<u8> {
    t.id + addrs_bytes(t.addrs)
}

/// The kind prefix of every ticket text.
pub open spec fn kind_chars() -> Seq<char> {
    seq!['e', 'n', 'd', 'p', 'o', 'i', 'n', 't']
}

/// The kind prefix followed by the version tag.
pub open spec fn header_chars() -> Seq<char> {
    kind_chars().push('1')
}

/// The canonical text of a ticket.
pub open spec fn ticket_text(t: TicketView) -> Seq<char> {
    header_chars() + hex_of(payload_bytes(t))
}

/// Parses the address entries of a payload remainder; `None` where the bytes
/// are not an encoding that `addrs_bytes` produces.
pub open spec fn parse_addrs(b: Seq<u8>) -> Option<Seq<AddrModel>>
    decreases b.len(),
{
    if b.len() == 0 {
        Some(Seq::<AddrModel>::empty())
    } else if b[0] == TAG_V4 {
        if b.len() >= 7 {
            match parse_addrs(b.skip(7)) {
                Some(rest) => Some(
                    seq![AddrModel::V4 { octets: b.subrange(1, 5), port: be16(b[5], b[6]) }] + rest,
                ),
                None => None,
            }
        } else {
            None
        }
    } else if b[0] == TAG_V6 {
        if b.len() >= 19 {
            match parse_addrs(b.skip(19)) {
                Some(rest) => Some(
                    seq![AddrModel::V6 { octets: b.subrange(1, 17), port: be16(b[17], b[18]) }]
                        + rest,
                ),
                None => None,
            }
        } else {
            None
        }
    } else if b[0] == TAG_RELAY {
        if b.len() >= 3 {
            let n = be16(b[1], b[2]) as int;
            if b.len() >= 3 + n {
                match parse_addrs(b.skip(3 + n)) {
                    Some(rest) => Some(seq![AddrModel::Relay { url: b.subrange(3, 3 + n) }] + rest),
                    None => None,
                }
            } else {
                None
            }
        } else {
            None
        }
    } else {
        None
    }
}

/// Whether the text starts with the ticket kind prefix.
pub open spec fn has_kind(s: Seq<char>) -> bool {
    s.len() >= 8 && s.subrange(0, 8) == kind_chars()
}

/// Whether the character after the kind prefix is the supported version tag.
pub open spec fn version_ok(s: Seq<char>) -> bool {
    s.len() >= 9 && s[8] == '1'
}

/// The meaning of a ticket text: the ticket it denotes, or the error with
/// which it is rejected.
pub open spec fn spec_decode(s: Seq<char>) -> Result<TicketView, DecodeError> {
    if !has_kind(s) {
        Err(DecodeError::WrongKind)
    } else if !version_ok(s) {
        Err(DecodeError::UnsupportedVersion)
    } else {
        match parse_hex(s.skip(9)) {
            None => Err(DecodeError::Malformed),
            Some(b) => if b.len() < IDENTITY_LEN {
                Err(DecodeError::Malformed)
            } else {
                match parse_addrs(b.skip(IDENTITY_LEN as int)) {
                    None => Err(DecodeError::Malformed),
                    Some(addrs) => Ok(
                        TicketView { id: b.subrange(0, IDENTITY_LEN as int), addrs },
                    ),
                }
            },
        }
    }
}

/// Appends every byte of `src` to `dst`.
pub(crate) fn push_all(dst: &mut Vec<u8>, src: &Vec<u8>)
    ensures
        final(dst)@ == old(dst)@ + src@,
{
    let mut i: usize = 0;
    while i < src.len()
        invariant
            i <= src.len(),
            dst@ == old(dst)@ + src@.take(i as int),
        decreases src.len() - i,
    {
        dst.push(src[i]);
        proof {
            assert(src@.take(i as int).push(src@[i as int]) =~= src@.take(i as int + 1));
            assert(dst@ =~= old(dst)@ + src@.take(i as int + 1));
        }
        i = i + 1;
    }
    proof {
        assert(src@.take(src@.len() as int) =~= src@);
    }
}

/// The bytes of `v` between `from` and `to`.
pub(crate) fn subvec(v: &Vec<u8>, from: usize, to: usize) -> (r: Vec<u8>)
    requires
        from <= to <= v@.len(),
    ensures
        r@ == v@.subrange(from as int, to as int),
{
    let mut r: Vec<u8> = Vec::new();
    let mut i: usize = from;
    while i < to
        invariant
            from <= i <= to <= v@.len(),
            r@ == v@.subrange(from as int, i as int),
        decreases to - i,
    {
        r.push(v[i]);
        proof {
            assert(v@.subrange(from as int, i as int).push(v@[i as int]) =~= v@.subrange(
                from as int,
                i as int + 1,
            ));
        }
        i = i + 1;
    }
    r
}

/// Appending one address appends its bytes.
pub proof fn lemma_addrs_bytes_push(s: Seq<AddrModel>, a: AddrModel)
    ensures
        addrs_bytes(s.push(a)) == addrs_bytes(s) + addr_bytes(a),
    decreases s.len(),
{
    if s.len() == 0 {
        let p = s.push(a);
        assert(p.len() == 1 && p[0] == a);
        assert(p.drop_first() =~= Seq::<AddrModel>::empty());
        assert(addrs_bytes(p) == addr_bytes(a) + addrs_bytes(p.drop_first()));
        assert(addrs_bytes(s.push(a)) =~= addrs_bytes(s) + addr_bytes(a));
    } else {
        assert(s.push(a).drop_first() =~= s.drop_first().push(a));
        lemma_addrs_bytes_push(s.drop_first(), a);
        assert(addrs_bytes(s.push(a)) =~= addrs_bytes(s) + addr_bytes(a));
    }
}

/// Parsing a remainder that starts with one address's bytes consumes exactly
/// those bytes and yields that address.
proof fn lemma_parse_addr_step(a0: AddrModel, mid: Seq<u8>)
    requires
        addr_wf(a0),
    ensures
        parse_addrs(addr_bytes(a0) + mid) == match parse_addrs(mid) {
            Some(b) => Some(seq![a0] + b),
            None => None::<Seq<AddrModel>>,
        },
{
    let s = addr_bytes(a0) + mid;
    match a0 {
        AddrModel::V4 { octets, port } => {
            assert(s.len() >= 7);
            assert(s[0] == TAG_V4);
            assert(s.subrange(1, 5) =~= octets);
            assert(s[5] == be16_hi(port) && s[6] == be16_lo(port));
            lemma_be16_roundtrip(port);
            assert(s.skip(7) =~= mid);
            match parse_addrs(mid) {
                Some(b) => {
                    assert(parse_addrs(s) == Some(
                        seq![AddrModel::V4 { octets: s.subrange(1, 5), port: be16(s[5], s[6]) }]
                            + b,
                    ));
                    assert(seq![
                        AddrModel::V4 { octets: s.subrange(1, 5), port: be16(s[5], s[6]) },
                    ] =~= seq![a0]);
                },
                None => {},
            }
        },
        AddrModel::V6 { octets, port } => {
            assert(s.len() >= 19);
            assert(s[0] == TAG_V6);
            assert(s.subrange(1, 17) =~= octets);
            assert(s[17] == be16_hi(port) && s[18] == be16_lo(port));
            lemma_be16_roundtrip(port);
            assert(s.skip(19) =~= mid);
            match parse_addrs(mid) {
                Some(b) => {
                    assert(seq![
                        AddrModel::V6 { octets: s.subrange(1, 17), port: be16(s[17], s[18]) },
                    ] =~= seq![a0]);
                },
                None => {},
            }
        },
        AddrModel::Relay { url } => {
            let n = url.len() as int;
            assert(s.len() == 3 + n + mid.len());
            assert(s[0] == TAG_RELAY);
            assert(s[1] == be16_hi(url.len() as u16) && s[2] == be16_lo(url.len() as u16));
            lemma_be16_roundtrip(url.len() as u16);
            assert(be16(s[1], s[2]) as int == n);
            assert(s.subrange(3, 3 + n) =~= url);
            assert(s.skip(3 + n) =~= mid);
            match parse_addrs(mid) {
                Some(b) => {
                    assert(seq![AddrModel::Relay { url: s.subrange(3, 3 + n) }] =~= seq![a0]);
                },
                None => {},
            }
        },
    }
}

/// Parsing a remainder that starts with the bytes of a well-formed address
/// sequence consumes exactly those bytes and parses the rest.
pub proof fn lemma_parse_addrs_concat(a: Seq<AddrModel>, rest: Seq<u8>)
    requires
        addrs_wf(a),
    ensures
        parse_addrs(addrs_bytes(a) + rest) == match parse_addrs(rest) {
            Some(b) => Some(a + b),
            None => None::<Seq<AddrModel>>,
        },
    decreases a.len(),
{
    if a.len() == 0 {
        assert(addrs_bytes(a) + rest =~= rest);
        match parse_addrs(rest) {
            Some(b) => {
                assert(a + b =~= b);
            },
            None => {},
        }
    } else {
        let a0 = a[0];
        let tail = a.drop_first();
        let mid = addrs_bytes(tail) + rest;
        assert(addrs_bytes(a) + rest =~= addr_bytes(a0) + mid);
        assert(addr_wf(a0));
        assert(addrs_wf(tail)) by {
            assert(forall|i: int| 0 <= i < tail.len() ==> #[trigger] tail[i] == a[i + 1]);
        }
        lemma_parse_addr_step(a0, mid);
        lemma_parse_addrs_concat(tail, rest);
        match parse_addrs(rest) {
            Some(b) => {
                assert(parse_addrs(mid) == Some(tail + b));
                assert(seq![a0] + (tail + b) =~= a + b);
            },
            None => {},
        }
    }
}

/// A successful address parse round-trips: the parsed addresses are
/// well-formed and encode back to the very bytes.
pub proof fn lemma_parse_addrs_sound(b: Seq<u8>)
    ensures
        parse_addrs(b) matches Some(a) ==> addrs_wf(a) && addrs_bytes(a) == b,
    decreases b.len(),
{
    if b.len() == 0 {
        assert(addrs_bytes(Seq::<AddrModel>::empty()) =~= b);
    } else if b[0] == TAG_V4 {
        if b.len() >= 7 {
            lemma_parse_addrs_sound(b.skip(7));
            match parse_addrs(b.skip(7)) {
                Some(rest) => {
                    let m = AddrModel::V4 { octets: b.subrange(1, 5), port: be16(b[5], b[6]) };
                    let a = seq![m] + rest;
                    lemma_be16_split(b[5], b[6]);
                    assert(a[0] == m && a.drop_first() =~= rest);
                    assert(addr_bytes(m) =~= b.subrange(0, 7));
                    assert(addrs_bytes(a) == addr_bytes(m) + addrs_bytes(rest));
                    assert(addrs_bytes(a) =~= b);
                    assert forall|i: int| 0 <= i < a.len() implies addr_wf(#[trigger] a[i]) by {
                        if i > 0 {
                            assert(a[i] == rest[i - 1]);
                        }
                    }
                },
                None => {},
            }
        }
    } else if b[0] == TAG_V6 {
        if b.len() >= 19 {
            lemma_parse_addrs_sound(b.skip(19));
            match parse_addrs(b.skip(19)) {
                Some(rest) => {
                    let m = AddrModel::V6 { octets: b.subrange(1, 17), port: be16(b[17], b[18]) };
                    let a = seq![m] + rest;
                    lemma_be16_split(b[17], b[18]);
                    assert(a[0] == m && a.drop_first() =~= rest);
                    assert(addr_bytes(m) =~= b.subrange(0, 19));
                    assert(addrs_bytes(a) == addr_bytes(m) + addrs_bytes(rest));
                    assert(addrs_bytes(a) =~= b);
                    assert forall|i: int| 0 <= i < a.len() implies addr_wf(#[trigger] a[i]) by {
                        if i > 0 {
                            assert(a[i] == rest[i - 1]);
                        }
                    }
                },
                None => {},
            }
        }
    } else if b[0] == TAG_RELAY {
        if b.len() >= 3 {
            let n = be16(b[1], b[2]) as int;
            if b.len() >= 3 + n {
                lemma_parse_addrs_sound(b.skip(3 + n));
                match parse_addrs(b.skip(3 + n)) {
                    Some(rest) => {
                        let m = AddrModel::Relay { url: b.subrange(3, 3 + n) };
                        let a = seq![m] + rest;
                        lemma_be16_split(b[1], b[2]);
                        assert(b.subrange(3, 3 + n).len() as u16 == be16(b[1], b[2]));
                        assert(a[0] == m && a.drop_first() =~= rest);
                        assert(addr_bytes(m) =~= b.subrange(0, 3 + n));
                        assert(addrs_bytes(a) == addr_bytes(m) + addrs_bytes(rest));
                        assert(addrs_bytes(a) =~= b);
                        assert forall|i: int| 0 <= i < a.len() implies addr_wf(#[trigger] a[i]) by {
                            if i > 0 {
                                assert(a[i] == rest[i - 1]);
                            }
                        }
                    },
                    None => {},
                }
            }
        }
    }
}

/// Round-trip law: decoding the canonical text of any well-formed ticket
/// yields that very ticket.
pub proof fn lemma_decode_of_encode(t: TicketView)
    requires
        t.wf(),
    ensures
        spec_decode(ticket_text(t)) == Ok::<TicketView, DecodeError>(t),
{
    let s = ticket_text(t);
    let payload = payload_bytes(t);
    crate::codec::lemma_hex_of_len(payload);
    assert(s.len() == 9 + 2 * payload.len());
    assert(s.subrange(0, 8) =~= kind_chars());
    assert(s[8] == '1');
    assert(has_kind(s) && version_ok(s));
    assert(s.skip(9) =~= hex_of(payload));
    lemma_parse_hex_of(payload);
    assert(parse_hex(s.skip(9)) == Some(payload));
    assert(payload.len() >= IDENTITY_LEN);
    assert(payload.subrange(0, IDENTITY_LEN as int) =~= t.id);
    assert(payload.skip(IDENTITY_LEN as int) =~= addrs_bytes(t.addrs));
    lemma_parse_addrs_concat(t.addrs, Seq::<u8>::empty());
    assert(addrs_bytes(t.addrs) + Seq::<u8>::empty() =~= addrs_bytes(t.addrs));
    assert(t.addrs + Seq::<AddrModel>::empty() =~= t.addrs);
    assert(parse_addrs(payload.skip(IDENTITY_LEN as int)) == Some(t.addrs));
    assert(spec_decode(s) == Ok::<TicketView, DecodeError>(
        TicketView { id: payload.subrange(0, IDENTITY_LEN as int), addrs: t.addrs },
    ));
    assert(TicketView { id: payload.subrange(0, IDENTITY_LEN as int), addrs: t.addrs } =~= t);
}

/// A successful decode is canonical: the decoded ticket is well-formed and
/// encodes back to the very text.
pub proof fn lemma_decode_sound(s: Seq<char>)
    ensures
        spec_decode(s) matches Ok(t) ==> t.wf() && ticket_text(t) == s,
{
    if has_kind(s) && version_ok(s) {
        lemma_parse_hex_sound(s.skip(9));
        match parse_hex(s.skip(9)) {
            Some(b) => {
                if b.len() >= IDENTITY_LEN {
                    lemma_parse_addrs_sound(b.skip(IDENTITY_LEN as int));
                    match parse_addrs(b.skip(IDENTITY_LEN as int)) {
                        Some(addrs) => {
                            let t = TicketView {
                                id: b.subrange(0, IDENTITY_LEN as int),
                                addrs,
                            };
                            assert(t.wf());
                            assert(payload_bytes(t) =~= b);
                            assert(ticket_text(t) =~= s) by {
                                assert(hex_of(b) == s.skip(9));
                                assert(forall|i: int|
                                    0 <= i < 8 ==> s[i] == #[trigger] kind_chars()[i]);
                            }
                        },
                        None => {},
                    }
                }
            },
            None => {},
        }
    }
}

/// Rejection law: a text that no well-formed ticket encodes to is decoded to
/// an error, never to a ticket.
pub proof fn lemma_reject_foreign_text(s: Seq<char>)
    requires
        forall|t: TicketView| t.wf() ==> ticket_text(t) != s,
    ensures
        spec_decode(s) is Err,
{
    lemma_decode_sound(s);
    match spec_decode(s) {
        Ok(t) => {
            assert(ticket_text(t) != s);
            assert(false);
        },
        Err(_) => {},
    }
}

impl AddressTicket {
    pub open spec fn wf(&self) -> bool {
        self@.wf()
    }

    /// Combines an identity and its candidate addresses; pure, never fails.
    pub fn new(identity: EndpointIdentity, addresses: Vec<TransportAddress>) -> (r: AddressTicket)
        ensures
            r@.id == identity@,
            r@.addrs == addr_models(addresses@),
            identity.wf() && (forall|i: int|
                0 <= i < addresses@.len() ==> #[trigger] addresses@[i].wf()) ==> r.wf(),
    {
        let r = AddressTicket { identity, addresses };
        proof {
            let models = addr_models(r.addresses@);
            if forall|i: int| 0 <= i < r.addresses@.len() ==> #[trigger] r.addresses@[i].wf() {
                assert forall|i: int| 0 <= i < models.len() implies addr_wf(#[trigger] models[i]) by {
                    assert(models[i] == r.addresses@[i]@);
                    assert(r.addresses@[i].wf());
                }
            }
        }
        r
    }

    /// The identity the ticket points at.
    pub fn identity(&self) -> (r: &EndpointIdentity)
        ensures
            r@ == self@.id,
    {
        &self.identity
    }

    /// The candidate addresses, in order.
    pub fn addresses(&self) -> (r: &Vec<TransportAddress>)
        ensures
            addr_models(r@) == self@.addrs,
    {
        &self.addresses
    }

    /// Number of candidate addresses.
    pub fn address_count(&self) -> (r: usize)
        ensures
            r == self@.addrs.len(),
    {
        self.addresses.len()
    }

    /// Produces the canonical single-line text of the ticket. The encoding is
    /// a function of the value alone, so repeated calls return the same text.
    pub fn serialize(&self) -> (r: String)
        requires
            self.wf(),
        ensures
            r@ == ticket_text(self@),
    {
        let mut payload: Vec<u8> = Vec::new();
        push_all(&mut payload, &self.identity.key);
        proof {
            assert(payload@ =~= self@.id);
        }
        let ghost models = addr_models(self.addresses@);
        let mut i: usize = 0;
        while i < self.addresses.len()
            invariant
                i <= self.addresses@.len(),
                models == addr_models(self.addresses@),
                addrs_wf(models),
                models.len() == self.addresses@.len(),
                forall|j: int| 0 <= j < models.len() ==> models[j] == #[trigger] self.addresses@[j]@,
                payload@ == self@.id + addrs_bytes(models.take(i as int)),
                self.wf(),
                self@.id == self.identity@,
            decreases self.addresses@.len() - i,
        {
            let ghost before = payload@;
            let a = &self.addresses[i];
            match a {
                TransportAddress::Ipv4 { octets, port } => {
                    payload.push(TAG_V4);
                    push_all(&mut payload, octets);
                    let (hi, lo) = split_be16(*port);
                    payload.push(hi);
                    payload.push(lo);
                    proof {
                        assert(payload@ =~= before + addr_bytes(models[i as int]));
                    }
                },
                TransportAddress::Ipv6 { octets, port } => {
                    payload.push(TAG_V6);
                    push_all(&mut payload, octets);
                    let (hi, lo) = split_be16(*port);
                    payload.push(hi);
                    payload.push(lo);
                    proof {
                        assert(payload@ =~= before + addr_bytes(models[i as int]));
                    }
                },
                TransportAddress::Relay { url } => {
                    proof {
                        assert(addr_wf(models[i as int]));
                    }
                    payload.push(TAG_RELAY);
                    let (hi, lo) = split_be16(url.len() as u16);
                    payload.push(hi);
                    payload.push(lo);
                    push_all(&mut payload, url);
                    proof {
                        assert(payload@ =~= before + addr_bytes(models[i as int]));
                    }
                },
            }
            proof {
                lemma_addrs_bytes_push(models.take(i as int), models[i as int]);
                assert(models.take(i as int).push(models[i as int]) =~= models.take(i as int + 1));
                assert(payload@ =~= self@.id + addrs_bytes(models.take(i as int + 1)));
            }
            i = i + 1;
        }
        proof {
            assert(models.take(models.len() as int) =~= models);
            assert(payload@ =~= payload_bytes(self@));
        }
        let mut out = String::new();
        let header = "endpoint1";
        proof {
            reveal_strlit("endpoint1");
        }
        out.append(header);
        proof {
            assert(out@ =~= header_chars());
        }
        append_hex(&mut out, &payload);
        proof {
            assert(out@ =~= ticket_text(self@));
        }
        out
    }

    /// Parses the textual form. Accepts exactly what `serialize` produces:
    /// the result is `Ok` precisely on the canonical text of a well-formed
    /// ticket, and each malformed text is rejected with the stated error.
    #[verifier::rlimit(100)]
    pub fn deserialize(s: &str) -> (r: Result<AddressTicket, DecodeError>)
        ensures
            match r {
                Ok(t) => t.wf() && spec_decode(s@) == Ok::<TicketView, DecodeError>(t@),
                Err(e) => spec_decode(s@) == Err::<TicketView, DecodeError>(e),
            },
    {
        let n = s.unicode_len();
        if n < 8 {
            return Err(DecodeError::WrongKind);
        }
        let mut i: usize = 0;
        while i < 8
            invariant
                i <= 8,
                8 <= n == s@.len(),
                forall|j: int| 0 <= j < i ==> s@[j] == #[trigger] kind_chars()[j],
            decreases 8 - i,
        {
            if s.get_char(i) != kind_char(i) {
                proof {
                    assert(s@.subrange(0, 8)[i as int] != kind_chars()[i as int]);
                    assert(!has_kind(s@));
                }
                return Err(DecodeError::WrongKind);
            }
            i = i + 1;
        }
        proof {
            assert(s@.subrange(0, 8) =~= kind_chars());
            assert(has_kind(s@));
        }
        if n < 9 {
            return Err(DecodeError::UnsupportedVersion);
        }
        if s.get_char(8) != '1' {
            return Err(DecodeError::UnsupportedVersion);
        }
        let mut bytes: Vec<u8> = Vec::new();
        let mut pos: usize = 9;
        loop
            invariant
                9 <= pos <= n,
                n == s@.len(),
                has_kind(s@),
                version_ok(s@),
                hex_of(bytes@) == s@.subrange(9, pos as int),
            ensures
                pos == n,
                hex_of(bytes@) == s@.subrange(9, n as int),
            decreases n - pos,
        {
            if pos == n {
                break;
            }
            if n - pos < 2 {
                proof {
                    let rem = s@.skip(pos as int);
                    assert(rem.len() == 1);
                    assert(s@.skip(9) =~= hex_of(bytes@) + rem);
                    lemma_parse_hex_concat(bytes@, rem);
                    assert(parse_hex(s@.skip(9)) is None);
                }
                return Err(DecodeError::Malformed);
            }
            let hi = hex_char_value(s.get_char(pos));
            let lo = hex_char_value(s.get_char(pos + 1));
            if hi >= 16 || lo >= 16 {
                proof {
                    let rem = s@.skip(pos as int);
                    assert(rem.len() >= 2);
                    assert(rem[0] == s@[pos as int] && rem[1] == s@[pos as int + 1]);
                    assert(parse_hex(rem) is None);
                    assert(s@.skip(9) =~= hex_of(bytes@) + rem);
                    lemma_parse_hex_concat(bytes@, rem);
                    assert(parse_hex(s@.skip(9)) is None);
                }
                return Err(DecodeError::Malformed);
            }
            let b = hi * 16 + lo;
            proof {
                vstd::arithmetic::div_mod::lemma_fundamental_div_mod_converse(
                    b as int,
                    16,
                    hi as int,
                    lo as int,
                );
                lemma_hex_digit_of_val(hi as int, s@[pos as int]);
                lemma_hex_digit_of_val(lo as int, s@[pos as int + 1]);
                lemma_hex_of_push(bytes@, b);
                assert(hex_of(bytes@.push(b)) =~= s@.subrange(9, pos as int + 2));
            }
            bytes.push(b);
            pos = pos + 2;
        }
        proof {
            assert(s@.skip(9) =~= hex_of(bytes@));
            lemma_parse_hex_of(bytes@);
            assert(parse_hex(s@.skip(9)) == Some(bytes@));
        }
        if bytes.len() < IDENTITY_LEN {
            return Err(DecodeError::Malformed);
        }
        let id_bytes = subvec(&bytes, 0, IDENTITY_LEN);
        let mut addrs: Vec<TransportAddress> = Vec::new();
        let mut p: usize = IDENTITY_LEN;
        loop
            invariant
                IDENTITY_LEN <= p <= bytes@.len(),
                has_kind(s@),
                version_ok(s@),
                parse_hex(s@.skip(9)) == Some(bytes@),
                bytes@.len() >= IDENTITY_LEN,
                addrs_wf(addr_models(addrs@)),
                addrs_bytes(addr_models(addrs@)) == bytes@.subrange(IDENTITY_LEN as int, p as int),
            ensures
                p == bytes@.len(),
                addrs_wf(addr_models(addrs@)),
                addrs_bytes(addr_models(addrs@)) == bytes@.subrange(IDENTITY_LEN as int, p as int),
            decreases bytes@.len() - p,
        {
            let ghost models = addr_models(addrs@);
            if p == bytes.len() {
                break;
            }
            let tag = bytes[p];
            let left = bytes.len() - p;
            proof {
                let rem = bytes@.skip(p as int);
                assert(rem.len() == left);
                assert(rem[0] == tag);
                assert(bytes@.skip(IDENTITY_LEN as int) =~= addrs_bytes(models) + rem);
            }
            if tag == TAG_V4 {
                if left < 7 {
                    proof {
                        let rem = bytes@.skip(p as int);
                        assert(parse_addrs(rem) is None);
                        lemma_parse_addrs_concat(models, rem);
                    }
                    return Err(DecodeError::Malformed);
                }
                let octets = subvec(&bytes, p + 1, p + 5);
                let port = join_be16(bytes[p + 5], bytes[p + 6]);
                let a = TransportAddress::Ipv4 { octets, port };
                proof {
                    lemma_be16_split(bytes@[p as int + 5], bytes@[p as int + 6]);
                    assert(addr_bytes(a@) =~= bytes@.subrange(p as int, p as int + 7));
                    assert(addr_models(addrs@.push(a)) =~= models.push(a@));
                    lemma_addrs_bytes_push(models, a@);
                    assert(addrs_bytes(models.push(a@)) =~= bytes@.subrange(
                        IDENTITY_LEN as int,
                        p as int + 7,
                    ));
                }
                addrs.push(a);
                p = p + 7;
            } else if tag == TAG_V6 {
                if left < 19 {
                    proof {
                        let rem = bytes@.skip(p as int);
                        assert(parse_addrs(rem) is None);
                        lemma_parse_addrs_concat(models, rem);
                    }
                    return Err(DecodeError::Malformed);
                }
                let octets = subvec(&bytes, p + 1, p + 17);
                let port = join_be16(bytes[p + 17], bytes[p + 18]);
                let a = TransportAddress::Ipv6 { octets, port };
                proof {
                    lemma_be16_split(bytes@[p as int + 17], bytes@[p as int + 18]);
                    assert(addr_bytes(a@) =~= bytes@.subrange(p as int, p as int + 19));
                    assert(addr_models(addrs@.push(a)) =~= models.push(a@));
                    lemma_addrs_bytes_push(models, a@);
                    assert(addrs_bytes(models.push(a@)) =~= bytes@.subrange(
                        IDENTITY_LEN as int,
                        p as int + 19,
                    ));
                }
                addrs.push(a);
                p = p + 19;
            } else if tag == TAG_RELAY {
                if left < 3 {
                    proof {
                        let rem = bytes@.skip(p as int);
                        assert(parse_addrs(rem) is None);
                        lemma_parse_addrs_concat(models, rem);
                    }
                    return Err(DecodeError::Malformed);
                }
                let ln = join_be16(bytes[p + 1], bytes[p + 2]) as usize;
                if left - 3 < ln {
                    proof {
                        let rem = bytes@.skip(p as int);
                        assert(rem[1] == bytes@[p as int + 1] && rem[2] == bytes@[p as int + 2]);
                        assert(rem.len() < 3 + be16(rem[1], rem[2]) as int);
                        assert(parse_addrs(rem) is None);
                        lemma_parse_addrs_concat(models, rem);
                    }
                    return Err(DecodeError::Malformed);
                }
                let url = subvec(&bytes, p + 3, p + 3 + ln);
                let a = TransportAddress::Relay { url };
                proof {
                    lemma_be16_split(bytes@[p as int + 1], bytes@[p as int + 2]);
                    assert(addr_bytes(a@) =~= bytes@.subrange(p as int, p as int + 3 + ln as int));
                    assert(addr_models(addrs@.push(a)) =~= models.push(a@));
                    lemma_addrs_bytes_push(models, a@);
                    assert(addrs_bytes(models.push(a@)) =~= bytes@.subrange(
                        IDENTITY_LEN as int,
                        p as int + 3 + ln as int,
                    ));
                }
                addrs.push(a);
                p = p + 3 + ln;
            } else {
                proof {
                    let rem = bytes@.skip(p as int);
                    assert(parse_addrs(rem) is None);
                    lemma_parse_addrs_concat(models, rem);
                }
                return Err(DecodeError::Malformed);
            }
        }
        proof {
            let models = addr_models(addrs@);
            assert(bytes@.skip(IDENTITY_LEN as int) =~= addrs_bytes(models));
            lemma_parse_addrs_concat(models, Seq::<u8>::empty());
            assert(addrs_bytes(models) + Seq::<u8>::empty() =~= addrs_bytes(models));
            assert(models + Seq::<AddrModel>::empty() =~= models);
            assert(parse_addrs(bytes@.skip(IDENTITY_LEN as int)) == Some(models));
        }
        let t = AddressTicket { identity: EndpointIdentity { key: id_bytes }, addresses: addrs };
        proof {
            assert(t@ =~= TicketView {
                id: bytes@.subrange(0, IDENTITY_LEN as int),
                addrs: addr_models(t.addresses@),
            });
        }
        Ok(t)
    }
}

/// The character at position `i` of the ticket kind prefix.
fn kind_char(i: usize) -> (c: char)
    requires
        i < 8,
    ensures
        c == kind_chars()[i as int],
{
    if i == 0 {
        'e'
    } else if i == 1 {
        'n'
    } else if i == 2 {
        'd'
    } else if i == 3 {
        'p'
    } else if i == 4 {
        'o'
    } else if i == 5 {
        'i'
    } else if i == 6 {
        'n'
    } else {
        't'
    }
}

} // verus!
