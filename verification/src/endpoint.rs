//! The local endpoint's state: its identity, the candidate addresses it has
//! learned so far, and whether it is still bound.
//!
//! Acquiring and releasing sockets, waiting for reachability and the actual
//! transport attempts are the runtime layer's work; this state decides what
//! can be published as a ticket, whether a connect attempt is feasible at
//! all, and when the accept sequence is over.

use vstd::prelude::*;

use crate::errors::ConnectError;
use crate::ticket::{
    addr_models, addr_wf, addrs_wf, AddressTicket, AddrModel, EndpointIdentity, TransportAddress,
    IDENTITY_LEN,
};

verus! {

/// The mathematical model of a local endpoint.
#[verifier::ext_equal]
pub struct EndpointModel {
    pub id: Seq<u8>,
    pub addrs: Seq<AddrModel>,
    pub open: bool,
}

/// A local network identity with the listening state the runtime layer keeps
/// alive for it.
pub struct Endpoint {
    identity: EndpointIdentity,
    addresses: Vec<TransportAddress>,
    open: bool,
}

impl View for Endpoint {
    type V = EndpointModel;

    closed spec fn view(&self) -> EndpointModel {
        EndpointModel {
            id: self.identity@,
            addrs: addr_models(self.addresses@),
            open: self.open,
        }
    }
}

impl Endpoint {
    pub open spec fn wf(&self) -> bool {
        self@.id.len() == IDENTITY_LEN && addrs_wf(self@.addrs)
    }

    /// A freshly bound endpoint: it owns its identity, knows no addresses
    /// yet, and is open.
    pub fn bind(identity: EndpointIdentity) -> (r: Endpoint)
        requires
            identity.wf(),
        ensures
            r@ == (EndpointModel {
                id: identity@,
                addrs: Seq::<AddrModel>::empty(),
                open: true,
            }),
            r.wf(),
    {
        let r = Endpoint { identity, addresses: Vec::new(), open: true };
        proof {
            assert(addr_models(r.addresses@) =~= Seq::<AddrModel>::empty());
            assert(r@ =~= EndpointModel {
                id: r.identity@,
                addrs: Seq::<AddrModel>::empty(),
                open: true,
            });
        }
        r
    }

    /// Whether the endpoint is still bound.
    pub fn is_open(&self) -> (r: bool)
        ensures
            r == self@.open,
    {
        self.open
    }

    /// Records one candidate address the runtime layer has learned.
    /// Connectivity knowledge only grows; staleness is tolerated.
    pub fn note_address(&mut self, a: TransportAddress)
        requires
            a.wf(),
        ensures
            final(self)@ == (EndpointModel {
                id: old(self)@.id,
                addrs: old(self)@.addrs.push(a@),
                open: old(self)@.open,
            }),
            old(self).wf() ==> final(self).wf(),
    {
        let ghost before = addr_models(self.addresses@);
        self.addresses.push(a);
        proof {
            assert(addr_models(self.addresses@) =~= before.push(a@));
            assert(self@ =~= EndpointModel {
                id: old(self)@.id,
                addrs: old(self)@.addrs.push(a@),
                open: old(self)@.open,
            });
            if old(self).wf() {
                assert forall|i: int| 0 <= i < self@.addrs.len() implies addr_wf(
                    #[trigger] self@.addrs[i],
                ) by {
                    if i < before.len() {
                        assert(self@.addrs[i] == before[i]);
                    }
                }
            }
        }
    }

    /// Snapshots the current identity and known addresses into a shareable
    /// ticket. Safe to call repeatedly; later snapshots may know more
    /// addresses.
    pub fn local_ticket(&self) -> (r: AddressTicket)
        requires
            self.wf(),
        ensures
            r@.id == self@.id,
            r@.addrs == self@.addrs,
            r.wf(),
    {
        let mut addresses: Vec<TransportAddress> = Vec::new();
        let mut i: usize = 0;
        while i < self.addresses.len()
            invariant
                i <= self.addresses@.len(),
                addresses@.len() == i,
                forall|j: int| 0 <= j < i ==> #[trigger] addresses@[j]@ == self.addresses@[j]@,
            decreases self.addresses@.len() - i,
        {
            addresses.push(self.addresses[i].clone());
            i = i + 1;
        }
        proof {
            assert(addr_models(addresses@) =~= addr_models(self.addresses@));
        }
        let r = AddressTicket::new(self.identity.clone(), addresses);
        proof {
            assert(r@ =~= crate::ticket::TicketView { id: self@.id, addrs: self@.addrs });
        }
        r
    }

    /// Decides whether a connect attempt at a remote ticket is feasible at
    /// all: with no candidate address the attempt is unreachable before any
    /// transport work; with at least one the runtime layer may try the
    /// candidates. The endpoint must still be bound.
    pub fn connect_precheck(&self, remote: &AddressTicket) -> (r: Result<(), ConnectError>)
        requires
            self@.open,
        ensures
            match r {
                Ok(()) => remote@.addrs.len() > 0,
                Err(e) => remote@.addrs.len() == 0 && e == ConnectError::Unreachable,
            },
    {
        if remote.address_count() == 0 {
            Err(ConnectError::Unreachable)
        } else {
            Ok(())
        }
    }

    /// Releases the endpoint: the accept sequence ends and no new connection
    /// can be initiated. Identity and learned addresses are kept for
    /// inspection.
    pub fn shutdown(&mut self)
        ensures
            final(self)@ == (EndpointModel {
                id: old(self)@.id,
                addrs: old(self)@.addrs,
                open: false,
            }),
    {
        self.open = false;
        proof {
            assert(self@ =~= EndpointModel {
                id: old(self)@.id,
                addrs: old(self)@.addrs,
                open: false,
            });
        }
    }
}

} // verus!
