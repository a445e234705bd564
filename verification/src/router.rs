//! Protocol routing: a table from negotiated protocol identifiers to handler
//! capabilities, and the dispatch decision for each accepted connection.
//!
//! Handlers are carried as opaque capability tokens; the runtime layer keeps
//! the table's token-to-task mapping and performs the dispatched work. The
//! table is written during setup and only read while serving.

use vstd::prelude::*;

use crate::errors::DuplicateProtocolError;

verus! {

/// One registration: a protocol identifier mapped to a handler capability.
pub struct ProtocolRegistration {
    pub protocol_id: Vec<u8>,
    pub handler: u64,
}

/// First-match lookup over the registration table model.
pub open spec fn spec_lookup(table: Seq<(Seq<u8>, u64)>, id: Seq<u8>) -> Option<u64>
    decreases table.len(),
{
    if table.len() == 0 {
        None
    } else if table[0].0 == id {
        Some(table[0].1)
    } else {
        spec_lookup(table.drop_first(), id)
    }
}

/// Whether an identifier has a handler in the table.
pub open spec fn registered(table: Seq<(Seq<u8>, u64)>, id: Seq<u8>) -> bool {
    spec_lookup(table, id) is Some
}

/// Maps each negotiated protocol identifier to its registered handler and
/// decides where each inbound connection goes. Identifiers are unique:
/// registering one twice is a configuration error, not a race.
pub struct ProtocolRouter {
    entries: Vec<ProtocolRegistration>,
}

impl View for ProtocolRouter {
    type V = Seq<(Seq<u8>, u64)>;

    closed spec fn view(&self) -> Seq<(Seq<u8>, u64)> {
        self.entries@.map_values(|e: ProtocolRegistration| (e.protocol_id@, e.handler))
    }
}

/// The decision for one inbound connection.
#[derive(Clone, Copy, Debug, PartialEq, Eq, Structural)]
pub enum DispatchDecision {
    /// A handler is registered for the negotiated identifier.
    Handle { handler: u64 },
    /// No handler is registered: close the connection with a rejection
    /// signal and keep serving.
    Reject,
}

/// One observation of the endpoint's accept sequence.
pub enum AcceptEvent {
    /// An inbound connection completed its handshake with this negotiated
    /// protocol identifier.
    Incoming { protocol_id: Vec<u8> },
    /// The endpoint was closed; the accept sequence has ended.
    Closed,
}

/// What the serve loop does in reaction to one accept event.
#[derive(Clone, Copy, Debug, PartialEq, Eq, Structural)]
pub enum ServeAction {
    /// Hand the connection to this handler capability.
    Dispatch { handler: u64 },
    /// Close the connection with a protocol-rejection signal; the router
    /// keeps serving.
    RejectConnection,
    /// Terminate the serve loop.
    Stop,
}

/// Compares two byte strings.
fn bytes_eq(a: &Vec<u8>, b: &Vec<u8>) -> (r: bool)
    ensures
        r <==> a@ == b@,
{
    if a.len() != b.len() {
        return false;
    }
    let mut i: usize = 0;
    while i < a.len()
        invariant
            i <= a@.len() == b@.len(),
            forall|j: int| 0 <= j < i ==> a@[j] == b@[j],
        decreases a@.len() - i,
    {
        if a[i] != b[i] {
            return false;
        }
        i = i + 1;
    }
    proof {
        assert(a@ =~= b@);
    }
    true
}

/// A lookup skips a non-matching head entry.
proof fn lemma_lookup_skip(table: Seq<(Seq<u8>, u64)>, id: Seq<u8>, i: int)
    requires
        0 <= i < table.len(),
        table[i].0 != id,
    ensures
        spec_lookup(table.skip(i), id) == spec_lookup(table.skip(i + 1), id),
{
    assert(table.skip(i)[0] == table[i]);
    assert(table.skip(i).drop_first() =~= table.skip(i + 1));
}

impl ProtocolRouter {
    /// A router with no registrations.
    pub fn new() -> (r: ProtocolRouter)
        ensures
            r@ == Seq::<(Seq<u8>, u64)>::empty(),
    {
        let r = ProtocolRouter { entries: Vec::new() };
        proof {
            assert(r@ =~= Seq::<(Seq<u8>, u64)>::empty());
        }
        r
    }

    /// The handler registered for an identifier, if any.
    pub fn find(&self, protocol_id: &Vec<u8>) -> (r: Option<u64>)
        ensures
            r == spec_lookup(self@, protocol_id@),
    {
        let mut i: usize = 0;
        proof {
            assert(self@.skip(0) =~= self@);
        }
        while i < self.entries.len()
            invariant
                i <= self.entries@.len(),
                self@.len() == self.entries@.len(),
                forall|j: int| 0 <= j < self@.len() ==> #[trigger] self@[j] == (
                    self.entries@[j].protocol_id@,
                    self.entries@[j].handler,
                ),
                spec_lookup(self@, protocol_id@) == spec_lookup(
                    self@.skip(i as int),
                    protocol_id@,
                ),
            decreases self.entries@.len() - i,
        {
            if bytes_eq(&self.entries[i].protocol_id, protocol_id) {
                proof {
                    assert(self@.skip(i as int)[0] == self@[i as int]);
                }
                return Some(self.entries[i].handler);
            }
            proof {
                lemma_lookup_skip(self@, protocol_id@, i as int);
            }
            i = i + 1;
        }
        proof {
            assert(self@.skip(self@.len() as int) =~= Seq::<(Seq<u8>, u64)>::empty());
        }
        None
    }

    /// Adds a mapping. The second registration of one identifier is refused
    /// and leaves the table, the first registration included, untouched.
    pub fn register(&mut self, protocol_id: Vec<u8>, handler: u64) -> (r: Result<
        (),
        DuplicateProtocolError,
    >)
        ensures
            match r {
                Ok(()) => !registered(old(self)@, protocol_id@) && final(self)@ == old(self)@.push(
                    (protocol_id@, handler),
                ),
                Err(e) => registered(old(self)@, protocol_id@) && final(self)@ == old(self)@ && e
                    == DuplicateProtocolError::AlreadyRegistered,
            },
    {
        match self.find(&protocol_id) {
            Some(_) => Err(DuplicateProtocolError::AlreadyRegistered),
            None => {
                self.entries.push(ProtocolRegistration { protocol_id, handler });
                proof {
                    assert(self@ =~= old(self)@.push(
                        (self.entries@.last().protocol_id@, self.entries@.last().handler),
                    ));
                }
                Ok(())
            },
        }
    }

    /// Decides where one inbound connection goes: to the registered handler
    /// of its negotiated identifier, or to rejection when none is registered.
    pub fn dispatch(&self, protocol_id: &Vec<u8>) -> (d: DispatchDecision)
        ensures
            match d {
                DispatchDecision::Handle { handler } => spec_lookup(self@, protocol_id@) == Some(
                    handler,
                ),
                DispatchDecision::Reject => spec_lookup(self@, protocol_id@) is None,
            },
    {
        match self.find(protocol_id) {
            Some(handler) => DispatchDecision::Handle { handler },
            None => DispatchDecision::Reject,
        }
    }

    /// Reacts to one event of the endpoint's accept sequence. A connection
    /// with an unregistered identifier is rejected and serving goes on; only
    /// the close of the endpoint stops the loop.
    pub fn serve_step(&self, event: &AcceptEvent) -> (a: ServeAction)
        ensures
            match event {
                AcceptEvent::Closed => a == ServeAction::Stop,
                AcceptEvent::Incoming { protocol_id } => match a {
                    ServeAction::Dispatch { handler } => spec_lookup(self@, protocol_id@) == Some(
                        handler,
                    ),
                    ServeAction::RejectConnection => spec_lookup(self@, protocol_id@) is None,
                    ServeAction::Stop => false,
                },
            },
    {
        match event {
            AcceptEvent::Closed => ServeAction::Stop,
            AcceptEvent::Incoming { protocol_id } => match self.dispatch(protocol_id) {
                DispatchDecision::Handle { handler } => ServeAction::Dispatch { handler },
                DispatchDecision::Reject => ServeAction::RejectConnection,
            },
        }
    }
}

/// Law: a fresh registration is found afterwards, so a second registration of
/// the same identifier is refused with the first mapping intact.
pub proof fn lemma_registration_found(table: Seq<(Seq<u8>, u64)>, id: Seq<u8>, handler: u64)
    requires
        !registered(table, id),
    ensures
        spec_lookup(table.push((id, handler)), id) == Some(handler),
    decreases table.len(),
{
    if table.len() == 0 {
        let p = table.push((id, handler));
        assert(p[0] == (id, handler));
    } else {
        assert(table.push((id, handler)).drop_first() =~= table.drop_first().push((id, handler)));
        lemma_registration_found(table.drop_first(), id, handler);
    }
}

/// Law: a registration of one identifier leaves every other identifier's
/// lookup unchanged.
pub proof fn lemma_registration_isolated(
    table: Seq<(Seq<u8>, u64)>,
    id: Seq<u8>,
    handler: u64,
    other: Seq<u8>,
)
    requires
        other != id,
    ensures
        spec_lookup(table.push((id, handler)), other) == spec_lookup(table, other),
    decreases table.len(),
{
    if table.len() == 0 {
        let p = table.push((id, handler));
        assert(p[0] == (id, handler));
        assert(p.drop_first() =~= Seq::<(Seq<u8>, u64)>::empty());
    } else {
        assert(table.push((id, handler)).drop_first() =~= table.drop_first().push((id, handler)));
        lemma_registration_isolated(table.drop_first(), id, handler, other);
    }
}

} // verus!
