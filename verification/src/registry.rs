//! The operation registry: a process-scoped table mapping each running
//! operation's identifier to its kind and cancellation flag.
//!
//! Identifiers are strictly increasing and never reused within one registry.
//! `cancel` sets the flag of a present entry and is a no-op otherwise, so a
//! cancellation racing with natural completion never fails. `complete`
//! removes the entry; later `cancel` calls on the same identifier then do
//! nothing.
use std::collections::HashMap;
use vstd::prelude::*;

verus! {

broadcast use vstd::std_specs::hash::group_hash_axioms;

/// Which of the three scans an operation performs.
#[derive(Clone, Copy, Debug, PartialEq, Eq, Structural)]
pub enum OperationKind {
    NameSearch,
    ContentSearch,
    Enumeration,
}

/// What the registry records of one running operation.
#[derive(Clone, Copy, Debug, PartialEq, Eq, Structural)]
pub struct OperationState {
    pub kind: OperationKind,
    /// Set at most once, by `cancel`; never reset.
    pub cancelled: bool,
}

/// What a registry's table becomes when an identifier is cancelled: the
/// flag of a present entry is set, an absent identifier changes nothing.
pub open spec fn spec_cancel(m: Map<u64, OperationState>, id: u64) -> Map<u64, OperationState> {
    if m.contains_key(id) {
        m.insert(id, OperationState { kind: m[id].kind, cancelled: true })
    } else {
        m
    }
}

pub struct Registry {
    next_id: u64,
    ops: HashMap<u64, OperationState>,
}

impl Registry {
    /// The table of running operations, by identifier.
    pub closed spec fn ops(&self) -> Map<u64, OperationState> {
        self.ops@
    }

    /// The identifier the next `start` will hand out.
    pub closed spec fn next_id(&self) -> u64 {
        self.next_id
    }

    /// Every registered identifier was handed out earlier, so none can be
    /// handed out again.
    pub closed spec fn well_formed(&self) -> bool {
        forall|id: u64| self.ops@.contains_key(id) ==> id < self.next_id
    }

    pub fn new() -> (r: Registry)
        ensures
            r.well_formed(),
            r.ops() == Map::<u64, OperationState>::empty(),
            r.next_id() == 1u64,
    {
        Registry { next_id: 1, ops: HashMap::new() }
    }

    /// Allocate a fresh, strictly increasing identifier for an operation of
    /// the given kind, and register it with a clear cancellation flag.
    pub fn start(&mut self, kind: OperationKind) -> (id: u64)
        requires
            old(self).well_formed(),
            old(self).next_id() < u64::MAX,
        ensures
            final(self).well_formed(),
            id == old(self).next_id(),
            !old(self).ops().contains_key(id),
            final(self).next_id() == id + 1,
            final(self).ops() == old(self).ops().insert(
                id,
                OperationState { kind, cancelled: false },
            ),
    {
        let id = self.next_id;
        self.next_id = self.next_id + 1;
        self.ops.insert(id, OperationState { kind, cancelled: false });
        id
    }

    /// Request cancellation of an operation. Always succeeds: an unknown or
    /// already-completed identifier is a no-op, never an error.
    pub fn cancel(&mut self, id: u64)
        requires
            old(self).well_formed(),
        ensures
            final(self).well_formed(),
            final(self).ops() == spec_cancel(old(self).ops(), id),
            final(self).next_id() == old(self).next_id(),
    {
        let kind = match self.ops.get(&id) {
            Some(st) => Some(st.kind),
            None => None,
        };
        match kind {
            Some(k) => {
                self.ops.insert(id, OperationState { kind: k, cancelled: true });
            },
            None => {},
        }
    }

    /// Remove an operation that reached a terminal state. Unknown
    /// identifiers are a no-op.
    pub fn complete(&mut self, id: u64)
        requires
            old(self).well_formed(),
        ensures
            final(self).well_formed(),
            final(self).ops() == old(self).ops().remove(id),
            final(self).next_id() == old(self).next_id(),
    {
        self.ops.remove(&id);
    }

    /// The poll a worker makes at each candidate boundary and before each
    /// flush: has this operation been cancelled? An identifier the registry
    /// no longer recognizes reads as not cancelled; its worker is already
    /// gone.
    pub fn is_cancelled(&self, id: u64) -> (r: bool)
        ensures
            r == (self.ops().contains_key(id) && self.ops()[id].cancelled),
    {
        match self.ops.get(&id) {
            Some(st) => st.cancelled,
            None => false,
        }
    }

    /// Whether the registry still recognizes an identifier.
    pub fn contains(&self, id: u64) -> (r: bool)
        ensures
            r == self.ops().contains_key(id),
    {
        self.ops.contains_key(&id)
    }
}

/// Cancellation is idempotent: cancelling an identifier twice leaves the
/// table exactly as one cancellation does, and cancelling an identifier the
/// table does not hold (never started, or already completed) changes
/// nothing.
pub proof fn lemma_cancel_idempotent(m: Map<u64, OperationState>, id: u64)
    ensures
        spec_cancel(spec_cancel(m, id), id) == spec_cancel(m, id),
        !m.contains_key(id) ==> spec_cancel(m, id) == m,
{
    if m.contains_key(id) {
        assert(spec_cancel(spec_cancel(m, id), id) =~= spec_cancel(m, id));
    }
}

/// Once an operation has completed, a later cancellation request finds no
/// entry and leaves the registry unchanged.
pub proof fn lemma_cancel_after_complete(m: Map<u64, OperationState>, id: u64)
    ensures
        spec_cancel(m.remove(id), id) == m.remove(id),
{
    assert(!m.remove(id).contains_key(id));
}

} // verus!
