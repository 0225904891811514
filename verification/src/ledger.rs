//! The sealed event ledger that benchmark methods read: whole events, each with
//! its identity, source ordinal and exact source bytes.

use vstd::prelude::*;

verus! {

/// Opaque identity of one persisted source event.
#[derive(Clone, Copy, Debug, PartialEq, Eq, PartialOrd, Ord, Hash, Structural)]
pub struct EventId(pub u64);

/// Identity of one retrieval whose events a ledger holds.
#[derive(Clone, Copy, Debug, PartialEq, Eq, PartialOrd, Ord, Hash, Structural)]
pub struct RetrievalId(pub u64);

/// Identity of one acquisition plan.
#[derive(Clone, Copy, Debug, PartialEq, Eq, Hash, Structural)]
pub struct PlanId(pub u64);

/// Identity of one acquisition receipt.
#[derive(Clone, Copy, Debug, PartialEq, Eq, Hash, Structural)]
pub struct AcquisitionReceiptId(pub u64);

/// Digest of the identity of the source that was acquired.
#[derive(Clone, Copy, Debug, Hash)]
pub struct SourceIdentityDigest(pub [u8; 32]);

/// Identity of one evidence block: a set of events kept or dropped together.
#[derive(Clone, Copy, Debug, PartialEq, Eq, PartialOrd, Ord, Hash, Structural)]
pub struct BlockId(pub u64);

/// Digest of the acquisition plan that produced a ledger.
#[derive(Clone, Copy, Debug)]
pub struct PlanDigest(pub [u8; 32]);

/// How completely the source acquisition finished.
#[derive(Clone, Copy, Debug, PartialEq, Eq, Structural)]
pub enum FetchCompletenessV1 {
    Complete,
    Partial,
    Unknown,
}

/// One whole source event: identity, source ordinal, the source component
/// whose lane emitted it, and its exact raw bytes.
#[derive(Clone, Debug)]
pub struct LedgerEvent {
    pub id: EventId,
    pub ordinal: u64,
    pub component: Vec<u8>,
    pub raw: Vec<u8>,
}

impl LedgerEvent {
    pub fn id(&self) -> (r: EventId)
        ensures r == self.id,
    {
        self.id
    }

    pub fn ordinal(&self) -> (r: u64)
        ensures r == self.ordinal,
    {
        self.ordinal
    }

    pub fn raw(&self) -> (r: &[u8])
        ensures r@ == self.raw@,
    {
        self.raw.as_slice()
    }
}

/// One evidence block: its identity and member events.
#[derive(Clone, Debug)]
pub struct EvidenceBlock {
    pub id: BlockId,
    pub member_ids: Vec<EventId>,
}

/// The reconciled evidence blocks of one retrieval.
#[derive(Clone, Debug)]
pub struct BlockIndex {
    pub retrieval_id: RetrievalId,
    pub blocks: Vec<EvidenceBlock>,
}

impl BlockIndex {
    /// The index holds a block with this identity.
    pub open spec fn has_block(&self, id: BlockId) -> bool {
        exists|i: int| 0 <= i < self.blocks.len() && self.blocks@[i].id == id
    }

    pub fn contains_block(&self, id: BlockId) -> (r: bool)
        ensures
            r == self.has_block(id),
    {
        let mut i: usize = 0;
        while i < self.blocks.len()
            invariant
                i <= self.blocks.len(),
                forall|j: int| 0 <= j < i ==> self.blocks@[j].id != id,
            decreases self.blocks.len() - i,
        {
            if self.blocks[i].id == id {
                return true;
            }
            i = i + 1;
        }
        false
    }
}

/// Immutable ledger of the events of one retrieval, in source order.
#[derive(Clone, Debug)]
pub struct EventLedger {
    pub retrieval_id: RetrievalId,
    pub plan_digest: PlanDigest,
    pub completeness: FetchCompletenessV1,
    pub events: Vec<LedgerEvent>,
}

impl EventLedger {
    /// The ledger holds an event with this identity.
    pub open spec fn has_event(&self, id: EventId) -> bool {
        exists|i: int| 0 <= i < self.events.len() && self.events@[i].id == id
    }

    /// Raw byte length of the event at a position.
    pub open spec fn raw_len(&self, ordinal: int) -> nat {
        self.events@[ordinal].raw@.len()
    }

    /// No two events share an identity.
    pub open spec fn distinct_ids(&self) -> bool {
        forall|i: int, j: int|
            0 <= i < self.events.len() && 0 <= j < self.events.len() && i != j
                ==> self.events@[i].id != self.events@[j].id
    }

    pub fn retrieval_id(&self) -> (r: RetrievalId)
        ensures r == self.retrieval_id,
    {
        self.retrieval_id
    }

    pub fn len(&self) -> (r: usize)
        ensures r == self.events.len(),
    {
        self.events.len()
    }

    pub fn events(&self) -> (r: &[LedgerEvent])
        ensures r@ == self.events@,
    {
        self.events.as_slice()
    }

    pub fn contains(&self, id: EventId) -> (r: bool)
        ensures r == self.has_event(id),
    {
        let mut i: usize = 0;
        while i < self.events.len()
            invariant
                i <= self.events.len(),
                forall|j: int| 0 <= j < i ==> self.events@[j].id != id,
            decreases self.events.len() - i,
        {
            if self.events[i].id == id {
                return true;
            }
            i = i + 1;
        }
        false
    }
}

} // verus!
