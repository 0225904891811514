//! Shared vocabulary of the deterministic benchmark methods: byte budgets,
//! method identities, selection reasons, selected events, accounting and the
//! checked construction of a method result.

use vstd::prelude::*;

use crate::ledger::{EventId, EventLedger, RetrievalId};

verus! {

/// Exact source-payload byte budget for one benchmark artifact.
#[derive(Clone, Copy, Debug, Default, PartialEq, Eq, PartialOrd, Ord, Structural)]
pub struct ByteBudget(pub usize);

impl ByteBudget {
    pub fn new(bytes: usize) -> (r: Self)
        ensures
            r.0 == bytes,
    {
        ByteBudget(bytes)
    }

    pub fn bytes(self) -> (r: usize)
        ensures
            r == self.0,
    {
        self.0
    }
}

/// Stable identity for a deterministic benchmark method implementation.
#[derive(Clone, Copy, Debug)]
pub struct MethodDescriptor {
    pub name: &'static str,
    pub version: &'static str,
}

impl MethodDescriptor {
    pub fn new(name: &'static str, version: &'static str) -> (r: Self)
        ensures
            r.name == name,
            r.version == version,
    {
        MethodDescriptor { name, version }
    }

    pub fn name(self) -> (r: &'static str)
        ensures
            r == self.name,
    {
        self.name
    }

    pub fn version(self) -> (r: &'static str)
        ensures
            r == self.version,
    {
        self.version
    }
}

/// Why a baseline made an event a selection candidate.
#[derive(Clone, Copy, Debug, PartialEq, Eq, PartialOrd, Ord, Structural)]
pub enum SelectionReason {
    Chronological,
    FullQueryMatch,
    IdentifierMatch,
    QueryTermMatch,
    HeadSentinel,
    TailSentinel,
    CoverageSentinel,
}

/// Every selection reason, in declaration (and therefore sort) order.
pub open spec fn all_selection_reasons() -> Seq<SelectionReason> {
    seq![
        SelectionReason::Chronological,
        SelectionReason::FullQueryMatch,
        SelectionReason::IdentifierMatch,
        SelectionReason::QueryTermMatch,
        SelectionReason::HeadSentinel,
        SelectionReason::TailSentinel,
        SelectionReason::CoverageSentinel,
    ]
}

/// The sorted, duplicate-free form of a list of reasons.
pub open spec fn canonical_reasons(reasons: Seq<SelectionReason>) -> Seq<SelectionReason> {
    all_selection_reasons().filter(|r: SelectionReason| reasons.contains(r))
}

impl SelectionReason {
    pub open spec fn spec_code(self) -> Seq<char> {
        match self {
            SelectionReason::Chronological => "chronological"@,
            SelectionReason::FullQueryMatch => "full_query_match"@,
            SelectionReason::IdentifierMatch => "identifier_match"@,
            SelectionReason::QueryTermMatch => "query_term_match"@,
            SelectionReason::HeadSentinel => "head_sentinel"@,
            SelectionReason::TailSentinel => "tail_sentinel"@,
            SelectionReason::CoverageSentinel => "coverage_sentinel"@,
        }
    }

    pub fn code(self) -> (r: &'static str)
        ensures
            r@ == self.spec_code(),
    {
        match self {
            SelectionReason::Chronological => "chronological",
            SelectionReason::FullQueryMatch => "full_query_match",
            SelectionReason::IdentifierMatch => "identifier_match",
            SelectionReason::QueryTermMatch => "query_term_match",
            SelectionReason::HeadSentinel => "head_sentinel",
            SelectionReason::TailSentinel => "tail_sentinel",
            SelectionReason::CoverageSentinel => "coverage_sentinel",
        }
    }
}

/// Sort and deduplicate a list of reasons.
pub fn canonicalize_reasons(reasons: &Vec<SelectionReason>) -> (r: Vec<SelectionReason>)
    ensures
        r@ == canonical_reasons(reasons@),
{
    let all: Vec<SelectionReason> = vec![
        SelectionReason::Chronological,
        SelectionReason::FullQueryMatch,
        SelectionReason::IdentifierMatch,
        SelectionReason::QueryTermMatch,
        SelectionReason::HeadSentinel,
        SelectionReason::TailSentinel,
        SelectionReason::CoverageSentinel,
    ];
    assert(all@ == all_selection_reasons());
    let ghost pred = |r: SelectionReason| reasons@.contains(r);
    let mut out: Vec<SelectionReason> = Vec::new();
    let mut k: usize = 0;
    while k < all.len()
        invariant
            k <= all.len(),
            all@ == all_selection_reasons(),
            pred == (|r: SelectionReason| reasons@.contains(r)),
            out@ == all@.take(k as int).filter(pred),
        decreases all.len() - k,
    {
        let candidate = all[k];
        let mut found = false;
        let mut j: usize = 0;
        while j < reasons.len()
            invariant
                j <= reasons.len(),
                found == (exists|m: int| 0 <= m < j && reasons@[m] == candidate),
            decreases reasons.len() - j,
        {
            if reasons[j] == candidate {
                found = true;
            }
            j = j + 1;
        }
        proof {
            assert(all@.take(k + 1).drop_last() == all@.take(k as int));
            reveal_with_fuel(Seq::filter, 1);
            if found {
                let m = choose|m: int| 0 <= m < reasons.len() && reasons@[m] == candidate;
                assert(reasons@.contains(reasons@[m]));
            }
        }
        if found {
            out.push(candidate);
        }
        k = k + 1;
    }
    proof {
        assert(all@.take(all@.len() as int) == all@);
    }
    out
}

/// One selected whole event, addressed by identity, with its source-byte cost.
#[derive(Clone, Debug)]
pub struct SelectedEvent {
    pub event_id: EventId,
    pub ordinal: u64,
    pub source_byte_cost: usize,
    pub reasons: Vec<SelectionReason>,
}

impl SelectedEvent {
    pub fn event_id(&self) -> (r: EventId)
        ensures
            r == self.event_id,
    {
        self.event_id
    }

    pub fn ordinal(&self) -> (r: u64)
        ensures
            r == self.ordinal,
    {
        self.ordinal
    }

    pub fn source_byte_cost(&self) -> (r: usize)
        ensures
            r == self.source_byte_cost,
    {
        self.source_byte_cost
    }

    pub fn reasons(&self) -> (r: &[SelectionReason])
        ensures
            r@ == self.reasons@,
    {
        self.reasons.as_slice()
    }
}

/// Cost of a candidate set after deduplicating underlying events.
#[derive(Clone, Copy, Debug, Default, PartialEq, Eq, Structural)]
pub struct CandidateCost {
    pub event_count: usize,
    pub unique_source_bytes: usize,
}

impl CandidateCost {
    pub fn new(event_count: usize, unique_source_bytes: usize) -> (r: Self)
        ensures
            r.event_count == event_count,
            r.unique_source_bytes == unique_source_bytes,
    {
        CandidateCost { event_count, unique_source_bytes }
    }

    pub fn event_count(self) -> (r: usize)
        ensures
            r == self.event_count,
    {
        self.event_count
    }

    pub fn unique_source_bytes(self) -> (r: usize)
        ensures
            r == self.unique_source_bytes,
    {
        self.unique_source_bytes
    }
}

/// Accounting summary for one method output.
#[derive(Clone, Copy, Debug, PartialEq, Eq, Structural)]
pub struct AccountingSummary {
    pub received_event_count: usize,
    pub candidate_cost: CandidateCost,
    pub selected_event_count: usize,
    pub retained_raw_event_count: usize,
    pub budget_excluded_candidate_count: usize,
    pub selected_source_bytes: usize,
    pub budget: ByteBudget,
}

impl AccountingSummary {
    pub fn received_event_count(self) -> (r: usize)
        ensures
            r == self.received_event_count,
    {
        self.received_event_count
    }

    pub fn candidate_event_count(self) -> (r: usize)
        ensures
            r == self.candidate_cost.event_count,
    {
        self.candidate_cost.event_count()
    }

    pub fn candidate_cost(self) -> (r: CandidateCost)
        ensures
            r == self.candidate_cost,
    {
        self.candidate_cost
    }

    pub fn selected_event_count(self) -> (r: usize)
        ensures
            r == self.selected_event_count,
    {
        self.selected_event_count
    }

    pub fn retained_raw_event_count(self) -> (r: usize)
        ensures
            r == self.retained_raw_event_count,
    {
        self.retained_raw_event_count
    }

    pub fn budget_excluded_candidate_count(self) -> (r: usize)
        ensures
            r == self.budget_excluded_candidate_count,
    {
        self.budget_excluded_candidate_count
    }

    pub fn selected_source_bytes(self) -> (r: usize)
        ensures
            r == self.selected_source_bytes,
    {
        self.selected_source_bytes
    }

    pub fn budget(self) -> (r: ByteBudget)
        ensures
            r == self.budget,
    {
        self.budget
    }
}

/// How one persisted ledger event is presented.
#[derive(Clone, Copy, Debug, PartialEq, Eq, Structural)]
pub enum PresentationDisposition {
    ShownVerbatim,
    PatternRepresented,
    RetainedRaw,
}

/// One presentation disposition for one ledger event.
#[derive(Clone, Copy, Debug, PartialEq, Eq, Structural)]
pub struct PresentationAssignment {
    pub event_id: EventId,
    pub disposition: PresentationDisposition,
}

/// Deterministic selection output, in ledger order.
#[derive(Clone, Debug)]
pub struct MethodResult {
    pub method: MethodDescriptor,
    pub retrieval_id: RetrievalId,
    pub candidate_event_ids: Vec<EventId>,
    pub selected: Vec<SelectedEvent>,
    pub accounting: AccountingSummary,
}

impl MethodResult {
    /// Identities of the selected events, in output order.
    pub open spec fn selected_ids(&self) -> Seq<EventId> {
        self.selected@.map_values(|s: SelectedEvent| s.event_id)
    }

    pub fn method(&self) -> (r: MethodDescriptor)
        ensures
            r == self.method,
    {
        self.method
    }

    pub fn retrieval_id(&self) -> (r: RetrievalId)
        ensures
            r == self.retrieval_id,
    {
        self.retrieval_id
    }

    pub fn selected(&self) -> (r: &[SelectedEvent])
        ensures
            r@ == self.selected@,
    {
        self.selected.as_slice()
    }

    pub fn candidate_event_ids(&self) -> (r: &[EventId])
        ensures
            r@ == self.candidate_event_ids@,
    {
        self.candidate_event_ids.as_slice()
    }

    pub fn accounting(&self) -> (r: AccountingSummary)
        ensures
            r == self.accounting,
    {
        self.accounting
    }

    pub fn contains(&self, event_id: EventId) -> (r: bool)
        ensures
            r == self.selected_ids().contains(event_id),
    {
        let mut i: usize = 0;
        while i < self.selected.len()
            invariant
                i <= self.selected.len(),
                forall|j: int| 0 <= j < i ==> self.selected@[j].event_id != event_id,
            decreases self.selected.len() - i,
        {
            if self.selected[i].event_id == event_id {
                proof {
                    assert(self.selected_ids()[i as int] == event_id);
                }
                return true;
            }
            i = i + 1;
        }
        proof {
            if self.selected_ids().contains(event_id) {
                let k = choose|k: int|
                    0 <= k < self.selected_ids().len() && self.selected_ids()[k] == event_id;
                assert(self.selected@[k].event_id == event_id);
            }
        }
        false
    }

    /// One presentation disposition for every persisted ledger event: selected
    /// events are shown verbatim, every other event is retained raw.
    pub fn presentation_assignments(&self, ledger: &EventLedger) -> (r: Result<
        Vec<PresentationAssignment>,
        MethodError,
    >)
        ensures
            r is Ok <==> (ledger.retrieval_id == self.retrieval_id
                && ledger.events.len() == self.accounting.received_event_count
                && forall|k: int|
                0 <= k < self.selected.len() ==> ledger.has_event(
                    #[trigger] self.selected@[k].event_id,
                )),
            r matches Err(e) ==> e == MethodError::RetrievalMismatch,
            r matches Ok(v) ==> v.len() == ledger.events.len() && forall|i: int|
                0 <= i < v.len() ==> (#[trigger] v@[i]).event_id == ledger.events@[i].id && (
                v@[i].disposition == (if self.selected_ids().contains(ledger.events@[i].id) {
                    PresentationDisposition::ShownVerbatim
                } else {
                    PresentationDisposition::RetainedRaw
                })),
    {
        if ledger.retrieval_id != self.retrieval_id || ledger.len()
            != self.accounting.received_event_count {
            return Err(MethodError::RetrievalMismatch);
        }
        let mut k: usize = 0;
        while k < self.selected.len()
            invariant
                k <= self.selected.len(),
                forall|m: int| 0 <= m < k ==> ledger.has_event(#[trigger] self.selected@[m].event_id),
            decreases self.selected.len() - k,
        {
            if !ledger.contains(self.selected[k].event_id) {
                return Err(MethodError::RetrievalMismatch);
            }
            k = k + 1;
        }
        let mut out: Vec<PresentationAssignment> = Vec::new();
        let mut i: usize = 0;
        while i < ledger.events.len()
            invariant
                i <= ledger.events.len(),
                out.len() == i,
                forall|m: int|
                    0 <= m < i ==> (#[trigger] out@[m]).event_id == ledger.events@[m].id && (
                    out@[m].disposition == (if self.selected_ids().contains(
                        ledger.events@[m].id,
                    ) {
                        PresentationDisposition::ShownVerbatim
                    } else {
                        PresentationDisposition::RetainedRaw
                    })),
            decreases ledger.events.len() - i,
        {
            let id = ledger.events[i].id;
            let disposition = if self.contains(id) {
                PresentationDisposition::ShownVerbatim
            } else {
                PresentationDisposition::RetainedRaw
            };
            out.push(PresentationAssignment { event_id: id, disposition });
            i = i + 1;
        }
        Ok(out)
    }
}

/// Stable failures that contain no source content.
#[derive(Clone, Copy, Debug, PartialEq, Eq, Structural)]
pub enum MethodError {
    SourceByteCostOverflow,
    RetrievalMismatch,
    ReservedQuotaExceedsBudget,
    LexicalScoringFailure,
}

impl MethodError {
    pub open spec fn spec_code(self) -> Seq<char> {
        match self {
            MethodError::SourceByteCostOverflow => "EVIDENTRAIL_BENCH_SOURCE_BYTE_COST_OVERFLOW"@,
            MethodError::RetrievalMismatch => "EVIDENTRAIL_BENCH_RETRIEVAL_MISMATCH"@,
            MethodError::ReservedQuotaExceedsBudget => "EVIDENTRAIL_BENCH_RESERVED_QUOTA_EXCEEDS_BUDGET"@,
            MethodError::LexicalScoringFailure => "EVIDENTRAIL_BENCH_LEXICAL_SCORING_FAILURE"@,
        }
    }

    pub fn code(self) -> (r: &'static str)
        ensures
            r@ == self.spec_code(),
    {
        match self {
            MethodError::SourceByteCostOverflow => "EVIDENTRAIL_BENCH_SOURCE_BYTE_COST_OVERFLOW",
            MethodError::RetrievalMismatch => "EVIDENTRAIL_BENCH_RETRIEVAL_MISMATCH",
            MethodError::ReservedQuotaExceedsBudget => "EVIDENTRAIL_BENCH_RESERVED_QUOTA_EXCEEDS_BUDGET",
            MethodError::LexicalScoringFailure => "EVIDENTRAIL_BENCH_LEXICAL_SCORING_FAILURE",
        }
    }
}

/// Sum of the raw byte lengths of the events at the given positions.
pub open spec fn ordinal_bytes(ledger: &EventLedger, ordinals: Seq<usize>) -> nat
    decreases ordinals.len(),
{
    if ordinals.len() == 0 {
        0
    } else {
        ordinal_bytes(ledger, ordinals.drop_last()) + ledger.raw_len(ordinals.last() as int)
    }
}

/// Positions strictly increase.
pub open spec fn strictly_increasing(s: Seq<usize>) -> bool {
    forall|i: int, j: int| 0 <= i < j < s.len() ==> s[i] < s[j]
}

/// Every position addresses an event of a ledger of `n` events.
pub open spec fn all_below(s: Seq<usize>, n: nat) -> bool {
    forall|i: int| 0 <= i < s.len() ==> s[i] < n
}

/// A strictly increasing run of positions below `n` has at most `n` entries.
pub proof fn lemma_increasing_len_bound(s: Seq<usize>, n: nat)
    requires
        strictly_increasing(s),
        all_below(s, n),
    ensures
        s.len() <= n,
    decreases s.len(),
{
    if s.len() > 0 {
        let t = s.drop_last();
        assert(all_below(t, s.last() as nat)) by {
            assert forall|i: int| 0 <= i < t.len() implies t[i] < s.last() by {
                assert(s[i] < s[s.len() - 1]);
            }
        }
        lemma_increasing_len_bound(t, s.last() as nat);
    }
}

/// The selected event built for one position of the ledger.
pub open spec fn selected_event_at(
    ledger: &EventLedger,
    ordinal: usize,
    reasons: Seq<SelectionReason>,
    e: SelectedEvent,
) -> bool {
    &&& e.event_id == ledger.events@[ordinal as int].id
    &&& e.ordinal == ledger.events@[ordinal as int].ordinal
    &&& e.source_byte_cost == ledger.raw_len(ordinal as int)
    &&& e.reasons@ == canonical_reasons(reasons)
}

/// Cost a set of candidate positions (given in increasing order).
pub fn candidate_cost_for_ordinals(ledger: &EventLedger, candidate_ordinals: &Vec<usize>) -> (r:
    Result<CandidateCost, MethodError>)
    requires
        all_below(candidate_ordinals@, ledger.events.len() as nat),
    ensures
        r is Ok <==> ordinal_bytes(ledger, candidate_ordinals@) <= usize::MAX,
        r matches Err(e) ==> e == MethodError::SourceByteCostOverflow,
        r matches Ok(c) ==> c.event_count == candidate_ordinals.len()
            && c.unique_source_bytes == ordinal_bytes(ledger, candidate_ordinals@),
{
    let mut total: usize = 0;
    let mut i: usize = 0;
    while i < candidate_ordinals.len()
        invariant
            i <= candidate_ordinals.len(),
            all_below(candidate_ordinals@, ledger.events.len() as nat),
            total == ordinal_bytes(ledger, candidate_ordinals@.take(i as int)),
        decreases candidate_ordinals.len() - i,
    {
        let o = candidate_ordinals[i];
        proof {
            assert(candidate_ordinals@.take(i + 1).drop_last() == candidate_ordinals@.take(i as int));
        }
        match total.checked_add(ledger.events[o].raw.len()) {
            Some(t) => {
                total = t;
            },
            None => {
                proof {
                    lemma_ordinal_bytes_prefix_monotone(ledger, candidate_ordinals@, i + 1);
                    assert(candidate_ordinals@.take(candidate_ordinals@.len() as int)
                        == candidate_ordinals@);
                }
                return Err(MethodError::SourceByteCostOverflow);
            },
        }
        i = i + 1;
    }
    proof {
        assert(candidate_ordinals@.take(candidate_ordinals@.len() as int) == candidate_ordinals@);
    }
    Ok(CandidateCost { event_count: candidate_ordinals.len(), unique_source_bytes: total })
}

/// Byte sums only grow along longer prefixes.
pub proof fn lemma_ordinal_bytes_prefix_monotone(ledger: &EventLedger, s: Seq<usize>, k: int)
    requires
        0 <= k <= s.len(),
    ensures
        ordinal_bytes(ledger, s.take(k)) <= ordinal_bytes(ledger, s),
    decreases s.len() - k,
{
    if k < s.len() {
        lemma_ordinal_bytes_prefix_monotone(ledger, s, k + 1);
        assert(s.take(k + 1).drop_last() == s.take(k));
    } else {
        assert(s.take(k) == s);
    }
}

/// Add one event's bytes to a running cost; `None` when the sum passes the
/// budget, an error when it does not fit in `usize`.
pub fn checked_cost_within_budget(current: usize, event_bytes: usize, budget: ByteBudget) -> (r:
    Result<Option<usize>, MethodError>)
    ensures
        r is Err <==> current + event_bytes > usize::MAX,
        r matches Err(e) ==> e == MethodError::SourceByteCostOverflow,
        r matches Ok(o) ==> (o == if current + event_bytes <= budget.0 {
            Some((current + event_bytes) as usize)
        } else {
            None::<usize>
        }),
{
    match current.checked_add(event_bytes) {
        None => Err(MethodError::SourceByteCostOverflow),
        Some(total) => {
            if total <= budget.0 {
                Ok(Some(total))
            } else {
                Ok(None)
            }
        },
    }
}

/// Assemble a method result from candidate positions and selected positions
/// (both in increasing order), charging each event's exact raw bytes.
pub fn build_result(
    method: MethodDescriptor,
    ledger: &EventLedger,
    budget: ByteBudget,
    candidate_ordinals: &Vec<usize>,
    budget_excluded_candidate_count: usize,
    selected_ordinals: Vec<(usize, Vec<SelectionReason>)>,
) -> (r: Result<MethodResult, MethodError>)
    requires
        all_below(candidate_ordinals@, ledger.events.len() as nat),
        strictly_increasing(selected_ordinals@.map_values(|p: (usize, Vec<SelectionReason>)| p.0)),
        all_below(
            selected_ordinals@.map_values(|p: (usize, Vec<SelectionReason>)| p.0),
            ledger.events.len() as nat,
        ),
    ensures
        ({
            let sel = selected_ordinals@.map_values(|p: (usize, Vec<SelectionReason>)| p.0);
            &&& r is Ok <==> (ordinal_bytes(ledger, candidate_ordinals@) <= usize::MAX
                && ordinal_bytes(ledger, sel) <= usize::MAX)
            &&& r matches Err(e) ==> e == MethodError::SourceByteCostOverflow
            &&& r matches Ok(res) ==> built_result(
                res,
                method,
                ledger,
                budget,
                candidate_ordinals@,
                budget_excluded_candidate_count as nat,
                sel,
                selected_ordinals@.map_values(|p: (usize, Vec<SelectionReason>)| p.1@),
            )
        }),
{
    let ghost sel = selected_ordinals@.map_values(|p: (usize, Vec<SelectionReason>)| p.0);
    let candidate_cost = match candidate_cost_for_ordinals(ledger, candidate_ordinals) {
        Ok(c) => c,
        Err(e) => {
            return Err(e);
        },
    };
    let mut candidate_event_ids: Vec<EventId> = Vec::new();
    let mut c: usize = 0;
    while c < candidate_ordinals.len()
        invariant
            c <= candidate_ordinals.len(),
            all_below(candidate_ordinals@, ledger.events.len() as nat),
            candidate_event_ids@ == candidate_ordinals@.take(c as int).map_values(
                |o: usize| ledger.events@[o as int].id,
            ),
        decreases candidate_ordinals.len() - c,
    {
        candidate_event_ids.push(ledger.events[candidate_ordinals[c]].id);
        proof {
            assert(candidate_ordinals@.take(c + 1).map_values(|o: usize| ledger.events@[o as int].id)
                =~= candidate_ordinals@.take(c as int).map_values(
                |o: usize| ledger.events@[o as int].id,
            ).push(ledger.events@[candidate_ordinals@[c as int] as int].id));
        }
        c = c + 1;
    }
    proof {
        assert(candidate_ordinals@.take(candidate_ordinals@.len() as int) == candidate_ordinals@);
    }
    let mut selected: Vec<SelectedEvent> = Vec::new();
    let mut selected_source_bytes: usize = 0;
    let mut i: usize = 0;
    while i < selected_ordinals.len()
        invariant
            i <= selected_ordinals.len(),
            sel == selected_ordinals@.map_values(|p: (usize, Vec<SelectionReason>)| p.0),
            all_below(sel, ledger.events.len() as nat),
            selected.len() == i,
            selected_source_bytes == ordinal_bytes(ledger, sel.take(i as int)),
            forall|k: int|
                0 <= k < i ==> selected_event_at(
                    ledger,
                    selected_ordinals@[k].0,
                    selected_ordinals@[k].1@,
                    #[trigger] selected@[k],
                ),
        decreases selected_ordinals.len() - i,
    {
        let ordinal = selected_ordinals[i].0;
        assert(sel[i as int] == ordinal);
        let len = ledger.events[ordinal].raw.len();
        proof {
            assert(sel.take(i + 1).drop_last() == sel.take(i as int));
        }
        match selected_source_bytes.checked_add(len) {
            Some(t) => {
                selected_source_bytes = t;
            },
            None => {
                proof {
                    lemma_ordinal_bytes_prefix_monotone(ledger, sel, i + 1);
                    assert(sel.take(sel.len() as int) == sel);
                }
                return Err(MethodError::SourceByteCostOverflow);
            },
        }
        let reasons = canonicalize_reasons(&selected_ordinals[i].1);
        selected.push(
            SelectedEvent {
                event_id: ledger.events[ordinal].id,
                ordinal: ledger.events[ordinal].ordinal,
                source_byte_cost: len,
                reasons,
            },
        );
        i = i + 1;
    }
    proof {
        assert(sel.take(sel.len() as int) == sel);
        lemma_increasing_len_bound(sel, ledger.events.len() as nat);
    }
    let selected_event_count = selected.len();
    let accounting = AccountingSummary {
        received_event_count: ledger.len(),
        candidate_cost,
        selected_event_count,
        retained_raw_event_count: ledger.len() - selected_event_count,
        budget_excluded_candidate_count,
        selected_source_bytes,
        budget,
    };
    Ok(
        MethodResult {
            method,
            retrieval_id: ledger.retrieval_id,
            candidate_event_ids,
            selected,
            accounting,
        },
    )
}


/// `res` is the method result that `build_result` assembles from these
/// candidate positions, this budget-excluded count, and these selected
/// positions with their reasons.
pub open spec fn built_result(
    res: MethodResult,
    method: MethodDescriptor,
    ledger: &EventLedger,
    budget: ByteBudget,
    candidates: Seq<usize>,
    budget_excluded: nat,
    selected: Seq<usize>,
    reasons: Seq<Seq<SelectionReason>>,
) -> bool {
    &&& res.method == method
    &&& res.retrieval_id == ledger.retrieval_id
    &&& res.candidate_event_ids@ == candidates.map_values(|o: usize| ledger.events@[o as int].id)
    &&& res.selected.len() == selected.len()
    &&& forall|i: int|
        0 <= i < res.selected.len() ==> selected_event_at(
            ledger,
            selected[i],
            reasons[i],
            #[trigger] res.selected@[i],
        )
    &&& res.accounting == AccountingSummary {
        received_event_count: ledger.events.len(),
        candidate_cost: CandidateCost {
            event_count: candidates.len() as usize,
            unique_source_bytes: ordinal_bytes(ledger, candidates) as usize,
        },
        selected_event_count: selected.len() as usize,
        retained_raw_event_count: (ledger.events.len() - selected.len()) as usize,
        budget_excluded_candidate_count: budget_excluded as usize,
        selected_source_bytes: ordinal_bytes(ledger, selected) as usize,
        budget,
    }
}

/// The positions whose flag is set, in increasing order.
pub open spec fn flagged(flags: Seq<bool>) -> Seq<usize>
    decreases flags.len(),
{
    if flags.len() == 0 {
        Seq::empty()
    } else {
        let prev = flagged(flags.drop_last());
        if flags.last() {
            prev.push((flags.len() - 1) as usize)
        } else {
            prev
        }
    }
}

/// Flagged positions increase, stay below the flag count, and are exactly the
/// set flags.
pub proof fn lemma_flagged(flags: Seq<bool>)
    requires
        flags.len() <= usize::MAX,
    ensures
        strictly_increasing(flagged(flags)),
        all_below(flagged(flags), flags.len()),
        forall|o: int| 0 <= o < flags.len() ==> (flags[o] <==> flagged(flags).contains(o as usize)),
    decreases flags.len(),
{
    if flags.len() > 0 {
        let prev = flags.drop_last();
        lemma_flagged(prev);
        let fp = flagged(prev);
        assert forall|o: int| 0 <= o < flags.len() implies (flags[o] <==> flagged(flags).contains(
            o as usize,
        )) by {
            if o < prev.len() {
                assert(prev[o] == flags[o]);
                if flags.last() {
                    if fp.contains(o as usize) {
                        let k = choose|k: int| 0 <= k < fp.len() && fp[k] == o as usize;
                        assert(flagged(flags)[k] == o as usize);
                    }
                    if flagged(flags).contains(o as usize) {
                        let k = choose|k: int|
                            0 <= k < flagged(flags).len() && flagged(flags)[k] == o as usize;
                        if k < fp.len() {
                            assert(fp[k] == o as usize);
                        }
                    }
                }
            } else {
                if flags.last() {
                    assert(flagged(flags)[fp.len() as int] == o as usize);
                } else {
                    if fp.contains(o as usize) {
                        let k = choose|k: int| 0 <= k < fp.len() && fp[k] == o as usize;
                        assert(fp[k] < prev.len());
                    }
                }
            }
        }
    }
}

/// Setting one clear flag adds exactly that event's bytes.
pub proof fn lemma_flag_bytes_set(ledger: &EventLedger, flags: Seq<bool>, o: int)
    requires
        0 <= o < flags.len() <= usize::MAX,
        !flags[o],
    ensures
        ordinal_bytes(ledger, flagged(flags.update(o, true))) == ordinal_bytes(ledger, flagged(flags))
            + ledger.raw_len(o),
    decreases flags.len(),
{
    let f2 = flags.update(o, true);
    if o == flags.len() - 1 {
        assert(f2.drop_last() == flags.drop_last());
        assert(flagged(f2) == flagged(flags.drop_last()).push(o as usize));
        assert(flagged(f2).drop_last() == flagged(flags.drop_last()));
    } else {
        assert(f2.drop_last() == flags.drop_last().update(o, true));
        lemma_flag_bytes_set(ledger, flags.drop_last(), o);
        if flags.last() {
            assert(flagged(f2).drop_last() == flagged(f2.drop_last()));
            assert(flagged(flags).drop_last() == flagged(flags.drop_last()));
        }
    }
}

/// Collect the flagged positions in increasing order.
pub fn flagged_positions(flags: &Vec<bool>) -> (r: Vec<usize>)
    ensures
        r@ == flagged(flags@),
{
    let mut out: Vec<usize> = Vec::new();
    let mut o: usize = 0;
    while o < flags.len()
        invariant
            o <= flags.len(),
            out@ == flagged(flags@.take(o as int)),
        decreases flags.len() - o,
    {
        proof {
            assert(flags@.take(o + 1).drop_last() == flags@.take(o as int));
            assert(flags@.take(o + 1).last() == flags@[o as int]);
        }
        if flags[o] {
            out.push(o);
        }
        o = o + 1;
    }
    proof {
        assert(flags@.take(flags@.len() as int) == flags@);
    }
    out
}

} // verus!
