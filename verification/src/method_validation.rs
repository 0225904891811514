//! Exact validation of a deterministic method result against the sealed
//! ledger it claims to have read: candidate set, selected set, per-event
//! metadata, source order, byte sums and every accounting count.

use vstd::prelude::*;
use crate::evaluator::{CaseAccountingDimensionV1, CaseEvaluationError};
use crate::ledger::{EventId, EventLedger, LedgerEvent};
use crate::method::{MethodResult, SelectedEvent};

verus! {

pub open spec fn mismatch(dimension: CaseAccountingDimensionV1) -> CaseEvaluationError {
    CaseEvaluationError::MethodAccountingMismatch { dimension }
}

/// Some identity occurs twice.
pub open spec fn has_duplicate(ids: Seq<EventId>) -> bool {
    exists|i: int, j: int| 0 <= i < j < ids.len() && ids[i] == ids[j]
}

/// Source bytes of the first `k` ledger events whose identity is a candidate.
pub open spec fn candidate_bytes(events: Seq<LedgerEvent>, candidates: Seq<EventId>, k: int) -> int
    decreases k,
{
    if k <= 0 {
        0
    } else {
        candidate_bytes(events, candidates, k - 1) + if candidates.contains(events[k - 1].id) {
            events[k - 1].raw@.len() as int
        } else {
            0
        }
    }
}

proof fn lemma_candidate_bytes_monotone(events: Seq<LedgerEvent>, candidates: Seq<EventId>, a: int, b: int)
    requires
        0 <= a <= b <= events.len(),
    ensures
        candidate_bytes(events, candidates, a) <= candidate_bytes(events, candidates, b),
    decreases b - a,
{
    if a < b {
        lemma_candidate_bytes_monotone(events, candidates, a, b - 1);
    }
}

/// Position of the first ledger event with the identity.
pub open spec fn event_index(events: Seq<LedgerEvent>, id: EventId, i: int) -> Option<int>
    decreases events.len() - i,
{
    if i < 0 || i >= events.len() {
        None
    } else if events[i].id == id {
        Some(i)
    } else {
        event_index(events, id, i + 1)
    }
}

proof fn lemma_event_index(events: Seq<LedgerEvent>, id: EventId, i: int)
    requires
        0 <= i <= events.len(),
    ensures
        event_index(events, id, i) matches Some(p) ==> i <= p < events.len() && events[p].id == id,
        event_index(events, id, i) is None ==> forall|q: int| i <= q < events.len() ==> events[q].id != id,
    decreases events.len() - i,
{
    if i < events.len() && events[i].id != id {
        lemma_event_index(events, id, i + 1);
    }
}

/// The selected events, first `k` of them, checked in order: each is new,
/// in the ledger, carries the ledger's ordinal and byte length, and follows
/// the previous one in source order; their identities and byte sum.
pub open spec fn selected_scan(
    ledger: EventLedger,
    selected: Seq<SelectedEvent>,
    k: int,
) -> Result<(Seq<EventId>, int), CaseEvaluationError>
    decreases k,
{
    if k <= 0 {
        Ok((Seq::empty(), 0))
    } else {
        match selected_scan(ledger, selected, k - 1) {
            Err(e) => Err(e),
            Ok((ids, bytes)) => {
                let s = selected[k - 1];
                if ids.contains(s.event_id) {
                    Err(mismatch(CaseAccountingDimensionV1::SelectedSet))
                } else {
                    match event_index(ledger.events@, s.event_id, 0) {
                        None => Err(mismatch(CaseAccountingDimensionV1::SelectedSet)),
                        Some(p) => {
                            let event = ledger.events@[p];
                            if s.ordinal != event.ordinal || s.source_byte_cost != event.raw@.len() {
                                Err(mismatch(CaseAccountingDimensionV1::SelectedEventMetadata))
                            } else if k >= 2 && s.ordinal <= selected[k - 2].ordinal {
                                Err(mismatch(CaseAccountingDimensionV1::SelectedEventOrder))
                            } else if bytes + event.raw@.len() > usize::MAX {
                                Err(CaseEvaluationError::AccountingValueOverflow)
                            } else {
                                Ok((ids.push(s.event_id), bytes + event.raw@.len()))
                            }
                        },
                    }
                }
            },
        }
    }
}

proof fn lemma_selected_scan_err_extends(ledger: EventLedger, selected: Seq<SelectedEvent>, k: int, n: int)
    requires
        0 <= k <= n,
        selected_scan(ledger, selected, k) is Err,
    ensures
        selected_scan(ledger, selected, n) == selected_scan(ledger, selected, k),
    decreases n - k,
{
    if k < n {
        lemma_selected_scan_err_extends(ledger, selected, k, n - 1);
    }
}

proof fn lemma_selected_scan_len(ledger: EventLedger, selected: Seq<SelectedEvent>, k: int)
    requires
        0 <= k,
    ensures
        selected_scan(ledger, selected, k) matches Ok((ids, bytes)) ==> ids.len() == k && bytes >= 0,
    decreases k,
{
    if k > 0 {
        lemma_selected_scan_len(ledger, selected, k - 1);
    }
}

/// What a valid method result establishes.
pub struct ValidatedMethodResult {
    pub candidate_event_count: usize,
    pub candidate_source_bytes: usize,
    pub selected_event_ids: Vec<EventId>,
    pub selected_source_bytes: usize,
}

/// The validation of a method result against a ledger, check by check in
/// order; on success the candidate count and bytes, the selected identities
/// in output order and their bytes.
pub open spec fn spec_validate_method_result(
    ledger: EventLedger,
    result: MethodResult,
) -> Result<(int, int, Seq<EventId>, int), CaseEvaluationError> {
    let accounting = result.accounting;
    let candidates = result.candidate_event_ids@;
    let cbytes = candidate_bytes(ledger.events@, candidates, ledger.events.len() as int);
    if result.retrieval_id != ledger.retrieval_id {
        Err(CaseEvaluationError::RetrievalMismatch)
    } else if accounting.received_event_count != ledger.events.len() {
        Err(mismatch(CaseAccountingDimensionV1::ReceivedEventCount))
    } else if has_duplicate(candidates) || exists|i: int|
        0 <= i < candidates.len() && !ledger.has_event(#[trigger] candidates[i]) {
        Err(mismatch(CaseAccountingDimensionV1::CandidateSet))
    } else if cbytes > usize::MAX {
        Err(CaseEvaluationError::AccountingValueOverflow)
    } else if accounting.candidate_cost.event_count != candidates.len() {
        Err(mismatch(CaseAccountingDimensionV1::CandidateEventCount))
    } else if accounting.candidate_cost.unique_source_bytes != cbytes {
        Err(mismatch(CaseAccountingDimensionV1::CandidateSourceBytes))
    } else {
        match selected_scan(ledger, result.selected@, result.selected.len() as int) {
            Err(e) => Err(e),
            Ok((ids, sbytes)) => {
                if exists|i: int| 0 <= i < ids.len() && !candidates.contains(#[trigger] ids[i]) {
                    Err(mismatch(CaseAccountingDimensionV1::SelectedCandidateSubset))
                } else if accounting.selected_event_count != ids.len() {
                    Err(mismatch(CaseAccountingDimensionV1::SelectedEventCount))
                } else if accounting.selected_source_bytes != sbytes {
                    Err(mismatch(CaseAccountingDimensionV1::SelectedSourceBytes))
                } else if ledger.events.len() < ids.len() || accounting.retained_raw_event_count
                    != ledger.events.len() - ids.len() {
                    Err(mismatch(CaseAccountingDimensionV1::RetainedRawEventCount))
                } else if candidates.len() < ids.len() || accounting.budget_excluded_candidate_count
                    != candidates.len() - ids.len() {
                    Err(mismatch(CaseAccountingDimensionV1::BudgetExcludedCandidateCount))
                } else if sbytes > accounting.budget.0 {
                    Err(mismatch(CaseAccountingDimensionV1::SourceByteBudget))
                } else {
                    Ok((candidates.len() as int, cbytes, ids, sbytes))
                }
            },
        }
    }
}

/// Source bytes of the first `k` ledger events whose identity is in a set.
pub open spec fn set_bytes(events: Seq<LedgerEvent>, ids: Set<EventId>, k: int) -> int
    decreases k,
{
    if k <= 0 {
        0
    } else {
        set_bytes(events, ids, k - 1) + if ids.contains(events[k - 1].id) {
            events[k - 1].raw@.len() as int
        } else {
            0
        }
    }
}

proof fn lemma_candidate_bytes_as_set(events: Seq<LedgerEvent>, candidates: Seq<EventId>, k: int)
    ensures
        candidate_bytes(events, candidates, k) == set_bytes(events, candidates.to_set(), k),
    decreases k,
{
    broadcast use vstd::set::group_set_axioms;
    if k > 0 {
        lemma_candidate_bytes_as_set(events, candidates, k - 1);
    }
}

proof fn lemma_set_bytes_nonneg(events: Seq<LedgerEvent>, m: Set<EventId>, k: int)
    ensures
        set_bytes(events, m, k) >= 0,
    decreases k,
{
    if k > 0 {
        lemma_set_bytes_nonneg(events, m, k - 1);
    }
}

proof fn lemma_set_bytes_subset(events: Seq<LedgerEvent>, a: Set<EventId>, b: Set<EventId>, k: int)
    requires
        a.subset_of(b),
    ensures
        set_bytes(events, a, k) <= set_bytes(events, b, k),
    decreases k,
{
    if k > 0 {
        lemma_set_bytes_subset(events, a, b, k - 1);
    }
}

/// Dropping one identity from the set drops at least the bytes of one event
/// that carries it.
proof fn lemma_set_bytes_remove(events: Seq<LedgerEvent>, m: Set<EventId>, y: EventId, p: int, k: int)
    requires
        m.contains(y),
        0 <= p < k <= events.len(),
        events[p].id == y,
    ensures
        set_bytes(events, m, k) >= set_bytes(events, m.remove(y), k) + events[p].raw@.len(),
    decreases k,
{
    broadcast use vstd::set::group_set_axioms;
    if p == k - 1 {
        lemma_set_bytes_subset(events, m.remove(y), m, k - 1);
    } else {
        lemma_set_bytes_remove(events, m, y, p, k - 1);
    }
}

/// The bytes of selected events, each a member of a set, are at most the set's bytes.
proof fn lemma_selected_bytes_within(ledger: EventLedger, selected: Seq<SelectedEvent>, k: int, m: Set<EventId>)
    requires
        0 <= k,
        selected_scan(ledger, selected, k) is Ok,
        forall|i: int|
            0 <= i < selected_scan(ledger, selected, k)->Ok_0.0.len() ==> m.contains(
                #[trigger] selected_scan(ledger, selected, k)->Ok_0.0[i],
            ),
    ensures
        selected_scan(ledger, selected, k)->Ok_0.1 <= set_bytes(ledger.events@, m, ledger.events.len() as int),
    decreases k,
{
    broadcast use vstd::set::group_set_axioms;
    if k > 0 {
        let prev = selected_scan(ledger, selected, k - 1)->Ok_0;
        let y = selected[k - 1].event_id;
        let cur = selected_scan(ledger, selected, k)->Ok_0;
        assert(cur.0 == prev.0.push(y));
        assert(!prev.0.contains(y));
        assert forall|i: int| 0 <= i < prev.0.len() implies m.remove(y).contains(#[trigger] prev.0[i]) by {
            assert(cur.0[i] == prev.0[i]);
            assert(prev.0[i] != y);
        }
        lemma_selected_bytes_within(ledger, selected, k - 1, m.remove(y));
        let p = event_index(ledger.events@, y, 0)->Some_0;
        lemma_event_index(ledger.events@, y, 0);
        assert(cur.0[prev.0.len() as int] == y);
        assert(cur.1 == prev.1 + ledger.events@[p].raw@.len());
        lemma_set_bytes_remove(ledger.events@, m, y, p, ledger.events.len() as int);
    } else {
        lemma_set_bytes_nonneg(ledger.events@, m, ledger.events.len() as int);
    }
}

/// A valid method result has no more candidates than received events, and no
/// more selected bytes than candidate bytes.
pub proof fn lemma_validated_bounds(ledger: EventLedger, result: MethodResult)
    ensures
        spec_validate_method_result(ledger, result) matches Ok((count, cbytes, ids, sbytes)) ==> {
            &&& count <= ledger.events.len()
            &&& sbytes <= cbytes
        },
{
    broadcast use vstd::set::group_set_axioms;
    if let Ok((count, cbytes, ids, sbytes)) = spec_validate_method_result(ledger, result) {
        let candidates = result.candidate_event_ids@;
        let ledger_ids = ledger.events@.map_values(|e: LedgerEvent| e.id);
        assert(candidates.no_duplicates());
        candidates.unique_seq_to_set();
        assert(candidates.to_set().subset_of(ledger_ids.to_set())) by {
            assert forall|x: EventId| candidates.to_set().contains(x) implies ledger_ids.to_set().contains(x) by {
                let i = choose|i: int| 0 <= i < candidates.len() && candidates[i] == x;
                assert(ledger.has_event(candidates[i]));
                let q = choose|q: int| 0 <= q < ledger.events.len() && ledger.events@[q].id == x;
                assert(ledger_ids[q] == x);
            }
        }
        vstd::seq_lib::seq_to_set_is_finite(ledger_ids);
        vstd::set_lib::lemma_len_subset(candidates.to_set(), ledger_ids.to_set());
        ledger_ids.lemma_cardinality_of_set();
        let n = result.selected.len() as int;
        assert(selected_scan(ledger, result.selected@, n) is Ok);
        lemma_candidate_bytes_as_set(ledger.events@, candidates, ledger.events.len() as int);
        lemma_selected_bytes_within(ledger, result.selected@, n, candidates.to_set());
    }
}

/// The retrieval, received count and candidate set checks pass.
pub open spec fn early_checks_pass(ledger: EventLedger, result: MethodResult) -> bool {
    &&& result.retrieval_id == ledger.retrieval_id
    &&& result.accounting.received_event_count == ledger.events.len()
    &&& !(has_duplicate(result.candidate_event_ids@) || exists|i: int|
        0 <= i < result.candidate_event_ids@.len() && !ledger.has_event(#[trigger] result.candidate_event_ids@[i]))
}

/// The candidate byte and count checks pass with these candidate bytes.
pub open spec fn candidate_checks_pass(ledger: EventLedger, result: MethodResult, cbytes: int) -> bool {
    &&& cbytes == candidate_bytes(ledger.events@, result.candidate_event_ids@, ledger.events.len() as int)
    &&& cbytes <= usize::MAX
    &&& result.accounting.candidate_cost.event_count == result.candidate_event_ids.len()
    &&& result.accounting.candidate_cost.unique_source_bytes == cbytes
}

fn ids_contain(ids: &Vec<EventId>, id: EventId) -> (r: bool)
    ensures
        r == ids@.contains(id),
{
    let mut i: usize = 0;
    while i < ids.len()
        invariant
            i <= ids.len(),
            forall|q: int| 0 <= q < i ==> ids@[q] != id,
        decreases ids.len() - i,
    {
        if ids[i] == id {
            proof {
                assert(ids@[i as int] == id);
            }
            return true;
        }
        i = i + 1;
    }
    false
}

fn find_event(ledger: &EventLedger, id: EventId) -> (r: Option<usize>)
    ensures
        r matches Some(p) ==> event_index(ledger.events@, id, 0) == Some(p as int) && p < ledger.events.len(),
        r is None ==> event_index(ledger.events@, id, 0) is None,
{
    let mut i: usize = 0;
    while i < ledger.events.len()
        invariant
            i <= ledger.events.len(),
            event_index(ledger.events@, id, 0) == event_index(ledger.events@, id, i as int),
        decreases ledger.events.len() - i,
    {
        if ledger.events[i].id == id {
            return Some(i);
        }
        i = i + 1;
    }
    None
}

fn candidates_distinct_and_known(ledger: &EventLedger, candidates: &Vec<EventId>) -> (r: bool)
    ensures
        r == !(has_duplicate(candidates@) || exists|i: int|
            0 <= i < candidates@.len() && !ledger.has_event(#[trigger] candidates@[i])),
{
    let mut j: usize = 0;
    while j < candidates.len()
        invariant
            j <= candidates.len(),
            forall|a: int, b: int| 0 <= a < b < j ==> candidates@[a] != candidates@[b],
            forall|a: int| 0 <= a < j ==> ledger.has_event(#[trigger] candidates@[a]),
        decreases candidates.len() - j,
    {
        let mut a: usize = 0;
        while a < j
            invariant
                a <= j,
                j < candidates.len(),
                forall|q: int| 0 <= q < a ==> candidates@[q] != candidates@[j as int],
            decreases j - a,
        {
            if candidates[a] == candidates[j] {
                proof {
                    assert(candidates@[a as int] == candidates@[j as int]);
                }
                return false;
            }
            a = a + 1;
        }
        if !ledger.contains(candidates[j]) {
            return false;
        }
        j = j + 1;
    }
    true
}

pub fn validate_method_result(ledger: &EventLedger, result: &MethodResult) -> (r: Result<
    ValidatedMethodResult,
    CaseEvaluationError,
>)
    ensures
        match spec_validate_method_result(*ledger, *result) {
            Err(e) => r is Err && r->Err_0 == e,
            Ok((count, cbytes, ids, sbytes)) => r is Ok && r->Ok_0.candidate_event_count == count
                && r->Ok_0.candidate_source_bytes == cbytes && r->Ok_0.selected_event_ids@ == ids
                && r->Ok_0.selected_source_bytes == sbytes,
        },
{
    if result.retrieval_id != ledger.retrieval_id {
        return Err(CaseEvaluationError::RetrievalMismatch);
    }
    let accounting = result.accounting;
    if accounting.received_event_count != ledger.events.len() {
        return Err(CaseEvaluationError::MethodAccountingMismatch {
            dimension: CaseAccountingDimensionV1::ReceivedEventCount,
        });
    }
    if !candidates_distinct_and_known(ledger, &result.candidate_event_ids) {
        return Err(CaseEvaluationError::MethodAccountingMismatch {
            dimension: CaseAccountingDimensionV1::CandidateSet,
        });
    }
    let mut candidate_source_bytes: usize = 0;
    let mut k: usize = 0;
    while k < ledger.events.len()
        invariant
            k <= ledger.events.len(),
            early_checks_pass(*ledger, *result),
            candidate_source_bytes == candidate_bytes(ledger.events@, result.candidate_event_ids@, k as int),
        decreases ledger.events.len() - k,
    {
        if ids_contain(&result.candidate_event_ids, ledger.events[k].id) {
            match candidate_source_bytes.checked_add(ledger.events[k].raw.len()) {
                None => {
                    proof {
                        lemma_candidate_bytes_monotone(
                            ledger.events@,
                            result.candidate_event_ids@,
                            k + 1,
                            ledger.events.len() as int,
                        );
                    }
                    return Err(CaseEvaluationError::AccountingValueOverflow);
                },
                Some(v) => {
                    candidate_source_bytes = v;
                },
            }
        }
        k = k + 1;
    }
    if accounting.candidate_cost.event_count != result.candidate_event_ids.len() {
        return Err(CaseEvaluationError::MethodAccountingMismatch {
            dimension: CaseAccountingDimensionV1::CandidateEventCount,
        });
    }
    if accounting.candidate_cost.unique_source_bytes != candidate_source_bytes {
        return Err(CaseEvaluationError::MethodAccountingMismatch {
            dimension: CaseAccountingDimensionV1::CandidateSourceBytes,
        });
    }
    let mut selected_event_ids: Vec<EventId> = Vec::new();
    let mut selected_source_bytes: usize = 0;
    let mut s: usize = 0;
    while s < result.selected.len()
        invariant
            s <= result.selected.len(),
            early_checks_pass(*ledger, *result),
            candidate_checks_pass(*ledger, *result, candidate_source_bytes as int),
            selected_scan(*ledger, result.selected@, s as int) == Ok::<
                (Seq<EventId>, int),
                CaseEvaluationError,
            >((selected_event_ids@, selected_source_bytes as int)),
        decreases result.selected.len() - s,
    {
        let selected = &result.selected[s];
        if ids_contain(&selected_event_ids, selected.event_id) {
            proof {
                lemma_selected_scan_err_extends(*ledger, result.selected@, s + 1, result.selected.len() as int);
            }
            return Err(CaseEvaluationError::MethodAccountingMismatch {
                dimension: CaseAccountingDimensionV1::SelectedSet,
            });
        }
        let p = match find_event(ledger, selected.event_id) {
            None => {
                proof {
                    lemma_selected_scan_err_extends(*ledger, result.selected@, s + 1, result.selected.len() as int);
                }
                return Err(CaseEvaluationError::MethodAccountingMismatch {
                    dimension: CaseAccountingDimensionV1::SelectedSet,
                });
            },
            Some(p) => p,
        };
        let event = &ledger.events[p];
        if selected.ordinal != event.ordinal || selected.source_byte_cost != event.raw.len() {
            proof {
                lemma_selected_scan_err_extends(*ledger, result.selected@, s + 1, result.selected.len() as int);
            }
            return Err(CaseEvaluationError::MethodAccountingMismatch {
                dimension: CaseAccountingDimensionV1::SelectedEventMetadata,
            });
        }
        if s >= 1 && selected.ordinal <= result.selected[s - 1].ordinal {
            proof {
                lemma_selected_scan_err_extends(*ledger, result.selected@, s + 1, result.selected.len() as int);
            }
            return Err(CaseEvaluationError::MethodAccountingMismatch {
                dimension: CaseAccountingDimensionV1::SelectedEventOrder,
            });
        }
        selected_source_bytes = match selected_source_bytes.checked_add(event.raw.len()) {
            None => {
                proof {
                    lemma_selected_scan_err_extends(*ledger, result.selected@, s + 1, result.selected.len() as int);
                }
                return Err(CaseEvaluationError::AccountingValueOverflow);
            },
            Some(v) => v,
        };
        selected_event_ids.push(selected.event_id);
        s = s + 1;
    }
    proof {
        lemma_selected_scan_len(*ledger, result.selected@, s as int);
    }
    let mut q: usize = 0;
    proof {
        assert(s == result.selected.len());
    }
    while q < selected_event_ids.len()
        invariant
            q <= selected_event_ids.len(),
            early_checks_pass(*ledger, *result),
            candidate_checks_pass(*ledger, *result, candidate_source_bytes as int),
            selected_scan(*ledger, result.selected@, result.selected.len() as int) == Ok::<
                (Seq<EventId>, int),
                CaseEvaluationError,
            >((selected_event_ids@, selected_source_bytes as int)),
            forall|i: int| 0 <= i < q ==> result.candidate_event_ids@.contains(#[trigger] selected_event_ids@[i]),
        decreases selected_event_ids.len() - q,
    {
        if !ids_contain(&result.candidate_event_ids, selected_event_ids[q]) {
            return Err(CaseEvaluationError::MethodAccountingMismatch {
                dimension: CaseAccountingDimensionV1::SelectedCandidateSubset,
            });
        }
        q = q + 1;
    }
    if accounting.selected_event_count != selected_event_ids.len() {
        return Err(CaseEvaluationError::MethodAccountingMismatch {
            dimension: CaseAccountingDimensionV1::SelectedEventCount,
        });
    }
    if accounting.selected_source_bytes != selected_source_bytes {
        return Err(CaseEvaluationError::MethodAccountingMismatch {
            dimension: CaseAccountingDimensionV1::SelectedSourceBytes,
        });
    }
    if ledger.events.len() < selected_event_ids.len() || accounting.retained_raw_event_count
        != ledger.events.len() - selected_event_ids.len() {
        return Err(CaseEvaluationError::MethodAccountingMismatch {
            dimension: CaseAccountingDimensionV1::RetainedRawEventCount,
        });
    }
    if result.candidate_event_ids.len() < selected_event_ids.len() || accounting.budget_excluded_candidate_count
        != result.candidate_event_ids.len() - selected_event_ids.len() {
        return Err(CaseEvaluationError::MethodAccountingMismatch {
            dimension: CaseAccountingDimensionV1::BudgetExcludedCandidateCount,
        });
    }
    if selected_source_bytes > accounting.budget.0 {
        return Err(CaseEvaluationError::MethodAccountingMismatch {
            dimension: CaseAccountingDimensionV1::SourceByteBudget,
        });
    }
    Ok(
        ValidatedMethodResult {
            candidate_event_count: result.candidate_event_ids.len(),
            candidate_source_bytes,
            selected_event_ids,
            selected_source_bytes,
        },
    )
}

} // verus!
