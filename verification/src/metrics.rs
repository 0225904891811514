//! Exact, integer-only evidence metrics: candidate-set cost by unique event
//! identity and required-evidence recall of a method result.

use vstd::prelude::*;

use crate::ledger::{EventId, EventLedger};
use crate::method::{CandidateCost, MethodResult};

verus! {

broadcast use vstd::set::group_set_axioms, vstd::seq_lib::group_seq_properties;

/// Exact required-evidence recall counts.
#[derive(Clone, Copy, Debug, PartialEq, Eq, Structural)]
pub struct RequiredEvidenceRecall {
    pub required_event_count: usize,
    pub selected_required_event_count: usize,
}

impl RequiredEvidenceRecall {
    pub fn required_event_count(self) -> (r: usize)
        ensures
            r == self.required_event_count,
    {
        self.required_event_count
    }

    pub fn selected_required_event_count(self) -> (r: usize)
        ensures
            r == self.selected_required_event_count,
    {
        self.selected_required_event_count
    }

    pub fn missed_required_event_count(self) -> (r: usize)
        requires
            self.selected_required_event_count <= self.required_event_count,
        ensures
            r == self.required_event_count - self.selected_required_event_count,
    {
        self.required_event_count - self.selected_required_event_count
    }
}

/// Contentless metric failures.
#[derive(Clone, Copy, Debug, PartialEq, Eq, Structural)]
pub enum MetricError {
    RetrievalMismatch,
    UnknownRequiredEvidence { count: usize },
    UnknownCandidateEvent { count: usize },
    EmptyRequirement,
    EmptyRequirementAlternative,
    InvalidRequirementWeight,
    RequirementWeightSumNotFinite,
    CandidateByteCostOverflow,
}

impl MetricError {
    pub open spec fn spec_code(self) -> Seq<char> {
        match self {
            MetricError::RetrievalMismatch => "EVIDENTRAIL_BENCH_METRIC_RETRIEVAL_MISMATCH"@,
            MetricError::UnknownRequiredEvidence { .. } => "EVIDENTRAIL_BENCH_METRIC_UNKNOWN_REQUIRED_EVIDENCE"@,
            MetricError::UnknownCandidateEvent { .. } => "EVIDENTRAIL_BENCH_METRIC_UNKNOWN_CANDIDATE_EVENT"@,
            MetricError::EmptyRequirement => "EVIDENTRAIL_BENCH_METRIC_EMPTY_REQUIREMENT"@,
            MetricError::EmptyRequirementAlternative => "EVIDENTRAIL_BENCH_METRIC_EMPTY_REQUIREMENT_ALTERNATIVE"@,
            MetricError::InvalidRequirementWeight => "EVIDENTRAIL_BENCH_METRIC_INVALID_REQUIREMENT_WEIGHT"@,
            MetricError::RequirementWeightSumNotFinite => "EVIDENTRAIL_BENCH_METRIC_REQUIREMENT_WEIGHT_SUM_NOT_FINITE"@,
            MetricError::CandidateByteCostOverflow => "EVIDENTRAIL_BENCH_METRIC_CANDIDATE_BYTE_COST_OVERFLOW"@,
        }
    }

    pub fn code(self) -> (r: &'static str)
        ensures
            r@ == self.spec_code(),
    {
        match self {
            MetricError::RetrievalMismatch => "EVIDENTRAIL_BENCH_METRIC_RETRIEVAL_MISMATCH",
            MetricError::UnknownRequiredEvidence { .. } => "EVIDENTRAIL_BENCH_METRIC_UNKNOWN_REQUIRED_EVIDENCE",
            MetricError::UnknownCandidateEvent { .. } => "EVIDENTRAIL_BENCH_METRIC_UNKNOWN_CANDIDATE_EVENT",
            MetricError::EmptyRequirement => "EVIDENTRAIL_BENCH_METRIC_EMPTY_REQUIREMENT",
            MetricError::EmptyRequirementAlternative => "EVIDENTRAIL_BENCH_METRIC_EMPTY_REQUIREMENT_ALTERNATIVE",
            MetricError::InvalidRequirementWeight => "EVIDENTRAIL_BENCH_METRIC_INVALID_REQUIREMENT_WEIGHT",
            MetricError::RequirementWeightSumNotFinite => "EVIDENTRAIL_BENCH_METRIC_REQUIREMENT_WEIGHT_SUM_NOT_FINITE",
            MetricError::CandidateByteCostOverflow => "EVIDENTRAIL_BENCH_METRIC_CANDIDATE_BYTE_COST_OVERFLOW",
        }
    }
}

/// A duplicate-free copy of the identities, keeping first occurrences.
pub fn dedup_ids(ids: &[EventId]) -> (r: Vec<EventId>)
    ensures
        r@.no_duplicates(),
        r@.to_set() == ids@.to_set(),
{
    let mut out: Vec<EventId> = Vec::new();
    let mut i: usize = 0;
    while i < ids.len()
        invariant
            i <= ids.len(),
            out@.no_duplicates(),
            out@.to_set() == ids@.take(i as int).to_set(),
        decreases ids.len() - i,
    {
        let id = ids[i];
        let mut found = false;
        let mut j: usize = 0;
        while j < out.len()
            invariant
                j <= out.len(),
                found == (exists|k: int| 0 <= k < j && out@[k] == id),
            decreases out.len() - j,
        {
            if out[j] == id {
                found = true;
            }
            j = j + 1;
        }
        proof {
            assert(ids@.take(i + 1) == ids@.take(i as int).push(id));
            assert(ids@.take(i + 1).to_set() == ids@.take(i as int).to_set().insert(id));
        }
        if !found {
            let ghost before = out@;
            out.push(id);
            proof {
                assert(out@ == before.push(id));
                assert(out@.to_set() == before.to_set().insert(id));
            }
        } else {
            proof {
                let k = choose|k: int| 0 <= k < out.len() && out@[k] == id;
                assert(out@.to_set().contains(id));
                assert(out@.to_set() =~= out@.to_set().insert(id));
            }
        }
        i = i + 1;
    }
    proof {
        assert(ids@.take(ids@.len() as int) == ids@);
    }
    out
}

/// Counting a predicate over a duplicate-free sequence counts it over its set.
pub proof fn lemma_filter_count_set<T>(d: Seq<T>, p: spec_fn(T) -> bool)
    requires
        d.no_duplicates(),
    ensures
        d.filter(p).len() == d.to_set().filter(p).len(),
    decreases d.len(),
{
    if d.len() == 0 {
        assert(d.to_set() =~= Set::<T>::empty());
        assert(d.to_set().filter(p) =~= Set::<T>::empty());
        assert(d.filter(p) =~= Seq::<T>::empty());
    } else {
        let t = d.drop_last();
        let x = d.last();
        assert(t.no_duplicates());
        assert(!t.contains(x)) by {
            if t.contains(x) {
                let k = choose|k: int| 0 <= k < t.len() && t[k] == x;
                assert(d[k] == d[d.len() - 1]);
            }
        }
        lemma_filter_count_set(t, p);
        assert(d == t.push(x));
        assert(d.to_set() == t.to_set().insert(x));
        reveal_with_fuel(Seq::filter, 1);
        assert(d.filter(p) == if p(x) {
            t.filter(p).push(x)
        } else {
            t.filter(p)
        });
        if p(x) {
            assert(d.to_set().filter(p) =~= t.to_set().filter(p).insert(x));
            assert(!t.to_set().filter(p).contains(x));
        } else {
            assert(d.to_set().filter(p) =~= t.to_set().filter(p));
        }
    }
}

/// Count the entries of a duplicate-free list that the predicate holds for,
/// where `flags` records the predicate per entry.
pub fn count_flags(flags: &Vec<bool>) -> (r: usize)
    ensures
        r == flags@.filter(|b: bool| b).len(),
{
    let mut c: usize = 0;
    let mut i: usize = 0;
    while i < flags.len()
        invariant
            i <= flags.len(),
            c == flags@.take(i as int).filter(|b: bool| b).len(),
            c <= i,
        decreases flags.len() - i,
    {
        proof {
            assert(flags@.take(i + 1).drop_last() == flags@.take(i as int));
            reveal_with_fuel(Seq::filter, 1);
        }
        if flags[i] {
            c = c + 1;
        }
        i = i + 1;
    }
    proof {
        assert(flags@.take(flags@.len() as int) == flags@);
    }
    c
}

/// The number of entries of `d` that the predicate holds for, given the
/// predicate evaluated per entry.
pub proof fn lemma_flags_filter<T>(d: Seq<T>, flags: Seq<bool>, p: spec_fn(T) -> bool)
    requires
        flags.len() == d.len(),
        forall|i: int| 0 <= i < d.len() ==> flags[i] == p(d[i]),
    ensures
        flags.filter(|b: bool| b).len() == d.filter(p).len(),
    decreases d.len(),
{
    reveal_with_fuel(Seq::filter, 1);
    if d.len() > 0 {
        lemma_flags_filter(d.drop_last(), flags.drop_last(), p);
    }
}

/// Sum of the raw bytes of the first `k` ledger events whose identity is in
/// the set.
pub open spec fn id_set_bytes(ledger: &EventLedger, ids: Set<EventId>, k: nat) -> nat
    decreases k,
{
    if k == 0 {
        0
    } else {
        id_set_bytes(ledger, ids, (k - 1) as nat) + if ids.contains(ledger.events@[k - 1].id) {
            ledger.raw_len(k - 1)
        } else {
            0
        }
    }
}

/// Cost an arbitrary candidate set by unique event identity.
pub fn candidate_cost(ledger: &EventLedger, candidate_event_ids: &[EventId]) -> (r: Result<
    CandidateCost,
    MetricError,
>)
    ensures
        ({
            let ids = candidate_event_ids@.to_set();
            let unknown = ids.filter(|id: EventId| !ledger.has_event(id)).len();
            let bytes = id_set_bytes(ledger, ids, ledger.events.len() as nat);
            &&& (r == Err::<CandidateCost, MetricError>(
                MetricError::UnknownCandidateEvent { count: unknown as usize },
            )) <==> unknown != 0
            &&& (r == Err::<CandidateCost, MetricError>(MetricError::CandidateByteCostOverflow)) <==> (
            unknown == 0 && bytes > usize::MAX)
            &&& r is Ok <==> (unknown == 0 && bytes <= usize::MAX)
            &&& r matches Ok(c) ==> c.event_count == ids.len() && c.unique_source_bytes == bytes
        }),
{
    let distinct = dedup_ids(candidate_event_ids);
    let ghost ids = candidate_event_ids@.to_set();
    let ghost unknown_pred = |id: EventId| !ledger.has_event(id);
    let mut unknown_flags: Vec<bool> = Vec::new();
    let mut i: usize = 0;
    while i < distinct.len()
        invariant
            i <= distinct.len(),
            unknown_flags.len() == i,
            forall|k: int| 0 <= k < i ==> unknown_flags@[k] == !ledger.has_event(distinct@[k]),
        decreases distinct.len() - i,
    {
        unknown_flags.push(!ledger.contains(distinct[i]));
        i = i + 1;
    }
    let unknown = count_flags(&unknown_flags);
    proof {
        lemma_flags_filter(distinct@, unknown_flags@, unknown_pred);
        lemma_filter_count_set(distinct@, unknown_pred);
        distinct@.unique_seq_to_set();
    }
    if unknown != 0 {
        return Err(MetricError::UnknownCandidateEvent { count: unknown });
    }
    let mut bytes: usize = 0;
    let mut e: usize = 0;
    while e < ledger.events.len()
        invariant
            e <= ledger.events.len(),
            distinct@.to_set() == ids,
            ids == candidate_event_ids@.to_set(),
            ids.filter(|id: EventId| !ledger.has_event(id)).len() == 0,
            bytes == id_set_bytes(ledger, ids, e as nat),
        decreases ledger.events.len() - e,
    {
        let id = ledger.events[e].id;
        let mut member = false;
        let mut j: usize = 0;
        while j < distinct.len()
            invariant
                j <= distinct.len(),
                member == (exists|k: int| 0 <= k < j && distinct@[k] == id),
            decreases distinct.len() - j,
        {
            if distinct[j] == id {
                member = true;
            }
            j = j + 1;
        }
        proof {
            if member {
                let k = choose|k: int| 0 <= k < distinct.len() && distinct@[k] == id;
                assert(distinct@.to_set().contains(id));
            } else {
                assert(!distinct@.contains(id));
            }
        }
        if member {
            match bytes.checked_add(ledger.events[e].raw.len()) {
                Some(t) => {
                    bytes = t;
                },
                None => {
                    proof {
                        lemma_id_set_bytes_monotone(ledger, ids, (e + 1) as nat, ledger.events.len() as nat);
                    }
                    return Err(MetricError::CandidateByteCostOverflow);
                },
            }
        }
        e = e + 1;
    }
    Ok(CandidateCost { event_count: distinct.len(), unique_source_bytes: bytes })
}

/// Byte sums over more of the ledger are no smaller.
pub proof fn lemma_id_set_bytes_monotone(ledger: &EventLedger, ids: Set<EventId>, a: nat, b: nat)
    requires
        a <= b,
    ensures
        id_set_bytes(ledger, ids, a) <= id_set_bytes(ledger, ids, b),
    decreases b - a,
{
    if a < b {
        lemma_id_set_bytes_monotone(ledger, ids, a, (b - 1) as nat);
    }
}

/// Score the unique required event identities retained by a method result.
pub fn required_evidence_recall(
    ledger: &EventLedger,
    result: &MethodResult,
    required_event_ids: &[EventId],
) -> (r: Result<RequiredEvidenceRecall, MetricError>)
    ensures
        ({
            let required = required_event_ids@.to_set();
            let unknown = required.filter(|id: EventId| !ledger.has_event(id)).len();
            &&& (r == Err::<RequiredEvidenceRecall, MetricError>(MetricError::RetrievalMismatch)) <==> (
            ledger.retrieval_id != result.retrieval_id)
            &&& (r == Err::<RequiredEvidenceRecall, MetricError>(
                MetricError::UnknownRequiredEvidence { count: unknown as usize },
            )) <==> (ledger.retrieval_id == result.retrieval_id && unknown != 0)
            &&& r is Ok <==> (ledger.retrieval_id == result.retrieval_id && unknown == 0)
            &&& r matches Ok(rec) ==> rec.required_event_count == required.len()
                && rec.selected_required_event_count == required.filter(
                |id: EventId| result.selected_ids().contains(id),
            ).len() && rec.selected_required_event_count <= rec.required_event_count
        }),
{
    if ledger.retrieval_id != result.retrieval_id {
        return Err(MetricError::RetrievalMismatch);
    }
    let distinct = dedup_ids(required_event_ids);
    let ghost unknown_pred = |id: EventId| !ledger.has_event(id);
    let ghost selected_pred = |id: EventId| result.selected_ids().contains(id);
    let mut unknown_flags: Vec<bool> = Vec::new();
    let mut selected_flags: Vec<bool> = Vec::new();
    let mut i: usize = 0;
    while i < distinct.len()
        invariant
            i <= distinct.len(),
            unknown_flags.len() == i,
            selected_flags.len() == i,
            forall|k: int| 0 <= k < i ==> unknown_flags@[k] == !ledger.has_event(distinct@[k]),
            forall|k: int| 0 <= k < i ==> selected_flags@[k] == result.selected_ids().contains(distinct@[k]),
        decreases distinct.len() - i,
    {
        unknown_flags.push(!ledger.contains(distinct[i]));
        selected_flags.push(result.contains(distinct[i]));
        i = i + 1;
    }
    let unknown = count_flags(&unknown_flags);
    let selected = count_flags(&selected_flags);
    proof {
        lemma_flags_filter(distinct@, unknown_flags@, unknown_pred);
        lemma_filter_count_set(distinct@, unknown_pred);
        lemma_flags_filter(distinct@, selected_flags@, selected_pred);
        lemma_filter_count_set(distinct@, selected_pred);
        distinct@.unique_seq_to_set();
        assert(distinct@.filter(selected_pred).len() <= distinct@.len());
    }
    if unknown != 0 {
        return Err(MetricError::UnknownRequiredEvidence { count: unknown });
    }
    Ok(
        RequiredEvidenceRecall {
            required_event_count: distinct.len(),
            selected_required_event_count: selected,
        },
    )
}

/// Every event referenced by any alternative of any requirement, in order.
pub open spec fn requirement_refs(requirements: Seq<Vec<Vec<EventId>>>) -> Seq<EventId>
    decreases requirements.len(),
{
    if requirements.len() == 0 {
        Seq::empty()
    } else {
        requirement_refs(requirements.drop_last()) + alternatives_refs(requirements.last()@)
    }
}

pub open spec fn alternatives_refs(alternatives: Seq<Vec<EventId>>) -> Seq<EventId>
    decreases alternatives.len(),
{
    if alternatives.len() == 0 {
        Seq::empty()
    } else {
        alternatives_refs(alternatives.drop_last()) + alternatives.last()@
    }
}

/// Every event of the alternative is selected.
pub open spec fn alternative_selected(alternative: Seq<EventId>, selected: Seq<EventId>) -> bool {
    forall|k: int| 0 <= k < alternative.len() ==> selected.contains(#[trigger] alternative[k])
}

/// Some alternative of the requirement is wholly selected.
pub open spec fn requirement_met(alternatives: Seq<Vec<EventId>>, selected: Seq<EventId>) -> bool {
    exists|a: int| 0 <= a < alternatives.len() && alternative_selected(#[trigger] alternatives[a]@, selected)
}

fn flatten_refs(requirements: &Vec<Vec<Vec<EventId>>>) -> (r: Vec<EventId>)
    ensures
        r@ == requirement_refs(requirements@),
{
    let mut r: Vec<EventId> = Vec::new();
    let mut i: usize = 0;
    while i < requirements.len()
        invariant
            i <= requirements.len(),
            r@ == requirement_refs(requirements@.subrange(0, i as int)),
        decreases requirements.len() - i,
    {
        let ghost before = r@;
        let alternatives = &requirements[i];
        let mut a: usize = 0;
        while a < alternatives.len()
            invariant
                a <= alternatives.len(),
                i < requirements.len(),
                *alternatives == requirements@[i as int],
                r@ == before + alternatives_refs(alternatives@.subrange(0, a as int)),
            decreases alternatives.len() - a,
        {
            let ghost mid = r@;
            let alt = &alternatives[a];
            let mut k: usize = 0;
            while k < alt.len()
                invariant
                    k <= alt.len(),
                    r@ == mid + alt@.subrange(0, k as int),
                decreases alt.len() - k,
            {
                r.push(alt[k]);
                k = k + 1;
                proof {
                    assert(r@ =~= mid + alt@.subrange(0, k as int));
                }
            }
            proof {
                assert(alt@.subrange(0, k as int) =~= alt@);
                assert(alternatives@.subrange(0, a + 1).drop_last() =~= alternatives@.subrange(0, a as int));
                assert(r@ =~= before + alternatives_refs(alternatives@.subrange(0, a + 1)));
            }
            a = a + 1;
        }
        proof {
            assert(alternatives@.subrange(0, a as int) =~= alternatives@);
            assert(requirements@.subrange(0, i + 1).drop_last() =~= requirements@.subrange(0, i as int));
        }
        i = i + 1;
    }
    proof {
        assert(requirements@.subrange(0, i as int) =~= requirements@);
    }
    r
}

fn alternative_is_selected(alternative: &Vec<EventId>, result: &MethodResult) -> (r: bool)
    ensures
        r == alternative_selected(alternative@, result.selected_ids()),
{
    let mut k: usize = 0;
    while k < alternative.len()
        invariant
            k <= alternative.len(),
            forall|q: int| 0 <= q < k ==> result.selected_ids().contains(#[trigger] alternative@[q]),
        decreases alternative.len() - k,
    {
        if !result.contains(alternative[k]) {
            return false;
        }
        k = k + 1;
    }
    true
}

fn requirement_is_met(alternatives: &Vec<Vec<EventId>>, result: &MethodResult) -> (r: bool)
    ensures
        r == requirement_met(alternatives@, result.selected_ids()),
{
    let mut a: usize = 0;
    while a < alternatives.len()
        invariant
            a <= alternatives.len(),
            forall|q: int| 0 <= q < a ==> !alternative_selected(#[trigger] alternatives@[q]@, result.selected_ids()),
        decreases alternatives.len() - a,
    {
        if alternative_is_selected(&alternatives[a], result) {
            return true;
        }
        a = a + 1;
    }
    false
}

/// Which weighted diagnostic requirements a method result satisfies, each
/// given by its alternative event sets: a requirement is satisfied when every
/// event of one alternative is selected. Fails on another retrieval, and on
/// referenced events the ledger lacks, with their distinct count.
pub fn diagnostic_requirement_satisfaction(
    ledger: &EventLedger,
    result: &MethodResult,
    requirements: &Vec<Vec<Vec<EventId>>>,
) -> (r: Result<Vec<bool>, MetricError>)
    ensures
        ({
            let referenced = requirement_refs(requirements@).to_set();
            let unknown = referenced.filter(|id: EventId| !ledger.has_event(id)).len();
            &&& (r == Err::<Vec<bool>, MetricError>(MetricError::RetrievalMismatch)) <==> (ledger.retrieval_id
                != result.retrieval_id)
            &&& (r == Err::<Vec<bool>, MetricError>(
                MetricError::UnknownRequiredEvidence { count: unknown as usize },
            )) <==> (ledger.retrieval_id == result.retrieval_id && unknown != 0)
            &&& r is Ok <==> (ledger.retrieval_id == result.retrieval_id && unknown == 0)
            &&& r matches Ok(flags) ==> flags@.len() == requirements@.len() && forall|i: int|
                0 <= i < requirements@.len() ==> #[trigger] flags@[i] == requirement_met(
                    requirements@[i]@,
                    result.selected_ids(),
                )
        }),
{
    if ledger.retrieval_id != result.retrieval_id {
        return Err(MetricError::RetrievalMismatch);
    }
    let refs = flatten_refs(requirements);
    let distinct = dedup_ids(refs.as_slice());
    let ghost unknown_pred = |id: EventId| !ledger.has_event(id);
    let mut unknown_flags: Vec<bool> = Vec::new();
    let mut i: usize = 0;
    while i < distinct.len()
        invariant
            i <= distinct.len(),
            unknown_flags.len() == i,
            forall|k: int| 0 <= k < i ==> unknown_flags@[k] == !ledger.has_event(distinct@[k]),
        decreases distinct.len() - i,
    {
        unknown_flags.push(!ledger.contains(distinct[i]));
        i = i + 1;
    }
    let unknown = count_flags(&unknown_flags);
    proof {
        lemma_flags_filter(distinct@, unknown_flags@, unknown_pred);
        lemma_filter_count_set(distinct@, unknown_pred);
    }
    if unknown != 0 {
        return Err(MetricError::UnknownRequiredEvidence { count: unknown });
    }
    let mut flags: Vec<bool> = Vec::new();
    let mut q: usize = 0;
    while q < requirements.len()
        invariant
            q <= requirements.len(),
            flags@.len() == q,
            forall|k: int| 0 <= k < q ==> #[trigger] flags@[k] == requirement_met(requirements@[k]@, result.selected_ids()),
        decreases requirements.len() - q,
    {
        flags.push(requirement_is_met(&requirements[q], result));
        q = q + 1;
    }
    Ok(flags)
}

} // verus!
