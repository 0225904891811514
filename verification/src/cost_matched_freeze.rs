//! Freezing the cost-matched stress corpus: a plan is frozen with its packet
//! and event identities in canonical order and a digest over them; a case
//! freezes production, the cost-matched challenger and the structured
//! program's outcome under production's own resource envelope; the corpus
//! commits to every case.

use vstd::prelude::*;
use vstd::utf8::encode_utf8;
use crate::bounded_selector_challenger::{contains_packet, has_packet, BoundedSelectorPacketIdV1};
use crate::bounded_selector_challenger::{
    BoundedSelectorSearchBoundsV1, BoundedSelectorSearchObservationV1, BOUNDED_SELECTOR_CHALLENGER_BEAM_WIDTH_V1,
    BOUNDED_SELECTOR_CHALLENGER_MAX_DEPTH_V1, BOUNDED_SELECTOR_CHALLENGER_TRANSITION_CAP_V1,
};
use crate::cost_matched_selector_stress::{
    cost_relation, plan_is_better, validate_envelope, CostMatchedStressCaseV1, FrozenCostMatchedStressCaseV1,
    FrozenCostMatchedStressCorpusV1, COST_MATCHED_STRESS_CASE_COUNT_V1,
    FrozenCostMatchedStressDigestV1, COST_MATCHED_STRESS_MIN_OPTIONAL_PACKETS_V1, dp_items, evaluate_structured_exact_dp_v1, gain_total, push_digest_field, saturation_couples,
    spec_structured_dp_work, CostMatchedCostRelationV1, CostMatchedObjectiveRelationV1, CostMatchedPlanSourceV1,
    CostMatchedResourceEnvelopeV1, CostMatchedStressErrorV1, FrozenCostMatchedPlanV1, StructuredDpDecisionV1,
    StructuredDpIneligibleReasonV1, StructuredDpOutcomeV1, StructuredDpWorkReceiptV1,
};
use crate::order_aware_beam::{
    copy_vec, evaluate_cost_matched_order_aware_beam_v1, optional_positions, spec_cost_matched_beam,
};
use crate::structured_dp::{
    dp_best_upto, dp_initial_run, lemma_structured_dp_sound, run_items, DpStopV1, STRUCTURED_DP_MAX_OPTIONAL_PACKETS_V1,
};
use crate::digest::ArtifactDigest;
use crate::ledger::EventId;
use crate::order_aware_beam::{find_packet_position, packet_position};
use crate::packet_order::{
    events_ascending, events_distinct, id_bytes, ids_ascending, ids_distinct, insert_event_id,
    lemma_ascending_events_unique, lemma_ascending_ids_unique, lemma_id_bytes_injective, same_ids, sort_packet_ids,
};
use crate::selection_problem::{IntactPacketV1, SelectionProblemV1};
use crate::sha256::{framed, push_field, push_u64_le, sha256, sha256_spec, u64_le};

verus! {

/// Domain that opens every frozen plan digest.
pub const PUBLIC_PLAN_DOMAIN_V1: &'static str = "evidentrail/bench/cost-matched-selector-stress-plan/v1\0";

pub open spec fn spec_plan_source_code(source: CostMatchedPlanSourceV1) -> u8 {
    match source {
        CostMatchedPlanSourceV1::Production => 0,
        CostMatchedPlanSourceV1::OrderAwareBeam => 1,
        CostMatchedPlanSourceV1::ProductionFallback => 2,
        CostMatchedPlanSourceV1::StructuredExactDp => 3,
    }
}

/// The byte that stands for a plan source in a digest.
pub fn plan_source_code(source: CostMatchedPlanSourceV1) -> (r: u8)
    ensures
        r == spec_plan_source_code(source),
{
    match source {
        CostMatchedPlanSourceV1::Production => 0,
        CostMatchedPlanSourceV1::OrderAwareBeam => 1,
        CostMatchedPlanSourceV1::ProductionFallback => 2,
        CostMatchedPlanSourceV1::StructuredExactDp => 3,
    }
}

pub open spec fn spec_objective_relation_code(relation: CostMatchedObjectiveRelationV1) -> u8 {
    match relation {
        CostMatchedObjectiveRelationV1::ChallengerBetter => 0,
        CostMatchedObjectiveRelationV1::Equal => 1,
    }
}

/// The byte that stands for an objective relation in a digest.
pub fn objective_relation_code(relation: CostMatchedObjectiveRelationV1) -> (r: u8)
    ensures
        r == spec_objective_relation_code(relation),
{
    match relation {
        CostMatchedObjectiveRelationV1::ChallengerBetter => 0,
        CostMatchedObjectiveRelationV1::Equal => 1,
    }
}

pub open spec fn spec_cost_relation_code(relation: CostMatchedCostRelationV1) -> u8 {
    match relation {
        CostMatchedCostRelationV1::ChallengerLower => 0,
        CostMatchedCostRelationV1::Equal => 1,
    }
}

/// The byte that stands for a cost relation in a digest.
pub fn cost_relation_code(relation: CostMatchedCostRelationV1) -> (r: u8)
    ensures
        r == spec_cost_relation_code(relation),
{
    match relation {
        CostMatchedCostRelationV1::ChallengerLower => 0,
        CostMatchedCostRelationV1::Equal => 1,
    }
}

pub open spec fn spec_dp_ineligible_code(reason: StructuredDpIneligibleReasonV1) -> u8 {
    match reason {
        StructuredDpIneligibleReasonV1::OptionalPacketCap => 0,
        StructuredDpIneligibleReasonV1::NonAdditiveSaturation => 1,
        StructuredDpIneligibleReasonV1::StateSlotCap => 2,
        StructuredDpIneligibleReasonV1::TransitionCap => 3,
    }
}

/// The byte that stands for a structured-program refusal in a digest.
pub fn dp_ineligible_code(reason: StructuredDpIneligibleReasonV1) -> (r: u8)
    ensures
        r == spec_dp_ineligible_code(reason),
{
    match reason {
        StructuredDpIneligibleReasonV1::OptionalPacketCap => 0,
        StructuredDpIneligibleReasonV1::NonAdditiveSaturation => 1,
        StructuredDpIneligibleReasonV1::StateSlotCap => 2,
        StructuredDpIneligibleReasonV1::TransitionCap => 3,
    }
}

pub open spec fn known_packet(packets: Seq<IntactPacketV1>, id: BoundedSelectorPacketIdV1) -> bool {
    packet_position(packets, id) is Some
}

/// The events carried by the packet with this identity.
pub open spec fn packet_events(packets: Seq<IntactPacketV1>, id: BoundedSelectorPacketIdV1) -> Seq<EventId> {
    packets[packet_position(packets, id)->Some_0].event_ids@
}

/// Every identity names a packet of the problem.
pub open spec fn all_known(packets: Seq<IntactPacketV1>, ids: Seq<BoundedSelectorPacketIdV1>) -> bool {
    forall|i: int| 0 <= i < ids.len() ==> known_packet(packets, #[trigger] ids[i])
}

/// The events of the named packets, packet after packet.
pub open spec fn plan_events(packets: Seq<IntactPacketV1>, ids: Seq<BoundedSelectorPacketIdV1>) -> Seq<EventId>
    decreases ids.len(),
{
    if ids.len() == 0 {
        Seq::empty()
    } else {
        plan_events(packets, ids.drop_last()) + packet_events(packets, ids.last())
    }
}

/// Every mandatory packet is among the named ones.
pub open spec fn mandatory_included(problem: SelectionProblemV1, ids: Seq<BoundedSelectorPacketIdV1>) -> bool {
    forall|m: int| 0 <= m < problem.mandatory_packet_ids@.len() ==> has_packet(ids, #[trigger] problem.mandatory_packet_ids@[m])
}

/// The framed packet identities.
pub open spec fn ids_bytes(ids: Seq<Seq<u8>>) -> Seq<u8>
    decreases ids.len(),
{
    if ids.len() == 0 {
        Seq::empty()
    } else {
        ids_bytes(ids.drop_last()) + framed(ids.last())
    }
}

/// The framed event identities, each as its little-endian `u64`.
pub open spec fn events_bytes(events: Seq<EventId>) -> Seq<u8>
    decreases events.len(),
{
    if events.len() == 0 {
        Seq::empty()
    } else {
        events_bytes(events.drop_last()) + framed(u64_le(events.last().0))
    }
}

/// The message whose digest commits to a frozen plan.
pub open spec fn plan_message(
    source: CostMatchedPlanSourceV1,
    gain: u64,
    ids: Seq<Seq<u8>>,
    events: Seq<EventId>,
    selected_packet_cost: u64,
    coverage_only_token_cost: u64,
) -> Seq<u8> {
    framed(encode_utf8(PUBLIC_PLAN_DOMAIN_V1@)) + seq![spec_plan_source_code(source)] + u64_le(gain) + u64_le(
        ids.len() as u64,
    ) + ids_bytes(ids) + u64_le(events.len() as u64) + events_bytes(events) + u64_le(selected_packet_cost) + u64_le(
        coverage_only_token_cost,
    )
}

/// The identities and events of a plan can be frozen: no identity twice,
/// every identity a packet of the problem, and no event carried twice.
pub open spec fn plan_shape_ok(problem: SelectionProblemV1, ids: Seq<BoundedSelectorPacketIdV1>) -> bool {
    &&& ids_distinct(ids)
    &&& all_known(problem.packets@, ids)
    &&& events_distinct(plan_events(problem.packets@, ids))
}

/// What freezing a plan gives: the error, or a plan whose identities and
/// events are the given ones in strictly ascending order, with its digest.
pub open spec fn freeze_plan_result(
    problem: SelectionProblemV1,
    source: CostMatchedPlanSourceV1,
    objective_gain_numerator: u64,
    ids: Seq<BoundedSelectorPacketIdV1>,
    verified_gain: Option<u64>,
    selected_packet_cost: u64,
    coverage_only_token_cost: u64,
    r: Result<FrozenCostMatchedPlanV1, CostMatchedStressErrorV1>,
) -> bool {
    if !plan_shape_ok(problem, ids) {
        r == Err::<FrozenCostMatchedPlanV1, CostMatchedStressErrorV1>(CostMatchedStressErrorV1::ObjectiveContract)
    } else if !mandatory_included(problem, ids) {
        r == Err::<FrozenCostMatchedPlanV1, CostMatchedStressErrorV1>(
            CostMatchedStressErrorV1::ResourceEnvelopeViolation,
        )
    } else if verified_gain != Some(objective_gain_numerator) {
        r == Err::<FrozenCostMatchedPlanV1, CostMatchedStressErrorV1>(CostMatchedStressErrorV1::ObjectiveContract)
    } else {
        &&& r is Ok
        &&& r->Ok_0.source == source
        &&& r->Ok_0.objective_gain_numerator == objective_gain_numerator
        &&& r->Ok_0.selected_packet_cost == selected_packet_cost
        &&& r->Ok_0.coverage_only_token_cost == coverage_only_token_cost
        &&& ids_ascending(r->Ok_0.selected_packet_ids@)
        &&& same_ids(r->Ok_0.selected_packet_ids@, ids)
        &&& r->Ok_0.selected_packet_ids@.len() == ids.len()
        &&& events_ascending(r->Ok_0.selected_event_ids@)
        &&& (forall|e: EventId|
            r->Ok_0.selected_event_ids@.contains(e) <==> plan_events(problem.packets@, ids).contains(e))
        &&& r->Ok_0.selected_event_ids@.len() == plan_events(problem.packets@, ids).len()
        &&& r->Ok_0.digest.0@ == sha256_spec(
            plan_message(
                source,
                objective_gain_numerator,
                id_bytes(r->Ok_0.selected_packet_ids@),
                r->Ok_0.selected_event_ids@,
                selected_packet_cost,
                coverage_only_token_cost,
            ),
        )
    }
}

/// What a frozen plan holds, identities taken by their bytes.
pub struct FrozenPlanView {
    pub digest: Seq<u8>,
    pub source: CostMatchedPlanSourceV1,
    pub objective_gain_numerator: u64,
    pub selected_packet_ids: Seq<BoundedSelectorPacketIdV1>,
    pub selected_event_ids: Seq<EventId>,
    pub selected_packet_cost: u64,
    pub coverage_only_token_cost: u64,
}

impl View for FrozenCostMatchedPlanV1 {
    type V = FrozenPlanView;

    open spec fn view(&self) -> FrozenPlanView {
        FrozenPlanView {
            digest: self.digest.0@,
            source: self.source,
            objective_gain_numerator: self.objective_gain_numerator,
            selected_packet_ids: self.selected_packet_ids@,
            selected_event_ids: self.selected_event_ids@,
            selected_packet_cost: self.selected_packet_cost,
            coverage_only_token_cost: self.coverage_only_token_cost,
        }
    }
}

/// The identities in strictly ascending byte order.
pub open spec fn canonical_ids(ids: Seq<BoundedSelectorPacketIdV1>) -> Seq<BoundedSelectorPacketIdV1> {
    choose|v: Seq<BoundedSelectorPacketIdV1>| ids_ascending(v) && same_ids(v, ids) && v.len() == ids.len()
}

/// The event identities in strictly ascending order.
pub open spec fn canonical_events(events: Seq<EventId>) -> Seq<EventId> {
    choose|v: Seq<EventId>|
        events_ascending(v) && (forall|e: EventId| v.contains(e) <==> events.contains(e)) && v.len() == events.len()
}

/// The frozen plan, or the error, as a function of the request.
#[verifier::opaque]
pub open spec fn spec_freeze_plan(
    problem: SelectionProblemV1,
    source: CostMatchedPlanSourceV1,
    objective_gain_numerator: u64,
    ids: Seq<BoundedSelectorPacketIdV1>,
    verified_gain: Option<u64>,
    selected_packet_cost: u64,
    coverage_only_token_cost: u64,
) -> Result<FrozenPlanView, CostMatchedStressErrorV1> {
    if !plan_shape_ok(problem, ids) {
        Err(CostMatchedStressErrorV1::ObjectiveContract)
    } else if !mandatory_included(problem, ids) {
        Err(CostMatchedStressErrorV1::ResourceEnvelopeViolation)
    } else if verified_gain != Some(objective_gain_numerator) {
        Err(CostMatchedStressErrorV1::ObjectiveContract)
    } else {
        let sorted = canonical_ids(ids);
        let events = canonical_events(plan_events(problem.packets@, ids));
        Ok(
            FrozenPlanView {
                digest: sha256_spec(
                    plan_message(
                        source,
                        objective_gain_numerator,
                        id_bytes(sorted),
                        events,
                        selected_packet_cost,
                        coverage_only_token_cost,
                    ),
                ),
                source,
                objective_gain_numerator,
                selected_packet_ids: sorted,
                selected_event_ids: events,
                selected_packet_cost,
                coverage_only_token_cost,
            },
        )
    }
}

/// A plan result seen through the plan's view.
pub open spec fn plan_result_view(
    r: Result<FrozenCostMatchedPlanV1, CostMatchedStressErrorV1>,
) -> Result<FrozenPlanView, CostMatchedStressErrorV1> {
    match r {
        Ok(p) => Ok(p@),
        Err(e) => Err(e),
    }
}

/// Freezing is a function of the request: the relational contract pins it.
proof fn lemma_freeze_plan_determined(
    problem: SelectionProblemV1,
    source: CostMatchedPlanSourceV1,
    objective_gain_numerator: u64,
    ids: Seq<BoundedSelectorPacketIdV1>,
    verified_gain: Option<u64>,
    selected_packet_cost: u64,
    coverage_only_token_cost: u64,
    r: Result<FrozenCostMatchedPlanV1, CostMatchedStressErrorV1>,
)
    requires
        freeze_plan_result(
            problem,
            source,
            objective_gain_numerator,
            ids,
            verified_gain,
            selected_packet_cost,
            coverage_only_token_cost,
            r,
        ),
    ensures
        plan_result_view(r) == spec_freeze_plan(
            problem,
            source,
            objective_gain_numerator,
            ids,
            verified_gain,
            selected_packet_cost,
            coverage_only_token_cost,
        ),
{
    reveal(spec_freeze_plan);
    if r is Ok {
        let p = r->Ok_0;
        let v = choose|v: Seq<BoundedSelectorPacketIdV1>| ids_ascending(v) && same_ids(v, ids) && v.len() == ids.len();
        assert(ids_ascending(p.selected_packet_ids@) && same_ids(p.selected_packet_ids@, ids));
        assert(same_ids(v, p.selected_packet_ids@));
        lemma_ascending_ids_unique(v, p.selected_packet_ids@);
        lemma_id_bytes_injective(v, p.selected_packet_ids@);
        let all = plan_events(problem.packets@, ids);
        let w = choose|w: Seq<EventId>|
            events_ascending(w) && (forall|e: EventId| w.contains(e) <==> all.contains(e)) && w.len() == all.len();
        assert(events_ascending(p.selected_event_ids@) && (forall|e: EventId|
            p.selected_event_ids@.contains(e) <==> all.contains(e)) && p.selected_event_ids@.len() == all.len());
        lemma_ascending_events_unique(w, p.selected_event_ids@);
    }
}

/// The events of the first `k` named packets open the events of all of them.
proof fn lemma_plan_events_prefix(packets: Seq<IntactPacketV1>, ids: Seq<BoundedSelectorPacketIdV1>, k: int)
    requires
        0 <= k <= ids.len(),
    ensures
        plan_events(packets, ids.subrange(0, k)).len() <= plan_events(packets, ids).len(),
        plan_events(packets, ids).subrange(0, plan_events(packets, ids.subrange(0, k)).len() as int)
            == plan_events(packets, ids.subrange(0, k)),
    decreases ids.len(),
{
    if k == ids.len() {
        assert(ids.subrange(0, k) =~= ids);
        assert(plan_events(packets, ids).subrange(0, plan_events(packets, ids).len() as int) =~= plan_events(
            packets,
            ids,
        ));
    } else {
        lemma_plan_events_prefix(packets, ids.drop_last(), k);
        assert(ids.drop_last().subrange(0, k) =~= ids.subrange(0, k));
        let p = plan_events(packets, ids.subrange(0, k));
        assert(plan_events(packets, ids).subrange(0, p.len() as int) =~= plan_events(
            packets,
            ids.drop_last(),
        ).subrange(0, p.len() as int));
    }
}

proof fn lemma_plan_events_step(packets: Seq<IntactPacketV1>, ids: Seq<BoundedSelectorPacketIdV1>, i: int)
    requires
        0 <= i < ids.len(),
    ensures
        plan_events(packets, ids.subrange(0, i + 1)) == plan_events(packets, ids.subrange(0, i)) + packet_events(
            packets,
            ids[i],
        ),
{
    assert(ids.subrange(0, i + 1).drop_last() =~= ids.subrange(0, i));
}

fn push_ids(buf: &mut Vec<u8>, ids: &Vec<BoundedSelectorPacketIdV1>)
    ensures
        final(buf)@ == old(buf)@ + ids_bytes(id_bytes(ids@)),
{
    let mut i: usize = 0;
    while i < ids.len()
        invariant
            i <= ids.len(),
            buf@ == old(buf)@ + ids_bytes(id_bytes(ids@.subrange(0, i as int))),
        decreases ids.len() - i,
    {
        push_digest_field(buf, &ids[i].0);
        proof {
            assert(id_bytes(ids@.subrange(0, i + 1)).drop_last() =~= id_bytes(ids@.subrange(0, i as int)));
        }
        i = i + 1;
        proof {
            assert(buf@ =~= old(buf)@ + ids_bytes(id_bytes(ids@.subrange(0, i as int))));
        }
    }
    proof {
        assert(ids@.subrange(0, i as int) =~= ids@);
    }
}

fn push_events(buf: &mut Vec<u8>, events: &Vec<EventId>)
    ensures
        final(buf)@ == old(buf)@ + events_bytes(events@),
{
    let mut i: usize = 0;
    while i < events.len()
        invariant
            i <= events.len(),
            buf@ == old(buf)@ + events_bytes(events@.subrange(0, i as int)),
        decreases events.len() - i,
    {
        let mut field: Vec<u8> = Vec::new();
        push_u64_le(&mut field, events[i].0);
        proof {
            assert(field@ =~= u64_le(events@[i as int].0));
        }
        push_field(buf, field.as_slice());
        proof {
            assert(events@.subrange(0, i + 1).drop_last() =~= events@.subrange(0, i as int));
        }
        i = i + 1;
        proof {
            assert(buf@ =~= old(buf)@ + events_bytes(events@.subrange(0, i as int)));
        }
    }
    proof {
        assert(events@.subrange(0, i as int) =~= events@);
    }
}

/// Freeze one plan: its packet identities in ascending byte order, the events
/// those packets carry in ascending order, and a digest over both and the
/// plan's resources. `verified_gain` is the objective's own normalized gain
/// numerator for the plan's optional packets, `None` where the objective
/// rejects them; it must equal the claimed gain.
pub fn freeze_plan(
    problem: &SelectionProblemV1,
    source: CostMatchedPlanSourceV1,
    objective_gain_numerator: u64,
    selected_packet_ids: &Vec<BoundedSelectorPacketIdV1>,
    verified_gain: Option<u64>,
    selected_packet_cost: u64,
    coverage_only_token_cost: u64,
) -> (r: Result<FrozenCostMatchedPlanV1, CostMatchedStressErrorV1>)
    ensures
        freeze_plan_result(
            *problem,
            source,
            objective_gain_numerator,
            selected_packet_ids@,
            verified_gain,
            selected_packet_cost,
            coverage_only_token_cost,
            r,
        ),
        plan_result_view(r) == spec_freeze_plan(
            *problem,
            source,
            objective_gain_numerator,
            selected_packet_ids@,
            verified_gain,
            selected_packet_cost,
            coverage_only_token_cost,
        ),
{
    let r = freeze_plan_checked(
        problem,
        source,
        objective_gain_numerator,
        selected_packet_ids,
        verified_gain,
        selected_packet_cost,
        coverage_only_token_cost,
    );
    proof {
        lemma_freeze_plan_determined(
            *problem,
            source,
            objective_gain_numerator,
            selected_packet_ids@,
            verified_gain,
            selected_packet_cost,
            coverage_only_token_cost,
            r,
        );
    }
    r
}

fn freeze_plan_checked(
    problem: &SelectionProblemV1,
    source: CostMatchedPlanSourceV1,
    objective_gain_numerator: u64,
    selected_packet_ids: &Vec<BoundedSelectorPacketIdV1>,
    verified_gain: Option<u64>,
    selected_packet_cost: u64,
    coverage_only_token_cost: u64,
) -> (r: Result<FrozenCostMatchedPlanV1, CostMatchedStressErrorV1>)
    ensures
        freeze_plan_result(
            *problem,
            source,
            objective_gain_numerator,
            selected_packet_ids@,
            verified_gain,
            selected_packet_cost,
            coverage_only_token_cost,
            r,
        ),
{
    let ghost ids = selected_packet_ids@;
    let ghost packets = problem.packets@;
    let ghost all = plan_events(packets, ids);
    let sorted = match sort_packet_ids(selected_packet_ids) {
        Some(v) => v,
        None => {
            return Err(CostMatchedStressErrorV1::ObjectiveContract);
        },
    };
    let mut events: Vec<EventId> = Vec::new();
    let mut i: usize = 0;
    while i < selected_packet_ids.len()
        invariant
            i <= selected_packet_ids.len(),
            ids == selected_packet_ids@,
            packets == problem.packets@,
            all == plan_events(packets, ids),
            ids_distinct(ids),
            ids_ascending(sorted@),
            same_ids(sorted@, ids),
            sorted@.len() == ids.len(),
            all_known(packets, ids.subrange(0, i as int)),
            events_ascending(events@),
            events@.len() == plan_events(packets, ids.subrange(0, i as int)).len(),
            events_distinct(plan_events(packets, ids.subrange(0, i as int))),
            forall|e: EventId| events@.contains(e) <==> plan_events(packets, ids.subrange(0, i as int)).contains(e),
        decreases selected_packet_ids.len() - i,
    {
        let pos = match find_packet_position(&problem.packets, &selected_packet_ids[i]) {
            Some(p) => p,
            None => {
                proof {
                    assert(!known_packet(packets, ids[i as int]));
                }
                return Err(CostMatchedStressErrorV1::ObjectiveContract);
            },
        };
        let ghost pre = plan_events(packets, ids.subrange(0, i as int));
        let ghost evs = packet_events(packets, ids[i as int]);
        proof {
            lemma_plan_events_step(packets, ids, i as int);
            lemma_plan_events_prefix(packets, ids, i + 1);
            assert(pre.len() + evs.len() == plan_events(packets, ids.subrange(0, i + 1)).len());
            assert(evs == problem.packets@[pos as int].event_ids@);
        }
        let packet_events_vec = &problem.packets[pos].event_ids;
        let mut j: usize = 0;
        while j < packet_events_vec.len()
            invariant
                j <= packet_events_vec.len(),
                packet_events_vec@ == evs,
                events_ascending(events@),
                events@.len() == pre.len() + j,
                events_distinct(pre + evs.subrange(0, j as int)),
                forall|e: EventId| events@.contains(e) <==> (pre + evs.subrange(0, j as int)).contains(e),
                pre.len() + evs.len() <= all.len(),
                all.subrange(0, (pre.len() + evs.len()) as int) == pre + evs,
                all == plan_events(packets, ids),
                packets == problem.packets@,
                ids == selected_packet_ids@,
            decreases packet_events_vec.len() - j,
        {
            let e = packet_events_vec[j];
            let ghost cur = pre + evs.subrange(0, j as int);
            let inserted = insert_event_id(&mut events, e);
            proof {
                assert(pre + evs.subrange(0, j + 1) =~= cur.push(e));
            }
            if !inserted {
                proof {
                    let q = choose|q: int| 0 <= q < cur.len() && cur[q] == e;
                    let nxt = cur.push(e);
                    assert(nxt[q] == nxt[cur.len() as int]);
                    assert(nxt =~= (pre + evs).subrange(0, nxt.len() as int));
                    assert(all[q] == (pre + evs)[q]);
                    assert(all[cur.len() as int] == (pre + evs)[cur.len() as int]);
                    assert(all[q] == all[cur.len() as int]);
                    assert(!events_distinct(all));
                }
                return Err(CostMatchedStressErrorV1::ObjectiveContract);
            }
            proof {
                let nxt = cur.push(e);
                assert forall|x: EventId| events@.contains(x) <==> nxt.contains(x) by {
                    if x == e {
                        assert(nxt[cur.len() as int] == e);
                    }
                    if cur.contains(x) {
                        let q = choose|q: int| 0 <= q < cur.len() && cur[q] == x;
                        assert(nxt[q] == x);
                    }
                    if nxt.contains(x) {
                        let q = choose|q: int| 0 <= q < nxt.len() && nxt[q] == x;
                        if q < cur.len() {
                            assert(cur[q] == x);
                        }
                    }
                }
                assert forall|a: int, b: int| 0 <= a < b < nxt.len() implies (#[trigger] nxt[a]) != (#[trigger] nxt[b]) by {
                    if b < cur.len() {
                        assert(nxt[a] == cur[a] && nxt[b] == cur[b]);
                    } else {
                        assert(nxt[a] == cur[a]);
                        if cur[a] == e {
                            assert(cur.contains(e));
                        }
                    }
                }
            }
            j = j + 1;
        }
        proof {
            assert(evs.subrange(0, j as int) =~= evs);
            assert forall|k: int| 0 <= k < i + 1 implies known_packet(packets, #[trigger] ids.subrange(0, i + 1)[k]) by {
                if k < i {
                    assert(ids.subrange(0, i + 1)[k] == ids.subrange(0, i as int)[k]);
                }
            }
        }
        i = i + 1;
    }
    proof {
        assert(ids.subrange(0, i as int) =~= ids);
    }
    let mut m: usize = 0;
    while m < problem.mandatory_packet_ids.len()
        invariant
            m <= problem.mandatory_packet_ids.len(),
            ids == selected_packet_ids@,
            plan_shape_ok(*problem, ids),
            ids_ascending(sorted@),
            same_ids(sorted@, ids),
            sorted@.len() == ids.len(),
            events_ascending(events@),
            events@.len() == all.len(),
            all == plan_events(problem.packets@, ids),
            forall|e: EventId| events@.contains(e) <==> all.contains(e),
            forall|q: int| 0 <= q < m ==> has_packet(ids, #[trigger] problem.mandatory_packet_ids@[q]),
        decreases problem.mandatory_packet_ids.len() - m,
    {
        if !contains_packet(selected_packet_ids, &problem.mandatory_packet_ids[m]) {
            return Err(CostMatchedStressErrorV1::ResourceEnvelopeViolation);
        }
        m = m + 1;
    }
    match verified_gain {
        Some(g) => {
            if g != objective_gain_numerator {
                return Err(CostMatchedStressErrorV1::ObjectiveContract);
            }
        },
        None => {
            return Err(CostMatchedStressErrorV1::ObjectiveContract);
        },
    }
    let mut message: Vec<u8> = Vec::new();
    push_field(&mut message, PUBLIC_PLAN_DOMAIN_V1.as_bytes());
    message.push(plan_source_code(source));
    push_u64_le(&mut message, objective_gain_numerator);
    push_u64_le(&mut message, sorted.len() as u64);
    push_ids(&mut message, &sorted);
    push_u64_le(&mut message, events.len() as u64);
    push_events(&mut message, &events);
    push_u64_le(&mut message, selected_packet_cost);
    push_u64_le(&mut message, coverage_only_token_cost);
    let digest = sha256(message.as_slice());
    proof {
        assert(message@ =~= plan_message(
            source,
            objective_gain_numerator,
            id_bytes(sorted@),
            events@,
            selected_packet_cost,
            coverage_only_token_cost,
        ));
    }
    Ok(
        FrozenCostMatchedPlanV1 {
            digest: ArtifactDigest::from_bytes(digest),
            source,
            objective_gain_numerator,
            selected_packet_ids: sorted,
            selected_event_ids: events,
            selected_packet_cost,
            coverage_only_token_cost,
        },
    )
}

/// What the structured program's frozen outcome holds.
pub enum DpOutcomeView {
    Exact { optimum: FrozenPlanView, work: StructuredDpWorkReceiptV1 },
    Ineligible { reason: StructuredDpIneligibleReasonV1, work: StructuredDpWorkReceiptV1 },
}

impl View for StructuredDpOutcomeV1 {
    type V = DpOutcomeView;

    open spec fn view(&self) -> DpOutcomeView {
        match self {
            StructuredDpOutcomeV1::Exact { optimum, work } => DpOutcomeView::Exact { optimum: optimum@, work: *work },
            StructuredDpOutcomeV1::Ineligible { reason, work } => DpOutcomeView::Ineligible {
                reason: *reason,
                work: *work,
            },
        }
    }
}

pub open spec fn dp_outcome_result_view(
    r: Result<StructuredDpOutcomeV1, CostMatchedStressErrorV1>,
) -> Result<DpOutcomeView, CostMatchedStressErrorV1> {
    match r {
        Ok(o) => Ok(o@),
        Err(e) => Err(e),
    }
}

/// The structured program's frozen outcome on a problem under an envelope.
/// `gains` and `joint_gain` are the objective's gains of each optional packet
/// alone and of all together; `order_gain` is its gain for the optimum's
/// optional packets in the program's order and `plan_gain` for them as the
/// frozen plan lists them.
#[verifier::opaque]
pub open spec fn spec_structured_dp_outcome(
    problem: SelectionProblemV1,
    envelope: CostMatchedResourceEnvelopeV1,
    gains: Seq<u64>,
    joint_gain: u64,
    order_gain: Option<u64>,
    plan_gain: Option<u64>,
) -> Result<DpOutcomeView, CostMatchedStressErrorV1> {
    let optional = optional_positions(problem.packets@, problem.mandatory_packet_ids@, problem.packets.len() as int);
    if optional.len() > STRUCTURED_DP_MAX_OPTIONAL_PACKETS_V1 {
        Ok(
            DpOutcomeView::Ineligible {
                reason: StructuredDpIneligibleReasonV1::OptionalPacketCap,
                work: spec_structured_dp_work(0, 0),
            },
        )
    } else if saturation_couples(problem) {
        Ok(
            DpOutcomeView::Ineligible {
                reason: StructuredDpIneligibleReasonV1::NonAdditiveSaturation,
                work: spec_structured_dp_work(0, 0),
            },
        )
    } else if gain_total(gains, gains.len() as int) > u64::MAX {
        Err(CostMatchedStressErrorV1::ArithmeticOverflow)
    } else if gain_total(gains, gains.len() as int) != joint_gain {
        Ok(
            DpOutcomeView::Ineligible {
                reason: StructuredDpIneligibleReasonV1::NonAdditiveSaturation,
                work: spec_structured_dp_work(0, 0),
            },
        )
    } else if envelope.selected_packet_cost_cap < envelope.mandatory_packet_cost {
        Err(CostMatchedStressErrorV1::ResourceEnvelopeViolation)
    } else {
        let items = dp_items(problem, optional, gains);
        let last = run_items(
            items,
            (envelope.selected_packet_cost_cap - envelope.mandatory_packet_cost) as u64,
            envelope.coverage_only_token_cost_cap,
            dp_initial_run(),
            0,
        );
        let work = spec_structured_dp_work(last.high_water as u64, last.attempts);
        match last.stop {
            Some(DpStopV1::Failed(e)) => Err(e),
            Some(DpStopV1::Ineligible(reason)) => Ok(DpOutcomeView::Ineligible { reason, work }),
            None => if last.states.len() == 0 {
                Err(CostMatchedStressErrorV1::ObjectiveContract)
            } else {
                let best = dp_best_upto(last.states, last.states.len() as int);
                let optional_ids = best.indices.map_values(|i: usize| items[i as int].packet_id);
                if order_gain != Some(best.gain) {
                    Err(CostMatchedStressErrorV1::ObjectiveContract)
                } else if problem.mandatory_cost + best.cost > u64::MAX {
                    Err(CostMatchedStressErrorV1::ArithmeticOverflow)
                } else {
                    match spec_freeze_plan(
                        problem,
                        CostMatchedPlanSourceV1::StructuredExactDp,
                        best.gain,
                        problem.mandatory_packet_ids@ + optional_ids,
                        plan_gain,
                        (problem.mandatory_cost + best.cost) as u64,
                        best.coverage_cost,
                    ) {
                        Err(e) => Err(e),
                        Ok(optimum) => Ok(DpOutcomeView::Exact { optimum, work }),
                    }
                }
            },
        }
    }
}

/// Run the structured program and freeze its optimum as a plan.
pub fn evaluate_structured_exact_dp_outcome_v1(
    problem: &SelectionProblemV1,
    envelope: CostMatchedResourceEnvelopeV1,
    gains: &Vec<u64>,
    joint_gain: u64,
    order_gain: Option<u64>,
    plan_gain: Option<u64>,
) -> (r: Result<StructuredDpOutcomeV1, CostMatchedStressErrorV1>)
    requires
        gains.len() == optional_positions(
            problem.packets@,
            problem.mandatory_packet_ids@,
            problem.packets.len() as int,
        ).len(),
    ensures
        dp_outcome_result_view(r) == spec_structured_dp_outcome(
            *problem,
            envelope,
            gains@,
            joint_gain,
            order_gain,
            plan_gain,
        ),
{
    reveal(spec_structured_dp_outcome);
    let decision = evaluate_structured_exact_dp_v1(problem, envelope, gains, joint_gain);
    match decision {
        Err(e) => Err(e),
        Ok(StructuredDpDecisionV1::Ineligible { reason, work }) => Ok(StructuredDpOutcomeV1::Ineligible { reason, work }),
        Ok(StructuredDpDecisionV1::Optimal { items, best, work }) => {
            let ghost optional = optional_positions(
                problem.packets@,
                problem.mandatory_packet_ids@,
                problem.packets.len() as int,
            );
            let ghost cap = (envelope.selected_packet_cost_cap - envelope.mandatory_packet_cost) as u64;
            proof {
                lemma_structured_dp_sound(items@, cap, envelope.coverage_only_token_cost_cap);
            }
            let ghost optional_ids = best@.indices.map_values(|i: usize| items@[i as int].packet_id);
            let mut selected = copy_vec(&problem.mandatory_packet_ids);
            let mut k: usize = 0;
            while k < best.selected_item_indices.len()
                invariant
                    k <= best.selected_item_indices.len(),
                    best.selected_item_indices@ == best@.indices,
                    forall|a: int| 0 <= a < best@.indices.len() ==> best@.indices[a] < items@.len(),
                    optional_ids == best@.indices.map_values(|i: usize| items@[i as int].packet_id),
                    selected@ == problem.mandatory_packet_ids@ + optional_ids.subrange(0, k as int),
                decreases best.selected_item_indices.len() - k,
            {
                let idx = best.selected_item_indices[k];
                selected.push(items[idx].packet_id);
                k = k + 1;
                proof {
                    assert(selected@ =~= problem.mandatory_packet_ids@ + optional_ids.subrange(0, k as int));
                }
            }
            proof {
                assert(optional_ids.subrange(0, k as int) =~= optional_ids);
            }
            if order_gain != Some(best.gain) {
                return Err(CostMatchedStressErrorV1::ObjectiveContract);
            }
            let cost = match problem.mandatory_cost.checked_add(best.cost) {
                Some(c) => c,
                None => {
                    return Err(CostMatchedStressErrorV1::ArithmeticOverflow);
                },
            };
            match freeze_plan(
                problem,
                CostMatchedPlanSourceV1::StructuredExactDp,
                best.gain,
                &selected,
                plan_gain,
                cost,
                best.coverage_cost,
            ) {
                Err(e) => Err(e),
                Ok(optimum) => Ok(StructuredDpOutcomeV1::Exact { optimum, work }),
            }
        },
    }
}

/// Domain that opens every frozen case digest.
pub const PUBLIC_CASE_DOMAIN_V1: &'static str = "evidentrail/bench/cost-matched-selector-stress-case/v1\0";

/// What the production selector selected for a problem.
pub struct ProductionSelectionV1 {
    pub objective_gain_numerator: u64,
    pub selected_packet_ids: Vec<BoundedSelectorPacketIdV1>,
    pub selected_packet_cost: u64,
    pub coverage_only_token_cost: u64,
}

/// The production selector's answer on a problem: a selection, a terminal
/// request for more budget, or a refusal of the problem.
pub enum ProductionDecisionV1 {
    Selected(ProductionSelectionV1),
    NeedsMore,
    Rejected,
}

/// The selection objective's own gains for the packet sets a case freezes:
/// production's plan, the beam's acceptance order and its plan, production's
/// plan again as the fallback, each optional packet alone and all of them
/// together, and the structured optimum in program order and as a plan.
#[derive(Debug)]
pub struct CaseObjectiveGainsV1 {
    pub production_plan: Option<u64>,
    pub beam_order: Option<u64>,
    pub beam_plan: Option<u64>,
    pub fallback_plan: Option<u64>,
    pub dp_items: Vec<u64>,
    pub dp_joint: u64,
    pub dp_order: Option<u64>,
    pub dp_plan: Option<u64>,
}

/// What a frozen case holds.
pub struct FrozenCaseView {
    pub digest: Seq<u8>,
    pub case: CostMatchedStressCaseV1,
    pub problem_digest: Seq<u8>,
    pub optional_packet_count: u64,
    pub event_universe: Seq<EventId>,
    pub envelope: CostMatchedResourceEnvelopeV1,
    pub production: FrozenPlanView,
    pub challenger: FrozenPlanView,
    pub beam_bounds: BoundedSelectorSearchBoundsV1,
    pub beam_observation: BoundedSelectorSearchObservationV1,
    pub structured_dp: DpOutcomeView,
    pub objective_relation: CostMatchedObjectiveRelationV1,
    pub selected_cost_relation: CostMatchedCostRelationV1,
    pub coverage_cost_relation: CostMatchedCostRelationV1,
}

impl View for FrozenCostMatchedStressCaseV1 {
    type V = FrozenCaseView;

    open spec fn view(&self) -> FrozenCaseView {
        FrozenCaseView {
            digest: self.digest.0@,
            case: self.case,
            problem_digest: self.problem_digest.0@,
            optional_packet_count: self.optional_packet_count,
            event_universe: self.event_universe@,
            envelope: self.envelope,
            production: self.production@,
            challenger: self.challenger@,
            beam_bounds: self.beam_bounds,
            beam_observation: self.beam_observation,
            structured_dp: self.structured_dp@,
            objective_relation: self.objective_relation,
            selected_cost_relation: self.selected_cost_relation,
            coverage_cost_relation: self.coverage_cost_relation,
        }
    }
}

pub open spec fn case_result_view(
    r: Result<FrozenCostMatchedStressCaseV1, CostMatchedStressErrorV1>,
) -> Result<FrozenCaseView, CostMatchedStressErrorV1> {
    match r {
        Ok(c) => Ok(c@),
        Err(e) => Err(e),
    }
}

/// A candidate plan beats the current one: higher objective, then lower
/// selected cost, lower coverage-only cost, fewer packets, and finally the
/// lexicographically smaller packet list.
pub open spec fn plan_view_is_better(candidate: FrozenPlanView, current: FrozenPlanView) -> bool {
    crate::bounded_selector_challenger::then_order(
        crate::bounded_selector_challenger::int_order(
            candidate.objective_gain_numerator as int,
            current.objective_gain_numerator as int,
        ),
        crate::bounded_selector_challenger::then_order(
            crate::bounded_selector_challenger::int_order(
                current.selected_packet_cost as int,
                candidate.selected_packet_cost as int,
            ),
            crate::bounded_selector_challenger::then_order(
                crate::bounded_selector_challenger::int_order(
                    current.coverage_only_token_cost as int,
                    candidate.coverage_only_token_cost as int,
                ),
                crate::bounded_selector_challenger::then_order(
                    crate::bounded_selector_challenger::int_order(
                        current.selected_packet_ids.len() as int,
                        candidate.selected_packet_ids.len() as int,
                    ),
                    crate::bounded_selector_challenger::ids_order(
                        current.selected_packet_ids,
                        candidate.selected_packet_ids,
                    ),
                ),
            ),
        ),
    ) == 1
}

/// The plan stays within the envelope.
pub open spec fn plan_within(plan: FrozenPlanView, envelope: CostMatchedResourceEnvelopeV1) -> bool {
    plan.selected_packet_cost <= envelope.selected_packet_cost_cap && plan.coverage_only_token_cost
        <= envelope.coverage_only_token_cost_cap
}

/// The events of every packet of the problem, in problem order.
pub open spec fn universe_events(packets: Seq<IntactPacketV1>) -> Seq<EventId>
    decreases packets.len(),
{
    if packets.len() == 0 {
        Seq::empty()
    } else {
        universe_events(packets.drop_last()) + packets.last().event_ids@
    }
}

pub open spec fn envelope_bytes(envelope: CostMatchedResourceEnvelopeV1) -> Seq<u8> {
    u64_le(envelope.selected_packet_cost_cap) + u64_le(envelope.coverage_only_token_cost_cap) + u64_le(
        envelope.mandatory_packet_cost,
    ) + u64_le(envelope.reserved_fixed_overhead)
}

pub open spec fn beam_work_bytes(
    bounds: BoundedSelectorSearchBoundsV1,
    observation: BoundedSelectorSearchObservationV1,
) -> Seq<u8> {
    u64_le(bounds.state_slot_cap) + u64_le(bounds.transition_attempt_cap) + u64_le(bounds.depth_cap) + (match observation.transition_attempts {
        Some(v) => seq![1u8] + u64_le(v),
        None => seq![0u8],
    }) + u64_le(observation.retained_state_high_water) + seq![
        if observation.transition_cap_reached {
            1u8
        } else {
            0u8
        },
    ]
}

pub open spec fn dp_work_bytes(work: StructuredDpWorkReceiptV1) -> Seq<u8> {
    u64_le(work.optional_packet_cap) + u64_le(work.state_slot_cap) + u64_le(work.transition_attempt_cap) + u64_le(
        work.retained_state_high_water,
    ) + u64_le(work.transition_attempts)
}

pub open spec fn dp_outcome_bytes(outcome: DpOutcomeView) -> Seq<u8> {
    match outcome {
        DpOutcomeView::Exact { optimum, work } => seq![0u8] + framed(optimum.digest) + dp_work_bytes(work),
        DpOutcomeView::Ineligible { reason, work } => seq![1u8, spec_dp_ineligible_code(reason)] + dp_work_bytes(
            work,
        ),
    }
}

/// The message whose digest commits to a frozen case.
pub open spec fn case_message(
    case: CostMatchedStressCaseV1,
    problem_digest: Seq<u8>,
    optional_packet_count: u64,
    event_universe: Seq<EventId>,
    envelope: CostMatchedResourceEnvelopeV1,
    production_digest: Seq<u8>,
    challenger_digest: Seq<u8>,
    beam_bounds: BoundedSelectorSearchBoundsV1,
    beam_observation: BoundedSelectorSearchObservationV1,
    structured_dp: DpOutcomeView,
    objective_relation: CostMatchedObjectiveRelationV1,
    selected_cost_relation: CostMatchedCostRelationV1,
    coverage_cost_relation: CostMatchedCostRelationV1,
) -> Seq<u8> {
    framed(encode_utf8(PUBLIC_CASE_DOMAIN_V1@)) + framed(encode_utf8(case.spec_code())) + framed(
        encode_utf8(case.spec_family().spec_code()),
    ) + framed(problem_digest) + u64_le(optional_packet_count) + u64_le(event_universe.len() as u64)
        + events_bytes(event_universe) + envelope_bytes(envelope) + framed(production_digest) + framed(
        challenger_digest,
    ) + beam_work_bytes(beam_bounds, beam_observation) + dp_outcome_bytes(structured_dp) + seq![
        spec_objective_relation_code(objective_relation),
        spec_cost_relation_code(selected_cost_relation),
        spec_cost_relation_code(coverage_cost_relation),
    ]
}

/// The case after its structured outcome: the relations and the digest.
#[verifier::opaque]
pub open spec fn spec_case_tail(
    case: CostMatchedStressCaseV1,
    problem: SelectionProblemV1,
    problem_digest: Seq<u8>,
    envelope: CostMatchedResourceEnvelopeV1,
    production: FrozenPlanView,
    challenger: FrozenPlanView,
    beam_bounds: BoundedSelectorSearchBoundsV1,
    beam_observation: BoundedSelectorSearchObservationV1,
    dp: DpOutcomeView,
) -> Result<FrozenCaseView, CostMatchedStressErrorV1> {
    if dp matches DpOutcomeView::Exact { optimum, .. } && !plan_within(optimum, envelope) {
        Err(CostMatchedStressErrorV1::ResourceEnvelopeViolation)
    } else if dp matches DpOutcomeView::Exact { optimum, .. } && optimum.objective_gain_numerator
        < challenger.objective_gain_numerator {
        Err(CostMatchedStressErrorV1::ObjectiveContract)
    } else {
        let count = (problem.packets.len() - problem.mandatory_packet_ids.len()) as u64;
        let universe = universe_events(problem.packets@);
        let objective_relation = if challenger.objective_gain_numerator > production.objective_gain_numerator {
            CostMatchedObjectiveRelationV1::ChallengerBetter
        } else {
            CostMatchedObjectiveRelationV1::Equal
        };
        let selected_cost_relation = if challenger.selected_packet_cost < production.selected_packet_cost {
            CostMatchedCostRelationV1::ChallengerLower
        } else {
            CostMatchedCostRelationV1::Equal
        };
        let coverage_cost_relation = if challenger.coverage_only_token_cost < production.coverage_only_token_cost {
            CostMatchedCostRelationV1::ChallengerLower
        } else {
            CostMatchedCostRelationV1::Equal
        };
        Ok(
            FrozenCaseView {
                digest: sha256_spec(
                    case_message(
                        case,
                        problem_digest,
                        count,
                        universe,
                        envelope,
                        production.digest,
                        challenger.digest,
                        beam_bounds,
                        beam_observation,
                        dp,
                        objective_relation,
                        selected_cost_relation,
                        coverage_cost_relation,
                    ),
                ),
                case,
                problem_digest,
                optional_packet_count: count,
                event_universe: universe,
                envelope,
                production,
                challenger,
                beam_bounds,
                beam_observation,
                structured_dp: dp,
                objective_relation,
                selected_cost_relation,
                coverage_cost_relation,
            },
        )
    }
}

/// Freezing one stress case, as a function of its problem, production's
/// decision and the objective's gains.
pub open spec fn spec_freeze_case(
    case: CostMatchedStressCaseV1,
    problem: SelectionProblemV1,
    problem_digest: Seq<u8>,
    production: ProductionDecisionV1,
    gains: CaseObjectiveGainsV1,
) -> Result<FrozenCaseView, CostMatchedStressErrorV1> {
    if problem.packets.len() < problem.mandatory_packet_ids.len() || problem.packets.len()
        - problem.mandatory_packet_ids.len() < COST_MATCHED_STRESS_MIN_OPTIONAL_PACKETS_V1 {
        Err(CostMatchedStressErrorV1::FixtureInvariant)
    } else {
        match production {
            ProductionDecisionV1::Rejected => Err(CostMatchedStressErrorV1::ProductionSelection),
            ProductionDecisionV1::NeedsMore => Err(CostMatchedStressErrorV1::ProductionTerminal),
            ProductionDecisionV1::Selected(sel) => match spec_freeze_plan(
                problem,
                CostMatchedPlanSourceV1::Production,
                sel.objective_gain_numerator,
                sel.selected_packet_ids@,
                gains.production_plan,
                sel.selected_packet_cost,
                sel.coverage_only_token_cost,
            ) {
                Err(e) => Err(e),
                Ok(prod) => {
                    let envelope = CostMatchedResourceEnvelopeV1 {
                        selected_packet_cost_cap: prod.selected_packet_cost,
                        coverage_only_token_cost_cap: prod.coverage_only_token_cost,
                        mandatory_packet_cost: problem.mandatory_cost,
                        reserved_fixed_overhead: problem.reserved_fixed_overhead,
                    };
                    match spec_cost_matched_beam(
                        problem,
                        envelope.selected_packet_cost_cap,
                        envelope.coverage_only_token_cost_cap,
                        gains.beam_order,
                    ) {
                        Err(_) => Err(CostMatchedStressErrorV1::BeamEvaluation),
                        Ok(beam) => match spec_freeze_plan(
                            problem,
                            CostMatchedPlanSourceV1::OrderAwareBeam,
                            beam.objective_gain_numerator,
                            beam.selected_packet_ids,
                            gains.beam_plan,
                            beam.selected_packet_cost,
                            beam.coverage_only_token_cost,
                        ) {
                            Err(e) => Err(e),
                            Ok(beam_plan) => match (if plan_view_is_better(beam_plan, prod) {
                                Ok(beam_plan)
                            } else {
                                spec_freeze_plan(
                                    problem,
                                    CostMatchedPlanSourceV1::ProductionFallback,
                                    prod.objective_gain_numerator,
                                    prod.selected_packet_ids,
                                    gains.fallback_plan,
                                    prod.selected_packet_cost,
                                    prod.coverage_only_token_cost,
                                )
                            }) {
                                Err(e) => Err(e),
                                Ok(challenger) => if !plan_within(challenger, envelope) {
                                    Err(CostMatchedStressErrorV1::ResourceEnvelopeViolation)
                                } else if challenger.objective_gain_numerator < prod.objective_gain_numerator {
                                    Err(CostMatchedStressErrorV1::ObjectiveContract)
                                } else {
                                    match spec_structured_dp_outcome(
                                        problem,
                                        envelope,
                                        gains.dp_items@,
                                        gains.dp_joint,
                                        gains.dp_order,
                                        gains.dp_plan,
                                    ) {
                                        Err(e) => Err(e),
                                        Ok(dp) => spec_case_tail(
                                            case,
                                            problem,
                                            problem_digest,
                                            envelope,
                                            prod,
                                            challenger,
                                            beam.bounds,
                                            beam.observation,
                                            dp,
                                        ),
                                    }
                                },
                            },
                        },
                    }
                },
            },
        }
    }
}

fn push_envelope(buf: &mut Vec<u8>, envelope: CostMatchedResourceEnvelopeV1)
    ensures
        final(buf)@ == old(buf)@ + envelope_bytes(envelope),
{
    push_u64_le(buf, envelope.selected_packet_cost_cap);
    push_u64_le(buf, envelope.coverage_only_token_cost_cap);
    push_u64_le(buf, envelope.mandatory_packet_cost);
    push_u64_le(buf, envelope.reserved_fixed_overhead);
    proof {
        assert(buf@ =~= old(buf)@ + envelope_bytes(envelope));
    }
}

fn push_beam_work(
    buf: &mut Vec<u8>,
    bounds: BoundedSelectorSearchBoundsV1,
    observation: BoundedSelectorSearchObservationV1,
)
    ensures
        final(buf)@ == old(buf)@ + beam_work_bytes(bounds, observation),
{
    push_u64_le(buf, bounds.state_slot_cap);
    push_u64_le(buf, bounds.transition_attempt_cap);
    push_u64_le(buf, bounds.depth_cap);
    let ghost mid = buf@;
    match observation.transition_attempts {
        Some(v) => {
            buf.push(1u8);
            push_u64_le(buf, v);
        },
        None => {
            buf.push(0u8);
        },
    }
    proof {
        assert(buf@ =~= mid + (match observation.transition_attempts {
            Some(v) => seq![1u8] + u64_le(v),
            None => seq![0u8],
        }));
    }
    push_u64_le(buf, observation.retained_state_high_water);
    buf.push(if observation.transition_cap_reached {
        1u8
    } else {
        0u8
    });
    proof {
        assert(buf@ =~= old(buf)@ + beam_work_bytes(bounds, observation));
    }
}

fn push_dp_work(buf: &mut Vec<u8>, work: StructuredDpWorkReceiptV1)
    ensures
        final(buf)@ == old(buf)@ + dp_work_bytes(work),
{
    push_u64_le(buf, work.optional_packet_cap);
    push_u64_le(buf, work.state_slot_cap);
    push_u64_le(buf, work.transition_attempt_cap);
    push_u64_le(buf, work.retained_state_high_water);
    push_u64_le(buf, work.transition_attempts);
    proof {
        assert(buf@ =~= old(buf)@ + dp_work_bytes(work));
    }
}

fn push_dp_outcome(buf: &mut Vec<u8>, outcome: &StructuredDpOutcomeV1)
    ensures
        final(buf)@ == old(buf)@ + dp_outcome_bytes(outcome@),
{
    match outcome {
        StructuredDpOutcomeV1::Exact { optimum, work } => {
            buf.push(0u8);
            push_digest_field(buf, &optimum.digest.0);
            push_dp_work(buf, *work);
        },
        StructuredDpOutcomeV1::Ineligible { reason, work } => {
            buf.push(1u8);
            buf.push(dp_ineligible_code(*reason));
            push_dp_work(buf, *work);
        },
    }
    proof {
        assert(buf@ =~= old(buf)@ + dp_outcome_bytes(outcome@));
    }
}

fn universe_of(packets: &Vec<IntactPacketV1>) -> (r: Vec<EventId>)
    ensures
        r@ == universe_events(packets@),
{
    let mut r: Vec<EventId> = Vec::new();
    let mut i: usize = 0;
    while i < packets.len()
        invariant
            i <= packets.len(),
            r@ == universe_events(packets@.subrange(0, i as int)),
        decreases packets.len() - i,
    {
        let mut j: usize = 0;
        let ghost before = r@;
        while j < packets[i].event_ids.len()
            invariant
                i < packets.len(),
                j <= packets@[i as int].event_ids.len(),
                r@ == before + packets@[i as int].event_ids@.subrange(0, j as int),
            decreases packets@[i as int].event_ids.len() - j,
        {
            r.push(packets[i].event_ids[j]);
            j = j + 1;
            proof {
                assert(r@ =~= before + packets@[i as int].event_ids@.subrange(0, j as int));
            }
        }
        proof {
            assert(packets@[i as int].event_ids@.subrange(0, j as int) =~= packets@[i as int].event_ids@);
            assert(packets@.subrange(0, i + 1).drop_last() =~= packets@.subrange(0, i as int));
        }
        i = i + 1;
    }
    proof {
        assert(packets@.subrange(0, i as int) =~= packets@);
    }
    r
}

fn digest32(bytes: [u8; 32]) -> (r: FrozenCostMatchedStressDigestV1)
    ensures
        r.0 == bytes,
{
    FrozenCostMatchedStressDigestV1(bytes)
}

fn case_digest_message(
    case: CostMatchedStressCaseV1,
    problem_digest: &ArtifactDigest,
    optional_packet_count: u64,
    event_universe: &Vec<EventId>,
    envelope: CostMatchedResourceEnvelopeV1,
    production_digest: &ArtifactDigest,
    challenger_digest: &ArtifactDigest,
    beam_bounds: BoundedSelectorSearchBoundsV1,
    beam_observation: BoundedSelectorSearchObservationV1,
    structured_dp: &StructuredDpOutcomeV1,
    objective_relation: CostMatchedObjectiveRelationV1,
    selected_cost_relation: CostMatchedCostRelationV1,
    coverage_cost_relation: CostMatchedCostRelationV1,
) -> (message: Vec<u8>)
    ensures
        message@ == case_message(
            case,
            problem_digest.0@,
            optional_packet_count,
            event_universe@,
            envelope,
            production_digest.0@,
            challenger_digest.0@,
            beam_bounds,
            beam_observation,
            structured_dp@,
            objective_relation,
            selected_cost_relation,
            coverage_cost_relation,
        ),
{
    let mut message: Vec<u8> = Vec::new();
    push_field(&mut message, PUBLIC_CASE_DOMAIN_V1.as_bytes());
    push_field(&mut message, case.code().as_bytes());
    push_field(&mut message, case.family().code().as_bytes());
    push_digest_field(&mut message, &problem_digest.0);
    push_u64_le(&mut message, optional_packet_count);
    push_u64_le(&mut message, event_universe.len() as u64);
    push_events(&mut message, event_universe);
    push_envelope(&mut message, envelope);
    push_digest_field(&mut message, &production_digest.0);
    push_digest_field(&mut message, &challenger_digest.0);
    push_beam_work(&mut message, beam_bounds, beam_observation);
    push_dp_outcome(&mut message, structured_dp);
    message.push(objective_relation_code(objective_relation));
    message.push(cost_relation_code(selected_cost_relation));
    message.push(cost_relation_code(coverage_cost_relation));
    proof {
        assert(message@ =~= case_message(
            case,
            problem_digest.0@,
            optional_packet_count,
            event_universe@,
            envelope,
            production_digest.0@,
            challenger_digest.0@,
            beam_bounds,
            beam_observation,
            structured_dp@,
            objective_relation,
            selected_cost_relation,
            coverage_cost_relation,
        ));
    }
    message
}

fn freeze_case_tail(
    case: CostMatchedStressCaseV1,
    problem: &SelectionProblemV1,
    problem_digest: ArtifactDigest,
    envelope: CostMatchedResourceEnvelopeV1,
    prod: FrozenCostMatchedPlanV1,
    challenger: FrozenCostMatchedPlanV1,
    beam_bounds: BoundedSelectorSearchBoundsV1,
    beam_observation: BoundedSelectorSearchObservationV1,
    structured_dp: StructuredDpOutcomeV1,
) -> (r: Result<FrozenCostMatchedStressCaseV1, CostMatchedStressErrorV1>)
    requires
        problem.packets.len() >= problem.mandatory_packet_ids.len(),
        plan_within(challenger@, envelope),
        prod.selected_packet_cost == envelope.selected_packet_cost_cap,
        prod.coverage_only_token_cost == envelope.coverage_only_token_cost_cap,
    ensures
        case_result_view(r) == spec_case_tail(
            case,
            *problem,
            problem_digest.0@,
            envelope,
            prod@,
            challenger@,
            beam_bounds,
            beam_observation,
            structured_dp@,
        ),
{
    reveal(spec_case_tail);
    let optional_packet_count = problem.packets.len() - problem.mandatory_packet_ids.len();
    if let StructuredDpOutcomeV1::Exact { optimum, .. } = &structured_dp {
        if let Err(e) = validate_envelope(optimum, envelope) {
            return Err(e);
        }
        if optimum.objective_gain_numerator < challenger.objective_gain_numerator {
            return Err(CostMatchedStressErrorV1::ObjectiveContract);
        }
    }
    let objective_relation = if challenger.objective_gain_numerator > prod.objective_gain_numerator {
        CostMatchedObjectiveRelationV1::ChallengerBetter
    } else {
        CostMatchedObjectiveRelationV1::Equal
    };
    let selected_cost_relation = match cost_relation(prod.selected_packet_cost, challenger.selected_packet_cost) {
        Ok(c) => c,
        Err(e) => {
            return Err(e);
        },
    };
    let coverage_cost_relation = match cost_relation(
        prod.coverage_only_token_cost,
        challenger.coverage_only_token_cost,
    ) {
        Ok(c) => c,
        Err(e) => {
            return Err(e);
        },
    };
    let event_universe = universe_of(&problem.packets);
    let message = case_digest_message(
        case,
        &problem_digest,
        optional_packet_count as u64,
        &event_universe,
        envelope,
        &prod.digest,
        &challenger.digest,
        beam_bounds,
        beam_observation,
        &structured_dp,
        objective_relation,
        selected_cost_relation,
        coverage_cost_relation,
    );
    let digest = sha256(message.as_slice());
    Ok(
        FrozenCostMatchedStressCaseV1 {
            digest: digest32(digest),
            case,
            problem_digest,
            optional_packet_count: optional_packet_count as u64,
            event_universe,
            envelope,
            production: prod,
            challenger,
            beam_bounds: beam_bounds,
            beam_observation: beam_observation,
            structured_dp,
            objective_relation,
            selected_cost_relation,
            coverage_cost_relation,
        },
    )
}

/// Freeze one stress case from its problem, the production selector's
/// decision on it and the selection objective's gains: production's plan sets
/// the resource envelope; the cost-matched beam runs inside it and replaces
/// production only when strictly better; the structured program's outcome is
/// frozen beside them; and a digest commits to all of it.
pub fn freeze_case(
    case: CostMatchedStressCaseV1,
    problem: &SelectionProblemV1,
    problem_digest: ArtifactDigest,
    production: &ProductionDecisionV1,
    gains: &CaseObjectiveGainsV1,
) -> (r: Result<FrozenCostMatchedStressCaseV1, CostMatchedStressErrorV1>)
    requires
        gains.dp_items.len() == optional_positions(
            problem.packets@,
            problem.mandatory_packet_ids@,
            problem.packets.len() as int,
        ).len(),
    ensures
        case_result_view(r) == spec_freeze_case(case, *problem, problem_digest.0@, *production, *gains),
{
    if problem.packets.len() < problem.mandatory_packet_ids.len() {
        return Err(CostMatchedStressErrorV1::FixtureInvariant);
    }
    let optional_packet_count = problem.packets.len() - problem.mandatory_packet_ids.len();
    if optional_packet_count < COST_MATCHED_STRESS_MIN_OPTIONAL_PACKETS_V1 {
        return Err(CostMatchedStressErrorV1::FixtureInvariant);
    }
    let sel = match production {
        ProductionDecisionV1::Rejected => {
            return Err(CostMatchedStressErrorV1::ProductionSelection);
        },
        ProductionDecisionV1::NeedsMore => {
            return Err(CostMatchedStressErrorV1::ProductionTerminal);
        },
        ProductionDecisionV1::Selected(s) => s,
    };
    let prod = match freeze_plan(
        problem,
        CostMatchedPlanSourceV1::Production,
        sel.objective_gain_numerator,
        &sel.selected_packet_ids,
        gains.production_plan,
        sel.selected_packet_cost,
        sel.coverage_only_token_cost,
    ) {
        Ok(p) => p,
        Err(e) => {
            return Err(e);
        },
    };
    let envelope = CostMatchedResourceEnvelopeV1 {
        selected_packet_cost_cap: prod.selected_packet_cost,
        coverage_only_token_cost_cap: prod.coverage_only_token_cost,
        mandatory_packet_cost: problem.mandatory_cost,
        reserved_fixed_overhead: problem.reserved_fixed_overhead,
    };
    let beam = match evaluate_cost_matched_order_aware_beam_v1(
        problem,
        envelope.selected_packet_cost_cap,
        envelope.coverage_only_token_cost_cap,
        gains.beam_order,
    ) {
        Ok(b) => b,
        Err(_) => {
            return Err(CostMatchedStressErrorV1::BeamEvaluation);
        },
    };
    let beam_plan = match freeze_plan(
        problem,
        CostMatchedPlanSourceV1::OrderAwareBeam,
        beam.objective_gain_numerator,
        &beam.selected_packet_ids,
        gains.beam_plan,
        beam.selected_packet_cost,
        beam.coverage_only_token_cost,
    ) {
        Ok(p) => p,
        Err(e) => {
            return Err(e);
        },
    };
    let challenger = if plan_is_better(&beam_plan, &prod) {
        beam_plan
    } else {
        match freeze_plan(
            problem,
            CostMatchedPlanSourceV1::ProductionFallback,
            prod.objective_gain_numerator,
            &prod.selected_packet_ids,
            gains.fallback_plan,
            prod.selected_packet_cost,
            prod.coverage_only_token_cost,
        ) {
            Ok(p) => p,
            Err(e) => {
                return Err(e);
            },
        }
    };
    if let Err(e) = validate_envelope(&prod, envelope) {
        return Err(e);
    }
    if let Err(e) = validate_envelope(&challenger, envelope) {
        return Err(e);
    }
    if challenger.objective_gain_numerator < prod.objective_gain_numerator {
        return Err(CostMatchedStressErrorV1::ObjectiveContract);
    }
    let structured_dp = match evaluate_structured_exact_dp_outcome_v1(
        problem,
        envelope,
        &gains.dp_items,
        gains.dp_joint,
        gains.dp_order,
        gains.dp_plan,
    ) {
        Ok(o) => o,
        Err(e) => {
            return Err(e);
        },
    };
    freeze_case_tail(
        case,
        problem,
        problem_digest,
        envelope,
        prod,
        challenger,
        beam.bounds,
        beam.observation,
        structured_dp,
    )
}

/// Domain that opens the frozen corpus digest.
pub const PUBLIC_CORPUS_DOMAIN_V1: &'static str = "evidentrail/bench/cost-matched-selector-stress-corpus/v1\0";

/// Name and version of the structured exact program's policy.
pub const STRUCTURED_DP_POLICY_NAME_V1: &'static str = "evidentrail/bench/additive-dual-resource-exact-dp";

pub const STRUCTURED_DP_POLICY_VERSION_V1: &'static str = "1";

/// Name and version of the cost-matched challenger's policy.
pub const COST_MATCHED_CHALLENGER_POLICY_NAME_V1: &'static str =
    "evidentrail/bench/cost-matched-order-aware-beam-production-fallback";

pub const COST_MATCHED_CHALLENGER_POLICY_VERSION_V1: &'static str = "1";

/// Everything one case is frozen from.
pub struct CostMatchedCaseInputV1 {
    pub problem: SelectionProblemV1,
    pub problem_digest: ArtifactDigest,
    pub production: ProductionDecisionV1,
    pub gains: CaseObjectiveGainsV1,
}

/// What the frozen corpus holds.
pub struct FrozenCorpusView {
    pub digest: Seq<u8>,
    pub cases: Seq<FrozenCaseView>,
    pub challenger_better_count: u64,
    pub exact_dp_count: u64,
    pub ineligible_count: u64,
}

pub open spec fn frozen_case_views(cases: Seq<FrozenCostMatchedStressCaseV1>) -> Seq<FrozenCaseView> {
    cases.map_values(|c: FrozenCostMatchedStressCaseV1| c@)
}

impl View for FrozenCostMatchedStressCorpusV1 {
    type V = FrozenCorpusView;

    open spec fn view(&self) -> FrozenCorpusView {
        FrozenCorpusView {
            digest: self.digest.0@,
            cases: frozen_case_views(self.cases@),
            challenger_better_count: self.challenger_better_count,
            exact_dp_count: self.exact_dp_count,
            ineligible_count: self.ineligible_count,
        }
    }
}

pub open spec fn corpus_result_view(
    r: Result<FrozenCostMatchedStressCorpusV1, CostMatchedStressErrorV1>,
) -> Result<FrozenCorpusView, CostMatchedStressErrorV1> {
    match r {
        Ok(c) => Ok(c@),
        Err(e) => Err(e),
    }
}

/// The first `k` cases of the closed list, each frozen from its input.
pub open spec fn frozen_cases_prefix(
    inputs: Seq<CostMatchedCaseInputV1>,
    k: int,
) -> Result<Seq<FrozenCaseView>, CostMatchedStressErrorV1>
    decreases k,
{
    if k <= 0 {
        Ok(Seq::empty())
    } else {
        match frozen_cases_prefix(inputs, k - 1) {
            Err(e) => Err(e),
            Ok(done) => match spec_freeze_case(
                CostMatchedStressCaseV1::spec_all()[k - 1],
                inputs[k - 1].problem,
                inputs[k - 1].problem_digest.0@,
                inputs[k - 1].production,
                inputs[k - 1].gains,
            ) {
                Err(e) => Err(e),
                Ok(c) => Ok(done.push(c)),
            },
        }
    }
}

pub open spec fn count_challenger_better(cases: Seq<FrozenCaseView>) -> nat
    decreases cases.len(),
{
    if cases.len() == 0 {
        0
    } else {
        count_challenger_better(cases.drop_last()) + (if cases.last().objective_relation
            == CostMatchedObjectiveRelationV1::ChallengerBetter {
            1nat
        } else {
            0nat
        })
    }
}

pub open spec fn count_exact_dp(cases: Seq<FrozenCaseView>) -> nat
    decreases cases.len(),
{
    if cases.len() == 0 {
        0
    } else {
        count_exact_dp(cases.drop_last()) + (if cases.last().structured_dp is Exact {
            1nat
        } else {
            0nat
        })
    }
}

pub open spec fn case_digests_bytes(cases: Seq<FrozenCaseView>) -> Seq<u8>
    decreases cases.len(),
{
    if cases.len() == 0 {
        Seq::empty()
    } else {
        case_digests_bytes(cases.drop_last()) + framed(cases.last().digest)
    }
}

/// The message whose digest commits to the frozen corpus.
pub open spec fn corpus_message(
    objective_policy_name: Seq<u8>,
    objective_policy_version: Seq<u8>,
    cases: Seq<FrozenCaseView>,
    better: u64,
    exact: u64,
    ineligible: u64,
) -> Seq<u8> {
    framed(encode_utf8(PUBLIC_CORPUS_DOMAIN_V1@)) + framed(objective_policy_name) + framed(objective_policy_version)
        + framed(encode_utf8(STRUCTURED_DP_POLICY_NAME_V1@)) + framed(encode_utf8(STRUCTURED_DP_POLICY_VERSION_V1@))
        + framed(encode_utf8(COST_MATCHED_CHALLENGER_POLICY_NAME_V1@)) + framed(
        encode_utf8(COST_MATCHED_CHALLENGER_POLICY_VERSION_V1@),
    ) + u64_le(BOUNDED_SELECTOR_CHALLENGER_BEAM_WIDTH_V1 as u64) + u64_le(BOUNDED_SELECTOR_CHALLENGER_MAX_DEPTH_V1 as u64)
        + u64_le(BOUNDED_SELECTOR_CHALLENGER_TRANSITION_CAP_V1) + u64_le(cases.len() as u64) + case_digests_bytes(
        cases,
    ) + u64_le(better) + u64_le(exact) + u64_le(ineligible)
}

/// The frozen corpus as a function of its inputs and the objective's policy.
pub open spec fn spec_freeze_corpus(
    inputs: Seq<CostMatchedCaseInputV1>,
    objective_policy_name: Seq<u8>,
    objective_policy_version: Seq<u8>,
) -> Result<FrozenCorpusView, CostMatchedStressErrorV1> {
    if inputs.len() != COST_MATCHED_STRESS_CASE_COUNT_V1 {
        Err(CostMatchedStressErrorV1::CaseSetMismatch)
    } else {
        match frozen_cases_prefix(inputs, inputs.len() as int) {
            Err(e) => Err(e),
            Ok(cases) => {
                let better = count_challenger_better(cases) as u64;
                let exact = count_exact_dp(cases) as u64;
                let ineligible = (cases.len() - count_exact_dp(cases)) as u64;
                Ok(
                    FrozenCorpusView {
                        digest: sha256_spec(
                            corpus_message(
                                objective_policy_name,
                                objective_policy_version,
                                cases,
                                better,
                                exact,
                                ineligible,
                            ),
                        ),
                        cases,
                        challenger_better_count: better,
                        exact_dp_count: exact,
                        ineligible_count: ineligible,
                    },
                )
            },
        }
    }
}

proof fn lemma_prefix_err_stays(inputs: Seq<CostMatchedCaseInputV1>, k: int, n: int, e: CostMatchedStressErrorV1)
    requires
        0 <= k <= n,
        frozen_cases_prefix(inputs, k) == Err::<Seq<FrozenCaseView>, CostMatchedStressErrorV1>(e),
    ensures
        frozen_cases_prefix(inputs, n) == Err::<Seq<FrozenCaseView>, CostMatchedStressErrorV1>(e),
    decreases n - k,
{
    if k < n {
        lemma_prefix_err_stays(inputs, k, n - 1, e);
    }
}

proof fn lemma_counts_bounded(cases: Seq<FrozenCaseView>)
    ensures
        count_challenger_better(cases) <= cases.len(),
        count_exact_dp(cases) <= cases.len(),
    decreases cases.len(),
{
    if cases.len() > 0 {
        lemma_counts_bounded(cases.drop_last());
    }
}

/// Freeze the public corpus: each case of the closed list, in its order, from
/// its input, then the counts and a digest over the policies and every case.
/// `objective_policy_name` and `objective_policy_version` are those that the
/// selection objective publishes.
pub fn freeze_cost_matched_selector_stress_corpus_v1(
    inputs: &Vec<CostMatchedCaseInputV1>,
    objective_policy_name: &[u8],
    objective_policy_version: &[u8],
) -> (r: Result<FrozenCostMatchedStressCorpusV1, CostMatchedStressErrorV1>)
    requires
        forall|i: int|
            0 <= i < inputs.len() ==> (#[trigger] inputs@[i]).gains.dp_items.len() == optional_positions(
                inputs@[i].problem.packets@,
                inputs@[i].problem.mandatory_packet_ids@,
                inputs@[i].problem.packets.len() as int,
            ).len(),
    ensures
        corpus_result_view(r) == spec_freeze_corpus(inputs@, objective_policy_name@, objective_policy_version@),
{
    if inputs.len() != COST_MATCHED_STRESS_CASE_COUNT_V1 {
        return Err(CostMatchedStressErrorV1::CaseSetMismatch);
    }
    let all = CostMatchedStressCaseV1::all();
    let mut cases: Vec<FrozenCostMatchedStressCaseV1> = Vec::new();
    let mut better: u64 = 0;
    let mut exact: u64 = 0;
    let mut i: usize = 0;
    proof {
        assert(frozen_case_views(cases@) =~= Seq::<FrozenCaseView>::empty());
    }
    while i < inputs.len()
        invariant
            i <= inputs.len(),
            inputs.len() == COST_MATCHED_STRESS_CASE_COUNT_V1,
            all@ == CostMatchedStressCaseV1::spec_all(),
            forall|q: int|
                0 <= q < inputs.len() ==> (#[trigger] inputs@[q]).gains.dp_items.len() == optional_positions(
                    inputs@[q].problem.packets@,
                    inputs@[q].problem.mandatory_packet_ids@,
                    inputs@[q].problem.packets.len() as int,
                ).len(),
            frozen_cases_prefix(inputs@, i as int) == Ok::<Seq<FrozenCaseView>, CostMatchedStressErrorV1>(
                frozen_case_views(cases@),
            ),
            better == count_challenger_better(frozen_case_views(cases@)),
            exact == count_exact_dp(frozen_case_views(cases@)),
            cases@.len() == i,
        decreases inputs.len() - i,
    {
        let input = &inputs[i];
        let c = match freeze_case(all[i], &input.problem, input.problem_digest, &input.production, &input.gains) {
            Ok(c) => c,
            Err(e) => {
                proof {
                    lemma_prefix_err_stays(inputs@, i + 1, inputs.len() as int, e);
                }
                return Err(e);
            },
        };
        proof {
            lemma_counts_bounded(frozen_case_views(cases@));
        }
        if c.objective_relation == CostMatchedObjectiveRelationV1::ChallengerBetter {
            better = better + 1;
        }
        if let StructuredDpOutcomeV1::Exact { .. } = &c.structured_dp {
            exact = exact + 1;
        }
        let ghost before = cases@;
        cases.push(c);
        proof {
            assert(frozen_case_views(cases@) =~= frozen_case_views(before).push(cases@[i as int]@));
            assert(frozen_case_views(cases@).drop_last() =~= frozen_case_views(before));
        }
        i = i + 1;
    }
    let ghost views = frozen_case_views(cases@);
    proof {
        lemma_counts_bounded(views);
    }
    let ineligible = cases.len() as u64 - exact;
    let mut message: Vec<u8> = Vec::new();
    push_field(&mut message, PUBLIC_CORPUS_DOMAIN_V1.as_bytes());
    push_field(&mut message, objective_policy_name);
    push_field(&mut message, objective_policy_version);
    push_field(&mut message, STRUCTURED_DP_POLICY_NAME_V1.as_bytes());
    push_field(&mut message, STRUCTURED_DP_POLICY_VERSION_V1.as_bytes());
    push_field(&mut message, COST_MATCHED_CHALLENGER_POLICY_NAME_V1.as_bytes());
    push_field(&mut message, COST_MATCHED_CHALLENGER_POLICY_VERSION_V1.as_bytes());
    push_u64_le(&mut message, BOUNDED_SELECTOR_CHALLENGER_BEAM_WIDTH_V1 as u64);
    push_u64_le(&mut message, BOUNDED_SELECTOR_CHALLENGER_MAX_DEPTH_V1 as u64);
    push_u64_le(&mut message, BOUNDED_SELECTOR_CHALLENGER_TRANSITION_CAP_V1);
    push_u64_le(&mut message, cases.len() as u64);
    let ghost head = message@;
    let mut k: usize = 0;
    while k < cases.len()
        invariant
            k <= cases.len(),
            views == frozen_case_views(cases@),
            message@ == head + case_digests_bytes(views.subrange(0, k as int)),
        decreases cases.len() - k,
    {
        push_digest_field(&mut message, &cases[k].digest.0);
        proof {
            assert(views.subrange(0, k + 1).drop_last() =~= views.subrange(0, k as int));
        }
        k = k + 1;
        proof {
            assert(message@ =~= head + case_digests_bytes(views.subrange(0, k as int)));
        }
    }
    proof {
        assert(views.subrange(0, k as int) =~= views);
    }
    push_u64_le(&mut message, better);
    push_u64_le(&mut message, exact);
    push_u64_le(&mut message, ineligible);
    proof {
        assert(message@ =~= corpus_message(
            objective_policy_name@,
            objective_policy_version@,
            views,
            better,
            exact,
            ineligible,
        ));
    }
    let digest = sha256(message.as_slice());
    Ok(
        FrozenCostMatchedStressCorpusV1 {
            digest: digest32(digest),
            cases,
            challenger_better_count: better,
            exact_dp_count: exact,
            ineligible_count: ineligible,
        },
    )
}

} // verus!
