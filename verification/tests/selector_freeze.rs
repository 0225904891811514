use evidentrail_bench::bounded_selector_challenger::{BoundedSelectorChallengerErrorV1, BoundedSelectorPacketIdV1};
use evidentrail_bench::cost_matched_freeze::{
    cost_relation_code, dp_ineligible_code, freeze_case, freeze_cost_matched_selector_stress_corpus_v1,
    freeze_plan, objective_relation_code, plan_source_code, CaseObjectiveGainsV1, CostMatchedCaseInputV1,
    ProductionDecisionV1, PUBLIC_PLAN_DOMAIN_V1,
};
use evidentrail_bench::cost_matched_selector_stress::{
    compare_recall, evaluate_recall, CostMatchedCostRelationV1, CostMatchedObjectiveRelationV1,
    CostMatchedPlanSourceV1, CostMatchedRecallRelationV1, CostMatchedStressCaseV1, CostMatchedStressErrorV1,
    CostMatchedStressRecallV1, CostMatchedStressRequirementV1, StructuredDpIneligibleReasonV1,
};
use evidentrail_bench::digest::ArtifactDigest;
use evidentrail_bench::ledger::EventId;
use evidentrail_bench::order_aware_beam::evaluate_cost_matched_order_aware_beam_v1;
use evidentrail_bench::packet_order::sort_packet_ids;
use evidentrail_bench::selection_problem::{IntactPacketV1, SelectionProblemV1};
use evidentrail_bench::structured_dp::{run_structured_dp, DpCoreOutcomeV1, DpItemV1};
use sha2::Digest;

fn id(b: u8) -> BoundedSelectorPacketIdV1 {
    BoundedSelectorPacketIdV1([b; 32])
}

fn packet(b: u8, events: &[u64]) -> IntactPacketV1 {
    IntactPacketV1 {
        id: id(b),
        token_upper_bound: 10,
        affinities: Vec::new(),
        event_ids: events.iter().map(|e| EventId(*e)).collect(),
    }
}

fn problem() -> SelectionProblemV1 {
    SelectionProblemV1 {
        facets: Vec::new(),
        packets: vec![packet(3, &[30]), packet(1, &[11, 10]), packet(2, &[20])],
        mandatory_packet_ids: vec![id(1)],
        mandatory_cost: 10,
        reserved_fixed_overhead: 0,
        total_token_budget: 100,
    }
}

fn framed(out: &mut Vec<u8>, bytes: &[u8]) {
    out.extend_from_slice(&(bytes.len() as u64).to_le_bytes());
    out.extend_from_slice(bytes);
}

#[test]
fn packet_ids_sort_by_bytes_and_refuse_duplicates() {
    let sorted = sort_packet_ids(&vec![id(9), id(2), id(5)]).unwrap();
    let firsts: Vec<u8> = sorted.iter().map(|p| p.0[0]).collect();
    assert_eq!(firsts, vec![2, 5, 9]);
    assert!(sort_packet_ids(&vec![id(4), id(7), id(4)]).is_none());
    assert_eq!(sort_packet_ids(&Vec::new()).unwrap().len(), 0);
}

#[test]
fn frozen_plan_is_canonical_and_committed() {
    let p = problem();
    let plan = freeze_plan(&p, CostMatchedPlanSourceV1::OrderAwareBeam, 7, &vec![id(2), id(1)], Some(7), 20, 3)
        .unwrap();
    let firsts: Vec<u8> = plan.selected_packet_ids.iter().map(|x| x.0[0]).collect();
    assert_eq!(firsts, vec![1, 2]);
    assert_eq!(plan.selected_event_ids, vec![EventId(10), EventId(11), EventId(20)]);
    assert_eq!(plan.source, CostMatchedPlanSourceV1::OrderAwareBeam);
    assert_eq!(plan.objective_gain_numerator, 7);
    assert_eq!(plan.selected_packet_cost, 20);
    assert_eq!(plan.coverage_only_token_cost, 3);

    let mut message = Vec::new();
    framed(&mut message, PUBLIC_PLAN_DOMAIN_V1.as_bytes());
    message.push(1);
    message.extend_from_slice(&7u64.to_le_bytes());
    message.extend_from_slice(&2u64.to_le_bytes());
    framed(&mut message, &[1u8; 32]);
    framed(&mut message, &[2u8; 32]);
    message.extend_from_slice(&3u64.to_le_bytes());
    for e in [10u64, 11, 20] {
        framed(&mut message, &e.to_le_bytes());
    }
    message.extend_from_slice(&20u64.to_le_bytes());
    message.extend_from_slice(&3u64.to_le_bytes());
    let expected: [u8; 32] = sha2::Sha256::digest(&message).into();
    assert_eq!(plan.digest.0, expected);
    assert_ne!(plan.digest.0[..], message[..32]);
}

#[test]
fn frozen_plan_refusals() {
    let p = problem();
    let source = CostMatchedPlanSourceV1::Production;
    let duplicate = freeze_plan(&p, source, 7, &vec![id(1), id(1)], Some(7), 20, 3);
    assert_eq!(duplicate.err().unwrap(), CostMatchedStressErrorV1::ObjectiveContract);
    let unknown = freeze_plan(&p, source, 7, &vec![id(1), id(9)], Some(7), 20, 3);
    assert_eq!(unknown.err().unwrap(), CostMatchedStressErrorV1::ObjectiveContract);
    let missing_mandatory = freeze_plan(&p, source, 7, &vec![id(2)], Some(7), 20, 3);
    assert_eq!(missing_mandatory.err().unwrap(), CostMatchedStressErrorV1::ResourceEnvelopeViolation);
    let wrong_gain = freeze_plan(&p, source, 7, &vec![id(1), id(2)], Some(8), 20, 3);
    assert_eq!(wrong_gain.err().unwrap(), CostMatchedStressErrorV1::ObjectiveContract);
    let rejected_gain = freeze_plan(&p, source, 7, &vec![id(1), id(2)], None, 20, 3);
    assert_eq!(rejected_gain.err().unwrap(), CostMatchedStressErrorV1::ObjectiveContract);

    let mut shared = problem();
    shared.packets.push(packet(4, &[20]));
    let shared_event = freeze_plan(&shared, source, 7, &vec![id(1), id(2), id(4)], Some(7), 30, 3);
    assert_eq!(shared_event.err().unwrap(), CostMatchedStressErrorV1::ObjectiveContract);
}

#[test]
fn digest_codes_are_fixed() {
    assert_eq!(plan_source_code(CostMatchedPlanSourceV1::Production), 0);
    assert_eq!(plan_source_code(CostMatchedPlanSourceV1::OrderAwareBeam), 1);
    assert_eq!(plan_source_code(CostMatchedPlanSourceV1::ProductionFallback), 2);
    assert_eq!(plan_source_code(CostMatchedPlanSourceV1::StructuredExactDp), 3);
    assert_eq!(objective_relation_code(CostMatchedObjectiveRelationV1::ChallengerBetter), 0);
    assert_eq!(objective_relation_code(CostMatchedObjectiveRelationV1::Equal), 1);
    assert_eq!(cost_relation_code(CostMatchedCostRelationV1::ChallengerLower), 0);
    assert_eq!(cost_relation_code(CostMatchedCostRelationV1::Equal), 1);
    assert_eq!(dp_ineligible_code(StructuredDpIneligibleReasonV1::OptionalPacketCap), 0);
    assert_eq!(dp_ineligible_code(StructuredDpIneligibleReasonV1::TransitionCap), 3);
}

#[test]
fn structured_program_finds_the_best_pair_within_caps() {
    let item = |b: u8, cost: u64, gain: u64| DpItemV1 { packet_id: id(b), cost, gain, coverage_only: false };
    let items = vec![item(1, 2, 3), item(2, 2, 3), item(3, 3, 5)];
    match run_structured_dp(&items, 4, 10).unwrap() {
        DpCoreOutcomeV1::Optimal { best, .. } => {
            assert_eq!(best.gain, 6);
            assert_eq!(best.cost, 4);
            assert_eq!(best.selected_item_indices, vec![0, 1]);
        },
        _ => panic!("expected an optimum"),
    }
    match run_structured_dp(&items, 3, 10).unwrap() {
        DpCoreOutcomeV1::Optimal { best, .. } => {
            assert_eq!(best.gain, 5);
            assert_eq!(best.selected_item_indices, vec![2]);
        },
        _ => panic!("expected an optimum"),
    }
}

#[test]
fn stress_recall_counts_weight_of_satisfied_requirements() {
    let requirements = vec![
        CostMatchedStressRequirementV1 { weight: 2, alternatives: vec![vec![EventId(1), EventId(2)], vec![EventId(3)]] },
        CostMatchedStressRequirementV1 { weight: 1, alternatives: vec![vec![EventId(4)]] },
    ];
    let recall = evaluate_recall(&requirements, &[EventId(3), EventId(1)]).unwrap();
    assert_eq!(recall.numerator, 2);
    assert_eq!(recall.denominator, 3);
    assert_eq!(recall.satisfied_requirement_count, 1);
    assert_eq!(recall.requirement_count, 2);
    let better = CostMatchedStressRecallV1 { numerator: 2, denominator: 3, satisfied_requirement_count: 1, requirement_count: 2 };
    let worse = CostMatchedStressRecallV1 { numerator: 1, denominator: 2, satisfied_requirement_count: 1, requirement_count: 2 };
    assert_eq!(compare_recall(better, worse), CostMatchedRecallRelationV1::ChallengerBetter);
    assert_eq!(compare_recall(worse, better), CostMatchedRecallRelationV1::ChallengerWorse);
    let same = CostMatchedStressRecallV1 { numerator: 4, denominator: 6, satisfied_requirement_count: 1, requirement_count: 2 };
    assert_eq!(compare_recall(same, better), CostMatchedRecallRelationV1::Equal);
}

#[test]
fn cost_matched_beam_refuses_a_cap_below_mandatory_cost() {
    let p = problem();
    let r = evaluate_cost_matched_order_aware_beam_v1(&p, 9, 100, Some(0));
    assert_eq!(r.err().unwrap(), BoundedSelectorChallengerErrorV1::ConstraintViolation);
}

fn gains() -> CaseObjectiveGainsV1 {
    CaseObjectiveGainsV1 {
        production_plan: Some(0),
        beam_order: Some(0),
        beam_plan: Some(0),
        fallback_plan: Some(0),
        dp_items: vec![0, 0],
        dp_joint: 0,
        dp_order: Some(0),
        dp_plan: Some(0),
    }
}

#[test]
fn a_case_needs_enough_optional_packets_and_a_production_selection() {
    let p = problem();
    let digest = ArtifactDigest([0; 32]);
    let r = freeze_case(CostMatchedStressCaseV1::ProviderPairs14, &p, digest, &ProductionDecisionV1::NeedsMore, &gains());
    assert_eq!(r.err().unwrap(), CostMatchedStressErrorV1::FixtureInvariant);

    let mut big = problem();
    for b in 10..24u8 {
        big.packets.push(packet(b, &[b as u64 * 100]));
    }
    let mut g = gains();
    g.dp_items = vec![0; 16];
    let terminal = freeze_case(CostMatchedStressCaseV1::ProviderPairs14, &big, digest, &ProductionDecisionV1::NeedsMore, &g);
    assert_eq!(terminal.err().unwrap(), CostMatchedStressErrorV1::ProductionTerminal);
    let rejected = freeze_case(CostMatchedStressCaseV1::ProviderPairs14, &big, digest, &ProductionDecisionV1::Rejected, &g);
    assert_eq!(rejected.err().unwrap(), CostMatchedStressErrorV1::ProductionSelection);
}

#[test]
fn the_corpus_freezes_exactly_the_closed_case_list() {
    let inputs = vec![CostMatchedCaseInputV1 {
        problem: problem(),
        problem_digest: ArtifactDigest([0; 32]),
        production: ProductionDecisionV1::NeedsMore,
        gains: gains(),
    }];
    let r = freeze_cost_matched_selector_stress_corpus_v1(&inputs, b"objective", b"1");
    assert_eq!(r.err().unwrap(), CostMatchedStressErrorV1::CaseSetMismatch);
}

#[test]
fn challenger_identity_commits_to_its_policy_and_bounds() {
    let identity = evidentrail_bench::bounded_selector_challenger::bounded_selector_challenger_identity_v1(
        b"oracle", b"2", b"objective", b"3",
    );
    let mut hasher = sha2::Sha256::new();
    for field in [
        b"evidentrail/bench/bounded-selector-challenger/v1\0".as_slice(),
        b"evidentrail/bench/exact12-order-aware-beam-production-fallback",
        b"1",
        b"oracle",
        b"2",
        b"objective",
        b"3",
    ] {
        hasher.update((field.len() as u64).to_le_bytes());
        hasher.update(field);
    }
    for value in [12u64, 64, 64, 131_072] {
        hasher.update(value.to_le_bytes());
    }
    let expected: [u8; 32] = hasher.finalize().into();
    assert_eq!(identity.digest().0, expected);
    assert_eq!(identity.policy_name(), "evidentrail/bench/exact12-order-aware-beam-production-fallback");
    assert_eq!(identity.policy_version(), "1");
    let other = evidentrail_bench::bounded_selector_challenger::bounded_selector_challenger_identity_v1(
        b"oracle", b"2", b"objective", b"4",
    );
    assert_ne!(identity.digest().0, other.digest().0);
}
