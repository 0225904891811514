use evidentrail_bench::digest::ArtifactDigest;
use evidentrail_bench::evaluator::{GovernedCaseArtifactBindingV1, GovernedRequirementRecallV1};
use evidentrail_bench::ledger::{AcquisitionReceiptId, EventId, PlanDigest, PlanId, RetrievalId, SourceIdentityDigest};
use evidentrail_bench::manifest::ExpectedAcquisitionClassV1;
use evidentrail_bench::measurement::MeasurementTrustBoundaryV1;
use evidentrail_bench::producer_comparison::{
    cost_relation, joint_relation, lower_is_better_pareto_dominates, quality_relation,
    GovernedProducerProposalComparisonV1, ProducerProposalComparisonErrorV1, ProducerProposalParetoRelationV1,
};
use evidentrail_bench::producer_frontier::{
    evaluate_governed_producer_proposal_frontier_v1, non_dominated_indices, FrozenProducerProposalFrontierPlanV1,
    ProducerProposalFrontierErrorV1, ProducerProposalFrontierPlanDigestV1, ProducerProposalFrontierPlanPointV1,
};
use evidentrail_bench::producer_proposals::{
    FrozenProducerProposalUniverseDigestV1, GovernedProducerProposalEvaluationV1, ProducerProposalAcquisitionBindingV1,
    ProducerProposalCapViolationsV1, ProducerProposalErrorV1, ProducerProposalIdV1, ProducerProposalIdentityV1,
    ProducerProposalMeasurementEnvironmentV1, ProducerProposalPacketV1, ProducerProposalRendererIdentityV1,
    ProducerProposalResourceCapV1, ProducerProposalResourceDimensionV1, ProducerProposalResourceEnvelopeV1,
};

fn binding() -> GovernedCaseArtifactBindingV1 {
    GovernedCaseArtifactBindingV1 {
        public_case_artifact_digest: ArtifactDigest([1; 32]),
        annotation_artifact_digest: ArtifactDigest([2; 32]),
    }
}

fn acquisition() -> ProducerProposalAcquisitionBindingV1 {
    ProducerProposalAcquisitionBindingV1 {
        retrieval_id: RetrievalId(7),
        plan_id: PlanId(8),
        plan_digest: PlanDigest([3; 32]),
        acquisition_receipt_id: AcquisitionReceiptId(9),
        source_identity_digest: SourceIdentityDigest([4; 32]),
        acquisition_class: ExpectedAcquisitionClassV1::Complete,
    }
}

fn environment() -> ProducerProposalMeasurementEnvironmentV1 {
    ProducerProposalMeasurementEnvironmentV1 {
        renderer: ProducerProposalRendererIdentityV1 { artifact_digest: ArtifactDigest([5; 32]), contract_version: 1 },
        tokenizer_artifact_digest: ArtifactDigest([6; 32]),
        tokenizer_contract_version: 1,
        measurement_harness_artifact_digest: ArtifactDigest([7; 32]),
        measurement_harness_contract_version: 1,
    }
}

fn producer(config: u8) -> ProducerProposalIdentityV1 {
    ProducerProposalIdentityV1::new(ArtifactDigest([10; 32]), ArtifactDigest([config; 32]), ArtifactDigest([config + 1; 32]))
}

fn cap() -> ProducerProposalResourceCapV1 {
    ProducerProposalResourceCapV1 {
        proposal_packet_count: 10,
        unique_member_source_bytes: 1_000,
        canonical_proposal_render_tokens: 500,
        wall_time_nanos: 1_000_000,
        peak_rss_bytes: 1 << 20,
    }
}

fn resources(scale: u64) -> ProducerProposalResourceEnvelopeV1 {
    ProducerProposalResourceEnvelopeV1 {
        proposal_packet_count: 2 * scale,
        unique_member_event_count: 3 * scale,
        unique_member_source_bytes: 100 * scale,
        canonical_proposal_render_tokens: 50 * scale,
        wall_time_nanos: 1_000 * scale,
        peak_rss_bytes: 4_096 * scale,
    }
}

fn recall(satisfied: u64) -> GovernedRequirementRecallV1 {
    GovernedRequirementRecallV1 {
        requirement_count: 2,
        satisfied_requirement_count: if satisfied == 0 { 0 } else { 1 },
        total_weight_micros: 1_000_000,
        satisfied_weight_micros: satisfied,
    }
}

fn evaluation(
    universe: u8,
    config: u8,
    resources: ProducerProposalResourceEnvelopeV1,
    satisfied: u64,
) -> GovernedProducerProposalEvaluationV1 {
    let cap_violations = cap().check(resources).err();
    GovernedProducerProposalEvaluationV1 {
        artifact_binding: binding(),
        acquisition_binding: acquisition(),
        universe_digest: FrozenProducerProposalUniverseDigestV1([universe; 32]),
        producer: producer(config),
        measurement_receipt_digest: ArtifactDigest([universe + 100; 32]),
        measurement_environment: environment(),
        measurement_trust_boundary: MeasurementTrustBoundaryV1::SelfAssertedReproducibilityInput,
        resource_cap: cap(),
        resources,
        cap_violations,
        recall: recall(satisfied),
    }
}

fn over_cap() -> ProducerProposalResourceEnvelopeV1 {
    let mut r = resources(1);
    r.wall_time_nanos = 2_000_000;
    r
}

fn plan() -> FrozenProducerProposalFrontierPlanV1 {
    let point = |universe: u8, config: u8| ProducerProposalFrontierPlanPointV1 {
        universe_digest: FrozenProducerProposalUniverseDigestV1([universe; 32]),
        producer: producer(config),
        cap: cap(),
    };
    FrozenProducerProposalFrontierPlanV1 {
        digest: ProducerProposalFrontierPlanDigestV1([77; 32]),
        public_case_artifact_digest: ArtifactDigest([1; 32]),
        acquisition_binding: acquisition(),
        method_artifact_digest: ArtifactDigest([10; 32]),
        measurement_environment: environment(),
        points: vec![point(20, 30), point(21, 31), point(22, 32)],
    }
}

fn outcomes() -> Vec<GovernedProducerProposalEvaluationV1> {
    vec![
        evaluation(20, 30, resources(1), 600_000),
        evaluation(21, 31, resources(2), 400_000),
        evaluation(22, 32, over_cap(), 1_000_000),
    ]
}

#[test]
fn cost_dominance_needs_one_strictly_lower_axis() {
    assert!(lower_is_better_pareto_dominates([1, 2, 3, 4, 5], [1, 2, 3, 4, 6]));
    assert!(!lower_is_better_pareto_dominates([1, 2, 3, 4, 5], [1, 2, 3, 4, 5]));
    assert!(!lower_is_better_pareto_dominates([1, 2, 3, 4, 7], [2, 2, 3, 4, 6]));
}

#[test]
fn relations_classify_quality_cost_and_joint() {
    assert_eq!(quality_relation(recall(600_000), recall(400_000)), ProducerProposalParetoRelationV1::LeftStrictlyDominates);
    assert_eq!(quality_relation(recall(400_000), recall(600_000)), ProducerProposalParetoRelationV1::RightStrictlyDominates);
    assert_eq!(quality_relation(recall(1), recall(1)), ProducerProposalParetoRelationV1::Equal);
    assert_eq!(cost_relation(resources(1), resources(2)), ProducerProposalParetoRelationV1::LeftStrictlyDominates);
    assert_eq!(cost_relation(resources(2), resources(2)), ProducerProposalParetoRelationV1::Equal);
    let mut mixed = resources(1);
    mixed.peak_rss_bytes = 1 << 30;
    assert_eq!(cost_relation(mixed, resources(2)), ProducerProposalParetoRelationV1::Incomparable);
    assert_eq!(
        joint_relation(ProducerProposalParetoRelationV1::Equal, ProducerProposalParetoRelationV1::RightStrictlyDominates),
        ProducerProposalParetoRelationV1::RightStrictlyDominates
    );
    assert_eq!(
        joint_relation(
            ProducerProposalParetoRelationV1::LeftStrictlyDominates,
            ProducerProposalParetoRelationV1::RightStrictlyDominates
        ),
        ProducerProposalParetoRelationV1::Incomparable
    );
    assert_eq!(
        joint_relation(ProducerProposalParetoRelationV1::Equal, ProducerProposalParetoRelationV1::Equal),
        ProducerProposalParetoRelationV1::Equal
    );
}

#[test]
fn comparison_mirrors_and_refuses_self_asserted_winners() {
    let better = evaluation(20, 30, resources(1), 600_000);
    let worse = evaluation(21, 31, resources(2), 400_000);
    let forward = GovernedProducerProposalComparisonV1::try_new(better.clone(), worse.clone()).unwrap();
    assert_eq!(forward.joint_relation(), ProducerProposalParetoRelationV1::LeftStrictlyDominates);
    assert_eq!(forward.quality_relation(), ProducerProposalParetoRelationV1::LeftStrictlyDominates);
    assert_eq!(forward.cost_relation(), ProducerProposalParetoRelationV1::LeftStrictlyDominates);
    assert!(forward.both_k_eligible());
    assert_eq!(
        forward.verified_joint_pareto_winner().unwrap_err(),
        ProducerProposalComparisonErrorV1::MeasurementTrustNotVerified
    );
    let backward = GovernedProducerProposalComparisonV1::try_new(worse, better).unwrap();
    assert_eq!(backward.joint_relation(), ProducerProposalParetoRelationV1::RightStrictlyDominates);
}

#[test]
fn comparison_refuses_unaligned_evaluations() {
    let left = evaluation(20, 30, resources(1), 600_000);
    let mut foreign = evaluation(21, 31, resources(2), 400_000);
    foreign.artifact_binding.annotation_artifact_digest = ArtifactDigest([99; 32]);
    assert_eq!(
        GovernedProducerProposalComparisonV1::try_new(left.clone(), foreign).unwrap_err(),
        ProducerProposalComparisonErrorV1::CaseArtifactBindingMismatch
    );
    let mut other_cap = evaluation(21, 31, resources(2), 400_000);
    other_cap.resource_cap.peak_rss_bytes = 1;
    assert_eq!(
        GovernedProducerProposalComparisonV1::try_new(left.clone(), other_cap).unwrap_err(),
        ProducerProposalComparisonErrorV1::ResourceCapMismatch
    );
    let mut other_universe = evaluation(21, 31, resources(2), 400_000);
    other_universe.recall.total_weight_micros = 2_000_000;
    assert_eq!(
        GovernedProducerProposalComparisonV1::try_new(left, other_universe).unwrap_err(),
        ProducerProposalComparisonErrorV1::RecallUniverseMismatch
    );
}

#[test]
fn frontier_keeps_every_point_and_excludes_dominated_and_over_cap_points() {
    let frontier = evaluate_governed_producer_proposal_frontier_v1(&plan(), outcomes()).unwrap();
    assert_eq!(frontier.points.len(), 3);
    assert_eq!(frontier.frontier_indices, vec![0]);
    assert_eq!(frontier.frontier_points().len(), 1);
    assert_eq!(frontier.frontier_points()[0].recall.satisfied_weight_micros, 600_000);
    assert_eq!(frontier.eligible_points().len(), 2);
    let ineligible = frontier.ineligible_points();
    assert_eq!(ineligible.len(), 1);
    assert_eq!(
        ineligible[0].cap_violations.as_ref().unwrap().dimensions,
        vec![ProducerProposalResourceDimensionV1::WallTimeNanos]
    );
    assert!(!frontier.contains_scalar_score());
    assert!(!frontier.contains_auc());
    assert!(!frontier.contains_verified_winner());
}

#[test]
fn frontier_keeps_incomparable_points_together() {
    let mut trade = outcomes();
    trade[1] = evaluation(21, 31, resources(2), 900_000);
    let frontier = evaluate_governed_producer_proposal_frontier_v1(&plan(), trade).unwrap();
    assert_eq!(frontier.frontier_indices, vec![0, 1]);
    assert_eq!(non_dominated_indices(&frontier.points), vec![0, 1]);
}

#[test]
fn frontier_digest_ignores_outcome_order_and_tracks_recall() {
    let forward = evaluate_governed_producer_proposal_frontier_v1(&plan(), outcomes()).unwrap();
    let mut reversed = outcomes();
    reversed.reverse();
    let backward = evaluate_governed_producer_proposal_frontier_v1(&plan(), reversed).unwrap();
    assert_eq!(forward.digest.0, backward.digest.0);
    let mut changed = outcomes();
    changed[1].recall.satisfied_weight_micros = 500_000;
    let other = evaluate_governed_producer_proposal_frontier_v1(&plan(), changed).unwrap();
    assert_ne!(forward.digest.0, other.digest.0);
}

#[test]
fn frontier_refuses_unplanned_duplicate_and_missing_outcomes() {
    let mut unplanned = outcomes();
    unplanned[0].universe_digest = FrozenProducerProposalUniverseDigestV1([55; 32]);
    assert_eq!(
        evaluate_governed_producer_proposal_frontier_v1(&plan(), unplanned).unwrap_err(),
        ProducerProposalFrontierErrorV1::UnplannedOutcomePoint
    );
    let mut duplicate = outcomes();
    duplicate.push(evaluation(20, 30, resources(1), 600_000));
    assert_eq!(
        evaluate_governed_producer_proposal_frontier_v1(&plan(), duplicate).unwrap_err(),
        ProducerProposalFrontierErrorV1::DuplicateOutcomePoint
    );
    let mut missing = outcomes();
    missing.truncate(1);
    assert_eq!(
        evaluate_governed_producer_proposal_frontier_v1(&plan(), missing).unwrap_err(),
        ProducerProposalFrontierErrorV1::MissingOutcomePoints { count: 2 }
    );
    assert_eq!(
        evaluate_governed_producer_proposal_frontier_v1(&plan(), Vec::new()).unwrap_err(),
        ProducerProposalFrontierErrorV1::MissingOutcomePoints { count: 3 }
    );
}

#[test]
fn frontier_refuses_misbound_outcomes() {
    let mut annotation = outcomes();
    annotation[2].artifact_binding.annotation_artifact_digest = ArtifactDigest([98; 32]);
    assert_eq!(
        evaluate_governed_producer_proposal_frontier_v1(&plan(), annotation).unwrap_err(),
        ProducerProposalFrontierErrorV1::AnnotationBindingMismatch
    );
    let mut hidden_violation = outcomes();
    hidden_violation[2].cap_violations = None;
    assert_eq!(
        evaluate_governed_producer_proposal_frontier_v1(&plan(), hidden_violation).unwrap_err(),
        ProducerProposalFrontierErrorV1::CapViolationMismatch
    );
    let mut claimed_violation = outcomes();
    claimed_violation[0].cap_violations =
        Some(ProducerProposalCapViolationsV1 { dimensions: vec![ProducerProposalResourceDimensionV1::PeakRssBytes] });
    assert_eq!(
        evaluate_governed_producer_proposal_frontier_v1(&plan(), claimed_violation).unwrap_err(),
        ProducerProposalFrontierErrorV1::CapViolationMismatch
    );
    let mut universe = outcomes();
    universe[1].recall.requirement_count = 3;
    assert_eq!(
        evaluate_governed_producer_proposal_frontier_v1(&plan(), universe).unwrap_err(),
        ProducerProposalFrontierErrorV1::RecallUniverseMismatch
    );
    let mut identity = outcomes();
    identity[1].producer = producer(40);
    assert_eq!(
        evaluate_governed_producer_proposal_frontier_v1(&plan(), identity).unwrap_err(),
        ProducerProposalFrontierErrorV1::ProducerIdentityMismatch
    );
    let mut public = outcomes();
    public[0].artifact_binding.public_case_artifact_digest = ArtifactDigest([97; 32]);
    assert_eq!(
        evaluate_governed_producer_proposal_frontier_v1(&plan(), public).unwrap_err(),
        ProducerProposalFrontierErrorV1::PublicCaseBindingMismatch
    );
}

#[test]
fn proposal_packet_sorts_members_and_refuses_bad_memberships() {
    let packet = ProducerProposalPacketV1::try_new(ProducerProposalIdV1([1; 32]), vec![EventId(9), EventId(2), EventId(5)])
        .unwrap();
    assert_eq!(packet.member_event_ids(), &[EventId(2), EventId(5), EventId(9)]);
    assert_eq!(
        ProducerProposalPacketV1::try_new(ProducerProposalIdV1([1; 32]), Vec::new()).unwrap_err(),
        ProducerProposalErrorV1::EmptyProposalMembership
    );
    assert_eq!(
        ProducerProposalPacketV1::try_new(ProducerProposalIdV1([1; 32]), vec![EventId(3), EventId(3)]).unwrap_err(),
        ProducerProposalErrorV1::DuplicateProposalMember
    );
    let many: Vec<EventId> = (0..4_097).map(EventId).collect();
    assert_eq!(
        ProducerProposalPacketV1::try_new(ProducerProposalIdV1([1; 32]), many).unwrap_err(),
        ProducerProposalErrorV1::TooManyMembersPerProposal
    );
}
