use evidentrail_bench::digest::ArtifactDigest;
use evidentrail_bench::evaluator::GovernedCaseArtifactBindingV1;
use evidentrail_bench::fidelity::{
    ascii_byte_escape_v1_identity, derive_source_exact_representation_artifact_digest_v1,
    NonExactFidelityDispositionV1, RepresentationFidelityErrorV1,
};
use evidentrail_bench::fidelity_scoring::{
    evaluate_governed_representation_fidelity_v1, EvidenceRepresentationClaimV1,
    FrozenExternalRepresentationSubmissionV1, GovernedRepresentationFidelityOutcomeV1,
    GovernedRepresentationFidelityPolicyV1, PinnedTransformedExpectationV1, RequirementFidelityPolicyV1,
};
use evidentrail_bench::ledger::{
    BlockId, BlockIndex, EventId, EventLedger, EvidenceBlock, FetchCompletenessV1, LedgerEvent, PlanDigest, RetrievalId,
};
use evidentrail_bench::aggregator::BenchmarkBudgetV1;
use evidentrail_bench::measurement::{
    CandidateResourceEnvelope, CandidateRendererIdentityV1, MeasurementEnvironmentV1, MeasurementHarnessIdentityV1,
    RenderedCandidateArtifactV1, TokenizerIdentityV1,
};
use evidentrail_bench::method::MethodDescriptor;
use evidentrail_bench::run_aggregation::BenchmarkRunIdentityV1;
use evidentrail_bench::manifest::{EvidenceTargetV1, EvidentrailBenchAnnotationSpecV1, WeightedDiagnosticRequirementV1};

fn ledger() -> EventLedger {
    let event = |id: u64, raw: &[u8]| LedgerEvent { id: EventId(id), ordinal: id, component: b"api".to_vec(), raw: raw.to_vec() };
    EventLedger {
        retrieval_id: RetrievalId(4),
        plan_digest: PlanDigest([1; 32]),
        completeness: FetchCompletenessV1::Complete,
        events: vec![event(1, b"alpha"), event(2, b"beta"), event(3, b"gamma")],
    }
}

fn blocks() -> BlockIndex {
    BlockIndex { retrieval_id: RetrievalId(4), blocks: vec![EvidenceBlock { id: BlockId(10), member_ids: vec![EventId(1), EventId(2)] }] }
}

fn binding() -> GovernedCaseArtifactBindingV1 {
    GovernedCaseArtifactBindingV1 {
        public_case_artifact_digest: ArtifactDigest([5; 32]),
        annotation_artifact_digest: ArtifactDigest([6; 32]),
    }
}

fn annotation() -> EvidentrailBenchAnnotationSpecV1 {
    EvidentrailBenchAnnotationSpecV1 {
        public_case_artifact_digest: ArtifactDigest([5; 32]),
        diagnostic_requirements: vec![
            WeightedDiagnosticRequirementV1 {
                weight_micros: 600_000,
                alternatives: vec![vec![EvidenceTargetV1::Event(EventId(1))]],
            },
            WeightedDiagnosticRequirementV1 {
                weight_micros: 400_000,
                alternatives: vec![vec![EvidenceTargetV1::Block(BlockId(10))], vec![EvidenceTargetV1::Event(EventId(3))]],
            },
        ],
        precursor_targets: None,
        symptom_targets: None,
        supporting_targets: None,
        distractor_targets: None,
        unsafe_targets: None,
    }
}

fn exact_digest(raw: &[u8]) -> ArtifactDigest {
    derive_source_exact_representation_artifact_digest_v1(raw).unwrap()
}

fn submission(claims: Vec<EvidenceRepresentationClaimV1>) -> FrozenExternalRepresentationSubmissionV1 {
    FrozenExternalRepresentationSubmissionV1 {
        artifact_digest: ArtifactDigest([8; 32]),
        public_run_manifest_artifact_digest: ArtifactDigest([9; 32]),
        run_identity: BenchmarkRunIdentityV1 {
            system_artifact_digest: ArtifactDigest([13; 32]),
            build_artifact_digest: ArtifactDigest([14; 32]),
            dataset_artifact_digest: ArtifactDigest([15; 32]),
            seed: 7,
            budget: BenchmarkBudgetV1 {
                unique_candidate_event_count: 8,
                unique_candidate_source_bytes: 64,
                canonical_candidate_tokens: 100,
                wall_time_nanos: 1_000,
                peak_memory_bytes: 4_096,
            },
        },
        public_case_artifact_digest: ArtifactDigest([5; 32]),
        method: MethodDescriptor::new("external", "1"),
        retrieval_id: RetrievalId(4),
        representation_artifact_digest: ArtifactDigest([10; 32]),
        normalizer_artifact_digest: ArtifactDigest([11; 32]),
        environment: MeasurementEnvironmentV1 {
            tokenizer: TokenizerIdentityV1 { artifact_digest: ArtifactDigest([16; 32]) },
            renderer: CandidateRendererIdentityV1 { artifact_digest: ArtifactDigest([17; 32]), contract_version: 1 },
            harness: MeasurementHarnessIdentityV1 { artifact_digest: ArtifactDigest([18; 32]), contract_version: 1 },
        },
        rendered_candidate: RenderedCandidateArtifactV1 { artifact_digest: ArtifactDigest([12; 32]), byte_count: 9 },
        resources: CandidateResourceEnvelope {
            unique_candidate_event_count: 2,
            unique_candidate_source_bytes: 10,
            canonical_candidate_tokens: 3,
            wall_time_nanos: 20,
            peak_memory_bytes: 64,
        },
        claims,
        candidate_event_ids: vec![EventId(1), EventId(3)],
    }
}

fn standard_claims() -> Vec<EvidenceRepresentationClaimV1> {
    vec![
        EvidenceRepresentationClaimV1::source_exact_shown_verbatim(EventId(1), exact_digest(b"alpha"), 0, 5),
        EvidenceRepresentationClaimV1::source_validated_transformed_sample(EventId(3), ArtifactDigest([33; 32])),
    ]
}

fn evaluate(
    submission: &FrozenExternalRepresentationSubmissionV1,
    policy: &GovernedRepresentationFidelityPolicyV1,
) -> Result<GovernedRepresentationFidelityOutcomeV1, RepresentationFidelityErrorV1> {
    let index = blocks();
    evaluate_governed_representation_fidelity_v1(
        binding(),
        ArtifactDigest([9; 32]),
        &annotation(),
        &ledger(),
        Some(&index),
        submission,
        policy,
    )
}

fn deferring_policy() -> GovernedRepresentationFidelityPolicyV1 {
    let pinned = RequirementFidelityPolicyV1::try_new(
        vec![PinnedTransformedExpectationV1::new(EventId(3), ArtifactDigest([33; 32]))],
        NonExactFidelityDispositionV1::NeedsDownstreamVds,
        NonExactFidelityDispositionV1::Reject,
        NonExactFidelityDispositionV1::Reject,
    )
    .unwrap();
    GovernedRepresentationFidelityPolicyV1::try_new(
        binding(),
        &annotation(),
        vec![RequirementFidelityPolicyV1::source_exact_only(), pinned],
    )
    .unwrap()
}

#[test]
fn source_exact_policy_scores_only_exact_material() {
    let policy = GovernedRepresentationFidelityPolicyV1::source_exact_only(binding(), &annotation()).unwrap();
    let outcome = evaluate(&submission(standard_claims()), &policy).unwrap();
    let score = outcome.score_submission().unwrap();
    assert_eq!(score.requirement_count, 2);
    assert_eq!(score.satisfied_requirement_count, 1);
    assert_eq!(score.exact_weight_ratio(), (600_000, 1_000_000));
    assert_eq!(score.representation_submission_artifact_digest, ArtifactDigest([8; 32]));
    assert_eq!(score.fidelity_policy_artifact_digest, policy.artifact_digest);
}

#[test]
fn pinned_transform_defers_to_downstream_validation() {
    let outcome = evaluate(&submission(standard_claims()), &deferring_policy()).unwrap();
    match outcome {
        GovernedRepresentationFidelityOutcomeV1::NeedsDownstreamVds(v) => {
            assert_eq!(v.requirement_count, 2);
            assert_eq!(v.unresolved_requirement_count, 1);
            assert_eq!(v.code(), "needs_downstream_vds");
        },
        GovernedRepresentationFidelityOutcomeV1::Scored(_) => panic!("a pinned transform must defer"),
    }
    assert_eq!(outcome.score_submission().unwrap_err(), RepresentationFidelityErrorV1::NeedsDownstreamVds);
}

#[test]
fn exact_block_members_satisfy_a_block_target() {
    let mut claims = standard_claims();
    claims.push(EvidenceRepresentationClaimV1::source_exact_shown_verbatim(EventId(2), exact_digest(b"beta"), 5, 9));
    let mut with_block = submission(claims);
    with_block.candidate_event_ids = vec![EventId(1), EventId(2), EventId(3)];
    with_block.resources.unique_candidate_event_count = 3;
    with_block.resources.unique_candidate_source_bytes = 14;
    let outcome = evaluate(&with_block, &deferring_policy()).unwrap();
    let score = outcome.score_submission().unwrap();
    assert_eq!(score.satisfied_requirement_count, 2);
    assert_eq!(score.exact_weight_ratio(), (1_000_000, 1_000_000));
}

#[test]
fn reversible_encoding_counts_as_exact() {
    let claims = vec![EvidenceRepresentationClaimV1::source_exact_reversible_encoding(
        EventId(1),
        ascii_byte_escape_v1_identity(),
        ArtifactDigest([44; 32]),
        0,
        2,
        7,
    )];
    let policy = GovernedRepresentationFidelityPolicyV1::source_exact_only(binding(), &annotation()).unwrap();
    let score = evaluate(&submission(claims), &policy).unwrap().score_submission().unwrap();
    assert_eq!(score.satisfied_requirement_count, 1);
}

#[test]
fn fidelity_refuses_forged_and_unbound_submissions() {
    let policy = GovernedRepresentationFidelityPolicyV1::source_exact_only(binding(), &annotation()).unwrap();
    let forged = vec![EvidenceRepresentationClaimV1::source_exact_shown_verbatim(EventId(1), exact_digest(b"alphA"), 0, 5)];
    assert_eq!(
        evaluate(&submission(forged), &policy).unwrap_err(),
        RepresentationFidelityErrorV1::SourceExactDigestMismatch { count: 1 }
    );
    let unknown = vec![EvidenceRepresentationClaimV1::pattern_only(EventId(99), ArtifactDigest([1; 32]))];
    assert_eq!(evaluate(&submission(unknown), &policy).unwrap_err(), RepresentationFidelityErrorV1::UnknownClaimedEvent);
    let mut accounting = submission(standard_claims());
    accounting.resources.unique_candidate_source_bytes = 11;
    assert_eq!(
        evaluate(&accounting, &policy).unwrap_err(),
        RepresentationFidelityErrorV1::CandidateResourceInvariantViolation
    );
    let mut manifest = submission(standard_claims());
    manifest.public_run_manifest_artifact_digest = ArtifactDigest([0; 32]);
    assert_eq!(evaluate(&manifest, &policy).unwrap_err(), RepresentationFidelityErrorV1::PublicRunManifestBindingMismatch);
    let mut retrieval = submission(standard_claims());
    retrieval.retrieval_id = RetrievalId(5);
    assert_eq!(evaluate(&retrieval, &policy).unwrap_err(), RepresentationFidelityErrorV1::RetrievalMismatch);
    let without_index = evaluate_governed_representation_fidelity_v1(
        binding(),
        ArtifactDigest([9; 32]),
        &annotation(),
        &ledger(),
        None,
        &submission(standard_claims()),
        &policy,
    );
    assert_eq!(without_index.unwrap_err(), RepresentationFidelityErrorV1::BlockIndexRequired);
}

#[test]
fn fidelity_policies_refuse_misfit_rules() {
    assert_eq!(
        GovernedRepresentationFidelityPolicyV1::try_new(binding(), &annotation(), vec![RequirementFidelityPolicyV1::source_exact_only()])
            .unwrap_err(),
        RepresentationFidelityErrorV1::RequirementPolicyCountMismatch
    );
    let stray = RequirementFidelityPolicyV1::try_new(
        vec![PinnedTransformedExpectationV1::new(EventId(2), ArtifactDigest([33; 32]))],
        NonExactFidelityDispositionV1::NeedsDownstreamVds,
        NonExactFidelityDispositionV1::Reject,
        NonExactFidelityDispositionV1::Reject,
    )
    .unwrap();
    assert_eq!(
        GovernedRepresentationFidelityPolicyV1::try_new(
            binding(),
            &annotation(),
            vec![RequirementFidelityPolicyV1::source_exact_only(), stray]
        )
        .unwrap_err(),
        RepresentationFidelityErrorV1::PinnedTransformOutsideRequirement
    );
    let mut foreign = binding();
    foreign.public_case_artifact_digest = ArtifactDigest([7; 32]);
    assert_eq!(
        GovernedRepresentationFidelityPolicyV1::source_exact_only(foreign, &annotation()).unwrap_err(),
        RepresentationFidelityErrorV1::GovernedArtifactBindingMismatch
    );
    let pin = PinnedTransformedExpectationV1::new(EventId(3), ArtifactDigest([33; 32]));
    assert_eq!(
        RequirementFidelityPolicyV1::try_new(
            vec![pin, pin],
            NonExactFidelityDispositionV1::Reject,
            NonExactFidelityDispositionV1::Reject,
            NonExactFidelityDispositionV1::Reject,
        )
        .unwrap_err(),
        RepresentationFidelityErrorV1::DuplicatePinnedTransform
    );
    let sorted = RequirementFidelityPolicyV1::try_new(
        vec![
            PinnedTransformedExpectationV1::new(EventId(3), ArtifactDigest([9; 32])),
            PinnedTransformedExpectationV1::new(EventId(1), ArtifactDigest([9; 32])),
            PinnedTransformedExpectationV1::new(EventId(3), ArtifactDigest([2; 32])),
        ],
        NonExactFidelityDispositionV1::Reject,
        NonExactFidelityDispositionV1::Reject,
        NonExactFidelityDispositionV1::Reject,
    )
    .unwrap();
    let order: Vec<(u64, u8)> =
        sorted.expected_transformed().iter().map(|p| (p.event_id.0, p.transformed_artifact_digest.0[0])).collect();
    assert_eq!(order, vec![(1, 9), (3, 2), (3, 9)]);
    assert_eq!(
        sorted.transform_disposition(EventId(3), ArtifactDigest([2; 32])),
        NonExactFidelityDispositionV1::Reject
    );
}
