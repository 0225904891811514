use evidentrail_bench::digest::ArtifactDigest;
use evidentrail_bench::hermetic_governance::{
    assemble_hermetic_incident_public_corpus_v1, evaluate_recall, govern_case, govern_hermetic_incident_outcome_corpus_v1, FrozenHermeticIncidentArmOutcomeV1,
    FrozenHermeticIncidentExactOracleV1, FrozenHermeticIncidentPublicCaseV1, FrozenHermeticIncidentPublicCorpusV1,
    HermeticIncidentGovernedAnnotationV1,
};
use evidentrail_bench::hermetic_incident_outcome_corpus::{
    ExactHermeticIncidentRecallV1, HermeticIncidentAbstentionAuthorityV1, HermeticIncidentArmV1, HermeticIncidentCaseV1,
    HermeticIncidentClaimV1, HermeticIncidentCorpusErrorV1, HermeticIncidentExpectedOutcomeV1,
    HermeticIncidentFaultFamilyV1, HermeticIncidentRootAlternativeV1, HermeticIncidentRuntimeV1,
};
use evidentrail_bench::ledger::{EventId, EventLedger, FetchCompletenessV1, LedgerEvent, PlanDigest, RetrievalId};
use evidentrail_bench::manifest::{
    EvidenceTargetV1, EvidentrailBenchAnnotationSpecV1, ExpectedAcquisitionClassV1, WeightedDiagnosticRequirementV1,
};

const ALL_CASES: [HermeticIncidentCaseV1; 8] = [
    HermeticIncidentCaseV1::Case01,
    HermeticIncidentCaseV1::Case02,
    HermeticIncidentCaseV1::Case03,
    HermeticIncidentCaseV1::Case04,
    HermeticIncidentCaseV1::Case05,
    HermeticIncidentCaseV1::Case06,
    HermeticIncidentCaseV1::Case07,
    HermeticIncidentCaseV1::Case08,
];

const ALL_ARMS: [HermeticIncidentArmV1; 5] = [
    HermeticIncidentArmV1::FullThreeLane,
    HermeticIncidentArmV1::RawChronological,
    HermeticIncidentArmV1::GrepHeadTail,
    HermeticIncidentArmV1::QuotaHybrid,
    HermeticIncidentArmV1::Bm25fWholeEvent,
];

fn ids(values: &[u64]) -> Vec<EventId> {
    values.iter().map(|v| EventId(*v)).collect()
}

fn requirements() -> Vec<WeightedDiagnosticRequirementV1> {
    vec![
        WeightedDiagnosticRequirementV1 {
            weight_micros: 600_000,
            alternatives: vec![vec![EvidenceTargetV1::Event(EventId(1))]],
        },
        WeightedDiagnosticRequirementV1 {
            weight_micros: 400_000,
            alternatives: vec![vec![EvidenceTargetV1::Event(EventId(2)), EvidenceTargetV1::Event(EventId(3))]],
        },
    ]
}

fn class_for(index: usize) -> ExpectedAcquisitionClassV1 {
    match index {
        6 => ExpectedAcquisitionClassV1::Partial,
        7 => ExpectedAcquisitionClassV1::Unknown,
        _ => ExpectedAcquisitionClassV1::Complete,
    }
}

fn public_case(index: usize) -> FrozenHermeticIncidentPublicCaseV1 {
    let event = |id: u64| LedgerEvent { id: EventId(id), ordinal: id - 1, component: b"api".to_vec(), raw: vec![id as u8] };
    let selections: [&[u64]; 5] = [&[1, 2, 3], &[1], &[2, 3], &[], &[3, 2]];
    let outcomes = ALL_ARMS
        .iter()
        .zip(selections.iter())
        .map(|(arm, selected)| FrozenHermeticIncidentArmOutcomeV1 {
            digest: ArtifactDigest([index as u8 + 100; 32]),
            arm: *arm,
            producer_receipt_digest: None,
            method_config_digest: None,
            selected_event_ids: ids(selected),
            selected_unique_source_bytes: selected.len() as u64,
            selected_packet_count: 1,
            accounted_token_upper_bound: Some(64),
            objective_gain_numerator: None,
        })
        .collect();
    FrozenHermeticIncidentPublicCaseV1 {
        digest: ArtifactDigest([index as u8 + 1; 32]),
        case: ALL_CASES[index],
        runtime: HermeticIncidentRuntimeV1::Python,
        scope_components: vec![b"api".to_vec(), b"db".to_vec()],
        question: b"why did the request fail".to_vec(),
        expected_acquisition_class: class_for(index),
        total_token_budget: 256,
        matched_source_byte_budget: 3,
        ledger: EventLedger {
            retrieval_id: RetrievalId(index as u64),
            plan_digest: PlanDigest([7; 32]),
            completeness: FetchCompletenessV1::Complete,
            events: vec![event(1), event(2), event(3)],
        },
        outcomes,
        exact_oracle: FrozenHermeticIncidentExactOracleV1 {
            digest: ArtifactDigest([200; 32]),
            selected_event_ids: ids(&[1, 2, 3]),
            selected_packet_count: 1,
            objective_gain_numerator: 3,
            accounted_token_upper_bound: 64,
            reachable_subset_count: 8,
        },
    }
}

fn annotation(index: usize) -> HermeticIncidentGovernedAnnotationV1 {
    let digest = ArtifactDigest([index as u8 + 1; 32]);
    let (expected_outcome, acceptable_roots) = match index {
        6 => (
            HermeticIncidentExpectedOutcomeV1::Abstain(
                HermeticIncidentAbstentionAuthorityV1::MissingAuthorizedScopedComponent(b"db".to_vec()),
            ),
            Vec::new(),
        ),
        7 => (
            HermeticIncidentExpectedOutcomeV1::Abstain(HermeticIncidentAbstentionAuthorityV1::PredecessorOrderingUnobservable),
            Vec::new(),
        ),
        _ => (
            HermeticIncidentExpectedOutcomeV1::Diagnose,
            vec![HermeticIncidentRootAlternativeV1 { claims: vec![HermeticIncidentClaimV1(b"secret mount".to_vec())] }],
        ),
    };
    HermeticIncidentGovernedAnnotationV1 {
        digest: ArtifactDigest([index as u8 + 50; 32]),
        case: ALL_CASES[index],
        public_case_digest: digest,
        fault_family: HermeticIncidentFaultFamilyV1::DeploymentSecretMount,
        expected_outcome,
        acceptable_roots,
        forbidden_claims: Vec::new(),
        unsupported_claims: Vec::new(),
        evidence: EvidentrailBenchAnnotationSpecV1 {
            public_case_artifact_digest: digest,
            diagnostic_requirements: requirements(),
            precursor_targets: Some(vec![EvidenceTargetV1::Event(EventId(1))]),
            symptom_targets: None,
            supporting_targets: None,
            distractor_targets: None,
            unsafe_targets: None,
        },
    }
}

fn public_corpus() -> FrozenHermeticIncidentPublicCorpusV1 {
    FrozenHermeticIncidentPublicCorpusV1 {
        digest: ArtifactDigest([42; 32]),
        cases: (0..8).map(public_case).collect(),
        complete_count: 6,
        partial_count: 1,
        unknown_count: 1,
    }
}

fn all_annotations() -> Vec<HermeticIncidentGovernedAnnotationV1> {
    (0..8).map(annotation).collect()
}

fn recall(satisfied: u64, satisfied_count: u64) -> ExactHermeticIncidentRecallV1 {
    ExactHermeticIncidentRecallV1 {
        satisfied_weight_micros: satisfied,
        total_weight_micros: 1_000_000,
        satisfied_requirement_count: satisfied_count,
        requirement_count: 2,
    }
}

#[test]
fn recall_counts_only_wholly_selected_alternatives() {
    assert_eq!(evaluate_recall(&requirements(), &ids(&[1, 2, 3])).unwrap(), recall(1_000_000, 2));
    assert_eq!(evaluate_recall(&requirements(), &ids(&[1, 2])).unwrap(), recall(600_000, 1));
    assert_eq!(evaluate_recall(&requirements(), &ids(&[3, 2])).unwrap(), recall(400_000, 1));
    assert_eq!(evaluate_recall(&requirements(), &ids(&[])).unwrap(), recall(0, 0));
}

#[test]
fn recall_total_weight_overflow_is_refused() {
    let heavy = vec![
        WeightedDiagnosticRequirementV1 {
            weight_micros: u64::MAX,
            alternatives: vec![vec![EvidenceTargetV1::Event(EventId(1))]],
        },
        WeightedDiagnosticRequirementV1 { weight_micros: 1, alternatives: vec![vec![EvidenceTargetV1::Event(EventId(2))]] },
    ];
    assert_eq!(
        evaluate_recall(&heavy, &ids(&[1])).unwrap_err(),
        HermeticIncidentCorpusErrorV1::ArithmeticOverflow
    );
}

#[test]
fn governed_case_scores_every_arm_and_the_oracle() {
    let governed = govern_case(&public_case(0), &annotation(0)).unwrap();
    assert_eq!(governed.case, HermeticIncidentCaseV1::Case01);
    assert_eq!(governed.public_case_digest, ArtifactDigest([1; 32]));
    assert_eq!(governed.annotation_digest, ArtifactDigest([50; 32]));
    let expected = [recall(1_000_000, 2), recall(600_000, 1), recall(400_000, 1), recall(0, 0), recall(400_000, 1)];
    assert_eq!(governed.outcomes.len(), 5);
    for (outcome, (arm, want)) in governed.outcomes.iter().zip(ALL_ARMS.iter().zip(expected.iter())) {
        assert_eq!(outcome.arm, *arm);
        assert_eq!(outcome.recall, *want);
        assert_eq!(outcome.public_outcome_digest, ArtifactDigest([100; 32]));
    }
    assert_eq!(governed.exact_oracle_recall, recall(1_000_000, 2));
    assert!(governed.expected_outcome.diagnosis_scoring_eligible());
}

#[test]
fn governed_case_refuses_a_foreign_annotation() {
    assert_eq!(
        govern_case(&public_case(0), &annotation(1)).unwrap_err(),
        HermeticIncidentCorpusErrorV1::ForeignCase
    );
    let mut wrong_digest = annotation(0);
    wrong_digest.evidence.public_case_artifact_digest = ArtifactDigest([9; 32]);
    assert_eq!(
        govern_case(&public_case(0), &wrong_digest).unwrap_err(),
        HermeticIncidentCorpusErrorV1::ForeignCase
    );
}

#[test]
fn governed_case_refuses_targets_outside_the_ledger() {
    let mut stray = annotation(0);
    stray.evidence.symptom_targets = Some(vec![EvidenceTargetV1::Event(EventId(99))]);
    assert_eq!(
        govern_case(&public_case(0), &stray).unwrap_err(),
        HermeticIncidentCorpusErrorV1::EvidenceTargetMismatch
    );
}

#[test]
fn governed_case_refuses_a_diagnosis_without_complete_acquisition() {
    let mut diagnose = annotation(0);
    diagnose.case = HermeticIncidentCaseV1::Case07;
    diagnose.public_case_digest = ArtifactDigest([7; 32]);
    diagnose.evidence.public_case_artifact_digest = ArtifactDigest([7; 32]);
    assert_eq!(
        govern_case(&public_case(6), &diagnose).unwrap_err(),
        HermeticIncidentCorpusErrorV1::OutcomeMismatch
    );
    let mut rootless = annotation(0);
    rootless.acceptable_roots = Vec::new();
    assert_eq!(
        govern_case(&public_case(0), &rootless).unwrap_err(),
        HermeticIncidentCorpusErrorV1::OutcomeMismatch
    );
}

#[test]
fn governed_case_refuses_an_abstention_the_public_case_does_not_back() {
    let mut observed = annotation(6);
    observed.expected_outcome = HermeticIncidentExpectedOutcomeV1::Abstain(
        HermeticIncidentAbstentionAuthorityV1::MissingAuthorizedScopedComponent(b"api".to_vec()),
    );
    assert_eq!(
        govern_case(&public_case(6), &observed).unwrap_err(),
        HermeticIncidentCorpusErrorV1::AbstentionAuthorityMismatch
    );
    let mut out_of_scope = annotation(6);
    out_of_scope.expected_outcome = HermeticIncidentExpectedOutcomeV1::Abstain(
        HermeticIncidentAbstentionAuthorityV1::MissingAuthorizedScopedComponent(b"cache".to_vec()),
    );
    assert_eq!(
        govern_case(&public_case(6), &out_of_scope).unwrap_err(),
        HermeticIncidentCorpusErrorV1::AbstentionAuthorityMismatch
    );
    assert!(govern_case(&public_case(6), &annotation(6)).is_ok());
    assert!(govern_case(&public_case(7), &annotation(7)).is_ok());
}

#[test]
fn governed_corpus_sums_each_arm_and_counts_abstentions_apart() {
    let corpus = govern_hermetic_incident_outcome_corpus_v1(&public_corpus(), all_annotations()).unwrap();
    assert_eq!(corpus.public_corpus_digest, ArtifactDigest([42; 32]));
    assert_eq!(corpus.cases.len(), 8);
    for (case, want) in corpus.cases.iter().zip(ALL_CASES.iter()) {
        assert_eq!(case.case, *want);
    }
    assert_eq!(corpus.diagnosis_expected_count, 6);
    assert_eq!(corpus.abstention_expected_count, 2);
    assert_eq!(corpus.exact_oracle_evaluated_count, 8);
    let expected = [(8_000_000, 8), (4_800_000, 0), (3_200_000, 0), (0, 0), (3_200_000, 0)];
    for ((summary, arm), (satisfied, perfect)) in corpus.arm_summaries.iter().zip(ALL_ARMS.iter()).zip(expected.iter()) {
        assert_eq!(summary.arm, *arm);
        assert_eq!(summary.satisfied_weight_micros, *satisfied);
        assert_eq!(summary.total_weight_micros, 8_000_000);
        assert_eq!(summary.perfect_case_count, *perfect);
    }
}

#[test]
fn governed_corpus_ignores_annotation_order_and_tracks_recall() {
    let forward = govern_hermetic_incident_outcome_corpus_v1(&public_corpus(), all_annotations()).unwrap();
    let mut reversed = all_annotations();
    reversed.reverse();
    let backward = govern_hermetic_incident_outcome_corpus_v1(&public_corpus(), reversed).unwrap();
    assert_eq!(forward.digest, backward.digest);

    let mut public = public_corpus();
    public.cases[2].outcomes[3].selected_event_ids = ids(&[1]);
    let changed = govern_hermetic_incident_outcome_corpus_v1(&public, all_annotations()).unwrap();
    assert_eq!(changed.arm_summaries[3].satisfied_weight_micros, 600_000);
    assert_ne!(forward.digest, changed.digest);
}

#[test]
fn governed_corpus_rejects_duplicate_and_missing_annotations() {
    let mut duplicate = all_annotations();
    duplicate.push(annotation(0));
    assert_eq!(
        govern_hermetic_incident_outcome_corpus_v1(&public_corpus(), duplicate).unwrap_err(),
        HermeticIncidentCorpusErrorV1::DuplicateCase
    );
    let mut missing = all_annotations();
    missing.pop();
    assert_eq!(
        govern_hermetic_incident_outcome_corpus_v1(&public_corpus(), missing).unwrap_err(),
        HermeticIncidentCorpusErrorV1::MissingCase
    );
}

#[test]
fn governed_corpus_passes_on_a_case_error() {
    let mut annotations = all_annotations();
    annotations[3].evidence.symptom_targets = Some(vec![EvidenceTargetV1::Event(EventId(77))]);
    assert_eq!(
        govern_hermetic_incident_outcome_corpus_v1(&public_corpus(), annotations).unwrap_err(),
        HermeticIncidentCorpusErrorV1::EvidenceTargetMismatch
    );
}

#[test]
fn governed_corpus_holds_no_success_score_and_finds_each_case() {
    let corpus = govern_hermetic_incident_outcome_corpus_v1(&public_corpus(), all_annotations()).unwrap();
    assert!(!corpus.contains_diagnosis_success_score());
    assert!(!corpus.contains_scalar_composite());
    assert!(!corpus.claims_hosted_quality());
    assert_eq!(corpus.scope_code(), "synthetic_hermetic_conformance_only_no_population_claim_v1");
    for case in ALL_CASES.iter() {
        assert_eq!(corpus.case(*case).case, *case);
    }
}

#[test]
fn public_case_roster_rejects_missing_and_duplicate_inputs() {
    let seven: Vec<_> = (0..7).map(public_case).collect();
    assert_eq!(
        assemble_hermetic_incident_public_corpus_v1(seven).err(),
        Some(HermeticIncidentCorpusErrorV1::MissingCase)
    );
    let mut duplicate: Vec<_> = (0..8).map(public_case).collect();
    duplicate.push(public_case(0));
    assert_eq!(
        assemble_hermetic_incident_public_corpus_v1(duplicate).err(),
        Some(HermeticIncidentCorpusErrorV1::DuplicateCase)
    );
}

#[test]
fn public_corpus_orders_cases_counts_classes_and_commits() {
    let reversed: Vec<_> = (0..8).rev().map(public_case).collect();
    let corpus = assemble_hermetic_incident_public_corpus_v1(reversed).unwrap();
    for (case, want) in corpus.cases.iter().zip(ALL_CASES.iter()) {
        assert_eq!(case.case, *want);
    }
    assert_eq!((corpus.complete_count, corpus.partial_count, corpus.unknown_count), (6, 1, 1));
    let mut hasher = <sha2::Sha256 as sha2::Digest>::new();
    sha2::Digest::update(&mut hasher, b"evidentrail/bench/hermetic-incident-public-corpus/v1\0");
    sha2::Digest::update(&mut hasher, 8u64.to_be_bytes());
    for index in 0..8u8 {
        sha2::Digest::update(&mut hasher, [index + 1; 32]);
    }
    for count in [6u64, 1, 1] {
        sha2::Digest::update(&mut hasher, count.to_be_bytes());
    }
    let expected: [u8; 32] = sha2::Digest::finalize(hasher).into();
    assert_eq!(corpus.digest, ArtifactDigest(expected));
    let forward = assemble_hermetic_incident_public_corpus_v1((0..8).map(public_case).collect()).unwrap();
    assert_eq!(forward.digest, corpus.digest);
}
