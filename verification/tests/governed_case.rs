use evidentrail_bench::measurement::derive_frozen_candidate_selection_digest_v1;
use evidentrail_bench::method::SelectionReason;
use evidentrail_bench::digest::ArtifactDigest;
use evidentrail_bench::evaluator::{
    evaluate_governed_case_with_presentation_v1, evaluate_requirements_v1, selected_targets_v1,
    CaseAccountingDimensionV1, CaseEvaluationError, GovernedCaseArtifactBindingV1, PresentationCounts,
    PresentationDisposition, PresentationEntry, PresentationReceipt, PresentationReceiptId,
};
use evidentrail_bench::ledger::{
    BlockId, BlockIndex, EventId, EventLedger, EvidenceBlock, FetchCompletenessV1, LedgerEvent, PlanDigest,
    RetrievalId,
};
use evidentrail_bench::manifest::{
    EvidenceTargetV1, EvidentrailBenchAnnotationSpecV1, EvidentrailBenchCaseSpecV1, ExpectedAcquisitionClassV1,
    WeightedDiagnosticRequirementV1,
};
use evidentrail_bench::method::{
    AccountingSummary, ByteBudget, CandidateCost, MethodDescriptor, MethodResult, SelectedEvent,
};

fn ledger() -> EventLedger {
    let event = |id: u64, ordinal: u64, raw: &[u8]| LedgerEvent { id: EventId(id), ordinal, component: b"api".to_vec(), raw: raw.to_vec() };
    EventLedger {
        retrieval_id: RetrievalId(7),
        plan_digest: PlanDigest([5; 32]),
        completeness: FetchCompletenessV1::Complete,
        events: vec![event(1, 0, b"aa"), event(2, 1, b"bbb"), event(3, 2, b"c")],
    }
}

fn method_result() -> MethodResult {
    let selected = |id: u64, ordinal: u64, cost: usize| SelectedEvent {
        event_id: EventId(id),
        ordinal,
        source_byte_cost: cost,
        reasons: Vec::new(),
    };
    MethodResult {
        method: MethodDescriptor { name: "fixture", version: "1" },
        retrieval_id: RetrievalId(7),
        candidate_event_ids: vec![EventId(1), EventId(2), EventId(3)],
        selected: vec![selected(1, 0, 2), selected(3, 2, 1)],
        accounting: AccountingSummary {
            received_event_count: 3,
            candidate_cost: CandidateCost { event_count: 3, unique_source_bytes: 6 },
            selected_event_count: 2,
            retained_raw_event_count: 1,
            budget_excluded_candidate_count: 1,
            selected_source_bytes: 3,
            budget: ByteBudget(10),
        },
    }
}

fn blocks() -> BlockIndex {
    BlockIndex {
        retrieval_id: RetrievalId(7),
        blocks: vec![
            EvidenceBlock { id: BlockId(10), member_ids: vec![EventId(1), EventId(3)] },
            EvidenceBlock { id: BlockId(11), member_ids: vec![EventId(1), EventId(2)] },
        ],
    }
}

fn requirement(weight: u64, alternatives: Vec<Vec<EvidenceTargetV1>>) -> WeightedDiagnosticRequirementV1 {
    WeightedDiagnosticRequirementV1 { weight_micros: weight, alternatives }
}

fn annotation(requirements: Vec<WeightedDiagnosticRequirementV1>) -> EvidentrailBenchAnnotationSpecV1 {
    EvidentrailBenchAnnotationSpecV1 {
        public_case_artifact_digest: ArtifactDigest([9; 32]),
        diagnostic_requirements: requirements,
        precursor_targets: Some(vec![EvidenceTargetV1::Event(EventId(1))]),
        symptom_targets: None,
        supporting_targets: None,
        distractor_targets: None,
        unsafe_targets: None,
    }
}

fn standard_requirements() -> Vec<WeightedDiagnosticRequirementV1> {
    vec![
        requirement(5, vec![vec![EvidenceTargetV1::Block(BlockId(10))]]),
        requirement(3, vec![vec![EvidenceTargetV1::Event(EventId(2))]]),
        requirement(
            2,
            vec![vec![EvidenceTargetV1::Block(BlockId(11))], vec![EvidenceTargetV1::Event(EventId(3))]],
        ),
    ]
}

fn public_case() -> EvidentrailBenchCaseSpecV1 {
    EvidentrailBenchCaseSpecV1 {
        source_artifact_digests: vec![ArtifactDigest([1; 32])],
        question_digest: ArtifactDigest([2; 32]),
        plan_digest: PlanDigest([5; 32]),
        split_artifact_digests: vec![ArtifactDigest([3; 32])],
        leakage_artifact_digests: vec![ArtifactDigest([4; 32])],
        budget_points: Vec::new(),
        expected_acquisition_class: ExpectedAcquisitionClassV1::Complete,
    }
}

fn binding() -> GovernedCaseArtifactBindingV1 {
    GovernedCaseArtifactBindingV1 {
        public_case_artifact_digest: ArtifactDigest([9; 32]),
        annotation_artifact_digest: ArtifactDigest([8; 32]),
    }
}

fn receipt() -> PresentationReceipt {
    let entry = |id: u64, disposition| PresentationEntry { event_id: EventId(id), disposition };
    PresentationReceipt {
        id: PresentationReceiptId(4),
        retrieval_id: RetrievalId(7),
        persisted_count: 3,
        entries: vec![
            entry(1, PresentationDisposition::ShownVerbatim),
            entry(2, PresentationDisposition::RetainedRaw),
            entry(3, PresentationDisposition::ShownVerbatim),
        ],
        counts: PresentationCounts { persisted: 3, shown_verbatim: 2, pattern_represented: 0, retained_raw: 1 },
    }
}

fn evaluate(
    annotation: &EvidentrailBenchAnnotationSpecV1,
    receipt: &PresentationReceipt,
    index: Option<&BlockIndex>,
) -> Result<evidentrail_bench::evaluator::GovernedCaseEvaluationV1, CaseEvaluationError> {
    evaluate_governed_case_with_presentation_v1(
        binding(),
        &public_case(),
        annotation,
        &ledger(),
        &method_result(),
        receipt,
        index,
    )
}

#[test]
fn governed_case_reports_weighted_recall_and_public_accounting() {
    let index = blocks();
    let evaluation = evaluate(&annotation(standard_requirements()), &receipt(), Some(&index)).unwrap();
    let recall = evaluation.diagnostic_recall;
    assert_eq!(recall.requirement_count, 3);
    assert_eq!(recall.satisfied_requirement_count, 2);
    assert_eq!(recall.total_weight_micros, 10);
    assert_eq!(recall.satisfied_weight_micros, 7);
    let result = evaluation.public_result;
    assert_eq!(result.retrieval_id, RetrievalId(7));
    assert_eq!(result.acquisition_class, ExpectedAcquisitionClassV1::Complete);
    assert_eq!(result.presentation_receipt_id, PresentationReceiptId(4));
    let a = result.accounting;
    assert_eq!(a.received_event_count, 3);
    assert_eq!(a.candidate_event_count, 3);
    assert_eq!(a.candidate_source_bytes, 6);
    assert_eq!(a.selected_event_count, 2);
    assert_eq!(a.selected_source_bytes, 3);
    assert_eq!(a.retained_raw_event_count, 1);
    assert_eq!(a.budget_excluded_candidate_count, 1);
    assert_eq!(a.source_byte_budget, 10);
    assert_eq!(a.shown_verbatim_event_count, 2);
    assert_eq!(a.pattern_represented_event_count, 0);
    assert_eq!(a.presentation_retained_raw_event_count, 1);
}

#[test]
fn partial_block_retention_does_not_select_the_block() {
    let index = blocks();
    let targets = selected_targets_v1(Some(&index), &vec![EventId(1), EventId(3)]);
    assert!(targets.contains(&EvidenceTargetV1::Block(BlockId(10))));
    assert!(!targets.contains(&EvidenceTargetV1::Block(BlockId(11))));
    assert_eq!(
        &targets[..2],
        &[EvidenceTargetV1::Event(EventId(1)), EvidenceTargetV1::Event(EventId(3))]
    );
    let without_index = selected_targets_v1(None, &vec![EventId(1), EventId(2)]);
    assert_eq!(without_index.len(), 2);
}

#[test]
fn block_targets_need_a_block_index() {
    let r = evaluate(&annotation(standard_requirements()), &receipt(), None);
    assert_eq!(r.unwrap_err(), CaseEvaluationError::BlockIndexRequired);
}

#[test]
fn unknown_targets_are_counted_once_each() {
    let index = blocks();
    let unknown_events = annotation(vec![requirement(
        1,
        vec![
            vec![EvidenceTargetV1::Event(EventId(99)), EvidenceTargetV1::Event(EventId(98))],
            vec![EvidenceTargetV1::Event(EventId(99))],
        ],
    )]);
    let r = evaluate(&unknown_events, &receipt(), Some(&index));
    assert_eq!(r.unwrap_err(), CaseEvaluationError::UnknownEvidenceEvent { count: 2 });
    let unknown_block = annotation(vec![requirement(1, vec![vec![EvidenceTargetV1::Block(BlockId(50))]])]);
    let r = evaluate(&unknown_block, &receipt(), Some(&index));
    assert_eq!(r.unwrap_err(), CaseEvaluationError::UnknownEvidenceBlock { count: 1 });
}

#[test]
fn receipt_must_match_the_selection_event_by_event() {
    let index = blocks();
    let mut wrong = receipt();
    wrong.entries[1].disposition = PresentationDisposition::ShownVerbatim;
    let r = evaluate(&annotation(standard_requirements()), &wrong, Some(&index));
    assert_eq!(r.unwrap_err(), CaseEvaluationError::PresentationReceiptMismatch);
    let mut counts = receipt();
    counts.counts.pattern_represented = 1;
    let r = evaluate(&annotation(standard_requirements()), &counts, Some(&index));
    assert_eq!(
        r.unwrap_err(),
        CaseEvaluationError::MethodAccountingMismatch { dimension: CaseAccountingDimensionV1::PresentationCounts }
    );
}

#[test]
fn joined_artifacts_must_agree() {
    let index = blocks();
    let mut other = annotation(standard_requirements());
    other.public_case_artifact_digest = ArtifactDigest([0; 32]);
    let r = evaluate(&other, &receipt(), Some(&index));
    assert_eq!(r.unwrap_err(), CaseEvaluationError::PublicCaseArtifactBindingMismatch);
    let foreign = BlockIndex { retrieval_id: RetrievalId(8), blocks: Vec::new() };
    let r = evaluate(&annotation(standard_requirements()), &receipt(), Some(&foreign));
    assert_eq!(r.unwrap_err(), CaseEvaluationError::BlockIndexRetrievalMismatch);
    let mut partial_case = public_case();
    partial_case.expected_acquisition_class = ExpectedAcquisitionClassV1::Partial;
    let r = evaluate_governed_case_with_presentation_v1(
        binding(),
        &partial_case,
        &annotation(standard_requirements()),
        &ledger(),
        &method_result(),
        &receipt(),
        Some(&index),
    );
    assert_eq!(r.unwrap_err(), CaseEvaluationError::AcquisitionClassMismatch);
    let mut replanned = public_case();
    replanned.plan_digest = PlanDigest([6; 32]);
    let r = evaluate_governed_case_with_presentation_v1(
        binding(),
        &replanned,
        &annotation(standard_requirements()),
        &ledger(),
        &method_result(),
        &receipt(),
        Some(&index),
    );
    assert_eq!(r.unwrap_err(), CaseEvaluationError::PlanDigestMismatch);
}

#[test]
fn requirement_weights_are_summed_with_checked_addition() {
    let heavy = annotation(vec![
        requirement(u64::MAX, vec![vec![EvidenceTargetV1::Event(EventId(1))]]),
        requirement(1, vec![vec![EvidenceTargetV1::Event(EventId(2))]]),
    ]);
    let r = evaluate_requirements_v1(&heavy, &vec![EvidenceTargetV1::Event(EventId(1))]);
    assert_eq!(r.unwrap_err(), CaseEvaluationError::RequirementWeightOverflow);
}

#[test]
fn frozen_selection_digest_binds_accounting_and_reasons() {
    let first = derive_frozen_candidate_selection_digest_v1(&ledger(), &method_result()).unwrap();
    let again = derive_frozen_candidate_selection_digest_v1(&ledger(), &method_result()).unwrap();
    assert_eq!(first.0, again.0);
    let mut budget = method_result();
    budget.accounting.budget = ByteBudget(11);
    assert_ne!(first.0, derive_frozen_candidate_selection_digest_v1(&ledger(), &budget).unwrap().0);
    let mut reasons = method_result();
    reasons.selected[0].reasons = vec![SelectionReason::HeadSentinel];
    assert_ne!(first.0, derive_frozen_candidate_selection_digest_v1(&ledger(), &reasons).unwrap().0);
}

#[test]
fn governed_case_accounting_keeps_its_relations() {
    let index = blocks();
    let a = evaluate(&annotation(standard_requirements()), &receipt(), Some(&index)).unwrap().public_result.accounting;
    assert_eq!(a.received_event_count, a.selected_event_count + a.retained_raw_event_count);
    assert_eq!(a.candidate_event_count, a.selected_event_count + a.budget_excluded_candidate_count);
    assert!(a.candidate_event_count <= a.received_event_count);
    assert!(a.selected_source_bytes <= a.candidate_source_bytes);
    assert!(a.selected_source_bytes <= a.source_byte_budget);
    assert_eq!(a.retained_raw_event_count, a.presentation_retained_raw_event_count);
    assert_eq!(a.shown_verbatim_event_count, a.selected_event_count);
}
