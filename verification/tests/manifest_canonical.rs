use evidentrail_bench::digest::ArtifactDigest;
use evidentrail_bench::ledger::{BlockId, EventId, PlanDigest};
use evidentrail_bench::manifest::{
    CandidateResourceCap, EvidenceTargetV1, EvidentrailBenchAnnotationSpecV1, EvidentrailBenchCaseSpecV1,
    ExpectedAcquisitionClassV1, ManifestError, WeightedDiagnosticRequirementV1,
};

fn event(id: u64) -> EvidenceTargetV1 {
    EvidenceTargetV1::Event(EventId(id))
}

fn block(id: u64) -> EvidenceTargetV1 {
    EvidenceTargetV1::Block(BlockId(id))
}

fn cap(events: u64) -> CandidateResourceCap {
    CandidateResourceCap {
        unique_candidate_event_count: events,
        unique_candidate_source_bytes: 100,
        canonical_candidate_tokens: 10,
        wall_time_nanos: 1_000,
        peak_memory_bytes: 4_096,
    }
}

#[test]
fn requirement_alternatives_are_canonical_sets() {
    let requirement = WeightedDiagnosticRequirementV1::new(
        250_000,
        vec![vec![block(2), event(5), event(5)], vec![event(1)], vec![event(5), block(2)]],
    )
    .unwrap();
    assert_eq!(requirement.weight_micros(), 250_000);
    assert_eq!(requirement.alternatives, vec![vec![event(1)], vec![event(5), block(2)]]);
}

#[test]
fn requirement_refuses_bad_weights_and_empty_alternatives() {
    assert_eq!(
        WeightedDiagnosticRequirementV1::new(0, vec![vec![event(1)]]).unwrap_err(),
        ManifestError::InvalidRequirementWeightMicros
    );
    assert_eq!(
        WeightedDiagnosticRequirementV1::new(1 << 60, vec![vec![event(1)]]).unwrap_err(),
        ManifestError::InvalidRequirementWeightMicros
    );
    assert_eq!(
        WeightedDiagnosticRequirementV1::new(1, Vec::new()).unwrap_err(),
        ManifestError::EmptyRequirementAlternatives
    );
    assert_eq!(
        WeightedDiagnosticRequirementV1::new(1, vec![vec![event(1)], Vec::new()]).unwrap_err(),
        ManifestError::EmptyRequirementAlternative
    );
}

#[test]
fn annotation_canonicalizes_role_targets() {
    let requirement = WeightedDiagnosticRequirementV1::new(1_000_000, vec![vec![event(3)]]).unwrap();
    let annotation = EvidentrailBenchAnnotationSpecV1::new(
        ArtifactDigest([1; 32]),
        vec![requirement.clone()],
        Some(vec![event(9), event(2), event(9)]),
        None,
        None,
        None,
        Some(vec![block(1), event(1)]),
    )
    .unwrap();
    assert_eq!(annotation.precursor_targets, Some(vec![event(2), event(9)]));
    assert_eq!(annotation.unsafe_targets, Some(vec![event(1), block(1)]));
    assert!(annotation.symptom_targets.is_none());
    assert_eq!(
        EvidentrailBenchAnnotationSpecV1::new(ArtifactDigest([1; 32]), Vec::new(), None, None, None, None, None)
            .unwrap_err(),
        ManifestError::EmptyDiagnosticRequirements
    );
    assert_eq!(
        EvidentrailBenchAnnotationSpecV1::new(ArtifactDigest([1; 32]), vec![requirement], None, Some(Vec::new()), None, None, None)
            .unwrap_err(),
        ManifestError::EmptyRoleTargetSet
    );
}

#[test]
fn case_spec_canonicalizes_artifacts_and_budgets() {
    let spec = EvidentrailBenchCaseSpecV1::new(
        vec![ArtifactDigest([3; 32]), ArtifactDigest([1; 32]), ArtifactDigest([3; 32])],
        ArtifactDigest([7; 32]),
        PlanDigest([8; 32]),
        vec![ArtifactDigest([4; 32])],
        vec![ArtifactDigest([5; 32])],
        vec![cap(9), cap(2), cap(9)],
        ExpectedAcquisitionClassV1::Complete,
    )
    .unwrap();
    assert_eq!(spec.source_artifact_digests, vec![ArtifactDigest([1; 32]), ArtifactDigest([3; 32])]);
    assert_eq!(spec.budget_points, vec![cap(2), cap(9)]);
    assert_eq!(spec.expected_acquisition_class(), ExpectedAcquisitionClassV1::Complete);
}

#[test]
fn case_spec_refuses_empty_sets_and_unsafe_budgets() {
    let build = |sources: Vec<ArtifactDigest>, splits: Vec<ArtifactDigest>, budgets: Vec<CandidateResourceCap>| {
        EvidentrailBenchCaseSpecV1::new(
            sources,
            ArtifactDigest([7; 32]),
            PlanDigest([8; 32]),
            splits,
            vec![ArtifactDigest([5; 32])],
            budgets,
            ExpectedAcquisitionClassV1::Partial,
        )
    };
    assert_eq!(build(Vec::new(), vec![ArtifactDigest([4; 32])], vec![cap(1)]).unwrap_err(), ManifestError::EmptySourceArtifacts);
    assert_eq!(
        build(vec![ArtifactDigest([1; 32])], Vec::new(), vec![cap(1)]).unwrap_err(),
        ManifestError::EmptySplitArtifacts
    );
    assert_eq!(
        build(vec![ArtifactDigest([1; 32])], vec![ArtifactDigest([4; 32])], Vec::new()).unwrap_err(),
        ManifestError::EmptyBudgetPoints
    );
    let mut unsafe_point = cap(1);
    unsafe_point.wall_time_nanos = u64::MAX;
    assert_eq!(
        build(vec![ArtifactDigest([1; 32])], vec![ArtifactDigest([4; 32])], vec![cap(1), unsafe_point]).unwrap_err(),
        ManifestError::BudgetPointExceedsJsonSafeInteger
    );
}
