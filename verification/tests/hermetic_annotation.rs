use evidentrail_bench::digest::ArtifactDigest;
use evidentrail_bench::hermetic_governance::HermeticIncidentGovernedAnnotationV1;
use evidentrail_bench::hermetic_incident_outcome_corpus::{
    HermeticIncidentAbstentionAuthorityV1, HermeticIncidentCaseV1, HermeticIncidentClaimV1,
    HermeticIncidentCorpusErrorV1, HermeticIncidentExpectedOutcomeV1, HermeticIncidentFaultFamilyV1,
    HermeticIncidentRootAlternativeV1,
};
use evidentrail_bench::ledger::EventId;
use evidentrail_bench::manifest::{EvidenceTargetV1, EvidentrailBenchAnnotationSpecV1, WeightedDiagnosticRequirementV1};
use sha2::Digest;

const CASE_DIGEST: ArtifactDigest = ArtifactDigest([7; 32]);

fn claim(bytes: &[u8]) -> HermeticIncidentClaimV1 {
    HermeticIncidentClaimV1::new(bytes.to_vec()).ok().unwrap()
}

fn claim_bytes(claims: &[HermeticIncidentClaimV1]) -> Vec<Vec<u8>> {
    claims.iter().map(|c| c.0.clone()).collect()
}

fn evidence(digest: ArtifactDigest, requirement_count: usize) -> EvidentrailBenchAnnotationSpecV1 {
    EvidentrailBenchAnnotationSpecV1 {
        public_case_artifact_digest: digest,
        diagnostic_requirements: (0..requirement_count)
            .map(|i| WeightedDiagnosticRequirementV1 {
                weight_micros: 1_000_000,
                alternatives: vec![vec![EvidenceTargetV1::Event(EventId(i as u64 + 1))]],
            })
            .collect(),
        precursor_targets: None,
        symptom_targets: Some(vec![EvidenceTargetV1::Event(EventId(1))]),
        supporting_targets: None,
        distractor_targets: None,
        unsafe_targets: None,
    }
}

fn root(claims: &[&str]) -> HermeticIncidentRootAlternativeV1 {
    HermeticIncidentRootAlternativeV1::new(claims.iter().map(|c| claim(c.as_bytes())).collect()).ok().unwrap()
}

fn build(
    outcome: HermeticIncidentExpectedOutcomeV1,
    roots: Vec<HermeticIncidentRootAlternativeV1>,
    forbidden: Vec<HermeticIncidentClaimV1>,
    unsupported: Vec<HermeticIncidentClaimV1>,
    evidence: EvidentrailBenchAnnotationSpecV1,
) -> Result<HermeticIncidentGovernedAnnotationV1, HermeticIncidentCorpusErrorV1> {
    HermeticIncidentGovernedAnnotationV1::try_new(
        HermeticIncidentCaseV1::Case01,
        CASE_DIGEST,
        HermeticIncidentFaultFamilyV1::DeploymentSecretMount,
        outcome,
        roots,
        forbidden,
        unsupported,
        evidence,
    )
}

fn diagnosis() -> Result<HermeticIncidentGovernedAnnotationV1, HermeticIncidentCorpusErrorV1> {
    build(
        HermeticIncidentExpectedOutcomeV1::Diagnose,
        vec![root(&["secret"]), root(&["mount", "absent"])],
        vec![claim(b"later-symptom"), claim(b"blame")],
        vec![claim(b"data-loss")],
        evidence(CASE_DIGEST, 1),
    )
}

#[test]
fn root_alternative_sorts_and_bounds_its_claims() {
    let alternative = root(&["b", "ab", "a"]);
    assert_eq!(claim_bytes(&alternative.claims), vec![b"a".to_vec(), b"ab".to_vec(), b"b".to_vec()]);
    let repeated = HermeticIncidentRootAlternativeV1::new(vec![claim(b"a"), claim(b"a")]);
    assert_eq!(repeated.err(), Some(HermeticIncidentCorpusErrorV1::AnnotationBounds));
    assert_eq!(HermeticIncidentRootAlternativeV1::new(Vec::new()).err(), Some(HermeticIncidentCorpusErrorV1::AnnotationBounds));
    let five = (0..5u8).map(|i| claim(&[b'a' + i])).collect();
    assert_eq!(HermeticIncidentRootAlternativeV1::new(five).err(), Some(HermeticIncidentCorpusErrorV1::AnnotationBounds));
}

#[test]
fn annotation_keeps_canonical_order_and_a_stable_digest() {
    let annotation = diagnosis().ok().unwrap();
    let roots: Vec<Vec<Vec<u8>>> = annotation.acceptable_roots.iter().map(|r| claim_bytes(&r.claims)).collect();
    assert_eq!(roots, vec![vec![b"absent".to_vec(), b"mount".to_vec()], vec![b"secret".to_vec()]]);
    assert_eq!(claim_bytes(&annotation.forbidden_claims), vec![b"blame".to_vec(), b"later-symptom".to_vec()]);
    let reordered = build(
        HermeticIncidentExpectedOutcomeV1::Diagnose,
        vec![root(&["absent", "mount"]), root(&["secret"])],
        vec![claim(b"blame"), claim(b"later-symptom")],
        vec![claim(b"data-loss")],
        evidence(CASE_DIGEST, 1),
    )
    .ok()
    .unwrap();
    assert_eq!(annotation.digest.0, reordered.digest.0);
    let other = build(
        HermeticIncidentExpectedOutcomeV1::Diagnose,
        vec![root(&["absent", "mount"]), root(&["secret"])],
        vec![claim(b"blame"), claim(b"later-symptom")],
        vec![claim(b"data-loss!")],
        evidence(CASE_DIGEST, 1),
    )
    .ok()
    .unwrap();
    assert_ne!(annotation.digest.0, other.digest.0);
}

#[test]
fn annotation_digest_matches_its_message() {
    let annotation = build(
        HermeticIncidentExpectedOutcomeV1::Abstain(HermeticIncidentAbstentionAuthorityV1::PredecessorOrderingUnobservable),
        Vec::new(),
        vec![claim(b"f")],
        vec![claim(b"u")],
        EvidentrailBenchAnnotationSpecV1 {
            public_case_artifact_digest: CASE_DIGEST,
            diagnostic_requirements: vec![WeightedDiagnosticRequirementV1 {
                weight_micros: 1_000_000,
                alternatives: vec![vec![EvidenceTargetV1::Event(EventId(2))]],
            }],
            precursor_targets: None,
            symptom_targets: None,
            supporting_targets: None,
            distractor_targets: None,
            unsafe_targets: None,
        },
    )
    .ok()
    .unwrap();
    let be_field = |m: &mut Vec<u8>, b: &[u8]| {
        m.extend_from_slice(&(b.len() as u64).to_be_bytes());
        m.extend_from_slice(b);
    };
    let mut m = b"evidentrail/bench/hermetic-incident-governed-annotation/v1\0".to_vec();
    be_field(&mut m, HermeticIncidentCaseV1::Case01.code().as_bytes());
    m.extend_from_slice(&CASE_DIGEST.0);
    be_field(&mut m, HermeticIncidentFaultFamilyV1::DeploymentSecretMount.code().as_bytes());
    be_field(&mut m, b"abstention_expected_v1");
    m.push(1);
    be_field(&mut m, b"unknown_acquisition_predecessor_order_unobservable_v1");
    be_field(&mut m, b"");
    m.extend_from_slice(&0u64.to_be_bytes());
    m.extend_from_slice(&1u64.to_be_bytes());
    be_field(&mut m, b"f");
    m.extend_from_slice(&1u64.to_be_bytes());
    be_field(&mut m, b"u");
    m.extend_from_slice(&CASE_DIGEST.0);
    m.extend_from_slice(&1u64.to_be_bytes());
    m.extend_from_slice(&1_000_000u64.to_be_bytes());
    m.extend_from_slice(&1u64.to_be_bytes());
    m.extend_from_slice(&1u64.to_be_bytes());
    m.push(0);
    m.extend_from_slice(&2u64.to_le_bytes());
    m.extend_from_slice(&[0, 0, 0, 0, 0]);
    let expected: [u8; 32] = sha2::Sha256::digest(&m).into();
    assert_eq!(annotation.digest.0, expected);
}

#[test]
fn annotation_refusals_come_in_order() {
    let wrong_case = build(
        HermeticIncidentExpectedOutcomeV1::Diagnose,
        vec![root(&["secret"])],
        vec![claim(b"f")],
        vec![claim(b"u")],
        evidence(ArtifactDigest([8; 32]), 1),
    );
    assert_eq!(wrong_case.err(), Some(HermeticIncidentCorpusErrorV1::AnnotationBounds));
    let too_many = build(
        HermeticIncidentExpectedOutcomeV1::Diagnose,
        vec![root(&["secret"])],
        vec![claim(b"f")],
        vec![claim(b"u")],
        evidence(CASE_DIGEST, 9),
    );
    assert_eq!(too_many.err(), Some(HermeticIncidentCorpusErrorV1::AnnotationBounds));
    let repeated = build(
        HermeticIncidentExpectedOutcomeV1::Diagnose,
        vec![root(&["secret"])],
        vec![claim(b"f"), claim(b"f")],
        vec![claim(b"u")],
        evidence(CASE_DIGEST, 1),
    );
    assert_eq!(repeated.err(), Some(HermeticIncidentCorpusErrorV1::AnnotationBounds));
    let no_unsupported = build(
        HermeticIncidentExpectedOutcomeV1::Diagnose,
        vec![root(&["secret"])],
        vec![claim(b"f")],
        Vec::new(),
        evidence(CASE_DIGEST, 1),
    );
    assert_eq!(no_unsupported.err(), Some(HermeticIncidentCorpusErrorV1::AnnotationBounds));
    let rootless = build(
        HermeticIncidentExpectedOutcomeV1::Diagnose,
        Vec::new(),
        vec![claim(b"f")],
        vec![claim(b"u")],
        evidence(CASE_DIGEST, 1),
    );
    assert_eq!(rootless.err(), Some(HermeticIncidentCorpusErrorV1::OutcomeMismatch));
    let abstaining_with_root = build(
        HermeticIncidentExpectedOutcomeV1::Abstain(HermeticIncidentAbstentionAuthorityV1::PredecessorOrderingUnobservable),
        vec![root(&["secret"])],
        vec![claim(b"f")],
        vec![claim(b"u")],
        evidence(CASE_DIGEST, 1),
    );
    assert_eq!(abstaining_with_root.err(), Some(HermeticIncidentCorpusErrorV1::OutcomeMismatch));
    let forbidden_root = build(
        HermeticIncidentExpectedOutcomeV1::Diagnose,
        vec![root(&["secret"])],
        vec![claim(b"secret")],
        vec![claim(b"u")],
        evidence(CASE_DIGEST, 1),
    );
    assert_eq!(forbidden_root.err(), Some(HermeticIncidentCorpusErrorV1::ClaimPolicyConflict));
    let unsupported_root = build(
        HermeticIncidentExpectedOutcomeV1::Diagnose,
        vec![root(&["secret"])],
        vec![claim(b"f")],
        vec![claim(b"secret")],
        evidence(CASE_DIGEST, 1),
    );
    assert_eq!(unsupported_root.err(), Some(HermeticIncidentCorpusErrorV1::ClaimPolicyConflict));
    let both = build(
        HermeticIncidentExpectedOutcomeV1::Diagnose,
        vec![root(&["secret"])],
        vec![claim(b"x")],
        vec![claim(b"x")],
        evidence(CASE_DIGEST, 1),
    );
    assert_eq!(both.err(), Some(HermeticIncidentCorpusErrorV1::ClaimPolicyConflict));
    assert!(diagnosis().is_ok());
}
