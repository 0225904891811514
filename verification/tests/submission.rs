use evidentrail_bench::aggregator::BenchmarkBudgetV1;
use evidentrail_bench::digest::ArtifactDigest;
use evidentrail_bench::fidelity::{
    ascii_byte_escape_v1_identity, derive_reversible_encoded_representation_artifact_digest_v1,
    derive_source_exact_representation_artifact_digest_v1, RepresentationFidelityErrorV1,
};
use evidentrail_bench::fidelity_scoring::{
    EvidenceRepresentationClaimV1, FrozenExternalRepresentationSubmissionV1,
    PASSTHROUGH_ASCII_BYTE_ESCAPE_FIELD_PREFIX_V1,
};
use evidentrail_bench::ledger::{EventId, EventLedger, FetchCompletenessV1, LedgerEvent, PlanDigest, RetrievalId};
use evidentrail_bench::evaluator::PresentationReceiptId;
use evidentrail_bench::measurement::{
    CandidateRendererIdentityV1, FrozenCandidateRenderingV1, FrozenCandidateSelectionDigestV1, MeasuredCandidateResources,
    MeasurementProvenanceReceiptV1, MeasurementTrustBoundaryV1, MeasurementEnvironmentV1, MeasurementHarnessIdentityV1,
    RenderedCandidateArtifactV1, TokenizerIdentityV1,
};
use evidentrail_bench::method::MethodDescriptor;
use evidentrail_bench::run_aggregation::{BenchmarkRunIdentityV1, EvidentrailBenchRunManifestV1};
use sha2::Digest;

const CASE: ArtifactDigest = ArtifactDigest([5; 32]);

fn ledger() -> EventLedger {
    let event = |id: u64, raw: &[u8]| LedgerEvent { id: EventId(id), ordinal: id, component: b"api".to_vec(), raw: raw.to_vec() };
    EventLedger {
        retrieval_id: RetrievalId(4),
        plan_digest: PlanDigest([1; 32]),
        completeness: FetchCompletenessV1::Complete,
        events: vec![event(1, b"alpha"), event(2, b"beta"), event(3, b"ga\nma")],
    }
}

fn run_manifest(wall_time_nanos: u64) -> EvidentrailBenchRunManifestV1 {
    EvidentrailBenchRunManifestV1 {
        identity: BenchmarkRunIdentityV1 {
            system_artifact_digest: ArtifactDigest([13; 32]),
            build_artifact_digest: ArtifactDigest([14; 32]),
            dataset_artifact_digest: ArtifactDigest([15; 32]),
            seed: 7,
            budget: BenchmarkBudgetV1 {
                unique_candidate_event_count: 8,
                unique_candidate_source_bytes: 64,
                canonical_candidate_tokens: 100,
                wall_time_nanos,
                peak_memory_bytes: 4_096,
            },
        },
        public_case_artifact_digests: vec![ArtifactDigest([2; 32]), CASE],
    }
}

fn environment() -> MeasurementEnvironmentV1 {
    MeasurementEnvironmentV1 {
        tokenizer: TokenizerIdentityV1 { artifact_digest: ArtifactDigest([16; 32]) },
        renderer: CandidateRendererIdentityV1 { artifact_digest: ArtifactDigest([17; 32]), contract_version: 1 },
        harness: MeasurementHarnessIdentityV1 { artifact_digest: ArtifactDigest([18; 32]), contract_version: 1 },
    }
}

fn observed() -> MeasuredCandidateResources {
    MeasuredCandidateResources { canonical_candidate_tokens: 12, wall_time_nanos: 500, peak_memory_bytes: 1_024 }
}

/// "alphabeta", the pass-through prefix, then the escaped third event.
fn rendered() -> Vec<u8> {
    let mut bytes = b"alphabeta".to_vec();
    bytes.extend_from_slice(PASSTHROUGH_ASCII_BYTE_ESCAPE_FIELD_PREFIX_V1.as_bytes());
    bytes.extend_from_slice(b"ga\\nma");
    bytes
}

fn encoded_start() -> u64 {
    9 + PASSTHROUGH_ASCII_BYTE_ESCAPE_FIELD_PREFIX_V1.len() as u64
}

fn exact(raw: &[u8]) -> ArtifactDigest {
    derive_source_exact_representation_artifact_digest_v1(raw).unwrap()
}

fn encoded_claim() -> EvidenceRepresentationClaimV1 {
    let digest =
        derive_reversible_encoded_representation_artifact_digest_v1(ascii_byte_escape_v1_identity(), b"ga\\nma").unwrap();
    EvidenceRepresentationClaimV1::source_exact_reversible_encoding(
        EventId(3),
        ascii_byte_escape_v1_identity(),
        digest,
        9,
        encoded_start(),
        encoded_start() + 6,
    )
}

fn good_claims() -> Vec<EvidenceRepresentationClaimV1> {
    vec![
        encoded_claim(),
        EvidenceRepresentationClaimV1::source_exact_shown_verbatim(EventId(2), exact(b"beta"), 5, 9),
        EvidenceRepresentationClaimV1::source_exact_shown_verbatim(EventId(1), exact(b"alpha"), 0, 5),
        EvidenceRepresentationClaimV1::pattern_only(EventId(1), ArtifactDigest([3; 32])),
    ]
}

fn freeze_with(
    manifest: &EvidentrailBenchRunManifestV1,
    case: ArtifactDigest,
    method: MethodDescriptor,
    rendered_candidate: RenderedCandidateArtifactV1,
    bytes: &[u8],
    normalizer: ArtifactDigest,
    claims: Vec<EvidenceRepresentationClaimV1>,
) -> Result<FrozenExternalRepresentationSubmissionV1, RepresentationFidelityErrorV1> {
    FrozenExternalRepresentationSubmissionV1::try_new_self_asserted(
        ArtifactDigest([9; 32]),
        manifest,
        case,
        method,
        &ledger(),
        ArtifactDigest([10; 32]),
        normalizer,
        environment(),
        rendered_candidate,
        bytes,
        observed(),
        claims,
    )
}

fn artifact(bytes: &[u8]) -> RenderedCandidateArtifactV1 {
    let digest: [u8; 32] = sha2::Sha256::digest(bytes).into();
    RenderedCandidateArtifactV1 { artifact_digest: ArtifactDigest(digest), byte_count: bytes.len() as u64 }
}

fn freeze(claims: Vec<EvidenceRepresentationClaimV1>) -> Result<FrozenExternalRepresentationSubmissionV1, RepresentationFidelityErrorV1> {
    let bytes = rendered();
    freeze_with(
        &run_manifest(1_000),
        CASE,
        MethodDescriptor::new("external", "1"),
        artifact(&bytes),
        &bytes,
        ArtifactDigest([11; 32]),
        claims,
    )
}

#[test]
fn verified_submission_sorts_claims_and_recomputes_resources() {
    let submission = freeze(good_claims()).ok().unwrap();
    let order: Vec<(u64, bool)> =
        submission.claims.iter().map(|c| (c.event_id.0, c.rendered_byte_range.is_some())).collect();
    assert_eq!(order, vec![(1, true), (1, false), (2, true), (3, true)]);
    assert_eq!(submission.candidate_event_ids, vec![EventId(1), EventId(2), EventId(3)]);
    assert_eq!(submission.resources.unique_candidate_event_count, 3);
    assert_eq!(submission.resources.unique_candidate_source_bytes, 14);
    assert_eq!(submission.resources.wall_time_nanos, 500);
    assert_eq!(submission.retrieval_id, RetrievalId(4));
    assert_eq!(submission.run_identity.seed, 7);
}

#[test]
fn submission_digest_is_stable_and_binds_the_normalizer() {
    let first = freeze(good_claims()).ok().unwrap();
    let mut reordered = good_claims();
    reordered.reverse();
    let second = freeze(reordered).ok().unwrap();
    assert_eq!(first.artifact_digest.0, second.artifact_digest.0);
    let bytes = rendered();
    let other = freeze_with(
        &run_manifest(1_000),
        CASE,
        MethodDescriptor::new("external", "1"),
        artifact(&bytes),
        &bytes,
        ArtifactDigest([12; 32]),
        good_claims(),
    )
    .ok()
    .unwrap();
    assert_ne!(first.artifact_digest.0, other.artifact_digest.0);
    assert_ne!(first.artifact_digest.0, [0; 32]);
}

#[test]
fn verbatim_slice_must_equal_the_event_bytes() {
    let claims = vec![EvidenceRepresentationClaimV1::source_exact_shown_verbatim(EventId(2), exact(b"beta"), 4, 8)];
    assert_eq!(freeze(claims).err(), Some(RepresentationFidelityErrorV1::SourceExactDigestMismatch { count: 1 }));
    let beyond = vec![EvidenceRepresentationClaimV1::source_exact_shown_verbatim(EventId(2), exact(b"beta"), 5, 99)];
    assert_eq!(freeze(beyond).err(), Some(RepresentationFidelityErrorV1::InvalidRenderedByteRange));
    let empty = vec![EvidenceRepresentationClaimV1::source_exact_shown_verbatim(EventId(2), exact(b"beta"), 5, 5)];
    assert_eq!(freeze(empty).err(), Some(RepresentationFidelityErrorV1::InvalidRenderedByteRange));
    let unknown = vec![EvidenceRepresentationClaimV1::source_exact_shown_verbatim(EventId(9), exact(b"beta"), 5, 9)];
    assert_eq!(freeze(unknown).err(), Some(RepresentationFidelityErrorV1::UnknownClaimedEvent));
}

#[test]
fn encoded_claim_needs_an_admitted_prefix_and_decoding() {
    let mut shifted = encoded_claim();
    shifted.reversible_context_start = Some(8);
    assert_eq!(freeze(vec![shifted]).err(), Some(RepresentationFidelityErrorV1::MalformedReversibleEncodingContext));
    let mut wrong_event = encoded_claim();
    wrong_event.event_id = EventId(2);
    assert_eq!(freeze(vec![wrong_event]).err(), Some(RepresentationFidelityErrorV1::ReversibleDecodedBytesMismatch));
    let mut wrong_digest = encoded_claim();
    wrong_digest.representation_artifact_digest = ArtifactDigest([0; 32]);
    assert_eq!(freeze(vec![wrong_digest]).err(), Some(RepresentationFidelityErrorV1::ReversibleEncodingDigestMismatch));
}

#[test]
fn each_event_and_class_is_claimed_once() {
    let twice = vec![
        EvidenceRepresentationClaimV1::pattern_only(EventId(1), ArtifactDigest([3; 32])),
        EvidenceRepresentationClaimV1::pattern_only(EventId(1), ArtifactDigest([4; 32])),
    ];
    assert_eq!(freeze(twice).err(), Some(RepresentationFidelityErrorV1::DuplicateEventRepresentationClass));
}

#[test]
fn overlapping_occurrences_of_equal_events_are_refused() {
    let bytes = b"alphaalpha".to_vec();
    let claims = vec![
        EvidenceRepresentationClaimV1::source_exact_shown_verbatim(EventId(1), exact(b"alpha"), 0, 5),
        EvidenceRepresentationClaimV1::source_exact_shown_verbatim(EventId(1), exact(b"alpha"), 0, 5),
    ];
    let frozen = freeze_with(
        &run_manifest(1_000),
        CASE,
        MethodDescriptor::new("external", "1"),
        artifact(&bytes),
        &bytes,
        ArtifactDigest([11; 32]),
        claims,
    );
    assert_eq!(frozen.err(), Some(RepresentationFidelityErrorV1::DuplicateEventRepresentationClass));
    let mut ledger = ledger();
    ledger.events[1].raw = b"alpha".to_vec();
    let shared = vec![
        EvidenceRepresentationClaimV1::source_exact_shown_verbatim(EventId(1), exact(b"alpha"), 0, 5),
        EvidenceRepresentationClaimV1::source_exact_shown_verbatim(EventId(2), exact(b"alpha"), 2, 7),
    ];
    let frozen = FrozenExternalRepresentationSubmissionV1::try_new_self_asserted(
        ArtifactDigest([9; 32]),
        &run_manifest(1_000),
        CASE,
        MethodDescriptor::new("external", "1"),
        &ledger,
        ArtifactDigest([10; 32]),
        ArtifactDigest([11; 32]),
        environment(),
        artifact(b"alphalpha"),
        b"alphalpha",
        observed(),
        shared,
    );
    assert_eq!(frozen.err(), Some(RepresentationFidelityErrorV1::SourceExactDigestMismatch { count: 1 }));
    let apart = vec![
        EvidenceRepresentationClaimV1::source_exact_shown_verbatim(EventId(1), exact(b"alpha"), 0, 5),
        EvidenceRepresentationClaimV1::source_exact_shown_verbatim(EventId(2), exact(b"alpha"), 5, 10),
    ];
    let overlapping = vec![
        EvidenceRepresentationClaimV1::source_exact_shown_verbatim(EventId(1), exact(b"alpha"), 0, 5),
        EvidenceRepresentationClaimV1::source_exact_shown_verbatim(EventId(2), exact(b"alpha"), 0, 5),
    ];
    let freeze_on = |claims: Vec<EvidenceRepresentationClaimV1>| {
        FrozenExternalRepresentationSubmissionV1::try_new_self_asserted(
            ArtifactDigest([9; 32]),
            &run_manifest(1_000),
            CASE,
            MethodDescriptor::new("external", "1"),
            &ledger,
            ArtifactDigest([10; 32]),
            ArtifactDigest([11; 32]),
            environment(),
            artifact(&bytes),
            &bytes,
            observed(),
            claims,
        )
    };
    assert!(freeze_on(apart).is_ok());
    assert_eq!(
        freeze_on(overlapping).err(),
        Some(RepresentationFidelityErrorV1::OverlappingProvenRepresentationRanges)
    );
}

#[test]
fn submission_prechecks_come_in_order() {
    let bytes = rendered();
    let method = MethodDescriptor::new("external", "1");
    let unknown_case =
        freeze_with(&run_manifest(1_000), ArtifactDigest([6; 32]), method, artifact(&bytes), &bytes, ArtifactDigest([11; 32]), good_claims());
    assert_eq!(unknown_case.err(), Some(RepresentationFidelityErrorV1::UnknownPublicCaseArtifact));
    let unnamed = freeze_with(
        &run_manifest(1_000),
        CASE,
        MethodDescriptor::new("", "1"),
        artifact(&bytes),
        &bytes,
        ArtifactDigest([11; 32]),
        good_claims(),
    );
    assert_eq!(unnamed.err(), Some(RepresentationFidelityErrorV1::EmptyMethodIdentity));
    let long_name: &'static str = Box::leak("m".repeat(129).into_boxed_str());
    let long = freeze_with(
        &run_manifest(1_000),
        CASE,
        MethodDescriptor::new(long_name, "1"),
        artifact(&bytes),
        &bytes,
        ArtifactDigest([11; 32]),
        good_claims(),
    );
    assert_eq!(long.err(), Some(RepresentationFidelityErrorV1::MethodIdentityTooLarge));
    let mut huge = artifact(&bytes);
    huge.byte_count = 16_777_217;
    let too_large = freeze_with(&run_manifest(1_000), CASE, method, huge, &bytes, ArtifactDigest([11; 32]), good_claims());
    assert_eq!(too_large.err(), Some(RepresentationFidelityErrorV1::RenderedCandidateTooLarge));
    let mut tampered = bytes.clone();
    tampered[0] = b'A';
    let mismatch =
        freeze_with(&run_manifest(1_000), CASE, method, artifact(&bytes), &tampered, ArtifactDigest([11; 32]), good_claims());
    assert_eq!(mismatch.err(), Some(RepresentationFidelityErrorV1::RenderedCandidateArtifactMismatch));
    assert_eq!(freeze(Vec::new()).err(), Some(RepresentationFidelityErrorV1::EmptyRepresentationClaims));
    let many: Vec<EvidenceRepresentationClaimV1> =
        (0..8_193u64).map(|i| EvidenceRepresentationClaimV1::pattern_only(EventId(i), ArtifactDigest([3; 32]))).collect();
    assert_eq!(freeze(many).err(), Some(RepresentationFidelityErrorV1::TooManyRepresentationClaims));
}

#[test]
fn resources_must_fit_the_run_cap() {
    let bytes = rendered();
    let tight = freeze_with(
        &run_manifest(499),
        CASE,
        MethodDescriptor::new("external", "1"),
        artifact(&bytes),
        &bytes,
        ArtifactDigest([11; 32]),
        good_claims(),
    );
    assert_eq!(tight.err(), Some(RepresentationFidelityErrorV1::CandidateResourceCapExceeded));
    let exact_cap = freeze_with(
        &run_manifest(500),
        CASE,
        MethodDescriptor::new("external", "1"),
        artifact(&bytes),
        &bytes,
        ArtifactDigest([11; 32]),
        good_claims(),
    );
    assert!(exact_cap.is_ok());
    let unknown = vec![EvidenceRepresentationClaimV1::pattern_only(EventId(77), ArtifactDigest([3; 32]))];
    assert_eq!(freeze(unknown).err(), Some(RepresentationFidelityErrorV1::CandidateResourceInvariantViolation));
}

#[test]
fn measurement_receipt_keeps_every_binding() {
    let manifest = run_manifest(1_000);
    let receipt = MeasurementProvenanceReceiptV1::new_self_asserted(
        ArtifactDigest([9; 32]),
        manifest.identity,
        CASE,
        MethodDescriptor::new("external", "1"),
        FrozenCandidateSelectionDigestV1::from_bytes([4; 32]),
        PresentationReceiptId(3),
        environment(),
        artifact(&rendered()),
        observed(),
    );
    assert_eq!(receipt.trust_boundary(), MeasurementTrustBoundaryV1::SelfAssertedReproducibilityInput);
    assert_eq!(receipt.run_identity().seed, 7);
    assert_eq!(receipt.presentation_receipt_id(), PresentationReceiptId(3));
    assert_eq!(receipt.canonical_candidate_tokens(), 12);
    assert_eq!(receipt.wall_time_nanos(), 500);
    assert_eq!(receipt.peak_rss_bytes(), 1_024);
    assert_eq!(receipt.rendered_candidate().byte_count, rendered().len() as u64);
    let rendering = FrozenCandidateRenderingV1::new_self_asserted(
        CASE,
        FrozenCandidateSelectionDigestV1::from_bytes([4; 32]),
        PresentationReceiptId(3),
        environment().renderer,
        artifact(&rendered()),
    );
    assert_eq!(rendering.candidate_selection_digest().0, [4; 32]);
    assert_eq!(rendering.renderer().contract_version, 1);
}
