//! Measurement provenance: the digest that freezes one candidate set and
//! selection result, the receipt trust boundary, and contentless failures.

use vstd::prelude::*;
use vstd::utf8::encode_utf8;
use crate::digest::ArtifactDigest;
use crate::ledger::{EventId, EventLedger};
use crate::producer_proposals::JSON_SAFE_INTEGER_MAX;
use crate::method::{AccountingSummary, MethodDescriptor, MethodResult, SelectedEvent, SelectionReason};
use crate::producer_frontier::{push_u64_field, u64_field};
use crate::sha256::{framed, push_field, sha256, sha256_spec};
use crate::evaluator::PresentationReceiptId;
use crate::run_aggregation::BenchmarkRunIdentityV1;

verus! {

/// Domain-separated commitment to one exact frozen candidate set and selection result.
#[derive(Clone, Copy, Debug, Hash)]
pub struct FrozenCandidateSelectionDigestV1(pub [u8; 32]);

impl FrozenCandidateSelectionDigestV1 {
    pub fn from_bytes(bytes: [u8; 32]) -> (r: Self)
        ensures
            r.0 == bytes,
    {
        FrozenCandidateSelectionDigestV1(bytes)
    }

    pub fn as_bytes(&self) -> (r: &[u8; 32])
        ensures
            *r == self.0,
    {
        &self.0
    }
}

/// The only trust class represented by the current receipt.
#[derive(Clone, Copy, Debug, PartialEq, Eq, Structural)]
pub enum MeasurementTrustBoundaryV1 {
    SelfAssertedReproducibilityInput,
}

impl MeasurementTrustBoundaryV1 {
    pub open spec fn spec_code(self) -> Seq<char> {
        match self {
            MeasurementTrustBoundaryV1::SelfAssertedReproducibilityInput => "self_asserted_reproducibility_input"@,
        }
    }

    pub fn code(self) -> (r: &'static str)
        ensures
            r@ == self.spec_code(),
    {
        match self {
            MeasurementTrustBoundaryV1::SelfAssertedReproducibilityInput => "self_asserted_reproducibility_input",
        }
    }
}
/// Stable construction failures with no identities or content.
#[derive(Clone, Copy, Debug, PartialEq, Eq, Structural)]
pub enum MeasurementProvenanceError {
    ZeroRendererContractVersion,
    RendererContractVersionExceedsJsonSafeInteger,
    RenderedCandidateBytesExceedJsonSafeInteger,
    ZeroHarnessContractVersion,
    HarnessContractVersionExceedsJsonSafeInteger,
    SelectionBindingLengthOverflow,
    SelectionBindingValueOverflow,
}

impl MeasurementProvenanceError {
    pub open spec fn spec_code(self) -> Seq<char> {
        match self {
            MeasurementProvenanceError::ZeroRendererContractVersion => "EVIDENTRAIL_BENCH_MEASUREMENT_ZERO_RENDERER_CONTRACT_VERSION"@,
            MeasurementProvenanceError::RendererContractVersionExceedsJsonSafeInteger => "EVIDENTRAIL_BENCH_MEASUREMENT_RENDERER_VERSION_EXCEEDS_JSON_SAFE_INTEGER"@,
            MeasurementProvenanceError::RenderedCandidateBytesExceedJsonSafeInteger => "EVIDENTRAIL_BENCH_MEASUREMENT_RENDERED_CANDIDATE_BYTES_EXCEED_JSON_SAFE_INTEGER"@,
            MeasurementProvenanceError::ZeroHarnessContractVersion => "EVIDENTRAIL_BENCH_MEASUREMENT_ZERO_HARNESS_CONTRACT_VERSION"@,
            MeasurementProvenanceError::HarnessContractVersionExceedsJsonSafeInteger => "EVIDENTRAIL_BENCH_MEASUREMENT_HARNESS_VERSION_EXCEEDS_JSON_SAFE_INTEGER"@,
            MeasurementProvenanceError::SelectionBindingLengthOverflow => "EVIDENTRAIL_BENCH_MEASUREMENT_SELECTION_BINDING_LENGTH_OVERFLOW"@,
            MeasurementProvenanceError::SelectionBindingValueOverflow => "EVIDENTRAIL_BENCH_MEASUREMENT_SELECTION_BINDING_VALUE_OVERFLOW"@,
        }
    }

    pub fn code(self) -> (r: &'static str)
        ensures
            r@ == self.spec_code(),
    {
        match self {
            MeasurementProvenanceError::ZeroRendererContractVersion => "EVIDENTRAIL_BENCH_MEASUREMENT_ZERO_RENDERER_CONTRACT_VERSION",
            MeasurementProvenanceError::RendererContractVersionExceedsJsonSafeInteger => "EVIDENTRAIL_BENCH_MEASUREMENT_RENDERER_VERSION_EXCEEDS_JSON_SAFE_INTEGER",
            MeasurementProvenanceError::RenderedCandidateBytesExceedJsonSafeInteger => "EVIDENTRAIL_BENCH_MEASUREMENT_RENDERED_CANDIDATE_BYTES_EXCEED_JSON_SAFE_INTEGER",
            MeasurementProvenanceError::ZeroHarnessContractVersion => "EVIDENTRAIL_BENCH_MEASUREMENT_ZERO_HARNESS_CONTRACT_VERSION",
            MeasurementProvenanceError::HarnessContractVersionExceedsJsonSafeInteger => "EVIDENTRAIL_BENCH_MEASUREMENT_HARNESS_VERSION_EXCEEDS_JSON_SAFE_INTEGER",
            MeasurementProvenanceError::SelectionBindingLengthOverflow => "EVIDENTRAIL_BENCH_MEASUREMENT_SELECTION_BINDING_LENGTH_OVERFLOW",
            MeasurementProvenanceError::SelectionBindingValueOverflow => "EVIDENTRAIL_BENCH_MEASUREMENT_SELECTION_BINDING_VALUE_OVERFLOW",
        }
    }
}
/// Opaque identity of the exact tokenizer implementation and configuration.
#[derive(Clone, Copy)]
pub struct TokenizerIdentityV1 {
    pub artifact_digest: ArtifactDigest,
}

impl TokenizerIdentityV1 {
    pub fn new(artifact_digest: ArtifactDigest) -> (r: Self)
        ensures
            r.artifact_digest == artifact_digest,
    {
        TokenizerIdentityV1 { artifact_digest }
    }

    pub fn artifact_digest(self) -> (r: ArtifactDigest)
        ensures
            r == self.artifact_digest,
    {
        self.artifact_digest
    }
}

/// Identity of the canonical candidate renderer: its artifact and a
/// positive, JSON-safe serialization contract version.
#[derive(Clone, Copy)]
pub struct CandidateRendererIdentityV1 {
    pub artifact_digest: ArtifactDigest,
    pub contract_version: u64,
}

impl CandidateRendererIdentityV1 {
    pub fn try_new(artifact_digest: ArtifactDigest, contract_version: u64) -> (r: Result<
        Self,
        MeasurementProvenanceError,
    >)
        ensures
            contract_version == 0 ==> r == Err::<Self, MeasurementProvenanceError>(
                MeasurementProvenanceError::ZeroRendererContractVersion,
            ),
            contract_version > JSON_SAFE_INTEGER_MAX ==> r == Err::<Self, MeasurementProvenanceError>(
                MeasurementProvenanceError::RendererContractVersionExceedsJsonSafeInteger,
            ),
            0 < contract_version <= JSON_SAFE_INTEGER_MAX ==> (r matches Ok(id) && id.artifact_digest
                == artifact_digest && id.contract_version == contract_version),
    {
        if contract_version == 0 {
            return Err(MeasurementProvenanceError::ZeroRendererContractVersion);
        }
        if contract_version > JSON_SAFE_INTEGER_MAX {
            return Err(MeasurementProvenanceError::RendererContractVersionExceedsJsonSafeInteger);
        }
        Ok(CandidateRendererIdentityV1 { artifact_digest, contract_version })
    }

    pub fn artifact_digest(self) -> (r: ArtifactDigest)
        ensures
            r == self.artifact_digest,
    {
        self.artifact_digest
    }

    pub fn contract_version(self) -> (r: u64)
        ensures
            r == self.contract_version,
    {
        self.contract_version
    }
}

/// Identity of the measurement harness: its artifact and a positive,
/// JSON-safe contract version.
#[derive(Clone, Copy)]
pub struct MeasurementHarnessIdentityV1 {
    pub artifact_digest: ArtifactDigest,
    pub contract_version: u64,
}

impl MeasurementHarnessIdentityV1 {
    pub fn try_new(artifact_digest: ArtifactDigest, contract_version: u64) -> (r: Result<
        Self,
        MeasurementProvenanceError,
    >)
        ensures
            contract_version == 0 ==> r == Err::<Self, MeasurementProvenanceError>(
                MeasurementProvenanceError::ZeroHarnessContractVersion,
            ),
            contract_version > JSON_SAFE_INTEGER_MAX ==> r == Err::<Self, MeasurementProvenanceError>(
                MeasurementProvenanceError::HarnessContractVersionExceedsJsonSafeInteger,
            ),
            0 < contract_version <= JSON_SAFE_INTEGER_MAX ==> (r matches Ok(id) && id.artifact_digest
                == artifact_digest && id.contract_version == contract_version),
    {
        if contract_version == 0 {
            return Err(MeasurementProvenanceError::ZeroHarnessContractVersion);
        }
        if contract_version > JSON_SAFE_INTEGER_MAX {
            return Err(MeasurementProvenanceError::HarnessContractVersionExceedsJsonSafeInteger);
        }
        Ok(MeasurementHarnessIdentityV1 { artifact_digest, contract_version })
    }

    pub fn artifact_digest(self) -> (r: ArtifactDigest)
        ensures
            r == self.artifact_digest,
    {
        self.artifact_digest
    }

    pub fn contract_version(self) -> (r: u64)
        ensures
            r == self.contract_version,
    {
        self.contract_version
    }
}

/// Run-wide identities expected for every externally measured case.
#[derive(Clone, Copy)]
pub struct MeasurementEnvironmentV1 {
    pub tokenizer: TokenizerIdentityV1,
    pub renderer: CandidateRendererIdentityV1,
    pub harness: MeasurementHarnessIdentityV1,
}

impl MeasurementEnvironmentV1 {
    pub fn new(
        tokenizer: TokenizerIdentityV1,
        renderer: CandidateRendererIdentityV1,
        harness: MeasurementHarnessIdentityV1,
    ) -> (r: Self)
        ensures
            r.tokenizer == tokenizer && r.renderer == renderer && r.harness == harness,
    {
        MeasurementEnvironmentV1 { tokenizer, renderer, harness }
    }

    pub fn tokenizer(self) -> (r: TokenizerIdentityV1)
        ensures
            r == self.tokenizer,
    {
        self.tokenizer
    }

    pub fn renderer(self) -> (r: CandidateRendererIdentityV1)
        ensures
            r == self.renderer,
    {
        self.renderer
    }

    pub fn harness(self) -> (r: MeasurementHarnessIdentityV1)
        ensures
            r == self.harness,
    {
        self.harness
    }
}

/// The exact artifact the canonical candidate renderer produced: its digest
/// and a JSON-safe byte count.
#[derive(Clone, Copy)]
pub struct RenderedCandidateArtifactV1 {
    pub artifact_digest: ArtifactDigest,
    pub byte_count: u64,
}

impl RenderedCandidateArtifactV1 {
    pub fn try_new(artifact_digest: ArtifactDigest, byte_count: u64) -> (r: Result<Self, MeasurementProvenanceError>)
        ensures
            byte_count > JSON_SAFE_INTEGER_MAX ==> r == Err::<Self, MeasurementProvenanceError>(
                MeasurementProvenanceError::RenderedCandidateBytesExceedJsonSafeInteger,
            ),
            byte_count <= JSON_SAFE_INTEGER_MAX ==> (r matches Ok(a) && a.artifact_digest == artifact_digest
                && a.byte_count == byte_count),
    {
        if byte_count > JSON_SAFE_INTEGER_MAX {
            return Err(MeasurementProvenanceError::RenderedCandidateBytesExceedJsonSafeInteger);
        }
        Ok(RenderedCandidateArtifactV1 { artifact_digest, byte_count })
    }

    pub fn artifact_digest(self) -> (r: ArtifactDigest)
        ensures
            r == self.artifact_digest,
    {
        self.artifact_digest
    }

    pub fn byte_count(self) -> (r: u64)
        ensures
            r == self.byte_count,
    {
        self.byte_count
    }
}

/// The resources of one candidate that only an external measurement can
/// observe: canonical tokens, wall time and peak memory.
#[derive(Clone, Copy)]
pub struct MeasuredCandidateResources {
    pub canonical_candidate_tokens: u64,
    pub wall_time_nanos: u64,
    pub peak_memory_bytes: u64,
}

/// One candidate's five resource axes: its event count and source bytes,
/// recomputed from the sealed ledger, and the three observed axes.
#[derive(Clone, Copy)]
pub struct CandidateResourceEnvelope {
    pub unique_candidate_event_count: u64,
    pub unique_candidate_source_bytes: u64,
    pub canonical_candidate_tokens: u64,
    pub wall_time_nanos: u64,
    pub peak_memory_bytes: u64,
}

/// Domain that opens the frozen selection digest.
pub const FROZEN_SELECTION_DOMAIN_V1: &'static str = "evidentrail/bench/frozen-candidate-selection/v1";

pub open spec fn event_ids_bytes(ids: Seq<EventId>, n: int) -> Seq<u8>
    decreases n,
{
    if n <= 0 {
        Seq::empty()
    } else {
        event_ids_bytes(ids, n - 1) + u64_field(ids[n - 1].0)
    }
}

pub open spec fn reasons_bytes(reasons: Seq<SelectionReason>, n: int) -> Seq<u8>
    decreases n,
{
    if n <= 0 {
        Seq::empty()
    } else {
        reasons_bytes(reasons, n - 1) + framed(encode_utf8(reasons[n - 1].spec_code()))
    }
}

pub open spec fn selected_bytes(selected: Seq<SelectedEvent>, n: int) -> Seq<u8>
    decreases n,
{
    if n <= 0 {
        Seq::empty()
    } else {
        let s = selected[n - 1];
        selected_bytes(selected, n - 1) + u64_field(s.event_id.0) + u64_field(s.ordinal) + u64_field(
            s.source_byte_cost as u64,
        ) + u64_field(s.reasons.len() as u64) + reasons_bytes(s.reasons@, s.reasons.len() as int)
    }
}

pub open spec fn accounting_bytes(a: AccountingSummary) -> Seq<u8> {
    u64_field(a.received_event_count as u64) + u64_field(a.candidate_cost.event_count as u64) + u64_field(
        a.candidate_cost.unique_source_bytes as u64,
    ) + u64_field(a.selected_event_count as u64) + u64_field(a.retained_raw_event_count as u64) + u64_field(
        a.budget_excluded_candidate_count as u64,
    ) + u64_field(a.selected_source_bytes as u64) + u64_field(a.budget.0 as u64)
}

/// The bytes the frozen selection digest commits to: the retrieval, the
/// method identity, the candidates, every selected event with its ordinal,
/// cost and canonical reasons, and the accounting.
pub open spec fn selection_message(ledger: EventLedger, result: MethodResult) -> Seq<u8> {
    framed(encode_utf8(FROZEN_SELECTION_DOMAIN_V1@)) + u64_field(ledger.retrieval_id.0) + framed(
        encode_utf8(result.method.name@),
    ) + framed(encode_utf8(result.method.version@)) + u64_field(result.candidate_event_ids.len() as u64)
        + event_ids_bytes(result.candidate_event_ids@, result.candidate_event_ids.len() as int) + u64_field(
        result.selected.len() as u64,
    ) + selected_bytes(result.selected@, result.selected.len() as int) + accounting_bytes(result.accounting)
}

fn push_selected(buf: &mut Vec<u8>, s: &SelectedEvent)
    ensures
        final(buf)@ == old(buf)@ + u64_field(s.event_id.0) + u64_field(s.ordinal) + u64_field(s.source_byte_cost as u64)
            + u64_field(s.reasons.len() as u64) + reasons_bytes(s.reasons@, s.reasons.len() as int),
{
    push_u64_field(buf, s.event_id.0);
    push_u64_field(buf, s.ordinal);
    push_u64_field(buf, s.source_byte_cost as u64);
    push_u64_field(buf, s.reasons.len() as u64);
    let ghost head = buf@;
    let mut k: usize = 0;
    while k < s.reasons.len()
        invariant
            k <= s.reasons.len(),
            buf@ == head + reasons_bytes(s.reasons@, k as int),
        decreases s.reasons.len() - k,
    {
        push_field(buf, s.reasons[k].code().as_bytes());
        k = k + 1;
        proof {
            assert(buf@ =~= head + reasons_bytes(s.reasons@, k as int));
        }
    }
    proof {
        assert(buf@ =~= old(buf)@ + u64_field(s.event_id.0) + u64_field(s.ordinal) + u64_field(
            s.source_byte_cost as u64,
        ) + u64_field(s.reasons.len() as u64) + reasons_bytes(s.reasons@, s.reasons.len() as int));
    }
}

fn push_accounting(buf: &mut Vec<u8>, a: AccountingSummary)
    ensures
        final(buf)@ == old(buf)@ + accounting_bytes(a),
{
    push_u64_field(buf, a.received_event_count as u64);
    push_u64_field(buf, a.candidate_cost.event_count as u64);
    push_u64_field(buf, a.candidate_cost.unique_source_bytes as u64);
    push_u64_field(buf, a.selected_event_count as u64);
    push_u64_field(buf, a.retained_raw_event_count as u64);
    push_u64_field(buf, a.budget_excluded_candidate_count as u64);
    push_u64_field(buf, a.selected_source_bytes as u64);
    push_u64_field(buf, a.budget.0 as u64);
    proof {
        assert(buf@ =~= old(buf)@ + accounting_bytes(a));
    }
}

/// Freeze one exact candidate set and selection result: the digest binds
/// every selected event's identity, ordinal, source-byte cost and canonical
/// reasons, and the accounting, so that no receipt carries across a budget
/// or accounting change.
pub fn derive_frozen_candidate_selection_digest_v1(ledger: &EventLedger, result: &MethodResult) -> (r: Result<
    FrozenCandidateSelectionDigestV1,
    MeasurementProvenanceError,
>)
    ensures
        r matches Ok(d) && d.0@ == sha256_spec(selection_message(*ledger, *result)),
{
    let mut message: Vec<u8> = Vec::new();
    push_field(&mut message, FROZEN_SELECTION_DOMAIN_V1.as_bytes());
    push_u64_field(&mut message, ledger.retrieval_id.0);
    push_field(&mut message, result.method.name.as_bytes());
    push_field(&mut message, result.method.version.as_bytes());
    push_u64_field(&mut message, result.candidate_event_ids.len() as u64);
    let ghost head = message@;
    let mut i: usize = 0;
    while i < result.candidate_event_ids.len()
        invariant
            i <= result.candidate_event_ids.len(),
            message@ == head + event_ids_bytes(result.candidate_event_ids@, i as int),
        decreases result.candidate_event_ids.len() - i,
    {
        push_u64_field(&mut message, result.candidate_event_ids[i].0);
        i = i + 1;
        proof {
            assert(message@ =~= head + event_ids_bytes(result.candidate_event_ids@, i as int));
        }
    }
    push_u64_field(&mut message, result.selected.len() as u64);
    let ghost mid = message@;
    let mut j: usize = 0;
    while j < result.selected.len()
        invariant
            j <= result.selected.len(),
            message@ == mid + selected_bytes(result.selected@, j as int),
        decreases result.selected.len() - j,
    {
        push_selected(&mut message, &result.selected[j]);
        j = j + 1;
        proof {
            assert(message@ =~= mid + selected_bytes(result.selected@, j as int));
        }
    }
    push_accounting(&mut message, result.accounting);
    proof {
        assert(message@ =~= selection_message(*ledger, *result));
    }
    Ok(FrozenCandidateSelectionDigestV1(sha256(message.as_slice())))
}

/// A self-asserted binding of the exact rendered candidate artifact, frozen
/// before governed labels are admitted so that a later measurement receipt
/// can be compared against it. It is reproducibility provenance, not an
/// attestation that the named renderer ran.
#[derive(Clone, Copy)]
pub struct FrozenCandidateRenderingV1 {
    pub public_case_artifact_digest: ArtifactDigest,
    pub candidate_selection_digest: FrozenCandidateSelectionDigestV1,
    pub presentation_receipt_id: PresentationReceiptId,
    pub renderer: CandidateRendererIdentityV1,
    pub rendered_candidate: RenderedCandidateArtifactV1,
}

impl FrozenCandidateRenderingV1 {
    pub fn new_self_asserted(
        public_case_artifact_digest: ArtifactDigest,
        candidate_selection_digest: FrozenCandidateSelectionDigestV1,
        presentation_receipt_id: PresentationReceiptId,
        renderer: CandidateRendererIdentityV1,
        rendered_candidate: RenderedCandidateArtifactV1,
    ) -> (r: Self)
        ensures
            r.public_case_artifact_digest == public_case_artifact_digest,
            r.candidate_selection_digest == candidate_selection_digest,
            r.presentation_receipt_id == presentation_receipt_id,
            r.renderer == renderer,
            r.rendered_candidate == rendered_candidate,
    {
        FrozenCandidateRenderingV1 {
            public_case_artifact_digest,
            candidate_selection_digest,
            presentation_receipt_id,
            renderer,
            rendered_candidate,
        }
    }

    pub fn public_case_artifact_digest(self) -> (r: ArtifactDigest)
        ensures
            r == self.public_case_artifact_digest,
    {
        self.public_case_artifact_digest
    }

    pub fn candidate_selection_digest(self) -> (r: FrozenCandidateSelectionDigestV1)
        ensures
            r == self.candidate_selection_digest,
    {
        self.candidate_selection_digest
    }

    pub fn presentation_receipt_id(self) -> (r: PresentationReceiptId)
        ensures
            r == self.presentation_receipt_id,
    {
        self.presentation_receipt_id
    }

    pub fn renderer(self) -> (r: CandidateRendererIdentityV1)
        ensures
            r == self.renderer,
    {
        self.renderer
    }

    pub fn rendered_candidate(self) -> (r: RenderedCandidateArtifactV1)
        ensures
            r == self.rendered_candidate,
    {
        self.rendered_candidate
    }
}

/// Self-asserted provenance of externally observed candidate measurements:
/// every execution identity and frozen-output binding is explicit. Its
/// consistency with those inputs can be checked; it is not independent
/// attestation of the harness or of the observations.
#[derive(Clone, Copy)]
pub struct MeasurementProvenanceReceiptV1 {
    pub run_manifest_artifact_digest: ArtifactDigest,
    pub run_identity: BenchmarkRunIdentityV1,
    pub public_case_artifact_digest: ArtifactDigest,
    pub method: MethodDescriptor,
    pub candidate_selection_digest: FrozenCandidateSelectionDigestV1,
    pub presentation_receipt_id: PresentationReceiptId,
    pub environment: MeasurementEnvironmentV1,
    pub rendered_candidate: RenderedCandidateArtifactV1,
    pub externally_observed: MeasuredCandidateResources,
}

impl MeasurementProvenanceReceiptV1 {
    pub fn new_self_asserted(
        run_manifest_artifact_digest: ArtifactDigest,
        run_identity: BenchmarkRunIdentityV1,
        public_case_artifact_digest: ArtifactDigest,
        method: MethodDescriptor,
        candidate_selection_digest: FrozenCandidateSelectionDigestV1,
        presentation_receipt_id: PresentationReceiptId,
        environment: MeasurementEnvironmentV1,
        rendered_candidate: RenderedCandidateArtifactV1,
        externally_observed: MeasuredCandidateResources,
    ) -> (r: Self)
        ensures
            r.run_manifest_artifact_digest == run_manifest_artifact_digest,
            r.run_identity == run_identity,
            r.public_case_artifact_digest == public_case_artifact_digest,
            r.method == method,
            r.candidate_selection_digest == candidate_selection_digest,
            r.presentation_receipt_id == presentation_receipt_id,
            r.environment == environment,
            r.rendered_candidate == rendered_candidate,
            r.externally_observed == externally_observed,
    {
        MeasurementProvenanceReceiptV1 {
            run_manifest_artifact_digest,
            run_identity,
            public_case_artifact_digest,
            method,
            candidate_selection_digest,
            presentation_receipt_id,
            environment,
            rendered_candidate,
            externally_observed,
        }
    }

    pub fn trust_boundary(self) -> (r: MeasurementTrustBoundaryV1)
        ensures
            r == MeasurementTrustBoundaryV1::SelfAssertedReproducibilityInput,
    {
        MeasurementTrustBoundaryV1::SelfAssertedReproducibilityInput
    }

    pub fn run_manifest_artifact_digest(self) -> (r: ArtifactDigest)
        ensures
            r == self.run_manifest_artifact_digest,
    {
        self.run_manifest_artifact_digest
    }

    pub fn run_identity(self) -> (r: BenchmarkRunIdentityV1)
        ensures
            r == self.run_identity,
    {
        self.run_identity
    }

    pub fn public_case_artifact_digest(self) -> (r: ArtifactDigest)
        ensures
            r == self.public_case_artifact_digest,
    {
        self.public_case_artifact_digest
    }

    pub fn method(self) -> (r: MethodDescriptor)
        ensures
            r == self.method,
    {
        self.method
    }

    pub fn candidate_selection_digest(self) -> (r: FrozenCandidateSelectionDigestV1)
        ensures
            r == self.candidate_selection_digest,
    {
        self.candidate_selection_digest
    }

    pub fn presentation_receipt_id(self) -> (r: PresentationReceiptId)
        ensures
            r == self.presentation_receipt_id,
    {
        self.presentation_receipt_id
    }

    pub fn environment(self) -> (r: MeasurementEnvironmentV1)
        ensures
            r == self.environment,
    {
        self.environment
    }

    pub fn rendered_candidate(self) -> (r: RenderedCandidateArtifactV1)
        ensures
            r == self.rendered_candidate,
    {
        self.rendered_candidate
    }

    pub fn externally_observed(self) -> (r: MeasuredCandidateResources)
        ensures
            r == self.externally_observed,
    {
        self.externally_observed
    }

    pub fn canonical_candidate_tokens(self) -> (r: u64)
        ensures
            r == self.externally_observed.canonical_candidate_tokens,
    {
        self.externally_observed.canonical_candidate_tokens
    }

    pub fn wall_time_nanos(self) -> (r: u64)
        ensures
            r == self.externally_observed.wall_time_nanos,
    {
        self.externally_observed.wall_time_nanos
    }

    pub fn peak_rss_bytes(self) -> (r: u64)
        ensures
            r == self.externally_observed.peak_memory_bytes,
    {
        self.externally_observed.peak_memory_bytes
    }
}

} // verus!
