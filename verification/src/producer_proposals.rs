//! Producer-proposal resource accounting: opaque proposal identities, the
//! measured resource surface, inclusive resource caps and their violations.

use vstd::prelude::*;

use crate::digest::{bytes32_eq, ArtifactDigest};
use crate::evaluator::{GovernedCaseArtifactBindingV1, GovernedRequirementRecallV1};
use crate::ledger::{AcquisitionReceiptId, EventId, PlanDigest, PlanId, RetrievalId, SourceIdentityDigest};
use crate::packet_order::{events_ascending, events_distinct, insert_event_id};
use crate::manifest::ExpectedAcquisitionClassV1;
use crate::measurement::MeasurementTrustBoundaryV1;

verus! {

/// Largest integer that every JSON consumer represents exactly (2^53 - 1).
pub const JSON_SAFE_INTEGER_MAX: u64 = 9_007_199_254_740_991;

/// Maximum packets in one frozen producer proposal universe.
pub const MAX_PRODUCER_PROPOSAL_PACKETS_V1: usize = 4_096;

/// Maximum exact event members in one producer proposal packet.
pub const MAX_PRODUCER_PROPOSAL_MEMBERS_PER_PACKET_V1: usize = 4_096;

/// Maximum packet-member references across one frozen proposal universe.
pub const MAX_PRODUCER_PROPOSAL_MEMBER_REFERENCES_V1: usize = 65_536;

/// Benchmark-neutral opaque identity for one producer proposal packet.
#[derive(Clone, Copy, Debug, Hash)]
pub struct ProducerProposalIdV1(pub [u8; 32]);

impl ProducerProposalIdV1 {
    pub fn from_bytes(bytes: [u8; 32]) -> (r: Self)
        ensures
            r.0 == bytes,
    {
        ProducerProposalIdV1(bytes)
    }

    pub fn as_bytes(&self) -> (r: &[u8; 32])
        ensures
            *r == self.0,
    {
        &self.0
    }
}

/// Domain-separated commitment to the complete label-blind proposal universe.
#[derive(Clone, Copy, Debug, Hash)]
pub struct FrozenProducerProposalUniverseDigestV1(pub [u8; 32]);

impl FrozenProducerProposalUniverseDigestV1 {
    pub fn as_bytes(&self) -> (r: &[u8; 32])
        ensures
            *r == self.0,
    {
        &self.0
    }
}

/// Inherent, label-free accounting over the exact proposal universe.
#[derive(Clone, Copy, Debug, PartialEq, Eq, Structural)]
pub struct ProducerProposalAccountingV1 {
    pub proposal_packet_count: u64,
    pub unique_member_event_count: u64,
    pub unique_member_source_bytes: u64,
}

impl ProducerProposalAccountingV1 {
    pub fn proposal_packet_count(self) -> (r: u64)
        ensures
            r == self.proposal_packet_count,
    {
        self.proposal_packet_count
    }

    pub fn unique_member_event_count(self) -> (r: u64)
        ensures
            r == self.unique_member_event_count,
    {
        self.unique_member_event_count
    }

    pub fn unique_member_source_bytes(self) -> (r: u64)
        ensures
            r == self.unique_member_source_bytes,
    {
        self.unique_member_source_bytes
    }


}
/// Externally observed proposal-render resources.
#[derive(Clone, Copy, Debug, PartialEq, Eq, Structural)]
pub struct MeasuredProducerProposalResourcesV1 {
    pub canonical_proposal_render_tokens: u64,
    pub wall_time_nanos: u64,
    pub peak_rss_bytes: u64,
}

impl MeasuredProducerProposalResourcesV1 {
    pub fn canonical_proposal_render_tokens(self) -> (r: u64)
        ensures
            r == self.canonical_proposal_render_tokens,
    {
        self.canonical_proposal_render_tokens
    }

    pub fn wall_time_nanos(self) -> (r: u64)
        ensures
            r == self.wall_time_nanos,
    {
        self.wall_time_nanos
    }

    pub fn peak_rss_bytes(self) -> (r: u64)
        ensures
            r == self.peak_rss_bytes,
    {
        self.peak_rss_bytes
    }

    /// Externally observed render resources; wall time and peak RSS must be
    /// present and non-zero, and every value JSON-safe.
    pub fn try_new(
        canonical_proposal_render_tokens: u64,
        wall_time_nanos: Option<u64>,
        peak_rss_bytes: Option<u64>,
    ) -> (r: Result<Self, ProducerProposalErrorV1>)
        ensures
            r == (match (wall_time_nanos, peak_rss_bytes) {
                (None, _) => Err(ProducerProposalErrorV1::MissingWallTimeMeasurement),
                (Some(_), None) => Err(ProducerProposalErrorV1::MissingPeakRssMeasurement),
                (Some(w), Some(p)) => if w == 0 {
                    Err(ProducerProposalErrorV1::ZeroWallTimeMeasurement)
                } else if p == 0 {
                    Err(ProducerProposalErrorV1::ZeroPeakRssMeasurement)
                } else if canonical_proposal_render_tokens > JSON_SAFE_INTEGER_MAX || w
                    > JSON_SAFE_INTEGER_MAX || p > JSON_SAFE_INTEGER_MAX {
                    Err(ProducerProposalErrorV1::MeasurementValueExceedsJsonSafeInteger)
                } else {
                    Ok(
                        MeasuredProducerProposalResourcesV1 {
                            canonical_proposal_render_tokens,
                            wall_time_nanos: w,
                            peak_rss_bytes: p,
                        },
                    )
                },
            }),
    {
        let wall_time_nanos = match wall_time_nanos {
            Some(v) => v,
            None => {
                return Err(ProducerProposalErrorV1::MissingWallTimeMeasurement);
            },
        };
        let peak_rss_bytes = match peak_rss_bytes {
            Some(v) => v,
            None => {
                return Err(ProducerProposalErrorV1::MissingPeakRssMeasurement);
            },
        };
        if wall_time_nanos == 0 {
            return Err(ProducerProposalErrorV1::ZeroWallTimeMeasurement);
        }
        if peak_rss_bytes == 0 {
            return Err(ProducerProposalErrorV1::ZeroPeakRssMeasurement);
        }
        if canonical_proposal_render_tokens > JSON_SAFE_INTEGER_MAX || wall_time_nanos
            > JSON_SAFE_INTEGER_MAX || peak_rss_bytes > JSON_SAFE_INTEGER_MAX {
            return Err(ProducerProposalErrorV1::MeasurementValueExceedsJsonSafeInteger);
        }
        Ok(MeasuredProducerProposalResourcesV1 { canonical_proposal_render_tokens, wall_time_nanos, peak_rss_bytes })
    }

}
/// Exact producer-proposal resource surface.
#[derive(Clone, Copy, Debug, PartialEq, Eq, Structural)]
pub struct ProducerProposalResourceEnvelopeV1 {
    pub proposal_packet_count: u64,
    pub unique_member_event_count: u64,
    pub unique_member_source_bytes: u64,
    pub canonical_proposal_render_tokens: u64,
    pub wall_time_nanos: u64,
    pub peak_rss_bytes: u64,
}

impl ProducerProposalResourceEnvelopeV1 {
    pub fn proposal_packet_count(self) -> (r: u64)
        ensures
            r == self.proposal_packet_count,
    {
        self.proposal_packet_count
    }

    pub fn unique_member_event_count(self) -> (r: u64)
        ensures
            r == self.unique_member_event_count,
    {
        self.unique_member_event_count
    }

    pub fn unique_member_source_bytes(self) -> (r: u64)
        ensures
            r == self.unique_member_source_bytes,
    {
        self.unique_member_source_bytes
    }

    pub fn canonical_proposal_render_tokens(self) -> (r: u64)
        ensures
            r == self.canonical_proposal_render_tokens,
    {
        self.canonical_proposal_render_tokens
    }

    pub fn wall_time_nanos(self) -> (r: u64)
        ensures
            r == self.wall_time_nanos,
    {
        self.wall_time_nanos
    }

    pub fn peak_rss_bytes(self) -> (r: u64)
        ensures
            r == self.peak_rss_bytes,
    {
        self.peak_rss_bytes
    }


}
/// One explicit producer-proposal resource-cap dimension.
#[derive(Clone, Copy, Debug, PartialEq, Eq, PartialOrd, Ord, Structural)]
pub enum ProducerProposalResourceDimensionV1 {
    ProposalPacketCount,
    UniqueMemberSourceBytes,
    CanonicalProposalRenderTokens,
    WallTimeNanos,
    PeakRssBytes,
}

impl ProducerProposalResourceDimensionV1 {
    pub open spec fn spec_code(self) -> Seq<char> {
        match self {
            ProducerProposalResourceDimensionV1::ProposalPacketCount => "proposal_packet_count"@,
            ProducerProposalResourceDimensionV1::UniqueMemberSourceBytes => "unique_member_source_bytes"@,
            ProducerProposalResourceDimensionV1::CanonicalProposalRenderTokens => "canonical_proposal_render_tokens"@,
            ProducerProposalResourceDimensionV1::WallTimeNanos => "wall_time_nanos"@,
            ProducerProposalResourceDimensionV1::PeakRssBytes => "peak_rss_bytes"@,
        }
    }

    pub fn code(self) -> (r: &'static str)
        ensures
            r@ == self.spec_code(),
    {
        match self {
            ProducerProposalResourceDimensionV1::ProposalPacketCount => "proposal_packet_count",
            ProducerProposalResourceDimensionV1::UniqueMemberSourceBytes => "unique_member_source_bytes",
            ProducerProposalResourceDimensionV1::CanonicalProposalRenderTokens => "canonical_proposal_render_tokens",
            ProducerProposalResourceDimensionV1::WallTimeNanos => "wall_time_nanos",
            ProducerProposalResourceDimensionV1::PeakRssBytes => "peak_rss_bytes",
        }
    }
}
/// Inclusive maxima for the five producer-proposal dimensions.
#[derive(Clone, Copy, Debug, PartialEq, Eq, Structural)]
pub struct ProducerProposalResourceCapV1 {
    pub proposal_packet_count: u64,
    pub unique_member_source_bytes: u64,
    pub canonical_proposal_render_tokens: u64,
    pub wall_time_nanos: u64,
    pub peak_rss_bytes: u64,
}

impl ProducerProposalResourceCapV1 {
    pub fn proposal_packet_count(self) -> (r: u64)
        ensures
            r == self.proposal_packet_count,
    {
        self.proposal_packet_count
    }

    pub fn unique_member_source_bytes(self) -> (r: u64)
        ensures
            r == self.unique_member_source_bytes,
    {
        self.unique_member_source_bytes
    }

    pub fn canonical_proposal_render_tokens(self) -> (r: u64)
        ensures
            r == self.canonical_proposal_render_tokens,
    {
        self.canonical_proposal_render_tokens
    }

    pub fn wall_time_nanos(self) -> (r: u64)
        ensures
            r == self.wall_time_nanos,
    {
        self.wall_time_nanos
    }

    pub fn peak_rss_bytes(self) -> (r: u64)
        ensures
            r == self.peak_rss_bytes,
    {
        self.peak_rss_bytes
    }

    /// Inclusive maxima; every cap must be JSON-safe.
    pub fn try_new(
        proposal_packet_count: u64,
        unique_member_source_bytes: u64,
        canonical_proposal_render_tokens: u64,
        wall_time_nanos: u64,
        peak_rss_bytes: u64,
    ) -> (r: Result<Self, ProducerProposalErrorV1>)
        ensures
            r == (if proposal_packet_count > JSON_SAFE_INTEGER_MAX || unique_member_source_bytes
                > JSON_SAFE_INTEGER_MAX || canonical_proposal_render_tokens > JSON_SAFE_INTEGER_MAX
                || wall_time_nanos > JSON_SAFE_INTEGER_MAX || peak_rss_bytes > JSON_SAFE_INTEGER_MAX {
                Err(ProducerProposalErrorV1::ResourceCapExceedsJsonSafeInteger)
            } else {
                Ok(
                    ProducerProposalResourceCapV1 {
                        proposal_packet_count,
                        unique_member_source_bytes,
                        canonical_proposal_render_tokens,
                        wall_time_nanos,
                        peak_rss_bytes,
                    },
                )
            }),
    {
        if proposal_packet_count > JSON_SAFE_INTEGER_MAX || unique_member_source_bytes
            > JSON_SAFE_INTEGER_MAX || canonical_proposal_render_tokens > JSON_SAFE_INTEGER_MAX
            || wall_time_nanos > JSON_SAFE_INTEGER_MAX || peak_rss_bytes > JSON_SAFE_INTEGER_MAX {
            return Err(ProducerProposalErrorV1::ResourceCapExceedsJsonSafeInteger);
        }
        Ok(
            ProducerProposalResourceCapV1 {
                proposal_packet_count,
                unique_member_source_bytes,
                canonical_proposal_render_tokens,
                wall_time_nanos,
                peak_rss_bytes,
            },
        )
    }

    /// The exceeded dimensions, in fixed resource-surface order.
    pub open spec fn exceeded(self, resources: ProducerProposalResourceEnvelopeV1) -> Seq<
        ProducerProposalResourceDimensionV1,
    > {
        (if resources.proposal_packet_count > self.proposal_packet_count { seq![ProducerProposalResourceDimensionV1::ProposalPacketCount] } else { Seq::empty() }) + (if resources.unique_member_source_bytes > self.unique_member_source_bytes { seq![ProducerProposalResourceDimensionV1::UniqueMemberSourceBytes] } else { Seq::empty() }) + (if resources.canonical_proposal_render_tokens > self.canonical_proposal_render_tokens { seq![ProducerProposalResourceDimensionV1::CanonicalProposalRenderTokens] } else { Seq::empty() }) + (if resources.wall_time_nanos > self.wall_time_nanos { seq![ProducerProposalResourceDimensionV1::WallTimeNanos] } else { Seq::empty() }) + (if resources.peak_rss_bytes > self.peak_rss_bytes { seq![ProducerProposalResourceDimensionV1::PeakRssBytes] } else { Seq::empty() })
    }

    /// Preserve every exceeded dimension in fixed resource-surface order.
    pub fn check(self, resources: ProducerProposalResourceEnvelopeV1) -> (r: Result<
        (),
        ProducerProposalCapViolationsV1,
    >)
        ensures
            r is Ok <==> self.exceeded(resources).len() == 0,
            r matches Err(v) ==> v.dimensions@ == self.exceeded(resources),
    {
        let mut dimensions: Vec<ProducerProposalResourceDimensionV1> = Vec::new();
        if resources.proposal_packet_count > self.proposal_packet_count {
            dimensions.push(ProducerProposalResourceDimensionV1::ProposalPacketCount);
        }
        if resources.unique_member_source_bytes > self.unique_member_source_bytes {
            dimensions.push(ProducerProposalResourceDimensionV1::UniqueMemberSourceBytes);
        }
        if resources.canonical_proposal_render_tokens > self.canonical_proposal_render_tokens {
            dimensions.push(ProducerProposalResourceDimensionV1::CanonicalProposalRenderTokens);
        }
        if resources.wall_time_nanos > self.wall_time_nanos {
            dimensions.push(ProducerProposalResourceDimensionV1::WallTimeNanos);
        }
        if resources.peak_rss_bytes > self.peak_rss_bytes {
            dimensions.push(ProducerProposalResourceDimensionV1::PeakRssBytes);
        }
        proof {
            assert(dimensions@ =~= self.exceeded(resources));
        }
        if dimensions.len() == 0 {
            Ok(())
        } else {
            Err(ProducerProposalCapViolationsV1 { dimensions })
        }
    }

}
/// Non-empty, non-scalarized set of producer-proposal cap violations.
#[derive(Clone, Debug)]
pub struct ProducerProposalCapViolationsV1 {
    pub dimensions: Vec<ProducerProposalResourceDimensionV1>,
}

impl ProducerProposalCapViolationsV1 {
    pub fn dimensions(&self) -> (r: &[ProducerProposalResourceDimensionV1])
        ensures
            r@ == self.dimensions@,
    {
        self.dimensions.as_slice()
    }

    pub fn contains(&self, dimension: ProducerProposalResourceDimensionV1) -> (r: bool)
        ensures
            r == self.dimensions@.contains(dimension),
    {
        let mut i: usize = 0;
        while i < self.dimensions.len()
            invariant
                i <= self.dimensions.len(),
                forall|j: int| 0 <= j < i ==> self.dimensions@[j] != dimension,
            decreases self.dimensions.len() - i,
        {
            if self.dimensions[i] == dimension {
                return true;
            }
            i = i + 1;
        }
        false
    }

    pub fn len(&self) -> (r: usize)
        ensures
            r == self.dimensions.len(),
    {
        self.dimensions.len()
    }

    /// A violation set is never empty.
    pub fn is_empty(&self) -> (r: bool)
        ensures
            r == false,
    {
        false
    }

    pub fn code(&self) -> (r: &'static str)
        ensures
            r@ == "EVIDENTRAIL_BENCH_PRODUCER_PROPOSAL_RESOURCE_CAP_VIOLATED"@,
    {
        "EVIDENTRAIL_BENCH_PRODUCER_PROPOSAL_RESOURCE_CAP_VIOLATED"
    }
}

/// Contentless construction, binding, and governed-evaluation failures.
#[derive(Clone, Copy, Debug, PartialEq, Eq, Structural)]
pub enum ProducerProposalErrorV1 {
    EmptyProposalMembership,
    TooManyMembersPerProposal,
    DuplicateProposalMember,
    TooManyProposalPackets,
    TooManyProposalMemberReferences,
    DuplicateProposalId,
    UnknownProposalMember { count: usize },
    AccountingOverflow,
    AccountingExceedsJsonSafeInteger,
    ProposalAccountingMismatch,
    PublicCaseArtifactBindingMismatch,
    PublicCasePlanMismatch,
    PublicCaseAcquisitionMismatch,
    RetrievalMismatch,
    PlanIdentityMismatch,
    AcquisitionReceiptMismatch,
    SourceIdentityMismatch,
    MeasurementBindingMismatch,
    ZeroRendererContractVersion,
    ZeroTokenizerContractVersion,
    ZeroMeasurementHarnessContractVersion,
    UnsupportedCanonicalRenderer,
    CanonicalRenderArtifactIntegrityMismatch,
    CanonicalRenderAcquisitionMismatch,
    CanonicalRenderUniverseMismatch,
    MissingWallTimeMeasurement,
    ZeroWallTimeMeasurement,
    MissingPeakRssMeasurement,
    ZeroPeakRssMeasurement,
    MeasurementValueExceedsJsonSafeInteger,
    ResourceCapExceedsJsonSafeInteger,
    BlockIndexRetrievalMismatch,
    BlockIndexUniverseMismatch,
    UnknownAnnotationEvent { count: usize },
    UnknownAnnotationBlock { count: usize },
    RequirementWeightOverflow,
    RequirementCountOverflow,
    GovernedCaseValidationInvariant,
}

impl ProducerProposalErrorV1 {
    pub open spec fn spec_code(self) -> Seq<char> {
        match self {
            ProducerProposalErrorV1::EmptyProposalMembership => "EVIDENTRAIL_BENCH_PROPOSAL_EMPTY_MEMBERSHIP"@,
            ProducerProposalErrorV1::TooManyMembersPerProposal => "EVIDENTRAIL_BENCH_PROPOSAL_MEMBER_CAP"@,
            ProducerProposalErrorV1::DuplicateProposalMember => "EVIDENTRAIL_BENCH_PROPOSAL_DUPLICATE_MEMBER"@,
            ProducerProposalErrorV1::TooManyProposalPackets => "EVIDENTRAIL_BENCH_PROPOSAL_PACKET_CAP"@,
            ProducerProposalErrorV1::TooManyProposalMemberReferences => "EVIDENTRAIL_BENCH_PROPOSAL_MEMBER_REFERENCE_CAP"@,
            ProducerProposalErrorV1::DuplicateProposalId => "EVIDENTRAIL_BENCH_PROPOSAL_DUPLICATE_ID"@,
            ProducerProposalErrorV1::UnknownProposalMember { .. } => "EVIDENTRAIL_BENCH_PROPOSAL_UNKNOWN_MEMBER"@,
            ProducerProposalErrorV1::AccountingOverflow => "EVIDENTRAIL_BENCH_PROPOSAL_ACCOUNTING_OVERFLOW"@,
            ProducerProposalErrorV1::AccountingExceedsJsonSafeInteger => "EVIDENTRAIL_BENCH_PROPOSAL_ACCOUNTING_EXCEEDS_JSON_SAFE_INTEGER"@,
            ProducerProposalErrorV1::ProposalAccountingMismatch => "EVIDENTRAIL_BENCH_PROPOSAL_ACCOUNTING_MISMATCH"@,
            ProducerProposalErrorV1::PublicCaseArtifactBindingMismatch => "EVIDENTRAIL_BENCH_PROPOSAL_PUBLIC_CASE_ARTIFACT_BINDING_MISMATCH"@,
            ProducerProposalErrorV1::PublicCasePlanMismatch => "EVIDENTRAIL_BENCH_PROPOSAL_PUBLIC_CASE_PLAN_MISMATCH"@,
            ProducerProposalErrorV1::PublicCaseAcquisitionMismatch => "EVIDENTRAIL_BENCH_PROPOSAL_PUBLIC_CASE_ACQUISITION_MISMATCH"@,
            ProducerProposalErrorV1::RetrievalMismatch => "EVIDENTRAIL_BENCH_PROPOSAL_RETRIEVAL_MISMATCH"@,
            ProducerProposalErrorV1::PlanIdentityMismatch => "EVIDENTRAIL_BENCH_PROPOSAL_PLAN_IDENTITY_MISMATCH"@,
            ProducerProposalErrorV1::AcquisitionReceiptMismatch => "EVIDENTRAIL_BENCH_PROPOSAL_ACQUISITION_RECEIPT_MISMATCH"@,
            ProducerProposalErrorV1::SourceIdentityMismatch => "EVIDENTRAIL_BENCH_PROPOSAL_SOURCE_IDENTITY_MISMATCH"@,
            ProducerProposalErrorV1::MeasurementBindingMismatch => "EVIDENTRAIL_BENCH_PROPOSAL_MEASUREMENT_BINDING_MISMATCH"@,
            ProducerProposalErrorV1::ZeroRendererContractVersion => "EVIDENTRAIL_BENCH_PROPOSAL_ZERO_RENDERER_CONTRACT_VERSION"@,
            ProducerProposalErrorV1::ZeroTokenizerContractVersion => "EVIDENTRAIL_BENCH_PROPOSAL_ZERO_TOKENIZER_CONTRACT_VERSION"@,
            ProducerProposalErrorV1::ZeroMeasurementHarnessContractVersion => "EVIDENTRAIL_BENCH_PROPOSAL_ZERO_MEASUREMENT_HARNESS_CONTRACT_VERSION"@,
            ProducerProposalErrorV1::UnsupportedCanonicalRenderer => "EVIDENTRAIL_BENCH_PROPOSAL_UNSUPPORTED_CANONICAL_RENDERER"@,
            ProducerProposalErrorV1::CanonicalRenderArtifactIntegrityMismatch => "EVIDENTRAIL_BENCH_PROPOSAL_CANONICAL_RENDER_ARTIFACT_INTEGRITY_MISMATCH"@,
            ProducerProposalErrorV1::CanonicalRenderAcquisitionMismatch => "EVIDENTRAIL_BENCH_PROPOSAL_CANONICAL_RENDER_ACQUISITION_MISMATCH"@,
            ProducerProposalErrorV1::CanonicalRenderUniverseMismatch => "EVIDENTRAIL_BENCH_PROPOSAL_CANONICAL_RENDER_UNIVERSE_MISMATCH"@,
            ProducerProposalErrorV1::MissingWallTimeMeasurement => "EVIDENTRAIL_BENCH_PROPOSAL_MISSING_WALL_TIME"@,
            ProducerProposalErrorV1::ZeroWallTimeMeasurement => "EVIDENTRAIL_BENCH_PROPOSAL_ZERO_WALL_TIME"@,
            ProducerProposalErrorV1::MissingPeakRssMeasurement => "EVIDENTRAIL_BENCH_PROPOSAL_MISSING_PEAK_RSS"@,
            ProducerProposalErrorV1::ZeroPeakRssMeasurement => "EVIDENTRAIL_BENCH_PROPOSAL_ZERO_PEAK_RSS"@,
            ProducerProposalErrorV1::MeasurementValueExceedsJsonSafeInteger => "EVIDENTRAIL_BENCH_PROPOSAL_MEASUREMENT_EXCEEDS_JSON_SAFE_INTEGER"@,
            ProducerProposalErrorV1::ResourceCapExceedsJsonSafeInteger => "EVIDENTRAIL_BENCH_PROPOSAL_RESOURCE_CAP_EXCEEDS_JSON_SAFE_INTEGER"@,
            ProducerProposalErrorV1::BlockIndexRetrievalMismatch => "EVIDENTRAIL_BENCH_PROPOSAL_BLOCK_INDEX_RETRIEVAL_MISMATCH"@,
            ProducerProposalErrorV1::BlockIndexUniverseMismatch => "EVIDENTRAIL_BENCH_PROPOSAL_BLOCK_INDEX_UNIVERSE_MISMATCH"@,
            ProducerProposalErrorV1::UnknownAnnotationEvent { .. } => "EVIDENTRAIL_BENCH_PROPOSAL_UNKNOWN_ANNOTATION_EVENT"@,
            ProducerProposalErrorV1::UnknownAnnotationBlock { .. } => "EVIDENTRAIL_BENCH_PROPOSAL_UNKNOWN_ANNOTATION_BLOCK"@,
            ProducerProposalErrorV1::RequirementWeightOverflow => "EVIDENTRAIL_BENCH_PROPOSAL_REQUIREMENT_WEIGHT_OVERFLOW"@,
            ProducerProposalErrorV1::RequirementCountOverflow => "EVIDENTRAIL_BENCH_PROPOSAL_REQUIREMENT_COUNT_OVERFLOW"@,
            ProducerProposalErrorV1::GovernedCaseValidationInvariant => "EVIDENTRAIL_BENCH_PROPOSAL_GOVERNED_CASE_VALIDATION_INVARIANT"@,
        }
    }

    pub fn code(self) -> (r: &'static str)
        ensures
            r@ == self.spec_code(),
    {
        match self {
            ProducerProposalErrorV1::EmptyProposalMembership => "EVIDENTRAIL_BENCH_PROPOSAL_EMPTY_MEMBERSHIP",
            ProducerProposalErrorV1::TooManyMembersPerProposal => "EVIDENTRAIL_BENCH_PROPOSAL_MEMBER_CAP",
            ProducerProposalErrorV1::DuplicateProposalMember => "EVIDENTRAIL_BENCH_PROPOSAL_DUPLICATE_MEMBER",
            ProducerProposalErrorV1::TooManyProposalPackets => "EVIDENTRAIL_BENCH_PROPOSAL_PACKET_CAP",
            ProducerProposalErrorV1::TooManyProposalMemberReferences => "EVIDENTRAIL_BENCH_PROPOSAL_MEMBER_REFERENCE_CAP",
            ProducerProposalErrorV1::DuplicateProposalId => "EVIDENTRAIL_BENCH_PROPOSAL_DUPLICATE_ID",
            ProducerProposalErrorV1::UnknownProposalMember { .. } => "EVIDENTRAIL_BENCH_PROPOSAL_UNKNOWN_MEMBER",
            ProducerProposalErrorV1::AccountingOverflow => "EVIDENTRAIL_BENCH_PROPOSAL_ACCOUNTING_OVERFLOW",
            ProducerProposalErrorV1::AccountingExceedsJsonSafeInteger => "EVIDENTRAIL_BENCH_PROPOSAL_ACCOUNTING_EXCEEDS_JSON_SAFE_INTEGER",
            ProducerProposalErrorV1::ProposalAccountingMismatch => "EVIDENTRAIL_BENCH_PROPOSAL_ACCOUNTING_MISMATCH",
            ProducerProposalErrorV1::PublicCaseArtifactBindingMismatch => "EVIDENTRAIL_BENCH_PROPOSAL_PUBLIC_CASE_ARTIFACT_BINDING_MISMATCH",
            ProducerProposalErrorV1::PublicCasePlanMismatch => "EVIDENTRAIL_BENCH_PROPOSAL_PUBLIC_CASE_PLAN_MISMATCH",
            ProducerProposalErrorV1::PublicCaseAcquisitionMismatch => "EVIDENTRAIL_BENCH_PROPOSAL_PUBLIC_CASE_ACQUISITION_MISMATCH",
            ProducerProposalErrorV1::RetrievalMismatch => "EVIDENTRAIL_BENCH_PROPOSAL_RETRIEVAL_MISMATCH",
            ProducerProposalErrorV1::PlanIdentityMismatch => "EVIDENTRAIL_BENCH_PROPOSAL_PLAN_IDENTITY_MISMATCH",
            ProducerProposalErrorV1::AcquisitionReceiptMismatch => "EVIDENTRAIL_BENCH_PROPOSAL_ACQUISITION_RECEIPT_MISMATCH",
            ProducerProposalErrorV1::SourceIdentityMismatch => "EVIDENTRAIL_BENCH_PROPOSAL_SOURCE_IDENTITY_MISMATCH",
            ProducerProposalErrorV1::MeasurementBindingMismatch => "EVIDENTRAIL_BENCH_PROPOSAL_MEASUREMENT_BINDING_MISMATCH",
            ProducerProposalErrorV1::ZeroRendererContractVersion => "EVIDENTRAIL_BENCH_PROPOSAL_ZERO_RENDERER_CONTRACT_VERSION",
            ProducerProposalErrorV1::ZeroTokenizerContractVersion => "EVIDENTRAIL_BENCH_PROPOSAL_ZERO_TOKENIZER_CONTRACT_VERSION",
            ProducerProposalErrorV1::ZeroMeasurementHarnessContractVersion => "EVIDENTRAIL_BENCH_PROPOSAL_ZERO_MEASUREMENT_HARNESS_CONTRACT_VERSION",
            ProducerProposalErrorV1::UnsupportedCanonicalRenderer => "EVIDENTRAIL_BENCH_PROPOSAL_UNSUPPORTED_CANONICAL_RENDERER",
            ProducerProposalErrorV1::CanonicalRenderArtifactIntegrityMismatch => "EVIDENTRAIL_BENCH_PROPOSAL_CANONICAL_RENDER_ARTIFACT_INTEGRITY_MISMATCH",
            ProducerProposalErrorV1::CanonicalRenderAcquisitionMismatch => "EVIDENTRAIL_BENCH_PROPOSAL_CANONICAL_RENDER_ACQUISITION_MISMATCH",
            ProducerProposalErrorV1::CanonicalRenderUniverseMismatch => "EVIDENTRAIL_BENCH_PROPOSAL_CANONICAL_RENDER_UNIVERSE_MISMATCH",
            ProducerProposalErrorV1::MissingWallTimeMeasurement => "EVIDENTRAIL_BENCH_PROPOSAL_MISSING_WALL_TIME",
            ProducerProposalErrorV1::ZeroWallTimeMeasurement => "EVIDENTRAIL_BENCH_PROPOSAL_ZERO_WALL_TIME",
            ProducerProposalErrorV1::MissingPeakRssMeasurement => "EVIDENTRAIL_BENCH_PROPOSAL_MISSING_PEAK_RSS",
            ProducerProposalErrorV1::ZeroPeakRssMeasurement => "EVIDENTRAIL_BENCH_PROPOSAL_ZERO_PEAK_RSS",
            ProducerProposalErrorV1::MeasurementValueExceedsJsonSafeInteger => "EVIDENTRAIL_BENCH_PROPOSAL_MEASUREMENT_EXCEEDS_JSON_SAFE_INTEGER",
            ProducerProposalErrorV1::ResourceCapExceedsJsonSafeInteger => "EVIDENTRAIL_BENCH_PROPOSAL_RESOURCE_CAP_EXCEEDS_JSON_SAFE_INTEGER",
            ProducerProposalErrorV1::BlockIndexRetrievalMismatch => "EVIDENTRAIL_BENCH_PROPOSAL_BLOCK_INDEX_RETRIEVAL_MISMATCH",
            ProducerProposalErrorV1::BlockIndexUniverseMismatch => "EVIDENTRAIL_BENCH_PROPOSAL_BLOCK_INDEX_UNIVERSE_MISMATCH",
            ProducerProposalErrorV1::UnknownAnnotationEvent { .. } => "EVIDENTRAIL_BENCH_PROPOSAL_UNKNOWN_ANNOTATION_EVENT",
            ProducerProposalErrorV1::UnknownAnnotationBlock { .. } => "EVIDENTRAIL_BENCH_PROPOSAL_UNKNOWN_ANNOTATION_BLOCK",
            ProducerProposalErrorV1::RequirementWeightOverflow => "EVIDENTRAIL_BENCH_PROPOSAL_REQUIREMENT_WEIGHT_OVERFLOW",
            ProducerProposalErrorV1::RequirementCountOverflow => "EVIDENTRAIL_BENCH_PROPOSAL_REQUIREMENT_COUNT_OVERFLOW",
            ProducerProposalErrorV1::GovernedCaseValidationInvariant => "EVIDENTRAIL_BENCH_PROPOSAL_GOVERNED_CASE_VALIDATION_INVARIANT",
        }
    }
}
/// Exact producer method, configuration, and producer-receipt artifacts.
#[derive(Clone, Copy, Debug)]
pub struct ProducerProposalIdentityV1 {
    pub method_artifact_digest: ArtifactDigest,
    pub config_artifact_digest: ArtifactDigest,
    pub producer_receipt_artifact_digest: ArtifactDigest,
}

impl ProducerProposalIdentityV1 {
    pub fn new(
        method_artifact_digest: ArtifactDigest,
        config_artifact_digest: ArtifactDigest,
        producer_receipt_artifact_digest: ArtifactDigest,
    ) -> (r: Self)
        ensures
            r.method_artifact_digest == method_artifact_digest,
            r.config_artifact_digest == config_artifact_digest,
            r.producer_receipt_artifact_digest == producer_receipt_artifact_digest,
    {
        ProducerProposalIdentityV1 { method_artifact_digest, config_artifact_digest, producer_receipt_artifact_digest }
    }

    pub fn method_artifact_digest(self) -> (r: ArtifactDigest)
        ensures
            r == self.method_artifact_digest,
    {
        self.method_artifact_digest
    }

    pub fn config_artifact_digest(self) -> (r: ArtifactDigest)
        ensures
            r == self.config_artifact_digest,
    {
        self.config_artifact_digest
    }

    pub fn producer_receipt_artifact_digest(self) -> (r: ArtifactDigest)
        ensures
            r == self.producer_receipt_artifact_digest,
    {
        self.producer_receipt_artifact_digest
    }
}

/// The acquisition every proposal of one case must share: retrieval, plan,
/// receipt, source identity and acquisition class. The proposal universe is
/// deliberately not part of it, so different producers may propose different
/// memberships.
#[derive(Clone, Copy, Debug)]
pub struct ProducerProposalAcquisitionBindingV1 {
    pub retrieval_id: RetrievalId,
    pub plan_id: PlanId,
    pub plan_digest: PlanDigest,
    pub acquisition_receipt_id: AcquisitionReceiptId,
    pub source_identity_digest: SourceIdentityDigest,
    pub acquisition_class: ExpectedAcquisitionClassV1,
}

impl ProducerProposalAcquisitionBindingV1 {
    /// Both bindings name the same acquisition, field by field.
    pub open spec fn same_as(self, other: Self) -> bool {
        &&& self.retrieval_id == other.retrieval_id
        &&& self.plan_id == other.plan_id
        &&& self.plan_digest.0@ == other.plan_digest.0@
        &&& self.acquisition_receipt_id == other.acquisition_receipt_id
        &&& self.source_identity_digest.0@ == other.source_identity_digest.0@
        &&& self.acquisition_class == other.acquisition_class
    }

    pub fn matches(&self, other: &Self) -> (r: bool)
        ensures
            r == self.same_as(*other),
    {
        self.retrieval_id == other.retrieval_id && self.plan_id == other.plan_id && bytes32_eq(
            &self.plan_digest.0,
            &other.plan_digest.0,
        ) && self.acquisition_receipt_id == other.acquisition_receipt_id && bytes32_eq(
            &self.source_identity_digest.0,
            &other.source_identity_digest.0,
        ) && self.acquisition_class == other.acquisition_class
    }

    pub fn retrieval_id(self) -> (r: RetrievalId)
        ensures
            r == self.retrieval_id,
    {
        self.retrieval_id
    }

    pub fn plan_id(self) -> (r: PlanId)
        ensures
            r == self.plan_id,
    {
        self.plan_id
    }

    pub fn plan_digest(self) -> (r: PlanDigest)
        ensures
            r == self.plan_digest,
    {
        self.plan_digest
    }

    pub fn acquisition_receipt_id(self) -> (r: AcquisitionReceiptId)
        ensures
            r == self.acquisition_receipt_id,
    {
        self.acquisition_receipt_id
    }

    pub fn source_identity_digest(self) -> (r: SourceIdentityDigest)
        ensures
            r == self.source_identity_digest,
    {
        self.source_identity_digest
    }

    pub fn acquisition_class(self) -> (r: ExpectedAcquisitionClassV1)
        ensures
            r == self.acquisition_class,
    {
        self.acquisition_class
    }
}

/// Identity of the closed canonical proposal renderer: its artifact and its
/// contract version.
#[derive(Clone, Copy, Debug)]
pub struct ProducerProposalRendererIdentityV1 {
    pub artifact_digest: ArtifactDigest,
    pub contract_version: u64,
}

/// Versioned environment asserted for tokenization and resource observation.
/// The tokenizer and harness identities are governance inputs; nothing here
/// attests that either artifact ran.
#[derive(Clone, Copy, Debug)]
pub struct ProducerProposalMeasurementEnvironmentV1 {
    pub renderer: ProducerProposalRendererIdentityV1,
    pub tokenizer_artifact_digest: ArtifactDigest,
    pub tokenizer_contract_version: u64,
    pub measurement_harness_artifact_digest: ArtifactDigest,
    pub measurement_harness_contract_version: u64,
}

impl ProducerProposalMeasurementEnvironmentV1 {
    /// Both environments name the same renderer, tokenizer and harness.
    pub open spec fn same_as(self, other: Self) -> bool {
        &&& self.renderer.artifact_digest.0@ == other.renderer.artifact_digest.0@
        &&& self.renderer.contract_version == other.renderer.contract_version
        &&& self.tokenizer_artifact_digest.0@ == other.tokenizer_artifact_digest.0@
        &&& self.tokenizer_contract_version == other.tokenizer_contract_version
        &&& self.measurement_harness_artifact_digest.0@ == other.measurement_harness_artifact_digest.0@
        &&& self.measurement_harness_contract_version == other.measurement_harness_contract_version
    }

    pub fn matches(&self, other: &Self) -> (r: bool)
        ensures
            r == self.same_as(*other),
    {
        bytes32_eq(&self.renderer.artifact_digest.0, &other.renderer.artifact_digest.0)
            && self.renderer.contract_version == other.renderer.contract_version && bytes32_eq(
            &self.tokenizer_artifact_digest.0,
            &other.tokenizer_artifact_digest.0,
        ) && self.tokenizer_contract_version == other.tokenizer_contract_version && bytes32_eq(
            &self.measurement_harness_artifact_digest.0,
            &other.measurement_harness_artifact_digest.0,
        ) && self.measurement_harness_contract_version == other.measurement_harness_contract_version
    }

    /// Version of the environment contract itself.
    pub fn contract_version(self) -> (r: u64)
        ensures
            r == 1,
    {
        1
    }

    pub fn renderer(self) -> (r: ProducerProposalRendererIdentityV1)
        ensures
            r == self.renderer,
    {
        self.renderer
    }

    pub fn tokenizer_artifact_digest(self) -> (r: ArtifactDigest)
        ensures
            r == self.tokenizer_artifact_digest,
    {
        self.tokenizer_artifact_digest
    }

    pub fn tokenizer_contract_version(self) -> (r: u64)
        ensures
            r == self.tokenizer_contract_version,
    {
        self.tokenizer_contract_version
    }

    pub fn measurement_harness_artifact_digest(self) -> (r: ArtifactDigest)
        ensures
            r == self.measurement_harness_artifact_digest,
    {
        self.measurement_harness_artifact_digest
    }

    pub fn measurement_harness_contract_version(self) -> (r: u64)
        ensures
            r == self.measurement_harness_contract_version,
    {
        self.measurement_harness_contract_version
    }
}

/// Governed exact pre-ranking recall of one producer's proposals, with its
/// unsquashed resource surface and the cap it was checked against.
#[derive(Clone, Debug)]
pub struct GovernedProducerProposalEvaluationV1 {
    pub artifact_binding: GovernedCaseArtifactBindingV1,
    pub acquisition_binding: ProducerProposalAcquisitionBindingV1,
    pub universe_digest: FrozenProducerProposalUniverseDigestV1,
    pub producer: ProducerProposalIdentityV1,
    pub measurement_receipt_digest: ArtifactDigest,
    pub measurement_environment: ProducerProposalMeasurementEnvironmentV1,
    pub measurement_trust_boundary: MeasurementTrustBoundaryV1,
    pub resource_cap: ProducerProposalResourceCapV1,
    pub resources: ProducerProposalResourceEnvelopeV1,
    pub cap_violations: Option<ProducerProposalCapViolationsV1>,
    pub recall: GovernedRequirementRecallV1,
}

impl GovernedProducerProposalEvaluationV1 {
    pub fn artifact_binding(&self) -> (r: GovernedCaseArtifactBindingV1)
        ensures
            r == self.artifact_binding,
    {
        self.artifact_binding
    }

    pub fn acquisition_binding(&self) -> (r: ProducerProposalAcquisitionBindingV1)
        ensures
            r == self.acquisition_binding,
    {
        self.acquisition_binding
    }

    pub fn universe_digest(&self) -> (r: FrozenProducerProposalUniverseDigestV1)
        ensures
            r == self.universe_digest,
    {
        self.universe_digest
    }

    pub fn producer(&self) -> (r: ProducerProposalIdentityV1)
        ensures
            r == self.producer,
    {
        self.producer
    }

    pub fn measurement_receipt_digest(&self) -> (r: ArtifactDigest)
        ensures
            r == self.measurement_receipt_digest,
    {
        self.measurement_receipt_digest
    }

    pub fn measurement_environment(&self) -> (r: ProducerProposalMeasurementEnvironmentV1)
        ensures
            r == self.measurement_environment,
    {
        self.measurement_environment
    }

    pub fn measurement_trust_boundary(&self) -> (r: MeasurementTrustBoundaryV1)
        ensures
            r == self.measurement_trust_boundary,
    {
        self.measurement_trust_boundary
    }

    pub fn resource_cap(&self) -> (r: ProducerProposalResourceCapV1)
        ensures
            r == self.resource_cap,
    {
        self.resource_cap
    }

    pub fn resources(&self) -> (r: ProducerProposalResourceEnvelopeV1)
        ensures
            r == self.resources,
    {
        self.resources
    }

    pub fn cap_violations(&self) -> (r: Option<&ProducerProposalCapViolationsV1>)
        ensures
            r is Some <==> self.cap_violations is Some,
            r matches Some(v) ==> *v == self.cap_violations->0,
    {
        match &self.cap_violations {
            Some(v) => Some(v),
            None => None,
        }
    }

    pub fn recall(&self) -> (r: GovernedRequirementRecallV1)
        ensures
            r == self.recall,
    {
        self.recall
    }
}

/// One exact, indivisible producer proposal and its non-empty member set,
/// ordered by event identity. It carries no label, relevance or score.
#[derive(Clone, Debug)]
pub struct ProducerProposalPacketV1 {
    pub id: ProducerProposalIdV1,
    pub member_event_ids: Vec<EventId>,
}

impl ProducerProposalPacketV1 {
    /// The members are strictly ascending, hence distinct.
    pub open spec fn wf(&self) -> bool {
        events_ascending(self.member_event_ids@)
    }

    pub fn try_new(id: ProducerProposalIdV1, member_event_ids: Vec<EventId>) -> (r: Result<Self, ProducerProposalErrorV1>)
        ensures
            member_event_ids.len() > MAX_PRODUCER_PROPOSAL_MEMBERS_PER_PACKET_V1 ==> r == Err::<
                Self,
                ProducerProposalErrorV1,
            >(ProducerProposalErrorV1::TooManyMembersPerProposal),
            member_event_ids.len() == 0 ==> r == Err::<Self, ProducerProposalErrorV1>(
                ProducerProposalErrorV1::EmptyProposalMembership,
            ),
            0 < member_event_ids.len() <= MAX_PRODUCER_PROPOSAL_MEMBERS_PER_PACKET_V1 && !events_distinct(
                member_event_ids@,
            ) ==> r == Err::<Self, ProducerProposalErrorV1>(ProducerProposalErrorV1::DuplicateProposalMember),
            0 < member_event_ids.len() <= MAX_PRODUCER_PROPOSAL_MEMBERS_PER_PACKET_V1 && events_distinct(
                member_event_ids@,
            ) ==> (r matches Ok(packet) && packet.id == id && packet.wf() && packet.member_event_ids.len()
                == member_event_ids.len() && forall|e: EventId|
                packet.member_event_ids@.contains(e) <==> member_event_ids@.contains(e)),
    {
        if member_event_ids.len() > MAX_PRODUCER_PROPOSAL_MEMBERS_PER_PACKET_V1 {
            return Err(ProducerProposalErrorV1::TooManyMembersPerProposal);
        }
        if member_event_ids.len() == 0 {
            return Err(ProducerProposalErrorV1::EmptyProposalMembership);
        }
        let mut sorted: Vec<EventId> = Vec::new();
        let mut i: usize = 0;
        while i < member_event_ids.len()
            invariant
                i <= member_event_ids.len(),
                0 < member_event_ids.len() <= MAX_PRODUCER_PROPOSAL_MEMBERS_PER_PACKET_V1,
                events_ascending(sorted@),
                sorted.len() == i,
                events_distinct(member_event_ids@.subrange(0, i as int)),
                forall|e: EventId| sorted@.contains(e) <==> member_event_ids@.subrange(0, i as int).contains(e),
            decreases member_event_ids.len() - i,
        {
            let member = member_event_ids[i];
            if !insert_event_id(&mut sorted, member) {
                proof {
                    let q = choose|q: int| 0 <= q < i && member_event_ids@.subrange(0, i as int)[q] == member;
                    assert(member_event_ids@[q] == member_event_ids@[i as int]);
                }
                return Err(ProducerProposalErrorV1::DuplicateProposalMember);
            }
            proof {
                let prefix = member_event_ids@.subrange(0, i as int);
                let next = member_event_ids@.subrange(0, i + 1);
                assert(next =~= prefix.push(member));
                assert forall|e: EventId| sorted@.contains(e) <==> next.contains(e) by {
                    if next.contains(e) && e != member {
                        let q = choose|q: int| 0 <= q < next.len() && next[q] == e;
                        assert(prefix[q] == e);
                    }
                    if prefix.contains(e) {
                        let q = choose|q: int| 0 <= q < prefix.len() && prefix[q] == e;
                        assert(next[q] == e);
                    }
                    assert(next[i as int] == member);
                }
                assert forall|a: int, b: int| 0 <= a < b < next.len() implies (#[trigger] next[a]) != (#[trigger] next[b]) by {
                    if b == i {
                        if next[a] == member {
                            assert(prefix[a] == member);
                            assert(prefix.contains(member));
                        }
                    } else {
                        assert(prefix[a] == next[a] && prefix[b] == next[b]);
                    }
                }
            }
            i = i + 1;
        }
        proof {
            assert(member_event_ids@.subrange(0, i as int) =~= member_event_ids@);
        }
        Ok(ProducerProposalPacketV1 { id, member_event_ids: sorted })
    }

    pub fn id(&self) -> (r: ProducerProposalIdV1)
        ensures
            r == self.id,
    {
        self.id
    }

    pub fn member_event_ids(&self) -> (r: &[EventId])
        ensures
            r@ == self.member_event_ids@,
    {
        self.member_event_ids.as_slice()
    }
}

} // verus!
