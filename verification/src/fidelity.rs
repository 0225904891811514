//! Representation fidelity: asserted fidelity classes, the closed fallback
//! for non-exact material, contentless failures, the canonical ascii byte
//! escape and the digests that back exact and encoded representations.

use vstd::prelude::*;
use vstd::utf8::encode_utf8;
use crate::digest::{bytes32_eq, ArtifactDigest};
use crate::sha256::{framed, push_field, push_u64_le, sha256, sha256_spec, u64_le};

verus! {

/// Fidelity class asserted before governed annotations are admitted.
#[derive(Clone, Copy, Debug, PartialEq, Eq, PartialOrd, Ord, Hash, Structural)]
pub enum EvidenceRepresentationClassV1 {
    SourceExactShownVerbatim,
    SourceExactReversibleEncoding,
    SourceValidatedTransformedSample,
    PatternOnly,
}

impl EvidenceRepresentationClassV1 {
    pub open spec fn spec_code(self) -> Seq<char> {
        match self {
            EvidenceRepresentationClassV1::SourceExactShownVerbatim => "source_exact_shown_verbatim"@,
            EvidenceRepresentationClassV1::SourceExactReversibleEncoding => "source_exact_reversible_encoding"@,
            EvidenceRepresentationClassV1::SourceValidatedTransformedSample => "source_validated_transformed_sample"@,
            EvidenceRepresentationClassV1::PatternOnly => "pattern_only"@,
        }
    }

    pub fn code(self) -> (r: &'static str)
        ensures
            r@ == self.spec_code(),
    {
        match self {
            EvidenceRepresentationClassV1::SourceExactShownVerbatim => "source_exact_shown_verbatim",
            EvidenceRepresentationClassV1::SourceExactReversibleEncoding => "source_exact_reversible_encoding",
            EvidenceRepresentationClassV1::SourceValidatedTransformedSample => "source_validated_transformed_sample",
            EvidenceRepresentationClassV1::PatternOnly => "pattern_only",
        }
    }
}
/// Closed fallback for a non-exact representation.
#[derive(Clone, Copy, Debug, PartialEq, Eq, Structural)]
pub enum NonExactFidelityDispositionV1 {
    Reject,
    NeedsDownstreamVds,
}

impl NonExactFidelityDispositionV1 {
    pub open spec fn spec_code(self) -> Seq<char> {
        match self {
            NonExactFidelityDispositionV1::Reject => "reject"@,
            NonExactFidelityDispositionV1::NeedsDownstreamVds => "needs_downstream_vds"@,
        }
    }

    pub fn code(self) -> (r: &'static str)
        ensures
            r@ == self.spec_code(),
    {
        match self {
            NonExactFidelityDispositionV1::Reject => "reject",
            NonExactFidelityDispositionV1::NeedsDownstreamVds => "needs_downstream_vds",
        }
    }
}
/// Contentless construction and governed-evaluation failures.
#[derive(Clone, Copy, Debug, PartialEq, Eq, Structural)]
pub enum RepresentationFidelityErrorV1 {
    UnknownPublicCaseArtifact,
    EmptyMethodIdentity,
    MethodIdentityTooLarge,
    RenderedCandidateTooLarge,
    RenderedCandidateArtifactMismatch,
    EmptyRepresentationClaims,
    TooManyRepresentationClaims,
    DuplicateEventRepresentationClass,
    InvalidRenderedByteRange,
    OverlappingProvenRepresentationRanges,
    UnknownReversibleEncoding,
    MalformedReversibleEncodingContext,
    MalformedReversibleEncoding,
    ReversibleDecodedBytesMismatch,
    ReversibleEncodingDigestMismatch,
    CandidateResourceInvariantViolation,
    CandidateResourceCapExceeded,
    GovernedArtifactBindingMismatch,
    PublicRunManifestBindingMismatch,
    PublicSubmissionBindingMismatch,
    RetrievalMismatch,
    BlockIndexRetrievalMismatch,
    BlockIndexRequired,
    UnknownClaimedEvent,
    UnknownEvidenceEvent,
    UnknownEvidenceBlock,
    SourceExactDigestMismatch { count: usize },
    TooManyPinnedTransforms,
    DuplicatePinnedTransform,
    TooManyFidelityRequirements,
    RequirementPolicyCountMismatch,
    PinnedTransformOutsideRequirement,
    AccountingOverflow,
    RequirementWeightOverflow,
    ArtifactLengthOverflow,
    NeedsDownstreamVds,
}

impl RepresentationFidelityErrorV1 {
    pub open spec fn spec_code(self) -> Seq<char> {
        match self {
            RepresentationFidelityErrorV1::UnknownPublicCaseArtifact => "EVIDENTRAIL_BENCH_FIDELITY_UNKNOWN_PUBLIC_CASE"@,
            RepresentationFidelityErrorV1::EmptyMethodIdentity => "EVIDENTRAIL_BENCH_FIDELITY_EMPTY_METHOD_IDENTITY"@,
            RepresentationFidelityErrorV1::MethodIdentityTooLarge => "EVIDENTRAIL_BENCH_FIDELITY_METHOD_IDENTITY_TOO_LARGE"@,
            RepresentationFidelityErrorV1::RenderedCandidateTooLarge => "EVIDENTRAIL_BENCH_FIDELITY_RENDERED_CANDIDATE_TOO_LARGE"@,
            RepresentationFidelityErrorV1::RenderedCandidateArtifactMismatch => "EVIDENTRAIL_BENCH_FIDELITY_RENDERED_CANDIDATE_ARTIFACT_MISMATCH"@,
            RepresentationFidelityErrorV1::EmptyRepresentationClaims => "EVIDENTRAIL_BENCH_FIDELITY_EMPTY_CLAIMS"@,
            RepresentationFidelityErrorV1::TooManyRepresentationClaims => "EVIDENTRAIL_BENCH_FIDELITY_TOO_MANY_CLAIMS"@,
            RepresentationFidelityErrorV1::DuplicateEventRepresentationClass => "EVIDENTRAIL_BENCH_FIDELITY_DUPLICATE_EVENT_REPRESENTATION_CLASS"@,
            RepresentationFidelityErrorV1::InvalidRenderedByteRange => "EVIDENTRAIL_BENCH_FIDELITY_INVALID_RENDERED_BYTE_RANGE"@,
            RepresentationFidelityErrorV1::OverlappingProvenRepresentationRanges => "EVIDENTRAIL_BENCH_FIDELITY_OVERLAPPING_PROVEN_REPRESENTATION_RANGES"@,
            RepresentationFidelityErrorV1::UnknownReversibleEncoding => "EVIDENTRAIL_BENCH_FIDELITY_UNKNOWN_REVERSIBLE_ENCODING"@,
            RepresentationFidelityErrorV1::MalformedReversibleEncodingContext => "EVIDENTRAIL_BENCH_FIDELITY_MALFORMED_REVERSIBLE_ENCODING_CONTEXT"@,
            RepresentationFidelityErrorV1::MalformedReversibleEncoding => "EVIDENTRAIL_BENCH_FIDELITY_MALFORMED_REVERSIBLE_ENCODING"@,
            RepresentationFidelityErrorV1::ReversibleDecodedBytesMismatch => "EVIDENTRAIL_BENCH_FIDELITY_REVERSIBLE_DECODED_BYTES_MISMATCH"@,
            RepresentationFidelityErrorV1::ReversibleEncodingDigestMismatch => "EVIDENTRAIL_BENCH_FIDELITY_REVERSIBLE_ENCODING_DIGEST_MISMATCH"@,
            RepresentationFidelityErrorV1::CandidateResourceInvariantViolation => "EVIDENTRAIL_BENCH_FIDELITY_CANDIDATE_RESOURCE_INVARIANT"@,
            RepresentationFidelityErrorV1::CandidateResourceCapExceeded => "EVIDENTRAIL_BENCH_FIDELITY_CANDIDATE_RESOURCE_CAP_EXCEEDED"@,
            RepresentationFidelityErrorV1::GovernedArtifactBindingMismatch => "EVIDENTRAIL_BENCH_FIDELITY_GOVERNED_BINDING_MISMATCH"@,
            RepresentationFidelityErrorV1::PublicRunManifestBindingMismatch => "EVIDENTRAIL_BENCH_FIDELITY_PUBLIC_RUN_MANIFEST_BINDING_MISMATCH"@,
            RepresentationFidelityErrorV1::PublicSubmissionBindingMismatch => "EVIDENTRAIL_BENCH_FIDELITY_PUBLIC_SUBMISSION_BINDING_MISMATCH"@,
            RepresentationFidelityErrorV1::RetrievalMismatch => "EVIDENTRAIL_BENCH_FIDELITY_RETRIEVAL_MISMATCH"@,
            RepresentationFidelityErrorV1::BlockIndexRetrievalMismatch => "EVIDENTRAIL_BENCH_FIDELITY_BLOCK_INDEX_RETRIEVAL_MISMATCH"@,
            RepresentationFidelityErrorV1::BlockIndexRequired => "EVIDENTRAIL_BENCH_FIDELITY_BLOCK_INDEX_REQUIRED"@,
            RepresentationFidelityErrorV1::UnknownClaimedEvent => "EVIDENTRAIL_BENCH_FIDELITY_UNKNOWN_CLAIMED_EVENT"@,
            RepresentationFidelityErrorV1::UnknownEvidenceEvent => "EVIDENTRAIL_BENCH_FIDELITY_UNKNOWN_EVIDENCE_EVENT"@,
            RepresentationFidelityErrorV1::UnknownEvidenceBlock => "EVIDENTRAIL_BENCH_FIDELITY_UNKNOWN_EVIDENCE_BLOCK"@,
            RepresentationFidelityErrorV1::SourceExactDigestMismatch { .. } => "EVIDENTRAIL_BENCH_FIDELITY_SOURCE_EXACT_DIGEST_MISMATCH"@,
            RepresentationFidelityErrorV1::TooManyPinnedTransforms => "EVIDENTRAIL_BENCH_FIDELITY_TOO_MANY_PINNED_TRANSFORMS"@,
            RepresentationFidelityErrorV1::DuplicatePinnedTransform => "EVIDENTRAIL_BENCH_FIDELITY_DUPLICATE_PINNED_TRANSFORM"@,
            RepresentationFidelityErrorV1::TooManyFidelityRequirements => "EVIDENTRAIL_BENCH_FIDELITY_TOO_MANY_REQUIREMENTS"@,
            RepresentationFidelityErrorV1::RequirementPolicyCountMismatch => "EVIDENTRAIL_BENCH_FIDELITY_REQUIREMENT_POLICY_COUNT_MISMATCH"@,
            RepresentationFidelityErrorV1::PinnedTransformOutsideRequirement => "EVIDENTRAIL_BENCH_FIDELITY_PINNED_TRANSFORM_OUTSIDE_REQUIREMENT"@,
            RepresentationFidelityErrorV1::AccountingOverflow => "EVIDENTRAIL_BENCH_FIDELITY_ACCOUNTING_OVERFLOW"@,
            RepresentationFidelityErrorV1::RequirementWeightOverflow => "EVIDENTRAIL_BENCH_FIDELITY_WEIGHT_OVERFLOW"@,
            RepresentationFidelityErrorV1::ArtifactLengthOverflow => "EVIDENTRAIL_BENCH_FIDELITY_ARTIFACT_LENGTH_OVERFLOW"@,
            RepresentationFidelityErrorV1::NeedsDownstreamVds => "EVIDENTRAIL_BENCH_FIDELITY_NEEDS_DOWNSTREAM_VDS"@,
        }
    }

    pub fn code(self) -> (r: &'static str)
        ensures
            r@ == self.spec_code(),
    {
        match self {
            RepresentationFidelityErrorV1::UnknownPublicCaseArtifact => "EVIDENTRAIL_BENCH_FIDELITY_UNKNOWN_PUBLIC_CASE",
            RepresentationFidelityErrorV1::EmptyMethodIdentity => "EVIDENTRAIL_BENCH_FIDELITY_EMPTY_METHOD_IDENTITY",
            RepresentationFidelityErrorV1::MethodIdentityTooLarge => "EVIDENTRAIL_BENCH_FIDELITY_METHOD_IDENTITY_TOO_LARGE",
            RepresentationFidelityErrorV1::RenderedCandidateTooLarge => "EVIDENTRAIL_BENCH_FIDELITY_RENDERED_CANDIDATE_TOO_LARGE",
            RepresentationFidelityErrorV1::RenderedCandidateArtifactMismatch => "EVIDENTRAIL_BENCH_FIDELITY_RENDERED_CANDIDATE_ARTIFACT_MISMATCH",
            RepresentationFidelityErrorV1::EmptyRepresentationClaims => "EVIDENTRAIL_BENCH_FIDELITY_EMPTY_CLAIMS",
            RepresentationFidelityErrorV1::TooManyRepresentationClaims => "EVIDENTRAIL_BENCH_FIDELITY_TOO_MANY_CLAIMS",
            RepresentationFidelityErrorV1::DuplicateEventRepresentationClass => "EVIDENTRAIL_BENCH_FIDELITY_DUPLICATE_EVENT_REPRESENTATION_CLASS",
            RepresentationFidelityErrorV1::InvalidRenderedByteRange => "EVIDENTRAIL_BENCH_FIDELITY_INVALID_RENDERED_BYTE_RANGE",
            RepresentationFidelityErrorV1::OverlappingProvenRepresentationRanges => "EVIDENTRAIL_BENCH_FIDELITY_OVERLAPPING_PROVEN_REPRESENTATION_RANGES",
            RepresentationFidelityErrorV1::UnknownReversibleEncoding => "EVIDENTRAIL_BENCH_FIDELITY_UNKNOWN_REVERSIBLE_ENCODING",
            RepresentationFidelityErrorV1::MalformedReversibleEncodingContext => "EVIDENTRAIL_BENCH_FIDELITY_MALFORMED_REVERSIBLE_ENCODING_CONTEXT",
            RepresentationFidelityErrorV1::MalformedReversibleEncoding => "EVIDENTRAIL_BENCH_FIDELITY_MALFORMED_REVERSIBLE_ENCODING",
            RepresentationFidelityErrorV1::ReversibleDecodedBytesMismatch => "EVIDENTRAIL_BENCH_FIDELITY_REVERSIBLE_DECODED_BYTES_MISMATCH",
            RepresentationFidelityErrorV1::ReversibleEncodingDigestMismatch => "EVIDENTRAIL_BENCH_FIDELITY_REVERSIBLE_ENCODING_DIGEST_MISMATCH",
            RepresentationFidelityErrorV1::CandidateResourceInvariantViolation => "EVIDENTRAIL_BENCH_FIDELITY_CANDIDATE_RESOURCE_INVARIANT",
            RepresentationFidelityErrorV1::CandidateResourceCapExceeded => "EVIDENTRAIL_BENCH_FIDELITY_CANDIDATE_RESOURCE_CAP_EXCEEDED",
            RepresentationFidelityErrorV1::GovernedArtifactBindingMismatch => "EVIDENTRAIL_BENCH_FIDELITY_GOVERNED_BINDING_MISMATCH",
            RepresentationFidelityErrorV1::PublicRunManifestBindingMismatch => "EVIDENTRAIL_BENCH_FIDELITY_PUBLIC_RUN_MANIFEST_BINDING_MISMATCH",
            RepresentationFidelityErrorV1::PublicSubmissionBindingMismatch => "EVIDENTRAIL_BENCH_FIDELITY_PUBLIC_SUBMISSION_BINDING_MISMATCH",
            RepresentationFidelityErrorV1::RetrievalMismatch => "EVIDENTRAIL_BENCH_FIDELITY_RETRIEVAL_MISMATCH",
            RepresentationFidelityErrorV1::BlockIndexRetrievalMismatch => "EVIDENTRAIL_BENCH_FIDELITY_BLOCK_INDEX_RETRIEVAL_MISMATCH",
            RepresentationFidelityErrorV1::BlockIndexRequired => "EVIDENTRAIL_BENCH_FIDELITY_BLOCK_INDEX_REQUIRED",
            RepresentationFidelityErrorV1::UnknownClaimedEvent => "EVIDENTRAIL_BENCH_FIDELITY_UNKNOWN_CLAIMED_EVENT",
            RepresentationFidelityErrorV1::UnknownEvidenceEvent => "EVIDENTRAIL_BENCH_FIDELITY_UNKNOWN_EVIDENCE_EVENT",
            RepresentationFidelityErrorV1::UnknownEvidenceBlock => "EVIDENTRAIL_BENCH_FIDELITY_UNKNOWN_EVIDENCE_BLOCK",
            RepresentationFidelityErrorV1::SourceExactDigestMismatch { .. } => "EVIDENTRAIL_BENCH_FIDELITY_SOURCE_EXACT_DIGEST_MISMATCH",
            RepresentationFidelityErrorV1::TooManyPinnedTransforms => "EVIDENTRAIL_BENCH_FIDELITY_TOO_MANY_PINNED_TRANSFORMS",
            RepresentationFidelityErrorV1::DuplicatePinnedTransform => "EVIDENTRAIL_BENCH_FIDELITY_DUPLICATE_PINNED_TRANSFORM",
            RepresentationFidelityErrorV1::TooManyFidelityRequirements => "EVIDENTRAIL_BENCH_FIDELITY_TOO_MANY_REQUIREMENTS",
            RepresentationFidelityErrorV1::RequirementPolicyCountMismatch => "EVIDENTRAIL_BENCH_FIDELITY_REQUIREMENT_POLICY_COUNT_MISMATCH",
            RepresentationFidelityErrorV1::PinnedTransformOutsideRequirement => "EVIDENTRAIL_BENCH_FIDELITY_PINNED_TRANSFORM_OUTSIDE_REQUIREMENT",
            RepresentationFidelityErrorV1::AccountingOverflow => "EVIDENTRAIL_BENCH_FIDELITY_ACCOUNTING_OVERFLOW",
            RepresentationFidelityErrorV1::RequirementWeightOverflow => "EVIDENTRAIL_BENCH_FIDELITY_WEIGHT_OVERFLOW",
            RepresentationFidelityErrorV1::ArtifactLengthOverflow => "EVIDENTRAIL_BENCH_FIDELITY_ARTIFACT_LENGTH_OVERFLOW",
            RepresentationFidelityErrorV1::NeedsDownstreamVds => "EVIDENTRAIL_BENCH_FIDELITY_NEEDS_DOWNSTREAM_VDS",
        }
    }
}
/// A nibble as a lowercase hexadecimal digit.
pub open spec fn hex_digit(v: int) -> u8 {
    if v < 10 {
        (48 + v) as u8
    } else {
        (97 + v - 10) as u8
    }
}

/// The value of a lowercase hexadecimal digit.
pub open spec fn hex_value(c: u8) -> Option<int> {
    if 48 <= c <= 57 {
        Some(c - 48)
    } else if 97 <= c <= 102 {
        Some(c - 97 + 10)
    } else {
        None
    }
}

/// Bytes that stand for themselves: printable ASCII except the backslash.
pub open spec fn literal_byte(b: u8) -> bool {
    0x20 <= b <= 0x7e && b != 92
}

/// The canonical single-line escape of one byte: printable ASCII as itself,
/// backslash, line feed, carriage return and tab as two-byte escapes, and
/// every other byte as a backslash, `x` and two lowercase hex digits.
pub open spec fn escape_byte(b: u8) -> Seq<u8> {
    if b == 92 {
        seq![92u8, 92u8]
    } else if b == 10 {
        seq![92u8, 110u8]
    } else if b == 13 {
        seq![92u8, 114u8]
    } else if b == 9 {
        seq![92u8, 116u8]
    } else if literal_byte(b) {
        seq![b]
    } else {
        seq![92u8, 120u8, hex_digit((b / 16) as int), hex_digit((b % 16) as int)]
    }
}

/// The canonical escape of a byte string.
pub open spec fn escape(bytes: Seq<u8>) -> Seq<u8>
    decreases bytes.len(),
{
    if bytes.len() == 0 {
        Seq::empty()
    } else {
        escape_byte(bytes[0]) + escape(bytes.drop_first())
    }
}

/// The first token of a non-empty encoding: the byte it decodes to and its
/// length, or `None` where it is not canonical.
pub open spec fn decode_token(e: Seq<u8>) -> Option<(u8, int)> {
    let b = e[0];
    if b == 92 {
        if e.len() < 2 {
            None
        } else if e[1] == 92 {
            Some((92u8, 2int))
        } else if e[1] == 110 {
            Some((10u8, 2int))
        } else if e[1] == 114 {
            Some((13u8, 2int))
        } else if e[1] == 116 {
            Some((9u8, 2int))
        } else if e[1] == 120 && e.len() >= 4 {
            match (hex_value(e[2]), hex_value(e[3])) {
                (Some(h), Some(l)) => {
                    let d = (h * 16 + l) as u8;
                    if d == 92 || d == 10 || d == 13 || d == 9 || literal_byte(d) {
                        None
                    } else {
                        Some((d, 4int))
                    }
                },
                _ => None,
            }
        } else {
            None
        }
    } else if literal_byte(b) {
        Some((b, 1int))
    } else {
        None
    }
}

/// Decode a canonical escape, or `None` where it is malformed.
pub open spec fn decode(e: Seq<u8>) -> Option<Seq<u8>>
    decreases e.len(),
{
    if e.len() == 0 {
        Some(Seq::empty())
    } else {
        match decode_token(e) {
            None => None,
            Some((d, n)) => if 0 < n <= e.len() {
                match decode(e.skip(n)) {
                    None => None,
                    Some(rest) => Some(seq![d] + rest),
                }
            } else {
                None
            },
        }
    }
}

proof fn lemma_token_of_escape(b: u8, tail: Seq<u8>)
    ensures
        decode_token(escape_byte(b) + tail) == Some((b, escape_byte(b).len() as int)),
{
    let e = escape_byte(b) + tail;
    if !(b == 92 || b == 10 || b == 13 || b == 9 || literal_byte(b)) {
        let h = b / 16;
        let l = b % 16;
        assert(hex_value(hex_digit(h as int)) == Some(h as int));
        assert(hex_value(hex_digit(l as int)) == Some(l as int));
        assert(e[2] == hex_digit(h as int));
        assert(e[3] == hex_digit(l as int));
        assert((h * 16 + l) as u8 == b);
    }
}

/// Decoding gives back exactly what was escaped.
pub proof fn lemma_escape_round_trip(bytes: Seq<u8>)
    ensures
        decode(escape(bytes)) == Some(bytes),
    decreases bytes.len(),
{
    if bytes.len() > 0 {
        let head = escape_byte(bytes[0]);
        let tail = escape(bytes.drop_first());
        lemma_token_of_escape(bytes[0], tail);
        lemma_escape_round_trip(bytes.drop_first());
        assert((head + tail).skip(head.len() as int) =~= tail);
        assert(seq![bytes[0]] + bytes.drop_first() =~= bytes);
    } else {
        assert(escape(bytes) =~= Seq::<u8>::empty());
    }
}

/// The escape is canonical: an encoding that decodes is the escape of what
/// it decodes to, so no byte string has two accepted encodings.
pub proof fn lemma_escape_canonical(e: Seq<u8>)
    requires
        decode(e) is Some,
    ensures
        e == escape(decode(e)->Some_0),
    decreases e.len(),
{
    if e.len() == 0 {
        assert(escape(Seq::<u8>::empty()) =~= e);
    } else {
        let (d, n) = decode_token(e)->Some_0;
        let rest = e.skip(n);
        lemma_escape_canonical(rest);
        let x = decode(e)->Some_0;
        assert(x == seq![d] + decode(rest)->Some_0);
        assert(x.drop_first() =~= decode(rest)->Some_0);
        assert(e.take(n) =~= escape_byte(d)) by {
            if e[0] == 92 && e[1] == 120 {
                let h = hex_value(e[2])->Some_0;
                let l = hex_value(e[3])->Some_0;
                assert(d as int == h * 16 + l);
                assert(d / 16 == h && d % 16 == l);
                assert(hex_digit(h) == e[2]);
                assert(hex_digit(l) == e[3]);
            }
        }
        assert(e =~= e.take(n) + rest);
    }
}

fn lowercase_hex_value(byte: u8) -> (r: Option<u8>)
    ensures
        match hex_value(byte) {
            Some(v) => r == Some(v as u8) && v < 16,
            None => r is None,
        },
{
    if 48 <= byte && byte <= 57 {
        Some(byte - 48)
    } else if 97 <= byte && byte <= 102 {
        Some(byte - 97 + 10)
    } else {
        None
    }
}

/// Every decoded byte so far equals the expected byte at its position.
pub open spec fn agrees_within(prefix: Seq<u8>, expected: Seq<u8>) -> bool {
    forall|i: int| 0 <= i < prefix.len() ==> i < expected.len() && expected[i] == #[trigger] prefix[i]
}

proof fn lemma_agrees_push(prefix: Seq<u8>, d: u8, expected: Seq<u8>)
    ensures
        agrees_within(prefix.push(d), expected) == (agrees_within(prefix, expected) && prefix.len() < expected.len()
            && expected[prefix.len() as int] == d),
{
    let p = prefix.push(d);
    assert forall|i: int| 0 <= i < prefix.len() implies p[i] == prefix[i] by {}
    if agrees_within(p, expected) {
        assert(p[prefix.len() as int] == d);
        assert forall|i: int| 0 <= i < prefix.len() implies i < expected.len() && expected[i] == #[trigger] prefix[i] by {
            assert(p[i] == prefix[i]);
        }
    }
    if agrees_within(prefix, expected) && prefix.len() < expected.len() && expected[prefix.len() as int] == d {
        assert forall|i: int| 0 <= i < p.len() implies i < expected.len() && expected[i] == #[trigger] p[i] by {
            if i < prefix.len() {
                assert(p[i] == prefix[i]);
            }
        }
    }
}

/// Check that `encoded` is the canonical escape of `expected`: malformed or
/// non-canonical input is refused first, then a decoding that differs.
pub fn verify_ascii_byte_escape_v1(encoded: &[u8], expected: &[u8]) -> (r: Result<(), RepresentationFidelityErrorV1>)
    ensures
        decode(encoded@) is None ==> r == Err::<(), RepresentationFidelityErrorV1>(
            RepresentationFidelityErrorV1::MalformedReversibleEncoding,
        ),
        decode(encoded@) matches Some(d) ==> (d == expected@ <==> r is Ok) && (d != expected@ ==> r == Err::<
            (),
            RepresentationFidelityErrorV1,
        >(RepresentationFidelityErrorV1::ReversibleDecodedBytesMismatch)),
{
    let mut encoded_offset: usize = 0;
    let mut decoded_offset: usize = 0;
    let mut mismatch = false;
    let ghost mut prefix: Seq<u8> = Seq::empty();
    proof {
        assert(encoded@.skip(0) =~= encoded@);
        if decode(encoded@) is Some {
            assert(Seq::<u8>::empty() + decode(encoded@)->Some_0 =~= decode(encoded@)->Some_0);
        }
    }
    while encoded_offset < encoded.len()
        invariant
            encoded_offset <= encoded.len(),
            decoded_offset == prefix.len(),
            decoded_offset <= encoded_offset,
            decode(encoded@) == (match decode(encoded@.skip(encoded_offset as int)) {
                None => None,
                Some(rest) => Some(prefix + rest),
            }),
            !mismatch == agrees_within(prefix, expected@),
        decreases encoded.len() - encoded_offset,
    {
        let ghost tail = encoded@.skip(encoded_offset as int);
        let byte = encoded[encoded_offset];
        proof {
            assert(tail[0] == byte);
        }
        let decoded: u8;
        let consumed: usize;
        if byte == 92 {
            if encoded_offset + 1 >= encoded.len() {
                return Err(RepresentationFidelityErrorV1::MalformedReversibleEncoding);
            }
            let escape = encoded[encoded_offset + 1];
            proof {
                assert(tail[1] == escape);
            }
            if escape == 92 {
                decoded = 92;
                consumed = 2;
            } else if escape == 110 {
                decoded = 10;
                consumed = 2;
            } else if escape == 114 {
                decoded = 13;
                consumed = 2;
            } else if escape == 116 {
                decoded = 9;
                consumed = 2;
            } else if escape == 120 {
                if encoded.len() - encoded_offset < 4 {
                    return Err(RepresentationFidelityErrorV1::MalformedReversibleEncoding);
                }
                proof {
                    assert(tail[2] == encoded@[encoded_offset + 2]);
                    assert(tail[3] == encoded@[encoded_offset + 3]);
                }
                let high = match lowercase_hex_value(encoded[encoded_offset + 2]) {
                    Some(v) => v,
                    None => {
                        return Err(RepresentationFidelityErrorV1::MalformedReversibleEncoding);
                    },
                };
                let low = match lowercase_hex_value(encoded[encoded_offset + 3]) {
                    Some(v) => v,
                    None => {
                        return Err(RepresentationFidelityErrorV1::MalformedReversibleEncoding);
                    },
                };
                let d: u8 = high * 16 + low;
                if d == 92 || d == 10 || d == 13 || d == 9 || (0x20 <= d && d <= 0x7e) {
                    return Err(RepresentationFidelityErrorV1::MalformedReversibleEncoding);
                }
                decoded = d;
                consumed = 4;
            } else {
                return Err(RepresentationFidelityErrorV1::MalformedReversibleEncoding);
            }
        } else if 0x20 <= byte && byte <= 0x7e {
            decoded = byte;
            consumed = 1;
        } else {
            return Err(RepresentationFidelityErrorV1::MalformedReversibleEncoding);
        }
        proof {
            assert(decode_token(tail) == Some((decoded, consumed as int)));
            assert(tail.skip(consumed as int) =~= encoded@.skip(encoded_offset + consumed));
        }
        if decoded_offset >= expected.len() || expected[decoded_offset] != decoded {
            mismatch = true;
        }
        proof {
            let old_prefix = prefix;
            let new_prefix = old_prefix.push(decoded);
            assert forall|rest: Seq<u8>| old_prefix + (seq![decoded] + rest) == new_prefix + rest by {
                assert(old_prefix + (seq![decoded] + rest) =~= new_prefix + rest);
            }
            lemma_agrees_push(old_prefix, decoded, expected@);
            prefix = new_prefix;
        }
        decoded_offset = decoded_offset + 1;
        encoded_offset = encoded_offset + consumed;
    }
    proof {
        assert(encoded@.skip(encoded_offset as int) =~= Seq::<u8>::empty());
        assert(prefix + Seq::<u8>::empty() =~= prefix);
    }
    if mismatch || decoded_offset != expected.len() {
        proof {
            if prefix == expected@ {
                assert(agrees_within(prefix, expected@));
            }
        }
        return Err(RepresentationFidelityErrorV1::ReversibleDecodedBytesMismatch);
    }
    proof {
        assert(prefix =~= expected@);
    }
    Ok(())
}

/// The manifest whose digest identifies the ascii byte escape, version one.
pub const ASCII_BYTE_ESCAPE_V1_MANIFEST: &'static str = "evidentrail/bench/reversible-encoding/ascii-byte-escape/v1\0printable-ascii=literal-except-backslash\0backslash=double-backslash\0lf=backslash-n\0cr=backslash-r\0tab=backslash-t\0other=backslash-xhh-lowercase\0single-line=true";

/// Domain of the digest that backs a source-exact claim.
pub const SOURCE_EXACT_REPRESENTATION_DOMAIN_V1: &'static str = "evidentrail/bench/source-exact-representation/v1";

/// Domain of the digest that binds an encoded slice to its codec.
pub const REVERSIBLE_ENCODED_REPRESENTATION_DOMAIN_V1: &'static str =
    "evidentrail/bench/reversible-encoded-representation/v1";

/// Identity of a reversible evidence encoding admitted for static fidelity.
#[derive(Clone, Copy, Debug)]
pub struct ReversibleEncodingIdentityV1 {
    pub artifact_digest: ArtifactDigest,
    pub contract_version: u64,
}

/// The one admitted identity: the ascii byte escape, version one, named by
/// the digest of its manifest.
pub open spec fn is_ascii_byte_escape_v1(identity: ReversibleEncodingIdentityV1) -> bool {
    identity.artifact_digest.0@ == sha256_spec(encode_utf8(ASCII_BYTE_ESCAPE_V1_MANIFEST@))
        && identity.contract_version == 1
}

/// Identity of the canonical single-line byte escape.
pub fn ascii_byte_escape_v1_identity() -> (r: ReversibleEncodingIdentityV1)
    ensures
        is_ascii_byte_escape_v1(r),
{
    ReversibleEncodingIdentityV1 {
        artifact_digest: ArtifactDigest::from_bytes(sha256(ASCII_BYTE_ESCAPE_V1_MANIFEST.as_bytes())),
        contract_version: 1,
    }
}

impl ReversibleEncodingIdentityV1 {
    /// Resolve persisted identity material against the closed registry.
    pub fn try_new(artifact_digest: ArtifactDigest, contract_version: u64) -> (r: Result<
        Self,
        RepresentationFidelityErrorV1,
    >)
        ensures
            r is Ok <==> (artifact_digest.0@ == sha256_spec(encode_utf8(ASCII_BYTE_ESCAPE_V1_MANIFEST@))
                && contract_version == 1),
            r matches Ok(id) ==> is_ascii_byte_escape_v1(id),
            r matches Err(e) ==> e == RepresentationFidelityErrorV1::UnknownReversibleEncoding,
    {
        let expected = ascii_byte_escape_v1_identity();
        if !bytes32_eq(&artifact_digest.0, &expected.artifact_digest.0) || contract_version != expected.contract_version {
            return Err(RepresentationFidelityErrorV1::UnknownReversibleEncoding);
        }
        Ok(expected)
    }

    pub fn artifact_digest(self) -> (r: ArtifactDigest)
        ensures
            r == self.artifact_digest,
    {
        self.artifact_digest
    }

    pub fn contract_version(self) -> (r: u64)
        ensures
            r == self.contract_version,
    {
        self.contract_version
    }

    pub fn code(self) -> (r: &'static str)
        ensures
            r@ == "ascii_byte_escape_v1"@,
    {
        "ascii_byte_escape_v1"
    }
}

/// Only the admitted identity passes.
pub fn validate_reversible_encoding(identity: ReversibleEncodingIdentityV1) -> (r: Result<(), RepresentationFidelityErrorV1>)
    ensures
        r is Ok <==> is_ascii_byte_escape_v1(identity),
        r matches Err(e) ==> e == RepresentationFidelityErrorV1::UnknownReversibleEncoding,
{
    let expected = ascii_byte_escape_v1_identity();
    if bytes32_eq(&identity.artifact_digest.0, &expected.artifact_digest.0)
        && identity.contract_version == expected.contract_version {
        Ok(())
    } else {
        Err(RepresentationFidelityErrorV1::UnknownReversibleEncoding)
    }
}

/// The only digest that may back a source-exact claim: the framed domain and
/// the framed source bytes, hashed.
pub fn derive_source_exact_representation_artifact_digest_v1(source_bytes: &[u8]) -> (r: Result<
    ArtifactDigest,
    RepresentationFidelityErrorV1,
>)
    ensures
        r matches Ok(d) && d.0@ == sha256_spec(
            framed(encode_utf8(SOURCE_EXACT_REPRESENTATION_DOMAIN_V1@)) + framed(source_bytes@),
        ),
{
    let mut message: Vec<u8> = Vec::new();
    push_field(&mut message, SOURCE_EXACT_REPRESENTATION_DOMAIN_V1.as_bytes());
    push_field(&mut message, source_bytes);
    Ok(ArtifactDigest::from_bytes(sha256(message.as_slice())))
}

/// Bind one encoded slice to its admitted codec identity: the framed domain,
/// codec digest, codec version and encoded bytes, hashed.
pub fn derive_reversible_encoded_representation_artifact_digest_v1(
    reversible_encoding: ReversibleEncodingIdentityV1,
    encoded_bytes: &[u8],
) -> (r: Result<ArtifactDigest, RepresentationFidelityErrorV1>)
    ensures
        !is_ascii_byte_escape_v1(reversible_encoding) ==> r == Err::<ArtifactDigest, RepresentationFidelityErrorV1>(
            RepresentationFidelityErrorV1::UnknownReversibleEncoding,
        ),
        is_ascii_byte_escape_v1(reversible_encoding) ==> (r matches Ok(d) && d.0@ == sha256_spec(
            framed(encode_utf8(REVERSIBLE_ENCODED_REPRESENTATION_DOMAIN_V1@)) + framed(
                reversible_encoding.artifact_digest.0@,
            ) + framed(u64_le(reversible_encoding.contract_version)) + framed(encoded_bytes@),
        )),
{
    if let Err(e) = validate_reversible_encoding(reversible_encoding) {
        return Err(e);
    }
    let mut message: Vec<u8> = Vec::new();
    push_field(&mut message, REVERSIBLE_ENCODED_REPRESENTATION_DOMAIN_V1.as_bytes());
    push_field(&mut message, &reversible_encoding.artifact_digest.0);
    let mut version: Vec<u8> = Vec::new();
    push_u64_le(&mut version, reversible_encoding.contract_version);
    proof {
        assert(version@ =~= u64_le(reversible_encoding.contract_version));
    }
    push_field(&mut message, version.as_slice());
    push_field(&mut message, encoded_bytes);
    proof {
        assert(message@ =~= framed(encode_utf8(REVERSIBLE_ENCODED_REPRESENTATION_DOMAIN_V1@)) + framed(
            reversible_encoding.artifact_digest.0@,
        ) + framed(u64_le(reversible_encoding.contract_version)) + framed(encoded_bytes@));
    }
    Ok(ArtifactDigest::from_bytes(sha256(message.as_slice())))
}

} // verus!
