//! Governed representation fidelity: the hidden per-requirement policy for
//! non-exact material, the index of a submission's claims, and the exact score
//! (or the deferral to downstream validation) of one frozen submission.

use vstd::prelude::*;
use crate::bounded_selector_challenger::{bytes32_order, bytes_order};
use crate::digest::ArtifactDigest;
use crate::fidelity::{
    decode, derive_reversible_encoded_representation_artifact_digest_v1, verify_ascii_byte_escape_v1,
    REVERSIBLE_ENCODED_REPRESENTATION_DOMAIN_V1,
    derive_source_exact_representation_artifact_digest_v1, is_ascii_byte_escape_v1, validate_reversible_encoding,
    EvidenceRepresentationClassV1, NonExactFidelityDispositionV1, RepresentationFidelityErrorV1,
    ReversibleEncodingIdentityV1, SOURCE_EXACT_REPRESENTATION_DOMAIN_V1,
};
use crate::ledger::{BlockId, BlockIndex, EventLedger, EvidenceBlock, LedgerEvent};
use crate::manifest::{EvidenceTargetV1, EvidentrailBenchAnnotationSpecV1, WeightedDiagnosticRequirementV1};
use crate::evaluator::GovernedCaseArtifactBindingV1;
use crate::ledger::RetrievalId;
use crate::producer_comparison::{artifact_bindings_match, same_artifact_binding};
use crate::producer_frontier::{push_u64_field, u64_field};
use crate::sha256::{framed, push_field, push_u64_le, sha256, sha256_spec, u64_le};
use vstd::utf8::encode_utf8;
use crate::ledger::EventId;
use crate::method::MethodDescriptor;
use crate::measurement::{CandidateResourceEnvelope, MeasuredCandidateResources, MeasurementEnvironmentV1, RenderedCandidateArtifactV1};
use crate::run_aggregation::{digest_in_list, digest_listed, BenchmarkRunIdentityV1, EvidentrailBenchRunManifestV1};
use crate::aggregator::BenchmarkBudgetV1;
use crate::canonical::{lex_compare, lex_lt};
use crate::baselines::bytes_eq;
use crate::packet_order::{lemma_bytes_order_antisym, lemma_bytes_order_range, lemma_bytes_order_trans, lemma_bytes_order_zero};

verus! {

/// Maximum diagnostic requirements one fidelity policy covers.
pub const MAX_FIDELITY_REQUIREMENTS_V1: usize = 4_096;

/// Maximum pinned transformed expectations of one requirement.
pub const MAX_PINNED_TRANSFORMS_PER_REQUIREMENT_V1: usize = 4_096;

/// Maximum representation claims of one submission.
pub const MAX_REPRESENTATION_CLAIMS_V1: usize = 8_192;

/// One transformed sample the hidden policy expects, by event and artifact.
#[derive(Clone, Copy, Debug)]
pub struct PinnedTransformedExpectationV1 {
    pub event_id: EventId,
    pub transformed_artifact_digest: ArtifactDigest,
}

impl PinnedTransformedExpectationV1 {
    pub fn new(event_id: EventId, transformed_artifact_digest: ArtifactDigest) -> (r: Self)
        ensures
            r.event_id == event_id,
            r.transformed_artifact_digest == transformed_artifact_digest,
    {
        PinnedTransformedExpectationV1 { event_id, transformed_artifact_digest }
    }

    pub fn event_id(self) -> (r: EventId)
        ensures
            r == self.event_id,
    {
        self.event_id
    }

    pub fn transformed_artifact_digest(self) -> (r: ArtifactDigest)
        ensures
            r == self.transformed_artifact_digest,
    {
        self.transformed_artifact_digest
    }
}

/// Two expectations name the same event and artifact.
pub open spec fn same_pin(a: PinnedTransformedExpectationV1, b: PinnedTransformedExpectationV1) -> bool {
    a.event_id == b.event_id && a.transformed_artifact_digest.0@ == b.transformed_artifact_digest.0@
}

/// Canonical order: by event identity, then by artifact bytes.
pub open spec fn pin_lt(a: PinnedTransformedExpectationV1, b: PinnedTransformedExpectationV1) -> bool {
    a.event_id.0 < b.event_id.0 || (a.event_id.0 == b.event_id.0 && bytes_order(
        a.transformed_artifact_digest.0@,
        b.transformed_artifact_digest.0@,
    ) == -1)
}

pub open spec fn pins_ascending(s: Seq<PinnedTransformedExpectationV1>) -> bool {
    forall|i: int, j: int| 0 <= i < j < s.len() ==> pin_lt(#[trigger] s[i], #[trigger] s[j])
}

pub open spec fn has_pin(s: Seq<PinnedTransformedExpectationV1>, x: PinnedTransformedExpectationV1) -> bool {
    exists|i: int| 0 <= i < s.len() && same_pin(#[trigger] s[i], x)
}

/// The expectations name no pair twice.
pub open spec fn pins_distinct(s: Seq<PinnedTransformedExpectationV1>) -> bool {
    forall|i: int, j: int| 0 <= i < j < s.len() ==> !same_pin(#[trigger] s[i], #[trigger] s[j])
}

proof fn lemma_pin_order(a: PinnedTransformedExpectationV1, b: PinnedTransformedExpectationV1)
    ensures
        same_pin(a, b) || pin_lt(a, b) || pin_lt(b, a),
        !(pin_lt(a, b) && pin_lt(b, a)),
        pin_lt(a, b) ==> !same_pin(a, b),
{
    lemma_bytes_order_zero(a.transformed_artifact_digest.0@, b.transformed_artifact_digest.0@);
    lemma_bytes_order_antisym(a.transformed_artifact_digest.0@, b.transformed_artifact_digest.0@);
    lemma_bytes_order_range(a.transformed_artifact_digest.0@, b.transformed_artifact_digest.0@);
}

proof fn lemma_pin_trans(a: PinnedTransformedExpectationV1, b: PinnedTransformedExpectationV1, c: PinnedTransformedExpectationV1)
    requires
        pin_lt(a, b),
        pin_lt(b, c),
    ensures
        pin_lt(a, c),
{
    if a.event_id.0 == b.event_id.0 && b.event_id.0 == c.event_id.0 {
        lemma_bytes_order_trans(
            a.transformed_artifact_digest.0@,
            b.transformed_artifact_digest.0@,
            c.transformed_artifact_digest.0@,
        );
    }
}

fn pin_compare(a: &PinnedTransformedExpectationV1, b: &PinnedTransformedExpectationV1) -> (r: i8)
    ensures
        r == -1 <==> pin_lt(*a, *b),
        r == 0 <==> same_pin(*a, *b),
        r == 1 <==> pin_lt(*b, *a),
{
    proof {
        lemma_pin_order(*a, *b);
    }
    if a.event_id.0 < b.event_id.0 {
        -1
    } else if a.event_id.0 > b.event_id.0 {
        1
    } else {
        let c = bytes32_order(&a.transformed_artifact_digest.0, &b.transformed_artifact_digest.0);
        proof {
            lemma_bytes_order_range(a.transformed_artifact_digest.0@, b.transformed_artifact_digest.0@);
            lemma_bytes_order_antisym(a.transformed_artifact_digest.0@, b.transformed_artifact_digest.0@);
            lemma_bytes_order_zero(a.transformed_artifact_digest.0@, b.transformed_artifact_digest.0@);
        }
        c
    }
}

/// Insert an expectation into a strictly ascending list; refuse one already there.
fn insert_pin(sorted: &mut Vec<PinnedTransformedExpectationV1>, pin: PinnedTransformedExpectationV1) -> (inserted: bool)
    requires
        pins_ascending(old(sorted)@),
    ensures
        inserted == !has_pin(old(sorted)@, pin),
        pins_ascending(final(sorted)@),
        inserted ==> final(sorted)@.len() == old(sorted)@.len() + 1,
        !inserted ==> final(sorted)@ == old(sorted)@,
        forall|x: PinnedTransformedExpectationV1|
            has_pin(final(sorted)@, x) <==> (has_pin(old(sorted)@, x) || same_pin(x, pin)),
{
    let ghost s = sorted@;
    let mut p: usize = 0;
    while p < sorted.len() && pin_compare(&sorted[p], &pin) == -1
        invariant
            p <= sorted.len(),
            sorted@ == s,
            forall|k: int| 0 <= k < p ==> pin_lt(#[trigger] s[k], pin),
        decreases sorted.len() - p,
    {
        p = p + 1;
    }
    if p < sorted.len() {
        if pin_compare(&sorted[p], &pin) == 0 {
            return false;
        }
    }
    proof {
        assert forall|k: int| 0 <= k < s.len() implies !same_pin(#[trigger] s[k], pin) by {
            lemma_pin_order(s[k], pin);
            if k > p {
                lemma_pin_order(s[p as int], pin);
                lemma_pin_trans(pin, s[p as int], s[k]);
                lemma_pin_order(pin, s[k]);
            }
        }
    }
    sorted.insert(p, pin);
    proof {
        let t = sorted@;
        assert(t =~= s.insert(p as int, pin));
        if p < s.len() {
            lemma_pin_order(s[p as int], pin);
        }
        assert forall|i: int, j: int| 0 <= i < j < t.len() implies pin_lt(#[trigger] t[i], #[trigger] t[j]) by {
            if j < p {
                assert(t[i] == s[i] && t[j] == s[j]);
            } else if j == p {
                assert(t[j] == pin && t[i] == s[i]);
            } else if i == p {
                assert(t[i] == pin && t[j] == s[j - 1]);
                if j - 1 > p {
                    lemma_pin_trans(pin, s[p as int], s[j - 1]);
                }
            } else if i < p {
                assert(t[i] == s[i] && t[j] == s[j - 1]);
            } else {
                assert(t[i] == s[i - 1] && t[j] == s[j - 1]);
            }
        }
        assert forall|x: PinnedTransformedExpectationV1| has_pin(t, x) <==> (has_pin(s, x) || same_pin(x, pin)) by {
            if has_pin(t, x) {
                let q = choose|q: int| 0 <= q < t.len() && same_pin(t[q], x);
                if q < p {
                    assert(s[q] == t[q]);
                } else if q > p {
                    assert(s[q - 1] == t[q]);
                }
            }
            if has_pin(s, x) {
                let q = choose|q: int| 0 <= q < s.len() && same_pin(s[q], x);
                if q < p {
                    assert(t[q] == s[q]);
                } else {
                    assert(t[q + 1] == s[q]);
                }
            }
            if same_pin(x, pin) {
                assert(same_pin(t[p as int], x));
            }
        }
    }
    true
}

/// The hidden fidelity rule of one requirement: which transformed samples it
/// expects, and how it treats expected, unmatched and pattern-only material.
#[derive(Clone, Debug)]
pub struct RequirementFidelityPolicyV1 {
    pub expected_transformed: Vec<PinnedTransformedExpectationV1>,
    pub expected_transformed_disposition: NonExactFidelityDispositionV1,
    pub unmatched_transformed: NonExactFidelityDispositionV1,
    pub pattern_only: NonExactFidelityDispositionV1,
}

impl RequirementFidelityPolicyV1 {
    /// Only source-exact material counts: every non-exact form is rejected.
    pub fn source_exact_only() -> (r: Self)
        ensures
            r.expected_transformed@.len() == 0,
            r.expected_transformed_disposition == NonExactFidelityDispositionV1::Reject,
            r.unmatched_transformed == NonExactFidelityDispositionV1::Reject,
            r.pattern_only == NonExactFidelityDispositionV1::Reject,
    {
        RequirementFidelityPolicyV1 {
            expected_transformed: Vec::new(),
            expected_transformed_disposition: NonExactFidelityDispositionV1::Reject,
            unmatched_transformed: NonExactFidelityDispositionV1::Reject,
            pattern_only: NonExactFidelityDispositionV1::Reject,
        }
    }

    /// The expectations are in canonical order and distinct.
    pub open spec fn wf(&self) -> bool {
        pins_ascending(self.expected_transformed@)
    }

    pub fn try_new(
        expected_transformed: Vec<PinnedTransformedExpectationV1>,
        expected_transformed_disposition: NonExactFidelityDispositionV1,
        unmatched_transformed: NonExactFidelityDispositionV1,
        pattern_only: NonExactFidelityDispositionV1,
    ) -> (r: Result<Self, RepresentationFidelityErrorV1>)
        ensures
            expected_transformed.len() > MAX_PINNED_TRANSFORMS_PER_REQUIREMENT_V1 ==> r == Err::<
                Self,
                RepresentationFidelityErrorV1,
            >(RepresentationFidelityErrorV1::TooManyPinnedTransforms),
            expected_transformed.len() <= MAX_PINNED_TRANSFORMS_PER_REQUIREMENT_V1 && !pins_distinct(
                expected_transformed@,
            ) ==> r == Err::<Self, RepresentationFidelityErrorV1>(
                RepresentationFidelityErrorV1::DuplicatePinnedTransform,
            ),
            expected_transformed.len() <= MAX_PINNED_TRANSFORMS_PER_REQUIREMENT_V1 && pins_distinct(
                expected_transformed@,
            ) ==> (r matches Ok(policy) && policy.wf() && policy.expected_transformed.len()
                == expected_transformed.len() && (forall|x: PinnedTransformedExpectationV1|
                has_pin(policy.expected_transformed@, x) <==> has_pin(expected_transformed@, x))
                && policy.expected_transformed_disposition == expected_transformed_disposition
                && policy.unmatched_transformed == unmatched_transformed && policy.pattern_only == pattern_only),
    {
        if expected_transformed.len() > MAX_PINNED_TRANSFORMS_PER_REQUIREMENT_V1 {
            return Err(RepresentationFidelityErrorV1::TooManyPinnedTransforms);
        }
        let mut sorted: Vec<PinnedTransformedExpectationV1> = Vec::new();
        let mut i: usize = 0;
        while i < expected_transformed.len()
            invariant
                i <= expected_transformed.len(),
                expected_transformed.len() <= MAX_PINNED_TRANSFORMS_PER_REQUIREMENT_V1,
                pins_ascending(sorted@),
                sorted.len() == i,
                pins_distinct(expected_transformed@.subrange(0, i as int)),
                forall|x: PinnedTransformedExpectationV1|
                    has_pin(sorted@, x) <==> has_pin(expected_transformed@.subrange(0, i as int), x),
            decreases expected_transformed.len() - i,
        {
            let pin = expected_transformed[i];
            let prefix = Ghost(expected_transformed@.subrange(0, i as int));
            if !insert_pin(&mut sorted, pin) {
                proof {
                    let q = choose|q: int| 0 <= q < prefix@.len() && same_pin(#[trigger] prefix@[q], pin);
                    assert(expected_transformed@[q] == prefix@[q]);
                    assert(!pins_distinct(expected_transformed@)) by {
                        assert(same_pin(expected_transformed@[q], expected_transformed@[i as int]));
                    }
                }
                return Err(RepresentationFidelityErrorV1::DuplicatePinnedTransform);
            }
            proof {
                let next = expected_transformed@.subrange(0, i + 1);
                assert(next =~= prefix@.push(pin));
                assert forall|x: PinnedTransformedExpectationV1| has_pin(sorted@, x) <==> has_pin(next, x) by {
                    if has_pin(next, x) && !same_pin(x, pin) {
                        let q = choose|q: int| 0 <= q < next.len() && same_pin(#[trigger] next[q], x);
                        if q == i {
                            assert(same_pin(pin, x));
                        }
                        assert(same_pin(prefix@[q], x));
                    }
                    if has_pin(prefix@, x) {
                        let q = choose|q: int| 0 <= q < prefix@.len() && same_pin(#[trigger] prefix@[q], x);
                        assert(same_pin(next[q], x));
                    }
                    if same_pin(x, pin) {
                        assert(same_pin(next[i as int], x));
                    }
                }
                assert forall|a: int, b: int| 0 <= a < b < next.len() implies !same_pin(
                    #[trigger] next[a],
                    #[trigger] next[b],
                ) by {
                    if b == i {
                        if same_pin(next[a], pin) {
                            assert(same_pin(prefix@[a], pin));
                        }
                    } else {
                        assert(prefix@[a] == next[a] && prefix@[b] == next[b]);
                    }
                }
            }
            i = i + 1;
        }
        proof {
            assert(expected_transformed@.subrange(0, i as int) =~= expected_transformed@);
        }
        Ok(
            RequirementFidelityPolicyV1 {
                expected_transformed: sorted,
                expected_transformed_disposition,
                unmatched_transformed,
                pattern_only,
            },
        )
    }

    pub fn expected_transformed(&self) -> (r: &[PinnedTransformedExpectationV1])
        ensures
            r@ == self.expected_transformed@,
    {
        self.expected_transformed.as_slice()
    }

    pub fn expected_transformed_disposition(&self) -> (r: NonExactFidelityDispositionV1)
        ensures
            r == self.expected_transformed_disposition,
    {
        self.expected_transformed_disposition
    }

    pub fn unmatched_transformed(&self) -> (r: NonExactFidelityDispositionV1)
        ensures
            r == self.unmatched_transformed,
    {
        self.unmatched_transformed
    }

    pub fn pattern_only(&self) -> (r: NonExactFidelityDispositionV1)
        ensures
            r == self.pattern_only,
    {
        self.pattern_only
    }

    /// What the rule does with a transformed sample of this event and artifact.
    pub open spec fn spec_transform_disposition(
        &self,
        event_id: EventId,
        artifact_digest: ArtifactDigest,
    ) -> NonExactFidelityDispositionV1 {
        if has_pin(
            self.expected_transformed@,
            PinnedTransformedExpectationV1 { event_id, transformed_artifact_digest: artifact_digest },
        ) {
            self.expected_transformed_disposition
        } else {
            self.unmatched_transformed
        }
    }

    pub fn transform_disposition(&self, event_id: EventId, artifact_digest: ArtifactDigest) -> (r:
        NonExactFidelityDispositionV1)
        ensures
            r == self.spec_transform_disposition(event_id, artifact_digest),
    {
        let probe = PinnedTransformedExpectationV1 { event_id, transformed_artifact_digest: artifact_digest };
        let mut i: usize = 0;
        while i < self.expected_transformed.len()
            invariant
                i <= self.expected_transformed.len(),
                probe == (PinnedTransformedExpectationV1 { event_id, transformed_artifact_digest: artifact_digest }),
                forall|k: int| 0 <= k < i ==> !same_pin(#[trigger] self.expected_transformed@[k], probe),
            decreases self.expected_transformed.len() - i,
        {
            if pin_compare(&self.expected_transformed[i], &probe) == 0 {
                proof {
                    assert(same_pin(self.expected_transformed@[i as int], probe));
                }
                return self.expected_transformed_disposition;
            }
            i = i + 1;
        }
        self.unmatched_transformed
    }
}

/// One asserted representation of one source event in a submission.
#[derive(Clone, Copy, Debug)]
pub struct EvidenceRepresentationClaimV1 {
    pub event_id: EventId,
    pub class: EvidenceRepresentationClassV1,
    pub representation_artifact_digest: ArtifactDigest,
    pub reversible_encoding: Option<ReversibleEncodingIdentityV1>,
    pub reversible_context_start: Option<u64>,
    pub rendered_byte_range: Option<(u64, u64)>,
}

impl EvidenceRepresentationClaimV1 {
    /// One exact source occurrence at a half-open byte range of the render.
    pub fn source_exact_shown_verbatim(
        event_id: EventId,
        representation_artifact_digest: ArtifactDigest,
        rendered_byte_start: u64,
        rendered_byte_end: u64,
    ) -> (r: Self)
        ensures
            r == (EvidenceRepresentationClaimV1 {
                event_id,
                class: EvidenceRepresentationClassV1::SourceExactShownVerbatim,
                representation_artifact_digest,
                reversible_encoding: None,
                reversible_context_start: None,
                rendered_byte_range: Some((rendered_byte_start, rendered_byte_end)),
            }),
    {
        EvidenceRepresentationClaimV1 {
            event_id,
            class: EvidenceRepresentationClassV1::SourceExactShownVerbatim,
            representation_artifact_digest,
            reversible_encoding: None,
            reversible_context_start: None,
            rendered_byte_range: Some((rendered_byte_start, rendered_byte_end)),
        }
    }

    /// One exact source occurrence under a closed reversible encoding.
    pub fn source_exact_reversible_encoding(
        event_id: EventId,
        reversible_encoding: ReversibleEncodingIdentityV1,
        representation_artifact_digest: ArtifactDigest,
        rendered_context_start: u64,
        rendered_byte_start: u64,
        rendered_byte_end: u64,
    ) -> (r: Self)
        ensures
            r == (EvidenceRepresentationClaimV1 {
                event_id,
                class: EvidenceRepresentationClassV1::SourceExactReversibleEncoding,
                representation_artifact_digest,
                reversible_encoding: Some(reversible_encoding),
                reversible_context_start: Some(rendered_context_start),
                rendered_byte_range: Some((rendered_byte_start, rendered_byte_end)),
            }),
    {
        EvidenceRepresentationClaimV1 {
            event_id,
            class: EvidenceRepresentationClassV1::SourceExactReversibleEncoding,
            representation_artifact_digest,
            reversible_encoding: Some(reversible_encoding),
            reversible_context_start: Some(rendered_context_start),
            rendered_byte_range: Some((rendered_byte_start, rendered_byte_end)),
        }
    }

    pub fn source_validated_transformed_sample(
        event_id: EventId,
        representation_artifact_digest: ArtifactDigest,
    ) -> (r: Self)
        ensures
            r == (EvidenceRepresentationClaimV1 {
                event_id,
                class: EvidenceRepresentationClassV1::SourceValidatedTransformedSample,
                representation_artifact_digest,
                reversible_encoding: None,
                reversible_context_start: None,
                rendered_byte_range: None,
            }),
    {
        EvidenceRepresentationClaimV1 {
            event_id,
            class: EvidenceRepresentationClassV1::SourceValidatedTransformedSample,
            representation_artifact_digest,
            reversible_encoding: None,
            reversible_context_start: None,
            rendered_byte_range: None,
        }
    }

    pub fn pattern_only(event_id: EventId, representation_artifact_digest: ArtifactDigest) -> (r: Self)
        ensures
            r == (EvidenceRepresentationClaimV1 {
                event_id,
                class: EvidenceRepresentationClassV1::PatternOnly,
                representation_artifact_digest,
                reversible_encoding: None,
                reversible_context_start: None,
                rendered_byte_range: None,
            }),
    {
        EvidenceRepresentationClaimV1 {
            event_id,
            class: EvidenceRepresentationClassV1::PatternOnly,
            representation_artifact_digest,
            reversible_encoding: None,
            reversible_context_start: None,
            rendered_byte_range: None,
        }
    }

    pub fn event_id(self) -> (r: EventId)
        ensures
            r == self.event_id,
    {
        self.event_id
    }

    pub fn class(self) -> (r: EvidenceRepresentationClassV1)
        ensures
            r == self.class,
    {
        self.class
    }

    pub fn representation_artifact_digest(self) -> (r: ArtifactDigest)
        ensures
            r == self.representation_artifact_digest,
    {
        self.representation_artifact_digest
    }

    pub fn reversible_encoding(self) -> (r: Option<ReversibleEncodingIdentityV1>)
        ensures
            r == self.reversible_encoding,
    {
        self.reversible_encoding
    }

    pub fn reversible_context_start(self) -> (r: Option<u64>)
        ensures
            r == self.reversible_context_start,
    {
        self.reversible_context_start
    }

    pub fn rendered_byte_range(self) -> (r: Option<(u64, u64)>)
        ensures
            r == self.rendered_byte_range,
    {
        self.rendered_byte_range
    }
}

/// The first of the first `n` events with this identity, or -1.
pub open spec fn first_event(events: Seq<LedgerEvent>, id: EventId, n: int) -> int
    decreases n,
{
    if n <= 0 {
        -1
    } else if first_event(events, id, n - 1) >= 0 {
        first_event(events, id, n - 1)
    } else if events[n - 1].id == id {
        n - 1
    } else {
        -1
    }
}

proof fn lemma_first_event_stays(events: Seq<LedgerEvent>, id: EventId, k: int, n: int)
    requires
        0 < k <= n,
        first_event(events, id, k) >= 0,
    ensures
        first_event(events, id, n) == first_event(events, id, k),
    decreases n - k,
{
    if k < n {
        lemma_first_event_stays(events, id, k, n - 1);
    }
}

fn find_event(ledger: &EventLedger, id: EventId) -> (r: Option<usize>)
    ensures
        match r {
            Some(p) => p < ledger.events.len() && p == first_event(ledger.events@, id, ledger.events.len() as int),
            None => first_event(ledger.events@, id, ledger.events.len() as int) == -1,
        },
{
    let mut i: usize = 0;
    while i < ledger.events.len()
        invariant
            i <= ledger.events.len(),
            first_event(ledger.events@, id, i as int) == -1,
        decreases ledger.events.len() - i,
    {
        if ledger.events[i].id == id {
            proof {
                lemma_first_event_stays(ledger.events@, id, i + 1, ledger.events.len() as int);
            }
            return Some(i);
        }
        i = i + 1;
    }
    None
}

/// The first of the first `n` blocks with this identity, or -1.
pub open spec fn first_block(blocks: Seq<EvidenceBlock>, id: BlockId, n: int) -> int
    decreases n,
{
    if n <= 0 {
        -1
    } else if first_block(blocks, id, n - 1) >= 0 {
        first_block(blocks, id, n - 1)
    } else if blocks[n - 1].id == id {
        n - 1
    } else {
        -1
    }
}

proof fn lemma_first_block_stays(blocks: Seq<EvidenceBlock>, id: BlockId, k: int, n: int)
    requires
        0 < k <= n,
        first_block(blocks, id, k) >= 0,
    ensures
        first_block(blocks, id, n) == first_block(blocks, id, k),
    decreases n - k,
{
    if k < n {
        lemma_first_block_stays(blocks, id, k, n - 1);
    }
}

fn find_block(index: &BlockIndex, id: BlockId) -> (r: Option<usize>)
    ensures
        match r {
            Some(p) => p < index.blocks.len() && p == first_block(index.blocks@, id, index.blocks.len() as int),
            None => first_block(index.blocks@, id, index.blocks.len() as int) == -1,
        },
{
    let mut i: usize = 0;
    while i < index.blocks.len()
        invariant
            i <= index.blocks.len(),
            first_block(index.blocks@, id, i as int) == -1,
        decreases index.blocks.len() - i,
    {
        if index.blocks[i].id == id {
            proof {
                lemma_first_block_stays(index.blocks@, id, i + 1, index.blocks.len() as int);
            }
            return Some(i);
        }
        i = i + 1;
    }
    None
}

/// The digest a verbatim claim of these source bytes must carry.
pub open spec fn source_exact_digest(raw: Seq<u8>) -> Seq<u8> {
    sha256_spec(framed(encode_utf8(SOURCE_EXACT_REPRESENTATION_DOMAIN_V1@)) + framed(raw))
}

/// Checking the first `k` claims against the ledger: the refusal, or how many
/// verbatim claims carry a digest other than their event's.
pub open spec fn claims_check(claims: Seq<EvidenceRepresentationClaimV1>, ledger: EventLedger, k: int) -> Result<
    nat,
    RepresentationFidelityErrorV1,
>
    decreases k,
{
    if k <= 0 {
        Ok(0)
    } else {
        match claims_check(claims, ledger, k - 1) {
            Err(e) => Err(e),
            Ok(bad) => {
                let claim = claims[k - 1];
                let p = first_event(ledger.events@, claim.event_id, ledger.events.len() as int);
                if p < 0 {
                    Err(RepresentationFidelityErrorV1::UnknownClaimedEvent)
                } else if claim.class is SourceExactShownVerbatim {
                    if source_exact_digest(ledger.events@[p].raw@) == claim.representation_artifact_digest.0@ {
                        Ok(bad)
                    } else {
                        Ok(bad + 1)
                    }
                } else if claim.class is SourceExactReversibleEncoding {
                    if claim.reversible_encoding is None || !is_ascii_byte_escape_v1(claim.reversible_encoding->0) {
                        Err(RepresentationFidelityErrorV1::UnknownReversibleEncoding)
                    } else {
                        Ok(bad)
                    }
                } else {
                    Ok(bad)
                }
            },
        }
    }
}

proof fn lemma_claims_check_err_stays(claims: Seq<EvidenceRepresentationClaimV1>, ledger: EventLedger, k: int, n: int)
    requires
        0 < k <= n,
        claims_check(claims, ledger, k) is Err,
    ensures
        claims_check(claims, ledger, n) == claims_check(claims, ledger, k),
    decreases n - k,
{
    if k < n {
        lemma_claims_check_err_stays(claims, ledger, k, n - 1);
    }
}

proof fn lemma_claims_check_bound(claims: Seq<EvidenceRepresentationClaimV1>, ledger: EventLedger, k: int)
    requires
        0 <= k,
        claims_check(claims, ledger, k) is Ok,
    ensures
        claims_check(claims, ledger, k)->Ok_0 <= k,
    decreases k,
{
    if k > 0 {
        lemma_claims_check_bound(claims, ledger, k - 1);
    }
}

/// Every claim names a ledger event, every encoded claim an admitted codec,
/// and every verbatim claim the digest of its event's exact bytes.
pub fn validate_claims(claims: &Vec<EvidenceRepresentationClaimV1>, ledger: &EventLedger) -> (r: Result<
    (),
    RepresentationFidelityErrorV1,
>)
    ensures
        match claims_check(claims@, *ledger, claims.len() as int) {
            Err(e) => r == Err::<(), RepresentationFidelityErrorV1>(e),
            Ok(bad) => if bad == 0 {
                r is Ok
            } else {
                r == Err::<(), RepresentationFidelityErrorV1>(
                    RepresentationFidelityErrorV1::SourceExactDigestMismatch { count: bad as usize },
                )
            },
        },
{
    let mut bad: usize = 0;
    let mut i: usize = 0;
    while i < claims.len()
        invariant
            i <= claims.len(),
            claims_check(claims@, *ledger, i as int) == Ok::<nat, RepresentationFidelityErrorV1>(bad as nat),
            bad <= i,
        decreases claims.len() - i,
    {
        let claim = claims[i];
        let p = match find_event(ledger, claim.event_id) {
            Some(p) => p,
            None => {
                proof {
                    lemma_claims_check_err_stays(claims@, *ledger, i + 1, claims.len() as int);
                }
                return Err(RepresentationFidelityErrorV1::UnknownClaimedEvent);
            },
        };
        match claim.class {
            EvidenceRepresentationClassV1::SourceExactShownVerbatim => {
                let derived = derive_source_exact_representation_artifact_digest_v1(ledger.events[p].raw.as_slice());
                match derived {
                    Ok(d) => {
                        if !crate::digest::bytes32_eq(&d.0, &claim.representation_artifact_digest.0) {
                            bad = bad + 1;
                        }
                    },
                    Err(e) => {
                        return Err(e);
                    },
                }
            },
            EvidenceRepresentationClassV1::SourceExactReversibleEncoding => {
                match claim.reversible_encoding {
                    None => {
                        proof {
                            lemma_claims_check_err_stays(claims@, *ledger, i + 1, claims.len() as int);
                        }
                        return Err(RepresentationFidelityErrorV1::UnknownReversibleEncoding);
                    },
                    Some(identity) => {
                        if let Err(e) = validate_reversible_encoding(identity) {
                            proof {
                                lemma_claims_check_err_stays(claims@, *ledger, i + 1, claims.len() as int);
                            }
                            return Err(e);
                        }
                    },
                }
            },
            _ => {},
        }
        i = i + 1;
    }
    if bad != 0 {
        return Err(RepresentationFidelityErrorV1::SourceExactDigestMismatch { count: bad });
    }
    Ok(())
}

/// How one target stands under a requirement's rule.
#[derive(Clone, Copy, Debug, PartialEq, Eq, Structural)]
pub enum TargetStatus {
    Accepted,
    Deferred,
    Missing,
}

/// How one requirement stands under its rule.
#[derive(Clone, Copy, Debug, PartialEq, Eq, Structural)]
pub enum RequirementStatus {
    Satisfied,
    NeedsDownstreamVds,
    Missed,
}

/// A source-exact claim of this event exists.
pub open spec fn has_exact(claims: Seq<EvidenceRepresentationClaimV1>, id: EventId) -> bool {
    exists|i: int|
        0 <= i < claims.len() && (#[trigger] claims[i]).event_id == id && (claims[i].class is SourceExactShownVerbatim
            || claims[i].class is SourceExactReversibleEncoding)
}

/// A pattern-only claim of this event exists.
pub open spec fn has_pattern(claims: Seq<EvidenceRepresentationClaimV1>, id: EventId) -> bool {
    exists|i: int| 0 <= i < claims.len() && (#[trigger] claims[i]).event_id == id && claims[i].class is PatternOnly
}

/// The artifact of the last transformed-sample claim of this event among the
/// first `n` claims; a later claim replaces an earlier one.
pub open spec fn last_transformed(claims: Seq<EvidenceRepresentationClaimV1>, id: EventId, n: int) -> Option<
    ArtifactDigest,
>
    decreases n,
{
    if n <= 0 {
        None
    } else if claims[n - 1].event_id == id && claims[n - 1].class is SourceValidatedTransformedSample {
        Some(claims[n - 1].representation_artifact_digest)
    } else {
        last_transformed(claims, id, n - 1)
    }
}

pub open spec fn spec_event_status(
    claims: Seq<EvidenceRepresentationClaimV1>,
    id: EventId,
    rule: RequirementFidelityPolicyV1,
) -> TargetStatus {
    let transformed = last_transformed(claims, id, claims.len() as int);
    if has_exact(claims, id) {
        TargetStatus::Accepted
    } else if transformed is Some && rule.spec_transform_disposition(id, transformed->0) is NeedsDownstreamVds {
        TargetStatus::Deferred
    } else if has_pattern(claims, id) && rule.pattern_only is NeedsDownstreamVds {
        TargetStatus::Deferred
    } else {
        TargetStatus::Missing
    }
}

fn event_status(claims: &Vec<EvidenceRepresentationClaimV1>, id: EventId, rule: &RequirementFidelityPolicyV1) -> (r:
    TargetStatus)
    ensures
        r == spec_event_status(claims@, id, *rule),
{
    let mut exact = false;
    let mut pattern = false;
    let mut transformed: Option<ArtifactDigest> = None;
    let mut i: usize = 0;
    while i < claims.len()
        invariant
            i <= claims.len(),
            exact == exists|k: int|
                0 <= k < i && (#[trigger] claims@[k]).event_id == id && (claims@[k].class is SourceExactShownVerbatim
                    || claims@[k].class is SourceExactReversibleEncoding),
            pattern == exists|k: int| 0 <= k < i && (#[trigger] claims@[k]).event_id == id && claims@[k].class is PatternOnly,
            transformed == last_transformed(claims@, id, i as int),
        decreases claims.len() - i,
    {
        let claim = claims[i];
        if claim.event_id == id {
            match claim.class {
                EvidenceRepresentationClassV1::SourceExactShownVerbatim => exact = true,
                EvidenceRepresentationClassV1::SourceExactReversibleEncoding => exact = true,
                EvidenceRepresentationClassV1::SourceValidatedTransformedSample => transformed = Some(
                    claim.representation_artifact_digest,
                ),
                EvidenceRepresentationClassV1::PatternOnly => pattern = true,
            }
        }
        i = i + 1;
    }
    if exact {
        return TargetStatus::Accepted;
    }
    if let Some(artifact_digest) = transformed {
        if rule.transform_disposition(id, artifact_digest) == NonExactFidelityDispositionV1::NeedsDownstreamVds {
            return TargetStatus::Deferred;
        }
    }
    if pattern && rule.pattern_only == NonExactFidelityDispositionV1::NeedsDownstreamVds {
        return TargetStatus::Deferred;
    }
    TargetStatus::Missing
}

/// A block is accepted when every member is exact, deferred when no member is
/// missing, and missing otherwise.
pub open spec fn spec_block_status(
    claims: Seq<EvidenceRepresentationClaimV1>,
    members: Seq<EventId>,
    rule: RequirementFidelityPolicyV1,
) -> TargetStatus {
    if forall|i: int| 0 <= i < members.len() ==> has_exact(claims, #[trigger] members[i]) {
        TargetStatus::Accepted
    } else if forall|i: int| 0 <= i < members.len() ==> !(spec_event_status(claims, #[trigger] members[i], rule) is Missing) {
        TargetStatus::Deferred
    } else {
        TargetStatus::Missing
    }
}

fn block_status(
    claims: &Vec<EvidenceRepresentationClaimV1>,
    members: &Vec<EventId>,
    rule: &RequirementFidelityPolicyV1,
) -> (r: TargetStatus)
    ensures
        r == spec_block_status(claims@, members@, *rule),
{
    let mut all_exact = true;
    let mut none_missing = true;
    let mut i: usize = 0;
    while i < members.len()
        invariant
            i <= members.len(),
            all_exact == forall|k: int| 0 <= k < i ==> has_exact(claims@, #[trigger] members@[k]),
            none_missing == forall|k: int| 0 <= k < i ==> !(spec_event_status(claims@, #[trigger] members@[k], *rule) is Missing),
        decreases members.len() - i,
    {
        let status = event_status(claims, members[i], rule);
        if !(status == TargetStatus::Accepted) {
            all_exact = false;
        }
        if status == TargetStatus::Missing {
            none_missing = false;
        }
        i = i + 1;
    }
    if all_exact {
        TargetStatus::Accepted
    } else if none_missing {
        TargetStatus::Deferred
    } else {
        TargetStatus::Missing
    }
}

/// How one target stands, or why it cannot be judged.
pub open spec fn spec_target_status(
    claims: Seq<EvidenceRepresentationClaimV1>,
    target: EvidenceTargetV1,
    rule: RequirementFidelityPolicyV1,
    block_index: Option<BlockIndex>,
) -> Result<TargetStatus, RepresentationFidelityErrorV1> {
    match target {
        EvidenceTargetV1::Event(id) => Ok(spec_event_status(claims, id, rule)),
        EvidenceTargetV1::Block(id) => match block_index {
            None => Err(RepresentationFidelityErrorV1::BlockIndexRequired),
            Some(index) => {
                let p = first_block(index.blocks@, id, index.blocks.len() as int);
                if p < 0 {
                    Err(RepresentationFidelityErrorV1::UnknownEvidenceBlock)
                } else {
                    Ok(spec_block_status(claims, index.blocks@[p].member_ids@, rule))
                }
            },
        },
    }
}

/// Scanning the first `k` targets of one alternative: whether one is missing
/// (the scan stops there) and whether one is deferred.
pub open spec fn alternative_scan(
    claims: Seq<EvidenceRepresentationClaimV1>,
    alternative: Seq<EvidenceTargetV1>,
    rule: RequirementFidelityPolicyV1,
    block_index: Option<BlockIndex>,
    k: int,
) -> Result<(bool, bool), RepresentationFidelityErrorV1>
    decreases k,
{
    if k <= 0 {
        Ok((false, false))
    } else {
        match alternative_scan(claims, alternative, rule, block_index, k - 1) {
            Err(e) => Err(e),
            Ok((missing, deferred)) => if missing {
                Ok((missing, deferred))
            } else {
                match spec_target_status(claims, alternative[k - 1], rule, block_index) {
                    Err(e) => Err(e),
                    Ok(TargetStatus::Accepted) => Ok((false, deferred)),
                    Ok(TargetStatus::Deferred) => Ok((false, true)),
                    Ok(TargetStatus::Missing) => Ok((true, deferred)),
                }
            },
        }
    }
}

/// Scanning the first `k` alternatives: whether one is wholly accepted (the
/// scan stops there) and whether one is complete but deferred.
pub open spec fn requirement_scan(
    claims: Seq<EvidenceRepresentationClaimV1>,
    alternatives: Seq<Vec<EvidenceTargetV1>>,
    rule: RequirementFidelityPolicyV1,
    block_index: Option<BlockIndex>,
    k: int,
) -> Result<(bool, bool), RepresentationFidelityErrorV1>
    decreases k,
{
    if k <= 0 {
        Ok((false, false))
    } else {
        match requirement_scan(claims, alternatives, rule, block_index, k - 1) {
            Err(e) => Err(e),
            Ok((satisfied, deferred)) => if satisfied {
                Ok((satisfied, deferred))
            } else {
                match alternative_scan(
                    claims,
                    alternatives[k - 1]@,
                    rule,
                    block_index,
                    alternatives[k - 1].len() as int,
                ) {
                    Err(e) => Err(e),
                    Ok((missing, has_deferred)) => if !missing && !has_deferred {
                        Ok((true, deferred))
                    } else if !missing {
                        Ok((false, true))
                    } else {
                        Ok((false, deferred))
                    },
                }
            },
        }
    }
}

/// A requirement is satisfied by a wholly accepted alternative, deferred when
/// an alternative is complete only with deferred targets, and missed otherwise.
pub open spec fn spec_requirement_status(
    claims: Seq<EvidenceRepresentationClaimV1>,
    requirement: WeightedDiagnosticRequirementV1,
    rule: RequirementFidelityPolicyV1,
    block_index: Option<BlockIndex>,
) -> Result<RequirementStatus, RepresentationFidelityErrorV1> {
    match requirement_scan(
        claims,
        requirement.alternatives@,
        rule,
        block_index,
        requirement.alternatives.len() as int,
    ) {
        Err(e) => Err(e),
        Ok((satisfied, deferred)) => Ok(
            if satisfied {
                RequirementStatus::Satisfied
            } else if deferred {
                RequirementStatus::NeedsDownstreamVds
            } else {
                RequirementStatus::Missed
            },
        ),
    }
}

fn target_status(
    claims: &Vec<EvidenceRepresentationClaimV1>,
    target: EvidenceTargetV1,
    rule: &RequirementFidelityPolicyV1,
    block_index: Option<&BlockIndex>,
) -> (r: Result<TargetStatus, RepresentationFidelityErrorV1>)
    ensures
        r == spec_target_status(
            claims@,
            target,
            *rule,
            match block_index {
                Some(index) => Some(*index),
                None => None,
            },
        ),
{
    match target {
        EvidenceTargetV1::Event(id) => Ok(event_status(claims, id, rule)),
        EvidenceTargetV1::Block(id) => match block_index {
            None => Err(RepresentationFidelityErrorV1::BlockIndexRequired),
            Some(index) => match find_block(index, id) {
                None => Err(RepresentationFidelityErrorV1::UnknownEvidenceBlock),
                Some(p) => Ok(block_status(claims, &index.blocks[p].member_ids, rule)),
            },
        },
    }
}

fn requirement_status(
    requirement: &WeightedDiagnosticRequirementV1,
    rule: &RequirementFidelityPolicyV1,
    claims: &Vec<EvidenceRepresentationClaimV1>,
    block_index: Option<&BlockIndex>,
) -> (r: Result<RequirementStatus, RepresentationFidelityErrorV1>)
    ensures
        r == spec_requirement_status(
            claims@,
            *requirement,
            *rule,
            match block_index {
                Some(index) => Some(*index),
                None => None,
            },
        ),
{
    let ghost bi = match block_index {
        Some(index) => Some(*index),
        None => None::<BlockIndex>,
    };
    let alternatives = &requirement.alternatives;
    let mut has_deferred_alternative = false;
    let mut a: usize = 0;
    while a < alternatives.len()
        invariant
            a <= alternatives.len(),
            *alternatives == requirement.alternatives,
            bi == (match block_index {
                Some(index) => Some(*index),
                None => None::<BlockIndex>,
            }),
            requirement_scan(claims@, alternatives@, *rule, bi, a as int) == Ok::<
                (bool, bool),
                RepresentationFidelityErrorV1,
            >((false, has_deferred_alternative)),
        decreases alternatives.len() - a,
    {
        let alternative = &alternatives[a];
        let mut has_deferred_target = false;
        let mut missing = false;
        let mut t: usize = 0;
        while t < alternative.len() && !missing
            invariant
                t <= alternative.len(),
                a < alternatives.len(),
                *alternatives == requirement.alternatives,
                *alternative == alternatives@[a as int],
                requirement_scan(claims@, alternatives@, *rule, bi, a as int) == Ok::<
                    (bool, bool),
                    RepresentationFidelityErrorV1,
                >((false, has_deferred_alternative)),
                bi == (match block_index {
                    Some(index) => Some(*index),
                    None => None::<BlockIndex>,
                }),
                alternative_scan(claims@, alternative@, *rule, bi, t as int) == Ok::<
                    (bool, bool),
                    RepresentationFidelityErrorV1,
                >((missing, has_deferred_target)),
            decreases alternative.len() - t,
        {
            match target_status(claims, alternative[t], rule, block_index) {
                Err(e) => {
                    proof {
                        lemma_alternative_err_stays(claims@, alternative@, *rule, bi, t + 1, alternative.len() as int);
                        lemma_requirement_err_stays(claims@, alternatives@, *rule, bi, a + 1, alternatives.len() as int);
                    }
                    return Err(e);
                },
                Ok(TargetStatus::Accepted) => {},
                Ok(TargetStatus::Deferred) => {
                    has_deferred_target = true;
                },
                Ok(TargetStatus::Missing) => {
                    missing = true;
                },
            }
            t = t + 1;
        }
        proof {
            if missing {
                lemma_alternative_missing_stays(claims@, alternative@, *rule, bi, t as int, alternative.len() as int);
            }
        }
        if !missing && !has_deferred_target {
            proof {
                lemma_requirement_satisfied_stays(claims@, alternatives@, *rule, bi, a + 1, alternatives.len() as int);
            }
            return Ok(RequirementStatus::Satisfied);
        }
        if !missing && has_deferred_target {
            has_deferred_alternative = true;
        }
        a = a + 1;
    }
    if has_deferred_alternative {
        Ok(RequirementStatus::NeedsDownstreamVds)
    } else {
        Ok(RequirementStatus::Missed)
    }
}

proof fn lemma_alternative_err_stays(
    claims: Seq<EvidenceRepresentationClaimV1>,
    alternative: Seq<EvidenceTargetV1>,
    rule: RequirementFidelityPolicyV1,
    block_index: Option<BlockIndex>,
    k: int,
    n: int,
)
    requires
        0 < k <= n,
        alternative_scan(claims, alternative, rule, block_index, k) is Err,
    ensures
        alternative_scan(claims, alternative, rule, block_index, n) == alternative_scan(
            claims,
            alternative,
            rule,
            block_index,
            k,
        ),
    decreases n - k,
{
    if k < n {
        lemma_alternative_err_stays(claims, alternative, rule, block_index, k, n - 1);
    }
}

proof fn lemma_alternative_missing_stays(
    claims: Seq<EvidenceRepresentationClaimV1>,
    alternative: Seq<EvidenceTargetV1>,
    rule: RequirementFidelityPolicyV1,
    block_index: Option<BlockIndex>,
    k: int,
    n: int,
)
    requires
        0 <= k <= n,
        alternative_scan(claims, alternative, rule, block_index, k) is Ok,
        alternative_scan(claims, alternative, rule, block_index, k)->Ok_0.0,
    ensures
        alternative_scan(claims, alternative, rule, block_index, n) == alternative_scan(
            claims,
            alternative,
            rule,
            block_index,
            k,
        ),
    decreases n - k,
{
    if k < n {
        lemma_alternative_missing_stays(claims, alternative, rule, block_index, k, n - 1);
    }
}

proof fn lemma_requirement_err_stays(
    claims: Seq<EvidenceRepresentationClaimV1>,
    alternatives: Seq<Vec<EvidenceTargetV1>>,
    rule: RequirementFidelityPolicyV1,
    block_index: Option<BlockIndex>,
    k: int,
    n: int,
)
    requires
        0 < k <= n,
        requirement_scan(claims, alternatives, rule, block_index, k) is Err,
    ensures
        requirement_scan(claims, alternatives, rule, block_index, n) == requirement_scan(
            claims,
            alternatives,
            rule,
            block_index,
            k,
        ),
    decreases n - k,
{
    if k < n {
        lemma_requirement_err_stays(claims, alternatives, rule, block_index, k, n - 1);
    }
}

proof fn lemma_requirement_satisfied_stays(
    claims: Seq<EvidenceRepresentationClaimV1>,
    alternatives: Seq<Vec<EvidenceTargetV1>>,
    rule: RequirementFidelityPolicyV1,
    block_index: Option<BlockIndex>,
    k: int,
    n: int,
)
    requires
        0 <= k <= n,
        requirement_scan(claims, alternatives, rule, block_index, k) is Ok,
        requirement_scan(claims, alternatives, rule, block_index, k)->Ok_0.0,
    ensures
        requirement_scan(claims, alternatives, rule, block_index, n) == requirement_scan(
            claims,
            alternatives,
            rule,
            block_index,
            k,
        ),
    decreases n - k,
{
    if k < n {
        lemma_requirement_satisfied_stays(claims, alternatives, rule, block_index, k, n - 1);
    }
}

/// The targets of the first `m` alternatives, in order.
pub open spec fn alternatives_targets(alternatives: Seq<Vec<EvidenceTargetV1>>, m: int) -> Seq<EvidenceTargetV1>
    decreases m,
{
    if m <= 0 {
        Seq::empty()
    } else {
        alternatives_targets(alternatives, m - 1) + alternatives[m - 1]@
    }
}

/// Every target of the first `n` requirements, in order.
pub open spec fn requirement_targets(requirements: Seq<WeightedDiagnosticRequirementV1>, n: int) -> Seq<
    EvidenceTargetV1,
>
    decreases n,
{
    if n <= 0 {
        Seq::empty()
    } else {
        requirement_targets(requirements, n - 1) + alternatives_targets(
            requirements[n - 1].alternatives@,
            requirements[n - 1].alternatives.len() as int,
        )
    }
}

fn collect_requirement_targets(requirements: &Vec<WeightedDiagnosticRequirementV1>) -> (r: Vec<EvidenceTargetV1>)
    ensures
        r@ == requirement_targets(requirements@, requirements.len() as int),
{
    let mut r: Vec<EvidenceTargetV1> = Vec::new();
    let mut i: usize = 0;
    while i < requirements.len()
        invariant
            i <= requirements.len(),
            r@ == requirement_targets(requirements@, i as int),
        decreases requirements.len() - i,
    {
        let alternatives = &requirements[i].alternatives;
        let ghost head = r@;
        let mut j: usize = 0;
        while j < alternatives.len()
            invariant
                j <= alternatives.len(),
                r@ == head + alternatives_targets(alternatives@, j as int),
            decreases alternatives.len() - j,
        {
            let alternative = &alternatives[j];
            let ghost before = r@;
            let mut k: usize = 0;
            while k < alternative.len()
                invariant
                    k <= alternative.len(),
                    r@ == before + alternative@.subrange(0, k as int),
                decreases alternative.len() - k,
            {
                r.push(alternative[k]);
                k = k + 1;
                proof {
                    assert(r@ =~= before + alternative@.subrange(0, k as int));
                }
            }
            j = j + 1;
            proof {
                assert(alternative@.subrange(0, k as int) =~= alternative@);
                assert(r@ =~= head + alternatives_targets(alternatives@, j as int));
            }
        }
        i = i + 1;
        proof {
            assert(r@ =~= requirement_targets(requirements@, i as int));
        }
    }
    r
}

/// An event target outside the ledger.
pub open spec fn unknown_event_target(target: EvidenceTargetV1, ledger: EventLedger) -> bool {
    match target {
        EvidenceTargetV1::Event(id) => !ledger.has_event(id),
        EvidenceTargetV1::Block(_) => false,
    }
}

/// A block target outside the block index.
pub open spec fn unknown_block_target(target: EvidenceTargetV1, index: BlockIndex) -> bool {
    match target {
        EvidenceTargetV1::Event(_) => false,
        EvidenceTargetV1::Block(id) => !index.has_block(id),
    }
}

/// Why the requirement targets cannot be judged: a block target without a
/// block index, an event outside the ledger, a block outside the index.
pub open spec fn spec_validate_requirement_targets(
    targets: Seq<EvidenceTargetV1>,
    ledger: EventLedger,
    block_index: Option<BlockIndex>,
) -> Result<(), RepresentationFidelityErrorV1> {
    if (exists|i: int| 0 <= i < targets.len() && (#[trigger] targets[i]) is Block) && block_index is None {
        Err(RepresentationFidelityErrorV1::BlockIndexRequired)
    } else if exists|i: int|
        0 <= i < targets.len() && unknown_event_target(#[trigger] targets[i], ledger) {
        Err(RepresentationFidelityErrorV1::UnknownEvidenceEvent)
    } else if block_index is Some && exists|i: int|
        0 <= i < targets.len() && unknown_block_target(#[trigger] targets[i], block_index->0) {
        Err(RepresentationFidelityErrorV1::UnknownEvidenceBlock)
    } else {
        Ok(())
    }
}

fn validate_requirement_targets(
    targets: &Vec<EvidenceTargetV1>,
    ledger: &EventLedger,
    block_index: Option<&BlockIndex>,
) -> (r: Result<(), RepresentationFidelityErrorV1>)
    ensures
        r == spec_validate_requirement_targets(
            targets@,
            *ledger,
            match block_index {
                Some(index) => Some(*index),
                None => None,
            },
        ),
{
    let mut any_block = false;
    let mut unknown_event = false;
    let mut unknown_block = false;
    let mut i: usize = 0;
    while i < targets.len()
        invariant
            i <= targets.len(),
            any_block == exists|k: int| 0 <= k < i && (#[trigger] targets@[k]) is Block,
            unknown_event == exists|k: int|
                0 <= k < i && unknown_event_target(#[trigger] targets@[k], *ledger),
            block_index is Some ==> unknown_block == exists|k: int|
                0 <= k < i && unknown_block_target(#[trigger] targets@[k], *block_index->0),
        decreases targets.len() - i,
    {
        match targets[i] {
            EvidenceTargetV1::Event(id) => {
                if !ledger.contains(id) {
                    unknown_event = true;
                }
            },
            EvidenceTargetV1::Block(id) => {
                any_block = true;
                if let Some(index) = block_index {
                    if !index.contains_block(id) {
                        unknown_block = true;
                    }
                }
            },
        }
        i = i + 1;
    }
    if any_block && block_index.is_none() {
        return Err(RepresentationFidelityErrorV1::BlockIndexRequired);
    }
    if unknown_event {
        return Err(RepresentationFidelityErrorV1::UnknownEvidenceEvent);
    }
    if block_index.is_some() && unknown_block {
        return Err(RepresentationFidelityErrorV1::UnknownEvidenceBlock);
    }
    Ok(())
}

/// The source bytes of the first `k` candidates, or why they cannot be summed.
pub open spec fn candidate_bytes(candidates: Seq<EventId>, ledger: EventLedger, k: int) -> Result<
    u64,
    RepresentationFidelityErrorV1,
>
    decreases k,
{
    if k <= 0 {
        Ok(0u64)
    } else {
        match candidate_bytes(candidates, ledger, k - 1) {
            Err(e) => Err(e),
            Ok(sum) => {
                let p = first_event(ledger.events@, candidates[k - 1], ledger.events.len() as int);
                if p < 0 {
                    Err(RepresentationFidelityErrorV1::UnknownClaimedEvent)
                } else if sum + ledger.events@[p].raw@.len() > u64::MAX {
                    Err(RepresentationFidelityErrorV1::AccountingOverflow)
                } else {
                    Ok((sum + ledger.events@[p].raw@.len()) as u64)
                }
            },
        }
    }
}

proof fn lemma_candidate_err_stays(candidates: Seq<EventId>, ledger: EventLedger, k: int, n: int)
    requires
        0 < k <= n,
        candidate_bytes(candidates, ledger, k) is Err,
    ensures
        candidate_bytes(candidates, ledger, n) == candidate_bytes(candidates, ledger, k),
    decreases n - k,
{
    if k < n {
        lemma_candidate_err_stays(candidates, ledger, k, n - 1);
    }
}

/// The source bytes of the candidates, summed over the sealed ledger.
fn sum_candidate_bytes(candidates: &Vec<EventId>, ledger: &EventLedger) -> (r: Result<u64, RepresentationFidelityErrorV1>)
    ensures
        r == candidate_bytes(candidates@, *ledger, candidates.len() as int),
{
    let mut bytes: u64 = 0;
    let mut i: usize = 0;
    while i < candidates.len()
        invariant
            i <= candidates.len(),
            candidate_bytes(candidates@, *ledger, i as int) == Ok::<u64, RepresentationFidelityErrorV1>(bytes),
        decreases candidates.len() - i,
    {
        let p = match find_event(ledger, candidates[i]) {
            Some(p) => p,
            None => {
                proof {
                    lemma_candidate_err_stays(candidates@, *ledger, i + 1, candidates.len() as int);
                }
                return Err(RepresentationFidelityErrorV1::UnknownClaimedEvent);
            },
        };
        let len = ledger.events[p].raw.len() as u64;
        bytes = match bytes.checked_add(len) {
            Some(v) => v,
            None => {
                proof {
                    lemma_candidate_err_stays(candidates@, *ledger, i + 1, candidates.len() as int);
                }
                return Err(RepresentationFidelityErrorV1::AccountingOverflow);
            },
        };
        i = i + 1;
    }
    Ok(bytes)
}

/// Public representation material frozen before hidden labels: its identity,
/// bindings, the recomputable candidate accounting, and its claims.
#[derive(Clone)]
pub struct FrozenExternalRepresentationSubmissionV1 {
    pub artifact_digest: ArtifactDigest,
    pub public_run_manifest_artifact_digest: ArtifactDigest,
    pub run_identity: BenchmarkRunIdentityV1,
    pub public_case_artifact_digest: ArtifactDigest,
    pub method: MethodDescriptor,
    pub retrieval_id: RetrievalId,
    pub representation_artifact_digest: ArtifactDigest,
    pub normalizer_artifact_digest: ArtifactDigest,
    pub environment: MeasurementEnvironmentV1,
    pub rendered_candidate: RenderedCandidateArtifactV1,
    pub resources: CandidateResourceEnvelope,
    pub claims: Vec<EvidenceRepresentationClaimV1>,
    pub candidate_event_ids: Vec<EventId>,
}

impl FrozenExternalRepresentationSubmissionV1 {
    pub fn artifact_digest(&self) -> (r: ArtifactDigest)
        ensures
            r == self.artifact_digest,
    {
        self.artifact_digest
    }

    pub fn claims(&self) -> (r: &[EvidenceRepresentationClaimV1])
        ensures
            r@ == self.claims@,
    {
        self.claims.as_slice()
    }

    pub fn candidate_event_ids(&self) -> (r: &[EventId])
        ensures
            r@ == self.candidate_event_ids@,
    {
        self.candidate_event_ids.as_slice()
    }
}

pub open spec fn spec_validate_submission_accounting(
    submission: FrozenExternalRepresentationSubmissionV1,
    ledger: EventLedger,
) -> Result<(), RepresentationFidelityErrorV1> {
    match candidate_bytes(submission.candidate_event_ids@, ledger, submission.candidate_event_ids.len() as int) {
        Err(e) => Err(e),
        Ok(bytes) => if submission.resources.unique_candidate_event_count != submission.candidate_event_ids.len()
            || submission.resources.unique_candidate_source_bytes != bytes {
            Err(RepresentationFidelityErrorV1::CandidateResourceInvariantViolation)
        } else {
            Ok(())
        },
    }
}

/// The candidate accounting recomputes from the sealed ledger.
fn validate_submission_accounting(submission: &FrozenExternalRepresentationSubmissionV1, ledger: &EventLedger) -> (r:
    Result<(), RepresentationFidelityErrorV1>)
    ensures
        r == spec_validate_submission_accounting(*submission, *ledger),
{
    let candidates = &submission.candidate_event_ids;
    let bytes = match sum_candidate_bytes(candidates, ledger) {
        Ok(b) => b,
        Err(e) => {
            return Err(e);
        },
    };
    if submission.resources.unique_candidate_event_count != candidates.len() as u64
        || submission.resources.unique_candidate_source_bytes != bytes {
        return Err(RepresentationFidelityErrorV1::CandidateResourceInvariantViolation);
    }
    Ok(())
}

/// Domain that opens the fidelity policy digest.
pub const FIDELITY_POLICY_DOMAIN_V1: &'static str = "evidentrail/bench/governed-fidelity-policy/v1";

/// Domain that opens the fidelity score digest.
pub const FIDELITY_SCORE_DOMAIN_V1: &'static str = "evidentrail/bench/governed-fidelity-score/v1";

/// Domain that opens the deferral digest.
pub const NEEDS_VDS_DOMAIN_V1: &'static str = "evidentrail/bench/governed-fidelity-needs-vds/v1";

/// The hidden fidelity policy of one governed case: one rule per diagnostic
/// requirement, bound to the case's public and annotation artifacts.
#[derive(Clone, Debug)]
pub struct GovernedRepresentationFidelityPolicyV1 {
    pub artifact_digest: ArtifactDigest,
    pub artifact_binding: GovernedCaseArtifactBindingV1,
    pub rules: Vec<RequirementFidelityPolicyV1>,
}

/// A rule pins a transformed sample of an event its requirement does not name.
pub open spec fn pin_outside_requirement(
    requirement: WeightedDiagnosticRequirementV1,
    rule: RequirementFidelityPolicyV1,
) -> bool {
    exists|k: int|
        0 <= k < rule.expected_transformed.len() && !alternatives_targets(
            requirement.alternatives@,
            requirement.alternatives.len() as int,
        ).contains(EvidenceTargetV1::Event((#[trigger] rule.expected_transformed@[k]).event_id))
}

pub open spec fn pins_bytes(pins: Seq<PinnedTransformedExpectationV1>, n: int) -> Seq<u8>
    decreases n,
{
    if n <= 0 {
        Seq::empty()
    } else {
        pins_bytes(pins, n - 1) + u64_field(pins[n - 1].event_id.0) + framed(pins[n - 1].transformed_artifact_digest.0@)
    }
}

pub open spec fn rule_bytes(rule: RequirementFidelityPolicyV1) -> Seq<u8> {
    framed(encode_utf8(rule.expected_transformed_disposition.spec_code())) + framed(
        encode_utf8(rule.unmatched_transformed.spec_code()),
    ) + framed(encode_utf8(rule.pattern_only.spec_code())) + u64_field(rule.expected_transformed.len() as u64)
        + pins_bytes(rule.expected_transformed@, rule.expected_transformed.len() as int)
}

pub open spec fn rules_bytes(rules: Seq<RequirementFidelityPolicyV1>, n: int) -> Seq<u8>
    decreases n,
{
    if n <= 0 {
        Seq::empty()
    } else {
        rules_bytes(rules, n - 1) + rule_bytes(rules[n - 1])
    }
}

/// The bytes the policy digest commits to.
pub open spec fn policy_message(binding: GovernedCaseArtifactBindingV1, rules: Seq<RequirementFidelityPolicyV1>) -> Seq<u8> {
    framed(encode_utf8(FIDELITY_POLICY_DOMAIN_V1@)) + framed(binding.public_case_artifact_digest.0@) + framed(
        binding.annotation_artifact_digest.0@,
    ) + u64_field(rules.len() as u64) + rules_bytes(rules, rules.len() as int)
}

fn push_rule(buf: &mut Vec<u8>, rule: &RequirementFidelityPolicyV1)
    ensures
        final(buf)@ == old(buf)@ + rule_bytes(*rule),
{
    push_field(buf, rule.expected_transformed_disposition.code().as_bytes());
    push_field(buf, rule.unmatched_transformed.code().as_bytes());
    push_field(buf, rule.pattern_only.code().as_bytes());
    push_u64_field(buf, rule.expected_transformed.len() as u64);
    let ghost head = buf@;
    let mut k: usize = 0;
    while k < rule.expected_transformed.len()
        invariant
            k <= rule.expected_transformed.len(),
            buf@ == head + pins_bytes(rule.expected_transformed@, k as int),
        decreases rule.expected_transformed.len() - k,
    {
        let pin = rule.expected_transformed[k];
        push_u64_field(buf, pin.event_id.0);
        push_field(buf, &pin.transformed_artifact_digest.0);
        k = k + 1;
        proof {
            assert(buf@ =~= head + pins_bytes(rule.expected_transformed@, k as int));
        }
    }
    proof {
        assert(buf@ =~= old(buf)@ + rule_bytes(*rule));
    }
}

fn policy_digest(binding: &GovernedCaseArtifactBindingV1, rules: &Vec<RequirementFidelityPolicyV1>) -> (r: ArtifactDigest)
    ensures
        r.0@ == sha256_spec(policy_message(*binding, rules@)),
{
    let mut message: Vec<u8> = Vec::new();
    push_field(&mut message, FIDELITY_POLICY_DOMAIN_V1.as_bytes());
    push_field(&mut message, &binding.public_case_artifact_digest.0);
    push_field(&mut message, &binding.annotation_artifact_digest.0);
    push_u64_field(&mut message, rules.len() as u64);
    let ghost head = message@;
    let mut i: usize = 0;
    while i < rules.len()
        invariant
            i <= rules.len(),
            message@ == head + rules_bytes(rules@, i as int),
        decreases rules.len() - i,
    {
        push_rule(&mut message, &rules[i]);
        i = i + 1;
        proof {
            assert(message@ =~= head + rules_bytes(rules@, i as int));
        }
    }
    proof {
        assert(message@ =~= policy_message(*binding, rules@));
    }
    ArtifactDigest(sha256(message.as_slice()))
}

fn alternative_targets_of(requirement: &WeightedDiagnosticRequirementV1) -> (r: Vec<EvidenceTargetV1>)
    ensures
        r@ == alternatives_targets(requirement.alternatives@, requirement.alternatives.len() as int),
{
    let alternatives = &requirement.alternatives;
    let mut r: Vec<EvidenceTargetV1> = Vec::new();
    let mut j: usize = 0;
    while j < alternatives.len()
        invariant
            j <= alternatives.len(),
            r@ == alternatives_targets(alternatives@, j as int),
        decreases alternatives.len() - j,
    {
        let alternative = &alternatives[j];
        let ghost before = r@;
        let mut k: usize = 0;
        while k < alternative.len()
            invariant
                k <= alternative.len(),
                r@ == before + alternative@.subrange(0, k as int),
            decreases alternative.len() - k,
        {
            r.push(alternative[k]);
            k = k + 1;
            proof {
                assert(r@ =~= before + alternative@.subrange(0, k as int));
            }
        }
        j = j + 1;
        proof {
            assert(alternative@.subrange(0, k as int) =~= alternative@);
            assert(r@ =~= alternatives_targets(alternatives@, j as int));
        }
    }
    r
}

fn has_event_target(targets: &Vec<EvidenceTargetV1>, id: EventId) -> (r: bool)
    ensures
        r == targets@.contains(EvidenceTargetV1::Event(id)),
{
    let mut i: usize = 0;
    while i < targets.len()
        invariant
            i <= targets.len(),
            forall|k: int| 0 <= k < i ==> targets@[k] != EvidenceTargetV1::Event(id),
        decreases targets.len() - i,
    {
        if let EvidenceTargetV1::Event(e) = targets[i] {
            if e == id {
                proof {
                    assert(targets@[i as int] == EvidenceTargetV1::Event(id));
                }
                return true;
            }
        }
        i = i + 1;
    }
    false
}

impl GovernedRepresentationFidelityPolicyV1 {
    pub open spec fn spec_try_new(
        artifact_binding: GovernedCaseArtifactBindingV1,
        annotation: EvidentrailBenchAnnotationSpecV1,
        rules: Seq<RequirementFidelityPolicyV1>,
    ) -> Result<(), RepresentationFidelityErrorV1> {
        let requirements = annotation.diagnostic_requirements@;
        if annotation.public_case_artifact_digest.0@ != artifact_binding.public_case_artifact_digest.0@ {
            Err(RepresentationFidelityErrorV1::GovernedArtifactBindingMismatch)
        } else if requirements.len() > MAX_FIDELITY_REQUIREMENTS_V1 {
            Err(RepresentationFidelityErrorV1::TooManyFidelityRequirements)
        } else if rules.len() != requirements.len() {
            Err(RepresentationFidelityErrorV1::RequirementPolicyCountMismatch)
        } else if exists|i: int| 0 <= i < rules.len() && pin_outside_requirement(requirements[i], #[trigger] rules[i]) {
            Err(RepresentationFidelityErrorV1::PinnedTransformOutsideRequirement)
        } else {
            Ok(())
        }
    }

    pub fn try_new(
        artifact_binding: GovernedCaseArtifactBindingV1,
        annotation: &EvidentrailBenchAnnotationSpecV1,
        rules: Vec<RequirementFidelityPolicyV1>,
    ) -> (r: Result<Self, RepresentationFidelityErrorV1>)
        ensures
            match Self::spec_try_new(artifact_binding, *annotation, rules@) {
                Err(e) => r == Err::<Self, RepresentationFidelityErrorV1>(e),
                Ok(()) => (r matches Ok(policy) && policy.artifact_binding == artifact_binding && policy.rules@ == rules@
                    && policy.artifact_digest.0@ == sha256_spec(policy_message(artifact_binding, rules@))),
            },
    {
        if !crate::digest::bytes32_eq(
            &annotation.public_case_artifact_digest.0,
            &artifact_binding.public_case_artifact_digest.0,
        ) {
            return Err(RepresentationFidelityErrorV1::GovernedArtifactBindingMismatch);
        }
        let requirements = &annotation.diagnostic_requirements;
        if requirements.len() > MAX_FIDELITY_REQUIREMENTS_V1 {
            return Err(RepresentationFidelityErrorV1::TooManyFidelityRequirements);
        }
        if rules.len() != requirements.len() {
            return Err(RepresentationFidelityErrorV1::RequirementPolicyCountMismatch);
        }
        let mut i: usize = 0;
        while i < rules.len()
            invariant
                i <= rules.len(),
                rules.len() == requirements.len(),
                requirements.len() <= MAX_FIDELITY_REQUIREMENTS_V1,
                annotation.public_case_artifact_digest.0@ == artifact_binding.public_case_artifact_digest.0@,
                *requirements == annotation.diagnostic_requirements,
                forall|q: int| 0 <= q < i ==> !pin_outside_requirement(requirements@[q], #[trigger] rules@[q]),
            decreases rules.len() - i,
        {
            let targets = alternative_targets_of(&requirements[i]);
            let rule = &rules[i];
            let mut k: usize = 0;
            while k < rule.expected_transformed.len()
                invariant
                    k <= rule.expected_transformed.len(),
                    i < rules.len(),
                    rules.len() == requirements.len(),
                    requirements.len() <= MAX_FIDELITY_REQUIREMENTS_V1,
                    *requirements == annotation.diagnostic_requirements,
                    annotation.public_case_artifact_digest.0@ == artifact_binding.public_case_artifact_digest.0@,
                    *rule == rules@[i as int],
                    targets@ == alternatives_targets(
                        requirements@[i as int].alternatives@,
                        requirements@[i as int].alternatives.len() as int,
                    ),
                    forall|q: int|
                        0 <= q < k ==> targets@.contains(
                            EvidenceTargetV1::Event((#[trigger] rule.expected_transformed@[q]).event_id),
                        ),
                decreases rule.expected_transformed.len() - k,
            {
                if !has_event_target(&targets, rule.expected_transformed[k].event_id) {
                    proof {
                        assert(pin_outside_requirement(requirements@[i as int], rules@[i as int]));
                    }
                    return Err(RepresentationFidelityErrorV1::PinnedTransformOutsideRequirement);
                }
                k = k + 1;
            }
            i = i + 1;
        }
        let artifact_digest = policy_digest(&artifact_binding, &rules);
        Ok(GovernedRepresentationFidelityPolicyV1 { artifact_digest, artifact_binding, rules })
    }

    /// One source-exact-only rule per requirement.
    pub fn source_exact_only(
        artifact_binding: GovernedCaseArtifactBindingV1,
        annotation: &EvidentrailBenchAnnotationSpecV1,
    ) -> (r: Result<Self, RepresentationFidelityErrorV1>)
        ensures
            annotation.diagnostic_requirements.len() > MAX_FIDELITY_REQUIREMENTS_V1 ==> r == Err::<
                Self,
                RepresentationFidelityErrorV1,
            >(RepresentationFidelityErrorV1::TooManyFidelityRequirements),
            annotation.diagnostic_requirements.len() <= MAX_FIDELITY_REQUIREMENTS_V1 ==> (r is Ok
                <==> annotation.public_case_artifact_digest.0@ == artifact_binding.public_case_artifact_digest.0@),
            r matches Ok(policy) ==> policy.artifact_binding == artifact_binding && policy.rules.len()
                == annotation.diagnostic_requirements.len() && forall|i: int|
                0 <= i < policy.rules.len() ==> (#[trigger] policy.rules@[i]).expected_transformed.len() == 0
                    && policy.rules@[i].expected_transformed_disposition is Reject
                    && policy.rules@[i].unmatched_transformed is Reject && policy.rules@[i].pattern_only is Reject,
            r matches Err(e) ==> (e is TooManyFidelityRequirements || e is GovernedArtifactBindingMismatch),
    {
        let n = annotation.diagnostic_requirements.len();
        if n > MAX_FIDELITY_REQUIREMENTS_V1 {
            return Err(RepresentationFidelityErrorV1::TooManyFidelityRequirements);
        }
        let mut rules: Vec<RequirementFidelityPolicyV1> = Vec::new();
        let mut i: usize = 0;
        while i < n
            invariant
                i <= n,
                rules.len() == i,
                forall|q: int|
                    0 <= q < i ==> (#[trigger] rules@[q]).expected_transformed.len() == 0
                        && rules@[q].expected_transformed_disposition is Reject && rules@[q].unmatched_transformed is Reject
                        && rules@[q].pattern_only is Reject,
            decreases n - i,
        {
            rules.push(RequirementFidelityPolicyV1::source_exact_only());
            i = i + 1;
        }
        proof {
            assert forall|q: int| 0 <= q < rules.len() implies !pin_outside_requirement(
                annotation.diagnostic_requirements@[q],
                #[trigger] rules@[q],
            ) by {}
        }
        Self::try_new(artifact_binding, annotation, rules)
    }

    pub fn artifact_digest(&self) -> (r: ArtifactDigest)
        ensures
            r == self.artifact_digest,
    {
        self.artifact_digest
    }

    pub fn artifact_binding(&self) -> (r: GovernedCaseArtifactBindingV1)
        ensures
            r == self.artifact_binding,
    {
        self.artifact_binding
    }

    pub fn rules(&self) -> (r: &[RequirementFidelityPolicyV1])
        ensures
            r@ == self.rules@,
    {
        self.rules.as_slice()
    }
}

/// Exact governed score of one submission, with its public and hidden-policy
/// provenance.
#[derive(Clone, Copy, Debug)]
pub struct GovernedRepresentationScoreSubmissionV1 {
    pub artifact_digest: ArtifactDigest,
    pub artifact_binding: GovernedCaseArtifactBindingV1,
    pub representation_submission_artifact_digest: ArtifactDigest,
    pub fidelity_policy_artifact_digest: ArtifactDigest,
    pub requirement_count: u64,
    pub satisfied_requirement_count: u64,
    pub total_weight_micros: u64,
    pub satisfied_weight_micros: u64,
}

impl GovernedRepresentationScoreSubmissionV1 {
    pub fn artifact_digest(self) -> (r: ArtifactDigest)
        ensures
            r == self.artifact_digest,
    {
        self.artifact_digest
    }

    pub fn artifact_binding(self) -> (r: GovernedCaseArtifactBindingV1)
        ensures
            r == self.artifact_binding,
    {
        self.artifact_binding
    }

    pub fn representation_submission_artifact_digest(self) -> (r: ArtifactDigest)
        ensures
            r == self.representation_submission_artifact_digest,
    {
        self.representation_submission_artifact_digest
    }

    pub fn fidelity_policy_artifact_digest(self) -> (r: ArtifactDigest)
        ensures
            r == self.fidelity_policy_artifact_digest,
    {
        self.fidelity_policy_artifact_digest
    }

    pub fn requirement_count(self) -> (r: u64)
        ensures
            r == self.requirement_count,
    {
        self.requirement_count
    }

    pub fn satisfied_requirement_count(self) -> (r: u64)
        ensures
            r == self.satisfied_requirement_count,
    {
        self.satisfied_requirement_count
    }

    pub fn total_weight_micros(self) -> (r: u64)
        ensures
            r == self.total_weight_micros,
    {
        self.total_weight_micros
    }

    pub fn satisfied_weight_micros(self) -> (r: u64)
        ensures
            r == self.satisfied_weight_micros,
    {
        self.satisfied_weight_micros
    }

    /// The exact weighted recall, as satisfied over total weight.
    pub fn exact_weight_ratio(self) -> (r: (u64, u64))
        ensures
            r == (self.satisfied_weight_micros, self.total_weight_micros),
    {
        (self.satisfied_weight_micros, self.total_weight_micros)
    }
}

/// Governed non-score result: some requirement's non-exact fidelity is left
/// to downstream validation by the closed static policy.
#[derive(Clone, Copy, Debug)]
pub struct GovernedNeedsDownstreamVdsV1 {
    pub artifact_digest: ArtifactDigest,
    pub artifact_binding: GovernedCaseArtifactBindingV1,
    pub representation_submission_artifact_digest: ArtifactDigest,
    pub fidelity_policy_artifact_digest: ArtifactDigest,
    pub requirement_count: u64,
    pub unresolved_requirement_count: u64,
}

impl GovernedNeedsDownstreamVdsV1 {
    pub fn artifact_digest(self) -> (r: ArtifactDigest)
        ensures
            r == self.artifact_digest,
    {
        self.artifact_digest
    }

    pub fn artifact_binding(self) -> (r: GovernedCaseArtifactBindingV1)
        ensures
            r == self.artifact_binding,
    {
        self.artifact_binding
    }

    pub fn representation_submission_artifact_digest(self) -> (r: ArtifactDigest)
        ensures
            r == self.representation_submission_artifact_digest,
    {
        self.representation_submission_artifact_digest
    }

    pub fn fidelity_policy_artifact_digest(self) -> (r: ArtifactDigest)
        ensures
            r == self.fidelity_policy_artifact_digest,
    {
        self.fidelity_policy_artifact_digest
    }

    pub fn requirement_count(self) -> (r: u64)
        ensures
            r == self.requirement_count,
    {
        self.requirement_count
    }

    pub fn unresolved_requirement_count(self) -> (r: u64)
        ensures
            r == self.unresolved_requirement_count,
    {
        self.unresolved_requirement_count
    }

    pub fn code(self) -> (r: &'static str)
        ensures
            r@ == "needs_downstream_vds"@,
    {
        "needs_downstream_vds"
    }
}

/// A governed score, or the deferral to downstream validation.
#[derive(Clone, Copy, Debug)]
pub enum GovernedRepresentationFidelityOutcomeV1 {
    Scored(GovernedRepresentationScoreSubmissionV1),
    NeedsDownstreamVds(GovernedNeedsDownstreamVdsV1),
}

impl GovernedRepresentationFidelityOutcomeV1 {
    /// The score, refused when the outcome is a deferral.
    pub fn score_submission(self) -> (r: Result<GovernedRepresentationScoreSubmissionV1, RepresentationFidelityErrorV1>)
        ensures
            match self {
                GovernedRepresentationFidelityOutcomeV1::Scored(score) => r == Ok::<
                    GovernedRepresentationScoreSubmissionV1,
                    RepresentationFidelityErrorV1,
                >(score),
                GovernedRepresentationFidelityOutcomeV1::NeedsDownstreamVds(_) => r == Err::<
                    GovernedRepresentationScoreSubmissionV1,
                    RepresentationFidelityErrorV1,
                >(RepresentationFidelityErrorV1::NeedsDownstreamVds),
            },
    {
        match self {
            GovernedRepresentationFidelityOutcomeV1::Scored(score) => Ok(score),
            GovernedRepresentationFidelityOutcomeV1::NeedsDownstreamVds(_) => Err(
                RepresentationFidelityErrorV1::NeedsDownstreamVds,
            ),
        }
    }
}

/// The counts after the first `k` requirement/rule pairs: requirements,
/// satisfied requirements, deferred requirements, total and satisfied weight.
pub open spec fn score_fold(
    requirements: Seq<WeightedDiagnosticRequirementV1>,
    rules: Seq<RequirementFidelityPolicyV1>,
    claims: Seq<EvidenceRepresentationClaimV1>,
    block_index: Option<BlockIndex>,
    k: int,
) -> Result<(u64, u64, u64, u64, u64), RepresentationFidelityErrorV1>
    decreases k,
{
    if k <= 0 {
        Ok((0u64, 0u64, 0u64, 0u64, 0u64))
    } else {
        match score_fold(requirements, rules, claims, block_index, k - 1) {
            Err(e) => Err(e),
            Ok((count, satisfied, deferred, total, weight)) => {
                let w = requirements[k - 1].weight_micros;
                if count + 1 > u64::MAX {
                    Err(RepresentationFidelityErrorV1::AccountingOverflow)
                } else if total + w > u64::MAX {
                    Err(RepresentationFidelityErrorV1::RequirementWeightOverflow)
                } else {
                    match spec_requirement_status(claims, requirements[k - 1], rules[k - 1], block_index) {
                        Err(e) => Err(e),
                        Ok(RequirementStatus::Satisfied) => if satisfied + 1 > u64::MAX {
                            Err(RepresentationFidelityErrorV1::AccountingOverflow)
                        } else if weight + w > u64::MAX {
                            Err(RepresentationFidelityErrorV1::RequirementWeightOverflow)
                        } else {
                            Ok(
                                (
                                    (count + 1) as u64,
                                    (satisfied + 1) as u64,
                                    deferred,
                                    (total + w) as u64,
                                    (weight + w) as u64,
                                ),
                            )
                        },
                        Ok(RequirementStatus::Missed) => Ok(
                            ((count + 1) as u64, satisfied, deferred, (total + w) as u64, weight),
                        ),
                        Ok(RequirementStatus::NeedsDownstreamVds) => if deferred + 1 > u64::MAX {
                            Err(RepresentationFidelityErrorV1::AccountingOverflow)
                        } else {
                            Ok(((count + 1) as u64, satisfied, (deferred + 1) as u64, (total + w) as u64, weight))
                        },
                    }
                }
            },
        }
    }
}

proof fn lemma_score_err_stays(
    requirements: Seq<WeightedDiagnosticRequirementV1>,
    rules: Seq<RequirementFidelityPolicyV1>,
    claims: Seq<EvidenceRepresentationClaimV1>,
    block_index: Option<BlockIndex>,
    k: int,
    n: int,
)
    requires
        0 < k <= n,
        score_fold(requirements, rules, claims, block_index, k) is Err,
    ensures
        score_fold(requirements, rules, claims, block_index, n) == score_fold(
            requirements,
            rules,
            claims,
            block_index,
            k,
        ),
    decreases n - k,
{
    if k < n {
        lemma_score_err_stays(requirements, rules, claims, block_index, k, n - 1);
    }
}

/// Everything that decides an evaluation, up to its digest: the refusal, or
/// the requirement, satisfied, deferred, total-weight and satisfied-weight counts.
pub open spec fn spec_fidelity_counts(
    artifact_binding: GovernedCaseArtifactBindingV1,
    public_run_manifest_artifact_digest: ArtifactDigest,
    annotation: EvidentrailBenchAnnotationSpecV1,
    ledger: EventLedger,
    block_index: Option<BlockIndex>,
    submission: FrozenExternalRepresentationSubmissionV1,
    policy: GovernedRepresentationFidelityPolicyV1,
) -> Result<(u64, u64, u64, u64, u64), RepresentationFidelityErrorV1> {
    let requirements = annotation.diagnostic_requirements@;
    let n = if requirements.len() <= policy.rules.len() {
        requirements.len() as int
    } else {
        policy.rules.len() as int
    };
    if submission.public_run_manifest_artifact_digest.0@ != public_run_manifest_artifact_digest.0@ {
        Err(RepresentationFidelityErrorV1::PublicRunManifestBindingMismatch)
    } else if annotation.public_case_artifact_digest.0@ != artifact_binding.public_case_artifact_digest.0@
        || !same_artifact_binding(policy.artifact_binding, artifact_binding) {
        Err(RepresentationFidelityErrorV1::GovernedArtifactBindingMismatch)
    } else if submission.public_case_artifact_digest.0@ != artifact_binding.public_case_artifact_digest.0@ {
        Err(RepresentationFidelityErrorV1::PublicSubmissionBindingMismatch)
    } else if submission.retrieval_id != ledger.retrieval_id {
        Err(RepresentationFidelityErrorV1::RetrievalMismatch)
    } else if block_index is Some && block_index->0.retrieval_id != ledger.retrieval_id {
        Err(RepresentationFidelityErrorV1::BlockIndexRetrievalMismatch)
    } else {
        match spec_validate_requirement_targets(
            requirement_targets(requirements, requirements.len() as int),
            ledger,
            block_index,
        ) {
            Err(e) => Err(e),
            Ok(()) => match spec_validate_submission_accounting(submission, ledger) {
                Err(e) => Err(e),
                Ok(()) => match claims_check(submission.claims@, ledger, submission.claims.len() as int) {
                    Err(e) => Err(e),
                    Ok(bad) => if bad != 0 {
                        Err(RepresentationFidelityErrorV1::SourceExactDigestMismatch { count: bad as usize })
                    } else {
                        score_fold(requirements, policy.rules@, submission.claims@, block_index, n)
                    },
                },
            },
        }
    }
}

fn score_requirements(
    requirements: &Vec<WeightedDiagnosticRequirementV1>,
    rules: &Vec<RequirementFidelityPolicyV1>,
    claims: &Vec<EvidenceRepresentationClaimV1>,
    block_index: Option<&BlockIndex>,
) -> (r: Result<(u64, u64, u64, u64, u64), RepresentationFidelityErrorV1>)
    ensures
        r == score_fold(
            requirements@,
            rules@,
            claims@,
            match block_index {
                Some(index) => Some(*index),
                None => None,
            },
            if requirements.len() <= rules.len() {
                requirements.len() as int
            } else {
                rules.len() as int
            },
        ),
{
    let ghost bi = match block_index {
        Some(index) => Some(*index),
        None => None::<BlockIndex>,
    };
    let n = if requirements.len() <= rules.len() {
        requirements.len()
    } else {
        rules.len()
    };
    let mut count: u64 = 0;
    let mut satisfied: u64 = 0;
    let mut deferred: u64 = 0;
    let mut total: u64 = 0;
    let mut weight: u64 = 0;
    let mut k: usize = 0;
    while k < n
        invariant
            k <= n,
            n == (if requirements.len() <= rules.len() {
                requirements.len()
            } else {
                rules.len()
            }),
            bi == (match block_index {
                Some(index) => Some(*index),
                None => None::<BlockIndex>,
            }),
            score_fold(requirements@, rules@, claims@, bi, k as int) == Ok::<
                (u64, u64, u64, u64, u64),
                RepresentationFidelityErrorV1,
            >((count, satisfied, deferred, total, weight)),
        decreases n - k,
    {
        let w = requirements[k].weight_micros;
        let next_count = match count.checked_add(1) {
            Some(v) => v,
            None => {
                proof {
                    lemma_score_err_stays(requirements@, rules@, claims@, bi, k + 1, n as int);
                }
                return Err(RepresentationFidelityErrorV1::AccountingOverflow);
            },
        };
        let next_total = match total.checked_add(w) {
            Some(v) => v,
            None => {
                proof {
                    lemma_score_err_stays(requirements@, rules@, claims@, bi, k + 1, n as int);
                }
                return Err(RepresentationFidelityErrorV1::RequirementWeightOverflow);
            },
        };
        let status = match requirement_status(&requirements[k], &rules[k], claims, block_index) {
            Ok(status) => status,
            Err(e) => {
                proof {
                    lemma_score_err_stays(requirements@, rules@, claims@, bi, k + 1, n as int);
                }
                return Err(e);
            },
        };
        match status {
            RequirementStatus::Satisfied => {
                satisfied = match satisfied.checked_add(1) {
                    Some(v) => v,
                    None => {
                        proof {
                            lemma_score_err_stays(requirements@, rules@, claims@, bi, k + 1, n as int);
                        }
                        return Err(RepresentationFidelityErrorV1::AccountingOverflow);
                    },
                };
                weight = match weight.checked_add(w) {
                    Some(v) => v,
                    None => {
                        proof {
                            lemma_score_err_stays(requirements@, rules@, claims@, bi, k + 1, n as int);
                        }
                        return Err(RepresentationFidelityErrorV1::RequirementWeightOverflow);
                    },
                };
            },
            RequirementStatus::Missed => {},
            RequirementStatus::NeedsDownstreamVds => {
                deferred = match deferred.checked_add(1) {
                    Some(v) => v,
                    None => {
                        proof {
                            lemma_score_err_stays(requirements@, rules@, claims@, bi, k + 1, n as int);
                        }
                        return Err(RepresentationFidelityErrorV1::AccountingOverflow);
                    },
                };
            },
        }
        count = next_count;
        total = next_total;
        k = k + 1;
    }
    Ok((count, satisfied, deferred, total, weight))
}

/// The bytes a fidelity score digest commits to.
pub open spec fn score_message(
    binding: GovernedCaseArtifactBindingV1,
    submission_digest: ArtifactDigest,
    policy_digest: ArtifactDigest,
    counts: (u64, u64, u64, u64, u64),
) -> Seq<u8> {
    framed(encode_utf8(FIDELITY_SCORE_DOMAIN_V1@)) + framed(binding.public_case_artifact_digest.0@) + framed(
        binding.annotation_artifact_digest.0@,
    ) + framed(submission_digest.0@) + framed(policy_digest.0@) + u64_field(counts.0) + u64_field(counts.1)
        + u64_field(counts.3) + u64_field(counts.4)
}

/// The bytes a deferral digest commits to.
pub open spec fn needs_vds_message(
    binding: GovernedCaseArtifactBindingV1,
    submission_digest: ArtifactDigest,
    policy_digest: ArtifactDigest,
    counts: (u64, u64, u64, u64, u64),
) -> Seq<u8> {
    framed(encode_utf8(NEEDS_VDS_DOMAIN_V1@)) + framed(binding.public_case_artifact_digest.0@) + framed(
        binding.annotation_artifact_digest.0@,
    ) + framed(submission_digest.0@) + framed(policy_digest.0@) + u64_field(counts.0) + u64_field(counts.2)
}

fn outcome_digest(
    score: bool,
    binding: &GovernedCaseArtifactBindingV1,
    submission_digest: &ArtifactDigest,
    policy_digest: &ArtifactDigest,
    counts: (u64, u64, u64, u64, u64),
) -> (r: ArtifactDigest)
    ensures
        score ==> r.0@ == sha256_spec(score_message(*binding, *submission_digest, *policy_digest, counts)),
        !score ==> r.0@ == sha256_spec(needs_vds_message(*binding, *submission_digest, *policy_digest, counts)),
{
    let mut message: Vec<u8> = Vec::new();
    if score {
        push_field(&mut message, FIDELITY_SCORE_DOMAIN_V1.as_bytes());
    } else {
        push_field(&mut message, NEEDS_VDS_DOMAIN_V1.as_bytes());
    }
    push_field(&mut message, &binding.public_case_artifact_digest.0);
    push_field(&mut message, &binding.annotation_artifact_digest.0);
    push_field(&mut message, &submission_digest.0);
    push_field(&mut message, &policy_digest.0);
    push_u64_field(&mut message, counts.0);
    if score {
        push_u64_field(&mut message, counts.1);
        push_u64_field(&mut message, counts.3);
        push_u64_field(&mut message, counts.4);
        proof {
            assert(message@ =~= score_message(*binding, *submission_digest, *policy_digest, counts));
        }
    } else {
        push_u64_field(&mut message, counts.2);
        proof {
            assert(message@ =~= needs_vds_message(*binding, *submission_digest, *policy_digest, counts));
        }
    }
    ArtifactDigest(sha256(message.as_slice()))
}

/// Evaluate one frozen public representation once its exact hidden annotation
/// join and fidelity policy are available: every requirement is satisfied,
/// missed or deferred under its rule; any deferral makes the outcome a
/// deferral, otherwise the exact weighted score.
pub fn evaluate_governed_representation_fidelity_v1(
    artifact_binding: GovernedCaseArtifactBindingV1,
    public_run_manifest_artifact_digest: ArtifactDigest,
    annotation: &EvidentrailBenchAnnotationSpecV1,
    ledger: &EventLedger,
    block_index: Option<&BlockIndex>,
    submission: &FrozenExternalRepresentationSubmissionV1,
    policy: &GovernedRepresentationFidelityPolicyV1,
) -> (r: Result<GovernedRepresentationFidelityOutcomeV1, RepresentationFidelityErrorV1>)
    ensures
        match spec_fidelity_counts(
            artifact_binding,
            public_run_manifest_artifact_digest,
            *annotation,
            *ledger,
            match block_index {
                Some(index) => Some(*index),
                None => None,
            },
            *submission,
            *policy,
        ) {
            Err(e) => r == Err::<GovernedRepresentationFidelityOutcomeV1, RepresentationFidelityErrorV1>(e),
            Ok(counts) => if counts.2 != 0 {
                r matches Ok(GovernedRepresentationFidelityOutcomeV1::NeedsDownstreamVds(v)) && v.artifact_binding
                    == artifact_binding && v.representation_submission_artifact_digest == submission.artifact_digest
                    && v.fidelity_policy_artifact_digest == policy.artifact_digest && v.requirement_count == counts.0
                    && v.unresolved_requirement_count == counts.2 && v.artifact_digest.0@ == sha256_spec(
                    needs_vds_message(artifact_binding, submission.artifact_digest, policy.artifact_digest, counts),
                )
            } else {
                r matches Ok(GovernedRepresentationFidelityOutcomeV1::Scored(score)) && score.artifact_binding
                    == artifact_binding && score.representation_submission_artifact_digest == submission.artifact_digest
                    && score.fidelity_policy_artifact_digest == policy.artifact_digest && score.requirement_count
                    == counts.0 && score.satisfied_requirement_count == counts.1 && score.total_weight_micros == counts.3
                    && score.satisfied_weight_micros == counts.4 && score.artifact_digest.0@ == sha256_spec(
                    score_message(artifact_binding, submission.artifact_digest, policy.artifact_digest, counts),
                )
            },
        },
{
    if !crate::digest::bytes32_eq(
        &submission.public_run_manifest_artifact_digest.0,
        &public_run_manifest_artifact_digest.0,
    ) {
        return Err(RepresentationFidelityErrorV1::PublicRunManifestBindingMismatch);
    }
    if !crate::digest::bytes32_eq(
        &annotation.public_case_artifact_digest.0,
        &artifact_binding.public_case_artifact_digest.0,
    ) || !artifact_bindings_match(&policy.artifact_binding, &artifact_binding) {
        return Err(RepresentationFidelityErrorV1::GovernedArtifactBindingMismatch);
    }
    if !crate::digest::bytes32_eq(&submission.public_case_artifact_digest.0, &artifact_binding.public_case_artifact_digest.0) {
        return Err(RepresentationFidelityErrorV1::PublicSubmissionBindingMismatch);
    }
    if submission.retrieval_id != ledger.retrieval_id {
        return Err(RepresentationFidelityErrorV1::RetrievalMismatch);
    }
    if let Some(index) = block_index {
        if index.retrieval_id != ledger.retrieval_id {
            return Err(RepresentationFidelityErrorV1::BlockIndexRetrievalMismatch);
        }
    }
    let targets = collect_requirement_targets(&annotation.diagnostic_requirements);
    if let Err(e) = validate_requirement_targets(&targets, ledger, block_index) {
        return Err(e);
    }
    if let Err(e) = validate_submission_accounting(submission, ledger) {
        return Err(e);
    }
    if let Err(e) = validate_claims(&submission.claims, ledger) {
        return Err(e);
    }
    let counts = match score_requirements(&annotation.diagnostic_requirements, &policy.rules, &submission.claims, block_index) {
        Ok(counts) => counts,
        Err(e) => {
            return Err(e);
        },
    };
    if counts.2 != 0 {
        let artifact_digest = outcome_digest(
            false,
            &artifact_binding,
            &submission.artifact_digest,
            &policy.artifact_digest,
            counts,
        );
        return Ok(
            GovernedRepresentationFidelityOutcomeV1::NeedsDownstreamVds(
                GovernedNeedsDownstreamVdsV1 {
                    artifact_digest,
                    artifact_binding,
                    representation_submission_artifact_digest: submission.artifact_digest,
                    fidelity_policy_artifact_digest: policy.artifact_digest,
                    requirement_count: counts.0,
                    unresolved_requirement_count: counts.2,
                },
            ),
        );
    }
    let artifact_digest = outcome_digest(
        true,
        &artifact_binding,
        &submission.artifact_digest,
        &policy.artifact_digest,
        counts,
    );
    Ok(
        GovernedRepresentationFidelityOutcomeV1::Scored(
            GovernedRepresentationScoreSubmissionV1 {
                artifact_digest,
                artifact_binding,
                representation_submission_artifact_digest: submission.artifact_digest,
                fidelity_policy_artifact_digest: policy.artifact_digest,
                requirement_count: counts.0,
                satisfied_requirement_count: counts.1,
                total_weight_micros: counts.3,
                satisfied_weight_micros: counts.4,
            },
        ),
    )
}

/// A rule that rejects every non-exact form.
pub open spec fn rejects_non_exact(rule: RequirementFidelityPolicyV1) -> bool {
    &&& rule.expected_transformed_disposition is Reject
    &&& rule.unmatched_transformed is Reject
    &&& rule.pattern_only is Reject
}

proof fn lemma_rejecting_target_never_deferred(
    claims: Seq<EvidenceRepresentationClaimV1>,
    target: EvidenceTargetV1,
    rule: RequirementFidelityPolicyV1,
    block_index: Option<BlockIndex>,
)
    requires
        rejects_non_exact(rule),
    ensures
        spec_target_status(claims, target, rule, block_index) is Ok ==> !(spec_target_status(
            claims,
            target,
            rule,
            block_index,
        )->Ok_0 is Deferred),
{
    if let EvidenceTargetV1::Block(id) = target {
        if let Some(index) = block_index {
            let p = first_block(index.blocks@, id, index.blocks.len() as int);
            if p >= 0 {
                let members = index.blocks@[p].member_ids@;
                if forall|i: int| 0 <= i < members.len() ==> !(spec_event_status(claims, #[trigger] members[i], rule) is Missing) {
                    assert forall|i: int| 0 <= i < members.len() implies has_exact(claims, #[trigger] members[i]) by {
                        assert(!(spec_event_status(claims, members[i], rule) is Missing));
                    }
                }
            }
        }
    }
}

proof fn lemma_rejecting_alternative_never_deferred(
    claims: Seq<EvidenceRepresentationClaimV1>,
    alternative: Seq<EvidenceTargetV1>,
    rule: RequirementFidelityPolicyV1,
    block_index: Option<BlockIndex>,
    k: int,
)
    requires
        rejects_non_exact(rule),
    ensures
        alternative_scan(claims, alternative, rule, block_index, k) is Ok ==> !alternative_scan(
            claims,
            alternative,
            rule,
            block_index,
            k,
        )->Ok_0.1,
    decreases k,
{
    if k > 0 {
        lemma_rejecting_alternative_never_deferred(claims, alternative, rule, block_index, k - 1);
        lemma_rejecting_target_never_deferred(claims, alternative[k - 1], rule, block_index);
    }
}

proof fn lemma_rejecting_requirement_never_deferred(
    claims: Seq<EvidenceRepresentationClaimV1>,
    alternatives: Seq<Vec<EvidenceTargetV1>>,
    rule: RequirementFidelityPolicyV1,
    block_index: Option<BlockIndex>,
    k: int,
)
    requires
        rejects_non_exact(rule),
    ensures
        requirement_scan(claims, alternatives, rule, block_index, k) is Ok ==> !requirement_scan(
            claims,
            alternatives,
            rule,
            block_index,
            k,
        )->Ok_0.1,
    decreases k,
{
    if k > 0 {
        lemma_rejecting_requirement_never_deferred(claims, alternatives, rule, block_index, k - 1);
        lemma_rejecting_alternative_never_deferred(
            claims,
            alternatives[k - 1]@,
            rule,
            block_index,
            alternatives[k - 1].len() as int,
        );
    }
}

/// Under a rule that rejects every non-exact form (the source-exact-only
/// rule), a requirement is satisfied or missed, never deferred.
pub proof fn lemma_source_exact_rule_never_defers(
    claims: Seq<EvidenceRepresentationClaimV1>,
    requirement: WeightedDiagnosticRequirementV1,
    rule: RequirementFidelityPolicyV1,
    block_index: Option<BlockIndex>,
)
    requires
        rejects_non_exact(rule),
    ensures
        spec_requirement_status(claims, requirement, rule, block_index) is Ok ==> !(spec_requirement_status(
            claims,
            requirement,
            rule,
            block_index,
        )->Ok_0 is NeedsDownstreamVds),
{
    lemma_rejecting_requirement_never_deferred(
        claims,
        requirement.alternatives@,
        rule,
        block_index,
        requirement.alternatives.len() as int,
    );
}

proof fn lemma_rejecting_fold_never_defers(
    requirements: Seq<WeightedDiagnosticRequirementV1>,
    rules: Seq<RequirementFidelityPolicyV1>,
    claims: Seq<EvidenceRepresentationClaimV1>,
    block_index: Option<BlockIndex>,
    k: int,
)
    requires
        0 <= k <= rules.len(),
        forall|i: int| 0 <= i < rules.len() ==> rejects_non_exact(#[trigger] rules[i]),
    ensures
        score_fold(requirements, rules, claims, block_index, k) is Ok ==> score_fold(
            requirements,
            rules,
            claims,
            block_index,
            k,
        )->Ok_0.2 == 0,
    decreases k,
{
    if k > 0 {
        lemma_rejecting_fold_never_defers(requirements, rules, claims, block_index, k - 1);
        lemma_source_exact_rule_never_defers(claims, requirements[k - 1], rules[k - 1], block_index);
    }
}

/// A policy whose every rule rejects non-exact material never defers an
/// evaluation: whatever is not refused is scored.
pub proof fn lemma_source_exact_policy_always_scores(
    artifact_binding: GovernedCaseArtifactBindingV1,
    public_run_manifest_artifact_digest: ArtifactDigest,
    annotation: EvidentrailBenchAnnotationSpecV1,
    ledger: EventLedger,
    block_index: Option<BlockIndex>,
    submission: FrozenExternalRepresentationSubmissionV1,
    policy: GovernedRepresentationFidelityPolicyV1,
)
    requires
        forall|i: int| 0 <= i < policy.rules.len() ==> rejects_non_exact(#[trigger] policy.rules@[i]),
    ensures
        spec_fidelity_counts(
            artifact_binding,
            public_run_manifest_artifact_digest,
            annotation,
            ledger,
            block_index,
            submission,
            policy,
        ) is Ok ==> spec_fidelity_counts(
            artifact_binding,
            public_run_manifest_artifact_digest,
            annotation,
            ledger,
            block_index,
            submission,
            policy,
        )->Ok_0.2 == 0,
{
    let n = if annotation.diagnostic_requirements@.len() <= policy.rules.len() {
        annotation.diagnostic_requirements@.len() as int
    } else {
        policy.rules.len() as int
    };
    lemma_rejecting_fold_never_defers(
        annotation.diagnostic_requirements@,
        policy.rules@,
        submission.claims@,
        block_index,
        n,
    );
}

// ---------------------------------------------------------------------------
// Self-asserted submission
// ---------------------------------------------------------------------------

/// Domain that opens the submission digest.
pub const REPRESENTATION_SUBMISSION_DOMAIN_V1: &'static str = "evidentrail/bench/external-representation-submission/v1";

/// The field prefix a pass-through render writes before escaped data.
pub const PASSTHROUGH_ASCII_BYTE_ESCAPE_FIELD_PREFIX_V1: &'static str =
    "\n    data_encoding: ascii_byte_escape_v1\n    data: ";

/// The field prefix a compiled render writes before escaped data.
pub const COMPILED_ASCII_BYTE_ESCAPE_FIELD_PREFIX_V1: &'static str =
    "\n      data_encoding: ascii_byte_escape_v1\n      data: ";

/// Largest rendered candidate artifact a submission may bind.
pub const MAX_FIDELITY_RENDERED_CANDIDATE_BYTES_V1: u64 = 16777216;

/// Largest method name or version, in bytes.
pub const MAX_FIDELITY_METHOD_IDENTITY_BYTES_V1: usize = 128;

/// Position of a class in its declaration order.
pub open spec fn class_rank(c: EvidenceRepresentationClassV1) -> u64 {
    match c {
        EvidenceRepresentationClassV1::SourceExactShownVerbatim => 0,
        EvidenceRepresentationClassV1::SourceExactReversibleEncoding => 1,
        EvidenceRepresentationClassV1::SourceValidatedTransformedSample => 2,
        EvidenceRepresentationClassV1::PatternOnly => 3,
    }
}

/// Bytes widened for a lexicographic key.
pub open spec fn bytes_key(b: Seq<u8>) -> Seq<u64> {
    b.map_values(|x: u8| x as u64)
}

/// The key that orders claims field by field: event, class, digest, then
/// each optional part as absent before present.
pub open spec fn claim_key(c: EvidenceRepresentationClaimV1) -> Seq<u64> {
    seq![c.event_id.0, class_rank(c.class)] + bytes_key(c.representation_artifact_digest.0@) + (
    match c.reversible_encoding {
        None => seq![0u64],
        Some(e) => seq![1u64] + bytes_key(e.artifact_digest.0@) + seq![e.contract_version],
    }) + (match c.reversible_context_start {
        None => seq![0u64],
        Some(v) => seq![1u64, v],
    }) + (match c.rendered_byte_range {
        None => seq![0u64],
        Some(r) => seq![1u64, r.0, r.1],
    })
}

/// Insert a claim before the first claim whose key is greater.
pub open spec fn claim_insert(s: Seq<EvidenceRepresentationClaimV1>, c: EvidenceRepresentationClaimV1) -> Seq<
    EvidenceRepresentationClaimV1,
>
    decreases s.len(),
{
    if s.len() == 0 {
        seq![c]
    } else if lex_lt(claim_key(c), claim_key(s[0])) {
        seq![c] + s
    } else {
        seq![s[0]] + claim_insert(s.drop_first(), c)
    }
}

/// Claims in key order.
pub open spec fn claim_sort(s: Seq<EvidenceRepresentationClaimV1>) -> Seq<EvidenceRepresentationClaimV1>
    decreases s.len(),
{
    if s.len() == 0 {
        Seq::empty()
    } else {
        claim_insert(claim_sort(s.drop_last()), s.last())
    }
}

proof fn lemma_claim_insert_at(s: Seq<EvidenceRepresentationClaimV1>, c: EvidenceRepresentationClaimV1, p: int)
    requires
        0 <= p <= s.len(),
        forall|i: int| 0 <= i < p ==> !lex_lt(claim_key(c), claim_key(#[trigger] s[i])),
        p == s.len() || lex_lt(claim_key(c), claim_key(s[p])),
    ensures
        claim_insert(s, c) == s.insert(p, c),
    decreases p,
{
    if p == 0 {
        if s.len() == 0 {
            assert(s.insert(0, c) =~= seq![c]);
        } else {
            assert(s.insert(0, c) =~= seq![c] + s);
        }
    } else {
        let t = s.drop_first();
        assert(!lex_lt(claim_key(c), claim_key(s[0])));
        assert forall|i: int| 0 <= i < p - 1 implies !lex_lt(claim_key(c), claim_key(#[trigger] t[i])) by {
            assert(t[i] == s[i + 1]);
        }
        if p < s.len() {
            assert(t[p - 1] == s[p]);
        }
        lemma_claim_insert_at(t, c, p - 1);
        assert(s.insert(p, c) =~= seq![s[0]] + t.insert(p - 1, c));
    }
}

fn push_bytes_key(key: &mut Vec<u64>, bytes: &[u8; 32])
    ensures
        final(key)@ == old(key)@ + bytes_key(bytes@),
{
    let mut i: usize = 0;
    while i < 32
        invariant
            i <= 32,
            bytes@.len() == 32,
            key@ == old(key)@ + bytes_key(bytes@.subrange(0, i as int)),
        decreases 32 - i,
    {
        key.push(bytes[i] as u64);
        proof {
            assert(bytes_key(bytes@.subrange(0, i + 1)) =~= bytes_key(bytes@.subrange(0, i as int)).push(
                bytes@[i as int] as u64,
            ));
        }
        i = i + 1;
    }
    proof {
        assert(bytes@.subrange(0, 32) =~= bytes@);
    }
}

fn claim_key_exec(c: &EvidenceRepresentationClaimV1) -> (r: Vec<u64>)
    ensures
        r@ == claim_key(*c),
{
    let mut key: Vec<u64> = Vec::new();
    key.push(c.event_id.0);
    let rank: u64 = match c.class {
        EvidenceRepresentationClassV1::SourceExactShownVerbatim => 0,
        EvidenceRepresentationClassV1::SourceExactReversibleEncoding => 1,
        EvidenceRepresentationClassV1::SourceValidatedTransformedSample => 2,
        EvidenceRepresentationClassV1::PatternOnly => 3,
    };
    key.push(rank);
    push_bytes_key(&mut key, &c.representation_artifact_digest.0);
    let ghost k1 = key@;
    match c.reversible_encoding {
        None => {
            key.push(0);
        },
        Some(e) => {
            key.push(1);
            push_bytes_key(&mut key, &e.artifact_digest.0);
            key.push(e.contract_version);
        },
    }
    let ghost k2 = key@;
    match c.reversible_context_start {
        None => {
            key.push(0);
        },
        Some(v) => {
            key.push(1);
            key.push(v);
        },
    }
    let ghost k3 = key@;
    match c.rendered_byte_range {
        None => {
            key.push(0);
        },
        Some(r) => {
            key.push(1);
            key.push(r.0);
            key.push(r.1);
        },
    }
    proof {
        assert(k1 =~= seq![c.event_id.0, class_rank(c.class)] + bytes_key(c.representation_artifact_digest.0@));
        assert(key@ =~= claim_key(*c));
    }
    key
}

/// Sort claims into key order by insertion.
fn sort_claims(claims: &Vec<EvidenceRepresentationClaimV1>) -> (r: Vec<EvidenceRepresentationClaimV1>)
    ensures
        r@ == claim_sort(claims@),
{
    let mut out: Vec<EvidenceRepresentationClaimV1> = Vec::new();
    let mut keys: Vec<Vec<u64>> = Vec::new();
    let mut i: usize = 0;
    proof {
        assert(claims@.take(0) =~= Seq::<EvidenceRepresentationClaimV1>::empty());
    }
    while i < claims.len()
        invariant
            i <= claims.len(),
            out@ == claim_sort(claims@.take(i as int)),
            keys.len() == out.len(),
            forall|q: int| 0 <= q < keys.len() ==> (#[trigger] keys@[q])@ == claim_key(out@[q]),
        decreases claims.len() - i,
    {
        let c = claims[i];
        let key = claim_key_exec(&c);
        let mut p: usize = 0;
        while p < out.len() && lex_compare(&key, &keys[p]) != -1
            invariant
                p <= out.len(),
                keys.len() == out.len(),
                key@ == claim_key(c),
                forall|q: int| 0 <= q < keys.len() ==> (#[trigger] keys@[q])@ == claim_key(out@[q]),
                forall|q: int| 0 <= q < p ==> !lex_lt(claim_key(c), claim_key(#[trigger] out@[q])),
            decreases out.len() - p,
        {
            p = p + 1;
        }
        proof {
            lemma_claim_insert_at(out@, c, p as int);
            assert(claims@.take(i + 1).drop_last() =~= claims@.take(i as int));
            assert(claims@.take(i + 1).last() == c);
        }
        let ghost old_out = out@;
        let ghost old_keys = keys@;
        out.insert(p, c);
        keys.insert(p, key);
        proof {
            assert forall|q: int| 0 <= q < keys.len() implies (#[trigger] keys@[q])@ == claim_key(out@[q]) by {
                if q < p {
                    assert(keys@[q] == old_keys[q] && out@[q] == old_out[q]);
                } else if q > p {
                    assert(keys@[q] == old_keys[q - 1] && out@[q] == old_out[q - 1]);
                }
            }
        }
        i = i + 1;
    }
    proof {
        assert(claims@.take(i as int) =~= claims@);
    }
    out
}

/// The digest an encoded claim must carry for its encoded slice.
pub open spec fn reversible_digest(encoding: ReversibleEncodingIdentityV1, encoded: Seq<u8>) -> Seq<u8> {
    sha256_spec(
        framed(encode_utf8(REVERSIBLE_ENCODED_REPRESENTATION_DOMAIN_V1@)) + framed(encoding.artifact_digest.0@)
            + framed(u64_le(encoding.contract_version)) + framed(encoded),
    )
}

/// One of the two admitted field prefixes before escaped data.
pub open spec fn admitted_context(context: Seq<u8>) -> bool {
    context == encode_utf8(PASSTHROUGH_ASCII_BYTE_ESCAPE_FIELD_PREFIX_V1@) || context == encode_utf8(
        COMPILED_ASCII_BYTE_ESCAPE_FIELD_PREFIX_V1@,
    )
}

/// Check one claim's occurrence in the rendered artifact against the ledger:
/// the proven byte range of an exact claim, nothing for a non-exact one, or
/// the refusal. A verbatim slice must equal its event's bytes and carry their
/// digest; an encoded slice must follow an admitted prefix, decode to its
/// event's bytes and carry the encoding digest. Its proven range starts at
/// the prefix.
pub open spec fn claim_occurrence(
    claim: EvidenceRepresentationClaimV1,
    rendered: Seq<u8>,
    ledger: EventLedger,
) -> Result<Option<(int, int)>, RepresentationFidelityErrorV1> {
    let p = first_event(ledger.events@, claim.event_id, ledger.events.len() as int);
    match claim.class {
        EvidenceRepresentationClassV1::SourceExactShownVerbatim => if claim.reversible_encoding is None
            && claim.reversible_context_start is None && claim.rendered_byte_range is Some {
            let range = claim.rendered_byte_range->0;
            let start = range.0 as int;
            let end = range.1 as int;
            if start > usize::MAX || end > usize::MAX || start >= end || end > rendered.len() {
                Err(RepresentationFidelityErrorV1::InvalidRenderedByteRange)
            } else if p < 0 {
                Err(RepresentationFidelityErrorV1::UnknownClaimedEvent)
            } else if rendered.subrange(start, end) != ledger.events@[p].raw@ || source_exact_digest(
                ledger.events@[p].raw@,
            ) != claim.representation_artifact_digest.0@ {
                Err(RepresentationFidelityErrorV1::SourceExactDigestMismatch { count: 1 })
            } else {
                Ok(Some((start, end)))
            }
        } else {
            Err(RepresentationFidelityErrorV1::InvalidRenderedByteRange)
        },
        EvidenceRepresentationClassV1::SourceExactReversibleEncoding => if claim.reversible_encoding is Some
            && claim.reversible_context_start is Some && claim.rendered_byte_range is Some {
            let encoding = claim.reversible_encoding->0;
            let context = claim.reversible_context_start->0 as int;
            let range = claim.rendered_byte_range->0;
            let start = range.0 as int;
            let end = range.1 as int;
            if !is_ascii_byte_escape_v1(encoding) {
                Err(RepresentationFidelityErrorV1::UnknownReversibleEncoding)
            } else if context > usize::MAX || start > usize::MAX || end > usize::MAX || context >= start || start
                > end || start > rendered.len() {
                Err(RepresentationFidelityErrorV1::InvalidRenderedByteRange)
            } else if !admitted_context(rendered.subrange(context, start)) {
                Err(RepresentationFidelityErrorV1::MalformedReversibleEncodingContext)
            } else if end > rendered.len() {
                Err(RepresentationFidelityErrorV1::InvalidRenderedByteRange)
            } else if p < 0 {
                Err(RepresentationFidelityErrorV1::UnknownClaimedEvent)
            } else {
                match decode(rendered.subrange(start, end)) {
                    None => Err(RepresentationFidelityErrorV1::MalformedReversibleEncoding),
                    Some(d) => if d != ledger.events@[p].raw@ {
                        Err(RepresentationFidelityErrorV1::ReversibleDecodedBytesMismatch)
                    } else if reversible_digest(encoding, rendered.subrange(start, end))
                        != claim.representation_artifact_digest.0@ {
                        Err(RepresentationFidelityErrorV1::ReversibleEncodingDigestMismatch)
                    } else {
                        Ok(Some((context, end)))
                    },
                }
            }
        } else {
            Err(RepresentationFidelityErrorV1::InvalidRenderedByteRange)
        },
        _ => if claim.reversible_encoding is None && claim.reversible_context_start is None
            && claim.rendered_byte_range is None {
            Ok(None)
        } else {
            Err(RepresentationFidelityErrorV1::InvalidRenderedByteRange)
        },
    }
}

fn to_usize(v: u64) -> (r: Option<usize>)
    ensures
        v <= usize::MAX ==> r == Some(v as usize),
        v > usize::MAX ==> r is None,
{
    if v > (usize::MAX as u64) {
        None
    } else {
        Some(v as usize)
    }
}

fn check_claim_occurrence(claim: &EvidenceRepresentationClaimV1, rendered: &[u8], ledger: &EventLedger) -> (r: Result<
    Option<(usize, usize)>,
    RepresentationFidelityErrorV1,
>)
    ensures
        match claim_occurrence(*claim, rendered@, *ledger) {
            Err(e) => r == Err::<Option<(usize, usize)>, RepresentationFidelityErrorV1>(e),
            Ok(None) => r == Ok::<Option<(usize, usize)>, RepresentationFidelityErrorV1>(None),
            Ok(Some(q)) => r matches Ok(Some(x)) && x.0 == q.0 && x.1 == q.1,
        },
{
    match claim.class {
        EvidenceRepresentationClassV1::SourceExactShownVerbatim => {
            if claim.reversible_encoding.is_some() || claim.reversible_context_start.is_some() {
                return Err(RepresentationFidelityErrorV1::InvalidRenderedByteRange);
            }
            let (s, e) = match claim.rendered_byte_range {
                None => {
                    return Err(RepresentationFidelityErrorV1::InvalidRenderedByteRange);
                },
                Some(range) => range,
            };
            let start = match to_usize(s) {
                None => {
                    return Err(RepresentationFidelityErrorV1::InvalidRenderedByteRange);
                },
                Some(v) => v,
            };
            let end = match to_usize(e) {
                None => {
                    return Err(RepresentationFidelityErrorV1::InvalidRenderedByteRange);
                },
                Some(v) => v,
            };
            if start >= end || end > rendered.len() {
                return Err(RepresentationFidelityErrorV1::InvalidRenderedByteRange);
            }
            let p = match find_event(ledger, claim.event_id) {
                None => {
                    return Err(RepresentationFidelityErrorV1::UnknownClaimedEvent);
                },
                Some(p) => p,
            };
            let slice = vstd::slice::slice_subrange(rendered, start, end);
            if !bytes_eq(slice, ledger.events[p].raw.as_slice()) {
                return Err(RepresentationFidelityErrorV1::SourceExactDigestMismatch { count: 1 });
            }
            let derived = match derive_source_exact_representation_artifact_digest_v1(slice) {
                Ok(d) => d,
                Err(e) => {
                    return Err(e);
                },
            };
            if !crate::digest::bytes32_eq(&derived.0, &claim.representation_artifact_digest.0) {
                return Err(RepresentationFidelityErrorV1::SourceExactDigestMismatch { count: 1 });
            }
            Ok(Some((start, end)))
        },
        EvidenceRepresentationClassV1::SourceExactReversibleEncoding => {
            let encoding = match claim.reversible_encoding {
                None => {
                    return Err(RepresentationFidelityErrorV1::InvalidRenderedByteRange);
                },
                Some(x) => x,
            };
            let c = match claim.reversible_context_start {
                None => {
                    return Err(RepresentationFidelityErrorV1::InvalidRenderedByteRange);
                },
                Some(x) => x,
            };
            let (s, e) = match claim.rendered_byte_range {
                None => {
                    return Err(RepresentationFidelityErrorV1::InvalidRenderedByteRange);
                },
                Some(range) => range,
            };
            if let Err(err) = validate_reversible_encoding(encoding) {
                return Err(err);
            }
            let context = match to_usize(c) {
                None => {
                    return Err(RepresentationFidelityErrorV1::InvalidRenderedByteRange);
                },
                Some(v) => v,
            };
            let start = match to_usize(s) {
                None => {
                    return Err(RepresentationFidelityErrorV1::InvalidRenderedByteRange);
                },
                Some(v) => v,
            };
            let end = match to_usize(e) {
                None => {
                    return Err(RepresentationFidelityErrorV1::InvalidRenderedByteRange);
                },
                Some(v) => v,
            };
            if context >= start || start > end || start > rendered.len() {
                return Err(RepresentationFidelityErrorV1::InvalidRenderedByteRange);
            }
            let prefix = vstd::slice::slice_subrange(rendered, context, start);
            if !bytes_eq(prefix, PASSTHROUGH_ASCII_BYTE_ESCAPE_FIELD_PREFIX_V1.as_bytes()) && !bytes_eq(
                prefix,
                COMPILED_ASCII_BYTE_ESCAPE_FIELD_PREFIX_V1.as_bytes(),
            ) {
                return Err(RepresentationFidelityErrorV1::MalformedReversibleEncodingContext);
            }
            if end > rendered.len() {
                return Err(RepresentationFidelityErrorV1::InvalidRenderedByteRange);
            }
            let p = match find_event(ledger, claim.event_id) {
                None => {
                    return Err(RepresentationFidelityErrorV1::UnknownClaimedEvent);
                },
                Some(p) => p,
            };
            let slice = vstd::slice::slice_subrange(rendered, start, end);
            if let Err(err) = verify_ascii_byte_escape_v1(slice, ledger.events[p].raw.as_slice()) {
                return Err(err);
            }
            let derived = match derive_reversible_encoded_representation_artifact_digest_v1(encoding, slice) {
                Ok(d) => d,
                Err(err) => {
                    return Err(err);
                },
            };
            if !crate::digest::bytes32_eq(&derived.0, &claim.representation_artifact_digest.0) {
                return Err(RepresentationFidelityErrorV1::ReversibleEncodingDigestMismatch);
            }
            Ok(Some((context, end)))
        },
        _ => {
            if claim.reversible_encoding.is_some() || claim.reversible_context_start.is_some()
                || claim.rendered_byte_range.is_some() {
                return Err(RepresentationFidelityErrorV1::InvalidRenderedByteRange);
            }
            Ok(None)
        },
    }
}

/// The claim at `k` names the same event and class as an earlier claim.
pub open spec fn pair_repeated(s: Seq<EvidenceRepresentationClaimV1>, k: int) -> bool {
    exists|j: int| 0 <= j < k && (#[trigger] s[j]).event_id == s[k].event_id && s[j].class == s[k].class
}

/// The first `k` claims checked in order: each event and class at most once,
/// then each claim's occurrence. Gives the proven ranges in claim order.
pub open spec fn occurrences_scan(
    s: Seq<EvidenceRepresentationClaimV1>,
    rendered: Seq<u8>,
    ledger: EventLedger,
    k: int,
) -> Result<Seq<(int, int)>, RepresentationFidelityErrorV1>
    decreases k,
{
    if k <= 0 {
        Ok(Seq::empty())
    } else {
        match occurrences_scan(s, rendered, ledger, k - 1) {
            Err(e) => Err(e),
            Ok(ranges) => if pair_repeated(s, k - 1) {
                Err(RepresentationFidelityErrorV1::DuplicateEventRepresentationClass)
            } else {
                match claim_occurrence(s[k - 1], rendered, ledger) {
                    Err(e) => Err(e),
                    Ok(None) => Ok(ranges),
                    Ok(Some(q)) => Ok(ranges.push(q)),
                }
            },
        }
    }
}

proof fn lemma_occurrences_err_stays(
    s: Seq<EvidenceRepresentationClaimV1>,
    rendered: Seq<u8>,
    ledger: EventLedger,
    k: int,
    n: int,
)
    requires
        0 < k <= n,
        occurrences_scan(s, rendered, ledger, k) is Err,
    ensures
        occurrences_scan(s, rendered, ledger, n) == occurrences_scan(s, rendered, ledger, k),
    decreases n - k,
{
    if k < n {
        lemma_occurrences_err_stays(s, rendered, ledger, k, n - 1);
    }
}

/// Two proven ranges share a byte: one starts inside the other.
pub open spec fn ranges_overlap(ranges: Seq<(int, int)>) -> bool {
    exists|i: int, j: int|
        0 <= i < ranges.len() && 0 <= j < ranges.len() && i != j && (#[trigger] ranges[i]).0 <= (
        #[trigger] ranges[j]).0 && ranges[j].0 < ranges[i].1
}

/// The distinct events of the first `k` claims, each where it first occurs.
pub open spec fn claim_event_ids(s: Seq<EvidenceRepresentationClaimV1>, k: int) -> Seq<EventId>
    decreases k,
{
    if k <= 0 {
        Seq::empty()
    } else {
        let ids = claim_event_ids(s, k - 1);
        if ids.contains(s[k - 1].event_id) {
            ids
        } else {
            ids.push(s[k - 1].event_id)
        }
    }
}

fn scan_occurrences(claims: &Vec<EvidenceRepresentationClaimV1>, rendered: &[u8], ledger: &EventLedger) -> (r: Result<
    Vec<(usize, usize)>,
    RepresentationFidelityErrorV1,
>)
    ensures
        match occurrences_scan(claims@, rendered@, *ledger, claims.len() as int) {
            Err(e) => r == Err::<Vec<(usize, usize)>, RepresentationFidelityErrorV1>(e),
            Ok(q) => r matches Ok(v) && v.len() == q.len() && forall|t: int|
                0 <= t < q.len() ==> (#[trigger] v@[t]).0 == q[t].0 && v@[t].1 == q[t].1,
        },
{
    let mut ranges: Vec<(usize, usize)> = Vec::new();
    let mut i: usize = 0;
    while i < claims.len()
        invariant
            i <= claims.len(),
            occurrences_scan(claims@, rendered@, *ledger, i as int) matches Ok(q) && ranges.len() == q.len()
                && forall|t: int| 0 <= t < q.len() ==> (#[trigger] ranges@[t]).0 == q[t].0 && ranges@[t].1 == q[t].1,
        decreases claims.len() - i,
    {
        let c = claims[i];
        let mut j: usize = 0;
        while j < i
            invariant
                j <= i < claims.len(),
                c == claims@[i as int],
                occurrences_scan(claims@, rendered@, *ledger, i as int) is Ok,
                forall|t: int|
                    0 <= t < j ==> !((#[trigger] claims@[t]).event_id == c.event_id && claims@[t].class == c.class),
            decreases i - j,
        {
            if claims[j].event_id.0 == c.event_id.0 && claims[j].class == c.class {
                proof {
                    assert(claims@[j as int].event_id == c.event_id);
                    assert(pair_repeated(claims@, i as int));
                    assert(occurrences_scan(claims@, rendered@, *ledger, i + 1) == Err::<Seq<(int, int)>, RepresentationFidelityErrorV1>(
                        RepresentationFidelityErrorV1::DuplicateEventRepresentationClass,
                    ));
                    lemma_occurrences_err_stays(claims@, rendered@, *ledger, i + 1, claims.len() as int);
                }
                return Err(RepresentationFidelityErrorV1::DuplicateEventRepresentationClass);
            }
            j = j + 1;
        }
        match check_claim_occurrence(&c, rendered, ledger) {
            Err(e) => {
                proof {
                    lemma_occurrences_err_stays(claims@, rendered@, *ledger, i + 1, claims.len() as int);
                }
                return Err(e);
            },
            Ok(None) => {},
            Ok(Some(x)) => {
                ranges.push(x);
            },
        }
        i = i + 1;
    }
    Ok(ranges)
}

fn overlapping(ranges: &Vec<(usize, usize)>) -> (r: bool)
    ensures
        r == ranges_overlap(ranges@.map_values(|x: (usize, usize)| (x.0 as int, x.1 as int))),
{
    let ghost rs = ranges@.map_values(|x: (usize, usize)| (x.0 as int, x.1 as int));
    let mut i: usize = 0;
    while i < ranges.len()
        invariant
            i <= ranges.len(),
            rs == ranges@.map_values(|x: (usize, usize)| (x.0 as int, x.1 as int)),
            forall|a: int, b: int|
                0 <= a < i && 0 <= b < rs.len() && a != b ==> !((#[trigger] rs[a]).0 <= (#[trigger] rs[b]).0
                    && rs[b].0 < rs[a].1),
        decreases ranges.len() - i,
    {
        let mut j: usize = 0;
        while j < ranges.len()
            invariant
                i < ranges.len(),
                j <= ranges.len(),
                rs == ranges@.map_values(|x: (usize, usize)| (x.0 as int, x.1 as int)),
                forall|a: int, b: int|
                    0 <= a < i && 0 <= b < rs.len() && a != b ==> !((#[trigger] rs[a]).0 <= (#[trigger] rs[b]).0
                        && rs[b].0 < rs[a].1),
                forall|b: int|
                    0 <= b < j && i != b ==> !(rs[i as int].0 <= (#[trigger] rs[b]).0 && rs[b].0 < rs[i as int].1),
            decreases ranges.len() - j,
        {
            if i != j && ranges[i].0 <= ranges[j].0 && ranges[j].0 < ranges[i].1 {
                proof {
                    assert(rs[i as int].0 <= rs[j as int].0 && rs[j as int].0 < rs[i as int].1);
                }
                return true;
            }
            j = j + 1;
        }
        i = i + 1;
    }
    false
}

fn collect_event_ids(claims: &Vec<EvidenceRepresentationClaimV1>) -> (r: Vec<EventId>)
    ensures
        r@ == claim_event_ids(claims@, claims.len() as int),
{
    let mut ids: Vec<EventId> = Vec::new();
    let mut i: usize = 0;
    while i < claims.len()
        invariant
            i <= claims.len(),
            ids@ == claim_event_ids(claims@, i as int),
        decreases claims.len() - i,
    {
        let id = claims[i].event_id;
        let mut j: usize = 0;
        let mut found = false;
        while j < ids.len()
            invariant
                j <= ids.len(),
                found == exists|t: int| 0 <= t < j && ids@[t] == id,
            decreases ids.len() - j,
        {
            if ids[j].0 == id.0 {
                found = true;
            }
            j = j + 1;
        }
        proof {
            if found {
                let t = choose|t: int| 0 <= t < j && ids@[t] == id;
                assert(ids@.contains(id));
            } else {
                assert(!ids@.contains(id));
            }
        }
        if !found {
            ids.push(id);
        }
        i = i + 1;
    }
    ids
}

/// The resource envelope of the candidate events: their count and source
/// bytes recomputed from the sealed ledger, beside the three observed axes.
/// Any failure to recompute is an invariant violation.
pub open spec fn resource_envelope(
    ids: Seq<EventId>,
    ledger: EventLedger,
    observed: MeasuredCandidateResources,
) -> Result<CandidateResourceEnvelope, RepresentationFidelityErrorV1> {
    match candidate_bytes(ids, ledger, ids.len() as int) {
        Err(_) => Err(RepresentationFidelityErrorV1::CandidateResourceInvariantViolation),
        Ok(b) => Ok(
            CandidateResourceEnvelope {
                unique_candidate_event_count: ids.len() as u64,
                unique_candidate_source_bytes: b,
                canonical_candidate_tokens: observed.canonical_candidate_tokens,
                wall_time_nanos: observed.wall_time_nanos,
                peak_memory_bytes: observed.peak_memory_bytes,
            },
        ),
    }
}

/// Every axis of the envelope is within the same axis of the run's cap.
pub open spec fn envelope_within(e: CandidateResourceEnvelope, cap: BenchmarkBudgetV1) -> bool {
    &&& e.unique_candidate_event_count <= cap.unique_candidate_event_count
    &&& e.unique_candidate_source_bytes <= cap.unique_candidate_source_bytes
    &&& e.canonical_candidate_tokens <= cap.canonical_candidate_tokens
    &&& e.wall_time_nanos <= cap.wall_time_nanos
    &&& e.peak_memory_bytes <= cap.peak_memory_bytes
}

/// The checks made before any claim is read, in order: the case belongs to
/// the run, the method identity is non-empty and bounded, and the rendered
/// artifact is bounded and is exactly the bytes handed in.
pub open spec fn submission_precheck(
    run_manifest: EvidentrailBenchRunManifestV1,
    public_case_artifact_digest: ArtifactDigest,
    method: MethodDescriptor,
    rendered_candidate: RenderedCandidateArtifactV1,
    rendered: Seq<u8>,
    claim_count: int,
) -> Option<RepresentationFidelityErrorV1> {
    let name = encode_utf8(method.name@);
    let version = encode_utf8(method.version@);
    if !digest_listed(run_manifest.public_case_artifact_digests@, public_case_artifact_digest) {
        Some(RepresentationFidelityErrorV1::UnknownPublicCaseArtifact)
    } else if name.len() == 0 || version.len() == 0 {
        Some(RepresentationFidelityErrorV1::EmptyMethodIdentity)
    } else if name.len() > MAX_FIDELITY_METHOD_IDENTITY_BYTES_V1 || version.len() > MAX_FIDELITY_METHOD_IDENTITY_BYTES_V1 {
        Some(RepresentationFidelityErrorV1::MethodIdentityTooLarge)
    } else if rendered_candidate.byte_count > MAX_FIDELITY_RENDERED_CANDIDATE_BYTES_V1 {
        Some(RepresentationFidelityErrorV1::RenderedCandidateTooLarge)
    } else if rendered_candidate.byte_count != rendered.len() || sha256_spec(rendered)
        != rendered_candidate.artifact_digest.0@ {
        Some(RepresentationFidelityErrorV1::RenderedCandidateArtifactMismatch)
    } else if claim_count == 0 {
        Some(RepresentationFidelityErrorV1::EmptyRepresentationClaims)
    } else if claim_count > MAX_REPRESENTATION_CLAIMS_V1 {
        Some(RepresentationFidelityErrorV1::TooManyRepresentationClaims)
    } else {
        None
    }
}

/// What a self-asserted submission freezes, or its refusal: the claims in key
/// order, their distinct events and the resource envelope. Each claim's
/// event and class occur once; every exact claim is proven against the
/// rendered bytes and the ledger; no two proven ranges share a byte; the
/// envelope fits the run's cap.
pub open spec fn submission_outcome(
    run_manifest: EvidentrailBenchRunManifestV1,
    public_case_artifact_digest: ArtifactDigest,
    method: MethodDescriptor,
    ledger: EventLedger,
    rendered_candidate: RenderedCandidateArtifactV1,
    rendered: Seq<u8>,
    observed: MeasuredCandidateResources,
    claims: Seq<EvidenceRepresentationClaimV1>,
) -> Result<(Seq<EvidenceRepresentationClaimV1>, Seq<EventId>, CandidateResourceEnvelope), RepresentationFidelityErrorV1> {
    match submission_precheck(run_manifest, public_case_artifact_digest, method, rendered_candidate, rendered, claims.len() as int) {
        Some(e) => Err(e),
        None => {
            let sorted = claim_sort(claims);
            match occurrences_scan(sorted, rendered, ledger, sorted.len() as int) {
                Err(e) => Err(e),
                Ok(ranges) => if ranges_overlap(ranges) {
                    Err(RepresentationFidelityErrorV1::OverlappingProvenRepresentationRanges)
                } else {
                    let ids = claim_event_ids(sorted, sorted.len() as int);
                    match resource_envelope(ids, ledger, observed) {
                        Err(e) => Err(e),
                        Ok(envelope) => if !envelope_within(envelope, run_manifest.identity.budget) {
                            Err(RepresentationFidelityErrorV1::CandidateResourceCapExceeded)
                        } else {
                            Ok((sorted, ids, envelope))
                        },
                    }
                },
            }
        },
    }
}

pub open spec fn budget_fields(b: BenchmarkBudgetV1) -> Seq<u8> {
    u64_field(b.unique_candidate_event_count) + u64_field(b.unique_candidate_source_bytes) + u64_field(
        b.canonical_candidate_tokens,
    ) + u64_field(b.wall_time_nanos) + u64_field(b.peak_memory_bytes)
}

pub open spec fn envelope_fields(e: CandidateResourceEnvelope) -> Seq<u8> {
    u64_field(e.unique_candidate_event_count) + u64_field(e.unique_candidate_source_bytes) + u64_field(
        e.canonical_candidate_tokens,
    ) + u64_field(e.wall_time_nanos) + u64_field(e.peak_memory_bytes)
}

pub open spec fn encoding_fields(e: Option<ReversibleEncodingIdentityV1>) -> Seq<u8> {
    match e {
        Some(e) => u64_field(1) + framed(e.artifact_digest.0@) + u64_field(e.contract_version),
        None => u64_field(0),
    }
}

pub open spec fn context_fields(v: Option<u64>) -> Seq<u8> {
    match v {
        Some(v) => u64_field(1) + u64_field(v),
        None => u64_field(0),
    }
}

pub open spec fn range_fields(q: Option<(u64, u64)>) -> Seq<u8> {
    match q {
        Some(q) => u64_field(1) + u64_field(q.0) + u64_field(q.1),
        None => u64_field(0),
    }
}

pub open spec fn claim_fields(c: EvidenceRepresentationClaimV1) -> Seq<u8> {
    u64_field(c.event_id.0) + framed(encode_utf8(c.class.spec_code())) + framed(c.representation_artifact_digest.0@)
        + encoding_fields(c.reversible_encoding) + context_fields(c.reversible_context_start) + range_fields(
        c.rendered_byte_range,
    )
}

pub open spec fn claims_fields(claims: Seq<EvidenceRepresentationClaimV1>, n: int) -> Seq<u8>
    decreases n,
{
    if n <= 0 {
        Seq::empty()
    } else {
        claims_fields(claims, n - 1) + claim_fields(claims[n - 1])
    }
}

/// The bytes the submission digest commits to: the run and its identity,
/// the case, the method, the retrieval, the representation, normalizer and
/// measurement environment, the rendered artifact, the resource envelope and
/// every claim in key order.
pub open spec fn submission_message(
    public_run_manifest_artifact_digest: ArtifactDigest,
    run_identity: BenchmarkRunIdentityV1,
    public_case_artifact_digest: ArtifactDigest,
    method: MethodDescriptor,
    retrieval_id: RetrievalId,
    representation_artifact_digest: ArtifactDigest,
    normalizer_artifact_digest: ArtifactDigest,
    environment: MeasurementEnvironmentV1,
    rendered_candidate: RenderedCandidateArtifactV1,
    resources: CandidateResourceEnvelope,
    claims: Seq<EvidenceRepresentationClaimV1>,
) -> Seq<u8> {
    framed(encode_utf8(REPRESENTATION_SUBMISSION_DOMAIN_V1@)) + framed(public_run_manifest_artifact_digest.0@) + framed(
        run_identity.system_artifact_digest.0@,
    ) + framed(run_identity.build_artifact_digest.0@) + framed(run_identity.dataset_artifact_digest.0@) + framed(
        public_case_artifact_digest.0@,
    ) + u64_field(run_identity.seed) + budget_fields(run_identity.budget) + framed(encode_utf8(method.name@)) + framed(
        encode_utf8(method.version@),
    ) + u64_field(retrieval_id.0) + framed(representation_artifact_digest.0@) + framed(
        normalizer_artifact_digest.0@,
    ) + framed(environment.tokenizer.artifact_digest.0@) + framed(environment.renderer.artifact_digest.0@) + u64_field(
        environment.renderer.contract_version,
    ) + framed(environment.harness.artifact_digest.0@) + u64_field(environment.harness.contract_version) + framed(
        rendered_candidate.artifact_digest.0@,
    ) + u64_field(rendered_candidate.byte_count) + envelope_fields(resources) + u64_field(claims.len() as u64)
        + claims_fields(claims, claims.len() as int)
}

fn push_encoding_fields(buf: &mut Vec<u8>, e: Option<ReversibleEncodingIdentityV1>)
    ensures
        final(buf)@ == old(buf)@ + encoding_fields(e),
{
    match e {
        Some(e) => {
            push_u64_field(buf, 1);
            push_field(buf, &e.artifact_digest.0);
            push_u64_field(buf, e.contract_version);
        },
        None => {
            push_u64_field(buf, 0);
        },
    }
    proof {
        assert(buf@ =~= old(buf)@ + encoding_fields(e));
    }
}

fn push_context_fields(buf: &mut Vec<u8>, v: Option<u64>)
    ensures
        final(buf)@ == old(buf)@ + context_fields(v),
{
    match v {
        Some(v) => {
            push_u64_field(buf, 1);
            push_u64_field(buf, v);
        },
        None => {
            push_u64_field(buf, 0);
        },
    }
    proof {
        assert(buf@ =~= old(buf)@ + context_fields(v));
    }
}

fn push_range_fields(buf: &mut Vec<u8>, q: Option<(u64, u64)>)
    ensures
        final(buf)@ == old(buf)@ + range_fields(q),
{
    match q {
        Some(q) => {
            push_u64_field(buf, 1);
            push_u64_field(buf, q.0);
            push_u64_field(buf, q.1);
        },
        None => {
            push_u64_field(buf, 0);
        },
    }
    proof {
        assert(buf@ =~= old(buf)@ + range_fields(q));
    }
}

fn push_claim_fields(buf: &mut Vec<u8>, c: &EvidenceRepresentationClaimV1)
    ensures
        final(buf)@ == old(buf)@ + claim_fields(*c),
{
    push_u64_field(buf, c.event_id.0);
    push_field(buf, c.class.code().as_bytes());
    push_field(buf, &c.representation_artifact_digest.0);
    push_encoding_fields(buf, c.reversible_encoding);
    push_context_fields(buf, c.reversible_context_start);
    push_range_fields(buf, c.rendered_byte_range);
    proof {
        assert(buf@ =~= old(buf)@ + claim_fields(*c));
    }
}

fn push_budget_fields(buf: &mut Vec<u8>, b: BenchmarkBudgetV1)
    ensures
        final(buf)@ == old(buf)@ + budget_fields(b),
{
    push_u64_field(buf, b.unique_candidate_event_count);
    push_u64_field(buf, b.unique_candidate_source_bytes);
    push_u64_field(buf, b.canonical_candidate_tokens);
    push_u64_field(buf, b.wall_time_nanos);
    push_u64_field(buf, b.peak_memory_bytes);
    proof {
        assert(buf@ =~= old(buf)@ + budget_fields(b));
    }
}

fn push_envelope_fields(buf: &mut Vec<u8>, e: CandidateResourceEnvelope)
    ensures
        final(buf)@ == old(buf)@ + envelope_fields(e),
{
    push_u64_field(buf, e.unique_candidate_event_count);
    push_u64_field(buf, e.unique_candidate_source_bytes);
    push_u64_field(buf, e.canonical_candidate_tokens);
    push_u64_field(buf, e.wall_time_nanos);
    push_u64_field(buf, e.peak_memory_bytes);
    proof {
        assert(buf@ =~= old(buf)@ + envelope_fields(e));
    }
}

fn derive_submission_digest(
    public_run_manifest_artifact_digest: ArtifactDigest,
    run_identity: BenchmarkRunIdentityV1,
    public_case_artifact_digest: ArtifactDigest,
    method: MethodDescriptor,
    retrieval_id: RetrievalId,
    representation_artifact_digest: ArtifactDigest,
    normalizer_artifact_digest: ArtifactDigest,
    environment: MeasurementEnvironmentV1,
    rendered_candidate: RenderedCandidateArtifactV1,
    resources: CandidateResourceEnvelope,
    claims: &Vec<EvidenceRepresentationClaimV1>,
) -> (r: ArtifactDigest)
    ensures
        r.0@ == sha256_spec(
            submission_message(
                public_run_manifest_artifact_digest,
                run_identity,
                public_case_artifact_digest,
                method,
                retrieval_id,
                representation_artifact_digest,
                normalizer_artifact_digest,
                environment,
                rendered_candidate,
                resources,
                claims@,
            ),
        ),
{
    let mut message: Vec<u8> = Vec::new();
    push_field(&mut message, REPRESENTATION_SUBMISSION_DOMAIN_V1.as_bytes());
    push_field(&mut message, &public_run_manifest_artifact_digest.0);
    push_field(&mut message, &run_identity.system_artifact_digest.0);
    push_field(&mut message, &run_identity.build_artifact_digest.0);
    push_field(&mut message, &run_identity.dataset_artifact_digest.0);
    push_field(&mut message, &public_case_artifact_digest.0);
    push_u64_field(&mut message, run_identity.seed);
    push_budget_fields(&mut message, run_identity.budget);
    push_field(&mut message, method.name.as_bytes());
    push_field(&mut message, method.version.as_bytes());
    push_u64_field(&mut message, retrieval_id.0);
    push_field(&mut message, &representation_artifact_digest.0);
    push_field(&mut message, &normalizer_artifact_digest.0);
    push_field(&mut message, &environment.tokenizer.artifact_digest.0);
    push_field(&mut message, &environment.renderer.artifact_digest.0);
    push_u64_field(&mut message, environment.renderer.contract_version);
    push_field(&mut message, &environment.harness.artifact_digest.0);
    push_u64_field(&mut message, environment.harness.contract_version);
    push_field(&mut message, &rendered_candidate.artifact_digest.0);
    push_u64_field(&mut message, rendered_candidate.byte_count);
    push_envelope_fields(&mut message, resources);
    push_u64_field(&mut message, claims.len() as u64);
    let ghost head = message@;
    let mut i: usize = 0;
    while i < claims.len()
        invariant
            i <= claims.len(),
            message@ == head + claims_fields(claims@, i as int),
        decreases claims.len() - i,
    {
        push_claim_fields(&mut message, &claims[i]);
        i = i + 1;
        proof {
            assert(message@ =~= head + claims_fields(claims@, i as int));
        }
    }
    proof {
        assert(message@ =~= submission_message(
            public_run_manifest_artifact_digest,
            run_identity,
            public_case_artifact_digest,
            method,
            retrieval_id,
            representation_artifact_digest,
            normalizer_artifact_digest,
            environment,
            rendered_candidate,
            resources,
            claims@,
        ));
    }
    ArtifactDigest(sha256(message.as_slice()))
}

impl FrozenExternalRepresentationSubmissionV1 {
    /// Freeze a self-asserted submission for one public case of a run. The
    /// case must belong to the run, the method identity and rendered artifact
    /// must be bounded and the artifact must be exactly the bytes handed in.
    /// Claims are put in key order; each event and class may be claimed once.
    /// Source-exact claims are byte-verified against both the rendered
    /// artifact and the sealed ledger: a verbatim slice equals its event's
    /// bytes, an encoded slice follows an admitted field prefix and decodes to
    /// them. The proven ranges, an encoded one from its prefix, share no byte,
    /// and the resources recomputed from the ledger fit the run's cap. The
    /// digest binds all of it.
    pub fn try_new_self_asserted(
        public_run_manifest_artifact_digest: ArtifactDigest,
        run_manifest: &EvidentrailBenchRunManifestV1,
        public_case_artifact_digest: ArtifactDigest,
        method: MethodDescriptor,
        ledger: &EventLedger,
        representation_artifact_digest: ArtifactDigest,
        normalizer_artifact_digest: ArtifactDigest,
        environment: MeasurementEnvironmentV1,
        rendered_candidate: RenderedCandidateArtifactV1,
        rendered_candidate_bytes: &[u8],
        externally_observed: MeasuredCandidateResources,
        claims: Vec<EvidenceRepresentationClaimV1>,
    ) -> (r: Result<FrozenExternalRepresentationSubmissionV1, RepresentationFidelityErrorV1>)
        ensures
            match submission_outcome(
                *run_manifest,
                public_case_artifact_digest,
                method,
                *ledger,
                rendered_candidate,
                rendered_candidate_bytes@,
                externally_observed,
                claims@,
            ) {
                Err(e) => r matches Err(x) && x == e,
                Ok(t) => r matches Ok(s) && s.claims@ == t.0 && s.candidate_event_ids@ == t.1 && s.resources == t.2
                    && s.public_run_manifest_artifact_digest == public_run_manifest_artifact_digest && s.run_identity
                    == run_manifest.identity && s.public_case_artifact_digest == public_case_artifact_digest
                    && s.method == method && s.retrieval_id == ledger.retrieval_id
                    && s.representation_artifact_digest == representation_artifact_digest
                    && s.normalizer_artifact_digest == normalizer_artifact_digest && s.environment == environment
                    && s.rendered_candidate == rendered_candidate && s.artifact_digest.0@ == sha256_spec(
                    submission_message(
                        public_run_manifest_artifact_digest,
                        run_manifest.identity,
                        public_case_artifact_digest,
                        method,
                        ledger.retrieval_id,
                        representation_artifact_digest,
                        normalizer_artifact_digest,
                        environment,
                        rendered_candidate,
                        t.2,
                        t.0,
                    ),
                ),
            },
    {
        if !digest_in_list(&run_manifest.public_case_artifact_digests, public_case_artifact_digest) {
            return Err(RepresentationFidelityErrorV1::UnknownPublicCaseArtifact);
        }
        let name_len = method.name.as_bytes().len();
        let version_len = method.version.as_bytes().len();
        if name_len == 0 || version_len == 0 {
            return Err(RepresentationFidelityErrorV1::EmptyMethodIdentity);
        }
        if name_len > MAX_FIDELITY_METHOD_IDENTITY_BYTES_V1 || version_len > MAX_FIDELITY_METHOD_IDENTITY_BYTES_V1 {
            return Err(RepresentationFidelityErrorV1::MethodIdentityTooLarge);
        }
        if rendered_candidate.byte_count > MAX_FIDELITY_RENDERED_CANDIDATE_BYTES_V1 {
            return Err(RepresentationFidelityErrorV1::RenderedCandidateTooLarge);
        }
        if rendered_candidate.byte_count != rendered_candidate_bytes.len() as u64 || !crate::digest::bytes32_eq(
            &sha256(rendered_candidate_bytes),
            &rendered_candidate.artifact_digest.0,
        ) {
            return Err(RepresentationFidelityErrorV1::RenderedCandidateArtifactMismatch);
        }
        if claims.len() == 0 {
            return Err(RepresentationFidelityErrorV1::EmptyRepresentationClaims);
        }
        if claims.len() > MAX_REPRESENTATION_CLAIMS_V1 {
            return Err(RepresentationFidelityErrorV1::TooManyRepresentationClaims);
        }
        let sorted = sort_claims(&claims);
        let ranges = match scan_occurrences(&sorted, rendered_candidate_bytes, ledger) {
            Ok(v) => v,
            Err(e) => {
                return Err(e);
            },
        };
        proof {
            let q = occurrences_scan(sorted@, rendered_candidate_bytes@, *ledger, sorted.len() as int)->Ok_0;
            assert(ranges@.map_values(|x: (usize, usize)| (x.0 as int, x.1 as int)) =~= q);
        }
        if overlapping(&ranges) {
            return Err(RepresentationFidelityErrorV1::OverlappingProvenRepresentationRanges);
        }
        let candidate_event_ids = collect_event_ids(&sorted);
        let source_bytes = match sum_candidate_bytes(&candidate_event_ids, ledger) {
            Ok(b) => b,
            Err(_) => {
                return Err(RepresentationFidelityErrorV1::CandidateResourceInvariantViolation);
            },
        };
        let resources = CandidateResourceEnvelope {
            unique_candidate_event_count: candidate_event_ids.len() as u64,
            unique_candidate_source_bytes: source_bytes,
            canonical_candidate_tokens: externally_observed.canonical_candidate_tokens,
            wall_time_nanos: externally_observed.wall_time_nanos,
            peak_memory_bytes: externally_observed.peak_memory_bytes,
        };
        let cap = run_manifest.identity.budget;
        if resources.unique_candidate_event_count > cap.unique_candidate_event_count
            || resources.unique_candidate_source_bytes > cap.unique_candidate_source_bytes
            || resources.canonical_candidate_tokens > cap.canonical_candidate_tokens || resources.wall_time_nanos
            > cap.wall_time_nanos || resources.peak_memory_bytes > cap.peak_memory_bytes {
            return Err(RepresentationFidelityErrorV1::CandidateResourceCapExceeded);
        }
        let artifact_digest = derive_submission_digest(
            public_run_manifest_artifact_digest,
            run_manifest.identity,
            public_case_artifact_digest,
            method,
            ledger.retrieval_id,
            representation_artifact_digest,
            normalizer_artifact_digest,
            environment,
            rendered_candidate,
            resources,
            &sorted,
        );
        Ok(FrozenExternalRepresentationSubmissionV1 {
            artifact_digest,
            public_run_manifest_artifact_digest,
            run_identity: run_manifest.identity,
            public_case_artifact_digest,
            method,
            retrieval_id: ledger.retrieval_id,
            representation_artifact_digest,
            normalizer_artifact_digest,
            environment,
            rendered_candidate,
            resources,
            claims: sorted,
            candidate_event_ids,
        })
    }
}

} // verus!
