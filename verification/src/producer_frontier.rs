//! The governed Pareto frontier over a preregistered plan of configured
//! producers: plan points, the join of one outcome to each point, and the
//! exact non-dominated subset of the points within their caps.

use vstd::prelude::*;

use crate::digest::{bytes32_eq, ArtifactDigest};
use crate::evaluator::{GovernedCaseArtifactBindingV1, GovernedRequirementRecallV1};
use crate::measurement::MeasurementTrustBoundaryV1;
use crate::producer_comparison::{
    artifact_bindings_match, cost_axes, lower_is_better_pareto_dominates, same_artifact_binding,
    spec_lower_is_better_dominates,
};
use crate::producer_proposals::GovernedProducerProposalEvaluationV1;
use crate::producer_proposals::ProducerProposalResourceDimensionV1;
use crate::sha256::{framed, push_field, push_u64_le, sha256, sha256_spec, u64_le};
use vstd::utf8::encode_utf8;
use crate::producer_proposals::{
    FrozenProducerProposalUniverseDigestV1, ProducerProposalAcquisitionBindingV1, ProducerProposalCapViolationsV1,
    ProducerProposalIdentityV1, ProducerProposalMeasurementEnvironmentV1, ProducerProposalResourceCapV1,
    ProducerProposalResourceEnvelopeV1,
};

verus! {

/// Domain-separated identity of a label-free, preregistered frontier plan.
#[derive(Clone, Copy, Debug, Hash)]
pub struct ProducerProposalFrontierPlanDigestV1(pub [u8; 32]);

impl ProducerProposalFrontierPlanDigestV1 {
    pub fn as_bytes(&self) -> (r: &[u8; 32])
        ensures
            *r == self.0,
    {
        &self.0
    }
}

/// Domain-separated identity of the complete governed frontier artifact.
#[derive(Clone, Copy, Debug, Hash)]
pub struct GovernedProducerProposalFrontierDigestV1(pub [u8; 32]);

impl GovernedProducerProposalFrontierDigestV1 {
    pub fn as_bytes(&self) -> (r: &[u8; 32])
        ensures
            *r == self.0,
    {
        &self.0
    }
}

/// Contentless plan, join, and frontier construction failures.
#[derive(Clone, Copy, Debug, PartialEq, Eq, Structural)]
pub enum ProducerProposalFrontierErrorV1 {
    EmptyRequestedPoints,
    TooManyRequestedPoints,
    DuplicateUniverseCapPoint,
    PublicCaseBindingMismatch,
    AnnotationBindingMismatch,
    AcquisitionBindingMismatch,
    MethodArtifactMismatch,
    MeasurementEnvironmentMismatch,
    ProducerIdentityMismatch,
    RecallUniverseMismatch,
    CapViolationMismatch,
    DuplicateOutcomePoint,
    UnplannedOutcomePoint,
    MissingOutcomePoints { count: usize },
    CollectionLengthOverflow,
}

impl ProducerProposalFrontierErrorV1 {
    pub open spec fn spec_code(self) -> Seq<char> {
        match self {
            ProducerProposalFrontierErrorV1::EmptyRequestedPoints => "EVIDENTRAIL_BENCH_PROPOSAL_FRONTIER_EMPTY_REQUESTED_POINTS"@,
            ProducerProposalFrontierErrorV1::TooManyRequestedPoints => "EVIDENTRAIL_BENCH_PROPOSAL_FRONTIER_TOO_MANY_REQUESTED_POINTS"@,
            ProducerProposalFrontierErrorV1::DuplicateUniverseCapPoint => "EVIDENTRAIL_BENCH_PROPOSAL_FRONTIER_DUPLICATE_UNIVERSE_CAP_POINT"@,
            ProducerProposalFrontierErrorV1::PublicCaseBindingMismatch => "EVIDENTRAIL_BENCH_PROPOSAL_FRONTIER_PUBLIC_CASE_BINDING_MISMATCH"@,
            ProducerProposalFrontierErrorV1::AnnotationBindingMismatch => "EVIDENTRAIL_BENCH_PROPOSAL_FRONTIER_ANNOTATION_BINDING_MISMATCH"@,
            ProducerProposalFrontierErrorV1::AcquisitionBindingMismatch => "EVIDENTRAIL_BENCH_PROPOSAL_FRONTIER_ACQUISITION_BINDING_MISMATCH"@,
            ProducerProposalFrontierErrorV1::MethodArtifactMismatch => "EVIDENTRAIL_BENCH_PROPOSAL_FRONTIER_METHOD_ARTIFACT_MISMATCH"@,
            ProducerProposalFrontierErrorV1::MeasurementEnvironmentMismatch => "EVIDENTRAIL_BENCH_PROPOSAL_FRONTIER_MEASUREMENT_ENVIRONMENT_MISMATCH"@,
            ProducerProposalFrontierErrorV1::ProducerIdentityMismatch => "EVIDENTRAIL_BENCH_PROPOSAL_FRONTIER_PRODUCER_IDENTITY_MISMATCH"@,
            ProducerProposalFrontierErrorV1::RecallUniverseMismatch => "EVIDENTRAIL_BENCH_PROPOSAL_FRONTIER_RECALL_UNIVERSE_MISMATCH"@,
            ProducerProposalFrontierErrorV1::CapViolationMismatch => "EVIDENTRAIL_BENCH_PROPOSAL_FRONTIER_CAP_VIOLATION_MISMATCH"@,
            ProducerProposalFrontierErrorV1::DuplicateOutcomePoint => "EVIDENTRAIL_BENCH_PROPOSAL_FRONTIER_DUPLICATE_OUTCOME_POINT"@,
            ProducerProposalFrontierErrorV1::UnplannedOutcomePoint => "EVIDENTRAIL_BENCH_PROPOSAL_FRONTIER_UNPLANNED_OUTCOME_POINT"@,
            ProducerProposalFrontierErrorV1::MissingOutcomePoints { .. } => "EVIDENTRAIL_BENCH_PROPOSAL_FRONTIER_MISSING_OUTCOME_POINTS"@,
            ProducerProposalFrontierErrorV1::CollectionLengthOverflow => "EVIDENTRAIL_BENCH_PROPOSAL_FRONTIER_COLLECTION_LENGTH_OVERFLOW"@,
        }
    }

    pub fn code(self) -> (r: &'static str)
        ensures
            r@ == self.spec_code(),
    {
        match self {
            ProducerProposalFrontierErrorV1::EmptyRequestedPoints => "EVIDENTRAIL_BENCH_PROPOSAL_FRONTIER_EMPTY_REQUESTED_POINTS",
            ProducerProposalFrontierErrorV1::TooManyRequestedPoints => "EVIDENTRAIL_BENCH_PROPOSAL_FRONTIER_TOO_MANY_REQUESTED_POINTS",
            ProducerProposalFrontierErrorV1::DuplicateUniverseCapPoint => "EVIDENTRAIL_BENCH_PROPOSAL_FRONTIER_DUPLICATE_UNIVERSE_CAP_POINT",
            ProducerProposalFrontierErrorV1::PublicCaseBindingMismatch => "EVIDENTRAIL_BENCH_PROPOSAL_FRONTIER_PUBLIC_CASE_BINDING_MISMATCH",
            ProducerProposalFrontierErrorV1::AnnotationBindingMismatch => "EVIDENTRAIL_BENCH_PROPOSAL_FRONTIER_ANNOTATION_BINDING_MISMATCH",
            ProducerProposalFrontierErrorV1::AcquisitionBindingMismatch => "EVIDENTRAIL_BENCH_PROPOSAL_FRONTIER_ACQUISITION_BINDING_MISMATCH",
            ProducerProposalFrontierErrorV1::MethodArtifactMismatch => "EVIDENTRAIL_BENCH_PROPOSAL_FRONTIER_METHOD_ARTIFACT_MISMATCH",
            ProducerProposalFrontierErrorV1::MeasurementEnvironmentMismatch => "EVIDENTRAIL_BENCH_PROPOSAL_FRONTIER_MEASUREMENT_ENVIRONMENT_MISMATCH",
            ProducerProposalFrontierErrorV1::ProducerIdentityMismatch => "EVIDENTRAIL_BENCH_PROPOSAL_FRONTIER_PRODUCER_IDENTITY_MISMATCH",
            ProducerProposalFrontierErrorV1::RecallUniverseMismatch => "EVIDENTRAIL_BENCH_PROPOSAL_FRONTIER_RECALL_UNIVERSE_MISMATCH",
            ProducerProposalFrontierErrorV1::CapViolationMismatch => "EVIDENTRAIL_BENCH_PROPOSAL_FRONTIER_CAP_VIOLATION_MISMATCH",
            ProducerProposalFrontierErrorV1::DuplicateOutcomePoint => "EVIDENTRAIL_BENCH_PROPOSAL_FRONTIER_DUPLICATE_OUTCOME_POINT",
            ProducerProposalFrontierErrorV1::UnplannedOutcomePoint => "EVIDENTRAIL_BENCH_PROPOSAL_FRONTIER_UNPLANNED_OUTCOME_POINT",
            ProducerProposalFrontierErrorV1::MissingOutcomePoints { .. } => "EVIDENTRAIL_BENCH_PROPOSAL_FRONTIER_MISSING_OUTCOME_POINTS",
            ProducerProposalFrontierErrorV1::CollectionLengthOverflow => "EVIDENTRAIL_BENCH_PROPOSAL_FRONTIER_COLLECTION_LENGTH_OVERFLOW",
        }
    }
}
/// Maximum preregistered configured-producer points in one frontier.
pub const MAX_PRODUCER_PROPOSAL_FRONTIER_POINTS_V1: usize = 256;

/// One exact configured-producer universe and its preregistered cap.
#[derive(Clone, Copy, Debug)]
pub struct ProducerProposalFrontierPlanPointV1 {
    pub universe_digest: FrozenProducerProposalUniverseDigestV1,
    pub producer: ProducerProposalIdentityV1,
    pub cap: ProducerProposalResourceCapV1,
}

impl ProducerProposalFrontierPlanPointV1 {
    pub fn universe_digest(self) -> (r: FrozenProducerProposalUniverseDigestV1)
        ensures
            r == self.universe_digest,
    {
        self.universe_digest
    }

    pub fn producer(self) -> (r: ProducerProposalIdentityV1)
        ensures
            r == self.producer,
    {
        self.producer
    }

    pub fn cap(self) -> (r: ProducerProposalResourceCapV1)
        ensures
            r == self.cap,
    {
        self.cap
    }
}

/// Immutable label-free plan of configured producers: every point shares the
/// public case, acquisition, method artifact and measurement environment.
#[derive(Clone, Debug)]
pub struct FrozenProducerProposalFrontierPlanV1 {
    pub digest: ProducerProposalFrontierPlanDigestV1,
    pub public_case_artifact_digest: ArtifactDigest,
    pub acquisition_binding: ProducerProposalAcquisitionBindingV1,
    pub method_artifact_digest: ArtifactDigest,
    pub measurement_environment: ProducerProposalMeasurementEnvironmentV1,
    pub points: Vec<ProducerProposalFrontierPlanPointV1>,
}

impl FrozenProducerProposalFrontierPlanV1 {
    pub fn digest(&self) -> (r: ProducerProposalFrontierPlanDigestV1)
        ensures
            r == self.digest,
    {
        self.digest
    }

    pub fn public_case_artifact_digest(&self) -> (r: ArtifactDigest)
        ensures
            r == self.public_case_artifact_digest,
    {
        self.public_case_artifact_digest
    }

    pub fn acquisition_binding(&self) -> (r: ProducerProposalAcquisitionBindingV1)
        ensures
            r == self.acquisition_binding,
    {
        self.acquisition_binding
    }

    pub fn method_artifact_digest(&self) -> (r: ArtifactDigest)
        ensures
            r == self.method_artifact_digest,
    {
        self.method_artifact_digest
    }

    pub fn measurement_environment(&self) -> (r: ProducerProposalMeasurementEnvironmentV1)
        ensures
            r == self.measurement_environment,
    {
        self.measurement_environment
    }

    pub fn points(&self) -> (r: &[ProducerProposalFrontierPlanPointV1])
        ensures
            r@ == self.points@,
    {
        self.points.as_slice()
    }

    /// The plan holds no hidden annotation or outcome input.
    pub fn freeze_boundary_code(&self) -> (r: &'static str)
        ensures
            r@ == "public_universes_and_caps_frozen_before_hidden_annotations"@,
    {
        "public_universes_and_caps_frozen_before_hidden_annotations"
    }
}

/// One governed outcome at an exactly preregistered universe/cap point.
#[derive(Clone, Debug)]
pub struct GovernedProducerProposalFrontierPointV1 {
    pub planned: ProducerProposalFrontierPlanPointV1,
    pub measurement_receipt_digest: ArtifactDigest,
    pub measurement_trust_boundary: MeasurementTrustBoundaryV1,
    pub resources: ProducerProposalResourceEnvelopeV1,
    pub cap_violations: Option<ProducerProposalCapViolationsV1>,
    pub recall: GovernedRequirementRecallV1,
}

impl GovernedProducerProposalFrontierPointV1 {
    pub fn planned(&self) -> (r: ProducerProposalFrontierPlanPointV1)
        ensures
            r == self.planned,
    {
        self.planned
    }

    pub fn measurement_receipt_digest(&self) -> (r: ArtifactDigest)
        ensures
            r == self.measurement_receipt_digest,
    {
        self.measurement_receipt_digest
    }

    pub fn measurement_trust_boundary(&self) -> (r: MeasurementTrustBoundaryV1)
        ensures
            r == self.measurement_trust_boundary,
    {
        self.measurement_trust_boundary
    }

    pub fn resources(&self) -> (r: ProducerProposalResourceEnvelopeV1)
        ensures
            r == self.resources,
    {
        self.resources
    }

    pub fn cap_violations(&self) -> (r: Option<&ProducerProposalCapViolationsV1>)
        ensures
            r is Some <==> self.cap_violations is Some,
            r matches Some(v) ==> *v == self.cap_violations->0,
    {
        match &self.cap_violations {
            Some(v) => Some(v),
            None => None,
        }
    }

    pub fn recall(&self) -> (r: GovernedRequirementRecallV1)
        ensures
            r == self.recall,
    {
        self.recall
    }
}

/// `left` Pareto-dominates `right`: no worse in recall (higher is better) and
/// in the five cost axes (lower is better), and strictly better in one group.
pub open spec fn spec_point_dominates(
    left: GovernedProducerProposalFrontierPointV1,
    right: GovernedProducerProposalFrontierPointV1,
) -> bool {
    let quality_no_worse = left.recall.satisfied_weight_micros >= right.recall.satisfied_weight_micros;
    let quality_strict = left.recall.satisfied_weight_micros > right.recall.satisfied_weight_micros;
    let cost_strict = spec_lower_is_better_dominates(cost_axes(left.resources), cost_axes(right.resources));
    let cost_no_worse = cost_strict || cost_axes(left.resources) == cost_axes(right.resources);
    quality_no_worse && cost_no_worse && (quality_strict || cost_strict)
}

fn resource_axes(resources: ProducerProposalResourceEnvelopeV1) -> (r: [u64; 5])
    ensures
        r@ == cost_axes(resources),
{
    let r = [
        resources.proposal_packet_count,
        resources.unique_member_source_bytes,
        resources.canonical_proposal_render_tokens,
        resources.wall_time_nanos,
        resources.peak_rss_bytes,
    ];
    proof {
        assert(r@ =~= cost_axes(resources));
    }
    r
}

fn axes_equal(left: [u64; 5], right: [u64; 5]) -> (r: bool)
    ensures
        r == (left@ == right@),
{
    let mut i: usize = 0;
    while i < 5
        invariant
            i <= 5,
            left@.len() == 5,
            right@.len() == 5,
            forall|k: int| 0 <= k < i ==> left@[k] == right@[k],
        decreases 5 - i,
    {
        if left[i] != right[i] {
            return false;
        }
        i = i + 1;
    }
    proof {
        assert(left@ =~= right@);
    }
    true
}

pub fn point_dominates(
    left: &GovernedProducerProposalFrontierPointV1,
    right: &GovernedProducerProposalFrontierPointV1,
) -> (r: bool)
    ensures
        r == spec_point_dominates(*left, *right),
{
    let quality_no_worse = left.recall.satisfied_weight_micros >= right.recall.satisfied_weight_micros;
    let quality_strict = left.recall.satisfied_weight_micros > right.recall.satisfied_weight_micros;
    let left_costs = resource_axes(left.resources);
    let right_costs = resource_axes(right.resources);
    let cost_strict = lower_is_better_pareto_dominates(left_costs, right_costs);
    let cost_no_worse = cost_strict || axes_equal(left_costs, right_costs);
    quality_no_worse && cost_no_worse && (quality_strict || cost_strict)
}

/// Point `c` is within its cap and no other point within its cap dominates it.
pub open spec fn on_frontier(points: Seq<GovernedProducerProposalFrontierPointV1>, c: int) -> bool {
    &&& points[c].cap_violations is None
    &&& !exists|h: int|
        0 <= h < points.len() && h != c && (#[trigger] points[h]).cap_violations is None && spec_point_dominates(
            points[h],
            points[c],
        )
}

/// The indices below `n` on the frontier, ascending.
pub open spec fn frontier_prefix(points: Seq<GovernedProducerProposalFrontierPointV1>, n: int) -> Seq<usize>
    decreases n,
{
    if n <= 0 {
        Seq::empty()
    } else if on_frontier(points, n - 1) {
        frontier_prefix(points, n - 1).push((n - 1) as usize)
    } else {
        frontier_prefix(points, n - 1)
    }
}

/// The exact non-dominated subset of the points within their caps, as
/// ascending indices.
pub fn non_dominated_indices(points: &Vec<GovernedProducerProposalFrontierPointV1>) -> (r: Vec<usize>)
    ensures
        r@ == frontier_prefix(points@, points.len() as int),
{
    let mut r: Vec<usize> = Vec::new();
    let mut c: usize = 0;
    while c < points.len()
        invariant
            c <= points.len(),
            r@ == frontier_prefix(points@, c as int),
        decreases points.len() - c,
    {
        let mut member = points[c].cap_violations.is_none();
        if member {
            let mut h: usize = 0;
            while h < points.len()
                invariant
                    h <= points.len(),
                    c < points.len(),
                    points@[c as int].cap_violations is None,
                    member == !exists|k: int|
                        0 <= k < h && k != c && (#[trigger] points@[k]).cap_violations is None
                            && spec_point_dominates(points@[k], points@[c as int]),
                decreases points.len() - h,
            {
                if h != c && points[h].cap_violations.is_none() && point_dominates(&points[h], &points[c]) {
                    member = false;
                }
                h = h + 1;
            }
        }
        proof {
            assert(member == on_frontier(points@, c as int));
        }
        if member {
            r.push(c);
        }
        c = c + 1;
    }
    r
}

/// The frontier is exactly the points within their caps that no other such
/// point dominates, listed once each in ascending order.
pub proof fn lemma_frontier_exact(points: Seq<GovernedProducerProposalFrontierPointV1>, n: int)
    requires
        0 <= n <= points.len(),
        points.len() <= usize::MAX,
    ensures
        forall|i: int|
            0 <= i < frontier_prefix(points, n).len() ==> #[trigger] frontier_prefix(points, n)[i] < n && on_frontier(
                points,
                frontier_prefix(points, n)[i] as int,
            ),
        forall|i: int, j: int|
            0 <= i < j < frontier_prefix(points, n).len() ==> #[trigger] frontier_prefix(points, n)[i]
                < #[trigger] frontier_prefix(points, n)[j],
        forall|c: int|
            0 <= c < n && #[trigger] on_frontier(points, c) ==> exists|i: int|
                0 <= i < frontier_prefix(points, n).len() && frontier_prefix(points, n)[i] == c,
    decreases n,
{
    if n > 0 {
        lemma_frontier_exact(points, n - 1);
        let prev = frontier_prefix(points, n - 1);
        assert forall|c: int| 0 <= c < n && #[trigger] on_frontier(points, c) implies exists|i: int|
            0 <= i < frontier_prefix(points, n).len() && frontier_prefix(points, n)[i] == c by {
            if c < n - 1 {
                let i = choose|i: int| 0 <= i < prev.len() && prev[i] == c;
                assert(frontier_prefix(points, n)[i] == c);
            } else {
                assert(on_frontier(points, n - 1));
                assert(frontier_prefix(points, n) == prev.push((n - 1) as usize));
                assert(frontier_prefix(points, n)[prev.len() as int] == c);
            }
        }
    }
}

proof fn lemma_cost_dominance_transitive(a: Seq<u64>, b: Seq<u64>, c: Seq<u64>)
    requires
        spec_lower_is_better_dominates(a, b) || a == b,
        spec_lower_is_better_dominates(b, c) || b == c,
    ensures
        spec_lower_is_better_dominates(a, c) || a == c,
        (spec_lower_is_better_dominates(a, b) || spec_lower_is_better_dominates(b, c)) ==> spec_lower_is_better_dominates(
            a,
            c,
        ),
{
    if spec_lower_is_better_dominates(a, b) && spec_lower_is_better_dominates(b, c) {
        let i = choose|i: int| 0 <= i < a.len() && a[i] < b[i];
        assert(b[i] <= c[i]);
    }
}

/// Dominance between points is transitive.
pub proof fn lemma_point_dominance_transitive(
    a: GovernedProducerProposalFrontierPointV1,
    b: GovernedProducerProposalFrontierPointV1,
    c: GovernedProducerProposalFrontierPointV1,
)
    requires
        spec_point_dominates(a, b),
        spec_point_dominates(b, c),
    ensures
        spec_point_dominates(a, c),
{
    lemma_cost_dominance_transitive(cost_axes(a.resources), cost_axes(b.resources), cost_axes(c.resources));
}

/// How many of the first `n` points are within their caps and dominate `c`.
pub open spec fn dominator_count(points: Seq<GovernedProducerProposalFrontierPointV1>, c: int, n: int) -> nat
    decreases n,
{
    if n <= 0 {
        0
    } else {
        dominator_count(points, c, n - 1) + if points[n - 1].cap_violations is None && spec_point_dominates(
            points[n - 1],
            points[c],
        ) {
            1nat
        } else {
            0nat
        }
    }
}

/// When `d` dominates `c`, every dominator of `d` dominates `c`, and `d`
/// dominates `c` but not itself: `d` has fewer dominators.
proof fn lemma_dominator_count_drops(
    points: Seq<GovernedProducerProposalFrontierPointV1>,
    c: int,
    d: int,
    n: int,
)
    requires
        0 <= n <= points.len(),
        0 <= c < points.len(),
        0 <= d < points.len(),
        spec_point_dominates(points[d], points[c]),
        points[d].cap_violations is None,
    ensures
        dominator_count(points, d, n) <= dominator_count(points, c, n),
        d < n ==> dominator_count(points, d, n) < dominator_count(points, c, n),
    decreases n,
{
    if n > 0 {
        lemma_dominator_count_drops(points, c, d, n - 1);
        let h = n - 1;
        if spec_point_dominates(points[h], points[d]) {
            lemma_point_dominance_transitive(points[h], points[d], points[c]);
        }
        lemma_point_dominance_asymmetric(points[d], points[d]);
    }
}

/// Below every point within its cap lies a frontier point: it is on the
/// frontier, or a frontier point dominates it.
proof fn lemma_frontier_above(points: Seq<GovernedProducerProposalFrontierPointV1>, c: int) -> (f: int)
    requires
        0 <= c < points.len(),
        points[c].cap_violations is None,
    ensures
        0 <= f < points.len(),
        on_frontier(points, f),
    decreases dominator_count(points, c, points.len() as int),
{
    if on_frontier(points, c) {
        c
    } else {
        let d = choose|h: int|
            0 <= h < points.len() && h != c && (#[trigger] points[h]).cap_violations is None && spec_point_dominates(
                points[h],
                points[c],
            );
        lemma_dominator_count_drops(points, c, d, points.len() as int);
        lemma_frontier_above(points, d)
    }
}

/// Whenever some point is within its cap, the frontier is not empty.
pub proof fn lemma_frontier_nonempty(points: Seq<GovernedProducerProposalFrontierPointV1>, c: int)
    requires
        0 <= c < points.len(),
        points.len() <= usize::MAX,
        points[c].cap_violations is None,
    ensures
        frontier_prefix(points, points.len() as int).len() > 0,
{
    let f = lemma_frontier_above(points, c);
    lemma_frontier_exact(points, points.len() as int);
    assert(on_frontier(points, f));
}

/// A point dominates no point that dominates it, and never itself.
pub proof fn lemma_point_dominance_asymmetric(
    left: GovernedProducerProposalFrontierPointV1,
    right: GovernedProducerProposalFrontierPointV1,
)
    ensures
        spec_point_dominates(left, right) ==> !spec_point_dominates(right, left),
        !spec_point_dominates(left, left),
{
    crate::producer_comparison::lemma_dominance_asymmetric(cost_axes(left.resources), cost_axes(right.resources));
    crate::producer_comparison::lemma_dominance_asymmetric(cost_axes(right.resources), cost_axes(left.resources));
    crate::producer_comparison::lemma_dominance_asymmetric(cost_axes(left.resources), cost_axes(left.resources));
}

/// Domain that opens the governed frontier digest.
pub const GOVERNED_PRODUCER_PROPOSAL_FRONTIER_DOMAIN_V1: &'static str =
    "evidentrail/bench/governed-producer-proposal-frontier/v1\0";

/// The governed exact Pareto frontier over a preregistered plan. Every planned
/// point and every cap violation is kept; the frontier indices name the exact
/// non-dominated subset of the points within their caps. No scalar, area,
/// rank or winner is computed.
#[derive(Clone, Debug)]
pub struct GovernedProducerProposalFrontierV1 {
    pub digest: GovernedProducerProposalFrontierDigestV1,
    pub plan_digest: ProducerProposalFrontierPlanDigestV1,
    pub artifact_binding: GovernedCaseArtifactBindingV1,
    pub acquisition_binding: ProducerProposalAcquisitionBindingV1,
    pub method_artifact_digest: ArtifactDigest,
    pub measurement_environment: ProducerProposalMeasurementEnvironmentV1,
    pub points: Vec<GovernedProducerProposalFrontierPointV1>,
    pub frontier_indices: Vec<usize>,
}

/// The points within their caps (`eligible`) or over them, in plan order.
pub open spec fn points_by_eligibility(
    points: Seq<GovernedProducerProposalFrontierPointV1>,
    eligible: bool,
    n: int,
) -> Seq<GovernedProducerProposalFrontierPointV1>
    decreases n,
{
    if n <= 0 {
        Seq::empty()
    } else if (points[n - 1].cap_violations is None) == eligible {
        points_by_eligibility(points, eligible, n - 1).push(points[n - 1])
    } else {
        points_by_eligibility(points, eligible, n - 1)
    }
}

impl GovernedProducerProposalFrontierV1 {
    pub fn digest(&self) -> (r: GovernedProducerProposalFrontierDigestV1)
        ensures
            r == self.digest,
    {
        self.digest
    }

    pub fn plan_digest(&self) -> (r: ProducerProposalFrontierPlanDigestV1)
        ensures
            r == self.plan_digest,
    {
        self.plan_digest
    }

    pub fn artifact_binding(&self) -> (r: GovernedCaseArtifactBindingV1)
        ensures
            r == self.artifact_binding,
    {
        self.artifact_binding
    }

    pub fn acquisition_binding(&self) -> (r: ProducerProposalAcquisitionBindingV1)
        ensures
            r == self.acquisition_binding,
    {
        self.acquisition_binding
    }

    pub fn method_artifact_digest(&self) -> (r: ArtifactDigest)
        ensures
            r == self.method_artifact_digest,
    {
        self.method_artifact_digest
    }

    pub fn measurement_environment(&self) -> (r: ProducerProposalMeasurementEnvironmentV1)
        ensures
            r == self.measurement_environment,
    {
        self.measurement_environment
    }

    pub fn points(&self) -> (r: &[GovernedProducerProposalFrontierPointV1])
        ensures
            r@ == self.points@,
    {
        self.points.as_slice()
    }

    /// The frontier points, in the order of their indices.
    pub fn frontier_points(&self) -> (r: Vec<&GovernedProducerProposalFrontierPointV1>)
        requires
            forall|i: int| 0 <= i < self.frontier_indices.len() ==> #[trigger] self.frontier_indices@[i] < self.points.len(),
        ensures
            r.len() == self.frontier_indices.len(),
            forall|i: int| 0 <= i < r.len() ==> *#[trigger] r@[i] == self.points@[self.frontier_indices@[i] as int],
    {
        let mut r: Vec<&GovernedProducerProposalFrontierPointV1> = Vec::new();
        let mut i: usize = 0;
        while i < self.frontier_indices.len()
            invariant
                i <= self.frontier_indices.len(),
                forall|k: int| 0 <= k < self.frontier_indices.len() ==> #[trigger] self.frontier_indices@[k] < self.points.len(),
                r.len() == i,
                forall|k: int| 0 <= k < i ==> *#[trigger] r@[k] == self.points@[self.frontier_indices@[k] as int],
            decreases self.frontier_indices.len() - i,
        {
            let index = self.frontier_indices[i];
            r.push(&self.points[index]);
            i = i + 1;
        }
        r
    }

    fn points_with_eligibility(&self, eligible: bool) -> (r: Vec<&GovernedProducerProposalFrontierPointV1>)
        ensures
            r.len() == points_by_eligibility(self.points@, eligible, self.points.len() as int).len(),
            forall|i: int|
                0 <= i < r.len() ==> *#[trigger] r@[i] == points_by_eligibility(
                    self.points@,
                    eligible,
                    self.points.len() as int,
                )[i],
    {
        let mut r: Vec<&GovernedProducerProposalFrontierPointV1> = Vec::new();
        let mut i: usize = 0;
        while i < self.points.len()
            invariant
                i <= self.points.len(),
                r.len() == points_by_eligibility(self.points@, eligible, i as int).len(),
                forall|k: int|
                    0 <= k < r.len() ==> *#[trigger] r@[k] == points_by_eligibility(self.points@, eligible, i as int)[k],
            decreases self.points.len() - i,
        {
            if self.points[i].cap_violations.is_none() == eligible {
                r.push(&self.points[i]);
            }
            i = i + 1;
        }
        r
    }

    /// The points within their caps, in plan order.
    pub fn eligible_points(&self) -> (r: Vec<&GovernedProducerProposalFrontierPointV1>)
        ensures
            r.len() == points_by_eligibility(self.points@, true, self.points.len() as int).len(),
            forall|i: int|
                0 <= i < r.len() ==> *#[trigger] r@[i] == points_by_eligibility(
                    self.points@,
                    true,
                    self.points.len() as int,
                )[i],
    {
        self.points_with_eligibility(true)
    }

    /// The points over their caps, with every violation kept, in plan order.
    pub fn ineligible_points(&self) -> (r: Vec<&GovernedProducerProposalFrontierPointV1>)
        ensures
            r.len() == points_by_eligibility(self.points@, false, self.points.len() as int).len(),
            forall|i: int|
                0 <= i < r.len() ==> *#[trigger] r@[i] == points_by_eligibility(
                    self.points@,
                    false,
                    self.points.len() as int,
                )[i],
    {
        self.points_with_eligibility(false)
    }

    pub fn contains_scalar_score(&self) -> (r: bool)
        ensures
            !r,
    {
        false
    }

    pub fn contains_auc(&self) -> (r: bool)
        ensures
            !r,
    {
        false
    }

    pub fn contains_verified_winner(&self) -> (r: bool)
        ensures
            !r,
    {
        false
    }
}

/// Both identities name the same method, configuration and producer receipt.
pub open spec fn same_producer(left: ProducerProposalIdentityV1, right: ProducerProposalIdentityV1) -> bool {
    &&& left.method_artifact_digest.0@ == right.method_artifact_digest.0@
    &&& left.config_artifact_digest.0@ == right.config_artifact_digest.0@
    &&& left.producer_receipt_artifact_digest.0@ == right.producer_receipt_artifact_digest.0@
}

fn producers_match(left: &ProducerProposalIdentityV1, right: &ProducerProposalIdentityV1) -> (r: bool)
    ensures
        r == same_producer(*left, *right),
{
    bytes32_eq(&left.method_artifact_digest.0, &right.method_artifact_digest.0) && bytes32_eq(
        &left.config_artifact_digest.0,
        &right.config_artifact_digest.0,
    ) && bytes32_eq(&left.producer_receipt_artifact_digest.0, &right.producer_receipt_artifact_digest.0)
}

/// A plan point is keyed by its cap and its universe.
pub open spec fn key_matches(
    point: ProducerProposalFrontierPlanPointV1,
    cap: ProducerProposalResourceCapV1,
    universe: FrozenProducerProposalUniverseDigestV1,
) -> bool {
    point.cap == cap && point.universe_digest.0@ == universe.0@
}

/// The first of the first `n` plan points with this key, or -1.
pub open spec fn first_key_match(
    points: Seq<ProducerProposalFrontierPlanPointV1>,
    cap: ProducerProposalResourceCapV1,
    universe: FrozenProducerProposalUniverseDigestV1,
    n: int,
) -> int
    decreases n,
{
    if n <= 0 {
        -1
    } else if first_key_match(points, cap, universe, n - 1) >= 0 {
        first_key_match(points, cap, universe, n - 1)
    } else if key_matches(points[n - 1], cap, universe) {
        n - 1
    } else {
        -1
    }
}

fn find_planned(
    points: &Vec<ProducerProposalFrontierPlanPointV1>,
    cap: ProducerProposalResourceCapV1,
    universe: &FrozenProducerProposalUniverseDigestV1,
) -> (r: Option<usize>)
    ensures
        match r {
            Some(p) => p < points.len() && p == first_key_match(points@, cap, *universe, points.len() as int),
            None => first_key_match(points@, cap, *universe, points.len() as int) == -1,
        },
{
    let mut i: usize = 0;
    while i < points.len()
        invariant
            i <= points.len(),
            first_key_match(points@, cap, *universe, i as int) == -1,
        decreases points.len() - i,
    {
        if points[i].cap == cap && bytes32_eq(&points[i].universe_digest.0, &universe.0) {
            proof {
                lemma_first_match_stays(points@, cap, *universe, i + 1, points.len() as int);
            }
            return Some(i);
        }
        i = i + 1;
    }
    None
}

proof fn lemma_first_match_stays(
    points: Seq<ProducerProposalFrontierPlanPointV1>,
    cap: ProducerProposalResourceCapV1,
    universe: FrozenProducerProposalUniverseDigestV1,
    k: int,
    n: int,
)
    requires
        0 < k <= n,
        first_key_match(points, cap, universe, k) >= 0,
    ensures
        first_key_match(points, cap, universe, n) == first_key_match(points, cap, universe, k),
    decreases n - k,
{
    if k < n {
        lemma_first_match_stays(points, cap, universe, k, n - 1);
    }
}

/// The outcome's claimed violations are exactly those its planned cap gives.
pub open spec fn violations_match(
    expected: Seq<ProducerProposalResourceDimensionV1>,
    claimed: Option<ProducerProposalCapViolationsV1>,
) -> bool {
    if expected.len() == 0 {
        claimed is None
    } else {
        claimed is Some && claimed->0.dimensions@ == expected
    }
}

fn dimensions_equal(
    left: &Vec<ProducerProposalResourceDimensionV1>,
    right: &Vec<ProducerProposalResourceDimensionV1>,
) -> (r: bool)
    ensures
        r == (left@ == right@),
{
    if left.len() != right.len() {
        return false;
    }
    let mut i: usize = 0;
    while i < left.len()
        invariant
            i <= left.len(),
            left.len() == right.len(),
            forall|k: int| 0 <= k < i ==> left@[k] == right@[k],
        decreases left.len() - i,
    {
        if left[i] != right[i] {
            return false;
        }
        i = i + 1;
    }
    proof {
        assert(left@ =~= right@);
    }
    true
}

/// The governed point an outcome gives at its planned point.
pub open spec fn point_from(
    planned: ProducerProposalFrontierPlanPointV1,
    outcome: crate::producer_proposals::GovernedProducerProposalEvaluationV1,
) -> GovernedProducerProposalFrontierPointV1 {
    GovernedProducerProposalFrontierPointV1 {
        planned,
        measurement_receipt_digest: outcome.measurement_receipt_digest,
        measurement_trust_boundary: outcome.measurement_trust_boundary,
        resources: outcome.resources,
        cap_violations: outcome.cap_violations,
        recall: outcome.recall,
    }
}

/// What joining one more outcome does: the refusal, in the order the checks
/// run, or the new annotation binding, recall universe and received points.
pub open spec fn join_step(
    plan: FrozenProducerProposalFrontierPlanV1,
    state: (
        Option<GovernedCaseArtifactBindingV1>,
        Option<(u64, u64)>,
        Seq<Option<GovernedProducerProposalFrontierPointV1>>,
    ),
    outcome: crate::producer_proposals::GovernedProducerProposalEvaluationV1,
) -> Result<
    (
        Option<GovernedCaseArtifactBindingV1>,
        Option<(u64, u64)>,
        Seq<Option<GovernedProducerProposalFrontierPointV1>>,
    ),
    ProducerProposalFrontierErrorV1,
> {
    let p = first_key_match(plan.points@, outcome.resource_cap, outcome.universe_digest, plan.points.len() as int);
    let universe = (outcome.recall.requirement_count, outcome.recall.total_weight_micros);
    if outcome.artifact_binding.public_case_artifact_digest.0@ != plan.public_case_artifact_digest.0@ {
        Err(ProducerProposalFrontierErrorV1::PublicCaseBindingMismatch)
    } else if state.0 is Some && !same_artifact_binding(state.0->0, outcome.artifact_binding) {
        Err(ProducerProposalFrontierErrorV1::AnnotationBindingMismatch)
    } else if !outcome.acquisition_binding.same_as(plan.acquisition_binding) {
        Err(ProducerProposalFrontierErrorV1::AcquisitionBindingMismatch)
    } else if !outcome.measurement_environment.same_as(plan.measurement_environment) {
        Err(ProducerProposalFrontierErrorV1::MeasurementEnvironmentMismatch)
    } else if outcome.producer.method_artifact_digest.0@ != plan.method_artifact_digest.0@ {
        Err(ProducerProposalFrontierErrorV1::MethodArtifactMismatch)
    } else if p < 0 {
        Err(ProducerProposalFrontierErrorV1::UnplannedOutcomePoint)
    } else if !same_producer(outcome.producer, plan.points@[p].producer) {
        Err(ProducerProposalFrontierErrorV1::ProducerIdentityMismatch)
    } else if state.2[p] is Some {
        Err(ProducerProposalFrontierErrorV1::DuplicateOutcomePoint)
    } else if state.1 is Some && state.1->0 != universe {
        Err(ProducerProposalFrontierErrorV1::RecallUniverseMismatch)
    } else if !violations_match(plan.points@[p].cap.exceeded(outcome.resources), outcome.cap_violations) {
        Err(ProducerProposalFrontierErrorV1::CapViolationMismatch)
    } else {
        Ok(
            (
                Some(if state.0 is Some { state.0->0 } else { outcome.artifact_binding }),
                Some(universe),
                state.2.update(p, Some(point_from(plan.points@[p], outcome))),
            ),
        )
    }
}

/// The join after the first `k` outcomes.
pub open spec fn join_prefix(
    plan: FrozenProducerProposalFrontierPlanV1,
    outcomes: Seq<crate::producer_proposals::GovernedProducerProposalEvaluationV1>,
    k: int,
) -> Result<
    (
        Option<GovernedCaseArtifactBindingV1>,
        Option<(u64, u64)>,
        Seq<Option<GovernedProducerProposalFrontierPointV1>>,
    ),
    ProducerProposalFrontierErrorV1,
>
    decreases k,
{
    if k <= 0 {
        Ok((None, None, Seq::new(plan.points.len() as nat, |i: int| None)))
    } else {
        match join_prefix(plan, outcomes, k - 1) {
            Err(e) => Err(e),
            Ok(state) => join_step(plan, state, outcomes[k - 1]),
        }
    }
}

/// How many planned points have received an outcome.
pub open spec fn received_count(slots: Seq<Option<GovernedProducerProposalFrontierPointV1>>) -> nat
    decreases slots.len(),
{
    if slots.len() == 0 {
        0
    } else {
        received_count(slots.drop_last()) + if slots.last() is Some {
            1nat
        } else {
            0nat
        }
    }
}

proof fn lemma_received_count(
    slots: Seq<Option<GovernedProducerProposalFrontierPointV1>>,
    p: int,
    point: GovernedProducerProposalFrontierPointV1,
)
    requires
        0 <= p < slots.len(),
        slots[p] is None,
    ensures
        received_count(slots.update(p, Some(point))) == received_count(slots) + 1,
        received_count(slots) < slots.len(),
    decreases slots.len(),
{
    lemma_received_bound(slots.drop_last());
    if p < slots.len() - 1 {
        assert(slots.update(p, Some(point)).drop_last() =~= slots.drop_last().update(p, Some(point)));
        lemma_received_count(slots.drop_last(), p, point);
    } else {
        assert(slots.update(p, Some(point)).drop_last() =~= slots.drop_last());
    }
}

proof fn lemma_received_bound(slots: Seq<Option<GovernedProducerProposalFrontierPointV1>>)
    ensures
        received_count(slots) <= slots.len(),
        received_count(slots) == slots.len() ==> forall|i: int| 0 <= i < slots.len() ==> (#[trigger] slots[i]) is Some,
    decreases slots.len(),
{
    if slots.len() > 0 {
        lemma_received_bound(slots.drop_last());
        if received_count(slots) == slots.len() {
            assert forall|i: int| 0 <= i < slots.len() implies (#[trigger] slots[i]) is Some by {
                if i < slots.len() - 1 {
                    assert(slots.drop_last()[i] == slots[i]);
                }
            }
        }
    }
}

proof fn lemma_empty_received(n: nat)
    ensures
        received_count(Seq::new(n, |i: int| None::<GovernedProducerProposalFrontierPointV1>)) == 0,
    decreases n,
{
    if n > 0 {
        assert(Seq::new(n, |i: int| None::<GovernedProducerProposalFrontierPointV1>).drop_last() =~= Seq::new(
            (n - 1) as nat,
            |i: int| None::<GovernedProducerProposalFrontierPointV1>,
        ));
        lemma_empty_received((n - 1) as nat);
    }
}

/// The join of all outcomes: the refusal, or the annotation binding and every
/// planned point's governed outcome in plan order.
pub open spec fn spec_frontier_join(
    plan: FrozenProducerProposalFrontierPlanV1,
    outcomes: Seq<crate::producer_proposals::GovernedProducerProposalEvaluationV1>,
) -> Result<(GovernedCaseArtifactBindingV1, Seq<GovernedProducerProposalFrontierPointV1>), ProducerProposalFrontierErrorV1> {
    match join_prefix(plan, outcomes, outcomes.len() as int) {
        Err(e) => Err(e),
        Ok(state) => if received_count(state.2) != plan.points.len() {
            Err(
                ProducerProposalFrontierErrorV1::MissingOutcomePoints {
                    count: (plan.points.len() - received_count(state.2)) as usize,
                },
            )
        } else if state.0 is None {
            Err(ProducerProposalFrontierErrorV1::MissingOutcomePoints { count: plan.points.len() as usize })
        } else {
            Ok((state.0->0, state.2.map_values(|slot: Option<GovernedProducerProposalFrontierPointV1>| slot->0)))
        },
    }
}

/// A `u64` as a framed little-endian field.
pub open spec fn u64_field(v: u64) -> Seq<u8> {
    framed(u64_le(v))
}

pub open spec fn axes_bytes(axes: Seq<u64>) -> Seq<u8> {
    u64_field(axes[0]) + u64_field(axes[1]) + u64_field(axes[2]) + u64_field(axes[3]) + u64_field(axes[4])
}

pub open spec fn cap_axes(cap: ProducerProposalResourceCapV1) -> Seq<u64> {
    seq![
        cap.proposal_packet_count,
        cap.unique_member_source_bytes,
        cap.canonical_proposal_render_tokens,
        cap.wall_time_nanos,
        cap.peak_rss_bytes,
    ]
}

pub open spec fn producer_bytes(producer: ProducerProposalIdentityV1) -> Seq<u8> {
    framed(producer.method_artifact_digest.0@) + framed(producer.config_artifact_digest.0@) + framed(
        producer.producer_receipt_artifact_digest.0@,
    )
}

pub open spec fn dimensions_bytes(dimensions: Seq<ProducerProposalResourceDimensionV1>, n: int) -> Seq<u8>
    decreases n,
{
    if n <= 0 {
        Seq::empty()
    } else {
        dimensions_bytes(dimensions, n - 1) + framed(encode_utf8(dimensions[n - 1].spec_code()))
    }
}

pub open spec fn violations_bytes(violations: Option<ProducerProposalCapViolationsV1>) -> Seq<u8> {
    match violations {
        None => u64_field(0),
        Some(v) => u64_field(v.dimensions.len() as u64) + dimensions_bytes(v.dimensions@, v.dimensions.len() as int),
    }
}

pub open spec fn point_head_bytes(point: GovernedProducerProposalFrontierPointV1) -> Seq<u8> {
    framed(point.planned.universe_digest.0@) + producer_bytes(point.planned.producer) + axes_bytes(
        cap_axes(point.planned.cap),
    ) + framed(point.measurement_receipt_digest.0@) + framed(
        encode_utf8(point.measurement_trust_boundary.spec_code()),
    ) + u64_field(point.resources.unique_member_event_count) + axes_bytes(cost_axes(point.resources))
}

pub open spec fn point_tail_bytes(recall: GovernedRequirementRecallV1, on: bool) -> Seq<u8> {
    u64_field(recall.requirement_count) + u64_field(recall.satisfied_requirement_count) + u64_field(
        recall.total_weight_micros,
    ) + u64_field(recall.satisfied_weight_micros) + u64_field(
        if on {
            1u64
        } else {
            0u64
        },
    )
}

#[verifier::opaque]
pub open spec fn point_bytes(point: GovernedProducerProposalFrontierPointV1, on: bool) -> Seq<u8> {
    point_head_bytes(point) + violations_bytes(point.cap_violations) + point_tail_bytes(point.recall, on)
}

pub open spec fn points_bytes(
    points: Seq<GovernedProducerProposalFrontierPointV1>,
    indices: Seq<usize>,
    n: int,
) -> Seq<u8>
    decreases n,
{
    if n <= 0 {
        Seq::empty()
    } else {
        points_bytes(points, indices, n - 1) + point_bytes(points[n - 1], indices.contains((n - 1) as usize))
    }
}

/// The bytes the governed frontier digest commits to.
pub open spec fn frontier_message(
    plan_digest: ProducerProposalFrontierPlanDigestV1,
    binding: GovernedCaseArtifactBindingV1,
    points: Seq<GovernedProducerProposalFrontierPointV1>,
    indices: Seq<usize>,
) -> Seq<u8> {
    framed(encode_utf8(GOVERNED_PRODUCER_PROPOSAL_FRONTIER_DOMAIN_V1@)) + framed(plan_digest.0@) + framed(
        binding.public_case_artifact_digest.0@,
    ) + framed(binding.annotation_artifact_digest.0@) + u64_field(points.len() as u64) + points_bytes(
        points,
        indices,
        points.len() as int,
    )
}

pub(crate) fn push_u64_field(buf: &mut Vec<u8>, v: u64)
    ensures
        final(buf)@ == old(buf)@ + u64_field(v),
{
    let mut bytes: Vec<u8> = Vec::new();
    push_u64_le(&mut bytes, v);
    proof {
        assert(bytes@ =~= u64_le(v));
    }
    push_field(buf, bytes.as_slice());
}

fn push_axes(buf: &mut Vec<u8>, axes: [u64; 5])
    ensures
        final(buf)@ == old(buf)@ + axes_bytes(axes@),
{
    push_u64_field(buf, axes[0]);
    push_u64_field(buf, axes[1]);
    push_u64_field(buf, axes[2]);
    push_u64_field(buf, axes[3]);
    push_u64_field(buf, axes[4]);
    proof {
        assert(buf@ =~= old(buf)@ + axes_bytes(axes@));
    }
}

fn cap_array(cap: ProducerProposalResourceCapV1) -> (r: [u64; 5])
    ensures
        r@ == cap_axes(cap),
{
    let r = [
        cap.proposal_packet_count,
        cap.unique_member_source_bytes,
        cap.canonical_proposal_render_tokens,
        cap.wall_time_nanos,
        cap.peak_rss_bytes,
    ];
    proof {
        assert(r@ =~= cap_axes(cap));
    }
    r
}

fn contains_index(indices: &Vec<usize>, index: usize) -> (r: bool)
    ensures
        r == indices@.contains(index),
{
    let mut i: usize = 0;
    while i < indices.len()
        invariant
            i <= indices.len(),
            forall|k: int| 0 <= k < i ==> indices@[k] != index,
        decreases indices.len() - i,
    {
        if indices[i] == index {
            return true;
        }
        i = i + 1;
    }
    false
}

fn push_point_head(buf: &mut Vec<u8>, point: &GovernedProducerProposalFrontierPointV1)
    ensures
        final(buf)@ == old(buf)@ + point_head_bytes(*point),
{
    push_field(buf, &point.planned.universe_digest.0);
    push_field(buf, &point.planned.producer.method_artifact_digest.0);
    push_field(buf, &point.planned.producer.config_artifact_digest.0);
    push_field(buf, &point.planned.producer.producer_receipt_artifact_digest.0);
    push_axes(buf, cap_array(point.planned.cap));
    push_field(buf, &point.measurement_receipt_digest.0);
    push_field(buf, point.measurement_trust_boundary.code().as_bytes());
    push_u64_field(buf, point.resources.unique_member_event_count);
    push_axes(buf, resource_axes(point.resources));
    proof {
        assert(buf@ =~= old(buf)@ + point_head_bytes(*point));
    }
}

fn push_violations(buf: &mut Vec<u8>, violations: &Option<ProducerProposalCapViolationsV1>)
    ensures
        final(buf)@ == old(buf)@ + violations_bytes(*violations),
{
    match violations {
        None => push_u64_field(buf, 0),
        Some(violations) => {
            push_u64_field(buf, violations.dimensions.len() as u64);
            let ghost head = buf@;
            let mut i: usize = 0;
            while i < violations.dimensions.len()
                invariant
                    i <= violations.dimensions.len(),
                    buf@ == head + dimensions_bytes(violations.dimensions@, i as int),
                decreases violations.dimensions.len() - i,
            {
                push_field(buf, violations.dimensions[i].code().as_bytes());
                i = i + 1;
                proof {
                    assert(buf@ =~= head + dimensions_bytes(violations.dimensions@, i as int));
                }
            }
            proof {
                assert(buf@ =~= old(buf)@ + violations_bytes(Some(*violations)));
            }
        },
    }
}

fn push_point_tail(buf: &mut Vec<u8>, recall: GovernedRequirementRecallV1, on: bool)
    ensures
        final(buf)@ == old(buf)@ + point_tail_bytes(recall, on),
{
    push_u64_field(buf, recall.requirement_count);
    push_u64_field(buf, recall.satisfied_requirement_count);
    push_u64_field(buf, recall.total_weight_micros);
    push_u64_field(buf, recall.satisfied_weight_micros);
    push_u64_field(
        buf,
        if on {
            1
        } else {
            0
        },
    );
    proof {
        assert(buf@ =~= old(buf)@ + point_tail_bytes(recall, on));
    }
}

fn push_point(buf: &mut Vec<u8>, point: &GovernedProducerProposalFrontierPointV1, on: bool)
    ensures
        final(buf)@ == old(buf)@ + point_bytes(*point, on),
{
    push_point_head(buf, point);
    push_violations(buf, &point.cap_violations);
    push_point_tail(buf, point.recall, on);
    proof {
        reveal(point_bytes);
        assert(buf@ =~= old(buf)@ + point_bytes(*point, on));
    }
}

fn frontier_digest(
    plan_digest: &ProducerProposalFrontierPlanDigestV1,
    binding: &GovernedCaseArtifactBindingV1,
    points: &Vec<GovernedProducerProposalFrontierPointV1>,
    indices: &Vec<usize>,
) -> (r: GovernedProducerProposalFrontierDigestV1)
    ensures
        r.0@ == sha256_spec(frontier_message(*plan_digest, *binding, points@, indices@)),
{
    let mut message: Vec<u8> = Vec::new();
    push_field(&mut message, GOVERNED_PRODUCER_PROPOSAL_FRONTIER_DOMAIN_V1.as_bytes());
    push_field(&mut message, &plan_digest.0);
    push_field(&mut message, &binding.public_case_artifact_digest.0);
    push_field(&mut message, &binding.annotation_artifact_digest.0);
    push_u64_field(&mut message, points.len() as u64);
    let ghost head = message@;
    let mut i: usize = 0;
    while i < points.len()
        invariant
            i <= points.len(),
            message@ == head + points_bytes(points@, indices@, i as int),
        decreases points.len() - i,
    {
        let on = contains_index(indices, i);
        push_point(&mut message, &points[i], on);
        i = i + 1;
        proof {
            assert(message@ =~= head + points_bytes(points@, indices@, i as int));
        }
    }
    proof {
        assert(message@ =~= frontier_message(*plan_digest, *binding, points@, indices@));
    }
    GovernedProducerProposalFrontierDigestV1(sha256(message.as_slice()))
}

/// The join state after some outcomes, as a successful step result.
pub open spec fn join_ok(
    binding: Option<GovernedCaseArtifactBindingV1>,
    universe: Option<(u64, u64)>,
    slots: Seq<Option<GovernedProducerProposalFrontierPointV1>>,
) -> Result<
    (
        Option<GovernedCaseArtifactBindingV1>,
        Option<(u64, u64)>,
        Seq<Option<GovernedProducerProposalFrontierPointV1>>,
    ),
    ProducerProposalFrontierErrorV1,
> {
    Ok((binding, universe, slots))
}

proof fn lemma_join_err_stays(
    plan: FrozenProducerProposalFrontierPlanV1,
    outcomes: Seq<GovernedProducerProposalEvaluationV1>,
    k: int,
    n: int,
)
    requires
        0 < k <= n,
        join_prefix(plan, outcomes, k) is Err,
    ensures
        join_prefix(plan, outcomes, n) == join_prefix(plan, outcomes, k),
    decreases n - k,
{
    if k < n {
        lemma_join_err_stays(plan, outcomes, k, n - 1);
    }
}

fn join_outcome(
    plan: &FrozenProducerProposalFrontierPlanV1,
    binding: &mut Option<GovernedCaseArtifactBindingV1>,
    universe: &mut Option<(u64, u64)>,
    received: &mut Vec<Option<GovernedProducerProposalFrontierPointV1>>,
    count: &mut usize,
    outcome: GovernedProducerProposalEvaluationV1,
) -> (r: Result<(), ProducerProposalFrontierErrorV1>)
    requires
        old(received).len() == plan.points.len(),
        *old(count) == received_count(old(received)@),
    ensures
        match join_step(*plan, (*old(binding), *old(universe), old(received)@), outcome) {
            Err(e) => r == Err::<(), ProducerProposalFrontierErrorV1>(e),
            Ok(state) => r is Ok && state == (*final(binding), *final(universe), final(received)@)
                && final(received).len() == plan.points.len() && *final(count) == received_count(final(received)@),
        },
{
    if !bytes32_eq(&outcome.artifact_binding.public_case_artifact_digest.0, &plan.public_case_artifact_digest.0) {
        return Err(ProducerProposalFrontierErrorV1::PublicCaseBindingMismatch);
    }
    if let Some(expected) = &*binding {
        if !artifact_bindings_match(expected, &outcome.artifact_binding) {
            return Err(ProducerProposalFrontierErrorV1::AnnotationBindingMismatch);
        }
    }
    if !outcome.acquisition_binding.matches(&plan.acquisition_binding) {
        return Err(ProducerProposalFrontierErrorV1::AcquisitionBindingMismatch);
    }
    if !outcome.measurement_environment.matches(&plan.measurement_environment) {
        return Err(ProducerProposalFrontierErrorV1::MeasurementEnvironmentMismatch);
    }
    if !bytes32_eq(&outcome.producer.method_artifact_digest.0, &plan.method_artifact_digest.0) {
        return Err(ProducerProposalFrontierErrorV1::MethodArtifactMismatch);
    }
    let p = match find_planned(&plan.points, outcome.resource_cap, &outcome.universe_digest) {
        Some(p) => p,
        None => {
            return Err(ProducerProposalFrontierErrorV1::UnplannedOutcomePoint);
        },
    };
    let planned = plan.points[p];
    if !producers_match(&outcome.producer, &planned.producer) {
        return Err(ProducerProposalFrontierErrorV1::ProducerIdentityMismatch);
    }
    if received[p].is_some() {
        return Err(ProducerProposalFrontierErrorV1::DuplicateOutcomePoint);
    }
    let current = (outcome.recall.requirement_count, outcome.recall.total_weight_micros);
    if let Some(expected) = *universe {
        if expected.0 != current.0 || expected.1 != current.1 {
            return Err(ProducerProposalFrontierErrorV1::RecallUniverseMismatch);
        }
    }
    let expected_violations = planned.cap.check(outcome.resources);
    let violations_agree = match expected_violations {
        Ok(()) => outcome.cap_violations.is_none(),
        Err(v) => match &outcome.cap_violations {
            Some(w) => dimensions_equal(&v.dimensions, &w.dimensions),
            None => false,
        },
    };
    if !violations_agree {
        return Err(ProducerProposalFrontierErrorV1::CapViolationMismatch);
    }
    if binding.is_none() {
        *binding = Some(outcome.artifact_binding);
    }
    *universe = Some(current);
    let point = GovernedProducerProposalFrontierPointV1 {
        planned,
        measurement_receipt_digest: outcome.measurement_receipt_digest,
        measurement_trust_boundary: outcome.measurement_trust_boundary,
        resources: outcome.resources,
        cap_violations: outcome.cap_violations,
        recall: outcome.recall,
    };
    proof {
        lemma_received_count(received@, p as int, point);
        assert(point == point_from(plan.points@[p as int], outcome));
    }
    received.set(p, Some(point));
    *count = *count + 1;
    Ok(())
}

/// Join exactly one governed outcome to every preregistered point, in plan
/// order, and compute the exact frontier of the points within their caps.
pub fn evaluate_governed_producer_proposal_frontier_v1(
    plan: &FrozenProducerProposalFrontierPlanV1,
    outcomes: Vec<GovernedProducerProposalEvaluationV1>,
) -> (r: Result<GovernedProducerProposalFrontierV1, ProducerProposalFrontierErrorV1>)
    ensures
        match spec_frontier_join(*plan, outcomes@) {
            Err(e) => r == Err::<GovernedProducerProposalFrontierV1, ProducerProposalFrontierErrorV1>(e),
            Ok((binding, points)) => r matches Ok(f) && f.points@ == points && f.frontier_indices@ == frontier_prefix(
                points,
                points.len() as int,
            ) && f.artifact_binding == binding && f.plan_digest == plan.digest && f.acquisition_binding
                == plan.acquisition_binding && f.method_artifact_digest == plan.method_artifact_digest
                && f.measurement_environment == plan.measurement_environment && f.digest.0@ == sha256_spec(
                frontier_message(plan.digest, binding, points, frontier_prefix(points, points.len() as int)),
            ),
        },
{
    let ghost all = outcomes@;
    let mut pending = outcomes;
    let n = plan.points.len();
    let mut binding: Option<GovernedCaseArtifactBindingV1> = None;
    let mut universe: Option<(u64, u64)> = None;
    let mut received: Vec<Option<GovernedProducerProposalFrontierPointV1>> = Vec::new();
    let mut j: usize = 0;
    while j < n
        invariant
            j <= n,
            n == plan.points.len(),
            received@ == Seq::new(j as nat, |i: int| None::<GovernedProducerProposalFrontierPointV1>),
        decreases n - j,
    {
        received.push(None);
        j = j + 1;
        proof {
            assert(received@ =~= Seq::new(j as nat, |i: int| None::<GovernedProducerProposalFrontierPointV1>));
        }
    }
    let mut count: usize = 0;
    proof {
        lemma_empty_received(n as nat);
        assert(pending@ =~= all.subrange(0, all.len() as int));
    }
    let ghost mut k: int = 0;
    while pending.len() > 0
        invariant
            0 <= k <= all.len(),
            all == outcomes@,
            pending@ == all.subrange(k, all.len() as int),
            n == plan.points.len(),
            received.len() == n,
            join_prefix(*plan, all, k) == join_ok(binding, universe, received@),
            count == received_count(received@),
        decreases pending.len(),
    {
        let outcome = pending.remove(0);
        proof {
            assert(outcome == all[k]);
            assert(pending@ =~= all.subrange(k + 1, all.len() as int));
        }
        let ghost state = (binding, universe, received@);
        proof {
            assert(join_prefix(*plan, all, k + 1) == join_step(*plan, state, all[k]));
        }
        match join_outcome(plan, &mut binding, &mut universe, &mut received, &mut count, outcome) {
            Ok(()) => {},
            Err(e) => {
                proof {
                    assert(join_step(*plan, state, all[k]) == Err::<
                        (
                            Option<GovernedCaseArtifactBindingV1>,
                            Option<(u64, u64)>,
                            Seq<Option<GovernedProducerProposalFrontierPointV1>>,
                        ),
                        ProducerProposalFrontierErrorV1,
                    >(e));
                    lemma_join_err_stays(*plan, all, k + 1, all.len() as int);
                    assert(spec_frontier_join(*plan, all) == Err::<
                        (GovernedCaseArtifactBindingV1, Seq<GovernedProducerProposalFrontierPointV1>),
                        ProducerProposalFrontierErrorV1,
                    >(e));
                }
                return Err(e);
            },
        }
        proof {
            k = k + 1;
        }
    }
    proof {
        lemma_received_bound(received@);
    }
    if count != n {
        return Err(ProducerProposalFrontierErrorV1::MissingOutcomePoints { count: n - count });
    }
    let binding = match binding {
        Some(b) => b,
        None => {
            return Err(ProducerProposalFrontierErrorV1::MissingOutcomePoints { count: n });
        },
    };
    let ghost slots = received@;
    let mut points: Vec<GovernedProducerProposalFrontierPointV1> = Vec::new();
    let mut i: usize = 0;
    proof {
        assert(received@ =~= slots.subrange(0, n as int));
    }
    while received.len() > 0
        invariant
            i <= n,
            slots.len() == n,
            forall|q: int| 0 <= q < n ==> (#[trigger] slots[q]) is Some,
            received@ == slots.subrange(i as int, n as int),
            points@ == slots.subrange(0, i as int).map_values(
                |slot: Option<GovernedProducerProposalFrontierPointV1>| slot->0,
            ),
        decreases received.len(),
    {
        let slot = received.remove(0);
        proof {
            assert(slot == slots[i as int]);
        }
        match slot {
            Some(point) => points.push(point),
            None => {
                return Err(ProducerProposalFrontierErrorV1::MissingOutcomePoints { count: 1 });
            },
        }
        i = i + 1;
        proof {
            assert(received@ =~= slots.subrange(i as int, n as int));
            assert(points@ =~= slots.subrange(0, i as int).map_values(
                |slot: Option<GovernedProducerProposalFrontierPointV1>| slot->0,
            ));
        }
    }
    proof {
        assert(slots.subrange(0, n as int) =~= slots);
    }
    let indices = non_dominated_indices(&points);
    let digest = frontier_digest(&plan.digest, &binding, &points, &indices);
    Ok(
        GovernedProducerProposalFrontierV1 {
            digest,
            plan_digest: plan.digest,
            artifact_binding: binding,
            acquisition_binding: plan.acquisition_binding,
            method_artifact_digest: plan.method_artifact_digest,
            measurement_environment: plan.measurement_environment,
            points,
            frontier_indices: indices,
        },
    )
}

} // verus!
