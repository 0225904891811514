//! Producer-proposal comparison vocabulary: Pareto relations, comparison
//! sides, and contentless refusals.

use vstd::prelude::*;

use crate::digest::bytes32_eq;
use crate::evaluator::{GovernedCaseArtifactBindingV1, GovernedRequirementRecallV1};
use crate::measurement::MeasurementTrustBoundaryV1;
use crate::producer_proposals::{
    GovernedProducerProposalEvaluationV1, ProducerProposalCapViolationsV1, ProducerProposalIdentityV1,
    ProducerProposalResourceCapV1, ProducerProposalResourceEnvelopeV1,
};

verus! {

/// Direction of one explicit, non-scalar Pareto relation.
#[derive(Clone, Copy, Debug, PartialEq, Eq, Structural)]
pub enum ProducerProposalParetoRelationV1 {
    LeftStrictlyDominates,
    RightStrictlyDominates,
    Equal,
    Incomparable,
}

impl ProducerProposalParetoRelationV1 {
    pub open spec fn spec_code(self) -> Seq<char> {
        match self {
            ProducerProposalParetoRelationV1::LeftStrictlyDominates => "left_strictly_dominates"@,
            ProducerProposalParetoRelationV1::RightStrictlyDominates => "right_strictly_dominates"@,
            ProducerProposalParetoRelationV1::Equal => "equal"@,
            ProducerProposalParetoRelationV1::Incomparable => "incomparable"@,
        }
    }

    pub fn code(self) -> (r: &'static str)
        ensures
            r@ == self.spec_code(),
    {
        match self {
            ProducerProposalParetoRelationV1::LeftStrictlyDominates => "left_strictly_dominates",
            ProducerProposalParetoRelationV1::RightStrictlyDominates => "right_strictly_dominates",
            ProducerProposalParetoRelationV1::Equal => "equal",
            ProducerProposalParetoRelationV1::Incomparable => "incomparable",
        }
    }
}
/// Side of an exactly aligned producer comparison.
#[derive(Clone, Copy, Debug, PartialEq, Eq, Structural)]
pub enum ProducerProposalComparisonSideV1 {
    Left,
    Right,
}

impl ProducerProposalComparisonSideV1 {
    pub open spec fn spec_code(self) -> Seq<char> {
        match self {
            ProducerProposalComparisonSideV1::Left => "left"@,
            ProducerProposalComparisonSideV1::Right => "right"@,
        }
    }

    pub fn code(self) -> (r: &'static str)
        ensures
            r@ == self.spec_code(),
    {
        match self {
            ProducerProposalComparisonSideV1::Left => "left",
            ProducerProposalComparisonSideV1::Right => "right",
        }
    }
}
/// Contentless construction or verified-winner refusal.
#[derive(Clone, Copy, Debug, PartialEq, Eq, Structural)]
pub enum ProducerProposalComparisonErrorV1 {
    CaseArtifactBindingMismatch,
    AcquisitionBindingMismatch,
    MeasurementEnvironmentMismatch,
    ResourceCapMismatch,
    RecallUniverseMismatch,
    MeasurementTrustNotVerified,
}

impl ProducerProposalComparisonErrorV1 {
    pub open spec fn spec_code(self) -> Seq<char> {
        match self {
            ProducerProposalComparisonErrorV1::CaseArtifactBindingMismatch => "EVIDENTRAIL_BENCH_PROPOSAL_COMPARISON_CASE_ARTIFACT_BINDING_MISMATCH"@,
            ProducerProposalComparisonErrorV1::AcquisitionBindingMismatch => "EVIDENTRAIL_BENCH_PROPOSAL_COMPARISON_ACQUISITION_BINDING_MISMATCH"@,
            ProducerProposalComparisonErrorV1::MeasurementEnvironmentMismatch => "EVIDENTRAIL_BENCH_PROPOSAL_COMPARISON_MEASUREMENT_ENVIRONMENT_MISMATCH"@,
            ProducerProposalComparisonErrorV1::ResourceCapMismatch => "EVIDENTRAIL_BENCH_PROPOSAL_COMPARISON_RESOURCE_CAP_MISMATCH"@,
            ProducerProposalComparisonErrorV1::RecallUniverseMismatch => "EVIDENTRAIL_BENCH_PROPOSAL_COMPARISON_RECALL_UNIVERSE_MISMATCH"@,
            ProducerProposalComparisonErrorV1::MeasurementTrustNotVerified => "EVIDENTRAIL_BENCH_PROPOSAL_COMPARISON_MEASUREMENT_TRUST_NOT_VERIFIED"@,
        }
    }

    pub fn code(self) -> (r: &'static str)
        ensures
            r@ == self.spec_code(),
    {
        match self {
            ProducerProposalComparisonErrorV1::CaseArtifactBindingMismatch => "EVIDENTRAIL_BENCH_PROPOSAL_COMPARISON_CASE_ARTIFACT_BINDING_MISMATCH",
            ProducerProposalComparisonErrorV1::AcquisitionBindingMismatch => "EVIDENTRAIL_BENCH_PROPOSAL_COMPARISON_ACQUISITION_BINDING_MISMATCH",
            ProducerProposalComparisonErrorV1::MeasurementEnvironmentMismatch => "EVIDENTRAIL_BENCH_PROPOSAL_COMPARISON_MEASUREMENT_ENVIRONMENT_MISMATCH",
            ProducerProposalComparisonErrorV1::ResourceCapMismatch => "EVIDENTRAIL_BENCH_PROPOSAL_COMPARISON_RESOURCE_CAP_MISMATCH",
            ProducerProposalComparisonErrorV1::RecallUniverseMismatch => "EVIDENTRAIL_BENCH_PROPOSAL_COMPARISON_RECALL_UNIVERSE_MISMATCH",
            ProducerProposalComparisonErrorV1::MeasurementTrustNotVerified => "EVIDENTRAIL_BENCH_PROPOSAL_COMPARISON_MEASUREMENT_TRUST_NOT_VERIFIED",
        }
    }
}
/// The same relation seen from the other side.
pub open spec fn mirror(relation: ProducerProposalParetoRelationV1) -> ProducerProposalParetoRelationV1 {
    match relation {
        ProducerProposalParetoRelationV1::LeftStrictlyDominates => ProducerProposalParetoRelationV1::RightStrictlyDominates,
        ProducerProposalParetoRelationV1::RightStrictlyDominates => ProducerProposalParetoRelationV1::LeftStrictlyDominates,
        other => other,
    }
}

/// Lower-is-better Pareto dominance: no coordinate worse and one strictly better.
pub open spec fn spec_lower_is_better_dominates(left: Seq<u64>, right: Seq<u64>) -> bool {
    &&& left.len() == right.len()
    &&& forall|i: int| 0 <= i < left.len() ==> left[i] <= right[i]
    &&& exists|i: int| 0 <= i < left.len() && left[i] < right[i]
}

/// Whether `left` Pareto-dominates `right` when every coordinate is a cost.
pub fn lower_is_better_pareto_dominates(left: [u64; 5], right: [u64; 5]) -> (r: bool)
    ensures
        r == spec_lower_is_better_dominates(left@, right@),
{
    let mut strictly_better = false;
    let mut i: usize = 0;
    while i < 5
        invariant
            i <= 5,
            left@.len() == 5,
            right@.len() == 5,
            forall|k: int| 0 <= k < i ==> left@[k] <= right@[k],
            strictly_better == exists|k: int| 0 <= k < i && left@[k] < right@[k],
        decreases 5 - i,
    {
        if left[i] > right[i] {
            return false;
        }
        if left[i] < right[i] {
            strictly_better = true;
        }
        i = i + 1;
    }
    strictly_better
}

/// The relation named by two dominance flags and an equality flag, in that
/// order of precedence.
pub open spec fn spec_classify(
    left_strictly_dominates: bool,
    right_strictly_dominates: bool,
    equal: bool,
) -> ProducerProposalParetoRelationV1 {
    if left_strictly_dominates {
        ProducerProposalParetoRelationV1::LeftStrictlyDominates
    } else if right_strictly_dominates {
        ProducerProposalParetoRelationV1::RightStrictlyDominates
    } else if equal {
        ProducerProposalParetoRelationV1::Equal
    } else {
        ProducerProposalParetoRelationV1::Incomparable
    }
}

pub fn classify_relation(
    left_strictly_dominates: bool,
    right_strictly_dominates: bool,
    equal: bool,
) -> (r: ProducerProposalParetoRelationV1)
    ensures
        r == spec_classify(left_strictly_dominates, right_strictly_dominates, equal),
{
    if left_strictly_dominates {
        ProducerProposalParetoRelationV1::LeftStrictlyDominates
    } else if right_strictly_dominates {
        ProducerProposalParetoRelationV1::RightStrictlyDominates
    } else if equal {
        ProducerProposalParetoRelationV1::Equal
    } else {
        ProducerProposalParetoRelationV1::Incomparable
    }
}

/// Quality compares only the exact satisfied weight.
pub open spec fn spec_quality_relation(
    left: GovernedRequirementRecallV1,
    right: GovernedRequirementRecallV1,
) -> ProducerProposalParetoRelationV1 {
    if left.satisfied_weight_micros > right.satisfied_weight_micros {
        ProducerProposalParetoRelationV1::LeftStrictlyDominates
    } else if right.satisfied_weight_micros > left.satisfied_weight_micros {
        ProducerProposalParetoRelationV1::RightStrictlyDominates
    } else {
        ProducerProposalParetoRelationV1::Equal
    }
}

pub fn quality_relation(
    left: GovernedRequirementRecallV1,
    right: GovernedRequirementRecallV1,
) -> (r: ProducerProposalParetoRelationV1)
    ensures
        r == spec_quality_relation(left, right),
{
    if left.satisfied_weight_micros > right.satisfied_weight_micros {
        ProducerProposalParetoRelationV1::LeftStrictlyDominates
    } else if right.satisfied_weight_micros > left.satisfied_weight_micros {
        ProducerProposalParetoRelationV1::RightStrictlyDominates
    } else {
        ProducerProposalParetoRelationV1::Equal
    }
}

/// The five lower-is-better cost axes; the unique member-event count is
/// accounting and no axis.
pub open spec fn cost_axes(resources: ProducerProposalResourceEnvelopeV1) -> Seq<u64> {
    seq![
        resources.proposal_packet_count,
        resources.unique_member_source_bytes,
        resources.canonical_proposal_render_tokens,
        resources.wall_time_nanos,
        resources.peak_rss_bytes,
    ]
}

pub open spec fn spec_cost_relation(
    left: ProducerProposalResourceEnvelopeV1,
    right: ProducerProposalResourceEnvelopeV1,
) -> ProducerProposalParetoRelationV1 {
    spec_classify(
        spec_lower_is_better_dominates(cost_axes(left), cost_axes(right)),
        spec_lower_is_better_dominates(cost_axes(right), cost_axes(left)),
        cost_axes(left) == cost_axes(right),
    )
}

fn cost_array(resources: ProducerProposalResourceEnvelopeV1) -> (r: [u64; 5])
    ensures
        r@ == cost_axes(resources),
{
    let r = [
        resources.proposal_packet_count,
        resources.unique_member_source_bytes,
        resources.canonical_proposal_render_tokens,
        resources.wall_time_nanos,
        resources.peak_rss_bytes,
    ];
    proof {
        assert(r@ =~= cost_axes(resources));
    }
    r
}

fn arrays_equal(left: [u64; 5], right: [u64; 5]) -> (r: bool)
    ensures
        r == (left@ == right@),
{
    let mut i: usize = 0;
    while i < 5
        invariant
            i <= 5,
            left@.len() == 5,
            right@.len() == 5,
            forall|k: int| 0 <= k < i ==> left@[k] == right@[k],
        decreases 5 - i,
    {
        if left[i] != right[i] {
            return false;
        }
        i = i + 1;
    }
    proof {
        assert(left@ =~= right@);
    }
    true
}

pub fn cost_relation(
    left: ProducerProposalResourceEnvelopeV1,
    right: ProducerProposalResourceEnvelopeV1,
) -> (r: ProducerProposalParetoRelationV1)
    ensures
        r == spec_cost_relation(left, right),
{
    let left_costs = cost_array(left);
    let right_costs = cost_array(right);
    classify_relation(
        lower_is_better_pareto_dominates(left_costs, right_costs),
        lower_is_better_pareto_dominates(right_costs, left_costs),
        arrays_equal(left_costs, right_costs),
    )
}

/// The left side is no worse in this group.
pub open spec fn left_no_worse(relation: ProducerProposalParetoRelationV1) -> bool {
    relation is LeftStrictlyDominates || relation is Equal
}

/// The right side is no worse in this group.
pub open spec fn right_no_worse(relation: ProducerProposalParetoRelationV1) -> bool {
    relation is RightStrictlyDominates || relation is Equal
}

/// A side dominates jointly when it is no worse in quality and in cost and
/// strictly better in at least one of them.
pub open spec fn spec_joint_relation(
    quality: ProducerProposalParetoRelationV1,
    cost: ProducerProposalParetoRelationV1,
) -> ProducerProposalParetoRelationV1 {
    spec_classify(
        left_no_worse(quality) && left_no_worse(cost) && (quality is LeftStrictlyDominates
            || cost is LeftStrictlyDominates),
        right_no_worse(quality) && right_no_worse(cost) && (quality is RightStrictlyDominates
            || cost is RightStrictlyDominates),
        quality is Equal && cost is Equal,
    )
}

pub fn joint_relation(
    quality: ProducerProposalParetoRelationV1,
    cost: ProducerProposalParetoRelationV1,
) -> (r: ProducerProposalParetoRelationV1)
    ensures
        r == spec_joint_relation(quality, cost),
{
    let left_quality_no_worse = matches!(quality, ProducerProposalParetoRelationV1::LeftStrictlyDominates)
        || matches!(quality, ProducerProposalParetoRelationV1::Equal);
    let left_cost_no_worse = matches!(cost, ProducerProposalParetoRelationV1::LeftStrictlyDominates)
        || matches!(cost, ProducerProposalParetoRelationV1::Equal);
    let left_strict = matches!(quality, ProducerProposalParetoRelationV1::LeftStrictlyDominates)
        || matches!(cost, ProducerProposalParetoRelationV1::LeftStrictlyDominates);
    let right_quality_no_worse = matches!(quality, ProducerProposalParetoRelationV1::RightStrictlyDominates)
        || matches!(quality, ProducerProposalParetoRelationV1::Equal);
    let right_cost_no_worse = matches!(cost, ProducerProposalParetoRelationV1::RightStrictlyDominates)
        || matches!(cost, ProducerProposalParetoRelationV1::Equal);
    let right_strict = matches!(quality, ProducerProposalParetoRelationV1::RightStrictlyDominates)
        || matches!(cost, ProducerProposalParetoRelationV1::RightStrictlyDominates);
    classify_relation(
        left_quality_no_worse && left_cost_no_worse && left_strict,
        right_quality_no_worse && right_cost_no_worse && right_strict,
        matches!(quality, ProducerProposalParetoRelationV1::Equal) && matches!(
            cost,
            ProducerProposalParetoRelationV1::Equal
        ),
    )
}

/// Dominance is asymmetric: no cost vector dominates one that dominates it.
pub proof fn lemma_dominance_asymmetric(left: Seq<u64>, right: Seq<u64>)
    ensures
        spec_lower_is_better_dominates(left, right) ==> !spec_lower_is_better_dominates(right, left),
        spec_lower_is_better_dominates(left, right) ==> left != right,
{
    if spec_lower_is_better_dominates(left, right) {
        let i = choose|i: int| 0 <= i < left.len() && left[i] < right[i];
        assert(!(right[i] <= left[i]));
    }
}

/// Swapping the two sides mirrors the quality relation.
pub proof fn lemma_quality_relation_mirrors(left: GovernedRequirementRecallV1, right: GovernedRequirementRecallV1)
    ensures
        spec_quality_relation(right, left) == mirror(spec_quality_relation(left, right)),
{
}

/// Swapping the two sides mirrors the cost relation.
pub proof fn lemma_cost_relation_mirrors(
    left: ProducerProposalResourceEnvelopeV1,
    right: ProducerProposalResourceEnvelopeV1,
)
    ensures
        spec_cost_relation(right, left) == mirror(spec_cost_relation(left, right)),
{
    lemma_dominance_asymmetric(cost_axes(left), cost_axes(right));
    lemma_dominance_asymmetric(cost_axes(right), cost_axes(left));
}

/// Swapping the two sides mirrors the joint relation.
pub proof fn lemma_joint_relation_mirrors(
    quality: ProducerProposalParetoRelationV1,
    cost: ProducerProposalParetoRelationV1,
)
    ensures
        spec_joint_relation(mirror(quality), mirror(cost)) == mirror(spec_joint_relation(quality, cost)),
{
}

/// Two evaluations compare as equal costs exactly when their five cost axes
/// agree, and as equal overall exactly when both groups are equal.
pub proof fn lemma_equal_relations_are_exact(
    left: ProducerProposalResourceEnvelopeV1,
    right: ProducerProposalResourceEnvelopeV1,
    quality: ProducerProposalParetoRelationV1,
)
    ensures
        (spec_cost_relation(left, right) is Equal) == (cost_axes(left) == cost_axes(right)),
        (spec_joint_relation(quality, spec_cost_relation(left, right)) is Equal) == (quality is Equal
            && cost_axes(left) == cost_axes(right)),
{
    lemma_dominance_asymmetric(cost_axes(left), cost_axes(right));
    lemma_dominance_asymmetric(cost_axes(right), cost_axes(left));
}

/// The two evaluations join the same public case and hidden annotation.
pub open spec fn same_artifact_binding(left: GovernedCaseArtifactBindingV1, right: GovernedCaseArtifactBindingV1) -> bool {
    &&& left.public_case_artifact_digest.0@ == right.public_case_artifact_digest.0@
    &&& left.annotation_artifact_digest.0@ == right.annotation_artifact_digest.0@
}

pub(crate) fn artifact_bindings_match(left: &GovernedCaseArtifactBindingV1, right: &GovernedCaseArtifactBindingV1) -> (r: bool)
    ensures
        r == same_artifact_binding(*left, *right),
{
    bytes32_eq(&left.public_case_artifact_digest.0, &right.public_case_artifact_digest.0) && bytes32_eq(
        &left.annotation_artifact_digest.0,
        &right.annotation_artifact_digest.0,
    )
}

/// Why two evaluations cannot be compared, in the order the checks run, or
/// nothing when they can.
pub open spec fn comparison_refusal(
    left: GovernedProducerProposalEvaluationV1,
    right: GovernedProducerProposalEvaluationV1,
) -> Option<ProducerProposalComparisonErrorV1> {
    if !same_artifact_binding(left.artifact_binding, right.artifact_binding) {
        Some(ProducerProposalComparisonErrorV1::CaseArtifactBindingMismatch)
    } else if !left.acquisition_binding.same_as(right.acquisition_binding) {
        Some(ProducerProposalComparisonErrorV1::AcquisitionBindingMismatch)
    } else if !left.measurement_environment.same_as(right.measurement_environment) {
        Some(ProducerProposalComparisonErrorV1::MeasurementEnvironmentMismatch)
    } else if left.resource_cap != right.resource_cap {
        Some(ProducerProposalComparisonErrorV1::ResourceCapMismatch)
    } else if left.recall.requirement_count != right.recall.requirement_count || left.recall.total_weight_micros
        != right.recall.total_weight_micros {
        Some(ProducerProposalComparisonErrorV1::RecallUniverseMismatch)
    } else {
        None
    }
}

/// Exact matched pair of governed producer-proposal evaluations. Quality is
/// the exact satisfied weight, cost the five lower-is-better axes; no scalar
/// score is formed across them.
#[derive(Clone, Debug)]
pub struct GovernedProducerProposalComparisonV1 {
    pub left: GovernedProducerProposalEvaluationV1,
    pub right: GovernedProducerProposalEvaluationV1,
    pub quality_relation: ProducerProposalParetoRelationV1,
    pub cost_relation: ProducerProposalParetoRelationV1,
    pub joint_relation: ProducerProposalParetoRelationV1,
}

impl GovernedProducerProposalComparisonV1 {
    /// The relations are the exact ones of its two sides.
    pub open spec fn wf(&self) -> bool {
        &&& self.quality_relation == spec_quality_relation(self.left.recall, self.right.recall)
        &&& self.cost_relation == spec_cost_relation(self.left.resources, self.right.resources)
        &&& self.joint_relation == spec_joint_relation(self.quality_relation, self.cost_relation)
    }

    pub fn try_new(
        left: GovernedProducerProposalEvaluationV1,
        right: GovernedProducerProposalEvaluationV1,
    ) -> (r: Result<Self, ProducerProposalComparisonErrorV1>)
        ensures
            match comparison_refusal(left, right) {
                Some(e) => r == Err::<Self, ProducerProposalComparisonErrorV1>(e),
                None => r matches Ok(c) && c.left == left && c.right == right && c.wf(),
            },
    {
        if !artifact_bindings_match(&left.artifact_binding, &right.artifact_binding) {
            return Err(ProducerProposalComparisonErrorV1::CaseArtifactBindingMismatch);
        }
        if !left.acquisition_binding.matches(&right.acquisition_binding) {
            return Err(ProducerProposalComparisonErrorV1::AcquisitionBindingMismatch);
        }
        if !left.measurement_environment.matches(&right.measurement_environment) {
            return Err(ProducerProposalComparisonErrorV1::MeasurementEnvironmentMismatch);
        }
        if left.resource_cap != right.resource_cap {
            return Err(ProducerProposalComparisonErrorV1::ResourceCapMismatch);
        }
        if left.recall.requirement_count != right.recall.requirement_count || left.recall.total_weight_micros
            != right.recall.total_weight_micros {
            return Err(ProducerProposalComparisonErrorV1::RecallUniverseMismatch);
        }
        let quality = quality_relation(left.recall, right.recall);
        let cost = cost_relation(left.resources, right.resources);
        let joint = joint_relation(quality, cost);
        Ok(
            GovernedProducerProposalComparisonV1 {
                left,
                right,
                quality_relation: quality,
                cost_relation: cost,
                joint_relation: joint,
            },
        )
    }

    pub fn left(&self) -> (r: &GovernedProducerProposalEvaluationV1)
        ensures
            *r == self.left,
    {
        &self.left
    }

    pub fn right(&self) -> (r: &GovernedProducerProposalEvaluationV1)
        ensures
            *r == self.right,
    {
        &self.right
    }

    pub fn resource_cap(&self) -> (r: ProducerProposalResourceCapV1)
        ensures
            r == self.left.resource_cap,
    {
        self.left.resource_cap
    }

    pub fn left_resources(&self) -> (r: ProducerProposalResourceEnvelopeV1)
        ensures
            r == self.left.resources,
    {
        self.left.resources
    }

    pub fn right_resources(&self) -> (r: ProducerProposalResourceEnvelopeV1)
        ensures
            r == self.right.resources,
    {
        self.right.resources
    }

    pub fn left_recall(&self) -> (r: GovernedRequirementRecallV1)
        ensures
            r == self.left.recall,
    {
        self.left.recall
    }

    pub fn right_recall(&self) -> (r: GovernedRequirementRecallV1)
        ensures
            r == self.right.recall,
    {
        self.right.recall
    }

    pub fn left_cap_violations(&self) -> (r: Option<&ProducerProposalCapViolationsV1>)
        ensures
            r is Some <==> self.left.cap_violations is Some,
            r matches Some(v) ==> *v == self.left.cap_violations->0,
    {
        self.left.cap_violations()
    }

    pub fn right_cap_violations(&self) -> (r: Option<&ProducerProposalCapViolationsV1>)
        ensures
            r is Some <==> self.right.cap_violations is Some,
            r matches Some(v) ==> *v == self.right.cap_violations->0,
    {
        self.right.cap_violations()
    }

    pub fn left_producer(&self) -> (r: ProducerProposalIdentityV1)
        ensures
            r == self.left.producer,
    {
        self.left.producer
    }

    pub fn right_producer(&self) -> (r: ProducerProposalIdentityV1)
        ensures
            r == self.right.producer,
    {
        self.right.producer
    }

    pub fn left_measurement_trust_boundary(&self) -> (r: MeasurementTrustBoundaryV1)
        ensures
            r == self.left.measurement_trust_boundary,
    {
        self.left.measurement_trust_boundary
    }

    pub fn right_measurement_trust_boundary(&self) -> (r: MeasurementTrustBoundaryV1)
        ensures
            r == self.right.measurement_trust_boundary,
    {
        self.right.measurement_trust_boundary
    }

    pub fn quality_relation(&self) -> (r: ProducerProposalParetoRelationV1)
        ensures
            r == self.quality_relation,
    {
        self.quality_relation
    }

    pub fn cost_relation(&self) -> (r: ProducerProposalParetoRelationV1)
        ensures
            r == self.cost_relation,
    {
        self.cost_relation
    }

    /// Joint quality/cost Pareto relation, without a winner or a trust claim.
    pub fn joint_relation(&self) -> (r: ProducerProposalParetoRelationV1)
        ensures
            r == self.joint_relation,
    {
        self.joint_relation
    }

    /// Both evaluations are within the same resource cap.
    pub fn both_k_eligible(&self) -> (r: bool)
        ensures
            r == (self.left.cap_violations is None && self.right.cap_violations is None),
    {
        self.left.cap_violations.is_none() && self.right.cap_violations.is_none()
    }

    /// A joint strict Pareto winner, only under verified measurements: a
    /// self-asserted measurement on either side is refused.
    pub fn verified_joint_pareto_winner(&self) -> (r: Result<
        Option<ProducerProposalComparisonSideV1>,
        ProducerProposalComparisonErrorV1,
    >)
        ensures
            (self.left.measurement_trust_boundary is SelfAssertedReproducibilityInput
                || self.right.measurement_trust_boundary is SelfAssertedReproducibilityInput) ==> r == Err::<
                Option<ProducerProposalComparisonSideV1>,
                ProducerProposalComparisonErrorV1,
            >(ProducerProposalComparisonErrorV1::MeasurementTrustNotVerified),
            !(self.left.measurement_trust_boundary is SelfAssertedReproducibilityInput
                || self.right.measurement_trust_boundary is SelfAssertedReproducibilityInput) ==> r == Ok::<
                Option<ProducerProposalComparisonSideV1>,
                ProducerProposalComparisonErrorV1,
            >(
                if !(self.left.cap_violations is None && self.right.cap_violations is None) {
                    None
                } else if self.joint_relation is LeftStrictlyDominates {
                    Some(ProducerProposalComparisonSideV1::Left)
                } else if self.joint_relation is RightStrictlyDominates {
                    Some(ProducerProposalComparisonSideV1::Right)
                } else {
                    None
                },
            ),
    {
        if self.left.measurement_trust_boundary == MeasurementTrustBoundaryV1::SelfAssertedReproducibilityInput
            || self.right.measurement_trust_boundary == MeasurementTrustBoundaryV1::SelfAssertedReproducibilityInput {
            return Err(ProducerProposalComparisonErrorV1::MeasurementTrustNotVerified);
        }
        if !self.both_k_eligible() {
            return Ok(None);
        }
        match self.joint_relation {
            ProducerProposalParetoRelationV1::LeftStrictlyDominates => Ok(Some(ProducerProposalComparisonSideV1::Left)),
            ProducerProposalParetoRelationV1::RightStrictlyDominates => Ok(Some(ProducerProposalComparisonSideV1::Right)),
            _ => Ok(None),
        }
    }
}

/// Comparing the two evaluations the other way round is refused for the same
/// reason, or gives the mirrored quality, cost and joint relations.
pub proof fn lemma_comparison_mirrors(
    left: GovernedProducerProposalEvaluationV1,
    right: GovernedProducerProposalEvaluationV1,
)
    ensures
        comparison_refusal(right, left) == comparison_refusal(left, right),
        spec_quality_relation(right.recall, left.recall) == mirror(spec_quality_relation(left.recall, right.recall)),
        spec_cost_relation(right.resources, left.resources) == mirror(
            spec_cost_relation(left.resources, right.resources),
        ),
        spec_joint_relation(
            spec_quality_relation(right.recall, left.recall),
            spec_cost_relation(right.resources, left.resources),
        ) == mirror(
            spec_joint_relation(
                spec_quality_relation(left.recall, right.recall),
                spec_cost_relation(left.resources, right.resources),
            ),
        ),
{
    lemma_quality_relation_mirrors(left.recall, right.recall);
    lemma_cost_relation_mirrors(left.resources, right.resources);
    lemma_joint_relation_mirrors(
        spec_quality_relation(left.recall, right.recall),
        spec_cost_relation(left.resources, right.resources),
    );
}

} // verus!
