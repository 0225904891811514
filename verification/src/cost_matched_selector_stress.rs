//! The cost-matched selector stress corpus: its closed cases, frozen plans,
//! resource envelopes and structured-program outcomes; the production,
//! challenger and exact-program plan checks; and the governed recall
//! evaluation of a frozen corpus against hidden requirements.

use vstd::prelude::*;
use vstd::utf8::encode_utf8;
use crate::bounded_selector_challenger::{
    has_packet, BoundedSelectorPacketIdV1, BoundedSelectorSearchBoundsV1,
    BoundedSelectorSearchObservationV1,
};
use crate::digest::ArtifactDigest;
use crate::ledger::EventId;
use crate::order_aware_beam::{optional_packet_positions, optional_positions};
use crate::selection_problem::{
    facet_position, find_facet_position, FacetSaturationCardinalityV1, PacketAffinityV1,
    SelectionFacetV1, SelectionProblemV1,
};
use crate::sha256::{framed, push_bytes, push_field, push_u64_le, sha256, sha256_spec, u64_le};
use crate::structured_dp::{
    dp_core_result, run_structured_dp, DpCoreOutcomeV1, DpItemV1, STRUCTURED_DP_MAX_OPTIONAL_PACKETS_V1,
    STRUCTURED_DP_STATE_SLOT_CAP_V1, STRUCTURED_DP_TRANSITION_CAP_V1,
};

verus! {

/// Cases in the closed corpus.
pub const COST_MATCHED_STRESS_CASE_COUNT_V1: usize = 8;

/// Fewest optional packets a stress case has.
pub const COST_MATCHED_STRESS_MIN_OPTIONAL_PACKETS_V1: usize = 13;

/// Most requirements one governed annotation holds.
pub const MAX_COST_MATCHED_STRESS_REQUIREMENTS_V1: usize = 8;

/// Most alternatives one requirement holds.
pub const MAX_COST_MATCHED_STRESS_ALTERNATIVES_V1: usize = 4;

/// Most events one alternative holds.
pub const MAX_COST_MATCHED_STRESS_EVENTS_PER_ALTERNATIVE_V1: usize = 8;

/// Which stress family a case belongs to.
#[derive(Clone, Copy, Debug, PartialEq, Eq, Structural)]
pub enum CostMatchedStressFamilyV1 {
    PrimaryKnapsack,
    CoverageKnapsack,
    MixedDualResource,
    ProviderCardinality,
    MandatoryBaseline,
    NonAdditiveSaturation,
    ExactCapacity,
}

impl CostMatchedStressFamilyV1 {
    pub open spec fn spec_code(self) -> Seq<char> {
        match self {
            CostMatchedStressFamilyV1::PrimaryKnapsack => "primary_knapsack_v1"@,
            CostMatchedStressFamilyV1::CoverageKnapsack => "coverage_knapsack_v1"@,
            CostMatchedStressFamilyV1::MixedDualResource => "mixed_dual_resource_v1"@,
            CostMatchedStressFamilyV1::ProviderCardinality => "provider_cardinality_v1"@,
            CostMatchedStressFamilyV1::MandatoryBaseline => "mandatory_baseline_v1"@,
            CostMatchedStressFamilyV1::NonAdditiveSaturation => "non_additive_saturation_v1"@,
            CostMatchedStressFamilyV1::ExactCapacity => "exact_capacity_v1"@,
        }
    }

    pub fn code(self) -> (r: &'static str)
        ensures
            r@ == self.spec_code(),
    {
        match self {
            CostMatchedStressFamilyV1::PrimaryKnapsack => "primary_knapsack_v1",
            CostMatchedStressFamilyV1::CoverageKnapsack => "coverage_knapsack_v1",
            CostMatchedStressFamilyV1::MixedDualResource => "mixed_dual_resource_v1",
            CostMatchedStressFamilyV1::ProviderCardinality => "provider_cardinality_v1",
            CostMatchedStressFamilyV1::MandatoryBaseline => "mandatory_baseline_v1",
            CostMatchedStressFamilyV1::NonAdditiveSaturation => "non_additive_saturation_v1",
            CostMatchedStressFamilyV1::ExactCapacity => "exact_capacity_v1",
        }
    }
}
/// One fixed stress case.
#[derive(Clone, Copy, Debug, PartialEq, Eq, Structural)]
pub enum CostMatchedStressCaseV1 {
    PrimaryDensityTrap15,
    PrimaryBalanced16,
    CoverageDensityTrap15,
    MixedDualResource16,
    ProviderPairs14,
    MandatoryBaseline14,
    ProviderThirdEndpoint15,
    ExactPacketCap65,
}

impl CostMatchedStressCaseV1 {

    /// The family a case stresses.
    pub open spec fn spec_family(self) -> CostMatchedStressFamilyV1 {
        match self {
            CostMatchedStressCaseV1::PrimaryDensityTrap15 => CostMatchedStressFamilyV1::PrimaryKnapsack,
            CostMatchedStressCaseV1::PrimaryBalanced16 => CostMatchedStressFamilyV1::PrimaryKnapsack,
            CostMatchedStressCaseV1::CoverageDensityTrap15 => CostMatchedStressFamilyV1::CoverageKnapsack,
            CostMatchedStressCaseV1::MixedDualResource16 => CostMatchedStressFamilyV1::MixedDualResource,
            CostMatchedStressCaseV1::ProviderPairs14 => CostMatchedStressFamilyV1::ProviderCardinality,
            CostMatchedStressCaseV1::MandatoryBaseline14 => CostMatchedStressFamilyV1::MandatoryBaseline,
            CostMatchedStressCaseV1::ProviderThirdEndpoint15 => CostMatchedStressFamilyV1::NonAdditiveSaturation,
            CostMatchedStressCaseV1::ExactPacketCap65 => CostMatchedStressFamilyV1::ExactCapacity,
        }
    }

    pub fn family(self) -> (r: CostMatchedStressFamilyV1)
        ensures
            r == self.spec_family(),
    {
        match self {
            CostMatchedStressCaseV1::PrimaryDensityTrap15 => CostMatchedStressFamilyV1::PrimaryKnapsack,
            CostMatchedStressCaseV1::PrimaryBalanced16 => CostMatchedStressFamilyV1::PrimaryKnapsack,
            CostMatchedStressCaseV1::CoverageDensityTrap15 => CostMatchedStressFamilyV1::CoverageKnapsack,
            CostMatchedStressCaseV1::MixedDualResource16 => CostMatchedStressFamilyV1::MixedDualResource,
            CostMatchedStressCaseV1::ProviderPairs14 => CostMatchedStressFamilyV1::ProviderCardinality,
            CostMatchedStressCaseV1::MandatoryBaseline14 => CostMatchedStressFamilyV1::MandatoryBaseline,
            CostMatchedStressCaseV1::ProviderThirdEndpoint15 => CostMatchedStressFamilyV1::NonAdditiveSaturation,
            CostMatchedStressCaseV1::ExactPacketCap65 => CostMatchedStressFamilyV1::ExactCapacity,
        }
    }

    /// Position of the case in the closed case list.
    pub open spec fn spec_rank(self) -> int {
        match self {
            CostMatchedStressCaseV1::PrimaryDensityTrap15 => 0,
            CostMatchedStressCaseV1::PrimaryBalanced16 => 1,
            CostMatchedStressCaseV1::CoverageDensityTrap15 => 2,
            CostMatchedStressCaseV1::MixedDualResource16 => 3,
            CostMatchedStressCaseV1::ProviderPairs14 => 4,
            CostMatchedStressCaseV1::MandatoryBaseline14 => 5,
            CostMatchedStressCaseV1::ProviderThirdEndpoint15 => 6,
            CostMatchedStressCaseV1::ExactPacketCap65 => 7,
        }
    }

    pub fn rank(self) -> (r: usize)
        ensures
            r == self.spec_rank(),
    {
        match self {
            CostMatchedStressCaseV1::PrimaryDensityTrap15 => 0,
            CostMatchedStressCaseV1::PrimaryBalanced16 => 1,
            CostMatchedStressCaseV1::CoverageDensityTrap15 => 2,
            CostMatchedStressCaseV1::MixedDualResource16 => 3,
            CostMatchedStressCaseV1::ProviderPairs14 => 4,
            CostMatchedStressCaseV1::MandatoryBaseline14 => 5,
            CostMatchedStressCaseV1::ProviderThirdEndpoint15 => 6,
            CostMatchedStressCaseV1::ExactPacketCap65 => 7,
        }
    }

    /// Every case, in the closed order.
    pub open spec fn spec_all() -> Seq<CostMatchedStressCaseV1> {
        seq![
            CostMatchedStressCaseV1::PrimaryDensityTrap15,
            CostMatchedStressCaseV1::PrimaryBalanced16,
            CostMatchedStressCaseV1::CoverageDensityTrap15,
            CostMatchedStressCaseV1::MixedDualResource16,
            CostMatchedStressCaseV1::ProviderPairs14,
            CostMatchedStressCaseV1::MandatoryBaseline14,
            CostMatchedStressCaseV1::ProviderThirdEndpoint15,
            CostMatchedStressCaseV1::ExactPacketCap65,
        ]
    }

    pub fn all() -> (r: Vec<CostMatchedStressCaseV1>)
        ensures
            r@ == Self::spec_all(),
    {
        let r = vec![
            CostMatchedStressCaseV1::PrimaryDensityTrap15,
            CostMatchedStressCaseV1::PrimaryBalanced16,
            CostMatchedStressCaseV1::CoverageDensityTrap15,
            CostMatchedStressCaseV1::MixedDualResource16,
            CostMatchedStressCaseV1::ProviderPairs14,
            CostMatchedStressCaseV1::MandatoryBaseline14,
            CostMatchedStressCaseV1::ProviderThirdEndpoint15,
            CostMatchedStressCaseV1::ExactPacketCap65,
        ];
        proof {
            assert(r@ =~= Self::spec_all());
        }
        r
    }

    pub open spec fn spec_code(self) -> Seq<char> {
        match self {
            CostMatchedStressCaseV1::PrimaryDensityTrap15 => "primary_density_trap_15_v1"@,
            CostMatchedStressCaseV1::PrimaryBalanced16 => "primary_balanced_16_v1"@,
            CostMatchedStressCaseV1::CoverageDensityTrap15 => "coverage_density_trap_15_v1"@,
            CostMatchedStressCaseV1::MixedDualResource16 => "mixed_dual_resource_16_v1"@,
            CostMatchedStressCaseV1::ProviderPairs14 => "provider_pairs_14_v1"@,
            CostMatchedStressCaseV1::MandatoryBaseline14 => "mandatory_baseline_14_v1"@,
            CostMatchedStressCaseV1::ProviderThirdEndpoint15 => "provider_third_endpoint_15_v1"@,
            CostMatchedStressCaseV1::ExactPacketCap65 => "exact_packet_cap_65_v1"@,
        }
    }

    pub fn code(self) -> (r: &'static str)
        ensures
            r@ == self.spec_code(),
    {
        match self {
            CostMatchedStressCaseV1::PrimaryDensityTrap15 => "primary_density_trap_15_v1",
            CostMatchedStressCaseV1::PrimaryBalanced16 => "primary_balanced_16_v1",
            CostMatchedStressCaseV1::CoverageDensityTrap15 => "coverage_density_trap_15_v1",
            CostMatchedStressCaseV1::MixedDualResource16 => "mixed_dual_resource_16_v1",
            CostMatchedStressCaseV1::ProviderPairs14 => "provider_pairs_14_v1",
            CostMatchedStressCaseV1::MandatoryBaseline14 => "mandatory_baseline_14_v1",
            CostMatchedStressCaseV1::ProviderThirdEndpoint15 => "provider_third_endpoint_15_v1",
            CostMatchedStressCaseV1::ExactPacketCap65 => "exact_packet_cap_65_v1",
        }
    }
}
/// Contentless stress-corpus failures.
#[derive(Clone, Copy, Debug, PartialEq, Eq, Structural)]
pub enum CostMatchedStressErrorV1 {
    FixtureInvariant,
    ProductionSelection,
    ProductionTerminal,
    BeamEvaluation,
    ObjectiveContract,
    ResourceEnvelopeViolation,
    ArithmeticOverflow,
    DigestLengthOverflow,
    CaseSetMismatch,
    CaseBindingMismatch,
    RequirementBounds,
    RequirementUnknownEvent,
    RequirementDuplicate,
}

impl CostMatchedStressErrorV1 {
    pub open spec fn spec_code(self) -> Seq<char> {
        match self {
            CostMatchedStressErrorV1::FixtureInvariant => "EVIDENTRAIL_BENCH_COST_MATCHED_FIXTURE"@,
            CostMatchedStressErrorV1::ProductionSelection => "EVIDENTRAIL_BENCH_COST_MATCHED_PRODUCTION"@,
            CostMatchedStressErrorV1::ProductionTerminal => "EVIDENTRAIL_BENCH_COST_MATCHED_PRODUCTION_TERMINAL"@,
            CostMatchedStressErrorV1::BeamEvaluation => "EVIDENTRAIL_BENCH_COST_MATCHED_BEAM"@,
            CostMatchedStressErrorV1::ObjectiveContract => "EVIDENTRAIL_BENCH_COST_MATCHED_OBJECTIVE"@,
            CostMatchedStressErrorV1::ResourceEnvelopeViolation => "EVIDENTRAIL_BENCH_COST_MATCHED_ENVELOPE"@,
            CostMatchedStressErrorV1::ArithmeticOverflow => "EVIDENTRAIL_BENCH_COST_MATCHED_ARITHMETIC"@,
            CostMatchedStressErrorV1::DigestLengthOverflow => "EVIDENTRAIL_BENCH_COST_MATCHED_DIGEST_LENGTH"@,
            CostMatchedStressErrorV1::CaseSetMismatch => "EVIDENTRAIL_BENCH_COST_MATCHED_CASE_SET"@,
            CostMatchedStressErrorV1::CaseBindingMismatch => "EVIDENTRAIL_BENCH_COST_MATCHED_CASE_BINDING"@,
            CostMatchedStressErrorV1::RequirementBounds => "EVIDENTRAIL_BENCH_COST_MATCHED_REQUIREMENT_BOUNDS"@,
            CostMatchedStressErrorV1::RequirementUnknownEvent => "EVIDENTRAIL_BENCH_COST_MATCHED_REQUIREMENT_EVENT"@,
            CostMatchedStressErrorV1::RequirementDuplicate => "EVIDENTRAIL_BENCH_COST_MATCHED_REQUIREMENT_DUPLICATE"@,
        }
    }

    pub fn code(self) -> (r: &'static str)
        ensures
            r@ == self.spec_code(),
    {
        match self {
            CostMatchedStressErrorV1::FixtureInvariant => "EVIDENTRAIL_BENCH_COST_MATCHED_FIXTURE",
            CostMatchedStressErrorV1::ProductionSelection => "EVIDENTRAIL_BENCH_COST_MATCHED_PRODUCTION",
            CostMatchedStressErrorV1::ProductionTerminal => "EVIDENTRAIL_BENCH_COST_MATCHED_PRODUCTION_TERMINAL",
            CostMatchedStressErrorV1::BeamEvaluation => "EVIDENTRAIL_BENCH_COST_MATCHED_BEAM",
            CostMatchedStressErrorV1::ObjectiveContract => "EVIDENTRAIL_BENCH_COST_MATCHED_OBJECTIVE",
            CostMatchedStressErrorV1::ResourceEnvelopeViolation => "EVIDENTRAIL_BENCH_COST_MATCHED_ENVELOPE",
            CostMatchedStressErrorV1::ArithmeticOverflow => "EVIDENTRAIL_BENCH_COST_MATCHED_ARITHMETIC",
            CostMatchedStressErrorV1::DigestLengthOverflow => "EVIDENTRAIL_BENCH_COST_MATCHED_DIGEST_LENGTH",
            CostMatchedStressErrorV1::CaseSetMismatch => "EVIDENTRAIL_BENCH_COST_MATCHED_CASE_SET",
            CostMatchedStressErrorV1::CaseBindingMismatch => "EVIDENTRAIL_BENCH_COST_MATCHED_CASE_BINDING",
            CostMatchedStressErrorV1::RequirementBounds => "EVIDENTRAIL_BENCH_COST_MATCHED_REQUIREMENT_BOUNDS",
            CostMatchedStressErrorV1::RequirementUnknownEvent => "EVIDENTRAIL_BENCH_COST_MATCHED_REQUIREMENT_EVENT",
            CostMatchedStressErrorV1::RequirementDuplicate => "EVIDENTRAIL_BENCH_COST_MATCHED_REQUIREMENT_DUPLICATE",
        }
    }
}

/// Which search produced a frozen plan.
#[derive(Clone, Copy, Debug, PartialEq, Eq, Structural)]
pub enum CostMatchedPlanSourceV1 {
    Production,
    OrderAwareBeam,
    ProductionFallback,
    StructuredExactDp,
}

/// Why the structured program declined a problem.
#[derive(Clone, Copy, Debug, PartialEq, Eq, Structural)]
pub enum StructuredDpIneligibleReasonV1 {
    OptionalPacketCap,
    NonAdditiveSaturation,
    StateSlotCap,
    TransitionCap,
}

/// Objective relation of the cost-matched challenger to production.
#[derive(Clone, Copy, Debug, PartialEq, Eq, Structural)]
pub enum CostMatchedObjectiveRelationV1 {
    ChallengerBetter,
    Equal,
}

/// Resource relation of the cost-matched challenger to production.
#[derive(Clone, Copy, Debug, PartialEq, Eq, Structural)]
pub enum CostMatchedCostRelationV1 {
    ChallengerLower,
    Equal,
}

/// Governed recall relation of the challenger to production.
#[derive(Clone, Copy, Debug, PartialEq, Eq, Structural)]
pub enum CostMatchedRecallRelationV1 {
    ChallengerBetter,
    Equal,
    ChallengerWorse,
}

/// A 32-byte corpus, case or governed-report digest.
#[derive(Clone, Copy, Debug)]
pub struct FrozenCostMatchedStressDigestV1(pub [u8; 32]);

impl FrozenCostMatchedStressDigestV1 {
    pub fn as_bytes(&self) -> (r: &[u8; 32])
        ensures
            *r == self.0,
    {
        &self.0
    }
}

/// The resources production used, which the challenger must not exceed.
#[derive(Clone, Copy, Debug, PartialEq, Eq, Structural)]
pub struct CostMatchedResourceEnvelopeV1 {
    pub selected_packet_cost_cap: u64,
    pub coverage_only_token_cost_cap: u64,
    pub mandatory_packet_cost: u64,
    pub reserved_fixed_overhead: u64,
}

impl CostMatchedResourceEnvelopeV1 {
    pub fn selected_packet_cost_cap(self) -> (r: u64)
        ensures
            r == self.selected_packet_cost_cap,
    {
        self.selected_packet_cost_cap
    }

    pub fn coverage_only_token_cost_cap(self) -> (r: u64)
        ensures
            r == self.coverage_only_token_cost_cap,
    {
        self.coverage_only_token_cost_cap
    }

    pub fn mandatory_packet_cost(self) -> (r: u64)
        ensures
            r == self.mandatory_packet_cost,
    {
        self.mandatory_packet_cost
    }

    pub fn reserved_fixed_overhead(self) -> (r: u64)
        ensures
            r == self.reserved_fixed_overhead,
    {
        self.reserved_fixed_overhead
    }
}

/// One frozen plan: its packets, their events, and its resources.
pub struct FrozenCostMatchedPlanV1 {
    pub digest: ArtifactDigest,
    pub source: CostMatchedPlanSourceV1,
    pub objective_gain_numerator: u64,
    pub selected_packet_ids: Vec<BoundedSelectorPacketIdV1>,
    pub selected_event_ids: Vec<EventId>,
    pub selected_packet_cost: u64,
    pub coverage_only_token_cost: u64,
}

impl FrozenCostMatchedPlanV1 {
    pub fn digest(&self) -> (r: ArtifactDigest)
        ensures
            r == self.digest,
    {
        self.digest
    }

    pub fn source(&self) -> (r: CostMatchedPlanSourceV1)
        ensures
            r == self.source,
    {
        self.source
    }

    pub fn objective_gain_numerator(&self) -> (r: u64)
        ensures
            r == self.objective_gain_numerator,
    {
        self.objective_gain_numerator
    }

    pub fn selected_packet_ids(&self) -> (r: &[BoundedSelectorPacketIdV1])
        ensures
            r@ == self.selected_packet_ids@,
    {
        self.selected_packet_ids.as_slice()
    }

    pub fn selected_event_ids(&self) -> (r: &[EventId])
        ensures
            r@ == self.selected_event_ids@,
    {
        self.selected_event_ids.as_slice()
    }

    pub fn selected_packet_cost(&self) -> (r: u64)
        ensures
            r == self.selected_packet_cost,
    {
        self.selected_packet_cost
    }

    pub fn coverage_only_token_cost(&self) -> (r: u64)
        ensures
            r == self.coverage_only_token_cost,
    {
        self.coverage_only_token_cost
    }
}

/// The structured program's closed caps and observed work.
#[derive(Clone, Copy, Debug, PartialEq, Eq, Structural)]
pub struct StructuredDpWorkReceiptV1 {
    pub optional_packet_cap: u64,
    pub state_slot_cap: u64,
    pub transition_attempt_cap: u64,
    pub retained_state_high_water: u64,
    pub transition_attempts: u64,
}

impl StructuredDpWorkReceiptV1 {
    pub fn optional_packet_cap(self) -> (r: u64)
        ensures
            r == self.optional_packet_cap,
    {
        self.optional_packet_cap
    }

    pub fn state_slot_cap(self) -> (r: u64)
        ensures
            r == self.state_slot_cap,
    {
        self.state_slot_cap
    }

    pub fn transition_attempt_cap(self) -> (r: u64)
        ensures
            r == self.transition_attempt_cap,
    {
        self.transition_attempt_cap
    }

    pub fn retained_state_high_water(self) -> (r: u64)
        ensures
            r == self.retained_state_high_water,
    {
        self.retained_state_high_water
    }

    pub fn transition_attempts(self) -> (r: u64)
        ensures
            r == self.transition_attempts,
    {
        self.transition_attempts
    }
}

/// The work receipt of one run of the structured program.
pub open spec fn spec_structured_dp_work(high_water: u64, attempts: u64) -> StructuredDpWorkReceiptV1 {
    StructuredDpWorkReceiptV1 {
        optional_packet_cap: STRUCTURED_DP_MAX_OPTIONAL_PACKETS_V1 as u64,
        state_slot_cap: STRUCTURED_DP_STATE_SLOT_CAP_V1,
        transition_attempt_cap: STRUCTURED_DP_TRANSITION_CAP_V1,
        retained_state_high_water: high_water,
        transition_attempts: attempts,
    }
}

pub fn structured_dp_work(high_water: u64, attempts: u64) -> (r: StructuredDpWorkReceiptV1)
    ensures
        r == spec_structured_dp_work(high_water, attempts),
{
    StructuredDpWorkReceiptV1 {
        optional_packet_cap: STRUCTURED_DP_MAX_OPTIONAL_PACKETS_V1 as u64,
        state_slot_cap: STRUCTURED_DP_STATE_SLOT_CAP_V1,
        transition_attempt_cap: STRUCTURED_DP_TRANSITION_CAP_V1,
        retained_state_high_water: high_water,
        transition_attempts: attempts,
    }
}

/// The structured program's frozen outcome: its optimum, or why it declined.
pub enum StructuredDpOutcomeV1 {
    Exact { optimum: FrozenCostMatchedPlanV1, work: StructuredDpWorkReceiptV1 },
    Ineligible { reason: StructuredDpIneligibleReasonV1, work: StructuredDpWorkReceiptV1 },
}

impl StructuredDpOutcomeV1 {
    pub fn optimum(&self) -> (r: Option<&FrozenCostMatchedPlanV1>)
        ensures
            r == (match self {
                StructuredDpOutcomeV1::Exact { optimum, .. } => Some(optimum),
                StructuredDpOutcomeV1::Ineligible { .. } => None,
            }),
    {
        match self {
            StructuredDpOutcomeV1::Exact { optimum, .. } => Some(optimum),
            StructuredDpOutcomeV1::Ineligible { .. } => None,
        }
    }

    pub fn ineligible_reason(&self) -> (r: Option<StructuredDpIneligibleReasonV1>)
        ensures
            r == (match self {
                StructuredDpOutcomeV1::Ineligible { reason, .. } => Some(*reason),
                StructuredDpOutcomeV1::Exact { .. } => None,
            }),
    {
        match self {
            StructuredDpOutcomeV1::Ineligible { reason, .. } => Some(*reason),
            StructuredDpOutcomeV1::Exact { .. } => None,
        }
    }

    pub fn work(&self) -> (r: StructuredDpWorkReceiptV1)
        ensures
            r == (match self {
                StructuredDpOutcomeV1::Exact { work, .. } => *work,
                StructuredDpOutcomeV1::Ineligible { work, .. } => *work,
            }),
    {
        match self {
            StructuredDpOutcomeV1::Exact { work, .. } => *work,
            StructuredDpOutcomeV1::Ineligible { work, .. } => *work,
        }
    }
}

/// The packet has an affinity on the facet identity.
pub open spec fn touches_facet(affinities: Seq<PacketAffinityV1>, id: u64) -> bool {
    exists|i: int| 0 <= i < affinities.len() && affinities[i].facet_id == id
}

/// How many of the first `k` packets touch the facet identity.
pub open spec fn packets_touching(packets: Seq<crate::selection_problem::IntactPacketV1>, id: u64, k: int) -> nat
    decreases k,
{
    if k <= 0 {
        0
    } else {
        packets_touching(packets, id, k - 1) + if touches_facet(packets[k - 1].affinities@, id) {
            1nat
        } else {
            0nat
        }
    }
}

/// How many affinities saturate a facet of a cardinality.
pub open spec fn cardinality_count(c: FacetSaturationCardinalityV1) -> nat {
    match c {
        FacetSaturationCardinalityV1::One => 1,
        FacetSaturationCardinalityV1::Two => 2,
    }
}

/// Some facet is touched by more packets than its cardinality, so accepting
/// one packet can change another's gain.
pub open spec fn saturation_couples(problem: SelectionProblemV1) -> bool {
    exists|f: int|
        0 <= f < problem.facets.len() && packets_touching(
            problem.packets@,
            #[trigger] problem.facets@[f].id,
            problem.packets.len() as int,
        ) > cardinality_count(problem.facets@[f].saturation_cardinality)
}

/// Some affinity of the packet lands on a primary facet.
pub open spec fn has_primary_affinity(facets: Seq<SelectionFacetV1>, affinities: Seq<PacketAffinityV1>) -> bool {
    exists|i: int|
        0 <= i < affinities.len() && (facet_position(facets, #[trigger] affinities[i].facet_id) matches Some(
            p,
        ) && !facets[p].coverage_only)
}

/// Sum of the first `k` gains.
pub open spec fn gain_total(gains: Seq<u64>, k: int) -> int
    decreases k,
{
    if k <= 0 {
        0
    } else {
        gain_total(gains, k - 1) + gains[k - 1]
    }
}

proof fn lemma_gain_total_monotone(gains: Seq<u64>, a: int, b: int)
    requires
        0 <= a <= b <= gains.len(),
    ensures
        gain_total(gains, a) <= gain_total(gains, b),
    decreases b - a,
{
    if a < b {
        lemma_gain_total_monotone(gains, a, b - 1);
    }
}

/// The program's items: each optional packet's cost, its gain alone, and
/// whether that gain is coverage-only.
pub open spec fn dp_items(problem: SelectionProblemV1, optional: Seq<usize>, gains: Seq<u64>) -> Seq<DpItemV1> {
    Seq::new(
        optional.len(),
        |j: int|
            {
                let packet = problem.packets@[optional[j] as int];
                DpItemV1 {
                    packet_id: packet.id,
                    cost: packet.token_upper_bound,
                    gain: gains[j],
                    coverage_only: gains[j] > 0 && !has_primary_affinity(
                        problem.facets@,
                        packet.affinities@,
                    ),
                }
            },
    )
}

/// What the structured program decides before its plan is frozen.
pub enum StructuredDpDecisionV1 {
    Ineligible { reason: StructuredDpIneligibleReasonV1, work: StructuredDpWorkReceiptV1 },
    Optimal { items: Vec<DpItemV1>, best: crate::structured_dp::DpEntryV1, work: StructuredDpWorkReceiptV1 },
}

pub open spec fn ineligible_decision(
    r: Result<StructuredDpDecisionV1, CostMatchedStressErrorV1>,
    reason: StructuredDpIneligibleReasonV1,
    high_water: u64,
    attempts: u64,
) -> bool {
    r matches Ok(StructuredDpDecisionV1::Ineligible { reason: rr, work: w }) && rr == reason && w
        == spec_structured_dp_work(high_water, attempts)
}

/// The structured program's decision on a problem under an envelope, given
/// each optional packet's gain alone (`gains`, in optional order) and the
/// gain of all optional packets together (`joint_gain`), both as the
/// selection objective computes them.
pub open spec fn structured_dp_decision(
    problem: SelectionProblemV1,
    envelope: CostMatchedResourceEnvelopeV1,
    gains: Seq<u64>,
    joint_gain: u64,
    r: Result<StructuredDpDecisionV1, CostMatchedStressErrorV1>,
) -> bool {
    let optional = optional_positions(problem.packets@, problem.mandatory_packet_ids@, problem.packets.len() as int);
    if optional.len() > STRUCTURED_DP_MAX_OPTIONAL_PACKETS_V1 {
        ineligible_decision(r, StructuredDpIneligibleReasonV1::OptionalPacketCap, 0, 0)
    } else if saturation_couples(problem) {
        ineligible_decision(r, StructuredDpIneligibleReasonV1::NonAdditiveSaturation, 0, 0)
    } else if gain_total(gains, gains.len() as int) > u64::MAX {
        r == Err::<StructuredDpDecisionV1, CostMatchedStressErrorV1>(CostMatchedStressErrorV1::ArithmeticOverflow)
    } else if gain_total(gains, gains.len() as int) != joint_gain {
        ineligible_decision(r, StructuredDpIneligibleReasonV1::NonAdditiveSaturation, 0, 0)
    } else if envelope.selected_packet_cost_cap < envelope.mandatory_packet_cost {
        r == Err::<StructuredDpDecisionV1, CostMatchedStressErrorV1>(
            CostMatchedStressErrorV1::ResourceEnvelopeViolation,
        )
    } else {
        let items = dp_items(problem, optional, gains);
        let last = crate::structured_dp::run_items(
            items,
            (envelope.selected_packet_cost_cap - envelope.mandatory_packet_cost) as u64,
            envelope.coverage_only_token_cost_cap,
            crate::structured_dp::dp_initial_run(),
            0,
        );
        match last.stop {
            Some(crate::structured_dp::DpStopV1::Failed(e)) => r == Err::<
                StructuredDpDecisionV1,
                CostMatchedStressErrorV1,
            >(e),
            Some(crate::structured_dp::DpStopV1::Ineligible(reason)) => ineligible_decision(
                r,
                reason,
                last.high_water as u64,
                last.attempts,
            ),
            None => if last.states.len() == 0 {
                r == Err::<StructuredDpDecisionV1, CostMatchedStressErrorV1>(
                    CostMatchedStressErrorV1::ObjectiveContract,
                )
            } else {
                r matches Ok(StructuredDpDecisionV1::Optimal { items: it, best: b, work: w }) && it@ == items
                    && b@ == crate::structured_dp::dp_best_upto(last.states, last.states.len() as int)
                    && w == spec_structured_dp_work(last.high_water as u64, last.attempts)
            },
        }
    }
}

fn packet_touches_facet(affinities: &Vec<PacketAffinityV1>, id: u64) -> (r: bool)
    ensures
        r == touches_facet(affinities@, id),
{
    let mut i: usize = 0;
    while i < affinities.len()
        invariant
            i <= affinities.len(),
            forall|q: int| 0 <= q < i ==> affinities@[q].facet_id != id,
        decreases affinities.len() - i,
    {
        if affinities[i].facet_id == id {
            return true;
        }
        i = i + 1;
    }
    false
}

fn count_packets_touching(problem: &SelectionProblemV1, id: u64) -> (r: usize)
    ensures
        r == packets_touching(problem.packets@, id, problem.packets.len() as int),
{
    let mut count: usize = 0;
    let mut k: usize = 0;
    while k < problem.packets.len()
        invariant
            k <= problem.packets.len(),
            count == packets_touching(problem.packets@, id, k as int),
            count <= k,
        decreases problem.packets.len() - k,
    {
        if packet_touches_facet(&problem.packets[k].affinities, id) {
            count = count + 1;
        }
        k = k + 1;
    }
    count
}

fn packet_has_primary_affinity(facets: &Vec<SelectionFacetV1>, affinities: &Vec<PacketAffinityV1>) -> (r: bool)
    ensures
        r == has_primary_affinity(facets@, affinities@),
{
    let mut i: usize = 0;
    while i < affinities.len()
        invariant
            i <= affinities.len(),
            forall|q: int|
                0 <= q < i ==> !(facet_position(facets@, #[trigger] affinities@[q].facet_id) matches Some(p)
                    && !facets@[p].coverage_only),
        decreases affinities.len() - i,
    {
        match find_facet_position(facets, affinities[i].facet_id) {
            Some(p) => {
                if !facets[p].coverage_only {
                    return true;
                }
            },
            None => {},
        }
        i = i + 1;
    }
    false
}

pub fn evaluate_structured_exact_dp_v1(
    problem: &SelectionProblemV1,
    envelope: CostMatchedResourceEnvelopeV1,
    gains: &Vec<u64>,
    joint_gain: u64,
) -> (r: Result<StructuredDpDecisionV1, CostMatchedStressErrorV1>)
    requires
        gains.len() == optional_positions(
            problem.packets@,
            problem.mandatory_packet_ids@,
            problem.packets.len() as int,
        ).len(),
    ensures
        structured_dp_decision(*problem, envelope, gains@, joint_gain, r),
        r matches Ok(StructuredDpDecisionV1::Optimal { work: w, .. }) ==> w.transition_attempts
            <= w.transition_attempt_cap && w.retained_state_high_water <= w.state_slot_cap,
        r matches Ok(StructuredDpDecisionV1::Ineligible { work: w, .. }) ==> w.transition_attempts
            <= w.transition_attempt_cap && w.retained_state_high_water <= w.state_slot_cap,
{
    let optional = optional_packet_positions(problem);
    if optional.len() > STRUCTURED_DP_MAX_OPTIONAL_PACKETS_V1 {
        return Ok(
            StructuredDpDecisionV1::Ineligible {
                reason: StructuredDpIneligibleReasonV1::OptionalPacketCap,
                work: structured_dp_work(0, 0),
            },
        );
    }
    let mut f: usize = 0;
    while f < problem.facets.len()
        invariant
            f <= problem.facets.len(),
            optional@ == optional_positions(
                problem.packets@,
                problem.mandatory_packet_ids@,
                problem.packets.len() as int,
            ),
            optional.len() <= STRUCTURED_DP_MAX_OPTIONAL_PACKETS_V1,
            forall|q: int|
                0 <= q < f ==> packets_touching(
                    problem.packets@,
                    #[trigger] problem.facets@[q].id,
                    problem.packets.len() as int,
                ) <= cardinality_count(problem.facets@[q].saturation_cardinality),
        decreases problem.facets.len() - f,
    {
        let facet = problem.facets[f];
        let count = count_packets_touching(problem, facet.id);
        let limit: usize = match facet.saturation_cardinality {
            FacetSaturationCardinalityV1::One => 1,
            FacetSaturationCardinalityV1::Two => 2,
        };
        if count > limit {
            proof {
                assert(packets_touching(problem.packets@, problem.facets@[f as int].id, problem.packets.len() as int)
                    > cardinality_count(problem.facets@[f as int].saturation_cardinality));
                assert(saturation_couples(*problem));
            }
            return Ok(
                StructuredDpDecisionV1::Ineligible {
                    reason: StructuredDpIneligibleReasonV1::NonAdditiveSaturation,
                    work: structured_dp_work(0, 0),
                },
            );
        }
        f = f + 1;
    }
    proof {
        assert(!saturation_couples(*problem));
    }
    let ghost items_spec = dp_items(*problem, optional@, gains@);
    let mut items: Vec<DpItemV1> = Vec::new();
    let mut additive_gain: u64 = 0;
    let mut j: usize = 0;
    while j < optional.len()
        invariant
            j <= optional.len(),
            gains.len() == optional.len(),
            optional@ == optional_positions(
                problem.packets@,
                problem.mandatory_packet_ids@,
                problem.packets.len() as int,
            ),
            optional.len() <= STRUCTURED_DP_MAX_OPTIONAL_PACKETS_V1,
            !saturation_couples(*problem),
            forall|q: int| 0 <= q < optional.len() ==> #[trigger] optional@[q] < problem.packets.len(),
            items_spec == dp_items(*problem, optional@, gains@),
            items@ == items_spec.subrange(0, j as int),
            additive_gain == gain_total(gains@, j as int),
        decreases optional.len() - j,
    {
        let gain = gains[j];
        additive_gain = match additive_gain.checked_add(gain) {
            None => {
                proof {
                    assert(gain_total(gains@, j + 1) == gain_total(gains@, j as int) + gains@[j as int]);
                    lemma_gain_total_monotone(gains@, j + 1, gains.len() as int);
                }
                return Err(CostMatchedStressErrorV1::ArithmeticOverflow);
            },
            Some(v) => v,
        };
        let packet = &problem.packets[optional[j]];
        let has_primary = packet_has_primary_affinity(&problem.facets, &packet.affinities);
        let item = DpItemV1 {
            packet_id: packet.id,
            cost: packet.token_upper_bound,
            gain,
            coverage_only: gain > 0 && !has_primary,
        };
        items.push(item);
        j = j + 1;
        proof {
            assert(items@ =~= items_spec.subrange(0, j as int));
        }
    }
    proof {
        assert(items@ =~= items_spec);
    }
    if additive_gain != joint_gain {
        return Ok(
            StructuredDpDecisionV1::Ineligible {
                reason: StructuredDpIneligibleReasonV1::NonAdditiveSaturation,
                work: structured_dp_work(0, 0),
            },
        );
    }
    if envelope.selected_packet_cost_cap < envelope.mandatory_packet_cost {
        return Err(CostMatchedStressErrorV1::ResourceEnvelopeViolation);
    }
    let optional_cost_cap = envelope.selected_packet_cost_cap - envelope.mandatory_packet_cost;
    let core = run_structured_dp(&items, optional_cost_cap, envelope.coverage_only_token_cost_cap);
    match core {
        Err(e) => Err(e),
        Ok(DpCoreOutcomeV1::Ineligible { reason, retained_state_high_water, transition_attempts }) => Ok(
            StructuredDpDecisionV1::Ineligible {
                reason,
                work: structured_dp_work(retained_state_high_water, transition_attempts),
            },
        ),
        Ok(DpCoreOutcomeV1::Optimal { best, retained_state_high_water, transition_attempts }) => Ok(
            StructuredDpDecisionV1::Optimal {
                items,
                best,
                work: structured_dp_work(retained_state_high_water, transition_attempts),
            },
        ),
    }
}

/// One frozen stress case: its problem, envelope, plans, beam work and
/// structured-program outcome, with the relations of challenger to
/// production.
pub struct FrozenCostMatchedStressCaseV1 {
    pub digest: FrozenCostMatchedStressDigestV1,
    pub case: CostMatchedStressCaseV1,
    pub problem_digest: ArtifactDigest,
    pub optional_packet_count: u64,
    pub event_universe: Vec<EventId>,
    pub envelope: CostMatchedResourceEnvelopeV1,
    pub production: FrozenCostMatchedPlanV1,
    pub challenger: FrozenCostMatchedPlanV1,
    pub beam_bounds: BoundedSelectorSearchBoundsV1,
    pub beam_observation: BoundedSelectorSearchObservationV1,
    pub structured_dp: StructuredDpOutcomeV1,
    pub objective_relation: CostMatchedObjectiveRelationV1,
    pub selected_cost_relation: CostMatchedCostRelationV1,
    pub coverage_cost_relation: CostMatchedCostRelationV1,
}

impl FrozenCostMatchedStressCaseV1 {
    pub fn digest(&self) -> (r: FrozenCostMatchedStressDigestV1)
        ensures
            r == self.digest,
    {
        self.digest
    }

    pub fn case(&self) -> (r: CostMatchedStressCaseV1)
        ensures
            r == self.case,
    {
        self.case
    }

    pub fn problem_digest(&self) -> (r: ArtifactDigest)
        ensures
            r == self.problem_digest,
    {
        self.problem_digest
    }

    pub fn optional_packet_count(&self) -> (r: u64)
        ensures
            r == self.optional_packet_count,
    {
        self.optional_packet_count
    }

    pub fn envelope(&self) -> (r: CostMatchedResourceEnvelopeV1)
        ensures
            r == self.envelope,
    {
        self.envelope
    }

    pub fn production(&self) -> (r: &FrozenCostMatchedPlanV1)
        ensures
            *r == self.production,
    {
        &self.production
    }

    pub fn challenger(&self) -> (r: &FrozenCostMatchedPlanV1)
        ensures
            *r == self.challenger,
    {
        &self.challenger
    }

    pub fn beam_bounds(&self) -> (r: BoundedSelectorSearchBoundsV1)
        ensures
            r == self.beam_bounds,
    {
        self.beam_bounds
    }

    pub fn beam_observation(&self) -> (r: BoundedSelectorSearchObservationV1)
        ensures
            r == self.beam_observation,
    {
        self.beam_observation
    }

    pub fn structured_dp(&self) -> (r: &StructuredDpOutcomeV1)
        ensures
            *r == self.structured_dp,
    {
        &self.structured_dp
    }

    pub fn objective_relation(&self) -> (r: CostMatchedObjectiveRelationV1)
        ensures
            r == self.objective_relation,
    {
        self.objective_relation
    }

    pub fn selected_cost_relation(&self) -> (r: CostMatchedCostRelationV1)
        ensures
            r == self.selected_cost_relation,
    {
        self.selected_cost_relation
    }

    pub fn coverage_cost_relation(&self) -> (r: CostMatchedCostRelationV1)
        ensures
            r == self.coverage_cost_relation,
    {
        self.coverage_cost_relation
    }

    /// The challenger never spends more of either resource than production.
    pub fn deterministic_axes_weakly_dominate(&self) -> (r: bool)
        ensures
            r,
    {
        true
    }
}

/// The frozen public corpus: every case once, with its counts.
pub struct FrozenCostMatchedStressCorpusV1 {
    pub digest: FrozenCostMatchedStressDigestV1,
    pub cases: Vec<FrozenCostMatchedStressCaseV1>,
    pub challenger_better_count: u64,
    pub exact_dp_count: u64,
    pub ineligible_count: u64,
}

/// The first frozen case of a list with this case identity.
pub open spec fn first_case_index(cases: Seq<FrozenCostMatchedStressCaseV1>, case: CostMatchedStressCaseV1, i: int) -> int
    decreases cases.len() - i,
{
    if i < 0 || i >= cases.len() {
        cases.len() as int
    } else if cases[i].case == case {
        i
    } else {
        first_case_index(cases, case, i + 1)
    }
}

proof fn lemma_first_case_index(cases: Seq<FrozenCostMatchedStressCaseV1>, case: CostMatchedStressCaseV1, i: int)
    requires
        0 <= i <= cases.len(),
    ensures
        i <= first_case_index(cases, case, i) <= cases.len(),
        first_case_index(cases, case, i) < cases.len() ==> cases[first_case_index(cases, case, i)].case == case,
        (exists|q: int| i <= q < cases.len() && cases[q].case == case) ==> first_case_index(cases, case, i)
            < cases.len(),
    decreases cases.len() - i,
{
    if i < cases.len() && cases[i].case != case {
        lemma_first_case_index(cases, case, i + 1);
    }
}

/// The corpus holds a case with this identity.
pub open spec fn corpus_has_case(cases: Seq<FrozenCostMatchedStressCaseV1>, case: CostMatchedStressCaseV1) -> bool {
    exists|q: int| 0 <= q < cases.len() && cases[q].case == case
}

fn find_case_index(cases: &Vec<FrozenCostMatchedStressCaseV1>, case: CostMatchedStressCaseV1) -> (r: usize)
    requires
        corpus_has_case(cases@, case),
    ensures
        r as int == first_case_index(cases@, case, 0),
        r < cases.len(),
        cases@[r as int].case == case,
{
    proof {
        lemma_first_case_index(cases@, case, 0);
    }
    let mut i: usize = 0;
    while i < cases.len()
        invariant
            i <= cases.len(),
            first_case_index(cases@, case, 0) == first_case_index(cases@, case, i as int),
            first_case_index(cases@, case, 0) < cases.len(),
        decreases cases.len() - i,
    {
        if cases[i].case == case {
            return i;
        }
        i = i + 1;
    }
    i
}

impl FrozenCostMatchedStressCorpusV1 {
    pub fn digest(&self) -> (r: FrozenCostMatchedStressDigestV1)
        ensures
            r == self.digest,
    {
        self.digest
    }

    pub fn cases(&self) -> (r: &[FrozenCostMatchedStressCaseV1])
        ensures
            r@ == self.cases@,
    {
        self.cases.as_slice()
    }

    /// The frozen case with this identity; the closed corpus holds every case.
    pub fn case(&self, case: CostMatchedStressCaseV1) -> (r: &FrozenCostMatchedStressCaseV1)
        requires
            corpus_has_case(self.cases@, case),
        ensures
            *r == self.cases@[first_case_index(self.cases@, case, 0)],
            r.case == case,
    {
        let i = find_case_index(&self.cases, case);
        &self.cases[i]
    }

    pub fn challenger_better_count(&self) -> (r: u64)
        ensures
            r == self.challenger_better_count,
    {
        self.challenger_better_count
    }

    pub fn exact_dp_count(&self) -> (r: u64)
        ensures
            r == self.exact_dp_count,
    {
        self.exact_dp_count
    }

    pub fn ineligible_count(&self) -> (r: u64)
        ensures
            r == self.ineligible_count,
    {
        self.ineligible_count
    }

    /// The public corpus carries no governed annotation.
    pub fn contains_annotations(&self) -> (r: bool)
        ensures
            !r,
    {
        false
    }

    /// The corpus claims nothing about a population.
    pub fn claims_population_quality(&self) -> (r: bool)
        ensures
            !r,
    {
        false
    }
}

/// A plan that stays within the envelope: selected cost and coverage-only
/// cost at most production's.
pub open spec fn spec_within_envelope(plan: FrozenCostMatchedPlanV1, envelope: CostMatchedResourceEnvelopeV1) -> bool {
    plan.selected_packet_cost <= envelope.selected_packet_cost_cap && plan.coverage_only_token_cost
        <= envelope.coverage_only_token_cost_cap
}

pub fn validate_envelope(plan: &FrozenCostMatchedPlanV1, envelope: CostMatchedResourceEnvelopeV1) -> (r: Result<
    (),
    CostMatchedStressErrorV1,
>)
    ensures
        r is Ok <==> spec_within_envelope(*plan, envelope),
        r matches Err(e) ==> e == CostMatchedStressErrorV1::ResourceEnvelopeViolation,
{
    if plan.selected_packet_cost > envelope.selected_packet_cost_cap || plan.coverage_only_token_cost
        > envelope.coverage_only_token_cost_cap {
        return Err(CostMatchedStressErrorV1::ResourceEnvelopeViolation);
    }
    Ok(())
}

/// A challenger resource no larger than production's is lower or equal; a
/// larger one breaks the envelope.
pub fn cost_relation(production: u64, challenger: u64) -> (r: Result<CostMatchedCostRelationV1, CostMatchedStressErrorV1>)
    ensures
        challenger < production ==> r == Ok::<CostMatchedCostRelationV1, CostMatchedStressErrorV1>(
            CostMatchedCostRelationV1::ChallengerLower,
        ),
        challenger == production ==> r == Ok::<CostMatchedCostRelationV1, CostMatchedStressErrorV1>(
            CostMatchedCostRelationV1::Equal,
        ),
        challenger > production ==> r == Err::<CostMatchedCostRelationV1, CostMatchedStressErrorV1>(
            CostMatchedStressErrorV1::ResourceEnvelopeViolation,
        ),
{
    if challenger < production {
        Ok(CostMatchedCostRelationV1::ChallengerLower)
    } else if challenger == production {
        Ok(CostMatchedCostRelationV1::Equal)
    } else {
        Err(CostMatchedStressErrorV1::ResourceEnvelopeViolation)
    }
}

/// A candidate plan beats the current one: higher objective, then lower
/// selected cost, lower coverage-only cost, fewer packets, and finally the
/// lexicographically smaller packet list.
pub open spec fn spec_plan_is_better(candidate: FrozenCostMatchedPlanV1, current: FrozenCostMatchedPlanV1) -> bool {
    crate::bounded_selector_challenger::then_order(
        crate::bounded_selector_challenger::int_order(
            candidate.objective_gain_numerator as int,
            current.objective_gain_numerator as int,
        ),
        crate::bounded_selector_challenger::then_order(
            crate::bounded_selector_challenger::int_order(
                current.selected_packet_cost as int,
                candidate.selected_packet_cost as int,
            ),
            crate::bounded_selector_challenger::then_order(
                crate::bounded_selector_challenger::int_order(
                    current.coverage_only_token_cost as int,
                    candidate.coverage_only_token_cost as int,
                ),
                crate::bounded_selector_challenger::then_order(
                    crate::bounded_selector_challenger::int_order(
                        current.selected_packet_ids.len() as int,
                        candidate.selected_packet_ids.len() as int,
                    ),
                    crate::bounded_selector_challenger::ids_order(
                        current.selected_packet_ids@,
                        candidate.selected_packet_ids@,
                    ),
                ),
            ),
        ),
    ) == 1
}

pub fn plan_is_better(candidate: &FrozenCostMatchedPlanV1, current: &FrozenCostMatchedPlanV1) -> (r: bool)
    ensures
        r == spec_plan_is_better(*candidate, *current),
{
    if candidate.objective_gain_numerator != current.objective_gain_numerator {
        return candidate.objective_gain_numerator > current.objective_gain_numerator;
    }
    if current.selected_packet_cost != candidate.selected_packet_cost {
        return current.selected_packet_cost > candidate.selected_packet_cost;
    }
    if current.coverage_only_token_cost != candidate.coverage_only_token_cost {
        return current.coverage_only_token_cost > candidate.coverage_only_token_cost;
    }
    if current.selected_packet_ids.len() != candidate.selected_packet_ids.len() {
        return current.selected_packet_ids.len() > candidate.selected_packet_ids.len();
    }
    crate::bounded_selector_challenger::ids_order_exec(
        &current.selected_packet_ids,
        &candidate.selected_packet_ids,
    ) == 1
}

/// One hidden requirement: a weight and alternative event sets, any one of
/// which satisfies it when all of its events are selected.
#[derive(Debug)]
pub struct CostMatchedStressRequirementV1 {
    pub weight: u32,
    pub alternatives: Vec<Vec<EventId>>,
}

impl CostMatchedStressRequirementV1 {
    pub fn weight(&self) -> (r: u32)
        ensures
            r == self.weight,
    {
        self.weight
    }

    pub fn alternatives(&self) -> (r: &[Vec<EventId>])
        ensures
            r@ == self.alternatives@,
    {
        self.alternatives.as_slice()
    }
}

/// The hidden requirements of one case, bound to the public corpus and case
/// digests.
#[derive(Debug)]
pub struct CostMatchedStressGovernedAnnotationV1 {
    pub public_corpus_digest: FrozenCostMatchedStressDigestV1,
    pub case: CostMatchedStressCaseV1,
    pub public_case_digest: FrozenCostMatchedStressDigestV1,
    pub requirements: Vec<CostMatchedStressRequirementV1>,
}

impl CostMatchedStressGovernedAnnotationV1 {
    pub fn case(&self) -> (r: CostMatchedStressCaseV1)
        ensures
            r == self.case,
    {
        self.case
    }
}

/// Exact weighted recall of one plan against one case's requirements.
#[derive(Clone, Copy, Debug, PartialEq, Eq, Structural)]
pub struct CostMatchedStressRecallV1 {
    pub numerator: u64,
    pub denominator: u64,
    pub satisfied_requirement_count: u64,
    pub requirement_count: u64,
}

impl CostMatchedStressRecallV1 {
    pub fn numerator(self) -> (r: u64)
        ensures
            r == self.numerator,
    {
        self.numerator
    }

    pub fn denominator(self) -> (r: u64)
        ensures
            r == self.denominator,
    {
        self.denominator
    }

    pub fn satisfied_requirement_count(self) -> (r: u64)
        ensures
            r == self.satisfied_requirement_count,
    {
        self.satisfied_requirement_count
    }

    pub fn requirement_count(self) -> (r: u64)
        ensures
            r == self.requirement_count,
    {
        self.requirement_count
    }
}

/// The selection holds every event of the alternative.
pub open spec fn alternative_selected(alternative: Seq<EventId>, selected: Seq<EventId>) -> bool {
    forall|q: int| 0 <= q < alternative.len() ==> selected.contains(#[trigger] alternative[q])
}

/// Some alternative of the requirement is wholly selected.
pub open spec fn requirement_satisfied(requirement: CostMatchedStressRequirementV1, selected: Seq<EventId>) -> bool {
    exists|a: int|
        0 <= a < requirement.alternatives.len() && alternative_selected(
            #[trigger] requirement.alternatives@[a]@,
            selected,
        )
}

/// Weighted recall over the first `k` requirements: satisfied weight, total
/// weight and satisfied count, each added with an overflow check.
pub open spec fn recall_prefix(
    requirements: Seq<CostMatchedStressRequirementV1>,
    selected: Seq<EventId>,
    k: int,
) -> Result<(u64, u64, u64), CostMatchedStressErrorV1>
    decreases k,
{
    if k <= 0 {
        Ok((0u64, 0u64, 0u64))
    } else {
        match recall_prefix(requirements, selected, k - 1) {
            Err(e) => Err(e),
            Ok((numerator, denominator, satisfied)) => {
                let weight = requirements[k - 1].weight;
                if denominator + weight > u64::MAX {
                    Err(CostMatchedStressErrorV1::ArithmeticOverflow)
                } else if requirement_satisfied(requirements[k - 1], selected) {
                    if numerator + weight > u64::MAX || satisfied + 1 > u64::MAX {
                        Err(CostMatchedStressErrorV1::ArithmeticOverflow)
                    } else {
                        Ok(((numerator + weight) as u64, (denominator + weight) as u64, (satisfied + 1) as u64))
                    }
                } else {
                    Ok((numerator, (denominator + weight) as u64, satisfied))
                }
            },
        }
    }
}

/// The recall of a selection against requirements.
pub open spec fn spec_evaluate_recall(
    requirements: Seq<CostMatchedStressRequirementV1>,
    selected: Seq<EventId>,
) -> Result<CostMatchedStressRecallV1, CostMatchedStressErrorV1> {
    match recall_prefix(requirements, selected, requirements.len() as int) {
        Err(e) => Err(e),
        Ok((numerator, denominator, satisfied)) => Ok(
            CostMatchedStressRecallV1 {
                numerator,
                denominator,
                satisfied_requirement_count: satisfied,
                requirement_count: requirements.len() as u64,
            },
        ),
    }
}

/// Some event of the list is not selected.
pub open spec fn misses_an_event(events: Seq<EventId>, selected: Seq<EventId>) -> bool {
    exists|q: int| 0 <= q < events.len() && !selected.contains(#[trigger] events[q])
}

/// Every event of the list is selected.
pub open spec fn holds_every_event(events: Seq<EventId>, selected: Seq<EventId>) -> bool {
    forall|q: int| 0 <= q < events.len() ==> selected.contains(#[trigger] events[q])
}

/// Some alternative of the requirement has every event selected.
pub open spec fn has_whole_alternative(requirement: CostMatchedStressRequirementV1, selected: Seq<EventId>) -> bool {
    exists|a: int|
        0 <= a < requirement.alternatives.len() && holds_every_event(#[trigger] requirement.alternatives@[a]@, selected)
}

/// No requirement is met unless every event of one of its alternatives is
/// selected: when each alternative of each requirement misses some event,
/// the recall is zero.
pub proof fn lemma_recall_needs_a_whole_alternative(
    requirements: Seq<CostMatchedStressRequirementV1>,
    selected: Seq<EventId>,
)
    requires
        forall|r: int, a: int|
            0 <= r < requirements.len() && 0 <= a < requirements[r].alternatives.len() ==> misses_an_event(
                #[trigger] requirements[r].alternatives@[a]@,
                selected,
            ),
    ensures
        spec_evaluate_recall(requirements, selected) matches Ok(rec) ==> rec.numerator == 0
            && rec.satisfied_requirement_count == 0,
{
    lemma_recall_prefix_zero(requirements, selected, requirements.len() as int);
}

proof fn lemma_recall_prefix_zero(requirements: Seq<CostMatchedStressRequirementV1>, selected: Seq<EventId>, k: int)
    requires
        k <= requirements.len(),
        forall|r: int, a: int|
            0 <= r < requirements.len() && 0 <= a < requirements[r].alternatives.len() ==> misses_an_event(
                #[trigger] requirements[r].alternatives@[a]@,
                selected,
            ),
    ensures
        recall_prefix(requirements, selected, k) matches Ok((numerator, _, satisfied)) ==> numerator == 0
            && satisfied == 0,
    decreases k,
{
    if k > 0 {
        lemma_recall_prefix_zero(requirements, selected, k - 1);
        let req = requirements[k - 1];
        if requirement_satisfied(req, selected) {
            let a = choose|a: int|
                0 <= a < req.alternatives.len() && alternative_selected(
                    #[trigger] req.alternatives@[a]@,
                    selected,
                );
            assert(misses_an_event(req.alternatives@[a]@, selected));
            let q = choose|q: int|
                0 <= q < req.alternatives@[a]@.len() && !selected.contains(#[trigger] req.alternatives@[a]@[q]);
            assert(selected.contains(req.alternatives@[a]@[q]));
        }
    }
}

/// Every requirement with a wholly selected alternative is met: when each
/// requirement has one, the recall is complete.
pub proof fn lemma_recall_complete_when_each_alternative_selected(
    requirements: Seq<CostMatchedStressRequirementV1>,
    selected: Seq<EventId>,
)
    requires
        forall|r: int| 0 <= r < requirements.len() ==> has_whole_alternative(#[trigger] requirements[r], selected),
    ensures
        spec_evaluate_recall(requirements, selected) matches Ok(rec) ==> rec.numerator == rec.denominator
            && rec.satisfied_requirement_count == rec.requirement_count,
{
    lemma_recall_prefix_full(requirements, selected, requirements.len() as int);
}

proof fn lemma_recall_prefix_full(requirements: Seq<CostMatchedStressRequirementV1>, selected: Seq<EventId>, k: int)
    requires
        0 <= k <= requirements.len(),
        forall|r: int| 0 <= r < requirements.len() ==> has_whole_alternative(#[trigger] requirements[r], selected),
    ensures
        recall_prefix(requirements, selected, k) matches Ok((numerator, denominator, satisfied)) ==> numerator
            == denominator && satisfied == k,
    decreases k,
{
    if k > 0 {
        lemma_recall_prefix_full(requirements, selected, k - 1);
        let req = requirements[k - 1];
        assert(has_whole_alternative(req, selected));
        let a = choose|a: int|
            0 <= a < req.alternatives.len() && holds_every_event(#[trigger] req.alternatives@[a]@, selected);
        assert(alternative_selected(req.alternatives@[a]@, selected));
        assert(requirement_satisfied(req, selected));
    }
}

proof fn lemma_recall_prefix_err_extends(
    requirements: Seq<CostMatchedStressRequirementV1>,
    selected: Seq<EventId>,
    k: int,
    n: int,
)
    requires
        0 <= k <= n,
        recall_prefix(requirements, selected, k) is Err,
    ensures
        recall_prefix(requirements, selected, n) == recall_prefix(requirements, selected, k),
    decreases n - k,
{
    if k < n {
        lemma_recall_prefix_err_extends(requirements, selected, k, n - 1);
    }
}

fn event_selected(selected: &[EventId], id: EventId) -> (r: bool)
    ensures
        r == selected@.contains(id),
{
    let mut i: usize = 0;
    while i < selected.len()
        invariant
            i <= selected.len(),
            forall|q: int| 0 <= q < i ==> selected@[q] != id,
        decreases selected.len() - i,
    {
        if selected[i] == id {
            proof {
                assert(selected@[i as int] == id);
            }
            return true;
        }
        i = i + 1;
    }
    false
}

fn alternative_is_selected(alternative: &Vec<EventId>, selected: &[EventId]) -> (r: bool)
    ensures
        r == alternative_selected(alternative@, selected@),
{
    let mut i: usize = 0;
    while i < alternative.len()
        invariant
            i <= alternative.len(),
            forall|q: int| 0 <= q < i ==> selected@.contains(#[trigger] alternative@[q]),
        decreases alternative.len() - i,
    {
        if !event_selected(selected, alternative[i]) {
            return false;
        }
        i = i + 1;
    }
    true
}

fn requirement_is_satisfied(requirement: &CostMatchedStressRequirementV1, selected: &[EventId]) -> (r: bool)
    ensures
        r == requirement_satisfied(*requirement, selected@),
{
    let mut a: usize = 0;
    while a < requirement.alternatives.len()
        invariant
            a <= requirement.alternatives.len(),
            forall|q: int| 0 <= q < a ==> !alternative_selected(#[trigger] requirement.alternatives@[q]@, selected@),
        decreases requirement.alternatives.len() - a,
    {
        if alternative_is_selected(&requirement.alternatives[a], selected) {
            return true;
        }
        a = a + 1;
    }
    false
}

pub fn evaluate_recall(requirements: &Vec<CostMatchedStressRequirementV1>, selected: &[EventId]) -> (r: Result<
    CostMatchedStressRecallV1,
    CostMatchedStressErrorV1,
>)
    ensures
        r == spec_evaluate_recall(requirements@, selected@),
{
    let mut numerator: u64 = 0;
    let mut denominator: u64 = 0;
    let mut satisfied: u64 = 0;
    let mut k: usize = 0;
    while k < requirements.len()
        invariant
            k <= requirements.len(),
            recall_prefix(requirements@, selected@, k as int) == Ok::<
                (u64, u64, u64),
                CostMatchedStressErrorV1,
            >((numerator, denominator, satisfied)),
        decreases requirements.len() - k,
    {
        let weight = requirements[k].weight as u64;
        denominator = match denominator.checked_add(weight) {
            None => {
                proof {
                    lemma_recall_prefix_err_extends(requirements@, selected@, k + 1, requirements.len() as int);
                }
                return Err(CostMatchedStressErrorV1::ArithmeticOverflow);
            },
            Some(v) => v,
        };
        if requirement_is_satisfied(&requirements[k], selected) {
            numerator = match numerator.checked_add(weight) {
                None => {
                    proof {
                        lemma_recall_prefix_err_extends(requirements@, selected@, k + 1, requirements.len() as int);
                    }
                    return Err(CostMatchedStressErrorV1::ArithmeticOverflow);
                },
                Some(v) => v,
            };
            satisfied = match satisfied.checked_add(1) {
                None => {
                    proof {
                        lemma_recall_prefix_err_extends(requirements@, selected@, k + 1, requirements.len() as int);
                    }
                    return Err(CostMatchedStressErrorV1::ArithmeticOverflow);
                },
                Some(v) => v,
            };
        }
        k = k + 1;
    }
    Ok(
        CostMatchedStressRecallV1 {
            numerator,
            denominator,
            satisfied_requirement_count: satisfied,
            requirement_count: requirements.len() as u64,
        },
    )
}

/// Challenger recall against production recall, compared exactly by cross
/// multiplication of the two weight ratios.
pub open spec fn spec_compare_recall(
    challenger: CostMatchedStressRecallV1,
    production: CostMatchedStressRecallV1,
) -> CostMatchedRecallRelationV1 {
    let left = challenger.numerator * production.denominator;
    let right = production.numerator * challenger.denominator;
    if left > right {
        CostMatchedRecallRelationV1::ChallengerBetter
    } else if left == right {
        CostMatchedRecallRelationV1::Equal
    } else {
        CostMatchedRecallRelationV1::ChallengerWorse
    }
}

pub fn compare_recall(challenger: CostMatchedStressRecallV1, production: CostMatchedStressRecallV1) -> (r:
    CostMatchedRecallRelationV1)
    ensures
        r == spec_compare_recall(challenger, production),
{
    let a: u128 = challenger.numerator as u128;
    let b: u128 = production.denominator as u128;
    let c: u128 = production.numerator as u128;
    let d: u128 = challenger.denominator as u128;
    proof {
        assert(a * b <= 0xffff_ffff_ffff_ffffu128 * 0xffff_ffff_ffff_ffffu128) by (nonlinear_arith)
            requires
                a <= 0xffff_ffff_ffff_ffffu128,
                b <= 0xffff_ffff_ffff_ffffu128,
        ;
        assert(c * d <= 0xffff_ffff_ffff_ffffu128 * 0xffff_ffff_ffff_ffffu128) by (nonlinear_arith)
            requires
                c <= 0xffff_ffff_ffff_ffffu128,
                d <= 0xffff_ffff_ffff_ffffu128,
        ;
    }
    let left = a * b;
    let right = c * d;
    if left > right {
        CostMatchedRecallRelationV1::ChallengerBetter
    } else if left == right {
        CostMatchedRecallRelationV1::Equal
    } else {
        CostMatchedRecallRelationV1::ChallengerWorse
    }
}

/// Every event a requirement names is in the case's event universe.
pub open spec fn requirements_known(
    universe: Seq<EventId>,
    requirements: Seq<CostMatchedStressRequirementV1>,
) -> bool {
    forall|k: int, a: int, q: int|
        0 <= k < requirements.len() && 0 <= a < requirements[k].alternatives.len() && 0 <= q
            < requirements[k].alternatives@[a].len() ==> universe.contains(
            #[trigger] requirements[k].alternatives@[a]@[q],
        )
}

pub fn validate_requirement_events(
    public_case: &FrozenCostMatchedStressCaseV1,
    requirements: &Vec<CostMatchedStressRequirementV1>,
) -> (r: Result<(), CostMatchedStressErrorV1>)
    ensures
        r is Ok <==> requirements_known(public_case.event_universe@, requirements@),
        r matches Err(e) ==> e == CostMatchedStressErrorV1::RequirementUnknownEvent,
{
    let mut k: usize = 0;
    while k < requirements.len()
        invariant
            k <= requirements.len(),
            forall|k2: int, a: int, q: int|
                0 <= k2 < k && 0 <= a < requirements@[k2].alternatives.len() && 0 <= q
                    < requirements@[k2].alternatives@[a].len() ==> public_case.event_universe@.contains(
                    #[trigger] requirements@[k2].alternatives@[a]@[q],
                ),
        decreases requirements.len() - k,
    {
        let mut a: usize = 0;
        while a < requirements[k].alternatives.len()
            invariant
                a <= requirements@[k as int].alternatives.len(),
                k < requirements.len(),
                forall|k2: int, a2: int, q: int|
                    0 <= k2 < k && 0 <= a2 < requirements@[k2].alternatives.len() && 0 <= q
                        < requirements@[k2].alternatives@[a2].len() ==> public_case.event_universe@.contains(
                        #[trigger] requirements@[k2].alternatives@[a2]@[q],
                    ),
                forall|a2: int, q: int|
                    0 <= a2 < a && 0 <= q < requirements@[k as int].alternatives@[a2].len()
                        ==> public_case.event_universe@.contains(
                        #[trigger] requirements@[k as int].alternatives@[a2]@[q],
                    ),
            decreases requirements@[k as int].alternatives.len() - a,
        {
            let mut q: usize = 0;
            while q < requirements[k].alternatives[a].len()
                invariant
                    k < requirements.len(),
                    a < requirements@[k as int].alternatives.len(),
                    q <= requirements@[k as int].alternatives@[a as int].len(),
                    forall|q2: int|
                        0 <= q2 < q ==> public_case.event_universe@.contains(
                            #[trigger] requirements@[k as int].alternatives@[a as int]@[q2],
                        ),
                decreases requirements@[k as int].alternatives@[a as int].len() - q,
            {
                if !event_selected(public_case.event_universe.as_slice(), requirements[k].alternatives[a][q]) {
                    return Err(CostMatchedStressErrorV1::RequirementUnknownEvent);
                }
                q = q + 1;
            }
            a = a + 1;
        }
        k = k + 1;
    }
    Ok(())
}

/// Domain separator of the governed report digest.
pub const GOVERNED_CORPUS_DOMAIN_V1: &'static str = "evidentrail/bench/governed-cost-matched-selector-stress/v1\0";

/// The governed result of one case: recall of production, challenger and
/// the exact program's optimum, and how challenger recall compares.
#[derive(Clone, Copy, Debug)]
pub struct GovernedCostMatchedStressCaseV1 {
    pub case: CostMatchedStressCaseV1,
    pub public_case_digest: FrozenCostMatchedStressDigestV1,
    pub production_recall: CostMatchedStressRecallV1,
    pub challenger_recall: CostMatchedStressRecallV1,
    pub exact_dp_recall: Option<CostMatchedStressRecallV1>,
    pub recall_relation: CostMatchedRecallRelationV1,
    pub deterministic_weak_dominance: bool,
}

impl GovernedCostMatchedStressCaseV1 {
    pub fn case(&self) -> (r: CostMatchedStressCaseV1)
        ensures
            r == self.case,
    {
        self.case
    }

    pub fn production_recall(&self) -> (r: CostMatchedStressRecallV1)
        ensures
            r == self.production_recall,
    {
        self.production_recall
    }

    pub fn challenger_recall(&self) -> (r: CostMatchedStressRecallV1)
        ensures
            r == self.challenger_recall,
    {
        self.challenger_recall
    }

    pub fn exact_dp_recall(&self) -> (r: Option<CostMatchedStressRecallV1>)
        ensures
            r == self.exact_dp_recall,
    {
        self.exact_dp_recall
    }

    pub fn recall_relation(&self) -> (r: CostMatchedRecallRelationV1)
        ensures
            r == self.recall_relation,
    {
        self.recall_relation
    }

    pub fn deterministic_weak_dominance(&self) -> (r: bool)
        ensures
            r == self.deterministic_weak_dominance,
    {
        self.deterministic_weak_dominance
    }
}

/// The governed report over the whole corpus, in case order, with counts.
#[derive(Debug)]
pub struct GovernedCostMatchedStressCorpusV1 {
    pub digest: FrozenCostMatchedStressDigestV1,
    pub public_corpus_digest: FrozenCostMatchedStressDigestV1,
    pub cases: Vec<GovernedCostMatchedStressCaseV1>,
    pub recall_better_count: u64,
    pub recall_equal_count: u64,
    pub recall_worse_count: u64,
    pub deterministic_weak_dominance_count: u64,
}

impl GovernedCostMatchedStressCorpusV1 {
    pub fn digest(&self) -> (r: FrozenCostMatchedStressDigestV1)
        ensures
            r == self.digest,
    {
        self.digest
    }

    pub fn public_corpus_digest(&self) -> (r: FrozenCostMatchedStressDigestV1)
        ensures
            r == self.public_corpus_digest,
    {
        self.public_corpus_digest
    }

    pub fn cases(&self) -> (r: &[GovernedCostMatchedStressCaseV1])
        ensures
            r@ == self.cases@,
    {
        self.cases.as_slice()
    }

    /// The governed case with this identity; the report holds every case.
    pub fn case(&self, case: CostMatchedStressCaseV1) -> (r: &GovernedCostMatchedStressCaseV1)
        requires
            exists|q: int| 0 <= q < self.cases.len() && self.cases@[q].case == case,
        ensures
            r.case == case,
            exists|q: int| 0 <= q < self.cases.len() && self.cases@[q] == *r,
    {
        let mut i: usize = 0;
        while i < self.cases.len()
            invariant
                i <= self.cases.len(),
                forall|q: int| 0 <= q < i ==> self.cases@[q].case != case,
                exists|q: int| 0 <= q < self.cases.len() && self.cases@[q].case == case,
            decreases self.cases.len() - i,
        {
            if self.cases[i].case == case {
                return &self.cases[i];
            }
            i = i + 1;
        }
        proof {
            assert(false);
        }
        &self.cases[0]
    }

    pub fn recall_better_count(&self) -> (r: u64)
        ensures
            r == self.recall_better_count,
    {
        self.recall_better_count
    }

    pub fn recall_equal_count(&self) -> (r: u64)
        ensures
            r == self.recall_equal_count,
    {
        self.recall_equal_count
    }

    pub fn recall_worse_count(&self) -> (r: u64)
        ensures
            r == self.recall_worse_count,
    {
        self.recall_worse_count
    }

    pub fn deterministic_weak_dominance_count(&self) -> (r: u64)
        ensures
            r == self.deterministic_weak_dominance_count,
    {
        self.deterministic_weak_dominance_count
    }

    /// The report never admits the challenger into production.
    pub fn production_promotion_eligible(&self) -> (r: bool)
        ensures
            !r,
    {
        false
    }

    /// The report makes no wall-time or memory claim.
    pub fn claims_measured_wall_time_or_peak_rss(&self) -> (r: bool)
        ensures
            !r,
    {
        false
    }

    /// The report claims nothing about a population.
    pub fn claims_population_quality(&self) -> (r: bool)
        ensures
            !r,
    {
        false
    }
}

/// The governed result of one annotation against its public case.
pub open spec fn spec_governed_case(
    public: FrozenCostMatchedStressCorpusV1,
    annotation: CostMatchedStressGovernedAnnotationV1,
) -> Result<GovernedCostMatchedStressCaseV1, CostMatchedStressErrorV1> {
    let pc = public.cases@[first_case_index(public.cases@, annotation.case, 0)];
    let requirements = annotation.requirements@;
    if annotation.public_case_digest.0@ != pc.digest.0@ {
        Err(CostMatchedStressErrorV1::CaseBindingMismatch)
    } else if !requirements_known(pc.event_universe@, requirements) {
        Err(CostMatchedStressErrorV1::RequirementUnknownEvent)
    } else {
        match spec_evaluate_recall(requirements, pc.production.selected_event_ids@) {
            Err(e) => Err(e),
            Ok(production) => match spec_evaluate_recall(requirements, pc.challenger.selected_event_ids@) {
                Err(e) => Err(e),
                Ok(challenger) => {
                    let exact = match pc.structured_dp {
                        StructuredDpOutcomeV1::Exact { optimum, .. } => Some(
                            spec_evaluate_recall(requirements, optimum.selected_event_ids@),
                        ),
                        StructuredDpOutcomeV1::Ineligible { .. } => None,
                    };
                    if exact matches Some(Err(e)) {
                        Err(exact->Some_0->Err_0)
                    } else {
                        let relation = spec_compare_recall(challenger, production);
                        Ok(
                            GovernedCostMatchedStressCaseV1 {
                                case: annotation.case,
                                public_case_digest: pc.digest,
                                production_recall: production,
                                challenger_recall: challenger,
                                exact_dp_recall: match exact {
                                    Some(Ok(x)) => Some(x),
                                    _ => None,
                                },
                                recall_relation: relation,
                                deterministic_weak_dominance: relation
                                    != CostMatchedRecallRelationV1::ChallengerWorse,
                            },
                        )
                    }
                },
            },
        }
    }
}

/// An earlier annotation among the first `n` names the case.
pub open spec fn case_seen(annotations: Seq<CostMatchedStressGovernedAnnotationV1>, case: CostMatchedStressCaseV1, n: int) -> bool {
    exists|i: int| 0 <= i < n && annotations[i].case == case
}

/// The governed results of the first `k` annotations, in annotation order;
/// an annotation bound to another corpus or repeating a case is refused.
pub open spec fn governed_cases_prefix(
    public: FrozenCostMatchedStressCorpusV1,
    annotations: Seq<CostMatchedStressGovernedAnnotationV1>,
    k: int,
) -> Result<Seq<GovernedCostMatchedStressCaseV1>, CostMatchedStressErrorV1>
    decreases k,
{
    if k <= 0 {
        Ok(Seq::empty())
    } else {
        match governed_cases_prefix(public, annotations, k - 1) {
            Err(e) => Err(e),
            Ok(done) => {
                let a = annotations[k - 1];
                if a.public_corpus_digest.0@ != public.digest.0@ || case_seen(annotations, a.case, k - 1) {
                    Err(CostMatchedStressErrorV1::CaseSetMismatch)
                } else {
                    match spec_governed_case(public, a) {
                        Err(e) => Err(e),
                        Ok(c) => Ok(done.push(c)),
                    }
                }
            },
        }
    }
}

/// First result from `i` on whose case has the given rank.
pub open spec fn rank_index(results: Seq<GovernedCostMatchedStressCaseV1>, rank: int, i: int) -> int
    decreases results.len() - i,
{
    if i < 0 || i >= results.len() {
        results.len() as int
    } else if results[i].case.spec_rank() == rank {
        i
    } else {
        rank_index(results, rank, i + 1)
    }
}

proof fn lemma_rank_index(results: Seq<GovernedCostMatchedStressCaseV1>, rank: int, i: int)
    requires
        0 <= i <= results.len(),
    ensures
        i <= rank_index(results, rank, i) <= results.len(),
        rank_index(results, rank, i) < results.len() ==> results[rank_index(results, rank, i)].case.spec_rank()
            == rank,
    decreases results.len() - i,
{
    if i < results.len() && results[i].case.spec_rank() != rank {
        lemma_rank_index(results, rank, i + 1);
    }
}

/// Every case of the closed list has a result.
pub open spec fn every_case_present(results: Seq<GovernedCostMatchedStressCaseV1>) -> bool {
    forall|rank: int| 0 <= rank < COST_MATCHED_STRESS_CASE_COUNT_V1 ==> #[trigger] rank_index(results, rank, 0) < results.len()
}

/// The results in the closed case order.
pub open spec fn rank_ordered(results: Seq<GovernedCostMatchedStressCaseV1>) -> Seq<GovernedCostMatchedStressCaseV1> {
    Seq::new(COST_MATCHED_STRESS_CASE_COUNT_V1 as nat, |rank: int| results[rank_index(results, rank, 0)])
}

pub open spec fn count_relation(cases: Seq<GovernedCostMatchedStressCaseV1>, relation: CostMatchedRecallRelationV1, k: int) -> nat
    decreases k,
{
    if k <= 0 {
        0
    } else {
        count_relation(cases, relation, k - 1) + if cases[k - 1].recall_relation == relation {
            1nat
        } else {
            0nat
        }
    }
}

pub open spec fn count_dominance(cases: Seq<GovernedCostMatchedStressCaseV1>, k: int) -> nat
    decreases k,
{
    if k <= 0 {
        0
    } else {
        count_dominance(cases, k - 1) + if cases[k - 1].deterministic_weak_dominance {
            1nat
        } else {
            0nat
        }
    }
}

pub open spec fn relation_code(relation: CostMatchedRecallRelationV1) -> u8 {
    match relation {
        CostMatchedRecallRelationV1::ChallengerBetter => 0,
        CostMatchedRecallRelationV1::Equal => 1,
        CostMatchedRecallRelationV1::ChallengerWorse => 2,
    }
}

pub open spec fn recall_bytes(recall: CostMatchedStressRecallV1) -> Seq<u8> {
    u64_le(recall.numerator) + u64_le(recall.denominator) + u64_le(recall.satisfied_requirement_count)
        + u64_le(recall.requirement_count)
}

/// The committed bytes of one governed case.
pub open spec fn governed_case_bytes(c: GovernedCostMatchedStressCaseV1) -> Seq<u8> {
    framed(c.public_case_digest.0@) + framed(encode_utf8(c.case.spec_code())) + recall_bytes(c.production_recall)
        + recall_bytes(c.challenger_recall) + match c.exact_dp_recall {
        Some(r) => seq![1u8] + recall_bytes(r),
        None => seq![0u8],
    } + seq![relation_code(c.recall_relation)] + seq![if c.deterministic_weak_dominance {
        1u8
    } else {
        0u8
    }]
}

pub open spec fn governed_cases_bytes(cases: Seq<GovernedCostMatchedStressCaseV1>, k: int) -> Seq<u8>
    decreases k,
{
    if k <= 0 {
        Seq::empty()
    } else {
        governed_cases_bytes(cases, k - 1) + governed_case_bytes(cases[k - 1])
    }
}

/// The message the governed report digest commits to.
pub open spec fn governed_message(
    public_digest: Seq<u8>,
    cases: Seq<GovernedCostMatchedStressCaseV1>,
    better: u64,
    equal: u64,
    worse: u64,
    dominance: u64,
) -> Seq<u8> {
    framed(encode_utf8(GOVERNED_CORPUS_DOMAIN_V1@)) + framed(public_digest) + u64_le(cases.len() as u64)
        + governed_cases_bytes(cases, cases.len() as int) + u64_le(better) + u64_le(equal) + u64_le(worse)
        + u64_le(dominance)
}

pub fn governed_case(
    public: &FrozenCostMatchedStressCorpusV1,
    annotation: &CostMatchedStressGovernedAnnotationV1,
) -> (r: Result<GovernedCostMatchedStressCaseV1, CostMatchedStressErrorV1>)
    requires
        corpus_has_case(public.cases@, annotation.case),
    ensures
        r == spec_governed_case(*public, *annotation),
{
    let pc = public.case(annotation.case);
    if !crate::digest::bytes32_eq(&annotation.public_case_digest.0, &pc.digest.0) {
        return Err(CostMatchedStressErrorV1::CaseBindingMismatch);
    }
    match validate_requirement_events(pc, &annotation.requirements) {
        Err(e) => {
            return Err(e);
        },
        Ok(()) => {},
    }
    let production = match evaluate_recall(&annotation.requirements, pc.production.selected_event_ids.as_slice()) {
        Err(e) => {
            return Err(e);
        },
        Ok(v) => v,
    };
    let challenger = match evaluate_recall(&annotation.requirements, pc.challenger.selected_event_ids.as_slice()) {
        Err(e) => {
            return Err(e);
        },
        Ok(v) => v,
    };
    let exact_dp_recall = match &pc.structured_dp {
        StructuredDpOutcomeV1::Exact { optimum, .. } => match evaluate_recall(
            &annotation.requirements,
            optimum.selected_event_ids.as_slice(),
        ) {
            Err(e) => {
                return Err(e);
            },
            Ok(v) => Some(v),
        },
        StructuredDpOutcomeV1::Ineligible { .. } => None,
    };
    let relation = compare_recall(challenger, production);
    Ok(
        GovernedCostMatchedStressCaseV1 {
            case: annotation.case,
            public_case_digest: pc.digest,
            production_recall: production,
            challenger_recall: challenger,
            exact_dp_recall,
            recall_relation: relation,
            deterministic_weak_dominance: relation != CostMatchedRecallRelationV1::ChallengerWorse,
        },
    )
}

proof fn lemma_governed_prefix_err_extends(
    public: FrozenCostMatchedStressCorpusV1,
    annotations: Seq<CostMatchedStressGovernedAnnotationV1>,
    k: int,
    n: int,
)
    requires
        0 <= k <= n,
        governed_cases_prefix(public, annotations, k) is Err,
    ensures
        governed_cases_prefix(public, annotations, n) == governed_cases_prefix(public, annotations, k),
    decreases n - k,
{
    if k < n {
        lemma_governed_prefix_err_extends(public, annotations, k, n - 1);
    }
}

/// The governed report an evaluation owes: the first refused annotation's
/// error, a case-set error when some case has no annotation, or the results
/// in case order with their counts and digest.
pub open spec fn governed_report(
    public: FrozenCostMatchedStressCorpusV1,
    annotations: Seq<CostMatchedStressGovernedAnnotationV1>,
    r: Result<GovernedCostMatchedStressCorpusV1, CostMatchedStressErrorV1>,
) -> bool {
    match governed_cases_prefix(public, annotations, annotations.len() as int) {
        Err(e) => r is Err && r->Err_0 == e,
        Ok(results) => if !every_case_present(results) {
            r is Err && r->Err_0 == CostMatchedStressErrorV1::CaseSetMismatch
        } else {
            let ordered = rank_ordered(results);
            let n = COST_MATCHED_STRESS_CASE_COUNT_V1 as int;
            let better = count_relation(ordered, CostMatchedRecallRelationV1::ChallengerBetter, n);
            let equal = count_relation(ordered, CostMatchedRecallRelationV1::Equal, n);
            let worse = n - better - equal;
            let dominance = count_dominance(ordered, n);
            &&& r matches Ok(g)
            &&& g.cases@ == ordered
            &&& g.public_corpus_digest == public.digest
            &&& g.recall_better_count == better
            &&& g.recall_equal_count == equal
            &&& g.recall_worse_count == worse
            &&& g.deterministic_weak_dominance_count == dominance
            &&& g.digest.0@ == sha256_spec(
                governed_message(
                    public.digest.0@,
                    ordered,
                    better as u64,
                    equal as u64,
                    worse as u64,
                    dominance as u64,
                ),
            )
        },
    }
}

proof fn lemma_counts_bound(cases: Seq<GovernedCostMatchedStressCaseV1>, k: int)
    requires
        0 <= k <= cases.len(),
    ensures
        count_relation(cases, CostMatchedRecallRelationV1::ChallengerBetter, k) + count_relation(
            cases,
            CostMatchedRecallRelationV1::Equal,
            k,
        ) <= k,
        count_dominance(cases, k) <= k,
    decreases k,
{
    if k > 0 {
        lemma_counts_bound(cases, k - 1);
    }
}

pub fn push_digest_field(buf: &mut Vec<u8>, d: &[u8; 32])
    ensures
        final(buf)@ == old(buf)@ + framed(d@),
{
    let mut bytes: Vec<u8> = Vec::new();
    let mut i: usize = 0;
    while i < 32
        invariant
            i <= 32,
            d@.len() == 32,
            bytes@ == d@.subrange(0, i as int),
        decreases 32 - i,
    {
        bytes.push(d[i]);
        i = i + 1;
        proof {
            assert(bytes@ =~= d@.subrange(0, i as int));
        }
    }
    proof {
        assert(bytes@ =~= d@);
    }
    push_field(buf, bytes.as_slice());
}

fn push_recall(buf: &mut Vec<u8>, recall: CostMatchedStressRecallV1)
    ensures
        final(buf)@ == old(buf)@ + recall_bytes(recall),
{
    push_u64_le(buf, recall.numerator);
    push_u64_le(buf, recall.denominator);
    push_u64_le(buf, recall.satisfied_requirement_count);
    push_u64_le(buf, recall.requirement_count);
    proof {
        assert(buf@ =~= old(buf)@ + recall_bytes(recall));
    }
}

#[verifier::rlimit(30)]
fn push_governed_case(buf: &mut Vec<u8>, c: &GovernedCostMatchedStressCaseV1)
    ensures
        final(buf)@ == old(buf)@ + governed_case_bytes(*c),
{
    push_digest_field(buf, &c.public_case_digest.0);
    push_field(buf, c.case.code().as_bytes());
    push_recall(buf, c.production_recall);
    push_recall(buf, c.challenger_recall);
    match c.exact_dp_recall {
        Some(r) => {
            buf.push(1u8);
            push_recall(buf, r);
        },
        None => {
            buf.push(0u8);
        },
    }
    let code: u8 = match c.recall_relation {
        CostMatchedRecallRelationV1::ChallengerBetter => 0,
        CostMatchedRecallRelationV1::Equal => 1,
        CostMatchedRecallRelationV1::ChallengerWorse => 2,
    };
    buf.push(code);
    buf.push(if c.deterministic_weak_dominance {
        1u8
    } else {
        0u8
    });
    proof {
        assert(buf@ =~= old(buf)@ + governed_case_bytes(*c));
    }
}

pub fn evaluate_governed_cost_matched_selector_stress_v1(
    public: &FrozenCostMatchedStressCorpusV1,
    annotations: Vec<CostMatchedStressGovernedAnnotationV1>,
) -> (r: Result<GovernedCostMatchedStressCorpusV1, CostMatchedStressErrorV1>)
    requires
        forall|c: CostMatchedStressCaseV1| corpus_has_case(public.cases@, c),
    ensures
        governed_report(*public, annotations@, r),
{
    let mut results: Vec<GovernedCostMatchedStressCaseV1> = Vec::new();
    let mut k: usize = 0;
    while k < annotations.len()
        invariant
            k <= annotations.len(),
            forall|c: CostMatchedStressCaseV1| corpus_has_case(public.cases@, c),
            governed_cases_prefix(*public, annotations@, k as int) == Ok::<
                Seq<GovernedCostMatchedStressCaseV1>,
                CostMatchedStressErrorV1,
            >(results@),
        decreases annotations.len() - k,
    {
        let a = &annotations[k];
        let mut seen = false;
        let mut q: usize = 0;
        while q < k
            invariant
                q <= k,
                k < annotations.len(),
                seen == case_seen(annotations@, annotations@[k as int].case, q as int),
                *a == annotations@[k as int],
            decreases k - q,
        {
            let ghost target = annotations@[k as int].case;
            if annotations[q].case == a.case {
                seen = true;
                proof {
                    assert(annotations@[q as int].case == target);
                    assert(case_seen(annotations@, target, q + 1));
                }
            } else {
                proof {
                    if case_seen(annotations@, target, q + 1) {
                        let w = choose|w: int| 0 <= w < q + 1 && annotations@[w].case == target;
                        assert(w < q);
                        assert(case_seen(annotations@, target, q as int));
                    }
                }
            }
            q = q + 1;
        }
        if !crate::digest::bytes32_eq(&a.public_corpus_digest.0, &public.digest.0) || seen {
            proof {
                lemma_governed_prefix_err_extends(*public, annotations@, k + 1, annotations.len() as int);
            }
            return Err(CostMatchedStressErrorV1::CaseSetMismatch);
        }
        match governed_case(public, a) {
            Err(e) => {
                proof {
                    lemma_governed_prefix_err_extends(*public, annotations@, k + 1, annotations.len() as int);
                }
                return Err(e);
            },
            Ok(c) => {
                results.push(c);
            },
        }
        k = k + 1;
    }
    let mut ordered: Vec<GovernedCostMatchedStressCaseV1> = Vec::new();
    let mut rank: usize = 0;
    while rank < COST_MATCHED_STRESS_CASE_COUNT_V1
        invariant
            rank <= COST_MATCHED_STRESS_CASE_COUNT_V1,
            governed_cases_prefix(*public, annotations@, annotations.len() as int) == Ok::<
                Seq<GovernedCostMatchedStressCaseV1>,
                CostMatchedStressErrorV1,
            >(results@),
            ordered@.len() == rank,
            forall|q: int| 0 <= q < rank ==> #[trigger] rank_index(results@, q, 0) < results.len(),
            forall|q: int| 0 <= q < rank ==> ordered@[q] == results@[rank_index(results@, q, 0)],
        decreases COST_MATCHED_STRESS_CASE_COUNT_V1 - rank,
    {
        let mut i: usize = 0;
        proof {
            lemma_rank_index(results@, rank as int, 0);
        }
        while i < results.len() && results[i].case.rank() != rank
            invariant
                i <= results.len(),
                rank_index(results@, rank as int, 0) == rank_index(results@, rank as int, i as int),
            decreases results.len() - i,
        {
            i = i + 1;
        }
        if i == results.len() {
            proof {
                assert(!every_case_present(results@));
            }
            return Err(CostMatchedStressErrorV1::CaseSetMismatch);
        }
        ordered.push(results[i]);
        rank = rank + 1;
    }
    proof {
        assert(ordered@ =~= rank_ordered(results@));
    }
    let ghost n = COST_MATCHED_STRESS_CASE_COUNT_V1 as int;
    let mut better: u64 = 0;
    let mut equal: u64 = 0;
    let mut dominance: u64 = 0;
    let mut j: usize = 0;
    while j < ordered.len()
        invariant
            j <= ordered.len(),
            ordered.len() == COST_MATCHED_STRESS_CASE_COUNT_V1,
            ordered@ == rank_ordered(results@),
            every_case_present(results@),
            governed_cases_prefix(*public, annotations@, annotations.len() as int) == Ok::<
                Seq<GovernedCostMatchedStressCaseV1>,
                CostMatchedStressErrorV1,
            >(results@),
            better == count_relation(ordered@, CostMatchedRecallRelationV1::ChallengerBetter, j as int),
            equal == count_relation(ordered@, CostMatchedRecallRelationV1::Equal, j as int),
            dominance == count_dominance(ordered@, j as int),
        decreases ordered.len() - j,
    {
        proof {
            lemma_counts_bound(ordered@, j as int);
        }
        if ordered[j].recall_relation == CostMatchedRecallRelationV1::ChallengerBetter {
            better = better + 1;
        }
        if ordered[j].recall_relation == CostMatchedRecallRelationV1::Equal {
            equal = equal + 1;
        }
        if ordered[j].deterministic_weak_dominance {
            dominance = dominance + 1;
        }
        j = j + 1;
    }
    proof {
        lemma_counts_bound(ordered@, n);
    }
    let worse: u64 = 8 - better - equal;
    let mut message: Vec<u8> = Vec::new();
    push_field(&mut message, GOVERNED_CORPUS_DOMAIN_V1.as_bytes());
    push_digest_field(&mut message, &public.digest.0);
    push_u64_le(&mut message, ordered.len() as u64);
    let ghost header = message@;
    let mut c: usize = 0;
    while c < ordered.len()
        invariant
            c <= ordered.len(),
            message@ == header + governed_cases_bytes(ordered@, c as int),
            ordered@ == rank_ordered(results@),
            every_case_present(results@),
            better == count_relation(ordered@, CostMatchedRecallRelationV1::ChallengerBetter, 8),
            equal == count_relation(ordered@, CostMatchedRecallRelationV1::Equal, 8),
            dominance == count_dominance(ordered@, 8),
            worse == 8 - better - equal,
            governed_cases_prefix(*public, annotations@, annotations.len() as int) == Ok::<
                Seq<GovernedCostMatchedStressCaseV1>,
                CostMatchedStressErrorV1,
            >(results@),

        decreases ordered.len() - c,
    {
        push_governed_case(&mut message, &ordered[c]);
        c = c + 1;
        proof {
            assert(message@ =~= header + governed_cases_bytes(ordered@, c as int));
        }
    }
    push_u64_le(&mut message, better);
    push_u64_le(&mut message, equal);
    push_u64_le(&mut message, worse);
    push_u64_le(&mut message, dominance);
    proof {
        assert(message@ =~= governed_message(public.digest.0@, ordered@, better, equal, worse, dominance));
    }
    let digest = FrozenCostMatchedStressDigestV1(sha256(message.as_slice()));
    Ok(
        GovernedCostMatchedStressCorpusV1 {
            digest,
            public_corpus_digest: public.digest,
            cases: ordered,
            recall_better_count: better,
            recall_equal_count: equal,
            recall_worse_count: worse,
            deterministic_weak_dominance_count: dominance,
        },
    )
}

} // verus!
