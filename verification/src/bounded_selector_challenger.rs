//! The evaluation-only bounded challenger for the production selector: plan
//! and outcome records, relations between production and challenger, hard
//! constraint checks, and the closed order-aware beam over optional packets.

use vstd::prelude::*;
use vstd::utf8::encode_utf8;
use crate::sha256::{framed, push_field, push_u64_le, sha256, sha256_spec, u64_le};

verus! {

/// States kept per beam depth.
pub const BOUNDED_SELECTOR_CHALLENGER_BEAM_WIDTH_V1: usize = 64;

/// Deepest acceptance order the beam explores.
pub const BOUNDED_SELECTOR_CHALLENGER_MAX_DEPTH_V1: usize = 64;

/// Closed cap on attempted beam transitions.
pub const BOUNDED_SELECTOR_CHALLENGER_TRANSITION_CAP_V1: u64 = 131_072;

/// Largest optional universe the exact subset oracle answers.
pub const MAX_EXACT_SELECTION_ORACLE_OPTIONAL_PACKETS_V1: usize = 12;

pub const BOUNDED_SELECTOR_CHALLENGER_DOMAIN_V1: &'static str = "evidentrail/bench/bounded-selector-challenger/v1\0";
pub const BOUNDED_SELECTOR_CHALLENGER_POLICY_NAME_V1: &'static str =
    "evidentrail/bench/exact12-order-aware-beam-production-fallback";
pub const BOUNDED_SELECTOR_CHALLENGER_POLICY_VERSION_V1: &'static str = "1";

/// The committed identity of the challenger policy.
#[derive(Clone, Copy)]
pub struct BoundedSelectorChallengerIdentityV1 {
    pub digest: crate::digest::ArtifactDigest,
}

impl BoundedSelectorChallengerIdentityV1 {
    pub fn digest(self) -> (r: crate::digest::ArtifactDigest)
        ensures
            r == self.digest,
    {
        self.digest
    }

    pub fn policy_name(self) -> (r: &'static str)
        ensures
            r@ == BOUNDED_SELECTOR_CHALLENGER_POLICY_NAME_V1@,
    {
        BOUNDED_SELECTOR_CHALLENGER_POLICY_NAME_V1
    }

    pub fn policy_version(self) -> (r: &'static str)
        ensures
            r@ == BOUNDED_SELECTOR_CHALLENGER_POLICY_VERSION_V1@,
    {
        BOUNDED_SELECTOR_CHALLENGER_POLICY_VERSION_V1
    }
}

/// The committed bytes of the challenger identity: the domain, the policy
/// name and version, the exact-oracle policy name and version, the selection
/// objective policy name and version (each framed by its little-endian
/// length), then the exact cap, beam width, depth cap and transition cap as
/// little-endian `u64`s.
pub open spec fn challenger_identity_message(
    exact_oracle_policy_name: Seq<u8>,
    exact_oracle_policy_version: Seq<u8>,
    objective_policy_name: Seq<u8>,
    objective_policy_version: Seq<u8>,
) -> Seq<u8> {
    framed(encode_utf8(BOUNDED_SELECTOR_CHALLENGER_DOMAIN_V1@)) + framed(
        encode_utf8(BOUNDED_SELECTOR_CHALLENGER_POLICY_NAME_V1@),
    ) + framed(encode_utf8(BOUNDED_SELECTOR_CHALLENGER_POLICY_VERSION_V1@)) + framed(
        exact_oracle_policy_name,
    ) + framed(exact_oracle_policy_version) + framed(objective_policy_name) + framed(
        objective_policy_version,
    ) + u64_le(MAX_EXACT_SELECTION_ORACLE_OPTIONAL_PACKETS_V1 as u64) + u64_le(
        BOUNDED_SELECTOR_CHALLENGER_BEAM_WIDTH_V1 as u64,
    ) + u64_le(BOUNDED_SELECTOR_CHALLENGER_MAX_DEPTH_V1 as u64) + u64_le(
        BOUNDED_SELECTOR_CHALLENGER_TRANSITION_CAP_V1,
    )
}

/// The challenger identity, committing to its policy and closed bounds. The
/// exact-oracle and selection-objective policy names and versions belong to
/// the oracle and the objective, and are handed in.
pub fn bounded_selector_challenger_identity_v1(
    exact_oracle_policy_name: &[u8],
    exact_oracle_policy_version: &[u8],
    objective_policy_name: &[u8],
    objective_policy_version: &[u8],
) -> (r: BoundedSelectorChallengerIdentityV1)
    ensures
        r.digest.0@ == sha256_spec(
            challenger_identity_message(
                exact_oracle_policy_name@,
                exact_oracle_policy_version@,
                objective_policy_name@,
                objective_policy_version@,
            ),
        ),
{
    let mut message: Vec<u8> = Vec::new();
    push_field(&mut message, BOUNDED_SELECTOR_CHALLENGER_DOMAIN_V1.as_bytes());
    push_field(&mut message, BOUNDED_SELECTOR_CHALLENGER_POLICY_NAME_V1.as_bytes());
    push_field(&mut message, BOUNDED_SELECTOR_CHALLENGER_POLICY_VERSION_V1.as_bytes());
    push_field(&mut message, exact_oracle_policy_name);
    push_field(&mut message, exact_oracle_policy_version);
    push_field(&mut message, objective_policy_name);
    push_field(&mut message, objective_policy_version);
    push_u64_le(&mut message, MAX_EXACT_SELECTION_ORACLE_OPTIONAL_PACKETS_V1 as u64);
    push_u64_le(&mut message, BOUNDED_SELECTOR_CHALLENGER_BEAM_WIDTH_V1 as u64);
    push_u64_le(&mut message, BOUNDED_SELECTOR_CHALLENGER_MAX_DEPTH_V1 as u64);
    push_u64_le(&mut message, BOUNDED_SELECTOR_CHALLENGER_TRANSITION_CAP_V1);
    proof {
        assert(message@ =~= challenger_identity_message(
            exact_oracle_policy_name@,
            exact_oracle_policy_version@,
            objective_policy_name@,
            objective_policy_version@,
        ));
    }
    BoundedSelectorChallengerIdentityV1 { digest: crate::digest::ArtifactDigest(sha256(message.as_slice())) }
}

/// Lexicographic three-way comparison of byte strings: -1, 0 or 1.
pub open spec fn bytes_order(a: Seq<u8>, b: Seq<u8>) -> int
    decreases a.len(),
{
    if a.len() == 0 {
        if b.len() == 0 {
            0
        } else {
            -1
        }
    } else if b.len() == 0 {
        1
    } else if a[0] < b[0] {
        -1
    } else if a[0] > b[0] {
        1
    } else {
        bytes_order(a.drop_first(), b.drop_first())
    }
}

/// Three-way comparison of integers: -1, 0 or 1.
pub open spec fn int_order(a: int, b: int) -> int {
    if a < b {
        -1
    } else if a > b {
        1
    } else {
        0
    }
}

/// The first decisive comparison of two.
pub open spec fn then_order(first: int, second: int) -> int {
    if first != 0 {
        first
    } else {
        second
    }
}

/// Which challenger search ran.
#[derive(Clone, Copy, Debug, PartialEq, Eq, Structural)]
pub enum BoundedSelectorChallengerModeV1 {
    ExactSubsets,
    OrderAwareBeam,
}

impl BoundedSelectorChallengerModeV1 {
    pub open spec fn spec_code(self) -> Seq<char> {
        match self {
            BoundedSelectorChallengerModeV1::ExactSubsets => "exact_subsets_optional_le_12"@,
            BoundedSelectorChallengerModeV1::OrderAwareBeam => "order_aware_beam_with_production_fallback"@,
        }
    }

    pub fn code(self) -> (r: &'static str)
        ensures
            r@ == self.spec_code(),
    {
        match self {
            BoundedSelectorChallengerModeV1::ExactSubsets => "exact_subsets_optional_le_12",
            BoundedSelectorChallengerModeV1::OrderAwareBeam => "order_aware_beam_with_production_fallback",
        }
    }
}
/// Which search produced a selected plan.
#[derive(Clone, Copy, Debug, PartialEq, Eq, Structural)]
pub enum BoundedSelectorPlanSourceV1 {
    ExactSubset,
    OrderAwareBeam,
    ProductionFallback,
}

impl BoundedSelectorPlanSourceV1 {
    pub open spec fn spec_code(self) -> Seq<char> {
        match self {
            BoundedSelectorPlanSourceV1::ExactSubset => "exact_subset"@,
            BoundedSelectorPlanSourceV1::OrderAwareBeam => "order_aware_beam"@,
            BoundedSelectorPlanSourceV1::ProductionFallback => "production_greedy_max_fallback"@,
        }
    }

    pub fn code(self) -> (r: &'static str)
        ensures
            r@ == self.spec_code(),
    {
        match self {
            BoundedSelectorPlanSourceV1::ExactSubset => "exact_subset",
            BoundedSelectorPlanSourceV1::OrderAwareBeam => "order_aware_beam",
            BoundedSelectorPlanSourceV1::ProductionFallback => "production_greedy_max_fallback",
        }
    }
}
/// Objective relation of challenger to production.
#[derive(Clone, Copy, Debug, PartialEq, Eq, Structural)]
pub enum BoundedSelectorObjectiveRelationV1 {
    ChallengerBetter,
    Equal,
    ChallengerWorse,
    MatchedTerminal,
    TerminalMismatch,
}

/// Selected-cost relation of challenger to production.
#[derive(Clone, Copy, Debug, PartialEq, Eq, Structural)]
pub enum BoundedSelectorCostRelationV1 {
    ChallengerLower,
    Equal,
    ChallengerHigher,
    NotApplicable,
}

/// Opaque identity of one intact packet.
#[derive(Clone, Copy, Hash)]
pub struct BoundedSelectorPacketIdV1(pub [u8; 32]);

impl BoundedSelectorPacketIdV1 {
    pub fn from_bytes(bytes: [u8; 32]) -> (r: Self)
        ensures
            r.0 == bytes,
    {
        BoundedSelectorPacketIdV1(bytes)
    }

    pub fn as_bytes(&self) -> (r: &[u8; 32])
        ensures
            *r == self.0,
    {
        &self.0
    }
}

/// Lexicographic three-way comparison of packet identity lists.
pub open spec fn ids_order(a: Seq<BoundedSelectorPacketIdV1>, b: Seq<BoundedSelectorPacketIdV1>) -> int
    decreases a.len(),
{
    if a.len() == 0 {
        if b.len() == 0 {
            0
        } else {
            -1
        }
    } else if b.len() == 0 {
        1
    } else {
        then_order(bytes_order(a[0].0@, b[0].0@), ids_order(a.drop_first(), b.drop_first()))
    }
}

pub fn bytes32_order(a: &[u8; 32], b: &[u8; 32]) -> (r: i8)
    ensures
        r as int == bytes_order(a@, b@),
{
    let mut i: usize = 0;
    proof {
        assert(a@.skip(0) == a@);
        assert(b@.skip(0) == b@);
    }
    while i < 32
        invariant
            i <= 32,
            a@.len() == 32 && b@.len() == 32,
            forall|j: int| 0 <= j < i ==> a@[j] == b@[j],
            bytes_order(a@, b@) == bytes_order(a@.skip(i as int), b@.skip(i as int)),
        decreases 32 - i,
    {
        proof {
            assert(a@.skip(i as int)[0] == a@[i as int]);
            assert(b@.skip(i as int)[0] == b@[i as int]);
            assert(a@.skip(i as int).drop_first() == a@.skip(i + 1));
            assert(b@.skip(i as int).drop_first() == b@.skip(i + 1));
        }
        if a[i] < b[i] {
            return -1;
        }
        if a[i] > b[i] {
            return 1;
        }
        i = i + 1;
    }
    proof {
        assert(a@.skip(32) =~= Seq::<u8>::empty());
        assert(b@.skip(32) =~= Seq::<u8>::empty());
    }
    0
}

pub fn ids_order_exec(a: &Vec<BoundedSelectorPacketIdV1>, b: &Vec<BoundedSelectorPacketIdV1>) -> (r: i8)
    ensures
        r as int == ids_order(a@, b@),
{
    let mut i: usize = 0;
    proof {
        assert(a@.skip(0) == a@);
        assert(b@.skip(0) == b@);
    }
    while i < a.len() && i < b.len()
        invariant
            i <= a.len() && i <= b.len(),
            ids_order(a@, b@) == ids_order(a@.skip(i as int), b@.skip(i as int)),
        decreases a.len() - i,
    {
        let c = bytes32_order(&a[i].0, &b[i].0);
        proof {
            assert(a@.skip(i as int)[0] == a@[i as int]);
            assert(b@.skip(i as int)[0] == b@[i as int]);
            assert(a@.skip(i as int).drop_first() == a@.skip(i + 1));
            assert(b@.skip(i as int).drop_first() == b@.skip(i + 1));
        }
        if c != 0 {
            return c;
        }
        i = i + 1;
    }
    if i < a.len() {
        1
    } else if i < b.len() {
        -1
    } else {
        proof {
            assert(a@.skip(i as int) =~= Seq::<BoundedSelectorPacketIdV1>::empty());
            assert(b@.skip(i as int) =~= Seq::<BoundedSelectorPacketIdV1>::empty());
        }
        0
    }
}

/// Closed work bounds of one challenger search.
#[derive(Clone, Copy, Debug, PartialEq, Eq, Structural)]
pub struct BoundedSelectorSearchBoundsV1 {
    pub state_slot_cap: u64,
    pub transition_attempt_cap: u64,
    pub depth_cap: u64,
}

impl BoundedSelectorSearchBoundsV1 {
    pub fn state_slot_cap(self) -> (r: u64)
        ensures
            r == self.state_slot_cap,
    {
        self.state_slot_cap
    }

    pub fn transition_attempt_cap(self) -> (r: u64)
        ensures
            r == self.transition_attempt_cap,
    {
        self.transition_attempt_cap
    }

    pub fn depth_cap(self) -> (r: u64)
        ensures
            r == self.depth_cap,
    {
        self.depth_cap
    }


}
/// Observed work of one challenger search.
#[derive(Clone, Copy, Debug, PartialEq, Eq, Structural)]
pub struct BoundedSelectorSearchObservationV1 {
    pub transition_attempts: Option<u64>,
    pub retained_state_high_water: u64,
    pub transition_cap_reached: bool,
}

impl BoundedSelectorSearchObservationV1 {
    pub fn transition_attempts(self) -> (r: Option<u64>)
        ensures
            r == self.transition_attempts,
    {
        self.transition_attempts
    }

    pub fn retained_state_high_water(self) -> (r: u64)
        ensures
            r == self.retained_state_high_water,
    {
        self.retained_state_high_water
    }

    pub fn transition_cap_reached(self) -> (r: bool)
        ensures
            r == self.transition_cap_reached,
    {
        self.transition_cap_reached
    }


}
/// One selected plan and its resource accounting.
#[derive(Clone)]
pub struct BoundedSelectorSelectedPlanV1 {
    pub source: BoundedSelectorPlanSourceV1,
    pub objective_gain_numerator: u64,
    pub selected_packet_ids: Vec<BoundedSelectorPacketIdV1>,
    pub optional_acceptance_order: Vec<BoundedSelectorPacketIdV1>,
    pub selected_packet_cost: u64,
    pub accounted_token_upper_bound: u64,
    pub coverage_only_token_cost: u64,
    pub coverage_only_token_limit: u64,
}

impl BoundedSelectorSelectedPlanV1 {
    pub fn source(&self) -> (r: BoundedSelectorPlanSourceV1)
        ensures
            r == self.source,
    {
        self.source
    }

    pub fn objective_gain_numerator(&self) -> (r: u64)
        ensures
            r == self.objective_gain_numerator,
    {
        self.objective_gain_numerator
    }

    pub fn selected_packet_ids(&self) -> (r: &[BoundedSelectorPacketIdV1])
        ensures
            r@ == self.selected_packet_ids@,
    {
        self.selected_packet_ids.as_slice()
    }

    pub fn optional_acceptance_order(&self) -> (r: &[BoundedSelectorPacketIdV1])
        ensures
            r@ == self.optional_acceptance_order@,
    {
        self.optional_acceptance_order.as_slice()
    }

    pub fn selected_packet_cost(&self) -> (r: u64)
        ensures
            r == self.selected_packet_cost,
    {
        self.selected_packet_cost
    }

    pub fn accounted_token_upper_bound(&self) -> (r: u64)
        ensures
            r == self.accounted_token_upper_bound,
    {
        self.accounted_token_upper_bound
    }

    pub fn coverage_only_token_cost(&self) -> (r: u64)
        ensures
            r == self.coverage_only_token_cost,
    {
        self.coverage_only_token_cost
    }

    pub fn coverage_only_token_limit(&self) -> (r: u64)
        ensures
            r == self.coverage_only_token_limit,
    {
        self.coverage_only_token_limit
    }


}
/// Why a selection problem cannot select anything.
#[derive(Clone, Copy, Debug, PartialEq, Eq, Structural)]
pub enum NeedsMoreReasonV1 {
    FixedOverheadExceedsTotalBudget,
    MandatoryCostExceedsAvailablePacketBudget,
}

/// A terminal outcome: the budget cannot hold the fixed overhead and mandatory packets.
#[derive(Clone, Copy, Debug, PartialEq, Eq, Structural)]
pub struct BoundedSelectorNeedsMoreV1 {
    pub reason: NeedsMoreReasonV1,
    pub total_token_budget: u64,
    pub reserved_fixed_overhead: u64,
    pub mandatory_packet_cost: u64,
    pub mandatory_packet_count: u64,
}

impl BoundedSelectorNeedsMoreV1 {
    pub fn reason(self) -> (r: NeedsMoreReasonV1)
        ensures
            r == self.reason,
    {
        self.reason
    }

    pub fn total_token_budget(self) -> (r: u64)
        ensures
            r == self.total_token_budget,
    {
        self.total_token_budget
    }

    pub fn reserved_fixed_overhead(self) -> (r: u64)
        ensures
            r == self.reserved_fixed_overhead,
    {
        self.reserved_fixed_overhead
    }

    pub fn mandatory_packet_cost(self) -> (r: u64)
        ensures
            r == self.mandatory_packet_cost,
    {
        self.mandatory_packet_cost
    }

    pub fn mandatory_packet_count(self) -> (r: u64)
        ensures
            r == self.mandatory_packet_count,
    {
        self.mandatory_packet_count
    }


}
/// A selected plan or a terminal outcome.
#[derive(Clone)]
pub enum BoundedSelectorOutcomeV1 {
    Selected(BoundedSelectorSelectedPlanV1),
    NeedsMore(BoundedSelectorNeedsMoreV1),
}

impl BoundedSelectorOutcomeV1 {
    pub fn selected(&self) -> (r: Option<&BoundedSelectorSelectedPlanV1>)
        ensures
            r == (match self {
                BoundedSelectorOutcomeV1::Selected(s) => Some(s),
                BoundedSelectorOutcomeV1::NeedsMore(_) => None,
            }),
    {
        match self {
            BoundedSelectorOutcomeV1::Selected(s) => Some(s),
            BoundedSelectorOutcomeV1::NeedsMore(_) => None,
        }
    }

    pub fn needs_more(&self) -> (r: Option<BoundedSelectorNeedsMoreV1>)
        ensures
            r == (match self {
                BoundedSelectorOutcomeV1::NeedsMore(n) => Some(*n),
                BoundedSelectorOutcomeV1::Selected(_) => None,
            }),
    {
        match self {
            BoundedSelectorOutcomeV1::NeedsMore(n) => Some(*n),
            BoundedSelectorOutcomeV1::Selected(_) => None,
        }
    }
}

/// Contentless challenger failures.
#[derive(Clone, Copy, Debug, PartialEq, Eq, Structural)]
pub enum BoundedSelectorChallengerErrorV1 {
    ExactOracle,
    ProductionSelection,
    ObjectiveContract,
    ArithmeticOverflow,
    ConstraintViolation,
    DigestLengthOverflow,
}

impl BoundedSelectorChallengerErrorV1 {
    pub open spec fn spec_code(self) -> Seq<char> {
        match self {
            BoundedSelectorChallengerErrorV1::ExactOracle => "EVIDENTRAIL_BENCH_BOUNDED_CHALLENGER_EXACT_ORACLE"@,
            BoundedSelectorChallengerErrorV1::ProductionSelection => "EVIDENTRAIL_BENCH_BOUNDED_CHALLENGER_PRODUCTION"@,
            BoundedSelectorChallengerErrorV1::ObjectiveContract => "EVIDENTRAIL_BENCH_BOUNDED_CHALLENGER_OBJECTIVE"@,
            BoundedSelectorChallengerErrorV1::ArithmeticOverflow => "EVIDENTRAIL_BENCH_BOUNDED_CHALLENGER_ARITHMETIC"@,
            BoundedSelectorChallengerErrorV1::ConstraintViolation => "EVIDENTRAIL_BENCH_BOUNDED_CHALLENGER_CONSTRAINT"@,
            BoundedSelectorChallengerErrorV1::DigestLengthOverflow => "EVIDENTRAIL_BENCH_BOUNDED_CHALLENGER_DIGEST_LENGTH"@,
        }
    }

    pub fn code(self) -> (r: &'static str)
        ensures
            r@ == self.spec_code(),
    {
        match self {
            BoundedSelectorChallengerErrorV1::ExactOracle => "EVIDENTRAIL_BENCH_BOUNDED_CHALLENGER_EXACT_ORACLE",
            BoundedSelectorChallengerErrorV1::ProductionSelection => "EVIDENTRAIL_BENCH_BOUNDED_CHALLENGER_PRODUCTION",
            BoundedSelectorChallengerErrorV1::ObjectiveContract => "EVIDENTRAIL_BENCH_BOUNDED_CHALLENGER_OBJECTIVE",
            BoundedSelectorChallengerErrorV1::ArithmeticOverflow => "EVIDENTRAIL_BENCH_BOUNDED_CHALLENGER_ARITHMETIC",
            BoundedSelectorChallengerErrorV1::ConstraintViolation => "EVIDENTRAIL_BENCH_BOUNDED_CHALLENGER_CONSTRAINT",
            BoundedSelectorChallengerErrorV1::DigestLengthOverflow => "EVIDENTRAIL_BENCH_BOUNDED_CHALLENGER_DIGEST_LENGTH",
        }
    }
}

/// How the challenger's objective compares with production's.
pub open spec fn spec_objective_relation(
    production: BoundedSelectorOutcomeV1,
    challenger: BoundedSelectorOutcomeV1,
) -> BoundedSelectorObjectiveRelationV1 {
    match (production, challenger) {
        (BoundedSelectorOutcomeV1::Selected(l), BoundedSelectorOutcomeV1::Selected(r)) => {
            if r.objective_gain_numerator > l.objective_gain_numerator {
                BoundedSelectorObjectiveRelationV1::ChallengerBetter
            } else if r.objective_gain_numerator == l.objective_gain_numerator {
                BoundedSelectorObjectiveRelationV1::Equal
            } else {
                BoundedSelectorObjectiveRelationV1::ChallengerWorse
            }
        },
        (BoundedSelectorOutcomeV1::NeedsMore(l), BoundedSelectorOutcomeV1::NeedsMore(r)) => {
            if l.reason == r.reason {
                BoundedSelectorObjectiveRelationV1::MatchedTerminal
            } else {
                BoundedSelectorObjectiveRelationV1::TerminalMismatch
            }
        },
        _ => BoundedSelectorObjectiveRelationV1::TerminalMismatch,
    }
}

pub fn objective_relation(
    production: &BoundedSelectorOutcomeV1,
    challenger: &BoundedSelectorOutcomeV1,
) -> (r: BoundedSelectorObjectiveRelationV1)
    ensures
        r == spec_objective_relation(*production, *challenger),
{
    match (production, challenger) {
        (BoundedSelectorOutcomeV1::Selected(l), BoundedSelectorOutcomeV1::Selected(r)) => {
            if r.objective_gain_numerator > l.objective_gain_numerator {
                BoundedSelectorObjectiveRelationV1::ChallengerBetter
            } else if r.objective_gain_numerator == l.objective_gain_numerator {
                BoundedSelectorObjectiveRelationV1::Equal
            } else {
                BoundedSelectorObjectiveRelationV1::ChallengerWorse
            }
        },
        (BoundedSelectorOutcomeV1::NeedsMore(l), BoundedSelectorOutcomeV1::NeedsMore(r)) => {
            if l.reason == r.reason {
                BoundedSelectorObjectiveRelationV1::MatchedTerminal
            } else {
                BoundedSelectorObjectiveRelationV1::TerminalMismatch
            }
        },
        _ => BoundedSelectorObjectiveRelationV1::TerminalMismatch,
    }
}

/// How the challenger's selected packet cost compares with production's.
pub open spec fn spec_selected_cost_relation(
    production: BoundedSelectorOutcomeV1,
    challenger: BoundedSelectorOutcomeV1,
) -> BoundedSelectorCostRelationV1 {
    match (production, challenger) {
        (BoundedSelectorOutcomeV1::Selected(l), BoundedSelectorOutcomeV1::Selected(r)) => {
            if r.selected_packet_cost < l.selected_packet_cost {
                BoundedSelectorCostRelationV1::ChallengerLower
            } else if r.selected_packet_cost == l.selected_packet_cost {
                BoundedSelectorCostRelationV1::Equal
            } else {
                BoundedSelectorCostRelationV1::ChallengerHigher
            }
        },
        _ => BoundedSelectorCostRelationV1::NotApplicable,
    }
}

pub fn selected_cost_relation(
    production: &BoundedSelectorOutcomeV1,
    challenger: &BoundedSelectorOutcomeV1,
) -> (r: BoundedSelectorCostRelationV1)
    ensures
        r == spec_selected_cost_relation(*production, *challenger),
{
    match (production, challenger) {
        (BoundedSelectorOutcomeV1::Selected(l), BoundedSelectorOutcomeV1::Selected(r)) => {
            if r.selected_packet_cost < l.selected_packet_cost {
                BoundedSelectorCostRelationV1::ChallengerLower
            } else if r.selected_packet_cost == l.selected_packet_cost {
                BoundedSelectorCostRelationV1::Equal
            } else {
                BoundedSelectorCostRelationV1::ChallengerHigher
            }
        },
        _ => BoundedSelectorCostRelationV1::NotApplicable,
    }
}

/// A candidate plan beats the current one: higher objective, then lower
/// selected cost, lower coverage-only cost, fewer packets, and finally the
/// lexicographically smaller packet list.
pub open spec fn spec_selected_plan_is_better(
    candidate: BoundedSelectorSelectedPlanV1,
    current: BoundedSelectorSelectedPlanV1,
) -> bool {
    then_order(
        int_order(candidate.objective_gain_numerator as int, current.objective_gain_numerator as int),
        then_order(
            int_order(current.selected_packet_cost as int, candidate.selected_packet_cost as int),
            then_order(
                int_order(
                    current.coverage_only_token_cost as int,
                    candidate.coverage_only_token_cost as int,
                ),
                then_order(
                    int_order(
                        current.selected_packet_ids.len() as int,
                        candidate.selected_packet_ids.len() as int,
                    ),
                    ids_order(current.selected_packet_ids@, candidate.selected_packet_ids@),
                ),
            ),
        ),
    ) == 1
}

pub fn selected_plan_is_better(
    candidate: &BoundedSelectorSelectedPlanV1,
    current: &BoundedSelectorSelectedPlanV1,
) -> (r: bool)
    ensures
        r == spec_selected_plan_is_better(*candidate, *current),
{
    if candidate.objective_gain_numerator != current.objective_gain_numerator {
        return candidate.objective_gain_numerator > current.objective_gain_numerator;
    }
    if current.selected_packet_cost != candidate.selected_packet_cost {
        return current.selected_packet_cost > candidate.selected_packet_cost;
    }
    if current.coverage_only_token_cost != candidate.coverage_only_token_cost {
        return current.coverage_only_token_cost > candidate.coverage_only_token_cost;
    }
    if current.selected_packet_ids.len() != candidate.selected_packet_ids.len() {
        return current.selected_packet_ids.len() > candidate.selected_packet_ids.len();
    }
    ids_order_exec(&current.selected_packet_ids, &candidate.selected_packet_ids) == 1
}

/// Keep the beam plan only when both are selections and it beats production.
pub open spec fn spec_choose_beam_or_production(
    beam: BoundedSelectorOutcomeV1,
    production: BoundedSelectorOutcomeV1,
) -> BoundedSelectorOutcomeV1 {
    match (beam, production) {
        (BoundedSelectorOutcomeV1::Selected(b), BoundedSelectorOutcomeV1::Selected(p)) => {
            if spec_selected_plan_is_better(b, p) {
                beam
            } else {
                production
            }
        },
        _ => production,
    }
}

pub fn choose_beam_or_production(beam: BoundedSelectorOutcomeV1, production: BoundedSelectorOutcomeV1) -> (r:
    BoundedSelectorOutcomeV1)
    ensures
        r == spec_choose_beam_or_production(beam, production),
{
    let better = match (&beam, &production) {
        (BoundedSelectorOutcomeV1::Selected(b), BoundedSelectorOutcomeV1::Selected(p)) => selected_plan_is_better(b, p),
        _ => false,
    };
    if better {
        beam
    } else {
        production
    }
}

/// Some packet of the list has the identity's bytes.
pub open spec fn has_packet(ids: Seq<BoundedSelectorPacketIdV1>, id: BoundedSelectorPacketIdV1) -> bool {
    exists|q: int| 0 <= q < ids.len() && ids[q].0@ == id.0@
}

pub fn contains_packet(ids: &Vec<BoundedSelectorPacketIdV1>, id: &BoundedSelectorPacketIdV1) -> (r: bool)
    ensures
        r == has_packet(ids@, *id),
{
    let mut j: usize = 0;
    while j < ids.len()
        invariant
            j <= ids.len(),
            forall|m: int| 0 <= m < j ==> ids@[m].0@ != id.0@,
        decreases ids.len() - j,
    {
        if crate::digest::bytes32_eq(&ids[j].0, &id.0) {
            return true;
        }
        j = j + 1;
    }
    false
}

/// The outcome keeps the hard constraints: a selection fits the total budget
/// and the coverage-only limit and keeps every mandatory packet; a terminal
/// outcome's reason matches its numbers.
pub open spec fn spec_outcome_valid(
    total_token_budget: u64,
    mandatory_packet_ids: Seq<BoundedSelectorPacketIdV1>,
    outcome: BoundedSelectorOutcomeV1,
) -> bool {
    match outcome {
        BoundedSelectorOutcomeV1::Selected(s) => {
            &&& s.accounted_token_upper_bound <= total_token_budget
            &&& s.coverage_only_token_cost <= s.coverage_only_token_limit
            &&& forall|i: int|
                0 <= i < mandatory_packet_ids.len() ==> has_packet(
                    s.selected_packet_ids@,
                    #[trigger] mandatory_packet_ids[i],
                )
        },
        BoundedSelectorOutcomeV1::NeedsMore(n) => match n.reason {
            NeedsMoreReasonV1::FixedOverheadExceedsTotalBudget => n.reserved_fixed_overhead
                > n.total_token_budget,
            NeedsMoreReasonV1::MandatoryCostExceedsAvailablePacketBudget => n.reserved_fixed_overhead
                <= n.total_token_budget && n.mandatory_packet_cost > n.total_token_budget
                - n.reserved_fixed_overhead,
        },
    }
}

pub fn validate_frozen_outcome(
    total_token_budget: u64,
    mandatory_packet_ids: &Vec<BoundedSelectorPacketIdV1>,
    outcome: &BoundedSelectorOutcomeV1,
) -> (r: bool)
    ensures
        r == spec_outcome_valid(total_token_budget, mandatory_packet_ids@, *outcome),
{
    match outcome {
        BoundedSelectorOutcomeV1::Selected(s) => {
            if s.accounted_token_upper_bound > total_token_budget || s.coverage_only_token_cost
                > s.coverage_only_token_limit {
                return false;
            }
            let mut i: usize = 0;
            while i < mandatory_packet_ids.len()
                invariant
                    i <= mandatory_packet_ids.len(),
                    *outcome == BoundedSelectorOutcomeV1::Selected(*s),
                    forall|k: int|
                        0 <= k < i ==> has_packet(
                            s.selected_packet_ids@,
                            #[trigger] mandatory_packet_ids@[k],
                        ),
                decreases mandatory_packet_ids.len() - i,
            {
                if !contains_packet(&s.selected_packet_ids, &mandatory_packet_ids[i]) {
                    proof {
                        assert(!has_packet(s.selected_packet_ids@, mandatory_packet_ids@[i as int]));
                    }
                    return false;
                }
                i = i + 1;
            }
            true
        },
        BoundedSelectorOutcomeV1::NeedsMore(n) => match n.reason {
            NeedsMoreReasonV1::FixedOverheadExceedsTotalBudget => n.reserved_fixed_overhead
                > n.total_token_budget,
            NeedsMoreReasonV1::MandatoryCostExceedsAvailablePacketBudget => n.reserved_fixed_overhead
                <= n.total_token_budget && n.mandatory_packet_cost > n.total_token_budget
                - n.reserved_fixed_overhead,
        },
    }
}

/// The hard constraints as a check: a selection fits the problem's total
/// budget and coverage-only limit and keeps every mandatory packet; a
/// terminal outcome's reason matches its numbers.
pub fn validate_outcome(
    problem: &crate::selection_problem::SelectionProblemV1,
    outcome: &BoundedSelectorOutcomeV1,
) -> (r: Result<(), BoundedSelectorChallengerErrorV1>)
    ensures
        r is Ok <==> spec_outcome_valid(
            problem.total_token_budget,
            problem.mandatory_packet_ids@,
            *outcome,
        ),
        r matches Err(e) ==> e == BoundedSelectorChallengerErrorV1::ConstraintViolation,
{
    if validate_frozen_outcome(problem.total_token_budget, &problem.mandatory_packet_ids, outcome) {
        Ok(())
    } else {
        Err(BoundedSelectorChallengerErrorV1::ConstraintViolation)
    }
}

/// A frozen comparison of the production selector with its challenger on one
/// problem: the search that ran, its bounds and observed work, both outcomes
/// and their relations.
#[derive(Clone)]
pub struct FrozenBoundedSelectorPairV1 {
    pub problem_digest: crate::digest::ArtifactDigest,
    pub mode: BoundedSelectorChallengerModeV1,
    pub optional_packet_count: u64,
    pub bounds: BoundedSelectorSearchBoundsV1,
    pub observation: BoundedSelectorSearchObservationV1,
    pub production: BoundedSelectorOutcomeV1,
    pub challenger: BoundedSelectorOutcomeV1,
    pub objective_relation: BoundedSelectorObjectiveRelationV1,
    pub selected_cost_relation: BoundedSelectorCostRelationV1,
    pub hard_constraints_preserved: bool,
}

impl FrozenBoundedSelectorPairV1 {
    pub fn problem_digest(&self) -> (r: crate::digest::ArtifactDigest)
        ensures
            r == self.problem_digest,
    {
        self.problem_digest
    }

    pub fn mode(&self) -> (r: BoundedSelectorChallengerModeV1)
        ensures
            r == self.mode,
    {
        self.mode
    }

    pub fn optional_packet_count(&self) -> (r: u64)
        ensures
            r == self.optional_packet_count,
    {
        self.optional_packet_count
    }

    pub fn bounds(&self) -> (r: BoundedSelectorSearchBoundsV1)
        ensures
            r == self.bounds,
    {
        self.bounds
    }

    pub fn observation(&self) -> (r: BoundedSelectorSearchObservationV1)
        ensures
            r == self.observation,
    {
        self.observation
    }

    pub fn production(&self) -> (r: &BoundedSelectorOutcomeV1)
        ensures
            *r == self.production,
    {
        &self.production
    }

    pub fn challenger(&self) -> (r: &BoundedSelectorOutcomeV1)
        ensures
            *r == self.challenger,
    {
        &self.challenger
    }

    pub fn objective_relation(&self) -> (r: BoundedSelectorObjectiveRelationV1)
        ensures
            r == self.objective_relation,
    {
        self.objective_relation
    }

    pub fn selected_cost_relation(&self) -> (r: BoundedSelectorCostRelationV1)
        ensures
            r == self.selected_cost_relation,
    {
        self.selected_cost_relation
    }

    pub fn hard_constraints_preserved(&self) -> (r: bool)
        ensures
            r == self.hard_constraints_preserved,
    {
        self.hard_constraints_preserved
    }

    /// A frozen pair carries no governed labels.
    pub fn contains_labels(&self) -> (r: bool)
        ensures
            !r,
    {
        false
    }

    /// A frozen pair makes no wall-time or memory claim.
    pub fn claims_wall_time_or_rss(&self) -> (r: bool)
        ensures
            !r,
    {
        false
    }
}

/// A frozen outcome as plain facts, before its plan source is attached.
pub enum FrozenSelectorOutcomeFactsV1 {
    Selected {
        objective_gain_numerator: u64,
        selected_packet_ids: Vec<BoundedSelectorPacketIdV1>,
        optional_acceptance_order: Vec<BoundedSelectorPacketIdV1>,
        selected_packet_cost: u64,
        accounted_token_upper_bound: u64,
        coverage_only_token_cost: u64,
        coverage_only_token_limit: u64,
    },
    NeedsMore(BoundedSelectorNeedsMoreV1),
}

/// Facts of an already-solved exact pair: the production outcome, the exact
/// optimum and the size of the reachable subset lattice.
pub struct FrozenExactPairFactsV1 {
    pub problem_digest: crate::digest::ArtifactDigest,
    pub optional_packet_count: u64,
    pub total_token_budget: u64,
    pub mandatory_packet_ids: Vec<BoundedSelectorPacketIdV1>,
    pub reachable_subset_count: u64,
    pub production: FrozenSelectorOutcomeFactsV1,
    pub optimum: FrozenSelectorOutcomeFactsV1,
}

/// The outcome that frozen facts stand for under a plan source.
pub open spec fn spec_outcome_from_frozen_facts(
    facts: FrozenSelectorOutcomeFactsV1,
    source: BoundedSelectorPlanSourceV1,
) -> BoundedSelectorOutcomeV1 {
    match facts {
        FrozenSelectorOutcomeFactsV1::Selected {
            objective_gain_numerator,
            selected_packet_ids,
            optional_acceptance_order,
            selected_packet_cost,
            accounted_token_upper_bound,
            coverage_only_token_cost,
            coverage_only_token_limit,
        } => BoundedSelectorOutcomeV1::Selected(
            BoundedSelectorSelectedPlanV1 {
                source,
                objective_gain_numerator,
                selected_packet_ids,
                optional_acceptance_order,
                selected_packet_cost,
                accounted_token_upper_bound,
                coverage_only_token_cost,
                coverage_only_token_limit,
            },
        ),
        FrozenSelectorOutcomeFactsV1::NeedsMore(n) => BoundedSelectorOutcomeV1::NeedsMore(n),
    }
}

pub fn outcome_from_frozen_facts(
    facts: FrozenSelectorOutcomeFactsV1,
    source: BoundedSelectorPlanSourceV1,
) -> (r: BoundedSelectorOutcomeV1)
    ensures
        r == spec_outcome_from_frozen_facts(facts, source),
{
    match facts {
        FrozenSelectorOutcomeFactsV1::Selected {
            objective_gain_numerator,
            selected_packet_ids,
            optional_acceptance_order,
            selected_packet_cost,
            accounted_token_upper_bound,
            coverage_only_token_cost,
            coverage_only_token_limit,
        } => BoundedSelectorOutcomeV1::Selected(
            BoundedSelectorSelectedPlanV1 {
                source,
                objective_gain_numerator,
                selected_packet_ids,
                optional_acceptance_order,
                selected_packet_cost,
                accounted_token_upper_bound,
                coverage_only_token_cost,
                coverage_only_token_limit,
            },
        ),
        FrozenSelectorOutcomeFactsV1::NeedsMore(n) => BoundedSelectorOutcomeV1::NeedsMore(n),
    }
}

/// Two to the power `k`.
pub open spec fn pow2(k: nat) -> nat
    decreases k,
{
    if k == 0 {
        1
    } else {
        2 * pow2((k - 1) as nat)
    }
}

/// Subsets of `count` optional packets, for counts the exact oracle answers.
fn exact_state_slots(count: u64) -> (r: u64)
    requires
        count <= MAX_EXACT_SELECTION_ORACLE_OPTIONAL_PACKETS_V1,
    ensures
        r == pow2(count as nat),
        r <= 4096,
{
    let mut r: u64 = 1;
    let mut k: u64 = 0;
    while k < count
        invariant
            k <= count,
            count <= 12,
            r == pow2(k as nat),
        decreases count - k,
    {
        proof {
            lemma_pow2_bound((k + 1) as nat);
        }
        r = r * 2;
        k = k + 1;
    }
    proof {
        lemma_pow2_bound(k as nat);
    }
    r
}

proof fn lemma_pow2_bound(k: nat)
    requires
        k <= 12,
    ensures
        pow2(k) <= 4096,
{
    lemma_pow2_monotone(k, 12);
    reveal_with_fuel(pow2, 13);
}

proof fn lemma_pow2_monotone(a: nat, b: nat)
    requires
        a <= b,
    ensures
        pow2(a) <= pow2(b),
    decreases b,
{
    if a < b {
        lemma_pow2_monotone(a, (b - 1) as nat);
    }
}

/// The search a problem gets: exact subsets for at most the exact cap of
/// optional packets, the order-aware beam above it.
pub open spec fn challenger_mode_for(optional_packet_count: int) -> BoundedSelectorChallengerModeV1 {
    if optional_packet_count <= MAX_EXACT_SELECTION_ORACLE_OPTIONAL_PACKETS_V1 {
        BoundedSelectorChallengerModeV1::ExactSubsets
    } else {
        BoundedSelectorChallengerModeV1::OrderAwareBeam
    }
}

/// The pair an exact solve freezes: bounds over the whole subset lattice, no
/// transition count, the reachable subsets as high water.
pub open spec fn spec_exact_pair_accepted(facts: FrozenExactPairFactsV1) -> bool {
    let production = spec_outcome_from_frozen_facts(
        facts.production,
        BoundedSelectorPlanSourceV1::ProductionFallback,
    );
    let challenger = spec_outcome_from_frozen_facts(facts.optimum, BoundedSelectorPlanSourceV1::ExactSubset);
    let relation = spec_objective_relation(production, challenger);
    &&& facts.optional_packet_count <= MAX_EXACT_SELECTION_ORACLE_OPTIONAL_PACKETS_V1
    &&& spec_outcome_valid(facts.total_token_budget, facts.mandatory_packet_ids@, challenger)
    &&& relation != BoundedSelectorObjectiveRelationV1::ChallengerWorse
    &&& relation != BoundedSelectorObjectiveRelationV1::TerminalMismatch
}

pub fn freeze_exact_pair_from_facts_v1(facts: FrozenExactPairFactsV1) -> (r: Result<
    FrozenBoundedSelectorPairV1,
    BoundedSelectorChallengerErrorV1,
>)
    ensures
        r is Ok <==> spec_exact_pair_accepted(facts),
        r matches Err(e) ==> e == BoundedSelectorChallengerErrorV1::ConstraintViolation,
        r matches Ok(pair) ==> {
            let production = spec_outcome_from_frozen_facts(
                facts.production,
                BoundedSelectorPlanSourceV1::ProductionFallback,
            );
            let challenger = spec_outcome_from_frozen_facts(
                facts.optimum,
                BoundedSelectorPlanSourceV1::ExactSubset,
            );
            let slots = pow2(facts.optional_packet_count as nat);
            &&& pair.problem_digest == facts.problem_digest
            &&& pair.mode == BoundedSelectorChallengerModeV1::ExactSubsets
            &&& pair.optional_packet_count == facts.optional_packet_count
            &&& pair.mode == challenger_mode_for(pair.optional_packet_count as int)
            &&& pair.bounds.state_slot_cap == slots
            &&& pair.bounds.transition_attempt_cap == slots * facts.optional_packet_count
            &&& pair.bounds.depth_cap == facts.optional_packet_count
            &&& pair.observation.transition_attempts is None
            &&& pair.observation.retained_state_high_water == facts.reachable_subset_count
            &&& !pair.observation.transition_cap_reached
            &&& pair.production == production
            &&& pair.challenger == challenger
            &&& pair.objective_relation == spec_objective_relation(production, challenger)
            &&& pair.selected_cost_relation == spec_selected_cost_relation(production, challenger)
            &&& pair.hard_constraints_preserved
        },
{
    if facts.optional_packet_count > MAX_EXACT_SELECTION_ORACLE_OPTIONAL_PACKETS_V1 as u64 {
        return Err(BoundedSelectorChallengerErrorV1::ConstraintViolation);
    }
    let ghost facts0 = facts;
    let FrozenExactPairFactsV1 {
        problem_digest,
        optional_packet_count,
        total_token_budget,
        mandatory_packet_ids,
        reachable_subset_count,
        production,
        optimum,
    } = facts;
    let production = outcome_from_frozen_facts(production, BoundedSelectorPlanSourceV1::ProductionFallback);
    let challenger = outcome_from_frozen_facts(optimum, BoundedSelectorPlanSourceV1::ExactSubset);
    let state_slots = exact_state_slots(optional_packet_count);
    proof {
        assert(state_slots * optional_packet_count <= 4096 * 12) by (nonlinear_arith)
            requires
                state_slots <= 4096,
                optional_packet_count <= 12,
        ;
    }
    let bounds = BoundedSelectorSearchBoundsV1 {
        state_slot_cap: state_slots,
        transition_attempt_cap: state_slots * optional_packet_count,
        depth_cap: optional_packet_count,
    };
    let observation = BoundedSelectorSearchObservationV1 {
        transition_attempts: None,
        retained_state_high_water: reachable_subset_count,
        transition_cap_reached: false,
    };
    let objective_relation = objective_relation(&production, &challenger);
    let selected_cost_relation = selected_cost_relation(&production, &challenger);
    let hard_constraints_preserved = validate_frozen_outcome(
        total_token_budget,
        &mandatory_packet_ids,
        &challenger,
    );
    if !hard_constraints_preserved || objective_relation
        == BoundedSelectorObjectiveRelationV1::ChallengerWorse || objective_relation
        == BoundedSelectorObjectiveRelationV1::TerminalMismatch {
        return Err(BoundedSelectorChallengerErrorV1::ConstraintViolation);
    }
    Ok(
        FrozenBoundedSelectorPairV1 {
            problem_digest,
            mode: BoundedSelectorChallengerModeV1::ExactSubsets,
            optional_packet_count,
            bounds,
            observation,
            production,
            challenger,
            objective_relation,
            selected_cost_relation,
            hard_constraints_preserved,
        },
    )
}

} // verus!
