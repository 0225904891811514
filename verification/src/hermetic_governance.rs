//! Governing the hermetic incident-outcome corpus: each frozen public case is
//! joined to exactly one hidden annotation, the annotation's targets and
//! outcome authority are checked against the public case, and only exact
//! weighted recall of each arm and of the exact oracle is computed.

use vstd::prelude::*;
use vstd::utf8::encode_utf8;
use crate::digest::{bytes32_eq, ArtifactDigest};
use crate::sha256::{push_bytes, push_u64_be, sha256, sha256_spec, u64_be};
use crate::evaluator::{annotation_targets, collect_annotation_targets, selected_targets_v1, spec_selected_targets};
use crate::hermetic_incident_outcome_corpus::{
    ExactHermeticIncidentRecallV1, HermeticIncidentAbstentionAuthorityV1, HermeticIncidentArmV1,
    HermeticIncidentCaseV1, HermeticIncidentClaimV1, HermeticIncidentCorpusErrorV1, HermeticIncidentExpectedOutcomeV1,
    HermeticIncidentFaultFamilyV1, HermeticIncidentRootAlternativeV1, HermeticIncidentArmSummaryV1,
    HERMETIC_INCIDENT_CASE_COUNT_V1,
};
use crate::ledger::{EventId, EventLedger};
use crate::manifest::{
    EvidenceTargetV1, EvidentrailBenchAnnotationSpecV1, ExpectedAcquisitionClassV1, WeightedDiagnosticRequirementV1,
};

verus! {

/// The frozen, label-free outcome of one arm on one public case.
#[derive(Clone, Debug)]
pub struct FrozenHermeticIncidentArmOutcomeV1 {
    pub digest: ArtifactDigest,
    pub arm: HermeticIncidentArmV1,
    pub producer_receipt_digest: Option<ArtifactDigest>,
    pub method_config_digest: Option<ArtifactDigest>,
    pub selected_event_ids: Vec<EventId>,
    pub selected_unique_source_bytes: u64,
    pub selected_packet_count: u64,
    pub accounted_token_upper_bound: Option<u64>,
    pub objective_gain_numerator: Option<u64>,
}

/// The frozen exact-oracle selection of one public case.
#[derive(Clone, Debug)]
pub struct FrozenHermeticIncidentExactOracleV1 {
    pub digest: ArtifactDigest,
    pub selected_event_ids: Vec<EventId>,
    pub selected_packet_count: u64,
    pub objective_gain_numerator: u64,
    pub accounted_token_upper_bound: u64,
    pub reachable_subset_count: u64,
}

/// One frozen public case: its scope, acquisition class, sealed ledger and
/// every arm's frozen outcome.
#[derive(Clone, Debug)]
pub struct FrozenHermeticIncidentPublicCaseV1 {
    pub digest: ArtifactDigest,
    pub case: HermeticIncidentCaseV1,
    pub runtime: crate::hermetic_incident_outcome_corpus::HermeticIncidentRuntimeV1,
    pub scope_components: Vec<Vec<u8>>,
    pub question: Vec<u8>,
    pub expected_acquisition_class: ExpectedAcquisitionClassV1,
    pub total_token_budget: u64,
    pub matched_source_byte_budget: u64,
    pub ledger: EventLedger,
    pub outcomes: Vec<FrozenHermeticIncidentArmOutcomeV1>,
    pub exact_oracle: FrozenHermeticIncidentExactOracleV1,
}

/// One hidden annotation of one public case.
#[derive(Clone, Debug)]
pub struct HermeticIncidentGovernedAnnotationV1 {
    pub digest: ArtifactDigest,
    pub case: HermeticIncidentCaseV1,
    pub public_case_digest: ArtifactDigest,
    pub fault_family: HermeticIncidentFaultFamilyV1,
    pub expected_outcome: HermeticIncidentExpectedOutcomeV1,
    pub acceptable_roots: Vec<HermeticIncidentRootAlternativeV1>,
    pub forbidden_claims: Vec<HermeticIncidentClaimV1>,
    pub unsupported_claims: Vec<HermeticIncidentClaimV1>,
    pub evidence: EvidentrailBenchAnnotationSpecV1,
}

/// One arm's governed outcome on one case: its public facts and exact recall.
#[derive(Clone, Copy, Debug)]
pub struct GovernedHermeticIncidentArmOutcomeV1 {
    pub arm: HermeticIncidentArmV1,
    pub public_outcome_digest: ArtifactDigest,
    pub method_config_digest: Option<ArtifactDigest>,
    pub recall: ExactHermeticIncidentRecallV1,
    pub selected_unique_source_bytes: u64,
    pub selected_packet_count: u64,
    pub accounted_token_upper_bound: Option<u64>,
}

/// One governed case.
#[derive(Clone, Debug)]
pub struct GovernedHermeticIncidentCaseV1 {
    pub case: HermeticIncidentCaseV1,
    pub public_case_digest: ArtifactDigest,
    pub annotation_digest: ArtifactDigest,
    pub fault_family: HermeticIncidentFaultFamilyV1,
    pub expected_outcome: HermeticIncidentExpectedOutcomeV1,
    pub outcomes: Vec<GovernedHermeticIncidentArmOutcomeV1>,
    pub exact_oracle_recall: ExactHermeticIncidentRecallV1,
}

/// Number of arms every public case carries.
pub const HERMETIC_INCIDENT_ARM_COUNT_V1: usize = 5;

/// Exact weighted recall of the first `k` requirements against the selected
/// targets: satisfied weight, total weight and satisfied count.
pub open spec fn hermetic_recall_fold(
    requirements: Seq<WeightedDiagnosticRequirementV1>,
    selected: Seq<EvidenceTargetV1>,
    k: int,
) -> Result<(u64, u64, u64), HermeticIncidentCorpusErrorV1>
    decreases k,
{
    if k <= 0 {
        Ok((0u64, 0u64, 0u64))
    } else {
        match hermetic_recall_fold(requirements, selected, k - 1) {
            Err(e) => Err(e),
            Ok((satisfied, total, count)) => {
                let w = requirements[k - 1].weight_micros;
                if total + w > u64::MAX {
                    Err(HermeticIncidentCorpusErrorV1::ArithmeticOverflow)
                } else if requirements[k - 1].satisfied_by(selected) {
                    if satisfied + w > u64::MAX || count + 1 > u64::MAX {
                        Err(HermeticIncidentCorpusErrorV1::ArithmeticOverflow)
                    } else {
                        Ok(((satisfied + w) as u64, (total + w) as u64, (count + 1) as u64))
                    }
                } else {
                    Ok((satisfied, (total + w) as u64, count))
                }
            },
        }
    }
}

/// Exact recall of the requirements against selected events.
pub open spec fn spec_hermetic_recall(
    requirements: Seq<WeightedDiagnosticRequirementV1>,
    selected: Seq<EventId>,
) -> Result<ExactHermeticIncidentRecallV1, HermeticIncidentCorpusErrorV1> {
    match hermetic_recall_fold(requirements, spec_selected_targets(None, selected), requirements.len() as int) {
        Err(e) => Err(e),
        Ok((satisfied, total, count)) => Ok(
            ExactHermeticIncidentRecallV1 {
                satisfied_weight_micros: satisfied,
                total_weight_micros: total,
                satisfied_requirement_count: count,
                requirement_count: requirements.len() as u64,
            },
        ),
    }
}

proof fn lemma_recall_err_stays(
    requirements: Seq<WeightedDiagnosticRequirementV1>,
    selected: Seq<EvidenceTargetV1>,
    k: int,
    n: int,
)
    requires
        0 < k <= n,
        hermetic_recall_fold(requirements, selected, k) is Err,
    ensures
        hermetic_recall_fold(requirements, selected, n) == hermetic_recall_fold(requirements, selected, k),
    decreases n - k,
{
    if k < n {
        lemma_recall_err_stays(requirements, selected, k, n - 1);
    }
}

/// Exact weighted recall of the requirements against the selected events,
/// with checked sums.
pub fn evaluate_recall(
    requirements: &Vec<WeightedDiagnosticRequirementV1>,
    selected_event_ids: &Vec<EventId>,
) -> (r: Result<ExactHermeticIncidentRecallV1, HermeticIncidentCorpusErrorV1>)
    ensures
        r == spec_hermetic_recall(requirements@, selected_event_ids@),
{
    let selected = selected_targets_v1(None, selected_event_ids);
    let mut satisfied: u64 = 0;
    let mut total: u64 = 0;
    let mut count: u64 = 0;
    let mut i: usize = 0;
    while i < requirements.len()
        invariant
            i <= requirements.len(),
            selected@ == spec_selected_targets(None, selected_event_ids@),
            hermetic_recall_fold(requirements@, selected@, i as int) == Ok::<
                (u64, u64, u64),
                HermeticIncidentCorpusErrorV1,
            >((satisfied, total, count)),
        decreases requirements.len() - i,
    {
        let w = requirements[i].weight_micros;
        total = match total.checked_add(w) {
            Some(t) => t,
            None => {
                proof {
                    lemma_recall_err_stays(requirements@, selected@, i + 1, requirements.len() as int);
                }
                return Err(HermeticIncidentCorpusErrorV1::ArithmeticOverflow);
            },
        };
        if requirements[i].is_satisfied_by(&selected) {
            satisfied = match satisfied.checked_add(w) {
                Some(s) => s,
                None => {
                    proof {
                        lemma_recall_err_stays(requirements@, selected@, i + 1, requirements.len() as int);
                    }
                    return Err(HermeticIncidentCorpusErrorV1::ArithmeticOverflow);
                },
            };
            count = match count.checked_add(1) {
                Some(c) => c,
                None => {
                    proof {
                        lemma_recall_err_stays(requirements@, selected@, i + 1, requirements.len() as int);
                    }
                    return Err(HermeticIncidentCorpusErrorV1::ArithmeticOverflow);
                },
            };
        }
        i = i + 1;
    }
    Ok(
        ExactHermeticIncidentRecallV1 {
            satisfied_weight_micros: satisfied,
            total_weight_micros: total,
            satisfied_requirement_count: count,
            requirement_count: requirements.len() as u64,
        },
    )
}

/// Every target of the annotation is an event of the public ledger.
pub open spec fn hermetic_targets_ok(ledger: EventLedger, targets: Seq<EvidenceTargetV1>) -> bool {
    forall|i: int|
        0 <= i < targets.len() ==> (#[trigger] targets[i] matches EvidenceTargetV1::Event(e) && ledger.has_event(e))
}

/// Every annotation target must name an event of the public case's ledger;
/// block targets are not admitted here.
pub fn validate_targets(
    public: &FrozenHermeticIncidentPublicCaseV1,
    annotation: &EvidentrailBenchAnnotationSpecV1,
) -> (r: Result<(), HermeticIncidentCorpusErrorV1>)
    ensures
        r is Ok <==> hermetic_targets_ok(public.ledger, annotation_targets(*annotation)),
        r matches Err(e) ==> e == HermeticIncidentCorpusErrorV1::EvidenceTargetMismatch,
{
    let targets = collect_annotation_targets(annotation);
    let mut i: usize = 0;
    while i < targets.len()
        invariant
            i <= targets.len(),
            targets@ == annotation_targets(*annotation),
            forall|k: int|
                0 <= k < i ==> (#[trigger] targets@[k] matches EvidenceTargetV1::Event(e) && public.ledger.has_event(e)),
        decreases targets.len() - i,
    {
        match targets[i] {
            EvidenceTargetV1::Event(e) => {
                if !public.ledger.contains(e) {
                    proof {
                        assert(!(targets@[i as int] matches EvidenceTargetV1::Event(x) && public.ledger.has_event(x)));
                    }
                    return Err(HermeticIncidentCorpusErrorV1::EvidenceTargetMismatch);
                }
            },
            EvidenceTargetV1::Block(_) => {
                proof {
                    assert(!(targets@[i as int] matches EvidenceTargetV1::Event(x) && public.ledger.has_event(x)));
                }
                return Err(HermeticIncidentCorpusErrorV1::EvidenceTargetMismatch);
            },
        }
        i = i + 1;
    }
    Ok(())
}

fn bytes_equal(a: &Vec<u8>, b: &Vec<u8>) -> (r: bool)
    ensures
        r == (a@ == b@),
{
    if a.len() != b.len() {
        return false;
    }
    let mut i: usize = 0;
    while i < a.len()
        invariant
            i <= a.len(),
            a.len() == b.len(),
            forall|k: int| 0 <= k < i ==> a@[k] == b@[k],
        decreases a.len() - i,
    {
        if a[i] != b[i] {
            return false;
        }
        i = i + 1;
    }
    proof {
        assert(a@ =~= b@);
    }
    true
}

/// The expected outcome is backed by the public case: a diagnosis needs a
/// complete acquisition and acceptable roots; an abstention for a missing
/// component needs a partial acquisition whose scope names the component and
/// whose ledger holds no event from it; an abstention for unobservable
/// ordering needs an unknown acquisition. Abstentions carry no roots.
pub open spec fn authority_result(
    public: FrozenHermeticIncidentPublicCaseV1,
    annotation: HermeticIncidentGovernedAnnotationV1,
) -> Result<(), HermeticIncidentCorpusErrorV1> {
    match annotation.expected_outcome {
        HermeticIncidentExpectedOutcomeV1::Diagnose => if public.expected_acquisition_class
            != ExpectedAcquisitionClassV1::Complete || annotation.acceptable_roots.len() == 0 {
            Err(HermeticIncidentCorpusErrorV1::OutcomeMismatch)
        } else {
            Ok(())
        },
        HermeticIncidentExpectedOutcomeV1::Abstain(
            HermeticIncidentAbstentionAuthorityV1::MissingAuthorizedScopedComponent(component),
        ) => if public.expected_acquisition_class != ExpectedAcquisitionClassV1::Partial || !(exists|i: int|
            0 <= i < public.scope_components.len() && (#[trigger] public.scope_components@[i])@ == component@) || (exists|
            j: int,
        | 0 <= j < public.ledger.events.len() && (#[trigger] public.ledger.events@[j]).component@ == component@)
            || annotation.acceptable_roots.len() != 0 {
            Err(HermeticIncidentCorpusErrorV1::AbstentionAuthorityMismatch)
        } else {
            Ok(())
        },
        HermeticIncidentExpectedOutcomeV1::Abstain(
            HermeticIncidentAbstentionAuthorityV1::PredecessorOrderingUnobservable,
        ) => if public.expected_acquisition_class != ExpectedAcquisitionClassV1::Unknown
            || annotation.acceptable_roots.len() != 0 {
            Err(HermeticIncidentCorpusErrorV1::AbstentionAuthorityMismatch)
        } else {
            Ok(())
        },
    }
}

pub fn validate_outcome_authority(
    public: &FrozenHermeticIncidentPublicCaseV1,
    annotation: &HermeticIncidentGovernedAnnotationV1,
) -> (r: Result<(), HermeticIncidentCorpusErrorV1>)
    ensures
        r == authority_result(*public, *annotation),
{
    match &annotation.expected_outcome {
        HermeticIncidentExpectedOutcomeV1::Diagnose => {
            if public.expected_acquisition_class != ExpectedAcquisitionClassV1::Complete
                || annotation.acceptable_roots.len() == 0 {
                return Err(HermeticIncidentCorpusErrorV1::OutcomeMismatch);
            }
            Ok(())
        },
        HermeticIncidentExpectedOutcomeV1::Abstain(
            HermeticIncidentAbstentionAuthorityV1::MissingAuthorizedScopedComponent(component),
        ) => {
            if public.expected_acquisition_class != ExpectedAcquisitionClassV1::Partial {
                return Err(HermeticIncidentCorpusErrorV1::AbstentionAuthorityMismatch);
            }
            let mut in_scope = false;
            let mut i: usize = 0;
            while i < public.scope_components.len()
                invariant
                    i <= public.scope_components.len(),
                    in_scope == (exists|k: int| 0 <= k < i && (#[trigger] public.scope_components@[k])@ == component@),
                decreases public.scope_components.len() - i,
            {
                if bytes_equal(&public.scope_components[i], component) {
                    in_scope = true;
                }
                i = i + 1;
            }
            let mut observed = false;
            let mut j: usize = 0;
            while j < public.ledger.events.len()
                invariant
                    j <= public.ledger.events.len(),
                    observed == (exists|k: int|
                        0 <= k < j && (#[trigger] public.ledger.events@[k]).component@ == component@),
                decreases public.ledger.events.len() - j,
            {
                if bytes_equal(&public.ledger.events[j].component, component) {
                    observed = true;
                }
                j = j + 1;
            }
            if !in_scope || observed || annotation.acceptable_roots.len() != 0 {
                return Err(HermeticIncidentCorpusErrorV1::AbstentionAuthorityMismatch);
            }
            Ok(())
        },
        HermeticIncidentExpectedOutcomeV1::Abstain(
            HermeticIncidentAbstentionAuthorityV1::PredecessorOrderingUnobservable,
        ) => {
            if public.expected_acquisition_class != ExpectedAcquisitionClassV1::Unknown
                || annotation.acceptable_roots.len() != 0 {
                return Err(HermeticIncidentCorpusErrorV1::AbstentionAuthorityMismatch);
            }
            Ok(())
        },
    }
}

/// Exact recall of the first `k` arm outcomes.
pub open spec fn outcome_recalls(
    requirements: Seq<WeightedDiagnosticRequirementV1>,
    outcomes: Seq<FrozenHermeticIncidentArmOutcomeV1>,
    k: int,
) -> Result<Seq<ExactHermeticIncidentRecallV1>, HermeticIncidentCorpusErrorV1>
    decreases k,
{
    if k <= 0 {
        Ok(Seq::empty())
    } else {
        match outcome_recalls(requirements, outcomes, k - 1) {
            Err(e) => Err(e),
            Ok(done) => match spec_hermetic_recall(requirements, outcomes[k - 1].selected_event_ids@) {
                Err(e) => Err(e),
                Ok(recall) => Ok(done.push(recall)),
            },
        }
    }
}

/// Governing one case: the join, the targets, the outcome authority, then
/// the exact recall of every arm and of the exact oracle.
pub open spec fn spec_govern_case(
    public: FrozenHermeticIncidentPublicCaseV1,
    annotation: HermeticIncidentGovernedAnnotationV1,
) -> Result<(Seq<ExactHermeticIncidentRecallV1>, ExactHermeticIncidentRecallV1), HermeticIncidentCorpusErrorV1> {
    let requirements = annotation.evidence.diagnostic_requirements@;
    if annotation.case != public.case || annotation.public_case_digest.0@ != public.digest.0@
        || annotation.evidence.public_case_artifact_digest.0@ != public.digest.0@ {
        Err(HermeticIncidentCorpusErrorV1::ForeignCase)
    } else if !hermetic_targets_ok(public.ledger, annotation_targets(annotation.evidence)) {
        Err(HermeticIncidentCorpusErrorV1::EvidenceTargetMismatch)
    } else {
        match authority_result(public, annotation) {
            Err(e) => Err(e),
            Ok(_) => match outcome_recalls(requirements, public.outcomes@, public.outcomes.len() as int) {
                Err(e) => Err(e),
                Ok(recalls) => if public.outcomes.len() != HERMETIC_INCIDENT_ARM_COUNT_V1 {
                    Err(HermeticIncidentCorpusErrorV1::FixtureInvariant)
                } else {
                    match spec_hermetic_recall(requirements, public.exact_oracle.selected_event_ids@) {
                        Err(e) => Err(e),
                        Ok(oracle) => Ok((recalls, oracle)),
                    }
                },
            },
        }
    }
}

/// Two expected outcomes say the same.
pub open spec fn same_expected_outcome(a: HermeticIncidentExpectedOutcomeV1, b: HermeticIncidentExpectedOutcomeV1) -> bool {
    match (a, b) {
        (HermeticIncidentExpectedOutcomeV1::Diagnose, HermeticIncidentExpectedOutcomeV1::Diagnose) => true,
        (
            HermeticIncidentExpectedOutcomeV1::Abstain(
                HermeticIncidentAbstentionAuthorityV1::MissingAuthorizedScopedComponent(x),
            ),
            HermeticIncidentExpectedOutcomeV1::Abstain(
                HermeticIncidentAbstentionAuthorityV1::MissingAuthorizedScopedComponent(y),
            ),
        ) => x@ == y@,
        (
            HermeticIncidentExpectedOutcomeV1::Abstain(
                HermeticIncidentAbstentionAuthorityV1::PredecessorOrderingUnobservable,
            ),
            HermeticIncidentExpectedOutcomeV1::Abstain(
                HermeticIncidentAbstentionAuthorityV1::PredecessorOrderingUnobservable,
            ),
        ) => true,
        _ => false,
    }
}

/// The governed arm outcome of one frozen arm outcome and its recall.
pub open spec fn governed_arm(
    outcome: FrozenHermeticIncidentArmOutcomeV1,
    recall: ExactHermeticIncidentRecallV1,
) -> GovernedHermeticIncidentArmOutcomeV1 {
    GovernedHermeticIncidentArmOutcomeV1 {
        arm: outcome.arm,
        public_outcome_digest: outcome.digest,
        method_config_digest: outcome.method_config_digest,
        recall,
        selected_unique_source_bytes: outcome.selected_unique_source_bytes,
        selected_packet_count: outcome.selected_packet_count,
        accounted_token_upper_bound: outcome.accounted_token_upper_bound,
    }
}

/// A governed case holds the public case's identities, the annotation's
/// family and expected outcome, and these recalls.
pub open spec fn governed_case_matches(
    g: GovernedHermeticIncidentCaseV1,
    public: FrozenHermeticIncidentPublicCaseV1,
    annotation: HermeticIncidentGovernedAnnotationV1,
    recalls: Seq<ExactHermeticIncidentRecallV1>,
    oracle: ExactHermeticIncidentRecallV1,
) -> bool {
    &&& g.case == public.case
    &&& annotation.case == public.case
    &&& g.public_case_digest == public.digest
    &&& g.annotation_digest == annotation.digest
    &&& g.fault_family == annotation.fault_family
    &&& same_expected_outcome(g.expected_outcome, annotation.expected_outcome)
    &&& g.outcomes.len() == public.outcomes.len()
    &&& recalls.len() == public.outcomes.len()
    &&& forall|i: int|
        0 <= i < g.outcomes.len() ==> #[trigger] g.outcomes@[i] == governed_arm(public.outcomes@[i], recalls[i])
    &&& g.exact_oracle_recall == oracle
}

pub fn copy_expected_outcome(outcome: &HermeticIncidentExpectedOutcomeV1) -> (r: HermeticIncidentExpectedOutcomeV1)
    ensures
        same_expected_outcome(r, *outcome),
{
    match outcome {
        HermeticIncidentExpectedOutcomeV1::Diagnose => HermeticIncidentExpectedOutcomeV1::Diagnose,
        HermeticIncidentExpectedOutcomeV1::Abstain(
            HermeticIncidentAbstentionAuthorityV1::MissingAuthorizedScopedComponent(component),
        ) => HermeticIncidentExpectedOutcomeV1::Abstain(
            HermeticIncidentAbstentionAuthorityV1::MissingAuthorizedScopedComponent(
                crate::order_aware_beam::copy_vec(component),
            ),
        ),
        HermeticIncidentExpectedOutcomeV1::Abstain(
            HermeticIncidentAbstentionAuthorityV1::PredecessorOrderingUnobservable,
        ) => HermeticIncidentExpectedOutcomeV1::Abstain(
            HermeticIncidentAbstentionAuthorityV1::PredecessorOrderingUnobservable,
        ),
    }
}

proof fn lemma_outcomes_err_stays(
    requirements: Seq<WeightedDiagnosticRequirementV1>,
    outcomes: Seq<FrozenHermeticIncidentArmOutcomeV1>,
    k: int,
    n: int,
    e: HermeticIncidentCorpusErrorV1,
)
    requires
        0 <= k <= n,
        outcome_recalls(requirements, outcomes, k) == Err::<Seq<ExactHermeticIncidentRecallV1>, HermeticIncidentCorpusErrorV1>(e),
    ensures
        outcome_recalls(requirements, outcomes, n) == Err::<Seq<ExactHermeticIncidentRecallV1>, HermeticIncidentCorpusErrorV1>(e),
    decreases n - k,
{
    if k < n {
        lemma_outcomes_err_stays(requirements, outcomes, k, n - 1, e);
    }
}

/// Join one hidden annotation to its public case and compute exact recall of
/// every arm and of the exact oracle.
pub fn govern_case(
    public: &FrozenHermeticIncidentPublicCaseV1,
    annotation: &HermeticIncidentGovernedAnnotationV1,
) -> (r: Result<GovernedHermeticIncidentCaseV1, HermeticIncidentCorpusErrorV1>)
    ensures
        match spec_govern_case(*public, *annotation) {
            Err(e) => r == Err::<GovernedHermeticIncidentCaseV1, HermeticIncidentCorpusErrorV1>(e),
            Ok((recalls, oracle)) => r matches Ok(g) && governed_case_matches(g, *public, *annotation, recalls, oracle),
        },
{
    if annotation.case != public.case || !bytes32_eq(&annotation.public_case_digest.0, &public.digest.0)
        || !bytes32_eq(&annotation.evidence.public_case_artifact_digest.0, &public.digest.0) {
        return Err(HermeticIncidentCorpusErrorV1::ForeignCase);
    }
    if let Err(e) = validate_targets(public, &annotation.evidence) {
        return Err(e);
    }
    if let Err(e) = validate_outcome_authority(public, annotation) {
        return Err(e);
    }
    let requirements = &annotation.evidence.diagnostic_requirements;
    let mut outcomes: Vec<GovernedHermeticIncidentArmOutcomeV1> = Vec::new();
    let ghost mut recalls: Seq<ExactHermeticIncidentRecallV1> = Seq::empty();
    let mut i: usize = 0;
    while i < public.outcomes.len()
        invariant
            i <= public.outcomes.len(),
            requirements@ == annotation.evidence.diagnostic_requirements@,
            !(annotation.case != public.case || annotation.public_case_digest.0@ != public.digest.0@
                || annotation.evidence.public_case_artifact_digest.0@ != public.digest.0@),
            hermetic_targets_ok(public.ledger, annotation_targets(annotation.evidence)),
            authority_result(*public, *annotation) is Ok,
            outcome_recalls(requirements@, public.outcomes@, i as int) == Ok::<
                Seq<ExactHermeticIncidentRecallV1>,
                HermeticIncidentCorpusErrorV1,
            >(recalls),
            outcomes.len() == i,
            recalls.len() == i,
            forall|k: int| 0 <= k < i ==> #[trigger] outcomes@[k] == governed_arm(public.outcomes@[k], recalls[k]),
        decreases public.outcomes.len() - i,
    {
        let outcome = &public.outcomes[i];
        let recall = match evaluate_recall(requirements, &outcome.selected_event_ids) {
            Ok(r) => r,
            Err(e) => {
                proof {
                    lemma_outcomes_err_stays(requirements@, public.outcomes@, i + 1, public.outcomes.len() as int, e);
                }
                return Err(e);
            },
        };
        outcomes.push(
            GovernedHermeticIncidentArmOutcomeV1 {
                arm: outcome.arm,
                public_outcome_digest: outcome.digest,
                method_config_digest: outcome.method_config_digest,
                recall,
                selected_unique_source_bytes: outcome.selected_unique_source_bytes,
                selected_packet_count: outcome.selected_packet_count,
                accounted_token_upper_bound: outcome.accounted_token_upper_bound,
            },
        );
        proof {
            recalls = recalls.push(recall);
        }
        i = i + 1;
    }
    if public.outcomes.len() != HERMETIC_INCIDENT_ARM_COUNT_V1 {
        return Err(HermeticIncidentCorpusErrorV1::FixtureInvariant);
    }
    let oracle = match evaluate_recall(requirements, &public.exact_oracle.selected_event_ids) {
        Ok(r) => r,
        Err(e) => {
            return Err(e);
        },
    };
    Ok(
        GovernedHermeticIncidentCaseV1 {
            case: public.case,
            public_case_digest: public.digest,
            annotation_digest: annotation.digest,
            fault_family: annotation.fault_family,
            expected_outcome: copy_expected_outcome(&annotation.expected_outcome),
            outcomes,
            exact_oracle_recall: oracle,
        },
    )
}

/// Domain that opens the governed corpus digest.
pub const GOVERNED_CORPUS_DOMAIN_V1: &'static str = "evidentrail/bench/hermetic-incident-governed-corpus/v1\0";

/// The frozen public corpus: every case, in the closed case order.
#[derive(Clone, Debug)]
pub struct FrozenHermeticIncidentPublicCorpusV1 {
    pub digest: ArtifactDigest,
    pub cases: Vec<FrozenHermeticIncidentPublicCaseV1>,
    pub complete_count: u64,
    pub partial_count: u64,
    pub unknown_count: u64,
}

fn case_at_position(i: usize) -> (r: HermeticIncidentCaseV1)
    ensures
        r == case_at(i as int),
{
    if i == 0 {
        HermeticIncidentCaseV1::Case01
    } else if i == 1 {
        HermeticIncidentCaseV1::Case02
    } else if i == 2 {
        HermeticIncidentCaseV1::Case03
    } else if i == 3 {
        HermeticIncidentCaseV1::Case04
    } else if i == 4 {
        HermeticIncidentCaseV1::Case05
    } else if i == 5 {
        HermeticIncidentCaseV1::Case06
    } else if i == 6 {
        HermeticIncidentCaseV1::Case07
    } else {
        HermeticIncidentCaseV1::Case08
    }
}

/// Case positions name distinct cases.
proof fn lemma_case_at_distinct(a: int, b: int)
    requires
        0 <= a < HERMETIC_INCIDENT_CASE_COUNT_V1,
        0 <= b < HERMETIC_INCIDENT_CASE_COUNT_V1,
        a != b,
    ensures
        case_at(a) != case_at(b),
{
}

/// While cases are taken out in case order, the next one is still among the
/// rest.
proof fn lemma_rank_in_rest(
    given: Seq<FrozenHermeticIncidentPublicCaseV1>,
    ordered: Seq<FrozenHermeticIncidentPublicCaseV1>,
    rest: Seq<FrozenHermeticIncidentPublicCaseV1>,
    r: int,
)
    requires
        0 <= r < HERMETIC_INCIDENT_CASE_COUNT_V1,
        ordered.len() == r,
        ordered.to_multiset().add(rest.to_multiset()) == given.to_multiset(),
        forall|q: int| 0 <= q < r ==> (#[trigger] ordered[q]).case == case_at(q),
        public_case_present(given, case_at(r)),
    ensures
        exists|q: int| 0 <= q < rest.len() && (#[trigger] rest[q]).case == case_at(r),
{
    broadcast use vstd::multiset::group_multiset_axioms;
    let p = choose|p: int| 0 <= p < given.len() && (#[trigger] given[p]).case == case_at(r);
    let x = given[p];
    vstd::seq_lib::to_multiset_contains(given, x);
    assert(given.contains(x));
    vstd::seq_lib::to_multiset_contains(ordered, x);
    vstd::seq_lib::to_multiset_contains(rest, x);
    if ordered.contains(x) {
        let q = choose|q: int| 0 <= q < ordered.len() && ordered[q] == x;
        lemma_case_at_distinct(q, r);
        assert(false);
    }
    let q = choose|q: int| 0 <= q < rest.len() && rest[q] == x;
    assert(rest[q].case == case_at(r));
}

/// Once every case is taken out, nothing else remains: the given cases were
/// exactly the corpus cases.
proof fn lemma_rest_empty(
    given: Seq<FrozenHermeticIncidentPublicCaseV1>,
    ordered: Seq<FrozenHermeticIncidentPublicCaseV1>,
    rest: Seq<FrozenHermeticIncidentPublicCaseV1>,
)
    requires
        ordered.len() == HERMETIC_INCIDENT_CASE_COUNT_V1,
        ordered.to_multiset().add(rest.to_multiset()) == given.to_multiset(),
        forall|q: int| 0 <= q < HERMETIC_INCIDENT_CASE_COUNT_V1 ==> (#[trigger] ordered[q]).case == case_at(q),
        !public_case_repeated(given),
    ensures
        rest.len() == 0,
        ordered.to_multiset() == given.to_multiset(),
{
    broadcast use vstd::multiset::group_multiset_axioms;
    if rest.len() > 0 {
        let x = rest[0];
        vstd::seq_lib::to_multiset_contains(rest, x);
        vstd::seq_lib::to_multiset_contains(given, x);
        let p = choose|p: int| 0 <= p < given.len() && given[p] == x;
        let k = case_rank(x.case);
        assert(0 <= k < HERMETIC_INCIDENT_CASE_COUNT_V1);
        assert(case_at(k) == x.case);
        let y = ordered[k];
        vstd::seq_lib::to_multiset_contains(ordered, y);
        vstd::seq_lib::to_multiset_contains(given, y);
        assert(ordered.contains(y));
        let p2 = choose|p2: int| 0 <= p2 < given.len() && given[p2] == y;
        if x == y {
            assert(given.no_duplicates()) by {
                assert forall|i: int, j: int|
                    0 <= i < given.len() && 0 <= j < given.len() && i != j implies given[i] != given[j] by {
                    if i < j {
                        assert(given[i].case != given[j].case);
                    } else {
                        assert(given[j].case != given[i].case);
                    }
                }
            }
            given.lemma_multiset_has_no_duplicates();
            assert(ordered.to_multiset().count(x) >= 1);
            assert(rest.to_multiset().count(x) >= 1);
            assert(given.to_multiset().count(x) == 1);
        } else if p < p2 {
            assert(given[p].case == given[p2].case);
        } else {
            assert(p != p2);
            assert(given[p2].case == given[p].case);
        }
        assert(false);
    }
    vstd::seq_lib::to_multiset_len(rest);
    vstd::multiset::lemma_multiset_empty_len(rest.to_multiset());
    assert(ordered.to_multiset().add(rest.to_multiset()) =~= ordered.to_multiset());
}

pub const PUBLIC_CORPUS_DOMAIN_V1: &'static str = "evidentrail/bench/hermetic-incident-public-corpus/v1\0";

/// Some case occurs twice among frozen public cases.
pub open spec fn public_case_repeated(cases: Seq<FrozenHermeticIncidentPublicCaseV1>) -> bool {
    exists|i: int, j: int| 0 <= i < j < cases.len() && cases[i].case == cases[j].case
}

/// A case occurs among frozen public cases.
pub open spec fn public_case_present(cases: Seq<FrozenHermeticIncidentPublicCaseV1>, case: HermeticIncidentCaseV1) -> bool {
    exists|p: int| 0 <= p < cases.len() && (#[trigger] cases[p]).case == case
}

/// How many frozen public cases expect an acquisition class.
pub open spec fn class_count(cases: Seq<FrozenHermeticIncidentPublicCaseV1>, class: ExpectedAcquisitionClassV1) -> nat
    decreases cases.len(),
{
    if cases.len() == 0 {
        0
    } else {
        class_count(cases.drop_last(), class) + if cases.last().expected_acquisition_class == class {
            1nat
        } else {
            0nat
        }
    }
}

/// The case digests, one after another.
pub open spec fn public_case_digests(cases: Seq<FrozenHermeticIncidentPublicCaseV1>) -> Seq<u8>
    decreases cases.len(),
{
    if cases.len() == 0 {
        Seq::empty()
    } else {
        public_case_digests(cases.drop_last()) + cases.last().digest.0@
    }
}

/// The committed bytes of the public corpus: the domain, the case count, each
/// case digest in case order, then the complete, partial and unknown counts,
/// all as big-endian `u64`s.
pub open spec fn public_corpus_message(cases: Seq<FrozenHermeticIncidentPublicCaseV1>) -> Seq<u8> {
    encode_utf8(PUBLIC_CORPUS_DOMAIN_V1@) + u64_be(cases.len() as u64) + public_case_digests(cases) + u64_be(
        class_count(cases, ExpectedAcquisitionClassV1::Complete) as u64,
    ) + u64_be(class_count(cases, ExpectedAcquisitionClassV1::Partial) as u64) + u64_be(
        class_count(cases, ExpectedAcquisitionClassV1::Unknown) as u64,
    )
}

fn count_class(cases: &Vec<FrozenHermeticIncidentPublicCaseV1>, class: ExpectedAcquisitionClassV1) -> (r: u64)
    requires
        cases.len() <= HERMETIC_INCIDENT_CASE_COUNT_V1,
    ensures
        r == class_count(cases@, class),
{
    let mut count: u64 = 0;
    let mut i: usize = 0;
    while i < cases.len()
        invariant
            i <= cases.len() <= HERMETIC_INCIDENT_CASE_COUNT_V1,
            count == class_count(cases@.take(i as int), class),
            count <= i,
        decreases cases.len() - i,
    {
        proof {
            assert(cases@.take(i + 1).drop_last() =~= cases@.take(i as int));
        }
        if cases[i].expected_acquisition_class == class {
            count = count + 1;
        }
        i = i + 1;
    }
    proof {
        assert(cases@.take(i as int) =~= cases@);
    }
    count
}

/// Assemble the public corpus from its frozen cases, given in any order:
/// a case given twice is refused, then a case not given; the cases are kept
/// in case order with their acquisition-class counts under one digest.
pub fn assemble_hermetic_incident_public_corpus_v1(cases: Vec<FrozenHermeticIncidentPublicCaseV1>) -> (r: Result<
    FrozenHermeticIncidentPublicCorpusV1,
    HermeticIncidentCorpusErrorV1,
>)
    ensures
        public_case_repeated(cases@) ==> r == Err::<FrozenHermeticIncidentPublicCorpusV1, HermeticIncidentCorpusErrorV1>(
            HermeticIncidentCorpusErrorV1::DuplicateCase,
        ),
        !public_case_repeated(cases@) && (exists|k: int|
            0 <= k < HERMETIC_INCIDENT_CASE_COUNT_V1 && !public_case_present(cases@, #[trigger] case_at(k)))
            ==> r == Err::<FrozenHermeticIncidentPublicCorpusV1, HermeticIncidentCorpusErrorV1>(
            HermeticIncidentCorpusErrorV1::MissingCase,
        ),
        !public_case_repeated(cases@) && (forall|k: int|
            0 <= k < HERMETIC_INCIDENT_CASE_COUNT_V1 ==> public_case_present(cases@, #[trigger] case_at(k)))
            ==> r is Ok,
        r matches Ok(c) ==> {
            &&& c.cases.len() == HERMETIC_INCIDENT_CASE_COUNT_V1
            &&& c.cases@.to_multiset() == cases@.to_multiset()
            &&& forall|k: int| 0 <= k < c.cases.len() ==> (#[trigger] c.cases@[k]).case == case_at(k)
            &&& c.complete_count == class_count(c.cases@, ExpectedAcquisitionClassV1::Complete)
            &&& c.partial_count == class_count(c.cases@, ExpectedAcquisitionClassV1::Partial)
            &&& c.unknown_count == class_count(c.cases@, ExpectedAcquisitionClassV1::Unknown)
            &&& c.digest.0@ == sha256_spec(public_corpus_message(c.cases@))
        },
{
    let n = cases.len();
    let mut i: usize = 0;
    while i < n
        invariant
            i <= n == cases.len(),
            forall|a: int, b: int| 0 <= a < b < i ==> cases@[a].case != cases@[b].case,
        decreases n - i,
    {
        let mut j: usize = 0;
        while j < i
            invariant
                j <= i < n == cases.len(),
                forall|a: int| 0 <= a < j ==> cases@[a].case != cases@[i as int].case,
            decreases i - j,
        {
            if cases[j].case == cases[i].case {
                proof {
                    assert(cases@[j as int].case == cases@[i as int].case);
                }
                return Err(HermeticIncidentCorpusErrorV1::DuplicateCase);
            }
            j = j + 1;
        }
        i = i + 1;
    }
    let mut k: usize = 0;
    while k < HERMETIC_INCIDENT_CASE_COUNT_V1
        invariant
            k <= HERMETIC_INCIDENT_CASE_COUNT_V1,
            n == cases.len(),
            !public_case_repeated(cases@),
            forall|q: int| 0 <= q < k ==> public_case_present(cases@, #[trigger] case_at(q)),
        decreases HERMETIC_INCIDENT_CASE_COUNT_V1 - k,
    {
        let want = case_at_position(k);
        let mut found = false;
        let mut p: usize = 0;
        while p < n
            invariant
                p <= n == cases.len(),
                found ==> public_case_present(cases@, want),
                !found ==> forall|q: int| 0 <= q < p ==> cases@[q].case != want,
            decreases n - p,
        {
            if cases[p].case == want {
                found = true;
            }
            p = p + 1;
        }
        if !found {
            return Err(HermeticIncidentCorpusErrorV1::MissingCase);
        }
        k = k + 1;
    }
    let ghost given = cases@;
    let mut rest = cases;
    let mut ordered: Vec<FrozenHermeticIncidentPublicCaseV1> = Vec::new();
    proof {
        broadcast use vstd::multiset::group_multiset_axioms;
        vstd::seq_lib::to_multiset_len(ordered@);
        vstd::multiset::lemma_multiset_empty_len(ordered@.to_multiset());
        assert(ordered@.to_multiset().add(rest@.to_multiset()) =~= given.to_multiset());
    }
    let mut r: usize = 0;
    while r < HERMETIC_INCIDENT_CASE_COUNT_V1
        invariant
            r <= HERMETIC_INCIDENT_CASE_COUNT_V1,
            ordered.len() == r,
            ordered@.to_multiset().add(rest@.to_multiset()) == given.to_multiset(),
            forall|q: int| 0 <= q < r ==> (#[trigger] ordered@[q]).case == case_at(q),
            forall|q: int| 0 <= q < HERMETIC_INCIDENT_CASE_COUNT_V1 ==> public_case_present(given, #[trigger] case_at(q)),
            !public_case_repeated(given),
        decreases HERMETIC_INCIDENT_CASE_COUNT_V1 - r,
    {
        let want = case_at_position(r);
        proof {
            lemma_rank_in_rest(given, ordered@, rest@, r as int);
        }
        let mut p: usize = 0;
        while p < rest.len() && rest[p].case != want
            invariant
                p <= rest.len(),
                exists|q: int| p <= q < rest.len() && (#[trigger] rest@[q]).case == want,
            decreases rest.len() - p,
        {
            p = p + 1;
        }
        let ghost before_rest = rest@;
        let ghost before_ordered = ordered@;
        let c = rest.remove(p);
        ordered.push(c);
        proof {
            vstd::seq_lib::to_multiset_remove(before_rest, p as int);
            vstd::seq_lib::to_multiset_build(before_ordered, c);
            assert(before_rest.to_multiset().remove(c).insert(c) =~= before_rest.to_multiset()) by {
                broadcast use vstd::multiset::group_multiset_axioms;
                assert(before_rest.to_multiset().count(c) > 0) by {
                    vstd::seq_lib::to_multiset_contains(before_rest, c);
                    assert(before_rest[p as int] == c);
                }
            }
            assert(ordered@.to_multiset().add(rest@.to_multiset()) =~= given.to_multiset()) by {
                broadcast use vstd::multiset::group_multiset_axioms;
            }
        }
        r = r + 1;
    }
    proof {
        lemma_rest_empty(given, ordered@, rest@);
    }
    let complete_count = count_class(&ordered, ExpectedAcquisitionClassV1::Complete);
    let partial_count = count_class(&ordered, ExpectedAcquisitionClassV1::Partial);
    let unknown_count = count_class(&ordered, ExpectedAcquisitionClassV1::Unknown);
    let mut message: Vec<u8> = Vec::new();
    push_bytes(&mut message, PUBLIC_CORPUS_DOMAIN_V1.as_bytes());
    push_u64_be(&mut message, ordered.len() as u64);
    let mut q: usize = 0;
    while q < ordered.len()
        invariant
            q <= ordered.len(),
            message@ == encode_utf8(PUBLIC_CORPUS_DOMAIN_V1@) + u64_be(ordered.len() as u64) + public_case_digests(
                ordered@.take(q as int),
            ),
        decreases ordered.len() - q,
    {
        proof {
            assert(ordered@.take(q + 1).drop_last() =~= ordered@.take(q as int));
        }
        push_array32(&mut message, &ordered[q].digest.0);
        q = q + 1;
    }
    proof {
        assert(ordered@.take(q as int) =~= ordered@);
    }
    push_u64_be(&mut message, complete_count);
    push_u64_be(&mut message, partial_count);
    push_u64_be(&mut message, unknown_count);
    proof {
        assert(message@ =~= public_corpus_message(ordered@));
    }
    Ok(
        FrozenHermeticIncidentPublicCorpusV1 {
            digest: ArtifactDigest(sha256(message.as_slice())),
            cases: ordered,
            complete_count,
            partial_count,
            unknown_count,
        },
    )
}

/// The governed corpus: every governed case, each arm's summary and the
/// expected-outcome counts, under one digest.
#[derive(Clone, Debug)]
pub struct GovernedHermeticIncidentOutcomeCorpusV1 {
    pub digest: ArtifactDigest,
    pub public_corpus_digest: ArtifactDigest,
    pub cases: Vec<GovernedHermeticIncidentCaseV1>,
    pub arm_summaries: Vec<HermeticIncidentArmSummaryV1>,
    pub diagnosis_expected_count: u64,
    pub abstention_expected_count: u64,
    pub exact_oracle_evaluated_count: u64,
}

/// The case at a position of the closed case order.
pub open spec fn case_at(i: int) -> HermeticIncidentCaseV1 {
    if i == 0 {
        HermeticIncidentCaseV1::Case01
    } else if i == 1 {
        HermeticIncidentCaseV1::Case02
    } else if i == 2 {
        HermeticIncidentCaseV1::Case03
    } else if i == 3 {
        HermeticIncidentCaseV1::Case04
    } else if i == 4 {
        HermeticIncidentCaseV1::Case05
    } else if i == 5 {
        HermeticIncidentCaseV1::Case06
    } else if i == 6 {
        HermeticIncidentCaseV1::Case07
    } else {
        HermeticIncidentCaseV1::Case08
    }
}

/// Position of a case in the closed case order.
pub open spec fn case_rank(case: HermeticIncidentCaseV1) -> int {
    match case {
        HermeticIncidentCaseV1::Case01 => 0,
        HermeticIncidentCaseV1::Case02 => 1,
        HermeticIncidentCaseV1::Case03 => 2,
        HermeticIncidentCaseV1::Case04 => 3,
        HermeticIncidentCaseV1::Case05 => 4,
        HermeticIncidentCaseV1::Case06 => 5,
        HermeticIncidentCaseV1::Case07 => 6,
        HermeticIncidentCaseV1::Case08 => 7,
    }
}

pub fn case_index(case: HermeticIncidentCaseV1) -> (r: usize)
    ensures
        r == case_rank(case),
        r < HERMETIC_INCIDENT_CASE_COUNT_V1,
        case_at(r as int) == case,
{
    match case {
        HermeticIncidentCaseV1::Case01 => 0,
        HermeticIncidentCaseV1::Case02 => 1,
        HermeticIncidentCaseV1::Case03 => 2,
        HermeticIncidentCaseV1::Case04 => 3,
        HermeticIncidentCaseV1::Case05 => 4,
        HermeticIncidentCaseV1::Case06 => 5,
        HermeticIncidentCaseV1::Case07 => 6,
        HermeticIncidentCaseV1::Case08 => 7,
    }
}

/// The arm at a position of the closed arm order.
pub open spec fn arm_at(i: int) -> HermeticIncidentArmV1 {
    if i == 0 {
        HermeticIncidentArmV1::FullThreeLane
    } else if i == 1 {
        HermeticIncidentArmV1::RawChronological
    } else if i == 2 {
        HermeticIncidentArmV1::GrepHeadTail
    } else if i == 3 {
        HermeticIncidentArmV1::QuotaHybrid
    } else {
        HermeticIncidentArmV1::Bm25fWholeEvent
    }
}

fn arm_at_position(i: usize) -> (r: HermeticIncidentArmV1)
    ensures
        r == arm_at(i as int),
{
    if i == 0 {
        HermeticIncidentArmV1::FullThreeLane
    } else if i == 1 {
        HermeticIncidentArmV1::RawChronological
    } else if i == 2 {
        HermeticIncidentArmV1::GrepHeadTail
    } else if i == 3 {
        HermeticIncidentArmV1::QuotaHybrid
    } else {
        HermeticIncidentArmV1::Bm25fWholeEvent
    }
}

/// Two annotations name the same case.
pub open spec fn has_duplicate_case(annotations: Seq<HermeticIncidentGovernedAnnotationV1>) -> bool {
    exists|p: int, q: int| 0 <= p < q < annotations.len() && (#[trigger] annotations[p]).case == (#[trigger] annotations[q]).case
}

/// Some annotation names the case.
pub open spec fn names_case(annotations: Seq<HermeticIncidentGovernedAnnotationV1>, case: HermeticIncidentCaseV1) -> bool {
    exists|p: int| 0 <= p < annotations.len() && (#[trigger] annotations[p]).case == case
}

/// The annotation that names the case.
pub open spec fn annotation_of(
    annotations: Seq<HermeticIncidentGovernedAnnotationV1>,
    case: HermeticIncidentCaseV1,
) -> HermeticIncidentGovernedAnnotationV1 {
    annotations[choose|p: int| 0 <= p < annotations.len() && (#[trigger] annotations[p]).case == case]
}

/// Governing the first `k` cases of the closed order, each with its annotation.
pub open spec fn governed_prefix(
    public: FrozenHermeticIncidentPublicCorpusV1,
    annotations: Seq<HermeticIncidentGovernedAnnotationV1>,
    k: int,
) -> Result<Seq<(Seq<ExactHermeticIncidentRecallV1>, ExactHermeticIncidentRecallV1)>, HermeticIncidentCorpusErrorV1>
    decreases k,
{
    if k <= 0 {
        Ok(Seq::empty())
    } else {
        match governed_prefix(public, annotations, k - 1) {
            Err(e) => Err(e),
            Ok(done) => match spec_govern_case(public.cases@[k - 1], annotation_of(annotations, case_at(k - 1))) {
                Err(e) => Err(e),
                Ok(facts) => Ok(done.push(facts)),
            },
        }
    }
}

/// One arm's summary over the first `k` governed cases: satisfied weight,
/// total weight and perfect cases.
pub open spec fn arm_fold(
    facts: Seq<(Seq<ExactHermeticIncidentRecallV1>, ExactHermeticIncidentRecallV1)>,
    arm: int,
    k: int,
) -> Result<(u64, u64, u64), HermeticIncidentCorpusErrorV1>
    decreases k,
{
    if k <= 0 {
        Ok((0u64, 0u64, 0u64))
    } else {
        match arm_fold(facts, arm, k - 1) {
            Err(e) => Err(e),
            Ok((satisfied, total, perfect)) => {
                let recall = facts[k - 1].0[arm];
                if satisfied + recall.satisfied_weight_micros > u64::MAX || total + recall.total_weight_micros
                    > u64::MAX {
                    Err(HermeticIncidentCorpusErrorV1::ArithmeticOverflow)
                } else if recall.satisfied_weight_micros == recall.total_weight_micros {
                    if perfect + 1 > u64::MAX {
                        Err(HermeticIncidentCorpusErrorV1::ArithmeticOverflow)
                    } else {
                        Ok(
                            (
                                (satisfied + recall.satisfied_weight_micros) as u64,
                                (total + recall.total_weight_micros) as u64,
                                (perfect + 1) as u64,
                            ),
                        )
                    }
                } else {
                    Ok(
                        (
                            (satisfied + recall.satisfied_weight_micros) as u64,
                            (total + recall.total_weight_micros) as u64,
                            perfect,
                        ),
                    )
                }
            },
        }
    }
}

/// The summaries of the first `a` arms.
pub open spec fn summaries_prefix(
    facts: Seq<(Seq<ExactHermeticIncidentRecallV1>, ExactHermeticIncidentRecallV1)>,
    a: int,
) -> Result<Seq<HermeticIncidentArmSummaryV1>, HermeticIncidentCorpusErrorV1>
    decreases a,
{
    if a <= 0 {
        Ok(Seq::empty())
    } else {
        match summaries_prefix(facts, a - 1) {
            Err(e) => Err(e),
            Ok(done) => match arm_fold(facts, a - 1, facts.len() as int) {
                Err(e) => Err(e),
                Ok((satisfied, total, perfect)) => Ok(
                    done.push(
                        HermeticIncidentArmSummaryV1 {
                            arm: arm_at(a - 1),
                            satisfied_weight_micros: satisfied,
                            total_weight_micros: total,
                            perfect_case_count: perfect,
                        },
                    ),
                ),
            },
        }
    }
}

/// How many of the first `k` cases expect a diagnosis.
pub open spec fn diagnosis_count(annotations: Seq<HermeticIncidentGovernedAnnotationV1>, k: int) -> nat
    decreases k,
{
    if k <= 0 {
        0
    } else {
        diagnosis_count(annotations, k - 1) + (if annotation_of(annotations, case_at(k - 1)).expected_outcome is Diagnose {
            1nat
        } else {
            0nat
        })
    }
}

/// A field framed by its big-endian length.
pub open spec fn be_framed(bytes: Seq<u8>) -> Seq<u8> {
    u64_be(bytes.len() as u64) + bytes
}

pub open spec fn outcomes_bytes(
    outcomes: Seq<FrozenHermeticIncidentArmOutcomeV1>,
    recalls: Seq<ExactHermeticIncidentRecallV1>,
    n: int,
) -> Seq<u8>
    decreases n,
{
    if n <= 0 {
        Seq::empty()
    } else {
        outcomes_bytes(outcomes, recalls, n - 1) + outcomes[n - 1].digest.0@ + u64_be(
            recalls[n - 1].satisfied_weight_micros,
        ) + u64_be(recalls[n - 1].total_weight_micros)
    }
}

pub open spec fn governed_cases_bytes(
    public: FrozenHermeticIncidentPublicCorpusV1,
    annotations: Seq<HermeticIncidentGovernedAnnotationV1>,
    facts: Seq<(Seq<ExactHermeticIncidentRecallV1>, ExactHermeticIncidentRecallV1)>,
    k: int,
) -> Seq<u8>
    decreases k,
{
    if k <= 0 {
        Seq::empty()
    } else {
        let c = public.cases@[k - 1];
        governed_cases_bytes(public, annotations, facts, k - 1) + be_framed(encode_utf8(case_at(k - 1).spec_code()))
            + c.digest.0@ + annotation_of(annotations, case_at(k - 1)).digest.0@ + outcomes_bytes(
            c.outcomes@,
            facts[k - 1].0,
            facts[k - 1].0.len() as int,
        ) + u64_be(facts[k - 1].1.satisfied_weight_micros) + u64_be(facts[k - 1].1.total_weight_micros)
    }
}

pub open spec fn summaries_bytes(summaries: Seq<HermeticIncidentArmSummaryV1>, n: int) -> Seq<u8>
    decreases n,
{
    if n <= 0 {
        Seq::empty()
    } else {
        let s = summaries[n - 1];
        summaries_bytes(summaries, n - 1) + be_framed(encode_utf8(s.arm.spec_code())) + u64_be(
            s.satisfied_weight_micros,
        ) + u64_be(s.total_weight_micros) + u64_be(s.perfect_case_count)
    }
}

/// What governing the corpus gives: the error, or every case's recalls, the
/// arm summaries, the diagnosis count and the digest.
pub open spec fn spec_govern_corpus(
    public: FrozenHermeticIncidentPublicCorpusV1,
    annotations: Seq<HermeticIncidentGovernedAnnotationV1>,
) -> Result<
    (Seq<(Seq<ExactHermeticIncidentRecallV1>, ExactHermeticIncidentRecallV1)>, Seq<HermeticIncidentArmSummaryV1>, u64, Seq<u8>),
    HermeticIncidentCorpusErrorV1,
> {
    if has_duplicate_case(annotations) {
        Err(HermeticIncidentCorpusErrorV1::DuplicateCase)
    } else if exists|i: int| 0 <= i < HERMETIC_INCIDENT_CASE_COUNT_V1 && !names_case(annotations, #[trigger] case_at(i)) {
        Err(HermeticIncidentCorpusErrorV1::MissingCase)
    } else {
        match governed_prefix(public, annotations, HERMETIC_INCIDENT_CASE_COUNT_V1 as int) {
            Err(e) => Err(e),
            Ok(facts) => match summaries_prefix(facts, HERMETIC_INCIDENT_ARM_COUNT_V1 as int) {
                Err(e) => Err(e),
                Ok(summaries) => {
                    let diagnosis = diagnosis_count(annotations, HERMETIC_INCIDENT_CASE_COUNT_V1 as int) as u64;
                    let abstention = (HERMETIC_INCIDENT_CASE_COUNT_V1 - diagnosis) as u64;
                    let message = encode_utf8(GOVERNED_CORPUS_DOMAIN_V1@) + public.digest.0@ + governed_cases_bytes(
                        public,
                        annotations,
                        facts,
                        HERMETIC_INCIDENT_CASE_COUNT_V1 as int,
                    ) + summaries_bytes(summaries, summaries.len() as int) + u64_be(diagnosis) + u64_be(abstention);
                    Ok((facts, summaries, diagnosis, sha256_spec(message)))
                },
            },
        }
    }
}

/// Without duplicates, the annotation naming a case is the one at any
/// position that names it.
proof fn lemma_annotation_of_unique(
    annotations: Seq<HermeticIncidentGovernedAnnotationV1>,
    q: int,
)
    requires
        !has_duplicate_case(annotations),
        0 <= q < annotations.len(),
    ensures
        annotation_of(annotations, annotations[q].case) == annotations[q],
{
    let c = annotations[q].case;
    assert(annotations[q].case == c);
    let p = choose|p: int| 0 <= p < annotations.len() && (#[trigger] annotations[p]).case == c;
    if p < q {
        assert(has_duplicate_case(annotations));
    } else if q < p {
        assert(has_duplicate_case(annotations));
    }
}

/// Where each case's annotation stands, refusing a case named twice and a
/// case not named at all.
pub fn annotation_positions(annotations: &Vec<HermeticIncidentGovernedAnnotationV1>) -> (r: Result<
    Vec<usize>,
    HermeticIncidentCorpusErrorV1,
>)
    ensures
        has_duplicate_case(annotations@) ==> r == Err::<Vec<usize>, HermeticIncidentCorpusErrorV1>(
            HermeticIncidentCorpusErrorV1::DuplicateCase,
        ),
        !has_duplicate_case(annotations@) && (exists|i: int|
            0 <= i < HERMETIC_INCIDENT_CASE_COUNT_V1 && !names_case(annotations@, #[trigger] case_at(i))) ==> r
            == Err::<Vec<usize>, HermeticIncidentCorpusErrorV1>(HermeticIncidentCorpusErrorV1::MissingCase),
        r is Ok <==> !has_duplicate_case(annotations@) && (forall|i: int|
            0 <= i < HERMETIC_INCIDENT_CASE_COUNT_V1 ==> names_case(annotations@, #[trigger] case_at(i))),
        r matches Ok(pos) ==> pos.len() == HERMETIC_INCIDENT_CASE_COUNT_V1 && forall|i: int|
            0 <= i < HERMETIC_INCIDENT_CASE_COUNT_V1 ==> #[trigger] pos@[i] < annotations.len()
                && annotations@[pos@[i] as int].case == case_at(i),
{
    let mut slots: Vec<Option<usize>> = Vec::new();
    let mut j: usize = 0;
    while j < HERMETIC_INCIDENT_CASE_COUNT_V1
        invariant
            j <= HERMETIC_INCIDENT_CASE_COUNT_V1,
            slots.len() == j,
            forall|i: int| 0 <= i < j ==> slots@[i] is None,
        decreases HERMETIC_INCIDENT_CASE_COUNT_V1 - j,
    {
        slots.push(None);
        j = j + 1;
    }
    let mut k: usize = 0;
    while k < annotations.len()
        invariant
            k <= annotations.len(),
            slots.len() == HERMETIC_INCIDENT_CASE_COUNT_V1,
            forall|i: int|
                0 <= i < HERMETIC_INCIDENT_CASE_COUNT_V1 ==> (#[trigger] slots@[i] matches Some(p) ==> p < k
                    && annotations@[p as int].case == case_at(i)),
            forall|i: int|
                0 <= i < HERMETIC_INCIDENT_CASE_COUNT_V1 ==> (#[trigger] slots@[i] is None ==> forall|p: int|
                    0 <= p < k ==> annotations@[p].case != case_at(i)),
            forall|p: int, q: int|
                0 <= p < q < k ==> (#[trigger] annotations@[p]).case != (#[trigger] annotations@[q]).case,
        decreases annotations.len() - k,
    {
        let idx = case_index(annotations[k].case);
        match slots[idx] {
            Some(p) => {
                proof {
                    assert(annotations@[p as int].case == annotations@[k as int].case);
                    assert(has_duplicate_case(annotations@));
                }
                return Err(HermeticIncidentCorpusErrorV1::DuplicateCase);
            },
            None => {},
        }
        proof {
            assert forall|p: int| 0 <= p < k implies annotations@[p].case != annotations@[k as int].case by {
                assert(slots@[idx as int] is None);
            }
        }
        slots.set(idx, Some(k));
        k = k + 1;
        proof {
            assert forall|p: int, q: int| 0 <= p < q < k implies (#[trigger] annotations@[p]).case != (#[trigger] annotations@[q]).case by {
                if q == k - 1 {
                    assert(annotations@[p].case != annotations@[k - 1].case);
                }
            }
        }
    }
    proof {
        assert(!has_duplicate_case(annotations@)) by {
            if has_duplicate_case(annotations@) {
                let (p, q) = choose|p: int, q: int|
                    0 <= p < q < annotations@.len() && (#[trigger] annotations@[p]).case == (#[trigger] annotations@[q]).case;
                assert(annotations@[p].case != annotations@[q].case);
            }
        }
    }
    let mut positions: Vec<usize> = Vec::new();
    let mut i: usize = 0;
    while i < HERMETIC_INCIDENT_CASE_COUNT_V1
        invariant
            i <= HERMETIC_INCIDENT_CASE_COUNT_V1,
            slots.len() == HERMETIC_INCIDENT_CASE_COUNT_V1,
            !has_duplicate_case(annotations@),
            forall|c: int|
                0 <= c < HERMETIC_INCIDENT_CASE_COUNT_V1 ==> (#[trigger] slots@[c] matches Some(p) ==> p < annotations.len()
                    && annotations@[p as int].case == case_at(c)),
            forall|c: int|
                0 <= c < HERMETIC_INCIDENT_CASE_COUNT_V1 ==> (#[trigger] slots@[c] is None ==> forall|p: int|
                    0 <= p < annotations.len() ==> annotations@[p].case != case_at(c)),
            positions.len() == i,
            forall|c: int|
                0 <= c < i ==> #[trigger] positions@[c] < annotations.len() && annotations@[positions@[c] as int].case
                    == case_at(c),
        decreases HERMETIC_INCIDENT_CASE_COUNT_V1 - i,
    {
        match slots[i] {
            Some(p) => {
                positions.push(p);
            },
            None => {
                proof {
                    assert(!names_case(annotations@, case_at(i as int)));
                }
                return Err(HermeticIncidentCorpusErrorV1::MissingCase);
            },
        }
        i = i + 1;
    }
    proof {
        assert forall|c: int| 0 <= c < HERMETIC_INCIDENT_CASE_COUNT_V1 implies names_case(annotations@, #[trigger] case_at(c)) by {
            assert(annotations@[positions@[c] as int].case == case_at(c));
        }
    }
    Ok(positions)
}

proof fn lemma_governed_err_stays(
    public: FrozenHermeticIncidentPublicCorpusV1,
    annotations: Seq<HermeticIncidentGovernedAnnotationV1>,
    k: int,
    n: int,
    e: HermeticIncidentCorpusErrorV1,
)
    requires
        0 <= k <= n,
        governed_prefix(public, annotations, k) is Err,
        governed_prefix(public, annotations, k)->Err_0 == e,
    ensures
        governed_prefix(public, annotations, n) is Err,
        governed_prefix(public, annotations, n)->Err_0 == e,
    decreases n - k,
{
    if k < n {
        lemma_governed_err_stays(public, annotations, k, n - 1, e);
    }
}

proof fn lemma_summaries_err_stays(
    facts: Seq<(Seq<ExactHermeticIncidentRecallV1>, ExactHermeticIncidentRecallV1)>,
    k: int,
    n: int,
    e: HermeticIncidentCorpusErrorV1,
)
    requires
        0 <= k <= n,
        summaries_prefix(facts, k) is Err,
        summaries_prefix(facts, k)->Err_0 == e,
    ensures
        summaries_prefix(facts, n) is Err,
        summaries_prefix(facts, n)->Err_0 == e,
    decreases n - k,
{
    if k < n {
        lemma_summaries_err_stays(facts, k, n - 1, e);
    }
}

proof fn lemma_arm_err_stays(
    facts: Seq<(Seq<ExactHermeticIncidentRecallV1>, ExactHermeticIncidentRecallV1)>,
    arm: int,
    k: int,
    n: int,
)
    requires
        0 < k <= n,
        arm_fold(facts, arm, k) is Err,
    ensures
        arm_fold(facts, arm, n) == arm_fold(facts, arm, k),
    decreases n - k,
{
    if k < n {
        lemma_arm_err_stays(facts, arm, k, n - 1);
    }
}

proof fn lemma_diagnosis_bound(annotations: Seq<HermeticIncidentGovernedAnnotationV1>, k: int)
    requires
        0 <= k,
    ensures
        diagnosis_count(annotations, k) <= k,
    decreases k,
{
    if k > 0 {
        lemma_diagnosis_bound(annotations, k - 1);
    }
}

/// An arm whose running sums overflow makes the whole summary an overflow.
proof fn lemma_arm_overflow(
    facts: Seq<(Seq<ExactHermeticIncidentRecallV1>, ExactHermeticIncidentRecallV1)>,
    a: int,
    c: int,
)
    requires
        0 <= a < HERMETIC_INCIDENT_ARM_COUNT_V1,
        0 <= c < facts.len(),
        summaries_prefix(facts, a) is Ok,
        arm_fold(facts, a, c + 1) is Err,
        arm_fold(facts, a, c + 1)->Err_0 == HermeticIncidentCorpusErrorV1::ArithmeticOverflow,
    ensures
        summaries_prefix(facts, HERMETIC_INCIDENT_ARM_COUNT_V1 as int) is Err,
        summaries_prefix(facts, HERMETIC_INCIDENT_ARM_COUNT_V1 as int)->Err_0
            == HermeticIncidentCorpusErrorV1::ArithmeticOverflow,
{
    lemma_arm_err_stays(facts, a, c + 1, facts.len() as int);
    assert(summaries_prefix(facts, a + 1) is Err);
    lemma_summaries_err_stays(
        facts,
        a + 1,
        HERMETIC_INCIDENT_ARM_COUNT_V1 as int,
        HermeticIncidentCorpusErrorV1::ArithmeticOverflow,
    );
}

pub(crate) fn push_be_field(buf: &mut Vec<u8>, bytes: &[u8])
    ensures
        final(buf)@ == old(buf)@ + be_framed(bytes@),
{
    push_u64_be(buf, bytes.len() as u64);
    push_bytes(buf, bytes);
    proof {
        assert(buf@ =~= old(buf)@ + be_framed(bytes@));
    }
}


fn push_array32(buf: &mut Vec<u8>, a: &[u8; 32])
    ensures
        final(buf)@ == old(buf)@ + a@,
{
    let mut i: usize = 0;
    while i < 32
        invariant
            i <= 32,
            a@.len() == 32,
            buf@ == old(buf)@ + a@.subrange(0, i as int),
        decreases 32 - i,
    {
        buf.push(a[i]);
        i = i + 1;
        proof {
            assert(buf@ =~= old(buf)@ + a@.subrange(0, i as int));
        }
    }
    proof {
        assert(a@.subrange(0, 32) =~= a@);
    }
}

fn governed_corpus_message(
    public: &FrozenHermeticIncidentPublicCorpusV1,
    annotations: &Vec<HermeticIncidentGovernedAnnotationV1>,
    cases: &Vec<GovernedHermeticIncidentCaseV1>,
    summaries: &Vec<HermeticIncidentArmSummaryV1>,
    diagnosis: u64,
    abstention: u64,
    facts: Ghost<Seq<(Seq<ExactHermeticIncidentRecallV1>, ExactHermeticIncidentRecallV1)>>,
) -> (message: Vec<u8>)
    requires
        cases.len() == HERMETIC_INCIDENT_CASE_COUNT_V1,
        public.cases.len() == HERMETIC_INCIDENT_CASE_COUNT_V1,
        facts@.len() == HERMETIC_INCIDENT_CASE_COUNT_V1,
        forall|c: int|
            0 <= c < HERMETIC_INCIDENT_CASE_COUNT_V1 ==> governed_case_matches(
                #[trigger] cases@[c],
                public.cases@[c],
                annotation_of(annotations@, case_at(c)),
                facts@[c].0,
                facts@[c].1,
            ),
        forall|c: int|
            0 <= c < HERMETIC_INCIDENT_CASE_COUNT_V1 ==> (#[trigger] annotation_of(annotations@, case_at(c))).case == case_at(c),
    ensures
        message@ == encode_utf8(GOVERNED_CORPUS_DOMAIN_V1@) + public.digest.0@ + governed_cases_bytes(
            *public,
            annotations@,
            facts@,
            HERMETIC_INCIDENT_CASE_COUNT_V1 as int,
        ) + summaries_bytes(summaries@, summaries@.len() as int) + u64_be(diagnosis) + u64_be(abstention),
{
    let mut message: Vec<u8> = Vec::new();
    push_bytes(&mut message, GOVERNED_CORPUS_DOMAIN_V1.as_bytes());
    push_array32(&mut message, &public.digest.0);
    let ghost head = message@;
    let mut k: usize = 0;
    proof {
        assert(message@ =~= head + governed_cases_bytes(*public, annotations@, facts@, 0));
    }
    while k < cases.len()
        invariant
            k <= cases.len(),
            cases.len() == HERMETIC_INCIDENT_CASE_COUNT_V1,
            public.cases.len() == HERMETIC_INCIDENT_CASE_COUNT_V1,
            facts@.len() == HERMETIC_INCIDENT_CASE_COUNT_V1,
            forall|c: int|
                0 <= c < HERMETIC_INCIDENT_CASE_COUNT_V1 ==> governed_case_matches(
                    #[trigger] cases@[c],
                    public.cases@[c],
                    annotation_of(annotations@, case_at(c)),
                    facts@[c].0,
                    facts@[c].1,
                ),
            forall|c: int|
                0 <= c < HERMETIC_INCIDENT_CASE_COUNT_V1 ==> (#[trigger] annotation_of(annotations@, case_at(c))).case
                    == case_at(c),
            message@ == head + governed_cases_bytes(*public, annotations@, facts@, k as int),
        decreases cases.len() - k,
    {
        let ghost before = message@;
        let g = &cases[k];
        proof {
            assert(governed_case_matches(
                cases@[k as int],
                public.cases@[k as int],
                annotation_of(annotations@, case_at(k as int)),
                facts@[k as int].0,
                facts@[k as int].1,
            ));
            assert(annotation_of(annotations@, case_at(k as int)).case == case_at(k as int));
        }
        push_be_field(&mut message, g.case.code().as_bytes());
        push_array32(&mut message, &g.public_case_digest.0);
        push_array32(&mut message, &g.annotation_digest.0);
        let ghost mid = message@;
        let mut j: usize = 0;
        while j < g.outcomes.len()
            invariant
                j <= g.outcomes.len(),
                k < HERMETIC_INCIDENT_CASE_COUNT_V1,
                facts@.len() == HERMETIC_INCIDENT_CASE_COUNT_V1,
                public.cases.len() == HERMETIC_INCIDENT_CASE_COUNT_V1,
                *g == cases@[k as int],
                governed_case_matches(
                    *g,
                    public.cases@[k as int],
                    annotation_of(annotations@, case_at(k as int)),
                    facts@[k as int].0,
                    facts@[k as int].1,
                ),
                message@ == mid + outcomes_bytes(public.cases@[k as int].outcomes@, facts@[k as int].0, j as int),
            decreases g.outcomes.len() - j,
        {
            let o = g.outcomes[j];
            proof {
                assert(g.outcomes@[j as int] == governed_arm(public.cases@[k as int].outcomes@[j as int], facts@[k as int].0[j as int]));
            }
            push_array32(&mut message, &o.public_outcome_digest.0);
            push_u64_be(&mut message, o.recall.satisfied_weight_micros);
            push_u64_be(&mut message, o.recall.total_weight_micros);
            j = j + 1;
            proof {
                assert(message@ =~= mid + outcomes_bytes(public.cases@[k as int].outcomes@, facts@[k as int].0, j as int));
            }
        }
        push_u64_be(&mut message, g.exact_oracle_recall.satisfied_weight_micros);
        push_u64_be(&mut message, g.exact_oracle_recall.total_weight_micros);
        k = k + 1;
        proof {
            assert(facts@[k - 1].0.len() == public.cases@[k - 1].outcomes.len());
            assert(message@ =~= head + governed_cases_bytes(*public, annotations@, facts@, k as int));
        }
    }
    let ghost mid2 = message@;
    let mut a: usize = 0;
    while a < summaries.len()
        invariant
            a <= summaries.len(),
            message@ == mid2 + summaries_bytes(summaries@, a as int),
        decreases summaries.len() - a,
    {
        let sm = summaries[a];
        push_be_field(&mut message, sm.arm.code().as_bytes());
        push_u64_be(&mut message, sm.satisfied_weight_micros);
        push_u64_be(&mut message, sm.total_weight_micros);
        push_u64_be(&mut message, sm.perfect_case_count);
        a = a + 1;
        proof {
            assert(message@ =~= mid2 + summaries_bytes(summaries@, a as int));
        }
    }
    push_u64_be(&mut message, diagnosis);
    push_u64_be(&mut message, abstention);
    proof {
        assert(message@ =~= encode_utf8(GOVERNED_CORPUS_DOMAIN_V1@) + public.digest.0@ + governed_cases_bytes(
            *public,
            annotations@,
            facts@,
            HERMETIC_INCIDENT_CASE_COUNT_V1 as int,
        ) + summaries_bytes(summaries@, summaries@.len() as int) + u64_be(diagnosis) + u64_be(abstention));
    }
    message
}

/// Join exactly one hidden annotation to every public case and compute only
/// exact required-evidence recall, per arm and for the exact oracle; cases
/// that expect abstention are counted apart from those scored on diagnosis.
pub fn govern_hermetic_incident_outcome_corpus_v1(
    public: &FrozenHermeticIncidentPublicCorpusV1,
    annotations: Vec<HermeticIncidentGovernedAnnotationV1>,
) -> (r: Result<GovernedHermeticIncidentOutcomeCorpusV1, HermeticIncidentCorpusErrorV1>)
    requires
        public.cases.len() == HERMETIC_INCIDENT_CASE_COUNT_V1,
    ensures
        match spec_govern_corpus(*public, annotations@) {
            Err(e) => r is Err && r->Err_0 == e,
            Ok((facts, summaries, diagnosis, digest)) => r matches Ok(g) && g.public_corpus_digest == public.digest
                && g.digest.0@ == digest && g.cases.len() == HERMETIC_INCIDENT_CASE_COUNT_V1 && (forall|i: int|
                0 <= i < HERMETIC_INCIDENT_CASE_COUNT_V1 ==> governed_case_matches(
                    #[trigger] g.cases@[i],
                    public.cases@[i],
                    annotation_of(annotations@, case_at(i)),
                    facts[i].0,
                    facts[i].1,
                )) && g.arm_summaries@ == summaries && g.diagnosis_expected_count == diagnosis
                && g.abstention_expected_count == HERMETIC_INCIDENT_CASE_COUNT_V1 - diagnosis
                && g.exact_oracle_evaluated_count == HERMETIC_INCIDENT_CASE_COUNT_V1,
        },
{
    let positions = match annotation_positions(&annotations) {
        Ok(p) => p,
        Err(e) => {
            return Err(e);
        },
    };
    let mut cases: Vec<GovernedHermeticIncidentCaseV1> = Vec::new();
    let ghost mut facts: Seq<(Seq<ExactHermeticIncidentRecallV1>, ExactHermeticIncidentRecallV1)> = Seq::empty();
    let mut diagnosis: u64 = 0;
    let mut i: usize = 0;
    while i < HERMETIC_INCIDENT_CASE_COUNT_V1
        invariant
            i <= HERMETIC_INCIDENT_CASE_COUNT_V1,
            public.cases.len() == HERMETIC_INCIDENT_CASE_COUNT_V1,
            !has_duplicate_case(annotations@),
            forall|c: int| 0 <= c < HERMETIC_INCIDENT_CASE_COUNT_V1 ==> names_case(annotations@, #[trigger] case_at(c)),
            positions.len() == HERMETIC_INCIDENT_CASE_COUNT_V1,
            forall|c: int|
                0 <= c < HERMETIC_INCIDENT_CASE_COUNT_V1 ==> #[trigger] positions@[c] < annotations.len()
                    && annotations@[positions@[c] as int].case == case_at(c),
            governed_prefix(*public, annotations@, i as int) == Ok::<
                Seq<(Seq<ExactHermeticIncidentRecallV1>, ExactHermeticIncidentRecallV1)>,
                HermeticIncidentCorpusErrorV1,
            >(facts),
            cases.len() == i,
            facts.len() == i,
            forall|c: int|
                0 <= c < i ==> governed_case_matches(
                    #[trigger] cases@[c],
                    public.cases@[c],
                    annotation_of(annotations@, case_at(c)),
                    facts[c].0,
                    facts[c].1,
                ),
            forall|c: int| 0 <= c < i ==> (#[trigger] public.cases@[c]).outcomes.len() == HERMETIC_INCIDENT_ARM_COUNT_V1,
            diagnosis == diagnosis_count(annotations@, i as int),
        decreases HERMETIC_INCIDENT_CASE_COUNT_V1 - i,
    {
        let p = positions[i];
        proof {
            lemma_annotation_of_unique(annotations@, p as int);
            lemma_diagnosis_bound(annotations@, i as int);
        }
        let governed = match govern_case(&public.cases[i], &annotations[p]) {
            Ok(g) => g,
            Err(e) => {
                proof {
                    lemma_governed_err_stays(*public, annotations@, i + 1, HERMETIC_INCIDENT_CASE_COUNT_V1 as int, e);
                }
                return Err(e);
            },
        };
        if annotations[p].expected_outcome.diagnosis_scoring_eligible() {
            diagnosis = diagnosis + 1;
        }
        let ghost these = spec_govern_case(public.cases@[i as int], annotations@[p as int])->Ok_0;
        cases.push(governed);
        proof {
            facts = facts.push(these);
            assert forall|c: int|
                0 <= c < i + 1 implies governed_case_matches(
                    #[trigger] cases@[c],
                    public.cases@[c],
                    annotation_of(annotations@, case_at(c)),
                    facts[c].0,
                    facts[c].1,
                ) by {}
        }
        i = i + 1;
    }
    let mut summaries: Vec<HermeticIncidentArmSummaryV1> = Vec::new();
    let mut a: usize = 0;
    while a < HERMETIC_INCIDENT_ARM_COUNT_V1
        invariant
            a <= HERMETIC_INCIDENT_ARM_COUNT_V1,
            cases.len() == HERMETIC_INCIDENT_CASE_COUNT_V1,
            facts.len() == HERMETIC_INCIDENT_CASE_COUNT_V1,
            public.cases.len() == HERMETIC_INCIDENT_CASE_COUNT_V1,
            !has_duplicate_case(annotations@),
            forall|c: int| 0 <= c < HERMETIC_INCIDENT_CASE_COUNT_V1 ==> names_case(annotations@, #[trigger] case_at(c)),
            governed_prefix(*public, annotations@, HERMETIC_INCIDENT_CASE_COUNT_V1 as int) == Ok::<
                Seq<(Seq<ExactHermeticIncidentRecallV1>, ExactHermeticIncidentRecallV1)>,
                HermeticIncidentCorpusErrorV1,
            >(facts),
            forall|c: int|
                0 <= c < HERMETIC_INCIDENT_CASE_COUNT_V1 ==> governed_case_matches(
                    #[trigger] cases@[c],
                    public.cases@[c],
                    annotation_of(annotations@, case_at(c)),
                    facts[c].0,
                    facts[c].1,
                ),
            forall|c: int|
                0 <= c < HERMETIC_INCIDENT_CASE_COUNT_V1 ==> (#[trigger] public.cases@[c]).outcomes.len()
                    == HERMETIC_INCIDENT_ARM_COUNT_V1,
            summaries_prefix(facts, a as int) == Ok::<Seq<HermeticIncidentArmSummaryV1>, HermeticIncidentCorpusErrorV1>(
                summaries@,
            ),
            diagnosis == diagnosis_count(annotations@, HERMETIC_INCIDENT_CASE_COUNT_V1 as int),
        decreases HERMETIC_INCIDENT_ARM_COUNT_V1 - a,
    {
        let mut satisfied: u64 = 0;
        let mut total: u64 = 0;
        let mut perfect: u64 = 0;
        let mut c: usize = 0;
        while c < cases.len()
            invariant
                c <= cases.len(),
                a < HERMETIC_INCIDENT_ARM_COUNT_V1,
                cases.len() == HERMETIC_INCIDENT_CASE_COUNT_V1,
                facts.len() == HERMETIC_INCIDENT_CASE_COUNT_V1,
                forall|q: int|
                    0 <= q < HERMETIC_INCIDENT_CASE_COUNT_V1 ==> governed_case_matches(
                        #[trigger] cases@[q],
                        public.cases@[q],
                        annotation_of(annotations@, case_at(q)),
                        facts[q].0,
                        facts[q].1,
                    ),
                forall|q: int|
                    0 <= q < HERMETIC_INCIDENT_CASE_COUNT_V1 ==> (#[trigger] public.cases@[q]).outcomes.len()
                        == HERMETIC_INCIDENT_ARM_COUNT_V1,
                public.cases.len() == HERMETIC_INCIDENT_CASE_COUNT_V1,
                !has_duplicate_case(annotations@),
                forall|q: int| 0 <= q < HERMETIC_INCIDENT_CASE_COUNT_V1 ==> names_case(annotations@, #[trigger] case_at(q)),
                governed_prefix(*public, annotations@, HERMETIC_INCIDENT_CASE_COUNT_V1 as int) == Ok::<
                    Seq<(Seq<ExactHermeticIncidentRecallV1>, ExactHermeticIncidentRecallV1)>,
                    HermeticIncidentCorpusErrorV1,
                >(facts),
                summaries_prefix(facts, a as int) == Ok::<Seq<HermeticIncidentArmSummaryV1>, HermeticIncidentCorpusErrorV1>(
                    summaries@,
                ),
                arm_fold(facts, a as int, c as int) == Ok::<(u64, u64, u64), HermeticIncidentCorpusErrorV1>(
                    (satisfied, total, perfect),
                ),
            decreases cases.len() - c,
        {
            proof {
                assert(governed_case_matches(
                    cases@[c as int],
                    public.cases@[c as int],
                    annotation_of(annotations@, case_at(c as int)),
                    facts[c as int].0,
                    facts[c as int].1,
                ));
                assert(public.cases@[c as int].outcomes.len() == HERMETIC_INCIDENT_ARM_COUNT_V1);
                assert(cases@[c as int].outcomes@[a as int] == governed_arm(
                    public.cases@[c as int].outcomes@[a as int],
                    facts[c as int].0[a as int],
                ));
            }
            let recall = cases[c].outcomes[a].recall;
            satisfied = match satisfied.checked_add(recall.satisfied_weight_micros) {
                Some(v) => v,
                None => {
                    proof {
                        lemma_arm_overflow(facts, a as int, c as int);
                    }
                    return Err(HermeticIncidentCorpusErrorV1::ArithmeticOverflow);
                },
            };
            total = match total.checked_add(recall.total_weight_micros) {
                Some(v) => v,
                None => {
                    proof {
                        lemma_arm_overflow(facts, a as int, c as int);
                    }
                    return Err(HermeticIncidentCorpusErrorV1::ArithmeticOverflow);
                },
            };
            if recall.satisfied_weight_micros == recall.total_weight_micros {
                perfect = match perfect.checked_add(1) {
                    Some(v) => v,
                    None => {
                        proof {
                            lemma_arm_overflow(facts, a as int, c as int);
                        }
                        return Err(HermeticIncidentCorpusErrorV1::ArithmeticOverflow);
                    },
                };
            }
            c = c + 1;
        }
        summaries.push(
            HermeticIncidentArmSummaryV1 {
                arm: arm_at_position(a),
                satisfied_weight_micros: satisfied,
                total_weight_micros: total,
                perfect_case_count: perfect,
            },
        );
        a = a + 1;
    }
    proof {
        lemma_diagnosis_bound(annotations@, HERMETIC_INCIDENT_CASE_COUNT_V1 as int);
    }
    let abstention: u64 = HERMETIC_INCIDENT_CASE_COUNT_V1 as u64 - diagnosis;
    let message = governed_corpus_message(public, &annotations, &cases, &summaries, diagnosis, abstention, Ghost(facts));
    let digest = sha256(message.as_slice());
    Ok(
        GovernedHermeticIncidentOutcomeCorpusV1 {
            digest: ArtifactDigest::from_bytes(digest),
            public_corpus_digest: public.digest,
            cases,
            arm_summaries: summaries,
            diagnosis_expected_count: diagnosis,
            abstention_expected_count: abstention,
            exact_oracle_evaluated_count: HERMETIC_INCIDENT_CASE_COUNT_V1 as u64,
        },
    )
}

impl FrozenHermeticIncidentArmOutcomeV1 {
    pub fn digest(&self) -> (r: ArtifactDigest)
        ensures
            r == self.digest,
    {
        self.digest
    }

    pub fn arm(&self) -> (r: HermeticIncidentArmV1)
        ensures
            r == self.arm,
    {
        self.arm
    }

    pub fn producer_receipt_digest(&self) -> (r: Option<ArtifactDigest>)
        ensures
            r == self.producer_receipt_digest,
    {
        self.producer_receipt_digest
    }

    pub fn method_config_digest(&self) -> (r: Option<ArtifactDigest>)
        ensures
            r == self.method_config_digest,
    {
        self.method_config_digest
    }

    pub fn selected_event_ids(&self) -> (r: &[EventId])
        ensures
            r@ == self.selected_event_ids@,
    {
        self.selected_event_ids.as_slice()
    }

    pub fn selected_unique_source_bytes(&self) -> (r: u64)
        ensures
            r == self.selected_unique_source_bytes,
    {
        self.selected_unique_source_bytes
    }

    pub fn selected_packet_count(&self) -> (r: u64)
        ensures
            r == self.selected_packet_count,
    {
        self.selected_packet_count
    }

    pub fn accounted_token_upper_bound(&self) -> (r: Option<u64>)
        ensures
            r == self.accounted_token_upper_bound,
    {
        self.accounted_token_upper_bound
    }
}

impl FrozenHermeticIncidentExactOracleV1 {
    pub fn digest(&self) -> (r: ArtifactDigest)
        ensures
            r == self.digest,
    {
        self.digest
    }

    pub fn selected_event_ids(&self) -> (r: &[EventId])
        ensures
            r@ == self.selected_event_ids@,
    {
        self.selected_event_ids.as_slice()
    }

    pub fn selected_packet_count(&self) -> (r: u64)
        ensures
            r == self.selected_packet_count,
    {
        self.selected_packet_count
    }

    pub fn accounted_token_upper_bound(&self) -> (r: u64)
        ensures
            r == self.accounted_token_upper_bound,
    {
        self.accounted_token_upper_bound
    }

    pub fn reachable_subset_count(&self) -> (r: u64)
        ensures
            r == self.reachable_subset_count,
    {
        self.reachable_subset_count
    }
}

impl FrozenHermeticIncidentPublicCaseV1 {
    pub fn digest(&self) -> (r: ArtifactDigest)
        ensures
            r == self.digest,
    {
        self.digest
    }

    pub fn case(&self) -> (r: HermeticIncidentCaseV1)
        ensures
            r == self.case,
    {
        self.case
    }

    pub fn runtime(&self) -> (r: crate::hermetic_incident_outcome_corpus::HermeticIncidentRuntimeV1)
        ensures
            r == self.runtime,
    {
        self.runtime
    }

    pub fn scope_components(&self) -> (r: &[Vec<u8>])
        ensures
            r@ == self.scope_components@,
    {
        self.scope_components.as_slice()
    }

    pub fn question(&self) -> (r: &[u8])
        ensures
            r@ == self.question@,
    {
        self.question.as_slice()
    }

    pub fn expected_acquisition_class(&self) -> (r: ExpectedAcquisitionClassV1)
        ensures
            r == self.expected_acquisition_class,
    {
        self.expected_acquisition_class
    }

    pub fn total_token_budget(&self) -> (r: u64)
        ensures
            r == self.total_token_budget,
    {
        self.total_token_budget
    }

    pub fn matched_source_byte_budget(&self) -> (r: u64)
        ensures
            r == self.matched_source_byte_budget,
    {
        self.matched_source_byte_budget
    }

    pub fn ledger(&self) -> (r: &EventLedger)
        ensures
            *r == self.ledger,
    {
        &self.ledger
    }

    pub fn outcomes(&self) -> (r: &[FrozenHermeticIncidentArmOutcomeV1])
        ensures
            r@ == self.outcomes@,
    {
        self.outcomes.as_slice()
    }

    pub fn exact_oracle(&self) -> (r: &FrozenHermeticIncidentExactOracleV1)
        ensures
            *r == self.exact_oracle,
    {
        &self.exact_oracle
    }

    pub fn contains_governed_labels(&self) -> (r: bool)
        ensures
            r == false,
    {
        false
    }
}

impl FrozenHermeticIncidentPublicCorpusV1 {
    pub fn digest(&self) -> (r: ArtifactDigest)
        ensures
            r == self.digest,
    {
        self.digest
    }

    pub fn cases(&self) -> (r: &[FrozenHermeticIncidentPublicCaseV1])
        ensures
            r@ == self.cases@,
    {
        self.cases.as_slice()
    }

    pub fn complete_count(&self) -> (r: u64)
        ensures
            r == self.complete_count,
    {
        self.complete_count
    }

    pub fn partial_count(&self) -> (r: u64)
        ensures
            r == self.partial_count,
    {
        self.partial_count
    }

    pub fn unknown_count(&self) -> (r: u64)
        ensures
            r == self.unknown_count,
    {
        self.unknown_count
    }

    pub fn contains_governed_labels(&self) -> (r: bool)
        ensures
            r == false,
    {
        false
    }
}

impl HermeticIncidentGovernedAnnotationV1 {
    pub fn digest(&self) -> (r: ArtifactDigest)
        ensures
            r == self.digest,
    {
        self.digest
    }

    pub fn case(&self) -> (r: HermeticIncidentCaseV1)
        ensures
            r == self.case,
    {
        self.case
    }

    pub fn public_case_digest(&self) -> (r: ArtifactDigest)
        ensures
            r == self.public_case_digest,
    {
        self.public_case_digest
    }

    pub fn fault_family(&self) -> (r: HermeticIncidentFaultFamilyV1)
        ensures
            r == self.fault_family,
    {
        self.fault_family
    }

    pub fn expected_outcome(&self) -> (r: &HermeticIncidentExpectedOutcomeV1)
        ensures
            *r == self.expected_outcome,
    {
        &self.expected_outcome
    }

    pub fn acceptable_roots(&self) -> (r: &[HermeticIncidentRootAlternativeV1])
        ensures
            r@ == self.acceptable_roots@,
    {
        self.acceptable_roots.as_slice()
    }

    pub fn forbidden_claims(&self) -> (r: &[HermeticIncidentClaimV1])
        ensures
            r@ == self.forbidden_claims@,
    {
        self.forbidden_claims.as_slice()
    }

    pub fn unsupported_claims(&self) -> (r: &[HermeticIncidentClaimV1])
        ensures
            r@ == self.unsupported_claims@,
    {
        self.unsupported_claims.as_slice()
    }

    pub fn evidence(&self) -> (r: &EvidentrailBenchAnnotationSpecV1)
        ensures
            *r == self.evidence,
    {
        &self.evidence
    }
}

impl GovernedHermeticIncidentArmOutcomeV1 {
    pub fn arm(&self) -> (r: HermeticIncidentArmV1)
        ensures
            r == self.arm,
    {
        self.arm
    }

    pub fn public_outcome_digest(&self) -> (r: ArtifactDigest)
        ensures
            r == self.public_outcome_digest,
    {
        self.public_outcome_digest
    }

    pub fn method_config_digest(&self) -> (r: Option<ArtifactDigest>)
        ensures
            r == self.method_config_digest,
    {
        self.method_config_digest
    }

    pub fn recall(&self) -> (r: ExactHermeticIncidentRecallV1)
        ensures
            r == self.recall,
    {
        self.recall
    }

    pub fn selected_unique_source_bytes(&self) -> (r: u64)
        ensures
            r == self.selected_unique_source_bytes,
    {
        self.selected_unique_source_bytes
    }

    pub fn selected_packet_count(&self) -> (r: u64)
        ensures
            r == self.selected_packet_count,
    {
        self.selected_packet_count
    }

    pub fn accounted_token_upper_bound(&self) -> (r: Option<u64>)
        ensures
            r == self.accounted_token_upper_bound,
    {
        self.accounted_token_upper_bound
    }
}

impl GovernedHermeticIncidentCaseV1 {
    pub fn case(&self) -> (r: HermeticIncidentCaseV1)
        ensures
            r == self.case,
    {
        self.case
    }

    pub fn fault_family(&self) -> (r: HermeticIncidentFaultFamilyV1)
        ensures
            r == self.fault_family,
    {
        self.fault_family
    }

    pub fn expected_outcome(&self) -> (r: &HermeticIncidentExpectedOutcomeV1)
        ensures
            *r == self.expected_outcome,
    {
        &self.expected_outcome
    }

    pub fn outcomes(&self) -> (r: &[GovernedHermeticIncidentArmOutcomeV1])
        ensures
            r@ == self.outcomes@,
    {
        self.outcomes.as_slice()
    }

    pub fn exact_oracle_recall(&self) -> (r: ExactHermeticIncidentRecallV1)
        ensures
            r == self.exact_oracle_recall,
    {
        self.exact_oracle_recall
    }

    /// Only a case that expects a diagnosis is scored on diagnosis.
    pub fn diagnosis_scoring_eligible(&self) -> (r: bool)
        ensures
            r == (self.expected_outcome is Diagnose),
    {
        self.expected_outcome.diagnosis_scoring_eligible()
    }
}

impl GovernedHermeticIncidentOutcomeCorpusV1 {
    pub fn digest(&self) -> (r: ArtifactDigest)
        ensures
            r == self.digest,
    {
        self.digest
    }

    pub fn public_corpus_digest(&self) -> (r: ArtifactDigest)
        ensures
            r == self.public_corpus_digest,
    {
        self.public_corpus_digest
    }

    pub fn cases(&self) -> (r: &[GovernedHermeticIncidentCaseV1])
        ensures
            r@ == self.cases@,
    {
        self.cases.as_slice()
    }

    pub fn arm_summaries(&self) -> (r: &[HermeticIncidentArmSummaryV1])
        ensures
            r@ == self.arm_summaries@,
    {
        self.arm_summaries.as_slice()
    }

    pub fn diagnosis_expected_count(&self) -> (r: u64)
        ensures
            r == self.diagnosis_expected_count,
    {
        self.diagnosis_expected_count
    }

    pub fn abstention_expected_count(&self) -> (r: u64)
        ensures
            r == self.abstention_expected_count,
    {
        self.abstention_expected_count
    }

    pub fn exact_oracle_evaluated_count(&self) -> (r: u64)
        ensures
            r == self.exact_oracle_evaluated_count,
    {
        self.exact_oracle_evaluated_count
    }

    /// The governed case of one corpus case.
    pub fn case(&self, case: HermeticIncidentCaseV1) -> (r: &GovernedHermeticIncidentCaseV1)
        requires
            self.cases.len() == HERMETIC_INCIDENT_CASE_COUNT_V1,
        ensures
            *r == self.cases@[case_rank(case)],
    {
        &self.cases[case_index(case)]
    }

    /// The governed corpus never holds a diagnosis-success score.
    pub fn contains_diagnosis_success_score(&self) -> (r: bool)
        ensures
            !r,
    {
        false
    }

    /// The governed corpus never folds its arms into a scalar composite.
    pub fn contains_scalar_composite(&self) -> (r: bool)
        ensures
            !r,
    {
        false
    }

    /// The governed corpus makes no hosted-quality claim.
    pub fn claims_hosted_quality(&self) -> (r: bool)
        ensures
            !r,
    {
        false
    }

    pub fn scope_code(&self) -> (r: &'static str)
        ensures
            r@ == "synthetic_hermetic_conformance_only_no_population_claim_v1"@,
    {
        "synthetic_hermetic_conformance_only_no_population_claim_v1"
    }
}

} // verus!
