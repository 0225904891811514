//! Public case and hidden annotation vocabulary shared by the evaluators.

use vstd::prelude::*;
use crate::digest::ArtifactDigest;
use crate::ledger::{BlockId, EventId, PlanDigest};
use crate::canonical::{
    canonical_set_of, has_key, insert_keyed, keys_ascending, keys_of, lemma_canonical_len, lemma_has_key_prefix,
};
use crate::producer_proposals::JSON_SAFE_INTEGER_MAX;

verus! {

/// Expected completeness of a case's source acquisition.
#[derive(Clone, Copy, Debug, PartialEq, Eq, Structural)]
pub enum ExpectedAcquisitionClassV1 {
    Complete,
    Partial,
    Unknown,
}

impl ExpectedAcquisitionClassV1 {
    pub open spec fn spec_code(self) -> Seq<char> {
        match self {
            ExpectedAcquisitionClassV1::Complete => "complete"@,
            ExpectedAcquisitionClassV1::Partial => "partial"@,
            ExpectedAcquisitionClassV1::Unknown => "unknown"@,
        }
    }

    pub fn code(self) -> (r: &'static str)
        ensures
            r@ == self.spec_code(),
    {
        match self {
            ExpectedAcquisitionClassV1::Complete => "complete",
            ExpectedAcquisitionClassV1::Partial => "partial",
            ExpectedAcquisitionClassV1::Unknown => "unknown",
        }
    }
}
/// Contentless manifest construction failures.
#[derive(Clone, Copy, Debug, PartialEq, Eq, Structural)]
pub enum ManifestError {
    InvalidRequirementWeightMicros,
    EmptyRequirementAlternatives,
    EmptyRequirementAlternative,
    EmptySourceArtifacts,
    EmptySplitArtifacts,
    EmptyLeakageArtifacts,
    EmptyBudgetPoints,
    BudgetPointExceedsJsonSafeInteger,
    EmptyDiagnosticRequirements,
    EmptyRoleTargetSet,
    CollectionLengthOverflow,
}

impl ManifestError {
    pub open spec fn spec_code(self) -> Seq<char> {
        match self {
            ManifestError::InvalidRequirementWeightMicros => "EVIDENTRAIL_BENCH_MANIFEST_INVALID_REQUIREMENT_WEIGHT_MICROS"@,
            ManifestError::EmptyRequirementAlternatives => "EVIDENTRAIL_BENCH_MANIFEST_EMPTY_REQUIREMENT_ALTERNATIVES"@,
            ManifestError::EmptyRequirementAlternative => "EVIDENTRAIL_BENCH_MANIFEST_EMPTY_REQUIREMENT_ALTERNATIVE"@,
            ManifestError::EmptySourceArtifacts => "EVIDENTRAIL_BENCH_MANIFEST_EMPTY_SOURCE_ARTIFACTS"@,
            ManifestError::EmptySplitArtifacts => "EVIDENTRAIL_BENCH_MANIFEST_EMPTY_SPLIT_ARTIFACTS"@,
            ManifestError::EmptyLeakageArtifacts => "EVIDENTRAIL_BENCH_MANIFEST_EMPTY_LEAKAGE_ARTIFACTS"@,
            ManifestError::EmptyBudgetPoints => "EVIDENTRAIL_BENCH_MANIFEST_EMPTY_BUDGET_POINTS"@,
            ManifestError::BudgetPointExceedsJsonSafeInteger => "EVIDENTRAIL_BENCH_MANIFEST_BUDGET_POINT_EXCEEDS_JSON_SAFE_INTEGER"@,
            ManifestError::EmptyDiagnosticRequirements => "EVIDENTRAIL_BENCH_MANIFEST_EMPTY_DIAGNOSTIC_REQUIREMENTS"@,
            ManifestError::EmptyRoleTargetSet => "EVIDENTRAIL_BENCH_MANIFEST_EMPTY_ROLE_TARGET_SET"@,
            ManifestError::CollectionLengthOverflow => "EVIDENTRAIL_BENCH_MANIFEST_COLLECTION_LENGTH_OVERFLOW"@,
        }
    }

    pub fn code(self) -> (r: &'static str)
        ensures
            r@ == self.spec_code(),
    {
        match self {
            ManifestError::InvalidRequirementWeightMicros => "EVIDENTRAIL_BENCH_MANIFEST_INVALID_REQUIREMENT_WEIGHT_MICROS",
            ManifestError::EmptyRequirementAlternatives => "EVIDENTRAIL_BENCH_MANIFEST_EMPTY_REQUIREMENT_ALTERNATIVES",
            ManifestError::EmptyRequirementAlternative => "EVIDENTRAIL_BENCH_MANIFEST_EMPTY_REQUIREMENT_ALTERNATIVE",
            ManifestError::EmptySourceArtifacts => "EVIDENTRAIL_BENCH_MANIFEST_EMPTY_SOURCE_ARTIFACTS",
            ManifestError::EmptySplitArtifacts => "EVIDENTRAIL_BENCH_MANIFEST_EMPTY_SPLIT_ARTIFACTS",
            ManifestError::EmptyLeakageArtifacts => "EVIDENTRAIL_BENCH_MANIFEST_EMPTY_LEAKAGE_ARTIFACTS",
            ManifestError::EmptyBudgetPoints => "EVIDENTRAIL_BENCH_MANIFEST_EMPTY_BUDGET_POINTS",
            ManifestError::BudgetPointExceedsJsonSafeInteger => "EVIDENTRAIL_BENCH_MANIFEST_BUDGET_POINT_EXCEEDS_JSON_SAFE_INTEGER",
            ManifestError::EmptyDiagnosticRequirements => "EVIDENTRAIL_BENCH_MANIFEST_EMPTY_DIAGNOSTIC_REQUIREMENTS",
            ManifestError::EmptyRoleTargetSet => "EVIDENTRAIL_BENCH_MANIFEST_EMPTY_ROLE_TARGET_SET",
            ManifestError::CollectionLengthOverflow => "EVIDENTRAIL_BENCH_MANIFEST_COLLECTION_LENGTH_OVERFLOW",
        }
    }
}
/// One exact evidence reference in a governed annotation.
#[derive(Clone, Copy, Debug, PartialEq, Eq, PartialOrd, Ord, Hash, Structural)]
pub enum EvidenceTargetV1 {
    Event(EventId),
    Block(BlockId),
}

impl EvidenceTargetV1 {
    pub open spec fn spec_kind_code(self) -> Seq<char> {
        match self {
            EvidenceTargetV1::Event(_) => "event"@,
            EvidenceTargetV1::Block(_) => "block"@,
        }
    }

    /// Target-kind code that does not expose the referenced identity.
    pub fn kind_code(self) -> (r: &'static str)
        ensures
            r@ == self.spec_kind_code(),
    {
        match self {
            EvidenceTargetV1::Event(_) => "event",
            EvidenceTargetV1::Block(_) => "block",
        }
    }
}

/// Every target of the alternative is among the selected ones.
pub open spec fn alternative_all_selected(alternative: Seq<EvidenceTargetV1>, selected: Seq<EvidenceTargetV1>) -> bool {
    forall|k: int| 0 <= k < alternative.len() ==> selected.contains(#[trigger] alternative[k])
}

/// One diagnostic fact with one or more jointly sufficient evidence choices:
/// all targets of one alternative are required, and satisfying any
/// alternative satisfies the requirement.
#[derive(Clone, Debug)]
pub struct WeightedDiagnosticRequirementV1 {
    pub weight_micros: u64,
    pub alternatives: Vec<Vec<EvidenceTargetV1>>,
}

impl WeightedDiagnosticRequirementV1 {
    /// Some alternative is wholly selected.
    pub open spec fn satisfied_by(&self, selected: Seq<EvidenceTargetV1>) -> bool {
        exists|a: int|
            0 <= a < self.alternatives.len() && alternative_all_selected(#[trigger] self.alternatives@[a]@, selected)
    }

    pub fn weight_micros(&self) -> (r: u64)
        ensures
            r == self.weight_micros,
    {
        self.weight_micros
    }

    pub fn alternatives(&self) -> (r: &[Vec<EvidenceTargetV1>])
        ensures
            r@ == self.alternatives@,
    {
        self.alternatives.as_slice()
    }

    pub fn is_satisfied_by(&self, selected: &Vec<EvidenceTargetV1>) -> (r: bool)
        ensures
            r == self.satisfied_by(selected@),
    {
        let mut a: usize = 0;
        while a < self.alternatives.len()
            invariant
                a <= self.alternatives.len(),
                forall|q: int| 0 <= q < a ==> !alternative_all_selected(#[trigger] self.alternatives@[q]@, selected@),
            decreases self.alternatives.len() - a,
        {
            let alternative = &self.alternatives[a];
            let mut k: usize = 0;
            let mut all = true;
            while k < alternative.len()
                invariant
                    k <= alternative.len(),
                    all == (forall|q: int| 0 <= q < k ==> selected@.contains(#[trigger] alternative@[q])),
                decreases alternative.len() - k,
            {
                let mut found = false;
                let mut j: usize = 0;
                while j < selected.len()
                    invariant
                        j <= selected.len(),
                        k < alternative.len(),
                        found == (exists|q: int| 0 <= q < j && selected@[q] == alternative@[k as int]),
                    decreases selected.len() - j,
                {
                    if selected[j] == alternative[k] {
                        found = true;
                    }
                    j = j + 1;
                }
                proof {
                    if found {
                        let q = choose|q: int| 0 <= q < j && selected@[q] == alternative@[k as int];
                        assert(selected@.contains(alternative@[k as int]));
                    }
                    if !found {
                        assert(!selected@.contains(alternative@[k as int]));
                    }
                }
                all = all && found;
                k = k + 1;
            }
            if all {
                return true;
            }
            a = a + 1;
        }
        false
    }
}

/// Governed labels linked to one immutable public case artifact: weighted
/// diagnostic requirements and optional evidence-role target sets.
#[derive(Clone, Debug)]
pub struct EvidentrailBenchAnnotationSpecV1 {
    pub public_case_artifact_digest: ArtifactDigest,
    pub diagnostic_requirements: Vec<WeightedDiagnosticRequirementV1>,
    pub precursor_targets: Option<Vec<EvidenceTargetV1>>,
    pub symptom_targets: Option<Vec<EvidenceTargetV1>>,
    pub supporting_targets: Option<Vec<EvidenceTargetV1>>,
    pub distractor_targets: Option<Vec<EvidenceTargetV1>>,
    pub unsafe_targets: Option<Vec<EvidenceTargetV1>>,
}

impl EvidentrailBenchAnnotationSpecV1 {
    pub fn public_case_artifact_digest(&self) -> (r: ArtifactDigest)
        ensures
            r == self.public_case_artifact_digest,
    {
        self.public_case_artifact_digest
    }

    pub fn diagnostic_requirements(&self) -> (r: &[WeightedDiagnosticRequirementV1])
        ensures
            r@ == self.diagnostic_requirements@,
    {
        self.diagnostic_requirements.as_slice()
    }

    pub fn precursor_targets(&self) -> (r: Option<&[EvidenceTargetV1]>)
        ensures
            r is Some <==> self.precursor_targets is Some,
            r matches Some(t) ==> t@ == self.precursor_targets->0@,
    {
        match &self.precursor_targets {
            Some(t) => Some(t.as_slice()),
            None => None,
        }
    }

    pub fn symptom_targets(&self) -> (r: Option<&[EvidenceTargetV1]>)
        ensures
            r is Some <==> self.symptom_targets is Some,
            r matches Some(t) ==> t@ == self.symptom_targets->0@,
    {
        match &self.symptom_targets {
            Some(t) => Some(t.as_slice()),
            None => None,
        }
    }

    pub fn supporting_targets(&self) -> (r: Option<&[EvidenceTargetV1]>)
        ensures
            r is Some <==> self.supporting_targets is Some,
            r matches Some(t) ==> t@ == self.supporting_targets->0@,
    {
        match &self.supporting_targets {
            Some(t) => Some(t.as_slice()),
            None => None,
        }
    }

    pub fn distractor_targets(&self) -> (r: Option<&[EvidenceTargetV1]>)
        ensures
            r is Some <==> self.distractor_targets is Some,
            r matches Some(t) ==> t@ == self.distractor_targets->0@,
    {
        match &self.distractor_targets {
            Some(t) => Some(t.as_slice()),
            None => None,
        }
    }

    pub fn unsafe_targets(&self) -> (r: Option<&[EvidenceTargetV1]>)
        ensures
            r is Some <==> self.unsafe_targets is Some,
            r matches Some(t) ==> t@ == self.unsafe_targets->0@,
    {
        match &self.unsafe_targets {
            Some(t) => Some(t.as_slice()),
            None => None,
        }
    }
}

/// One candidate resource cap of a public case.
#[derive(Clone, Copy, Debug, PartialEq, Eq, Structural)]
pub struct CandidateResourceCap {
    pub unique_candidate_event_count: u64,
    pub unique_candidate_source_bytes: u64,
    pub canonical_candidate_tokens: u64,
    pub wall_time_nanos: u64,
    pub peak_memory_bytes: u64,
}

/// Public, label-free benchmark case metadata.
#[derive(Clone, Debug)]
pub struct EvidentrailBenchCaseSpecV1 {
    pub source_artifact_digests: Vec<ArtifactDigest>,
    pub question_digest: ArtifactDigest,
    pub plan_digest: PlanDigest,
    pub split_artifact_digests: Vec<ArtifactDigest>,
    pub leakage_artifact_digests: Vec<ArtifactDigest>,
    pub budget_points: Vec<CandidateResourceCap>,
    pub expected_acquisition_class: ExpectedAcquisitionClassV1,
}

impl EvidentrailBenchCaseSpecV1 {
    pub fn plan_digest(&self) -> (r: PlanDigest)
        ensures
            r.0 == self.plan_digest.0,
    {
        self.plan_digest
    }

    pub fn expected_acquisition_class(&self) -> (r: ExpectedAcquisitionClassV1)
        ensures
            r == self.expected_acquisition_class,
    {
        self.expected_acquisition_class
    }

    pub fn source_artifact_digests(&self) -> (r: &[ArtifactDigest])
        ensures
            r@ == self.source_artifact_digests@,
    {
        self.source_artifact_digests.as_slice()
    }

    pub fn split_artifact_digests(&self) -> (r: &[ArtifactDigest])
        ensures
            r@ == self.split_artifact_digests@,
    {
        self.split_artifact_digests.as_slice()
    }

    pub fn leakage_artifact_digests(&self) -> (r: &[ArtifactDigest])
        ensures
            r@ == self.leakage_artifact_digests@,
    {
        self.leakage_artifact_digests.as_slice()
    }

    pub fn budget_points(&self) -> (r: &[CandidateResourceCap])
        ensures
            r@ == self.budget_points@,
    {
        self.budget_points.as_slice()
    }

    pub fn question_digest(&self) -> (r: ArtifactDigest)
        ensures
            r == self.question_digest,
    {
        self.question_digest
    }
}

/// The key that orders targets: events before blocks, then by identity.
pub open spec fn target_key(target: EvidenceTargetV1) -> Seq<u64> {
    match target {
        EvidenceTargetV1::Event(id) => seq![0u64, id.0],
        EvidenceTargetV1::Block(id) => seq![1u64, id.0],
    }
}

pub open spec fn target_key_fn() -> spec_fn(EvidenceTargetV1) -> Seq<u64> {
    |target: EvidenceTargetV1| target_key(target)
}

fn target_key_exec(target: EvidenceTargetV1) -> (r: Vec<u64>)
    ensures
        r@ == target_key(target),
{
    let mut r: Vec<u64> = Vec::new();
    match target {
        EvidenceTargetV1::Event(id) => {
            r.push(0);
            r.push(id.0);
        },
        EvidenceTargetV1::Block(id) => {
            r.push(1);
            r.push(id.0);
        },
    }
    proof {
        assert(r@ =~= target_key(target));
    }
    r
}

/// Distinct targets have distinct keys.
pub proof fn lemma_target_key_injective(a: EvidenceTargetV1, b: EvidenceTargetV1)
    ensures
        target_key(a) == target_key(b) ==> a == b,
{
    if target_key(a) == target_key(b) {
        assert(target_key(a)[0] == target_key(b)[0]);
        assert(target_key(a)[1] == target_key(b)[1]);
    }
}

/// A target list as a canonical set: each target once, ascending.
pub open spec fn canonical_targets_of(canonical: Seq<EvidenceTargetV1>, input: Seq<EvidenceTargetV1>) -> bool {
    &&& keys_ascending(keys_of(canonical, target_key_fn()))
    &&& forall|k: Seq<u64>| has_key(canonical, target_key_fn(), k) <==> has_key(input, target_key_fn(), k)
}

/// The targets once each, in canonical order.
pub fn canonical_target_set(targets: &Vec<EvidenceTargetV1>) -> (r: Vec<EvidenceTargetV1>)
    ensures
        canonical_targets_of(r@, targets@),
{
    let mut items: Vec<EvidenceTargetV1> = Vec::new();
    let mut keys: Vec<Vec<u64>> = Vec::new();
    let mut i: usize = 0;
    while i < targets.len()
        invariant
            i <= targets.len(),
            items.len() == keys.len(),
            forall|q: int| 0 <= q < keys.len() ==> (#[trigger] keys@[q])@ == target_key_fn()(items@[q]),
            keys_ascending(keys_of(items@, target_key_fn())),
            forall|k: Seq<u64>|
                has_key(items@, target_key_fn(), k) <==> has_key(targets@.subrange(0, i as int), target_key_fn(), k),
        decreases targets.len() - i,
    {
        let target = targets[i];
        let key = target_key_exec(target);
        insert_keyed(&mut items, &mut keys, target, key, Ghost(target_key_fn()));
        proof {
            let prefix = targets@.subrange(0, i as int);
            let next = targets@.subrange(0, i + 1);
            assert forall|k: Seq<u64>| has_key(next, target_key_fn(), k) <==> (has_key(prefix, target_key_fn(), k)
                || k == target_key_fn()(target)) by {
                if has_key(next, target_key_fn(), k) {
                    let q = choose|q: int| 0 <= q < next.len() && target_key_fn()(next[q]) == k;
                    if q < i {
                        assert(prefix[q] == next[q]);
                    }
                }
                if has_key(prefix, target_key_fn(), k) {
                    let q = choose|q: int| 0 <= q < prefix.len() && target_key_fn()(prefix[q]) == k;
                    assert(next[q] == prefix[q]);
                }
                if k == target_key_fn()(target) {
                    assert(next[i as int] == target);
                }
            }
        }
        i = i + 1;
    }
    proof {
        assert(targets@.subrange(0, i as int) =~= targets@);
    }
    items
}

/// The key that orders alternatives: their targets' keys, concatenated.
pub open spec fn alternative_key(alternative: Seq<EvidenceTargetV1>) -> Seq<u64>
    decreases alternative.len(),
{
    if alternative.len() == 0 {
        Seq::empty()
    } else {
        alternative_key(alternative.drop_last()) + target_key(alternative.last())
    }
}

pub open spec fn alternative_key_fn() -> spec_fn(Vec<EvidenceTargetV1>) -> Seq<u64> {
    |alternative: Vec<EvidenceTargetV1>| alternative_key(alternative@)
}

proof fn lemma_alternative_key_len(alternative: Seq<EvidenceTargetV1>)
    ensures
        alternative_key(alternative).len() == 2 * alternative.len(),
    decreases alternative.len(),
{
    if alternative.len() > 0 {
        lemma_alternative_key_len(alternative.drop_last());
    }
}

/// Distinct alternatives have distinct keys.
pub proof fn lemma_alternative_key_injective(a: Seq<EvidenceTargetV1>, b: Seq<EvidenceTargetV1>)
    ensures
        alternative_key(a) == alternative_key(b) ==> a == b,
    decreases a.len(),
{
    lemma_alternative_key_len(a);
    lemma_alternative_key_len(b);
    if alternative_key(a) == alternative_key(b) {
        if a.len() == 0 {
            assert(a =~= b);
        } else {
            let ka = alternative_key(a.drop_last());
            let kb = alternative_key(b.drop_last());
            lemma_alternative_key_len(a.drop_last());
            lemma_alternative_key_len(b.drop_last());
            let whole = alternative_key(a);
            assert(ka =~= whole.subrange(0, ka.len() as int));
            assert(kb =~= whole.subrange(0, kb.len() as int));
            assert(target_key(a.last()) =~= whole.subrange(ka.len() as int, whole.len() as int));
            assert(target_key(b.last()) =~= whole.subrange(kb.len() as int, whole.len() as int));
            lemma_target_key_injective(a.last(), b.last());
            lemma_alternative_key_injective(a.drop_last(), b.drop_last());
            assert(a =~= a.drop_last().push(a.last()));
            assert(b =~= b.drop_last().push(b.last()));
        }
    }
}

fn alternative_key_exec(alternative: &Vec<EvidenceTargetV1>) -> (r: Vec<u64>)
    ensures
        r@ == alternative_key(alternative@),
{
    let mut r: Vec<u64> = Vec::new();
    let mut i: usize = 0;
    while i < alternative.len()
        invariant
            i <= alternative.len(),
            r@ == alternative_key(alternative@.subrange(0, i as int)),
        decreases alternative.len() - i,
    {
        let key = target_key_exec(alternative[i]);
        let ghost before = r@;
        let mut j: usize = 0;
        while j < key.len()
            invariant
                j <= key.len(),
                r@ == before + key@.subrange(0, j as int),
            decreases key.len() - j,
        {
            r.push(key[j]);
            j = j + 1;
            proof {
                assert(r@ =~= before + key@.subrange(0, j as int));
            }
        }
        proof {
            assert(key@.subrange(0, j as int) =~= key@);
            assert(alternative@.subrange(0, i + 1).drop_last() =~= alternative@.subrange(0, i as int));
        }
        i = i + 1;
    }
    proof {
        assert(alternative@.subrange(0, i as int) =~= alternative@);
    }
    r
}

/// Both target lists name the same targets.
pub open spec fn same_target_set(a: Seq<EvidenceTargetV1>, b: Seq<EvidenceTargetV1>) -> bool {
    forall|k: Seq<u64>| has_key(a, target_key_fn(), k) <==> has_key(b, target_key_fn(), k)
}

/// Every listed alternative is the target set of one of the first `n` inputs.
pub open spec fn from_inputs(items: Seq<Vec<EvidenceTargetV1>>, inputs: Seq<Vec<EvidenceTargetV1>>, n: int) -> bool {
    forall|i: int|
        0 <= i < items.len() ==> exists|j: int| 0 <= j < n && same_target_set((#[trigger] items[i])@, inputs[j]@)
}

/// The target set of each of the first `n` inputs is listed.
pub open spec fn covers_inputs(items: Seq<Vec<EvidenceTargetV1>>, inputs: Seq<Vec<EvidenceTargetV1>>, n: int) -> bool {
    forall|j: int|
        0 <= j < n ==> exists|i: int| 0 <= i < items.len() && same_target_set(items[i]@, (#[trigger] inputs[j])@)
}

/// Every listed alternative is itself a canonical target set.
pub open spec fn all_canonical(items: Seq<Vec<EvidenceTargetV1>>) -> bool {
    forall|i: int| 0 <= i < items.len() ==> keys_ascending(keys_of((#[trigger] items[i])@, target_key_fn()))
}

/// The alternatives as a canonical set of canonical target sets: every result
/// alternative is the target set of some input alternative and every input
/// alternative's target set is in the result, once, in ascending order.
pub open spec fn canonical_alternatives_of(
    canonical: Seq<Vec<EvidenceTargetV1>>,
    input: Seq<Vec<EvidenceTargetV1>>,
) -> bool {
    &&& keys_ascending(keys_of(canonical, alternative_key_fn()))
    &&& all_canonical(canonical)
    &&& from_inputs(canonical, input, input.len() as int)
    &&& covers_inputs(canonical, input, input.len() as int)
}

/// One more alternative joined into the canonical set keeps the set's link to
/// the inputs seen so far.
proof fn lemma_alternatives_step(
    old_items: Seq<Vec<EvidenceTargetV1>>,
    items: Seq<Vec<EvidenceTargetV1>>,
    c: Vec<EvidenceTargetV1>,
    alternatives: Seq<Vec<EvidenceTargetV1>>,
    idx: int,
)
    requires
        0 <= idx < alternatives.len(),
        canonical_targets_of(c@, alternatives[idx]@),
        forall|k: Seq<u64>|
            has_key(items, alternative_key_fn(), k) <==> (has_key(old_items, alternative_key_fn(), k) || k
                == alternative_key_fn()(c)),
        all_canonical(old_items),
        from_inputs(old_items, alternatives, idx),
        covers_inputs(old_items, alternatives, idx),
    ensures
        all_canonical(items),
        from_inputs(items, alternatives, idx + 1),
        covers_inputs(items, alternatives, idx + 1),
{
    let f = alternative_key_fn();
    assert forall|i: int| 0 <= i < items.len() implies keys_ascending(keys_of((#[trigger] items[i])@, target_key_fn()))
        && exists|j: int| 0 <= j < idx + 1 && same_target_set(items[i]@, alternatives[j]@) by {
        let k = f(items[i]);
        assert(has_key(items, f, k));
        if has_key(old_items, f, k) {
            let i0 = choose|i0: int| 0 <= i0 < old_items.len() && f(old_items[i0]) == k;
            lemma_alternative_key_injective(old_items[i0]@, items[i]@);
            assert(keys_ascending(keys_of(old_items[i0]@, target_key_fn())));
            let j = choose|j: int| 0 <= j < idx && same_target_set(old_items[i0]@, alternatives[j]@);
            assert(same_target_set(items[i]@, alternatives[j]@));
        } else {
            lemma_alternative_key_injective(c@, items[i]@);
            assert(same_target_set(items[i]@, alternatives[idx]@));
        }
    }
    assert forall|j: int| 0 <= j < idx + 1 implies exists|i: int|
        0 <= i < items.len() && same_target_set(items[i]@, (#[trigger] alternatives[j])@) by {
        if j == idx {
            assert(has_key(items, f, f(c)));
            let i1 = choose|i1: int| 0 <= i1 < items.len() && f(items[i1]) == f(c);
            lemma_alternative_key_injective(items[i1]@, c@);
            assert(same_target_set(items[i1]@, alternatives[j]@));
        } else {
            let i0 = choose|i0: int| 0 <= i0 < old_items.len() && same_target_set(old_items[i0]@, alternatives[j]@);
            assert(has_key(old_items, f, f(old_items[i0])));
            assert(has_key(items, f, f(old_items[i0])));
            let i1 = choose|i1: int| 0 <= i1 < items.len() && f(items[i1]) == f(old_items[i0]);
            lemma_alternative_key_injective(items[i1]@, old_items[i0]@);
            assert(same_target_set(items[i1]@, alternatives[j]@));
        }
    }
}

fn join_alternative(
    items: &mut Vec<Vec<EvidenceTargetV1>>,
    keys: &mut Vec<Vec<u64>>,
    canonical: Vec<EvidenceTargetV1>,
    alternatives: Ghost<Seq<Vec<EvidenceTargetV1>>>,
    idx: Ghost<int>,
)
    requires
        0 <= idx@ < alternatives@.len(),
        canonical_targets_of(canonical@, alternatives@[idx@]@),
        old(items).len() == old(keys).len(),
        forall|q: int| 0 <= q < old(keys).len() ==> (#[trigger] old(keys)@[q])@ == alternative_key_fn()(old(items)@[q]),
        keys_ascending(keys_of(old(items)@, alternative_key_fn())),
        all_canonical(old(items)@),
        from_inputs(old(items)@, alternatives@, idx@),
        covers_inputs(old(items)@, alternatives@, idx@),
    ensures
        final(items).len() == final(keys).len(),
        forall|q: int| 0 <= q < final(keys).len() ==> (#[trigger] final(keys)@[q])@ == alternative_key_fn()(final(items)@[q]),
        keys_ascending(keys_of(final(items)@, alternative_key_fn())),
        all_canonical(final(items)@),
        from_inputs(final(items)@, alternatives@, idx@ + 1),
        covers_inputs(final(items)@, alternatives@, idx@ + 1),
{
    let key = alternative_key_exec(&canonical);
    let ghost old_items = items@;
    let ghost c = canonical;
    insert_keyed(items, keys, canonical, key, Ghost(alternative_key_fn()));
    proof {
        lemma_alternatives_step(old_items, items@, c, alternatives@, idx@);
    }
}

/// Canonicalize requirement alternatives: each alternative's targets once, in
/// order, and each distinct target set once, in order.
pub fn canonical_alternatives(alternatives: &Vec<Vec<EvidenceTargetV1>>) -> (r: Result<
    Vec<Vec<EvidenceTargetV1>>,
    ManifestError,
>)
    ensures
        (exists|j: int| 0 <= j < alternatives.len() && (#[trigger] alternatives@[j]).len() == 0) ==> r == Err::<
            Vec<Vec<EvidenceTargetV1>>,
            ManifestError,
        >(ManifestError::EmptyRequirementAlternative),
        alternatives.len() == 0 ==> r == Err::<Vec<Vec<EvidenceTargetV1>>, ManifestError>(
            ManifestError::EmptyRequirementAlternatives,
        ),
        alternatives.len() > 0 && (forall|j: int| 0 <= j < alternatives.len() ==> (#[trigger] alternatives@[j]).len() > 0)
            ==> (r matches Ok(c) && canonical_alternatives_of(c@, alternatives@)),
{
    let mut items: Vec<Vec<EvidenceTargetV1>> = Vec::new();
    let mut keys: Vec<Vec<u64>> = Vec::new();
    let mut idx: usize = 0;
    while idx < alternatives.len()
        invariant
            idx <= alternatives.len(),
            forall|j: int| 0 <= j < idx ==> (#[trigger] alternatives@[j]).len() > 0,
            items.len() == keys.len(),
            forall|q: int| 0 <= q < keys.len() ==> (#[trigger] keys@[q])@ == alternative_key_fn()(items@[q]),
            keys_ascending(keys_of(items@, alternative_key_fn())),
            all_canonical(items@),
            from_inputs(items@, alternatives@, idx as int),
            covers_inputs(items@, alternatives@, idx as int),
        decreases alternatives.len() - idx,
    {
        if alternatives[idx].len() == 0 {
            return Err(ManifestError::EmptyRequirementAlternative);
        }
        let canonical = canonical_target_set(&alternatives[idx]);
        join_alternative(&mut items, &mut keys, canonical, Ghost(alternatives@), Ghost(idx as int));
        idx = idx + 1;
    }
    if alternatives.len() == 0 {
        return Err(ManifestError::EmptyRequirementAlternatives);
    }
    Ok(items)
}

impl WeightedDiagnosticRequirementV1 {
    /// A requirement with a positive, exactly representable weight and one or
    /// more non-empty alternatives, canonicalized.
    pub fn new(weight_micros: u64, alternatives: Vec<Vec<EvidenceTargetV1>>) -> (r: Result<Self, ManifestError>)
        ensures
            (weight_micros == 0 || weight_micros > JSON_SAFE_INTEGER_MAX) ==> r == Err::<Self, ManifestError>(
                ManifestError::InvalidRequirementWeightMicros,
            ),
            0 < weight_micros <= JSON_SAFE_INTEGER_MAX ==> match canonical_alternatives_result(alternatives@) {
                Err(e) => r == Err::<Self, ManifestError>(e),
                Ok(()) => (r matches Ok(req) && req.weight_micros == weight_micros && canonical_alternatives_of(
                    req.alternatives@,
                    alternatives@,
                )),
            },
    {
        if weight_micros == 0 || weight_micros > JSON_SAFE_INTEGER_MAX {
            return Err(ManifestError::InvalidRequirementWeightMicros);
        }
        match canonical_alternatives(&alternatives) {
            Ok(canonical) => Ok(WeightedDiagnosticRequirementV1 { weight_micros, alternatives: canonical }),
            Err(e) => Err(e),
        }
    }
}

/// Which refusal the alternatives draw, if any.
pub open spec fn canonical_alternatives_result(alternatives: Seq<Vec<EvidenceTargetV1>>) -> Result<(), ManifestError> {
    if exists|j: int| 0 <= j < alternatives.len() && (#[trigger] alternatives[j]).len() == 0 {
        Err(ManifestError::EmptyRequirementAlternative)
    } else if alternatives.len() == 0 {
        Err(ManifestError::EmptyRequirementAlternatives)
    } else {
        Ok(())
    }
}

/// The refusal a collection length draws: none within the exactly
/// representable range.
pub fn validate_json_safe_len(length: usize) -> (r: Result<(), ManifestError>)
    ensures
        r is Ok <==> length <= JSON_SAFE_INTEGER_MAX,
        r matches Err(e) ==> e == ManifestError::CollectionLengthOverflow,
{
    if length as u64 > JSON_SAFE_INTEGER_MAX {
        return Err(ManifestError::CollectionLengthOverflow);
    }
    Ok(())
}

/// An optional role target set: absent stays absent, present is canonical
/// and non-empty.
pub fn canonical_optional_targets(targets: Option<Vec<EvidenceTargetV1>>) -> (r: Result<
    Option<Vec<EvidenceTargetV1>>,
    ManifestError,
>)
    ensures
        targets is None ==> r == Ok::<Option<Vec<EvidenceTargetV1>>, ManifestError>(None),
        targets is Some && targets->0.len() == 0 ==> r == Err::<Option<Vec<EvidenceTargetV1>>, ManifestError>(
            ManifestError::EmptyRoleTargetSet,
        ),
        targets is Some && targets->0.len() > 0 ==> (match r {
            Ok(Some(c)) => canonical_targets_of(c@, targets->0@) && c.len() <= JSON_SAFE_INTEGER_MAX,
            Ok(None) => false,
            Err(e) => e == ManifestError::CollectionLengthOverflow && exists|c: Seq<EvidenceTargetV1>|
                canonical_targets_of(c, targets->0@) && c.len() > JSON_SAFE_INTEGER_MAX,
        }),
{
    match targets {
        None => Ok(None),
        Some(v) => {
            let set = canonical_target_set(&v);
            proof {
                lemma_canonical_len(set@, v@, target_key_fn());
                if set.len() == 0 && v.len() > 0 {
                    assert(false);
                }
            }
            if set.len() == 0 {
                return Err(ManifestError::EmptyRoleTargetSet);
            }
            if let Err(e) = validate_json_safe_len(set.len()) {
                return Err(e);
            }
            Ok(Some(set))
        },
    }
}

impl EvidentrailBenchAnnotationSpecV1 {
    /// What the optional role target sets give, in role order.
    pub open spec fn optional_targets_ok(targets: Option<Vec<EvidenceTargetV1>>) -> bool {
        match targets {
            None => true,
            Some(v) => v.len() > 0,
        }
    }

    /// Governed labels for one public case: at least one requirement, and
    /// each present role target set canonical and non-empty.
    pub fn new(
        public_case_artifact_digest: ArtifactDigest,
        diagnostic_requirements: Vec<WeightedDiagnosticRequirementV1>,
        precursor_targets: Option<Vec<EvidenceTargetV1>>,
        symptom_targets: Option<Vec<EvidenceTargetV1>>,
        supporting_targets: Option<Vec<EvidenceTargetV1>>,
        distractor_targets: Option<Vec<EvidenceTargetV1>>,
        unsafe_targets: Option<Vec<EvidenceTargetV1>>,
    ) -> (r: Result<Self, ManifestError>)
        ensures
            diagnostic_requirements.len() == 0 ==> r == Err::<Self, ManifestError>(
                ManifestError::EmptyDiagnosticRequirements,
            ),
            diagnostic_requirements.len() > JSON_SAFE_INTEGER_MAX ==> r == Err::<Self, ManifestError>(
                ManifestError::CollectionLengthOverflow,
            ),
            0 < diagnostic_requirements.len() <= JSON_SAFE_INTEGER_MAX && (!Self::optional_targets_ok(precursor_targets)
                || !Self::optional_targets_ok(symptom_targets) || !Self::optional_targets_ok(supporting_targets)
                || !Self::optional_targets_ok(distractor_targets) || !Self::optional_targets_ok(unsafe_targets))
                ==> r is Err,
            r matches Ok(spec) ==> spec.public_case_artifact_digest == public_case_artifact_digest
                && spec.diagnostic_requirements@ == diagnostic_requirements@ && Self::role_matches(
                spec.precursor_targets,
                precursor_targets,
            ) && Self::role_matches(spec.symptom_targets, symptom_targets) && Self::role_matches(
                spec.supporting_targets,
                supporting_targets,
            ) && Self::role_matches(spec.distractor_targets, distractor_targets) && Self::role_matches(
                spec.unsafe_targets,
                unsafe_targets,
            ),
            r matches Err(e) ==> (e is EmptyDiagnosticRequirements || e is CollectionLengthOverflow
                || e is EmptyRoleTargetSet),
    {
        if diagnostic_requirements.len() == 0 {
            return Err(ManifestError::EmptyDiagnosticRequirements);
        }
        if let Err(e) = validate_json_safe_len(diagnostic_requirements.len()) {
            return Err(e);
        }
        let precursor_targets = match canonical_optional_targets(precursor_targets) {
            Ok(t) => t,
            Err(e) => {
                return Err(e);
            },
        };
        let symptom_targets = match canonical_optional_targets(symptom_targets) {
            Ok(t) => t,
            Err(e) => {
                return Err(e);
            },
        };
        let supporting_targets = match canonical_optional_targets(supporting_targets) {
            Ok(t) => t,
            Err(e) => {
                return Err(e);
            },
        };
        let distractor_targets = match canonical_optional_targets(distractor_targets) {
            Ok(t) => t,
            Err(e) => {
                return Err(e);
            },
        };
        let unsafe_targets = match canonical_optional_targets(unsafe_targets) {
            Ok(t) => t,
            Err(e) => {
                return Err(e);
            },
        };
        Ok(
            EvidentrailBenchAnnotationSpecV1 {
                public_case_artifact_digest,
                diagnostic_requirements,
                precursor_targets,
                symptom_targets,
                supporting_targets,
                distractor_targets,
                unsafe_targets,
            },
        )
    }

    /// A role's canonical target set stands for the given one.
    pub open spec fn role_matches(canonical: Option<Vec<EvidenceTargetV1>>, given: Option<Vec<EvidenceTargetV1>>) -> bool {
        match (canonical, given) {
            (None, None) => true,
            (Some(c), Some(v)) => canonical_targets_of(c@, v@),
            _ => false,
        }
    }
}

/// Artifacts order by their digest bytes.
pub open spec fn digest_key_fn() -> spec_fn(ArtifactDigest) -> Seq<u64> {
    |digest: ArtifactDigest| digest.0@.map_values(|b: u8| b as u64)
}

fn digest_key_exec(digest: &ArtifactDigest) -> (r: Vec<u64>)
    ensures
        r@ == digest_key_fn()(*digest),
{
    let mut r: Vec<u64> = Vec::new();
    let mut i: usize = 0;
    while i < 32
        invariant
            i <= 32,
            digest.0@.len() == 32,
            r@ == digest.0@.subrange(0, i as int).map_values(|b: u8| b as u64),
        decreases 32 - i,
    {
        r.push(digest.0[i] as u64);
        i = i + 1;
        proof {
            assert(r@ =~= digest.0@.subrange(0, i as int).map_values(|b: u8| b as u64));
        }
    }
    proof {
        assert(digest.0@.subrange(0, 32) =~= digest.0@);
    }
    r
}

/// Budget points order by their five cap values.
pub open spec fn budget_key_fn() -> spec_fn(CandidateResourceCap) -> Seq<u64> {
    |point: CandidateResourceCap|
        seq![
            point.unique_candidate_event_count,
            point.unique_candidate_source_bytes,
            point.canonical_candidate_tokens,
            point.wall_time_nanos,
            point.peak_memory_bytes,
        ]
}

fn budget_key_exec(point: &CandidateResourceCap) -> (r: Vec<u64>)
    ensures
        r@ == budget_key_fn()(*point),
{
    let mut r: Vec<u64> = Vec::new();
    r.push(point.unique_candidate_event_count);
    r.push(point.unique_candidate_source_bytes);
    r.push(point.canonical_candidate_tokens);
    r.push(point.wall_time_nanos);
    r.push(point.peak_memory_bytes);
    proof {
        assert(r@ =~= budget_key_fn()(*point));
    }
    r
}

fn canonical_digest_set(artifacts: &Vec<ArtifactDigest>) -> (r: Vec<ArtifactDigest>)
    ensures
        canonical_set_of(r@, artifacts@, digest_key_fn()),
{
    let mut items: Vec<ArtifactDigest> = Vec::new();
    let mut keys: Vec<Vec<u64>> = Vec::new();
    let mut i: usize = 0;
    while i < artifacts.len()
        invariant
            i <= artifacts.len(),
            items.len() == keys.len(),
            forall|q: int| 0 <= q < keys.len() ==> (#[trigger] keys@[q])@ == digest_key_fn()(items@[q]),
            canonical_set_of(items@, artifacts@.subrange(0, i as int), digest_key_fn()),
        decreases artifacts.len() - i,
    {
        let digest = artifacts[i];
        let key = digest_key_exec(&digest);
        insert_keyed(&mut items, &mut keys, digest, key, Ghost(digest_key_fn()));
        proof {
            lemma_has_key_prefix(artifacts@, i as int, digest_key_fn());
        }
        i = i + 1;
    }
    proof {
        assert(artifacts@.subrange(0, i as int) =~= artifacts@);
    }
    items
}

/// A non-empty artifact set, once each and in byte order.
pub fn canonical_artifacts(artifacts: &Vec<ArtifactDigest>, empty_error: ManifestError) -> (r: Result<
    Vec<ArtifactDigest>,
    ManifestError,
>)
    ensures
        artifacts.len() == 0 ==> r == Err::<Vec<ArtifactDigest>, ManifestError>(empty_error),
        artifacts.len() > 0 ==> (match r {
            Ok(c) => canonical_set_of(c@, artifacts@, digest_key_fn()) && c.len() <= JSON_SAFE_INTEGER_MAX,
            Err(e) => e == ManifestError::CollectionLengthOverflow && exists|c: Seq<ArtifactDigest>|
                canonical_set_of(c, artifacts@, digest_key_fn()) && c.len() > JSON_SAFE_INTEGER_MAX,
        }),
{
    let set = canonical_digest_set(artifacts);
    proof {
        lemma_canonical_len(set@, artifacts@, digest_key_fn());
    }
    if set.len() == 0 {
        return Err(empty_error);
    }
    if let Err(e) = validate_json_safe_len(set.len()) {
        return Err(e);
    }
    Ok(set)
}

fn canonical_budget_set(points: &Vec<CandidateResourceCap>) -> (r: Vec<CandidateResourceCap>)
    ensures
        canonical_set_of(r@, points@, budget_key_fn()),
{
    let mut items: Vec<CandidateResourceCap> = Vec::new();
    let mut keys: Vec<Vec<u64>> = Vec::new();
    let mut i: usize = 0;
    while i < points.len()
        invariant
            i <= points.len(),
            items.len() == keys.len(),
            forall|q: int| 0 <= q < keys.len() ==> (#[trigger] keys@[q])@ == budget_key_fn()(items@[q]),
            canonical_set_of(items@, points@.subrange(0, i as int), budget_key_fn()),
        decreases points.len() - i,
    {
        let point = points[i];
        let key = budget_key_exec(&point);
        insert_keyed(&mut items, &mut keys, point, key, Ghost(budget_key_fn()));
        proof {
            lemma_has_key_prefix(points@, i as int, budget_key_fn());
        }
        i = i + 1;
    }
    proof {
        assert(points@.subrange(0, i as int) =~= points@);
    }
    items
}

/// A cap value beyond the exactly representable range.
pub open spec fn budget_point_unsafe(point: CandidateResourceCap) -> bool {
    point.unique_candidate_event_count > JSON_SAFE_INTEGER_MAX || point.unique_candidate_source_bytes
        > JSON_SAFE_INTEGER_MAX || point.canonical_candidate_tokens > JSON_SAFE_INTEGER_MAX || point.wall_time_nanos
        > JSON_SAFE_INTEGER_MAX || point.peak_memory_bytes > JSON_SAFE_INTEGER_MAX
}

/// A non-empty set of exactly representable budget points, once each by
/// value, in ascending order.
pub fn canonical_budget_points(points: &Vec<CandidateResourceCap>) -> (r: Result<
    Vec<CandidateResourceCap>,
    ManifestError,
>)
    ensures
        points.len() == 0 ==> r == Err::<Vec<CandidateResourceCap>, ManifestError>(ManifestError::EmptyBudgetPoints),
        points.len() > JSON_SAFE_INTEGER_MAX ==> r == Err::<Vec<CandidateResourceCap>, ManifestError>(
            ManifestError::CollectionLengthOverflow,
        ),
        0 < points.len() <= JSON_SAFE_INTEGER_MAX && (exists|i: int|
            0 <= i < points.len() && budget_point_unsafe(#[trigger] points@[i])) ==> r == Err::<
            Vec<CandidateResourceCap>,
            ManifestError,
        >(ManifestError::BudgetPointExceedsJsonSafeInteger),
        0 < points.len() <= JSON_SAFE_INTEGER_MAX && (forall|i: int|
            0 <= i < points.len() ==> !budget_point_unsafe(#[trigger] points@[i])) ==> (r matches Ok(c)
            && canonical_set_of(c@, points@, budget_key_fn())),
{
    if points.len() == 0 {
        return Err(ManifestError::EmptyBudgetPoints);
    }
    if let Err(e) = validate_json_safe_len(points.len()) {
        return Err(e);
    }
    let mut i: usize = 0;
    while i < points.len()
        invariant
            i <= points.len(),
            0 < points.len() <= JSON_SAFE_INTEGER_MAX,
            forall|q: int| 0 <= q < i ==> !budget_point_unsafe(#[trigger] points@[q]),
        decreases points.len() - i,
    {
        let p = points[i];
        if p.unique_candidate_event_count > JSON_SAFE_INTEGER_MAX || p.unique_candidate_source_bytes
            > JSON_SAFE_INTEGER_MAX || p.canonical_candidate_tokens > JSON_SAFE_INTEGER_MAX || p.wall_time_nanos
            > JSON_SAFE_INTEGER_MAX || p.peak_memory_bytes > JSON_SAFE_INTEGER_MAX {
            return Err(ManifestError::BudgetPointExceedsJsonSafeInteger);
        }
        i = i + 1;
    }
    Ok(canonical_budget_set(points))
}

impl EvidentrailBenchCaseSpecV1 {
    /// Public, label-free case metadata with canonical artifact sets and
    /// budget points.
    pub fn new(
        source_artifact_digests: Vec<ArtifactDigest>,
        question_digest: ArtifactDigest,
        plan_digest: PlanDigest,
        split_artifact_digests: Vec<ArtifactDigest>,
        leakage_artifact_digests: Vec<ArtifactDigest>,
        budget_points: Vec<CandidateResourceCap>,
        expected_acquisition_class: ExpectedAcquisitionClassV1,
    ) -> (r: Result<Self, ManifestError>)
        ensures
            source_artifact_digests.len() == 0 ==> r == Err::<Self, ManifestError>(ManifestError::EmptySourceArtifacts),
            source_artifact_digests.len() > 0 && split_artifact_digests.len() == 0 ==> r is Err,
            r matches Ok(spec) ==> canonical_set_of(
                spec.source_artifact_digests@,
                source_artifact_digests@,
                digest_key_fn(),
            ) && canonical_set_of(spec.split_artifact_digests@, split_artifact_digests@, digest_key_fn())
                && canonical_set_of(spec.leakage_artifact_digests@, leakage_artifact_digests@, digest_key_fn())
                && canonical_set_of(spec.budget_points@, budget_points@, budget_key_fn()) && spec.question_digest
                == question_digest && spec.plan_digest == plan_digest && spec.expected_acquisition_class
                == expected_acquisition_class,
            r matches Ok(_) ==> source_artifact_digests.len() > 0 && split_artifact_digests.len() > 0
                && leakage_artifact_digests.len() > 0 && budget_points.len() > 0,
    {
        let sources = match canonical_artifacts(&source_artifact_digests, ManifestError::EmptySourceArtifacts) {
            Ok(v) => v,
            Err(e) => {
                return Err(e);
            },
        };
        let splits = match canonical_artifacts(&split_artifact_digests, ManifestError::EmptySplitArtifacts) {
            Ok(v) => v,
            Err(e) => {
                return Err(e);
            },
        };
        let leakage = match canonical_artifacts(&leakage_artifact_digests, ManifestError::EmptyLeakageArtifacts) {
            Ok(v) => v,
            Err(e) => {
                return Err(e);
            },
        };
        let budgets = match canonical_budget_points(&budget_points) {
            Ok(v) => v,
            Err(e) => {
                return Err(e);
            },
        };
        Ok(
            EvidentrailBenchCaseSpecV1 {
                source_artifact_digests: sources,
                question_digest,
                plan_digest,
                split_artifact_digests: splits,
                leakage_artifact_digests: leakage,
                budget_points: budgets,
                expected_acquisition_class,
            },
        )
    }
}

} // verus!
