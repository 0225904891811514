//! Run-level aggregation: one governed case evaluation per manifest case,
//! attributed to one run identity and one method, totalled with checked
//! arithmetic in manifest order; and the exact pairing of two public runs for
//! a later paired comparison.

use vstd::prelude::*;
use crate::aggregator::{
    additions_result, case_accounting_consistent, case_additions, lemma_case_totals_consistent,
    lemma_zero_accounting_consistent, run_accounting_consistent, totals_after_case, validate_exact_budget_match,
    BenchmarkBudgetV1, CheckedRunTotals, GovernedRunRecallV1, PublicRunAccountingV1, RunAggregationError,
};
use crate::digest::{bytes32_eq, ArtifactDigest};
use crate::evaluator::{GovernedCaseArtifactBindingV1, GovernedCaseEvaluationV1, PublicCaseEvaluationResultV1};
use crate::method::MethodDescriptor;

verus! {

/// Two digests hold the same bytes.
pub open spec fn same_digest(a: ArtifactDigest, b: ArtifactDigest) -> bool {
    a.0@ == b.0@
}

/// Two method descriptors name the same method and version.
pub open spec fn same_method(a: MethodDescriptor, b: MethodDescriptor) -> bool {
    a.name@ == b.name@ && a.version@ == b.version@
}

/// String equality by their bytes.
pub fn str_equal(a: &str, b: &str) -> (r: bool)
    ensures
        r == (a@ == b@),
{
    let x = a.as_bytes();
    let y = b.as_bytes();
    proof {
        vstd::utf8::encode_utf8_decode_utf8(a@);
        vstd::utf8::encode_utf8_decode_utf8(b@);
    }
    if x.len() != y.len() {
        proof {
            assert(x@ != y@);
        }
        return false;
    }
    let mut i: usize = 0;
    while i < x.len()
        invariant
            i <= x.len(),
            x.len() == y.len(),
            x@ == vstd::utf8::encode_utf8(a@),
            y@ == vstd::utf8::encode_utf8(b@),
            forall|q: int| 0 <= q < i ==> x@[q] == y@[q],
        decreases x.len() - i,
    {
        if x[i] != y[i] {
            proof {
                assert(x@ != y@);
            }
            return false;
        }
        i = i + 1;
    }
    proof {
        assert(x@ =~= y@);
    }
    true
}

pub fn methods_equal(a: MethodDescriptor, b: MethodDescriptor) -> (r: bool)
    ensures
        r == same_method(a, b),
{
    str_equal(a.name, b.name) && str_equal(a.version, b.version)
}

/// The identity of one benchmark run: system, build, dataset, seed and
/// budget.
#[derive(Clone, Copy, Debug)]
pub struct BenchmarkRunIdentityV1 {
    pub system_artifact_digest: ArtifactDigest,
    pub build_artifact_digest: ArtifactDigest,
    pub dataset_artifact_digest: ArtifactDigest,
    pub seed: u64,
    pub budget: BenchmarkBudgetV1,
}

impl BenchmarkRunIdentityV1 {
    pub fn dataset_artifact_digest(self) -> (r: ArtifactDigest)
        ensures
            r == self.dataset_artifact_digest,
    {
        self.dataset_artifact_digest
    }

    pub fn seed(self) -> (r: u64)
        ensures
            r == self.seed,
    {
        self.seed
    }

    pub fn budget(self) -> (r: BenchmarkBudgetV1)
        ensures
            r == self.budget,
    {
        self.budget
    }
}

/// Two run identities agree on system, build, dataset, seed and budget.
pub open spec fn same_identity(a: BenchmarkRunIdentityV1, b: BenchmarkRunIdentityV1) -> bool {
    &&& same_digest(a.system_artifact_digest, b.system_artifact_digest)
    &&& same_digest(a.build_artifact_digest, b.build_artifact_digest)
    &&& same_digest(a.dataset_artifact_digest, b.dataset_artifact_digest)
    &&& a.seed == b.seed
    &&& a.budget == b.budget
}

pub fn identities_equal(a: BenchmarkRunIdentityV1, b: BenchmarkRunIdentityV1) -> (r: bool)
    ensures
        r == same_identity(a, b),
{
    bytes32_eq(&a.system_artifact_digest.0, &b.system_artifact_digest.0) && bytes32_eq(
        &a.build_artifact_digest.0,
        &b.build_artifact_digest.0,
    ) && bytes32_eq(&a.dataset_artifact_digest.0, &b.dataset_artifact_digest.0) && a.seed == b.seed
        && a.budget == b.budget
}

/// A resolved run manifest: the run identity and its public cases in order.
#[derive(Clone, Debug)]
pub struct EvidentrailBenchRunManifestV1 {
    pub identity: BenchmarkRunIdentityV1,
    pub public_case_artifact_digests: Vec<ArtifactDigest>,
}

/// The hidden evaluation manifest of a run: which run it governs and the
/// artifact binding of each public case.
#[derive(Clone, Debug)]
pub struct EvidentrailBenchHiddenEvaluationManifestV1 {
    pub public_run_manifest_artifact_digest: ArtifactDigest,
    pub bindings: Vec<GovernedCaseArtifactBindingV1>,
}

/// The first binding for a public case, if any.
pub open spec fn binding_for(bindings: Seq<GovernedCaseArtifactBindingV1>, case: ArtifactDigest, i: int) -> Option<
    GovernedCaseArtifactBindingV1,
>
    decreases bindings.len() - i,
{
    if i < 0 || i >= bindings.len() {
        None
    } else if same_digest(bindings[i].public_case_artifact_digest, case) {
        Some(bindings[i])
    } else {
        binding_for(bindings, case, i + 1)
    }
}

impl EvidentrailBenchHiddenEvaluationManifestV1 {
    pub fn binding_for_public_case(&self, case: ArtifactDigest) -> (r: Option<GovernedCaseArtifactBindingV1>)
        ensures
            r == binding_for(self.bindings@, case, 0),
    {
        let mut i: usize = 0;
        while i < self.bindings.len()
            invariant
                i <= self.bindings.len(),
                binding_for(self.bindings@, case, 0) == binding_for(self.bindings@, case, i as int),
            decreases self.bindings.len() - i,
        {
            if bytes32_eq(&self.bindings[i].public_case_artifact_digest.0, &case.0) {
                return Some(self.bindings[i]);
            }
            i = i + 1;
        }
        None
    }
}

/// Two bindings join the same public case and annotation artifacts.
pub open spec fn same_binding(a: GovernedCaseArtifactBindingV1, b: GovernedCaseArtifactBindingV1) -> bool {
    same_digest(a.public_case_artifact_digest, b.public_case_artifact_digest) && same_digest(
        a.annotation_artifact_digest,
        b.annotation_artifact_digest,
    )
}

/// One governed case evaluation attributed to a resolved run manifest.
#[derive(Clone, Copy, Debug)]
pub struct GovernedRunCaseInputV1 {
    pub run_manifest_artifact_digest: ArtifactDigest,
    pub run_identity: BenchmarkRunIdentityV1,
    pub evaluation: GovernedCaseEvaluationV1,
}

impl GovernedRunCaseInputV1 {
    pub fn new(
        run_manifest_artifact_digest: ArtifactDigest,
        run_identity: BenchmarkRunIdentityV1,
        evaluation: GovernedCaseEvaluationV1,
    ) -> (r: Self)
        ensures
            r.run_manifest_artifact_digest == run_manifest_artifact_digest,
            r.run_identity == run_identity,
            r.evaluation == evaluation,
    {
        GovernedRunCaseInputV1 { run_manifest_artifact_digest, run_identity, evaluation }
    }

    pub fn run_manifest_artifact_digest(self) -> (r: ArtifactDigest)
        ensures
            r == self.run_manifest_artifact_digest,
    {
        self.run_manifest_artifact_digest
    }

    pub fn run_identity(self) -> (r: BenchmarkRunIdentityV1)
        ensures
            r == self.run_identity,
    {
        self.run_identity
    }

    pub fn evaluation(self) -> (r: GovernedCaseEvaluationV1)
        ensures
            r == self.evaluation,
    {
        self.evaluation
    }
}

/// The public aggregate of one run.
#[derive(Clone, Copy, Debug)]
pub struct PublicRunAggregateV1 {
    pub run_manifest_artifact_digest: ArtifactDigest,
    pub run_identity: BenchmarkRunIdentityV1,
    pub method: MethodDescriptor,
    pub case_count: u64,
    pub complete_case_count: u64,
    pub partial_case_count: u64,
    pub unknown_case_count: u64,
    pub accounting: PublicRunAccountingV1,
}

/// The public case results of one run in manifest order, for pairing.
#[derive(Clone, Debug)]
pub struct PublicRunComparisonInputV1 {
    pub run_manifest_artifact_digest: ArtifactDigest,
    pub run_identity: BenchmarkRunIdentityV1,
    pub method: MethodDescriptor,
    pub case_results: Vec<PublicCaseEvaluationResultV1>,
}

impl PublicRunComparisonInputV1 {
    pub fn case_results(&self) -> (r: &[PublicCaseEvaluationResultV1])
        ensures
            r@ == self.case_results@,
    {
        self.case_results.as_slice()
    }
}

/// A run's public aggregate, governed recall and pairing input.
#[derive(Clone, Debug)]
pub struct GovernedRunAggregateV1 {
    pub public_aggregate: PublicRunAggregateV1,
    pub governed_recall: GovernedRunRecallV1,
    pub public_comparison_input: PublicRunComparisonInputV1,
}

/// The public case an input evaluates.
pub open spec fn input_case(input: GovernedRunCaseInputV1) -> ArtifactDigest {
    input.evaluation.public_result.public_case_artifact_digest
}

/// The digest is in the list.
pub open spec fn digest_listed(list: Seq<ArtifactDigest>, d: ArtifactDigest) -> bool {
    exists|q: int| 0 <= q < list.len() && same_digest(#[trigger] list[q], d)
}

/// An earlier input, among the first `n`, evaluates the same public case.
pub open spec fn case_repeated(inputs: Seq<GovernedRunCaseInputV1>, d: ArtifactDigest, n: int) -> bool {
    exists|q: int| 0 <= q < n && same_digest(input_case(#[trigger] inputs[q]), d)
}

/// The first `k` inputs, checked in order: same run, same identity, the
/// expected method, no repeated case; how many name a case the manifest lacks.
pub open spec fn input_scan(
    run_digest: ArtifactDigest,
    manifest: EvidentrailBenchRunManifestV1,
    method: MethodDescriptor,
    inputs: Seq<GovernedRunCaseInputV1>,
    k: int,
) -> Result<nat, RunAggregationError>
    decreases k,
{
    if k <= 0 {
        Ok(0)
    } else {
        match input_scan(run_digest, manifest, method, inputs, k - 1) {
            Err(e) => Err(e),
            Ok(extra) => {
                let input = inputs[k - 1];
                if !same_digest(input.run_manifest_artifact_digest, run_digest) {
                    Err(RunAggregationError::RunManifestArtifactMismatch)
                } else if !same_identity(input.run_identity, manifest.identity) {
                    Err(RunAggregationError::RunIdentityMismatch)
                } else if !same_method(input.evaluation.public_result.method, method) {
                    Err(RunAggregationError::MethodMismatch)
                } else if case_repeated(inputs, input_case(input), k - 1) {
                    Err(RunAggregationError::DuplicateCaseEvaluation)
                } else if !digest_listed(manifest.public_case_artifact_digests@, input_case(input)) {
                    Ok(extra + 1)
                } else {
                    Ok(extra)
                }
            },
        }
    }
}

/// How many of the first `k` manifest cases no input evaluates.
pub open spec fn missing_count(cases: Seq<ArtifactDigest>, inputs: Seq<GovernedRunCaseInputV1>, k: int) -> nat
    decreases k,
{
    if k <= 0 {
        0
    } else {
        missing_count(cases, inputs, k - 1) + if case_repeated(inputs, cases[k - 1], inputs.len() as int) {
            0nat
        } else {
            1nat
        }
    }
}

/// Some input's binding names another case, or differs from the hidden
/// manifest's binding for its case.
pub open spec fn binding_mismatch(
    hidden: EvidentrailBenchHiddenEvaluationManifestV1,
    inputs: Seq<GovernedRunCaseInputV1>,
) -> bool {
    exists|i: int|
        0 <= i < inputs.len() && {
            let b = (#[trigger] inputs[i]).evaluation.artifact_binding;
            !same_digest(b.public_case_artifact_digest, input_case(inputs[i])) || !(binding_for(
                hidden.bindings@,
                input_case(inputs[i]),
                0,
            ) matches Some(h) && same_binding(h, b))
        }
}

/// The first input evaluating a public case.
pub open spec fn input_for(inputs: Seq<GovernedRunCaseInputV1>, d: ArtifactDigest, i: int) -> int
    decreases inputs.len() - i,
{
    if i < 0 || i >= inputs.len() {
        inputs.len() as int
    } else if same_digest(input_case(inputs[i]), d) {
        i
    } else {
        input_for(inputs, d, i + 1)
    }
}

proof fn lemma_input_for(inputs: Seq<GovernedRunCaseInputV1>, d: ArtifactDigest, i: int)
    requires
        0 <= i <= inputs.len(),
    ensures
        i <= input_for(inputs, d, i) <= inputs.len(),
        input_for(inputs, d, i) < inputs.len() ==> same_digest(input_case(inputs[input_for(inputs, d, i)]), d),
        (exists|q: int| i <= q < inputs.len() && same_digest(input_case(#[trigger] inputs[q]), d)) ==> input_for(
            inputs,
            d,
            i,
        ) < inputs.len(),
    decreases inputs.len() - i,
{
    if i < inputs.len() && !same_digest(input_case(inputs[i]), d) {
        lemma_input_for(inputs, d, i + 1);
    }
}

/// The run totals after the first `k` manifest cases, each taken from the
/// input that evaluates it.
pub open spec fn totals_scan(
    cases: Seq<ArtifactDigest>,
    inputs: Seq<GovernedRunCaseInputV1>,
    k: int,
) -> Result<CheckedRunTotals, RunAggregationError>
    decreases k,
{
    if k <= 0 {
        Ok(CheckedRunTotals::spec_zero())
    } else {
        match totals_scan(cases, inputs, k - 1) {
            Err(e) => Err(e),
            Ok(t) => {
                let evaluation = inputs[input_for(inputs, cases[k - 1], 0)].evaluation;
                match additions_result(case_additions(t, evaluation)) {
                    Err(e) => Err(e),
                    Ok(()) => Ok(totals_after_case(t, evaluation)),
                }
            },
        }
    }
}

proof fn lemma_totals_scan_err_extends(cases: Seq<ArtifactDigest>, inputs: Seq<GovernedRunCaseInputV1>, k: int, n: int)
    requires
        0 <= k <= n,
        totals_scan(cases, inputs, k) is Err,
    ensures
        totals_scan(cases, inputs, n) == totals_scan(cases, inputs, k),
    decreases n - k,
{
    if k < n {
        lemma_totals_scan_err_extends(cases, inputs, k, n - 1);
    }
}

proof fn lemma_input_scan_err_extends(
    run_digest: ArtifactDigest,
    manifest: EvidentrailBenchRunManifestV1,
    method: MethodDescriptor,
    inputs: Seq<GovernedRunCaseInputV1>,
    k: int,
    n: int,
)
    requires
        0 <= k <= n,
        input_scan(run_digest, manifest, method, inputs, k) is Err,
    ensures
        input_scan(run_digest, manifest, method, inputs, n) == input_scan(run_digest, manifest, method, inputs, k),
    decreases n - k,
{
    if k < n {
        lemma_input_scan_err_extends(run_digest, manifest, method, inputs, k, n - 1);
    }
}

proof fn lemma_input_scan_bound(
    run_digest: ArtifactDigest,
    manifest: EvidentrailBenchRunManifestV1,
    method: MethodDescriptor,
    inputs: Seq<GovernedRunCaseInputV1>,
    k: int,
)
    requires
        0 <= k,
    ensures
        input_scan(run_digest, manifest, method, inputs, k) matches Ok(extra) ==> extra <= k,
    decreases k,
{
    if k > 0 {
        lemma_input_scan_bound(run_digest, manifest, method, inputs, k - 1);
    }
}

proof fn lemma_missing_count_bound(cases: Seq<ArtifactDigest>, inputs: Seq<GovernedRunCaseInputV1>, k: int)
    requires
        0 <= k,
    ensures
        missing_count(cases, inputs, k) <= k,
    decreases k,
{
    if k > 0 {
        lemma_missing_count_bound(cases, inputs, k - 1);
    }
}

/// The aggregate a run owes: the first failing check's error, in the order
/// hidden-manifest link, inputs, extra cases, missing cases, bindings, then
/// checked totals in manifest order; or the totals, the public results in
/// manifest order and the run's identity and method.
pub open spec fn aggregate_result(
    run_digest: ArtifactDigest,
    manifest: EvidentrailBenchRunManifestV1,
    hidden: EvidentrailBenchHiddenEvaluationManifestV1,
    method: MethodDescriptor,
    inputs: Seq<GovernedRunCaseInputV1>,
    r: Result<GovernedRunAggregateV1, RunAggregationError>,
) -> bool {
    let cases = manifest.public_case_artifact_digests@;
    if !same_digest(hidden.public_run_manifest_artifact_digest, run_digest) {
        r == Err::<GovernedRunAggregateV1, RunAggregationError>(
            RunAggregationError::HiddenEvaluationManifestRunMismatch,
        )
    } else {
        match input_scan(run_digest, manifest, method, inputs, inputs.len() as int) {
            Err(e) => r == Err::<GovernedRunAggregateV1, RunAggregationError>(e),
            Ok(extra) => if extra != 0 {
                r == Err::<GovernedRunAggregateV1, RunAggregationError>(
                    RunAggregationError::ExtraCaseEvaluations { count: extra as usize },
                )
            } else if missing_count(cases, inputs, cases.len() as int) != 0 {
                r == Err::<GovernedRunAggregateV1, RunAggregationError>(
                    RunAggregationError::MissingCaseEvaluations {
                        count: missing_count(cases, inputs, cases.len() as int) as usize,
                    },
                )
            } else if binding_mismatch(hidden, inputs) {
                r == Err::<GovernedRunAggregateV1, RunAggregationError>(
                    RunAggregationError::GovernedCaseArtifactBindingMismatch,
                )
            } else {
                match totals_scan(cases, inputs, cases.len() as int) {
                    Err(e) => r == Err::<GovernedRunAggregateV1, RunAggregationError>(e),
                    Ok(t) => {
                        &&& r matches Ok(a)
                        &&& a.public_aggregate.run_manifest_artifact_digest == run_digest
                        &&& a.public_aggregate.run_identity == manifest.identity
                        &&& a.public_aggregate.method == method
                        &&& a.public_aggregate.case_count == t.case_count
                        &&& a.public_aggregate.complete_case_count == t.complete_case_count
                        &&& a.public_aggregate.partial_case_count == t.partial_case_count
                        &&& a.public_aggregate.unknown_case_count == t.unknown_case_count
                        &&& a.public_aggregate.accounting == t.public_accounting
                        &&& a.governed_recall == t.governed_recall
                        &&& a.public_comparison_input.run_manifest_artifact_digest == run_digest
                        &&& a.public_comparison_input.run_identity == manifest.identity
                        &&& a.public_comparison_input.method == method
                        &&& a.public_comparison_input.case_results@ == Seq::new(
                            cases.len(),
                            |m: int| inputs[input_for(inputs, cases[m], 0)].evaluation.public_result,
                        )
                    },
                }
            },
        }
    }
}

/// The run totals over the first `k` manifest cases keep the accounting
/// relations when every case is evaluated and every input's accounting keeps
/// them.
proof fn lemma_totals_scan_consistent(cases: Seq<ArtifactDigest>, inputs: Seq<GovernedRunCaseInputV1>, k: int)
    requires
        0 <= k <= cases.len(),
        missing_count(cases, inputs, k) == 0,
        forall|i: int|
            0 <= i < inputs.len() ==> case_accounting_consistent(
                (#[trigger] inputs[i]).evaluation.public_result.accounting,
            ),
    ensures
        totals_scan(cases, inputs, k) matches Ok(t) ==> run_accounting_consistent(t.public_accounting),
    decreases k,
{
    if k <= 0 {
        lemma_zero_accounting_consistent();
    } else {
        lemma_totals_scan_consistent(cases, inputs, k - 1);
        if let Ok(t) = totals_scan(cases, inputs, k - 1) {
            let d = cases[k - 1];
            assert(case_repeated(inputs, d, inputs.len() as int));
            let q = choose|q: int| 0 <= q < inputs.len() && same_digest(input_case(#[trigger] inputs[q]), d);
            lemma_input_for(inputs, d, 0);
            let e = inputs[input_for(inputs, d, 0)].evaluation;
            if additions_result(case_additions(t, e)) is Ok {
                lemma_case_totals_consistent(t, e);
            }
        }
    }
}

/// A successful run aggregate's public accounting keeps the accounting
/// relations (every received event selected or retained raw, every candidate
/// selected or budget-excluded, candidates among received events, selected
/// bytes within candidate bytes and the budget, retention and verbatim
/// display matching the presentation) whenever every input's case accounting
/// keeps them.
pub proof fn lemma_aggregate_accounting_consistent(
    run_digest: ArtifactDigest,
    manifest: EvidentrailBenchRunManifestV1,
    hidden: EvidentrailBenchHiddenEvaluationManifestV1,
    method: MethodDescriptor,
    inputs: Seq<GovernedRunCaseInputV1>,
    r: Result<GovernedRunAggregateV1, RunAggregationError>,
)
    requires
        aggregate_result(run_digest, manifest, hidden, method, inputs, r),
        r is Ok,
        forall|i: int|
            0 <= i < inputs.len() ==> case_accounting_consistent(
                (#[trigger] inputs[i]).evaluation.public_result.accounting,
            ),
    ensures
        run_accounting_consistent(r->Ok_0.public_aggregate.accounting),
{
    let cases = manifest.public_case_artifact_digests@;
    lemma_totals_scan_consistent(cases, inputs, cases.len() as int);
}

/// A successful run aggregate lists one public case result per manifest case,
/// in manifest order, each for that case.
pub proof fn lemma_aggregate_case_order(
    run_digest: ArtifactDigest,
    manifest: EvidentrailBenchRunManifestV1,
    hidden: EvidentrailBenchHiddenEvaluationManifestV1,
    method: MethodDescriptor,
    inputs: Seq<GovernedRunCaseInputV1>,
    r: Result<GovernedRunAggregateV1, RunAggregationError>,
)
    requires
        aggregate_result(run_digest, manifest, hidden, method, inputs, r),
        r is Ok,
    ensures
        r->Ok_0.public_comparison_input.case_results@.len() == manifest.public_case_artifact_digests@.len(),
        forall|m: int|
            0 <= m < manifest.public_case_artifact_digests@.len() ==> same_digest(
                (#[trigger] r->Ok_0.public_comparison_input.case_results@[m]).public_case_artifact_digest,
                manifest.public_case_artifact_digests@[m],
            ),
{
    let cases = manifest.public_case_artifact_digests@;
    lemma_missing_zero(cases, inputs, cases.len() as int);
    assert forall|m: int| 0 <= m < cases.len() implies same_digest(
        (#[trigger] r->Ok_0.public_comparison_input.case_results@[m]).public_case_artifact_digest,
        cases[m],
    ) by {
        assert(case_repeated(inputs, cases[m], inputs.len() as int));
        lemma_input_for(inputs, cases[m], 0);
    }
}

/// `b` holds the inputs of `a` in another order: `perm` sends each position
/// of `b` to a distinct position of `a` holding the same input, and reaches
/// every position of `a`.
pub open spec fn inputs_permuted(b: Seq<GovernedRunCaseInputV1>, a: Seq<GovernedRunCaseInputV1>, perm: Seq<int>) -> bool {
    &&& b.len() == a.len()
    &&& perm.len() == b.len()
    &&& forall|i: int| 0 <= i < b.len() ==> 0 <= #[trigger] perm[i] < a.len() && b[i] == a[perm[i]]
    &&& forall|i: int, j: int| 0 <= i < b.len() && 0 <= j < b.len() && i != j ==> #[trigger] perm[i] != #[trigger] perm[j]
    &&& forall|j: int| #![trigger a[j]] 0 <= j < a.len() ==> exists|i: int| 0 <= i < b.len() && #[trigger] perm[i] == j
}

/// The input at position `i` passes every per-input check of the scan.
pub open spec fn input_ok(
    run_digest: ArtifactDigest,
    manifest: EvidentrailBenchRunManifestV1,
    method: MethodDescriptor,
    inputs: Seq<GovernedRunCaseInputV1>,
    i: int,
) -> bool {
    let input = inputs[i];
    &&& same_digest(input.run_manifest_artifact_digest, run_digest)
    &&& same_identity(input.run_identity, manifest.identity)
    &&& same_method(input.evaluation.public_result.method, method)
    &&& !case_repeated(inputs, input_case(input), i)
    &&& digest_listed(manifest.public_case_artifact_digests@, input_case(input))
}

/// The scan finds no failure and no extra case exactly when every input
/// passes its checks.
proof fn lemma_input_scan_zero(
    run_digest: ArtifactDigest,
    manifest: EvidentrailBenchRunManifestV1,
    method: MethodDescriptor,
    inputs: Seq<GovernedRunCaseInputV1>,
    k: int,
)
    requires
        0 <= k <= inputs.len(),
    ensures
        input_scan(run_digest, manifest, method, inputs, k) == Ok::<nat, RunAggregationError>(0)
            <==> forall|i: int| 0 <= i < k ==> #[trigger] input_ok(run_digest, manifest, method, inputs, i),
    decreases k,
{
    if k > 0 {
        lemma_input_scan_zero(run_digest, manifest, method, inputs, k - 1);
        if input_scan(run_digest, manifest, method, inputs, k) == Ok::<nat, RunAggregationError>(0) {
            assert(input_scan(run_digest, manifest, method, inputs, k - 1) == Ok::<nat, RunAggregationError>(0));
            assert forall|i: int| 0 <= i < k implies #[trigger] input_ok(run_digest, manifest, method, inputs, i) by {
                if i < k - 1 {
                } else {
                }
            }
        }
        if forall|i: int| 0 <= i < k ==> #[trigger] input_ok(run_digest, manifest, method, inputs, i) {
            assert(input_ok(run_digest, manifest, method, inputs, k - 1));
            assert forall|i: int| 0 <= i < k - 1 implies #[trigger] input_ok(run_digest, manifest, method, inputs, i) by {
                assert(input_ok(run_digest, manifest, method, inputs, i));
            }
        }
    }
}

/// Where every input passes, an input evaluating a case is the first one.
proof fn lemma_input_unique(
    run_digest: ArtifactDigest,
    manifest: EvidentrailBenchRunManifestV1,
    method: MethodDescriptor,
    inputs: Seq<GovernedRunCaseInputV1>,
    d: ArtifactDigest,
    q: int,
)
    requires
        forall|i: int| 0 <= i < inputs.len() ==> #[trigger] input_ok(run_digest, manifest, method, inputs, i),
        0 <= q < inputs.len(),
        same_digest(input_case(inputs[q]), d),
    ensures
        input_for(inputs, d, 0) == q,
{
    lemma_input_for(inputs, d, 0);
    let p = input_for(inputs, d, 0);
    assert(p < inputs.len());
    if p < q {
        assert(input_ok(run_digest, manifest, method, inputs, q));
        assert(same_digest(input_case(inputs[p]), input_case(inputs[q])));
        assert(case_repeated(inputs, input_case(inputs[q]), q));
    } else if p > q {
        assert(input_ok(run_digest, manifest, method, inputs, p));
        assert(case_repeated(inputs, input_case(inputs[p]), p));
    }
}

/// Permuted inputs evaluate the same cases.
proof fn lemma_case_repeated_permuted(
    a: Seq<GovernedRunCaseInputV1>,
    b: Seq<GovernedRunCaseInputV1>,
    perm: Seq<int>,
    d: ArtifactDigest,
)
    requires
        inputs_permuted(b, a, perm),
    ensures
        case_repeated(a, d, a.len() as int) <==> case_repeated(b, d, b.len() as int),
{
    if case_repeated(a, d, a.len() as int) {
        let j = choose|j: int| 0 <= j < a.len() && same_digest(input_case(#[trigger] a[j]), d);
        let i = choose|i: int| 0 <= i < b.len() && #[trigger] perm[i] == j;
        assert(b[i] == a[j]);
    }
    if case_repeated(b, d, b.len() as int) {
        let i = choose|i: int| 0 <= i < b.len() && same_digest(input_case(#[trigger] b[i]), d);
        assert(b[i] == a[perm[i]]);
    }
}

proof fn lemma_missing_permuted(
    cases: Seq<ArtifactDigest>,
    a: Seq<GovernedRunCaseInputV1>,
    b: Seq<GovernedRunCaseInputV1>,
    perm: Seq<int>,
    k: int,
)
    requires
        inputs_permuted(b, a, perm),
    ensures
        missing_count(cases, a, k) == missing_count(cases, b, k),
    decreases k,
{
    if k > 0 {
        lemma_missing_permuted(cases, a, b, perm, k - 1);
        lemma_case_repeated_permuted(a, b, perm, cases[k - 1]);
    }
}

/// With every input passing, each listed case picks the same input from
/// permuted inputs.
proof fn lemma_input_for_permuted(
    run_digest: ArtifactDigest,
    manifest: EvidentrailBenchRunManifestV1,
    method: MethodDescriptor,
    a: Seq<GovernedRunCaseInputV1>,
    b: Seq<GovernedRunCaseInputV1>,
    perm: Seq<int>,
    d: ArtifactDigest,
)
    requires
        inputs_permuted(b, a, perm),
        forall|i: int| 0 <= i < a.len() ==> #[trigger] input_ok(run_digest, manifest, method, a, i),
        case_repeated(a, d, a.len() as int),
    ensures
        b[input_for(b, d, 0)] == a[input_for(a, d, 0)],
        input_for(b, d, 0) < b.len(),
{
    lemma_case_repeated_permuted(a, b, perm, d);
    lemma_input_for(b, d, 0);
    let pb = input_for(b, d, 0);
    assert(b[pb] == a[perm[pb]]);
    lemma_input_unique(run_digest, manifest, method, a, d, perm[pb]);
}

proof fn lemma_totals_scan_permuted(
    run_digest: ArtifactDigest,
    manifest: EvidentrailBenchRunManifestV1,
    method: MethodDescriptor,
    cases: Seq<ArtifactDigest>,
    a: Seq<GovernedRunCaseInputV1>,
    b: Seq<GovernedRunCaseInputV1>,
    perm: Seq<int>,
    k: int,
)
    requires
        0 <= k <= cases.len(),
        inputs_permuted(b, a, perm),
        forall|i: int| 0 <= i < a.len() ==> #[trigger] input_ok(run_digest, manifest, method, a, i),
        forall|m: int| 0 <= m < k ==> case_repeated(a, #[trigger] cases[m], a.len() as int),
    ensures
        totals_scan(cases, a, k) == totals_scan(cases, b, k),
    decreases k,
{
    if k > 0 {
        lemma_totals_scan_permuted(run_digest, manifest, method, cases, a, b, perm, k - 1);
        assert(case_repeated(a, cases[k - 1], a.len() as int));
        lemma_input_for_permuted(run_digest, manifest, method, a, b, perm, cases[k - 1]);
    }
}

/// Input order has no effect on a run aggregate: when the inputs aggregate
/// successfully, any reordering of them aggregates successfully to the same
/// public aggregate, governed recall and per-case public results, which
/// follow manifest order.
pub proof fn lemma_aggregate_order_free(
    run_digest: ArtifactDigest,
    manifest: EvidentrailBenchRunManifestV1,
    hidden: EvidentrailBenchHiddenEvaluationManifestV1,
    method: MethodDescriptor,
    a: Seq<GovernedRunCaseInputV1>,
    b: Seq<GovernedRunCaseInputV1>,
    perm: Seq<int>,
    ra: Result<GovernedRunAggregateV1, RunAggregationError>,
    rb: Result<GovernedRunAggregateV1, RunAggregationError>,
)
    requires
        inputs_permuted(b, a, perm),
        aggregate_result(run_digest, manifest, hidden, method, a, ra),
        aggregate_result(run_digest, manifest, hidden, method, b, rb),
        ra is Ok,
    ensures
        rb is Ok,
        rb->Ok_0.public_aggregate == ra->Ok_0.public_aggregate,
        rb->Ok_0.governed_recall == ra->Ok_0.governed_recall,
        rb->Ok_0.public_comparison_input.run_manifest_artifact_digest
            == ra->Ok_0.public_comparison_input.run_manifest_artifact_digest,
        rb->Ok_0.public_comparison_input.run_identity == ra->Ok_0.public_comparison_input.run_identity,
        rb->Ok_0.public_comparison_input.method == ra->Ok_0.public_comparison_input.method,
        rb->Ok_0.public_comparison_input.case_results@ == ra->Ok_0.public_comparison_input.case_results@,
{
    let cases = manifest.public_case_artifact_digests@;
    let n = a.len() as int;
    lemma_input_scan_zero(run_digest, manifest, method, a, n);
    assert forall|i: int| 0 <= i < n implies #[trigger] input_ok(run_digest, manifest, method, b, i) by {
        let j = perm[i];
        assert(b[i] == a[j]);
        assert(input_ok(run_digest, manifest, method, a, j));
        if case_repeated(b, input_case(b[i]), i) {
            let q = choose|q: int| 0 <= q < i && same_digest(input_case(#[trigger] b[q]), input_case(b[i]));
            assert(b[q] == a[perm[q]]);
            assert(perm[q] != perm[i]);
            if perm[q] < j {
                assert(case_repeated(a, input_case(a[j]), j));
            } else {
                assert(input_ok(run_digest, manifest, method, a, perm[q]));
                assert(same_digest(input_case(a[j]), input_case(a[perm[q]])));
                assert(case_repeated(a, input_case(a[perm[q]]), perm[q]));
            }
        }
    }
    lemma_input_scan_zero(run_digest, manifest, method, b, n);
    lemma_missing_permuted(cases, a, b, perm, cases.len() as int);
    lemma_missing_zero(cases, a, cases.len() as int);
    lemma_totals_scan_permuted(run_digest, manifest, method, cases, a, b, perm, cases.len() as int);
    assert(binding_mismatch(hidden, a) == binding_mismatch(hidden, b)) by {
        if binding_mismatch(hidden, b) {
            let i = choose|i: int| 0 <= i < b.len() && {
                let bd = (#[trigger] b[i]).evaluation.artifact_binding;
                !same_digest(bd.public_case_artifact_digest, input_case(b[i])) || !(binding_for(
                    hidden.bindings@,
                    input_case(b[i]),
                    0,
                ) matches Some(h) && same_binding(h, bd))
            };
            assert(b[i] == a[perm[i]]);
        }
        if binding_mismatch(hidden, a) {
            let j = choose|j: int| 0 <= j < a.len() && {
                let bd = (#[trigger] a[j]).evaluation.artifact_binding;
                !same_digest(bd.public_case_artifact_digest, input_case(a[j])) || !(binding_for(
                    hidden.bindings@,
                    input_case(a[j]),
                    0,
                ) matches Some(h) && same_binding(h, bd))
            };
            let i = choose|i: int| 0 <= i < b.len() && #[trigger] perm[i] == j;
            assert(b[i] == a[j]);
        }
    }
    assert forall|m: int| 0 <= m < cases.len() implies b[input_for(b, cases[m], 0)] == a[input_for(
        a,
        cases[m],
        0,
    )] by {
        assert(case_repeated(a, cases[m], n));
        lemma_input_for_permuted(run_digest, manifest, method, a, b, perm, cases[m]);
    }
    assert(Seq::new(cases.len(), |m: int| b[input_for(b, cases[m], 0)].evaluation.public_result) =~= Seq::new(
        cases.len(),
        |m: int| a[input_for(a, cases[m], 0)].evaluation.public_result,
    ));
}

proof fn lemma_missing_zero(cases: Seq<ArtifactDigest>, inputs: Seq<GovernedRunCaseInputV1>, k: int)
    requires
        0 <= k <= cases.len(),
        missing_count(cases, inputs, k) == 0,
    ensures
        forall|m: int| 0 <= m < k ==> case_repeated(inputs, #[trigger] cases[m], inputs.len() as int),
    decreases k,
{
    if k > 0 {
        lemma_missing_zero(cases, inputs, k - 1);
    }
}

pub(crate) fn digest_in_list(list: &Vec<ArtifactDigest>, d: ArtifactDigest) -> (r: bool)
    ensures
        r == digest_listed(list@, d),
{
    let mut i: usize = 0;
    while i < list.len()
        invariant
            i <= list.len(),
            forall|q: int| 0 <= q < i ==> !same_digest(#[trigger] list@[q], d),
        decreases list.len() - i,
    {
        if bytes32_eq(&list[i].0, &d.0) {
            return true;
        }
        i = i + 1;
    }
    false
}

fn case_in_inputs(inputs: &Vec<GovernedRunCaseInputV1>, d: ArtifactDigest, n: usize) -> (r: bool)
    requires
        n <= inputs.len(),
    ensures
        r == case_repeated(inputs@, d, n as int),
{
    let mut i: usize = 0;
    while i < n
        invariant
            i <= n,
            n <= inputs.len(),
            forall|q: int| 0 <= q < i ==> !same_digest(input_case(#[trigger] inputs@[q]), d),
        decreases n - i,
    {
        if bytes32_eq(&inputs[i].evaluation.public_result.public_case_artifact_digest.0, &d.0) {
            return true;
        }
        i = i + 1;
    }
    false
}

fn find_input(inputs: &Vec<GovernedRunCaseInputV1>, d: ArtifactDigest) -> (r: usize)
    requires
        case_repeated(inputs@, d, inputs.len() as int),
    ensures
        r as int == input_for(inputs@, d, 0),
        r < inputs.len(),
{
    proof {
        lemma_input_for(inputs@, d, 0);
    }
    let mut i: usize = 0;
    while i < inputs.len()
        invariant
            i <= inputs.len(),
            input_for(inputs@, d, 0) == input_for(inputs@, d, i as int),
            input_for(inputs@, d, 0) < inputs.len(),
        decreases inputs.len() - i,
    {
        if bytes32_eq(&inputs[i].evaluation.public_result.public_case_artifact_digest.0, &d.0) {
            return i;
        }
        i = i + 1;
    }
    i
}

fn binding_matches(
    hidden: &EvidentrailBenchHiddenEvaluationManifestV1,
    input: GovernedRunCaseInputV1,
) -> (r: bool)
    ensures
        r == {
            let b = input.evaluation.artifact_binding;
            same_digest(b.public_case_artifact_digest, input_case(input)) && (binding_for(
                hidden.bindings@,
                input_case(input),
                0,
            ) matches Some(h) && same_binding(h, b))
        },
{
    let b = input.evaluation.artifact_binding;
    let d = input.evaluation.public_result.public_case_artifact_digest;
    if !bytes32_eq(&b.public_case_artifact_digest.0, &d.0) {
        return false;
    }
    match hidden.binding_for_public_case(d) {
        None => false,
        Some(h) => bytes32_eq(&h.public_case_artifact_digest.0, &b.public_case_artifact_digest.0) && bytes32_eq(
            &h.annotation_artifact_digest.0,
            &b.annotation_artifact_digest.0,
        ),
    }
}

/// Aggregate exactly one governed case evaluation for every manifest case;
/// input order has no effect on the result, which follows manifest order.
pub fn aggregate_governed_run_v1(
    run_manifest_artifact_digest: ArtifactDigest,
    run_manifest: &EvidentrailBenchRunManifestV1,
    hidden_evaluation_manifest: &EvidentrailBenchHiddenEvaluationManifestV1,
    expected_method: MethodDescriptor,
    inputs: Vec<GovernedRunCaseInputV1>,
) -> (r: Result<GovernedRunAggregateV1, RunAggregationError>)
    requires
        forall|a: int, b: int|
            0 <= a < b < run_manifest.public_case_artifact_digests.len() ==> !same_digest(
                run_manifest.public_case_artifact_digests@[a],
                run_manifest.public_case_artifact_digests@[b],
            ),
    ensures
        aggregate_result(
            run_manifest_artifact_digest,
            *run_manifest,
            *hidden_evaluation_manifest,
            expected_method,
            inputs@,
            r,
        ),
{
    let ghost cases = run_manifest.public_case_artifact_digests@;
    if !bytes32_eq(&hidden_evaluation_manifest.public_run_manifest_artifact_digest.0, &run_manifest_artifact_digest.0) {
        return Err(RunAggregationError::HiddenEvaluationManifestRunMismatch);
    }
    let mut extra: usize = 0;
    let mut k: usize = 0;
    while k < inputs.len()
        invariant
            k <= inputs.len(),
            extra <= k,
            same_digest(hidden_evaluation_manifest.public_run_manifest_artifact_digest, run_manifest_artifact_digest),
            input_scan(run_manifest_artifact_digest, *run_manifest, expected_method, inputs@, k as int) == Ok::<
                nat,
                RunAggregationError,
            >(extra as nat),
        decreases inputs.len() - k,
    {
        let input = inputs[k];
        let ghost n = inputs.len() as int;
        if !bytes32_eq(&input.run_manifest_artifact_digest.0, &run_manifest_artifact_digest.0) {
            proof {
                lemma_input_scan_err_extends(run_manifest_artifact_digest, *run_manifest, expected_method, inputs@, k + 1, n);
            }
            return Err(RunAggregationError::RunManifestArtifactMismatch);
        }
        if !identities_equal(input.run_identity, run_manifest.identity) {
            proof {
                lemma_input_scan_err_extends(run_manifest_artifact_digest, *run_manifest, expected_method, inputs@, k + 1, n);
            }
            return Err(RunAggregationError::RunIdentityMismatch);
        }
        if !methods_equal(input.evaluation.public_result.method, expected_method) {
            proof {
                lemma_input_scan_err_extends(run_manifest_artifact_digest, *run_manifest, expected_method, inputs@, k + 1, n);
            }
            return Err(RunAggregationError::MethodMismatch);
        }
        let d = input.evaluation.public_result.public_case_artifact_digest;
        if case_in_inputs(&inputs, d, k) {
            proof {
                lemma_input_scan_err_extends(run_manifest_artifact_digest, *run_manifest, expected_method, inputs@, k + 1, n);
            }
            return Err(RunAggregationError::DuplicateCaseEvaluation);
        }
        if !digest_in_list(&run_manifest.public_case_artifact_digests, d) {
            extra = extra + 1;
        }
        k = k + 1;
    }
    if extra != 0 {
        return Err(RunAggregationError::ExtraCaseEvaluations { count: extra });
    }
    let mut missing: usize = 0;
    let mut m: usize = 0;
    while m < run_manifest.public_case_artifact_digests.len()
        invariant
            m <= run_manifest.public_case_artifact_digests.len(),
            missing <= m,
            same_digest(hidden_evaluation_manifest.public_run_manifest_artifact_digest, run_manifest_artifact_digest),
            input_scan(run_manifest_artifact_digest, *run_manifest, expected_method, inputs@, inputs.len() as int)
                == Ok::<nat, RunAggregationError>(0nat),
            missing == missing_count(cases, inputs@, m as int),
            cases == run_manifest.public_case_artifact_digests@,
        decreases run_manifest.public_case_artifact_digests.len() - m,
    {
        if !case_in_inputs(&inputs, run_manifest.public_case_artifact_digests[m], inputs.len()) {
            missing = missing + 1;
        }
        m = m + 1;
    }
    if missing != 0 {
        return Err(RunAggregationError::MissingCaseEvaluations { count: missing });
    }
    let mut i: usize = 0;
    while i < inputs.len()
        invariant
            i <= inputs.len(),
            same_digest(hidden_evaluation_manifest.public_run_manifest_artifact_digest, run_manifest_artifact_digest),
            input_scan(run_manifest_artifact_digest, *run_manifest, expected_method, inputs@, inputs.len() as int)
                == Ok::<nat, RunAggregationError>(0nat),
            missing_count(cases, inputs@, cases.len() as int) == 0,
            cases == run_manifest.public_case_artifact_digests@,
            forall|q: int|
                0 <= q < i ==> {
                    let b = (#[trigger] inputs@[q]).evaluation.artifact_binding;
                    same_digest(b.public_case_artifact_digest, input_case(inputs@[q])) && (binding_for(
                        hidden_evaluation_manifest.bindings@,
                        input_case(inputs@[q]),
                        0,
                    ) matches Some(h) && same_binding(h, b))
                },
        decreases inputs.len() - i,
    {
        if !binding_matches(hidden_evaluation_manifest, inputs[i]) {
            return Err(RunAggregationError::GovernedCaseArtifactBindingMismatch);
        }
        i = i + 1;
    }
    proof {
        lemma_missing_zero(cases, inputs@, cases.len() as int);
    }
    let mut totals = CheckedRunTotals::zero();
    let mut ordered: Vec<PublicCaseEvaluationResultV1> = Vec::new();
    let mut c: usize = 0;
    while c < run_manifest.public_case_artifact_digests.len()
        invariant
            c <= run_manifest.public_case_artifact_digests.len(),
            cases == run_manifest.public_case_artifact_digests@,
            same_digest(hidden_evaluation_manifest.public_run_manifest_artifact_digest, run_manifest_artifact_digest),
            input_scan(run_manifest_artifact_digest, *run_manifest, expected_method, inputs@, inputs.len() as int)
                == Ok::<nat, RunAggregationError>(0nat),
            missing_count(cases, inputs@, cases.len() as int) == 0,
            !binding_mismatch(*hidden_evaluation_manifest, inputs@),
            forall|q: int| 0 <= q < cases.len() ==> case_repeated(inputs@, #[trigger] cases[q], inputs.len() as int),
            totals_scan(cases, inputs@, c as int) == Ok::<CheckedRunTotals, RunAggregationError>(totals),
            ordered@ == Seq::new(
                c as nat,
                |q: int| inputs@[input_for(inputs@, cases[q], 0)].evaluation.public_result,
            ),
        decreases run_manifest.public_case_artifact_digests.len() - c,
    {
        let idx = find_input(&inputs, run_manifest.public_case_artifact_digests[c]);
        let evaluation = inputs[idx].evaluation;
        match totals.add_case(evaluation) {
            Err(e) => {
                proof {
                    lemma_totals_scan_err_extends(cases, inputs@, c + 1, cases.len() as int);
                }
                return Err(e);
            },
            Ok(()) => {},
        }
        ordered.push(evaluation.public_result);
        c = c + 1;
        proof {
            assert(ordered@ =~= Seq::new(
                c as nat,
                |q: int| inputs@[input_for(inputs@, cases[q], 0)].evaluation.public_result,
            ));
        }
    }
    let public_aggregate = PublicRunAggregateV1 {
        run_manifest_artifact_digest,
        run_identity: run_manifest.identity,
        method: expected_method,
        case_count: totals.case_count,
        complete_case_count: totals.complete_case_count,
        partial_case_count: totals.partial_case_count,
        unknown_case_count: totals.unknown_case_count,
        accounting: totals.public_accounting,
    };
    let public_comparison_input = PublicRunComparisonInputV1 {
        run_manifest_artifact_digest,
        run_identity: run_manifest.identity,
        method: expected_method,
        case_results: ordered,
    };
    Ok(GovernedRunAggregateV1 { public_aggregate, governed_recall: totals.governed_recall, public_comparison_input })
}

/// One public case of two runs, side by side.
#[derive(Clone, Copy, Debug)]
pub struct PairedPublicCaseInputV1 {
    pub public_case_artifact_digest: ArtifactDigest,
    pub left: PublicCaseEvaluationResultV1,
    pub right: PublicCaseEvaluationResultV1,
}

impl PairedPublicCaseInputV1 {
    pub fn public_case_artifact_digest(self) -> (r: ArtifactDigest)
        ensures
            r == self.public_case_artifact_digest,
    {
        self.public_case_artifact_digest
    }

    pub fn left(self) -> (r: PublicCaseEvaluationResultV1)
        ensures
            r == self.left,
    {
        self.left
    }

    pub fn right(self) -> (r: PublicCaseEvaluationResultV1)
        ensures
            r == self.right,
    {
        self.right
    }
}

/// Exactly matched public input for a later paired evaluator: same dataset,
/// seed and budget, and the same public cases in the same order.
#[derive(Clone, Debug)]
pub struct ExactPairedRunComparisonInputV1 {
    pub left_run_manifest_artifact_digest: ArtifactDigest,
    pub right_run_manifest_artifact_digest: ArtifactDigest,
    pub left_run_identity: BenchmarkRunIdentityV1,
    pub right_run_identity: BenchmarkRunIdentityV1,
    pub left_method: MethodDescriptor,
    pub right_method: MethodDescriptor,
    pub case_pairs: Vec<PairedPublicCaseInputV1>,
}

/// The two runs evaluate the same public cases in the same order.
pub open spec fn same_cohort(left: Seq<PublicCaseEvaluationResultV1>, right: Seq<PublicCaseEvaluationResultV1>) -> bool {
    left.len() == right.len() && forall|i: int|
        0 <= i < left.len() ==> same_digest(
            #[trigger] left[i].public_case_artifact_digest,
            right[i].public_case_artifact_digest,
        )
}

impl ExactPairedRunComparisonInputV1 {
    pub fn new(left: &PublicRunComparisonInputV1, right: &PublicRunComparisonInputV1) -> (r: Result<
        Self,
        RunAggregationError,
    >)
        ensures
            !same_digest(left.run_identity.dataset_artifact_digest, right.run_identity.dataset_artifact_digest)
                ==> r is Err && r->Err_0 == RunAggregationError::DatasetIdentityMismatch,
            same_digest(left.run_identity.dataset_artifact_digest, right.run_identity.dataset_artifact_digest)
                && left.run_identity.seed != right.run_identity.seed ==> r is Err && r->Err_0
                == RunAggregationError::SeedMismatch,
            same_digest(left.run_identity.dataset_artifact_digest, right.run_identity.dataset_artifact_digest)
                && left.run_identity.seed == right.run_identity.seed && left.run_identity.budget
                != right.run_identity.budget ==> r is Err && (r->Err_0 == RunAggregationError::BudgetMismatch
                || r->Err_0 == RunAggregationError::IncomparableBudgets) && (r->Err_0
                == RunAggregationError::IncomparableBudgets <==> (!crate::aggregator::spec_budget_is_no_greater(
                left.run_identity.budget,
                right.run_identity.budget,
            ) && !crate::aggregator::spec_budget_is_no_greater(
                right.run_identity.budget,
                left.run_identity.budget,
            ))),
            same_digest(left.run_identity.dataset_artifact_digest, right.run_identity.dataset_artifact_digest)
                && left.run_identity.seed == right.run_identity.seed && left.run_identity.budget
                == right.run_identity.budget && !same_cohort(left.case_results@, right.case_results@) ==> r is Err
                && r->Err_0 == RunAggregationError::PublicCaseCohortMismatch,
            r is Ok <==> same_digest(
                left.run_identity.dataset_artifact_digest,
                right.run_identity.dataset_artifact_digest,
            ) && left.run_identity.seed == right.run_identity.seed && left.run_identity.budget
                == right.run_identity.budget && same_cohort(left.case_results@, right.case_results@),
            r matches Ok(p) ==> {
                &&& p.left_run_manifest_artifact_digest == left.run_manifest_artifact_digest
                &&& p.right_run_manifest_artifact_digest == right.run_manifest_artifact_digest
                &&& p.left_run_identity == left.run_identity
                &&& p.right_run_identity == right.run_identity
                &&& p.left_method == left.method
                &&& p.right_method == right.method
                &&& p.case_pairs@ == Seq::new(
                    left.case_results@.len(),
                    |i: int|
                        PairedPublicCaseInputV1 {
                            public_case_artifact_digest: left.case_results@[i].public_case_artifact_digest,
                            left: left.case_results@[i],
                            right: right.case_results@[i],
                        },
                )
            },
    {
        if !bytes32_eq(&left.run_identity.dataset_artifact_digest.0, &right.run_identity.dataset_artifact_digest.0) {
            return Err(RunAggregationError::DatasetIdentityMismatch);
        }
        if left.run_identity.seed != right.run_identity.seed {
            return Err(RunAggregationError::SeedMismatch);
        }
        match validate_exact_budget_match(left.run_identity.budget, right.run_identity.budget) {
            Err(e) => {
                return Err(e);
            },
            Ok(()) => {},
        }
        if left.case_results.len() != right.case_results.len() {
            return Err(RunAggregationError::PublicCaseCohortMismatch);
        }
        let mut i: usize = 0;
        while i < left.case_results.len()
            invariant
                i <= left.case_results.len(),
                left.case_results.len() == right.case_results.len(),
                same_digest(left.run_identity.dataset_artifact_digest, right.run_identity.dataset_artifact_digest),
                left.run_identity.seed == right.run_identity.seed,
                left.run_identity.budget == right.run_identity.budget,
                forall|q: int|
                    0 <= q < i ==> same_digest(
                        #[trigger] left.case_results@[q].public_case_artifact_digest,
                        right.case_results@[q].public_case_artifact_digest,
                    ),
            decreases left.case_results.len() - i,
        {
            if !bytes32_eq(
                &left.case_results[i].public_case_artifact_digest.0,
                &right.case_results[i].public_case_artifact_digest.0,
            ) {
                return Err(RunAggregationError::PublicCaseCohortMismatch);
            }
            i = i + 1;
        }
        let mut case_pairs: Vec<PairedPublicCaseInputV1> = Vec::new();
        let mut j: usize = 0;
        while j < left.case_results.len()
            invariant
                j <= left.case_results.len(),
                left.case_results.len() == right.case_results.len(),
                case_pairs@ == Seq::new(
                    j as nat,
                    |q: int|
                        PairedPublicCaseInputV1 {
                            public_case_artifact_digest: left.case_results@[q].public_case_artifact_digest,
                            left: left.case_results@[q],
                            right: right.case_results@[q],
                        },
                ),
            decreases left.case_results.len() - j,
        {
            let l = left.case_results[j];
            let rr = right.case_results[j];
            case_pairs.push(PairedPublicCaseInputV1 { public_case_artifact_digest: l.public_case_artifact_digest, left: l, right: rr });
            j = j + 1;
            proof {
                assert(case_pairs@ =~= Seq::new(
                    j as nat,
                    |q: int|
                        PairedPublicCaseInputV1 {
                            public_case_artifact_digest: left.case_results@[q].public_case_artifact_digest,
                            left: left.case_results@[q],
                            right: right.case_results@[q],
                        },
                ));
            }
        }
        Ok(
            ExactPairedRunComparisonInputV1 {
                left_run_manifest_artifact_digest: left.run_manifest_artifact_digest,
                right_run_manifest_artifact_digest: right.run_manifest_artifact_digest,
                left_run_identity: left.run_identity,
                right_run_identity: right.run_identity,
                left_method: left.method,
                right_method: right.method,
                case_pairs,
            },
        )
    }

    pub fn case_pairs(&self) -> (r: &[PairedPublicCaseInputV1])
        ensures
            r@ == self.case_pairs@,
    {
        self.case_pairs.as_slice()
    }
}

} // verus!
