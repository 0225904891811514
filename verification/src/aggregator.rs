//! Run-level aggregation of governed case evaluations with checked integer
//! sums, and exact pairing checks between run budgets.

use vstd::prelude::*;

use crate::evaluator::{GovernedCaseEvaluationV1, GovernedRequirementRecallV1, PublicCaseAccountingV1};
use crate::manifest::ExpectedAcquisitionClassV1;

verus! {

/// Exact public sums across every case in one run.
#[derive(Clone, Copy, Debug, Default, PartialEq, Eq, Structural)]
pub struct PublicRunAccountingV1 {
    pub received_event_count: u64,
    pub candidate_event_count: u64,
    pub candidate_source_bytes: u64,
    pub selected_event_count: u64,
    pub selected_source_bytes: u64,
    pub retained_raw_event_count: u64,
    pub budget_excluded_candidate_count: u64,
    pub source_byte_budget: u64,
    pub shown_verbatim_event_count: u64,
    pub pattern_represented_event_count: u64,
    pub presentation_retained_raw_event_count: u64,
}

impl PublicRunAccountingV1 {
    pub fn received_event_count(self) -> (r: u64)
        ensures
            r == self.received_event_count,
    {
        self.received_event_count
    }

    pub fn candidate_event_count(self) -> (r: u64)
        ensures
            r == self.candidate_event_count,
    {
        self.candidate_event_count
    }

    pub fn candidate_source_bytes(self) -> (r: u64)
        ensures
            r == self.candidate_source_bytes,
    {
        self.candidate_source_bytes
    }

    pub fn selected_event_count(self) -> (r: u64)
        ensures
            r == self.selected_event_count,
    {
        self.selected_event_count
    }

    pub fn selected_source_bytes(self) -> (r: u64)
        ensures
            r == self.selected_source_bytes,
    {
        self.selected_source_bytes
    }

    pub fn retained_raw_event_count(self) -> (r: u64)
        ensures
            r == self.retained_raw_event_count,
    {
        self.retained_raw_event_count
    }

    pub fn budget_excluded_candidate_count(self) -> (r: u64)
        ensures
            r == self.budget_excluded_candidate_count,
    {
        self.budget_excluded_candidate_count
    }

    pub fn source_byte_budget(self) -> (r: u64)
        ensures
            r == self.source_byte_budget,
    {
        self.source_byte_budget
    }

    pub fn shown_verbatim_event_count(self) -> (r: u64)
        ensures
            r == self.shown_verbatim_event_count,
    {
        self.shown_verbatim_event_count
    }

    pub fn pattern_represented_event_count(self) -> (r: u64)
        ensures
            r == self.pattern_represented_event_count,
    {
        self.pattern_represented_event_count
    }

    pub fn presentation_retained_raw_event_count(self) -> (r: u64)
        ensures
            r == self.presentation_retained_raw_event_count,
    {
        self.presentation_retained_raw_event_count
    }

    /// Events presented in any form: verbatim, as a pattern, or retained raw.
    pub fn presented_event_count(self) -> (r: u64)
        requires
            self.shown_verbatim_event_count + self.pattern_represented_event_count
                + self.presentation_retained_raw_event_count <= u64::MAX,
        ensures
            r == self.shown_verbatim_event_count + self.pattern_represented_event_count
                + self.presentation_retained_raw_event_count,
    {
        self.shown_verbatim_event_count + self.pattern_represented_event_count
            + self.presentation_retained_raw_event_count
    }

}
/// Exact hidden sums across governed case requirements.
#[derive(Clone, Copy, Debug, Default, PartialEq, Eq, Structural)]
pub struct GovernedRunRecallV1 {
    pub requirement_count: u64,
    pub satisfied_requirement_count: u64,
    pub total_weight_micros: u64,
    pub satisfied_weight_micros: u64,
}

impl GovernedRunRecallV1 {
    pub fn requirement_count(self) -> (r: u64)
        ensures
            r == self.requirement_count,
    {
        self.requirement_count
    }

    pub fn satisfied_requirement_count(self) -> (r: u64)
        ensures
            r == self.satisfied_requirement_count,
    {
        self.satisfied_requirement_count
    }

    pub fn total_weight_micros(self) -> (r: u64)
        ensures
            r == self.total_weight_micros,
    {
        self.total_weight_micros
    }

    pub fn satisfied_weight_micros(self) -> (r: u64)
        ensures
            r == self.satisfied_weight_micros,
    {
        self.satisfied_weight_micros
    }

    pub fn missed_requirement_count(self) -> (r: u64)
        requires
            self.satisfied_requirement_count <= self.requirement_count,
        ensures
            r == self.requirement_count - self.satisfied_requirement_count,
    {
        self.requirement_count - self.satisfied_requirement_count
    }

    /// Exact weighted-recall numerator and denominator.
    pub fn exact_weight_ratio(self) -> (r: (u64, u64))
        ensures
            r == (self.satisfied_weight_micros, self.total_weight_micros),
    {
        (self.satisfied_weight_micros, self.total_weight_micros)
    }

}
/// One checked aggregate dimension, used only in contentless diagnostics.
#[derive(Clone, Copy, Debug, PartialEq, Eq, PartialOrd, Ord, Structural)]
pub enum RunAggregateDimensionV1 {
    CaseCount,
    CompleteCaseCount,
    PartialCaseCount,
    UnknownCaseCount,
    ReceivedEventCount,
    CandidateEventCount,
    CandidateSourceBytes,
    SelectedEventCount,
    SelectedSourceBytes,
    RetainedRawEventCount,
    BudgetExcludedCandidateCount,
    SourceByteBudget,
    ShownVerbatimEventCount,
    PatternRepresentedEventCount,
    PresentationRetainedRawEventCount,
    RequirementCount,
    SatisfiedRequirementCount,
    TotalWeightMicros,
    SatisfiedWeightMicros,
}

impl RunAggregateDimensionV1 {
    pub open spec fn spec_code(self) -> Seq<char> {
        match self {
            RunAggregateDimensionV1::CaseCount => "case_count"@,
            RunAggregateDimensionV1::CompleteCaseCount => "complete_case_count"@,
            RunAggregateDimensionV1::PartialCaseCount => "partial_case_count"@,
            RunAggregateDimensionV1::UnknownCaseCount => "unknown_case_count"@,
            RunAggregateDimensionV1::ReceivedEventCount => "received_event_count"@,
            RunAggregateDimensionV1::CandidateEventCount => "candidate_event_count"@,
            RunAggregateDimensionV1::CandidateSourceBytes => "candidate_source_bytes"@,
            RunAggregateDimensionV1::SelectedEventCount => "selected_event_count"@,
            RunAggregateDimensionV1::SelectedSourceBytes => "selected_source_bytes"@,
            RunAggregateDimensionV1::RetainedRawEventCount => "retained_raw_event_count"@,
            RunAggregateDimensionV1::BudgetExcludedCandidateCount => "budget_excluded_candidate_count"@,
            RunAggregateDimensionV1::SourceByteBudget => "source_byte_budget"@,
            RunAggregateDimensionV1::ShownVerbatimEventCount => "shown_verbatim_event_count"@,
            RunAggregateDimensionV1::PatternRepresentedEventCount => "pattern_represented_event_count"@,
            RunAggregateDimensionV1::PresentationRetainedRawEventCount => "presentation_retained_raw_event_count"@,
            RunAggregateDimensionV1::RequirementCount => "requirement_count"@,
            RunAggregateDimensionV1::SatisfiedRequirementCount => "satisfied_requirement_count"@,
            RunAggregateDimensionV1::TotalWeightMicros => "total_weight_micros"@,
            RunAggregateDimensionV1::SatisfiedWeightMicros => "satisfied_weight_micros"@,
        }
    }

    pub fn code(self) -> (r: &'static str)
        ensures
            r@ == self.spec_code(),
    {
        match self {
            RunAggregateDimensionV1::CaseCount => "case_count",
            RunAggregateDimensionV1::CompleteCaseCount => "complete_case_count",
            RunAggregateDimensionV1::PartialCaseCount => "partial_case_count",
            RunAggregateDimensionV1::UnknownCaseCount => "unknown_case_count",
            RunAggregateDimensionV1::ReceivedEventCount => "received_event_count",
            RunAggregateDimensionV1::CandidateEventCount => "candidate_event_count",
            RunAggregateDimensionV1::CandidateSourceBytes => "candidate_source_bytes",
            RunAggregateDimensionV1::SelectedEventCount => "selected_event_count",
            RunAggregateDimensionV1::SelectedSourceBytes => "selected_source_bytes",
            RunAggregateDimensionV1::RetainedRawEventCount => "retained_raw_event_count",
            RunAggregateDimensionV1::BudgetExcludedCandidateCount => "budget_excluded_candidate_count",
            RunAggregateDimensionV1::SourceByteBudget => "source_byte_budget",
            RunAggregateDimensionV1::ShownVerbatimEventCount => "shown_verbatim_event_count",
            RunAggregateDimensionV1::PatternRepresentedEventCount => "pattern_represented_event_count",
            RunAggregateDimensionV1::PresentationRetainedRawEventCount => "presentation_retained_raw_event_count",
            RunAggregateDimensionV1::RequirementCount => "requirement_count",
            RunAggregateDimensionV1::SatisfiedRequirementCount => "satisfied_requirement_count",
            RunAggregateDimensionV1::TotalWeightMicros => "total_weight_micros",
            RunAggregateDimensionV1::SatisfiedWeightMicros => "satisfied_weight_micros",
        }
    }
}
/// Contentless aggregation and exact-pairing failures.
#[derive(Clone, Copy, Debug, PartialEq, Eq, Structural)]
pub enum RunAggregationError {
    RunManifestArtifactMismatch,
    HiddenEvaluationManifestRunMismatch,
    GovernedCaseArtifactBindingMismatch,
    RunIdentityMismatch,
    MethodMismatch,
    MissingCaseEvaluations { count: usize },
    DuplicateCaseEvaluation,
    ExtraCaseEvaluations { count: usize },
    AggregateOverflow { dimension: RunAggregateDimensionV1 },
    DatasetIdentityMismatch,
    PublicCaseCohortMismatch,
    SeedMismatch,
    BudgetMismatch,
    IncomparableBudgets,
}

impl RunAggregationError {
    pub open spec fn spec_code(self) -> Seq<char> {
        match self {
            RunAggregationError::RunManifestArtifactMismatch => "EVIDENTRAIL_BENCH_RUN_AGGREGATE_MANIFEST_ARTIFACT_MISMATCH"@,
            RunAggregationError::HiddenEvaluationManifestRunMismatch => "EVIDENTRAIL_BENCH_RUN_AGGREGATE_HIDDEN_MANIFEST_RUN_MISMATCH"@,
            RunAggregationError::GovernedCaseArtifactBindingMismatch => "EVIDENTRAIL_BENCH_RUN_AGGREGATE_GOVERNED_CASE_ARTIFACT_BINDING_MISMATCH"@,
            RunAggregationError::RunIdentityMismatch => "EVIDENTRAIL_BENCH_RUN_AGGREGATE_IDENTITY_MISMATCH"@,
            RunAggregationError::MethodMismatch => "EVIDENTRAIL_BENCH_RUN_AGGREGATE_METHOD_MISMATCH"@,
            RunAggregationError::MissingCaseEvaluations { .. } => "EVIDENTRAIL_BENCH_RUN_AGGREGATE_MISSING_CASE_EVALUATIONS"@,
            RunAggregationError::DuplicateCaseEvaluation => "EVIDENTRAIL_BENCH_RUN_AGGREGATE_DUPLICATE_CASE_EVALUATION"@,
            RunAggregationError::ExtraCaseEvaluations { .. } => "EVIDENTRAIL_BENCH_RUN_AGGREGATE_EXTRA_CASE_EVALUATIONS"@,
            RunAggregationError::AggregateOverflow { .. } => "EVIDENTRAIL_BENCH_RUN_AGGREGATE_OVERFLOW"@,
            RunAggregationError::DatasetIdentityMismatch => "EVIDENTRAIL_BENCH_RUN_COMPARISON_DATASET_IDENTITY_MISMATCH"@,
            RunAggregationError::PublicCaseCohortMismatch => "EVIDENTRAIL_BENCH_RUN_COMPARISON_PUBLIC_CASE_COHORT_MISMATCH"@,
            RunAggregationError::SeedMismatch => "EVIDENTRAIL_BENCH_RUN_COMPARISON_SEED_MISMATCH"@,
            RunAggregationError::BudgetMismatch => "EVIDENTRAIL_BENCH_RUN_COMPARISON_BUDGET_MISMATCH"@,
            RunAggregationError::IncomparableBudgets => "EVIDENTRAIL_BENCH_RUN_COMPARISON_INCOMPARABLE_BUDGETS"@,
        }
    }

    pub fn code(self) -> (r: &'static str)
        ensures
            r@ == self.spec_code(),
    {
        match self {
            RunAggregationError::RunManifestArtifactMismatch => "EVIDENTRAIL_BENCH_RUN_AGGREGATE_MANIFEST_ARTIFACT_MISMATCH",
            RunAggregationError::HiddenEvaluationManifestRunMismatch => "EVIDENTRAIL_BENCH_RUN_AGGREGATE_HIDDEN_MANIFEST_RUN_MISMATCH",
            RunAggregationError::GovernedCaseArtifactBindingMismatch => "EVIDENTRAIL_BENCH_RUN_AGGREGATE_GOVERNED_CASE_ARTIFACT_BINDING_MISMATCH",
            RunAggregationError::RunIdentityMismatch => "EVIDENTRAIL_BENCH_RUN_AGGREGATE_IDENTITY_MISMATCH",
            RunAggregationError::MethodMismatch => "EVIDENTRAIL_BENCH_RUN_AGGREGATE_METHOD_MISMATCH",
            RunAggregationError::MissingCaseEvaluations { .. } => "EVIDENTRAIL_BENCH_RUN_AGGREGATE_MISSING_CASE_EVALUATIONS",
            RunAggregationError::DuplicateCaseEvaluation => "EVIDENTRAIL_BENCH_RUN_AGGREGATE_DUPLICATE_CASE_EVALUATION",
            RunAggregationError::ExtraCaseEvaluations { .. } => "EVIDENTRAIL_BENCH_RUN_AGGREGATE_EXTRA_CASE_EVALUATIONS",
            RunAggregationError::AggregateOverflow { .. } => "EVIDENTRAIL_BENCH_RUN_AGGREGATE_OVERFLOW",
            RunAggregationError::DatasetIdentityMismatch => "EVIDENTRAIL_BENCH_RUN_COMPARISON_DATASET_IDENTITY_MISMATCH",
            RunAggregationError::PublicCaseCohortMismatch => "EVIDENTRAIL_BENCH_RUN_COMPARISON_PUBLIC_CASE_COHORT_MISMATCH",
            RunAggregationError::SeedMismatch => "EVIDENTRAIL_BENCH_RUN_COMPARISON_SEED_MISMATCH",
            RunAggregationError::BudgetMismatch => "EVIDENTRAIL_BENCH_RUN_COMPARISON_BUDGET_MISMATCH",
            RunAggregationError::IncomparableBudgets => "EVIDENTRAIL_BENCH_RUN_COMPARISON_INCOMPARABLE_BUDGETS",
        }
    }
}

/// The first addition, in order, whose sum leaves `u64`.
pub open spec fn first_overflow(adds: Seq<(u64, u64, RunAggregateDimensionV1)>) -> Option<
    RunAggregateDimensionV1,
>
    decreases adds.len(),
{
    if adds.len() == 0 {
        None
    } else if adds[0].0 + adds[0].1 > u64::MAX {
        Some(adds[0].2)
    } else {
        first_overflow(adds.drop_first())
    }
}

/// The result of a sequence of checked additions.
pub open spec fn additions_result(adds: Seq<(u64, u64, RunAggregateDimensionV1)>) -> Result<
    (),
    RunAggregationError,
> {
    match first_overflow(adds) {
        Some(d) => Err(RunAggregationError::AggregateOverflow { dimension: d }),
        None => Ok(()),
    }
}

/// Add to a running total, failing without change when the sum leaves `u64`.
pub fn checked_add(total: &mut u64, value: u64, dimension: RunAggregateDimensionV1) -> (r: Result<
    (),
    RunAggregationError,
>)
    ensures
        r is Ok <==> *old(total) + value <= u64::MAX,
        r is Ok ==> *final(total) == *old(total) + value,
        r is Err ==> *final(total) == *old(total) && r == Err::<(), RunAggregationError>(
            RunAggregationError::AggregateOverflow { dimension },
        ),
{
    match total.checked_add(value) {
        Some(t) => {
            *total = t;
            Ok(())
        },
        None => Err(RunAggregationError::AggregateOverflow { dimension }),
    }
}

/// The public accounting additions of one case, in checking order.
pub open spec fn public_additions(total: PublicRunAccountingV1, case: PublicCaseAccountingV1) -> Seq<
    (u64, u64, RunAggregateDimensionV1),
> {
    seq![
        (total.received_event_count, case.received_event_count, RunAggregateDimensionV1::ReceivedEventCount),
        (total.candidate_event_count, case.candidate_event_count, RunAggregateDimensionV1::CandidateEventCount),
        (total.candidate_source_bytes, case.candidate_source_bytes, RunAggregateDimensionV1::CandidateSourceBytes),
        (total.selected_event_count, case.selected_event_count, RunAggregateDimensionV1::SelectedEventCount),
        (total.selected_source_bytes, case.selected_source_bytes, RunAggregateDimensionV1::SelectedSourceBytes),
        (total.retained_raw_event_count, case.retained_raw_event_count, RunAggregateDimensionV1::RetainedRawEventCount),
        (total.budget_excluded_candidate_count, case.budget_excluded_candidate_count, RunAggregateDimensionV1::BudgetExcludedCandidateCount),
        (total.source_byte_budget, case.source_byte_budget, RunAggregateDimensionV1::SourceByteBudget),
        (total.shown_verbatim_event_count, case.shown_verbatim_event_count, RunAggregateDimensionV1::ShownVerbatimEventCount),
        (total.pattern_represented_event_count, case.pattern_represented_event_count, RunAggregateDimensionV1::PatternRepresentedEventCount),
        (total.presentation_retained_raw_event_count, case.presentation_retained_raw_event_count, RunAggregateDimensionV1::PresentationRetainedRawEventCount),
    ]
}

/// The public accounting totals after adding one case.
pub open spec fn public_sum(total: PublicRunAccountingV1, case: PublicCaseAccountingV1) -> PublicRunAccountingV1 {
    PublicRunAccountingV1 {
        received_event_count: (total.received_event_count + case.received_event_count) as u64,
        candidate_event_count: (total.candidate_event_count + case.candidate_event_count) as u64,
        candidate_source_bytes: (total.candidate_source_bytes + case.candidate_source_bytes) as u64,
        selected_event_count: (total.selected_event_count + case.selected_event_count) as u64,
        selected_source_bytes: (total.selected_source_bytes + case.selected_source_bytes) as u64,
        retained_raw_event_count: (total.retained_raw_event_count + case.retained_raw_event_count) as u64,
        budget_excluded_candidate_count: (total.budget_excluded_candidate_count + case.budget_excluded_candidate_count) as u64,
        source_byte_budget: (total.source_byte_budget + case.source_byte_budget) as u64,
        shown_verbatim_event_count: (total.shown_verbatim_event_count + case.shown_verbatim_event_count) as u64,
        pattern_represented_event_count: (total.pattern_represented_event_count + case.pattern_represented_event_count) as u64,
        presentation_retained_raw_event_count: (total.presentation_retained_raw_event_count + case.presentation_retained_raw_event_count) as u64,
    }
}

/// How many additions succeed before the first one that leaves `u64` (all
/// of them when none does).
pub open spec fn first_overflow_index(adds: Seq<(u64, u64, RunAggregateDimensionV1)>) -> nat
    decreases adds.len(),
{
    if adds.len() == 0 {
        0
    } else if adds[0].0 + adds[0].1 > u64::MAX {
        0
    } else {
        1 + first_overflow_index(adds.drop_first())
    }
}

/// The public totals with the first `k` dimensions of a case added, in
/// checking order, and the others as they were.
pub open spec fn public_partial_sum(total: PublicRunAccountingV1, case: PublicCaseAccountingV1, k: nat) -> PublicRunAccountingV1 {
    let full = public_sum(total, case);
    PublicRunAccountingV1 {
        received_event_count: if k > 0 {
            full.received_event_count
        } else {
            total.received_event_count
        },
        candidate_event_count: if k > 1 {
            full.candidate_event_count
        } else {
            total.candidate_event_count
        },
        candidate_source_bytes: if k > 2 {
            full.candidate_source_bytes
        } else {
            total.candidate_source_bytes
        },
        selected_event_count: if k > 3 {
            full.selected_event_count
        } else {
            total.selected_event_count
        },
        selected_source_bytes: if k > 4 {
            full.selected_source_bytes
        } else {
            total.selected_source_bytes
        },
        retained_raw_event_count: if k > 5 {
            full.retained_raw_event_count
        } else {
            total.retained_raw_event_count
        },
        budget_excluded_candidate_count: if k > 6 {
            full.budget_excluded_candidate_count
        } else {
            total.budget_excluded_candidate_count
        },
        source_byte_budget: if k > 7 {
            full.source_byte_budget
        } else {
            total.source_byte_budget
        },
        shown_verbatim_event_count: if k > 8 {
            full.shown_verbatim_event_count
        } else {
            total.shown_verbatim_event_count
        },
        pattern_represented_event_count: if k > 9 {
            full.pattern_represented_event_count
        } else {
            total.pattern_represented_event_count
        },
        presentation_retained_raw_event_count: if k > 10 {
            full.presentation_retained_raw_event_count
        } else {
            total.presentation_retained_raw_event_count
        },
    }
}

/// Checked running totals of one run.
#[derive(Clone, Copy, Debug, Default)]
pub struct CheckedRunTotals {
    pub case_count: u64,
    pub complete_case_count: u64,
    pub partial_case_count: u64,
    pub unknown_case_count: u64,
    pub public_accounting: PublicRunAccountingV1,
    pub governed_recall: GovernedRunRecallV1,
}

/// The class counter a case increments, and its dimension.
pub open spec fn class_addition(totals: CheckedRunTotals, class: ExpectedAcquisitionClassV1) -> (
    u64,
    u64,
    RunAggregateDimensionV1,
) {
    match class {
        ExpectedAcquisitionClassV1::Complete => (
            totals.complete_case_count,
            1,
            RunAggregateDimensionV1::CompleteCaseCount,
        ),
        ExpectedAcquisitionClassV1::Partial => (
            totals.partial_case_count,
            1,
            RunAggregateDimensionV1::PartialCaseCount,
        ),
        ExpectedAcquisitionClassV1::Unknown => (
            totals.unknown_case_count,
            1,
            RunAggregateDimensionV1::UnknownCaseCount,
        ),
    }
}

/// The governed recall additions of one case, in checking order.
pub open spec fn recall_additions(total: GovernedRunRecallV1, case: GovernedRequirementRecallV1) -> Seq<
    (u64, u64, RunAggregateDimensionV1),
> {
    seq![
        (total.requirement_count, case.requirement_count, RunAggregateDimensionV1::RequirementCount),
        (
            total.satisfied_requirement_count,
            case.satisfied_requirement_count,
            RunAggregateDimensionV1::SatisfiedRequirementCount,
        ),
        (total.total_weight_micros, case.total_weight_micros, RunAggregateDimensionV1::TotalWeightMicros),
        (
            total.satisfied_weight_micros,
            case.satisfied_weight_micros,
            RunAggregateDimensionV1::SatisfiedWeightMicros,
        ),
    ]
}

/// Every addition one case makes to the run totals, in checking order.
pub open spec fn case_additions(totals: CheckedRunTotals, evaluation: GovernedCaseEvaluationV1) -> Seq<
    (u64, u64, RunAggregateDimensionV1),
> {
    seq![
        (totals.case_count, 1u64, RunAggregateDimensionV1::CaseCount),
        class_addition(totals, evaluation.public_result.acquisition_class),
    ] + public_additions(totals.public_accounting, evaluation.public_result.accounting)
        + recall_additions(totals.governed_recall, evaluation.diagnostic_recall)
}

/// Run totals after one case has been added.
pub open spec fn totals_after_case(totals: CheckedRunTotals, evaluation: GovernedCaseEvaluationV1) -> CheckedRunTotals {
    let class = evaluation.public_result.acquisition_class;
    let rec = evaluation.diagnostic_recall;
    CheckedRunTotals {
        case_count: (totals.case_count + 1) as u64,
        complete_case_count: if class == ExpectedAcquisitionClassV1::Complete {
            (totals.complete_case_count + 1) as u64
        } else {
            totals.complete_case_count
        },
        partial_case_count: if class == ExpectedAcquisitionClassV1::Partial {
            (totals.partial_case_count + 1) as u64
        } else {
            totals.partial_case_count
        },
        unknown_case_count: if class == ExpectedAcquisitionClassV1::Unknown {
            (totals.unknown_case_count + 1) as u64
        } else {
            totals.unknown_case_count
        },
        public_accounting: public_sum(totals.public_accounting, evaluation.public_result.accounting),
        governed_recall: GovernedRunRecallV1 {
            requirement_count: (totals.governed_recall.requirement_count + rec.requirement_count) as u64,
            satisfied_requirement_count: (totals.governed_recall.satisfied_requirement_count
                + rec.satisfied_requirement_count) as u64,
            total_weight_micros: (totals.governed_recall.total_weight_micros + rec.total_weight_micros) as u64,
            satisfied_weight_micros: (totals.governed_recall.satisfied_weight_micros
                + rec.satisfied_weight_micros) as u64,
        },
    }
}

proof fn lemma_first_overflow_prefix(
    a: Seq<(u64, u64, RunAggregateDimensionV1)>,
    b: Seq<(u64, u64, RunAggregateDimensionV1)>,
)
    ensures
        first_overflow(a + b) == match first_overflow(a) {
            Some(d) => Some(d),
            None => first_overflow(b),
        },
    decreases a.len(),
{
    if a.len() > 0 {
        assert((a + b).drop_first() =~= a.drop_first() + b);
        assert((a + b)[0] == a[0]);
        lemma_first_overflow_prefix(a.drop_first(), b);
    } else {
        assert(a + b =~= b);
    }
}

/// The relations a case's public accounting keeps: every received event is
/// selected or retained raw; every candidate is selected or budget-excluded;
/// candidates are received events; selected bytes are candidate bytes within
/// the budget; raw retention and verbatim display agree with the
/// presentation.
pub open spec fn case_accounting_consistent(a: PublicCaseAccountingV1) -> bool {
    &&& a.received_event_count == a.selected_event_count + a.retained_raw_event_count
    &&& a.candidate_event_count == a.selected_event_count + a.budget_excluded_candidate_count
    &&& a.candidate_event_count <= a.received_event_count
    &&& a.selected_source_bytes <= a.candidate_source_bytes
    &&& a.selected_source_bytes <= a.source_byte_budget
    &&& a.retained_raw_event_count == a.presentation_retained_raw_event_count
    &&& a.shown_verbatim_event_count == a.selected_event_count
}

/// The same relations over run sums.
pub open spec fn run_accounting_consistent(a: PublicRunAccountingV1) -> bool {
    &&& a.received_event_count == a.selected_event_count + a.retained_raw_event_count
    &&& a.candidate_event_count == a.selected_event_count + a.budget_excluded_candidate_count
    &&& a.candidate_event_count <= a.received_event_count
    &&& a.selected_source_bytes <= a.candidate_source_bytes
    &&& a.selected_source_bytes <= a.source_byte_budget
    &&& a.retained_raw_event_count == a.presentation_retained_raw_event_count
    &&& a.shown_verbatim_event_count == a.selected_event_count
}

/// With no overflow, each addition stays within `u64`.
pub proof fn lemma_no_overflow_each(adds: Seq<(u64, u64, RunAggregateDimensionV1)>)
    requires
        first_overflow(adds) is None,
    ensures
        forall|i: int| 0 <= i < adds.len() ==> (#[trigger] adds[i]).0 + adds[i].1 <= u64::MAX,
    decreases adds.len(),
{
    if adds.len() > 0 {
        lemma_no_overflow_each(adds.drop_first());
        assert forall|i: int| 0 <= i < adds.len() implies (#[trigger] adds[i]).0 + adds[i].1 <= u64::MAX by {
            if i > 0 {
                assert(adds[i] == adds.drop_first()[i - 1]);
            }
        }
    }
}

/// Empty run totals keep the accounting relations.
pub proof fn lemma_zero_accounting_consistent()
    ensures
        run_accounting_consistent(CheckedRunTotals::spec_zero().public_accounting),
{
}

/// Adding a consistent case to consistent run totals, without overflow, keeps
/// the run totals consistent.
pub proof fn lemma_public_sum_consistent(total: PublicRunAccountingV1, case: PublicCaseAccountingV1)
    requires
        run_accounting_consistent(total),
        case_accounting_consistent(case),
        first_overflow(public_additions(total, case)) is None,
    ensures
        run_accounting_consistent(public_sum(total, case)),
{
    let adds = public_additions(total, case);
    lemma_no_overflow_each(adds);
    assert(adds[0].0 + adds[0].1 <= u64::MAX);
    assert(adds[1].0 + adds[1].1 <= u64::MAX);
    assert(adds[2].0 + adds[2].1 <= u64::MAX);
    assert(adds[3].0 + adds[3].1 <= u64::MAX);
    assert(adds[4].0 + adds[4].1 <= u64::MAX);
    assert(adds[5].0 + adds[5].1 <= u64::MAX);
    assert(adds[6].0 + adds[6].1 <= u64::MAX);
    assert(adds[7].0 + adds[7].1 <= u64::MAX);
    assert(adds[8].0 + adds[8].1 <= u64::MAX);
    assert(adds[10].0 + adds[10].1 <= u64::MAX);
}

/// A case added to consistent totals without overflow keeps them consistent.
pub proof fn lemma_case_totals_consistent(totals: CheckedRunTotals, evaluation: GovernedCaseEvaluationV1)
    requires
        run_accounting_consistent(totals.public_accounting),
        case_accounting_consistent(evaluation.public_result.accounting),
        additions_result(case_additions(totals, evaluation)) is Ok,
    ensures
        run_accounting_consistent(totals_after_case(totals, evaluation).public_accounting),
{
    let head = seq![
        (totals.case_count, 1u64, RunAggregateDimensionV1::CaseCount),
        class_addition(totals, evaluation.public_result.acquisition_class),
    ];
    let pa = public_additions(totals.public_accounting, evaluation.public_result.accounting);
    let ra = recall_additions(totals.governed_recall, evaluation.diagnostic_recall);
    assert(case_additions(totals, evaluation) == head + pa + ra);
    lemma_first_overflow_prefix(head + pa, ra);
    lemma_first_overflow_prefix(head, pa);
    lemma_public_sum_consistent(totals.public_accounting, evaluation.public_result.accounting);
}

impl CheckedRunTotals {
    /// Totals before any case.
    pub open spec fn spec_zero() -> Self {
        CheckedRunTotals {
            case_count: 0,
            complete_case_count: 0,
            partial_case_count: 0,
            unknown_case_count: 0,
            public_accounting: PublicRunAccountingV1 {
                received_event_count: 0,
                candidate_event_count: 0,
                candidate_source_bytes: 0,
                selected_event_count: 0,
                selected_source_bytes: 0,
                retained_raw_event_count: 0,
                budget_excluded_candidate_count: 0,
                source_byte_budget: 0,
                shown_verbatim_event_count: 0,
                pattern_represented_event_count: 0,
                presentation_retained_raw_event_count: 0,
            },
            governed_recall: GovernedRunRecallV1 {
                requirement_count: 0,
                satisfied_requirement_count: 0,
                total_weight_micros: 0,
                satisfied_weight_micros: 0,
            },
        }
    }

    pub fn zero() -> (r: Self)
        ensures
            r == Self::spec_zero(),
    {
        CheckedRunTotals {
            case_count: 0,
            complete_case_count: 0,
            partial_case_count: 0,
            unknown_case_count: 0,
            public_accounting: PublicRunAccountingV1 {
                received_event_count: 0,
                candidate_event_count: 0,
                candidate_source_bytes: 0,
                selected_event_count: 0,
                selected_source_bytes: 0,
                retained_raw_event_count: 0,
                budget_excluded_candidate_count: 0,
                source_byte_budget: 0,
                shown_verbatim_event_count: 0,
                pattern_represented_event_count: 0,
                presentation_retained_raw_event_count: 0,
            },
            governed_recall: GovernedRunRecallV1 {
                requirement_count: 0,
                satisfied_requirement_count: 0,
                total_weight_micros: 0,
                satisfied_weight_micros: 0,
            },
        }
    }

    /// Add one case's public accounting, checking every dimension in order.
    pub fn add_public_accounting(&mut self, accounting: PublicCaseAccountingV1) -> (r: Result<
        (),
        RunAggregationError,
    >)
        ensures
            r == additions_result(public_additions(old(self).public_accounting, accounting)),
            r is Ok ==> final(self).public_accounting == public_sum(old(self).public_accounting, accounting),
            final(self).public_accounting == public_partial_sum(
                old(self).public_accounting,
                accounting,
                first_overflow_index(public_additions(old(self).public_accounting, accounting)),
            ),
            final(self).case_count == old(self).case_count && final(self).complete_case_count
                == old(self).complete_case_count && final(self).partial_case_count
                == old(self).partial_case_count && final(self).unknown_case_count
                == old(self).unknown_case_count && final(self).governed_recall == old(self).governed_recall,
            r is Ok ==> final(self).case_count == old(self).case_count
                && final(self).complete_case_count == old(self).complete_case_count
                && final(self).partial_case_count == old(self).partial_case_count
                && final(self).unknown_case_count == old(self).unknown_case_count
                && final(self).governed_recall == old(self).governed_recall,
    {
        proof {
            reveal_with_fuel(first_overflow, 12);
            reveal_with_fuel(first_overflow_index, 12);
        }
        checked_add(&mut self.public_accounting.received_event_count, accounting.received_event_count, RunAggregateDimensionV1::ReceivedEventCount)?;
        checked_add(&mut self.public_accounting.candidate_event_count, accounting.candidate_event_count, RunAggregateDimensionV1::CandidateEventCount)?;
        checked_add(&mut self.public_accounting.candidate_source_bytes, accounting.candidate_source_bytes, RunAggregateDimensionV1::CandidateSourceBytes)?;
        checked_add(&mut self.public_accounting.selected_event_count, accounting.selected_event_count, RunAggregateDimensionV1::SelectedEventCount)?;
        checked_add(&mut self.public_accounting.selected_source_bytes, accounting.selected_source_bytes, RunAggregateDimensionV1::SelectedSourceBytes)?;
        checked_add(&mut self.public_accounting.retained_raw_event_count, accounting.retained_raw_event_count, RunAggregateDimensionV1::RetainedRawEventCount)?;
        checked_add(&mut self.public_accounting.budget_excluded_candidate_count, accounting.budget_excluded_candidate_count, RunAggregateDimensionV1::BudgetExcludedCandidateCount)?;
        checked_add(&mut self.public_accounting.source_byte_budget, accounting.source_byte_budget, RunAggregateDimensionV1::SourceByteBudget)?;
        checked_add(&mut self.public_accounting.shown_verbatim_event_count, accounting.shown_verbatim_event_count, RunAggregateDimensionV1::ShownVerbatimEventCount)?;
        checked_add(&mut self.public_accounting.pattern_represented_event_count, accounting.pattern_represented_event_count, RunAggregateDimensionV1::PatternRepresentedEventCount)?;
        checked_add(&mut self.public_accounting.presentation_retained_raw_event_count, accounting.presentation_retained_raw_event_count, RunAggregateDimensionV1::PresentationRetainedRawEventCount)?;
        Ok(())
    }

    /// Add one governed case evaluation: case and class counts, public
    /// accounting, then governed recall, each checked in that order.
    pub fn add_case(&mut self, evaluation: GovernedCaseEvaluationV1) -> (r: Result<(), RunAggregationError>)
        ensures
            r == additions_result(case_additions(*old(self), evaluation)),
            r is Ok ==> *final(self) == totals_after_case(*old(self), evaluation),
            r is Ok ==> final(self).governed_recall.satisfied_weight_micros
                == old(self).governed_recall.satisfied_weight_micros + evaluation.diagnostic_recall.satisfied_weight_micros,
            r is Ok ==> final(self).governed_recall.total_weight_micros == old(self).governed_recall.total_weight_micros
                + evaluation.diagnostic_recall.total_weight_micros,
            r is Ok ==> final(self).governed_recall.satisfied_requirement_count
                == old(self).governed_recall.satisfied_requirement_count
                + evaluation.diagnostic_recall.satisfied_requirement_count,
            r is Ok ==> final(self).governed_recall.requirement_count == old(self).governed_recall.requirement_count
                + evaluation.diagnostic_recall.requirement_count,
    {
        proof {
            lemma_case_recall_sums(*self, evaluation);
        }
        let ghost start = *self;
        let ghost pa = public_additions(start.public_accounting, evaluation.public_result.accounting);
        let ghost ra = recall_additions(start.governed_recall, evaluation.diagnostic_recall);
        let ghost head = seq![
            (start.case_count, 1u64, RunAggregateDimensionV1::CaseCount),
            class_addition(start, evaluation.public_result.acquisition_class),
        ];
        proof {
            lemma_first_overflow_prefix(head, pa);
            lemma_first_overflow_prefix(head + pa, ra);
            assert(case_additions(start, evaluation) == head + pa + ra);
            reveal_with_fuel(first_overflow, 5);
        }
        checked_add(&mut self.case_count, 1, RunAggregateDimensionV1::CaseCount)?;
        match evaluation.public_result.acquisition_class {
            ExpectedAcquisitionClassV1::Complete => checked_add(
                &mut self.complete_case_count,
                1,
                RunAggregateDimensionV1::CompleteCaseCount,
            )?,
            ExpectedAcquisitionClassV1::Partial => checked_add(
                &mut self.partial_case_count,
                1,
                RunAggregateDimensionV1::PartialCaseCount,
            )?,
            ExpectedAcquisitionClassV1::Unknown => checked_add(
                &mut self.unknown_case_count,
                1,
                RunAggregateDimensionV1::UnknownCaseCount,
            )?,
        }
        self.add_public_accounting(evaluation.public_result.accounting)?;
        let recall = evaluation.diagnostic_recall;
        checked_add(
            &mut self.governed_recall.requirement_count,
            recall.requirement_count,
            RunAggregateDimensionV1::RequirementCount,
        )?;
        checked_add(
            &mut self.governed_recall.satisfied_requirement_count,
            recall.satisfied_requirement_count,
            RunAggregateDimensionV1::SatisfiedRequirementCount,
        )?;
        checked_add(
            &mut self.governed_recall.total_weight_micros,
            recall.total_weight_micros,
            RunAggregateDimensionV1::TotalWeightMicros,
        )?;
        checked_add(
            &mut self.governed_recall.satisfied_weight_micros,
            recall.satisfied_weight_micros,
            RunAggregateDimensionV1::SatisfiedWeightMicros,
        )?;
        Ok(())
    }
}

/// The five comparable budget axes of one run.
#[derive(Clone, Copy, Debug, PartialEq, Eq, Structural)]
pub struct BenchmarkBudgetV1 {
    pub unique_candidate_event_count: u64,
    pub unique_candidate_source_bytes: u64,
    pub canonical_candidate_tokens: u64,
    pub wall_time_nanos: u64,
    pub peak_memory_bytes: u64,
}

/// Every axis of `left` is at most the same axis of `right`.
pub open spec fn spec_budget_is_no_greater(left: BenchmarkBudgetV1, right: BenchmarkBudgetV1) -> bool {
    &&& left.unique_candidate_event_count <= right.unique_candidate_event_count
    &&& left.unique_candidate_source_bytes <= right.unique_candidate_source_bytes
    &&& left.canonical_candidate_tokens <= right.canonical_candidate_tokens
    &&& left.wall_time_nanos <= right.wall_time_nanos
    &&& left.peak_memory_bytes <= right.peak_memory_bytes
}

pub fn budget_is_no_greater(left: BenchmarkBudgetV1, right: BenchmarkBudgetV1) -> (r: bool)
    ensures
        r == spec_budget_is_no_greater(left, right),
{
    left.unique_candidate_event_count <= right.unique_candidate_event_count
        && left.unique_candidate_source_bytes <= right.unique_candidate_source_bytes
        && left.canonical_candidate_tokens <= right.canonical_candidate_tokens
        && left.wall_time_nanos <= right.wall_time_nanos && left.peak_memory_bytes
        <= right.peak_memory_bytes
}

/// Two run budgets must match exactly; otherwise say whether they are merely
/// different or incomparable.
pub fn validate_exact_budget_match(left: BenchmarkBudgetV1, right: BenchmarkBudgetV1) -> (r: Result<
    (),
    RunAggregationError,
>)
    ensures
        r is Ok <==> left == right,
        r == Err::<(), RunAggregationError>(RunAggregationError::IncomparableBudgets) <==> (!spec_budget_is_no_greater(left, right)
            && !spec_budget_is_no_greater(right, left)),
        r is Err ==> r == Err::<(), RunAggregationError>(RunAggregationError::IncomparableBudgets) || r
            == Err::<(), RunAggregationError>(RunAggregationError::BudgetMismatch),
{
    if left == right {
        return Ok(());
    }
    let left_no_greater = budget_is_no_greater(left, right);
    let right_no_greater = budget_is_no_greater(right, left);
    if !left_no_greater && !right_no_greater {
        return Err(RunAggregationError::IncomparableBudgets);
    }
    Err(RunAggregationError::BudgetMismatch)
}

/// Adding a case whose additions all fit adds the case's recall to the run's,
/// dimension by dimension: satisfied weight to satisfied weight, total weight
/// to total weight, and likewise the requirement counts. So the run's
/// satisfied weight stays within its total weight when each case's does.
pub proof fn lemma_case_recall_sums(totals: CheckedRunTotals, evaluation: GovernedCaseEvaluationV1)
    ensures
        additions_result(case_additions(totals, evaluation)) is Ok ==> {
            let after = totals_after_case(totals, evaluation).governed_recall;
            let before = totals.governed_recall;
            let case = evaluation.diagnostic_recall;
            &&& after.satisfied_weight_micros == before.satisfied_weight_micros + case.satisfied_weight_micros
            &&& after.total_weight_micros == before.total_weight_micros + case.total_weight_micros
            &&& after.satisfied_requirement_count == before.satisfied_requirement_count
                + case.satisfied_requirement_count
            &&& after.requirement_count == before.requirement_count + case.requirement_count
            &&& (before.satisfied_weight_micros <= before.total_weight_micros && case.satisfied_weight_micros
                <= case.total_weight_micros ==> after.satisfied_weight_micros <= after.total_weight_micros)
        },
{
    if additions_result(case_additions(totals, evaluation)) is Ok {
        let head = seq![
            (totals.case_count, 1u64, RunAggregateDimensionV1::CaseCount),
            class_addition(totals, evaluation.public_result.acquisition_class),
        ];
        let pa = public_additions(totals.public_accounting, evaluation.public_result.accounting);
        let ra = recall_additions(totals.governed_recall, evaluation.diagnostic_recall);
        assert(case_additions(totals, evaluation) == head + pa + ra);
        lemma_first_overflow_prefix(head + pa, ra);
        lemma_no_overflow_each(ra);
        assert(ra[0].0 + ra[0].1 <= u64::MAX);
        assert(ra[1].0 + ra[1].1 <= u64::MAX);
        assert(ra[2].0 + ra[2].1 <= u64::MAX);
        assert(ra[3].0 + ra[3].1 <= u64::MAX);
    }
}

/// Adding a case whose additions all fit counts the case once, once more
/// under its acquisition class, and adds each public accounting dimension of
/// the case to the same dimension of the run.
pub proof fn lemma_case_public_sums(totals: CheckedRunTotals, evaluation: GovernedCaseEvaluationV1)
    ensures
        additions_result(case_additions(totals, evaluation)) is Ok ==> {
            let after = totals_after_case(totals, evaluation);
            let case = evaluation.public_result.accounting;
            let class = evaluation.public_result.acquisition_class;
            &&& after.case_count == totals.case_count + 1
            &&& after.complete_case_count == totals.complete_case_count + if class
                == ExpectedAcquisitionClassV1::Complete {
                1int
            } else {
                0int
            }
            &&& after.partial_case_count == totals.partial_case_count + if class
                == ExpectedAcquisitionClassV1::Partial {
                1int
            } else {
                0int
            }
            &&& after.unknown_case_count == totals.unknown_case_count + if class
                == ExpectedAcquisitionClassV1::Unknown {
                1int
            } else {
                0int
            }
            &&& after.public_accounting.received_event_count == totals.public_accounting.received_event_count + case.received_event_count
            &&& after.public_accounting.candidate_event_count == totals.public_accounting.candidate_event_count + case.candidate_event_count
            &&& after.public_accounting.candidate_source_bytes == totals.public_accounting.candidate_source_bytes + case.candidate_source_bytes
            &&& after.public_accounting.selected_event_count == totals.public_accounting.selected_event_count + case.selected_event_count
            &&& after.public_accounting.selected_source_bytes == totals.public_accounting.selected_source_bytes + case.selected_source_bytes
            &&& after.public_accounting.retained_raw_event_count == totals.public_accounting.retained_raw_event_count + case.retained_raw_event_count
            &&& after.public_accounting.budget_excluded_candidate_count == totals.public_accounting.budget_excluded_candidate_count + case.budget_excluded_candidate_count
            &&& after.public_accounting.source_byte_budget == totals.public_accounting.source_byte_budget + case.source_byte_budget
            &&& after.public_accounting.shown_verbatim_event_count == totals.public_accounting.shown_verbatim_event_count + case.shown_verbatim_event_count
            &&& after.public_accounting.pattern_represented_event_count == totals.public_accounting.pattern_represented_event_count + case.pattern_represented_event_count
            &&& after.public_accounting.presentation_retained_raw_event_count == totals.public_accounting.presentation_retained_raw_event_count + case.presentation_retained_raw_event_count
        },
{
    if additions_result(case_additions(totals, evaluation)) is Ok {
        let head = seq![
            (totals.case_count, 1u64, RunAggregateDimensionV1::CaseCount),
            class_addition(totals, evaluation.public_result.acquisition_class),
        ];
        let pa = public_additions(totals.public_accounting, evaluation.public_result.accounting);
        let ra = recall_additions(totals.governed_recall, evaluation.diagnostic_recall);
        assert(case_additions(totals, evaluation) == head + pa + ra);
        lemma_first_overflow_prefix(head + pa, ra);
        lemma_first_overflow_prefix(head, pa);
        lemma_no_overflow_each(head);
        lemma_no_overflow_each(pa);
        assert(head[0].0 + head[0].1 <= u64::MAX);
        assert(head[1].0 + head[1].1 <= u64::MAX);
        assert(pa[0].0 + pa[0].1 <= u64::MAX);
        assert(pa[1].0 + pa[1].1 <= u64::MAX);
        assert(pa[2].0 + pa[2].1 <= u64::MAX);
        assert(pa[3].0 + pa[3].1 <= u64::MAX);
        assert(pa[4].0 + pa[4].1 <= u64::MAX);
        assert(pa[5].0 + pa[5].1 <= u64::MAX);
        assert(pa[6].0 + pa[6].1 <= u64::MAX);
        assert(pa[7].0 + pa[7].1 <= u64::MAX);
        assert(pa[8].0 + pa[8].1 <= u64::MAX);
        assert(pa[9].0 + pa[9].1 <= u64::MAX);
        assert(pa[10].0 + pa[10].1 <= u64::MAX);
    }
}

} // verus!
