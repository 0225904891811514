//! Governed case evaluation records: label-free public accounting and
//! results, governed weighted-recall counts, and contentless failures.

use vstd::prelude::*;

use crate::aggregator::case_accounting_consistent;
use crate::digest::{bytes32_eq, ArtifactDigest};
use crate::ledger::{BlockIndex, EventId, EventLedger, EvidenceBlock, FetchCompletenessV1, RetrievalId};
use crate::manifest::{
    EvidenceTargetV1, EvidentrailBenchAnnotationSpecV1, EvidentrailBenchCaseSpecV1, ExpectedAcquisitionClassV1,
    WeightedDiagnosticRequirementV1,
};
use crate::method::{MethodDescriptor, MethodResult};
use crate::metrics::{count_flags, lemma_filter_count_set, lemma_flags_filter};

verus! {

/// Identity of a frozen presentation receipt.
#[derive(Clone, Copy, Debug, PartialEq, Eq, PartialOrd, Ord, Hash, Structural)]
pub struct PresentationReceiptId(pub u64);

/// The public case and hidden annotation artifacts one evaluation joins.
#[derive(Clone, Copy, Debug)]
pub struct GovernedCaseArtifactBindingV1 {
    pub public_case_artifact_digest: ArtifactDigest,
    pub annotation_artifact_digest: ArtifactDigest,
}

/// Exact, label-free method and presentation accounting for a public run result.
#[derive(Clone, Copy, Debug, Default, PartialEq, Eq, Structural)]
pub struct PublicCaseAccountingV1 {
    pub received_event_count: u64,
    pub candidate_event_count: u64,
    pub candidate_source_bytes: u64,
    pub selected_event_count: u64,
    pub selected_source_bytes: u64,
    pub retained_raw_event_count: u64,
    pub budget_excluded_candidate_count: u64,
    pub source_byte_budget: u64,
    pub shown_verbatim_event_count: u64,
    pub pattern_represented_event_count: u64,
    pub presentation_retained_raw_event_count: u64,
}

impl PublicCaseAccountingV1 {
    pub fn received_event_count(self) -> (r: u64)
        ensures
            r == self.received_event_count,
    {
        self.received_event_count
    }

    pub fn candidate_event_count(self) -> (r: u64)
        ensures
            r == self.candidate_event_count,
    {
        self.candidate_event_count
    }

    pub fn candidate_source_bytes(self) -> (r: u64)
        ensures
            r == self.candidate_source_bytes,
    {
        self.candidate_source_bytes
    }

    pub fn selected_event_count(self) -> (r: u64)
        ensures
            r == self.selected_event_count,
    {
        self.selected_event_count
    }

    pub fn selected_source_bytes(self) -> (r: u64)
        ensures
            r == self.selected_source_bytes,
    {
        self.selected_source_bytes
    }

    pub fn retained_raw_event_count(self) -> (r: u64)
        ensures
            r == self.retained_raw_event_count,
    {
        self.retained_raw_event_count
    }

    pub fn budget_excluded_candidate_count(self) -> (r: u64)
        ensures
            r == self.budget_excluded_candidate_count,
    {
        self.budget_excluded_candidate_count
    }

    pub fn source_byte_budget(self) -> (r: u64)
        ensures
            r == self.source_byte_budget,
    {
        self.source_byte_budget
    }

    pub fn shown_verbatim_event_count(self) -> (r: u64)
        ensures
            r == self.shown_verbatim_event_count,
    {
        self.shown_verbatim_event_count
    }

    pub fn pattern_represented_event_count(self) -> (r: u64)
        ensures
            r == self.pattern_represented_event_count,
    {
        self.pattern_represented_event_count
    }

    pub fn presentation_retained_raw_event_count(self) -> (r: u64)
        ensures
            r == self.presentation_retained_raw_event_count,
    {
        self.presentation_retained_raw_event_count
    }

    /// Events presented in any form: verbatim, as a pattern, or retained raw.
    pub fn presented_event_count(self) -> (r: u64)
        requires
            self.shown_verbatim_event_count + self.pattern_represented_event_count
                + self.presentation_retained_raw_event_count <= u64::MAX,
        ensures
            r == self.shown_verbatim_event_count + self.pattern_represented_event_count
                + self.presentation_retained_raw_event_count,
    {
        self.shown_verbatim_event_count + self.pattern_represented_event_count
            + self.presentation_retained_raw_event_count
    }

}
/// Label-free case result suitable for public run artifacts.
#[derive(Clone, Copy, Debug)]
pub struct PublicCaseEvaluationResultV1 {
    pub public_case_artifact_digest: ArtifactDigest,
    pub method: MethodDescriptor,
    pub retrieval_id: RetrievalId,
    pub acquisition_class: ExpectedAcquisitionClassV1,
    pub presentation_receipt_id: PresentationReceiptId,
    pub accounting: PublicCaseAccountingV1,
}

impl PublicCaseEvaluationResultV1 {
    pub fn public_case_artifact_digest(self) -> (r: ArtifactDigest)
        ensures
            r == self.public_case_artifact_digest,
    {
        self.public_case_artifact_digest
    }

    pub fn method(self) -> (r: MethodDescriptor)
        ensures
            r == self.method,
    {
        self.method
    }

    pub fn retrieval_id(self) -> (r: RetrievalId)
        ensures
            r == self.retrieval_id,
    {
        self.retrieval_id
    }

    pub fn acquisition_class(self) -> (r: ExpectedAcquisitionClassV1)
        ensures
            r == self.acquisition_class,
    {
        self.acquisition_class
    }

    pub fn presentation_receipt_id(self) -> (r: PresentationReceiptId)
        ensures
            r == self.presentation_receipt_id,
    {
        self.presentation_receipt_id
    }

    pub fn accounting(self) -> (r: PublicCaseAccountingV1)
        ensures
            r == self.accounting,
    {
        self.accounting
    }


}
/// Exact governed weighted-recall counts.
#[derive(Clone, Copy, Debug, Default, PartialEq, Eq, Structural)]
pub struct GovernedRequirementRecallV1 {
    pub requirement_count: u64,
    pub satisfied_requirement_count: u64,
    pub total_weight_micros: u64,
    pub satisfied_weight_micros: u64,
}

impl GovernedRequirementRecallV1 {
    pub fn requirement_count(self) -> (r: u64)
        ensures
            r == self.requirement_count,
    {
        self.requirement_count
    }

    pub fn satisfied_requirement_count(self) -> (r: u64)
        ensures
            r == self.satisfied_requirement_count,
    {
        self.satisfied_requirement_count
    }

    pub fn total_weight_micros(self) -> (r: u64)
        ensures
            r == self.total_weight_micros,
    {
        self.total_weight_micros
    }

    pub fn satisfied_weight_micros(self) -> (r: u64)
        ensures
            r == self.satisfied_weight_micros,
    {
        self.satisfied_weight_micros
    }

    pub fn missed_requirement_count(self) -> (r: u64)
        requires
            self.satisfied_requirement_count <= self.requirement_count,
        ensures
            r == self.requirement_count - self.satisfied_requirement_count,
    {
        self.requirement_count - self.satisfied_requirement_count
    }

    /// Exact weighted-recall numerator and denominator.
    pub fn exact_weight_ratio(self) -> (r: (u64, u64))
        ensures
            r == (self.satisfied_weight_micros, self.total_weight_micros),
    {
        (self.satisfied_weight_micros, self.total_weight_micros)
    }

    pub fn is_perfect(self) -> (r: bool)
        ensures
            r == (self.satisfied_weight_micros == self.total_weight_micros),
    {
        self.satisfied_weight_micros == self.total_weight_micros
    }

}
/// Governed evaluation output.
#[derive(Clone, Copy, Debug)]
pub struct GovernedCaseEvaluationV1 {
    pub artifact_binding: GovernedCaseArtifactBindingV1,
    pub public_result: PublicCaseEvaluationResultV1,
    pub diagnostic_recall: GovernedRequirementRecallV1,
}

impl GovernedCaseEvaluationV1 {
    pub fn artifact_binding(self) -> (r: GovernedCaseArtifactBindingV1)
        ensures
            r == self.artifact_binding,
    {
        self.artifact_binding
    }

    pub fn public_result(self) -> (r: PublicCaseEvaluationResultV1)
        ensures
            r == self.public_result,
    {
        self.public_result
    }

    pub fn diagnostic_recall(self) -> (r: GovernedRequirementRecallV1)
        ensures
            r == self.diagnostic_recall,
    {
        self.diagnostic_recall
    }


}
/// One exact method-accounting invariant checked by the evaluator.
#[derive(Clone, Copy, Debug, PartialEq, Eq, PartialOrd, Ord, Structural)]
pub enum CaseAccountingDimensionV1 {
    ReceivedEventCount,
    CandidateSet,
    CandidateEventCount,
    CandidateSourceBytes,
    SelectedSet,
    SelectedEventCount,
    SelectedSourceBytes,
    SelectedEventMetadata,
    SelectedEventOrder,
    SelectedCandidateSubset,
    RetainedRawEventCount,
    BudgetExcludedCandidateCount,
    SourceByteBudget,
    PresentationCounts,
}

impl CaseAccountingDimensionV1 {
    pub open spec fn spec_code(self) -> Seq<char> {
        match self {
            CaseAccountingDimensionV1::ReceivedEventCount => "received_event_count"@,
            CaseAccountingDimensionV1::CandidateSet => "candidate_set"@,
            CaseAccountingDimensionV1::CandidateEventCount => "candidate_event_count"@,
            CaseAccountingDimensionV1::CandidateSourceBytes => "candidate_source_bytes"@,
            CaseAccountingDimensionV1::SelectedSet => "selected_set"@,
            CaseAccountingDimensionV1::SelectedEventCount => "selected_event_count"@,
            CaseAccountingDimensionV1::SelectedSourceBytes => "selected_source_bytes"@,
            CaseAccountingDimensionV1::SelectedEventMetadata => "selected_event_metadata"@,
            CaseAccountingDimensionV1::SelectedEventOrder => "selected_event_order"@,
            CaseAccountingDimensionV1::SelectedCandidateSubset => "selected_candidate_subset"@,
            CaseAccountingDimensionV1::RetainedRawEventCount => "retained_raw_event_count"@,
            CaseAccountingDimensionV1::BudgetExcludedCandidateCount => "budget_excluded_candidate_count"@,
            CaseAccountingDimensionV1::SourceByteBudget => "source_byte_budget"@,
            CaseAccountingDimensionV1::PresentationCounts => "presentation_counts"@,
        }
    }

    pub fn code(self) -> (r: &'static str)
        ensures
            r@ == self.spec_code(),
    {
        match self {
            CaseAccountingDimensionV1::ReceivedEventCount => "received_event_count",
            CaseAccountingDimensionV1::CandidateSet => "candidate_set",
            CaseAccountingDimensionV1::CandidateEventCount => "candidate_event_count",
            CaseAccountingDimensionV1::CandidateSourceBytes => "candidate_source_bytes",
            CaseAccountingDimensionV1::SelectedSet => "selected_set",
            CaseAccountingDimensionV1::SelectedEventCount => "selected_event_count",
            CaseAccountingDimensionV1::SelectedSourceBytes => "selected_source_bytes",
            CaseAccountingDimensionV1::SelectedEventMetadata => "selected_event_metadata",
            CaseAccountingDimensionV1::SelectedEventOrder => "selected_event_order",
            CaseAccountingDimensionV1::SelectedCandidateSubset => "selected_candidate_subset",
            CaseAccountingDimensionV1::RetainedRawEventCount => "retained_raw_event_count",
            CaseAccountingDimensionV1::BudgetExcludedCandidateCount => "budget_excluded_candidate_count",
            CaseAccountingDimensionV1::SourceByteBudget => "source_byte_budget",
            CaseAccountingDimensionV1::PresentationCounts => "presentation_counts",
        }
    }
}
/// Contentless governed-evaluation failures.
#[derive(Clone, Copy, Debug, PartialEq, Eq, Structural)]
pub enum CaseEvaluationError {
    PublicCaseArtifactBindingMismatch,
    PlanDigestMismatch,
    AcquisitionClassMismatch,
    RetrievalMismatch,
    BlockIndexRetrievalMismatch,
    BlockIndexRequired,
    UnknownEvidenceEvent {
        count: usize,
    },
    UnknownEvidenceBlock {
        count: usize,
    },
    MethodAccountingMismatch {
        dimension: CaseAccountingDimensionV1,
    },
    PresentationReconciliationFailed,
    PresentationReceiptMismatch,
    AccountingValueOverflow,
    RequirementWeightOverflow,
}

impl CaseEvaluationError {
    pub open spec fn spec_code(self) -> Seq<char> {
        match self {
            CaseEvaluationError::PublicCaseArtifactBindingMismatch => "EVIDENTRAIL_BENCH_EVAL_PUBLIC_CASE_ARTIFACT_BINDING_MISMATCH"@,
            CaseEvaluationError::PlanDigestMismatch => "EVIDENTRAIL_BENCH_EVAL_PLAN_DIGEST_MISMATCH"@,
            CaseEvaluationError::AcquisitionClassMismatch => "EVIDENTRAIL_BENCH_EVAL_ACQUISITION_CLASS_MISMATCH"@,
            CaseEvaluationError::RetrievalMismatch => "EVIDENTRAIL_BENCH_EVAL_RETRIEVAL_MISMATCH"@,
            CaseEvaluationError::BlockIndexRetrievalMismatch => "EVIDENTRAIL_BENCH_EVAL_BLOCK_INDEX_RETRIEVAL_MISMATCH"@,
            CaseEvaluationError::BlockIndexRequired => "EVIDENTRAIL_BENCH_EVAL_BLOCK_INDEX_REQUIRED"@,
            CaseEvaluationError::UnknownEvidenceEvent { .. } => "EVIDENTRAIL_BENCH_EVAL_UNKNOWN_EVIDENCE_EVENT"@,
            CaseEvaluationError::UnknownEvidenceBlock { .. } => "EVIDENTRAIL_BENCH_EVAL_UNKNOWN_EVIDENCE_BLOCK"@,
            CaseEvaluationError::MethodAccountingMismatch { .. } => "EVIDENTRAIL_BENCH_EVAL_METHOD_ACCOUNTING_MISMATCH"@,
            CaseEvaluationError::PresentationReconciliationFailed => "EVIDENTRAIL_BENCH_EVAL_PRESENTATION_RECONCILIATION_FAILED"@,
            CaseEvaluationError::PresentationReceiptMismatch => "EVIDENTRAIL_BENCH_EVAL_PRESENTATION_RECEIPT_MISMATCH"@,
            CaseEvaluationError::AccountingValueOverflow => "EVIDENTRAIL_BENCH_EVAL_ACCOUNTING_VALUE_OVERFLOW"@,
            CaseEvaluationError::RequirementWeightOverflow => "EVIDENTRAIL_BENCH_EVAL_REQUIREMENT_WEIGHT_OVERFLOW"@,
        }
    }

    pub fn code(self) -> (r: &'static str)
        ensures
            r@ == self.spec_code(),
    {
        match self {
            CaseEvaluationError::PublicCaseArtifactBindingMismatch => "EVIDENTRAIL_BENCH_EVAL_PUBLIC_CASE_ARTIFACT_BINDING_MISMATCH",
            CaseEvaluationError::PlanDigestMismatch => "EVIDENTRAIL_BENCH_EVAL_PLAN_DIGEST_MISMATCH",
            CaseEvaluationError::AcquisitionClassMismatch => "EVIDENTRAIL_BENCH_EVAL_ACQUISITION_CLASS_MISMATCH",
            CaseEvaluationError::RetrievalMismatch => "EVIDENTRAIL_BENCH_EVAL_RETRIEVAL_MISMATCH",
            CaseEvaluationError::BlockIndexRetrievalMismatch => "EVIDENTRAIL_BENCH_EVAL_BLOCK_INDEX_RETRIEVAL_MISMATCH",
            CaseEvaluationError::BlockIndexRequired => "EVIDENTRAIL_BENCH_EVAL_BLOCK_INDEX_REQUIRED",
            CaseEvaluationError::UnknownEvidenceEvent { .. } => "EVIDENTRAIL_BENCH_EVAL_UNKNOWN_EVIDENCE_EVENT",
            CaseEvaluationError::UnknownEvidenceBlock { .. } => "EVIDENTRAIL_BENCH_EVAL_UNKNOWN_EVIDENCE_BLOCK",
            CaseEvaluationError::MethodAccountingMismatch { .. } => "EVIDENTRAIL_BENCH_EVAL_METHOD_ACCOUNTING_MISMATCH",
            CaseEvaluationError::PresentationReconciliationFailed => "EVIDENTRAIL_BENCH_EVAL_PRESENTATION_RECONCILIATION_FAILED",
            CaseEvaluationError::PresentationReceiptMismatch => "EVIDENTRAIL_BENCH_EVAL_PRESENTATION_RECEIPT_MISMATCH",
            CaseEvaluationError::AccountingValueOverflow => "EVIDENTRAIL_BENCH_EVAL_ACCOUNTING_VALUE_OVERFLOW",
            CaseEvaluationError::RequirementWeightOverflow => "EVIDENTRAIL_BENCH_EVAL_REQUIREMENT_WEIGHT_OVERFLOW",
        }
    }
}
/// How one persisted event was presented.
#[derive(Clone, Copy, Debug, PartialEq, Eq, Structural)]
pub enum PresentationDisposition {
    ShownVerbatim,
    PatternRepresented,
    RetainedRaw,
}

/// The presentation of one persisted event.
#[derive(Clone, Copy, Debug)]
pub struct PresentationEntry {
    pub event_id: EventId,
    pub disposition: PresentationDisposition,
}

/// How many persisted events a receipt holds, and how many of each disposition.
#[derive(Clone, Copy, Debug, PartialEq, Eq, Structural)]
pub struct PresentationCounts {
    pub persisted: usize,
    pub shown_verbatim: usize,
    pub pattern_represented: usize,
    pub retained_raw: usize,
}

/// A frozen, reconciled presentation of one retrieval's events.
#[derive(Clone, Debug)]
pub struct PresentationReceipt {
    pub id: PresentationReceiptId,
    pub retrieval_id: RetrievalId,
    pub persisted_count: usize,
    pub entries: Vec<PresentationEntry>,
    pub counts: PresentationCounts,
}

pub open spec fn spec_acquisition_class(completeness: FetchCompletenessV1) -> ExpectedAcquisitionClassV1 {
    match completeness {
        FetchCompletenessV1::Complete => ExpectedAcquisitionClassV1::Complete,
        FetchCompletenessV1::Partial => ExpectedAcquisitionClassV1::Partial,
        FetchCompletenessV1::Unknown => ExpectedAcquisitionClassV1::Unknown,
    }
}

/// The acquisition class a fetch's completeness stands for.
pub fn acquisition_class(completeness: FetchCompletenessV1) -> (r: ExpectedAcquisitionClassV1)
    ensures
        r == spec_acquisition_class(completeness),
{
    match completeness {
        FetchCompletenessV1::Complete => ExpectedAcquisitionClassV1::Complete,
        FetchCompletenessV1::Partial => ExpectedAcquisitionClassV1::Partial,
        FetchCompletenessV1::Unknown => ExpectedAcquisitionClassV1::Unknown,
    }
}

/// The joined artifacts, plan, acquisition and block index agree.
pub open spec fn spec_validate_governed_case_inputs(
    binding: GovernedCaseArtifactBindingV1,
    public_case: EvidentrailBenchCaseSpecV1,
    annotation: EvidentrailBenchAnnotationSpecV1,
    ledger: EventLedger,
    block_index: Option<&BlockIndex>,
) -> Result<GovernedCaseArtifactBindingV1, CaseEvaluationError> {
    if annotation.public_case_artifact_digest.0@ != binding.public_case_artifact_digest.0@ {
        Err(CaseEvaluationError::PublicCaseArtifactBindingMismatch)
    } else if public_case.plan_digest.0@ != ledger.plan_digest.0@ {
        Err(CaseEvaluationError::PlanDigestMismatch)
    } else if spec_acquisition_class(ledger.completeness) != public_case.expected_acquisition_class {
        Err(CaseEvaluationError::AcquisitionClassMismatch)
    } else if block_index matches Some(index) && index.retrieval_id != ledger.retrieval_id {
        Err(CaseEvaluationError::BlockIndexRetrievalMismatch)
    } else {
        Ok(binding)
    }
}

pub fn validate_governed_case_inputs_v1(
    binding: GovernedCaseArtifactBindingV1,
    public_case: &EvidentrailBenchCaseSpecV1,
    annotation: &EvidentrailBenchAnnotationSpecV1,
    ledger: &EventLedger,
    block_index: Option<&BlockIndex>,
) -> (r: Result<GovernedCaseArtifactBindingV1, CaseEvaluationError>)
    ensures
        r == spec_validate_governed_case_inputs(binding, *public_case, *annotation, *ledger, block_index),
{
    if !bytes32_eq(&annotation.public_case_artifact_digest.0, &binding.public_case_artifact_digest.0) {
        return Err(CaseEvaluationError::PublicCaseArtifactBindingMismatch);
    }
    if !bytes32_eq(&public_case.plan_digest.0, &ledger.plan_digest.0) {
        return Err(CaseEvaluationError::PlanDigestMismatch);
    }
    if acquisition_class(ledger.completeness) != public_case.expected_acquisition_class {
        return Err(CaseEvaluationError::AcquisitionClassMismatch);
    }
    if let Some(index) = block_index {
        if index.retrieval_id != ledger.retrieval_id {
            return Err(CaseEvaluationError::BlockIndexRetrievalMismatch);
        }
    }
    Ok(binding)
}

/// The disposition an event must have: shown verbatim when selected, else
/// retained raw.
pub open spec fn expected_disposition(selected: Seq<EventId>, id: EventId) -> PresentationDisposition {
    if selected.contains(id) {
        PresentationDisposition::ShownVerbatim
    } else {
        PresentationDisposition::RetainedRaw
    }
}

/// The receipt presents exactly this ledger, event by event, with the
/// selected events shown verbatim and every other event retained raw.
pub open spec fn receipt_matches(ledger: EventLedger, presentation: PresentationReceipt, selected: Seq<EventId>) -> bool {
    &&& presentation.retrieval_id == ledger.retrieval_id
    &&& presentation.persisted_count == ledger.events.len()
    &&& presentation.entries.len() == ledger.events.len()
    &&& forall|i: int|
        0 <= i < ledger.events.len() ==> (#[trigger] presentation.entries@[i]).event_id == ledger.events@[i].id
            && presentation.entries@[i].disposition == expected_disposition(selected, ledger.events@[i].id)
}

fn event_in(ids: &Vec<EventId>, id: EventId) -> (r: bool)
    ensures
        r == ids@.contains(id),
{
    let mut i: usize = 0;
    while i < ids.len()
        invariant
            i <= ids.len(),
            forall|k: int| 0 <= k < i ==> ids@[k] != id,
        decreases ids.len() - i,
    {
        if ids[i] == id {
            proof {
                assert(ids@[i as int] == id);
            }
            return true;
        }
        i = i + 1;
    }
    false
}

pub fn validate_presentation_receipt(
    ledger: &EventLedger,
    presentation: &PresentationReceipt,
    selected_event_ids: &Vec<EventId>,
) -> (r: Result<(), CaseEvaluationError>)
    ensures
        r is Ok <==> receipt_matches(*ledger, *presentation, selected_event_ids@),
        r matches Err(e) ==> e == CaseEvaluationError::PresentationReceiptMismatch,
{
    if presentation.retrieval_id != ledger.retrieval_id || presentation.persisted_count != ledger.events.len()
        || presentation.entries.len() != ledger.events.len() {
        return Err(CaseEvaluationError::PresentationReceiptMismatch);
    }
    let mut i: usize = 0;
    while i < ledger.events.len()
        invariant
            i <= ledger.events.len(),
            presentation.entries.len() == ledger.events.len(),
            forall|k: int|
                0 <= k < i ==> (#[trigger] presentation.entries@[k]).event_id == ledger.events@[k].id
                    && presentation.entries@[k].disposition == expected_disposition(
                    selected_event_ids@,
                    ledger.events@[k].id,
                ),
        decreases ledger.events.len() - i,
    {
        let event_id = ledger.events[i].id;
        let expected = if event_in(selected_event_ids, event_id) {
            PresentationDisposition::ShownVerbatim
        } else {
            PresentationDisposition::RetainedRaw
        };
        let entry = presentation.entries[i];
        if entry.event_id != event_id || entry.disposition != expected {
            return Err(CaseEvaluationError::PresentationReceiptMismatch);
        }
        i = i + 1;
    }
    Ok(())
}

/// The receipt's counts agree with the ledger and the method's accounting:
/// every event persisted, exactly the selected ones shown verbatim, none
/// represented by pattern, and the rest retained raw.
pub open spec fn presentation_accounting_ok(
    ledger: EventLedger,
    result: MethodResult,
    counts: PresentationCounts,
    selected_event_count: usize,
) -> bool {
    &&& selected_event_count <= ledger.events.len()
    &&& counts.persisted == ledger.events.len()
    &&& counts.shown_verbatim == selected_event_count
    &&& counts.pattern_represented == 0
    &&& counts.retained_raw == ledger.events.len() - selected_event_count
    &&& result.accounting.retained_raw_event_count == counts.retained_raw
}

pub fn validate_presentation_accounting(
    ledger: &EventLedger,
    method_result: &MethodResult,
    counts: PresentationCounts,
    selected_event_count: usize,
) -> (r: Result<(), CaseEvaluationError>)
    ensures
        r is Ok <==> presentation_accounting_ok(*ledger, *method_result, counts, selected_event_count),
        r matches Err(e) ==> e == (CaseEvaluationError::MethodAccountingMismatch {
            dimension: CaseAccountingDimensionV1::PresentationCounts,
        }),
{
    if selected_event_count > ledger.events.len() {
        return Err(CaseEvaluationError::MethodAccountingMismatch { dimension: CaseAccountingDimensionV1::PresentationCounts });
    }
    let retained_raw = ledger.events.len() - selected_event_count;
    if counts.persisted != ledger.events.len() || counts.shown_verbatim != selected_event_count
        || counts.pattern_represented != 0 || counts.retained_raw != retained_raw
        || method_result.accounting.retained_raw_event_count != counts.retained_raw {
        return Err(CaseEvaluationError::MethodAccountingMismatch { dimension: CaseAccountingDimensionV1::PresentationCounts });
    }
    Ok(())
}

/// The targets of the alternatives, one alternative after another.
pub open spec fn alternatives_targets(alternatives: Seq<Vec<EvidenceTargetV1>>) -> Seq<EvidenceTargetV1>
    decreases alternatives.len(),
{
    if alternatives.len() == 0 {
        Seq::empty()
    } else {
        alternatives_targets(alternatives.drop_last()) + alternatives.last()@
    }
}

/// The targets of every alternative of every requirement.
pub open spec fn requirements_targets(requirements: Seq<WeightedDiagnosticRequirementV1>) -> Seq<EvidenceTargetV1>
    decreases requirements.len(),
{
    if requirements.len() == 0 {
        Seq::empty()
    } else {
        requirements_targets(requirements.drop_last()) + alternatives_targets(requirements.last().alternatives@)
    }
}

pub open spec fn optional_targets(targets: Option<Vec<EvidenceTargetV1>>) -> Seq<EvidenceTargetV1> {
    match targets {
        Some(v) => v@,
        None => Seq::empty(),
    }
}

/// Every target an annotation references: its requirements' alternatives,
/// then the precursor, symptom, supporting, distractor and unsafe roles.
pub open spec fn annotation_targets(annotation: EvidentrailBenchAnnotationSpecV1) -> Seq<EvidenceTargetV1> {
    requirements_targets(annotation.diagnostic_requirements@) + optional_targets(annotation.precursor_targets)
        + optional_targets(annotation.symptom_targets) + optional_targets(annotation.supporting_targets)
        + optional_targets(annotation.distractor_targets) + optional_targets(annotation.unsafe_targets)
}

fn push_targets(out: &mut Vec<EvidenceTargetV1>, targets: &Vec<EvidenceTargetV1>)
    ensures
        final(out)@ == old(out)@ + targets@,
{
    let mut k: usize = 0;
    while k < targets.len()
        invariant
            k <= targets.len(),
            out@ == old(out)@ + targets@.subrange(0, k as int),
        decreases targets.len() - k,
    {
        out.push(targets[k]);
        k = k + 1;
        proof {
            assert(out@ =~= old(out)@ + targets@.subrange(0, k as int));
        }
    }
    proof {
        assert(targets@.subrange(0, k as int) =~= targets@);
    }
}

fn push_optional_targets(out: &mut Vec<EvidenceTargetV1>, targets: &Option<Vec<EvidenceTargetV1>>)
    ensures
        final(out)@ == old(out)@ + optional_targets(*targets),
{
    match targets {
        Some(v) => push_targets(out, v),
        None => {
            proof {
                assert(out@ =~= old(out)@ + Seq::<EvidenceTargetV1>::empty());
            }
        },
    }
}

/// Every target the annotation references, in annotation order.
pub fn collect_annotation_targets(annotation: &EvidentrailBenchAnnotationSpecV1) -> (r: Vec<EvidenceTargetV1>)
    ensures
        r@ == annotation_targets(*annotation),
{
    let requirements = &annotation.diagnostic_requirements;
    let mut out: Vec<EvidenceTargetV1> = Vec::new();
    let mut i: usize = 0;
    while i < requirements.len()
        invariant
            i <= requirements.len(),
            out@ == requirements_targets(requirements@.subrange(0, i as int)),
        decreases requirements.len() - i,
    {
        let ghost before = out@;
        let alternatives = &requirements[i].alternatives;
        let mut a: usize = 0;
        while a < alternatives.len()
            invariant
                a <= alternatives.len(),
                out@ == before + alternatives_targets(alternatives@.subrange(0, a as int)),
            decreases alternatives.len() - a,
        {
            push_targets(&mut out, &alternatives[a]);
            proof {
                assert(alternatives@.subrange(0, a + 1).drop_last() =~= alternatives@.subrange(0, a as int));
            }
            a = a + 1;
            proof {
                assert(out@ =~= before + alternatives_targets(alternatives@.subrange(0, a as int)));
            }
        }
        proof {
            assert(alternatives@.subrange(0, a as int) =~= alternatives@);
            assert(requirements@.subrange(0, i + 1).drop_last() =~= requirements@.subrange(0, i as int));
        }
        i = i + 1;
    }
    proof {
        assert(requirements@.subrange(0, i as int) =~= requirements@);
    }
    push_optional_targets(&mut out, &annotation.precursor_targets);
    push_optional_targets(&mut out, &annotation.symptom_targets);
    push_optional_targets(&mut out, &annotation.supporting_targets);
    push_optional_targets(&mut out, &annotation.distractor_targets);
    push_optional_targets(&mut out, &annotation.unsafe_targets);
    proof {
        assert(out@ =~= annotation_targets(*annotation));
    }
    out
}

/// A duplicate-free copy of the targets, keeping first occurrences.
fn dedup_targets(targets: &Vec<EvidenceTargetV1>) -> (r: Vec<EvidenceTargetV1>)
    ensures
        r@.no_duplicates(),
        r@.to_set() == targets@.to_set(),
{
    let mut out: Vec<EvidenceTargetV1> = Vec::new();
    let mut i: usize = 0;
    while i < targets.len()
        invariant
            i <= targets.len(),
            out@.no_duplicates(),
            out@.to_set() == targets@.take(i as int).to_set(),
        decreases targets.len() - i,
    {
        let t = targets[i];
        let mut found = false;
        let mut j: usize = 0;
        while j < out.len()
            invariant
                j <= out.len(),
                found == (exists|k: int| 0 <= k < j && out@[k] == t),
            decreases out.len() - j,
        {
            if out[j] == t {
                found = true;
            }
            j = j + 1;
        }
        proof {
            broadcast use vstd::set::group_set_axioms, vstd::seq_lib::group_seq_properties;
            assert(targets@.take(i + 1) == targets@.take(i as int).push(t));
            assert(targets@.take(i + 1).to_set() == targets@.take(i as int).to_set().insert(t));
        }
        if !found {
            let ghost before = out@;
            out.push(t);
            proof {
                broadcast use vstd::set::group_set_axioms, vstd::seq_lib::group_seq_properties;
                assert(out@ == before.push(t));
                assert(out@.to_set() == before.to_set().insert(t));
            }
        } else {
            proof {
                broadcast use vstd::set::group_set_axioms, vstd::seq_lib::group_seq_properties;
                let k = choose|k: int| 0 <= k < out.len() && out@[k] == t;
                assert(out@.to_set().contains(t));
                assert(out@.to_set() =~= out@.to_set().insert(t));
            }
        }
        i = i + 1;
    }
    proof {
        assert(targets@.take(targets@.len() as int) == targets@);
    }
    out
}

pub open spec fn unknown_event_target(ledger: EventLedger, t: EvidenceTargetV1) -> bool {
    t matches EvidenceTargetV1::Event(e) && !ledger.has_event(e)
}

pub open spec fn unknown_block_target(index: BlockIndex, t: EvidenceTargetV1) -> bool {
    t matches EvidenceTargetV1::Block(b) && !index.has_block(b)
}

/// Every annotation target resolves: a block target needs a block index,
/// and the distinct unknown events, then the distinct unknown blocks, are
/// counted in the error.
pub open spec fn spec_validate_annotation_targets(
    ledger: EventLedger,
    block_index: Option<&BlockIndex>,
    targets: Seq<EvidenceTargetV1>,
) -> Result<(), CaseEvaluationError> {
    let set = targets.to_set();
    let unknown_events = set.filter(|t: EvidenceTargetV1| unknown_event_target(ledger, t)).len();
    if (exists|i: int| 0 <= i < targets.len() && #[trigger] targets[i] is Block) && block_index is None {
        Err(CaseEvaluationError::BlockIndexRequired)
    } else if unknown_events != 0 {
        Err(CaseEvaluationError::UnknownEvidenceEvent { count: unknown_events as usize })
    } else {
        match block_index {
            Some(index) => {
                let unknown_blocks = set.filter(|t: EvidenceTargetV1| unknown_block_target(*index, t)).len();
                if unknown_blocks != 0 {
                    Err(CaseEvaluationError::UnknownEvidenceBlock { count: unknown_blocks as usize })
                } else {
                    Ok(())
                }
            },
            None => Ok(()),
        }
    }
}

pub fn validate_annotation_targets(
    ledger: &EventLedger,
    block_index: Option<&BlockIndex>,
    targets: &Vec<EvidenceTargetV1>,
) -> (r: Result<(), CaseEvaluationError>)
    ensures
        r == spec_validate_annotation_targets(*ledger, block_index, targets@),
{
    let mut any_block = false;
    let mut i: usize = 0;
    while i < targets.len()
        invariant
            i <= targets.len(),
            any_block == (exists|k: int| 0 <= k < i && #[trigger] targets@[k] is Block),
        decreases targets.len() - i,
    {
        if let EvidenceTargetV1::Block(_) = targets[i] {
            any_block = true;
        }
        i = i + 1;
    }
    if any_block && block_index.is_none() {
        return Err(CaseEvaluationError::BlockIndexRequired);
    }
    let distinct = dedup_targets(targets);
    let ghost event_pred = |t: EvidenceTargetV1| unknown_event_target(*ledger, t);
    let mut flags: Vec<bool> = Vec::new();
    let mut k: usize = 0;
    while k < distinct.len()
        invariant
            k <= distinct.len(),
            flags.len() == k,
            forall|q: int| 0 <= q < k ==> flags@[q] == unknown_event_target(*ledger, distinct@[q]),
        decreases distinct.len() - k,
    {
        let unknown = match distinct[k] {
            EvidenceTargetV1::Event(e) => !ledger.contains(e),
            EvidenceTargetV1::Block(_) => false,
        };
        flags.push(unknown);
        k = k + 1;
    }
    let unknown_events = count_flags(&flags);
    proof {
        lemma_flags_filter(distinct@, flags@, event_pred);
        lemma_filter_count_set(distinct@, event_pred);
    }
    if unknown_events != 0 {
        return Err(CaseEvaluationError::UnknownEvidenceEvent { count: unknown_events });
    }
    match block_index {
        Some(index) => {
            let ghost block_pred = |t: EvidenceTargetV1| unknown_block_target(*index, t);
            let mut bflags: Vec<bool> = Vec::new();
            let mut q: usize = 0;
            while q < distinct.len()
                invariant
                    q <= distinct.len(),
                    bflags.len() == q,
                    forall|w: int| 0 <= w < q ==> bflags@[w] == unknown_block_target(*index, distinct@[w]),
                decreases distinct.len() - q,
            {
                let unknown = match distinct[q] {
                    EvidenceTargetV1::Event(_) => false,
                    EvidenceTargetV1::Block(b) => !index.contains_block(b),
                };
                bflags.push(unknown);
                q = q + 1;
            }
            let unknown_blocks = count_flags(&bflags);
            proof {
                lemma_flags_filter(distinct@, bflags@, block_pred);
                lemma_filter_count_set(distinct@, block_pred);
            }
            if unknown_blocks != 0 {
                return Err(CaseEvaluationError::UnknownEvidenceBlock { count: unknown_blocks });
            }
            Ok(())
        },
        None => Ok(()),
    }
}

/// Every member event of the block is selected.
pub open spec fn block_fully_selected(block: EvidenceBlock, selected: Seq<EventId>) -> bool {
    forall|k: int| 0 <= k < block.member_ids.len() ==> selected.contains(#[trigger] block.member_ids@[k])
}

/// The blocks, in index order, whose members are all selected, as targets.
pub open spec fn selected_blocks(blocks: Seq<EvidenceBlock>, selected: Seq<EventId>) -> Seq<EvidenceTargetV1>
    decreases blocks.len(),
{
    if blocks.len() == 0 {
        Seq::empty()
    } else if block_fully_selected(blocks.last(), selected) {
        selected_blocks(blocks.drop_last(), selected).push(EvidenceTargetV1::Block(blocks.last().id))
    } else {
        selected_blocks(blocks.drop_last(), selected)
    }
}

/// The selected targets: every selected event, then every block whose
/// members are all selected.
pub open spec fn spec_selected_targets(block_index: Option<&BlockIndex>, selected: Seq<EventId>) -> Seq<EvidenceTargetV1> {
    selected.map_values(|e: EventId| EvidenceTargetV1::Event(e)) + match block_index {
        Some(index) => selected_blocks(index.blocks@, selected),
        None => Seq::empty(),
    }
}

/// A block counts as selected only when every one of its member events is
/// selected, so partial retention of a block never satisfies a block target;
/// and every wholly selected block of the index counts.
pub proof fn lemma_selected_block_targets(block_index: Option<&BlockIndex>, selected: Seq<EventId>, b: crate::ledger::BlockId)
    ensures
        spec_selected_targets(block_index, selected).contains(EvidenceTargetV1::Block(b)) <==> (block_index matches Some(
            index,
        ) && exists|i: int|
            0 <= i < index.blocks.len() && (#[trigger] index.blocks@[i]).id == b && block_fully_selected(
                index.blocks@[i],
                selected,
            )),
{
    let events = selected.map_values(|e: EventId| EvidenceTargetV1::Event(e));
    assert(!events.contains(EvidenceTargetV1::Block(b)));
    match block_index {
        Some(index) => {
            lemma_selected_blocks_contains(index.blocks@, selected, b);
            let blocks = selected_blocks(index.blocks@, selected);
            let all = spec_selected_targets(block_index, selected);
            assert(all == events + blocks);
            let x = EvidenceTargetV1::Block(b);
            if all.contains(x) {
                let q = choose|q: int| 0 <= q < all.len() && all[q] == x;
                if q < events.len() {
                    assert(events[q] == x);
                } else {
                    assert(blocks[q - events.len()] == x);
                }
            }
            if blocks.contains(x) {
                let q = choose|q: int| 0 <= q < blocks.len() && blocks[q] == x;
                assert(all[q + events.len()] == x);
            }
        },
        None => {
            assert(spec_selected_targets(block_index, selected) =~= events);
        },
    }
}

proof fn lemma_selected_blocks_contains(blocks: Seq<EvidenceBlock>, selected: Seq<EventId>, b: crate::ledger::BlockId)
    ensures
        selected_blocks(blocks, selected).contains(EvidenceTargetV1::Block(b)) <==> exists|i: int|
            0 <= i < blocks.len() && (#[trigger] blocks[i]).id == b && block_fully_selected(blocks[i], selected),
    decreases blocks.len(),
{
    if blocks.len() > 0 {
        let rest = blocks.drop_last();
        lemma_selected_blocks_contains(rest, selected, b);
        if exists|i: int| 0 <= i < rest.len() && (#[trigger] rest[i]).id == b && block_fully_selected(rest[i], selected) {
            let i = choose|i: int| 0 <= i < rest.len() && (#[trigger] rest[i]).id == b && block_fully_selected(rest[i], selected);
            assert(blocks[i] == rest[i]);
        }
        if exists|i: int| 0 <= i < blocks.len() && (#[trigger] blocks[i]).id == b && block_fully_selected(blocks[i], selected) {
            let i = choose|i: int| 0 <= i < blocks.len() && (#[trigger] blocks[i]).id == b && block_fully_selected(blocks[i], selected);
            if i < blocks.len() - 1 {
                assert(rest[i] == blocks[i]);
            }
        }
        if block_fully_selected(blocks.last(), selected) {
            let s = selected_blocks(rest, selected);
            if s.push(EvidenceTargetV1::Block(blocks.last().id)).contains(EvidenceTargetV1::Block(b)) {
                let q = choose|q: int| 0 <= q < s.len() + 1 && s.push(EvidenceTargetV1::Block(blocks.last().id))[q] == EvidenceTargetV1::Block(b);
                if q < s.len() {
                    assert(s[q] == EvidenceTargetV1::Block(b));
                }
            }
            if s.contains(EvidenceTargetV1::Block(b)) {
                let q = choose|q: int| 0 <= q < s.len() && s[q] == EvidenceTargetV1::Block(b);
                assert(s.push(EvidenceTargetV1::Block(blocks.last().id))[q] == EvidenceTargetV1::Block(b));
            }
            if blocks.last().id == b {
                assert(s.push(EvidenceTargetV1::Block(blocks.last().id))[s.len() as int] == EvidenceTargetV1::Block(b));
            }
        }
    }
}

/// The selected targets of a selection under an optional block index.
pub fn selected_targets_v1(block_index: Option<&BlockIndex>, selected_event_ids: &Vec<EventId>) -> (r: Vec<
    EvidenceTargetV1,
>)
    ensures
        r@ == spec_selected_targets(block_index, selected_event_ids@),
{
    let mut out: Vec<EvidenceTargetV1> = Vec::new();
    let mut i: usize = 0;
    while i < selected_event_ids.len()
        invariant
            i <= selected_event_ids.len(),
            out@ == selected_event_ids@.subrange(0, i as int).map_values(|e: EventId| EvidenceTargetV1::Event(e)),
        decreases selected_event_ids.len() - i,
    {
        out.push(EvidenceTargetV1::Event(selected_event_ids[i]));
        i = i + 1;
        proof {
            assert(out@ =~= selected_event_ids@.subrange(0, i as int).map_values(
                |e: EventId| EvidenceTargetV1::Event(e),
            ));
        }
    }
    proof {
        assert(selected_event_ids@.subrange(0, i as int) =~= selected_event_ids@);
    }
    let ghost events = out@;
    match block_index {
        Some(index) => {
            let mut b: usize = 0;
            while b < index.blocks.len()
                invariant
                    b <= index.blocks.len(),
                    out@ == events + selected_blocks(index.blocks@.subrange(0, b as int), selected_event_ids@),
                decreases index.blocks.len() - b,
            {
                let block = &index.blocks[b];
                let mut all = true;
                let mut k: usize = 0;
                while k < block.member_ids.len()
                    invariant
                        k <= block.member_ids.len(),
                        all == (forall|q: int|
                            0 <= q < k ==> selected_event_ids@.contains(#[trigger] block.member_ids@[q])),
                    decreases block.member_ids.len() - k,
                {
                    if !event_in(selected_event_ids, block.member_ids[k]) {
                        all = false;
                    }
                    k = k + 1;
                }
                proof {
                    assert(index.blocks@.subrange(0, b + 1).drop_last() =~= index.blocks@.subrange(0, b as int));
                }
                if all {
                    out.push(EvidenceTargetV1::Block(block.id));
                }
                b = b + 1;
                proof {
                    assert(out@ =~= events + selected_blocks(index.blocks@.subrange(0, b as int), selected_event_ids@));
                }
            }
            proof {
                assert(index.blocks@.subrange(0, b as int) =~= index.blocks@);
            }
        },
        None => {
            proof {
                assert(out@ =~= events + Seq::<EvidenceTargetV1>::empty());
            }
        },
    }
    out
}

/// Weighted recall of the first `k` requirements: total weight, satisfied
/// weight and satisfied count, failing where a sum leaves its type.
pub open spec fn requirements_fold(
    requirements: Seq<WeightedDiagnosticRequirementV1>,
    selected: Seq<EvidenceTargetV1>,
    k: int,
) -> Result<(u64, u64, nat), CaseEvaluationError>
    decreases k,
{
    if k <= 0 {
        Ok((0u64, 0u64, 0nat))
    } else {
        match requirements_fold(requirements, selected, k - 1) {
            Err(e) => Err(e),
            Ok((total, satisfied, count)) => {
                let w = requirements[k - 1].weight_micros;
                if total + w > u64::MAX {
                    Err(CaseEvaluationError::RequirementWeightOverflow)
                } else if requirements[k - 1].satisfied_by(selected) {
                    if count + 1 > usize::MAX {
                        Err(CaseEvaluationError::AccountingValueOverflow)
                    } else if satisfied + w > u64::MAX {
                        Err(CaseEvaluationError::RequirementWeightOverflow)
                    } else {
                        Ok(((total + w) as u64, (satisfied + w) as u64, count + 1))
                    }
                } else {
                    Ok(((total + w) as u64, satisfied, count))
                }
            },
        }
    }
}

pub open spec fn spec_evaluate_requirements(
    annotation: EvidentrailBenchAnnotationSpecV1,
    selected: Seq<EvidenceTargetV1>,
) -> Result<GovernedRequirementRecallV1, CaseEvaluationError> {
    let requirements = annotation.diagnostic_requirements@;
    match requirements_fold(requirements, selected, requirements.len() as int) {
        Err(e) => Err(e),
        Ok((total, satisfied, count)) => Ok(
            GovernedRequirementRecallV1 {
                requirement_count: requirements.len() as u64,
                satisfied_requirement_count: count as u64,
                total_weight_micros: total,
                satisfied_weight_micros: satisfied,
            },
        ),
    }
}

proof fn lemma_fold_count_bound(
    requirements: Seq<WeightedDiagnosticRequirementV1>,
    selected: Seq<EvidenceTargetV1>,
    k: int,
)
    requires
        0 <= k,
    ensures
        requirements_fold(requirements, selected, k) matches Ok((t, s, c)) ==> c <= k && s <= t,
    decreases k,
{
    if k > 0 {
        lemma_fold_count_bound(requirements, selected, k - 1);
    }
}

/// Weighted recall of the annotation's requirements against the selected
/// targets, with checked sums.
pub fn evaluate_requirements_v1(
    annotation: &EvidentrailBenchAnnotationSpecV1,
    selected_targets: &Vec<EvidenceTargetV1>,
) -> (r: Result<GovernedRequirementRecallV1, CaseEvaluationError>)
    ensures
        r == spec_evaluate_requirements(*annotation, selected_targets@),
{
    let requirements = &annotation.diagnostic_requirements;
    let mut total: u64 = 0;
    let mut satisfied: u64 = 0;
    let mut count: usize = 0;
    let mut i: usize = 0;
    while i < requirements.len()
        invariant
            i <= requirements.len(),
            requirements@ == annotation.diagnostic_requirements@,
            requirements_fold(requirements@, selected_targets@, i as int) == Ok::<
                (u64, u64, nat),
                CaseEvaluationError,
            >((total, satisfied, count as nat)),
        decreases requirements.len() - i,
    {
        let w = requirements[i].weight_micros;
        total = match total.checked_add(w) {
            Some(t) => t,
            None => {
                proof {
                    assert(requirements_fold(requirements@, selected_targets@, i + 1) == Err::<
                        (u64, u64, nat),
                        CaseEvaluationError,
                    >(CaseEvaluationError::RequirementWeightOverflow));
                    lemma_fold_err_stays(requirements@, selected_targets@, i + 1, requirements.len() as int);
                }
                return Err(CaseEvaluationError::RequirementWeightOverflow);
            },
        };
        if requirements[i].is_satisfied_by(selected_targets) {
            count = match count.checked_add(1) {
                Some(c) => c,
                None => {
                    proof {
                        assert(requirements_fold(requirements@, selected_targets@, i + 1) == Err::<
                            (u64, u64, nat),
                            CaseEvaluationError,
                        >(CaseEvaluationError::AccountingValueOverflow));
                        lemma_fold_err_stays(requirements@, selected_targets@, i + 1, requirements.len() as int);
                    }
                    return Err(CaseEvaluationError::AccountingValueOverflow);
                },
            };
            satisfied = match satisfied.checked_add(w) {
                Some(s) => s,
                None => {
                    proof {
                        assert(requirements_fold(requirements@, selected_targets@, i + 1) == Err::<
                            (u64, u64, nat),
                            CaseEvaluationError,
                        >(CaseEvaluationError::RequirementWeightOverflow));
                        lemma_fold_err_stays(requirements@, selected_targets@, i + 1, requirements.len() as int);
                    }
                    return Err(CaseEvaluationError::RequirementWeightOverflow);
                },
            };
        }
        i = i + 1;
    }
    Ok(
        GovernedRequirementRecallV1 {
            requirement_count: requirements.len() as u64,
            satisfied_requirement_count: count as u64,
            total_weight_micros: total,
            satisfied_weight_micros: satisfied,
        },
    )
}

proof fn lemma_fold_err_stays(
    requirements: Seq<WeightedDiagnosticRequirementV1>,
    selected: Seq<EvidenceTargetV1>,
    k: int,
    n: int,
)
    requires
        0 < k <= n,
        requirements_fold(requirements, selected, k) is Err,
    ensures
        requirements_fold(requirements, selected, n) == requirements_fold(requirements, selected, k),
    decreases n - k,
{
    if k < n {
        lemma_fold_err_stays(requirements, selected, k, n - 1);
    }
}

/// The governed evaluation of one case with an already frozen presentation
/// receipt: the joined artifacts, the method result, the annotation targets,
/// the weighted recall of the requirements against the selected targets,
/// and the receipt, each checked in turn.
pub open spec fn spec_evaluate_governed_case(
    binding: GovernedCaseArtifactBindingV1,
    public_case: EvidentrailBenchCaseSpecV1,
    annotation: EvidentrailBenchAnnotationSpecV1,
    ledger: EventLedger,
    method_result: MethodResult,
    presentation: PresentationReceipt,
    block_index: Option<&BlockIndex>,
) -> Result<GovernedCaseEvaluationV1, CaseEvaluationError> {
    match spec_validate_governed_case_inputs(binding, public_case, annotation, ledger, block_index) {
        Err(e) => Err(e),
        Ok(binding) => match crate::method_validation::spec_validate_method_result(ledger, method_result) {
            Err(e) => Err(e),
            Ok((candidate_count, candidate_bytes, ids, selected_bytes)) => match spec_validate_annotation_targets(
                ledger,
                block_index,
                annotation_targets(annotation),
            ) {
                Err(e) => Err(e),
                Ok(_) => match spec_evaluate_requirements(annotation, spec_selected_targets(block_index, ids)) {
                    Err(e) => Err(e),
                    Ok(recall) => if !receipt_matches(ledger, presentation, ids) {
                        Err(CaseEvaluationError::PresentationReceiptMismatch)
                    } else if !presentation_accounting_ok(
                        ledger,
                        method_result,
                        presentation.counts,
                        ids.len() as usize,
                    ) {
                        Err(
                            CaseEvaluationError::MethodAccountingMismatch {
                                dimension: CaseAccountingDimensionV1::PresentationCounts,
                            },
                        )
                    } else {
                        Ok(
                            GovernedCaseEvaluationV1 {
                                artifact_binding: binding,
                                public_result: PublicCaseEvaluationResultV1 {
                                    public_case_artifact_digest: binding.public_case_artifact_digest,
                                    method: method_result.method,
                                    retrieval_id: ledger.retrieval_id,
                                    acquisition_class: spec_acquisition_class(ledger.completeness),
                                    presentation_receipt_id: presentation.id,
                                    accounting: PublicCaseAccountingV1 {
                                        received_event_count: ledger.events.len() as u64,
                                        candidate_event_count: candidate_count as u64,
                                        candidate_source_bytes: candidate_bytes as u64,
                                        selected_event_count: ids.len() as u64,
                                        selected_source_bytes: selected_bytes as u64,
                                        retained_raw_event_count: (ledger.events.len() - ids.len()) as u64,
                                        budget_excluded_candidate_count: method_result.accounting.budget_excluded_candidate_count as u64,
                                        source_byte_budget: method_result.accounting.budget.0 as u64,
                                        shown_verbatim_event_count: presentation.counts.shown_verbatim as u64,
                                        pattern_represented_event_count: presentation.counts.pattern_represented as u64,
                                        presentation_retained_raw_event_count: presentation.counts.retained_raw as u64,
                                    },
                                },
                                diagnostic_recall: recall,
                            },
                        )
                    },
                },
            },
        },
    }
}

/// A successful governed case evaluation's public accounting keeps the
/// accounting relations: every received event is selected or retained raw,
/// every candidate is selected or budget-excluded, candidates are received
/// events, selected bytes are within candidate bytes and the budget, and raw
/// retention and verbatim display agree with the presentation.
pub proof fn lemma_governed_case_accounting_consistent(
    binding: GovernedCaseArtifactBindingV1,
    public_case: EvidentrailBenchCaseSpecV1,
    annotation: EvidentrailBenchAnnotationSpecV1,
    ledger: EventLedger,
    method_result: MethodResult,
    presentation: PresentationReceipt,
    block_index: Option<&BlockIndex>,
)
    ensures
        spec_evaluate_governed_case(binding, public_case, annotation, ledger, method_result, presentation, block_index)
            matches Ok(e) ==> case_accounting_consistent(e.public_result.accounting),
{
    crate::method_validation::lemma_validated_bounds(ledger, method_result);
}

/// Evaluate one public case, its governed annotation, the sealed ledger and
/// the deterministic method result against an already frozen presentation
/// receipt. A block target counts as selected only when all of its member
/// events are, and the receipt must match the result event by event.
pub fn evaluate_governed_case_with_presentation_v1(
    binding: GovernedCaseArtifactBindingV1,
    public_case: &EvidentrailBenchCaseSpecV1,
    annotation: &EvidentrailBenchAnnotationSpecV1,
    ledger: &EventLedger,
    method_result: &MethodResult,
    presentation: &PresentationReceipt,
    block_index: Option<&BlockIndex>,
) -> (r: Result<GovernedCaseEvaluationV1, CaseEvaluationError>)
    ensures
        r == spec_evaluate_governed_case(
            binding,
            *public_case,
            *annotation,
            *ledger,
            *method_result,
            *presentation,
            block_index,
        ),
        r matches Ok(e) ==> case_accounting_consistent(e.public_result.accounting),
{
    proof {
        lemma_governed_case_accounting_consistent(
            binding,
            *public_case,
            *annotation,
            *ledger,
            *method_result,
            *presentation,
            block_index,
        );
    }
    let binding = match validate_governed_case_inputs_v1(binding, public_case, annotation, ledger, block_index) {
        Ok(b) => b,
        Err(e) => {
            return Err(e);
        },
    };
    let class = acquisition_class(ledger.completeness);
    let validated = match crate::method_validation::validate_method_result(ledger, method_result) {
        Ok(v) => v,
        Err(e) => {
            return Err(e);
        },
    };
    let targets = collect_annotation_targets(annotation);
    if let Err(e) = validate_annotation_targets(ledger, block_index, &targets) {
        return Err(e);
    }
    let selected_targets = selected_targets_v1(block_index, &validated.selected_event_ids);
    let recall = match evaluate_requirements_v1(annotation, &selected_targets) {
        Ok(r) => r,
        Err(e) => {
            return Err(e);
        },
    };
    if let Err(e) = validate_presentation_receipt(ledger, presentation, &validated.selected_event_ids) {
        return Err(e);
    }
    if let Err(e) = validate_presentation_accounting(
        ledger,
        method_result,
        presentation.counts,
        validated.selected_event_ids.len(),
    ) {
        return Err(e);
    }
    let accounting = PublicCaseAccountingV1 {
        received_event_count: ledger.events.len() as u64,
        candidate_event_count: validated.candidate_event_count as u64,
        candidate_source_bytes: validated.candidate_source_bytes as u64,
        selected_event_count: validated.selected_event_ids.len() as u64,
        selected_source_bytes: validated.selected_source_bytes as u64,
        retained_raw_event_count: (ledger.events.len() - validated.selected_event_ids.len()) as u64,
        budget_excluded_candidate_count: method_result.accounting.budget_excluded_candidate_count as u64,
        source_byte_budget: method_result.accounting.budget.0 as u64,
        shown_verbatim_event_count: presentation.counts.shown_verbatim as u64,
        pattern_represented_event_count: presentation.counts.pattern_represented as u64,
        presentation_retained_raw_event_count: presentation.counts.retained_raw as u64,
    };
    Ok(
        GovernedCaseEvaluationV1 {
            artifact_binding: binding,
            public_result: PublicCaseEvaluationResultV1 {
                public_case_artifact_digest: binding.public_case_artifact_digest,
                method: method_result.method,
                retrieval_id: ledger.retrieval_id,
                acquisition_class: class,
                presentation_receipt_id: presentation.id,
                accounting,
            },
            diagnostic_recall: recall,
        },
    )
}

} // verus!
