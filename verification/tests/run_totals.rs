use evidentrail_bench::aggregator::{CheckedRunTotals, RunAggregateDimensionV1, RunAggregationError};
use evidentrail_bench::evaluator::PublicCaseAccountingV1;

fn case(v: u64) -> PublicCaseAccountingV1 {
    PublicCaseAccountingV1 {
        received_event_count: v,
        candidate_event_count: v,
        candidate_source_bytes: v,
        selected_event_count: v,
        selected_source_bytes: v,
        retained_raw_event_count: v,
        budget_excluded_candidate_count: v,
        source_byte_budget: v,
        shown_verbatim_event_count: v,
        pattern_represented_event_count: v,
        presentation_retained_raw_event_count: v,
    }
}

#[test]
fn public_accounting_overflow_keeps_earlier_additions_only() {
    let mut totals = CheckedRunTotals::zero();
    totals.public_accounting.selected_event_count = u64::MAX;
    assert_eq!(
        totals.add_public_accounting(case(2)),
        Err(RunAggregationError::AggregateOverflow { dimension: RunAggregateDimensionV1::SelectedEventCount })
    );
    let a = totals.public_accounting;
    assert_eq!(a.received_event_count, 2);
    assert_eq!(a.candidate_event_count, 2);
    assert_eq!(a.candidate_source_bytes, 2);
    assert_eq!(a.selected_event_count, u64::MAX);
    assert_eq!(a.selected_source_bytes, 0);
    assert_eq!(a.presentation_retained_raw_event_count, 0);
    assert_eq!(totals.case_count, 0);
}

#[test]
fn public_accounting_adds_every_dimension() {
    let mut totals = CheckedRunTotals::zero();
    assert_eq!(totals.add_public_accounting(case(3)), Ok(()));
    assert_eq!(totals.add_public_accounting(case(4)), Ok(()));
    let a = totals.public_accounting;
    assert_eq!(a.received_event_count, 7);
    assert_eq!(a.shown_verbatim_event_count, 7);
    assert_eq!(a.presentation_retained_raw_event_count, 7);
}
