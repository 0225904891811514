use evidentrail_bench::aggregator::{checked_add, RunAggregateDimensionV1, RunAggregationError};
use evidentrail_bench::baselines::query_terms;
use evidentrail_bench::lexical::contains_ascii_case_insensitive;

#[test]
fn every_integer_aggregate_uses_checked_addition() {
    let dimensions = [
        RunAggregateDimensionV1::CaseCount,
        RunAggregateDimensionV1::CompleteCaseCount,
        RunAggregateDimensionV1::PartialCaseCount,
        RunAggregateDimensionV1::UnknownCaseCount,
        RunAggregateDimensionV1::ReceivedEventCount,
        RunAggregateDimensionV1::CandidateEventCount,
        RunAggregateDimensionV1::CandidateSourceBytes,
        RunAggregateDimensionV1::SelectedEventCount,
        RunAggregateDimensionV1::SelectedSourceBytes,
        RunAggregateDimensionV1::RetainedRawEventCount,
        RunAggregateDimensionV1::BudgetExcludedCandidateCount,
        RunAggregateDimensionV1::SourceByteBudget,
        RunAggregateDimensionV1::ShownVerbatimEventCount,
        RunAggregateDimensionV1::PatternRepresentedEventCount,
        RunAggregateDimensionV1::PresentationRetainedRawEventCount,
        RunAggregateDimensionV1::RequirementCount,
        RunAggregateDimensionV1::SatisfiedRequirementCount,
        RunAggregateDimensionV1::TotalWeightMicros,
        RunAggregateDimensionV1::SatisfiedWeightMicros,
    ];

    for dimension in dimensions {
        let mut total = u64::MAX;
        assert_eq!(
            checked_add(&mut total, 1, dimension),
            Err(RunAggregationError::AggregateOverflow { dimension })
        );
        assert_eq!(total, u64::MAX);
    }
}

#[test]
fn literal_byte_grep_is_ascii_case_insensitive_without_decoding() {
    assert!(contains_ascii_case_insensitive(
        b"\xffDATABASE Timeout\x00",
        b"database timeout"
    ));
    assert!(!contains_ascii_case_insensitive(
        b"database unavailable",
        b"database timeout"
    ));
    assert!(!contains_ascii_case_insensitive(b"anything", b""));
}

#[test]
fn natural_question_terms_drop_only_fixed_noise_and_preserve_identifiers() {
    let terms = query_terms(b"What caused DB req-7 timeout around the deployment?");
    assert_eq!(
        terms
            .iter()
            .map(|term| term.normalized.as_slice())
            .collect::<Vec<_>>(),
        vec![b"db".as_slice(), b"req-7", b"timeout", b"deployment"]
    );
    assert!(terms[0].identifier_like);
    assert!(terms[1].identifier_like);
}
