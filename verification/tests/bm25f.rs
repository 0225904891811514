use evidentrail_bench::bm25f::{
    rank_documents, tokenize, Bm25fConfigV1, Bm25fErrorV1, Bm25fWholeEventV1, BM25F_MAX_EVENT_BYTES_V1,
    BM25F_MAX_QUERY_BYTES_V1,
};
use evidentrail_bench::ledger::{EventId, EventLedger, FetchCompletenessV1, LedgerEvent, PlanDigest, RetrievalId};
use evidentrail_bench::method::{ByteBudget, MethodError, SelectionReason};
use sha2::Digest;

fn ledger(events: &[(u64, u64, &[u8])]) -> EventLedger {
    EventLedger {
        retrieval_id: RetrievalId(9),
        plan_digest: PlanDigest([1; 32]),
        completeness: FetchCompletenessV1::Complete,
        events: events
            .iter()
            .map(|(id, ordinal, raw)| LedgerEvent {
                id: EventId(*id),
                ordinal: *ordinal,
                component: b"api".to_vec(),
                raw: raw.to_vec(),
            })
            .collect(),
    }
}

fn incident_ledger() -> EventLedger {
    ledger(&[
        (1, 0, b"DB timeout req-7 failed"),
        (2, 1, b"db connection ok"),
        (3, 2, b"unrelated noise"),
    ])
}

#[test]
fn tokenizer_lowercases_ascii_and_splits_on_every_other_byte() {
    let tokens = tokenize(b"Hello, WORLD_1 caf\xc3\xa9 a.b-c", 100, 10, true).unwrap();
    assert_eq!(tokens, vec![b"hello".to_vec(), b"world_1".to_vec(), b"caf".to_vec(), b"a.b-c".to_vec()]);
}

#[test]
fn tokenizer_drops_overlong_tokens_and_keeps_the_bound_length() {
    let mut input = vec![b'x'; 65];
    input.extend_from_slice(b" ok ");
    input.extend(std::iter::repeat(b'y').take(64));
    let tokens = tokenize(&input, 1000, 10, false).unwrap();
    assert_eq!(tokens, vec![b"ok".to_vec(), vec![b'y'; 64]]);
}

#[test]
fn tokenizer_bounds_bytes_before_tokens() {
    assert_eq!(tokenize(b"a b c", 4, 1, true), Err(Bm25fErrorV1::QueryByteBoundExceeded));
    assert_eq!(tokenize(b"a b c", 4, 1, false), Err(Bm25fErrorV1::EventByteBoundExceeded));
    assert_eq!(tokenize(b"a b c", 5, 2, true), Err(Bm25fErrorV1::QueryTokenBoundExceeded));
    assert_eq!(tokenize(b"a b c", 5, 2, false), Err(Bm25fErrorV1::EventTokenBoundExceeded));
    assert_eq!(tokenize(b"a b c", 5, 3, false).unwrap().len(), 3);
}

#[test]
fn ranking_scores_positive_events_by_score_then_ordinal() {
    let ranked = rank_documents(&incident_ledger(), b"db timeout").unwrap();
    assert_eq!(ranked.len(), 2);
    assert_eq!(ranked[0].event_id(), EventId(1));
    assert_eq!(ranked[0].score_scaled(), 2_933_333);
    assert_eq!(ranked[0].matched_unique_query_terms(), 2);
    assert_eq!(ranked[1].event_id(), EventId(2));
    assert_eq!(ranked[1].score_scaled(), 1_333_333);
    assert_eq!(ranked[1].matched_unique_query_terms(), 1);
}

#[test]
fn identifier_field_and_frequency_raise_the_score() {
    let events = ledger(&[(10, 0, b"req-7 req-7 retry"), (11, 1, b"req-7"), (12, 2, b"other")]);
    let ranked = rank_documents(&events, b"REQ-7").unwrap();
    assert_eq!(ranked.len(), 2);
    assert_eq!((ranked[0].event_id(), ranked[0].score_scaled()), (EventId(10), 2_310_323));
    assert_eq!((ranked[1].event_id(), ranked[1].score_scaled()), (EventId(11), 2_172_838));
}

#[test]
fn equal_scores_rank_by_source_ordinal_and_repeated_terms_count_once() {
    let events = ledger(&[(5, 3, b"alpha"), (6, 1, b"alpha"), (7, 2, b"beta")]);
    let ranked = Bm25fWholeEventV1::new(Bm25fConfigV1).rank(&events, b"alpha alpha").unwrap();
    assert_eq!(ranked.len(), 2);
    assert_eq!(ranked[0].event_id(), EventId(6));
    assert_eq!(ranked[1].event_id(), EventId(5));
    assert_eq!(ranked[0].score_scaled(), 1_333_333);
    assert_eq!(ranked[0].score_scaled(), ranked[1].score_scaled());
    assert_eq!(ranked[0].matched_unique_query_terms(), 1);
}

#[test]
fn empty_query_or_ledger_ranks_nothing() {
    assert!(rank_documents(&incident_ledger(), b" ,;").unwrap().is_empty());
    assert!(rank_documents(&ledger(&[]), b"db").unwrap().is_empty());
    let oversized = vec![b'a'; BM25F_MAX_EVENT_BYTES_V1 + 1];
    let bad = ledger(&[(1, 0, oversized.as_slice())]);
    assert!(rank_documents(&bad, b"").unwrap().is_empty());
}

#[test]
fn query_and_event_bounds_are_refused() {
    let long_query = vec![b'a'; BM25F_MAX_QUERY_BYTES_V1 + 1];
    assert_eq!(rank_documents(&incident_ledger(), &long_query).err(), Some(Bm25fErrorV1::QueryByteBoundExceeded));
    let many_terms = "t ".repeat(129);
    assert_eq!(
        rank_documents(&incident_ledger(), many_terms.as_bytes()).err(),
        Some(Bm25fErrorV1::QueryTokenBoundExceeded)
    );
    let oversized = vec![b'a'; BM25F_MAX_EVENT_BYTES_V1 + 1];
    let bad = ledger(&[(1, 0, b"db"), (2, 1, oversized.as_slice())]);
    assert_eq!(rank_documents(&bad, b"db").err(), Some(Bm25fErrorV1::EventByteBoundExceeded));
    let crowded = "e ".repeat(8193);
    let bad = ledger(&[(1, 0, crowded.as_bytes())]);
    assert_eq!(rank_documents(&bad, b"db").err(), Some(Bm25fErrorV1::EventTokenBoundExceeded));
}

#[test]
fn run_offers_ranked_events_whole_and_skips_oversized_ones() {
    let method = Bm25fWholeEventV1::new(Bm25fConfigV1);
    let ledger = incident_ledger();
    let result = method.run(&ledger, b"db timeout", ByteBudget(20)).unwrap();
    assert_eq!(result.method().name(), "bm25f-whole-event");
    assert_eq!(result.method().version(), "1");
    assert_eq!(result.candidate_event_ids(), &[EventId(1), EventId(2)]);
    assert_eq!(result.selected().len(), 1);
    assert_eq!(result.selected()[0].event_id(), EventId(2));
    assert_eq!(result.selected()[0].reasons(), &[SelectionReason::QueryTermMatch]);
    let accounting = result.accounting();
    assert_eq!(accounting.received_event_count(), 3);
    assert_eq!(accounting.candidate_event_count(), 2);
    assert_eq!(accounting.candidate_cost().unique_source_bytes(), 39);
    assert_eq!(accounting.selected_event_count(), 1);
    assert_eq!(accounting.budget_excluded_candidate_count(), 1);
    assert_eq!(accounting.selected_source_bytes(), 16);
    assert_eq!(accounting.retained_raw_event_count(), 2);

    let roomy = method.run(&ledger, b"db timeout", ByteBudget(100)).unwrap();
    let ids: Vec<EventId> = roomy.selected().iter().map(|e| e.event_id()).collect();
    assert_eq!(ids, vec![EventId(1), EventId(2)]);
    assert_eq!(roomy.accounting().budget_excluded_candidate_count(), 0);
}

#[test]
fn run_reports_scoring_failures_as_lexical_failures() {
    let method = Bm25fWholeEventV1::new(Bm25fConfigV1);
    let long_query = vec![b'a'; BM25F_MAX_QUERY_BYTES_V1 + 1];
    assert_eq!(
        method.run(&incident_ledger(), &long_query, ByteBudget(100)).err(),
        Some(MethodError::LexicalScoringFailure)
    );
}

#[test]
fn config_digest_commits_to_every_contract_and_constant() {
    let mut hasher = sha2::Sha256::new();
    hasher.update(b"evidentrail/bench/bm25f-whole-event/config/v1\0");
    for field in [
        b"ascii-lower-alnum-underscore-dot-hyphen/non-ascii-separator/drop-overlong/v1".as_slice(),
        b"unique-query-terms/idf-rational/body+identifier-field/fixed-point-k1-b-length-normalization/v1",
        b"body=all-tokens/identifier=token-has-digit-or-underscore-dot-hyphen/v1",
        b"score-desc/source-ordinal-asc/v1",
        b"positive-score-candidates/whole-event/skip-oversized/restore-source-order/v1",
        b"bm25f-whole-event",
        b"1",
    ] {
        hasher.update((field.len() as u64).to_be_bytes());
        hasher.update(field);
    }
    for value in [
        1_000_000u64, 1_200_000, 750_000, 250_000, 1_000_000, 2_000_000, 16384, 1048576, 128, 8192, 64,
    ] {
        hasher.update(value.to_be_bytes());
    }
    let expected: [u8; 32] = hasher.finalize().into();
    assert_eq!(Bm25fConfigV1.digest().0, expected);
    assert_eq!(Bm25fWholeEventV1::new(Bm25fConfigV1).config().digest().0, expected);
}

#[test]
fn config_names_and_error_codes_are_stable() {
    assert_eq!(Bm25fConfigV1.tokenizer_contract(), "ascii_lower_bounded_v1");
    assert_eq!(Bm25fConfigV1.scoring_contract(), "fixed_point_bm25f_style_v1");
    assert_eq!(Bm25fConfigV1.tie_contract(), "score_desc_source_ordinal_asc_v1");
    assert_eq!(Bm25fErrorV1::QueryByteBoundExceeded.code(), "EVIDENTRAIL_BENCH_BM25F_QUERY_BYTE_BOUND");
    assert_eq!(Bm25fErrorV1::EventByteBoundExceeded.code(), "EVIDENTRAIL_BENCH_BM25F_EVENT_BYTE_BOUND");
    assert_eq!(Bm25fErrorV1::QueryTokenBoundExceeded.code(), "EVIDENTRAIL_BENCH_BM25F_QUERY_TOKEN_BOUND");
    assert_eq!(Bm25fErrorV1::EventTokenBoundExceeded.code(), "EVIDENTRAIL_BENCH_BM25F_EVENT_TOKEN_BOUND");
    assert_eq!(Bm25fErrorV1::ArithmeticOverflow.code(), "EVIDENTRAIL_BENCH_BM25F_ARITHMETIC");
}
