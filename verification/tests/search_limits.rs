use evidentrail_bench::baselines::{QuotaHybrid, QuotaHybridConfig};
use evidentrail_bench::bounded_selector_challenger::{
    BoundedSelectorPacketIdV1, BOUNDED_SELECTOR_CHALLENGER_TRANSITION_CAP_V1,
};
use evidentrail_bench::ledger::{EventId, EventLedger, FetchCompletenessV1, LedgerEvent, PlanDigest, RetrievalId};
use evidentrail_bench::method::ByteBudget;
use evidentrail_bench::order_aware_beam::evaluate_order_aware_beam_with_limits;
use evidentrail_bench::selection_problem::{
    FacetSaturationCardinalityV1, IntactPacketV1, PacketAffinityV1, SelectionFacetV1, SelectionProblemV1,
};

fn ledger() -> EventLedger {
    let raws: [&[u8]; 6] = [b"boot ok", b"db timeout", b"retry db", b"cache warm", b"db timeout again", b"shutdown"];
    EventLedger {
        retrieval_id: RetrievalId(1),
        plan_digest: PlanDigest([2; 32]),
        completeness: FetchCompletenessV1::Complete,
        events: raws
            .iter()
            .enumerate()
            .map(|(i, raw)| LedgerEvent {
                id: EventId(i as u64 + 1),
                ordinal: i as u64,
                component: b"svc".to_vec(),
                raw: raw.to_vec(),
            })
            .collect(),
    }
}

#[test]
fn quota_hybrid_stays_within_budget_and_candidates() {
    let ledger = ledger();
    for budget in [0usize, 10, 17, 30, 64] {
        let quarter = budget / 4;
        let method = QuotaHybrid::new(QuotaHybridConfig::new(quarter + budget % 4, quarter, quarter, quarter, 2, 2, 3));
        let result = method.run(&ledger, b"db timeout", ByteBudget(budget)).ok().unwrap();
        let bytes: usize = result.selected.iter().map(|s| s.source_byte_cost).sum();
        assert!(bytes <= budget);
        assert_eq!(result.accounting.selected_source_bytes, bytes);
        for s in &result.selected {
            assert!(result.candidate_event_ids.contains(&s.event_id));
        }
    }
}

fn id(b: u8) -> BoundedSelectorPacketIdV1 {
    BoundedSelectorPacketIdV1([b; 32])
}

fn packet(b: u8, cost: u64, facet: Option<u64>) -> IntactPacketV1 {
    IntactPacketV1 {
        id: id(b),
        token_upper_bound: cost,
        affinities: facet.map(|f| PacketAffinityV1 { facet_id: f, affinity_micros: 800_000 }).into_iter().collect(),
        event_ids: vec![EventId(b as u64)],
    }
}

fn problem() -> SelectionProblemV1 {
    let facet = |id: u64| SelectionFacetV1 {
        id,
        weight_micros: 250_000,
        saturation_cardinality: FacetSaturationCardinalityV1::One,
        coverage_only: false,
    };
    SelectionProblemV1 {
        facets: vec![facet(1), facet(2), facet(3), facet(4)],
        packets: vec![
            packet(1, 5, None),
            packet(2, 10, Some(1)),
            packet(3, 10, Some(2)),
            packet(4, 10, Some(3)),
            packet(5, 10, Some(4)),
        ],
        mandatory_packet_ids: vec![id(1)],
        mandatory_cost: 5,
        reserved_fixed_overhead: 0,
        total_token_budget: 100,
    }
}

#[test]
fn beam_best_state_respects_its_limits() {
    let p = problem();
    let optional = vec![1usize, 2, 3, 4];
    for optional_budget in [0u64, 10, 25, 40] {
        let r = evaluate_order_aware_beam_with_limits(&p, &optional, optional_budget, 0).ok().unwrap();
        assert!(r.best.optional_cost <= optional_budget);
        assert!(r.best.coverage_only_cost <= 0);
        assert!(r.retained_state_high_water >= 1);
        assert!(r.best.acceptance_order.len() <= optional.len());
        let mut order = r.best.acceptance_order.clone();
        order.sort();
        order.dedup();
        assert_eq!(order.len(), r.best.acceptance_order.len());
        assert!(!r.transition_cap_reached || r.transition_attempts == BOUNDED_SELECTOR_CHALLENGER_TRANSITION_CAP_V1);
        assert_eq!(r.best.acceptance_order.len() as u64, optional_budget / 10);
    }
}
