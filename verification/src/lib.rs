use vstd::prelude::*;

pub mod aggregator;
pub mod baselines;
pub mod bm25f;
pub mod bounded_selector_challenger;
pub mod digest;
pub mod evaluator;
pub mod fidelity;
pub mod hermetic_incident_outcome_corpus;
pub mod ledger;
pub mod lexical;
pub mod manifest;
pub mod method;
pub mod method_validation;
pub mod metrics;
pub mod producer_frontier;
pub mod producer_comparison;
pub mod producer_proposals;
pub mod run_aggregation;
pub mod selection_problem;
pub mod sha256;
pub mod structured_dp;
pub mod cost_matched_selector_stress;
pub mod order_aware_beam;
pub mod measurement;
pub mod packet_order;
pub mod cost_matched_freeze;
pub mod hermetic_governance;
pub mod fidelity_scoring;
pub mod canonical;
pub mod hermetic_annotation;

verus! {

} // verus!
