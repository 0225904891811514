# evidentrail_bench

A benchmark harness for evidence selection over sealed event ledgers, written
in Verus. The exact counts, recalls, selection searches, submission checks
and the freezes and digest messages that the library builds are stated as
contracts and proved. Work that rests on the ledger builder, the production
selector and the incident fixtures enters as arguments: a selection
problem's digest and the production outcome are taken, not derived, and the
incident fixtures and the annotations drawn from them are not part of the
library (an annotation's own checks and digest are).

Layout:

- `src/` — the verified library. Notable modules:
  - `ledger`, `manifest`, `canonical`: the sealed ledger, governed annotations
    and case specifications, and canonical (sorted, deduplicated) sets.
  - `baselines`, `bm25f`, `lexical`, `method`, `method_validation`: the
    baseline selectors (raw chronological, grep head/tail, quota hybrid and
    the fixed-point BM25F whole-event ranking) and the validation of a
    method's output.
  - `evaluator`, `metrics`, `aggregator`, `run_aggregation`: governed case
    evaluation, exact recall and run-level sums.
  - `selection_problem`, `structured_dp`, `order_aware_beam`,
    `bounded_selector_challenger`, `cost_matched_selector_stress`,
    `cost_matched_freeze`, `packet_order`: the selection problems, the exact
    dynamic program, the order-aware beam and the frozen stress corpus.
  - `producer_proposals`, `producer_comparison`, `producer_frontier`: producer
    resource caps, Pareto comparison and the governed Pareto frontier.
  - `fidelity`, `fidelity_scoring`: representation fidelity, the reversible
    byte escape, the self-asserted submission whose exact claims are checked
    against the rendered bytes and the ledger, and the governed fidelity
    score.
  - `hermetic_incident_outcome_corpus`, `hermetic_annotation`,
    `hermetic_governance`: the hermetic incident corpus vocabulary, its
    canonical hidden annotations and their digest, and its governed recall.
  - `sha256`, `digest`, `measurement`: the one trusted call (SHA-256) and the
    digests built on it.
- `tests/` — executable tests of the library.
- `app/` — floating-point views of the exact metrics.
