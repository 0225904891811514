//! The structured exact dynamic program over additive optional packets: one
//! state per exact (optional cost, coverage-only cost) pair, kept in key order,
//! with closed state-slot and transition caps.

use vstd::prelude::*;
use crate::bounded_selector_challenger::{int_order, then_order, BoundedSelectorPacketIdV1};
use crate::order_aware_beam::{
    copy_vec, index_order, index_order_exec, lemma_index_order_refl, lemma_index_order_trans, lemma_index_order_zero,
};
use crate::cost_matched_selector_stress::{CostMatchedStressErrorV1, StructuredDpIneligibleReasonV1};

verus! {

/// Optional packets the exact program admits.
pub const STRUCTURED_DP_MAX_OPTIONAL_PACKETS_V1: usize = 48;

/// Distinct (cost, coverage-only cost) states the program may hold.
pub const STRUCTURED_DP_STATE_SLOT_CAP_V1: u64 = 65_536;

/// Transitions the program may attempt.
pub const STRUCTURED_DP_TRANSITION_CAP_V1: u64 = 1_000_000;

/// One optional packet as the program sees it: cost, additive gain, and
/// whether its gain is coverage-only.
#[derive(Clone, Copy)]
pub struct DpItemV1 {
    pub packet_id: BoundedSelectorPacketIdV1,
    pub cost: u64,
    pub gain: u64,
    pub coverage_only: bool,
}

/// The best selection found for one exact resource pair.
#[derive(Debug)]
pub struct DpEntryV1 {
    pub cost: u64,
    pub coverage_cost: u64,
    pub gain: u64,
    pub selected_item_indices: Vec<usize>,
}

pub struct DpEntryView {
    pub cost: u64,
    pub coverage_cost: u64,
    pub gain: u64,
    pub indices: Seq<usize>,
}

impl View for DpEntryV1 {
    type V = DpEntryView;

    open spec fn view(&self) -> DpEntryView {
        DpEntryView {
            cost: self.cost,
            coverage_cost: self.coverage_cost,
            gain: self.gain,
            indices: self.selected_item_indices@,
        }
    }
}

pub open spec fn entry_views(s: Seq<DpEntryV1>) -> Seq<DpEntryView> {
    s.map_values(|e: DpEntryV1| e@)
}

/// Key order: optional cost, then coverage-only cost.
pub open spec fn key_before(c1: u64, v1: u64, c2: u64, v2: u64) -> bool {
    c1 < c2 || (c1 == c2 && v1 < v2)
}

/// First position from `i` whose key is not before the given key.
pub open spec fn key_position(states: Seq<DpEntryView>, cost: u64, coverage_cost: u64, i: int) -> int
    decreases states.len() - i,
{
    if i < 0 || i >= states.len() {
        states.len() as int
    } else if !key_before(states[i].cost, states[i].coverage_cost, cost, coverage_cost) {
        i
    } else {
        key_position(states, cost, coverage_cost, i + 1)
    }
}

pub proof fn lemma_key_position_bound(states: Seq<DpEntryView>, cost: u64, coverage_cost: u64, i: int)
    requires
        0 <= i <= states.len(),
    ensures
        i <= key_position(states, cost, coverage_cost, i) <= states.len(),
    decreases states.len() - i,
{
    if i < states.len() && key_before(states[i].cost, states[i].coverage_cost, cost, coverage_cost) {
        lemma_key_position_bound(states, cost, coverage_cost, i + 1);
    }
}

/// The state held for a key, if any.
pub open spec fn key_lookup(states: Seq<DpEntryView>, cost: u64, coverage_cost: u64) -> Option<DpEntryView> {
    let p = key_position(states, cost, coverage_cost, 0);
    if p < states.len() && states[p].cost == cost && states[p].coverage_cost == coverage_cost {
        Some(states[p])
    } else {
        None
    }
}

/// The states after storing an entry under its key.
pub open spec fn key_store(states: Seq<DpEntryView>, e: DpEntryView) -> Seq<DpEntryView> {
    let p = key_position(states, e.cost, e.coverage_cost, 0);
    if key_lookup(states, e.cost, e.coverage_cost) is Some {
        states.update(p, e)
    } else {
        states.insert(p, e)
    }
}

/// Of two selections with the same resources, the one kept: higher gain,
/// then fewer packets, then the lexicographically smaller index list.
pub open spec fn dp_same_key_is_better(candidate: DpEntryView, current: DpEntryView) -> bool {
    then_order(
        int_order(candidate.gain as int, current.gain as int),
        then_order(
            int_order(current.indices.len() as int, candidate.indices.len() as int),
            index_order(current.indices, candidate.indices),
        ),
    ) == 1
}

/// The final choice order: higher gain first, then lower optional cost, lower
/// coverage-only cost, fewer packets, smaller index list.
pub open spec fn dp_final_order(left: DpEntryView, right: DpEntryView) -> int {
    then_order(
        int_order(right.gain as int, left.gain as int),
        then_order(
            int_order(left.cost as int, right.cost as int),
            then_order(
                int_order(left.coverage_cost as int, right.coverage_cost as int),
                then_order(
                    int_order(left.indices.len() as int, right.indices.len() as int),
                    index_order(left.indices, right.indices),
                ),
            ),
        ),
    )
}

/// Why the program stopped early.
#[derive(Clone, Copy, Debug, PartialEq, Eq, Structural)]
pub enum DpStopV1 {
    Ineligible(StructuredDpIneligibleReasonV1),
    Failed(CostMatchedStressErrorV1),
}

/// The program's running record.
pub struct DpRunView {
    pub states: Seq<DpEntryView>,
    pub high_water: int,
    pub attempts: u64,
    pub stop: Option<DpStopV1>,
}

pub open spec fn dp_stop_with(m: DpRunView, stop: DpStopV1) -> DpRunView {
    DpRunView { states: m.states, high_water: m.high_water, attempts: m.attempts, stop: Some(stop) }
}

/// One transition: extend the selection `e` by item `k`.
pub open spec fn dp_step(
    items: Seq<DpItemV1>,
    k: int,
    optional_cost_cap: u64,
    coverage_cap: u64,
    m: DpRunView,
    e: DpEntryView,
) -> DpRunView {
    if m.attempts == STRUCTURED_DP_TRANSITION_CAP_V1 {
        dp_stop_with(m, DpStopV1::Ineligible(StructuredDpIneligibleReasonV1::TransitionCap))
    } else {
        let m1 = DpRunView {
            states: m.states,
            high_water: m.high_water,
            attempts: (m.attempts + 1) as u64,
            stop: m.stop,
        };
        let item = items[k];
        let next_cost = e.cost + item.cost;
        if next_cost > u64::MAX {
            dp_stop_with(m1, DpStopV1::Failed(CostMatchedStressErrorV1::ArithmeticOverflow))
        } else if next_cost > optional_cost_cap {
            m1
        } else {
            let next_coverage: int = if item.coverage_only {
                e.coverage_cost + item.cost
            } else {
                e.coverage_cost as int
            };
            if next_coverage > u64::MAX {
                dp_stop_with(m1, DpStopV1::Failed(CostMatchedStressErrorV1::ArithmeticOverflow))
            } else if next_coverage > coverage_cap {
                m1
            } else if e.gain + item.gain > u64::MAX {
                dp_stop_with(m1, DpStopV1::Failed(CostMatchedStressErrorV1::ArithmeticOverflow))
            } else {
                let candidate = DpEntryView {
                    cost: next_cost as u64,
                    coverage_cost: next_coverage as u64,
                    gain: (e.gain + item.gain) as u64,
                    indices: e.indices.push(k as usize),
                };
                let current = key_lookup(m1.states, candidate.cost, candidate.coverage_cost);
                let replaces = match current {
                    None => true,
                    Some(c) => dp_same_key_is_better(candidate, c),
                };
                if !replaces {
                    m1
                } else if current is None && m1.states.len() == STRUCTURED_DP_STATE_SLOT_CAP_V1 {
                    dp_stop_with(m1, DpStopV1::Ineligible(StructuredDpIneligibleReasonV1::StateSlotCap))
                } else {
                    let stored = key_store(m1.states, candidate);
                    DpRunView {
                        states: stored,
                        high_water: if stored.len() > m1.high_water {
                            stored.len() as int
                        } else {
                            m1.high_water
                        },
                        attempts: m1.attempts,
                        stop: None,
                    }
                }
            }
        }
    }
}

/// Extend every selection of the snapshot, from position `i` on, by item `k`.
pub open spec fn run_snapshot(
    items: Seq<DpItemV1>,
    k: int,
    optional_cost_cap: u64,
    coverage_cap: u64,
    snapshot: Seq<DpEntryView>,
    m: DpRunView,
    i: int,
) -> DpRunView
    decreases snapshot.len() - i,
{
    if m.stop is Some || i < 0 || i >= snapshot.len() {
        m
    } else {
        run_snapshot(
            items,
            k,
            optional_cost_cap,
            coverage_cap,
            snapshot,
            dp_step(items, k, optional_cost_cap, coverage_cap, m, snapshot[i]),
            i + 1,
        )
    }
}

/// Offer items `k` onward, each to a snapshot of the states before it.
pub open spec fn run_items(
    items: Seq<DpItemV1>,
    optional_cost_cap: u64,
    coverage_cap: u64,
    m: DpRunView,
    k: int,
) -> DpRunView
    decreases items.len() - k,
{
    if m.stop is Some || k < 0 || k >= items.len() {
        m
    } else {
        run_items(
            items,
            optional_cost_cap,
            coverage_cap,
            run_snapshot(items, k, optional_cost_cap, coverage_cap, m.states, m, 0),
            k + 1,
        )
    }
}

/// The first best state of the first `j` states in the final order.
pub open spec fn dp_best_upto(states: Seq<DpEntryView>, j: int) -> DpEntryView
    decreases j,
{
    if j <= 1 {
        states[0]
    } else if dp_final_order(states[j - 1], dp_best_upto(states, j - 1)) == -1 {
        states[j - 1]
    } else {
        dp_best_upto(states, j - 1)
    }
}

pub open spec fn dp_initial_run() -> DpRunView {
    DpRunView {
        states: seq![DpEntryView { cost: 0, coverage_cost: 0, gain: 0, indices: Seq::empty() }],
        high_water: 1,
        attempts: 0,
        stop: None,
    }
}

/// What the program reports: the best state with the work it took, an
/// ineligibility with the work so far, or an error.
pub enum DpCoreOutcomeV1 {
    Ineligible {
        reason: StructuredDpIneligibleReasonV1,
        retained_state_high_water: u64,
        transition_attempts: u64,
    },
    Optimal { best: DpEntryV1, retained_state_high_water: u64, transition_attempts: u64 },
}

/// The program from the empty selection over all items, and its report.
pub open spec fn dp_core_result(
    items: Seq<DpItemV1>,
    optional_cost_cap: u64,
    coverage_cap: u64,
    r: Result<DpCoreOutcomeV1, CostMatchedStressErrorV1>,
) -> bool {
    let last = run_items(items, optional_cost_cap, coverage_cap, dp_initial_run(), 0);
    match last.stop {
        Some(DpStopV1::Failed(e)) => r == Err::<DpCoreOutcomeV1, CostMatchedStressErrorV1>(e),
        Some(DpStopV1::Ineligible(reason)) => r matches Ok(DpCoreOutcomeV1::Ineligible { reason: rr, retained_state_high_water: h, transition_attempts: a })
            && rr == reason && h == last.high_water && a == last.attempts,
        None => if last.states.len() == 0 {
            r == Err::<DpCoreOutcomeV1, CostMatchedStressErrorV1>(CostMatchedStressErrorV1::ObjectiveContract)
        } else {
            r matches Ok(DpCoreOutcomeV1::Optimal { best: b, retained_state_high_water: h, transition_attempts: a })
                && b@ == dp_best_upto(last.states, last.states.len() as int) && h == last.high_water
                && a == last.attempts
        },
    }
}

fn dp_same_key_is_better_exec(candidate: &DpEntryV1, current: &DpEntryV1) -> (r: bool)
    ensures
        r == dp_same_key_is_better(candidate@, current@),
{
    if candidate.gain != current.gain {
        return candidate.gain > current.gain;
    }
    let cl = current.selected_item_indices.len();
    let dl = candidate.selected_item_indices.len();
    if cl != dl {
        return cl > dl;
    }
    index_order_exec(&current.selected_item_indices, &candidate.selected_item_indices) == 1
}

fn dp_final_less_exec(left: &DpEntryV1, right: &DpEntryV1) -> (r: bool)
    ensures
        r == (dp_final_order(left@, right@) == -1),
{
    if left.gain != right.gain {
        return left.gain > right.gain;
    }
    if left.cost != right.cost {
        return left.cost < right.cost;
    }
    if left.coverage_cost != right.coverage_cost {
        return left.coverage_cost < right.coverage_cost;
    }
    let ll = left.selected_item_indices.len();
    let rl = right.selected_item_indices.len();
    if ll != rl {
        return ll < rl;
    }
    index_order_exec(&left.selected_item_indices, &right.selected_item_indices) == -1
}

fn copy_entry(e: &DpEntryV1) -> (r: DpEntryV1)
    ensures
        r@ == e@,
{
    DpEntryV1 {
        cost: e.cost,
        coverage_cost: e.coverage_cost,
        gain: e.gain,
        selected_item_indices: copy_vec(&e.selected_item_indices),
    }
}

fn copy_entries(s: &Vec<DpEntryV1>) -> (r: Vec<DpEntryV1>)
    ensures
        entry_views(r@) == entry_views(s@),
{
    let mut r: Vec<DpEntryV1> = Vec::new();
    let mut i: usize = 0;
    while i < s.len()
        invariant
            i <= s.len(),
            entry_views(r@) == entry_views(s@).subrange(0, i as int),
        decreases s.len() - i,
    {
        let e = copy_entry(&s[i]);
        let ghost before = r@;
        r.push(e);
        proof {
            assert(r@ =~= before.push(e));
            assert(entry_views(r@) =~= entry_views(before).push(e@));
            assert(entry_views(s@)[i as int] == s@[i as int]@);
            assert(entry_views(s@).subrange(0, i + 1) =~= entry_views(s@).subrange(0, i as int).push(
                s@[i as int]@,
            ));
        }
        i = i + 1;
    }
    proof {
        assert(entry_views(s@).subrange(0, i as int) =~= entry_views(s@));
    }
    r
}

fn find_key_position(states: &Vec<DpEntryV1>, cost: u64, coverage_cost: u64) -> (r: usize)
    ensures
        r as int == key_position(entry_views(states@), cost, coverage_cost, 0),
        r <= states.len(),
{
    let mut i: usize = 0;
    while i < states.len()
        invariant
            i <= states.len(),
            key_position(entry_views(states@), cost, coverage_cost, 0) == key_position(
                entry_views(states@),
                cost,
                coverage_cost,
                i as int,
            ),
        decreases states.len() - i,
    {
        proof {
            assert(entry_views(states@)[i as int] == states@[i as int]@);
        }
        if !(states[i].cost < cost || (states[i].cost == cost && states[i].coverage_cost < coverage_cost)) {
            return i;
        }
        i = i + 1;
    }
    i
}

/// The program's running record in executable form.
pub struct DpRunState {
    pub states: Vec<DpEntryV1>,
    pub high_water: u64,
    pub attempts: u64,
    pub stop: Option<DpStopV1>,
}

impl View for DpRunState {
    type V = DpRunView;

    open spec fn view(&self) -> DpRunView {
        DpRunView {
            states: entry_views(self.states@),
            high_water: self.high_water as int,
            attempts: self.attempts,
            stop: self.stop,
        }
    }
}

pub open spec fn dp_run_wf(run: DpRunState) -> bool {
    &&& run.attempts <= STRUCTURED_DP_TRANSITION_CAP_V1
    &&& run.states.len() <= STRUCTURED_DP_STATE_SLOT_CAP_V1
    &&& run.high_water <= STRUCTURED_DP_STATE_SLOT_CAP_V1
}

fn dp_step_exec(
    run: &mut DpRunState,
    items: &Vec<DpItemV1>,
    k: usize,
    optional_cost_cap: u64,
    coverage_cap: u64,
    e: &DpEntryV1,
)
    requires
        old(run).stop is None,
        k < items.len(),
        dp_run_wf(*old(run)),
    ensures
        dp_run_wf(*final(run)),
        final(run)@ == dp_step(items@, k as int, optional_cost_cap, coverage_cap, old(run)@, e@),
{
    if run.attempts == STRUCTURED_DP_TRANSITION_CAP_V1 {
        run.stop = Some(DpStopV1::Ineligible(StructuredDpIneligibleReasonV1::TransitionCap));
        return;
    }
    run.attempts = run.attempts + 1;
    let item = items[k];
    let next_cost = match e.cost.checked_add(item.cost) {
        None => {
            run.stop = Some(DpStopV1::Failed(CostMatchedStressErrorV1::ArithmeticOverflow));
            return;
        },
        Some(v) => v,
    };
    if next_cost > optional_cost_cap {
        return;
    }
    let next_coverage = if item.coverage_only {
        match e.coverage_cost.checked_add(item.cost) {
            None => {
                run.stop = Some(DpStopV1::Failed(CostMatchedStressErrorV1::ArithmeticOverflow));
                return;
            },
            Some(v) => v,
        }
    } else {
        e.coverage_cost
    };
    if next_coverage > coverage_cap {
        return;
    }
    let gain = match e.gain.checked_add(item.gain) {
        None => {
            run.stop = Some(DpStopV1::Failed(CostMatchedStressErrorV1::ArithmeticOverflow));
            return;
        },
        Some(v) => v,
    };
    let mut indices = copy_vec(&e.selected_item_indices);
    indices.push(k);
    let candidate = DpEntryV1 { cost: next_cost, coverage_cost: next_coverage, gain, selected_item_indices: indices };
    let ghost sv = entry_views(run.states@);
    let p = find_key_position(&run.states, next_cost, next_coverage);
    let found = p < run.states.len() && run.states[p].cost == next_cost && run.states[p].coverage_cost
        == next_coverage;
    proof {
        if p < run.states.len() {
            assert(sv[p as int] == run.states@[p as int]@);
        }
        assert(found == key_lookup(sv, next_cost, next_coverage) is Some);
    }
    let replaces = if found {
        dp_same_key_is_better_exec(&candidate, &run.states[p])
    } else {
        true
    };
    if !replaces {
        return;
    }
    if !found && run.states.len() as u64 == STRUCTURED_DP_STATE_SLOT_CAP_V1 {
        run.stop = Some(DpStopV1::Ineligible(StructuredDpIneligibleReasonV1::StateSlotCap));
        return;
    }
    let ghost cv = candidate@;
    if found {
        run.states.set(p, candidate);
        proof {
            assert(entry_views(run.states@) =~= sv.update(p as int, cv));
        }
    } else {
        run.states.insert(p, candidate);
        proof {
            assert(entry_views(run.states@) =~= sv.insert(p as int, cv));
        }
    }
    if run.states.len() as u64 > run.high_water {
        run.high_water = run.states.len() as u64;
    }
}

pub fn run_structured_dp(items: &Vec<DpItemV1>, optional_cost_cap: u64, coverage_cap: u64) -> (r: Result<
    DpCoreOutcomeV1,
    CostMatchedStressErrorV1,
>)
    ensures
        dp_core_result(items@, optional_cost_cap, coverage_cap, r),
        r matches Ok(DpCoreOutcomeV1::Optimal { retained_state_high_water: h, transition_attempts: a, .. }) ==> a
            <= STRUCTURED_DP_TRANSITION_CAP_V1 && h <= STRUCTURED_DP_STATE_SLOT_CAP_V1,
        r matches Ok(DpCoreOutcomeV1::Ineligible { retained_state_high_water: h, transition_attempts: a, .. }) ==> a
            <= STRUCTURED_DP_TRANSITION_CAP_V1 && h <= STRUCTURED_DP_STATE_SLOT_CAP_V1,
{
    let mut initial: Vec<DpEntryV1> = Vec::new();
    initial.push(DpEntryV1 { cost: 0, coverage_cost: 0, gain: 0, selected_item_indices: Vec::new() });
    let mut run = DpRunState { states: initial, high_water: 1, attempts: 0, stop: None };
    proof {
        assert(run@.states =~= dp_initial_run().states);
    }
    let ghost target = run_items(items@, optional_cost_cap, coverage_cap, dp_initial_run(), 0);
    let mut k: usize = 0;
    while k < items.len() && run.stop.is_none()
        invariant
            k <= items.len(),
            dp_run_wf(run),
            run_items(items@, optional_cost_cap, coverage_cap, run@, k as int) == target,
            target == run_items(items@, optional_cost_cap, coverage_cap, dp_initial_run(), 0),
        decreases items.len() - k,
    {
        let snapshot = copy_entries(&run.states);
        let ghost snap = entry_views(snapshot@);
        let ghost level_target = run_snapshot(items@, k as int, optional_cost_cap, coverage_cap, snap, run@, 0);
        proof {
            assert(snap == run@.states);
        }
        let mut i: usize = 0;
        while i < snapshot.len() && run.stop.is_none()
            invariant
                i <= snapshot.len(),
                k < items.len(),
                dp_run_wf(run),
                snap == entry_views(snapshot@),
                run_snapshot(items@, k as int, optional_cost_cap, coverage_cap, snap, run@, i as int)
                    == level_target,
                run_items(items@, optional_cost_cap, coverage_cap, level_target, k + 1) == target,
                target == run_items(items@, optional_cost_cap, coverage_cap, dp_initial_run(), 0),
            decreases snapshot.len() - i,
        {
            proof {
                assert(snap[i as int] == snapshot@[i as int]@);
            }
            dp_step_exec(&mut run, items, k, optional_cost_cap, coverage_cap, &snapshot[i]);
            i = i + 1;
        }
        k = k + 1;
    }
    match run.stop {
        Some(DpStopV1::Failed(e)) => {
            return Err(e);
        },
        Some(DpStopV1::Ineligible(reason)) => {
            return Ok(
                DpCoreOutcomeV1::Ineligible {
                    reason,
                    retained_state_high_water: run.high_water,
                    transition_attempts: run.attempts,
                },
            );
        },
        None => {},
    }
    if run.states.len() == 0 {
        return Err(CostMatchedStressErrorV1::ObjectiveContract);
    }
    let ghost sv = entry_views(run.states@);
    let mut best_index: usize = 0;
    let mut j: usize = 1;
    proof {
        assert(sv[0] == run.states@[0]@);
    }
    while j < run.states.len()
        invariant
            1 <= j <= run.states.len(),
            best_index < run.states.len(),
            sv == entry_views(run.states@),
            run.states@[best_index as int]@ == dp_best_upto(sv, j as int),
        decreases run.states.len() - j,
    {
        proof {
            assert(sv[j as int] == run.states@[j as int]@);
        }
        if dp_final_less_exec(&run.states[j], &run.states[best_index]) {
            best_index = j;
        }
        j = j + 1;
    }
    let best = copy_entry(&run.states[best_index]);
    Ok(
        DpCoreOutcomeV1::Optimal {
            best,
            retained_state_high_water: run.high_water,
            transition_attempts: run.attempts,
        },
    )
}

/// Keys strictly increase along the states.
pub open spec fn keys_sorted(s: Seq<DpEntryView>) -> bool {
    forall|i: int, j: int|
        0 <= i < j < s.len() ==> key_before(s[i].cost, s[i].coverage_cost, s[j].cost, s[j].coverage_cost)
}

/// Some state has exactly this key and at least this gain.
pub open spec fn holds_at_least(s: Seq<DpEntryView>, cost: int, coverage_cost: int, gain: int) -> bool {
    exists|i: int|
        0 <= i < s.len() && #[trigger] s[i].cost == cost && s[i].coverage_cost == coverage_cost && s[i].gain
            >= gain
}

/// Every key of `s1` is held in `s2` with at least its gain.
pub open spec fn dominates(s2: Seq<DpEntryView>, s1: Seq<DpEntryView>) -> bool {
    forall|i: int|
        0 <= i < s1.len() ==> holds_at_least(s2, #[trigger] s1[i].cost as int, s1[i].coverage_cost as int, s1[i].gain as int)
}

proof fn lemma_key_position_props(s: Seq<DpEntryView>, cost: u64, coverage_cost: u64, i: int)
    requires
        0 <= i <= s.len(),
        forall|j: int| 0 <= j < i ==> key_before(s[j].cost, s[j].coverage_cost, cost, coverage_cost),
    ensures
        i <= key_position(s, cost, coverage_cost, i) <= s.len(),
        forall|j: int|
            0 <= j < key_position(s, cost, coverage_cost, i) ==> key_before(
                s[j].cost,
                s[j].coverage_cost,
                cost,
                coverage_cost,
            ),
        key_position(s, cost, coverage_cost, i) < s.len() ==> !key_before(
            s[key_position(s, cost, coverage_cost, i)].cost,
            s[key_position(s, cost, coverage_cost, i)].coverage_cost,
            cost,
            coverage_cost,
        ),
    decreases s.len() - i,
{
    if i < s.len() && key_before(s[i].cost, s[i].coverage_cost, cost, coverage_cost) {
        lemma_key_position_props(s, cost, coverage_cost, i + 1);
    }
}

/// In sorted states a key is found exactly where it is held.
proof fn lemma_lookup_finds(s: Seq<DpEntryView>, i: int)
    requires
        keys_sorted(s),
        0 <= i < s.len(),
    ensures
        key_lookup(s, s[i].cost, s[i].coverage_cost) == Some(s[i]),
        key_position(s, s[i].cost, s[i].coverage_cost, 0) == i,
{
    lemma_key_position_props(s, s[i].cost, s[i].coverage_cost, 0);
    let p = key_position(s, s[i].cost, s[i].coverage_cost, 0);
    if p < i {
        assert(key_before(s[p].cost, s[p].coverage_cost, s[i].cost, s[i].coverage_cost));
    }
    if p > i {
        assert(key_before(s[i].cost, s[i].coverage_cost, s[i].cost, s[i].coverage_cost));
    }
}

/// Storing keeps the keys sorted, holds the new entry, and keeps every other
/// key's entry.
proof fn lemma_store(s: Seq<DpEntryView>, e: DpEntryView)
    requires
        keys_sorted(s),
    ensures
        keys_sorted(key_store(s, e)),
        holds_at_least(key_store(s, e), e.cost as int, e.coverage_cost as int, e.gain as int),
        forall|i: int|
            0 <= i < s.len() && !(s[i].cost == e.cost && s[i].coverage_cost == e.coverage_cost) ==> holds_at_least(
                key_store(s, e),
                #[trigger] s[i].cost as int,
                s[i].coverage_cost as int,
                s[i].gain as int,
            ),
        forall|q: int|
            0 <= q < key_store(s, e).len() ==> (#[trigger] key_store(s, e)[q] == e || exists|i: int|
                0 <= i < s.len() && key_store(s, e)[q] == s[i]),
        key_store(s, e).len() >= s.len(),
{
    lemma_key_position_props(s, e.cost, e.coverage_cost, 0);
    let p = key_position(s, e.cost, e.coverage_cost, 0);
    let r = key_store(s, e);
    if key_lookup(s, e.cost, e.coverage_cost) is Some {
        assert(r == s.update(p, e));
        assert forall|i: int, j: int| 0 <= i < j < r.len() implies key_before(
            r[i].cost,
            r[i].coverage_cost,
            r[j].cost,
            r[j].coverage_cost,
        ) by {
            assert(key_before(s[i].cost, s[i].coverage_cost, s[j].cost, s[j].coverage_cost));
        }
        assert(r[p] == e);
        assert forall|i: int|
            0 <= i < s.len() && !(s[i].cost == e.cost && s[i].coverage_cost == e.coverage_cost) implies holds_at_least(
            r,
            #[trigger] s[i].cost as int,
            s[i].coverage_cost as int,
            s[i].gain as int,
        ) by {
            assert(i != p);
            assert(r[i] == s[i]);
        }
        assert forall|q: int| 0 <= q < r.len() implies (#[trigger] r[q] == e || exists|i: int|
            0 <= i < s.len() && r[q] == s[i]) by {
            if q != p {
                assert(r[q] == s[q]);
            }
        }
    } else {
        assert(r == s.insert(p, e));
        if p < s.len() {
            assert(!(s[p].cost == e.cost && s[p].coverage_cost == e.coverage_cost));
            assert(key_before(e.cost, e.coverage_cost, s[p].cost, s[p].coverage_cost));
        }
        assert forall|i: int, j: int| 0 <= i < j < r.len() implies key_before(
            r[i].cost,
            r[i].coverage_cost,
            r[j].cost,
            r[j].coverage_cost,
        ) by {
            if j < p {
                assert(r[i] == s[i] && r[j] == s[j]);
            } else if j == p {
                assert(r[i] == s[i]);
            } else if i < p {
                assert(r[i] == s[i] && r[j] == s[j - 1]);
                if j - 1 > p {
                    assert(key_before(s[p].cost, s[p].coverage_cost, s[j - 1].cost, s[j - 1].coverage_cost));
                }
            } else if i == p {
                assert(r[j] == s[j - 1]);
                if j - 1 > p {
                    assert(key_before(s[p].cost, s[p].coverage_cost, s[j - 1].cost, s[j - 1].coverage_cost));
                }
            } else {
                assert(r[i] == s[i - 1] && r[j] == s[j - 1]);
            }
        }
        assert(r[p] == e);
        assert forall|i: int|
            0 <= i < s.len() && !(s[i].cost == e.cost && s[i].coverage_cost == e.coverage_cost) implies holds_at_least(
            r,
            #[trigger] s[i].cost as int,
            s[i].coverage_cost as int,
            s[i].gain as int,
        ) by {
            if i < p {
                assert(r[i] == s[i]);
            } else {
                assert(r[i + 1] == s[i]);
            }
        }
        assert forall|q: int| 0 <= q < r.len() implies (#[trigger] r[q] == e || exists|i: int|
            0 <= i < s.len() && r[q] == s[i]) by {
            if q < p {
                assert(r[q] == s[q]);
            } else if q > p {
                assert(r[q] == s[q - 1]);
            }
        }
    }
}

proof fn lemma_dominates_trans(a: Seq<DpEntryView>, b: Seq<DpEntryView>, c: Seq<DpEntryView>)
    requires
        dominates(a, b),
        dominates(b, c),
    ensures
        dominates(a, c),
{
    assert forall|i: int| 0 <= i < c.len() implies holds_at_least(
        a,
        #[trigger] c[i].cost as int,
        c[i].coverage_cost as int,
        c[i].gain as int,
    ) by {
        let j = choose|j: int|
            0 <= j < b.len() && #[trigger] b[j].cost == c[i].cost && b[j].coverage_cost == c[i].coverage_cost
                && b[j].gain >= c[i].gain;
        assert(holds_at_least(a, b[j].cost as int, b[j].coverage_cost as int, b[j].gain as int));
    }
}

proof fn lemma_dominates_holds(a: Seq<DpEntryView>, b: Seq<DpEntryView>, cost: int, coverage_cost: int, gain: int)
    requires
        dominates(a, b),
        holds_at_least(b, cost, coverage_cost, gain),
    ensures
        holds_at_least(a, cost, coverage_cost, gain),
{
    let j = choose|j: int|
        0 <= j < b.len() && #[trigger] b[j].cost == cost && b[j].coverage_cost == coverage_cost && b[j].gain
            >= gain;
    assert(holds_at_least(a, b[j].cost as int, b[j].coverage_cost as int, b[j].gain as int));
}

proof fn lemma_dominates_refl(a: Seq<DpEntryView>)
    ensures
        dominates(a, a),
{
    assert forall|i: int| 0 <= i < a.len() implies holds_at_least(
        a,
        #[trigger] a[i].cost as int,
        a[i].coverage_cost as int,
        a[i].gain as int,
    ) by {
        assert(a[i].cost == a[i].cost);
    }
}

/// The key and gain an entry reaches with item `k` when both caps allow it.
pub open spec fn extension_fits(item: DpItemV1, e: DpEntryView, optional_cost_cap: u64, coverage_cap: u64) -> bool {
    &&& e.cost + item.cost <= optional_cost_cap
    &&& (if item.coverage_only {
        e.coverage_cost + item.cost
    } else {
        e.coverage_cost as int
    }) <= coverage_cap
}

pub open spec fn extended_coverage(item: DpItemV1, e: DpEntryView) -> int {
    if item.coverage_only {
        e.coverage_cost + item.cost
    } else {
        e.coverage_cost as int
    }
}

/// One transition keeps the keys sorted, loses no key or gain, and when the
/// extension fits the caps it is held afterwards.
#[verifier::rlimit(40)]
proof fn lemma_step(
    items: Seq<DpItemV1>,
    k: int,
    optional_cost_cap: u64,
    coverage_cap: u64,
    m: DpRunView,
    e: DpEntryView,
)
    requires
        0 <= k < items.len(),
        keys_sorted(m.states),
        m.stop is None,
    ensures
        ({
            let m2 = dp_step(items, k, optional_cost_cap, coverage_cap, m, e);
            m2.stop is None ==> {
                &&& keys_sorted(m2.states)
                &&& dominates(m2.states, m.states)
                &&& extension_fits(items[k], e, optional_cost_cap, coverage_cap) ==> holds_at_least(
                    m2.states,
                    e.cost + items[k].cost,
                    extended_coverage(items[k], e),
                    e.gain + items[k].gain,
                )
            }
        }),
{
    let m2 = dp_step(items, k, optional_cost_cap, coverage_cap, m, e);
    lemma_dominates_refl(m.states);
    if m2.stop is None && m.attempts != STRUCTURED_DP_TRANSITION_CAP_V1 {
        let item = items[k];
        let next_cost = e.cost + item.cost;
        let next_coverage = extended_coverage(item, e);
        if next_cost <= optional_cost_cap && next_coverage <= coverage_cap {
            let candidate = DpEntryView {
                cost: next_cost as u64,
                coverage_cost: next_coverage as u64,
                gain: (e.gain + item.gain) as u64,
                indices: e.indices.push(k as usize),
            };
            let current = key_lookup(m.states, candidate.cost, candidate.coverage_cost);
            let replaces = match current {
                None => true,
                Some(c) => dp_same_key_is_better(candidate, c),
            };
            lemma_key_position_props(m.states, candidate.cost, candidate.coverage_cost, 0);
            let p = key_position(m.states, candidate.cost, candidate.coverage_cost, 0);
            if replaces {
                lemma_store(m.states, candidate);
                let st = key_store(m.states, candidate);
                assert(m2.states == st);
                assert forall|i: int| 0 <= i < m.states.len() implies holds_at_least(
                    st,
                    #[trigger] m.states[i].cost as int,
                    m.states[i].coverage_cost as int,
                    m.states[i].gain as int,
                ) by {
                    if m.states[i].cost == candidate.cost && m.states[i].coverage_cost == candidate.coverage_cost {
                        lemma_lookup_finds(m.states, i);
                        assert(current == Some(m.states[i]));
                        assert(dp_same_key_is_better(candidate, m.states[i]));
                        assert(candidate.gain >= m.states[i].gain);
                    }
                }
            } else {
                assert(m2.states == m.states);
                let c = current->Some_0;
                assert(p < m.states.len());
                assert(m.states[p] == c);
                assert(c.gain >= candidate.gain);
                assert(holds_at_least(m.states, m.states[p].cost as int, m.states[p].coverage_cost as int, candidate.gain as int));
            }
        }
    }
}

/// One pass over a snapshot keeps the keys sorted, loses nothing, and holds
/// every fitting extension of every snapshot entry from `i` on.
proof fn lemma_pass(
    items: Seq<DpItemV1>,
    k: int,
    optional_cost_cap: u64,
    coverage_cap: u64,
    snapshot: Seq<DpEntryView>,
    m: DpRunView,
    i: int,
)
    requires
        0 <= k < items.len(),
        0 <= i <= snapshot.len(),
        keys_sorted(m.states),
        m.stop is None,
    ensures
        ({
            let r = run_snapshot(items, k, optional_cost_cap, coverage_cap, snapshot, m, i);
            r.stop is None ==> {
                &&& keys_sorted(r.states)
                &&& dominates(r.states, m.states)
                &&& forall|j: int|
                    i <= j < snapshot.len() && extension_fits(items[k], #[trigger] snapshot[j], optional_cost_cap, coverage_cap)
                        ==> holds_at_least(
                        r.states,
                        snapshot[j].cost + items[k].cost,
                        extended_coverage(items[k], snapshot[j]),
                        snapshot[j].gain + items[k].gain,
                    )
            }
        }),
    decreases snapshot.len() - i,
{
    let r = run_snapshot(items, k, optional_cost_cap, coverage_cap, snapshot, m, i);
    if i >= snapshot.len() {
        lemma_dominates_refl(m.states);
    } else {
        let m2 = dp_step(items, k, optional_cost_cap, coverage_cap, m, snapshot[i]);
        lemma_step(items, k, optional_cost_cap, coverage_cap, m, snapshot[i]);
        if m2.stop is None {
            lemma_pass(items, k, optional_cost_cap, coverage_cap, snapshot, m2, i + 1);
            if r.stop is None {
                lemma_dominates_trans(r.states, m2.states, m.states);
                if extension_fits(items[k], snapshot[i], optional_cost_cap, coverage_cap) {
                    lemma_dominates_holds(
                        r.states,
                        m2.states,
                        snapshot[i].cost + items[k].cost,
                        extended_coverage(items[k], snapshot[i]),
                        snapshot[i].gain + items[k].gain,
                    );
                }
            }
        } else {
            assert(run_snapshot(items, k, optional_cost_cap, coverage_cap, snapshot, m2, i + 1) == m2);
        }
    }
}

/// Total cost of the items a mask takes.
pub open spec fn mask_cost(items: Seq<DpItemV1>, mask: Seq<bool>) -> int
    decreases mask.len(),
{
    if mask.len() == 0 {
        0
    } else {
        mask_cost(items, mask.drop_last()) + if mask.last() {
            items[mask.len() - 1].cost as int
        } else {
            0
        }
    }
}

/// Coverage-only cost of the items a mask takes.
pub open spec fn mask_coverage(items: Seq<DpItemV1>, mask: Seq<bool>) -> int
    decreases mask.len(),
{
    if mask.len() == 0 {
        0
    } else {
        mask_coverage(items, mask.drop_last()) + if mask.last() && items[mask.len() - 1].coverage_only {
            items[mask.len() - 1].cost as int
        } else {
            0
        }
    }
}

/// Total gain of the items a mask takes.
pub open spec fn mask_gain(items: Seq<DpItemV1>, mask: Seq<bool>) -> int
    decreases mask.len(),
{
    if mask.len() == 0 {
        0
    } else {
        mask_gain(items, mask.drop_last()) + if mask.last() {
            items[mask.len() - 1].gain as int
        } else {
            0
        }
    }
}

/// A choice of items within both caps.
pub open spec fn mask_feasible(items: Seq<DpItemV1>, mask: Seq<bool>, optional_cost_cap: u64, coverage_cap: u64) -> bool {
    mask_cost(items, mask) <= optional_cost_cap && mask_coverage(items, mask) <= coverage_cap
}

proof fn lemma_mask_nonneg(items: Seq<DpItemV1>, mask: Seq<bool>)
    ensures
        mask_cost(items, mask) >= 0,
        mask_coverage(items, mask) >= 0,
        mask_gain(items, mask) >= 0,
    decreases mask.len(),
{
    if mask.len() > 0 {
        lemma_mask_nonneg(items, mask.drop_last());
    }
}

/// Every feasible choice of the first `k` items is matched by a held state.
pub open spec fn all_choices_held(
    items: Seq<DpItemV1>,
    optional_cost_cap: u64,
    coverage_cap: u64,
    states: Seq<DpEntryView>,
    k: int,
) -> bool {
    forall|mask: Seq<bool>|
        mask.len() == k && #[trigger] mask_feasible(items, mask, optional_cost_cap, coverage_cap) ==> holds_at_least(
            states,
            mask_cost(items, mask),
            mask_coverage(items, mask),
            mask_gain(items, mask),
        )
}

proof fn lemma_items(items: Seq<DpItemV1>, optional_cost_cap: u64, coverage_cap: u64, m: DpRunView, k: int)
    requires
        0 <= k <= items.len(),
        keys_sorted(m.states),
        m.stop is None,
        all_choices_held(items, optional_cost_cap, coverage_cap, m.states, k),
    ensures
        ({
            let r = run_items(items, optional_cost_cap, coverage_cap, m, k);
            r.stop is None ==> keys_sorted(r.states) && all_choices_held(
                items,
                optional_cost_cap,
                coverage_cap,
                r.states,
                items.len() as int,
            )
        }),
    decreases items.len() - k,
{
    if k < items.len() {
        let m2 = run_snapshot(items, k, optional_cost_cap, coverage_cap, m.states, m, 0);
        lemma_pass(items, k, optional_cost_cap, coverage_cap, m.states, m, 0);
        if m2.stop is None {
            assert forall|mask: Seq<bool>|
                mask.len() == k + 1 && #[trigger] mask_feasible(
                    items,
                    mask,
                    optional_cost_cap,
                    coverage_cap,
                ) implies holds_at_least(
                m2.states,
                mask_cost(items, mask),
                mask_coverage(items, mask),
                mask_gain(items, mask),
            ) by {
                let prefix = mask.drop_last();
                lemma_mask_nonneg(items, prefix);
                assert(mask_feasible(items, prefix, optional_cost_cap, coverage_cap));
                let j = choose|j: int|
                    0 <= j < m.states.len() && #[trigger] m.states[j].cost == mask_cost(items, prefix)
                        && m.states[j].coverage_cost == mask_coverage(items, prefix) && m.states[j].gain
                        >= mask_gain(items, prefix);
                if mask.last() {
                    assert(extension_fits(items[k], m.states[j], optional_cost_cap, coverage_cap));
                    let e = m.states[j];
                    let j2 = choose|j2: int|
                        0 <= j2 < m2.states.len() && #[trigger] m2.states[j2].cost == e.cost + items[k].cost
                            && m2.states[j2].coverage_cost == extended_coverage(items[k], e)
                            && m2.states[j2].gain >= e.gain + items[k].gain;
                    assert(m2.states[j2].cost == mask_cost(items, mask));
                } else {
                    lemma_dominates_holds(
                        m2.states,
                        m.states,
                        mask_cost(items, prefix),
                        mask_coverage(items, prefix),
                        mask_gain(items, prefix),
                    );
                }
            }
            lemma_items(items, optional_cost_cap, coverage_cap, m2, k + 1);
        }
    }
}

/// The best state has the largest gain of all states.
proof fn lemma_best_is_max(s: Seq<DpEntryView>, j: int)
    requires
        1 <= j <= s.len(),
    ensures
        forall|i: int| 0 <= i < j ==> dp_best_upto(s, j).gain >= #[trigger] s[i].gain,
        exists|i: int| 0 <= i < j && dp_best_upto(s, j) == s[i],
    decreases j,
{
    if j > 1 {
        lemma_best_is_max(s, j - 1);
    } else {
        assert(dp_best_upto(s, 1) == s[0]);
    }
}

/// The structured program is exact: when it runs to completion, no choice of
/// items within both caps has more gain than the state it reports.
pub proof fn lemma_structured_dp_optimal(items: Seq<DpItemV1>, optional_cost_cap: u64, coverage_cap: u64)
    ensures
        ({
            let last = run_items(items, optional_cost_cap, coverage_cap, dp_initial_run(), 0);
            last.stop is None ==> {
                &&& last.states.len() > 0
                &&& forall|mask: Seq<bool>|
                    mask.len() == items.len() && #[trigger] mask_feasible(items, mask, optional_cost_cap, coverage_cap)
                        ==> mask_gain(items, mask) <= dp_best_upto(last.states, last.states.len() as int).gain
            }
        }),
{
    let m0 = dp_initial_run();
    assert forall|mask: Seq<bool>|
        mask.len() == 0 && #[trigger] mask_feasible(items, mask, optional_cost_cap, coverage_cap) implies holds_at_least(
        m0.states,
        mask_cost(items, mask),
        mask_coverage(items, mask),
        mask_gain(items, mask),
    ) by {
        assert(m0.states[0].cost == 0);
    }
    lemma_items(items, optional_cost_cap, coverage_cap, m0, 0);
    let last = run_items(items, optional_cost_cap, coverage_cap, m0, 0);
    if last.stop is None {
        let none = Seq::new(items.len(), |i: int| false);
        assert(mask_cost(items, none) == 0 && mask_coverage(items, none) == 0) by {
            lemma_none_mask(items, items.len() as int);
        }
        assert(mask_feasible(items, none, optional_cost_cap, coverage_cap));
        assert(last.states.len() > 0);
        lemma_best_is_max(last.states, last.states.len() as int);
        assert forall|mask: Seq<bool>|
            mask.len() == items.len() && #[trigger] mask_feasible(items, mask, optional_cost_cap, coverage_cap)
                implies mask_gain(items, mask) <= dp_best_upto(last.states, last.states.len() as int).gain by {
            let j = choose|j: int|
                0 <= j < last.states.len() && #[trigger] last.states[j].cost == mask_cost(items, mask)
                    && last.states[j].coverage_cost == mask_coverage(items, mask) && last.states[j].gain
                    >= mask_gain(items, mask);
        }
    }
}

proof fn lemma_none_mask(items: Seq<DpItemV1>, n: int)
    requires
        0 <= n,
    ensures
        mask_cost(items, Seq::new(n as nat, |i: int| false)) == 0,
        mask_coverage(items, Seq::new(n as nat, |i: int| false)) == 0,
    decreases n,
{
    if n > 0 {
        lemma_none_mask(items, n - 1);
        assert(Seq::new(n as nat, |i: int| false).drop_last() =~= Seq::new((n - 1) as nat, |i: int| false));
    }
}

/// Total cost of the items at the given indices.
pub open spec fn indices_cost(items: Seq<DpItemV1>, idx: Seq<usize>) -> int
    decreases idx.len(),
{
    if idx.len() == 0 {
        0
    } else {
        indices_cost(items, idx.drop_last()) + items[idx.last() as int].cost
    }
}

/// Coverage-only cost of the items at the given indices.
pub open spec fn indices_coverage(items: Seq<DpItemV1>, idx: Seq<usize>) -> int
    decreases idx.len(),
{
    if idx.len() == 0 {
        0
    } else {
        indices_coverage(items, idx.drop_last()) + if items[idx.last() as int].coverage_only {
            items[idx.last() as int].cost as int
        } else {
            0
        }
    }
}

/// Total gain of the items at the given indices.
pub open spec fn indices_gain(items: Seq<DpItemV1>, idx: Seq<usize>) -> int
    decreases idx.len(),
{
    if idx.len() == 0 {
        0
    } else {
        indices_gain(items, idx.drop_last()) + items[idx.last() as int].gain
    }
}

/// A state is a real choice: strictly increasing item indices below `bound`,
/// whose cost, coverage-only cost and gain it records, within both caps.
pub open spec fn entry_sound(
    items: Seq<DpItemV1>,
    e: DpEntryView,
    bound: int,
    optional_cost_cap: u64,
    coverage_cap: u64,
) -> bool {
    &&& forall|a: int, b: int| 0 <= a < b < e.indices.len() ==> e.indices[a] < e.indices[b]
    &&& forall|a: int| 0 <= a < e.indices.len() ==> e.indices[a] < bound
    &&& e.cost == indices_cost(items, e.indices)
    &&& e.coverage_cost == indices_coverage(items, e.indices)
    &&& e.gain == indices_gain(items, e.indices)
    &&& e.cost <= optional_cost_cap
    &&& e.coverage_cost <= coverage_cap
}

pub open spec fn all_sound(
    items: Seq<DpItemV1>,
    s: Seq<DpEntryView>,
    bound: int,
    optional_cost_cap: u64,
    coverage_cap: u64,
) -> bool {
    forall|q: int| 0 <= q < s.len() ==> entry_sound(items, #[trigger] s[q], bound, optional_cost_cap, coverage_cap)
}

proof fn lemma_step_sound(
    items: Seq<DpItemV1>,
    k: int,
    optional_cost_cap: u64,
    coverage_cap: u64,
    m: DpRunView,
    e: DpEntryView,
)
    requires
        items.len() <= usize::MAX,
        0 <= k < items.len(),
        keys_sorted(m.states),
        m.stop is None,
        all_sound(items, m.states, k + 1, optional_cost_cap, coverage_cap),
        entry_sound(items, e, k, optional_cost_cap, coverage_cap),
    ensures
        all_sound(
            items,
            dp_step(items, k, optional_cost_cap, coverage_cap, m, e).states,
            k + 1,
            optional_cost_cap,
            coverage_cap,
        ),
{
    let m2 = dp_step(items, k, optional_cost_cap, coverage_cap, m, e);
    if m.attempts != STRUCTURED_DP_TRANSITION_CAP_V1 {
        let item = items[k];
        let next_cost = e.cost + item.cost;
        let next_coverage = extended_coverage(item, e);
        if next_cost <= optional_cost_cap && next_coverage <= coverage_cap && e.gain + item.gain <= u64::MAX {
            let candidate = DpEntryView {
                cost: next_cost as u64,
                coverage_cost: next_coverage as u64,
                gain: (e.gain + item.gain) as u64,
                indices: e.indices.push(k as usize),
            };
            assert(candidate.indices.drop_last() =~= e.indices);
            assert(candidate.indices.last() as int == k);
            assert forall|a: int, b: int| 0 <= a < b < candidate.indices.len() implies candidate.indices[a]
                < candidate.indices[b] by {
                if b == candidate.indices.len() - 1 {
                    assert(candidate.indices[a] == e.indices[a]);
                } else {
                    assert(candidate.indices[a] == e.indices[a]);
                    assert(candidate.indices[b] == e.indices[b]);
                }
            }
            assert forall|a: int| 0 <= a < candidate.indices.len() implies candidate.indices[a] < k + 1 by {
                if a < e.indices.len() {
                    assert(candidate.indices[a] == e.indices[a]);
                }
            }
            assert(indices_cost(items, candidate.indices) == indices_cost(items, e.indices) + items[k].cost);
            assert(indices_gain(items, candidate.indices) == indices_gain(items, e.indices) + items[k].gain);
            assert(indices_coverage(items, candidate.indices) == extended_coverage(items[k], e));
            assert(entry_sound(items, candidate, k + 1, optional_cost_cap, coverage_cap));
            lemma_store(m.states, candidate);
            let st = key_store(m.states, candidate);
            assert forall|q: int| 0 <= q < st.len() implies entry_sound(
                items,
                #[trigger] st[q],
                k + 1,
                optional_cost_cap,
                coverage_cap,
            ) by {
                if st[q] != candidate {
                    let i = choose|i: int| 0 <= i < m.states.len() && st[q] == m.states[i];
                    assert(entry_sound(items, m.states[i], k + 1, optional_cost_cap, coverage_cap));
                }
            }
        }
    }
}

proof fn lemma_pass_sound(
    items: Seq<DpItemV1>,
    k: int,
    optional_cost_cap: u64,
    coverage_cap: u64,
    snapshot: Seq<DpEntryView>,
    m: DpRunView,
    i: int,
)
    requires
        items.len() <= usize::MAX,
        0 <= k < items.len(),
        0 <= i <= snapshot.len(),
        keys_sorted(m.states),
        m.stop is None,
        all_sound(items, m.states, k + 1, optional_cost_cap, coverage_cap),
        all_sound(items, snapshot, k, optional_cost_cap, coverage_cap),
    ensures
        all_sound(
            items,
            run_snapshot(items, k, optional_cost_cap, coverage_cap, snapshot, m, i).states,
            k + 1,
            optional_cost_cap,
            coverage_cap,
        ),
    decreases snapshot.len() - i,
{
    if i < snapshot.len() {
        let m2 = dp_step(items, k, optional_cost_cap, coverage_cap, m, snapshot[i]);
        lemma_step_sound(items, k, optional_cost_cap, coverage_cap, m, snapshot[i]);
        lemma_step(items, k, optional_cost_cap, coverage_cap, m, snapshot[i]);
        if m2.stop is None {
            lemma_pass_sound(items, k, optional_cost_cap, coverage_cap, snapshot, m2, i + 1);
        } else {
            assert(run_snapshot(items, k, optional_cost_cap, coverage_cap, snapshot, m2, i + 1) == m2);
        }
    }
}

proof fn lemma_items_sound(items: Seq<DpItemV1>, optional_cost_cap: u64, coverage_cap: u64, m: DpRunView, k: int)
    requires
        items.len() <= usize::MAX,
        0 <= k <= items.len(),
        keys_sorted(m.states),
        m.stop is None,
        all_sound(items, m.states, k, optional_cost_cap, coverage_cap),
    ensures
        all_sound(
            items,
            run_items(items, optional_cost_cap, coverage_cap, m, k).states,
            items.len() as int,
            optional_cost_cap,
            coverage_cap,
        ),
    decreases items.len() - k,
{
    if k < items.len() {
        assert(all_sound(items, m.states, k + 1, optional_cost_cap, coverage_cap)) by {
            assert forall|q: int| 0 <= q < m.states.len() implies entry_sound(
                items,
                #[trigger] m.states[q],
                k + 1,
                optional_cost_cap,
                coverage_cap,
            ) by {
                assert(entry_sound(items, m.states[q], k, optional_cost_cap, coverage_cap));
            }
        }
        let m2 = run_snapshot(items, k, optional_cost_cap, coverage_cap, m.states, m, 0);
        lemma_pass_sound(items, k, optional_cost_cap, coverage_cap, m.states, m, 0);
        lemma_pass(items, k, optional_cost_cap, coverage_cap, m.states, m, 0);
        if m2.stop is None {
            lemma_items_sound(items, optional_cost_cap, coverage_cap, m2, k + 1);
        }
    } else {
        assert forall|q: int| 0 <= q < m.states.len() implies entry_sound(
            items,
            #[trigger] m.states[q],
            items.len() as int,
            optional_cost_cap,
            coverage_cap,
        ) by {
            assert(entry_sound(items, m.states[q], k, optional_cost_cap, coverage_cap));
        }
    }
}

/// The structured program reports a real choice: when it runs to completion
/// the reported state's indices strictly increase, and its cost, coverage-only
/// cost and gain are those of the items it names, within both caps.
pub proof fn lemma_structured_dp_sound(items: Seq<DpItemV1>, optional_cost_cap: u64, coverage_cap: u64)
    requires
        items.len() <= usize::MAX,
    ensures
        ({
            let last = run_items(items, optional_cost_cap, coverage_cap, dp_initial_run(), 0);
            last.stop is None && last.states.len() > 0 ==> entry_sound(
                items,
                dp_best_upto(last.states, last.states.len() as int),
                items.len() as int,
                optional_cost_cap,
                coverage_cap,
            )
        }),
{
    let m0 = dp_initial_run();
    assert(entry_sound(items, m0.states[0], 0, optional_cost_cap, coverage_cap));
    lemma_items_sound(items, optional_cost_cap, coverage_cap, m0, 0);
    let last = run_items(items, optional_cost_cap, coverage_cap, m0, 0);
    if last.stop is None && last.states.len() > 0 {
        lemma_best_is_max(last.states, last.states.len() as int);
        let i = choose|i: int|
            0 <= i < last.states.len() && dp_best_upto(last.states, last.states.len() as int) == last.states[i];
        assert(entry_sound(items, last.states[i], items.len() as int, optional_cost_cap, coverage_cap));
    }
}

proof fn lemma_dp_final_order_trans(x: DpEntryView, y: DpEntryView, z: DpEntryView)
    requires
        dp_final_order(x, y) == -1,
        dp_final_order(y, z) == -1,
    ensures
        dp_final_order(x, z) == -1,
{
    if index_order(x.indices, y.indices) == -1 && index_order(y.indices, z.indices) == -1 {
        lemma_index_order_trans(x.indices, y.indices, z.indices);
    }
    if index_order(x.indices, y.indices) == 0 {
        lemma_index_order_zero(x.indices, y.indices);
    }
    if index_order(y.indices, z.indices) == 0 {
        lemma_index_order_zero(y.indices, z.indices);
    }
}

proof fn lemma_dp_best_upto_first(s: Seq<DpEntryView>, j: int)
    requires
        1 <= j <= s.len(),
    ensures
        forall|k: int| 0 <= k < j ==> dp_final_order(#[trigger] s[k], dp_best_upto(s, j)) != -1,
        exists|k: int| 0 <= k < j && s[k] == dp_best_upto(s, j),
    decreases j,
{
    lemma_index_order_refl(s[j - 1].indices);
    if j == 1 {
        assert(s[0] == dp_best_upto(s, 1));
    } else {
        lemma_dp_best_upto_first(s, j - 1);
        let prev = dp_best_upto(s, j - 1);
        if dp_final_order(s[j - 1], prev) == -1 {
            assert forall|k: int| 0 <= k < j implies dp_final_order(#[trigger] s[k], dp_best_upto(s, j)) != -1 by {
                if k < j - 1 && dp_final_order(s[k], s[j - 1]) == -1 {
                    lemma_dp_final_order_trans(s[k], s[j - 1], prev);
                }
            }
            assert(s[j - 1] == dp_best_upto(s, j));
        } else {
            let w = choose|k: int| 0 <= k < j - 1 && s[k] == prev;
            assert(s[w] == dp_best_upto(s, j));
        }
    }
}

/// The tie-break of the structured program: when it runs to completion, the
/// state it reports is one it retained, and no retained state comes before
/// it in the final order (higher gain, then lower optional cost, lower
/// coverage-only cost, fewer packets, smaller index list).
pub proof fn lemma_structured_dp_tie_break(items: Seq<DpItemV1>, optional_cost_cap: u64, coverage_cap: u64)
    ensures
        ({
            let last = run_items(items, optional_cost_cap, coverage_cap, dp_initial_run(), 0);
            let best = dp_best_upto(last.states, last.states.len() as int);
            last.stop is None ==> {
                &&& exists|k: int| 0 <= k < last.states.len() && last.states[k] == best
                &&& forall|k: int|
                    0 <= k < last.states.len() ==> dp_final_order(#[trigger] last.states[k], best) != -1
            }
        }),
{
    lemma_structured_dp_optimal(items, optional_cost_cap, coverage_cap);
    let last = run_items(items, optional_cost_cap, coverage_cap, dp_initial_run(), 0);
    if last.stop is None {
        lemma_dp_best_upto_first(last.states, last.states.len() as int);
    }
}

} // verus!
