//! The closed order-aware beam over a selection problem's optional packets:
//! search states, their canonical order, the bounded per-depth frontier, and
//! the search itself with its transition and depth caps.

use vstd::prelude::*;
use vstd::set_lib::{lemma_int_range, lemma_len_subset, set_int_range};
use crate::bounded_selector_challenger::{
    challenger_mode_for, contains_packet, has_packet, MAX_EXACT_SELECTION_ORACLE_OPTIONAL_PACKETS_V1, int_order, then_order, BoundedSelectorChallengerErrorV1,
    BoundedSelectorNeedsMoreV1, BoundedSelectorOutcomeV1, BoundedSelectorPacketIdV1,
    BoundedSelectorPlanSourceV1, BoundedSelectorSelectedPlanV1, NeedsMoreReasonV1,
    BoundedSelectorChallengerModeV1, BoundedSelectorObjectiveRelationV1, BoundedSelectorSearchBoundsV1,
    BoundedSelectorSearchObservationV1, FrozenBoundedSelectorPairV1, objective_relation,
    selected_cost_relation, selected_plan_is_better, spec_objective_relation, spec_outcome_valid,
    spec_selected_cost_relation, spec_selected_plan_is_better, validate_outcome,
    BOUNDED_SELECTOR_CHALLENGER_BEAM_WIDTH_V1, BOUNDED_SELECTOR_CHALLENGER_MAX_DEPTH_V1,
    BOUNDED_SELECTOR_CHALLENGER_TRANSITION_CAP_V1,
};
use crate::selection_problem::{
    applied_coverage, apply_packet, lemma_applied_coverage_len, marginal_score, marginal_score_spec,
    FacetCoverageV1, IntactPacketV1, SelectionFacetV1, SelectionProblemV1,
};

verus! {

/// One search state: the optional packets taken, in acceptance order, with the
/// facet coverage, objective gain and costs they reach.
#[derive(Debug)]
pub struct BeamStateV1 {
    pub selected: Vec<bool>,
    pub acceptance_order: Vec<usize>,
    pub coverage: Vec<FacetCoverageV1>,
    pub objective_gain: u64,
    pub optional_cost: u64,
    pub coverage_only_cost: u64,
}

/// The mathematical content of a search state.
pub struct BeamView {
    pub selected: Seq<bool>,
    pub order: Seq<usize>,
    pub coverage: Seq<FacetCoverageV1>,
    pub gain: u64,
    pub cost: u64,
    pub coverage_only_cost: u64,
}

impl View for BeamStateV1 {
    type V = BeamView;

    open spec fn view(&self) -> BeamView {
        BeamView {
            selected: self.selected@,
            order: self.acceptance_order@,
            coverage: self.coverage@,
            gain: self.objective_gain,
            cost: self.optional_cost,
            coverage_only_cost: self.coverage_only_cost,
        }
    }
}

/// The views of a list of states.
pub open spec fn views(states: Seq<BeamStateV1>) -> Seq<BeamView> {
    states.map_values(|s: BeamStateV1| s@)
}

/// Lexicographic three-way comparison of index lists: -1, 0 or 1.
pub open spec fn index_order(a: Seq<usize>, b: Seq<usize>) -> int
    decreases a.len(),
{
    if a.len() == 0 {
        if b.len() == 0 {
            0
        } else {
            -1
        }
    } else if b.len() == 0 {
        1
    } else {
        then_order(int_order(a[0] as int, b[0] as int), index_order(a.drop_first(), b.drop_first()))
    }
}

/// An index list compares equal to itself.
pub proof fn lemma_index_order_refl(a: Seq<usize>)
    ensures
        index_order(a, a) == 0,
    decreases a.len(),
{
    if a.len() > 0 {
        lemma_index_order_refl(a.drop_first());
    }
}

/// Index lists that compare equal are equal.
pub proof fn lemma_index_order_zero(a: Seq<usize>, b: Seq<usize>)
    requires
        index_order(a, b) == 0,
    ensures
        a == b,
    decreases a.len(),
{
    if a.len() > 0 {
        lemma_index_order_zero(a.drop_first(), b.drop_first());
        assert(a =~= seq![a[0]] + a.drop_first());
        assert(b =~= seq![b[0]] + b.drop_first());
    } else {
        assert(a =~= b);
    }
}

/// The index-list order is transitive.
pub proof fn lemma_index_order_trans(a: Seq<usize>, b: Seq<usize>, c: Seq<usize>)
    requires
        index_order(a, b) == -1,
        index_order(b, c) == -1,
    ensures
        index_order(a, c) == -1,
    decreases a.len(),
{
    if a.len() > 0 && b.len() > 0 && c.len() > 0 && a[0] == b[0] && b[0] == c[0] {
        lemma_index_order_trans(a.drop_first(), b.drop_first(), c.drop_first());
    }
}

/// The canonical beam order is transitive.
proof fn lemma_beam_state_order_trans(x: BeamView, y: BeamView, z: BeamView)
    requires
        beam_state_order(x, y) == -1,
        beam_state_order(y, z) == -1,
    ensures
        beam_state_order(x, z) == -1,
{
    if index_order(x.order, y.order) == -1 && index_order(y.order, z.order) == -1 {
        lemma_index_order_trans(x.order, y.order, z.order);
    }
    if index_order(x.order, y.order) == 0 {
        lemma_index_order_zero(x.order, y.order);
    }
    if index_order(y.order, z.order) == 0 {
        lemma_index_order_zero(y.order, z.order);
    }
}

/// The canonical beam order: higher gain first, then lower optional cost,
/// lower coverage-only cost, shorter acceptance order, and the
/// lexicographically smaller acceptance order.
pub open spec fn beam_state_order(left: BeamView, right: BeamView) -> int {
    then_order(
        int_order(right.gain as int, left.gain as int),
        then_order(
            int_order(left.cost as int, right.cost as int),
            then_order(
                int_order(left.coverage_only_cost as int, right.coverage_only_cost as int),
                then_order(
                    int_order(left.order.len() as int, right.order.len() as int),
                    index_order(left.order, right.order),
                ),
            ),
        ),
    )
}

pub open spec fn spec_beam_state_is_better(candidate: BeamView, current: BeamView) -> bool {
    beam_state_order(candidate, current) == -1
}

/// Of two states over the same packet set, the one kept: lower coverage-only
/// cost, then the lexicographically smaller acceptance order.
pub open spec fn spec_same_set_is_better(candidate: BeamView, current: BeamView) -> bool {
    then_order(
        int_order(candidate.coverage_only_cost as int, current.coverage_only_cost as int),
        index_order(candidate.order, current.order),
    ) == -1
}

pub fn index_order_exec(a: &Vec<usize>, b: &Vec<usize>) -> (r: i8)
    ensures
        r as int == index_order(a@, b@),
{
    let mut i: usize = 0;
    proof {
        assert(a@.skip(0) == a@);
        assert(b@.skip(0) == b@);
    }
    while i < a.len() && i < b.len()
        invariant
            i <= a.len() && i <= b.len(),
            index_order(a@, b@) == index_order(a@.skip(i as int), b@.skip(i as int)),
        decreases a.len() - i,
    {
        proof {
            assert(a@.skip(i as int)[0] == a@[i as int]);
            assert(b@.skip(i as int)[0] == b@[i as int]);
            assert(a@.skip(i as int).drop_first() == a@.skip(i + 1));
            assert(b@.skip(i as int).drop_first() == b@.skip(i + 1));
        }
        if a[i] < b[i] {
            return -1;
        }
        if a[i] > b[i] {
            return 1;
        }
        i = i + 1;
    }
    if i < a.len() {
        1
    } else if i < b.len() {
        -1
    } else {
        proof {
            assert(a@.skip(i as int) =~= Seq::<usize>::empty());
            assert(b@.skip(i as int) =~= Seq::<usize>::empty());
        }
        0
    }
}

fn u64_order(a: u64, b: u64) -> (r: i8)
    ensures
        r as int == int_order(a as int, b as int),
{
    if a < b {
        -1
    } else if a > b {
        1
    } else {
        0
    }
}

fn usize_order(a: usize, b: usize) -> (r: i8)
    ensures
        r as int == int_order(a as int, b as int),
{
    if a < b {
        -1
    } else if a > b {
        1
    } else {
        0
    }
}

pub fn beam_state_is_better(candidate: &BeamStateV1, current: &BeamStateV1) -> (r: bool)
    ensures
        r == spec_beam_state_is_better(candidate@, current@),
{
    let c = u64_order(current.objective_gain, candidate.objective_gain);
    if c != 0 {
        return c == -1;
    }
    let c = u64_order(candidate.optional_cost, current.optional_cost);
    if c != 0 {
        return c == -1;
    }
    let c = u64_order(candidate.coverage_only_cost, current.coverage_only_cost);
    if c != 0 {
        return c == -1;
    }
    let c = usize_order(candidate.acceptance_order.len(), current.acceptance_order.len());
    if c != 0 {
        return c == -1;
    }
    index_order_exec(&candidate.acceptance_order, &current.acceptance_order) == -1
}

pub fn same_set_is_better(candidate: &BeamStateV1, current: &BeamStateV1) -> (r: bool)
    ensures
        r == spec_same_set_is_better(candidate@, current@),
{
    let c = u64_order(candidate.coverage_only_cost, current.coverage_only_cost);
    if c != 0 {
        return c == -1;
    }
    index_order_exec(&candidate.acceptance_order, &current.acceptance_order) == -1
}

/// An element-by-element copy.
pub fn copy_vec<T: Copy>(v: &Vec<T>) -> (r: Vec<T>)
    ensures
        r@ == v@,
{
    let mut r: Vec<T> = Vec::new();
    let mut i: usize = 0;
    while i < v.len()
        invariant
            i <= v.len(),
            r@ == v@.subrange(0, i as int),
        decreases v.len() - i,
    {
        r.push(v[i]);
        i = i + 1;
        proof {
            assert(r@ =~= v@.subrange(0, i as int));
        }
    }
    proof {
        assert(r@ =~= v@);
    }
    r
}

pub fn bools_equal(a: &Vec<bool>, b: &Vec<bool>) -> (r: bool)
    ensures
        r == (a@ == b@),
{
    if a.len() != b.len() {
        return false;
    }
    let mut i: usize = 0;
    while i < a.len()
        invariant
            i <= a.len(),
            a.len() == b.len(),
            forall|k: int| 0 <= k < i ==> a@[k] == b@[k],
        decreases a.len() - i,
    {
        if a[i] != b[i] {
            return false;
        }
        i = i + 1;
    }
    proof {
        assert(a@ =~= b@);
    }
    true
}

pub fn clone_state(s: &BeamStateV1) -> (r: BeamStateV1)
    ensures
        r@ == s@,
{
    BeamStateV1 {
        selected: copy_vec(&s.selected),
        acceptance_order: copy_vec(&s.acceptance_order),
        coverage: copy_vec(&s.coverage),
        objective_gain: s.objective_gain,
        optional_cost: s.optional_cost,
        coverage_only_cost: s.coverage_only_cost,
    }
}

/// First state from `i` on over the same packet set.
pub open spec fn first_same_set(states: Seq<BeamView>, selected: Seq<bool>, i: int) -> Option<int>
    decreases states.len() - i,
{
    if i < 0 || i >= states.len() {
        None
    } else if states[i].selected == selected {
        Some(i)
    } else {
        first_same_set(states, selected, i + 1)
    }
}

/// Where a state goes in a list kept in beam order: before the first state
/// from `i` on that it beats, else at the end.
pub open spec fn insert_position(states: Seq<BeamView>, candidate: BeamView, i: int) -> int
    decreases states.len() - i,
{
    if i < 0 || i >= states.len() {
        states.len() as int
    } else if spec_beam_state_is_better(candidate, states[i]) {
        i
    } else {
        insert_position(states, candidate, i + 1)
    }
}

pub proof fn lemma_insert_position_bound(states: Seq<BeamView>, candidate: BeamView, i: int)
    requires
        0 <= i <= states.len(),
    ensures
        i <= insert_position(states, candidate, i) <= states.len(),
    decreases states.len() - i,
{
    if i < states.len() && !spec_beam_state_is_better(candidate, states[i]) {
        lemma_insert_position_bound(states, candidate, i + 1);
    }
}

/// The next frontier after one candidate: it replaces a same-set state it
/// beats, or joins when no state has its set, in beam order; the frontier
/// keeps at most the beam width.
pub open spec fn insert_bounded(states: Seq<BeamView>, candidate: BeamView) -> Seq<BeamView> {
    let base = match first_same_set(states, candidate.selected, 0) {
        Some(p) => if spec_same_set_is_better(candidate, states[p]) {
            let rest = states.remove(p);
            rest.insert(insert_position(rest, candidate, 0), candidate)
        } else {
            states
        },
        None => states.insert(insert_position(states, candidate, 0), candidate),
    };
    if base.len() > BOUNDED_SELECTOR_CHALLENGER_BEAM_WIDTH_V1 {
        base.subrange(0, BOUNDED_SELECTOR_CHALLENGER_BEAM_WIDTH_V1 as int)
    } else {
        base
    }
}

fn find_same_set(states: &Vec<BeamStateV1>, selected: &Vec<bool>) -> (r: Option<usize>)
    ensures
        r matches Some(p) ==> p < states.len() && first_same_set(views(states@), selected@, 0)
            == Some(p as int),
        r is None ==> first_same_set(views(states@), selected@, 0) is None,
{
    let mut i: usize = 0;
    while i < states.len()
        invariant
            i <= states.len(),
            first_same_set(views(states@), selected@, 0) == first_same_set(
                views(states@),
                selected@,
                i as int,
            ),
        decreases states.len() - i,
    {
        proof {
            assert(views(states@)[i as int] == states@[i as int]@);
        }
        if bools_equal(&states[i].selected, selected) {
            return Some(i);
        }
        i = i + 1;
    }
    None
}

fn find_insert_position(states: &Vec<BeamStateV1>, candidate: &BeamStateV1) -> (r: usize)
    ensures
        r as int == insert_position(views(states@), candidate@, 0),
        r <= states.len(),
{
    let mut i: usize = 0;
    while i < states.len()
        invariant
            i <= states.len(),
            insert_position(views(states@), candidate@, 0) == insert_position(
                views(states@),
                candidate@,
                i as int,
            ),
        decreases states.len() - i,
    {
        proof {
            assert(views(states@)[i as int] == states@[i as int]@);
        }
        if beam_state_is_better(candidate, &states[i]) {
            return i;
        }
        i = i + 1;
    }
    i
}

pub fn insert_bounded_beam_state(states: &mut Vec<BeamStateV1>, candidate: BeamStateV1)
    ensures
        views(final(states)@) == insert_bounded(views(old(states)@), candidate@),
{
    let ghost s0 = views(states@);
    let ghost c = candidate@;
    match find_same_set(states, &candidate.selected) {
        Some(p) => {
            if same_set_is_better(&candidate, &states[p]) {
                proof {
                    assert(s0[p as int] == states@[p as int]@);
                }
                let _ = states.remove(p);
                proof {
                    assert(views(states@) =~= s0.remove(p as int));
                }
                let k = find_insert_position(states, &candidate);
                states.insert(k, candidate);
                proof {
                    assert(views(states@) =~= s0.remove(p as int).insert(k as int, c));
                }
            } else {
                proof {
                    assert(s0[p as int] == states@[p as int]@);
                }
            }
        },
        None => {
            let k = find_insert_position(states, &candidate);
            states.insert(k, candidate);
            proof {
                assert(views(states@) =~= s0.insert(k as int, c));
            }
        },
    }
    let ghost base = views(states@);
    if states.len() > BOUNDED_SELECTOR_CHALLENGER_BEAM_WIDTH_V1 {
        states.truncate(BOUNDED_SELECTOR_CHALLENGER_BEAM_WIDTH_V1);
        proof {
            assert(views(states@) =~= base.subrange(0, BOUNDED_SELECTOR_CHALLENGER_BEAM_WIDTH_V1 as int));
        }
    }
}

/// A state over `n` optional packets and `facets` facets.
pub open spec fn state_wf(s: BeamView, n: int, facets: int) -> bool {
    &&& s.selected.len() == n
    &&& s.coverage.len() == facets
    &&& forall|k: int| 0 <= k < s.order.len() ==> (#[trigger] s.order[k] as int) < n
    &&& forall|k: int| 0 <= k < s.order.len() ==> s.selected[#[trigger] s.order[k] as int]
    &&& s.order.no_duplicates()
}

/// Distinct positions below `n` number at most `n`.
proof fn lemma_distinct_below_len(s: Seq<usize>, n: int)
    requires
        n >= 0,
        s.no_duplicates(),
        forall|k: int| 0 <= k < s.len() ==> (#[trigger] s[k] as int) < n,
    ensures
        s.len() <= n,
{
    let t = s.map_values(|x: usize| x as int);
    assert forall|a: int, b: int| 0 <= a < t.len() && 0 <= b < t.len() && a != b implies t[a] != t[b] by {
        assert(s[a] != s[b]);
    }
    assert(t.no_duplicates());
    t.unique_seq_to_set();
    lemma_int_range(0, n);
    assert forall|x: int| t.to_set().contains(x) implies set_int_range(0, n).contains(x) by {
        let k = choose|k: int| 0 <= k < t.len() && t[k] == x;
        assert(s[k] as int == x);
    }
    lemma_len_subset(t.to_set(), set_int_range(0, n));
}

/// The best state is the start state or better than it, fits the optional
/// budget and the coverage limit, the
/// retained high water counts at least the start state, and the transition
/// cap is reported only once every attempt it allows is spent.
pub open spec fn run_limits(run: BeamRunState, optional_budget: u64, coverage_limit: u64, start: BeamView) -> bool {
    &&& run.best@ == start || spec_beam_state_is_better(run.best@, start)
    &&& run.best@.cost <= optional_budget
    &&& run.best@.coverage_only_cost <= coverage_limit
    &&& run.high_water >= 1
    &&& run.cap_reached ==> run.attempts == BOUNDED_SELECTOR_CHALLENGER_TRANSITION_CAP_V1
}

pub open spec fn all_wf(states: Seq<BeamView>, n: int, facets: int) -> bool {
    forall|k: int| 0 <= k < states.len() ==> state_wf(#[trigger] states[k], n, facets)
}

/// Insertion keeps well-formed states well formed and the frontier within
/// the beam width.
pub proof fn lemma_insert_bounded_wf(states: Seq<BeamView>, candidate: BeamView, n: int, facets: int)
    requires
        all_wf(states, n, facets),
        state_wf(candidate, n, facets),
        states.len() <= BOUNDED_SELECTOR_CHALLENGER_BEAM_WIDTH_V1,
    ensures
        all_wf(insert_bounded(states, candidate), n, facets),
        insert_bounded(states, candidate).len() <= BOUNDED_SELECTOR_CHALLENGER_BEAM_WIDTH_V1,
{
    let base = match first_same_set(states, candidate.selected, 0) {
        Some(p) => if spec_same_set_is_better(candidate, states[p]) {
            let rest = states.remove(p);
            rest.insert(insert_position(rest, candidate, 0), candidate)
        } else {
            states
        },
        None => states.insert(insert_position(states, candidate, 0), candidate),
    };
    lemma_first_same_set_bound(states, candidate.selected, 0);
    match first_same_set(states, candidate.selected, 0) {
        Some(p) => {
            if spec_same_set_is_better(candidate, states[p]) {
                let rest = states.remove(p);
                assert(all_wf(rest, n, facets)) by {
                    assert forall|k: int| 0 <= k < rest.len() implies state_wf(#[trigger] rest[k], n, facets) by {
                        if k < p {
                            assert(rest[k] == states[k]);
                        } else {
                            assert(rest[k] == states[k + 1]);
                        }
                    }
                }
                let q = insert_position(rest, candidate, 0);
                lemma_insert_position_bound(rest, candidate, 0);
                lemma_insert_wf(rest, q, candidate, n, facets);
            }
        },
        None => {
            let q = insert_position(states, candidate, 0);
            lemma_insert_position_bound(states, candidate, 0);
            lemma_insert_wf(states, q, candidate, n, facets);
        },
    }
    assert(all_wf(base, n, facets));
    if base.len() > BOUNDED_SELECTOR_CHALLENGER_BEAM_WIDTH_V1 {
        let cut = base.subrange(0, BOUNDED_SELECTOR_CHALLENGER_BEAM_WIDTH_V1 as int);
        assert forall|k: int| 0 <= k < cut.len() implies state_wf(#[trigger] cut[k], n, facets) by {
            assert(cut[k] == base[k]);
        }
    }
}

/// Every state's acceptance order has length `len`.
pub open spec fn all_depth(states: Seq<BeamView>, len: int) -> bool {
    forall|k: int| 0 <= k < states.len() ==> (#[trigger] states[k]).order.len() == len
}

/// Insertion keeps every acceptance order at one length.
proof fn lemma_insert_bounded_depth(states: Seq<BeamView>, candidate: BeamView, len: int)
    requires
        all_depth(states, len),
        candidate.order.len() == len,
    ensures
        all_depth(insert_bounded(states, candidate), len),
{
    lemma_first_same_set_bound(states, candidate.selected, 0);
    let base = match first_same_set(states, candidate.selected, 0) {
        Some(p) => if spec_same_set_is_better(candidate, states[p]) {
            let rest = states.remove(p);
            rest.insert(insert_position(rest, candidate, 0), candidate)
        } else {
            states
        },
        None => states.insert(insert_position(states, candidate, 0), candidate),
    };
    match first_same_set(states, candidate.selected, 0) {
        Some(p) => {
            if spec_same_set_is_better(candidate, states[p]) {
                let rest = states.remove(p);
                assert forall|k: int| 0 <= k < rest.len() implies (#[trigger] rest[k]).order.len() == len by {
                    if k < p {
                        assert(rest[k] == states[k]);
                    } else {
                        assert(rest[k] == states[k + 1]);
                    }
                }
                let q = insert_position(rest, candidate, 0);
                lemma_insert_position_bound(rest, candidate, 0);
                let r = rest.insert(q, candidate);
                assert forall|k: int| 0 <= k < r.len() implies (#[trigger] r[k]).order.len() == len by {
                    if k < q {
                        assert(r[k] == rest[k]);
                    } else if k > q {
                        assert(r[k] == rest[k - 1]);
                    }
                }
            }
        },
        None => {
            let q = insert_position(states, candidate, 0);
            lemma_insert_position_bound(states, candidate, 0);
            let r = states.insert(q, candidate);
            assert forall|k: int| 0 <= k < r.len() implies (#[trigger] r[k]).order.len() == len by {
                if k < q {
                    assert(r[k] == states[k]);
                } else if k > q {
                    assert(r[k] == states[k - 1]);
                }
            }
        },
    }
    assert(all_depth(base, len));
    if base.len() > BOUNDED_SELECTOR_CHALLENGER_BEAM_WIDTH_V1 {
        let cut = base.subrange(0, BOUNDED_SELECTOR_CHALLENGER_BEAM_WIDTH_V1 as int);
        assert forall|k: int| 0 <= k < cut.len() implies (#[trigger] cut[k]).order.len() == len by {
            assert(cut[k] == base[k]);
        }
    }
}

proof fn lemma_insert_wf(states: Seq<BeamView>, q: int, candidate: BeamView, n: int, facets: int)
    requires
        all_wf(states, n, facets),
        state_wf(candidate, n, facets),
        0 <= q <= states.len(),
    ensures
        all_wf(states.insert(q, candidate), n, facets),
        states.insert(q, candidate).len() == states.len() + 1,
{
    let r = states.insert(q, candidate);
    assert forall|k: int| 0 <= k < r.len() implies state_wf(#[trigger] r[k], n, facets) by {
        if k < q {
            assert(r[k] == states[k]);
        } else if k == q {
            assert(r[k] == candidate);
        } else {
            assert(r[k] == states[k - 1]);
        }
    }
}

proof fn lemma_first_same_set_bound(states: Seq<BeamView>, selected: Seq<bool>, i: int)
    ensures
        first_same_set(states, selected, i) matches Some(p) ==> 0 <= p < states.len(),
    decreases states.len() - i,
{
    if 0 <= i < states.len() && states[i].selected != selected {
        lemma_first_same_set_bound(states, selected, i + 1);
    }
}

/// What the search reads: facets, packets, the optional packets by position,
/// the optional token budget and the coverage-only limit.
pub struct BeamContext {
    pub facets: Seq<SelectionFacetV1>,
    pub packets: Seq<IntactPacketV1>,
    pub optional: Seq<usize>,
    pub optional_budget: u64,
    pub coverage_limit: u64,
}

/// The search's running record: best state so far, the frontier being built,
/// work counters, and whether it stopped (at the transition cap or on an
/// error).
pub struct BeamRunView {
    pub best: BeamView,
    pub next: Seq<BeamView>,
    pub attempts: u64,
    pub high_water: int,
    pub cap_reached: bool,
    pub halted: bool,
    pub error: Option<BoundedSelectorChallengerErrorV1>,
}

pub open spec fn with_next(m: BeamRunView, next: Seq<BeamView>) -> BeamRunView {
    BeamRunView {
        best: m.best,
        next,
        attempts: m.attempts,
        high_water: m.high_water,
        cap_reached: m.cap_reached,
        halted: m.halted,
        error: m.error,
    }
}

pub open spec fn with_attempts(m: BeamRunView, attempts: u64) -> BeamRunView {
    BeamRunView {
        best: m.best,
        next: m.next,
        attempts,
        high_water: m.high_water,
        cap_reached: m.cap_reached,
        halted: m.halted,
        error: m.error,
    }
}

pub open spec fn halt_with(m: BeamRunView, e: BoundedSelectorChallengerErrorV1) -> BeamRunView {
    BeamRunView {
        best: m.best,
        next: m.next,
        attempts: m.attempts,
        high_water: m.high_water,
        cap_reached: m.cap_reached,
        halted: true,
        error: Some(e),
    }
}

pub open spec fn halt_at_cap(m: BeamRunView) -> BeamRunView {
    BeamRunView {
        best: m.best,
        next: m.next,
        attempts: m.attempts,
        high_water: m.high_water,
        cap_reached: true,
        halted: true,
        error: m.error,
    }
}

/// The record after accepting a candidate: it may become the best state, it
/// joins the next frontier, and the retained-state high water follows.
pub open spec fn accept_candidate(m: BeamRunView, frontier_len: int, candidate: BeamView) -> BeamRunView {
    let next = insert_bounded(m.next, candidate);
    BeamRunView {
        best: if spec_beam_state_is_better(candidate, m.best) {
            candidate
        } else {
            m.best
        },
        next,
        attempts: m.attempts,
        high_water: if frontier_len + next.len() > m.high_water {
            frontier_len + next.len()
        } else {
            m.high_water
        },
        cap_reached: m.cap_reached,
        halted: m.halted,
        error: m.error,
    }
}

/// One transition attempt: extend state `s` by optional packet `j`.
pub open spec fn beam_step(
    ctx: BeamContext,
    frontier_len: int,
    m: BeamRunView,
    s: BeamView,
    j: int,
) -> BeamRunView {
    if s.selected[j] {
        m
    } else if m.attempts == BOUNDED_SELECTOR_CHALLENGER_TRANSITION_CAP_V1 {
        halt_at_cap(m)
    } else {
        let m1 = with_attempts(m, (m.attempts + 1) as u64);
        let packet = ctx.packets[ctx.optional[j] as int];
        let next_cost = s.cost + packet.token_upper_bound;
        if next_cost > u64::MAX {
            halt_with(m1, BoundedSelectorChallengerErrorV1::ArithmeticOverflow)
        } else if next_cost > ctx.optional_budget {
            m1
        } else {
            match marginal_score_spec(ctx.facets, s.coverage, packet.affinities@) {
                Err(e) => halt_with(m1, e),
                Ok((gain, coverage_only)) => {
                    if gain == 0 {
                        m1
                    } else {
                        let next_coverage_cost: int = if coverage_only {
                            s.coverage_only_cost + packet.token_upper_bound
                        } else {
                            s.coverage_only_cost as int
                        };
                        if next_coverage_cost > u64::MAX {
                            halt_with(m1, BoundedSelectorChallengerErrorV1::ArithmeticOverflow)
                        } else if next_coverage_cost > ctx.coverage_limit {
                            m1
                        } else if s.gain + gain > u64::MAX {
                            halt_with(m1, BoundedSelectorChallengerErrorV1::ArithmeticOverflow)
                        } else {
                            match applied_coverage(ctx.facets, s.coverage, packet.affinities@) {
                                None => halt_with(m1, BoundedSelectorChallengerErrorV1::ObjectiveContract),
                                Some(coverage) => accept_candidate(
                                    m1,
                                    frontier_len,
                                    BeamView {
                                        selected: s.selected.update(j, true),
                                        order: s.order.push(j as usize),
                                        coverage,
                                        gain: (s.gain + gain) as u64,
                                        cost: next_cost as u64,
                                        coverage_only_cost: next_coverage_cost as u64,
                                    },
                                ),
                            }
                        }
                    }
                },
            }
        }
    }
}

/// All transition attempts from state `s`, packets `j` onward.
pub open spec fn run_packets(ctx: BeamContext, frontier_len: int, m: BeamRunView, s: BeamView, j: int) -> BeamRunView
    decreases ctx.optional.len() - j,
{
    if m.halted || j < 0 || j >= ctx.optional.len() {
        m
    } else {
        run_packets(ctx, frontier_len, beam_step(ctx, frontier_len, m, s, j), s, j + 1)
    }
}

/// All expansions of one depth, frontier states `i` onward.
pub open spec fn run_states(ctx: BeamContext, frontier: Seq<BeamView>, m: BeamRunView, i: int) -> BeamRunView
    decreases frontier.len() - i,
{
    if m.halted || i < 0 || i >= frontier.len() {
        m
    } else {
        run_states(ctx, frontier, run_packets(ctx, frontier.len() as int, m, frontier[i], 0), i + 1)
    }
}

/// Up to `depth` further depths; the search stops early when a depth keeps
/// no state.
pub open spec fn run_levels(ctx: BeamContext, frontier: Seq<BeamView>, m: BeamRunView, depth: int) -> BeamRunView
    decreases depth,
{
    if m.halted || depth <= 0 {
        m
    } else {
        let m2 = run_states(ctx, frontier, with_next(m, Seq::empty()), 0);
        if m2.halted || m2.next.len() == 0 {
            m2
        } else {
            run_levels(ctx, m2.next, m2, depth - 1)
        }
    }
}

/// What the search reports of a record.
pub open spec fn summary(m: BeamRunView) -> (BeamView, u64, int, bool, bool, Option<BoundedSelectorChallengerErrorV1>) {
    (m.best, m.attempts, m.high_water, m.cap_reached, m.halted, m.error)
}

pub proof fn lemma_run_levels_ignores_next(
    ctx: BeamContext,
    frontier: Seq<BeamView>,
    m: BeamRunView,
    next: Seq<BeamView>,
    depth: int,
)
    ensures
        summary(run_levels(ctx, frontier, with_next(m, next), depth)) == summary(
            run_levels(ctx, frontier, m, depth),
        ),
{
    assert(with_next(with_next(m, next), Seq::empty()) == with_next(m, Seq::empty()));
}

/// The search's running record in executable form.
pub struct BeamRunState {
    pub best: BeamStateV1,
    pub next: Vec<BeamStateV1>,
    pub attempts: u64,
    pub high_water: u64,
    pub cap_reached: bool,
    pub halted: bool,
}

impl View for BeamRunState {
    type V = BeamRunView;

    open spec fn view(&self) -> BeamRunView {
        BeamRunView {
            best: self.best@,
            next: views(self.next@),
            attempts: self.attempts,
            high_water: self.high_water as int,
            cap_reached: self.cap_reached,
            halted: self.halted,
            error: None,
        }
    }
}

pub open spec fn beam_context(
    problem: SelectionProblemV1,
    optional: Seq<usize>,
    optional_budget: u64,
    coverage_limit: u64,
) -> BeamContext {
    BeamContext {
        facets: problem.facets@,
        packets: problem.packets@,
        optional,
        optional_budget,
        coverage_limit,
    }
}

/// The run record is within the beam's bounds.
pub open spec fn run_wf(run: BeamRunState, n: int, facets: int) -> bool {
    &&& state_wf(run.best@, n, facets)
    &&& all_wf(views(run.next@), n, facets)
    &&& run.next.len() <= BOUNDED_SELECTOR_CHALLENGER_BEAM_WIDTH_V1
    &&& run.high_water <= 2 * BOUNDED_SELECTOR_CHALLENGER_BEAM_WIDTH_V1
    &&& run.attempts <= BOUNDED_SELECTOR_CHALLENGER_TRANSITION_CAP_V1
}

fn beam_step_exec(
    run: &mut BeamRunState,
    problem: &SelectionProblemV1,
    optional: &Vec<usize>,
    optional_budget: u64,
    coverage_limit: u64,
    frontier_len: usize,
    state: &BeamStateV1,
    j: usize,
    Ghost(start): Ghost<BeamView>,
) -> (r: Result<(), BoundedSelectorChallengerErrorV1>)
    requires
        !old(run).halted,
        j < optional.len(),
        frontier_len <= BOUNDED_SELECTOR_CHALLENGER_BEAM_WIDTH_V1,
        forall|k: int| 0 <= k < optional.len() ==> optional@[k] < problem.packets.len(),
        state_wf(state@, optional.len() as int, problem.facets.len() as int),
        run_wf(*old(run), optional.len() as int, problem.facets.len() as int),
        run_limits(*old(run), optional_budget, coverage_limit, start),
        all_depth(views(old(run).next@), state@.order.len() + 1 as int),
        old(run).best@.order.len() <= state@.order.len() + 1 as int,
    ensures
        run_wf(*final(run), optional.len() as int, problem.facets.len() as int),
        run_limits(*final(run), optional_budget, coverage_limit, start),
        all_depth(views(final(run).next@), state@.order.len() + 1 as int),
        final(run).best@.order.len() <= state@.order.len() + 1 as int,
        r is Ok ==> final(run)@ == beam_step(
            beam_context(*problem, optional@, optional_budget, coverage_limit),
            frontier_len as int,
            old(run)@,
            state@,
            j as int,
        ),
        r matches Err(e) ==> beam_step(
            beam_context(*problem, optional@, optional_budget, coverage_limit),
            frontier_len as int,
            old(run)@,
            state@,
            j as int,
        ) == halt_with(with_attempts(old(run)@, (old(run).attempts + 1) as u64), e),
{
    let ghost n = optional.len() as int;
    let ghost nf = problem.facets.len() as int;
    if state.selected[j] {
        return Ok(());
    }
    if run.attempts == BOUNDED_SELECTOR_CHALLENGER_TRANSITION_CAP_V1 {
        run.cap_reached = true;
        run.halted = true;
        return Ok(());
    }
    run.attempts = run.attempts + 1;
    let packet = &problem.packets[optional[j]];
    let packet_cost = packet.token_upper_bound;
    let next_cost = match state.optional_cost.checked_add(packet_cost) {
        None => {
            return Err(BoundedSelectorChallengerErrorV1::ArithmeticOverflow);
        },
        Some(v) => v,
    };
    if next_cost > optional_budget {
        return Ok(());
    }
    let (gain, coverage_only) = match marginal_score(&problem.facets, &state.coverage, packet) {
        Err(e) => {
            return Err(e);
        },
        Ok(v) => v,
    };
    if gain == 0 {
        return Ok(());
    }
    let next_coverage_cost = if coverage_only {
        match state.coverage_only_cost.checked_add(packet_cost) {
            None => {
                return Err(BoundedSelectorChallengerErrorV1::ArithmeticOverflow);
            },
            Some(v) => v,
        }
    } else {
        state.coverage_only_cost
    };
    if next_coverage_cost > coverage_limit {
        return Ok(());
    }
    let objective_gain = match state.objective_gain.checked_add(gain) {
        None => {
            return Err(BoundedSelectorChallengerErrorV1::ArithmeticOverflow);
        },
        Some(v) => v,
    };
    let mut coverage = copy_vec(&state.coverage);
    match apply_packet(&mut coverage, packet, &problem.facets) {
        Err(e) => {
            return Err(e);
        },
        Ok(()) => {},
    }
    let mut selected = copy_vec(&state.selected);
    selected.set(j, true);
    let mut acceptance_order = copy_vec(&state.acceptance_order);
    acceptance_order.push(j);
    let candidate = BeamStateV1 {
        selected,
        acceptance_order,
        coverage,
        objective_gain,
        optional_cost: next_cost,
        coverage_only_cost: next_coverage_cost,
    };
    proof {
        let so = state@.order;
        let co = candidate@.order;
        assert(co == so.push(j));
        assert forall|k: int| 0 <= k < co.len() implies candidate@.selected[#[trigger] co[k] as int] by {
            if k < so.len() {
                assert(co[k] == so[k]);
                assert(state@.selected[so[k] as int]);
            }
        }
        assert forall|a: int, b: int| 0 <= a < co.len() && 0 <= b < co.len() && a != b implies co[a] != co[b] by {
            if a < so.len() && b < so.len() {
                assert(co[a] == so[a] && co[b] == so[b]);
            } else if a < so.len() {
                assert(state@.selected[so[a] as int]);
            } else {
                assert(state@.selected[so[b] as int]);
            }
        }
        assert(state_wf(candidate@, n, nf));
        lemma_insert_bounded_wf(views(run.next@), candidate@, n, nf);
        lemma_insert_bounded_depth(views(run.next@), candidate@, state@.order.len() + 1 as int);
    }
    if beam_state_is_better(&candidate, &run.best) {
        proof {
            if run.best@ != start {
                lemma_beam_state_order_trans(candidate@, run.best@, start);
            }
        }
        run.best = clone_state(&candidate);
    }
    insert_bounded_beam_state(&mut run.next, candidate);
    let total: usize = frontier_len + run.next.len();
    if total as u64 > run.high_water {
        run.high_water = total as u64;
    }
    Ok(())
}

/// Position of a packet identity: the last packet that carries it.
pub open spec fn packet_position(packets: Seq<IntactPacketV1>, id: BoundedSelectorPacketIdV1) -> Option<int>
    decreases packets.len(),
{
    if packets.len() == 0 {
        None
    } else if packets.last().id.0@ == id.0@ {
        Some(packets.len() - 1)
    } else {
        packet_position(packets.drop_last(), id)
    }
}

pub fn find_packet_position(packets: &Vec<IntactPacketV1>, id: &BoundedSelectorPacketIdV1) -> (r: Option<usize>)
    ensures
        r matches Some(p) ==> p < packets.len() && packet_position(packets@, *id) == Some(p as int),
        r is None ==> packet_position(packets@, *id) is None,
{
    let mut k: usize = packets.len();
    proof {
        assert(packets@.subrange(0, k as int) =~= packets@);
    }
    while k > 0
        invariant
            k <= packets.len(),
            packet_position(packets@, *id) == packet_position(packets@.subrange(0, k as int), *id),
        decreases k,
    {
        proof {
            assert(packets@.subrange(0, k as int).drop_last() =~= packets@.subrange(0, k - 1));
        }
        if crate::digest::bytes32_eq(&packets[k - 1].id.0, &id.0) {
            return Some(k - 1);
        }
        k = k - 1;
    }
    None
}

/// Every facet uncovered.
pub open spec fn empty_coverage(facets: nat) -> Seq<FacetCoverageV1> {
    Seq::new(facets, |i: int| FacetCoverageV1 { largest: 0, second_largest: 0 })
}

/// Coverage of the mandatory packets, applied in order; `None` when a
/// mandatory packet or one of its facets is unknown.
pub open spec fn mandatory_coverage(
    facets: Seq<SelectionFacetV1>,
    packets: Seq<IntactPacketV1>,
    mandatory: Seq<BoundedSelectorPacketIdV1>,
) -> Option<Seq<FacetCoverageV1>>
    decreases mandatory.len(),
{
    if mandatory.len() == 0 {
        Some(empty_coverage(facets.len()))
    } else {
        match mandatory_coverage(facets, packets, mandatory.drop_last()) {
            None => None,
            Some(c) => match packet_position(packets, mandatory.last()) {
                None => None,
                Some(p) => applied_coverage(facets, c, packets[p].affinities@),
            },
        }
    }
}

proof fn lemma_mandatory_coverage_none_extends(
    facets: Seq<SelectionFacetV1>,
    packets: Seq<IntactPacketV1>,
    mandatory: Seq<BoundedSelectorPacketIdV1>,
    k: int,
)
    requires
        0 <= k <= mandatory.len(),
        mandatory_coverage(facets, packets, mandatory.subrange(0, k)) is None,
    ensures
        mandatory_coverage(facets, packets, mandatory) is None,
    decreases mandatory.len() - k,
{
    if k < mandatory.len() {
        assert(mandatory.subrange(0, k + 1).drop_last() =~= mandatory.subrange(0, k));
        lemma_mandatory_coverage_none_extends(facets, packets, mandatory, k + 1);
    } else {
        assert(mandatory.subrange(0, k) =~= mandatory);
    }
}

pub fn baseline_coverage(problem: &SelectionProblemV1) -> (r: Result<
    Vec<FacetCoverageV1>,
    BoundedSelectorChallengerErrorV1,
>)
    ensures
        match mandatory_coverage(problem.facets@, problem.packets@, problem.mandatory_packet_ids@) {
            None => r == Err::<Vec<FacetCoverageV1>, BoundedSelectorChallengerErrorV1>(
                BoundedSelectorChallengerErrorV1::ObjectiveContract,
            ),
            Some(c) => r is Ok && r->Ok_0@ == c,
        },
        r matches Ok(c) ==> c.len() == problem.facets.len(),
{
    let mut coverage: Vec<FacetCoverageV1> = Vec::new();
    let mut f: usize = 0;
    while f < problem.facets.len()
        invariant
            f <= problem.facets.len(),
            coverage@ == empty_coverage(f as nat),
        decreases problem.facets.len() - f,
    {
        coverage.push(FacetCoverageV1::empty());
        f = f + 1;
        proof {
            assert(coverage@ =~= empty_coverage(f as nat));
        }
    }
    let mut i: usize = 0;
    proof {
        assert(problem.mandatory_packet_ids@.subrange(0, 0) =~= Seq::<BoundedSelectorPacketIdV1>::empty());
    }
    while i < problem.mandatory_packet_ids.len()
        invariant
            i <= problem.mandatory_packet_ids.len(),
            coverage.len() == problem.facets.len(),
            mandatory_coverage(
                problem.facets@,
                problem.packets@,
                problem.mandatory_packet_ids@.subrange(0, i as int),
            ) == Some(coverage@),
        decreases problem.mandatory_packet_ids.len() - i,
    {
        let ghost sub = problem.mandatory_packet_ids@.subrange(0, i + 1);
        proof {
            assert(sub.drop_last() =~= problem.mandatory_packet_ids@.subrange(0, i as int));
            assert(sub.last() == problem.mandatory_packet_ids@[i as int]);
        }
        match find_packet_position(&problem.packets, &problem.mandatory_packet_ids[i]) {
            None => {
                proof {
                    lemma_mandatory_coverage_none_extends(
                        problem.facets@,
                        problem.packets@,
                        problem.mandatory_packet_ids@,
                        i + 1,
                    );
                }
                return Err(BoundedSelectorChallengerErrorV1::ObjectiveContract);
            },
            Some(p) => {
                match apply_packet(&mut coverage, &problem.packets[p], &problem.facets) {
                    Err(e) => {
                        proof {
                            lemma_mandatory_coverage_none_extends(
                                problem.facets@,
                                problem.packets@,
                                problem.mandatory_packet_ids@,
                                i + 1,
                            );
                        }
                        return Err(e);
                    },
                    Ok(()) => {},
                }
            },
        }
        i = i + 1;
    }
    proof {
        assert(problem.mandatory_packet_ids@.subrange(0, i as int) =~= problem.mandatory_packet_ids@);
    }
    Ok(coverage)
}

/// The search's starting state: no optional packet taken.
pub open spec fn initial_state(n: nat, coverage: Seq<FacetCoverageV1>) -> BeamView {
    BeamView {
        selected: Seq::new(n, |i: int| false),
        order: Seq::empty(),
        coverage,
        gain: 0,
        cost: 0,
        coverage_only_cost: 0,
    }
}

pub open spec fn initial_run(init: BeamView) -> BeamRunView {
    BeamRunView {
        best: init,
        next: Seq::empty(),
        attempts: 0,
        high_water: 1,
        cap_reached: false,
        halted: false,
        error: None,
    }
}

/// Depths the beam explores over `n` optional packets.
pub open spec fn beam_depth_cap(n: int) -> int {
    if n < BOUNDED_SELECTOR_CHALLENGER_MAX_DEPTH_V1 {
        n
    } else {
        BOUNDED_SELECTOR_CHALLENGER_MAX_DEPTH_V1 as int
    }
}

/// The order-aware beam: from the mandatory packets' coverage, expand every
/// frontier state by every optional packet not yet taken that fits the
/// optional budget, adds objective gain and keeps the coverage-only cost
/// within its limit; keep the best state seen, a frontier of at most the beam
/// width per depth, and stop at the depth cap, at an empty depth, or at the
/// transition cap. The result is the best state, the attempted transitions,
/// the retained-state high water and whether the transition cap was reached.
pub open spec fn spec_order_aware_beam(
    problem: SelectionProblemV1,
    optional: Seq<usize>,
    optional_budget: u64,
    coverage_limit: u64,
) -> Result<(BeamView, u64, int, bool), BoundedSelectorChallengerErrorV1> {
    match mandatory_coverage(problem.facets@, problem.packets@, problem.mandatory_packet_ids@) {
        None => Err(BoundedSelectorChallengerErrorV1::ObjectiveContract),
        Some(c) => {
            let init = initial_state(optional.len(), c);
            let last = run_levels(
                beam_context(problem, optional, optional_budget, coverage_limit),
                seq![init],
                initial_run(init),
                beam_depth_cap(optional.len() as int),
            );
            beam_result_of(last)
        },
    }
}

/// What a finished record reports: its error, or the best state and work.
pub open spec fn beam_result_of(m: BeamRunView) -> Result<(BeamView, u64, int, bool), BoundedSelectorChallengerErrorV1> {
    match m.error {
        Some(e) => Err(e),
        None => Ok((m.best, m.attempts, m.high_water, m.cap_reached)),
    }
}

/// The search's result: the best state and the work it took.
pub struct BeamResultV1 {
    pub best: BeamStateV1,
    pub transition_attempts: u64,
    pub retained_state_high_water: u64,
    pub transition_cap_reached: bool,
}

pub fn evaluate_order_aware_beam_with_limits(
    problem: &SelectionProblemV1,
    optional: &Vec<usize>,
    optional_budget: u64,
    coverage_limit: u64,
) -> (r: Result<BeamResultV1, BoundedSelectorChallengerErrorV1>)
    requires
        forall|k: int| 0 <= k < optional.len() ==> optional@[k] < problem.packets.len(),
    ensures
        r matches Err(e) ==> spec_order_aware_beam(*problem, optional@, optional_budget, coverage_limit)
            == Err::<(BeamView, u64, int, bool), BoundedSelectorChallengerErrorV1>(e),
        r matches Ok(res) ==> spec_order_aware_beam(
            *problem,
            optional@,
            optional_budget,
            coverage_limit,
        ) == Ok::<(BeamView, u64, int, bool), BoundedSelectorChallengerErrorV1>(
            (
                res.best@,
                res.transition_attempts,
                res.retained_state_high_water as int,
                res.transition_cap_reached,
            ),
        ),
        r matches Ok(res) ==> forall|k: int|
            0 <= k < res.best.acceptance_order.len() ==> #[trigger] res.best.acceptance_order@[k] < optional.len(),
        r matches Ok(res) ==> res.transition_attempts <= BOUNDED_SELECTOR_CHALLENGER_TRANSITION_CAP_V1,
        r matches Ok(res) ==> res.retained_state_high_water <= 2 * BOUNDED_SELECTOR_CHALLENGER_BEAM_WIDTH_V1,
        r matches Ok(res) ==> 1 <= res.retained_state_high_water,
        r matches Ok(res) ==> mandatory_coverage(problem.facets@, problem.packets@, problem.mandatory_packet_ids@) matches Some(
            c,
        ) && (res.best@ == initial_state(optional@.len(), c) || spec_beam_state_is_better(
            res.best@,
            initial_state(optional@.len(), c),
        )),
        r matches Ok(res) ==> res.best@.cost <= optional_budget && res.best@.coverage_only_cost <= coverage_limit,
        r matches Ok(res) ==> res.best@.order.no_duplicates() && res.best@.order.len() <= optional.len()
            && res.best@.order.len() <= BOUNDED_SELECTOR_CHALLENGER_MAX_DEPTH_V1,
        r matches Ok(res) ==> (res.transition_cap_reached ==> res.transition_attempts
            == BOUNDED_SELECTOR_CHALLENGER_TRANSITION_CAP_V1),
{
    let coverage = match baseline_coverage(problem) {
        Err(e) => {
            return Err(e);
        },
        Ok(c) => c,
    };
    let n = optional.len();
    let ghost nf = problem.facets.len() as int;
    let mut selected: Vec<bool> = Vec::new();
    let mut k: usize = 0;
    while k < n
        invariant
            k <= n,
            selected@ == Seq::new(k as nat, |i: int| false),
        decreases n - k,
    {
        selected.push(false);
        k = k + 1;
        proof {
            assert(selected@ =~= Seq::new(k as nat, |i: int| false));
        }
    }
    let initial = BeamStateV1 {
        selected,
        acceptance_order: Vec::new(),
        coverage,
        objective_gain: 0,
        optional_cost: 0,
        coverage_only_cost: 0,
    };
    let ghost init = initial@;
    proof {
        assert(init == initial_state(n as nat, init.coverage));
    }
    let ghost ctx = beam_context(*problem, optional@, optional_budget, coverage_limit);
    let depth_cap: usize = if n < BOUNDED_SELECTOR_CHALLENGER_MAX_DEPTH_V1 {
        n
    } else {
        BOUNDED_SELECTOR_CHALLENGER_MAX_DEPTH_V1
    };
    let ghost target = run_levels(ctx, seq![init], initial_run(init), depth_cap as int);
    let ghost expected = spec_order_aware_beam(*problem, optional@, optional_budget, coverage_limit);
    proof {
        assert(expected == beam_result_of(target));
    }
    let mut run = BeamRunState {
        best: clone_state(&initial),
        next: Vec::new(),
        attempts: 0,
        high_water: 1,
        cap_reached: false,
        halted: false,
    };
    let mut frontier: Vec<BeamStateV1> = Vec::new();
    frontier.push(initial);
    proof {
        assert(views(frontier@) =~= seq![init]);
        assert(views(run.next@) =~= Seq::<BeamView>::empty());
        assert(run@ == initial_run(init));
    }
    let mut d: usize = 0;
    let mut done = false;
    while d < depth_cap && !run.halted && !done
        invariant
            d <= depth_cap,
            !(run.halted || done) ==> all_depth(views(frontier@), d as int),
            run.best@.order.len() <= d,
            n == optional.len(),
            ctx == beam_context(*problem, optional@, optional_budget, coverage_limit),
            forall|k: int| 0 <= k < optional.len() ==> optional@[k] < problem.packets.len(),
            frontier.len() <= BOUNDED_SELECTOR_CHALLENGER_BEAM_WIDTH_V1,
            all_wf(views(frontier@), n as int, nf),
            nf == problem.facets.len(),
            run_wf(run, n as int, nf),
            run_limits(run, optional_budget, coverage_limit, init),
            expected == beam_result_of(target),
            expected == spec_order_aware_beam(*problem, optional@, optional_budget, coverage_limit),
            (run.halted || done) ==> summary(run@) == summary(target),
            !(run.halted || done) ==> summary(
                run_levels(ctx, views(frontier@), run@, depth_cap - d),
            ) == summary(target),
        decreases depth_cap - d,
    {
        let ghost m_start = run@;
        run.next = Vec::new();
        proof {
            assert(views(run.next@) =~= Seq::<BeamView>::empty());
            assert(run@ == with_next(m_start, Seq::empty()));
        }
        let ghost fv = views(frontier@);
        let ghost level_target = run_states(ctx, fv, run@, 0);
        let mut i: usize = 0;
        while i < frontier.len() && !run.halted
            invariant
                i <= frontier.len(),
                d < depth_cap,
                all_depth(fv, d as int),
                all_depth(views(run.next@), d + 1 as int),
                run.best@.order.len() <= d + 1,
                n == optional.len(),
                fv == views(frontier@),
                ctx == beam_context(*problem, optional@, optional_budget, coverage_limit),
                forall|k: int| 0 <= k < optional.len() ==> optional@[k] < problem.packets.len(),
                frontier.len() <= BOUNDED_SELECTOR_CHALLENGER_BEAM_WIDTH_V1,
                all_wf(fv, n as int, nf),
                nf == problem.facets.len(),
                run_wf(run, n as int, nf),
                run_limits(run, optional_budget, coverage_limit, init),
                run_states(ctx, fv, run@, i as int) == level_target,
                expected == beam_result_of(target),
                expected == spec_order_aware_beam(*problem, optional@, optional_budget, coverage_limit),
                (level_target.halted || level_target.next.len() == 0) ==> summary(level_target)
                    == summary(target),
                !(level_target.halted || level_target.next.len() == 0) ==> summary(
                    run_levels(ctx, level_target.next, level_target, depth_cap - d - 1),
                ) == summary(target),
            decreases frontier.len() - i,
        {
            proof {
                assert(fv[i as int] == frontier@[i as int]@);
            }
            let mut j: usize = 0;
            while j < n && !run.halted
                invariant
                    j <= n,
                    i < frontier.len(),
                    fv[i as int].order.len() == d,
                    all_depth(views(run.next@), d + 1 as int),
                    run.best@.order.len() <= d + 1,
                    n == optional.len(),
                    fv == views(frontier@),
                    fv[i as int] == frontier@[i as int]@,
                    ctx == beam_context(*problem, optional@, optional_budget, coverage_limit),
                    forall|k: int| 0 <= k < optional.len() ==> optional@[k] < problem.packets.len(),
                    frontier.len() <= BOUNDED_SELECTOR_CHALLENGER_BEAM_WIDTH_V1,
                    all_wf(fv, n as int, nf),
                    nf == problem.facets.len(),
                    run_wf(run, n as int, nf),
                    run_limits(run, optional_budget, coverage_limit, init),
                    run_states(
                        ctx,
                        fv,
                        run_packets(ctx, fv.len() as int, run@, fv[i as int], j as int),
                        i + 1,
                    ) == level_target,
                    expected == beam_result_of(target),
                    expected == spec_order_aware_beam(*problem, optional@, optional_budget, coverage_limit),
                    (level_target.halted || level_target.next.len() == 0) ==> summary(level_target)
                        == summary(target),
                decreases n - j,
            {
                let ghost before = run@;
                let res = beam_step_exec(
                    &mut run,
                    problem,
                    optional,
                    optional_budget,
                    coverage_limit,
                    frontier.len(),
                    &frontier[i],
                    j,
                    Ghost(init),
                );
                match res {
                    Err(e) => {
                        proof {
                            let flen = fv.len() as int;
                            assert(flen == frontier.len());
                            let stepped = beam_step(ctx, flen, before, fv[i as int], j as int);
                            assert(stepped.halted && stepped.error == Some(e));
                            assert(run_packets(ctx, flen, stepped, fv[i as int], j + 1) == stepped);
                            assert(run_packets(ctx, flen, before, fv[i as int], j as int)
                                == run_packets(ctx, flen, stepped, fv[i as int], j + 1));
                            assert(run_states(ctx, fv, stepped, i + 1) == stepped);
                        }
                        return Err(e);
                    },
                    Ok(()) => {},
                }
                j = j + 1;
            }
            i = i + 1;
        }
        if !run.halted {
            if run.next.len() == 0 {
                done = true;
            } else {
                let ghost old_frontier = views(frontier@);
                proof {
                    lemma_run_levels_ignores_next(
                        ctx,
                        level_target.next,
                        level_target,
                        old_frontier,
                        depth_cap - d - 1,
                    );
                }
                std::mem::swap(&mut frontier, &mut run.next);
                proof {
                    assert(run@ == with_next(level_target, old_frontier));
                }
            }
        }
        d = d + 1;
    }
    proof {
        lemma_distinct_below_len(run.best@.order, n as int);
    }
    Ok(
        BeamResultV1 {
            best: run.best,
            transition_attempts: run.attempts,
            retained_state_high_water: run.high_water,
            transition_cap_reached: run.cap_reached,
        },
    )
}

/// Positions, in problem order, of the packets that are not mandatory, among
/// the first `k` packets.
pub open spec fn optional_positions(
    packets: Seq<IntactPacketV1>,
    mandatory: Seq<BoundedSelectorPacketIdV1>,
    k: int,
) -> Seq<usize>
    decreases k,
{
    if k <= 0 {
        Seq::empty()
    } else if has_packet(mandatory, packets[k - 1].id) {
        optional_positions(packets, mandatory, k - 1)
    } else {
        optional_positions(packets, mandatory, k - 1).push((k - 1) as usize)
    }
}

proof fn lemma_optional_positions_bound(
    packets: Seq<IntactPacketV1>,
    mandatory: Seq<BoundedSelectorPacketIdV1>,
    k: int,
)
    requires
        0 <= k <= packets.len(),
    ensures
        forall|q: int|
            0 <= q < optional_positions(packets, mandatory, k).len() ==> #[trigger] optional_positions(
                packets,
                mandatory,
                k,
            )[q] < k,
    decreases k,
{
    if k > 0 {
        lemma_optional_positions_bound(packets, mandatory, k - 1);
        let prev = optional_positions(packets, mandatory, k - 1);
        let cur = optional_positions(packets, mandatory, k);
        assert forall|q: int| 0 <= q < cur.len() implies #[trigger] cur[q] < k by {
            if q < prev.len() {
                assert(cur[q] == prev[q]);
            }
        }
    }
}

/// The packets of a problem that are not mandatory, by position.
pub fn optional_packet_positions(problem: &SelectionProblemV1) -> (r: Vec<usize>)
    ensures
        r@ == optional_positions(problem.packets@, problem.mandatory_packet_ids@, problem.packets.len() as int),
        forall|q: int| 0 <= q < r.len() ==> #[trigger] r@[q] < problem.packets.len(),
{
    let mut r: Vec<usize> = Vec::new();
    let mut k: usize = 0;
    while k < problem.packets.len()
        invariant
            k <= problem.packets.len(),
            r@ == optional_positions(problem.packets@, problem.mandatory_packet_ids@, k as int),
        decreases problem.packets.len() - k,
    {
        if !contains_packet(&problem.mandatory_packet_ids, &problem.packets[k].id) {
            r.push(k);
        }
        k = k + 1;
    }
    proof {
        lemma_optional_positions_bound(problem.packets@, problem.mandatory_packet_ids@, k as int);
    }
    r
}

/// The beam with the problem's own limits: the optional budget left after the
/// fixed overhead and the mandatory packets, and its coverage-only share.
/// When that budget does not exist the search does not run and reports the
/// mandatory coverage alone.
pub open spec fn spec_evaluate_order_aware_beam(
    problem: SelectionProblemV1,
    optional: Seq<usize>,
    coverage_only_denominator: u64,
) -> Result<(BeamView, u64, int, bool), BoundedSelectorChallengerErrorV1> {
    let fixed = problem.reserved_fixed_overhead;
    let total = problem.total_token_budget;
    if fixed > total || problem.mandatory_cost > total - fixed {
        match mandatory_coverage(problem.facets@, problem.packets@, problem.mandatory_packet_ids@) {
            None => Err(BoundedSelectorChallengerErrorV1::ObjectiveContract),
            Some(c) => Ok((initial_state(optional.len(), c), 0u64, 1int, false)),
        }
    } else {
        let optional_budget = (total - fixed - problem.mandatory_cost) as u64;
        spec_order_aware_beam(
            problem,
            optional,
            optional_budget,
            (optional_budget / coverage_only_denominator) as u64,
        )
    }
}

pub fn evaluate_order_aware_beam(
    problem: &SelectionProblemV1,
    optional: &Vec<usize>,
    coverage_only_denominator: u64,
) -> (r: Result<BeamResultV1, BoundedSelectorChallengerErrorV1>)
    requires
        coverage_only_denominator > 0,
        forall|k: int| 0 <= k < optional.len() ==> optional@[k] < problem.packets.len(),
    ensures
        r matches Err(e) ==> spec_evaluate_order_aware_beam(*problem, optional@, coverage_only_denominator)
            == Err::<(BeamView, u64, int, bool), BoundedSelectorChallengerErrorV1>(e),
        r matches Ok(res) ==> spec_evaluate_order_aware_beam(
            *problem,
            optional@,
            coverage_only_denominator,
        ) == Ok::<(BeamView, u64, int, bool), BoundedSelectorChallengerErrorV1>(
            (
                res.best@,
                res.transition_attempts,
                res.retained_state_high_water as int,
                res.transition_cap_reached,
            ),
        ),
        r matches Ok(res) ==> forall|k: int|
            0 <= k < res.best.acceptance_order.len() ==> #[trigger] res.best.acceptance_order@[k] < optional.len(),
{
    let fixed = problem.reserved_fixed_overhead;
    let total = problem.total_token_budget;
    if fixed > total || problem.mandatory_cost > total - fixed {
        let coverage = match baseline_coverage(problem) {
            Err(e) => {
                return Err(e);
            },
            Ok(c) => c,
        };
        let n = optional.len();
        let mut selected: Vec<bool> = Vec::new();
        let mut k: usize = 0;
        while k < n
            invariant
                k <= n,
                selected@ == Seq::new(k as nat, |i: int| false),
            decreases n - k,
        {
            selected.push(false);
            k = k + 1;
            proof {
                assert(selected@ =~= Seq::new(k as nat, |i: int| false));
            }
        }
        let best = BeamStateV1 {
            selected,
            acceptance_order: Vec::new(),
            coverage,
            objective_gain: 0,
            optional_cost: 0,
            coverage_only_cost: 0,
        };
        proof {
            assert(best@ == initial_state(n as nat, best@.coverage));
        }
        return Ok(
            BeamResultV1 {
                best,
                transition_attempts: 0,
                retained_state_high_water: 1,
                transition_cap_reached: false,
            },
        );
    }
    let optional_budget = total - fixed - problem.mandatory_cost;
    let coverage_limit = optional_budget / coverage_only_denominator;
    evaluate_order_aware_beam_with_limits(problem, optional, optional_budget, coverage_limit)
}

/// The identities of the packets an acceptance order takes.
pub open spec fn order_packet_ids(
    packets: Seq<IntactPacketV1>,
    optional: Seq<usize>,
    order: Seq<usize>,
) -> Seq<BoundedSelectorPacketIdV1> {
    order.map_values(|x: usize| packets[optional[x as int] as int].id)
}

/// How many distinct identities the first `k` entries of a list hold.
pub open spec fn distinct_count(ids: Seq<BoundedSelectorPacketIdV1>, k: int) -> nat
    decreases k,
{
    if k <= 0 {
        0
    } else if has_packet(ids.subrange(0, k - 1), ids[k - 1]) {
        distinct_count(ids, k - 1)
    } else {
        distinct_count(ids, k - 1) + 1
    }
}

proof fn lemma_distinct_count_bound(ids: Seq<BoundedSelectorPacketIdV1>, k: int)
    requires
        0 <= k,
    ensures
        distinct_count(ids, k) <= k,
    decreases k,
{
    if k > 0 {
        lemma_distinct_count_bound(ids, k - 1);
    }
}

pub fn distinct_packet_count(ids: &Vec<BoundedSelectorPacketIdV1>) -> (r: usize)
    ensures
        r == distinct_count(ids@, ids.len() as int),
{
    let mut count: usize = 0;
    let mut k: usize = 0;
    while k < ids.len()
        invariant
            k <= ids.len(),
            count == distinct_count(ids@, k as int),
        decreases ids.len() - k,
    {
        proof {
            lemma_distinct_count_bound(ids@, k as int);
        }
        let mut seen = false;
        let mut q: usize = 0;
        while q < k
            invariant
                q <= k,
                k < ids.len(),
                seen == has_packet(ids@.subrange(0, q as int), ids@[k as int]),
            decreases k - q,
        {
            if !seen && crate::digest::bytes32_eq(&ids[q].0, &ids[k].0) {
                seen = true;
            }
            proof {
                let a = ids@.subrange(0, q as int);
                let b = ids@.subrange(0, q + 1);
                if has_packet(b, ids@[k as int]) && !has_packet(a, ids@[k as int]) {
                    let w = choose|w: int| 0 <= w < b.len() && b[w].0@ == ids@[k as int].0@;
                    assert(w == q);
                }
                if has_packet(a, ids@[k as int]) {
                    let w = choose|w: int| 0 <= w < a.len() && a[w].0@ == ids@[k as int].0@;
                    assert(b[w] == a[w]);
                }
                if ids@[q as int].0@ == ids@[k as int].0@ {
                    assert(b[q as int] == ids@[q as int]);
                }
            }
            q = q + 1;
        }
        if !seen {
            count = count + 1;
        }
        k = k + 1;
    }
    count
}

/// What `beam_outcome` gives for a state: the terminal outcome when the
/// budget cannot hold the fixed overhead and mandatory packets, an objective
/// error when the objective's own gain differs from the state's, an overflow
/// error, or the selected plan.
pub open spec fn beam_outcome_result(
    problem: SelectionProblemV1,
    optional: Seq<usize>,
    state: BeamView,
    verified_gain_numerator: Option<u64>,
    coverage_only_denominator: u64,
    r: Result<BoundedSelectorOutcomeV1, BoundedSelectorChallengerErrorV1>,
) -> bool {
    let fixed = problem.reserved_fixed_overhead;
    let total = problem.total_token_budget;
    let mandatory_count = distinct_count(
        problem.mandatory_packet_ids@,
        problem.mandatory_packet_ids@.len() as int,
    );
    let order_ids = order_packet_ids(problem.packets@, optional, state.order);
    if fixed > total || problem.mandatory_cost > total - fixed {
        &&& r matches Ok(BoundedSelectorOutcomeV1::NeedsMore(n))
        &&& n.reason == (if fixed > total {
            NeedsMoreReasonV1::FixedOverheadExceedsTotalBudget
        } else {
            NeedsMoreReasonV1::MandatoryCostExceedsAvailablePacketBudget
        })
        &&& n.total_token_budget == total
        &&& n.reserved_fixed_overhead == fixed
        &&& n.mandatory_packet_cost == problem.mandatory_cost
        &&& n.mandatory_packet_count == mandatory_count
    } else if verified_gain_numerator != Some(state.gain) {
        r == Err::<BoundedSelectorOutcomeV1, BoundedSelectorChallengerErrorV1>(
            BoundedSelectorChallengerErrorV1::ObjectiveContract,
        )
    } else if problem.mandatory_cost + state.cost > u64::MAX || fixed
        + problem.mandatory_cost + state.cost > u64::MAX {
        r == Err::<BoundedSelectorOutcomeV1, BoundedSelectorChallengerErrorV1>(
            BoundedSelectorChallengerErrorV1::ArithmeticOverflow,
        )
    } else {
        &&& r matches Ok(BoundedSelectorOutcomeV1::Selected(p))
        &&& p.source == BoundedSelectorPlanSourceV1::OrderAwareBeam
        &&& p.objective_gain_numerator == state.gain
        &&& p.selected_packet_ids@ == problem.mandatory_packet_ids@ + order_ids
        &&& p.optional_acceptance_order@ == order_ids
        &&& p.selected_packet_cost == problem.mandatory_cost + state.cost
        &&& p.accounted_token_upper_bound == fixed + problem.mandatory_cost
            + state.cost
        &&& p.coverage_only_token_cost == state.coverage_only_cost
        &&& p.coverage_only_token_limit == (total - fixed - problem.mandatory_cost)
            / (coverage_only_denominator as int)
    }
}

/// The plan the beam's best state stands for, or the terminal outcome when the
/// budget cannot hold the fixed overhead and mandatory packets. The
/// objective's own gain for the acceptance order, `verified_gain_numerator`,
/// must equal the state's gain.
pub fn beam_outcome(
    problem: &SelectionProblemV1,
    optional: &Vec<usize>,
    state: &BeamStateV1,
    verified_gain_numerator: Option<u64>,
    coverage_only_denominator: u64,
) -> (r: Result<BoundedSelectorOutcomeV1, BoundedSelectorChallengerErrorV1>)
    requires
        coverage_only_denominator > 0,
        forall|k: int| 0 <= k < optional.len() ==> optional@[k] < problem.packets.len(),
        forall|k: int| 0 <= k < state.acceptance_order.len() ==> state.acceptance_order@[k] < optional.len(),
    ensures
        beam_outcome_result(
            *problem,
            optional@,
            state@,
            verified_gain_numerator,
            coverage_only_denominator,
            r,
        ),
{
    let fixed = problem.reserved_fixed_overhead;
    let total = problem.total_token_budget;
    if fixed > total || problem.mandatory_cost > total - fixed {
        let count = distinct_packet_count(&problem.mandatory_packet_ids);
        proof {
            lemma_distinct_count_bound(problem.mandatory_packet_ids@, problem.mandatory_packet_ids.len() as int);
        }
        let reason = if fixed > total {
            NeedsMoreReasonV1::FixedOverheadExceedsTotalBudget
        } else {
            NeedsMoreReasonV1::MandatoryCostExceedsAvailablePacketBudget
        };
        return Ok(
            BoundedSelectorOutcomeV1::NeedsMore(
                BoundedSelectorNeedsMoreV1 {
                    reason,
                    total_token_budget: total,
                    reserved_fixed_overhead: fixed,
                    mandatory_packet_cost: problem.mandatory_cost,
                    mandatory_packet_count: count as u64,
                },
            ),
        );
    }
    let ghost order_ids = order_packet_ids(problem.packets@, optional@, state.acceptance_order@);
    let mut optional_acceptance_order: Vec<BoundedSelectorPacketIdV1> = Vec::new();
    let mut k: usize = 0;
    while k < state.acceptance_order.len()
        invariant
            k <= state.acceptance_order.len(),
            forall|q: int| 0 <= q < optional.len() ==> optional@[q] < problem.packets.len(),
            forall|q: int|
                0 <= q < state.acceptance_order.len() ==> state.acceptance_order@[q] < optional.len(),
            order_ids == order_packet_ids(problem.packets@, optional@, state.acceptance_order@),
            optional_acceptance_order@ == order_ids.subrange(0, k as int),
        decreases state.acceptance_order.len() - k,
    {
        let x = state.acceptance_order[k];
        optional_acceptance_order.push(problem.packets[optional[x]].id);
        k = k + 1;
        proof {
            assert(optional_acceptance_order@ =~= order_ids.subrange(0, k as int));
        }
    }
    proof {
        assert(optional_acceptance_order@ =~= order_ids);
    }
    if verified_gain_numerator != Some(state.objective_gain) {
        return Err(BoundedSelectorChallengerErrorV1::ObjectiveContract);
    }
    let mut selected_packet_ids = copy_vec(&problem.mandatory_packet_ids);
    let mut q: usize = 0;
    while q < optional_acceptance_order.len()
        invariant
            q <= optional_acceptance_order.len(),
            selected_packet_ids@ == problem.mandatory_packet_ids@ + optional_acceptance_order@.subrange(
                0,
                q as int,
            ),
        decreases optional_acceptance_order.len() - q,
    {
        selected_packet_ids.push(optional_acceptance_order[q]);
        q = q + 1;
        proof {
            assert(selected_packet_ids@ =~= problem.mandatory_packet_ids@
                + optional_acceptance_order@.subrange(0, q as int));
        }
    }
    proof {
        assert(optional_acceptance_order@.subrange(0, q as int) =~= optional_acceptance_order@);
    }
    let selected_packet_cost = match problem.mandatory_cost.checked_add(state.optional_cost) {
        None => {
            return Err(BoundedSelectorChallengerErrorV1::ArithmeticOverflow);
        },
        Some(v) => v,
    };
    let accounted_token_upper_bound = match fixed.checked_add(selected_packet_cost) {
        None => {
            return Err(BoundedSelectorChallengerErrorV1::ArithmeticOverflow);
        },
        Some(v) => v,
    };
    Ok(
        BoundedSelectorOutcomeV1::Selected(
            BoundedSelectorSelectedPlanV1 {
                source: BoundedSelectorPlanSourceV1::OrderAwareBeam,
                objective_gain_numerator: state.objective_gain,
                selected_packet_ids,
                optional_acceptance_order,
                selected_packet_cost,
                accounted_token_upper_bound,
                coverage_only_token_cost: state.coverage_only_cost,
                coverage_only_token_limit: (total - fixed - problem.mandatory_cost)
                    / coverage_only_denominator,
            },
        ),
    )
}

/// Two outcomes agree field by field, lists by their contents.
pub open spec fn outcome_equiv(a: BoundedSelectorOutcomeV1, b: BoundedSelectorOutcomeV1) -> bool {
    match (a, b) {
        (BoundedSelectorOutcomeV1::Selected(x), BoundedSelectorOutcomeV1::Selected(y)) => {
            &&& x.source == y.source
            &&& x.objective_gain_numerator == y.objective_gain_numerator
            &&& x.selected_packet_ids@ == y.selected_packet_ids@
            &&& x.optional_acceptance_order@ == y.optional_acceptance_order@
            &&& x.selected_packet_cost == y.selected_packet_cost
            &&& x.accounted_token_upper_bound == y.accounted_token_upper_bound
            &&& x.coverage_only_token_cost == y.coverage_only_token_cost
            &&& x.coverage_only_token_limit == y.coverage_only_token_limit
        },
        (BoundedSelectorOutcomeV1::NeedsMore(x), BoundedSelectorOutcomeV1::NeedsMore(y)) => x == y,
        _ => false,
    }
}

pub fn copy_outcome(o: &BoundedSelectorOutcomeV1) -> (r: BoundedSelectorOutcomeV1)
    ensures
        outcome_equiv(r, *o),
{
    match o {
        BoundedSelectorOutcomeV1::Selected(p) => BoundedSelectorOutcomeV1::Selected(
            BoundedSelectorSelectedPlanV1 {
                source: p.source,
                objective_gain_numerator: p.objective_gain_numerator,
                selected_packet_ids: copy_vec(&p.selected_packet_ids),
                optional_acceptance_order: copy_vec(&p.optional_acceptance_order),
                selected_packet_cost: p.selected_packet_cost,
                accounted_token_upper_bound: p.accounted_token_upper_bound,
                coverage_only_token_cost: p.coverage_only_token_cost,
                coverage_only_token_limit: p.coverage_only_token_limit,
            },
        ),
        BoundedSelectorOutcomeV1::NeedsMore(n) => BoundedSelectorOutcomeV1::NeedsMore(*n),
    }
}

/// The beam plan replaces production only when both are selections and the
/// beam plan is strictly better.
pub open spec fn beam_plan_wins(beam: BoundedSelectorOutcomeV1, production: BoundedSelectorOutcomeV1) -> bool {
    match (beam, production) {
        (BoundedSelectorOutcomeV1::Selected(b), BoundedSelectorOutcomeV1::Selected(p)) => spec_selected_plan_is_better(b, p),
        _ => false,
    }
}

/// Freeze the beam-mode comparison: the beam's best state becomes a plan,
/// the better of it and production is the challenger, and the pair is
/// accepted only when the challenger keeps the hard constraints and is not
/// worse than production. `verified_gain_numerator` is the objective's own
/// gain for the best state's acceptance order.
pub fn freeze_order_aware_pair_v1(
    problem: &SelectionProblemV1,
    problem_digest: crate::digest::ArtifactDigest,
    production: BoundedSelectorOutcomeV1,
    optional: &Vec<usize>,
    beam: BeamResultV1,
    verified_gain_numerator: Option<u64>,
    coverage_only_denominator: u64,
) -> (r: Result<FrozenBoundedSelectorPairV1, BoundedSelectorChallengerErrorV1>)
    requires
        coverage_only_denominator > 0,
        optional.len() > MAX_EXACT_SELECTION_ORACLE_OPTIONAL_PACKETS_V1,
        forall|k: int| 0 <= k < optional.len() ==> optional@[k] < problem.packets.len(),
        forall|k: int|
            0 <= k < beam.best.acceptance_order.len() ==> beam.best.acceptance_order@[k] < optional.len(),
    ensures
        forall|e: BoundedSelectorChallengerErrorV1|
            beam_outcome_result(
                *problem,
                optional@,
                beam.best@,
                verified_gain_numerator,
                coverage_only_denominator,
                Err(e),
            ) ==> r == Err::<FrozenBoundedSelectorPairV1, BoundedSelectorChallengerErrorV1>(e),
        r matches Ok(pair) ==> {
            &&& exists|bo: BoundedSelectorOutcomeV1|
                beam_outcome_result(
                    *problem,
                    optional@,
                    beam.best@,
                    verified_gain_numerator,
                    coverage_only_denominator,
                    Ok(bo),
                ) && outcome_equiv(
                    pair.challenger,
                    if beam_plan_wins(bo, production) {
                        bo
                    } else {
                        production
                    },
                )
            &&& pair.problem_digest == problem_digest
            &&& pair.mode == BoundedSelectorChallengerModeV1::OrderAwareBeam
            &&& pair.optional_packet_count == optional.len()
            &&& pair.mode == challenger_mode_for(pair.optional_packet_count as int)
            &&& pair.bounds.state_slot_cap == 2 * BOUNDED_SELECTOR_CHALLENGER_BEAM_WIDTH_V1 + 1
            &&& pair.bounds.transition_attempt_cap == BOUNDED_SELECTOR_CHALLENGER_TRANSITION_CAP_V1
            &&& pair.bounds.depth_cap == beam_depth_cap(optional.len() as int)
            &&& pair.observation.transition_attempts == Some(beam.transition_attempts)
            &&& pair.observation.retained_state_high_water == beam.retained_state_high_water
            &&& pair.observation.transition_cap_reached == beam.transition_cap_reached
            &&& pair.production == production
            &&& pair.objective_relation == spec_objective_relation(production, pair.challenger)
            &&& pair.selected_cost_relation == spec_selected_cost_relation(production, pair.challenger)
            &&& pair.hard_constraints_preserved
            &&& spec_outcome_valid(problem.total_token_budget, problem.mandatory_packet_ids@, pair.challenger)
            &&& pair.objective_relation != BoundedSelectorObjectiveRelationV1::ChallengerWorse
            &&& pair.objective_relation != BoundedSelectorObjectiveRelationV1::TerminalMismatch
        },
        r matches Err(e) ==> (forall|bo: BoundedSelectorOutcomeV1|
            beam_outcome_result(
                *problem,
                optional@,
                beam.best@,
                verified_gain_numerator,
                coverage_only_denominator,
                Ok(bo),
            ) ==> e == BoundedSelectorChallengerErrorV1::ConstraintViolation && {
                let challenger = if beam_plan_wins(bo, production) {
                    bo
                } else {
                    production
                };
                let relation = spec_objective_relation(production, challenger);
                !spec_outcome_valid(problem.total_token_budget, problem.mandatory_packet_ids@, challenger)
                    || relation == BoundedSelectorObjectiveRelationV1::ChallengerWorse
                    || relation == BoundedSelectorObjectiveRelationV1::TerminalMismatch
            }),
{
    let optional_packet_count = optional.len() as u64;
    let depth_cap: usize = if optional.len() < BOUNDED_SELECTOR_CHALLENGER_MAX_DEPTH_V1 {
        optional.len()
    } else {
        BOUNDED_SELECTOR_CHALLENGER_MAX_DEPTH_V1
    };
    let outcome = beam_outcome(problem, optional, &beam.best, verified_gain_numerator, coverage_only_denominator);
    let beam_plan = match outcome {
        Err(e) => {
            return Err(e);
        },
        Ok(o) => o,
    };
    let wins = match (&beam_plan, &production) {
        (BoundedSelectorOutcomeV1::Selected(b), BoundedSelectorOutcomeV1::Selected(p)) => selected_plan_is_better(b, p),
        _ => false,
    };
    let ghost bo = beam_plan;
    let challenger = if wins {
        beam_plan
    } else {
        copy_outcome(&production)
    };
    let relation = objective_relation(&production, &challenger);
    let cost_relation = selected_cost_relation(&production, &challenger);
    let valid = validate_outcome(problem, &challenger);
    if valid.is_err() || relation == BoundedSelectorObjectiveRelationV1::ChallengerWorse || relation
        == BoundedSelectorObjectiveRelationV1::TerminalMismatch {
        return Err(BoundedSelectorChallengerErrorV1::ConstraintViolation);
    }
    proof {
        assert(wins == beam_plan_wins(bo, production));
        assert(outcome_equiv(
            challenger,
            if beam_plan_wins(bo, production) {
                bo
            } else {
                production
            },
        ));
        assert(beam_outcome_result(
            *problem,
            optional@,
            beam.best@,
            verified_gain_numerator,
            coverage_only_denominator,
            Ok(bo),
        ));
    }
    Ok(
        FrozenBoundedSelectorPairV1 {
            problem_digest,
            mode: BoundedSelectorChallengerModeV1::OrderAwareBeam,
            optional_packet_count,
            bounds: BoundedSelectorSearchBoundsV1 {
                state_slot_cap: 2 * BOUNDED_SELECTOR_CHALLENGER_BEAM_WIDTH_V1 as u64 + 1,
                transition_attempt_cap: BOUNDED_SELECTOR_CHALLENGER_TRANSITION_CAP_V1,
                depth_cap: depth_cap as u64,
            },
            observation: BoundedSelectorSearchObservationV1 {
                transition_attempts: Some(beam.transition_attempts),
                retained_state_high_water: beam.retained_state_high_water,
                transition_cap_reached: beam.transition_cap_reached,
            },
            production,
            challenger,
            objective_relation: relation,
            selected_cost_relation: cost_relation,
            hard_constraints_preserved: true,
        },
    )
}

/// The cost-matched beam's plan and the work it took.
pub struct CostMatchedBeamFactsV1 {
    pub bounds: BoundedSelectorSearchBoundsV1,
    pub observation: BoundedSelectorSearchObservationV1,
    pub objective_gain_numerator: u64,
    pub selected_packet_ids: Vec<BoundedSelectorPacketIdV1>,
    pub selected_packet_cost: u64,
    pub coverage_only_token_cost: u64,
}

/// Closed work bounds of the beam over `optional` optional packets.
pub open spec fn beam_bounds(optional: nat) -> BoundedSelectorSearchBoundsV1 {
    BoundedSelectorSearchBoundsV1 {
        state_slot_cap: (2 * BOUNDED_SELECTOR_CHALLENGER_BEAM_WIDTH_V1 + 1) as u64,
        transition_attempt_cap: BOUNDED_SELECTOR_CHALLENGER_TRANSITION_CAP_V1,
        depth_cap: (if optional < BOUNDED_SELECTOR_CHALLENGER_MAX_DEPTH_V1 {
            optional
        } else {
            BOUNDED_SELECTOR_CHALLENGER_MAX_DEPTH_V1 as nat
        }) as u64,
    }
}

/// What the cost-matched beam's facts hold.
pub struct CostMatchedBeamView {
    pub bounds: BoundedSelectorSearchBoundsV1,
    pub observation: BoundedSelectorSearchObservationV1,
    pub objective_gain_numerator: u64,
    pub selected_packet_ids: Seq<BoundedSelectorPacketIdV1>,
    pub selected_packet_cost: u64,
    pub coverage_only_token_cost: u64,
}

impl View for CostMatchedBeamFactsV1 {
    type V = CostMatchedBeamView;

    open spec fn view(&self) -> CostMatchedBeamView {
        CostMatchedBeamView {
            bounds: self.bounds,
            observation: self.observation,
            objective_gain_numerator: self.objective_gain_numerator,
            selected_packet_ids: self.selected_packet_ids@,
            selected_packet_cost: self.selected_packet_cost,
            coverage_only_token_cost: self.coverage_only_token_cost,
        }
    }
}

pub open spec fn beam_facts_result_view(
    r: Result<CostMatchedBeamFactsV1, BoundedSelectorChallengerErrorV1>,
) -> Result<CostMatchedBeamView, BoundedSelectorChallengerErrorV1> {
    match r {
        Ok(f) => Ok(f@),
        Err(e) => Err(e),
    }
}

/// What the cost-matched beam gives under production's caps: the refusal, or
/// the mandatory packets followed by the beam's acceptance order, with the
/// beam's gain, costs and work. `verified_gain` is the objective's own gain
/// for the packets of that acceptance order.
pub open spec fn spec_cost_matched_beam(
    problem: SelectionProblemV1,
    selected_packet_cost_cap: u64,
    coverage_only_token_cost_cap: u64,
    verified_gain: Option<u64>,
) -> Result<CostMatchedBeamView, BoundedSelectorChallengerErrorV1> {
    let optional = optional_positions(problem.packets@, problem.mandatory_packet_ids@, problem.packets.len() as int);
    if selected_packet_cost_cap < problem.mandatory_cost {
        Err(BoundedSelectorChallengerErrorV1::ConstraintViolation)
    } else {
        match spec_order_aware_beam(
            problem,
            optional,
            (selected_packet_cost_cap - problem.mandatory_cost) as u64,
            coverage_only_token_cost_cap,
        ) {
            Err(e) => Err(e),
            Ok((best, attempts, high_water, cap_reached)) => {
                if verified_gain != Some(best.gain) {
                    Err(BoundedSelectorChallengerErrorV1::ObjectiveContract)
                } else if problem.mandatory_cost + best.cost > u64::MAX {
                    Err(BoundedSelectorChallengerErrorV1::ArithmeticOverflow)
                } else if problem.mandatory_cost + best.cost > selected_packet_cost_cap
                    || best.coverage_only_cost > coverage_only_token_cost_cap {
                    Err(BoundedSelectorChallengerErrorV1::ConstraintViolation)
                } else {
                    Ok(
                        CostMatchedBeamView {
                            bounds: beam_bounds(optional.len()),
                            observation: BoundedSelectorSearchObservationV1 {
                                transition_attempts: Some(attempts),
                                retained_state_high_water: high_water as u64,
                                transition_cap_reached: cap_reached,
                            },
                            objective_gain_numerator: best.gain,
                            selected_packet_ids: problem.mandatory_packet_ids@ + order_packet_ids(
                                problem.packets@,
                                optional,
                                best.order,
                            ),
                            selected_packet_cost: (problem.mandatory_cost + best.cost) as u64,
                            coverage_only_token_cost: best.coverage_only_cost,
                        },
                    )
                }
            },
        }
    }
}

/// Run the closed order-aware beam under a resource envelope taken from an
/// already frozen production selection: the selected-packet cost cap and the
/// coverage-only token cap. The plan is the mandatory packets followed by the
/// beam's acceptance order; its gain must be the objective's own.
pub fn evaluate_cost_matched_order_aware_beam_v1(
    problem: &SelectionProblemV1,
    selected_packet_cost_cap: u64,
    coverage_only_token_cost_cap: u64,
    verified_gain: Option<u64>,
) -> (r: Result<CostMatchedBeamFactsV1, BoundedSelectorChallengerErrorV1>)
    ensures
        beam_facts_result_view(r) == spec_cost_matched_beam(
            *problem,
            selected_packet_cost_cap,
            coverage_only_token_cost_cap,
            verified_gain,
        ),
{
    if selected_packet_cost_cap < problem.mandatory_cost {
        return Err(BoundedSelectorChallengerErrorV1::ConstraintViolation);
    }
    let optional = optional_packet_positions(problem);
    let optional_budget = selected_packet_cost_cap - problem.mandatory_cost;
    let beam = match evaluate_order_aware_beam_with_limits(
        problem,
        &optional,
        optional_budget,
        coverage_only_token_cost_cap,
    ) {
        Ok(b) => b,
        Err(e) => {
            return Err(e);
        },
    };
    let ghost best = beam.best@;
    let ghost order_ids = order_packet_ids(problem.packets@, optional@, best.order);
    let mut selected_packet_ids = copy_vec(&problem.mandatory_packet_ids);
    let mut k: usize = 0;
    while k < beam.best.acceptance_order.len()
        invariant
            k <= beam.best.acceptance_order.len(),
            best == beam.best@,
            forall|q: int| 0 <= q < optional.len() ==> #[trigger] optional@[q] < problem.packets.len(),
            forall|q: int|
                0 <= q < beam.best.acceptance_order.len() ==> beam.best.acceptance_order@[q] < optional.len(),
            order_ids == order_packet_ids(problem.packets@, optional@, best.order),
            selected_packet_ids@ == problem.mandatory_packet_ids@ + order_ids.subrange(0, k as int),
        decreases beam.best.acceptance_order.len() - k,
    {
        let x = beam.best.acceptance_order[k];
        selected_packet_ids.push(problem.packets[optional[x]].id);
        k = k + 1;
        proof {
            assert(selected_packet_ids@ =~= problem.mandatory_packet_ids@ + order_ids.subrange(0, k as int));
        }
    }
    proof {
        assert(order_ids.subrange(0, k as int) =~= order_ids);
    }
    if verified_gain != Some(beam.best.objective_gain) {
        return Err(BoundedSelectorChallengerErrorV1::ObjectiveContract);
    }
    let selected_packet_cost = match problem.mandatory_cost.checked_add(beam.best.optional_cost) {
        Some(c) => c,
        None => {
            return Err(BoundedSelectorChallengerErrorV1::ArithmeticOverflow);
        },
    };
    if selected_packet_cost > selected_packet_cost_cap || beam.best.coverage_only_cost > coverage_only_token_cost_cap {
        return Err(BoundedSelectorChallengerErrorV1::ConstraintViolation);
    }
    let depth_cap: usize = if optional.len() < BOUNDED_SELECTOR_CHALLENGER_MAX_DEPTH_V1 {
        optional.len()
    } else {
        BOUNDED_SELECTOR_CHALLENGER_MAX_DEPTH_V1
    };
    Ok(
        CostMatchedBeamFactsV1 {
            bounds: BoundedSelectorSearchBoundsV1 {
                state_slot_cap: (2 * BOUNDED_SELECTOR_CHALLENGER_BEAM_WIDTH_V1 + 1) as u64,
                transition_attempt_cap: BOUNDED_SELECTOR_CHALLENGER_TRANSITION_CAP_V1,
                depth_cap: depth_cap as u64,
            },
            observation: BoundedSelectorSearchObservationV1 {
                transition_attempts: Some(beam.transition_attempts),
                retained_state_high_water: beam.retained_state_high_water,
                transition_cap_reached: beam.transition_cap_reached,
            },
            objective_gain_numerator: beam.best.objective_gain,
            selected_packet_ids,
            selected_packet_cost,
            coverage_only_token_cost: beam.best.coverage_only_cost,
        },
    )
}

} // verus!
