//! A selection problem over intact packets and weighted facets, and the facet
//! coverage that accepted packets accumulate: the saturation thresholds, the
//! marginal objective gain of one more packet, and its coverage update.

use vstd::prelude::*;
use crate::bounded_selector_challenger::{BoundedSelectorChallengerErrorV1, BoundedSelectorPacketIdV1};
use crate::ledger::EventId;

verus! {

/// How many top affinities saturate a facet.
#[derive(Clone, Copy, Debug, PartialEq, Eq, Structural)]
pub enum FacetSaturationCardinalityV1 {
    One,
    Two,
}

/// One weighted facet of the objective.
#[derive(Clone, Copy, Debug, PartialEq, Eq, Structural)]
pub struct SelectionFacetV1 {
    pub id: u64,
    pub weight_micros: u32,
    pub saturation_cardinality: FacetSaturationCardinalityV1,
    pub coverage_only: bool,
}

/// How strongly a packet covers one facet.
#[derive(Clone, Copy, Debug, PartialEq, Eq, Structural)]
pub struct PacketAffinityV1 {
    pub facet_id: u64,
    pub affinity_micros: u32,
}

/// One intact packet: identity, composable token upper bound, affinities and
/// the events it carries whole.
#[derive(Clone)]
pub struct IntactPacketV1 {
    pub id: BoundedSelectorPacketIdV1,
    pub token_upper_bound: u64,
    pub affinities: Vec<PacketAffinityV1>,
    pub event_ids: Vec<EventId>,
}

/// A validated selection problem: facets, packets, mandatory packets and the
/// token budget with its fixed overhead.
#[derive(Clone)]
pub struct SelectionProblemV1 {
    pub facets: Vec<SelectionFacetV1>,
    pub packets: Vec<IntactPacketV1>,
    pub mandatory_packet_ids: Vec<BoundedSelectorPacketIdV1>,
    pub mandatory_cost: u64,
    pub reserved_fixed_overhead: u64,
    pub total_token_budget: u64,
}

/// The two largest affinities seen on one facet.
#[derive(Clone, Copy, Debug, PartialEq, Eq, Structural)]
pub struct FacetCoverageV1 {
    pub largest: u32,
    pub second_largest: u32,
}

/// Coverage of a facet after one more affinity.
pub open spec fn coverage_after(c: FacetCoverageV1, affinity: u32) -> FacetCoverageV1 {
    if affinity >= c.largest {
        FacetCoverageV1 { largest: affinity, second_largest: c.largest }
    } else if affinity > c.second_largest {
        FacetCoverageV1 { largest: c.largest, second_largest: affinity }
    } else {
        c
    }
}

/// The affinity a new packet must exceed to add to a facet.
pub open spec fn coverage_threshold(c: FacetCoverageV1, cardinality: FacetSaturationCardinalityV1) -> u32 {
    match cardinality {
        FacetSaturationCardinalityV1::One => c.largest,
        FacetSaturationCardinalityV1::Two => c.second_largest,
    }
}

impl FacetCoverageV1 {
    pub fn empty() -> (r: Self)
        ensures
            r.largest == 0 && r.second_largest == 0,
    {
        FacetCoverageV1 { largest: 0, second_largest: 0 }
    }

    pub fn apply(&mut self, affinity: u32)
        ensures
            *final(self) == coverage_after(*old(self), affinity),
    {
        if affinity >= self.largest {
            self.second_largest = self.largest;
            self.largest = affinity;
        } else if affinity > self.second_largest {
            self.second_largest = affinity;
        }
    }

    pub fn threshold(self, cardinality: FacetSaturationCardinalityV1) -> (r: u32)
        ensures
            r == coverage_threshold(self, cardinality),
    {
        match cardinality {
            FacetSaturationCardinalityV1::One => self.largest,
            FacetSaturationCardinalityV1::Two => self.second_largest,
        }
    }
}

/// Position of a facet identity: the last facet that carries it.
pub open spec fn facet_position(facets: Seq<SelectionFacetV1>, id: u64) -> Option<int>
    decreases facets.len(),
{
    if facets.len() == 0 {
        None
    } else if facets.last().id == id {
        Some(facets.len() - 1)
    } else {
        facet_position(facets.drop_last(), id)
    }
}

pub proof fn lemma_facet_position_bound(facets: Seq<SelectionFacetV1>, id: u64)
    ensures
        facet_position(facets, id) matches Some(p) ==> 0 <= p < facets.len() && facets[p].id == id,
    decreases facets.len(),
{
    if facets.len() > 0 && facets.last().id != id {
        lemma_facet_position_bound(facets.drop_last(), id);
    }
}

pub fn find_facet_position(facets: &Vec<SelectionFacetV1>, id: u64) -> (r: Option<usize>)
    ensures
        r matches Some(p) ==> facet_position(facets@, id) == Some(p as int),
        r is None ==> facet_position(facets@, id) is None,
        r matches Some(p) ==> p < facets.len(),
{
    let mut k: usize = facets.len();
    proof {
        assert(facets@.subrange(0, k as int) =~= facets@);
    }
    while k > 0
        invariant
            k <= facets.len(),
            facet_position(facets@, id) == facet_position(facets@.subrange(0, k as int), id),
        decreases k,
    {
        proof {
            assert(facets@.subrange(0, k as int).drop_last() =~= facets@.subrange(0, k - 1));
        }
        if facets[k - 1].id == id {
            return Some(k - 1);
        }
        k = k - 1;
    }
    None
}

/// Coverage after a packet's affinities, in order; `None` when an affinity
/// names a facet the problem lacks.
pub open spec fn applied_coverage(
    facets: Seq<SelectionFacetV1>,
    coverage: Seq<FacetCoverageV1>,
    affinities: Seq<PacketAffinityV1>,
) -> Option<Seq<FacetCoverageV1>>
    decreases affinities.len(),
{
    if affinities.len() == 0 {
        Some(coverage)
    } else {
        match applied_coverage(facets, coverage, affinities.drop_last()) {
            None => None,
            Some(c) => match facet_position(facets, affinities.last().facet_id) {
                None => None,
                Some(p) => Some(c.update(p, coverage_after(c[p], affinities.last().affinity_micros))),
            },
        }
    }
}

pub proof fn lemma_applied_coverage_len(
    facets: Seq<SelectionFacetV1>,
    coverage: Seq<FacetCoverageV1>,
    affinities: Seq<PacketAffinityV1>,
)
    requires
        coverage.len() == facets.len(),
    ensures
        applied_coverage(facets, coverage, affinities) matches Some(c) ==> c.len() == coverage.len(),
    decreases affinities.len(),
{
    if affinities.len() > 0 {
        lemma_applied_coverage_len(facets, coverage, affinities.drop_last());
        match applied_coverage(facets, coverage, affinities.drop_last()) {
            None => {},
            Some(c) => match facet_position(facets, affinities.last().facet_id) {
                None => {},
                Some(p) => {
                    lemma_facet_position_bound(facets, affinities.last().facet_id);
                },
            },
        }
    }
}

/// Apply a packet's affinities to a coverage vector.
pub fn apply_packet(
    coverage: &mut Vec<FacetCoverageV1>,
    packet: &IntactPacketV1,
    facets: &Vec<SelectionFacetV1>,
) -> (r: Result<(), BoundedSelectorChallengerErrorV1>)
    requires
        old(coverage).len() == facets.len(),
    ensures
        final(coverage).len() == facets.len(),
        applied_coverage(facets@, old(coverage)@, packet.affinities@) matches Some(c) ==> r is Ok
            && final(coverage)@ == c,
        applied_coverage(facets@, old(coverage)@, packet.affinities@) is None ==> r
            == Err::<(), BoundedSelectorChallengerErrorV1>(
            BoundedSelectorChallengerErrorV1::ObjectiveContract,
        ),
{
    let ghost start = coverage@;
    let mut i: usize = 0;
    proof {
        assert(packet.affinities@.subrange(0, 0) =~= Seq::<PacketAffinityV1>::empty());
    }
    while i < packet.affinities.len()
        invariant
            i <= packet.affinities.len(),
            coverage.len() == facets.len(),
            start == old(coverage)@,
            applied_coverage(facets@, start, packet.affinities@.subrange(0, i as int)) == Some(
                coverage@,
            ),
        decreases packet.affinities.len() - i,
    {
        let affinity = packet.affinities[i];
        proof {
            let sub = packet.affinities@.subrange(0, i + 1);
            assert(sub.drop_last() =~= packet.affinities@.subrange(0, i as int));
            assert(sub.last() == affinity);
        }
        match find_facet_position(facets, affinity.facet_id) {
            None => {
                proof {
                    assert(applied_coverage(facets@, start, packet.affinities@.subrange(0, i + 1))
                        is None);
                    lemma_applied_coverage_none_extends(
                        facets@,
                        start,
                        packet.affinities@,
                        i as int + 1,
                    );
                }
                return Err(BoundedSelectorChallengerErrorV1::ObjectiveContract);
            },
            Some(p) => {
                let mut c = coverage[p];
                c.apply(affinity.affinity_micros);
                coverage.set(p, c);
            },
        }
        i = i + 1;
    }
    proof {
        assert(packet.affinities@.subrange(0, i as int) =~= packet.affinities@);
    }
    Ok(())
}

/// Once a prefix of affinities fails, the whole list fails.
pub proof fn lemma_applied_coverage_none_extends(
    facets: Seq<SelectionFacetV1>,
    coverage: Seq<FacetCoverageV1>,
    affinities: Seq<PacketAffinityV1>,
    k: int,
)
    requires
        0 <= k <= affinities.len(),
        applied_coverage(facets, coverage, affinities.subrange(0, k)) is None,
    ensures
        applied_coverage(facets, coverage, affinities) is None,
    decreases affinities.len() - k,
{
    if k < affinities.len() {
        let sub = affinities.subrange(0, k + 1);
        assert(sub.drop_last() =~= affinities.subrange(0, k));
        lemma_applied_coverage_none_extends(facets, coverage, affinities, k + 1);
    } else {
        assert(affinities.subrange(0, k) =~= affinities);
    }
}

/// Gain of one affinity on a facet given the coverage it meets.
pub open spec fn affinity_contribution(
    facet: SelectionFacetV1,
    coverage: FacetCoverageV1,
    affinity: u32,
) -> int {
    let threshold = coverage_threshold(coverage, facet.saturation_cardinality);
    let delta: int = if affinity > threshold {
        affinity - threshold
    } else {
        0
    };
    facet.weight_micros * delta
}

/// Marginal objective gain of a packet's affinities against a coverage, and
/// whether any of it lands on a primary (not coverage-only) facet.
pub open spec fn marginal_gain(
    facets: Seq<SelectionFacetV1>,
    coverage: Seq<FacetCoverageV1>,
    affinities: Seq<PacketAffinityV1>,
) -> Result<(u64, bool), BoundedSelectorChallengerErrorV1>
    decreases affinities.len(),
{
    if affinities.len() == 0 {
        Ok((0u64, false))
    } else {
        match marginal_gain(facets, coverage, affinities.drop_last()) {
            Err(e) => Err(e),
            Ok((gain, primary)) => match facet_position(facets, affinities.last().facet_id) {
                None => Err(BoundedSelectorChallengerErrorV1::ObjectiveContract),
                Some(p) => {
                    let contribution = affinity_contribution(
                        facets[p],
                        coverage[p],
                        affinities.last().affinity_micros,
                    );
                    if gain + contribution > u64::MAX {
                        Err(BoundedSelectorChallengerErrorV1::ArithmeticOverflow)
                    } else {
                        Ok(
                            (
                                (gain + contribution) as u64,
                                primary || (contribution > 0 && !facets[p].coverage_only),
                            ),
                        )
                    }
                },
            },
        }
    }
}

/// The marginal score of one packet: its gain, and whether all of it is on
/// coverage-only facets.
pub open spec fn marginal_score_spec(
    facets: Seq<SelectionFacetV1>,
    coverage: Seq<FacetCoverageV1>,
    affinities: Seq<PacketAffinityV1>,
) -> Result<(u64, bool), BoundedSelectorChallengerErrorV1> {
    match marginal_gain(facets, coverage, affinities) {
        Err(e) => Err(e),
        Ok((gain, primary)) => Ok((gain, gain > 0 && !primary)),
    }
}

pub fn marginal_score(
    facets: &Vec<SelectionFacetV1>,
    coverage: &Vec<FacetCoverageV1>,
    packet: &IntactPacketV1,
) -> (r: Result<(u64, bool), BoundedSelectorChallengerErrorV1>)
    requires
        coverage.len() == facets.len(),
    ensures
        r == marginal_score_spec(facets@, coverage@, packet.affinities@),
{
    let mut gain: u64 = 0;
    let mut has_primary_gain = false;
    let mut i: usize = 0;
    proof {
        assert(packet.affinities@.subrange(0, 0) =~= Seq::<PacketAffinityV1>::empty());
    }
    while i < packet.affinities.len()
        invariant
            i <= packet.affinities.len(),
            coverage.len() == facets.len(),
            marginal_gain(facets@, coverage@, packet.affinities@.subrange(0, i as int)) == Ok::<
                (u64, bool),
                BoundedSelectorChallengerErrorV1,
            >((gain, has_primary_gain)),
        decreases packet.affinities.len() - i,
    {
        let affinity = packet.affinities[i];
        let ghost sub = packet.affinities@.subrange(0, i + 1);
        proof {
            assert(sub.drop_last() =~= packet.affinities@.subrange(0, i as int));
            assert(sub.last() == affinity);
        }
        match find_facet_position(facets, affinity.facet_id) {
            None => {
                proof {
                    lemma_marginal_gain_err_extends(facets@, coverage@, packet.affinities@, i + 1);
                }
                return Err(BoundedSelectorChallengerErrorV1::ObjectiveContract);
            },
            Some(p) => {
                let facet = facets[p];
                let threshold = coverage[p].threshold(facet.saturation_cardinality);
                let delta: u32 = if affinity.affinity_micros > threshold {
                    affinity.affinity_micros - threshold
                } else {
                    0
                };
                let weight: u64 = facet.weight_micros as u64;
                let delta64: u64 = delta as u64;
                proof {
                    assert(weight * delta64 <= 0xffff_ffffu64 * 0xffff_ffffu64) by (nonlinear_arith)
                        requires
                            weight <= 0xffff_ffffu64,
                            delta64 <= 0xffff_ffffu64,
                    ;
                }
                let contribution: u64 = weight * delta64;
                proof {
                    assert(contribution == affinity_contribution(
                        facets@[p as int],
                        coverage@[p as int],
                        affinity.affinity_micros,
                    ));
                }
                match gain.checked_add(contribution) {
                    None => {
                        proof {
                            lemma_marginal_gain_err_extends(
                                facets@,
                                coverage@,
                                packet.affinities@,
                                i + 1,
                            );
                        }
                        return Err(BoundedSelectorChallengerErrorV1::ArithmeticOverflow);
                    },
                    Some(g) => {
                        gain = g;
                    },
                }
                if contribution > 0 && !facet.coverage_only {
                    has_primary_gain = true;
                }
            },
        }
        i = i + 1;
    }
    proof {
        assert(packet.affinities@.subrange(0, i as int) =~= packet.affinities@);
    }
    Ok((gain, gain > 0 && !has_primary_gain))
}

/// A facet's coverage keeps the two largest affinities applied to it: after
/// one more affinity, the largest is the greater of it and the old largest,
/// and the second largest is the greater of the old second largest and the
/// smaller of the new affinity and the old largest.
pub proof fn lemma_coverage_keeps_two_largest(c: FacetCoverageV1, affinity: u32)
    requires
        c.second_largest <= c.largest,
    ensures
        ({
            let after = coverage_after(c, affinity);
            let low: u32 = if affinity < c.largest {
                affinity
            } else {
                c.largest
            };
            &&& after.largest == if affinity > c.largest {
                affinity
            } else {
                c.largest
            }
            &&& after.second_largest == if low > c.second_largest {
                low
            } else {
                c.second_largest
            }
            &&& after.second_largest <= after.largest
        }),
{
}

/// The marginal gain of one affinity on a known facet: the facet's weight
/// times how far the affinity exceeds the largest affinity already covering
/// the facet (cardinality one) or the second largest (cardinality two), and
/// nothing when it does not exceed it.
pub proof fn lemma_single_affinity_gain(
    facets: Seq<SelectionFacetV1>,
    coverage: Seq<FacetCoverageV1>,
    affinity: PacketAffinityV1,
    p: int,
)
    requires
        facet_position(facets, affinity.facet_id) == Some(p),
        coverage.len() == facets.len(),
    ensures
        ({
            let c = coverage[p];
            let covered: int = match facets[p].saturation_cardinality {
                FacetSaturationCardinalityV1::One => c.largest as int,
                FacetSaturationCardinalityV1::Two => c.second_largest as int,
            };
            let excess: int = if affinity.affinity_micros > covered {
                affinity.affinity_micros - covered
            } else {
                0
            };
            marginal_score_spec(facets, coverage, seq![affinity]) matches Ok((gain, _)) && gain as int
                == facets[p].weight_micros * excess
        }),
{
    lemma_facet_position_bound(facets, affinity.facet_id);
    let a = seq![affinity];
    assert(a.drop_last() =~= Seq::<PacketAffinityV1>::empty());
    assert(a.last() == affinity);
    let c = coverage[p];
    let threshold = coverage_threshold(c, facets[p].saturation_cardinality);
    let delta: int = if affinity.affinity_micros > threshold {
        affinity.affinity_micros - threshold
    } else {
        0
    };
    assert(facets[p].weight_micros * delta <= 0xffff_ffffu64 * 0xffff_ffffu64) by (nonlinear_arith)
        requires
            facets[p].weight_micros <= 0xffff_ffffu64,
            0 <= delta <= 0xffff_ffffu64,
    ;
    assert(marginal_gain(facets, coverage, a.drop_last()) == Ok::<(u64, bool), BoundedSelectorChallengerErrorV1>(
        (0u64, false),
    ));
    assert(affinity_contribution(facets[p], c, affinity.affinity_micros) == facets[p].weight_micros * delta);
}

/// A facet of cardinality one saturates: once a packet has put affinity `a`
/// on it, another affinity of at most `a` on it adds no gain.
pub proof fn lemma_cardinality_one_saturates(
    facets: Seq<SelectionFacetV1>,
    coverage: Seq<FacetCoverageV1>,
    first: PacketAffinityV1,
    second: PacketAffinityV1,
    p: int,
)
    requires
        facet_position(facets, first.facet_id) == Some(p),
        second.facet_id == first.facet_id,
        second.affinity_micros <= first.affinity_micros,
        coverage.len() == facets.len(),
        facets[p].saturation_cardinality == FacetSaturationCardinalityV1::One,
    ensures
        applied_coverage(facets, coverage, seq![first]) matches Some(after) && marginal_score_spec(
            facets,
            after,
            seq![second],
        ) == Ok::<(u64, bool), BoundedSelectorChallengerErrorV1>((0u64, false)),
{
    lemma_facet_position_bound(facets, first.facet_id);
    let a = seq![first];
    assert(a.drop_last() =~= Seq::<PacketAffinityV1>::empty());
    assert(a.last() == first);
    let after = coverage.update(p, coverage_after(coverage[p], first.affinity_micros));
    assert(applied_coverage(facets, coverage, a.drop_last()) == Some(coverage));
    assert(applied_coverage(facets, coverage, a) == Some(after));
    assert(after[p].largest >= first.affinity_micros);
    lemma_single_affinity_gain(facets, after, second, p);
    let b = seq![second];
    assert(b.drop_last() =~= Seq::<PacketAffinityV1>::empty());
}

/// Once a prefix of affinities fails, the whole list fails the same way.
pub proof fn lemma_marginal_gain_err_extends(
    facets: Seq<SelectionFacetV1>,
    coverage: Seq<FacetCoverageV1>,
    affinities: Seq<PacketAffinityV1>,
    k: int,
)
    requires
        0 <= k <= affinities.len(),
        marginal_gain(facets, coverage, affinities.subrange(0, k)) is Err,
    ensures
        marginal_gain(facets, coverage, affinities) == marginal_gain(
            facets,
            coverage,
            affinities.subrange(0, k),
        ),
    decreases affinities.len() - k,
{
    if k < affinities.len() {
        let sub = affinities.subrange(0, k + 1);
        assert(sub.drop_last() =~= affinities.subrange(0, k));
        lemma_marginal_gain_err_extends(facets, coverage, affinities, k + 1);
    } else {
        assert(affinities.subrange(0, k) =~= affinities);
    }
}

} // verus!
