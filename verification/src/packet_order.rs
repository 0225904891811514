//! Canonical order of packet and event identities: the byte order of packet
//! identities is a strict total order, and identity lists are put in strictly
//! ascending order, refusing a list that names one identity twice.

use vstd::prelude::*;
use crate::bounded_selector_challenger::{bytes_order, bytes32_order, has_packet, BoundedSelectorPacketIdV1};
use crate::ledger::EventId;

verus! {

/// The byte order is antisymmetric.
pub proof fn lemma_bytes_order_antisym(a: Seq<u8>, b: Seq<u8>)
    ensures
        bytes_order(a, b) == -bytes_order(b, a),
    decreases a.len(),
{
    if a.len() > 0 && b.len() > 0 && a[0] == b[0] {
        lemma_bytes_order_antisym(a.drop_first(), b.drop_first());
    }
}

/// Two byte strings are equal exactly when neither orders before the other.
pub proof fn lemma_bytes_order_zero(a: Seq<u8>, b: Seq<u8>)
    ensures
        bytes_order(a, b) == 0 <==> a == b,
    decreases a.len(),
{
    if a.len() == 0 && b.len() == 0 {
        assert(a =~= b);
    }
    if a.len() > 0 && b.len() > 0 && a[0] == b[0] {
        lemma_bytes_order_zero(a.drop_first(), b.drop_first());
        if bytes_order(a, b) == 0 {
            assert(a =~= seq![a[0]] + a.drop_first());
            assert(b =~= seq![b[0]] + b.drop_first());
        }
    }
    if a == b && a.len() > 0 {
        assert(a.drop_first() == b.drop_first());
        lemma_bytes_order_zero(a.drop_first(), b.drop_first());
    }
}

/// The byte order takes only the values -1, 0 and 1.
pub proof fn lemma_bytes_order_range(a: Seq<u8>, b: Seq<u8>)
    ensures
        -1 <= bytes_order(a, b) <= 1,
    decreases a.len(),
{
    if a.len() > 0 && b.len() > 0 && a[0] == b[0] {
        lemma_bytes_order_range(a.drop_first(), b.drop_first());
    }
}

/// The byte order is transitive.
pub proof fn lemma_bytes_order_trans(a: Seq<u8>, b: Seq<u8>, c: Seq<u8>)
    requires
        bytes_order(a, b) == -1,
        bytes_order(b, c) == -1,
    ensures
        bytes_order(a, c) == -1,
    decreases a.len(),
{
    if a.len() > 0 && b.len() > 0 && c.len() > 0 && a[0] == b[0] && b[0] == c[0] {
        lemma_bytes_order_trans(a.drop_first(), b.drop_first(), c.drop_first());
    }
}

/// One packet identity orders strictly before another.
pub open spec fn id_lt(a: BoundedSelectorPacketIdV1, b: BoundedSelectorPacketIdV1) -> bool {
    bytes_order(a.0@, b.0@) == -1
}

/// The identities ascend strictly.
pub open spec fn ids_ascending(s: Seq<BoundedSelectorPacketIdV1>) -> bool {
    forall|i: int, j: int| 0 <= i < j < s.len() ==> id_lt(#[trigger] s[i], #[trigger] s[j])
}

/// No identity occurs twice.
pub open spec fn ids_distinct(s: Seq<BoundedSelectorPacketIdV1>) -> bool {
    forall|i: int, j: int| 0 <= i < j < s.len() ==> (#[trigger] s[i]).0@ != (#[trigger] s[j]).0@
}

/// Two lists name the same identities.
pub open spec fn same_ids(a: Seq<BoundedSelectorPacketIdV1>, b: Seq<BoundedSelectorPacketIdV1>) -> bool {
    forall|x: BoundedSelectorPacketIdV1| has_packet(a, x) <==> has_packet(b, x)
}

/// Insert an identity into a strictly ascending list; refuse one already there.
pub fn insert_packet_id(sorted: &mut Vec<BoundedSelectorPacketIdV1>, id: BoundedSelectorPacketIdV1) -> (inserted: bool)
    requires
        ids_ascending(old(sorted)@),
    ensures
        inserted == !has_packet(old(sorted)@, id),
        ids_ascending(final(sorted)@),
        inserted ==> final(sorted)@.len() == old(sorted)@.len() + 1,
        !inserted ==> final(sorted)@ == old(sorted)@,
        forall|x: BoundedSelectorPacketIdV1|
            has_packet(final(sorted)@, x) <==> (has_packet(old(sorted)@, x) || x.0@ == id.0@),
{
    let ghost s = sorted@;
    let mut p: usize = 0;
    while p < sorted.len() && bytes32_order(&sorted[p].0, &id.0) == -1
        invariant
            p <= sorted.len(),
            sorted@ == s,
            forall|k: int| 0 <= k < p ==> id_lt(#[trigger] s[k], id),
        decreases sorted.len() - p,
    {
        p = p + 1;
    }
    if p < sorted.len() {
        let c = bytes32_order(&sorted[p].0, &id.0);
        if c == 0 {
            proof {
                lemma_bytes_order_zero(s[p as int].0@, id.0@);
                assert(has_packet(s, id));
            }
            return false;
        }
    }
    proof {
        if p < s.len() {
            lemma_bytes_order_range(s[p as int].0@, id.0@);
            lemma_bytes_order_zero(s[p as int].0@, id.0@);
            lemma_bytes_order_antisym(s[p as int].0@, id.0@);
            assert(bytes_order(id.0@, s[p as int].0@) == -1);
        }
        assert forall|k: int| 0 <= k < s.len() implies (#[trigger] s[k]).0@ != id.0@ by {
            if k < p {
                lemma_bytes_order_zero(s[k].0@, id.0@);
            } else {
                lemma_bytes_order_antisym(s[p as int].0@, id.0@);
                lemma_bytes_order_zero(s[p as int].0@, id.0@);
                if k > p {
                    lemma_bytes_order_trans(id.0@, s[p as int].0@, s[k].0@);
                }
                lemma_bytes_order_zero(id.0@, s[k].0@);
                lemma_bytes_order_antisym(id.0@, s[k].0@);
            }
        }
        assert(!has_packet(s, id));
    }
    sorted.insert(p, id);
    proof {
        let t = sorted@;
        assert(t =~= s.insert(p as int, id));
        assert forall|i: int, j: int| 0 <= i < j < t.len() implies id_lt(#[trigger] t[i], #[trigger] t[j]) by {
            if j < p {
                assert(t[i] == s[i] && t[j] == s[j]);
            } else if j == p {
                assert(t[j] == id && t[i] == s[i]);
            } else if i == p {
                assert(t[i] == id && t[j] == s[j - 1]);
                if j - 1 > p {
                    lemma_bytes_order_trans(id.0@, s[p as int].0@, s[j - 1].0@);
                }
            } else if i < p {
                assert(t[i] == s[i] && t[j] == s[j - 1]);
            } else {
                assert(t[i] == s[i - 1] && t[j] == s[j - 1]);
            }
        }
        assert forall|x: BoundedSelectorPacketIdV1| has_packet(t, x) <==> (has_packet(s, x) || x.0@ == id.0@) by {
            if has_packet(t, x) {
                let q = choose|q: int| 0 <= q < t.len() && t[q].0@ == x.0@;
                if q < p {
                    assert(s[q] == t[q]);
                } else if q > p {
                    assert(s[q - 1] == t[q]);
                }
            }
            if has_packet(s, x) {
                let q = choose|q: int| 0 <= q < s.len() && s[q].0@ == x.0@;
                if q < p {
                    assert(t[q] == s[q]);
                } else {
                    assert(t[q + 1] == s[q]);
                }
            }
            if x.0@ == id.0@ {
                assert(t[p as int] == id);
            }
        }
    }
    true
}

/// Put packet identities in strictly ascending byte order, or `None` where
/// one identity occurs twice.
pub fn sort_packet_ids(ids: &Vec<BoundedSelectorPacketIdV1>) -> (r: Option<Vec<BoundedSelectorPacketIdV1>>)
    ensures
        r is None <==> !ids_distinct(ids@),
        r matches Some(v) ==> ids_ascending(v@) && same_ids(v@, ids@) && v@.len() == ids@.len(),
{
    let mut out: Vec<BoundedSelectorPacketIdV1> = Vec::new();
    let mut i: usize = 0;
    while i < ids.len()
        invariant
            i <= ids.len(),
            ids_ascending(out@),
            out@.len() == i,
            ids_distinct(ids@.subrange(0, i as int)),
            forall|x: BoundedSelectorPacketIdV1| has_packet(out@, x) <==> has_packet(ids@.subrange(0, i as int), x),
        decreases ids.len() - i,
    {
        let ghost before = out@;
        let ghost pre = ids@.subrange(0, i as int);
        let ghost next = ids@.subrange(0, i + 1);
        let id = ids[i];
        let inserted = insert_packet_id(&mut out, id);
        proof {
            assert(next =~= pre.push(id));
            assert forall|x: BoundedSelectorPacketIdV1| has_packet(next, x) <==> (has_packet(pre, x) || x.0@ == id.0@) by {
                if has_packet(next, x) {
                    let q = choose|q: int| 0 <= q < next.len() && next[q].0@ == x.0@;
                    if q < i {
                        assert(pre[q] == next[q]);
                    }
                }
                if has_packet(pre, x) {
                    let q = choose|q: int| 0 <= q < pre.len() && pre[q].0@ == x.0@;
                    assert(next[q] == pre[q]);
                }
                if x.0@ == id.0@ {
                    assert(next[i as int] == id);
                }
            }
        }
        if !inserted {
            proof {
                let q = choose|q: int| 0 <= q < pre.len() && pre[q].0@ == id.0@;
                assert(ids@[q] == pre[q]);
                assert(ids@[i as int] == id);
            }
            return None;
        }
        proof {
            assert forall|a: int, b: int| 0 <= a < b < next.len() implies (#[trigger] next[a]).0@ != (#[trigger] next[b]).0@ by {
                if b < i {
                    assert(next[a] == pre[a] && next[b] == pre[b]);
                } else {
                    assert(next[b] == id && next[a] == pre[a]);
                    if next[a].0@ == id.0@ {
                        assert(has_packet(pre, id));
                    }
                }
            }
        }
        i = i + 1;
    }
    proof {
        assert(ids@.subrange(0, i as int) =~= ids@);
    }
    Some(out)
}

/// The event identities ascend strictly.
pub open spec fn events_ascending(s: Seq<EventId>) -> bool {
    forall|i: int, j: int| 0 <= i < j < s.len() ==> (#[trigger] s[i]).0 < (#[trigger] s[j]).0
}

/// No event identity occurs twice.
pub open spec fn events_distinct(s: Seq<EventId>) -> bool {
    forall|i: int, j: int| 0 <= i < j < s.len() ==> (#[trigger] s[i]) != (#[trigger] s[j])
}

/// Insert an event identity into a strictly ascending list; refuse one already there.
pub fn insert_event_id(sorted: &mut Vec<EventId>, id: EventId) -> (inserted: bool)
    requires
        events_ascending(old(sorted)@),
    ensures
        inserted == !old(sorted)@.contains(id),
        events_ascending(final(sorted)@),
        inserted ==> final(sorted)@.len() == old(sorted)@.len() + 1,
        !inserted ==> final(sorted)@ == old(sorted)@,
        forall|x: EventId| final(sorted)@.contains(x) <==> (old(sorted)@.contains(x) || x == id),
{
    let ghost s = sorted@;
    let mut p: usize = 0;
    while p < sorted.len() && sorted[p].0 < id.0
        invariant
            p <= sorted.len(),
            sorted@ == s,
            forall|k: int| 0 <= k < p ==> (#[trigger] s[k]).0 < id.0,
        decreases sorted.len() - p,
    {
        p = p + 1;
    }
    if p < sorted.len() && sorted[p].0 == id.0 {
        proof {
            assert(s[p as int] == id);
        }
        return false;
    }
    proof {
        assert forall|k: int| 0 <= k < s.len() implies (#[trigger] s[k]) != id by {
            if k > p {
                assert(s[p as int].0 < s[k].0);
            }
        }
    }
    sorted.insert(p, id);
    proof {
        let t = sorted@;
        assert(t =~= s.insert(p as int, id));
        assert forall|i: int, j: int| 0 <= i < j < t.len() implies (#[trigger] t[i]).0 < (#[trigger] t[j]).0 by {
            if j < p {
                assert(t[i] == s[i] && t[j] == s[j]);
            } else if j == p {
                assert(t[j] == id && t[i] == s[i]);
            } else if i == p {
                assert(t[i] == id && t[j] == s[j - 1]);
                if j - 1 > p {
                    assert(s[p as int].0 < s[j - 1].0);
                }
            } else if i < p {
                assert(t[i] == s[i] && t[j] == s[j - 1]);
            } else {
                assert(t[i] == s[i - 1] && t[j] == s[j - 1]);
            }
        }
        assert forall|x: EventId| t.contains(x) <==> (s.contains(x) || x == id) by {
            if t.contains(x) {
                let q = choose|q: int| 0 <= q < t.len() && t[q] == x;
                if q < p {
                    assert(s[q] == t[q]);
                } else if q > p {
                    assert(s[q - 1] == t[q]);
                }
            }
            if s.contains(x) {
                let q = choose|q: int| 0 <= q < s.len() && s[q] == x;
                if q < p {
                    assert(t[q] == s[q]);
                } else {
                    assert(t[q + 1] == s[q]);
                }
            }
            if x == id {
                assert(t[p as int] == id);
            }
        }
    }
    true
}

} // verus!

verus! {

/// The byte strings of a list of packet identities.
pub open spec fn id_bytes(s: Seq<BoundedSelectorPacketIdV1>) -> Seq<Seq<u8>> {
    s.map_values(|x: BoundedSelectorPacketIdV1| x.0@)
}

/// Identities with the same bytes are the same identity.
pub proof fn lemma_id_eq(a: BoundedSelectorPacketIdV1, b: BoundedSelectorPacketIdV1)
    requires
        a.0@ == b.0@,
    ensures
        a == b,
{
    broadcast use vstd::array::axiom_array_ext_equal;
    assert forall|i: int| 0 <= i < 32 implies a.0[i] == b.0[i] by {
        assert(a.0@[i] == b.0@[i]);
    }
    assert(a.0 =~= b.0);
}

/// Lists of identities with the same bytes are the same list.
pub proof fn lemma_id_bytes_injective(a: Seq<BoundedSelectorPacketIdV1>, b: Seq<BoundedSelectorPacketIdV1>)
    requires
        id_bytes(a) == id_bytes(b),
    ensures
        a == b,
{
    assert(a.len() == id_bytes(a).len());
    assert forall|i: int| 0 <= i < a.len() implies a[i] == b[i] by {
        assert(id_bytes(a)[i] == id_bytes(b)[i]);
        lemma_id_eq(a[i], b[i]);
    }
    assert(a =~= b);
}

/// Two strictly ascending lists of the same identities hold the same bytes.
pub proof fn lemma_ascending_ids_unique(a: Seq<BoundedSelectorPacketIdV1>, b: Seq<BoundedSelectorPacketIdV1>)
    requires
        ids_ascending(a),
        ids_ascending(b),
        same_ids(a, b),
    ensures
        id_bytes(a) == id_bytes(b),
    decreases a.len(),
{
    if a.len() == 0 {
        if b.len() > 0 {
            assert(has_packet(b, b[0]));
        }
        assert(id_bytes(a) =~= id_bytes(b));
    } else {
        if b.len() == 0 {
            assert(has_packet(a, a[0]));
        } else {
            assert(has_packet(a, a[0]));
            assert(has_packet(b, b[0]));
            let i = choose|q: int| 0 <= q < a.len() && a[q].0@ == b[0].0@;
            let j = choose|q: int| 0 <= q < b.len() && b[q].0@ == a[0].0@;
            if i > 0 && j > 0 {
                assert(id_lt(a[0], a[i]));
                assert(id_lt(b[0], b[j]));
                lemma_bytes_order_antisym(a[0].0@, b[0].0@);
            }
            if i == 0 {
                assert(a[0].0@ == b[0].0@);
            } else if j == 0 {
                assert(a[0].0@ == b[0].0@);
            }
            let a1 = a.drop_first();
            let b1 = b.drop_first();
            assert(ids_ascending(a1)) by {
                assert forall|x: int, y: int| 0 <= x < y < a1.len() implies id_lt(#[trigger] a1[x], #[trigger] a1[y]) by {
                    assert(a1[x] == a[x + 1] && a1[y] == a[y + 1]);
                }
            }
            assert(ids_ascending(b1)) by {
                assert forall|x: int, y: int| 0 <= x < y < b1.len() implies id_lt(#[trigger] b1[x], #[trigger] b1[y]) by {
                    assert(b1[x] == b[x + 1] && b1[y] == b[y + 1]);
                }
            }
            assert forall|x: BoundedSelectorPacketIdV1| has_packet(a1, x) <==> has_packet(b1, x) by {
                if has_packet(a1, x) {
                    let q = choose|q: int| 0 <= q < a1.len() && a1[q].0@ == x.0@;
                    assert(a[q + 1].0@ == x.0@);
                    assert(id_lt(a[0], a[q + 1]));
                    lemma_bytes_order_zero(a[0].0@, a[q + 1].0@);
                    assert(has_packet(a, x));
                    let r = choose|r: int| 0 <= r < b.len() && b[r].0@ == x.0@;
                    if r == 0 {
                        assert(false);
                    }
                    assert(b1[r - 1] == b[r]);
                }
                if has_packet(b1, x) {
                    let q = choose|q: int| 0 <= q < b1.len() && b1[q].0@ == x.0@;
                    assert(b[q + 1].0@ == x.0@);
                    assert(id_lt(b[0], b[q + 1]));
                    lemma_bytes_order_zero(b[0].0@, b[q + 1].0@);
                    assert(has_packet(b, x));
                    let r = choose|r: int| 0 <= r < a.len() && a[r].0@ == x.0@;
                    if r == 0 {
                        assert(false);
                    }
                    assert(a1[r - 1] == a[r]);
                }
            }
            lemma_ascending_ids_unique(a1, b1);
            assert(id_bytes(a) =~= seq![a[0].0@] + id_bytes(a1));
            assert(id_bytes(b) =~= seq![b[0].0@] + id_bytes(b1));
        }
    }
}

/// Two strictly ascending lists of the same event identities are equal.
pub proof fn lemma_ascending_events_unique(a: Seq<EventId>, b: Seq<EventId>)
    requires
        events_ascending(a),
        events_ascending(b),
        forall|e: EventId| a.contains(e) <==> b.contains(e),
    ensures
        a == b,
    decreases a.len(),
{
    if a.len() == 0 {
        if b.len() > 0 {
            assert(b.contains(b[0]));
        }
        assert(a =~= b);
    } else if b.len() == 0 {
        assert(a.contains(a[0]));
    } else {
        assert(a.contains(a[0]));
        assert(b.contains(b[0]));
        let i = choose|q: int| 0 <= q < a.len() && a[q] == b[0];
        let j = choose|q: int| 0 <= q < b.len() && b[q] == a[0];
        if i > 0 {
            assert(a[0].0 < a[i].0);
        }
        if j > 0 {
            assert(b[0].0 < b[j].0);
        }
        assert(a[0] == b[0]);
        let a1 = a.drop_first();
        let b1 = b.drop_first();
        assert forall|e: EventId| a1.contains(e) <==> b1.contains(e) by {
            if a1.contains(e) {
                let q = choose|q: int| 0 <= q < a1.len() && a1[q] == e;
                assert(a[q + 1] == e && a[0].0 < a[q + 1].0);
                assert(a.contains(e));
                let r = choose|r: int| 0 <= r < b.len() && b[r] == e;
                assert(r != 0);
                assert(b1[r - 1] == b[r]);
            }
            if b1.contains(e) {
                let q = choose|q: int| 0 <= q < b1.len() && b1[q] == e;
                assert(b[q + 1] == e && b[0].0 < b[q + 1].0);
                assert(b.contains(e));
                let r = choose|r: int| 0 <= r < a.len() && a[r] == e;
                assert(r != 0);
                assert(a1[r - 1] == a[r]);
            }
        }
        lemma_ascending_events_unique(a1, b1);
        assert(a =~= seq![a[0]] + a1);
        assert(b =~= seq![b[0]] + b1);
    }
}

} // verus!
