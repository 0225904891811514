//! Canonical sets: items kept once each, in strictly ascending order of a key
//! of unsigned integers compared lexicographically (a shorter key that is a
//! prefix of a longer one orders first).

use vstd::prelude::*;

verus! {

/// Strict lexicographic order of integer keys.
pub open spec fn lex_lt(a: Seq<u64>, b: Seq<u64>) -> bool
    decreases a.len(),
{
    if a.len() == 0 {
        b.len() > 0
    } else if b.len() == 0 {
        false
    } else if a[0] < b[0] {
        true
    } else if a[0] > b[0] {
        false
    } else {
        lex_lt(a.drop_first(), b.drop_first())
    }
}

/// The order is a strict total order on keys.
pub proof fn lemma_lex_order(a: Seq<u64>, b: Seq<u64>)
    ensures
        !(lex_lt(a, b) && lex_lt(b, a)),
        a == b || lex_lt(a, b) || lex_lt(b, a),
        lex_lt(a, b) ==> a != b,
    decreases a.len(),
{
    if a.len() == 0 && b.len() == 0 {
        assert(a =~= b);
    }
    if a.len() > 0 && b.len() > 0 && a[0] == b[0] {
        lemma_lex_order(a.drop_first(), b.drop_first());
        if a.drop_first() == b.drop_first() {
            assert(a =~= seq![a[0]] + a.drop_first());
            assert(b =~= seq![b[0]] + b.drop_first());
        }
    }
    if a == b && a.len() > 0 {
        lemma_lex_order(a.drop_first(), b.drop_first());
    }
}

pub proof fn lemma_lex_trans(a: Seq<u64>, b: Seq<u64>, c: Seq<u64>)
    requires
        lex_lt(a, b),
        lex_lt(b, c),
    ensures
        lex_lt(a, c),
    decreases a.len(),
{
    if a.len() > 0 && b.len() > 0 && c.len() > 0 && a[0] == b[0] && b[0] == c[0] {
        lemma_lex_trans(a.drop_first(), b.drop_first(), c.drop_first());
    }
}

/// Three-way comparison of two keys: -1, 0 or 1.
pub fn lex_compare(a: &Vec<u64>, b: &Vec<u64>) -> (r: i8)
    ensures
        (r == -1) == lex_lt(a@, b@),
        (r == 0) == (a@ == b@),
        (r == 1) == lex_lt(b@, a@),
{
    proof {
        lemma_lex_order(a@, b@);
        assert(a@.skip(0) == a@);
        assert(b@.skip(0) == b@);
    }
    let mut i: usize = 0;
    while i < a.len() && i < b.len()
        invariant
            i <= a.len(),
            i <= b.len(),
            forall|j: int| 0 <= j < i ==> a@[j] == b@[j],
            lex_lt(a@, b@) == lex_lt(a@.skip(i as int), b@.skip(i as int)),
            lex_lt(b@, a@) == lex_lt(b@.skip(i as int), a@.skip(i as int)),
        decreases a.len() - i,
    {
        proof {
            assert(a@.skip(i as int)[0] == a@[i as int]);
            assert(b@.skip(i as int)[0] == b@[i as int]);
            assert(a@.skip(i as int).drop_first() == a@.skip(i + 1));
            assert(b@.skip(i as int).drop_first() == b@.skip(i + 1));
        }
        if a[i] < b[i] {
            return -1;
        }
        if a[i] > b[i] {
            return 1;
        }
        i = i + 1;
    }
    if a.len() == b.len() {
        proof {
            assert(a@ =~= b@);
        }
        0
    } else if i == a.len() {
        proof {
            assert(a@.skip(i as int).len() == 0);
        }
        -1
    } else {
        proof {
            assert(b@.skip(i as int).len() == 0);
        }
        1
    }
}

/// The keys of a list of items.
pub open spec fn keys_of<T>(items: Seq<T>, key: spec_fn(T) -> Seq<u64>) -> Seq<Seq<u64>> {
    items.map_values(|item: T| key(item))
}

/// Keys ascend strictly, hence occur once each.
pub open spec fn keys_ascending(keys: Seq<Seq<u64>>) -> bool {
    forall|i: int, j: int| 0 <= i < j < keys.len() ==> lex_lt(#[trigger] keys[i], #[trigger] keys[j])
}

/// Some item has this key.
pub open spec fn has_key<T>(items: Seq<T>, key: spec_fn(T) -> Seq<u64>, k: Seq<u64>) -> bool {
    exists|i: int| 0 <= i < items.len() && key(#[trigger] items[i]) == k
}

/// Insert an item under its key into a list kept strictly ascending by key;
/// an item whose key is already there is dropped.
pub(crate) fn insert_keyed<T>(
    items: &mut Vec<T>,
    keys: &mut Vec<Vec<u64>>,
    item: T,
    item_key: Vec<u64>,
    key: Ghost<spec_fn(T) -> Seq<u64>>,
)
    requires
        old(items).len() == old(keys).len(),
        forall|i: int| 0 <= i < old(keys).len() ==> (#[trigger] old(keys)@[i])@ == key@(old(items)@[i]),
        keys_ascending(keys_of(old(items)@, key@)),
        item_key@ == key@(item),
    ensures
        final(items).len() == final(keys).len(),
        forall|i: int| 0 <= i < final(keys).len() ==> (#[trigger] final(keys)@[i])@ == key@(final(items)@[i]),
        keys_ascending(keys_of(final(items)@, key@)),
        forall|k: Seq<u64>|
            has_key(final(items)@, key@, k) <==> (has_key(old(items)@, key@, k) || k == key@(item)),
{
    let ghost s = items@;
    let ghost ks = keys_of(s, key@);
    let mut p: usize = 0;
    while p < keys.len() && lex_compare(&keys[p], &item_key) == -1
        invariant
            p <= keys.len(),
            keys.len() == s.len(),
            items@ == s,
            forall|i: int| 0 <= i < keys.len() ==> (#[trigger] keys@[i])@ == key@(s[i]),
            forall|k: int| 0 <= k < p ==> lex_lt(#[trigger] key@(s[k]), item_key@),
        decreases keys.len() - p,
    {
        p = p + 1;
    }
    if p < keys.len() {
        if lex_compare(&keys[p], &item_key) == 0 {
            proof {
                assert(has_key(s, key@, key@(item))) by {
                    assert(key@(s[p as int]) == key@(item));
                }
            }
            return;
        }
    }
    proof {
        if p < s.len() {
            lemma_lex_order(key@(s[p as int]), item_key@);
        }
    }
    items.insert(p, item);
    keys.insert(p, item_key);
    proof {
        let t = items@;
        assert(t =~= s.insert(p as int, item));
        assert forall|i: int| 0 <= i < keys.len() implies (#[trigger] keys@[i])@ == key@(t[i]) by {
            if i < p {
                assert(t[i] == s[i]);
            } else if i > p {
                assert(t[i] == s[i - 1]);
            }
        }
        assert forall|i: int, j: int| 0 <= i < j < t.len() implies lex_lt(
            #[trigger] keys_of(t, key@)[i],
            #[trigger] keys_of(t, key@)[j],
        ) by {
            assert(ks[0 as int] == key@(s[0 as int]) || s.len() == 0);
            if j < p {
                assert(t[i] == s[i] && t[j] == s[j]);
                assert(lex_lt(ks[i], ks[j]));
            } else if j == p {
                assert(t[j] == item && t[i] == s[i]);
            } else if i == p {
                assert(t[i] == item && t[j] == s[j - 1]);
                if j - 1 > p {
                    assert(lex_lt(ks[p as int], ks[j - 1]));
                    lemma_lex_trans(item_key@, key@(s[p as int]), key@(s[j - 1]));
                }
            } else if i < p {
                assert(t[i] == s[i] && t[j] == s[j - 1]);
                if j - 1 > p {
                    assert(lex_lt(ks[p as int], ks[j - 1]));
                    lemma_lex_trans(item_key@, key@(s[p as int]), key@(s[j - 1]));
                }
                lemma_lex_trans(key@(s[i]), item_key@, key@(s[j - 1]));
            } else {
                assert(t[i] == s[i - 1] && t[j] == s[j - 1]);
                assert(lex_lt(ks[i - 1], ks[j - 1]));
            }
        }
        assert forall|k: Seq<u64>| has_key(t, key@, k) <==> (has_key(s, key@, k) || k == key@(item)) by {
            if has_key(t, key@, k) {
                let q = choose|q: int| 0 <= q < t.len() && key@(t[q]) == k;
                if q < p {
                    assert(s[q] == t[q]);
                } else if q > p {
                    assert(s[q - 1] == t[q]);
                }
            }
            if has_key(s, key@, k) {
                let q = choose|q: int| 0 <= q < s.len() && key@(s[q]) == k;
                if q < p {
                    assert(t[q] == s[q]);
                } else {
                    assert(t[q + 1] == s[q]);
                }
            }
            if k == key@(item) {
                assert(key@(t[p as int]) == k);
            }
        }
    }
}

/// A list holds exactly the keys of an input, once each, ascending.
pub open spec fn canonical_set_of<T>(canonical: Seq<T>, input: Seq<T>, key: spec_fn(T) -> Seq<u64>) -> bool {
    &&& keys_ascending(keys_of(canonical, key))
    &&& forall|k: Seq<u64>| has_key(canonical, key, k) <==> has_key(input, key, k)
}

/// One more input item adds exactly its key.
pub proof fn lemma_has_key_prefix<T>(s: Seq<T>, i: int, key: spec_fn(T) -> Seq<u64>)
    requires
        0 <= i < s.len(),
    ensures
        forall|k: Seq<u64>|
            has_key(s.subrange(0, i + 1), key, k) <==> (has_key(s.subrange(0, i), key, k) || k == key(s[i])),
{
    let prefix = s.subrange(0, i);
    let next = s.subrange(0, i + 1);
    assert forall|k: Seq<u64>| has_key(next, key, k) <==> (has_key(prefix, key, k) || k == key(s[i])) by {
        if has_key(next, key, k) {
            let q = choose|q: int| 0 <= q < next.len() && key(next[q]) == k;
            if q < i {
                assert(prefix[q] == next[q]);
            }
        }
        if has_key(prefix, key, k) {
            let q = choose|q: int| 0 <= q < prefix.len() && key(prefix[q]) == k;
            assert(next[q] == prefix[q]);
        }
        if k == key(s[i]) {
            assert(next[i] == s[i]);
        }
    }
}

/// A canonical set of a non-empty input is non-empty, and never longer than it.
pub proof fn lemma_canonical_len<T>(canonical: Seq<T>, input: Seq<T>, key: spec_fn(T) -> Seq<u64>)
    requires
        canonical_set_of(canonical, input, key),
    ensures
        input.len() > 0 <==> canonical.len() > 0,
{
    if input.len() > 0 {
        assert(has_key(input, key, key(input[0])));
    }
    if canonical.len() > 0 {
        assert(has_key(canonical, key, key(canonical[0])));
    }
}

} // verus!
