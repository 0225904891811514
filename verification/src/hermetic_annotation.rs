//! Hidden annotations of the hermetic incident corpus: root-cause
//! alternatives and claim sets kept in canonical order, the claim policy that
//! keeps forbidden, unsupported and root claims apart, and the digest that
//! binds an annotation.

use vstd::prelude::*;
use vstd::utf8::encode_utf8;
use crate::canonical::{lex_compare, lex_lt};
use crate::baselines::bytes_eq;
use crate::digest::{bytes32_eq, ArtifactDigest};
use crate::hermetic_governance::{be_framed, push_be_field, HermeticIncidentGovernedAnnotationV1};
use crate::hermetic_incident_outcome_corpus::{
    HermeticIncidentAbstentionAuthorityV1, HermeticIncidentCaseV1, HermeticIncidentClaimV1,
    HermeticIncidentCorpusErrorV1, HermeticIncidentExpectedOutcomeV1, HermeticIncidentFaultFamilyV1,
    HermeticIncidentRootAlternativeV1,
};
use crate::manifest::{EvidenceTargetV1, EvidentrailBenchAnnotationSpecV1, WeightedDiagnosticRequirementV1};
use crate::sha256::{push_bytes, push_u64_be, push_u64_le, sha256, sha256_spec, u64_be, u64_le};

verus! {

/// Most root-cause alternatives one annotation may accept.
pub const MAX_HERMETIC_INCIDENT_ROOT_ALTERNATIVES_V1: usize = 4;

/// Most diagnostic requirements one annotation may carry.
pub const MAX_HERMETIC_INCIDENT_REQUIREMENTS_V1: usize = 8;

/// Most claims one root-cause alternative may hold.
pub const MAX_HERMETIC_INCIDENT_ROOT_CLAIMS_V1: usize = 4;

/// The sort key of a claim: each byte raised by one, then a zero. Comparing
/// keys compares claims byte by byte, a proper prefix first; comparing the
/// concatenated keys of two claim lists compares the lists claim by claim,
/// a proper prefix first.
pub open spec fn claim_key(c: Seq<u8>) -> Seq<u64> {
    c.map_values(|b: u8| (b + 1) as u64) + seq![0u64]
}

/// The sort key of a list of claims: its claims' keys, concatenated.
pub open spec fn claims_key(claims: Seq<Seq<u8>>) -> Seq<u64>
    decreases claims.len(),
{
    if claims.len() == 0 {
        Seq::empty()
    } else {
        claims_key(claims.drop_last()) + claim_key(claims.last())
    }
}

/// The bytes of each claim.
pub open spec fn claims_view(claims: Seq<HermeticIncidentClaimV1>) -> Seq<Seq<u8>> {
    claims.map_values(|c: HermeticIncidentClaimV1| c.0@)
}

/// The claims of each root-cause alternative.
pub open spec fn roots_view(roots: Seq<HermeticIncidentRootAlternativeV1>) -> Seq<Seq<Seq<u8>>> {
    roots.map_values(|r: HermeticIncidentRootAlternativeV1| claims_view(r.claims@))
}

/// Insert a claim before the first claim whose key is greater.
pub open spec fn claim_insert(s: Seq<Seq<u8>>, c: Seq<u8>) -> Seq<Seq<u8>>
    decreases s.len(),
{
    if s.len() == 0 {
        seq![c]
    } else if lex_lt(claim_key(c), claim_key(s[0])) {
        seq![c] + s
    } else {
        seq![s[0]] + claim_insert(s.drop_first(), c)
    }
}

/// Claims in ascending key order.
pub open spec fn claim_sort(s: Seq<Seq<u8>>) -> Seq<Seq<u8>>
    decreases s.len(),
{
    if s.len() == 0 {
        Seq::empty()
    } else {
        claim_insert(claim_sort(s.drop_last()), s.last())
    }
}

/// Two claims share a key.
pub open spec fn claims_repeated(s: Seq<Seq<u8>>) -> bool {
    exists|i: int, j: int| 0 <= i < j < s.len() && claim_key(#[trigger] s[i]) == claim_key(#[trigger] s[j])
}

proof fn lemma_claim_insert_at(s: Seq<Seq<u8>>, c: Seq<u8>, p: int)
    requires
        0 <= p <= s.len(),
        forall|i: int| 0 <= i < p ==> !lex_lt(claim_key(c), claim_key(#[trigger] s[i])),
        p == s.len() || lex_lt(claim_key(c), claim_key(s[p])),
    ensures
        claim_insert(s, c) == s.insert(p, c),
    decreases p,
{
    if p == 0 {
        if s.len() == 0 {
            assert(s.insert(0, c) =~= seq![c]);
        } else {
            assert(s.insert(0, c) =~= seq![c] + s);
        }
    } else {
        let t = s.drop_first();
        assert(!lex_lt(claim_key(c), claim_key(s[0])));
        assert forall|i: int| 0 <= i < p - 1 implies !lex_lt(claim_key(c), claim_key(#[trigger] t[i])) by {
            assert(t[i] == s[i + 1]);
        }
        if p < s.len() {
            assert(t[p - 1] == s[p]);
        }
        lemma_claim_insert_at(t, c, p - 1);
        assert(s.insert(p, c) =~= seq![s[0]] + t.insert(p - 1, c));
    }
}

/// Insert a root-cause alternative before the first one whose key is greater.
pub open spec fn root_insert(s: Seq<Seq<Seq<u8>>>, c: Seq<Seq<u8>>) -> Seq<Seq<Seq<u8>>>
    decreases s.len(),
{
    if s.len() == 0 {
        seq![c]
    } else if lex_lt(claims_key(c), claims_key(s[0])) {
        seq![c] + s
    } else {
        seq![s[0]] + root_insert(s.drop_first(), c)
    }
}

/// Root-cause alternatives in ascending key order.
pub open spec fn root_sort(s: Seq<Seq<Seq<u8>>>) -> Seq<Seq<Seq<u8>>>
    decreases s.len(),
{
    if s.len() == 0 {
        Seq::empty()
    } else {
        root_insert(root_sort(s.drop_last()), s.last())
    }
}

/// Two root-cause alternatives share a key.
pub open spec fn roots_repeated(s: Seq<Seq<Seq<u8>>>) -> bool {
    exists|i: int, j: int| 0 <= i < j < s.len() && claims_key(#[trigger] s[i]) == claims_key(#[trigger] s[j])
}

proof fn lemma_root_insert_at(s: Seq<Seq<Seq<u8>>>, c: Seq<Seq<u8>>, p: int)
    requires
        0 <= p <= s.len(),
        forall|i: int| 0 <= i < p ==> !lex_lt(claims_key(c), claims_key(#[trigger] s[i])),
        p == s.len() || lex_lt(claims_key(c), claims_key(s[p])),
    ensures
        root_insert(s, c) == s.insert(p, c),
    decreases p,
{
    if p == 0 {
        if s.len() == 0 {
            assert(s.insert(0, c) =~= seq![c]);
        } else {
            assert(s.insert(0, c) =~= seq![c] + s);
        }
    } else {
        let t = s.drop_first();
        assert(!lex_lt(claims_key(c), claims_key(s[0])));
        assert forall|i: int| 0 <= i < p - 1 implies !lex_lt(claims_key(c), claims_key(#[trigger] t[i])) by {
            assert(t[i] == s[i + 1]);
        }
        if p < s.len() {
            assert(t[p - 1] == s[p]);
        }
        lemma_root_insert_at(t, c, p - 1);
        assert(s.insert(p, c) =~= seq![s[0]] + t.insert(p - 1, c));
    }
}

fn push_claim_key(key: &mut Vec<u64>, c: &HermeticIncidentClaimV1)
    ensures
        final(key)@ == old(key)@ + claim_key(c.0@),
{
    let mut i: usize = 0;
    while i < c.0.len()
        invariant
            i <= c.0.len(),
            key@ == old(key)@ + c.0@.subrange(0, i as int).map_values(|b: u8| (b + 1) as u64),
        decreases c.0.len() - i,
    {
        key.push(c.0[i] as u64 + 1);
        proof {
            assert(c.0@.subrange(0, i + 1).map_values(|b: u8| (b + 1) as u64) =~= c.0@.subrange(
                0,
                i as int,
            ).map_values(|b: u8| (b + 1) as u64).push((c.0@[i as int] + 1) as u64));
        }
        i = i + 1;
    }
    key.push(0);
    proof {
        assert(c.0@.subrange(0, c.0.len() as int) =~= c.0@);
        assert(key@ =~= old(key)@ + claim_key(c.0@));
    }
}

fn claims_key_exec(claims: &Vec<HermeticIncidentClaimV1>) -> (r: Vec<u64>)
    ensures
        r@ == claims_key(claims_view(claims@)),
{
    let mut key: Vec<u64> = Vec::new();
    let mut i: usize = 0;
    while i < claims.len()
        invariant
            i <= claims.len(),
            key@ == claims_key(claims_view(claims@.subrange(0, i as int))),
        decreases claims.len() - i,
    {
        push_claim_key(&mut key, &claims[i]);
        proof {
            let v = claims_view(claims@.subrange(0, i + 1));
            assert(v.drop_last() =~= claims_view(claims@.subrange(0, i as int)));
            assert(v.last() == claims@[i as int].0@);
        }
        i = i + 1;
    }
    proof {
        assert(claims@.subrange(0, claims.len() as int) =~= claims@);
    }
    key
}

fn copy_claim(c: &HermeticIncidentClaimV1) -> (r: HermeticIncidentClaimV1)
    ensures
        r.0@ == c.0@,
{
    let mut bytes: Vec<u8> = Vec::new();
    let mut i: usize = 0;
    while i < c.0.len()
        invariant
            i <= c.0.len(),
            bytes@ == c.0@.subrange(0, i as int),
        decreases c.0.len() - i,
    {
        bytes.push(c.0[i]);
        proof {
            assert(bytes@ =~= c.0@.subrange(0, i + 1));
        }
        i = i + 1;
    }
    proof {
        assert(c.0@.subrange(0, c.0.len() as int) =~= c.0@);
    }
    HermeticIncidentClaimV1(bytes)
}

fn copy_claims(claims: &Vec<HermeticIncidentClaimV1>) -> (r: Vec<HermeticIncidentClaimV1>)
    ensures
        claims_view(r@) == claims_view(claims@),
{
    let mut out: Vec<HermeticIncidentClaimV1> = Vec::new();
    let mut i: usize = 0;
    while i < claims.len()
        invariant
            i <= claims.len(),
            out.len() == i,
            claims_view(out@) == claims_view(claims@.subrange(0, i as int)),
        decreases claims.len() - i,
    {
        let c = copy_claim(&claims[i]);
        let ghost before = out@;
        out.push(c);
        proof {
            let v = claims_view(out@);
            let w = claims_view(claims@.subrange(0, i + 1));
            assert(out@ == before.push(c));
            assert(v.len() == i + 1);
            assert(w.len() == i + 1);
            assert forall|q: int| 0 <= q < v.len() implies v[q] == w[q] by {
                if q < i {
                    assert(out@[q] == before[q]);
                    assert(claims_view(before)[q] == claims_view(claims@.subrange(0, i as int))[q]);
                } else {
                    assert(out@[q] == c);
                }
            }
            assert(v =~= w);
        }
        i = i + 1;
    }
    proof {
        assert(claims@.subrange(0, claims.len() as int) =~= claims@);
    }
    out
}

/// The position of the first key greater than `key`.
fn insert_position(keys: &Vec<Vec<u64>>, key: &Vec<u64>) -> (r: usize)
    ensures
        r <= keys.len(),
        forall|q: int| 0 <= q < r ==> !lex_lt(key@, (#[trigger] keys@[q])@),
        r == keys.len() || lex_lt(key@, keys@[r as int]@),
{
    let mut p: usize = 0;
    while p < keys.len() && lex_compare(key, &keys[p]) != -1
        invariant
            p <= keys.len(),
            forall|q: int| 0 <= q < p ==> !lex_lt(key@, (#[trigger] keys@[q])@),
        decreases keys.len() - p,
    {
        p = p + 1;
    }
    p
}

/// Claims in canonical order, or the refusal when one repeats.
pub open spec fn canonical_claims(claims: Seq<Seq<u8>>) -> Result<Seq<Seq<u8>>, HermeticIncidentCorpusErrorV1> {
    if claims_repeated(claims) {
        Err(HermeticIncidentCorpusErrorV1::AnnotationBounds)
    } else {
        Ok(claim_sort(claims))
    }
}

/// Sort claims into canonical order; refuse a repeated claim.
fn canonical_claims_exec(claims: &Vec<HermeticIncidentClaimV1>) -> (r: Result<
    Vec<HermeticIncidentClaimV1>,
    HermeticIncidentCorpusErrorV1,
>)
    ensures
        match canonical_claims(claims_view(claims@)) {
            Err(e) => r == Err::<Vec<HermeticIncidentClaimV1>, HermeticIncidentCorpusErrorV1>(e),
            Ok(s) => r matches Ok(v) && claims_view(v@) == s,
        },
{
    let ghost view = claims_view(claims@);
    let mut keys: Vec<Vec<u64>> = Vec::new();
    let mut i: usize = 0;
    while i < claims.len()
        invariant
            i <= claims.len(),
            view == claims_view(claims@),
            keys.len() == i,
            forall|q: int| 0 <= q < i ==> (#[trigger] keys@[q])@ == claim_key(view[q]),
        decreases claims.len() - i,
    {
        let mut k: Vec<u64> = Vec::new();
        push_claim_key(&mut k, &claims[i]);
        keys.push(k);
        i = i + 1;
    }
    let mut a: usize = 0;
    while a < keys.len()
        invariant
            keys.len() == claims.len(),
            view == claims_view(claims@),
            forall|q: int| 0 <= q < keys.len() ==> (#[trigger] keys@[q])@ == claim_key(view[q]),
            forall|x: int, y: int| 0 <= x < a && x < y < keys.len() ==> claim_key(#[trigger] view[x]) != claim_key(#[trigger] view[y]),
        decreases keys.len() - a,
    {
        let mut b: usize = a + 1;
        while b < keys.len()
            invariant
                a < keys.len(),
                a + 1 <= b <= keys.len(),
                keys.len() == claims.len(),
                view == claims_view(claims@),
                forall|q: int| 0 <= q < keys.len() ==> (#[trigger] keys@[q])@ == claim_key(view[q]),
                forall|x: int, y: int| 0 <= x < a && x < y < keys.len() ==> claim_key(#[trigger] view[x]) != claim_key(#[trigger] view[y]),
                forall|y: int| a < y < b ==> claim_key(view[a as int]) != claim_key(#[trigger] view[y]),
            decreases keys.len() - b,
        {
            if lex_compare(&keys[a], &keys[b]) == 0 {
                proof {
                    crate::canonical::lemma_lex_order(keys@[a as int]@, keys@[b as int]@);
                    assert(claim_key(view[a as int]) == claim_key(view[b as int]));
                    assert(claims_repeated(view));
                }
                return Err(HermeticIncidentCorpusErrorV1::AnnotationBounds);
            }
            proof {
                crate::canonical::lemma_lex_order(keys@[a as int]@, keys@[b as int]@);
            }
            b = b + 1;
        }
        a = a + 1;
    }
    proof {
        assert(!claims_repeated(view));
    }
    let mut out: Vec<HermeticIncidentClaimV1> = Vec::new();
    let mut out_keys: Vec<Vec<u64>> = Vec::new();
    let mut j: usize = 0;
    proof {
        assert(view.take(0) =~= Seq::<Seq<u8>>::empty());
        assert(claims_view(out@) =~= Seq::<Seq<u8>>::empty());
    }
    while j < claims.len()
        invariant
            j <= claims.len(),
            keys.len() == claims.len(),
            view == claims_view(claims@),
            forall|q: int| 0 <= q < keys.len() ==> (#[trigger] keys@[q])@ == claim_key(view[q]),
            claims_view(out@) == claim_sort(view.take(j as int)),
            out_keys.len() == out.len(),
            forall|q: int| 0 <= q < out_keys.len() ==> (#[trigger] out_keys@[q])@ == claim_key(claims_view(out@)[q]),
        decreases claims.len() - j,
    {
        let p = insert_position(&out_keys, &keys[j]);
        let c = copy_claim(&claims[j]);
        let ghost before = claims_view(out@);
        let ghost before_keys = out_keys@;
        proof {
            assert forall|q: int| 0 <= q < p implies !lex_lt(claim_key(view[j as int]), claim_key(#[trigger] before[q])) by {
                assert(out_keys@[q]@ == claim_key(before[q]));
            }
            if p < out_keys.len() {
                assert(out_keys@[p as int]@ == claim_key(before[p as int]));
            }
            lemma_claim_insert_at(before, view[j as int], p as int);
            assert(view.take(j + 1).drop_last() =~= view.take(j as int));
            assert(view.take(j + 1).last() == view[j as int]);
        }
        out.insert(p, c);
        let k = claim_key_of(&claims[j]);
        out_keys.insert(p, k);
        proof {
            assert(claims_view(out@) =~= before.insert(p as int, view[j as int]));
            assert forall|q: int| 0 <= q < out_keys.len() implies (#[trigger] out_keys@[q])@ == claim_key(
                claims_view(out@)[q],
            ) by {
                if q < p {
                    assert(out_keys@[q] == before_keys[q]);
                } else if q > p {
                    assert(out_keys@[q] == before_keys[q - 1]);
                }
            }
        }
        j = j + 1;
    }
    proof {
        assert(view.take(claims.len() as int) =~= view);
    }
    Ok(out)
}

/// Root-cause alternatives in canonical order, or the refusal when one repeats.
pub open spec fn canonical_roots(claims: Seq<Seq<Seq<u8>>>) -> Result<Seq<Seq<Seq<u8>>>, HermeticIncidentCorpusErrorV1> {
    if roots_repeated(claims) {
        Err(HermeticIncidentCorpusErrorV1::AnnotationBounds)
    } else {
        Ok(root_sort(claims))
    }
}

/// Sort root-cause alternatives into canonical order; refuse a repeated one.
fn canonical_roots_exec(roots: &Vec<HermeticIncidentRootAlternativeV1>) -> (r: Result<
    Vec<HermeticIncidentRootAlternativeV1>,
    HermeticIncidentCorpusErrorV1,
>)
    ensures
        match canonical_roots(roots_view(roots@)) {
            Err(e) => r == Err::<Vec<HermeticIncidentRootAlternativeV1>, HermeticIncidentCorpusErrorV1>(e),
            Ok(s) => r matches Ok(v) && roots_view(v@) == s,
        },
{
    let ghost view = roots_view(roots@);
    let mut keys: Vec<Vec<u64>> = Vec::new();
    let mut i: usize = 0;
    while i < roots.len()
        invariant
            i <= roots.len(),
            view == roots_view(roots@),
            keys.len() == i,
            forall|q: int| 0 <= q < i ==> (#[trigger] keys@[q])@ == claims_key(view[q]),
        decreases roots.len() - i,
    {
        let k = claims_key_exec(&roots[i].claims);
        keys.push(k);
        i = i + 1;
    }
    let mut a: usize = 0;
    while a < keys.len()
        invariant
            keys.len() == roots.len(),
            view == roots_view(roots@),
            forall|q: int| 0 <= q < keys.len() ==> (#[trigger] keys@[q])@ == claims_key(view[q]),
            forall|x: int, y: int| 0 <= x < a && x < y < keys.len() ==> claims_key(#[trigger] view[x]) != claims_key(#[trigger] view[y]),
        decreases keys.len() - a,
    {
        let mut b: usize = a + 1;
        while b < keys.len()
            invariant
                a < keys.len(),
                a + 1 <= b <= keys.len(),
                keys.len() == roots.len(),
                view == roots_view(roots@),
                forall|q: int| 0 <= q < keys.len() ==> (#[trigger] keys@[q])@ == claims_key(view[q]),
                forall|x: int, y: int| 0 <= x < a && x < y < keys.len() ==> claims_key(#[trigger] view[x]) != claims_key(#[trigger] view[y]),
                forall|y: int| a < y < b ==> claims_key(view[a as int]) != claims_key(#[trigger] view[y]),
            decreases keys.len() - b,
        {
            if lex_compare(&keys[a], &keys[b]) == 0 {
                proof {
                    crate::canonical::lemma_lex_order(keys@[a as int]@, keys@[b as int]@);
                    assert(claims_key(view[a as int]) == claims_key(view[b as int]));
                    assert(roots_repeated(view));
                }
                return Err(HermeticIncidentCorpusErrorV1::AnnotationBounds);
            }
            proof {
                crate::canonical::lemma_lex_order(keys@[a as int]@, keys@[b as int]@);
            }
            b = b + 1;
        }
        a = a + 1;
    }
    proof {
        assert(!roots_repeated(view));
    }
    let mut out: Vec<HermeticIncidentRootAlternativeV1> = Vec::new();
    let mut out_keys: Vec<Vec<u64>> = Vec::new();
    let mut j: usize = 0;
    proof {
        assert(view.take(0) =~= Seq::<Seq<Seq<u8>>>::empty());
        assert(roots_view(out@) =~= Seq::<Seq<Seq<u8>>>::empty());
    }
    while j < roots.len()
        invariant
            j <= roots.len(),
            keys.len() == roots.len(),
            view == roots_view(roots@),
            forall|q: int| 0 <= q < keys.len() ==> (#[trigger] keys@[q])@ == claims_key(view[q]),
            roots_view(out@) == root_sort(view.take(j as int)),
            out_keys.len() == out.len(),
            forall|q: int| 0 <= q < out_keys.len() ==> (#[trigger] out_keys@[q])@ == claims_key(roots_view(out@)[q]),
        decreases roots.len() - j,
    {
        let p = insert_position(&out_keys, &keys[j]);
        let c = HermeticIncidentRootAlternativeV1 { claims: copy_claims(&roots[j].claims) };
        let ghost before = roots_view(out@);
        let ghost before_keys = out_keys@;
        proof {
            assert forall|q: int| 0 <= q < p implies !lex_lt(claims_key(view[j as int]), claims_key(#[trigger] before[q])) by {
                assert(out_keys@[q]@ == claims_key(before[q]));
            }
            if p < out_keys.len() {
                assert(out_keys@[p as int]@ == claims_key(before[p as int]));
            }
            lemma_root_insert_at(before, view[j as int], p as int);
            assert(view.take(j + 1).drop_last() =~= view.take(j as int));
            assert(view.take(j + 1).last() == view[j as int]);
        }
        out.insert(p, c);
        let k = claims_key_exec(&roots[j].claims);
        out_keys.insert(p, k);
        proof {
            assert(roots_view(out@) =~= before.insert(p as int, view[j as int]));
            assert forall|q: int| 0 <= q < out_keys.len() implies (#[trigger] out_keys@[q])@ == claims_key(
                roots_view(out@)[q],
            ) by {
                if q < p {
                    assert(out_keys@[q] == before_keys[q]);
                } else if q > p {
                    assert(out_keys@[q] == before_keys[q - 1]);
                }
            }
        }
        j = j + 1;
    }
    proof {
        assert(view.take(roots.len() as int) =~= view);
    }
    Ok(out)
}

fn claim_key_of(c: &HermeticIncidentClaimV1) -> (r: Vec<u64>)
    ensures
        r@ == claim_key(c.0@),
{
    let mut k: Vec<u64> = Vec::new();
    push_claim_key(&mut k, c);
    proof {
        assert(k@ =~= claim_key(c.0@));
    }
    k
}

impl HermeticIncidentRootAlternativeV1 {
    /// One root-cause alternative: one to four distinct claims, kept in
    /// canonical order.
    pub fn new(claims: Vec<HermeticIncidentClaimV1>) -> (r: Result<Self, HermeticIncidentCorpusErrorV1>)
        ensures
            r is Ok <==> (!claims_repeated(claims_view(claims@)) && 1 <= claims.len()
                <= MAX_HERMETIC_INCIDENT_ROOT_CLAIMS_V1),
            r matches Err(e) ==> e == HermeticIncidentCorpusErrorV1::AnnotationBounds,
            r matches Ok(root) ==> claims_view(root.claims@) == claim_sort(claims_view(claims@)),
    {
        proof {
            lemma_claim_sort_len(claims_view(claims@));
        }
        let sorted = match canonical_claims_exec(&claims) {
            Ok(v) => v,
            Err(e) => {
                return Err(e);
            },
        };
        if sorted.len() == 0 || sorted.len() > MAX_HERMETIC_INCIDENT_ROOT_CLAIMS_V1 {
            return Err(HermeticIncidentCorpusErrorV1::AnnotationBounds);
        }
        Ok(HermeticIncidentRootAlternativeV1 { claims: sorted })
    }
}

proof fn lemma_claim_insert_len(s: Seq<Seq<u8>>, c: Seq<u8>)
    ensures
        claim_insert(s, c).len() == s.len() + 1,
    decreases s.len(),
{
    if s.len() > 0 {
        lemma_claim_insert_len(s.drop_first(), c);
    }
}

proof fn lemma_claim_sort_len(s: Seq<Seq<u8>>)
    ensures
        claim_sort(s).len() == s.len(),
    decreases s.len(),
{
    if s.len() > 0 {
        lemma_claim_sort_len(s.drop_last());
        lemma_claim_insert_len(claim_sort(s.drop_last()), s.last());
    }
}

proof fn lemma_root_insert_len(s: Seq<Seq<Seq<u8>>>, c: Seq<Seq<u8>>)
    ensures
        root_insert(s, c).len() == s.len() + 1,
    decreases s.len(),
{
    if s.len() > 0 {
        lemma_root_insert_len(s.drop_first(), c);
    }
}

proof fn lemma_root_sort_len(s: Seq<Seq<Seq<u8>>>)
    ensures
        root_sort(s).len() == s.len(),
    decreases s.len(),
{
    if s.len() > 0 {
        lemma_root_sort_len(s.drop_last());
        lemma_root_insert_len(root_sort(s.drop_last()), s.last());
    }
}

/// Some root-cause alternative holds the claim.
pub open spec fn root_claimed(roots: Seq<Seq<Seq<u8>>>, c: Seq<u8>) -> bool {
    exists|a: int, b: int| 0 <= a < roots.len() && 0 <= b < roots[a].len() && roots[a][b] == c
}

/// A forbidden claim is also unsupported or a root claim, or an unsupported
/// claim is a root claim.
pub open spec fn claims_conflict(roots: Seq<Seq<Seq<u8>>>, forbidden: Seq<Seq<u8>>, unsupported: Seq<Seq<u8>>) -> bool {
    ||| exists|i: int| 0 <= i < forbidden.len() && (unsupported.contains(#[trigger] forbidden[i]) || root_claimed(roots, forbidden[i]))
    ||| exists|i: int| 0 <= i < unsupported.len() && root_claimed(roots, #[trigger] unsupported[i])
}

/// The checks of an annotation, in order, and its canonical parts: the
/// evidence belongs to the case and holds one to eight requirements; roots,
/// forbidden and unsupported claims repeat nothing; at most four roots, and
/// some forbidden and some unsupported claims; a diagnosis has a root and an
/// abstention none; and no claim is in two roles.
pub open spec fn annotation_parts(
    public_case_digest: ArtifactDigest,
    expected_outcome: HermeticIncidentExpectedOutcomeV1,
    roots: Seq<Seq<Seq<u8>>>,
    forbidden: Seq<Seq<u8>>,
    unsupported: Seq<Seq<u8>>,
    evidence: EvidentrailBenchAnnotationSpecV1,
) -> Result<(Seq<Seq<Seq<u8>>>, Seq<Seq<u8>>, Seq<Seq<u8>>), HermeticIncidentCorpusErrorV1> {
    if evidence.public_case_artifact_digest.0@ != public_case_digest.0@ || evidence.diagnostic_requirements.len() == 0
        || evidence.diagnostic_requirements.len() > MAX_HERMETIC_INCIDENT_REQUIREMENTS_V1 {
        Err(HermeticIncidentCorpusErrorV1::AnnotationBounds)
    } else if roots_repeated(roots) || claims_repeated(forbidden) || claims_repeated(unsupported) {
        Err(HermeticIncidentCorpusErrorV1::AnnotationBounds)
    } else {
        let r = root_sort(roots);
        let f = claim_sort(forbidden);
        let u = claim_sort(unsupported);
        if r.len() > MAX_HERMETIC_INCIDENT_ROOT_ALTERNATIVES_V1 || f.len() == 0 || u.len() == 0 {
            Err(HermeticIncidentCorpusErrorV1::AnnotationBounds)
        } else if (expected_outcome is Diagnose && r.len() == 0) || (expected_outcome is Abstain && r.len() != 0) {
            Err(HermeticIncidentCorpusErrorV1::OutcomeMismatch)
        } else if claims_conflict(r, f, u) {
            Err(HermeticIncidentCorpusErrorV1::ClaimPolicyConflict)
        } else {
            Ok((r, f, u))
        }
    }
}

fn claim_in(claims: &Vec<HermeticIncidentClaimV1>, c: &HermeticIncidentClaimV1) -> (r: bool)
    ensures
        r == claims_view(claims@).contains(c.0@),
{
    let ghost v = claims_view(claims@);
    let mut i: usize = 0;
    while i < claims.len()
        invariant
            i <= claims.len(),
            v == claims_view(claims@),
            forall|q: int| 0 <= q < i ==> v[q] != c.0@,
        decreases claims.len() - i,
    {
        if bytes_eq(claims[i].0.as_slice(), c.0.as_slice()) {
            proof {
                assert(v[i as int] == c.0@);
            }
            return true;
        }
        i = i + 1;
    }
    false
}

fn root_claim_in(roots: &Vec<HermeticIncidentRootAlternativeV1>, c: &HermeticIncidentClaimV1) -> (r: bool)
    ensures
        r == root_claimed(roots_view(roots@), c.0@),
{
    let ghost v = roots_view(roots@);
    let mut a: usize = 0;
    while a < roots.len()
        invariant
            a <= roots.len(),
            v == roots_view(roots@),
            forall|x: int, y: int| 0 <= x < a && 0 <= y < v[x].len() ==> v[x][y] != c.0@,
        decreases roots.len() - a,
    {
        if claim_in(&roots[a].claims, c) {
            proof {
                let y = choose|y: int| 0 <= y < v[a as int].len() && v[a as int][y] == c.0@;
            }
            return true;
        }
        a = a + 1;
    }
    false
}

fn conflicting(
    roots: &Vec<HermeticIncidentRootAlternativeV1>,
    forbidden: &Vec<HermeticIncidentClaimV1>,
    unsupported: &Vec<HermeticIncidentClaimV1>,
) -> (r: bool)
    ensures
        r == claims_conflict(roots_view(roots@), claims_view(forbidden@), claims_view(unsupported@)),
{
    let ghost rv = roots_view(roots@);
    let ghost fv = claims_view(forbidden@);
    let ghost uv = claims_view(unsupported@);
    let mut i: usize = 0;
    while i < forbidden.len()
        invariant
            i <= forbidden.len(),
            rv == roots_view(roots@),
            fv == claims_view(forbidden@),
            uv == claims_view(unsupported@),
            forall|q: int| 0 <= q < i ==> !(uv.contains(#[trigger] fv[q]) || root_claimed(rv, fv[q])),
        decreases forbidden.len() - i,
    {
        if claim_in(unsupported, &forbidden[i]) || root_claim_in(roots, &forbidden[i]) {
            proof {
                assert(fv[i as int] == forbidden@[i as int].0@);
            }
            return true;
        }
        i = i + 1;
    }
    let mut j: usize = 0;
    while j < unsupported.len()
        invariant
            j <= unsupported.len(),
            rv == roots_view(roots@),
            fv == claims_view(forbidden@),
            uv == claims_view(unsupported@),
            forall|q: int| 0 <= q < fv.len() ==> !(uv.contains(#[trigger] fv[q]) || root_claimed(rv, fv[q])),
            forall|q: int| 0 <= q < j ==> !root_claimed(rv, #[trigger] uv[q]),
        decreases unsupported.len() - j,
    {
        if root_claim_in(roots, &unsupported[j]) {
            proof {
                assert(uv[j as int] == unsupported@[j as int].0@);
            }
            return true;
        }
        j = j + 1;
    }
    false
}

/// Domain that opens the annotation digest.
pub const GOVERNED_ANNOTATION_DOMAIN_V1: &'static str = "evidentrail/bench/hermetic-incident-governed-annotation/v1\0";

pub open spec fn outcome_bytes(outcome: HermeticIncidentExpectedOutcomeV1) -> Seq<u8> {
    match outcome {
        HermeticIncidentExpectedOutcomeV1::Diagnose => seq![0u8],
        HermeticIncidentExpectedOutcomeV1::Abstain(authority) => seq![1u8] + be_framed(
            encode_utf8(authority.spec_code()),
        ) + match authority {
            HermeticIncidentAbstentionAuthorityV1::MissingAuthorizedScopedComponent(component) => be_framed(
                component@,
            ),
            HermeticIncidentAbstentionAuthorityV1::PredecessorOrderingUnobservable => be_framed(Seq::empty()),
        },
    }
}

pub open spec fn claims_bytes(claims: Seq<Seq<u8>>) -> Seq<u8>
    decreases claims.len(),
{
    if claims.len() == 0 {
        Seq::empty()
    } else {
        claims_bytes(claims.drop_last()) + be_framed(claims.last())
    }
}

pub open spec fn roots_bytes(roots: Seq<Seq<Seq<u8>>>) -> Seq<u8>
    decreases roots.len(),
{
    if roots.len() == 0 {
        Seq::empty()
    } else {
        roots_bytes(roots.drop_last()) + u64_be(roots.last().len() as u64) + claims_bytes(roots.last())
    }
}

pub open spec fn target_bytes(target: EvidenceTargetV1) -> Seq<u8> {
    match target {
        EvidenceTargetV1::Event(id) => seq![0u8] + u64_le(id.0),
        EvidenceTargetV1::Block(id) => seq![1u8] + u64_le(id.0),
    }
}

pub open spec fn targets_bytes(targets: Seq<EvidenceTargetV1>) -> Seq<u8>
    decreases targets.len(),
{
    if targets.len() == 0 {
        Seq::empty()
    } else {
        targets_bytes(targets.drop_last()) + target_bytes(targets.last())
    }
}

pub open spec fn alternatives_bytes(alternatives: Seq<Vec<EvidenceTargetV1>>) -> Seq<u8>
    decreases alternatives.len(),
{
    if alternatives.len() == 0 {
        Seq::empty()
    } else {
        alternatives_bytes(alternatives.drop_last()) + u64_be(alternatives.last().len() as u64) + targets_bytes(
            alternatives.last()@,
        )
    }
}

pub open spec fn requirements_bytes(requirements: Seq<WeightedDiagnosticRequirementV1>) -> Seq<u8>
    decreases requirements.len(),
{
    if requirements.len() == 0 {
        Seq::empty()
    } else {
        let q = requirements.last();
        requirements_bytes(requirements.drop_last()) + u64_be(q.weight_micros) + u64_be(q.alternatives.len() as u64)
            + alternatives_bytes(q.alternatives@)
    }
}

pub open spec fn optional_targets_bytes(targets: Option<Vec<EvidenceTargetV1>>) -> Seq<u8> {
    match targets {
        None => seq![0u8],
        Some(v) => seq![1u8] + u64_be(v.len() as u64) + targets_bytes(v@),
    }
}

pub open spec fn evidence_bytes(evidence: EvidentrailBenchAnnotationSpecV1) -> Seq<u8> {
    evidence.public_case_artifact_digest.0@ + u64_be(evidence.diagnostic_requirements.len() as u64)
        + requirements_bytes(evidence.diagnostic_requirements@) + optional_targets_bytes(evidence.precursor_targets)
        + optional_targets_bytes(evidence.symptom_targets) + optional_targets_bytes(evidence.supporting_targets)
        + optional_targets_bytes(evidence.distractor_targets) + optional_targets_bytes(evidence.unsafe_targets)
}

/// The bytes the annotation digest commits to: the case, its public digest,
/// fault family and expected outcome, the canonical roots, forbidden and
/// unsupported claims, and the whole evidence specification.
pub open spec fn annotation_message(
    case: HermeticIncidentCaseV1,
    public_case_digest: ArtifactDigest,
    fault_family: HermeticIncidentFaultFamilyV1,
    expected_outcome: HermeticIncidentExpectedOutcomeV1,
    roots: Seq<Seq<Seq<u8>>>,
    forbidden: Seq<Seq<u8>>,
    unsupported: Seq<Seq<u8>>,
    evidence: EvidentrailBenchAnnotationSpecV1,
) -> Seq<u8> {
    encode_utf8(GOVERNED_ANNOTATION_DOMAIN_V1@) + be_framed(encode_utf8(case.spec_code())) + public_case_digest.0@
        + be_framed(encode_utf8(fault_family.spec_code())) + be_framed(encode_utf8(expected_outcome.spec_code()))
        + outcome_bytes(expected_outcome) + u64_be(roots.len() as u64) + roots_bytes(roots) + u64_be(
        forbidden.len() as u64,
    ) + claims_bytes(forbidden) + u64_be(unsupported.len() as u64) + claims_bytes(unsupported) + evidence_bytes(
        evidence,
    )
}

fn push_outcome(buf: &mut Vec<u8>, outcome: &HermeticIncidentExpectedOutcomeV1)
    ensures
        final(buf)@ == old(buf)@ + outcome_bytes(*outcome),
{
    match outcome {
        HermeticIncidentExpectedOutcomeV1::Diagnose => {
            buf.push(0u8);
        },
        HermeticIncidentExpectedOutcomeV1::Abstain(authority) => {
            buf.push(1u8);
            push_be_field(buf, authority.code().as_bytes());
            match authority {
                HermeticIncidentAbstentionAuthorityV1::MissingAuthorizedScopedComponent(component) => {
                    push_be_field(buf, component.as_slice());
                },
                HermeticIncidentAbstentionAuthorityV1::PredecessorOrderingUnobservable => {
                    let empty: Vec<u8> = Vec::new();
                    push_be_field(buf, empty.as_slice());
                    proof {
                        assert(empty@ =~= Seq::<u8>::empty());
                    }
                },
            }
        },
    }
    proof {
        assert(buf@ =~= old(buf)@ + outcome_bytes(*outcome));
    }
}

fn push_claims(buf: &mut Vec<u8>, claims: &Vec<HermeticIncidentClaimV1>)
    ensures
        final(buf)@ == old(buf)@ + claims_bytes(claims_view(claims@)),
{
    let ghost v = claims_view(claims@);
    let mut i: usize = 0;
    while i < claims.len()
        invariant
            i <= claims.len(),
            v == claims_view(claims@),
            buf@ == old(buf)@ + claims_bytes(v.take(i as int)),
        decreases claims.len() - i,
    {
        push_be_field(buf, claims[i].0.as_slice());
        proof {
            assert(v.take(i + 1).drop_last() =~= v.take(i as int));
            assert(v.take(i + 1).last() == claims@[i as int].0@);
            assert(buf@ =~= old(buf)@ + claims_bytes(v.take(i + 1)));
        }
        i = i + 1;
    }
    proof {
        assert(v.take(claims.len() as int) =~= v);
    }
}

fn push_roots(buf: &mut Vec<u8>, roots: &Vec<HermeticIncidentRootAlternativeV1>)
    ensures
        final(buf)@ == old(buf)@ + roots_bytes(roots_view(roots@)),
{
    let ghost v = roots_view(roots@);
    let mut i: usize = 0;
    while i < roots.len()
        invariant
            i <= roots.len(),
            v == roots_view(roots@),
            buf@ == old(buf)@ + roots_bytes(v.take(i as int)),
        decreases roots.len() - i,
    {
        let ghost before = buf@;
        push_u64_be(buf, roots[i].claims.len() as u64);
        push_claims(buf, &roots[i].claims);
        proof {
            assert(v.take(i + 1).drop_last() =~= v.take(i as int));
            assert(v.take(i + 1).last() == claims_view(roots@[i as int].claims@));
            assert(buf@ =~= old(buf)@ + roots_bytes(v.take(i + 1)));
        }
        i = i + 1;
    }
    proof {
        assert(v.take(roots.len() as int) =~= v);
    }
}

fn push_target(buf: &mut Vec<u8>, target: EvidenceTargetV1)
    ensures
        final(buf)@ == old(buf)@ + target_bytes(target),
{
    match target {
        EvidenceTargetV1::Event(id) => {
            buf.push(0u8);
            push_u64_le(buf, id.0);
        },
        EvidenceTargetV1::Block(id) => {
            buf.push(1u8);
            push_u64_le(buf, id.0);
        },
    }
    proof {
        assert(buf@ =~= old(buf)@ + target_bytes(target));
    }
}

fn push_targets(buf: &mut Vec<u8>, targets: &Vec<EvidenceTargetV1>)
    ensures
        final(buf)@ == old(buf)@ + targets_bytes(targets@),
{
    let mut i: usize = 0;
    while i < targets.len()
        invariant
            i <= targets.len(),
            buf@ == old(buf)@ + targets_bytes(targets@.take(i as int)),
        decreases targets.len() - i,
    {
        push_target(buf, targets[i]);
        proof {
            assert(targets@.take(i + 1).drop_last() =~= targets@.take(i as int));
            assert(buf@ =~= old(buf)@ + targets_bytes(targets@.take(i + 1)));
        }
        i = i + 1;
    }
    proof {
        assert(targets@.take(targets.len() as int) =~= targets@);
    }
}

fn push_requirement(buf: &mut Vec<u8>, q: &WeightedDiagnosticRequirementV1)
    ensures
        final(buf)@ == old(buf)@ + u64_be(q.weight_micros) + u64_be(q.alternatives.len() as u64) + alternatives_bytes(
            q.alternatives@,
        ),
{
    push_u64_be(buf, q.weight_micros);
    push_u64_be(buf, q.alternatives.len() as u64);
    let ghost head = buf@;
    let mut i: usize = 0;
    while i < q.alternatives.len()
        invariant
            i <= q.alternatives.len(),
            buf@ == head + alternatives_bytes(q.alternatives@.take(i as int)),
        decreases q.alternatives.len() - i,
    {
        push_u64_be(buf, q.alternatives[i].len() as u64);
        push_targets(buf, &q.alternatives[i]);
        proof {
            assert(q.alternatives@.take(i + 1).drop_last() =~= q.alternatives@.take(i as int));
            assert(buf@ =~= head + alternatives_bytes(q.alternatives@.take(i + 1)));
        }
        i = i + 1;
    }
    proof {
        assert(q.alternatives@.take(q.alternatives.len() as int) =~= q.alternatives@);
        assert(buf@ =~= old(buf)@ + u64_be(q.weight_micros) + u64_be(q.alternatives.len() as u64)
            + alternatives_bytes(q.alternatives@));
    }
}

fn push_optional_targets(buf: &mut Vec<u8>, targets: &Option<Vec<EvidenceTargetV1>>)
    ensures
        final(buf)@ == old(buf)@ + optional_targets_bytes(*targets),
{
    match targets {
        None => {
            buf.push(0u8);
        },
        Some(v) => {
            buf.push(1u8);
            push_u64_be(buf, v.len() as u64);
            push_targets(buf, v);
        },
    }
    proof {
        assert(buf@ =~= old(buf)@ + optional_targets_bytes(*targets));
    }
}

fn push_requirements(buf: &mut Vec<u8>, reqs: &Vec<WeightedDiagnosticRequirementV1>)
    ensures
        final(buf)@ == old(buf)@ + requirements_bytes(reqs@),
{
    let mut i: usize = 0;
    while i < reqs.len()
        invariant
            i <= reqs.len(),
            buf@ == old(buf)@ + requirements_bytes(reqs@.take(i as int)),
        decreases reqs.len() - i,
    {
        push_requirement(buf, &reqs[i]);
        proof {
            assert(reqs@.take(i + 1).drop_last() =~= reqs@.take(i as int));
            assert(buf@ =~= old(buf)@ + requirements_bytes(reqs@.take(i + 1)));
        }
        i = i + 1;
    }
    proof {
        assert(reqs@.take(reqs.len() as int) =~= reqs@);
    }
}

fn push_evidence(buf: &mut Vec<u8>, evidence: &EvidentrailBenchAnnotationSpecV1)
    ensures
        final(buf)@ == old(buf)@ + evidence_bytes(*evidence),
{
    push_bytes(buf, &evidence.public_case_artifact_digest.0);
    push_u64_be(buf, evidence.diagnostic_requirements.len() as u64);
    push_requirements(buf, &evidence.diagnostic_requirements);
    let ghost b1 = buf@;
    push_optional_targets(buf, &evidence.precursor_targets);
    let ghost b2 = buf@;
    push_optional_targets(buf, &evidence.symptom_targets);
    let ghost b3 = buf@;
    push_optional_targets(buf, &evidence.supporting_targets);
    let ghost b4 = buf@;
    push_optional_targets(buf, &evidence.distractor_targets);
    let ghost b5 = buf@;
    push_optional_targets(buf, &evidence.unsafe_targets);
    proof {
        assert(buf@ =~= b1 + optional_targets_bytes(evidence.precursor_targets) + optional_targets_bytes(
            evidence.symptom_targets,
        ) + optional_targets_bytes(evidence.supporting_targets) + optional_targets_bytes(evidence.distractor_targets)
            + optional_targets_bytes(evidence.unsafe_targets));
        assert(buf@ =~= old(buf)@ + evidence_bytes(*evidence));
    }
}

impl HermeticIncidentGovernedAnnotationV1 {
    /// One hidden annotation, checked and put in canonical form: roots and
    /// claims are sorted and may not repeat, forbidden, unsupported and root
    /// claims stay apart, and the digest binds every part.
    pub fn try_new(
        case: HermeticIncidentCaseV1,
        public_case_digest: ArtifactDigest,
        fault_family: HermeticIncidentFaultFamilyV1,
        expected_outcome: HermeticIncidentExpectedOutcomeV1,
        acceptable_roots: Vec<HermeticIncidentRootAlternativeV1>,
        forbidden_claims: Vec<HermeticIncidentClaimV1>,
        unsupported_claims: Vec<HermeticIncidentClaimV1>,
        evidence: EvidentrailBenchAnnotationSpecV1,
    ) -> (r: Result<Self, HermeticIncidentCorpusErrorV1>)
        ensures
            match annotation_parts(
                public_case_digest,
                expected_outcome,
                roots_view(acceptable_roots@),
                claims_view(forbidden_claims@),
                claims_view(unsupported_claims@),
                evidence,
            ) {
                Err(e) => r matches Err(x) && x == e,
                Ok(t) => r matches Ok(a) && a.case == case && a.public_case_digest == public_case_digest
                    && a.fault_family == fault_family && a.expected_outcome == expected_outcome && roots_view(
                    a.acceptable_roots@,
                ) == t.0 && claims_view(a.forbidden_claims@) == t.1 && claims_view(a.unsupported_claims@) == t.2
                    && a.evidence == evidence && a.digest.0@ == sha256_spec(
                    annotation_message(case, public_case_digest, fault_family, expected_outcome, t.0, t.1, t.2, evidence),
                ),
            },
    {
        if !bytes32_eq(&evidence.public_case_artifact_digest.0, &public_case_digest.0)
            || evidence.diagnostic_requirements.len() == 0
            || evidence.diagnostic_requirements.len() > MAX_HERMETIC_INCIDENT_REQUIREMENTS_V1 {
            return Err(HermeticIncidentCorpusErrorV1::AnnotationBounds);
        }
        let roots = match canonical_roots_exec(&acceptable_roots) {
            Ok(v) => v,
            Err(e) => {
                return Err(e);
            },
        };
        let forbidden = match canonical_claims_exec(&forbidden_claims) {
            Ok(v) => v,
            Err(e) => {
                return Err(e);
            },
        };
        let unsupported = match canonical_claims_exec(&unsupported_claims) {
            Ok(v) => v,
            Err(e) => {
                return Err(e);
            },
        };
        proof {
            lemma_root_sort_len(roots_view(acceptable_roots@));
            lemma_claim_sort_len(claims_view(forbidden_claims@));
            lemma_claim_sort_len(claims_view(unsupported_claims@));
        }
        if roots.len() > MAX_HERMETIC_INCIDENT_ROOT_ALTERNATIVES_V1 || forbidden.len() == 0 || unsupported.len() == 0 {
            return Err(HermeticIncidentCorpusErrorV1::AnnotationBounds);
        }
        let outcome_mismatch = match &expected_outcome {
            HermeticIncidentExpectedOutcomeV1::Diagnose => roots.len() == 0,
            HermeticIncidentExpectedOutcomeV1::Abstain(_) => roots.len() != 0,
        };
        if outcome_mismatch {
            return Err(HermeticIncidentCorpusErrorV1::OutcomeMismatch);
        }
        if conflicting(&roots, &forbidden, &unsupported) {
            return Err(HermeticIncidentCorpusErrorV1::ClaimPolicyConflict);
        }
        let mut message: Vec<u8> = Vec::new();
        push_bytes(&mut message, GOVERNED_ANNOTATION_DOMAIN_V1.as_bytes());
        push_be_field(&mut message, case.code().as_bytes());
        push_bytes(&mut message, &public_case_digest.0);
        push_be_field(&mut message, fault_family.code().as_bytes());
        push_be_field(&mut message, expected_outcome.code().as_bytes());
        push_outcome(&mut message, &expected_outcome);
        push_u64_be(&mut message, roots.len() as u64);
        push_roots(&mut message, &roots);
        push_u64_be(&mut message, forbidden.len() as u64);
        push_claims(&mut message, &forbidden);
        push_u64_be(&mut message, unsupported.len() as u64);
        push_claims(&mut message, &unsupported);
        push_evidence(&mut message, &evidence);
        proof {
            assert(message@ =~= annotation_message(
                case,
                public_case_digest,
                fault_family,
                expected_outcome,
                roots_view(roots@),
                claims_view(forbidden@),
                claims_view(unsupported@),
                evidence,
            ));
        }
        let digest = ArtifactDigest(sha256(message.as_slice()));
        Ok(
            HermeticIncidentGovernedAnnotationV1 {
                digest,
                case,
                public_case_digest,
                fault_family,
                expected_outcome,
                acceptable_roots: roots,
                forbidden_claims: forbidden,
                unsupported_claims: unsupported,
                evidence,
            },
        )
    }
}

} // verus!
