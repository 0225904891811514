//! The deterministic query-term baselines: raw chronological truncation,
//! query-term grep with head/tail sentinels, and a quota hybrid with head,
//! tail and evenly spaced coverage sentinels.

use vstd::prelude::*;

use crate::ledger::EventLedger;
use crate::lexical::{
    ascii_lowercase, ascii_tokens, contains_ascii_case_insensitive, is_alphabetic, is_connector,
    is_digit, is_upper, spec_contains_ignore_case, spec_is_alphabetic, spec_is_connector,
    spec_is_digit, spec_is_upper, spec_lower_seq, spec_tokens, spec_trim, trim_ascii_whitespace,
};
use crate::method::{
    all_below, build_result, built_result, checked_cost_within_budget, flagged, flagged_positions,
    lemma_flag_bytes_set, lemma_flagged, ordinal_bytes, strictly_increasing, ByteBudget,
    MethodDescriptor, MethodError, MethodResult, SelectionReason,
};

verus! {

pub open spec fn stopwords() -> Seq<Seq<u8>> {
    seq![
        seq![97u8],
        seq![97u8, 110u8],
        seq![116u8, 104u8, 101u8],
        seq![105u8, 115u8],
        seq![97u8, 114u8, 101u8],
        seq![119u8, 97u8, 115u8],
        seq![119u8, 101u8, 114u8, 101u8],
        seq![119u8, 104u8, 97u8, 116u8],
        seq![119u8, 104u8, 105u8, 99u8, 104u8],
        seq![119u8, 104u8, 111u8],
        seq![119u8, 104u8, 121u8],
        seq![104u8, 111u8, 119u8],
        seq![100u8, 105u8, 100u8],
        seq![100u8, 111u8, 101u8, 115u8],
        seq![100u8, 111u8],
        seq![116u8, 111u8],
        seq![111u8, 102u8],
        seq![102u8, 111u8, 114u8],
        seq![105u8, 110u8],
        seq![111u8, 110u8],
        seq![97u8, 116u8],
        seq![98u8, 121u8],
        seq![119u8, 105u8, 116u8, 104u8],
        seq![102u8, 114u8, 111u8, 109u8],
        seq![97u8, 114u8, 111u8, 117u8, 110u8, 100u8],
        seq![99u8, 97u8, 117u8, 115u8, 101u8],
        seq![99u8, 97u8, 117u8, 115u8, 101u8, 100u8],
    ]
}

/// The term is one of the fixed stopwords.
pub fn is_stopword(t: &[u8]) -> (r: bool)
    ensures
        r == stopwords().contains(t@),
{
    let r = (t.len() == 1 && t[0] == 97)
        || (t.len() == 2 && t[0] == 97 && t[1] == 110)
        || (t.len() == 3 && t[0] == 116 && t[1] == 104 && t[2] == 101)
        || (t.len() == 2 && t[0] == 105 && t[1] == 115)
        || (t.len() == 3 && t[0] == 97 && t[1] == 114 && t[2] == 101)
        || (t.len() == 3 && t[0] == 119 && t[1] == 97 && t[2] == 115)
        || (t.len() == 4 && t[0] == 119 && t[1] == 101 && t[2] == 114 && t[3] == 101)
        || (t.len() == 4 && t[0] == 119 && t[1] == 104 && t[2] == 97 && t[3] == 116)
        || (t.len() == 5 && t[0] == 119 && t[1] == 104 && t[2] == 105 && t[3] == 99 && t[4] == 104)
        || (t.len() == 3 && t[0] == 119 && t[1] == 104 && t[2] == 111)
        || (t.len() == 3 && t[0] == 119 && t[1] == 104 && t[2] == 121)
        || (t.len() == 3 && t[0] == 104 && t[1] == 111 && t[2] == 119)
        || (t.len() == 3 && t[0] == 100 && t[1] == 105 && t[2] == 100)
        || (t.len() == 4 && t[0] == 100 && t[1] == 111 && t[2] == 101 && t[3] == 115)
        || (t.len() == 2 && t[0] == 100 && t[1] == 111)
        || (t.len() == 2 && t[0] == 116 && t[1] == 111)
        || (t.len() == 2 && t[0] == 111 && t[1] == 102)
        || (t.len() == 3 && t[0] == 102 && t[1] == 111 && t[2] == 114)
        || (t.len() == 2 && t[0] == 105 && t[1] == 110)
        || (t.len() == 2 && t[0] == 111 && t[1] == 110)
        || (t.len() == 2 && t[0] == 97 && t[1] == 116)
        || (t.len() == 2 && t[0] == 98 && t[1] == 121)
        || (t.len() == 4 && t[0] == 119 && t[1] == 105 && t[2] == 116 && t[3] == 104)
        || (t.len() == 4 && t[0] == 102 && t[1] == 114 && t[2] == 111 && t[3] == 109)
        || (t.len() == 6 && t[0] == 97 && t[1] == 114 && t[2] == 111 && t[3] == 117 && t[4] == 110 && t[5] == 100)
        || (t.len() == 5 && t[0] == 99 && t[1] == 97 && t[2] == 117 && t[3] == 115 && t[4] == 101)
        || (t.len() == 6 && t[0] == 99 && t[1] == 97 && t[2] == 117 && t[3] == 115 && t[4] == 101 && t[5] == 100);
    proof {
        let w = stopwords();
        if r {
            assert(exists|i: int| 0 <= i < w.len() && w[i] =~= t@);
        } else {
            assert forall|i: int| 0 <= i < w.len() implies w[i] != t@ by {
                if w[i] =~= t@ {}
            }
        }
    }
    r
}

/// The term holds a digit, a connector, or (with at least two bytes) letters
/// that are all uppercase.
pub open spec fn spec_identifier_like(t: Seq<u8>) -> bool {
    ||| exists|i: int| 0 <= i < t.len() && spec_is_digit(t[i])
    ||| exists|i: int| 0 <= i < t.len() && spec_is_connector(t[i])
    ||| (t.len() >= 2 && (exists|i: int| 0 <= i < t.len() && spec_is_alphabetic(t[i])) && (forall|
        i: int,
    |
        0 <= i < t.len() && spec_is_alphabetic(t[i]) ==> spec_is_upper(t[i])))
}

pub fn is_identifier_like(t: &[u8]) -> (r: bool)
    ensures
        r == spec_identifier_like(t@),
{
    let mut any_digit = false;
    let mut any_connector = false;
    let mut any_alpha = false;
    let mut all_upper = true;
    let mut i: usize = 0;
    while i < t.len()
        invariant
            i <= t.len(),
            any_digit == (exists|j: int| 0 <= j < i && spec_is_digit(t@[j])),
            any_connector == (exists|j: int| 0 <= j < i && spec_is_connector(t@[j])),
            any_alpha == (exists|j: int| 0 <= j < i && spec_is_alphabetic(t@[j])),
            all_upper == (forall|j: int|
                0 <= j < i && spec_is_alphabetic(t@[j]) ==> spec_is_upper(t@[j])),
        decreases t.len() - i,
    {
        let b = t[i];
        if is_digit(b) {
            any_digit = true;
        }
        if is_connector(b) {
            any_connector = true;
        }
        if is_alphabetic(b) {
            any_alpha = true;
            if !is_upper(b) {
                all_upper = false;
            }
        }
        i = i + 1;
    }
    any_digit || any_connector || (t.len() >= 2 && any_alpha && all_upper)
}

/// Byte-string equality.
pub fn bytes_eq(a: &[u8], b: &[u8]) -> (r: bool)
    ensures
        r == (a@ == b@),
{
    if a.len() != b.len() {
        return false;
    }
    let mut i: usize = 0;
    while i < a.len()
        invariant
            i <= a.len() == b.len(),
            forall|j: int| 0 <= j < i ==> a@[j] == b@[j],
        decreases a.len() - i,
    {
        if a[i] != b[i] {
            return false;
        }
        i = i + 1;
    }
    proof {
        assert(a@ =~= b@);
    }
    true
}

/// One normalized query term.
#[derive(Clone, Debug)]
pub struct QueryTerm {
    pub normalized: Vec<u8>,
    pub identifier_like: bool,
}

/// The normalized form and identifier flag of each term.
pub open spec fn term_views(terms: Seq<QueryTerm>) -> Seq<(Seq<u8>, bool)> {
    terms.map_values(|t: QueryTerm| (t.normalized@, t.identifier_like))
}

/// A raw token is kept as a query term: its lowercase form is no stopword and
/// it has at least three bytes or looks like an identifier.
pub open spec fn spec_keep_token(raw: Seq<u8>) -> bool {
    !stopwords().contains(spec_lower_seq(raw)) && (raw.len() >= 3 || spec_identifier_like(raw))
}

/// Query terms from raw tokens, in first-occurrence order, deduplicated by
/// their normalized form.
pub open spec fn spec_terms_of_tokens(tokens: Seq<Seq<u8>>) -> Seq<(Seq<u8>, bool)>
    decreases tokens.len(),
{
    if tokens.len() == 0 {
        Seq::empty()
    } else {
        let prev = spec_terms_of_tokens(tokens.drop_last());
        let raw = tokens.last();
        let normalized = spec_lower_seq(raw);
        if spec_keep_token(raw) && !prev.map_values(|p: (Seq<u8>, bool)| p.0).contains(normalized) {
            prev.push((normalized, spec_identifier_like(raw)))
        } else {
            prev
        }
    }
}

/// The query terms of a query.
pub open spec fn spec_query_terms(query: Seq<u8>) -> Seq<(Seq<u8>, bool)> {
    spec_terms_of_tokens(spec_tokens(query))
}

/// Tokenize a query, drop fixed stopwords and short non-identifier noise, and
/// keep the first occurrence of each normalized term.
pub fn query_terms(query: &[u8]) -> (r: Vec<QueryTerm>)
    ensures
        term_views(r@) == spec_query_terms(query@),
{
    let tokens = ascii_tokens(query);
    let ghost toks = tokens@.map_values(|t: Vec<u8>| t@);
    let mut terms: Vec<QueryTerm> = Vec::new();
    let mut i: usize = 0;
    while i < tokens.len()
        invariant
            i <= tokens.len(),
            toks == tokens@.map_values(|t: Vec<u8>| t@),
            term_views(terms@) == spec_terms_of_tokens(toks.take(i as int)),
        decreases tokens.len() - i,
    {
        let raw = &tokens[i];
        let normalized = ascii_lowercase(raw.as_slice());
        let identifier_like = is_identifier_like(raw.as_slice());
        proof {
            assert(toks.take(i + 1).drop_last() == toks.take(i as int));
            assert(toks.take(i + 1).last() == raw@);
            assert(spec_lower_seq(raw@).len() == raw@.len());
        }
        let keep = !is_stopword(normalized.as_slice()) && (normalized.len() >= 3
            || identifier_like);
        if keep {
            let mut seen = false;
            let mut j: usize = 0;
            while j < terms.len()
                invariant
                    j <= terms.len(),
                    seen == (exists|k: int|
                        0 <= k < j && terms@[k].normalized@ == normalized@),
                decreases terms.len() - j,
            {
                if bytes_eq(terms[j].normalized.as_slice(), normalized.as_slice()) {
                    seen = true;
                }
                j = j + 1;
            }
            proof {
                let prev = term_views(terms@);
                let names = prev.map_values(|p: (Seq<u8>, bool)| p.0);
                if seen {
                    let k = choose|k: int| 0 <= k < terms.len() && terms@[k].normalized@ == normalized@;
                    assert(names[k] == normalized@);
                } else {
                    assert forall|k: int| 0 <= k < names.len() implies names[k] != normalized@ by {
                        assert(names[k] == terms@[k].normalized@);
                    }
                }
            }
            if !seen {
                let ghost old_terms = terms@;
                terms.push(QueryTerm { normalized, identifier_like });
                proof {
                    assert(term_views(terms@) =~= term_views(old_terms).push(
                        (spec_lower_seq(raw@), spec_identifier_like(raw@)),
                    ));
                }
            }
        }
        i = i + 1;
    }
    proof {
        assert(toks.take(toks.len() as int) == toks);
    }
    terms
}


/// The lowercase tokens of an event.
pub open spec fn event_words(e: Seq<u8>) -> Seq<Seq<u8>> {
    spec_tokens(e).map_values(|t: Seq<u8>| spec_lower_seq(t))
}

/// The term equals one of the event's lowercase tokens.
pub open spec fn term_exact(e: Seq<u8>, t: (Seq<u8>, bool)) -> bool {
    event_words(e).contains(t.0)
}

/// The term matches the event exactly or as a case-insensitive substring.
pub open spec fn term_matched(e: Seq<u8>, t: (Seq<u8>, bool)) -> bool {
    term_exact(e, t) || spec_contains_ignore_case(e, t.0)
}

pub open spec fn count_exact(e: Seq<u8>, terms: Seq<(Seq<u8>, bool)>) -> nat
    decreases terms.len(),
{
    if terms.len() == 0 {
        0
    } else {
        count_exact(e, terms.drop_last()) + if term_exact(e, terms.last()) {
            1nat
        } else {
            0nat
        }
    }
}

pub open spec fn count_identifier_exact(e: Seq<u8>, terms: Seq<(Seq<u8>, bool)>) -> nat
    decreases terms.len(),
{
    if terms.len() == 0 {
        0
    } else {
        count_identifier_exact(e, terms.drop_last()) + if term_exact(e, terms.last())
            && terms.last().1 {
            1nat
        } else {
            0nat
        }
    }
}

pub open spec fn count_matched(e: Seq<u8>, terms: Seq<(Seq<u8>, bool)>) -> nat
    decreases terms.len(),
{
    if terms.len() == 0 {
        0
    } else {
        count_matched(e, terms.drop_last()) + if term_matched(e, terms.last()) {
            1nat
        } else {
            0nat
        }
    }
}

pub open spec fn sat_add(a: nat, b: nat) -> nat {
    if a + b > usize::MAX {
        usize::MAX as nat
    } else {
        a + b
    }
}

pub open spec fn sat_sub(a: nat, b: nat) -> nat {
    if a >= b {
        (a - b) as nat
    } else {
        0
    }
}

pub open spec fn sat_mul(a: nat, b: nat) -> nat {
    if a * b > usize::MAX {
        usize::MAX as nat
    } else {
        a * b
    }
}

/// Specificity of one matched term: its byte length times its rarity
/// `(events + 1 - document frequency)`, at least one, all saturating.
pub open spec fn spec_term_specificity(term_bytes: nat, document_frequency: nat, event_count: nat) -> nat {
    let rarity = sat_sub(sat_add(event_count, 1), document_frequency);
    sat_mul(term_bytes, if rarity >= 1 {
        rarity
    } else {
        1
    })
}

pub fn term_specificity(term_bytes: usize, document_frequency: usize, event_count: usize) -> (r: usize)
    ensures
        r == spec_term_specificity(term_bytes as nat, document_frequency as nat, event_count as nat),
{
    let rarity = event_count.saturating_add(1).saturating_sub(document_frequency);
    let factor = if rarity >= 1 {
        rarity
    } else {
        1
    };
    match term_bytes.checked_mul(factor) {
        Some(v) => v,
        None => usize::MAX,
    }
}

/// Number of events of the ledger that the term matches.
pub open spec fn doc_freq(events: Seq<crate::ledger::LedgerEvent>, t: (Seq<u8>, bool)) -> nat
    decreases events.len(),
{
    if events.len() == 0 {
        0
    } else {
        doc_freq(events.drop_last(), t) + if term_matched(events.last().raw@, t) {
            1nat
        } else {
            0nat
        }
    }
}

/// Saturating sum of the specificities of the terms an event matches.
pub open spec fn spec_specificity(
    e: Seq<u8>,
    terms: Seq<(Seq<u8>, bool)>,
    events: Seq<crate::ledger::LedgerEvent>,
) -> nat
    decreases terms.len(),
{
    if terms.len() == 0 {
        0
    } else {
        let prev = spec_specificity(e, terms.drop_last(), events);
        let t = terms.last();
        if term_matched(e, t) {
            sat_add(
                prev,
                spec_term_specificity(t.0.len(), doc_freq(events, t), events.len()),
            )
        } else {
            prev
        }
    }
}

/// What one event shows of the query; also its ranking score, compared
/// field by field in this order.
#[derive(Clone, Copy, Debug, Default, PartialEq, Eq, Structural)]
pub struct QueryMatchFeatures {
    pub full_query_match: bool,
    pub identifier_exact_matches: usize,
    pub exact_term_matches: usize,
    pub matched_terms: usize,
    pub specificity: usize,
}

/// The features of one event under a trimmed full query and its terms.
pub open spec fn spec_features(
    e: Seq<u8>,
    full_query: Seq<u8>,
    terms: Seq<(Seq<u8>, bool)>,
    events: Seq<crate::ledger::LedgerEvent>,
) -> QueryMatchFeatures {
    QueryMatchFeatures {
        full_query_match: spec_contains_ignore_case(e, full_query),
        identifier_exact_matches: count_identifier_exact(e, terms) as usize,
        exact_term_matches: count_exact(e, terms) as usize,
        matched_terms: count_matched(e, terms) as usize,
        specificity: spec_specificity(e, terms, events) as usize,
    }
}

/// The event is a query candidate: it holds the full query or some term.
pub open spec fn is_query_match(f: QueryMatchFeatures) -> bool {
    f.full_query_match || f.matched_terms != 0
}

/// Score `a` is strictly greater than score `b`, field by field.
pub open spec fn score_gt(a: QueryMatchFeatures, b: QueryMatchFeatures) -> bool {
    ||| (a.full_query_match && !b.full_query_match)
    ||| (a.full_query_match == b.full_query_match && (a.identifier_exact_matches
        > b.identifier_exact_matches || (a.identifier_exact_matches == b.identifier_exact_matches
        && (a.exact_term_matches > b.exact_term_matches || (a.exact_term_matches
        == b.exact_term_matches && (a.matched_terms > b.matched_terms || (a.matched_terms
        == b.matched_terms && a.specificity > b.specificity)))))))
}

/// One ranked query candidate.
#[derive(Clone, Copy, Debug, PartialEq, Eq, Structural)]
pub struct QueryCandidate {
    pub ordinal: usize,
    pub features: QueryMatchFeatures,
}

/// Ranking order: higher score first, then lower source position.
pub open spec fn candidate_before(a: QueryCandidate, b: QueryCandidate) -> bool {
    score_gt(a.features, b.features) || (a.features == b.features && a.ordinal < b.ordinal)
}

fn score_gt_exec(a: QueryMatchFeatures, b: QueryMatchFeatures) -> (r: bool)
    ensures
        r == score_gt(a, b),
{
    if a.full_query_match != b.full_query_match {
        return a.full_query_match;
    }
    if a.identifier_exact_matches != b.identifier_exact_matches {
        return a.identifier_exact_matches > b.identifier_exact_matches;
    }
    if a.exact_term_matches != b.exact_term_matches {
        return a.exact_term_matches > b.exact_term_matches;
    }
    if a.matched_terms != b.matched_terms {
        return a.matched_terms > b.matched_terms;
    }
    a.specificity > b.specificity
}

fn candidate_before_exec(a: QueryCandidate, b: QueryCandidate) -> (r: bool)
    ensures
        r == candidate_before(a, b),
{
    score_gt_exec(a.features, b.features) || (a.features == b.features && a.ordinal < b.ordinal)
}

/// Ranking order is a strict total order on candidates at distinct positions.
pub proof fn lemma_candidate_order(a: QueryCandidate, b: QueryCandidate, c: QueryCandidate)
    ensures
        candidate_before(a, b) && candidate_before(b, c) ==> candidate_before(a, c),
        !(candidate_before(a, b) && candidate_before(b, a)),
        a.ordinal != b.ordinal ==> candidate_before(a, b) || candidate_before(b, a),
{
}

/// Insert a candidate into a ranked sequence before the first candidate it
/// outranks.
pub open spec fn sorted_insert(s: Seq<QueryCandidate>, c: QueryCandidate) -> Seq<QueryCandidate>
    decreases s.len(),
{
    if s.len() == 0 {
        seq![c]
    } else if candidate_before(c, s[0]) {
        seq![c] + s
    } else {
        seq![s[0]] + sorted_insert(s.drop_first(), c)
    }
}

/// The ranking of the first `k` events of a ledger: each query match is
/// inserted in source order into the ranked sequence.
pub open spec fn spec_ranking(
    full_query: Seq<u8>,
    terms: Seq<(Seq<u8>, bool)>,
    ledger: &EventLedger,
    k: nat,
) -> Seq<QueryCandidate>
    decreases k,
{
    if k == 0 {
        Seq::empty()
    } else {
        let prev = spec_ranking(full_query, terms, ledger, (k - 1) as nat);
        let f = spec_features(ledger.events@[k - 1].raw@, full_query, terms, ledger.events@);
        if is_query_match(f) {
            sorted_insert(prev, QueryCandidate { ordinal: (k - 1) as usize, features: f })
        } else {
            prev
        }
    }
}

proof fn lemma_sorted_insert_at(s: Seq<QueryCandidate>, c: QueryCandidate, p: int)
    requires
        0 <= p <= s.len(),
        forall|i: int| 0 <= i < p ==> !candidate_before(c, s[i]),
        p == s.len() || candidate_before(c, s[p]),
    ensures
        sorted_insert(s, c) == s.insert(p, c),
    decreases p,
{
    if p == 0 {
        if s.len() == 0 {
            assert(s.insert(0, c) =~= seq![c]);
        } else {
            assert(s.insert(0, c) =~= seq![c] + s);
        }
    } else {
        let t = s.drop_first();
        assert forall|i: int| 0 <= i < p - 1 implies !candidate_before(c, t[i]) by {
            assert(t[i] == s[i + 1]);
        }
        if p < s.len() {
            assert(t[p - 1] == s[p]);
        }
        lemma_sorted_insert_at(t, c, p - 1);
        assert(s.insert(p, c) =~= seq![s[0]] + t.insert(p - 1, c));
    }
}

/// Candidates in ranking order.
pub open spec fn ranked_in_order(s: Seq<QueryCandidate>) -> bool {
    forall|i: int, j: int| 0 <= i < j < s.len() ==> candidate_before(#[trigger] s[i], #[trigger] s[j])
}

proof fn lemma_sorted_insert_keeps_order(s: Seq<QueryCandidate>, c: QueryCandidate)
    requires
        ranked_in_order(s),
        forall|i: int| 0 <= i < s.len() ==> (#[trigger] s[i]).ordinal != c.ordinal,
    ensures
        ranked_in_order(sorted_insert(s, c)),
        forall|x: QueryCandidate| #[trigger] sorted_insert(s, c).contains(x) <==> (s.contains(x) || x == c),
    decreases s.len(),
{
    let r = sorted_insert(s, c);
    if s.len() == 0 {
        assert(r == seq![c]);
        assert forall|x: QueryCandidate| #[trigger] r.contains(x) <==> (s.contains(x) || x == c) by {
            if r.contains(x) {
                let k = choose|k: int| 0 <= k < r.len() && r[k] == x;
            } else {
                assert(r[0] == c);
            }
        }
    } else if candidate_before(c, s[0]) {
        assert(r == seq![c] + s);
        assert forall|i: int, j: int| 0 <= i < j < r.len() implies candidate_before(#[trigger] r[i], #[trigger] r[j]) by {
            if i == 0 {
                assert(r[j] == s[j - 1]);
                if j - 1 > 0 {
                    assert(candidate_before(s[0], s[j - 1]));
                    lemma_candidate_order(c, s[0], s[j - 1]);
                }
            } else {
                assert(r[i] == s[i - 1] && r[j] == s[j - 1]);
            }
        }
        assert forall|x: QueryCandidate| #[trigger] r.contains(x) <==> (s.contains(x) || x == c) by {
            if r.contains(x) {
                let k = choose|k: int| 0 <= k < r.len() && r[k] == x;
                if k > 0 {
                    assert(s[k - 1] == x);
                }
            }
            if s.contains(x) {
                let k = choose|k: int| 0 <= k < s.len() && s[k] == x;
                assert(r[k + 1] == x);
            }
            if x == c {
                assert(r[0] == c);
            }
        }
    } else {
        let t = s.drop_first();
        assert forall|i: int, j: int| 0 <= i < j < t.len() implies candidate_before(#[trigger] t[i], #[trigger] t[j]) by {
            assert(t[i] == s[i + 1] && t[j] == s[j + 1]);
        }
        assert forall|i: int| 0 <= i < t.len() implies (#[trigger] t[i]).ordinal != c.ordinal by {
            assert(t[i] == s[i + 1]);
        }
        lemma_sorted_insert_keeps_order(t, c);
        let rest = sorted_insert(t, c);
        assert(r == seq![s[0]] + rest);
        assert forall|i: int, j: int| 0 <= i < j < r.len() implies candidate_before(#[trigger] r[i], #[trigger] r[j]) by {
            if i == 0 {
                let x = r[j];
                assert(x == rest[j - 1]);
                assert(rest.contains(x));
                if t.contains(x) {
                    let m = choose|m: int| 0 <= m < t.len() && t[m] == x;
                    assert(x == s[m + 1]);
                } else {
                    assert(x == c);
                    lemma_candidate_order(s[0], c, c);
                }
            } else {
                assert(r[i] == rest[i - 1] && r[j] == rest[j - 1]);
            }
        }
        assert forall|x: QueryCandidate| #[trigger] r.contains(x) <==> (s.contains(x) || x == c) by {
            if r.contains(x) {
                let k = choose|k: int| 0 <= k < r.len() && r[k] == x;
                if k == 0 {
                    assert(s[0] == x);
                } else {
                    assert(rest[k - 1] == x);
                    assert(rest.contains(x));
                    if t.contains(x) {
                        let m = choose|m: int| 0 <= m < t.len() && t[m] == x;
                        assert(s[m + 1] == x);
                    }
                }
            }
            if s.contains(x) {
                let k = choose|k: int| 0 <= k < s.len() && s[k] == x;
                if k == 0 {
                    assert(r[0] == x);
                } else {
                    assert(t[k - 1] == x);
                    assert(t.contains(x));
                    assert(rest.contains(x));
                    let m = choose|m: int| 0 <= m < rest.len() && rest[m] == x;
                    assert(r[m + 1] == x);
                }
            }
            if x == c {
                assert(rest.contains(c));
                let m = choose|m: int| 0 <= m < rest.len() && rest[m] == c;
                assert(r[m + 1] == c);
            }
        }
    }
}

/// The ranking of the first `k` events lists only query matches among them,
/// each with its own features, in ranking order.
proof fn lemma_spec_ranking_facts(full_query: Seq<u8>, terms: Seq<(Seq<u8>, bool)>, ledger: &EventLedger, k: nat)
    requires
        k <= ledger.events.len(),
    ensures
        ({
            let r = spec_ranking(full_query, terms, ledger, k);
            &&& ranked_in_order(r)
            &&& forall|i: int|
                0 <= i < r.len() ==> (#[trigger] r[i]).ordinal < k && r[i].features == spec_features(
                    ledger.events@[r[i].ordinal as int].raw@,
                    full_query,
                    terms,
                    ledger.events@,
                )
        }),
    decreases k,
{
    if k > 0 {
        lemma_spec_ranking_facts(full_query, terms, ledger, (k - 1) as nat);
        let prev = spec_ranking(full_query, terms, ledger, (k - 1) as nat);
        let f = spec_features(ledger.events@[k - 1].raw@, full_query, terms, ledger.events@);
        if is_query_match(f) {
            let c = QueryCandidate { ordinal: (k - 1) as usize, features: f };
            lemma_sorted_insert_keeps_order(prev, c);
            let r = sorted_insert(prev, c);
            assert forall|i: int| 0 <= i < r.len() implies (#[trigger] r[i]).ordinal < k && r[i].features
                == spec_features(ledger.events@[r[i].ordinal as int].raw@, full_query, terms, ledger.events@) by {
                assert(r.contains(r[i]));
                if prev.contains(r[i]) {
                    let m = choose|m: int| 0 <= m < prev.len() && prev[m] == r[i];
                }
            }
        }
    }
}

/// In the query ranking, every event that holds the trimmed full query
/// (ASCII letters compared without case) comes before every ranked event
/// that does not.
pub proof fn lemma_full_query_matches_rank_first(query: Seq<u8>, ledger: &EventLedger)
    ensures
        ({
            let r = query_ranking(query, ledger);
            let full = spec_trim(query);
            forall|i: int, j: int|
                0 <= i < r.len() && 0 <= j < r.len() && spec_contains_ignore_case(
                    ledger.events@[(#[trigger] r[j]).ordinal as int].raw@,
                    full,
                ) && !spec_contains_ignore_case(ledger.events@[(#[trigger] r[i]).ordinal as int].raw@, full) ==> j
                    < i
        }),
{
    let r = query_ranking(query, ledger);
    lemma_spec_ranking_facts(spec_trim(query), spec_query_terms(query), ledger, ledger.events.len() as nat);
    assert forall|i: int, j: int|
        0 <= i < r.len() && 0 <= j < r.len() && spec_contains_ignore_case(
            ledger.events@[(#[trigger] r[j]).ordinal as int].raw@,
            spec_trim(query),
        ) && !spec_contains_ignore_case(ledger.events@[(#[trigger] r[i]).ordinal as int].raw@, spec_trim(query))
        implies j < i by {
        assert(r[j].features.full_query_match);
        assert(!r[i].features.full_query_match);
        if i < j {
            assert(candidate_before(r[i], r[j]));
        }
    }
}

/// The query ranking orders events by full-query match, then identifier
/// matches, exact term matches, matched terms and specificity, each higher
/// first, and equal scores by source position; every ranked event is a
/// query match carrying its own features.
pub proof fn lemma_query_ranking_order(query: Seq<u8>, ledger: &EventLedger)
    ensures
        ({
            let r = query_ranking(query, ledger);
            &&& forall|i: int|
                0 <= i < r.len() ==> (#[trigger] r[i]).ordinal < ledger.events.len() && r[i].features
                    == spec_features(
                    ledger.events@[r[i].ordinal as int].raw@,
                    spec_trim(query),
                    spec_query_terms(query),
                    ledger.events@,
                ) && (r[i].features.full_query_match || r[i].features.matched_terms > 0)
            &&& forall|i: int, j: int|
                0 <= i < j < r.len() ==> {
                    let a = (#[trigger] r[i]).features;
                    let b = (#[trigger] r[j]).features;
                    ||| a.full_query_match && !b.full_query_match
                    ||| a.full_query_match == b.full_query_match && a.identifier_exact_matches
                        > b.identifier_exact_matches
                    ||| a.full_query_match == b.full_query_match && a.identifier_exact_matches
                        == b.identifier_exact_matches && a.exact_term_matches > b.exact_term_matches
                    ||| a.full_query_match == b.full_query_match && a.identifier_exact_matches
                        == b.identifier_exact_matches && a.exact_term_matches == b.exact_term_matches
                        && a.matched_terms > b.matched_terms
                    ||| a.full_query_match == b.full_query_match && a.identifier_exact_matches
                        == b.identifier_exact_matches && a.exact_term_matches == b.exact_term_matches
                        && a.matched_terms == b.matched_terms && a.specificity > b.specificity
                    ||| a == b && r[i].ordinal < r[j].ordinal
                }
        }),
{
    lemma_spec_ranking_facts_matched(spec_trim(query), spec_query_terms(query), ledger, ledger.events.len() as nat);
    lemma_spec_ranking_facts(spec_trim(query), spec_query_terms(query), ledger, ledger.events.len() as nat);
}

proof fn lemma_spec_ranking_facts_matched(
    full_query: Seq<u8>,
    terms: Seq<(Seq<u8>, bool)>,
    ledger: &EventLedger,
    k: nat,
)
    requires
        k <= ledger.events.len(),
    ensures
        forall|i: int|
            0 <= i < spec_ranking(full_query, terms, ledger, k).len() ==> is_query_match(
                (#[trigger] spec_ranking(full_query, terms, ledger, k)[i]).features,
            ),
    decreases k,
{
    if k > 0 {
        lemma_spec_ranking_facts_matched(full_query, terms, ledger, (k - 1) as nat);
        lemma_spec_ranking_facts(full_query, terms, ledger, (k - 1) as nat);
        let prev = spec_ranking(full_query, terms, ledger, (k - 1) as nat);
        let f = spec_features(ledger.events@[k - 1].raw@, full_query, terms, ledger.events@);
        if is_query_match(f) {
            let c = QueryCandidate { ordinal: (k - 1) as usize, features: f };
            lemma_sorted_insert_keeps_order(prev, c);
            let r = sorted_insert(prev, c);
            assert forall|i: int| 0 <= i < r.len() implies is_query_match((#[trigger] r[i]).features) by {
                assert(r.contains(r[i]));
                if prev.contains(r[i]) {
                    let m = choose|m: int| 0 <= m < prev.len() && prev[m] == r[i];
                }
            }
        }
    }
}

/// The full query and the terms derived from one request.
#[derive(Clone, Debug)]
pub struct QueryAnalysis {
    pub full_query: Vec<u8>,
    pub terms: Vec<QueryTerm>,
}

impl QueryAnalysis {
    pub fn new(query: &[u8]) -> (r: Self)
        ensures
            r.full_query@ == spec_trim(query@),
            term_views(r.terms@) == spec_query_terms(query@),
    {
        QueryAnalysis { full_query: trim_ascii_whitespace(query), terms: query_terms(query) }
    }

    /// Features of the event at a position of the ledger under this analysis.
    pub open spec fn features_at(&self, ledger: &EventLedger, o: int) -> QueryMatchFeatures {
        spec_features(
            ledger.events@[o].raw@,
            self.full_query@,
            term_views(self.terms@),
            ledger.events@,
        )
    }

    /// Every event that holds the full query or a term, ranked by score
    /// (highest first) and then by source position.
    pub fn rank(&self, ledger: &EventLedger) -> (r: Vec<QueryCandidate>)
        ensures
            forall|i: int|
                0 <= i < r.len() ==> {
                    &&& (#[trigger] r@[i]).ordinal < ledger.events.len()
                    &&& r@[i].features == self.features_at(ledger, r@[i].ordinal as int)
                    &&& is_query_match(r@[i].features)
                },
            forall|o: int|
                0 <= o < ledger.events.len() && is_query_match(#[trigger] self.features_at(ledger, o))
                    ==> exists|i: int| 0 <= i < r.len() && r@[i].ordinal == o,
            forall|i: int, j: int| 0 <= i < j < r.len() ==> candidate_before(r@[i], r@[j]),
            r@ == spec_ranking(
                self.full_query@,
                term_views(self.terms@),
                ledger,
                ledger.events.len() as nat,
            ),
    {
        let n = ledger.events.len();
        let ghost tv = term_views(self.terms@);
        let ghost evs = ledger.events@;
        let mut feats: Vec<QueryMatchFeatures> = Vec::new();
        let mut flagss: Vec<Vec<bool>> = Vec::new();
        let mut e: usize = 0;
        while e < n
            invariant
                e <= n == ledger.events.len(),
                evs == ledger.events@,
                tv == term_views(self.terms@),
                feats.len() == e,
                flagss.len() == e,
                forall|m: int|
                    0 <= m < e ==> (#[trigger] feats@[m]) == (QueryMatchFeatures {
                        specificity: 0,
                        ..spec_features(evs[m].raw@, self.full_query@, tv, Seq::empty())
                    }),
                forall|m: int|
                    0 <= m < e ==> (#[trigger] flagss@[m]).len() == self.terms.len() && forall|k: int|
                        0 <= k < self.terms.len() ==> flagss@[m]@[k] == term_matched(
                            evs[m].raw@,
                            tv[k],
                        ),
            decreases n - e,
        {
            let (f, flags) = self.match_event(ledger.events[e].raw.as_slice());
            feats.push(f);
            flagss.push(flags);
            e = e + 1;
        }
        // Document frequency of every term.
        let tcount = self.terms.len();
        let mut df: Vec<usize> = Vec::new();
        let mut k0: usize = 0;
        while k0 < tcount
            invariant
                k0 <= tcount == self.terms.len(),
                df.len() == k0,
                forall|k: int| 0 <= k < k0 ==> df@[k] == 0,
            decreases tcount - k0,
        {
            df.push(0);
            k0 = k0 + 1;
        }
        let mut e2: usize = 0;
        while e2 < n
            invariant
                e2 <= n == ledger.events.len(),
                tcount == self.terms.len(),
                evs == ledger.events@,
                tv == term_views(self.terms@),
                flagss.len() == n,
                forall|m: int|
                    0 <= m < n ==> (#[trigger] flagss@[m]).len() == self.terms.len() && forall|k: int|
                        0 <= k < self.terms.len() ==> flagss@[m]@[k] == term_matched(
                            evs[m].raw@,
                            tv[k],
                        ),
                df.len() == tcount,
                forall|k: int|
                    0 <= k < tcount ==> df@[k] == doc_freq(evs.take(e2 as int), tv[k]) && df@[k]
                        <= e2,
            decreases n - e2,
        {
            let mut k: usize = 0;
            while k < tcount
                invariant
                    e2 < n == ledger.events.len(),
                    k <= tcount == self.terms.len(),
                    evs == ledger.events@,
                    tv == term_views(self.terms@),
                    flagss.len() == n,
                    flagss@[e2 as int].len() == tcount,
                    forall|q: int|
                        0 <= q < tcount ==> flagss@[e2 as int]@[q] == term_matched(evs[e2 as int].raw@, tv[q]),
                    df.len() == tcount,
                    forall|q: int|
                        k <= q < tcount ==> df@[q] == doc_freq(evs.take(e2 as int), tv[q]) && df@[q] <= e2,
                    forall|q: int|
                        0 <= q < k ==> df@[q] == doc_freq(evs.take(e2 + 1), tv[q]) && df@[q] <= e2 + 1,
                decreases tcount - k,
            {
                proof {
                    assert(evs.take(e2 + 1).drop_last() == evs.take(e2 as int));
                    assert(evs.take(e2 + 1).last() == evs[e2 as int]);
                }
                if flagss[e2][k] {
                    let v = df[k] + 1;
                    df.set(k, v);
                } else {
                    let v = df[k];
                    df.set(k, v);
                }
                k = k + 1;
            }
            e2 = e2 + 1;
        }
        proof {
            assert(evs.take(n as int) == evs);
        }
        // Specificity and candidate ranking.
        let mut ranked: Vec<QueryCandidate> = Vec::new();
        let mut e3: usize = 0;
        while e3 < n
            invariant
                e3 <= n == ledger.events.len(),
                tcount == self.terms.len(),
                evs == ledger.events@,
                tv == term_views(self.terms@),
                feats.len() == n,
                forall|m: int|
                    0 <= m < n ==> (#[trigger] feats@[m]) == (QueryMatchFeatures {
                        specificity: 0,
                        ..spec_features(evs[m].raw@, self.full_query@, tv, Seq::empty())
                    }),
                flagss.len() == n,
                forall|m: int|
                    0 <= m < n ==> (#[trigger] flagss@[m]).len() == self.terms.len() && forall|k: int|
                        0 <= k < self.terms.len() ==> flagss@[m]@[k] == term_matched(
                            evs[m].raw@,
                            tv[k],
                        ),
                df.len() == tcount,
                forall|k: int| 0 <= k < tcount ==> df@[k] == doc_freq(evs, tv[k]),
                forall|i: int|
                    0 <= i < ranked.len() ==> {
                        &&& (#[trigger] ranked@[i]).ordinal < e3
                        &&& ranked@[i].features == self.features_at(ledger, ranked@[i].ordinal as int)
                        &&& is_query_match(ranked@[i].features)
                    },
                forall|o: int|
                    0 <= o < e3 && is_query_match(#[trigger] self.features_at(ledger, o)) ==> exists|
                        i: int,
                    |
                        0 <= i < ranked.len() && ranked@[i].ordinal == o,
                forall|i: int, j: int|
                    0 <= i < j < ranked.len() ==> candidate_before(ranked@[i], ranked@[j]),
                ranked@ == spec_ranking(self.full_query@, tv, ledger, e3 as nat),
            decreases n - e3,
        {
            let mut spec_sum: usize = 0;
            let mut k: usize = 0;
            while k < tcount
                invariant
                    e3 < n == ledger.events.len(),
                    k <= tcount == self.terms.len(),
                    evs == ledger.events@,
                    tv == term_views(self.terms@),
                    flagss.len() == n,
                    flagss@[e3 as int].len() == tcount,
                    forall|q: int|
                        0 <= q < tcount ==> flagss@[e3 as int]@[q] == term_matched(evs[e3 as int].raw@, tv[q]),
                    df.len() == tcount,
                    forall|q: int| 0 <= q < tcount ==> df@[q] == doc_freq(evs, tv[q]),
                    spec_sum == spec_specificity(evs[e3 as int].raw@, tv.take(k as int), evs),
                decreases tcount - k,
            {
                proof {
                    assert(tv.take(k + 1).drop_last() == tv.take(k as int));
                    assert(tv.take(k + 1).last() == tv[k as int]);
                    assert(tv[k as int].0 == self.terms@[k as int].normalized@);
                }
                if flagss[e3][k] {
                    let ts = term_specificity(self.terms[k].normalized.len(), df[k], n);
                    spec_sum = spec_sum.saturating_add(ts);
                }
                k = k + 1;
            }
            proof {
                assert(tv.take(tcount as int) == tv);
            }
            let f = feats[e3];
            let full = QueryMatchFeatures { specificity: spec_sum, ..f };
            assert(full == self.features_at(ledger, e3 as int));
            if full.full_query_match || full.matched_terms != 0 {
                let c = QueryCandidate { ordinal: e3, features: full };
                let mut p: usize = 0;
                while p < ranked.len() && !candidate_before_exec(c, ranked[p])
                    invariant
                        p <= ranked.len(),
                        c.ordinal == e3,
                        forall|i: int| 0 <= i < p ==> candidate_before(ranked@[i], c),
                        forall|i: int| 0 <= i < ranked.len() ==> (#[trigger] ranked@[i]).ordinal < e3,
                    decreases ranked.len() - p,
                {
                    proof {
                        lemma_candidate_order(ranked@[p as int], c, c);
                    }
                    p = p + 1;
                }
                let ghost old_ranked = ranked@;
                proof {
                    lemma_sorted_insert_at(old_ranked, c, p as int);
                    assert forall|i: int| p <= i < old_ranked.len() implies candidate_before(
                        c,
                        old_ranked[i],
                    ) by {
                        if i > p {
                            lemma_candidate_order(c, old_ranked[p as int], old_ranked[i]);
                        }
                    }
                }
                ranked.insert(p, c);
                proof {
                    assert forall|i: int, j: int|
                        0 <= i < j < ranked.len() implies candidate_before(ranked@[i], ranked@[j]) by {
                        if i < p && j > p {
                            lemma_candidate_order(ranked@[i], c, ranked@[j]);
                        }
                    }
                    assert forall|o: int|
                        0 <= o < e3 + 1 && is_query_match(
                            #[trigger] self.features_at(ledger, o),
                        ) implies exists|i: int|
                        0 <= i < ranked.len() && ranked@[i].ordinal == o by {
                        if o == e3 {
                            assert(ranked@[p as int].ordinal == o);
                        } else {
                            let i0 = choose|i: int|
                                0 <= i < old_ranked.len() && old_ranked[i].ordinal == o;
                            if i0 < p {
                                assert(ranked@[i0].ordinal == o);
                            } else {
                                assert(ranked@[i0 + 1].ordinal == o);
                            }
                        }
                    }
                    assert forall|i: int| 0 <= i < ranked.len() implies (#[trigger] ranked@[i]).ordinal
                        < e3 + 1 by {
                        if i < p {
                            assert(ranked@[i] == old_ranked[i]);
                        } else if i > p {
                            assert(ranked@[i] == old_ranked[i - 1]);
                        }
                    }
                }
            }
            e3 = e3 + 1;
        }
        ranked
    }

    /// Features of one event, without specificity, plus the per-term match
    /// flags.
    fn match_event(&self, event: &[u8]) -> (r: (QueryMatchFeatures, Vec<bool>))
        requires
            self.terms.len() <= usize::MAX,
        ensures
            r.1.len() == self.terms.len(),
            forall|k: int|
                0 <= k < self.terms.len() ==> r.1@[k] == term_matched(
                    event@,
                    term_views(self.terms@)[k],
                ),
            r.0 == (QueryMatchFeatures {
                specificity: 0,
                ..spec_features(event@, self.full_query@, term_views(self.terms@), Seq::empty())
            }),
    {
        let tokens = ascii_tokens(event);
        let mut words: Vec<Vec<u8>> = Vec::new();
        let mut w: usize = 0;
        while w < tokens.len()
            invariant
                w <= tokens.len(),
                tokens@.map_values(|t: Vec<u8>| t@) == spec_tokens(event@),
                words@.map_values(|t: Vec<u8>| t@) == spec_tokens(event@).take(w as int).map_values(
                    |t: Seq<u8>| spec_lower_seq(t),
                ),
            decreases tokens.len() - w,
        {
            let lw = ascii_lowercase(tokens[w].as_slice());
            proof {
                let before = words@.map_values(|t: Vec<u8>| t@);
                assert(words@.push(lw).map_values(|t: Vec<u8>| t@) =~= before.push(lw@));
                assert(spec_tokens(event@).take(w + 1).map_values(|t: Seq<u8>| spec_lower_seq(t))
                    =~= spec_tokens(event@).take(w as int).map_values(
                    |t: Seq<u8>| spec_lower_seq(t),
                ).push(spec_lower_seq(spec_tokens(event@)[w as int])));
                assert(tokens@.map_values(|t: Vec<u8>| t@)[w as int] == tokens@[w as int]@);
            }
            words.push(lw);
            w = w + 1;
        }
        proof {
            assert(spec_tokens(event@).take(spec_tokens(event@).len() as int) == spec_tokens(event@));
            assert(words@.map_values(|t: Vec<u8>| t@) == event_words(event@));
        }
        let ghost tv = term_views(self.terms@);
        let mut flags: Vec<bool> = Vec::new();
        let mut ident: usize = 0;
        let mut exact_count: usize = 0;
        let mut matched_count: usize = 0;
        let mut k: usize = 0;
        while k < self.terms.len()
            invariant
                k <= self.terms.len(),
                tv == term_views(self.terms@),
                words@.map_values(|t: Vec<u8>| t@) == event_words(event@),
                flags.len() == k,
                forall|m: int| 0 <= m < k ==> flags@[m] == term_matched(event@, tv[m]),
                ident == count_identifier_exact(event@, tv.take(k as int)),
                exact_count == count_exact(event@, tv.take(k as int)),
                matched_count == count_matched(event@, tv.take(k as int)),
                ident <= k,
                exact_count <= k,
                matched_count <= k,
            decreases self.terms.len() - k,
        {
            let term = &self.terms[k];
            let mut exact = false;
            let mut j: usize = 0;
            while j < words.len()
                invariant
                    j <= words.len(),
                    exact == (exists|m: int| 0 <= m < j && words@[m]@ == term.normalized@),
                decreases words.len() - j,
            {
                if bytes_eq(words[j].as_slice(), term.normalized.as_slice()) {
                    exact = true;
                }
                j = j + 1;
            }
            proof {
                let ew = event_words(event@);
                assert(tv[k as int] == (term.normalized@, term.identifier_like));
                if exact {
                    let m = choose|m: int| 0 <= m < words.len() && words@[m]@ == term.normalized@;
                    assert(ew[m] == words@[m]@);
                    assert(ew.contains(term.normalized@));
                } else {
                    assert forall|m: int| 0 <= m < ew.len() implies ew[m] != term.normalized@ by {
                        assert(ew[m] == words@[m]@);
                    }
                }
                assert(tv.take(k + 1).drop_last() == tv.take(k as int));
                assert(tv.take(k + 1).last() == tv[k as int]);
            }
            let matched = exact || contains_ascii_case_insensitive(event, term.normalized.as_slice());
            flags.push(matched);
            if exact {
                exact_count = exact_count + 1;
                if term.identifier_like {
                    ident = ident + 1;
                }
            }
            if matched {
                matched_count = matched_count + 1;
            }
            k = k + 1;
        }
        proof {
            assert(tv.take(tv.len() as int) == tv);
        }
        let full = contains_ascii_case_insensitive(event, self.full_query.as_slice());
        (
            QueryMatchFeatures {
                full_query_match: full,
                identifier_exact_matches: ident,
                exact_term_matches: exact_count,
                matched_terms: matched_count,
                specificity: 0,
            },
            flags,
        )
    }
}



/// The positions `a..b`.
pub open spec fn range_seq(a: nat, b: nat) -> Seq<usize> {
    Seq::new((b - a) as nat, |i: int| (a + i) as usize)
}

/// Total raw bytes of every event of the ledger.
pub open spec fn ledger_bytes(ledger: &EventLedger) -> nat {
    ordinal_bytes(ledger, range_seq(0, ledger.events.len() as nat))
}

/// The positions `a..b`, as a vector.
pub fn range_vec(a: usize, b: usize) -> (r: Vec<usize>)
    requires
        a <= b,
    ensures
        r@ == range_seq(a as nat, b as nat),
{
    let mut out: Vec<usize> = Vec::new();
    let mut i = a;
    while i < b
        invariant
            a <= i <= b,
            out@ == range_seq(a as nat, i as nat),
        decreases b - i,
    {
        out.push(i);
        proof {
            assert(out@ =~= range_seq(a as nat, (i + 1) as nat));
        }
        i = i + 1;
    }
    out
}

/// Raw source-order prefix truncated only at whole-event boundaries.
#[derive(Clone, Copy, Debug, Default)]
pub struct RawChronological;

pub fn raw_chronological_descriptor() -> (r: MethodDescriptor)
    ensures
        r.name@ == "raw-chronological"@,
        r.version@ == "1"@,
{
    MethodDescriptor { name: "raw-chronological", version: "1" }
}

pub fn grep_head_tail_descriptor() -> (r: MethodDescriptor)
    ensures
        r.name@ == "grep-head-tail"@,
        r.version@ == "1"@,
{
    MethodDescriptor { name: "grep-head-tail", version: "1" }
}

pub fn quota_hybrid_descriptor() -> (r: MethodDescriptor)
    ensures
        r.name@ == "quota-hybrid"@,
        r.version@ == "1"@,
{
    MethodDescriptor { name: "quota-hybrid", version: "1" }
}

/// The reason list of every chronologically selected event.
pub open spec fn chronological_reasons() -> Seq<SelectionReason> {
    seq![SelectionReason::Chronological]
}

impl RawChronological {
    pub fn descriptor(&self) -> (r: MethodDescriptor)
        ensures
            r.name@ == "raw-chronological"@,
            r.version@ == "1"@,
    {
        raw_chronological_descriptor()
    }

    /// Select the source-order prefix of events up to the first event that no
    /// longer fits the budget; every event is a candidate.
    pub fn run(&self, ledger: &EventLedger, budget: ByteBudget) -> (r: Result<MethodResult, MethodError>)
        ensures
            r is Ok <==> ledger_bytes(ledger) <= usize::MAX,
            r matches Err(e) ==> e == MethodError::SourceByteCostOverflow,
            r matches Ok(res) ==> ({
                let m = res.selected.len() as nat;
                &&& m <= ledger.events.len()
                &&& ordinal_bytes(ledger, range_seq(0, m)) <= budget.0
                &&& (m == ledger.events.len() || ordinal_bytes(ledger, range_seq(0, m + 1))
                    > budget.0)
                &&& built_result(
                    res,
                    res.method,
                    ledger,
                    budget,
                    range_seq(0, ledger.events.len() as nat),
                    (ledger.events.len() - m) as nat,
                    range_seq(0, m),
                    Seq::new(m, |i: int| chronological_reasons()),
                )
            }),
            r matches Ok(res) ==> res.method.name@ == "raw-chronological"@ && res.method.version@
                == "1"@,
    {
        let n = ledger.events.len();
        let mut selected_bytes: usize = 0;
        let mut m: usize = 0;
        let mut stopped = false;
        while m < n && !stopped
            invariant
                m <= n == ledger.events.len(),
                selected_bytes == ordinal_bytes(ledger, range_seq(0, m as nat)),
                selected_bytes <= budget.0,
                stopped ==> m < n && ordinal_bytes(ledger, range_seq(0, (m + 1) as nat)) > budget.0,
            decreases n - m, if stopped { 0int } else { 1int },
        {
            proof {
                assert(range_seq(0, (m + 1) as nat).drop_last() =~= range_seq(0, m as nat));
            }
            match checked_cost_within_budget(selected_bytes, ledger.events[m].raw.len(), budget) {
                Err(e) => {
                    proof {
                        lemma_prefix_bytes_monotone(ledger, (m + 1) as nat, n as nat);
                    }
                    return Err(e);
                },
                Ok(None) => {
                    stopped = true;
                },
                Ok(Some(t)) => {
                    selected_bytes = t;
                    m = m + 1;
                },
            }
        }
        let candidates = range_vec(0, n);
        let mut selected: Vec<(usize, Vec<SelectionReason>)> = Vec::new();
        let mut i: usize = 0;
        while i < m
            invariant
                i <= m <= n == ledger.events.len(),
                selected@.map_values(|p: (usize, Vec<SelectionReason>)| p.0) == range_seq(0, i as nat),
                selected@.map_values(|p: (usize, Vec<SelectionReason>)| p.1@) == Seq::new(
                    i as nat,
                    |k: int| chronological_reasons(),
                ),
            decreases m - i,
        {
            let mut reasons: Vec<SelectionReason> = Vec::new();
            reasons.push(SelectionReason::Chronological);
            let ghost before = selected@;
            selected.push((i, reasons));
            proof {
                assert(selected@ == before.push((i, reasons)));
                assert(reasons@ == chronological_reasons());
                assert(before.map_values(|p: (usize, Vec<SelectionReason>)| p.0).len() == before.len());
                assert(before.len() == i);
                assert forall|k: int| 0 <= k < i implies #[trigger] selected@[k].0 == k by {
                    assert(before.map_values(|p: (usize, Vec<SelectionReason>)| p.0)[k] == before[k].0);
                }
                assert forall|k: int| 0 <= k < i implies #[trigger] selected@[k].1@ == chronological_reasons() by {
                    assert(before.map_values(|p: (usize, Vec<SelectionReason>)| p.1@)[k] == before[k].1@);
                }
                assert(selected@.map_values(|p: (usize, Vec<SelectionReason>)| p.0) =~= range_seq(
                    0,
                    (i + 1) as nat,
                ));
                assert(selected@.map_values(|p: (usize, Vec<SelectionReason>)| p.1@) =~= Seq::new(
                    (i + 1) as nat,
                    |k: int| chronological_reasons(),
                ));
            }
            i = i + 1;
        }
        proof {
            lemma_prefix_bytes_monotone(ledger, m as nat, n as nat);
        }
        let r = build_result(self.descriptor(), ledger, budget, &candidates, n - m, selected);
        proof {
            if r is Ok {
                let res = r->Ok_0;
                assert(built_result(
                    res,
                    res.method,
                    ledger,
                    budget,
                    range_seq(0, ledger.events.len() as nat),
                    (ledger.events.len() - m) as nat,
                    range_seq(0, m as nat),
                    Seq::new(m as nat, |k: int| chronological_reasons()),
                ));
            }
        }
        r
    }
}

/// Prefix byte sums grow with the prefix.
pub proof fn lemma_prefix_bytes_monotone(ledger: &EventLedger, a: nat, b: nat)
    requires
        a <= b <= ledger.events.len(),
    ensures
        ordinal_bytes(ledger, range_seq(0, a)) <= ordinal_bytes(ledger, range_seq(0, b)),
    decreases b - a,
{
    if a < b {
        lemma_prefix_bytes_monotone(ledger, a, (b - 1) as nat);
        assert(range_seq(0, b).drop_last() =~= range_seq(0, (b - 1) as nat));
    }
}


/// State of a greedy whole-event pass over a priority list: visited flags,
/// selected flags, selected bytes, budget-excluded count, and whether a byte
/// sum left `usize`.
pub type GreedyState = (Seq<bool>, Seq<bool>, nat, nat, bool);

/// Offer one position to the greedy pass: a visited position is skipped; an
/// event that fits the remaining budget is selected whole; otherwise it is
/// counted as budget-excluded.
pub open spec fn greedy_step(ledger: &EventLedger, budget: nat, st: GreedyState, o: usize) -> GreedyState {
    if st.4 || st.0[o as int] {
        st
    } else if st.2 + ledger.raw_len(o as int) > usize::MAX {
        (st.0.update(o as int, true), st.1, st.2, st.3, true)
    } else if st.2 + ledger.raw_len(o as int) <= budget {
        (
            st.0.update(o as int, true),
            st.1.update(o as int, true),
            st.2 + ledger.raw_len(o as int),
            st.3,
            false,
        )
    } else {
        (st.0.update(o as int, true), st.1, st.2, st.3 + 1, false)
    }
}

/// The greedy pass over a whole priority list.
pub open spec fn greedy(ledger: &EventLedger, budget: nat, priority: Seq<usize>) -> GreedyState
    decreases priority.len(),
{
    if priority.len() == 0 {
        (
            Seq::new(ledger.events.len() as nat, |i: int| false),
            Seq::new(ledger.events.len() as nat, |i: int| false),
            0,
            0,
            false,
        )
    } else {
        greedy_step(ledger, budget, greedy(ledger, budget, priority.drop_last()), priority.last())
    }
}

/// Once a byte sum has left `usize`, the pass stays failed.
pub proof fn lemma_greedy_overflow_sticks(ledger: &EventLedger, budget: nat, priority: Seq<usize>, k: int)
    requires
        0 <= k <= priority.len(),
        greedy(ledger, budget, priority.take(k)).4,
    ensures
        greedy(ledger, budget, priority).4,
    decreases priority.len() - k,
{
    if k < priority.len() {
        assert(priority.take(k + 1).drop_last() == priority.take(k));
        lemma_greedy_overflow_sticks(ledger, budget, priority, k + 1);
    } else {
        assert(priority.take(k) == priority);
    }
}

/// Which positions a priority list names.
pub open spec fn priority_flags(n: nat, priority: Seq<usize>) -> Seq<bool> {
    Seq::new(n, |o: int| priority.contains(o as usize))
}

/// The reasons one selected event receives: query-match reasons from its
/// features, then head and tail sentinel reasons.
pub open spec fn spec_selection_reasons(
    ordinal: nat,
    event_count: nat,
    head_end: nat,
    tail_start: nat,
    query_features: Option<QueryMatchFeatures>,
) -> Seq<SelectionReason> {
    let q = match query_features {
        Some(f) => (if f.full_query_match {
            seq![SelectionReason::FullQueryMatch]
        } else {
            Seq::empty()
        }) + (if f.identifier_exact_matches != 0 {
            seq![SelectionReason::IdentifierMatch]
        } else {
            Seq::empty()
        }) + (if f.matched_terms != 0 {
            seq![SelectionReason::QueryTermMatch]
        } else {
            Seq::empty()
        }),
        None => Seq::empty(),
    };
    q + (if ordinal < head_end {
        seq![SelectionReason::HeadSentinel]
    } else {
        Seq::empty()
    }) + (if tail_start <= ordinal < event_count {
        seq![SelectionReason::TailSentinel]
    } else {
        Seq::empty()
    })
}

pub fn selection_reasons(
    ordinal: usize,
    event_count: usize,
    head_end: usize,
    tail_start: usize,
    query_features: Option<QueryMatchFeatures>,
) -> (r: Vec<SelectionReason>)
    ensures
        r@ == spec_selection_reasons(
            ordinal as nat,
            event_count as nat,
            head_end as nat,
            tail_start as nat,
            query_features,
        ),
{
    let mut reasons: Vec<SelectionReason> = Vec::new();
    if let Some(f) = query_features {
        if f.full_query_match {
            reasons.push(SelectionReason::FullQueryMatch);
        }
        if f.identifier_exact_matches != 0 {
            reasons.push(SelectionReason::IdentifierMatch);
        }
        if f.matched_terms != 0 {
            reasons.push(SelectionReason::QueryTermMatch);
        }
    }
    if ordinal < head_end {
        reasons.push(SelectionReason::HeadSentinel);
    }
    if ordinal >= tail_start && ordinal < event_count {
        reasons.push(SelectionReason::TailSentinel);
    }
    proof {
        assert(reasons@ =~= spec_selection_reasons(
            ordinal as nat,
            event_count as nat,
            head_end as nat,
            tail_start as nat,
            query_features,
        ));
    }
    reasons
}

/// The features of an event when it is a query match.
pub open spec fn query_match_at(query: Seq<u8>, ledger: &EventLedger, o: int) -> Option<
    QueryMatchFeatures,
> {
    let f = spec_features(
        ledger.events@[o].raw@,
        spec_trim(query),
        spec_query_terms(query),
        ledger.events@,
    );
    if is_query_match(f) {
        Some(f)
    } else {
        None
    }
}

/// The ranked query candidates of a request.
pub open spec fn query_ranking(query: Seq<u8>, ledger: &EventLedger) -> Seq<QueryCandidate> {
    spec_ranking(spec_trim(query), spec_query_terms(query), ledger, ledger.events.len() as nat)
}

pub open spec fn spec_min(a: nat, b: nat) -> nat {
    if a <= b {
        a
    } else {
        b
    }
}

/// Configuration for the query-term grep plus tail/head sentinel baseline.
#[derive(Clone, Copy, Debug, PartialEq, Eq, Structural)]
pub struct GrepHeadTailConfig {
    pub head_events: usize,
    pub tail_events: usize,
}

impl GrepHeadTailConfig {
    pub fn new(head_events: usize, tail_events: usize) -> (r: Self)
        ensures
            r.head_events == head_events,
            r.tail_events == tail_events,
    {
        GrepHeadTailConfig { head_events, tail_events }
    }

    pub fn head_events(self) -> (r: usize)
        ensures
            r == self.head_events,
    {
        self.head_events
    }

    pub fn tail_events(self) -> (r: usize)
        ensures
            r == self.tail_events,
    {
        self.tail_events
    }
}

impl Default for GrepHeadTailConfig {
    fn default() -> (r: Self)
        ensures
            r.head_events == 20 && r.tail_events == 200,
    {
        GrepHeadTailConfig { head_events: 20, tail_events: 200 }
    }
}

/// Deterministic ASCII query-term grep, followed by tail and head sentinels.
#[derive(Clone, Copy, Debug, PartialEq, Eq, Structural)]
pub struct GrepHeadTail {
    pub config: GrepHeadTailConfig,
}

/// Query candidates first, then the tail events, then the head events.
pub open spec fn grep_priority(query: Seq<u8>, ledger: &EventLedger, config: GrepHeadTailConfig) -> Seq<
    usize,
> {
    let n = ledger.events.len() as nat;
    query_ranking(query, ledger).map_values(|c: QueryCandidate| c.ordinal) + range_seq(
        sat_sub(n, config.tail_events as nat),
        n,
    ) + range_seq(0, spec_min(config.head_events as nat, n))
}

/// The reasons of the event at a position under the grep baseline.
pub open spec fn grep_reasons(
    query: Seq<u8>,
    ledger: &EventLedger,
    config: GrepHeadTailConfig,
    o: usize,
) -> Seq<SelectionReason> {
    let n = ledger.events.len() as nat;
    entry_reasons(
        o as nat,
        n,
        spec_min(config.head_events as nat, n),
        sat_sub(n, config.tail_events as nat),
        query_match_at(query, ledger, o as int),
        false,
    )
}

/// The selection reasons plus the coverage-sentinel reason when the event is
/// a coverage sentinel.
pub open spec fn entry_reasons(
    ordinal: nat,
    event_count: nat,
    head_end: nat,
    tail_start: nat,
    query_features: Option<QueryMatchFeatures>,
    coverage: bool,
) -> Seq<SelectionReason> {
    spec_selection_reasons(ordinal, event_count, head_end, tail_start, query_features) + if coverage {
        seq![SelectionReason::CoverageSentinel]
    } else {
        Seq::empty()
    }
}

/// The selected positions, in increasing order, each with its reasons.
fn selected_entries(
    sel: &Vec<bool>,
    qfeat: &Vec<Option<QueryMatchFeatures>>,
    coverage: &Vec<bool>,
    head_end: usize,
    tail_start: usize,
) -> (r: Vec<(usize, Vec<SelectionReason>)>)
    requires
        qfeat.len() == sel.len(),
        coverage.len() == sel.len(),
    ensures
        r@.map_values(|p: (usize, Vec<SelectionReason>)| p.0) == flagged(sel@),
        r@.map_values(|p: (usize, Vec<SelectionReason>)| p.1@) == flagged(sel@).map_values(
            |q: usize|
                entry_reasons(
                    q as nat,
                    sel.len() as nat,
                    head_end as nat,
                    tail_start as nat,
                    qfeat@[q as int],
                    coverage@[q as int],
                ),
        ),
{
    let n = sel.len();
    let ghost rf = |q: usize|
        entry_reasons(
            q as nat,
            n as nat,
            head_end as nat,
            tail_start as nat,
            qfeat@[q as int],
            coverage@[q as int],
        );
    let mut selected: Vec<(usize, Vec<SelectionReason>)> = Vec::new();
    let mut o: usize = 0;
    while o < n
        invariant
            o <= n == sel.len(),
            qfeat.len() == n,
            coverage.len() == n,
            rf == (|q: usize|
                entry_reasons(
                    q as nat,
                    n as nat,
                    head_end as nat,
                    tail_start as nat,
                    qfeat@[q as int],
                    coverage@[q as int],
                )),
            selected@.map_values(|p: (usize, Vec<SelectionReason>)| p.0) == flagged(sel@.take(o as int)),
            selected@.map_values(|p: (usize, Vec<SelectionReason>)| p.1@) == flagged(
                sel@.take(o as int),
            ).map_values(rf),
        decreases n - o,
    {
        proof {
            assert(sel@.take(o + 1).drop_last() == sel@.take(o as int));
            assert(sel@.take(o + 1).last() == sel@[o as int]);
        }
        if sel[o] {
            let mut reasons = selection_reasons(o, n, head_end, tail_start, qfeat[o]);
            if coverage[o] {
                reasons.push(SelectionReason::CoverageSentinel);
            }
            proof {
                assert(reasons@ =~= rf(o));
            }
            let ghost before = selected@;
            selected.push((o, reasons));
            proof {
                let f0 = flagged(sel@.take(o as int));
                assert(selected@.map_values(|p: (usize, Vec<SelectionReason>)| p.0) =~= before.map_values(
                    |p: (usize, Vec<SelectionReason>)| p.0,
                ).push(o));
                assert(selected@.map_values(|p: (usize, Vec<SelectionReason>)| p.1@) =~= before.map_values(
                    |p: (usize, Vec<SelectionReason>)| p.1@,
                ).push(reasons@));
                assert(f0.push(o).map_values(rf) =~= f0.map_values(rf).push(rf(o)));
            }
        }
        o = o + 1;
    }
    proof {
        assert(sel@.take(n as int) == sel@);
    }
    selected
}

impl GrepHeadTail {
    pub fn new(config: GrepHeadTailConfig) -> (r: Self)
        ensures
            r.config == config,
    {
        GrepHeadTail { config }
    }

    pub fn config(self) -> (r: GrepHeadTailConfig)
        ensures
            r == self.config,
    {
        self.config
    }

    pub fn descriptor(&self) -> (r: MethodDescriptor)
        ensures
            r.name@ == "grep-head-tail"@,
            r.version@ == "1"@,
    {
        grep_head_tail_descriptor()
    }

    /// Offer events in priority order (ranked query candidates, tail, head),
    /// selecting each whole event that still fits the budget.
    pub fn run(&self, ledger: &EventLedger, query: &[u8], budget: ByteBudget) -> (r: Result<
        MethodResult,
        MethodError,
    >)
        ensures
            ({
                let n = ledger.events.len() as nat;
                let priority = grep_priority(query@, ledger, self.config);
                let g = greedy(ledger, budget.0 as nat, priority);
                let candidates = flagged(priority_flags(n, priority));
                let selected = flagged(g.1);
                &&& r is Ok <==> (!g.4 && ordinal_bytes(ledger, candidates) <= usize::MAX)
                &&& r matches Err(e) ==> e == MethodError::SourceByteCostOverflow
                &&& r matches Ok(res) ==> built_result(
                    res,
                    res.method,
                    ledger,
                    budget,
                    candidates,
                    g.3,
                    selected,
                    selected.map_values(|o: usize| grep_reasons(query@, ledger, self.config, o)),
                )
                &&& r matches Ok(res) ==> res.method.name@ == "grep-head-tail"@
                &&& r matches Ok(res) ==> ordinal_bytes(ledger, selected) <= budget.0
                &&& r matches Ok(res) ==> forall|i: int|
                    0 <= i < selected.len() ==> candidates.contains(#[trigger] selected[i])
            }),
    {
        let n = ledger.len();
        let head_end = if self.config.head_events < n {
            self.config.head_events
        } else {
            n
        };
        let tail_start = n.saturating_sub(self.config.tail_events);
        let analysis = QueryAnalysis::new(query);
        let ranked = analysis.rank(ledger);
        let qfeat = query_feature_table(&analysis, ledger, &ranked);
        let mut priority: Vec<usize> = Vec::new();
        let mut i: usize = 0;
        while i < ranked.len()
            invariant
                i <= ranked.len(),
                priority@ == ranked@.take(i as int).map_values(|c: QueryCandidate| c.ordinal),
            decreases ranked.len() - i,
        {
            priority.push(ranked[i].ordinal);
            proof {
                assert(ranked@.take(i + 1).map_values(|c: QueryCandidate| c.ordinal)
                    =~= ranked@.take(i as int).map_values(|c: QueryCandidate| c.ordinal).push(
                    ranked@[i as int].ordinal,
                ));
            }
            i = i + 1;
        }
        proof {
            assert(ranked@.take(ranked@.len() as int) == ranked@);
        }
        let tail = range_vec(tail_start, n);
        let head = range_vec(0, head_end);
        let ghost p0 = priority@;
        priority.extend_from_slice(tail.as_slice());
        priority.extend_from_slice(head.as_slice());
        proof {
            assert(priority@ == p0 + tail@ + head@);
            assert(priority@ == grep_priority(query@, ledger, self.config));
            assert forall|k: int| 0 <= k < priority@.len() implies priority@[k] < n by {
                if k < p0.len() {
                    assert(p0[k] == ranked@[k].ordinal);
                } else if k < p0.len() + tail@.len() {
                    assert(priority@[k] == tail@[k - p0.len()]);
                } else {
                    assert(priority@[k] == head@[k - p0.len() - tail@.len()]);
                }
            }
        }
        let r = greedy_select(ledger, budget, &priority);
        match r {
            Err(e) => Err(e),
            Ok((cand, sel, excluded)) => {
                let candidates = flagged_positions(&cand);
                let mut no_coverage: Vec<bool> = Vec::new();
                let mut k: usize = 0;
                while k < n
                    invariant
                        k <= n,
                        no_coverage.len() == k,
                        forall|q: int| 0 <= q < k ==> !no_coverage@[q],
                    decreases n - k,
                {
                    no_coverage.push(false);
                    k = k + 1;
                }
                let selected = selected_entries(&sel, &qfeat, &no_coverage, head_end, tail_start);
                proof {
                    let fl = flagged(sel@);
                    lemma_flagged(sel@);
                    lemma_flagged(cand@);
                    let f1 = |q: usize|
                        entry_reasons(
                            q as nat,
                            n as nat,
                            head_end as nat,
                            tail_start as nat,
                            qfeat@[q as int],
                            no_coverage@[q as int],
                        );
                    let f2 = |q: usize| grep_reasons(query@, ledger, self.config, q);
                    assert forall|j: int| 0 <= j < fl.len() implies f1(#[trigger] fl[j]) == f2(fl[j]) by {
                        assert(fl[j] < n);
                    }
                    assert(fl.map_values(f1) =~= fl.map_values(f2));
                    assert forall|k: int| 0 <= k < fl.len() implies flagged(cand@).contains(#[trigger] fl[k]) by {
                        assert(fl.contains(fl[k]));
                        assert(sel@[fl[k] as int]);
                    }
                }
                build_result(self.descriptor(), ledger, budget, &candidates, excluded, selected)
            },
        }
    }
}

/// Per position, the query-match features from a ranking (or `None`).
fn query_feature_table(analysis: &QueryAnalysis, ledger: &EventLedger, ranked: &Vec<QueryCandidate>) -> (r: Vec<Option<QueryMatchFeatures>>)
    requires
        forall|i: int|
            0 <= i < ranked.len() ==> {
                &&& (#[trigger] ranked@[i]).ordinal < ledger.events.len()
                &&& ranked@[i].features == analysis.features_at(ledger, ranked@[i].ordinal as int)
                &&& is_query_match(ranked@[i].features)
            },
        forall|o: int|
            0 <= o < ledger.events.len() && is_query_match(#[trigger] analysis.features_at(ledger, o))
                ==> exists|i: int| 0 <= i < ranked.len() && ranked@[i].ordinal == o,
    ensures
        r.len() == ledger.events.len(),
        forall|o: int|
            0 <= o < ledger.events.len() ==> r@[o] == (if is_query_match(analysis.features_at(ledger, o)) {
                Some(analysis.features_at(ledger, o))
            } else {
                None
            }),
{
    let n = ledger.events.len();
    let mut table: Vec<Option<QueryMatchFeatures>> = Vec::new();
    let mut k: usize = 0;
    while k < n
        invariant
            k <= n == ledger.events.len(),
            table.len() == k,
            forall|q: int| 0 <= q < k ==> table@[q] == None::<QueryMatchFeatures>,
        decreases n - k,
    {
        table.push(None);
        k = k + 1;
    }
    let mut i: usize = 0;
    while i < ranked.len()
        invariant
            i <= ranked.len(),
            n == ledger.events.len(),
            table.len() == n,
            forall|j: int|
                0 <= j < ranked.len() ==> {
                    &&& (#[trigger] ranked@[j]).ordinal < ledger.events.len()
                    &&& ranked@[j].features == analysis.features_at(ledger, ranked@[j].ordinal as int)
                },
            forall|q: int|
                0 <= q < n ==> (table@[q] is Some <==> exists|j: int|
                    0 <= j < i && ranked@[j].ordinal == q),
            forall|q: int|
                0 <= q < n && table@[q] is Some ==> table@[q] == Some(
                    analysis.features_at(ledger, q),
                ),
        decreases ranked.len() - i,
    {
        let c = ranked[i];
        table.set(c.ordinal, Some(c.features));
        proof {
            assert forall|q: int|
                0 <= q < n implies (table@[q] is Some <==> exists|j: int|
                    0 <= j < i + 1 && ranked@[j].ordinal == q) by {
                if q == c.ordinal {
                    assert(ranked@[i as int].ordinal == q);
                }
            }
        }
        i = i + 1;
    }
    proof {
        assert forall|o: int| 0 <= o < n implies table@[o] == (if is_query_match(
            analysis.features_at(ledger, o),
        ) {
            Some(analysis.features_at(ledger, o))
        } else {
            None
        }) by {
            if table@[o] is Some {
                let j = choose|j: int| 0 <= j < ranked.len() && ranked@[j].ordinal == o;
                assert(is_query_match(ranked@[j].features));
            } else if is_query_match(analysis.features_at(ledger, o)) {
                let j = choose|j: int| 0 <= j < ranked.len() && ranked@[j].ordinal == o;
                assert(false);
            }
        }
    }
    table
}

/// No set flag, no flagged position.
pub proof fn lemma_flagged_none(flags: Seq<bool>)
    requires
        forall|i: int| 0 <= i < flags.len() ==> !flags[i],
    ensures
        flagged(flags) == Seq::<usize>::empty(),
    decreases flags.len(),
{
    if flags.len() > 0 {
        lemma_flagged_none(flags.drop_last());
    }
}

/// Run the greedy pass over a priority list, returning the candidate flags,
/// selected flags and budget-excluded count.
pub fn greedy_select(ledger: &EventLedger, budget: ByteBudget, priority: &Vec<usize>) -> (r: Result<
    (Vec<bool>, Vec<bool>, usize),
    MethodError,
>)
    requires
        all_below(priority@, ledger.events.len() as nat),
    ensures
        ({
            let g = greedy(ledger, budget.0 as nat, priority@);
            &&& r is Ok <==> !g.4
            &&& r matches Err(e) ==> e == MethodError::SourceByteCostOverflow
            &&& r matches Ok(t) ==> {
                &&& t.0.len() == ledger.events.len() && t.1.len() == ledger.events.len()
                &&& t.0@ == priority_flags(ledger.events.len() as nat, priority@)
                &&& t.1@ == g.1
                &&& forall|q: int| 0 <= q < ledger.events.len() && #[trigger] t.1@[q] ==> t.0@[q]
                &&& t.2 == g.3
                &&& g.2 == ordinal_bytes(ledger, flagged(g.1))
                &&& g.2 <= budget.0
            }
        }),
{
    let n = ledger.events.len();
    let mut cand: Vec<bool> = Vec::new();
    let mut visited: Vec<bool> = Vec::new();
    let mut selected: Vec<bool> = Vec::new();
    let mut k: usize = 0;
    while k < n
        invariant
            k <= n,
            cand.len() == k && visited.len() == k && selected.len() == k,
            forall|q: int| 0 <= q < k ==> !cand@[q] && !visited@[q] && !selected@[q],
        decreases n - k,
    {
        cand.push(false);
        visited.push(false);
        selected.push(false);
        k = k + 1;
    }
    proof {
        assert(visited@ =~= Seq::new(n as nat, |i: int| false));
        assert(selected@ =~= Seq::new(n as nat, |i: int| false));
        lemma_flagged_none(selected@);
        assert(priority@.take(0) =~= Seq::<usize>::empty());
    }
    let mut bytes: usize = 0;
    let mut excluded: usize = 0;
    let mut i: usize = 0;
    while i < priority.len()
        invariant
            i <= priority.len(),
            n == ledger.events.len(),
            all_below(priority@, n as nat),
            cand.len() == n && visited.len() == n && selected.len() == n,
            forall|q: int| 0 <= q < n ==> cand@[q] == priority@.take(i as int).contains(q as usize),
            ({
                let g = greedy(ledger, budget.0 as nat, priority@.take(i as int));
                &&& g.0 == visited@
                &&& g.1 == selected@
                &&& g.2 == bytes
                &&& g.3 == excluded
                &&& !g.4
            }),
            forall|q: int| 0 <= q < n && selected@[q] ==> visited@[q],
            forall|q: int| 0 <= q < n && visited@[q] ==> cand@[q],
            bytes == ordinal_bytes(ledger, flagged(selected@)),
            bytes <= budget.0,
            excluded <= i,
        decreases priority.len() - i,
    {
        let o = priority[i];
        proof {
            assert(priority@.take(i + 1).drop_last() == priority@.take(i as int));
            assert(priority@.take(i + 1).last() == o);
            assert forall|q: int| 0 <= q < n implies cand@.update(o as int, true)[q]
                == priority@.take(i + 1).contains(q as usize) by {
                if q == o {
                    assert(priority@.take(i + 1)[i as int] == o);
                } else {
                    if priority@.take(i + 1).contains(q as usize) {
                        let m = choose|m: int|
                            0 <= m < i + 1 && #[trigger] priority@.take(i + 1)[m] == q as usize;
                        assert(priority@.take(i as int)[m] == q as usize);
                    }
                    if priority@.take(i as int).contains(q as usize) {
                        let m = choose|m: int|
                            0 <= m < i && #[trigger] priority@.take(i as int)[m] == q as usize;
                        assert(priority@.take(i + 1)[m] == q as usize);
                    }
                }
            }
        }
        cand.set(o, true);
        if !visited[o] {
            visited.set(o, true);
            match checked_cost_within_budget(bytes, ledger.events[o].raw.len(), budget) {
                Err(e) => {
                    proof {
                        lemma_greedy_overflow_sticks(ledger, budget.0 as nat, priority@, i + 1);
                    }
                    return Err(e);
                },
                Ok(None) => {
                    excluded = excluded + 1;
                },
                Ok(Some(t)) => {
                    proof {
                        lemma_flag_bytes_set(ledger, selected@, o as int);
                    }
                    selected.set(o, true);
                    bytes = t;
                },
            }
        }
        i = i + 1;
    }
    proof {
        assert(priority@.take(priority@.len() as int) == priority@);
        assert(cand@ =~= priority_flags(n as nat, priority@));
    }
    Ok((cand, selected, excluded))
}


/// `requested` sentinel positions spread evenly over `event_count` events:
/// the midpoints `(2i + 1) * event_count / (2 * count)`.
pub open spec fn spec_evenly_spaced(event_count: nat, requested: nat) -> Seq<usize> {
    let count = spec_min(requested, event_count);
    Seq::new(count, |i: int| ((2 * i + 1) * (event_count as int) / (2 * (count as int))) as usize)
}

pub fn evenly_spaced_ordinals(event_count: usize, requested: usize) -> (r: Vec<usize>)
    requires
        event_count < 0x8000_0000_0000_0000,
    ensures
        r@ == spec_evenly_spaced(event_count as nat, requested as nat),
        all_below(r@, event_count as nat),
{
    let count = if requested < event_count {
        requested
    } else {
        event_count
    };
    let mut out: Vec<usize> = Vec::new();
    if count == 0 {
        proof {
            assert(out@ =~= spec_evenly_spaced(event_count as nat, requested as nat));
        }
        return out;
    }
    let mut index: usize = 0;
    while index < count
        invariant
            0 < count <= event_count,
            event_count < 0x8000_0000_0000_0000,
            count == spec_min(requested as nat, event_count as nat),
            index <= count,
            out@ == spec_evenly_spaced(event_count as nat, requested as nat).take(index as int),
            all_below(out@, event_count as nat),
        decreases count - index,
    {
        let i = index as u128;
        let n = event_count as u128;
        let c = count as u128;
        proof {
            assert((2 * i + 1) * n <= (2 * c) * n) by (nonlinear_arith)
                requires
                    i < c,
            ;
            assert((2 * c) * n <= 0xffff_ffff_ffff_ffff_ffff_ffff_ffff_ffff) by (nonlinear_arith)
                requires
                    c <= n,
                    n < 0x8000_0000_0000_0000,
            ;
        }
        let numerator: u128 = (2 * i + 1) * n;
        let denominator: u128 = 2 * c;
        let v: u128 = numerator / denominator;
        proof {
            assert(v < n) by (nonlinear_arith)
                requires
                    v == numerator / denominator,
                    numerator == (2 * i + 1) * n,
                    denominator == 2 * c,
                    i < c,
                    c > 0,
                    n > 0,
            {
                assert(numerator < denominator * n);
            }
        }
        out.push(v as usize);
        proof {
            assert(out@ =~= spec_evenly_spaced(event_count as nat, requested as nat).take(index + 1));
        }
        index = index + 1;
    }
    proof {
        assert(spec_evenly_spaced(event_count as nat, requested as nat).take(count as int)
            =~= spec_evenly_spaced(event_count as nat, requested as nat));
    }
    out
}


/// The position is named by some lane.
pub open spec fn in_some_lane(lanes: Seq<Seq<usize>>, o: int) -> bool {
    exists|j: int, k: int| 0 <= j < lanes.len() && 0 <= k < lanes[j].len() && lanes[j][k] == o
}

/// Which positions some lane names.
pub open spec fn lane_flags(n: nat, lanes: Seq<Seq<usize>>) -> Seq<bool> {
    Seq::new(n, |o: int| in_some_lane(lanes, o))
}

/// Every lane names only positions below `n`.
pub open spec fn lanes_below(lanes: Seq<Seq<usize>>, n: nat) -> bool {
    forall|j: int| 0 <= j < lanes.len() ==> all_below(#[trigger] lanes[j], n)
}

/// Reservation-pass state: selected flags, selected bytes, bytes spent by the
/// current lane, and whether a byte sum left `usize`.
pub type LaneState = (Seq<bool>, nat, nat, bool);

/// Offer one lane position: an already selected event is free; otherwise it is
/// selected when it fits both the lane's quota and the request budget.
pub open spec fn lane_step(ledger: &EventLedger, budget: nat, quota: nat, st: LaneState, o: usize) -> LaneState {
    let raw = ledger.raw_len(o as int);
    if st.3 || st.0[o as int] {
        st
    } else if st.2 + raw > usize::MAX {
        (st.0, st.1, st.2, true)
    } else if st.2 + raw > quota {
        st
    } else if st.1 + raw > usize::MAX {
        (st.0, st.1, st.2, true)
    } else if st.1 + raw > budget {
        st
    } else {
        (st.0.update(o as int, true), st.1 + raw, st.2 + raw, false)
    }
}

pub open spec fn lane_fold(ledger: &EventLedger, budget: nat, quota: nat, st: LaneState, lane: Seq<usize>) -> LaneState
    decreases lane.len(),
{
    if lane.len() == 0 {
        st
    } else {
        lane_step(ledger, budget, quota, lane_fold(ledger, budget, quota, st, lane.drop_last()), lane.last())
    }
}

/// The reservation pass over the first `j` lanes: each lane spends only its
/// own quota, starting from nothing.
pub open spec fn reservation_pass(
    ledger: &EventLedger,
    budget: nat,
    lanes: Seq<Seq<usize>>,
    quotas: Seq<nat>,
    j: nat,
) -> (Seq<bool>, nat, bool)
    decreases j,
{
    if j == 0 {
        (Seq::new(ledger.events.len() as nat, |i: int| false), 0, false)
    } else {
        let prev = reservation_pass(ledger, budget, lanes, quotas, (j - 1) as nat);
        let f = lane_fold(ledger, budget, quotas[j - 1], (prev.0, prev.1, 0, prev.2), lanes[j - 1]);
        (f.0, f.1, f.3)
    }
}

/// Redistribution state: selected flags, selected bytes, positions already
/// offered, and whether a byte sum left `usize`.
pub type SpillState = (Seq<bool>, nat, Seq<bool>, bool);

/// Offer one position again: unselected positions not offered before are
/// selected when they fit the request budget.
pub open spec fn spill_step(ledger: &EventLedger, budget: nat, st: SpillState, o: usize) -> SpillState {
    let raw = ledger.raw_len(o as int);
    if st.3 || st.0[o as int] || st.2[o as int] {
        st
    } else if st.1 + raw > usize::MAX {
        (st.0, st.1, st.2.update(o as int, true), true)
    } else if st.1 + raw > budget {
        (st.0, st.1, st.2.update(o as int, true), false)
    } else {
        (st.0.update(o as int, true), st.1 + raw, st.2.update(o as int, true), false)
    }
}

pub open spec fn spill_fold(ledger: &EventLedger, budget: nat, st: SpillState, order: Seq<usize>) -> SpillState
    decreases order.len(),
{
    if order.len() == 0 {
        st
    } else {
        spill_step(ledger, budget, spill_fold(ledger, budget, st, order.drop_last()), order.last())
    }
}

/// Position `p` of each of the first `j` lanes that is that long.
pub open spec fn round_robin_row(lanes: Seq<Seq<usize>>, p: nat, j: nat) -> Seq<usize>
    decreases j,
{
    if j == 0 {
        Seq::empty()
    } else {
        round_robin_row(lanes, p, (j - 1) as nat) + if p < lanes[j - 1].len() {
            seq![lanes[j - 1][p as int]]
        } else {
            Seq::empty()
        }
    }
}

/// One candidate per lane per round, for the first `p` rounds.
pub open spec fn round_robin(lanes: Seq<Seq<usize>>, p: nat) -> Seq<usize>
    decreases p,
{
    if p == 0 {
        Seq::empty()
    } else {
        round_robin(lanes, (p - 1) as nat) + round_robin_row(lanes, (p - 1) as nat, lanes.len())
    }
}

/// The length of the longest of the first `j` lanes.
pub open spec fn max_lane_len(lanes: Seq<Seq<usize>>, j: nat) -> nat
    decreases j,
{
    if j == 0 {
        0
    } else {
        let prev = max_lane_len(lanes, (j - 1) as nat);
        if lanes[j - 1].len() > prev {
            lanes[j - 1].len()
        } else {
            prev
        }
    }
}

/// Which positions a priority list names, as a vector of flags.
pub fn position_flags(n: usize, positions: &Vec<usize>) -> (r: Vec<bool>)
    requires
        all_below(positions@, n as nat),
    ensures
        r@ == priority_flags(n as nat, positions@),
{
    let mut flags: Vec<bool> = Vec::new();
    let mut k: usize = 0;
    while k < n
        invariant
            k <= n,
            flags.len() == k,
            forall|q: int| 0 <= q < k ==> !flags@[q],
        decreases n - k,
    {
        flags.push(false);
        k = k + 1;
    }
    let mut i: usize = 0;
    while i < positions.len()
        invariant
            i <= positions.len(),
            all_below(positions@, n as nat),
            flags.len() == n,
            forall|q: int| 0 <= q < n ==> flags@[q] == positions@.take(i as int).contains(q as usize),
        decreases positions.len() - i,
    {
        let o = positions[i];
        proof {
            assert forall|q: int| 0 <= q < n implies flags@.update(o as int, true)[q]
                == positions@.take(i + 1).contains(q as usize) by {
                if q == o {
                    assert(positions@.take(i + 1)[i as int] == o);
                } else {
                    if positions@.take(i + 1).contains(q as usize) {
                        let m = choose|m: int|
                            0 <= m < i + 1 && #[trigger] positions@.take(i + 1)[m] == q as usize;
                        assert(positions@.take(i as int)[m] == q as usize);
                    }
                    if positions@.take(i as int).contains(q as usize) {
                        let m = choose|m: int|
                            0 <= m < i && #[trigger] positions@.take(i as int)[m] == q as usize;
                        assert(positions@.take(i + 1)[m] == q as usize);
                    }
                }
            }
        }
        flags.set(o, true);
        i = i + 1;
    }
    proof {
        assert(positions@.take(positions@.len() as int) == positions@);
        assert(flags@ =~= priority_flags(n as nat, positions@));
    }
    flags
}

/// Which positions some lane names, as a vector of flags.
fn lane_flag_vec(n: usize, lanes: &Vec<Vec<usize>>) -> (r: Vec<bool>)
    requires
        lanes_below(lanes@.map_values(|l: Vec<usize>| l@), n as nat),
    ensures
        r@ == lane_flags(n as nat, lanes@.map_values(|l: Vec<usize>| l@)),
{
    let ghost ls = lanes@.map_values(|l: Vec<usize>| l@);
    let mut flags: Vec<bool> = Vec::new();
    let mut k: usize = 0;
    while k < n
        invariant
            k <= n,
            flags.len() == k,
            forall|q: int| 0 <= q < k ==> !flags@[q],
        decreases n - k,
    {
        flags.push(false);
        k = k + 1;
    }
    let mut j: usize = 0;
    while j < lanes.len()
        invariant
            j <= lanes.len(),
            ls == lanes@.map_values(|l: Vec<usize>| l@),
            lanes_below(ls, n as nat),
            flags.len() == n,
            forall|q: int|
                0 <= q < n ==> (flags@[q] <==> exists|a: int, b: int|
                    0 <= a < j && 0 <= b < ls[a].len() && ls[a][b] == q),
        decreases lanes.len() - j,
    {
        let lane = &lanes[j];
        assert(ls[j as int] == lane@);
        let mut k2: usize = 0;
        while k2 < lane.len()
            invariant
                j < lanes.len(),
                k2 <= lane.len(),
                ls == lanes@.map_values(|l: Vec<usize>| l@),
                ls[j as int] == lane@,
                lanes_below(ls, n as nat),
                flags.len() == n,
                forall|q: int|
                    0 <= q < n ==> (flags@[q] <==> (exists|a: int, b: int|
                        0 <= a < j && 0 <= b < ls[a].len() && ls[a][b] == q) || (exists|b: int|
                        0 <= b < k2 && lane@[b] == q)),
            decreases lane.len() - k2,
        {
            let o = lane[k2];
            assert(all_below(ls[j as int], n as nat));
            assert(o < n);
            flags.set(o, true);
            proof {
                assert forall|q: int|
                    0 <= q < n implies (flags@[q] <==> (exists|a: int, b: int|
                        0 <= a < j && 0 <= b < ls[a].len() && ls[a][b] == q) || (exists|b: int|
                        0 <= b < k2 + 1 && lane@[b] == q)) by {
                    if q == o {
                        assert(lane@[k2 as int] == q);
                    }
                }
            }
            k2 = k2 + 1;
        }
        proof {
            assert forall|q: int|
                0 <= q < n implies (flags@[q] <==> exists|a: int, b: int|
                    0 <= a < j + 1 && 0 <= b < ls[a].len() && ls[a][b] == q) by {
                if exists|b: int| 0 <= b < lane.len() && lane@[b] == q {
                    let b = choose|b: int| 0 <= b < lane.len() && lane@[b] == q;
                    assert(ls[j as int][b] == q);
                }
                if exists|a: int, b: int| 0 <= a < j + 1 && 0 <= b < ls[a].len() && ls[a][b] == q {
                    let (a, b) = choose|a: int, b: int|
                        0 <= a < j + 1 && 0 <= b < ls[a].len() && ls[a][b] == q;
                    if a == j {
                        assert(lane@[b] == q);
                    }
                }
            }
        }
        j = j + 1;
    }
    proof {
        assert(flags@ =~= lane_flags(n as nat, ls));
    }
    flags
}


/// The reservation pass: every lane in turn spends only its own quota.
fn reservation(ledger: &EventLedger, budget: ByteBudget, lanes: &Vec<Vec<usize>>, quotas: &Vec<usize>) -> (r: (
    Vec<bool>,
    usize,
    bool,
))
    requires
        lanes.len() == quotas.len(),
        lanes_below(lanes@.map_values(|l: Vec<usize>| l@), ledger.events.len() as nat),
    ensures
        ({
            let ls = lanes@.map_values(|l: Vec<usize>| l@);
            let qs = quotas@.map_values(|q: usize| q as nat);
            &&& (r.0@, r.1 as nat, r.2) == reservation_pass(ledger, budget.0 as nat, ls, qs, lanes.len() as nat)
            &&& r.0.len() == ledger.events.len()
            &&& r.1 == ordinal_bytes(ledger, flagged(r.0@))
            &&& r.1 <= budget.0
            &&& forall|o: int| 0 <= o < ledger.events.len() && r.0@[o] ==> in_some_lane(ls, o)
        }),
{
    let n = ledger.events.len();
    let ghost ls = lanes@.map_values(|l: Vec<usize>| l@);
    let ghost qs = quotas@.map_values(|q: usize| q as nat);
    let mut sel: Vec<bool> = Vec::new();
    let mut k: usize = 0;
    while k < n
        invariant
            k <= n,
            sel.len() == k,
            forall|q: int| 0 <= q < k ==> !sel@[q],
        decreases n - k,
    {
        sel.push(false);
        k = k + 1;
    }
    proof {
        assert(sel@ =~= Seq::new(n as nat, |i: int| false));
        lemma_flagged_none(sel@);
    }
    let mut bytes: usize = 0;
    let mut overflow = false;
    let mut j: usize = 0;
    while j < lanes.len()
        invariant
            j <= lanes.len() == quotas.len(),
            n == ledger.events.len(),
            ls == lanes@.map_values(|l: Vec<usize>| l@),
            qs == quotas@.map_values(|q: usize| q as nat),
            lanes_below(ls, n as nat),
            sel.len() == n,
            (sel@, bytes as nat, overflow) == reservation_pass(ledger, budget.0 as nat, ls, qs, j as nat),
            bytes == ordinal_bytes(ledger, flagged(sel@)),
            bytes <= budget.0,
            forall|o: int| 0 <= o < n && sel@[o] ==> in_some_lane(ls, o),
        decreases lanes.len() - j,
    {
        let lane = &lanes[j];
        let quota = quotas[j];
        assert(ls[j as int] == lane@);
        assert(qs[j as int] == quota as nat);
        let mut lane_bytes: usize = 0;
        let mut i: usize = 0;
        proof {
            assert(lane@.take(0) =~= Seq::<usize>::empty());
        }
        while i < lane.len()
            invariant
                j < lanes.len() == quotas.len(),
                i <= lane.len(),
                n == ledger.events.len(),
                ls == lanes@.map_values(|l: Vec<usize>| l@),
                ls[j as int] == lane@,
                lanes_below(ls, n as nat),
                sel.len() == n,
                (sel@, bytes as nat, lane_bytes as nat, overflow) == lane_fold(
                    ledger,
                    budget.0 as nat,
                    quota as nat,
                    (reservation_pass(ledger, budget.0 as nat, ls, qs, j as nat).0, reservation_pass(
                        ledger,
                        budget.0 as nat,
                        ls,
                        qs,
                        j as nat,
                    ).1, 0, reservation_pass(ledger, budget.0 as nat, ls, qs, j as nat).2),
                    lane@.take(i as int),
                ),
                bytes == ordinal_bytes(ledger, flagged(sel@)),
                bytes <= budget.0,
                forall|o: int| 0 <= o < n && sel@[o] ==> in_some_lane(ls, o),
            decreases lane.len() - i,
        {
            let o = lane[i];
            proof {
                assert(all_below(ls[j as int], n as nat));
                assert(lane@.take(i + 1).drop_last() == lane@.take(i as int));
                assert(lane@.take(i + 1).last() == o);
            }
            if !overflow && !sel[o] {
                let raw = ledger.events[o].raw.len();
                match checked_cost_within_budget(lane_bytes, raw, ByteBudget(quota)) {
                    Err(_) => {
                        overflow = true;
                    },
                    Ok(None) => {},
                    Ok(Some(new_lane_bytes)) => {
                        match checked_cost_within_budget(bytes, raw, budget) {
                            Err(_) => {
                                overflow = true;
                            },
                            Ok(None) => {},
                            Ok(Some(new_bytes)) => {
                                proof {
                                    lemma_flag_bytes_set(ledger, sel@, o as int);
                                    assert(ls[j as int][i as int] == o);
                                }
                                sel.set(o, true);
                                bytes = new_bytes;
                                lane_bytes = new_lane_bytes;
                                proof {
                                    assert forall|q: int| 0 <= q < n && sel@[q] implies in_some_lane(
                                        ls,
                                        q,
                                    ) by {
                                        if q == o {
                                            assert(ls[j as int][i as int] == q);
                                        }
                                    }
                                }
                            },
                        }
                    },
                }
            }
            i = i + 1;
        }
        proof {
            assert(lane@.take(lane@.len() as int) == lane@);
        }
        j = j + 1;
    }
    (sel, bytes, overflow)
}

/// The redistribution pass: one candidate per lane per round, in lane order.
fn redistribution(
    ledger: &EventLedger,
    budget: ByteBudget,
    lanes: &Vec<Vec<usize>>,
    sel_in: Vec<bool>,
    bytes_in: usize,
    overflow_in: bool,
) -> (r: (Vec<bool>, usize, bool))
    requires
        lanes_below(lanes@.map_values(|l: Vec<usize>| l@), ledger.events.len() as nat),
        sel_in.len() == ledger.events.len(),
        bytes_in == ordinal_bytes(ledger, flagged(sel_in@)),
        bytes_in <= budget.0,
        forall|o: int|
            0 <= o < ledger.events.len() && sel_in@[o] ==> in_some_lane(
                lanes@.map_values(|l: Vec<usize>| l@),
                o,
            ),
    ensures
        ({
            let ls = lanes@.map_values(|l: Vec<usize>| l@);
            let f = spill_fold(
                ledger,
                budget.0 as nat,
                (sel_in@, bytes_in as nat, Seq::new(ledger.events.len() as nat, |i: int| false), overflow_in),
                round_robin(ls, max_lane_len(ls, ls.len())),
            );
            &&& r.0@ == f.0 && r.1 == f.1 && r.2 == f.3
            &&& r.0.len() == ledger.events.len()
            &&& r.1 == ordinal_bytes(ledger, flagged(r.0@))
            &&& r.1 <= budget.0
            &&& forall|o: int| 0 <= o < ledger.events.len() && r.0@[o] ==> in_some_lane(ls, o)
        }),
{
    let n = ledger.events.len();
    let ghost ls = lanes@.map_values(|l: Vec<usize>| l@);
    let mut max_len: usize = 0;
    let mut j0: usize = 0;
    while j0 < lanes.len()
        invariant
            j0 <= lanes.len(),
            ls == lanes@.map_values(|l: Vec<usize>| l@),
            max_len == max_lane_len(ls, j0 as nat),
        decreases lanes.len() - j0,
    {
        assert(ls[j0 as int] == lanes@[j0 as int]@);
        if lanes[j0].len() > max_len {
            max_len = lanes[j0].len();
        }
        j0 = j0 + 1;
    }
    let mut seen: Vec<bool> = Vec::new();
    let mut k: usize = 0;
    while k < n
        invariant
            k <= n,
            seen.len() == k,
            forall|q: int| 0 <= q < k ==> !seen@[q],
        decreases n - k,
    {
        seen.push(false);
        k = k + 1;
    }
    let ghost init: SpillState = (sel_in@, bytes_in as nat, seen@, overflow_in);
    proof {
        assert(seen@ =~= Seq::new(n as nat, |i: int| false));
    }
    let mut sel = sel_in;
    let mut bytes = bytes_in;
    let mut overflow = overflow_in;
    let mut p: usize = 0;
    while p < max_len
        invariant
            p <= max_len,
            max_len == max_lane_len(ls, ls.len()),
            n == ledger.events.len(),
            ls == lanes@.map_values(|l: Vec<usize>| l@),
            lanes_below(ls, n as nat),
            sel.len() == n,
            seen.len() == n,
            (sel@, bytes as nat, seen@, overflow) == spill_fold(ledger, budget.0 as nat, init, round_robin(ls, p as nat)),
            bytes == ordinal_bytes(ledger, flagged(sel@)),
            bytes <= budget.0,
            forall|o: int| 0 <= o < n && sel@[o] ==> in_some_lane(ls, o),
        decreases max_len - p,
    {
        let mut j: usize = 0;
        proof {
            assert(round_robin(ls, p as nat) + round_robin_row(ls, p as nat, 0) =~= round_robin(ls, p as nat));
        }
        while j < lanes.len()
            invariant
                p < max_len,
                j <= lanes.len(),
                n == ledger.events.len(),
                ls == lanes@.map_values(|l: Vec<usize>| l@),
                lanes_below(ls, n as nat),
                sel.len() == n,
                seen.len() == n,
                (sel@, bytes as nat, seen@, overflow) == spill_fold(
                    ledger,
                    budget.0 as nat,
                    init,
                    round_robin(ls, p as nat) + round_robin_row(ls, p as nat, j as nat),
                ),
                bytes == ordinal_bytes(ledger, flagged(sel@)),
                bytes <= budget.0,
                forall|o: int| 0 <= o < n && sel@[o] ==> in_some_lane(ls, o),
            decreases lanes.len() - j,
        {
            let ghost done = round_robin(ls, p as nat) + round_robin_row(ls, p as nat, j as nat);
            assert(ls[j as int] == lanes@[j as int]@);
            if p < lanes[j].len() {
                let o = lanes[j][p];
                proof {
                    assert(all_below(ls[j as int], n as nat));
                    assert(round_robin(ls, p as nat) + round_robin_row(ls, p as nat, (j + 1) as nat)
                        =~= done.push(o));
                    assert(done.push(o).drop_last() == done);
                }
                if !overflow && !sel[o] && !seen[o] {
                    seen.set(o, true);
                    match checked_cost_within_budget(bytes, ledger.events[o].raw.len(), budget) {
                        Err(_) => {
                            overflow = true;
                        },
                        Ok(None) => {},
                        Ok(Some(t)) => {
                            proof {
                                lemma_flag_bytes_set(ledger, sel@, o as int);
                            }
                            sel.set(o, true);
                            bytes = t;
                            proof {
                                assert forall|q: int| 0 <= q < n && sel@[q] implies in_some_lane(ls, q) by {
                                    if q == o {
                                        assert(ls[j as int][p as int] == q);
                                    }
                                }
                            }
                        },
                    }
                }
            } else {
                proof {
                    assert(round_robin(ls, p as nat) + round_robin_row(ls, p as nat, (j + 1) as nat)
                        =~= done);
                }
            }
            j = j + 1;
        }
        proof {
            assert(round_robin(ls, (p + 1) as nat) == round_robin(ls, p as nat) + round_robin_row(ls, p as nat, ls.len()));
        }
        p = p + 1;
    }
    (sel, bytes, overflow)
}


/// Fewer set flags, no more flagged positions.
pub proof fn lemma_flagged_subset_len(a: Seq<bool>, b: Seq<bool>)
    requires
        a.len() == b.len(),
        forall|i: int| 0 <= i < a.len() && a[i] ==> b[i],
    ensures
        flagged(a).len() <= flagged(b).len(),
    decreases a.len(),
{
    if a.len() > 0 {
        lemma_flagged_subset_len(a.drop_last(), b.drop_last());
    }
}

/// Independent byte reservations for a four-view deterministic baseline.
#[derive(Clone, Copy, Debug, PartialEq, Eq, Structural)]
pub struct QuotaHybridConfig {
    pub query_bytes: usize,
    pub head_bytes: usize,
    pub tail_bytes: usize,
    pub coverage_bytes: usize,
    pub head_events: usize,
    pub tail_events: usize,
    pub coverage_sentinels: usize,
}

impl QuotaHybridConfig {
    pub fn new(
        query_bytes: usize,
        head_bytes: usize,
        tail_bytes: usize,
        coverage_bytes: usize,
        head_events: usize,
        tail_events: usize,
        coverage_sentinels: usize,
    ) -> (r: Self)
        ensures
            r == (QuotaHybridConfig {
                query_bytes,
                head_bytes,
                tail_bytes,
                coverage_bytes,
                head_events,
                tail_events,
                coverage_sentinels,
            }),
    {
        QuotaHybridConfig {
            query_bytes,
            head_bytes,
            tail_bytes,
            coverage_bytes,
            head_events,
            tail_events,
            coverage_sentinels,
        }
    }

    pub fn query_bytes(self) -> (r: usize)
        ensures
            r == self.query_bytes,
    {
        self.query_bytes
    }

    pub fn head_bytes(self) -> (r: usize)
        ensures
            r == self.head_bytes,
    {
        self.head_bytes
    }

    pub fn tail_bytes(self) -> (r: usize)
        ensures
            r == self.tail_bytes,
    {
        self.tail_bytes
    }

    pub fn coverage_bytes(self) -> (r: usize)
        ensures
            r == self.coverage_bytes,
    {
        self.coverage_bytes
    }

    pub fn head_events(self) -> (r: usize)
        ensures
            r == self.head_events,
    {
        self.head_events
    }

    pub fn tail_events(self) -> (r: usize)
        ensures
            r == self.tail_events,
    {
        self.tail_events
    }

    pub fn coverage_sentinels(self) -> (r: usize)
        ensures
            r == self.coverage_sentinels,
    {
        self.coverage_sentinels
    }

    /// The four reservations added up.
    pub open spec fn spec_reserved(self) -> int {
        self.query_bytes + self.head_bytes + self.tail_bytes + self.coverage_bytes
    }

    pub fn reserved_bytes(self) -> (r: Result<usize, MethodError>)
        ensures
            r is Ok <==> self.spec_reserved() <= usize::MAX,
            r matches Ok(v) ==> v == self.spec_reserved(),
            r matches Err(e) ==> e == MethodError::SourceByteCostOverflow,
    {
        match self.query_bytes.checked_add(self.head_bytes) {
            None => Err(MethodError::SourceByteCostOverflow),
            Some(a) => match a.checked_add(self.tail_bytes) {
                None => Err(MethodError::SourceByteCostOverflow),
                Some(b) => match b.checked_add(self.coverage_bytes) {
                    None => Err(MethodError::SourceByteCostOverflow),
                    Some(c) => Ok(c),
                },
            },
        }
    }
}

/// Query/identifier retrieval with protected head, tail, and coverage quotas.
#[derive(Clone, Copy, Debug, PartialEq, Eq, Structural)]
pub struct QuotaHybrid {
    pub config: QuotaHybridConfig,
}

/// The four lanes: ranked query candidates, head events, tail events newest
/// first, and evenly spaced coverage sentinels.
pub open spec fn hybrid_lanes(query: Seq<u8>, ledger: &EventLedger, config: QuotaHybridConfig) -> Seq<
    Seq<usize>,
> {
    let n = ledger.events.len() as nat;
    seq![
        query_ranking(query, ledger).map_values(|c: QueryCandidate| c.ordinal),
        range_seq(0, spec_min(config.head_events as nat, n)),
        range_seq(sat_sub(n, config.tail_events as nat), n).reverse(),
        spec_evenly_spaced(n, config.coverage_sentinels as nat),
    ]
}

/// The tail lane offers the newest events first: it lists the last
/// `tail_events` positions (all of them when there are fewer), starting at
/// the newest and going down one position at a time.
pub proof fn lemma_hybrid_tail_lane_newest_first(query: Seq<u8>, ledger: &EventLedger, config: QuotaHybridConfig)
    ensures
        ({
            let n = ledger.events.len() as int;
            let tail = hybrid_lanes(query, ledger, config)[2];
            &&& tail.len() == if config.tail_events < n {
                config.tail_events as int
            } else {
                n
            }
            &&& forall|k: int| 0 <= k < tail.len() ==> tail[k] as int == n - 1 - k
        }),
{
}

/// The head lane offers the oldest events first: positions 0, 1, ... up to
/// `head_events` of them (all when there are fewer); the query lane is the
/// query ranking; each lane spends its own quota: query, head, tail, then
/// coverage bytes.
pub proof fn lemma_hybrid_head_lane_oldest_first(query: Seq<u8>, ledger: &EventLedger, config: QuotaHybridConfig)
    ensures
        ({
            let n = ledger.events.len() as int;
            let lanes = hybrid_lanes(query, ledger, config);
            let quotas = hybrid_quotas(config);
            &&& lanes.len() == 4 && quotas.len() == 4
            &&& lanes[1].len() == if config.head_events < n {
                config.head_events as int
            } else {
                n
            }
            &&& forall|k: int| 0 <= k < lanes[1].len() ==> lanes[1][k] as int == k
            &&& lanes[0].len() == query_ranking(query, ledger).len()
            &&& forall|k: int| 0 <= k < lanes[0].len() ==> lanes[0][k] == query_ranking(query, ledger)[k].ordinal
            &&& quotas[0] == config.query_bytes && quotas[1] == config.head_bytes
            &&& quotas[2] == config.tail_bytes && quotas[3] == config.coverage_bytes
        }),
{
}

/// The byte quota of each lane.
pub open spec fn hybrid_quotas(config: QuotaHybridConfig) -> Seq<nat> {
    seq![
        config.query_bytes as nat,
        config.head_bytes as nat,
        config.tail_bytes as nat,
        config.coverage_bytes as nat,
    ]
}

/// The reasons of the event at a position under the quota hybrid.
pub open spec fn hybrid_reasons(
    query: Seq<u8>,
    ledger: &EventLedger,
    config: QuotaHybridConfig,
    o: usize,
) -> Seq<SelectionReason> {
    let n = ledger.events.len() as nat;
    entry_reasons(
        o as nat,
        n,
        spec_min(config.head_events as nat, n),
        sat_sub(n, config.tail_events as nat),
        query_match_at(query, ledger, o as int),
        spec_evenly_spaced(n, config.coverage_sentinels as nat).contains(o),
    )
}

/// Selected flags after both passes of the quota hybrid, and whether a byte
/// sum left `usize`.
pub open spec fn hybrid_selection(query: Seq<u8>, ledger: &EventLedger, config: QuotaHybridConfig, budget: nat) -> (
    Seq<bool>,
    bool,
) {
    let ls = hybrid_lanes(query, ledger, config);
    let p1 = reservation_pass(ledger, budget, ls, hybrid_quotas(config), 4);
    let p2 = spill_fold(
        ledger,
        budget,
        (p1.0, p1.1, Seq::new(ledger.events.len() as nat, |i: int| false), p1.2),
        round_robin(ls, max_lane_len(ls, 4)),
    );
    (p2.0, p2.3)
}

impl QuotaHybrid {
    pub fn new(config: QuotaHybridConfig) -> (r: Self)
        ensures
            r.config == config,
    {
        QuotaHybrid { config }
    }

    pub fn config(self) -> (r: QuotaHybridConfig)
        ensures
            r == self.config,
    {
        self.config
    }

    pub fn descriptor(&self) -> (r: MethodDescriptor)
        ensures
            r.name@ == "quota-hybrid"@,
            r.version@ == "1"@,
    {
        quota_hybrid_descriptor()
    }

    /// Spend each lane's own reservation first, then redistribute the rest of
    /// the budget one candidate per lane per round.
    pub fn run(&self, ledger: &EventLedger, query: &[u8], budget: ByteBudget) -> (r: Result<
        MethodResult,
        MethodError,
    >)
        requires
            ledger.events.len() < 0x8000_0000_0000_0000,
        ensures
            ({
                let n = ledger.events.len() as nat;
                let reserved = self.config.spec_reserved();
                let h = hybrid_selection(query@, ledger, self.config, budget.0 as nat);
                let candidates = flagged(lane_flags(n, hybrid_lanes(query@, ledger, self.config)));
                let selected = flagged(h.0);
                &&& (r matches Err(e) && e == MethodError::ReservedQuotaExceedsBudget) <==> (reserved
                    <= usize::MAX && reserved > budget.0)
                &&& r is Ok <==> (reserved <= budget.0 && !h.1 && ordinal_bytes(ledger, candidates)
                    <= usize::MAX)
                &&& r matches Err(e) ==> (e == MethodError::SourceByteCostOverflow || e
                    == MethodError::ReservedQuotaExceedsBudget)
                &&& r matches Ok(res) ==> built_result(
                    res,
                    res.method,
                    ledger,
                    budget,
                    candidates,
                    (candidates.len() - selected.len()) as nat,
                    selected,
                    selected.map_values(|o: usize| hybrid_reasons(query@, ledger, self.config, o)),
                )
                &&& r matches Ok(res) ==> res.method.name@ == "quota-hybrid"@
                &&& r matches Ok(res) ==> ordinal_bytes(ledger, selected) <= budget.0
                &&& r matches Ok(res) ==> forall|i: int|
                    0 <= i < selected.len() ==> candidates.contains(#[trigger] selected[i])
            }),
    {
        let reserved = match self.config.reserved_bytes() {
            Ok(v) => v,
            Err(e) => {
                return Err(e);
            },
        };
        if reserved > budget.0 {
            return Err(MethodError::ReservedQuotaExceedsBudget);
        }
        let n = ledger.len();
        let head_end = if self.config.head_events < n {
            self.config.head_events
        } else {
            n
        };
        let tail_start = n.saturating_sub(self.config.tail_events);
        let analysis = QueryAnalysis::new(query);
        let ranked = analysis.rank(ledger);
        let qfeat = query_feature_table(&analysis, ledger, &ranked);
        let mut query_ordinals: Vec<usize> = Vec::new();
        let mut i: usize = 0;
        while i < ranked.len()
            invariant
                i <= ranked.len(),
                query_ordinals@ == ranked@.take(i as int).map_values(|c: QueryCandidate| c.ordinal),
            decreases ranked.len() - i,
        {
            query_ordinals.push(ranked[i].ordinal);
            proof {
                assert(ranked@.take(i + 1).map_values(|c: QueryCandidate| c.ordinal)
                    =~= ranked@.take(i as int).map_values(|c: QueryCandidate| c.ordinal).push(
                    ranked@[i as int].ordinal,
                ));
            }
            i = i + 1;
        }
        proof {
            assert(ranked@.take(ranked@.len() as int) == ranked@);
        }
        let head_ordinals = range_vec(0, head_end);
        let mut tail_ordinals: Vec<usize> = Vec::new();
        let mut t = n;
        while t > tail_start
            invariant
                tail_start <= t <= n,
                tail_ordinals@ == range_seq(t as nat, n as nat).reverse(),
            decreases t - tail_start,
        {
            t = t - 1;
            tail_ordinals.push(t);
            proof {
                assert(tail_ordinals@ =~= range_seq(t as nat, n as nat).reverse());
            }
        }
        let coverage_ordinals = evenly_spaced_ordinals(n, self.config.coverage_sentinels);
        let coverage_flags = position_flags(n, &coverage_ordinals);
        let mut lanes: Vec<Vec<usize>> = Vec::new();
        lanes.push(query_ordinals);
        lanes.push(head_ordinals);
        lanes.push(tail_ordinals);
        lanes.push(coverage_ordinals);
        let mut quotas: Vec<usize> = Vec::new();
        quotas.push(self.config.query_bytes);
        quotas.push(self.config.head_bytes);
        quotas.push(self.config.tail_bytes);
        quotas.push(self.config.coverage_bytes);
        let ghost ls = lanes@.map_values(|l: Vec<usize>| l@);
        proof {
            assert(ls =~= hybrid_lanes(query@, ledger, self.config));
            assert(quotas@.map_values(|q: usize| q as nat) =~= hybrid_quotas(self.config));
            assert forall|j: int| 0 <= j < ls.len() implies all_below(#[trigger] ls[j], n as nat) by {
                if j == 0 {
                    assert forall|k: int| 0 <= k < ls[j].len() implies ls[j][k] < n by {
                        assert(ls[j][k] == ranked@[k].ordinal);
                    }
                }
            }
        }
        let cand = lane_flag_vec(n, &lanes);
        let (sel1, bytes1, over1) = reservation(ledger, budget, &lanes, &quotas);
        let (sel, _bytes, overflow) = redistribution(ledger, budget, &lanes, sel1, bytes1, over1);
        if overflow {
            return Err(MethodError::SourceByteCostOverflow);
        }
        let candidates = flagged_positions(&cand);
        let selected = selected_entries(&sel, &qfeat, &coverage_flags, head_end, tail_start);
        proof {
            lemma_flagged(sel@);
            lemma_flagged(cand@);
            lemma_flagged_subset_len(sel@, cand@);
            let fl = flagged(sel@);
            let f1 = |q: usize|
                entry_reasons(
                    q as nat,
                    n as nat,
                    head_end as nat,
                    tail_start as nat,
                    qfeat@[q as int],
                    coverage_flags@[q as int],
                );
            let f2 = |q: usize| hybrid_reasons(query@, ledger, self.config, q);
            assert forall|j: int| 0 <= j < fl.len() implies f1(#[trigger] fl[j]) == f2(fl[j]) by {
                assert(fl[j] < n);
            }
            assert(fl.map_values(f1) =~= fl.map_values(f2));
            let fc = flagged(cand@);
            assert forall|i: int| 0 <= i < fl.len() implies fc.contains(#[trigger] fl[i]) by {
                assert(fl.contains(fl[i]));
                assert(sel@[fl[i] as int]);
                assert(cand@[fl[i] as int]);
            }
        }
        let excluded = candidates.len() - selected.len();
        build_result(self.descriptor(), ledger, budget, &candidates, excluded, selected)
    }
}

} // verus!
