//! Byte-level lexical helpers shared by the query-term baselines: ASCII byte
//! classes, case folding, whitespace trimming, tokenization and literal,
//! case-insensitive substring search. Nothing here decodes text.

use vstd::prelude::*;

verus! {

pub open spec fn spec_is_digit(b: u8) -> bool {
    0x30 <= b <= 0x39
}

pub open spec fn spec_is_upper(b: u8) -> bool {
    0x41 <= b <= 0x5a
}

pub open spec fn spec_is_lower(b: u8) -> bool {
    0x61 <= b <= 0x7a
}

pub open spec fn spec_is_alphabetic(b: u8) -> bool {
    spec_is_upper(b) || spec_is_lower(b)
}

pub open spec fn spec_is_alphanumeric(b: u8) -> bool {
    spec_is_digit(b) || spec_is_alphabetic(b)
}

/// An identifier connector: `_`, `-`, `.`, `/` or `:`.
pub open spec fn spec_is_connector(b: u8) -> bool {
    b == 0x5f || b == 0x2d || b == 0x2e || b == 0x2f || b == 0x3a
}

/// A byte that belongs to a query term: ASCII alphanumeric or a connector.
pub open spec fn spec_is_term_byte(b: u8) -> bool {
    spec_is_alphanumeric(b) || spec_is_connector(b)
}

/// ASCII whitespace as std defines it: tab, line feed, form feed, carriage
/// return and space.
pub open spec fn spec_is_whitespace(b: u8) -> bool {
    b == 0x09 || b == 0x0a || b == 0x0c || b == 0x0d || b == 0x20
}

pub open spec fn spec_lower(b: u8) -> u8 {
    if spec_is_upper(b) {
        (b + 32) as u8
    } else {
        b
    }
}

pub open spec fn spec_lower_seq(s: Seq<u8>) -> Seq<u8> {
    s.map_values(|b: u8| spec_lower(b))
}

pub fn is_digit(b: u8) -> (r: bool)
    returns
        spec_is_digit(b),
{
    0x30 <= b && b <= 0x39
}

pub fn is_upper(b: u8) -> (r: bool)
    returns
        spec_is_upper(b),
{
    0x41 <= b && b <= 0x5a
}

pub fn is_alphabetic(b: u8) -> (r: bool)
    returns
        spec_is_alphabetic(b),
{
    (0x41 <= b && b <= 0x5a) || (0x61 <= b && b <= 0x7a)
}

pub fn is_connector(b: u8) -> (r: bool)
    returns
        spec_is_connector(b),
{
    b == 0x5f || b == 0x2d || b == 0x2e || b == 0x2f || b == 0x3a
}

pub fn is_term_byte(b: u8) -> (r: bool)
    returns
        spec_is_term_byte(b),
{
    is_digit(b) || is_alphabetic(b) || is_connector(b)
}

pub fn is_whitespace(b: u8) -> (r: bool)
    returns
        spec_is_whitespace(b),
{
    b == 0x09 || b == 0x0a || b == 0x0c || b == 0x0d || b == 0x20
}

pub fn lower(b: u8) -> (r: u8)
    returns
        spec_lower(b),
{
    if 0x41 <= b && b <= 0x5a {
        b + 32
    } else {
        b
    }
}

/// ASCII lowercase of a byte string; other bytes are unchanged.
pub fn ascii_lowercase(term: &[u8]) -> (r: Vec<u8>)
    ensures
        r@ == spec_lower_seq(term@),
{
    let mut out: Vec<u8> = Vec::new();
    let mut i: usize = 0;
    while i < term.len()
        invariant
            i <= term.len(),
            out@ == spec_lower_seq(term@.take(i as int)),
        decreases term.len() - i,
    {
        out.push(lower(term[i]));
        proof {
            assert(spec_lower_seq(term@.take(i + 1)) =~= spec_lower_seq(term@.take(i as int)).push(
                spec_lower(term@[i as int]),
            ));
        }
        i = i + 1;
    }
    proof {
        assert(term@.take(term@.len() as int) == term@);
    }
    out
}

/// Number of leading term bytes.
pub open spec fn term_run_len(s: Seq<u8>) -> nat
    decreases s.len(),
{
    if s.len() == 0 || !spec_is_term_byte(s[0]) {
        0
    } else {
        1 + term_run_len(s.drop_first())
    }
}

/// The maximal runs of term bytes, in order.
pub open spec fn spec_tokens(s: Seq<u8>) -> Seq<Seq<u8>>
    decreases s.len(),
{
    if s.len() == 0 {
        Seq::empty()
    } else if !spec_is_term_byte(s[0]) {
        spec_tokens(s.drop_first())
    } else {
        let n = term_run_len(s);
        proof {
            lemma_term_run_len_bounded(s);
        }
        seq![s.take(n as int)] + spec_tokens(s.skip(n as int))
    }
}

pub proof fn lemma_term_run_len_bounded(s: Seq<u8>)
    ensures
        term_run_len(s) <= s.len(),
        forall|i: int| 0 <= i < term_run_len(s) ==> spec_is_term_byte(s[i]),
    decreases s.len(),
{
    if s.len() > 0 && spec_is_term_byte(s[0]) {
        lemma_term_run_len_bounded(s.drop_first());
        assert forall|i: int| 0 <= i < term_run_len(s) implies spec_is_term_byte(s[i]) by {
            if i > 0 {
                assert(s.drop_first()[i - 1] == s[i]);
            }
        }
    }
}

proof fn lemma_term_run_len_exact(s: Seq<u8>, k: int)
    requires
        0 <= k <= s.len(),
        forall|i: int| 0 <= i < k ==> spec_is_term_byte(s[i]),
        k == s.len() || !spec_is_term_byte(s[k]),
    ensures
        term_run_len(s) == k,
    decreases k,
{
    if k > 0 {
        let t = s.drop_first();
        assert forall|i: int| 0 <= i < k - 1 implies spec_is_term_byte(t[i]) by {
            assert(t[i] == s[i + 1]);
        }
        if k < s.len() {
            assert(t[k - 1] == s[k]);
        }
        lemma_term_run_len_exact(t, k - 1);
    }
}

/// Split bytes into maximal runs of term bytes.
pub fn ascii_tokens(input: &[u8]) -> (r: Vec<Vec<u8>>)
    ensures
        r@.map_values(|t: Vec<u8>| t@) == spec_tokens(input@),
{
    let mut tokens: Vec<Vec<u8>> = Vec::new();
    let mut i: usize = 0;
    let n = input.len();
    proof {
        assert(input@.skip(0) == input@);
        assert(tokens@.map_values(|t: Vec<u8>| t@) + spec_tokens(input@) =~= spec_tokens(input@));
    }
    while i < n
        invariant
            n == input.len(),
            i <= n,
            tokens@.map_values(|t: Vec<u8>| t@) + spec_tokens(input@.skip(i as int)) == spec_tokens(
                input@,
            ),
        decreases n - i,
    {
        if !is_term_byte(input[i]) {
            proof {
                assert(input@.skip(i as int).drop_first() == input@.skip(i + 1));
            }
            i = i + 1;
        } else {
            let start = i;
            let mut end = i;
            while end < n && is_term_byte(input[end])
                invariant
                    n == input.len(),
                    start <= end <= n,
                    forall|j: int| start <= j < end ==> spec_is_term_byte(input@[j]),
                decreases n - end,
            {
                end = end + 1;
            }
            let mut token: Vec<u8> = Vec::new();
            let mut j = start;
            while j < end
                invariant
                    start <= j <= end <= n,
                    n == input.len(),
                    token@ == input@.subrange(start as int, j as int),
                decreases end - j,
            {
                token.push(input[j]);
                proof {
                    assert(input@.subrange(start as int, j + 1) == input@.subrange(
                        start as int,
                        j as int,
                    ).push(input@[j as int]));
                }
                j = j + 1;
            }
            proof {
                let rest = input@.skip(start as int);
                let k = end - start;
                assert forall|q: int| 0 <= q < k implies spec_is_term_byte(rest[q]) by {
                    assert(rest[q] == input@[start + q]);
                }
                if end < n {
                    assert(rest[k] == input@[end as int]);
                }
                lemma_term_run_len_exact(rest, k);
                assert(rest.take(k) == input@.subrange(start as int, end as int));
                assert(rest.skip(k) == input@.skip(end as int));
                assert(spec_tokens(rest) == seq![rest.take(k)] + spec_tokens(rest.skip(k)));
                let old_tokens = tokens@.map_values(|t: Vec<u8>| t@);
                assert(tokens@.push(token).map_values(|t: Vec<u8>| t@) == old_tokens.push(token@));
                assert(old_tokens.push(token@) + spec_tokens(input@.skip(end as int)) =~= old_tokens
                    + (seq![rest.take(k)] + spec_tokens(rest.skip(k))));
            }
            tokens.push(token);
            i = end;
        }
    }
    proof {
        assert(input@.skip(n as int) =~= Seq::<u8>::empty());
        assert(spec_tokens(Seq::<u8>::empty()) == Seq::<Seq<u8>>::empty());
        assert(tokens@.map_values(|t: Vec<u8>| t@) + Seq::<Seq<u8>>::empty() =~= tokens@.map_values(
            |t: Vec<u8>| t@,
        ));
    }
    tokens
}

/// Number of leading whitespace bytes.
pub open spec fn leading_ws(s: Seq<u8>) -> nat
    decreases s.len(),
{
    if s.len() == 0 || !spec_is_whitespace(s[0]) {
        0
    } else {
        1 + leading_ws(s.drop_first())
    }
}

/// Number of trailing whitespace bytes.
pub open spec fn trailing_ws(s: Seq<u8>) -> nat
    decreases s.len(),
{
    if s.len() == 0 || !spec_is_whitespace(s.last()) {
        0
    } else {
        1 + trailing_ws(s.drop_last())
    }
}

/// Bytes with leading, then trailing, ASCII whitespace removed.
pub open spec fn spec_trim(s: Seq<u8>) -> Seq<u8> {
    let t = s.skip(leading_ws(s) as int);
    t.take(t.len() - trailing_ws(t))
}

proof fn lemma_leading_ws(s: Seq<u8>, k: int)
    requires
        0 <= k <= s.len(),
        forall|i: int| 0 <= i < k ==> spec_is_whitespace(s[i]),
        k == s.len() || !spec_is_whitespace(s[k]),
    ensures
        leading_ws(s) == k,
    decreases k,
{
    if k > 0 {
        let t = s.drop_first();
        assert forall|i: int| 0 <= i < k - 1 implies spec_is_whitespace(t[i]) by {
            assert(t[i] == s[i + 1]);
        }
        if k < s.len() {
            assert(t[k - 1] == s[k]);
        }
        lemma_leading_ws(t, k - 1);
    }
}

proof fn lemma_trailing_ws(s: Seq<u8>, k: int)
    requires
        0 <= k <= s.len(),
        forall|i: int| s.len() - k <= i < s.len() ==> spec_is_whitespace(s[i]),
        k == s.len() || !spec_is_whitespace(s[s.len() - k - 1]),
    ensures
        trailing_ws(s) == k,
    decreases k,
{
    if k > 0 {
        let t = s.drop_last();
        assert forall|i: int| t.len() - (k - 1) <= i < t.len() implies spec_is_whitespace(t[i]) by {
            assert(t[i] == s[i]);
        }
        if k < s.len() {
            assert(t[t.len() - (k - 1) - 1] == s[s.len() - k - 1]);
        }
        lemma_trailing_ws(t, k - 1);
    }
}

/// Copy of the bytes with ASCII whitespace trimmed from both ends.
pub fn trim_ascii_whitespace(bytes: &[u8]) -> (r: Vec<u8>)
    ensures
        r@ == spec_trim(bytes@),
{
    let n = bytes.len();
    let mut start: usize = 0;
    while start < n && is_whitespace(bytes[start])
        invariant
            start <= n == bytes.len(),
            forall|i: int| 0 <= i < start ==> spec_is_whitespace(bytes@[i]),
        decreases n - start,
    {
        start = start + 1;
    }
    let mut end: usize = n;
    while end > start && is_whitespace(bytes[end - 1])
        invariant
            start <= end <= n == bytes.len(),
            forall|i: int| end <= i < n ==> spec_is_whitespace(bytes@[i]),
        decreases end - start,
    {
        end = end - 1;
    }
    let mut out: Vec<u8> = Vec::new();
    let mut j = start;
    while j < end
        invariant
            start <= j <= end <= n == bytes.len(),
            out@ == bytes@.subrange(start as int, j as int),
        decreases end - j,
    {
        out.push(bytes[j]);
        proof {
            assert(bytes@.subrange(start as int, j + 1) == bytes@.subrange(start as int, j as int).push(
                bytes@[j as int],
            ));
        }
        j = j + 1;
    }
    proof {
        lemma_leading_ws(bytes@, start as int);
        let t = bytes@.skip(start as int);
        let k = n - end;
        assert forall|i: int| t.len() - k <= i < t.len() implies spec_is_whitespace(t[i]) by {
            assert(t[i] == bytes@[start + i]);
        }
        if k < t.len() {
            assert(t[t.len() - k - 1] == bytes@[end - 1]);
        }
        lemma_trailing_ws(t, k);
        assert(t.take(t.len() - k) =~= bytes@.subrange(start as int, end as int));
    }
    out
}

/// Bytes equal up to ASCII case.
pub open spec fn eq_ignore_case(a: u8, b: u8) -> bool {
    spec_lower(a) == spec_lower(b)
}

/// The needle matches the haystack at position `p`, up to ASCII case.
pub open spec fn matches_at(haystack: Seq<u8>, needle: Seq<u8>, p: int) -> bool {
    &&& 0 <= p
    &&& p + needle.len() <= haystack.len()
    &&& forall|k: int| 0 <= k < needle.len() ==> eq_ignore_case(haystack[p + k], needle[k])
}

/// A non-empty needle occurs somewhere in the haystack, up to ASCII case.
pub open spec fn spec_contains_ignore_case(haystack: Seq<u8>, needle: Seq<u8>) -> bool {
    needle.len() > 0 && exists|p: int| matches_at(haystack, needle, p)
}

/// Literal byte search, case-insensitive for ASCII letters only.
pub fn contains_ascii_case_insensitive(haystack: &[u8], needle: &[u8]) -> (r: bool)
    ensures
        r == spec_contains_ignore_case(haystack@, needle@),
{
    if needle.len() == 0 || needle.len() > haystack.len() {
        return false;
    }
    let last = haystack.len() - needle.len();
    let mut p: usize = 0;
    while p <= last
        invariant
            last == haystack.len() - needle.len(),
            needle.len() <= haystack.len(),
            needle.len() > 0,
            p <= last + 1,
            forall|q: int| 0 <= q < p ==> !matches_at(haystack@, needle@, q),
        decreases last + 1 - p,
    {
        let mut k: usize = 0;
        let mut ok = true;
        while k < needle.len()
            invariant
                p <= last,
                needle.len() <= haystack.len(),
                needle.len() > 0,
                last == haystack.len() - needle.len(),
                k <= needle.len(),
                ok == (forall|m: int|
                    0 <= m < k ==> eq_ignore_case(haystack@[p + m], needle@[m])),
            decreases needle.len() - k,
        {
            if lower(haystack[p + k]) != lower(needle[k]) {
                ok = false;
            }
            k = k + 1;
        }
        if ok {
            proof {
                assert forall|m: int| 0 <= m < needle@.len() implies eq_ignore_case(
                    haystack@[p + m],
                    needle@[m],
                ) by {}
                assert(matches_at(haystack@, needle@, p as int));
                assert(needle@.len() > 0);
            }
            return true;
        }
        p = p + 1;
    }
    proof {
        assert forall|q: int| !matches_at(haystack@, needle@, q) by {
            if 0 <= q && q + needle@.len() <= haystack@.len() {
                assert(q < p);
            }
        }
    }
    false
}

} // verus!
