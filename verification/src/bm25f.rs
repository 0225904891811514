//! Frozen, annotation-free whole-event lexical baseline.
//!
//! A BM25F-style fixed-point comparator over two fields derived from each
//! event's authorized bytes: the body field holds every bounded ASCII token,
//! the identifier field the tokens that hold a digit or an identifier
//! connector. Events with a positive score are ranked by score (descending),
//! then source ordinal (ascending), and offered whole to the byte budget in
//! that order.

use vstd::prelude::*;
use vstd::utf8::encode_utf8;

use crate::baselines::{bytes_eq, greedy, greedy_select, priority_flags};
use crate::digest::ArtifactDigest;
use crate::hermetic_governance::{be_framed, push_be_field};
use crate::ledger::{EventId, EventLedger, LedgerEvent};
use crate::lexical::{is_alphabetic, is_digit, lower, spec_is_alphanumeric, spec_is_digit, spec_lower};
use crate::method::{
    build_result, built_result, flagged, flagged_positions, lemma_flagged, ordinal_bytes, ByteBudget,
    MethodDescriptor, MethodError, MethodResult, SelectionReason,
};
use crate::sha256::{push_bytes, push_u64_be, sha256, sha256_spec, u64_be};

verus! {

pub const BM25F_SCORE_SCALE_V1: u64 = 1_000_000;
pub const BM25F_K1_SCALED_V1: u64 = 1_200_000;
pub const BM25F_BODY_B_SCALED_V1: u64 = 750_000;
pub const BM25F_IDENTIFIER_B_SCALED_V1: u64 = 250_000;
pub const BM25F_BODY_WEIGHT_SCALED_V1: u64 = 1_000_000;
pub const BM25F_IDENTIFIER_WEIGHT_SCALED_V1: u64 = 2_000_000;
pub const BM25F_MAX_QUERY_BYTES_V1: usize = 16384;
pub const BM25F_MAX_EVENT_BYTES_V1: usize = 1048576;
pub const BM25F_MAX_QUERY_TOKENS_V1: usize = 128;
pub const BM25F_MAX_EVENT_TOKENS_V1: usize = 8192;
pub const BM25F_MAX_TOKEN_BYTES_V1: usize = 64;

pub const BM25F_CONFIG_DOMAIN_V1: &'static str = "evidentrail/bench/bm25f-whole-event/config/v1\0";
pub const BM25F_TOKENIZER_CONTRACT_V1: &'static str =
    "ascii-lower-alnum-underscore-dot-hyphen/non-ascii-separator/drop-overlong/v1";
pub const BM25F_SCORING_CONTRACT_V1: &'static str =
    "unique-query-terms/idf-rational/body+identifier-field/fixed-point-k1-b-length-normalization/v1";
pub const BM25F_FIELD_CONTRACT_V1: &'static str =
    "body=all-tokens/identifier=token-has-digit-or-underscore-dot-hyphen/v1";
pub const BM25F_TIE_CONTRACT_V1: &'static str = "score-desc/source-ordinal-asc/v1";
pub const BM25F_BUDGET_CONTRACT_V1: &'static str =
    "positive-score-candidates/whole-event/skip-oversized/restore-source-order/v1";
pub const BM25F_METHOD_NAME_V1: &'static str = "bm25f-whole-event";
pub const BM25F_METHOD_VERSION_V1: &'static str = "1";

/// One contentless scoring failure.
#[derive(Clone, Copy, Debug, PartialEq, Eq, Structural)]
pub enum Bm25fErrorV1 {
    QueryByteBoundExceeded,
    EventByteBoundExceeded,
    QueryTokenBoundExceeded,
    EventTokenBoundExceeded,
    ArithmeticOverflow,
}

impl Bm25fErrorV1 {
    pub open spec fn spec_code(self) -> Seq<char> {
        match self {
            Bm25fErrorV1::QueryByteBoundExceeded => "EVIDENTRAIL_BENCH_BM25F_QUERY_BYTE_BOUND"@,
            Bm25fErrorV1::EventByteBoundExceeded => "EVIDENTRAIL_BENCH_BM25F_EVENT_BYTE_BOUND"@,
            Bm25fErrorV1::QueryTokenBoundExceeded => "EVIDENTRAIL_BENCH_BM25F_QUERY_TOKEN_BOUND"@,
            Bm25fErrorV1::EventTokenBoundExceeded => "EVIDENTRAIL_BENCH_BM25F_EVENT_TOKEN_BOUND"@,
            Bm25fErrorV1::ArithmeticOverflow => "EVIDENTRAIL_BENCH_BM25F_ARITHMETIC"@,
        }
    }

    pub fn code(self) -> (r: &'static str)
        ensures
            r@ == self.spec_code(),
    {
        match self {
            Bm25fErrorV1::QueryByteBoundExceeded => "EVIDENTRAIL_BENCH_BM25F_QUERY_BYTE_BOUND",
            Bm25fErrorV1::EventByteBoundExceeded => "EVIDENTRAIL_BENCH_BM25F_EVENT_BYTE_BOUND",
            Bm25fErrorV1::QueryTokenBoundExceeded => "EVIDENTRAIL_BENCH_BM25F_QUERY_TOKEN_BOUND",
            Bm25fErrorV1::EventTokenBoundExceeded => "EVIDENTRAIL_BENCH_BM25F_EVENT_TOKEN_BOUND",
            Bm25fErrorV1::ArithmeticOverflow => "EVIDENTRAIL_BENCH_BM25F_ARITHMETIC",
        }
    }
}

// ---------------------------------------------------------------------------
// Tokenizer
// ---------------------------------------------------------------------------

/// A token byte: ASCII alphanumeric, `_`, `-` or `.`. Every other byte,
/// non-ASCII bytes included, separates tokens.
pub open spec fn spec_token_byte(b: u8) -> bool {
    spec_is_alphanumeric(b) || b == 0x5f || b == 0x2d || b == 0x2e
}

/// An identifier byte: a digit, `_`, `-` or `.`.
pub open spec fn spec_identifier_byte(b: u8) -> bool {
    spec_is_digit(b) || b == 0x5f || b == 0x2d || b == 0x2e
}

/// A token belongs to the identifier field when it holds an identifier byte.
pub open spec fn spec_identifier_token(t: Seq<u8>) -> bool {
    exists|i: int| 0 <= i < t.len() && spec_identifier_byte(#[trigger] t[i])
}

/// Left-to-right scan: the tokens finished so far and the current run of
/// token bytes, lowercased. A separator ends the run; the run becomes a token
/// when it is non-empty and no longer than the token bound.
pub open spec fn token_scan(bytes: Seq<u8>) -> (Seq<Seq<u8>>, Seq<u8>)
    decreases bytes.len(),
{
    if bytes.len() == 0 {
        (Seq::empty(), Seq::empty())
    } else {
        let prev = token_scan(bytes.drop_last());
        let b = bytes.last();
        if spec_token_byte(b) {
            (prev.0, prev.1.push(spec_lower(b)))
        } else if 0 < prev.1.len() <= BM25F_MAX_TOKEN_BYTES_V1 {
            (prev.0.push(prev.1), Seq::empty())
        } else {
            (prev.0, Seq::empty())
        }
    }
}

/// The tokens of a byte string: its maximal runs of token bytes, lowercased,
/// in order, without the runs longer than the token bound.
pub open spec fn spec_tokens(bytes: Seq<u8>) -> Seq<Seq<u8>> {
    token_scan(bytes.push(0x20u8)).0
}

/// Tokenize under a byte bound and a token bound: the byte bound is checked
/// first, then the token count.
pub open spec fn spec_tokenize(bytes: Seq<u8>, max_bytes: nat, max_tokens: nat, query: bool) -> Result<
    Seq<Seq<u8>>,
    Bm25fErrorV1,
> {
    if bytes.len() > max_bytes {
        Err(
            if query {
                Bm25fErrorV1::QueryByteBoundExceeded
            } else {
                Bm25fErrorV1::EventByteBoundExceeded
            },
        )
    } else if spec_tokens(bytes).len() > max_tokens {
        Err(
            if query {
                Bm25fErrorV1::QueryTokenBoundExceeded
            } else {
                Bm25fErrorV1::EventTokenBoundExceeded
            },
        )
    } else {
        Ok(spec_tokens(bytes))
    }
}

/// The byte strings held by a list of vectors.
pub open spec fn byte_views(v: Seq<Vec<u8>>) -> Seq<Seq<u8>> {
    v.map_values(|t: Vec<u8>| t@)
}

/// The scan finishes at least as many tokens over a longer prefix.
proof fn lemma_scan_grows(s: Seq<u8>, i: int, j: int)
    requires
        0 <= i <= j <= s.len(),
    ensures
        token_scan(s.take(i)).0.len() <= token_scan(s.take(j)).0.len(),
    decreases j - i,
{
    if i < j {
        lemma_scan_grows(s, i, j - 1);
        assert(s.take(j).drop_last() =~= s.take(j - 1));
    }
}

/// The exec scan state stands for the scan of `s`: finished tokens, the run
/// (kept only up to the token bound) and whether the run is over the bound.
spec fn scan_state(tokens: Seq<Vec<u8>>, current: Seq<u8>, overlong: bool, s: Seq<u8>) -> bool {
    let st = token_scan(s);
    &&& byte_views(tokens) == st.0
    &&& overlong == (st.1.len() > BM25F_MAX_TOKEN_BYTES_V1)
    &&& (!overlong ==> current == st.1)
    &&& current.len() <= BM25F_MAX_TOKEN_BYTES_V1
}

fn is_token_byte(b: u8) -> (r: bool)
    ensures
        r == spec_token_byte(b),
{
    is_digit(b) || is_alphabetic(b) || b == 0x5f || b == 0x2d || b == 0x2e
}

/// Feed one byte to the scan; `false` when a token would pass the token bound.
fn scan_byte(
    tokens: &mut Vec<Vec<u8>>,
    current: &mut Vec<u8>,
    overlong: &mut bool,
    byte: u8,
    max_tokens: usize,
    Ghost(s): Ghost<Seq<u8>>,
) -> (ok: bool)
    requires
        scan_state(old(tokens)@, old(current)@, *old(overlong), s),
        old(tokens).len() <= max_tokens,
    ensures
        ok ==> scan_state(final(tokens)@, final(current)@, *final(overlong), s.push(byte)),
        ok ==> final(tokens).len() <= max_tokens,
        !ok ==> token_scan(s.push(byte)).0.len() > max_tokens,
{
    let ghost st = token_scan(s);
    proof {
        assert(s.push(byte).drop_last() =~= s);
    }
    if is_token_byte(byte) {
        if current.len() < BM25F_MAX_TOKEN_BYTES_V1 {
            current.push(lower(byte));
        } else {
            *overlong = true;
        }
        true
    } else {
        if current.len() > 0 && !*overlong {
            if tokens.len() == max_tokens {
                return false;
            }
            let mut token: Vec<u8> = Vec::new();
            std::mem::swap(&mut token, current);
            tokens.push(token);
            proof {
                assert(byte_views(tokens@) =~= st.0.push(st.1));
            }
        } else {
            current.clear();
        }
        *overlong = false;
        proof {
            assert(current@ =~= Seq::<u8>::empty());
        }
        true
    }
}

/// Split bytes into bounded lowercase ASCII tokens.
pub fn tokenize(input: &[u8], max_input_bytes: usize, max_tokens: usize, query: bool) -> (r: Result<
    Vec<Vec<u8>>,
    Bm25fErrorV1,
>)
    ensures
        match r {
            Ok(tokens) => spec_tokenize(input@, max_input_bytes as nat, max_tokens as nat, query)
                == Ok::<Seq<Seq<u8>>, Bm25fErrorV1>(byte_views(tokens@)),
            Err(e) => spec_tokenize(input@, max_input_bytes as nat, max_tokens as nat, query)
                == Err::<Seq<Seq<u8>>, Bm25fErrorV1>(e),
        },
{
    if input.len() > max_input_bytes {
        return Err(
            if query {
                Bm25fErrorV1::QueryByteBoundExceeded
            } else {
                Bm25fErrorV1::EventByteBoundExceeded
            },
        );
    }
    let ghost ext = input@.push(0x20u8);
    let mut tokens: Vec<Vec<u8>> = Vec::new();
    let mut current: Vec<u8> = Vec::new();
    let mut overlong = false;
    proof {
        assert(ext.take(0) =~= Seq::<u8>::empty());
        assert(byte_views(tokens@) =~= Seq::<Seq<u8>>::empty());
    }
    let mut i: usize = 0;
    while i < input.len()
        invariant
            i <= input.len() <= max_input_bytes,
            ext == input@.push(0x20u8),
            scan_state(tokens@, current@, overlong, ext.take(i as int)),
            tokens.len() <= max_tokens,
        decreases input.len() - i,
    {
        proof {
            assert(ext.take(i + 1) =~= ext.take(i as int).push(input@[i as int]));
        }
        if !scan_byte(&mut tokens, &mut current, &mut overlong, input[i], max_tokens, Ghost(ext.take(i as int))) {
            proof {
                lemma_scan_grows(ext, i + 1, ext.len() as int);
                assert(ext.take(ext.len() as int) =~= ext);
                assert(spec_tokens(input@).len() > max_tokens);
            }
            return Err(
                if query {
                    Bm25fErrorV1::QueryTokenBoundExceeded
                } else {
                    Bm25fErrorV1::EventTokenBoundExceeded
                },
            );
        }
        i = i + 1;
    }
    proof {
        assert(ext =~= ext.take(i as int).push(0x20u8));
    }
    if !scan_byte(&mut tokens, &mut current, &mut overlong, 0x20u8, max_tokens, Ghost(ext.take(i as int))) {
        return Err(
            if query {
                Bm25fErrorV1::QueryTokenBoundExceeded
            } else {
                Bm25fErrorV1::EventTokenBoundExceeded
            },
        );
    }
    Ok(tokens)
}

// ---------------------------------------------------------------------------
// Fields and fixed-point scoring
// ---------------------------------------------------------------------------

/// How often a term occurs among tokens.
pub open spec fn term_count(tokens: Seq<Seq<u8>>, term: Seq<u8>) -> nat
    decreases tokens.len(),
{
    if tokens.len() == 0 {
        0
    } else {
        term_count(tokens.drop_last(), term) + (if tokens.last() == term {
            1nat
        } else {
            0nat
        })
    }
}

/// How many tokens belong to the identifier field.
pub open spec fn identifier_count(tokens: Seq<Seq<u8>>) -> nat
    decreases tokens.len(),
{
    if tokens.len() == 0 {
        0
    } else {
        identifier_count(tokens.drop_last()) + (if spec_identifier_token(tokens.last()) {
            1nat
        } else {
            0nat
        })
    }
}

/// Identifier-field frequency of a term: its token count when the term is an
/// identifier token, else zero.
pub open spec fn identifier_tf(tokens: Seq<Seq<u8>>, term: Seq<u8>) -> nat {
    if spec_identifier_token(term) {
        term_count(tokens, term)
    } else {
        0
    }
}

/// How many documents hold a term in either field.
pub open spec fn document_frequency(docs: Seq<Seq<Seq<u8>>>, term: Seq<u8>) -> nat
    decreases docs.len(),
{
    if docs.len() == 0 {
        0
    } else {
        document_frequency(docs.drop_last(), term) + (if term_count(docs.last(), term) > 0 {
            1nat
        } else {
            0nat
        })
    }
}

/// Body-field length summed over documents.
pub open spec fn total_body_len(docs: Seq<Seq<Seq<u8>>>) -> nat
    decreases docs.len(),
{
    if docs.len() == 0 {
        0
    } else {
        total_body_len(docs.drop_last()) + docs.last().len()
    }
}

/// Identifier-field length summed over documents.
pub open spec fn total_identifier_len(docs: Seq<Seq<Seq<u8>>>) -> nat
    decreases docs.len(),
{
    if docs.len() == 0 {
        0
    } else {
        total_identifier_len(docs.drop_last()) + identifier_count(docs.last())
    }
}

/// Query tokens with repeats removed, each kept at its first occurrence.
pub open spec fn unique_terms(tokens: Seq<Seq<u8>>) -> Seq<Seq<u8>>
    decreases tokens.len(),
{
    if tokens.len() == 0 {
        Seq::empty()
    } else {
        let prev = unique_terms(tokens.drop_last());
        if prev.contains(tokens.last()) {
            prev
        } else {
            prev.push(tokens.last())
        }
    }
}

/// `a * b / d`, rounded down; `None` for a zero denominator or a quotient
/// that is not a `u64`.
pub open spec fn mul_div(a: int, b: int, d: int) -> Option<int> {
    if d == 0 || a * b / d < 0 || a * b / d > u64::MAX {
        None
    } else {
        Some(a * b / d)
    }
}

/// `a * b * c / d`, rounded down; `None` for a zero denominator, a product
/// past `u128` or a quotient that is not a `u64`.
pub open spec fn mul3_div(a: int, b: int, c: int, d: int) -> Option<int> {
    if d == 0 || a * b * c > u128::MAX || a * b * c / d < 0 || a * b * c / d > u64::MAX {
        None
    } else {
        Some(a * b * c / d)
    }
}

/// Weighted, length-normalized frequency of one field, scaled:
/// `tf * w * S / (S - b + b * len * N / total)`, with the length part zero
/// for an empty field over all documents.
pub open spec fn weighted_tf(tf: int, doc_len: int, total_len: int, docs: int, b: int, w: int) -> Option<int> {
    if tf == 0 {
        Some(0)
    } else {
        let length = if total_len == 0 {
            Some(0int)
        } else {
            mul3_div(b, doc_len, docs, total_len)
        };
        match length {
            None => None,
            Some(l) => if b > BM25F_SCORE_SCALE_V1 || BM25F_SCORE_SCALE_V1 - b + l > u64::MAX {
                None
            } else {
                mul3_div(tf, w, BM25F_SCORE_SCALE_V1 as int, BM25F_SCORE_SCALE_V1 - b + l)
            },
        }
    }
}

/// Frequency saturation, scaled: `wtf * (k1 + S) / (wtf + k1)`.
pub open spec fn saturation(wtf: int) -> Option<int> {
    if wtf + BM25F_K1_SCALED_V1 > u64::MAX {
        None
    } else {
        mul_div(wtf, BM25F_K1_SCALED_V1 + BM25F_SCORE_SCALE_V1, wtf + BM25F_K1_SCALED_V1)
    }
}

/// Inverse document frequency, scaled: `S + (N - df) * S / (df + 1)`.
pub open spec fn scaled_idf(docs: int, df: int) -> Option<int> {
    if df > docs || df + 1 > u64::MAX {
        None
    } else {
        match mul_div(docs - df, BM25F_SCORE_SCALE_V1 as int, df + 1) {
            None => None,
            Some(p) => if BM25F_SCORE_SCALE_V1 + p > u64::MAX {
                None
            } else {
                Some(BM25F_SCORE_SCALE_V1 + p)
            },
        }
    }
}

/// One matched term's contribution from its field frequencies, the
/// document's field lengths, the corpus field totals, the document count and
/// the term's document frequency: `idf * saturation(body + identifier) / S`.
pub open spec fn contribution_from(
    body_tf: int,
    identifier_tf: int,
    body_len: int,
    identifier_len: int,
    total_body: int,
    total_identifier: int,
    docs: int,
    df: int,
) -> Option<int> {
    let body = weighted_tf(
        body_tf,
        body_len,
        total_body,
        docs,
        BM25F_BODY_B_SCALED_V1 as int,
        BM25F_BODY_WEIGHT_SCALED_V1 as int,
    );
    let ident = weighted_tf(
        identifier_tf,
        identifier_len,
        total_identifier,
        docs,
        BM25F_IDENTIFIER_B_SCALED_V1 as int,
        BM25F_IDENTIFIER_WEIGHT_SCALED_V1 as int,
    );
    match (body, ident) {
        (Some(bw), Some(iw)) => if bw + iw > u64::MAX {
            None
        } else {
            match (saturation(bw + iw), scaled_idf(docs, df)) {
                (Some(sat), Some(idf)) => mul_div(idf, sat, BM25F_SCORE_SCALE_V1 as int),
                _ => None,
            }
        },
        _ => None,
    }
}

/// A term's contribution to one document's score, over a corpus.
pub open spec fn term_contribution(doc: Seq<Seq<u8>>, docs: Seq<Seq<Seq<u8>>>, term: Seq<u8>) -> Option<int> {
    contribution_from(
        term_count(doc, term) as int,
        identifier_tf(doc, term) as int,
        doc.len() as int,
        identifier_count(doc) as int,
        total_body_len(docs) as int,
        total_identifier_len(docs) as int,
        docs.len() as int,
        document_frequency(docs, term) as int,
    )
}

/// A document's score and matched-term count over the query terms: each term
/// it holds adds its contribution; `None` when a step leaves `u64`.
pub open spec fn doc_score(doc: Seq<Seq<u8>>, docs: Seq<Seq<Seq<u8>>>, terms: Seq<Seq<u8>>) -> Option<(int, nat)>
    decreases terms.len(),
{
    if terms.len() == 0 {
        Some((0, 0))
    } else {
        match doc_score(doc, docs, terms.drop_last()) {
            None => None,
            Some(acc) => if term_count(doc, terms.last()) == 0 {
                Some(acc)
            } else {
                match term_contribution(doc, docs, terms.last()) {
                    None => None,
                    Some(c) => if acc.0 + c > u64::MAX {
                        None
                    } else {
                        Some((acc.0 + c, acc.1 + 1))
                    },
                }
            },
        }
    }
}

proof fn lemma_u64_product(a: u64, b: u64)
    ensures
        0 <= a * b <= u128::MAX,
{
    assert(0 <= a * b <= 0xffff_ffff_ffff_ffff * 0xffff_ffff_ffff_ffff) by (nonlinear_arith)
        requires
            a <= 0xffff_ffff_ffff_ffff,
            b <= 0xffff_ffff_ffff_ffff,
    ;
}

fn checked_mul_div(left: u64, right: u64, denominator: u64) -> (r: Option<u64>)
    ensures
        match r {
            Some(v) => mul_div(left as int, right as int, denominator as int) == Some(v as int),
            None => mul_div(left as int, right as int, denominator as int) is None,
        },
{
    if denominator == 0 {
        return None;
    }
    proof {
        lemma_u64_product(left, right);
    }
    let product: u128 = (left as u128) * (right as u128);
    let quotient: u128 = product / (denominator as u128);
    if quotient > 0xffff_ffff_ffff_ffffu128 {
        None
    } else {
        Some(quotient as u64)
    }
}

fn checked_mul3_div(first: u64, second: u64, third: u64, denominator: u64) -> (r: Option<u64>)
    ensures
        match r {
            Some(v) => mul3_div(first as int, second as int, third as int, denominator as int) == Some(
                v as int,
            ),
            None => mul3_div(first as int, second as int, third as int, denominator as int) is None,
        },
{
    if denominator == 0 {
        return None;
    }
    proof {
        lemma_u64_product(first, second);
    }
    let product: u128 = (first as u128) * (second as u128);
    match product.checked_mul(third as u128) {
        None => None,
        Some(full) => {
            let quotient: u128 = full / (denominator as u128);
            if quotient > 0xffff_ffff_ffff_ffffu128 {
                None
            } else {
                Some(quotient as u64)
            }
        },
    }
}

fn normalized_weighted_tf(
    term_frequency: u64,
    document_length: u64,
    total_field_length: u64,
    document_count: u64,
    b_scaled: u64,
    weight_scaled: u64,
) -> (r: Option<u64>)
    ensures
        ({
            let spec = weighted_tf(
                term_frequency as int,
                document_length as int,
                total_field_length as int,
                document_count as int,
                b_scaled as int,
                weight_scaled as int,
            );
            match r {
                Some(v) => spec == Some(v as int),
                None => spec is None,
            }
        }),
{
    if term_frequency == 0 {
        return Some(0);
    }
    let length: u64 = if total_field_length == 0 {
        0
    } else {
        match checked_mul3_div(b_scaled, document_length, document_count, total_field_length) {
            None => {
                return None;
            },
            Some(l) => l,
        }
    };
    let base = match BM25F_SCORE_SCALE_V1.checked_sub(b_scaled) {
        None => {
            return None;
        },
        Some(x) => x,
    };
    let normalization = match base.checked_add(length) {
        None => {
            return None;
        },
        Some(x) => x,
    };
    checked_mul3_div(term_frequency, weight_scaled, BM25F_SCORE_SCALE_V1, normalization)
}

fn checked_contribution(
    body_tf: u64,
    identifier_tf: u64,
    body_len: u64,
    identifier_len: u64,
    total_body: u64,
    total_identifier: u64,
    document_count: u64,
    df: u64,
) -> (r: Option<u64>)
    ensures
        ({
            let spec = contribution_from(
                body_tf as int,
                identifier_tf as int,
                body_len as int,
                identifier_len as int,
                total_body as int,
                total_identifier as int,
                document_count as int,
                df as int,
            );
            match r {
                Some(v) => spec == Some(v as int),
                None => spec is None,
            }
        }),
{
    let body = match normalized_weighted_tf(
        body_tf,
        body_len,
        total_body,
        document_count,
        BM25F_BODY_B_SCALED_V1,
        BM25F_BODY_WEIGHT_SCALED_V1,
    ) {
        None => {
            return None;
        },
        Some(v) => v,
    };
    let ident = match normalized_weighted_tf(
        identifier_tf,
        identifier_len,
        total_identifier,
        document_count,
        BM25F_IDENTIFIER_B_SCALED_V1,
        BM25F_IDENTIFIER_WEIGHT_SCALED_V1,
    ) {
        None => {
            return None;
        },
        Some(v) => v,
    };
    let weighted = match body.checked_add(ident) {
        None => {
            return None;
        },
        Some(v) => v,
    };
    let saturation_denominator = match weighted.checked_add(BM25F_K1_SCALED_V1) {
        None => {
            return None;
        },
        Some(v) => v,
    };
    let sat = match checked_mul_div(
        weighted,
        BM25F_K1_SCALED_V1 + BM25F_SCORE_SCALE_V1,
        saturation_denominator,
    ) {
        None => {
            return None;
        },
        Some(v) => v,
    };
    let remaining = match document_count.checked_sub(df) {
        None => {
            return None;
        },
        Some(v) => v,
    };
    let idf_denominator = match df.checked_add(1) {
        None => {
            return None;
        },
        Some(v) => v,
    };
    let idf_part = match checked_mul_div(remaining, BM25F_SCORE_SCALE_V1, idf_denominator) {
        None => {
            return None;
        },
        Some(v) => v,
    };
    let idf = match BM25F_SCORE_SCALE_V1.checked_add(idf_part) {
        None => {
            return None;
        },
        Some(v) => v,
    };
    checked_mul_div(idf, sat, BM25F_SCORE_SCALE_V1)
}

/// Whether a token belongs to the identifier field.
fn is_identifier_token(token: &Vec<u8>) -> (r: bool)
    ensures
        r == spec_identifier_token(token@),
{
    let mut i: usize = 0;
    while i < token.len()
        invariant
            i <= token.len(),
            forall|k: int| 0 <= k < i ==> !spec_identifier_byte(#[trigger] token@[k]),
        decreases token.len() - i,
    {
        let b = token[i];
        if is_digit(b) || b == 0x5f || b == 0x2d || b == 0x2e {
            assert(spec_identifier_byte(token@[i as int]));
            return true;
        }
        i = i + 1;
    }
    false
}

/// How often a term occurs among tokens.
fn count_term(tokens: &Vec<Vec<u8>>, term: &Vec<u8>) -> (r: usize)
    ensures
        r == term_count(byte_views(tokens@), term@),
        r <= tokens.len(),
{
    let ghost views = byte_views(tokens@);
    let mut count: usize = 0;
    let mut i: usize = 0;
    while i < tokens.len()
        invariant
            i <= tokens.len(),
            views == byte_views(tokens@),
            count == term_count(views.take(i as int), term@),
            count <= i,
        decreases tokens.len() - i,
    {
        proof {
            assert(views.take(i + 1).drop_last() =~= views.take(i as int));
        }
        if bytes_eq(tokens[i].as_slice(), term.as_slice()) {
            count = count + 1;
        }
        i = i + 1;
    }
    proof {
        assert(views.take(i as int) =~= views);
    }
    count
}

/// How many tokens belong to the identifier field.
fn count_identifiers(tokens: &Vec<Vec<u8>>) -> (r: usize)
    ensures
        r == identifier_count(byte_views(tokens@)),
        r <= tokens.len(),
{
    let ghost views = byte_views(tokens@);
    let mut count: usize = 0;
    let mut i: usize = 0;
    while i < tokens.len()
        invariant
            i <= tokens.len(),
            views == byte_views(tokens@),
            count == identifier_count(views.take(i as int)),
            count <= i,
        decreases tokens.len() - i,
    {
        proof {
            assert(views.take(i + 1).drop_last() =~= views.take(i as int));
        }
        if is_identifier_token(&tokens[i]) {
            count = count + 1;
        }
        i = i + 1;
    }
    proof {
        assert(views.take(i as int) =~= views);
    }
    count
}

/// The query terms: tokens with repeats removed, first occurrence kept.
fn unique_query_terms(tokens: &Vec<Vec<u8>>) -> (r: Vec<Vec<u8>>)
    ensures
        byte_views(r@) == unique_terms(byte_views(tokens@)),
        r.len() <= tokens.len(),
{
    let ghost views = byte_views(tokens@);
    let mut terms: Vec<Vec<u8>> = Vec::new();
    let mut i: usize = 0;
    proof {
        assert(byte_views(terms@) =~= Seq::<Seq<u8>>::empty());
    }
    while i < tokens.len()
        invariant
            i <= tokens.len(),
            views == byte_views(tokens@),
            byte_views(terms@) == unique_terms(views.take(i as int)),
            terms.len() <= i,
        decreases tokens.len() - i,
    {
        proof {
            assert(views.take(i + 1).drop_last() =~= views.take(i as int));
        }
        let ghost prev = byte_views(terms@);
        let mut seen = false;
        let mut j: usize = 0;
        while j < terms.len()
            invariant
                j <= terms.len(),
                i < tokens.len(),
                prev == byte_views(terms@),
                seen <==> exists|k: int| 0 <= k < j && prev[k] == tokens@[i as int]@,
            decreases terms.len() - j,
        {
            assert(prev[j as int] == terms@[j as int]@);
            if bytes_eq(terms[j].as_slice(), tokens[i].as_slice()) {
                seen = true;
            }
            j = j + 1;
        }
        proof {
            assert(views[i as int] == tokens@[i as int]@);
            if seen {
                let k = choose|k: int| 0 <= k < j && prev[k] == tokens@[i as int]@;
                assert(prev.contains(views[i as int]));
            } else {
                assert(!prev.contains(views[i as int]));
            }
        }
        if !seen {
            terms.push(vstd::slice::slice_to_vec(tokens[i].as_slice()));
            proof {
                assert(byte_views(terms@) =~= prev.push(views[i as int]));
            }
        }
        i = i + 1;
    }
    proof {
        assert(views.take(i as int) =~= views);
    }
    terms
}

// ---------------------------------------------------------------------------
// Ranking
// ---------------------------------------------------------------------------

/// Public score audit of one event: identity, source ordinal, scaled score
/// and matched-term count. Event bytes and matched terms are absent.
#[derive(Clone, Copy, PartialEq, Eq, Structural)]
pub struct Bm25fScoredEventV1 {
    pub event_id: EventId,
    pub source_ordinal: u64,
    pub score_scaled: u64,
    pub matched_unique_query_terms: usize,
}

impl Bm25fScoredEventV1 {
    pub fn event_id(self) -> (r: EventId)
        ensures
            r == self.event_id,
    {
        self.event_id
    }

    pub fn score_scaled(self) -> (r: u64)
        ensures
            r == self.score_scaled,
    {
        self.score_scaled
    }

    pub fn matched_unique_query_terms(self) -> (r: usize)
        ensures
            r == self.matched_unique_query_terms,
    {
        self.matched_unique_query_terms
    }
}

/// The token lists held by a list of tokenized documents.
pub open spec fn doc_views(docs: Seq<Vec<Vec<u8>>>) -> Seq<Seq<Seq<u8>>> {
    docs.map_values(|d: Vec<Vec<u8>>| byte_views(d@))
}

/// The body tokens of each event.
pub open spec fn event_tokens(events: Seq<LedgerEvent>) -> Seq<Seq<Seq<u8>>> {
    events.map_values(|e: LedgerEvent| spec_tokens(e.raw@))
}

/// The bound failure of the first event, in ledger order, whose bytes break
/// the event byte or token bound.
pub open spec fn first_event_error(events: Seq<LedgerEvent>) -> Option<Bm25fErrorV1>
    decreases events.len(),
{
    if events.len() == 0 {
        None
    } else {
        match first_event_error(events.drop_last()) {
            Some(e) => Some(e),
            None => match spec_tokenize(
                events.last().raw@,
                BM25F_MAX_EVENT_BYTES_V1 as nat,
                BM25F_MAX_EVENT_TOKENS_V1 as nat,
                false,
            ) {
                Err(e) => Some(e),
                Ok(_) => None,
            },
        }
    }
}

/// The events among the first `k` with a positive score, in ledger order,
/// each with its ledger position; `None` when a score leaves `u64`.
pub open spec fn scored_events(
    events: Seq<LedgerEvent>,
    docs: Seq<Seq<Seq<u8>>>,
    terms: Seq<Seq<u8>>,
    k: nat,
) -> Option<Seq<(usize, Bm25fScoredEventV1)>>
    decreases k,
{
    if k == 0 {
        Some(Seq::empty())
    } else {
        match scored_events(events, docs, terms, (k - 1) as nat) {
            None => None,
            Some(prev) => match doc_score(docs[k - 1], docs, terms) {
                None => None,
                Some(sm) => if sm.0 == 0 {
                    Some(prev)
                } else {
                    Some(
                        prev.push(
                            (
                                (k - 1) as usize,
                                Bm25fScoredEventV1 {
                                    event_id: events[k - 1].id,
                                    source_ordinal: events[k - 1].ordinal,
                                    score_scaled: sm.0 as u64,
                                    matched_unique_query_terms: sm.1 as usize,
                                },
                            ),
                        ),
                    )
                },
            },
        }
    }
}

/// Rank order: higher score first, then lower source ordinal, then earlier
/// ledger position.
pub open spec fn ranked_before(a: (usize, Bm25fScoredEventV1), b: (usize, Bm25fScoredEventV1)) -> bool {
    ||| a.1.score_scaled > b.1.score_scaled
    ||| (a.1.score_scaled == b.1.score_scaled && a.1.source_ordinal < b.1.source_ordinal)
    ||| (a.1.score_scaled == b.1.score_scaled && a.1.source_ordinal == b.1.source_ordinal && a.0 < b.0)
}

/// `a` may come before `b`: higher score, or equal score and no higher
/// source ordinal.
pub open spec fn score_order(a: Bm25fScoredEventV1, b: Bm25fScoredEventV1) -> bool {
    a.score_scaled > b.score_scaled || (a.score_scaled == b.score_scaled && a.source_ordinal
        <= b.source_ordinal)
}

/// Scores descend; equal scores keep source ordinals ascending.
pub open spec fn scores_ranked(s: Seq<Bm25fScoredEventV1>) -> bool {
    forall|i: int, j: int| 0 <= i < j < s.len() ==> score_order(#[trigger] s[i], #[trigger] s[j])
}

/// Insert an entry before the first entry it ranks before.
pub open spec fn ranked_insert(s: Seq<(usize, Bm25fScoredEventV1)>, c: (usize, Bm25fScoredEventV1)) -> Seq<
    (usize, Bm25fScoredEventV1),
>
    decreases s.len(),
{
    if s.len() == 0 {
        seq![c]
    } else if ranked_before(c, s[0]) {
        seq![c] + s
    } else {
        seq![s[0]] + ranked_insert(s.drop_first(), c)
    }
}

/// Entries in rank order, inserted one by one.
pub open spec fn rank_order(s: Seq<(usize, Bm25fScoredEventV1)>) -> Seq<(usize, Bm25fScoredEventV1)>
    decreases s.len(),
{
    if s.len() == 0 {
        Seq::empty()
    } else {
        ranked_insert(rank_order(s.drop_last()), s.last())
    }
}

/// The ranked events of a ledger for a query, each with its ledger position,
/// or the failure: query bounds first; no query term or no event gives an
/// empty ranking; then event bounds in ledger order; then arithmetic.
pub open spec fn bm25f_ranking(events: Seq<LedgerEvent>, query: Seq<u8>) -> Result<
    Seq<(usize, Bm25fScoredEventV1)>,
    Bm25fErrorV1,
> {
    match spec_tokenize(
        query,
        BM25F_MAX_QUERY_BYTES_V1 as nat,
        BM25F_MAX_QUERY_TOKENS_V1 as nat,
        true,
    ) {
        Err(e) => Err(e),
        Ok(q) => {
            let terms = unique_terms(q);
            if terms.len() == 0 || events.len() == 0 {
                Ok(Seq::empty())
            } else {
                match first_event_error(events) {
                    Some(e) => Err(e),
                    None => {
                        let docs = event_tokens(events);
                        if total_body_len(docs) > u64::MAX || total_identifier_len(docs) > u64::MAX {
                            Err(Bm25fErrorV1::ArithmeticOverflow)
                        } else {
                            match scored_events(events, docs, terms, events.len()) {
                                None => Err(Bm25fErrorV1::ArithmeticOverflow),
                                Some(s) => Ok(rank_order(s)),
                            }
                        }
                    },
                }
            }
        },
    }
}

/// An insertion is a `Seq::insert` at some position.
proof fn lemma_ranked_insert_is_insert(s: Seq<(usize, Bm25fScoredEventV1)>, c: (usize, Bm25fScoredEventV1))
    ensures
        exists|p: int| 0 <= p <= s.len() && ranked_insert(s, c) == s.insert(p, c),
    decreases s.len(),
{
    if s.len() == 0 || ranked_before(c, s[0]) {
        assert(ranked_insert(s, c) =~= s.insert(0, c));
    } else {
        let rest = s.drop_first();
        lemma_ranked_insert_is_insert(rest, c);
        let p = choose|p: int| 0 <= p <= rest.len() && ranked_insert(rest, c) == rest.insert(p, c);
        assert(ranked_insert(s, c) =~= s.insert(p + 1, c));
    }
}

/// Inserting into a sorted list keeps it sorted.
proof fn lemma_ranked_insert_sorted(s: Seq<(usize, Bm25fScoredEventV1)>, c: (usize, Bm25fScoredEventV1))
    requires
        scores_ranked(s.map_values(|x: (usize, Bm25fScoredEventV1)| x.1)),
    ensures
        scores_ranked(ranked_insert(s, c).map_values(|x: (usize, Bm25fScoredEventV1)| x.1)),
    decreases s.len(),
{
    let f = |x: (usize, Bm25fScoredEventV1)| x.1;
    let t = ranked_insert(s, c);
    let sv = s.map_values(f);
    if s.len() == 0 {
    } else if ranked_before(c, s[0]) {
        assert forall|i: int, j: int| 0 <= i < j < t.len() implies score_order(
            #[trigger] t.map_values(f)[i],
            #[trigger] t.map_values(f)[j],
        ) by {
            if i == 0 {
                assert(t[j] == s[j - 1]);
                if j - 1 > 0 {
                    assert(score_order(sv[0], sv[j - 1]));
                }
            } else {
                assert(t[i] == s[i - 1] && t[j] == s[j - 1]);
                assert(score_order(sv[i - 1], sv[j - 1]));
            }
        }
    } else {
        let rest = s.drop_first();
        assert(scores_ranked(rest.map_values(f))) by {
            assert forall|i: int, j: int| 0 <= i < j < rest.len() implies score_order(
                #[trigger] rest.map_values(f)[i],
                #[trigger] rest.map_values(f)[j],
            ) by {
                assert(score_order(sv[i + 1], sv[j + 1]));
            }
        }
        lemma_ranked_insert_sorted(rest, c);
        lemma_ranked_insert_is_insert(rest, c);
        let u = ranked_insert(rest, c);
        let p = choose|p: int| 0 <= p <= rest.len() && u == rest.insert(p, c);
        assert(t == seq![s[0]] + u);
        assert forall|i: int, j: int| 0 <= i < j < t.len() implies score_order(
            #[trigger] t.map_values(f)[i],
            #[trigger] t.map_values(f)[j],
        ) by {
            if i == 0 {
                assert(t[j] == u[j - 1]);
                if j - 1 < p {
                    assert(u[j - 1] == rest[j - 1]);
                    assert(score_order(sv[0], sv[j]));
                } else if j - 1 > p {
                    assert(u[j - 1] == rest[j - 2]);
                    assert(score_order(sv[0], sv[j - 1]));
                }
            } else {
                assert(t[i] == u[i - 1] && t[j] == u[j - 1]);
                assert(score_order(u.map_values(f)[i - 1], u.map_values(f)[j - 1]));
            }
        }
    }
}

/// The ranking is a sorted permutation of the entries it ranks.
pub proof fn lemma_rank_order(s: Seq<(usize, Bm25fScoredEventV1)>)
    ensures
        scores_ranked(rank_order(s).map_values(|x: (usize, Bm25fScoredEventV1)| x.1)),
        rank_order(s).to_multiset() == s.to_multiset(),
        rank_order(s).len() == s.len(),
    decreases s.len(),
{
    broadcast use vstd::seq_lib::to_multiset_insert, vstd::seq_lib::to_multiset_build;
    if s.len() > 0 {
        let prev = rank_order(s.drop_last());
        lemma_rank_order(s.drop_last());
        lemma_ranked_insert_sorted(prev, s.last());
        lemma_ranked_insert_is_insert(prev, s.last());
        assert(s =~= s.drop_last().push(s.last()));
    } else {
        assert(rank_order(s) =~= s);
    }
}

/// Every ranked entry is one of the entries ranked.
proof fn lemma_rank_order_members(s: Seq<(usize, Bm25fScoredEventV1)>)
    ensures
        forall|i: int| 0 <= i < rank_order(s).len() ==> s.contains(#[trigger] rank_order(s)[i]),
{
    lemma_rank_order(s);
    assert forall|i: int| 0 <= i < rank_order(s).len() implies s.contains(#[trigger] rank_order(s)[i]) by {
        let x = rank_order(s)[i];
        assert(rank_order(s).contains(x));
        vstd::seq_lib::to_multiset_contains(rank_order(s), x);
        vstd::seq_lib::to_multiset_contains(s, x);
    }
}

/// Scored entries have positive scores and positions below the prefix.
proof fn lemma_scored_events_facts(
    events: Seq<LedgerEvent>,
    docs: Seq<Seq<Seq<u8>>>,
    terms: Seq<Seq<u8>>,
    k: nat,
)
    requires
        k <= docs.len(),
        k <= usize::MAX,
    ensures
        scored_events(events, docs, terms, k) matches Some(s) ==> forall|i: int|
            0 <= i < s.len() ==> (#[trigger] s[i]).1.score_scaled > 0 && s[i].0 < k,
    decreases k,
{
    if k > 0 {
        lemma_scored_events_facts(events, docs, terms, (k - 1) as nat);
        lemma_doc_score_range(docs[k - 1], docs, terms);
    }
}

/// A score is a `u64` and counts at most one match per term.
proof fn lemma_doc_score_range(doc: Seq<Seq<u8>>, docs: Seq<Seq<Seq<u8>>>, terms: Seq<Seq<u8>>)
    ensures
        doc_score(doc, docs, terms) matches Some(p) ==> 0 <= p.0 <= u64::MAX && p.1 <= terms.len(),
    decreases terms.len(),
{
    if terms.len() > 0 {
        lemma_doc_score_range(doc, docs, terms.drop_last());
    }
}

proof fn lemma_scored_none_sticks(
    events: Seq<LedgerEvent>,
    docs: Seq<Seq<Seq<u8>>>,
    terms: Seq<Seq<u8>>,
    k: nat,
    n: nat,
)
    requires
        k <= n,
        scored_events(events, docs, terms, k) is None,
    ensures
        scored_events(events, docs, terms, n) is None,
    decreases n - k,
{
    if k < n {
        lemma_scored_none_sticks(events, docs, terms, k + 1, n);
    }
}

proof fn lemma_doc_score_none_sticks(doc: Seq<Seq<u8>>, docs: Seq<Seq<Seq<u8>>>, terms: Seq<Seq<u8>>, k: int)
    requires
        0 <= k <= terms.len(),
        doc_score(doc, docs, terms.take(k)) is None,
    ensures
        doc_score(doc, docs, terms) is None,
    decreases terms.len() - k,
{
    if k < terms.len() {
        assert(terms.take(k + 1).drop_last() =~= terms.take(k));
        lemma_doc_score_none_sticks(doc, docs, terms, k + 1);
    } else {
        assert(terms.take(k) =~= terms);
    }
}

proof fn lemma_first_error_sticks(events: Seq<LedgerEvent>, k: int)
    requires
        0 <= k <= events.len(),
        first_event_error(events.take(k)) is Some,
    ensures
        first_event_error(events) == first_event_error(events.take(k)),
    decreases events.len() - k,
{
    if k < events.len() {
        assert(events.take(k + 1).drop_last() =~= events.take(k));
        lemma_first_error_sticks(events, k + 1);
    } else {
        assert(events.take(k) =~= events);
    }
}

proof fn lemma_totals_grow(docs: Seq<Seq<Seq<u8>>>, k: int)
    requires
        0 <= k <= docs.len(),
    ensures
        total_body_len(docs.take(k)) <= total_body_len(docs),
        total_identifier_len(docs.take(k)) <= total_identifier_len(docs),
    decreases docs.len() - k,
{
    if k < docs.len() {
        assert(docs.take(k + 1).drop_last() =~= docs.take(k));
        lemma_totals_grow(docs, k + 1);
    } else {
        assert(docs.take(k) =~= docs);
    }
}

proof fn lemma_ranked_insert_at(s: Seq<(usize, Bm25fScoredEventV1)>, c: (usize, Bm25fScoredEventV1), p: int)
    requires
        0 <= p <= s.len(),
        forall|i: int| 0 <= i < p ==> !ranked_before(c, #[trigger] s[i]),
        p == s.len() || ranked_before(c, s[p]),
    ensures
        ranked_insert(s, c) == s.insert(p, c),
    decreases p,
{
    if p == 0 {
        if s.len() == 0 {
            assert(s.insert(0, c) =~= seq![c]);
        } else {
            assert(s.insert(0, c) =~= seq![c] + s);
        }
    } else {
        let t = s.drop_first();
        assert(!ranked_before(c, s[0]));
        assert forall|i: int| 0 <= i < p - 1 implies !ranked_before(c, #[trigger] t[i]) by {
            assert(t[i] == s[i + 1]);
        }
        if p < s.len() {
            assert(t[p - 1] == s[p]);
        }
        lemma_ranked_insert_at(t, c, p - 1);
        assert(s.insert(p, c) =~= seq![s[0]] + t.insert(p - 1, c));
    }
}

fn ranked_before_exec(a: (usize, Bm25fScoredEventV1), b: (usize, Bm25fScoredEventV1)) -> (r: bool)
    ensures
        r == ranked_before(a, b),
{
    if a.1.score_scaled != b.1.score_scaled {
        return a.1.score_scaled > b.1.score_scaled;
    }
    if a.1.source_ordinal != b.1.source_ordinal {
        return a.1.source_ordinal < b.1.source_ordinal;
    }
    a.0 < b.0
}

/// Tokenize every event of a ledger, stopping at the first bound failure.
fn tokenize_events(ledger: &EventLedger) -> (r: Result<Vec<Vec<Vec<u8>>>, Bm25fErrorV1>)
    ensures
        match r {
            Ok(docs) => first_event_error(ledger.events@) is None && doc_views(docs@) == event_tokens(
                ledger.events@,
            ),
            Err(e) => first_event_error(ledger.events@) == Some(e),
        },
{
    let ghost events = ledger.events@;
    let mut docs: Vec<Vec<Vec<u8>>> = Vec::new();
    let mut k: usize = 0;
    proof {
        assert(doc_views(docs@) =~= event_tokens(events.take(0)));
    }
    while k < ledger.events.len()
        invariant
            k <= ledger.events.len(),
            events == ledger.events@,
            first_event_error(events.take(k as int)) is None,
            docs.len() == k,
            doc_views(docs@) == event_tokens(events.take(k as int)),
        decreases ledger.events.len() - k,
    {
        proof {
            assert(events.take(k + 1).drop_last() =~= events.take(k as int));
        }
        match tokenize(
            ledger.events[k].raw.as_slice(),
            BM25F_MAX_EVENT_BYTES_V1,
            BM25F_MAX_EVENT_TOKENS_V1,
            false,
        ) {
            Err(e) => {
                proof {
                    lemma_first_error_sticks(events, k + 1);
                }
                return Err(e);
            },
            Ok(tokens) => {
                let ghost before = docs@;
                proof {
                    assert(byte_views(tokens@) == spec_tokens(events[k as int].raw@));
                }
                docs.push(tokens);
                proof {
                    assert(docs@ == before.push(tokens));
                    assert forall|q: int| 0 <= q < k + 1 implies #[trigger] doc_views(docs@)[q]
                        == event_tokens(events.take(k + 1))[q] by {
                        if q < k {
                            assert(doc_views(before)[q] == event_tokens(events.take(k as int))[q]);
                            assert(events.take(k + 1)[q] == events.take(k as int)[q]);
                        } else {
                            assert(events.take(k + 1)[q] == events[k as int]);
                        }
                    }
                    assert(doc_views(docs@) =~= event_tokens(events.take(k + 1)));
                }
            },
        }
        k = k + 1;
    }
    proof {
        assert(events.take(k as int) =~= events);
    }
    Ok(docs)
}

/// Body and identifier field lengths summed over documents; `None` when a
/// sum leaves `u64`.
fn field_totals(docs: &Vec<Vec<Vec<u8>>>) -> (r: Option<(u64, u64)>)
    ensures
        match r {
            Some(t) => t.0 == total_body_len(doc_views(docs@)) && t.1 == total_identifier_len(
                doc_views(docs@),
            ),
            None => total_body_len(doc_views(docs@)) > u64::MAX || total_identifier_len(
                doc_views(docs@),
            ) > u64::MAX,
        },
{
    let ghost dv = doc_views(docs@);
    let mut body: u64 = 0;
    let mut ident: u64 = 0;
    let mut k: usize = 0;
    while k < docs.len()
        invariant
            k <= docs.len(),
            dv == doc_views(docs@),
            body == total_body_len(dv.take(k as int)),
            ident == total_identifier_len(dv.take(k as int)),
        decreases docs.len() - k,
    {
        proof {
            assert(dv.take(k + 1).drop_last() =~= dv.take(k as int));
            assert(dv[k as int] == byte_views(docs@[k as int]@));
        }
        let len = docs[k].len() as u64;
        let ids = count_identifiers(&docs[k]) as u64;
        match body.checked_add(len) {
            None => {
                proof {
                    lemma_totals_grow(dv, k + 1);
                }
                return None;
            },
            Some(b) => {
                body = b;
            },
        }
        match ident.checked_add(ids) {
            None => {
                proof {
                    lemma_totals_grow(dv, k + 1);
                }
                return None;
            },
            Some(x) => {
                ident = x;
            },
        }
        k = k + 1;
    }
    proof {
        assert(dv.take(k as int) =~= dv);
    }
    Some((body, ident))
}

/// For each term, how many documents hold it.
fn document_frequencies(docs: &Vec<Vec<Vec<u8>>>, terms: &Vec<Vec<u8>>) -> (r: Vec<u64>)
    ensures
        r.len() == terms.len(),
        forall|t: int|
            0 <= t < terms.len() ==> r@[t] == document_frequency(doc_views(docs@), #[trigger] terms@[t]@),
{
    let ghost dv = doc_views(docs@);
    let mut out: Vec<u64> = Vec::new();
    let mut t: usize = 0;
    while t < terms.len()
        invariant
            t <= terms.len(),
            dv == doc_views(docs@),
            out.len() == t,
            forall|q: int| 0 <= q < t ==> out@[q] == document_frequency(dv, #[trigger] terms@[q]@),
        decreases terms.len() - t,
    {
        let mut df: usize = 0;
        let mut d: usize = 0;
        while d < docs.len()
            invariant
                d <= docs.len(),
                t < terms.len(),
                dv == doc_views(docs@),
                df == document_frequency(dv.take(d as int), terms@[t as int]@),
                df <= d,
            decreases docs.len() - d,
        {
            proof {
                assert(dv.take(d + 1).drop_last() =~= dv.take(d as int));
                assert(dv[d as int] == byte_views(docs@[d as int]@));
            }
            if count_term(&docs[d], &terms[t]) > 0 {
                df = df + 1;
            }
            d = d + 1;
        }
        proof {
            assert(dv.take(d as int) =~= dv);
        }
        out.push(df as u64);
        t = t + 1;
    }
    out
}

/// One document's score and matched-term count.
fn document_score(
    doc: &Vec<Vec<u8>>,
    terms: &Vec<Vec<u8>>,
    dfs: &Vec<u64>,
    document_count: u64,
    total_body: u64,
    total_identifier: u64,
    Ghost(docs): Ghost<Seq<Seq<Seq<u8>>>>,
) -> (r: Option<(u64, usize)>)
    requires
        dfs.len() == terms.len(),
        forall|t: int| 0 <= t < terms.len() ==> dfs@[t] == document_frequency(docs, #[trigger] terms@[t]@),
        document_count == docs.len(),
        total_body == total_body_len(docs),
        total_identifier == total_identifier_len(docs),
    ensures
        match r {
            Some(p) => doc_score(byte_views(doc@), docs, byte_views(terms@)) == Some(
                (p.0 as int, p.1 as nat),
            ),
            None => doc_score(byte_views(doc@), docs, byte_views(terms@)) is None,
        },
{
    let ghost dv = byte_views(doc@);
    let ghost tv = byte_views(terms@);
    let body_len = doc.len() as u64;
    let identifier_len = count_identifiers(doc) as u64;
    let mut score: u64 = 0;
    let mut matched: usize = 0;
    let mut t: usize = 0;
    proof {
        assert(tv.take(0) =~= Seq::<Seq<u8>>::empty());
    }
    while t < terms.len()
        invariant
            t <= terms.len(),
            dv == byte_views(doc@),
            tv == byte_views(terms@),
            body_len == doc.len(),
            identifier_len == identifier_count(dv),
            dfs.len() == terms.len(),
            forall|q: int| 0 <= q < terms.len() ==> dfs@[q] == document_frequency(docs, #[trigger] terms@[q]@),
            document_count == docs.len(),
            total_body == total_body_len(docs),
            total_identifier == total_identifier_len(docs),
            doc_score(dv, docs, tv.take(t as int)) == Some((score as int, matched as nat)),
            matched <= t,
        decreases terms.len() - t,
    {
        proof {
            assert(tv.take(t + 1).drop_last() =~= tv.take(t as int));
            assert(tv.take(t + 1).last() == terms@[t as int]@);
        }
        let body_tf = count_term(doc, &terms[t]);
        if body_tf > 0 {
            let identifier_tf: u64 = if is_identifier_token(&terms[t]) {
                body_tf as u64
            } else {
                0
            };
            match checked_contribution(
                body_tf as u64,
                identifier_tf,
                body_len,
                identifier_len,
                total_body,
                total_identifier,
                document_count,
                dfs[t],
            ) {
                None => {
                    proof {
                        lemma_doc_score_none_sticks(dv, docs, tv, t + 1);
                    }
                    return None;
                },
                Some(c) => match score.checked_add(c) {
                    None => {
                        proof {
                            lemma_doc_score_none_sticks(dv, docs, tv, t + 1);
                        }
                        return None;
                    },
                    Some(sc) => {
                        score = sc;
                        matched = matched + 1;
                    },
                },
            }
        }
        t = t + 1;
    }
    proof {
        assert(tv.take(t as int) =~= tv);
    }
    Some((score, matched))
}

/// The positively scored events in ledger order, with their positions.
fn score_events(
    ledger: &EventLedger,
    docs: &Vec<Vec<Vec<u8>>>,
    terms: &Vec<Vec<u8>>,
    dfs: &Vec<u64>,
    total_body: u64,
    total_identifier: u64,
) -> (r: Option<Vec<(usize, Bm25fScoredEventV1)>>)
    requires
        docs.len() == ledger.events.len(),
        dfs.len() == terms.len(),
        forall|t: int|
            0 <= t < terms.len() ==> dfs@[t] == document_frequency(doc_views(docs@), #[trigger] terms@[t]@),
        total_body == total_body_len(doc_views(docs@)),
        total_identifier == total_identifier_len(doc_views(docs@)),
    ensures
        match r {
            Some(v) => scored_events(
                ledger.events@,
                doc_views(docs@),
                byte_views(terms@),
                ledger.events.len() as nat,
            ) == Some(v@),
            None => scored_events(
                ledger.events@,
                doc_views(docs@),
                byte_views(terms@),
                ledger.events.len() as nat,
            ) is None,
        },
{
    let ghost dv = doc_views(docs@);
    let ghost tv = byte_views(terms@);
    let document_count = docs.len() as u64;
    let mut out: Vec<(usize, Bm25fScoredEventV1)> = Vec::new();
    let mut k: usize = 0;
    while k < docs.len()
        invariant
            k <= docs.len() == ledger.events.len(),
            dv == doc_views(docs@),
            tv == byte_views(terms@),
            document_count == docs.len(),
            dfs.len() == terms.len(),
            forall|t: int| 0 <= t < terms.len() ==> dfs@[t] == document_frequency(dv, #[trigger] terms@[t]@),
            total_body == total_body_len(dv),
            total_identifier == total_identifier_len(dv),
            scored_events(ledger.events@, dv, tv, k as nat) == Some(out@),
        decreases docs.len() - k,
    {
        proof {
            assert(dv[k as int] == byte_views(docs@[k as int]@));
        }
        match document_score(&docs[k], terms, dfs, document_count, total_body, total_identifier, Ghost(dv)) {
            None => {
                proof {
                    lemma_scored_none_sticks(ledger.events@, dv, tv, (k + 1) as nat, ledger.events.len() as nat);
                }
                return None;
            },
            Some(p) => {
                if p.0 != 0 {
                    out.push(
                        (
                            k,
                            Bm25fScoredEventV1 {
                                event_id: ledger.events[k].id,
                                source_ordinal: ledger.events[k].ordinal,
                                score_scaled: p.0,
                                matched_unique_query_terms: p.1,
                            },
                        ),
                    );
                }
            },
        }
        k = k + 1;
    }
    Some(out)
}

/// Sort entries into rank order by insertion.
fn sort_ranked(entries: &Vec<(usize, Bm25fScoredEventV1)>) -> (r: Vec<(usize, Bm25fScoredEventV1)>)
    ensures
        r@ == rank_order(entries@),
{
    let mut out: Vec<(usize, Bm25fScoredEventV1)> = Vec::new();
    let mut i: usize = 0;
    proof {
        assert(entries@.take(0) =~= Seq::<(usize, Bm25fScoredEventV1)>::empty());
    }
    while i < entries.len()
        invariant
            i <= entries.len(),
            out@ == rank_order(entries@.take(i as int)),
        decreases entries.len() - i,
    {
        let c = entries[i];
        let mut p: usize = 0;
        while p < out.len() && !ranked_before_exec(c, out[p])
            invariant
                p <= out.len(),
                forall|q: int| 0 <= q < p ==> !ranked_before(c, #[trigger] out@[q]),
            decreases out.len() - p,
        {
            p = p + 1;
        }
        proof {
            lemma_ranked_insert_at(out@, c, p as int);
            assert(entries@.take(i + 1).drop_last() =~= entries@.take(i as int));
            assert(entries@.take(i + 1).last() == c);
        }
        out.insert(p, c);
        i = i + 1;
    }
    proof {
        assert(entries@.take(i as int) =~= entries@);
    }
    out
}

/// The ranking with each entry's ledger position.
fn rank_positions(ledger: &EventLedger, query: &[u8]) -> (r: Result<Vec<(usize, Bm25fScoredEventV1)>, Bm25fErrorV1>)
    ensures
        match bm25f_ranking(ledger.events@, query@) {
            Ok(s) => r matches Ok(v) && v@ == s,
            Err(e) => r == Err::<Vec<(usize, Bm25fScoredEventV1)>, Bm25fErrorV1>(e),
        },
{
    let query_tokens = match tokenize(query, BM25F_MAX_QUERY_BYTES_V1, BM25F_MAX_QUERY_TOKENS_V1, true) {
        Err(e) => {
            return Err(e);
        },
        Ok(t) => t,
    };
    let terms = unique_query_terms(&query_tokens);
    if terms.len() == 0 || ledger.events.len() == 0 {
        return Ok(Vec::new());
    }
    let docs = match tokenize_events(ledger) {
        Err(e) => {
            return Err(e);
        },
        Ok(d) => d,
    };
    let totals = match field_totals(&docs) {
        None => {
            return Err(Bm25fErrorV1::ArithmeticOverflow);
        },
        Some(t) => t,
    };
    let dfs = document_frequencies(&docs, &terms);
    let positives = match score_events(ledger, &docs, &terms, &dfs, totals.0, totals.1) {
        None => {
            return Err(Bm25fErrorV1::ArithmeticOverflow);
        },
        Some(v) => v,
    };
    Ok(sort_ranked(&positives))
}

/// Rank the events of a ledger against a query: the events with a positive
/// score, by score descending, then source ordinal ascending (then ledger
/// position).
pub fn rank_documents(ledger: &EventLedger, query: &[u8]) -> (r: Result<Vec<Bm25fScoredEventV1>, Bm25fErrorV1>)
    ensures
        match bm25f_ranking(ledger.events@, query@) {
            Ok(s) => r matches Ok(v) && v@ == s.map_values(|x: (usize, Bm25fScoredEventV1)| x.1),
            Err(e) => r == Err::<Vec<Bm25fScoredEventV1>, Bm25fErrorV1>(e),
        },
        r matches Ok(v) ==> scores_ranked(v@),
        r matches Ok(v) ==> forall|i: int| 0 <= i < v.len() ==> (#[trigger] v@[i]).score_scaled > 0,
{
    let ranked = match rank_positions(ledger, query) {
        Err(e) => {
            return Err(e);
        },
        Ok(v) => v,
    };
    proof {
        assert(ledger.events@.len() == ledger.events.len());
        lemma_bm25f_ranking_facts(ledger.events@, query@);
    }
    let mut out: Vec<Bm25fScoredEventV1> = Vec::new();
    let mut i: usize = 0;
    while i < ranked.len()
        invariant
            i <= ranked.len(),
            out@ == ranked@.take(i as int).map_values(|x: (usize, Bm25fScoredEventV1)| x.1),
        decreases ranked.len() - i,
    {
        out.push(ranked[i].1);
        proof {
            assert(ranked@.take(i + 1).map_values(|x: (usize, Bm25fScoredEventV1)| x.1) =~= ranked@.take(
                i as int,
            ).map_values(|x: (usize, Bm25fScoredEventV1)| x.1).push(ranked@[i as int].1));
        }
        i = i + 1;
    }
    proof {
        assert(ranked@.take(i as int) =~= ranked@);
    }
    Ok(out)
}

/// A successful ranking is ordered by score (descending) then source ordinal
/// (ascending), holds only positive scores, and names ledger positions.
pub proof fn lemma_bm25f_ranking_facts(events: Seq<LedgerEvent>, query: Seq<u8>)
    requires
        events.len() <= usize::MAX,
    ensures
        bm25f_ranking(events, query) matches Ok(s) ==> {
            &&& scores_ranked(s.map_values(|x: (usize, Bm25fScoredEventV1)| x.1))
            &&& forall|i: int| 0 <= i < s.len() ==> (#[trigger] s[i]).1.score_scaled > 0 && s[i].0 < events.len()
        },
{
    match spec_tokenize(query, BM25F_MAX_QUERY_BYTES_V1 as nat, BM25F_MAX_QUERY_TOKENS_V1 as nat, true) {
        Err(_) => {},
        Ok(q) => {
            let terms = unique_terms(q);
            if terms.len() == 0 || events.len() == 0 {
            } else if first_event_error(events) is None {
                let docs = event_tokens(events);
                if let Some(s) = scored_events(events, docs, terms, events.len()) {
                    lemma_scored_events_facts(events, docs, terms, events.len());
                    lemma_rank_order(s);
                    lemma_rank_order_members(s);
                    let r = rank_order(s);
                    assert forall|i: int| 0 <= i < r.len() implies (#[trigger] r[i]).1.score_scaled > 0 && r[i].0
                        < events.len() by {
                        assert(s.contains(r[i]));
                    }
                }
            }
        },
    }
}

// ---------------------------------------------------------------------------
// Configuration and the benchmark method
// ---------------------------------------------------------------------------

/// The committed bytes of the closed configuration: the domain, each contract
/// framed by its big-endian length, then the numeric constants as big-endian
/// `u64`s.
pub open spec fn bm25f_config_message() -> Seq<u8> {
    encode_utf8(BM25F_CONFIG_DOMAIN_V1@) + be_framed(encode_utf8(BM25F_TOKENIZER_CONTRACT_V1@))
        + be_framed(encode_utf8(BM25F_SCORING_CONTRACT_V1@)) + be_framed(
        encode_utf8(BM25F_FIELD_CONTRACT_V1@),
    ) + be_framed(encode_utf8(BM25F_TIE_CONTRACT_V1@)) + be_framed(
        encode_utf8(BM25F_BUDGET_CONTRACT_V1@),
    ) + be_framed(encode_utf8(BM25F_METHOD_NAME_V1@)) + be_framed(
        encode_utf8(BM25F_METHOD_VERSION_V1@),
    ) + u64_be(BM25F_SCORE_SCALE_V1) + u64_be(BM25F_K1_SCALED_V1) + u64_be(BM25F_BODY_B_SCALED_V1)
        + u64_be(BM25F_IDENTIFIER_B_SCALED_V1) + u64_be(BM25F_BODY_WEIGHT_SCALED_V1) + u64_be(
        BM25F_IDENTIFIER_WEIGHT_SCALED_V1,
    ) + u64_be(BM25F_MAX_QUERY_BYTES_V1 as u64) + u64_be(BM25F_MAX_EVENT_BYTES_V1 as u64) + u64_be(
        BM25F_MAX_QUERY_TOKENS_V1 as u64,
    ) + u64_be(BM25F_MAX_EVENT_TOKENS_V1 as u64) + u64_be(BM25F_MAX_TOKEN_BYTES_V1 as u64)
}

/// Closed V1 configuration. There is no caller-tunable scoring surface.
#[derive(Clone, Copy, Debug, Default, PartialEq, Eq, Structural)]
pub struct Bm25fConfigV1;

impl Bm25fConfigV1 {
    /// The SHA-256 commitment to the configuration.
    pub fn digest(self) -> (r: ArtifactDigest)
        ensures
            r.0@ == sha256_spec(bm25f_config_message()),
    {
        let mut message: Vec<u8> = Vec::new();
        push_bytes(&mut message, BM25F_CONFIG_DOMAIN_V1.as_bytes());
        push_be_field(&mut message, BM25F_TOKENIZER_CONTRACT_V1.as_bytes());
        push_be_field(&mut message, BM25F_SCORING_CONTRACT_V1.as_bytes());
        push_be_field(&mut message, BM25F_FIELD_CONTRACT_V1.as_bytes());
        push_be_field(&mut message, BM25F_TIE_CONTRACT_V1.as_bytes());
        push_be_field(&mut message, BM25F_BUDGET_CONTRACT_V1.as_bytes());
        push_be_field(&mut message, BM25F_METHOD_NAME_V1.as_bytes());
        push_be_field(&mut message, BM25F_METHOD_VERSION_V1.as_bytes());
        push_u64_be(&mut message, BM25F_SCORE_SCALE_V1);
        push_u64_be(&mut message, BM25F_K1_SCALED_V1);
        push_u64_be(&mut message, BM25F_BODY_B_SCALED_V1);
        push_u64_be(&mut message, BM25F_IDENTIFIER_B_SCALED_V1);
        push_u64_be(&mut message, BM25F_BODY_WEIGHT_SCALED_V1);
        push_u64_be(&mut message, BM25F_IDENTIFIER_WEIGHT_SCALED_V1);
        push_u64_be(&mut message, BM25F_MAX_QUERY_BYTES_V1 as u64);
        push_u64_be(&mut message, BM25F_MAX_EVENT_BYTES_V1 as u64);
        push_u64_be(&mut message, BM25F_MAX_QUERY_TOKENS_V1 as u64);
        push_u64_be(&mut message, BM25F_MAX_EVENT_TOKENS_V1 as u64);
        push_u64_be(&mut message, BM25F_MAX_TOKEN_BYTES_V1 as u64);
        proof {
            assert(message@ =~= bm25f_config_message());
        }
        ArtifactDigest(sha256(message.as_slice()))
    }

    pub fn tokenizer_contract(self) -> (r: &'static str)
        ensures
            r@ == "ascii_lower_bounded_v1"@,
    {
        "ascii_lower_bounded_v1"
    }

    pub fn scoring_contract(self) -> (r: &'static str)
        ensures
            r@ == "fixed_point_bm25f_style_v1"@,
    {
        "fixed_point_bm25f_style_v1"
    }

    pub fn tie_contract(self) -> (r: &'static str)
        ensures
            r@ == "score_desc_source_ordinal_asc_v1"@,
    {
        "score_desc_source_ordinal_asc_v1"
    }
}

pub fn bm25f_whole_event_descriptor() -> (r: MethodDescriptor)
    ensures
        r.name@ == "bm25f-whole-event"@,
        r.version@ == "1"@,
{
    MethodDescriptor { name: "bm25f-whole-event", version: "1" }
}

/// The reason list of every selected event.
pub open spec fn bm25f_reasons() -> Seq<SelectionReason> {
    seq![SelectionReason::QueryTermMatch]
}

/// Deterministic whole-event BM25F-style benchmark arm.
#[derive(Clone, Copy, Debug, Default, PartialEq, Eq, Structural)]
pub struct Bm25fWholeEventV1 {
    pub config: Bm25fConfigV1,
}

impl Bm25fWholeEventV1 {
    pub fn new(config: Bm25fConfigV1) -> (r: Self)
        ensures
            r.config == config,
    {
        Bm25fWholeEventV1 { config }
    }

    pub fn config(self) -> (r: Bm25fConfigV1)
        ensures
            r == self.config,
    {
        self.config
    }

    pub fn descriptor(&self) -> (r: MethodDescriptor)
        ensures
            r.name@ == "bm25f-whole-event"@,
            r.version@ == "1"@,
    {
        bm25f_whole_event_descriptor()
    }

    /// The ranked events of a ledger for a query.
    pub fn rank(&self, ledger: &EventLedger, query: &[u8]) -> (r: Result<Vec<Bm25fScoredEventV1>, Bm25fErrorV1>)
        ensures
            match bm25f_ranking(ledger.events@, query@) {
                Ok(s) => r matches Ok(v) && v@ == s.map_values(|x: (usize, Bm25fScoredEventV1)| x.1),
                Err(e) => r == Err::<Vec<Bm25fScoredEventV1>, Bm25fErrorV1>(e),
            },
            r matches Ok(v) ==> scores_ranked(v@),
            r matches Ok(v) ==> forall|i: int| 0 <= i < v.len() ==> (#[trigger] v@[i]).score_scaled > 0,
    {
        rank_documents(ledger, query)
    }

    /// Offer the positively scored events whole to the budget in rank order;
    /// every ranked event is a candidate, and the selection is reported in
    /// source order. A scoring failure is answered with
    /// `LexicalScoringFailure`.
    pub fn run(&self, ledger: &EventLedger, query: &[u8], budget: ByteBudget) -> (r: Result<
        MethodResult,
        MethodError,
    >)
        ensures
            match bm25f_ranking(ledger.events@, query@) {
                Err(_) => r == Err::<MethodResult, MethodError>(MethodError::LexicalScoringFailure),
                Ok(ranked) => {
                    let n = ledger.events.len() as nat;
                    let priority = ranked.map_values(|x: (usize, Bm25fScoredEventV1)| x.0);
                    let g = greedy(ledger, budget.0 as nat, priority);
                    let candidates = flagged(priority_flags(n, priority));
                    let selected = flagged(g.1);
                    &&& r is Ok <==> (!g.4 && ordinal_bytes(ledger, candidates) <= usize::MAX)
                    &&& r matches Err(e) ==> e == MethodError::SourceByteCostOverflow
                    &&& r matches Ok(res) ==> built_result(
                        res,
                        res.method,
                        ledger,
                        budget,
                        candidates,
                        g.3,
                        selected,
                        selected.map_values(|o: usize| bm25f_reasons()),
                    )
                    &&& r matches Ok(res) ==> ordinal_bytes(ledger, selected) <= budget.0
                    &&& r matches Ok(res) ==> forall|i: int|
                        0 <= i < selected.len() ==> candidates.contains(#[trigger] selected[i])
                },
            },
            r matches Ok(res) ==> res.method.name@ == "bm25f-whole-event"@ && res.method.version@ == "1"@,
    {
        let ranked = match rank_positions(ledger, query) {
            Err(_) => {
                return Err(MethodError::LexicalScoringFailure);
            },
            Ok(v) => v,
        };
        let n = ledger.events.len();
        proof {
            assert(ledger.events@.len() == ledger.events.len());
            lemma_bm25f_ranking_facts(ledger.events@, query@);
        }
        let mut priority: Vec<usize> = Vec::new();
        let mut i: usize = 0;
        while i < ranked.len()
            invariant
                i <= ranked.len(),
                priority@ == ranked@.take(i as int).map_values(|x: (usize, Bm25fScoredEventV1)| x.0),
            decreases ranked.len() - i,
        {
            priority.push(ranked[i].0);
            proof {
                assert(ranked@.take(i + 1).map_values(|x: (usize, Bm25fScoredEventV1)| x.0)
                    =~= ranked@.take(i as int).map_values(|x: (usize, Bm25fScoredEventV1)| x.0).push(
                    ranked@[i as int].0,
                ));
            }
            i = i + 1;
        }
        proof {
            assert(ranked@.take(i as int) =~= ranked@);
            assert forall|k: int| 0 <= k < priority@.len() implies priority@[k] < n by {
                assert(priority@[k] == ranked@[k].0);
            }
        }
        match greedy_select(ledger, budget, &priority) {
            Err(e) => Err(e),
            Ok((cand, sel, excluded)) => {
                let candidates = flagged_positions(&cand);
                let positions = flagged_positions(&sel);
                let ghost fl = flagged(sel@);
                let mut selected: Vec<(usize, Vec<SelectionReason>)> = Vec::new();
                let mut j: usize = 0;
                while j < positions.len()
                    invariant
                        j <= positions.len(),
                        selected@.map_values(|p: (usize, Vec<SelectionReason>)| p.0)
                            == positions@.take(j as int),
                        forall|k: int| 0 <= k < j ==> (#[trigger] selected@[k]).1@ == bm25f_reasons(),
                        selected.len() == j,
                    decreases positions.len() - j,
                {
                    let mut reasons: Vec<SelectionReason> = Vec::new();
                    reasons.push(SelectionReason::QueryTermMatch);
                    proof {
                        assert(reasons@ =~= bm25f_reasons());
                    }
                    selected.push((positions[j], reasons));
                    proof {
                        assert(selected@.map_values(|p: (usize, Vec<SelectionReason>)| p.0)
                            =~= positions@.take(j + 1));
                    }
                    j = j + 1;
                }
                proof {
                    assert(positions@.take(j as int) =~= positions@);
                    lemma_flagged(sel@);
                    lemma_flagged(cand@);
                    assert(selected@.map_values(|p: (usize, Vec<SelectionReason>)| p.1@)
                        =~= fl.map_values(|o: usize| bm25f_reasons()));
                    assert forall|k: int| 0 <= k < fl.len() implies flagged(cand@).contains(#[trigger] fl[k]) by {
                        assert(fl.contains(fl[k]));
                        assert(sel@[fl[k] as int]);
                    }
                }
                build_result(self.descriptor(), ledger, budget, &candidates, excluded, selected)
            },
        }
    }
}

} // verus!
