//! SHA-256 commitments over length-framed little-endian byte messages.

use vstd::prelude::*;
use sha2::Digest;

verus! {

/// The SHA-256 digest of a message.
pub uninterp spec fn sha256_spec(message: Seq<u8>) -> Seq<u8>;

/// SHA-256 of a byte string, computed by `sha2::Sha256::digest`. The contract
/// names the result only: it is the SHA-256 function of the message's bytes,
/// the same for the same bytes; nothing else about it is stated.
#[verifier::external_body]
pub fn sha256(message: &[u8]) -> (r: [u8; 32])
    ensures
        r@ == sha256_spec(message@),
{
    let digest = sha2::Sha256::digest(message);
    digest.into()
}

/// The `n` low bytes of `v`, least significant first.
pub open spec fn le_bytes(v: nat, n: nat) -> Seq<u8>
    decreases n,
{
    if n == 0 {
        Seq::empty()
    } else {
        seq![(v % 256) as u8] + le_bytes(v / 256, (n - 1) as nat)
    }
}

/// A `u64` in little-endian order.
pub open spec fn u64_le(v: u64) -> Seq<u8> {
    le_bytes(v as nat, 8)
}

/// A length-framed field: its length as a little-endian `u64`, then its bytes.
pub open spec fn framed(bytes: Seq<u8>) -> Seq<u8> {
    u64_le(bytes.len() as u64) + bytes
}

pub fn push_u64_le(buf: &mut Vec<u8>, v: u64)
    ensures
        final(buf)@ == old(buf)@ + u64_le(v),
{
    let mut x: u64 = v;
    let mut i: usize = 0;
    proof {
        assert(old(buf)@ + u64_le(v) =~= buf@ + le_bytes(x as nat, 8));
    }
    while i < 8
        invariant
            i <= 8,
            buf@ + le_bytes(x as nat, (8 - i) as nat) == old(buf)@ + u64_le(v),
        decreases 8 - i,
    {
        let ghost before = buf@;
        let ghost rest = le_bytes((x / 256) as nat, (8 - i - 1) as nat);
        buf.push((x % 256) as u8);
        proof {
            assert(le_bytes(x as nat, (8 - i) as nat) == seq![(x % 256) as u8] + rest);
            assert(buf@ + rest =~= before + (seq![(x % 256) as u8] + rest));
        }
        x = x / 256;
        i = i + 1;
    }
    proof {
        assert(buf@ + le_bytes(x as nat, 0) =~= buf@);
    }
}

pub fn push_bytes(buf: &mut Vec<u8>, bytes: &[u8])
    ensures
        final(buf)@ == old(buf)@ + bytes@,
{
    let mut i: usize = 0;
    while i < bytes.len()
        invariant
            i <= bytes.len(),
            buf@ == old(buf)@ + bytes@.subrange(0, i as int),
        decreases bytes.len() - i,
    {
        buf.push(bytes[i]);
        i = i + 1;
        proof {
            assert(buf@ =~= old(buf)@ + bytes@.subrange(0, i as int));
        }
    }
    proof {
        assert(bytes@.subrange(0, i as int) =~= bytes@);
    }
}

pub fn push_field(buf: &mut Vec<u8>, bytes: &[u8])
    ensures
        final(buf)@ == old(buf)@ + framed(bytes@),
{
    push_u64_le(buf, bytes.len() as u64);
    push_bytes(buf, bytes);
    proof {
        assert(buf@ =~= old(buf)@ + framed(bytes@));
    }
}

/// The `n` low bytes of `v`, most significant first.
pub open spec fn be_bytes(v: nat, n: nat) -> Seq<u8>
    decreases n,
{
    if n == 0 {
        Seq::empty()
    } else {
        be_bytes(v / 256, (n - 1) as nat) + seq![(v % 256) as u8]
    }
}

/// A `u64` in big-endian order.
pub open spec fn u64_be(v: u64) -> Seq<u8> {
    be_bytes(v as nat, 8)
}

pub fn push_u64_be(buf: &mut Vec<u8>, v: u64)
    ensures
        final(buf)@ == old(buf)@ + u64_be(v),
{
    let mut le: Vec<u8> = Vec::new();
    push_u64_le(&mut le, v);
    let mut i: usize = 8;
    proof {
        lemma_be_reverses_le(v as nat, 8);
        assert(le@ == le_bytes(v as nat, 8));
        assert(old(buf)@ + u64_be(v).subrange(0, 0) =~= buf@);
    }
    while i > 0
        invariant
            i <= 8,
            le@ == le_bytes(v as nat, 8),
            le@.len() == 8,
            u64_be(v) == le_bytes(v as nat, 8).reverse(),
            buf@ == old(buf)@ + u64_be(v).subrange(0, 8 - i),
        decreases i,
    {
        buf.push(le[i - 1]);
        proof {
            assert(u64_be(v)[8 - i] == le@[i - 1]);
            assert(buf@ =~= old(buf)@ + u64_be(v).subrange(0, 8 - (i - 1)));
        }
        i = i - 1;
    }
    proof {
        assert(u64_be(v).subrange(0, 8) =~= u64_be(v));
    }
}

proof fn lemma_be_reverses_le(v: nat, n: nat)
    ensures
        be_bytes(v, n) == le_bytes(v, n).reverse(),
        le_bytes(v, n).len() == n,
        be_bytes(v, n).len() == n,
    decreases n,
{
    if n > 0 {
        lemma_be_reverses_le(v / 256, (n - 1) as nat);
        let rest = le_bytes(v / 256, (n - 1) as nat);
        assert((seq![(v % 256) as u8] + rest).reverse() =~= rest.reverse() + seq![(v % 256) as u8]);
    } else {
        assert(le_bytes(v, n).reverse() =~= Seq::<u8>::empty());
    }
}

} // verus!
