//! Unsigned integers as option values: the fewest big-endian bytes, zero as
//! no bytes at all.
use vstd::prelude::*;

verus! {

/// The minimal big-endian bytes of `n`; empty for zero.
pub open spec fn uint_bytes(n: nat) -> Seq<u8>
    decreases n,
{
    if n == 0 {
        seq![]
    } else {
        uint_bytes(n / 256).push((n % 256) as u8)
    }
}

/// The number that the big-endian bytes `b` stand for; zero for no bytes.
pub open spec fn uint_value(b: Seq<u8>) -> nat
    decreases b.len(),
{
    if b.len() == 0 {
        0
    } else {
        (uint_value(b.drop_last()) * 256 + b.last()) as nat
    }
}

pub open spec fn pow256(k: nat) -> nat
    decreases k,
{
    if k == 0 {
        1
    } else {
        256 * pow256((k - 1) as nat)
    }
}

/// The powers of 256 up to the eighth.
pub proof fn lemma_pow256_values()
    ensures
        pow256(0) == 1,
        pow256(1) == 0x100,
        pow256(2) == 0x1_0000,
        pow256(3) == 0x100_0000,
        pow256(4) == 0x1_0000_0000,
        pow256(8) == 0x1_0000_0000_0000_0000,
{
    assert(pow256(1) == 256 * pow256(0));
    assert(pow256(2) == 256 * pow256(1));
    assert(pow256(3) == 256 * pow256(2));
    assert(pow256(4) == 256 * pow256(3));
    assert(pow256(5) == 256 * pow256(4));
    assert(pow256(6) == 256 * pow256(5));
    assert(pow256(7) == 256 * pow256(6));
    assert(pow256(8) == 256 * pow256(7));
}

pub open spec fn reversed(s: Seq<u8>) -> Seq<u8> {
    Seq::new(s.len(), |i: int| s[s.len() - 1 - i])
}

/// A value read from `k` bytes is below 256 to the power `k`.
pub proof fn lemma_uint_value_bound(b: Seq<u8>)
    ensures
        uint_value(b) < pow256(b.len()),
    decreases b.len(),
{
    if b.len() > 0 {
        lemma_uint_value_bound(b.drop_last());
        let v = uint_value(b.drop_last());
        let p = pow256(b.drop_last().len());
        assert(v * 256 + b.last() < 256 * p) by (nonlinear_arith)
            requires v < p, b.last() < 256;
    }
}

/// Reading back the bytes of `n` gives `n`; they have no leading zero byte.
pub proof fn lemma_uint_round_trip(n: nat)
    ensures
        uint_value(uint_bytes(n)) == n,
        uint_bytes(n).len() == 0 <==> n == 0,
        uint_bytes(n).len() > 0 ==> uint_bytes(n)[0] != 0,
    decreases n,
{
    if n > 0 {
        lemma_uint_round_trip(n / 256);
        assert(uint_bytes(n).drop_last() =~= uint_bytes(n / 256));
        if n / 256 == 0 {
            assert(uint_bytes(n)[0] == (n % 256) as u8);
        } else {
            assert(uint_bytes(n)[0] == uint_bytes(n / 256)[0]);
        }
    }
}

/// A number below 256 to the power `k` takes at most `k` bytes.
pub proof fn lemma_uint_bytes_len(n: nat, k: nat)
    requires
        n < pow256(k),
    ensures
        uint_bytes(n).len() <= k,
    decreases n,
{
    if n > 0 {
        assert(k > 0);
        assert(n / 256 < pow256((k - 1) as nat)) by (nonlinear_arith)
            requires n < 256 * pow256((k - 1) as nat);
        lemma_uint_bytes_len(n / 256, (k - 1) as nat);
    }
}

/// The bytes of `n`: big-endian, as few as possible, none for zero.
pub fn value_to_bytes(n: u64) -> (r: Vec<u8>)
    ensures
        r@ == uint_bytes(n as nat),
        r@.len() <= 8,
        r@.len() == 0 <==> n == 0,
        r@.len() > 0 ==> r@[0] != 0,
        uint_value(r@) == n,
{
    let mut rev: Vec<u8> = Vec::new();
    let mut m: u64 = n;
    assert(reversed(rev@) =~= Seq::<u8>::empty());
    assert(uint_bytes(n as nat) =~= uint_bytes(n as nat) + Seq::<u8>::empty());
    while m != 0
        invariant
            uint_bytes(n as nat) == uint_bytes(m as nat) + reversed(rev@),
        decreases m,
    {
        let ghost old_rev = rev@;
        rev.push((m % 256) as u8);
        assert(reversed(rev@) =~= seq![(m % 256) as u8] + reversed(old_rev));
        assert(uint_bytes(m as nat) =~= uint_bytes((m / 256) as nat).push((m % 256) as u8));
        m = m / 256;
    }
    assert(uint_bytes(0) =~= Seq::<u8>::empty());
    let mut out: Vec<u8> = Vec::new();
    let len = rev.len();
    let mut j: usize = 0;
    while j < len
        invariant
            len == rev@.len(),
            j <= len,
            out@ == reversed(rev@).take(j as int),
        decreases len - j,
    {
        out.push(rev[len - 1 - j]);
        assert(out@ =~= reversed(rev@).take(j + 1));
        j = j + 1;
    }
    assert(out@ =~= uint_bytes(n as nat));
    proof {
        lemma_uint_round_trip(n as nat);
        lemma_pow256_values();
        lemma_uint_bytes_len(n as nat, 8);
    }
    out
}

/// The number that up to eight big-endian bytes stand for; zero for none.
pub fn bytes_to_value(bytes: &[u8]) -> (r: u64)
    requires
        bytes@.len() <= 8,
    ensures
        r == uint_value(bytes@),
{
    let mut value: u64 = 0;
    let mut i: usize = 0;
    proof {
        lemma_pow256_values();
    }
    while i < bytes.len()
        invariant
            i <= bytes@.len() <= 8,
            value == uint_value(bytes@.take(i as int)),
            pow256(8) == 0x1_0000_0000_0000_0000,
        decreases bytes@.len() - i,
    {
        proof {
            assert(bytes@.take(i + 1).drop_last() =~= bytes@.take(i as int));
            lemma_uint_value_bound(bytes@.take(i + 1));
            lemma_pow256_mono((i + 1) as nat, 8);
        }
        value = value * 256 + bytes[i] as u64;
        i = i + 1;
    }
    assert(bytes@.take(i as int) =~= bytes@);
    value
}

proof fn lemma_pow256_mono(a: nat, b: nat)
    requires
        a <= b,
    ensures
        pow256(a) <= pow256(b),
    decreases b,
{
    if a < b {
        lemma_pow256_mono(a, (b - 1) as nat);
    }
}

} // verus!
