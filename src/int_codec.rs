//! Unsigned integers as decimal text, one per datagram: the codec of the
//! doubling echo service.
use vstd::prelude::*;
use crate::uint::reversed;

verus! {

/// The digits of `s`: `s` without one leading `+`.
pub open spec fn digits_of(s: Seq<u8>) -> Seq<u8> {
    if s.len() > 0 && s[0] == 43 {
        s.drop_first()
    } else {
        s
    }
}

pub open spec fn all_digits(d: Seq<u8>) -> bool {
    forall|i: int| 0 <= i < d.len() ==> 48 <= #[trigger] d[i] <= 57
}

/// The number that the decimal digits `d` stand for.
pub open spec fn decimal_value(d: Seq<u8>) -> nat
    decreases d.len(),
{
    if d.len() == 0 {
        0
    } else {
        (decimal_value(d.drop_last()) * 10 + (d.last() - 48)) as nat
    }
}

/// The text of a `u64`: an optional `+`, then at least one decimal digit, of a
/// value that fits in 64 bits.
pub open spec fn is_u64_text(s: Seq<u8>) -> bool {
    let d = digits_of(s);
    d.len() > 0 && all_digits(d) && decimal_value(d) <= u64::MAX
}

/// The decimal digits of `n`, without leading zeros.
pub open spec fn decimal_text(n: nat) -> Seq<u8>
    decreases n,
{
    if n < 10 {
        seq![(48 + n) as u8]
    } else {
        decimal_text(n / 10).push((48 + n % 10) as u8)
    }
}

proof fn lemma_decimal_prefix(d: Seq<u8>, k: int)
    requires
        all_digits(d),
        0 <= k <= d.len(),
    ensures
        decimal_value(d.take(k)) <= decimal_value(d),
    decreases d.len(),
{
    if k < d.len() {
        assert(d.drop_last().take(k) =~= d.take(k));
        assert(all_digits(d.drop_last())) by {
            assert forall|i: int| 0 <= i < d.drop_last().len() implies 48 <= #[trigger] d.drop_last()[i] <= 57 by {
                assert(d.drop_last()[i] == d[i]);
            }
        }
        lemma_decimal_prefix(d.drop_last(), k);
        assert(d.last() >= 48);
    } else {
        assert(d.take(k) =~= d);
    }
}

/// Reads a `u64` written in decimal, as `str::parse` reads it: an optional
/// `+` and at least one digit, of a value that fits.
pub fn parse_u64(buf: &[u8]) -> (r: Option<u64>)
    ensures
        r is Some <==> is_u64_text(buf@),
        r is Some ==> r->Some_0 == decimal_value(digits_of(buf@)),
{
    let start: usize = if buf.len() > 0 && buf[0] == 43 { 1 } else { 0 };
    let ghost d = digits_of(buf@);
    assert(d =~= buf@.skip(start as int));
    if buf.len() == start {
        return None;
    }
    let mut value: u64 = 0;
    let mut i: usize = start;
    while i < buf.len()
        invariant
            start <= i <= buf@.len(),
            d == buf@.skip(start as int),
            d == digits_of(buf@),
            value == decimal_value(d.take(i - start)),
            all_digits(d.take(i - start)),
        decreases buf@.len() - i,
    {
        let c = buf[i];
        assert(d[i - start] == c);
        if c < 48 || c > 57 {
            assert(!all_digits(d)) by {
                assert(!(48 <= d[i - start] <= 57));
            }
            return None;
        }
        let digit = (c - 48) as u64;
        assert(d.take(i + 1 - start).drop_last() =~= d.take(i - start));
        assert(decimal_value(d.take(i + 1 - start)) == value * 10 + digit);
        if value > (u64::MAX - digit) / 10 {
            proof {
                assert(value * 10 + digit > u64::MAX) by (nonlinear_arith)
                    requires value > (u64::MAX - digit) / 10, digit <= 9;
                if all_digits(d) {
                    lemma_decimal_prefix(d, i + 1 - start);
                }
            }
            return None;
        }
        assert(value * 10 + digit <= u64::MAX) by (nonlinear_arith)
            requires value <= (u64::MAX - digit) / 10, digit <= 9;
        value = value * 10 + digit;
        i = i + 1;
    }
    assert(d.take(i - start) =~= d);
    Some(value)
}

/// The decimal text of `n`.
fn decimal_bytes(n: u64) -> (r: Vec<u8>)
    ensures
        r@ == decimal_text(n as nat),
{
    let mut rev: Vec<u8> = Vec::new();
    let mut m: u64 = n;
    rev.push((48 + m % 10) as u8);
    assert(decimal_text(n as nat) =~= decimal_text((m / 10) as nat).push((48 + m % 10) as u8)
        || m < 10);
    m = m / 10;
    assert(n < 10 ==> decimal_text(n as nat) =~= reversed(rev@));
    assert(n >= 10 ==> decimal_text(n as nat) =~= decimal_text(m as nat) + reversed(rev@));
    while m != 0
        invariant
            n >= 10 || m == 0,
            m != 0 ==> decimal_text(n as nat) == decimal_text(m as nat) + reversed(rev@),
            m == 0 ==> decimal_text(n as nat) == reversed(rev@),
        decreases m,
    {
        let ghost old_rev = rev@;
        rev.push((48 + m % 10) as u8);
        assert(reversed(rev@) =~= seq![(48 + m % 10) as u8] + reversed(old_rev));
        if m < 10 {
            assert(decimal_text(m as nat) =~= seq![(48 + m) as u8]);
            assert(decimal_text(n as nat) =~= reversed(rev@));
        } else {
            assert(decimal_text(m as nat) =~= decimal_text((m / 10) as nat).push((48 + m % 10) as u8));
            assert(decimal_text(n as nat) =~= decimal_text((m / 10) as nat) + reversed(rev@));
        }
        m = m / 10;
    }
    let mut out: Vec<u8> = Vec::new();
    let len = rev.len();
    let mut j: usize = 0;
    while j < len
        invariant
            len == rev@.len(),
            j <= len,
            out@ == reversed(rev@).take(j as int),
        decreases len - j,
    {
        out.push(rev[len - 1 - j]);
        assert(out@ =~= reversed(rev@).take(j + 1));
        j = j + 1;
    }
    assert(out@ =~= reversed(rev@));
    out
}

/// Frames one decimal number per datagram.
pub struct IntCodec;

impl IntCodec {
    /// The number in the datagram, or `None` when it is not the text of a `u64`.
    pub fn decode(&mut self, buf: &[u8]) -> (r: Option<u64>)
        ensures
            r is Some <==> is_u64_text(buf@),
            r is Some ==> r->Some_0 == decimal_value(digits_of(buf@)),
    {
        parse_u64(buf)
    }

    /// Appends the decimal text of `num` and a newline to `into`.
    pub fn encode(&mut self, num: u64, into: &mut Vec<u8>)
        ensures
            final(into)@ == old(into)@ + decimal_text(num as nat).push(10u8),
    {
        let text = decimal_bytes(num);
        let ghost start = into@;
        let mut i: usize = 0;
        while i < text.len()
            invariant
                i <= text@.len(),
                into@ == start + text@.take(i as int),
            decreases text@.len() - i,
        {
            into.push(text[i]);
            assert(into@ =~= start + text@.take(i + 1));
            i = i + 1;
        }
        into.push(10);
        assert(into@ =~= start + decimal_text(num as nat).push(10u8));
    }
}

} // verus!
