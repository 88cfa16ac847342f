//! The CoAP frame as mathematics: what a message encodes to, how bytes parse,
//! and the proofs that the two are inverse on every valid message.
use vstd::prelude::*;
use crate::message::Mtype;

verus! {

/// One option as it stands on the wire: its number and its raw value.
pub type OptionEntry = (u16, Seq<u8>);

/// A message in mathematical form. The code is kept as its byte, so that
/// every code value round-trips.
pub struct MessageView {
    pub version: u8,
    pub mtype: Mtype,
    pub code: u8,
    pub mid: u16,
    pub token: Seq<u8>,
    pub options: Seq<OptionEntry>,
    pub payload: Seq<u8>,
}

/// Options are listed in non-decreasing order of number.
pub open spec fn options_sorted(o: Seq<OptionEntry>) -> bool {
    forall|i: int, j: int| 0 <= i < j < o.len() ==> o[i].0 <= o[j].0
}

/// Every option number is at most 65000 and every value shorter than 65000 bytes.
pub open spec fn options_in_bounds(o: Seq<OptionEntry>) -> bool {
    forall|i: int| 0 <= i < o.len() ==> o[i].0 <= 65000 && o[i].1.len() < 65000
}

/// What the encoder accepts: version 1, a token of at most eight bytes,
/// options in order and within bounds.
pub open spec fn encodable(m: MessageView) -> bool {
    &&& m.version == 1
    &&& m.token.len() <= 8
    &&& options_sorted(m.options)
    &&& options_in_bounds(m.options)
}

/// The 4-bit field that stands for `v` in an option header.
pub open spec fn nibble(v: nat) -> nat {
    if v < 13 {
        v
    } else if v < 269 {
        13
    } else {
        14
    }
}

/// The extension bytes that follow the header byte for value `v`.
pub open spec fn ext_bytes(v: nat) -> Seq<u8> {
    if v < 13 {
        seq![]
    } else if v < 269 {
        seq![(v - 13) as u8]
    } else {
        seq![((v - 269) / 256) as u8, ((v - 269) % 256) as u8]
    }
}

/// How many extension bytes a header nibble announces.
pub open spec fn nibble_ext_len(n: nat) -> nat {
    if n < 13 {
        0
    } else if n == 13 {
        1
    } else {
        2
    }
}

/// The value that a header nibble and its extension bytes stand for.
pub open spec fn ext_value(n: nat, e: Seq<u8>) -> nat {
    if n < 13 {
        n
    } else if n == 13 {
        (e[0] + 13) as nat
    } else {
        (e[0] * 256 + e[1] + 269) as nat
    }
}

/// The header of an option whose number is `delta` above the previous one
/// and whose value is `len` bytes long.
pub open spec fn option_header(delta: nat, len: nat) -> Seq<u8> {
    seq![(nibble(delta) * 16 + nibble(len)) as u8] + ext_bytes(delta) + ext_bytes(len)
}

/// The options, delta-encoded against the previous number `prev`.
pub open spec fn encode_options(o: Seq<OptionEntry>, prev: nat) -> Seq<u8>
    decreases o.len(),
{
    if o.len() == 0 {
        seq![]
    } else {
        option_header((o[0].0 - prev) as nat, o[0].1.len()) + o[0].1 + encode_options(
            o.drop_first(),
            o[0].0 as nat,
        )
    }
}

/// The payload marker and the payload, or nothing for an empty payload.
pub open spec fn payload_part(p: Seq<u8>) -> Seq<u8> {
    if p.len() == 0 {
        seq![]
    } else {
        seq![0xFFu8] + p
    }
}

/// The bytes of a message.
pub open spec fn encode_message(m: MessageView) -> Seq<u8> {
    seq![
        (m.version * 64 + m.mtype.spec_as_u8() * 16 + m.token.len()) as u8,
        m.code,
        (m.mid / 256) as u8,
        (m.mid % 256) as u8,
    ] + m.token + encode_options(m.options, 0) + payload_part(m.payload)
}

/// Parses the options and the payload that follow the token, where the last
/// option number read was `prev`.
pub open spec fn parse_options(b: Seq<u8>, prev: nat) -> Option<(Seq<OptionEntry>, Seq<u8>)>
    decreases b.len(),
{
    if b.len() == 0 {
        Some((seq![], seq![]))
    } else if b[0] == 0xFF {
        if b.len() == 1 {
            None
        } else {
            Some((seq![], b.drop_first()))
        }
    } else {
        let dn = (b[0] / 16) as nat;
        let ln = (b[0] % 16) as nat;
        let dl = nibble_ext_len(dn);
        let ll = nibble_ext_len(ln);
        let h = 1 + dl + ll;
        if dn == 15 || ln == 15 || b.len() < h {
            None
        } else {
            let num = prev + ext_value(dn, b.subrange(1, (1 + dl) as int));
            let l = ext_value(ln, b.subrange((1 + dl) as int, h as int));
            if l >= 65000 || num > 65000 || b.len() < h + l {
                None
            } else {
                match parse_options(b.skip((h + l) as int), num) {
                    None => None,
                    Some((o, p)) => Some(
                        (seq![(num as u16, b.subrange(h as int, (h + l) as int))] + o, p),
                    ),
                }
            }
        }
    }
}

/// Parses a whole datagram.
pub open spec fn parse_message(b: Seq<u8>) -> Option<MessageView> {
    if b.len() < 4 || b[0] / 64 != 1 || b[0] % 16 > 8 || b.len() < 4 + b[0] % 16 {
        None
    } else {
        let tkl = (b[0] % 16) as int;
        match parse_options(b.skip(4 + tkl), 0) {
            None => None,
            Some((o, p)) => Some(
                MessageView {
                    version: 1,
                    mtype: Mtype::spec_from_u8(b[0] / 16),
                    code: b[1],
                    mid: (b[2] * 256 + b[3]) as u16,
                    token: b.subrange(4, 4 + tkl),
                    options: o,
                    payload: p,
                },
            ),
        }
    }
}

proof fn lemma_ext_round_trip(v: nat, tail: Seq<u8>)
    requires
        v < 65805,
    ensures
        nibble(v) < 15,
        nibble_ext_len(nibble(v)) == ext_bytes(v).len(),
        ext_value(nibble(v), (ext_bytes(v) + tail).subrange(0, ext_bytes(v).len() as int)) == v,
{
    let e = ext_bytes(v) + tail;
    assert(e.subrange(0, ext_bytes(v).len() as int) =~= ext_bytes(v));
    if v >= 269 {
        let w = (v - 269) as nat;
        assert(w / 256 < 256 && w == (w / 256) * 256 + w % 256) by (nonlinear_arith)
            requires w < 65536;
    }
}

proof fn lemma_ext_inverse(n: nat, e: Seq<u8>)
    requires
        n < 15,
        e.len() == nibble_ext_len(n),
    ensures
        ext_value(n, e) < 65805,
        nibble(ext_value(n, e)) == n,
        ext_bytes(ext_value(n, e)) =~= e,
{
    if n == 14 {
        let w = e[0] * 256 + e[1];
        assert(w / 256 == e[0] && w % 256 == e[1] && w < 65536) by (nonlinear_arith)
            requires w == e[0] * 256 + e[1], e[0] < 256, e[1] < 256;
    }
}

proof fn lemma_header_byte(dn: nat, ln: nat)
    requires
        dn < 15,
        ln < 15,
    ensures
        (dn * 16 + ln) < 255,
        ((dn * 16 + ln) as u8) / 16 == dn,
        ((dn * 16 + ln) as u8) % 16 == ln,
{
    assert((dn * 16 + ln) < 255 && (dn * 16 + ln) / 16 == dn && (dn * 16 + ln) % 16 == ln)
        by (nonlinear_arith)
        requires dn < 15, ln < 15;
}

/// Options in order and within bounds, encoded against `prev` and followed by
/// the payload part, parse back to the same options and payload.
#[verifier::rlimit(100)]
#[verifier::spinoff_prover]
pub proof fn lemma_parse_encode_options(o: Seq<OptionEntry>, prev: nat, p: Seq<u8>)
    requires
        options_sorted(o),
        options_in_bounds(o),
        forall|i: int| 0 <= i < o.len() ==> prev <= o[i].0,
    ensures
        parse_options(encode_options(o, prev) + payload_part(p), prev) == Some((o, p)),
    decreases o.len(),
{
    let b = encode_options(o, prev) + payload_part(p);
    if o.len() == 0 {
        assert(b =~= payload_part(p));
        if p.len() > 0 {
            assert(b.drop_first() =~= p);
        }
    } else {
        let n0 = o[0].0 as nat;
        let v = o[0].1;
        let d = (n0 - prev) as nat;
        let l = v.len();
        let rest = encode_options(o.drop_first(), n0) + payload_part(p);
        assert(o.drop_first().len() < o.len());
        assert forall|i: int| 0 <= i < o.drop_first().len() implies n0 <= #[trigger] o.drop_first()[i].0 by {
            assert(o.drop_first()[i] == o[i + 1]);
        }
        assert forall|i: int, j: int| 0 <= i < j < o.drop_first().len() implies #[trigger] o.drop_first()[i].0 <= #[trigger] o.drop_first()[j].0 by {
            assert(o.drop_first()[i] == o[i + 1]);
            assert(o.drop_first()[j] == o[j + 1]);
        }
        assert forall|i: int| 0 <= i < o.drop_first().len() implies #[trigger] o.drop_first()[i].0 <= 65000 && o.drop_first()[i].1.len() < 65000 by {
            assert(o.drop_first()[i] == o[i + 1]);
        }
        lemma_parse_encode_options(o.drop_first(), n0, p);
        let ed = ext_bytes(d);
        let el = ext_bytes(l);
        lemma_ext_round_trip(d, el + v + rest);
        lemma_ext_round_trip(l, v + rest);
        lemma_header_byte(nibble(d), nibble(l));
        assert(b =~= seq![(nibble(d) * 16 + nibble(l)) as u8] + ed + el + v + rest);
        let h = 1 + ed.len() + el.len();
        assert(b[0] == (nibble(d) * 16 + nibble(l)) as u8);
        assert(b.subrange(1, (1 + ed.len()) as int) =~= (ed + (el + v + rest)).subrange(0, ed.len() as int));
        assert(b.subrange((1 + ed.len()) as int, h as int) =~= (el + (v + rest)).subrange(0, el.len() as int));
        assert(b.subrange(h as int, (h + l) as int) =~= v);
        assert(b.skip((h + l) as int) =~= rest);
        assert(seq![(n0 as u16, v)] + o.drop_first() =~= o);
    }
}

/// Whatever parses re-encodes to exactly the bytes it came from, and its
/// options are in order and within bounds.
#[verifier::rlimit(100)]
#[verifier::spinoff_prover]
pub proof fn lemma_encode_parse_options(b: Seq<u8>, prev: nat)
    requires
        parse_options(b, prev) is Some,
    ensures
        ({
            let (o, p) = parse_options(b, prev)->Some_0;
            &&& options_sorted(o)
            &&& options_in_bounds(o)
            &&& forall|i: int| 0 <= i < o.len() ==> prev <= o[i].0
            &&& encode_options(o, prev) + payload_part(p) == b
        }),
    decreases b.len(),
{
    let (o, p) = parse_options(b, prev)->Some_0;
    if b.len() == 0 {
        assert(encode_options(o, prev) + payload_part(p) =~= b);
    } else if b[0] == 0xFF {
        assert(encode_options(o, prev) + payload_part(p) =~= b);
    } else {
        let dn = (b[0] / 16) as nat;
        let ln = (b[0] % 16) as nat;
        let dl = nibble_ext_len(dn);
        let ll = nibble_ext_len(ln);
        let h = 1 + dl + ll;
        let de = b.subrange(1, (1 + dl) as int);
        let le = b.subrange((1 + dl) as int, h as int);
        let d = ext_value(dn, de);
        let num = prev + d;
        let l = ext_value(ln, le);
        let rest = b.skip((h + l) as int);
        lemma_encode_parse_options(rest, num);
        let (later, later_payload) = parse_options(rest, num)->Some_0;
        let v = b.subrange(h as int, (h + l) as int);
        assert(o == seq![(num as u16, v)] + later);
        assert(p == later_payload);
        lemma_ext_inverse(dn, de);
        lemma_ext_inverse(ln, le);
        assert(b[0] == dn * 16 + ln) by (nonlinear_arith)
            requires dn == b[0] / 16, ln == b[0] % 16;
        assert(o[0] == (num as u16, v));
        assert(o.drop_first() =~= later);
        assert(option_header(d, l) =~= b.subrange(0, h as int));
        assert(encode_options(o, prev) =~= option_header(d, l) + v + encode_options(later, num));
        assert(encode_options(o, prev) + payload_part(p) =~= b.subrange(0, h as int) + v + rest);
        assert(b =~= b.subrange(0, h as int) + v + rest);
        assert forall|i: int, j: int| 0 <= i < j < o.len() implies #[trigger] o[i].0 <= #[trigger] o[j].0 by {
            if i > 0 {
                assert(o[i] == later[i - 1]);
            }
            assert(o[j] == later[j - 1]);
        }
        assert forall|i: int| 0 <= i < o.len() implies prev <= #[trigger] o[i].0 && o[i].0 <= 65000 && o[i].1.len() < 65000 by {
            if i > 0 {
                assert(o[i] == later[i - 1]);
            }
        }
    }
}

proof fn lemma_first_byte(version: nat, mt: nat, tkl: nat)
    requires
        version == 1,
        mt < 4,
        tkl <= 8,
    ensures
        version * 64 + mt * 16 + tkl < 256,
        ((version * 64 + mt * 16 + tkl) as u8) / 64 == 1,
        ((version * 64 + mt * 16 + tkl) as u8) % 16 == tkl,
        (((version * 64 + mt * 16 + tkl) as u8) / 16) % 4 == mt,
{
    assert(64 + mt * 16 + tkl < 256 && (64 + mt * 16 + tkl) / 64 == 1 && (64 + mt * 16 + tkl) % 16
        == tkl && ((64 + mt * 16 + tkl) / 16) % 4 == mt) by (nonlinear_arith)
        requires mt < 4, tkl <= 8;
}

/// Decoding the encoding of any encodable message gives that message back.
#[verifier::rlimit(80)]
#[verifier::spinoff_prover]
pub proof fn lemma_decode_encode(m: MessageView)
    requires
        encodable(m),
    ensures
        parse_message(encode_message(m)) == Some(m),
{
    let b = encode_message(m);
    let tkl = m.token.len();
    let mt = m.mtype.spec_as_u8() as nat;
    lemma_first_byte(m.version as nat, mt, tkl);
    let mid = m.mid as nat;
    assert((mid / 256) * 256 + mid % 256 == mid && mid / 256 < 256) by (nonlinear_arith)
        requires mid < 65536;
    assert forall|i: int| 0 <= i < m.options.len() implies 0 <= #[trigger] m.options[i].0 by {}
    lemma_parse_encode_options(m.options, 0, m.payload);
    assert(b.skip(4 + tkl as int) =~= encode_options(m.options, 0) + payload_part(m.payload));
    assert(b.subrange(4, 4 + tkl as int) =~= m.token);
    assert(Mtype::spec_from_u8(b[0] / 16) == m.mtype);
}

/// Every datagram that decodes is the exact encoding of the message it
/// decodes to; so encoding that message and decoding again gives it back.
#[verifier::rlimit(80)]
#[verifier::spinoff_prover]
pub proof fn lemma_encode_decode(b: Seq<u8>)
    requires
        parse_message(b) is Some,
    ensures
        encodable(parse_message(b)->Some_0),
        encode_message(parse_message(b)->Some_0) == b,
        parse_message(encode_message(parse_message(b)->Some_0)) == parse_message(b),
{
    let m = parse_message(b)->Some_0;
    let tkl = (b[0] % 16) as int;
    lemma_encode_parse_options(b.skip(4 + tkl), 0);
    let x = b[0] as nat;
    assert(x == 64 + ((x / 16) % 4) * 16 + x % 16) by (nonlinear_arith)
        requires x / 64 == 1, x < 256;
    let y = (b[2] * 256 + b[3]) as nat;
    assert(y < 65536 && y / 256 == b[2] && y % 256 == b[3]) by (nonlinear_arith)
        requires y == b[2] * 256 + b[3], b[2] < 256, b[3] < 256;
    assert(m.mtype.spec_as_u8() == (b[0] / 16) % 4);
    let head = seq![
        (m.version * 64 + m.mtype.spec_as_u8() * 16 + m.token.len()) as u8,
        m.code,
        (m.mid / 256) as u8,
        (m.mid % 256) as u8,
    ];
    assert(head =~= b.subrange(0, 4));
    assert(b =~= b.subrange(0, 4) + m.token + b.skip(4 + tkl));
    assert(encode_message(m) =~= head + m.token + (encode_options(m.options, 0) + payload_part(
        m.payload,
    )));
    lemma_decode_encode(m);
}

} // verus!
