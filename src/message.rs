use vstd::prelude::*;
use crate::options::{Options, insert_sorted};
use crate::token::Token;
use crate::wire::{
    MessageView, encodable, encode_message, encode_options, ext_bytes, ext_value, nibble,
    nibble_ext_len, option_header, options_in_bounds, options_sorted, parse_message, parse_options,
    payload_part,
};

verus! {

/// The four CoAP message types, carried in two bits of the first header byte.
#[derive(PartialEq, Eq, Structural, Clone, Copy, Debug)]
pub enum Mtype {
    Confirmable,
    NonConfirmable,
    Acknowledgement,
    Reset,
}

impl Mtype {
    /// The two-bit wire value of this type.
    pub open spec fn spec_as_u8(self) -> u8 {
        match self {
            Mtype::Confirmable => 0,
            Mtype::NonConfirmable => 1,
            Mtype::Acknowledgement => 2,
            Mtype::Reset => 3,
        }
    }

    /// The type whose wire value is the low two bits of `raw`.
    pub open spec fn spec_from_u8(raw: u8) -> Mtype {
        let v = raw % 4;
        if v == 0 {
            Mtype::Confirmable
        } else if v == 1 {
            Mtype::NonConfirmable
        } else if v == 2 {
            Mtype::Acknowledgement
        } else {
            Mtype::Reset
        }
    }

    /// Reads the type from the low two bits of `raw_mtype`.
    pub fn from_u8(raw_mtype: u8) -> (r: Mtype)
        ensures
            r == Mtype::spec_from_u8(raw_mtype),
            r.spec_as_u8() == raw_mtype % 4,
    {
        let v = raw_mtype % 4;
        if v == 0 {
            Mtype::Confirmable
        } else if v == 1 {
            Mtype::NonConfirmable
        } else if v == 2 {
            Mtype::Acknowledgement
        } else {
            Mtype::Reset
        }
    }

    pub fn as_u8(&self) -> (r: u8)
        ensures
            r == self.spec_as_u8(),
            r < 4,
            Mtype::spec_from_u8(r) == *self,
    {
        match *self {
            Mtype::Confirmable => 0,
            Mtype::NonConfirmable => 1,
            Mtype::Acknowledgement => 2,
            Mtype::Reset => 3,
        }
    }
}

/// A message code: a 3-bit class and a 5-bit detail. Every byte that names no
/// registered code is kept verbatim as `Unknown`.
#[derive(PartialEq, Eq, Structural, Clone, Copy, Debug)]
pub enum Code {
    Empty,
    Get,
    Post,
    Put,
    Delete,
    Created,
    Deleted,
    Valid,
    Changed,
    Content,
    BadRequest,
    Unauthorized,
    BadOption,
    Forbidden,
    NotFound,
    MethodNotAllowed,
    NotAcceptable,
    PreconditionFailed,
    RequestEntityTooLarge,
    UnsupportedContentFormat,
    InternalServerError,
    NotImplemented,
    BadGateway,
    ServiceUnavailable,
    GatewayTimeout,
    ProxyingNotSupported,
    Unknown(u8),
}

/// The code byte of class `class` and detail `detail`.
pub open spec fn code_byte(class: u8, detail: u8) -> u8 {
    ((class % 8) * 32 + detail % 32) as u8
}

/// Reading a code byte and writing the code back gives the same byte.
pub proof fn lemma_code_byte_round_trip(raw: u8)
    ensures
        Code::spec_from_u8(raw).spec_as_u8() == raw,
{
    let c = Code::spec_from_u8(raw);
    if raw <= 4 || 65 <= raw <= 69 || 128 <= raw <= 134 || 140 <= raw <= 141 || raw == 143 || 160 <= raw <= 165 {
        assert(c.spec_as_u8() == raw);
    } else {
        assert(c == Code::Unknown(raw));
    }
}

impl Code {
    /// The byte that this code is written as.
    pub open spec fn spec_as_u8(self) -> u8 {
        match self {
            Code::Empty => 0,
            Code::Get => 1,
            Code::Post => 2,
            Code::Put => 3,
            Code::Delete => 4,
            Code::Created => 65,
            Code::Deleted => 66,
            Code::Valid => 67,
            Code::Changed => 68,
            Code::Content => 69,
            Code::BadRequest => 128,
            Code::Unauthorized => 129,
            Code::BadOption => 130,
            Code::Forbidden => 131,
            Code::NotFound => 132,
            Code::MethodNotAllowed => 133,
            Code::NotAcceptable => 134,
            Code::PreconditionFailed => 140,
            Code::RequestEntityTooLarge => 141,
            Code::UnsupportedContentFormat => 143,
            Code::InternalServerError => 160,
            Code::NotImplemented => 161,
            Code::BadGateway => 162,
            Code::ServiceUnavailable => 163,
            Code::GatewayTimeout => 164,
            Code::ProxyingNotSupported => 165,
            Code::Unknown(code) => code,
        }
    }

    /// The registered code written as `raw`, or `Unknown(raw)`.
    pub open spec fn spec_from_u8(raw: u8) -> Code {
        if raw == 0 { Code::Empty }
        else if raw == 1 { Code::Get }
        else if raw == 2 { Code::Post }
        else if raw == 3 { Code::Put }
        else if raw == 4 { Code::Delete }
        else if raw == 65 { Code::Created }
        else if raw == 66 { Code::Deleted }
        else if raw == 67 { Code::Valid }
        else if raw == 68 { Code::Changed }
        else if raw == 69 { Code::Content }
        else if raw == 128 { Code::BadRequest }
        else if raw == 129 { Code::Unauthorized }
        else if raw == 130 { Code::BadOption }
        else if raw == 131 { Code::Forbidden }
        else if raw == 132 { Code::NotFound }
        else if raw == 133 { Code::MethodNotAllowed }
        else if raw == 134 { Code::NotAcceptable }
        else if raw == 140 { Code::PreconditionFailed }
        else if raw == 141 { Code::RequestEntityTooLarge }
        else if raw == 143 { Code::UnsupportedContentFormat }
        else if raw == 160 { Code::InternalServerError }
        else if raw == 161 { Code::NotImplemented }
        else if raw == 162 { Code::BadGateway }
        else if raw == 163 { Code::ServiceUnavailable }
        else if raw == 164 { Code::GatewayTimeout }
        else if raw == 165 { Code::ProxyingNotSupported }
        else { Code::Unknown(raw) }
    }

    pub fn from_u8(raw_code: u8) -> (r: Code)
        ensures
            r == Code::spec_from_u8(raw_code),
            r.spec_as_u8() == raw_code,
    {
        proof {
            lemma_code_byte_round_trip(raw_code);
        }
        match raw_code {
            0 => Code::Empty,
            1 => Code::Get,
            2 => Code::Post,
            3 => Code::Put,
            4 => Code::Delete,
            65 => Code::Created,
            66 => Code::Deleted,
            67 => Code::Valid,
            68 => Code::Changed,
            69 => Code::Content,
            128 => Code::BadRequest,
            129 => Code::Unauthorized,
            130 => Code::BadOption,
            131 => Code::Forbidden,
            132 => Code::NotFound,
            133 => Code::MethodNotAllowed,
            134 => Code::NotAcceptable,
            140 => Code::PreconditionFailed,
            141 => Code::RequestEntityTooLarge,
            143 => Code::UnsupportedContentFormat,
            160 => Code::InternalServerError,
            161 => Code::NotImplemented,
            162 => Code::BadGateway,
            163 => Code::ServiceUnavailable,
            164 => Code::GatewayTimeout,
            165 => Code::ProxyingNotSupported,
            _ => Code::Unknown(raw_code),
        }
    }

    pub fn as_u8(&self) -> (r: u8)
        ensures
            r == self.spec_as_u8(),
    {
        match *self {
            Code::Empty => Self::build(0, 0),
            Code::Get => Self::build(0, 1),
            Code::Post => Self::build(0, 2),
            Code::Put => Self::build(0, 3),
            Code::Delete => Self::build(0, 4),
            Code::Created => Self::build(2, 1),
            Code::Deleted => Self::build(2, 2),
            Code::Valid => Self::build(2, 3),
            Code::Changed => Self::build(2, 4),
            Code::Content => Self::build(2, 5),
            Code::BadRequest => Self::build(4, 0),
            Code::Unauthorized => Self::build(4, 1),
            Code::BadOption => Self::build(4, 2),
            Code::Forbidden => Self::build(4, 3),
            Code::NotFound => Self::build(4, 4),
            Code::MethodNotAllowed => Self::build(4, 5),
            Code::NotAcceptable => Self::build(4, 6),
            Code::PreconditionFailed => Self::build(4, 12),
            Code::RequestEntityTooLarge => Self::build(4, 13),
            Code::UnsupportedContentFormat => Self::build(4, 15),
            Code::InternalServerError => Self::build(5, 0),
            Code::NotImplemented => Self::build(5, 1),
            Code::BadGateway => Self::build(5, 2),
            Code::ServiceUnavailable => Self::build(5, 3),
            Code::GatewayTimeout => Self::build(5, 4),
            Code::ProxyingNotSupported => Self::build(5, 5),
            Code::Unknown(code) => code,
        }
    }

    /// Packs a class (low 3 bits kept) and a detail (low 5 bits kept) into a code byte.
    pub fn build(class: u8, detail: u8) -> (r: u8)
        ensures
            r == code_byte(class, detail),
    {
        (class % 8) * 32 + detail % 32
    }

    /// The class: the top three bits of the code byte.
    pub fn class(&self) -> (r: u8)
        ensures
            r == self.spec_as_u8() / 32,
    {
        self.as_u8() / 32
    }

    /// The detail: the low five bits of the code byte.
    pub fn detail(&self) -> (r: u8)
        ensures
            r == self.spec_as_u8() % 32,
    {
        self.as_u8() % 32
    }
}

/// Why a message could not be encoded or decoded.
#[derive(PartialEq, Eq, Structural, Clone, Copy, Debug)]
pub enum Error {
    /// The bytes, or the message, do not follow the frame grammar.
    MessageFormat,
    InvalidToken,
    InvalidOptionNumber,
    UnrecognizedCriticalOption,
}

/// A CoAP message.
#[derive(PartialEq, Eq, Debug)]
pub struct Message {
    pub version: u8,
    pub mtype: Mtype,
    pub code: Code,
    pub mid: u16,
    pub token: Token,
    pub options: Options,
    pub payload: Vec<u8>,
}

impl View for Message {
    type V = MessageView;

    open spec fn view(&self) -> MessageView {
        MessageView {
            version: self.version,
            mtype: self.mtype,
            code: self.code.spec_as_u8(),
            mid: self.mid,
            token: self.token@,
            options: self.options@,
            payload: self.payload@,
        }
    }
}

/// The header nibble for `v` and the extension bytes that follow it.
fn ext_field(v: usize) -> (r: (u8, Vec<u8>))
    requires
        v < 65805,
    ensures
        r.0 == nibble(v as nat),
        r.1@ == ext_bytes(v as nat),
{
    let mut e: Vec<u8> = Vec::new();
    if v < 13 {
        (v as u8, e)
    } else if v < 269 {
        e.push((v - 13) as u8);
        assert(e@ =~= ext_bytes(v as nat));
        (13, e)
    } else {
        e.push(((v - 269) / 256) as u8);
        e.push(((v - 269) % 256) as u8);
        assert(e@ =~= ext_bytes(v as nat));
        (14, e)
    }
}

/// Appends the bytes of `src` to `dst`.
fn append_bytes(dst: &mut Vec<u8>, src: &[u8])
    ensures
        final(dst)@ == old(dst)@ + src@,
{
    let mut i: usize = 0;
    while i < src.len()
        invariant
            i <= src.len(),
            dst@ == old(dst)@ + src@.take(i as int),
        decreases src.len() - i,
    {
        dst.push(src[i]);
        assert(src@.take(i + 1) =~= src@.take(i as int).push(src[i as int]));
        assert(dst@ =~= old(dst)@ + src@.take(i + 1));
        i = i + 1;
    }
    assert(src@.take(i as int) =~= src@);
}

/// The header of an option numbered `number` whose value is `bytes`, delta-encoded
/// against `*last_option_number`, which then becomes `number`.
pub fn build_header(number: u16, bytes: &[u8], last_option_number: &mut u16) -> (r: Vec<u8>)
    requires
        *old(last_option_number) <= number,
        bytes@.len() < 65000,
    ensures
        r@ == option_header((number - *old(last_option_number)) as nat, bytes@.len()),
        *final(last_option_number) == number,
{
    let delta = number - *last_option_number;
    let (base_delta, ext_delta) = ext_field(delta as usize);
    let (base_length, ext_length) = ext_field(bytes.len());
    assert(base_delta * 16 + base_length < 256) by (nonlinear_arith)
        requires base_delta < 15, base_length < 15;
    let mut header: Vec<u8> = Vec::new();
    header.push(base_delta * 16 + base_length);
    append_bytes(&mut header, ext_delta.as_slice());
    append_bytes(&mut header, ext_length.as_slice());
    assert(header@ =~= option_header(delta as nat, bytes@.len()));
    *last_option_number = number;
    header
}

/// Reads the value that header nibble `n` stands for, with its extension bytes at `at`.
fn read_ext(n: u8, pkt: &[u8], at: usize) -> (r: u32)
    requires
        n < 15,
        at + nibble_ext_len(n as nat) <= pkt@.len(),
    ensures
        r == ext_value(n as nat, pkt@.subrange(at as int, at + nibble_ext_len(n as nat))),
        r < 65805,
{
    if n < 13 {
        n as u32
    } else if n == 13 {
        pkt[at] as u32 + 13
    } else {
        pkt[at] as u32 * 256 + pkt[at + 1] as u32 + 269
    }
}

/// A fresh vector of the bytes `s[lo..hi]`.
fn copy_range(s: &[u8], lo: usize, hi: usize) -> (r: Vec<u8>)
    requires
        lo <= hi <= s@.len(),
    ensures
        r@ == s@.subrange(lo as int, hi as int),
{
    let mut r: Vec<u8> = Vec::new();
    let mut i: usize = lo;
    while i < hi
        invariant
            lo <= i <= hi,
            hi <= s@.len(),
            r@ == s@.subrange(lo as int, i as int),
        decreases hi - i,
    {
        r.push(s[i]);
        assert(r@ =~= s@.subrange(lo as int, i + 1));
        i = i + 1;
    }
    r
}

/// Reads the option that starts at `pkt[i]`, the last number read being `running`:
/// its number, where it ends, and its value.
#[verifier::rlimit(60)]
#[verifier::spinoff_prover]
fn read_option(pkt: &[u8], i: usize, running: u32) -> (r: Option<(u32, usize, Vec<u8>)>)
    requires
        i < pkt@.len(),
        pkt@[i as int] != 0xFF,
        running <= 65000,
    ensures
        r is None ==> parse_options(pkt@.skip(i as int), running as nat) is None,
        r is Some ==> {
            let (number, end, value) = r->Some_0;
            &&& i < end <= pkt@.len()
            &&& running <= number <= 65000
            &&& parse_options(pkt@.skip(i as int), running as nat) == match parse_options(
                pkt@.skip(end as int),
                number as nat,
            ) {
                None => None,
                Some((o, p)) => Some((seq![(number as u16, value@)] + o, p)),
            }
        },
{
    let ghost rest = pkt@.skip(i as int);
    assert(rest[0] == pkt[i as int]);
    let byte = pkt[i];
    let dn = byte / 16;
    let ln = byte % 16;
    if dn == 15 || ln == 15 {
        return None;
    }
    let dl: usize = if dn < 13 { 0 } else if dn == 13 { 1 } else { 2 };
    let ll: usize = if ln < 13 { 0 } else if ln == 13 { 1 } else { 2 };
    let h: usize = 1 + dl + ll;
    if pkt.len() - i < h {
        return None;
    }
    let delta = read_ext(dn, pkt, i + 1);
    let length = read_ext(ln, pkt, i + 1 + dl);
    assert(rest.subrange(1, 1 + dl as int) =~= pkt@.subrange(i + 1, i + 1 + dl));
    assert(rest.subrange(1 + dl as int, h as int) =~= pkt@.subrange(i + 1 + dl, i + 1 + dl + ll));
    let number = running + delta;
    if length >= 65000 || number > 65000 || pkt.len() - i - h < length as usize {
        return None;
    }
    let end = i + h + length as usize;
    let value = copy_range(pkt, i + h, end);
    assert(rest.subrange(h as int, h + length) =~= value@);
    assert(rest.skip(h + length) =~= pkt@.skip(end as int));
    Some((number, end, value))
}

impl Message {
    /// A confirmable GET with version 1, id 0, and no token, options or payload.
    pub fn new() -> (r: Message)
        ensures
            r.version == 1,
            r.mtype == Mtype::Confirmable,
            r.code == Code::Get,
            r.mid == 0,
            r.token@.len() == 0,
            r.options@.len() == 0,
            r.payload@.len() == 0,
    {
        let empty: Vec<u8> = Vec::new();
        Message {
            version: 1,
            mtype: Mtype::Confirmable,
            code: Code::Get,
            mid: 0,
            token: Token::from_slice(empty.as_slice()),
            options: Options::new(),
            payload: Vec::new(),
        }
    }

    /// An acknowledgement with this message's id and token.
    pub fn new_reply(&self) -> (r: Message)
        ensures
            r.version == 1,
            r.mtype == Mtype::Acknowledgement,
            r.code == Code::Get,
            r.mid == self.mid,
            r.token@ == self.token@,
            r.options@.len() == 0,
            r.payload@.len() == 0,
    {
        Self::new().with_token(self.token.as_slice()).with_mid(self.mid).with_mtype(
            Mtype::Acknowledgement,
        )
    }

    pub fn with_mtype(self, mtype: Mtype) -> (r: Message)
        ensures
            r@ == (MessageView { mtype, ..self@ }),
            r.code == self.code,
    {
        let mut m = self;
        m.mtype = mtype;
        m
    }

    pub fn with_code(self, code: Code) -> (r: Message)
        ensures
            r@ == (MessageView { code: code.spec_as_u8(), ..self@ }),
            r.code == code,
    {
        let mut m = self;
        m.code = code;
        m
    }

    pub fn with_mid(self, mid: u16) -> (r: Message)
        ensures
            r@ == (MessageView { mid, ..self@ }),
            r.code == self.code,
    {
        let mut m = self;
        m.mid = mid;
        m
    }

    pub fn with_token(self, token: &[u8]) -> (r: Message)
        ensures
            r@ == (MessageView { token: token@, ..self@ }),
            r.code == self.code,
    {
        let mut m = self;
        m.token = Token::from_slice(token);
        m
    }

    /// Adds an option after those already under its number.
    pub fn with_option(self, option: crate::option::Option) -> (r: Message)
        ensures
            r@ == (MessageView {
                options: insert_sorted(self@.options, (option.spec_number(), option.spec_bytes())),
                ..self@
            }),
            r.code == self.code,
    {
        let mut m = self;
        m.options.push(option);
        m
    }

    pub fn with_payload(self, payload: Vec<u8>) -> (r: Message)
        ensures
            r@ == (MessageView { payload: payload@, ..self@ }),
            r.code == self.code,
    {
        let mut m = self;
        m.payload = payload;
        m
    }

    /// Decodes a datagram. It fails with `MessageFormat` exactly when the bytes do
    /// not follow the frame grammar: a short header, a version other than 1, a
    /// token length above 8 or past the end, a reserved nibble 15 in an option
    /// header, an option that runs past the end, a value of 65000 bytes or more,
    /// an option number above 65000, or a payload marker with nothing after it.
    pub fn from_bytes(pkt: &[u8]) -> (r: Result<Message, Error>)
        ensures
            r is Ok <==> parse_message(pkt@) is Some,
            r is Ok ==> r->Ok_0@ == parse_message(pkt@)->Some_0,
            r is Ok ==> r->Ok_0.code == Code::spec_from_u8(pkt@[1]),
            r is Err ==> r->Err_0 == Error::MessageFormat,
    {
        if pkt.len() < 4 {
            return Err(Error::MessageFormat);
        }
        let version = pkt[0] / 64;
        if version != 1 {
            return Err(Error::MessageFormat);
        }
        let token_length = (pkt[0] % 16) as usize;
        if token_length > 8 || pkt.len() < 4 + token_length {
            return Err(Error::MessageFormat);
        }
        let mtype = Mtype::from_u8(pkt[0] / 16);
        let code = Code::from_u8(pkt[1]);
        let mid: u16 = pkt[2] as u16 * 256 + pkt[3] as u16;
        let ghost b = pkt@;
        let token_bytes = copy_range(pkt, 4, 4 + token_length);
        let token = Token::from_slice(token_bytes.as_slice());
        assert(token@ == b.subrange(4, 4 + token_length as int));
        let start: usize = 4 + token_length;
        let mut i: usize = start;
        let mut running: u32 = 0;
        let mut options = Options::new();
        while i < pkt.len()
            invariant
                start <= i <= pkt@.len(),
                b == pkt@,
                b.len() >= 4,
                start == 4 + token_length,
                token_length == b[0] % 16,
                token_length <= 8,
                b[0] / 64 == 1,
                version == 1,
                mtype == Mtype::spec_from_u8(b[0] / 16),
                code.spec_as_u8() == b[1],
                code == Code::spec_from_u8(b[1]),
                mid == b[2] * 256 + b[3],
                token@ == b.subrange(4, start as int),
                running <= 65000,
                options_sorted(options@),
                forall|j: int| 0 <= j < options@.len() ==> options@[j].0 <= running,
                parse_options(b.skip(start as int), 0) == match parse_options(
                    b.skip(i as int),
                    running as nat,
                ) {
                    None => None,
                    Some((o, p)) => Some((options@ + o, p)),
                },
            decreases pkt@.len() - i,
        {
            let ghost rest = b.skip(i as int);
            assert(rest[0] == pkt[i as int]);
            let byte = pkt[i];
            if byte == 0xFF {
                if i + 1 == pkt.len() {
                    return Err(Error::MessageFormat);
                }
                let payload = copy_range(pkt, i + 1, pkt.len());
                assert(rest.drop_first() =~= payload@);
                assert(options@ + Seq::empty() =~= options@);
                let msg = Message { version, mtype, code, mid, token, options, payload };
                return Ok(msg);
            }
            let next = read_option(pkt, i, running);
            match next {
                None => {
                    return Err(Error::MessageFormat);
                },
                Some((number, end, value)) => {
                    let ghost before = options@;
                    let ghost v = value@;
                    proof {
                        crate::options::lemma_insert_last(before, (number as u16, v));
                        crate::options::lemma_insert_sorted(before, (number as u16, v));
                    }
                    options.push_raw(number as u16, value);
                    assert(options@ == before.push((number as u16, v)));
                    proof {
                        let later = parse_options(b.skip(end as int), number as nat);
                        if later is Some {
                            let (o, p) = later->Some_0;
                            assert(before + (seq![(number as u16, v)] + o) =~= options@ + o);
                        }
                    }
                    running = number;
                    i = end;
                },
            }
        }
        let payload: Vec<u8> = Vec::new();
        assert(b.skip(i as int) =~= Seq::<u8>::empty());
        assert(options@ + Seq::empty() =~= options@);
        assert(payload@ =~= Seq::<u8>::empty());
        Ok(Message { version, mtype, code, mid, token, options, payload })
    }

    /// Encodes the message. It fails with `MessageFormat` exactly when the
    /// version is not 1, the token is longer than eight bytes, an option number
    /// is above 65000, or an option value is 65000 bytes or longer.
    pub fn to_bytes(&self) -> (r: Result<Vec<u8>, Error>)
        ensures
            r is Ok <==> encodable(self@),
            r is Ok ==> r->Ok_0@ == encode_message(self@),
            r is Err ==> r->Err_0 == Error::MessageFormat,
    {
        let ghost m = self@;
        let n = self.options.len();
        if self.version != 1 {
            return Err(Error::MessageFormat);
        }
        let token = self.token.as_slice();
        if token.len() > 8 {
            return Err(Error::MessageFormat);
        }
        let mut k: usize = 0;
        while k < n
            invariant
                k <= n,
                n == m.options.len(),
                m == self@,
                forall|j: int| 0 <= j < k ==> m.options[j].0 <= 65000 && m.options[j].1.len() < 65000,
            decreases n - k,
        {
            let (number, bytes) = self.options.entry(k);
            if number > 65000 || bytes.len() >= 65000 {
                return Err(Error::MessageFormat);
            }
            k = k + 1;
        }
        assert(options_in_bounds(m.options));
        let mtype = self.mtype.as_u8();
        let mut pkt: Vec<u8> = Vec::new();
        pkt.push(64 + mtype * 16 + token.len() as u8);
        pkt.push(self.code.as_u8());
        pkt.push((self.mid / 256) as u8);
        pkt.push((self.mid % 256) as u8);
        append_bytes(&mut pkt, token);
        let ghost head = pkt@;
        assert(head == seq![
            (m.version * 64 + m.mtype.spec_as_u8() * 16 + m.token.len()) as u8,
            m.code,
            (m.mid / 256) as u8,
            (m.mid % 256) as u8,
        ] + m.token);
        let mut last_option_number: u16 = 0;
        let mut i: usize = 0;
        assert(m.options.skip(0) =~= m.options);
        assert(head =~= head + Seq::<u8>::empty());
        while i < n
            invariant
                i <= n,
                n == m.options.len(),
                m == self@,
                options_sorted(m.options),
                options_in_bounds(m.options),
                i == 0 ==> last_option_number == 0,
                i > 0 ==> last_option_number == m.options[i - 1].0,
                head + encode_options(m.options, 0) == pkt@ + encode_options(
                    m.options.skip(i as int),
                    last_option_number as nat,
                ),
            decreases n - i,
        {
            let (number, bytes) = self.options.entry(i);
            let ghost prev = last_option_number;
            assert(prev <= number);
            let ghost tail = m.options.skip(i as int);
            assert(tail[0] == m.options[i as int]);
            assert(tail.drop_first() =~= m.options.skip(i + 1));
            let ghost before = pkt@;
            let header = build_header(number, bytes, &mut last_option_number);
            append_bytes(&mut pkt, header.as_slice());
            append_bytes(&mut pkt, bytes);
            assert(encode_options(tail, prev as nat) == header@ + bytes@ + encode_options(
                m.options.skip(i + 1),
                number as nat,
            ));
            assert(pkt@ + encode_options(m.options.skip(i + 1), number as nat) =~= before
                + encode_options(tail, prev as nat));
            i = i + 1;
        }
        assert(m.options.skip(n as int) =~= Seq::<(u16, Seq<u8>)>::empty());
        assert(pkt@ =~= head + encode_options(m.options, 0));
        if self.payload.len() > 0 {
            pkt.push(0xFF);
            append_bytes(&mut pkt, self.payload.as_slice());
        }
        assert(pkt@ =~= head + encode_options(m.options, 0) + payload_part(m.payload));
        Ok(pkt)
    }
}

} // verus!
