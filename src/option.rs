//! The option registry and typed option values. Each registered number has
//! one wire format and a length range; a value that does not fit them is kept
//! as opaque bytes.
use vstd::prelude::*;
use vstd::utf8::{decode_utf8, encode_utf8, valid_utf8};
use crate::uint::{bytes_to_value, uint_bytes, uint_value, value_to_bytes, lemma_uint_value_bound, lemma_pow256_values};
use crate::options::copy_bytes;
use crate::wire::option_header;

verus! {

/// A value parsed by its registered format.
#[derive(PartialEq, Eq, Debug)]
pub enum Value {
    Empty,
    Opaque(Vec<u8>),
    String(String),
    UInt(u64),
}

/// A wire format with its length bounds in bytes.
#[derive(PartialEq, Eq, Structural, Clone, Copy, Debug)]
pub enum Format {
    Empty,
    Opaque(u16, u16),
    String(u16, u16),
    UInt(u16, u16),
}

/// The registry: the format and length bounds of each option number.
/// Unregistered numbers are opaque, from 0 to 65534 bytes.
pub open spec fn registry(number: u16) -> Format {
    if number == 1 { Format::Opaque(0, 8) }
    else if number == 3 { Format::String(1, 255) }
    else if number == 4 { Format::Opaque(1, 8) }
    else if number == 5 { Format::Empty }
    else if number == 6 { Format::UInt(0, 3) }
    else if number == 7 { Format::UInt(0, 2) }
    else if number == 8 { Format::String(0, 255) }
    else if number == 11 { Format::String(0, 255) }
    else if number == 12 { Format::UInt(0, 2) }
    else if number == 14 { Format::UInt(0, 4) }
    else if number == 15 { Format::String(0, 255) }
    else if number == 17 { Format::UInt(0, 2) }
    else if number == 20 { Format::String(0, 255) }
    else if number == 35 { Format::String(1, 1034) }
    else if number == 39 { Format::String(1, 255) }
    else if number == 60 { Format::UInt(0, 4) }
    else if number == 284 { Format::UInt(0, 1) }
    else { Format::Opaque(0, 65534) }
}

/// Whether `number` is one of the registered options.
pub open spec fn is_registered(number: u16) -> bool {
    number == 1 || number == 3 || number == 4 || number == 5 || number == 6 || number == 7
        || number == 8 || number == 11 || number == 12 || number == 14 || number == 15
        || number == 17 || number == 20 || number == 35 || number == 39 || number == 60
        || number == 284
}

/// Whether the raw value `b` meets format `f`.
pub open spec fn fits_format(f: Format, b: Seq<u8>) -> bool {
    match f {
        Format::Empty => b.len() == 0,
        Format::Opaque(min, max) => min <= b.len() <= max,
        Format::String(min, max) => min <= b.len() <= max && valid_utf8(b),
        Format::UInt(min, max) => min <= b.len() <= max,
    }
}

/// The registered format of `number`.
pub fn get_by_number(number: u16) -> (r: Format)
    ensures
        r == registry(number),
{
    match number {
        1 => Format::Opaque(0, 8),
        3 => Format::String(1, 255),
        4 => Format::Opaque(1, 8),
        5 => Format::Empty,
        6 => Format::UInt(0, 3),
        7 => Format::UInt(0, 2),
        8 => Format::String(0, 255),
        11 => Format::String(0, 255),
        12 => Format::UInt(0, 2),
        14 => Format::UInt(0, 4),
        15 => Format::String(0, 255),
        17 => Format::UInt(0, 2),
        20 => Format::String(0, 255),
        35 => Format::String(1, 1034),
        39 => Format::String(1, 255),
        60 => Format::UInt(0, 4),
        284 => Format::UInt(0, 1),
        _ => Format::Opaque(0, 65534),
    }
}

/// Relies on String::from_utf8: it succeeds exactly on valid UTF-8 and then
/// holds the characters that the bytes encode.
#[verifier::external_body]
fn string_from_utf8(v: Vec<u8>) -> (r: std::option::Option<String>)
    ensures
        r is Some <==> valid_utf8(v@),
        r is Some ==> r->Some_0@ == decode_utf8(v@),
{
    String::from_utf8(v).ok()
}

/// A typed option: one variant for each registered number, and `Unknown` for
/// every other number or for a value that does not meet its format.
#[derive(PartialEq, Eq, Debug)]
pub enum Option {
    IfMatch(Vec<u8>),
    UriHost(String),
    ETag(Vec<u8>),
    IfNoneMatch,
    Observe(u32),
    UriPort(u16),
    LocationPath(String),
    UriPath(String),
    ContentFormat(u16),
    MaxAge(u32),
    UriQuery(String),
    Accept(u16),
    LocationQuery(String),
    ProxyUri(String),
    ProxyScheme(String),
    Size1(u32),
    NoResponse(u8),
    Unknown((u16, Vec<u8>)),
}

impl Option {
    /// The option number.
    pub open spec fn spec_number(&self) -> u16 {
        match self {
            Option::IfMatch(_) => 1,
            Option::UriHost(_) => 3,
            Option::ETag(_) => 4,
            Option::IfNoneMatch => 5,
            Option::Observe(_) => 6,
            Option::UriPort(_) => 7,
            Option::LocationPath(_) => 8,
            Option::UriPath(_) => 11,
            Option::ContentFormat(_) => 12,
            Option::MaxAge(_) => 14,
            Option::UriQuery(_) => 15,
            Option::Accept(_) => 17,
            Option::LocationQuery(_) => 20,
            Option::ProxyUri(_) => 35,
            Option::ProxyScheme(_) => 39,
            Option::Size1(_) => 60,
            Option::NoResponse(_) => 284,
            Option::Unknown((n, _)) => *n,
        }
    }

    /// The raw value: strings as UTF-8, integers as their fewest big-endian bytes.
    pub open spec fn spec_bytes(&self) -> Seq<u8> {
        match self {
            Option::IfMatch(v) => v@,
            Option::UriHost(s) => encode_utf8(s@),
            Option::ETag(v) => v@,
            Option::IfNoneMatch => seq![],
            Option::Observe(n) => uint_bytes(*n as nat),
            Option::UriPort(n) => uint_bytes(*n as nat),
            Option::LocationPath(s) => encode_utf8(s@),
            Option::UriPath(s) => encode_utf8(s@),
            Option::ContentFormat(n) => uint_bytes(*n as nat),
            Option::MaxAge(n) => uint_bytes(*n as nat),
            Option::UriQuery(s) => encode_utf8(s@),
            Option::Accept(n) => uint_bytes(*n as nat),
            Option::LocationQuery(s) => encode_utf8(s@),
            Option::ProxyUri(s) => encode_utf8(s@),
            Option::ProxyScheme(s) => encode_utf8(s@),
            Option::Size1(n) => uint_bytes(*n as nat),
            Option::NoResponse(n) => uint_bytes(*n as nat),
            Option::Unknown((_, v)) => v@,
        }
    }

    /// Whether this option holds what the raw value `b` stands for in its format.
    pub open spec fn holds_value(&self, b: Seq<u8>) -> bool {
        match self {
            Option::IfMatch(v) => v@ == b,
            Option::ETag(v) => v@ == b,
            Option::IfNoneMatch => b.len() == 0,
            Option::Observe(n) => *n as nat == uint_value(b),
            Option::UriPort(n) => *n as nat == uint_value(b),
            Option::ContentFormat(n) => *n as nat == uint_value(b),
            Option::MaxAge(n) => *n as nat == uint_value(b),
            Option::Accept(n) => *n as nat == uint_value(b),
            Option::Size1(n) => *n as nat == uint_value(b),
            Option::NoResponse(n) => *n as nat == uint_value(b),
            Option::UriHost(s) => s@ == decode_utf8(b),
            Option::LocationPath(s) => s@ == decode_utf8(b),
            Option::UriPath(s) => s@ == decode_utf8(b),
            Option::UriQuery(s) => s@ == decode_utf8(b),
            Option::LocationQuery(s) => s@ == decode_utf8(b),
            Option::ProxyUri(s) => s@ == decode_utf8(b),
            Option::ProxyScheme(s) => s@ == decode_utf8(b),
            Option::Unknown((_, v)) => v@ == b,
        }
    }

    pub fn number(&self) -> (r: u16)
        ensures
            r == self.spec_number(),
    {
        match self {
            Option::IfMatch(_) => 1,
            Option::UriHost(_) => 3,
            Option::ETag(_) => 4,
            Option::IfNoneMatch => 5,
            Option::Observe(_) => 6,
            Option::UriPort(_) => 7,
            Option::LocationPath(_) => 8,
            Option::UriPath(_) => 11,
            Option::ContentFormat(_) => 12,
            Option::MaxAge(_) => 14,
            Option::UriQuery(_) => 15,
            Option::Accept(_) => 17,
            Option::LocationQuery(_) => 20,
            Option::ProxyUri(_) => 35,
            Option::ProxyScheme(_) => 39,
            Option::Size1(_) => 60,
            Option::NoResponse(_) => 284,
            Option::Unknown((n, _)) => *n,
        }
    }

    /// Critical: bit 0 of the number is set.
    pub fn is_critical(&self) -> (r: bool)
        ensures
            r == (self.spec_number() & 0x01 != 0),
    {
        self.number() & 0x01 != 0
    }

    pub fn is_elective(&self) -> (r: bool)
        ensures
            r == (self.spec_number() & 0x01 == 0),
    {
        self.number() & 0x01 == 0
    }

    /// Unsafe to forward: bit 1 of the number is set.
    pub fn is_unsafe_to_forward(&self) -> (r: bool)
        ensures
            r == (self.spec_number() & 0x02 != 0),
    {
        self.number() & 0x02 != 0
    }

    pub fn is_safe_to_forward(&self) -> (r: bool)
        ensures
            r == (self.spec_number() & 0x02 == 0),
    {
        self.number() & 0x02 == 0
    }

    /// Not part of the cache key: `number & 0x1E == 0x1C`.
    pub fn is_no_cache_key(&self) -> (r: bool)
        ensures
            r == (self.spec_number() & 0x1e == 0x1c),
    {
        self.number() & 0x1e == 0x1c
    }

    pub fn is_cache_key(&self) -> (r: bool)
        ensures
            r == (self.spec_number() & 0x1e != 0x1c),
    {
        self.number() & 0x1e != 0x1c
    }

    /// The fewest big-endian bytes of `n`.
    fn integer_to_bytes(n: u64) -> (r: Vec<u8>)
        ensures
            r@ == uint_bytes(n as nat),
    {
        value_to_bytes(n)
    }

    /// The raw value of this option.
    pub fn value_to_bytes(&self) -> (r: Vec<u8>)
        ensures
            r@ == self.spec_bytes(),
    {
        match self {
            Option::IfMatch(v) => copy_bytes(v.as_slice()),
            Option::UriHost(s) => copy_bytes(s.as_str().as_bytes()),
            Option::ETag(v) => copy_bytes(v.as_slice()),
            Option::IfNoneMatch => Vec::new(),
            Option::Observe(n) => Self::integer_to_bytes(*n as u64),
            Option::UriPort(n) => Self::integer_to_bytes(*n as u64),
            Option::LocationPath(s) => copy_bytes(s.as_str().as_bytes()),
            Option::UriPath(s) => copy_bytes(s.as_str().as_bytes()),
            Option::ContentFormat(n) => Self::integer_to_bytes(*n as u64),
            Option::MaxAge(n) => Self::integer_to_bytes(*n as u64),
            Option::UriQuery(s) => copy_bytes(s.as_str().as_bytes()),
            Option::Accept(n) => Self::integer_to_bytes(*n as u64),
            Option::LocationQuery(s) => copy_bytes(s.as_str().as_bytes()),
            Option::ProxyUri(s) => copy_bytes(s.as_str().as_bytes()),
            Option::ProxyScheme(s) => copy_bytes(s.as_str().as_bytes()),
            Option::Size1(n) => Self::integer_to_bytes(*n as u64),
            Option::NoResponse(n) => Self::integer_to_bytes(*n as u64),
            Option::Unknown((_, v)) => copy_bytes(v.as_slice()),
        }
    }

    /// The length of the raw value.
    pub fn value_len(&self) -> (r: usize)
        ensures
            r == self.spec_bytes().len(),
    {
        self.value_to_bytes().len()
    }

    /// The header of this option, delta-encoded against `*last_option_number`,
    /// which then becomes this option's number.
    pub fn build_header(&self, last_option_number: &mut u16) -> (r: Vec<u8>)
        requires
            *old(last_option_number) <= self.spec_number(),
            self.spec_bytes().len() < 65000,
        ensures
            r@ == option_header(
                (self.spec_number() - *old(last_option_number)) as nat,
                self.spec_bytes().len(),
            ),
            *final(last_option_number) == self.spec_number(),
    {
        let bytes = self.value_to_bytes();
        crate::message::build_header(self.number(), bytes.as_slice(), last_option_number)
    }

    /// `Empty` for no bytes, else the bytes as opaque.
    pub fn should_be_empty(value: &[u8]) -> (r: Value)
        ensures
            value@.len() == 0 ==> r is Empty,
            value@.len() != 0 ==> r is Opaque && r->Opaque_0@ == value@,
    {
        if value.len() == 0 {
            Value::Empty
        } else {
            Value::Opaque(copy_bytes(value))
        }
    }

    /// A string when the length is within `[min, max]` and the bytes are UTF-8,
    /// else the bytes as opaque.
    pub fn should_be_string(value: &[u8], min: u16, max: u16) -> (r: Value)
        ensures
            (min <= value@.len() <= max && valid_utf8(value@)) ==> r is String && r->String_0@
                == decode_utf8(value@),
            !(min <= value@.len() <= max && valid_utf8(value@)) ==> r is Opaque && r->Opaque_0@
                == value@,
    {
        if value.len() < min as usize || value.len() > max as usize {
            return Value::Opaque(copy_bytes(value));
        }
        match string_from_utf8(copy_bytes(value)) {
            Some(s) => Value::String(s),
            None => Value::Opaque(copy_bytes(value)),
        }
    }

    /// The big-endian number when the length is within `[min, max]`, else the
    /// bytes as opaque.
    pub fn should_be_uint(value: &[u8], min: u16, max: u16) -> (r: Value)
        requires
            max <= 8,
        ensures
            (min <= value@.len() <= max) ==> r is UInt && r->UInt_0 == uint_value(value@),
            !(min <= value@.len() <= max) ==> r is Opaque && r->Opaque_0@ == value@,
    {
        if value.len() >= min as usize && value.len() <= max as usize {
            Value::UInt(bytes_to_value(value))
        } else {
            Value::Opaque(copy_bytes(value))
        }
    }

    /// The bytes as opaque; the bounds are not consulted.
    pub fn should_be_opaque(value: &[u8], _min: u16, _max: u16) -> (r: Value)
        ensures
            r is Opaque && r->Opaque_0@ == value@,
    {
        Value::Opaque(copy_bytes(value))
    }

    /// The typed option for number `number` and raw value `value`: the
    /// registered variant when the value meets the number's format, else
    /// `Unknown` with the raw bytes.
    pub fn from_raw(number: u16, value: &[u8]) -> (r: Option)
        ensures
            r.spec_number() == number,
            r.holds_value(value@),
            r is Unknown <==> !(is_registered(number) && fits_format(registry(number), value@)),
    {
        let fits = match get_by_number(number) {
            Format::Empty => value.len() == 0,
            Format::Opaque(min, max) => min as usize <= value.len() && value.len() <= max as usize,
            Format::String(_, _) => true,
            Format::UInt(_, _) => true,
        };
        let parsed = match get_by_number(number) {
            Format::Empty => Self::should_be_empty(value),
            Format::Opaque(min, max) => Self::should_be_opaque(value, min, max),
            Format::UInt(min, max) => Self::should_be_uint(value, min, max),
            Format::String(min, max) => Self::should_be_string(value, min, max),
        };
        proof {
            lemma_uint_value_bound(value@);
            lemma_pow256_values();
        }
        if !fits {
            return Option::Unknown((number, copy_bytes(value)));
        }
        match (number, parsed) {
            (1, Value::Opaque(v)) => Option::IfMatch(v),
            (3, Value::String(v)) => Option::UriHost(v),
            (4, Value::Opaque(v)) => Option::ETag(v),
            (5, Value::Empty) => Option::IfNoneMatch,
            (6, Value::UInt(v)) => Option::Observe(v as u32),
            (7, Value::UInt(v)) => Option::UriPort(v as u16),
            (8, Value::String(v)) => Option::LocationPath(v),
            (11, Value::String(v)) => Option::UriPath(v),
            (12, Value::UInt(v)) => Option::ContentFormat(v as u16),
            (14, Value::UInt(v)) => Option::MaxAge(v as u32),
            (15, Value::String(v)) => Option::UriQuery(v),
            (17, Value::UInt(v)) => Option::Accept(v as u16),
            (20, Value::String(v)) => Option::LocationQuery(v),
            (35, Value::String(v)) => Option::ProxyUri(v),
            (39, Value::String(v)) => Option::ProxyScheme(v),
            (60, Value::UInt(v)) => Option::Size1(v as u32),
            (284, Value::UInt(v)) => Option::NoResponse(v as u8),
            _ => Option::Unknown((number, copy_bytes(value))),
        }
    }
}

} // verus!
