//! Decomposing a `coap://` URI into an endpoint and request options
//! (RFC 7252, section 6.4), and the request that a client sends.
use vstd::prelude::*;
use url::{Host as UrlHost, Url};
use crate::int_codec::{all_digits, decimal_value, digits_of, parse_u64};
use crate::options::{byte_seqs, Options};
use crate::endpoint::{Endpoint, PeerAddr};
use crate::error::{Error, UrlError};
use crate::message::{Code, Message};
use crate::wire::parse_message;
use crate::wire::OptionEntry;
use vstd::utf8::{decode_utf8, encode_utf8, valid_utf8, decode_utf8_encode_utf8, encode_utf8_decode_utf8};

verus! {

/// The fields of `s` between separators `sep`, as `str::split` gives them:
/// one more field than separators, empty ones included.
pub open spec fn split_on(s: Seq<u8>, sep: u8) -> Seq<Seq<u8>>
    decreases s.len(),
{
    if s.len() == 0 {
        seq![seq![]]
    } else {
        let r = split_on(s.drop_last(), sep);
        if s.last() == sep {
            r.push(seq![])
        } else {
            r.update(r.len() - 1, r.last().push(s.last()))
        }
    }
}

/// Splits `s` at every byte `sep`.
pub fn split_bytes(s: &[u8], sep: u8) -> (r: Vec<Vec<u8>>)
    ensures
        byte_seqs(r@) == split_on(s@, sep),
{
    let mut out: Vec<Vec<u8>> = Vec::new();
    let mut cur: Vec<u8> = Vec::new();
    let mut i: usize = 0;
    assert(s@.take(0) =~= Seq::<u8>::empty());
    assert(byte_seqs(out@).push(cur@) =~= split_on(s@.take(0), sep));
    while i < s.len()
        invariant
            i <= s@.len(),
            byte_seqs(out@).push(cur@) == split_on(s@.take(i as int), sep),
        decreases s@.len() - i,
    {
        let ghost prev = split_on(s@.take(i as int), sep);
        assert(s@.take(i + 1).drop_last() =~= s@.take(i as int));
        assert(s@.take(i + 1).last() == s@[i as int]);
        if s[i] == sep {
            let mut done: Vec<u8> = Vec::new();
            std::mem::swap(&mut cur, &mut done);
            out.push(done);
            assert(byte_seqs(out@).push(cur@) =~= prev.push(seq![]));
        } else {
            cur.push(s[i]);
            assert(byte_seqs(out@).push(cur@) =~= prev.update(prev.len() - 1, prev.last().push(s[i as int])));
        }
        i = i + 1;
    }
    assert(s@.take(i as int) =~= s@);
    out.push(cur);
    out
}

/// One field of a dotted-quad IPv4 address: one to three digits, no leading
/// zero, at most 255.
pub open spec fn octet_ok(f: Seq<u8>) -> bool {
    &&& 1 <= f.len() <= 3
    &&& all_digits(f)
    &&& (f.len() == 1 || f[0] != 48)
    &&& decimal_value(f) <= 255
}

/// The IPv4 address that `s` writes as four dot-separated octets.
pub open spec fn ipv4_value(s: Seq<u8>) -> Option<u32> {
    let f = split_on(s, 46);
    if f.len() == 4 && octet_ok(f[0]) && octet_ok(f[1]) && octet_ok(f[2]) && octet_ok(f[3]) {
        Some(
            (decimal_value(f[0]) * 0x100_0000 + decimal_value(f[1]) * 0x1_0000 + decimal_value(f[2])
                * 0x100 + decimal_value(f[3])) as u32,
        )
    } else {
        None
    }
}

/// The value of one octet field, or `None` when it is not one.
fn read_octet(f: &[u8]) -> (r: Option<u32>)
    ensures
        r is Some <==> octet_ok(f@),
        r is Some ==> r->Some_0 == decimal_value(f@),
{
    if f.len() == 0 || f.len() > 3 || f[0] == 43 || (f.len() > 1 && f[0] == 48) {
        assert(!octet_ok(f@) || f.len() > 0);
        return None;
    }
    assert(digits_of(f@) == f@);
    match parse_u64(f) {
        None => None,
        Some(v) => {
            if v > 255 {
                None
            } else {
                Some(v as u32)
            }
        },
    }
}

/// Reads a dotted-quad IPv4 address as `Ipv4Addr` parses one.
pub fn parse_ipv4(s: &[u8]) -> (r: Option<u32>)
    ensures
        r == ipv4_value(s@),
{
    let fields = split_bytes(s, 46);
    if fields.len() != 4 {
        return None;
    }
    assert(fields@[0]@ == split_on(s@, 46)[0]);
    assert(fields@[1]@ == split_on(s@, 46)[1]);
    assert(fields@[2]@ == split_on(s@, 46)[2]);
    assert(fields@[3]@ == split_on(s@, 46)[3]);
    let a = match read_octet(fields[0].as_slice()) { Some(v) => v, None => { return None; } };
    let b = match read_octet(fields[1].as_slice()) { Some(v) => v, None => { return None; } };
    let c = match read_octet(fields[2].as_slice()) { Some(v) => v, None => { return None; } };
    let d = match read_octet(fields[3].as_slice()) { Some(v) => v, None => { return None; } };
    Some(a * 0x100_0000 + b * 0x1_0000 + c * 0x100 + d)
}

/// The value of a hexadecimal digit, either case.
pub open spec fn hex_digit(b: u8) -> Option<nat> {
    if 48 <= b <= 57 {
        Some((b - 48) as nat)
    } else if 65 <= b <= 70 {
        Some((b - 55) as nat)
    } else if 97 <= b <= 102 {
        Some((b - 87) as nat)
    } else {
        None
    }
}

/// Percent-decoding: `%` and two hex digits stand for that byte; every other
/// byte, a `%` without two hex digits after it included, for itself.
pub open spec fn pct_decode(s: Seq<u8>) -> Seq<u8>
    decreases s.len(),
{
    if s.len() == 0 {
        seq![]
    } else if s[0] == 37 && s.len() >= 3 && hex_digit(s[1]) is Some && hex_digit(s[2]) is Some {
        seq![(hex_digit(s[1])->Some_0 * 16 + hex_digit(s[2])->Some_0) as u8] + pct_decode(s.skip(3))
    } else {
        seq![s[0]] + pct_decode(s.skip(1))
    }
}

/// Relies on percent_encoding::percent_decode with PercentDecode::decode_utf8:
/// the bytes are percent-decoded, then read as UTF-8, which fails on invalid UTF-8.
#[verifier::external_body]
fn percent_decode_utf8(s: &[u8]) -> (r: Option<String>)
    ensures
        r is Some <==> valid_utf8(pct_decode(s@)),
        r is Some ==> r->Some_0@ == decode_utf8(pct_decode(s@)),
{
    match percent_encoding::percent_decode(s).decode_utf8() {
        Ok(text) => Some(text.into_owned()),
        Err(_) => None,
    }
}

/// What lower-casing the characters `s` gives.
pub uninterp spec fn lower_of(s: Seq<char>) -> Seq<char>;

/// Relies on str::to_lowercase: the result depends on the characters alone.
#[verifier::external_body]
fn lowercase(s: &str) -> (r: String)
    ensures
        r@ == lower_of(s@),
{
    s.to_lowercase()
}

/// Whether `s` and `t` hold the same characters.
fn text_is(s: &str, t: &str) -> (r: bool)
    ensures
        r == (s@ == t@),
{
    let a = s.as_bytes();
    let b = t.as_bytes();
    assert(a@ == encode_utf8(s@));
    assert(b@ == encode_utf8(t@));
    proof {
        encode_utf8_decode_utf8(s@);
        encode_utf8_decode_utf8(t@);
    }
    if a.len() != b.len() {
        assert(a@ != b@);
        return false;
    }
    let mut i: usize = 0;
    while i < a.len()
        invariant
            a@.len() == b@.len(),
            a@ == encode_utf8(s@),
            b@ == encode_utf8(t@),
            i <= a@.len(),
            forall|j: int| 0 <= j < i ==> a@[j] == b@[j],
        decreases a@.len() - i,
    {
        if a[i] != b[i] {
            assert(a@ != b@);
            return false;
        }
        i = i + 1;
    }
    assert(a@ =~= b@);
    true
}

/// A segment, percent-decoded and read as UTF-8.
fn depercent(s: &[u8]) -> (r: Result<String, UrlError>)
    ensures
        r is Ok <==> valid_utf8(pct_decode(s@)),
        r is Ok ==> encode_utf8(r->Ok_0@) == pct_decode(s@),
        r is Err ==> r == Err::<String, UrlError>(UrlError::NonUtf8),
{
    match percent_decode_utf8(s) {
        Some(text) => {
            proof {
                decode_utf8_encode_utf8(pct_decode(s@));
            }
            Ok(text)
        },
        None => Err(UrlError::NonUtf8),
    }
}

/// The host of a URI.
#[derive(PartialEq, Eq, Debug, Clone)]
pub enum Host {
    Domain(String),
    Ipv4(u32),
    Ipv6(u128),
}

/// What decomposition reads from a parsed URI.
#[derive(PartialEq, Eq, Debug, Clone)]
pub struct UriParts {
    pub scheme: String,
    pub fragment: Option<String>,
    pub host: Option<Host>,
    pub port: Option<u16>,
    pub path: String,
    pub segments: Option<Vec<String>>,
    pub query: Option<String>,
}

/// The bytes of each string.
pub open spec fn strings_bytes(v: Seq<String>) -> Seq<Seq<u8>> {
    v.map_values(|x: String| encode_utf8(x@))
}

/// The path segments that become Uri-Path options: none for an empty or
/// root path.
pub open spec fn path_fields(u: UriParts) -> Seq<Seq<u8>> {
    if root_path(u) || u.segments is None {
        seq![]
    } else {
        strings_bytes(u.segments->Some_0@)
    }
}

/// The path is empty or `/`.
pub open spec fn root_path(u: UriParts) -> bool {
    u.path@.len() == 0 || encode_utf8(u.path@) == seq![47u8]
}

/// The query fields that become Uri-Query options: none for an empty query.
pub open spec fn query_fields(u: UriParts) -> Seq<Seq<u8>> {
    match u.query {
        None => seq![],
        Some(q) => if q@.len() == 0 {
            seq![]
        } else {
            split_on(encode_utf8(q@), 38)
        },
    }
}

/// Every field percent-decodes to UTF-8.
pub open spec fn all_utf8(f: Seq<Seq<u8>>) -> bool {
    forall|i: int| 0 <= i < f.len() ==> valid_utf8(pct_decode(#[trigger] f[i]))
}

/// Options numbered `n` whose values are the decoded fields.
pub open spec fn tagged(n: u16, f: Seq<Seq<u8>>) -> Seq<OptionEntry> {
    f.map_values(|b: Seq<u8>| (n, pct_decode(b)))
}

/// The port of the URI, 5683 when it names none.
pub open spec fn port_or_default(p: Option<u16>) -> u16 {
    match p {
        Some(x) => x,
        None => 5683,
    }
}

/// Whether the host is a name that must be resolved (not an address).
pub open spec fn is_name(h: Host) -> bool {
    h is Domain && ipv4_value(encode_utf8(h->Domain_0@)) is None
}

pub open spec fn named_host(u: UriParts) -> bool {
    u.host is Some && is_name(u.host->Some_0)
}

/// The endpoint that a URI with host `h` and port `port` names, when `h` is an address.
pub open spec fn address_of(h: Host, port: u16) -> PeerAddr {
    match h {
        Host::Ipv4(ip) => PeerAddr { ip: ip as u128, is_v6: false, port },
        Host::Ipv6(ip) => PeerAddr { ip, is_v6: true, port },
        Host::Domain(d) => PeerAddr {
            ip: ipv4_value(encode_utf8(d@))->Some_0 as u128,
            is_v6: false,
            port,
        },
    }
}

/// Adds `fields`, decoded, as options numbered `n` after all present ones.
fn push_fields(opts: &mut Options, n: u16, fields: &Vec<Vec<u8>>) -> (r: Result<(), UrlError>)
    requires
        forall|i: int| 0 <= i < old(opts)@.len() ==> old(opts)@[i].0 <= n,
    ensures
        r is Ok <==> all_utf8(byte_seqs(fields@)),
        r is Err ==> r == Err::<(), UrlError>(UrlError::NonUtf8),
        r is Ok ==> final(opts)@ == old(opts)@ + tagged(n, byte_seqs(fields@)),
        forall|i: int| 0 <= i < final(opts)@.len() ==> final(opts)@[i].0 <= n,
{
    let ghost start = opts@;
    let ghost f = byte_seqs(fields@);
    let mut i: usize = 0;
    assert(start + tagged(n, f.take(0)) =~= start);
    while i < fields.len()
        invariant
            i <= fields@.len(),
            f == byte_seqs(fields@),
            all_utf8(f.take(i as int)),
            opts@ == start + tagged(n, f.take(i as int)),
            forall|j: int| 0 <= j < opts@.len() ==> opts@[j].0 <= n,
        decreases fields@.len() - i,
    {
        assert(f[i as int] == fields@[i as int]@);
        match depercent(fields[i].as_slice()) {
            Err(e) => {
                assert(!all_utf8(f)) by {
                    assert(!valid_utf8(pct_decode(f[i as int])));
                }
                return Err(e);
            },
            Ok(text) => {
                let ghost before = opts@;
                proof {
                    crate::options::lemma_insert_last(before, (n, encode_utf8(text@)));
                }
                opts.push_raw(n, copy_str(&text));
                assert(f.take(i + 1) =~= f.take(i as int).push(f[i as int]));
                assert(tagged(n, f.take(i + 1)) =~= tagged(n, f.take(i as int)).push((n, pct_decode(f[i as int]))));
                assert(opts@ =~= start + tagged(n, f.take(i + 1)));
                i = i + 1;
            },
        }
    }
    assert(f.take(i as int) =~= f);
    Ok(())
}

/// The UTF-8 bytes of `s`.
fn copy_str(s: &String) -> (r: Vec<u8>)
    ensures
        r@ == encode_utf8(s@),
{
    crate::options::copy_bytes(s.as_str().as_bytes())
}

/// Whether decomposition of `u` succeeds: a `coap` URI without fragment, with
/// a host, an absolute path, and fields that percent-decode to UTF-8.
pub open spec fn decompose_ok(u: UriParts) -> bool {
    &&& u.scheme@ == "coap"@
    &&& u.fragment is None
    &&& u.host is Some
    &&& (root_path(u) || u.segments is Some)
    &&& all_utf8(path_fields(u))
    &&& all_utf8(query_fields(u))
}

/// What decomposing `u` gives: `r` is that result.
pub open spec fn decomposes(u: UriParts, r: Result<(Endpoint, Options), UrlError>) -> bool {
    let coap = u.scheme@ == "coap"@;
    let ok_so_far = coap && u.fragment is None && u.host is Some;
    let absolute = root_path(u) || u.segments is Some;
    &&& (r is Ok <==> decompose_ok(u))
    &&& (!coap ==> r is Err && r->Err_0 is UnsupportedScheme && r->Err_0->UnsupportedScheme_0@
        == u.scheme@)
    &&& (coap && u.fragment is Some ==> r == Err::<(Endpoint, Options), UrlError>(
        UrlError::FragmentSpecified,
    ))
    &&& (coap && u.fragment is None && u.host is None ==> r == Err::<(Endpoint, Options), UrlError>(
        UrlError::NonAbsolutePath,
    ))
    &&& (ok_so_far && !absolute ==> r == Err::<(Endpoint, Options), UrlError>(
        UrlError::NonAbsolutePath,
    ))
    &&& (ok_so_far && absolute && r is Err ==> r == Err::<(Endpoint, Options), UrlError>(
        UrlError::NonUtf8,
    ))
    &&& (r is Ok ==> {
        let (endpoint, opts) = r->Ok_0;
        let port = port_or_default(u.port);
        let host_opts = if named_host(u) {
            seq![(3u16, encode_utf8(lower_of(u.host->Some_0->Domain_0@)))]
        } else {
            seq![]
        };
        &&& opts@ == host_opts + tagged(11, path_fields(u)) + tagged(15, query_fields(u))
        &&& named_host(u) ==> endpoint is Unresolved && endpoint->Unresolved_0@ == lower_of(
            u.host->Some_0->Domain_0@,
        ) && endpoint->Unresolved_1 == port
        &&& !named_host(u) ==> endpoint == Endpoint::Resolved(address_of(u.host->Some_0, port))
    })
}

/// Decomposes a `coap` URI into the endpoint to contact and the options of
/// the request: Uri-Host for a host name (lower-cased), one Uri-Path per
/// segment and one Uri-Query per `&`-separated query field, each
/// percent-decoded. A host written as an IPv4 address names that address.
pub fn decompose(url: &UriParts) -> (r: Result<(Endpoint, Options), UrlError>)
    ensures
        decomposes(*url, r),
{
    if !text_is(url.scheme.as_str(), "coap") {
        return Err(UrlError::UnsupportedScheme(url.scheme.clone()));
    }
    if url.fragment.is_some() {
        return Err(UrlError::FragmentSpecified);
    }
    let port: u16 = match url.port {
        Some(p) => p,
        None => 5683,
    };
    let mut options = Options::new();
    let endpoint = match &url.host {
        None => {
            return Err(UrlError::NonAbsolutePath);
        },
        Some(host) => endpoint_of(host, port, &mut options),
    };
    let path = match path_bytes(url) {
        Ok(p) => p,
        Err(e) => {
            return Err(e);
        },
    };
    match push_fields(&mut options, 11, &path) {
        Ok(()) => {},
        Err(e) => {
            return Err(e);
        },
    }
    let query = query_bytes(url);
    match push_fields(&mut options, 15, &query) {
        Ok(()) => {},
        Err(e) => {
            return Err(e);
        },
    }
    Ok((endpoint, options))
}

/// The endpoint that `host` names, with Uri-Host added to the empty `opts`
/// for a host name.
fn endpoint_of(host: &Host, port: u16, opts: &mut Options) -> (r: Endpoint)
    requires
        old(opts)@.len() == 0,
    ensures
        is_name(*host) ==> {
            &&& final(opts)@ == seq![(3u16, encode_utf8(lower_of(host->Domain_0@)))]
            &&& r is Unresolved && r->Unresolved_0@ == lower_of(host->Domain_0@) && r->Unresolved_1 == port
        },
        !is_name(*host) ==> final(opts)@ == old(opts)@ && r == Endpoint::Resolved(address_of(*host, port)),
        forall|i: int| 0 <= i < final(opts)@.len() ==> final(opts)@[i].0 <= 11,
{
    match host {
        Host::Domain(domain) => {
            match parse_ipv4(domain.as_str().as_bytes()) {
                Some(ip) => Endpoint::Resolved(PeerAddr { ip: ip as u128, is_v6: false, port }),
                None => {
                    let name = lowercase(domain.as_str());
                    let bytes = copy_str(&name);
                    proof {
                        crate::options::lemma_insert_last(opts@, (3u16, bytes@));
                    }
                    opts.push_raw(3, bytes);
                    assert(opts@ =~= seq![(3u16, encode_utf8(lower_of(domain@)))]);
                    Endpoint::Unresolved(name, port)
                },
            }
        },
        Host::Ipv4(ip) => Endpoint::Resolved(PeerAddr { ip: *ip as u128, is_v6: false, port }),
        Host::Ipv6(ip) => Endpoint::Resolved(PeerAddr { ip: *ip, is_v6: true, port }),
    }
}

/// The path segments that become options; a path that is neither empty nor
/// the root but has no segments is not absolute.
fn path_bytes(url: &UriParts) -> (r: Result<Vec<Vec<u8>>, UrlError>)
    ensures
        ({
            let root = root_path(*url);
            &&& r is Err <==> !root && url.segments is None
            &&& r is Err ==> r == Err::<Vec<Vec<u8>>, UrlError>(UrlError::NonAbsolutePath)
            &&& r is Ok ==> byte_seqs(r->Ok_0@) == path_fields(*url)
        }),
{
    let bytes = url.path.as_str().as_bytes();
    assert(bytes@ == encode_utf8(url.path@));
    proof {
        encode_utf8_decode_utf8(url.path@);
    }
    if bytes.len() == 0 {
        assert(url.path@ =~= decode_utf8(Seq::<u8>::empty()));
    }
    let root = bytes.len() == 0 || (bytes.len() == 1 && bytes[0] == 47);
    assert(root ==> root_path(*url)) by {
        if bytes.len() == 1 && bytes[0] == 47 {
            assert(bytes@ =~= seq![47u8]);
        }
    }
    if root {
        let v: Vec<Vec<u8>> = Vec::new();
        assert(byte_seqs(v@) =~= path_fields(*url));
        Ok(v)
    } else {
        match &url.segments {
            None => Err(UrlError::NonAbsolutePath),
            Some(segments) => Ok(string_bytes(segments)),
        }
    }
}

/// The query fields that become options.
fn query_bytes(url: &UriParts) -> (r: Vec<Vec<u8>>)
    ensures
        byte_seqs(r@) == query_fields(*url),
{
    match &url.query {
        None => {
            let v: Vec<Vec<u8>> = Vec::new();
            assert(byte_seqs(v@) =~= query_fields(*url));
            v
        },
        Some(q) => {
            let bytes = q.as_str().as_bytes();
            assert(bytes@ == encode_utf8(q@));
            proof {
                encode_utf8_decode_utf8(q@);
            }
            if bytes.len() == 0 {
                assert(q@ =~= decode_utf8(Seq::<u8>::empty()));
                let v: Vec<Vec<u8>> = Vec::new();
                assert(byte_seqs(v@) =~= query_fields(*url));
                v
            } else {
                assert(q@.len() != 0);
                split_bytes(bytes, 38)
            }
        },
    }
}

/// The UTF-8 bytes of each string.
fn string_bytes(v: &Vec<String>) -> (r: Vec<Vec<u8>>)
    ensures
        byte_seqs(r@) == strings_bytes(v@),
{
    let mut out: Vec<Vec<u8>> = Vec::new();
    let mut i: usize = 0;
    while i < v.len()
        invariant
            i <= v@.len(),
            byte_seqs(out@) == strings_bytes(v@.take(i as int)),
        decreases v@.len() - i,
    {
        let bytes = copy_str(&v[i]);
        let ghost before = out@;
        out.push(bytes);
        assert(v@.take(i + 1) =~= v@.take(i as int).push(v@[i as int]));
        assert(byte_seqs(out@) =~= byte_seqs(before).push(encode_utf8(v@[i as int]@)));
        assert(strings_bytes(v@.take(i + 1)) =~= strings_bytes(v@.take(i as int)).push(encode_utf8(v@[i as int]@)));
        i = i + 1;
    }
    assert(v@.take(i as int) =~= v@);
    out
}

/// What the url crate reads from `text`, in the fields that decomposition
/// uses; `None` when the text is not a URL.
pub uninterp spec fn uri_parts_of(text: Seq<char>) -> Option<UriParts>;

/// Relies on url::Url::parse and its accessors scheme, fragment, host, port,
/// path, path_segments and query: the result depends on the text alone.
#[verifier::external_body]
fn parse_uri(text: &str) -> (r: Option<UriParts>)
    ensures
        r == uri_parts_of(text@),
{
    let u = Url::parse(text).ok()?;
    let host = u.host().map(|h| match h {
        UrlHost::Domain(d) => Host::Domain(d.into()),
        UrlHost::Ipv4(ip) => Host::Ipv4(ip.into()),
        UrlHost::Ipv6(ip) => Host::Ipv6(ip.into()),
    });
    let segments = u.path_segments().map(|s| s.map(String::from).collect());
    let (fragment, query) = (u.fragment().map(String::from), u.query().map(String::from));
    Some(UriParts { scheme: u.scheme().into(), fragment, host, port: u.port(), path: u.path().into(), segments, query })
}

impl UriParts {
    /// Parses `text` as a URL; `None` when it is not one.
    pub fn parse(text: &str) -> (r: Option<UriParts>)
        ensures
            r == uri_parts_of(text@),
    {
        parse_uri(text)
    }
}

/// A message as `Message::new` makes it, whatever its options: a confirmable
/// GET, version 1, id 0, with no token and no payload.
pub open spec fn fresh_request(m: Message) -> bool {
    &&& m.version == 1
    &&& m.mtype == crate::message::Mtype::Confirmable
    &&& m.code == Code::Get
    &&& m.mid == 0
    &&& m.token@.len() == 0
    &&& m.payload@.len() == 0
}

/// A request to be made: where it goes and what is sent.
pub struct Client {
    endpoint: Endpoint,
    msg: Message,
}

impl Client {
    /// A confirmable GET with no endpoint yet.
    pub fn new() -> (r: Client)
        ensures
            r.endpoint() == Endpoint::Unset,
            fresh_request(r.message()),
            r.message().options@.len() == 0,
    {
        Client { endpoint: Endpoint::Unset, msg: Message::new() }
    }

    pub closed spec fn endpoint(&self) -> Endpoint {
        self.endpoint
    }

    pub closed spec fn message(&self) -> Message {
        self.msg
    }

    /// A GET of `url`: its endpoint, and its options from decomposition. It
    /// fails with `Parse` when the text is not a URL, and with decomposition's
    /// error when that fails.
    pub fn get(url: &str) -> (r: Result<Client, Error>)
        ensures
            uri_parts_of(url@) is None ==> r == Err::<Client, Error>(Error::Url(UrlError::Parse)),
            uri_parts_of(url@) is Some ==> {
                let p = uri_parts_of(url@)->Some_0;
                &&& (r is Ok <==> decompose_ok(p))
                &&& r is Err ==> r->Err_0 is Url && decomposes(p, Err(r->Err_0->Url_0))
                &&& r is Ok ==> decomposes(p, Ok((r->Ok_0.endpoint(), r->Ok_0.message().options)))
                &&& r is Ok ==> fresh_request(r->Ok_0.message())
            },
    {
        let parts = match UriParts::parse(url) {
            Some(p) => p,
            None => {
                return Err(Error::Url(UrlError::Parse));
            },
        };
        match decompose(&parts) {
            Ok((endpoint, options)) => {
                let mut client = Client::new();
                client.set_endpoint(endpoint);
                client.msg.options = options;
                Ok(client)
            },
            Err(e) => Err(Error::Url(e)),
        }
    }

    pub fn set_endpoint(&mut self, endpoint: Endpoint)
        ensures
            final(self).endpoint() == endpoint,
            final(self).message() == old(self).message(),
    {
        self.endpoint = endpoint;
    }

    pub fn with_endpoint(self, endpoint: Endpoint) -> (r: Client)
        ensures
            r.endpoint() == endpoint,
            r.message() == self.message(),
    {
        let mut c = self;
        c.set_endpoint(endpoint);
        c
    }

    /// The endpoint and the message, for sending.
    pub fn into_parts(self) -> (r: (Endpoint, Message))
        ensures
            r.0 == self.endpoint(),
            r.1 == self.message(),
    {
        (self.endpoint, self.msg)
    }
}

/// The reply that a client waits for: a datagram that decodes to a 2.05
/// Content message. Every other datagram is skipped.
pub fn content_reply(datagram: &[u8]) -> (r: Option<Message>)
    ensures
        r is Some <==> parse_message(datagram@) is Some && parse_message(datagram@)->Some_0.code == 69,
        r is Some ==> r->Some_0@ == parse_message(datagram@)->Some_0 && r->Some_0.code == Code::Content,
{
    match Message::from_bytes(datagram) {
        Ok(msg) => {
            if msg.code == Code::Content {
                Some(msg)
            } else {
                None
            }
        },
        Err(_) => None,
    }
}

} // verus!
