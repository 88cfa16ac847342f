use tokio_coap::client::{content_reply, decompose, parse_ipv4, split_bytes, Client, Host, UriParts};
use tokio_coap::message::{Code, Message};
use tokio_coap::endpoint::{Endpoint, PeerAddr};
use tokio_coap::error::{Error, UrlError};
use tokio_coap::option::Option as CoapOption;
use tokio_coap::options::Options;

fn parts(text: &str) -> UriParts {
    UriParts::parse(text).unwrap()
}

#[test]
fn uri_decompose_normalization() {
    let uri1 = parts("coap://example.com:5683/~sensors/temp.xml");
    let uri2 = parts("coap://EXAMPLE.com/%7Esensors/temp.xml");
    let uri3 = parts("coap://EXAMPLE.com:/%7esensors/temp.xml");

    assert_eq!(decompose(&uri1).unwrap(), decompose(&uri2).unwrap());
    assert_eq!(decompose(&uri2).unwrap(), decompose(&uri3).unwrap());
}

#[test]
fn uri_decompose_basic_ipv6() {
    let uri = parts("coap://[2001:db8::2:1]/");

    let sa_ref = PeerAddr { ip: 0x2001_0db8_0000_0000_0000_0000_0002_0001, is_v6: true, port: 5683 };
    let opt_ref = Options::new();

    let (endpoint, options) = decompose(&uri).unwrap();

    assert_eq!(endpoint, Endpoint::Resolved(sa_ref));
    assert_eq!(options, opt_ref);
}

#[test]
fn uri_decompose_basic_example_net() {
    let uri = parts("coap://example.net/");

    let opt_ref = {
        let mut opts = Options::new();
        opts.push(CoapOption::UriHost("example.net".to_string()));
        opts
    };

    let (endpoint, options) = decompose(&uri).unwrap();

    assert_eq!(endpoint, Endpoint::Unresolved("example.net".to_string(), 5683));
    assert_eq!(options, opt_ref);
}

#[test]
fn uri_decompose_example_net_well_known_core() {
    let uri = parts("coap://example.net/.well-known/core");

    let opt_ref = {
        let mut opts = Options::new();
        opts.push(CoapOption::UriHost("example.net".to_string()));
        opts.push(CoapOption::UriPath(".well-known".to_string()));
        opts.push(CoapOption::UriPath("core".to_string()));
        opts
    };

    let (endpoint, options) = decompose(&uri).unwrap();

    assert_eq!(endpoint, Endpoint::Unresolved("example.net".to_string(), 5683));
    assert_eq!(options, opt_ref);
}

#[test]
fn uri_decompose_punny_unicode() {
    let uri = parts("coap://xn--18j4d.example/%E3%81%93%E3%82%93%E3%81%AB%E3%81%A1%E3%81%AF");

    let opt_ref = {
        let mut opts = Options::new();
        opts.push(CoapOption::UriHost("xn--18j4d.example".to_string()));
        opts.push(CoapOption::UriPath("\u{3053}\u{3093}\u{306b}\u{3061}\u{306f}".to_string()));
        opts
    };

    let (endpoint, options) = decompose(&uri).unwrap();

    assert_eq!(endpoint, Endpoint::Unresolved("xn--18j4d.example".to_string(), 5683));
    assert_eq!(options, opt_ref);
}

#[test]
fn uri_decompose_port_evil() {
    let uri = parts("coap://198.51.100.1:61616//%2F//?%2F%2F&?%26");

    let sa_ref = PeerAddr { ip: 0xC633_6401, is_v6: false, port: 61616 };
    let opt_ref = {
        let mut opts = Options::new();
        opts.push(CoapOption::UriPath("".to_string()));
        opts.push(CoapOption::UriPath("/".to_string()));
        opts.push(CoapOption::UriPath("".to_string()));
        opts.push(CoapOption::UriPath("".to_string()));
        opts.push(CoapOption::UriQuery("//".to_string()));
        opts.push(CoapOption::UriQuery("?&".to_string()));
        opts
    };

    let (endpoint, options) = decompose(&uri).unwrap();

    assert_eq!(endpoint, Endpoint::Resolved(sa_ref));
    assert_eq!(options, opt_ref);
}

#[test]
fn decompose_errors() {
    assert_eq!(
        decompose(&parts("http://example.net/")),
        Err(UrlError::UnsupportedScheme("http".to_string()))
    );
    assert_eq!(decompose(&parts("coap://example.net/#frag")), Err(UrlError::FragmentSpecified));
    assert_eq!(decompose(&parts("coap://example.net/%FF")), Err(UrlError::NonUtf8));
    assert_eq!(decompose(&parts("coap://example.net/?a=%C3")), Err(UrlError::NonUtf8));
    let no_host = UriParts {
        scheme: "coap".to_string(),
        fragment: None,
        host: None,
        port: None,
        path: "/".to_string(),
        segments: None,
        query: None,
    };
    assert_eq!(decompose(&no_host), Err(UrlError::NonAbsolutePath));
    let opaque_path = UriParts {
        host: Some(Host::Ipv4(1)),
        path: "x".to_string(),
        ..no_host
    };
    assert_eq!(decompose(&opaque_path), Err(UrlError::NonAbsolutePath));
}

#[test]
fn ipv4_text() {
    assert_eq!(parse_ipv4(b"198.51.100.1"), Some(0xC633_6401));
    assert_eq!(parse_ipv4(b"0.0.0.0"), Some(0));
    assert_eq!(parse_ipv4(b"255.255.255.255"), Some(u32::MAX));
    assert_eq!(parse_ipv4(b"256.1.1.1"), None);
    assert_eq!(parse_ipv4(b"01.1.1.1"), None);
    assert_eq!(parse_ipv4(b"1.1.1"), None);
    assert_eq!(parse_ipv4(b"1.1.1.1.1"), None);
    assert_eq!(parse_ipv4(b"+1.1.1.1"), None);
    assert_eq!(parse_ipv4(b"example.net"), None);
}

#[test]
fn splitting_keeps_empty_fields() {
    assert_eq!(split_bytes(b"a&&b", b'&'), vec![b"a".to_vec(), vec![], b"b".to_vec()]);
    assert_eq!(split_bytes(b"", b'&'), vec![Vec::<u8>::new()]);
}

#[test]
fn client_get_builds_request() {
    let client = Client::get("coap://example.net/sensors?x=1").unwrap();
    let (endpoint, msg) = client.into_parts();
    assert_eq!(endpoint, Endpoint::Unresolved("example.net".to_string(), 5683));
    assert_eq!(msg.options.get_raw(11), Some(vec![b"sensors".to_vec()]));
    assert_eq!(msg.options.get_raw(15), Some(vec![b"x=1".to_vec()]));
    assert!(matches!(Client::get("not a url"), Err(Error::Url(UrlError::Parse))));
    let c = Client::new().with_endpoint(Endpoint::Unset);
    assert_eq!(c.into_parts().0, Endpoint::Unset);
}

#[test]
fn content_reply_takes_only_content() {
    let content = Message::new().with_code(Code::Content).with_mid(4).with_payload(b"22".to_vec());
    let reply = content_reply(&content.to_bytes().unwrap()).unwrap();
    assert_eq!(reply, content);
    let not_found = Message::new().with_code(Code::NotFound).to_bytes().unwrap();
    assert!(content_reply(&not_found).is_none());
    assert!(content_reply(&[0x40, 0x45]).is_none());
}

#[test]
fn client_get_reports_decomposition_errors() {
    assert!(matches!(
        Client::get("http://example.net/"),
        Err(Error::Url(UrlError::UnsupportedScheme(s))) if s == "http"
    ));
    assert!(matches!(Client::get("coap://example.net/%FF"), Err(Error::Url(UrlError::NonUtf8))));
    let (_, msg) = Client::get("coap://198.51.100.1/").unwrap().into_parts();
    assert_eq!(msg, Message::new());
}
