use tokio_coap::int_codec::{parse_u64, IntCodec};
use tokio_coap::option::{get_by_number, Format, Option as CoapOption, Value};
use tokio_coap::options::Options;
use tokio_coap::uint::{bytes_to_value, value_to_bytes};

#[test]
fn integers_have_no_leading_zero_and_zero_is_empty() {
    assert_eq!(value_to_bytes(0), Vec::<u8>::new());
    assert_eq!(value_to_bytes(1), vec![1]);
    assert_eq!(value_to_bytes(255), vec![0xFF]);
    assert_eq!(value_to_bytes(256), vec![1, 0]);
    assert_eq!(value_to_bytes(0x1234), vec![0x12, 0x34]);
    assert_eq!(value_to_bytes(u64::MAX), vec![0xFF; 8]);
    for n in [0u64, 1, 255, 256, 65535, 1 << 40, u64::MAX] {
        let b = value_to_bytes(n);
        assert!(b.is_empty() || b[0] != 0);
        assert_eq!(bytes_to_value(&b), n);
    }
    assert_eq!(bytes_to_value(&[]), 0);
    assert_eq!(bytes_to_value(&[0, 0, 1, 2]), 0x102);
}

#[test]
fn iteration_is_in_number_order() {
    let mut opts = Options::new();
    opts.push_raw(60, vec![1]);
    opts.push_raw(3, b"h".to_vec());
    opts.push_raw(11, b"a".to_vec());
    opts.push_raw(3, b"i".to_vec());
    opts.push_raw(11, b"b".to_vec());
    let mut it = opts.iter();
    let mut seen = vec![];
    while let Some((n, v)) = it.next() {
        seen.push((n, v.to_vec()));
    }
    assert_eq!(
        seen,
        vec![
            (3, b"h".to_vec()),
            (3, b"i".to_vec()),
            (11, b"a".to_vec()),
            (11, b"b".to_vec()),
            (60, vec![1])
        ]
    );
    assert_eq!(opts.get_raw(12), None);
    assert_eq!(opts.clone(), opts);
}

#[test]
fn registry_entries() {
    assert_eq!(get_by_number(3), Format::String(1, 255));
    assert_eq!(get_by_number(4), Format::Opaque(1, 8));
    assert_eq!(get_by_number(5), Format::Empty);
    assert_eq!(get_by_number(6), Format::UInt(0, 3));
    assert_eq!(get_by_number(35), Format::String(1, 1034));
    assert_eq!(get_by_number(39), Format::String(1, 255));
    assert_eq!(get_by_number(284), Format::UInt(0, 1));
    assert_eq!(get_by_number(2), Format::Opaque(0, 65534));
}

#[test]
fn typed_parse_and_fallback() {
    assert_eq!(CoapOption::from_raw(11, b"temp"), CoapOption::UriPath("temp".to_string()));
    assert_eq!(CoapOption::from_raw(11, &[0xFF, 0xFE]), CoapOption::Unknown((11, vec![0xFF, 0xFE])));
    assert_eq!(CoapOption::from_raw(3, b""), CoapOption::Unknown((3, vec![])));
    assert_eq!(CoapOption::from_raw(7, &[0x16, 0x33]), CoapOption::UriPort(5683));
    assert_eq!(CoapOption::from_raw(7, &[1, 2, 3]), CoapOption::Unknown((7, vec![1, 2, 3])));
    assert_eq!(CoapOption::from_raw(5, &[]), CoapOption::IfNoneMatch);
    assert_eq!(CoapOption::from_raw(5, &[0]), CoapOption::Unknown((5, vec![0])));
    assert_eq!(CoapOption::from_raw(4, &[1, 2]), CoapOption::ETag(vec![1, 2]));
    assert_eq!(CoapOption::from_raw(4, &[]), CoapOption::Unknown((4, vec![])));
    assert_eq!(CoapOption::from_raw(1, &[]), CoapOption::IfMatch(vec![]));
    assert_eq!(CoapOption::from_raw(9, &[7]), CoapOption::Unknown((9, vec![7])));
}

#[test]
fn typed_values_and_bits() {
    let o = CoapOption::ContentFormat(50);
    assert_eq!(o.number(), 12);
    assert_eq!(o.value_to_bytes(), vec![50]);
    assert_eq!(o.value_len(), 1);
    assert_eq!(CoapOption::Observe(0).value_len(), 0);
    assert_eq!(CoapOption::UriHost("ab".to_string()).value_to_bytes(), b"ab".to_vec());
    let mut last = 0u16;
    assert_eq!(CoapOption::UriHost("ab".to_string()).build_header(&mut last), vec![0x32]);
    assert_eq!(last, 3);
    assert_eq!(CoapOption::UriPath("x".to_string()).build_header(&mut last), vec![0x81]);
    assert!(CoapOption::UriHost(String::new()).is_critical());
    assert!(CoapOption::UriHost(String::new()).is_unsafe_to_forward());
    assert!(!CoapOption::ETag(vec![]).is_critical());
    assert!(CoapOption::ETag(vec![]).is_elective());
    assert!(CoapOption::ETag(vec![]).is_safe_to_forward());
    assert!(CoapOption::Size1(0).is_no_cache_key());
    assert!(!CoapOption::Size1(0).is_cache_key());
    assert!(CoapOption::UriPath(String::new()).is_cache_key());
}

#[test]
fn should_be_helpers() {
    assert_eq!(CoapOption::should_be_empty(&[]), Value::Empty);
    assert_eq!(CoapOption::should_be_empty(&[1]), Value::Opaque(vec![1]));
    assert_eq!(CoapOption::should_be_uint(&[1, 0], 0, 2), Value::UInt(256));
    assert_eq!(CoapOption::should_be_uint(&[1, 0, 0], 0, 2), Value::Opaque(vec![1, 0, 0]));
    assert_eq!(CoapOption::should_be_string(b"hi", 1, 4), Value::String("hi".to_string()));
    assert_eq!(CoapOption::should_be_string(b"", 1, 4), Value::Opaque(vec![]));
    assert_eq!(CoapOption::should_be_opaque(&[3], 5, 6), Value::Opaque(vec![3]));
}

#[test]
fn typed_get_and_push() {
    let mut opts = Options::new();
    opts.push(CoapOption::UriPort(5683));
    opts.push_raw(7, vec![1, 2, 3]);
    assert_eq!(
        opts.get(7),
        Some(vec![CoapOption::UriPort(5683), CoapOption::Unknown((7, vec![1, 2, 3]))])
    );
    assert_eq!(opts.get(8), None);
}

#[test]
fn decimal_numbers() {
    assert_eq!(parse_u64(b"42"), Some(42));
    assert_eq!(parse_u64(b"+7"), Some(7));
    assert_eq!(parse_u64(b"007"), Some(7));
    assert_eq!(parse_u64(b"18446744073709551615"), Some(u64::MAX));
    assert_eq!(parse_u64(b"18446744073709551616"), None);
    assert_eq!(parse_u64(b""), None);
    assert_eq!(parse_u64(b"+"), None);
    assert_eq!(parse_u64(b"-1"), None);
    assert_eq!(parse_u64(b"4 2"), None);
    let mut codec = IntCodec;
    assert_eq!(codec.decode(b"21"), Some(21));
    let mut out = vec![];
    codec.encode(42, &mut out);
    codec.encode(0, &mut out);
    codec.encode(u64::MAX, &mut out);
    assert_eq!(out, b"42\n0\n18446744073709551615\n".to_vec());
}
