use tokio_coap::message::{Code, Error, Message, Mtype};
use tokio_coap::option::Option as CoapOption;
use tokio_coap::options::Options;
use tokio_coap::token::Token;

const WITH_OPTS: [u8; 57] = [
    0x40, 0x02, 0x00, 0x37, 0xb2, 0x31, 0x61, 0x04, 0x74, 0x65, 0x6d, 0x70, 0x4d, 0x1b, 0x61, 0x33,
    0x32, 0x63, 0x38, 0x35, 0x62, 0x61, 0x39, 0x64, 0x64, 0x61, 0x34, 0x35, 0x38, 0x32, 0x33, 0x62,
    0x65, 0x34, 0x31, 0x36, 0x32, 0x34, 0x36, 0x63, 0x66, 0x38, 0x62, 0x34, 0x33, 0x33, 0x62, 0x61,
    0x61, 0x30, 0x36, 0x38, 0x64, 0x37, 0xFF, 0x39, 0x39,
];

fn typed(opts: &Options) -> Vec<CoapOption> {
    let mut it = opts.iter();
    let mut out = Vec::new();
    while let Some((number, bytes)) = it.next() {
        out.push(CoapOption::from_raw(number, bytes));
    }
    out
}

fn uri_opts() -> Options {
    let mut opts = Options::new();
    opts.push(CoapOption::UriPath("1a".to_owned()));
    opts.push(CoapOption::UriPath("temp".to_owned()));
    opts.push(CoapOption::UriQuery("a32c85ba9dda45823be416246cf8b433baa068d7".to_owned()));
    opts
}

#[test]
fn message_test_msg_parse_empty() {
    let ref_bin = [64, 0, 0, 0];

    let msg = Message::from_bytes(&ref_bin).unwrap();

    assert!(msg.version == 1);
    assert!(msg.mtype == Mtype::Confirmable);
    assert!(msg.code == Code::Empty);
    assert!(msg.code.class() == 0);
    assert!(msg.code.detail() == 0);
    assert!(msg.mid == 0);
    assert!(msg.token.len() == 0);
    assert!(msg.options.len() == 0);
    assert!(msg.payload.len() == 0);
}

#[test]
fn mod_test_msg_parse_empty() {
    let ref_bin = [64, 0, 0, 0];

    let msg = Message::from_bytes(&ref_bin).unwrap();

    assert!(msg.version == 1);
    assert!(msg.mtype == Mtype::Confirmable);
    assert!(msg.code == Code::Empty);
    assert!(msg.code.class() == 0);
    assert!(msg.code.detail() == 0);
    assert!(msg.mid == 0);
    assert!(msg.token.len() == 0);
    assert!(msg.options == Options::new());
    assert!(msg.payload.len() == 0);
}

fn empty_message() -> Message {
    Message {
        version: 1,
        mtype: Mtype::Confirmable,
        code: Code::Empty,
        mid: 0,
        token: Token::from_slice(&[]),
        options: Options::new(),
        payload: vec![],
    }
}

#[test]
fn message_test_msg_serialize_empty() {
    let ref_bin = [64, 0, 0, 0];
    let msg = empty_message();

    let test_bin = msg.to_bytes().unwrap();

    assert!(test_bin == ref_bin);
}

#[test]
fn mod_test_msg_serialize_empty() {
    let ref_bin = [64, 0, 0, 0];
    let msg = empty_message();

    let test_bin = msg.to_bytes().unwrap();

    assert!(test_bin == ref_bin);
}

fn check_empty_con_with_token(msg: &Message) {
    assert!(msg.version == 1);
    assert!(msg.mtype == Mtype::Confirmable);
    assert!(msg.code == Code::Empty);
    assert!(msg.code.class() == 0);
    assert!(msg.code.detail() == 0);
    assert!(msg.mid == 0);
    assert!(msg.token.as_slice() == [37, 42]);
    assert!(msg.options.len() == 0);
    assert!(msg.payload.len() == 0);
}

#[test]
fn message_test_msg_parse_empty_con_with_token() {
    let ref_bin = [66, 0, 0, 0, 37, 42];

    let msg = Message::from_bytes(&ref_bin).unwrap();

    check_empty_con_with_token(&msg);
}

#[test]
fn mod_test_msg_parse_empty_con_with_token() {
    let ref_bin = [66, 0, 0, 0, 37, 42];

    let msg = Message::from_bytes(&ref_bin).unwrap();

    check_empty_con_with_token(&msg);
    assert!(msg.options == Options::new());
}

fn check_get_con(msg: &Message) {
    assert!(msg.version == 1);
    assert!(msg.mtype == Mtype::Confirmable);
    assert!(msg.code == Code::Get);
    assert!(msg.code.class() == 0);
    assert!(msg.code.detail() == 1);
    assert!(msg.mid == 0x37);
    assert!(msg.token.as_slice() == [0x99]);
    assert!(msg.options.len() == 0);
    assert!(msg.payload == [0x01, 0x02]);
}

#[test]
fn message_test_msg_parse_get_con() {
    let ref_bin = [0x41, 0x01, 0x00, 0x37, 0x99, 0xFF, 0x01, 0x02];

    let msg = Message::from_bytes(&ref_bin).unwrap();

    check_get_con(&msg);
}

#[test]
fn mod_test_msg_parse_get_con() {
    let ref_bin = [0x41, 0x01, 0x00, 0x37, 0x99, 0xFF, 0x01, 0x02];

    let msg = Message::from_bytes(&ref_bin).unwrap();

    check_get_con(&msg);
    assert!(msg.options == Options::new());
}

fn check_get_con_with_opts(msg: &Message) {
    assert!(msg.version == 1);
    assert!(msg.mtype == Mtype::Confirmable);
    assert!(msg.code == Code::Post);
    assert!(msg.code.class() == 0);
    assert!(msg.code.detail() == 2);
    assert!(msg.mid == 0x0037);
    assert!(msg.token.len() == 0);
    assert!(msg.payload == [0x39, 0x39]);
}

#[test]
fn message_test_msg_parse_get_con_with_opts() {
    let msg = Message::from_bytes(&WITH_OPTS).unwrap();

    check_get_con_with_opts(&msg);
    assert!(
        typed(&msg.options)
            == [
                CoapOption::UriPath("1a".to_string()),
                CoapOption::UriPath("temp".to_string()),
                CoapOption::UriQuery("a32c85ba9dda45823be416246cf8b433baa068d7".to_string())
            ]
    );
}

#[test]
fn mod_test_msg_parse_get_con_with_opts() {
    let opts = uri_opts();

    let msg = Message::from_bytes(&WITH_OPTS).unwrap();

    check_get_con_with_opts(&msg);
    assert!(msg.options == opts);
}

fn post_with_opts() -> Message {
    Message {
        version: 1,
        mtype: Mtype::Confirmable,
        code: Code::Post,
        mid: 0x0037,
        token: Token::from_slice(&[]),
        options: uri_opts(),
        payload: vec![0x39, 0x39],
    }
}

#[test]
fn message_test_msg_encode_get_con_with_opts() {
    let msg = post_with_opts();

    let test_bin = msg.to_bytes().unwrap();

    assert!(test_bin.len() == WITH_OPTS.len());

    for i in 0..WITH_OPTS.len() {
        assert_eq!(test_bin[i], WITH_OPTS[i]);
    }
}

#[test]
fn mod_test_msg_encode_get_con_with_opts() {
    let msg = post_with_opts();

    let test_bin = msg.to_bytes().unwrap();

    assert!(test_bin.len() == WITH_OPTS.len());

    for i in 0..WITH_OPTS.len() {
        assert_eq!(test_bin[i], WITH_OPTS[i]);
    }
}

#[test]
fn scenario_empty_confirmable_both_ways() {
    let msg = Message::from_bytes(&[0x40, 0x00, 0x00, 0x00]).unwrap();
    assert_eq!(msg, empty_message());
    assert_eq!(empty_message().to_bytes().unwrap(), vec![0x40, 0x00, 0x00, 0x00]);
}

#[test]
fn scenario_token_and_no_payload() {
    let msg = Message::from_bytes(&[0x42, 0x00, 0x00, 0x00, 0x25, 0x2A]).unwrap();
    assert_eq!(msg.token.as_slice(), &[0x25, 0x2A]);
    assert_eq!(msg.code, Code::Empty);
    assert_eq!(msg.mid, 0);
    assert!(msg.payload.is_empty());
    assert_eq!(msg.to_bytes().unwrap(), vec![0x42, 0x00, 0x00, 0x00, 0x25, 0x2A]);
}

#[test]
fn scenario_get_with_payload_encodes() {
    let msg = Message::new().with_token(&[0x99]).with_mid(0x0037).with_payload(vec![1, 2]);
    assert_eq!(msg.to_bytes().unwrap(), vec![0x41, 0x01, 0x00, 0x37, 0x99, 0xFF, 0x01, 0x02]);
}

#[test]
fn scenario_post_with_options_round_trip() {
    let msg = Message::from_bytes(&WITH_OPTS).unwrap();
    assert_eq!(msg.to_bytes().unwrap(), WITH_OPTS.to_vec());
    assert_eq!(msg, post_with_opts());
}

#[test]
fn token_lengths_zero_one_eight_encode_nine_rejected() {
    for len in [0usize, 1, 8] {
        let token: Vec<u8> = (0..len as u8).collect();
        let msg = Message::new().with_token(&token).with_code(Code::Empty);
        let bytes = msg.to_bytes().unwrap();
        assert_eq!(bytes[0], 0x40 | len as u8);
        let back = Message::from_bytes(&bytes).unwrap();
        assert_eq!(back.token.as_slice(), token.as_slice());
    }
    let msg = Message::new().with_token(&[0; 9]);
    assert_eq!(msg.to_bytes(), Err(Error::MessageFormat));
}

#[test]
fn token_length_nine_in_header_rejected() {
    let bytes = [0x49, 0x01, 0x00, 0x01, 1, 2, 3, 4, 5, 6, 7, 8, 9];
    assert_eq!(Message::from_bytes(&bytes), Err(Error::MessageFormat));
}

fn with_raw(options: &[(u16, Vec<u8>)]) -> Message {
    let mut msg = Message::new();
    for (n, v) in options {
        msg.options.push_raw(*n, v.clone());
    }
    msg
}

#[test]
fn option_delta_each_encoding_case() {
    // delta 12: nibble only
    let b = with_raw(&[(12, vec![])]).to_bytes().unwrap();
    assert_eq!(&b[4..], &[0xC0]);
    // delta 13 and 268: one extension byte
    let b = with_raw(&[(13, vec![])]).to_bytes().unwrap();
    assert_eq!(&b[4..], &[0xD0, 0x00]);
    let b = with_raw(&[(268, vec![])]).to_bytes().unwrap();
    assert_eq!(&b[4..], &[0xD0, 0xFF]);
    // delta 269 and 64999: two extension bytes
    let b = with_raw(&[(269, vec![])]).to_bytes().unwrap();
    assert_eq!(&b[4..], &[0xE0, 0x00, 0x00]);
    let b = with_raw(&[(64999, vec![])]).to_bytes().unwrap();
    assert_eq!(&b[4..], &[0xE0, 0xFC, 0xDA]);
    for n in [0u16, 12, 13, 268, 269, 64999, 65000] {
        let msg = with_raw(&[(n, vec![7])]);
        let back = Message::from_bytes(&msg.to_bytes().unwrap()).unwrap();
        assert_eq!(back, msg);
    }
}

#[test]
fn option_number_above_limit_rejected() {
    let msg = with_raw(&[(65001, vec![])]);
    assert_eq!(msg.to_bytes(), Err(Error::MessageFormat));
    // delta 65001 encoded by hand: 0xE0, 65001 - 269 = 0xFDE4
    let bytes = [0x40, 0x01, 0x00, 0x01, 0xE0, 0xFD, 0xE4];
    assert_eq!(Message::from_bytes(&bytes), Err(Error::MessageFormat));
}

#[test]
fn option_length_each_encoding_case() {
    for (len, header) in [
        (12usize, vec![0xBCu8]),
        (13, vec![0xBD, 0x00]),
        (268, vec![0xBD, 0xFF]),
        (269, vec![0xBE, 0x00, 0x00]),
        (1000, vec![0xBE, 0x02, 0xDB]),
    ] {
        let msg = with_raw(&[(11, vec![b'a'; len])]);
        let b = msg.to_bytes().unwrap();
        assert_eq!(&b[4..4 + header.len()], header.as_slice());
        assert_eq!(b.len(), 4 + header.len() + len);
        assert_eq!(Message::from_bytes(&b).unwrap(), msg);
    }
    let msg = with_raw(&[(11, vec![0; 65000])]);
    assert_eq!(msg.to_bytes(), Err(Error::MessageFormat));
}

#[test]
fn payload_marker_without_payload_rejected() {
    assert_eq!(Message::from_bytes(&[0x40, 0x01, 0x00, 0x01, 0xFF]), Err(Error::MessageFormat));
}

#[test]
fn reserved_nibble_rejected() {
    assert_eq!(Message::from_bytes(&[0x40, 0x01, 0x00, 0x01, 0xF1, 0x00]), Err(Error::MessageFormat));
    assert_eq!(Message::from_bytes(&[0x40, 0x01, 0x00, 0x01, 0x1F]), Err(Error::MessageFormat));
    assert_eq!(Message::from_bytes(&[0x40, 0x01, 0x00, 0x01, 0x13, 0x61]), Err(Error::MessageFormat));
}

#[test]
fn short_header_and_bad_version_rejected() {
    assert_eq!(Message::from_bytes(&[0x40, 0x01, 0x00]), Err(Error::MessageFormat));
    assert_eq!(Message::from_bytes(&[0x80, 0x01, 0x00, 0x00]), Err(Error::MessageFormat));
    let msg = Message::new();
    let mut bad = msg;
    bad.version = 2;
    assert_eq!(bad.to_bytes(), Err(Error::MessageFormat));
}

#[test]
fn duplicate_option_numbers_keep_order() {
    let msg = with_raw(&[(11, b"b".to_vec()), (4, b"x".to_vec()), (11, b"a".to_vec())]);
    let b = msg.to_bytes().unwrap();
    let back = Message::from_bytes(&b).unwrap();
    assert_eq!(back.options.get_raw(11), Some(vec![b"b".to_vec(), b"a".to_vec()]));
    assert_eq!(back, msg);
}

#[test]
fn unknown_option_round_trips_as_opaque() {
    let msg = with_raw(&[(2000, vec![1, 2, 3])]);
    let back = Message::from_bytes(&msg.to_bytes().unwrap()).unwrap();
    assert_eq!(back.options.get_raw(2000), Some(vec![vec![1, 2, 3]]));
    assert_eq!(back.options.get(2000), Some(vec![CoapOption::Unknown((2000, vec![1, 2, 3]))]));
}

#[test]
fn encode_then_decode_gives_message() {
    let msg = Message::new()
        .with_mtype(Mtype::NonConfirmable)
        .with_code(Code::Unknown(0x47))
        .with_mid(0xBEEF)
        .with_token(&[1, 2, 3])
        .with_option(CoapOption::UriHost("example.net".to_string()))
        .with_option(CoapOption::Observe(0))
        .with_option(CoapOption::MaxAge(60))
        .with_payload(b"hello".to_vec());
    let back = Message::from_bytes(&msg.to_bytes().unwrap()).unwrap();
    assert_eq!(back, msg);
}

#[test]
fn decode_then_encode_gives_bytes() {
    let bytes = [0x52, 0x45, 0x12, 0x34, 0xAA, 0xBB, 0x61, 0x05, 0xD1, 0x00, 0x00, 0xFF, 0x68, 0x69];
    let msg = Message::from_bytes(&bytes).unwrap();
    assert_eq!(msg.mtype, Mtype::NonConfirmable);
    assert_eq!(msg.code, Code::Content);
    assert_eq!(msg.options.get_raw(6), Some(vec![vec![0x05]]));
    assert_eq!(msg.options.get_raw(19), Some(vec![vec![0x00]]));
    assert_eq!(msg.to_bytes().unwrap(), bytes.to_vec());
}

#[test]
fn reply_keeps_id_and_token() {
    let req = Message::new().with_mid(77).with_token(&[9, 8]);
    let reply = req.new_reply();
    assert_eq!(reply.mtype, Mtype::Acknowledgement);
    assert_eq!(reply.mid, 77);
    assert_eq!(reply.token.as_slice(), &[9, 8]);
}

#[test]
fn code_bytes_and_parts() {
    assert_eq!(Code::from_u8(143), Code::UnsupportedContentFormat);
    assert_eq!(Code::UnsupportedContentFormat.as_u8(), 143);
    assert_eq!(Code::from_u8(142), Code::Unknown(142));
    assert_eq!(Code::Content.as_u8(), 69);
    assert_eq!(Code::Content.class(), 2);
    assert_eq!(Code::Content.detail(), 5);
    assert_eq!(Code::build(5, 3), 163);
    assert_eq!(Code::build(9, 33), 33);
    for b in 0..=255u8 {
        assert_eq!(Code::from_u8(b).as_u8(), b);
    }
    assert_eq!(Mtype::from_u8(6), Mtype::Acknowledgement);
    assert_eq!(Mtype::Reset.as_u8(), 3);
}
