use tokio_coap::codec::CoapCodec;
use tokio_coap::connection::{self, Connection, Inbound, State as ConnState, Timer, Transmission};
use tokio_coap::endpoint::{pick_address, Endpoint, PeerAddr, Resolution};
use tokio_coap::error::Error;
use tokio_coap::message::{Error as MessageError, Message, Mtype};
use tokio_coap::socket::{self, CoapSocket, Routed, State as SocketState};

fn addr(last: u8, port: u16) -> PeerAddr {
    PeerAddr { ip: u128::from(u32::from_be_bytes([192, 0, 2, last])), is_v6: false, port }
}

fn reply(mid: u16, mtype: Mtype) -> Vec<u8> {
    Message::new().with_mid(mid).with_mtype(mtype).to_bytes().unwrap()
}

#[test]
fn connection_assigns_ids_and_records_requests() {
    let mut c = Connection::new(addr(1, 5683), Transmission::default());
    let (mid, bytes) = c.send(Message::new()).unwrap();
    assert_eq!(mid, 1);
    assert_eq!(bytes, vec![0x40, 0x01, 0x00, 0x01]);
    let (mid2, _) = c.send(Message::new()).unwrap();
    assert_eq!(mid2, 2);
    let (mid3, _) = c.send(Message::new().with_mid(0x1234)).unwrap();
    assert_eq!(mid3, 0x1234);
    assert_eq!(c.outstanding(), 3);
    assert_eq!(c.send(Message::new().with_mid(2)), Err(Error::IdInUse));
    assert_eq!(
        c.send(Message::new().with_token(&[0; 9])),
        Err(Error::Message(MessageError::MessageFormat))
    );
    assert_eq!(c.outstanding(), 3);
}

#[test]
fn connection_correlates_inbound_by_id() {
    let mut c = Connection::new(addr(1, 5683), Transmission::default());
    let (mid, _) = c.send(Message::new()).unwrap();
    let ack = Message::new().with_mid(mid).with_mtype(Mtype::Acknowledgement);
    assert_eq!(c.handle_msg(&ack), Inbound::Deliver(mid));
    // acknowledged: its timer no longer resends
    assert_eq!(c.on_timeout(mid), Timer::Idle);
    let stray = Message::new().with_mid(999).with_mtype(Mtype::Acknowledgement);
    assert_eq!(c.handle_msg(&stray), Inbound::Dropped);
    let stray_reset = Message::new().with_mid(999).with_mtype(Mtype::Reset);
    assert_eq!(c.handle_msg(&stray_reset), Inbound::Dropped);
    let request = Message::new().with_mid(500).with_mtype(Mtype::Confirmable);
    assert_eq!(c.handle_msg(&request), Inbound::Request);
    let reset = Message::new().with_mid(mid).with_mtype(Mtype::Reset);
    assert_eq!(c.handle_msg(&reset), Inbound::Reset(mid));
    assert_eq!(c.outstanding(), 0);
}

#[test]
fn retransmission_three_sends_then_timeout() {
    let params = Transmission { ack_timeout_ms: 100, max_retransmit: 2 };
    let mut c = Connection::new(addr(9, 5683), params);
    let (mid, first) = c.send(Message::new()).unwrap();
    let mut sends = 1;
    let mut waits = vec![c.first_timeout()];
    loop {
        match c.on_timeout(mid) {
            Timer::Resend(bytes, wait) => {
                assert_eq!(bytes, first);
                sends += 1;
                waits.push(wait);
            }
            Timer::Expired => break,
            Timer::Idle => panic!("request went idle"),
        }
    }
    assert_eq!(sends, 3);
    assert_eq!(waits, vec![100, 200, 400]);
    assert_eq!(c.outstanding(), 0);
    assert_eq!(c.on_timeout(mid), Timer::Idle);
}

#[test]
fn non_confirmable_is_not_retransmitted() {
    let mut c = Connection::new(addr(9, 5683), Transmission::default());
    let (mid, _) = c.send(Message::new().with_mtype(Mtype::NonConfirmable)).unwrap();
    assert_eq!(c.on_timeout(mid), Timer::Idle);
}

#[test]
fn default_backoff_doubles() {
    let mut c = Connection::new(addr(9, 5683), Transmission::default());
    let (mid, _) = c.send(Message::new()).unwrap();
    assert_eq!(c.first_timeout(), 2000);
    let mut waits = vec![];
    while let Timer::Resend(_, w) = c.on_timeout(mid) {
        waits.push(w);
    }
    assert_eq!(waits, vec![4000, 8000, 16000, 32000]);
}

#[test]
fn cancel_and_drop() {
    let mut c = Connection::new(addr(1, 1), Transmission::default());
    let (mid, _) = c.send(Message::new()).unwrap();
    assert!(!c.can_drop(0));
    assert!(c.cancel(mid));
    assert!(!c.cancel(mid));
    assert!(c.can_drop(0));
    assert!(!c.can_drop(1));
}

#[test]
fn dispatcher_routes_reply_to_its_connection_only() {
    let a = addr(1, 5683);
    let b = addr(2, 5683);
    let mut d = CoapSocket::new(Transmission::default(), false);
    let (ia, sent_a) = d.submit(a, Message::new());
    let (ib, sent_b) = d.submit(b, Message::new());
    let (mid_a, _) = sent_a.unwrap();
    let (mid_b, _) = sent_b.unwrap();
    assert_ne!(ia, ib);
    assert_eq!(mid_a, 1);
    assert_eq!(mid_b, 1);
    let routed = d.receive(&reply(mid_a, Mtype::Acknowledgement), a);
    assert_eq!(routed, Routed::Connection(ia, Inbound::Deliver(mid_a)));
    // B's request still waits for its acknowledgement and is resent on timeout.
    assert_eq!(d.connection(ib).outstanding(), 1);
    assert_eq!(d.connection(ib).remote_addr(), b);
    assert_eq!(d.connection(ia).remote_addr(), a);
    assert_eq!(d.len(), 2);
}

#[test]
fn dispatcher_drops_unknown_and_malformed() {
    let mut d = CoapSocket::new(Transmission::default(), false);
    assert_eq!(d.receive(&reply(5, Mtype::Confirmable), addr(3, 1)), Routed::Dropped);
    assert_eq!(d.len(), 0);
    assert_eq!(d.receive(&[0x40, 0x01], addr(3, 1)), Routed::Malformed);
}

#[test]
fn dispatcher_accepts_new_peer_when_serving() {
    let mut d = CoapSocket::new(Transmission::default(), true);
    let routed = d.receive(&reply(5, Mtype::Confirmable), addr(3, 1));
    assert_eq!(routed, Routed::Connection(0, Inbound::Request));
    assert_eq!(d.len(), 1);
    assert_eq!(d.get_or_new_connection(addr(3, 1)), 0);
    assert_eq!(d.find_connection(addr(3, 2)), None);
}

#[test]
fn socket_poll_round_robin_and_suspend() {
    let s = socket::poll_step(SocketState::Idle, false, 0);
    assert_eq!(s.state, SocketState::PollSocket);
    let s = socket::poll_step(SocketState::PollSocket, true, 0);
    assert_eq!((s.state, s.idle_count, s.suspend), (SocketState::PollMessageChannel, 0, false));
    let s = socket::poll_step(SocketState::PollMessageChannel, false, 1);
    assert_eq!((s.state, s.idle_count, s.suspend), (SocketState::PollConnectionChannel, 2, false));
    let s = socket::poll_step(SocketState::PollConnectionChannel, false, 2);
    assert_eq!((s.state, s.idle_count, s.suspend), (SocketState::PollSocket, 3, true));
    let s = socket::poll_step(SocketState::PollMessageChannel, true, 2);
    assert_eq!(s.state, SocketState::SendSocket);
    let s = socket::poll_step(SocketState::SendSocket, false, 0);
    assert_eq!((s.state, s.suspend), (SocketState::SendSocket, true));
    let s = socket::poll_step(SocketState::Flush, true, 0);
    assert_eq!(s.state, SocketState::PollConnectionChannel);
}

#[test]
fn connection_poll_order() {
    let s = connection::poll_step(ConnState::Idle, false, 0);
    assert_eq!(s.state, ConnState::PollRequestReceiver);
    let s = connection::poll_step(ConnState::PollRequestReceiver, true, 0);
    assert_eq!(s.state, ConnState::SendRequest);
    let s = connection::poll_step(ConnState::Flush, true, 0);
    assert_eq!(s.state, ConnState::PollResponseReceiver);
    let s = connection::poll_step(ConnState::PollRequestReceiver, false, 0);
    assert_eq!((s.state, s.idle_count, s.suspend), (ConnState::PollResponseReceiver, 1, false));
    let s = connection::poll_step(ConnState::PollResponseReceiver, false, 1);
    assert_eq!((s.state, s.suspend), (ConnState::Idle, true));
}

#[test]
fn endpoint_resolution() {
    assert_eq!(Endpoint::Unset.resolve(), Err(Error::Io));
    let a = addr(7, 61616);
    assert_eq!(Endpoint::Resolved(a).resolve(), Ok(Resolution::Ready(a)));
    assert_eq!(
        Endpoint::Unresolved("example.net".to_string(), 5683).resolve(),
        Ok(Resolution::Lookup("example.net".to_string(), 5683))
    );
    assert_eq!(pick_address(&[], 5683), Err(Error::Resolution));
    assert_eq!(pick_address(&[addr(1, 0), addr(2, 0)], 5683), Ok(addr(1, 5683)));
}

#[test]
fn codec_frames_and_skips() {
    let mut codec = CoapCodec;
    let mut buf = vec![0xAA];
    codec.encode(&Message::new().with_mid(3), &mut buf).unwrap();
    assert_eq!(buf, vec![0xAA, 0x40, 0x01, 0x00, 0x03]);
    let bad = Message::new().with_token(&[0; 9]);
    assert_eq!(codec.encode(&bad, &mut buf), Err(Error::Message(MessageError::MessageFormat)));
    assert_eq!(buf.len(), 5);
    assert_eq!(codec.decode(&buf[1..]).unwrap().mid, 3);
    assert!(codec.decode(&buf).is_none());
}

#[test]
fn error_from_message_error() {
    assert_eq!(Error::from(MessageError::InvalidToken), Error::Message(MessageError::InvalidToken));
}

#[test]
fn separate_response_matched_by_token() {
    let mut c = Connection::new(addr(1, 5683), Transmission::default());
    let (mid, _) = c.send(Message::new().with_token(&[0xAB, 0xCD])).unwrap();
    let ack = Message::new().with_mid(mid).with_mtype(Mtype::Acknowledgement);
    assert_eq!(c.handle_msg(&ack), Inbound::Deliver(mid));
    let separate = Message::new().with_mid(0x7000).with_mtype(Mtype::Confirmable).with_token(&[0xAB, 0xCD]);
    assert_eq!(c.handle_msg(&separate), Inbound::Deliver(mid));
    let other = Message::new().with_mid(0x7001).with_mtype(Mtype::NonConfirmable).with_token(&[0xAB]);
    assert_eq!(c.handle_msg(&other), Inbound::Request);
    let stray_ack = Message::new().with_mid(0x7002).with_mtype(Mtype::Acknowledgement).with_token(&[0xAB, 0xCD]);
    assert_eq!(c.handle_msg(&stray_ack), Inbound::Dropped);
}

#[test]
fn empty_token_is_not_a_correlation() {
    let mut c = Connection::new(addr(1, 5683), Transmission::default());
    let _ = c.send(Message::new()).unwrap();
    let request = Message::new().with_mid(0x7000).with_mtype(Mtype::Confirmable);
    assert_eq!(c.handle_msg(&request), Inbound::Request);
}
