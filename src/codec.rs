//! Whole datagrams in and out of a message stream.
use vstd::prelude::*;
use crate::error::Error;
use crate::message::{Code, Error as MessageError, Message};
use crate::wire::{encodable, encode_message, parse_message};

verus! {

/// Frames messages as datagrams: one message per datagram.
pub struct CoapCodec;

impl CoapCodec {
    /// Appends the encoding of `msg` to `dst`; a message that cannot be
    /// encoded leaves `dst` as it was.
    pub fn encode(&mut self, msg: &Message, dst: &mut Vec<u8>) -> (r: Result<(), Error>)
        ensures
            r is Ok <==> encodable(msg@),
            r is Ok ==> final(dst)@ == old(dst)@ + encode_message(msg@),
            r is Err ==> final(dst)@ == old(dst)@ && r == Err::<(), Error>(
                Error::Message(MessageError::MessageFormat),
            ),
    {
        match msg.to_bytes() {
            Ok(bytes) => {
                let mut i: usize = 0;
                let ghost start = dst@;
                while i < bytes.len()
                    invariant
                        i <= bytes@.len(),
                        dst@ == start + bytes@.take(i as int),
                    decreases bytes@.len() - i,
                {
                    dst.push(bytes[i]);
                    assert(dst@ =~= start + bytes@.take(i + 1));
                    i = i + 1;
                }
                assert(bytes@.take(i as int) =~= bytes@);
                Ok(())
            },
            Err(e) => Err(Error::Message(e)),
        }
    }

    /// The message in `buf`, or `None` when it does not decode: a datagram
    /// that is not a message is skipped, never an error of the stream.
    pub fn decode(&mut self, buf: &[u8]) -> (r: Option<Message>)
        ensures
            r is Some <==> parse_message(buf@) is Some,
            r is Some ==> r->Some_0@ == parse_message(buf@)->Some_0,
            r is Some ==> r->Some_0.code == Code::spec_from_u8(buf@[1]),
    {
        match Message::from_bytes(buf) {
            Ok(msg) => Some(msg),
            Err(_) => None,
        }
    }
}

} // verus!
