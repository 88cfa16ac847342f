//! The message token, held in a `SmallVec` that keeps up to eight bytes inline.
use vstd::prelude::*;
use smallvec::SmallVec;

verus! {

/// A token of up to eight bytes, stored inline without allocation.
#[verifier::external_body]
#[derive(Debug, PartialEq, Eq)]
pub struct Token {
    bytes: SmallVec<[u8; 8]>,
}

/// The bytes that a token holds, in order.
pub uninterp spec fn token_bytes(t: Token) -> Seq<u8>;

impl View for Token {
    type V = Seq<u8>;

    open spec fn view(&self) -> Seq<u8> {
        token_bytes(*self)
    }
}

impl Token {
    /// Relies on smallvec::SmallVec::from_slice: the new vector holds a copy of the slice.
    #[verifier::external_body]
    pub fn from_slice(s: &[u8]) -> (r: Token)
        ensures
            token_bytes(r) == s@,
    {
        Token { bytes: SmallVec::from_slice(s) }
    }

    /// Relies on smallvec::SmallVec::as_slice: the slice of every element, in order.
    #[verifier::external_body]
    pub fn as_slice(&self) -> (r: &[u8])
        ensures
            r@ == token_bytes(*self),
    {
        self.bytes.as_slice()
    }

    /// The number of bytes in the token.
    pub fn len(&self) -> (r: usize)
        ensures
            r == self@.len(),
    {
        self.as_slice().len()
    }
}

} // verus!
