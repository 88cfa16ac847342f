//! The errors that the library reports at its boundary.
use vstd::prelude::*;
use crate::message::Error as MessageError;

verus! {

/// Why a URI could not be turned into an endpoint and options.
#[derive(PartialEq, Eq, Debug, Clone)]
pub enum UrlError {
    /// The text could not be parsed as a URI.
    Parse,
    /// A path or query segment was not UTF-8 after percent-decoding.
    NonUtf8,
    /// The scheme was not `coap`.
    UnsupportedScheme(String),
    /// The URI had no host, or a path that was not absolute.
    NonAbsolutePath,
    /// The URI held a fragment.
    FragmentSpecified,
}

/// Every error that the library reports.
#[derive(PartialEq, Eq, Debug, Clone)]
pub enum Error {
    /// The retransmission budget ran out, or a deadline passed.
    Timeout,
    /// A message could not be encoded or decoded.
    Message(MessageError),
    /// The socket failed, or the endpoint was unset.
    Io,
    /// A URI could not be decomposed.
    Url(UrlError),
    /// The host name could not be resolved.
    Resolution,
    /// The request was dropped before it completed.
    Canceled,
    /// The peer reset the request, or sent what its state did not allow.
    Protocol,
    /// The message id is already taken by an outstanding request.
    IdInUse,
}

impl From<MessageError> for Error {
    fn from(e: MessageError) -> (r: Error)
        ensures
            r == Error::Message(e),
    {
        Error::Message(e)
    }
}

impl vstd::std_specs::convert::FromSpecImpl<MessageError> for Error {
    open spec fn obeys_from_spec() -> bool {
        true
    }

    open spec fn from_spec(e: MessageError) -> Error {
        Error::Message(e)
    }
}

impl From<UrlError> for Error {
    fn from(e: UrlError) -> (r: Error)
        ensures
            r == Error::Url(e),
    {
        Error::Url(e)
    }
}

impl vstd::std_specs::convert::FromSpecImpl<UrlError> for Error {
    open spec fn obeys_from_spec() -> bool {
        true
    }

    open spec fn from_spec(e: UrlError) -> Error {
        Error::Url(e)
    }
}

} // verus!
