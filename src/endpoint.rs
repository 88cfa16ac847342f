//! Peer addresses and endpoints.
use vstd::prelude::*;
use crate::error::Error;

verus! {

/// A peer's socket address as plain values: the address bits (an IPv4
/// address in the low 32 bits when `is_v6` is false) and the port.
#[derive(PartialEq, Eq, Structural, Clone, Copy, Debug, Hash)]
pub struct PeerAddr {
    pub ip: u128,
    pub is_v6: bool,
    pub port: u16,
}

/// Where a peer is: not set, a known address, or a host name and port that
/// still have to be resolved.
#[derive(PartialEq, Eq, Debug, Clone)]
pub enum Endpoint {
    Unset,
    Resolved(PeerAddr),
    Unresolved(String, u16),
}

/// What resolving an endpoint takes.
#[derive(PartialEq, Eq, Debug, Clone)]
pub enum Resolution {
    /// The address is known.
    Ready(PeerAddr),
    /// The host name must be looked up; the port is the endpoint's.
    Lookup(String, u16),
}

impl Endpoint {
    /// An unset endpoint fails with an I/O error; a resolved one gives its
    /// address; an unresolved one asks for a lookup of its host.
    pub fn resolve(self) -> (r: Result<Resolution, Error>)
        ensures
            self is Unset ==> r == Err::<Resolution, Error>(Error::Io),
            self is Resolved ==> r == Ok::<Resolution, Error>(Resolution::Ready(self->Resolved_0)),
            self is Unresolved ==> r is Ok && r->Ok_0 is Lookup && r->Ok_0->Lookup_0@
                == self->Unresolved_0@ && r->Ok_0->Lookup_1 == self->Unresolved_1,
    {
        match self {
            Endpoint::Unset => Err(Error::Io),
            Endpoint::Resolved(addr) => Ok(Resolution::Ready(addr)),
            Endpoint::Unresolved(host, port) => Ok(Resolution::Lookup(host, port)),
        }
    }
}

/// The address that a lookup resolves to: the first one found, with the
/// endpoint's port. A lookup that found nothing is a resolution error.
pub fn pick_address(found: &[PeerAddr], port: u16) -> (r: Result<PeerAddr, Error>)
    ensures
        found@.len() == 0 ==> r == Err::<PeerAddr, Error>(Error::Resolution),
        found@.len() > 0 ==> r == Ok::<PeerAddr, Error>(PeerAddr { port, ..found@[0] }),
{
    if found.len() == 0 {
        Err(Error::Resolution)
    } else {
        Ok(PeerAddr { port, ..found[0] })
    }
}

} // verus!
