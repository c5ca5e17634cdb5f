//! Networking helpers: socket addresses as plain values, the byte order of
//! ports, and the policy by which an operation is tried on each address
//! that a name resolves to.

use vstd::prelude::*;
use crate::io::{Error, ErrorKind};

verus! {

/// Which part of a stream a shutdown closes.
#[derive(Copy, Clone, PartialEq, Eq, Debug, Structural)]
pub enum Shutdown {
    /// Reading: from then on reads see the end of the stream.
    Read,
    /// Writing: from then on writes fail.
    Write,
    /// Both.
    Both,
}

impl Shutdown {
    /// The shutdown closes the reading part.
    pub open spec fn spec_closes_read(&self) -> bool {
        *self == Shutdown::Read || *self == Shutdown::Both
    }

    /// The shutdown closes the writing part.
    pub open spec fn spec_closes_write(&self) -> bool {
        *self == Shutdown::Write || *self == Shutdown::Both
    }

    /// Whether reads see the end of the stream afterwards.
    #[verifier::when_used_as_spec(spec_closes_read)]
    pub fn closes_read(&self) -> (closes: bool)
        ensures
            closes == self.spec_closes_read(),
    {
        match self {
            Shutdown::Read => true,
            Shutdown::Write => false,
            Shutdown::Both => true,
        }
    }

    /// Whether writes fail afterwards.
    #[verifier::when_used_as_spec(spec_closes_write)]
    pub fn closes_write(&self) -> (closes: bool)
        ensures
            closes == self.spec_closes_write(),
    {
        match self {
            Shutdown::Read => false,
            Shutdown::Write => true,
            Shutdown::Both => true,
        }
    }
}

/// The two bytes of `i` in the other order.
pub open spec fn swap_bytes(i: u16) -> u16 {
    ((i % 256) * 256 + i / 256) as u16
}

/// Swapping the bytes twice gives the value back.
pub proof fn lemma_swap_bytes_twice(i: u16)
    ensures
        swap_bytes(swap_bytes(i)) == i,
{
}

/// A port in network byte order, from the order of the enclave's
/// processor, which is little-endian.
pub fn htons(i: u16) -> (n: u16)
    ensures
        n == swap_bytes(i),
{
    (i % 256) * 256 + i / 256
}

/// A port in the order of the enclave's processor, from network byte
/// order.
pub fn ntohs(i: u16) -> (h: u16)
    ensures
        h == swap_bytes(i),
        swap_bytes(h) == i,
{
    (i % 256) * 256 + i / 256
}

/// The address family of IPv4, as the host names it.
pub const AF_INET: u16 = 2;

/// The address family of IPv6, as the host names it.
pub const AF_INET6: u16 = 10;

/// An IPv4 or IPv6 address with a port.
#[derive(Copy, Clone, PartialEq, Eq, Debug, Hash)]
pub enum SocketAddr {
    V4([u8; 4], u16),
    V6([u8; 16], u16),
}

impl SocketAddr {
    /// The port of the address.
    pub open spec fn spec_port(&self) -> u16 {
        match self {
            SocketAddr::V4(_, port) => *port,
            SocketAddr::V6(_, port) => *port,
        }
    }

    /// The bytes of the address: four for IPv4, sixteen for IPv6.
    pub open spec fn spec_octets(&self) -> Seq<u8> {
        match self {
            SocketAddr::V4(octets, _) => octets@,
            SocketAddr::V6(octets, _) => octets@,
        }
    }

    /// The family of the address, as the host names it.
    pub open spec fn spec_family(&self) -> u16 {
        match self {
            SocketAddr::V4(_, _) => AF_INET,
            SocketAddr::V6(_, _) => AF_INET6,
        }
    }

    /// The port of the address.
    #[verifier::when_used_as_spec(spec_port)]
    pub fn port(&self) -> (port: u16)
        ensures
            port == self.spec_port(),
    {
        match self {
            SocketAddr::V4(_, port) => *port,
            SocketAddr::V6(_, port) => *port,
        }
    }

    /// The family of the address, as the host names it.
    #[verifier::when_used_as_spec(spec_family)]
    pub fn family(&self) -> (family: u16)
        ensures
            family == self.spec_family(),
    {
        match self {
            SocketAddr::V4(_, _) => AF_INET,
            SocketAddr::V6(_, _) => AF_INET6,
        }
    }

    /// Makes an address of what the host reported: a family, the bytes of
    /// the address and the port in network byte order. The family must be
    /// one of the two known ones and the bytes as many as it asks for:
    /// four or sixteen. Anything else is refused as invalid data.
    pub fn from_raw_parts(family: u16, octets: &[u8], port: u16) -> (r: Result<SocketAddr, Error>)
        ensures
            match r {
                Ok(addr) => {
                    &&& addr.spec_family() == family
                    &&& addr.spec_octets() == octets@
                    &&& addr.spec_port() == swap_bytes(port)
                    &&& (family == AF_INET && octets@.len() == 4 || family == AF_INET6
                        && octets@.len() == 16)
                },
                Err(e) => {
                    &&& e.is_const(ErrorKind::InvalidData, "invalid socket address"@)
                    &&& !(family == AF_INET && octets@.len() == 4 || family == AF_INET6
                        && octets@.len() == 16)
                },
            },
    {
        if family == AF_INET && octets.len() == 4 {
            let a: [u8; 4] = [octets[0], octets[1], octets[2], octets[3]];
            assert(a@ =~= octets@);
            Ok(SocketAddr::V4(a, ntohs(port)))
        } else if family == AF_INET6 && octets.len() == 16 {
            let a: [u8; 16] = [
                octets[0],
                octets[1],
                octets[2],
                octets[3],
                octets[4],
                octets[5],
                octets[6],
                octets[7],
                octets[8],
                octets[9],
                octets[10],
                octets[11],
                octets[12],
                octets[13],
                octets[14],
                octets[15],
            ];
            assert(a@ =~= octets@);
            Ok(SocketAddr::V6(a, ntohs(port)))
        } else {
            Err(Error::new_const(ErrorKind::InvalidData, "invalid socket address"))
        }
    }
}

/// The error for a name that resolved to no address at all.
pub open spec fn is_unresolved(e: Error) -> bool {
    e.is_const(ErrorKind::InvalidInput, "could not resolve to any addresses"@)
}

/// `outcomes` are the results of trying an operation on the first
/// `outcomes.len()` of `count` addresses, one after the other, until one
/// succeeds or none is left: every attempt but the last has failed, and
/// after a failed last attempt no address is left.
pub open spec fn is_fallback_run<T>(outcomes: Seq<Result<T, Error>>, count: nat) -> bool {
    &&& outcomes.len() <= count
    &&& forall|j: int| 0 <= j < outcomes.len() - 1 ==> (#[trigger] outcomes[j]).is_err()
    &&& outcomes.len() < count ==> outcomes.len() > 0 && outcomes.last().is_ok()
}

/// What a run of attempts comes to: its last outcome, which is the first
/// success or, where every attempt failed, the last failure.
pub open spec fn fallback_result<T>(outcomes: Seq<Result<T, Error>>, r: Result<T, Error>) -> bool {
    if outcomes.len() == 0 {
        r matches Err(e) && is_unresolved(e)
    } else {
        r == outcomes.last()
    }
}

/// Each of `outcomes` is what `f` returned for the address at its place in
/// `list`.
pub open spec fn is_attempted<F, T>(
    f: F,
    list: Seq<SocketAddr>,
    outcomes: Seq<Result<T, Error>>,
) -> bool where F: FnMut(Result<&SocketAddr, Error>) -> Result<T, Error> {
    forall|j: int|
        0 <= j < outcomes.len() ==> call_ensures(
            f,
            (Ok::<&SocketAddr, Error>(&list[j]),),
            #[trigger] outcomes[j],
        )
}

/// Tries `f` on each address in turn and returns the first success. When
/// every attempt fails, the error of the last one is returned; when there
/// is no address, the error says that nothing was resolved. When the
/// resolution itself failed, `f` gets its error, once, and decides.
#[verifier::loop_isolation(false)]
pub fn each_addr<F, T>(addrs: Result<Vec<SocketAddr>, Error>, f: F) -> (r: Result<T, Error>) where
    F: FnMut(Result<&SocketAddr, Error>) -> Result<T, Error>,

    requires
        forall|a: Result<&SocketAddr, Error>| call_requires(f, (a,)),
    ensures
        match addrs {
            Err(e) => call_ensures(f, (Err::<&SocketAddr, Error>(e),), r),
            Ok(list) => exists|outcomes: Seq<Result<T, Error>>|
                {
                    &&& is_fallback_run(outcomes, list@.len())
                    &&& #[trigger] is_attempted(f, list@, outcomes)
                    &&& fallback_result(outcomes, r)
                },
        },
{
    let mut call = f;
    let list = match addrs {
        Ok(list) => list,
        Err(e) => {
            return call(Err(e));
        },
    };
    let mut last_err: Option<Error> = None;
    let ghost mut outcomes: Seq<Result<T, Error>> = Seq::empty();
    let mut i: usize = 0;
    while i < list.len()
        invariant
            i <= list.len(),
            call == f,
            outcomes.len() == i,
            forall|j: int| 0 <= j < i ==> (#[trigger] outcomes[j]).is_err(),
            is_attempted(f, list@, outcomes),
            i == 0 ==> last_err.is_none(),
            i > 0 ==> last_err.is_some() && outcomes.last() == Err::<T, Error>(last_err.unwrap()),
        decreases list.len() - i,
    {
        let attempt = call(Ok(&list[i]));
        proof {
            outcomes = outcomes.push(attempt);
        }
        match attempt {
            Ok(l) => {
                assert(is_fallback_run(outcomes, list@.len()));
                assert(is_attempted(f, list@, outcomes));
                assert(fallback_result(outcomes, Ok::<T, Error>(l)));
                return Ok(l);
            },
            Err(e) => {
                last_err = Some(e);
            },
        }
        i += 1;
    }
    assert(is_fallback_run(outcomes, list@.len()));
    match last_err {
        Some(e) => Err(e),
        None => Err(
            Error::new_const(ErrorKind::InvalidInput, "could not resolve to any addresses"),
        ),
    }
}

} // verus!
