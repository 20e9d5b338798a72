//! Socket addresses as plain values.

use crate::proto::codec::{CodecError, Wire};
use vstd::prelude::*;

verus! {

/// An IPv4 address and a port.
#[derive(Clone, Copy, Debug, PartialEq, Eq)]
pub struct SocketAddrV4 {
    pub ip: [u8; 4],
    pub port: u16,
}

/// An IPv6 address and a port, with the flow and scope that the local system attaches to it.
#[derive(Clone, Copy, Debug, PartialEq, Eq)]
pub struct SocketAddrV6 {
    pub ip: [u8; 16],
    pub port: u16,
    pub flowinfo: u32,
    pub scope_id: u32,
}

/// Where a peer can be reached.
#[derive(Clone, Copy, Debug, PartialEq, Eq)]
pub enum SocketAddr {
    V4(SocketAddrV4),
    V6(SocketAddrV6),
}

impl Wire for SocketAddrV4 {
    type Value = SocketAddrV4;

    open spec fn value(&self) -> SocketAddrV4 {
        *self
    }

    open spec fn encodable(v: SocketAddrV4) -> bool {
        &&& <[u8; 4]>::encodable(v.ip)
        &&& u16::encodable(v.port)
    }

    open spec fn bytes(v: SocketAddrV4) -> Seq<u8> {
        <[u8; 4]>::bytes(v.ip) + u16::bytes(v.port)
    }

    open spec fn parse(s: Seq<u8>) -> Result<(SocketAddrV4, Seq<u8>), CodecError> {
        match <[u8; 4]>::parse(s) {
            Ok((ip, s1)) => match u16::parse(s1) {
                Ok((port, rest)) => Ok((SocketAddrV4 { ip, port }, rest)),
                Err(e) => Err(e),
            },
            Err(e) => Err(e),
        }
    }

    proof fn parse_inverts_bytes(v: SocketAddrV4, rest: Seq<u8>) {
        let s1 = u16::bytes(v.port) + rest;
        assert(Self::bytes(v) + rest =~= <[u8; 4]>::bytes(v.ip) + s1);
        <[u8; 4]>::parse_inverts_bytes(v.ip, s1);
        u16::parse_inverts_bytes(v.port, rest);
    }

    fn put(&self, out: &mut Vec<u8>) {
        self.ip.put(out);
        self.port.put(out);
        assert(out@ =~= old(out)@ + Self::bytes(self.value()));
    }

    fn take<'a>(input: &'a [u8]) -> (r: Result<(SocketAddrV4, &'a [u8]), CodecError>) {
        let (ip, s1) = match <[u8; 4]>::take(input) {
            Ok(found) => found,
            Err(e) => return Err(e),
        };
        let (port, rest) = match u16::take(s1) {
            Ok(found) => found,
            Err(e) => return Err(e),
        };
        Ok((SocketAddrV4 { ip, port }, rest))
    }
}

impl Wire for SocketAddrV6 {
    type Value = SocketAddrV6;

    open spec fn value(&self) -> SocketAddrV6 {
        *self
    }

    open spec fn encodable(v: SocketAddrV6) -> bool {
        &&& v.flowinfo == 0
        &&& v.scope_id == 0
    }

    open spec fn bytes(v: SocketAddrV6) -> Seq<u8> {
        <[u8; 16]>::bytes(v.ip) + u16::bytes(v.port)
    }

    open spec fn parse(s: Seq<u8>) -> Result<(SocketAddrV6, Seq<u8>), CodecError> {
        match <[u8; 16]>::parse(s) {
            Ok((ip, s1)) => match u16::parse(s1) {
                Ok((port, rest)) => Ok((SocketAddrV6 { ip, port, flowinfo: 0, scope_id: 0 }, rest)),
                Err(e) => Err(e),
            },
            Err(e) => Err(e),
        }
    }

    proof fn parse_inverts_bytes(v: SocketAddrV6, rest: Seq<u8>) {
        let s1 = u16::bytes(v.port) + rest;
        assert(Self::bytes(v) + rest =~= <[u8; 16]>::bytes(v.ip) + s1);
        <[u8; 16]>::parse_inverts_bytes(v.ip, s1);
        u16::parse_inverts_bytes(v.port, rest);
    }

    fn put(&self, out: &mut Vec<u8>) {
        self.ip.put(out);
        self.port.put(out);
        assert(out@ =~= old(out)@ + Self::bytes(self.value()));
    }

    fn take<'a>(input: &'a [u8]) -> (r: Result<(SocketAddrV6, &'a [u8]), CodecError>) {
        let (ip, s1) = match <[u8; 16]>::take(input) {
            Ok(found) => found,
            Err(e) => return Err(e),
        };
        let (port, rest) = match u16::take(s1) {
            Ok(found) => found,
            Err(e) => return Err(e),
        };
        Ok((SocketAddrV6 { ip, port, flowinfo: 0, scope_id: 0 }, rest))
    }
}

impl Wire for SocketAddr {
    type Value = SocketAddr;

    open spec fn value(&self) -> SocketAddr {
        *self
    }

    open spec fn encodable(v: SocketAddr) -> bool {
        match v {
            SocketAddr::V4(x) => SocketAddrV4::encodable(x),
            SocketAddr::V6(x) => SocketAddrV6::encodable(x),
        }
    }

    open spec fn bytes(v: SocketAddr) -> Seq<u8> {
        match v {
            SocketAddr::V4(x) => u32::bytes(0) + SocketAddrV4::bytes(x),
            SocketAddr::V6(x) => u32::bytes(1) + SocketAddrV6::bytes(x),
        }
    }

    open spec fn parse(s: Seq<u8>) -> Result<(SocketAddr, Seq<u8>), CodecError> {
        match u32::parse(s) {
            Ok((variant, body)) => if variant == 0 {
                match SocketAddrV4::parse(body) {
                    Ok((x, rest)) => Ok((SocketAddr::V4(x), rest)),
                    Err(e) => Err(e),
                }
            } else if variant == 1 {
                match SocketAddrV6::parse(body) {
                    Ok((x, rest)) => Ok((SocketAddr::V6(x), rest)),
                    Err(e) => Err(e),
                }
            } else {
                Err(CodecError::SerdeDeCustom)
            },
            Err(e) => Err(e),
        }
    }

    proof fn parse_inverts_bytes(v: SocketAddr, rest: Seq<u8>) {
        match v {
            SocketAddr::V4(x) => {
                let body = SocketAddrV4::bytes(x) + rest;
                assert(Self::bytes(v) + rest =~= u32::bytes(0) + body);
                u32::parse_inverts_bytes(0, body);
                SocketAddrV4::parse_inverts_bytes(x, rest);
            },
            SocketAddr::V6(x) => {
                let body = SocketAddrV6::bytes(x) + rest;
                assert(Self::bytes(v) + rest =~= u32::bytes(1) + body);
                u32::parse_inverts_bytes(1, body);
                SocketAddrV6::parse_inverts_bytes(x, rest);
            },
        }
    }

    fn put(&self, out: &mut Vec<u8>) {
        match self {
            SocketAddr::V4(x) => {
                0u32.put(out);
                x.put(out);
            },
            SocketAddr::V6(x) => {
                1u32.put(out);
                x.put(out);
            },
        }
        assert(out@ =~= old(out)@ + Self::bytes(self.value()));
    }

    fn take<'a>(input: &'a [u8]) -> (r: Result<(SocketAddr, &'a [u8]), CodecError>) {
        let (variant, body) = match u32::take(input) {
            Ok(found) => found,
            Err(e) => return Err(e),
        };
        if variant == 0 {
            match SocketAddrV4::take(body) {
                Ok((x, rest)) => Ok((SocketAddr::V4(x), rest)),
                Err(e) => Err(e),
            }
        } else if variant == 1 {
            match SocketAddrV6::take(body) {
                Ok((x, rest)) => Ok((SocketAddr::V6(x), rest)),
                Err(e) => Err(e),
            }
        } else {
            Err(CodecError::SerdeDeCustom)
        }
    }
}

/// An address is encoded as the number of its version, its bytes and its port. The flow and the
/// scope of an IPv6 address have no encoding.
pub proof fn law_address_encoding(addr: SocketAddr)
    ensures
        SocketAddr::bytes(addr) == (match addr {
            SocketAddr::V4(x) => u32::bytes(0) + (x.ip@ + u16::bytes(x.port)),
            SocketAddr::V6(x) => u32::bytes(1) + (x.ip@ + u16::bytes(x.port)),
        }),
        SocketAddr::encodable(addr) <==> (addr matches SocketAddr::V6(x) ==> x.flowinfo == 0
            && x.scope_id == 0),
        addr.value() == addr,
{
}

} // verus!
