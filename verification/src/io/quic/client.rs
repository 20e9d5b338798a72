//! The client side.

use crate::proto::codec::Wire;
use crate::proto::data::QueryResponse;
use crate::proto::wire::{Frame, FramePayload, FramePayloadValue, FrameValue, Query, UnsignedFrame};
use crate::proto::wire::UnsignedFrameValue;
use crate::stream::{Received, StreamError};
use vstd::prelude::*;

verus! {

/// How a client connects.
#[derive(Clone, Copy, Debug)]
pub struct Config {
    /// Whether certificates that nobody vouches for are accepted.
    pub tls_accept_insecure: bool,
}

impl Config {
    /// Accepts certificates that nobody vouches for.
    pub fn accept_insecure() -> (r: Config)
        ensures
            r.tls_accept_insecure,
    {
        Config { tls_accept_insecure: true }
    }
}

/// The name that a server is asked for which is known by its address alone.
pub const UNNAMED_SERVER: &'static str = "localhost";

/// Whether `name` is the part of `host` before its last colon; all of it where there is none.
pub open spec fn is_name_part(host: Seq<char>, name: Seq<char>) -> bool {
    ||| !host.contains(':') && name == host
    ||| exists|i: int|
        0 <= i < host.len() && #[trigger] host[i] == ':' && !host.skip(i + 1).contains(':') && name
            == host.take(i)
}

/// The name that a server at `host` is asked for: its domain name, which stands before the port,
/// unless `host` is an address.
pub fn server_name(host: &str, is_addr: bool) -> (r: String)
    ensures
        if is_addr {
            r@ == UNNAMED_SERVER@
        } else {
            is_name_part(host@, r@)
        },
{
    if is_addr {
        return UNNAMED_SERVER.to_owned();
    }
    let mut i: usize = host.unicode_len();
    while i > 0
        invariant
            !is_addr,
            i <= host@.len(),
            !host@.skip(i as int).contains(':'),
        decreases i,
    {
        let ghost later = host@.skip(i as int);
        i = i - 1;
        if host.get_char(i) == ':' {
            let name = host.substring_char(0, i).to_owned();
            proof {
                assert(host@[i as int] == ':');
                assert(later == host@.skip(i as int + 1));
                assert(name@ =~= host@.take(i as int));
            }
            return name;
        }
        proof {
            let tail = host@.skip(i as int);
            if tail.contains(':') {
                let k = choose|n: int| 0 <= n < tail.len() && tail[n] == ':';
                assert(later[k - 1] == ':');
            }
        }
    }
    assert(host@.skip(0) =~= host@);
    host.to_owned()
}

/// The frame that opens a query.
pub fn query_frame(query: Query) -> (r: Frame)
    ensures
        r.value() == (FrameValue {
            rid: None,
            payload: FramePayloadValue::Unsigned(UnsignedFrameValue::Query(query.value())),
        }),
{
    let r = Frame { rid: None, payload: FramePayload::Unsigned(UnsignedFrame::Query(query)) };
    assert(r.rid.value() == None::<u64>);
    r
}

/// The next reply to a query, out of what was received on its stream; none if the stream ended.
pub fn next_reply(received: Received<QueryResponse>) -> (r: Option<
    Result<QueryResponse, StreamError>,
>)
    ensures
        r == (match received {
            Err(e) => Some(Err::<QueryResponse, StreamError>(e)),
            Ok(None) => None,
            Ok(Some((reply, _))) => Some(Ok::<QueryResponse, StreamError>(reply)),
        }),
{
    match received {
        Err(e) => Some(Err(e)),
        Ok(None) => None,
        Ok(Some((reply, _meta))) => Some(Ok(reply)),
    }
}

/// Of a host with a port the name is what stands before the port, and of one without a port it is
/// all of it.
pub proof fn law_name_stands_before_the_port(
    name: Seq<char>,
    port: Seq<char>,
    found: Seq<char>,
    alone: Seq<char>,
)
    requires
        !port.contains(':'),
        is_name_part(name + seq![':'] + port, found),
        !name.contains(':'),
        is_name_part(name, alone),
    ensures
        found == name,
        alone == name,
{
    let host = name + seq![':'] + port;
    assert(host[name.len() as int] == ':');
    assert(host.contains(':'));
    let i = choose|i: int|
        0 <= i < host.len() && #[trigger] host[i] == ':' && !host.skip(i + 1).contains(':') && found
            == host.take(i);
    if i < name.len() {
        assert(name[i] == ':');
        assert(name.contains(':'));
    }
    if i > name.len() {
        assert(port[i - name.len() - 1] == ':');
        assert(port.contains(':'));
    }
    assert(host.take(i) =~= name);
    if exists|k: int|
        0 <= k < name.len() && #[trigger] name[k] == ':' && !name.skip(k + 1).contains(':') && alone
            == name.take(k) {
        let k = choose|k: int|
            0 <= k < name.len() && #[trigger] name[k] == ':' && !name.skip(k + 1).contains(':')
                && alone == name.take(k);
        assert(name.contains(name[k]));
    }
}

/// Where a host holds several colons, the name is all that stands before the last.
pub proof fn law_name_ends_at_the_last_colon(
    before: Seq<char>,
    port: Seq<char>,
    found: Seq<char>,
)
    requires
        !port.contains(':'),
        is_name_part(before + seq![':'] + port, found),
    ensures
        found == before,
{
    let host = before + seq![':'] + port;
    assert(host[before.len() as int] == ':');
    assert(host.contains(':'));
    let i = choose|i: int|
        0 <= i < host.len() && #[trigger] host[i] == ':' && !host.skip(i + 1).contains(':') && found
            == host.take(i);
    if i < before.len() {
        assert(host.skip(i + 1)[before.len() - i - 1] == ':');
        assert(host.skip(i + 1).contains(':'));
    }
    if i > before.len() {
        assert(port[i - before.len() - 1] == ':');
        assert(port.contains(':'));
    }
    assert(host.take(i) =~= before);
}

} // verus!
