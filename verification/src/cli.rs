//! What the commands of the command line ask for.

use crate::addr::{SocketAddr, SocketAddrV4};
use crate::tracker::proto::{Command, LookupKey, ProvideKey};
use crate::tracker::{Key, Topic};
use vstd::prelude::*;

verus! {

/// The BLAKE3 hash of a byte string.
pub uninterp spec fn blake3_hash(input: Seq<u8>) -> Seq<u8>;

/// Calls `blake3::hash`. The result is named.
#[verifier::external_body]
fn hash(input: &[u8]) -> (r: [u8; 32])
    ensures
        r@ == blake3_hash(input@),
{
    blake3::hash(input).into()
}

/// Port of the tracker that is asked where none is given.
pub const DEFAULT_TRACKER_PORT: u16 = 1234;

/// Number of topics that a load test spreads its requests over.
pub const LOAD_TEST_TOPICS: u8 = 9;

/// The tracker that is asked where none is given.
pub open spec fn is_default_tracker(addr: SocketAddr) -> bool {
    addr matches SocketAddr::V4(v4) && v4.ip@ == seq![127u8, 0, 0, 1] && v4.port
        == DEFAULT_TRACKER_PORT
}

/// The tracker to ask: the first that is given, or else one on this machine.
pub fn tracker_addr(given: &[SocketAddr]) -> (r: SocketAddr)
    ensures
        given@.len() > 0 ==> r == given@[0],
        given@.len() == 0 ==> is_default_tracker(r),
{
    if given.len() > 0 {
        given[0]
    } else {
        let ip = [127u8, 0, 0, 1];
        assert(ip@ =~= seq![127u8, 0, 0, 1]);
        SocketAddr::V4(SocketAddrV4 { ip, port: DEFAULT_TRACKER_PORT })
    }
}

/// The key of a topic: the hash of its name.
pub fn topic_key(topic: &str) -> (r: Topic)
    ensures
        r@ == blake3_hash(vstd::utf8::encode_utf8(topic@)),
{
    hash(topic.as_bytes())
}

/// The command that provides a key.
pub fn provide(key: Key) -> (r: Command)
    ensures
        r == Command::ProvideKey(ProvideKey { key, topic: None }),
{
    Command::ProvideKey(ProvideKey { key, topic: None })
}

/// The command that looks a key up.
pub fn lookup(key: Key) -> (r: Command)
    ensures
        r == Command::LookupKey(LookupKey { key, topic: None }),
{
    Command::LookupKey(LookupKey { key, topic: None })
}

/// The keys that a load test spreads its requests over: the hashes of the numbers from zero.
pub fn load_test_topics() -> (r: Vec<Topic>)
    ensures
        r@.len() == LOAD_TEST_TOPICS,
        forall|i: int| 0 <= i < r@.len() ==> (#[trigger] r@[i])@ == blake3_hash(seq![i as u8]),
{
    let mut topics: Vec<Topic> = Vec::new();
    let mut i: u8 = 0;
    while i < LOAD_TEST_TOPICS
        invariant
            i <= LOAD_TEST_TOPICS,
            topics@.len() == i,
            forall|j: int| 0 <= j < i ==> (#[trigger] topics@[j])@ == blake3_hash(seq![j as u8]),
        decreases LOAD_TEST_TOPICS - i,
    {
        let number = [i];
        assert(number@ =~= seq![i]);
        topics.push(hash(number.as_slice()));
        i = i + 1;
    }
    topics
}

/// Where no tracker is given, the one on this machine is asked, at port 1234.
pub proof fn law_default_tracker_is_local(addr: SocketAddr)
    requires
        is_default_tracker(addr),
    ensures
        addr matches SocketAddr::V4(v4) && v4.port == 1234 && v4.ip@.len() == 4 && v4.ip@[0] == 127
            && v4.ip@[1] == 0 && v4.ip@[2] == 0 && v4.ip@[3] == 1,
{
}

} // verus!
