//! Helpers shared by the tracker and the transport.

use crate::proto::crypto::{ed25519_public, SigningKey};
use crate::tracker::PeerId;
use vstd::prelude::*;

pub mod time;

verus! {

/// Name of the directory for data.
pub const WAHT_DIR: &'static str = "waht";

/// Where data is kept. `P` is a path.
#[derive(Clone, Copy, Debug, PartialEq, Eq)]
pub enum DataRoot<P> {
    /// In this directory.
    Given(P),
    /// In the directory named [`WAHT_DIR`] in this one.
    Within(P),
}

/// There is no directory to keep data in.
#[derive(Clone, Copy, Debug, PartialEq, Eq, Structural)]
pub struct NoDataDir;

/// Decides where data is kept: where the user says, unconditionally, or else within the directory
/// that the system provides for application data.
pub fn waht_data_root<P>(given: Option<P>, data_dir: Option<P>) -> (r: Result<
    DataRoot<P>,
    NoDataDir,
>)
    ensures
        r == (match (given, data_dir) {
            (Some(path), _) => Ok::<DataRoot<P>, NoDataDir>(DataRoot::Given(path)),
            (None, Some(path)) => Ok::<DataRoot<P>, NoDataDir>(DataRoot::Within(path)),
            (None, None) => Err::<DataRoot<P>, NoDataDir>(NoDataDir),
        }),
{
    if let Some(path) = given {
        return Ok(DataRoot::Given(path));
    }
    match data_dir {
        Some(path) => Ok(DataRoot::Within(path)),
        None => Err(NoDataDir),
    }
}

/// A new random key, and the id of the peer that holds it.
pub fn generate_peer_id() -> (r: (PeerId, SigningKey))
    ensures
        r.0@ == ed25519_public(r.1.secret()),
{
    let signing_key = SigningKey::generate();
    let peer_id = signing_key.verifying_key();
    (peer_id, signing_key)
}

/// Turns a result that may be missing into a missing or present result.
pub fn transpose<T, E>(result: Result<Option<T>, E>) -> (r: Option<Result<T, E>>)
    ensures
        r == (match result {
            Ok(Some(v)) => Some(Ok::<T, E>(v)),
            Ok(None) => None,
            Err(e) => Some(Err::<T, E>(e)),
        }),
{
    match result {
        Ok(Some(v)) => Some(Ok(v)),
        Ok(None) => None,
        Err(e) => Some(Err(e)),
    }
}

} // verus!
