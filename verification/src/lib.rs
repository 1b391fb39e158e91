//! HyperDB: an in-memory key-value store with snapshot persistence and
//! token-based access control.

use vstd::prelude::*;

pub mod auth;
pub mod model;
pub mod snapshot;
pub mod store;

verus! {

/// The server's version banner.
pub fn version() -> (r: String)
    ensures
        r@ == "[HyperDB v1.0.1 (https://afaan.dev)]"@,
{
    String::from_str("[HyperDB v1.0.1 (https://afaan.dev)]")
}

} // verus!
