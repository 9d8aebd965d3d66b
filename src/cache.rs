//! The entries of a server's user cache: a player name, its identifier and
//! when the entry expires.

use vstd::prelude::*;

verus! {

/// One entry of a user cache.
pub struct UserCache {
    pub name: String,
    pub uuid: String,
    pub expires_on: String,
}

} // verus!
