//! Connection ids that a session picks for itself.

use rand::RngCore;
use vstd::prelude::*;

verus! {

/// The length of the ids that a session picks: the longest that the
/// transport allows.
pub const MAX_CONN_ID_LEN: usize = 20;

/// Asks `rand::rngs::OsRng` for bytes with `try_fill_bytes`. Believed of
/// it: where the system gives bytes, as many come back as were asked for;
/// which bytes, and whether any, is up to the system.
#[verifier::external_body]
fn random_bytes(len: usize) -> (bytes: Option<Vec<u8>>)
    ensures
        bytes matches Some(b) ==> b@.len() == len,
{
    let mut buffer = vec![0u8; len];
    match rand::rngs::OsRng.try_fill_bytes(&mut buffer) {
        Ok(()) => Some(buffer),
        Err(_) => None,
    }
}

/// A random connection id of full length, or nothing where the system has
/// no random bytes to give.
pub fn fresh_connection_id() -> (id: Option<Vec<u8>>)
    ensures
        id matches Some(b) ==> b@.len() == MAX_CONN_ID_LEN,
{
    random_bytes(MAX_CONN_ID_LEN)
}

} // verus!
