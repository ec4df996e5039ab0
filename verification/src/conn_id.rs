//! The connection identifier of a datagram attempt: random bytes from the
//! system's generator.

use ring::rand::SecureRandom;
use vstd::prelude::*;

verus! {

/// The length of a connection identifier, in bytes.
pub const MAX_CONN_ID_LEN: usize = 20;

/// `ring::error::Unspecified`, carried as a value that nothing here looks
/// into.
#[verifier::external_type_specification]
#[verifier::external_body]
pub struct ExUnspecified(ring::error::Unspecified);

/// Overwrites `dest` with random bytes by `ring::rand::SecureRandom::fill`,
/// from the system's generator (`ring::rand::SystemRandom`).
///
/// Trusted: the call leaves the length of `dest` as it was. Nothing is
/// claimed of the bytes, nor of whether the call succeeds.
#[verifier::external_body]
fn fill_random(dest: &mut Vec<u8>) -> (r: Result<(), ring::error::Unspecified>)
    ensures
        final(dest)@.len() == old(dest)@.len(),
{
    ring::rand::SystemRandom::new().fill(dest.as_mut_slice())
}

/// The identifier that goes with a given answer of the random source: the
/// bytes that it filled in, or none where it failed.
pub fn connection_id_from(filled: Result<(), ring::error::Unspecified>, bytes: Vec<u8>) -> (r:
    Option<Vec<u8>>)
    ensures
        filled is Ok ==> r == Some(bytes),
        filled is Err ==> r is None,
{
    match filled {
        Ok(()) => Some(bytes),
        Err(_) => None,
    }
}

/// A fresh random connection identifier of `MAX_CONN_ID_LEN` bytes for one
/// attempt, or `None` where the system has no random bytes to give.
pub fn connection_id() -> (r: Option<Vec<u8>>)
    ensures
        r matches Some(id) ==> id@.len() == MAX_CONN_ID_LEN,
{
    let mut bytes: Vec<u8> = Vec::new();
    while bytes.len() < MAX_CONN_ID_LEN
        invariant
            bytes@.len() <= MAX_CONN_ID_LEN,
        decreases MAX_CONN_ID_LEN - bytes@.len(),
    {
        bytes.push(0);
    }
    let filled = fill_random(&mut bytes);
    connection_id_from(filled, bytes)
}

} // verus!
