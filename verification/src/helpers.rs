//! Randomness helpers: fresh transaction identifiers and improvised
//! addresses for names no record exists for.

use vstd::prelude::*;

use crate::parser::be_bytes_of_u32;

verus! {

/// Relies on rand::random: a fresh 16-bit value drawn from the thread-local
/// generator. Nothing is promised of a random value.
#[verifier::external_body]
pub(crate) fn random_u16() -> u16 {
    rand::random::<u16>()
}

/// Relies on rand::random: a fresh 32-bit value drawn from the thread-local
/// generator. Nothing is promised of a random value.
#[verifier::external_body]
fn random_u32() -> u32 {
    rand::random::<u32>()
}

/// A random address payload: the four big-endian bytes of a random 32-bit
/// value. Only its length can be promised.
pub fn random_ip() -> (r: Vec<u8>)
    ensures
        r@.len() == 4,
{
    let word = random_u32();
    let b0 = (word / 0x1000000) as u8;
    let b1 = ((word / 0x10000) % 256) as u8;
    let b2 = ((word / 0x100) % 256) as u8;
    let b3 = (word % 256) as u8;
    let mut out: Vec<u8> = Vec::new();
    out.push(b0);
    out.push(b1);
    out.push(b2);
    out.push(b3);
    proof {
        assert(out@ =~= be_bytes_of_u32(word));
    }
    out
}

} // verus!
