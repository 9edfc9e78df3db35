//! The default implementation of the random-bytes operation.

use vstd::prelude::*;

verus! {

/// Relies on `rand::random`: one byte drawn from the process-wide
/// generator. Nothing can be promised of the value.
#[verifier::external_body]
fn random_byte() -> u8 {
    rand::random()
}

/// Draw `amount` random bytes. This is the designated default
/// implementation of the random-bytes operation: plugins that do not
/// override it serve exactly this many bytes.
pub fn gen_bytes(amount: usize) -> (r: Vec<u8>)
    ensures
        r@.len() == amount,
{
    let mut out: Vec<u8> = Vec::new();
    for i in 0..amount
        invariant
            out@.len() == i,
    {
        out.push(random_byte());
    }
    out
}

} // verus!
