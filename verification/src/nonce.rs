//! Per-session nonce generation.
use vstd::prelude::*;

use crate::text::is_alphanumeric_char;

verus! {

/// Relies on rand's thread_rng with the Alphanumeric distribution:
/// every sample is one byte drawn from a-z, A-Z or 0-9.
#[verifier::external_body]
fn sample_alphanumeric() -> (c: char)
    ensures
        is_alphanumeric_char(c),
{
    let b: u8 = rand::Rng::sample(&mut rand::thread_rng(), rand::distributions::Alphanumeric);
    char::from(b)
}

/// A fresh session identifier: 32 characters drawn independently from
/// the alphanumeric alphabet, about 190 bits of entropy. Generated once
/// per session, before any message is sent.
pub fn gen_nonce() -> (r: String)
    ensures
        r@.len() == 32,
        forall|i: int| 0 <= i < r@.len() ==> is_alphanumeric_char(r@[i]),
{
    let mut out = String::new();
    let mut i: usize = 0;
    while i < 32
        invariant
            i <= 32,
            out@.len() == i,
            forall|j: int| 0 <= j < out@.len() ==> is_alphanumeric_char(out@[j]),
        decreases 32 - i,
    {
        let c = sample_alphanumeric();
        crate::text::string_push(&mut out, c);
        i += 1;
    }
    out
}

} // verus!
