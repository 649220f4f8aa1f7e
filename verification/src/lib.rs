use vstd::prelude::*;

pub mod codec;
pub mod dispatch;
pub mod nonce;
pub mod payload;
pub mod session;
pub mod text;

verus! {

/// Port the listener uses when the configuration names none.
pub fn default_port() -> (r: u16)
    ensures
        r == 8877,
{
    8877
}

} // verus!
