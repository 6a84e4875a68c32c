//! Random bytes, from the system's generator through the `ring` crate.
use ring::rand::{SecureRandom, SystemRandom};
use vstd::prelude::*;

verus! {

/// `SystemRandom::fill` of `ring` fills a buffer with random bytes, or fails. No
/// buffer is larger than the address space permits.
#[verifier::external_body]
pub(crate) fn random_bytes(n: usize) -> (r: Option<Vec<u8>>)
    requires
        n <= 0x7fff_ffff,
    ensures
        r matches Some(v) ==> v@.len() == n,
{
    let mut bytes = vec![0u8; n];
    SystemRandom::new().fill(&mut bytes).ok()?;
    Some(bytes)
}

}
