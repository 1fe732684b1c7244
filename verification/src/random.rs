//! Randomness from the operating system's source.

use vstd::prelude::*;

use crate::net::u32_from_le;

verus! {

/// Fills `buf` with bytes from the operating system's random source
/// (`getrandom::fill`) and tells whether that succeeded. The bytes are random,
/// so nothing is claimed of them.
#[verifier::external_body]
pub(crate) fn fill_random<const N: usize>(buf: &mut [u8; N]) -> (ok: bool) {
    getrandom::fill(buf).is_ok()
}

/// The choice in `[0, n)` that four random bytes give: their little-endian
/// value modulo `n`; `0` when `n <= 1` or no bytes could be had (`None`).
pub fn random_below_from(bytes: Option<[u8; 4]>, n: u32) -> (r: u32)
    ensures
        r == (if n <= 1 {
            0
        } else {
            match bytes {
                Some(b) => crate::net::le_value(b@) % (n as int),
                None => 0,
            }
        }),
{
    if n <= 1 {
        return 0;
    }
    match bytes {
        Some(b) => u32_from_le(b) % n,
        None => 0,
    }
}

/// A random integer in `[0, n)`. Falls back to `0` when `n <= 1` or the random
/// source is unavailable, which is harmless: the first choice is taken.
pub fn random_below(n: u32) -> (r: u32)
    ensures
        n <= 1 ==> r == 0,
        n > 1 ==> r < n,
{
    if n <= 1 {
        return 0;
    }
    let mut buf = [0u8; 4];
    let bytes = if fill_random(&mut buf) { Some(buf) } else { None };
    random_below_from(bytes, n)
}

} // verus!
