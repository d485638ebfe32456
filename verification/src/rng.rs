//! A time-seeded pseudo-random source.
//!
//! The draw hashes a clock reading, so nothing can be stated about the
//! value; callers treat it as an arbitrary number and the engine's
//! contracts hold of every outcome.

use std::collections::hash_map::DefaultHasher;
use std::hash::Hasher;
use vstd::prelude::*;
use crate::clock;

verus! {

/// The eight little-endian bytes of `x`.
fn u64_bytes(x: u64) -> (out: Vec<u8>)
    ensures
        out@.len() == 8,
{
    let mut out: Vec<u8> = Vec::new();
    let mut k: usize = 0;
    while k < 8
        invariant
            out@.len() == k,
            k <= 8,
        decreases 8 - k,
    {
        let shift: u64 = (8 * k) as u64;
        out.push((x >> shift) as u8);
        k = k + 1;
    }
    out
}

/// A pseudo-random value derived by hashing the current clock reading.
/// The result is arbitrary: no property of it is stated or relied on.
pub fn random<T: From<u64>>() -> T {
    let seed = clock::nanos_since_epoch();
    let bytes = u64_bytes(seed);
    let mut hasher = DefaultHasher::new();
    hasher.write(bytes.as_slice());
    let drawn = hasher.finish();
    T::from(drawn)
}

} // verus!
