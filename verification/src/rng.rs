//! The machine's one source of randomness. The `Cxkk` opcode draws a byte
//! from the host's generator; nothing can be promised about its value, so the
//! interpreter is specified for every byte the call may return.

use vstd::prelude::*;

verus! {

/// Relies on rand::random: a value drawn from the thread-local generator.
/// Nothing is promised about it.
pub assume_specification<T>[ rand::random::<T> ]() -> (r: T)
    where
        rand::distributions::Standard: rand::distributions::Distribution<T>,
;

} // verus!
