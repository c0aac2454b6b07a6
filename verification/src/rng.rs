//! Random weight initialization.
//!
//! The only randomness the engine uses: a fresh fixed-point value in
//! `[0, 1)` per initial weight.  Everything downstream is specified for
//! every possible outcome.

use crate::fixed::{Fix, FX_SCALE};
use vstd::prelude::*;

verus! {

/// Relies on rand::random::<u64>: a word from the thread-local generator.
/// Nothing is promised of the value; callers must hold for every outcome.
#[verifier::external_body]
fn random_word() -> u64 {
    rand::random::<u64>()
}

/// A fixed-point value in `[0, 1)`: the drawn word's residue modulo the
/// scale gives the raw step count.
pub fn random_unit() -> (r: Fix)
    ensures
        0 <= r@ < FX_SCALE,
        r.wf(),
{
    let w = random_word();
    let raw = w % 65536;
    Fix::from_raw(raw as i64)
}

} // verus!
