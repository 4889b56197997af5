//! The one place where the engine asks for randomness.

use vstd::prelude::*;

verus! {

/// Draws a pseudo-random number through `macroquad::rand::gen_range(0, bound)`,
/// which advances the process-wide generator.
///
/// Nothing is claimed about the number that comes back: the generator scales a
/// floating-point fraction, and its documentation promises no range. Callers
/// test the result themselves.
#[verifier::external_body]
pub(crate) fn draw_below(bound: usize) -> (r: usize) {
    macroquad::rand::gen_range(0, bound)
}

} // verus!
