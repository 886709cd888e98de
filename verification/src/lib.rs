//! A deterministic, tick-driven cellular simulation of materials on a 2D grid.
//!
//! Each cell holds a material identifier and a temperature. A tick takes the
//! world from state `t` to state `t+1`: independently-authored modules read
//! the current frame and produce outputs (cell-level intents or bulk
//! temperature deltas), and the engine merges those outputs into the next
//! frame under strict, deterministic conflict-resolution rules.

pub mod config;
pub mod material;
pub mod physics;
pub mod reaction;
pub mod rng;
pub mod sim;
pub mod world;

use vstd::prelude::*;

verus! {

/// Fixed-point scale: scalar quantities (diffusivity, reaction rates,
/// fade chances) are stored as integer multiples of `1 / FIXED_ONE`.
pub const FIXED_ONE: u32 = 65536;

/// Saturating 64-bit addition: the sum clamped to the representable range.
pub open spec fn sat_add_i64(a: i64, b: i64) -> i64 {
    if a + b > i64::MAX {
        i64::MAX
    } else if a + b < i64::MIN {
        i64::MIN
    } else {
        (a + b) as i64
    }
}

} // verus!
