//! Results as the scoring service reports them.
use vstd::prelude::*;

verus! {

/// The result of one player on one hole, as the scoring service reports it.
#[derive(Clone, Copy, Debug, PartialEq, Eq, Structural)]
pub struct HoleResult {
    /// The number of throws.
    pub score: usize,
    pub hole_number: usize,
    pub par: u8,
    pub is_circle_hit: bool,
    pub is_inside_putt: bool,
    pub is_out_of_bounds: bool,
    pub is_outside_putt: bool,
    pub is_verified: bool,
}

} // verus!
