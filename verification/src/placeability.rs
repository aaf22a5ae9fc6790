use vstd::prelude::*;
use crate::board::BitBoard;
use crate::placement::Placement;

verus! {

/// Rotation-system decision functions for the exact search: given the
/// board and a candidate resting position whose straight drop path is
/// obstructed, decide whether the rotation system can still reach it.
/// Accepts every supported resting position, spins included.
pub fn always(_board: BitBoard, _placement: Placement) -> (r: bool)
    ensures
        r,
{
    true
}

/// Accepts nothing beyond what a straight drop reaches.
pub fn no_spins(_board: BitBoard, _placement: Placement) -> (r: bool)
    ensures
        !r,
{
    false
}

} // verus!
