use vstd::prelude::*;

use crate::direction::DirectionTrait;

verus! {

/// Represents a coordinate system
pub trait CoordinateSystem: Default + Copy + Sync + Send + 'static {
    /// [DirectionTrait] type used in this system
    type Direction: DirectionTrait;

    /// The directions of this coordinate system, in table order
    spec fn spec_directions() -> Seq<Self::Direction>;

    /// Returns the directions used in this coordinate system
    fn directions(&self) -> (r: &'static [Self::Direction])
        ensures
            r@ == Self::spec_directions(),
    ;

    /// Returns the total count of directions
    fn directions_count(&self) -> (r: usize)
        ensures
            r == Self::spec_directions().len(),
    ;

    /// Each direction stands at its own index in the direction table
    proof fn lemma_directions_aligned()
        ensures
            forall|i: int|
                0 <= i < Self::spec_directions().len() ==> (#[trigger] Self::spec_directions()[i]).spec_index() == i,
    ;
}

} // verus!
