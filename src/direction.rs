use vstd::prelude::*;

verus! {

/// Index of a direction
pub type DirectionIndex = usize;

/// Represents a direction in a grid layout
pub trait DirectionTrait: Sized + Copy {
    /// The opposite of `self`, as a value
    spec fn spec_opposite(self) -> Self;

    /// The rotation basis of `self`, as a sequence
    spec fn spec_rotation_basis(self) -> Seq<Self>;

    /// The position of `self` in direction tables
    spec fn spec_index(self) -> nat;

    /// Returns the opposite direction
    fn opposite(&self) -> (r: Self)
        ensures
            r == self.spec_opposite(),
    ;

    /// Right-handed.
    fn rotation_basis(&self) -> (r: &'static [Self])
        ensures
            r@ == self.spec_rotation_basis(),
    ;

    /// Taking the opposite twice gives back the direction
    proof fn lemma_opposite_involutive(self)
        ensures
            self.spec_opposite().spec_opposite() == self,
    ;
}

/// Represents an oriented axis of a coordinate system
#[derive(Clone, Copy, Debug, Default, PartialEq, Eq, Hash, Structural)]
pub enum Direction {
    /// X+ axis
    #[default]
    XForward,
    /// Y+ axis
    YForward,
    /// X- axis
    XBackward,
    /// Y- axis
    YBackward,
    /// Z+ axis
    ZForward,
    /// Z- axis
    ZBackward,
}

/// Directions around the X+ axis, right-handed
pub open spec fn x_pos_axis() -> Seq<Direction> {
    seq![Direction::YForward, Direction::ZForward, Direction::YBackward, Direction::ZBackward]
}

/// Directions around the X- axis, right-handed
pub open spec fn x_neg_axis() -> Seq<Direction> {
    seq![Direction::ZForward, Direction::YForward, Direction::ZBackward, Direction::YBackward]
}

/// Directions around the Y+ axis, right-handed
pub open spec fn y_pos_axis() -> Seq<Direction> {
    seq![Direction::ZForward, Direction::XForward, Direction::ZBackward, Direction::XBackward]
}

/// Directions around the Y- axis, right-handed
pub open spec fn y_neg_axis() -> Seq<Direction> {
    seq![Direction::XForward, Direction::ZForward, Direction::XBackward, Direction::ZBackward]
}

/// Directions around the Z+ axis, right-handed
pub open spec fn z_pos_axis() -> Seq<Direction> {
    seq![Direction::XForward, Direction::YForward, Direction::XBackward, Direction::YBackward]
}

/// Directions around the Z- axis, right-handed
pub open spec fn z_neg_axis() -> Seq<Direction> {
    seq![Direction::YForward, Direction::XForward, Direction::YBackward, Direction::XBackward]
}

impl Direction {
    /// The fixed ordinal of the direction, used as an offset in direction tables
    pub open spec fn index(self) -> nat {
        match self {
            Direction::XForward => 0,
            Direction::YForward => 1,
            Direction::XBackward => 2,
            Direction::YBackward => 3,
            Direction::ZForward => 4,
            Direction::ZBackward => 5,
        }
    }

    /// The direction pointing the other way along the same axis
    pub open spec fn opposite_of(self) -> Direction {
        match self {
            Direction::XForward => Direction::XBackward,
            Direction::XBackward => Direction::XForward,
            Direction::YForward => Direction::YBackward,
            Direction::YBackward => Direction::YForward,
            Direction::ZForward => Direction::ZBackward,
            Direction::ZBackward => Direction::ZForward,
        }
    }

    /// The four directions orthogonal to `self`, in right-handed cyclic order
    pub open spec fn basis_of(self) -> Seq<Direction> {
        match self {
            Direction::XForward => x_pos_axis(),
            Direction::XBackward => x_neg_axis(),
            Direction::YForward => y_pos_axis(),
            Direction::YBackward => y_neg_axis(),
            Direction::ZForward => z_pos_axis(),
            Direction::ZBackward => z_neg_axis(),
        }
    }
}

impl DirectionTrait for Direction {
    open spec fn spec_opposite(self) -> Direction {
        self.opposite_of()
    }

    open spec fn spec_rotation_basis(self) -> Seq<Direction> {
        self.basis_of()
    }

    open spec fn spec_index(self) -> nat {
        self.index()
    }

    fn opposite(&self) -> (r: Direction) {
        match self {
            Direction::XForward => Direction::XBackward,
            Direction::XBackward => Direction::XForward,
            Direction::YForward => Direction::YBackward,
            Direction::YBackward => Direction::YForward,
            Direction::ZForward => Direction::ZBackward,
            Direction::ZBackward => Direction::ZForward,
        }
    }

    fn rotation_basis(&self) -> (r: &'static [Direction]) {
        match self {
            Direction::XForward => &[
                Direction::YForward,
                Direction::ZForward,
                Direction::YBackward,
                Direction::ZBackward,
            ],
            Direction::XBackward => &[
                Direction::ZForward,
                Direction::YForward,
                Direction::ZBackward,
                Direction::YBackward,
            ],
            Direction::YForward => &[
                Direction::ZForward,
                Direction::XForward,
                Direction::ZBackward,
                Direction::XBackward,
            ],
            Direction::YBackward => &[
                Direction::XForward,
                Direction::ZForward,
                Direction::XBackward,
                Direction::ZBackward,
            ],
            Direction::ZForward => &[
                Direction::XForward,
                Direction::YForward,
                Direction::XBackward,
                Direction::YBackward,
            ],
            Direction::ZBackward => &[
                Direction::YForward,
                Direction::XForward,
                Direction::YBackward,
                Direction::XBackward,
            ],
        }
    }

    proof fn lemma_opposite_involutive(self) {
    }
}

impl From<Direction> for usize {
    fn from(item: Direction) -> (r: usize) {
        match item {
            Direction::XForward => 0,
            Direction::YForward => 1,
            Direction::XBackward => 2,
            Direction::YBackward => 3,
            Direction::ZForward => 4,
            Direction::ZBackward => 5,
        }
    }
}

impl vstd::std_specs::convert::FromSpecImpl<Direction> for usize {
    open spec fn obeys_from_spec() -> bool {
        true
    }

    open spec fn from_spec(item: Direction) -> usize {
        item.index() as usize
    }
}

} // verus!
