use vstd::prelude::*;

use crate::coordinate_system::CoordinateSystem;
use crate::direction::{Direction, DirectionTrait};

verus! {

/// Right-handed 2d Cartesian coordinate system: 4 directions
#[derive(Default, Debug, Clone, Copy)]
pub struct Cartesian2D;

/// Right-handed 3d Cartesian coordinate system: 6 directions
#[derive(Default, Debug, Clone, Copy)]
pub struct Cartesian3D;

/// All the directions of a 2d cartesian coordinate system, in table order
pub open spec fn cartesian_2d_directions() -> Seq<Direction> {
    seq![Direction::XForward, Direction::YForward, Direction::XBackward, Direction::YBackward]
}

/// All the directions of a 3d cartesian coordinate system, in table order
pub open spec fn cartesian_3d_directions() -> Seq<Direction> {
    seq![
        Direction::XForward,
        Direction::YForward,
        Direction::XBackward,
        Direction::YBackward,
        Direction::ZForward,
        Direction::ZBackward,
    ]
}

/// The one-unit displacement along a direction
pub open spec fn unit_delta(d: Direction) -> GridDelta {
    match d {
        Direction::XForward => GridDelta { dx: 1, dy: 0, dz: 0 },
        Direction::YForward => GridDelta { dx: 0, dy: 1, dz: 0 },
        Direction::XBackward => GridDelta { dx: -1i32, dy: 0, dz: 0 },
        Direction::YBackward => GridDelta { dx: 0, dy: -1i32, dz: 0 },
        Direction::ZForward => GridDelta { dx: 0, dy: 0, dz: 1 },
        Direction::ZBackward => GridDelta { dx: 0, dy: 0, dz: -1i32 },
    }
}

impl CoordinateSystem for Cartesian2D {
    type Direction = Direction;

    open spec fn spec_directions() -> Seq<Direction> {
        cartesian_2d_directions()
    }

    #[inline]
    fn directions(&self) -> (r: &'static [Direction]) {
        &[Direction::XForward, Direction::YForward, Direction::XBackward, Direction::YBackward]
    }

    #[inline]
    fn directions_count(&self) -> (r: usize) {
        4
    }

    proof fn lemma_directions_aligned() {
    }
}

impl CartesianCoordinates for Cartesian2D {
    #[inline]
    fn deltas(&self) -> (r: &'static [GridDelta]) {
        &[
            GridDelta { dx: 1, dy: 0, dz: 0 },
            GridDelta { dx: 0, dy: 1, dz: 0 },
            GridDelta { dx: -1, dy: 0, dz: 0 },
            GridDelta { dx: 0, dy: -1, dz: 0 },
        ]
    }
}

impl CoordinateSystem for Cartesian3D {
    type Direction = Direction;

    open spec fn spec_directions() -> Seq<Direction> {
        cartesian_3d_directions()
    }

    #[inline]
    fn directions(&self) -> (r: &'static [Direction]) {
        &[
            Direction::XForward,
            Direction::YForward,
            Direction::XBackward,
            Direction::YBackward,
            Direction::ZForward,
            Direction::ZBackward,
        ]
    }

    #[inline]
    fn directions_count(&self) -> (r: usize) {
        6
    }

    proof fn lemma_directions_aligned() {
    }
}

impl CartesianCoordinates for Cartesian3D {
    #[inline]
    fn deltas(&self) -> (r: &'static [GridDelta]) {
        &[
            GridDelta { dx: 1, dy: 0, dz: 0 },
            GridDelta { dx: 0, dy: 1, dz: 0 },
            GridDelta { dx: -1, dy: 0, dz: 0 },
            GridDelta { dx: 0, dy: -1, dz: 0 },
            GridDelta { dx: 0, dy: 0, dz: 1 },
            GridDelta { dx: 0, dy: 0, dz: -1 },
        ]
    }
}

/// Represents a displacement on a grid
#[derive(Default, Debug, Clone, Copy, PartialEq, Eq, Structural)]
pub struct GridDelta {
    /// Amount of movement on the X axis
    pub dx: i32,
    /// Amount of movement on the Y axis
    pub dy: i32,
    /// Amount of movement on the Z axis
    pub dz: i32,
}

impl GridDelta {
    /// Creates a new [`GridDelta`]
    pub fn new(dx: i32, dy: i32, dz: i32) -> (r: Self)
        ensures
            r == (GridDelta { dx, dy, dz }),
    {
        Self { dx, dy, dz }
    }

    /// Whether every component of `self` times `units` fits in an `i32`
    pub open spec fn scale_fits(self, units: int) -> bool {
        i32::MIN <= self.dx * units <= i32::MAX && i32::MIN <= self.dy * units <= i32::MAX
            && i32::MIN <= self.dz * units <= i32::MAX
    }

    /// `self` with each component multiplied by `units`
    pub open spec fn scaled(self, units: int) -> GridDelta {
        GridDelta {
            dx: (self.dx * units) as i32,
            dy: (self.dy * units) as i32,
            dz: (self.dz * units) as i32,
        }
    }

    /// Multiplies each component by `rhs`
    pub fn mul(self, rhs: i32) -> (r: GridDelta)
        requires
            self.scale_fits(rhs as int),
        ensures
            r == self.scaled(rhs as int),
    {
        GridDelta { dx: self.dx * rhs, dy: self.dy * rhs, dz: self.dz * rhs }
    }
}

/// Specific case for a cartesian coordinate system
pub trait CartesianCoordinates: CoordinateSystem<Direction = Direction> {
    /// Returns the [`GridDelta`] for each direction in this coordinate system
    fn deltas(&self) -> (r: &'static [GridDelta])
        ensures
            r@.len() == Self::spec_directions().len(),
            forall|i: int|
                0 <= i < r@.len() ==> #[trigger] r@[i] == unit_delta(Self::spec_directions()[i]),
    ;
}

/// Represents a position in a grid in a practical format
#[derive(Default, Hash, Debug, Clone, Copy, PartialEq, Eq, Structural)]
pub struct CartesianPosition {
    /// Position on the x axis
    pub x: u32,
    /// Position on the y axis
    pub y: u32,
    /// Position on the z axis
    pub z: u32,
}

impl CartesianPosition {
    /// The coordinates of `self` moved by `delta`, as integers
    pub open spec fn moved_by(self, delta: GridDelta) -> (int, int, int) {
        (self.x + delta.dx, self.y + delta.dy, self.z + delta.dz)
    }

    pub(crate) fn get_delta_position(&self, delta: &GridDelta) -> (r: (i64, i64, i64))
        ensures
            (r.0 as int, r.1 as int, r.2 as int) == self.moved_by(*delta),
    {
        (
            self.x as i64 + delta.dx as i64,
            self.y as i64 + delta.dy as i64,
            self.z as i64 + delta.dz as i64,
        )
    }

    /// Utility constructor
    pub fn new(x: u32, y: u32, z: u32) -> (r: Self)
        ensures
            r == (CartesianPosition { x, y, z }),
    {
        Self { x, y, z }
    }

    /// Utility constructor for a 2D (x,y) position. z will be set to 0
    pub fn new_xy(x: u32, y: u32) -> (r: Self)
        ensures
            r == (CartesianPosition { x, y, z: 0 }),
    {
        Self { x, y, z: 0 }
    }
}

impl From<(u32, u32)> for CartesianPosition {
    fn from(xy: (u32, u32)) -> (r: Self) {
        CartesianPosition::new(xy.0, xy.1, 0)
    }
}

impl vstd::std_specs::convert::FromSpecImpl<(u32, u32)> for CartesianPosition {
    open spec fn obeys_from_spec() -> bool {
        true
    }

    open spec fn from_spec(xy: (u32, u32)) -> CartesianPosition {
        CartesianPosition { x: xy.0, y: xy.1, z: 0 }
    }
}

impl From<(u32, u32, u32)> for CartesianPosition {
    fn from(xyz: (u32, u32, u32)) -> (r: Self) {
        CartesianPosition::new(xyz.0, xyz.1, xyz.2)
    }
}

impl vstd::std_specs::convert::FromSpecImpl<(u32, u32, u32)> for CartesianPosition {
    open spec fn obeys_from_spec() -> bool {
        true
    }

    open spec fn from_spec(xyz: (u32, u32, u32)) -> CartesianPosition {
        CartesianPosition { x: xyz.0, y: xyz.1, z: xyz.2 }
    }
}

/// Taking the opposite of a direction twice gives the direction back, and the
/// displacement of the opposite direction is the negated displacement.
pub proof fn lemma_opposite_involution(d: Direction)
    ensures
        d.opposite_of().opposite_of() == d,
        unit_delta(d.opposite_of()).dx == -unit_delta(d).dx,
        unit_delta(d.opposite_of()).dy == -unit_delta(d).dy,
        unit_delta(d.opposite_of()).dz == -unit_delta(d).dz,
{
}

} // verus!
