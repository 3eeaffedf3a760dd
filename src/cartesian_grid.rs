use vstd::arithmetic::div_mod::{
    lemma_div_denominator, lemma_fundamental_div_mod, lemma_fundamental_div_mod_converse,
    lemma_multiply_divide_lt,
};
use vstd::prelude::*;

use crate::coordinate_system::CoordinateSystem;
use crate::coordinates::{
    unit_delta, Cartesian2D, Cartesian3D, CartesianCoordinates, CartesianPosition, GridDelta,
};
use crate::direction::Direction;
use crate::grid::{all_cloned, GridData, GridIndex};

verus! {

/// Definition of a grid
#[derive(Clone, Copy)]
pub struct CartesianGrid<C: CoordinateSystem> {
    pub(crate) size_x: u32,
    pub(crate) size_y: u32,
    pub(crate) size_z: u32,
    pub(crate) looping_x: bool,
    pub(crate) looping_y: bool,
    pub(crate) looping_z: bool,
    pub(crate) coord_system: C,
    /// Cache value of `size_x` * `size_y` for index computations
    pub(crate) size_xy: u32,
}

/// Where a coordinate lands on an axis of `size` cells: wrapped once when the
/// axis loops, rejected when it does not loop and falls outside.
pub open spec fn resolve_axis(looping: bool, c: int, size: int) -> Option<int> {
    if looping {
        let c1 = if c < 0 { c + size } else { c };
        Some(if c1 >= size { c1 - size } else { c1 })
    } else if 0 <= c < size {
        Some(c)
    } else {
        None
    }
}

/// Whether a resolved coordinate, if any, can be stored in a `u32`
pub open spec fn fits_u32(c: Option<int>) -> bool {
    match c {
        Some(v) => 0 <= v <= u32::MAX,
        None => true,
    }
}

impl<C: CoordinateSystem> CartesianGrid<C> {
    /// The cached product is the product of the sizes
    pub open(crate) spec fn wf(&self) -> bool {
        self.size_xy == self.size_x * self.size_y
    }

    /// Size of the grid on the X axis
    pub open(crate) spec fn sx(&self) -> int {
        self.size_x as int
    }

    /// Size of the grid on the Y axis
    pub open(crate) spec fn sy(&self) -> int {
        self.size_y as int
    }

    /// Size of the grid on the Z axis
    pub open(crate) spec fn sz(&self) -> int {
        self.size_z as int
    }

    /// The coordinate system of the grid
    pub open(crate) spec fn coords(&self) -> C {
        self.coord_system
    }

    /// Whether the X axis loops
    pub open(crate) spec fn loops_x(&self) -> bool {
        self.looping_x
    }

    /// Whether the Y axis loops
    pub open(crate) spec fn loops_y(&self) -> bool {
        self.looping_y
    }

    /// Whether the Z axis loops
    pub open(crate) spec fn loops_z(&self) -> bool {
        self.looping_z
    }

    /// Number of elements of the grid
    pub open spec fn total(&self) -> int {
        self.sx() * self.sy() * self.sz()
    }

    /// Whether `p` lies inside the grid
    pub open spec fn contains(&self, p: CartesianPosition) -> bool {
        p.x < self.sx() && p.y < self.sy() && p.z < self.sz()
    }

    /// Linear index of the coordinates `(x, y, z)`, X fastest, then Y, then Z
    pub open spec fn coords_index(&self, x: int, y: int, z: int) -> int {
        x + y * self.sx() + z * (self.sx() * self.sy())
    }

    /// Linear index of `p`
    pub open spec fn index_of(&self, p: CartesianPosition) -> int {
        self.coords_index(p.x as int, p.y as int, p.z as int)
    }

    /// Position of the linear index `i`
    pub open spec fn pos_of(&self, i: int) -> CartesianPosition {
        CartesianPosition {
            x: (i % self.sx()) as u32,
            y: ((i / self.sx()) % self.sy()) as u32,
            z: (i / (self.sx() * self.sy())) as u32,
        }
    }

    /// The three coordinates reached from `p` by `delta`, each axis resolved
    /// on its own; `None` as soon as one axis has no destination
    pub open spec fn next_coords(&self, p: CartesianPosition, delta: GridDelta) -> Option<
        (int, int, int),
    > {
        let m = p.moved_by(delta);
        let rx = resolve_axis(self.loops_x(), m.0, self.sx());
        let ry = resolve_axis(self.loops_y(), m.1, self.sy());
        let rz = resolve_axis(self.loops_z(), m.2, self.sz());
        if rx is Some && ry is Some && rz is Some {
            Some((rx->0, ry->0, rz->0))
        } else {
            None
        }
    }

    /// Every resolved coordinate of a move from `p` by `delta` fits in a `u32`
    pub open spec fn next_fits(&self, p: CartesianPosition, delta: GridDelta) -> bool {
        let m = p.moved_by(delta);
        let rx = resolve_axis(self.loops_x(), m.0, self.sx());
        let ry = resolve_axis(self.loops_y(), m.1, self.sy());
        let rz = resolve_axis(self.loops_z(), m.2, self.sz());
        (rx is Some && ry is Some && rz is Some) ==> (fits_u32(rx) && fits_u32(ry) && fits_u32(
            rz,
        ))
    }

    /// The position reached from `p` by `delta`, if any
    pub open spec fn next_pos(&self, p: CartesianPosition, delta: GridDelta) -> Option<
        CartesianPosition,
    > {
        match self.next_coords(p, delta) {
            Some(c) => Some(CartesianPosition { x: c.0 as u32, y: c.1 as u32, z: c.2 as u32 }),
            None => None,
        }
    }

    /// On every looping axis the move by `delta` is at most the axis size, so
    /// one wrap brings it back into the grid
    pub open spec fn delta_within(&self, delta: GridDelta) -> bool {
        &&& self.loops_x() ==> -self.sx() <= delta.dx <= self.sx()
        &&& self.loops_y() ==> -self.sy() <= delta.dy <= self.sy()
        &&& self.loops_z() ==> -self.sz() <= delta.dz <= self.sz()
    }

    /// The index of the position reached from `p` by `delta` can be computed in a `u32`
    pub open spec fn next_index_fits(&self, p: CartesianPosition, delta: GridDelta) -> bool {
        match self.next_pos(p, delta) {
            Some(q) => self.index_of(q) <= u32::MAX,
            None => true,
        }
    }

    /// The index of the position reached from `p` by `delta`, if any
    pub open spec fn next_index(&self, p: CartesianPosition, delta: GridDelta) -> Option<
        usize,
    > {
        match self.next_pos(p, delta) {
            Some(q) => Some(self.index_of(q) as usize),
            None => None,
        }
    }
}

impl CartesianGrid<Cartesian2D> {
    /// Creates a new grid with a [`Cartesian2D`] coordinate system
    ///
    /// Use `looping` to specify if the coordinates on an axis should loop when reaching the end of the axis.
    pub fn new_cartesian_2d(size_x: u32, size_y: u32, looping_x: bool, looping_y: bool) -> (r:
        CartesianGrid<Cartesian2D>)
        requires
            size_x * size_y <= u32::MAX,
        ensures
            r.wf(),
            r.sx() == size_x && r.sy() == size_y && r.sz() == 1,
            r.loops_x() == looping_x && r.loops_y() == looping_y && !r.loops_z(),
    {
        Self::new(size_x, size_y, 1, looping_x, looping_y, false, Cartesian2D)
    }

    /// Returns the index from a grid position, ignoring the Z axis.
    ///
    ///  NO CHECK is done to verify that the given position is a valid position for this grid.
    #[inline]
    pub fn get_index_2d(&self, x: u32, y: u32) -> (r: GridIndex)
        requires
            x + y * self.sx() <= u32::MAX,
        ensures
            r == x + y * self.sx(),
    {
        proof {
            vstd::arithmetic::mul::lemma_mul_nonnegative(y as int, self.size_x as int);
        }
        (x + y * self.size_x) as usize
    }

    /// Returns the index from a grid position, ignoring the Z axis.
    ///
    ///  NO CHECK is done to verify that the given position is a valid position for this grid.
    #[inline]
    pub fn get_index_from_pos_2d(&self, grid_position: &CartesianPosition) -> (r: GridIndex)
        requires
            grid_position.x + grid_position.y * self.sx() <= u32::MAX,
        ensures
            r == grid_position.x + grid_position.y * self.sx(),
    {
        self.get_index_2d(grid_position.x, grid_position.y)
    }
}

impl CartesianGrid<Cartesian3D> {
    /// Creates a new grid with a [`Cartesian3D`] coordinate system
    ///
    /// Use `looping` to specify if the coordinates on an axis should loop when reaching the end of the axis.
    pub fn new_cartesian_3d(
        size_x: u32,
        size_y: u32,
        size_z: u32,
        looping_x: bool,
        looping_y: bool,
        looping_z: bool,
    ) -> (r: CartesianGrid<Cartesian3D>)
        requires
            size_x * size_y <= u32::MAX,
        ensures
            r.wf(),
            r.sx() == size_x && r.sy() == size_y && r.sz() == size_z,
            r.loops_x() == looping_x && r.loops_y() == looping_y && r.loops_z() == looping_z,
    {
        Self::new(size_x, size_y, size_z, looping_x, looping_y, looping_z, Cartesian3D)
    }
}

impl<C: CartesianCoordinates> CartesianGrid<C> {
    /// `d` is one of the directions of the coordinate system
    pub open spec fn has_direction(&self, d: Direction) -> bool {
        d.index() < C::spec_directions().len()
    }

    /// Creates a new [`CartesianGrid`]
    pub fn new(
        size_x: u32,
        size_y: u32,
        size_z: u32,
        looping_x: bool,
        looping_y: bool,
        looping_z: bool,
        coord_system: C,
    ) -> (r: CartesianGrid<C>)
        requires
            size_x * size_y <= u32::MAX,
        ensures
            r.wf(),
            r.sx() == size_x && r.sy() == size_y && r.sz() == size_z,
            r.loops_x() == looping_x && r.loops_y() == looping_y && r.loops_z() == looping_z,
            r.coords() == coord_system,
    {
        Self {
            size_x,
            size_y,
            size_z,
            looping_x,
            looping_y,
            looping_z,
            coord_system,
            size_xy: size_x * size_y,
        }
    }

    /// Returns the size of the grid in the X axis.
    #[inline]
    pub fn size_x(&self) -> (r: u32)
        ensures
            r == self.sx(),
    {
        self.size_x
    }

    /// Returns the size of the grid in the Y axis.
    #[inline]
    pub fn size_y(&self) -> (r: u32)
        ensures
            r == self.sy(),
    {
        self.size_y
    }

    /// Returns the size of the grid in the Z axis.
    #[inline]
    pub fn size_z(&self) -> (r: u32)
        ensures
            r == self.sz(),
    {
        self.size_z
    }

    /// Returns the value of `size_x` * `size_y`
    #[inline]
    pub fn size_xy(&self) -> (r: u32)
        requires
            self.wf(),
        ensures
            r == self.sx() * self.sy(),
    {
        self.size_xy
    }

    /// Returns the size of this grid as a tuple
    #[inline]
    pub fn size(&self) -> (r: (u32, u32, u32))
        ensures
            r.0 == self.sx() && r.1 == self.sy() && r.2 == self.sz(),
    {
        (self.size_x, self.size_y, self.size_z)
    }

    /// Returns whether each axis loops, as a tuple
    #[inline]
    pub fn looping(&self) -> (r: (bool, bool, bool))
        ensures
            r.0 == self.loops_x() && r.1 == self.loops_y() && r.2 == self.loops_z(),
    {
        (self.looping_x, self.looping_y, self.looping_z)
    }

    /// Returns the total number of elements of the grid
    #[inline]
    pub fn total_size(&self) -> (r: usize)
        requires
            self.wf(),
            self.total() <= u32::MAX,
        ensures
            r == self.total(),
    {
        (self.size_xy * self.size_z) as usize
    }

    /// Returns a [`std::ops::Range`] over all indexes in this grid
    #[inline]
    pub fn indexes(&self) -> (r: std::ops::Range<GridIndex>)
        requires
            self.wf(),
            self.total() <= u32::MAX,
        ensures
            r.start == 0,
            r.end == self.total(),
    {
        0..self.total_size()
    }

    /// Returns the [`CoordinateSystem`] used by this [`CartesianGrid`]
    #[inline]
    pub fn coord_system(&self) -> (r: &C)
        ensures
            *r == self.coords(),
    {
        &self.coord_system
    }

    /// Returns the index from a grid position.
    ///
    /// NO CHECK is done to verify that the given position is a valid position for this grid.
    #[inline]
    pub fn index_from_coords(&self, x: u32, y: u32, z: u32) -> (r: GridIndex)
        requires
            self.wf(),
            self.coords_index(x as int, y as int, z as int) <= u32::MAX,
        ensures
            r == self.coords_index(x as int, y as int, z as int),
    {
        proof {
            vstd::arithmetic::mul::lemma_mul_nonnegative(y as int, self.size_x as int);
            vstd::arithmetic::mul::lemma_mul_nonnegative(z as int, self.size_xy as int);
        }
        (x + y * self.size_x + z * self.size_xy) as usize
    }

    /// Returns the index from a grid position.
    ///
    /// NO CHECK is done to verify that the given `grid_position` is a valid position for this grid.
    #[inline]
    pub fn index_from_pos(&self, grid_position: &CartesianPosition) -> (r: GridIndex)
        requires
            self.wf(),
            self.index_of(*grid_position) <= u32::MAX,
        ensures
            r == self.index_of(*grid_position),
    {
        self.index_from_coords(grid_position.x, grid_position.y, grid_position.z)
    }

    /// Returns a [`CartesianPosition`] from the index of an element in this grid.
    ///
    /// The index must fit in a `u32` and the X and Y sizes must not be 0.
    #[inline]
    pub fn pos_from_index(&self, grid_index: GridIndex) -> (r: CartesianPosition)
        requires
            self.wf(),
            grid_index <= u32::MAX,
            self.sx() > 0,
            self.sy() > 0,
        ensures
            r == self.pos_of(grid_index as int),
    {
        let index = grid_index as u32;
        proof {
            vstd::arithmetic::mul::lemma_mul_strictly_positive(self.size_x as int, self.size_y as int);
        }
        CartesianPosition {
            x: index % self.size_x,
            y: (index / self.size_x) % self.size_y,
            z: index / self.size_xy,
        }
    }

    /// Returns the count of directions of the coordinate system
    #[inline]
    pub fn directions_count(&self) -> (r: usize)
        ensures
            r == C::spec_directions().len(),
    {
        self.coord_system.directions().len()
    }

    /// Returns the index of the next position in the grid when moving 1 unit in `direction` from `grid_position`.
    ///
    /// Returns `None` if the destination is not in the grid.
    ///
    /// NO CHECK is done to verify that the given `grid_position` is a valid position for this grid.
    pub fn get_next_index_in_direction(
        &self,
        grid_position: &CartesianPosition,
        direction: Direction,
    ) -> (r: Option<GridIndex>)
        requires
            self.wf(),
            self.has_direction(direction),
            self.next_fits(*grid_position, unit_delta(direction)),
            self.next_index_fits(*grid_position, unit_delta(direction)),
        ensures
            r == self.next_index(*grid_position, unit_delta(direction)),
    {
        let delta = self.direction_delta(direction);
        match self.get_next_pos(grid_position, &delta) {
            Some(next_pos) => Some(self.index_from_pos(&next_pos)),
            None => None,
        }
    }

    /// Returns the index of the next position in the grid when moving `units` in `direction` from `grid_position`.
    ///
    /// Returns `None` if the destination is not in the grid.
    ///
    /// NO CHECK is done to verify that the given `grid_position` is a valid position for this grid.
    pub fn get_index_in_direction(
        &self,
        grid_position: &CartesianPosition,
        direction: Direction,
        units: i32,
    ) -> (r: Option<GridIndex>)
        requires
            self.wf(),
            self.has_direction(direction),
            unit_delta(direction).scale_fits(units as int),
            self.next_fits(*grid_position, unit_delta(direction).scaled(units as int)),
            self.next_index_fits(*grid_position, unit_delta(direction).scaled(units as int)),
        ensures
            r == self.next_index(*grid_position, unit_delta(direction).scaled(units as int)),
            self.contains(*grid_position) && self.delta_within(unit_delta(direction).scaled(units as int))
                ==> (r matches Some(i) ==> i < self.total()),
    {
        let delta = self.direction_delta(direction).mul(units);
        match self.get_next_pos(grid_position, &delta) {
            Some(next_pos) => {
                proof {
                    if self.contains(*grid_position) && self.delta_within(delta) {
                        lemma_index_in_bounds(*self, next_pos);
                    }
                }
                Some(self.index_from_pos(&next_pos))
            },
            None => None,
        }
    }

    /// Returns the the next position in the grid when moving 1 unit in `direction` from `grid_position`.
    ///
    /// Returns `None` if the destination is not in the grid.
    ///
    /// NO CHECK is done to verify that the given `grid_position` is a valid position for this grid.
    pub fn get_next_pos_in_direction(
        &self,
        grid_position: &CartesianPosition,
        direction: Direction,
    ) -> (r: Option<CartesianPosition>)
        requires
            self.has_direction(direction),
            self.next_fits(*grid_position, unit_delta(direction)),
        ensures
            r == self.next_pos(*grid_position, unit_delta(direction)),
    {
        let delta = self.direction_delta(direction);
        self.get_next_pos(grid_position, &delta)
    }

    /// The displacement of one unit in `direction`, read from the coordinate system's table
    fn direction_delta(&self, direction: Direction) -> (r: GridDelta)
        requires
            self.has_direction(direction),
        ensures
            r == unit_delta(direction),
    {
        let deltas = self.coord_system.deltas();
        let i = usize::from(direction);
        proof {
            C::lemma_directions_aligned();
            let k = direction.index() as int;
            assert(C::spec_directions()[k].index() == k);
            assert(C::spec_directions()[k] == direction);
        }
        deltas[i]
    }

    /// Returns the next position in the grid when moving by `delta` from `grid_position`.
    ///
    /// Returns `None` if the destination is not in the grid.
    ///
    /// NO CHECK is done to verify that the given `grid_position` is a valid position for this grid.
    pub fn get_next_pos(&self, grid_position: &CartesianPosition, delta: &GridDelta) -> (r: Option<
        CartesianPosition,
    >)
        requires
            self.next_fits(*grid_position, *delta),
        ensures
            r == self.next_pos(*grid_position, *delta),
            self.contains(*grid_position) && self.delta_within(*delta) ==> (r matches Some(q)
                ==> self.contains(q)),
    {
        proof {
            if self.contains(*grid_position) && self.delta_within(*delta) {
                lemma_move_within(*self, *grid_position, *delta);
            }
        }
        let next_pos = grid_position.get_delta_position(delta);
        let x = match resolve_coordinate(self.looping_x, next_pos.0, self.size_x) {
            Some(x) => x,
            None => return None,
        };
        let y = match resolve_coordinate(self.looping_y, next_pos.1, self.size_y) {
            Some(y) => y,
            None => return None,
        };
        let z = match resolve_coordinate(self.looping_z, next_pos.2, self.size_z) {
            Some(z) => z,
            None => return None,
        };
        Some(CartesianPosition { x: x as u32, y: y as u32, z: z as u32 })
    }
}

impl<C: CartesianCoordinates> CartesianGrid<C> {
    /// Creates a default [`GridData`] with the size of the [`CartesianGrid`] with each element value set to its default one.
    pub fn default_grid_data<D: Default + Clone>(&self) -> (r: GridData<C, D>)
        requires
            self.wf(),
            self.total() <= u32::MAX,
        ensures
            r.wf(),
            r.spec_grid() == *self,
            exists|d: D| call_ensures(D::default, (), d) && #[trigger] all_cloned(r.cells(), d),
    {
        let element = D::default();
        let ghost d = element;
        let r = GridData::new(*self, vec![element; self.total_size()]);
        assert(all_cloned(r.cells(), d));
        r
    }

    /// Creates a [`GridData`] with the size of the [`CartesianGrid`] with each element value being a copy of the given one.
    pub fn new_grid_data<D: Clone>(&self, element: D) -> (r: GridData<C, D>)
        requires
            self.wf(),
            self.total() <= u32::MAX,
        ensures
            r.wf(),
            r.spec_grid() == *self,
            all_cloned(r.cells(), element),
    {
        GridData::new(*self, vec![element; self.total_size()])
    }
}

/// Resolves one coordinate on an axis of `size` cells: a looping axis wraps
/// it once, a bounded axis rejects it when it falls outside.
fn resolve_coordinate(looping: bool, pos: i64, size: u32) -> (r: Option<i64>)
    requires
        i32::MIN + i32::MIN <= pos <= u32::MAX + i32::MAX,
    ensures
        r matches Some(v) ==> resolve_axis(looping, pos as int, size as int) == Some(v as int),
        r is None ==> resolve_axis(looping, pos as int, size as int) is None,
{
    let mut pos = pos;
    if looping {
        if pos < 0 {
            pos += size as i64;
        }
        if pos >= size as i64 {
            pos -= size as i64;
        }
        Some(pos)
    } else if pos < 0 || pos >= size as i64 {
        None
    } else {
        Some(pos)
    }
}

/// The index of a position inside the grid is below the grid's total size.
pub proof fn lemma_index_in_bounds<C: CoordinateSystem>(g: CartesianGrid<C>, p: CartesianPosition)
    requires
        g.contains(p),
    ensures
        0 <= g.index_of(p) < g.total(),
{
    let (x, y, z, sx, sy, sz) = (p.x as int, p.y as int, p.z as int, g.sx(), g.sy(), g.sz());
    assert(0 <= x + y * sx + z * (sx * sy) < sx * sy * sz) by (nonlinear_arith)
        requires
            0 <= x < sx,
            0 <= y < sy,
            0 <= z < sz,
    {
        assert(x + y * sx < sx * (y + 1));
        assert(sx * (y + 1) <= sx * sy);
        assert(x + y * sx + z * (sx * sy) < sx * sy * (z + 1));
        assert(sx * sy * (z + 1) <= sx * sy * sz);
    }
}

/// Converting coordinates inside the grid to an index and back gives the
/// same coordinates, and converting an index of the grid to a position and
/// back gives the same index.
pub proof fn lemma_index_pos_round_trip<C: CoordinateSystem>(
    g: CartesianGrid<C>,
    p: CartesianPosition,
    i: int,
)
    requires
        g.contains(p),
        0 <= i < g.total(),
    ensures
        g.pos_of(g.index_of(p)) == p,
        g.contains(g.pos_of(i)),
        g.index_of(g.pos_of(i)) == i,
{
    lemma_pos_index_pos(g, p);
    lemma_index_pos_index(g, i);
}

/// Position to index to position gives back a position inside the grid.
pub proof fn lemma_pos_index_pos<C: CoordinateSystem>(g: CartesianGrid<C>, p: CartesianPosition)
    requires
        g.contains(p),
    ensures
        g.pos_of(g.index_of(p)) == p,
{
    let (x, y, z, sx, sy, sz) = (p.x as int, p.y as int, p.z as int, g.sx(), g.sy(), g.sz());
    let q = y + sy * z;
    assert(g.index_of(p) == q * sx + x) by (nonlinear_arith)
        requires
            q == y + sy * z,
            g.index_of(p) == x + y * sx + z * (sx * sy),
    ;
    lemma_fundamental_div_mod_converse(g.index_of(p), sx, q, x);
    assert(q == z * sy + y) by (nonlinear_arith)
        requires
            q == y + sy * z,
    ;
    lemma_fundamental_div_mod_converse(q, sy, z, y);
    lemma_div_denominator(g.index_of(p), sx, sy);
}

/// Index to position to index gives back the index, through a position inside the grid.
pub proof fn lemma_index_pos_index<C: CoordinateSystem>(g: CartesianGrid<C>, i: int)
    requires
        0 <= i < g.total(),
    ensures
        g.contains(g.pos_of(i)),
        g.index_of(g.pos_of(i)) == i,
{
    let (sx, sy, sz) = (g.sx(), g.sy(), g.sz());
    assert(sx > 0 && sy > 0 && sz > 0) by (nonlinear_arith)
        requires
            0 <= i < sx * sy * sz,
            sx >= 0,
            sy >= 0,
            sz >= 0,
    ;
    assert(i < sx * (sy * sz)) by (nonlinear_arith)
        requires
            i < sx * sy * sz,
    ;
    let a = i / sx;
    lemma_multiply_divide_lt(i, sx, sy * sz);
    lemma_multiply_divide_lt(a, sy, sz);
    lemma_div_denominator(i, sx, sy);
    lemma_fundamental_div_mod(i, sx);
    lemma_fundamental_div_mod(a, sy);
    let (px, py, pz) = (i % sx, a % sy, a / sy);
    assert(0 <= px < sx && 0 <= py < sy && 0 <= pz < sz);
    assert(px + py * sx + pz * (sx * sy) == i) by (nonlinear_arith)
        requires
            i == sx * a + px,
            a == sy * pz + py,
    ;
}

/// On an X axis that does not loop, moving X- from `x = 0`, or X+ from
/// `x = size_x - 1`, has no destination: `get_next_pos_in_direction`, which
/// returns `next_pos(p, unit_delta(d))`, gives `None` there.
pub proof fn lemma_bounded_x_edges<C: CoordinateSystem>(
    g: CartesianGrid<C>,
    first: CartesianPosition,
    last: CartesianPosition,
)
    requires
        !g.loops_x(),
        first.x == 0,
        last.x == g.sx() - 1,
    ensures
        g.next_pos(first, unit_delta(Direction::XBackward)) is None,
        g.next_pos(last, unit_delta(Direction::XForward)) is None,
{
}

/// On an X axis that loops, moving X- from `x = 0` lands on `x = size_x - 1`,
/// and moving X+ from `x = size_x - 1` lands on `x = 0`, the other
/// coordinates unchanged; this is what `get_next_pos_in_direction` returns.
pub proof fn lemma_looping_x_wraps<C: CoordinateSystem>(
    g: CartesianGrid<C>,
    first: CartesianPosition,
    last: CartesianPosition,
)
    requires
        g.loops_x(),
        g.contains(first),
        g.contains(last),
        first.x == 0,
        last.x == g.sx() - 1,
    ensures
        g.next_pos(first, unit_delta(Direction::XBackward)) == Some(
            CartesianPosition { x: (g.sx() - 1) as u32, ..first },
        ),
        g.next_pos(last, unit_delta(Direction::XForward)) == Some(
            CartesianPosition { x: 0, ..last },
        ),
{
}

/// A one-unit move from a position inside the grid stays inside the grid
/// whenever it has a destination, and its coordinates and index can be computed.
pub proof fn lemma_unit_move_inside<C: CoordinateSystem>(
    g: CartesianGrid<C>,
    p: CartesianPosition,
    d: Direction,
)
    requires
        g.contains(p),
        g.total() <= u32::MAX,
    ensures
        g.next_fits(p, unit_delta(d)),
        g.next_index_fits(p, unit_delta(d)),
        g.next_pos(p, unit_delta(d)) matches Some(q) ==> g.contains(q),
{
    if let Some(q) = g.next_pos(p, unit_delta(d)) {
        lemma_index_in_bounds(g, q);
    }
}

/// A move from inside the grid by a delta no larger than the looping axes
/// it crosses stays inside the grid whenever it has a destination.
pub proof fn lemma_move_within<C: CoordinateSystem>(
    g: CartesianGrid<C>,
    p: CartesianPosition,
    delta: GridDelta,
)
    requires
        g.contains(p),
        g.delta_within(delta),
    ensures
        g.next_fits(p, delta),
        g.next_pos(p, delta) matches Some(q) ==> g.contains(q),
{
}

} // verus!
