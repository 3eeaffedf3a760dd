use vstd::prelude::*;
use vstd::std_specs::iter::IteratorSpec;

use crate::cartesian_grid::{lemma_index_pos_round_trip, CartesianGrid};
use crate::coordinate_system::CoordinateSystem;
use crate::coordinates::{unit_delta, CartesianCoordinates, CartesianPosition};

verus! {

/// Index of a grid element
pub type GridIndex = usize;

/// Generic trait to represent a grid
pub trait Grid<C: CoordinateSystem>: Sized {
    /// Position type used in this grid layout. Can be [GridIndex] if the grid elements have no position.
    type Position;

    /// The grid can convert all of its indexes and positions
    spec fn grid_wf(&self) -> bool;

    /// Number of elements of the grid
    spec fn spec_total_size(&self) -> int;

    /// Whether the index of `pos` can be computed
    spec fn pos_ok(&self, pos: Self::Position) -> bool;

    /// Index of `pos`
    spec fn spec_index_of(&self, pos: Self::Position) -> int;

    /// Position of the index `i`
    spec fn spec_pos_of(&self, i: int) -> Self::Position;

    /// Index of the neighbour of the element at `i` in the `k`-th direction
    /// of the coordinate system, if there is one
    spec fn spec_neighbour(&self, i: int, k: int) -> Option<GridIndex>;

    /// The coordinate system of the grid
    spec fn spec_coord_system(&self) -> C;

    /// Returns the [CoordinateSystem] used by this grid
    fn coord_system(&self) -> (r: &C)
        ensures
            *r == self.spec_coord_system(),
    ;

    /// Returns the maximum number of neighbours of an element in this grid
    fn directions_count(&self) -> (r: usize)
        ensures
            r == C::spec_directions().len(),
    ;

    /// Returns the total size of the grid
    fn total_size(&self) -> (r: usize)
        requires
            self.grid_wf(),
        ensures
            r == self.spec_total_size(),
    ;

    /// Will retrieve the next element's indexes in each direction.
    ///
    /// - `neighbours_buffer` should be allocated by the caller and its size should be >= to `directions.len()`
    fn get_neighbours_in_all_directions(
        &self,
        grid_index: GridIndex,
        neighbours_buffer: &mut Vec<Option<GridIndex>>,
    )
        requires
            self.grid_wf(),
            grid_index < self.spec_total_size(),
            old(neighbours_buffer).len() >= C::spec_directions().len(),
        ensures
            final(neighbours_buffer).len() == old(neighbours_buffer).len(),
            forall|k: int|
                0 <= k < C::spec_directions().len() ==> final(neighbours_buffer)@[k]
                    == #[trigger] self.spec_neighbour(grid_index as int, k),
            forall|k: int|
                C::spec_directions().len() <= k < old(neighbours_buffer).len()
                    ==> #[trigger] final(neighbours_buffer)@[k] == old(neighbours_buffer)@[k],
    ;

    /// Converts a position into an index
    fn index_from_pos(&self, pos: &Self::Position) -> (r: GridIndex)
        requires
            self.grid_wf(),
            self.pos_ok(*pos),
        ensures
            r == self.spec_index_of(*pos),
    ;

    /// Converts an index into an position
    fn pos_from_index(&self, index: GridIndex) -> (r: Self::Position)
        requires
            self.grid_wf(),
            index < self.spec_total_size(),
        ensures
            r == self.spec_pos_of(index as int),
    ;
}

impl<C: CartesianCoordinates> Grid<C> for CartesianGrid<C> {
    type Position = CartesianPosition;

    open spec fn grid_wf(&self) -> bool {
        self.wf() && self.total() <= u32::MAX
    }

    open spec fn spec_coord_system(&self) -> C {
        self.coords()
    }

    open spec fn spec_total_size(&self) -> int {
        self.total()
    }

    open spec fn pos_ok(&self, pos: CartesianPosition) -> bool {
        self.index_of(pos) <= u32::MAX
    }

    open spec fn spec_index_of(&self, pos: CartesianPosition) -> int {
        self.index_of(pos)
    }

    open spec fn spec_pos_of(&self, i: int) -> CartesianPosition {
        self.pos_of(i)
    }

    open spec fn spec_neighbour(&self, i: int, k: int) -> Option<GridIndex> {
        self.next_index(self.pos_of(i), unit_delta(C::spec_directions()[k]))
    }

    #[inline]
    fn coord_system(&self) -> (r: &C) {
        &self.coord_system
    }

    #[inline]
    fn directions_count(&self) -> (r: usize) {
        self.coord_system.directions().len()
    }

    #[inline]
    fn total_size(&self) -> (r: usize) {
        (self.size_xy * self.size_z) as usize
    }

    fn get_neighbours_in_all_directions(
        &self,
        grid_index: GridIndex,
        neighbours_buffer: &mut Vec<Option<GridIndex>>,
    ) {
        proof {
            lemma_sizes_positive(*self, grid_index as int);
            lemma_index_pos_round_trip(*self, CartesianPosition { x: 0, y: 0, z: 0 }, grid_index as int);
            C::lemma_directions_aligned();
        }
        let pos = CartesianGrid::pos_from_index(self, grid_index);
        let directions = self.coord_system.directions();
        let mut k: usize = 0;
        while k < directions.len()
            invariant
                self.grid_wf(),
                self.contains(pos),
                pos == self.pos_of(grid_index as int),
                directions@ == C::spec_directions(),
                forall|i: int|
                    0 <= i < C::spec_directions().len() ==> (#[trigger] C::spec_directions()[i]).index() == i,
                0 <= k <= directions.len(),
                directions.len() <= old(neighbours_buffer).len(),
                neighbours_buffer.len() == old(neighbours_buffer).len(),
                forall|j: int|
                    0 <= j < k ==> neighbours_buffer@[j] == #[trigger] self.spec_neighbour(grid_index as int, j),
                forall|j: int|
                    k <= j < old(neighbours_buffer).len() ==> #[trigger] neighbours_buffer@[j] == old(
                        neighbours_buffer,
                    )@[j],
            decreases directions.len() - k,
        {
            let dir = directions[k];
            proof {
                crate::cartesian_grid::lemma_unit_move_inside(*self, pos, dir);
            }
            let next = self.get_next_index_in_direction(&pos, dir);
            neighbours_buffer.set(usize::from(dir), next);
            k += 1;
        }
    }

    #[inline]
    fn index_from_pos(&self, grid_position: &CartesianPosition) -> (r: GridIndex) {
        CartesianGrid::index_from_pos(self, grid_position)
    }

    #[inline]
    fn pos_from_index(&self, grid_index: GridIndex) -> (r: CartesianPosition) {
        proof {
            lemma_sizes_positive(*self, grid_index as int);
        }
        CartesianGrid::pos_from_index(self, grid_index)
    }
}

/// A grid that holds the index `i` has no empty axis.
pub proof fn lemma_sizes_positive<C: CoordinateSystem>(g: CartesianGrid<C>, i: int)
    requires
        0 <= i < g.total(),
    ensures
        g.sx() > 0 && g.sy() > 0 && g.sz() > 0,
{
    let (sx, sy, sz) = (g.sx(), g.sy(), g.sz());
    assert(sx > 0 && sy > 0 && sz > 0) by (nonlinear_arith)
        requires
            0 <= i < sx * sy * sz,
            sx >= 0,
            sy >= 0,
            sz >= 0,
    ;
}

/// Every element of `s` is a clone of `d`
pub open spec fn all_cloned<D: Clone>(s: Seq<D>, d: D) -> bool {
    forall|i: int| 0 <= i < s.len() ==> cloned(d, #[trigger] s[i])
}

/// Holds a [`CartesianGrid`] and generic data in a linear buffer that can be accessed through the grid definition to represent the grid content.
pub struct GridData<C: CoordinateSystem, D> {
    pub(crate) grid: CartesianGrid<C>,
    pub(crate) data: Vec<D>,
}

impl<C: CoordinateSystem, D> GridData<C, D> {
    /// The grid definition
    pub open(crate) spec fn spec_grid(&self) -> CartesianGrid<C> {
        self.grid
    }

    /// The elements, in index order
    pub open(crate) spec fn cells(&self) -> Seq<D> {
        self.data@
    }

    /// The buffer holds exactly one element per position of a grid whose
    /// indexes fit in a `u32`
    pub open spec fn wf(&self) -> bool {
        &&& self.spec_grid().wf()
        &&& self.spec_grid().total() <= u32::MAX
        &&& self.cells().len() == self.spec_grid().total()
    }

    /// The element at position `p`
    pub open spec fn at(&self, p: CartesianPosition) -> D {
        self.cells()[self.spec_grid().index_of(p)]
    }
}

impl<C: CartesianCoordinates, D> GridData<C, D> {
    /// Prefer using `default_grid_data` or `new_grid_data` directly on an existing grid definition to create a `GridData` with a correct data Vec.
    #[inline]
    pub fn new(grid: CartesianGrid<C>, data: Vec<D>) -> (r: Self)
        requires
            grid.wf(),
            grid.total() <= u32::MAX,
            data@.len() == grid.total(),
        ensures
            r.wf(),
            r.spec_grid() == grid,
            r.cells() == data@,
    {
        Self { grid, data }
    }

    /// Returns a reference to the `CartesianGrid` this is based on
    #[inline]
    pub fn grid(&self) -> (r: &CartesianGrid<C>)
        ensures
            *r == self.spec_grid(),
    {
        &self.grid
    }

    /// Sets the value of the element at `index` in the grid.
    ///
    /// The index must be below the grid's total size.
    #[inline]
    pub fn set_raw(&mut self, index: GridIndex, value: D)
        requires
            index < old(self).cells().len(),
        ensures
            final(self).spec_grid() == old(self).spec_grid(),
            final(self).cells() == old(self).cells().update(index as int, value),
    {
        self.data.set(index, value);
    }

    /// Sets the value of the element at `index_ref` in the grid.
    ///
    /// The reference must point inside the grid.
    #[inline]
    pub fn set<N: NodeRef<C>>(&mut self, index_ref: N, value: D)
        requires
            index_ref.ref_ok(&old(self).spec_grid()),
            index_ref.ref_index(&old(self).spec_grid()) < old(self).cells().len(),
        ensures
            final(self).spec_grid() == old(self).spec_grid(),
            final(self).cells() == old(self).cells().update(
                index_ref.ref_index(&old(self).spec_grid()),
                value,
            ),
    {
        let index = index_ref.to_index(&self.grid);
        self.data.set(index, value);
    }

    /// Returns a reference to the element at this index.
    ///
    /// The index must be below the grid's total size.
    #[inline]
    pub fn get(&self, index: GridIndex) -> (r: &D)
        requires
            index < self.cells().len(),
        ensures
            *r == self.cells()[index as int],
    {
        &self.data[index]
    }

    /// Returns a mutable reference to the element at this index.
    ///
    /// The index must be below the grid's total size.
    #[inline]
    pub fn get_mut(&mut self, index: GridIndex) -> (r: &mut D)
        requires
            index < old(self).cells().len(),
        ensures
            *r == old(self).cells()[index as int],
            final(self).spec_grid() == old(self).spec_grid(),
            final(self).cells() == old(self).cells().update(index as int, *final(r)),
    {
        &mut self.data[index]
    }

    /// Returns an iterator over all the elements.
    #[inline]
    pub fn iter(&self) -> (r: std::slice::Iter<'_, D>)
        ensures
            r.remaining() == self.cells().as_ref(),
    {
        self.data.as_slice().iter()
    }

    /// Returns a range of all the [GridIndex] in this grid.
    #[inline]
    pub fn indexes(&self) -> (r: std::ops::Range<usize>)
        requires
            self.wf(),
        ensures
            r.start == 0,
            r.end == self.cells().len(),
    {
        0..self.grid.total_size()
    }
}

impl<C: CartesianCoordinates, D: Clone> GridData<C, D> {
    /// Resets the whole grid buffer by setting the value of each element to `value`
    pub fn reset(&mut self, value: D)
        ensures
            final(self).spec_grid() == old(self).spec_grid(),
            final(self).cells().len() == old(self).cells().len(),
            all_cloned(final(self).cells(), value),
    {
        let mut i: usize = 0;
        while i < self.data.len()
            invariant
                self.grid == old(self).grid,
                self.data@.len() == old(self).data@.len(),
                0 <= i <= self.data@.len(),
                forall|j: int| 0 <= j < i ==> cloned(value, #[trigger] self.data@[j]),
            decreases self.data@.len() - i,
        {
            self.data.set(i, value.clone());
            i += 1;
        }
    }
}

/// Represents a reference to an element of a [`CartesianGrid`] or [`GridData`]
pub trait NodeRef<C: CoordinateSystem> {
    /// The reference can be turned into an index of `grid`
    spec fn ref_ok(&self, grid: &CartesianGrid<C>) -> bool;

    /// The index this reference stands for in `grid`
    spec fn ref_index(&self, grid: &CartesianGrid<C>) -> int;

    /// Returns the [`GridIndex`] that is referenced by this `NodeRef`.
    fn to_index(&self, grid: &CartesianGrid<C>) -> (r: GridIndex)
        requires
            self.ref_ok(grid),
        ensures
            r == self.ref_index(grid),
    ;
}

impl<C: CoordinateSystem> NodeRef<C> for GridIndex {
    open spec fn ref_ok(&self, grid: &CartesianGrid<C>) -> bool {
        true
    }

    open spec fn ref_index(&self, grid: &CartesianGrid<C>) -> int {
        *self as int
    }

    #[inline]
    fn to_index(&self, _grid: &CartesianGrid<C>) -> (r: GridIndex) {
        *self
    }
}

impl<C: CartesianCoordinates> NodeRef<C> for CartesianPosition {
    open spec fn ref_ok(&self, grid: &CartesianGrid<C>) -> bool {
        grid.wf() && grid.index_of(*self) <= u32::MAX
    }

    open spec fn ref_index(&self, grid: &CartesianGrid<C>) -> int {
        grid.index_of(*self)
    }

    #[inline]
    fn to_index(&self, grid: &CartesianGrid<C>) -> (r: GridIndex) {
        grid.index_from_pos(self)
    }
}

} // verus!
