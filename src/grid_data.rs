use vstd::prelude::*;

use crate::cartesian_grid::{
    lemma_index_in_bounds, lemma_index_pos_index, lemma_pos_index_pos, CartesianGrid,
};
use crate::coordinate_system::CoordinateSystem;
use crate::coordinates::{Cartesian2D, Cartesian3D, CartesianCoordinates, CartesianPosition};
use crate::grid::GridData;

verus! {

/// `after` holds a clone of `value` at every position of `g` that `sel`
/// picks, and the element of `before` at every other position.
pub open spec fn stamped<C: CoordinateSystem, D: Clone>(
    g: CartesianGrid<C>,
    before: Seq<D>,
    after: Seq<D>,
    value: D,
    sel: spec_fn(CartesianPosition) -> bool,
) -> bool {
    &&& after.len() == before.len()
    &&& forall|i: int|
        0 <= i < before.len() ==> if sel(#[trigger] g.pos_of(i)) {
            cloned(value, after[i])
        } else {
            after[i] == before[i]
        }
}

/// Writing a clone of `value` at the index of `p` extends the picked positions by `p`.
proof fn lemma_stamp_one<C: CoordinateSystem, D: Clone>(
    g: CartesianGrid<C>,
    before: Seq<D>,
    after: Seq<D>,
    value: D,
    sel: spec_fn(CartesianPosition) -> bool,
    p: CartesianPosition,
    v: D,
)
    requires
        before.len() == g.total(),
        stamped(g, before, after, value, sel),
        g.contains(p),
        cloned(value, v),
    ensures
        0 <= g.index_of(p) < before.len(),
        stamped(g, before, after.update(g.index_of(p), v), value, |q: CartesianPosition| sel(q) || q == p),
{
    lemma_index_in_bounds(g, p);
    let idx = g.index_of(p);
    let after2 = after.update(idx, v);
    let sel2 = |q: CartesianPosition| sel(q) || q == p;
    assert forall|i: int| 0 <= i < before.len() implies if sel2(#[trigger] g.pos_of(i)) {
        cloned(value, after2[i])
    } else {
        after2[i] == before[i]
    } by {
        lemma_pos_index_pos(g, p);
        lemma_index_pos_index(g, i);
        if i != idx {
            assert(g.pos_of(i) != p);
        }
    }
}

/// Two selections that agree on every position of the grid stamp alike.
proof fn lemma_stamped_ext<C: CoordinateSystem, D: Clone>(
    g: CartesianGrid<C>,
    before: Seq<D>,
    after: Seq<D>,
    value: D,
    s1: spec_fn(CartesianPosition) -> bool,
    s2: spec_fn(CartesianPosition) -> bool,
)
    requires
        before.len() == g.total(),
        stamped(g, before, after, value, s1),
        forall|q: CartesianPosition| g.contains(q) ==> s1(q) == s2(q),
    ensures
        stamped(g, before, after, value, s2),
{
    assert forall|i: int| 0 <= i < before.len() implies if s2(#[trigger] g.pos_of(i)) {
        cloned(value, after[i])
    } else {
        after[i] == before[i]
    } by {
        lemma_index_pos_index(g, i);
        assert(s1(g.pos_of(i)) == s2(g.pos_of(i)));
    }
}

/// Nothing picked, nothing changed.
proof fn lemma_stamped_none<C: CoordinateSystem, D: Clone>(
    g: CartesianGrid<C>,
    before: Seq<D>,
    value: D,
)
    ensures
        stamped(g, before, before, value, |q: CartesianPosition| false),
{
}

/// Uses Copy if possible.
impl<C: CartesianCoordinates, D: Clone> GridData<C, D> {
    /// Sets all nodes of the grid with x=`x` to `value`
    pub fn set_all_x(&mut self, x: u32, value: D)
        requires
            old(self).wf(),
            x < old(self).spec_grid().sx(),
        ensures
            final(self).wf(),
            final(self).spec_grid() == old(self).spec_grid(),
            stamped(
                old(self).spec_grid(),
                old(self).cells(),
                final(self).cells(),
                value,
                |q: CartesianPosition| q.x == x,
            ),
    {
        let ghost g = self.grid;
        let ghost before = self.data@;
        let sx = self.grid().size_x();
        let sy = self.grid().size_y();
        let sz = self.grid().size_z();
        let mut index: u64 = x as u64;
        proof {
            lemma_stamped_none(g, before, value);
            lemma_stamped_ext(g, before, before, value, |q: CartesianPosition| false,
                |q: CartesianPosition| q.x == x && q.z < 0);
        }
        let mut z: u32 = 0;
        while z < sz
            invariant
                self.wf(),
                self.grid == g,
                before.len() == g.total(),
                g.sx() == sx && g.sy() == sy && g.sz() == sz,
                x < sx,
                z <= sz,
                index == g.coords_index(x as int, 0, z as int),
                stamped(g, before, self.data@, value, |q: CartesianPosition| q.x == x && q.z < z),
            decreases sz - z,
        {
            let mut y: u32 = 0;
            proof {
                lemma_stamped_ext(g, before, self.data@, value,
                    |q: CartesianPosition| q.x == x && q.z < z,
                    |q: CartesianPosition| q.x == x && (q.z < z || (q.z == z && q.y < 0)));
            }
            while y < sy
                invariant
                    self.wf(),
                    self.grid == g,
                    before.len() == g.total(),
                    g.sx() == sx && g.sy() == sy && g.sz() == sz,
                    x < sx,
                    z < sz,
                    y <= sy,
                    index == g.coords_index(x as int, y as int, z as int),
                    stamped(g, before, self.data@, value,
                        |q: CartesianPosition| q.x == x && (q.z < z || (q.z == z && q.y < y))),
                decreases sy - y,
            {
                let ghost p = CartesianPosition { x, y, z };
                let v = value.clone();
                proof {
                    lemma_stamp_one(g, before, self.data@, value,
                        |q: CartesianPosition| q.x == x && (q.z < z || (q.z == z && q.y < y)), p, v);
                }
                self.set_raw(index as usize, v);
                proof {
                    lemma_stamped_ext(g, before, self.data@, value,
                        |q: CartesianPosition| (q.x == x && (q.z < z || (q.z == z && q.y < y))) || q == p,
                        |q: CartesianPosition| q.x == x && (q.z < z || (q.z == z && q.y < y + 1)));
                    assert(g.coords_index(x as int, y + 1, z as int) == index + sx) by (nonlinear_arith)
                        requires
                            index == g.coords_index(x as int, y as int, z as int),
                            g.sx() == sx;
                }
                index += sx as u64;
                y += 1;
            }
            proof {
                lemma_stamped_ext(g, before, self.data@, value,
                    |q: CartesianPosition| q.x == x && (q.z < z || (q.z == z && q.y < sy)),
                    |q: CartesianPosition| q.x == x && q.z < z + 1);
                assert(g.coords_index(x as int, sy as int, z as int) == g.coords_index(x as int, 0, z + 1))
                    by (nonlinear_arith)
                    requires
                        g.sx() == sx,
                        g.sy() == sy;
            }
            z += 1;
        }
        proof {
            lemma_stamped_ext(g, before, self.data@, value,
                |q: CartesianPosition| q.x == x && q.z < sz,
                |q: CartesianPosition| q.x == x);
        }
    }

    /// Sets all nodes of the grid with y=`y` to `value`
    pub fn set_all_y(&mut self, y: u32, value: D)
        requires
            old(self).wf(),
            y < old(self).spec_grid().sy(),
        ensures
            final(self).wf(),
            final(self).spec_grid() == old(self).spec_grid(),
            stamped(
                old(self).spec_grid(),
                old(self).cells(),
                final(self).cells(),
                value,
                |q: CartesianPosition| q.y == y,
            ),
    {
        let ghost g = self.grid;
        let ghost before = self.data@;
        let sx = self.grid().size_x();
        let sy = self.grid().size_y();
        let sz = self.grid().size_z();
        let sxy = self.grid().size_xy();
        proof {
            lemma_stamped_none(g, before, value);
            lemma_stamped_ext(g, before, before, value, |q: CartesianPosition| false,
                |q: CartesianPosition| q.y == y && q.z < 0);
            vstd::arithmetic::mul::lemma_mul_upper_bound(y as int, u32::MAX as int, sx as int, u32::MAX as int);
        }
        let mut index: u64 = y as u64 * sx as u64;
        let mut z: u32 = 0;
        while z < sz
            invariant
                self.wf(),
                self.grid == g,
                before.len() == g.total(),
                g.sx() == sx && g.sy() == sy && g.sz() == sz && sxy == sx * sy,
                y < sy,
                z <= sz,
                index == g.coords_index(0, y as int, z as int),
                stamped(g, before, self.data@, value, |q: CartesianPosition| q.y == y && q.z < z),
            decreases sz - z,
        {
            let mut x: u32 = 0;
            proof {
                lemma_stamped_ext(g, before, self.data@, value,
                    |q: CartesianPosition| q.y == y && q.z < z,
                    |q: CartesianPosition| q.y == y && (q.z < z || (q.z == z && q.x < 0)));
            }
            while x < sx
                invariant
                    self.wf(),
                    self.grid == g,
                    before.len() == g.total(),
                    g.sx() == sx && g.sy() == sy && g.sz() == sz && sxy == sx * sy,
                    y < sy,
                    z < sz,
                    x <= sx,
                    index == g.coords_index(x as int, y as int, z as int),
                    stamped(g, before, self.data@, value,
                        |q: CartesianPosition| q.y == y && (q.z < z || (q.z == z && q.x < x))),
                decreases sx - x,
            {
                let ghost p = CartesianPosition { x, y, z };
                let v = value.clone();
                proof {
                    lemma_stamp_one(g, before, self.data@, value,
                        |q: CartesianPosition| q.y == y && (q.z < z || (q.z == z && q.x < x)), p, v);
                }
                self.set_raw(index as usize, v);
                proof {
                    lemma_stamped_ext(g, before, self.data@, value,
                        |q: CartesianPosition| (q.y == y && (q.z < z || (q.z == z && q.x < x))) || q == p,
                        |q: CartesianPosition| q.y == y && (q.z < z || (q.z == z && q.x < x + 1)));
                }
                index += 1;
                x += 1;
            }
            proof {
                lemma_stamped_ext(g, before, self.data@, value,
                    |q: CartesianPosition| q.y == y && (q.z < z || (q.z == z && q.x < sx)),
                    |q: CartesianPosition| q.y == y && q.z < z + 1);
                assert(g.coords_index(sx as int, y as int, z as int) + sx * sy - sx == g.coords_index(
                    0,
                    y as int,
                    z + 1,
                ) && g.coords_index(sx as int, y as int, z as int) <= g.total()) by (nonlinear_arith)
                    requires
                        g.sx() == sx,
                        g.sy() == sy,
                        g.sz() == sz,
                        y < sy,
                        z < sz,
                ;
            }
            index = index + sxy as u64 - sx as u64;
            z += 1;
        }
        proof {
            lemma_stamped_ext(g, before, self.data@, value,
                |q: CartesianPosition| q.y == y && q.z < sz,
                |q: CartesianPosition| q.y == y);
        }
    }

    /// Sets all nodes of the grid with z=`z` to `value`
    pub fn set_all_z(&mut self, z: u32, value: D)
        requires
            old(self).wf(),
            z < old(self).spec_grid().sz(),
        ensures
            final(self).wf(),
            final(self).spec_grid() == old(self).spec_grid(),
            stamped(
                old(self).spec_grid(),
                old(self).cells(),
                final(self).cells(),
                value,
                |q: CartesianPosition| q.z == z,
            ),
    {
        let ghost g = self.grid;
        let ghost before = self.data@;
        let sx = self.grid().size_x();
        let sy = self.grid().size_y();
        let sxy = self.grid().size_xy();
        proof {
            lemma_stamped_none(g, before, value);
            lemma_stamped_ext(g, before, before, value, |q: CartesianPosition| false,
                |q: CartesianPosition| q.z == z && q.y < 0);
            vstd::arithmetic::mul::lemma_mul_upper_bound(z as int, u32::MAX as int, sxy as int, u32::MAX as int);
        }
        let mut index: u64 = z as u64 * sxy as u64;
        let mut y: u32 = 0;
        while y < sy
            invariant
                self.wf(),
                self.grid == g,
                before.len() == g.total(),
                g.sx() == sx && g.sy() == sy && sxy == sx * sy,
                z < g.sz(),
                y <= sy,
                index == g.coords_index(0, y as int, z as int),
                stamped(g, before, self.data@, value, |q: CartesianPosition| q.z == z && q.y < y),
            decreases sy - y,
        {
            let mut x: u32 = 0;
            proof {
                lemma_stamped_ext(g, before, self.data@, value,
                    |q: CartesianPosition| q.z == z && q.y < y,
                    |q: CartesianPosition| q.z == z && (q.y < y || (q.y == y && q.x < 0)));
            }
            while x < sx
                invariant
                    self.wf(),
                    self.grid == g,
                    before.len() == g.total(),
                    g.sx() == sx && g.sy() == sy && sxy == sx * sy,
                    z < g.sz(),
                    y < sy,
                    x <= sx,
                    index == g.coords_index(x as int, y as int, z as int),
                    stamped(g, before, self.data@, value,
                        |q: CartesianPosition| q.z == z && (q.y < y || (q.y == y && q.x < x))),
                decreases sx - x,
            {
                let ghost p = CartesianPosition { x, y, z };
                let v = value.clone();
                proof {
                    lemma_stamp_one(g, before, self.data@, value,
                        |q: CartesianPosition| q.z == z && (q.y < y || (q.y == y && q.x < x)), p, v);
                }
                self.set_raw(index as usize, v);
                proof {
                    lemma_stamped_ext(g, before, self.data@, value,
                        |q: CartesianPosition| (q.z == z && (q.y < y || (q.y == y && q.x < x))) || q == p,
                        |q: CartesianPosition| q.z == z && (q.y < y || (q.y == y && q.x < x + 1)));
                }
                index += 1;
                x += 1;
            }
            proof {
                lemma_stamped_ext(g, before, self.data@, value,
                    |q: CartesianPosition| q.z == z && (q.y < y || (q.y == y && q.x < sx)),
                    |q: CartesianPosition| q.z == z && q.y < y + 1);
                assert(g.coords_index(sx as int, y as int, z as int) == g.coords_index(0, y + 1, z as int))
                    by (nonlinear_arith)
                    requires
                        g.sx() == sx,
                ;
            }
            y += 1;
        }
        proof {
            lemma_stamped_ext(g, before, self.data@, value,
                |q: CartesianPosition| q.z == z && q.y < sy,
                |q: CartesianPosition| q.z == z);
        }
    }

    /// Sets all nodes of the grid with x=`x` and y=`y` to `value`
    pub fn set_all_xy(&mut self, x: u32, y: u32, value: D)
        requires
            old(self).wf(),
            x < old(self).spec_grid().sx(),
            y < old(self).spec_grid().sy(),
        ensures
            final(self).wf(),
            final(self).spec_grid() == old(self).spec_grid(),
            stamped(
                old(self).spec_grid(),
                old(self).cells(),
                final(self).cells(),
                value,
                |q: CartesianPosition| q.x == x && q.y == y,
            ),
    {
        let ghost g = self.grid;
        let ghost before = self.data@;
        let sx = self.grid().size_x();
        let sz = self.grid().size_z();
        let sxy = self.grid().size_xy();
        proof {
            lemma_stamped_none(g, before, value);
            lemma_stamped_ext(g, before, before, value, |q: CartesianPosition| false,
                |q: CartesianPosition| q.x == x && q.y == y && q.z < 0);
            vstd::arithmetic::mul::lemma_mul_upper_bound(y as int, u32::MAX as int, sx as int, u32::MAX as int);
        }
        let mut index: u64 = x as u64 + y as u64 * sx as u64;
        let mut z: u32 = 0;
        while z < sz
            invariant
                self.wf(),
                self.grid == g,
                before.len() == g.total(),
                g.sx() == sx && g.sz() == sz && sxy == sx * g.sy(),
                x < sx,
                y < g.sy(),
                z <= sz,
                index == g.coords_index(x as int, y as int, z as int),
                stamped(g, before, self.data@, value,
                    |q: CartesianPosition| q.x == x && q.y == y && q.z < z),
            decreases sz - z,
        {
            let ghost p = CartesianPosition { x, y, z };
            let v = value.clone();
            proof {
                lemma_stamp_one(g, before, self.data@, value,
                    |q: CartesianPosition| q.x == x && q.y == y && q.z < z, p, v);
            }
            self.set_raw(index as usize, v);
            proof {
                lemma_stamped_ext(g, before, self.data@, value,
                    |q: CartesianPosition| (q.x == x && q.y == y && q.z < z) || q == p,
                    |q: CartesianPosition| q.x == x && q.y == y && q.z < z + 1);
                assert(g.coords_index(x as int, y as int, z + 1) == index + sxy) by (nonlinear_arith)
                    requires
                        index == g.coords_index(x as int, y as int, z as int),
                        sxy == g.sx() * g.sy(),
                ;
            }
            index += sxy as u64;
            z += 1;
        }
        proof {
            lemma_stamped_ext(g, before, self.data@, value,
                |q: CartesianPosition| q.x == x && q.y == y && q.z < sz,
                |q: CartesianPosition| q.x == x && q.y == y);
        }
    }

    /// Sets all nodes of the grid with x=`x` and z=`z` to `value`
    pub fn set_all_xz(&mut self, x: u32, z: u32, value: D)
        requires
            old(self).wf(),
            x < old(self).spec_grid().sx(),
            z < old(self).spec_grid().sz(),
        ensures
            final(self).wf(),
            final(self).spec_grid() == old(self).spec_grid(),
            stamped(
                old(self).spec_grid(),
                old(self).cells(),
                final(self).cells(),
                value,
                |q: CartesianPosition| q.x == x && q.z == z,
            ),
    {
        let ghost g = self.grid;
        let ghost before = self.data@;
        let sx = self.grid().size_x();
        let sy = self.grid().size_y();
        let sxy = self.grid().size_xy();
        proof {
            lemma_stamped_none(g, before, value);
            lemma_stamped_ext(g, before, before, value, |q: CartesianPosition| false,
                |q: CartesianPosition| q.x == x && q.z == z && q.y < 0);
            vstd::arithmetic::mul::lemma_mul_upper_bound(z as int, u32::MAX as int, sxy as int, u32::MAX as int);
        }
        let mut index: u64 = x as u64 + z as u64 * sxy as u64;
        let mut y: u32 = 0;
        while y < sy
            invariant
                self.wf(),
                self.grid == g,
                before.len() == g.total(),
                g.sx() == sx && g.sy() == sy && sxy == sx * sy,
                x < sx,
                z < g.sz(),
                y <= sy,
                index == g.coords_index(x as int, y as int, z as int),
                stamped(g, before, self.data@, value,
                    |q: CartesianPosition| q.x == x && q.z == z && q.y < y),
            decreases sy - y,
        {
            let ghost p = CartesianPosition { x, y, z };
            let v = value.clone();
            proof {
                lemma_stamp_one(g, before, self.data@, value,
                    |q: CartesianPosition| q.x == x && q.z == z && q.y < y, p, v);
            }
            self.set_raw(index as usize, v);
            proof {
                lemma_stamped_ext(g, before, self.data@, value,
                    |q: CartesianPosition| (q.x == x && q.z == z && q.y < y) || q == p,
                    |q: CartesianPosition| q.x == x && q.z == z && q.y < y + 1);
                assert(g.coords_index(x as int, y + 1, z as int) == index + sx) by (nonlinear_arith)
                    requires
                        index == g.coords_index(x as int, y as int, z as int),
                        sx == g.sx(),
                ;
            }
            index += sx as u64;
            y += 1;
        }
        proof {
            lemma_stamped_ext(g, before, self.data@, value,
                |q: CartesianPosition| q.x == x && q.z == z && q.y < sy,
                |q: CartesianPosition| q.x == x && q.z == z);
        }
    }

    /// Sets all nodes of the grid with y=`y` and z=`z` to `value`
    pub fn set_all_yz(&mut self, y: u32, z: u32, value: D)
        requires
            old(self).wf(),
            y < old(self).spec_grid().sy(),
            z < old(self).spec_grid().sz(),
        ensures
            final(self).wf(),
            final(self).spec_grid() == old(self).spec_grid(),
            stamped(
                old(self).spec_grid(),
                old(self).cells(),
                final(self).cells(),
                value,
                |q: CartesianPosition| q.y == y && q.z == z,
            ),
    {
        let ghost g = self.grid;
        let ghost before = self.data@;
        let sx = self.grid().size_x();
        let sxy = self.grid().size_xy();
        proof {
            lemma_stamped_none(g, before, value);
            lemma_stamped_ext(g, before, before, value, |q: CartesianPosition| false,
                |q: CartesianPosition| q.y == y && q.z == z && q.x < 0);
            assert(y * sx <= sxy) by (nonlinear_arith)
                requires
                    y < g.sy(),
                    sxy == sx * g.sy(),
            ;
            vstd::arithmetic::mul::lemma_mul_upper_bound(z as int, u32::MAX as int, sxy as int, u32::MAX as int);
        }
        let mut index: u64 = y as u64 * sx as u64 + z as u64 * sxy as u64;
        let mut x: u32 = 0;
        while x < sx
            invariant
                self.wf(),
                self.grid == g,
                before.len() == g.total(),
                g.sx() == sx && sxy == sx * g.sy(),
                y < g.sy(),
                z < g.sz(),
                x <= sx,
                index == g.coords_index(x as int, y as int, z as int),
                stamped(g, before, self.data@, value,
                    |q: CartesianPosition| q.y == y && q.z == z && q.x < x),
            decreases sx - x,
        {
            let ghost p = CartesianPosition { x, y, z };
            let v = value.clone();
            proof {
                lemma_stamp_one(g, before, self.data@, value,
                    |q: CartesianPosition| q.y == y && q.z == z && q.x < x, p, v);
            }
            self.set_raw(index as usize, v);
            proof {
                lemma_stamped_ext(g, before, self.data@, value,
                    |q: CartesianPosition| (q.y == y && q.z == z && q.x < x) || q == p,
                    |q: CartesianPosition| q.y == y && q.z == z && q.x < x + 1);
            }
            index += 1;
            x += 1;
        }
        proof {
            lemma_stamped_ext(g, before, self.data@, value,
                |q: CartesianPosition| q.y == y && q.z == z && q.x < sx,
                |q: CartesianPosition| q.y == y && q.z == z);
        }
    }
}

impl<C: CartesianCoordinates, D> GridData<C, D> {
    /// Returns a reference to the element at this position.
    ///
    /// The position's index must be below the grid's total size.
    #[inline]
    pub fn get_from_pos(&self, pos: &CartesianPosition) -> (r: &D)
        requires
            self.wf(),
            self.spec_grid().index_of(*pos) < self.cells().len(),
        ensures
            *r == self.at(*pos),
    {
        self.get(self.grid().index_from_pos(pos))
    }

    /// Returns a mutable reference to the element at this position.
    ///
    /// The position's index must be below the grid's total size.
    #[inline]
    pub fn get_mut_from_pos(&mut self, pos: &CartesianPosition) -> (r: &mut D)
        requires
            old(self).wf(),
            old(self).spec_grid().index_of(*pos) < old(self).cells().len(),
        ensures
            *r == old(self).at(*pos),
            final(self).spec_grid() == old(self).spec_grid(),
            final(self).cells() == old(self).cells().update(
                old(self).spec_grid().index_of(*pos),
                *final(r),
            ),
    {
        let index = self.grid().index_from_pos(pos);
        self.get_mut(index)
    }
}

impl<D> GridData<Cartesian2D, D> {
    /// Returns a reference to the element at this position.
    ///
    /// The position's index must be below the grid's total size.
    #[inline]
    pub fn get_2d(&self, x: u32, y: u32) -> (r: &D)
        requires
            self.wf(),
            x + y * self.spec_grid().sx() < self.cells().len(),
        ensures
            *r == self.cells()[x + y * self.spec_grid().sx()],
    {
        self.get(self.grid().get_index_2d(x, y))
    }

    /// Returns a mutable reference to the data at this position.
    ///
    /// The position's index must be below the grid's total size.
    #[inline]
    pub fn get_2d_mut(&mut self, x: u32, y: u32) -> (r: &mut D)
        requires
            old(self).wf(),
            x + y * old(self).spec_grid().sx() < old(self).cells().len(),
        ensures
            *r == old(self).cells()[x + y * old(self).spec_grid().sx()],
            final(self).spec_grid() == old(self).spec_grid(),
            final(self).cells() == old(self).cells().update(
                x + y * old(self).spec_grid().sx(),
                *final(r),
            ),
    {
        let index = self.grid().get_index_2d(x, y);
        self.get_mut(index)
    }
}

impl<D> GridData<Cartesian3D, D> {
    /// Returns a reference to the data at this position.
    ///
    /// The position's index must be below the grid's total size.
    #[inline]
    pub fn get_3d(&self, x: u32, y: u32, z: u32) -> (r: &D)
        requires
            self.wf(),
            self.spec_grid().coords_index(x as int, y as int, z as int) < self.cells().len(),
        ensures
            *r == self.cells()[self.spec_grid().coords_index(x as int, y as int, z as int)],
    {
        self.get(self.grid().index_from_coords(x, y, z))
    }

    /// Returns a mutable reference to the data at this position.
    ///
    /// The position's index must be below the grid's total size.
    #[inline]
    pub fn get_3d_mut(&mut self, x: u32, y: u32, z: u32) -> (r: &mut D)
        requires
            old(self).wf(),
            old(self).spec_grid().coords_index(x as int, y as int, z as int) < old(self).cells().len(),
        ensures
            *r == old(self).cells()[old(self).spec_grid().coords_index(x as int, y as int, z as int)],
            final(self).spec_grid() == old(self).spec_grid(),
            final(self).cells() == old(self).cells().update(
                old(self).spec_grid().coords_index(x as int, y as int, z as int),
                *final(r),
            ),
    {
        let index = self.grid().index_from_coords(x, y, z);
        self.get_mut(index)
    }
}

} // verus!
