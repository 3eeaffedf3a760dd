use std::collections::VecDeque;

use vstd::arithmetic::div_mod::lemma_fundamental_div_mod_converse;
use vstd::prelude::*;

use crate::cartesian_grid::{lemma_index_in_bounds, lemma_unit_move_inside, CartesianGrid};
use crate::coordinate_system::CoordinateSystem;
use crate::coordinates::{unit_delta, Cartesian2D, CartesianPosition};
use crate::direction::Direction;
use crate::grid::GridData;

verus! {

/// `condition` can answer `true` on `d`
pub open spec fn holds<D, CO: FnMut(&D) -> bool>(condition: CO, d: D) -> bool {
    call_ensures(condition, (&d,), true)
}

/// `condition` can answer `false` on `d`
pub open spec fn refuses<D, CO: FnMut(&D) -> bool>(condition: CO, d: D) -> bool {
    call_ensures(condition, (&d,), false)
}

/// `condition` can be asked about any element and always gives the same answer for it
pub open spec fn condition_ok<D, CO: FnMut(&D) -> bool>(condition: CO) -> bool {
    &&& forall|d: D| #[trigger] call_requires(condition, (&d,))
    &&& forall|d: D, b: bool| #[trigger] call_ensures(condition, (&d,), b) ==> b == holds(condition, d)
}

/// `b` is `a` where some elements that satisfied `condition` were replaced
/// by elements that do not
pub open spec fn grows<D, CO: FnMut(&D) -> bool>(condition: CO, a: Seq<D>, b: Seq<D>) -> bool {
    &&& b.len() == a.len()
    &&& forall|i: int|
        0 <= i < a.len() ==> #[trigger] b[i] == a[i] || (holds(condition, a[i]) && !holds(
            condition,
            b[i],
        ))
}

/// Moving from `p` in direction `d` leaves the grid or lands on an element
/// that does not satisfy `condition`; if that element is still the one of
/// `orig`, `condition` was seen to answer `false` on it
pub open spec fn blocked<C: CoordinateSystem, D, CO: FnMut(&D) -> bool>(
    g: CartesianGrid<C>,
    condition: CO,
    orig: Seq<D>,
    cells: Seq<D>,
    p: CartesianPosition,
    d: Direction,
) -> bool {
    match g.next_pos(p, unit_delta(d)) {
        Some(q) => !holds(condition, cells[g.index_of(q)]) && (cells[g.index_of(q)] == orig[g.index_of(
            q,
        )] ==> refuses(condition, cells[g.index_of(q)])),
        None => true,
    }
}

/// Both vertical neighbours of `p` are blocked
pub open spec fn blocked_vertically<C: CoordinateSystem, D, CO: FnMut(&D) -> bool>(
    g: CartesianGrid<C>,
    condition: CO,
    orig: Seq<D>,
    cells: Seq<D>,
    p: CartesianPosition,
) -> bool {
    &&& blocked(g, condition, orig, cells, p, Direction::YForward)
    &&& blocked(g, condition, orig, cells, p, Direction::YBackward)
}

/// All four neighbours of `p` in the plane are blocked
pub open spec fn closed<C: CoordinateSystem, D, CO: FnMut(&D) -> bool>(
    g: CartesianGrid<C>,
    condition: CO,
    orig: Seq<D>,
    cells: Seq<D>,
    p: CartesianPosition,
) -> bool {
    &&& blocked_vertically(g, condition, orig, cells, p)
    &&& blocked(g, condition, orig, cells, p, Direction::XForward)
    &&& blocked(g, condition, orig, cells, p, Direction::XBackward)
}

/// The element at `p` satisfied `condition` in `before` and no longer does in `after`
pub open spec fn filled<C: CoordinateSystem, D, CO: FnMut(&D) -> bool>(
    g: CartesianGrid<C>,
    condition: CO,
    before: Seq<D>,
    after: Seq<D>,
    p: CartesianPosition,
) -> bool {
    holds(condition, before[g.index_of(p)]) && !holds(condition, after[g.index_of(p)])
}

/// `x` moved by `k` cells in the horizontal direction `d`, as an integer
pub open spec fn x_shifted(x: int, d: Direction, k: int) -> int {
    if d == Direction::XForward {
        x + k
    } else {
        x - k
    }
}

/// After `k` steps of a horizontal run in `d` from `start`, the run stands at `x`
pub open spec fn run_at<C: CoordinateSystem>(
    g: CartesianGrid<C>,
    start: CartesianPosition,
    d: Direction,
    k: int,
    x: int,
) -> bool {
    if g.loops_x() {
        x == x_shifted(start.x as int, d, k) % g.sx()
    } else {
        x == x_shifted(start.x as int, d, k)
    }
}

/// Every element filled since `orig` has its four neighbours blocked, or is queued
pub open spec fn fill_closed<C: CoordinateSystem, D, CO: FnMut(&D) -> bool>(
    g: CartesianGrid<C>,
    condition: CO,
    orig: Seq<D>,
    cells: Seq<D>,
    queue: Seq<CartesianPosition>,
) -> bool {
    forall|p: CartesianPosition|
        g.contains(p) && #[trigger] filled(g, condition, orig, cells, p) ==> closed(
            g,
            condition,
                orig,
            cells,
            p,
        ) || queue.contains(p)
}

/// Every element filled since `orig` has its four neighbours blocked, or is
/// queued, or is one of `a` and `b`
pub open spec fn fill_closed_except<C: CoordinateSystem, D, CO: FnMut(&D) -> bool>(
    g: CartesianGrid<C>,
    condition: CO,
    orig: Seq<D>,
    cells: Seq<D>,
    queue: Seq<CartesianPosition>,
    a: CartesianPosition,
    b: CartesianPosition,
) -> bool {
    forall|p: CartesianPosition|
        g.contains(p) && #[trigger] filled(g, condition, orig, cells, p) ==> closed(
            g,
            condition,
                orig,
            cells,
            p,
        ) || queue.contains(p) || p == a || p == b
}

/// Every queued position lies inside the grid and has been filled since `orig`
pub open spec fn queue_filled<C: CoordinateSystem, D, CO: FnMut(&D) -> bool>(
    g: CartesianGrid<C>,
    condition: CO,
    orig: Seq<D>,
    cells: Seq<D>,
    queue: Seq<CartesianPosition>,
) -> bool {
    forall|k: int|
        0 <= k < queue.len() ==> g.contains(#[trigger] queue[k]) && filled(
            g,
            condition,
            orig,
            cells,
            queue[k],
        )
}

/// `b` is one step away from `a` in the plane: X+, X-, Y+ or Y-
pub open spec fn step_to<C: CoordinateSystem>(
    g: CartesianGrid<C>,
    a: CartesianPosition,
    b: CartesianPosition,
) -> bool {
    ||| g.next_pos(a, unit_delta(Direction::XForward)) == Some(b)
    ||| g.next_pos(a, unit_delta(Direction::XBackward)) == Some(b)
    ||| g.next_pos(a, unit_delta(Direction::YForward)) == Some(b)
    ||| g.next_pos(a, unit_delta(Direction::YBackward)) == Some(b)
}

/// `condition` seen as a predicate: the elements on which it can answer `true`
pub open spec fn holds_pred<D, CO: FnMut(&D) -> bool>(condition: CO) -> spec_fn(D) -> bool {
    |d: D| holds(condition, d)
}

/// Every answer `condition` can give on an element is `sat` of that element
pub open spec fn agrees<D, CO: FnMut(&D) -> bool>(condition: CO, sat: spec_fn(D) -> bool) -> bool {
    forall|d: D, b: bool| #[trigger] call_ensures(condition, (&d,), b) ==> b == sat(d)
}

/// `path` is a walk of single steps through positions of `g` whose
/// elements in `cells` all satisfy `sat`
pub open spec fn is_path<C: CoordinateSystem, D>(
    g: CartesianGrid<C>,
    sat: spec_fn(D) -> bool,
    cells: Seq<D>,
    path: Seq<CartesianPosition>,
) -> bool {
    &&& path.len() > 0
    &&& forall|i: int|
        0 <= i < path.len() ==> g.contains(#[trigger] path[i]) && sat(cells[g.index_of(path[i])])
    &&& forall|i: int| 0 <= i < path.len() - 1 ==> step_to(g, #[trigger] path[i], path[i + 1])
}

/// `p` can be reached from `seed` by single steps through elements of
/// `cells` that satisfy `sat`
pub open spec fn reached<C: CoordinateSystem, D>(
    g: CartesianGrid<C>,
    sat: spec_fn(D) -> bool,
    cells: Seq<D>,
    seed: CartesianPosition,
    p: CartesianPosition,
) -> bool {
    exists|path: Seq<CartesianPosition>|
        #[trigger] is_path(g, sat, cells, path) && path[0] == seed && path.last() == p
}

/// Every element filled since `orig` can be reached from `seed` in `orig`
pub open spec fn all_reached<C: CoordinateSystem, D, CO: FnMut(&D) -> bool>(
    g: CartesianGrid<C>,
    condition: CO,
    orig: Seq<D>,
    cells: Seq<D>,
    seed: CartesianPosition,
) -> bool {
    forall|p: CartesianPosition|
        g.contains(p) && #[trigger] filled(g, condition, orig, cells, p) ==> reached(
            g,
            holds_pred(condition),
            orig,
            seed,
            p,
        )
}

/// The neighbour of `from` in direction `dir`, if it exists and `condition`
/// can answer `true` on its element in `cells`
pub open spec fn probe<C: CoordinateSystem, D, CO: FnMut(&D) -> bool>(
    g: CartesianGrid<C>,
    condition: CO,
    cells: Seq<D>,
    from: CartesianPosition,
    dir: Direction,
) -> Option<CartesianPosition> {
    match g.next_pos(from, unit_delta(dir)) {
        Some(q) => if holds(condition, cells[g.index_of(q)]) {
            Some(q)
        } else {
            None
        },
        None => None,
    }
}

/// The vertical neighbours of `from` that a vertical exploration fills, in
/// order: Y+ first, then Y- unless it is the cell just filled
pub open spec fn vertical_fills<C: CoordinateSystem, D, CO: FnMut(&D) -> bool>(
    g: CartesianGrid<C>,
    condition: CO,
    cells: Seq<D>,
    from: CartesianPosition,
) -> Seq<CartesianPosition> {
    let up = probe(g, condition, cells, from, Direction::YForward);
    let down = probe(g, condition, cells, from, Direction::YBackward);
    let up_fills = match up {
        Some(q) => seq![q],
        None => seq![],
    };
    let down_fills = match down {
        Some(q) => if up == Some(q) {
            seq![]
        } else {
            seq![q]
        },
        None => seq![],
    };
    up_fills + down_fills
}

/// Number of elements of `s` that satisfy `condition`
pub open spec fn count_holds<D, CO: FnMut(&D) -> bool>(condition: CO, s: Seq<D>) -> nat
    decreases s.len(),
{
    if s.len() == 0 {
        0
    } else {
        count_holds(condition, s.drop_last()) + if holds(condition, s.last()) {
            1nat
        } else {
            0nat
        }
    }
}

/// Replacing one satisfying element by a failing one lowers the count by one.
proof fn lemma_count_update<D, CO: FnMut(&D) -> bool>(condition: CO, s: Seq<D>, i: int, v: D)
    requires
        0 <= i < s.len(),
        holds(condition, s[i]),
        !holds(condition, v),
    ensures
        count_holds(condition, s.update(i, v)) + 1 == count_holds(condition, s),
    decreases s.len(),
{
    let t = s.update(i, v);
    if i == s.len() - 1 {
        assert(t.drop_last() =~= s.drop_last());
    } else {
        assert(t.drop_last() =~= s.drop_last().update(i, v));
        lemma_count_update(condition, s.drop_last(), i, v);
    }
}

/// Replacing one satisfying element by a failing one grows the fill.
proof fn lemma_grows_update<D, CO: FnMut(&D) -> bool>(condition: CO, a: Seq<D>, b: Seq<D>, i: int, v: D)
    requires
        grows(condition, a, b),
        0 <= i < b.len(),
        holds(condition, b[i]),
        !holds(condition, v),
    ensures
        grows(condition, a, b.update(i, v)),
        grows(condition, b, b.update(i, v)),
{
    let c = b.update(i, v);
    assert forall|j: int| 0 <= j < a.len() implies #[trigger] c[j] == a[j] || (holds(condition, a[j]) && !holds(condition, c[j])) by {
        if j != i {
            assert(c[j] == b[j]);
        }
    }
    assert forall|j: int| 0 <= j < b.len() implies #[trigger] c[j] == b[j] || (holds(condition, b[j]) && !holds(condition, c[j])) by {
    }
}

/// Growing the fill twice is growing it once.
proof fn lemma_grows_trans<D, CO: FnMut(&D) -> bool>(condition: CO, a: Seq<D>, b: Seq<D>, c: Seq<D>)
    requires
        grows(condition, a, b),
        grows(condition, b, c),
    ensures
        grows(condition, a, c),
{
    assert forall|i: int| 0 <= i < a.len() implies #[trigger] c[i] == a[i] || (holds(condition, a[i]) && !holds(condition, c[i])) by {
        assert(b[i] == a[i] || (holds(condition, a[i]) && !holds(condition, b[i])));
        assert(c[i] == b[i] || (holds(condition, b[i]) && !holds(condition, c[i])));
    }
}

/// Blocked neighbours stay blocked as the fill grows.
proof fn lemma_blocked_stays<C: CoordinateSystem, D, CO: FnMut(&D) -> bool>(
    g: CartesianGrid<C>,
    condition: CO,
    orig: Seq<D>,
    a: Seq<D>,
    b: Seq<D>,
)
    requires
        grows(condition, a, b),
        a.len() == g.total(),
        g.total() <= u32::MAX,
    ensures
        forall|p: CartesianPosition, d: Direction|
            g.contains(p) && blocked(g, condition, orig, a, p, d) ==> #[trigger] blocked(
                g,
                condition,
                orig,
                b,
                p,
                d,
            ),
{
    assert forall|p: CartesianPosition, d: Direction|
        g.contains(p) && blocked(g, condition, orig, a, p, d) implies #[trigger] blocked(g, condition, orig, b, p, d) by {
        if let Some(q) = g.next_pos(p, unit_delta(d)) {
            lemma_unit_move_inside(g, p, d);
            lemma_index_in_bounds(g, q);
            let i = g.index_of(q);
            assert(b[i] == a[i] || (holds(condition, a[i]) && !holds(condition, b[i])));
        }
    }
}

/// What is in a queue is still there once more is pushed behind it.
proof fn lemma_prefix_contains<T>(a: Seq<T>, b: Seq<T>)
    requires
        a.len() <= b.len(),
        b.subrange(0, a.len() as int) == a,
    ensures
        forall|x: T| a.contains(x) ==> #[trigger] b.contains(x),
{
    assert forall|x: T| a.contains(x) implies #[trigger] b.contains(x) by {
        let j = choose|j: int| 0 <= j < a.len() && a[j] == x;
        assert(b[j] == b.subrange(0, a.len() as int)[j]);
    }
}

/// Wrapping a coordinate down by one on a looping axis of `m` cells.
proof fn lemma_wrap_down(b: int, m: int)
    requires
        m > 0,
    ensures
        (if b % m == 0 { m - 1 } else { b % m - 1 }) == (b - 1) % m,
{
    let q = b / m;
    let r = b % m;
    vstd::arithmetic::div_mod::lemma_fundamental_div_mod(b, m);
    if r == 0 {
        assert(b - 1 == (q - 1) * m + (m - 1)) by (nonlinear_arith)
            requires
                b == m * q + r,
                r == 0,
        ;
        lemma_fundamental_div_mod_converse(b - 1, m, q - 1, m - 1);
    } else {
        assert(b - 1 == q * m + (r - 1)) by (nonlinear_arith)
            requires
                b == m * q + r,
        ;
        lemma_fundamental_div_mod_converse(b - 1, m, q, r - 1);
    }
}

/// Wrapping a coordinate up by one on a looping axis of `m` cells.
proof fn lemma_wrap_up(b: int, m: int)
    requires
        m > 0,
    ensures
        (if b % m == m - 1 { 0 } else { b % m + 1 }) == (b + 1) % m,
{
    let q = b / m;
    let r = b % m;
    vstd::arithmetic::div_mod::lemma_fundamental_div_mod(b, m);
    if r == m - 1 {
        assert(b + 1 == (q + 1) * m + 0) by (nonlinear_arith)
            requires
                b == m * q + r,
                r == m - 1,
        ;
        lemma_fundamental_div_mod_converse(b + 1, m, q + 1, 0);
    } else {
        assert(b + 1 == q * m + (r + 1)) by (nonlinear_arith)
            requires
                b == m * q + r,
        ;
        lemma_fundamental_div_mod_converse(b + 1, m, q, r + 1);
    }
}

/// A full turn around a looping axis of `m` cells comes back to the start.
proof fn lemma_full_turn(x: int, m: int)
    requires
        0 <= x < m,
    ensures
        (x - m) % m == x,
        (x + m) % m == x,
        x % m == x,
{
    lemma_fundamental_div_mod_converse(x - m, m, -1, x);
    lemma_fundamental_div_mod_converse(x + m, m, 1, x);
    lemma_fundamental_div_mod_converse(x, m, 0, x);
}

/// Moving X- then X+ (or X+ then X-) inside the grid comes back to the start.
proof fn lemma_x_moves_undo<C: CoordinateSystem>(g: CartesianGrid<C>, a: CartesianPosition)
    requires
        g.contains(a),
    ensures
        g.next_pos(a, unit_delta(Direction::XBackward)) matches Some(b) ==> g.next_pos(
            b,
            unit_delta(Direction::XForward),
        ) == Some(a),
        g.next_pos(a, unit_delta(Direction::XForward)) matches Some(b) ==> g.next_pos(
            b,
            unit_delta(Direction::XBackward),
        ) == Some(a),
{
}

/// A run that stops at `x_pos` leaves `pos` blocked in its direction, and
/// `x_pos` closed unless it is `pos`.
proof fn lemma_run_stop<C: CoordinateSystem, D, CO: FnMut(&D) -> bool>(
    g: CartesianGrid<C>,
    cond: CO,
    orig: Seq<D>,
    cells: Seq<D>,
    queue: Seq<CartesianPosition>,
    pos: CartesianPosition,
    x_pos: CartesianPosition,
    dir: Direction,
    k: int,
)
    requires
        dir == Direction::XForward || dir == Direction::XBackward,
        k == 0 ==> x_pos == pos,
        blocked_vertically(g, cond, orig, cells, x_pos),
        k > 0 ==> blocked(g, cond, orig, cells, x_pos, dir.opposite_of()),
        k > 0 ==> blocked(g, cond, orig, cells, pos, dir),
        blocked(g, cond, orig, cells, x_pos, dir),
        fill_closed_except(g, cond, orig, cells, queue, pos, x_pos),
        k >= 0,
    ensures
        blocked(g, cond, orig, cells, pos, dir),
        fill_closed_except(g, cond, orig, cells, queue, pos, pos),
{
    if k > 0 {
        assert(closed(g, cond, orig, cells, x_pos));
    }
}

/// One successful step of a horizontal run keeps the run's invariant.
proof fn lemma_run_step<C: CoordinateSystem, D, CO: FnMut(&D) -> bool>(
    g: CartesianGrid<C>,
    cond: CO,
    orig: Seq<D>,
    start: Seq<D>,
    c1: Seq<D>,
    c2: Seq<D>,
    c3: Seq<D>,
    qa: Seq<CartesianPosition>,
    qb: Seq<CartesianPosition>,
    pos: CartesianPosition,
    x_pos: CartesianPosition,
    nq: CartesianPosition,
    dir: Direction,
    k: int,
)
    requires
        g.wf(),
        g.total() <= u32::MAX,
        orig.len() == g.total(),
        dir == Direction::XForward || dir == Direction::XBackward,
        grows(cond, orig, c1),
        grows(cond, start, c1),
        g.contains(pos),
        g.contains(x_pos),
        filled(g, cond, orig, c1, pos),
        filled(g, cond, orig, c1, x_pos),
        x_pos.y == pos.y,
        x_pos.z == pos.z,
        0 <= k < g.sx(),
        k == 0 ==> x_pos == pos,
        run_at(g, pos, dir, k, x_pos.x as int),
        blocked_vertically(g, cond, orig, c1, x_pos),
        blocked_vertically(g, cond, orig, c1, pos),
        k > 0 ==> blocked(g, cond, orig, c1, x_pos, dir.opposite_of()),
        k > 0 ==> blocked(g, cond, orig, c1, pos, dir),
        queue_filled(g, cond, orig, c1, qa),
        fill_closed_except(g, cond, orig, c1, qa, pos, x_pos),
        g.next_pos(x_pos, unit_delta(dir)) == Some(nq),
        holds(cond, c1[g.index_of(nq)]),
        c2 == c1.update(g.index_of(nq), c2[g.index_of(nq)]),
        !holds(cond, c2[g.index_of(nq)]),
        grows(cond, c2, c3),
        grows(cond, orig, c3),
        blocked_vertically(g, cond, orig, c3, nq),
        qb.len() >= qa.len(),
        qb.subrange(0, qa.len() as int) == qa,
        forall|j: int|
            qa.len() <= j < qb.len() ==> g.contains(#[trigger] qb[j]) && filled(g, cond, orig, c3, qb[j]),
        forall|p: CartesianPosition|
            g.contains(p) && #[trigger] filled(g, cond, orig, c3, p) ==> filled(g, cond, orig, c2, p)
                || qb.contains(p),
        count_holds(cond, c3) + qb.len() == count_holds(cond, c2) + qa.len(),
    ensures
        k + 1 < g.sx(),
        grows(cond, orig, c3),
        grows(cond, start, c3),
        g.contains(nq),
        filled(g, cond, orig, c3, pos),
        filled(g, cond, orig, c3, nq),
        nq.y == pos.y,
        nq.z == pos.z,
        run_at(g, pos, dir, k + 1, nq.x as int),
        blocked_vertically(g, cond, orig, c3, nq),
        blocked_vertically(g, cond, orig, c3, pos),
        blocked(g, cond, orig, c3, nq, dir.opposite_of()),
        blocked(g, cond, orig, c3, pos, dir),
        queue_filled(g, cond, orig, c3, qb),
        fill_closed_except(g, cond, orig, c3, qb, pos, nq),
        count_holds(cond, c3) + qb.len() + 1 == count_holds(cond, c1) + qa.len(),
        count_holds(cond, c3) < count_holds(cond, c1),
{
    let i = g.index_of(nq);
    lemma_unit_move_inside(g, x_pos, dir);
    lemma_index_in_bounds(g, nq);
    lemma_count_update(cond, c1, i, c2[i]);
    lemma_grows_update(cond, orig, c1, i, c2[i]);
    lemma_grows_update(cond, start, c1, i, c2[i]);
    lemma_grows_trans(cond, c1, c2, c3);
    lemma_grows_trans(cond, start, c2, c3);
    lemma_blocked_stays(g, cond, orig, c1, c3);
    lemma_prefix_contains(qa, qb);
    crate::cartesian_grid::lemma_pos_index_pos(g, nq);
    // the element just filled stays filled
    assert(c1[i] == orig[i] || (holds(cond, orig[i]) && !holds(cond, c1[i])));
    assert(c3[i] == c2[i] || (holds(cond, c2[i]) && !holds(cond, c3[i])));
    // positions along the run
    let m = g.sx();
    if g.loops_x() {
        if dir == Direction::XBackward {
            lemma_wrap_down(x_shifted(pos.x as int, dir, k), m);
        } else {
            lemma_wrap_up(x_shifted(pos.x as int, dir, k), m);
        }
        assert(nq.x == x_shifted(pos.x as int, dir, k + 1) % m);
        if k + 1 == m {
            lemma_full_turn(pos.x as int, m);
            assert(nq == pos);
            assert(false);
        }
    }
    // the start stays filled
    let t0 = g.index_of(pos);
    lemma_index_in_bounds(g, pos);
    crate::cartesian_grid::lemma_pos_index_pos(g, pos);
    assert(t0 != i);
    assert(c2[t0] == c1[t0]);
    assert(c3[t0] == c2[t0] || (holds(cond, c2[t0]) && !holds(cond, c3[t0])));
    // the run's previous position is closed, or is the start
    lemma_x_moves_undo(g, x_pos);
    assert(blocked(g, cond, orig, c3, x_pos, dir));
    assert(blocked(g, cond, orig, c3, nq, dir.opposite_of()));
    if k > 0 {
        assert(closed(g, cond, orig, c3, x_pos));
    }
    // the queue stays filled
    assert forall|j: int| 0 <= j < qb.len() implies g.contains(#[trigger] qb[j]) && filled(
        g,
        cond,
        orig,
        c3,
        qb[j],
    ) by {
        if j < qa.len() {
            assert(qb[j] == qb.subrange(0, qa.len() as int)[j]);
            lemma_index_in_bounds(g, qa[j]);
            let t = g.index_of(qa[j]);
            assert(c3[t] == c1[t] || (holds(cond, c1[t]) && !holds(cond, c3[t])));
        }
    }
    // every filled element is closed, queued, the start or the new position
    assert forall|p: CartesianPosition|
        g.contains(p) && #[trigger] filled(g, cond, orig, c3, p) implies closed(g, cond, orig, c3, p)
        || qb.contains(p) || p == pos || p == nq by {
        lemma_index_in_bounds(g, p);
        let t = g.index_of(p);
        assert(c3[t] == c1[t] || (holds(cond, c1[t]) && !holds(cond, c3[t])));
        assert(c1[t] == orig[t] || (holds(cond, orig[t]) && !holds(cond, c1[t])));
        if p != nq {
            crate::cartesian_grid::lemma_pos_index_pos(g, p);
            assert(t != i);
            assert(c2[t] == c1[t]);
            if filled(g, cond, orig, c1, p) {
                if closed(g, cond, orig, c1, p) {
                    assert(closed(g, cond, orig, c3, p));
                }
            }
        }
    }
}

/// A filled element stays filled as the fill grows.
proof fn lemma_filled_stays<C: CoordinateSystem, D, CO: FnMut(&D) -> bool>(
    g: CartesianGrid<C>,
    cond: CO,
    orig: Seq<D>,
    a: Seq<D>,
    b: Seq<D>,
    p: CartesianPosition,
)
    requires
        g.total() <= u32::MAX,
        a.len() == g.total(),
        g.contains(p),
        grows(cond, a, b),
        filled(g, cond, orig, a, p),
    ensures
        filled(g, cond, orig, b, p),
{
    lemma_index_in_bounds(g, p);
    let i = g.index_of(p);
    assert(b[i] == a[i] || (holds(cond, a[i]) && !holds(cond, b[i])));
}

/// Taking `pos` off the queue and exploring its vertical neighbours leaves
/// the fill ready for the horizontal runs from `pos`.
proof fn lemma_after_vertical<C: CoordinateSystem, D, CO: FnMut(&D) -> bool>(
    g: CartesianGrid<C>,
    cond: CO,
    orig: Seq<D>,
    c0: Seq<D>,
    c1: Seq<D>,
    q0: Seq<CartesianPosition>,
    qp: Seq<CartesianPosition>,
    q1: Seq<CartesianPosition>,
    pos: CartesianPosition,
)
    requires
        g.wf(),
        g.total() <= u32::MAX,
        orig.len() == g.total(),
        c0.len() == g.total(),
        q0.len() > 0,
        q0[0] == pos,
        qp.len() == q0.len() - 1,
        forall|j: int| 0 <= j < qp.len() ==> qp[j] == q0[j + 1],
        grows(cond, orig, c0),
        queue_filled(g, cond, orig, c0, q0),
        fill_closed(g, cond, orig, c0, q0),
        grows(cond, c0, c1),
        grows(cond, orig, c1),
        q1.len() >= qp.len(),
        q1.subrange(0, qp.len() as int) == qp,
        forall|k: int|
            qp.len() <= k < q1.len() ==> g.contains(#[trigger] q1[k]) && filled(g, cond, orig, c1, q1[k]),
        forall|p: CartesianPosition|
            g.contains(p) && #[trigger] filled(g, cond, orig, c1, p) ==> filled(g, cond, orig, c0, p)
                || q1.contains(p),
    ensures
        g.contains(pos),
        filled(g, cond, orig, c1, pos),
        queue_filled(g, cond, orig, c1, q1),
        fill_closed_except(g, cond, orig, c1, q1, pos, pos),
{
    lemma_blocked_stays(g, cond, orig, c0, c1);
    lemma_prefix_contains(qp, q1);
    assert(g.contains(q0[0]) && filled(g, cond, orig, c0, q0[0]));
    lemma_filled_stays(g, cond, orig, c0, c1, pos);
    assert forall|j: int| 0 <= j < q1.len() implies g.contains(#[trigger] q1[j]) && filled(
        g,
        cond,
        orig,
        c1,
        q1[j],
    ) by {
        if j < qp.len() {
            assert(q1[j] == q1.subrange(0, qp.len() as int)[j]);
            assert(qp[j] == q0[j + 1]);
            assert(g.contains(q0[j + 1]) && filled(g, cond, orig, c0, q0[j + 1]));
            lemma_filled_stays(g, cond, orig, c0, c1, qp[j]);
        }
    }
    assert forall|p: CartesianPosition|
        g.contains(p) && #[trigger] filled(g, cond, orig, c1, p) implies closed(g, cond, orig, c1, p)
        || q1.contains(p) || p == pos || p == pos by {
        if filled(g, cond, orig, c0, p) && !q1.contains(p) && p != pos {
            if q0.contains(p) {
                let j = choose|j: int| 0 <= j < q0.len() && q0[j] == p;
                assert(j > 0);
                assert(qp[j - 1] == p);
                assert(qp.contains(p));
            }
            assert(closed(g, cond, orig, c0, p));
        }
    }
}

/// A reached position extends to its neighbours that satisfy the condition.
proof fn lemma_reach_extend<C: CoordinateSystem, D, CO: FnMut(&D) -> bool>(
    g: CartesianGrid<C>,
    cond: CO,
    orig: Seq<D>,
    seed: CartesianPosition,
    a: CartesianPosition,
    b: CartesianPosition,
)
    requires
        reached(g, holds_pred(cond), orig, seed, a),
        step_to(g, a, b),
        g.contains(b),
        holds(cond, orig[g.index_of(b)]),
    ensures
        reached(g, holds_pred(cond), orig, seed, b),
{
    let path = choose|path: Seq<CartesianPosition>|
        #[trigger] is_path(g, holds_pred(cond), orig, path) && path[0] == seed && path.last() == a;
    let path2 = path.push(b);
    assert forall|i: int| 0 <= i < path2.len() - 1 implies step_to(g, #[trigger] path2[i], path2[i + 1]) by {
        if i < path.len() - 1 {
            assert(path2[i] == path[i] && path2[i + 1] == path[i + 1]);
        }
    }
    assert forall|i: int| 0 <= i < path2.len() implies g.contains(#[trigger] path2[i]) && holds(
        cond,
        orig[g.index_of(path2[i])],
    ) by {
        if i < path.len() {
            assert(path2[i] == path[i]);
        }
    }
    assert(is_path(g, holds_pred(cond), orig, path2));
}

/// Filling a neighbour of a filled element keeps every filled element reachable.
proof fn lemma_all_reached_update<C: CoordinateSystem, D, CO: FnMut(&D) -> bool>(
    g: CartesianGrid<C>,
    cond: CO,
    orig: Seq<D>,
    cells: Seq<D>,
    seed: CartesianPosition,
    a: CartesianPosition,
    b: CartesianPosition,
    v: D,
)
    requires
        g.total() <= u32::MAX,
        orig.len() == g.total(),
        grows(cond, orig, cells),
        all_reached(g, cond, orig, cells, seed),
        g.contains(a),
        filled(g, cond, orig, cells, a),
        step_to(g, a, b),
        g.contains(b),
        holds(cond, cells[g.index_of(b)]),
    ensures
        all_reached(g, cond, orig, cells.update(g.index_of(b), v), seed),
{
    lemma_index_in_bounds(g, b);
    let i = g.index_of(b);
    assert(cells[i] == orig[i] || (holds(cond, orig[i]) && !holds(cond, cells[i])));
    lemma_reach_extend(g, cond, orig, seed, a, b);
    let c2 = cells.update(i, v);
    assert forall|p: CartesianPosition|
        g.contains(p) && #[trigger] filled(g, cond, orig, c2, p) implies reached(g, holds_pred(cond), orig, seed, p) by {
        if p != b {
            crate::cartesian_grid::lemma_pos_index_pos(g, p);
            crate::cartesian_grid::lemma_pos_index_pos(g, b);
            lemma_index_in_bounds(g, p);
            assert(g.index_of(p) != i);
            assert(filled(g, cond, orig, cells, p));
        }
    }
}

/// Once every filled element is closed, every position reachable from a
/// filled seed through elements satisfying a predicate the condition agrees
/// with is filled.
proof fn lemma_component_filled<C: CoordinateSystem, D, CO: FnMut(&D) -> bool>(
    g: CartesianGrid<C>,
    cond: CO,
    sat: spec_fn(D) -> bool,
    orig: Seq<D>,
    cells: Seq<D>,
    seed: CartesianPosition,
    path: Seq<CartesianPosition>,
)
    requires
        g.total() <= u32::MAX,
        orig.len() == g.total(),
        agrees(cond, sat),
        grows(cond, orig, cells),
        g.contains(seed),
        filled(g, cond, orig, cells, seed),
        fill_closed(g, cond, orig, cells, seq![]),
        is_path(g, sat, orig, path),
        path[0] == seed,
    ensures
        filled(g, cond, orig, cells, path.last()),
    decreases path.len(),
{
    if path.len() > 1 {
        let prefix = path.drop_last();
        assert forall|i: int| 0 <= i < prefix.len() - 1 implies step_to(g, #[trigger] prefix[i], prefix[i + 1]) by {
            assert(prefix[i] == path[i] && prefix[i + 1] == path[i + 1]);
        }
        assert forall|i: int| 0 <= i < prefix.len() implies g.contains(#[trigger] prefix[i]) && sat(
            orig[g.index_of(prefix[i])],
        ) by {
            assert(prefix[i] == path[i]);
        }
        lemma_component_filled(g, cond, sat, orig, cells, seed, prefix);
        let a = prefix.last();
        let b = path.last();
        assert(a == path[path.len() - 2]);
        assert(step_to(g, path[path.len() - 2], path[path.len() - 1]));
        assert(g.contains(a));
        assert(!seq![].contains(a));
        assert(closed(g, cond, orig, cells, a));
        assert(g.contains(path[path.len() - 1]));
        lemma_index_in_bounds(g, b);
        let i = g.index_of(b);
        assert(sat(orig[i]));
        assert(cells[i] == orig[i] || (holds(cond, orig[i]) && !holds(cond, cells[i])));
        if cells[i] == orig[i] {
            assert(refuses(cond, orig[i]));
            assert(call_ensures(cond, (&orig[i],), false));
        }
    }
}

/// What the condition can answer `true` on satisfies every predicate it agrees
/// with, so a path through such elements is a path for that predicate.
proof fn lemma_reached_agrees<C: CoordinateSystem, D, CO: FnMut(&D) -> bool>(
    g: CartesianGrid<C>,
    cond: CO,
    sat: spec_fn(D) -> bool,
    orig: Seq<D>,
    seed: CartesianPosition,
    p: CartesianPosition,
)
    requires
        agrees(cond, sat),
        reached(g, holds_pred(cond), orig, seed, p),
    ensures
        reached(g, sat, orig, seed, p),
{
    let path = choose|path: Seq<CartesianPosition>|
        #[trigger] is_path(g, holds_pred(cond), orig, path) && path[0] == seed && path.last() == p;
    assert forall|i: int| 0 <= i < path.len() implies g.contains(#[trigger] path[i]) && sat(
        orig[g.index_of(path[i])],
    ) by {
        assert(holds(cond, orig[g.index_of(path[i])]));
        assert(call_ensures(cond, (&orig[g.index_of(path[i])],), true));
    }
    assert(is_path(g, sat, orig, path));
}

impl<D> GridData<Cartesian2D, D> {
    /// Fills the neighbour of `from` in `direction` and queues it, if it
    /// exists and satisfies `condition`.
    fn explore_neighbour<CO: FnMut(&D) -> bool, AC: FnMut(&mut D)>(
        &mut self,
        queue: &mut VecDeque<CartesianPosition>,
        from: &CartesianPosition,
        direction: Direction,
        condition: &mut CO,
        action: &mut AC,
        Ghost(orig): Ghost<Seq<D>>,
        Ghost(seed): Ghost<CartesianPosition>,
    )
        requires
            old(self).wf(),
            old(self).spec_grid().contains(*from),
            old(self).spec_grid().has_direction(direction),
            condition_ok(*old(condition)),
            forall|d: &mut D| #[trigger] call_requires(*old(action), (d,)),
            forall|d: &mut D|
                #[trigger] call_ensures(*old(action), (d,), ()) ==> !holds(*old(condition), *final(d)),
            grows(*old(condition), orig, old(self).cells()),
            orig.len() == old(self).cells().len(),
            filled(old(self).spec_grid(), *old(condition), orig, old(self).cells(), *from),
            all_reached(old(self).spec_grid(), *old(condition), orig, old(self).cells(), seed),
            forall|i: int|
                0 <= i < old(self).cells().len() && #[trigger] old(self).cells()[i] != orig[i] ==> exists|r: &mut D|
                    *r == orig[i] && *final(r) == old(self).cells()[i] && call_ensures(*old(action), (r,), ()),
        ensures
            *final(condition) == *old(condition),
            *final(action) == *old(action),
            final(self).wf(),
            final(self).spec_grid() == old(self).spec_grid(),
            grows(*old(condition), old(self).cells(), final(self).cells()),
            grows(*old(condition), orig, final(self).cells()),
            all_reached(old(self).spec_grid(), *old(condition), orig, final(self).cells(), seed),
            forall|i: int|
                0 <= i < final(self).cells().len() && #[trigger] final(self).cells()[i] != orig[i] ==> exists|r: &mut D|
                    *r == orig[i] && *final(r) == final(self).cells()[i] && call_ensures(*old(action), (r,), ()),
            blocked(old(self).spec_grid(), *old(condition), orig, final(self).cells(), *from, direction),
            probe(old(self).spec_grid(), *old(condition), old(self).cells(), *from, direction) matches Some(
                q,
            ) ==> {
                &&& final(queue)@ == old(queue)@.push(q)
                &&& final(self).cells() == old(self).cells().update(
                    old(self).spec_grid().index_of(q),
                    final(self).cells()[old(self).spec_grid().index_of(q)],
                )
                &&& exists|r: &mut D|
                    *r == old(self).cells()[old(self).spec_grid().index_of(q)]
                        && *final(r) == final(self).cells()[old(self).spec_grid().index_of(q)]
                        && #[trigger] call_ensures(*old(action), (r,), ())
            },
            probe(old(self).spec_grid(), *old(condition), old(self).cells(), *from, direction) is None
                ==> final(queue)@ == old(queue)@ && final(self).cells() == old(self).cells(),
            final(queue)@.len() >= old(queue)@.len(),
            final(queue)@.subrange(0, old(queue)@.len() as int) == old(queue)@,
            forall|k: int|
                old(queue)@.len() <= k < final(queue)@.len() ==> old(self).spec_grid().contains(
                    #[trigger] final(queue)@[k],
                ) && filled(
                    old(self).spec_grid(),
                    *old(condition),
                    orig,
                    final(self).cells(),
                    final(queue)@[k],
                ),
            forall|p: CartesianPosition|
                old(self).spec_grid().contains(p) && #[trigger] filled(
                    old(self).spec_grid(),
                    *old(condition),
                    orig,
                    final(self).cells(),
                    p,
                ) ==> filled(old(self).spec_grid(), *old(condition), orig, old(self).cells(), p)
                    || final(queue)@.contains(p),
            count_holds(*old(condition), final(self).cells()) + final(queue)@.len() == count_holds(
                *old(condition),
                old(self).cells(),
            ) + old(queue)@.len(),
    {
        let ghost g = self.grid;
        let ghost cond = *condition;
        let ghost before = self.data@;
        proof {
            lemma_unit_move_inside(g, *from, direction);
        }
        if let Some(next_pos) = self.grid().get_next_pos_in_direction(from, direction) {
            proof {
                lemma_index_in_bounds(g, next_pos);
            }
            let node_data = self.get_mut_from_pos(&next_pos);
            if condition(node_data) {
                action(node_data);
                queue.push_back(next_pos);
                proof {
                    let i = g.index_of(next_pos);
                    lemma_all_reached_update(g, cond, orig, before, seed, *from, next_pos, self.data@[i]);
                    lemma_count_update(cond, before, i, self.data@[i]);
                    lemma_grows_update(cond, orig, before, i, self.data@[i]);
                    assert(self.data@ == before.update(i, self.data@[i]));
                    assert(queue@[queue@.len() - 1] == next_pos);
                    assert forall|p: CartesianPosition|
                        g.contains(p) && #[trigger] filled(g, cond, orig, self.data@, p) implies filled(
                        g,
                        cond,
                        orig,
                        before,
                        p,
                    ) || queue@.contains(p) by {
                        if p != next_pos {
                            crate::cartesian_grid::lemma_pos_index_pos(g, p);
                            lemma_index_in_bounds(g, p);
                            crate::cartesian_grid::lemma_pos_index_pos(g, next_pos);
                            assert(g.index_of(p) != i);
                            assert(self.data@[g.index_of(p)] == before[g.index_of(p)]);
                        } else {
                            assert(queue@[queue@.len() - 1] == p);
                        }
                    }
                }
            } else {
                proof {
                    assert(self.data@ =~= before);
                }
            }
        } else {
            proof {
                assert(queue@.subrange(0, queue@.len() as int) =~= queue@);
            }
        }
    }

    /// Fills and queues the vertical neighbours of `from` that satisfy `condition`.
    fn explore_vertical<CO: FnMut(&D) -> bool, AC: FnMut(&mut D)>(
        &mut self,
        queue: &mut VecDeque<CartesianPosition>,
        from: &CartesianPosition,
        condition: &mut CO,
        action: &mut AC,
        Ghost(orig): Ghost<Seq<D>>,
        Ghost(seed): Ghost<CartesianPosition>,
    )
        requires
            old(self).wf(),
            old(self).spec_grid().contains(*from),
            condition_ok(*old(condition)),
            forall|d: &mut D| #[trigger] call_requires(*old(action), (d,)),
            forall|d: &mut D|
                #[trigger] call_ensures(*old(action), (d,), ()) ==> !holds(*old(condition), *final(d)),
            grows(*old(condition), orig, old(self).cells()),
            orig.len() == old(self).cells().len(),
            filled(old(self).spec_grid(), *old(condition), orig, old(self).cells(), *from),
            all_reached(old(self).spec_grid(), *old(condition), orig, old(self).cells(), seed),
            forall|i: int|
                0 <= i < old(self).cells().len() && #[trigger] old(self).cells()[i] != orig[i] ==> exists|r: &mut D|
                    *r == orig[i] && *final(r) == old(self).cells()[i] && call_ensures(*old(action), (r,), ()),
        ensures
            *final(condition) == *old(condition),
            *final(action) == *old(action),
            final(self).wf(),
            final(self).spec_grid() == old(self).spec_grid(),
            grows(*old(condition), old(self).cells(), final(self).cells()),
            grows(*old(condition), orig, final(self).cells()),
            all_reached(old(self).spec_grid(), *old(condition), orig, final(self).cells(), seed),
            forall|i: int|
                0 <= i < final(self).cells().len() && #[trigger] final(self).cells()[i] != orig[i] ==> exists|r: &mut D|
                    *r == orig[i] && *final(r) == final(self).cells()[i] && call_ensures(*old(action), (r,), ()),
            blocked_vertically(old(self).spec_grid(), *old(condition), orig, final(self).cells(), *from),
            final(queue)@ == old(queue)@ + vertical_fills(
                old(self).spec_grid(),
                *old(condition),
                old(self).cells(),
                *from,
            ),
            forall|i: int|
                0 <= i < old(self).cells().len() ==> #[trigger] final(self).cells()[i] == old(
                    self,
                ).cells()[i] || exists|k: int|
                    0 <= k < vertical_fills(
                        old(self).spec_grid(),
                        *old(condition),
                        old(self).cells(),
                        *from,
                    ).len() && old(self).spec_grid().index_of(
                        #[trigger] vertical_fills(
                            old(self).spec_grid(),
                            *old(condition),
                            old(self).cells(),
                            *from,
                        )[k],
                    ) == i,
            forall|k: int|
                0 <= k < vertical_fills(old(self).spec_grid(), *old(condition), old(self).cells(), *from).len()
                    ==> exists|r: &mut D|
                    *r == old(self).cells()[old(self).spec_grid().index_of(
                        #[trigger] vertical_fills(old(self).spec_grid(), *old(condition), old(self).cells(), *from)[k],
                    )]
                        && *final(r) == final(self).cells()[old(self).spec_grid().index_of(
                        vertical_fills(old(self).spec_grid(), *old(condition), old(self).cells(), *from)[k],
                    )] && call_ensures(*old(action), (r,), ()),
            final(queue)@.len() >= old(queue)@.len(),
            final(queue)@.subrange(0, old(queue)@.len() as int) == old(queue)@,
            forall|k: int|
                old(queue)@.len() <= k < final(queue)@.len() ==> old(self).spec_grid().contains(
                    #[trigger] final(queue)@[k],
                ) && filled(
                    old(self).spec_grid(),
                    *old(condition),
                    orig,
                    final(self).cells(),
                    final(queue)@[k],
                ),
            forall|p: CartesianPosition|
                old(self).spec_grid().contains(p) && #[trigger] filled(
                    old(self).spec_grid(),
                    *old(condition),
                    orig,
                    final(self).cells(),
                    p,
                ) ==> filled(old(self).spec_grid(), *old(condition), orig, old(self).cells(), p)
                    || final(queue)@.contains(p),
            count_holds(*old(condition), final(self).cells()) + final(queue)@.len() == count_holds(
                *old(condition),
                old(self).cells(),
            ) + old(queue)@.len(),
    {
        let ghost g = self.grid;
        let ghost cond = *condition;
        let ghost act = *action;
        let ghost c0 = self.data@;
        let ghost q0 = queue@;
        self.explore_neighbour(queue, from, Direction::YForward, condition, action, Ghost(orig), Ghost(seed));
        let ghost c1 = self.data@;
        let ghost q1 = queue@;
        proof {
            lemma_filled_stays(g, cond, orig, c0, c1, *from);
        }
        self.explore_neighbour(queue, from, Direction::YBackward, condition, action, Ghost(orig), Ghost(seed));
        proof {
            let c2 = self.data@;
            let q2 = queue@;
            let fills = vertical_fills(g, cond, c0, *from);
            let up = probe(g, cond, c0, *from, Direction::YForward);
            let down0 = probe(g, cond, c0, *from, Direction::YBackward);
            let down1 = probe(g, cond, c1, *from, Direction::YBackward);
            lemma_unit_move_inside(g, *from, Direction::YForward);
            lemma_unit_move_inside(g, *from, Direction::YBackward);
            if let Some(qd) = g.next_pos(*from, unit_delta(Direction::YBackward)) {
                lemma_index_in_bounds(g, qd);
                let id = g.index_of(qd);
                if let Some(qu) = up {
                    lemma_index_in_bounds(g, qu);
                    if qu == qd {
                        assert(!holds(cond, c1[id]));
                        assert(down1 is None);
                    } else {
                        crate::cartesian_grid::lemma_pos_index_pos(g, qu);
                        crate::cartesian_grid::lemma_pos_index_pos(g, qd);
                        assert(g.index_of(qu) != id);
                        assert(c1[id] == c0[id]);
                        assert(down1 == down0);
                    }
                } else {
                    assert(c1 == c0);
                    assert(down1 == down0);
                }
            } else {
                assert(down1 is None && down0 is None);
            }
            assert(q2 =~= q0 + fills);
            assert forall|k: int| 0 <= k < fills.len() implies exists|r: &mut D|
                *r == c0[g.index_of(#[trigger] fills[k])] && *final(r) == c2[g.index_of(fills[k])]
                    && call_ensures(act, (r,), ()) by {
                if let Some(qu) = up {
                    if k == 0 {
                        lemma_index_in_bounds(g, qu);
                        if let Some(qd) = down1 {
                            lemma_index_in_bounds(g, qd);
                            crate::cartesian_grid::lemma_pos_index_pos(g, qu);
                            crate::cartesian_grid::lemma_pos_index_pos(g, qd);
                            assert(g.index_of(qu) != g.index_of(qd));
                        }
                        assert(c2[g.index_of(qu)] == c1[g.index_of(qu)]);
                    }
                }
            }
            assert forall|i: int| 0 <= i < c0.len() implies #[trigger] c2[i] == c0[i] || exists|k: int|
                0 <= k < fills.len() && g.index_of(#[trigger] fills[k]) == i by {
                if c2[i] != c0[i] {
                    if c1[i] != c0[i] {
                        assert(up is Some);
                        let qu = up->0;
                        lemma_index_in_bounds(g, qu);
                        assert(c1 == c0.update(g.index_of(qu), c1[g.index_of(qu)]));
                        assert(i == g.index_of(qu));
                        assert(fills[0] == qu);
                        assert(0 <= 0 < fills.len() && g.index_of(fills[0]) == i);
                    } else {
                        assert(c2[i] != c1[i]);
                        assert(down1 is Some);
                        let qd = down1->0;
                        lemma_index_in_bounds(g, qd);
                        assert(c2 == c1.update(g.index_of(qd), c2[g.index_of(qd)]));
                        assert(i == g.index_of(qd));
                        let k = fills.len() - 1;
                        assert(fills[k] == qd);
                        assert(0 <= k < fills.len() && g.index_of(fills[k]) == i);
                    }
                }
            }
            lemma_grows_trans(cond, c0, c1, c2);
            lemma_blocked_stays(g, cond, orig, c1, c2);
            assert(q2.subrange(0, q0.len() as int) =~= q0) by {
                assert(q2.subrange(0, q1.len() as int).subrange(0, q0.len() as int) =~= q2.subrange(0, q0.len() as int));
            }
            lemma_prefix_contains(q1, q2);
            assert forall|k: int| q0.len() <= k < q2.len() implies g.contains(#[trigger] q2[k]) && filled(
                g,
                cond,
                orig,
                c2,
                q2[k],
            ) by {
                if k < q1.len() {
                    assert(q2[k] == q2.subrange(0, q1.len() as int)[k]);
                    let i = g.index_of(q1[k]);
                    lemma_index_in_bounds(g, q1[k]);
                    assert(c2[i] == c1[i] || (holds(cond, c1[i]) && !holds(cond, c2[i])));
                }
            }
            assert forall|p: CartesianPosition|
                g.contains(p) && #[trigger] filled(g, cond, orig, c2, p) implies filled(g, cond, orig, c0, p)
                || q2.contains(p) by {
                lemma_index_in_bounds(g, p);
                let i = g.index_of(p);
                assert(c2[i] == c1[i] || (holds(cond, c1[i]) && !holds(cond, c2[i])));
                assert(c1[i] == orig[i] || (holds(cond, orig[i]) && !holds(cond, c1[i])));
                if filled(g, cond, orig, c1, p) {
                    if !filled(g, cond, orig, c0, p) {
                        assert(q1.contains(p));
                    }
                }
            }
        }
    }

    /// Walks from `pos` in the horizontal direction `dir`, filling each
    /// element that satisfies `condition` and exploring its vertical
    /// neighbours, until the run leaves the grid or meets an element that
    /// does not satisfy `condition`. At most `size_x` steps are taken.
    fn explore_horizontal<CO: FnMut(&D) -> bool, AC: FnMut(&mut D)>(
        &mut self,
        queue: &mut VecDeque<CartesianPosition>,
        pos: &CartesianPosition,
        dir: Direction,
        condition: &mut CO,
        action: &mut AC,
        Ghost(orig): Ghost<Seq<D>>,
        Ghost(seed): Ghost<CartesianPosition>,
    )
        requires
            old(self).wf(),
            old(self).spec_grid().contains(*pos),
            dir == Direction::XForward || dir == Direction::XBackward,
            condition_ok(*old(condition)),
            forall|d: &mut D| #[trigger] call_requires(*old(action), (d,)),
            forall|d: &mut D|
                #[trigger] call_ensures(*old(action), (d,), ()) ==> !holds(*old(condition), *final(d)),
            orig.len() == old(self).cells().len(),
            grows(*old(condition), orig, old(self).cells()),
            filled(old(self).spec_grid(), *old(condition), orig, old(self).cells(), *pos),
            blocked_vertically(old(self).spec_grid(), *old(condition), orig, old(self).cells(), *pos),
            queue_filled(old(self).spec_grid(), *old(condition), orig, old(self).cells(), old(queue)@),
            fill_closed_except(
                old(self).spec_grid(),
                *old(condition),
                orig,
                old(self).cells(),
                old(queue)@,
                *pos,
                *pos,
            ),
            all_reached(old(self).spec_grid(), *old(condition), orig, old(self).cells(), seed),
            forall|i: int|
                0 <= i < old(self).cells().len() && #[trigger] old(self).cells()[i] != orig[i] ==> exists|r: &mut D|
                    *r == orig[i] && *final(r) == old(self).cells()[i] && call_ensures(*old(action), (r,), ()),
        ensures
            all_reached(old(self).spec_grid(), *old(condition), orig, final(self).cells(), seed),
            forall|i: int|
                0 <= i < final(self).cells().len() && #[trigger] final(self).cells()[i] != orig[i] ==> exists|r: &mut D|
                    *r == orig[i] && *final(r) == final(self).cells()[i] && call_ensures(*old(action), (r,), ()),
            *final(condition) == *old(condition),
            *final(action) == *old(action),
            final(self).wf(),
            final(self).spec_grid() == old(self).spec_grid(),
            grows(*old(condition), old(self).cells(), final(self).cells()),
            grows(*old(condition), orig, final(self).cells()),
            blocked(old(self).spec_grid(), *old(condition), orig, final(self).cells(), *pos, dir),
            queue_filled(old(self).spec_grid(), *old(condition), orig, final(self).cells(), final(queue)@),
            fill_closed_except(
                old(self).spec_grid(),
                *old(condition),
                orig,
                final(self).cells(),
                final(queue)@,
                *pos,
                *pos,
            ),
            count_holds(*old(condition), final(self).cells()) + final(queue)@.len() <= count_holds(
                *old(condition),
                old(self).cells(),
            ) + old(queue)@.len(),
            count_holds(*old(condition), final(self).cells()) <= count_holds(
                *old(condition),
                old(self).cells(),
            ),
    {
        let ghost g = self.grid;
        let ghost cond = *condition;
        let ghost act = *action;
        let ghost start = self.data@;
        let ghost c0 = count_holds(cond, self.data@);
        let ghost q0 = queue@.len();
        let sx = self.grid().size_x();
        let mut x_pos = *pos;
        let mut k: u32 = 0;
        proof {
            lemma_full_turn(pos.x as int, sx as int);
        }
        while k < sx
            invariant
                self.wf(),
                self.grid == g,
                g.sx() == sx,
                *condition == cond,
                *action == act,
                dir == Direction::XForward || dir == Direction::XBackward,
                condition_ok(cond),
                forall|d: &mut D| #[trigger] call_requires(act, (d,)),
                forall|d: &mut D| #[trigger] call_ensures(act, (d,), ()) ==> !holds(cond, *final(d)),
                orig.len() == self.data@.len(),
                grows(cond, orig, self.data@),
                grows(cond, start, self.data@),
                g.contains(*pos),
                g.contains(x_pos),
                filled(g, cond, orig, self.data@, *pos),
                filled(g, cond, orig, self.data@, x_pos),
                x_pos.y == pos.y,
                x_pos.z == pos.z,
                k < sx,
                k == 0 ==> x_pos == *pos,
                run_at(g, *pos, dir, k as int, x_pos.x as int),
                blocked_vertically(g, cond, orig, self.data@, x_pos),
                blocked_vertically(g, cond, orig, self.data@, *pos),
                k > 0 ==> blocked(g, cond, orig, self.data@, x_pos, dir.opposite_of()),
                k > 0 ==> blocked(g, cond, orig, self.data@, *pos, dir),
                queue_filled(g, cond, orig, self.data@, queue@),
                fill_closed_except(g, cond, orig, self.data@, queue@, *pos, x_pos),
                count_holds(cond, self.data@) + queue@.len() <= c0 + q0,
                count_holds(cond, self.data@) <= c0,
                all_reached(g, cond, orig, self.data@, seed),
                forall|i: int|
                    0 <= i < self.data@.len() && #[trigger] self.data@[i] != orig[i] ==> exists|r: &mut D|
                        *r == orig[i] && *final(r) == self.data@[i] && call_ensures(act, (r,), ()),
            ensures
                all_reached(g, cond, orig, self.data@, seed),
                forall|i: int|
                    0 <= i < self.data@.len() && #[trigger] self.data@[i] != orig[i] ==> exists|r: &mut D|
                        *r == orig[i] && *final(r) == self.data@[i] && call_ensures(act, (r,), ()),
                self.wf(),
                self.grid == g,
                *condition == cond,
                *action == act,
                grows(cond, orig, self.data@),
                grows(cond, start, self.data@),
                blocked(g, cond, orig, self.data@, *pos, dir),
                queue_filled(g, cond, orig, self.data@, queue@),
                fill_closed_except(g, cond, orig, self.data@, queue@, *pos, *pos),
                count_holds(cond, self.data@) + queue@.len() <= c0 + q0,
                count_holds(cond, self.data@) <= c0,
            decreases sx - k,
        {
            proof {
                lemma_unit_move_inside(g, x_pos, dir);
            }
            let next = self.grid().get_next_pos_in_direction(&x_pos, dir);
            match next {
                Some(next_node_pos) => {
                    proof {
                        lemma_index_in_bounds(g, next_node_pos);
                    }
                    let ghost c1 = self.data@;
                    let ghost qa = queue@;
                    let node_data = self.get_mut_from_pos(&next_node_pos);
                    if condition(node_data) {
                        action(node_data);
                        let ghost c2 = self.data@;
                        proof {
                            let i = g.index_of(next_node_pos);
                            assert(c2 == c1.update(i, c2[i]));
                            lemma_count_update(cond, c1, i, c2[i]);
                            lemma_grows_update(cond, orig, c1, i, c2[i]);
                            lemma_grows_update(cond, start, c1, i, c2[i]);
                            lemma_all_reached_update(g, cond, orig, c1, seed, x_pos, next_node_pos, c2[i]);
                        }
                        self.explore_vertical(queue, &next_node_pos, condition, action, Ghost(orig), Ghost(seed));
                        proof {
                            lemma_run_step(
                                g, cond, orig, start, c1, c2, self.data@, qa, queue@, *pos, x_pos,
                                next_node_pos, dir, k as int,
                            );
                        }
                        x_pos = next_node_pos;
                    } else {
                        proof {
                            assert(self.data@ =~= c1);
                            lemma_run_stop(g, cond, orig, self.data@, queue@, *pos, x_pos, dir, k as int);
                        }
                        break;
                    }
                },
                None => {
                    proof {
                        lemma_run_stop(g, cond, orig, self.data@, queue@, *pos, x_pos, dir, k as int);
                    }
                    break;
                },
            }
            k += 1;
        }
    }

    /// Flood fill starting at `from`, applying `action` to all nodes for which `condition` returns true.
    ///
    /// - `condition` should be true for `from` else the function returns immediately.
    /// - If present `pre_allocated_queue` will be cleared before running the algorithm (but existing allocation will be kept)
    ///
    /// Scan-line flood fill that also works on looping grids: each dequeued
    /// position explores its vertical neighbours, then runs along X- and X+.
    ///
    /// This uses `condition` + `action` as a way not to backtrack: `action`
    /// must make `condition` false on the element it changes.
    pub fn flood_fill<CO: FnMut(&D) -> bool, AC: FnMut(&mut D)>(
        &mut self,
        from: CartesianPosition,
        condition: CO,
        action: AC,
        pre_allocated_queue: Option<&mut VecDeque<CartesianPosition>>,
    )
        requires
            old(self).wf(),
            old(self).spec_grid().contains(from),
            condition_ok(condition),
            forall|d: &mut D| #[trigger] call_requires(action, (d,)),
            forall|d: &mut D| #[trigger] call_ensures(action, (d,), ()) ==> !holds(condition, *final(d)),
        ensures
            final(self).wf(),
            final(self).spec_grid() == old(self).spec_grid(),
            forall|sat: spec_fn(D) -> bool|
                #[trigger] agrees(condition, sat) && !sat(old(self).at(from)) ==> final(self).cells()
                    == old(self).cells(),
            grows(condition, old(self).cells(), final(self).cells()),
            forall|i: int|
                0 <= i < final(self).cells().len() && #[trigger] final(self).cells()[i] != old(self).cells()[i] ==> exists|r: &mut D|
                    *r == old(self).cells()[i] && *final(r) == final(self).cells()[i] && call_ensures(action, (r,), ()),
            forall|sat: spec_fn(D) -> bool, p: CartesianPosition|
                #![trigger agrees(condition, sat), final(self).at(p)]
                #![trigger reached(old(self).spec_grid(), sat, old(self).cells(), from, p)]
                agrees(condition, sat) && old(self).spec_grid().contains(p) ==> (final(self).at(p)
                    != old(self).at(p) <==> sat(old(self).at(from)) && reached(
                    old(self).spec_grid(),
                    sat,
                    old(self).cells(),
                    from,
                    p,
                )),
            forall|p: CartesianPosition|
                old(self).spec_grid().contains(p) && #[trigger] filled(
                    old(self).spec_grid(),
                    condition,
                    old(self).cells(),
                    final(self).cells(),
                    p,
                ) ==> closed(old(self).spec_grid(), condition, old(self).cells(), final(self).cells(), p),
            pre_allocated_queue matches Some(q) ==> final(q)@.len() == 0,
    {
        match pre_allocated_queue {
            Some(q) => {
                q.clear();
                self.fill_with_queue(from, condition, action, q);
            },
            None => {
                let mut q: VecDeque<CartesianPosition> = VecDeque::with_capacity(10);
                self.fill_with_queue(from, condition, action, &mut q);
            },
        }
    }

    /// Flood fill from `from` using `queue`, which must be empty, as the work list.
    fn fill_with_queue<CO: FnMut(&D) -> bool, AC: FnMut(&mut D)>(
        &mut self,
        from: CartesianPosition,
        mut condition: CO,
        mut action: AC,
        queue: &mut VecDeque<CartesianPosition>,
    )
        requires
            old(self).wf(),
            old(self).spec_grid().contains(from),
            old(queue)@.len() == 0,
            condition_ok(condition),
            forall|d: &mut D| #[trigger] call_requires(action, (d,)),
            forall|d: &mut D| #[trigger] call_ensures(action, (d,), ()) ==> !holds(condition, *final(d)),
        ensures
            final(self).wf(),
            final(self).spec_grid() == old(self).spec_grid(),
            final(queue)@.len() == 0,
            forall|sat: spec_fn(D) -> bool|
                #[trigger] agrees(condition, sat) && !sat(old(self).at(from)) ==> final(self).cells()
                    == old(self).cells(),
            grows(condition, old(self).cells(), final(self).cells()),
            forall|i: int|
                0 <= i < final(self).cells().len() && #[trigger] final(self).cells()[i] != old(self).cells()[i] ==> exists|r: &mut D|
                    *r == old(self).cells()[i] && *final(r) == final(self).cells()[i] && call_ensures(action, (r,), ()),
            forall|sat: spec_fn(D) -> bool, p: CartesianPosition|
                #![trigger agrees(condition, sat), final(self).at(p)]
                #![trigger reached(old(self).spec_grid(), sat, old(self).cells(), from, p)]
                agrees(condition, sat) && old(self).spec_grid().contains(p) ==> (final(self).at(p)
                    != old(self).at(p) <==> sat(old(self).at(from)) && reached(
                    old(self).spec_grid(),
                    sat,
                    old(self).cells(),
                    from,
                    p,
                )),
            fill_closed(old(self).spec_grid(), condition, old(self).cells(), final(self).cells(), seq![]),
    {
        let ghost g = self.grid;
        let ghost cond = condition;
        let ghost act = action;
        let ghost orig = self.data@;
        let ghost seed = from;
        proof {
            lemma_index_in_bounds(g, from);
            crate::cartesian_grid::lemma_pos_index_pos(g, from);
        }
        let initial_node = self.get_mut_from_pos(&from);
        if !condition(initial_node) {
            proof {
                assert(self.data@ =~= orig);
                assert(refuses(cond, orig[g.index_of(from)]));
                assert forall|sat: spec_fn(D) -> bool| #[trigger] agrees(cond, sat) implies !sat(
                    orig[g.index_of(from)],
                ) by {
                    assert(call_ensures(cond, (&orig[g.index_of(from)],), false));
                }
            }
            return;
        }
        action(initial_node);
        queue.push_back(from);
        proof {
            let i = g.index_of(from);
            assert(self.data@ == orig.update(i, self.data@[i]));
            assert(grows(cond, orig, orig));
            lemma_grows_update(cond, orig, orig, i, self.data@[i]);
            assert(queue@[0] == from);
            assert forall|p: CartesianPosition|
                g.contains(p) && #[trigger] filled(g, cond, orig, self.data@, p) implies (closed(
                g,
                cond, orig,
                self.data@,
                p,
            ) || queue@.contains(p)) && reached(g, holds_pred(cond), orig, seed, p) by {
                if p != from {
                    crate::cartesian_grid::lemma_pos_index_pos(g, p);
                    lemma_index_in_bounds(g, p);
                    assert(g.index_of(p) != i);
                } else {
                    assert(is_path(g, holds_pred(cond), orig, seq![from]));
                }
            }
        }
        loop
            invariant
                self.wf(),
                self.grid == g,
                condition == cond,
                action == act,
                condition_ok(cond),
                forall|d: &mut D| #[trigger] call_requires(act, (d,)),
                forall|d: &mut D| #[trigger] call_ensures(act, (d,), ()) ==> !holds(cond, *final(d)),
                orig.len() == self.data@.len(),
                g.contains(from),
                holds(cond, orig[g.index_of(from)]),
                grows(cond, orig, self.data@),
                filled(g, cond, orig, self.data@, from),
                queue_filled(g, cond, orig, self.data@, queue@),
                fill_closed(g, cond, orig, self.data@, queue@),
                all_reached(g, cond, orig, self.data@, seed),
                forall|i: int|
                    0 <= i < self.data@.len() && #[trigger] self.data@[i] != orig[i] ==> exists|r: &mut D|
                        *r == orig[i] && *final(r) == self.data@[i] && call_ensures(act, (r,), ()),
            ensures
                all_reached(g, cond, orig, self.data@, seed),
                forall|i: int|
                    0 <= i < self.data@.len() && #[trigger] self.data@[i] != orig[i] ==> exists|r: &mut D|
                        *r == orig[i] && *final(r) == self.data@[i] && call_ensures(act, (r,), ()),
                self.wf(),
                self.grid == g,
                queue@.len() == 0,
                grows(cond, orig, self.data@),
                filled(g, cond, orig, self.data@, from),
                fill_closed(g, cond, orig, self.data@, queue@),
            decreases 2 * count_holds(cond, self.data@) + queue@.len(),
        {
            let ghost c_before = self.data@;
            let ghost q_before = queue@;
            match queue.pop_front() {
                Some(pos) => {
                    let ghost qp = queue@;
                    proof {
                        assert(q_before[0] == pos);
                        assert forall|j: int| 0 <= j < qp.len() implies qp[j] == q_before[j + 1] by {}
                    }
                    self.explore_vertical(queue, &pos, &mut condition, &mut action, Ghost(orig), Ghost(seed));
                    proof {
                        lemma_after_vertical(g, cond, orig, c_before, self.data@, q_before, qp, queue@, pos);
                    }
                    let ghost c_v = self.data@;
                    self.explore_horizontal(
                        queue,
                        &pos,
                        Direction::XBackward,
                        &mut condition,
                        &mut action,
                        Ghost(orig),
                        Ghost(seed),
                    );
                    let ghost c_h1 = self.data@;
                    proof {
                        lemma_filled_stays(g, cond, orig, c_v, c_h1, pos);
                        lemma_blocked_stays(g, cond, orig, c_v, c_h1);
                    }
                    self.explore_horizontal(
                        queue,
                        &pos,
                        Direction::XForward,
                        &mut condition,
                        &mut action,
                        Ghost(orig),
                        Ghost(seed),
                    );
                    proof {
                        lemma_grows_trans(cond, c_v, c_h1, self.data@);
                        lemma_blocked_stays(g, cond, orig, c_v, self.data@);
                        lemma_blocked_stays(g, cond, orig, c_h1, self.data@);
                        assert(closed(g, cond, orig, self.data@, pos));
                        lemma_grows_trans(cond, c_before, c_v, self.data@);
                        lemma_filled_stays(g, cond, orig, c_before, self.data@, from);
                    }
                },
                None => {
                    break;
                },
            }
        }
        proof {
            assert forall|sat: spec_fn(D) -> bool, p: CartesianPosition|
                agrees(cond, sat) && g.contains(p) implies (self.data@[g.index_of(p)] != orig[g.index_of(
                p,
            )] <==> sat(orig[g.index_of(from)]) && reached(g, sat, orig, from, p)) by {
                lemma_index_in_bounds(g, p);
                let i = g.index_of(p);
                assert(self.data@[i] == orig[i] || (holds(cond, orig[i]) && !holds(cond, self.data@[i])));
                assert(call_ensures(cond, (&orig[g.index_of(from)],), true));
                if self.data@[i] != orig[i] {
                    assert(filled(g, cond, orig, self.data@, p));
                    lemma_reached_agrees(g, cond, sat, orig, from, p);
                }
                if reached(g, sat, orig, from, p) {
                    let path = choose|path: Seq<CartesianPosition>|
                        #[trigger] is_path(g, sat, orig, path) && path[0] == from && path.last() == p;
                    lemma_component_filled(g, cond, sat, orig, self.data@, from, path);
                }
            }
        }
    }
}

} // verus!
