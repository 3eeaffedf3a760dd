use std::collections::VecDeque;

use ghx_grid::cartesian_grid::CartesianGrid;
use ghx_grid::coordinates::{Cartesian2D, CartesianPosition};
use ghx_grid::grid::GridData;

fn walled_grid() -> GridData<Cartesian2D, bool> {
    let g = CartesianGrid::new_cartesian_2d(5, 5, false, false);
    let mut d = g.new_grid_data(true);
    for y in 0..5 {
        *d.get_2d_mut(2, y) = false;
    }
    d
}

#[test]
fn flood_fill_stops_at_a_wall() {
    let mut d = walled_grid();
    d.flood_fill(CartesianPosition::new_xy(0, 0), |v: &bool| *v, |v: &mut bool| *v = false, None);
    let mut filled = 0;
    for y in 0..5 {
        for x in 0..5 {
            let v = *d.get_2d(x, y);
            if x < 2 {
                assert!(!v, "({x}, {y}) should be filled");
                filled += 1;
            } else if x == 2 {
                assert!(!v);
            } else {
                assert!(v, "({x}, {y}) should be untouched");
            }
        }
    }
    assert_eq!(filled, 10);
}

#[test]
fn flood_fill_on_the_other_side_of_the_wall() {
    let mut d = walled_grid();
    d.flood_fill(CartesianPosition::new_xy(4, 2), |v: &bool| *v, |v: &mut bool| *v = false, None);
    for y in 0..5 {
        for x in 0..5 {
            assert_eq!(*d.get_2d(x, y), x < 2);
        }
    }
}

#[test]
fn flood_fill_open_looping_grid_visits_every_cell_once() {
    for start in [(0u32, 0u32), (2, 3), (4, 4)] {
        let g = CartesianGrid::new_cartesian_2d(5, 5, true, true);
        let mut d = g.new_grid_data((true, 0u32));
        d.flood_fill(
            CartesianPosition::new_xy(start.0, start.1),
            |v: &(bool, u32)| v.0,
            |v: &mut (bool, u32)| {
                v.0 = false;
                v.1 += 1;
            },
            None,
        );
        assert!(d.iter().all(|v| *v == (false, 1)));
        assert_eq!(d.iter().count(), 25);
    }
}

#[test]
fn flood_fill_counts_each_action_once() {
    let g = CartesianGrid::new_cartesian_2d(5, 5, true, true);
    let mut d = g.new_grid_data(true);
    let mut calls = 0;
    d.flood_fill(
        CartesianPosition::new_xy(1, 1),
        |v: &bool| *v,
        |v: &mut bool| {
            *v = false;
            calls += 1;
        },
        None,
    );
    assert_eq!(calls, 25);
}

#[test]
fn flood_fill_noop_when_start_fails() {
    let mut d = walled_grid();
    let before: Vec<bool> = d.iter().copied().collect();
    let mut queue = VecDeque::new();
    queue.push_back(CartesianPosition::new_xy(1, 1));
    d.flood_fill(
        CartesianPosition::new_xy(2, 3),
        |v: &bool| *v,
        |v: &mut bool| *v = false,
        Some(&mut queue),
    );
    let after: Vec<bool> = d.iter().copied().collect();
    assert_eq!(before, after);
    assert!(queue.is_empty());
}

#[test]
fn flood_fill_reuses_and_empties_the_queue() {
    let mut d = walled_grid();
    let mut queue = VecDeque::with_capacity(64);
    queue.push_back(CartesianPosition::new_xy(4, 4));
    d.flood_fill(
        CartesianPosition::new_xy(1, 4),
        |v: &bool| *v,
        |v: &mut bool| *v = false,
        Some(&mut queue),
    );
    assert!(queue.is_empty());
    assert!(queue.capacity() >= 64);
    for y in 0..5 {
        for x in 0..5 {
            assert_eq!(*d.get_2d(x, y), x > 2);
        }
    }
}

#[test]
fn flood_fill_enclosed_region() {
    // a ring of walls around (2, 2) on a looping grid
    let g = CartesianGrid::new_cartesian_2d(5, 5, true, true);
    let mut d = g.new_grid_data(1u8);
    for (x, y) in [(1, 1), (2, 1), (3, 1), (1, 2), (3, 2), (1, 3), (2, 3), (3, 3)] {
        *d.get_2d_mut(x, y) = 0;
    }
    d.flood_fill(CartesianPosition::new_xy(2, 2), |v: &u8| *v == 1, |v: &mut u8| *v = 2, None);
    for y in 0..5 {
        for x in 0..5 {
            let expected = if (x, y) == (2, 2) {
                2
            } else if (1..=3).contains(&x) && (1..=3).contains(&y) {
                0
            } else {
                1
            };
            assert_eq!(*d.get_2d(x, y), expected);
        }
    }
    d.flood_fill(CartesianPosition::new_xy(0, 0), |v: &u8| *v == 1, |v: &mut u8| *v = 3, None);
    assert_eq!(d.iter().filter(|v| **v == 3).count(), 16);
}
