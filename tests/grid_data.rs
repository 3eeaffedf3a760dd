use ghx_grid::cartesian_grid::CartesianGrid;
use ghx_grid::coordinates::{Cartesian3D, CartesianPosition};
use ghx_grid::grid::GridData;

fn numbered_3d(sx: u32, sy: u32, sz: u32) -> GridData<Cartesian3D, u32> {
    let g = CartesianGrid::new_cartesian_3d(sx, sy, sz, false, false, false);
    let data: Vec<u32> = (0..g.total_size() as u32).collect();
    GridData::new(g, data)
}

fn naive_fill(
    data: &mut GridData<Cartesian3D, u32>,
    value: u32,
    pick: impl Fn(u32, u32, u32) -> bool,
) {
    let (sx, sy, sz) = data.grid().size();
    for z in 0..sz {
        for y in 0..sy {
            for x in 0..sx {
                if pick(x, y, z) {
                    let i = data.grid().index_from_coords(x, y, z);
                    data.set_raw(i, value);
                }
            }
        }
    }
}

fn contents(data: &GridData<Cartesian3D, u32>) -> Vec<u32> {
    data.iter().copied().collect()
}

#[test]
fn builders_fill_every_element() {
    let g = CartesianGrid::new_cartesian_2d(4, 3, false, false);
    let d = g.new_grid_data(7u8);
    assert_eq!(d.iter().count(), 12);
    assert!(d.iter().all(|v| *v == 7));
    let d: GridData<_, u16> = g.default_grid_data();
    assert_eq!(d.iter().count(), 12);
    assert!(d.iter().all(|v| *v == 0));
    assert_eq!(d.indexes(), 0..12);
    assert_eq!(d.grid().size(), (4, 3, 1));
}

#[test]
fn raw_and_positional_access() {
    let mut d = numbered_3d(3, 4, 5);
    assert_eq!(*d.get(13), 13);
    assert_eq!(*d.get_from_pos(&CartesianPosition::new(1, 2, 3)), 43);
    assert_eq!(*d.get_3d(2, 3, 4), 59);
    *d.get_mut(5) = 500;
    assert_eq!(*d.get(5), 500);
    *d.get_mut_from_pos(&CartesianPosition::new(0, 1, 1)) = 1500;
    assert_eq!(*d.get(15), 1500);
    *d.get_3d_mut(1, 1, 1) = 1600;
    assert_eq!(*d.get(16), 1600);
    d.set_raw(0, 42);
    assert_eq!(*d.get(0), 42);
    d.set(CartesianPosition::new(2, 0, 0), 43);
    assert_eq!(*d.get(2), 43);
    d.set(3usize, 44);
    assert_eq!(*d.get_from_pos(&CartesianPosition::new(0, 1, 0)), 44);
    d.reset(9);
    assert!(d.iter().all(|v| *v == 9));
    assert_eq!(d.iter().count(), 60);
}

#[test]
fn accessors_2d() {
    let g = CartesianGrid::new_cartesian_2d(4, 3, false, false);
    let mut d = g.new_grid_data(0u32);
    *d.get_2d_mut(3, 2) = 5;
    assert_eq!(*d.get_2d(3, 2), 5);
    assert_eq!(*d.get(11), 5);
    assert_eq!(*d.get_from_pos(&CartesianPosition::new_xy(3, 2)), 5);
}

#[test]
fn set_all_x_matches_naive_fill() {
    for x in 0..3 {
        let mut fast = numbered_3d(3, 4, 5);
        let mut slow = numbered_3d(3, 4, 5);
        fast.set_all_x(x, 1000);
        naive_fill(&mut slow, 1000, |px, _, _| px == x);
        assert_eq!(contents(&fast), contents(&slow));
    }
    let mut d = numbered_3d(3, 4, 5);
    d.set_all_x(1, 1000);
    for i in d.indexes() {
        let p = d.grid().pos_from_index(i);
        if p.x == 1 {
            assert_eq!(*d.get(i), 1000);
        } else {
            assert_eq!(*d.get(i), i as u32);
        }
    }
}

#[test]
fn set_all_y_matches_naive_fill() {
    for y in 0..4 {
        let mut fast = numbered_3d(3, 4, 5);
        let mut slow = numbered_3d(3, 4, 5);
        fast.set_all_y(y, 1000);
        naive_fill(&mut slow, 1000, |_, py, _| py == y);
        assert_eq!(contents(&fast), contents(&slow));
    }
}

#[test]
fn set_all_z_matches_naive_fill() {
    for z in 0..5 {
        let mut fast = numbered_3d(3, 4, 5);
        let mut slow = numbered_3d(3, 4, 5);
        fast.set_all_z(z, 1000);
        naive_fill(&mut slow, 1000, |_, _, pz| pz == z);
        assert_eq!(contents(&fast), contents(&slow));
    }
}

#[test]
fn set_all_xy_matches_naive_fill() {
    let mut fast = numbered_3d(3, 4, 5);
    let mut slow = numbered_3d(3, 4, 5);
    fast.set_all_xy(2, 1, 1000);
    naive_fill(&mut slow, 1000, |px, py, _| px == 2 && py == 1);
    assert_eq!(contents(&fast), contents(&slow));
    assert_eq!(contents(&fast).iter().filter(|v| **v == 1000).count(), 5);
}

#[test]
fn set_all_xz_matches_naive_fill() {
    let mut fast = numbered_3d(3, 4, 5);
    let mut slow = numbered_3d(3, 4, 5);
    fast.set_all_xz(0, 4, 1000);
    naive_fill(&mut slow, 1000, |px, _, pz| px == 0 && pz == 4);
    assert_eq!(contents(&fast), contents(&slow));
    assert_eq!(contents(&fast).iter().filter(|v| **v == 1000).count(), 4);
}

#[test]
fn set_all_yz_matches_naive_fill() {
    let mut fast = numbered_3d(3, 4, 5);
    let mut slow = numbered_3d(3, 4, 5);
    fast.set_all_yz(3, 2, 1000);
    naive_fill(&mut slow, 1000, |_, py, pz| py == 3 && pz == 2);
    assert_eq!(contents(&fast), contents(&slow));
    assert_eq!(contents(&fast).iter().filter(|v| **v == 1000).count(), 3);
}

#[test]
fn bulk_fills_on_a_2d_grid() {
    let g = CartesianGrid::new_cartesian_2d(4, 3, false, false);
    let mut d = g.new_grid_data(0u8);
    d.set_all_x(1, 1);
    d.set_all_y(2, 2);
    d.set_all_z(0, 3);
    assert!(d.iter().all(|v| *v == 3));
    d.set_all_yz(1, 0, 4);
    assert_eq!(d.iter().copied().collect::<Vec<_>>(), vec![3, 3, 3, 3, 4, 4, 4, 4, 3, 3, 3, 3]);
}
