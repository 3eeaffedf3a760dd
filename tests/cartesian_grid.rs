use ghx_grid::cartesian_grid::CartesianGrid;
use ghx_grid::coordinates::{Cartesian2D, Cartesian3D, CartesianPosition, GridDelta};
use ghx_grid::direction::Direction;
use ghx_grid::grid::Grid;

#[test]
fn constructors_keep_sizes() {
    let g = CartesianGrid::new_cartesian_2d(5, 4, true, false);
    assert_eq!(g.size(), (5, 4, 1));
    assert_eq!(g.size_x(), 5);
    assert_eq!(g.size_y(), 4);
    assert_eq!(g.size_z(), 1);
    assert_eq!(g.size_xy(), 20);
    assert_eq!(g.total_size(), 20);
    assert_eq!(g.indexes(), 0..20);
    assert_eq!(g.directions_count(), 4);
    let g3 = CartesianGrid::new_cartesian_3d(3, 4, 5, false, true, false);
    assert_eq!(g3.size(), (3, 4, 5));
    assert_eq!(g3.size_xy(), 12);
    assert_eq!(g3.total_size(), 60);
    assert_eq!(Grid::total_size(&g3), 60);
    assert_eq!(g3.directions_count(), 6);
    assert_eq!(Grid::directions_count(&g3), 6);
    let g_generic = CartesianGrid::new(2, 3, 4, false, false, false, Cartesian3D);
    assert_eq!(g_generic.size(), (2, 3, 4));
    assert_eq!(g_generic.total_size(), 24);
}

#[test]
fn index_formula() {
    let g = CartesianGrid::new_cartesian_3d(3, 4, 5, false, false, false);
    assert_eq!(g.index_from_coords(0, 0, 0), 0);
    assert_eq!(g.index_from_coords(2, 0, 0), 2);
    assert_eq!(g.index_from_coords(0, 1, 0), 3);
    assert_eq!(g.index_from_coords(0, 0, 1), 12);
    assert_eq!(g.index_from_coords(2, 3, 4), 2 + 3 * 3 + 4 * 12);
    assert_eq!(g.index_from_pos(&CartesianPosition::new(1, 2, 3)), 1 + 6 + 36);
    assert_eq!(Grid::index_from_pos(&g, &CartesianPosition::new(1, 2, 3)), 43);
    let g2 = CartesianGrid::new_cartesian_2d(7, 3, false, false);
    assert_eq!(g2.get_index_2d(3, 2), 17);
    assert_eq!(g2.get_index_from_pos_2d(&CartesianPosition::new_xy(3, 2)), 17);
}

#[test]
fn pos_from_index_formula() {
    let g = CartesianGrid::new_cartesian_3d(3, 4, 5, false, false, false);
    assert_eq!(g.pos_from_index(0), CartesianPosition::new(0, 0, 0));
    assert_eq!(g.pos_from_index(43), CartesianPosition::new(1, 2, 3));
    assert_eq!(g.pos_from_index(59), CartesianPosition::new(2, 3, 4));
    assert_eq!(Grid::pos_from_index(&g, 13), CartesianPosition::new(1, 0, 1));
}

#[test]
fn index_position_round_trip() {
    let g = CartesianGrid::new_cartesian_3d(3, 4, 5, true, false, true);
    for z in 0..5 {
        for y in 0..4 {
            for x in 0..3 {
                let i = g.index_from_coords(x, y, z);
                assert!(i < g.total_size());
                assert_eq!(g.pos_from_index(i), CartesianPosition::new(x, y, z));
            }
        }
    }
    for i in g.indexes() {
        assert_eq!(g.index_from_pos(&g.pos_from_index(i)), i);
    }
}

#[test]
fn bounded_x_edges_have_no_destination() {
    let g = CartesianGrid::new_cartesian_2d(5, 3, false, false);
    let first = CartesianPosition::new_xy(0, 1);
    let last = CartesianPosition::new_xy(4, 1);
    assert_eq!(g.get_next_pos_in_direction(&first, Direction::XBackward), None);
    assert_eq!(g.get_next_pos_in_direction(&last, Direction::XForward), None);
    assert_eq!(g.get_next_index_in_direction(&first, Direction::XBackward), None);
    assert_eq!(g.get_next_index_in_direction(&last, Direction::XForward), None);
    assert_eq!(
        g.get_next_pos_in_direction(&first, Direction::XForward),
        Some(CartesianPosition::new_xy(1, 1))
    );
    assert_eq!(g.get_next_index_in_direction(&last, Direction::XBackward), Some(8));
}

#[test]
fn looping_x_wraps_around() {
    let g = CartesianGrid::new_cartesian_2d(5, 3, true, false);
    let first = CartesianPosition::new_xy(0, 1);
    let last = CartesianPosition::new_xy(4, 1);
    assert_eq!(
        g.get_next_pos_in_direction(&first, Direction::XBackward),
        Some(CartesianPosition::new_xy(4, 1))
    );
    assert_eq!(
        g.get_next_pos_in_direction(&last, Direction::XForward),
        Some(CartesianPosition::new_xy(0, 1))
    );
    assert_eq!(g.get_next_index_in_direction(&first, Direction::XBackward), Some(9));
    assert_eq!(g.get_next_index_in_direction(&last, Direction::XForward), Some(5));
    // Y does not loop
    assert_eq!(
        g.get_next_pos_in_direction(&CartesianPosition::new_xy(2, 0), Direction::YBackward),
        None
    );
}

#[test]
fn one_axis_out_of_bounds_rejects_the_whole_move() {
    let g = CartesianGrid::new_cartesian_3d(4, 4, 4, true, false, true);
    let p = CartesianPosition::new(0, 3, 0);
    assert_eq!(g.get_next_pos(&p, &GridDelta::new(-1, 1, -1)), None);
    assert_eq!(
        g.get_next_pos(&p, &GridDelta::new(-1, -1, -1)),
        Some(CartesianPosition::new(3, 2, 3))
    );
    assert_eq!(
        g.get_next_pos(&p, &GridDelta::new(4, 0, 0)),
        Some(CartesianPosition::new(0, 3, 0))
    );
}

#[test]
fn moves_by_several_units() {
    let g = CartesianGrid::new_cartesian_2d(6, 4, true, false);
    let p = CartesianPosition::new_xy(1, 1);
    assert_eq!(g.get_index_in_direction(&p, Direction::XForward, 3), Some(1 * 6 + 4));
    assert_eq!(g.get_index_in_direction(&p, Direction::XBackward, 2), Some(1 * 6 + 5));
    assert_eq!(g.get_index_in_direction(&p, Direction::YForward, 2), Some(3 * 6 + 1));
    assert_eq!(g.get_index_in_direction(&p, Direction::YForward, 3), None);
    assert_eq!(g.get_index_in_direction(&p, Direction::YBackward, -2), Some(3 * 6 + 1));
    assert_eq!(g.get_index_in_direction(&p, Direction::XForward, 0), Some(7));
}

#[test]
fn neighbours_in_all_directions() {
    let g = CartesianGrid::new_cartesian_2d(3, 3, false, true);
    let mut buffer = vec![Some(99); 6];
    // centre of the bottom row: (1, 0)
    g.get_neighbours_in_all_directions(1, &mut buffer);
    assert_eq!(buffer[usize::from(Direction::XForward)], Some(2));
    assert_eq!(buffer[usize::from(Direction::YForward)], Some(4));
    assert_eq!(buffer[usize::from(Direction::XBackward)], Some(0));
    assert_eq!(buffer[usize::from(Direction::YBackward)], Some(7));
    assert_eq!(buffer[4], Some(99));
    assert_eq!(buffer[5], Some(99));
    // corner (0, 0): X- leaves the grid
    g.get_neighbours_in_all_directions(0, &mut buffer);
    assert_eq!(buffer[..4], [Some(1), Some(3), None, Some(6)]);

    let g3 = CartesianGrid::new_cartesian_3d(2, 2, 2, false, false, false);
    let mut buffer3 = vec![None; 6];
    g3.get_neighbours_in_all_directions(0, &mut buffer3);
    assert_eq!(buffer3, vec![Some(1), Some(2), None, None, Some(4), None]);
}

#[test]
fn single_cell_looping_grid_neighbours_itself() {
    let g = CartesianGrid::new_cartesian_2d(1, 1, true, true);
    let p = CartesianPosition::new_xy(0, 0);
    for d in [Direction::XForward, Direction::YForward, Direction::XBackward, Direction::YBackward] {
        assert_eq!(g.get_next_pos_in_direction(&p, d), Some(p));
    }
    let g = CartesianGrid::new_cartesian_2d(1, 1, false, false);
    for d in [Direction::XForward, Direction::YForward, Direction::XBackward, Direction::YBackward] {
        assert_eq!(g.get_next_pos_in_direction(&p, d), None);
    }
}

#[test]
fn coord_system_accessor() {
    let g = CartesianGrid::new_cartesian_2d(2, 2, false, false);
    let c: &Cartesian2D = g.coord_system();
    let _ = *c;
    let _ = Grid::coord_system(&g);
}
