use ghx_grid::coordinate_system::CoordinateSystem;
use ghx_grid::coordinates::{Cartesian2D, Cartesian3D, CartesianCoordinates, CartesianPosition, GridDelta};
use ghx_grid::direction::{Direction, DirectionTrait};

const ALL: [Direction; 6] = [
    Direction::XForward,
    Direction::YForward,
    Direction::XBackward,
    Direction::YBackward,
    Direction::ZForward,
    Direction::ZBackward,
];

#[test]
fn opposite_is_an_involution() {
    for d in ALL {
        assert_eq!(d.opposite().opposite(), d);
        assert_ne!(d.opposite(), d);
    }
    assert_eq!(Direction::XForward.opposite(), Direction::XBackward);
    assert_eq!(Direction::YBackward.opposite(), Direction::YForward);
    assert_eq!(Direction::ZForward.opposite(), Direction::ZBackward);
}

#[test]
fn opposite_delta_is_negated() {
    let deltas = Cartesian3D.deltas();
    for d in ALL {
        let a = deltas[usize::from(d)];
        let b = deltas[usize::from(d.opposite())];
        assert_eq!(b, GridDelta::new(-a.dx, -a.dy, -a.dz));
    }
}

#[test]
fn direction_indexes_follow_declaration_order() {
    for (i, d) in ALL.iter().enumerate() {
        assert_eq!(usize::from(*d), i);
    }
    assert_eq!(Direction::default(), Direction::XForward);
}

#[test]
fn rotation_basis_tables() {
    assert_eq!(
        Direction::XForward.rotation_basis(),
        &[Direction::YForward, Direction::ZForward, Direction::YBackward, Direction::ZBackward]
    );
    assert_eq!(
        Direction::XBackward.rotation_basis(),
        &[Direction::ZForward, Direction::YForward, Direction::ZBackward, Direction::YBackward]
    );
    assert_eq!(
        Direction::YForward.rotation_basis(),
        &[Direction::ZForward, Direction::XForward, Direction::ZBackward, Direction::XBackward]
    );
    assert_eq!(
        Direction::YBackward.rotation_basis(),
        &[Direction::XForward, Direction::ZForward, Direction::XBackward, Direction::ZBackward]
    );
    assert_eq!(
        Direction::ZForward.rotation_basis(),
        &[Direction::XForward, Direction::YForward, Direction::XBackward, Direction::YBackward]
    );
    assert_eq!(
        Direction::ZBackward.rotation_basis(),
        &[Direction::YForward, Direction::XForward, Direction::YBackward, Direction::XBackward]
    );
    for d in ALL {
        let basis = d.rotation_basis();
        assert_eq!(basis.len(), 4);
        assert!(!basis.contains(&d));
        assert!(!basis.contains(&d.opposite()));
    }
}

#[test]
fn coordinate_system_tables() {
    assert_eq!(Cartesian2D.directions_count(), 4);
    assert_eq!(Cartesian2D.directions().len(), 4);
    assert_eq!(Cartesian3D.directions_count(), 6);
    assert_eq!(Cartesian3D.directions(), &ALL);
    assert_eq!(Cartesian2D.directions(), &ALL[..4]);
    assert_eq!(Cartesian2D.deltas().len(), 4);
    assert_eq!(Cartesian3D.deltas().len(), 6);
    for (i, d) in Cartesian3D.directions().iter().enumerate() {
        assert_eq!(usize::from(*d), i);
    }
    assert_eq!(Cartesian3D.deltas()[0], GridDelta::new(1, 0, 0));
    assert_eq!(Cartesian3D.deltas()[1], GridDelta::new(0, 1, 0));
    assert_eq!(Cartesian3D.deltas()[2], GridDelta::new(-1, 0, 0));
    assert_eq!(Cartesian3D.deltas()[3], GridDelta::new(0, -1, 0));
    assert_eq!(Cartesian3D.deltas()[4], GridDelta::new(0, 0, 1));
    assert_eq!(Cartesian3D.deltas()[5], GridDelta::new(0, 0, -1));
    assert_eq!(Cartesian2D.deltas(), &Cartesian3D.deltas()[..4]);
}

#[test]
fn grid_delta_scaling() {
    let d = GridDelta::new(1, -2, 3);
    assert_eq!(d.mul(3), GridDelta::new(3, -6, 9));
    assert_eq!(d.mul(0), GridDelta::new(0, 0, 0));
    assert_eq!(d.mul(-1), GridDelta::new(-1, 2, -3));
    assert_eq!(GridDelta::default(), GridDelta::new(0, 0, 0));
}

#[test]
fn position_constructors() {
    let p = CartesianPosition::new(1, 2, 3);
    assert_eq!((p.x, p.y, p.z), (1, 2, 3));
    assert_eq!(CartesianPosition::new_xy(4, 5), CartesianPosition::new(4, 5, 0));
    assert_eq!(CartesianPosition::from((4u32, 5u32)), CartesianPosition::new(4, 5, 0));
    assert_eq!(CartesianPosition::from((4u32, 5u32, 6u32)), CartesianPosition::new(4, 5, 6));
    let q: CartesianPosition = (7u32, 8u32).into();
    assert_eq!(q, CartesianPosition::new_xy(7, 8));
    assert_eq!(CartesianPosition::default(), CartesianPosition::new(0, 0, 0));
}
