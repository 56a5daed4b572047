use trains::snap_to_grid;
use trains::Dir;
use trains::Pos;

const ALL_DIRS: [Dir; 8] = [
    Dir::Up,
    Dir::UpRight,
    Dir::Right,
    Dir::DownRight,
    Dir::Down,
    Dir::DownLeft,
    Dir::Left,
    Dir::UpLeft,
];

#[test]
fn opposite_is_involution_for_all_directions() {
    for d in ALL_DIRS {
        assert_eq!(d.opposite().opposite(), d);
    }
}

#[test]
fn opposite_pairs() {
    assert_eq!(Dir::Up.opposite(), Dir::Down);
    assert_eq!(Dir::UpRight.opposite(), Dir::DownLeft);
    assert_eq!(Dir::Right.opposite(), Dir::Left);
    assert_eq!(Dir::DownRight.opposite(), Dir::UpLeft);
}

#[test]
fn difference_of_direction_with_itself_is_zero() {
    for d in ALL_DIRS {
        assert_eq!(d.difference(d), 0);
    }
}

#[test]
fn difference_of_opposites_is_a_full_half_turn() {
    // All pairs except the one touched by the 235-degree table entry.
    for d in [Dir::Up, Dir::Right, Dir::DownRight, Dir::Down, Dir::Left, Dir::UpLeft] {
        assert_eq!(d.difference(d.opposite()), 1000);
    }
}

#[test]
fn difference_of_north_east_and_south_west_pins_the_235_entry() {
    // The south-west angle table entry is 235 rather than 225, so this
    // opposite pair measures 170 degrees, not 180.
    assert_eq!(Dir::UpRight.difference(Dir::DownLeft), 944);
    assert_eq!(Dir::DownLeft.difference(Dir::UpRight), 944);
}

#[test]
fn into_angle_table() {
    assert_eq!(Dir::Up.into_angle(), 0);
    assert_eq!(Dir::UpRight.into_angle(), 45);
    assert_eq!(Dir::Right.into_angle(), 90);
    assert_eq!(Dir::DownRight.into_angle(), 135);
    assert_eq!(Dir::Down.into_angle(), 180);
    assert_eq!(Dir::DownLeft.into_angle(), 235);
    assert_eq!(Dir::Left.into_angle(), 270);
    assert_eq!(Dir::UpLeft.into_angle(), 315);
}

#[test]
fn from_angle_buckets() {
    assert_eq!(Dir::from_angle(0), Dir::Up);
    assert_eq!(Dir::from_angle(22_499), Dir::Up);
    assert_eq!(Dir::from_angle(22_500), Dir::UpRight);
    assert_eq!(Dir::from_angle(45_000), Dir::UpRight);
    assert_eq!(Dir::from_angle(100_000), Dir::Right);
    assert_eq!(Dir::from_angle(235_000), Dir::DownLeft);
    assert_eq!(Dir::from_angle(350_000), Dir::Up);
}

#[test]
fn from_angle_wraps_and_takes_magnitudes() {
    assert_eq!(Dir::from_angle(360_000), Dir::Up);
    assert_eq!(Dir::from_angle(450_000), Dir::Right);
    // A negative angle classifies by its magnitude.
    assert_eq!(Dir::from_angle(-100_000), Dir::Right);
}

#[test]
fn from_angle_last_bucket_wraps_to_up() {
    // everything from 337.5 degrees to the full turn falls back to Up
    assert_eq!(Dir::from_angle(337_500), Dir::Up);
    assert_eq!(Dir::from_angle(359_999), Dir::Up);
    // just below the boundary it is still UpLeft
    assert_eq!(Dir::from_angle(337_499), Dir::UpLeft);
}

#[test]
fn to_pos_displacements() {
    assert_eq!(Dir::Up.to_pos(), Pos(0, 32));
    assert_eq!(Dir::Right.to_pos(), Pos(32, 0));
    assert_eq!(Dir::Down.to_pos(), Pos(0, -32));
    assert_eq!(Dir::Left.to_pos(), Pos(-32, 0));
    assert_eq!(Dir::UpRight.to_pos(), Pos(45, 45));
    assert_eq!(Dir::DownLeft.to_pos(), Pos(-45, -45));
}

#[test]
fn pos_componentwise_arithmetic() {
    assert_eq!(Pos(3, -4).plus(Pos(10, 6)), Pos(13, 2));
    assert_eq!(Pos(3, -4).minus(Pos(10, 6)), Pos(-7, -10));
}

#[test]
fn snap_to_grid_picks_cell_edge_midpoints() {
    // lower-left triangle near the x axis: bottom edge midpoint
    assert_eq!(snap_to_grid(Pos(10, 3)), Pos(16, 0));
    // right half of the cell: right edge midpoint
    assert_eq!(snap_to_grid(Pos(30, 20)), Pos(32, 16));
    // upper region: top edge midpoint
    assert_eq!(snap_to_grid(Pos(5, 28)), Pos(16, 32));
    // left region: left edge midpoint
    assert_eq!(snap_to_grid(Pos(2, 10)), Pos(0, 16));
}

#[test]
fn snap_to_grid_negative_coordinates() {
    assert_eq!(snap_to_grid(Pos(-5, -5)), Pos(0, 16));
}

#[test]
fn snap_to_grid_is_stable_on_its_own_output() {
    let s = snap_to_grid(Pos(10, 3));
    assert_eq!(snap_to_grid(s), s);
}
