use trains::dir_toward;
use trains::Connection;
use trains::Dir;
use trains::Path;
use trains::Pos;
use trains::Track;
use trains::DIAG_LEN;
use trains::STRT_LEN;
use trains::TURN_LEN;

fn conn(x: i32, y: i32, d: Dir) -> Connection {
    Connection::new(Pos(x, y), d)
}

#[test]
fn candidates_from_an_axis_direction() {
    let c = conn(0, 0, Dir::Right);
    let got = c.gen_connections();
    assert_eq!(
        got,
        vec![
            (conn(48, -16, Dir::DownRight), TURN_LEN),
            (conn(32, 0, Dir::Right), STRT_LEN),
            (conn(48, 16, Dir::UpRight), TURN_LEN),
        ]
    );
}

#[test]
fn candidates_from_a_diagonal_on_the_lattice() {
    // x is a multiple of the cell size: the axis turn goes to Up
    let c = conn(0, 0, Dir::UpRight);
    let got = c.gen_connections();
    assert_eq!(
        got,
        vec![(conn(16, 16, Dir::UpRight), DIAG_LEN), (conn(16, 48, Dir::Up), TURN_LEN)]
    );
}

#[test]
fn candidates_from_a_diagonal_off_the_lattice() {
    // x is offset by half a cell: the axis turn goes back to Right
    let c = conn(16, 16, Dir::UpRight);
    let got = c.gen_connections();
    assert_eq!(
        got,
        vec![(conn(32, 32, Dir::UpRight), DIAG_LEN), (conn(64, 32, Dir::Right), TURN_LEN)]
    );
}

#[test]
fn estimate_is_the_weighted_euclidean_distance() {
    let c = conn(0, 0, Dir::Right);
    assert_eq!(Path::estimate(&c, &Pos(30, 40)), 11 * 50);
    assert_eq!(Path::estimate(&c, &Pos(320, 0)), 11 * 320);
    assert_eq!(Path::estimate(&c, &Pos(0, 0)), 0);
}

#[test]
fn dir_toward_octants() {
    assert_eq!(dir_toward(Pos(0, 0), Pos(0, 100)), Dir::Up);
    assert_eq!(dir_toward(Pos(0, 0), Pos(100, 0)), Dir::Right);
    assert_eq!(dir_toward(Pos(0, 0), Pos(100, 100)), Dir::UpRight);
    assert_eq!(dir_toward(Pos(0, 0), Pos(-100, -100)), Dir::DownLeft);
    assert_eq!(dir_toward(Pos(0, 0), Pos(100, -100)), Dir::DownRight);
    assert_eq!(dir_toward(Pos(0, 0), Pos(-100, 30)), Dir::Left);
}

#[test]
fn open_grid_straight_run_is_found_exactly() {
    // From (0,0) facing east to the cell ten straights away: the path is
    // ten consecutive straight pieces with total cost 10 * 32 * 10.
    let mut session = Path::new(Pos(0, 0), Dir::Right);
    let found = session.find_path(Pos(320, 0));
    let conns = found.expect("a straight run must be found");
    assert_eq!(conns.len(), 11);
    for (i, c) in conns.iter().enumerate() {
        assert_eq!(*c, conn(32 * i as i32, 0, Dir::Right));
    }
    session.add_path(Pos(320, 0));
    let pieces = session.into_pieces().expect("a tentative path exists");
    assert_eq!(pieces.len(), 10);
    let mut total_cost = 0;
    for p in pieces.iter() {
        assert!(matches!(p, Track::Straight(_, _)));
        total_cost += STRT_LEN * 10;
    }
    assert_eq!(total_cost, 10 * STRT_LEN * 10);
}

#[test]
fn consecutive_pieces_share_their_connections() {
    let mut session = Path::new(Pos(0, 0), Dir::Right);
    session.add_path(Pos(128, 64));
    let pieces = session.into_pieces().expect("a path to a reachable cell exists");
    assert!(!pieces.is_empty());
    for w in pieces.windows(2) {
        assert_eq!(w[0].end(), w[1].start());
    }
}

#[test]
fn search_is_deterministic() {
    let mut one = Path::new(Pos(0, 0), Dir::Right);
    let mut two = Path::new(Pos(0, 0), Dir::Right);
    let a = one.find_path(Pos(128, 64));
    let b = two.find_path(Pos(128, 64));
    assert_eq!(a, b);
    let c = one.find_path(Pos(128, 64));
    assert_eq!(a, c);
}

#[test]
fn goal_at_the_start_cell_returns_no_path() {
    // a goal at the start's own coordinates is "no path", never a
    // zero-length spurious path
    let mut session = Path::new(Pos(0, 0), Dir::Right);
    assert!(session.find_path(Pos(0, 0)).is_none());
    session.add_path(Pos(0, 0));
    assert!(session.into_pieces().is_none());
}

#[test]
fn unreachable_goal_returns_no_path() {
    // Every reachable coordinate is a multiple of the half cell, so a
    // goal off that lattice exhausts the budget and reports no path.
    let mut session = Path::new(Pos(0, 0), Dir::Right);
    let found = session.find_path(Pos(1, 0));
    assert!(found.is_none());
    session.add_path(Pos(1, 0));
    assert!(session.into_pieces().is_none());
}

#[test]
fn new_session_has_no_tentative_path() {
    let session = Path::new(Pos(64, 32), Dir::Up);
    assert!(session.into_pieces().is_none());
}

#[test]
fn alignment_term_carries_no_weight() {
    // the directional-alignment term is computed but weighted zero, so
    // the estimate does not depend on the facing direction
    let goal = Pos(30, 40);
    let reference = Path::estimate(&conn(0, 0, Dir::Right), &goal);
    for d in [Dir::Up, Dir::Left, Dir::Down, Dir::DownLeft, Dir::UpRight] {
        assert_eq!(Path::estimate(&conn(0, 0, d), &goal), reference);
    }
}

#[test]
fn search_records_a_diagnostic_trace() {
    let mut session = Path::new(Pos(0, 0), Dir::Right);
    assert!(session.debug_pieces().is_empty());
    session.add_path(Pos(320, 0));
    assert!(!session.debug_pieces().is_empty());
    assert!(session.tentative_pieces().is_some());
}
