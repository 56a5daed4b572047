use trains::Connection;
use trains::Dir;
use trains::Pos;
use trains::Track;

fn conn(x: i32, y: i32, d: Dir) -> Connection {
    Connection::new(Pos(x, y), d)
}

#[test]
fn classification_straight() {
    let t = Track::from_conns(conn(0, 0, Dir::Right), conn(32, 0, Dir::Right));
    assert!(matches!(t, Track::Straight(_, _)));
    let t = Track::from_conns(conn(5, 7, Dir::Up), conn(5, 100, Dir::Up));
    assert!(matches!(t, Track::Straight(_, _)));
}

#[test]
fn classification_diagonal() {
    let t = Track::from_conns(conn(0, 0, Dir::UpRight), conn(16, 16, Dir::UpRight));
    assert!(matches!(t, Track::Diagonal(_, _)));
    let t = Track::from_conns(conn(10, 0, Dir::DownLeft), conn(-6, -16, Dir::DownLeft));
    assert!(matches!(t, Track::Diagonal(_, _)));
}

#[test]
fn classification_turn() {
    let t = Track::from_conns(conn(0, 0, Dir::Right), conn(48, 16, Dir::UpRight));
    assert!(matches!(t, Track::Turn(_, _)));
    // equal endpoints classify as a turn as well
    let t = Track::from_conns(conn(0, 0, Dir::Right), conn(0, 0, Dir::Left));
    assert!(matches!(t, Track::Turn(_, _)));
}

#[test]
fn endpoints_are_kept() {
    let a = conn(0, 0, Dir::Right);
    let b = conn(48, 16, Dir::UpRight);
    let t = Track::from_conns(a, b);
    assert_eq!(t.start(), a);
    assert_eq!(t.end(), b);
}

#[test]
fn lengths_in_milli_units() {
    let s = Track::from_conns(conn(0, 0, Dir::Right), conn(32, 0, Dir::Right));
    assert_eq!(s.len_milli(), 32_000);
    let d = Track::from_conns(conn(0, 0, Dir::UpRight), conn(16, 16, Dir::UpRight));
    assert_eq!(d.len_milli(), 16 * 1414);
    let t = Track::from_conns(conn(0, 0, Dir::Right), conn(48, 16, Dir::UpRight));
    assert_eq!(t.len_milli(), 52_000);
}

#[test]
fn interpolation_meets_endpoints_straight() {
    let t = Track::from_conns(conn(0, 0, Dir::Right), conn(32, 0, Dir::Right));
    let n = t.len_milli();
    assert_eq!(t.position_at(0), Pos(0, 0));
    assert_eq!(t.position_at(n), Pos(32, 0));
    assert_eq!(t.position_at(n / 2), Pos(16, 0));
}

#[test]
fn interpolation_meets_endpoints_diagonal() {
    let t = Track::from_conns(conn(0, 0, Dir::UpRight), conn(16, 16, Dir::UpRight));
    let n = t.len_milli();
    assert_eq!(t.position_at(0), Pos(0, 0));
    assert_eq!(t.position_at(n), Pos(16, 16));
    assert_eq!(t.position_at(n / 2), Pos(8, 8));
}

#[test]
fn interpolation_meets_endpoints_turn() {
    let t = Track::from_conns(conn(0, 0, Dir::Right), conn(48, 16, Dir::UpRight));
    let n = t.len_milli();
    assert_eq!(t.position_at(0), Pos(0, 0));
    assert_eq!(t.position_at(n), Pos(48, 16));
    // halfway the curve passes through the tangent intersection point
    assert_eq!(t.position_at(n / 2), Pos(32, 0));
}

#[test]
fn turn_interpolation_is_monotonic_in_x() {
    let t = Track::from_conns(conn(0, 0, Dir::Right), conn(48, 16, Dir::UpRight));
    let n = t.len_milli();
    let mut last_x = i32::MIN;
    let mut d = 0;
    while d <= n {
        let p = t.position_at(d);
        assert!(p.0 >= last_x);
        last_x = p.0;
        d += 1000;
    }
}

#[test]
fn interpolation_backward_pieces() {
    let t = Track::from_conns(conn(64, 0, Dir::Left), conn(32, 0, Dir::Left));
    let n = t.len_milli();
    assert_eq!(n, 32_000);
    assert_eq!(t.position_at(0), Pos(64, 0));
    assert_eq!(t.position_at(n), Pos(32, 0));
    assert_eq!(t.position_at(n / 2), Pos(48, 0));
}
