use trains::Connection;
use trains::Dir;
use trains::Network;
use trains::Pos;
use trains::Track;

fn conn(x: i32, y: i32, d: Dir) -> Connection {
    Connection::new(Pos(x, y), d)
}

#[test]
fn commit_inserts_both_adjacency_entries() {
    let mut net = Network::new();
    let t = Track::from_conns(conn(0, 0, Dir::Right), conn(32, 0, Dir::Right));
    net.commit(t);

    // keyed by the start connection, sign +1
    let fwd = net.connections.get(&conn(0, 0, Dir::Right)).expect("start key exists");
    assert_eq!(*fwd, vec![(0usize, 1i8)]);

    // keyed by the end connection with the direction flipped, sign -1
    let bwd = net.connections.get(&conn(32, 0, Dir::Left)).expect("reversed end key exists");
    assert_eq!(*bwd, vec![(0usize, -1i8)]);

    // the unflipped end connection is not a key of its own
    assert!(net.connections.get(&conn(32, 0, Dir::Right)).is_none());
}

#[test]
fn ids_are_appended_in_order_and_never_reused() {
    let mut net = Network::new();
    let t0 = Track::from_conns(conn(0, 0, Dir::Right), conn(32, 0, Dir::Right));
    let t1 = Track::from_conns(conn(32, 0, Dir::Right), conn(64, 0, Dir::Right));
    net.commit(t0);
    net.commit(t1);
    assert_eq!(net.tracks.len(), 2);
    assert_eq!(net.tracks[0].start(), conn(0, 0, Dir::Right));
    assert_eq!(net.tracks[1].start(), conn(32, 0, Dir::Right));

    let fwd0 = net.connections.get(&conn(0, 0, Dir::Right)).expect("key exists");
    assert_eq!(*fwd0, vec![(0usize, 1i8)]);
    let fwd1 = net.connections.get(&conn(32, 0, Dir::Right)).expect("key exists");
    assert_eq!(*fwd1, vec![(1usize, 1i8)]);
}

#[test]
fn shared_connection_collects_a_junction() {
    // two tracks leaving the same connection: a 2-way junction
    let mut net = Network::new();
    let t0 = Track::from_conns(conn(0, 0, Dir::Right), conn(32, 0, Dir::Right));
    let t1 = Track::from_conns(conn(32, 0, Dir::Right), conn(64, 0, Dir::Right));
    let t2 = Track::from_conns(conn(32, 0, Dir::Right), conn(80, 16, Dir::UpRight));
    net.commit(t0);
    net.commit(t1);
    net.commit(t2);
    let at_junction = net.connections.get(&conn(32, 0, Dir::Right)).expect("junction key");
    assert_eq!(*at_junction, vec![(1usize, 1i8), (2usize, 1i8)]);
}

#[test]
fn committing_a_full_path_links_every_piece() {
    let mut net = Network::new();
    let mut session = trains::Path::new(Pos(0, 0), Dir::Right);
    session.add_path(Pos(160, 0));
    let pieces = session.into_pieces().expect("path found");
    for p in pieces {
        net.commit(p);
    }
    assert_eq!(net.tracks.len(), 5);
    for id in 0..net.tracks.len() {
        let t = net.tracks[id];
        let fwd = net.connections.get(&t.start()).expect("start key");
        assert!(fwd.contains(&(id, 1i8)));
        let mut back = t.end();
        back.dir = back.dir.opposite();
        let bwd = net.connections.get(&back).expect("reversed end key");
        assert!(bwd.contains(&(id, -1i8)));
    }
}
