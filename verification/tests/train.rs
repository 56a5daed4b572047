use rand::SeedableRng;

use trains::Connection;
use trains::Dir;
use trains::Network;
use trains::Pos;
use trains::Segment;
use trains::Track;
use trains::Train;

fn conn(x: i32, y: i32, d: Dir) -> Connection {
    Connection::new(Pos(x, y), d)
}

fn rng(seed: u64) -> rand::rngs::StdRng {
    rand::rngs::StdRng::seed_from_u64(seed)
}

/// One straight track from (0,0) east, `cells` cells long.
fn straight_net(cells: i32) -> Network {
    let mut net = Network::new();
    net.commit(Track::from_conns(
        conn(0, 0, Dir::Right),
        conn(32 * cells, 0, Dir::Right),
    ));
    net
}

/// A feeder track into a 2-way junction: from (32,0) east the head may
/// continue straight (id 1) or turn up-right (id 2).
fn junction_net() -> Network {
    let mut net = Network::new();
    net.commit(Track::from_conns(conn(0, 0, Dir::Right), conn(32, 0, Dir::Right)));
    net.commit(Track::from_conns(conn(32, 0, Dir::Right), conn(64, 0, Dir::Right)));
    net.commit(Track::from_conns(conn(32, 0, Dir::Right), conn(80, 16, Dir::UpRight)));
    net
}

#[test]
fn segment_distance_stays_in_range_after_a_large_step() {
    // one track of 32 units; a displacement of many track lengths must
    // still normalise back into [0, len]
    let net = straight_net(1);
    let mut r = rng(1);
    let mut seg = Segment::new(4_000, 0, 0);
    let _ = seg.update(&net, &mut r, 1_000_000);
    assert!(seg.dist_milli() >= 0);
    assert!(seg.dist_milli() <= 32_000);
}

#[test]
fn segment_bounces_at_a_dead_end() {
    let net = straight_net(1);
    let mut r = rng(1);
    let mut seg = Segment::new(4_000, 0, 0);
    // forward past the end: reflected back, direction reversed
    let _ = seg.update(&net, &mut r, 40_000);
    assert_eq!(seg.dist_milli(), 24_000);
    assert_eq!(seg.dir_sign(), -1);
    // backward past the start: reflected again
    let _ = seg.update(&net, &mut r, 30_000);
    assert_eq!(seg.dist_milli(), 6_000);
    assert_eq!(seg.dir_sign(), 1);
}

#[test]
fn segment_position_follows_the_track() {
    let net = straight_net(100);
    let mut r = rng(1);
    let mut seg = Segment::new(4_000, 0, 0);
    let _ = seg.update(&net, &mut r, 45_000);
    assert_eq!(seg.position(), Pos(45, 0));
}

#[test]
fn train_spawns_with_twice_the_configured_segment_count() {
    let net = straight_net(100);
    let mut r = rng(7);
    let train = Train::new(4_000, 0, 0, (4, 5_000, 20_000), &net, &mut r);
    assert_eq!(train.positions().len(), 8);
}

#[test]
fn train_coupling_distances_alternate_between_length_and_gap() {
    // two cars of 20 units with a 5 unit gap on a long straight track:
    // marker spacing must alternate between car length and gap, and must
    // not drift while the train travels
    let net = straight_net(100);
    let mut r = rng(7);
    let mut train = Train::new(4_000, 0, 0, (2, 5_000, 20_000), &net, &mut r);

    let expect_gaps = [20, 5, 20];
    let ps = train.positions();
    assert_eq!(ps.len(), 4);
    for (i, want) in expect_gaps.iter().enumerate() {
        let dx = (ps[i].0 - ps[i + 1].0).abs();
        let dy = (ps[i].1 - ps[i + 1].1).abs();
        assert_eq!(dy, 0);
        assert_eq!(dx, *want);
    }

    for _ in 0..10 {
        train.update(&net, &mut r);
    }
    let ps = train.positions();
    for (i, want) in expect_gaps.iter().enumerate() {
        let dx = (ps[i].0 - ps[i + 1].0).abs();
        let dy = (ps[i].1 - ps[i + 1].1).abs();
        assert_eq!(dy, 0);
        assert_eq!(dx, *want);
    }
    // the whole train moved 4 units per tick for 10 ticks
    assert_eq!(ps[3], Pos(40, 0));
    assert_eq!(ps[0], Pos(85, 0));
}

#[test]
fn trailing_segments_replay_the_heads_junction_choice() {
    // a 2-way junction: whichever branch the seeded head picks, every
    // trailing segment must take the same one when it arrives there
    let net = junction_net();
    let mut r = rng(42);
    let mut train = Train::new(4_000, 0, 0, (2, 5_000, 10_000), &net, &mut r);
    for _ in 0..10 {
        train.update(&net, &mut r);
    }
    let tracks = train.segment_tracks();
    let head_branch = tracks[0];
    assert!(head_branch == 1 || head_branch == 2);
    for t in tracks.iter() {
        assert_eq!(*t, head_branch);
    }
}

#[test]
fn junction_replay_is_reproducible_from_the_seed() {
    let net = junction_net();
    let run = |seed: u64| -> Vec<usize> {
        let mut r = rng(seed);
        let mut train = Train::new(4_000, 0, 0, (2, 5_000, 10_000), &net, &mut r);
        for _ in 0..10 {
            train.update(&net, &mut r);
        }
        train.segment_tracks()
    };
    assert_eq!(run(42), run(42));
    assert_eq!(run(7), run(7));
}

#[test]
fn train_crossing_onto_a_reversed_track_keeps_position_continuous() {
    // a second track committed end-to-start against the first: entering
    // it flips the segment's direction sign and re-expresses the
    // distance from the other end
    let mut net = Network::new();
    net.commit(Track::from_conns(conn(0, 0, Dir::Right), conn(32, 0, Dir::Right)));
    // drawn backwards: starts at (64,0) heading west, ends at (32,0)
    net.commit(Track::from_conns(conn(64, 0, Dir::Left), conn(32, 0, Dir::Left)));
    let mut r = rng(3);
    let mut seg = Segment::new(4_000, 0, 0);
    // advance 40 units: 8 units into the reversed neighbour
    let _ = seg.update(&net, &mut r, 40_000);
    assert_eq!(seg.track_id(), 1);
    assert_eq!(seg.dir_sign(), -1);
    assert_eq!(seg.dist_milli(), 24_000);
    assert_eq!(seg.position(), Pos(40, 0));
}
