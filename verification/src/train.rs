//! The train motion simulator: ordered chains of motion segments that
//! advance along the committed network, resolve junction branching, and
//! replay the head segment's branch decisions to the trailing segments.
//!
//! Distances along a track are in milli-units and speeds in milli-units
//! per tick, so every step of the simulation is exact integer arithmetic.

use std::collections::VecDeque;

use vstd::prelude::*;

use crate::geom::Pos;
use crate::network::Network;
use crate::path::Connection;
use crate::rng::rng_below;
use crate::track::spec_position_at;
use crate::track::Track;

verus! {

/// Upper bound on a segment speed, in milli-units per tick.
pub const SPEED_CAP: u64 = 1_000_000_000;

/// Upper bound on the distance one `update` call may advance a segment.
pub const TRAVEL_CAP: u64 = 100_000_000_000_000;

/// Transient bound on a segment's signed distance while it is being
/// normalised across track boundaries.
pub const DIST_BOUND: i64 = 200_000_000_000_000;

/// How far outside the track a distance lies: zero exactly when the
/// distance already lies within `[0, len]`.
pub open spec fn spec_excess(dist: int, len: int) -> int {
    if dist > len {
        dist - len
    } else if dist < 0 {
        -dist
    } else {
        0
    }
}

/// Distance offset of spawn marker `j` for a train whose tail sits at
/// `dist`: the head (marker 0) sits the whole trailing span ahead of the
/// tail, and each later marker steps back alternately by one segment
/// length and one inter-segment gap.
pub open spec fn spec_marker_offset(j: int, dist: int, seg_n: int, gap: int, len: int) -> int {
    dist + len * seg_n + gap * (seg_n - 1) - ((j + 1) / 2) * len - (j / 2) * gap
}

/// Consecutive spawn markers are spaced alternately by the segment
/// length and the inter-segment gap.
pub proof fn lemma_marker_spacing(j: int, dist: int, seg_n: int, gap: int, len: int)
    requires
        0 <= j,
        j + 1 < 2 * seg_n,
    ensures
        spec_marker_offset(j, dist, seg_n, gap, len) - spec_marker_offset(
            j + 1,
            dist,
            seg_n,
            gap,
            len,
        ) == if j % 2 == 0 {
            len
        } else {
            gap
        },
{
    let m = j / 2;
    if j % 2 == 0 {
        assert(j == 2 * m);
        assert((j + 1) / 2 == m && (j + 2) / 2 == m + 1 && (j + 1) / 2 == m);
        assert((m + 1) * len - m * len == len && m * gap - m * gap == 0) by (nonlinear_arith);
    } else {
        assert(j == 2 * m + 1);
        assert((j + 1) / 2 == m + 1 && (j + 2) / 2 == m + 1 && (j + 1) / 2 == m + 1 && j / 2 == m);
        assert((m + 1) * gap - m * gap == gap) by (nonlinear_arith);
    }
}

/// The signed distance one tick's travel moves segment `s` to, were no
/// track boundary in the way.
pub open spec fn spec_plain_step(s: Segment) -> int {
    if s.spec_dir() == 1i8 {
        s.spec_dist() + s.spec_speed()
    } else {
        s.spec_dist() - s.spec_speed()
    }
}

/// One tick's travel keeps `s` within its current track.
pub open spec fn step_stays_on_track(s: Segment, net: Network) -> bool {
    0 <= spec_plain_step(s) <= net.tracks@[s.spec_track() as int].spec_len_milli()
}

/// `s1` is `s0` advanced exactly one tick along its own track: the same
/// track, direction, speed and choice queue, the distance moved by the
/// speed, and the position re-interpolated.
pub open spec fn ticked_in_place(s0: Segment, s1: Segment, net: Network) -> bool {
    &&& s1.spec_track() == s0.spec_track()
    &&& s1.spec_dist() == spec_plain_step(s0)
    &&& s1.spec_dir() == s0.spec_dir()
    &&& s1.spec_speed() == s0.spec_speed()
    &&& s1.spec_turns() == s0.spec_turns()
    &&& s1.spec_pos() == spec_position_at(net.tracks@[s0.spec_track() as int], spec_plain_step(s0))
}

/// Every marker of `segs` sits on `track` at its spawn offset, facing
/// forward with an empty choice queue, its position interpolated on that
/// track.
pub open spec fn markers_laid_out(
    segs: Seq<Segment>,
    net: Network,
    speed: u64,
    track: usize,
    dist: int,
    seg_n: int,
    gap: int,
    len: int,
) -> bool {
    forall|w: int|
        #![trigger segs[w]]
        0 <= w < segs.len() ==> (segs[w].spec_track() == track && segs[w].spec_dist()
            == spec_marker_offset(w, dist, seg_n, gap, len) && segs[w].spec_dir() == 1i8
            && segs[w].spec_speed() == speed && segs[w].spec_turns() == Seq::<usize>::empty()
            && segs[w].spec_pos() == spec_position_at(
            net.tracks@[track as int],
            spec_marker_offset(w, dist, seg_n, gap, len),
        ))
}

/// The whole spawn span of a train with this configuration fits on the
/// spawn track, so no marker crosses a boundary while being laid out.
pub open spec fn spawn_span_fits(
    net: Network,
    track: usize,
    dist: u64,
    config: (usize, u64, u64),
) -> bool {
    dist + (config.2 as int) * (config.0 as int) + (config.1 as int) * (config.0 as int - 1)
        <= net.tracks@[track as int].spec_len_milli()
}

/// The transfer relation of one junction crossing. A segment that held
/// the choice queue `turns0` and arrived with non-negative incoming
/// distance `d` at a connection whose entry list is `lst` ends up as
/// `post`, and the recorded-choice queue goes from `q0` to `q1`: some
/// entry of the list is selected — by the front of `turns0` if one is
/// pending (clamped to the list, which a well-formed replay never
/// needs), else freely, with the free choice recorded onto `q1`; the
/// segment moves to that entry's track with the entry's sign, and a
/// reversed entry re-expresses the distance from the new track's far
/// end.
pub open spec fn crossing_transfer(
    net: Network,
    lst: Seq<(usize, i8)>,
    turns0: Seq<usize>,
    d: int,
    post: Segment,
    q0: Seq<usize>,
    q1: Seq<usize>,
) -> bool {
    exists|kk: int|
        {
            &&& 0 <= kk < lst.len()
            &&& (#[trigger] lst[kk]).0 == post.spec_track()
            &&& lst[kk].0 < net.tracks@.len()
            &&& post.spec_dir() == lst[kk].1
            &&& post.spec_dist() == (if lst[kk].1 == (-1) as i8 {
                net.tracks@[lst[kk].0 as int].spec_len_milli() - d
            } else {
                d
            })
            &&& (turns0.len() > 0 ==> {
                &&& kk == (if turns0[0] < lst.len() {
                    turns0[0] as int
                } else {
                    0
                })
                &&& post.spec_turns() == turns0.drop_first()
                &&& q1 == q0
            })
            &&& (turns0.len() == 0 ==> {
                &&& post.spec_turns() == turns0
                &&& q1 == q0.push(kk as usize)
            })
        }
}

/// One motion segment of a train: its speed, the track it currently
/// rides, the signed distance along that track, its direction sign
/// relative to the track's orientation, the cached world position, and
/// the FIFO queue of junction choices recorded by the head and not yet
/// consumed here.
pub struct Segment {
    speed: u64,
    track: usize,
    dist: i64,
    pos: Pos,
    dir: i8,
    turns: VecDeque<usize>,
}

impl Segment {
    pub closed spec fn spec_speed(self) -> u64 {
        self.speed
    }

    pub closed spec fn spec_track(self) -> usize {
        self.track
    }

    pub closed spec fn spec_dist(self) -> i64 {
        self.dist
    }

    pub closed spec fn spec_pos(self) -> Pos {
        self.pos
    }

    pub closed spec fn spec_dir(self) -> i8 {
        self.dir
    }

    pub closed spec fn spec_turns(self) -> Seq<usize> {
        self.turns@
    }

    /// The segment rides an existing track, within the track's length,
    /// with a unit direction sign and a bounded speed.
    pub open spec fn wf(self, net: Network) -> bool {
        &&& self.spec_dir() == 1i8 || self.spec_dir() == (-1) as i8
        &&& self.spec_track() < net.tracks@.len()
        &&& 0 <= self.spec_dist() <= net.tracks@[self.spec_track() as int].spec_len_milli()
        &&& self.spec_speed() <= SPEED_CAP
    }

    /// A fresh segment at `dist` milli-units along track `track`, facing
    /// forward, with an empty choice queue.
    pub fn new(speed: u64, track: usize, dist: i64) -> (s: Segment)
        ensures
            s.spec_speed() == speed,
            s.spec_track() == track,
            s.spec_dist() == dist,
            s.spec_pos() == Pos(0, 0),
            s.spec_dir() == 1i8,
            s.spec_turns() == Seq::<usize>::empty(),
    {
        Segment { speed, track, dist, pos: Pos(0, 0), dir: 1, turns: VecDeque::new() }
    }

    /// Queues one recorded junction choice for this segment to consume.
    pub fn push_conn(&mut self, conn: usize)
        ensures
            final(self).spec_turns() == old(self).spec_turns().push(conn),
            final(self).spec_speed() == old(self).spec_speed(),
            final(self).spec_track() == old(self).spec_track(),
            final(self).spec_dist() == old(self).spec_dist(),
            final(self).spec_pos() == old(self).spec_pos(),
            final(self).spec_dir() == old(self).spec_dir(),
    {
        self.turns.push_back(conn);
    }

    /// Crosses into an adjacent track through connection `conn`. With a
    /// queued choice pending, that choice selects the outgoing entry,
    /// replaying the head's decision; otherwise the entry is drawn at
    /// random and its index recorded into `queue` for the trailing
    /// segments. The direction sign becomes the entry's sign, and a
    /// reversed entry re-expresses the distance from the other end of
    /// the new track. Without any outgoing connection nothing changes
    /// and the caller bounces the segment.
    ///
    /// A queued index beyond the entry list would mean the network
    /// changed between the head's crossing and this one, which the
    /// append-only network rules out; such an index falls back to the
    /// first entry rather than aborting.
    pub fn update_track(
        &mut self,
        net: &Network,
        queue: &mut VecDeque<usize>,
        rng: &mut rand::rngs::StdRng,
        conn: &Connection,
    ) -> (r: Option<Track>)
        requires
            net.wf(),
            old(self).spec_dir() == 1i8 || old(self).spec_dir() == (-1) as i8,
            0 <= old(self).spec_dist() <= DIST_BOUND,
        ensures
            final(self).spec_speed() == old(self).spec_speed(),
            final(self).spec_pos() == old(self).spec_pos(),
            final(self).spec_turns() == old(self).spec_turns() || (old(self).spec_turns().len() > 0
                && final(self).spec_turns() == old(self).spec_turns().drop_first()),
            final(queue)@ == old(queue)@ || (old(self).spec_turns().len() == 0
                && final(self).spec_turns().len() == 0 && (exists|x: usize|
                final(queue)@ == old(queue)@.push(x))),
            match net.connections.lookup(*conn) {
                None => {
                    &&& r is None
                    &&& *final(self) == *old(self)
                    &&& final(queue)@ == old(queue)@
                },
                Some(lst) => {
                    &&& r is Some
                    &&& crossing_transfer(
                        *net,
                        lst,
                        old(self).spec_turns(),
                        old(self).spec_dist() as int,
                        *final(self),
                        old(queue)@,
                        final(queue)@,
                    )
                    &&& r->0 == net.tracks@[final(self).spec_track() as int]
                },
            },
    {
        let got = net.connections.get(conn);
        match got {
            Some(list) => {
                proof {
                    assert(net.connections.lookup(*conn) is Some);
                    assert(net.connections.lookup(*conn)->0 == list@);
                }
                let chosen: usize = match self.turns.pop_front() {
                    Some(c) => if c < list.len() {
                        c
                    } else {
                        0
                    },
                    None => {
                        let index: usize = if list.len() > 1 {
                            rng_below(rng, list.len())
                        } else {
                            0
                        };
                        queue.push_back(index);
                        index
                    },
                };
                let (trc, dirsign) = list[chosen];
                proof {
                    assert(list@[chosen as int].0 < net.tracks@.len() && (list@[chosen as int].1
                        == 1i8 || list@[chosen as int].1 == (-1) as i8));
                }
                let track_val: Track = net.tracks[trc];
                if self.dir != dirsign {
                    self.dir = -self.dir;
                }
                if self.dir == -1 {
                    proof {
                        assert(net.tracks@[trc as int].wf());
                        net.tracks@[trc as int].lemma_len_milli_bounds();
                    }
                    let len = track_val.len_milli();
                    self.dist = len as i64 - self.dist;
                }
                self.track = trc;
                proof {
                    assert(net.connections.lookup(*conn)->0[chosen as int] == list@[chosen as int]);
                }
                Some(track_val)
            },
            None => None,
        }
    }

    /// Moves the segment onto whichever track its current distance falls
    /// on: crossing forward through the track's end connection, backward
    /// through its reversed start connection, or bouncing in place at a
    /// dead end with the direction reversed and the distance reflected
    /// back into range. One call brings the out-of-range excess strictly
    /// down, so repeated calls terminate.
    pub fn use_next_track(
        &mut self,
        net: &Network,
        queue: &mut VecDeque<usize>,
        rng: &mut rand::rngs::StdRng,
        track: &Track,
    ) -> (r: Track)
        requires
            net.wf(),
            old(self).spec_dir() == 1i8 || old(self).spec_dir() == (-1) as i8,
            old(self).spec_track() < net.tracks@.len(),
            *track == net.tracks@[old(self).spec_track() as int],
            -DIST_BOUND <= old(self).spec_dist() <= DIST_BOUND,
        ensures
            final(self).spec_dir() == 1i8 || final(self).spec_dir() == (-1) as i8,
            final(self).spec_track() < net.tracks@.len(),
            r == net.tracks@[final(self).spec_track() as int],
            -DIST_BOUND <= final(self).spec_dist() <= DIST_BOUND,
            final(self).spec_speed() == old(self).spec_speed(),
            final(self).spec_pos() == old(self).spec_pos(),
            final(self).spec_turns() == old(self).spec_turns() || (old(self).spec_turns().len() > 0
                && final(self).spec_turns() == old(self).spec_turns().drop_first()),
            final(queue)@ == old(queue)@ || (old(self).spec_turns().len() == 0
                && final(self).spec_turns().len() == 0 && (exists|x: usize|
                final(queue)@ == old(queue)@.push(x))),
            spec_excess(old(self).spec_dist() as int, track.spec_len_milli()) > 0 ==> spec_excess(
                final(self).spec_dist() as int,
                r.spec_len_milli(),
            ) < spec_excess(old(self).spec_dist() as int, track.spec_len_milli()),
            spec_excess(old(self).spec_dist() as int, track.spec_len_milli()) == 0 ==> *final(self)
                == *old(self) && r == *track && final(queue)@ == old(queue)@,
            old(self).spec_dist() > track.spec_len_milli() ==> ({
                let d = old(self).spec_dist() - track.spec_len_milli();
                match net.connections.lookup(track.spec_end()) {
                    None => {
                        &&& final(self).spec_track() == old(self).spec_track()
                        &&& final(self).spec_dir() as int == -(old(self).spec_dir() as int)
                        &&& final(self).spec_dist() == track.spec_len_milli() - d
                        &&& final(self).spec_turns() == old(self).spec_turns()
                        &&& final(queue)@ == old(queue)@
                        &&& r == *track
                    },
                    Some(lst) => crossing_transfer(
                        *net,
                        lst,
                        old(self).spec_turns(),
                        d,
                        *final(self),
                        old(queue)@,
                        final(queue)@,
                    ),
                }
            }),
            old(self).spec_dist() < 0 ==> ({
                let d = -(old(self).spec_dist() as int);
                let key = Connection {
                    pos: track.spec_start().pos,
                    dir: crate::geom::spec_opposite(track.spec_start().dir),
                };
                match net.connections.lookup(key) {
                    None => {
                        &&& final(self).spec_track() == old(self).spec_track()
                        &&& final(self).spec_dir() as int == -(old(self).spec_dir() as int)
                        &&& final(self).spec_dist() == d
                        &&& final(self).spec_turns() == old(self).spec_turns()
                        &&& final(queue)@ == old(queue)@
                        &&& r == *track
                    },
                    Some(lst) => crossing_transfer(
                        *net,
                        lst,
                        old(self).spec_turns(),
                        d,
                        *final(self),
                        old(queue)@,
                        final(queue)@,
                    ),
                }
            }),
    {
        proof {
            assert(net.tracks@[old(self).spec_track() as int].wf());
            track.lemma_len_milli_bounds();
        }
        let len: i64 = track.len_milli() as i64;
        if self.dist > len {
            // crossing the forward end
            self.dist = self.dist - len;
            let conn = track.end();
            match self.update_track(net, queue, rng, &conn) {
                Some(t) => {
                    proof {
                        assert(net.tracks@[self.spec_track() as int].wf());
                        net.tracks@[self.spec_track() as int].lemma_len_milli_bounds();
                    }
                    t
                },
                None => {
                    self.dist = len - self.dist;
                    self.dir = -self.dir;
                    net.tracks[self.track]
                },
            }
        } else if self.dist < 0 {
            // crossing the backward end
            self.dist = -self.dist;
            let sta = track.start();
            let conn = Connection::new(sta.pos, sta.dir.opposite());
            match self.update_track(net, queue, rng, &conn) {
                Some(t) => {
                    proof {
                        assert(net.tracks@[self.spec_track() as int].wf());
                        net.tracks@[self.spec_track() as int].lemma_len_milli_bounds();
                    }
                    t
                },
                None => {
                    self.dir = -self.dir;
                    net.tracks[self.track]
                },
            }
        } else {
            net.tracks[self.track]
        }
    }

    /// Advances the segment by `travel` milli-units in its current
    /// direction and normalises across as many track boundaries as the
    /// displacement crosses. Afterwards the stored distance always lies
    /// within `[0, len]` of the track the segment ends on, and the
    /// cached world position is the interpolation of that distance.
    /// Returns the queue of junction choices recorded on the way, to be
    /// replayed by the trailing segments.
    #[verifier::loop_isolation(false)]
    pub fn update(
        &mut self,
        net: &Network,
        rng: &mut rand::rngs::StdRng,
        travel: u64,
    ) -> (q: VecDeque<usize>)
        requires
            net.wf(),
            old(self).wf(*net),
            travel <= TRAVEL_CAP,
        ensures
            final(self).wf(*net),
            final(self).spec_dist() <= net.tracks@[final(self).spec_track() as int].spec_len_milli(),
            final(self).spec_dist() >= 0,
            final(self).spec_pos() == spec_position_at(
                net.tracks@[final(self).spec_track() as int],
                final(self).spec_dist() as int,
            ),
            final(self).spec_speed() == old(self).spec_speed(),
            ({
                let stepped = if old(self).spec_dir() == 1i8 {
                    old(self).spec_dist() + travel
                } else {
                    old(self).spec_dist() - travel
                };
                (0 <= stepped && stepped <= net.tracks@[old(
                    self,
                ).spec_track() as int].spec_len_milli()) ==> {
                    &&& final(self).spec_track() == old(self).spec_track()
                    &&& final(self).spec_dist() == stepped
                    &&& final(self).spec_dir() == old(self).spec_dir()
                    &&& final(self).spec_turns() == old(self).spec_turns()
                    &&& q@ == Seq::<usize>::empty()
                }
            }),
            exists|n: int|
                0 <= n <= old(self).spec_turns().len() && final(self).spec_turns() == old(
                    self,
                ).spec_turns().skip(n),
            q@.len() > 0 ==> final(self).spec_turns().len() == 0,
    {
        let mut queue: VecDeque<usize> = VecDeque::new();
        proof {
            assert(net.tracks@[self.spec_track() as int].wf());
            net.tracks@[self.spec_track() as int].lemma_len_milli_bounds();
        }
        let step: i64 = travel as i64;
        let signed: i64 = if self.dir == 1 {
            step
        } else {
            -step
        };
        self.dist = self.dist + signed;
        let mut track: Track = net.tracks[self.track];
        let mut len: i64 = track.len_milli() as i64;
        proof {
            assert(old(self).spec_turns().skip(0) =~= old(self).spec_turns());
            assert(0 <= 0 <= old(self).spec_turns().len() && self.spec_turns() == old(
                self,
            ).spec_turns().skip(0));
        }
        while self.dist > len || self.dist < 0
            invariant
                self.spec_dir() == 1i8 || self.spec_dir() == (-1) as i8,
                self.spec_track() < net.tracks@.len(),
                track == net.tracks@[self.spec_track() as int],
                len as int == track.spec_len_milli(),
                -DIST_BOUND <= self.spec_dist() <= DIST_BOUND,
                self.spec_speed() == old(self).spec_speed(),
                self.spec_pos() == old(self).spec_pos(),
                ({
                    let stepped = if old(self).spec_dir() == 1i8 {
                        old(self).spec_dist() + travel
                    } else {
                        old(self).spec_dist() - travel
                    };
                    (0 <= stepped && stepped <= net.tracks@[old(
                        self,
                    ).spec_track() as int].spec_len_milli()) ==> {
                        &&& self.spec_track() == old(self).spec_track()
                        &&& self.spec_dist() == stepped
                        &&& self.spec_dir() == old(self).spec_dir()
                        &&& self.spec_turns() == old(self).spec_turns()
                        &&& queue@ == Seq::<usize>::empty()
                    }
                }),
                exists|n: int|
                    0 <= n <= old(self).spec_turns().len() && self.spec_turns() == old(
                        self,
                    ).spec_turns().skip(n),
                queue@.len() > 0 ==> self.spec_turns().len() == 0,
            decreases spec_excess(self.spec_dist() as int, len as int),
        {
            let ghost turns_pre = self.spec_turns();
            let t2 = self.use_next_track(net, &mut queue, rng, &track);
            track = t2;
            proof {
                let n0 = choose|n: int|
                    0 <= n <= old(self).spec_turns().len() && turns_pre == old(
                        self,
                    ).spec_turns().skip(n);
                if self.spec_turns() == turns_pre {
                    assert(0 <= n0 <= old(self).spec_turns().len() && self.spec_turns() == old(
                        self,
                    ).spec_turns().skip(n0));
                } else {
                    assert(turns_pre.len() > 0 && self.spec_turns() == turns_pre.drop_first());
                    assert(old(self).spec_turns().skip(n0).drop_first() =~= old(
                        self,
                    ).spec_turns().skip(n0 + 1));
                    assert(0 <= n0 + 1 <= old(self).spec_turns().len() && self.spec_turns() == old(
                        self,
                    ).spec_turns().skip(n0 + 1));
                }
                assert(net.tracks@[self.spec_track() as int].wf());
                net.tracks@[self.spec_track() as int].lemma_len_milli_bounds();
            }
            len = track.len_milli() as i64;
        }
        let d: u64 = self.dist as u64;
        self.pos = track.position_at(d);
        queue
    }

    /// The cached world position of the segment.
    pub fn position(&self) -> (r: Pos)
        ensures
            r == self.spec_pos(),
    {
        self.pos
    }

    /// The id of the track the segment currently rides.
    pub fn track_id(&self) -> (r: usize)
        ensures
            r == self.spec_track(),
    {
        self.track
    }

    /// The signed distance along the current track, in milli-units.
    pub fn dist_milli(&self) -> (r: i64)
        ensures
            r == self.spec_dist(),
    {
        self.dist
    }

    /// The direction sign relative to the current track's orientation.
    pub fn dir_sign(&self) -> (r: i8)
        ensures
            r == self.spec_dir(),
    {
        self.dir
    }
}

/// A train: at least two motion segments sharing one display colour. The
/// head segment (index 0) is the only one that makes new random junction
/// decisions; every other segment replays the head's recorded decisions.
pub struct Train {
    segments: Vec<Segment>,
    colour: (u8, u8, u8),
}

impl Train {
    pub closed spec fn spec_segments(self) -> Seq<Segment> {
        self.segments@
    }

    pub closed spec fn spec_colour(self) -> (u8, u8, u8) {
        self.colour
    }

    /// Every segment is well-formed on the network and the train has its
    /// minimum of two segments.
    pub open spec fn wf(self, net: Network) -> bool {
        &&& self.spec_segments().len() >= 2
        &&& forall|i: int|
            0 <= i < self.spec_segments().len() ==> (#[trigger] self.spec_segments()[i]).wf(net)
    }

    /// Spawns a train anchored on an existing track with its tail at
    /// `dist`: a virtual head is advanced through the whole trailing
    /// span first, recording every junction decision, and each trailing
    /// marker is then advanced to its own offset with those same
    /// decisions seeded into its queue, so the whole train starts laid
    /// out along one concrete branch. `config` is the segment count, the
    /// inter-segment gap and the segment length (gap and length in
    /// milli-units). The colour is drawn from the same generator.
    #[verifier::loop_isolation(false)]
    pub fn new(
        speed: u64,
        track: usize,
        dist: u64,
        config: (usize, u64, u64),
        net: &Network,
        rng: &mut rand::rngs::StdRng,
    ) -> (t: Train)
        requires
            net.wf(),
            track < net.tracks@.len(),
            speed <= SPEED_CAP,
            1 <= config.0 <= 10_000,
            config.1 <= 1_000_000_000,
            config.2 <= 1_000_000_000,
            dist <= 1_000_000_000_000,
        ensures
            t.wf(*net),
            t.spec_segments().len() == 2 * config.0,
            spawn_span_fits(*net, track, dist, config) ==> markers_laid_out(
                t.spec_segments(),
                *net,
                speed,
                track,
                dist as int,
                config.0 as int,
                config.1 as int,
                config.2 as int,
            ),
    {
        let (seg_n, seg_dist, seg_len) = config;
        proof {
            vstd::arithmetic::mul::lemma_mul_upper_bound(
                seg_len as int,
                1_000_000_000,
                seg_n as int,
                10_000,
            );
            vstd::arithmetic::mul::lemma_mul_upper_bound(
                seg_dist as int,
                1_000_000_000,
                seg_n as int - 1,
                10_000,
            );
        }
        let total_len: u64 = seg_len * (seg_n as u64) + seg_dist * (seg_n as u64 - 1);
        let head_target: u64 = dist + total_len;
        let mut head = Segment::new(speed, track, 0);
        proof {
            assert(net.tracks@[track as int].wf());
            net.tracks@[track as int].lemma_len_milli_bounds();
        }
        let queue = head.update(net, rng, head_target);
        let mut segments: Vec<Segment> = Vec::new();
        segments.push(head);
        let count: usize = 2 * seg_n - 1;
        let ghost fits = head_target as int <= net.tracks@[track as int].spec_len_milli();
        proof {
            if fits {
                assert(head_target as int == spec_marker_offset(
                    0,
                    dist as int,
                    seg_n as int,
                    seg_dist as int,
                    seg_len as int,
                ));
            }
        }
        let mut i: usize = 0;
        while i < count
            invariant
                i <= count,
                segments@.len() == i + 1,
                forall|w: int| 0 <= w < segments@.len() ==> (#[trigger] segments@[w]).wf(*net),
                fits ==> queue@ == Seq::<usize>::empty(),
                fits ==> markers_laid_out(
                    segments@,
                    *net,
                    speed,
                    track,
                    dist as int,
                    seg_n as int,
                    seg_dist as int,
                    seg_len as int,
                ),
            decreases count - i,
        {
            let j: u64 = i as u64 + 1;
            let a: u64 = (j + 1) / 2;
            let b: u64 = j / 2;
            proof {
                assert(a <= seg_n as u64);
                assert(b + 1 <= seg_n as u64);
                vstd::arithmetic::mul::lemma_mul_inequality(
                    a as int,
                    seg_n as int,
                    seg_len as int,
                );
                vstd::arithmetic::mul::lemma_mul_inequality(
                    b as int,
                    seg_n as int - 1,
                    seg_dist as int,
                );
                vstd::arithmetic::mul::lemma_mul_upper_bound(
                    a as int,
                    10_000,
                    seg_len as int,
                    1_000_000_000,
                );
                vstd::arithmetic::mul::lemma_mul_upper_bound(
                    b as int,
                    10_000,
                    seg_dist as int,
                    1_000_000_000,
                );
                vstd::arithmetic::mul::lemma_mul_is_commutative(seg_n as int, seg_len as int);
                vstd::arithmetic::mul::lemma_mul_is_commutative(
                    seg_n as int - 1,
                    seg_dist as int,
                );
                vstd::arithmetic::mul::lemma_mul_nonnegative(seg_dist as int, seg_n as int - 1);
                vstd::arithmetic::mul::lemma_mul_nonnegative(seg_len as int, seg_n as int);
                vstd::arithmetic::mul::lemma_mul_nonnegative(a as int, seg_len as int);
                vstd::arithmetic::mul::lemma_mul_nonnegative(b as int, seg_dist as int);
            }
            let off: u64 = head_target - a * seg_len - b * seg_dist;
            proof {
                assert(off as int == spec_marker_offset(
                    i + 1,
                    dist as int,
                    seg_n as int,
                    seg_dist as int,
                    seg_len as int,
                ));
            }
            let mut seg = Segment::new(speed, track, 0);
            let qn = queue.len();
            let mut qi: usize = 0;
            while qi < qn
                invariant
                    qi <= qn,
                    seg.spec_speed() == speed,
                    seg.spec_track() == track,
                    seg.spec_dist() == 0,
                    seg.spec_dir() == 1i8,
                    fits ==> seg.spec_turns() == Seq::<usize>::empty(),
                decreases qn - qi,
            {
                seg.push_conn(queue[qi]);
                qi += 1;
            }
            let _ = seg.update(net, rng, off);
            segments.push(seg);
            i += 1;
        }
        let c0 = rng_below(rng, 256) as u8;
        let c1 = rng_below(rng, 256) as u8;
        let c2 = rng_below(rng, 256) as u8;
        Train { segments, colour: (c0, c1, c2) }
    }

    /// One fixed tick: the head advances by its own speed and its fresh
    /// junction decisions are copied to every trailing segment before
    /// that segment's own update runs, so the whole train replays one
    /// identical branch sequence. While every segment's step stays on
    /// its own track — the steady state — each segment advances by
    /// exactly its speed and nothing else changes, so the spacing
    /// between segments never drifts.
    #[verifier::loop_isolation(false)]
    pub fn update(&mut self, net: &Network, rng: &mut rand::rngs::StdRng)
        requires
            net.wf(),
            old(self).wf(*net),
        ensures
            final(self).wf(*net),
            final(self).spec_segments().len() == old(self).spec_segments().len(),
            final(self).spec_colour() == old(self).spec_colour(),
            (forall|j: int|
                0 <= j < old(self).spec_segments().len() ==> step_stays_on_track(
                    #[trigger] old(self).spec_segments()[j],
                    *net,
                )) ==> forall|j: int|
                0 <= j < old(self).spec_segments().len() ==> ticked_in_place(
                    #[trigger] old(self).spec_segments()[j],
                    final(self).spec_segments()[j],
                    *net,
                ),
    {
        let ghost steady = forall|j: int|
            0 <= j < old(self).spec_segments().len() ==> step_stays_on_track(
                #[trigger] old(self).spec_segments()[j],
                *net,
            );
        let n = self.segments.len();
        let mut head = self.segments.remove(0);
        let sp = head.speed;
        let queue = head.update(net, rng, sp);
        self.segments.insert(0, head);
        proof {
            assert forall|w: int| 0 <= w < self.segments@.len() implies (
            #[trigger] self.segments@[w]).wf(*net) by {
                if w > 0 {
                    assert(self.segments@[w] == old(self).spec_segments()[w]);
                }
            }
        }
        let mut i: usize = 1;
        while i < n
            invariant
                n == self.segments@.len(),
                1 <= i <= n,
                forall|w: int| 0 <= w < self.segments@.len() ==> (#[trigger] self.segments@[w]).wf(
                    *net,
                ),
                self.colour == old(self).colour,
                steady ==> queue@ == Seq::<usize>::empty(),
                steady ==> forall|w: int|
                    0 <= w < i ==> ticked_in_place(
                        #[trigger] old(self).spec_segments()[w],
                        self.segments@[w],
                        *net,
                    ),
                steady ==> forall|w: int|
                    i <= w < n ==> self.segments@[w] == old(self).spec_segments()[w],
            decreases n - i,
        {
            let mut seg = self.segments.remove(i);
            let qn = queue.len();
            let mut qi: usize = 0;
            while qi < qn
                invariant
                    qi <= qn,
                    seg.wf(*net),
                    steady ==> seg == old(self).spec_segments()[i as int],
                decreases qn - qi,
            {
                seg.push_conn(queue[qi]);
                qi += 1;
            }
            let sp2 = seg.speed;
            let _ = seg.update(net, rng, sp2);
            let ghost removed = self.segments@;
            self.segments.insert(i, seg);
            proof {
                assert forall|w: int| 0 <= w < self.segments@.len() implies (
                #[trigger] self.segments@[w]).wf(*net) by {
                    if w < i {
                        assert(self.segments@[w] == removed[w]);
                    } else if w > i {
                        assert(self.segments@[w] == removed[w - 1]);
                    }
                }
                if steady {
                    assert forall|w: int| 0 <= w < i + 1 implies ticked_in_place(
                        #[trigger] old(self).spec_segments()[w],
                        self.segments@[w],
                        *net,
                    ) by {
                        if w < i {
                            assert(self.segments@[w] == removed[w]);
                        } else {
                            assert(self.segments@[w] == seg);
                        }
                    }
                    assert forall|w: int| i + 1 <= w < n implies self.segments@[w] == old(
                        self,
                    ).spec_segments()[w] by {
                        assert(self.segments@[w] == removed[w - 1]);
                    }
                }
            }
            i += 1;
        }
    }

    /// The current world position of every segment, head first, for the
    /// renderer.
    pub fn positions(&self) -> (r: Vec<Pos>)
        ensures
            r@.len() == self.spec_segments().len(),
            forall|i: int|
                0 <= i < r@.len() ==> r@[i] == (#[trigger] self.spec_segments()[i]).spec_pos(),
    {
        let n = self.segments.len();
        let mut out: Vec<Pos> = Vec::new();
        let mut i: usize = 0;
        while i < n
            invariant
                n == self.segments@.len(),
                i <= n,
                out@.len() == i,
                forall|w: int|
                    0 <= w < i ==> out@[w] == (#[trigger] self.segments@[w]).spec_pos(),
            decreases n - i,
        {
            out.push(self.segments[i].position());
            i += 1;
        }
        out
    }

    /// The id of the track each segment currently rides, head first.
    pub fn segment_tracks(&self) -> (r: Vec<usize>)
        ensures
            r@.len() == self.spec_segments().len(),
            forall|i: int|
                0 <= i < r@.len() ==> r@[i] == (#[trigger] self.spec_segments()[i]).spec_track(),
    {
        let n = self.segments.len();
        let mut out: Vec<usize> = Vec::new();
        let mut i: usize = 0;
        while i < n
            invariant
                n == self.segments@.len(),
                i <= n,
                out@.len() == i,
                forall|w: int|
                    0 <= w < i ==> out@[w] == (#[trigger] self.segments@[w]).spec_track(),
            decreases n - i,
        {
            out.push(self.segments[i].track_id());
            i += 1;
        }
        out
    }

    /// The shared display colour.
    pub fn colour(&self) -> (r: (u8, u8, u8))
        ensures
            r == self.spec_colour(),
    {
        self.colour
    }
}

} // verus!
