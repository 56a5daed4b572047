//! The committed track network: an append-only, index-addressed store of
//! track pieces together with the connection adjacency map that makes the
//! network navigable in both directions.

use vstd::prelude::*;

use crate::geom::spec_opposite;
use crate::path::Connection;
use crate::track::Track;

verus! {

/// One key of the adjacency map with its outgoing entries.
type MapEntry = (Connection, Vec<(usize, i8)>);

/// First-match lookup in an association list of map entries.
pub open spec fn seq_lookup(s: Seq<MapEntry>, c: Connection) -> Option<Seq<(usize, i8)>>
    decreases s.len(),
{
    if s.len() == 0 {
        None
    } else if s[0].0 == c {
        Some(s[0].1@)
    } else {
        seq_lookup(s.drop_first(), c)
    }
}

proof fn lemma_lookup_at(s: Seq<MapEntry>, j: int, c: Connection)
    requires
        0 <= j < s.len(),
        forall|k: int| 0 <= k < j ==> (#[trigger] s[k]).0 != c,
        s[j].0 == c,
    ensures
        seq_lookup(s, c) == Some(s[j].1@),
    decreases j,
{
    if j > 0 {
        assert(s.drop_first()[j - 1] == s[j]);
        assert(forall|k: int| 0 <= k < j - 1 ==> (#[trigger] s.drop_first()[k]).0 != c);
        lemma_lookup_at(s.drop_first(), j - 1, c);
    }
}

proof fn lemma_lookup_absent(s: Seq<MapEntry>, c: Connection)
    requires
        forall|k: int| 0 <= k < s.len() ==> (#[trigger] s[k]).0 != c,
    ensures
        seq_lookup(s, c) is None,
    decreases s.len(),
{
    if s.len() > 0 {
        assert(forall|k: int|
            0 <= k < s.drop_first().len() ==> (#[trigger] s.drop_first()[k]).0 != c);
        lemma_lookup_absent(s.drop_first(), c);
    }
}

proof fn lemma_lookup_push(s: Seq<MapEntry>, e: MapEntry, c: Connection)
    ensures
        seq_lookup(s.push(e), c) == if seq_lookup(s, c) is Some {
            seq_lookup(s, c)
        } else if e.0 == c {
            Some(e.1@)
        } else {
            None::<Seq<(usize, i8)>>
        },
    decreases s.len(),
{
    if s.len() == 0 {
        assert(s.push(e)[0] == e);
        if e.0 != c {
            assert(forall|k: int| 0 <= k < s.push(e).len() ==> (#[trigger] s.push(e)[k]).0 != c);
            lemma_lookup_absent(s.push(e), c);
        } else {
            lemma_lookup_at(s.push(e), 0, c);
        }
    } else {
        assert(s.push(e)[0] == s[0]);
        assert(s.push(e).drop_first() =~= s.drop_first().push(e));
        lemma_lookup_push(s.drop_first(), e, c);
    }
}

proof fn lemma_lookup_update(s: Seq<MapEntry>, s2: Seq<MapEntry>, j: int)
    requires
        0 <= j < s.len(),
        s2.len() == s.len(),
        forall|k: int| 0 <= k < s.len() && k != j ==> s2[k] == s[k],
        forall|k: int| 0 <= k < j ==> (#[trigger] s[k]).0 != s[j].0,
        s2[j].0 == s[j].0,
    ensures
        seq_lookup(s2, s[j].0) == Some(s2[j].1@),
        forall|c2: Connection| c2 != s[j].0 ==> seq_lookup(s2, c2) == seq_lookup(s, c2),
    decreases j,
{
    if j == 0 {
        assert(s2.drop_first() =~= s.drop_first());
        assert forall|c2: Connection| c2 != s[0].0 implies seq_lookup(s2, c2) == seq_lookup(
            s,
            c2,
        ) by {
            assert(seq_lookup(s2, c2) == seq_lookup(s2.drop_first(), c2));
            assert(seq_lookup(s, c2) == seq_lookup(s.drop_first(), c2));
        }
    } else {
        assert(s2[0] == s[0]);
        assert(s.drop_first()[j - 1] == s[j]);
        assert(forall|k: int|
            0 <= k < j - 1 ==> (#[trigger] s.drop_first()[k]).0 != s.drop_first()[j - 1].0);
        assert(forall|k: int|
            0 <= k < s.drop_first().len() && k != j - 1 ==> s2.drop_first()[k]
                == s.drop_first()[k]);
        lemma_lookup_update(s.drop_first(), s2.drop_first(), j - 1);
        assert forall|c2: Connection| c2 != s[j].0 implies seq_lookup(s2, c2) == seq_lookup(
            s,
            c2,
        ) by {
            if s[0].0 == c2 {
                assert(seq_lookup(s2, c2) == Some(s2[0].1@));
                assert(seq_lookup(s, c2) == Some(s[0].1@));
            } else {
                assert(seq_lookup(s2, c2) == seq_lookup(s2.drop_first(), c2));
                assert(seq_lookup(s, c2) == seq_lookup(s.drop_first(), c2));
            }
        }
    }
}

/// An element stays in a sequence after a push.
proof fn lemma_seq_contains_push<A>(s: Seq<A>, x: A, y: A)
    requires
        s.contains(x),
    ensures
        s.push(y).contains(x),
{
    let i = choose|i: int| 0 <= i < s.len() && s[i] == x;
    assert(s.push(y)[i] == x);
}

/// Appending an entry under one key keeps every entry of every key: what
/// a key's list contained before one `push_entry`-shaped change, it still
/// contains afterwards.
proof fn lemma_entry_preserved(
    m0: ConnectionMap,
    m1: ConnectionMap,
    key: Connection,
    id2: usize,
    sign2: i8,
    k: Connection,
    x: (usize, i8),
)
    requires
        m1.lookup(key) == match m0.lookup(key) {
            Some(s) => Some(s.push((id2, sign2))),
            None => Some(seq![(id2, sign2)]),
        },
        forall|c2: Connection| c2 != key ==> #[trigger] m1.lookup(c2) == m0.lookup(c2),
        m0.lookup(k) is Some,
        m0.lookup(k)->0.contains(x),
    ensures
        m1.lookup(k) is Some,
        m1.lookup(k)->0.contains(x),
{
    if k == key {
        lemma_seq_contains_push(m0.lookup(k)->0, x, (id2, sign2));
    }
}

/// Mapping from a connection to the ordered list of `(track id, sign)`
/// pairs reachable through it: sign +1 when the connection is the track's
/// start, -1 when it is the track's end approached with direction
/// reversed.
pub struct ConnectionMap {
    entries: Vec<MapEntry>,
}

impl ConnectionMap {
    /// The list of `(track id, sign)` entries keyed by `c`, if any.
    pub closed spec fn lookup(self, c: Connection) -> Option<Seq<(usize, i8)>> {
        seq_lookup(self.entries@, c)
    }

    pub fn new() -> (m: ConnectionMap)
        ensures
            forall|c: Connection| #[trigger] m.lookup(c) is None,
    {
        let m = ConnectionMap { entries: Vec::new() };
        proof {
            assert forall|c: Connection| #[trigger] m.lookup(c) is None by {
                lemma_lookup_absent(m.entries@, c);
            }
        }
        m
    }

    /// The entry list keyed by `c`, or none when no committed track
    /// touches that connection.
    pub fn get(&self, c: &Connection) -> (r: Option<&Vec<(usize, i8)>>)
        ensures
            match r {
                Some(v) => self.lookup(*c) == Some(v@),
                None => self.lookup(*c) is None,
            },
    {
        let n = self.entries.len();
        let mut j: usize = 0;
        while j < n
            invariant
                n == self.entries@.len(),
                j <= n,
                forall|k: int| 0 <= k < j ==> (#[trigger] self.entries@[k]).0 != *c,
            decreases n - j,
        {
            if self.entries[j].0 == *c {
                proof {
                    lemma_lookup_at(self.entries@, j as int, *c);
                }
                return Some(&self.entries[j].1);
            }
            j += 1;
        }
        proof {
            lemma_lookup_absent(self.entries@, *c);
        }
        None
    }

    /// Appends `(id, sign)` to the list keyed by `c`, creating the key if
    /// it is new; no other key's list changes.
    pub fn push_entry(&mut self, c: Connection, id: usize, sign: i8)
        ensures
            final(self).lookup(c) == match old(self).lookup(c) {
                Some(s) => Some(s.push((id, sign))),
                None => Some(seq![(id, sign)]),
            },
            forall|c2: Connection|
                c2 != c ==> #[trigger] final(self).lookup(c2) == old(self).lookup(c2),
    {
        let n = self.entries.len();
        let mut j: usize = 0;
        while j < n
            invariant
                n == self.entries@.len(),
                j <= n,
                self.entries@ == old(self).entries@,
                forall|k: int| 0 <= k < j ==> (#[trigger] self.entries@[k]).0 != c,
            decreases n - j,
        {
            if self.entries[j].0 == c {
                proof {
                    lemma_lookup_at(self.entries@, j as int, c);
                }
                let mut pair = self.entries.remove(j);
                pair.1.push((id, sign));
                self.entries.insert(j, pair);
                proof {
                    assert(self.entries@.len() == old(self).entries@.len());
                    assert(forall|k: int|
                        0 <= k < old(self).entries@.len() && k != j ==> self.entries@[k]
                            == old(self).entries@[k]);
                    assert(self.entries@[j as int].0 == c);
                    assert(self.entries@[j as int].1@ == old(self).entries@[j as int].1@.push(
                        (id, sign),
                    ));
                    lemma_lookup_update(old(self).entries@, self.entries@, j as int);
                }
                return ;
            }
            j += 1;
        }
        proof {
            lemma_lookup_absent(self.entries@, c);
        }
        let mut list: Vec<(usize, i8)> = Vec::new();
        list.push((id, sign));
        self.entries.push((c, list));
        proof {
            assert forall|c2: Connection| true implies #[trigger] seq_lookup(
                self.entries@,
                c2,
            ) == if seq_lookup(old(self).entries@, c2) is Some {
                seq_lookup(old(self).entries@, c2)
            } else if c == c2 {
                Some(seq![(id, sign)])
            } else {
                None::<Seq<(usize, i8)>>
            } by {
                lemma_lookup_push(old(self).entries@, self.entries@.last(), c2);
            }
            assert(final(self).lookup(c) == Some(seq![(id, sign)]));
        }
    }
}

/// The key under which a track's end is entered in the adjacency map: the
/// end position with the facing direction reversed, so that the track can
/// be discovered and traversed backward.
pub open spec fn end_key(t: Track) -> Connection {
    Connection { pos: t.spec_end().pos, dir: spec_opposite(t.spec_end().dir) }
}

/// A key's entry list with one entry appended, a fresh singleton list if
/// the key was absent.
pub open spec fn appended(list: Option<Seq<(usize, i8)>>, x: (usize, i8)) -> Seq<(usize, i8)> {
    match list {
        Some(s) => s.push(x),
        None => seq![x],
    }
}

/// The append-only track network: committed pieces addressed by their
/// permanent integer id, plus the adjacency map over their endpoints.
pub struct Network {
    pub tracks: Vec<Track>,
    pub connections: ConnectionMap,
}

impl Network {
    /// Invariant of the committed network. Every committed track is
    /// well-formed and contributes exactly its two map entries: one under
    /// its start connection with sign +1 and one under its reversed end
    /// connection with sign -1; and every map entry names a committed
    /// track id with a unit sign.
    pub open spec fn wf(self) -> bool {
        &&& forall|id: int|
            0 <= id < self.tracks@.len() ==> {
                &&& (#[trigger] self.tracks@[id]).wf()
                &&& self.connections.lookup(self.tracks@[id].spec_start()) is Some
                &&& self.connections.lookup(self.tracks@[id].spec_start())->0.contains(
                    (id as usize, 1i8),
                )
                &&& self.connections.lookup(end_key(self.tracks@[id])) is Some
                &&& self.connections.lookup(end_key(self.tracks@[id]))->0.contains(
                    (id as usize, (-1) as i8),
                )
            }
        &&& forall|c: Connection|
            #[trigger] self.connections.lookup(c) is Some ==> {
                let s = self.connections.lookup(c)->0;
                s.len() >= 1 && forall|k: int|
                    0 <= k < s.len() ==> (#[trigger] s[k]).0 < self.tracks@.len() && (s[k].1
                        == 1i8 || s[k].1 == (-1) as i8)
            }
    }

    pub fn new() -> (n: Network)
        ensures
            n.wf(),
            n.tracks@.len() == 0,
    {
        Network { tracks: Vec::new(), connections: ConnectionMap::new() }
    }

    /// Every committed track is reachable both ways through the map: the
    /// entry list of its start connection carries `(id, +1)` and the
    /// entry list of its reversed end connection carries `(id, -1)`.
    pub proof fn lemma_committed_track_entries(self, id: int)
        requires
            self.wf(),
            0 <= id < self.tracks@.len(),
        ensures
            self.connections.lookup(self.tracks@[id].spec_start()) is Some,
            self.connections.lookup(self.tracks@[id].spec_start())->0.contains((id as usize, 1i8)),
            self.connections.lookup(end_key(self.tracks@[id])) is Some,
            self.connections.lookup(end_key(self.tracks@[id]))->0.contains(
                (id as usize, (-1) as i8),
            ),
    {
    }

    /// Commits one track piece: pushes it at the next id and inserts its
    /// two adjacency entries. Ids are never reused or reordered.
    pub fn commit(&mut self, t: Track)
        requires
            old(self).wf(),
            t.wf(),
        ensures
            final(self).wf(),
            final(self).tracks@ == old(self).tracks@.push(t),
            forall|c: Connection|
                c != t.spec_start() && c != end_key(t)
                    ==> #[trigger] final(self).connections.lookup(c)
                    == old(self).connections.lookup(c),
            ({
                let id = old(self).tracks@.len() as usize;
                let sta = t.spec_start();
                let ek = end_key(t);
                if sta == ek {
                    final(self).connections.lookup(sta) == Some(
                        appended(old(self).connections.lookup(sta), (id, 1i8)).push(
                            (id, (-1) as i8),
                        ),
                    )
                } else {
                    final(self).connections.lookup(sta) == Some(
                        appended(old(self).connections.lookup(sta), (id, 1i8)),
                    ) && final(self).connections.lookup(ek) == Some(
                        appended(old(self).connections.lookup(ek), (id, (-1) as i8)),
                    )
                }
            }),
    {
        let i = self.tracks.len();
        let sta = t.start();
        let end = t.end();
        let endk = Connection::new(end.pos, end.dir.opposite());
        let ghost m0 = self.connections;
        self.connections.push_entry(sta, i, 1);
        let ghost m1 = self.connections;
        self.connections.push_entry(endk, i, -1);
        let ghost m2 = self.connections;
        self.tracks.push(t);
        proof {
            let new_tracks = self.tracks@;
            let new_pair1 = (i, 1i8);
            let new_pair2 = (i, (-1) as i8);
            // The freshly inserted entries are present.
            assert(m1.lookup(sta) is Some && m1.lookup(sta)->0.contains(new_pair1)) by {
                match m0.lookup(sta) {
                    Some(s) => {
                        assert(s.push(new_pair1)[s.len() as int] == new_pair1);
                    },
                    None => {
                        assert(seq![new_pair1][0] == new_pair1);
                    },
                }
            }
            assert(m2.lookup(endk) is Some && m2.lookup(endk)->0.contains(new_pair2)) by {
                match m1.lookup(endk) {
                    Some(s) => {
                        assert(s.push(new_pair2)[s.len() as int] == new_pair2);
                    },
                    None => {
                        assert(seq![new_pair2][0] == new_pair2);
                    },
                }
            }
            lemma_entry_preserved(m1, m2, endk, i, -1i8, sta, new_pair1);
            assert forall|id: int| 0 <= id < new_tracks.len() implies {
                &&& (#[trigger] new_tracks[id]).wf()
                &&& m2.lookup(new_tracks[id].spec_start()) is Some
                &&& m2.lookup(new_tracks[id].spec_start())->0.contains((id as usize, 1i8))
                &&& m2.lookup(end_key(new_tracks[id])) is Some
                &&& m2.lookup(end_key(new_tracks[id]))->0.contains((id as usize, (-1) as i8))
            } by {
                if id < old(self).tracks@.len() {
                    let tr = old(self).tracks@[id];
                    assert(new_tracks[id] == tr);
                    let x1 = (id as usize, 1i8);
                    let x2 = (id as usize, (-1) as i8);
                    lemma_entry_preserved(m0, m1, sta, i, 1i8, tr.spec_start(), x1);
                    lemma_entry_preserved(m1, m2, endk, i, -1i8, tr.spec_start(), x1);
                    lemma_entry_preserved(m0, m1, sta, i, 1i8, end_key(tr), x2);
                    lemma_entry_preserved(m1, m2, endk, i, -1i8, end_key(tr), x2);
                } else {
                    assert(new_tracks[id] == t);
                    assert(t.spec_start() == sta);
                    assert(end_key(t) == endk);
                }
            }
            // Every entry of every key still names a committed track.
            assert forall|c: Connection| #[trigger] m2.lookup(c) is Some implies {
                let s = m2.lookup(c)->0;
                s.len() >= 1 && forall|k: int|
                    0 <= k < s.len() ==> (#[trigger] s[k]).0 < new_tracks.len() && (s[k].1 == 1i8
                        || s[k].1 == (-1) as i8)
            } by {
                let s = m2.lookup(c)->0;
                assert forall|k: int| 0 <= k < s.len() implies (#[trigger] s[k]).0
                    < new_tracks.len() && (s[k].1 == 1i8 || s[k].1 == (-1) as i8) by {
                    if c == endk && m1.lookup(endk) is Some && k == m1.lookup(endk)->0.len() {
                        assert(s[k] == new_pair2);
                    } else if c == endk && m1.lookup(endk) is None {
                        assert(s =~= seq![new_pair2]);
                        assert(s[k] == new_pair2);
                    } else {
                        // the entry was already present before the second push
                        assert(m1.lookup(c) is Some && m1.lookup(c)->0[k] == s[k]);
                        let s1 = m1.lookup(c)->0;
                        if c == sta && m0.lookup(sta) is Some && k == m0.lookup(sta)->0.len() {
                            assert(s1[k] == new_pair1);
                        } else if c == sta && m0.lookup(sta) is None {
                            assert(s1 =~= seq![new_pair1]);
                            assert(s1[k] == new_pair1);
                        } else {
                            assert(m0.lookup(c) is Some && m0.lookup(c)->0[k] == s1[k]);
                        }
                    }
                }
            }
        }
    }
}

} // verus!
