//! Attachment points on the grid (`Connection`), the candidate moves the
//! pathfinder may take from one, and the best-first search session
//! (`Path`) that turns a cursor position into a chain of track pieces.

use vstd::prelude::*;

use crate::geom::spec_abs;
use crate::geom::spec_cell_rem;
use crate::geom::spec_difference;
use crate::geom::pos_ok;
use crate::geom::Dir;
use crate::geom::Pos;
use crate::geom::COORD_LIMIT;
use crate::track::Track;
use crate::track::DIAG_LEN;
use crate::track::STRT_LEN;
use crate::track::TURN_LEN;

verus! {

/// A position together with a facing direction: an oriented attachment
/// point, and the node type of the search graph and the adjacency map.
/// Two connections are the same graph node exactly when both fields match.
#[derive(Debug, Copy, Clone, PartialEq, Eq, Hash, Structural)]
pub struct Connection {
    pub pos: Pos,
    pub dir: Dir,
}

impl Connection {
    pub fn new(pos: Pos, dir: Dir) -> (c: Connection)
        ensures
            c.pos == pos,
            c.dir == dir,
    {
        Connection { pos, dir }
    }
}

/// `p` displaced by `(dx, dy)`.
pub open spec fn spec_pos_off(p: Pos, dx: int, dy: int) -> Pos {
    Pos((p.0 + dx) as i32, (p.1 + dy) as i32)
}

/// Whether the x-coordinate lies on the lattice-aligned sub-grid; the
/// parity decides which axis direction a diagonal piece may turn onto.
pub open spec fn spec_on_lattice_x(p: Pos) -> bool {
    spec_cell_rem(p.0 as int) == 0
}

/// A candidate move of the search graph: the connection reached and the
/// length of the piece that reaches it, used as its cost.
pub open spec fn spec_cand(p: Pos, dx: int, dy: int, dir: Dir, cost: i32) -> (Connection, i32) {
    (Connection { pos: spec_pos_off(p, dx, dy), dir }, cost)
}

/// The two or three moves that can extend a path at `c`: from an axis
/// direction a turn onto either neighbouring diagonal or a straight
/// continuation; from a diagonal its continuation and the one axis turn
/// allowed by the sub-grid parity of the x-coordinate.
pub open spec fn spec_candidates(c: Connection) -> Seq<(Connection, i32)> {
    let p = c.pos;
    match c.dir {
        Dir::Right => seq![
            spec_cand(p, 48, -16, Dir::DownRight, TURN_LEN),
            spec_cand(p, 32, 0, Dir::Right, STRT_LEN),
            spec_cand(p, 48, 16, Dir::UpRight, TURN_LEN),
        ],
        Dir::UpRight => seq![
            spec_cand(p, 16, 16, Dir::UpRight, DIAG_LEN),
            if spec_on_lattice_x(p) {
                spec_cand(p, 16, 48, Dir::Up, TURN_LEN)
            } else {
                spec_cand(p, 48, 16, Dir::Right, TURN_LEN)
            },
        ],
        Dir::DownRight => seq![
            spec_cand(p, 16, -16, Dir::DownRight, DIAG_LEN),
            if spec_on_lattice_x(p) {
                spec_cand(p, 16, -48, Dir::Down, TURN_LEN)
            } else {
                spec_cand(p, 48, -16, Dir::Right, TURN_LEN)
            },
        ],
        Dir::Up => seq![
            spec_cand(p, 16, 48, Dir::UpRight, TURN_LEN),
            spec_cand(p, 0, 32, Dir::Up, STRT_LEN),
            spec_cand(p, -16, 48, Dir::UpLeft, TURN_LEN),
        ],
        Dir::Down => seq![
            spec_cand(p, -16, -48, Dir::DownLeft, TURN_LEN),
            spec_cand(p, 0, -32, Dir::Down, STRT_LEN),
            spec_cand(p, 16, -48, Dir::DownRight, TURN_LEN),
        ],
        Dir::Left => seq![
            spec_cand(p, -48, 16, Dir::UpLeft, TURN_LEN),
            spec_cand(p, -32, 0, Dir::Left, STRT_LEN),
            spec_cand(p, -48, -16, Dir::DownLeft, TURN_LEN),
        ],
        Dir::UpLeft => seq![
            spec_cand(p, -16, 16, Dir::UpLeft, DIAG_LEN),
            if spec_on_lattice_x(p) {
                spec_cand(p, -16, 48, Dir::Up, TURN_LEN)
            } else {
                spec_cand(p, -48, 16, Dir::Left, TURN_LEN)
            },
        ],
        Dir::DownLeft => seq![
            spec_cand(p, -16, -16, Dir::DownLeft, DIAG_LEN),
            if spec_on_lattice_x(p) {
                spec_cand(p, -16, -48, Dir::Down, TURN_LEN)
            } else {
                spec_cand(p, -48, -16, Dir::Left, TURN_LEN)
            },
        ],
    }
}

/// `b` is reachable from `a` by a single candidate move.
pub open spec fn valid_step(a: Connection, b: Connection) -> bool {
    exists|i: int| 0 <= i < spec_candidates(a).len() && spec_candidates(a)[i].0 == b
}

/// Every candidate costs one of the three piece lengths and displaces the
/// position by at most 48 units on each axis.
pub proof fn lemma_candidate_shape(c: Connection, i: int)
    requires
        pos_ok(c.pos),
        0 <= i < spec_candidates(c).len(),
    ensures
        spec_candidates(c)[i].1 == STRT_LEN || spec_candidates(c)[i].1 == DIAG_LEN
            || spec_candidates(c)[i].1 == TURN_LEN,
        c.pos.0 - 48 <= spec_candidates(c)[i].0.pos.0 <= c.pos.0 + 48,
        c.pos.1 - 48 <= spec_candidates(c)[i].0.pos.1 <= c.pos.1 + 48,
{
}

impl Connection {
    fn on_lattice_x(&self) -> (r: bool)
        requires
            pos_ok(self.pos),
        ensures
            r == spec_on_lattice_x(self.pos),
    {
        if self.pos.0 >= 0 {
            (self.pos.0 as u32) % 32 == 0
        } else {
            ((-self.pos.0) as u32) % 32 == 0
        }
    }

    /// The candidate moves that can extend a path at this connection,
    /// each with the cost of the piece that makes the move.
    pub fn gen_connections(&self) -> (v: Vec<(Connection, i32)>)
        requires
            pos_ok(self.pos),
        ensures
            v@ == spec_candidates(*self),
    {
        let p = self.pos;
        let mut v: Vec<(Connection, i32)> = Vec::new();
        match self.dir {
            Dir::Right => {
                v.push((Connection::new(Pos(p.0 + 48, p.1 - 16), Dir::DownRight), TURN_LEN));
                v.push((Connection::new(Pos(p.0 + 32, p.1), Dir::Right), STRT_LEN));
                v.push((Connection::new(Pos(p.0 + 48, p.1 + 16), Dir::UpRight), TURN_LEN));
            }
            Dir::UpRight => {
                v.push((Connection::new(Pos(p.0 + 16, p.1 + 16), Dir::UpRight), DIAG_LEN));
                if self.on_lattice_x() {
                    v.push((Connection::new(Pos(p.0 + 16, p.1 + 48), Dir::Up), TURN_LEN));
                } else {
                    v.push((Connection::new(Pos(p.0 + 48, p.1 + 16), Dir::Right), TURN_LEN));
                }
            }
            Dir::DownRight => {
                v.push((Connection::new(Pos(p.0 + 16, p.1 - 16), Dir::DownRight), DIAG_LEN));
                if self.on_lattice_x() {
                    v.push((Connection::new(Pos(p.0 + 16, p.1 - 48), Dir::Down), TURN_LEN));
                } else {
                    v.push((Connection::new(Pos(p.0 + 48, p.1 - 16), Dir::Right), TURN_LEN));
                }
            }
            Dir::Up => {
                v.push((Connection::new(Pos(p.0 + 16, p.1 + 48), Dir::UpRight), TURN_LEN));
                v.push((Connection::new(Pos(p.0, p.1 + 32), Dir::Up), STRT_LEN));
                v.push((Connection::new(Pos(p.0 - 16, p.1 + 48), Dir::UpLeft), TURN_LEN));
            }
            Dir::Down => {
                v.push((Connection::new(Pos(p.0 - 16, p.1 - 48), Dir::DownLeft), TURN_LEN));
                v.push((Connection::new(Pos(p.0, p.1 - 32), Dir::Down), STRT_LEN));
                v.push((Connection::new(Pos(p.0 + 16, p.1 - 48), Dir::DownRight), TURN_LEN));
            }
            Dir::Left => {
                v.push((Connection::new(Pos(p.0 - 48, p.1 + 16), Dir::UpLeft), TURN_LEN));
                v.push((Connection::new(Pos(p.0 - 32, p.1), Dir::Left), STRT_LEN));
                v.push((Connection::new(Pos(p.0 - 48, p.1 - 16), Dir::DownLeft), TURN_LEN));
            }
            Dir::UpLeft => {
                v.push((Connection::new(Pos(p.0 - 16, p.1 + 16), Dir::UpLeft), DIAG_LEN));
                if self.on_lattice_x() {
                    v.push((Connection::new(Pos(p.0 - 16, p.1 + 48), Dir::Up), TURN_LEN));
                } else {
                    v.push((Connection::new(Pos(p.0 - 48, p.1 + 16), Dir::Left), TURN_LEN));
                }
            }
            Dir::DownLeft => {
                v.push((Connection::new(Pos(p.0 - 16, p.1 - 16), Dir::DownLeft), DIAG_LEN));
                if self.on_lattice_x() {
                    v.push((Connection::new(Pos(p.0 - 16, p.1 - 48), Dir::Down), TURN_LEN));
                } else {
                    v.push((Connection::new(Pos(p.0 - 48, p.1 - 16), Dir::Left), TURN_LEN));
                }
            }
        }
        proof {
            assert(v@ =~= spec_candidates(*self));
        }
        v
    }
}

/// Whether the pathfinder records every newly discovered neighbour as a
/// throwaway visual piece for the renderer.
pub const DEBUG: bool = true;

/// Expansion budget of one search: the search stops and reports no path
/// once this many nodes have been taken off the open list, which keeps a
/// search towards an unreachable goal finite.
pub const SEARCH_LIMIT: usize = 2_000;

/// Coordinate bound on a search's start and goal, chosen so that every
/// node the budgeted search can reach stays far inside [`COORD_LIMIT`].
pub const PATH_COORD_LIMIT: i32 = 1_000_000;

/// Weight of the Euclidean-distance term of the heuristic.
pub const DIST_WEIGHT: i64 = 11;

/// Weight of the directional-alignment term of the heuristic. The term is
/// computed but carries weight zero; it is kept as an independently
/// tunable parameter.
pub const ALIGN_WEIGHT: i64 = 0;

/// `r` is the integer square root of `n`: the greatest integer whose
/// square does not exceed `n`.
pub open spec fn is_sqrt_floor(n: int, r: int) -> bool {
    0 <= r && r * r <= n && n < (r + 1) * (r + 1)
}

/// Integer square root by bisection.
fn isqrt(n: u64) -> (r: u64)
    ensures
        is_sqrt_floor(n as int, r as int),
{
    let mut lo: u64 = 0;
    let mut hi: u64 = 4_294_967_296;
    proof {
        assert((4_294_967_296 as int) * (4_294_967_296 as int) > n as int);
    }
    while hi - lo > 1
        invariant
            lo < hi,
            hi <= 4_294_967_296,
            ((lo as int) * (lo as int)) <= n as int,
            ((hi as int) * (hi as int)) > n as int,
        decreases hi - lo,
    {
        let mid: u64 = lo + (hi - lo) / 2;
        proof {
            assert(((mid as int) * (mid as int)) <= 0x1_0000_0000_0000_0000) by (nonlinear_arith)
                requires
                    0 <= mid <= 4_294_967_296,
            ;
        }
        if (mid as u128) * (mid as u128) <= n as u128 {
            lo = mid;
        } else {
            hi = mid;
        }
    }
    lo
}

/// The compass direction nearest to the vector from `from` to `to`,
/// using 45-degree octants whose boundaries lie at 22.5 degrees from the
/// axes; the zero vector classifies as `Up`.
pub open spec fn spec_dir_toward(from: Pos, to: Pos) -> Dir {
    let dx = to.0 - from.0;
    let dy = to.1 - from.1;
    let adx = spec_abs(dx);
    let ady = spec_abs(dy);
    if adx * 100_000 <= ady * 41_421 {
        if dy >= 0 {
            Dir::Up
        } else {
            Dir::Down
        }
    } else if ady * 100_000 <= adx * 41_421 {
        if dx >= 0 {
            Dir::Right
        } else {
            Dir::Left
        }
    } else if dx >= 0 {
        if dy >= 0 {
            Dir::UpRight
        } else {
            Dir::DownRight
        }
    } else {
        if dy >= 0 {
            Dir::UpLeft
        } else {
            Dir::DownLeft
        }
    }
}

/// Nearest compass direction from one position towards another. The
/// boundary ratio 41421 / 100000 is the truncated tangent of 22.5
/// degrees.
pub fn dir_toward(from: Pos, to: Pos) -> (r: Dir)
    ensures
        r == spec_dir_toward(from, to),
{
    let dx: i64 = to.0 as i64 - from.0 as i64;
    let dy: i64 = to.1 as i64 - from.1 as i64;
    let adx: i64 = if dx >= 0 {
        dx
    } else {
        -dx
    };
    let ady: i64 = if dy >= 0 {
        dy
    } else {
        -dy
    };
    if adx * 100_000 <= ady * 41_421 {
        if dy >= 0 {
            Dir::Up
        } else {
            Dir::Down
        }
    } else if ady * 100_000 <= adx * 41_421 {
        if dx >= 0 {
            Dir::Right
        } else {
            Dir::Left
        }
    } else if dx >= 0 {
        if dy >= 0 {
            Dir::UpRight
        } else {
            Dir::DownRight
        }
    } else {
        if dy >= 0 {
            Dir::UpLeft
        } else {
            Dir::DownLeft
        }
    }
}

/// The value of the heuristic at `from` towards goal `to`: the Euclidean
/// distance rounded down, weighted by [`DIST_WEIGHT`], plus the
/// direction-alignment term weighted by [`ALIGN_WEIGHT`].
pub open spec fn spec_estimate_ok(from: Connection, to: Pos, r: int) -> bool {
    let dx = from.pos.0 - to.0;
    let dy = from.pos.1 - to.1;
    exists|s: int|
        #[trigger] is_sqrt_floor(dx * dx + dy * dy, s) && r == DIST_WEIGHT * s + ALIGN_WEIGHT
            * spec_difference(from.dir, spec_dir_toward(from.pos, to))
}

/// A search node: a connection with its accumulated cost and its
/// estimated total cost.
#[derive(Debug, Clone, Copy)]
struct Node {
    conn: Connection,
    g_score: i64,
    f_score: i64,
}

/// First index in the pool holding connection `c`, if any.
fn find_node(nodes: &Vec<Node>, c: &Connection) -> (r: Option<usize>)
    ensures
        match r {
            Some(i) => i < nodes@.len() && nodes@[i as int].conn == *c,
            None => forall|j: int| 0 <= j < nodes@.len() ==> (#[trigger] nodes@[j]).conn != *c,
        },
{
    let n = nodes.len();
    let mut j: usize = 0;
    while j < n
        invariant
            n == nodes@.len(),
            j <= n,
            forall|k: int| 0 <= k < j ==> (#[trigger] nodes@[k]).conn != *c,
        decreases n - j,
    {
        if nodes[j].conn == *c {
            return Some(j);
        }
        j += 1;
    }
    None
}

/// Whether the index list contains `x`.
fn contains_idx(v: &Vec<usize>, x: usize) -> (r: bool)
    ensures
        r == v@.contains(x),
{
    let n = v.len();
    let mut j: usize = 0;
    while j < n
        invariant
            n == v@.len(),
            j <= n,
            forall|k: int| 0 <= k < j ==> (#[trigger] v@[k]) != x,
        decreases n - j,
    {
        if v[j] == x {
            return true;
        }
        j += 1;
    }
    false
}

/// Every consecutive pair of the sequence is one candidate move.
pub open spec fn valid_path(p: Seq<Connection>) -> bool {
    forall|i: int| 0 <= i && i + 1 < p.len() ==> valid_step(#[trigger] p[i], p[i + 1])
}

/// `ps` is the piece-by-piece rendering of the waypoint sequence `p`:
/// one well-formed track piece per consecutive pair of connections.
pub open spec fn pieces_of(ps: Seq<Track>, p: Seq<Connection>) -> bool {
    &&& ps.len() + 1 == p.len()
    &&& forall|i: int|
        0 <= i < ps.len() ==> (#[trigger] ps[i]).wf() && ps[i].spec_start() == p[i]
            && ps[i].spec_end() == p[i + 1]
}

/// A path-drawing session: the fixed start connection, the current
/// tentative piece sequence towards the cursor, and the diagnostic trace
/// pieces recorded for the renderer while searching.
pub struct Path {
    start: Connection,
    path: Option<Vec<Track>>,
    debug: Vec<Track>,
}

impl Path {
    /// The connection the session started from.
    pub closed spec fn spec_start(self) -> Connection {
        self.start
    }

    /// The current tentative path as a piece sequence, if the last search
    /// succeeded.
    pub closed spec fn spec_pieces(self) -> Option<Seq<Track>> {
        match self.path {
            Some(v) => Some(v@),
            None => None,
        }
    }

    /// The diagnostic trace pieces of the last search.
    pub closed spec fn spec_debug(self) -> Seq<Track> {
        self.debug@
    }

    /// Opens a session anchored at `start`, facing `dir`, with no
    /// tentative path yet.
    pub fn new(start: Pos, dir: Dir) -> (p: Path)
        ensures
            p.spec_start() == (Connection { pos: start, dir }),
            p.spec_pieces() is None,
            p.spec_debug() == Seq::<Track>::empty(),
    {
        Path { start: Connection::new(start, dir), path: None, debug: Vec::new() }
    }

    /// Surrenders the tentative pieces for committing into the network.
    pub fn into_pieces(self) -> (r: Option<Vec<Track>>)
        ensures
            match r {
                Some(v) => self.spec_pieces() == Some(v@),
                None => self.spec_pieces() is None,
            },
    {
        self.path
    }

    /// The diagnostic trace pieces recorded by the last search, for the
    /// renderer.
    pub fn debug_pieces(&self) -> (r: &Vec<Track>)
        ensures
            r@ == self.spec_debug(),
    {
        &self.debug
    }

    /// The tentative pieces of the current path, for the renderer.
    pub fn tentative_pieces(&self) -> (r: &Option<Vec<Track>>)
        ensures
            match r {
                Some(v) => self.spec_pieces() == Some(v@),
                None => self.spec_pieces() is None,
            },
    {
        &self.path
    }

    /// Estimated remaining cost from `from` to the goal cell `to`.
    pub fn estimate(from: &Connection, to: &Pos) -> (r: i64)
        requires
            pos_ok(from.pos),
            pos_ok(*to),
        ensures
            spec_estimate_ok(*from, *to, r as int),
            0 <= r <= DIST_WEIGHT * (spec_abs(from.pos.0 - to.0) + spec_abs(from.pos.1 - to.1)),
    {
        let dx: i64 = from.pos.0 as i64 - to.0 as i64;
        let dy: i64 = from.pos.1 as i64 - to.1 as i64;
        let adx: i64 = if dx >= 0 {
            dx
        } else {
            -dx
        };
        let ady: i64 = if dy >= 0 {
            dy
        } else {
            -dy
        };
        proof {
            assert(adx * adx <= 4_000_000_000_000_000_000 && ady * ady
                <= 4_000_000_000_000_000_000) by (nonlinear_arith)
                requires
                    0 <= adx <= 2_000_000_000 && 0 <= ady <= 2_000_000_000,
            ;
            assert(adx * adx == dx * dx && ady * ady == dy * dy) by (nonlinear_arith)
                requires
                    adx == dx || adx == -dx,
                    ady == dy || ady == -dy,
            ;
        }
        let sq: u64 = (adx * adx + ady * ady) as u64;
        let s: u64 = isqrt(sq);
        proof {
            assert(s as int <= adx + ady) by {
                if s as int > adx + ady {
                    assert((adx + ady) * (adx + ady) < s as int * s as int) by (nonlinear_arith)
                        requires
                            0 <= adx + ady < s as int,
                    ;
                    assert(s as int * s as int <= adx * adx + ady * ady);
                    assert(adx * adx + ady * ady <= (adx + ady) * (adx + ady)) by (
                    nonlinear_arith)
                        requires
                            0 <= adx && 0 <= ady,
                    ;
                }
            }
        }
        let align: i64 = from.dir.difference(dir_toward(from.pos, *to)) as i64;
        DIST_WEIGHT * (s as i64) + ALIGN_WEIGHT * align
    }

    /// Best-first search from the session's start connection to the goal
    /// cell `to`, irrespective of the facing there. A successful result
    /// is a genuine path: it begins at the start connection, every
    /// consecutive pair is one candidate move, and it ends on the goal
    /// position. A goal equal to the start's own coordinates is no path
    /// by definition, so a degenerate zero-length path is never returned.
    ///
    /// No path is a normal outcome, not an error. It means the expansion
    /// budget elapsed without a goal node coming off the open list.
    /// Nothing stronger can be promised of it: every connection has a
    /// fresh straight continuation, so the implicit graph is infinite,
    /// the open list never empties, and which nodes the budget covers is
    /// decided by the heuristic ordering of the frontier, which the
    /// contract does not model.
    pub fn find_path(&mut self, to: Pos) -> (r: Option<Vec<Connection>>)
        requires
            -PATH_COORD_LIMIT <= old(self).spec_start().pos.0 <= PATH_COORD_LIMIT,
            -PATH_COORD_LIMIT <= old(self).spec_start().pos.1 <= PATH_COORD_LIMIT,
            -PATH_COORD_LIMIT <= to.0 <= PATH_COORD_LIMIT,
            -PATH_COORD_LIMIT <= to.1 <= PATH_COORD_LIMIT,
        ensures
            final(self).spec_start() == old(self).spec_start(),
            final(self).spec_pieces() == old(self).spec_pieces(),
            to == old(self).spec_start().pos ==> r is None,
            match r {
                Some(p) => {
                    &&& p@.len() >= 2
                    &&& p@[0] == old(self).spec_start()
                    &&& p@.last().pos == to
                    &&& valid_path(p@)
                    &&& forall|i: int| 0 <= i < p@.len() ==> pos_ok((#[trigger] p@[i]).pos)
                },
                None => true,
            },
    {
        if to == self.start.pos {
            // the goal cell is the start's own cell: "no path", never a
            // zero-length result
            return None;
        }
        self.search_toward(to)
    }

    /// The best-first expansion itself, for a goal away from the start's
    /// own cell.
    #[verifier::loop_isolation(false)]
    #[verifier::rlimit(100)]
    fn search_toward(&mut self, to: Pos) -> (r: Option<Vec<Connection>>)
        requires
            -PATH_COORD_LIMIT <= old(self).spec_start().pos.0 <= PATH_COORD_LIMIT,
            -PATH_COORD_LIMIT <= old(self).spec_start().pos.1 <= PATH_COORD_LIMIT,
            -PATH_COORD_LIMIT <= to.0 <= PATH_COORD_LIMIT,
            -PATH_COORD_LIMIT <= to.1 <= PATH_COORD_LIMIT,
        ensures
            final(self).spec_start() == old(self).spec_start(),
            final(self).spec_pieces() == old(self).spec_pieces(),
            match r {
                Some(p) => {
                    &&& p@.len() >= 2
                    &&& p@[0] == old(self).spec_start()
                    &&& p@.last().pos == to
                    &&& valid_path(p@)
                    &&& forall|i: int| 0 <= i < p@.len() ==> pos_ok((#[trigger] p@[i]).pos)
                },
                None => true,
            },
    {
        let head = self.start;
        let mut nodes: Vec<Node> = Vec::new();
        let mut children: Vec<usize> = Vec::new();
        let mut open: Vec<usize> = Vec::new();
        let mut closed: Vec<usize> = Vec::new();
        nodes.push(Node { conn: head, g_score: 0, f_score: Path::estimate(&head, &to) });
        children.push(0);
        open.push(0);
        let mut expansions: usize = 0;

        while open.len() > 0 && expansions < SEARCH_LIMIT
            invariant
                nodes@.len() == children@.len(),
                1 <= nodes@.len(),
                nodes@[0].conn == head,
                nodes@[0].g_score == 0,
                expansions <= SEARCH_LIMIT,
                nodes@.len() <= 1 + 3 * expansions,
                self.start == head,
                self.path == old(self).path,
                forall|i: int| 0 <= i < open@.len() ==> (#[trigger] open@[i]) < nodes@.len(),
                forall|i: int|
                    1 <= i < nodes@.len() ==> (#[trigger] children@[i]) < nodes@.len()
                        && nodes@[children@[i] as int].g_score < nodes@[i].g_score && valid_step(
                        nodes@[children@[i] as int].conn,
                        nodes@[i].conn,
                    ),
                forall|i: int|
                    0 <= i < nodes@.len() ==> 0 <= (#[trigger] nodes@[i]).g_score
                        && nodes@[i].g_score <= 520 * nodes@.len(),
                forall|i: int|
                    0 <= i < nodes@.len() ==> {
                        let b = PATH_COORD_LIMIT + 48 * nodes@.len();
                        -b <= (#[trigger] nodes@[i]).conn.pos.0 <= b && -b <= nodes@[i].conn.pos.1
                            <= b
                    },
            decreases SEARCH_LIMIT - expansions,
        {
            expansions += 1;

            // linear scan for the open node with the least estimated cost
            let mut jmin: usize = 0;
            let mut k: usize = 1;
            while k < open.len()
                invariant
                    jmin < open@.len(),
                    k <= open@.len(),
                decreases open@.len() - k,
            {
                if nodes[open[k]].f_score < nodes[open[jmin]].f_score {
                    jmin = k;
                }
                k += 1;
            }
            let target: usize = open[jmin];
            let node: Node = nodes[target];

            if node.conn.pos == to && target != 0 {
                // walk the parent chain back to the start
                let mut total: Vec<usize> = Vec::new();
                let mut tcur: usize = target;
                while tcur != 0
                    invariant
                        tcur < nodes@.len(),
                        total@.len() == 0 ==> tcur == target,
                        total@.len() > 0 ==> total@[0] == target,
                        forall|q: int|
                            0 <= q < total@.len() ==> (#[trigger] total@[q]) < nodes@.len()
                                && total@[q] != 0,
                        forall|q: int|
                            0 <= q && q + 1 < total@.len() ==> total@[q + 1] == children@[(
                            #[trigger] total@[q]) as int],
                        total@.len() > 0 ==> tcur == children@[total@[total@.len() - 1] as int],
                    decreases nodes@[tcur as int].g_score,
                {
                    total.push(tcur);
                    tcur = children[tcur];
                }
                total.push(0);
                let n_total = total.len();
                let mut out: Vec<Connection> = Vec::new();
                let mut q: usize = n_total;
                while q > 0
                    invariant
                        q <= n_total,
                        out@.len() == n_total - q,
                        forall|w: int|
                            0 <= w < out@.len() ==> out@[w] == nodes@[total@[n_total - 1
                                - w] as int].conn,
                    decreases q,
                {
                    q -= 1;
                    out.push(nodes[total[q]].conn);
                }
                proof {
                    let p = out@;
                    let l = n_total as int;
                    assert(p.len() == l && l >= 2);
                    assert(total@[l - 1] == 0);
                    assert(p[0] == nodes@[0].conn);
                    assert(p.last() == nodes@[target as int].conn);
                    assert forall|w: int| 0 <= w && w + 1 < p.len() implies valid_step(
                        #[trigger] p[w],
                        p[w + 1],
                    ) by {
                        let j = l - 2 - w;
                        assert(0 <= j && j + 1 < total@.len());
                        assert(total@[j + 1] == children@[total@[j] as int]);
                        assert(total@[j] != 0);
                        assert(p[w + 1] == nodes@[total@[j] as int].conn);
                        assert(p[w] == nodes@[total@[j + 1] as int].conn);
                    }
                    assert forall|i: int| 0 <= i < p.len() implies pos_ok(
                        (#[trigger] p[i]).pos,
                    ) by {
                        assert(p[i] == nodes@[total@[l - 1 - i] as int].conn);
                    }
                }
                return Some(out);
            }

            open.remove(jmin);
            closed.push(target);
            proof {
                assert(closed@[closed@.len() - 1] == target);
            }

            let cands = node.conn.gen_connections();
            let n_c = cands.len();
            proof {
                assert(n_c <= 3);
            }
            let mut ci: usize = 0;
            while ci < n_c
                invariant
                    ci <= n_c,
                    nodes@.len() == children@.len(),
                    1 <= nodes@.len(),
                    nodes@[0].conn == head,
                    nodes@[0].g_score == 0,
                    nodes@.len() <= 1 + 3 * (expansions - 1) + ci,
                    target < nodes@.len(),
                    closed@.contains(target),
                    nodes@[target as int] == node,
                    self.start == head,
                    self.path == old(self).path,
                    forall|i: int| 0 <= i < open@.len() ==> (#[trigger] open@[i]) < nodes@.len(),
                    forall|i: int|
                        1 <= i < nodes@.len() ==> (#[trigger] children@[i]) < nodes@.len()
                            && nodes@[children@[i] as int].g_score < nodes@[i].g_score
                            && valid_step(nodes@[children@[i] as int].conn, nodes@[i].conn),
                    forall|i: int|
                        0 <= i < nodes@.len() ==> 0 <= (#[trigger] nodes@[i]).g_score
                            && nodes@[i].g_score <= 520 * nodes@.len(),
                    forall|i: int|
                        0 <= i < nodes@.len() ==> {
                            let b = PATH_COORD_LIMIT + 48 * nodes@.len();
                            -b <= (#[trigger] nodes@[i]).conn.pos.0 <= b && -b
                                <= nodes@[i].conn.pos.1 <= b
                        },
                decreases n_c - ci,
            {
                let (conn, len_cost) = cands[ci];
                proof {
                    lemma_candidate_shape(node.conn, ci as int);
                    assert(spec_candidates(node.conn)[ci as int].0 == conn);
                    assert(valid_step(node.conn, conn));
                }
                let total_g: i64 = node.g_score + (len_cost as i64) * 10;
                match find_node(&nodes, &conn) {
                    Some(i) => {
                        if !contains_idx(&closed, i) {
                            let ni: Node = nodes[i];
                            if ni.g_score > total_g {
                                let new_f: i64 = total_g + Path::estimate(&conn, &to);
                                nodes[i] = Node { conn: ni.conn, g_score: total_g, f_score: new_f };
                                children[i] = target;
                            }
                        }
                    },
                    None => {
                        let new_f: i64 = total_g + Path::estimate(&conn, &to);
                        let idx = nodes.len();
                        nodes.push(Node { conn, g_score: total_g, f_score: new_f });
                        children.push(target);
                        open.push(idx);
                        if DEBUG {
                            self.debug.push(Track::from_conns(node.conn, conn));
                        }
                    },
                }
                ci += 1;
            }
        }
        None
    }

    /// Re-runs the pathfinder towards `to` and replaces the tentative
    /// path, clearing the previous diagnostic trace first. The stored
    /// pieces are `Some` exactly when that search succeeds: on success
    /// the new path is the piece-by-piece rendering of a waypoint
    /// sequence from the session's start to the goal cell, and a goal at
    /// the start's own cell always leaves no tentative path.
    #[verifier::loop_isolation(false)]
    pub fn add_path(&mut self, to: Pos)
        requires
            -PATH_COORD_LIMIT <= old(self).spec_start().pos.0 <= PATH_COORD_LIMIT,
            -PATH_COORD_LIMIT <= old(self).spec_start().pos.1 <= PATH_COORD_LIMIT,
            -PATH_COORD_LIMIT <= to.0 <= PATH_COORD_LIMIT,
            -PATH_COORD_LIMIT <= to.1 <= PATH_COORD_LIMIT,
        ensures
            final(self).spec_start() == old(self).spec_start(),
            to == old(self).spec_start().pos ==> final(self).spec_pieces() is None,
            match final(self).spec_pieces() {
                Some(ps) => exists|p: Seq<Connection>|
                    #[trigger] pieces_of(ps, p) && p[0] == old(self).spec_start() && p.last().pos
                        == to && valid_path(p),
                None => true,
            },
    {
        if DEBUG {
            self.debug.clear();
        }
        let path = self.find_path(to);
        match path {
            Some(conns) => {
                let ghost p = conns@;
                let mut pieces: Vec<Track> = Vec::new();
                let n = conns.len();
                let mut i: usize = 0;
                while i + 1 < n
                    invariant
                        i + 1 <= n,
                        pieces@.len() == i as int,
                        forall|w: int|
                            0 <= w < i ==> (#[trigger] pieces@[w]).wf() && pieces@[w].spec_start()
                                == p[w] && pieces@[w].spec_end() == p[w + 1],
                    decreases n - i,
                {
                    pieces.push(Track::from_conns(conns[i], conns[i + 1]));
                    i += 1;
                }
                self.path = Some(pieces);
                proof {
                    let ps = self.spec_pieces()->0;
                    assert(pieces_of(ps, p) && p[0] == old(self).spec_start() && p.last().pos == to
                        && valid_path(p));
                    assert(exists|pw: Seq<Connection>|
                        #[trigger] pieces_of(ps, pw) && pw[0] == old(self).spec_start()
                            && pw.last().pos == to && valid_path(pw));
                }
            },
            None => {
                self.path = None;
            },
        }
    }
}

} // verus!
