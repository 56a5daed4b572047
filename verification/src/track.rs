//! Track piece geometry: classification of an endpoint pair into a
//! straight, diagonal or turn piece, piece length, and interpolation of a
//! distance along the piece into a world position.
//!
//! Lengths and distances along a piece are measured in milli-units
//! (thousandths of a grid unit) so that the motion simulator can work in
//! exact integer arithmetic.

use vstd::prelude::*;

use vstd::arithmetic::div_mod::lemma_div_by_multiple;
use vstd::arithmetic::div_mod::lemma_div_is_ordered;
use vstd::arithmetic::mul::lemma_mul_inequality;
use vstd::arithmetic::mul::lemma_mul_upper_bound;

use crate::geom::pos_ok;
use crate::geom::spec_abs;
use crate::geom::Dir;
use crate::geom::Pos;
use crate::path::Connection;

verus! {

/// Length (and search cost) of a straight piece, in grid units.
pub const STRT_LEN: i32 = 32;

/// Length (and search cost) of a diagonal piece, in grid units: the
/// truncated half-cell diagonal, 16 times the square root of two.
pub const DIAG_LEN: i32 = 22;

/// Fixed curved length (and search cost) of a turn piece, in grid units;
/// it exceeds the straight-line chord between the turn's endpoints.
pub const TURN_LEN: i32 = 52;

/// Milli-units per unit travelled along a diagonal axis: the square root
/// of two, scaled by a thousand and truncated.
pub const DIAG_MILLI_PER_UNIT: i64 = 1414;

/// Fixed curved length of a turn piece in milli-units.
pub const TURN_LEN_MILLI: i64 = 52_000;

/// The two endpoints share exactly one axis and differ along the other.
pub open spec fn is_straight_pair(a: Pos, b: Pos) -> bool {
    (a.0 == b.0 && a.1 != b.1) || (a.1 == b.1 && a.0 != b.0)
}

/// The two endpoints differ along both axes by the same magnitude.
pub open spec fn is_diagonal_pair(a: Pos, b: Pos) -> bool {
    a.0 != b.0 && spec_abs(b.0 - a.0) == spec_abs(b.1 - a.1)
}

/// A piece of track between two oriented endpoints. The variant is
/// determined by the endpoint pair alone: straight when one axis is
/// shared, diagonal when both axes change by the same magnitude, and a
/// turn otherwise.
#[derive(Debug, Clone, Copy)]
pub enum Track {
    Straight(Connection, Connection),
    Diagonal(Connection, Connection),
    Turn(Connection, Connection),
}

impl Track {
    /// The endpoint the piece was drawn from.
    pub open spec fn spec_start(self) -> Connection {
        match self {
            Track::Straight(a, _) => a,
            Track::Diagonal(a, _) => a,
            Track::Turn(a, _) => a,
        }
    }

    /// The endpoint the piece was drawn to.
    pub open spec fn spec_end(self) -> Connection {
        match self {
            Track::Straight(_, b) => b,
            Track::Diagonal(_, b) => b,
            Track::Turn(_, b) => b,
        }
    }

    /// The variant matches the classification of the endpoint pair and
    /// both endpoints lie within the coordinate bound.
    pub open spec fn wf(self) -> bool {
        pos_ok(self.spec_start().pos) && pos_ok(self.spec_end().pos) && match self {
            Track::Straight(a, b) => is_straight_pair(a.pos, b.pos),
            Track::Diagonal(a, b) => is_diagonal_pair(a.pos, b.pos),
            Track::Turn(a, b) => !is_straight_pair(a.pos, b.pos) && !is_diagonal_pair(a.pos, b.pos),
        }
    }

    /// Classifies an endpoint pair into the matching piece variant.
    pub fn from_conns(a: Connection, b: Connection) -> (t: Track)
        requires
            pos_ok(a.pos),
            pos_ok(b.pos),
        ensures
            t.wf(),
            t.spec_start() == a,
            t.spec_end() == b,
    {
        let dx: i64 = b.pos.0 as i64 - a.pos.0 as i64;
        let dy: i64 = b.pos.1 as i64 - a.pos.1 as i64;
        let adx: i64 = if dx >= 0 {
            dx
        } else {
            -dx
        };
        let ady: i64 = if dy >= 0 {
            dy
        } else {
            -dy
        };
        if (dx == 0 && dy != 0) || (dy == 0 && dx != 0) {
            Track::Straight(a, b)
        } else if dx != 0 && adx == ady {
            Track::Diagonal(a, b)
        } else {
            Track::Turn(a, b)
        }
    }

    pub fn start(&self) -> (c: Connection)
        ensures
            c == self.spec_start(),
    {
        match self {
            Track::Straight(a, _) => *a,
            Track::Diagonal(a, _) => *a,
            Track::Turn(a, _) => *a,
        }
    }

    pub fn end(&self) -> (c: Connection)
        ensures
            c == self.spec_end(),
    {
        match self {
            Track::Straight(_, b) => *b,
            Track::Diagonal(_, b) => *b,
            Track::Turn(_, b) => *b,
        }
    }

    /// Length of the piece in milli-units: the axis extent for a straight
    /// piece, the scaled diagonal for a diagonal piece, and the fixed
    /// curve constant for a turn.
    pub open spec fn spec_len_milli(self) -> int {
        match self {
            Track::Straight(a, b) => 1000 * (spec_abs(b.pos.0 - a.pos.0) + spec_abs(
                b.pos.1 - a.pos.1,
            )),
            Track::Diagonal(a, b) => DIAG_MILLI_PER_UNIT * spec_abs(b.pos.0 - a.pos.0),
            Track::Turn(_, _) => TURN_LEN_MILLI as int,
        }
    }

    pub fn len_milli(&self) -> (r: u64)
        requires
            self.wf(),
        ensures
            r as int == self.spec_len_milli(),
    {
        match self {
            Track::Straight(a, b) => {
                let dx: i64 = b.pos.0 as i64 - a.pos.0 as i64;
                let dy: i64 = b.pos.1 as i64 - a.pos.1 as i64;
                let adx: i64 = if dx >= 0 {
                    dx
                } else {
                    -dx
                };
                let ady: i64 = if dy >= 0 {
                    dy
                } else {
                    -dy
                };
                (1000 * (adx + ady)) as u64
            }
            Track::Diagonal(a, b) => {
                let dx: i64 = b.pos.0 as i64 - a.pos.0 as i64;
                let adx: i64 = if dx >= 0 {
                    dx
                } else {
                    -dx
                };
                (DIAG_MILLI_PER_UNIT * adx) as u64
            }
            Track::Turn(_, _) => TURN_LEN_MILLI as u64,
        }
    }

    /// A well-formed piece is never degenerate and never longer than the
    /// coordinate bound allows.
    pub proof fn lemma_len_milli_bounds(self)
        requires
            self.wf(),
        ensures
            1000 <= self.spec_len_milli() <= 3_000_000_000_000,
    {
    }
}

/// One piece-step backwards out of a connection facing `d`: a full cell
/// edge against an axis direction, a half cell against a diagonal. A
/// turn's control point is its end displaced this way, which places the
/// control on both endpoint tangents for every turn the candidate moves
/// can produce.
pub open spec fn spec_step_back(d: Dir) -> Pos {
    match d {
        Dir::Up => Pos(0, 32),
        Dir::UpRight => Pos(16, 16),
        Dir::Right => Pos(32, 0),
        Dir::DownRight => Pos(16, ((-16) as i32)),
        Dir::Down => Pos(0, ((-32) as i32)),
        Dir::DownLeft => Pos(((-16) as i32), ((-16) as i32)),
        Dir::Left => Pos(((-32) as i32), 0),
        Dir::UpLeft => Pos(((-16) as i32), 16),
    }
}

/// Linear interpolation of one coordinate: `u / n` of the way from `a`
/// to `b`, rounded towards `a`.
pub open spec fn spec_lerp1(a: int, b: int, u: int, n: int) -> int {
    if b >= a {
        a + (b - a) * u / n
    } else {
        a - (a - b) * u / n
    }
}

/// Position at distance `d` (milli-units) along the piece. Straight and
/// diagonal pieces interpolate linearly between their endpoints. A turn
/// follows the two tangent segments through its control point, switching
/// halfway: the path is continuous, monotonic in `d`, and meets both
/// endpoints and their tangent directions exactly.
pub open spec fn spec_position_at(t: Track, d: int) -> Pos {
    let n = t.spec_len_milli();
    let a = t.spec_start().pos;
    let b = t.spec_end().pos;
    match t {
        Track::Turn(_, _) => {
            let sb = spec_step_back(t.spec_end().dir);
            let cx = b.0 - sb.0;
            let cy = b.1 - sb.1;
            let m = TURN_LEN_MILLI as int / 2;
            if d <= m {
                Pos(
                    spec_lerp1(a.0 as int, cx, d, m) as i32,
                    spec_lerp1(a.1 as int, cy, d, m) as i32,
                )
            } else {
                Pos(
                    spec_lerp1(cx, b.0 as int, d - m, m) as i32,
                    spec_lerp1(cy, b.1 as int, d - m, m) as i32,
                )
            }
        }
        _ => Pos(
            spec_lerp1(a.0 as int, b.0 as int, d, n) as i32,
            spec_lerp1(a.1 as int, b.1 as int, d, n) as i32,
        ),
    }
}

/// Exact interpolation of one coordinate, `u / n` of the way from `a`
/// to `b`; the result always lies between the two.
fn lerp1(a: i64, b: i64, u: u64, n: u64) -> (r: i64)
    requires
        1 <= n <= 4_000_000_000_000,
        u <= n,
        -2_000_000_000 <= a <= 2_000_000_000,
        -2_000_000_000 <= b <= 2_000_000_000,
    ensures
        r as int == spec_lerp1(a as int, b as int, u as int, n as int),
        a <= b ==> a <= r <= b,
        b <= a ==> b <= r <= a,
{
    if b >= a {
        let delta: u64 = (b - a) as u64;
        proof {
            lemma_mul_upper_bound(delta as int, 4_000_000_000, u as int, 4_000_000_000_000);
            lemma_mul_inequality(u as int, n as int, delta as int);
            lemma_div_is_ordered(u as int * delta as int, n as int * delta as int, n as int);
            lemma_div_by_multiple(delta as int, n as int);
            assert(delta as int * u as int == u as int * delta as int) by (nonlinear_arith);
            assert(delta as int * n as int == n as int * delta as int) by (nonlinear_arith);
        }
        let off: u64 = ((delta as u128) * (u as u128) / (n as u128)) as u64;
        a + off as i64
    } else {
        let delta: u64 = (a - b) as u64;
        proof {
            lemma_mul_upper_bound(delta as int, 4_000_000_000, u as int, 4_000_000_000_000);
            lemma_mul_inequality(u as int, n as int, delta as int);
            lemma_div_is_ordered(u as int * delta as int, n as int * delta as int, n as int);
            lemma_div_by_multiple(delta as int, n as int);
            assert(delta as int * u as int == u as int * delta as int) by (nonlinear_arith);
            assert(delta as int * n as int == n as int * delta as int) by (nonlinear_arith);
        }
        let off: u64 = ((delta as u128) * (u as u128) / (n as u128)) as u64;
        a - off as i64
    }
}

impl Track {
    /// World position of the point `d` milli-units along the piece.
    pub fn position_at(&self, d: u64) -> (r: Pos)
        requires
            self.wf(),
            d as int <= self.spec_len_milli(),
        ensures
            r == spec_position_at(*self, d as int),
    {
        proof {
            self.lemma_len_milli_bounds();
        }
        match self {
            Track::Turn(a, b) => {
                let sb = b.dir.step_back();
                let cx: i64 = b.pos.0 as i64 - sb.0 as i64;
                let cy: i64 = b.pos.1 as i64 - sb.1 as i64;
                let m: u64 = (TURN_LEN_MILLI as u64) / 2;
                if d <= m {
                    let x = lerp1(a.pos.0 as i64, cx, d, m);
                    let y = lerp1(a.pos.1 as i64, cy, d, m);
                    Pos(x as i32, y as i32)
                } else {
                    let x = lerp1(cx, b.pos.0 as i64, d - m, m);
                    let y = lerp1(cy, b.pos.1 as i64, d - m, m);
                    Pos(x as i32, y as i32)
                }
            }
            _ => {
                let a = self.start();
                let b = self.end();
                let n = self.len_milli();
                let x = lerp1(a.pos.0 as i64, b.pos.0 as i64, d, n);
                let y = lerp1(a.pos.1 as i64, b.pos.1 as i64, d, n);
                Pos(x as i32, y as i32)
            }
        }
    }
}

impl Dir {
    /// Executable counterpart of [`spec_step_back`].
    fn step_back(&self) -> (r: Pos)
        ensures
            r == spec_step_back(*self),
    {
        match self {
            Dir::Up => Pos(0, 32),
            Dir::UpRight => Pos(16, 16),
            Dir::Right => Pos(32, 0),
            Dir::DownRight => Pos(16, -16),
            Dir::Down => Pos(0, -32),
            Dir::DownLeft => Pos(-16, -16),
            Dir::Left => Pos(-32, 0),
            Dir::UpLeft => Pos(-16, 16),
        }
    }
}

/// Interpolation meets the endpoints exactly: distance zero is the start
/// position and the full length is the end position, for every variant.
pub proof fn lemma_interpolation_endpoints(t: Track)
    requires
        t.wf(),
    ensures
        spec_position_at(t, 0) == t.spec_start().pos,
        spec_position_at(t, t.spec_len_milli()) == t.spec_end().pos,
{
    t.lemma_len_milli_bounds();
    let n = t.spec_len_milli();
    let a = t.spec_start().pos;
    let b = t.spec_end().pos;
    match t {
        Track::Turn(_, _) => {
            let sb = spec_step_back(t.spec_end().dir);
            let cx = b.0 - sb.0;
            let cy = b.1 - sb.1;
            let m = TURN_LEN_MILLI as int / 2;
            lemma_lerp1_ends(a.0 as int, cx, m);
            lemma_lerp1_ends(a.1 as int, cy, m);
            lemma_lerp1_ends(cx, b.0 as int, m);
            lemma_lerp1_ends(cy, b.1 as int, m);
        }
        _ => {
            lemma_lerp1_ends(a.0 as int, b.0 as int, n);
            lemma_lerp1_ends(a.1 as int, b.1 as int, n);
        }
    }
}

/// `spec_lerp1` is exact at both ends of the parameter range.
proof fn lemma_lerp1_ends(a: int, b: int, n: int)
    requires
        1 <= n,
    ensures
        spec_lerp1(a, b, 0, n) == a,
        spec_lerp1(a, b, n, n) == b,
{
    if b >= a {
        lemma_div_by_multiple(b - a, n);
        assert((b - a) * 0 / n == 0);
    } else {
        lemma_div_by_multiple(a - b, n);
        assert((a - b) * 0 / n == 0);
    }
}

} // verus!
