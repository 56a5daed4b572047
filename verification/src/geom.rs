//! Grid positions, the eight compass directions, their angle tables and
//! displacement vectors, and cursor snapping onto the track sub-lattice.

use vstd::prelude::*;

verus! {

/// World units per lattice cell.
pub const GRID_CELL_SIZE: i32 = 32;

/// Displacement along each axis for a full-cell diagonal move, the
/// truncated value of `GRID_CELL_SIZE * sqrt(2)`.
pub const DIAG_FULL_STEP: i32 = 45;

/// Coordinates are kept within this bound so that every derived quantity
/// (candidate offsets, interpolation products, squared distances) fits the
/// machine integers it is computed in.
pub const COORD_LIMIT: i32 = 1_000_000_000;

/// A grid-space coordinate pair. Component-wise arithmetic; diagonal moves
/// land on a staggered half-cell sub-lattice, so components are not
/// necessarily multiples of the cell size.
#[derive(Debug, Copy, Clone, PartialEq, Eq, Hash, Structural)]
pub struct Pos(pub i32, pub i32);

/// `p` lies within the coordinate bound accepted by the geometry.
pub open spec fn pos_ok(p: Pos) -> bool {
    -COORD_LIMIT <= p.0 <= COORD_LIMIT && -COORD_LIMIT <= p.1 <= COORD_LIMIT
}

impl Pos {
    /// Component-wise sum.
    pub fn plus(self, rhs: Pos) -> (r: Pos)
        requires
            i32::MIN <= self.0 + rhs.0 <= i32::MAX,
            i32::MIN <= self.1 + rhs.1 <= i32::MAX,
        ensures
            r.0 == self.0 + rhs.0,
            r.1 == self.1 + rhs.1,
    {
        Pos(self.0 + rhs.0, self.1 + rhs.1)
    }

    /// Component-wise difference.
    pub fn minus(self, rhs: Pos) -> (r: Pos)
        requires
            i32::MIN <= self.0 - rhs.0 <= i32::MAX,
            i32::MIN <= self.1 - rhs.1 <= i32::MAX,
        ensures
            r.0 == self.0 - rhs.0,
            r.1 == self.1 - rhs.1,
    {
        Pos(self.0 - rhs.0, self.1 - rhs.1)
    }
}

/// One of the eight compass directions. `Up` is the positive-y axis and
/// angles grow clockwise towards `Right` (positive x).
#[derive(Debug, Copy, Clone, PartialEq, Eq, Hash, Structural)]
pub enum Dir {
    Up,
    UpRight,
    Right,
    DownRight,
    Down,
    DownLeft,
    Left,
    UpLeft,
}

/// Displacement of one full-cell move in direction `d`: one cell edge for
/// the axis directions, the truncated cell diagonal for the diagonals.
pub open spec fn spec_to_pos(d: Dir) -> Pos {
    match d {
        Dir::Up => Pos(0, GRID_CELL_SIZE),
        Dir::UpRight => Pos(DIAG_FULL_STEP, DIAG_FULL_STEP),
        Dir::Right => Pos(GRID_CELL_SIZE, 0),
        Dir::DownRight => Pos(DIAG_FULL_STEP, (-DIAG_FULL_STEP) as i32),
        Dir::Down => Pos(0, (-GRID_CELL_SIZE) as i32),
        Dir::DownLeft => Pos((-DIAG_FULL_STEP) as i32, (-DIAG_FULL_STEP) as i32),
        Dir::Left => Pos((-GRID_CELL_SIZE) as i32, 0),
        Dir::UpLeft => Pos((-DIAG_FULL_STEP) as i32, DIAG_FULL_STEP),
    }
}

/// The direction rotated by a half turn.
pub open spec fn spec_opposite(d: Dir) -> Dir {
    match d {
        Dir::Up => Dir::Down,
        Dir::UpRight => Dir::DownLeft,
        Dir::Right => Dir::Left,
        Dir::DownRight => Dir::UpLeft,
        Dir::Down => Dir::Up,
        Dir::DownLeft => Dir::UpRight,
        Dir::Left => Dir::Right,
        Dir::UpLeft => Dir::DownRight,
    }
}

/// Canonical angle of each direction in whole degrees, clockwise from `Up`.
/// The south-west entry is 235 rather than the geometric 225 — a likely
/// defect, deliberately left in place: `spec_difference` measures over this
/// table, so "correcting" the entry would silently change path shaping.
pub open spec fn spec_into_angle(d: Dir) -> int {
    match d {
        Dir::Up => 0,
        Dir::UpRight => 45,
        Dir::Right => 90,
        Dir::DownRight => 135,
        Dir::Down => 180,
        Dir::DownLeft => 235,
        Dir::Left => 270,
        Dir::UpLeft => 315,
    }
}

pub open spec fn spec_abs(v: int) -> int {
    if v >= 0 {
        v
    } else {
        -v
    }
}

/// Minimal angular distance between the canonical angles of two
/// directions, with wraparound handled by comparing the three candidate
/// deltas, normalised to thousandths of a half turn (1000 = 180 degrees).
pub open spec fn spec_difference(a: Dir, b: Dir) -> int {
    let sa = spec_into_angle(a);
    let sb = spec_into_angle(b);
    let t1 = spec_abs(sa - sb);
    let t2 = spec_abs(sa + 360 - sb);
    let t3 = spec_abs(sa - (sb + 360));
    let m = if t1 < t2 {
        if t1 < t3 {
            t1
        } else {
            t3
        }
    } else {
        if t2 < t3 {
            t2
        } else {
            t3
        }
    };
    m * 1000 / 180
}

/// Classification of a continuous clockwise-from-`Up` angle, in
/// thousandths of a degree, into the nearest of the eight directions using
/// 45-degree buckets centred on the canonical angles.
pub open spec fn spec_from_angle(millideg: int) -> Dir {
    let a = spec_abs(millideg) % 360_000;
    if a < 22_500 {
        Dir::Up
    } else if a < 67_500 {
        Dir::UpRight
    } else if a < 112_500 {
        Dir::Right
    } else if a < 157_500 {
        Dir::DownRight
    } else if a < 202_500 {
        Dir::Down
    } else if a < 247_500 {
        Dir::DownLeft
    } else if a < 292_500 {
        Dir::Left
    } else if a < 337_500 {
        Dir::UpLeft
    } else {
        Dir::Up
    }
}

impl Dir {
    /// Fixed displacement vector of a full-cell move in this direction.
    pub fn to_pos(&self) -> (r: Pos)
        ensures
            r == spec_to_pos(*self),
    {
        match self {
            Dir::Up => Pos(0, GRID_CELL_SIZE),
            Dir::UpRight => Pos(DIAG_FULL_STEP, DIAG_FULL_STEP),
            Dir::Right => Pos(GRID_CELL_SIZE, 0),
            Dir::DownRight => Pos(DIAG_FULL_STEP, -DIAG_FULL_STEP),
            Dir::Down => Pos(0, -GRID_CELL_SIZE),
            Dir::DownLeft => Pos(-DIAG_FULL_STEP, -DIAG_FULL_STEP),
            Dir::Left => Pos(-GRID_CELL_SIZE, 0),
            Dir::UpLeft => Pos(-DIAG_FULL_STEP, DIAG_FULL_STEP),
        }
    }

    /// The direction rotated by a half turn.
    pub fn opposite(&self) -> (r: Dir)
        ensures
            r == spec_opposite(*self),
    {
        match self {
            Dir::Up => Dir::Down,
            Dir::UpRight => Dir::DownLeft,
            Dir::Right => Dir::Left,
            Dir::DownRight => Dir::UpLeft,
            Dir::Down => Dir::Up,
            Dir::DownLeft => Dir::UpRight,
            Dir::Left => Dir::Right,
            Dir::UpLeft => Dir::DownRight,
        }
    }

    /// Nearest direction to a continuous angle given in thousandths of a
    /// degree, clockwise from `Up`.
    pub fn from_angle(millideg: i64) -> (r: Dir)
        requires
            -1_000_000_000_000 <= millideg <= 1_000_000_000_000,
        ensures
            r == spec_from_angle(millideg as int),
    {
        let mag: i64 = if millideg >= 0 {
            millideg
        } else {
            -millideg
        };
        let a: i64 = ((mag as u64) % 360_000) as i64;
        if a < 22_500 {
            Dir::Up
        } else if a < 67_500 {
            Dir::UpRight
        } else if a < 112_500 {
            Dir::Right
        } else if a < 157_500 {
            Dir::DownRight
        } else if a < 202_500 {
            Dir::Down
        } else if a < 247_500 {
            Dir::DownLeft
        } else if a < 292_500 {
            Dir::Left
        } else if a < 337_500 {
            Dir::UpLeft
        } else {
            Dir::Up
        }
    }

    /// Canonical angle of this direction in whole degrees, clockwise from
    /// `Up`; the table keeps the 235-degree south-west entry.
    pub fn into_angle(self) -> (r: u32)
        ensures
            r as int == spec_into_angle(self),
    {
        match self {
            Dir::Up => 0,
            Dir::UpRight => 45,
            Dir::Right => 90,
            Dir::DownRight => 135,
            Dir::Down => 180,
            Dir::DownLeft => 235,
            Dir::Left => 270,
            Dir::UpLeft => 315,
        }
    }

    /// Normalised minimal angular distance to `other`, in thousandths of a
    /// half turn: 0 for the same direction, 1000 for directions whose
    /// canonical angles lie a half turn apart.
    pub fn difference(&self, other: Dir) -> (r: u32)
        ensures
            r as int == spec_difference(*self, other),
    {
        let sa: i32 = self.into_angle() as i32;
        let sb: i32 = other.into_angle() as i32;
        let d1: i32 = sa - sb;
        let t1: i32 = if d1 >= 0 {
            d1
        } else {
            -d1
        };
        let d2: i32 = sa + 360 - sb;
        let t2: i32 = if d2 >= 0 {
            d2
        } else {
            -d2
        };
        let d3: i32 = sa - (sb + 360);
        let t3: i32 = if d3 >= 0 {
            d3
        } else {
            -d3
        };
        let m: i32 = if t1 < t2 {
            if t1 < t3 {
                t1
            } else {
                t3
            }
        } else {
            if t2 < t3 {
                t2
            } else {
                t3
            }
        };
        (m as u32) * 1000 / 180
    }
}

/// A half turn twice is the identity on every direction.
pub proof fn lemma_opposite_involution(d: Dir)
    ensures
        spec_opposite(spec_opposite(d)) == d,
{
}

/// Every direction is at angular distance zero from itself.
pub proof fn lemma_difference_self(d: Dir)
    ensures
        spec_difference(d, d) == 0,
{
}

/// A direction and its opposite lie a full half turn apart. The south-west
/// angle table entry of 235 degrees breaks this for the north-east /
/// south-west pair, which is therefore left out.
pub proof fn lemma_difference_opposite(d: Dir)
    requires
        d != Dir::UpRight,
        d != Dir::DownLeft,
    ensures
        spec_difference(d, spec_opposite(d)) == 1000,
{
}

/// Truncated remainder on the cell size, matching the sign of `v`.
pub open spec fn spec_cell_rem(v: int) -> int {
    if v >= 0 {
        v % (GRID_CELL_SIZE as int)
    } else {
        -((-v) % (GRID_CELL_SIZE as int))
    }
}

/// Snapped cursor position as a whole: the cell is found by the truncated
/// remainder of each coordinate, and the cell-relative offset picks one of
/// the four half-cell attachment points on the cell's edges.
pub open spec fn spec_snap_to_grid(pos: Pos) -> Pos {
    let offx = spec_cell_rem(pos.0 as int);
    let offy = spec_cell_rem(pos.1 as int);
    let rx = pos.0 - offx;
    let ry = pos.1 - offy;
    let half = GRID_CELL_SIZE as int / 2;
    if offx > offy {
        if offx + offy < GRID_CELL_SIZE as int {
            Pos((rx + half) as i32, ry as i32)
        } else {
            Pos((rx + GRID_CELL_SIZE as int) as i32, (ry + half) as i32)
        }
    } else {
        if offx + offy < GRID_CELL_SIZE as int {
            Pos(rx as i32, (ry + half) as i32)
        } else {
            Pos((rx + half) as i32, (ry + GRID_CELL_SIZE as int) as i32)
        }
    }
}

/// Snaps a free cursor position to the nearest track attachment point: the
/// midpoint of one of the four edges of the cell the cursor falls in.
pub fn snap_to_grid(pos: Pos) -> (r: Pos)
    requires
        pos_ok(pos),
    ensures
        r == spec_snap_to_grid(pos),
{
    let offx: i32 = if pos.0 >= 0 {
        (((pos.0 as u32) % (GRID_CELL_SIZE as u32)) as i32)
    } else {
        -((((-pos.0) as u32) % (GRID_CELL_SIZE as u32)) as i32)
    };
    let offy: i32 = if pos.1 >= 0 {
        (((pos.1 as u32) % (GRID_CELL_SIZE as u32)) as i32)
    } else {
        -((((-pos.1) as u32) % (GRID_CELL_SIZE as u32)) as i32)
    };
    let rx: i32 = pos.0 - offx;
    let ry: i32 = pos.1 - offy;
    let half: i32 = GRID_CELL_SIZE / 2;
    if offx > offy {
        if offx + offy < GRID_CELL_SIZE {
            Pos(rx + half, ry)
        } else {
            Pos(rx + GRID_CELL_SIZE, ry + half)
        }
    } else {
        if offx + offy < GRID_CELL_SIZE {
            Pos(rx, ry + half)
        } else {
            Pos(rx + half, ry + GRID_CELL_SIZE)
        }
    }
}

} // verus!
