//! Fixed-point planar geometry: points, the arena rectangle, box overlap.

use crate::random::random_in_range;
use vstd::prelude::*;

verus! {

/// A point or a vector of the plane.
#[derive(Clone, Copy, Debug, PartialEq, Eq, Structural)]
pub struct Vec2 {
    pub x: i64,
    pub y: i64,
}

/// `v` limited to the closed interval from `lo` to `hi`.
pub open spec fn clamp_int(v: int, lo: int, hi: int) -> int {
    if v < lo {
        lo
    } else if v > hi {
        hi
    } else {
        v
    }
}

/// The coordinate, on both axes, of the place where dead players are
/// kept. No arena reaches it.
pub const OFF_FIELD: i64 = i64::MAX;

/// The place where dead players are kept.
pub open spec fn off_field() -> Vec2 {
    Vec2 { x: OFF_FIELD, y: OFF_FIELD }
}

/// The rectangular play field, centred on the origin.
///
/// Both half-extents are in millionths of a world unit. Neither is
/// negative, and neither reaches the place where dead players are kept.
#[derive(Clone, Copy, Debug, PartialEq, Eq, Structural)]
pub struct Arena {
    pub half_width: i64,
    pub half_height: i64,
}

impl Arena {
    /// Neither half-extent is negative or reaches the off-field place.
    pub open spec fn wf(&self) -> bool {
        &&& 0 <= self.half_width < OFF_FIELD
        &&& 0 <= self.half_height < OFF_FIELD
    }

    /// `p` lies in the closed rectangle.
    pub open spec fn contains(&self, p: Vec2) -> bool {
        &&& -self.half_width <= p.x <= self.half_width
        &&& -self.half_height <= p.y <= self.half_height
    }

    /// The arena that fills a window of the given width and height.
    ///
    /// Each half-extent is half the window's, rounded down. Only a
    /// negative width or height has no arena.
    pub fn from_extent(width: i64, height: i64) -> (arena: Option<Arena>)
        ensures
            (width >= 0 && height >= 0) ==> arena == Some(
                (Arena { half_width: (width / 2) as i64, half_height: (height / 2) as i64 }),
            ),
            !(width >= 0 && height >= 0) ==> arena.is_none(),
            arena.is_some() ==> arena.unwrap().wf(),
    {
        if width >= 0 && height >= 0 {
            Some(Arena { half_width: width / 2, half_height: height / 2 })
        } else {
            None
        }
    }

    /// Whether `p` lies in the closed rectangle.
    pub fn is_inside(&self, p: Vec2) -> (inside: bool)
        requires
            self.wf(),
        ensures
            inside == self.contains(p),
    {
        -self.half_width <= p.x && p.x <= self.half_width && -self.half_height <= p.y && p.y
            <= self.half_height
    }

    /// Whether the arena is well formed.
    pub fn is_valid(&self) -> (valid: bool)
        ensures
            valid == self.wf(),
    {
        0 <= self.half_width && self.half_width < OFF_FIELD && 0 <= self.half_height
            && self.half_height < OFF_FIELD
    }

    /// Draws a place in the arena at random.
    ///
    /// On each axis the coordinate is drawn from minus the half-extent up
    /// to but not including the half-extent; on an axis without extent
    /// it is 0.
    pub fn random_place(&self) -> (place: Vec2)
        requires
            self.wf(),
        ensures
            self.contains(place),
            self.half_width >= 1 ==> place.x < self.half_width,
            self.half_height >= 1 ==> place.y < self.half_height,
    {
        let x = if self.half_width >= 1 {
            random_in_range(-self.half_width, self.half_width)
        } else {
            0
        };
        let y = if self.half_height >= 1 {
            random_in_range(-self.half_height, self.half_height)
        } else {
            0
        };
        Vec2 { x, y }
    }
}

/// The off-field place lies outside every arena.
pub proof fn lemma_off_field_is_outside(arena: Arena)
    requires
        arena.wf(),
    ensures
        !arena.contains(off_field()),
{
}

/// Half the side, in millionths of a world unit, of the box of an entity
/// whose scale is given in thousandths.
pub open spec fn half_extent(scale: u32) -> int {
    scale * 500
}

/// The boxes of two entities overlap: on each axis the lower edge of each
/// lies strictly below the upper edge of the other. Boxes that only touch
/// do not overlap.
pub open spec fn boxes_overlap(a: Vec2, a_scale: u32, b: Vec2, b_scale: u32) -> bool {
    &&& a.x - half_extent(a_scale) < b.x + half_extent(b_scale)
    &&& a.x + half_extent(a_scale) > b.x - half_extent(b_scale)
    &&& a.y - half_extent(a_scale) < b.y + half_extent(b_scale)
    &&& a.y + half_extent(a_scale) > b.y - half_extent(b_scale)
}

/// Whether the boxes of two entities overlap.
pub fn overlaps(a: Vec2, a_scale: u32, b: Vec2, b_scale: u32) -> (hit: bool)
    ensures
        hit == boxes_overlap(a, a_scale, b, b_scale),
{
    let ha: i128 = (a_scale as i128) * 500;
    let hb: i128 = (b_scale as i128) * 500;
    let ax: i128 = a.x as i128;
    let ay: i128 = a.y as i128;
    let bx: i128 = b.x as i128;
    let by: i128 = b.y as i128;
    ax - ha < bx + hb && ax + ha > bx - hb && ay - ha < by + hb && ay + ha > by - hb
}

/// The quotient of `a` by a positive `b`, rounded toward zero.
pub open spec fn div_toward_zero(a: int, b: int) -> int {
    if a >= 0 {
        a / b
    } else {
        -((-a) / b)
    }
}

/// `r` is the least positive integer whose square is at least `n`.
pub open spec fn is_root_above(r: int, n: int) -> bool {
    r >= 1 && (r - 1) * (r - 1) < n <= r * r
}

/// The least positive integer whose square is at least `n`, for `n >= 1`.
pub open spec fn root_above(n: int) -> int {
    choose|r: int| is_root_above(r, n)
}

/// Only one integer is the root above `n`.
pub proof fn lemma_root_above_unique(r: int, s: int, n: int)
    requires
        is_root_above(r, n),
        is_root_above(s, n),
    ensures
        r == s,
{
    assert(r <= s) by (nonlinear_arith)
        requires
            r >= 1,
            s >= 1,
            (r - 1) * (r - 1) < s * s,
    ;
    assert(s <= r) by (nonlinear_arith)
        requires
            r >= 1,
            s >= 1,
            (s - 1) * (s - 1) < r * r,
    ;
}

/// The squared length of a vector.
pub open spec fn length_squared(v: Vec2) -> int {
    v.x * v.x + v.y * v.y
}

/// Each component is between -1000 and 1000 thousandths.
pub open spec fn is_stick_sample(v: Vec2) -> bool {
    -1000 <= v.x <= 1000 && -1000 <= v.y <= 1000
}

/// Each component is between minus one million and one million
/// millionths.
pub open spec fn is_unit_stick(v: Vec2) -> bool {
    -1_000_000 <= v.x <= 1_000_000 && -1_000_000 <= v.y <= 1_000_000
}

/// A stick sample, given in thousandths, cut back to the unit disc and
/// expressed in millionths.
///
/// A sample no longer than 1 is kept. A longer one is divided by its
/// length, taken in millionths as the root above a million times its
/// squared length, each component rounded toward zero.
pub open spec fn unit_limited(v: Vec2) -> Vec2 {
    if length_squared(v) <= 1_000_000 {
        Vec2 { x: (v.x * 1000) as i64, y: (v.y * 1000) as i64 }
    } else {
        Vec2 {
            x: div_toward_zero(
                v.x * 1_000_000_000,
                root_above(length_squared(v) * 1_000_000),
            ) as i64,
            y: div_toward_zero(
                v.y * 1_000_000_000,
                root_above(length_squared(v) * 1_000_000),
            ) as i64,
        }
    }
}

fn root_above_of(n: i64) -> (r: i64)
    requires
        1_000_000 < n <= 2_000_000,
    ensures
        is_root_above(r as int, n * 1_000_000),
        r == root_above(n * 1_000_000),
        1_000_001 <= r <= 1_414_214,
{
    let target: i64 = n * 1_000_000;
    let mut lo: i64 = 1_000_000;
    let mut hi: i64 = 1_414_214;
    while hi - lo > 1
        invariant
            1_000_000 <= lo < hi <= 1_414_214,
            lo * lo < target <= hi * hi,
        decreases hi - lo,
    {
        let mid: i64 = lo + (hi - lo) / 2;
        assert(0 <= mid * mid <= 1_414_214 * 1_414_214) by (nonlinear_arith)
            requires
                0 <= mid <= 1_414_214,
        ;
        if mid * mid < target {
            lo = mid;
        } else {
            hi = mid;
        }
    }
    proof {
        assert(is_root_above(hi as int, target as int));
        lemma_root_above_unique(hi as int, root_above(target as int), target as int);
    }
    hi
}

/// The quotients of the scaled components make a vector no longer
/// than 1.
proof fn lemma_unit_limited_square(ax: int, ay: int, m: int, qx: int, qy: int)
    requires
        0 <= ax,
        0 <= ay,
        m >= 1,
        (ax * ax + ay * ay) * 1_000_000 <= m * m,
        qx == (ax * 1_000_000_000) / m,
        qy == (ay * 1_000_000_000) / m,
    ensures
        0 <= qx <= 1_000_000,
        0 <= qy <= 1_000_000,
        qx * qx + qy * qy <= 1_000_000_000_000,
{
    assert(0 <= qx && qx * m <= ax * 1_000_000_000) by (nonlinear_arith)
        requires
            qx == (ax * 1_000_000_000) / m,
            m >= 1,
            ax >= 0,
    ;
    assert(0 <= qy && qy * m <= ay * 1_000_000_000) by (nonlinear_arith)
        requires
            qy == (ay * 1_000_000_000) / m,
            m >= 1,
            ay >= 0,
    ;
    assert((qx * m) * (qx * m) <= (ax * 1_000_000_000) * (ax * 1_000_000_000))
        by (nonlinear_arith)
        requires
            0 <= qx * m <= ax * 1_000_000_000,
    ;
    assert((qy * m) * (qy * m) <= (ay * 1_000_000_000) * (ay * 1_000_000_000))
        by (nonlinear_arith)
        requires
            0 <= qy * m <= ay * 1_000_000_000,
    ;
    assert((qx * qx + qy * qy) * (m * m) <= 1_000_000_000_000 * (m * m)) by (nonlinear_arith)
        requires
            (qx * m) * (qx * m) <= (ax * 1_000_000_000) * (ax * 1_000_000_000),
            (qy * m) * (qy * m) <= (ay * 1_000_000_000) * (ay * 1_000_000_000),
            (ax * ax + ay * ay) * 1_000_000 <= m * m,
    ;
    assert(qx * qx + qy * qy <= 1_000_000_000_000) by (nonlinear_arith)
        requires
            (qx * qx + qy * qy) * (m * m) <= 1_000_000_000_000 * (m * m),
            m >= 1,
    ;
    assert(qx <= 1_000_000) by (nonlinear_arith)
        requires
            qx * qx + qy * qy <= 1_000_000_000_000,
            0 <= qx,
    ;
    assert(qy <= 1_000_000) by (nonlinear_arith)
        requires
            qx * qx + qy * qy <= 1_000_000_000_000,
            0 <= qy,
    ;
}

/// The quotients of the scaled components make a vector of unit length
/// within the resolution: rounding costs each component less than one
/// millionth, and the root above is less than one millionth too long.
proof fn lemma_unit_limited_long(ax: int, ay: int, m: int, qx: int, qy: int)
    requires
        0 <= ax <= 1000,
        0 <= ay <= 1000,
        1_000_001 <= m <= 1_414_214,
        (m - 1) * (m - 1) < (ax * ax + ay * ay) * 1_000_000,
        qx == (ax * 1_000_000_000) / m,
        qy == (ay * 1_000_000_000) / m,
        0 <= qx <= 1_000_000,
        0 <= qy <= 1_000_000,
    ensures
        qx * qx + qy * qy >= 999_990_000_000,
{
    let rx = ax * 1_000_000_000 - qx * m;
    let ry = ay * 1_000_000_000 - qy * m;
    assert(0 <= rx < m) by (nonlinear_arith)
        requires
            rx == ax * 1_000_000_000 - qx * m,
            qx == (ax * 1_000_000_000) / m,
            m >= 1,
            ax >= 0,
    ;
    assert(0 <= ry < m) by (nonlinear_arith)
        requires
            ry == ay * 1_000_000_000 - qy * m,
            qy == (ay * 1_000_000_000) / m,
            m >= 1,
            ay >= 0,
    ;
    let s = qx * qx + qy * qy;
    assert(1_000_000_000_000_000_000 * (ax * ax) == (qx * qx) * (m * m) + 2 * m * (qx * rx) + rx
        * rx) by (nonlinear_arith)
        requires
            ax * 1_000_000_000 == qx * m + rx,
    ;
    assert(1_000_000_000_000_000_000 * (ay * ay) == (qy * qy) * (m * m) + 2 * m * (qy * ry) + ry
        * ry) by (nonlinear_arith)
        requires
            ay * 1_000_000_000 == qy * m + ry,
    ;
    assert(qx * rx <= 1_000_000 * m && rx * rx <= m * m) by (nonlinear_arith)
        requires
            0 <= qx <= 1_000_000,
            0 <= rx < m,
    ;
    assert(qy * ry <= 1_000_000 * m && ry * ry <= m * m) by (nonlinear_arith)
        requires
            0 <= qy <= 1_000_000,
            0 <= ry < m,
    ;
    assert(2 * m * (qx * rx) <= 2_000_000 * (m * m)) by (nonlinear_arith)
        requires
            qx * rx <= 1_000_000 * m,
            m >= 1,
    ;
    assert(2 * m * (qy * ry) <= 2_000_000 * (m * m)) by (nonlinear_arith)
        requires
            qy * ry <= 1_000_000 * m,
            m >= 1,
    ;
    assert(1_000_000_000_000_000_000 * (ax * ax + ay * ay) <= s * (m * m) + 4_000_002 * (m * m))
        by (nonlinear_arith)
        requires
            s == qx * qx + qy * qy,
            1_000_000_000_000_000_000 * (ax * ax) == (qx * qx) * (m * m) + 2 * m * (qx * rx)
                + rx * rx,
            1_000_000_000_000_000_000 * (ay * ay) == (qy * qy) * (m * m) + 2 * m * (qy * ry)
                + ry * ry,
            2 * m * (qx * rx) <= 2_000_000 * (m * m),
            2 * m * (qy * ry) <= 2_000_000 * (m * m),
            rx * rx <= m * m,
            ry * ry <= m * m,
    ;
    assert(1_000_000_000_000 * ((m - 1) * (m - 1)) >= 999_994_000_002 * (m * m))
        by (nonlinear_arith)
        requires
            m >= 1_000_001,
    ;
    assert(s * (m * m) >= 999_990_000_000 * (m * m)) by (nonlinear_arith)
        requires
            1_000_000_000_000_000_000 * (ax * ax + ay * ay) <= s * (m * m) + 4_000_002 * (m
                * m),
            1_000_000_000_000 * ((m - 1) * (m - 1)) >= 999_994_000_002 * (m * m),
            (m - 1) * (m - 1) < (ax * ax + ay * ay) * 1_000_000,
    ;
    assert(s >= 999_990_000_000) by (nonlinear_arith)
        requires
            s * (m * m) >= 999_990_000_000 * (m * m),
            m >= 1,
    ;
}

/// Cuts a stick sample, given in thousandths, back to the unit disc and
/// hands it out in millionths.
///
/// A sample no longer than 1 comes out as it went in. A longer one
/// comes out with unit length to within five millionths: never longer
/// than 1, never shorter than 0.999995.
pub fn limit_to_unit(v: Vec2) -> (out: Vec2)
    requires
        is_stick_sample(v),
    ensures
        out == unit_limited(v),
        is_unit_stick(out),
        length_squared(out) <= 1_000_000_000_000,
        length_squared(v) > 1_000_000 ==> length_squared(out) >= 999_990_000_000,
        length_squared(v) <= 1_000_000 ==> out.x == v.x * 1000 && out.y == v.y * 1000,
{
    assert(0 <= v.x * v.x <= 1_000_000 && 0 <= v.y * v.y <= 1_000_000) by (nonlinear_arith)
        requires
            -1000 <= v.x <= 1000,
            -1000 <= v.y <= 1000,
    ;
    let n: i64 = v.x * v.x + v.y * v.y;
    if n <= 1_000_000 {
        let out = Vec2 { x: v.x * 1000, y: v.y * 1000 };
        assert(length_squared(out) == 1_000_000 * length_squared(v)) by (nonlinear_arith)
            requires
                out.x == v.x * 1000,
                out.y == v.y * 1000,
        ;
        return out;
    }
    let m: i64 = root_above_of(n);
    let ax: i64 = if v.x >= 0 {
        v.x
    } else {
        -v.x
    };
    let ay: i64 = if v.y >= 0 {
        v.y
    } else {
        -v.y
    };
    let qx: i64 = (ax * 1_000_000_000) / m;
    let qy: i64 = (ay * 1_000_000_000) / m;
    proof {
        assert(ax * ax == v.x * v.x) by (nonlinear_arith)
            requires
                ax == v.x || ax == -v.x,
        ;
        assert(ay * ay == v.y * v.y) by (nonlinear_arith)
            requires
                ay == v.y || ay == -v.y,
        ;
        lemma_unit_limited_square(ax as int, ay as int, m as int, qx as int, qy as int);
        lemma_unit_limited_long(ax as int, ay as int, m as int, qx as int, qy as int);
        assert(qx * qx == (-qx) * (-qx)) by (nonlinear_arith);
        assert(qy * qy == (-qy) * (-qy)) by (nonlinear_arith);
    }
    let x: i64 = if v.x >= 0 {
        qx
    } else {
        -qx
    };
    let y: i64 = if v.y >= 0 {
        qy
    } else {
        -qy
    };
    Vec2 { x, y }
}

/// A coordinate after a move along one axis, kept inside the arena.
///
/// `speed` is in world units per second, `ms` in milliseconds and `axis`
/// in millionths. Their product is in thousand-millionths of a world
/// unit; a thousandth of it, rounded toward zero, is the way gone in
/// millionths.
pub open spec fn moved_coord(pos: int, speed: int, ms: int, axis: int, half: int) -> int {
    clamp_int(pos + div_toward_zero(speed * ms * axis, 1000), -half, half)
}

/// Moves one coordinate and keeps it inside the arena.
pub fn move_coord(pos: i64, speed: u32, ms: u32, axis: i64, half: i64) -> (out: i64)
    requires
        -1_000_000 <= axis <= 1_000_000,
        half >= 0,
    ensures
        out == moved_coord(pos as int, speed as int, ms as int, axis as int, half as int),
        -half <= out <= half,
{
    assert(0 <= speed * ms <= 0xffff_ffff * 0xffff_ffff) by (nonlinear_arith)
        requires
            0 <= speed <= 0xffff_ffff,
            0 <= ms <= 0xffff_ffff,
    ;
    let reach: i128 = (speed as i128) * (ms as i128);
    assert(-(0xffff_ffff * 0xffff_ffff * 1_000_000) <= reach * axis <= 0xffff_ffff * 0xffff_ffff
        * 1_000_000) by (nonlinear_arith)
        requires
            0 <= reach <= 0xffff_ffff * 0xffff_ffff,
            -1_000_000 <= axis <= 1_000_000,
    ;
    let product: i128 = reach * (axis as i128);
    assert(product == speed * ms * axis) by (nonlinear_arith)
        requires
            product == reach * axis,
            reach == speed * ms,
    ;
    let step: i128 = if product >= 0 {
        product / 1000
    } else {
        -((-product) / 1000)
    };
    let moved: i128 = (pos as i128) + step;
    if moved < -(half as i128) {
        -half
    } else if moved > half as i128 {
        half
    } else {
        moved as i64
    }
}

/// A coordinate after drifting at `vel` thousandths of a world unit per
/// second for `ms` milliseconds, held at the ends of the 64-bit range.
pub open spec fn drifted_coord(pos: int, vel: int, ms: int) -> int {
    clamp_int(pos + vel * ms, i64::MIN as int, i64::MAX as int)
}

/// Advances one coordinate by its velocity.
pub fn drift_coord(pos: i64, vel: i64, ms: u32) -> (out: i64)
    ensures
        out == drifted_coord(pos as int, vel as int, ms as int),
{
    assert(-(0x8000_0000_0000_0000 * 0xffff_ffff) <= vel * ms <= 0x8000_0000_0000_0000
        * 0xffff_ffff) by (nonlinear_arith)
        requires
            -0x8000_0000_0000_0000 <= vel <= 0x8000_0000_0000_0000,
            0 <= ms <= 0xffff_ffff,
    ;
    let sum: i128 = (pos as i128) + (vel as i128) * (ms as i128);
    if sum < i64::MIN as i128 {
        i64::MIN
    } else if sum > i64::MAX as i128 {
        i64::MAX
    } else {
        sum as i64
    }
}

} // verus!
