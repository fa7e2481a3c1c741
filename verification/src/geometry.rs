//! Distances between points and trail segments, decided exactly.
//!
//! Positions are given in whole millionths of a world unit. Every test
//! compares squares, so no root is taken and no result depends on
//! rounding: the same coordinates give the same answer on every machine.

use vstd::prelude::*;

verus! {

/// Largest magnitude of a coordinate, in millionths of a world unit: 2^29,
/// some 536 world units.
pub const COORD_MAX: i32 = 536_870_912;

/// Distance that a player must travel from its last segment before it
/// emits the next one: 0.1 world units.
pub const TRAIL_SPAWN_DIST: u32 = 100_000;

/// Half the length of a trail segment: 0.05 world units.
pub const TRAIL_HALF_LENGTH: u32 = 50_000;

/// Radius of a player: 0.18 world units.
pub const PLAYER_RADIUS: u32 = 180_000;

/// Radius of a trail segment, and the height by which its middle is lifted
/// off the surface: 0.2 world units.
pub const TRAIL_RADIUS: u32 = 200_000;

/// Distance below which a player and a trail segment touch: the sum of
/// their radii.
pub const REACH: u32 = TRAIL_RADIUS + PLAYER_RADIUS;

/// A position, in millionths of a world unit from the sphere's centre.
#[derive(Clone, Copy, Debug, PartialEq, Eq, Structural)]
pub struct Point {
    pub x: i32,
    pub y: i32,
    pub z: i32,
}

/// The straight piece between the two ends of a trail segment.
#[derive(Clone, Copy, Debug, PartialEq, Eq, Structural)]
pub struct Segment {
    pub start: Point,
    pub end: Point,
}

/// Scalar product of two vectors given by their components.
pub open spec fn dot(ax: int, ay: int, az: int, bx: int, by: int, bz: int) -> int {
    ax * bx + ay * by + az * bz
}

impl Point {
    /// The coordinates are within `COORD_MAX` of zero.
    pub open spec fn wf(self) -> bool {
        &&& -COORD_MAX <= self.x <= COORD_MAX
        &&& -COORD_MAX <= self.y <= COORD_MAX
        &&& -COORD_MAX <= self.z <= COORD_MAX
    }

    /// Squared distance to `other`.
    pub open spec fn dist_sq(self, other: Point) -> int {
        dot(
            self.x - other.x,
            self.y - other.y,
            self.z - other.z,
            self.x - other.x,
            self.y - other.y,
            self.z - other.z,
        )
    }

    /// Whether `other` is farther away than `distance`.
    pub open spec fn farther_than_spec(self, other: Point, distance: u32) -> bool {
        self.dist_sq(other) > distance * distance
    }

    /// Tests that the coordinates are within `COORD_MAX` of zero.
    pub fn in_range(&self) -> (r: bool)
        ensures
            r == self.wf(),
    {
        -COORD_MAX <= self.x && self.x <= COORD_MAX && -COORD_MAX <= self.y && self.y <= COORD_MAX
            && -COORD_MAX <= self.z && self.z <= COORD_MAX
    }

    /// Tests whether `other` is farther away than `distance`.
    pub fn farther_than(&self, other: &Point, distance: u32) -> (r: bool)
        ensures
            r == self.farther_than_spec(*other, distance),
    {
        let dx: i128 = self.x as i128 - other.x as i128;
        let dy: i128 = self.y as i128 - other.y as i128;
        let dz: i128 = self.z as i128 - other.z as i128;
        let d: i128 = distance as i128;
        proof {
            lemma_product_bound(dx as int, dx as int, 0x1_0000_0000, 0x1_0000_0000);
            lemma_product_bound(dy as int, dy as int, 0x1_0000_0000, 0x1_0000_0000);
            lemma_product_bound(dz as int, dz as int, 0x1_0000_0000, 0x1_0000_0000);
            lemma_product_bound(d as int, d as int, 0x1_0000_0000, 0x1_0000_0000);
        }
        dx * dx + dy * dy + dz * dz > d * d
    }
}

/// Bound on a product of two bounded numbers.
proof fn lemma_product_bound(a: int, b: int, m: int, n: int)
    requires
        -m <= a <= m,
        -n <= b <= n,
    ensures
        -(m * n) <= a * b <= m * n,
{
    assert(-(m * n) <= a * b <= m * n) by (nonlinear_arith)
        requires
            -m <= a <= m,
            -n <= b <= n,
    ;
}

/// Scalar product of two vectors whose components are differences of
/// coordinates in range.
fn exec_dot(ax: i64, ay: i64, az: i64, bx: i64, by: i64, bz: i64) -> (r: i128)
    requires
        -0x4000_0000 <= ax <= 0x4000_0000,
        -0x4000_0000 <= ay <= 0x4000_0000,
        -0x4000_0000 <= az <= 0x4000_0000,
        -0x4000_0000 <= bx <= 0x4000_0000,
        -0x4000_0000 <= by <= 0x4000_0000,
        -0x4000_0000 <= bz <= 0x4000_0000,
    ensures
        r == dot(ax as int, ay as int, az as int, bx as int, by as int, bz as int),
        -0x3000_0000_0000_0000 <= r <= 0x3000_0000_0000_0000,
{
    proof {
        lemma_product_bound(ax as int, bx as int, 0x4000_0000, 0x4000_0000);
        lemma_product_bound(ay as int, by as int, 0x4000_0000, 0x4000_0000);
        lemma_product_bound(az as int, bz as int, 0x4000_0000, 0x4000_0000);
    }
    (ax as i128) * (bx as i128) + (ay as i128) * (by as i128) + (az as i128) * (bz as i128)
}

/// Squared distance between two points in range.
fn exec_dist_sq(p: &Point, q: &Point) -> (r: i128)
    requires
        p.wf(),
        q.wf(),
    ensures
        r == p.dist_sq(*q),
        0 <= r <= 0x3000_0000_0000_0000,
{
    let dx: i64 = p.x as i64 - q.x as i64;
    let dy: i64 = p.y as i64 - q.y as i64;
    let dz: i64 = p.z as i64 - q.z as i64;
    proof {
        assert((dx as int) * (dx as int) >= 0) by (nonlinear_arith);
        assert((dy as int) * (dy as int) >= 0) by (nonlinear_arith);
        assert((dz as int) * (dz as int) >= 0) by (nonlinear_arith);
    }
    exec_dot(dx, dy, dz, dx, dy, dz)
}

impl Segment {
    /// Both ends are in range.
    pub open spec fn wf(self) -> bool {
        self.start.wf() && self.end.wf()
    }

    /// Scalar product of the way from the start to `p` with the way from
    /// the start to the end: where along the segment `p` lies, in units of
    /// the segment's squared length.
    pub open spec fn along(self, p: Point) -> int {
        dot(
            p.x - self.start.x,
            p.y - self.start.y,
            p.z - self.start.z,
            self.end.x - self.start.x,
            self.end.y - self.start.y,
            self.end.z - self.start.z,
        )
    }

    /// Squared length of the segment.
    pub open spec fn length_sq(self) -> int {
        self.end.dist_sq(self.start)
    }

    /// Whether `p` is nearer to the segment than `reach`. The nearest
    /// point of the segment is the start where `p` lies before it, the end
    /// where `p` lies behind it, and else the foot of the perpendicular
    /// from `p`; the last case is written without the division.
    pub open spec fn within_reach_spec(self, p: Point, reach: u32) -> bool {
        if self.along(p) <= 0 {
            p.dist_sq(self.start) < reach * reach
        } else if self.length_sq() <= self.along(p) {
            p.dist_sq(self.end) < reach * reach
        } else {
            self.length_sq() * p.dist_sq(self.start) - self.along(p) * self.along(p) < reach
                * reach * self.length_sq()
        }
    }

    /// `d^2` times the squared distance from `p` to the point that lies
    /// the fraction `s / d` of the way from the start to the end.
    pub open spec fn scaled_dist_sq(self, p: Point, s: int, d: int) -> int {
        dot(
            d * (p.x - self.start.x) - s * (self.end.x - self.start.x),
            d * (p.y - self.start.y) - s * (self.end.y - self.start.y),
            d * (p.z - self.start.z) - s * (self.end.z - self.start.z),
            d * (p.x - self.start.x) - s * (self.end.x - self.start.x),
            d * (p.y - self.start.y) - s * (self.end.y - self.start.y),
            d * (p.z - self.start.z) - s * (self.end.z - self.start.z),
        )
    }

    /// Whether the point that lies the fraction `s / d` of the way along
    /// the segment is nearer to `p` than `reach`.
    pub open spec fn near_at(self, p: Point, reach: u32, s: int, d: int) -> bool {
        0 < d && 0 <= s <= d && self.scaled_dist_sq(p, s, d) < reach * reach * d * d
    }

    /// Tests that both ends are in range.
    pub fn in_range(&self) -> (r: bool)
        ensures
            r == self.wf(),
    {
        self.start.in_range() && self.end.in_range()
    }

    /// Tests whether `p` is nearer to the segment than `reach`.
    pub fn within_reach(&self, p: &Point, reach: u32) -> (r: bool)
        requires
            self.wf(),
            p.wf(),
        ensures
            r == self.within_reach_spec(*p, reach),
    {
        let vx: i64 = self.end.x as i64 - self.start.x as i64;
        let vy: i64 = self.end.y as i64 - self.start.y as i64;
        let vz: i64 = self.end.z as i64 - self.start.z as i64;
        let wx: i64 = p.x as i64 - self.start.x as i64;
        let wy: i64 = p.y as i64 - self.start.y as i64;
        let wz: i64 = p.z as i64 - self.start.z as i64;
        let r: i128 = reach as i128;
        assert(0 <= r * r <= 0xffff_ffff * 0xffff_ffff) by (nonlinear_arith)
            requires
                0 <= r <= 0xffff_ffff,
        ;
        let rr: i128 = r * r;
        let c1: i128 = exec_dot(wx, wy, wz, vx, vy, vz);
        if c1 <= 0 {
            return exec_dist_sq(p, &self.start) < rr;
        }
        let c2: i128 = exec_dist_sq(&self.end, &self.start);
        if c2 <= c1 {
            return exec_dist_sq(p, &self.end) < rr;
        }
        let ww: i128 = exec_dist_sq(p, &self.start);
        proof {
            lemma_product_bound(c2 as int, ww as int, 0x3000_0000_0000_0000, 0x3000_0000_0000_0000);
            lemma_product_bound(c1 as int, c1 as int, 0x3000_0000_0000_0000, 0x3000_0000_0000_0000);
            lemma_product_bound(
                rr as int,
                c2 as int,
                0xffff_fffe_0000_0001,
                0x3000_0000_0000_0000,
            );
            assert(reach * reach * self.length_sq() == rr * c2) by (nonlinear_arith)
                requires
                    rr == reach * reach,
                    c2 == self.length_sq(),
            ;
        }
        c2 * ww - c1 * c1 < rr * c2
    }
}

/// `(d * w - s * v)^2`, multiplied out.
proof fn lemma_square_of_difference(d: int, w: int, s: int, v: int)
    ensures
        (d * w - s * v) * (d * w - s * v) == (d * d) * (w * w) - 2 * ((s * d) * (w * v)) + (s * s)
            * (v * v),
{
    let a = d * w;
    let b = s * v;
    assert((a - b) * (a - b) == a * a - 2 * (a * b) + b * b) by (nonlinear_arith);
    assert(a * a == (d * d) * (w * w)) by (nonlinear_arith)
        requires
            a == d * w,
    ;
    assert(a * b == (s * d) * (w * v)) by (nonlinear_arith)
        requires
            a == d * w,
            b == s * v,
    ;
    assert(b * b == (s * s) * (v * v)) by (nonlinear_arith)
        requires
            b == s * v,
    ;
}

/// The squared distance to a point along the segment, written out in the
/// three scalar products that the test uses.
proof fn lemma_scaled_dist_sq(seg: Segment, p: Point, s: int, d: int)
    ensures
        seg.scaled_dist_sq(p, s, d) == (d * d) * p.dist_sq(seg.start) - 2 * ((s * d) * seg.along(
            p,
        )) + (s * s) * seg.length_sq(),
        p.dist_sq(seg.end) == p.dist_sq(seg.start) - 2 * seg.along(p) + seg.length_sq(),
        seg.length_sq() >= 0,
        p.dist_sq(seg.start) >= 0,
{
    let wx = p.x - seg.start.x;
    let wy = p.y - seg.start.y;
    let wz = p.z - seg.start.z;
    let vx = seg.end.x - seg.start.x;
    let vy = seg.end.y - seg.start.y;
    let vz = seg.end.z - seg.start.z;
    let dd = d * d;
    let sd = s * d;
    let ss = s * s;
    lemma_square_of_difference(d, wx, s, vx);
    lemma_square_of_difference(d, wy, s, vy);
    lemma_square_of_difference(d, wz, s, vz);
    assert(dd * (wx * wx) + dd * (wy * wy) + dd * (wz * wz) == dd * (wx * wx + wy * wy + wz * wz))
        by (nonlinear_arith);
    assert(sd * (wx * vx) + sd * (wy * vy) + sd * (wz * vz) == sd * (wx * vx + wy * vy + wz * vz))
        by (nonlinear_arith);
    assert(ss * (vx * vx) + ss * (vy * vy) + ss * (vz * vz) == ss * (vx * vx + vy * vy + vz * vz))
        by (nonlinear_arith);
    lemma_square_of_difference(1, wx, 1, vx);
    lemma_square_of_difference(1, wy, 1, vy);
    lemma_square_of_difference(1, wz, 1, vz);
    assert(p.x - seg.end.x == 1 * wx - 1 * vx && p.y - seg.end.y == 1 * wy - 1 * vy && p.z
        - seg.end.z == 1 * wz - 1 * vz);
    assert(vx * vx >= 0 && vy * vy >= 0 && vz * vz >= 0) by (nonlinear_arith);
    assert(wx * wx >= 0 && wy * wy >= 0 && wz * wz >= 0) by (nonlinear_arith);
}

/// Where the test finds `p` within reach, some point of the segment is
/// nearer to `p` than `reach`: the fraction `s / d` names it.
pub proof fn lemma_within_reach_has_near_point(seg: Segment, p: Point, reach: u32) -> (at: (
    int,
    int,
))
    requires
        seg.within_reach_spec(p, reach),
    ensures
        seg.near_at(p, reach, at.0, at.1),
{
    let w = p.dist_sq(seg.start);
    let c1 = seg.along(p);
    let c2 = seg.length_sq();
    let rr = reach * reach;
    if c1 <= 0 {
        lemma_scaled_dist_sq(seg, p, 0, 1);
        (0, 1)
    } else if c2 <= c1 {
        lemma_scaled_dist_sq(seg, p, 1, 1);
        (1, 1)
    } else {
        lemma_scaled_dist_sq(seg, p, c1, c2);
        let q = seg.scaled_dist_sq(p, c1, c2);
        let inner = c2 * w - c1 * c1;
        assert((c2 * c2) * w == c2 * (c2 * w)) by (nonlinear_arith);
        assert((c1 * c2) * c1 == c2 * (c1 * c1)) by (nonlinear_arith);
        assert((c1 * c1) * c2 == c2 * (c1 * c1)) by (nonlinear_arith);
        assert(c2 * inner == c2 * (c2 * w) - c2 * (c1 * c1)) by (nonlinear_arith)
            requires
                inner == c2 * w - c1 * c1,
        ;
        assert(q == c2 * inner);
        assert(c2 * inner < c2 * (rr * c2)) by (nonlinear_arith)
            requires
                c2 > 0,
                inner < rr * c2,
        ;
        assert(c2 * (rr * c2) == rr * c2 * c2) by (nonlinear_arith);
        (c1, c2)
    }
}

/// Where any point of the segment is nearer to `p` than `reach`, the test
/// finds `p` within reach.
pub proof fn lemma_near_point_is_within_reach(seg: Segment, p: Point, reach: u32, s: int, d: int)
    requires
        seg.near_at(p, reach, s, d),
    ensures
        seg.within_reach_spec(p, reach),
{
    let w = p.dist_sq(seg.start);
    let c1 = seg.along(p);
    let c2 = seg.length_sq();
    let rr = reach * reach;
    let q = seg.scaled_dist_sq(p, s, d);
    let dd = d * d;
    let sd = s * d;
    let ss = s * s;
    lemma_scaled_dist_sq(seg, p, s, d);
    assert(q == dd * w - 2 * (sd * c1) + ss * c2);
    assert(rr * d * d == dd * rr) by (nonlinear_arith)
        requires
            dd == d * d,
    ;
    assert(q < dd * rr);
    assert(dd > 0) by (nonlinear_arith)
        requires
            d > 0,
            dd == d * d,
    ;
    assert(sd >= 0 && ss >= 0) by (nonlinear_arith)
        requires
            0 <= s,
            0 < d,
            sd == s * d,
            ss == s * s,
    ;
    if c1 <= 0 {
        assert(sd * c1 <= 0) by (nonlinear_arith)
            requires
                sd >= 0,
                c1 <= 0,
        ;
        assert(ss * c2 >= 0) by (nonlinear_arith)
            requires
                ss >= 0,
                c2 >= 0,
        ;
        assert(w < rr) by (nonlinear_arith)
            requires
                dd * w < dd * rr,
                dd > 0,
        ;
    } else if c2 <= c1 {
        let e = p.dist_sq(seg.end);
        assert(dd * e == dd * w - 2 * (dd * c1) + dd * c2) by (nonlinear_arith)
            requires
                e == w - 2 * c1 + c2,
        ;
        let t = dd - 2 * sd + ss;
        assert(t == (d - s) * (d - s)) by (nonlinear_arith)
            requires
                t == dd - 2 * sd + ss,
                dd == d * d,
                sd == s * d,
                ss == s * s,
        ;
        assert((d - s) * (d - s) >= 0) by (nonlinear_arith);
        assert(dd - sd >= 0) by (nonlinear_arith)
            requires
                0 <= s <= d,
                dd == d * d,
                sd == s * d,
        ;
        assert((dd - sd) * c1 >= (dd - sd) * c2) by (nonlinear_arith)
            requires
                dd - sd >= 0,
                c1 >= c2,
        ;
        assert(t * c2 >= 0) by (nonlinear_arith)
            requires
                t >= 0,
                c2 >= 0,
        ;
        assert((dd - sd) * c1 == dd * c1 - sd * c1) by (nonlinear_arith);
        assert((dd - sd) * c2 == dd * c2 - sd * c2) by (nonlinear_arith);
        assert(t * c2 == dd * c2 - 2 * (sd * c2) + ss * c2) by (nonlinear_arith)
            requires
                t == dd - 2 * sd + ss,
        ;
        assert(q - dd * e >= 0);
        assert(e < rr) by (nonlinear_arith)
            requires
                dd * e < dd * rr,
                dd > 0,
        ;
    } else {
        let inner = c2 * w - c1 * c1;
        lemma_square_of_difference(d, c1, s, c2);
        let cross = d * c1 - s * c2;
        assert(cross * cross == dd * (c1 * c1) - 2 * (sd * (c1 * c2)) + ss * (c2 * c2));
        assert(cross * cross >= 0) by (nonlinear_arith);
        assert(c2 * q == c2 * (dd * w) - 2 * (c2 * (sd * c1)) + c2 * (ss * c2)) by (nonlinear_arith)
            requires
                q == dd * w - 2 * (sd * c1) + ss * c2,
        ;
        assert(c2 * (dd * w) == dd * (c2 * w)) by (nonlinear_arith);
        assert(c2 * (sd * c1) == sd * (c1 * c2)) by (nonlinear_arith);
        assert(c2 * (ss * c2) == ss * (c2 * c2)) by (nonlinear_arith);
        assert(dd * inner == dd * (c2 * w) - dd * (c1 * c1)) by (nonlinear_arith)
            requires
                inner == c2 * w - c1 * c1,
        ;
        assert(c2 * q == dd * inner + cross * cross);
        assert(c2 * q < c2 * (dd * rr)) by (nonlinear_arith)
            requires
                q < dd * rr,
                c2 > 0,
        ;
        assert(c2 * (dd * rr) == dd * (rr * c2)) by (nonlinear_arith);
        assert(inner < rr * c2) by (nonlinear_arith)
            requires
                dd * inner < dd * (rr * c2),
                dd > 0,
        ;
    }
}

/// What the test decides: `p` is within reach of the segment exactly if
/// some point of the segment, a fraction `s / d` of the way from its start
/// to its end, is nearer to `p` than `reach`.
pub proof fn lemma_within_reach_means_near(seg: Segment, p: Point, reach: u32)
    ensures
        seg.within_reach_spec(p, reach) <==> exists|s: int, d: int|
            #[trigger] seg.near_at(p, reach, s, d),
{
    if seg.within_reach_spec(p, reach) {
        let at = lemma_within_reach_has_near_point(seg, p, reach);
        assert(seg.near_at(p, reach, at.0, at.1));
    }
    if exists|s: int, d: int| #[trigger] seg.near_at(p, reach, s, d) {
        let (s, d) = choose|s: int, d: int| #[trigger] seg.near_at(p, reach, s, d);
        lemma_near_point_is_within_reach(seg, p, reach, s, d);
    }
}

} // verus!
