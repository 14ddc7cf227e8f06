//! Exact integer geometry in nanometres.
//!
//! Every distance the checker reports is a square root, and the board is held
//! in whole nanometres. Here a distance is carried exactly, as a squared
//! length written as a fraction `num / den`, and only the last step takes the
//! root, rounding it the way the report states.
use vstd::prelude::*;

verus! {

/// A point on the board, in nanometres.
#[derive(Debug, Clone, Copy, PartialEq, Eq, Structural)]
pub struct Point {
    /// Distance along the x axis.
    pub x: i64,
    /// Distance along the y axis.
    pub y: i64,
}

impl Point {
    /// The point at `(x, y)`.
    pub fn new(x: i64, y: i64) -> (p: Point)
        ensures
            p.x == x,
            p.y == y,
    {
        Point { x, y }
    }

    /// The origin.
    pub fn origin() -> (p: Point)
        ensures
            p.x == 0,
            p.y == 0,
    {
        Point { x: 0, y: 0 }
    }

    /// The point as `[x, y]`.
    pub open spec fn raw(self) -> [i64; 2] {
        [self.x, self.y]
    }
}

/// An axis-aligned rectangle on the board, from its lower corner to its upper.
#[derive(Debug, Clone, Copy, PartialEq, Eq, Structural)]
pub struct Rect {
    /// The corner with the smaller coordinates.
    pub min: Point,
    /// The corner with the larger coordinates.
    pub max: Point,
}

/// Half of `s`, rounded toward zero, as integer division does.
pub open spec fn half(s: int) -> int {
    if s >= 0 {
        s / 2
    } else {
        -((-s) / 2)
    }
}

/// The whole-nanometre point halfway between `a` and `b`, each coordinate
/// rounded toward zero.
pub open spec fn mid(a: Point, b: Point) -> Point {
    Point { x: half(a.x + b.x) as i64, y: half(a.y + b.y) as i64 }
}

/// A point whose coordinates are inside the carried range.
pub open spec fn point_ok(p: Point) -> bool {
    coord_ok(p.x as int) && coord_ok(p.y as int)
}

/// Half of a sum, rounded toward zero.
pub fn half_sum(a: i64, b: i64) -> (h: i64)
    requires
        coord_ok(a as int),
        coord_ok(b as int),
    ensures
        h == half(a + b),
        coord_ok(h as int),
{
    (a + b) / 2
}

/// The point halfway between two points, rounded toward zero.
pub fn midpoint(a: Point, b: Point) -> (m: Point)
    requires
        point_ok(a),
        point_ok(b),
    ensures
        m == mid(a, b),
        point_ok(m),
{
    Point { x: half_sum(a.x, b.x), y: half_sum(a.y, b.y) }
}

/// The largest coordinate magnitude, in nanometres, that the exact arithmetic
/// here carries: just over a metre. Squared lengths of differences of such
/// coordinates, and products of two of those, stay inside `i128`.
pub open spec fn coord_ok(v: int) -> bool {
    -1_073_741_824 < v < 1_073_741_824
}

/// A point held as `[x, y]` in nanometres, inside the carried range.
pub open spec fn pt_ok(p: [i64; 2]) -> bool {
    coord_ok(p[0] as int) && coord_ok(p[1] as int)
}

/// The dot product of two vectors.
pub open spec fn dot2(ax: int, ay: int, bx: int, by: int) -> int {
    ax * bx + ay * by
}

/// The cross product (z component) of two vectors.
pub open spec fn cross2(ax: int, ay: int, bx: int, by: int) -> int {
    ax * by - ay * bx
}

/// The squared distance from point `p` to the segment `a`-`b`, as the
/// numerator of a fraction.
///
/// With `w = p - a` and `d = b - a`: the foot of the perpendicular sits at
/// `t = w.d / d.d` along the segment. Before the start the nearest point is
/// `a`, past the end it is `b`, and in between the squared distance is
/// `(w x d)^2 / (d.d)`. A segment of no length has `w.d == 0` and answers
/// the distance to `a`.
pub open spec fn seg_num(px: int, py: int, ax: int, ay: int, bx: int, by: int) -> int {
    let wx = px - ax;
    let wy = py - ay;
    let dx = bx - ax;
    let dy = by - ay;
    let t = dot2(wx, wy, dx, dy);
    let dd = dot2(dx, dy, dx, dy);
    if t <= 0 {
        dot2(wx, wy, wx, wy)
    } else if t >= dd {
        dot2(px - bx, py - by, px - bx, py - by)
    } else {
        cross2(wx, wy, dx, dy) * cross2(wx, wy, dx, dy)
    }
}

/// The denominator belonging to `seg_num`.
pub open spec fn seg_den(px: int, py: int, ax: int, ay: int, bx: int, by: int) -> int {
    let wx = px - ax;
    let wy = py - ay;
    let dx = bx - ax;
    let dy = by - ay;
    let t = dot2(wx, wy, dx, dy);
    let dd = dot2(dx, dy, dx, dy);
    if t <= 0 || t >= dd {
        1
    } else {
        dd
    }
}

/// `seg_num` for points held as arrays.
pub open spec fn ps_num(p: [i64; 2], a: [i64; 2], b: [i64; 2]) -> int {
    seg_num(p[0] as int, p[1] as int, a[0] as int, a[1] as int, b[0] as int, b[1] as int)
}

/// `seg_den` for points held as arrays.
pub open spec fn ps_den(p: [i64; 2], a: [i64; 2], b: [i64; 2]) -> int {
    seg_den(p[0] as int, p[1] as int, a[0] as int, a[1] as int, b[0] as int, b[1] as int)
}

/// `r` is the square root of `num / den`, rounded down.
pub open spec fn is_floor_sqrt(r: int, num: int, den: int) -> bool {
    0 <= r && r * r * den <= num && num < (r + 1) * (r + 1) * den
}

/// `r` is the square root of `num / den`, rounded to the nearest whole number
/// with halves going up.
pub open spec fn is_round_sqrt(r: int, num: int, den: int) -> bool {
    &&& 0 <= r
    &&& 4 * num < (2 * r + 1) * (2 * r + 1) * den
    &&& r > 0 ==> (2 * r - 1) * (2 * r - 1) * den <= 4 * num
}

/// Which side of the line `p`-`q` the point `r` lies on, and how far, as a
/// doubled signed area.
pub open spec fn side(p: [i64; 2], q: [i64; 2], r: [i64; 2]) -> int {
    cross2(
        q[0] as int - p[0] as int,
        q[1] as int - p[1] as int,
        r[0] as int - p[0] as int,
        r[1] as int - p[1] as int,
    )
}

/// The two segments cross properly: each one's ends lie strictly on opposite
/// sides of the other's line.
pub open spec fn crosses(a0: [i64; 2], a1: [i64; 2], b0: [i64; 2], b1: [i64; 2]) -> bool {
    side(a0, a1, b0) * side(a0, a1, b1) < 0 && side(b0, b1, a0) * side(b0, b1, a1) < 0
}

/// Lagrange's identity in the plane: `(w.d)^2 + (w x d)^2 == |w|^2 |d|^2`.
pub proof fn lemma_lagrange(wx: int, wy: int, dx: int, dy: int)
    ensures
        dot2(wx, wy, dx, dy) * dot2(wx, wy, dx, dy) + cross2(wx, wy, dx, dy) * cross2(
            wx,
            wy,
            dx,
            dy,
        ) == dot2(wx, wy, wx, wy) * dot2(dx, dy, dx, dy),
{
    let a = wx * dx;
    let b = wy * dy;
    let c = wx * dy;
    let e = wy * dx;
    assert(a * b == c * e) by (nonlinear_arith)
        requires
            a == wx * dx,
            b == wy * dy,
            c == wx * dy,
            e == wy * dx,
    ;
    assert((a + b) * (a + b) + (c - e) * (c - e) == a * a + b * b + c * c + e * e) by (nonlinear_arith)
        requires
            a * b == c * e,
    ;
    let pw = wx * wx;
    let qw = wy * wy;
    let rd = dx * dx;
    let td = dy * dy;
    assert(a * a == pw * rd) by (nonlinear_arith)
        requires
            a == wx * dx,
            pw == wx * wx,
            rd == dx * dx,
    ;
    assert(b * b == qw * td) by (nonlinear_arith)
        requires
            b == wy * dy,
            qw == wy * wy,
            td == dy * dy,
    ;
    assert(c * c == pw * td) by (nonlinear_arith)
        requires
            c == wx * dy,
            pw == wx * wx,
            td == dy * dy,
    ;
    assert(e * e == qw * rd) by (nonlinear_arith)
        requires
            e == wy * dx,
            qw == wy * wy,
            rd == dx * dx,
    ;
    assert((pw + qw) * (rd + td) == pw * rd + pw * td + qw * rd + qw * td) by (nonlinear_arith);
}

/// Squares of numbers below `2^31` in magnitude stay below `2^62`.
proof fn lemma_square_bound(v: int)
    requires
        -2_147_483_648 < v < 2_147_483_648,
    ensures
        0 <= v * v < 4_611_686_018_427_387_904,
{
    assert(0 <= v * v < 4_611_686_018_427_387_904) by (nonlinear_arith)
        requires
            -2_147_483_648 < v < 2_147_483_648,
    ;
}

/// Products of numbers below `2^31` in magnitude stay below `2^62`.
proof fn lemma_product_bound(u: int, v: int)
    requires
        -2_147_483_648 < u < 2_147_483_648,
        -2_147_483_648 < v < 2_147_483_648,
    ensures
        -4_611_686_018_427_387_904 < u * v < 4_611_686_018_427_387_904,
{
    assert(-4_611_686_018_427_387_904 < u * v < 4_611_686_018_427_387_904) by (nonlinear_arith)
        requires
            -2_147_483_648 < u < 2_147_483_648,
            -2_147_483_648 < v < 2_147_483_648,
    ;
}

/// Squares of numbers below `2^63` in magnitude stay below `2^126`.
proof fn lemma_wide_square_bound(v: int)
    requires
        -9_223_372_036_854_775_808 < v < 9_223_372_036_854_775_808,
    ensures
        0 <= v * v < 85_070_591_730_234_615_865_843_651_857_942_052_864,
{
    assert(0 <= v * v < 85_070_591_730_234_615_865_843_651_857_942_052_864) by (nonlinear_arith)
        requires
            -9_223_372_036_854_775_808 < v < 9_223_372_036_854_775_808,
    ;
}

/// The integer square root of `q`, rounded down.
pub fn isqrt(q: u64) -> (r: u64)
    ensures
        r * r <= q,
        q < (r + 1) * (r + 1),
        r < 4_294_967_296,
{
    let mut lo: u64 = 0;
    let mut hi: u64 = 4_294_967_296;
    while hi - lo > 1
        invariant
            lo < hi <= 4_294_967_296,
            lo * lo <= q,
            q < hi * hi,
        decreases hi - lo,
    {
        let mid = lo + (hi - lo) / 2;
        assert(mid * mid < 18_446_744_073_709_551_616) by (nonlinear_arith)
            requires
                mid < 4_294_967_296,
        ;
        let square = (mid as u128) * (mid as u128);
        if square <= q as u128 {
            lo = mid;
        } else {
            hi = mid;
        }
    }
    assert(hi == lo + 1);
    lo
}

/// Rounding `num / den` down before the root changes nothing.
proof fn lemma_floor_sqrt_of_quotient(num: int, den: int, q: int, m: int, r: int)
    requires
        den > 0,
        num == den * q + m,
        0 <= m < den,
        r >= 0,
        r * r <= q,
        q < (r + 1) * (r + 1),
    ensures
        is_floor_sqrt(r, num, den),
{
    assert(r * r * den <= num) by (nonlinear_arith)
        requires
            den > 0,
            num == den * q + m,
            0 <= m,
            r * r <= q,
    ;
    assert(num < (r + 1) * (r + 1) * den) by (nonlinear_arith)
        requires
            den > 0,
            num == den * q + m,
            m < den,
            q + 1 <= (r + 1) * (r + 1),
    ;
}

/// The square root of `num / den`, rounded down.
pub fn floor_sqrt_ratio(num: i128, den: i128) -> (r: i64)
    requires
        0 <= num,
        0 < den,
        num <= den * 9_223_372_036_854_775_807,
    ensures
        is_floor_sqrt(r as int, num as int, den as int),
        r < 4_294_967_296,
{
    let q = num / den;
    proof {
        vstd::arithmetic::div_mod::lemma_fundamental_div_mod(num as int, den as int);
        assert(q <= 9_223_372_036_854_775_807) by (nonlinear_arith)
            requires
                num == den * q + num % den,
                0 <= num % den,
                den > 0,
                num <= den * 9_223_372_036_854_775_807,
        ;
        assert(q >= 0) by (nonlinear_arith)
            requires
                num == den * q + num % den,
                num % den < den,
                den > 0,
                num >= 0,
        ;
    }
    let s = isqrt(q as u64);
    proof {
        lemma_floor_sqrt_of_quotient(num as int, den as int, q as int, (num % den) as int, s as int);
    }
    s as i64
}

/// The square root of `num / den`, rounded to nearest with halves up.
pub fn round_sqrt_ratio(num: i128, den: i128) -> (r: i64)
    requires
        0 <= num,
        0 < den <= 9_223_372_036_854_775_807,
        num <= den * 9_223_372_036_854_775_807,
    ensures
        is_round_sqrt(r as int, num as int, den as int),
        0 <= r <= 4_294_967_296,
{
    let s = floor_sqrt_ratio(num, den);
    // Whether the root reaches s + 1/2: (2s + 1)^2 den <= 4 num, which is
    // den <= 4 (num - (s^2 + s) den).
    proof {
        assert(s * den <= 4_294_967_296 * 9_223_372_036_854_775_807) by (nonlinear_arith)
            requires
                0 <= s < 4_294_967_296,
                0 < den <= 9_223_372_036_854_775_807,
        ;
        assert(num <= 9_223_372_036_854_775_807 * 9_223_372_036_854_775_807) by (nonlinear_arith)
            requires
                num <= den * 9_223_372_036_854_775_807,
                0 < den <= 9_223_372_036_854_775_807,
        ;
    }
    assert(s * s < 18_446_744_073_709_551_616) by (nonlinear_arith)
        requires
            0 <= s < 4_294_967_296,
    ;
    let square = (s as i128) * (s as i128);
    let below = square * den + (s as i128) * den;
    let spare = num - below;
    let up = if spare < 0 {
        false
    } else if spare >= den {
        true
    } else {
        den <= 4 * spare
    };
    proof {
        assert(up <==> (2 * s + 1) * (2 * s + 1) * den <= 4 * num) by (nonlinear_arith)
            requires
                below == s * s * den + s * den,
                spare == num - below,
                up == (spare >= 0 && (spare >= den || den <= 4 * spare)),
                den > 0,
        ;
    }
    if up {
        proof {
            assert(4 * num < (2 * (s + 1) + 1) * (2 * (s + 1) + 1) * den) by (nonlinear_arith)
                requires
                    num < (s + 1) * (s + 1) * den,
                    den > 0,
                    s >= 0,
            ;
        }
        s + 1
    } else {
        proof {
            assert(s > 0 ==> (2 * s - 1) * (2 * s - 1) * den <= 4 * num) by (nonlinear_arith)
                requires
                    s * s * den <= num,
                    den > 0,
                    s >= 0,
            ;
        }
        s
    }
}

/// The squared distance from `p` to the segment `a`-`b`, as the fraction
/// `seg_num / seg_den`.
pub fn point_segment_dist2(p: [i64; 2], a: [i64; 2], b: [i64; 2]) -> (res: (i128, i128))
    requires
        pt_ok(p),
        pt_ok(a),
        pt_ok(b),
    ensures
        res.0 == ps_num(p, a, b),
        res.1 == ps_den(p, a, b),
        0 <= res.0,
        0 < res.1 <= 9_223_372_036_854_775_807,
        res.0 <= res.1 * 9_223_372_036_854_775_807,
{
    let wx = (p[0] as i128) - (a[0] as i128);
    let wy = (p[1] as i128) - (a[1] as i128);
    let dx = (b[0] as i128) - (a[0] as i128);
    let dy = (b[1] as i128) - (a[1] as i128);
    proof {
        lemma_square_bound(wx as int);
        lemma_square_bound(wy as int);
        lemma_square_bound(dx as int);
        lemma_square_bound(dy as int);
        lemma_product_bound(wx as int, dx as int);
        lemma_product_bound(wy as int, dy as int);
        lemma_product_bound(wx as int, dy as int);
        lemma_product_bound(wy as int, dx as int);
    }
    let t = wx * dx + wy * dy;
    let dd = dx * dx + dy * dy;
    if t <= 0 {
        (wx * wx + wy * wy, 1)
    } else if t >= dd {
        let ex = (p[0] as i128) - (b[0] as i128);
        let ey = (p[1] as i128) - (b[1] as i128);
        proof {
            lemma_square_bound(ex as int);
            lemma_square_bound(ey as int);
        }
        (ex * ex + ey * ey, 1)
    } else {
        let c = wx * dy - wy * dx;
        proof {
            lemma_wide_square_bound(c as int);
            lemma_lagrange(wx as int, wy as int, dx as int, dy as int);
            let ww = wx * wx + wy * wy;
            assert(c * c <= dd * ww) by (nonlinear_arith)
                requires
                    t * t + c * c == ww * dd,
            ;
            assert(dd * ww <= dd * 9_223_372_036_854_775_807) by (nonlinear_arith)
                requires
                    0 <= ww <= 9_223_372_036_854_775_807,
                    dd > 0,
            ;
        }
        (c * c, dd)
    }
}

/// `r` is no more than the square root of `num / den`, rounded down.
pub open spec fn floor_at_most(r: int, num: int, den: int) -> bool {
    r * r * den <= num
}

/// `r` is no more than the square root of `num / den`, rounded to nearest.
pub open spec fn round_at_most(r: int, num: int, den: int) -> bool {
    r == 0 || (2 * r - 1) * (2 * r - 1) * den <= 4 * num
}

/// `r` is the distance between the segments `a0`-`a1` and `b0`-`b1`, rounded
/// down: zero where they cross, and otherwise the least of the four distances
/// from an end of one to the other, each rounded down.
pub open spec fn is_floor_seg_distance(
    r: int,
    a0: [i64; 2],
    a1: [i64; 2],
    b0: [i64; 2],
    b1: [i64; 2],
) -> bool {
    if crosses(a0, a1, b0, b1) {
        r == 0
    } else {
        &&& is_floor_sqrt(r, ps_num(a0, b0, b1), ps_den(a0, b0, b1)) || is_floor_sqrt(
            r,
            ps_num(a1, b0, b1),
            ps_den(a1, b0, b1),
        ) || is_floor_sqrt(r, ps_num(b0, a0, a1), ps_den(b0, a0, a1)) || is_floor_sqrt(
            r,
            ps_num(b1, a0, a1),
            ps_den(b1, a0, a1),
        )
        &&& floor_at_most(r, ps_num(a0, b0, b1), ps_den(a0, b0, b1))
        &&& floor_at_most(r, ps_num(a1, b0, b1), ps_den(a1, b0, b1))
        &&& floor_at_most(r, ps_num(b0, a0, a1), ps_den(b0, a0, a1))
        &&& floor_at_most(r, ps_num(b1, a0, a1), ps_den(b1, a0, a1))
    }
}

/// `r` is the distance between the segments `a0`-`a1` and `b0`-`b1`, rounded
/// to nearest: zero where they cross, and otherwise the least of the four
/// distances from an end of one to the other, each rounded.
pub open spec fn is_round_seg_distance(
    r: int,
    a0: [i64; 2],
    a1: [i64; 2],
    b0: [i64; 2],
    b1: [i64; 2],
) -> bool {
    if crosses(a0, a1, b0, b1) {
        r == 0
    } else {
        &&& is_round_sqrt(r, ps_num(a0, b0, b1), ps_den(a0, b0, b1)) || is_round_sqrt(
            r,
            ps_num(a1, b0, b1),
            ps_den(a1, b0, b1),
        ) || is_round_sqrt(r, ps_num(b0, a0, a1), ps_den(b0, a0, a1)) || is_round_sqrt(
            r,
            ps_num(b1, a0, a1),
            ps_den(b1, a0, a1),
        )
        &&& round_at_most(r, ps_num(a0, b0, b1), ps_den(a0, b0, b1))
        &&& round_at_most(r, ps_num(a1, b0, b1), ps_den(a1, b0, b1))
        &&& round_at_most(r, ps_num(b0, a0, a1), ps_den(b0, a0, a1))
        &&& round_at_most(r, ps_num(b1, a0, a1), ps_den(b1, a0, a1))
    }
}

/// A rounded-down root is no more than any larger-or-equal one.
proof fn lemma_floor_sqrt_le(r: int, n: int, d: int, s: int, m: int, e: int)
    requires
        is_floor_sqrt(r, n, d),
        is_floor_sqrt(s, m, e),
        d > 0,
        e > 0,
        r <= s,
    ensures
        floor_at_most(r, m, e),
{
    assert(r * r * e <= s * s * e) by (nonlinear_arith)
        requires
            0 <= r <= s,
            e > 0,
    ;
}

/// A rounded root is no more than any larger-or-equal one.
proof fn lemma_round_sqrt_le(r: int, n: int, d: int, s: int, m: int, e: int)
    requires
        is_round_sqrt(r, n, d),
        is_round_sqrt(s, m, e),
        d > 0,
        e > 0,
        r <= s,
    ensures
        round_at_most(r, m, e),
{
    if r > 0 {
        assert((2 * r - 1) * (2 * r - 1) * e <= (2 * s - 1) * (2 * s - 1) * e) by (nonlinear_arith)
            requires
                0 < r <= s,
                e > 0,
        ;
    }
}

/// Which side of the line `p`-`q` the point `r` lies on.
pub fn side_of_line(p: [i64; 2], q: [i64; 2], r: [i64; 2]) -> (s: i128)
    requires
        pt_ok(p),
        pt_ok(q),
        pt_ok(r),
    ensures
        s == side(p, q, r),
        -9_223_372_036_854_775_808 < s < 9_223_372_036_854_775_808,
{
    let qx = (q[0] as i128) - (p[0] as i128);
    let qy = (q[1] as i128) - (p[1] as i128);
    let rx = (r[0] as i128) - (p[0] as i128);
    let ry = (r[1] as i128) - (p[1] as i128);
    proof {
        lemma_product_bound(qx as int, ry as int);
        lemma_product_bound(qy as int, rx as int);
    }
    qx * ry - qy * rx
}

/// Whether two segments cross properly, each one's ends strictly on opposite
/// sides of the other's line. Segments that only touch do not cross: their
/// distance is zero at an end already.
pub fn segments_cross(a0: [i64; 2], a1: [i64; 2], b0: [i64; 2], b1: [i64; 2]) -> (c: bool)
    requires
        pt_ok(a0),
        pt_ok(a1),
        pt_ok(b0),
        pt_ok(b1),
    ensures
        c == crosses(a0, a1, b0, b1),
{
    let d1 = side_of_line(a0, a1, b0);
    let d2 = side_of_line(a0, a1, b1);
    let d3 = side_of_line(b0, b1, a0);
    let d4 = side_of_line(b0, b1, a1);
    proof {
        lemma_product_bound_wide(d1 as int, d2 as int);
        lemma_product_bound_wide(d3 as int, d4 as int);
    }
    d1 * d2 < 0 && d3 * d4 < 0
}

/// Products of numbers below `2^63` in magnitude stay inside `i128`.
proof fn lemma_product_bound_wide(u: int, v: int)
    requires
        -9_223_372_036_854_775_808 < u < 9_223_372_036_854_775_808,
        -9_223_372_036_854_775_808 < v < 9_223_372_036_854_775_808,
    ensures
        -85_070_591_730_234_615_865_843_651_857_942_052_864 < u * v
            < 85_070_591_730_234_615_865_843_651_857_942_052_864,
{
    assert(-85_070_591_730_234_615_865_843_651_857_942_052_864 < u * v
        < 85_070_591_730_234_615_865_843_651_857_942_052_864) by (nonlinear_arith)
        requires
            -9_223_372_036_854_775_808 < u < 9_223_372_036_854_775_808,
            -9_223_372_036_854_775_808 < v < 9_223_372_036_854_775_808,
    ;
}

/// The distance from `p` to the segment `a`-`b`, rounded down.
pub fn point_segment_floor(p: [i64; 2], a: [i64; 2], b: [i64; 2]) -> (r: i64)
    requires
        pt_ok(p),
        pt_ok(a),
        pt_ok(b),
    ensures
        is_floor_sqrt(r as int, ps_num(p, a, b), ps_den(p, a, b)),
        0 <= r < 4_294_967_296,
{
    let (num, den) = point_segment_dist2(p, a, b);
    floor_sqrt_ratio(num, den)
}

/// The distance from `p` to the segment `a`-`b`, rounded to nearest.
pub fn point_segment_round(p: [i64; 2], a: [i64; 2], b: [i64; 2]) -> (r: i64)
    requires
        pt_ok(p),
        pt_ok(a),
        pt_ok(b),
    ensures
        is_round_sqrt(r as int, ps_num(p, a, b), ps_den(p, a, b)),
        0 <= r <= 4_294_967_296,
{
    let (num, den) = point_segment_dist2(p, a, b);
    round_sqrt_ratio(num, den)
}

/// The distance between two segments, rounded down.
pub fn seg_seg_floor(a0: [i64; 2], a1: [i64; 2], b0: [i64; 2], b1: [i64; 2]) -> (r: i64)
    requires
        pt_ok(a0),
        pt_ok(a1),
        pt_ok(b0),
        pt_ok(b1),
    ensures
        is_floor_seg_distance(r as int, a0, a1, b0, b1),
        0 <= r < 4_294_967_296,
{
    if segments_cross(a0, a1, b0, b1) {
        return 0;
    }
    let f0 = point_segment_floor(a0, b0, b1);
    let f1 = point_segment_floor(a1, b0, b1);
    let f2 = point_segment_floor(b0, a0, a1);
    let f3 = point_segment_floor(b1, a0, a1);
    let m01 = if f0 <= f1 { f0 } else { f1 };
    let m23 = if f2 <= f3 { f2 } else { f3 };
    let m = if m01 <= m23 { m01 } else { m23 };
    proof {
        let (n0, d0) = (ps_num(a0, b0, b1), ps_den(a0, b0, b1));
        let (n1, d1) = (ps_num(a1, b0, b1), ps_den(a1, b0, b1));
        let (n2, d2) = (ps_num(b0, a0, a1), ps_den(b0, a0, a1));
        let (n3, d3) = (ps_num(b1, a0, a1), ps_den(b1, a0, a1));
        assert(d0 > 0 && d1 > 0 && d2 > 0 && d3 > 0);
        let (nm, dm) = if m == f0 {
            (n0, d0)
        } else if m == f1 {
            (n1, d1)
        } else if m == f2 {
            (n2, d2)
        } else {
            (n3, d3)
        };
        assert(is_floor_sqrt(m as int, nm, dm));
        lemma_floor_sqrt_le(m as int, nm, dm, f0 as int, n0, d0);
        lemma_floor_sqrt_le(m as int, nm, dm, f1 as int, n1, d1);
        lemma_floor_sqrt_le(m as int, nm, dm, f2 as int, n2, d2);
        lemma_floor_sqrt_le(m as int, nm, dm, f3 as int, n3, d3);
    }
    m
}

/// The distance between two segments, rounded to nearest.
pub fn seg_seg_round(a0: [i64; 2], a1: [i64; 2], b0: [i64; 2], b1: [i64; 2]) -> (r: i64)
    requires
        pt_ok(a0),
        pt_ok(a1),
        pt_ok(b0),
        pt_ok(b1),
    ensures
        is_round_seg_distance(r as int, a0, a1, b0, b1),
        0 <= r <= 4_294_967_296,
{
    if segments_cross(a0, a1, b0, b1) {
        return 0;
    }
    let f0 = point_segment_round(a0, b0, b1);
    let f1 = point_segment_round(a1, b0, b1);
    let f2 = point_segment_round(b0, a0, a1);
    let f3 = point_segment_round(b1, a0, a1);
    let m01 = if f0 <= f1 { f0 } else { f1 };
    let m23 = if f2 <= f3 { f2 } else { f3 };
    let m = if m01 <= m23 { m01 } else { m23 };
    proof {
        let (n0, d0) = (ps_num(a0, b0, b1), ps_den(a0, b0, b1));
        let (n1, d1) = (ps_num(a1, b0, b1), ps_den(a1, b0, b1));
        let (n2, d2) = (ps_num(b0, a0, a1), ps_den(b0, a0, a1));
        let (n3, d3) = (ps_num(b1, a0, a1), ps_den(b1, a0, a1));
        assert(d0 > 0 && d1 > 0 && d2 > 0 && d3 > 0);
        let (nm, dm) = if m == f0 {
            (n0, d0)
        } else if m == f1 {
            (n1, d1)
        } else if m == f2 {
            (n2, d2)
        } else {
            (n3, d3)
        };
        assert(is_round_sqrt(m as int, nm, dm));
        lemma_round_sqrt_le(m as int, nm, dm, f0 as int, n0, d0);
        lemma_round_sqrt_le(m as int, nm, dm, f1 as int, n1, d1);
        lemma_round_sqrt_le(m as int, nm, dm, f2 as int, n2, d2);
        lemma_round_sqrt_le(m as int, nm, dm, f3 as int, n3, d3);
    }
    m
}

/// `v^2` times the squared distance from `p` to the point `a + (u / v)(b - a)`.
pub open spec fn scaled_dist2(p: [i64; 2], a: [i64; 2], b: [i64; 2], u: int, v: int) -> int {
    let wx = p[0] as int - a[0] as int;
    let wy = p[1] as int - a[1] as int;
    let dx = b[0] as int - a[0] as int;
    let dy = b[1] as int - a[1] as int;
    (v * wx - u * dx) * (v * wx - u * dx) + (v * wy - u * dy) * (v * wy - u * dy)
}

proof fn lemma_expand_square(v: int, x: int, u: int, y: int)
    ensures
        (v * x - u * y) * (v * x - u * y) == v * v * (x * x) - 2 * ((u * v) * (x * y)) + u * u * (
        y * y),
{
    let a = v * x;
    let b = u * y;
    assert((a - b) * (a - b) == a * a - 2 * (a * b) + b * b) by (nonlinear_arith);
    assert(a * a == v * v * (x * x)) by (nonlinear_arith)
        requires
            a == v * x,
    ;
    assert(b * b == u * u * (y * y)) by (nonlinear_arith)
        requires
            b == u * y,
    ;
    assert(a * b == (u * v) * (x * y)) by (nonlinear_arith)
        requires
            a == v * x,
            b == u * y,
    ;
}

/// `scaled_dist2` written through `|w|^2`, `w.d` and `|d|^2`.
proof fn lemma_scaled_dist2_expanded(p: [i64; 2], a: [i64; 2], b: [i64; 2], u: int, v: int)
    ensures
        ({
            let wx = p[0] as int - a[0] as int;
            let wy = p[1] as int - a[1] as int;
            let dx = b[0] as int - a[0] as int;
            let dy = b[1] as int - a[1] as int;
            scaled_dist2(p, a, b, u, v) == v * v * dot2(wx, wy, wx, wy) - 2 * ((u * v) * dot2(
                wx,
                wy,
                dx,
                dy,
            )) + u * u * dot2(dx, dy, dx, dy)
        }),
{
    let wx = p[0] as int - a[0] as int;
    let wy = p[1] as int - a[1] as int;
    let dx = b[0] as int - a[0] as int;
    let dy = b[1] as int - a[1] as int;
    lemma_expand_square(v, wx, u, dx);
    lemma_expand_square(v, wy, u, dy);
    vstd::arithmetic::mul::lemma_mul_is_distributive_add(v * v, wx * wx, wy * wy);
    vstd::arithmetic::mul::lemma_mul_is_distributive_add(u * v, wx * dx, wy * dy);
    vstd::arithmetic::mul::lemma_mul_is_distributive_add(u * u, dx * dx, dy * dy);
}

/// **The distance from a point to a segment is the least distance from the
/// point to any point of the segment.** For every point `a + (u / v)(b - a)`
/// of the segment (`0 <= u <= v`, `v > 0`), the squared distance
/// `ps_num / ps_den` is no more than the squared distance to it.
pub proof fn lemma_point_segment_is_nearest(p: [i64; 2], a: [i64; 2], b: [i64; 2], u: int, v: int)
    requires
        0 <= u <= v,
        0 < v,
    ensures
        ps_num(p, a, b) * (v * v) <= ps_den(p, a, b) * scaled_dist2(p, a, b, u, v),
{
    let wx = p[0] as int - a[0] as int;
    let wy = p[1] as int - a[1] as int;
    let dx = b[0] as int - a[0] as int;
    let dy = b[1] as int - a[1] as int;
    let ww = dot2(wx, wy, wx, wy);
    let t = dot2(wx, wy, dx, dy);
    let dd = dot2(dx, dy, dx, dy);
    lemma_scaled_dist2_expanded(p, a, b, u, v);
    let e = scaled_dist2(p, a, b, u, v);
    assert(e == v * v * ww - 2 * ((u * v) * t) + u * u * dd);
    assert(dd >= 0) by (nonlinear_arith)
        requires
            dd == dx * dx + dy * dy,
    ;
    if t <= 0 {
        assert(ww * (v * v) <= e) by (nonlinear_arith)
            requires
                e == v * v * ww - 2 * ((u * v) * t) + u * u * dd,
                t <= 0,
                0 <= u,
                0 < v,
                dd >= 0,
        ;
    } else if t >= dd {
        let ex = p[0] as int - b[0] as int;
        let ey = p[1] as int - b[1] as int;
        assert(dot2(ex, ey, ex, ey) == ww - 2 * t + dd) by (nonlinear_arith)
            requires
                ex == wx - dx,
                ey == wy - dy,
                ww == wx * wx + wy * wy,
                t == wx * dx + wy * dy,
                dd == dx * dx + dy * dy,
        ;
        assert((ww - 2 * t + dd) * (v * v) <= e) by (nonlinear_arith)
            requires
                e == v * v * ww - 2 * ((u * v) * t) + u * u * dd,
                t >= dd,
                dd >= 0,
                0 <= u <= v,
        ;
    } else {
        let c = cross2(wx, wy, dx, dy);
        lemma_lagrange(wx, wy, dx, dy);
        let vv = v * v;
        let uv = u * v;
        let uu = u * u;
        let vt = v * t;
        let ud = u * dd;
        let x = vv * ww;
        let y = uv * t;
        let z = uu * dd;
        assert(e == x - 2 * y + z);
        assert(dd * e == dd * x - 2 * (dd * y) + dd * z) by (nonlinear_arith)
            requires
                e == x - 2 * y + z,
        ;
        assert(dd * x == vv * (ww * dd)) by (nonlinear_arith)
            requires
                x == vv * ww,
        ;
        assert(dd * y == uv * (t * dd)) by (nonlinear_arith)
            requires
                y == uv * t,
        ;
        assert(dd * z == uu * (dd * dd)) by (nonlinear_arith)
            requires
                z == uu * dd,
        ;
        let cc = c * c;
        assert(cc * vv == vv * (ww * dd) - vv * (t * t)) by (nonlinear_arith)
            requires
                t * t + cc == ww * dd,
        ;
        assert(vt * vt == vv * (t * t)) by (nonlinear_arith)
            requires
                vt == v * t,
                vv == v * v,
        ;
        assert(ud * ud == uu * (dd * dd)) by (nonlinear_arith)
            requires
                ud == u * dd,
                uu == u * u,
        ;
        assert(vt * ud == uv * (t * dd)) by (nonlinear_arith)
            requires
                vt == v * t,
                ud == u * dd,
                uv == u * v,
        ;
        assert((vt - ud) * (vt - ud) >= 0) by (nonlinear_arith);
        assert((vt - ud) * (vt - ud) == vt * vt - 2 * (vt * ud) + ud * ud) by (nonlinear_arith);
        assert(cc * vv <= dd * e);
        assert(c * c * (v * v) == cc * vv);
    }
}

/// **The distance from a point to a segment is attained**: some point of
/// the segment lies exactly that far away, so the least distance is not
/// merely a bound.
pub proof fn lemma_point_segment_is_attained(p: [i64; 2], a: [i64; 2], b: [i64; 2])
    ensures
        exists|u: int, v: int|
            0 <= u <= v && 0 < v && ps_num(p, a, b) * (v * v) == ps_den(p, a, b)
                * #[trigger] scaled_dist2(p, a, b, u, v),
{
    let wx = p[0] as int - a[0] as int;
    let wy = p[1] as int - a[1] as int;
    let dx = b[0] as int - a[0] as int;
    let dy = b[1] as int - a[1] as int;
    let ww = dot2(wx, wy, wx, wy);
    let t = dot2(wx, wy, dx, dy);
    let dd = dot2(dx, dy, dx, dy);
    if t <= 0 {
        lemma_scaled_dist2_expanded(p, a, b, 0, 1);
        assert(ps_num(p, a, b) * (1int * 1int) == ps_den(p, a, b) * scaled_dist2(p, a, b, 0, 1));
    } else if t >= dd {
        lemma_scaled_dist2_expanded(p, a, b, 1, 1);
        let ex = p[0] as int - b[0] as int;
        let ey = p[1] as int - b[1] as int;
        assert(dot2(ex, ey, ex, ey) == ww - 2 * t + dd) by (nonlinear_arith)
            requires
                ex == wx - dx,
                ey == wy - dy,
                ww == wx * wx + wy * wy,
                t == wx * dx + wy * dy,
                dd == dx * dx + dy * dy,
        ;
        assert(ps_num(p, a, b) * (1int * 1int) == ps_den(p, a, b) * scaled_dist2(p, a, b, 1, 1));
    } else {
        lemma_scaled_dist2_expanded(p, a, b, t, dd);
        let c = cross2(wx, wy, dx, dy);
        lemma_lagrange(wx, wy, dx, dy);
        let e = scaled_dist2(p, a, b, t, dd);
        let x = dd * dd * ww;
        let y = (t * dd) * t;
        let z = t * t * dd;
        assert(e == x - 2 * y + z);
        assert(dd * e == dd * x - 2 * (dd * y) + dd * z) by (nonlinear_arith)
            requires
                e == x - 2 * y + z,
        ;
        assert(dd * x == (dd * dd) * (ww * dd)) by (nonlinear_arith)
            requires
                x == dd * dd * ww,
        ;
        assert(dd * y == (dd * dd) * (t * t)) by (nonlinear_arith)
            requires
                y == (t * dd) * t,
        ;
        assert(dd * z == (dd * dd) * (t * t)) by (nonlinear_arith)
            requires
                z == t * t * dd,
        ;
        let cc = c * c;
        let q = dd * dd;
        assert(q * (ww * dd) - q * (t * t) == q * cc) by (nonlinear_arith)
            requires
                t * t + cc == ww * dd,
        ;
        assert(c * c * (dd * dd) == cc * q);
        assert(ps_num(p, a, b) * (dd * dd) == ps_den(p, a, b) * scaled_dist2(p, a, b, t, dd));
    }
}

/// **A segment is the same segment whichever end it is written from**: the
/// distance from a point to `a`-`b` is the distance to `b`-`a`.
pub proof fn lemma_point_segment_reversed(p: [i64; 2], a: [i64; 2], b: [i64; 2])
    ensures
        ps_num(p, a, b) == ps_num(p, b, a),
        ps_den(p, a, b) == ps_den(p, b, a),
{
    let wx = p[0] as int - a[0] as int;
    let wy = p[1] as int - a[1] as int;
    let dx = b[0] as int - a[0] as int;
    let dy = b[1] as int - a[1] as int;
    let ex = p[0] as int - b[0] as int;
    let ey = p[1] as int - b[1] as int;
    let fx = a[0] as int - b[0] as int;
    let fy = a[1] as int - b[1] as int;
    let t = dot2(wx, wy, dx, dy);
    let dd = dot2(dx, dy, dx, dy);
    let t2 = dot2(ex, ey, fx, fy);
    let dd2 = dot2(fx, fy, fx, fy);
    assert(t2 == dd - t) by (nonlinear_arith)
        requires
            ex == wx - dx,
            ey == wy - dy,
            fx == -dx,
            fy == -dy,
            t == wx * dx + wy * dy,
            dd == dx * dx + dy * dy,
            t2 == ex * fx + ey * fy,
    ;
    assert(dd2 == dd) by (nonlinear_arith)
        requires
            fx == -dx,
            fy == -dy,
            dd == dx * dx + dy * dy,
            dd2 == fx * fx + fy * fy,
    ;
    if dd == 0 {
        assert(dx == 0 && dy == 0) by (nonlinear_arith)
            requires
                dd == dx * dx + dy * dy,
                dd == 0,
        ;
    }
    let c = cross2(wx, wy, dx, dy);
    let c2 = cross2(ex, ey, fx, fy);
    assert(c2 == -c) by (nonlinear_arith)
        requires
            ex == wx - dx,
            ey == wy - dy,
            fx == -dx,
            fy == -dy,
            c == wx * dy - wy * dx,
            c2 == ex * fy - ey * fx,
    ;
    assert(c2 * c2 == c * c) by (nonlinear_arith)
        requires
            c2 == -c,
    ;
    let ww = dot2(wx, wy, wx, wy);
    let ee = dot2(ex, ey, ex, ey);
    assert(dd >= 0) by (nonlinear_arith)
        requires
            dd == dx * dx + dy * dy,
    ;
    if dd == 0 {
        assert(t == 0 && t2 == 0);
        assert(ex == wx && ey == wy);
        assert(ps_num(p, a, b) == ww);
        assert(ps_num(p, b, a) == ee);
    } else if t <= 0 {
        assert(t2 >= dd2 && t2 > 0);
        assert(ps_num(p, a, b) == ww);
        assert(ps_num(p, b, a) == ww);
    } else if t >= dd {
        assert(t2 <= 0);
        assert(ps_num(p, a, b) == ee);
        assert(ps_num(p, b, a) == ee);
    } else {
        assert(0 < t2 < dd2);
        assert(ps_num(p, a, b) == c * c);
        assert(ps_num(p, b, a) == c2 * c2);
    }
}

/// **The rounded-down distance between two segments does not depend on
/// which is named first.**
pub proof fn lemma_floor_seg_distance_symmetric(
    r: int,
    a0: [i64; 2],
    a1: [i64; 2],
    b0: [i64; 2],
    b1: [i64; 2],
)
    ensures
        is_floor_seg_distance(r, a0, a1, b0, b1) == is_floor_seg_distance(r, b0, b1, a0, a1),
{
}

/// **The rounded distance between two segments does not depend on which is
/// named first.**
pub proof fn lemma_round_seg_distance_symmetric(
    r: int,
    a0: [i64; 2],
    a1: [i64; 2],
    b0: [i64; 2],
    b1: [i64; 2],
)
    ensures
        is_round_seg_distance(r, a0, a1, b0, b1) == is_round_seg_distance(r, b0, b1, a0, a1),
{
}

/// The rounded distance between two segments, as a value.
pub open spec fn round_seg(a0: [i64; 2], a1: [i64; 2], b0: [i64; 2], b1: [i64; 2]) -> int {
    choose|r: int| is_round_seg_distance(r, a0, a1, b0, b1)
}

/// No more than a rounded root means no more than the root's rounding.
proof fn lemma_round_at_most_le(r: int, s: int, n: int, d: int)
    requires
        0 <= r,
        round_at_most(r, n, d),
        is_round_sqrt(s, n, d),
        d > 0,
    ensures
        r <= s,
{
    if r > 0 {
        assert((2 * r - 1) * (2 * r - 1) * d < (2 * s + 1) * (2 * s + 1) * d);
        assert(2 * r - 1 < 2 * s + 1) by (nonlinear_arith)
            requires
                (2 * r - 1) * (2 * r - 1) * d < (2 * s + 1) * (2 * s + 1) * d,
                d > 0,
                r > 0,
                s >= 0,
        ;
    }
}

/// The rounded distance between two segments is one number: `round_seg`
/// is the value any computation of it gives.
pub proof fn lemma_round_seg_unique(r: int, a0: [i64; 2], a1: [i64; 2], b0: [i64; 2], b1: [i64; 2])
    requires
        is_round_seg_distance(r, a0, a1, b0, b1),
        pt_ok(a0),
        pt_ok(a1),
        pt_ok(b0),
        pt_ok(b1),
    ensures
        round_seg(a0, a1, b0, b1) == r,
{
    let q = round_seg(a0, a1, b0, b1);
    assert(is_round_seg_distance(q, a0, a1, b0, b1));
    if !crosses(a0, a1, b0, b1) {
        let (n0, d0) = (ps_num(a0, b0, b1), ps_den(a0, b0, b1));
        let (n1, d1) = (ps_num(a1, b0, b1), ps_den(a1, b0, b1));
        let (n2, d2) = (ps_num(b0, a0, a1), ps_den(b0, a0, a1));
        let (n3, d3) = (ps_num(b1, a0, a1), ps_den(b1, a0, a1));
        assert(d0 > 0 && d1 > 0 && d2 > 0 && d3 > 0);
        assert(r <= q) by {
            if is_round_sqrt(q, n0, d0) {
                lemma_round_at_most_le(r, q, n0, d0);
            } else if is_round_sqrt(q, n1, d1) {
                lemma_round_at_most_le(r, q, n1, d1);
            } else if is_round_sqrt(q, n2, d2) {
                lemma_round_at_most_le(r, q, n2, d2);
            } else {
                lemma_round_at_most_le(r, q, n3, d3);
            }
        }
        assert(q <= r) by {
            if is_round_sqrt(r, n0, d0) {
                lemma_round_at_most_le(q, r, n0, d0);
            } else if is_round_sqrt(r, n1, d1) {
                lemma_round_at_most_le(q, r, n1, d1);
            } else if is_round_sqrt(r, n2, d2) {
                lemma_round_at_most_le(q, r, n2, d2);
            } else {
                lemma_round_at_most_le(q, r, n3, d3);
            }
        }
    }
}

/// The point-to-segment denominator is positive.
pub proof fn lemma_ps_den_positive(p: [i64; 2], a: [i64; 2], b: [i64; 2])
    ensures
        ps_den(p, a, b) > 0,
{
}

/// The rounded-down distance between two segments, as a value.
pub open spec fn floor_seg(a0: [i64; 2], a1: [i64; 2], b0: [i64; 2], b1: [i64; 2]) -> int {
    choose|r: int| is_floor_seg_distance(r, a0, a1, b0, b1)
}

/// No more than a rounded-down root means no more than the root itself.
proof fn lemma_floor_at_most_le(q: int, r: int, n: int, d: int)
    requires
        0 <= q,
        floor_at_most(q, n, d),
        is_floor_sqrt(r, n, d),
        d > 0,
    ensures
        q <= r,
{
    assert(q * q * d < (r + 1) * (r + 1) * d);
    assert(q < r + 1) by (nonlinear_arith)
        requires
            q * q * d < (r + 1) * (r + 1) * d,
            d > 0,
            q >= 0,
            r >= 0,
    ;
}

/// The rounded-down distance between two segments is one number:
/// `floor_seg` is the value any computation of it gives.
pub proof fn lemma_floor_seg_unique(r: int, a0: [i64; 2], a1: [i64; 2], b0: [i64; 2], b1: [i64; 2])
    requires
        is_floor_seg_distance(r, a0, a1, b0, b1),
        pt_ok(a0),
        pt_ok(a1),
        pt_ok(b0),
        pt_ok(b1),
    ensures
        floor_seg(a0, a1, b0, b1) == r,
        r >= 0,
{
    let q = floor_seg(a0, a1, b0, b1);
    assert(is_floor_seg_distance(q, a0, a1, b0, b1));
    if !crosses(a0, a1, b0, b1) {
        let (n0, d0) = (ps_num(a0, b0, b1), ps_den(a0, b0, b1));
        let (n1, d1) = (ps_num(a1, b0, b1), ps_den(a1, b0, b1));
        let (n2, d2) = (ps_num(b0, a0, a1), ps_den(b0, a0, a1));
        let (n3, d3) = (ps_num(b1, a0, a1), ps_den(b1, a0, a1));
        assert(d0 > 0 && d1 > 0 && d2 > 0 && d3 > 0);
        assert(r >= 0 && q >= 0);
        assert(r <= q) by {
            if is_floor_sqrt(q, n0, d0) {
                lemma_floor_at_most_le(r, q, n0, d0);
            } else if is_floor_sqrt(q, n1, d1) {
                lemma_floor_at_most_le(r, q, n1, d1);
            } else if is_floor_sqrt(q, n2, d2) {
                lemma_floor_at_most_le(r, q, n2, d2);
            } else {
                lemma_floor_at_most_le(r, q, n3, d3);
            }
        }
        assert(q <= r) by {
            if is_floor_sqrt(r, n0, d0) {
                lemma_floor_at_most_le(q, r, n0, d0);
            } else if is_floor_sqrt(r, n1, d1) {
                lemma_floor_at_most_le(q, r, n1, d1);
            } else if is_floor_sqrt(r, n2, d2) {
                lemma_floor_at_most_le(q, r, n2, d2);
            } else {
                lemma_floor_at_most_le(q, r, n3, d3);
            }
        }
    }
}

/// Every number no less than nothing has a square root rounded down,
/// looking upward from `r`.
proof fn lemma_floor_sqrt_from(num: int, den: int, r: int)
    requires
        den > 0,
        r >= 0,
        r * r * den <= num,
    ensures
        exists|s: int| is_floor_sqrt(s, num, den),
    decreases num - r * r * den,
{
    if num < (r + 1) * (r + 1) * den {
        assert(is_floor_sqrt(r, num, den));
    } else {
        assert((r + 1) * (r + 1) * den > r * r * den) by (nonlinear_arith)
            requires
                r >= 0,
                den > 0,
        ;
        lemma_floor_sqrt_from(num, den, r + 1);
    }
}

/// The squared distance from a point to a segment is no less than nothing.
pub proof fn lemma_ps_num_nonneg(p: [i64; 2], a: [i64; 2], b: [i64; 2])
    ensures
        ps_num(p, a, b) >= 0,
{
    let (px, py, ax, ay, bx, by) = (p[0] as int, p[1] as int, a[0] as int, a[1] as int, b[0] as int, b[1] as int);
    let (wx, wy) = (px - ax, py - ay);
    let (ex, ey) = (px - bx, py - by);
    let c = cross2(wx, wy, bx - ax, by - ay);
    assert(dot2(wx, wy, wx, wy) >= 0) by (nonlinear_arith);
    assert(dot2(ex, ey, ex, ey) >= 0) by (nonlinear_arith);
    assert(c * c >= 0) by (nonlinear_arith);
}

/// Any two segments have a distance rounded down, and `floor_seg` is it.
pub proof fn lemma_floor_seg_exists(a0: [i64; 2], a1: [i64; 2], b0: [i64; 2], b1: [i64; 2])
    ensures
        is_floor_seg_distance(floor_seg(a0, a1, b0, b1), a0, a1, b0, b1),
{
    if crosses(a0, a1, b0, b1) {
        assert(is_floor_seg_distance(0, a0, a1, b0, b1));
    } else {
        let (n0, d0) = (ps_num(a0, b0, b1), ps_den(a0, b0, b1));
        let (n1, d1) = (ps_num(a1, b0, b1), ps_den(a1, b0, b1));
        let (n2, d2) = (ps_num(b0, a0, a1), ps_den(b0, a0, a1));
        let (n3, d3) = (ps_num(b1, a0, a1), ps_den(b1, a0, a1));
        lemma_ps_den_positive(a0, b0, b1);
        lemma_ps_den_positive(a1, b0, b1);
        lemma_ps_den_positive(b0, a0, a1);
        lemma_ps_den_positive(b1, a0, a1);
        lemma_ps_num_nonneg(a0, b0, b1);
        lemma_ps_num_nonneg(a1, b0, b1);
        lemma_ps_num_nonneg(b0, a0, a1);
        lemma_ps_num_nonneg(b1, a0, a1);
        lemma_floor_sqrt_from(n0, d0, 0);
        lemma_floor_sqrt_from(n1, d1, 0);
        lemma_floor_sqrt_from(n2, d2, 0);
        lemma_floor_sqrt_from(n3, d3, 0);
        let f0 = choose|s: int| is_floor_sqrt(s, n0, d0);
        let f1 = choose|s: int| is_floor_sqrt(s, n1, d1);
        let f2 = choose|s: int| is_floor_sqrt(s, n2, d2);
        let f3 = choose|s: int| is_floor_sqrt(s, n3, d3);
        let m01 = if f0 <= f1 { f0 } else { f1 };
        let m23 = if f2 <= f3 { f2 } else { f3 };
        let m = if m01 <= m23 { m01 } else { m23 };
        let (nm, dm) = if m == f0 {
            (n0, d0)
        } else if m == f1 {
            (n1, d1)
        } else if m == f2 {
            (n2, d2)
        } else {
            (n3, d3)
        };
        assert(is_floor_sqrt(m, nm, dm));
        lemma_floor_sqrt_le(m, nm, dm, f0, n0, d0);
        lemma_floor_sqrt_le(m, nm, dm, f1, n1, d1);
        lemma_floor_sqrt_le(m, nm, dm, f2, n2, d2);
        lemma_floor_sqrt_le(m, nm, dm, f3, n3, d3);
        assert(is_floor_seg_distance(m, a0, a1, b0, b1));
    }
}

/// The square root of `n`, rounded down.
pub open spec fn floor_root(n: int) -> int {
    choose|r: int| is_floor_sqrt(r, n, 1)
}

/// A square root rounded down is one number: `floor_root` is the value any
/// computation of it gives.
pub proof fn lemma_floor_root(n: int, r: int)
    requires
        is_floor_sqrt(r, n, 1),
    ensures
        floor_root(n) == r,
{
    let q = floor_root(n);
    assert(is_floor_sqrt(q, n, 1));
    lemma_floor_at_most_le(q, r, n, 1);
    lemma_floor_at_most_le(r, q, n, 1);
}


/// The square root of `n`, rounded to the nearest whole number with halves
/// going up.
pub open spec fn round_root(n: int) -> int {
    choose|r: int| is_round_sqrt(r, n, 1)
}

/// A square root rounded to nearest is one number: `round_root` is the value
/// any computation of it gives.
pub proof fn lemma_round_root(n: int, r: int)
    requires
        is_round_sqrt(r, n, 1),
    ensures
        round_root(n) == r,
{
    let q = round_root(n);
    assert(is_round_sqrt(q, n, 1));
    if q < r {
        assert((2 * q + 1) * (2 * q + 1) <= (2 * r - 1) * (2 * r - 1)) by (nonlinear_arith)
            requires
                0 <= q,
                q + 1 <= r,
        ;
    } else if r < q {
        assert((2 * r + 1) * (2 * r + 1) <= (2 * q - 1) * (2 * q - 1)) by (nonlinear_arith)
            requires
                0 <= r,
                r + 1 <= q,
        ;
    }
}

/// Every whole number from zero up has a square root rounded to nearest.
pub proof fn lemma_round_root_exists(n: int)
    requires
        n >= 0,
    ensures
        is_round_sqrt(round_root(n), n, 1),
        round_root(n) >= 0,
    decreases n,
{
    if n == 0 {
        assert(4 * 0int < (2 * 0int + 1) * (2 * 0int + 1) * 1int) by (nonlinear_arith);
        assert(is_round_sqrt(0, 0, 1));
    } else {
        lemma_round_root_exists(n - 1);
        let r = round_root(n - 1);
        if 4 * n < (2 * r + 1) * (2 * r + 1) {
            assert(is_round_sqrt(r, n, 1));
        } else {
            assert(4 * n < (2 * r + 3) * (2 * r + 3)) by (nonlinear_arith)
                requires
                    4 * (n - 1) < (2 * r + 1) * (2 * r + 1),
                    r >= 0,
            ;
            assert(is_round_sqrt(r + 1, n, 1));
        }
    }
}

/// The length of the straight run from `a` to `b`, rounded to the nearest
/// nanometre.
pub open spec fn run_length(a: Point, b: Point) -> int {
    let dx = b.x - a.x;
    let dy = b.y - a.y;
    round_root(dx * dx + dy * dy)
}

/// The length of the straight run between two points, rounded to the
/// nearest nanometre.
pub fn run_between(a: Point, b: Point) -> (d: i64)
    requires
        point_ok(a),
        point_ok(b),
    ensures
        d == run_length(a, b),
        0 <= d <= 4_294_967_296,
{
    let dx = (b.x - a.x) as i128;
    let dy = (b.y - a.y) as i128;
    assert(0 <= dx * dx <= 4_611_686_014_132_420_609 && 0 <= dy * dy <= 4_611_686_014_132_420_609)
        by (nonlinear_arith)
        requires
            -2_147_483_648 < dx < 2_147_483_648,
            -2_147_483_648 < dy < 2_147_483_648,
    ;
    let square = dx * dx + dy * dy;
    let d = round_sqrt_ratio(square, 1);
    proof {
        lemma_round_root(square as int, d as int);
    }
    d
}

} // verus!
