use vstd::prelude::*;

verus! {

/// A point, or a displacement, on the pixel grid.
#[derive(Clone, Copy, Debug, PartialEq, Eq, Structural)]
pub struct Vector2 {
    pub x: i32,
    pub y: i32,
}

/// Squared Euclidean distance between two points.
pub open spec fn sq_dist(a: Vector2, p: Vector2) -> int {
    (p.x - a.x) * (p.x - a.x) + (p.y - a.y) * (p.y - a.y)
}

/// The dot product `(b - a) . (p - a)`; it is negative exactly when `p`
/// projects onto the line `ab` before `a`.
pub open spec fn dot(a: Vector2, b: Vector2, p: Vector2) -> int {
    (b.x - a.x) * (p.x - a.x) + (b.y - a.y) * (p.y - a.y)
}

/// The cross product `(b - a) x (p - a)`: the signed area of the
/// parallelogram on `ab` and `ap`.
pub open spec fn cross(a: Vector2, b: Vector2, p: Vector2) -> int {
    (b.x - a.x) * (p.y - a.y) - (b.y - a.y) * (p.x - a.x)
}

/// Numerator of the squared distance from `p` to the segment `ab`.
/// Where `p` projects before `a` or past `b` the distance is that to the
/// endpoint; a degenerate segment is its single point; otherwise it is the
/// perpendicular distance `|cross| / |ab|`.
pub open spec fn seg_dist_num(a: Vector2, b: Vector2, p: Vector2) -> int {
    if dot(a, b, p) < 0 {
        sq_dist(a, p)
    } else if dot(b, a, p) < 0 {
        sq_dist(b, p)
    } else if sq_dist(a, b) == 0 {
        sq_dist(a, p)
    } else {
        cross(a, b, p) * cross(a, b, p)
    }
}

/// Denominator of the squared distance from `p` to the segment `ab`.
pub open spec fn seg_dist_den(a: Vector2, b: Vector2, p: Vector2) -> int {
    if dot(a, b, p) < 0 || dot(b, a, p) < 0 || sq_dist(a, b) == 0 {
        1
    } else {
        sq_dist(a, b)
    }
}

/// Whether the distance from `p` to the segment `ab` is less than `limit`.
pub open spec fn within_line(a: Vector2, b: Vector2, p: Vector2, limit: int) -> bool {
    seg_dist_num(a, b, p) < limit * limit * seg_dist_den(a, b, p)
}

/// Bound on the difference of two `i32` values.
pub open spec fn diff_bound() -> int {
    0x1_0000_0000
}

proof fn lemma_mul_bound(x: int, y: int)
    requires
        -diff_bound() <= x <= diff_bound(),
        -diff_bound() <= y <= diff_bound(),
    ensures
        -0x1_0000_0000_0000_0000 <= x * y <= 0x1_0000_0000_0000_0000,
{
    assert(-0x1_0000_0000_0000_0000 <= x * y <= 0x1_0000_0000_0000_0000) by (nonlinear_arith)
        requires
            -0x1_0000_0000 <= x <= 0x1_0000_0000,
            -0x1_0000_0000 <= y <= 0x1_0000_0000,
    ;
}

fn mul_wide(x: i64, y: i64) -> (r: i128)
    requires
        -diff_bound() <= x <= diff_bound(),
        -diff_bound() <= y <= diff_bound(),
    ensures
        r == x * y,
        -0x1_0000_0000_0000_0000 <= r <= 0x1_0000_0000_0000_0000,
{
    proof {
        lemma_mul_bound(x as int, y as int);
    }
    (x as i128) * (y as i128)
}

impl Vector2 {
    pub fn new(x: i32, y: i32) -> (r: Self)
        ensures
            r == (Vector2 { x, y }),
    {
        Vector2 { x, y }
    }

    /// Squared Euclidean distance to `b`.
    pub fn square_dist(&self, b: &Vector2) -> (r: u128)
        ensures
            r == sq_dist(*self, *b),
    {
        let dx = b.x as i64 - self.x as i64;
        let dy = b.y as i64 - self.y as i64;
        let s = mul_wide(dx, dx) + mul_wide(dy, dy);
        assert(s >= 0) by (nonlinear_arith)
            requires s == dx * dx + dy * dy;
        s as u128
    }
}

/// Decides whether the distance from `p` to the segment `ab` is below
/// `limit`, exactly, on the squared distance.
pub fn dist_to_line_below(a: Vector2, b: Vector2, p: Vector2, limit: u16) -> (r: bool)
    ensures
        r == within_line(a, b, p, limit as int),
{
    let abx = b.x as i64 - a.x as i64;
    let aby = b.y as i64 - a.y as i64;
    let apx = p.x as i64 - a.x as i64;
    let apy = p.y as i64 - a.y as i64;
    let bpx = p.x as i64 - b.x as i64;
    let bpy = p.y as i64 - b.y as i64;
    assert(0 <= limit * limit <= 0x1_0000_0000) by (nonlinear_arith)
        requires 0 <= limit <= 0xffff;
    let lim2: i128 = (limit as i128) * (limit as i128);

    let dot_a = mul_wide(abx, apx) + mul_wide(aby, apy);
    let ap2 = mul_wide(apx, apx) + mul_wide(apy, apy);
    if dot_a < 0 {
        return ap2 < lim2;
    }
    let dot_b = mul_wide(-abx, bpx) + mul_wide(-aby, bpy);
    let bp2 = mul_wide(bpx, bpx) + mul_wide(bpy, bpy);
    if dot_b < 0 {
        return bp2 < lim2;
    }
    let l2 = mul_wide(abx, abx) + mul_wide(aby, aby);
    if l2 == 0 {
        return ap2 < lim2;
    }
    let c = mul_wide(abx, apy) - mul_wide(aby, apx);
    let cabs: u128 = if c < 0 { (-c) as u128 } else { c as u128 };
    assert(0 < l2 <= 0x2_0000_0000_0000_0000) by (nonlinear_arith)
        requires l2 == abx * abx + aby * aby, l2 != 0,
            -0x1_0000_0000 <= abx <= 0x1_0000_0000,
            -0x1_0000_0000 <= aby <= 0x1_0000_0000;
    assert(lim2 * l2 <= 0x2_0000_0000_0000_0000_0000_0000) by (nonlinear_arith)
        requires 0 <= lim2 <= 0x1_0000_0000, 0 < l2 <= 0x2_0000_0000_0000_0000;
    let t: u128 = (lim2 as u128) * (l2 as u128);
    proof {
        assert(cabs * cabs == c * c) by (nonlinear_arith)
            requires cabs == c || cabs == -c;
    }
    if cabs >= 0x1_0000_0000_0000_0000 {
        assert(cabs * cabs >= 0x1_0000_0000_0000_0000_0000_0000_0000_0000) by (nonlinear_arith)
            requires cabs >= 0x1_0000_0000_0000_0000;
        return false;
    }
    assert(cabs * cabs < 0x1_0000_0000_0000_0000_0000_0000_0000_0000) by (nonlinear_arith)
        requires 0 <= cabs < 0x1_0000_0000_0000_0000;
    cabs * cabs < t
}

/// A point on the segment `ab` is at distance zero from it. The point is
/// `a + (k / n) (b - a)` with `0 <= k <= n`.
pub proof fn lemma_on_segment_distance_zero(a: Vector2, b: Vector2, p: Vector2, k: int, n: int)
    requires
        0 <= k <= n,
        0 < n,
        n * (p.x - a.x) == k * (b.x - a.x),
        n * (p.y - a.y) == k * (b.y - a.y),
    ensures
        seg_dist_num(a, b, p) == 0,
        forall|limit: int| limit > 0 ==> #[trigger] within_line(a, b, p, limit),
{
    let ux = b.x - a.x;
    let uy = b.y - a.y;
    let vx = p.x - a.x;
    let vy = p.y - a.y;
    let l2 = ux * ux + uy * uy;
    assert(n * dot(a, b, p) == k * l2) by (nonlinear_arith)
        requires n * vx == k * ux, n * vy == k * uy, dot(a, b, p) == ux * vx + uy * vy,
            l2 == ux * ux + uy * uy;
    let db = dot(b, a, p);
    assert(db == (-ux) * (vx - ux) + (-uy) * (vy - uy));
    assert(n * db == (-ux) * (n * vx - n * ux) + (-uy) * (n * vy - n * uy)) by (nonlinear_arith)
        requires db == (-ux) * (vx - ux) + (-uy) * (vy - uy);
    assert((-ux) * (k * ux - n * ux) + (-uy) * (k * uy - n * uy) == (n - k) * l2)
        by (nonlinear_arith)
        requires l2 == ux * ux + uy * uy;
    assert(n * dot(b, a, p) == (n - k) * l2);
    assert(n * cross(a, b, p) == 0) by (nonlinear_arith)
        requires n * vx == k * ux, n * vy == k * uy, cross(a, b, p) == ux * vy - uy * vx;
    assert(l2 >= 0) by (nonlinear_arith)
        requires l2 == ux * ux + uy * uy;
    assert(dot(a, b, p) >= 0) by (nonlinear_arith)
        requires n * dot(a, b, p) == k * l2, n > 0, k >= 0, l2 >= 0;
    assert(dot(b, a, p) >= 0) by (nonlinear_arith)
        requires n * dot(b, a, p) == (n - k) * l2, n > 0, n - k >= 0, l2 >= 0;
    assert(cross(a, b, p) == 0) by (nonlinear_arith)
        requires n * cross(a, b, p) == 0, n > 0;
    if l2 == 0 {
        assert(ux == 0 && uy == 0) by (nonlinear_arith)
            requires l2 == ux * ux + uy * uy, l2 == 0;
        assert(vx == 0 && vy == 0) by (nonlinear_arith)
            requires n * vx == k * ux, n * vy == k * uy, ux == 0, uy == 0, n > 0;
    }
    assert(seg_dist_num(a, b, p) == 0);
    assert forall|limit: int| limit > 0 implies #[trigger] within_line(a, b, p, limit) by {
        assert(seg_dist_den(a, b, p) >= 1);
        assert(limit * limit * seg_dist_den(a, b, p) > 0) by (nonlinear_arith)
            requires limit > 0, seg_dist_den(a, b, p) >= 1;
    }
}

/// Where `p` lies outside the band between the perpendiculars to `ab`
/// through `a` and through `b`, its distance to the segment is its
/// distance to the nearer endpoint.
pub proof fn lemma_outside_band_nearest_endpoint(a: Vector2, b: Vector2, p: Vector2)
    requires
        dot(a, b, p) < 0 || dot(b, a, p) < 0,
    ensures
        seg_dist_den(a, b, p) == 1,
        seg_dist_num(a, b, p) == if sq_dist(a, p) <= sq_dist(b, p) {
            sq_dist(a, p)
        } else {
            sq_dist(b, p)
        },
{
    let ux = b.x - a.x;
    let uy = b.y - a.y;
    let vx = p.x - a.x;
    let vy = p.y - a.y;
    let l2 = ux * ux + uy * uy;
    assert(l2 >= 0) by (nonlinear_arith)
        requires l2 == ux * ux + uy * uy;
    assert(sq_dist(b, p) == sq_dist(a, p) - 2 * dot(a, b, p) + l2) by (nonlinear_arith)
        requires
            sq_dist(b, p) == (vx - ux) * (vx - ux) + (vy - uy) * (vy - uy),
            sq_dist(a, p) == vx * vx + vy * vy,
            dot(a, b, p) == ux * vx + uy * vy,
            l2 == ux * ux + uy * uy;
    assert(sq_dist(a, p) == sq_dist(b, p) - 2 * dot(b, a, p) + l2) by (nonlinear_arith)
        requires
            sq_dist(b, p) == (vx - ux) * (vx - ux) + (vy - uy) * (vy - uy),
            sq_dist(a, p) == vx * vx + vy * vy,
            dot(b, a, p) == (-ux) * (vx - ux) + (-uy) * (vy - uy),
            l2 == ux * ux + uy * uy;
}

proof fn lemma_lagrange(ux: int, uy: int, vx: int, vy: int)
    ensures
        (vx * vx + vy * vy) * (ux * ux + uy * uy) - (ux * vx + uy * vy) * (ux * vx + uy * vy) == (ux
            * vy - uy * vx) * (ux * vy - uy * vx),
{
    assert((vx * vx + vy * vy) * (ux * ux + uy * uy) == vx * vx * (ux * ux) + vx * vx * (uy * uy)
        + vy * vy * (ux * ux) + vy * vy * (uy * uy)) by (nonlinear_arith);
    assert((ux * vx + uy * vy) * (ux * vx + uy * vy) == ux * vx * (ux * vx) + 2 * (ux * vx * (uy * vy))
        + uy * vy * (uy * vy)) by (nonlinear_arith);
    assert((ux * vy - uy * vx) * (ux * vy - uy * vx) == ux * vy * (ux * vy) - 2 * (ux * vx * (uy * vy))
        + uy * vx * (uy * vx)) by (nonlinear_arith);
    assert(vx * vx * (ux * ux) == ux * vx * (ux * vx)) by (nonlinear_arith);
    assert(vy * vy * (uy * uy) == uy * vy * (uy * vy)) by (nonlinear_arith);
    assert(vx * vx * (uy * uy) == uy * vx * (uy * vx)) by (nonlinear_arith);
    assert(vy * vy * (ux * ux) == ux * vy * (ux * vy)) by (nonlinear_arith);
}

/// The perpendicular case agrees with the law-of-cosines form of the
/// distance: with `L^2 = |ab|^2` and `disc = L^2 + |ap|^2 - |bp|^2 = 2 dot`,
/// `|ap|^2 - (disc / 2L)^2 = (|ap|^2 L^2 - dot^2) / L^2 = cross^2 / L^2`.
pub proof fn lemma_perpendicular_form(a: Vector2, b: Vector2, p: Vector2)
    ensures
        sq_dist(a, b) + sq_dist(a, p) - sq_dist(b, p) == 2 * dot(a, b, p),
        sq_dist(a, p) * sq_dist(a, b) - dot(a, b, p) * dot(a, b, p) == cross(a, b, p) * cross(a, b, p),
{
    let ux = b.x - a.x;
    let uy = b.y - a.y;
    let vx = p.x - a.x;
    let vy = p.y - a.y;
    assert(sq_dist(a, b) + sq_dist(a, p) - sq_dist(b, p) == 2 * dot(a, b, p)) by (nonlinear_arith)
        requires
            sq_dist(a, b) == ux * ux + uy * uy,
            sq_dist(a, p) == vx * vx + vy * vy,
            sq_dist(b, p) == (vx - ux) * (vx - ux) + (vy - uy) * (vy - uy),
            dot(a, b, p) == ux * vx + uy * vy;
    lemma_lagrange(ux, uy, vx, vy);
}

/// One side of the band argument, on coordinates relative to `a`: with
/// `u = b - a`, `v = p - a`, the foot of the perpendicular inside the
/// segment (`0 <= d <= l2`) and the perpendicular distance below `t`, the
/// first coordinate of `v` stays below `max(0, ux) + t`.
proof fn lemma_perpendicular_reach(ux: int, uy: int, vx: int, vy: int, t: int)
    requires
        t >= 0,
        ux * ux + uy * uy > 0,
        0 <= ux * vx + uy * vy <= ux * ux + uy * uy,
        (ux * vy - uy * vx) * (ux * vy - uy * vx) < t * t * (ux * ux + uy * uy),
    ensures
        vx < (if ux >= 0 { ux } else { 0 }) + t,
{
    let l2 = ux * ux + uy * uy;
    let d = ux * vx + uy * vy;
    let c = ux * vy - uy * vx;
    let v2 = vx * vx + vy * vy;
    let m = if ux >= 0 { ux } else { 0 };
    let kx = l2 * vx - d * ux;
    let ky = l2 * vy - d * uy;
    lemma_lagrange(ux, uy, vx, vy);
    assert(v2 * l2 - d * d == c * c);
    let pp = l2 * l2;
    let qq = l2 * d;
    let rr = d * d;
    lemma_square_of_difference(l2, vx, d, ux);
    lemma_square_of_difference(l2, vy, d, uy);
    assert(kx * kx == pp * (vx * vx) - 2 * (qq * (vx * ux)) + rr * (ux * ux));
    assert(ky * ky == pp * (vy * vy) - 2 * (qq * (vy * uy)) + rr * (uy * uy));
    assert(vx * ux == ux * vx && vy * uy == uy * vy) by (nonlinear_arith);
    assert(pp * (vx * vx) + pp * (vy * vy) == pp * v2) by (nonlinear_arith)
        requires v2 == vx * vx + vy * vy;
    assert(qq * (ux * vx) + qq * (uy * vy) == qq * d) by (nonlinear_arith)
        requires d == ux * vx + uy * vy;
    assert(rr * (ux * ux) + rr * (uy * uy) == rr * l2) by (nonlinear_arith)
        requires l2 == ux * ux + uy * uy;
    assert(kx * kx + ky * ky == l2 * l2 * v2 - 2 * l2 * d * d + d * d * l2) by (nonlinear_arith)
        requires
            kx * kx + ky * ky == pp * v2 - 2 * (qq * d) + rr * l2,
            pp == l2 * l2, qq == l2 * d, rr == d * d;
    assert(kx * kx + ky * ky == l2 * (c * c)) by (nonlinear_arith)
        requires
            kx * kx + ky * ky == l2 * l2 * v2 - 2 * l2 * d * d + d * d * l2,
            v2 * l2 - d * d == c * c;
    if vx >= m + t {
        assert(d * ux <= l2 * m) by (nonlinear_arith)
            requires 0 <= d <= l2, m == (if ux >= 0 { ux } else { 0 });
        assert(l2 * vx >= l2 * (m + t)) by (nonlinear_arith)
            requires l2 > 0, vx >= m + t;
        assert(l2 * (m + t) == l2 * m + l2 * t) by (nonlinear_arith);
        assert(kx >= l2 * t);
        assert(l2 * t >= 0) by (nonlinear_arith)
            requires l2 > 0, t >= 0;
        assert(kx * kx >= (l2 * t) * (l2 * t)) by (nonlinear_arith)
            requires kx >= l2 * t, l2 * t >= 0;
        assert(ky * ky >= 0) by (nonlinear_arith);
        assert(l2 * (c * c) >= l2 * (l2 * (t * t))) by (nonlinear_arith)
            requires
                kx * kx + ky * ky == l2 * (c * c),
                kx * kx >= (l2 * t) * (l2 * t),
                ky * ky >= 0;
        assert(c * c >= l2 * (t * t)) by (nonlinear_arith)
            requires l2 * (c * c) >= l2 * (l2 * (t * t)), l2 > 0;
        assert(false) by (nonlinear_arith)
            requires c * c >= l2 * (t * t), c * c < t * t * l2;
    }
}

proof fn lemma_square_of_difference(a: int, x: int, b: int, y: int)
    ensures
        (a * x - b * y) * (a * x - b * y) == (a * a) * (x * x) - 2 * ((a * b) * (x * y)) + (b * b) * (
        y * y),
{
    let p = a * x;
    let q = b * y;
    assert((p - q) * (p - q) == p * p - 2 * (p * q) + q * q) by (nonlinear_arith);
    assert(p * p == (a * a) * (x * x)) by (nonlinear_arith)
        requires p == a * x;
    assert(q * q == (b * b) * (y * y)) by (nonlinear_arith)
        requires q == b * y;
    assert(p * q == (a * b) * (x * y)) by (nonlinear_arith)
        requires p == a * x, q == b * y;
}

proof fn lemma_square_below(x: int, t: int)
    requires
        t >= 0,
        x * x < t * t,
    ensures
        -t < x < t,
{
    if x >= t {
        assert(x * x >= t * t) by (nonlinear_arith)
            requires x >= t, t >= 0;
    }
    if x <= -t {
        assert(x * x >= t * t) by (nonlinear_arith)
            requires x <= -t, t >= 0;
    }
}

/// Every point nearer than `t` to the segment `ab` lies in the segment's
/// box widened by `t` on every side, so a stroke need look nowhere else.
pub proof fn lemma_within_line_in_box(a: Vector2, b: Vector2, p: Vector2, t: int)
    requires
        t >= 0,
        within_line(a, b, p, t),
    ensures
        (if a.x <= b.x { a.x as int } else { b.x as int }) - t < p.x,
        p.x < (if a.x >= b.x { a.x as int } else { b.x as int }) + t,
        (if a.y <= b.y { a.y as int } else { b.y as int }) - t < p.y,
        p.y < (if a.y >= b.y { a.y as int } else { b.y as int }) + t,
{
    let ux = b.x - a.x;
    let uy = b.y - a.y;
    let vx = p.x - a.x;
    let vy = p.y - a.y;
    assert((vx * vx) >= 0 && (vy * vy) >= 0) by (nonlinear_arith);
    assert(((p.x - b.x) * (p.x - b.x)) >= 0 && ((p.y - b.y) * (p.y - b.y)) >= 0) by (nonlinear_arith);
    if dot(a, b, p) < 0 || (dot(b, a, p) >= 0 && sq_dist(a, b) == 0) {
        assert(sq_dist(a, p) < t * t);
        lemma_square_below(vx, t);
        lemma_square_below(vy, t);
        if sq_dist(a, b) == 0 {
            assert(ux == 0 && uy == 0) by (nonlinear_arith)
                requires ux * ux + uy * uy == 0;
        }
    } else if dot(b, a, p) < 0 {
        assert(sq_dist(b, p) < t * t);
        lemma_square_below(p.x - b.x, t);
        lemma_square_below(p.y - b.y, t);
    } else {
        let l2 = ux * ux + uy * uy;
        let c = ux * vy - uy * vx;
        assert(dot(a, b, p) + dot(b, a, p) == l2) by (nonlinear_arith)
            requires
                dot(a, b, p) == ux * vx + uy * vy,
                dot(b, a, p) == (-ux) * (vx - ux) + (-uy) * (vy - uy),
                l2 == ux * ux + uy * uy;
        assert(l2 >= 0) by (nonlinear_arith)
            requires l2 == ux * ux + uy * uy;
        assert(c * c < t * t * l2);
        assert((-ux) * (-ux) + uy * uy == l2 && (-ux) * (-vx) + uy * vy == ux * vx + uy * vy
            && ((-ux) * vy - uy * (-vx)) * ((-ux) * vy - uy * (-vx)) == c * c) by (nonlinear_arith)
            requires l2 == ux * ux + uy * uy, c == ux * vy - uy * vx;
        assert(uy * uy + ux * ux == l2 && uy * vy + ux * vx == ux * vx + uy * vy
            && (uy * vx - ux * vy) * (uy * vx - ux * vy) == c * c
            && (-uy) * (-uy) + ux * ux == l2 && (-uy) * (-vy) + ux * vx == ux * vx + uy * vy
            && ((-uy) * vx - ux * (-vy)) * ((-uy) * vx - ux * (-vy)) == c * c) by (nonlinear_arith)
            requires l2 == ux * ux + uy * uy, c == ux * vy - uy * vx;
        if l2 > 0 {
            lemma_perpendicular_reach(ux, uy, vx, vy, t);
            lemma_perpendicular_reach(-ux, uy, -vx, vy, t);
            lemma_perpendicular_reach(uy, ux, vy, vx, t);
            lemma_perpendicular_reach(-uy, ux, -vy, vx, t);
        }
    }
}

} // verus!
