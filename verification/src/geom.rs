//! Geometry primitives: fixed-point 2D vectors and axis-aligned rectangles,
//! with the collision-support operations the simulation is built on
//! (containment, dilation, nearest-point snap, signed distance).
//!
//! Coordinates are fixed-point subunits (see [`crate::consts::SCALE`]).
//! Distances are exact floors of the real Euclidean distance, computed with
//! a verified integer square root; collision predicates compare squared
//! distances and are exact.

use vstd::prelude::*;
use vstd::arithmetic::div_mod::lemma_div_by_multiple;
use vstd::arithmetic::div_mod::lemma_div_is_ordered;
use vstd::arithmetic::div_mod::lemma_div_nonincreasing;
use vstd::arithmetic::div_mod::lemma_div_pos_is_pos;
use crate::consts::SCALE;

verus! {

/// Quotient rounded toward zero, as Rust's integer division computes it.
pub open spec fn div_trunc(a: int, b: int) -> int {
    if a >= 0 {
        a / b
    } else {
        -((-a) / b)
    }
}

/// A quotient rounded toward zero lies in `[-k, k]` whenever the dividend
/// lies in `[-k*b, k*b]`.
pub proof fn lemma_div_trunc_bounded(a: int, b: int, k: int)
    requires
        b > 0,
        k >= 0,
        -(k * b) <= a <= k * b,
    ensures
        -k <= div_trunc(a, b) <= k,
{
    if a >= 0 {
        lemma_div_pos_is_pos(a, b);
        lemma_div_is_ordered(a, k * b, b);
        lemma_div_by_multiple(k, b);
    } else {
        lemma_div_pos_is_pos(-a, b);
        lemma_div_is_ordered(-a, k * b, b);
        lemma_div_by_multiple(k, b);
    }
}

/// Mathematical model of a point or vector.
pub ghost struct PtM {
    pub x: int,
    pub y: int,
}

/// Mathematical model of an axis-aligned rectangle: minimum corner and
/// nonnegative extents.
pub ghost struct RectM {
    pub x: int,
    pub y: int,
    pub w: int,
    pub h: int,
}

/// Absolute value.
pub open spec fn iabs(x: int) -> int {
    if x < 0 {
        -x
    } else {
        x
    }
}

/// Maximum.
pub open spec fn imax(x: int, y: int) -> int {
    if x >= y {
        x
    } else {
        y
    }
}

/// Square.
pub open spec fn sq(x: int) -> int {
    x * x
}

/// A square is never negative.
pub proof fn lemma_sq_nonneg(v: int)
    ensures
        sq(v) >= 0,
{
    assert(v * v >= 0) by (nonlinear_arith);
}

/// Squaring forgets the sign.
pub proof fn lemma_sq_abs(v: int)
    ensures
        sq(iabs(v)) == sq(v),
{
    assert((-v) * (-v) == v * v) by (nonlinear_arith);
}

/// Squaring is monotone on nonnegative integers.
pub proof fn lemma_sq_le(a: int, b: int)
    requires
        0 <= a <= b,
    ensures
        sq(a) <= sq(b),
{
    assert(a * a <= b * b) by (nonlinear_arith)
        requires
            0 <= a <= b,
    ;
}

/// Squaring is strictly monotone on nonnegative integers.
pub proof fn lemma_sq_lt(a: int, b: int)
    requires
        0 <= a < b,
    ensures
        sq(a) < sq(b),
{
    assert(a * a < b * b) by (nonlinear_arith)
        requires
            0 <= a < b,
    ;
}

/// The floor of the square root of a nonnegative integer, as the unique
/// nonnegative `r` with `r^2 <= n < (r+1)^2`.
pub open spec fn sqrt_floor(n: int) -> int {
    choose|r: int| r >= 0 && #[trigger] sq(r) <= n < sq(r + 1)
}

/// The floor of the square root is unique: any nonnegative `r` whose square
/// brackets `n` is `sqrt_floor(n)`.
pub proof fn lemma_sqrt_floor_unique(n: int, r: int)
    requires
        r >= 0,
        sq(r) <= n < sq(r + 1),
    ensures
        sqrt_floor(n) == r,
{
    let c = sqrt_floor(n);
    assert(c >= 0 && sq(c) <= n < sq(c + 1));
    if c < r {
        lemma_sq_le(c + 1, r);
    }
    if r < c {
        lemma_sq_le(r + 1, c);
    }
}

/// For nonnegative `s` and `r`, with the bracketing property of the root in
/// hand: the floor of the square root of `s` is below `r` exactly when `s`
/// is below `r^2`.
pub proof fn lemma_sqrt_floor_lt(s: int, r: int)
    requires
        s >= 0,
        r >= 0,
        sqrt_floor(s) >= 0,
        sq(sqrt_floor(s)) <= s < sq(sqrt_floor(s) + 1),
    ensures
        (sqrt_floor(s) < r) <==> (s < sq(r)),
{
    let f = sqrt_floor(s);
    if f < r {
        lemma_sq_le(f + 1, r);
    }
    if s < sq(r) && f >= r {
        lemma_sq_le(r, f);
    }
}

/// Integer square root: the floor of the square root of `n`.
pub fn isqrt(n: u128) -> (r: u128)
    ensures
        sq(r as int) <= n < sq(r as int + 1),
        r == sqrt_floor(n as int),
{
    let mut lo: u128 = 0;
    let mut hi: u128 = 0x1_0000_0000_0000_0000;
    while lo + 1 < hi
        invariant
            0 <= lo < hi <= 0x1_0000_0000_0000_0000,
            sq(lo as int) <= n,
            (n as int) < sq(hi as int),
        decreases hi - lo,
    {
        let mid: u128 = lo + (hi - lo) / 2;
        proof {
            assert(mid * mid < 0x1_0000_0000_0000_0000_0000_0000_0000_0000) by (nonlinear_arith)
                requires
                    0 <= mid < 0x1_0000_0000_0000_0000,
            ;
        }
        if mid * mid <= n {
            lo = mid;
        } else {
            hi = mid;
        }
    }
    proof {
        lemma_sqrt_floor_unique(n as int, lo as int);
    }
    lo
}

/// Coordinate magnitude accepted by the distance operations; leaves room
/// for the intermediate differences and squares.
pub const GEOM_BOUND: i64 = 0x1000_0000_0000_0000;

/// A fixed-point 2D vector (or point).
#[derive(Clone, Copy, PartialEq, Eq, Structural, Debug)]
pub struct Vec2 {
    pub x: i64,
    pub y: i64,
}

impl View for Vec2 {
    type V = PtM;

    open spec fn view(&self) -> PtM {
        PtM { x: self.x as int, y: self.y as int }
    }
}

/// Squared Euclidean distance between two points.
pub open spec fn dist2(a: PtM, b: PtM) -> int {
    sq(a.x - b.x) + sq(a.y - b.y)
}

/// Squared length of a vector.
pub open spec fn len2(a: PtM) -> int {
    sq(a.x) + sq(a.y)
}

impl Vec2 {
    pub fn new(x: i64, y: i64) -> (r: Vec2)
        ensures
            r@ == (PtM { x: x as int, y: y as int }),
    {
        Vec2 { x, y }
    }

    /// Componentwise sum.
    pub fn add(self, other: Vec2) -> (r: Vec2)
        requires
            i64::MIN <= self@.x + other@.x <= i64::MAX,
            i64::MIN <= self@.y + other@.y <= i64::MAX,
        ensures
            r@ == (PtM { x: self@.x + other@.x, y: self@.y + other@.y }),
    {
        Vec2 { x: self.x + other.x, y: self.y + other.y }
    }

    /// Componentwise difference.
    pub fn sub(self, other: Vec2) -> (r: Vec2)
        requires
            i64::MIN <= self@.x - other@.x <= i64::MAX,
            i64::MIN <= self@.y - other@.y <= i64::MAX,
        ensures
            r@ == (PtM { x: self@.x - other@.x, y: self@.y - other@.y }),
    {
        Vec2 { x: self.x - other.x, y: self.y - other.y }
    }

    /// Componentwise scaling.
    pub fn mul_scalar(self, scalar: i64) -> (r: Vec2)
        requires
            i64::MIN <= self@.x * scalar <= i64::MAX,
            i64::MIN <= self@.y * scalar <= i64::MAX,
        ensures
            r@ == (PtM { x: self@.x * scalar, y: self@.y * scalar }),
    {
        Vec2 { x: self.x * scalar, y: self.y * scalar }
    }

    /// Componentwise division by a positive scalar, rounded toward zero.
    pub fn div_scalar(self, scalar: i64) -> (r: Vec2)
        requires
            scalar > 0,
            self@.x > i64::MIN,
            self@.y > i64::MIN,
        ensures
            r@ == (PtM {
                x: div_trunc(self@.x, scalar as int),
                y: div_trunc(self@.y, scalar as int),
            }),
    {
        let rx: i64 = if self.x >= 0 {
            self.x / scalar
        } else {
            let q: i64 = ((-(self.x as i128)) as i64) / scalar;
            -q
        };
        let ry: i64 = if self.y >= 0 {
            self.y / scalar
        } else {
            let q: i64 = ((-(self.y as i128)) as i64) / scalar;
            -q
        };
        proof {
            lemma_div_pos_is_pos(iabs(self@.x), scalar as int);
            lemma_div_pos_is_pos(iabs(self@.y), scalar as int);
            lemma_div_nonincreasing(iabs(self@.x), scalar as int);
            lemma_div_nonincreasing(iabs(self@.y), scalar as int);
        }
        Vec2 { x: rx, y: ry }
    }

    /// The floor of the Euclidean length.
    pub fn magnitude(&self) -> (r: i64)
        requires
            iabs(self@.x) <= GEOM_BOUND,
            iabs(self@.y) <= GEOM_BOUND,
        ensures
            r == sqrt_floor(len2(self@)),
            r >= 0,
            sq(r as int) <= len2(self@) < sq(r as int + 1),
    {
        proof {
            lemma_sq_abs(self@.x);
            lemma_sq_abs(self@.y);
            lemma_sq_nonneg(self@.x);
            lemma_sq_nonneg(self@.y);
            lemma_sq_le(iabs(self@.x), GEOM_BOUND as int);
            lemma_sq_le(iabs(self@.y), GEOM_BOUND as int);
            assert(sq(GEOM_BOUND as int) == 0x100_0000_0000_0000_0000_0000_0000_0000)
                by (nonlinear_arith);
        }
        let xx: i128 = (self.x as i128) * (self.x as i128);
        let yy: i128 = (self.y as i128) * (self.y as i128);
        let s: u128 = (xx + yy) as u128;
        let r: u128 = isqrt(s);
        proof {
            if r as int > 0x7fff_ffff_ffff_ffff {
                lemma_sq_le(0x8000_0000_0000_0000, r as int);
                assert(sq(0x8000_0000_0000_0000) == 0x4000_0000_0000_0000_0000_0000_0000_0000)
                    by (nonlinear_arith);
            }
        }
        r as i64
    }

    /// The floor of the Euclidean distance to `other`.
    pub fn dist(&self, other: Vec2) -> (r: i64)
        requires
            iabs(self@.x - other@.x) <= GEOM_BOUND,
            iabs(self@.y - other@.y) <= GEOM_BOUND,
        ensures
            r == sqrt_floor(dist2(self@, other@)),
            r >= 0,
            sq(r as int) <= dist2(self@, other@) < sq(r as int + 1),
    {
        let dx: i64 = if self.x >= other.x {
            ((self.x as i128 - other.x as i128) as i64)
        } else {
            ((other.x as i128 - self.x as i128) as i64)
        };
        let dy: i64 = if self.y >= other.y {
            ((self.y as i128 - other.y as i128) as i64)
        } else {
            ((other.y as i128 - self.y as i128) as i64)
        };
        let d = Vec2 { x: dx, y: dy };
        proof {
            lemma_sq_abs(self@.x - other@.x);
            lemma_sq_abs(self@.y - other@.y);
            assert(len2(d@) == dist2(self@, other@));
        }
        d.magnitude()
    }

    /// Scales the vector to length [`SCALE`] (one world unit), rounding each
    /// component toward zero; the zero vector is returned unchanged rather
    /// than signalling an error.
    pub fn normalize(&self) -> (r: Vec2)
        requires
            iabs(self@.x) <= GEOM_BOUND,
            iabs(self@.y) <= GEOM_BOUND,
        ensures
            self@.x == 0 && self@.y == 0 ==> r == *self,
            !(self@.x == 0 && self@.y == 0) ==> {
                let m = sqrt_floor(len2(self@));
                r@ == (PtM {
                    x: div_trunc(self@.x * SCALE, m),
                    y: div_trunc(self@.y * SCALE, m),
                })
            },
    {
        if self.x == 0 && self.y == 0 {
            return *self;
        }
        let m = self.magnitude();
        proof {
            lemma_sq_nonneg(self@.x);
            lemma_sq_nonneg(self@.y);
            if m == 0 {
                lemma_sq_abs(self@.x);
                lemma_sq_abs(self@.y);
                if self@.x != 0 {
                    lemma_sq_lt(0, iabs(self@.x));
                } else {
                    lemma_sq_lt(0, iabs(self@.y));
                }
            }
            lemma_abs_le_root(self@.x, m as int, len2(self@));
            lemma_abs_le_root(self@.y, m as int, len2(self@));
        }
        let nx = scale_toward_zero(self.x, m);
        let ny = scale_toward_zero(self.y, m);
        Vec2 { x: nx, y: ny }
    }

    /// Linear interpolation from `self` (at `t == 0`) to `other` (at
    /// `t == 1000`), with `t` in thousandths and components rounded toward
    /// zero.
    pub fn lerp(&self, other: Vec2, t: i64) -> (r: Vec2)
        requires
            0 <= t <= 1000,
            iabs(self@.x) <= GEOM_BOUND,
            iabs(self@.y) <= GEOM_BOUND,
            iabs(other@.x) <= GEOM_BOUND,
            iabs(other@.y) <= GEOM_BOUND,
        ensures
            r@.x == self@.x + div_trunc((other@.x - self@.x) * t, 1000),
            r@.y == self@.y + div_trunc((other@.y - self@.y) * t, 1000),
    {
        let dx = lerp_step(self.x, other.x, t);
        let dy = lerp_step(self.y, other.y, t);
        Vec2 { x: self.x + dx, y: self.y + dy }
    }
}

/// One component of a unit-length rescale: `c * SCALE / m`, rounded toward
/// zero, computed on magnitudes so that only nonnegative division is used.
fn scale_toward_zero(c: i64, m: i64) -> (r: i64)
    requires
        m > 0,
        iabs(c as int) <= m,
    ensures
        r == div_trunc(c * SCALE, m as int),
        -SCALE <= r <= SCALE,
{
    proof {
        assert(iabs(c as int) * SCALE <= m * SCALE) by (nonlinear_arith)
            requires
                0 <= iabs(c as int) <= m,
        ;
        lemma_div_pos_is_pos(iabs(c as int) * SCALE, m as int);
        lemma_div_is_ordered(iabs(c as int) * SCALE, m * SCALE, m as int);
        lemma_div_by_multiple(SCALE as int, m as int);
    }
    let mag: u128 = if c >= 0 {
        (c as u128) * (SCALE as u128) / (m as u128)
    } else {
        ((-(c as i128)) as u128) * (SCALE as u128) / (m as u128)
    };
    if c >= 0 {
        mag as i64
    } else {
        -(mag as i64)
    }
}

/// One component of a linear interpolation step: `(b - a) * t / 1000`,
/// rounded toward zero, computed on magnitudes so that only nonnegative
/// division is used.
fn lerp_step(a: i64, b: i64, t: i64) -> (r: i64)
    requires
        0 <= t <= 1000,
        iabs(a as int) <= GEOM_BOUND,
        iabs(b as int) <= GEOM_BOUND,
    ensures
        r == div_trunc((b - a) * t, 1000),
        iabs(r as int) <= iabs(b - a),
        i64::MIN <= a + r <= i64::MAX,
{
    let diff: i128 = (b as i128) - (a as i128);
    let adiff: u128 = if diff >= 0 {
        diff as u128
    } else {
        (-diff) as u128
    };
    proof {
        assert(adiff * t <= adiff * 1000) by (nonlinear_arith)
            requires
                0 <= t <= 1000,
                0 <= adiff,
        ;
        lemma_div_pos_is_pos(adiff * t, 1000);
        lemma_div_is_ordered(adiff * t, adiff * 1000, 1000);
        lemma_div_by_multiple(adiff as int, 1000);
    }
    let mag: u128 = adiff * (t as u128) / 1000;
    proof {
        let p = (b as int - a as int) * (t as int);
        if diff >= 0 {
            assert(p >= 0) by (nonlinear_arith)
                requires
                    p == ((b as int) - (a as int)) * (t as int),
                    (b as int) - (a as int) >= 0,
                    (t as int) >= 0,
            ;
        } else {
            assert(p <= 0 && -p == (adiff as int) * (t as int)) by (nonlinear_arith)
                requires
                    p == ((b as int) - (a as int)) * (t as int),
                    (b as int) - (a as int) < 0,
                    (t as int) >= 0,
                    (adiff as int) == -((b as int) - (a as int)),
            ;
        }
    }
    if diff >= 0 {
        mag as i64
    } else {
        -(mag as i64)
    }
}

/// A component is no longer than the floor of the root of any value its own
/// square is part of: from `c^2 <= s < (m+1)^2` follows `|c| <= m`.
proof fn lemma_abs_le_root(c: int, m: int, s: int)
    requires
        m >= 0,
        sq(c) <= s,
        s < sq(m + 1),
    ensures
        iabs(c) <= m,
{
    lemma_sq_abs(c);
    if iabs(c) > m {
        lemma_sq_le(m + 1, iabs(c));
    }
}

/// A fixed-point axis-aligned rectangle: minimum corner `(x, y)`, extents
/// `(w, h)`.
#[derive(Clone, Copy, PartialEq, Eq, Structural, Debug)]
pub struct Rect {
    pub x: i64,
    pub y: i64,
    pub w: i64,
    pub h: i64,
}

impl View for Rect {
    type V = RectM;

    open spec fn view(&self) -> RectM {
        RectM { x: self.x as int, y: self.y as int, w: self.w as int, h: self.h as int }
    }
}

/// Componentwise clamp of a point into a rectangle: the point of the
/// rectangle nearest to `p`.
pub open spec fn snap_of(p: PtM, r: RectM) -> PtM {
    PtM {
        x: if p.x < r.x {
            r.x
        } else if p.x > r.x + r.w {
            r.x + r.w
        } else {
            p.x
        },
        y: if p.y < r.y {
            r.y
        } else if p.y > r.y + r.h {
            r.y + r.h
        } else {
            p.y
        },
    }
}

impl Rect {
    pub fn new(x: i64, y: i64, w: i64, h: i64) -> (r: Rect)
        requires
            w >= 0,
            h >= 0,
        ensures
            r@ == (RectM { x: x as int, y: y as int, w: w as int, h: h as int }),
    {
        Rect { x, y, w, h }
    }

    /// Minimum x edge.
    pub fn left(&self) -> (r: i64)
        ensures
            r == self@.x,
    {
        self.x
    }

    /// Maximum x edge.
    pub fn right(&self) -> (r: i64)
        requires
            self@.w >= 0,
            self@.x + self@.w <= i64::MAX,
        ensures
            r == self@.x + self@.w,
    {
        self.x + self.w
    }

    /// Minimum y edge.
    pub fn bot(&self) -> (r: i64)
        ensures
            r == self@.y,
    {
        self.y
    }

    /// Maximum y edge.
    pub fn top(&self) -> (r: i64)
        requires
            self@.h >= 0,
            self@.y + self@.h <= i64::MAX,
        ensures
            r == self@.y + self@.h,
    {
        self.y + self.h
    }

    /// Whether `p` lies in the rectangle, edges included.
    pub fn contains(&self, p: Vec2) -> (r: bool)
        requires
            self@.w >= 0,
            self@.h >= 0,
            self@.x + self@.w <= i64::MAX,
            self@.y + self@.h <= i64::MAX,
        ensures
            r == (self@.x <= p@.x <= self@.x + self@.w && self@.y <= p@.y <= self@.y + self@.h),
    {
        self.x <= p.x && p.x <= self.x + self.w && self.y <= p.y && p.y <= self.y + self.h
    }

    /// The rectangle grown by `margin` on every side.
    pub fn dilate(&self, margin: i64) -> (r: Rect)
        requires
            i64::MIN <= self@.x - margin <= i64::MAX,
            i64::MIN <= self@.y - margin <= i64::MAX,
            i64::MIN <= 2 * margin <= i64::MAX,
            0 <= self@.w + 2 * margin <= i64::MAX,
            0 <= self@.h + 2 * margin <= i64::MAX,
        ensures
            r@ == (RectM {
                x: self@.x - margin,
                y: self@.y - margin,
                w: self@.w + 2 * margin,
                h: self@.h + 2 * margin,
            }),
    {
        Rect {
            x: self.x - margin,
            y: self.y - margin,
            w: self.w + 2 * margin,
            h: self.h + 2 * margin,
        }
    }

    /// The point of the rectangle nearest to `p` (componentwise clamp); a
    /// point already inside is returned unchanged.
    pub fn snap(&self, p: Vec2) -> (r: Vec2)
        requires
            self@.w >= 0,
            self@.h >= 0,
            self@.x + self@.w <= i64::MAX,
            self@.y + self@.h <= i64::MAX,
        ensures
            r@ == snap_of(p@, self@),
    {
        let sx = if p.x < self.x {
            self.x
        } else if p.x > self.x + self.w {
            self.x + self.w
        } else {
            p.x
        };
        let sy = if p.y < self.y {
            self.y
        } else if p.y > self.y + self.h {
            self.y + self.h
        } else {
            p.y
        };
        Vec2 { x: sx, y: sy }
    }
}

/// The floor of the square root exists for every nonnegative integer: its
/// defining bracketing property holds of `sqrt_floor(n)`.
pub proof fn lemma_sqrt_floor_exists(n: int)
    requires
        n >= 0,
    ensures
        sqrt_floor(n) >= 0,
        sq(sqrt_floor(n)) <= n < sq(sqrt_floor(n) + 1),
    decreases n,
{
    if n == 0 {
        assert(sq(0) <= 0 < sq(1));
        lemma_sqrt_floor_unique(0, 0);
    } else {
        lemma_sqrt_floor_exists(n - 1);
        let r = sqrt_floor(n - 1);
        if n < sq(r + 1) {
            lemma_sqrt_floor_unique(n, r);
        } else {
            assert(n == sq(r + 1));
            lemma_sq_lt(r + 1, r + 2);
            lemma_sqrt_floor_unique(n, r + 1);
        }
    }
}

/// The signed distance from a point to a rectangle's boundary, rounded
/// toward minus infinity: negative inside, the floor of the Euclidean
/// distance outside.
pub open spec fn sd_rect_of(p: PtM, r: RectM) -> int {
    let hw = r.w / 2;
    let hh = r.h / 2;
    let qx = p.x - r.x - hw;
    let qy = p.y - r.y - hh;
    let dx = iabs(qx) - hw;
    let dy = iabs(qy) - hh;
    if dx <= 0 && dy <= 0 {
        imax(dx, dy)
    } else {
        sqrt_floor(sq(imax(dx, 0)) + sq(imax(dy, 0)))
    }
}

/// Signed distance of a point to a rectangle, as [`sd_rect_of`] defines
/// it.  Comparing the result against a positive radius is exact: the
/// flooring cannot move a distance across an integer radius.
pub fn sd_rect(p: Vec2, r: &Rect) -> (d: i64)
    requires
        iabs(p@.x) <= GEOM_BOUND,
        iabs(p@.y) <= GEOM_BOUND,
        iabs(r@.x) <= GEOM_BOUND,
        iabs(r@.y) <= GEOM_BOUND,
        0 <= r@.w <= GEOM_BOUND,
        0 <= r@.h <= GEOM_BOUND,
    ensures
        d == sd_rect_of(p@, r@),
{
    let hw: i64 = r.w / 2;
    let hh: i64 = r.h / 2;
    let qx: i128 = (p.x as i128) - (r.x as i128) - (hw as i128);
    let qy: i128 = (p.y as i128) - (r.y as i128) - (hh as i128);
    let ax0: i128 = if qx >= 0 {
        qx
    } else {
        -qx
    };
    let ay0: i128 = if qy >= 0 {
        qy
    } else {
        -qy
    };
    let dx: i128 = ax0 - (hw as i128);
    let dy: i128 = ay0 - (hh as i128);
    if dx <= 0 && dy <= 0 {
        if dx >= dy {
            dx as i64
        } else {
            dy as i64
        }
    } else {
        let ax: i128 = if dx > 0 {
            dx
        } else {
            0
        };
        let ay: i128 = if dy > 0 {
            dy
        } else {
            0
        };
        proof {
            assert(0 <= ax * ax + ay * ay
                && ax * ax <= 0x1000_0000_0000_0000_0000_0000_0000_0000
                && ay * ay <= 0x1000_0000_0000_0000_0000_0000_0000_0000) by (nonlinear_arith)
                requires
                    0 <= ax <= 0x4000_0000_0000_0000,
                    0 <= ay <= 0x4000_0000_0000_0000,
            ;
        }
        let s: u128 = (ax * ax + ay * ay) as u128;
        let root = isqrt(s);
        proof {
            if root as int > 0x7fff_ffff_ffff_ffff {
                lemma_sq_le(0x8000_0000_0000_0000, root as int);
                assert(sq(0x8000_0000_0000_0000) == 0x4000_0000_0000_0000_0000_0000_0000_0000)
                    by (nonlinear_arith);
            }
        }
        root as i64
    }
}

/// Clamping one coordinate into an interval lands at least as close to the
/// original value as any point of the interval.
proof fn lemma_clamp_nearest(v: int, lo: int, hi: int, q: int)
    requires
        lo <= hi,
        lo <= q <= hi,
    ensures
        ({
            let c = if v < lo {
                lo
            } else if v > hi {
                hi
            } else {
                v
            };
            sq(v - c) <= sq(v - q)
        }),
{
    if v < lo {
        lemma_sq_abs(v - lo);
        lemma_sq_abs(v - q);
        lemma_sq_le(lo - v, q - v);
        assert(iabs(v - lo) == lo - v);
        assert(iabs(v - q) == q - v);
        assert(sq(v - lo) <= sq(v - q));
    } else if v > hi {
        lemma_sq_abs(v - hi);
        lemma_sq_abs(v - q);
        lemma_sq_le(v - hi, v - q);
        assert(sq(v - hi) <= sq(v - q));
    } else {
        lemma_sq_nonneg(v - q);
        assert(sq(v - v) == 0);
    }
}

/// The snap is the nearest point of the rectangle: no point of the
/// rectangle is closer to `p` than `snap_of(p, r)`.
pub proof fn lemma_snap_nearest(p: PtM, r: RectM, q: PtM)
    requires
        r.w >= 0,
        r.h >= 0,
        r.x <= q.x <= r.x + r.w,
        r.y <= q.y <= r.y + r.h,
    ensures
        dist2(p, snap_of(p, r)) <= dist2(p, q),
{
    lemma_clamp_nearest(p.x, r.x, r.x + r.w, q.x);
    lemma_clamp_nearest(p.y, r.y, r.y + r.h, q.y);
}

} // verus!
