//! Soft-body separation of two overlapping circles, the collision
//! primitive of the enemy-arena variant: an overlap of penetration `p` is
//! resolved by moving each body `p/2` along the axis separating the two
//! centres, in opposite directions, so that the post-resolution overlap
//! vanishes up to integer rounding.

use vstd::prelude::*;
use vstd::arithmetic::div_mod::lemma_div_by_multiple;
use vstd::arithmetic::div_mod::lemma_div_is_ordered;
use vstd::arithmetic::div_mod::lemma_div_pos_is_pos;
use crate::consts::SCALE;
use crate::geom::{
    Vec2, PtM, iabs, sq, dist2, sqrt_floor, div_trunc, lemma_sqrt_floor_exists, lemma_sq_abs,
    lemma_sq_le, lemma_sq_nonneg,
};

verus! {

/// The displacement applied to the first body of an overlapping pair (the
/// second moves by the exact opposite): half the penetration, taken along
/// the centre axis, with the multiplication done before the division so
/// only one rounding step occurs.  Without overlap, or with coincident
/// centres (no axis to separate along), nothing moves.
pub open spec fn push_apart_delta(a: PtM, b: PtM, ra: int, rb: int) -> PtM {
    let d = sqrt_floor(dist2(a, b));
    let pen = ra + rb - d;
    if d <= 0 || pen <= 0 {
        PtM { x: 0, y: 0 }
    } else {
        PtM {
            x: div_trunc((a.x - b.x) * (pen / 2), d),
            y: div_trunc((a.y - b.y) * (pen / 2), d),
        }
    }
}

/// The penetration depth of two circles: the sum of the radii minus the
/// (floored) centre distance; positive means overlapping.
pub fn penetration(a: Vec2, ra: i64, b: Vec2, rb: i64) -> (p: i64)
    requires
        iabs(a@.x) <= 16 * SCALE,
        iabs(a@.y) <= 16 * SCALE,
        iabs(b@.x) <= 16 * SCALE,
        iabs(b@.y) <= 16 * SCALE,
        0 <= ra <= SCALE,
        0 <= rb <= SCALE,
    ensures
        p == ra + rb - sqrt_floor(dist2(a@, b@)),
{
    let d = a.dist(b);
    ra + rb - d
}

/// `v * num / den` rounded toward zero, for a dividend no larger than the
/// divisor, so the result is no larger than `num`.
fn mul_div_trunc(v: i64, num: i64, den: i64) -> (r: i64)
    requires
        den > 0,
        0 <= num,
        iabs(v as int) <= den,
    ensures
        r == div_trunc(v * num, den as int),
        iabs(r as int) <= num,
{
    let av: u128 = if v >= 0 {
        v as u128
    } else {
        (-(v as i128)) as u128
    };
    proof {
        assert(av * num <= den * num) by (nonlinear_arith)
            requires
                0 <= av <= den,
                0 <= num,
        ;
        assert(den * num < 0x4000_0000_0000_0000_0000_0000_0000_0000) by (nonlinear_arith)
            requires
                0 < den < 0x8000_0000_0000_0000,
                0 <= num < 0x8000_0000_0000_0000,
        ;
        lemma_div_pos_is_pos(av * num, den as int);
        lemma_div_is_ordered(av * num, den * num, den as int);
        lemma_div_by_multiple(num as int, den as int);
        if v < 0 {
            assert((av as int) * (num as int) == -((v as int) * (num as int)))
                by (nonlinear_arith)
                requires
                    av as int == -(v as int),
            ;
        }
        assert(v >= 0 ==> (v as int) * (num as int) >= 0) by (nonlinear_arith)
            requires
                0 <= num,
        ;
    }
    let q: u128 = av * (num as u128) / (den as u128);
    if v >= 0 {
        q as i64
    } else {
        -(q as i64)
    }
}

/// Resolves an enemy-vs-enemy overlap: each body moves half the
/// penetration along the separating axis, in exactly opposite directions;
/// a pair that does not overlap (or whose centres coincide) is returned
/// unchanged.
pub fn resolve_enemy_overlap(a: Vec2, ra: i64, b: Vec2, rb: i64) -> (r: (Vec2, Vec2))
    requires
        iabs(a@.x) <= 16 * SCALE,
        iabs(a@.y) <= 16 * SCALE,
        iabs(b@.x) <= 16 * SCALE,
        iabs(b@.y) <= 16 * SCALE,
        0 < ra <= SCALE,
        0 < rb <= SCALE,
    ensures
        ({
            let delta = push_apart_delta(a@, b@, ra as int, rb as int);
            &&& r.0@ == (PtM { x: a@.x + delta.x, y: a@.y + delta.y })
            &&& r.1@ == (PtM { x: b@.x - delta.x, y: b@.y - delta.y })
        }),
        sqrt_floor(dist2(a@, b@)) >= ra + rb ==> r == (a, b),
{
    let d = a.dist(b);
    if d == 0 || ra + rb - d <= 0 {
        return (a, b);
    }
    let pen = ra + rb - d;
    let half = pen / 2;
    proof {
        lemma_sq_abs(a@.x - b@.x);
        lemma_sq_abs(a@.y - b@.y);
        lemma_sq_nonneg(a@.x - b@.x);
        lemma_sq_nonneg(a@.y - b@.y);
        if iabs(a@.x - b@.x) > d {
            lemma_sq_le(d + 1, iabs(a@.x - b@.x));
        }
        if iabs(a@.y - b@.y) > d {
            lemma_sq_le(d + 1, iabs(a@.y - b@.y));
        }
    }
    let dx = a.x - b.x;
    let dy = a.y - b.y;
    let mx = mul_div_trunc(dx, half, d);
    let my = mul_div_trunc(dy, half, d);
    (Vec2 { x: a.x + mx, y: a.y + my }, Vec2 { x: b.x - mx, y: b.y - my })
}

/// Collision symmetry: the two bodies of an overlapping pair move by
/// exactly opposite displacements (that is definitional in
/// [`push_apart_delta`]), and each component of the displacement is at
/// most half the penetration, so neither body moves farther than its share
/// of the overlap.
pub proof fn lemma_push_apart_symmetric(a: PtM, b: PtM, ra: int, rb: int)
    requires
        ra > 0,
        rb > 0,
    ensures
        ({
            let d = sqrt_floor(dist2(a, b));
            let pen = ra + rb - d;
            let delta = push_apart_delta(a, b, ra, rb);
            &&& (d <= 0 || pen <= 0 ==> delta == (PtM { x: 0, y: 0 }))
            &&& (d > 0 && pen > 0 ==> iabs(delta.x) <= pen / 2 && iabs(delta.y) <= pen / 2)
        }),
{
    let d = sqrt_floor(dist2(a, b));
    let pen = ra + rb - d;
    if d > 0 && pen > 0 {
        lemma_sq_nonneg(a.x - b.x);
        lemma_sq_nonneg(a.y - b.y);
        lemma_sqrt_floor_exists(dist2(a, b));
        lemma_sq_abs(a.x - b.x);
        lemma_sq_abs(a.y - b.y);
        if iabs(a.x - b.x) > d {
            lemma_sq_le(d + 1, iabs(a.x - b.x));
        }
        if iabs(a.y - b.y) > d {
            lemma_sq_le(d + 1, iabs(a.y - b.y));
        }
        lemma_component_share(a.x - b.x, pen / 2, d);
        lemma_component_share(a.y - b.y, pen / 2, d);
    }
}

/// A component scaled by `h/d` with `|c| <= d` stays within `h`.
proof fn lemma_component_share(c: int, h: int, d: int)
    requires
        d > 0,
        h >= 0,
        iabs(c) <= d,
    ensures
        iabs(div_trunc(c * h, d)) <= h,
{
    assert(-(h * d) <= c * h <= h * d) by (nonlinear_arith)
        requires
            d > 0,
            h >= 0,
            -d <= c <= d,
    ;
    crate::geom::lemma_div_trunc_bounded(c * h, d, h);
}

} // verus!
