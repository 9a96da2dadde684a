//! The mathematical model of the simulation.
//!
//! [`Model`] mirrors the executable [`crate::world::World`] with unbounded
//! integers and sequences, and the spec functions here define one tick as a
//! pure function of the previous state and the tick input.  The executable
//! code is proved to compute exactly these functions, which makes replay
//! determinism a property of the definitions rather than of the code.
//!
//! The tick pipeline follows the order: score accrual, physics integration,
//! spawning, death detection (boundary, then walls), wall culling, pickup
//! collection and culling.  A lethal collision marks the state dead but the
//! tick still runs to completion; the dead flag gates the *next* tick.

use vstd::prelude::*;
use crate::consts::{
    SCALE, LETHAL_R, GRAVITY, HALF_GRAVITY, PLAYER_SPEED, PICKUP_VALUE, SCORE_RATE, PICKUP_RADIUS,
    GAP_H, WALL_W, WALL_SEPARATION, SPAWN_AHEAD, PICKUP_MID_OFFSET, PICKUP_INSET, WALL_OVERSHOOT,
    CULL_BEHIND, PICKUP_CHANCE, COIN_HALF, DT_MAX, T_MAX, POS_Y_LIMIT, PLAYER_START_Y,
    SCORE_POTENTIAL_RATE, PLAYER_R_BASE,
};
use crate::geom::{PtM, RectM, iabs, imax, sq, dist2};
use crate::rng::{khash_spec, uniform_of};

verus! {

/// Mathematical state of one world: the executable state with unbounded
/// integer scalars and sequences in place of vectors.
pub ghost struct Model {
    /// Player centre.
    pub pos_x: int,
    pub pos_y: int,
    /// Player velocity, in subunits per millisecond.
    pub vel_x: int,
    pub vel_y: int,
    /// Direction gravity currently pulls: `1` or `-1`.
    pub grav_dir: int,
    /// Simulation clock, in milliseconds.
    pub t: int,
    /// Clock value of the latest gravity flip.
    pub t_press: int,
    /// Score, in milli-points.
    pub score: int,
    /// Player x position at the latest spawn event.
    pub x_last_wall: int,
    /// Seed cursor of the procedural generator.
    pub seed: u32,
    /// Walls, spawned in pairs; culling may reorder survivors.
    pub walls: Seq<RectM>,
    /// Pickup centres.
    pub pickups: Seq<PtM>,
    pub paused: bool,
    pub dead: bool,
    /// A gravity-flip input waiting to be consumed by the next tick.
    pub press: bool,
}

/// Removal by swapping the last element into the hole, as `Vec::swap_remove`
/// does it.
pub open spec fn swap_remove_m<T>(s: Seq<T>, i: int) -> Seq<T> {
    s.update(i, s.last()).drop_last()
}

/// Whether a circle of radius [`LETHAL_R`] at `p` touches the rectangle:
/// true inside the rectangle, and outside exactly when the squared distance
/// to the rectangle's boundary is below the squared radius.
pub open spec fn lethal_hit(p: PtM, r: RectM) -> bool {
    let hw = r.w / 2;
    let hh = r.h / 2;
    let qx = p.x - r.x - hw;
    let qy = p.y - r.y - hh;
    let dx = iabs(qx) - hw;
    let dy = iabs(qy) - hh;
    (dx <= 0 && dy <= 0) || sq(imax(dx, 0)) + sq(imax(dy, 0)) < sq(LETHAL_R as int)
}

/// Whether any wall of the sequence lethally touches the player at `p`.
pub open spec fn hit_any(walls: Seq<RectM>, p: PtM) -> bool {
    exists|i: int| 0 <= i < walls.len() && lethal_hit(p, #[trigger] walls[i])
}

/// Whether the player at `p` collects a pickup at `q`: centre distance
/// below the sum of the two radii.
pub open spec fn collected(p: PtM, q: PtM) -> bool {
    dist2(p, q) < sq((PLAYER_R_BASE + PICKUP_RADIUS) as int)
}

/// The pair of walls of one spawn event at horizontal position `x`, leaving
/// the vertical gap `[gap_top, gap_top + GAP_H]`: a lower wall reaching from
/// far below the visible range up to `gap_top`, and an upper wall reaching
/// from the gap's other edge to far above.
pub open spec fn wall_pair(x: int, gap_top: int) -> (RectM, RectM) {
    (
        RectM {
            x,
            y: -SCALE - WALL_OVERSHOOT,
            w: WALL_W as int,
            h: gap_top - (-SCALE - WALL_OVERSHOOT),
        },
        RectM {
            x,
            y: gap_top + GAP_H,
            w: WALL_W as int,
            h: (SCALE + WALL_OVERSHOOT) - (gap_top + GAP_H),
        },
    )
}

/// Whether the travel cursor has moved far enough past the last spawn for
/// the next spawn event to fire.
pub open spec fn spawn_due(m: Model) -> bool {
    m.pos_x - m.x_last_wall > WALL_SEPARATION
}

/// One spawn event.  The seed stream advances once for the gap draw; the
/// pickup decision is peeked, so it consumes nothing unless it succeeds, in
/// which case the peeked value is consumed and one further draw flips the
/// coin that places the pickup near the top or the bottom of the gap.
/// The pickup, when placed, sits at the horizontal midpoint between this
/// spawn and the next.
pub open spec fn spawn_event(m: Model) -> Model {
    let wall_x = m.pos_x + SPAWN_AHEAD;
    let s1 = khash_spec(m.seed);
    let gap_top = uniform_of(s1, -SCALE as int, (SCALE - GAP_H) as int);
    let pair = wall_pair(wall_x, gap_top);
    let walls = m.walls.push(pair.0).push(pair.1);
    let peeked = khash_spec(s1);
    if peeked < PICKUP_CHANCE {
        let coin = khash_spec(peeked);
        let py = if coin < COIN_HALF {
            gap_top + PICKUP_INSET
        } else {
            gap_top + GAP_H - PICKUP_INSET
        };
        Model {
            x_last_wall: m.pos_x,
            seed: coin,
            walls,
            pickups: m.pickups.push(PtM { x: wall_x + PICKUP_MID_OFFSET, y: py }),
            ..m
        }
    } else {
        Model { x_last_wall: m.pos_x, seed: s1, walls, ..m }
    }
}

/// The spawner: fires one spawn event when due, else changes nothing.
pub open spec fn spawn_m(m: Model) -> Model {
    if spawn_due(m) {
        spawn_event(m)
    } else {
        m
    }
}

/// Physics integration over one tick: velocity gains one tick of gravity,
/// and position advances by the exact integral of the motion,
/// `v*dt + a*dt^2/2`, so that positions are independent of how a stretch of
/// time is split into ticks.
pub open spec fn physics_m(m: Model, dt: int) -> Model {
    Model {
        vel_y: m.vel_y + GRAVITY * m.grav_dir * dt,
        pos_x: m.pos_x + m.vel_x * dt,
        pos_y: m.pos_y + m.vel_y * dt + HALF_GRAVITY * m.grav_dir * dt * dt,
        ..m
    }
}

/// Death detection: leaving the visible vertical extent or touching any
/// wall is lethal.
pub open spec fn death_m(m: Model) -> Model {
    Model {
        dead: m.dead || m.pos_y < -SCALE || m.pos_y > SCALE || hit_any(
            m.walls,
            PtM { x: m.pos_x, y: m.pos_y },
        ),
        ..m
    }
}

/// Wall culling as the executable loop performs it: indices walked from the
/// top down, each wall whose leading edge has fallen behind `cutoff`
/// swap-removed.  `i` counts the indices still to process.
pub open spec fn cull_step(s: Seq<RectM>, i: int, cutoff: int) -> Seq<RectM>
    decreases i,
{
    if i <= 0 {
        s
    } else {
        let j = i - 1;
        if s[j].x < cutoff {
            cull_step(swap_remove_m(s, j), j, cutoff)
        } else {
            cull_step(s, j, cutoff)
        }
    }
}

/// The pickup pass as the executable loop performs it: indices walked from
/// the top down; a pickup in reach of the player is collected (removed, its
/// bonus scored), else one behind `cutoff` is culled.  Returns the
/// surviving pickups and the new score.
pub open spec fn pickup_step(s: Seq<PtM>, score: int, i: int, p: PtM, cutoff: int) -> (
    Seq<PtM>,
    int,
)
    decreases i,
{
    if i <= 0 {
        (s, score)
    } else {
        let j = i - 1;
        if collected(p, s[j]) {
            pickup_step(swap_remove_m(s, j), score + PICKUP_VALUE, j, p, cutoff)
        } else if s[j].x < cutoff {
            pickup_step(swap_remove_m(s, j), score, j, p, cutoff)
        } else {
            pickup_step(s, score, j, p, cutoff)
        }
    }
}

/// One simulation update over a clamped, nonnegative time delta, for a
/// state that is neither paused nor dead: score accrual, physics, spawning,
/// death detection, wall culling, pickup pass.
pub open spec fn update_m(m: Model, dt: int) -> Model {
    let m1 = Model { score: m.score + SCORE_RATE * dt, ..m };
    let m2 = physics_m(m1, dt);
    let m3 = spawn_m(m2);
    let m4 = death_m(m3);
    let m5 = Model {
        walls: cull_step(m4.walls, m4.walls.len() as int, m4.pos_x - CULL_BEHIND),
        ..m4
    };
    let pp = pickup_step(
        m5.pickups,
        m5.score,
        m5.pickups.len() as int,
        PtM { x: m5.pos_x, y: m5.pos_y },
        m5.pos_x - CULL_BEHIND,
    );
    Model { pickups: pp.0, score: pp.1, ..m5 }
}

/// One frame: the time delta is clamped, the clock always advances, a
/// pending gravity-flip input is consumed (this is edge-triggered: the flag
/// fires once and is cleared), and the world is updated only while neither
/// paused nor dead.
pub open spec fn frame_m(m: Model, dt: int) -> Model {
    let d = if dt > DT_MAX {
        DT_MAX as int
    } else {
        dt
    };
    let ma = Model { t: m.t + d, ..m };
    let mb = if ma.press {
        Model { press: false, t_press: ma.t, grav_dir: -ma.grav_dir, ..ma }
    } else {
        ma
    };
    if !mb.paused && !mb.dead {
        update_m(mb, d)
    } else {
        mb
    }
}

/// The freshly constructed world for a seed: every field at its default,
/// independent of any previous state.
pub open spec fn reset_m(seed: u32) -> Model {
    Model {
        pos_x: 0,
        pos_y: PLAYER_START_Y as int,
        vel_x: PLAYER_SPEED as int,
        vel_y: 0,
        grav_dir: 1,
        t: 0,
        t_press: 0,
        score: 0,
        x_last_wall: 0,
        seed,
        walls: Seq::<RectM>::empty(),
        pickups: Seq::<PtM>::empty(),
        paused: false,
        dead: false,
        press: false,
    }
}

/// Bounds of one wall relative to the player position: spawned ahead by at
/// most [`SPAWN_AHEAD`], culled once behind by [`CULL_BEHIND`], always of
/// thickness [`WALL_W`], and vertically inside the overshot visible range.
pub open spec fn wall_wf(r: RectM, px: int) -> bool {
    &&& r.w == WALL_W
    &&& r.h >= 0
    &&& px - CULL_BEHIND <= r.x <= px + SPAWN_AHEAD
    &&& -(SCALE + WALL_OVERSHOOT) <= r.y
    &&& r.y + r.h <= SCALE + WALL_OVERSHOOT
}

/// Bounds of one pickup relative to the player position.
pub open spec fn pickup_wf(p: PtM, px: int) -> bool {
    &&& px - CULL_BEHIND <= p.x <= px + SPAWN_AHEAD + PICKUP_MID_OFFSET
    &&& -SCALE <= p.y <= SCALE
}

/// The potential that bounds the score: the score itself, the bonuses the
/// live pickups could still pay, and the travel credit since the last
/// spawn.  Spawning converts travel credit into at most one pickup bonus,
/// and collection converts a pickup bonus into score, so the potential
/// only grows with time and travel.
pub open spec fn score_potential(m: Model) -> int {
    m.score + PICKUP_VALUE * m.pickups.len() + 5 * (m.pos_x - m.x_last_wall)
}

/// The t-dependent headroom bounds, stated against an explicit clock
/// `budget` so that a caller can account for a clock that has already
/// advanced past the state it hands in.
pub open spec fn wf_core(m: Model, budget: int) -> bool {
    &&& m.vel_x == PLAYER_SPEED
    &&& m.grav_dir == 1 || m.grav_dir == -1
    &&& iabs(m.vel_y) <= GRAVITY * budget
    &&& 0 <= m.pos_x <= PLAYER_SPEED * budget
    &&& iabs(m.pos_y) <= POS_Y_LIMIT
    &&& (!m.dead ==> iabs(m.pos_y) <= SCALE)
    &&& 0 <= m.x_last_wall <= m.pos_x
    &&& 0 <= m.score
    &&& score_potential(m) <= SCORE_POTENTIAL_RATE * budget + PICKUP_VALUE
    &&& m.walls.len() % 2 == 0
    &&& paired(m.walls)
    &&& (forall|i: int| 0 <= i < m.walls.len() ==> wall_wf(#[trigger] m.walls[i], m.pos_x))
    &&& (forall|i: int| 0 <= i < m.pickups.len() ==> pickup_wf(#[trigger] m.pickups[i], m.pos_x))
}

/// Well-formedness of a world state: the structural invariants, and the
/// headroom bounds at the state's own clock.
pub open spec fn wf(m: Model) -> bool {
    &&& 0 <= m.t <= T_MAX
    &&& 0 <= m.t_press <= m.t
    &&& wf_core(m, m.t)
}

/// Every element of a culled sequence was an element-shaped value of the
/// input: any property that held of all input walls holds of all survivors,
/// and culling never grows the sequence.
pub proof fn lemma_cull_elems(s: Seq<RectM>, i: int, cutoff: int, pred: spec_fn(RectM) -> bool)
    requires
        0 <= i <= s.len(),
        forall|j: int| 0 <= j < s.len() ==> pred(#[trigger] s[j]),
    ensures
        cull_step(s, i, cutoff).len() <= s.len(),
        forall|k: int| 0 <= k < cull_step(s, i, cutoff).len() ==> pred(
            #[trigger] cull_step(s, i, cutoff)[k],
        ),
    decreases i,
{
    if i > 0 {
        let j = i - 1;
        if s[j].x < cutoff {
            let s2 = swap_remove_m(s, j);
            assert forall|k: int| 0 <= k < s2.len() implies pred(#[trigger] s2[k]) by {
                if k == j {
                    assert(s2[k] == s[s.len() - 1]);
                } else {
                    assert(s2[k] == s[k]);
                }
            }
            lemma_cull_elems(s2, j, cutoff, pred);
        } else {
            lemma_cull_elems(s, j, cutoff, pred);
        }
    }
}

/// Cull completeness: once the indices still to process all hold walls at
/// or past the cutoff, every surviving wall is at or past the cutoff.
pub proof fn lemma_cull_complete(s: Seq<RectM>, i: int, cutoff: int)
    requires
        0 <= i <= s.len(),
        forall|j: int| i <= j < s.len() ==> (#[trigger] s[j]).x >= cutoff,
    ensures
        forall|k: int| 0 <= k < cull_step(s, i, cutoff).len() ==> (#[trigger] cull_step(
            s,
            i,
            cutoff,
        )[k]).x >= cutoff,
    decreases i,
{
    if i > 0 {
        let j = i - 1;
        if s[j].x < cutoff {
            let s2 = swap_remove_m(s, j);
            assert forall|k: int| j <= k < s2.len() implies (#[trigger] s2[k]).x >= cutoff by {
                if k == j {
                    assert(s2[k] == s[s.len() - 1]);
                } else {
                    assert(s2[k] == s[k]);
                }
            }
            lemma_cull_complete(s2, j, cutoff);
            assert(cull_step(s, i, cutoff) == cull_step(s2, j, cutoff));
        } else {
            lemma_cull_complete(s, j, cutoff);
            assert(cull_step(s, i, cutoff) == cull_step(s, j, cutoff));
        }
    } else {
        assert(cull_step(s, i, cutoff) == s);
    }
}

/// The pickup pass only removes pickups and only adds score: any property
/// of all input pickups holds of all survivors, the score never drops, and
/// score plus the bonuses still outstanding never grows.
pub proof fn lemma_pickup_elems(
    s: Seq<PtM>,
    score: int,
    i: int,
    p: PtM,
    cutoff: int,
    pred: spec_fn(PtM) -> bool,
)
    requires
        0 <= i <= s.len(),
        forall|j: int| 0 <= j < s.len() ==> pred(#[trigger] s[j]),
    ensures
        pickup_step(s, score, i, p, cutoff).0.len() <= s.len(),
        forall|k: int| 0 <= k < pickup_step(s, score, i, p, cutoff).0.len() ==> pred(
            #[trigger] pickup_step(s, score, i, p, cutoff).0[k],
        ),
        pickup_step(s, score, i, p, cutoff).1 >= score,
        pickup_step(s, score, i, p, cutoff).1 + PICKUP_VALUE * pickup_step(
            s,
            score,
            i,
            p,
            cutoff,
        ).0.len() <= score + PICKUP_VALUE * s.len(),
    decreases i,
{
    if i > 0 {
        let j = i - 1;
        if collected(p, s[j]) || s[j].x < cutoff {
            let s2 = swap_remove_m(s, j);
            assert forall|k: int| 0 <= k < s2.len() implies pred(#[trigger] s2[k]) by {
                if k == j {
                    assert(s2[k] == s[s.len() - 1]);
                } else {
                    assert(s2[k] == s[k]);
                }
            }
            if collected(p, s[j]) {
                lemma_pickup_elems(s2, score + PICKUP_VALUE, j, p, cutoff, pred);
            } else {
                lemma_pickup_elems(s2, score, j, p, cutoff, pred);
            }
        } else {
            lemma_pickup_elems(s, score, j, p, cutoff, pred);
        }
    }
}

/// Pickup-pass completeness: every surviving pickup is at or past the
/// cutoff.
pub proof fn lemma_pickup_complete(s: Seq<PtM>, score: int, i: int, p: PtM, cutoff: int)
    requires
        0 <= i <= s.len(),
        forall|j: int| i <= j < s.len() ==> (#[trigger] s[j]).x >= cutoff,
    ensures
        forall|k: int| 0 <= k < pickup_step(s, score, i, p, cutoff).0.len() ==> (
        #[trigger] pickup_step(s, score, i, p, cutoff).0[k]).x >= cutoff,
    decreases i,
{
    if i > 0 {
        let j = i - 1;
        if collected(p, s[j]) || s[j].x < cutoff {
            let s2 = swap_remove_m(s, j);
            assert forall|k: int| j <= k < s2.len() implies (#[trigger] s2[k]).x >= cutoff by {
                if k == j {
                    assert(s2[k] == s[s.len() - 1]);
                } else {
                    assert(s2[k] == s[k]);
                }
            }
            if collected(p, s[j]) {
                lemma_pickup_complete(s2, score + PICKUP_VALUE, j, p, cutoff);
                assert(pickup_step(s, score, i, p, cutoff) == pickup_step(
                    s2,
                    score + PICKUP_VALUE,
                    j,
                    p,
                    cutoff,
                ));
            } else {
                lemma_pickup_complete(s2, score, j, p, cutoff);
                assert(pickup_step(s, score, i, p, cutoff) == pickup_step(s2, score, j, p, cutoff));
            }
        } else {
            lemma_pickup_complete(s, score, j, p, cutoff);
            assert(pickup_step(s, score, i, p, cutoff) == pickup_step(s, score, j, p, cutoff));
        }
    } else {
        assert(pickup_step(s, score, i, p, cutoff) == (s, score));
    }
}

/// The headroom bounds weaken as the clock budget grows.
pub proof fn lemma_wf_core_mono(m: Model, b1: int, b2: int)
    requires
        wf_core(m, b1),
        b1 <= b2,
    ensures
        wf_core(m, b2),
{
}

/// A freshly reset world is well formed.
pub proof fn lemma_reset_wf(seed: u32)
    ensures
        wf(reset_m(seed)),
{
    let s = reset_m(seed).walls;
    assert forall|c: int| #[trigger] cnt_lt(s, s.len() as int, c) % 2 == 0 by {
        assert(cnt_lt(s, 0, c) == 0);
    }
}

/// One update preserves the invariants, with the clock budget advanced by
/// the tick's delta.
pub proof fn lemma_update_wf(m: Model, dt: int, b: int)
    requires
        wf_core(m, b),
        !m.dead,
        0 <= dt <= DT_MAX,
        0 <= b,
        b + dt <= T_MAX,
    ensures
        wf_core(update_m(m, dt), b + dt),
{
    let m1 = Model { score: m.score + SCORE_RATE * dt, ..m };
    let m2 = physics_m(m1, dt);
    let m3 = spawn_m(m2);
    let m4 = death_m(m3);
    let cutoff = m4.pos_x - CULL_BEHIND;
    let m5 = Model { walls: cull_step(m4.walls, m4.walls.len() as int, cutoff), ..m4 };
    let pp = pickup_step(
        m5.pickups,
        m5.score,
        m5.pickups.len() as int,
        PtM { x: m5.pos_x, y: m5.pos_y },
        cutoff,
    );
    let mz = Model { pickups: pp.0, score: pp.1, ..m5 };

    // Physics bounds: velocity gains one tick of gravity, position one tick
    // of travel.
    assert(-(GRAVITY * dt) <= GRAVITY * m1.grav_dir * dt <= GRAVITY * dt) by (nonlinear_arith)
        requires
            m1.grav_dir == 1 || m1.grav_dir == -1,
            0 <= dt,
    ;
    assert(iabs(m2.vel_y) <= GRAVITY * (b + dt));
    assert(-311385128960 <= m1.vel_y <= 311385128960) by {
        assert(GRAVITY * b <= GRAVITY * T_MAX);
    }
    assert(-311385128960000 <= m1.vel_y * dt <= 311385128960000) by (nonlinear_arith)
        requires
            -311385128960 <= m1.vel_y <= 311385128960,
            0 <= dt <= 1000,
    ;
    assert(-145000000 <= HALF_GRAVITY * m1.grav_dir * dt * dt <= 145000000) by (nonlinear_arith)
        requires
            m1.grav_dir == 1 || m1.grav_dir == -1,
            0 <= dt <= 1000,
    ;
    assert(m1.vel_x * dt == PLAYER_SPEED * dt) by (nonlinear_arith)
        requires
            m1.vel_x == PLAYER_SPEED,
    ;
    assert(iabs(m2.pos_y) <= POS_Y_LIMIT);
    assert(0 <= m2.pos_x <= PLAYER_SPEED * (b + dt));
    assert(score_potential(m2) <= SCORE_POTENTIAL_RATE * (b + dt) + PICKUP_VALUE);

    // Spawning: the new pair and any new pickup satisfy the per-element
    // bounds at the new player position, and the spent travel credit pays
    // for the new pickup's outstanding bonus.
    if spawn_due(m2) {
        crate::rng::lemma_uniform_of_range(
            crate::rng::khash_spec(m2.seed),
            -SCALE as int,
            (SCALE - GAP_H) as int,
        );
        assert(m3.pickups.len() <= m2.pickups.len() + 1);
        assert(score_potential(m3) <= score_potential(m2));
        let s1 = crate::rng::khash_spec(m2.seed);
        let gap_top = crate::rng::uniform_of(s1, -SCALE as int, (SCALE - GAP_H) as int);
        let pair = wall_pair(m2.pos_x + SPAWN_AHEAD, gap_top);
        lemma_push_pair_paired(m2.walls, pair.0, pair.1);
        assert(m3.walls == m2.walls.push(pair.0).push(pair.1));
    }
    assert(paired(m3.walls));
    assert(m3.walls.len() % 2 == 0);
    assert(wall_ok_upper(m3.walls, m3.pos_x)) by {
        assert forall|j: int| 0 <= j < m3.walls.len() implies wall_upper(
            #[trigger] m3.walls[j],
            m3.pos_x,
        ) by {
            if j < m2.walls.len() {
                assert(m3.walls[j] == m2.walls[j]);
            }
        }
    }
    assert(pickup_ok_upper(m3.pickups, m3.pos_x)) by {
        assert forall|j: int| 0 <= j < m3.pickups.len() implies pickup_upper(
            #[trigger] m3.pickups[j],
            m3.pos_x,
        ) by {
            if j < m2.pickups.len() {
                assert(m3.pickups[j] == m2.pickups[j]);
            }
        }
    }

    // Culling restores the lower bound and keeps the upper bounds.
    lemma_cull_elems(
        m4.walls,
        m4.walls.len() as int,
        cutoff,
        |r: RectM| wall_upper(r, m4.pos_x),
    );
    lemma_cull_complete(m4.walls, m4.walls.len() as int, cutoff);
    lemma_pickup_elems(
        m5.pickups,
        m5.score,
        m5.pickups.len() as int,
        PtM { x: m5.pos_x, y: m5.pos_y },
        cutoff,
        |q: PtM| pickup_upper(q, m5.pos_x),
    );
    lemma_pickup_complete(
        m5.pickups,
        m5.score,
        m5.pickups.len() as int,
        PtM { x: m5.pos_x, y: m5.pos_y },
        cutoff,
    );
    lemma_cull_paired(m4.walls, cutoff);
    assert forall|j: int| 0 <= j < m5.walls.len() implies (#[trigger] m5.walls[j]).x < m4.pos_x
        + SPAWN_AHEAD + 1 by {
        assert(wall_upper(m5.walls[j], m4.pos_x));
    }
    lemma_paired_len_even(m5.walls, m4.pos_x + SPAWN_AHEAD + 1);

    assert forall|j: int| 0 <= j < mz.walls.len() implies wall_wf(
        #[trigger] mz.walls[j],
        mz.pos_x,
    ) by {
        assert(wall_upper(mz.walls[j], m4.pos_x));
        assert(mz.walls[j].x >= cutoff);
    }
    assert forall|j: int| 0 <= j < mz.pickups.len() implies pickup_wf(
        #[trigger] mz.pickups[j],
        mz.pos_x,
    ) by {
        assert(pickup_upper(mz.pickups[j], m5.pos_x));
        assert(mz.pickups[j].x >= cutoff);
    }
    assert(score_potential(mz) <= score_potential(m3));
    assert(mz == update_m(m, dt));
}

/// The clauses of [`wall_wf`] that survive the player moving forward: all
/// but the cull lower bound.
pub open spec fn wall_upper(r: RectM, px: int) -> bool {
    &&& r.w == WALL_W
    &&& r.h >= 0
    &&& r.x <= px + SPAWN_AHEAD
    &&& -(SCALE + WALL_OVERSHOOT) <= r.y
    &&& r.y + r.h <= SCALE + WALL_OVERSHOOT
}

/// All walls satisfy the forward-stable clauses.
pub open spec fn wall_ok_upper(ws: Seq<RectM>, px: int) -> bool {
    forall|j: int| 0 <= j < ws.len() ==> wall_upper(#[trigger] ws[j], px)
}

/// The clauses of [`pickup_wf`] that survive the player moving forward.
pub open spec fn pickup_upper(p: PtM, px: int) -> bool {
    &&& p.x <= px + SPAWN_AHEAD + PICKUP_MID_OFFSET
    &&& -SCALE <= p.y <= SCALE
}

/// All pickups satisfy the forward-stable clauses.
pub open spec fn pickup_ok_upper(ps: Seq<PtM>, px: int) -> bool {
    forall|j: int| 0 <= j < ps.len() ==> pickup_upper(#[trigger] ps[j], px)
}

/// One frame preserves well-formedness, as long as the clamped delta keeps
/// the clock under its cap.
pub proof fn lemma_frame_wf(m: Model, dt: int)
    requires
        wf(m),
        dt >= 0,
        m.t + (if dt > DT_MAX {
            DT_MAX as int
        } else {
            dt
        }) <= T_MAX,
    ensures
        wf(frame_m(m, dt)),
{
    let d = if dt > DT_MAX {
        DT_MAX as int
    } else {
        dt
    };
    let ma = Model { t: m.t + d, ..m };
    let mb = if ma.press {
        Model { press: false, t_press: ma.t, grav_dir: -ma.grav_dir, ..ma }
    } else {
        ma
    };
    assert(wf_core(mb, m.t));
    if !mb.paused && !mb.dead {
        lemma_update_wf(mb, d, m.t);
    } else {
        lemma_wf_core_mono(mb, m.t, mb.t);
    }
}

/// The death test is the signed-distance test: a wall is lethal exactly
/// when the signed distance of the player's centre to it is below the
/// forgiving radius [`LETHAL_R`].
pub proof fn lemma_sd_rect_lethal(p: PtM, r: RectM)
    requires
        r.w >= 0,
        r.h >= 0,
    ensures
        lethal_hit(p, r) <==> (crate::geom::sd_rect_of(p, r) < LETHAL_R),
{
    let hw = r.w / 2;
    let hh = r.h / 2;
    let qx = p.x - r.x - hw;
    let qy = p.y - r.y - hh;
    let dx = iabs(qx) - hw;
    let dy = iabs(qy) - hh;
    if dx <= 0 && dy <= 0 {
    } else {
        let s = sq(imax(dx, 0)) + sq(imax(dy, 0));
        crate::geom::lemma_sq_nonneg(imax(dx, 0));
        crate::geom::lemma_sq_nonneg(imax(dy, 0));
        crate::geom::lemma_sqrt_floor_exists(s);
        crate::geom::lemma_sqrt_floor_lt(s, LETHAL_R as int);
    }
}

/// The number of walls among the first `i` whose spawn position lies left
/// of the threshold `c`.
pub open spec fn cnt_lt(s: Seq<RectM>, i: int, c: int) -> int
    decreases i,
{
    if i <= 0 {
        0
    } else {
        cnt_lt(s, i - 1, c) + if s[i - 1].x < c {
            1int
        } else {
            0int
        }
    }
}

/// Walls pair up by spawn position: below every threshold stands an even
/// number of walls.  Spawning adds two walls at one position, and culling
/// removes every wall below one threshold, so this survives both.
pub open spec fn paired(s: Seq<RectM>) -> bool {
    forall|c: int| #[trigger] cnt_lt(s, s.len() as int, c) % 2 == 0
}

/// The count reads only the first `i` elements.
proof fn lemma_cnt_lt_agree(s1: Seq<RectM>, s2: Seq<RectM>, i: int, c: int)
    requires
        0 <= i <= s1.len(),
        i <= s2.len(),
        forall|j: int| 0 <= j < i ==> s1[j] == s2[j],
    ensures
        cnt_lt(s1, i, c) == cnt_lt(s2, i, c),
    decreases i,
{
    if i > 0 {
        lemma_cnt_lt_agree(s1, s2, i - 1, c);
    }
}

/// Replacing one element shifts the count by the two indicators.
proof fn lemma_cnt_lt_update(s: Seq<RectM>, p: int, v: RectM, i: int, c: int)
    requires
        0 <= p < i <= s.len(),
    ensures
        cnt_lt(s.update(p, v), i, c) == cnt_lt(s, i, c) - (if s[p].x < c {
            1int
        } else {
            0int
        }) + (if v.x < c {
            1int
        } else {
            0int
        }),
    decreases i,
{
    if p == i - 1 {
        lemma_cnt_lt_agree(s.update(p, v), s, i - 1, c);
    } else {
        lemma_cnt_lt_update(s, p, v, i - 1, c);
    }
}

/// With every element at or past the threshold, the count vanishes.
proof fn lemma_cnt_lt_zero(s: Seq<RectM>, i: int, m: int)
    requires
        0 <= i <= s.len(),
        forall|j: int| 0 <= j < i ==> (#[trigger] s[j]).x >= m,
    ensures
        cnt_lt(s, i, m) == 0,
    decreases i,
{
    if i > 0 {
        lemma_cnt_lt_zero(s, i - 1, m);
    }
}

/// With every element below the threshold, the count is the length.
proof fn lemma_cnt_lt_all(s: Seq<RectM>, i: int, m: int)
    requires
        0 <= i <= s.len(),
        forall|j: int| 0 <= j < i ==> (#[trigger] s[j]).x < m,
    ensures
        cnt_lt(s, i, m) == i,
    decreases i,
{
    if i > 0 {
        lemma_cnt_lt_all(s, i - 1, m);
    }
}

/// Swap-removal takes exactly the removed element out of the count.
proof fn lemma_cnt_lt_swap_remove(s: Seq<RectM>, p: int, c: int)
    requires
        0 <= p < s.len(),
    ensures
        cnt_lt(swap_remove_m(s, p), s.len() - 1, c) == cnt_lt(s, s.len() as int, c) - (if s[p].x
            < c {
            1int
        } else {
            0int
        }),
{
    let u = s.update(p, s.last());
    lemma_cnt_lt_update(s, p, s.last(), s.len() as int, c);
    lemma_cnt_lt_agree(u.drop_last(), u, s.len() - 1, c);
    assert(cnt_lt(u, s.len() as int, c) == cnt_lt(u, s.len() - 1, c) + if u[s.len() - 1].x < c {
        1int
    } else {
        0int
    });
}

/// Culling subtracts from every threshold count exactly the walls below
/// both the threshold and the cull line.
proof fn lemma_cull_cnt(s: Seq<RectM>, i: int, c0: int, c: int)
    requires
        0 <= i <= s.len(),
        forall|j: int| i <= j < s.len() ==> (#[trigger] s[j]).x >= c0,
    ensures
        cnt_lt(cull_step(s, i, c0), cull_step(s, i, c0).len() as int, c) == cnt_lt(
            s,
            s.len() as int,
            c,
        ) - cnt_lt(
            s,
            s.len() as int,
            if c < c0 {
                c
            } else {
                c0
            },
        ),
    decreases i,
{
    let mc = if c < c0 {
        c
    } else {
        c0
    };
    if i <= 0 {
        assert(cull_step(s, i, c0) == s);
        lemma_cnt_lt_zero(s, s.len() as int, mc);
    } else {
        let j = i - 1;
        if s[j].x < c0 {
            let s2 = swap_remove_m(s, j);
            assert forall|k: int| j <= k < s2.len() implies (#[trigger] s2[k]).x >= c0 by {
                if k == j {
                    assert(s2[k] == s[s.len() - 1]);
                } else {
                    assert(s2[k] == s[k]);
                }
            }
            lemma_cull_cnt(s2, j, c0, c);
            assert(cull_step(s, i, c0) == cull_step(s2, j, c0));
            lemma_cnt_lt_swap_remove(s, j, c);
            lemma_cnt_lt_swap_remove(s, j, mc);
        } else {
            lemma_cull_cnt(s, j, c0, c);
            assert(cull_step(s, i, c0) == cull_step(s, j, c0));
        }
    }
}

/// Culling a paired wall set leaves a paired wall set.
pub proof fn lemma_cull_paired(s: Seq<RectM>, c0: int)
    requires
        paired(s),
    ensures
        paired(cull_step(s, s.len() as int, c0)),
{
    let r = cull_step(s, s.len() as int, c0);
    assert forall|c: int| #[trigger] cnt_lt(r, r.len() as int, c) % 2 == 0 by {
        lemma_cull_cnt(s, s.len() as int, c0, c);
        let mc = if c < c0 {
            c
        } else {
            c0
        };
        assert(cnt_lt(s, s.len() as int, c) % 2 == 0);
        assert(cnt_lt(s, s.len() as int, mc) % 2 == 0);
    }
}

/// Appending one wall pair with a common spawn position keeps the wall set
/// paired.
pub proof fn lemma_push_pair_paired(s: Seq<RectM>, a: RectM, b: RectM)
    requires
        paired(s),
        a.x == b.x,
    ensures
        paired(s.push(a).push(b)),
{
    let s2 = s.push(a).push(b);
    assert forall|c: int| #[trigger] cnt_lt(s2, s2.len() as int, c) % 2 == 0 by {
        lemma_cnt_lt_agree(s2, s, s.len() as int, c);
        assert(cnt_lt(s2, s.len() as int + 2, c) == cnt_lt(s2, s.len() as int + 1, c) + if b.x < c {
            1int
        } else {
            0int
        });
        assert(cnt_lt(s2, s.len() as int + 1, c) == cnt_lt(s2, s.len() as int, c) + if a.x < c {
            1int
        } else {
            0int
        });
        assert(cnt_lt(s, s.len() as int, c) % 2 == 0);
    }
}

/// A paired wall set whose positions are all bounded holds an even number
/// of walls.
pub proof fn lemma_paired_len_even(s: Seq<RectM>, bound: int)
    requires
        paired(s),
        forall|j: int| 0 <= j < s.len() ==> (#[trigger] s[j]).x < bound,
    ensures
        s.len() % 2 == 0,
{
    lemma_cnt_lt_all(s, s.len() as int, bound);
    assert(cnt_lt(s, s.len() as int, bound) % 2 == 0);
}

} // verus!
