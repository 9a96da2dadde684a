//! The executable world state and its tick functions.
//!
//! Every public function here is proved to compute exactly the
//! corresponding spec function of [`crate::model`]: a tick is a pure
//! function of the previous state and the tick input, so a run is
//! reproducible bit for bit from the initial seed, the input events and the
//! sequence of time deltas.
//!
//! Velocities are in subunits per millisecond, positions in subunits,
//! the clock in milliseconds, the score in milli-points (see
//! [`crate::consts`]).

use vstd::prelude::*;
use crate::consts::{
    SCALE, GRAVITY, HALF_GRAVITY, PLAYER_SPEED, PICKUP_VALUE, SCORE_RATE, GAP_H, WALL_W,
    WALL_SEPARATION, SPAWN_AHEAD, PICKUP_MID_OFFSET, PICKUP_INSET, WALL_OVERSHOOT, CULL_BEHIND,
    PICKUP_CHANCE, COIN_HALF, DT_MAX, T_MAX, POS_X_LIMIT, SCORE_LIMIT, PLAYER_START_Y, LETHAL_R,
    PLAYER_R_BASE, PICKUP_RADIUS, SCORE_POTENTIAL_RATE,
};
use crate::geom::{Vec2, Rect, PtM, RectM, iabs, sq, GEOM_BOUND};
use crate::model::{
    Model, wf, wf_core, update_m, frame_m, reset_m, physics_m, spawn_m, spawn_due, spawn_event,
    death_m, cull_step, pickup_step, swap_remove_m, lethal_hit, hit_any, collected, wall_pair,
    lemma_update_wf, lemma_frame_wf, lemma_reset_wf, score_potential, wall_wf, pickup_wf,
};
use crate::rng::{khash, khash_spec, kuniform, uniform_of, lemma_uniform_of_range};

verus! {

/// The element views of a wall vector.
pub open spec fn rect_views(s: Seq<Rect>) -> Seq<RectM> {
    s.map_values(|r: Rect| r@)
}

/// The element views of a pickup vector.
pub open spec fn pt_views(s: Seq<Vec2>) -> Seq<PtM> {
    s.map_values(|p: Vec2| p@)
}

/// Taking element views commutes with pushing.
proof fn lemma_rect_views_push(s: Seq<Rect>, r: Rect)
    ensures
        rect_views(s.push(r)) == rect_views(s).push(r@),
{
    assert(rect_views(s.push(r)) =~= rect_views(s).push(r@));
}

/// Taking element views commutes with swap-removal.
proof fn lemma_rect_views_swap(s: Seq<Rect>, i: int)
    requires
        0 <= i < s.len(),
    ensures
        rect_views(swap_remove_m(s, i)) == swap_remove_m(rect_views(s), i),
{
    assert(rect_views(swap_remove_m(s, i)) =~= swap_remove_m(rect_views(s), i));
}

/// Taking element views commutes with pushing.
proof fn lemma_pt_views_push(s: Seq<Vec2>, p: Vec2)
    ensures
        pt_views(s.push(p)) == pt_views(s).push(p@),
{
    assert(pt_views(s.push(p)) =~= pt_views(s).push(p@));
}

/// Taking element views commutes with swap-removal.
proof fn lemma_pt_views_swap(s: Seq<Vec2>, i: int)
    requires
        0 <= i < s.len(),
    ensures
        pt_views(swap_remove_m(s, i)) == swap_remove_m(pt_views(s), i),
{
    assert(pt_views(swap_remove_m(s, i)) =~= swap_remove_m(pt_views(s), i));
}

/// One discrete input event, as the host's input layer reports it.
#[derive(Clone, Copy, PartialEq, Eq, Structural, Debug)]
pub enum InputEvent {
    /// The gravity-flip button went down: toggles the pending-press flag,
    /// so a second press before the next tick cancels the first.
    Flip,
    /// The window lost focus: the game pauses.
    FocusLost,
    /// The window regained focus: the game unpauses.
    FocusGained,
    /// The reset button went down: the world is rebuilt from a fresh seed.
    Reset,
}

/// The whole game state: player, procedural obstacles, score, lifecycle
/// flags, and the seed cursor of the procedural generator.
#[derive(Clone, PartialEq, Debug)]
pub struct World {
    /// Player centre.
    pub player_pos: Vec2,
    /// Player velocity.
    pub player_vel: Vec2,
    /// Direction gravity currently pulls: `1` or `-1`.
    pub grav_dir: i64,
    /// Simulation clock, in milliseconds.
    pub t: i64,
    /// Clock value of the latest gravity flip.
    pub t_press: i64,
    /// Score, in milli-points.
    pub score: i64,
    /// Player x position at the latest spawn event.
    pub x_last_wall: i64,
    /// Seed cursor of the procedural generator.
    pub wall_seed: u32,
    /// Walls, spawned in gap pairs; culling may reorder survivors.
    pub walls: Vec<Rect>,
    /// Pickup centres.
    pub pickups: Vec<Vec2>,
    pub paused: bool,
    pub dead: bool,
    /// A gravity-flip input waiting to be consumed by the next tick.
    pub press: bool,
}

impl View for World {
    type V = Model;

    open spec fn view(&self) -> Model {
        Model {
            pos_x: self.player_pos.x as int,
            pos_y: self.player_pos.y as int,
            vel_x: self.player_vel.x as int,
            vel_y: self.player_vel.y as int,
            grav_dir: self.grav_dir as int,
            t: self.t as int,
            t_press: self.t_press as int,
            score: self.score as int,
            x_last_wall: self.x_last_wall as int,
            seed: self.wall_seed,
            walls: rect_views(self.walls@),
            pickups: pt_views(self.pickups@),
            paused: self.paused,
            dead: self.dead,
            press: self.press,
        }
    }
}

/// Whether a circle of radius [`LETHAL_R`] around `p` touches the wall.
fn wall_lethal(p: Vec2, r: &Rect) -> (hit: bool)
    requires
        iabs(p@.x) <= GEOM_BOUND,
        iabs(p@.y) <= GEOM_BOUND,
        iabs(r@.x) <= GEOM_BOUND,
        iabs(r@.y) <= GEOM_BOUND,
        0 <= r@.w <= GEOM_BOUND,
        0 <= r@.h <= GEOM_BOUND,
    ensures
        hit == lethal_hit(p@, r@),
{
    let hw: i64 = r.w / 2;
    let hh: i64 = r.h / 2;
    let qx: i128 = (p.x as i128) - (r.x as i128) - (hw as i128);
    let qy: i128 = (p.y as i128) - (r.y as i128) - (hh as i128);
    let ax0: i128 = if qx >= 0 {
        qx
    } else {
        -qx
    };
    let ay0: i128 = if qy >= 0 {
        qy
    } else {
        -qy
    };
    let dx: i128 = ax0 - (hw as i128);
    let dy: i128 = ay0 - (hh as i128);
    if dx <= 0 && dy <= 0 {
        true
    } else {
        let ax: i128 = if dx > 0 {
            dx
        } else {
            0
        };
        let ay: i128 = if dy > 0 {
            dy
        } else {
            0
        };
        let thr: i128 = 9_000_000_000_000;
        proof {
            assert(0 <= ax * ax + ay * ay
                && ax * ax < 0x4000_0000_0000_0000_0000_0000_0000_0000
                && ay * ay < 0x4000_0000_0000_0000_0000_0000_0000_0000) by (nonlinear_arith)
                requires
                    0 <= ax <= 0x4000_0000_0000_0000,
                    0 <= ay <= 0x4000_0000_0000_0000,
            ;
            assert(sq(LETHAL_R as int) == 9_000_000_000_000) by (nonlinear_arith);
        }
        ax * ax + ay * ay < thr
    }
}

/// Whether the player at `p` collects a pickup at `q`.
fn pickup_hit(p: Vec2, q: Vec2) -> (hit: bool)
    requires
        iabs(p@.x) <= GEOM_BOUND,
        iabs(p@.y) <= GEOM_BOUND,
        iabs(q@.x) <= GEOM_BOUND,
        iabs(q@.y) <= GEOM_BOUND,
    ensures
        hit == collected(p@, q@),
{
    let dx: i128 = (p.x as i128) - (q.x as i128);
    let dy: i128 = (p.y as i128) - (q.y as i128);
    let thr: i128 = 81_000_000_000_000;
    proof {
        assert(0 <= dx * dx + dy * dy
            && dx * dx < 0x4000_0000_0000_0000_0000_0000_0000_0000
            && dy * dy < 0x4000_0000_0000_0000_0000_0000_0000_0000) by (nonlinear_arith)
            requires
                -0x4000_0000_0000_0000 <= dx <= 0x4000_0000_0000_0000,
                -0x4000_0000_0000_0000 <= dy <= 0x4000_0000_0000_0000,
        ;
        assert(sq((PLAYER_R_BASE + PICKUP_RADIUS) as int) == 81_000_000_000_000)
            by (nonlinear_arith);
    }
    dx * dx + dy * dy < thr
}

/// Draws one wall pair at horizontal position `x`: the seed advances once,
/// the drawn value places the gap, and the two rectangles are appended.
/// The pair leaves a vertical gap of exactly [`GAP_H`], with the gap's
/// lower edge inside the visible range `[-SCALE, SCALE - GAP_H]`.
pub fn push_wall_rects(buf: &mut Vec<Rect>, seed: &mut u32, x: i64) -> (gap_top: i64)
    requires
        iabs(x as int) <= POS_X_LIMIT + SPAWN_AHEAD,
    ensures
        *final(seed) == khash_spec(*old(seed)),
        gap_top == uniform_of(khash_spec(*old(seed)), -SCALE as int, (SCALE - GAP_H) as int),
        -SCALE <= gap_top <= SCALE - GAP_H,
        rect_views(final(buf)@) == rect_views(old(buf)@).push(
            wall_pair(x as int, gap_top as int).0,
        ).push(wall_pair(x as int, gap_top as int).1),
{
    let s0: u32 = *seed;
    let _s1: u32 = minirng::hash::next_u32(seed);
    let gap_top = kuniform(s0, -SCALE, SCALE - GAP_H);
    let r1 = Rect { x, y: -SCALE - WALL_OVERSHOOT, w: WALL_W, h: gap_top + SCALE + WALL_OVERSHOOT };
    let r2 = Rect {
        x,
        y: gap_top + GAP_H,
        w: WALL_W,
        h: SCALE + WALL_OVERSHOOT - gap_top - GAP_H,
    };
    proof {
        lemma_rect_views_push(buf@, r1);
        lemma_rect_views_push(buf@.push(r1), r2);
    }
    buf.push(r1);
    buf.push(r2);
    gap_top
}

impl World {
    /// Builds the world a reset produces for the given seed.
    pub fn new(seed: u32) -> (w: World)
        ensures
            w@ == reset_m(seed),
            wf(w@),
    {
        let w = World {
            player_pos: Vec2 { x: 0, y: PLAYER_START_Y },
            player_vel: Vec2 { x: PLAYER_SPEED, y: 0 },
            grav_dir: 1,
            t: 0,
            t_press: 0,
            score: 0,
            x_last_wall: 0,
            wall_seed: seed,
            walls: Vec::new(),
            pickups: Vec::new(),
            paused: false,
            dead: false,
            press: false,
        };
        proof {
            assert(rect_views(w.walls@) =~= reset_m(seed).walls);
            assert(pt_views(w.pickups@) =~= reset_m(seed).pickups);
            lemma_reset_wf(seed);
        }
        w
    }

    /// Full-state reset: every field returns to its construction default,
    /// whatever the previous state was; only the seed is taken from the
    /// caller.
    pub fn reset(&mut self, seed: u32)
        ensures
            final(self)@ == reset_m(seed),
            wf(final(self)@),
    {
        *self = World::new(seed);
    }

    /// Reset with a freshly drawn entropy seed.
    pub fn reset_fresh(&mut self)
        ensures
            final(self)@ == reset_m(final(self)@.seed),
            wf(final(self)@),
    {
        let seed = crate::rng::fresh_seed();
        self.reset(seed);
    }

    /// Applies one discrete input event.
    pub fn handle_input(&mut self, ev: InputEvent)
        ensures
            ev == InputEvent::Flip ==> final(self)@ == (Model {
                press: !old(self)@.press,
                ..old(self)@
            }),
            ev == InputEvent::FocusLost ==> final(self)@ == (Model {
                paused: true,
                ..old(self)@
            }),
            ev == InputEvent::FocusGained ==> final(self)@ == (Model {
                paused: false,
                ..old(self)@
            }),
            ev == InputEvent::Reset ==> final(self)@ == reset_m(final(self)@.seed),
            wf(old(self)@) ==> wf(final(self)@),
    {
        match ev {
            InputEvent::Flip => {
                self.press = !self.press;
            },
            InputEvent::FocusLost => {
                self.paused = true;
            },
            InputEvent::FocusGained => {
                self.paused = false;
            },
            InputEvent::Reset => {
                self.reset_fresh();
            },
        }
    }

    /// Score accrual: a fixed rate per elapsed millisecond.
    fn tick_score(&mut self, dt: i64)
        requires
            0 <= dt <= DT_MAX,
            0 <= old(self)@.score,
            old(self)@.score + SCORE_RATE * dt <= SCORE_LIMIT,
        ensures
            final(self)@ == (Model { score: old(self)@.score + SCORE_RATE * dt, ..old(self)@ }),
    {
        self.score = self.score + SCORE_RATE * dt;
    }

    /// Physics integration: one tick of gravity into the velocity, and the
    /// exact integral of the motion into the position.
    fn tick_physics(&mut self, dt: i64)
        requires
            0 <= dt <= DT_MAX,
            old(self)@.grav_dir == 1 || old(self)@.grav_dir == -1,
            iabs(old(self)@.vel_y) <= GRAVITY * (T_MAX as int),
            old(self)@.vel_x == PLAYER_SPEED,
            0 <= old(self)@.pos_x <= PLAYER_SPEED * (T_MAX as int),
            iabs(old(self)@.pos_y) <= SCALE,
        ensures
            final(self)@ == physics_m(old(self)@, dt as int),
    {
        let gd = self.grav_dir;
        let vy0 = self.player_vel.y;
        proof {
            assert(-(GRAVITY * dt) <= GRAVITY * gd * dt <= GRAVITY * dt) by (nonlinear_arith)
                requires
                    gd == 1 || gd == -1,
                    0 <= dt,
            ;
            assert(-311385128960000 <= vy0 * dt <= 311385128960000) by (nonlinear_arith)
                requires
                    -311385128960 <= vy0 <= 311385128960,
                    0 <= dt <= 1000,
            ;
            assert(-145000 <= HALF_GRAVITY * gd * dt <= 145000) by (nonlinear_arith)
                requires
                    gd == 1 || gd == -1,
                    0 <= dt <= 1000,
            ;
            assert(-145000000 <= HALF_GRAVITY * gd * dt * dt <= 145000000) by (nonlinear_arith)
                requires
                    gd == 1 || gd == -1,
                    0 <= dt <= 1000,
            ;
            assert(self.player_vel.x * dt == PLAYER_SPEED * dt) by (nonlinear_arith)
                requires
                    self.player_vel.x == PLAYER_SPEED,
            ;
        }
        self.player_pos.x = self.player_pos.x + self.player_vel.x * dt;
        self.player_pos.y = self.player_pos.y + vy0 * dt + HALF_GRAVITY * gd * dt * dt;
        self.player_vel.y = vy0 + GRAVITY * gd * dt;
    }

    /// The spawner: when the travel cursor is due, draws and appends one
    /// wall pair, and with the configured probability places one pickup.
    /// The pickup decision peeks the seed stream, so a spawn without a
    /// pickup consumes exactly one draw.
    fn tick_spawn(&mut self)
        requires
            0 <= old(self)@.x_last_wall <= old(self)@.pos_x,
            old(self)@.pos_x <= POS_X_LIMIT,
        ensures
            final(self)@ == spawn_m(old(self)@),
    {
        let ghost m0 = self@;
        if self.player_pos.x - self.x_last_wall > WALL_SEPARATION {
            let wall_x = self.player_pos.x + SPAWN_AHEAD;
            let gap_top = push_wall_rects(&mut self.walls, &mut self.wall_seed, wall_x);
            let ghost s1 = khash_spec(m0.seed);
            let peeked = khash(self.wall_seed);
            if peeked < PICKUP_CHANCE {
                let _consumed = minirng::hash::next_u32(&mut self.wall_seed);
                let coin = minirng::hash::next_u32(&mut self.wall_seed);
                let py = if coin < COIN_HALF {
                    gap_top + PICKUP_INSET
                } else {
                    gap_top + GAP_H - PICKUP_INSET
                };
                let pickup = Vec2 { x: wall_x + PICKUP_MID_OFFSET, y: py };
                proof {
                    lemma_pt_views_push(self.pickups@, pickup);
                }
                self.pickups.push(pickup);
            }
            self.x_last_wall = self.player_pos.x;
            proof {
                assert(spawn_due(m0));
                assert(final(self)@ == spawn_event(m0));
            }
        }
    }

    /// Death detection: outside the visible vertical extent, or in lethal
    /// contact with any wall.
    fn tick_death(&mut self)
        requires
            iabs(old(self)@.pos_x) <= GEOM_BOUND,
            iabs(old(self)@.pos_y) <= GEOM_BOUND,
            forall|j: int| 0 <= j < old(self)@.walls.len() ==> wall_coarse(
                #[trigger] old(self)@.walls[j],
            ),
        ensures
            final(self)@ == death_m(old(self)@),
    {
        let off = self.player_pos.y < -SCALE || self.player_pos.y > SCALE;
        let ghost p = PtM { x: self@.pos_x, y: self@.pos_y };
        let mut hit = false;
        let mut j: usize = 0;
        while j < self.walls.len()
            invariant
                0 <= j <= self.walls.len(),
                *self == *old(self),
                iabs(self@.pos_x) <= GEOM_BOUND,
                iabs(self@.pos_y) <= GEOM_BOUND,
                p == (PtM { x: self@.pos_x, y: self@.pos_y }),
                forall|k: int| 0 <= k < self@.walls.len() ==> wall_coarse(#[trigger] self@.walls[k]),
                hit == exists|k: int| 0 <= k < j && lethal_hit(p, #[trigger] self@.walls[k]),
            decreases self.walls.len() - j,
        {
            let w = self.walls[j];
            proof {
                assert(w@ == self@.walls[j as int]);
                assert(wall_coarse(self@.walls[j as int]));
            }
            let lj = wall_lethal(self.player_pos, &w);
            proof {
                if lj {
                    assert(lethal_hit(p, self@.walls[j as int]));
                    assert(exists|k: int|
                        0 <= k < j + 1 && lethal_hit(p, #[trigger] self@.walls[k]));
                } else {
                    if exists|k: int| 0 <= k < j + 1 && lethal_hit(p, #[trigger] self@.walls[k]) {
                        let k = choose|k: int|
                            0 <= k < j + 1 && lethal_hit(p, #[trigger] self@.walls[k]);
                        assert(k < j || k == j);
                        assert(k < j ==> exists|k2: int|
                            0 <= k2 < j && lethal_hit(p, #[trigger] self@.walls[k2]));
                    }
                }
            }
            if lj {
                hit = true;
            }
            j = j + 1;
        }
        proof {
            assert(hit == hit_any(self@.walls, p));
        }
        if off || hit {
            self.dead = true;
        }
    }

    /// Wall culling: walls whose leading edge has fallen behind the player
    /// by more than the cull margin are swap-removed.
    fn tick_cull_walls(&mut self)
        requires
            old(self)@.pos_x >= 0,
        ensures
            final(self)@ == (Model {
                walls: cull_step(
                    old(self)@.walls,
                    old(self)@.walls.len() as int,
                    old(self)@.pos_x - CULL_BEHIND,
                ),
                ..old(self)@
            }),
    {
        let cutoff = self.player_pos.x - CULL_BEHIND;
        let ghost target = cull_step(self@.walls, self@.walls.len() as int, cutoff as int);
        let mut i = self.walls.len();
        while i > 0
            invariant
                i <= self.walls.len(),
                cutoff == self@.pos_x - CULL_BEHIND,
                self@ == (Model { walls: rect_views(self.walls@), ..old(self)@ }),
                cull_step(rect_views(self.walls@), i as int, cutoff as int) == target,
            decreases i,
        {
            i = i - 1;
            let ghost before = self.walls@;
            if self.walls[i].x < cutoff {
                self.walls.swap_remove(i);
                proof {
                    lemma_rect_views_swap(before, i as int);
                }
            }
        }
    }

    /// The pickup pass: each pickup in reach is collected and scored; any
    /// other pickup behind the cull margin is removed.
    fn tick_pickups(&mut self)
        requires
            0 <= old(self)@.pos_x,
            iabs(old(self)@.pos_x) <= GEOM_BOUND,
            iabs(old(self)@.pos_y) <= GEOM_BOUND,
            forall|j: int| 0 <= j < old(self)@.pickups.len() ==> pickup_coarse(
                #[trigger] old(self)@.pickups[j],
            ),
            0 <= old(self)@.score,
            old(self)@.score + PICKUP_VALUE * old(self)@.pickups.len() <= SCORE_LIMIT,
        ensures
            final(self)@ == (Model {
                pickups: pickup_step(
                    old(self)@.pickups,
                    old(self)@.score,
                    old(self)@.pickups.len() as int,
                    PtM { x: old(self)@.pos_x, y: old(self)@.pos_y },
                    old(self)@.pos_x - CULL_BEHIND,
                ).0,
                score: pickup_step(
                    old(self)@.pickups,
                    old(self)@.score,
                    old(self)@.pickups.len() as int,
                    PtM { x: old(self)@.pos_x, y: old(self)@.pos_y },
                    old(self)@.pos_x - CULL_BEHIND,
                ).1,
                ..old(self)@
            }),
    {
        let cutoff = self.player_pos.x - CULL_BEHIND;
        let ghost p = PtM { x: self@.pos_x, y: self@.pos_y };
        let ghost target = pickup_step(
            self@.pickups,
            self@.score,
            self@.pickups.len() as int,
            p,
            cutoff as int,
        );
        let mut i = self.pickups.len();
        while i > 0
            invariant
                i <= self.pickups.len(),
                cutoff == self@.pos_x - CULL_BEHIND,
                p == (PtM { x: self@.pos_x, y: self@.pos_y }),
                iabs(self@.pos_x) <= GEOM_BOUND,
                iabs(self@.pos_y) <= GEOM_BOUND,
                forall|k: int| 0 <= k < self@.pickups.len() ==> pickup_coarse(
                    #[trigger] self@.pickups[k],
                ),
                0 <= self@.score,
                self@.score + PICKUP_VALUE * self@.pickups.len() <= SCORE_LIMIT,
                self@ == (Model {
                    pickups: pt_views(self.pickups@),
                    score: self.score as int,
                    ..old(self)@
                }),
                pickup_step(pt_views(self.pickups@), self@.score, i as int, p, cutoff as int)
                    == target,
            decreases i,
        {
            i = i - 1;
            let ghost before = self.pickups@;
            let q = self.pickups[i];
            if pickup_hit(self.player_pos, q) {
                self.pickups.swap_remove(i);
                self.score = self.score + PICKUP_VALUE;
                proof {
                    lemma_pt_views_swap(before, i as int);
                    assert forall|k: int| 0 <= k < self@.pickups.len() implies pickup_coarse(
                        #[trigger] self@.pickups[k],
                    ) by {
                        if k == i {
                            assert(self@.pickups[k] == pt_views(before)[before.len() - 1]);
                        } else {
                            assert(self@.pickups[k] == pt_views(before)[k]);
                        }
                    }
                }
            } else if q.x < cutoff {
                self.pickups.swap_remove(i);
                proof {
                    lemma_pt_views_swap(before, i as int);
                    assert forall|k: int| 0 <= k < self@.pickups.len() implies pickup_coarse(
                        #[trigger] self@.pickups[k],
                    ) by {
                        if k == i {
                            assert(self@.pickups[k] == pt_views(before)[before.len() - 1]);
                        } else {
                            assert(self@.pickups[k] == pt_views(before)[k]);
                        }
                    }
                }
            }
        }
    }

    /// One simulation update for a live, unpaused world, over a clamped,
    /// nonnegative delta whose clock has already been advanced by the
    /// caller.  The headroom bounds are required at the clock value before
    /// the advance.
    pub fn update(&mut self, dt: i64)
        requires
            0 <= dt <= DT_MAX,
            dt <= old(self)@.t,
            old(self)@.t <= T_MAX,
            !old(self)@.dead,
            wf_core(old(self)@, old(self)@.t - dt),
        ensures
            final(self)@ == update_m(old(self)@, dt as int),
            wf_core(final(self)@, old(self)@.t),
    {
        let ghost m0 = self@;
        let ghost b = m0.t - dt;
        proof {
            assert(SCORE_POTENTIAL_RATE * b <= SCORE_POTENTIAL_RATE * (T_MAX as int));
            assert(m0.score <= score_potential(m0));
        }
        self.tick_score(dt);
        let ghost m1 = self@;
        proof {
            assert(GRAVITY * b <= GRAVITY * (T_MAX as int));
            assert(PLAYER_SPEED * b <= PLAYER_SPEED * (T_MAX as int));
        }
        self.tick_physics(dt);
        let ghost m2 = self@;
        proof {
            assert(m2 == physics_m(m1, dt as int));
            assert(m1.vel_x * dt == PLAYER_SPEED * dt) by (nonlinear_arith)
                requires
                    m1.vel_x == PLAYER_SPEED,
            ;
            assert(m2.pos_x <= PLAYER_SPEED * (b + dt));
            assert(PLAYER_SPEED * (b + dt) <= PLAYER_SPEED * (T_MAX as int));
        }
        self.tick_spawn();
        let ghost m3 = self@;
        proof {
            assert(m3 == spawn_m(m2));
            if spawn_due(m2) {
                lemma_uniform_of_range(
                    khash_spec(m2.seed),
                    -SCALE as int,
                    (SCALE - GAP_H) as int,
                );
            }
            assert(-(GRAVITY * dt) <= GRAVITY * m1.grav_dir * dt <= GRAVITY * dt)
                by (nonlinear_arith)
                requires
                    m1.grav_dir == 1 || m1.grav_dir == -1,
                    0 <= dt,
            ;
            assert(-311385128960000 <= m1.vel_y * dt <= 311385128960000) by (nonlinear_arith)
                requires
                    -311385128960 <= m1.vel_y <= 311385128960,
                    0 <= dt <= 1000,
            ;
            assert(-145000000 <= HALF_GRAVITY * m1.grav_dir * dt * dt <= 145000000)
                by (nonlinear_arith)
                requires
                    m1.grav_dir == 1 || m1.grav_dir == -1,
                    0 <= dt <= 1000,
            ;
            assert(iabs(m3.pos_y) <= GEOM_BOUND);
            assert forall|j: int| 0 <= j < m3.walls.len() implies wall_coarse(
                #[trigger] m3.walls[j],
            ) by {
                if j < m2.walls.len() {
                    assert(m3.walls[j] == m0.walls[j]);
                    assert(wall_wf(m0.walls[j], m0.pos_x));
                }
            }
        }
        self.tick_death();
        let ghost m4 = self@;
        proof {
            assert(m4 == death_m(m3));
        }
        self.tick_cull_walls();
        let ghost m5 = self@;
        proof {
            assert(m5 == (Model {
                walls: cull_step(m4.walls, m4.walls.len() as int, m4.pos_x - CULL_BEHIND),
                ..m4
            }));
            assert forall|j: int| 0 <= j < m5.pickups.len() implies pickup_coarse(
                #[trigger] m5.pickups[j],
            ) by {
                if j < m0.pickups.len() {
                    assert(m5.pickups[j] == m0.pickups[j]);
                    assert(pickup_wf(m0.pickups[j], m0.pos_x));
                }
            }
            if spawn_due(m2) {
                assert(score_potential(m3) <= score_potential(m2));
            }
            assert(m5.score + PICKUP_VALUE * m5.pickups.len() <= score_potential(m3));
            assert(score_potential(m2) <= SCORE_POTENTIAL_RATE * (b + dt) + PICKUP_VALUE);
            assert(SCORE_POTENTIAL_RATE * (b + dt) <= SCORE_POTENTIAL_RATE * (T_MAX as int));
        }
        self.tick_pickups();
        proof {
            assert(final(self)@ == update_m(m0, dt as int));
            lemma_update_wf(m0, dt as int, b);
        }
    }

    /// One frame: clamps the delta, advances the clock, consumes a pending
    /// gravity flip, and updates the world unless paused or dead.
    pub fn frame(&mut self, dt: i64)
        requires
            wf(old(self)@),
            dt >= 0,
            old(self)@.t + (if dt > DT_MAX {
                DT_MAX as int
            } else {
                dt as int
            }) <= T_MAX,
        ensures
            final(self)@ == frame_m(old(self)@, dt as int),
            wf(final(self)@),
    {
        let ghost m0 = self@;
        let d = if dt > DT_MAX {
            DT_MAX
        } else {
            dt
        };
        self.t = self.t + d;
        if self.press {
            self.press = false;
            self.t_press = self.t;
            self.grav_dir = -self.grav_dir;
        }
        if !self.paused && !self.dead {
            proof {
                assert forall|i: int| 0 <= i < self@.walls.len() implies wall_wf(
                    #[trigger] self@.walls[i],
                    self@.pos_x,
                ) by {
                    assert(self@.walls[i] == m0.walls[i]);
                    assert(wall_wf(m0.walls[i], m0.pos_x));
                }
                assert forall|i: int| 0 <= i < self@.pickups.len() implies pickup_wf(
                    #[trigger] self@.pickups[i],
                    self@.pos_x,
                ) by {
                    assert(self@.pickups[i] == m0.pickups[i]);
                    assert(pickup_wf(m0.pickups[i], m0.pos_x));
                }
                assert(wf_core(self@, m0.t));
            }
            self.update(d);
        }
        proof {
            lemma_frame_wf(m0, dt as int);
        }
    }
}

/// Coarse magnitude bounds on a wall, enough for the collision arithmetic.
pub open spec fn wall_coarse(r: RectM) -> bool {
    &&& iabs(r.x) <= GEOM_BOUND
    &&& iabs(r.y) <= GEOM_BOUND
    &&& 0 <= r.w <= GEOM_BOUND
    &&& 0 <= r.h <= GEOM_BOUND
}

/// Coarse magnitude bounds on a pickup, enough for the collision
/// arithmetic.
pub open spec fn pickup_coarse(p: PtM) -> bool {
    &&& iabs(p.x) <= GEOM_BOUND
    &&& iabs(p.y) <= GEOM_BOUND
}

} // verus!
