//! The laws of the simulation, stated and proved over the model.
//!
//! Every executable tick function is proved (in [`crate::world`]) to
//! compute the spec functions of [`crate::model`]; the lemmas here state
//! the global properties of those functions: replay determinism, the gap
//! invariant of spawned wall pairs, score monotonicity, cull completeness,
//! reset idempotence, and the closed-form integral of free fall.

use vstd::prelude::*;
use crate::consts::{
    SCALE, GRAVITY, HALF_GRAVITY, PLAYER_SPEED, GAP_H, WALL_W, SPAWN_AHEAD, CULL_BEHIND, DT_MAX,
    T_MAX,
};
use crate::geom::sq;
use crate::model::{
    Model, wf, frame_m, reset_m, spawn_event, physics_m, spawn_m, death_m, cull_step,
    lemma_frame_wf, lemma_pickup_elems, wall_wf, pickup_wf,
};
use crate::geom::PtM;
use crate::rng::{khash_spec, lemma_uniform_of_range};

verus! {

/// One step of a run: a simulation frame over a time delta, a discrete
/// input, or a reset with the seed it draws.
pub ghost enum StepM {
    /// A tick over `dt` milliseconds.
    Frame { dt: int },
    /// The gravity-flip button: toggles the pending press.
    Flip,
    /// Focus loss: pause.
    FocusLost,
    /// Focus gain: unpause.
    FocusGained,
    /// A full reset with the seed the entropy source handed out.
    Reset { seed: u32 },
}

/// The state after one step.
pub open spec fn step_m(m: Model, s: StepM) -> Model {
    match s {
        StepM::Frame { dt } => frame_m(m, dt),
        StepM::Flip => Model { press: !m.press, ..m },
        StepM::FocusLost => Model { paused: true, ..m },
        StepM::FocusGained => Model { paused: false, ..m },
        StepM::Reset { seed } => reset_m(seed),
    }
}

/// The state after a whole run of steps.
pub open spec fn run_m(m: Model, steps: Seq<StepM>) -> Model
    decreases steps.len(),
{
    if steps.len() == 0 {
        m
    } else {
        run_m(step_m(m, steps[0]), steps.drop_first())
    }
}

/// Determinism: a run is a mathematical function of the initial state and
/// the step sequence (which carries the seeds, the inputs and the time
/// deltas), so two runs given the same data agree bit for bit — not only
/// at the end but after every prefix.  The executable tick functions are
/// proved to compute exactly these spec functions, which is what makes
/// this a statement about the running program.
pub proof fn lemma_run_deterministic(m1: Model, m2: Model, s1: Seq<StepM>, s2: Seq<StepM>)
    requires
        m1 == m2,
        s1 == s2,
    ensures
        run_m(m1, s1) == run_m(m2, s2),
        forall|k: int| 0 <= k <= s1.len() ==> run_m(m1, #[trigger] s1.take(k)) == run_m(
            m2,
            s2.take(k),
        ),
{
}

/// Gap invariant: every spawn event appends exactly one wall pair, both
/// walls at the same spawn position and thickness, leaving a vertical gap
/// of exactly [`GAP_H`] whose lower edge lies in the visible range
/// `[-SCALE, SCALE - GAP_H]`.
pub proof fn lemma_gap_invariant(m: Model)
    ensures
        spawn_event(m).walls.len() == m.walls.len() + 2,
        ({
            let r1 = spawn_event(m).walls[m.walls.len() as int];
            let r2 = spawn_event(m).walls[m.walls.len() as int + 1];
            &&& r1.x == m.pos_x + SPAWN_AHEAD
            &&& r2.x == m.pos_x + SPAWN_AHEAD
            &&& r1.w == WALL_W
            &&& r2.w == WALL_W
            &&& r2.y - (r1.y + r1.h) == GAP_H
            &&& -SCALE <= r1.y + r1.h <= SCALE - GAP_H
        }),
{
    let s1 = khash_spec(m.seed);
    lemma_uniform_of_range(s1, -SCALE as int, (SCALE - GAP_H) as int);
}

/// Monotonic score while alive: one frame never lowers the score, and a
/// dead (or paused) world's score is frozen exactly.
pub proof fn lemma_score_monotonic(m: Model, dt: int)
    requires
        dt >= 0,
    ensures
        frame_m(m, dt).score >= m.score,
        m.dead || m.paused ==> frame_m(m, dt).score == m.score,
{
    let d = if dt > DT_MAX {
        DT_MAX as int
    } else {
        dt
    };
    let ma = Model { t: m.t + d, ..m };
    let mb = if ma.press {
        Model { press: false, t_press: ma.t, grav_dir: -ma.grav_dir, ..ma }
    } else {
        ma
    };
    if !mb.paused && !mb.dead {
        let m1 = Model { score: mb.score + crate::consts::SCORE_RATE * d, ..mb };
        let m2 = physics_m(m1, d);
        let m3 = spawn_m(m2);
        let m4 = death_m(m3);
        let m5 = Model {
            walls: cull_step(m4.walls, m4.walls.len() as int, m4.pos_x - CULL_BEHIND),
            ..m4
        };
        lemma_pickup_elems(
            m5.pickups,
            m5.score,
            m5.pickups.len() as int,
            PtM { x: m5.pos_x, y: m5.pos_y },
            m5.pos_x - CULL_BEHIND,
            |q: PtM| true,
        );
    }
}

/// Cull completeness: after any frame of a well-formed world, no wall and
/// no pickup remains whose trailing edge is left of the culling boundary,
/// the line [`CULL_BEHIND`] behind the player.
pub proof fn lemma_cull_completeness(m: Model, dt: int)
    requires
        wf(m),
        dt >= 0,
        m.t + (if dt > DT_MAX {
            DT_MAX as int
        } else {
            dt
        }) <= T_MAX,
    ensures
        forall|i: int| 0 <= i < frame_m(m, dt).walls.len() ==> (#[trigger] frame_m(
            m,
            dt,
        ).walls[i]).x + frame_m(m, dt).walls[i].w >= frame_m(m, dt).pos_x - CULL_BEHIND,
        forall|i: int| 0 <= i < frame_m(m, dt).pickups.len() ==> (#[trigger] frame_m(
            m,
            dt,
        ).pickups[i]).x >= frame_m(m, dt).pos_x - CULL_BEHIND,
{
    lemma_frame_wf(m, dt);
    let r = frame_m(m, dt);
    assert forall|i: int| 0 <= i < r.walls.len() implies (#[trigger] r.walls[i]).x + r.walls[i].w
        >= r.pos_x - CULL_BEHIND by {
        assert(wall_wf(r.walls[i], r.pos_x));
    }
    assert forall|i: int| 0 <= i < r.pickups.len() implies (#[trigger] r.pickups[i]).x >= r.pos_x
        - CULL_BEHIND by {
        assert(pickup_wf(r.pickups[i], r.pos_x));
    }
}

/// Reset as a transition on world states: it ignores the state it starts
/// from.
pub open spec fn do_reset(m: Model, seed: u32) -> Model {
    reset_m(seed)
}

/// Reset idempotence: resetting twice in a row with the same seed source
/// yields the same world as resetting once, and the result does not depend
/// on the world the reset started from.
pub proof fn lemma_reset_idempotent(m1: Model, m2: Model, seed: u32)
    ensures
        do_reset(do_reset(m1, seed), seed) == do_reset(m1, seed),
        do_reset(m1, seed) == do_reset(m2, seed),
{
}

/// The sum of a sequence of time deltas.
pub open spec fn total_time(dts: Seq<int>) -> int
    decreases dts.len(),
{
    if dts.len() == 0 {
        0
    } else {
        dts[0] + total_time(dts.drop_first())
    }
}

/// The run of plain frames over a sequence of time deltas.
pub open spec fn run_frames(m: Model, dts: Seq<int>) -> Model
    decreases dts.len(),
{
    if dts.len() == 0 {
        m
    } else {
        run_frames(frame_m(m, dts[0]), dts.drop_first())
    }
}

/// The motion facts of one live, unpaused, inputless frame: exactly one
/// tick of gravity into the velocity, the exact integral into the
/// position, and constant horizontal speed.
pub proof fn lemma_frame_motion(m: Model, dt: int)
    requires
        !m.paused,
        !m.press,
        !m.dead,
        0 <= dt <= DT_MAX,
    ensures
        frame_m(m, dt).vel_y == m.vel_y + GRAVITY * m.grav_dir * dt,
        frame_m(m, dt).pos_y == m.pos_y + m.vel_y * dt + HALF_GRAVITY * m.grav_dir * dt * dt,
        frame_m(m, dt).pos_x == m.pos_x + m.vel_x * dt,
        frame_m(m, dt).vel_x == m.vel_x,
        frame_m(m, dt).grav_dir == m.grav_dir,
        !frame_m(m, dt).paused,
        !frame_m(m, dt).press,
{
}

/// Free fall follows the closed-form integral of constant gravity: over
/// any sequence of ticks with no pending input, while the player stays
/// alive and unpaused, the vertical position after total time `T` is
/// exactly `y0 + v0*T + (g/2)*T^2`, the velocity is `v0 + g*T`, and the
/// horizontal position advances at exactly the constant player speed —
/// however the stretch of time was split into ticks.
#[verifier::rlimit(100)]
pub proof fn lemma_free_fall_closed_form(m: Model, dts: Seq<int>)
    requires
        !m.paused,
        !m.press,
        m.vel_x == PLAYER_SPEED,
        forall|k: int| 0 <= k < dts.len() ==> 0 <= #[trigger] dts[k] <= DT_MAX,
        forall|k: int| 0 <= k < dts.len() ==> !run_frames(m, #[trigger] dts.take(k)).dead,
    ensures
        run_frames(m, dts).vel_y == m.vel_y + GRAVITY * m.grav_dir * total_time(dts),
        run_frames(m, dts).pos_y == m.pos_y + m.vel_y * total_time(dts) + HALF_GRAVITY
            * m.grav_dir * sq(total_time(dts)),
        run_frames(m, dts).pos_x == m.pos_x + PLAYER_SPEED * total_time(dts),
        run_frames(m, dts).grav_dir == m.grav_dir,
        run_frames(m, dts).vel_x == PLAYER_SPEED,
        !run_frames(m, dts).paused,
        !run_frames(m, dts).press,
    decreases dts.len(),
{
    if dts.len() == 0 {
        assert(total_time(dts) == 0);
        assert(run_frames(m, dts) == m);
        assert(m.vel_y * 0 == 0) by (nonlinear_arith);
        assert(GRAVITY * m.grav_dir * 0 == 0) by (nonlinear_arith);
        assert(sq(0) == 0);
        assert(HALF_GRAVITY * m.grav_dir * sq(0) == 0) by (nonlinear_arith);
        assert(PLAYER_SPEED * 0 == 0);
    } else {
        let d = dts[0];
        assert(dts.take(0) =~= Seq::<int>::empty());
        assert(run_frames(m, dts.take(0)) == m);
        assert(!run_frames(m, dts.take(0)).dead);
        let m1 = frame_m(m, d);
        let rest = dts.drop_first();
        assert forall|k: int| 0 <= k < rest.len() implies 0 <= #[trigger] rest[k] <= DT_MAX by {
            assert(rest[k] == dts[k + 1]);
        }
        assert forall|k: int| 0 <= k < rest.len() implies !run_frames(
            m1,
            #[trigger] rest.take(k),
        ).dead by {
            assert(dts.take(k + 1).drop_first() =~= rest.take(k));
            assert(run_frames(m, dts.take(k + 1)) == run_frames(
                frame_m(m, dts.take(k + 1)[0]),
                dts.take(k + 1).drop_first(),
            ));
            assert(dts.take(k + 1)[0] == d);
        }
        lemma_frame_motion(m, d);
        lemma_free_fall_closed_form(m1, rest);
        let tr = total_time(rest);
        let tt = total_time(dts);
        assert(tt == d + tr);
        assert(m1.pos_x == m.pos_x + PLAYER_SPEED * d) by {
            assert(m.vel_x * d == PLAYER_SPEED * d) by (nonlinear_arith)
                requires
                    m.vel_x == PLAYER_SPEED,
            ;
        }
        assert(m.vel_y + GRAVITY * m.grav_dir * d + GRAVITY * m.grav_dir * tr == m.vel_y + GRAVITY
            * m.grav_dir * (d + tr)) by (nonlinear_arith);
        assert(run_frames(m, dts) == run_frames(m1, rest));
        assert(run_frames(m1, rest).pos_y == m1.pos_y + m1.vel_y * tr + HALF_GRAVITY * m.grav_dir
            * sq(tr));
        assert(m1.vel_y * tr == (m.vel_y + GRAVITY * m.grav_dir * d) * tr) by (nonlinear_arith)
            requires
                m1.vel_y == m.vel_y + GRAVITY * m.grav_dir * d,
        ;
        assert((m.pos_y + m.vel_y * d + HALF_GRAVITY * m.grav_dir * d * d) + (m.vel_y + GRAVITY
            * m.grav_dir * d) * tr + HALF_GRAVITY * m.grav_dir * sq(tr) == m.pos_y + m.vel_y * (d
            + tr) + HALF_GRAVITY * m.grav_dir * sq(d + tr)) by (nonlinear_arith)
            requires
                GRAVITY == 2 * HALF_GRAVITY,
                sq(tr) == tr * tr,
                sq(d + tr) == (d + tr) * (d + tr),
        ;
        assert(m.vel_y * tt == m.vel_y * (d + tr)) by (nonlinear_arith)
            requires
                tt == d + tr,
        ;
        assert(sq(tt) == sq(d + tr));
        assert(run_frames(m, dts).pos_y == m.pos_y + m.vel_y * tt + HALF_GRAVITY * m.grav_dir
            * sq(tt));
    }
}

} // verus!
