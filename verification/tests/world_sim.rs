use gball::world::{World, InputEvent};
use gball::geom::{Vec2, Rect};
use gball::consts::{
    SCALE, PLAYER_SPEED, PLAYER_START_Y, PICKUP_VALUE, SCORE_RATE, GAP_H, WALL_W,
};

#[test]
fn new_world_has_construction_defaults() {
    let w = World::new(77);
    assert_eq!(w.player_pos, Vec2 { x: 0, y: PLAYER_START_Y });
    assert_eq!(w.player_vel, Vec2 { x: PLAYER_SPEED, y: 0 });
    assert_eq!(w.grav_dir, 1);
    assert_eq!(w.t, 0);
    assert_eq!(w.score, 0);
    assert_eq!(w.x_last_wall, 0);
    assert_eq!(w.wall_seed, 77);
    assert!(w.walls.is_empty());
    assert!(w.pickups.is_empty());
    assert!(!w.paused && !w.dead && !w.press);
}

#[test]
fn free_fall_matches_closed_form_whatever_the_tick_split() {
    // After one second of free fall the position is exactly the integral
    // y0 + (g/2) t^2, and the split into ticks does not matter.
    let expected_y = PLAYER_START_Y + 145 * 1000 * 1000;
    let splits: [&[i64]; 3] = [&[1000], &[250, 250, 250, 250], &[333, 333, 334]];
    for dts in splits {
        let mut w = World::new(1);
        for &dt in dts {
            w.frame(dt);
        }
        assert_eq!(w.player_pos.y, expected_y);
        assert_eq!(w.player_pos.y, 55_000_000);
        assert_eq!(w.player_vel.y, 290 * 1000);
        assert_eq!(w.player_pos.x, PLAYER_SPEED * 1000);
        assert_eq!(w.score, SCORE_RATE * 1000);
        assert!(!w.dead);
    }
}

#[test]
fn runs_with_equal_inputs_are_bit_identical() {
    let script: [(bool, i64); 6] = [
        (false, 250),
        (true, 300),
        (false, 117),
        (true, 83),
        (false, 450),
        (true, 1000),
    ];
    let mut w1 = World::new(123);
    let mut w2 = World::new(123);
    for &(flip, dt) in script.iter() {
        if flip {
            w1.handle_input(InputEvent::Flip);
            w2.handle_input(InputEvent::Flip);
        }
        w1.frame(dt);
        w2.frame(dt);
        assert_eq!(w1, w2);
    }
}

#[test]
fn gravity_flip_is_edge_triggered_and_toggles() {
    let mut w = World::new(1);
    w.handle_input(InputEvent::Flip);
    assert!(w.press);
    w.handle_input(InputEvent::Flip);
    assert!(!w.press);
    w.handle_input(InputEvent::Flip);
    w.frame(100);
    assert_eq!(w.grav_dir, -1);
    assert_eq!(w.t_press, 100);
    assert!(!w.press);
    w.frame(100);
    assert_eq!(w.grav_dir, -1);
}

#[test]
fn pause_freezes_simulation_but_not_clock() {
    let mut w = World::new(1);
    w.handle_input(InputEvent::FocusLost);
    assert!(w.paused);
    let y0 = w.player_pos.y;
    let s0 = w.score;
    w.frame(500);
    assert_eq!(w.t, 500);
    assert_eq!(w.player_pos.y, y0);
    assert_eq!(w.score, s0);
    w.handle_input(InputEvent::FocusGained);
    assert!(!w.paused);
    w.frame(500);
    assert!(w.player_pos.y != y0);
}

#[test]
fn player_dies_leaving_the_vertical_extent() {
    let mut w = World::new(1);
    for _ in 0..12 {
        w.frame(100);
    }
    assert!(w.dead);
    // gravity pulled up from -0.9 across +1.0: y(1200) = -9e7 + 145*1200^2
    assert_eq!(w.player_pos.y, -90_000_000 + 145 * 1200 * 1200);
    let y_dead = w.player_pos.y;
    let score_dead = w.score;
    w.frame(500);
    assert_eq!(w.player_pos.y, y_dead);
    assert_eq!(w.score, score_dead);
    assert_eq!(w.t, 1700);
}

#[test]
fn player_dies_on_wall_contact() {
    let mut w = World::new(1);
    w.walls.push(Rect { x: -20_000_000, y: -120_000_000, w: 40_000_000, h: 60_000_000 });
    w.frame(1);
    assert!(w.dead);
}

#[test]
fn spawn_emits_wall_pair_with_exact_gap() {
    let mut w = World::new(3);
    // Advance the travel cursor past the separation so the next tick's
    // spawn is due (with the clock moved along to match).
    w.player_pos.x = 201_000_000;
    w.t = 2_600_000;
    w.frame(1);
    assert_eq!(w.walls.len(), 2);
    let r1 = w.walls[0];
    let r2 = w.walls[1];
    assert_eq!(r1.x, 601_080_000);
    assert_eq!(r2.x, 601_080_000);
    assert_eq!(r1.w, WALL_W);
    assert_eq!(r2.w, WALL_W);
    // the gap between the two walls is exactly GAP_H
    assert_eq!(r2.y - (r1.y + r1.h), GAP_H);
    let gap_top = r1.y + r1.h;
    assert_eq!(gap_top, 10_388_702);
    assert!(-SCALE <= gap_top && gap_top <= SCALE - GAP_H);
    // seed 3 also places a pickup at the midpoint, near the gap's low edge
    assert_eq!(w.pickups.len(), 1);
    assert_eq!(w.pickups[0], Vec2 { x: 701_080_000, y: 10_388_702 + 15_000_000 });
    assert_eq!(w.x_last_wall, 201_080_000);
    assert_eq!(w.wall_seed, 1_221_877_280);
}

#[test]
fn spawn_without_pickup_consumes_one_draw() {
    let mut w = World::new(0);
    w.player_pos.x = 201_000_000;
    w.t = 2_600_000;
    w.frame(1);
    assert_eq!(w.walls.len(), 2);
    assert_eq!(w.pickups.len(), 0);
    assert_eq!(w.wall_seed, 1_739_749_167);
}

#[test]
fn pickup_at_player_position_is_collected_once() {
    let mut w = World::new(1);
    let p = w.player_pos;
    w.pickups.push(p);
    w.frame(1);
    assert_eq!(w.pickups.len(), 0);
    assert_eq!(w.score, SCORE_RATE * 1 + PICKUP_VALUE);
    w.frame(1);
    assert_eq!(w.score, SCORE_RATE * 2 + PICKUP_VALUE);
}

#[test]
fn stale_walls_and_pickups_are_culled() {
    let mut w = World::new(1);
    // just inside the boundary now; behind it once the player advances
    w.walls.push(Rect { x: -199_999_000, y: 0, w: 40_000_000, h: 10_000_000 });
    w.pickups.push(Vec2 { x: -199_999_000, y: 0 });
    let s0 = w.score;
    w.frame(1000);
    assert_eq!(w.walls.len(), 0);
    assert_eq!(w.pickups.len(), 0);
    // a culled pickup pays no bonus
    assert_eq!(w.score, s0 + SCORE_RATE * 1000);
    // and nothing left sits behind the cull boundary
    for r in w.walls.iter() {
        assert!(r.x + r.w >= w.player_pos.x - 200_000_000);
    }
    for p in w.pickups.iter() {
        assert!(p.x >= w.player_pos.x - 200_000_000);
    }
}

#[test]
fn score_is_monotone_while_alive_and_frozen_when_dead() {
    let mut w = World::new(9);
    let mut last = w.score;
    for k in 0..40 {
        if k % 7 == 3 {
            w.handle_input(InputEvent::Flip);
        }
        let was_dead = w.dead;
        let before = w.score;
        w.frame(97);
        if was_dead {
            assert_eq!(w.score, before);
        } else {
            assert!(w.score >= before);
        }
        assert!(w.score >= last);
        last = w.score;
    }
}

#[test]
fn reset_restores_every_field_and_is_idempotent() {
    let mut w = World::new(1);
    for _ in 0..12 {
        w.frame(100);
    }
    assert!(w.dead);
    w.reset(7);
    assert!(!w.dead);
    assert_eq!(w.score, 0);
    assert_eq!(w.walls.len(), 0);
    assert_eq!(w.pickups.len(), 0);
    assert_eq!(w.wall_seed, 7);
    assert_eq!(w.player_pos, Vec2 { x: 0, y: PLAYER_START_Y });
    assert_eq!(w.t, 0);
    let once = w.clone();
    w.reset(7);
    assert_eq!(w, once);
    assert_eq!(w, World::new(7));
}

#[test]
fn reset_input_draws_a_fresh_seed() {
    let mut w = World::new(1);
    w.frame(100);
    w.handle_input(InputEvent::Reset);
    assert!(!w.dead);
    assert_eq!(w.score, 0);
    assert_eq!(w.t, 0);
    assert_eq!(w.walls.len(), 0);
    assert_eq!(w.pickups.len(), 0);
}

#[test]
fn survival_run_keeps_cull_boundary() {
    // Thread the player through several spawns by flipping gravity so that
    // it stays alive well past the first wall; check the culling boundary
    // afterwards.
    let mut w = World::new(5);
    for k in 0..60 {
        // bounce between the extremes: flip whenever moving outward fast
        if (w.grav_dir == 1 && w.player_pos.y > 40_000_000)
            || (w.grav_dir == -1 && w.player_pos.y < -40_000_000)
        {
            w.handle_input(InputEvent::Flip);
        }
        w.frame(50);
        if w.dead {
            break;
        }
        let _ = k;
    }
    for r in w.walls.iter() {
        assert!(r.x + r.w >= w.player_pos.x - 200_000_000);
    }
    for p in w.pickups.iter() {
        assert!(p.x >= w.player_pos.x - 200_000_000);
    }
}

#[test]
fn flipped_gravity_integrates_downward_and_kills() {
    let mut w = World::new(1);
    w.handle_input(InputEvent::Flip);
    w.frame(1000);
    // one tick: y = y0 - (g/2) t^2 crosses the lower bound and is lethal
    assert_eq!(w.grav_dir, -1);
    assert_eq!(w.player_pos.y, -90_000_000 - 145 * 1000 * 1000);
    assert!(w.dead);
}
