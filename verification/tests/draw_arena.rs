use gball::world::World;
use gball::draw::{DrawCmd, Color, digits_ascii};
use gball::arena::{penetration, resolve_enemy_overlap};
use gball::geom::{Vec2, Rect};
use gball::consts::{SCALE, PICKUP_RADIUS, CAM_X_OFFSET, PLAYER_START_Y};

#[test]
fn digits_are_decimal_ascii() {
    assert_eq!(digits_ascii(0), b"0".to_vec());
    assert_eq!(digits_ascii(7), b"7".to_vec());
    assert_eq!(digits_ascii(120345), b"120345".to_vec());
    assert_eq!(digits_ascii(1000), b"1000".to_vec());
}

#[test]
fn geometry_lists_player_walls_pickups_in_order() {
    let mut w = World::new(1);
    w.walls.push(Rect { x: 500_000_000, y: -SCALE, w: 40_000_000, h: 50_000_000 });
    w.pickups.push(Vec2 { x: 600_000_000, y: 0 });
    let cmds = w.get_geometry();
    assert_eq!(cmds.len(), 3);
    match &cmds[0] {
        DrawCmd::Circle { center, radius, color, depth } => {
            assert_eq!(*center, w.player_pos);
            // at t == t_press == 0 the flip bump is at its full size
            assert_eq!(*radius, 4_000_000 + 1_000_000);
            assert_eq!(*color, Color { r: 255, g: 255, b: 0, a: 255 });
            assert_eq!(*depth, 0);
        },
        other => panic!("expected the player circle first, got {:?}", other),
    }
    match &cmds[1] {
        DrawCmd::Quad { rect, depth, .. } => {
            assert_eq!(*rect, w.walls[0]);
            assert_eq!(*depth, 100);
        },
        other => panic!("expected the wall quad second, got {:?}", other),
    }
    match &cmds[2] {
        DrawCmd::Circle { center, radius, .. } => {
            assert_eq!(*center, w.pickups[0]);
            assert_eq!(*radius, PICKUP_RADIUS);
        },
        other => panic!("expected the pickup circle third, got {:?}", other),
    }
}

#[test]
fn score_text_layout() {
    let w = World::new(1);
    let cmds = w.get_text();
    assert_eq!(cmds.len(), 1);
    match &cmds[0] {
        DrawCmd::Text { text, rect, color, depth } => {
            assert_eq!(text, &b"0".to_vec());
            let cw: i64 = 1_000_000;
            let ch = cw * 8 / 7;
            assert_eq!(*rect, Rect { x: -(cw / 2), y: -SCALE + ch, w: cw, h: ch });
            assert_eq!(*color, Color { r: 255, g: 255, b: 255, a: 255 });
            assert_eq!(*depth, -900);
        },
        other => panic!("expected the score text, got {:?}", other),
    }
}

#[test]
fn camera_frames_one_unit_around_the_lead_point() {
    let w = World::new(1);
    let cam = w.get_camera();
    assert_eq!(
        cam,
        Rect {
            x: CAM_X_OFFSET - SCALE,
            y: PLAYER_START_Y - SCALE,
            w: 2 * SCALE,
            h: 2 * SCALE,
        },
    );
}

#[test]
fn penetration_is_radii_minus_distance() {
    let a = Vec2 { x: 0, y: 0 };
    let b = Vec2 { x: 3_000_000, y: 4_000_000 };
    assert_eq!(penetration(a, 3_000_000, b, 3_000_000), 1_000_000);
    assert_eq!(penetration(a, 2_000_000, b, 2_000_000), -1_000_000);
}

#[test]
fn push_apart_splits_the_overlap_evenly() {
    let a = Vec2 { x: 0, y: 0 };
    let b = Vec2 { x: 5_000_000, y: 0 };
    let (a2, b2) = resolve_enemy_overlap(a, 4_000_000, b, 4_000_000);
    // penetration 3e6: each body moves exactly half of it along the axis
    assert_eq!(a2, Vec2 { x: -1_500_000, y: 0 });
    assert_eq!(b2, Vec2 { x: 6_500_000, y: 0 });
    // post-resolution overlap vanishes
    assert_eq!(penetration(a2, 4_000_000, b2, 4_000_000), 0);
}

#[test]
fn push_apart_leaves_separated_bodies_alone() {
    let a = Vec2 { x: 0, y: 0 };
    let b = Vec2 { x: 90_000_000, y: 0 };
    let (a2, b2) = resolve_enemy_overlap(a, 4_000_000, b, 4_000_000);
    assert_eq!(a2, a);
    assert_eq!(b2, b);
}

#[test]
fn push_apart_diagonal_overlap_is_nearly_resolved() {
    let a = Vec2 { x: 0, y: 0 };
    let b = Vec2 { x: 2_000_000, y: 1_500_000 };
    let (a2, b2) = resolve_enemy_overlap(a, 2_000_000, b, 2_000_000);
    // distance 2.5e6, penetration 1.5e6; within rounding of the integer
    // grid, the leftover overlap is a handful of subunits (nanometres of a
    // world two units wide).
    let leftover = penetration(a2, 2_000_000, b2, 2_000_000);
    assert!(leftover.abs() <= 2, "leftover overlap {}", leftover);
}

#[test]
fn score_text_grows_with_the_digits() {
    let mut w = World::new(1);
    w.frame(1000);
    // one second at 100 points per second
    assert_eq!(w.score, 100_000);
    let cmds = w.get_text();
    match &cmds[0] {
        DrawCmd::Text { text, rect, .. } => {
            assert_eq!(text, &b"100".to_vec());
            let cw: i64 = 3_000_000;
            let ch = cw * 8 / 7;
            assert_eq!(*rect, Rect { x: -(cw * 3 / 2), y: -SCALE + ch, w: cw * 3, h: ch });
        },
        other => panic!("expected the score text, got {:?}", other),
    }
}
