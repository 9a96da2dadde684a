use gball::rng::{khash, krand, kuniform, chance, SeedStream};
use gball::geom::{isqrt, sd_rect, Vec2, Rect};

#[test]
fn khash_reference_values() {
    assert_eq!(khash(0), 1739749167);
    assert_eq!(khash(1), 150776505);
    assert_eq!(khash(7), 67865237);
    assert_eq!(khash(12345), 3826328255);
}

#[test]
fn khash_matches_outside_hash() {
    // The seed-advance of the spawner is trusted to compute the same mix as
    // the library's own hash; check them against each other.
    for seed in [0u32, 1, 2, 42, 0xdead_beef, u32::MAX] {
        let mut state = seed;
        let drawn = minirng::hash::next_u32(&mut state);
        assert_eq!(drawn, khash(seed));
        assert_eq!(state, khash(seed));
        assert_eq!(minirng::hash::khash(seed), khash(seed));
    }
}

#[test]
fn krand_is_hash_numerator() {
    assert_eq!(krand(7), khash(7));
}

#[test]
fn kuniform_exact_value_and_range() {
    assert_eq!(kuniform(42, -100_000_000, 20_000_000), -26_373_904);
    for seed in 0..200u32 {
        let r = kuniform(seed, -100_000_000, 20_000_000);
        assert!(-100_000_000 <= r && r <= 20_000_000);
    }
    assert_eq!(kuniform(5, 9, 9), 9);
}

#[test]
fn chance_is_threshold_compare() {
    assert!(chance(7, u32::MAX));
    assert!(!chance(7, 0));
    assert_eq!(chance(7, 67_865_238), true);
    assert_eq!(chance(7, 67_865_237), false);
}

#[test]
fn seed_stream_peek_is_idempotent_and_matches_sample() {
    let mut s = SeedStream::new(9);
    let p1 = s.peek();
    let p2 = s.peek();
    assert_eq!(p1, p2);
    assert_eq!(p1, 1_802_022_502);
    let v = s.sample();
    assert_eq!(v, p1);
    assert_eq!(s.seed, v);
    let next = s.peek();
    assert_eq!(next, khash(v));
}

#[test]
fn isqrt_values() {
    assert_eq!(isqrt(0), 0);
    assert_eq!(isqrt(1), 1);
    assert_eq!(isqrt(24), 4);
    assert_eq!(isqrt(25), 5);
    assert_eq!(isqrt(u128::MAX), u64::MAX as u128);
}

#[test]
fn vec2_magnitude_dist_normalize_lerp() {
    let v = Vec2 { x: 3, y: 4 };
    assert_eq!(v.magnitude(), 5);
    let a = Vec2 { x: 1, y: 2 };
    let b = Vec2 { x: 4, y: 6 };
    assert_eq!(a.dist(b), 5);
    let n = Vec2 { x: 300, y: 400 }.normalize();
    assert_eq!(n, Vec2 { x: 60_000_000, y: 80_000_000 });
    let z = Vec2 { x: 0, y: 0 }.normalize();
    assert_eq!(z, Vec2 { x: 0, y: 0 });
    let l = Vec2 { x: 0, y: 0 }.lerp(Vec2 { x: 1000, y: 2000 }, 500);
    assert_eq!(l, Vec2 { x: 500, y: 1000 });
}

#[test]
fn rect_contains_snap_dilate_edges() {
    let r = Rect { x: 10, y: 10, w: 20, h: 20 };
    assert!(r.contains(Vec2 { x: 10, y: 30 }));
    assert!(r.contains(Vec2 { x: 20, y: 20 }));
    assert!(!r.contains(Vec2 { x: 9, y: 20 }));
    assert_eq!(r.left(), 10);
    assert_eq!(r.right(), 30);
    assert_eq!(r.bot(), 10);
    assert_eq!(r.top(), 30);
    let s = r.snap(Vec2 { x: 0, y: 40 });
    assert_eq!(s, Vec2 { x: 10, y: 30 });
    let inside = r.snap(Vec2 { x: 15, y: 15 });
    assert_eq!(inside, Vec2 { x: 15, y: 15 });
    let d = r.dilate(5);
    assert_eq!(d, Rect { x: 5, y: 5, w: 30, h: 30 });
}

#[test]
fn sd_rect_inside_negative_outside_floor() {
    let r = Rect { x: 10, y: 10, w: 20, h: 20 };
    // centre (20, 20); the origin is 20 past each face, 10 outside both.
    assert_eq!(sd_rect(Vec2 { x: 0, y: 0 }, &r), 14);
    assert_eq!(sd_rect(Vec2 { x: 20, y: 20 }, &r), -10);
    assert_eq!(sd_rect(Vec2 { x: 20, y: 0 }, &r), 10);
    assert_eq!(sd_rect(Vec2 { x: 10, y: 20 }, &r), 0);
}

#[test]
fn khash_avalanche_on_adjacent_seeds() {
    // Adjacent seeds should give uncorrelated outputs: about half of all
    // output bits set, and about half flipped between neighbours.
    let mut set_bits: u32 = 0;
    let mut flipped_bits: u32 = 0;
    for s in 0..1000u32 {
        set_bits += khash(s).count_ones();
        flipped_bits += (khash(s) ^ khash(s + 1)).count_ones();
    }
    assert!(15_000 <= set_bits && set_bits <= 17_000, "set bits {}", set_bits);
    assert!(15_000 <= flipped_bits && flipped_bits <= 17_000, "flipped bits {}", flipped_bits);
}
