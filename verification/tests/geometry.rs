//! The fixed-point geometry and the small state machines: square roots,
//! truncating division, normalization, overlap and reach tests, timers,
//! and saturating health.

use arena_core::geom::{
    capsule_hit, div_tr_64, isqrt_u128, normalize, overlaps, rotate, Vec2,
};
use arena_core::health::Health;
use arena_core::timer::{micros_of, Cooldown};

#[test]
fn isqrt_small_values() {
    assert_eq!(isqrt_u128(0), 0);
    assert_eq!(isqrt_u128(1), 1);
    assert_eq!(isqrt_u128(2), 1);
    assert_eq!(isqrt_u128(3), 1);
    assert_eq!(isqrt_u128(4), 2);
    assert_eq!(isqrt_u128(99), 9);
    assert_eq!(isqrt_u128(100), 10);
}

#[test]
fn isqrt_large_values() {
    assert_eq!(isqrt_u128(1_000_000_000_000), 1_000_000);
    assert_eq!(isqrt_u128(999_999_999_999), 999_999);
    let big: u128 = (1u128 << 64) - 1;
    let r = isqrt_u128(big * big);
    assert_eq!(r, big);
}

#[test]
fn division_truncates_toward_zero() {
    assert_eq!(div_tr_64(7, 2), 3);
    assert_eq!(div_tr_64(-7, 2), -3);
    assert_eq!(div_tr_64(0, 5), 0);
    assert_eq!(div_tr_64(-1, 1000), 0);
}

#[test]
fn normalize_pythagorean() {
    let u = normalize(Vec2 { x: 3000, y: 4000 });
    assert_eq!(u, Vec2 { x: 600, y: 800 });
}

#[test]
fn normalize_axis_and_zero() {
    assert_eq!(normalize(Vec2 { x: -100_000, y: 0 }), Vec2 { x: -1000, y: 0 });
    assert_eq!(normalize(Vec2 { x: 0, y: 0 }), Vec2 { x: 0, y: 0 });
}

#[test]
fn overlap_exact_boundary() {
    // squared distance 225 000 000 against (10 + 10 units)^2 = 400 000 000
    let a = Vec2 { x: 0, y: 0 };
    let b = Vec2 { x: 15_000, y: 0 };
    assert!(overlaps(a, 10_000, b, 10_000));
    // touching exactly counts as overlap
    let c = Vec2 { x: 20_000, y: 0 };
    assert!(overlaps(a, 10_000, c, 10_000));
    let d = Vec2 { x: 20_001, y: 0 };
    assert!(!overlaps(a, 10_000, d, 10_000));
}

#[test]
fn melee_reach_axis_boundary() {
    // cast 50 units, target radius 15 units: touching the far cap at
    // 65 units is a hit, one milli-unit further is not
    let a = Vec2 { x: 0, y: 0 };
    let f = Vec2 { x: 0, y: 1000 };
    assert!(capsule_hit(a, f, 50_000, Vec2 { x: 0, y: 65_000 }, 15_000));
    assert!(!capsule_hit(a, f, 50_000, Vec2 { x: 0, y: 65_001 }, 15_000));
}

#[test]
fn melee_reach_lateral_edge() {
    // a target beside the swept segment is caught up to its radius aside
    let a = Vec2 { x: 0, y: 0 };
    let f = Vec2 { x: 0, y: 1000 };
    assert!(capsule_hit(a, f, 50_000, Vec2 { x: 15_000, y: 25_000 }, 15_000));
    assert!(!capsule_hit(a, f, 50_000, Vec2 { x: 15_001, y: 25_000 }, 15_000));
}

#[test]
fn melee_reach_behind_origin() {
    // a target overlapping the attacker's origin is hit even behind it
    let a = Vec2 { x: 0, y: 0 };
    let f = Vec2 { x: 0, y: 1000 };
    assert!(capsule_hit(a, f, 50_000, Vec2 { x: 0, y: -10_000 }, 15_000));
    assert!(!capsule_hit(a, f, 50_000, Vec2 { x: 0, y: -20_000 }, 15_000));
}

#[test]
fn rotate_by_fan_angle() {
    let f = Vec2 { x: 0, y: 1000 };
    assert_eq!(rotate(f, 995, 98), Vec2 { x: -98, y: 995 });
    assert_eq!(rotate(f, 995, -98), Vec2 { x: 98, y: 995 });
}

#[test]
fn micros_of_sixtieth() {
    assert_eq!(micros_of(1, 60), 16_666);
    assert_eq!(micros_of(1, 1), 1_000_000);
    assert_eq!(micros_of(0, 60), 0);
}

#[test]
fn repeating_timer_zero_period_fires_every_tick() {
    let mut t = Cooldown::with_period(0, 0);
    assert!(t.tick_repeat(1));
    assert!(t.tick_repeat(0));
}

#[test]
fn repeating_timer_counts_down_and_rewinds() {
    let mut t = Cooldown::with_period(1_000_000, 1_000_000);
    assert!(!t.tick_repeat(16_666));
    assert_eq!(t.remaining_us, 983_334);
    assert!(t.tick_repeat(1_000_000));
    assert_eq!(t.remaining_us, 1_000_000);
}

#[test]
fn one_shot_cooldown_gates_until_reset() {
    let mut t = Cooldown::with_period(500_000, 500_000);
    t.tick_down(499_999);
    assert!(!t.is_ready());
    t.tick_down(1);
    assert!(t.is_ready());
    t.tick_down(1_000_000);
    assert!(t.is_ready());
    t.reset();
    assert!(!t.is_ready());
    assert_eq!(t.remaining_us, 500_000);
}

#[test]
fn damage_saturates_at_zero() {
    let mut h = Health(2);
    h.damage();
    assert_eq!(h.0, 1);
    h.damage();
    assert_eq!(h.0, 0);
    h.damage();
    assert_eq!(h.0, 0);
}
