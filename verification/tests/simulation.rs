//! The simulation passes: steering, attacks, collisions, score, sweep,
//! the spawn director, and whole ticks.

use arena_core::enemy::{
    fetch_positions, handle_attacks, handle_basic_attack, handle_health, movement, sep_term_at,
    snapshot_healths, Enemy, EnemyKind,
};
use arena_core::geom::Vec2;
use arena_core::health::Health;
use arena_core::player::{handle_hurt_events, move_player, turn_player, Player};
use arena_core::projectile::{check_collisions, move_projectile, Projectile, Team};
use arena_core::score::{reset_score, update_score, Score};
use arena_core::spark::{handle_punch, handle_ranged, handle_use};
use arena_core::spawn::{
    decide_spawn, ring_position, spawn_enemy, SpawnSample, SpawnSamples,
};
use arena_core::timer::Cooldown;
use arena_core::world::{tick, tick_with, TickInput, World};

fn still_projectile(pos: Vec2, radius: i64, team: Team) -> Projectile {
    Projectile { pos, facing: Vec2 { x: 0, y: 1000 }, speed: 0, team, radius }
}

fn quiet_samples() -> SpawnSamples {
    // trials at the top of the range: no spawn at any rate times dt <= 1
    SpawnSamples {
        basic: SpawnSample { trial: 999_999, dir_x: 1000, dir_y: 1000 },
        ranged: SpawnSample { trial: 999_999, dir_x: 1000, dir_y: 1000 },
    }
}

fn base_input() -> TickInput {
    TickInput {
        dt_num: 1,
        dt_den: 60,
        move_x: 0,
        move_y: 0,
        aim: Vec2 { x: 0, y: 100_000 },
        fire: false,
    }
}

#[test]
fn basic_archetype_attributes() {
    let e = Enemy::new(EnemyKind::Basic, Vec2 { x: 1, y: 2 }, 7);
    assert_eq!(e.health.0, 1);
    assert_eq!(e.radius, 15_000);
    assert_eq!(e.homing_force, 75);
    assert_eq!(e.separating_force, 75);
    assert_eq!(e.attack_timer.period_us, 0);
    assert_eq!(e.id, 7);
}

#[test]
fn ranged_archetype_attributes() {
    let e = Enemy::new(EnemyKind::Ranged, Vec2 { x: 0, y: 0 }, 1);
    assert_eq!(e.health.0, 2);
    assert_eq!(e.radius, 20_000);
    assert_eq!(e.homing_force, 60);
    assert_eq!(e.separating_force, 150);
    assert_eq!(e.attack_timer.period_us, 1_000_000);
}

#[test]
fn homing_moves_exactly_toward_player() {
    // one hostile at (100, 0) world units, homing force 75, dt = 1/60:
    // it closes exactly 75/60 = 1.25 units along the homing vector
    let mut es = vec![Enemy::new(EnemyKind::Basic, Vec2 { x: 100_000, y: 0 }, 0)];
    movement(&mut es, Vec2 { x: 0, y: 0 }, 1, 60);
    assert_eq!(es[0].pos, Vec2 { x: 98_750, y: 0 });
}

#[test]
fn coincident_pair_contributes_no_separation() {
    assert_eq!(
        sep_term_at(Vec2 { x: 100_000, y: 0 }, Vec2 { x: 100_000, y: 0 }),
        (0, 0)
    );
    // two hostiles on the same spot steer by pure homing, exactly alike
    let mut es = vec![
        Enemy::new(EnemyKind::Basic, Vec2 { x: 100_000, y: 0 }, 0),
        Enemy::new(EnemyKind::Basic, Vec2 { x: 100_000, y: 0 }, 1),
    ];
    movement(&mut es, Vec2 { x: 0, y: 0 }, 1, 60);
    assert_eq!(es[0].pos, Vec2 { x: 98_750, y: 0 });
    assert_eq!(es[1].pos, Vec2 { x: 98_750, y: 0 });
}

#[test]
fn separation_pushes_neighbours_apart() {
    // two hostiles two units apart on the x axis: the left one is pushed
    // further left than homing alone would carry it
    let player = Vec2 { x: 0, y: 100_000_0 };
    let mut alone = vec![Enemy::new(EnemyKind::Basic, Vec2 { x: -1_000, y: 0 }, 0)];
    let mut pair = vec![
        Enemy::new(EnemyKind::Basic, Vec2 { x: -1_000, y: 0 }, 0),
        Enemy::new(EnemyKind::Basic, Vec2 { x: 1_000, y: 0 }, 1),
    ];
    movement(&mut alone, player, 1, 60);
    movement(&mut pair, player, 1, 60);
    assert!(pair[0].pos.x < alone[0].pos.x);
}

#[test]
fn fetch_positions_in_order() {
    let es = vec![
        Enemy::new(EnemyKind::Basic, Vec2 { x: 5, y: 6 }, 0),
        Enemy::new(EnemyKind::Ranged, Vec2 { x: 7, y: 8 }, 1),
    ];
    let ps = fetch_positions(&es);
    assert_eq!(ps, vec![Vec2 { x: 5, y: 6 }, Vec2 { x: 7, y: 8 }]);
}

#[test]
fn contact_attack_needs_overlap() {
    let e = Enemy::new(EnemyKind::Basic, Vec2 { x: 30_000, y: 0 }, 0);
    // radii 15 + 19 units: touching at 34 units
    assert!(handle_basic_attack(&e, Vec2 { x: 0, y: 0 }, 19_000));
    let far = Enemy::new(EnemyKind::Basic, Vec2 { x: 34_001, y: 0 }, 1);
    assert!(!handle_basic_attack(&far, Vec2 { x: 0, y: 0 }, 19_000));
}

#[test]
fn attack_pass_emits_ranged_shot() {
    let mut es = vec![Enemy::new(EnemyKind::Ranged, Vec2 { x: 0, y: 200_000 }, 0)];
    let mut qs: Vec<Projectile> = Vec::new();
    // a full second elapses: the one-second cadence fires
    let hurt = handle_attacks(&mut es, Vec2 { x: 0, y: 0 }, 19_000, 1_000_000, &mut qs);
    assert!(!hurt);
    assert_eq!(qs.len(), 1);
    assert_eq!(qs[0].pos, Vec2 { x: 0, y: 200_000 });
    assert_eq!(qs[0].facing, Vec2 { x: 0, y: -1000 });
    assert_eq!(qs[0].speed, 150);
    assert_eq!(qs[0].team, Team::Hostile);
    assert_eq!(qs[0].radius, 10_000);
    // and the timer is wound back to its period
    assert_eq!(es[0].attack_timer.remaining_us, 1_000_000);
}

#[test]
fn attack_pass_contact_hurts_player() {
    let mut es = vec![Enemy::new(EnemyKind::Basic, Vec2 { x: 20_000, y: 0 }, 0)];
    let mut qs: Vec<Projectile> = Vec::new();
    let hurt = handle_attacks(&mut es, Vec2 { x: 0, y: 0 }, 19_000, 16_666, &mut qs);
    assert!(hurt);
    assert_eq!(qs.len(), 0);
}

#[test]
fn projectile_flies_along_facing() {
    let mut qs = vec![Projectile {
        pos: Vec2 { x: 0, y: 0 },
        facing: Vec2 { x: 0, y: 1000 },
        speed: 600,
        team: Team::Friendly,
        radius: 9_500,
    }];
    move_projectile(&mut qs, 1, 60);
    // 600 units per second over a sixtieth: 10 units straight up
    assert_eq!(qs[0].pos, Vec2 { x: 0, y: 10_000 });
}

#[test]
fn collision_hit_removes_projectile_and_damages() {
    // a friendly projectile of radius 10 at the origin against a hostile
    // of radius 10 at (15, 0): (10 + 10)^2 = 400 >= 15^2 = 225, a hit
    let mut qs = vec![still_projectile(Vec2 { x: 0, y: 0 }, 10_000, Team::Friendly)];
    let mut es = vec![Enemy::new(EnemyKind::Ranged, Vec2 { x: 15_000, y: 0 }, 0)];
    es[0].radius = 10_000;
    let hurt = check_collisions(&mut qs, &mut es, Vec2 { x: 500_000, y: 0 }, 19_000);
    assert!(!hurt);
    assert_eq!(qs.len(), 0);
    assert_eq!(es[0].health.0, 1);
}

#[test]
fn projectile_damages_only_first_target() {
    let mut qs = vec![still_projectile(Vec2 { x: 0, y: 0 }, 9_500, Team::Friendly)];
    let mut es = vec![
        Enemy::new(EnemyKind::Basic, Vec2 { x: 10_000, y: 0 }, 0),
        Enemy::new(EnemyKind::Basic, Vec2 { x: -10_000, y: 0 }, 1),
    ];
    check_collisions(&mut qs, &mut es, Vec2 { x: 500_000, y: 0 }, 19_000);
    assert_eq!(qs.len(), 0);
    assert_eq!(es[0].health.0, 0);
    assert_eq!(es[1].health.0, 1);
}

#[test]
fn two_projectiles_damage_same_target_independently() {
    let mut qs = vec![
        still_projectile(Vec2 { x: 0, y: 0 }, 9_500, Team::Friendly),
        still_projectile(Vec2 { x: 1_000, y: 0 }, 9_500, Team::Friendly),
    ];
    let mut es = vec![Enemy::new(EnemyKind::Ranged, Vec2 { x: 10_000, y: 0 }, 0)];
    check_collisions(&mut qs, &mut es, Vec2 { x: 500_000, y: 0 }, 19_000);
    assert_eq!(qs.len(), 0);
    assert_eq!(es[0].health.0, 0);
}

#[test]
fn hostile_projectile_signals_player_hit() {
    let mut qs = vec![still_projectile(Vec2 { x: 10_000, y: 0 }, 10_000, Team::Hostile)];
    let mut es: Vec<Enemy> = Vec::new();
    let hurt = check_collisions(&mut qs, &mut es, Vec2 { x: 0, y: 0 }, 19_000);
    assert!(hurt);
    assert_eq!(qs.len(), 0);
}

#[test]
fn miss_keeps_projectile() {
    let mut qs = vec![still_projectile(Vec2 { x: 0, y: 0 }, 9_500, Team::Friendly)];
    let mut es = vec![Enemy::new(EnemyKind::Basic, Vec2 { x: 100_000, y: 0 }, 0)];
    let hurt = check_collisions(&mut qs, &mut es, Vec2 { x: 500_000, y: 0 }, 19_000);
    assert!(!hurt);
    assert_eq!(qs.len(), 1);
    assert_eq!(es[0].health.0, 1);
}

#[test]
fn score_counts_hurt_survivors_only() {
    let mut sc = Score { score: 0, high_score: 0 };
    let mut es = vec![
        Enemy::new(EnemyKind::Ranged, Vec2 { x: 0, y: 0 }, 0),
        Enemy::new(EnemyKind::Basic, Vec2 { x: 0, y: 0 }, 1),
        Enemy::new(EnemyKind::Ranged, Vec2 { x: 0, y: 0 }, 2),
    ];
    let snap = snapshot_healths(&es);
    es[0].health = Health(1); // hurt, survived: scores
    es[1].health = Health(0); // killed outright: no score
    let n = update_score(&mut sc, &es, &snap);
    assert_eq!(n, 1);
    assert_eq!(sc.score, 1);
    assert_eq!(sc.high_score, 1);
}

#[test]
fn high_water_mark_survives_reset() {
    let mut sc = Score { score: 3, high_score: 5 };
    reset_score(&mut sc);
    assert_eq!(sc.score, 0);
    assert_eq!(sc.high_score, 5);
}

#[test]
fn sweep_removes_dead_and_enqueues_kinds() {
    let mut es = vec![
        Enemy::new(EnemyKind::Basic, Vec2 { x: 0, y: 0 }, 0),
        Enemy::new(EnemyKind::Ranged, Vec2 { x: 0, y: 0 }, 1),
    ];
    es[0].health = Health(0);
    let mut sparks = std::collections::VecDeque::new();
    let killed = handle_health(&mut es, &mut sparks);
    assert_eq!(killed, 1);
    assert_eq!(es.len(), 1);
    assert_eq!(es[0].id, 1);
    assert_eq!(sparks, std::collections::VecDeque::from(vec![EnemyKind::Basic]));
}

#[test]
fn kill_round_trip_scores_nothing_and_charges_one_spark() {
    // spawn one basic hostile, kill it with a single projectile hit:
    // the score gains nothing, the sweep removes it the same tick, and
    // exactly one charge of its kind is enqueued
    let mut sc = Score { score: 0, high_score: 0 };
    let mut es = vec![Enemy::new(EnemyKind::Basic, Vec2 { x: 15_000, y: 0 }, 0)];
    let snap = snapshot_healths(&es);
    let mut qs = vec![still_projectile(Vec2 { x: 0, y: 0 }, 9_500, Team::Friendly)];
    check_collisions(&mut qs, &mut es, Vec2 { x: 500_000, y: 0 }, 19_000);
    assert_eq!(es[0].health.0, 0);
    let n = update_score(&mut sc, &es, &snap);
    assert_eq!(n, 0);
    assert_eq!(sc.score, 0);
    let mut sparks = std::collections::VecDeque::new();
    let killed = handle_health(&mut es, &mut sparks);
    assert_eq!(killed, 1);
    assert!(es.is_empty());
    assert_eq!(sparks, std::collections::VecDeque::from(vec![EnemyKind::Basic]));
}

#[test]
fn player_moves_by_intent() {
    let mut p = Player::new();
    move_player(&mut p, 1, 0, 1, 1);
    assert_eq!(p.pos, Vec2 { x: 300_000, y: 0 });
    move_player(&mut p, 0, 0, 1, 1);
    assert_eq!(p.pos, Vec2 { x: 300_000, y: 0 });
}

#[test]
fn player_turns_toward_aim() {
    let mut p = Player::new();
    turn_player(&mut p, Vec2 { x: 0, y: -500_000 });
    assert_eq!(p.facing, Vec2 { x: 0, y: -1000 });
    // aiming at the player's own position turns nobody
    turn_player(&mut p, Vec2 { x: 0, y: 0 });
    assert_eq!(p.facing, Vec2 { x: 0, y: -1000 });
}

#[test]
fn hurt_gated_by_invulnerability_window() {
    let mut p = Player::new();
    let (applied, over) = handle_hurt_events(&mut p, true, 500_000);
    assert!(applied);
    assert!(!over);
    assert_eq!(p.health.0, 2);
    // within the fresh window, a second hit does not land
    let (applied2, _) = handle_hurt_events(&mut p, true, 1);
    assert!(!applied2);
    assert_eq!(p.health.0, 2);
}

#[test]
fn game_over_at_zero_health() {
    let mut p = Player::new();
    p.health = Health(1);
    let (applied, over) = handle_hurt_events(&mut p, true, 500_000);
    assert!(applied);
    assert!(over);
    assert_eq!(p.health.0, 0);
}

#[test]
fn punch_damages_reached_hostiles() {
    let mut p = Player::new();
    p.punch_cooldown = Cooldown { remaining_us: 0, period_us: 500_000 };
    let mut es = vec![
        Enemy::new(EnemyKind::Basic, Vec2 { x: 0, y: 60_000 }, 0),
        Enemy::new(EnemyKind::Basic, Vec2 { x: 0, y: -100_000 }, 1),
    ];
    handle_punch(&mut p, &mut es);
    assert_eq!(es[0].health.0, 0);
    assert_eq!(es[1].health.0, 1);
    assert_eq!(p.punch_cooldown.remaining_us, 500_000);
}

#[test]
fn punch_waits_for_cooldown() {
    let mut p = Player::new();
    let mut es = vec![Enemy::new(EnemyKind::Basic, Vec2 { x: 0, y: 30_000 }, 0)];
    handle_punch(&mut p, &mut es);
    assert_eq!(es[0].health.0, 1);
}

#[test]
fn spread_charge_fires_three() {
    let p = Player::new();
    let mut qs: Vec<Projectile> = Vec::new();
    handle_ranged(&p, &mut qs);
    assert_eq!(qs.len(), 3);
    assert_eq!(qs[0].facing, Vec2 { x: 0, y: 1000 });
    assert_eq!(qs[1].facing, Vec2 { x: 98, y: 995 });
    assert_eq!(qs[2].facing, Vec2 { x: -98, y: 995 });
    assert!(qs.iter().all(|q| q.team == Team::Friendly && q.speed == 600 && q.radius == 9_500));
}

#[test]
fn attack_input_consumes_queue_front() {
    let mut p = Player::new();
    p.sparks.0.push_back(EnemyKind::Ranged);
    p.sparks.0.push_back(EnemyKind::Basic);
    let mut es: Vec<Enemy> = Vec::new();
    let mut qs: Vec<Projectile> = Vec::new();
    handle_use(&mut p, &mut es, &mut qs, true);
    assert_eq!(qs.len(), 3);
    handle_use(&mut p, &mut es, &mut qs, true);
    assert_eq!(qs.len(), 4);
    assert!(p.sparks.0.is_empty());
    // without the fire edge nothing happens
    handle_use(&mut p, &mut es, &mut qs, false);
    assert_eq!(qs.len(), 4);
}

#[test]
fn empty_queue_resolves_to_punch() {
    let mut p = Player::new();
    p.punch_cooldown = Cooldown { remaining_us: 0, period_us: 500_000 };
    let mut es = vec![Enemy::new(EnemyKind::Basic, Vec2 { x: 0, y: 40_000 }, 0)];
    let mut qs: Vec<Projectile> = Vec::new();
    handle_use(&mut p, &mut es, &mut qs, true);
    assert_eq!(qs.len(), 0);
    assert_eq!(es[0].health.0, 0);
}

#[test]
fn zero_rate_never_spawns() {
    for trial in [0u64, 1, 500_000, 999_999] {
        assert!(!decide_spawn(0, 1_000_000, 1, trial));
    }
}

#[test]
fn rate_times_dt_decides_trial() {
    // rate 1 spawn/s over a full second: every trial passes
    assert!(decide_spawn(1000, 1, 1, 999_999));
    // over a sixtieth: only the low sixtieth of trials passes
    assert!(decide_spawn(1000, 1, 60, 16_666));
    assert!(!decide_spawn(1000, 1, 60, 16_667));
}

#[test]
fn ring_positions_sit_on_the_ring() {
    assert_eq!(ring_position(2000, 1000), Vec2 { x: 600_000, y: 0 });
    assert_eq!(ring_position(1000, 1000), Vec2 { x: 0, y: 600_000 });
    let v = ring_position(1001, 1001);
    let d2 = v.x * v.x + v.y * v.y;
    assert!(d2 >= 595_000i64 * 595_000 && d2 <= 601_000i64 * 601_000);
}

#[test]
fn director_spawns_by_trial_and_caps_ranged_by_score() {
    let mut es: Vec<Enemy> = Vec::new();
    let mut next_id: u64 = 5;
    let samples = SpawnSamples {
        basic: SpawnSample { trial: 0, dir_x: 2000, dir_y: 1000 },
        ranged: SpawnSample { trial: 0, dir_x: 1000, dir_y: 1000 },
    };
    // score zero: the ranged rate is zero, only the basic kind can enter
    spawn_enemy(&mut es, &Score { score: 0, high_score: 0 }, &mut next_id, 1, 1, samples);
    assert_eq!(es.len(), 1);
    assert_eq!(es[0].kind, EnemyKind::Basic);
    assert_eq!(es[0].pos, Vec2 { x: 600_000, y: 0 });
    assert_eq!(es[0].id, 5);
    assert_eq!(next_id, 6);
    // with score, both kinds enter on winning trials
    spawn_enemy(&mut es, &Score { score: 50, high_score: 50 }, &mut next_id, 1, 1, samples);
    assert_eq!(es.len(), 3);
    assert_eq!(es[2].kind, EnemyKind::Ranged);
    assert_eq!(es[2].id, 7);
}

#[test]
fn full_tick_spawns_steers_and_leaves_player_alone() {
    let mut w = World::new();
    let samples = SpawnSamples {
        basic: SpawnSample { trial: 0, dir_x: 2000, dir_y: 1000 },
        ranged: SpawnSample { trial: 0, dir_x: 1000, dir_y: 1000 },
    };
    let inp = TickInput { dt_num: 1, dt_den: 1, ..base_input() };
    let ev = tick_with(&mut w, inp, samples);
    // the basic hostile entered at (600, 0) and homed 75 units inward
    assert_eq!(w.enemies.len(), 1);
    assert_eq!(w.enemies[0].pos, Vec2 { x: 525_000, y: 0 });
    assert_eq!(w.enemies[0].health.0, 1);
    assert!(!ev.player_hurt);
    assert!(!ev.game_over);
    assert_eq!(ev.hostiles_hurt, 0);
    assert_eq!(ev.hostiles_killed, 0);
    assert_eq!(w.score.score, 0);
    assert_eq!(w.player.health.0, 3);
}

#[test]
fn quiet_tick_changes_nothing_visible() {
    let mut w = World::new();
    let ev = tick_with(&mut w, base_input(), quiet_samples());
    assert_eq!(w.enemies.len(), 0);
    assert_eq!(w.projectiles.len(), 0);
    assert!(!ev.player_hurt && !ev.game_over);
    assert_eq!(w.player.pos, Vec2 { x: 0, y: 0 });
}

#[test]
fn random_tick_with_full_second_always_spawns_basic() {
    // the basic rate of one spawn per second over a full second passes
    // every in-range trial, so a spawn is certain; the score is zero, so
    // no ranged hostile can appear
    let mut w = World::new();
    let inp = TickInput { dt_num: 1, dt_den: 1, ..base_input() };
    let ev = tick(&mut w, inp);
    assert_eq!(w.enemies.len(), 1);
    assert_eq!(w.enemies[0].kind, EnemyKind::Basic);
    let v = w.enemies[0].pos;
    let d2 = v.x * v.x + v.y * v.y;
    // spawned on the ring at 600 units, then homed 75 units inward
    assert!(d2 >= 515_000i64 * 515_000 && d2 <= 535_000i64 * 535_000);
    assert!(!ev.game_over);
}

#[test]
fn tick_kill_enqueues_spark_same_tick() {
    // the player spends a basic charge on a hostile one shot from death:
    // within a single tick the shot lands, the hostile is swept away, the
    // kill scores nothing, and one charge of its kind is enqueued
    let mut w = World::new();
    w.enemies.push(Enemy::new(EnemyKind::Basic, Vec2 { x: 0, y: 20_000 }, 0));
    w.next_id = 1;
    w.player.sparks.0.push_back(EnemyKind::Basic);
    let inp = TickInput { fire: true, ..base_input() };
    let ev = tick_with(&mut w, inp, quiet_samples());
    assert_eq!(ev.hostiles_killed, 1);
    assert_eq!(ev.hostiles_hurt, 0);
    assert_eq!(w.score.score, 0);
    assert!(w.enemies.is_empty());
    assert!(w.projectiles.is_empty());
    assert_eq!(
        w.player.sparks.0,
        std::collections::VecDeque::from(vec![EnemyKind::Basic])
    );
    // the contact hit of the dying hostile fell inside the player's
    // starting invulnerability window
    assert!(!ev.player_hurt);
    assert_eq!(w.player.health.0, 3);
}

#[test]
fn hostile_health_never_rises_across_ticks() {
    let mut w = World::new();
    w.enemies.push(Enemy::new(EnemyKind::Ranged, Vec2 { x: 300_000, y: 0 }, 0));
    w.next_id = 1;
    let mut previous = vec![(0u64, 2usize)];
    for _ in 0..120 {
        tick(&mut w, TickInput { fire: true, ..base_input() });
        for e in w.enemies.iter() {
            if let Some(&(_, old_h)) = previous.iter().find(|&&(id, _)| id == e.id) {
                assert!(e.health.0 <= old_h);
            }
        }
        previous = w.enemies.iter().map(|e| (e.id, e.health.0)).collect();
    }
}
