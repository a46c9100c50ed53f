//! The world state store and the per-tick update: spawn, steer, attack,
//! resolve collisions, score, apply hurt, and sweep the dead, strictly in
//! that order every tick.

use vstd::prelude::*;
use crate::geom::{Vec2, in_box, capsule_hits, rotated, POS_LIMIT};
use crate::timer::{Cooldown, micros_s, micros_of};
use crate::health::{Health, sat_sub1, sat_minus};
use crate::enemy::{
    Enemy, EnemyKind, enemy_wf, moved_all, ticked_enemy, contact_hit, ranged_shots, alive_enemies,
    killed_kinds, healths_of, positions_of, moved_enemy, lemma_alive_sub, movement, handle_attacks,
    handle_health, snapshot_healths, MAX_ENEMIES,
};
use crate::player::{
    Player, player_wf, moved_player_pos, turned_facing, move_player, turn_player,
    handle_hurt_events,
};
use crate::projectile::{
    Projectile, Team, projectile_wf, moved_all_projectiles, surviving, hits_on, hostile_hits,
    move_projectile, check_collisions,
};
use crate::score::{Score, hurt_count, update_score};
use crate::spark::{popped_spark, handle_use, FAN_COS, FAN_SIN};
use crate::spawn::{SpawnSamples, samples_ok, spawn_batch, draw_samples, spawn_enemy};

verus! {

/// What the outside hands the core for one tick: the elapsed duration
/// `dt_num / dt_den` seconds, the movement intent, the aim point, and the
/// fire edge.
#[derive(Clone, Copy, PartialEq, Eq, Structural, Debug)]
pub struct TickInput {
    pub dt_num: u32,
    pub dt_den: u32,
    pub move_x: i64,
    pub move_y: i64,
    pub aim: Vec2,
    pub fire: bool,
}

/// A tick input the core accepts: a positive bounded duration, a small
/// intent vector, the aim inside the world box.
pub open spec fn input_wf(inp: TickInput) -> bool {
    &&& inp.dt_num <= 1_000_000
    &&& 1 <= inp.dt_den <= 1_000_000
    &&& -10 <= inp.move_x <= 10
    &&& -10 <= inp.move_y <= 10
    &&& in_box(inp.aim, POS_LIMIT as int)
}

/// What one tick reports to the outside: whether the player was hurt,
/// whether the session ended, how many hostiles were hurt but survived
/// (the score gain), and how many were removed.
#[derive(Clone, Copy, PartialEq, Eq, Structural, Debug)]
pub struct TickEvents {
    pub player_hurt: bool,
    pub game_over: bool,
    pub hostiles_hurt: usize,
    pub hostiles_killed: usize,
}

/// The world state store: the one player, the hostiles, the projectiles
/// in flight, the session score, and the id counter for spawned hostiles.
pub struct World {
    pub player: Player,
    pub enemies: Vec<Enemy>,
    pub projectiles: Vec<Projectile>,
    pub score: Score,
    pub next_id: u64,
}

/// Hostile ids strictly increase along the list.
pub open spec fn ids_sorted(es: Seq<Enemy>) -> bool {
    forall|a: int, b: int| 0 <= a < b < es.len() ==> #[trigger] es[a].id < #[trigger] es[b].id
}

/// Every hostile id lies below the bound.
pub open spec fn ids_below(es: Seq<Enemy>, bound: int) -> bool {
    forall|a: int| 0 <= a < es.len() ==> (#[trigger] es[a].id as int) < bound
}

/// Well-formed world: a well-formed player, well-formed hostiles and
/// projectiles, the hostile count within capacity, and hostile ids
/// strictly increasing and below the id counter.
pub open spec fn world_wf(w: World) -> bool {
    &&& player_wf(w.player)
    &&& forall|i: int| 0 <= i < w.enemies@.len() ==> enemy_wf(#[trigger] w.enemies@[i])
    &&& forall|i: int| 0 <= i < w.projectiles@.len() ==> projectile_wf(#[trigger] w.projectiles@[i])
    &&& w.enemies@.len() <= MAX_ENEMIES
    &&& ids_sorted(w.enemies@)
    &&& ids_below(w.enemies@, w.next_id as int)
}

impl World {
    /// The world at session start: the player alone at the origin, no
    /// hostiles, no projectiles, score zero.
    pub fn new() -> (w: World)
        ensures
            w.enemies@ == Seq::<Enemy>::empty(),
            w.projectiles@ == Seq::<Projectile>::empty(),
            w.score == (Score { score: 0, high_score: 0 }),
            w.next_id == 0,
            w.player.pos == (Vec2 { x: 0, y: 0 }),
            w.player.health == Health(3),
            w.player.sparks.0@ == Seq::<EnemyKind>::empty(),
            world_wf(w),
    {
        World {
            player: Player::new(),
            enemies: Vec::new(),
            projectiles: Vec::new(),
            score: Score { score: 0, high_score: 0 },
            next_id: 0,
        }
    }
}

/// This tick's spawn batch.
pub open spec fn tick_batch(w: World, inp: TickInput, s: SpawnSamples) -> Seq<Enemy> {
    spawn_batch(
        w.enemies@.len() as int,
        w.score.score as int,
        w.next_id as int,
        inp.dt_num as int,
        inp.dt_den as int,
        s,
    )
}

/// The hostiles after the spawn phase.
pub open spec fn tick_spawned(w: World, inp: TickInput, s: SpawnSamples) -> Seq<Enemy> {
    w.enemies@ + tick_batch(w, inp, s)
}

/// The health snapshot against which this tick's score is counted.
pub open spec fn tick_snap(w: World, inp: TickInput, s: SpawnSamples) -> Seq<usize> {
    healths_of(tick_spawned(w, inp, s))
}

/// The hostiles after the steering phase.
pub open spec fn tick_moved(w: World, inp: TickInput, s: SpawnSamples) -> Seq<Enemy> {
    moved_all(tick_spawned(w, inp, s), w.player.pos, inp.dt_num as int, inp.dt_den as int)
}

/// The player's position after the movement phase.
pub open spec fn tick_ppos(w: World, inp: TickInput) -> Vec2 {
    let m = moved_player_pos(
        w.player.pos,
        inp.move_x as int,
        inp.move_y as int,
        w.player.move_speed as int,
        inp.dt_num as int,
        inp.dt_den as int,
    );
    Vec2 { x: m.0 as i64, y: m.1 as i64 }
}

/// The player's facing after turning toward the aim point.
pub open spec fn tick_pfacing(w: World, inp: TickInput) -> Vec2 {
    let t = turned_facing(tick_ppos(w, inp), w.player.facing, inp.aim);
    Vec2 { x: t.0 as i64, y: t.1 as i64 }
}

/// The projectiles after their movement phase.
pub open spec fn tick_qmoved(w: World, inp: TickInput) -> Seq<Projectile> {
    moved_all_projectiles(w.projectiles@, inp.dt_num as int, inp.dt_den as int)
}

/// The elapsed tick duration in microseconds.
pub open spec fn tick_dt_us(inp: TickInput) -> u64 {
    micros_s(inp.dt_num as int, inp.dt_den as int) as u64
}

/// The hostiles after their attack timers ticked.
pub open spec fn tick_ticked(w: World, inp: TickInput, s: SpawnSamples) -> Seq<Enemy> {
    Seq::new(
        tick_moved(w, inp, s).len(),
        |k: int| ticked_enemy(tick_moved(w, inp, s)[k], tick_dt_us(inp)),
    )
}

/// Whether some melee hostile's contact attack lands on the player this
/// tick.
pub open spec fn tick_contact(w: World, inp: TickInput, s: SpawnSamples) -> bool {
    exists|k: int|
        0 <= k < tick_moved(w, inp, s).len() && contact_hit(
            #[trigger] tick_moved(w, inp, s)[k],
            tick_dt_us(inp),
            tick_ppos(w, inp),
            w.player.radius as int,
        )
}

/// The projectiles after the hostile attack phase appended its shots.
pub open spec fn tick_qshots(w: World, inp: TickInput, s: SpawnSamples) -> Seq<Projectile> {
    tick_qmoved(w, inp) + ranged_shots(tick_moved(w, inp, s), tick_dt_us(inp), tick_ppos(w, inp))
}

/// The punch cooldown after its per-tick countdown.
pub open spec fn tick_pcd1(w: World, inp: TickInput) -> Cooldown {
    w.player.punch_cooldown.after_down_tick(tick_dt_us(inp))
}

/// Whether this tick's attack input resolves to the punch and the punch
/// cooldown has elapsed.
pub open spec fn tick_punch_ready(w: World, inp: TickInput) -> bool {
    inp.fire && w.player.sparks.0@.len() == 0 && tick_pcd1(w, inp).remaining_us == 0
}

/// Whether the punch reaches the hostile `e` this tick.
pub open spec fn tick_punch_hits(w: World, inp: TickInput, e: Enemy) -> bool {
    capsule_hits(
        tick_ppos(w, inp),
        tick_pfacing(w, inp),
        w.player.punch_distance as int,
        e.pos,
        e.radius as int,
    )
}

/// The hostiles after the player's attack: when the punch fires, every
/// hostile in its reach loses one health point.
pub open spec fn tick_punched(w: World, inp: TickInput, s: SpawnSamples) -> Seq<Enemy> {
    if tick_punch_ready(w, inp) {
        Seq::new(
            tick_ticked(w, inp, s).len(),
            |k: int|
                if tick_punch_hits(w, inp, tick_ticked(w, inp, s)[k]) {
                    Enemy {
                        health: Health(sat_sub1(tick_ticked(w, inp, s)[k].health.0 as int) as usize),
                        ..tick_ticked(w, inp, s)[k]
                    }
                } else {
                    tick_ticked(w, inp, s)[k]
                },
        )
    } else {
        tick_ticked(w, inp, s)
    }
}

/// Whether the punch fired and reached anything.
pub open spec fn tick_any_punch(w: World, inp: TickInput, s: SpawnSamples) -> bool {
    tick_punch_ready(w, inp) && exists|k: int|
        0 <= k < tick_ticked(w, inp, s).len() && tick_punch_hits(
            w,
            inp,
            #[trigger] tick_ticked(w, inp, s)[k],
        )
}

/// The punch cooldown after the player's attack: rewound when the punch
/// fired and reached something.
pub open spec fn tick_pcd2(w: World, inp: TickInput, s: SpawnSamples) -> Cooldown {
    if tick_any_punch(w, inp, s) {
        Cooldown {
            remaining_us: tick_pcd1(w, inp).period_us,
            period_us: tick_pcd1(w, inp).period_us,
        }
    } else {
        tick_pcd1(w, inp)
    }
}

/// The Sparks queue after the attack input consumed its front.
pub open spec fn tick_sparks_used(w: World, inp: TickInput) -> Seq<EnemyKind> {
    if inp.fire && w.player.sparks.0@.len() > 0 {
        w.player.sparks.0@.skip(1)
    } else {
        w.player.sparks.0@
    }
}

/// The projectile the single-shot charge fires this tick.
pub open spec fn tick_center_shot(w: World, inp: TickInput) -> Projectile {
    Projectile {
        pos: tick_ppos(w, inp),
        facing: tick_pfacing(w, inp),
        speed: 600,
        team: Team::Friendly,
        radius: 9_500,
    }
}

/// A spread projectile of this tick: the player's facing rotated by the
/// given per-mille cosine and sine.
pub open spec fn tick_spread_shot(w: World, inp: TickInput, cos_m: int, sin_m: int) -> Projectile {
    let f = rotated(tick_pfacing(w, inp), cos_m, sin_m);
    Projectile {
        pos: tick_ppos(w, inp),
        facing: Vec2 { x: f.0 as i64, y: f.1 as i64 },
        speed: 600,
        team: Team::Friendly,
        radius: 9_500,
    }
}

/// The projectiles after the player's attack appended its shots.
pub open spec fn tick_qused(w: World, inp: TickInput, s: SpawnSamples) -> Seq<Projectile> {
    if inp.fire && popped_spark(w.player.sparks.0@) == Option::Some(EnemyKind::Basic) {
        tick_qshots(w, inp, s).push(tick_center_shot(w, inp))
    } else if inp.fire && popped_spark(w.player.sparks.0@) == Option::Some(EnemyKind::Ranged) {
        tick_qshots(w, inp, s) + seq![
            tick_center_shot(w, inp),
            tick_spread_shot(w, inp, FAN_COS as int, -(FAN_SIN as int)),
            tick_spread_shot(w, inp, FAN_COS as int, FAN_SIN as int),
        ]
    } else {
        tick_qshots(w, inp, s)
    }
}

/// The projectiles that survive the collision pass.
pub open spec fn tick_qsurv(w: World, inp: TickInput, s: SpawnSamples) -> Seq<Projectile> {
    surviving(tick_qused(w, inp, s), tick_punched(w, inp, s), tick_ppos(w, inp), w.player.radius as int)
}

/// The hostiles after projectile damage landed.
pub open spec fn tick_damaged(w: World, inp: TickInput, s: SpawnSamples) -> Seq<Enemy> {
    Seq::new(
        tick_punched(w, inp, s).len(),
        |j: int|
            Enemy {
                health: Health(
                    sat_minus(
                        tick_punched(w, inp, s)[j].health.0 as int,
                        hits_on(tick_qused(w, inp, s), tick_punched(w, inp, s), j),
                    ) as usize,
                ),
                ..tick_punched(w, inp, s)[j]
            },
    )
}

/// Whether some hostile projectile overlaps the player this tick.
pub open spec fn tick_proj_hurt(w: World, inp: TickInput, s: SpawnSamples) -> bool {
    hostile_hits(tick_qused(w, inp, s), tick_ppos(w, inp), w.player.radius as int) > 0
}

/// This tick's score gain: the hostiles that lost health against the
/// snapshot and survived.
pub open spec fn tick_hurt_n(w: World, inp: TickInput, s: SpawnSamples) -> int {
    hurt_count(tick_damaged(w, inp, s), tick_snap(w, inp, s), tick_damaged(w, inp, s).len() as int)
}

/// The score after this tick's gain, saturating at the counter's ceiling,
/// with the high-water mark raised when exceeded.
pub open spec fn tick_score(w: World, inp: TickInput, s: SpawnSamples) -> Score {
    let gained = if w.score.score + tick_hurt_n(w, inp, s) <= usize::MAX {
        (w.score.score + tick_hurt_n(w, inp, s)) as usize
    } else {
        usize::MAX
    };
    Score {
        score: gained,
        high_score: if gained > w.score.high_score {
            gained
        } else {
            w.score.high_score
        },
    }
}

/// Whether a hit on the player was signalled this tick, by a contact
/// attack or a hostile projectile.
pub open spec fn tick_pending(w: World, inp: TickInput, s: SpawnSamples) -> bool {
    tick_contact(w, inp, s) || tick_proj_hurt(w, inp, s)
}

/// The hurt cooldown after its per-tick countdown.
pub open spec fn tick_hcd1(w: World, inp: TickInput) -> Cooldown {
    w.player.hurt_cooldown.after_down_tick(tick_dt_us(inp))
}

/// Whether the signalled hit lands: the hurt cooldown has elapsed and a
/// hit was signalled.
pub open spec fn tick_applied(w: World, inp: TickInput, s: SpawnSamples) -> bool {
    tick_hcd1(w, inp).remaining_us == 0 && tick_pending(w, inp, s)
}

/// The player's health after the hurt pass.
pub open spec fn tick_phealth(w: World, inp: TickInput, s: SpawnSamples) -> int {
    if tick_applied(w, inp, s) {
        sat_sub1(w.player.health.0 as int)
    } else {
        w.player.health.0 as int
    }
}

/// The hurt cooldown after the hurt pass: rewound when the hit landed.
pub open spec fn tick_hcd2(w: World, inp: TickInput, s: SpawnSamples) -> Cooldown {
    if tick_applied(w, inp, s) {
        Cooldown {
            remaining_us: w.player.hurt_cooldown.period_us,
            period_us: w.player.hurt_cooldown.period_us,
        }
    } else {
        tick_hcd1(w, inp)
    }
}

/// The hostiles that survive the sweep.
pub open spec fn tick_enemies_final(w: World, inp: TickInput, s: SpawnSamples) -> Seq<Enemy> {
    alive_enemies(tick_damaged(w, inp, s))
}

/// The Sparks queue after the sweep enqueued the killed hostiles' kinds.
pub open spec fn tick_sparks_final(w: World, inp: TickInput, s: SpawnSamples) -> Seq<EnemyKind> {
    tick_sparks_used(w, inp) + killed_kinds(tick_damaged(w, inp, s))
}

/// One tick of the simulation, with this tick's randomness handed in.
/// The phases run strictly in the order: spawn, snapshot, steer hostiles,
/// move and turn the player, move projectiles, hostile attacks, player
/// attack, collision resolution, score, hurt, sweep.
#[verifier::rlimit(100)]
pub fn tick_with(w: &mut World, inp: TickInput, samples: SpawnSamples) -> (ev: TickEvents)
    requires
        world_wf(*old(w)),
        input_wf(inp),
        samples_ok(samples),
    ensures
        final(w).enemies@ == tick_enemies_final(*old(w), inp, samples),
        final(w).projectiles@ == tick_qsurv(*old(w), inp, samples),
        final(w).score == tick_score(*old(w), inp, samples),
        final(w).next_id as int == old(w).next_id + tick_batch(*old(w), inp, samples).len(),
        final(w).player.pos == tick_ppos(*old(w), inp),
        final(w).player.facing == tick_pfacing(*old(w), inp),
        final(w).player.health.0 as int == tick_phealth(*old(w), inp, samples),
        final(w).player.punch_cooldown == tick_pcd2(*old(w), inp, samples),
        final(w).player.hurt_cooldown == tick_hcd2(*old(w), inp, samples),
        final(w).player.sparks.0@ == tick_sparks_final(*old(w), inp, samples),
        final(w).player.radius == old(w).player.radius,
        final(w).player.move_speed == old(w).player.move_speed,
        final(w).player.punch_distance == old(w).player.punch_distance,
        ev.player_hurt == tick_applied(*old(w), inp, samples),
        ev.game_over == (tick_phealth(*old(w), inp, samples) == 0),
        ev.hostiles_hurt as int == tick_hurt_n(*old(w), inp, samples),
        ev.hostiles_killed as int == killed_kinds(tick_damaged(*old(w), inp, samples)).len(),
        world_wf(*final(w)),
{
    let ghost w0 = *old(w);
    let num = inp.dt_num;
    let den = inp.dt_den;

    spawn_enemy(&mut w.enemies, &w.score, &mut w.next_id, num, den, samples);
    proof {
        assert(w.enemies@ == tick_spawned(w0, inp, samples));
        lemma_batch_ids(w0, inp, samples);
    }
    let snap = snapshot_healths(&w.enemies);

    movement(&mut w.enemies, w.player.pos, num, den);
    proof {
        assert(w.enemies@ =~= tick_moved(w0, inp, samples));
    }

    move_player(&mut w.player, inp.move_x, inp.move_y, num, den);
    turn_player(&mut w.player, inp.aim);
    proof {
        assert(w.player.pos == tick_ppos(w0, inp));
        assert(w.player.facing == tick_pfacing(w0, inp));
    }

    move_projectile(&mut w.projectiles, num, den);
    proof {
        assert(w.projectiles@ =~= tick_qmoved(w0, inp));
    }

    let dt_us = micros_of(num, den);
    let contact = handle_attacks(
        &mut w.enemies,
        w.player.pos,
        w.player.radius,
        dt_us,
        &mut w.projectiles,
    );
    proof {
        assert(w.enemies@ =~= tick_ticked(w0, inp, samples));
        assert(w.projectiles@ == tick_qshots(w0, inp, samples));
        assert(contact == tick_contact(w0, inp, samples));
    }

    w.player.punch_cooldown.tick_down(dt_us);
    proof {
        assert(w.player.punch_cooldown == tick_pcd1(w0, inp));
    }
    let ghost p_before_use = w.player;
    handle_use(&mut w.player, &mut w.enemies, &mut w.projectiles, inp.fire);
    proof {
        assert(p_before_use.sparks.0@ == w0.player.sparks.0@);
        if inp.fire && p_before_use.sparks.0@.len() == 0 {
            assert forall|j: int| 0 <= j < tick_ticked(w0, inp, samples).len() implies
                crate::spark::punch_hits(p_before_use, tick_ticked(w0, inp, samples)[j])
                == tick_punch_hits(w0, inp, tick_ticked(w0, inp, samples)[j]) by {}
        }
        assert(w.enemies@ =~= tick_punched(w0, inp, samples));
        assert(w.projectiles@ =~= tick_qused(w0, inp, samples));
        assert(w.player.punch_cooldown == tick_pcd2(w0, inp, samples)) by {
            let tk = tick_ticked(w0, inp, samples);
            if tick_punch_ready(w0, inp) {
                if exists|j: int|
                    0 <= j < tk.len() && tick_punch_hits(w0, inp, #[trigger] tk[j]) {
                    let j = choose|j: int|
                        0 <= j < tk.len() && tick_punch_hits(w0, inp, #[trigger] tk[j]);
                    assert(crate::spark::punch_hits(p_before_use, tk[j]));
                }
                if exists|j: int|
                    0 <= j < tk.len() && crate::spark::punch_hits(p_before_use, #[trigger] tk[j]) {
                    let j = choose|j: int|
                        0 <= j < tk.len() && crate::spark::punch_hits(p_before_use, #[trigger] tk[j]);
                    assert(tick_punch_hits(w0, inp, tk[j]));
                }
            }
        }
        assert(w.player.sparks.0@ == tick_sparks_used(w0, inp));
        assert(w.player.pos == tick_ppos(w0, inp));
        assert(w.player.facing == tick_pfacing(w0, inp));
    }

    let proj_hurt = check_collisions(&mut w.projectiles, &mut w.enemies, w.player.pos, w.player.radius);
    proof {
        assert(w.enemies@ =~= tick_damaged(w0, inp, samples));
        assert(w.projectiles@ == tick_qsurv(w0, inp, samples));
        assert(proj_hurt == tick_proj_hurt(w0, inp, samples));
    }

    let hurt_n = update_score(&mut w.score, &w.enemies, &snap);
    proof {
        assert(hurt_n as int == tick_hurt_n(w0, inp, samples));
        assert(w.score == tick_score(w0, inp, samples));
    }

    let hr = handle_hurt_events(&mut w.player, contact || proj_hurt, dt_us);
    let applied = hr.0;
    let game_over = hr.1;

    let killed = handle_health(&mut w.enemies, &mut w.player.sparks.0);
    proof {
        assert(w.enemies@ == tick_enemies_final(w0, inp, samples));
        assert(w.player.sparks.0@ == tick_sparks_final(w0, inp, samples));
        lemma_chain_fields(w0, inp, samples);
        let dmg = tick_damaged(w0, inp, samples);
        let bound = w0.next_id + tick_batch(w0, inp, samples).len();
        crate::enemy::lemma_alive_len(dmg);
        crate::enemy::lemma_alive_sorted(dmg, bound);
        crate::enemy::lemma_alive_sub(dmg);
        assert forall|i: int| 0 <= i < w.enemies@.len() implies enemy_wf(
            #[trigger] w.enemies@[i],
        ) by {
            let k = choose|k: int| 0 <= k < dmg.len() && alive_enemies(dmg)[i] == dmg[k];
        }
        crate::projectile::lemma_surviving_sub(
            tick_qused(w0, inp, samples),
            tick_punched(w0, inp, samples),
            tick_ppos(w0, inp),
            w0.player.radius as int,
        );
        assert forall|i: int| 0 <= i < w.projectiles@.len() implies projectile_wf(
            #[trigger] w.projectiles@[i],
        ) by {
            let qu = tick_qused(w0, inp, samples);
            let k = choose|k: int|
                0 <= k < qu.len() && surviving(
                    qu,
                    tick_punched(w0, inp, samples),
                    tick_ppos(w0, inp),
                    w0.player.radius as int,
                )[i] == qu[k];
        }
        assert(player_wf(w.player));
    }

    TickEvents {
        player_hurt: applied,
        game_over,
        hostiles_hurt: hurt_n,
        hostiles_killed: killed,
    }
}

/// One tick of the simulation, drawing this tick's randomness. Whatever
/// the draws, the world stays well-formed, no surviving hostile's health
/// rises, the score and its high-water mark never fall, and the player's
/// fixed attributes stay; the exact outcome is that of `tick_with` for
/// some in-range samples.
pub fn tick(w: &mut World, inp: TickInput) -> (ev: TickEvents)
    requires
        world_wf(*old(w)),
        input_wf(inp),
    ensures
        world_wf(*final(w)),
        forall|a: int, b: int|
            0 <= a < old(w).enemies@.len() && 0 <= b < final(w).enemies@.len() && (
            #[trigger] final(w).enemies@[b]).id == (#[trigger] old(w).enemies@[a]).id
                ==> final(w).enemies@[b].health.0 <= old(w).enemies@[a].health.0,
        final(w).score.score >= old(w).score.score,
        final(w).score.high_score >= old(w).score.high_score,
        final(w).score.high_score >= final(w).score.score,
        final(w).player.radius == old(w).player.radius,
        final(w).player.move_speed == old(w).player.move_speed,
        final(w).player.punch_distance == old(w).player.punch_distance,
        final(w).player.pos == tick_ppos(*old(w), inp),
        final(w).player.facing == tick_pfacing(*old(w), inp),
        final(w).player.health.0 <= old(w).player.health.0,
        final(w).next_id >= old(w).next_id,
        ev.game_over == (final(w).player.health.0 == 0),
        exists|s: SpawnSamples|
            #[trigger] samples_ok(s) && final(w).enemies@ == tick_enemies_final(*old(w), inp, s)
                && final(w).projectiles@ == tick_qsurv(*old(w), inp, s) && final(w).score
                == tick_score(*old(w), inp, s) && final(w).player.sparks.0@ == tick_sparks_final(
                *old(w),
                inp,
                s,
            ) && ev.player_hurt == tick_applied(*old(w), inp, s) && ev.hostiles_hurt as int
                == tick_hurt_n(*old(w), inp, s),
{
    let ghost w0 = *old(w);
    let samples = draw_samples();
    let ev = tick_with(w, inp, samples);
    proof {
        lemma_health_monotone(w0, inp, samples);
        assert(samples_ok(samples) && w.enemies@ == tick_enemies_final(w0, inp, samples)
            && w.projectiles@ == tick_qsurv(w0, inp, samples) && w.score == tick_score(
            w0,
            inp,
            samples,
        ) && w.player.sparks.0@ == tick_sparks_final(w0, inp, samples) && ev.player_hurt
            == tick_applied(w0, inp, samples) && ev.hostiles_hurt as int == tick_hurt_n(
            w0,
            inp,
            samples,
        ));
    }
    ev
}

/// Across one tick, a hostile present before and after (judged by its id)
/// never gains health: damage only ever lowers it, and a fresh spawn
/// carries a fresh id.
pub proof fn lemma_health_monotone(w: World, inp: TickInput, s: SpawnSamples)
    requires
        world_wf(w),
        input_wf(inp),
        samples_ok(s),
    ensures
        forall|a: int, b: int|
            0 <= a < w.enemies@.len() && 0 <= b < tick_enemies_final(w, inp, s).len() && (
            #[trigger] tick_enemies_final(w, inp, s)[b]).id == (#[trigger] w.enemies@[a]).id
                ==> tick_enemies_final(w, inp, s)[b].health.0 <= w.enemies@[a].health.0,
{
    lemma_chain_fields(w, inp, s);
    lemma_batch_ids(w, inp, s);
    let dmg = tick_damaged(w, inp, s);
    let spn = tick_spawned(w, inp, s);
    let fin = tick_enemies_final(w, inp, s);
    lemma_alive_sub(dmg);
    assert forall|a: int, b: int|
        0 <= a < w.enemies@.len() && 0 <= b < fin.len() && (#[trigger] fin[b]).id == (
        #[trigger] w.enemies@[a]).id implies fin[b].health.0 <= w.enemies@[a].health.0 by {
        let k = choose|k: int| 0 <= k < dmg.len() && fin[b] == dmg[k];
        assert(dmg[k].id == spn[k].id && dmg[k].health.0 <= spn[k].health.0);
        if k < w.enemies@.len() {
            assert(spn[k] == w.enemies@[k]);
            if k < a {
                assert(w.enemies@[k].id < w.enemies@[a].id);
            } else if a < k {
                assert(w.enemies@[a].id < w.enemies@[k].id);
            }
            assert(k == a);
        } else {
            assert(spn[k].id as int >= w.next_id);
            assert(w.enemies@[a].id < w.next_id);
        }
    }
}

/// Pipeline accounting for one killed hostile: a hostile whose health
/// reached zero this tick scores no point, is removed by the sweep, and
/// enqueues exactly one ability charge of its kind.
pub proof fn lemma_kill_round_trip(e: Enemy, h0: usize)
    requires
        e.health.0 == 0,
        h0 > 0,
    ensures
        hurt_count(seq![e], seq![h0], 1) == 0,
        alive_enemies(seq![e]) =~= Seq::<Enemy>::empty(),
        killed_kinds(seq![e]) =~= seq![e.kind],
{
    let es: Seq<Enemy> = seq![e];
    let sn: Seq<usize> = seq![h0];
    assert(es[0] == e && sn[0] == h0);
    assert(es.last() == e);
    assert(hurt_count(es, sn, 0) == 0);
    assert(hurt_count(es, sn, 1) == 0);
    assert(es.drop_last() =~= Seq::<Enemy>::empty());
    assert(alive_enemies(Seq::<Enemy>::empty()) =~= Seq::<Enemy>::empty());
    assert(killed_kinds(Seq::<Enemy>::empty()) =~= Seq::<EnemyKind>::empty());
    assert(killed_kinds(es) =~= Seq::<EnemyKind>::empty().push(e.kind));
}

/// The spawn batch's ids start at the old counter and stay below the new
/// one, and the batch members are well-formed and within capacity.
proof fn lemma_batch_ids(w: World, inp: TickInput, s: SpawnSamples)
    requires
        world_wf(w),
        input_wf(inp),
        samples_ok(s),
    ensures
        ids_sorted(tick_spawned(w, inp, s)),
        ids_below(tick_spawned(w, inp, s), w.next_id + tick_batch(w, inp, s).len()),
        forall|b: int|
            w.enemies@.len() <= b < tick_spawned(w, inp, s).len() ==> (#[trigger] tick_spawned(
                w,
                inp,
                s,
            )[b].id as int) >= w.next_id,
{
    let batch = tick_batch(w, inp, s);
    let es = tick_spawned(w, inp, s);
    assert forall|b: int| w.enemies@.len() <= b < es.len() implies (#[trigger] es[b].id as int)
        >= w.next_id by {
        assert(es[b] == batch[b - w.enemies@.len()]);
    }
    assert forall|a: int, b: int| 0 <= a < b < es.len() implies #[trigger] es[a].id
        < #[trigger] es[b].id by {
        if b >= w.enemies@.len() {
            assert(es[b].id >= w.next_id);
            if a >= w.enemies@.len() {
                assert(es[a].id as int == w.next_id);
                assert(es[b].id as int == w.next_id + 1);
            } else {
                assert(es[a] == w.enemies@[a]);
                assert(es[a].id < w.next_id);
            }
        }
    }
    assert forall|a: int| 0 <= a < es.len() implies (#[trigger] es[a].id as int) < w.next_id
        + batch.len() by {
        if a >= w.enemies@.len() {
        } else {
            assert(es[a] == w.enemies@[a]);
        }
    }
}

/// Walking the per-tick chain preserves each hostile's identity and its
/// static attributes index by index, never raises its health, and keeps it
/// well-formed; ids stay strictly increasing and below the advanced
/// counter.
#[verifier::rlimit(100)]
proof fn lemma_chain_fields(w: World, inp: TickInput, s: SpawnSamples)
    requires
        world_wf(w),
        input_wf(inp),
        samples_ok(s),
    ensures
        tick_damaged(w, inp, s).len() == tick_spawned(w, inp, s).len(),
        forall|k: int|
            0 <= k < tick_damaged(w, inp, s).len() ==> {
                let d = #[trigger] tick_damaged(w, inp, s)[k];
                let sp = tick_spawned(w, inp, s)[k];
                &&& d.id == sp.id
                &&& d.kind == sp.kind
                &&& d.health.0 <= sp.health.0
                &&& enemy_wf(d)
            },
        ids_sorted(tick_damaged(w, inp, s)),
        ids_below(tick_damaged(w, inp, s), w.next_id + tick_batch(w, inp, s).len()),
{
    lemma_batch_ids(w, inp, s);
    crate::geom::lemma_unit_of_bound(
        (s.basic.dir_x - 1000) * 1000,
        (s.basic.dir_y - 1000) * 1000,
    );
    crate::geom::lemma_unit_of_bound(
        (s.ranged.dir_x - 1000) * 1000,
        (s.ranged.dir_y - 1000) * 1000,
    );
    let spn = tick_spawned(w, inp, s);
    let dmg = tick_damaged(w, inp, s);
    assert forall|k: int| 0 <= k < dmg.len() implies {
        let d = #[trigger] dmg[k];
        let sp = spn[k];
        &&& d.id == sp.id
        &&& d.kind == sp.kind
        &&& d.health.0 <= sp.health.0
        &&& enemy_wf(d)
    } by {
        let mv = tick_moved(w, inp, s)[k];
        let tk = tick_ticked(w, inp, s)[k];
        let pu = tick_punched(w, inp, s)[k];
        assert(mv == moved_enemy(
            spn[k],
            positions_of(spn),
            w.player.pos,
            inp.dt_num as int,
            inp.dt_den as int,
        ));
        assert(enemy_wf(spn[k]));
        crate::projectile::lemma_hits_nonneg(
            tick_qused(w, inp, s),
            tick_punched(w, inp, s),
            k,
            tick_ppos(w, inp),
            w.player.radius as int,
        );
    }
    assert forall|a: int, b: int| 0 <= a < b < dmg.len() implies #[trigger] dmg[a].id
        < #[trigger] dmg[b].id by {
        assert(dmg[a].id == spn[a].id && dmg[b].id == spn[b].id);
    }
    assert forall|a: int| 0 <= a < dmg.len() implies (#[trigger] dmg[a].id as int) < w.next_id
        + tick_batch(w, inp, s).len() by {
        assert(dmg[a].id == spn[a].id);
    }
}

} // verus!
