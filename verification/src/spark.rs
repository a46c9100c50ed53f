//! The player's attacks, dispatched from the Sparks queue: the default
//! melee punch, the single-shot charge, and the three-way spread charge.

use vstd::prelude::*;
use crate::geom::{Vec2, in_box, capsule_hits, capsule_hit, rotated, rotate, POS_LIMIT};
use crate::health::sat_sub1;
use crate::timer::Cooldown;
use crate::enemy::{Enemy, EnemyKind, enemy_wf};
use crate::player::{Player, player_wf};
use crate::projectile::{Projectile, Team, projectile_wf};

verus! {

/// Per-mille cosine of the spread half-angle, one sixty-fourth of a turn.
pub const FAN_COS: i64 = 995;

/// Per-mille sine of the spread half-angle, one sixty-fourth of a turn.
pub const FAN_SIN: i64 = 98;

/// Whether the player's punch reaches a hostile: the capsule swept along
/// the player's facing over its punch distance against the hostile's
/// circle.
pub open spec fn punch_hits(p: Player, e: Enemy) -> bool {
    capsule_hits(p.pos, p.facing, p.punch_distance as int, e.pos, e.radius as int)
}

/// Everything but the punch cooldown agrees between two player values.
pub open spec fn player_eq_but_punch(a: Player, b: Player) -> bool {
    &&& a.pos == b.pos
    &&& a.facing == b.facing
    &&& a.radius == b.radius
    &&& a.health == b.health
    &&& a.move_speed == b.move_speed
    &&& a.punch_distance == b.punch_distance
    &&& a.hurt_cooldown == b.hurt_cooldown
    &&& a.sparks.0@ == b.sparks.0@
}

/// The default melee attack. When the punch cooldown has elapsed, every
/// hostile whose circle meets the punch capsule loses one health point,
/// and the cooldown rewinds if anything was hit. With the cooldown still
/// counting, nothing happens.
pub fn handle_punch(p: &mut Player, enemies: &mut Vec<Enemy>)
    requires
        player_wf(*old(p)),
        forall|i: int| 0 <= i < old(enemies)@.len() ==> enemy_wf(#[trigger] old(enemies)@[i]),
    ensures
        final(enemies)@.len() == old(enemies)@.len(),
        forall|j: int|
            0 <= j < old(enemies)@.len() ==> final(enemies)@[j] == (if old(
                p,
            ).punch_cooldown.remaining_us == 0 && punch_hits(*old(p), #[trigger] old(enemies)@[j]) {
                Enemy {
                    health: crate::health::Health(
                        sat_sub1(old(enemies)@[j].health.0 as int) as usize,
                    ),
                    ..old(enemies)@[j]
                }
            } else {
                old(enemies)@[j]
            }),
        final(p).punch_cooldown == (if old(p).punch_cooldown.remaining_us == 0 && (exists|j: int|
            0 <= j < old(enemies)@.len() && punch_hits(*old(p), #[trigger] old(enemies)@[j])) {
            Cooldown {
                remaining_us: old(p).punch_cooldown.period_us,
                period_us: old(p).punch_cooldown.period_us,
            }
        } else {
            old(p).punch_cooldown
        }),
        player_eq_but_punch(*final(p), *old(p)),
        player_wf(*final(p)),
        forall|j: int| 0 <= j < final(enemies)@.len() ==> enemy_wf(#[trigger] final(enemies)@[j]),
{
    let ghost es0 = old(enemies)@;
    if !p.punch_cooldown.is_ready() {
        return ;
    }
    let n = enemies.len();
    let mut any: bool = false;
    let mut i: usize = 0;
    while i < n
        invariant
            n == es0.len(),
            enemies@.len() == n,
            i <= n,
            player_wf(*p),
            p.punch_cooldown.remaining_us == 0,
            forall|j: int| 0 <= j < n ==> enemy_wf(#[trigger] es0[j]),
            forall|j: int| i <= j < n ==> enemies@[j] == es0[j],
            forall|j: int|
                0 <= j < i ==> enemies@[j] == (if punch_hits(*p, #[trigger] es0[j]) {
                    Enemy {
                        health: crate::health::Health(sat_sub1(es0[j].health.0 as int) as usize),
                        ..es0[j]
                    }
                } else {
                    es0[j]
                }),
            forall|j: int| 0 <= j < i ==> enemy_wf(#[trigger] enemies@[j]),
            any == exists|j: int| 0 <= j < i && punch_hits(*p, #[trigger] es0[j]),
        decreases n - i,
    {
        let e = enemies[i];
        proof {
            assert(enemies@[i as int] == es0[i as int]);
            assert(enemy_wf(es0[i as int]));
        }
        if capsule_hit(p.pos, p.facing, p.punch_distance, e.pos, e.radius) {
            let mut he = e;
            he.health.damage();
            enemies.set(i, he);
            any = true;
        }
        i = i + 1;
    }
    if any {
        p.punch_cooldown.reset();
    }
}

/// The projectile of the single-shot charge: from the player's position,
/// along its facing, on the friendly team.
pub open spec fn basic_shot(p: Player) -> Projectile {
    Projectile { pos: p.pos, facing: p.facing, speed: 600, team: Team::Friendly, radius: 9_500 }
}

/// A spread projectile: the player's facing rotated by the given per-mille
/// cosine and sine.
pub open spec fn spread_shot(p: Player, cos_m: int, sin_m: int) -> Projectile {
    let f = rotated(p.facing, cos_m, sin_m);
    Projectile {
        pos: p.pos,
        facing: Vec2 { x: f.0 as i64, y: f.1 as i64 },
        speed: 600,
        team: Team::Friendly,
        radius: 9_500,
    }
}

/// The three projectiles of the spread charge: straight ahead, then one
/// sixty-fourth of a turn to either side.
pub open spec fn fan_shots(p: Player) -> Seq<Projectile> {
    seq![
        basic_shot(p),
        spread_shot(p, FAN_COS as int, -(FAN_SIN as int)),
        spread_shot(p, FAN_COS as int, FAN_SIN as int),
    ]
}

/// Fire the single-shot charge.
pub fn handle_basic(p: &Player, projectiles: &mut Vec<Projectile>)
    requires
        player_wf(*p),
        forall|i: int|
            0 <= i < old(projectiles)@.len() ==> projectile_wf(#[trigger] old(projectiles)@[i]),
    ensures
        final(projectiles)@ == old(projectiles)@.push(basic_shot(*p)),
        forall|i: int|
            0 <= i < final(projectiles)@.len() ==> projectile_wf(#[trigger] final(projectiles)@[i]),
{
    let shot = Projectile {
        pos: p.pos,
        facing: p.facing,
        speed: 600,
        team: Team::Friendly,
        radius: 9_500,
    };
    projectiles.push(shot);
}

/// Fire the three-way spread charge.
pub fn handle_ranged(p: &Player, projectiles: &mut Vec<Projectile>)
    requires
        player_wf(*p),
        forall|i: int|
            0 <= i < old(projectiles)@.len() ==> projectile_wf(#[trigger] old(projectiles)@[i]),
    ensures
        final(projectiles)@ == old(projectiles)@ + fan_shots(*p),
        forall|i: int|
            0 <= i < final(projectiles)@.len() ==> projectile_wf(#[trigger] final(projectiles)@[i]),
{
    let center = Projectile {
        pos: p.pos,
        facing: p.facing,
        speed: 600,
        team: Team::Friendly,
        radius: 9_500,
    };
    let lf = rotate(p.facing, FAN_COS, -FAN_SIN);
    let left = Projectile { pos: p.pos, facing: lf, speed: 600, team: Team::Friendly, radius: 9_500 };
    let rf = rotate(p.facing, FAN_COS, FAN_SIN);
    let right = Projectile {
        pos: p.pos,
        facing: rf,
        speed: 600,
        team: Team::Friendly,
        radius: 9_500,
    };
    projectiles.push(center);
    projectiles.push(left);
    projectiles.push(right);
    proof {
        assert(projectiles@ =~= old(projectiles)@ + fan_shots(*p));
    }
}

/// What the attack input resolves to: the front of the Sparks queue, or
/// the default punch when the queue is empty.
pub open spec fn popped_spark(sp: Seq<EnemyKind>) -> Option<EnemyKind> {
    if sp.len() == 0 {
        Option::None
    } else {
        Option::Some(sp[0])
    }
}

/// The attack input: consume the front of the Sparks queue and execute the
/// matching attack — the punch when the queue is empty, the single shot
/// for a basic charge, the spread for a ranged charge.
pub fn handle_use(
    p: &mut Player,
    enemies: &mut Vec<Enemy>,
    projectiles: &mut Vec<Projectile>,
    fire: bool,
)
    requires
        player_wf(*old(p)),
        forall|i: int| 0 <= i < old(enemies)@.len() ==> enemy_wf(#[trigger] old(enemies)@[i]),
        forall|i: int|
            0 <= i < old(projectiles)@.len() ==> projectile_wf(#[trigger] old(projectiles)@[i]),
    ensures
        player_wf(*final(p)),
        final(enemies)@.len() == old(enemies)@.len(),
        forall|i: int| 0 <= i < final(enemies)@.len() ==> enemy_wf(#[trigger] final(enemies)@[i]),
        forall|i: int|
            0 <= i < final(projectiles)@.len() ==> projectile_wf(#[trigger] final(projectiles)@[i]),
        final(p).pos == old(p).pos,
        final(p).facing == old(p).facing,
        final(p).health == old(p).health,
        final(p).hurt_cooldown == old(p).hurt_cooldown,
        final(p).radius == old(p).radius,
        final(p).move_speed == old(p).move_speed,
        final(p).punch_distance == old(p).punch_distance,
        !fire ==> *final(p) == *old(p) && final(enemies)@ == old(enemies)@ && final(projectiles)@
            == old(projectiles)@,
        !fire ==> final(p).punch_cooldown == old(p).punch_cooldown && final(p).sparks.0@ == old(
            p,
        ).sparks.0@,
        fire ==> final(p).sparks.0@ == old(p).sparks.0@.skip(
            if old(p).sparks.0@.len() > 0 {
                1int
            } else {
                0int
            },
        ),
        fire && popped_spark(old(p).sparks.0@) is None ==> {
            &&& final(projectiles)@ == old(projectiles)@
            &&& final(enemies)@.len() == old(enemies)@.len()
            &&& forall|j: int|
                0 <= j < old(enemies)@.len() ==> final(enemies)@[j] == (if old(
                    p,
                ).punch_cooldown.remaining_us == 0 && punch_hits(
                    *old(p),
                    #[trigger] old(enemies)@[j],
                ) {
                    Enemy {
                        health: crate::health::Health(
                            sat_sub1(old(enemies)@[j].health.0 as int) as usize,
                        ),
                        ..old(enemies)@[j]
                    }
                } else {
                    old(enemies)@[j]
                })
            &&& final(p).punch_cooldown == (if old(p).punch_cooldown.remaining_us == 0 && (
            exists|j: int|
                0 <= j < old(enemies)@.len() && punch_hits(*old(p), #[trigger] old(enemies)@[j])) {
                Cooldown {
                    remaining_us: old(p).punch_cooldown.period_us,
                    period_us: old(p).punch_cooldown.period_us,
                }
            } else {
                old(p).punch_cooldown
            })
            &&& player_eq_but_punch(*final(p), *old(p))
        },
        fire && popped_spark(old(p).sparks.0@) == Option::Some(EnemyKind::Basic) ==> {
            &&& final(projectiles)@ == old(projectiles)@.push(basic_shot(*old(p)))
            &&& final(enemies)@ == old(enemies)@
            &&& final(p).punch_cooldown == old(p).punch_cooldown
            &&& final(p).health == old(p).health
            &&& final(p).pos == old(p).pos
            &&& final(p).facing == old(p).facing
        },
        fire && popped_spark(old(p).sparks.0@) == Option::Some(EnemyKind::Ranged) ==> {
            &&& final(projectiles)@ == old(projectiles)@ + fan_shots(*old(p))
            &&& final(enemies)@ == old(enemies)@
            &&& final(p).punch_cooldown == old(p).punch_cooldown
            &&& final(p).health == old(p).health
            &&& final(p).pos == old(p).pos
            &&& final(p).facing == old(p).facing
        },
{
    if !fire {
        return ;
    }
    let front = p.sparks.0.pop_front();
    match front {
        Option::None => {
            handle_punch(p, enemies);
        },
        Option::Some(EnemyKind::Basic) => {
            handle_basic(p, projectiles);
        },
        Option::Some(EnemyKind::Ranged) => {
            handle_ranged(p, projectiles);
        },
    }
}

} // verus!
