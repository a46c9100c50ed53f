//! The player agent: moved by input intent, turned toward the aim point,
//! damaged through a hurt-cooldown gate, and owner of the Sparks queue of
//! ability charges.

use vstd::prelude::*;
use std::collections::VecDeque;
use crate::geom::{Vec2, in_box, unit_of, div_t, clamp_s, normalize, scale_dir, clamp_coord, POS_LIMIT, RADIUS_LIMIT};
use crate::health::{Health, sat_sub1};
use crate::timer::Cooldown;
use crate::enemy::EnemyKind;

verus! {

/// The queue of ability charges earned from killed hostiles, consumed
/// front-to-back on each attack input.
pub struct Sparks(pub VecDeque<EnemyKind>);

/// The player agent.
pub struct Player {
    pub pos: Vec2,
    pub facing: Vec2,
    pub radius: i64,
    pub health: Health,
    pub move_speed: u32,
    pub punch_distance: i64,
    pub punch_cooldown: Cooldown,
    pub hurt_cooldown: Cooldown,
    pub sparks: Sparks,
}

/// Well-formed player: position in the world box, facing on the per-mille
/// unit scale, positive bounded radius, bounded speed and punch reach.
pub open spec fn player_wf(p: Player) -> bool {
    &&& in_box(p.pos, POS_LIMIT as int)
    &&& in_box(p.facing, 1000)
    &&& 0 < p.radius <= RADIUS_LIMIT
    &&& p.move_speed <= 1_000_000
    &&& 0 <= p.punch_distance <= POS_LIMIT
}

/// Everything but position and facing agrees between two player values.
pub open spec fn player_eq_but_motion(a: Player, b: Player) -> bool {
    &&& a.radius == b.radius
    &&& a.health == b.health
    &&& a.move_speed == b.move_speed
    &&& a.punch_distance == b.punch_distance
    &&& a.punch_cooldown == b.punch_cooldown
    &&& a.hurt_cooldown == b.hurt_cooldown
    &&& a.sparks.0@ == b.sparks.0@
}

impl Player {
    /// The player as it stands at session start: at the origin, facing up,
    /// three health points, and both cooldowns wound to half a second.
    pub fn new() -> (p: Player)
        ensures
            p.pos == (Vec2 { x: 0, y: 0 }),
            p.facing == (Vec2 { x: 0, y: 1000 }),
            p.radius == 19_000,
            p.health == Health(3),
            p.move_speed == 300,
            p.punch_distance == 50_000,
            p.punch_cooldown == (Cooldown { remaining_us: 500_000, period_us: 500_000 }),
            p.hurt_cooldown == (Cooldown { remaining_us: 500_000, period_us: 500_000 }),
            p.sparks.0@ == Seq::<EnemyKind>::empty(),
            player_wf(p),
    {
        Player {
            pos: Vec2 { x: 0, y: 0 },
            facing: Vec2 { x: 0, y: 1000 },
            radius: 19_000,
            health: Health(3),
            move_speed: 300,
            punch_distance: 50_000,
            punch_cooldown: Cooldown::with_period(500_000, 500_000),
            hurt_cooldown: Cooldown::with_period(500_000, 500_000),
            sparks: Sparks(VecDeque::new()),
        }
    }
}

/// Where the player stands after moving with the given intent for
/// `num / den` seconds: the intent direction is normalized, scaled by the
/// move speed, and the result clamped into the world box. A zero intent
/// moves nobody.
pub open spec fn moved_player_pos(
    pos: Vec2,
    ix: int,
    iy: int,
    speed: int,
    num: int,
    den: int,
) -> (int, int) {
    if ix == 0 && iy == 0 {
        (pos.x as int, pos.y as int)
    } else {
        let u = unit_of(ix * 1000, iy * 1000);
        (
            clamp_s(pos.x + div_t(u.0 * speed * num, den), -(POS_LIMIT as int), POS_LIMIT as int),
            clamp_s(pos.y + div_t(u.1 * speed * num, den), -(POS_LIMIT as int), POS_LIMIT as int),
        )
    }
}

/// Move the player by its input intent. The intent is a small direction
/// vector (its components come from pressed keys); its direction alone
/// matters.
pub fn move_player(p: &mut Player, ix: i64, iy: i64, num: u32, den: u32)
    requires
        player_wf(*old(p)),
        -10 <= ix <= 10,
        -10 <= iy <= 10,
        num <= 1_000_000,
        1 <= den <= 1_000_000,
    ensures
        final(p).pos.x as int == moved_player_pos(
            old(p).pos,
            ix as int,
            iy as int,
            old(p).move_speed as int,
            num as int,
            den as int,
        ).0,
        final(p).pos.y as int == moved_player_pos(
            old(p).pos,
            ix as int,
            iy as int,
            old(p).move_speed as int,
            num as int,
            den as int,
        ).1,
        final(p).facing == old(p).facing,
        player_eq_but_motion(*final(p), *old(p)),
        player_wf(*final(p)),
{
    if ix == 0 && iy == 0 {
        return ;
    }
    let u = normalize(Vec2 { x: ix * 1000, y: iy * 1000 });
    let d = scale_dir(u, p.move_speed, num, den);
    let nx = clamp_coord(p.pos.x as i128 + d.0 as i128);
    let ny = clamp_coord(p.pos.y as i128 + d.1 as i128);
    p.pos = Vec2 { x: nx, y: ny };
}

/// The player's facing after turning toward an aim point: the unit
/// direction toward it, or unchanged when the aim sits exactly on the
/// player (a degenerate direction turns nobody).
pub open spec fn turned_facing(pos: Vec2, facing: Vec2, aim: Vec2) -> (int, int) {
    if aim == pos {
        (facing.x as int, facing.y as int)
    } else {
        unit_of(aim.x - pos.x, aim.y - pos.y)
    }
}

/// Turn the player toward the aim point.
pub fn turn_player(p: &mut Player, aim: Vec2)
    requires
        player_wf(*old(p)),
        in_box(aim, POS_LIMIT as int),
    ensures
        final(p).facing.x as int == turned_facing(old(p).pos, old(p).facing, aim).0,
        final(p).facing.y as int == turned_facing(old(p).pos, old(p).facing, aim).1,
        final(p).pos == old(p).pos,
        player_eq_but_motion(*final(p), *old(p)),
        player_wf(*final(p)),
{
    if aim.x == p.pos.x && aim.y == p.pos.y {
        return ;
    }
    let u = normalize(Vec2 { x: aim.x - p.pos.x, y: aim.y - p.pos.y });
    p.facing = u;
}

/// Everything but health and the hurt cooldown agrees between two player
/// values.
pub open spec fn player_eq_but_hurt(a: Player, b: Player) -> bool {
    &&& a.pos == b.pos
    &&& a.facing == b.facing
    &&& a.radius == b.radius
    &&& a.move_speed == b.move_speed
    &&& a.punch_distance == b.punch_distance
    &&& a.punch_cooldown == b.punch_cooldown
    &&& a.sparks.0@ == b.sparks.0@
}

/// The hurt pass: tick the hurt cooldown; when it has elapsed and a hit
/// was signalled this tick, the player loses one health point (never going
/// below zero) and the cooldown rewinds, so overlapping hits within one
/// invulnerability window count once. Returns whether the hit landed and
/// whether the session is over (health at zero).
pub fn handle_hurt_events(p: &mut Player, hurt_pending: bool, dt_us: u64) -> (r: (bool, bool))
    ensures
        r.0 == (old(p).hurt_cooldown.after_down_tick(dt_us).remaining_us == 0 && hurt_pending),
        final(p).health.0 as int == if r.0 {
            sat_sub1(old(p).health.0 as int)
        } else {
            old(p).health.0 as int
        },
        final(p).hurt_cooldown == if r.0 {
            Cooldown {
                remaining_us: old(p).hurt_cooldown.period_us,
                period_us: old(p).hurt_cooldown.period_us,
            }
        } else {
            old(p).hurt_cooldown.after_down_tick(dt_us)
        },
        r.1 == (final(p).health.0 == 0),
        player_eq_but_hurt(*final(p), *old(p)),
{
    p.hurt_cooldown.tick_down(dt_us);
    let applied = p.hurt_cooldown.is_ready() && hurt_pending;
    if applied {
        p.health.damage();
        p.hurt_cooldown.reset();
    }
    let game_over = p.health.0 == 0;
    (applied, game_over)
}

} // verus!
