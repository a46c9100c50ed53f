//! Projectile agents, their movement, and the collision pass that resolves
//! projectiles against agents of the opposing team.

use vstd::prelude::*;
use crate::geom::{
    Vec2, in_box, circles_overlap, overlaps, dir_step, scale_dir, clamp_coord, clamp_s, POS_LIMIT,
    RADIUS_LIMIT, FACING_BOX,
};
use crate::health::{sat_minus, lemma_sat_minus_step};
use crate::enemy::Enemy;

verus! {

/// Which side an agent fights for. Projectiles only harm the other team.
#[derive(Clone, Copy, PartialEq, Eq, Structural, Debug)]
pub enum Team {
    Friendly,
    Hostile,
}

/// Projectile speeds stay at or below this many world units per second.
pub const SPEED_LIMIT: u32 = 1_000_000;

/// A projectile in flight: it moves along its facing at a fixed speed and
/// is removed on its first hit.
#[derive(Clone, Copy, PartialEq, Eq, Structural, Debug)]
pub struct Projectile {
    pub pos: Vec2,
    pub facing: Vec2,
    pub speed: u32,
    pub team: Team,
    pub radius: i64,
}

/// Well-formed projectile: position in the world box, facing bounded,
/// a positive collision radius, speed bounded.
pub open spec fn projectile_wf(p: Projectile) -> bool {
    &&& in_box(p.pos, POS_LIMIT as int)
    &&& in_box(p.facing, FACING_BOX as int)
    &&& 0 < p.radius <= RADIUS_LIMIT
    &&& p.speed <= SPEED_LIMIT
}

/// Where a projectile stands after flying for `num / den` seconds.
pub open spec fn moved_projectile(p: Projectile, num: int, den: int) -> Projectile {
    let d = dir_step(p.facing, p.speed as int, num, den);
    Projectile {
        pos: Vec2 {
            x: clamp_s(p.pos.x + d.0, -(POS_LIMIT as int), POS_LIMIT as int) as i64,
            y: clamp_s(p.pos.y + d.1, -(POS_LIMIT as int), POS_LIMIT as int) as i64,
        },
        ..p
    }
}

/// Advance every projectile along its facing for the elapsed tick.
pub fn move_projectile(projectiles: &mut Vec<Projectile>, num: u32, den: u32)
    requires
        forall|i: int|
            0 <= i < old(projectiles)@.len() ==> projectile_wf(#[trigger] old(projectiles)@[i]),
        num <= 1_000_000,
        1 <= den,
    ensures
        final(projectiles)@.len() == old(projectiles)@.len(),
        forall|i: int|
            0 <= i < old(projectiles)@.len() ==> final(projectiles)@[i] == moved_projectile(
                #[trigger] old(projectiles)@[i],
                num as int,
                den as int,
            ),
        forall|i: int|
            0 <= i < final(projectiles)@.len() ==> projectile_wf(#[trigger] final(projectiles)@[i]),
{
    let n = projectiles.len();
    let mut i: usize = 0;
    while i < n
        invariant
            n == old(projectiles)@.len(),
            projectiles@.len() == n,
            i <= n,
            num <= 1_000_000,
            1 <= den,
            forall|j: int|
                0 <= j < n ==> projectile_wf(#[trigger] old(projectiles)@[j]),
            forall|j: int|
                i <= j < n ==> projectiles@[j] == old(projectiles)@[j],
            forall|j: int|
                0 <= j < i ==> projectiles@[j] == moved_projectile(
                    #[trigger] old(projectiles)@[j],
                    num as int,
                    den as int,
                ),
            forall|j: int|
                0 <= j < i ==> projectile_wf(#[trigger] projectiles@[j]),
        decreases n - i,
    {
        let p = projectiles[i];
        let d = scale_dir(p.facing, p.speed, num, den);
        let nx = clamp_coord(p.pos.x as i128 + d.0 as i128);
        let ny = clamp_coord(p.pos.y as i128 + d.1 as i128);
        let moved = Projectile { pos: Vec2 { x: nx, y: ny }, ..p };
        projectiles.set(i, moved);
        i = i + 1;
    }
}

/// The whole projectile list after one movement pass.
pub open spec fn moved_all_projectiles(ps: Seq<Projectile>, num: int, den: int) -> Seq<Projectile> {
    Seq::new(ps.len(), |k: int| moved_projectile(ps[k], num, den))
}

/// A friendly projectile's first overlapping hostile target, scanning the
/// hostiles in order; `None` when it overlaps none.
pub open spec fn first_enemy_hit(p: Projectile, es: Seq<Enemy>) -> Option<int>
    decreases es.len(),
{
    if es.len() == 0 {
        Option::None
    } else if circles_overlap(p.pos, p.radius as int, es[0].pos, es[0].radius as int) {
        Option::Some(0)
    } else {
        match first_enemy_hit(p, es.drop_first()) {
            Option::None => Option::None,
            Option::Some(j) => Option::Some(j + 1),
        }
    }
}

/// Whether the collision pass keeps a projectile: a hostile one survives
/// unless it overlaps the player, a friendly one unless it overlaps some
/// hostile.
pub open spec fn projectile_kept(p: Projectile, es: Seq<Enemy>, ppos: Vec2, prad: int) -> bool {
    if p.team == Team::Hostile {
        !circles_overlap(p.pos, p.radius as int, ppos, prad)
    } else {
        first_enemy_hit(p, es) is None
    }
}

/// The projectiles that survive the collision pass, in order.
pub open spec fn surviving(ps: Seq<Projectile>, es: Seq<Enemy>, ppos: Vec2, prad: int) -> Seq<
    Projectile,
>
    decreases ps.len(),
{
    if ps.len() == 0 {
        Seq::empty()
    } else {
        let rest = surviving(ps.drop_last(), es, ppos, prad);
        if projectile_kept(ps.last(), es, ppos, prad) {
            rest.push(ps.last())
        } else {
            rest
        }
    }
}

/// How many friendly projectiles in `ps` land their first hit on the
/// hostile at index `j`.
pub open spec fn hits_on(ps: Seq<Projectile>, es: Seq<Enemy>, j: int) -> int
    decreases ps.len(),
{
    if ps.len() == 0 {
        0
    } else {
        hits_on(ps.drop_last(), es, j) + if ps.last().team == Team::Friendly && first_enemy_hit(
            ps.last(),
            es,
        ) == Option::Some(j) {
            1int
        } else {
            0int
        }
    }
}

/// How many hostile projectiles in `ps` overlap the player.
pub open spec fn hostile_hits(ps: Seq<Projectile>, ppos: Vec2, prad: int) -> int
    decreases ps.len(),
{
    if ps.len() == 0 {
        0
    } else {
        hostile_hits(ps.drop_last(), ppos, prad) + if ps.last().team == Team::Hostile
            && circles_overlap(ps.last().pos, ps.last().radius as int, ppos, prad) {
            1int
        } else {
            0int
        }
    }
}

/// Hit counts are never negative.
pub proof fn lemma_hits_nonneg(ps: Seq<Projectile>, es: Seq<Enemy>, j: int, ppos: Vec2, prad: int)
    ensures
        hits_on(ps, es, j) >= 0,
        hostile_hits(ps, ppos, prad) >= 0,
    decreases ps.len(),
{
    if ps.len() > 0 {
        lemma_hits_nonneg(ps.drop_last(), es, j, ppos, prad);
    }
}

/// Every surviving projectile already stood in the list, and none is added.
pub proof fn lemma_surviving_sub(ps: Seq<Projectile>, es: Seq<Enemy>, ppos: Vec2, prad: int)
    ensures
        surviving(ps, es, ppos, prad).len() <= ps.len(),
        forall|j: int|
            0 <= j < surviving(ps, es, ppos, prad).len() ==> exists|k: int|
                0 <= k < ps.len() && #[trigger] surviving(ps, es, ppos, prad)[j] == ps[k],
    decreases ps.len(),
{
    if ps.len() > 0 {
        lemma_surviving_sub(ps.drop_last(), es, ppos, prad);
        let sv = surviving(ps, es, ppos, prad);
        let svp = surviving(ps.drop_last(), es, ppos, prad);
        assert forall|j: int| 0 <= j < sv.len() implies exists|k: int|
            0 <= k < ps.len() && #[trigger] sv[j] == ps[k] by {
            if j < svp.len() {
                let k = choose|k: int| 0 <= k < ps.drop_last().len() && svp[j] == ps.drop_last()[k];
                assert(sv[j] == ps[k]);
            } else {
                assert(sv[j] == ps[ps.len() - 1]);
            }
        }
    }
}

/// The collision pass. Every projectile is tested against the opposing
/// team: a hostile projectile overlapping the player registers a hit on the
/// player; a friendly projectile damages the first hostile it overlaps.
/// A projectile that hits is removed and damages only that one target;
/// several projectiles hitting the same hostile each land.
pub fn check_collisions(
    projectiles: &mut Vec<Projectile>,
    enemies: &mut Vec<Enemy>,
    ppos: Vec2,
    prad: i64,
) -> (hurt: bool)
    requires
        forall|i: int|
            0 <= i < old(projectiles)@.len() ==> projectile_wf(#[trigger] old(projectiles)@[i]),
        forall|i: int| 0 <= i < old(enemies)@.len() ==> crate::enemy::enemy_wf(
            #[trigger] old(enemies)@[i],
        ),
        in_box(ppos, POS_LIMIT as int),
        0 < prad <= RADIUS_LIMIT,
    ensures
        final(projectiles)@ == surviving(old(projectiles)@, old(enemies)@, ppos, prad as int),
        final(enemies)@.len() == old(enemies)@.len(),
        forall|j: int|
            0 <= j < old(enemies)@.len() ==> final(enemies)@[j] == (crate::enemy::Enemy {
                health: crate::health::Health(
                    sat_minus(
                        old(enemies)@[j].health.0 as int,
                        hits_on(old(projectiles)@, old(enemies)@, j),
                    ) as usize,
                ),
                ..(#[trigger] old(enemies)@[j])
            }),
        hurt == (hostile_hits(old(projectiles)@, ppos, prad as int) > 0),
{
    let ghost ps0 = old(projectiles)@;
    let ghost es0 = old(enemies)@;
    let n = projectiles.len();
    let en = enemies.len();
    let mut kept: Vec<Projectile> = Vec::new();
    let mut hurt: bool = false;
    let mut i: usize = 0;
    while i < n
        invariant
            n == ps0.len(),
            en == es0.len(),
            projectiles@ == ps0,
            enemies@.len() == en,
            i <= n,
            forall|k: int| 0 <= k < n ==> projectile_wf(#[trigger] ps0[k]),
            forall|k: int| 0 <= k < en ==> crate::enemy::enemy_wf(#[trigger] es0[k]),
            in_box(ppos, POS_LIMIT as int),
            0 < prad <= RADIUS_LIMIT,
            kept@ == surviving(ps0.take(i as int), es0, ppos, prad as int),
            forall|j: int|
                0 <= j < en ==> enemies@[j] == (crate::enemy::Enemy {
                    health: crate::health::Health(
                        sat_minus(
                            es0[j].health.0 as int,
                            hits_on(ps0.take(i as int), es0, j),
                        ) as usize,
                    ),
                    ..(#[trigger] es0[j])
                }),
            hurt == (hostile_hits(ps0.take(i as int), ppos, prad as int) > 0),
        decreases n - i,
    {
        let p = projectiles[i];
        proof {
            assert(ps0.take(i as int + 1).drop_last() =~= ps0.take(i as int));
            assert(ps0.take(i as int + 1).last() == ps0[i as int]);
        }
        match p.team {
            Team::Hostile => {
                if overlaps(p.pos, p.radius, ppos, prad) {
                    hurt = true;
                    proof {
                        lemma_hits_nonneg(ps0.take(i as int), es0, 0, ppos, prad as int);
                    }
                } else {
                    kept.push(p);
                }
            },
            Team::Friendly => {
                let mut j: usize = 0;
                let mut hit: bool = false;
                let ghost mut hidx: int = 0;
                while j < en
                    invariant
                        en == es0.len(),
                        enemies@.len() == en,
                        j <= en,
                        forall|k: int| 0 <= k < en ==> crate::enemy::enemy_wf(#[trigger] es0[k]),
                        forall|k: int|
                            0 <= k < en ==> (#[trigger] enemies@[k]).pos == es0[k].pos
                                && enemies@[k].radius == es0[k].radius,
                        projectile_wf(p),
                        in_box(ppos, POS_LIMIT as int),
                        !hit ==> forall|k: int|
                            0 <= k < j ==> !circles_overlap(
                                p.pos,
                                p.radius as int,
                                (#[trigger] es0[k]).pos,
                                es0[k].radius as int,
                            ),
                        hit ==> first_enemy_hit(p, es0) == Option::Some(hidx) && 0 <= hidx < en,
                        hit ==> forall|k: int|
                            0 <= k < en ==> enemies@[k] == (crate::enemy::Enemy {
                                health: crate::health::Health(
                                    sat_minus(
                                        es0[k].health.0 as int,
                                        hits_on(ps0.take(i as int), es0, k) + if k == hidx {
                                            1int
                                        } else {
                                            0int
                                        },
                                    ) as usize,
                                ),
                                ..(#[trigger] es0[k])
                            }),
                        !hit ==> forall|k: int|
                            0 <= k < en ==> enemies@[k] == (crate::enemy::Enemy {
                                health: crate::health::Health(
                                    sat_minus(
                                        es0[k].health.0 as int,
                                        hits_on(ps0.take(i as int), es0, k),
                                    ) as usize,
                                ),
                                ..(#[trigger] es0[k])
                            }),
                    decreases en - j,
                {
                    if !hit {
                        let e = enemies[j];
                        if overlaps(p.pos, p.radius, e.pos, e.radius) {
                            let mut he = e;
                            he.health.damage();
                            enemies.set(j, he);
                            hit = true;
                            proof {
                                hidx = j as int;
                                lemma_first_hit_found(p, es0, j as int);
                                lemma_hits_nonneg(
                                    ps0.take(i as int),
                                    es0,
                                    j as int,
                                    ppos,
                                    prad as int,
                                );
                                lemma_sat_minus_step(
                                    es0[j as int].health.0 as int,
                                    hits_on(ps0.take(i as int), es0, j as int),
                                );
                            }
                        }
                    }
                    j = j + 1;
                }
                if !hit {
                    kept.push(p);
                    proof {
                        lemma_first_hit_missed(p, es0);
                    }
                }
            },
        }
        i = i + 1;
    }
    proof {
        assert(ps0.take(n as int) =~= ps0);
    }
    *projectiles = kept;
    hurt
}

/// When the scan finds an overlap at `j` and none before it, the first hit
/// is at `j`.
proof fn lemma_first_hit_found(p: Projectile, es: Seq<Enemy>, j: int)
    requires
        0 <= j < es.len(),
        circles_overlap(p.pos, p.radius as int, es[j].pos, es[j].radius as int),
        forall|k: int|
            0 <= k < j ==> !circles_overlap(
                p.pos,
                p.radius as int,
                (#[trigger] es[k]).pos,
                es[k].radius as int,
            ),
    ensures
        first_enemy_hit(p, es) == Option::Some(j),
    decreases j,
{
    if j == 0 {
    } else {
        assert forall|k: int| 1 <= k < es.len() implies es.drop_first()[k - 1] == es[k] by {}
        lemma_first_hit_found(p, es.drop_first(), j - 1);
    }
}

/// When the scan finds no overlap at all, there is no first hit.
proof fn lemma_first_hit_missed(p: Projectile, es: Seq<Enemy>)
    requires
        forall|k: int|
            0 <= k < es.len() ==> !circles_overlap(
                p.pos,
                p.radius as int,
                (#[trigger] es[k]).pos,
                es[k].radius as int,
            ),
    ensures
        first_enemy_hit(p, es) is None,
    decreases es.len(),
{
    if es.len() > 0 {
        assert forall|k: int| 1 <= k < es.len() implies es.drop_first()[k - 1] == es[k] by {}
        lemma_first_hit_missed(p, es.drop_first());
    }
}

} // verus!
