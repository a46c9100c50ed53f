//! Hostile agents: their archetypes, the homing-plus-separation steering
//! engine, their attack state machines, and the end-of-tick sweep of the
//! dead.

use vstd::prelude::*;
use std::collections::VecDeque;
use crate::geom::{
    Vec2, in_box, norm_sq, unit_of, div_t, clamp_s, dist_sq, normalize, scale_dir, clamp_len,
    clamp_coord, dir_step, circles_overlap, overlaps, lemma_unit_of_bound, lemma_div_t_bound,
    lemma_nonzero_square, lemma_square_nonneg, lemma_mul_bound, POS_LIMIT, RADIUS_LIMIT,
};
use crate::health::Health;
use crate::timer::Cooldown;
use crate::projectile::{Projectile, Team};

verus! {

/// The closed set of hostile archetypes.
#[derive(Clone, Copy, PartialEq, Eq, Structural, Debug)]
pub enum EnemyKind {
    Basic,
    Ranged,
}

/// Steering forces stay at or below this many world units per second.
pub const FORCE_LIMIT: u32 = 10_000;

/// The world holds at most this many hostile agents; the spawn director
/// refuses further spawns at the cap.
pub const MAX_ENEMIES: usize = 10_000;

/// A hostile agent.
#[derive(Clone, Copy, PartialEq, Eq, Structural, Debug)]
pub struct Enemy {
    pub id: u64,
    pub kind: EnemyKind,
    pub pos: Vec2,
    pub radius: i64,
    pub health: Health,
    pub homing_force: u32,
    pub separating_force: u32,
    pub attack_timer: Cooldown,
}

/// Well-formed hostile: position in the world box, positive bounded radius,
/// bounded homing force, positive bounded separation force.
pub open spec fn enemy_wf(e: Enemy) -> bool {
    &&& in_box(e.pos, POS_LIMIT as int)
    &&& 0 < e.radius <= RADIUS_LIMIT
    &&& e.homing_force <= FORCE_LIMIT
    &&& 1 <= e.separating_force <= FORCE_LIMIT
}

/// The fixed spawn-time attributes of a hostile of the given kind at the
/// given position.
pub open spec fn spawned_enemy(kind: EnemyKind, pos: Vec2, id: u64) -> Enemy {
    match kind {
        EnemyKind::Basic => Enemy {
            id,
            kind,
            pos,
            radius: 15_000,
            health: Health(1),
            homing_force: 75,
            separating_force: 75,
            attack_timer: Cooldown { remaining_us: 0, period_us: 0 },
        },
        EnemyKind::Ranged => Enemy {
            id,
            kind,
            pos,
            radius: 20_000,
            health: Health(2),
            homing_force: 60,
            separating_force: 150,
            attack_timer: Cooldown { remaining_us: 1_000_000, period_us: 1_000_000 },
        },
    }
}

impl Enemy {
    /// Create a hostile of the given kind at the given position, with the
    /// kind's fixed attributes.
    pub fn new(kind: EnemyKind, pos: Vec2, id: u64) -> (e: Enemy)
        requires
            in_box(pos, POS_LIMIT as int),
        ensures
            e == spawned_enemy(kind, pos, id),
            enemy_wf(e),
    {
        match kind {
            EnemyKind::Basic => Enemy {
                id,
                kind,
                pos,
                radius: 15_000,
                health: Health(1),
                homing_force: 75,
                separating_force: 75,
                attack_timer: Cooldown::with_period(0, 0),
            },
            EnemyKind::Ranged => Enemy {
                id,
                kind,
                pos,
                radius: 20_000,
                health: Health(2),
                homing_force: 60,
                separating_force: 150,
                attack_timer: Cooldown::with_period(1_000_000, 1_000_000),
            },
        }
    }
}

/// The positions of a sequence of hostiles, in order.
pub open spec fn positions_of(es: Seq<Enemy>) -> Seq<Vec2> {
    es.map_values(|e: Enemy| e.pos)
}

/// Collect the positions of all hostiles, in order.
pub fn fetch_positions(enemies: &Vec<Enemy>) -> (ps: Vec<Vec2>)
    ensures
        ps@ == positions_of(enemies@),
{
    let mut ps: Vec<Vec2> = Vec::new();
    let n = enemies.len();
    let mut i: usize = 0;
    while i < n
        invariant
            n == enemies@.len(),
            i <= n,
            ps@ == positions_of(enemies@.take(i as int)),
        decreases n - i,
    {
        ps.push(enemies[i].pos);
        proof {
            assert(positions_of(enemies@.take(i as int + 1)) =~= positions_of(
                enemies@.take(i as int),
            ).push(enemies@[i as int].pos));
        }
        i = i + 1;
    }
    proof {
        assert(enemies@.take(n as int) =~= enemies@);
    }
    ps
}

/// The repulsion one neighbour at `q` exerts on a hostile at `p`, in
/// micro-units: the unit direction away from the neighbour divided by the
/// squared distance. A coincident pair contributes exactly zero.
pub open spec fn sep_term(p: Vec2, q: Vec2) -> (int, int) {
    if p == q {
        (0, 0)
    } else {
        let dx = p.x - q.x;
        let dy = p.y - q.y;
        let d2 = norm_sq(dx, dy);
        let u = unit_of(dx, dy);
        (div_t(u.0 * 1_000_000_000, d2), div_t(u.1 * 1_000_000_000, d2))
    }
}

/// One separation term stays within a trillion micro-units per component.
pub proof fn lemma_sep_term_bound(p: Vec2, q: Vec2)
    requires
        in_box(p, POS_LIMIT as int),
        in_box(q, POS_LIMIT as int),
    ensures
        -1_000_000_000_000 <= sep_term(p, q).0 <= 1_000_000_000_000,
        -1_000_000_000_000 <= sep_term(p, q).1 <= 1_000_000_000_000,
{
    if p != q {
        let dx = p.x - q.x;
        let dy = p.y - q.y;
        let d2 = norm_sq(dx, dy);
        lemma_sep_d2_pos(p, q);
        let u = unit_of(dx, dy);
        lemma_unit_of_bound(dx, dy);
        lemma_mul_bound(u.0, 1_000_000_000, 1000, 1_000_000_000);
        lemma_mul_bound(u.1, 1_000_000_000, 1000, 1_000_000_000);
        crate::geom::lemma_mul_ordered(1, d2, 1_000_000_000_000);
        lemma_div_t_bound(u.0 * 1_000_000_000, d2, 1_000_000_000_000);
        lemma_div_t_bound(u.1 * 1_000_000_000, d2, 1_000_000_000_000);
    }
}

/// Two hostile agents at identical positions repel each other by exactly
/// zero: a degenerate coincidence contributes nothing, with no division by
/// the zero distance.
pub proof fn lemma_separation_coincident(p: Vec2)
    ensures
        sep_term(p, p) == (0int, 0int),
{
}

/// Distinct points are at squared distance at least one.
pub proof fn lemma_sep_d2_pos(p: Vec2, q: Vec2)
    requires
        p != q,
    ensures
        norm_sq(p.x - q.x, p.y - q.y) >= 1,
{
    let dx = p.x - q.x;
    let dy = p.y - q.y;
    lemma_square_nonneg(dx as int);
    lemma_square_nonneg(dy as int);
    if dx != 0 {
        lemma_nonzero_square(dx as int);
    } else {
        lemma_nonzero_square(dy as int);
    }
}

/// The summed repulsion from every listed neighbour on a hostile at `p`,
/// in micro-units.
pub open spec fn sep_sum(ps: Seq<Vec2>, p: Vec2) -> (int, int)
    decreases ps.len(),
{
    if ps.len() == 0 {
        (0, 0)
    } else {
        let rest = sep_sum(ps.drop_last(), p);
        let t = sep_term(p, ps.last());
        (rest.0 + t.0, rest.1 + t.1)
    }
}

/// Add up the repulsion from every listed position on the hostile at `p`.
pub fn separation(ps: &Vec<Vec2>, p: Vec2) -> (acc: (i128, i128))
    requires
        in_box(p, POS_LIMIT as int),
        forall|i: int| 0 <= i < ps@.len() ==> in_box(#[trigger] ps@[i], POS_LIMIT as int),
        ps@.len() <= MAX_ENEMIES,
    ensures
        acc.0 as int == sep_sum(ps@, p).0,
        acc.1 as int == sep_sum(ps@, p).1,
        -10_000_000_000_000_000 <= acc.0 <= 10_000_000_000_000_000,
        -10_000_000_000_000_000 <= acc.1 <= 10_000_000_000_000_000,
{
    let n = ps.len();
    let mut ax: i128 = 0;
    let mut ay: i128 = 0;
    let mut i: usize = 0;
    while i < n
        invariant
            n == ps@.len(),
            n <= MAX_ENEMIES,
            i <= n,
            in_box(p, POS_LIMIT as int),
            forall|k: int| 0 <= k < n ==> in_box(#[trigger] ps@[k], POS_LIMIT as int),
            ax as int == sep_sum(ps@.take(i as int), p).0,
            ay as int == sep_sum(ps@.take(i as int), p).1,
            -(i as int * 1_000_000_000_000) <= ax as int <= i as int * 1_000_000_000_000,
            -(i as int * 1_000_000_000_000) <= ay as int <= i as int * 1_000_000_000_000,
        decreases n - i,
    {
        let q = ps[i];
        let t = sep_term_at(p, q);
        proof {
            assert(ps@.take(i as int + 1).drop_last() =~= ps@.take(i as int));
            assert(ps@.take(i as int + 1).last() == ps@[i as int]);
        }
        ax = ax + t.0 as i128;
        ay = ay + t.1 as i128;
        i = i + 1;
    }
    proof {
        assert(ps@.take(n as int) =~= ps@);
    }
    (ax, ay)
}

/// Compute one separation term, exactly as `sep_term` states it.
pub fn sep_term_at(p: Vec2, q: Vec2) -> (t: (i64, i64))
    requires
        in_box(p, POS_LIMIT as int),
        in_box(q, POS_LIMIT as int),
    ensures
        t.0 as int == sep_term(p, q).0,
        t.1 as int == sep_term(p, q).1,
        -1_000_000_000_000 <= t.0 <= 1_000_000_000_000,
        -1_000_000_000_000 <= t.1 <= 1_000_000_000_000,
{
    if p.x == q.x && p.y == q.y {
        (0, 0)
    } else {
        let d2: i128 = dist_sq(p, q);
        proof {
            lemma_sep_d2_pos(p, q);
            lemma_mul_bound(p.x - q.x, p.x - q.x, 2_000_000_000, 2_000_000_000);
            lemma_mul_bound(p.y - q.y, p.y - q.y, 2_000_000_000, 2_000_000_000);
        }
        let u = normalize(Vec2 { x: p.x - q.x, y: p.y - q.y });
        let nx: i64 = u.x * 1_000_000_000;
        let ny: i64 = u.y * 1_000_000_000;
        let tx: i64 = crate::geom::div_tr_64(nx, d2 as u64);
        let ty: i64 = crate::geom::div_tr_64(ny, d2 as u64);
        proof {
            crate::geom::lemma_mul_ordered(1, d2 as int, 1_000_000_000_000);
            lemma_div_t_bound(nx as int, d2 as int, 1_000_000_000_000);
            lemma_div_t_bound(ny as int, d2 as int, 1_000_000_000_000);
        }
        (tx, ty)
    }
}

/// Where a hostile at `p` stands after one steering step: pulled toward
/// the player by its homing force, pushed off its neighbours by the
/// clamped separation sum scaled by the square of its separation force,
/// both over `num / den` seconds, then clamped into the world box.
pub open spec fn moved_pos(
    p: Vec2,
    others: Seq<Vec2>,
    player: Vec2,
    homing: int,
    sep: int,
    num: int,
    den: int,
) -> (int, int) {
    let u = unit_of(player.x - p.x, player.y - p.y);
    let hx = div_t(u.0 * homing * num, den);
    let hy = div_t(u.1 * homing * num, den);
    let s = sep_sum(others, p);
    let ceiling = 1_000_000int / sep;
    let sc = crate::geom::clamped_len(s.0, s.1, ceiling);
    let sx = div_t(sc.0 * sep * sep * num, den * 1000);
    let sy = div_t(sc.1 * sep * sep * num, den * 1000);
    (
        clamp_s(p.x + hx + sx, -(POS_LIMIT as int), POS_LIMIT as int),
        clamp_s(p.y + hy + sy, -(POS_LIMIT as int), POS_LIMIT as int),
    )
}

/// A hostile after one steering step: only its position changes.
pub open spec fn moved_enemy(e: Enemy, others: Seq<Vec2>, player: Vec2, num: int, den: int) -> Enemy {
    let m = moved_pos(
        e.pos,
        others,
        player,
        e.homing_force as int,
        e.separating_force as int,
        num,
        den,
    );
    Enemy { pos: Vec2 { x: m.0 as i64, y: m.1 as i64 }, ..e }
}

/// Steer one hostile for the elapsed tick.
fn move_one(
    p: Vec2,
    others: &Vec<Vec2>,
    player: Vec2,
    homing: u32,
    sep: u32,
    num: u32,
    den: u32,
) -> (r: Vec2)
    requires
        in_box(p, POS_LIMIT as int),
        in_box(player, POS_LIMIT as int),
        forall|i: int| 0 <= i < others@.len() ==> in_box(#[trigger] others@[i], POS_LIMIT as int),
        others@.len() <= MAX_ENEMIES,
        homing <= FORCE_LIMIT,
        1 <= sep <= FORCE_LIMIT,
        num <= 1_000_000,
        1 <= den <= 1_000_000,
    ensures
        r.x as int == moved_pos(
            p,
            others@,
            player,
            homing as int,
            sep as int,
            num as int,
            den as int,
        ).0,
        r.y as int == moved_pos(
            p,
            others@,
            player,
            homing as int,
            sep as int,
            num as int,
            den as int,
        ).1,
        in_box(r, POS_LIMIT as int),
{
    let u = normalize(Vec2 { x: player.x - p.x, y: player.y - p.y });
    let h = scale_dir(u, homing, num, den);
    let s = separation(others, p);
    let ceiling: u32 = 1_000_000 / sep;
    proof {
        crate::geom::lemma_div_ord_denom(1_000_000, sep as int, 10_000);
        crate::geom::lemma_div_ord_denom(1_000_000, 1, sep as int);
    }
    let sc = clamp_len(s.0, s.1, ceiling as u64);
    proof {
        lemma_mul_bound(sc.0 as int, sep as int, 1_000_000, 10_000);
        lemma_mul_bound(sc.0 as int * sep as int, sep as int, 10_000_000_000, 10_000);
        lemma_mul_bound(sc.0 as int * sep as int * sep as int, num as int, 100_000_000_000_000, 1_000_000);
        lemma_mul_bound(sc.1 as int, sep as int, 1_000_000, 10_000);
        lemma_mul_bound(sc.1 as int * sep as int, sep as int, 10_000_000_000, 10_000);
        lemma_mul_bound(sc.1 as int * sep as int * sep as int, num as int, 100_000_000_000_000, 1_000_000);
    }
    let sxn: i128 = (sc.0 as i128) * (sep as i128) * (sep as i128) * (num as i128);
    let syn: i128 = (sc.1 as i128) * (sep as i128) * (sep as i128) * (num as i128);
    let sdiv: u128 = (den as u128) * 1000;
    let sx: i128 = crate::geom::div_tr_128(sxn, sdiv);
    let sy: i128 = crate::geom::div_tr_128(syn, sdiv);
    proof {
        crate::geom::lemma_mul_ordered(1000, sdiv as int, 100_000_000_000_000_000);
        lemma_div_t_bound(sxn as int, sdiv as int, 100_000_000_000_000_000);
        lemma_div_t_bound(syn as int, sdiv as int, 100_000_000_000_000_000);
    }
    let rx: i64 = clamp_coord(p.x as i128 + h.0 as i128 + sx);
    let ry: i64 = clamp_coord(p.y as i128 + h.1 as i128 + sy);
    Vec2 { x: rx, y: ry }
}

/// The steering pass: every hostile is steered against the same snapshot
/// of neighbour positions, so the order of updates does not matter. The
/// player is read, never moved.
pub fn movement(enemies: &mut Vec<Enemy>, player: Vec2, num: u32, den: u32)
    requires
        forall|i: int| 0 <= i < old(enemies)@.len() ==> enemy_wf(#[trigger] old(enemies)@[i]),
        old(enemies)@.len() <= MAX_ENEMIES,
        in_box(player, POS_LIMIT as int),
        num <= 1_000_000,
        1 <= den <= 1_000_000,
    ensures
        final(enemies)@.len() == old(enemies)@.len(),
        forall|i: int|
            0 <= i < old(enemies)@.len() ==> final(enemies)@[i] == moved_enemy(
                #[trigger] old(enemies)@[i],
                positions_of(old(enemies)@),
                player,
                num as int,
                den as int,
            ),
        forall|i: int| 0 <= i < final(enemies)@.len() ==> enemy_wf(#[trigger] final(enemies)@[i]),
{
    let ghost es0 = old(enemies)@;
    let others = fetch_positions(enemies);
    proof {
        assert forall|i: int| 0 <= i < others@.len() implies in_box(
            #[trigger] others@[i],
            POS_LIMIT as int,
        ) by {
            assert(others@[i] == es0[i].pos);
        }
    }
    let n = enemies.len();
    let mut i: usize = 0;
    while i < n
        invariant
            n == es0.len(),
            enemies@.len() == n,
            i <= n,
            n <= MAX_ENEMIES,
            in_box(player, POS_LIMIT as int),
            num <= 1_000_000,
            1 <= den <= 1_000_000,
            others@ == positions_of(es0),
            forall|j: int| 0 <= j < n ==> enemy_wf(#[trigger] es0[j]),
            forall|j: int| 0 <= j < others@.len() ==> in_box(#[trigger] others@[j], POS_LIMIT as int),
            forall|j: int| i <= j < n ==> enemies@[j] == es0[j],
            forall|j: int|
                0 <= j < i ==> enemies@[j] == moved_enemy(
                    #[trigger] es0[j],
                    positions_of(es0),
                    player,
                    num as int,
                    den as int,
                ),
            forall|j: int| 0 <= j < i ==> enemy_wf(#[trigger] enemies@[j]),
        decreases n - i,
    {
        let e = enemies[i];
        proof {
            assert(enemies@[i as int] == es0[i as int]);
            assert(enemy_wf(es0[i as int]));
        }
        let npos = move_one(
            e.pos,
            &others,
            player,
            e.homing_force,
            e.separating_force,
            num,
            den,
        );
        let ne = Enemy { pos: npos, ..e };
        proof {
            assert(enemy_wf(ne));
            let m = moved_pos(
                e.pos,
                positions_of(es0),
                player,
                e.homing_force as int,
                e.separating_force as int,
                num as int,
                den as int,
            );
            assert(npos.x == m.0 as i64 && npos.y == m.1 as i64);
            assert(ne == moved_enemy(es0[i as int], positions_of(es0), player, num as int, den as int));
        }
        enemies.set(i, ne);
        i = i + 1;
    }
}

/// The whole hostile list after one steering pass against the shared
/// snapshot of positions.
pub open spec fn moved_all(es: Seq<Enemy>, player: Vec2, num: int, den: int) -> Seq<Enemy> {
    Seq::new(es.len(), |k: int| moved_enemy(es[k], positions_of(es), player, num, den))
}

/// A hostile after its attack timer ticked for the elapsed tick.
pub open spec fn ticked_enemy(e: Enemy, dt_us: u64) -> Enemy {
    Enemy { attack_timer: e.attack_timer.after_repeat_tick(dt_us), ..e }
}

/// Whether a hostile lands its contact attack this tick: its timer fires,
/// it is of the melee kind, and it overlaps the player.
pub open spec fn contact_hit(e: Enemy, dt_us: u64, ppos: Vec2, prad: int) -> bool {
    e.attack_timer.fires(dt_us) && e.kind == EnemyKind::Basic && circles_overlap(
        e.pos,
        e.radius as int,
        ppos,
        prad,
    )
}

/// The projectile a ranged hostile fires: from its own position, aimed at
/// the player, on the hostile team.
pub open spec fn ranged_shot(e: Enemy, ppos: Vec2) -> Projectile {
    let u = unit_of(ppos.x - e.pos.x, ppos.y - e.pos.y);
    Projectile {
        pos: e.pos,
        facing: Vec2 { x: u.0 as i64, y: u.1 as i64 },
        speed: 150,
        team: Team::Hostile,
        radius: 10_000,
    }
}

/// The projectiles fired this tick by the ranged hostiles whose timers
/// fire, in order.
pub open spec fn ranged_shots(es: Seq<Enemy>, dt_us: u64, ppos: Vec2) -> Seq<Projectile>
    decreases es.len(),
{
    if es.len() == 0 {
        Seq::empty()
    } else {
        let rest = ranged_shots(es.drop_last(), dt_us, ppos);
        if es.last().attack_timer.fires(dt_us) && es.last().kind == EnemyKind::Ranged {
            rest.push(ranged_shot(es.last(), ppos))
        } else {
            rest
        }
    }
}

/// The melee contact test of a basic hostile against the player.
pub fn handle_basic_attack(e: &Enemy, ppos: Vec2, prad: i64) -> (hit: bool)
    requires
        enemy_wf(*e),
        in_box(ppos, POS_LIMIT as int),
        0 < prad <= RADIUS_LIMIT,
    ensures
        hit == circles_overlap(e.pos, e.radius as int, ppos, prad as int),
{
    overlaps(e.pos, e.radius, ppos, prad)
}

/// Fire one ranged shot from a hostile toward the player.
pub fn handle_ranged_attack(e: &Enemy, ppos: Vec2) -> (p: Projectile)
    requires
        enemy_wf(*e),
        in_box(ppos, POS_LIMIT as int),
    ensures
        p == ranged_shot(*e, ppos),
        crate::projectile::projectile_wf(p),
{
    let u = normalize(Vec2 { x: ppos.x - e.pos.x, y: ppos.y - e.pos.y });
    Projectile { pos: e.pos, facing: u, speed: 150, team: Team::Hostile, radius: 10_000 }
}

/// The attack pass: tick every hostile's attack timer; each hostile whose
/// timer fires executes its kind's attack. A melee hostile overlapping the
/// player registers a hit on the player; a ranged hostile appends one
/// projectile aimed at the player.
pub fn handle_attacks(
    enemies: &mut Vec<Enemy>,
    ppos: Vec2,
    prad: i64,
    dt_us: u64,
    projectiles: &mut Vec<Projectile>,
) -> (hurt: bool)
    requires
        forall|i: int| 0 <= i < old(enemies)@.len() ==> enemy_wf(#[trigger] old(enemies)@[i]),
        forall|i: int|
            0 <= i < old(projectiles)@.len() ==> crate::projectile::projectile_wf(
                #[trigger] old(projectiles)@[i],
            ),
        in_box(ppos, POS_LIMIT as int),
        0 < prad <= RADIUS_LIMIT,
    ensures
        final(enemies)@.len() == old(enemies)@.len(),
        forall|i: int|
            0 <= i < old(enemies)@.len() ==> final(enemies)@[i] == ticked_enemy(
                #[trigger] old(enemies)@[i],
                dt_us,
            ),
        forall|i: int| 0 <= i < final(enemies)@.len() ==> enemy_wf(#[trigger] final(enemies)@[i]),
        hurt == exists|i: int|
            0 <= i < old(enemies)@.len() && contact_hit(
                #[trigger] old(enemies)@[i],
                dt_us,
                ppos,
                prad as int,
            ),
        final(projectiles)@ == old(projectiles)@ + ranged_shots(old(enemies)@, dt_us, ppos),
        forall|i: int|
            0 <= i < final(projectiles)@.len() ==> crate::projectile::projectile_wf(
                #[trigger] final(projectiles)@[i],
            ),
{
    let ghost es0 = old(enemies)@;
    let ghost qs0 = old(projectiles)@;
    let n = enemies.len();
    let mut hurt: bool = false;
    let mut i: usize = 0;
    while i < n
        invariant
            n == es0.len(),
            enemies@.len() == n,
            i <= n,
            in_box(ppos, POS_LIMIT as int),
            0 < prad <= RADIUS_LIMIT,
            forall|j: int| 0 <= j < n ==> enemy_wf(#[trigger] es0[j]),
            forall|j: int|
                0 <= j < qs0.len() ==> crate::projectile::projectile_wf(#[trigger] qs0[j]),
            forall|j: int| i <= j < n ==> enemies@[j] == es0[j],
            forall|j: int|
                0 <= j < i ==> enemies@[j] == ticked_enemy(#[trigger] es0[j], dt_us),
            forall|j: int| 0 <= j < i ==> enemy_wf(#[trigger] enemies@[j]),
            hurt == exists|j: int|
                0 <= j < i && contact_hit(#[trigger] es0[j], dt_us, ppos, prad as int),
            projectiles@ == qs0 + ranged_shots(es0.take(i as int), dt_us, ppos),
            forall|j: int|
                0 <= j < projectiles@.len() ==> crate::projectile::projectile_wf(
                    #[trigger] projectiles@[j],
                ),
        decreases n - i,
    {
        let e = enemies[i];
        proof {
            assert(enemies@[i as int] == es0[i as int]);
            assert(enemy_wf(es0[i as int]));
            assert(es0.take(i as int + 1).drop_last() =~= es0.take(i as int));
            assert(es0.take(i as int + 1).last() == es0[i as int]);
        }
        let mut te = e;
        let fired = te.attack_timer.tick_repeat(dt_us);
        enemies.set(i, te);
        if fired {
            match e.kind {
                EnemyKind::Basic => {
                    if handle_basic_attack(&e, ppos, prad) {
                        hurt = true;
                    }
                },
                EnemyKind::Ranged => {
                    let shot = handle_ranged_attack(&e, ppos);
                    projectiles.push(shot);
                },
            }
        }
        i = i + 1;
    }
    proof {
        assert(es0.take(n as int) =~= es0);
    }
    hurt
}

/// The hostiles that stay in the world: those whose health is above zero.
pub open spec fn alive_enemies(es: Seq<Enemy>) -> Seq<Enemy>
    decreases es.len(),
{
    if es.len() == 0 {
        Seq::empty()
    } else {
        let rest = alive_enemies(es.drop_last());
        if es.last().health.0 > 0 {
            rest.push(es.last())
        } else {
            rest
        }
    }
}

/// The kinds of the hostiles removed by the sweep, in order.
pub open spec fn killed_kinds(es: Seq<Enemy>) -> Seq<EnemyKind>
    decreases es.len(),
{
    if es.len() == 0 {
        Seq::empty()
    } else {
        let rest = killed_kinds(es.drop_last());
        if es.last().health.0 == 0 {
            rest.push(es.last().kind)
        } else {
            rest
        }
    }
}

/// Every survivor of the sweep already stood among the hostiles.
pub proof fn lemma_alive_sub(es: Seq<Enemy>)
    ensures
        forall|j: int|
            0 <= j < alive_enemies(es).len() ==> exists|k: int|
                0 <= k < es.len() && #[trigger] alive_enemies(es)[j] == es[k],
    decreases es.len(),
{
    if es.len() > 0 {
        lemma_alive_sub(es.drop_last());
        assert forall|j: int| 0 <= j < alive_enemies(es).len() implies exists|k: int|
            0 <= k < es.len() && #[trigger] alive_enemies(es)[j] == es[k] by {
            let rest = alive_enemies(es.drop_last());
            if j < rest.len() {
                let k = choose|k: int|
                    0 <= k < es.drop_last().len() && alive_enemies(es.drop_last())[j] == es.drop_last()[k];
                assert(es.drop_last()[k] == es[k]);
                assert(alive_enemies(es)[j] == es[k]);
            } else {
                assert(alive_enemies(es)[j] == es[es.len() - 1]);
            }
        }
    }
}

/// Hostile ids strictly increase along the list.
pub open spec fn ids_sorted(es: Seq<Enemy>) -> bool {
    forall|a: int, b: int| 0 <= a < b < es.len() ==> #[trigger] es[a].id < #[trigger] es[b].id
}

/// Every hostile id lies below the bound.
pub open spec fn ids_below(es: Seq<Enemy>, bound: int) -> bool {
    forall|a: int| 0 <= a < es.len() ==> (#[trigger] es[a].id as int) < bound
}

/// The sweep removes hostiles, it never adds any.
pub proof fn lemma_alive_len(es: Seq<Enemy>)
    ensures
        alive_enemies(es).len() <= es.len(),
    decreases es.len(),
{
    if es.len() > 0 {
        lemma_alive_len(es.drop_last());
    }
}

/// The sweep keeps the id order and any id bound.
pub proof fn lemma_alive_sorted(es: Seq<Enemy>, bound: int)
    requires
        ids_sorted(es),
        ids_below(es, bound),
    ensures
        ids_sorted(alive_enemies(es)),
        ids_below(alive_enemies(es), bound),
    decreases es.len(),
{
    if es.len() > 0 {
        let pre = es.drop_last();
        assert forall|a: int, b: int| 0 <= a < b < pre.len() implies #[trigger] pre[a].id
            < #[trigger] pre[b].id by {
            assert(pre[a] == es[a] && pre[b] == es[b]);
        }
        assert forall|a: int| 0 <= a < pre.len() implies (#[trigger] pre[a].id as int) < bound by {
            assert(pre[a] == es[a]);
        }
        lemma_alive_sorted(pre, bound);
        lemma_alive_sub(pre);
        let al = alive_enemies(es);
        let alp = alive_enemies(pre);
        assert forall|a: int, b: int| 0 <= a < b < al.len() implies #[trigger] al[a].id
            < #[trigger] al[b].id by {
            if b < alp.len() {
                assert(al[a] == alp[a] && al[b] == alp[b]);
            } else {
                assert(al[b] == es.last());
                assert(al[a] == alp[a]);
                let k = choose|k: int| 0 <= k < pre.len() && alp[a] == pre[k];
                assert(pre[k] == es[k]);
                assert(es[k].id < es.last().id);
            }
        }
        assert forall|a: int| 0 <= a < al.len() implies (#[trigger] al[a].id as int) < bound by {
            if a < alp.len() {
                assert(al[a] == alp[a]);
            } else {
                assert(al[a] == es.last());
            }
        }
    }
}

/// The end-of-tick sweep: remove every hostile whose health reached zero,
/// enqueueing one ability charge of its kind onto the player's queue, in
/// order. Reports how many were removed.
pub fn handle_health(enemies: &mut Vec<Enemy>, sparks: &mut VecDeque<EnemyKind>) -> (killed: usize)
    ensures
        final(enemies)@ == alive_enemies(old(enemies)@),
        final(sparks)@ == old(sparks)@ + killed_kinds(old(enemies)@),
        killed as int == killed_kinds(old(enemies)@).len(),
{
    let ghost es0 = old(enemies)@;
    let ghost sp0 = old(sparks)@;
    let n = enemies.len();
    let mut keep: Vec<Enemy> = Vec::new();
    let mut killed: usize = 0;
    let mut i: usize = 0;
    while i < n
        invariant
            n == es0.len(),
            enemies@ == es0,
            i <= n,
            keep@ == alive_enemies(es0.take(i as int)),
            sparks@ == sp0 + killed_kinds(es0.take(i as int)),
            killed as int == killed_kinds(es0.take(i as int)).len(),
            killed <= i,
        decreases n - i,
    {
        let e = enemies[i];
        proof {
            assert(es0.take(i as int + 1).drop_last() =~= es0.take(i as int));
            assert(es0.take(i as int + 1).last() == es0[i as int]);
        }
        if e.health.0 == 0 {
            sparks.push_back(e.kind);
            killed = killed + 1;
        } else {
            keep.push(e);
        }
        i = i + 1;
    }
    proof {
        assert(es0.take(n as int) =~= es0);
    }
    *enemies = keep;
    killed
}

/// The health values of a sequence of hostiles, in order.
pub open spec fn healths_of(es: Seq<Enemy>) -> Seq<usize> {
    es.map_values(|e: Enemy| e.health.0)
}

/// Snapshot the health of every hostile, in order.
pub fn snapshot_healths(enemies: &Vec<Enemy>) -> (hs: Vec<usize>)
    ensures
        hs@ == healths_of(enemies@),
        hs@.len() == enemies@.len(),
{
    let mut hs: Vec<usize> = Vec::new();
    let n = enemies.len();
    let mut i: usize = 0;
    while i < n
        invariant
            n == enemies@.len(),
            i <= n,
            hs@ == healths_of(enemies@.take(i as int)),
        decreases n - i,
    {
        hs.push(enemies[i].health.0);
        proof {
            assert(healths_of(enemies@.take(i as int + 1)) =~= healths_of(
                enemies@.take(i as int),
            ).push(enemies@[i as int].health.0));
        }
        i = i + 1;
    }
    proof {
        assert(enemies@.take(n as int) =~= enemies@);
    }
    hs
}

} // verus!
