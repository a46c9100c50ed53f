//! The spawn director: once per tick, each hostile kind passes a Bernoulli
//! trial with probability `rate * dt` and, on success, enters the world on
//! a ring around the origin at a random angle. The ranged kind's rate
//! scales with the score.

use vstd::prelude::*;
use crate::geom::{Vec2, in_box, unit_of, normalize, lemma_mul_bound, POS_LIMIT};
use crate::enemy::{Enemy, EnemyKind, spawned_enemy, enemy_wf, MAX_ENEMIES};
use crate::score::Score;

verus! {

/// The spawn ring's radius in world units.
pub const RING_RADIUS: i64 = 600;

/// The resolution of one uniform draw: trials are drawn below this.
pub const TRIAL_SCALE: u64 = 1_000_000;

/// Spawn rates are capped at this many milli-spawns per second.
pub const RATE_CAP: u64 = 1_000_000;

/// The random draws behind one kind's spawn trial: the Bernoulli draw and
/// a direction for the ring angle.
#[derive(Clone, Copy, PartialEq, Eq, Structural, Debug)]
pub struct SpawnSample {
    pub trial: u64,
    pub dir_x: u64,
    pub dir_y: u64,
}

/// A sample is in range: the trial below the scale, the direction draws
/// inside the square that is folded onto the ring.
pub open spec fn sample_ok(s: SpawnSample) -> bool {
    s.trial < TRIAL_SCALE && s.dir_x < 2001 && s.dir_y < 2001
}

/// One tick's random draws: one sample per hostile kind.
#[derive(Clone, Copy, PartialEq, Eq, Structural, Debug)]
pub struct SpawnSamples {
    pub basic: SpawnSample,
    pub ranged: SpawnSample,
}

/// Both samples are in range.
pub open spec fn samples_ok(s: SpawnSamples) -> bool {
    sample_ok(s.basic) && sample_ok(s.ranged)
}

/// Relies on rand::Rng::gen_range over `0..n`: it returns a uniformly
/// distributed value of that range, and panics only on an empty range.
#[verifier::external_body]
fn sample_below(n: u64) -> (r: u64)
    requires
        1 <= n,
    ensures
        r < n,
{
    rand::Rng::gen_range(&mut rand::thread_rng(), 0..n)
}

/// Draw one tick's worth of spawn randomness.
pub fn draw_samples() -> (s: SpawnSamples)
    ensures
        samples_ok(s),
{
    SpawnSamples {
        basic: SpawnSample {
            trial: sample_below(TRIAL_SCALE),
            dir_x: sample_below(2001),
            dir_y: sample_below(2001),
        },
        ranged: SpawnSample {
            trial: sample_below(TRIAL_SCALE),
            dir_x: sample_below(2001),
            dir_y: sample_below(2001),
        },
    }
}

/// The Bernoulli trial: with the trial drawn uniformly below the scale,
/// this holds with probability `rate * dt`, where the rate is given in
/// milli-spawns per second and `dt` is `num / den` seconds.
pub open spec fn spawn_decided(rate_milli: int, num: int, den: int, trial: int) -> bool {
    trial * 1000 * den < rate_milli * num * 1_000_000
}

/// A rate of zero never spawns, whatever the tick duration and however
/// the trial falls.
pub proof fn lemma_zero_rate_never_spawns(num: int, den: int, trial: int)
    requires
        0 <= trial,
        1 <= den,
    ensures
        !spawn_decided(0, num, den, trial),
{
    assert(0 * num * 1_000_000 == 0) by (nonlinear_arith);
    assert(trial * 1000 * den >= 0) by (nonlinear_arith)
        requires
            0 <= trial,
            1 <= den,
    ;
}

/// With the score at zero the ranged kind's rate is zero, so one tick of
/// the director can only append basic hostiles, however the trials fall.
pub proof fn lemma_zero_score_no_ranged(
    es_len: int,
    next_id: int,
    num: int,
    den: int,
    s: SpawnSamples,
)
    requires
        samples_ok(s),
        1 <= den,
    ensures
        forall|i: int|
            0 <= i < spawn_batch(es_len, 0, next_id, num, den, s).len() ==> (#[trigger] spawn_batch(
                es_len,
                0,
                next_id,
                num,
                den,
                s,
            )[i]).kind == EnemyKind::Basic,
{
    assert(ranged_rate(0) == 0);
    lemma_zero_rate_never_spawns(num, den, s.ranged.trial as int);
}

/// Decide one kind's spawn trial, exactly as `spawn_decided` states it.
pub fn decide_spawn(rate_milli: u64, num: u32, den: u32, trial: u64) -> (r: bool)
    requires
        rate_milli <= RATE_CAP,
        num <= 1_000_000,
        1 <= den <= 1_000_000,
        trial < TRIAL_SCALE,
    ensures
        r == spawn_decided(rate_milli as int, num as int, den as int, trial as int),
{
    proof {
        lemma_mul_bound(trial as int * 1000, den as int, 1_000_000_000, 1_000_000);
        lemma_mul_bound(rate_milli as int, num as int, 1_000_000, 1_000_000);
        lemma_mul_bound(rate_milli as int * num as int, 1_000_000, 1_000_000_000_000, 1_000_000);
    }
    trial * 1000 * (den as u64) < rate_milli * (num as u64) * 1_000_000
}

/// The ranged kind's spawn rate in milli-spawns per second: one hundredth
/// of a spawn per second for each point of score, capped. Monotone in the
/// score.
pub open spec fn ranged_rate(score: int) -> int {
    if 10 * score > RATE_CAP as int {
        RATE_CAP as int
    } else {
        10 * score
    }
}

/// Compute the ranged kind's rate from the score.
pub fn ranged_rate_of(score: usize) -> (r: u64)
    ensures
        r as int == ranged_rate(score as int),
        r <= RATE_CAP,
{
    if score > 100_000 {
        RATE_CAP
    } else {
        10 * (score as u64)
    }
}

/// The unit direction (per-mille) that a pair of direction draws folds
/// onto, the draw scaled up first so that the truncation stays small; the
/// degenerate centre draw points straight up.
pub open spec fn ring_dir(dir_x: int, dir_y: int) -> (int, int) {
    let dx = dir_x - 1000;
    let dy = dir_y - 1000;
    if dx == 0 && dy == 0 {
        (0, 1000)
    } else {
        unit_of(dx * 1000, dy * 1000)
    }
}

/// The spawn position for a pair of direction draws: on the ring of
/// `RING_RADIUS` world units around the origin (up to the per-mille
/// rounding of the unit direction).
pub open spec fn ring_pos(dir_x: int, dir_y: int) -> (int, int) {
    (ring_dir(dir_x, dir_y).0 * RING_RADIUS, ring_dir(dir_x, dir_y).1 * RING_RADIUS)
}

/// Compute the spawn position, exactly as `ring_pos` states it.
pub fn ring_position(dir_x: u64, dir_y: u64) -> (v: Vec2)
    requires
        dir_x < 2001,
        dir_y < 2001,
    ensures
        v.x as int == ring_pos(dir_x as int, dir_y as int).0,
        v.y as int == ring_pos(dir_x as int, dir_y as int).1,
        in_box(v, POS_LIMIT as int),
{
    let dx: i64 = dir_x as i64 - 1000;
    let dy: i64 = dir_y as i64 - 1000;
    if dx == 0 && dy == 0 {
        Vec2 { x: 0, y: 1000 * RING_RADIUS }
    } else {
        let u = normalize(Vec2 { x: dx * 1000, y: dy * 1000 });
        Vec2 { x: u.x * RING_RADIUS, y: u.y * RING_RADIUS }
    }
}

/// What one tick of the director appends to the world: for each kind in
/// turn, a hostile of that kind on the ring when its trial succeeds, the
/// world is below its capacity, and an id is available. Ids are taken in
/// order starting at `next_id`.
pub open spec fn spawn_batch(
    es_len: int,
    score: int,
    next_id: int,
    num: int,
    den: int,
    s: SpawnSamples,
) -> Seq<Enemy> {
    let b_ok = spawn_decided(1000, num, den, s.basic.trial as int) && es_len < MAX_ENEMIES as int
        && next_id < u64::MAX as int;
    let first: Seq<Enemy> = if b_ok {
        seq![
            spawned_enemy(
                EnemyKind::Basic,
                Vec2 {
                    x: ring_pos(s.basic.dir_x as int, s.basic.dir_y as int).0 as i64,
                    y: ring_pos(s.basic.dir_x as int, s.basic.dir_y as int).1 as i64,
                },
                next_id as u64,
            ),
        ]
    } else {
        Seq::empty()
    };
    let id2 = next_id + first.len();
    let r_ok = spawn_decided(ranged_rate(score), num, den, s.ranged.trial as int) && es_len
        + first.len() < MAX_ENEMIES as int && id2 < u64::MAX as int;
    if r_ok {
        first + seq![
            spawned_enemy(
                EnemyKind::Ranged,
                Vec2 {
                    x: ring_pos(s.ranged.dir_x as int, s.ranged.dir_y as int).0 as i64,
                    y: ring_pos(s.ranged.dir_x as int, s.ranged.dir_y as int).1 as i64,
                },
                id2 as u64,
            ),
        ]
    } else {
        first
    }
}

/// One tick of the spawn director: append this tick's batch and advance
/// the id counter by its size.
pub fn spawn_enemy(
    enemies: &mut Vec<Enemy>,
    score: &Score,
    next_id: &mut u64,
    num: u32,
    den: u32,
    samples: SpawnSamples,
)
    requires
        forall|i: int| 0 <= i < old(enemies)@.len() ==> enemy_wf(#[trigger] old(enemies)@[i]),
        old(enemies)@.len() <= MAX_ENEMIES,
        samples_ok(samples),
        num <= 1_000_000,
        1 <= den <= 1_000_000,
    ensures
        final(enemies)@ == old(enemies)@ + spawn_batch(
            old(enemies)@.len() as int,
            score.score as int,
            *old(next_id) as int,
            num as int,
            den as int,
            samples,
        ),
        *final(next_id) as int == *old(next_id) + spawn_batch(
            old(enemies)@.len() as int,
            score.score as int,
            *old(next_id) as int,
            num as int,
            den as int,
            samples,
        ).len(),
        forall|i: int| 0 <= i < final(enemies)@.len() ==> enemy_wf(#[trigger] final(enemies)@[i]),
        final(enemies)@.len() <= MAX_ENEMIES,
{
    let ghost es0 = old(enemies)@;
    let ghost batch = spawn_batch(
        es0.len() as int,
        score.score as int,
        *old(next_id) as int,
        num as int,
        den as int,
        samples,
    );
    let len0 = enemies.len();
    if decide_spawn(1000, num, den, samples.basic.trial) && len0 < MAX_ENEMIES && *next_id
        < u64::MAX {
        let pos = ring_position(samples.basic.dir_x, samples.basic.dir_y);
        let e = Enemy::new(EnemyKind::Basic, pos, *next_id);
        enemies.push(e);
        *next_id = *next_id + 1;
    }
    let rate = ranged_rate_of(score.score);
    if decide_spawn(rate, num, den, samples.ranged.trial) && enemies.len() < MAX_ENEMIES
        && *next_id < u64::MAX {
        let pos = ring_position(samples.ranged.dir_x, samples.ranged.dir_y);
        let e = Enemy::new(EnemyKind::Ranged, pos, *next_id);
        enemies.push(e);
        *next_id = *next_id + 1;
    }
    proof {
        assert(enemies@ =~= es0 + batch);
    }
}

} // verus!
