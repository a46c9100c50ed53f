//! The session score: one point for every hostile that was damaged this
//! tick and survived, with a high-water mark. A kill scores no point; a
//! freshly spawned hostile's initial health counts as no change.

use vstd::prelude::*;
use crate::enemy::Enemy;

verus! {

/// The session counter and its high-water mark.
#[derive(Clone, Copy, PartialEq, Eq, Structural, Debug)]
pub struct Score {
    pub score: usize,
    pub high_score: usize,
}

/// How many of the first `n` hostiles lost health against the snapshot
/// taken at the start of the tick and are still alive.
pub open spec fn hurt_count(es: Seq<Enemy>, snap: Seq<usize>, n: int) -> int
    decreases n,
{
    if n <= 0 {
        0
    } else {
        hurt_count(es, snap, n - 1) + if es[n - 1].health.0 < snap[n - 1] && es[n - 1].health.0
            > 0 {
            1int
        } else {
            0int
        }
    }
}

/// Start a play session: the score returns to zero, the high-water mark
/// stays.
pub fn reset_score(score: &mut Score)
    ensures
        final(score).score == 0,
        final(score).high_score == old(score).high_score,
{
    score.score = 0;
}

/// The score pass: count the hostiles whose health dropped below the
/// tick-start snapshot and is still positive, add that count to the score
/// (saturating at the counter's ceiling), and raise the high-water mark to
/// the score when exceeded. Returns the count.
pub fn update_score(score: &mut Score, enemies: &Vec<Enemy>, snapshot: &Vec<usize>) -> (hurt_n:
    usize)
    requires
        snapshot@.len() == enemies@.len(),
    ensures
        hurt_n as int == hurt_count(enemies@, snapshot@, enemies@.len() as int),
        final(score).score as int == if old(score).score + hurt_n <= usize::MAX {
            old(score).score + hurt_n
        } else {
            usize::MAX as int
        },
        final(score).high_score == if final(score).score > old(score).high_score {
            final(score).score
        } else {
            old(score).high_score
        },
        final(score).score >= old(score).score,
        final(score).high_score >= old(score).high_score,
{
    let n = enemies.len();
    let mut cnt: usize = 0;
    let mut i: usize = 0;
    while i < n
        invariant
            n == enemies@.len(),
            snapshot@.len() == n,
            i <= n,
            cnt as int == hurt_count(enemies@, snapshot@, i as int),
            cnt <= i,
        decreases n - i,
    {
        let e = enemies[i];
        if e.health.0 < snapshot[i] && e.health.0 > 0 {
            cnt = cnt + 1;
        }
        i = i + 1;
    }
    if score.score <= usize::MAX - cnt {
        score.score = score.score + cnt;
    } else {
        score.score = usize::MAX;
    }
    if score.score > score.high_score {
        score.high_score = score.score;
    }
    cnt
}

} // verus!
