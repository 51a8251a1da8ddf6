//! The composite ranking score.
//!
//! A score is the weighted sum
//! `0.3 * (level / 5) + 0.2 * (reputation / 100000) + 0.3 * (attention / 100000) + 0.2 * t`,
//! where `t` is `1` for a post younger than one hour and `1/2` otherwise.
//! Every weight is a multiple of one millionth, so scores are held exactly, as
//! a whole number of millionths.

use vstd::prelude::*;

verus! {

/// How many units of score make up `1.0`.
pub const SCORE_UNITS: i128 = 1_000_000;

/// Reputation assumed for an author without a profile.
pub const DEFAULT_REPUTATION: i64 = 50;

/// Age, in seconds, below which a post counts as recent.
pub const RECENT_WINDOW_SECS: i64 = 3600;

/// `0.3 * (level / 5)`, in millionths.
pub open spec fn level_term(level: int) -> int {
    60_000 * level
}

/// `0.2 * (reputation / 100000)`, in millionths.
pub open spec fn reputation_term(reputation: int) -> int {
    2 * reputation
}

/// `0.3 * (attention / 100000)`, in millionths.
pub open spec fn attention_term(attention: int) -> int {
    3 * attention
}

/// `0.2 * 1` for a post younger than an hour, `0.2 * 0.5` otherwise, in millionths.
pub open spec fn time_term(age_secs: int) -> int {
    if age_secs < RECENT_WINDOW_SECS as int {
        200_000
    } else {
        100_000
    }
}

/// The reputation that enters the score: the author's own, or the default
/// where the author has no profile.
pub open spec fn effective_reputation(reputation: Option<i64>) -> int {
    match reputation {
        Some(r) => r as int,
        None => DEFAULT_REPUTATION as int,
    }
}

/// The terms carry the weights they are named for: a term, over the number
/// of units in `1.0`, is three tenths of a fifth of the level, two tenths of
/// a hundred-thousandth of the reputation, three tenths of a
/// hundred-thousandth of the attention, and two tenths of one or of one half.
pub proof fn lemma_terms_are_weighted(level: int, reputation: int, attention: int, age_secs: int)
    ensures
        10 * 5 * level_term(level) == 3 * level * SCORE_UNITS,
        10 * 100_000 * reputation_term(reputation) == 2 * reputation * SCORE_UNITS,
        10 * 100_000 * attention_term(attention) == 3 * attention * SCORE_UNITS,
        age_secs < RECENT_WINDOW_SECS ==> 10 * time_term(age_secs) == 2 * SCORE_UNITS,
        age_secs >= RECENT_WINDOW_SECS ==> 10 * 2 * time_term(age_secs) == 2 * SCORE_UNITS,
{
    assert(SCORE_UNITS == 1_000_000);
    assert(3 * level * 1_000_000 == 50 * (60_000 * level));
    assert(2 * reputation * 1_000_000 == 1_000_000 * (2 * reputation));
    assert(3 * attention * 1_000_000 == 1_000_000 * (3 * attention));
}

/// The four terms of a score and their sum.
pub struct ScoreParts {
    pub score: i128,
    pub level_score: i128,
    pub reputation_score: i128,
    pub attention_score: i128,
    pub time_score: i128,
}

/// The parts of the score of a post with the given level, author reputation,
/// accumulated attention and age.
pub open spec fn score_parts(level: int, reputation: Option<i64>, attention: int, age_secs: int) -> ScoreParts {
    ScoreParts {
        score: (level_term(level) + reputation_term(effective_reputation(reputation))
            + attention_term(attention) + time_term(age_secs)) as i128,
        level_score: level_term(level) as i128,
        reputation_score: reputation_term(effective_reputation(reputation)) as i128,
        attention_score: attention_term(attention) as i128,
        time_score: time_term(age_secs) as i128,
    }
}

/// Computes the score of a post created at `created_at`, as seen at `now`
/// (both in seconds since the epoch).
pub fn compute_score(level: i16, reputation: Option<i64>, attention: i64, created_at: i64, now: i64) -> (parts: ScoreParts)
    ensures
        parts == score_parts(level as int, reputation, attention as int, now - created_at),
        parts.score == parts.level_score + parts.reputation_score + parts.attention_score
            + parts.time_score,
{
    let rep: i64 = match reputation {
        Some(r) => r,
        None => DEFAULT_REPUTATION,
    };
    let age: i128 = now as i128 - created_at as i128;
    let level_score: i128 = 60_000 * (level as i128);
    let reputation_score: i128 = 2 * (rep as i128);
    let attention_score: i128 = 3 * (attention as i128);
    let time_score: i128 = if age < RECENT_WINDOW_SECS as i128 { 200_000 } else { 100_000 };
    ScoreParts {
        score: level_score + reputation_score + attention_score + time_score,
        level_score,
        reputation_score,
        attention_score,
        time_score,
    }
}

} // verus!
