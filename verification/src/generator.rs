//! The generator: a timeline grown from the initial snapshot by a biased
//! random walk.

use crate::stamp::{
    initial, initial_stamp, is_step, is_timeline, is_walk, lemma_walk_is_timeline, lemma_walk_push,
    Score, Stamp,
};
use rand::rngs::ThreadRng;
use rand::Rng;
use vstd::prelude::*;

verus! {

/// How many steps `generate_game` takes.
pub const TIMESTAMPS_COUNT: usize = 50000;

/// The unit in which probabilities are given: parts per million.
pub const PROBABILITY_SCALE: u32 = 1000000;

/// How likely a step is to change the score, in parts per million: one in ten
/// thousand.
pub const PROBABILITY_SCORE_CHANGED: u32 = 100;

/// How likely a change of score is to go to the home side, in parts per
/// million: 45 in a hundred.
pub const PROBABILITY_HOME_SCORE: u32 = 450000;

/// The most by which one step advances the offset.
pub const OFFSET_MAX_STEP: i32 = 3;

/// `rand::rngs::ThreadRng`, the handle to a thread's generator: carried
/// through to the draws, with nothing known of what it holds.
#[verifier::external_type_specification]
#[verifier::external_body]
pub struct ExThreadRng(ThreadRng);

/// `rand::thread_rng`: the handle to this thread's generator, which the
/// system seeds on first use. Nothing is claimed of it.
pub assume_specification[ rand::thread_rng ]() -> (rng: ThreadRng);

/// `Rng::gen_ratio` on the thread's generator: a bool that is true with
/// probability `numerator / denominator`. The call panics where the
/// denominator is 0 or the numerator exceeds it, so those are left out. What
/// is claimed of the result is what rand documents of every outcome: with
/// equal numerator and denominator it is true, with numerator 0 it is false.
#[verifier::external_body]
fn draw_ratio(rng: &mut ThreadRng, numerator: u32, denominator: u32) -> (hit: bool)
    requires
        0 < denominator,
        numerator <= denominator,
    ensures
        numerator == denominator ==> hit,
        numerator == 0 ==> !hit,
{
    rng.gen_ratio(numerator, denominator)
}

/// `Rng::gen_range` on the thread's generator, over the closed range from
/// `low` to `high`. The call panics on an empty range, so `low <= high` is
/// asked. What is claimed is that the value lies in the range.
#[verifier::external_body]
fn draw_in_range(rng: &mut ThreadRng, low: i32, high: i32) -> (value: i32)
    requires
        low <= high,
    ensures
        low <= value <= high,
{
    rng.gen_range(low..=high)
}

/// The snapshot that follows `previous` once the three draws of a step are
/// known: the offset grows by `offset_change`; the home side gains one where
/// the score changed and the change went to the home side, the away side
/// gains one where it changed and did not.
pub open spec fn stepped(
    previous: Stamp,
    score_changed: bool,
    home_score_change: bool,
    offset_change: int,
) -> Stamp {
    Stamp {
        offset: (previous.offset + offset_change) as i32,
        score: Score {
            home: (previous.score.home + if score_changed && home_score_change {
                1int
            } else {
                0int
            }) as i32,
            away: (previous.score.away + if score_changed && !home_score_change {
                1int
            } else {
                0int
            }) as i32,
        },
    }
}

/// The snapshot that follows `previous_value`, given the three draws of a
/// step. The new offset and the count that grows must be representable.
pub fn next_stamp(
    previous_value: Stamp,
    score_changed: bool,
    home_score_change: bool,
    offset_change: i32,
) -> (next: Stamp)
    requires
        i32::MIN <= previous_value.offset + offset_change <= i32::MAX,
        score_changed && home_score_change ==> previous_value.score.home < i32::MAX,
        score_changed && !home_score_change ==> previous_value.score.away < i32::MAX,
    ensures
        next == stepped(previous_value, score_changed, home_score_change, offset_change as int),
{
    let home_gain: i32 = if score_changed && home_score_change {
        1
    } else {
        0
    };
    let away_gain: i32 = if score_changed && !home_score_change {
        1
    } else {
        0
    };
    Stamp {
        offset: previous_value.offset + offset_change,
        score: Score {
            home: previous_value.score.home + home_gain,
            away: previous_value.score.away + away_gain,
        },
    }
}

/// Whatever the draws, `stepped` makes a step of the walk, as long as the
/// offset change lies between 1 and `max_step` and nothing overflows.
pub proof fn lemma_stepped_is_step(
    previous: Stamp,
    score_changed: bool,
    home_score_change: bool,
    offset_change: int,
    max_step: int,
)
    requires
        1 <= offset_change <= max_step,
        previous.offset + offset_change <= i32::MAX,
        previous.score.home < i32::MAX,
        previous.score.away < i32::MAX,
    ensures
        is_step(
            previous,
            stepped(previous, score_changed, home_score_change, offset_change),
            max_step,
        ),
{
}

/// Draws one step and takes it. The score changes with probability
/// `probability_score_changed`, and then goes to the home side with
/// probability `probability_home_score`, both in parts per million; the
/// offset advances by a draw from 1 to `max_offset_step`.
///
/// The result is some `stepped` snapshot. Where a probability is 0 or is the
/// full scale its draw is certain, and the result says so.
pub fn generate_stamp(
    rng: &mut ThreadRng,
    previous_value: Stamp,
    probability_score_changed: u32,
    probability_home_score: u32,
    max_offset_step: i32,
) -> (next: Stamp)
    requires
        probability_score_changed <= PROBABILITY_SCALE,
        probability_home_score <= PROBABILITY_SCALE,
        1 <= max_offset_step,
        previous_value.offset + max_offset_step <= i32::MAX,
        previous_value.score.home < i32::MAX,
        previous_value.score.away < i32::MAX,
    ensures
        exists|score_changed: bool, home_score_change: bool, offset_change: int|
            {
                &&& 1 <= offset_change <= max_offset_step
                &&& probability_score_changed == 0 ==> !score_changed
                &&& probability_score_changed == PROBABILITY_SCALE ==> score_changed
                &&& probability_home_score == 0 ==> !home_score_change
                &&& probability_home_score == PROBABILITY_SCALE ==> home_score_change
                &&& next == #[trigger] stepped(
                    previous_value,
                    score_changed,
                    home_score_change,
                    offset_change,
                )
            },
        is_step(previous_value, next, max_offset_step as int),
{
    let score_changed: bool = draw_ratio(rng, probability_score_changed, PROBABILITY_SCALE);
    let home_score_change: bool = draw_ratio(rng, probability_home_score, PROBABILITY_SCALE);
    let offset_change: i32 = draw_in_range(rng, 1, max_offset_step);
    proof {
        lemma_stepped_is_step(
            previous_value,
            score_changed,
            home_score_change,
            offset_change as int,
            max_offset_step as int,
        );
    }
    next_stamp(previous_value, score_changed, home_score_change, offset_change)
}

/// A timeline of `steps` steps from the initial snapshot, each drawn as
/// `generate_stamp` draws it.
///
/// No offset may overflow: `steps` times `max_offset_step` must be
/// representable. The result is a walk of `steps + 1` snapshots, and so a
/// timeline. Where the score never changes every snapshot is nil-nil; where
/// it always changes the two counts of the snapshot at index `i` add up to
/// `i`, all of it with the home side where the change always goes there and
/// all of it with the away side where it never does.
pub fn generate_timeline(
    rng: &mut ThreadRng,
    steps: usize,
    probability_score_changed: u32,
    probability_home_score: u32,
    max_offset_step: i32,
) -> (stamps: Vec<Stamp>)
    requires
        probability_score_changed <= PROBABILITY_SCALE,
        probability_home_score <= PROBABILITY_SCALE,
        1 <= max_offset_step,
        steps * max_offset_step <= i32::MAX,
    ensures
        stamps@.len() == steps + 1,
        is_walk(stamps@, max_offset_step as int),
        is_timeline(stamps@),
        probability_score_changed == 0 ==> forall|i: int|
            0 <= i < stamps@.len() ==> (#[trigger] stamps@[i]).score == initial().score,
        probability_score_changed == PROBABILITY_SCALE ==> forall|i: int|
            0 <= i < stamps@.len() ==> (#[trigger] stamps@[i]).score.home + stamps@[i].score.away
                == i,
        probability_score_changed == PROBABILITY_SCALE && probability_home_score == 0
            ==> forall|i: int|
            0 <= i < stamps@.len() ==> (#[trigger] stamps@[i]).score.home == 0,
        probability_score_changed == PROBABILITY_SCALE && probability_home_score
            == PROBABILITY_SCALE ==> forall|i: int|
            0 <= i < stamps@.len() ==> (#[trigger] stamps@[i]).score.away == 0,
{
    let mut stamps: Vec<Stamp> = Vec::new();
    let mut current_stamp: Stamp = initial_stamp();
    stamps.push(current_stamp);
    let mut taken: usize = 0;
    while taken < steps
        invariant
            probability_score_changed <= PROBABILITY_SCALE,
            probability_home_score <= PROBABILITY_SCALE,
            1 <= max_offset_step,
            steps * max_offset_step <= i32::MAX,
            taken <= steps,
            stamps@.len() == taken + 1,
            current_stamp == stamps@[taken as int],
            is_walk(stamps@, max_offset_step as int),
            current_stamp.offset <= taken * max_offset_step,
            0 <= current_stamp.score.home,
            0 <= current_stamp.score.away,
            current_stamp.score.home + current_stamp.score.away <= taken,
            probability_score_changed == 0 ==> forall|i: int|
                0 <= i < stamps@.len() ==> (#[trigger] stamps@[i]).score == initial().score,
            probability_score_changed == PROBABILITY_SCALE ==> forall|i: int|
                0 <= i < stamps@.len() ==> (#[trigger] stamps@[i]).score.home
                    + stamps@[i].score.away == i,
            probability_score_changed == PROBABILITY_SCALE && probability_home_score == 0
                ==> forall|i: int|
                0 <= i < stamps@.len() ==> (#[trigger] stamps@[i]).score.home == 0,
            probability_score_changed == PROBABILITY_SCALE && probability_home_score
                == PROBABILITY_SCALE ==> forall|i: int|
                0 <= i < stamps@.len() ==> (#[trigger] stamps@[i]).score.away == 0,
        decreases steps - taken,
    {
        proof {
            lemma_room_for_a_step(taken as int, steps as int, max_offset_step as int);
        }
        let next: Stamp = generate_stamp(
            rng,
            current_stamp,
            probability_score_changed,
            probability_home_score,
            max_offset_step,
        );
        proof {
            lemma_walk_push(stamps@, next, max_offset_step as int);
        }
        stamps.push(next);
        current_stamp = next;
        taken = taken + 1;
    }
    proof {
        lemma_walk_is_timeline(stamps@, max_offset_step as int);
    }
    stamps
}

/// A timeline drawn with the defaults: `TIMESTAMPS_COUNT` steps of at most
/// `OFFSET_MAX_STEP`, the score changing with probability
/// `PROBABILITY_SCORE_CHANGED` and then going to the home side with
/// probability `PROBABILITY_HOME_SCORE`, on this thread's generator.
pub fn generate_game() -> (stamps: Vec<Stamp>)
    ensures
        stamps@.len() == TIMESTAMPS_COUNT + 1,
        is_walk(stamps@, OFFSET_MAX_STEP as int),
        is_timeline(stamps@),
{
    let mut rng: ThreadRng = rand::thread_rng();
    generate_timeline(
        &mut rng,
        TIMESTAMPS_COUNT,
        PROBABILITY_SCORE_CHANGED,
        PROBABILITY_HOME_SCORE,
        OFFSET_MAX_STEP,
    )
}

/// After `taken` of `steps` steps there is room for one more: the bound on
/// the offset grows by `max_step` and stays within that of the whole walk,
/// which is at least the number of steps.
proof fn lemma_room_for_a_step(taken: int, steps: int, max_step: int)
    requires
        0 <= taken < steps,
        1 <= max_step,
    ensures
        (taken + 1) * max_step == taken * max_step + max_step,
        (taken + 1) * max_step <= steps * max_step,
        steps <= steps * max_step,
{
    assert((taken + 1) * max_step == taken * max_step + max_step) by (nonlinear_arith);
    assert((taken + 1) * max_step <= steps * max_step) by (nonlinear_arith)
        requires
            taken + 1 <= steps,
            0 <= max_step,
    ;
    assert(steps <= steps * max_step) by (nonlinear_arith)
        requires
            0 <= steps,
            1 <= max_step,
    ;
}

} // verus!
