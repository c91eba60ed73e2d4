//! What holds of the resolver on every timeline.

use crate::resolver::{
    as_pair, covers, last_at_or_before, lemma_covered_is_found, lemma_last_at_or_before, resolve,
    GetScoreErrors,
};
use crate::stamp::{ascending, initial, is_timeline, Score, Stamp};
use vstd::prelude::*;

verus! {

/// A timeline that holds a snapshot covers every offset from 0 on, so every
/// query with such an offset may be put to it.
pub proof fn lemma_timeline_covers(s: Seq<Stamp>, offset: int)
    requires
        is_timeline(s),
        s.len() > 0,
        0 <= offset,
    ensures
        covers(s, offset),
{
}

/// Asked twice, the same timeline gives the same answer at the same offset:
/// whatever two answers meet the resolver's contract are one answer.
pub proof fn lemma_answers_agree(
    s: Seq<Stamp>,
    offset: int,
    first: (i32, i32),
    second: (i32, i32),
)
    requires
        first == as_pair(resolve(s, offset)),
        second == as_pair(resolve(s, offset)),
    ensures
        first == second,
{
}

/// At offset 0 a timeline that holds a snapshot answers nil-nil.
pub proof fn lemma_nil_nil_at_start(s: Seq<Stamp>)
    requires
        is_timeline(s),
        s.len() > 0,
    ensures
        covers(s, 0),
        resolve(s, 0) == Ok::<Score, GetScoreErrors>(initial().score),
        as_pair(resolve(s, 0)) == (0i32, 0i32),
{
    lemma_last_at_or_before(s, 0, 0);
}

/// At the offset of a snapshot the answer is that snapshot's score.
pub proof fn lemma_exact_offset(s: Seq<Stamp>, i: int)
    requires
        ascending(s),
        0 <= i < s.len(),
        0 <= s[i].offset,
    ensures
        resolve(s, s[i].offset as int) == Ok::<Score, GetScoreErrors>(s[i].score),
{
    lemma_last_at_or_before(s, s[i].offset as int, i);
}

/// Between two snapshots the earlier one's score is carried forward.
pub proof fn lemma_carried_forward(s: Seq<Stamp>, i: int, offset: int)
    requires
        ascending(s),
        0 <= i < s.len() - 1,
        0 <= offset,
        s[i].offset <= offset < s[i + 1].offset,
    ensures
        resolve(s, offset) == Ok::<Score, GetScoreErrors>(s[i].score),
{
    assert forall|j: int| i < j < s.len() implies offset < s[j].offset by {
        if i + 1 < j {
            assert(s[i + 1].offset < s[j].offset);
        }
    }
    lemma_last_at_or_before(s, offset, i);
}

/// From the last snapshot on, its score is the answer, however far the
/// offset lies beyond it.
pub proof fn lemma_beyond_the_end(s: Seq<Stamp>, offset: int)
    requires
        s.len() > 0,
        0 <= offset,
        s.last().offset <= offset,
    ensures
        resolve(s, offset) == Ok::<Score, GetScoreErrors>(s.last().score),
{
}

/// The snapshot that answers is the latest there is at or before the offset:
/// no snapshot at or before the offset comes after it or has a greater
/// offset.
pub proof fn lemma_answer_is_latest(s: Seq<Stamp>, offset: int, j: int)
    requires
        covers(s, offset),
        0 <= j < s.len(),
        s[j].offset <= offset,
    ensures
        j <= last_at_or_before(s, offset),
        s[j].offset <= s[last_at_or_before(s, offset)].offset <= offset,
{
    lemma_covered_is_found(s, offset);
}

/// The pair tells a score from an error: on a timeline the counts of a score
/// are not below 0, and every error's code is.
pub proof fn lemma_pair_tells_score_from_error(s: Seq<Stamp>, offset: int)
    requires
        is_timeline(s),
    ensures
        resolve(s, offset) is Ok <==> as_pair(resolve(s, offset)).0 >= 0,
        resolve(s, offset) is Ok <==> as_pair(resolve(s, offset)).1 >= 0,
        resolve(s, offset) is Ok <==> s.len() > 0 && 0 <= offset,
{
    if s.len() > 0 && 0 <= offset {
        lemma_covered_is_found(s, offset);
        let at = last_at_or_before(s, offset);
        assert(s[0].score.home <= s[at].score.home && s[0].score.away <= s[at].score.away);
    }
}

/// The more severe an error, the smaller its code, and every code is below 0:
/// an empty timeline with a negative offset, then an empty timeline, then a
/// negative offset.
pub proof fn lemma_codes_order_by_severity()
    ensures
        GetScoreErrors::GameStampsSetEmptyAndOffsetIsNeg.code()
            < GetScoreErrors::GameStampsSetEmpty.code()
            < GetScoreErrors::OffsetIsNegative.code() < 0,
{
}

} // verus!
