//! The resolver: what the score was at a given offset of a timeline.
//!
//! A lookup carries the score forward: a snapshot holds from its offset on
//! until the next one, and the last one holds for ever after.

use crate::stamp::{ascending, Score, Stamp};
use vstd::prelude::*;

verus! {

/// Why a query has no score, the least severe first.
#[derive(Debug, Clone, Copy, PartialEq, Eq, Structural)]
pub enum GetScoreErrors {
    /// The offset is below 0.
    OffsetIsNegative,
    /// The timeline holds no snapshot.
    GameStampsSetEmpty,
    /// The timeline holds no snapshot and the offset is below 0.
    GameStampsSetEmptyAndOffsetIsNeg,
}

impl GetScoreErrors {
    /// The number an error is reported as: negative, and the smaller the more
    /// severe the error.
    pub open spec fn code(self) -> i32 {
        match self {
            GetScoreErrors::OffsetIsNegative => -1i32,
            GetScoreErrors::GameStampsSetEmpty => -2i32,
            GetScoreErrors::GameStampsSetEmptyAndOffsetIsNeg => -3i32,
        }
    }
}

/// The number an error is reported as.
pub fn err_code(error: GetScoreErrors) -> (code: i32)
    ensures
        code == error.code(),
        code == -1 <==> error == GetScoreErrors::OffsetIsNegative,
        code == -2 <==> error == GetScoreErrors::GameStampsSetEmpty,
        code == -3 <==> error == GetScoreErrors::GameStampsSetEmptyAndOffsetIsNeg,
{
    match error {
        GetScoreErrors::OffsetIsNegative => -1,
        GetScoreErrors::GameStampsSetEmpty => -2,
        GetScoreErrors::GameStampsSetEmptyAndOffsetIsNeg => -3,
    }
}

/// An error code in the place of both counts.
pub fn dup_err_code(code: i32) -> (pair: (i32, i32))
    ensures
        pair == (code, code),
{
    (code, code)
}

/// Where the snapshots at or before `offset` end: the index of the last
/// snapshot whose offset is not above `offset`, or -1 where there is none.
pub open spec fn last_at_or_before(s: Seq<Stamp>, offset: int) -> int
    decreases s.len(),
{
    if s.len() == 0 {
        -1
    } else if s.last().offset <= offset {
        s.len() - 1
    } else {
        last_at_or_before(s.drop_last(), offset)
    }
}

/// A lookup at `offset` has a snapshot to land on: the offsets ascend and the
/// first of them is not above `offset`. Every non-negative offset of a
/// timeline that begins at offset 0 is such.
pub open spec fn covers(s: Seq<Stamp>, offset: int) -> bool {
    &&& ascending(s)
    &&& s.len() > 0
    &&& s[0].offset <= offset
}

/// What a query is answered with. The more severe of two defects wins: an
/// empty timeline with a negative offset, then an empty timeline, then a
/// negative offset. Otherwise the answer is the score of the last snapshot at
/// or before `offset`.
pub open spec fn resolve(s: Seq<Stamp>, offset: int) -> Result<Score, GetScoreErrors> {
    if s.len() == 0 && offset < 0 {
        Err(GetScoreErrors::GameStampsSetEmptyAndOffsetIsNeg)
    } else if s.len() == 0 {
        Err(GetScoreErrors::GameStampsSetEmpty)
    } else if offset < 0 {
        Err(GetScoreErrors::OffsetIsNegative)
    } else {
        Ok(s[last_at_or_before(s, offset)].score)
    }
}

/// An answer as a pair of numbers: the two counts, home first, or the error's
/// code twice.
pub open spec fn as_pair(answer: Result<Score, GetScoreErrors>) -> (i32, i32) {
    match answer {
        Ok(score) => (score.home, score.away),
        Err(error) => (error.code(), error.code()),
    }
}

/// A snapshot whose offset is not above `offset`, while every later one's
/// is, is the last at or before `offset`.
pub proof fn lemma_last_at_or_before(s: Seq<Stamp>, offset: int, i: int)
    requires
        0 <= i < s.len(),
        s[i].offset <= offset,
        forall|j: int| i < j < s.len() ==> offset < s[j].offset,
    ensures
        last_at_or_before(s, offset) == i,
    decreases s.len(),
{
    if s.last().offset <= offset {
        if i < s.len() - 1 {
            assert(offset < s[s.len() - 1].offset);
        }
    } else {
        let front = s.drop_last();
        assert forall|j: int| i < j < front.len() implies offset < front[j].offset by {
            assert(front[j] == s[j]);
        }
        assert(front[i] == s[i]);
        lemma_last_at_or_before(front, offset, i);
    }
}

/// Where `offset` stands among the offsets of an ascending timeline, by
/// binary search: `Ok` with the index of the snapshot taken at `offset`, or
/// `Err` with the index at which such a snapshot would have to be put in, all
/// before it being earlier and all from it on later.
pub fn search_offset(game_stamps: &[Stamp], offset: i32) -> (found: Result<usize, usize>)
    requires
        ascending(game_stamps@),
    ensures
        match found {
            Ok(i) => i < game_stamps@.len() && game_stamps@[i as int].offset == offset,
            Err(i) => {
                &&& i <= game_stamps@.len()
                &&& forall|j: int| 0 <= j < i ==> game_stamps@[j].offset < offset
                &&& forall|j: int| i <= j < game_stamps@.len() ==> offset < game_stamps@[j].offset
            },
        },
{
    let mut low: usize = 0;
    let mut high: usize = game_stamps.len();
    while low < high
        invariant
            low <= high <= game_stamps@.len(),
            ascending(game_stamps@),
            forall|j: int| 0 <= j < low ==> game_stamps@[j].offset < offset,
            forall|j: int| high <= j < game_stamps@.len() ==> offset < game_stamps@[j].offset,
        decreases high - low,
    {
        let middle: usize = low + (high - low) / 2;
        let probe: i32 = game_stamps[middle].offset;
        if probe == offset {
            return Ok(middle);
        } else if probe < offset {
            low = middle + 1;
        } else {
            high = middle;
        }
    }
    Err(low)
}

/// The score at `offset`, or why there is none.
///
/// Only a lookup reads the snapshots, so only then is anything asked of
/// them: that they cover `offset`.
pub fn score_at(game_stamps: &[Stamp], offset: i32) -> (answer: Result<Score, GetScoreErrors>)
    requires
        game_stamps@.len() > 0 && offset >= 0 ==> covers(game_stamps@, offset as int),
    ensures
        answer == resolve(game_stamps@, offset as int),
        game_stamps@.len() == 0 && offset < 0 ==> answer == Err::<Score, GetScoreErrors>(
            GetScoreErrors::GameStampsSetEmptyAndOffsetIsNeg,
        ),
        game_stamps@.len() == 0 && offset >= 0 ==> answer == Err::<Score, GetScoreErrors>(
            GetScoreErrors::GameStampsSetEmpty,
        ),
        game_stamps@.len() > 0 && offset < 0 ==> answer == Err::<Score, GetScoreErrors>(
            GetScoreErrors::OffsetIsNegative,
        ),
        game_stamps@.len() > 0 && offset >= 0 ==> answer is Ok,
{
    let empty: bool = game_stamps.len() == 0;
    let negative: bool = offset < 0;
    if empty && negative {
        Err(GetScoreErrors::GameStampsSetEmptyAndOffsetIsNeg)
    } else if empty {
        Err(GetScoreErrors::GameStampsSetEmpty)
    } else if negative {
        Err(GetScoreErrors::OffsetIsNegative)
    } else {
        match search_offset(game_stamps, offset) {
            Ok(found_idx) => {
                proof {
                    lemma_last_at_or_before(game_stamps@, offset as int, found_idx as int);
                }
                Ok(game_stamps[found_idx].score)
            },
            Err(next_possible_idx) => {
                proof {
                    lemma_last_at_or_before(
                        game_stamps@,
                        offset as int,
                        next_possible_idx - 1,
                    );
                }
                Ok(game_stamps[next_possible_idx - 1].score)
            },
        }
    }
}

/// The score at `offset` as a pair, home first, or an error's code in both
/// places: (-1, -1) for a negative offset, (-2, -2) for an empty timeline,
/// (-3, -3) for both at once.
///
/// Only a lookup reads the snapshots, so only then is anything asked of
/// them: that they cover `offset`.
pub fn get_score(game_stamps: &[Stamp], offset: i32) -> (pair: (i32, i32))
    requires
        game_stamps@.len() > 0 && offset >= 0 ==> covers(game_stamps@, offset as int),
    ensures
        pair == as_pair(resolve(game_stamps@, offset as int)),
        game_stamps@.len() == 0 && offset < 0 ==> pair == (-3i32, -3i32),
        game_stamps@.len() == 0 && offset >= 0 ==> pair == (-2i32, -2i32),
        game_stamps@.len() > 0 && offset < 0 ==> pair == (-1i32, -1i32),
        game_stamps@.len() > 0 && offset >= 0 ==> {
            let at = last_at_or_before(game_stamps@, offset as int);
            &&& 0 <= at < game_stamps@.len()
            &&& pair == (game_stamps@[at].score.home, game_stamps@[at].score.away)
        },
{
    match score_at(game_stamps, offset) {
        Ok(score) => {
            proof {
                lemma_covered_is_found(game_stamps@, offset as int);
            }
            (score.home, score.away)
        },
        Err(error) => dup_err_code(err_code(error)),
    }
}

/// Where a timeline covers `offset`, the last snapshot at or before it
/// exists: its offset is not above `offset`, and every later one's is.
pub proof fn lemma_covered_is_found(s: Seq<Stamp>, offset: int)
    requires
        s.len() > 0,
        s[0].offset <= offset,
    ensures
        0 <= last_at_or_before(s, offset) < s.len(),
        s[last_at_or_before(s, offset)].offset <= offset,
        forall|j: int| last_at_or_before(s, offset) < j < s.len() ==> offset < s[j].offset,
    decreases s.len(),
{
    if s.last().offset <= offset {
    } else {
        let front = s.drop_last();
        assert(front.len() > 0) by {
            if s.len() == 1 {
                assert(s.last() == s[0]);
            }
        }
        assert(front[0] == s[0]);
        lemma_covered_is_found(front, offset);
        let at = last_at_or_before(front, offset);
        assert(front[at] == s[at]);
        assert forall|j: int| at < j < s.len() implies offset < s[j].offset by {
            if j < front.len() {
                assert(front[j] == s[j]);
            }
        }
    }
}

} // verus!
