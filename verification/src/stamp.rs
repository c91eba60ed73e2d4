//! Scores, snapshots, and what makes a sequence of snapshots a timeline.

use vstd::prelude::*;

verus! {

/// The two counters of a match: goals of the home side and of the away side.
#[derive(Debug, Clone, Copy, PartialEq, Eq, Structural)]
pub struct Score {
    pub home: i32,
    pub away: i32,
}

/// A snapshot: the score that holds from `offset` on, until a later snapshot
/// supersedes it.
#[derive(Debug, Clone, Copy, PartialEq, Eq, Structural)]
pub struct Stamp {
    pub offset: i32,
    pub score: Score,
}

/// The snapshot every generated timeline begins with: offset 0, nil-nil.
pub open spec fn initial() -> Stamp {
    Stamp { offset: 0, score: Score { home: 0, away: 0 } }
}

/// The snapshot every generated timeline begins with: offset 0, nil-nil.
#[verifier::when_used_as_spec(initial)]
pub fn initial_stamp() -> (stamp: Stamp)
    ensures
        stamp == initial(),
{
    Stamp { offset: 0, score: Score { home: 0, away: 0 } }
}

/// The offsets grow strictly from each snapshot to every later one, so no
/// offset occurs twice.
pub open spec fn ascending(s: Seq<Stamp>) -> bool {
    forall|i: int, j: int| 0 <= i < j < s.len() ==> s[i].offset < s[j].offset
}

/// Neither side's count ever falls from a snapshot to a later one.
pub open spec fn scores_never_fall(s: Seq<Stamp>) -> bool {
    forall|i: int, j: int|
        0 <= i <= j < s.len() ==> s[i].score.home <= s[j].score.home && s[i].score.away
            <= s[j].score.away
}

/// A timeline: snapshots in ascending order of offset whose counts never
/// fall, the first of them, if there is one, being the initial snapshot.
pub open spec fn is_timeline(s: Seq<Stamp>) -> bool {
    &&& s.len() > 0 ==> s[0] == initial()
    &&& ascending(s)
    &&& scores_never_fall(s)
}

/// One step of the walk: the offset advances by 1 to `max_step`, and either
/// the score stays or exactly one side gains exactly one.
pub open spec fn is_step(previous: Stamp, next: Stamp, max_step: int) -> bool {
    &&& 1 <= next.offset - previous.offset <= max_step
    &&& 0 <= next.score.home - previous.score.home
    &&& 0 <= next.score.away - previous.score.away
    &&& (next.score.home - previous.score.home) + (next.score.away - previous.score.away) <= 1
}

/// The snapshot after the one at index `i` is one step on from it.
pub open spec fn steps_on(s: Seq<Stamp>, i: int, max_step: int) -> bool {
    is_step(s[i], s[i + 1], max_step)
}

/// A walk: it begins with the initial snapshot, and each further snapshot is
/// one step on from the one before it.
pub open spec fn is_walk(s: Seq<Stamp>, max_step: int) -> bool {
    &&& s.len() > 0
    &&& s[0] == initial()
    &&& forall|i: int| 0 <= i < s.len() - 1 ==> #[trigger] steps_on(s, i, max_step)
}

/// A walk stays a walk when one more step is put at its end.
pub proof fn lemma_walk_push(s: Seq<Stamp>, next: Stamp, max_step: int)
    requires
        is_walk(s, max_step),
        is_step(s.last(), next, max_step),
    ensures
        is_walk(s.push(next), max_step),
{
    let longer = s.push(next);
    assert forall|i: int| 0 <= i < longer.len() - 1 implies #[trigger] steps_on(
        longer,
        i,
        max_step,
    ) by {
        if i < s.len() - 1 {
            assert(steps_on(s, i, max_step));
        }
    }
}

/// How far a walk can have come: after `j - i` steps the offset has grown by
/// at least `j - i`, and the two counts together by at most `j - i`, neither
/// of them having fallen.
pub proof fn lemma_walk_between(s: Seq<Stamp>, max_step: int, i: int, j: int)
    requires
        is_walk(s, max_step),
        0 <= i <= j < s.len(),
    ensures
        s[i].offset + (j - i) <= s[j].offset,
        s[i].score.home <= s[j].score.home,
        s[i].score.away <= s[j].score.away,
        (s[j].score.home - s[i].score.home) + (s[j].score.away - s[i].score.away) <= j - i,
    decreases j - i,
{
    if i < j {
        lemma_walk_between(s, max_step, i, j - 1);
        assert(steps_on(s, j - 1, max_step));
    }
}

/// Every walk is a timeline.
pub proof fn lemma_walk_is_timeline(s: Seq<Stamp>, max_step: int)
    requires
        is_walk(s, max_step),
    ensures
        is_timeline(s),
{
    assert forall|i: int, j: int| 0 <= i < j < s.len() implies s[i].offset < s[j].offset by {
        lemma_walk_between(s, max_step, i, j);
    }
    assert forall|i: int, j: int| 0 <= i <= j < s.len() implies s[i].score.home
        <= s[j].score.home && s[i].score.away <= s[j].score.away by {
        lemma_walk_between(s, max_step, i, j);
    }
}

} // verus!
