use crate::frame::{lemma_with_shot, Frame, SpareOrStrike};
use crate::ledger::{
    after_shot, cursor, history_from, is_recorded, ledger_wf, lemma_after_shot_wf,
    lemma_cursor_in_play, lemma_history_of_empty_frames, SCORED_FRAMES,
};
use crate::shot::{Shot, MAX_PINS};
use vstd::prelude::*;

verus! {

/// The most a single frame can score: a strike followed by two more.
pub const MAX_FRAME_SCORE: i32 = 30;

/// The score of twelve strikes in a row.
pub const MAX_SCORE: i32 = 300;

/// The pins of a ball thrown after frame `i`: the first one for `k` = 0,
/// the second for `k` = 1, and so on. A ball not thrown yet counts as 0.
pub open spec fn ball_after(frames: Seq<Frame>, i: int, k: int) -> int {
    let later = history_from(frames, i + 1);
    if 0 <= k < later.len() {
        later[k]
    } else {
        0
    }
}

/// The bonus of a spare in frame `i`: the next ball thrown.
pub open spec fn spare_bonus(frames: Seq<Frame>, i: int) -> int {
    ball_after(frames, i, 0)
}

/// The bonus of a strike in frame `i`: the next two balls thrown, in
/// whichever frames they fell.
pub open spec fn strike_bonus(frames: Seq<Frame>, i: int) -> int {
    ball_after(frames, i, 0) + ball_after(frames, i, 1)
}

/// The second slot of `next` if that frame took two balls, and the first
/// slot of the frame `after` it if `next` was a strike.
pub open spec fn second_ball_ahead(next: Frame, after: Frame) -> Shot {
    if next.second_record == Shot::X {
        after.first_record
    } else {
        next.second_record
    }
}

/// What frame `i` adds to the score: its own pins and the bonus it earned.
pub open spec fn frame_score(frames: Seq<Frame>, i: int) -> int {
    frames[i].total() + match frames[i].kind() {
        SpareOrStrike::Spare => spare_bonus(frames, i),
        SpareOrStrike::Strike => strike_bonus(frames, i),
        SpareOrStrike::Normal => 0,
    }
}

/// The score of the first `n` frames.
pub open spec fn score_upto(frames: Seq<Frame>, n: nat) -> int
    decreases n,
{
    if n == 0 {
        0
    } else {
        score_upto(frames, (n - 1) as nat) + frame_score(frames, n - 1)
    }
}

/// The score of the game as it stands; balls not yet thrown count as 0.
pub open spec fn total_score(frames: Seq<Frame>) -> int {
    score_upto(frames, SCORED_FRAMES as nat)
}

/// Where the bonus balls lie in a valid ledger. The next ball after a
/// scored frame is the first slot of the frame behind it. The ball after
/// that is the second slot of the same frame, unless that frame was a
/// strike: then it is the first slot of the frame one further on.
pub proof fn lemma_bonus_lookahead(frames: Seq<Frame>, i: int)
    requires
        ledger_wf(frames),
        0 <= i < SCORED_FRAMES,
    ensures
        ball_after(frames, i, 0) == frames[i + 1].first_record.pins(),
        ball_after(frames, i, 1) == second_ball_ahead(frames[i + 1], frames[i + 2]).pins(),
        spare_bonus(frames, i) == frames[i + 1].first_record.pins(),
        strike_bonus(frames, i) == frames[i + 1].first_record.pins() + second_ball_ahead(
            frames[i + 1],
            frames[i + 2],
        ).pins(),
{
    let next = frames[i + 1];
    let after = frames[i + 2];
    let later = history_from(frames, i + 1);
    let beyond = history_from(frames, i + 2);
    assert(next.wf() && after.wf());
    assert(later == next.thrown() + beyond);
    assert(beyond == after.thrown() + history_from(frames, i + 3));
    if next.is_open() {
        assert forall|j: int| i + 2 <= j < frames.len() implies #[trigger] frames[j]
            == Frame::empty() by {
            assert(frames[i + 1].is_open());
        }
        lemma_history_of_empty_frames(frames, i + 2);
        assert(later =~= next.thrown());
    } else if next.second_record == Shot::X {
        if after.first_record == Shot::NotYet {
            assert(after == Frame::empty());
            assert forall|j: int| i + 2 <= j < frames.len() implies #[trigger] frames[j]
                == Frame::empty() by {
                if j > i + 2 {
                    assert(frames[i + 2].is_open());
                }
            }
            lemma_history_of_empty_frames(frames, i + 2);
            assert(later =~= next.thrown());
        } else {
            assert(after.thrown().len() >= 1);
            assert(later[1] == beyond[0]);
            assert(beyond[0] == after.thrown()[0]);
        }
    } else {
        assert(next.thrown().len() == 2);
        assert(later[0] == next.thrown()[0]);
        assert(later[1] == next.thrown()[1]);
    }
}

/// In a valid ledger a scored frame adds between 0 and `MAX_FRAME_SCORE`.
pub proof fn lemma_frame_score_bounds(frames: Seq<Frame>, i: int)
    requires
        ledger_wf(frames),
        0 <= i < SCORED_FRAMES,
    ensures
        0 <= spare_bonus(frames, i) <= MAX_PINS,
        0 <= strike_bonus(frames, i) <= 2 * MAX_PINS,
        0 <= frame_score(frames, i) <= MAX_FRAME_SCORE,
{
    lemma_bonus_lookahead(frames, i);
    assert(frames[i].wf());
    assert(frames[i + 1].wf());
    assert(frames[i + 2].wf());
}

/// The score of the first `n` frames of a valid ledger lies between 0 and
/// `MAX_FRAME_SCORE` for each of them, so that of all of them between 0 and
/// `MAX_SCORE`.
pub proof fn lemma_score_upto_bounds(frames: Seq<Frame>, n: nat)
    requires
        ledger_wf(frames),
        n <= SCORED_FRAMES,
    ensures
        0 <= score_upto(frames, n) <= MAX_FRAME_SCORE * n,
    decreases n,
{
    if n > 0 {
        lemma_score_upto_bounds(frames, (n - 1) as nat);
        lemma_frame_score_bounds(frames, n - 1);
    }
}

/// A recorded ball lowers the contribution of no frame, and raises that of
/// the frame it went into by at least its pins.
pub proof fn lemma_frame_score_grows(frames: Seq<Frame>, pins: i32, i: int)
    requires
        ledger_wf(frames),
        is_recorded(frames, pins),
        0 <= i < SCORED_FRAMES,
    ensures
        frame_score(after_shot(frames, pins), i) >= frame_score(frames, i),
        i == cursor(frames) ==> frame_score(after_shot(frames, pins), i) >= frame_score(frames, i)
            + pins,
{
    lemma_cursor_in_play(frames);
    lemma_after_shot_wf(frames, pins);
    let c = cursor(frames);
    let next = after_shot(frames, pins);
    lemma_with_shot(frames[c], pins);
    lemma_bonus_lookahead(frames, i);
    lemma_bonus_lookahead(next, i);
    assert(frames[i].wf() && frames[i + 1].wf() && frames[i + 2].wf());
    assert(frames[c].wf());
    assert(next[c] == frames[c].with_shot(pins));
    if i == c {
        assert(next[i + 1] == frames[i + 1] && next[i + 2] == frames[i + 2]);
        assert(frames[i + 1] == Frame::empty() && frames[i + 2] == Frame::empty());
    } else {
        assert(next[i] == frames[i]);
        if c == i + 1 {
            assert(next[i + 2] == frames[i + 2]);
        } else if c == i + 2 {
            assert(next[i + 1] == frames[i + 1]);
        } else {
            assert(next[i + 1] == frames[i + 1] && next[i + 2] == frames[i + 2]);
        }
    }
}

/// A recorded ball lowers the score of no prefix of the frames, and raises
/// that of a prefix holding the frame it went into by at least its pins.
pub proof fn lemma_score_upto_grows(frames: Seq<Frame>, pins: i32, n: nat)
    requires
        ledger_wf(frames),
        is_recorded(frames, pins),
        n <= SCORED_FRAMES,
    ensures
        score_upto(after_shot(frames, pins), n) >= score_upto(frames, n),
        cursor(frames) < n ==> score_upto(after_shot(frames, pins), n) >= score_upto(frames, n)
            + pins,
    decreases n,
{
    lemma_cursor_in_play(frames);
    if n > 0 {
        lemma_score_upto_grows(frames, pins, (n - 1) as nat);
        lemma_frame_score_grows(frames, pins, n - 1);
    }
}

/// Offering one more ball never lowers the score, whatever the ball and
/// whether or not it is recorded. A ball recorded in a scored frame raises
/// the score by at least its pins.
pub proof fn lemma_score_monotonic(frames: Seq<Frame>, pins: i32)
    requires
        ledger_wf(frames),
    ensures
        total_score(after_shot(frames, pins)) >= total_score(frames),
        is_recorded(frames, pins) && cursor(frames) < SCORED_FRAMES ==> total_score(
            after_shot(frames, pins),
        ) >= total_score(frames) + pins,
{
    if is_recorded(frames, pins) {
        lemma_score_upto_grows(frames, pins, SCORED_FRAMES as nat);
    }
}

} // verus!
