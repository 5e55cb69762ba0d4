use crate::frame::{lemma_with_shot, Frame, SpareOrStrike};
use crate::shot::MAX_PINS;
use vstd::prelude::*;

verus! {

/// The frames that are scored.
pub const SCORED_FRAMES: usize = 10;

/// The frames the ledger holds: the scored ones, then two that take the
/// bonus balls of the last scored frame.
pub const LEDGER_FRAMES: usize = 12;

/// Why a shot was turned away.
#[derive(Debug, Clone, Copy, PartialEq, Eq, Structural)]
pub enum ShotError {
    /// The pin count is below 0 or above `MAX_PINS`.
    PinsOutOfRange,
    /// The ball is the second of its frame and the two together exceed `MAX_PINS`.
    FrameOverflow,
}

/// The bonus balls that the last scored frame earns.
pub open spec fn bonus_balls(tenth: Frame) -> nat {
    match tenth.kind() {
        SpareOrStrike::Strike => 2,
        SpareOrStrike::Spare => 1,
        SpareOrStrike::Normal => 0,
    }
}

/// The bonus balls thrown so far.
pub open spec fn bonus_thrown(frames: Seq<Frame>) -> nat {
    frames[SCORED_FRAMES as int].balls() + frames[SCORED_FRAMES + 1].balls()
}

/// A ledger is valid when every frame is, frames fill in order (nothing is
/// thrown after a frame that is still open), and the bonus frames hold no
/// more balls than the last scored frame earned.
pub open spec fn ledger_wf(frames: Seq<Frame>) -> bool {
    &&& frames.len() == LEDGER_FRAMES
    &&& forall|i: int| 0 <= i < frames.len() ==> (#[trigger] frames[i]).wf()
    &&& forall|i: int, j: int|
        0 <= i < j < frames.len() && (#[trigger] frames[i]).is_open() ==> #[trigger] frames[j]
            == Frame::empty()
    &&& bonus_thrown(frames) <= bonus_balls(frames[SCORED_FRAMES - 1])
}

/// The game is over when the last scored frame is full and every bonus ball
/// it earned has been thrown.
pub open spec fn is_complete(frames: Seq<Frame>) -> bool {
    &&& !frames[SCORED_FRAMES - 1].is_open()
    &&& bonus_thrown(frames) >= bonus_balls(frames[SCORED_FRAMES - 1])
}

/// The index of the first open frame at or after `from`, or the number of
/// frames if there is none.
pub open spec fn first_open_from(frames: Seq<Frame>, from: int) -> int
    decreases frames.len() - from,
{
    if from < 0 || from >= frames.len() {
        frames.len() as int
    } else if frames[from].is_open() {
        from
    } else {
        first_open_from(frames, from + 1)
    }
}

/// The frame that takes the next ball: the first one with a free slot.
pub open spec fn cursor(frames: Seq<Frame>) -> int {
    first_open_from(frames, 0)
}

/// What recording a ball of `pins` answers. A count out of range is turned
/// away first. A ball after the end of the game is dropped without complaint.
/// A second ball that would bring its frame over `MAX_PINS` is turned away.
pub open spec fn shot_outcome(frames: Seq<Frame>, pins: i32) -> Result<(), ShotError> {
    if pins < 0 || pins > MAX_PINS {
        Err(ShotError::PinsOutOfRange)
    } else if is_complete(frames) {
        Ok(())
    } else if !frames[cursor(frames)].fits(pins as int) {
        Err(ShotError::FrameOverflow)
    } else {
        Ok(())
    }
}

/// Whether a ball of `pins` is written into the ledger.
pub open spec fn is_recorded(frames: Seq<Frame>, pins: i32) -> bool {
    shot_outcome(frames, pins) is Ok && !is_complete(frames)
}

/// The ledger after a ball of `pins` was offered: the frame at the cursor
/// takes it if it is recorded, and nothing changes if it is not.
pub open spec fn after_shot(frames: Seq<Frame>, pins: i32) -> Seq<Frame> {
    if is_recorded(frames, pins) {
        frames.update(cursor(frames), frames[cursor(frames)].with_shot(pins))
    } else {
        frames
    }
}

/// The pins of the balls thrown in frame `from` and after it, in the order
/// thrown.
pub open spec fn history_from(frames: Seq<Frame>, from: int) -> Seq<int>
    decreases frames.len() - from,
{
    if from < 0 || from >= frames.len() {
        Seq::empty()
    } else {
        frames[from].thrown() + history_from(frames, from + 1)
    }
}

/// The pins of every ball the ledger holds, in the order thrown.
pub open spec fn history(frames: Seq<Frame>) -> Seq<int> {
    history_from(frames, 0)
}

/// The ledger of a game in which no ball has been thrown.
pub open spec fn fresh() -> Seq<Frame> {
    Seq::new(LEDGER_FRAMES as nat, |i: int| Frame::empty())
}

/// `first_open_from` finds an open frame, and every frame it passed is full.
pub proof fn lemma_first_open(frames: Seq<Frame>, from: int)
    requires
        0 <= from <= frames.len(),
    ensures
        from <= first_open_from(frames, from) <= frames.len(),
        first_open_from(frames, from) < frames.len() ==> frames[first_open_from(
            frames,
            from,
        )].is_open(),
        forall|j: int|
            from <= j < first_open_from(frames, from) ==> !(#[trigger] frames[j]).is_open(),
    decreases frames.len() - from,
{
    if from < frames.len() && !frames[from].is_open() {
        lemma_first_open(frames, from + 1);
    }
}

/// While a valid game is not over, the cursor stands on one of its frames:
/// a scored frame, the first bonus frame after a spare or a strike in the
/// last scored frame, or the second bonus frame after two strikes.
pub proof fn lemma_cursor_in_play(frames: Seq<Frame>)
    requires
        ledger_wf(frames),
        !is_complete(frames),
    ensures
        0 <= cursor(frames) < LEDGER_FRAMES,
        frames[cursor(frames)].is_open(),
        forall|j: int| 0 <= j < cursor(frames) ==> !(#[trigger] frames[j]).is_open(),
        forall|j: int| cursor(frames) < j < LEDGER_FRAMES ==> #[trigger] frames[j] == Frame::empty(),
        cursor(frames) >= SCORED_FRAMES ==> bonus_thrown(frames) < bonus_balls(
            frames[SCORED_FRAMES - 1],
        ),
{
    lemma_first_open(frames, 0);
    let c = cursor(frames);
    if frames[9].is_open() {
        assert(c <= 9);
    } else {
        assert(frames[10].wf() && frames[11].wf());
        if frames[10].is_open() {
            assert(c <= 10);
        } else {
            assert(frames[11] == Frame::empty());
            assert(c <= 11);
        }
    }
}

/// Where every frame from `from` on is empty, no ball was thrown from there on.
pub proof fn lemma_history_of_empty_frames(frames: Seq<Frame>, from: int)
    requires
        0 <= from <= frames.len(),
        forall|j: int| from <= j < frames.len() ==> #[trigger] frames[j] == Frame::empty(),
    ensures
        history_from(frames, from) == Seq::<int>::empty(),
    decreases frames.len() - from,
{
    if from < frames.len() {
        lemma_history_of_empty_frames(frames, from + 1);
        assert(frames[from] == Frame::empty());
        assert(history_from(frames, from) =~= Seq::<int>::empty());
    }
}

/// The ledger of a new game is valid and not over, its cursor stands on the
/// first frame, and it holds no ball.
pub proof fn lemma_fresh_wf()
    ensures
        ledger_wf(fresh()),
        !is_complete(fresh()),
        cursor(fresh()) == 0,
        history(fresh()) == Seq::<int>::empty(),
{
    lemma_history_of_empty_frames(fresh(), 0);
}

/// Offering a ball to a valid ledger leaves a valid ledger.
pub proof fn lemma_after_shot_wf(frames: Seq<Frame>, pins: i32)
    requires
        ledger_wf(frames),
    ensures
        ledger_wf(after_shot(frames, pins)),
{
    if is_recorded(frames, pins) {
        lemma_cursor_in_play(frames);
        let c = cursor(frames);
        let next = after_shot(frames, pins);
        lemma_with_shot(frames[c], pins);
        assert(frames[9].wf() && frames[10].wf() && frames[11].wf());
        assert forall|i: int| 0 <= i < next.len() implies (#[trigger] next[i]).wf() by {
            if i != c {
                assert(next[i] == frames[i]);
            }
        }
        assert forall|i: int, j: int|
            0 <= i < j < next.len() && (#[trigger] next[i]).is_open() implies #[trigger] next[j]
            == Frame::empty() by {
            if i == c {
                assert(frames[c].is_open());
                assert(next[j] == frames[j]);
            } else {
                assert(next[i] == frames[i]);
                assert(i > c);
                assert(next[j] == frames[j]);
            }
        }
        if c <= 8 {
            assert(next[9] == frames[9]);
            assert(next[10] == frames[10]);
            assert(next[11] == frames[11]);
        } else if c == 9 {
            assert(next[10] == Frame::empty());
            assert(next[11] == Frame::empty());
        } else if c == 10 {
            assert(next[9] == frames[9]);
            assert(next[11] == frames[11]);
        } else {
            assert(next[9] == frames[9]);
            assert(next[10] == frames[10]);
        }
    }
}

/// A recorded ball comes last in the history of every stretch of frames
/// that reaches the cursor.
pub proof fn lemma_history_from_grows(frames: Seq<Frame>, pins: i32, from: int)
    requires
        ledger_wf(frames),
        is_recorded(frames, pins),
        0 <= from <= cursor(frames),
    ensures
        history_from(after_shot(frames, pins), from) == history_from(frames, from).push(
            pins as int,
        ),
    decreases cursor(frames) - from,
{
    lemma_cursor_in_play(frames);
    let c = cursor(frames);
    let next = after_shot(frames, pins);
    if from == c {
        assert(frames[c].wf());
        lemma_with_shot(frames[c], pins);
        lemma_history_of_empty_frames(frames, c + 1);
        assert forall|j: int| c + 1 <= j < next.len() implies #[trigger] next[j]
            == Frame::empty() by {
            assert(next[j] == frames[j]);
        }
        lemma_history_of_empty_frames(next, c + 1);
        assert(history_from(next, c) =~= history_from(frames, c).push(pins as int));
    } else {
        lemma_history_from_grows(frames, pins, from + 1);
        assert(next[from] == frames[from]);
        assert(history_from(next, from) =~= history_from(frames, from).push(pins as int));
    }
}

/// The ledger holds the balls it was offered and took, in the order they
/// came: a recorded ball is added at the end of the history, and any other
/// leaves the history as it was.
pub proof fn lemma_history_after_shot(frames: Seq<Frame>, pins: i32)
    requires
        ledger_wf(frames),
    ensures
        history(after_shot(frames, pins)) == if is_recorded(frames, pins) {
            history(frames).push(pins as int)
        } else {
            history(frames)
        },
{
    if is_recorded(frames, pins) {
        lemma_cursor_in_play(frames);
        lemma_history_from_grows(frames, pins, 0);
    }
}

} // verus!
