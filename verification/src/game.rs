use crate::frame::{Frame, SpareOrStrike};
use crate::ledger::{
    after_shot, cursor, first_open_from, fresh, history, is_complete, is_recorded, ledger_wf,
    lemma_after_shot_wf, lemma_cursor_in_play, lemma_fresh_wf, lemma_history_after_shot,
    shot_outcome, ShotError, LEDGER_FRAMES, SCORED_FRAMES,
};
use crate::scoring::{
    lemma_bonus_lookahead, lemma_frame_score_bounds, lemma_score_monotonic,
    lemma_score_upto_bounds, score_upto, spare_bonus, strike_bonus, total_score, MAX_SCORE,
};
use crate::shot::{Shot, MAX_PINS};
use vstd::prelude::*;

verus! {

/// One game of one player: the ledger of its frames.
///
/// Not synchronised: one writer at a time.
#[derive(Debug)]
pub struct BowlingGame {
    frames: [Frame; LEDGER_FRAMES],
}

impl View for BowlingGame {
    type V = Seq<Frame>;

    closed spec fn view(&self) -> Seq<Frame> {
        self.frames@
    }
}

impl BowlingGame {
    /// The game's ledger is valid.
    pub open spec fn wf(&self) -> bool {
        ledger_wf(self@)
    }

    /// A game in which no ball has been thrown.
    pub fn new() -> (game: BowlingGame)
        ensures
            game.wf(),
            game@ == fresh(),
            history(game@) == Seq::<int>::empty(),
            total_score(game@) == 0,
    {
        let empty = Frame::new();
        let game = BowlingGame { frames: [empty;LEDGER_FRAMES] };
        proof {
            assert(game@ =~= fresh());
            lemma_fresh_wf();
            assert(total_score(fresh()) == 0) by {
                reveal_with_fuel(score_upto, 11);
            }
        }
        game
    }

    /// The frame at `index`, counted from 0: a scored frame below
    /// `SCORED_FRAMES`, a bonus frame from there on.
    pub fn frame(&self, index: usize) -> (frame: Frame)
        requires
            index < LEDGER_FRAMES,
        ensures
            frame == self@[index as int],
            self.wf() ==> frame.wf(),
    {
        self.frames[index]
    }

    /// Whether the game is over, so that further balls are dropped.
    pub fn is_over(&self) -> (over: bool)
        requires
            self.wf(),
        ensures
            over == is_complete(self@),
    {
        let tenth = self.frames[SCORED_FRAMES - 1];
        if tenth.has_notyet() {
            return false;
        }
        let first_bonus = self.frames[SCORED_FRAMES];
        let second_bonus = self.frames[SCORED_FRAMES + 1];
        proof {
            assert(self@[9].wf() && self@[10].wf() && self@[11].wf());
        }
        match tenth.judge_spare_and_strike() {
            SpareOrStrike::Normal => true,
            SpareOrStrike::Spare => first_bonus.first_record != Shot::NotYet,
            SpareOrStrike::Strike => !first_bonus.has_notyet() && (first_bonus.second_record
                != Shot::X || second_bonus.first_record != Shot::NotYet),
        }
    }

    /// The score of the game as it stands: for each scored frame its pins,
    /// and the next ball on top for a spare, the next two for a strike.
    /// It may be asked at any time; balls not yet thrown count as 0.
    pub fn calc_score(&self) -> (score: i32)
        requires
            self.wf(),
        ensures
            score == total_score(self@),
            0 <= score <= MAX_SCORE,
    {
        let mut score: i32 = 0;
        let mut i: usize = 0;
        while i < SCORED_FRAMES
            invariant
                self.wf(),
                i <= SCORED_FRAMES,
                score == score_upto(self@, i as nat),
            decreases SCORED_FRAMES - i,
        {
            proof {
                lemma_score_upto_bounds(self@, i as nat);
                lemma_score_upto_bounds(self@, (i + 1) as nat);
                assert(self@[i as int].wf());
            }
            score += self.frames[i].calc_score();
            let kind = self.frames[i].judge_spare_and_strike();
            if kind == SpareOrStrike::Spare {
                score += self.spare_score(i);
            } else if kind == SpareOrStrike::Strike {
                score += self.strike_score(i);
            }
            i += 1;
        }
        proof {
            lemma_score_upto_bounds(self@, SCORED_FRAMES as nat);
        }
        score
    }

    /// Offers the game a ball that knocked down `score` pins.
    ///
    /// The ball goes into the first frame with a free slot; a strike closes
    /// its frame at once. A spare in the last scored frame earns one more
    /// ball and a strike two, which go into the bonus frames under the same
    /// rule. A count outside 0 to `MAX_PINS`, or a second ball that brings its
    /// frame over `MAX_PINS`, is refused and the game stays as it was. A
    /// valid ball after the end of the game is dropped: the answer is `Ok`
    /// and the game stays as it was.
    pub fn new_shot(&mut self, score: i32) -> (outcome: Result<(), ShotError>)
        requires
            old(self).wf(),
        ensures
            final(self).wf(),
            outcome == shot_outcome(old(self)@, score),
            final(self)@ == after_shot(old(self)@, score),
            history(final(self)@) == if is_recorded(old(self)@, score) {
                history(old(self)@).push(score as int)
            } else {
                history(old(self)@)
            },
            total_score(final(self)@) >= total_score(old(self)@),
    {
        proof {
            lemma_after_shot_wf(self@, score);
            lemma_history_after_shot(self@, score);
            lemma_score_monotonic(self@, score);
        }
        if score < 0 || score > MAX_PINS {
            return Err(ShotError::PinsOutOfRange);
        }
        if self.is_over() {
            return Ok(());
        }
        proof {
            lemma_cursor_in_play(self@);
        }
        let mut i: usize = 0;
        while i < LEDGER_FRAMES
            invariant
                *self == *old(self),
                self.wf(),
                0 <= score <= MAX_PINS,
                !is_complete(self@),
                i <= LEDGER_FRAMES,
                cursor(self@) < LEDGER_FRAMES,
                first_open_from(self@, i as int) == cursor(self@),
                ledger_wf(after_shot(self@, score)),
                history(after_shot(self@, score)) == if is_recorded(self@, score) {
                    history(self@).push(score as int)
                } else {
                    history(self@)
                },
                total_score(after_shot(self@, score)) >= total_score(self@),
            decreases LEDGER_FRAMES - i,
        {
            let frame = self.frames[i];
            if frame.has_notyet() {
                proof {
                    assert(self@[i as int].wf());
                }
                let filled = if frame.first_record == Shot::NotYet {
                    if score == MAX_PINS {
                        Frame { first_record: Shot::Pins(score), second_record: Shot::X }
                    } else {
                        Frame { first_record: Shot::Pins(score), second_record: Shot::NotYet }
                    }
                } else {
                    if frame.first_record.to_score() + score > MAX_PINS {
                        return Err(ShotError::FrameOverflow);
                    }
                    Frame { first_record: frame.first_record, second_record: Shot::Pins(score) }
                };
                self.frames[i] = filled;
                return Ok(());
            }
            i += 1;
        }
        Ok(())
    }

    /// The bonus that a spare in frame `frame_num` earns.
    pub fn spare_score(&self, frame_num: usize) -> (bonus: i32)
        requires
            self.wf(),
            frame_num < SCORED_FRAMES,
        ensures
            bonus == spare_bonus(self@, frame_num as int),
            0 <= bonus <= MAX_PINS,
    {
        proof {
            lemma_bonus_lookahead(self@, frame_num as int);
            lemma_frame_score_bounds(self@, frame_num as int);
        }
        self.frames[frame_num + 1].first_record.to_score()
    }

    /// The bonus that a strike in frame `frame_num` earns.
    pub fn strike_score(&self, frame_num: usize) -> (bonus: i32)
        requires
            self.wf(),
            frame_num < SCORED_FRAMES,
        ensures
            bonus == strike_bonus(self@, frame_num as int),
            0 <= bonus <= 2 * MAX_PINS,
    {
        proof {
            lemma_bonus_lookahead(self@, frame_num as int);
            lemma_frame_score_bounds(self@, frame_num as int);
            assert(self@[frame_num + 1].wf());
            assert(self@[frame_num + 2].wf());
        }
        if self.frames[frame_num + 1].second_record == Shot::X {
            self.frames[frame_num + 1].first_record.to_score() + self.frames[frame_num
                + 2].first_record.to_score()
        } else {
            self.frames[frame_num + 1].first_record.to_score() + self.frames[frame_num
                + 1].second_record.to_score()
        }
    }
}

/// Scoring is repeatable: any two answers that `calc_score` gives about one
/// game, with no ball recorded in between, are the same answer.
pub proof fn lemma_calc_score_repeatable(game: &BowlingGame, first: i32, second: i32)
    requires
        game.wf(),
        call_ensures(BowlingGame::calc_score, (game,), first),
        call_ensures(BowlingGame::calc_score, (game,), second),
    ensures
        first == second,
        first == total_score(game@),
{
}

/// Recording never lowers the score: whatever `new_shot` answers to a ball,
/// a `calc_score` after it returns no less than one before it.
pub proof fn lemma_new_shot_never_lowers(
    before: &BowlingGame,
    after: &BowlingGame,
    pins: i32,
    score_before: i32,
    score_after: i32,
)
    requires
        before.wf(),
        after@ == after_shot(before@, pins),
        call_ensures(BowlingGame::calc_score, (before,), score_before),
        call_ensures(BowlingGame::calc_score, (after,), score_after),
    ensures
        after.wf(),
        score_after >= score_before,
{
    lemma_after_shot_wf(before@, pins);
    lemma_score_monotonic(before@, pins);
}

} // verus!
