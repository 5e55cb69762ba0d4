use crate::shot::{Shot, MAX_PINS};
use vstd::prelude::*;

verus! {

/// How a frame ended, which decides the bonus it earns.
#[derive(Debug, Clone, Copy, PartialEq, Eq, Structural)]
pub enum SpareOrStrike {
    Normal,
    Spare,
    Strike,
}

/// Two slots, filled first then second.
#[derive(Debug, Clone, Copy, PartialEq, Eq, Structural)]
pub struct Frame {
    pub first_record: Shot,
    pub second_record: Shot,
}

impl Frame {
    /// The frame in which no ball has been thrown.
    pub open spec fn empty() -> Frame {
        Frame { first_record: Shot::NotYet, second_record: Shot::NotYet }
    }

    /// The shapes a frame can take: untouched, one ball short of a strike,
    /// two balls that together fell no more than `MAX_PINS`, or a strike,
    /// whose second slot is the marker and never a pin count.
    pub open spec fn wf(self) -> bool {
        match (self.first_record, self.second_record) {
            (Shot::NotYet, Shot::NotYet) => true,
            (Shot::Pins(a), Shot::NotYet) => 0 <= a < MAX_PINS,
            (Shot::Pins(a), Shot::Pins(b)) => 0 <= a < MAX_PINS && 0 <= b && a + b <= MAX_PINS,
            (Shot::Pins(a), Shot::X) => a == MAX_PINS,
            _ => false,
        }
    }

    /// The pins recorded in the frame; markers count as 0.
    pub open spec fn total(self) -> int {
        self.first_record.pins() + self.second_record.pins()
    }

    /// Whether at least one slot is still to be thrown.
    pub open spec fn is_open(self) -> bool {
        self.first_record == Shot::NotYet || self.second_record == Shot::NotYet
    }

    /// The number of balls thrown in the frame.
    pub open spec fn balls(self) -> nat {
        (if self.first_record.is_thrown() { 1nat } else { 0nat })
            + (if self.second_record.is_thrown() { 1nat } else { 0nat })
    }

    /// The pins of the balls thrown in the frame, in the order thrown.
    pub open spec fn thrown(self) -> Seq<int> {
        match (self.first_record, self.second_record) {
            (Shot::Pins(a), Shot::Pins(b)) => seq![a as int, b as int],
            (Shot::Pins(a), _) => seq![a as int],
            _ => Seq::empty(),
        }
    }

    /// Strike when the first ball took all the pins, spare when it took the
    /// two balls together to do so, normal otherwise.
    pub open spec fn kind(self) -> SpareOrStrike {
        if self.first_record.pins() == MAX_PINS {
            SpareOrStrike::Strike
        } else if self.total() == MAX_PINS {
            SpareOrStrike::Spare
        } else {
            SpareOrStrike::Normal
        }
    }

    /// Whether a ball of `pins` may go into the next free slot: a first ball
    /// always may, a second one only if the frame then holds at most `MAX_PINS`.
    pub open spec fn fits(self, pins: int) -> bool {
        self.first_record == Shot::NotYet || self.first_record.pins() + pins <= MAX_PINS
    }

    /// The frame after a ball of `pins` went into its next free slot. A
    /// strike closes the frame at once.
    pub open spec fn with_shot(self, pins: i32) -> Frame {
        if self.first_record == Shot::NotYet {
            if pins == MAX_PINS {
                Frame { first_record: Shot::Pins(pins), second_record: Shot::X }
            } else {
                Frame { first_record: Shot::Pins(pins), second_record: Shot::NotYet }
            }
        } else {
            Frame { first_record: self.first_record, second_record: Shot::Pins(pins) }
        }
    }

    /// A frame with both slots still to be thrown.
    pub fn new() -> (frame: Frame)
        ensures
            frame == Frame::empty(),
            frame.wf(),
    {
        Frame { first_record: Shot::NotYet, second_record: Shot::NotYet }
    }

    /// The pins recorded in the frame.
    pub fn calc_score(&self) -> (score: i32)
        requires
            self.wf(),
        ensures
            score == self.total(),
            0 <= score <= MAX_PINS,
    {
        self.first_record.to_score() + self.second_record.to_score()
    }

    /// Whether the frame still has a free slot.
    pub fn has_notyet(&self) -> (open: bool)
        ensures
            open == self.is_open(),
    {
        if self.first_record == Shot::NotYet || self.second_record == Shot::NotYet {
            true
        } else {
            false
        }
    }

    /// Classifies the frame. A strike always totals `MAX_PINS` with the
    /// marker in its second slot; a spare always took two balls.
    pub fn judge_spare_and_strike(&self) -> (kind: SpareOrStrike)
        requires
            self.wf(),
        ensures
            kind == self.kind(),
            kind == SpareOrStrike::Strike ==> self.total() == MAX_PINS && self.second_record
                == Shot::X,
            kind == SpareOrStrike::Spare ==> self.total() == MAX_PINS && self.balls() == 2,
    {
        if self.first_record.to_score() == MAX_PINS {
            SpareOrStrike::Strike
        } else if self.calc_score() == MAX_PINS {
            SpareOrStrike::Spare
        } else {
            SpareOrStrike::Normal
        }
    }
}

/// A frame classified as a strike totals exactly `MAX_PINS`, and its second
/// slot holds the no-second-ball marker, never a pin count.
pub proof fn lemma_strike_frame(frame: Frame)
    requires
        frame.wf(),
        frame.kind() == SpareOrStrike::Strike,
    ensures
        frame.total() == MAX_PINS,
        frame.second_record == Shot::X,
        !(frame.second_record is Pins),
{
}

/// Recording a ball that fits keeps a valid frame valid, adds exactly its
/// pins to the total, and puts it last among the balls thrown.
pub proof fn lemma_with_shot(frame: Frame, pins: i32)
    requires
        frame.wf(),
        frame.is_open(),
        0 <= pins <= MAX_PINS,
        frame.fits(pins as int),
    ensures
        frame.with_shot(pins).wf(),
        frame.with_shot(pins).total() == frame.total() + pins,
        frame.with_shot(pins).balls() == frame.balls() + 1,
        frame.with_shot(pins).first_record.pins() >= frame.first_record.pins(),
        frame.with_shot(pins).thrown() == frame.thrown().push(pins as int),
{
    assert(frame.with_shot(pins).thrown() =~= frame.thrown().push(pins as int));
}

} // verus!
