//! Ten-pin bowling: a frame ledger that records shots one at a time, and a
//! scoring engine that resolves spare and strike bonuses over it.
//!
//! The ledger holds the ten scored frames followed by two bonus frames. The
//! bonus frames only ever hold the extra balls earned by a spare or a strike
//! in the tenth frame, so every bonus lookup reads a frame that exists.

pub mod frame;
pub mod game;
pub mod ledger;
pub mod scoring;
pub mod shot;

pub use frame::{Frame, SpareOrStrike};
pub use game::BowlingGame;
pub use ledger::ShotError;
pub use shot::Shot;
