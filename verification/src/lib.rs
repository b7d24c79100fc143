//! Building blocks of a live disc golf broadcast controller for vMix.
use vstd::prelude::*;

pub mod error;
pub mod text;
pub mod vmix;
pub mod leaderboard_prop;
pub mod score;
pub mod sort;
pub mod queue;
pub mod hole;
pub mod division;
pub mod tjing;
pub mod round;
pub mod player;
pub mod standings;
pub mod dto;
pub mod results;
pub mod legacy;
pub mod event;
pub mod handler;
pub mod rust_handler;
pub mod coordinator;
pub mod channels;
pub mod leaderboard_cycle;
pub mod scorecard;

verus! {

} // verus!
