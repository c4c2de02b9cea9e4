//! Time-decayed vote aggregation: ballots cast during a bounded window lose
//! weight as they age, and a value wins once its share of the total weight
//! reaches a threshold that may move as the window runs.
//!
//! Time is counted in whole milliseconds. Weights and thresholds are fixed
//! point numbers in parts per million, so `SCALE` stands for 1.
pub mod consensus;
pub mod decay;
pub mod half_power;
pub mod lexical;
pub mod threshold;
pub mod vote;

pub use consensus::{Consensus, MIN_WEIGHT};
pub use decay::{ConfigError, Decay, ExpDecay, LinearDecay, StepDecay, SCALE};
pub use threshold::{Escalator, LinearEsc};
pub use vote::{Vote, Window};
