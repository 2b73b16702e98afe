//! Texas Hold'em equity estimation: a 52-card bitset with uniform random
//! draws, a totally ordered poker-hand evaluator, and a Monte-Carlo
//! simulation loop that estimates the probability of winning a round.

pub mod bits;
pub mod cardset;
pub mod combination;
pub mod notation;
pub mod simulate;
