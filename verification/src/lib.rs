//! A mouse jiggler's logic, verified: the command-line grammar and the
//! configuration it builds, the motions of each jiggle, the random offsets,
//! and the decisions of the run loop (when to jiggle, when to stop).
//!
//! - `cli`: options, durations, modes, and the laws of the grammar.
//! - `jiggler`: the motions of a jiggle and the state of a run.
//! - `rng`: the linear congruential generator that draws random offsets.
//! - `period`: the proof that the generator has full period 2^64.
//! - `number`: decimal integers as `str::parse` reads them.
//! - `text`: whitespace trimming, ASCII case folding and search on strings.
pub mod cli;
pub mod jiggler;
pub mod number;
pub mod period;
pub mod rng;
pub mod text;
