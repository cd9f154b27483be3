//! What the operations are for.
//!
//! Each law here says what an operation's result has to be in terms of what
//! went into it, or how two results relate, in words of its own: letters,
//! numbers and positions rather than the definitions the operation is built
//! from.

pub mod delivering;
pub mod importing;
pub mod knowing;
pub mod marking;
pub mod moving;
pub mod naming;
pub mod pathing;
pub mod placing;
pub mod polling;
pub mod queueing;
pub mod searching;
pub mod spelling;
pub mod storing;
pub mod sweeping;
pub mod telling;
