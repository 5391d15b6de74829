//! What the figures of a session mean in exact arithmetic.

pub mod average;
pub mod memory;
mod quotient;
pub mod rate;
pub mod time;
