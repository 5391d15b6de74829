//! IEEE 754 numbers as bit patterns, with exact contracts.

pub mod closeness;
mod double;
mod fixed;
mod float;
pub mod laws;
pub(crate) mod rounding;
mod single;
pub mod value;

pub use double::Double;
pub use single::Single;
