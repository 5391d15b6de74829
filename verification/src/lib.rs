//! Battery drain measurement: the logic of a terminal tool that loads the processor, watches
//! the battery drain and measures worst-case battery life.
//!
//! A session is a sequence of log entries (`log`), made from what the machine reports
//! (`monitor`) at the time on the clock (`clock`). What to do next is decided in `control` and,
//! for recorded sessions, in `playback`. What is shown is built as plain values in `headless`
//! and `screen`, with the title in `banner`. Floating-point numbers are computed in `number`,
//! bit for bit as IEEE 754 prescribes; `text` writes numbers down. `laws` holds what the figures
//! mean in exact arithmetic.

pub mod banner;
pub mod clock;
pub mod control;
pub mod headless;
pub mod laws;
pub mod log;
pub mod monitor;
pub mod number;
pub mod playback;
pub mod screen;
pub mod text;
