//! What the screens show, as styled text, gauges and charts.

pub mod chart;
pub mod dashboard;
pub mod laws;
pub mod plot;
pub mod scales;
pub mod span;
pub mod title;
pub mod values;
