//! Activity chart and report composition for a terminal profile summary.
//!
//! A series of daily counts becomes a line of block glyphs whose heights and
//! colors follow a logarithmic scale; named text modules built from a profile
//! are then selected and ordered by configuration.
pub mod bignat;
pub mod chart;
pub mod compose;
pub mod report;
pub mod scale;
pub mod text;
