//! Planning, parsing and bookkeeping logic of a batch video cutter.
//!
//! Times are whole milliseconds throughout (`i64`), rates are thousandths
//! (frames per 1000 seconds).
pub mod text;
pub mod number;
pub mod seconds;
pub mod clock;
pub mod config;
pub mod plan;
pub mod order;
pub mod vision;
pub mod probe;
pub mod json;
pub mod pattern;
pub mod encoding;
pub mod reply;
pub mod watermark;
pub mod locate;
pub mod cutting;
pub mod ai_run;
pub mod names;
pub mod cleanup;
