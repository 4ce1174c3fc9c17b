//! Orchestration logic for converting batches of files, one batch per
//! directory: what to do with each file, how many may be worked on at once,
//! how outcomes add up to per-group and run-level state, and what the live
//! status pane shows.

pub mod aggregator;
pub mod cancel;
pub mod codec;
pub mod confirm;
pub mod dispatch;
pub mod event;
pub mod group;
pub mod history;
pub mod ordered;
pub mod paths;
pub mod plan;
pub mod render;
pub mod roster;
pub mod session;
pub mod term;
pub mod text;
pub mod transcode;
pub mod worker;
