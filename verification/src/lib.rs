//! Total watch time of a video library.
//!
//! The library holds the rules of the pipeline: how a directory tree is
//! listed, which names count as videos, how the output of the media probe is
//! read as a duration, how durations are added up while failures are set
//! aside, and how the total is displayed. Reading the directories and
//! running the probe are left to the caller.

pub mod cli;
pub mod decimal;
pub mod duration;
pub mod filter;
pub mod format;
pub mod listing;
pub mod probe;
pub mod text;
pub mod total;
