//! Replay-and-measurement engine for worst-case execution time (WCET)
//! analysis of priority-scheduled RTIC firmware, together with the
//! post-measurement trace building and stack-resource-policy response-time
//! analysis.

pub mod analysis;
pub mod breakpoints;
pub mod cli;
pub mod dwarf;
pub mod json;
pub mod ktest;
pub mod metadata;
pub mod objdump;
pub mod replay;
pub mod settings;
pub mod text;
pub mod trace;
