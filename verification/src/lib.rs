//! Static, offline security scanner for untrusted source repositories.
//!
//! The library holds the scanner's decision logic: text heuristics, manifest
//! and configuration analysis, archive member admission, module reachability,
//! data-flow evaluation over a lowered JavaScript model, and report rendering.
pub mod text;
pub mod model;
pub mod rules;
pub mod scanner;
pub mod git_analysis;
pub mod report;
pub mod uri;
pub mod threat_db;
pub mod json;
pub mod cli;
