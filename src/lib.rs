//! Decides which foreign packages to rebuild after an upgrade: version
//! parsing and thresholds, wildcard overrides, the curated trigger registry,
//! and the pipeline that combines them, each proved against its contract.

pub mod config;
pub mod db;
pub mod glob;
pub mod helper;
pub mod overrides;
pub mod text;
pub mod trigger;
pub mod triggers;
pub mod version;
