//! Log-rotating stream multiplexer: the decision core.
//!
//! The library owns everything with real logic in it: the rotation policy,
//! the rename chain that ages log files out, the per-stream writer state
//! machine, and the line handler that drives it. Each write is turned into
//! an explicit list of filesystem [`handler::Action`]s, so the effect of
//! every decision is stated and proved here; an unverified shell executes
//! the actions against the real filesystem, console and child process.

pub mod config;
pub mod fs_model;
pub mod handler;
pub mod laws;
pub mod policy;
pub mod rotator;

pub use config::ConfigError;
pub use config::LogMode;
pub use config::RotationConfig;
