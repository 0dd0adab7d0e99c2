//! Per-stream rotation configuration.

use vstd::prelude::*;

verus! {

/// How a captured stream is echoed: `Tee` duplicates every line to the
/// console sink in addition to the log file, `Redirect` writes only to the
/// log file.
#[derive(Clone, Copy, Debug, PartialEq, Eq, Structural)]
pub enum LogMode {
    Tee,
    Redirect,
}

/// Number of retained files (active file included) when the configuration
/// does not say otherwise.
pub const DEFAULT_MAX_FILES: u32 = 5;

/// A configuration error found while building a [`RotationConfig`].
#[derive(Clone, Copy, Debug, PartialEq, Eq, Structural)]
pub enum ConfigError {
    /// `max_files` was 0; at least the active file must be retained.
    InvalidMaxFiles,
}

/// Rotation settings for one captured stream.
///
/// `path` is the active file's name as bytes; rotated siblings are derived
/// from it as `path.1`, `path.2`, and so on. `max_files` counts every
/// retained file including the active one and must be at least 1.
/// `max_age` (seconds) and `max_size` (bytes) bound the active file's age
/// and size; 0 means unbounded.
#[derive(Debug)]
pub struct RotationConfig {
    pub mode: LogMode,
    pub path: Vec<u8>,
    pub max_files: u32,
    pub max_age: u64,
    pub max_size: u64,
}

impl RotationConfig {
    /// A well-formed configuration retains at least the active file.
    pub open spec fn wf(self) -> bool {
        self.max_files >= 1
    }

    /// Builds a validated configuration, rejecting `max_files == 0` instead
    /// of letting the rotation countdown underflow.
    pub fn new(
        mode: LogMode,
        path: Vec<u8>,
        max_files: u32,
        max_age: u64,
        max_size: u64,
    ) -> (r: Result<RotationConfig, ConfigError>)
        ensures
            r is Ok <==> max_files >= 1,
            r matches Ok(c) ==> c == (RotationConfig { mode, path, max_files, max_age, max_size })
                && c.wf(),
            r matches Err(e) ==> e == ConfigError::InvalidMaxFiles,
    {
        if max_files == 0 {
            Err(ConfigError::InvalidMaxFiles)
        } else {
            Ok(RotationConfig { mode, path, max_files, max_age, max_size })
        }
    }
}

} // verus!
