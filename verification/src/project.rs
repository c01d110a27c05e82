//! Project records: the saved session's shape and its version rule.
//! Reading and writing the file itself happens outside the library.

use crate::models::SyncConfig;
use crate::models::SyncResult;
use crate::models::Track;
use vstd::prelude::*;

verus! {

/// Schema version this library writes and the newest one it accepts.
pub const PROJECT_VERSION: u32 = 2;

/// Top-level project record: everything a session keeps except sample
/// buffers, which are never persisted.
#[derive(Debug, Clone)]
pub struct ProjectFile {
    /// Schema version.
    pub version: u32,
    /// Application version that created this record.
    pub app_version: String,
    /// Timestamp text of the last save.
    pub saved_at: String,
    /// All tracks with their clips and analysis state.
    pub tracks: Vec<Track>,
    /// Engine configuration of the last run.
    pub config: SyncConfig,
    /// Analysis result, if the session was analyzed.
    pub result: Option<SyncResult>,
}

impl ProjectFile {
    /// Assemble a project record at the current schema version.
    pub fn new(
        tracks: Vec<Track>,
        config: SyncConfig,
        result: Option<SyncResult>,
        app_version: String,
        saved_at: String,
    ) -> (p: ProjectFile)
        ensures
            p.version == PROJECT_VERSION,
            p.app_version == app_version,
            p.saved_at == saved_at,
            p.tracks == tracks,
            p.config == config,
            p.result == result,
    {
        ProjectFile { version: PROJECT_VERSION, app_version, saved_at, tracks, config, result }
    }
}

/// Whether a loaded project's schema version can be read: files written by
/// a newer schema are rejected.
pub fn version_supported(version: u32) -> (r: bool)
    ensures
        r == (version <= PROJECT_VERSION),
{
    version <= PROJECT_VERSION
}

} // verus!
