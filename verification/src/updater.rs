//! The decisions of the updater: which manifest a channel reads, what is
//! reported of an update found, and how download progress adds up.
use vstd::prelude::*;

use crate::store::UpdateChannel;

verus! {

/// The manifest the beta channel reads, a rolling pre-release that every
/// published release overwrites.
pub const BETA_ENDPOINT: &'static str =
    "https://github.com/anyscapelabs/superclip/releases/download/beta/latest.json";

/// The manifest endpoint that replaces the configured one for `channel`: the
/// beta manifest for the beta channel; none for stable, which keeps the
/// configured endpoint.
pub fn endpoint_override(channel: UpdateChannel) -> (r: Option<&'static str>)
    ensures
        match channel {
            UpdateChannel::Beta => r == Some(BETA_ENDPOINT),
            UpdateChannel::Stable => r is None,
        },
{
    match channel {
        UpdateChannel::Beta => Some(BETA_ENDPOINT),
        UpdateChannel::Stable => None,
    }
}

/// What the update panel is told of an update found.
#[derive(Debug)]
pub struct UpdateInfo {
    pub version: String,
    pub current_version: String,
    pub notes: Option<String>,
}

/// The report of an update to `version` from `current_version`, with its
/// release notes.
pub fn update_info(version: String, current_version: String, notes: Option<String>) -> (r:
    UpdateInfo)
    ensures
        r.version == version,
        r.current_version == current_version,
        r.notes == notes,
{
    UpdateInfo { version, current_version, notes }
}

/// Download progress: bytes so far, and the total when the server gave one.
#[derive(Debug, Clone, Copy)]
pub struct DownloadProgress {
    pub downloaded: u64,
    pub total: Option<u64>,
}

/// The progress after a chunk of `chunk` bytes arrives: the bytes so far
/// grow by the chunk.
pub fn advance_progress(downloaded: u64, chunk: usize, total: Option<u64>) -> (r: DownloadProgress)
    requires
        downloaded + chunk <= u64::MAX,
    ensures
        r.downloaded == downloaded + chunk,
        r.total == total,
{
    DownloadProgress { downloaded: downloaded + chunk as u64, total }
}

} // verus!
