//! Event names and the payloads sent to the frontend with them.

use vstd::prelude::*;

verus! {

pub const EV_CONN_STATE: &'static str = "conn://state";

pub const EV_CORE_LOG: &'static str = "core://log";

pub const EV_TRAFFIC: &'static str = "traffic://stats";

pub const EV_PING_RESULT: &'static str = "ping://result";

pub const EV_DOWNLOAD_PROGRESS: &'static str = "core://download-progress";

pub const EV_CORE_CRASHED: &'static str = "core://crashed";

pub const EV_SUB_UPDATED: &'static str = "sub://updated";

/// Asks the UI to run the elevation flow for a TUN attempt that did not
/// come from a command (tray, startup).
pub const EV_NEEDS_ELEVATION: &'static str = "ui://needs-elevation";

#[derive(Debug, Clone, PartialEq, Eq)]
pub struct PingResult {
    pub server_id: String,
    pub latency_ms: Option<u32>,
}

#[derive(Debug, Clone, Copy, PartialEq, Eq, Structural)]
pub enum DownloadPhase {
    Download,
    Extract,
    Done,
}

#[derive(Debug, Clone, Copy, PartialEq, Eq, Structural)]
pub struct DownloadProgress {
    pub phase: DownloadPhase,
    pub downloaded: u64,
    pub total: u64,
}

#[derive(Debug, Clone, Copy, PartialEq, Eq, Structural)]
pub struct CrashInfo {
    pub code: Option<i32>,
    pub will_restart: bool,
    pub attempt: u32,
}

#[derive(Debug, Clone, PartialEq, Eq)]
pub struct SubUpdated {
    pub id: String,
    pub added: usize,
    pub removed: usize,
}

#[derive(Debug, Clone, PartialEq, Eq)]
pub struct LogLine {
    /// Milliseconds since the Unix epoch.
    pub ts: i64,
    pub level: String,
    pub message: String,
}

/// A copy of a log line.
pub fn copy_line(l: &LogLine) -> (r: LogLine)
    ensures
        r == *l,
{
    LogLine { ts: l.ts, level: l.level.clone(), message: l.message.clone() }
}

} // verus!
