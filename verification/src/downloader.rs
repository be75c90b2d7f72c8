//! How the torrent downloader reacts to the alerts its engine sends.

use vstd::prelude::*;

verus! {

/// The kinds of alert the download engine sends.
#[derive(Clone, Copy, Debug, PartialEq, Eq, Structural)]
pub enum AlertKind {
    /// Periodic statistics of a torrent.
    TorrentStats,
    /// A torrent finished downloading.
    TorrentComplete,
    /// A recoverable engine error.
    Error,
    /// Any other alert.
    Other,
}

/// What the downloader does on an alert.
#[derive(Clone, Copy, Debug, PartialEq, Eq, Structural)]
pub enum AlertAction {
    /// Print the torrent's statistics and keep listening.
    ReportStats,
    /// Report the error and keep listening.
    ReportError,
    /// Announce completion, stop listening and shut the engine down.
    Shutdown,
    /// Keep listening.
    Ignore,
}

pub open spec fn spec_alert_action(kind: AlertKind) -> AlertAction {
    match kind {
        AlertKind::TorrentStats => AlertAction::ReportStats,
        AlertKind::TorrentComplete => AlertAction::Shutdown,
        AlertKind::Error => AlertAction::ReportError,
        AlertKind::Other => AlertAction::Ignore,
    }
}

/// The downloader's reaction to an alert.
pub fn alert_action(kind: AlertKind) -> (r: AlertAction)
    ensures
        r == spec_alert_action(kind),
        (r == AlertAction::Shutdown) <==> kind == AlertKind::TorrentComplete,
{
    match kind {
        AlertKind::TorrentStats => AlertAction::ReportStats,
        AlertKind::TorrentComplete => AlertAction::Shutdown,
        AlertKind::Error => AlertAction::ReportError,
        AlertKind::Other => AlertAction::Ignore,
    }
}

} // verus!
