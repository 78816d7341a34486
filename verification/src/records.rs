//! The stored shape of a download: its state, the row that the library keeps
//! per track, the progress written back while it runs and the progress event
//! shown to the user.

use vstd::prelude::*;

use crate::text::{str_eq, to_string};

verus! {

/// Where a download stands.
#[derive(Clone, Copy, Debug, PartialEq, Eq, Structural)]
pub enum DownloadState {
    Queued,
    Resolving,
    Downloading,
    Paused,
    Completed,
    Failed,
}

/// The stored name of a state.
pub open spec fn state_name(s: DownloadState) -> Seq<char> {
    match s {
        DownloadState::Queued => "queued"@,
        DownloadState::Resolving => "resolving"@,
        DownloadState::Downloading => "downloading"@,
        DownloadState::Paused => "paused"@,
        DownloadState::Completed => "completed"@,
        DownloadState::Failed => "failed"@,
    }
}

/// The state a stored name stands for, if any.
pub open spec fn state_named(n: Seq<char>) -> Option<DownloadState> {
    if n == "queued"@ {
        Some(DownloadState::Queued)
    } else if n == "resolving"@ {
        Some(DownloadState::Resolving)
    } else if n == "downloading"@ {
        Some(DownloadState::Downloading)
    } else if n == "paused"@ {
        Some(DownloadState::Paused)
    } else if n == "completed"@ {
        Some(DownloadState::Completed)
    } else if n == "failed"@ {
        Some(DownloadState::Failed)
    } else {
        None
    }
}

impl DownloadState {
    /// The stored name of this state.
    pub fn name(&self) -> (r: String)
        ensures
            r@ == state_name(*self),
    {
        match self {
            DownloadState::Queued => to_string("queued"),
            DownloadState::Resolving => to_string("resolving"),
            DownloadState::Downloading => to_string("downloading"),
            DownloadState::Paused => to_string("paused"),
            DownloadState::Completed => to_string("completed"),
            DownloadState::Failed => to_string("failed"),
        }
    }

    /// The state that a stored name stands for; `None` for any other text.
    pub fn parse(name: &str) -> (r: Option<DownloadState>)
        ensures
            r == state_named(name@),
    {
        if str_eq(name, "queued") {
            Some(DownloadState::Queued)
        } else if str_eq(name, "resolving") {
            Some(DownloadState::Resolving)
        } else if str_eq(name, "downloading") {
            Some(DownloadState::Downloading)
        } else if str_eq(name, "paused") {
            Some(DownloadState::Paused)
        } else if str_eq(name, "completed") {
            Some(DownloadState::Completed)
        } else if str_eq(name, "failed") {
            Some(DownloadState::Failed)
        } else {
            None
        }
    }
}

/// Reading back a stored state name gives the state that was stored.
pub proof fn lemma_state_name_round_trip(s: DownloadState)
    ensures
        state_named(state_name(s)) == Some(s),
{
    reveal_strlit("queued");
    reveal_strlit("resolving");
    reveal_strlit("downloading");
    reveal_strlit("paused");
    reveal_strlit("completed");
    reveal_strlit("failed");
    let q = "queued"@;
    let r = "resolving"@;
    let d = "downloading"@;
    let p = "paused"@;
    let c = "completed"@;
    let f = "failed"@;
    assert(q.len() == 6 && r.len() == 9 && d.len() == 11 && p.len() == 6 && c.len() == 9
        && f.len() == 6);
    assert(q[0] == 'q' && p[0] == 'p' && f[0] == 'f' && r[0] == 'r' && c[0] == 'c');
    assert(q != p && q != f && p != f && r != c);
}

/// A stored name stands for a state exactly when it is that state's name:
/// the six names are distinct.
pub proof fn lemma_state_named_exactly(n: Seq<char>)
    ensures
        (state_named(n) == Some(DownloadState::Queued)) == (n == "queued"@),
        (state_named(n) == Some(DownloadState::Resolving)) == (n == "resolving"@),
        (state_named(n) == Some(DownloadState::Downloading)) == (n == "downloading"@),
        (state_named(n) == Some(DownloadState::Paused)) == (n == "paused"@),
        (state_named(n) == Some(DownloadState::Completed)) == (n == "completed"@),
        (state_named(n) == Some(DownloadState::Failed)) == (n == "failed"@),
{
    reveal_strlit("queued");
    reveal_strlit("resolving");
    reveal_strlit("downloading");
    reveal_strlit("paused");
    reveal_strlit("completed");
    reveal_strlit("failed");
    let q = "queued"@;
    let r = "resolving"@;
    let d = "downloading"@;
    let p = "paused"@;
    let c = "completed"@;
    let f = "failed"@;
    assert(q.len() == 6 && r.len() == 9 && d.len() == 11 && p.len() == 6 && c.len() == 9
        && f.len() == 6);
    assert(q[0] == 'q' && p[0] == 'p' && f[0] == 'f' && r[0] == 'r' && c[0] == 'c');
    assert(q != p && q != f && p != f && r != c && q != r && q != d && q != c && r != d && r
        != p && r != f && d != p && d != c && d != f && p != c && c != f);
}

/// The row kept for one track.
pub struct DownloadRecord {
    pub video_id: String,
    pub song_json: String,
    pub relative_path: String,
    pub part_path: String,
    pub artwork_path: Option<String>,
    pub state: String,
    pub quality: String,
    pub mime_type: Option<String>,
    pub size_bytes: i64,
    pub downloaded_bytes: i64,
    pub error: Option<String>,
    pub updated_at: i64,
    pub standalone: bool,
}

/// The state of a stored row, if its name is one of the known ones.
pub open spec fn record_state(r: DownloadRecord) -> Option<DownloadState> {
    state_named(r.state@)
}

/// A progress write for one row: its new state, sizes, MIME type and error.
pub struct ProgressUpdate {
    pub state: DownloadState,
    pub size_bytes: i64,
    pub downloaded_bytes: i64,
    pub mime_type: Option<String>,
    pub error: Option<String>,
}

/// Progress of one download, as shown to the user.
pub struct DownloadProgress {
    pub video_id: String,
    pub state: String,
    pub downloaded_bytes: i64,
    pub size_bytes: i64,
    pub error: Option<String>,
}

impl DownloadProgress {
    /// The event sent while bytes arrive.
    pub fn downloading(video_id: &str, downloaded: u64, total: u64) -> (p: DownloadProgress)
        ensures
            p.video_id@ == video_id@,
            p.state@ == state_name(DownloadState::Downloading),
            p.downloaded_bytes == downloaded as i64,
            p.size_bytes == total as i64,
            p.error is None,
    {
        DownloadProgress {
            video_id: to_string(video_id),
            state: DownloadState::Downloading.name(),
            downloaded_bytes: downloaded as i64,
            size_bytes: total as i64,
            error: None,
        }
    }

    /// The event sent once the file is complete.
    pub fn completed(video_id: &str, total: u64) -> (p: DownloadProgress)
        ensures
            p.video_id@ == video_id@,
            p.state@ == state_name(DownloadState::Completed),
            p.downloaded_bytes == total as i64,
            p.size_bytes == total as i64,
            p.error is None,
    {
        DownloadProgress {
            video_id: to_string(video_id),
            state: DownloadState::Completed.name(),
            downloaded_bytes: total as i64,
            size_bytes: total as i64,
            error: None,
        }
    }
}

} // verus!
