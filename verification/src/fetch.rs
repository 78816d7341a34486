//! Preparing and finishing the download of one track: where its files go
//! once the stream's format is known, when an earlier copy can be reused,
//! and the rows and progress writes that record each stage.

use vstd::prelude::*;

use crate::naming::{audio_path, audio_path_of, ext_for, ext_for_mime, part_path, part_path_of};
use crate::paths::opt_view;
use crate::queue::{clone_opt, update_is};
use crate::records::{record_state, DownloadRecord, DownloadState, ProgressUpdate};
use crate::text::{chars_of, same_chars};

verus! {

/// Where a track's files go for a stream of some MIME type.
pub struct FilePlan {
    /// `audio/<name>.<ext>`
    pub relative: String,
    /// `audio/<name>.<ext>.part`
    pub part: String,
    /// The stored paths differ: the old files must be deleted and the row
    /// reset to nothing downloaded.
    pub relocate: bool,
}

/// The files of a track whose stream has the given MIME type, and whether the
/// row's stored paths must change to them.
pub fn plan_files(r: &DownloadRecord, mime: Option<&str>) -> (p: FilePlan)
    ensures
        p.relative@ == audio_path_of(r.video_id@, ext_for(opt_view(mime))),
        p.part@ == part_path_of(r.video_id@, ext_for(opt_view(mime))),
        p.relocate == (r.relative_path@ != p.relative@),
{
    let ext = ext_for_mime(mime);
    let relative = audio_path(r.video_id.as_str(), ext);
    let part = part_path(r.video_id.as_str(), ext);
    let same = same_chars(&chars_of(r.relative_path.as_str()), &chars_of(relative.as_str()));
    FilePlan { relative, part, relocate: !same }
}

/// The row after its files moved to new paths for another format: nothing
/// downloaded, size unknown, the new MIME type; everything else kept.
pub fn relocated(r: DownloadRecord, relative: String, part: String, mime: Option<String>) -> (n:
    DownloadRecord)
    ensures
        n.relative_path == relative,
        n.part_path == part,
        n.mime_type == mime,
        n.downloaded_bytes == 0,
        n.size_bytes == 0,
        n.video_id == r.video_id,
        n.song_json == r.song_json,
        n.artwork_path == r.artwork_path,
        n.state == r.state,
        n.quality == r.quality,
        n.error == r.error,
        n.updated_at == r.updated_at,
        n.standalone == r.standalone,
{
    DownloadRecord {
        relative_path: relative,
        part_path: part,
        mime_type: mime,
        downloaded_bytes: 0,
        size_bytes: 0,
        ..r
    }
}

/// A completed row whose final file is present needs no download.
pub fn already_downloaded(r: &DownloadRecord, final_is_file: bool) -> (b: bool)
    ensures
        b == (final_is_file && record_state(*r) == Some(DownloadState::Completed)),
        b <==> (final_is_file && r.state@ == "completed"@),
{
    proof {
        crate::records::lemma_state_named_exactly(r.state@);
    }
    final_is_file && match DownloadState::parse(r.state.as_str()) {
        Some(DownloadState::Completed) => true,
        _ => false,
    }
}

/// The progress write that marks a row as being resolved.
pub fn resolving_update(r: &DownloadRecord) -> (u: ProgressUpdate)
    ensures
        update_is(u, DownloadState::Resolving, r.size_bytes, r.downloaded_bytes, None, None),
        u.state == DownloadState::Resolving && u.size_bytes == r.size_bytes && u.downloaded_bytes
            == r.downloaded_bytes && u.mime_type is None && u.error is None,
{
    ProgressUpdate {
        state: DownloadState::Resolving,
        size_bytes: r.size_bytes,
        downloaded_bytes: r.downloaded_bytes,
        mime_type: None,
        error: None,
    }
}

/// The progress write for a transfer of `total` bytes at `downloaded`, in
/// the given state; sizes are stored as `i64`.
pub fn transfer_update(state: DownloadState, total: u64, downloaded: u64, mime: &Option<String>) -> (u:
    ProgressUpdate)
    ensures
        update_is(u, state, total as i64, downloaded as i64, *mime, None),
        u.state == state && u.size_bytes == total as i64 && u.downloaded_bytes == downloaded as i64
            && u.error is None,
{
    ProgressUpdate {
        state,
        size_bytes: total as i64,
        downloaded_bytes: downloaded as i64,
        mime_type: clone_opt(mime),
        error: None,
    }
}

/// The row of a finished download: the updated track data, complete at
/// `total` bytes, the stream's MIME type, no error, and the saved artwork
/// when there is one (else the artwork it had).
pub fn finished_record(
    r: DownloadRecord,
    song_json: String,
    total: u64,
    mime: Option<String>,
    artwork: Option<String>,
) -> (n: DownloadRecord)
    ensures
        n.song_json == song_json,
        record_state(n) == Some(DownloadState::Completed),
        n.size_bytes == total as i64,
        n.downloaded_bytes == total as i64,
        n.error is None,
        n.mime_type == mime,
        n.artwork_path == (match artwork {
            Some(a) => Some(a),
            None => r.artwork_path,
        }),
        n.video_id == r.video_id,
        n.relative_path == r.relative_path,
        n.part_path == r.part_path,
        n.quality == r.quality,
        n.updated_at == r.updated_at,
        n.standalone == r.standalone,
{
    let state = DownloadState::Completed.name();
    proof {
        crate::records::lemma_state_name_round_trip(DownloadState::Completed);
    }
    let artwork_path = match artwork {
        Some(a) => Some(a),
        None => r.artwork_path,
    };
    DownloadRecord {
        song_json,
        state,
        size_bytes: total as i64,
        downloaded_bytes: total as i64,
        error: None,
        mime_type: mime,
        artwork_path,
        ..r
    }
}

} // verus!
