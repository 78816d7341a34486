//! The decisions of the download queue: what a restart, an enqueue, a
//! failure, a pause or a retry does to a stored row, when a finished file
//! may be played, and which files of the managed folder are still owned by
//! a row.

use vstd::prelude::*;

use crate::naming::{audio_path, audio_path_of, part_path, part_path_of, MARKER};
use crate::records::{record_state, DownloadRecord, DownloadState, ProgressUpdate};
use crate::text::{chars_of, contains, contains_chars, starts_with, starts_with_chars, str_eq, to_string};

verus! {

/// A copy of an optional `String`.
pub fn clone_opt(s: &Option<String>) -> (r: Option<String>)
    ensures
        match s {
            Some(v) => r matches Some(w) && w@ == v@,
            None => r is None,
        },
{
    match s {
        Some(v) => Some(v.clone()),
        None => None,
    }
}

/// The row is one that a worker was handling when the process stopped.
pub open spec fn was_in_flight(r: DownloadRecord) -> bool {
    record_state(r) == Some(DownloadState::Downloading) || record_state(r) == Some(
        DownloadState::Resolving,
    )
}

/// The row is waiting for, or holding, a download that needs no new start.
pub open spec fn is_active(r: DownloadRecord) -> bool {
    match record_state(r) {
        Some(DownloadState::Queued) | Some(DownloadState::Resolving) | Some(
            DownloadState::Downloading,
        ) | Some(DownloadState::Completed) => true,
        _ => false,
    }
}

/// `u` is a progress write with this state, sizes, MIME type and error text.
pub open spec fn update_is(
    u: ProgressUpdate,
    state: DownloadState,
    size: i64,
    downloaded: i64,
    mime: Option<String>,
    error: Option<Seq<char>>,
) -> bool {
    &&& u.state == state
    &&& u.size_bytes == size
    &&& u.downloaded_bytes == downloaded
    &&& match mime {
        Some(m) => u.mime_type matches Some(x) && x@ == m@,
        None => u.mime_type is None,
    }
    &&& match error {
        Some(e) => u.error matches Some(x) && x@ == e,
        None => u.error is None,
    }
}

/// After a restart, a row that was being resolved or downloaded is queued
/// again with its sizes kept; other rows stay as they are.
pub fn recovery_update(r: &DownloadRecord) -> (u: Option<ProgressUpdate>)
    ensures
        if was_in_flight(*r) {
            u matches Some(v) && update_is(
                v,
                DownloadState::Queued,
                r.size_bytes,
                r.downloaded_bytes,
                None,
                None,
            )
        } else {
            u is None
        },
        u is Some <==> (r.state@ == "downloading"@ || r.state@ == "resolving"@),
        u is Some ==> (u->0.state == DownloadState::Queued && u->0.size_bytes == r.size_bytes
            && u->0.downloaded_bytes == r.downloaded_bytes && u->0.mime_type is None
            && u->0.error is None),
{
    proof {
        lemma_only_interrupted_rows_are_requeued(*r);
    }
    let s = DownloadState::parse(r.state.as_str());
    match s {
        Some(DownloadState::Downloading) | Some(DownloadState::Resolving) => Some(
            ProgressUpdate {
                state: DownloadState::Queued,
                size_bytes: r.size_bytes,
                downloaded_bytes: r.downloaded_bytes,
                mime_type: None,
                error: None,
            },
        ),
        _ => None,
    }
}

/// Only rows that were deliberately queued are resumed at start-up; paused
/// rows stay paused.
pub fn should_resume(r: &DownloadRecord) -> (b: bool)
    ensures
        b == (record_state(*r) == Some(DownloadState::Queued)),
        b <==> r.state@ == "queued"@,
{
    proof {
        crate::records::lemma_state_named_exactly(r.state@);
    }
    match DownloadState::parse(r.state.as_str()) {
        Some(DownloadState::Queued) => true,
        _ => false,
    }
}

/// What enqueueing one track does.
pub struct EnqueueDecision {
    /// Mark the existing row as wanted for itself, not only as part of a
    /// collection.
    pub mark_standalone: bool,
    /// Store a fresh queued row and start a worker for it.
    pub create: bool,
}

/// Local files are never downloaded.
pub open spec fn is_local(video_id: Seq<char>) -> bool {
    starts_with(video_id, "LOCAL:"@)
}

/// Local tracks are skipped. A track that already has a row is marked
/// standalone when asked for on its own, and is left alone when it is
/// queued, in progress or complete; any other track gets a fresh row.
pub fn enqueue_decision(video_id: &str, existing: Option<&DownloadRecord>, standalone: bool) -> (d:
    EnqueueDecision)
    ensures
        is_local(video_id@) ==> !d.mark_standalone && !d.create,
        !is_local(video_id@) ==> match existing {
            None => !d.mark_standalone && d.create,
            Some(r) => d.mark_standalone == standalone && d.create == !is_active(*r),
        },
        match existing {
            Some(r) => !is_local(video_id@) ==> (d.create <==> !(r.state@ == "queued"@ || r.state@
                == "resolving"@ || r.state@ == "downloading"@ || r.state@ == "completed"@)),
            None => true,
        },
{
    proof {
        match existing {
            Some(r) => lemma_active_rows_are_left_alone(*r),
            None => {},
        }
    }
    let id = chars_of(video_id);
    let local = chars_of("LOCAL:");
    if starts_with_chars(&id, &local) {
        return EnqueueDecision { mark_standalone: false, create: false };
    }
    match existing {
        None => EnqueueDecision { mark_standalone: false, create: true },
        Some(r) => {
            let active = match DownloadState::parse(r.state.as_str()) {
                Some(DownloadState::Queued) | Some(DownloadState::Resolving) | Some(
                    DownloadState::Downloading,
                ) | Some(DownloadState::Completed) => true,
                _ => false,
            };
            EnqueueDecision { mark_standalone: standalone, create: !active }
        },
    }
}

/// The row stored for a newly enqueued track: queued, nothing downloaded,
/// files named after the track with a provisional `webm` extension.
pub fn queued_record(
    video_id: &str,
    song_json: String,
    quality: String,
    now: i64,
    standalone: bool,
) -> (r: DownloadRecord)
    ensures
        r.video_id@ == video_id@,
        r.song_json == song_json,
        r.relative_path@ == audio_path_of(video_id@, "webm"@),
        r.part_path@ == part_path_of(video_id@, "webm"@),
        r.artwork_path is None,
        record_state(r) == Some(DownloadState::Queued),
        r.state@ == "queued"@,
        r.quality == quality,
        r.mime_type is None,
        r.size_bytes == 0,
        r.downloaded_bytes == 0,
        r.error is None,
        r.updated_at == now,
        r.standalone == standalone,
{
    let state = DownloadState::Queued.name();
    proof {
        crate::records::lemma_state_name_round_trip(DownloadState::Queued);
    }
    DownloadRecord {
        video_id: to_string(video_id),
        song_json,
        relative_path: audio_path(video_id, "webm"),
        part_path: part_path(video_id, "webm"),
        artwork_path: None,
        state,
        quality,
        mime_type: None,
        size_bytes: 0,
        downloaded_bytes: 0,
        error: None,
        updated_at: now,
        standalone,
    }
}

/// A failure that a fresh resolution may cure: the signed stream address was
/// refused (HTTP 401 or 403).
pub open spec fn is_auth_failure(error: Seq<char>) -> bool {
    contains(error, "401"@) || contains(error, "403"@)
}

/// Whether a failed attempt is retried once with a fresh resolution.
pub fn should_retry(error: &str) -> (b: bool)
    ensures
        b == is_auth_failure(error@),
        b <==> (contains(error@, "401"@) || contains(error@, "403"@)),
{
    let e = chars_of(error);
    let a = chars_of("401");
    let b = chars_of("403");
    contains_chars(&e, &a) || contains_chars(&e, &b)
}

/// What a worker does after one attempt at a download.
#[derive(Clone, Copy, Debug, PartialEq, Eq, Structural)]
pub enum RunStep {
    /// Resolve the stream afresh and try once more.
    Retry,
    /// Record the failure.
    Fail,
    /// Nothing more to do.
    Done,
}

/// After an attempt: done when it succeeded; one more attempt, with a fresh
/// resolution, when the first was refused for authorisation; a recorded
/// failure otherwise. A second attempt is never retried, so an offline queue
/// cannot turn into a storm of requests.
pub fn after_attempt(retried: bool, error: Option<&str>) -> (s: RunStep)
    ensures
        s == (match error {
            None => RunStep::Done,
            Some(e) => if !retried && is_auth_failure(e@) {
                RunStep::Retry
            } else {
                RunStep::Fail
            },
        }),
        (s == RunStep::Done) <==> error is None,
        retried ==> s != RunStep::Retry,
        !retried ==> (s == RunStep::Retry <==> (error matches Some(e) && (contains(e@, "401"@)
            || contains(e@, "403"@)))),
        s == RunStep::Retry ==> (error matches Some(e) && (contains(e@, "401"@) || contains(
            e@,
            "403"@,
        ))),
{
    match error {
        None => RunStep::Done,
        Some(e) => if !retried && should_retry(e) {
            RunStep::Retry
        } else {
            RunStep::Fail
        },
    }
}

/// The row as a progress write leaves it.
pub open spec fn with_update(r: DownloadRecord, u: ProgressUpdate, state: String) -> DownloadRecord {
    DownloadRecord {
        state,
        size_bytes: u.size_bytes,
        downloaded_bytes: u.downloaded_bytes,
        mime_type: u.mime_type,
        error: u.error,
        ..r
    }
}

/// Start-up rewrites a row exactly when its stored state is `downloading` or
/// `resolving`; queued, paused, completed and failed rows (failed ones keep
/// their error until the user retries) are left as they are.
pub proof fn lemma_only_interrupted_rows_are_requeued(r: DownloadRecord)
    ensures
        was_in_flight(r) <==> (r.state@ == "downloading"@ || r.state@ == "resolving"@),
        r.state@ == "failed"@ || r.state@ == "paused"@ || r.state@ == "completed"@ || r.state@
            == "queued"@ ==> !was_in_flight(r),
{
    crate::records::lemma_state_named_exactly(r.state@);
    reveal_strlit("queued");
    reveal_strlit("resolving");
    reveal_strlit("downloading");
    reveal_strlit("paused");
    reveal_strlit("completed");
    reveal_strlit("failed");
    assert("downloading"@.len() == 11 && "resolving"@.len() == 9 && "completed"@.len() == 9);
    assert("resolving"@[0] != "completed"@[0]);
}

/// Enqueueing never disturbs a track that is queued, being resolved, being
/// downloaded or complete: such a row counts as active. Paused, failed and
/// unknown rows do not, so asking for them again starts them afresh.
pub proof fn lemma_active_rows_are_left_alone(r: DownloadRecord)
    ensures
        is_active(r) <==> (r.state@ == "queued"@ || r.state@ == "resolving"@ || r.state@
            == "downloading"@ || r.state@ == "completed"@),
        r.state@ == "paused"@ || r.state@ == "failed"@ ==> !is_active(r),
{
    crate::records::lemma_state_named_exactly(r.state@);
    reveal_strlit("queued");
    reveal_strlit("resolving");
    reveal_strlit("downloading");
    reveal_strlit("paused");
    reveal_strlit("completed");
    reveal_strlit("failed");
    assert("paused"@[0] == 'p' && "failed"@[0] == 'f' && "queued"@[0] == 'q');
    assert("paused"@.len() == 6 && "failed"@.len() == 6 && "queued"@.len() == 6);
    assert("resolving"@.len() == 9 && "completed"@.len() == 9 && "downloading"@.len() == 11);
}

/// A row that a dead worker left resolving or downloading is queued again at
/// start-up, and so is resumed.
pub proof fn lemma_restart_resumes_interrupted(r: DownloadRecord, u: ProgressUpdate, name: String)
    requires
        was_in_flight(r),
        u.state == DownloadState::Queued,
        name@ == crate::records::state_name(u.state),
    ensures
        record_state(with_update(r, u, name)) == Some(DownloadState::Queued),
        with_update(r, u, name).size_bytes == u.size_bytes,
{
    crate::records::lemma_state_name_round_trip(DownloadState::Queued);
}

/// Rows paused by the user stay paused across restarts: start-up neither
/// rewrites nor resumes them.
pub proof fn lemma_restart_keeps_paused(r: DownloadRecord)
    requires
        record_state(r) == Some(DownloadState::Paused),
    ensures
        !was_in_flight(r),
        record_state(r) != Some(DownloadState::Queued),
{
}

/// A failed download keeps its sizes and MIME type and records the error.
pub fn failure_update(r: &DownloadRecord, error: &str) -> (u: ProgressUpdate)
    ensures
        update_is(
            u,
            DownloadState::Failed,
            r.size_bytes,
            r.downloaded_bytes,
            r.mime_type,
            Some(error@),
        ),
        u.state == DownloadState::Failed && u.size_bytes == r.size_bytes && u.downloaded_bytes
            == r.downloaded_bytes,
        u.error matches Some(e) && e@ == error@,
{
    ProgressUpdate {
        state: DownloadState::Failed,
        size_bytes: r.size_bytes,
        downloaded_bytes: r.downloaded_bytes,
        mime_type: clone_opt(&r.mime_type),
        error: Some(to_string(error)),
    }
}

/// Pausing keeps sizes and MIME type and clears the error.
pub fn pause_update(r: &DownloadRecord) -> (u: ProgressUpdate)
    ensures
        update_is(u, DownloadState::Paused, r.size_bytes, r.downloaded_bytes, r.mime_type, None),
        u.state == DownloadState::Paused && u.size_bytes == r.size_bytes && u.downloaded_bytes
            == r.downloaded_bytes && u.error is None,
{
    ProgressUpdate {
        state: DownloadState::Paused,
        size_bytes: r.size_bytes,
        downloaded_bytes: r.downloaded_bytes,
        mime_type: clone_opt(&r.mime_type),
        error: None,
    }
}

/// What a retry does to a row.
pub struct RetryPlan {
    /// Delete the row's audio and partial files first.
    pub remove_files: bool,
    pub update: ProgressUpdate,
}

/// Retrying a completed row deletes its files and starts from zero; any
/// other row is queued again where it stopped.
pub fn retry_plan(r: &DownloadRecord) -> (p: RetryPlan)
    ensures
        record_state(*r) == Some(DownloadState::Completed) ==> p.remove_files && update_is(
            p.update,
            DownloadState::Queued,
            0,
            0,
            r.mime_type,
            None,
        ),
        record_state(*r) != Some(DownloadState::Completed) ==> !p.remove_files && update_is(
            p.update,
            DownloadState::Queued,
            r.size_bytes,
            r.downloaded_bytes,
            r.mime_type,
            None,
        ),
        p.remove_files <==> r.state@ == "completed"@,
        p.update.state == DownloadState::Queued && p.update.error is None,
        !p.remove_files ==> p.update.size_bytes == r.size_bytes && p.update.downloaded_bytes
            == r.downloaded_bytes,
{
    proof {
        crate::records::lemma_state_named_exactly(r.state@);
    }
    let completed = match DownloadState::parse(r.state.as_str()) {
        Some(DownloadState::Completed) => true,
        _ => false,
    };
    if completed {
        RetryPlan {
            remove_files: true,
            update: ProgressUpdate {
                state: DownloadState::Queued,
                size_bytes: 0,
                downloaded_bytes: 0,
                mime_type: clone_opt(&r.mime_type),
                error: None,
            },
        }
    } else {
        RetryPlan {
            remove_files: false,
            update: ProgressUpdate {
                state: DownloadState::Queued,
                size_bytes: r.size_bytes,
                downloaded_bytes: r.downloaded_bytes,
                mime_type: clone_opt(&r.mime_type),
                error: None,
            },
        }
    }
}

/// When a collection is removed, one of its tracks is removed too when no
/// other collection holds it and it was not asked for on its own.
pub fn cancel_with_collection(other_collections: i64, r: Option<&DownloadRecord>) -> (b: bool)
    ensures
        b == (other_collections == 0 && match r {
            Some(x) => !x.standalone,
            None => false,
        }),
{
    other_collections == 0 && match r {
        Some(x) => !x.standalone,
        None => false,
    }
}

/// A finished file may be played offline: the row is complete, its size is
/// positive, the file on disk has exactly that size and every byte was
/// counted.
pub open spec fn playable(r: DownloadRecord, file_len: Option<u64>) -> bool {
    &&& record_state(r) == Some(DownloadState::Completed)
    &&& r.size_bytes > 0
    &&& file_len == Some(r.size_bytes as u64)
    &&& r.downloaded_bytes == r.size_bytes
}

/// Whether the row's file can serve playback; `file_len` is the size of the
/// resolved file, `None` when it is missing or not a regular file.
pub fn playback_ready(r: &DownloadRecord, file_len: Option<u64>) -> (b: bool)
    ensures
        b == playable(*r, file_len),
        b <==> (r.state@ == "completed"@ && r.size_bytes > 0 && r.downloaded_bytes
            == r.size_bytes && file_len == Some(r.size_bytes as u64)),
{
    proof {
        crate::records::lemma_state_named_exactly(r.state@);
    }
    let completed = match DownloadState::parse(r.state.as_str()) {
        Some(DownloadState::Completed) => true,
        _ => false,
    };
    if !completed {
        return false;
    }
    if r.size_bytes <= 0 {
        return false;
    }
    match file_len {
        Some(len) => len == r.size_bytes as u64 && r.downloaded_bytes == r.size_bytes,
        None => false,
    }
}

/// The audio and partial paths of each row in turn.
pub open spec fn file_paths(rs: Seq<DownloadRecord>) -> Seq<Seq<char>>
    decreases rs.len(),
{
    if rs.len() == 0 {
        Seq::empty()
    } else {
        file_paths(rs.drop_last()) + seq![rs.last().relative_path@, rs.last().part_path@]
    }
}

/// The artwork paths of the rows that have one.
pub open spec fn artwork_paths(rs: Seq<DownloadRecord>) -> Seq<Seq<char>>
    decreases rs.len(),
{
    if rs.len() == 0 {
        Seq::empty()
    } else {
        artwork_paths(rs.drop_last()) + match rs.last().artwork_path {
            Some(a) => seq![a@],
            None => Seq::empty(),
        }
    }
}

/// Every relative path that some row still owns.
pub open spec fn owned_paths(rs: Seq<DownloadRecord>) -> Seq<Seq<char>> {
    file_paths(rs) + artwork_paths(rs)
}

/// The views of a sequence of strings.
pub open spec fn string_views(v: Seq<String>) -> Seq<Seq<char>> {
    v.map_values(|s: String| s@)
}

/// The relative paths owned by the rows: audio and partial file of each,
/// then each artwork file.
pub fn owned_files(rs: &Vec<DownloadRecord>) -> (r: Vec<String>)
    ensures
        string_views(r@) == owned_paths(rs@),
{
    let mut out: Vec<String> = Vec::new();
    let mut i: usize = 0;
    while i < rs.len()
        invariant
            i <= rs.len(),
            string_views(out@) == file_paths(rs@.take(i as int)),
        decreases rs.len() - i,
    {
        out.push(rs[i].relative_path.clone());
        out.push(rs[i].part_path.clone());
        i = i + 1;
        assert(rs@.take(i as int).drop_last() =~= rs@.take(i - 1));
        assert(string_views(out@) =~= file_paths(rs@.take(i as int)));
    }
    assert(rs@.take(rs.len() as int) =~= rs@);
    let ghost files = string_views(out@);
    let mut j: usize = 0;
    while j < rs.len()
        invariant
            j <= rs.len(),
            files == file_paths(rs@),
            string_views(out@) == files + artwork_paths(rs@.take(j as int)),
        decreases rs.len() - j,
    {
        let ghost before = string_views(out@);
        let ghost t = rs@.take(j + 1);
        assert(t.drop_last() =~= rs@.take(j as int));
        assert(t.last() == rs@[j as int]);
        match &rs[j].artwork_path {
            Some(a) => {
                out.push(a.clone());
                assert(string_views(out@) =~= before.push(a@));
            },
            None => {
                assert(string_views(out@) =~= before);
            },
        }
        j = j + 1;
        assert(string_views(out@) =~= files + artwork_paths(rs@.take(j as int)));
    }
    assert(rs@.take(rs.len() as int) =~= rs@);
    out
}

/// Whether `x` is one of the views of `v`.
pub fn contains_string(v: &Vec<String>, x: &str) -> (b: bool)
    ensures
        b == string_views(v@).contains(x@),
{
    let mut i: usize = 0;
    while i < v.len()
        invariant
            i <= v.len(),
            forall|j: int| 0 <= j < i ==> v@[j]@ != x@,
        decreases v.len() - i,
    {
        if str_eq(v[i].as_str(), x) {
            assert(string_views(v@)[i as int] == x@);
            return true;
        }
        i = i + 1;
    }
    assert forall|j: int| 0 <= j < string_views(v@).len() implies string_views(v@)[j] != x@ by {
        assert(string_views(v@)[j] == v@[j]@);
    }
    false
}

/// A file of the managed folder that no row owns and that is not the folder's
/// marker, given its path relative to the folder.
pub open spec fn orphaned(rel: Option<Seq<char>>, owned: Seq<Seq<char>>) -> bool {
    match rel {
        Some(p) => p != MARKER@ && !owned.contains(p),
        None => false,
    }
}

/// Whether a file found in the managed folder is left over and may go.
pub fn is_orphan(rel: Option<&str>, owned: &Vec<String>) -> (b: bool)
    ensures
        b == orphaned(
            match rel {
                Some(p) => Some(p@),
                None => None,
            },
            string_views(owned@),
        ),
{
    match rel {
        Some(p) => !str_eq(p, MARKER) && !contains_string(owned, p),
        None => false,
    }
}

/// `s` with every backslash turned into a forward slash.
pub open spec fn forward_slashes(s: Seq<char>) -> Seq<char> {
    s.map_values(|c: char| if c == '\\' { '/' } else { c })
}

/// A relative path written with forward slashes (`replace('\\', "/")`).
pub fn with_forward_slashes(s: &str) -> (r: String)
    ensures
        r@ == forward_slashes(s@),
{
    let c = chars_of(s);
    let mut out: Vec<char> = Vec::new();
    let mut i: usize = 0;
    while i < c.len()
        invariant
            i <= c.len(),
            out@ == forward_slashes(c@.take(i as int)),
        decreases c.len() - i,
    {
        let ch = if c[i] == '\\' {
            '/'
        } else {
            c[i]
        };
        out.push(ch);
        i = i + 1;
        assert(out@ =~= forward_slashes(c@.take(i as int)));
    }
    assert(c@.take(c.len() as int) =~= c@);
    crate::text::string_from_chars(&out)
}

/// Rows never claim the marker file, so cleaning the folder keeps it.
pub proof fn lemma_marker_is_never_orphaned(owned: Seq<Seq<char>>)
    ensures
        !orphaned(Some(MARKER@), owned),
{
}

/// Cleaning the folder keeps every file that a row owns.
pub proof fn lemma_owned_files_are_kept(rs: Seq<DownloadRecord>, i: int)
    requires
        0 <= i < rs.len(),
    ensures
        !orphaned(Some(rs[i].relative_path@), owned_paths(rs)),
        !orphaned(Some(rs[i].part_path@), owned_paths(rs)),
        rs[i].artwork_path matches Some(a) ==> !orphaned(Some(a@), owned_paths(rs)),
    decreases rs.len(),
{
    let d = rs.drop_last();
    if i < rs.len() - 1 {
        lemma_owned_files_are_kept(d, i);
        assert(d[i] == rs[i]);
        lemma_file_paths_grow(rs);
        lemma_artwork_paths_grow(rs);
        let o = owned_paths(rs);
        let od = owned_paths(d);
        if !(rs[i].relative_path@ == MARKER@) {
            let k = choose|k: int| 0 <= k < od.len() && od[k] == rs[i].relative_path@;
            lemma_owned_index(d, rs, k);
        }
        if !(rs[i].part_path@ == MARKER@) {
            let k = choose|k: int| 0 <= k < od.len() && od[k] == rs[i].part_path@;
            lemma_owned_index(d, rs, k);
        }
        if rs[i].artwork_path is Some {
            let a = rs[i].artwork_path->0;
            if !(a@ == MARKER@) {
                let k = choose|k: int| 0 <= k < od.len() && od[k] == a@;
                lemma_owned_index(d, rs, k);
            }
        }
    } else {
        let f = file_paths(rs);
        let o = owned_paths(rs);
        assert(f.len() >= 2);
        assert(o[f.len() - 2] == rs[i].relative_path@);
        assert(o[f.len() - 1] == rs[i].part_path@);
        if rs[i].artwork_path is Some {
            let w = artwork_paths(rs);
            assert(w[w.len() - 1] == rs[i].artwork_path->0@);
            assert(o[o.len() - 1] == rs[i].artwork_path->0@);
        }
    }
}

proof fn lemma_file_paths_grow(rs: Seq<DownloadRecord>)
    requires
        rs.len() > 0,
    ensures
        file_paths(rs) == file_paths(rs.drop_last()) + seq![
            rs.last().relative_path@,
            rs.last().part_path@,
        ],
{
}

proof fn lemma_artwork_paths_grow(rs: Seq<DownloadRecord>)
    requires
        rs.len() > 0,
    ensures
        artwork_paths(rs.drop_last()).len() <= artwork_paths(rs).len(),
        forall|k: int|
            0 <= k < artwork_paths(rs.drop_last()).len() ==> #[trigger] artwork_paths(rs)[k]
                == artwork_paths(rs.drop_last())[k],
{
}

proof fn lemma_owned_index(d: Seq<DownloadRecord>, rs: Seq<DownloadRecord>, k: int)
    requires
        rs.len() > 0,
        d == rs.drop_last(),
        0 <= k < owned_paths(d).len(),
    ensures
        owned_paths(rs).contains(owned_paths(d)[k]),
{
    lemma_file_paths_grow(rs);
    lemma_artwork_paths_grow(rs);
    let fd = file_paths(d);
    let f = file_paths(rs);
    let o = owned_paths(rs);
    if k < fd.len() {
        assert(o[k] == owned_paths(d)[k]);
    } else {
        let m = k - fd.len();
        assert(owned_paths(d)[k] == artwork_paths(d)[m]);
        assert(artwork_paths(rs)[m] == artwork_paths(d)[m]);
        assert(o[f.len() + m] == artwork_paths(rs)[m]);
    }
}

} // verus!
