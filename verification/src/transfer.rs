//! Fetching one track: the size the server reports, what to keep of a
//! partial file, the free-space check, and the ranged-request loop as a
//! state machine that the caller drives with network events.

use vstd::prelude::*;

use crate::naming::{push_chars, push_str};
use crate::paths::opt_view;
use crate::text::{
    chars_of, decimal, decimal_chars, last_index_of, lemma_decimal_is_digits,
    lemma_parse_decimal_round_trip, parse_u64, parse_u64_chars, parse_u64_str, rsplit_once,
    rsplit_once_chars, string_from_chars, to_string, trim, trim_chars,
};

verus! {

/// Bytes asked for in one ranged request.
pub const CHUNK: u64 = 4194304;

/// Free space that must remain on the disk after a chunk is written.
pub const RESERVE_BYTES: u64 = 67108864;

/// The total size in a `Content-Range` value such as `bytes 0-3/42`: the
/// trimmed text after the last `/`, as a number.
pub open spec fn content_range_total_of(v: Option<Seq<char>>) -> Option<u64> {
    match v {
        Some(s) => match rsplit_once(s, '/') {
            Some((_, after)) => parse_u64(trim(after)),
            None => None,
        },
        None => None,
    }
}

proof fn lemma_last_slash(x: Seq<char>, d: Seq<char>)
    requires
        forall|i: int| 0 <= i < d.len() ==> d[i] != '/',
    ensures
        last_index_of(x + seq!['/'] + d, '/') == Some(x.len() as int),
    decreases d.len(),
{
    let s = x + seq!['/'] + d;
    if d.len() == 0 {
        assert(s.last() == '/');
    } else {
        let e = d.drop_last();
        assert forall|i: int| 0 <= i < e.len() implies e[i] != '/' by {
            assert(e[i] == d[i]);
        }
        lemma_last_slash(x, e);
        assert(s.drop_last() =~= x + seq!['/'] + e);
        assert(s.last() == d.last());
    }
}

/// A `Content-Range` value ending in `/<total>` reports that total, whatever
/// comes before the last slash (the chunk's own range among it).
pub proof fn lemma_content_range_reads_the_total(prefix: Seq<char>, total: u64)
    ensures
        content_range_total_of(Some(prefix + seq!['/'] + decimal(total as nat))) == Some(total),
{
    let d = decimal(total as nat);
    lemma_parse_decimal_round_trip(total);
    lemma_decimal_all_digits(total);
    lemma_last_slash(prefix, d);
    let s = prefix + seq!['/'] + d;
    assert(s.subrange(0, prefix.len() as int) =~= prefix);
    assert(s.subrange(prefix.len() as int + 1, s.len() as int) =~= d);
}

proof fn lemma_decimal_all_digits(n: u64)
    ensures
        forall|i: int| 0 <= i < decimal(n as nat).len() ==> decimal(n as nat)[i] != '/',
{
    lemma_decimal_is_digits(n as nat);
}

/// The size in a `Content-Length` value: the whole text as a number.
pub open spec fn content_length_of(v: Option<Seq<char>>) -> Option<u64> {
    match v {
        Some(s) => parse_u64(s),
        None => None,
    }
}

/// The size of the stream: from `Content-Range` when it gives one, else
/// from `Content-Length`.
pub open spec fn reported_total_of(range: Option<Seq<char>>, length: Option<Seq<char>>) -> Option<
    u64,
> {
    match content_range_total_of(range) {
        Some(t) => Some(t),
        None => content_length_of(length),
    }
}

/// The total size that a `Content-Range` header value reports (not the size
/// of the chunk it describes).
pub fn content_range_total(v: Option<&str>) -> (r: Option<u64>)
    ensures
        r == content_range_total_of(opt_view(v)),
{
    match v {
        Some(s) => {
            let c = chars_of(s);
            match rsplit_once_chars(&c, '/') {
                Some((_, after)) => {
                    let t = trim_chars(&after);
                    parse_u64_chars(&t)
                },
                None => None,
            }
        },
        None => None,
    }
}

/// The size that a `Content-Length` header value reports.
pub fn content_length(v: Option<&str>) -> (r: Option<u64>)
    ensures
        r == content_length_of(opt_view(v)),
{
    match v {
        Some(s) => parse_u64_str(s),
        None => None,
    }
}

/// The size of the stream from the probe response's headers, or the error
/// that ends the download when neither header gives one.
pub fn reported_total(range: Option<&str>, length: Option<&str>) -> (r: Result<u64, String>)
    ensures
        match reported_total_of(opt_view(range), opt_view(length)) {
            Some(t) => r == Ok::<u64, String>(t),
            None => r matches Err(e) && e@ == "stream did not report its size"@,
        },
{
    match content_range_total(range) {
        Some(t) => Ok(t),
        None => match content_length(length) {
            Some(t) => Ok(t),
            None => Err(to_string("stream did not report its size")),
        },
    }
}

/// What to keep of a partial file once the stream's size is known.
pub struct PartialCheck {
    /// Bytes of the partial file that count as downloaded.
    pub existing: u64,
    /// The partial file must be deleted first.
    pub discard: bool,
}

/// The partial file belongs to a stream of another size than the one stored.
pub open spec fn size_changed(recorded_size: i64, total: u64) -> bool {
    recorded_size > 0 && recorded_size as int != total as int
}

/// The partial file must be deleted before downloading.
pub open spec fn discards_partial(recorded_size: i64, existing: u64, total: u64) -> bool {
    size_changed(recorded_size, total) || existing > total
}

/// The bytes of the partial file that the download resumes from.
pub open spec fn kept_partial(recorded_size: i64, existing: u64, total: u64) -> u64 {
    if discards_partial(recorded_size, existing, total) {
        0
    } else {
        existing
    }
}

/// A download never resumes past the end of the stream, and resumes from the
/// whole partial file whenever that file fits the stream it was started for.
pub proof fn lemma_kept_partial_fits(recorded_size: i64, existing: u64, total: u64)
    ensures
        kept_partial(recorded_size, existing, total) <= total,
        !size_changed(recorded_size, total) && existing <= total ==> kept_partial(
            recorded_size,
            existing,
            total,
        ) == existing,
        recorded_size <= 0 && existing <= total ==> kept_partial(recorded_size, existing, total)
            == existing,
        recorded_size as int == total as int && existing <= total ==> kept_partial(
            recorded_size,
            existing,
            total,
        ) == existing,
        recorded_size > 0 && recorded_size as int != total as int ==> kept_partial(
            recorded_size,
            existing,
            total,
        ) == 0 && discards_partial(recorded_size, existing, total),
        existing > total ==> kept_partial(recorded_size, existing, total) == 0 && discards_partial(
            recorded_size,
            existing,
            total,
        ),
{
}

/// A paused download resumes where it stopped: the size recorded with the
/// pause matches the stream, so the partial file's bytes are all kept.
pub proof fn lemma_paused_download_resumes_in_place(total: u64, downloaded: u64)
    requires
        downloaded <= total,
        total <= i64::MAX,
    ensures
        kept_partial(total as i64, downloaded, total) == downloaded,
{
}

/// A partial file is kept only when the stored size (if any) matches the
/// stream's and the file is not longer than the stream; otherwise it is
/// deleted and the download starts from zero.
pub fn reconcile_partial(recorded_size: i64, existing: u64, total: u64) -> (r: PartialCheck)
    ensures
        r.discard == discards_partial(recorded_size, existing, total),
        r.existing == kept_partial(recorded_size, existing, total),
{
    let mut existing = existing;
    let mut discard = false;
    if recorded_size > 0 && recorded_size as u64 != total {
        discard = true;
        existing = 0;
    }
    if existing > total {
        discard = true;
        existing = 0;
    }
    PartialCheck { existing, discard }
}

/// A partial file that already holds the whole stream only needs renaming.
pub fn already_whole(existing: u64, total: u64) -> (r: bool)
    ensures
        r == (existing > 0 && existing == total),
{
    existing > 0 && existing == total
}

/// The error text for a disk without room.
pub open spec fn no_space_message(free: u64) -> Seq<char> {
    "not enough free space ("@ + decimal(free as nat) + " bytes available)"@
}

/// Free bytes needed before writing `bytes` more: those plus the reserve,
/// capped at the largest `u64`.
pub open spec fn space_required(bytes: u64) -> int {
    if bytes as int + RESERVE_BYTES as int > u64::MAX as int {
        u64::MAX as int
    } else {
        bytes as int + RESERVE_BYTES as int
    }
}

/// There is room for `bytes` more when that many plus the reserve (capped
/// at the largest `u64`) are free.
pub fn check_space(free: u64, bytes: u64) -> (r: Result<(), String>)
    ensures
        if (free as int) < space_required(bytes) {
            r matches Err(e) && e@ == no_space_message(free)
        } else {
            r is Ok
        },
        r is Ok ==> free >= RESERVE_BYTES,
        free as int >= bytes as int + RESERVE_BYTES as int ==> r is Ok,
        free < u64::MAX && (free as int) < bytes as int + RESERVE_BYTES as int ==> r is Err,
{
    if free < bytes.saturating_add(RESERVE_BYTES) {
        let mut v = chars_of("not enough free space (");
        let d = decimal_chars(free);
        push_chars(&mut v, &d);
        push_str(&mut v, " bytes available)");
        Err(string_from_chars(&v))
    } else {
        Ok(())
    }
}

/// The last byte of the request that starts at `start`: a chunk's worth, or
/// up to the end of the stream.
pub open spec fn chunk_end_of(start: u64, total: u64) -> int {
    if start as int + CHUNK as int - 1 < total as int - 1 {
        start as int + CHUNK as int - 1
    } else {
        total as int - 1
    }
}

/// A response to a ranged request is usable when it is `206 Partial
/// Content`, or, for a request from byte zero, any success status.
pub open spec fn status_ok(code: u16, start: u64) -> bool {
    code == 206 || (start == 0 && 200 <= code && code <= 299)
}

/// Where the transfer loop stands.
#[derive(Clone, Copy, Debug, PartialEq, Eq, Structural)]
pub enum Phase {
    /// Between requests.
    Ready,
    /// A request up to byte `end` went out; its status is awaited.
    AwaitingStatus { end: u64 },
    /// The body of a request up to byte `end` is arriving.
    Streaming { end: u64 },
    /// Stopped on the user's request.
    Paused,
    /// Stopped on an error.
    Failed,
    /// Every byte is written.
    Finished,
}

/// Why a transfer stopped with an error.
#[derive(Clone, Copy, Debug, PartialEq, Eq, Structural)]
pub enum TransferFailure {
    /// The server answered with an unusable status.
    BadStatus { code: u16 },
    /// The response ended before the requested range was complete.
    EndedEarly,
}

/// What the network and the user did since the last step.
#[derive(Clone, Copy, Debug, PartialEq, Eq, Structural)]
pub enum TransferEvent {
    /// Ready for the next request; `cancelled` is the cancel flag.
    Tick { cancelled: bool },
    /// The status code of the pending request's response.
    Status { code: u16 },
    /// A piece of the body arrived; `cancelled` is the cancel flag.
    Chunk { len: u64, cancelled: bool },
    /// The body of the current response ended.
    StreamEnded,
}

/// What the caller must do next.
#[derive(Clone, Copy, Debug, PartialEq, Eq, Structural)]
pub enum TransferAction {
    /// Check that `space_needed` bytes fit, then request bytes
    /// `start..=end`.
    Request { start: u64, end: u64, space_needed: u64 },
    /// Write the piece that just arrived to the partial file.
    Write { len: u64 },
    /// Record the download as paused at `downloaded` of `total` bytes.
    Pause { total: u64, downloaded: u64 },
    /// Stop with this error.
    Fail { failure: TransferFailure },
    /// Flush, rename the partial file and record the download as complete.
    Finish,
    /// Nothing to do for this event.
    Wait,
}

/// The transfer of one stream into a partial file.
#[derive(Clone, Copy, Debug, PartialEq, Eq, Structural)]
pub struct Transfer {
    /// Size of the stream.
    pub total: u64,
    /// Bytes in the partial file.
    pub downloaded: u64,
    pub phase: Phase,
}

/// A pending or running request lies inside the stream, and a pending one
/// starts at the end of the partial file.
pub open spec fn well_formed(t: Transfer) -> bool {
    match t.phase {
        Phase::AwaitingStatus { end } => t.downloaded <= end && end < t.total,
        Phase::Streaming { end } => end < t.total,
        _ => true,
    }
}

/// Every step keeps a transfer well formed, starting from a new one.
pub proof fn lemma_step_keeps_well_formed(t: Transfer, e: TransferEvent)
    requires
        well_formed(t),
        event_fits(t, e),
    ensures
        well_formed(next(t, e).0),
        well_formed(Transfer { total: t.total, downloaded: t.downloaded, phase: Phase::Ready }),
{
}

/// The phase is one that no event leaves.
pub open spec fn is_terminal(p: Phase) -> bool {
    p is Paused || p is Failed || p is Finished
}

/// An event that the transfer can take without overflowing its count.
pub open spec fn event_fits(t: Transfer, e: TransferEvent) -> bool {
    match e {
        TransferEvent::Chunk { len, cancelled } => !cancelled ==> t.downloaded as int + len as int
            <= u64::MAX as int,
        _ => true,
    }
}

/// One step of the transfer loop.
pub open spec fn next(t: Transfer, e: TransferEvent) -> (Transfer, TransferAction) {
    match (t.phase, e) {
        (Phase::Ready, TransferEvent::Tick { cancelled }) => {
            if t.downloaded >= t.total {
                (Transfer { phase: Phase::Finished, ..t }, TransferAction::Finish)
            } else if cancelled {
                (
                    Transfer { phase: Phase::Paused, ..t },
                    TransferAction::Pause { total: t.total, downloaded: t.downloaded },
                )
            } else {
                let end = chunk_end_of(t.downloaded, t.total) as u64;
                (
                    Transfer { phase: Phase::AwaitingStatus { end }, ..t },
                    TransferAction::Request {
                        start: t.downloaded,
                        end,
                        space_needed: (end - t.downloaded + 1) as u64,
                    },
                )
            }
        },
        (Phase::AwaitingStatus { end }, TransferEvent::Status { code }) => {
            if status_ok(code, t.downloaded) {
                (Transfer { phase: Phase::Streaming { end }, ..t }, TransferAction::Wait)
            } else {
                (
                    Transfer { phase: Phase::Failed, ..t },
                    TransferAction::Fail { failure: TransferFailure::BadStatus { code } },
                )
            }
        },
        (Phase::Streaming { end }, TransferEvent::Chunk { len, cancelled }) => {
            if cancelled {
                (
                    Transfer { phase: Phase::Paused, ..t },
                    TransferAction::Pause { total: t.total, downloaded: t.downloaded },
                )
            } else {
                (
                    Transfer { downloaded: (t.downloaded + len) as u64, ..t },
                    TransferAction::Write { len },
                )
            }
        },
        (Phase::Streaming { end }, TransferEvent::StreamEnded) => {
            if t.downloaded <= end {
                (
                    Transfer { phase: Phase::Failed, ..t },
                    TransferAction::Fail { failure: TransferFailure::EndedEarly },
                )
            } else {
                (Transfer { phase: Phase::Ready, ..t }, TransferAction::Wait)
            }
        },
        _ => (t, TransferAction::Wait),
    }
}

impl Transfer {
    /// A transfer of a stream of `total` bytes into a partial file that
    /// already holds `existing` of them.
    pub fn new(total: u64, existing: u64) -> (t: Transfer)
        ensures
            t == (Transfer { total, downloaded: existing, phase: Phase::Ready }),
    {
        Transfer { total, downloaded: existing, phase: Phase::Ready }
    }

    /// The next state and the action for the caller after `e`.
    pub fn step(&self, e: TransferEvent) -> (r: (Transfer, TransferAction))
        requires
            event_fits(*self, e),
        ensures
            r == next(*self, e),
            match (self.phase, e) {
                (Phase::AwaitingStatus { end }, TransferEvent::Status { code }) => if code == 206
                    || (self.downloaded == 0 && 200 <= code && code <= 299) {
                    r.0 == (Transfer { phase: Phase::Streaming { end }, ..*self }) && r.1
                        == TransferAction::Wait
                } else {
                    r.0 == (Transfer { phase: Phase::Failed, ..*self }) && r.1
                        == TransferAction::Fail { failure: TransferFailure::BadStatus { code } }
                },
                _ => true,
            },
    {
        proof {
            if let TransferEvent::Status { code } = e {
                lemma_only_usable_statuses_stream(*self, code);
            }
        }
        let t = *self;
        match (t.phase, e) {
            (Phase::Ready, TransferEvent::Tick { cancelled }) => {
                if t.downloaded >= t.total {
                    (Transfer { phase: Phase::Finished, ..t }, TransferAction::Finish)
                } else if cancelled {
                    (
                        Transfer { phase: Phase::Paused, ..t },
                        TransferAction::Pause { total: t.total, downloaded: t.downloaded },
                    )
                } else {
                    let last = t.total - 1;
                    let end = if last - t.downloaded < CHUNK - 1 {
                        last
                    } else {
                        t.downloaded + (CHUNK - 1)
                    };
                    (
                        Transfer { phase: Phase::AwaitingStatus { end }, ..t },
                        TransferAction::Request {
                            start: t.downloaded,
                            end,
                            space_needed: end - t.downloaded + 1,
                        },
                    )
                }
            },
            (Phase::AwaitingStatus { end }, TransferEvent::Status { code }) => {
                if code == 206 || (t.downloaded == 0 && 200 <= code && code <= 299) {
                    (Transfer { phase: Phase::Streaming { end }, ..t }, TransferAction::Wait)
                } else {
                    (
                        Transfer { phase: Phase::Failed, ..t },
                        TransferAction::Fail { failure: TransferFailure::BadStatus { code } },
                    )
                }
            },
            (Phase::Streaming { end }, TransferEvent::Chunk { len, cancelled }) => {
                if cancelled {
                    (
                        Transfer { phase: Phase::Paused, ..t },
                        TransferAction::Pause { total: t.total, downloaded: t.downloaded },
                    )
                } else {
                    (
                        Transfer { downloaded: t.downloaded + len, ..t },
                        TransferAction::Write { len },
                    )
                }
            },
            (Phase::Streaming { end }, TransferEvent::StreamEnded) => {
                if t.downloaded <= end {
                    (
                        Transfer { phase: Phase::Failed, ..t },
                        TransferAction::Fail { failure: TransferFailure::EndedEarly },
                    )
                } else {
                    (Transfer { phase: Phase::Ready, ..t }, TransferAction::Wait)
                }
            },
            _ => (t, TransferAction::Wait),
        }
    }
}

/// One full round: from `Ready`, a request whose response is accepted and
/// delivers exactly the requested bytes leaves the transfer `Ready` again,
/// one chunk further on (or at the end of the stream); at the end of the
/// stream the next tick finishes it.
pub proof fn lemma_full_round_advances(t: Transfer, code: u16)
    requires
        t.phase is Ready,
        t.downloaded < t.total,
        status_ok(code, t.downloaded),
    ensures
        ({
            let (t1, a1) = next(t, TransferEvent::Tick { cancelled: false });
            let end = chunk_end_of(t.downloaded, t.total);
            let len = (end - t.downloaded + 1) as u64;
            let (t2, _) = next(t1, TransferEvent::Status { code });
            let (t3, a3) = next(t2, TransferEvent::Chunk { len, cancelled: false });
            let (t4, _) = next(t3, TransferEvent::StreamEnded);
            &&& a1 == TransferAction::Request {
                start: t.downloaded,
                end: end as u64,
                space_needed: len,
            }
            &&& a3 == TransferAction::Write { len }
            &&& t4.phase is Ready
            &&& t4.downloaded == end + 1
            &&& t4.total == t.total
            &&& (t.total - t.downloaded <= CHUNK ==> t4.downloaded == t.total && next(
                t4,
                TransferEvent::Tick { cancelled: false },
            ).1 is Finish)
        }),
{
}

/// A pending request's response is streamed only when it is `206 Partial
/// Content`, or a success (`200..=299`) for a request from byte zero; any
/// other status, an error page of an expired address among them, fails the
/// transfer with that status and nothing is written.
pub proof fn lemma_only_usable_statuses_stream(t: Transfer, code: u16)
    ensures
        t.phase is AwaitingStatus ==> (next(t, TransferEvent::Status { code }).0.phase is Streaming
            <==> (code == 206 || (t.downloaded == 0 && 200 <= code && code <= 299))),
        t.phase is AwaitingStatus && !(code == 206 || (t.downloaded == 0 && 200 <= code && code
            <= 299)) ==> next(t, TransferEvent::Status { code }) == (
            Transfer { phase: Phase::Failed, ..t },
            TransferAction::Fail { failure: TransferFailure::BadStatus { code } },
        ),
        t.phase is AwaitingStatus && (code < 200 || code > 299) ==> next(
            t,
            TransferEvent::Status { code },
        ).1 == (TransferAction::Fail { failure: TransferFailure::BadStatus { code } }),
        t.phase is AwaitingStatus && (code == 206 || (t.downloaded == 0 && 200 <= code && code
            <= 299)) ==> next(t, TransferEvent::Status { code }) == (
            Transfer { phase: Phase::Streaming { end: t.phase->AwaitingStatus_end }, ..t },
            TransferAction::Wait,
        ),
{
}

/// How each event moves a running transfer: a complete file finishes (even
/// when cancelled); otherwise a cancel pauses at the current count; a tick
/// asks for the next `min(CHUNK, left)` bytes; an accepted chunk is written
/// and counted in full; a body that ends covering its range lets the next
/// request go, and one that ends short fails.
pub proof fn lemma_step_behaviour(t: Transfer, e: TransferEvent)
    requires
        event_fits(t, e),
    ensures
        t.phase is Ready && t.downloaded >= t.total ==> (e matches TransferEvent::Tick { .. }
            ==> next(t, e).1 == TransferAction::Finish),
        t.phase is Ready && t.downloaded < t.total ==> (e == TransferEvent::Tick { cancelled: true }
            ==> next(t, e).1 == (TransferAction::Pause { total: t.total, downloaded: t.downloaded })),
        t.phase is Ready && t.downloaded < t.total && e == (TransferEvent::Tick { cancelled: false })
            ==> (next(t, e).1 matches TransferAction::Request { start, end, space_needed } && start
            == t.downloaded && end - start + 1 == (if t.total - t.downloaded < CHUNK {
            t.total - t.downloaded
        } else {
            CHUNK as int
        }) && space_needed == end - start + 1),
        t.phase is Streaming ==> (e matches TransferEvent::Chunk { len, cancelled } ==> (!cancelled
            ==> next(t, e).0.downloaded == t.downloaded + len && next(t, e).1
            == TransferAction::Write { len })),
        t.phase is Streaming ==> (e matches TransferEvent::Chunk { len, cancelled } ==> (cancelled
            ==> next(t, e).0.downloaded == t.downloaded && next(t, e).1 is Pause)),
        t.phase is Streaming && e == TransferEvent::StreamEnded ==> (next(t, e).0.phase is Ready
            <==> t.downloaded > t.phase->Streaming_end),
        t.phase is Streaming && e == TransferEvent::StreamEnded && t.downloaded
            <= t.phase->Streaming_end ==> next(t, e).1 == (TransferAction::Fail {
            failure: TransferFailure::EndedEarly,
        }),
{
}

/// Every request continues where the file ends, stays inside the stream and
/// asks for at most one chunk; the space it asks for is exactly its length.
pub proof fn lemma_requests_are_contiguous_chunks(t: Transfer, e: TransferEvent)
    ensures
        next(t, e).1 matches TransferAction::Request { start, end, space_needed } ==> {
            &&& start == t.downloaded
            &&& start <= end
            &&& end < t.total
            &&& end - start + 1 <= CHUNK
            &&& space_needed == end - start + 1
        },
{
}

/// The byte count never goes down and the stream's size never changes.
pub proof fn lemma_progress_is_monotone(t: Transfer, e: TransferEvent)
    requires
        event_fits(t, e),
    ensures
        next(t, e).0.downloaded >= t.downloaded,
        next(t, e).0.total == t.total,
{
}

/// A transfer is finished only once every byte of the stream is in the
/// partial file.
pub proof fn lemma_finishes_only_when_complete(t: Transfer, e: TransferEvent)
    ensures
        next(t, e).1 is Finish ==> t.downloaded >= t.total,
        next(t, e).0.phase is Finished ==> t.phase is Finished || t.downloaded >= t.total,
{
}

/// A paused, failed or finished transfer stays as it is, whatever happens.
pub proof fn lemma_terminal_phases_stay(t: Transfer, e: TransferEvent)
    requires
        is_terminal(t.phase),
    ensures
        next(t, e) == (t, TransferAction::Wait),
{
}

/// A pause records exactly the bytes written so far; a cancelled chunk is
/// not counted.
pub proof fn lemma_pause_keeps_progress(t: Transfer, e: TransferEvent)
    ensures
        next(t, e).1 matches TransferAction::Pause { total, downloaded } ==> total == t.total
            && downloaded == t.downloaded && next(t, e).0.downloaded == t.downloaded,
{
}

/// A response ends cleanly only after it covered its whole range, so the
/// next request starts past the previous one's end.
pub proof fn lemma_clean_end_covers_range(t: Transfer)
    requires
        t.phase is Streaming,
        next(t, TransferEvent::StreamEnded).0.phase is Ready,
    ensures
        t.downloaded > t.phase->Streaming_end,
{
}

} // verus!
