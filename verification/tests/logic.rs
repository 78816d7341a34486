use limusic_downloads::naming::{artwork_path, audio_path, part_path};
use limusic_downloads::collection::{collection_tracks, queued_collection};
use limusic_downloads::fetch::{already_downloaded, finished_record, plan_files, relocated, resolving_update, transfer_update};
use limusic_downloads::migration::{migration_failed, migration_paths, old_files, parent_change, size_mismatch};
use limusic_downloads::paths::{join_path, managed_dir, parent, path_for, resolve_within, same_path};
use limusic_downloads::queue::{
    after_attempt, cancel_with_collection, enqueue_decision, failure_update, is_orphan, owned_files,
    pause_update, playback_ready, queued_record, recovery_update, retry_plan, should_resume,
    should_retry, with_forward_slashes, RunStep,
};
use limusic_downloads::records::{DownloadProgress, DownloadRecord, DownloadState};
use limusic_downloads::session::{kde_picker_check, picked_folder, picker_launch_error, picker_start_dir};
use limusic_downloads::settings::{
    client_list, disabled_clients, download_quality, quality, quality_from_name, set_download_quality,
    AudioQuality,
};
use limusic_downloads::transfer::{
    already_whole, check_space, reconcile_partial, Phase, Transfer, TransferAction, TransferEvent,
    TransferFailure, CHUNK, RESERVE_BYTES,
};

fn record(state: &str) -> DownloadRecord {
    DownloadRecord {
        video_id: "v1".to_string(),
        song_json: "{}".to_string(),
        relative_path: "audio/7631.webm".to_string(),
        part_path: "audio/7631.webm.part".to_string(),
        artwork_path: None,
        state: state.to_string(),
        quality: "HIGH".to_string(),
        mime_type: Some("audio/webm".to_string()),
        size_bytes: 5,
        downloaded_bytes: 5,
        error: None,
        updated_at: 10,
        standalone: true,
    }
}

#[test]
fn parent_ignores_blank_settings() {
    assert_eq!(parent(Some("/music")), Some("/music".to_string()));
    assert_eq!(parent(Some("  \t")), None);
    assert_eq!(parent(Some("")), None);
    assert_eq!(parent(None), None);
    assert_eq!(managed_dir(Some("/music")), Some("/music/LiMusic Downloads".to_string()));
    assert_eq!(managed_dir(Some("/music/")), Some("/music/LiMusic Downloads".to_string()));
    assert_eq!(managed_dir(Some(" ")), None);
}

#[test]
fn join_follows_unix_path_rules() {
    assert_eq!(join_path("/a", "b"), "/a/b");
    assert_eq!(join_path("/a/", "b"), "/a/b");
    assert_eq!(join_path("", "b"), "b");
    assert_eq!(join_path("/a", "/etc"), "/etc");
    assert_eq!(join_path("/a", ""), "/a/");
}

#[test]
fn stored_paths_cannot_leave_the_managed_folder() {
    assert_eq!(
        path_for(Some("/music"), "audio/616263.webm"),
        Some("/music/LiMusic Downloads/audio/616263.webm".to_string())
    );
    assert_eq!(path_for(Some("/music"), "../secret"), None);
    assert_eq!(path_for(Some("/music"), "audio/../../x"), None);
    assert_eq!(path_for(Some("/music"), "/etc/passwd"), None);
    assert_eq!(
        path_for(Some("/music"), "/music/LiMusic Downloads/audio/a"),
        Some("/music/LiMusic Downloads/audio/a".to_string())
    );
    assert_eq!(path_for(Some("/music"), "./audio//x"), Some("/music/LiMusic Downloads/./audio//x".to_string()));
    assert_eq!(path_for(None, "audio/x"), None);
    assert_eq!(resolve_within("root", "..."), Some("root/...".to_string()));
}

#[test]
fn paths_compare_by_components() {
    assert!(same_path("/a/b/", "/a/b"));
    assert!(same_path("/a//b", "/a/./b"));
    assert!(!same_path("/a/b", "a/b"));
    assert!(!same_path("./a", "a"));
}

#[test]
fn quality_defaults_to_high() {
    assert_eq!(quality(Some("LOW")), AudioQuality::Low);
    assert_eq!(quality(Some("low")), AudioQuality::High);
    assert_eq!(quality(None), AudioQuality::High);
    assert_eq!(quality_from_name("LOW"), AudioQuality::Low);
    assert_eq!(download_quality(Some("LOW")), "LOW");
    assert_eq!(download_quality(Some("whatever")), "HIGH");
    assert_eq!(download_quality(None), "HIGH");
}

#[test]
fn only_low_and_high_are_stored() {
    assert_eq!(set_download_quality("LOW"), Ok(()));
    assert_eq!(set_download_quality("HIGH"), Ok(()));
    assert_eq!(
        set_download_quality("MEDIUM"),
        Err("download quality must be LOW or HIGH".to_string())
    );
    // what is accepted reads back unchanged
    assert_eq!(download_quality(Some("LOW")), "LOW");
    assert_eq!(download_quality(Some("HIGH")), "HIGH");
}

#[test]
fn client_lists_are_trimmed_and_deduplicated() {
    assert_eq!(client_list(" WEB , ,IOS,WEB,"), vec!["WEB".to_string(), "IOS".to_string()]);
    assert!(client_list("").is_empty());
    assert_eq!(disabled_clients(Some("A"), Some("B")), vec!["A".to_string()]);
    assert_eq!(disabled_clients(None, Some("B,C")), vec!["B".to_string(), "C".to_string()]);
    assert!(disabled_clients(None, None).is_empty());
}

#[test]
fn state_names_round_trip() {
    for s in [
        DownloadState::Queued,
        DownloadState::Resolving,
        DownloadState::Downloading,
        DownloadState::Paused,
        DownloadState::Completed,
        DownloadState::Failed,
    ] {
        assert_eq!(DownloadState::parse(&s.name()), Some(s));
    }
    assert_eq!(DownloadState::parse("Queued"), None);
}

#[test]
fn restart_requeues_interrupted_rows_only() {
    let u = recovery_update(&record("downloading")).unwrap();
    assert_eq!(u.state, DownloadState::Queued);
    assert_eq!((u.size_bytes, u.downloaded_bytes), (5, 5));
    assert_eq!(u.mime_type, None);
    assert!(recovery_update(&record("resolving")).is_some());
    assert!(recovery_update(&record("paused")).is_none());
    assert!(recovery_update(&record("completed")).is_none());
    assert!(should_resume(&record("queued")));
    assert!(!should_resume(&record("paused")));
}

#[test]
fn enqueue_skips_local_and_active_tracks() {
    let d = enqueue_decision("LOCAL:/x.mp3", None, true);
    assert!(!d.create && !d.mark_standalone);
    let d = enqueue_decision("abc", None, true);
    assert!(d.create && !d.mark_standalone);
    let d = enqueue_decision("abc", Some(&record("completed")), true);
    assert!(!d.create && d.mark_standalone);
    let d = enqueue_decision("abc", Some(&record("failed")), false);
    assert!(d.create && !d.mark_standalone);
    let d = enqueue_decision("abc", Some(&record("paused")), true);
    assert!(d.create && d.mark_standalone);
}

#[test]
fn new_rows_are_queued_with_webm_paths() {
    let r = queued_record("abc", "{}".to_string(), "LOW".to_string(), 99, false);
    assert_eq!(r.relative_path, "audio/616263.webm");
    assert_eq!(r.part_path, "audio/616263.webm.part");
    assert_eq!(r.state, "queued");
    assert_eq!((r.size_bytes, r.downloaded_bytes, r.updated_at), (0, 0, 99));
    assert!(!r.standalone);
}

#[test]
fn authorisation_failures_are_retried_once() {
    assert!(should_retry("HTTP 403 Forbidden"));
    assert!(should_retry("status 401"));
    assert!(!should_retry("timed out"));
    assert_eq!(after_attempt(false, Some("403")), RunStep::Retry);
    assert_eq!(after_attempt(true, Some("403")), RunStep::Fail);
    assert_eq!(after_attempt(false, Some("boom")), RunStep::Fail);
    assert_eq!(after_attempt(true, None), RunStep::Done);
}

#[test]
fn failures_pauses_and_retries_write_progress() {
    let f = failure_update(&record("downloading"), "boom");
    assert_eq!(f.state, DownloadState::Failed);
    assert_eq!(f.error, Some("boom".to_string()));
    assert_eq!(f.mime_type, Some("audio/webm".to_string()));
    let p = pause_update(&record("downloading"));
    assert_eq!(p.state, DownloadState::Paused);
    assert_eq!(p.error, None);
    let r = retry_plan(&record("completed"));
    assert!(r.remove_files);
    assert_eq!((r.update.size_bytes, r.update.downloaded_bytes), (0, 0));
    assert_eq!(r.update.state, DownloadState::Queued);
    let r = retry_plan(&record("failed"));
    assert!(!r.remove_files);
    assert_eq!((r.update.size_bytes, r.update.downloaded_bytes), (5, 5));
}

#[test]
fn collection_removal_keeps_shared_and_standalone_tracks() {
    let mut r = record("completed");
    assert!(!cancel_with_collection(0, Some(&r)));
    r.standalone = false;
    assert!(cancel_with_collection(0, Some(&r)));
    assert!(!cancel_with_collection(1, Some(&r)));
    assert!(!cancel_with_collection(0, None));
}

#[test]
fn playback_requires_a_complete_file() {
    assert!(playback_ready(&record("completed"), Some(5)));
    assert!(!playback_ready(&record("completed"), None));
    assert!(!playback_ready(&record("completed"), Some(4)));
    assert!(!playback_ready(&record("paused"), Some(5)));
    let mut r = record("completed");
    r.downloaded_bytes = 4;
    assert!(!playback_ready(&r, Some(5)));
    r.size_bytes = 0;
    r.downloaded_bytes = 0;
    assert!(!playback_ready(&r, Some(0)));
}

#[test]
fn orphan_cleaning_keeps_owned_files_and_the_marker() {
    let mut a = record("completed");
    a.artwork_path = Some("artwork/7631.jpg".to_string());
    let owned = owned_files(&vec![a, record("queued")]);
    assert_eq!(
        owned,
        vec![
            "audio/7631.webm".to_string(),
            "audio/7631.webm.part".to_string(),
            "audio/7631.webm".to_string(),
            "audio/7631.webm.part".to_string(),
            "artwork/7631.jpg".to_string(),
        ]
    );
    assert!(!is_orphan(Some("audio/7631.webm"), &owned));
    assert!(!is_orphan(Some("artwork/7631.jpg"), &owned));
    assert!(!is_orphan(Some(".limusic-managed"), &owned));
    assert!(is_orphan(Some("audio/other.m4a"), &owned));
    assert!(!is_orphan(None, &owned));
    assert_eq!(with_forward_slashes("audio\\x.m4a"), "audio/x.m4a");
}

#[test]
fn file_plans_follow_the_resolved_format() {
    let r = record("queued");
    let p = plan_files(&r, Some("audio/mp4"));
    assert_eq!(p.relative, "audio/7631.m4a");
    assert_eq!(p.part, "audio/7631.m4a.part");
    assert!(p.relocate);
    let p = plan_files(&r, Some("audio/webm"));
    assert!(!p.relocate);
    let moved = relocated(r, p.relative, p.part, Some("audio/webm".to_string()));
    assert_eq!((moved.size_bytes, moved.downloaded_bytes), (0, 0));
    assert!(already_downloaded(&record("completed"), true));
    assert!(!already_downloaded(&record("completed"), false));
    assert!(!already_downloaded(&record("paused"), true));
    let u = resolving_update(&record("queued"));
    assert_eq!(u.state, DownloadState::Resolving);
    assert_eq!(u.mime_type, None);
    let u = transfer_update(DownloadState::Downloading, 10, 3, &Some("m".to_string()));
    assert_eq!((u.size_bytes, u.downloaded_bytes), (10, 3));
}

#[test]
fn finished_rows_are_complete() {
    let mut r = record("downloading");
    r.error = Some("old".to_string());
    let f = finished_record(r, "{\"a\":1}".to_string(), 42, Some("audio/mp4".to_string()), Some("artwork/x.jpg".to_string()));
    assert_eq!(f.state, "completed");
    assert_eq!((f.size_bytes, f.downloaded_bytes), (42, 42));
    assert_eq!(f.error, None);
    assert_eq!(f.artwork_path, Some("artwork/x.jpg".to_string()));
    let f = finished_record(record("downloading"), "{}".to_string(), 1, None, None);
    assert_eq!(f.artwork_path, None);
    let p = DownloadProgress::completed("v1", 42);
    assert_eq!((p.state.as_str(), p.downloaded_bytes, p.size_bytes), ("completed", 42, 42));
    let p = DownloadProgress::downloading("v1", 3, 42);
    assert_eq!((p.state.as_str(), p.downloaded_bytes), ("downloading", 3));
}

#[test]
fn partial_files_are_kept_only_when_they_fit() {
    let c = reconcile_partial(100, 40, 100);
    assert_eq!((c.existing, c.discard), (40, false));
    let c = reconcile_partial(0, 40, 100);
    assert_eq!((c.existing, c.discard), (40, false));
    let c = reconcile_partial(90, 40, 100);
    assert_eq!((c.existing, c.discard), (0, true));
    let c = reconcile_partial(100, 140, 100);
    assert_eq!((c.existing, c.discard), (0, true));
    assert!(already_whole(100, 100));
    assert!(!already_whole(0, 0));
    assert!(!already_whole(99, 100));
}

#[test]
fn space_check_keeps_a_reserve() {
    assert_eq!(check_space(RESERVE_BYTES + 10, 10), Ok(()));
    assert_eq!(
        check_space(RESERVE_BYTES + 9, 10),
        Err(format!("not enough free space ({} bytes available)", RESERVE_BYTES + 9))
    );
    assert_eq!(check_space(u64::MAX, u64::MAX), Ok(()));
    assert_eq!(check_space(0, 0), Err("not enough free space (0 bytes available)".to_string()));
}

#[test]
fn transfers_request_contiguous_chunks_until_complete() {
    let total = CHUNK + 10;
    let t = Transfer::new(total, 0);
    let (t, a) = t.step(TransferEvent::Tick { cancelled: false });
    assert_eq!(a, TransferAction::Request { start: 0, end: CHUNK - 1, space_needed: CHUNK });
    let (t, a) = t.step(TransferEvent::Status { code: 200 });
    assert_eq!(a, TransferAction::Wait);
    let (t, a) = t.step(TransferEvent::Chunk { len: CHUNK, cancelled: false });
    assert_eq!(a, TransferAction::Write { len: CHUNK });
    let (t, _) = t.step(TransferEvent::StreamEnded);
    assert_eq!(t.phase, Phase::Ready);
    let (t, a) = t.step(TransferEvent::Tick { cancelled: false });
    assert_eq!(a, TransferAction::Request { start: CHUNK, end: total - 1, space_needed: 10 });
    let (t, a) = t.step(TransferEvent::Status { code: 200 });
    assert_eq!(a, TransferAction::Fail { failure: TransferFailure::BadStatus { code: 200 } });
    assert_eq!(t.phase, Phase::Failed);
    let (t2, a) = t.step(TransferEvent::Tick { cancelled: false });
    assert_eq!((t2, a), (t, TransferAction::Wait));
}

#[test]
fn transfers_pause_finish_and_detect_short_bodies() {
    let t = Transfer::new(10, 4);
    let (p, a) = t.step(TransferEvent::Tick { cancelled: true });
    assert_eq!(a, TransferAction::Pause { total: 10, downloaded: 4 });
    assert_eq!(p.phase, Phase::Paused);
    let (t, _) = t.step(TransferEvent::Tick { cancelled: false });
    let (t, _) = t.step(TransferEvent::Status { code: 206 });
    let (t, _) = t.step(TransferEvent::Chunk { len: 3, cancelled: false });
    let (c, a) = t.step(TransferEvent::Chunk { len: 3, cancelled: true });
    assert_eq!(a, TransferAction::Pause { total: 10, downloaded: 7 });
    assert_eq!(c.downloaded, 7);
    let (f, a) = t.step(TransferEvent::StreamEnded);
    assert_eq!(a, TransferAction::Fail { failure: TransferFailure::EndedEarly });
    assert_eq!(f.phase, Phase::Failed);
    let (t, _) = t.step(TransferEvent::Chunk { len: 3, cancelled: false });
    let (t, a) = t.step(TransferEvent::StreamEnded);
    assert_eq!(a, TransferAction::Wait);
    let (t, a) = t.step(TransferEvent::Tick { cancelled: true });
    assert_eq!(a, TransferAction::Finish);
    assert_eq!(t.phase, Phase::Finished);
    let (_, a) = Transfer::new(0, 0).step(TransferEvent::Tick { cancelled: false });
    assert_eq!(a, TransferAction::Finish);
}

#[test]
fn parent_changes_are_checked() {
    assert_eq!(
        parent_change("/new", false, None),
        Err("selected downloads parent is not a directory".to_string())
    );
    assert_eq!(parent_change("/music/", true, Some("/music")), Ok(false));
    assert_eq!(parent_change("/new", true, Some("/music")), Ok(true));
    assert_eq!(parent_change("/new", true, Some("  ")), Ok(true));
    assert_eq!(
        migration_paths("/new", true, 5).err(),
        Some("the selected folder already contains LiMusic Downloads".to_string())
    );
    let p = migration_paths("/new", false, 1700000000).ok().unwrap();
    assert_eq!(p.target, "/new/LiMusic Downloads");
    assert_eq!(p.temp, "/new/.LiMusic Downloads.migration-1700000000");
    assert_eq!(migration_failed("disk full"), "download migration failed: disk full");
    assert_eq!(size_mismatch("/a/b"), "download migration size check failed for /a/b");
    let mut a = record("completed");
    a.artwork_path = Some("artwork/x.jpg".to_string());
    assert_eq!(
        old_files("/old", &vec![a]),
        vec![
            "/old/audio/7631.webm".to_string(),
            "/old/audio/7631.webm.part".to_string(),
            "/old/artwork/x.jpg".to_string(),
        ]
    );
}

#[test]
fn collections_keep_item_positions() {
    let items = vec![
        ("a".to_string(), Some("{1}".to_string())),
        ("b".to_string(), None),
        ("c".to_string(), Some("{3}".to_string())),
    ];
    let tracks = collection_tracks(&"col".to_string(), &items);
    assert_eq!(tracks.len(), 2);
    assert_eq!((tracks[0].video_id.as_str(), tracks[0].position), ("a", 0));
    assert_eq!((tracks[1].video_id.as_str(), tracks[1].position), ("c", 2));
    assert_eq!(tracks[1].collection_id, "col");
    let c = queued_collection("col".to_string(), "album".to_string(), "T".to_string(), None, None, None);
    assert_eq!(c.state, "queued");
    assert_eq!(c.error, None);
}

#[test]
fn kde_picker_rules() {
    let kde = vec!["KDE".to_string()];
    let gnome = vec!["GNOME".to_string()];
    assert_eq!(kde_picker_check(&kde, None, false), Ok(()));
    assert_eq!(kde_picker_check(&gnome, Some("TRUE"), false), Ok(()));
    assert_eq!(kde_picker_check(&gnome, None, true), Ok(()));
    assert_eq!(
        kde_picker_check(&gnome, Some("yes"), false),
        Err("KDE folder picker is not available in this desktop session".to_string())
    );
    assert_eq!(picker_start_dir(Some("/a"), true, Some("/h"), true), "/a");
    assert_eq!(picker_start_dir(Some("/a"), false, Some("/h"), true), "/h");
    assert_eq!(picker_start_dir(None, false, Some("/h"), false), ".");
    assert_eq!(picked_folder(true, " /music\n"), Some("/music".to_string()));
    assert_eq!(picked_folder(false, "/music"), None);
    assert_eq!(picked_folder(true, "  \n"), None);
    assert_eq!(picker_launch_error(true, "x"), "KDE folder picker is not installed");
    assert_eq!(picker_launch_error(false, "x"), "could not start KDE folder picker: x");
}

#[test]
fn track_files_resolve_inside_the_folder() {
    for id in ["abc", "", "../..", "/etc"] {
        let a = audio_path(id, "m4a");
        assert_eq!(path_for(Some("/m"), &a), Some(format!("/m/LiMusic Downloads/{a}")));
        let p = part_path(id, "webm");
        assert_eq!(path_for(Some("/m"), &p), Some(format!("/m/LiMusic Downloads/{p}")));
        let w = artwork_path(id);
        assert_eq!(path_for(Some("/m"), &w), Some(format!("/m/LiMusic Downloads/{w}")));
    }
}

#[test]
fn migration_target_becomes_the_managed_folder() {
    let p = migration_paths("/new", false, 1).ok().unwrap();
    assert_eq!(managed_dir(Some("/new")), Some(p.target));
}

#[test]
fn paused_downloads_resume_in_place() {
    let t = Transfer::new(100, 40);
    let (_, a) = t.step(TransferEvent::Tick { cancelled: true });
    assert_eq!(a, TransferAction::Pause { total: 100, downloaded: 40 });
    let u = transfer_update(DownloadState::Paused, 100, 40, &None);
    let mut r = record("paused");
    r.size_bytes = u.size_bytes;
    r.downloaded_bytes = u.downloaded_bytes;
    let plan = retry_plan(&r);
    assert!(!plan.remove_files);
    let c = reconcile_partial(plan.update.size_bytes, 40, 100);
    assert_eq!((c.existing, c.discard), (40, false));
}
