use limusic_downloads::naming::{artwork_path, audio_path, ext_for_mime, part_path, stable_name};
use limusic_downloads::transfer::{content_range_total, content_length, reported_total};

#[test]
fn stable_names_are_filesystem_safe_and_deterministic() {
    assert_eq!(stable_name("abc"), "616263");
    assert_eq!(stable_name("abc"), stable_name("abc"));
    assert_ne!(stable_name("abc"), stable_name("abd"));
}

#[test]
fn container_extensions_follow_the_original_stream() {
    assert_eq!(ext_for_mime(Some("audio/mp4; codecs=mp4a.40.2")), "m4a");
    assert_eq!(ext_for_mime(Some("audio/webm; codecs=opus")), "webm");
    assert_eq!(ext_for_mime(None), "webm");
}

#[test]
fn content_range_reports_the_total_not_the_chunk_size() {
    assert_eq!(content_range_total(Some("bytes 0-3/42")), Some(42));
    assert_eq!(content_range_total(Some("bytes */42")), Some(42));
    assert_eq!(content_range_total(Some("invalid")), None);
}

#[test]
fn stable_name_spells_utf8_bytes_in_lower_case_hex() {
    assert_eq!(stable_name(""), "");
    assert_eq!(stable_name("Z_-"), "5a5f2d");
    assert_eq!(stable_name("é"), "c3a9");
    let name = stable_name("dQw4w9WgXcQ");
    assert!(name.chars().all(|c| c.is_ascii_digit() || ('a'..='f').contains(&c)));
    assert_eq!(name.len(), 22);
}

#[test]
fn track_paths_are_named_after_the_stable_name() {
    assert_eq!(audio_path("abc", "m4a"), "audio/616263.m4a");
    assert_eq!(part_path("abc", "webm"), "audio/616263.webm.part");
    assert_eq!(artwork_path("abc"), "artwork/616263.jpg");
}

#[test]
fn content_range_total_trims_and_rejects_bad_numbers() {
    assert_eq!(content_range_total(Some("bytes 0-0/ 1234 ")), Some(1234));
    assert_eq!(content_range_total(Some("bytes 0-0/+7")), Some(7));
    assert_eq!(content_range_total(Some("bytes 0-0/-7")), None);
    assert_eq!(content_range_total(Some("bytes 0-0/")), None);
    assert_eq!(content_range_total(Some("a/b/9")), Some(9));
    assert_eq!(content_range_total(Some("bytes 0-0/18446744073709551615")), Some(u64::MAX));
    assert_eq!(content_range_total(Some("bytes 0-0/18446744073709551616")), None);
    assert_eq!(content_range_total(None), None);
}

#[test]
fn content_length_is_not_trimmed() {
    assert_eq!(content_length(Some("42")), Some(42));
    assert_eq!(content_length(Some(" 42")), None);
    assert_eq!(content_length(None), None);
}

#[test]
fn reported_total_prefers_the_range_header() {
    assert_eq!(reported_total(Some("bytes 0-0/100"), Some("1")), Ok(100));
    assert_eq!(reported_total(Some("garbage"), Some("55")), Ok(55));
    assert_eq!(reported_total(None, None), Err("stream did not report its size".to_string()));
}
