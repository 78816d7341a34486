use std::collections::HashSet;
use std::path::{Component, Path};

use limusic_downloads::paths::{join_path, resolve_within, same_path};
use limusic_downloads::settings::client_list;
use limusic_downloads::transfer::{content_length, content_range_total};

const PATHS: [&str; 24] = [
    "", "/", "//", ".", "./", "..", "a", "a/", "/a", "/a/", "a/b", "a//b", "a/./b", "a/../b",
    "./a", "../a", "/./a", "/../a", "a/.", "a/..", ".a", "..a", "a b/ c", "/m/LiMusic Downloads",
];

fn std_resolve(root: &str, rel: &str) -> Option<String> {
    let root = Path::new(root);
    let p = root.join(rel);
    p.strip_prefix(root)
        .ok()?
        .components()
        .all(|c| !matches!(c, Component::ParentDir))
        .then(|| p.to_string_lossy().into_owned())
}

#[test]
fn join_matches_std() {
    for a in PATHS {
        for b in PATHS {
            assert_eq!(join_path(a, b), Path::new(a).join(b).to_string_lossy(), "{a:?} {b:?}");
        }
    }
}

#[test]
fn path_equality_matches_std() {
    for a in PATHS {
        for b in PATHS {
            assert_eq!(same_path(a, b), Path::new(a) == Path::new(b), "{a:?} {b:?}");
        }
    }
}

#[test]
fn resolution_matches_std() {
    for a in PATHS {
        for b in PATHS {
            assert_eq!(resolve_within(a, b), std_resolve(a, b), "{a:?} {b:?}");
        }
    }
}

#[test]
fn header_parsing_matches_std() {
    let values = [
        "bytes 0-3/42", "bytes */42", "invalid", "/", "/ 7\t", "/\u{3000}9\u{2028}", "/+1", "/-1",
        "/+", "/", "a/b/c", "/007", "/18446744073709551615", "/18446744073709551616",
        "/99999999999999999999999", "/1 2", "/１",
    ];
    for v in values {
        let expected: Option<u64> = (|| v.rsplit_once('/')?.1.trim().parse().ok())();
        assert_eq!(content_range_total(Some(v)), expected, "{v:?}");
        assert_eq!(content_length(Some(v)), v.parse().ok(), "{v:?}");
    }
}

#[test]
fn client_lists_match_std() {
    let raws = ["", ",", "a", " a , b ,a", "x,,y, ,z\u{a0}", "\u{2003}q\u{2003},q"];
    for raw in raws {
        let expected: HashSet<String> =
            raw.split(',').map(str::trim).filter(|s| !s.is_empty()).map(str::to_owned).collect();
        let got = client_list(raw);
        let set: HashSet<String> = got.iter().cloned().collect();
        assert_eq!(set, expected, "{raw:?}");
        assert_eq!(set.len(), got.len(), "{raw:?}");
    }
}
