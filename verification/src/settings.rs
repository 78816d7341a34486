//! Stored preferences read by the downloader: the audio quality and the list
//! of stream clients that must not be used.

use vstd::prelude::*;

use crate::paths::{opt_view, split};
use crate::queue::{contains_string, string_views};
use crate::text::{chars_of, str_eq, string_from_chars, to_string, trim, trim_chars};

verus! {

/// The audio quality that downloads are resolved with.
#[derive(Clone, Copy, Debug, PartialEq, Eq, Structural)]
pub enum AudioQuality {
    Low,
    High,
}

/// The quality a stored name selects: `LOW` is low, anything else high.
pub open spec fn quality_named(value: Seq<char>) -> AudioQuality {
    if value == "LOW"@ {
        AudioQuality::Low
    } else {
        AudioQuality::High
    }
}

/// The quality the stored setting selects; high when nothing is stored.
pub open spec fn quality_of(setting: Option<Seq<char>>) -> AudioQuality {
    match setting {
        Some(v) => quality_named(v),
        None => AudioQuality::High,
    }
}

/// The stored name of a quality.
pub open spec fn quality_label(q: AudioQuality) -> Seq<char> {
    match q {
        AudioQuality::Low => "LOW"@,
        AudioQuality::High => "HIGH"@,
    }
}

/// A value the quality setting accepts.
pub open spec fn valid_quality_name(value: Seq<char>) -> bool {
    value == "LOW"@ || value == "HIGH"@
}

/// The quality a stored name selects.
pub fn quality_from_name(value: &str) -> (q: AudioQuality)
    ensures
        q == quality_named(value@),
        (q == AudioQuality::Low) <==> value@ == "LOW"@,
{
    if str_eq(value, "LOW") {
        AudioQuality::Low
    } else {
        AudioQuality::High
    }
}

/// The quality the stored setting selects.
pub fn quality(setting: Option<&str>) -> (q: AudioQuality)
    ensures
        q == quality_of(opt_view(setting)),
{
    match setting {
        Some(v) => quality_from_name(v),
        None => AudioQuality::High,
    }
}

/// The stored name of the configured quality.
pub fn quality_name(setting: Option<&str>) -> (r: String)
    ensures
        r@ == quality_label(quality_of(opt_view(setting))),
{
    match quality(setting) {
        AudioQuality::Low => to_string("LOW"),
        AudioQuality::High => to_string("HIGH"),
    }
}

/// The download quality shown in the settings: `LOW` or `HIGH`.
pub fn download_quality(setting: Option<&str>) -> (r: String)
    ensures
        r@ == quality_label(quality_of(opt_view(setting))),
        r@ == (if setting is Some && setting->0@ == "LOW"@ {
            "LOW"@
        } else {
            "HIGH"@
        }),
{
    quality_name(setting)
}

/// Checks a new download quality before it is stored: only `LOW` and `HIGH`
/// are accepted.
pub fn set_download_quality(value: &str) -> (r: Result<(), String>)
    ensures
        if valid_quality_name(value@) {
            r is Ok
        } else {
            r matches Err(e) && e@ == "download quality must be LOW or HIGH"@
        },
        r is Ok <==> (value@ == "LOW"@ || value@ == "HIGH"@),
{
    if str_eq(value, "LOW") || str_eq(value, "HIGH") {
        Ok(())
    } else {
        Err(to_string("download quality must be LOW or HIGH"))
    }
}

/// A quality that was accepted and stored is read back unchanged.
pub proof fn lemma_quality_round_trip(value: Seq<char>)
    requires
        valid_quality_name(value),
    ensures
        quality_label(quality_of(Some(value))) == value,
{
    reveal_strlit("LOW");
    reveal_strlit("HIGH");
    assert("LOW"@ != "HIGH"@) by {
        assert("LOW"@.len() != "HIGH"@.len());
    }
}

/// The names in a comma-separated list: each piece trimmed, empty pieces
/// dropped, each name once, in order of first appearance.
pub open spec fn client_names(pieces: Seq<Seq<char>>) -> Seq<Seq<char>>
    decreases pieces.len(),
{
    if pieces.len() == 0 {
        Seq::empty()
    } else {
        let prev = client_names(pieces.drop_last());
        let t = trim(pieces.last());
        if t.len() > 0 && !prev.contains(t) {
            prev.push(t)
        } else {
            prev
        }
    }
}

fn add_client(out: &mut Vec<String>, piece: &Vec<char>)
    ensures
        string_views(final(out)@) == ({
            let t = trim(piece@);
            if t.len() > 0 && !string_views(old(out)@).contains(t) {
                string_views(old(out)@).push(t)
            } else {
                string_views(old(out)@)
            }
        }),
{
    let t = trim_chars(piece);
    let s = string_from_chars(&t);
    if t.len() > 0 && !contains_string(out, s.as_str()) {
        out.push(s);
        assert(string_views(out@) =~= string_views(old(out)@).push(t@));
    }
}

/// The stream clients named in a comma-separated list.
pub fn client_list(raw: &str) -> (r: Vec<String>)
    ensures
        string_views(r@) == client_names(split(raw@, ',')),
{
    let c = chars_of(raw);
    let n = c.len();
    let mut out: Vec<String> = Vec::new();
    let mut cur: Vec<char> = Vec::new();
    let ghost mut done: Seq<Seq<char>> = Seq::empty();
    let mut i: usize = 0;
    assert(c@.take(0) =~= Seq::<char>::empty());
    while i < n
        invariant
            i <= n,
            n == c.len(),
            split(c@.take(i as int), ',') == done.push(cur@),
            string_views(out@) == client_names(done),
        decreases n - i,
    {
        let ch = c[i];
        proof {
            let t = c@.take(i + 1);
            assert(t.drop_last() =~= c@.take(i as int));
            assert(t.last() == ch);
        }
        if ch == ',' {
            add_client(&mut out, &cur);
            proof {
                let nd = done.push(cur@);
                assert(nd.drop_last() =~= done);
                done = nd;
            }
            cur = Vec::new();
            assert(cur@ =~= Seq::<char>::empty());
        } else {
            cur.push(ch);
        }
        i = i + 1;
    }
    assert(c@.take(n as int) =~= c@);
    add_client(&mut out, &cur);
    proof {
        let nd = done.push(cur@);
        assert(nd.drop_last() =~= done);
    }
    out
}

/// The clients that resolution must skip: from the environment when it is
/// set, else from the stored setting, else none.
pub fn disabled_clients(env_value: Option<&str>, setting: Option<&str>) -> (r: Vec<String>)
    ensures
        string_views(r@) == client_names(
            split(
                match env_value {
                    Some(v) => v@,
                    None => match setting {
                        Some(s) => s@,
                        None => Seq::empty(),
                    },
                },
                ',',
            ),
        ),
{
    match env_value {
        Some(v) => client_list(v),
        None => match setting {
            Some(s) => client_list(s),
            None => {
                let r = client_list("");
                proof {
                    reveal_strlit("");
                }
                r
            },
        },
    }
}

/// The client list names each client once, and names exactly the non-blank
/// trimmed pieces of the text.
pub proof fn lemma_client_names_are_the_pieces(pieces: Seq<Seq<char>>)
    ensures
        client_names(pieces).no_duplicates(),
        forall|x: Seq<char>|
            client_names(pieces).contains(x) <==> (x.len() > 0 && exists|i: int|
                0 <= i < pieces.len() && #[trigger] trim(pieces[i]) == x),
    decreases pieces.len(),
{
    if pieces.len() > 0 {
        let d = pieces.drop_last();
        lemma_client_names_are_the_pieces(d);
        let prev = client_names(d);
        let t = trim(pieces.last());
        assert forall|x: Seq<char>|
            client_names(pieces).contains(x) <==> (x.len() > 0 && exists|i: int|
                0 <= i < pieces.len() && #[trigger] trim(pieces[i]) == x) by {
            if client_names(pieces).contains(x) {
                if prev.contains(x) {
                    let i = choose|i: int| 0 <= i < d.len() && #[trigger] trim(d[i]) == x;
                    assert(trim(pieces[i]) == x);
                } else {
                    assert(x == t);
                    assert(trim(pieces[pieces.len() - 1]) == x);
                }
            }
            if x.len() > 0 && exists|i: int| 0 <= i < pieces.len() && #[trigger] trim(pieces[i])
                == x {
                let i = choose|i: int| 0 <= i < pieces.len() && #[trigger] trim(pieces[i]) == x;
                if i < pieces.len() - 1 {
                    assert(trim(d[i]) == x);
                    assert(prev.contains(x));
                    if t.len() > 0 && !prev.contains(t) {
                        let k = choose|k: int| 0 <= k < prev.len() && prev[k] == x;
                        assert(prev.push(t)[k] == x);
                    }
                } else {
                    assert(x == t);
                    if !prev.contains(t) {
                        assert(prev.push(t)[prev.len() as int] == t);
                    }
                }
            }
        }
    }
}

} // verus!
