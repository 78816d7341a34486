//! Choosing the desktop-native folder picker for the downloads folder and
//! reading its answer.

use vstd::prelude::*;

use crate::naming::push_str;
use crate::paths::opt_view;
use crate::text::{
    chars_of, contains, contains_chars, eq_ignore_ascii_case_chars, string_from_chars, to_ascii_lower,
    to_ascii_lower_chars, to_string, trim, trim_chars,
};

verus! {

/// One of the desktop variables names KDE, in any letter case.
pub open spec fn names_kde(values: Seq<String>) -> bool {
    exists|i: int| 0 <= i < values.len() && contains(to_ascii_lower(#[trigger] values[i]@), "kde"@)
}

/// The session is a Plasma session: `KDE_FULL_SESSION` is `true` in any
/// letter case, or `KDE_SESSION_VERSION` is set.
pub open spec fn plasma_session(full_session: Option<Seq<char>>, has_session_version: bool) -> bool {
    (full_session matches Some(v) && to_ascii_lower(v) == to_ascii_lower("true"@))
        || has_session_version
}

/// Whether the KDE picker may be used: the desktop is KDE or the session is
/// Plasma. `desktop_values` holds the set values of `XDG_CURRENT_DESKTOP`
/// and `XDG_SESSION_DESKTOP`.
pub fn kde_picker_check(
    desktop_values: &Vec<String>,
    full_session: Option<&str>,
    has_session_version: bool,
) -> (r: Result<(), String>)
    ensures
        if names_kde(desktop_values@) || plasma_session(opt_view(full_session), has_session_version) {
            r is Ok
        } else {
            r matches Err(e) && e@ == "KDE folder picker is not available in this desktop session"@
        },
{
    let kde = chars_of("kde");
    let mut is_kde = false;
    let mut i: usize = 0;
    while i < desktop_values.len()
        invariant
            i <= desktop_values.len(),
            kde@ == "kde"@,
            is_kde == exists|j: int|
                0 <= j < i && contains(to_ascii_lower(#[trigger] desktop_values@[j]@), "kde"@),
        decreases desktop_values.len() - i,
    {
        let v = to_ascii_lower_chars(&chars_of(desktop_values[i].as_str()));
        if contains_chars(&v, &kde) {
            is_kde = true;
        }
        i = i + 1;
    }
    let plasma = match full_session {
        Some(v) => eq_ignore_ascii_case_chars(&chars_of(v), &chars_of("true")),
        None => false,
    } || has_session_version;
    if is_kde || plasma {
        Ok(())
    } else {
        Err(to_string("KDE folder picker is not available in this desktop session"))
    }
}

/// The folder the picker opens in: the given one when it is a directory,
/// else the home folder when it is one, else the working directory.
pub fn picker_start_dir(
    initial: Option<&str>,
    initial_is_dir: bool,
    home: Option<&str>,
    home_is_dir: bool,
) -> (r: String)
    ensures
        r@ == (if initial is Some && initial_is_dir {
            initial->0@
        } else if home is Some && home_is_dir {
            home->0@
        } else {
            "."@
        }),
{
    match initial {
        Some(p) => if initial_is_dir {
            return to_string(p);
        },
        None => {},
    }
    match home {
        Some(h) => if home_is_dir {
            return to_string(h);
        },
        None => {},
    }
    to_string(".")
}

/// The folder the picker answered with: its trimmed output, when it exited
/// successfully and printed something. Cancelling is an answer of `None`.
pub fn picked_folder(success: bool, output: &str) -> (r: Option<String>)
    ensures
        match r {
            Some(p) => success && p@ == trim(output@) && trim(output@).len() > 0,
            None => !success || trim(output@).len() == 0,
        },
{
    let t = trim_chars(&chars_of(output));
    if success && t.len() != 0 {
        Some(string_from_chars(&t))
    } else {
        None
    }
}

/// The error when the picker could not be started: not installed, or the
/// launch error.
pub fn picker_launch_error(not_found: bool, error: &str) -> (r: String)
    ensures
        not_found ==> r@ == "KDE folder picker is not installed"@,
        !not_found ==> r@ == "could not start KDE folder picker: "@ + error@,
{
    if not_found {
        to_string("KDE folder picker is not installed")
    } else {
        let mut v = chars_of("could not start KDE folder picker: ");
        push_str(&mut v, error);
        string_from_chars(&v)
    }
}

} // verus!
