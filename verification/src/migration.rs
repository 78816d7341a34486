//! Moving the managed downloads folder to a new parent.

use vstd::prelude::*;

use crate::naming::{push_chars, push_str, MANAGED_NAME};
use crate::paths::{
    components, join, join_path, managed_dir_of, opt_view, parent, parent_of, same_path,
};
use crate::queue::string_views;
use crate::records::DownloadRecord;
use crate::text::{chars_of, decimal, decimal_chars, string_from_chars, to_string, trim};

verus! {

/// The answer to a request to move the downloads folder under `requested`:
/// refused unless it is a directory; nothing to do when it names the
/// current parent; a migration otherwise.
pub open spec fn parent_change_of(
    requested: Seq<char>,
    requested_is_dir: bool,
    current_setting: Option<Seq<char>>,
) -> Result<bool, Seq<char>> {
    if !requested_is_dir {
        Err("selected downloads parent is not a directory"@)
    } else if parent_of(current_setting) matches Some(c) && components(c) == components(
        requested,
    ) {
        Ok(false)
    } else {
        Ok(true)
    }
}

/// Whether moving the downloads folder under `requested` needs a migration
/// (`Ok(true)`), changes nothing (`Ok(false)`), or is refused.
pub fn parent_change(requested: &str, requested_is_dir: bool, current_setting: Option<&str>) -> (r:
    Result<bool, String>)
    ensures
        match parent_change_of(requested@, requested_is_dir, opt_view(current_setting)) {
            Ok(b) => r == Ok::<bool, String>(b),
            Err(m) => r matches Err(e) && e@ == m,
        },
        requested_is_dir ==> r is Ok,
        requested_is_dir ==> ((r == Ok::<bool, String>(false)) <==> match current_setting {
            Some(c) => trim(c@).len() > 0 && components(c@) == components(requested@),
            None => false,
        }),
{
    proof {
        lemma_only_the_same_folder_is_skipped(requested@, opt_view(current_setting));
    }
    if !requested_is_dir {
        return Err(to_string("selected downloads parent is not a directory"));
    }
    match parent(current_setting) {
        Some(c) => {
            if same_path(c.as_str(), requested) {
                Ok(false)
            } else {
                Ok(true)
            }
        },
        None => Ok(true),
    }
}

/// Moving to a directory is skipped only when the stored, non-blank parent
/// names the same folder component by component (`Path`'s `==`); any other
/// directory, a sub-folder of the current parent among them, is migrated to.
/// A path that is not a directory is refused.
pub proof fn lemma_only_the_same_folder_is_skipped(
    requested: Seq<char>,
    current: Option<Seq<char>>,
)
    ensures
        parent_change_of(requested, true, current) is Ok,
        (parent_change_of(requested, true, current) == Ok::<bool, Seq<char>>(false)) <==> match current {
            Some(c) => trim(c).len() > 0 && components(c) == components(requested),
            None => false,
        },
        (parent_change_of(requested, true, current) == Ok::<bool, Seq<char>>(true)) <==> !match current {
            Some(c) => trim(c).len() > 0 && components(c) == components(requested),
            None => false,
        },
        parent_change_of(requested, false, current) is Err,
{
}

/// Where a migration copies to: first a temporary folder next to the target,
/// renamed to the target once complete.
pub struct MigrationPaths {
    /// `<requested>/LiMusic Downloads`
    pub target: String,
    /// `<requested>/.LiMusic Downloads.migration-<now>`
    pub temp: String,
}

/// The name of the temporary folder of a migration started at `now`.
pub open spec fn temp_name(now: u64) -> Seq<char> {
    "."@ + MANAGED_NAME@ + ".migration-"@ + decimal(now as nat)
}

/// The folders of a migration under `requested`; refused when the target
/// already exists, so that an existing folder is never merged into.
pub fn migration_paths(requested: &str, target_exists: bool, now: u64) -> (r: Result<
    MigrationPaths,
    String,
>)
    ensures
        if target_exists {
            r matches Err(e) && e@ == "the selected folder already contains LiMusic Downloads"@
        } else {
            r matches Ok(p) && p.target@ == join(requested@, MANAGED_NAME@) && p.temp@ == join(
                requested@,
                temp_name(now),
            )
        },
{
    if target_exists {
        return Err(to_string("the selected folder already contains LiMusic Downloads"));
    }
    let target = join_path(requested, MANAGED_NAME);
    let mut name = chars_of(".");
    push_str(&mut name, MANAGED_NAME);
    push_str(&mut name, ".migration-");
    let d = decimal_chars(now);
    push_chars(&mut name, &d);
    let n = string_from_chars(&name);
    let temp = join_path(requested, n.as_str());
    Ok(MigrationPaths { target, temp })
}

/// Once a migration under `requested` is done and `requested` is stored, the
/// managed folder is the migration's target.
pub proof fn lemma_migration_target_is_managed_dir(requested: Seq<char>)
    requires
        trim(requested).len() > 0,
    ensures
        managed_dir_of(Some(requested)) == Some(join(requested, MANAGED_NAME@)),
{
}

/// The error reported when copying the folder failed.
pub fn migration_failed(error: &str) -> (r: String)
    ensures
        r@ == "download migration failed: "@ + error@,
{
    let mut v = chars_of("download migration failed: ");
    push_str(&mut v, error);
    string_from_chars(&v)
}

/// The error reported when a copied file's size differs from its source's.
pub fn size_mismatch(path: &str) -> (r: String)
    ensures
        r@ == "download migration size check failed for "@ + path@,
{
    let mut v = chars_of("download migration size check failed for ");
    push_str(&mut v, path);
    string_from_chars(&v)
}

/// The files of each row under the old folder, deleted after a migration.
pub open spec fn old_copies(old_root: Seq<char>, rs: Seq<DownloadRecord>) -> Seq<Seq<char>>
    decreases rs.len(),
{
    if rs.len() == 0 {
        Seq::empty()
    } else {
        let r = rs.last();
        old_copies(old_root, rs.drop_last()) + seq![
            join(old_root, r.relative_path@),
            join(old_root, r.part_path@),
        ] + match r.artwork_path {
            Some(a) => seq![join(old_root, a@)],
            None => Seq::empty(),
        }
    }
}

/// The old folder's copies of every row's files: audio, partial and artwork.
pub fn old_files(old_root: &str, rs: &Vec<DownloadRecord>) -> (r: Vec<String>)
    ensures
        string_views(r@) == old_copies(old_root@, rs@),
{
    let mut out: Vec<String> = Vec::new();
    let mut i: usize = 0;
    while i < rs.len()
        invariant
            i <= rs.len(),
            string_views(out@) == old_copies(old_root@, rs@.take(i as int)),
        decreases rs.len() - i,
    {
        let ghost before = string_views(out@);
        let ghost t = rs@.take(i + 1);
        assert(t.drop_last() =~= rs@.take(i as int));
        assert(t.last() == rs@[i as int]);
        let r = &rs[i];
        let a = join_path(old_root, r.relative_path.as_str());
        let b = join_path(old_root, r.part_path.as_str());
        out.push(a);
        out.push(b);
        match &r.artwork_path {
            Some(w) => {
                let c = join_path(old_root, w.as_str());
                out.push(c);
                assert(string_views(out@) =~= old_copies(old_root@, t));
            },
            None => {
                assert(string_views(out@) =~= old_copies(old_root@, t));
            },
        }
        i = i + 1;
    }
    assert(rs@.take(rs.len() as int) =~= rs@);
    out
}

} // verus!
