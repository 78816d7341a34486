//! Paths of the managed downloads folder, modelled as text with Unix
//! `std::path` semantics: joining, splitting into components, comparing,
//! and resolving a stored relative path so that it cannot leave the folder.

use vstd::prelude::*;

use crate::naming::{
    artwork_path_of, audio_path_of, ext_for, lemma_stable_name_safe, part_path_of, push_chars,
    stable_name_of, ART_DIR, AUDIO_DIR, MANAGED_NAME,
};
use crate::text::{
    all_white, chars_of, lemma_trim_empty_iff_blank, same_chars, string_from_chars, trim, trim_chars,
};

verus! {

/// One component of a path, as `std::path::Component` gives it on Unix.
pub enum ComponentView {
    RootDir,
    CurDir,
    ParentDir,
    Normal(Seq<char>),
}

/// One component of a path.
pub enum Component {
    RootDir,
    CurDir,
    ParentDir,
    Normal(Vec<char>),
}

impl View for Component {
    type V = ComponentView;

    open spec fn view(&self) -> ComponentView {
        match self {
            Component::RootDir => ComponentView::RootDir,
            Component::CurDir => ComponentView::CurDir,
            Component::ParentDir => ComponentView::ParentDir,
            Component::Normal(v) => ComponentView::Normal(v@),
        }
    }
}

/// The views of a sequence of components.
pub open spec fn views(v: Seq<Component>) -> Seq<ComponentView> {
    v.map_values(|c: Component| c@)
}

/// `s` cut at every `c` (the pieces of `s.split(c)`, empty ones included).
pub open spec fn split(s: Seq<char>, c: char) -> Seq<Seq<char>>
    decreases s.len(),
{
    if s.len() == 0 {
        seq![Seq::<char>::empty()]
    } else {
        let p = split(s.drop_last(), c);
        if s.last() == c {
            p.push(Seq::<char>::empty())
        } else {
            p.drop_last().push(p.last().push(s.last()))
        }
    }
}

/// The component that one piece between separators contributes: none for an
/// empty piece or `.`, `ParentDir` for `..`, a normal component otherwise.
pub open spec fn segment_component(seg: Seq<char>) -> Seq<ComponentView> {
    if seg.len() == 0 || seg == seq!['.'] {
        Seq::empty()
    } else if seg == seq!['.', '.'] {
        seq![ComponentView::ParentDir]
    } else {
        seq![ComponentView::Normal(seg)]
    }
}

/// The components that a sequence of pieces contributes.
pub open spec fn segment_components(segs: Seq<Seq<char>>) -> Seq<ComponentView>
    decreases segs.len(),
{
    if segs.len() == 0 {
        Seq::empty()
    } else {
        segment_components(segs.drop_last()) + segment_component(segs.last())
    }
}

/// `Path::components` on Unix: `RootDir` for a leading `/`, `CurDir` for a
/// relative path whose first piece is `.`, then one component per piece that
/// is neither empty nor `.`.
pub open spec fn components(s: Seq<char>) -> Seq<ComponentView> {
    let segs = split(s, '/');
    let lead = if s.len() > 0 && s[0] == '/' {
        seq![ComponentView::RootDir]
    } else if segs[0] == seq!['.'] {
        seq![ComponentView::CurDir]
    } else {
        Seq::empty()
    };
    lead + segment_components(segs)
}

/// `base.join(rel)` on Unix: an absolute `rel` replaces `base`; otherwise a
/// separator is put between them unless `base` is empty or ends with one.
pub open spec fn join(base: Seq<char>, rel: Seq<char>) -> Seq<char> {
    if rel.len() > 0 && rel[0] == '/' {
        rel
    } else if base.len() > 0 && base.last() != '/' {
        base + seq!['/'] + rel
    } else {
        base + rel
    }
}

/// `p` is a prefix of `s`.
pub open spec fn is_prefix<A>(p: Seq<A>, s: Seq<A>) -> bool {
    p.len() <= s.len() && s.take(p.len() as int) == p
}

/// Some component of `cs` is `..`.
pub open spec fn has_parent_dir(cs: Seq<ComponentView>) -> bool {
    exists|i: int| 0 <= i < cs.len() && cs[i] == ComponentView::ParentDir
}

/// `p` lies inside `root`: `p.strip_prefix(root)` succeeds and what is left
/// has no `..` component.
pub open spec fn within(root: Seq<char>, p: Seq<char>) -> bool {
    let rc = components(root);
    let pc = components(p);
    is_prefix(rc, pc) && !has_parent_dir(pc.skip(rc.len() as int))
}

/// `rel` joined to `root`, when the result stays inside `root`.
pub open spec fn resolve_in(root: Seq<char>, rel: Seq<char>) -> Option<Seq<char>> {
    let p = join(root, rel);
    if within(root, p) {
        Some(p)
    } else {
        None
    }
}

/// The parent folder named by the stored setting, when it is not blank.
pub open spec fn parent_of(setting: Option<Seq<char>>) -> Option<Seq<char>> {
    match setting {
        Some(p) => if trim(p).len() != 0 {
            Some(p)
        } else {
            None
        },
        None => None,
    }
}

/// The managed downloads folder inside the configured parent.
pub open spec fn managed_dir_of(setting: Option<Seq<char>>) -> Option<Seq<char>> {
    match parent_of(setting) {
        Some(p) => Some(join(p, MANAGED_NAME@)),
        None => None,
    }
}

/// A stored relative path resolved inside the managed folder.
pub open spec fn path_for_spec(setting: Option<Seq<char>>, relative: Seq<char>) -> Option<
    Seq<char>,
> {
    match managed_dir_of(setting) {
        Some(root) => resolve_in(root, relative),
        None => None,
    }
}

/// The view of an optional `&str`.
pub open spec fn opt_view(s: Option<&str>) -> Option<Seq<char>> {
    match s {
        Some(v) => Some(v@),
        None => None,
    }
}

/// The view of an optional `String`.
pub open spec fn opt_string_view(s: Option<String>) -> Option<Seq<char>> {
    match s {
        Some(v) => Some(v@),
        None => None,
    }
}

proof fn lemma_split_nonempty(s: Seq<char>, c: char)
    ensures
        split(s, c).len() >= 1,
    decreases s.len(),
{
    if s.len() > 0 {
        lemma_split_nonempty(s.drop_last(), c);
    }
}

proof fn lemma_split_concat(a: Seq<char>, b: Seq<char>)
    ensures
        split(a + seq!['/'] + b, '/') == split(a, '/') + split(b, '/'),
    decreases b.len(),
{
    let x = a + seq!['/'] + b;
    if b.len() == 0 {
        assert(x.drop_last() =~= a);
        assert(split(a, '/') + split(b, '/') =~= split(a, '/').push(Seq::<char>::empty()));
    } else {
        assert(x.drop_last() =~= a + seq!['/'] + b.drop_last());
        assert(x.last() == b.last());
        lemma_split_concat(a, b.drop_last());
        let q = split(b.drop_last(), '/');
        lemma_split_nonempty(b.drop_last(), '/');
        let pp = split(a, '/') + q;
        if b.last() == '/' {
            assert(split(a, '/') + split(b, '/') =~= pp.push(Seq::<char>::empty()));
        } else {
            assert(pp.drop_last() =~= split(a, '/') + q.drop_last());
            assert(pp.last() == q.last());
            assert(split(a, '/') + split(b, '/') =~= pp.drop_last().push(pp.last().push(b.last())));
        }
    }
}

proof fn lemma_segment_components_concat(x: Seq<Seq<char>>, y: Seq<Seq<char>>)
    ensures
        segment_components(x + y) == segment_components(x) + segment_components(y),
    decreases y.len(),
{
    if y.len() == 0 {
        assert(x + y =~= x);
        assert(segment_components(x) + segment_components(y) =~= segment_components(x));
    } else {
        assert((x + y).drop_last() =~= x + y.drop_last());
        assert((x + y).last() == y.last());
        lemma_segment_components_concat(x, y.drop_last());
        assert(segment_components(x) + segment_components(y) =~= segment_components(x)
            + segment_components(y.drop_last()) + segment_component(y.last()));
    }
}

proof fn lemma_no_parent_dir(segs: Seq<Seq<char>>)
    requires
        forall|i: int| 0 <= i < segs.len() ==> #[trigger] segs[i] != seq!['.', '.'],
    ensures
        !has_parent_dir(segment_components(segs)),
    decreases segs.len(),
{
    if segs.len() > 0 {
        let d = segs.drop_last();
        assert forall|i: int| 0 <= i < d.len() implies #[trigger] d[i] != seq!['.', '.'] by {
            assert(d[i] == segs[i]);
        }
        lemma_no_parent_dir(d);
        let l = segs.last();
        assert(l != seq!['.', '.']);
        let cs = segment_components(segs);
        let left = segment_components(d);
        assert forall|i: int| 0 <= i < cs.len() implies cs[i] != ComponentView::ParentDir by {
            if i < left.len() {
                assert(cs[i] == left[i]);
            } else {
                assert(cs[i] == segment_component(l)[i - left.len()]);
            }
        }
    }
}

/// The pieces of `join(root, rel)` are the pieces of `root` followed by those
/// of `rel`, as far as components go.
proof fn lemma_join_components(root: Seq<char>, rel: Seq<char>)
    requires
        !(rel.len() > 0 && rel[0] == '/'),
        root.len() > 0,
    ensures
        components(join(root, rel)) == components(root) + segment_components(split(rel, '/')),
{
    let j = join(root, rel);
    let segs = split(j, '/');
    lemma_split_nonempty(root, '/');
    if root.last() != '/' {
        lemma_split_concat(root, rel);
        lemma_segment_components_concat(split(root, '/'), split(rel, '/'));
        assert(segs[0] == split(root, '/')[0]);
    } else {
        let a = root.drop_last();
        assert(root =~= a + seq!['/']);
        assert(j =~= a + seq!['/'] + rel);
        lemma_split_concat(a, rel);
        lemma_split_nonempty(a, '/');
        assert(root.drop_last() =~= a);
        assert(split(root, '/') == split(a, '/').push(Seq::<char>::empty()));
        lemma_segment_components_concat(split(a, '/'), split(rel, '/'));
        assert(split(a, '/').push(Seq::<char>::empty()).drop_last() =~= split(a, '/'));
        assert(segment_component(Seq::<char>::empty()) =~= Seq::<ComponentView>::empty());
        assert(segment_components(split(root, '/')) =~= segment_components(split(a, '/')));
        assert(segs[0] == split(a, '/')[0]);
        assert(split(root, '/')[0] == split(a, '/')[0]);
    }
    assert(j[0] == root[0]);
    assert(components(j) =~= components(root) + segment_components(split(rel, '/')));
}

/// A stored relative path that neither starts at the file system root nor
/// climbs with a `..` piece always resolves, to `root` joined with it.
pub proof fn lemma_plain_relative_resolves(root: Seq<char>, rel: Seq<char>)
    requires
        !(rel.len() > 0 && rel[0] == '/'),
        forall|i: int|
            0 <= i < split(rel, '/').len() ==> #[trigger] split(rel, '/')[i] != seq!['.', '.'],
    ensures
        resolve_in(root, rel) == Some(join(root, rel)),
{
    lemma_no_parent_dir(split(rel, '/'));
    let body = segment_components(split(rel, '/'));
    if root.len() > 0 {
        lemma_join_components(root, rel);
        let rc = components(root);
        let pc = components(join(root, rel));
        assert(pc.take(rc.len() as int) =~= rc);
        assert(pc.skip(rc.len() as int) =~= body);
    } else {
        assert(join(root, rel) =~= rel);
        assert(split(root, '/') =~= seq![Seq::<char>::empty()]);
        assert(split(root, '/').drop_last() =~= Seq::<Seq<char>>::empty());
        assert(split(root, '/').last() =~= Seq::<char>::empty());
        assert(segment_components(Seq::<Seq<char>>::empty()) =~= Seq::<ComponentView>::empty());
        assert(segment_component(Seq::<char>::empty()) =~= Seq::<ComponentView>::empty());
        assert(segment_components(split(root, '/')) =~= Seq::<ComponentView>::empty());
        assert(components(root) =~= Seq::<ComponentView>::empty());
        let pc = components(rel);
        assert(pc.take(0) =~= Seq::<ComponentView>::empty());
        assert(pc.skip(0) =~= pc);
        assert forall|i: int| 0 <= i < pc.len() implies pc[i] != ComponentView::ParentDir by {
            let lead = pc.len() - body.len();
            if i >= lead {
                assert(pc[i] == body[i - lead]);
            }
        }
    }
}

proof fn lemma_split_without_separator(s: Seq<char>, c: char)
    requires
        forall|i: int| 0 <= i < s.len() ==> s[i] != c,
    ensures
        split(s, c) == seq![s],
    decreases s.len(),
{
    if s.len() > 0 {
        let d = s.drop_last();
        assert forall|i: int| 0 <= i < d.len() implies d[i] != c by {
            assert(d[i] == s[i]);
        }
        lemma_split_without_separator(d, c);
        assert(d.push(s.last()) =~= s);
        assert(seq![d].drop_last().push(d.push(s.last())) =~= seq![s]);
    } else {
        assert(s =~= Seq::<char>::empty());
    }
}

proof fn lemma_dir_file_resolves(root: Seq<char>, dir: Seq<char>, file: Seq<char>)
    requires
        dir.len() > 0,
        file.len() > 2,
        dir != seq!['.', '.'],
        forall|i: int| 0 <= i < dir.len() ==> dir[i] != '/',
        forall|i: int| 0 <= i < file.len() ==> file[i] != '/',
    ensures
        resolve_in(root, dir + seq!['/'] + file) == Some(join(root, dir + seq!['/'] + file)),
{
    let rel = dir + seq!['/'] + file;
    lemma_split_concat(dir, file);
    lemma_split_without_separator(dir, '/');
    lemma_split_without_separator(file, '/');
    let pieces = split(rel, '/');
    assert(pieces =~= seq![dir, file]);
    assert(file != seq!['.', '.']) by {
        assert(file.len() != seq!['.', '.'].len());
    }
    assert forall|i: int| 0 <= i < pieces.len() implies #[trigger] pieces[i] != seq!['.', '.'] by {}
    assert(rel[0] == dir[0]);
    lemma_plain_relative_resolves(root, rel);
}

proof fn lemma_name_has_no_separator(video_id: Seq<char>, tail: Seq<char>)
    requires
        forall|i: int| 0 <= i < tail.len() ==> tail[i] != '/',
    ensures
        forall|i: int|
            0 <= i < (stable_name_of(video_id) + tail).len() ==> (stable_name_of(video_id)
                + tail)[i] != '/',
{
    let n = stable_name_of(video_id);
    assert forall|i: int| 0 <= i < (n + tail).len() implies (n + tail)[i] != '/' by {
        if i < n.len() {
            lemma_stable_name_safe(video_id, i);
        } else {
            assert((n + tail)[i] == tail[i - n.len()]);
        }
    }
}

/// The audio, partial and artwork files that the library names for a track
/// always resolve inside the managed folder, so they can be played, resumed
/// and cleaned up.
pub proof fn lemma_track_files_resolve(root: Seq<char>, video_id: Seq<char>, mime: Option<Seq<char>>)
    ensures
        resolve_in(root, audio_path_of(video_id, ext_for(mime))) == Some(
            join(root, audio_path_of(video_id, ext_for(mime))),
        ),
        resolve_in(root, part_path_of(video_id, ext_for(mime))) == Some(
            join(root, part_path_of(video_id, ext_for(mime))),
        ),
        resolve_in(root, artwork_path_of(video_id)) == Some(
            join(root, artwork_path_of(video_id)),
        ),
{
    reveal_strlit("audio");
    reveal_strlit("artwork");
    reveal_strlit("/");
    reveal_strlit(".");
    reveal_strlit(".part");
    reveal_strlit(".jpg");
    reveal_strlit("m4a");
    reveal_strlit("webm");
    let ext = ext_for(mime);
    assert(ext == "m4a"@ || ext == "webm"@);
    let name = stable_name_of(video_id);
    let audio_tail = "."@ + ext;
    let part_tail = "."@ + ext + ".part"@;
    let art_tail = ".jpg"@;
    assert forall|i: int| 0 <= i < audio_tail.len() implies audio_tail[i] != '/' by {}
    assert forall|i: int| 0 <= i < part_tail.len() implies part_tail[i] != '/' by {}
    assert forall|i: int| 0 <= i < art_tail.len() implies art_tail[i] != '/' by {}
    lemma_name_has_no_separator(video_id, audio_tail);
    lemma_name_has_no_separator(video_id, part_tail);
    lemma_name_has_no_separator(video_id, art_tail);
    let audio = AUDIO_DIR@;
    let art = ART_DIR@;
    assert(audio.len() == 5 && art.len() == 7);
    assert forall|i: int| 0 <= i < audio.len() implies audio[i] != '/' by {}
    assert forall|i: int| 0 <= i < art.len() implies art[i] != '/' by {}
    lemma_dir_file_resolves(root, audio, name + audio_tail);
    lemma_dir_file_resolves(root, audio, name + part_tail);
    lemma_dir_file_resolves(root, art, name + art_tail);
    assert(audio_path_of(video_id, ext) =~= audio + seq!['/'] + (name + audio_tail));
    assert(part_path_of(video_id, ext) =~= audio + seq!['/'] + (name + part_tail));
    assert(artwork_path_of(video_id) =~= art + seq!['/'] + (name + art_tail));
}

/// A stored path resolves only once a downloads folder is configured, then
/// lies inside `<parent>/LiMusic Downloads`; a plain relative path resolves
/// to that folder joined with it.
pub proof fn lemma_path_for_inside_managed_dir(setting: Option<Seq<char>>, rel: Seq<char>)
    ensures
        setting is None ==> path_for_spec(setting, rel) is None,
        setting is Some && all_white(setting->0) ==> path_for_spec(setting, rel) is None,
        setting is Some && !all_white(setting->0) ==> managed_dir_of(setting) == Some(
            join(setting->0, "LiMusic Downloads"@),
        ),
        path_for_spec(setting, rel) matches Some(r) ==> (managed_dir_of(setting) matches Some(root)
            && is_prefix(components(root), components(r)) && !has_parent_dir(
            components(r).skip(components(root).len() as int),
        )),
        setting is Some && !all_white(setting->0) && !(rel.len() > 0 && rel[0] == '/') && (forall|
            i: int,
        |
            0 <= i < split(rel, '/').len() ==> #[trigger] split(rel, '/')[i] != seq!['.', '.'])
            ==> path_for_spec(setting, rel) == Some(
            join(join(setting->0, "LiMusic Downloads"@), rel),
        ),
{
    if let Some(p) = setting {
        lemma_trim_empty_iff_blank(p);
        if !all_white(p) {
            let root = join(p, MANAGED_NAME@);
            if !(rel.len() > 0 && rel[0] == '/') && (forall|i: int|
                0 <= i < split(rel, '/').len() ==> #[trigger] split(rel, '/')[i] != seq!['.', '.']) {
                lemma_plain_relative_resolves(root, rel);
            }
        }
    }
}

/// What `path_for` returns always lies inside the managed folder: the
/// folder's components come first and no `..` follows them.
pub proof fn lemma_resolved_stays_inside(root: Seq<char>, rel: Seq<char>)
    requires
        resolve_in(root, rel) is Some,
    ensures
        is_prefix(components(root), components(resolve_in(root, rel)->0)),
        !has_parent_dir(
            components(resolve_in(root, rel)->0).skip(components(root).len() as int),
        ),
{
}

fn is_dot(seg: &Vec<char>) -> (r: bool)
    ensures
        r == (seg@ == seq!['.']),
{
    if seg.len() == 1 && seg[0] == '.' {
        assert(seg@ =~= seq!['.']);
        true
    } else {
        proof {
            if seg@ == seq!['.'] {
                assert(seg@[0] == '.');
            }
        }
        false
    }
}

fn is_dot_dot(seg: &Vec<char>) -> (r: bool)
    ensures
        r == (seg@ == seq!['.', '.']),
{
    if seg.len() == 2 && seg[0] == '.' && seg[1] == '.' {
        assert(seg@ =~= seq!['.', '.']);
        true
    } else {
        proof {
            if seg@ == seq!['.', '.'] {
                assert(seg@[0] == '.' && seg@[1] == '.');
            }
        }
        false
    }
}

fn push_segment(out: &mut Vec<Component>, seg: Vec<char>)
    ensures
        views(final(out)@) == views(old(out)@) + segment_component(seg@),
{
    if seg.len() == 0 || is_dot(&seg) {
        assert(views(out@) =~= views(out@) + segment_component(seg@));
    } else if is_dot_dot(&seg) {
        out.push(Component::ParentDir);
        assert(views(out@) =~= views(old(out)@) + segment_component(seg@));
    } else {
        let ghost s = seg@;
        out.push(Component::Normal(seg));
        assert(views(out@) =~= views(old(out)@) + segment_component(s));
    }
}

/// The components of a path (`Path::components` on Unix).
pub fn components_of(s: &Vec<char>) -> (r: Vec<Component>)
    ensures
        views(r@) == components(s@),
{
    let n = s.len();
    let mut out: Vec<Component> = Vec::new();
    let mut cur: Vec<char> = Vec::new();
    let ghost mut done: Seq<Seq<char>> = Seq::empty();
    let mut seen_sep = false;
    let mut first_dot = false;
    let mut i: usize = 0;
    assert(s@.take(0) =~= Seq::<char>::empty());
    while i < n
        invariant
            i <= n,
            n == s.len(),
            split(s@.take(i as int), '/') == done.push(cur@),
            views(out@) == segment_components(done),
            seen_sep == (done.len() > 0),
            seen_sep ==> (first_dot == (done[0] == seq!['.'])),
        decreases n - i,
    {
        let ch = s[i];
        proof {
            let t = s@.take(i + 1);
            assert(t.drop_last() =~= s@.take(i as int));
            assert(t.last() == ch);
        }
        if ch == '/' {
            if !seen_sep {
                first_dot = is_dot(&cur);
                seen_sep = true;
            }
            let ghost prev = done;
            let ghost c = cur@;
            let seg = cur;
            push_segment(&mut out, seg);
            cur = Vec::new();
            proof {
                done = prev.push(c);
                assert(done.drop_last() =~= prev);
                assert(cur@ =~= Seq::<char>::empty());
            }
        } else {
            cur.push(ch);
        }
        i = i + 1;
    }
    assert(s@.take(n as int) =~= s@);
    let ghost segs = done.push(cur@);
    assert(segs.drop_last() =~= done);
    let first_is_dot = if seen_sep {
        first_dot
    } else {
        is_dot(&cur)
    };
    assert(first_is_dot == (segs[0] == seq!['.']));
    push_segment(&mut out, cur);
    let ghost body = views(out@);
    if n > 0 && s[0] == '/' {
        out.insert(0, Component::RootDir);
        assert(views(out@) =~= seq![ComponentView::RootDir] + body);
    } else if first_is_dot {
        out.insert(0, Component::CurDir);
        assert(views(out@) =~= seq![ComponentView::CurDir] + body);
    } else {
        assert(views(out@) =~= Seq::<ComponentView>::empty() + body);
    }
    let r = out;
    assert(views(r@) =~= components(s@));
    r
}

fn clone_component(c: &Component) -> (r: Component)
    ensures
        r@ == c@,
{
    match c {
        Component::RootDir => Component::RootDir,
        Component::CurDir => Component::CurDir,
        Component::ParentDir => Component::ParentDir,
        Component::Normal(v) => Component::Normal(v.clone()),
    }
}

fn same_component(a: &Component, b: &Component) -> (r: bool)
    ensures
        r == (a@ == b@),
{
    match (a, b) {
        (Component::RootDir, Component::RootDir) => true,
        (Component::CurDir, Component::CurDir) => true,
        (Component::ParentDir, Component::ParentDir) => true,
        (Component::Normal(x), Component::Normal(y)) => same_chars(x, y),
        _ => false,
    }
}

/// Whether two component sequences are equal.
pub fn same_components(a: &Vec<Component>, b: &Vec<Component>) -> (r: bool)
    ensures
        r == (views(a@) == views(b@)),
{
    if a.len() != b.len() {
        assert(views(a@).len() != views(b@).len());
        return false;
    }
    let mut i: usize = 0;
    while i < a.len()
        invariant
            i <= a.len(),
            a.len() == b.len(),
            forall|j: int| 0 <= j < i ==> views(a@)[j] == views(b@)[j],
        decreases a.len() - i,
    {
        if !same_component(&a[i], &b[i]) {
            assert(views(a@)[i as int] != views(b@)[i as int]);
            return false;
        }
        i = i + 1;
    }
    assert(views(a@) =~= views(b@));
    true
}

/// `base.join(rel)` on text.
pub fn join_chars(base: &Vec<char>, rel: &Vec<char>) -> (r: Vec<char>)
    ensures
        r@ == join(base@, rel@),
{
    if rel.len() > 0 && rel[0] == '/' {
        return rel.clone();
    }
    let mut r = base.clone();
    if base.len() > 0 && base[base.len() - 1] != '/' {
        r.push('/');
    }
    push_chars(&mut r, rel);
    r
}

/// `Path::new(base).join(rel)`, as text.
pub fn join_path(base: &str, rel: &str) -> (r: String)
    ensures
        r@ == join(base@, rel@),
{
    let b = chars_of(base);
    let l = chars_of(rel);
    let j = join_chars(&b, &l);
    string_from_chars(&j)
}

/// Whether two paths name the same place component by component
/// (`Path`'s `==`).
pub fn same_path(a: &str, b: &str) -> (r: bool)
    ensures
        r == (components(a@) == components(b@)),
{
    let ca = components_of(&chars_of(a));
    let cb = components_of(&chars_of(b));
    same_components(&ca, &cb)
}

fn within_exec(root: &Vec<char>, p: &Vec<char>) -> (r: bool)
    ensures
        r == within(root@, p@),
{
    let rc = components_of(root);
    let pc = components_of(p);
    let ghost rv = views(rc@);
    let ghost pv = views(pc@);
    if rc.len() > pc.len() {
        assert(rv.len() > pv.len());
        return false;
    }
    let mut i: usize = 0;
    while i < rc.len()
        invariant
            i <= rc.len() <= pc.len(),
            rv == views(rc@),
            pv == views(pc@),
            rv == components(root@),
            pv == components(p@),
            forall|j: int| 0 <= j < i ==> rv[j] == pv[j],
        decreases rc.len() - i,
    {
        if !same_component(&rc[i], &pc[i]) {
            assert(pv.take(rv.len() as int)[i as int] != rv[i as int]);
            return false;
        }
        i = i + 1;
    }
    assert(pv.take(rv.len() as int) =~= rv);
    let mut k: usize = rc.len();
    while k < pc.len()
        invariant
            rc.len() <= k <= pc.len(),
            rv == views(rc@),
            pv == views(pc@),
            rv == components(root@),
            pv == components(p@),
            is_prefix(rv, pv),
            forall|j: int| rc.len() <= j < k ==> pv[j] != ComponentView::ParentDir,
        decreases pc.len() - k,
    {
        if let Component::ParentDir = &pc[k] {
            assert(pv.skip(rv.len() as int)[k - rv.len()] == ComponentView::ParentDir);
            return false;
        }
        k = k + 1;
    }
    assert forall|j: int|
        0 <= j < pv.skip(rv.len() as int).len() implies pv.skip(rv.len() as int)[j]
        != ComponentView::ParentDir by {
        assert(pv.skip(rv.len() as int)[j] == pv[j + rv.len()]);
    }
    true
}

/// `root.join(relative)`, provided the result stays inside `root`: it must
/// have `root`'s components as a prefix and no `..` component after them.
pub fn resolve_within(root: &str, relative: &str) -> (r: Option<String>)
    ensures
        opt_string_view(r) == resolve_in(root@, relative@),
{
    let rt = chars_of(root);
    let rl = chars_of(relative);
    let p = join_chars(&rt, &rl);
    if within_exec(&rt, &p) {
        Some(string_from_chars(&p))
    } else {
        None
    }
}

/// The configured parent of the downloads folder: the stored setting, unless
/// it is missing or blank.
pub fn parent(setting: Option<&str>) -> (r: Option<String>)
    ensures
        opt_string_view(r) == parent_of(opt_view(setting)),
        r is Some ==> (setting matches Some(p) && r->0@ == p@),
        r is None <==> (setting is None || all_white(setting->0@)),
{
    proof {
        if let Some(p) = setting {
            lemma_trim_empty_iff_blank(p@);
        }
    }
    match setting {
        Some(p) => {
            let c = chars_of(p);
            let t = trim_chars(&c);
            if t.len() != 0 {
                Some(string_from_chars(&c))
            } else {
                None
            }
        },
        None => None,
    }
}

/// The managed downloads folder: `<parent>/LiMusic Downloads`.
pub fn managed_dir(setting: Option<&str>) -> (r: Option<String>)
    ensures
        opt_string_view(r) == managed_dir_of(opt_view(setting)),
{
    match parent(setting) {
        Some(p) => Some(join_path(p.as_str(), MANAGED_NAME)),
        None => None,
    }
}

/// Where a stored relative path lives inside the managed folder; `None` when
/// no folder is configured or the path would leave it.
pub fn path_for(setting: Option<&str>, relative: &str) -> (r: Option<String>)
    ensures
        opt_string_view(r) == path_for_spec(opt_view(setting), relative@),
{
    match managed_dir(setting) {
        Some(root) => resolve_within(root.as_str(), relative),
        None => None,
    }
}

} // verus!
