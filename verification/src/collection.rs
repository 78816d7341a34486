//! Collections (albums, playlists) queued for download as a whole.

use vstd::prelude::*;

use crate::paths::opt_string_view;
use crate::records::{state_name, DownloadState};

verus! {

/// The stored row of a collection.
pub struct DownloadCollectionRecord {
    pub id: String,
    pub kind: String,
    pub title: String,
    pub subtitle: Option<String>,
    pub thumbnail: Option<String>,
    pub continuation: Option<String>,
    pub state: String,
    pub error: Option<String>,
}

/// One track of a collection, at its position in the collection.
pub struct CollectionTrack {
    pub collection_id: String,
    pub video_id: String,
    pub position: i64,
    pub song_json: String,
}

/// A collection just asked for: queued, without error.
pub fn queued_collection(
    id: String,
    kind: String,
    title: String,
    subtitle: Option<String>,
    thumbnail: Option<String>,
    continuation: Option<String>,
) -> (c: DownloadCollectionRecord)
    ensures
        c.id == id,
        c.kind == kind,
        c.title == title,
        c.subtitle == subtitle,
        c.thumbnail == thumbnail,
        c.continuation == continuation,
        c.state@ == state_name(DownloadState::Queued),
        c.error is None,
{
    DownloadCollectionRecord {
        id,
        kind,
        title,
        subtitle,
        thumbnail,
        continuation,
        state: DownloadState::Queued.name(),
        error: None,
    }
}

/// A track of the collection as the spec sees it: collection, track id,
/// position and track data.
pub struct TrackView {
    pub collection_id: Seq<char>,
    pub video_id: Seq<char>,
    pub position: int,
    pub song_json: Seq<char>,
}

/// The view of a stored track.
pub open spec fn track_view(t: CollectionTrack) -> TrackView {
    TrackView {
        collection_id: t.collection_id@,
        video_id: t.video_id@,
        position: t.position as int,
        song_json: t.song_json@,
    }
}

/// The tracks kept of a collection's items: each item whose data could be
/// serialized, at its position among all items.
pub open spec fn tracks_of(collection_id: Seq<char>, items: Seq<(String, Option<String>)>) -> Seq<
    TrackView,
>
    decreases items.len(),
{
    if items.len() == 0 {
        Seq::empty()
    } else {
        let prev = tracks_of(collection_id, items.drop_last());
        match opt_string_view(items.last().1) {
            Some(json) => prev.push(
                TrackView {
                    collection_id,
                    video_id: items.last().0@,
                    position: items.len() - 1,
                    song_json: json,
                },
            ),
            None => prev,
        }
    }
}

/// The stored tracks of a collection; `items` holds each item's id and its
/// serialized data, `None` where it could not be serialized.
pub fn collection_tracks(collection_id: &String, items: &Vec<(String, Option<String>)>) -> (r: Vec<
    CollectionTrack,
>)
    requires
        items.len() <= i64::MAX,
    ensures
        r@.map_values(|t: CollectionTrack| track_view(t)) == tracks_of(collection_id@, items@),
        forall|k: int|
            0 <= k < r@.len() ==> {
                let p = (#[trigger] r@[k]).position as int;
                &&& 0 <= p < items@.len()
                &&& items@[p].1 is Some
                &&& r@[k].song_json@ == items@[p].1->0@
                &&& r@[k].video_id@ == items@[p].0@
                &&& r@[k].collection_id@ == collection_id@
            },
{
    proof {
        lemma_tracks_are_their_items(collection_id@, items@);
    }
    let mut out: Vec<CollectionTrack> = Vec::new();
    let mut i: usize = 0;
    while i < items.len()
        invariant
            i <= items.len() <= i64::MAX,
            out@.map_values(|t: CollectionTrack| track_view(t)) == tracks_of(
                collection_id@,
                items@.take(i as int),
            ),
        decreases items.len() - i,
    {
        let ghost before = out@.map_values(|t: CollectionTrack| track_view(t));
        let ghost t = items@.take(i + 1);
        assert(t.drop_last() =~= items@.take(i as int));
        assert(t.last() == items@[i as int]);
        match &items[i].1 {
            Some(json) => {
                let track = CollectionTrack {
                    collection_id: collection_id.clone(),
                    video_id: items[i].0.clone(),
                    position: i as i64,
                    song_json: json.clone(),
                };
                out.push(track);
                assert(out@.map_values(|t: CollectionTrack| track_view(t)) =~= before.push(
                    TrackView {
                        collection_id: collection_id@,
                        video_id: items@[i as int].0@,
                        position: i as int,
                        song_json: json@,
                    },
                ));
            },
            None => {
                assert(out@.map_values(|t: CollectionTrack| track_view(t)) =~= before);
            },
        }
        i = i + 1;
    }
    assert(items@.take(items.len() as int) =~= items@);
    proof {
        let tv = out@.map_values(|t: CollectionTrack| track_view(t));
        assert forall|k: int| 0 <= k < out@.len() implies {
            let p = (#[trigger] out@[k]).position as int;
            &&& 0 <= p < items@.len()
            &&& items@[p].1 is Some
            &&& out@[k].song_json@ == items@[p].1->0@
            &&& out@[k].video_id@ == items@[p].0@
            &&& out@[k].collection_id@ == collection_id@
        } by {
            assert(tv[k] == track_view(out@[k]));
            assert(tv[k] == tracks_of(collection_id@, items@)[k]);
        }
    }
    out
}

/// Every stored track carries its own position, so positions rise strictly
/// and skipped items leave gaps instead of shifting later tracks.
pub proof fn lemma_track_positions_rise(
    collection_id: Seq<char>,
    items: Seq<(String, Option<String>)>,
    a: int,
    b: int,
)
    requires
        0 <= a < b < tracks_of(collection_id, items).len(),
    ensures
        tracks_of(collection_id, items)[a].position < tracks_of(collection_id, items)[b].position,
        0 <= tracks_of(collection_id, items)[a].position,
        tracks_of(collection_id, items)[b].position < items.len(),
    decreases items.len(),
{
    lemma_track_positions_bounded(collection_id, items);
    let d = items.drop_last();
    let prev = tracks_of(collection_id, d);
    lemma_track_positions_bounded(collection_id, d);
    if b < prev.len() {
        lemma_track_positions_rise(collection_id, d, a, b);
    } else {
        assert(tracks_of(collection_id, items)[a] == prev[a]);
    }
}

/// Each stored track is the item at its position: same track id, same
/// serialized data, in this collection; and every item that could be
/// serialized is stored.
pub proof fn lemma_tracks_are_their_items(
    collection_id: Seq<char>,
    items: Seq<(String, Option<String>)>,
)
    ensures
        forall|k: int|
            0 <= k < tracks_of(collection_id, items).len() ==> {
                let t = #[trigger] tracks_of(collection_id, items)[k];
                &&& 0 <= t.position < items.len()
                &&& items[t.position].1 is Some
                &&& t.song_json == items[t.position].1->0@
                &&& t.video_id == items[t.position].0@
                &&& t.collection_id == collection_id
            },
        forall|p: int|
            0 <= p < items.len() && (#[trigger] items[p]).1 is Some ==> exists|k: int|
                0 <= k < tracks_of(collection_id, items).len() && tracks_of(
                    collection_id,
                    items,
                )[k].position == p,
    decreases items.len(),
{
    if items.len() > 0 {
        let d = items.drop_last();
        lemma_tracks_are_their_items(collection_id, d);
        let prev = tracks_of(collection_id, d);
        let all = tracks_of(collection_id, items);
        assert forall|k: int| 0 <= k < all.len() implies {
            let t = #[trigger] all[k];
            &&& 0 <= t.position < items.len()
            &&& items[t.position].1 is Some
            &&& t.song_json == items[t.position].1->0@
            &&& t.video_id == items[t.position].0@
            &&& t.collection_id == collection_id
        } by {
            if k < prev.len() {
                assert(all[k] == prev[k]);
                let t = prev[k];
                assert(items[t.position] == d[t.position]);
            }
        }
        assert forall|p: int| 0 <= p < items.len() && (#[trigger] items[p]).1 is Some implies exists|
            k: int,
        | 0 <= k < all.len() && all[k].position == p by {
            if p < d.len() {
                assert(d[p] == items[p]);
                let k = choose|k: int| 0 <= k < prev.len() && prev[k].position == p;
                assert(all[k] == prev[k]);
            } else {
                assert(all[prev.len() as int].position == p);
            }
        }
    }
}

proof fn lemma_track_positions_bounded(collection_id: Seq<char>, items: Seq<(String, Option<String>)>)
    ensures
        tracks_of(collection_id, items).len() <= items.len(),
        forall|k: int|
            0 <= k < tracks_of(collection_id, items).len() ==> 0 <= #[trigger] tracks_of(
                collection_id,
                items,
            )[k].position < items.len(),
    decreases items.len(),
{
    if items.len() > 0 {
        let d = items.drop_last();
        lemma_track_positions_bounded(collection_id, d);
        let prev = tracks_of(collection_id, d);
        assert forall|k: int| 0 <= k < tracks_of(collection_id, items).len() implies 0
            <= #[trigger] tracks_of(collection_id, items)[k].position < items.len() by {
            if k < prev.len() {
                assert(tracks_of(collection_id, items)[k] == prev[k]);
            }
        }
    }
}

} // verus!
