//! From one store to another: the row writes that bring the store's file along.
use vstd::prelude::*;

use crate::store::records;
use crate::store::records::Store;
use crate::store::rows;
use crate::store::rows::{EpisodeRow, NewEpisode, ShowRow};
use crate::text;

verus! {

/// A write to one row of the file.
#[derive(Debug, Clone, PartialEq)]
pub enum RowWrite {
    /// delete the show with this id, and its episodes with it
    DropShow(i64),
    /// delete the episode with this id
    DropEpisode(i64),
    /// add this show, or change the one with its id into it
    PutShow(ShowRow),
    /// add this episode, or change the one with its id into it
    PutEpisode(EpisodeRow),
}

/// A `RowWrite`, with its texts as sequences.
pub ghost enum RowWriteView {
    DropShow(int),
    DropEpisode(int),
    PutShow(rows::ShowRowView),
    PutEpisode(rows::EpisodeRowView),
}

impl View for RowWrite {
    type V = RowWriteView;

    open spec fn view(&self) -> RowWriteView {
        match *self {
            RowWrite::DropShow(id) => RowWriteView::DropShow(id as int),
            RowWrite::DropEpisode(id) => RowWriteView::DropEpisode(id as int),
            RowWrite::PutShow(row) => RowWriteView::PutShow(row@),
            RowWrite::PutEpisode(row) => RowWriteView::PutEpisode(row@),
        }
    }
}

/// The writes' views.
pub open spec fn writes_view(writes: Seq<RowWrite>) -> Seq<RowWriteView> {
    writes.map_values(|w: RowWrite| w@)
}

/// What a file holds: its rows, by their ids.
#[verifier::ext_equal]
pub ghost struct FileView {
    pub shows: Map<int, rows::ShowRowView>,
    pub episodes: Map<int, rows::EpisodeRowView>,
}

/// Is there an episode with this id?
pub open spec fn has_row_id(episodes: Seq<rows::EpisodeRowView>, id: int) -> bool {
    exists|k: int| 0 <= k < episodes.len() && (#[trigger] episodes[k]).id == id
}

/// Shows by their ids.
pub open spec fn shows_by_id(shows: Seq<rows::ShowRowView>) -> Map<int, rows::ShowRowView> {
    Map::new(
        |id: int| records::has_show_id(shows, id),
        |id: int|
            shows[choose|k: int| 0 <= k < shows.len() && (#[trigger] shows[k]).id == id],
    )
}

/// Episodes by their ids.
pub open spec fn episodes_by_id(episodes: Seq<rows::EpisodeRowView>) -> Map<
    int,
    rows::EpisodeRowView,
> {
    Map::new(
        |id: int| has_row_id(episodes, id),
        |id: int|
            episodes[choose|k: int| 0 <= k < episodes.len() && (#[trigger] episodes[k]).id == id],
    )
}

/// The file that holds a store's records.
pub open spec fn file_of(store: records::StoreView) -> FileView {
    FileView {
        shows: shows_by_id(store.shows),
        episodes: episodes_by_id(store.episodes),
    }
}

/// The file after a write.
pub open spec fn written(file: FileView, write: RowWriteView) -> FileView {
    match write {
        RowWriteView::DropShow(id) => FileView {
            shows: file.shows.remove(id),
            episodes: file.episodes.restrict(
                Set::new(
                    |e: int| file.episodes.contains_key(e) && file.episodes[e].show_id != id,
                ),
            ),
        },
        RowWriteView::DropEpisode(id) => FileView { episodes: file.episodes.remove(id), ..file },
        RowWriteView::PutShow(row) => FileView { shows: file.shows.insert(row.id, row), ..file },
        RowWriteView::PutEpisode(row) => FileView {
            episodes: file.episodes.insert(row.id, row),
            ..file
        },
    }
}

/// The file after several writes, one after the other.
pub open spec fn all_written(file: FileView, writes: Seq<RowWriteView>) -> FileView
    decreases writes.len(),
{
    if writes.len() == 0 {
        file
    } else {
        written(all_written(file, writes.drop_last()), writes.last())
    }
}

/// Where a row stands, it is found by its id.
proof fn lemma_shows_by_id(shows: Seq<rows::ShowRowView>, k: int)
    requires
        0 <= k < shows.len(),
        forall|i: int, j: int|
            0 <= i < j < shows.len() ==> (#[trigger] shows[i]).id != (#[trigger] shows[j]).id,
    ensures
        shows_by_id(shows).contains_key(shows[k].id),
        shows_by_id(shows)[shows[k].id] == shows[k],
{
    let id = shows[k].id;
    assert(records::has_show_id(shows, id));
    let m = choose|m: int| 0 <= m < shows.len() && (#[trigger] shows[m]).id == id;
    if m < k {
        assert(shows[m].id != shows[k].id);
    } else if k < m {
        assert(shows[k].id != shows[m].id);
    }
}

/// Where a row stands, it is found by its id.
proof fn lemma_episodes_by_id(episodes: Seq<rows::EpisodeRowView>, k: int)
    requires
        0 <= k < episodes.len(),
        forall|i: int, j: int|
            0 <= i < j < episodes.len() ==> (#[trigger] episodes[i]).id != (
            #[trigger] episodes[j]).id,
    ensures
        episodes_by_id(episodes).contains_key(episodes[k].id),
        episodes_by_id(episodes)[episodes[k].id] == episodes[k],
{
    let id = episodes[k].id;
    assert(has_row_id(episodes, id));
    let m = choose|m: int| 0 <= m < episodes.len() && (#[trigger] episodes[m]).id == id;
    if m < k {
        assert(episodes[m].id != episodes[k].id);
    } else if k < m {
        assert(episodes[k].id != episodes[m].id);
    }
}

/// One more write.
proof fn lemma_one_more(file: FileView, writes: Seq<RowWrite>, write: RowWrite)
    ensures
        all_written(file, writes_view(writes.push(write))) == written(
            all_written(file, writes_view(writes)),
            write@,
        ),
{
    let now = writes_view(writes.push(write));
    assert(now.drop_last() =~= writes_view(writes));
    assert(now.last() == write@);
}

// ── Comparing rows ───────────────────────────────────────────────────────

fn same_text(a: &Option<String>, b: &Option<String>) -> (r: bool)
    ensures
        r == (text::opt(*a) == text::opt(*b)),
{
    match (a, b) {
        (Some(a), Some(b)) => text::same(a, b),
        (None, None) => true,
        _ => false,
    }
}

fn same_length(a: Option<i64>, b: Option<i64>) -> (r: bool)
    ensures
        r == (a == b),
{
    match (a, b) {
        (Some(a), Some(b)) => a == b,
        (None, None) => true,
        _ => false,
    }
}

fn same_show(a: &ShowRow, b: &ShowRow) -> (r: bool)
    ensures
        r == (a@ == b@),
{
    a.id == b.id && text::same(&a.name, &b.name) && text::same(&a.feed_url, &b.feed_url)
        && same_text(&a.title, &b.title) && same_text(&a.image_url, &b.image_url) && text::same(
        &a.added_at,
        &b.added_at,
    ) && same_text(&a.refreshed_at, &b.refreshed_at)
}

fn same_about(a: &NewEpisode, b: &NewEpisode) -> (r: bool)
    ensures
        r == (a@ == b@),
{
    text::same(&a.guid, &b.guid) && text::same(&a.title, &b.title) && text::same(&a.url, &b.url)
        && same_text(&a.media_type, &b.media_type) && same_text(&a.published_at, &b.published_at)
        && same_length(a.duration_seconds, b.duration_seconds) && same_text(
        &a.image_url,
        &b.image_url,
    ) && same_text(&a.summary, &b.summary)
}

fn same_episode(a: &EpisodeRow, b: &EpisodeRow) -> (r: bool)
    ensures
        r == (a@ == b@),
{
    a.id == b.id && a.show_id == b.show_id && same_about(&a.about, &b.about) && a.position
        == b.position && a.played == b.played && same_text(&a.download_path, &b.download_path)
}

fn find_show(store: &Store, id: i64) -> (r: Option<usize>)
    ensures
        match r {
            Some(k) => k < store.shows@.len() && store@.shows[k as int].id == id,
            None => !records::has_show_id(store@.shows, id as int),
        },
{
    let mut k: usize = 0;
    while k < store.shows.len()
        invariant
            k <= store.shows@.len(),
            forall|j: int| 0 <= j < k ==> (#[trigger] store@.shows[j]).id != id,
        decreases store.shows@.len() - k,
    {
        assert(store@.shows[k as int] == store.shows@[k as int]@);
        if store.shows[k].id == id {
            return Some(k);
        }
        k += 1;
    }
    None
}

/// Where the episode with this id stands; `near` is where it most likely does.
fn find_episode(store: &Store, id: i64, near: usize) -> (r: Option<usize>)
    ensures
        match r {
            Some(k) => k < store.episodes@.len() && store@.episodes[k as int].id == id,
            None => !has_row_id(store@.episodes, id as int),
        },
{
    if near < store.episodes.len() && store.episodes[near].id == id {
        return Some(near);
    }
    let mut k: usize = 0;
    while k < store.episodes.len()
        invariant
            k <= store.episodes@.len(),
            forall|j: int| 0 <= j < k ==> (#[trigger] store@.episodes[j]).id != id,
        decreases store.episodes@.len() - k,
    {
        assert(store@.episodes[k as int] == store.episodes@[k as int]@);
        if store.episodes[k].id == id {
            return Some(k);
        }
        k += 1;
    }
    None
}

// ── The writes ───────────────────────────────────────────────────────────

/// Is there a show with this id before, and none after?
pub open spec fn drops_show(
    before: records::StoreView,
    after: records::StoreView,
    id: int,
) -> bool {
    records::has_show_id(before.shows, id) && !records::has_show_id(after.shows, id)
}

/// Does the file hold an episode's row as it is, once what is gone has been deleted?
pub open spec fn holds_episode(
    before: records::StoreView,
    after: records::StoreView,
    row: rows::EpisodeRowView,
) -> bool {
    has_row_id(before.episodes, row.id) && episodes_by_id(before.episodes)[row.id] == row
        && !drops_show(before, after, row.show_id)
}

/// Is a write needed: does it delete a row that is gone, or put a row that the file does not hold as
/// it is after?
pub open spec fn is_needed(
    before: records::StoreView,
    after: records::StoreView,
    write: RowWriteView,
) -> bool {
    match write {
        RowWriteView::DropShow(id) => drops_show(before, after, id),
        RowWriteView::DropEpisode(id) => has_row_id(before.episodes, id) && !has_row_id(
            after.episodes,
            id,
        ),
        RowWriteView::PutShow(row) => {
            &&& shows_by_id(after.shows).contains_pair(row.id, row)
            &&& !shows_by_id(before.shows).contains_pair(row.id, row)
        },
        RowWriteView::PutEpisode(row) => {
            &&& episodes_by_id(after.episodes).contains_pair(row.id, row)
            &&& !holds_episode(before, after, row)
        },
    }
}

/// The episodes that are gone.
fn drop_episodes(before: &Store, after: &Store) -> (r: Vec<RowWrite>)
    requires
        before@.sound(),
    ensures
        ({
            let file = all_written(file_of(before@), writes_view(r@));
            let had = episodes_by_id(before@.episodes);
            &&& file.shows == shows_by_id(before@.shows)
            &&& forall|id: int|
                #[trigger] file.episodes.contains_key(id) <==> has_row_id(before@.episodes, id)
                    && has_row_id(after@.episodes, id)
            &&& forall|id: int|
                file.episodes.contains_key(id) ==> #[trigger] file.episodes[id] == had[id]
        }),
        forall|j: int| 0 <= j < r@.len() ==> is_needed(before@, after@, (#[trigger] r@[j])@),
{
    let ghost start = file_of(before@);
    let ghost had = episodes_by_id(before@.episodes);
    let mut r: Vec<RowWrite> = Vec::new();
    let mut i: usize = 0;
    assert(writes_view(r@) =~= seq![]);
    while i < before.episodes.len()
        invariant
            i <= before.episodes@.len(),
            before@.sound(),
            start == file_of(before@),
            had == episodes_by_id(before@.episodes),
            all_written(start, writes_view(r@)).shows == start.shows,
            forall|id: int|
                #![trigger all_written(start, writes_view(r@)).episodes.contains_key(id)]
                all_written(start, writes_view(r@)).episodes.contains_key(id) <==> has_row_id(
                    before@.episodes,
                    id,
                ) && (has_row_id(after@.episodes, id) || exists|k: int|
                    i <= k < before@.episodes.len() && (#[trigger] before@.episodes[k]).id == id),
            forall|id: int|
                all_written(start, writes_view(r@)).episodes.contains_key(id)
                    ==> #[trigger] all_written(start, writes_view(r@)).episodes[id] == had[id],
            forall|j: int| 0 <= j < r@.len() ==> is_needed(before@, after@, (#[trigger] r@[j])@),
        decreases before.episodes@.len() - i,
    {
        let ghost file = all_written(start, writes_view(r@));
        let ghost row = before@.episodes[i as int];
        assert(row == before.episodes@[i as int]@);
        assert(has_row_id(before@.episodes, row.id));
        let id = before.episodes[i].id;
        if find_episode(after, id, i).is_none() {
            let ghost writes = r@;
            r.push(RowWrite::DropEpisode(id));
            proof {
                lemma_one_more(start, writes, RowWrite::DropEpisode(id));
                let now = all_written(start, writes_view(r@));
                assert forall|e: int| now.episodes.contains_key(e) <==> has_row_id(
                    before@.episodes,
                    e,
                ) && (has_row_id(after@.episodes, e) || exists|k: int|
                    i + 1 <= k < before@.episodes.len() && (#[trigger] before@.episodes[k]).id
                        == e) by {
                    if exists|k: int|
                        i <= k < before@.episodes.len() && (#[trigger] before@.episodes[k]).id
                            == e {
                        let k = choose|k: int|
                            i <= k < before@.episodes.len() && (#[trigger] before@.episodes[k]).id
                                == e;
                        if k == i {
                            assert(e == id);
                        }
                    }
                    if e == id {
                        assert forall|k: int| i + 1 <= k < before@.episodes.len() implies (
                        #[trigger] before@.episodes[k]).id != e by {
                            assert(before@.episodes[i as int].id != before@.episodes[k].id);
                        }
                    }
                }
            }
        } else {
            assert(has_row_id(after@.episodes, id as int));
            proof {
                assert forall|e: int| file.episodes.contains_key(e) <==> has_row_id(
                    before@.episodes,
                    e,
                ) && (has_row_id(after@.episodes, e) || exists|k: int|
                    i + 1 <= k < before@.episodes.len() && (#[trigger] before@.episodes[k]).id
                        == e) by {
                    if exists|k: int|
                        i <= k < before@.episodes.len() && (#[trigger] before@.episodes[k]).id
                            == e {
                        let k = choose|k: int|
                            i <= k < before@.episodes.len() && (#[trigger] before@.episodes[k]).id
                                == e;
                        if k == i {
                            assert(e == id);
                        }
                    }
                }
            }
        }
        i += 1;
    }
    r
}

/// Does a show from `i` on have this id?
spec fn show_ahead(shows: Seq<rows::ShowRowView>, i: int, id: int) -> bool {
    exists|k: int| i <= k < shows.len() && (#[trigger] shows[k]).id == id
}

/// Does an episode from `i` on have this id?
spec fn row_ahead(episodes: Seq<rows::EpisodeRowView>, i: int, id: int) -> bool {
    exists|k: int| i <= k < episodes.len() && (#[trigger] episodes[k]).id == id
}

proof fn lemma_show_ahead(shows: Seq<rows::ShowRowView>, i: int)
    requires
        0 <= i < shows.len(),
        forall|a: int, b: int|
            0 <= a < b < shows.len() ==> (#[trigger] shows[a]).id != (#[trigger] shows[b]).id,
    ensures
        forall|id: int|
            #![trigger show_ahead(shows, i, id)]
            #![trigger show_ahead(shows, i + 1, id)]
            show_ahead(shows, i, id) <==> shows[i].id == id || show_ahead(shows, i + 1, id),
        !show_ahead(shows, i + 1, shows[i].id),
        records::has_show_id(shows, shows[i].id),
{
    assert forall|id: int|
        #![trigger show_ahead(shows, i, id)]
        #![trigger show_ahead(shows, i + 1, id)]
        show_ahead(shows, i, id) <==> shows[i].id == id || show_ahead(shows, i + 1, id) by {
        if show_ahead(shows, i, id) && shows[i].id != id {
            let k = choose|k: int| i <= k < shows.len() && (#[trigger] shows[k]).id == id;
            assert(i + 1 <= k < shows.len() && shows[k].id == id);
        }
    }
}

proof fn lemma_row_ahead(episodes: Seq<rows::EpisodeRowView>, i: int)
    requires
        0 <= i < episodes.len(),
        forall|a: int, b: int|
            0 <= a < b < episodes.len() ==> (#[trigger] episodes[a]).id != (
            #[trigger] episodes[b]).id,
    ensures
        forall|id: int|
            #![trigger row_ahead(episodes, i, id)]
            #![trigger row_ahead(episodes, i + 1, id)]
            row_ahead(episodes, i, id) <==> episodes[i].id == id || row_ahead(episodes, i + 1, id),
        !row_ahead(episodes, i + 1, episodes[i].id),
        has_row_id(episodes, episodes[i].id),
{
    assert forall|id: int|
        #![trigger row_ahead(episodes, i, id)]
        #![trigger row_ahead(episodes, i + 1, id)]
        row_ahead(episodes, i, id) <==> episodes[i].id == id || row_ahead(
            episodes,
            i + 1,
            id,
        ) by {
        if row_ahead(episodes, i, id) && episodes[i].id != id {
            let k = choose|k: int| i <= k < episodes.len() && (#[trigger] episodes[k]).id == id;
            assert(i + 1 <= k < episodes.len() && episodes[k].id == id);
        }
    }
}

/// Is an episode's row still there once what is gone has been deleted, with the shows up to `i`
/// looked at?
spec fn stays(
    before: records::StoreView,
    after: records::StoreView,
    i: int,
    id: int,
) -> bool {
    let sid = episodes_by_id(before.episodes)[id].show_id;
    &&& has_row_id(before.episodes, id)
    &&& has_row_id(after.episodes, id)
    &&& !(drops_show(before, after, sid) && !show_ahead(before.shows, i, sid))
}

/// The file once the episodes that are gone, and the shows up to `i` that are gone, are deleted.
spec fn dropped(
    before: records::StoreView,
    after: records::StoreView,
    i: int,
    file: FileView,
) -> bool {
    &&& forall|id: int|
        #[trigger] file.shows.contains_key(id) <==> records::has_show_id(before.shows, id) && (
        records::has_show_id(after.shows, id) || show_ahead(before.shows, i, id))
    &&& forall|id: int|
        file.shows.contains_key(id) ==> #[trigger] file.shows[id] == shows_by_id(before.shows)[id]
    &&& forall|id: int|
        #[trigger] file.episodes.contains_key(id) <==> stays(before, after, i, id)
    &&& forall|id: int|
        file.episodes.contains_key(id) ==> #[trigger] file.episodes[id] == episodes_by_id(
            before.episodes,
        )[id]
}

/// The shows that are gone.
fn drop_shows(before: &Store, after: &Store, r: &mut Vec<RowWrite>)
    requires
        before@.sound(),
        dropped(before@, after@, 0, all_written(file_of(before@), writes_view(old(r)@))),
        forall|j: int|
            0 <= j < old(r)@.len() ==> is_needed(before@, after@, (#[trigger] old(r)@[j])@),
    ensures
        dropped(
            before@,
            after@,
            before@.shows.len() as int,
            all_written(file_of(before@), writes_view(final(r)@)),
        ),
        forall|j: int|
            0 <= j < final(r)@.len() ==> is_needed(before@, after@, (#[trigger] final(r)@[j])@),
{
    let ghost start = file_of(before@);
    let mut i: usize = 0;
    while i < before.shows.len()
        invariant
            i <= before.shows@.len(),
            before@.sound(),
            start == file_of(before@),
            dropped(before@, after@, i as int, all_written(start, writes_view(r@))),
            forall|j: int| 0 <= j < r@.len() ==> is_needed(before@, after@, (#[trigger] r@[j])@),
        decreases before.shows@.len() - i,
    {
        let ghost file = all_written(start, writes_view(r@));
        let ghost had = episodes_by_id(before@.episodes);
        assert(before@.shows[i as int] == before.shows@[i as int]@);
        proof {
            lemma_show_ahead(before@.shows, i as int);
        }
        let id = before.shows[i].id;
        if find_show(after, id).is_none() {
            let ghost writes = r@;
            r.push(RowWrite::DropShow(id));
            proof {
                lemma_one_more(start, writes, RowWrite::DropShow(id));
                let now = all_written(start, writes_view(r@));
                assert forall|e: int| #[trigger] now.episodes.contains_key(e) <==> stays(
                    before@,
                    after@,
                    i + 1,
                    e,
                ) by {
                    assert(file.episodes.contains_key(e) <==> stays(before@, after@, i as int, e));
                    if file.episodes.contains_key(e) {
                        assert(file.episodes[e] == had[e]);
                    }
                }
                assert forall|e: int| now.episodes.contains_key(e) implies #[trigger] now.episodes[e]
                    == had[e] by {
                    assert(file.episodes.contains_key(e));
                    assert(file.episodes[e] == had[e]);
                }
                assert forall|s: int| now.shows.contains_key(s) implies #[trigger] now.shows[s]
                    == shows_by_id(before@.shows)[s] by {
                    assert(file.shows.contains_key(s));
                    assert(file.shows[s] == shows_by_id(before@.shows)[s]);
                }
                assert forall|s: int| #[trigger] now.shows.contains_key(s) <==> (
                records::has_show_id(before@.shows, s) && (records::has_show_id(after@.shows, s)
                    || show_ahead(before@.shows, i + 1, s))) by {
                    assert(file.shows.contains_key(s) <==> (records::has_show_id(before@.shows, s)
                        && (records::has_show_id(after@.shows, s) || show_ahead(
                        before@.shows,
                        i as int,
                        s,
                    ))));
                }
            }
        } else {
            assert(records::has_show_id(after@.shows, id as int));
            proof {
                assert forall|e: int| #[trigger] file.episodes.contains_key(e) <==> stays(
                    before@,
                    after@,
                    i + 1,
                    e,
                ) by {
                    assert(file.episodes.contains_key(e) <==> stays(before@, after@, i as int, e));
                }
                assert forall|s: int| #[trigger] file.shows.contains_key(s) <==> (
                records::has_show_id(before@.shows, s) && (records::has_show_id(after@.shows, s)
                    || show_ahead(before@.shows, i + 1, s))) by {}
            }
        }
        i += 1;
    }
}

/// The file once the shows up to `i` are as they are after.
spec fn shows_put(
    before: records::StoreView,
    after: records::StoreView,
    i: int,
    file: FileView,
) -> bool {
    &&& forall|id: int|
        #[trigger] file.shows.contains_key(id) <==> records::has_show_id(after.shows, id) && (
        records::has_show_id(before.shows, id) || !show_ahead(after.shows, i, id))
    &&& forall|id: int|
        file.shows.contains_key(id) ==> #[trigger] file.shows[id] == if show_ahead(
            after.shows,
            i,
            id,
        ) {
            shows_by_id(before.shows)[id]
        } else {
            shows_by_id(after.shows)[id]
        }
}

/// The shows that are new or different.
fn put_shows(before: &Store, after: &Store, r: &mut Vec<RowWrite>)
    requires
        before@.sound(),
        after@.sound(),
        shows_put(before@, after@, 0, all_written(file_of(before@), writes_view(old(r)@))),
        forall|j: int|
            0 <= j < old(r)@.len() ==> is_needed(before@, after@, (#[trigger] old(r)@[j])@),
    ensures
        all_written(file_of(before@), writes_view(final(r)@)).episodes == all_written(
            file_of(before@),
            writes_view(old(r)@),
        ).episodes,
        all_written(file_of(before@), writes_view(final(r)@)).shows == shows_by_id(after@.shows),
        forall|j: int|
            0 <= j < final(r)@.len() ==> is_needed(before@, after@, (#[trigger] final(r)@[j])@),
{
    let ghost start = file_of(before@);
    let ghost first = all_written(start, writes_view(r@));
    let mut i: usize = 0;
    while i < after.shows.len()
        invariant
            i <= after.shows@.len(),
            before@.sound(),
            after@.sound(),
            start == file_of(before@),
            all_written(start, writes_view(r@)).episodes == first.episodes,
            shows_put(before@, after@, i as int, all_written(start, writes_view(r@))),
            forall|j: int| 0 <= j < r@.len() ==> is_needed(before@, after@, (#[trigger] r@[j])@),
        decreases after.shows@.len() - i,
    {
        let ghost file = all_written(start, writes_view(r@));
        let ghost row = after@.shows[i as int];
        assert(row == after.shows@[i as int]@);
        proof {
            lemma_show_ahead(after@.shows, i as int);
            lemma_shows_by_id(after@.shows, i as int);
        }
        let known = match find_show(before, after.shows[i].id) {
            Some(k) => {
                proof {
                    lemma_shows_by_id(before@.shows, k as int);
                    assert(before@.shows[k as int] == before.shows@[k as int]@);
                }
                same_show(&before.shows[k], &after.shows[i])
            },
            None => false,
        };
        if !known {
            let ghost writes = r@;
            let row = after.shows[i].copy();
            r.push(RowWrite::PutShow(row));
            proof {
                lemma_one_more(start, writes, RowWrite::PutShow(row));
            }
        }
        proof {
            let now = all_written(start, writes_view(r@));
            assert forall|id: int| #[trigger] now.shows.contains_key(id) <==> (
            records::has_show_id(after@.shows, id) && (records::has_show_id(before@.shows, id)
                || !show_ahead(after@.shows, i + 1, id))) by {
                assert(file.shows.contains_key(id) <==> (records::has_show_id(after@.shows, id) && (
                records::has_show_id(before@.shows, id) || !show_ahead(
                    after@.shows,
                    i as int,
                    id,
                ))));
            }
            assert forall|id: int| now.shows.contains_key(id) implies #[trigger] now.shows[id]
                == if show_ahead(after@.shows, i + 1, id) {
                shows_by_id(before@.shows)[id]
            } else {
                shows_by_id(after@.shows)[id]
            } by {
                if id != row.id {
                    assert(file.shows.contains_key(id));
                    assert(file.shows[id] == now.shows[id]);
                } else if known {
                    assert(file.shows.contains_key(id));
                    assert(file.shows[id] == now.shows[id]);
                }
            }
        }
        i += 1;
    }
    assert(all_written(start, writes_view(r@)).shows =~= shows_by_id(after@.shows));
}

/// The file once the episodes up to `i` are as they are after.
spec fn episodes_put(
    before: records::StoreView,
    after: records::StoreView,
    i: int,
    file: FileView,
) -> bool {
    let end = before.shows.len() as int;
    &&& forall|id: int|
        #[trigger] file.episodes.contains_key(id) <==> has_row_id(after.episodes, id) && (stays(
            before,
            after,
            end,
            id,
        ) || !row_ahead(after.episodes, i, id))
    &&& forall|id: int|
        file.episodes.contains_key(id) ==> #[trigger] file.episodes[id] == if row_ahead(
            after.episodes,
            i,
            id,
        ) {
            episodes_by_id(before.episodes)[id]
        } else {
            episodes_by_id(after.episodes)[id]
        }
}

/// The episodes that are new or different.
fn put_episodes(before: &Store, after: &Store, r: &mut Vec<RowWrite>)
    requires
        before@.sound(),
        after@.sound(),
        episodes_put(before@, after@, 0, all_written(file_of(before@), writes_view(old(r)@))),
        forall|j: int|
            0 <= j < old(r)@.len() ==> is_needed(before@, after@, (#[trigger] old(r)@[j])@),
    ensures
        all_written(file_of(before@), writes_view(final(r)@)).shows == all_written(
            file_of(before@),
            writes_view(old(r)@),
        ).shows,
        all_written(file_of(before@), writes_view(final(r)@)).episodes == episodes_by_id(
            after@.episodes,
        ),
        forall|j: int|
            0 <= j < final(r)@.len() ==> is_needed(before@, after@, (#[trigger] final(r)@[j])@),
{
    let ghost start = file_of(before@);
    let ghost first = all_written(start, writes_view(r@));
    let ghost end = before@.shows.len() as int;
    let mut i: usize = 0;
    while i < after.episodes.len()
        invariant
            i <= after.episodes@.len(),
            before@.sound(),
            after@.sound(),
            start == file_of(before@),
            end == before@.shows.len(),
            all_written(start, writes_view(r@)).shows == first.shows,
            episodes_put(before@, after@, i as int, all_written(start, writes_view(r@))),
            forall|j: int| 0 <= j < r@.len() ==> is_needed(before@, after@, (#[trigger] r@[j])@),
        decreases after.episodes@.len() - i,
    {
        let ghost file = all_written(start, writes_view(r@));
        let ghost row = after@.episodes[i as int];
        assert(row == after.episodes@[i as int]@);
        proof {
            lemma_row_ahead(after@.episodes, i as int);
            lemma_episodes_by_id(after@.episodes, i as int);
        }
        let sid = after.episodes[i].show_id;
        let gone = match find_show(before, sid) {
            Some(_) => find_show(after, sid).is_none(),
            None => false,
        };
        assert(gone == drops_show(before@, after@, row.show_id));
        let known = match find_episode(before, after.episodes[i].id, i) {
            Some(k) => {
                proof {
                    lemma_episodes_by_id(before@.episodes, k as int);
                    assert(before@.episodes[k as int] == before.episodes@[k as int]@);
                }
                same_episode(&before.episodes[k], &after.episodes[i])
            },
            None => false,
        };
        let held = known && !gone;
        assert(held == holds_episode(before@, after@, row));
        if !held {
            let ghost writes = r@;
            let row = after.episodes[i].copy();
            r.push(RowWrite::PutEpisode(row));
            proof {
                lemma_one_more(start, writes, RowWrite::PutEpisode(row));
            }
        }
        proof {
            let now = all_written(start, writes_view(r@));
            assert forall|id: int| #[trigger] now.episodes.contains_key(id) <==> (has_row_id(
                after@.episodes,
                id,
            ) && (stays(before@, after@, end, id) || !row_ahead(after@.episodes, i + 1, id))) by {
                assert(file.episodes.contains_key(id) <==> (has_row_id(after@.episodes, id) && (
                stays(before@, after@, end, id) || !row_ahead(after@.episodes, i as int, id))));
                if id == row.id && held {
                    assert(stays(before@, after@, end, id));
                }
            }
            assert forall|id: int| now.episodes.contains_key(id) implies #[trigger] now.episodes[id]
                == if row_ahead(after@.episodes, i + 1, id) {
                episodes_by_id(before@.episodes)[id]
            } else {
                episodes_by_id(after@.episodes)[id]
            } by {
                if id != row.id {
                    assert(file.episodes.contains_key(id));
                    assert(file.episodes[id] == now.episodes[id]);
                } else if held {
                    assert(file.episodes.contains_key(id));
                    assert(file.episodes[id] == now.episodes[id]);
                }
            }
        }
        i += 1;
    }
    assert(all_written(start, writes_view(r@)).episodes =~= episodes_by_id(after@.episodes));
}

/// The row writes that turn the file of one store into the file of another: done in this order they
/// leave exactly the other's rows, and no row is written that is already as it should be.
pub fn row_writes(before: &Store, after: &Store) -> (r: Vec<RowWrite>)
    requires
        before@.sound(),
        after@.sound(),
    ensures
        all_written(file_of(before@), writes_view(r@)) == file_of(after@),
        forall|j: int| 0 <= j < r@.len() ==> is_needed(before@, after@, (#[trigger] r@[j])@),
        before@ == after@ ==> r@.len() == 0,
{
    let ghost start = file_of(before@);
    let ghost end = before@.shows.len() as int;
    let mut r = drop_episodes(before, after);
    proof {
        let file = all_written(start, writes_view(r@));
        assert forall|id: int| records::has_show_id(before@.shows, id) implies #[trigger] show_ahead(
            before@.shows,
            0,
            id,
        ) by {}
        assert forall|id: int| #[trigger] file.episodes.contains_key(id) <==> stays(
            before@,
            after@,
            0,
            id,
        ) by {
            let sid = episodes_by_id(before@.episodes)[id].show_id;
            assert(drops_show(before@, after@, sid) ==> show_ahead(before@.shows, 0, sid));
        }
        assert forall|id: int| #[trigger] file.shows.contains_key(id) <==> (records::has_show_id(
            before@.shows,
            id,
        ) && (records::has_show_id(after@.shows, id) || show_ahead(before@.shows, 0, id))) by {
            assert(records::has_show_id(before@.shows, id) ==> show_ahead(before@.shows, 0, id));
        }
        assert(dropped(before@, after@, 0, file));
    }
    drop_shows(before, after, &mut r);
    proof {
        let file = all_written(start, writes_view(r@));
        assert forall|id: int| #[trigger] file.shows.contains_key(id) <==> (records::has_show_id(
            after@.shows,
            id,
        ) && (records::has_show_id(before@.shows, id) || !show_ahead(after@.shows, 0, id))) by {
            assert(!show_ahead(before@.shows, end, id));
            assert(records::has_show_id(after@.shows, id) ==> show_ahead(after@.shows, 0, id));
        }
        assert forall|id: int| file.shows.contains_key(id) implies show_ahead(
            after@.shows,
            0,
            id,
        ) by {
            assert(records::has_show_id(after@.shows, id) ==> show_ahead(after@.shows, 0, id));
        }
        assert(shows_put(before@, after@, 0, file));
    }
    let ghost mid = all_written(start, writes_view(r@));
    put_shows(before, after, &mut r);
    proof {
        let file = all_written(start, writes_view(r@));
        assert(file.episodes == mid.episodes);
        assert forall|id: int| #[trigger] file.episodes.contains_key(id) <==> (has_row_id(
            after@.episodes,
            id,
        ) && (stays(before@, after@, end, id) || !row_ahead(after@.episodes, 0, id))) by {
            assert(mid.episodes.contains_key(id) <==> stays(before@, after@, end, id));
            assert(has_row_id(after@.episodes, id) ==> row_ahead(after@.episodes, 0, id));
        }
        assert forall|id: int| file.episodes.contains_key(id) implies #[trigger] file.episodes[id]
            == if row_ahead(after@.episodes, 0, id) {
            episodes_by_id(before@.episodes)[id]
        } else {
            episodes_by_id(after@.episodes)[id]
        } by {
            assert(mid.episodes.contains_key(id));
            assert(has_row_id(after@.episodes, id) ==> row_ahead(after@.episodes, 0, id));
            assert(mid.episodes[id] == episodes_by_id(before@.episodes)[id]);
        }
        assert(episodes_put(before@, after@, 0, file));
    }
    put_episodes(before, after, &mut r);
    proof {
        if before@ == after@ && r@.len() > 0 {
            law_no_change_no_write(before@, r@[0]@);
        }
    }
    r
}

/// A store that did not change needs no write.
pub proof fn law_no_change_no_write(store: records::StoreView, write: RowWriteView)
    ensures
        !is_needed(store, store, write),
{
}

/// A file says all that a store holds: two sound stores with the same file have the same rows.
pub proof fn law_the_file_says_it_all(a: records::StoreView, b: records::StoreView, k: int)
    requires
        a.sound(),
        b.sound(),
        file_of(a) == file_of(b),
    ensures
        0 <= k < a.shows.len() ==> b.shows.contains(a.shows[k]),
        0 <= k < a.episodes.len() ==> b.episodes.contains(a.episodes[k]),
{
    if 0 <= k < a.shows.len() {
        let id = a.shows[k].id;
        lemma_shows_by_id(a.shows, k);
        assert(shows_by_id(b.shows).contains_key(id));
        let m = choose|m: int| 0 <= m < b.shows.len() && (#[trigger] b.shows[m]).id == id;
        assert(b.shows[m] == a.shows[k]);
    }
    if 0 <= k < a.episodes.len() {
        let id = a.episodes[k].id;
        lemma_episodes_by_id(a.episodes, k);
        assert(episodes_by_id(b.episodes).contains_key(id));
        let m = choose|m: int| 0 <= m < b.episodes.len() && (#[trigger] b.episodes[m]).id == id;
        assert(b.episodes[m] == a.episodes[k]);
    }
}

} // verus!
