//! What the store promises of each thing that it keeps, reads and lists.
use vstd::prelude::*;

use crate::number;
use crate::store::changes;
use crate::store::laws;
use crate::store::opening;
use crate::store::order;
use crate::store::records;
use crate::store::rows;
use crate::store::writes;
use crate::text;

verus! {

// ── Reading ──────────────────────────────────────────────────────────────

/// An episode reads as its row keeps it, under the name of its show.
pub proof fn law_an_episode_reads_as_its_row(row: rows::EpisodeRowView, show: Seq<char>)
    ensures
        ({
            let episode = rows::episode_of(row, show);
            &&& episode.id == row.id
            &&& episode.show == show
            &&& episode.about == row.about
            &&& episode.position == row.position
            &&& episode.played == row.played
            &&& episode.download_path == row.download_path
        }),
{
}

/// The episode with the id of a row reads as that row, under the name of the show that it belongs to.
pub proof fn law_an_episode_is_found_by_its_id(store: records::StoreView, k: int, i: int)
    requires
        store.sound(),
        0 <= k < store.episodes.len(),
        0 <= i < store.shows.len(),
        store.shows[i].id == store.episodes[k].show_id,
    ensures
        changes::episode_with_id(store, store.episodes[k].id) matches Some(e) && e.id
            == store.episodes[k].id && e.show == store.shows[i].name && e.about
            == store.episodes[k].about && e.position == store.episodes[k].position && e.played
            == store.episodes[k].played && e.download_path == store.episodes[k].download_path,
{
    laws::law_episode_with_id(store, k);
    let id = store.episodes[k].show_id;
    assert(records::has_show_id(store.shows, id));
    changes::lemma_show_id_index(store.shows, id);
    let at = changes::show_id_index(store.shows, id)->Some_0;
    if at < i {
        assert(store.shows[at].id != store.shows[i].id);
    } else if i < at {
        assert(store.shows[i].id != store.shows[at].id);
    }
}

/// No episode is found by an id that no row has.
pub proof fn law_no_row_no_episode(store: records::StoreView, id: int)
    requires
        forall|k: int| 0 <= k < store.episodes.len() ==> (#[trigger] store.episodes[k]).id != id,
    ensures
        changes::episode_with_id(store, id) is None,
    decreases store.episodes.len(),
{
    if store.episodes.len() > 0 {
        let rest = records::StoreView { episodes: store.episodes.skip(1), ..store };
        assert forall|k: int| 0 <= k < rest.episodes.len() implies (#[trigger] rest.episodes[k]).id
            != id by {
            assert(rest.episodes[k] == store.episodes[k + 1]);
        }
        law_no_row_no_episode(rest, id);
        assert(store.episodes[0].id != id);
    }
}

/// Among the episodes that a URL or path could mean, the first is taken: the one before which no row
/// with a show has that URL or that path.
pub proof fn law_the_first_with_the_uri(store: records::StoreView, uri: Seq<char>, k: int, i: int)
    requires
        store.sound(),
        0 <= k < store.episodes.len(),
        0 <= i < store.shows.len(),
        store.shows[i].id == store.episodes[k].show_id,
        store.episodes[k].about.url == uri || store.episodes[k].download_path == Some(uri),
        forall|j: int|
            0 <= j < k && records::has_show_id(store.shows, store.episodes[j].show_id) ==> (
            #[trigger] store.episodes[j]).about.url != uri && store.episodes[j].download_path
                != Some(uri),
    ensures
        changes::episode_with_uri(store, uri) matches Some(e) && e.id == store.episodes[k].id
            && e.show == store.shows[i].name,
{
    lemma_the_first_wanted(store.shows, store.episodes, changes::has_uri(uri), k, i);
}

proof fn lemma_the_first_wanted(
    shows: Seq<rows::ShowRowView>,
    episodes: Seq<rows::EpisodeRowView>,
    wanted: spec_fn(rows::EpisodeRowView) -> bool,
    k: int,
    i: int,
)
    requires
        0 <= k < episodes.len(),
        0 <= i < shows.len(),
        shows[i].id == episodes[k].show_id,
        forall|a: int, b: int|
            0 <= a < b < shows.len() ==> (#[trigger] shows[a]).id != (#[trigger] shows[b]).id,
        wanted(episodes[k]),
        forall|j: int|
            0 <= j < k && records::has_show_id(shows, episodes[j].show_id) ==> !wanted(
                #[trigger] episodes[j],
            ),
    ensures
        changes::first_episode(shows, episodes, wanted) matches Some(e) && e.id == episodes[k].id
            && e.show == shows[i].name,
    decreases k,
{
    changes::lemma_show_id_index(shows, episodes[0].show_id);
    if k == 0 {
        assert(records::has_show_id(shows, episodes[0].show_id));
        let at = changes::show_id_index(shows, episodes[0].show_id)->Some_0;
        if at < i {
            assert(shows[at].id != shows[i].id);
        } else if i < at {
            assert(shows[i].id != shows[at].id);
        }
    } else {
        let rest = episodes.skip(1);
        if changes::show_id_index(shows, episodes[0].show_id) is Some {
            let at = changes::show_id_index(shows, episodes[0].show_id)->Some_0;
            assert(shows[at].id == episodes[0].show_id);
            assert(records::has_show_id(shows, episodes[0].show_id));
            assert(!wanted(episodes[0]));
        }
        assert forall|j: int|
            0 <= j < k - 1 && records::has_show_id(shows, rest[j].show_id) implies !wanted(
            #[trigger] rest[j],
        ) by {
            assert(rest[j] == episodes[j + 1]);
        }
        assert(rest[k - 1] == episodes[k]);
        lemma_the_first_wanted(shows, rest, wanted, k - 1, i);
    }
}

/// A show is found by its name, and by no other.
pub proof fn law_a_show_is_found_by_its_name(
    shows: Seq<rows::ShowRowView>,
    name: Seq<char>,
    k: int,
)
    ensures
        records::show_index(shows, name) matches Some(i) ==> 0 <= i < shows.len() && shows[i].name
            == name,
        0 <= k < shows.len() && shows[k].name == name ==> records::show_index(shows, name) is Some,
{
    records::lemma_show_index(shows, name);
}

/// A show reads as its row keeps it, with a count of its episodes and of those that have not been
/// heard: every row of the show counts once, and no row of another.
pub proof fn law_a_show_reads_as_its_row(
    row: rows::ShowRowView,
    episodes: Seq<rows::EpisodeRowView>,
    more: rows::EpisodeRowView,
)
    ensures
        ({
            let show = records::show_of(row, episodes);
            let after = records::show_of(row, episodes.push(more));
            let none = records::show_of(row, seq![]);
            &&& show.id == row.id
            &&& show.name == row.name
            &&& show.feed_url == row.feed_url
            &&& show.title == row.title
            &&& show.image_url == row.image_url
            &&& show.refreshed_at == row.refreshed_at
            &&& none.episodes == 0 && none.unplayed == 0
            &&& more.show_id == row.id ==> after.episodes == show.episodes + 1
            &&& more.show_id != row.id ==> after.episodes == show.episodes
            &&& more.show_id == row.id && !more.played ==> after.unplayed == show.unplayed + 1
            &&& more.show_id != row.id || more.played ==> after.unplayed == show.unplayed
        }),
{
    assert(episodes.push(more).drop_last() =~= episodes);
}

// ── Listing ──────────────────────────────────────────────────────────────

/// What holds the same things the same number of times has the same length and holds the same.
proof fn lemma_same_things<A>(a: Seq<A>, b: Seq<A>, x: A)
    requires
        a.to_multiset() == b.to_multiset(),
    ensures
        a.len() == b.len(),
        a.contains(x) <==> b.contains(x),
{
    a.to_multiset_ensures();
    b.to_multiset_ensures();
    assert(a.contains(x) <==> a.to_multiset().count(x) > 0);
    assert(b.contains(x) <==> b.to_multiset().count(x) > 0);
}

proof fn lemma_count_is_filter(episodes: Seq<rows::EpisodeRowView>, show_id: int)
    ensures
        records::count_episodes(episodes, show_id, false) == episodes.filter(
            |row: rows::EpisodeRowView| row.show_id == show_id,
        ).len(),
    decreases episodes.len(),
{
    reveal(Seq::filter);
    if episodes.len() > 0 {
        lemma_count_is_filter(episodes.drop_last(), show_id);
    }
}

/// Does `a` come before `b` in a list, newest first? A later date does, a date does before none, and
/// among equal dates the larger id.
pub open spec fn listed_before(a: rows::EpisodeView, b: rows::EpisodeView) -> bool {
    match (a.about.published_at, b.about.published_at) {
        (Some(x), Some(y)) => text::text_le(y, x) && (x == y ==> a.id >= b.id),
        (Some(_), None) => true,
        (None, None) => a.id >= b.id,
        (None, Some(_)) => false,
    }
}

/// A show's episodes are listed newest first: as many as were asked for, but at least one and at most
/// a thousand, and no more than there are. Each is a row of the show, under its name, and what is left
/// out would have come after everything that is listed.
pub proof fn law_the_newest_are_listed(
    store: records::StoreView,
    name: Seq<char>,
    limit: int,
    s: int,
    i: int,
    j: int,
    k: int,
)
    requires
        store.sound(),
        0 <= s < store.shows.len(),
        store.shows[s].name == name,
    ensures
        ({
            let list = records::listed_episodes(store, name, limit);
            let all = records::show_of(store.shows[s], store.episodes).episodes;
            let most = if limit < 1 {
                1
            } else if limit > 1000 {
                1000
            } else {
                limit
            };
            &&& list.len() == if all < most {
                all as int
            } else {
                most
            }
            &&& 0 <= i < j < list.len() ==> listed_before(list[i], list[j])
            &&& 0 <= i < list.len() ==> list[i] == rows::episode_of(
                records::ranked_rows(store, name)[i],
                name,
            )
            &&& 0 <= i < list.len() ==> exists|r: int|
                0 <= r < store.episodes.len() && (#[trigger] store.episodes[r]).show_id
                    == store.shows[s].id && list[i] == rows::episode_of(store.episodes[r], name)
            &&& 0 <= k < store.episodes.len() && store.episodes[k].show_id == store.shows[s].id
                && !list.contains(rows::episode_of(store.episodes[k], name)) ==> (0 <= i
                < list.len() ==> listed_before(list[i], rows::episode_of(store.episodes[k], name)))
        }),
{
    laws::lemma_row_named(store.shows, s);
    records::law_newest_first(store, name);
    let id = store.shows[s].id;
    let mine = |row: rows::EpisodeRowView| row.show_id == store.shows[s].id;
    let kept = store.episodes.filter(mine);
    let ranked = records::ranked_rows(store, name);
    let list = records::listed_episodes(store, name, limit);
    lemma_count_is_filter(store.episodes, id);
    assert(mine =~= |row: rows::EpisodeRowView| row.show_id == id);
    assert(ranked == order::arranged(kept, records::newest_first()));
    assert(ranked.to_multiset() == kept.to_multiset());
    lemma_same_things(ranked, kept, store.episodes[k]);
    if 0 <= i < j < list.len() {
        assert(list[i] == rows::episode_of(ranked[i], name));
        assert(list[j] == rows::episode_of(ranked[j], name));
        lemma_ranked(ranked, i, j);
    }
    if 0 <= i < list.len() {
        assert(list[i] == rows::episode_of(ranked[i], name));
        assert(ranked.contains(ranked[i]));
        lemma_same_things(ranked, kept, ranked[i]);
        assert(kept.contains(ranked[i]));
        let at = choose|at: int| 0 <= at < kept.len() && kept[at] == ranked[i];
        store.episodes.lemma_filter_contains_rev(mine, ranked[i]);
        assert(store.episodes.contains(ranked[i]));
        let r = choose|r: int| 0 <= r < store.episodes.len() && store.episodes[r] == ranked[i];
        store.episodes.lemma_filter_pred(mine, at);
        assert(store.episodes[r].show_id == id);
    }
    if 0 <= k < store.episodes.len() && store.episodes[k].show_id == id && !list.contains(
        rows::episode_of(store.episodes[k], name),
    ) && 0 <= i < list.len() {
        store.episodes.lemma_filter_contains(mine, k);
        assert(kept.contains(store.episodes[k]));
        assert(ranked.contains(store.episodes[k]));
        let m = choose|m: int| 0 <= m < ranked.len() && ranked[m] == store.episodes[k];
        if m < list.len() {
            assert(list[m] == rows::episode_of(ranked[m], name));
            assert(list.contains(list[m]));
        }
        lemma_ranked(ranked, i, m);
    }
}

proof fn lemma_ranked(ranked: Seq<rows::EpisodeRowView>, i: int, j: int)
    requires
        order::in_order(ranked, records::newest_first()),
        0 <= i < j < ranked.len(),
    ensures
        forall|name: Seq<char>|
            listed_before(
                #[trigger] rows::episode_of(ranked[i], name),
                rows::episode_of(ranked[j], name),
            ),
{
    let ahead = records::newest_first();
    assert(!ahead(ranked[j], ranked[i]));
}

/// A show that is not there lists nothing.
pub proof fn law_no_show_no_list(store: records::StoreView, name: Seq<char>, limit: int)
    requires
        forall|k: int| 0 <= k < store.shows.len() ==> (#[trigger] store.shows[k]).name != name,
    ensures
        records::listed_episodes(store, name, limit).len() == 0,
{
    records::lemma_show_index(store.shows, name);
}

/// Shows are listed by name, each of them once: the list is as long as there are shows, a name never
/// stands behind a later one, and every show is there.
pub proof fn law_shows_are_listed_by_name(
    shows: Seq<rows::ShowRowView>,
    i: int,
    j: int,
    k: int,
)
    ensures
        ({
            let list = order::arranged(shows, records::by_name());
            &&& list.len() == shows.len()
            &&& 0 <= i < j < list.len() ==> text::text_le(list[i].name, list[j].name)
            &&& 0 <= k < shows.len() ==> list.contains(shows[k])
            &&& 0 <= k < list.len() ==> shows.contains(list[k])
        }),
{
    records::law_shows_by_name(shows);
    let ahead = records::by_name();
    let list = order::arranged(shows, ahead);
    assert(list.to_multiset() == shows.to_multiset());
    lemma_same_things(list, shows, shows[k]);
    lemma_same_things(list, shows, list[k]);
    if 0 <= i < j < list.len() {
        assert(!ahead(list[j], list[i]));
    }
    if 0 <= k < shows.len() {
        assert(shows.contains(shows[k]));
    }
    if 0 <= k < list.len() {
        assert(list.contains(list[k]));
    }
}

// ── Names and ids ────────────────────────────────────────────────────────

/// A show's name has one to sixty-four characters, each an ASCII letter or digit, a dash, an
/// underscore or a dot, and does not begin with a dot; and any such text is a name.
pub proof fn law_what_a_name_is(name: Seq<char>)
    ensures
        records::is_valid_name(name) <==> 1 <= name.len() <= 64 && name[0] != '.' && forall|i: int|
            0 <= i < name.len() ==> ('0' <= #[trigger] name[i] <= '9' || 'a' <= name[i] <= 'z'
                || 'A' <= name[i] <= 'Z' || name[i] == '-' || name[i] == '_' || name[i] == '.'),
{
    if records::is_valid_name(name) {
        assert forall|i: int| 0 <= i < name.len() implies ('0' <= #[trigger] name[i] <= '9' || 'a'
            <= name[i] <= 'z' || 'A' <= name[i] <= 'Z' || name[i] == '-' || name[i] == '_'
            || name[i] == '.') by {
            assert(records::name_char(name[i]));
        }
    }
}

/// The first id is one, and any other is one more than the largest there is.
pub proof fn law_ids_count_up(ids: Seq<int>)
    ensures
        ids.len() == 0 ==> records::next_id(ids) == 1,
        ids.len() > 0 ==> exists|i: int|
            0 <= i < ids.len() && #[trigger] ids[i] + 1 == records::next_id(ids),
        forall|i: int| 0 <= i < ids.len() ==> #[trigger] ids[i] < records::next_id(ids),
{
    records::law_next_id_is_new(ids);
    if ids.len() > 0 {
        records::lemma_largest(ids);
        let i = choose|i: int| 0 <= i < ids.len() && #[trigger] ids[i] == records::largest(ids);
        assert(ids[i] + 1 == records::next_id(ids));
    }
}

// ── Changing ─────────────────────────────────────────────────────────────

/// A show is refused for a name that is none, for a feed that another show is read from, and when the
/// ids have run out, in this order; and for nothing else.
pub proof fn law_when_a_show_is_refused(
    store: records::StoreView,
    name: Seq<char>,
    feed_url: Seq<char>,
)
    requires
        store.sound(),
    ensures
        ({
            let error = changes::add_show_error(store.shows, name, feed_url);
            let taken = exists|k: int|
                0 <= k < store.shows.len() && (#[trigger] store.shows[k]).feed_url == feed_url
                    && store.shows[k].name != name;
            let known = exists|k: int|
                0 <= k < store.shows.len() && (#[trigger] store.shows[k]).name == name;
            let full = exists|k: int|
                0 <= k < store.shows.len() && (#[trigger] store.shows[k]).id
                    >= 0x7fff_ffff_ffff_ffff;
            &&& !records::is_valid_name(name) ==> error == Some(records::StoreErrorView::BadName)
            &&& records::is_valid_name(name) && taken ==> error == Some(
                records::StoreErrorView::FeedTaken(feed_url),
            )
            &&& records::is_valid_name(name) && !taken && !known && full ==> error == Some(
                records::StoreErrorView::NoMoreIds,
            )
            &&& records::is_valid_name(name) && !taken && (known || !full) ==> error is None
        }),
{
    let shows = store.shows;
    records::lemma_show_index(shows, name);
    let at = records::show_index(shows, name);
    let ids = records::show_ids(shows);
    law_ids_count_up(ids);
    if changes::feed_taken(shows, feed_url, at) {
        let k = choose|k: int|
            0 <= k < shows.len() && at != Some(k) && (#[trigger] shows[k]).feed_url == feed_url;
        if shows[k].name == name {
            laws::lemma_row_named(shows, k);
        }
        assert(shows[k].name != name);
    }
    if exists|k: int|
        0 <= k < shows.len() && (#[trigger] shows[k]).feed_url == feed_url && shows[k].name
            != name {
        let k = choose|k: int|
            0 <= k < shows.len() && (#[trigger] shows[k]).feed_url == feed_url && shows[k].name
                != name;
        assert(at != Some(k));
        assert(changes::feed_taken(shows, feed_url, at));
    }
    if exists|k: int|
        0 <= k < shows.len() && (#[trigger] shows[k]).id >= 0x7fff_ffff_ffff_ffff {
        let k = choose|k: int|
            0 <= k < shows.len() && (#[trigger] shows[k]).id >= 0x7fff_ffff_ffff_ffff;
        assert(ids[k] == shows[k].id);
    }
    if ids.len() > 0 {
        let k = choose|k: int|
            0 <= k < ids.len() && #[trigger] ids[k] + 1 == records::next_id(ids);
        assert(ids[k] == shows[k].id);
    }
}

/// A show with a new name is added behind the others, under a new id, as it was given: it has no
/// title, no picture, and has not been read. The others stay as they are.
pub proof fn law_a_new_show(
    store: records::StoreView,
    name: Seq<char>,
    feed_url: Seq<char>,
    at: Seq<char>,
    k: int,
)
    requires
        forall|i: int| 0 <= i < store.shows.len() ==> (#[trigger] store.shows[i]).name != name,
    ensures
        ({
            let after = changes::with_show(store.shows, name, feed_url, at);
            let row = after.last();
            &&& after.len() == store.shows.len() + 1
            &&& row.name == name
            &&& row.feed_url == feed_url
            &&& row.added_at == at
            &&& row.title is None && row.image_url is None && row.refreshed_at is None
            &&& 0 <= k < store.shows.len() ==> after[k] == store.shows[k] && row.id
                > store.shows[k].id
            &&& store.shows.len() == 0 ==> row.id == 1
        }),
{
    records::lemma_show_index(store.shows, name);
    let ids = records::show_ids(store.shows);
    law_ids_count_up(ids);
    if 0 <= k < store.shows.len() {
        assert(ids[k] == store.shows[k].id);
    }
}

/// Adding a show under a name that is there changes the feed that it is read from, and nothing else.
pub proof fn law_a_known_show(
    store: records::StoreView,
    s: int,
    feed_url: Seq<char>,
    at: Seq<char>,
    k: int,
)
    requires
        store.sound(),
        0 <= s < store.shows.len(),
    ensures
        ({
            let had = store.shows[s];
            let after = changes::with_show(store.shows, had.name, feed_url, at);
            let row = after[s];
            &&& after.len() == store.shows.len()
            &&& row.id == had.id && row.name == had.name && row.feed_url == feed_url
            &&& row.title == had.title && row.image_url == had.image_url
            &&& row.added_at == had.added_at && row.refreshed_at == had.refreshed_at
            &&& 0 <= k < store.shows.len() && k != s ==> after[k] == store.shows[k]
        }),
{
    laws::lemma_row_named(store.shows, s);
}

/// Once its feed has been read, a show has the feed's title and picture, where the feed gives them,
/// and the time of the reading. What it goes by and where it is read from stay.
pub proof fn law_a_refreshed_show(
    row: rows::ShowRowView,
    title: Option<Seq<char>>,
    image_url: Option<Seq<char>>,
    at: Seq<char>,
)
    ensures
        ({
            let after = changes::refreshed(row, title, image_url, at);
            &&& after.id == row.id && after.name == row.name
            &&& after.feed_url == row.feed_url && after.added_at == row.added_at
            &&& after.refreshed_at == Some(at)
            &&& title is Some ==> after.title == title
            &&& title is None ==> after.title == row.title
            &&& image_url is Some ==> after.image_url == image_url
            &&& image_url is None ==> after.image_url == row.image_url
        }),
{
}

/// Reading a feed leaves every episode that the feed does not name as it was; and one that it adds
/// starts at its beginning, unheard and without a download, under an id larger than those that were
/// there.
pub proof fn law_what_a_feed_adds(
    episodes: Seq<rows::EpisodeRowView>,
    show_id: int,
    feed: Seq<rows::NewEpisodeView>,
    i: int,
    k: int,
)
    ensures
        ({
            let after = changes::with_episodes(episodes, show_id, feed);
            &&& 0 <= k < episodes.len() && (forall|f: int|
                0 <= f < feed.len() ==> (#[trigger] feed[f]).guid != episodes[k].about.guid)
                ==> after[k] == episodes[k]
            &&& episodes.len() <= i < after.len() ==> {
                &&& after[i].show_id == show_id
                &&& after[i].position == 0
                &&& !after[i].played
                &&& after[i].download_path is None
                &&& 0 <= k < episodes.len() ==> after[i].id > episodes[k].id
            }
        }),
    decreases feed.len(),
{
    if feed.len() > 0 {
        let less = feed.drop_last();
        let before = changes::with_episodes(episodes, show_id, less);
        let after = changes::with_episodes(episodes, show_id, feed);
        law_what_a_feed_adds(episodes, show_id, less, i, k);
        changes::law_refresh_keeps_progress(episodes, show_id, less);
        changes::lemma_guid_index(before, show_id, feed.last().guid);
        let ids = records::episode_ids(before);
        records::law_next_id_is_new(ids);
        if 0 <= k < episodes.len() {
            assert(before[k].about.guid == episodes[k].about.guid);
            assert(ids[k] == before[k].id);
            assert(before[k].id == episodes[k].id);
            if forall|f: int|
                0 <= f < feed.len() ==> (#[trigger] feed[f]).guid != episodes[k].about.guid {
                assert forall|f: int| 0 <= f < less.len() implies (#[trigger] less[f]).guid
                    != episodes[k].about.guid by {
                    assert(less[f] == feed[f]);
                }
                assert(feed[feed.len() - 1].guid != episodes[k].about.guid);
            }
        }
    }
}

/// An episode of a feed is known if its show has a row with its guid, whatever else is different, and
/// counts as new if it has none.
pub proof fn law_new_by_guid(
    episodes: Seq<rows::EpisodeRowView>,
    show_id: int,
    feed: Seq<rows::NewEpisodeView>,
    about: rows::NewEpisodeView,
)
    ensures
        ({
            let before = changes::with_episodes(episodes, show_id, feed);
            let added = changes::new_episodes(episodes, show_id, feed.push(about))
                - changes::new_episodes(episodes, show_id, feed);
            let known = exists|k: int|
                0 <= k < before.len() && (#[trigger] before[k]).show_id == show_id
                    && before[k].about.guid == about.guid;
            &&& known ==> added == 0
            &&& !known ==> added == 1
            &&& changes::new_episodes(episodes, show_id, seq![]) == 0
        }),
{
    assert(feed.push(about).drop_last() =~= feed);
    assert(feed.push(about).last() == about);
    let before = changes::with_episodes(episodes, show_id, feed);
    changes::lemma_guid_index(before, show_id, about.guid);
    if let Some(k) = changes::guid_index(before, show_id, about.guid) {
        assert(before[k].about.guid == about.guid);
    }
}

/// Ids fit as long as none is larger than sixty-three bits hold.
pub proof fn law_when_ids_fit(episodes: Seq<rows::EpisodeRowView>)
    ensures
        changes::ids_fit(episodes) <==> forall|i: int|
            0 <= i < episodes.len() ==> (#[trigger] episodes[i]).id <= 0x7fff_ffff_ffff_ffff,
{
}

/// Noting a position or a download changes that of the one episode, and nothing else of it or of any
/// other.
pub proof fn law_one_row_changes(
    episodes: Seq<rows::EpisodeRowView>,
    id: int,
    position: int,
    played: bool,
    path: Option<Seq<char>>,
    k: int,
)
    requires
        0 <= k < episodes.len(),
    ensures
        ({
            let had = episodes[k];
            let noted = changes::with_position(episodes, id, position, played);
            let saved = changes::with_download(episodes, id, path);
            &&& noted.len() == episodes.len() && saved.len() == episodes.len()
            &&& had.id != id ==> noted[k] == had && saved[k] == had
            &&& had.id == id ==> {
                &&& position >= 0 ==> noted[k].position == position
                &&& position < 0 ==> noted[k].position == 0
                &&& noted[k].played == played
                &&& noted[k].id == had.id && noted[k].show_id == had.show_id
                &&& noted[k].about == had.about && noted[k].download_path == had.download_path
                &&& saved[k].download_path == path
                &&& saved[k].id == had.id && saved[k].show_id == had.show_id
                &&& saved[k].about == had.about && saved[k].position == had.position
                &&& saved[k].played == had.played
            }
        }),
{
}

// ── The file ─────────────────────────────────────────────────────────────

/// What a write does to the file: a row that is put is there as it was put, one that is dropped is
/// gone, and a show takes its episodes with it. Every other row stays.
pub proof fn law_what_a_write_does(
    file: writes::FileView,
    show: rows::ShowRowView,
    episode: rows::EpisodeRowView,
    id: int,
    other: int,
)
    ensures
        ({
            let put = writes::written(file, writes::RowWriteView::PutShow(show));
            &&& put.shows.contains_pair(show.id, show)
            &&& other != show.id ==> put.shows.contains_key(other) == file.shows.contains_key(other)
                && put.shows[other] == file.shows[other]
            &&& put.episodes == file.episodes
        }),
        ({
            let put = writes::written(file, writes::RowWriteView::PutEpisode(episode));
            &&& put.episodes.contains_pair(episode.id, episode)
            &&& other != episode.id ==> put.episodes.contains_key(other)
                == file.episodes.contains_key(other) && put.episodes[other] == file.episodes[other]
            &&& put.shows == file.shows
        }),
        ({
            let less = writes::written(file, writes::RowWriteView::DropEpisode(id));
            &&& !less.episodes.contains_key(id)
            &&& other != id && file.episodes.contains_key(other) ==> less.episodes.contains_pair(
                other,
                file.episodes[other],
            )
            &&& less.shows == file.shows
        }),
        ({
            let less = writes::written(file, writes::RowWriteView::DropShow(id));
            &&& !less.shows.contains_key(id)
            &&& other != id && file.shows.contains_key(other) ==> less.shows.contains_pair(
                other,
                file.shows[other],
            )
            &&& file.episodes.contains_key(other) && file.episodes[other].show_id == id
                ==> !less.episodes.contains_key(other)
            &&& file.episodes.contains_key(other) && file.episodes[other].show_id != id
                ==> less.episodes.contains_pair(other, file.episodes[other])
        }),
{
}

/// The file of a store holds each of its rows under the row's id, and nothing else.
pub proof fn law_what_the_file_holds(store: records::StoreView, k: int, id: int)
    requires
        store.sound(),
    ensures
        ({
            let file = writes::file_of(store);
            &&& 0 <= k < store.shows.len() ==> file.shows.contains_pair(
                store.shows[k].id,
                store.shows[k],
            )
            &&& 0 <= k < store.episodes.len() ==> file.episodes.contains_pair(
                store.episodes[k].id,
                store.episodes[k],
            )
            &&& file.shows.contains_key(id) ==> store.shows.contains(file.shows[id])
            &&& file.episodes.contains_key(id) ==> store.episodes.contains(file.episodes[id])
        }),
{
    let file = writes::file_of(store);
    if 0 <= k < store.shows.len() {
        let want = store.shows[k].id;
        assert(records::has_show_id(store.shows, want));
        let c = choose|c: int|
            0 <= c < store.shows.len() && (#[trigger] store.shows[c]).id == want;
        if c < k {
            assert(store.shows[c].id != store.shows[k].id);
        } else if k < c {
            assert(store.shows[k].id != store.shows[c].id);
        }
    }
    if 0 <= k < store.episodes.len() {
        let want = store.episodes[k].id;
        assert(writes::has_row_id(store.episodes, want));
        let c = choose|c: int|
            0 <= c < store.episodes.len() && (#[trigger] store.episodes[c]).id == want;
        if c < k {
            assert(store.episodes[c].id != store.episodes[k].id);
        } else if k < c {
            assert(store.episodes[k].id != store.episodes[c].id);
        }
    }
}

/// The steps that a file still lacks are the ones behind those that it has had, each under its own
/// number, in order.
pub proof fn law_the_steps_that_are_lacking(applied: nat, i: int)
    requires
        applied <= opening::migrations().len(),
    ensures
        opening::pending(applied).len() + applied == opening::migrations().len(),
        0 <= i < opening::pending(applied).len() ==> opening::pending(applied)[i].0 == applied + i
            + 1 && opening::pending(applied)[i].1 == opening::migrations()[applied + i],
        opening::migrations().len() == 1,
{
}

// ── Errors ───────────────────────────────────────────────────────────────

/// What is said of each error.
pub proof fn law_what_an_error_says(given: Seq<char>, id: int)
    ensures
        records::error_message(records::StoreErrorView::BadName)
            == "a show name is up to 64 letters, digits, dashes, underscores or dots"@,
        records::error_message(records::StoreErrorView::NoShow(given)) == "no show named "@ + given,
        records::error_message(records::StoreErrorView::NoEpisode(id)) == "no episode "@
            + number::signed_decimal(id),
        records::error_message(records::StoreErrorView::FeedTaken(given))
            == "another show is read from "@ + given,
        records::error_message(records::StoreErrorView::NoMoreIds) == "the store has no more ids"@,
        records::error_message(records::StoreErrorView::Broken)
            == "the store's records contradict each other"@,
        records::error_message(records::StoreErrorView::Newer)
            == "this store was written by a newer mg-streamr"@,
        records::error_message(records::StoreErrorView::NotWal(given))
            == "store could not switch to WAL (journal mode "@ + given + ")"@,
{
    reveal_strlit("a show name is up to ");
    reveal_strlit(" letters, digits, dashes, underscores or dots");
    reveal_strlit("a show name is up to 64 letters, digits, dashes, underscores or dots");
    reveal_with_fuel(number::decimal, 2);
    assert(number::decimal(64) =~= seq!['6', '4']);
    assert(records::error_message(records::StoreErrorView::BadName)
        =~= "a show name is up to 64 letters, digits, dashes, underscores or dots"@);
}

/// Records contradict each other if two shows have one id, one name or one feed, or two episodes one
/// id, or two episodes of a show one guid; and only then.
pub proof fn law_when_records_contradict(store: records::StoreView, i: int, j: int)
    requires
        0 <= i < j,
    ensures
        j < store.shows.len() && (store.shows[i].id == store.shows[j].id || store.shows[i].name
            == store.shows[j].name || store.shows[i].feed_url == store.shows[j].feed_url)
            ==> !store.sound(),
        j < store.episodes.len() && (store.episodes[i].id == store.episodes[j].id || (
        store.episodes[i].show_id == store.episodes[j].show_id && store.episodes[i].about.guid
            == store.episodes[j].about.guid)) ==> !store.sound(),
        !store.sound() ==> (exists|a: int, b: int|
            0 <= a < b < store.shows.len() && ((#[trigger] store.shows[a]).id == (
            #[trigger] store.shows[b]).id || store.shows[a].name == store.shows[b].name
                || store.shows[a].feed_url == store.shows[b].feed_url)) || (exists|a: int, b: int|
            0 <= a < b < store.episodes.len() && ((#[trigger] store.episodes[a]).id == (
            #[trigger] store.episodes[b]).id || (store.episodes[a].show_id
                == store.episodes[b].show_id && store.episodes[a].about.guid
                == store.episodes[b].about.guid))),
{
}

/// Only what has changed is written: a row that is put was not there as it is now, unless it went with
/// its show; and what is dropped was there and is there no more.
pub proof fn law_only_changes_are_written(
    before: records::StoreView,
    after: records::StoreView,
    show: rows::ShowRowView,
    episode: rows::EpisodeRowView,
    id: int,
)
    requires
        before.sound(),
        after.sound(),
    ensures
        writes::is_needed(before, after, writes::RowWriteView::PutShow(show))
            ==> after.shows.contains(show) && !before.shows.contains(show),
        writes::is_needed(before, after, writes::RowWriteView::PutEpisode(episode))
            ==> after.episodes.contains(episode) && (!before.episodes.contains(episode) || (
        records::has_show_id(before.shows, episode.show_id) && !records::has_show_id(
            after.shows,
            episode.show_id,
        ))),
        writes::is_needed(before, after, writes::RowWriteView::DropShow(id)) ==> (exists|k: int|
            0 <= k < before.shows.len() && (#[trigger] before.shows[k]).id == id) && !(exists|
            k: int,
        |
            0 <= k < after.shows.len() && (#[trigger] after.shows[k]).id == id),
        writes::is_needed(before, after, writes::RowWriteView::DropEpisode(id)) ==> (exists|k: int|
            0 <= k < before.episodes.len() && (#[trigger] before.episodes[k]).id == id) && !(exists|
            k: int,
        |
            0 <= k < after.episodes.len() && (#[trigger] after.episodes[k]).id == id),
{
    law_what_the_file_holds(after, 0, show.id);
    law_what_the_file_holds(after, 0, episode.id);
    if before.shows.contains(show) {
        let k = choose|k: int| 0 <= k < before.shows.len() && before.shows[k] == show;
        law_what_the_file_holds(before, k, 0);
    }
    if before.episodes.contains(episode) {
        let k = choose|k: int| 0 <= k < before.episodes.len() && before.episodes[k] == episode;
        law_what_the_file_holds(before, k, 0);
    }
}

} // verus!
