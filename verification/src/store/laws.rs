//! What the store promises across requests: what is written is read back, and nothing else moves.
use vstd::prelude::*;

use crate::store::changes;
use crate::store::order;
use crate::store::records;
use crate::store::rows;

verus! {

/// The row of the show with this name.
pub open spec fn row_named(shows: Seq<rows::ShowRowView>, name: Seq<char>) -> Option<
    rows::ShowRowView,
> {
    match records::show_index(shows, name) {
        Some(i) => Some(shows[i]),
        None => None,
    }
}

/// The name of the show with this id.
pub open spec fn name_of(shows: Seq<rows::ShowRowView>, id: int) -> Seq<char> {
    shows[changes::show_id_index(shows, id)->Some_0].name
}

/// Names that differ are found where they stand.
pub proof fn lemma_row_named(shows: Seq<rows::ShowRowView>, i: int)
    requires
        0 <= i < shows.len(),
        forall|a: int, b: int|
            0 <= a < b < shows.len() ==> (#[trigger] shows[a]).name != (#[trigger] shows[b]).name,
    ensures
        records::show_index(shows, shows[i].name) == Some(i),
{
    records::lemma_show_index(shows, shows[i].name);
    let k = records::show_index(shows, shows[i].name)->Some_0;
    if k < i {
        assert(shows[k].name != shows[i].name);
    } else if i < k {
        assert(shows[i].name != shows[k].name);
    }
}

/// Ids that differ are found where they stand.
proof fn lemma_show_with_id(shows: Seq<rows::ShowRowView>, i: int)
    requires
        0 <= i < shows.len(),
        forall|a: int, b: int|
            0 <= a < b < shows.len() ==> (#[trigger] shows[a]).id != (#[trigger] shows[b]).id,
    ensures
        changes::show_id_index(shows, shows[i].id) == Some(i),
{
    changes::lemma_show_id_index(shows, shows[i].id);
    match changes::show_id_index(shows, shows[i].id) {
        Some(k) => {
            if k < i {
                assert(shows[k].id != shows[i].id);
            } else if i < k {
                assert(shows[i].id != shows[k].id);
            }
        },
        None => {
            assert(records::has_show_id(shows, shows[i].id));
        },
    }
}

/// Which episode is found: one that is wanted and has its show, with none before it.
proof fn lemma_first_episode(
    shows: Seq<rows::ShowRowView>,
    episodes: Seq<rows::EpisodeRowView>,
    wanted: spec_fn(rows::EpisodeRowView) -> bool,
)
    ensures
        match changes::first_episode(shows, episodes, wanted) {
            Some(e) => exists|k: int|
                {
                    &&& 0 <= k < episodes.len()
                    &&& wanted(#[trigger] episodes[k])
                    &&& records::has_show_id(shows, episodes[k].show_id)
                    &&& e == rows::episode_of(episodes[k], name_of(shows, episodes[k].show_id))
                },
            None => forall|k: int|
                0 <= k < episodes.len() && records::has_show_id(shows, episodes[k].show_id)
                    ==> !wanted(#[trigger] episodes[k]),
        },
    decreases episodes.len(),
{
    if episodes.len() > 0 {
        changes::lemma_show_id_index(shows, episodes[0].show_id);
        if wanted(episodes[0]) && records::has_show_id(shows, episodes[0].show_id) {
            assert(wanted(episodes[0]));
        } else {
            let rest = episodes.skip(1);
            lemma_show_is_there(shows, episodes[0].show_id);
            lemma_first_episode(shows, rest, wanted);
            match changes::first_episode(shows, rest, wanted) {
                Some(e) => {
                    let k = choose|k: int|
                        {
                            &&& 0 <= k < rest.len()
                            &&& wanted(#[trigger] rest[k])
                            &&& records::has_show_id(shows, rest[k].show_id)
                            &&& e == rows::episode_of(rest[k], name_of(shows, rest[k].show_id))
                        };
                    assert(wanted(episodes[k + 1]));
                },
                None => {
                    assert forall|j: int|
                        0 <= j < episodes.len() && records::has_show_id(
                            shows,
                            episodes[j].show_id,
                        ) implies !wanted(#[trigger] episodes[j]) by {
                        if j > 0 {
                            assert(rest[j - 1] == episodes[j]);
                        }
                    }
                },
            }
        }
    }
}

/// A show is found by its id exactly if it is there.
proof fn lemma_show_is_there(shows: Seq<rows::ShowRowView>, id: int)
    ensures
        changes::show_id_index(shows, id) is Some <==> records::has_show_id(shows, id),
{
    changes::lemma_show_id_index(shows, id);
    if let Some(i) = changes::show_id_index(shows, id) {
        assert(shows[i].id == id);
    }
}

/// The episode with the id of a row is the one that the row keeps, if its show is there.
pub proof fn law_episode_with_id(store: records::StoreView, k: int)
    requires
        store.sound(),
        0 <= k < store.episodes.len(),
    ensures
        changes::episode_with_id(store, store.episodes[k].id) == if records::has_show_id(
            store.shows,
            store.episodes[k].show_id,
        ) {
            Some(
                rows::episode_of(
                    store.episodes[k],
                    name_of(store.shows, store.episodes[k].show_id),
                ),
            )
        } else {
            None
        },
{
    let id = store.episodes[k].id;
    lemma_first_episode(store.shows, store.episodes, changes::has_id(id));
    assert((changes::has_id(id))(store.episodes[k]));
    match changes::episode_with_id(store, id) {
        Some(e) => {
            let m = choose|m: int|
                {
                    &&& 0 <= m < store.episodes.len()
                    &&& (changes::has_id(id))(#[trigger] store.episodes[m])
                    &&& records::has_show_id(store.shows, store.episodes[m].show_id)
                    &&& e == rows::episode_of(
                        store.episodes[m],
                        name_of(store.shows, store.episodes[m].show_id),
                    )
                };
            if m < k {
                assert(store.episodes[m].id != store.episodes[k].id);
            } else if k < m {
                assert(store.episodes[k].id != store.episodes[m].id);
            }
        },
        None => {},
    }
}

/// An id that no row has is no episode's.
pub proof fn lemma_no_episode(store: records::StoreView, id: int)
    requires
        forall|k: int| 0 <= k < store.episodes.len() ==> (#[trigger] store.episodes[k]).id != id,
    ensures
        changes::episode_with_id(store, id) is None,
{
    lemma_first_episode(store.shows, store.episodes, changes::has_id(id));
}

/// Rows that keep their places, ids and shows keep their episodes' names, and are found as before.
proof fn lemma_same_places(before: records::StoreView, after: records::StoreView, id: int)
    requires
        before.sound(),
        after.sound(),
        before.shows == after.shows,
        before.episodes.len() == after.episodes.len(),
        forall|k: int|
            0 <= k < before.episodes.len() ==> (#[trigger] after.episodes[k]).id
                == before.episodes[k].id && after.episodes[k].show_id == before.episodes[k].show_id,
    ensures
        match changes::episode_with_id(before, id) {
            Some(e) => exists|k: int|
                {
                    &&& 0 <= k < before.episodes.len()
                    &&& (#[trigger] before.episodes[k]).id == id
                    &&& e == rows::episode_of(
                        before.episodes[k],
                        name_of(before.shows, before.episodes[k].show_id),
                    )
                    &&& changes::episode_with_id(after, id) == Some(
                        rows::episode_of(
                            after.episodes[k],
                            name_of(before.shows, before.episodes[k].show_id),
                        ),
                    )
                },
            None => changes::episode_with_id(after, id) is None,
        },
{
    if exists|k: int| 0 <= k < before.episodes.len() && (#[trigger] before.episodes[k]).id == id {
        let k = choose|k: int|
            0 <= k < before.episodes.len() && (#[trigger] before.episodes[k]).id == id;
        assert(after.episodes[k].id == id);
        law_episode_with_id(before, k);
        law_episode_with_id(after, k);
    } else {
        assert forall|k: int| 0 <= k < after.episodes.len() implies (
        #[trigger] after.episodes[k]).id != id by {
            assert(before.episodes[k].id != id);
        }
        lemma_no_episode(before, id);
        lemma_no_episode(after, id);
    }
}

/// A position that was saved is read back, with whether the episode counts as heard; nothing else
/// about the episode changes, and no other episode does.
pub proof fn law_position_reads_back(
    store: records::StoreView,
    id: int,
    position: int,
    played: bool,
    other: int,
)
    requires
        store.sound(),
    ensures
        ({
            let after = records::StoreView {
                episodes: changes::with_position(store.episodes, id, position, played),
                ..store
            };
            &&& after.sound()
            &&& changes::episode_with_id(after, id) == match changes::episode_with_id(store, id) {
                Some(e) => Some(
                    rows::EpisodeView {
                        position: if position < 0 {
                            0
                        } else {
                            position
                        },
                        played,
                        ..e
                    },
                ),
                None => None,
            }
            &&& other != id ==> changes::episode_with_id(after, other) == changes::episode_with_id(
                store,
                other,
            )
        }),
{
    let after = records::StoreView {
        episodes: changes::with_position(store.episodes, id, position, played),
        ..store
    };
    assert forall|k: int| 0 <= k < store.episodes.len() implies (#[trigger] after.episodes[k]).id
        == store.episodes[k].id && after.episodes[k].show_id == store.episodes[k].show_id
        && after.episodes[k].about == store.episodes[k].about by {}
    lemma_same_places(store, after, id);
    lemma_same_places(store, after, other);
}

/// A download that was recorded, or cleared, is read back so; nothing else about the episode
/// changes, and no other episode does.
pub proof fn law_download_reads_back(
    store: records::StoreView,
    id: int,
    path: Option<Seq<char>>,
    other: int,
)
    requires
        store.sound(),
    ensures
        ({
            let after = records::StoreView {
                episodes: changes::with_download(store.episodes, id, path),
                ..store
            };
            &&& after.sound()
            &&& changes::episode_with_id(after, id) == match changes::episode_with_id(store, id) {
                Some(e) => Some(rows::EpisodeView { download_path: path, ..e }),
                None => None,
            }
            &&& other != id ==> changes::episode_with_id(after, other) == changes::episode_with_id(
                store,
                other,
            )
        }),
{
    let after = records::StoreView {
        episodes: changes::with_download(store.episodes, id, path),
        ..store
    };
    assert forall|k: int| 0 <= k < store.episodes.len() implies (#[trigger] after.episodes[k]).id
        == store.episodes[k].id && after.episodes[k].show_id == store.episodes[k].show_id
        && after.episodes[k].about == store.episodes[k].about by {}
    lemma_same_places(store, after, id);
    lemma_same_places(store, after, other);
}

/// An episode whose show is there is found by its stream and by its download, and only by those.
pub proof fn law_found_by_uri(store: records::StoreView, uri: Seq<char>)
    requires
        store.sound(),
    ensures
        changes::episode_with_uri(store, uri) matches Some(e) ==> e.about.url == uri
            || e.download_path == Some(uri),
        changes::episode_with_uri(store, uri) matches Some(e) ==> changes::episode_with_id(
            store,
            e.id,
        ) == Some(e),
        changes::episode_with_uri(store, uri) is None ==> forall|k: int|
            0 <= k < store.episodes.len() && records::has_show_id(
                store.shows,
                store.episodes[k].show_id,
            ) ==> (#[trigger] store.episodes[k]).about.url != uri
                && store.episodes[k].download_path != Some(uri),
{
    lemma_first_episode(store.shows, store.episodes, changes::has_uri(uri));
    match changes::episode_with_uri(store, uri) {
        Some(e) => {
            let k = choose|k: int|
                {
                    &&& 0 <= k < store.episodes.len()
                    &&& (changes::has_uri(uri))(#[trigger] store.episodes[k])
                    &&& records::has_show_id(store.shows, store.episodes[k].show_id)
                    &&& e == rows::episode_of(
                        store.episodes[k],
                        name_of(store.shows, store.episodes[k].show_id),
                    )
                };
            law_episode_with_id(store, k);
        },
        None => {
            assert forall|k: int|
                0 <= k < store.episodes.len() && records::has_show_id(
                    store.shows,
                    store.episodes[k].show_id,
                ) implies (#[trigger] store.episodes[k]).about.url != uri && store.episodes[k].download_path
                != Some(uri) by {
                assert(!(changes::has_uri(uri))(store.episodes[k]));
            }
        },
    }
}

/// Reading a feed again keeps where you stopped in each episode, whether it was heard, and its
/// download, as the episode is found by its id.
pub proof fn law_refresh_keeps_episodes(
    store: records::StoreView,
    i: int,
    title: Option<Seq<char>>,
    image_url: Option<Seq<char>>,
    feed: Seq<rows::NewEpisodeView>,
    at: Seq<char>,
    id: int,
)
    requires
        store.sound(),
        0 <= i < store.shows.len(),
        changes::episode_with_id(store, id) is Some,
    ensures
        ({
            let after = records::StoreView {
                shows: store.shows.update(
                    i,
                    changes::refreshed(store.shows[i], title, image_url, at),
                ),
                episodes: changes::with_episodes(store.episodes, store.shows[i].id, feed),
            };
            let had = changes::episode_with_id(store, id)->Some_0;
            &&& changes::episode_with_id(after, id) matches Some(e)
            &&& e.id == had.id && e.show == had.show && e.about.guid == had.about.guid
            &&& e.position == had.position && e.played == had.played && e.download_path
                == had.download_path
        }),
{
    let after = records::StoreView {
        shows: store.shows.update(i, changes::refreshed(store.shows[i], title, image_url, at)),
        episodes: changes::with_episodes(store.episodes, store.shows[i].id, feed),
    };
    if forall|k: int| 0 <= k < store.episodes.len() ==> (#[trigger] store.episodes[k]).id != id {
        lemma_no_episode(store, id);
    }
    let k = choose|k: int|
        0 <= k < store.episodes.len() && (#[trigger] store.episodes[k]).id == id;
    law_episode_with_id(store, k);
    assert(records::has_show_id(store.shows, store.shows[i].id));
    changes::lemma_refreshed_sound(store, i, title, image_url, feed, at);
    changes::law_refresh_keeps_progress(store.episodes, store.shows[i].id, feed);
    assert(after.episodes[k].id == store.episodes[k].id);
    law_episode_with_id(after, k);
    let m = choose|m: int|
        0 <= m < store.shows.len() && (#[trigger] store.shows[m]).id == store.episodes[k].show_id;
    lemma_show_with_id(store.shows, m);
    assert(after.shows[m].id == store.shows[m].id);
    lemma_show_with_id(after.shows, m);
}

/// A show that was added is found under its name, with its feed; every other show is as it was.
pub proof fn law_added_show_reads_back(
    store: records::StoreView,
    name: Seq<char>,
    feed_url: Seq<char>,
    at: Seq<char>,
    other: Seq<char>,
)
    requires
        store.sound(),
        changes::add_show_error(store.shows, name, feed_url) is None,
    ensures
        ({
            let after = changes::with_show(store.shows, name, feed_url, at);
            &&& row_named(after, name) matches Some(row)
            &&& row.name == name && row.feed_url == feed_url
            &&& row_named(store.shows, name) matches Some(had) ==> row == (rows::ShowRowView {
                feed_url,
                ..had
            })
            &&& other != name ==> row_named(after, other) == row_named(store.shows, other)
        }),
{
    let shows = store.shows;
    let after = changes::with_show(shows, name, feed_url, at);
    changes::lemma_with_show_sound(store, name, feed_url, at);
    records::lemma_show_index(shows, name);
    let i = match records::show_index(shows, name) {
        Some(i) => i,
        None => shows.len() as int,
    };
    assert(after[i].name == name);
    lemma_row_named(after, i);
    if other != name {
        lemma_others_stay(shows, after, i, other);
    }
}

/// Every other show is found as before when one row changes or one is added.
pub proof fn lemma_others_stay(
    shows: Seq<rows::ShowRowView>,
    after: Seq<rows::ShowRowView>,
    i: int,
    other: Seq<char>,
)
    requires
        shows.len() <= after.len() <= shows.len() + 1,
        0 <= i < after.len(),
        after.len() > shows.len() ==> i == shows.len(),
        after[i].name != other,
        i < shows.len() ==> shows[i].name != other,
        forall|k: int| 0 <= k < shows.len() && k != i ==> #[trigger] after[k] == shows[k],
        forall|a: int, b: int|
            0 <= a < b < after.len() ==> (#[trigger] after[a]).name != (#[trigger] after[b]).name,
        forall|a: int, b: int|
            0 <= a < b < shows.len() ==> (#[trigger] shows[a]).name != (#[trigger] shows[b]).name,
    ensures
        row_named(after, other) == row_named(shows, other),
{
    records::lemma_show_index(shows, other);
    records::lemma_show_index(after, other);
    match records::show_index(shows, other) {
        Some(k) => {
            assert(after[k] == shows[k]);
            lemma_row_named(after, k);
        },
        None => {
            if let Some(k) = records::show_index(after, other) {
                assert(k != i && k < shows.len());
                assert(after[k] == shows[k]);
            }
        },
    }
}

/// Forgetting a show takes the show and its episodes, and nothing else.
pub proof fn law_forgetting_takes_the_episodes(
    store: records::StoreView,
    name: Seq<char>,
    other: Seq<char>,
    id: int,
)
    requires
        store.sound(),
        records::show_index(store.shows, name) is Some,
    ensures
        ({
            let after = changes::without_show(
                store,
                records::show_index(store.shows, name)->Some_0,
            );
            &&& row_named(after.shows, name) is None
            &&& other != name ==> row_named(after.shows, other) == row_named(store.shows, other)
            &&& changes::episode_with_id(after, id) == match changes::episode_with_id(store, id) {
                Some(e) => if e.show == name {
                    None
                } else {
                    Some(e)
                },
                None => None,
            }
        }),
{
    let shows = store.shows;
    records::lemma_show_index(shows, name);
    let i = records::show_index(shows, name)->Some_0;
    let after = changes::without_show(store, i);
    let left = after.shows;
    let keep = |row: rows::EpisodeRowView| row.show_id != shows[i].id;
    changes::lemma_without_show_sound(store, i);
    assert forall|k: int| 0 <= k < left.len() implies #[trigger] left[k] == shows[if k < i {
        k
    } else {
        k + 1
    }] by {}
    records::lemma_show_index(left, name);
    if let Some(k) = records::show_index(left, name) {
        let m = if k < i {
            k
        } else {
            k + 1
        };
        assert(left[k] == shows[m]);
        if m < i {
            assert(shows[m].name != shows[i].name);
        } else {
            assert(shows[i].name != shows[m].name);
        }
    }
    if other != name {
        records::lemma_show_index(shows, other);
        records::lemma_show_index(left, other);
        match records::show_index(shows, other) {
            Some(k) => {
                let m = if k < i {
                    k
                } else {
                    k - 1
                };
                assert(left[m] == shows[k]);
                lemma_row_named(left, m);
            },
            None => {
                if let Some(k) = records::show_index(left, other) {
                    assert(left[k] == shows[if k < i {
                        k
                    } else {
                        k + 1
                    }]);
                }
            },
        }
    }
    order::lemma_source(store.episodes, keep);
    broadcast use Seq::lemma_filter_contains;

    if exists|k: int| 0 <= k < store.episodes.len() && (#[trigger] store.episodes[k]).id == id {
        let k = choose|k: int|
            0 <= k < store.episodes.len() && (#[trigger] store.episodes[k]).id == id;
        let row = store.episodes[k];
        law_episode_with_id(store, k);
        if keep(row) {
            assert(after.episodes.contains(store.episodes[k]));
            let a = choose|a: int|
                0 <= a < after.episodes.len() && #[trigger] after.episodes[a] == row;
            law_episode_with_id(after, a);
            if records::has_show_id(shows, row.show_id) {
                let s = choose|s: int|
                    0 <= s < shows.len() && (#[trigger] shows[s]).id == row.show_id;
                lemma_show_with_id(shows, s);
                let t = if s < i {
                    s
                } else {
                    s - 1
                };
                assert(left[t] == shows[s]);
                lemma_show_with_id(left, t);
                if s < i {
                    assert(shows[s].name != shows[i].name);
                } else {
                    assert(shows[i].name != shows[s].name);
                }
            } else if records::has_show_id(left, row.show_id) {
                let t = choose|t: int|
                    0 <= t < left.len() && (#[trigger] left[t]).id == row.show_id;
                assert(shows[if t < i {
                    t
                } else {
                    t + 1
                }].id == row.show_id);
            }
        } else {
            assert(shows[i].id == row.show_id);
            lemma_show_with_id(shows, i);
            assert forall|a: int| 0 <= a < after.episodes.len() implies (
            #[trigger] after.episodes[a]).id != id by {
                let x = order::source(store.episodes, keep, a);
                assert(store.episodes[x] == after.episodes[a]);
                if x < k {
                    assert(store.episodes[x].id != store.episodes[k].id);
                } else if k < x {
                    assert(store.episodes[k].id != store.episodes[x].id);
                }
            }
            lemma_no_episode(after, id);
        }
    } else {
        assert forall|a: int| 0 <= a < after.episodes.len() implies (
        #[trigger] after.episodes[a]).id != id by {
            let x = order::source(store.episodes, keep, a);
            assert(store.episodes[x] == after.episodes[a]);
        }
        lemma_no_episode(store, id);
        lemma_no_episode(after, id);
    }
}

// ── Every episode has its show ───────────────────────────────────────────

/// A store with nothing in it, and one to which a show is added, has no episode without its show.
pub proof fn law_adding_keeps_whole(
    store: records::StoreView,
    name: Seq<char>,
    feed_url: Seq<char>,
    at: Seq<char>,
)
    requires
        store.whole(),
    ensures
        (records::StoreView {
            shows: changes::with_show(store.shows, name, feed_url, at),
            ..store
        }).whole(),
        (records::StoreView { shows: seq![], episodes: seq![] }).whole(),
{
    let shows = changes::with_show(store.shows, name, feed_url, at);
    records::lemma_show_index(store.shows, name);
    assert forall|k: int| 0 <= k < store.episodes.len() implies records::has_show_id(
        shows,
        (#[trigger] store.episodes[k]).show_id,
    ) by {
        let m = choose|m: int|
            0 <= m < store.shows.len() && (#[trigger] store.shows[m]).id
                == store.episodes[k].show_id;
        assert(shows[m].id == store.episodes[k].show_id);
    }
}

/// Saving a feed leaves no episode without its show.
pub proof fn law_saving_keeps_whole(
    store: records::StoreView,
    i: int,
    title: Option<Seq<char>>,
    image_url: Option<Seq<char>>,
    feed: Seq<rows::NewEpisodeView>,
    at: Seq<char>,
)
    requires
        store.whole(),
        0 <= i < store.shows.len(),
    ensures
        (records::StoreView {
            shows: store.shows.update(i, changes::refreshed(store.shows[i], title, image_url, at)),
            episodes: changes::with_episodes(store.episodes, store.shows[i].id, feed),
        }).whole(),
{
    let id = store.shows[i].id;
    let shows = store.shows.update(i, changes::refreshed(store.shows[i], title, image_url, at));
    let episodes = changes::with_episodes(store.episodes, id, feed);
    changes::law_refresh_keeps_progress(store.episodes, id, feed);
    changes::law_refresh_leaves_other_shows(store.episodes, id, feed);
    assert forall|k: int| 0 <= k < episodes.len() implies records::has_show_id(
        shows,
        (#[trigger] episodes[k]).show_id,
    ) by {
        if k < store.episodes.len() {
            assert(episodes[k].show_id == store.episodes[k].show_id);
            let m = choose|m: int|
                0 <= m < store.shows.len() && (#[trigger] store.shows[m]).id
                    == store.episodes[k].show_id;
            assert(shows[m].id == episodes[k].show_id);
        } else {
            assert(shows[i].id == episodes[k].show_id);
        }
    }
}

/// Noting a position or a download leaves no episode without its show.
pub proof fn law_noting_keeps_whole(
    store: records::StoreView,
    id: int,
    position: int,
    played: bool,
    path: Option<Seq<char>>,
)
    requires
        store.whole(),
    ensures
        (records::StoreView {
            episodes: changes::with_position(store.episodes, id, position, played),
            ..store
        }).whole(),
        (records::StoreView {
            episodes: changes::with_download(store.episodes, id, path),
            ..store
        }).whole(),
{
    let noted = changes::with_position(store.episodes, id, position, played);
    let saved = changes::with_download(store.episodes, id, path);
    assert forall|k: int| 0 <= k < store.episodes.len() implies (#[trigger] noted[k]).show_id
        == store.episodes[k].show_id by {}
    assert forall|k: int| 0 <= k < store.episodes.len() implies (#[trigger] saved[k]).show_id
        == store.episodes[k].show_id by {}
}

/// Forgetting a show takes its episodes, so none is left without its show.
pub proof fn law_forgetting_keeps_whole(store: records::StoreView, i: int)
    requires
        store.whole(),
        0 <= i < store.shows.len(),
    ensures
        changes::without_show(store, i).whole(),
{
    let keep = |row: rows::EpisodeRowView| row.show_id != store.shows[i].id;
    let after = changes::without_show(store, i);
    order::lemma_source(store.episodes, keep);
    assert forall|a: int| 0 <= a < after.episodes.len() implies records::has_show_id(
        after.shows,
        (#[trigger] after.episodes[a]).show_id,
    ) by {
        let x = order::source(store.episodes, keep, a);
        assert(keep(store.episodes.filter(keep)[a]));
        assert(store.episodes[x] == after.episodes[a]);
        let m = choose|m: int|
            0 <= m < store.shows.len() && (#[trigger] store.shows[m]).id
                == store.episodes[x].show_id;
        assert(after.shows[if m < i {
            m
        } else {
            m - 1
        }] == store.shows[m]);
    }
}

} // verus!
