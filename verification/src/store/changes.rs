//! What changes the store, and how single episodes are found.
use vstd::prelude::*;

use crate::mpd::address;
use crate::store::records::{valid_name, Store, StoreError};
use crate::store::order;
use crate::store::records;
use crate::store::rows::{read_episode, Episode, EpisodeRow, NewEpisode, Show, ShowRow};
use crate::store::rows;
use crate::text;

verus! {

// ── Shows ────────────────────────────────────────────────────────────────

/// Is a show other than the one at `except` read from this feed?
pub open spec fn feed_taken(
    shows: Seq<rows::ShowRowView>,
    feed_url: Seq<char>,
    except: Option<int>,
) -> bool {
    exists|k: int|
        0 <= k < shows.len() && except != Some(k) && (#[trigger] shows[k]).feed_url == feed_url
}

/// A show that has just been added.
pub open spec fn new_show(
    id: int,
    name: Seq<char>,
    feed_url: Seq<char>,
    at: Seq<char>,
) -> rows::ShowRowView {
    rows::ShowRowView {
        id,
        name,
        feed_url,
        title: None,
        image_url: None,
        added_at: at,
        refreshed_at: None,
    }
}

/// The shows once one has been added, or its feed changed if the name is known.
pub open spec fn with_show(
    shows: Seq<rows::ShowRowView>,
    name: Seq<char>,
    feed_url: Seq<char>,
    at: Seq<char>,
) -> Seq<rows::ShowRowView> {
    match records::show_index(shows, name) {
        Some(i) => shows.update(i, rows::ShowRowView { feed_url, ..shows[i] }),
        None => shows.push(
            new_show(records::next_id(records::show_ids(shows)), name, feed_url, at),
        ),
    }
}

/// Why a show cannot be added, if so.
pub open spec fn add_show_error(
    shows: Seq<rows::ShowRowView>,
    name: Seq<char>,
    feed_url: Seq<char>,
) -> Option<records::StoreErrorView> {
    if !records::is_valid_name(name) {
        Some(records::StoreErrorView::BadName)
    } else if feed_taken(shows, feed_url, records::show_index(shows, name)) {
        Some(records::StoreErrorView::FeedTaken(feed_url))
    } else if records::show_index(shows, name) is None && records::next_id(records::show_ids(shows))
        > i64::MAX {
        Some(records::StoreErrorView::NoMoreIds)
    } else {
        None
    }
}

pub proof fn lemma_with_show_sound(
    store: records::StoreView,
    name: Seq<char>,
    feed_url: Seq<char>,
    at: Seq<char>,
)
    requires
        store.sound(),
        !feed_taken(store.shows, feed_url, records::show_index(store.shows, name)),
    ensures
        (records::StoreView { shows: with_show(store.shows, name, feed_url, at), ..store }).sound(),
{
    let shows = store.shows;
    let now = with_show(shows, name, feed_url, at);
    records::lemma_show_index(shows, name);
    records::law_next_id_is_new(records::show_ids(shows));
    let ids = records::show_ids(shows);
    assert forall|k: int| 0 <= k < shows.len() implies (#[trigger] now[k]).id == shows[k].id
        && now[k].name == shows[k].name by {}
    assert forall|k: int| 0 <= k < shows.len() implies (#[trigger] shows[k]).id == ids[k] by {}
    assert forall|i: int, j: int| 0 <= i < j < now.len() implies (#[trigger] now[i]).id != (
    #[trigger] now[j]).id && now[i].name != now[j].name && now[i].feed_url != now[j].feed_url by {
        if records::show_index(shows, name) is None {
            if j == shows.len() {
                assert(ids[i] < records::next_id(ids));
                assert(now[i] == shows[i]);
            }
        } else {
            let at_name = records::show_index(shows, name)->Some_0;
            if i != at_name {
                assert(now[i] == shows[i]);
            }
            if j != at_name {
                assert(now[j] == shows[j]);
            }
        }
    }
}

impl Store {
    fn feed_is_taken(&self, feed_url: &str, except: Option<usize>) -> (r: bool)
        ensures
            r == feed_taken(
                self@.shows,
                feed_url@,
                match except {
                    Some(i) => Some(i as int),
                    None => None,
                },
            ),
    {
        let mut k: usize = 0;
        while k < self.shows.len()
            invariant
                k <= self.shows@.len(),
                forall|j: int|
                    0 <= j < k && !(except matches Some(e) && e == j) ==> (
                    #[trigger] self@.shows[j]).feed_url != feed_url@,
            decreases self.shows@.len() - k,
        {
            let skip = match except {
                Some(e) => e == k,
                None => false,
            };
            assert(self@.shows[k as int] == self.shows@[k as int]@);
            if !skip && text::same(&self.shows[k].feed_url, feed_url) {
                return true;
            }
            k += 1;
        }
        false
    }

    fn next_show_id(&self) -> (r: Option<i64>)
        ensures
            match r {
                Some(id) => records::next_id(records::show_ids(self@.shows)) == id,
                None => records::next_id(records::show_ids(self@.shows)) > i64::MAX,
            },
    {
        if self.shows.len() == 0 {
            return Some(1);
        }
        let ghost ids = records::show_ids(self@.shows);
        let mut top: i64 = self.shows[0].id;
        let mut i: usize = 1;
        assert(ids.take(1)[0] == ids[0]);
        while i < self.shows.len()
            invariant
                1 <= i <= self.shows@.len(),
                ids == records::show_ids(self@.shows),
                top == records::largest(ids.take(i as int)),
            decreases self.shows@.len() - i,
        {
            assert(ids.take(i + 1).drop_last() =~= ids.take(i as int));
            assert(ids.take(i + 1).last() == self.shows@[i as int].id);
            if self.shows[i].id >= top {
                top = self.shows[i].id;
            }
            i += 1;
        }
        assert(ids.take(ids.len() as int) =~= ids);
        if top == i64::MAX {
            None
        } else {
            Some(top + 1)
        }
    }

    /// Add a show, or change its feed if the name is known. `at` is the time of day, as text.
    pub fn add_show(&mut self, name: &str, feed_url: &str, at: &str) -> (r: Result<
        Show,
        StoreError,
    >)
        requires
            old(self)@.sound(),
        ensures
            final(self)@.sound(),
            final(self)@.episodes == old(self)@.episodes,
            match add_show_error(old(self)@.shows, name@, feed_url@) {
                Some(e) => r matches Err(error) && error@ == e && final(self)@ == old(self)@,
                None => {
                    &&& final(self)@.shows == with_show(old(self)@.shows, name@, feed_url@, at@)
                    &&& records::show_index(final(self)@.shows, name@) matches Some(i)
                    &&& r matches Ok(show)
                    &&& show@ == records::show_of(final(self)@.shows[i], final(self)@.episodes)
                },
            },
    {
        if !valid_name(name) {
            return Err(StoreError::BadName);
        }
        let known = self.find_show(name);
        if self.feed_is_taken(feed_url, known) {
            return Err(StoreError::FeedTaken(feed_url.to_owned()));
        }
        let ghost before = self@;
        proof {
            records::lemma_show_index(before.shows, name@);
        }
        let i: usize = match known {
            Some(i) => {
                let row = &self.shows[i];
                let changed = ShowRow {
                    id: row.id,
                    name: row.name.clone(),
                    feed_url: feed_url.to_owned(),
                    title: text::copy(&row.title),
                    image_url: text::copy(&row.image_url),
                    added_at: row.added_at.clone(),
                    refreshed_at: text::copy(&row.refreshed_at),
                };
                self.shows.set(i, changed);
                assert(self@.shows =~= with_show(before.shows, name@, feed_url@, at@));
                i
            },
            None => {
                let id = match self.next_show_id() {
                    Some(id) => id,
                    None => {
                        return Err(StoreError::NoMoreIds);
                    },
                };
                let n = self.shows.len();
                self.shows.push(
                    ShowRow {
                        id,
                        name: name.to_owned(),
                        feed_url: feed_url.to_owned(),
                        title: None,
                        image_url: None,
                        added_at: at.to_owned(),
                        refreshed_at: None,
                    },
                );
                assert(self@.shows =~= with_show(before.shows, name@, feed_url@, at@));
                n
            },
        };
        assert(self@.episodes =~= before.episodes);
        proof {
            lemma_with_show_sound(before, name@, feed_url@, at@);
            assert(self@ == records::StoreView { shows: self@.shows, ..before });
            records::lemma_show_index(self@.shows, name@);
            assert(self@.shows[i as int].name == name@);
        }
        Ok(self.read_show(i))
    }
}

// ── Feeds ────────────────────────────────────────────────────────────────

/// Where the show's episode with this guid stands.
pub open spec fn guid_index(
    episodes: Seq<rows::EpisodeRowView>,
    show_id: int,
    guid: Seq<char>,
) -> Option<int>
    decreases episodes.len(),
{
    if episodes.len() == 0 {
        None
    } else if episodes.last().show_id == show_id && episodes.last().about.guid == guid {
        Some(episodes.len() - 1)
    } else {
        guid_index(episodes.drop_last(), show_id, guid)
    }
}

/// An episode that has just been added.
pub open spec fn new_row(id: int, show_id: int, about: rows::NewEpisodeView) -> rows::EpisodeRowView {
    rows::EpisodeRowView {
        id,
        show_id,
        about,
        position: 0,
        played: false,
        download_path: None,
    }
}

/// The episodes once one has been saved: a known one says what the feed says now, and keeps where
/// you stopped and its download; a new one is added.
pub open spec fn with_episode(
    episodes: Seq<rows::EpisodeRowView>,
    show_id: int,
    about: rows::NewEpisodeView,
) -> Seq<rows::EpisodeRowView> {
    match guid_index(episodes, show_id, about.guid) {
        Some(i) => episodes.update(i, rows::EpisodeRowView { about, ..episodes[i] }),
        None => episodes.push(
            new_row(records::next_id(records::episode_ids(episodes)), show_id, about),
        ),
    }
}

/// The episodes once a feed's have been saved, in the feed's order.
pub open spec fn with_episodes(
    episodes: Seq<rows::EpisodeRowView>,
    show_id: int,
    feed: Seq<rows::NewEpisodeView>,
) -> Seq<rows::EpisodeRowView>
    decreases feed.len(),
{
    if feed.len() == 0 {
        episodes
    } else {
        with_episode(with_episodes(episodes, show_id, feed.drop_last()), show_id, feed.last())
    }
}

/// How many of a feed's episodes are new.
pub open spec fn new_episodes(
    episodes: Seq<rows::EpisodeRowView>,
    show_id: int,
    feed: Seq<rows::NewEpisodeView>,
) -> nat
    decreases feed.len(),
{
    if feed.len() == 0 {
        0
    } else {
        let before = with_episodes(episodes, show_id, feed.drop_last());
        new_episodes(episodes, show_id, feed.drop_last()) + (if guid_index(
            before,
            show_id,
            feed.last().guid,
        ) is None {
            1nat
        } else {
            0nat
        })
    }
}

/// Do all ids fit?
pub open spec fn ids_fit(episodes: Seq<rows::EpisodeRowView>) -> bool {
    forall|i: int| 0 <= i < episodes.len() ==> (#[trigger] episodes[i]).id <= i64::MAX
}

/// A show that has been read again: a title and a picture that the feed does not name are kept.
pub open spec fn refreshed(
    row: rows::ShowRowView,
    title: Option<Seq<char>>,
    image_url: Option<Seq<char>>,
    at: Seq<char>,
) -> rows::ShowRowView {
    rows::ShowRowView {
        title: if title is Some {
            title
        } else {
            row.title
        },
        image_url: if image_url is Some {
            image_url
        } else {
            row.image_url
        },
        refreshed_at: Some(at),
        ..row
    }
}

pub proof fn lemma_guid_index(episodes: Seq<rows::EpisodeRowView>, show_id: int, guid: Seq<char>)
    ensures
        match guid_index(episodes, show_id, guid) {
            Some(i) => 0 <= i < episodes.len() && episodes[i].show_id == show_id
                && episodes[i].about.guid == guid,
            None => forall|i: int|
                0 <= i < episodes.len() && (#[trigger] episodes[i]).show_id == show_id
                    ==> episodes[i].about.guid != guid,
        },
    decreases episodes.len(),
{
    if episodes.len() > 0 {
        lemma_guid_index(episodes.drop_last(), show_id, guid);
        assert forall|i: int| 0 <= i < episodes.len() - 1 implies #[trigger] episodes[i]
            == episodes.drop_last()[i] by {}
    }
}

/// Saving an episode keeps every row in its place, with its id, its show, where you stopped and its
/// download.
pub open spec fn rows_kept(
    before: Seq<rows::EpisodeRowView>,
    after: Seq<rows::EpisodeRowView>,
) -> bool {
    &&& before.len() <= after.len()
    &&& forall|i: int|
        #![trigger before[i]]
        #![trigger after[i]]
        0 <= i < before.len() ==> {
            &&& after[i].id == before[i].id
            &&& after[i].show_id == before[i].show_id
            &&& after[i].about.guid == before[i].about.guid
            &&& after[i].position == before[i].position
            &&& after[i].played == before[i].played
            &&& after[i].download_path == before[i].download_path
        }
}

proof fn lemma_with_episode(
    episodes: Seq<rows::EpisodeRowView>,
    show_id: int,
    about: rows::NewEpisodeView,
)
    ensures
        rows_kept(episodes, with_episode(episodes, show_id, about)),
{
    lemma_guid_index(episodes, show_id, about.guid);
}

proof fn lemma_rows_kept(
    episodes: Seq<rows::EpisodeRowView>,
    show_id: int,
    feed: Seq<rows::NewEpisodeView>,
    n: int,
)
    requires
        0 <= n <= feed.len(),
    ensures
        rows_kept(
            with_episodes(episodes, show_id, feed.take(n)),
            with_episodes(episodes, show_id, feed),
        ),
    decreases feed.len() - n,
{
    if n < feed.len() {
        lemma_rows_kept(episodes, show_id, feed, n + 1);
        assert(feed.take(n + 1).drop_last() =~= feed.take(n));
        let a = with_episodes(episodes, show_id, feed.take(n));
        let b = with_episodes(episodes, show_id, feed.take(n + 1));
        let c = with_episodes(episodes, show_id, feed);
        lemma_with_episode(a, show_id, feed[n]);
        assert(rows_kept(a, b));
        assert forall|i: int|
            #![trigger a[i]]
            #![trigger c[i]]
            0 <= i < a.len() implies c[i].id == a[i].id && c[i].show_id == a[i].show_id
            && c[i].about.guid == a[i].about.guid && c[i].position == a[i].position && c[i].played
            == a[i].played && c[i].download_path == a[i].download_path by {
            assert(b[i].id == a[i].id);
        }
    } else {
        assert(feed.take(n) =~= feed);
    }
}

/// Reading a feed again loses nothing: every episode that was there keeps its id, where you
/// stopped, whether it was heard, and its download.
pub proof fn law_refresh_keeps_progress(
    episodes: Seq<rows::EpisodeRowView>,
    show_id: int,
    feed: Seq<rows::NewEpisodeView>,
)
    ensures
        rows_kept(episodes, with_episodes(episodes, show_id, feed)),
{
    lemma_rows_kept(episodes, show_id, feed, 0);
    assert(feed.take(0) =~= seq![]);
}

/// Reading a show's feed leaves the episodes of other shows as they are.
pub proof fn law_refresh_leaves_other_shows(
    episodes: Seq<rows::EpisodeRowView>,
    show_id: int,
    feed: Seq<rows::NewEpisodeView>,
)
    ensures
        forall|i: int|
            #![trigger episodes[i]]
            0 <= i < episodes.len() && episodes[i].show_id != show_id ==> with_episodes(
                episodes,
                show_id,
                feed,
            )[i] == episodes[i],
        forall|i: int|
            #![trigger with_episodes(episodes, show_id, feed)[i]]
            episodes.len() <= i < with_episodes(episodes, show_id, feed).len() ==> with_episodes(
                episodes,
                show_id,
                feed,
            )[i].show_id == show_id,
    decreases feed.len(),
{
    if feed.len() > 0 {
        let before = with_episodes(episodes, show_id, feed.drop_last());
        law_refresh_leaves_other_shows(episodes, show_id, feed.drop_last());
        law_refresh_keeps_progress(episodes, show_id, feed.drop_last());
        lemma_guid_index(before, show_id, feed.last().guid);
        assert forall|i: int|
            #![trigger episodes[i]]
            0 <= i < episodes.len() && episodes[i].show_id != show_id implies with_episodes(
            episodes,
            show_id,
            feed,
        )[i] == episodes[i] by {
            assert(before[i] == episodes[i]);
        }
    }
}

/// As many episodes are added as are said to be new.
pub proof fn law_new_episodes_are_added(
    episodes: Seq<rows::EpisodeRowView>,
    show_id: int,
    feed: Seq<rows::NewEpisodeView>,
)
    ensures
        with_episodes(episodes, show_id, feed).len() == episodes.len() + new_episodes(
            episodes,
            show_id,
            feed,
        ),
    decreases feed.len(),
{
    if feed.len() > 0 {
        law_new_episodes_are_added(episodes, show_id, feed.drop_last());
        lemma_guid_index(
            with_episodes(episodes, show_id, feed.drop_last()),
            show_id,
            feed.last().guid,
        );
    }
}

/// After a feed has been read, its show has each of the feed's episodes.
proof fn lemma_feed_is_known(
    episodes: Seq<rows::EpisodeRowView>,
    show_id: int,
    feed: Seq<rows::NewEpisodeView>,
    i: int,
)
    requires
        0 <= i < feed.len(),
    ensures
        guid_index(with_episodes(episodes, show_id, feed), show_id, feed[i].guid) is Some,
{
    let part = feed.take(i + 1);
    let mid = with_episodes(episodes, show_id, part);
    let before = with_episodes(episodes, show_id, part.drop_last());
    let all = with_episodes(episodes, show_id, feed);
    assert(part.last() == feed[i]);
    lemma_guid_index(before, show_id, feed[i].guid);
    let k = match guid_index(before, show_id, feed[i].guid) {
        Some(k) => k,
        None => before.len() as int,
    };
    assert(mid[k].show_id == show_id && mid[k].about.guid == feed[i].guid);
    lemma_rows_kept(episodes, show_id, feed, i + 1);
    assert(all[k].id == mid[k].id);
    lemma_guid_index(all, show_id, feed[i].guid);
}

/// After a feed has been read, each of its episodes is kept as the feed last describes it.
pub proof fn law_feed_is_saved(
    episodes: Seq<rows::EpisodeRowView>,
    show_id: int,
    feed: Seq<rows::NewEpisodeView>,
    i: int,
)
    requires
        0 <= i < feed.len(),
        forall|j: int| i < j < feed.len() ==> (#[trigger] feed[j]).guid != feed[i].guid,
    ensures
        exists|k: int|
            {
                &&& 0 <= k < with_episodes(episodes, show_id, feed).len()
                &&& (#[trigger] with_episodes(episodes, show_id, feed)[k]).show_id == show_id
                &&& with_episodes(episodes, show_id, feed)[k].about == feed[i]
            },
    decreases feed.len() - i,
{
    let rest = feed.drop_last();
    let before = with_episodes(episodes, show_id, rest);
    let after = with_episodes(episodes, show_id, feed);
    let last = feed.last();
    lemma_guid_index(before, show_id, last.guid);
    if i == feed.len() - 1 {
        let k = match guid_index(before, show_id, last.guid) {
            Some(k) => k,
            None => before.len() as int,
        };
        assert(after[k].show_id == show_id && after[k].about == feed[i]);
    } else {
        assert(rest[i] == feed[i]);
        assert forall|j: int| i < j < rest.len() implies (#[trigger] rest[j]).guid
            != rest[i].guid by {
            assert(rest[j] == feed[j]);
        }
        law_feed_is_saved(episodes, show_id, rest, i);
        let k = choose|k: int|
            {
                &&& 0 <= k < before.len()
                &&& (#[trigger] before[k]).show_id == show_id
                &&& before[k].about == rest[i]
            };
        assert(feed[feed.len() - 1].guid != feed[i].guid);
        assert(after[k] == before[k]);
    }
}

/// The guids in a feed that the show has no episode for.
pub open spec fn lacked_guids(
    episodes: Seq<rows::EpisodeRowView>,
    show_id: int,
    feed: Seq<rows::NewEpisodeView>,
) -> Set<Seq<char>> {
    Set::new(
        |guid: Seq<char>|
            guid_index(episodes, show_id, guid) is None && exists|i: int|
                0 <= i < feed.len() && (#[trigger] feed[i]).guid == guid,
    )
}

/// What a show knows after reading a feed: what it knew, and what the feed holds.
proof fn lemma_known_after(
    episodes: Seq<rows::EpisodeRowView>,
    show_id: int,
    feed: Seq<rows::NewEpisodeView>,
    guid: Seq<char>,
)
    ensures
        guid_index(with_episodes(episodes, show_id, feed), show_id, guid) is None <==> guid_index(
            episodes,
            show_id,
            guid,
        ) is None && forall|i: int| 0 <= i < feed.len() ==> (#[trigger] feed[i]).guid != guid,
    decreases feed.len(),
{
    if feed.len() > 0 {
        let rest = feed.drop_last();
        let before = with_episodes(episodes, show_id, rest);
        let after = with_episodes(episodes, show_id, feed);
        let last = feed.last();
        lemma_known_after(episodes, show_id, rest, guid);
        lemma_guid_index(before, show_id, last.guid);
        lemma_guid_index(before, show_id, guid);
        lemma_guid_index(after, show_id, guid);
        assert forall|i: int|
            #![trigger rest[i]]
            #![trigger feed[i]]
            0 <= i < rest.len() implies rest[i] == feed[i] by {}
        assert(feed[feed.len() - 1] == last);
        lemma_with_episode(before, show_id, last);
        if guid_index(before, show_id, guid) is Some {
            let k = guid_index(before, show_id, guid)->Some_0;
            assert(after[k].about.guid == guid && after[k].show_id == show_id);
        } else if last.guid == guid {
            lemma_feed_is_known(episodes, show_id, feed, feed.len() - 1);
        } else {
            assert forall|k: int| 0 <= k < after.len() && (#[trigger] after[k]).show_id
                == show_id implies after[k].about.guid != guid by {
                if k < before.len() {
                    assert(after[k].about.guid == before[k].about.guid);
                }
            }
        }
    }
}

/// How many episodes are new: as many as there are different guids in the feed that the show lacked.
pub proof fn law_new_episodes_are_the_guids_lacked(
    episodes: Seq<rows::EpisodeRowView>,
    show_id: int,
    feed: Seq<rows::NewEpisodeView>,
)
    ensures
        lacked_guids(episodes, show_id, feed).finite(),
        lacked_guids(episodes, show_id, feed).len() == new_episodes(episodes, show_id, feed),
    decreases feed.len(),
{
    let lacked = lacked_guids(episodes, show_id, feed);
    if feed.len() == 0 {
        assert(lacked =~= Set::empty());
    } else {
        let rest = feed.drop_last();
        let had = lacked_guids(episodes, show_id, rest);
        let last = feed.last();
        law_new_episodes_are_the_guids_lacked(episodes, show_id, rest);
        lemma_known_after(episodes, show_id, rest, last.guid);
        assert forall|i: int| 0 <= i < rest.len() implies #[trigger] rest[i] == feed[i] by {}
        assert(feed[feed.len() - 1] == last);
        assert forall|guid: Seq<char>| #[trigger] had.contains(guid) implies lacked.contains(
            guid,
        ) by {
            let i = choose|i: int| 0 <= i < rest.len() && (#[trigger] rest[i]).guid == guid;
            assert(feed[i].guid == guid);
        }
        assert forall|guid: Seq<char>| #[trigger] lacked.contains(guid) && guid
            != last.guid implies had.contains(guid) by {
            let i = choose|i: int| 0 <= i < feed.len() && (#[trigger] feed[i]).guid == guid;
            assert(rest[i].guid == guid);
        }
        if guid_index(with_episodes(episodes, show_id, rest), show_id, last.guid) is None {
            assert(lacked =~= had.insert(last.guid));
        } else {
            assert(lacked =~= had);
        }
    }
}

proof fn lemma_nothing_new(
    episodes: Seq<rows::EpisodeRowView>,
    show_id: int,
    feed: Seq<rows::NewEpisodeView>,
)
    requires
        forall|i: int|
            0 <= i < feed.len() ==> guid_index(episodes, show_id, (#[trigger] feed[i]).guid) is Some,
    ensures
        new_episodes(episodes, show_id, feed) == 0,
        with_episodes(episodes, show_id, feed).len() == episodes.len(),
    decreases feed.len(),
{
    if feed.len() > 0 {
        let rest = feed.drop_last();
        assert forall|i: int| 0 <= i < rest.len() implies guid_index(
            episodes,
            show_id,
            (#[trigger] rest[i]).guid,
        ) is Some by {
            assert(rest[i] == feed[i]);
        }
        lemma_nothing_new(episodes, show_id, rest);
        law_refresh_keeps_progress(episodes, show_id, rest);
        let before = with_episodes(episodes, show_id, rest);
        let guid = feed[feed.len() - 1].guid;
        assert(guid_index(episodes, show_id, guid) is Some);
        lemma_guid_index(episodes, show_id, guid);
        let k = guid_index(episodes, show_id, guid)->Some_0;
        assert(before[k].show_id == episodes[k].show_id && before[k].about.guid
            == episodes[k].about.guid);
        lemma_guid_index(before, show_id, guid);
    }
}

/// Reading the same feed again finds nothing new.
pub proof fn law_second_refresh_adds_nothing(
    episodes: Seq<rows::EpisodeRowView>,
    show_id: int,
    feed: Seq<rows::NewEpisodeView>,
)
    ensures
        new_episodes(with_episodes(episodes, show_id, feed), show_id, feed) == 0,
        with_episodes(with_episodes(episodes, show_id, feed), show_id, feed).len()
            == with_episodes(episodes, show_id, feed).len(),
{
    let all = with_episodes(episodes, show_id, feed);
    assert forall|i: int| 0 <= i < feed.len() implies guid_index(
        all,
        show_id,
        (#[trigger] feed[i]).guid,
    ) is Some by {
        lemma_feed_is_known(episodes, show_id, feed, i);
    }
    lemma_nothing_new(all, show_id, feed);
}

/// Saving keeps ids and guids apart.
proof fn lemma_with_episode_sound(
    store: records::StoreView,
    show_id: int,
    about: rows::NewEpisodeView,
)
    requires
        store.sound(),
    ensures
        (records::StoreView {
            episodes: with_episode(store.episodes, show_id, about),
            ..store
        }).sound(),
{
    let before = store.episodes;
    let after = with_episode(before, show_id, about);
    let ids = records::episode_ids(before);
    lemma_guid_index(before, show_id, about.guid);
    lemma_with_episode(before, show_id, about);
    records::law_next_id_is_new(ids);
    assert forall|k: int| 0 <= k < before.len() implies (#[trigger] before[k]).id == ids[k] by {}
    assert forall|i: int, j: int| 0 <= i < j < after.len() implies (#[trigger] after[i]).id != (
    #[trigger] after[j]).id && (after[i].show_id == after[j].show_id ==> after[i].about.guid
        != after[j].about.guid) by {
        assert(after[i].id == before[i].id);
        if j < before.len() {
            assert(after[j].id == before[j].id);
        } else {
            assert(ids[i] < records::next_id(ids));
        }
    }
}

proof fn lemma_with_episodes_sound(
    store: records::StoreView,
    show_id: int,
    feed: Seq<rows::NewEpisodeView>,
)
    requires
        store.sound(),
    ensures
        (records::StoreView {
            episodes: with_episodes(store.episodes, show_id, feed),
            ..store
        }).sound(),
    decreases feed.len(),
{
    if feed.len() > 0 {
        lemma_with_episodes_sound(store, show_id, feed.drop_last());
        let before = records::StoreView {
            episodes: with_episodes(store.episodes, show_id, feed.drop_last()),
            ..store
        };
        lemma_with_episode_sound(before, show_id, feed.last());
    }
}

/// A feed that has been saved leaves a sound store.
pub proof fn lemma_refreshed_sound(
    store: records::StoreView,
    i: int,
    title: Option<Seq<char>>,
    image_url: Option<Seq<char>>,
    feed: Seq<rows::NewEpisodeView>,
    at: Seq<char>,
)
    requires
        store.sound(),
        0 <= i < store.shows.len(),
    ensures
        (records::StoreView {
            shows: store.shows.update(i, refreshed(store.shows[i], title, image_url, at)),
            episodes: with_episodes(store.episodes, store.shows[i].id, feed),
        }).sound(),
{
    let shows = store.shows.update(i, refreshed(store.shows[i], title, image_url, at));
    lemma_with_episodes_sound(store, store.shows[i].id, feed);
    assert forall|k: int| 0 <= k < shows.len() implies (#[trigger] shows[k]).id
        == store.shows[k].id && shows[k].name == store.shows[k].name && shows[k].feed_url
        == store.shows[k].feed_url by {}
}

fn find_guid(episodes: &Vec<EpisodeRow>, show_id: i64, guid: &str) -> (r: Option<usize>)
    ensures
        ({
            let all = episodes@.map_values(|r: EpisodeRow| r@);
            match r {
                Some(i) => i < episodes@.len() && guid_index(all, show_id as int, guid@) == Some(
                    i as int,
                ),
                None => guid_index(all, show_id as int, guid@) is None,
            }
        }),
{
    let ghost all = episodes@.map_values(|r: EpisodeRow| r@);
    let mut i: usize = episodes.len();
    assert(all.take(all.len() as int) =~= all);
    while i > 0
        invariant
            i <= episodes@.len(),
            all == episodes@.map_values(|r: EpisodeRow| r@),
            guid_index(all, show_id as int, guid@) == guid_index(
                all.take(i as int),
                show_id as int,
                guid@,
            ),
        decreases i,
    {
        i -= 1;
        assert(all.take(i + 1).drop_last() =~= all.take(i as int));
        assert(all.take(i + 1).last() == episodes@[i as int]@);
        if episodes[i].show_id == show_id && text::same(&episodes[i].about.guid, guid) {
            return Some(i);
        }
    }
    None
}

fn next_episode_id(episodes: &Vec<EpisodeRow>) -> (r: Option<i64>)
    ensures
        ({
            let ids = records::episode_ids(episodes@.map_values(|r: EpisodeRow| r@));
            match r {
                Some(id) => records::next_id(ids) == id,
                None => records::next_id(ids) > i64::MAX,
            }
        }),
{
    if episodes.len() == 0 {
        return Some(1);
    }
    let ghost ids = records::episode_ids(episodes@.map_values(|r: EpisodeRow| r@));
    let mut top: i64 = episodes[0].id;
    let mut i: usize = 1;
    assert(ids.take(1)[0] == ids[0]);
    while i < episodes.len()
        invariant
            1 <= i <= episodes@.len(),
            ids == records::episode_ids(episodes@.map_values(|r: EpisodeRow| r@)),
            top == records::largest(ids.take(i as int)),
        decreases episodes@.len() - i,
    {
        assert(ids.take(i + 1).drop_last() =~= ids.take(i as int));
        assert(ids.take(i + 1).last() == episodes@[i as int].id);
        if episodes[i].id >= top {
            top = episodes[i].id;
        }
        i += 1;
    }
    assert(ids.take(ids.len() as int) =~= ids);
    if top == i64::MAX {
        None
    } else {
        Some(top + 1)
    }
}

fn copy_rows(episodes: &Vec<EpisodeRow>) -> (r: Vec<EpisodeRow>)
    ensures
        r@.map_values(|r: EpisodeRow| r@) == episodes@.map_values(|r: EpisodeRow| r@),
{
    let mut r: Vec<EpisodeRow> = Vec::new();
    let mut i: usize = 0;
    while i < episodes.len()
        invariant
            i <= episodes@.len(),
            r@.len() == i,
            forall|j: int| 0 <= j < i ==> (#[trigger] r@[j])@ == episodes@[j]@,
        decreases episodes@.len() - i,
    {
        let row = episodes[i].copy();
        r.push(row);
        i += 1;
    }
    assert(r@.map_values(|r: EpisodeRow| r@) =~= episodes@.map_values(|r: EpisodeRow| r@));
    r
}

/// The episodes' views.
pub open spec fn feed_view(feed: Seq<NewEpisode>) -> Seq<rows::NewEpisodeView> {
    feed.map_values(|e: NewEpisode| e@)
}

/// Save a feed's episodes among `episodes`; how many were new, or that the ids ran out.
fn merge(episodes: &mut Vec<EpisodeRow>, show_id: i64, feed: &[NewEpisode]) -> (r: Option<usize>)
    ensures
        ({
            let before = old(episodes)@.map_values(|r: EpisodeRow| r@);
            let after = with_episodes(before, show_id as int, feed_view(feed@));
            match r {
                Some(n) => {
                    &&& final(episodes)@.map_values(|r: EpisodeRow| r@) == after
                    &&& n == new_episodes(before, show_id as int, feed_view(feed@))
                    &&& ids_fit(before) ==> ids_fit(after)
                },
                None => !ids_fit(after),
            }
        }),
{
    let ghost before = episodes@.map_values(|r: EpisodeRow| r@);
    let ghost all = feed_view(feed@);
    let mut added: usize = 0;
    let mut i: usize = 0;
    assert(all.take(0) =~= seq![]);
    while i < feed.len()
        invariant
            i <= feed@.len(),
            all == feed_view(feed@),
            added <= i,
            before == old(episodes)@.map_values(|r: EpisodeRow| r@),
            episodes@.map_values(|r: EpisodeRow| r@) == with_episodes(
                before,
                show_id as int,
                all.take(i as int),
            ),
            added == new_episodes(before, show_id as int, all.take(i as int)),
            ids_fit(before) ==> ids_fit(episodes@.map_values(|r: EpisodeRow| r@)),
        decreases feed@.len() - i,
    {
        let ghost had = episodes@.map_values(|r: EpisodeRow| r@);
        let e = &feed[i];
        assert(all.take(i + 1).drop_last() =~= all.take(i as int));
        assert(all.take(i + 1).last() == e@);
        proof {
            lemma_guid_index(had, show_id as int, e@.guid);
        }
        match find_guid(episodes, show_id, &e.guid) {
            Some(k) => {
                let row = &episodes[k];
                assert(had[k as int] == row@);
                let changed = EpisodeRow {
                    id: row.id,
                    show_id: row.show_id,
                    about: e.copy(),
                    position: row.position,
                    played: row.played,
                    download_path: text::copy(&row.download_path),
                };
                episodes.set(k, changed);
                assert(episodes@.map_values(|r: EpisodeRow| r@) =~= with_episode(
                    had,
                    show_id as int,
                    e@,
                ));
            },
            None => {
                let id = match next_episode_id(episodes) {
                    Some(id) => id,
                    None => {
                        proof {
                            let now = with_episodes(before, show_id as int, all.take(i + 1));
                            lemma_rows_kept(before, show_id as int, all, i + 1);
                            assert(now[had.len() as int].id > i64::MAX);
                        }
                        return None;
                    },
                };
                let row = EpisodeRow {
                    id,
                    show_id,
                    about: e.copy(),
                    position: 0,
                    played: false,
                    download_path: None,
                };
                episodes.push(row);
                added += 1;
                assert(episodes@.map_values(|r: EpisodeRow| r@) =~= with_episode(
                    had,
                    show_id as int,
                    e@,
                ));
            },
        }
        i += 1;
    }
    assert(all.take(all.len() as int) =~= all);
    Some(added)
}

impl Store {
    /// Save what a feed says: the show's title and picture, and every episode. New ones are added,
    /// known ones changed; where you stopped and what you downloaded is left alone. The answer is
    /// how many are new. `at` is the time of day, as text.
    pub fn save_feed(
        &mut self,
        name: &str,
        title: Option<&str>,
        image_url: Option<&str>,
        feed: &[NewEpisode],
        at: &str,
    ) -> (r: Result<usize, StoreError>)
        requires
            old(self)@.sound(),
        ensures
            final(self)@.sound(),
            match records::show_index(old(self)@.shows, name@) {
                None => r matches Err(e) && e@ == records::StoreErrorView::NoShow(name@)
                    && final(self)@ == old(self)@,
                Some(i) => {
                    let show = old(self)@.shows[i];
                    let after = with_episodes(old(self)@.episodes, show.id, feed_view(feed@));
                    if !ids_fit(after) {
                        r matches Err(e) && e is NoMoreIds && final(self)@ == old(self)@
                    } else {
                        &&& r matches Ok(n) && n == new_episodes(
                            old(self)@.episodes,
                            show.id,
                            feed_view(feed@),
                        )
                        &&& final(self)@.episodes == after
                        &&& final(self)@.shows == old(self)@.shows.update(
                            i,
                            refreshed(show, address::opt_str(title), address::opt_str(image_url), at@),
                        )
                    }
                },
            },
    {
        let i = match self.find_show(name) {
            Some(i) => i,
            None => {
                return Err(StoreError::NoShow(name.to_owned()));
            },
        };
        let ghost before = self@;
        let row = &self.shows[i];
        let show_id = row.id;
        assert(before.shows[i as int] == row@);
        assert(ids_fit(before.episodes));
        let mut episodes = copy_rows(&self.episodes);
        let added = match merge(&mut episodes, show_id, feed) {
            Some(n) => n,
            None => {
                return Err(StoreError::NoMoreIds);
            },
        };
        let changed = ShowRow {
            id: row.id,
            name: row.name.clone(),
            feed_url: row.feed_url.clone(),
            title: match title {
                Some(t) => Some(t.to_owned()),
                None => text::copy(&row.title),
            },
            image_url: match image_url {
                Some(u) => Some(u.to_owned()),
                None => text::copy(&row.image_url),
            },
            added_at: row.added_at.clone(),
            refreshed_at: Some(at.to_owned()),
        };
        self.shows.set(i, changed);
        self.episodes = episodes;
        proof {
            let show = before.shows[i as int];
            let now = refreshed(show, address::opt_str(title), address::opt_str(image_url), at@);
            assert(changed@ == now);
            assert(self@.shows =~= before.shows.update(i as int, now));
            lemma_refreshed_sound(
                before,
                i as int,
                address::opt_str(title),
                address::opt_str(image_url),
                feed_view(feed@),
                at@,
            );
        }
        Ok(added)
    }
}

// ── Single episodes ──────────────────────────────────────────────────────

/// Where the show with this id stands.
pub open spec fn show_id_index(shows: Seq<rows::ShowRowView>, id: int) -> Option<int>
    decreases shows.len(),
{
    if shows.len() == 0 {
        None
    } else if shows[0].id == id {
        Some(0)
    } else {
        match show_id_index(shows.skip(1), id) {
            Some(i) => Some(i + 1),
            None => None,
        }
    }
}

pub proof fn lemma_show_id_index(shows: Seq<rows::ShowRowView>, id: int)
    ensures
        match show_id_index(shows, id) {
            Some(i) => 0 <= i < shows.len() && shows[i].id == id,
            None => !records::has_show_id(shows, id),
        },
    decreases shows.len(),
{
    if shows.len() > 0 && shows[0].id != id {
        let rest = shows.skip(1);
        lemma_show_id_index(rest, id);
        if show_id_index(rest, id) is None {
            assert forall|k: int| 0 <= k < shows.len() implies (#[trigger] shows[k]).id != id by {
                if k > 0 {
                    assert(rest[k - 1] == shows[k]);
                }
            }
        }
    }
}

/// The first episode that `wanted` picks, under the name of its show. An episode without a show is
/// none.
pub open spec fn first_episode(
    shows: Seq<rows::ShowRowView>,
    episodes: Seq<rows::EpisodeRowView>,
    wanted: spec_fn(rows::EpisodeRowView) -> bool,
) -> Option<rows::EpisodeView>
    decreases episodes.len(),
{
    if episodes.len() == 0 {
        None
    } else if wanted(episodes[0]) && show_id_index(shows, episodes[0].show_id) is Some {
        Some(
            rows::episode_of(
                episodes[0],
                shows[show_id_index(shows, episodes[0].show_id)->Some_0].name,
            ),
        )
    } else {
        first_episode(shows, episodes.skip(1), wanted)
    }
}

pub open spec fn has_id(id: int) -> spec_fn(rows::EpisodeRowView) -> bool {
    |row: rows::EpisodeRowView| row.id == id
}

/// Is the episode streamed from here, or downloaded to here?
pub open spec fn has_uri(uri: Seq<char>) -> spec_fn(rows::EpisodeRowView) -> bool {
    |row: rows::EpisodeRowView| row.about.url == uri || row.download_path == Some(uri)
}

/// The episode with this id.
pub open spec fn episode_with_id(store: records::StoreView, id: int) -> Option<rows::EpisodeView> {
    first_episode(store.shows, store.episodes, has_id(id))
}

/// The first episode with this stream or file.
pub open spec fn episode_with_uri(store: records::StoreView, uri: Seq<char>) -> Option<
    rows::EpisodeView,
> {
    first_episode(store.shows, store.episodes, has_uri(uri))
}

/// The episodes once it is known where playback of one is.
pub open spec fn with_position(
    episodes: Seq<rows::EpisodeRowView>,
    id: int,
    position: int,
    played: bool,
) -> Seq<rows::EpisodeRowView> {
    episodes.map_values(
        |row: rows::EpisodeRowView|
            if row.id == id {
                rows::EpisodeRowView {
                    position: if position < 0 {
                        0
                    } else {
                        position
                    },
                    played,
                    ..row
                }
            } else {
                row
            },
    )
}

/// The episodes once one has been downloaded, or its download is gone.
pub open spec fn with_download(
    episodes: Seq<rows::EpisodeRowView>,
    id: int,
    path: Option<Seq<char>>,
) -> Seq<rows::EpisodeRowView> {
    episodes.map_values(
        |row: rows::EpisodeRowView|
            if row.id == id {
                rows::EpisodeRowView { download_path: path, ..row }
            } else {
                row
            },
    )
}

/// The store without the show at `i` and its episodes.
pub open spec fn without_show(store: records::StoreView, i: int) -> records::StoreView {
    records::StoreView {
        shows: store.shows.remove(i),
        episodes: store.episodes.filter(
            |row: rows::EpisodeRowView| row.show_id != store.shows[i].id,
        ),
    }
}

impl Store {
    fn show_name(&self, id: i64) -> (r: Option<&String>)
        ensures
            match r {
                Some(name) => show_id_index(self@.shows, id as int) matches Some(i)
                    && self@.shows[i].name == name@,
                None => show_id_index(self@.shows, id as int) is None,
            },
    {
        let ghost all = self@.shows;
        let mut i: usize = 0;
        assert(all.skip(0) =~= all);
        while i < self.shows.len()
            invariant
                i <= self.shows@.len(),
                all == self@.shows,
                show_id_index(all, id as int) == match show_id_index(
                    all.skip(i as int),
                    id as int,
                ) {
                    Some(k) => Some(k + i),
                    None => None,
                },
            decreases self.shows@.len() - i,
        {
            assert(all.skip(i as int).skip(1) =~= all.skip(i + 1));
            assert(all.skip(i as int)[0] == self.shows@[i as int]@);
            if self.shows[i].id == id {
                return Some(&self.shows[i].name);
            }
            i += 1;
        }
        None
    }

    /// The episode with this id.
    pub fn episode(&self, id: i64) -> (r: Result<Episode, StoreError>)
        ensures
            match episode_with_id(self@, id as int) {
                Some(e) => r matches Ok(episode) && episode@ == e,
                None => r matches Err(e) && e@ == records::StoreErrorView::NoEpisode(id as int),
            },
    {
        let ghost all = self@.episodes;
        let mut i: usize = 0;
        assert(all.skip(0) =~= all);
        while i < self.episodes.len()
            invariant
                i <= self.episodes@.len(),
                all == self@.episodes,
                episode_with_id(self@, id as int) == first_episode(
                    self@.shows,
                    all.skip(i as int),
                    has_id(id as int),
                ),
            decreases self.episodes@.len() - i,
        {
            assert(all.skip(i as int).skip(1) =~= all.skip(i + 1));
            assert(all.skip(i as int)[0] == self.episodes@[i as int]@);
            let row = &self.episodes[i];
            if row.id == id {
                if let Some(name) = self.show_name(row.show_id) {
                    return Ok(read_episode(row, name));
                }
            }
            i += 1;
        }
        Err(StoreError::NoEpisode(id))
    }

    /// The episode that mpd is playing, recognised by its stream or its downloaded file.
    pub fn episode_by_uri(&self, uri: &str) -> (r: Option<Episode>)
        ensures
            match r {
                Some(episode) => episode_with_uri(self@, uri@) == Some(episode@),
                None => episode_with_uri(self@, uri@) is None,
            },
    {
        let ghost all = self@.episodes;
        let mut i: usize = 0;
        assert(all.skip(0) =~= all);
        while i < self.episodes.len()
            invariant
                i <= self.episodes@.len(),
                all == self@.episodes,
                episode_with_uri(self@, uri@) == first_episode(
                    self@.shows,
                    all.skip(i as int),
                    has_uri(uri@),
                ),
            decreases self.episodes@.len() - i,
        {
            assert(all.skip(i as int).skip(1) =~= all.skip(i + 1));
            assert(all.skip(i as int)[0] == self.episodes@[i as int]@);
            let row = &self.episodes[i];
            let saved = match &row.download_path {
                Some(path) => text::same(path, uri),
                None => false,
            };
            if saved || text::same(&row.about.url, uri) {
                if let Some(name) = self.show_name(row.show_id) {
                    return Some(read_episode(row, name));
                }
            }
            i += 1;
        }
        None
    }

    /// Remember where playback is, and whether the episode counts as heard. A position before the
    /// start is the start. An id that no episode has changes nothing.
    pub fn set_position(&mut self, id: i64, position: i64, played: bool)
        requires
            old(self)@.sound(),
        ensures
            final(self)@.sound(),
            final(self)@.shows == old(self)@.shows,
            final(self)@.episodes == with_position(
                old(self)@.episodes,
                id as int,
                position as int,
                played,
            ),
    {
        let ghost before = self@;
        let ghost after = with_position(before.episodes, id as int, position as int, played);
        let position: i64 = if position < 0 {
            0
        } else {
            position
        };
        assert(after =~= with_position(before.episodes, id as int, position as int, played));
        let mut i: usize = 0;
        while i < self.episodes.len()
            invariant
                i <= self.episodes@.len(),
                self@.shows == before.shows,
                self@.episodes.len() == before.episodes.len(),
                before.sound(),
                before == old(self)@,
                0 <= position,
                after == with_position(before.episodes, id as int, position as int, played),
                forall|k: int| 0 <= k < i ==> #[trigger] self@.episodes[k] == after[k],
                forall|k: int|
                    i <= k < self@.episodes.len() ==> #[trigger] self@.episodes[k]
                        == before.episodes[k],
            decreases self.episodes@.len() - i,
        {
            assert(self@.episodes[i as int] == self.episodes@[i as int]@);
            if self.episodes[i].id == id {
                let row = &self.episodes[i];
                let changed = EpisodeRow {
                    id: row.id,
                    show_id: row.show_id,
                    about: row.about.copy(),
                    position,
                    played,
                    download_path: text::copy(&row.download_path),
                };
                let ghost had = self@.episodes;
                self.episodes.set(i, changed);
                assert(self@.episodes =~= had.update(i as int, changed@));
            }
            i += 1;
        }
        assert(self@.episodes =~= after);
    }

    /// Record where an episode was downloaded, as mpd's path inside the music folder, or that it no
    /// longer is. An id that no episode has changes nothing.
    pub fn set_download(&mut self, id: i64, path: Option<&str>)
        requires
            old(self)@.sound(),
        ensures
            final(self)@.sound(),
            final(self)@.shows == old(self)@.shows,
            final(self)@.episodes == with_download(
                old(self)@.episodes,
                id as int,
                address::opt_str(path),
            ),
    {
        let ghost before = self@;
        let ghost after = with_download(before.episodes, id as int, address::opt_str(path));
        let mut i: usize = 0;
        while i < self.episodes.len()
            invariant
                i <= self.episodes@.len(),
                self@.shows == before.shows,
                self@.episodes.len() == before.episodes.len(),
                before.sound(),
                before == old(self)@,
                after == with_download(before.episodes, id as int, address::opt_str(path)),
                forall|k: int| 0 <= k < i ==> #[trigger] self@.episodes[k] == after[k],
                forall|k: int|
                    i <= k < self@.episodes.len() ==> #[trigger] self@.episodes[k]
                        == before.episodes[k],
            decreases self.episodes@.len() - i,
        {
            assert(self@.episodes[i as int] == self.episodes@[i as int]@);
            if self.episodes[i].id == id {
                let row = &self.episodes[i];
                let changed = EpisodeRow {
                    id: row.id,
                    show_id: row.show_id,
                    about: row.about.copy(),
                    position: row.position,
                    played: row.played,
                    download_path: match path {
                        Some(p) => Some(p.to_owned()),
                        None => None,
                    },
                };
                let ghost had = self@.episodes;
                self.episodes.set(i, changed);
                assert(self@.episodes =~= had.update(i as int, changed@));
            }
            i += 1;
        }
        assert(self@.episodes =~= after);
    }

    /// Forget a show and its episodes. Downloaded files are the caller's to remove.
    pub fn forget(&mut self, name: &str) -> (r: Result<(), StoreError>)
        requires
            old(self)@.sound(),
        ensures
            final(self)@.sound(),
            match records::show_index(old(self)@.shows, name@) {
                Some(i) => r is Ok && final(self)@ == without_show(old(self)@, i),
                None => r matches Err(e) && e@ == records::StoreErrorView::NoShow(name@)
                    && final(self)@ == old(self)@,
            },
    {
        let i = match self.find_show(name) {
            Some(i) => i,
            None => {
                return Err(StoreError::NoShow(name.to_owned()));
            },
        };
        let ghost before = self@;
        let show_id = self.shows[i].id;
        assert(before.shows[i as int] == self.shows@[i as int]@);
        let kept = self.rows_of_others(show_id);
        self.shows.remove(i);
        self.episodes = kept;
        assert(self@.shows =~= before.shows.remove(i as int));
        proof {
            lemma_without_show_sound(before, i as int);
        }
        Ok(())
    }

    fn rows_of_others(&self, show_id: i64) -> (r: Vec<EpisodeRow>)
        ensures
            r@.map_values(|row: EpisodeRow| row@) == self@.episodes.filter(
                |row: rows::EpisodeRowView| row.show_id != show_id,
            ),
    {
        let ghost all = self@.episodes;
        let ghost other = |row: rows::EpisodeRowView| row.show_id != show_id;
        let mut r: Vec<EpisodeRow> = Vec::new();
        let mut i: usize = 0;
        reveal(Seq::filter);
        assert(r@.map_values(|row: EpisodeRow| row@) =~= all.take(0).filter(other));
        while i < self.episodes.len()
            invariant
                i <= self.episodes@.len(),
                all == self@.episodes,
                other == (|row: rows::EpisodeRowView| row.show_id != show_id),
                r@.map_values(|row: EpisodeRow| row@) == all.take(i as int).filter(other),
            decreases self.episodes@.len() - i,
        {
            reveal(Seq::filter);
            assert(all.take(i + 1).drop_last() =~= all.take(i as int));
            assert(all.take(i + 1).last() == self.episodes@[i as int]@);
            let ghost had = r@.map_values(|row: EpisodeRow| row@);
            if self.episodes[i].show_id != show_id {
                let row = self.episodes[i].copy();
                r.push(row);
                assert(r@.map_values(|row: EpisodeRow| row@) =~= had.push(row@));
            }
            i += 1;
        }
        assert(all.take(all.len() as int) =~= all);
        r
    }
}

pub proof fn lemma_without_show_sound(store: records::StoreView, i: int)
    requires
        store.sound(),
        0 <= i < store.shows.len(),
    ensures
        without_show(store, i).sound(),
{
    let other = |row: rows::EpisodeRowView| row.show_id != store.shows[i].id;
    let shows = store.shows.remove(i);
    let kept = store.episodes.filter(other);
    assert forall|k: int| 0 <= k < shows.len() implies #[trigger] shows[k] == store.shows[if k < i {
        k
    } else {
        k + 1
    }] by {}
    order::lemma_source(store.episodes, other);
    assert forall|a: int, b: int| 0 <= a < b < kept.len() implies (#[trigger] kept[a]).id != (
    #[trigger] kept[b]).id && (kept[a].show_id == kept[b].show_id ==> kept[a].about.guid
        != kept[b].about.guid) by {
        let x = order::source(store.episodes, other, a);
        let y = order::source(store.episodes, other, b);
        assert(store.episodes[x].id != store.episodes[y].id);
    }
}

} // verus!
