//! The store: what it holds, what each request changes, and what each question is answered.
use vstd::prelude::*;

use crate::number;
use crate::store::order;
use crate::store::rows::{read_episode, Episode, EpisodeRow, Show, ShowRow};
use crate::store::rows;
use crate::text;

verus! {

/// A show's name has at most this many characters.
pub const MAX_NAME: usize = 64;

/// Podcast shows and their episodes.
pub struct Store {
    pub shows: Vec<ShowRow>,
    pub episodes: Vec<EpisodeRow>,
}

/// Why a request to the store failed.
#[derive(Debug, Clone, PartialEq, Eq)]
pub enum StoreError {
    /// not a name for a show
    BadName,
    /// no show has this name
    NoShow(String),
    /// no episode has this id
    NoEpisode(i64),
    /// another show is read from this feed
    FeedTaken(String),
    /// there is no higher id to give
    NoMoreIds,
    /// the records contradict each other
    Broken,
    /// the file was written by a later version
    Newer,
    /// the file stays in this journal mode
    NotWal(String),
}

/// A `StoreError`, with its texts as sequences.
pub ghost enum StoreErrorView {
    BadName,
    NoShow(Seq<char>),
    NoEpisode(int),
    FeedTaken(Seq<char>),
    NoMoreIds,
    Broken,
    Newer,
    NotWal(Seq<char>),
}

impl View for StoreError {
    type V = StoreErrorView;

    open spec fn view(&self) -> StoreErrorView {
        match *self {
            StoreError::BadName => StoreErrorView::BadName,
            StoreError::NoShow(n) => StoreErrorView::NoShow(n@),
            StoreError::NoEpisode(id) => StoreErrorView::NoEpisode(id as int),
            StoreError::FeedTaken(u) => StoreErrorView::FeedTaken(u@),
            StoreError::NoMoreIds => StoreErrorView::NoMoreIds,
            StoreError::Broken => StoreErrorView::Broken,
            StoreError::Newer => StoreErrorView::Newer,
            StoreError::NotWal(m) => StoreErrorView::NotWal(m@),
        }
    }
}

/// What an error says to a person.
pub open spec fn error_message(e: StoreErrorView) -> Seq<char> {
    match e {
        StoreErrorView::BadName => "a show name is up to "@ + number::decimal(MAX_NAME as nat)
            + " letters, digits, dashes, underscores or dots"@,
        StoreErrorView::NoShow(n) => "no show named "@ + n,
        StoreErrorView::NoEpisode(id) => "no episode "@ + number::signed_decimal(id),
        StoreErrorView::FeedTaken(u) => "another show is read from "@ + u,
        StoreErrorView::NoMoreIds => "the store has no more ids"@,
        StoreErrorView::Broken => "the store's records contradict each other"@,
        StoreErrorView::Newer => "this store was written by a newer mg-streamr"@,
        StoreErrorView::NotWal(m) => "store could not switch to WAL (journal mode "@ + m + ")"@,
    }
}

impl StoreError {
    /// What the error says to a person.
    pub fn message(&self) -> (m: String)
        ensures
            m@ == error_message(self@),
    {
        match self {
            StoreError::BadName => "a show name is up to ".to_owned().concat(
                &number::write_number(MAX_NAME as u64),
            ).concat(" letters, digits, dashes, underscores or dots"),
            StoreError::NoShow(n) => "no show named ".to_owned().concat(n),
            StoreError::NoEpisode(id) => "no episode ".to_owned().concat(
                &number::write_signed(*id),
            ),
            StoreError::FeedTaken(u) => "another show is read from ".to_owned().concat(u),
            StoreError::NoMoreIds => "the store has no more ids".to_owned(),
            StoreError::Broken => "the store's records contradict each other".to_owned(),
            StoreError::Newer => "this store was written by a newer mg-streamr".to_owned(),
            StoreError::NotWal(m) => "store could not switch to WAL (journal mode ".to_owned().concat(
                m,
            ).concat(")"),
        }
    }
}

// ── Names ────────────────────────────────────────────────────────────────

/// May this character stand in a show's name?
pub open spec fn name_char(c: char) -> bool {
    text::is_alphanumeric(c) || c == '-' || c == '_' || c == '.'
}

/// A name that is safe as a folder: letters, digits, dash, underscore, dot; not too long, and not
/// starting with a dot.
pub open spec fn is_valid_name(name: Seq<char>) -> bool {
    &&& 0 < name.len() <= MAX_NAME
    &&& name[0] != '.'
    &&& forall|i: int| 0 <= i < name.len() ==> name_char(#[trigger] name[i])
}

/// Is this a name for a show?
pub fn valid_name(name: &str) -> (r: bool)
    ensures
        r == is_valid_name(name@),
{
    let chars = text::characters(name);
    if chars.len() == 0 || chars.len() > MAX_NAME || chars[0] == '.' {
        return false;
    }
    let mut i: usize = 0;
    while i < chars.len()
        invariant
            i <= chars@.len(),
            chars@ == name@,
            forall|j: int| 0 <= j < i ==> name_char(#[trigger] name@[j]),
        decreases chars@.len() - i,
    {
        let c = chars[i];
        if !(text::alphanumeric(c) || c == '-' || c == '_' || c == '.') {
            assert(name@[i as int] == c);
            return false;
        }
        i += 1;
    }
    true
}

/// A show's name is one folder: it holds no slash, and is neither the folder itself nor the one
/// above it.
pub proof fn law_valid_name_is_one_folder(name: Seq<char>)
    requires
        is_valid_name(name),
    ensures
        !name.contains('/'),
        name != "."@,
        name != ".."@,
{
    reveal_strlit(".");
    reveal_strlit("..");
    assert forall|i: int| 0 <= i < name.len() implies name[i] != '/' by {
        assert(name_char(name[i]));
    }
}

// ── What the store holds ─────────────────────────────────────────────────

/// The store's records.
pub ghost struct StoreView {
    pub shows: Seq<rows::ShowRowView>,
    pub episodes: Seq<rows::EpisodeRowView>,
}

impl View for Store {
    type V = StoreView;

    open spec fn view(&self) -> StoreView {
        StoreView {
            shows: self.shows@.map_values(|r: ShowRow| r@),
            episodes: self.episodes@.map_values(|r: EpisodeRow| r@),
        }
    }
}

/// Is there a show with this id?
pub open spec fn has_show_id(shows: Seq<rows::ShowRowView>, id: int) -> bool {
    exists|k: int| 0 <= k < shows.len() && (#[trigger] shows[k]).id == id
}

impl StoreView {
    /// Records that do not contradict each other: ids, names and feeds of shows differ, ids of
    /// episodes differ, and no show has two episodes with one guid. An episode whose show is gone is
    /// no contradiction: it is kept, and no question is answered with it.
    pub open spec fn sound(self) -> bool {
        &&& forall|i: int, j: int|
            0 <= i < j < self.shows.len() ==> (#[trigger] self.shows[i]).id != (
            #[trigger] self.shows[j]).id
        &&& forall|i: int, j: int|
            0 <= i < j < self.shows.len() ==> (#[trigger] self.shows[i]).name != (
            #[trigger] self.shows[j]).name
        &&& forall|i: int, j: int|
            0 <= i < j < self.shows.len() ==> (#[trigger] self.shows[i]).feed_url != (
            #[trigger] self.shows[j]).feed_url
        &&& forall|i: int, j: int|
            0 <= i < j < self.episodes.len() ==> (#[trigger] self.episodes[i]).id != (
            #[trigger] self.episodes[j]).id
        &&& forall|i: int, j: int|
            0 <= i < j < self.episodes.len() && (#[trigger] self.episodes[i]).show_id == (
            #[trigger] self.episodes[j]).show_id ==> self.episodes[i].about.guid
                != self.episodes[j].about.guid
    }
}

impl StoreView {
    /// Does every episode have its show? The file sees to it that this is so, and no change ends it.
    pub open spec fn whole(self) -> bool {
        forall|i: int|
            0 <= i < self.episodes.len() ==> has_show_id(
                self.shows,
                (#[trigger] self.episodes[i]).show_id,
            )
    }
}

/// Where the show with this name stands.
pub open spec fn show_index(shows: Seq<rows::ShowRowView>, name: Seq<char>) -> Option<int>
    decreases shows.len(),
{
    if shows.len() == 0 {
        None
    } else if shows.last().name == name {
        Some(shows.len() - 1)
    } else {
        show_index(shows.drop_last(), name)
    }
}

pub proof fn lemma_show_index(shows: Seq<rows::ShowRowView>, name: Seq<char>)
    ensures
        match show_index(shows, name) {
            Some(i) => 0 <= i < shows.len() && shows[i].name == name,
            None => forall|i: int| 0 <= i < shows.len() ==> (#[trigger] shows[i]).name != name,
        },
    decreases shows.len(),
{
    if shows.len() > 0 {
        lemma_show_index(shows.drop_last(), name);
        assert forall|i: int| 0 <= i < shows.len() - 1 implies #[trigger] shows[i]
            == shows.drop_last()[i] by {}
    }
}

/// How many rows belong to the show.
pub open spec fn count_episodes(
    episodes: Seq<rows::EpisodeRowView>,
    show_id: int,
    unplayed_only: bool,
) -> nat
    decreases episodes.len(),
{
    if episodes.len() == 0 {
        0
    } else {
        count_episodes(episodes.drop_last(), show_id, unplayed_only) + (if episodes.last().show_id
            == show_id && !(unplayed_only && episodes.last().played) {
            1nat
        } else {
            0nat
        })
    }
}

/// The new episodes of a show are some of its episodes.
pub proof fn law_unplayed_are_some(episodes: Seq<rows::EpisodeRowView>, show_id: int)
    ensures
        count_episodes(episodes, show_id, true) <= count_episodes(episodes, show_id, false)
            <= episodes.len(),
    decreases episodes.len(),
{
    if episodes.len() > 0 {
        law_unplayed_are_some(episodes.drop_last(), show_id);
    }
}

/// The show that a row keeps, with its episodes counted.
pub open spec fn show_of(
    row: rows::ShowRowView,
    episodes: Seq<rows::EpisodeRowView>,
) -> rows::ShowView {
    rows::ShowView {
        id: row.id,
        name: row.name,
        feed_url: row.feed_url,
        title: row.title,
        image_url: row.image_url,
        refreshed_at: row.refreshed_at,
        episodes: count_episodes(episodes, row.id, false),
        unplayed: count_episodes(episodes, row.id, true),
    }
}

/// The largest of some ids.
pub open spec fn largest(ids: Seq<int>) -> int
    recommends
        ids.len() > 0,
    decreases ids.len(),
{
    if ids.len() <= 1 {
        ids[0]
    } else if largest(ids.drop_last()) > ids.last() {
        largest(ids.drop_last())
    } else {
        ids.last()
    }
}

/// The id that a new record gets: one more than the largest there is.
pub open spec fn next_id(ids: Seq<int>) -> int {
    if ids.len() == 0 {
        1
    } else {
        largest(ids) + 1
    }
}

pub open spec fn show_ids(shows: Seq<rows::ShowRowView>) -> Seq<int> {
    shows.map_values(|r: rows::ShowRowView| r.id)
}

pub open spec fn episode_ids(episodes: Seq<rows::EpisodeRowView>) -> Seq<int> {
    episodes.map_values(|r: rows::EpisodeRowView| r.id)
}

pub proof fn lemma_largest(ids: Seq<int>)
    requires
        ids.len() > 0,
    ensures
        forall|i: int| 0 <= i < ids.len() ==> #[trigger] ids[i] <= largest(ids),
        exists|i: int| 0 <= i < ids.len() && #[trigger] ids[i] == largest(ids),
    decreases ids.len(),
{
    if ids.len() > 1 {
        let rest = ids.drop_last();
        lemma_largest(rest);
        let k = choose|i: int| 0 <= i < rest.len() && #[trigger] rest[i] == largest(rest);
        assert(ids[k] == largest(rest));
        assert forall|i: int| 0 <= i < ids.len() implies #[trigger] ids[i] <= largest(ids) by {
            if i < ids.len() - 1 {
                assert(rest[i] == ids[i]);
            }
        }
        assert(ids[ids.len() - 1] == ids.last());
    } else {
        assert(ids[0] == largest(ids));
    }
}

/// A new id is larger than every id there is.
pub proof fn law_next_id_is_new(ids: Seq<int>)
    ensures
        forall|i: int| 0 <= i < ids.len() ==> #[trigger] ids[i] < next_id(ids),
{
    if ids.len() > 0 {
        lemma_largest(ids);
    }
}

// ── Reading ──────────────────────────────────────────────────────────────

impl Store {
    /// A store with nothing in it.
    pub fn new() -> (store: Store)
        ensures
            store@.shows == Seq::<rows::ShowRowView>::empty(),
            store@.episodes == Seq::<rows::EpisodeRowView>::empty(),
            store@.sound(),
    {
        let store = Store { shows: Vec::new(), episodes: Vec::new() };
        assert(store@.shows =~= Seq::<rows::ShowRowView>::empty());
        assert(store@.episodes =~= Seq::<rows::EpisodeRowView>::empty());
        store
    }

    pub(crate) fn find_show(&self, name: &str) -> (r: Option<usize>)
        ensures
            match r {
                Some(i) => i < self.shows@.len() && show_index(self@.shows, name@) == Some(i as int)
                    && self@.shows[i as int].name == name@,
                None => show_index(self@.shows, name@) is None,
            },
    {
        let ghost all = self@.shows;
        let mut i: usize = self.shows.len();
        assert(all.take(all.len() as int) =~= all);
        while i > 0
            invariant
                i <= self.shows@.len(),
                all == self@.shows,
                show_index(all, name@) == show_index(all.take(i as int), name@),
            decreases i,
        {
            i -= 1;
            assert(all.take(i + 1).drop_last() =~= all.take(i as int));
            assert(all.take(i + 1).last() == self.shows@[i as int]@);
            if text::same(&self.shows[i].name, name) {
                return Some(i);
            }
        }
        None
    }

    fn count(&self, show_id: i64, unplayed_only: bool) -> (n: u64)
        ensures
            n == count_episodes(self@.episodes, show_id as int, unplayed_only),
    {
        let ghost all = self@.episodes;
        let mut n: u64 = 0;
        let mut i: usize = 0;
        while i < self.episodes.len()
            invariant
                i <= self.episodes@.len(),
                all == self@.episodes,
                n <= i,
                n == count_episodes(all.take(i as int), show_id as int, unplayed_only),
            decreases self.episodes@.len() - i,
        {
            assert(all.take(i + 1).drop_last() =~= all.take(i as int));
            assert(all.take(i + 1).last() == self.episodes@[i as int]@);
            let row = &self.episodes[i];
            if row.show_id == show_id && !(unplayed_only && row.played) {
                n += 1;
            }
            i += 1;
        }
        assert(all.take(all.len() as int) =~= all);
        n
    }

    pub(crate) fn read_show(&self, i: usize) -> (r: Show)
        requires
            i < self.shows@.len(),
        ensures
            r@ == show_of(self@.shows[i as int], self@.episodes),
    {
        let row = &self.shows[i];
        assert(self@.shows[i as int] == row@);
        Show {
            id: row.id,
            name: row.name.clone(),
            feed_url: row.feed_url.clone(),
            title: text::copy(&row.title),
            image_url: text::copy(&row.image_url),
            refreshed_at: text::copy(&row.refreshed_at),
            episodes: self.count(row.id, false),
            unplayed: self.count(row.id, true),
        }
    }

    /// The show with this name.
    pub fn show(&self, name: &str) -> (r: Result<Show, StoreError>)
        ensures
            match show_index(self@.shows, name@) {
                Some(i) => r matches Ok(show) && show@ == show_of(self@.shows[i], self@.episodes),
                None => r matches Err(e) && e@ == StoreErrorView::NoShow(name@),
            },
    {
        match self.find_show(name) {
            Some(i) => Ok(self.read_show(i)),
            None => Err(StoreError::NoShow(name.to_owned())),
        }
    }

    /// Every show, by name.
    pub fn shows(&self) -> (r: Vec<Show>)
        ensures
            r@.map_values(|s: Show| s@) == order::arranged(self@.shows, by_name()).map_values(
                |row: rows::ShowRowView| show_of(row, self@.episodes),
            ),
    {
        let ghost all = self@.shows;
        let mut listed: Vec<usize> = Vec::new();
        let mut i: usize = 0;
        assert(picked(all, listed@) =~= order::arranged(all.take(0), by_name()));
        while i < self.shows.len()
            invariant
                i <= self.shows@.len(),
                all == self@.shows,
                forall|k: int| 0 <= k < listed@.len() ==> #[trigger] listed@[k] < i,
                picked(all, listed@) == order::arranged(all.take(i as int), by_name()),
            decreases self.shows@.len() - i,
        {
            let ghost before = picked(all, listed@);
            assert(all.take(i + 1).drop_last() =~= all.take(i as int));
            assert(all.take(i + 1).last() == all[i as int]);
            let mut at: usize = 0;
            while at < listed.len() && text::not_after(
                &self.shows[listed[at]].name,
                &self.shows[i].name,
            )
                invariant
                    at <= listed@.len(),
                    i < self.shows@.len(),
                    all == self@.shows,
                    before == picked(all, listed@),
                    forall|k: int| 0 <= k < listed@.len() ==> #[trigger] listed@[k] < i,
                    forall|k: int|
                        0 <= k < at ==> !(by_name())(all[i as int], #[trigger] before[k]),
                decreases listed@.len() - at,
            {
                assert(before[at as int] == all[listed@[at as int] as int]);
                at += 1;
            }
            assert(at < listed@.len() ==> before[at as int] == all[listed@[at as int] as int]);
            proof {
                order::lemma_inserted_at(before, all[i as int], by_name(), at as int);
            }
            listed.insert(at, i);
            assert(picked(all, listed@) =~= before.insert(at as int, all[i as int]));
            i += 1;
        }
        assert(all.take(all.len() as int) =~= all);
        let ghost ranked = picked(all, listed@);
        let mut r: Vec<Show> = Vec::new();
        let mut k: usize = 0;
        while k < listed.len()
            invariant
                k <= listed@.len(),
                all == self@.shows,
                ranked == picked(all, listed@),
                forall|k: int| 0 <= k < listed@.len() ==> #[trigger] listed@[k] < all.len(),
                r@.len() == k,
                forall|j: int|
                    0 <= j < k ==> (#[trigger] r@[j])@ == show_of(ranked[j], self@.episodes),
            decreases listed@.len() - k,
        {
            assert(ranked[k as int] == all[listed@[k as int] as int]);
            let show = self.read_show(listed[k]);
            r.push(show);
            k += 1;
        }
        assert(r@.map_values(|s: Show| s@) =~= ranked.map_values(
            |row: rows::ShowRowView| show_of(row, self@.episodes),
        ));
        r
    }

    /// A show's episodes, newest first, as many as asked for: at least one and at most a thousand.
    pub fn episodes(&self, name: &str, limit: usize) -> (r: Vec<Episode>)
        ensures
            r@.map_values(|e: Episode| e@) == listed_episodes(self@, name@, limit as int),
    {
        let wanted = match self.find_show(name) {
            Some(i) => i,
            None => {
                let r: Vec<Episode> = Vec::new();
                assert(r@.map_values(|e: Episode| e@) =~= seq![]);
                return r;
            },
        };
        let show_id = self.shows[wanted].id;
        let ghost all = self@.episodes;
        let ghost mine = |row: rows::EpisodeRowView| row.show_id == self@.shows[wanted as int].id;
        let mut listed: Vec<usize> = Vec::new();
        let mut i: usize = 0;
        reveal(Seq::filter);
        assert(all.take(0).filter(mine) =~= seq![]);
        assert(picked(all, listed@) =~= order::arranged(all.take(0).filter(mine), newest_first()));
        while i < self.episodes.len()
            invariant
                i <= self.episodes@.len(),
                wanted < self.shows@.len(),
                show_id == self@.shows[wanted as int].id,
                mine == (|row: rows::EpisodeRowView|
                    row.show_id == self@.shows[wanted as int].id),
                all == self@.episodes,
                forall|k: int| 0 <= k < listed@.len() ==> #[trigger] listed@[k] < i,
                picked(all, listed@) == order::arranged(
                    all.take(i as int).filter(mine),
                    newest_first(),
                ),
            decreases self.episodes@.len() - i,
        {
            reveal(Seq::filter);
            let ghost before = picked(all, listed@);
            let ghost had = all.take(i as int).filter(mine);
            assert(all.take(i + 1).drop_last() =~= all.take(i as int));
            assert(all.take(i + 1).last() == all[i as int]);
            assert(all[i as int] == self.episodes@[i as int]@);
            if self.episodes[i].show_id == show_id {
                let at = self.rank(&listed, i);
                proof {
                    order::lemma_inserted_at(before, all[i as int], newest_first(), at as int);
                    let now = all.take(i + 1).filter(mine);
                    assert(now == had.push(all[i as int]));
                    assert(now.drop_last() =~= had);
                }
                listed.insert(at, i);
                assert(picked(all, listed@) =~= before.insert(at as int, all[i as int]));
            }
            i += 1;
        }
        assert(all.take(all.len() as int) =~= all);
        let most: usize = if limit < 1 {
            1
        } else if limit > 1000 {
            1000
        } else {
            limit
        };
        let ghost ranked = picked(all, listed@);
        let mut r: Vec<Episode> = Vec::new();
        let mut k: usize = 0;
        while k < listed.len() && k < most
            invariant
                k <= listed@.len(),
                k <= most,
                wanted < self.shows@.len(),
                self@.shows[wanted as int].name == name@,
                all == self@.episodes,
                ranked == picked(all, listed@),
                forall|k: int| 0 <= k < listed@.len() ==> #[trigger] listed@[k] < all.len(),
                r@.len() == k,
                forall|j: int|
                    0 <= j < k ==> (#[trigger] r@[j])@ == rows::episode_of(ranked[j], name@),
            decreases listed@.len() - k,
        {
            assert(ranked[k as int] == all[listed@[k as int] as int]);
            let episode = read_episode(&self.episodes[listed[k]], &self.shows[wanted].name);
            r.push(episode);
            k += 1;
        }
        assert(r@.map_values(|e: Episode| e@) =~= listed_episodes(self@, name@, limit as int));
        r
    }

    /// Where row `i` goes among the rows listed.
    fn rank(&self, listed: &Vec<usize>, i: usize) -> (at: usize)
        requires
            i < self.episodes@.len(),
            forall|k: int| 0 <= k < listed@.len() ==> #[trigger] listed@[k] < i,
        ensures
            ({
                let rows = picked(self@.episodes, listed@);
                let x = self@.episodes[i as int];
                &&& at <= rows.len()
                &&& forall|k: int| 0 <= k < at ==> !(newest_first())(x, #[trigger] rows[k])
                &&& at < rows.len() ==> (newest_first())(x, rows[at as int])
            }),
    {
        let ghost rows = picked(self@.episodes, listed@);
        let ghost x = self@.episodes[i as int];
        let row = &self.episodes[i];
        assert(x == row@);
        let mut at: usize = 0;
        while at < listed.len()
            invariant
                at <= listed@.len(),
                i < self.episodes@.len(),
                row@ == x,
                x == self@.episodes[i as int],
                rows == picked(self@.episodes, listed@),
                forall|k: int| 0 <= k < listed@.len() ==> #[trigger] listed@[k] < i,
                forall|k: int| 0 <= k < at ==> !(newest_first())(x, #[trigger] rows[k]),
            decreases listed@.len() - at,
        {
            let other = &self.episodes[listed[at]];
            assert(rows[at as int] == other@);
            let no_newer = order::opt_not_after(&row.about.published_at, &other.about.published_at);
            let no_older = order::opt_not_after(&other.about.published_at, &row.about.published_at);
            proof {
                order::lemma_opt_le_total(x.about.published_at, other@.about.published_at);
            }
            if !no_newer || (no_older && row.id > other.id) {
                return at;
            }
            at += 1;
        }
        at
    }
}

/// The rows that stand at these places.
pub open spec fn picked<A>(all: Seq<A>, places: Seq<usize>) -> Seq<A> {
    places.map_values(|k: usize| all[k as int])
}

/// The order of shows: by name.
pub open spec fn by_name() -> spec_fn(rows::ShowRowView, rows::ShowRowView) -> bool {
    |a: rows::ShowRowView, b: rows::ShowRowView| !text::text_le(b.name, a.name)
}

/// The order of episodes: the one published later first, and of two published together the one
/// that was added later. An episode with no date comes after those with one.
pub open spec fn newest_first() -> spec_fn(rows::EpisodeRowView, rows::EpisodeRowView) -> bool {
    |a: rows::EpisodeRowView, b: rows::EpisodeRowView|
        !order::opt_le(a.about.published_at, b.about.published_at) || (a.about.published_at
            == b.about.published_at && a.id > b.id)
}

/// How many episodes are listed when `limit` are asked for.
pub open spec fn most_listed(limit: int) -> int {
    if limit < 1 {
        1
    } else if limit > 1000 {
        1000
    } else {
        limit
    }
}

/// The rows of the show with this name, newest first.
pub open spec fn ranked_rows(store: StoreView, name: Seq<char>) -> Seq<rows::EpisodeRowView> {
    match show_index(store.shows, name) {
        Some(i) => order::arranged(
            store.episodes.filter(|row: rows::EpisodeRowView| row.show_id == store.shows[i].id),
            newest_first(),
        ),
        None => seq![],
    }
}

/// The first `limit` of the show's episodes, newest first.
pub open spec fn listed_episodes(store: StoreView, name: Seq<char>, limit: int) -> Seq<
    rows::EpisodeView,
> {
    let rows = ranked_rows(store, name);
    let n = if rows.len() < most_listed(limit) {
        rows.len() as int
    } else {
        most_listed(limit)
    };
    rows.take(n).map_values(|row: rows::EpisodeRowView| rows::episode_of(row, name))
}

/// Episodes are listed in order, and before cutting the list off it holds each row of the show
/// once.
pub proof fn law_newest_first(store: StoreView, name: Seq<char>)
    ensures
        order::in_order(ranked_rows(store, name), newest_first()),
        show_index(store.shows, name) matches Some(i) ==> ranked_rows(store, name).to_multiset()
            == store.episodes.filter(
            |row: rows::EpisodeRowView| row.show_id == store.shows[i].id,
        ).to_multiset(),
{
    let ahead = newest_first();
    assert(order::is_order(ahead)) by {
        assert forall|a: rows::EpisodeRowView, b: rows::EpisodeRowView| ahead(a, b) implies !(
        #[trigger] ahead(b, a)) by {
            order::lemma_opt_le_total(a.about.published_at, b.about.published_at);
        }
        assert forall|a: rows::EpisodeRowView, b: rows::EpisodeRowView, c: rows::EpisodeRowView|
            !(#[trigger] ahead(b, a)) && !(#[trigger] ahead(c, b)) implies !ahead(c, a) by {
            order::lemma_opt_le_total(a.about.published_at, b.about.published_at);
            order::lemma_opt_le_total(b.about.published_at, c.about.published_at);
            order::lemma_opt_le_total(a.about.published_at, c.about.published_at);
            order::lemma_opt_le_transitive(
                c.about.published_at,
                b.about.published_at,
                a.about.published_at,
            );
            if order::opt_le(a.about.published_at, b.about.published_at) && order::opt_le(
                b.about.published_at,
                c.about.published_at,
            ) {
                order::lemma_opt_le_transitive(
                    a.about.published_at,
                    b.about.published_at,
                    c.about.published_at,
                );
            }
        }
    }
    match show_index(store.shows, name) {
        Some(i) => {
            order::law_arranged(
                store.episodes.filter(
                    |row: rows::EpisodeRowView| row.show_id == store.shows[i].id,
                ),
                ahead,
            );
        },
        None => {},
    }
}

/// Shows are listed by name, each once.
pub proof fn law_shows_by_name(shows: Seq<rows::ShowRowView>)
    ensures
        order::in_order(order::arranged(shows, by_name()), by_name()),
        order::arranged(shows, by_name()).to_multiset() == shows.to_multiset(),
{
    let ahead = by_name();
    assert(order::is_order(ahead)) by {
        assert forall|a: rows::ShowRowView, b: rows::ShowRowView| ahead(a, b) implies !(
        #[trigger] ahead(b, a)) by {
            text::lemma_text_le_total(a.name, b.name);
        }
        assert forall|a: rows::ShowRowView, b: rows::ShowRowView, c: rows::ShowRowView|
            !(#[trigger] ahead(b, a)) && !(#[trigger] ahead(c, b)) implies !ahead(c, a) by {
            text::lemma_text_le_transitive(a.name, b.name, c.name);
        }
    }
    order::law_arranged(shows, ahead);
}

} // verus!
