//! Subscribing, refreshing, and downloads, as changes to the store.
//!
//! Feeds are fetched and files are moved outside; what came of it is handed in here.
use vstd::prelude::*;

use crate::mpd::address;
use crate::mpd::reply;
use crate::mpd::reply::get;
use crate::number;
use crate::podcast::feed::{episodes_from, ParsedFeed};
use crate::podcast::feed;
use crate::podcast::files::{download_path, removable};
use crate::podcast::files;
use crate::podcast::resume;
use crate::podcast::resume::resume_from;
use crate::store::changes;
use crate::store::laws;
use crate::store::order;
use crate::store::records::{Store, StoreError};
use crate::store::records;
use crate::store::rows::{Episode, Show};
use crate::store::rows;
use crate::text;

verus! {

/// A feed with years of episodes can be large; nothing sensible is bigger.
pub const FEED_MAX_BYTES: u64 = 20 * 1024 * 1024;

pub const FEED_TIMEOUT_SECONDS: u64 = 30;

/// The largest episode, video episodes too.
pub const EPISODE_MAX_BYTES: u64 = 2 * 1024 * 1024 * 1024;

pub const EPISODE_TIMEOUT_SECONDS: u64 = 1800;

/// Why a request about podcasts failed.
#[derive(Debug, Clone, PartialEq, Eq)]
pub enum PodcastError {
    Store(StoreError),
    /// this show's feed could not be read, and why
    Feed(String, String),
    /// this show's feed has nothing to play
    NoEpisodes(String),
    /// this episode could not be fetched, and why
    Download(i64, String),
    /// this episode has no downloaded file
    NotDownloaded(i64),
    /// this file is not a download
    NotOurs(String),
    /// the file could not be deleted, and why
    Disk(String),
    /// mpd did not say that it added the episode
    NotAdded,
}

/// A `PodcastError`, with its texts as sequences.
pub ghost enum ErrorView {
    Store(records::StoreErrorView),
    Feed(Seq<char>, Seq<char>),
    NoEpisodes(Seq<char>),
    Download(int, Seq<char>),
    NotDownloaded(int),
    NotOurs(Seq<char>),
    Disk(Seq<char>),
    NotAdded,
}

impl View for PodcastError {
    type V = ErrorView;

    open spec fn view(&self) -> ErrorView {
        match *self {
            PodcastError::Store(e) => ErrorView::Store(e@),
            PodcastError::Feed(name, cause) => ErrorView::Feed(name@, cause@),
            PodcastError::NoEpisodes(name) => ErrorView::NoEpisodes(name@),
            PodcastError::Download(id, cause) => ErrorView::Download(id as int, cause@),
            PodcastError::NotDownloaded(id) => ErrorView::NotDownloaded(id as int),
            PodcastError::NotOurs(path) => ErrorView::NotOurs(path@),
            PodcastError::Disk(cause) => ErrorView::Disk(cause@),
            PodcastError::NotAdded => ErrorView::NotAdded,
        }
    }
}

/// What an error says to a person.
pub open spec fn error_message(e: ErrorView) -> Seq<char> {
    match e {
        ErrorView::Store(e) => records::error_message(e),
        ErrorView::Feed(name, cause) => "reading "@ + name + "'s feed: "@ + cause,
        ErrorView::NoEpisodes(name) => name + "'s feed has no audio or video episodes"@,
        ErrorView::Download(id, cause) => "downloading episode "@ + number::signed_decimal(id)
            + ": "@ + cause,
        ErrorView::NotDownloaded(id) => "episode "@ + number::signed_decimal(id)
            + " is not downloaded"@,
        ErrorView::NotOurs(path) => "refusing to delete "@ + path + ": not a podcast download"@,
        ErrorView::Disk(cause) => cause,
        ErrorView::NotAdded => "mpd did not add it"@,
    }
}

impl PodcastError {
    /// What the error says to a person.
    pub fn message(&self) -> (m: String)
        ensures
            m@ == error_message(self@),
    {
        match self {
            PodcastError::Store(e) => e.message(),
            PodcastError::Feed(name, cause) => "reading ".to_owned().concat(name).concat(
                "'s feed: ",
            ).concat(cause),
            PodcastError::NoEpisodes(name) => name.clone().concat(
                "'s feed has no audio or video episodes",
            ),
            PodcastError::Download(id, cause) => "downloading episode ".to_owned().concat(
                &number::write_signed(*id),
            ).concat(": ").concat(cause),
            PodcastError::NotDownloaded(id) => "episode ".to_owned().concat(
                &number::write_signed(*id),
            ).concat(" is not downloaded"),
            PodcastError::NotOurs(path) => "refusing to delete ".to_owned().concat(path).concat(
                ": not a podcast download",
            ),
            PodcastError::Disk(cause) => cause.clone(),
            PodcastError::NotAdded => "mpd did not add it".to_owned(),
        }
    }
}

// ── Feeds ────────────────────────────────────────────────────────────────

/// What came of fetching a feed: the feed, or why it could not be read.
pub open spec fn fetched_view(fetched: Result<ParsedFeed, String>) -> Result<
    feed::FeedView,
    Seq<char>,
> {
    match fetched {
        Ok(f) => Ok(f@),
        Err(cause) => Err(cause@),
    }
}

/// Why a show cannot be refreshed, if so.
pub open spec fn refresh_error(
    store: records::StoreView,
    name: Seq<char>,
    fetched: Result<feed::FeedView, Seq<char>>,
) -> Option<ErrorView> {
    match records::show_index(store.shows, name) {
        None => Some(ErrorView::Store(records::StoreErrorView::NoShow(name))),
        Some(i) => match fetched {
            Err(cause) => Some(ErrorView::Feed(name, cause)),
            Ok(f) => {
                let episodes = feed::episodes_in(f.entries);
                if episodes.len() == 0 {
                    Some(ErrorView::NoEpisodes(name))
                } else if !changes::ids_fit(
                    changes::with_episodes(store.episodes, store.shows[i].id, episodes),
                ) {
                    Some(ErrorView::Store(records::StoreErrorView::NoMoreIds))
                } else {
                    None
                }
            },
        },
    }
}

/// The store once the show at `i` has been refreshed.
pub open spec fn with_feed(store: records::StoreView, i: int, f: feed::FeedView, at: Seq<char>)
    -> records::StoreView {
    records::StoreView {
        shows: store.shows.update(
            i,
            changes::refreshed(store.shows[i], f.title, f.image_url, at),
        ),
        episodes: changes::with_episodes(
            store.episodes,
            store.shows[i].id,
            feed::episodes_in(f.entries),
        ),
    }
}

/// A borrowed text that may be absent.
fn borrowed(text: &Option<String>) -> (r: Option<&str>)
    ensures
        address::opt_str(r) == text::opt(*text),
{
    match text {
        Some(t) => Some(t.as_str()),
        None => None,
    }
}

/// Why a feed that was fetched cannot be saved, if so.
pub open spec fn save_error(
    store: records::StoreView,
    name: Seq<char>,
    fetched: Result<feed::FeedView, Seq<char>>,
) -> Option<ErrorView> {
    match fetched {
        Err(cause) => Some(ErrorView::Feed(name, cause)),
        Ok(f) => {
            let episodes = feed::episodes_in(f.entries);
            if episodes.len() == 0 {
                Some(ErrorView::NoEpisodes(name))
            } else {
                match records::show_index(store.shows, name) {
                    None => Some(ErrorView::Store(records::StoreErrorView::NoShow(name))),
                    Some(i) => if !changes::ids_fit(
                        changes::with_episodes(store.episodes, store.shows[i].id, episodes),
                    ) {
                        Some(ErrorView::Store(records::StoreErrorView::NoMoreIds))
                    } else {
                        None
                    },
                }
            }
        },
    }
}

/// Save what came of fetching a show's feed; the answer is how many episodes are new. A feed that
/// could not be read, or that has nothing to play, changes nothing.
pub fn save_fetched(
    store: &mut Store,
    name: &str,
    fetched: Result<ParsedFeed, String>,
    at: &str,
) -> (r: Result<usize, PodcastError>)
    requires
        old(store)@.sound(),
    ensures
        final(store)@.sound(),
        match save_error(old(store)@, name@, fetched_view(fetched)) {
            Some(e) => r matches Err(error) && error@ == e && final(store)@ == old(store)@,
            None => {
                &&& records::show_index(old(store)@.shows, name@) matches Some(i)
                &&& fetched matches Ok(f)
                &&& final(store)@ == with_feed(old(store)@, i, f@, at@)
                &&& r matches Ok(added)
                &&& added == changes::new_episodes(
                    old(store)@.episodes,
                    old(store)@.shows[i].id,
                    feed::episodes_in(f@.entries),
                )
            },
        },
{
    let f = match fetched {
        Ok(f) => f,
        Err(cause) => {
            return Err(PodcastError::Feed(name.to_owned(), cause));
        },
    };
    let episodes = episodes_from(&f);
    if episodes.len() == 0 {
        return Err(PodcastError::NoEpisodes(name.to_owned()));
    }
    match store.save_feed(name, borrowed(&f.title), borrowed(&f.image_url), &episodes, at) {
        Ok(added) => Ok(added),
        Err(e) => Err(PodcastError::Store(e)),
    }
}

/// A refresh as a whole, where nothing else changes the store meanwhile: the show is looked up, and
/// what came of fetching its feed is saved; the answer is how many episodes are new. A feed that could
/// not be read, or that has nothing to play, changes nothing.
pub fn refresh(
    store: &mut Store,
    name: &str,
    fetched: Result<ParsedFeed, String>,
    at: &str,
) -> (r: Result<usize, PodcastError>)
    requires
        old(store)@.sound(),
    ensures
        final(store)@.sound(),
        match refresh_error(old(store)@, name@, fetched_view(fetched)) {
            Some(e) => r matches Err(error) && error@ == e && final(store)@ == old(store)@,
            None => {
                &&& records::show_index(old(store)@.shows, name@) matches Some(i)
                &&& fetched matches Ok(f)
                &&& final(store)@ == with_feed(old(store)@, i, f@, at@)
                &&& r matches Ok(added)
                &&& added == changes::new_episodes(
                    old(store)@.episodes,
                    old(store)@.shows[i].id,
                    feed::episodes_in(f@.entries),
                )
            },
        },
{
    if store.find_show(name).is_none() {
        return Err(PodcastError::Store(StoreError::NoShow(name.to_owned())));
    }
    save_fetched(store, name, fetched, at)
}

/// The shows that a refresh reads: the one that is named, or else every show, by name.
pub open spec fn names_to_refresh(store: records::StoreView, name: Option<Seq<char>>) -> Seq<
    Seq<char>,
> {
    match name {
        Some(n) => seq![n],
        None => order::arranged(store.shows, records::by_name()).map_values(
            |row: rows::ShowRowView| row.name,
        ),
    }
}

/// The shows that a refresh reads: the one that is named, or else every show, by name. Each is read
/// by itself, so that one broken feed does not stop the rest.
pub fn refresh_names(store: &Store, name: Option<String>) -> (r: Vec<String>)
    ensures
        reply::strings_view(r@) == names_to_refresh(store@, text::opt(name)),
{
    let mut r: Vec<String> = Vec::new();
    match name {
        Some(n) => {
            r.push(n);
            assert(reply::strings_view(r@) =~= seq![n@]);
        },
        None => {
            let shows = store.shows();
            let ghost rows = order::arranged(store@.shows, records::by_name());
            let ghost views = shows@.map_values(|s: Show| s@);
            assert(views.len() == rows.len());
            let mut i: usize = 0;
            while i < shows.len()
                invariant
                    i <= shows@.len(),
                    shows@.len() == rows.len(),
                    views == shows@.map_values(|s: Show| s@),
                    views == rows.map_values(
                        |row: rows::ShowRowView| records::show_of(row, store@.episodes),
                    ),
                    r@.len() == i,
                    forall|k: int| 0 <= k < i ==> (#[trigger] r@[k])@ == rows[k].name,
                decreases shows@.len() - i,
            {
                assert(views[i as int] == shows@[i as int]@);
                assert(views[i as int].name == rows[i as int].name);
                r.push(shows[i].name.clone());
                i += 1;
            }
            assert(reply::strings_view(r@) =~= rows.map_values(
                |row: rows::ShowRowView| row.name,
            ));
        },
    }
    r
}

/// End a subscription whose show has been recorded: save what came of fetching its feed, and forget
/// the show if that fails, so that nothing is left behind.
pub fn finish_subscription(
    store: &mut Store,
    name: &str,
    fetched: Result<ParsedFeed, String>,
    at: &str,
) -> (r: Result<(Show, usize), PodcastError>)
    requires
        old(store)@.sound(),
    ensures
        final(store)@.sound(),
        match save_error(old(store)@, name@, fetched_view(fetched)) {
            Some(e) => {
                &&& r matches Err(error)
                &&& error@ == e
                &&& final(store)@ == match records::show_index(old(store)@.shows, name@) {
                    Some(i) => changes::without_show(old(store)@, i),
                    None => old(store)@,
                }
            },
            None => {
                &&& records::show_index(old(store)@.shows, name@) matches Some(i)
                &&& fetched matches Ok(f)
                &&& final(store)@ == with_feed(old(store)@, i, f@, at@)
                &&& r matches Ok((show, n))
                &&& show@ == records::show_of(final(store)@.shows[i], final(store)@.episodes)
                &&& n == changes::new_episodes(
                    old(store)@.episodes,
                    old(store)@.shows[i].id,
                    feed::episodes_in(f@.entries),
                )
            },
        },
{
    let ghost added = store@;
    match save_fetched(store, name, fetched, at) {
        Ok(n) => {
            proof {
                let i = records::show_index(added.shows, name@)->Some_0;
                records::lemma_show_index(added.shows, name@);
                assert(store@.shows[i].name == name@);
                laws::lemma_row_named(store@.shows, i);
            }
            match store.show(name) {
                Ok(show) => Ok((show, n)),
                Err(e) => Err(PodcastError::Store(e)),
            }
        },
        Err(e) => {
            let _gone = store.forget(name);
            Err(e)
        },
    }
}

/// Subscribe: record the show, then save its feed; a feed that fails leaves nothing behind.
pub fn subscribe(
    store: &mut Store,
    name: &str,
    feed_url: &str,
    fetched: Result<ParsedFeed, String>,
    at: &str,
) -> (r: Result<(Show, usize), PodcastError>)
    requires
        old(store)@.sound(),
    ensures
        final(store)@.sound(),
        match changes::add_show_error(old(store)@.shows, name@, feed_url@) {
            Some(e) => r matches Err(error) && error@ == ErrorView::Store(e) && final(store)@
                == old(store)@,
            None => {
                let added = with_added(old(store)@, name@, feed_url@, at@);
                &&& records::show_index(added.shows, name@) matches Some(i)
                &&& match refresh_error(added, name@, fetched_view(fetched)) {
                    Some(e) => r matches Err(error) && error@ == e && final(store)@
                        == changes::without_show(added, i),
                    None => {
                        &&& fetched matches Ok(f)
                        &&& final(store)@ == with_feed(added, i, f@, at@)
                        &&& r matches Ok((show, n))
                        &&& show@ == records::show_of(
                            final(store)@.shows[i],
                            final(store)@.episodes,
                        )
                        &&& n == changes::new_episodes(
                            added.episodes,
                            added.shows[i].id,
                            feed::episodes_in(f@.entries),
                        )
                    },
                }
            },
        },
{
    match store.add_show(name, feed_url, at) {
        Ok(_) => {},
        Err(e) => {
            return Err(PodcastError::Store(e));
        },
    }
    finish_subscription(store, name, fetched, at)
}

/// The store once a show has been added.
pub open spec fn with_added(
    store: records::StoreView,
    name: Seq<char>,
    feed_url: Seq<char>,
    at: Seq<char>,
) -> records::StoreView {
    records::StoreView { shows: changes::with_show(store.shows, name, feed_url, at), ..store }
}

/// A subscription to a new show that fails leaves nothing behind: the store is as it was. (No episode
/// without a show belongs to the id that the new show gets; where every episode has its show, none
/// does.)
pub proof fn law_failed_subscription_leaves_nothing(
    store: records::StoreView,
    name: Seq<char>,
    feed_url: Seq<char>,
    at: Seq<char>,
)
    requires
        store.sound(),
        records::show_index(store.shows, name) is None,
        changes::add_show_error(store.shows, name, feed_url) is None,
        store.whole() || forall|k: int|
            0 <= k < store.episodes.len() ==> (#[trigger] store.episodes[k]).show_id
                != records::next_id(records::show_ids(store.shows)),
    ensures
        ({
            let added = with_added(store, name, feed_url, at);
            &&& records::show_index(added.shows, name) matches Some(i)
            &&& changes::without_show(added, i) == store
        }),
{
    let added = with_added(store, name, feed_url, at);
    let i = store.shows.len() as int;
    records::lemma_show_index(store.shows, name);
    assert(added.shows.last().name == name);
    assert(records::show_index(added.shows, name) == Some(i));
    let ids = records::show_ids(store.shows);
    records::law_next_id_is_new(ids);
    let after = changes::without_show(added, i);
    assert(after.shows =~= store.shows);
    let keep = |row: rows::EpisodeRowView| row.show_id != added.shows[i].id;
    assert forall|k: int| 0 <= k < store.episodes.len() implies keep(
        #[trigger] store.episodes[k],
    ) by {
        if store.whole() {
            let m = choose|m: int|
                0 <= m < store.shows.len() && (#[trigger] store.shows[m]).id
                    == store.episodes[k].show_id;
            assert(ids[m] < records::next_id(ids));
        }
    }
    lemma_all_kept(store.episodes, keep);
}

proof fn lemma_all_kept<A>(s: Seq<A>, keep: spec_fn(A) -> bool)
    requires
        forall|k: int| 0 <= k < s.len() ==> keep(#[trigger] s[k]),
    ensures
        s.filter(keep) == s,
    decreases s.len(),
{
    reveal(Seq::filter);
    if s.len() > 0 {
        let rest = s.drop_last();
        assert forall|k: int| 0 <= k < rest.len() implies keep(#[trigger] rest[k]) by {
            assert(rest[k] == s[k]);
        }
        lemma_all_kept(rest, keep);
        assert(s =~= rest.push(s.last()));
    }
}

/// A subscription that fails leaves no show under its name and none of its episodes, even if the
/// show was there before; other shows and their episodes are as they were.
pub proof fn law_failed_subscription_forgets_the_name(
    store: records::StoreView,
    name: Seq<char>,
    feed_url: Seq<char>,
    at: Seq<char>,
    other: Seq<char>,
)
    requires
        store.sound(),
        changes::add_show_error(store.shows, name, feed_url) is None,
    ensures
        ({
            let added = with_added(store, name, feed_url, at);
            &&& records::show_index(added.shows, name) matches Some(i)
            &&& laws::row_named(changes::without_show(added, i).shows, name) is None
            &&& other != name ==> laws::row_named(changes::without_show(added, i).shows, other)
                == laws::row_named(store.shows, other)
        }),
{
    let added = with_added(store, name, feed_url, at);
    changes::lemma_with_show_sound(store, name, feed_url, at);
    laws::law_added_show_reads_back(store, name, feed_url, at, other);
    laws::law_forgetting_takes_the_episodes(added, name, other, 0);
}

/// A subscription that succeeds is found under its name, with its feed and when it was read; every
/// other show is as it was.
pub proof fn law_subscription_is_kept(
    store: records::StoreView,
    name: Seq<char>,
    feed_url: Seq<char>,
    f: feed::FeedView,
    at: Seq<char>,
    other: Seq<char>,
)
    requires
        store.sound(),
        changes::add_show_error(store.shows, name, feed_url) is None,
    ensures
        ({
            let added = with_added(store, name, feed_url, at);
            &&& records::show_index(added.shows, name) matches Some(i)
            &&& laws::row_named(with_feed(added, i, f, at).shows, name) matches Some(row)
            &&& row.feed_url == feed_url && row.refreshed_at == Some(at)
            &&& f.title is Some ==> row.title == f.title
            &&& other != name ==> laws::row_named(with_feed(added, i, f, at).shows, other)
                == laws::row_named(store.shows, other)
        }),
{
    let added = with_added(store, name, feed_url, at);
    changes::lemma_with_show_sound(store, name, feed_url, at);
    laws::law_added_show_reads_back(store, name, feed_url, at, other);
    records::lemma_show_index(added.shows, name);
    let i = records::show_index(added.shows, name)->Some_0;
    let after = with_feed(added, i, f, at).shows;
    changes::lemma_refreshed_sound(
        added,
        i,
        f.title,
        f.image_url,
        feed::episodes_in(f.entries),
        at,
    );
    assert(after[i].name == name);
    laws::lemma_row_named(after, i);
    if other != name {
        laws::lemma_others_stay(added.shows, after, i, other);
    }
}

// ── Playing and downloads ────────────────────────────────────────────────

/// What mpd plays for an episode: its downloaded file, else its stream.
pub open spec fn uri_of(episode: rows::EpisodeView) -> Seq<char> {
    match episode.download_path {
        Some(path) => path,
        None => episode.about.url,
    }
}

/// How to play an episode.
#[derive(Debug, Clone, PartialEq)]
pub struct Playback {
    pub episode: Episode,
    /// what mpd is to play
    pub uri: String,
    /// where to start, in milliseconds, if not at the start
    pub seek: Option<i64>,
}

/// How to play the episode with this id: its downloaded file, else its stream, from where it was
/// left.
pub fn play(store: &Store, id: i64) -> (r: Result<Playback, PodcastError>)
    ensures
        match changes::episode_with_id(store@, id as int) {
            Some(e) => {
                &&& r matches Ok(p)
                &&& p.episode@ == e
                &&& p.uri@ == uri_of(e)
                &&& reply::opt_i64(p.seek) == resume::resumed(
                    e.position,
                    e.about.duration_seconds,
                )
            },
            None => r matches Err(e) && e@ == ErrorView::Store(
                records::StoreErrorView::NoEpisode(id as int),
            ),
        },
{
    match store.episode(id) {
        Ok(episode) => {
            let uri = match &episode.download_path {
                Some(path) => path.clone(),
                None => episode.url.clone(),
            };
            let seek = resume_from(episode.position, episode.duration_seconds);
            Ok(Playback { episode, uri, seek })
        },
        Err(e) => Err(PodcastError::Store(e)),
    }
}

/// How far playing an episode has come: which command mpd has answered last.
#[derive(Debug, Clone, Copy, PartialEq, Eq, Structural)]
pub enum PlayStage {
    /// none yet
    Start,
    /// it has added the episode to the queue
    Added,
    /// it has started the episode
    Started,
    /// it has gone to where the episode was left
    Sought,
}

/// What to do next to play an episode.
#[derive(Debug, Clone, PartialEq)]
pub enum PlayStep {
    /// have mpd run this, which leads to this stage
    Run(&'static str, Vec<String>, PlayStage),
    Done,
    Failed(PodcastError),
}

/// A `PlayStep`, with its texts as sequences.
pub ghost enum PlayStepView {
    Run(Seq<char>, Seq<Seq<char>>, PlayStage),
    Done,
    Failed(ErrorView),
}

impl View for PlayStep {
    type V = PlayStepView;

    open spec fn view(&self) -> PlayStepView {
        match *self {
            PlayStep::Run(command, args, stage) => PlayStepView::Run(
                command@,
                reply::strings_view(args@),
                stage,
            ),
            PlayStep::Done => PlayStepView::Done,
            PlayStep::Failed(e) => PlayStepView::Failed(e@),
        }
    }
}

/// What to do next to play what is at `uri`, from `seek` on if that is given, once mpd has answered
/// with `pairs`: add it to the queue, start what was added, and go to where it was left.
pub open spec fn next_play_step(
    uri: Seq<char>,
    seek: Option<int>,
    stage: PlayStage,
    pairs: Seq<(Seq<char>, Seq<char>)>,
) -> PlayStepView {
    match stage {
        PlayStage::Start => PlayStepView::Run("addid"@, seq![uri], PlayStage::Added),
        PlayStage::Added => match reply::lookup(pairs, "Id"@) {
            Some(id) => PlayStepView::Run("playid"@, seq![id], PlayStage::Started),
            None => PlayStepView::Failed(ErrorView::NotAdded),
        },
        PlayStage::Started => match seek {
            Some(at) => PlayStepView::Run(
                "seekcur"@,
                seq![
                    number::seconds_text(
                        if at < 0 {
                            0
                        } else {
                            at as nat
                        },
                    ),
                ],
                PlayStage::Sought,
            ),
            None => PlayStepView::Done,
        },
        PlayStage::Sought => PlayStepView::Done,
    }
}

fn one(arg: String) -> (r: Vec<String>)
    ensures
        reply::strings_view(r@) == seq![arg@],
{
    let mut r: Vec<String> = Vec::new();
    r.push(arg);
    assert(reply::strings_view(r@) =~= seq![arg@]);
    r
}

/// What to do next to play an episode, once mpd has answered with `pairs`.
pub fn play_step(playback: &Playback, stage: PlayStage, pairs: &[(String, String)]) -> (r: PlayStep)
    ensures
        r@ == next_play_step(
            playback.uri@,
            reply::opt_i64(playback.seek),
            stage,
            reply::pairs_view(pairs@),
        ),
{
    match stage {
        PlayStage::Start => PlayStep::Run("addid", one(playback.uri.clone()), PlayStage::Added),
        PlayStage::Added => match get(pairs, "Id") {
            Some(id) => PlayStep::Run("playid", one(id), PlayStage::Started),
            None => PlayStep::Failed(PodcastError::NotAdded),
        },
        PlayStage::Started => match playback.seek {
            Some(at) => {
                let at: u64 = if at < 0 {
                    0
                } else {
                    at as u64
                };
                PlayStep::Run("seekcur", one(number::write_seconds(at)), PlayStage::Sought)
            },
            None => PlayStep::Done,
        },
        PlayStage::Sought => PlayStep::Done,
    }
}

/// Playing an episode comes to an end within three commands, and the place that mpd is told to go to
/// reads back as the place where the episode is to resume.
pub proof fn law_playing_ends(
    uri: Seq<char>,
    seek: Option<int>,
    stage: PlayStage,
    pairs: Seq<(Seq<char>, Seq<char>)>,
)
    requires
        seek matches Some(at) ==> 0 <= at <= i64::MAX,
    ensures
        next_play_step(uri, seek, stage, pairs) matches PlayStepView::Run(_, _, next)
            ==> play_stage_number(next) == play_stage_number(stage) + 1,
        next_play_step(uri, seek, PlayStage::Sought, pairs) is Done,
        seek matches Some(at) ==> (next_play_step(
            uri,
            seek,
            PlayStage::Started,
            pairs,
        ) matches PlayStepView::Run(_, args, _) && args.len() == 1 && number::millis(args[0])
            == Some(at)),
{
    if let Some(at) = seek {
        number::law_time_reads_back(at as nat);
    }
}

/// How many commands mpd has answered at a stage.
pub open spec fn play_stage_number(stage: PlayStage) -> int {
    match stage {
        PlayStage::Start => 0,
        PlayStage::Added => 1,
        PlayStage::Started => 2,
        PlayStage::Sought => 3,
    }
}

/// What to fetch for a download, and where it goes inside the music folder.
#[derive(Debug, Clone, PartialEq, Eq)]
pub struct DownloadPlan {
    pub url: String,
    pub path: String,
}

/// What to fetch for an episode's download, and where it goes.
pub fn download_plan(store: &Store, id: i64) -> (r: Result<DownloadPlan, PodcastError>)
    ensures
        match changes::episode_with_id(store@, id as int) {
            Some(e) => r matches Ok(plan) && plan.url@ == e.about.url && plan.path@
                == files::download_path_of(e),
            None => r matches Err(e) && e@ == ErrorView::Store(
                records::StoreErrorView::NoEpisode(id as int),
            ),
        },
{
    match store.episode(id) {
        Ok(episode) => {
            let path = download_path(&episode);
            Ok(DownloadPlan { url: episode.url, path })
        },
        Err(e) => Err(PodcastError::Store(e)),
    }
}

/// Record that a download was fetched to this path, as it was planned; the answer is the path. One
/// that could not be fetched changes nothing, and an id that no episode has any more records nothing.
pub fn record_download(
    store: &mut Store,
    id: i64,
    path: &str,
    fetched: Result<(), String>,
) -> (r: Result<String, PodcastError>)
    requires
        old(store)@.sound(),
    ensures
        final(store)@.sound(),
        match fetched {
            Ok(()) => {
                &&& r matches Ok(p)
                &&& p@ == path@
                &&& final(store)@.shows == old(store)@.shows
                &&& final(store)@.episodes == changes::with_download(
                    old(store)@.episodes,
                    id as int,
                    Some(path@),
                )
            },
            Err(cause) => r matches Err(error) && error@ == ErrorView::Download(id as int, cause@)
                && final(store)@ == old(store)@,
        },
{
    match fetched {
        Ok(()) => {
            store.set_download(id, Some(path));
            Ok(path.to_owned())
        },
        Err(cause) => Err(PodcastError::Download(id, cause)),
    }
}

/// A download as a whole, where nothing else changes the store meanwhile: planned, and recorded once
/// it has been fetched; the answer is mpd's path. One that could not be fetched changes nothing.
pub fn download(store: &mut Store, id: i64, fetched: Result<(), String>) -> (r: Result<
    String,
    PodcastError,
>)
    requires
        old(store)@.sound(),
    ensures
        final(store)@.sound(),
        match changes::episode_with_id(old(store)@, id as int) {
            None => r matches Err(e) && e@ == ErrorView::Store(
                records::StoreErrorView::NoEpisode(id as int),
            ) && final(store)@ == old(store)@,
            Some(e) => match fetched {
                Err(cause) => r matches Err(error) && error@ == ErrorView::Download(
                    id as int,
                    cause@,
                ) && final(store)@ == old(store)@,
                Ok(()) => {
                    let path = files::download_path_of(e);
                    &&& r matches Ok(p)
                    &&& p@ == path
                    &&& final(store)@.shows == old(store)@.shows
                    &&& final(store)@.episodes == changes::with_download(
                        old(store)@.episodes,
                        id as int,
                        Some(path),
                    )
                },
            },
        },
{
    let plan = match download_plan(store, id) {
        Ok(plan) => plan,
        Err(e) => {
            return Err(e);
        },
    };
    record_download(store, id, &plan.path, fetched)
}

/// The file to delete for an episode's download.
pub open spec fn removal_of(store: records::StoreView, id: int) -> Result<Seq<char>, ErrorView> {
    match changes::episode_with_id(store, id) {
        Some(e) => match e.download_path {
            Some(path) => if files::is_removable(path) {
                Ok(path)
            } else {
                Err(ErrorView::NotOurs(path))
            },
            None => Err(ErrorView::NotDownloaded(id)),
        },
        None => Err(ErrorView::Store(records::StoreErrorView::NoEpisode(id))),
    }
}

/// The file to delete for an episode's download, inside the music folder.
pub fn removal_plan(store: &Store, id: i64) -> (r: Result<String, PodcastError>)
    ensures
        match r {
            Ok(path) => removal_of(store@, id as int) == Ok::<Seq<char>, ErrorView>(path@),
            Err(e) => removal_of(store@, id as int) == Err::<Seq<char>, ErrorView>(e@),
        },
{
    match store.episode(id) {
        Ok(episode) => match episode.download_path {
            Some(path) => if removable(&path) {
                Ok(path)
            } else {
                Err(PodcastError::NotOurs(path))
            },
            None => Err(PodcastError::NotDownloaded(id)),
        },
        Err(e) => Err(PodcastError::Store(e)),
    }
}

/// What came of deleting a file.
#[derive(Debug, Clone, PartialEq, Eq)]
pub enum Removal {
    Gone,
    /// there was no such file
    Missing,
    Failed(String),
}

/// Forget an episode's download once its file has been deleted, or was not there. One that could
/// not be deleted changes nothing, and an id that no episode has any more forgets nothing.
pub fn record_removal(store: &mut Store, id: i64, removal: Removal) -> (r: Result<
    (),
    PodcastError,
>)
    requires
        old(store)@.sound(),
    ensures
        final(store)@.sound(),
        match removal {
            Removal::Failed(cause) => r matches Err(error) && error@ == ErrorView::Disk(cause@)
                && final(store)@ == old(store)@,
            _ => {
                &&& r is Ok
                &&& final(store)@.shows == old(store)@.shows
                &&& final(store)@.episodes == changes::with_download(
                    old(store)@.episodes,
                    id as int,
                    None,
                )
            },
        },
{
    match removal {
        Removal::Failed(cause) => Err(PodcastError::Disk(cause)),
        _ => {
            store.set_download(id, None);
            Ok(())
        },
    }
}

/// The removal of a download as a whole, where nothing else changes the store meanwhile: planned, and
/// recorded once the file is gone.
pub fn remove_download(store: &mut Store, id: i64, removal: Removal) -> (r: Result<
    (),
    PodcastError,
>)
    requires
        old(store)@.sound(),
    ensures
        final(store)@.sound(),
        match removal_of(old(store)@, id as int) {
            Err(e) => r matches Err(error) && error@ == e && final(store)@ == old(store)@,
            Ok(_) => match removal {
                Removal::Failed(cause) => r matches Err(error) && error@ == ErrorView::Disk(cause@)
                    && final(store)@ == old(store)@,
                _ => {
                    &&& r is Ok
                    &&& final(store)@.shows == old(store)@.shows
                    &&& final(store)@.episodes == changes::with_download(
                        old(store)@.episodes,
                        id as int,
                        None,
                    )
                },
            },
        },
{
    match removal_plan(store, id) {
        Ok(_) => {},
        Err(e) => {
            return Err(e);
        },
    }
    record_removal(store, id, removal)
}

/// A download that was recorded is what mpd plays, and the episode is found by it.
pub proof fn law_download_is_played(store: records::StoreView, id: int)
    requires
        store.sound(),
        changes::episode_with_id(store, id) is Some,
    ensures
        ({
            let path = files::download_path_of(changes::episode_with_id(store, id)->Some_0);
            let after = records::StoreView {
                episodes: changes::with_download(store.episodes, id, Some(path)),
                ..store
            };
            &&& changes::episode_with_id(after, id) matches Some(e)
            &&& uri_of(e) == path
            &&& changes::episode_with_uri(after, path) is Some
        }),
{
    let had = changes::episode_with_id(store, id)->Some_0;
    let path = files::download_path_of(had);
    let after = records::StoreView {
        episodes: changes::with_download(store.episodes, id, Some(path)),
        ..store
    };
    laws::law_download_reads_back(store, id, Some(path), id);
    laws::law_found_by_uri(after, path);
    if forall|k: int| 0 <= k < after.episodes.len() ==> (#[trigger] after.episodes[k]).id != id {
        laws::lemma_no_episode(after, id);
    }
    let k = choose|k: int|
        0 <= k < after.episodes.len() && (#[trigger] after.episodes[k]).id == id;
    assert(after.episodes[k].download_path == Some(path));
    laws::law_episode_with_id(after, k);
}

/// An episode resumes where it was last noted to be: from there if that is neither the very start nor
/// the very end, and else from the top.
pub proof fn law_resumes_where_it_was_noted(
    store: records::StoreView,
    id: int,
    position: int,
    played: bool,
)
    requires
        store.sound(),
        position >= 0,
        changes::episode_with_id(store, id) is Some,
    ensures
        ({
            let after = records::StoreView {
                episodes: changes::with_position(store.episodes, id, position, played),
                ..store
            };
            let had = changes::episode_with_id(store, id)->Some_0;
            &&& changes::episode_with_id(after, id) matches Some(e)
            &&& e.played == played
            &&& uri_of(e) == uri_of(had)
            &&& resume::resumed(e.position, e.about.duration_seconds) == resume::resumed(
                position,
                had.about.duration_seconds,
            )
        }),
{
    laws::law_position_reads_back(store, id, position, played, id);
}

/// A download can be removed again, for every name that a show can have, and then is not downloaded
/// any more.
pub proof fn law_downloads_can_be_removed(store: records::StoreView, id: int)
    requires
        store.sound(),
        changes::episode_with_id(store, id) is Some,
        records::is_valid_name(changes::episode_with_id(store, id)->Some_0.show),
    ensures
        ({
            let path = files::download_path_of(changes::episode_with_id(store, id)->Some_0);
            let saved = records::StoreView {
                episodes: changes::with_download(store.episodes, id, Some(path)),
                ..store
            };
            let removed = records::StoreView {
                episodes: changes::with_download(saved.episodes, id, None),
                ..saved
            };
            &&& removal_of(saved, id) == Ok::<Seq<char>, ErrorView>(path)
            &&& removal_of(removed, id) == Err::<Seq<char>, ErrorView>(
                ErrorView::NotDownloaded(id),
            )
        }),
{
    let had = changes::episode_with_id(store, id)->Some_0;
    let path = files::download_path_of(had);
    let saved = records::StoreView {
        episodes: changes::with_download(store.episodes, id, Some(path)),
        ..store
    };
    files::law_downloads_are_removable(had);
    laws::law_download_reads_back(store, id, Some(path), id);
    laws::law_download_reads_back(saved, id, None, id);
}

} // verus!
