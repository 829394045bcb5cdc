//! What a feed says, and which of its entries are episodes.
use vstd::prelude::*;

use crate::moment::Moment;
use crate::moment;
use crate::mpd::reply;
use crate::store::changes;
use crate::store::rows::NewEpisode;
use crate::store::rows;
use crate::text;

verus! {

/// The file that comes with an entry.
#[derive(Debug, Clone, PartialEq)]
pub struct Enclosure {
    pub url: String,
    pub media_type: Option<String>,
}

/// One entry of a feed, with its title as plain text.
#[derive(Debug, Clone, PartialEq)]
pub struct FeedEntry {
    pub guid: Option<String>,
    pub title: String,
    pub enclosure: Option<Enclosure>,
    pub published: Option<Moment>,
    pub duration_seconds: Option<i64>,
    pub image_url: Option<String>,
    pub summary: Option<String>,
}

/// A feed that has been read.
#[derive(Debug, Clone, PartialEq)]
pub struct ParsedFeed {
    pub title: Option<String>,
    pub image_url: Option<String>,
    pub entries: Vec<FeedEntry>,
}

/// An `Enclosure`, with its texts as sequences.
pub ghost struct EnclosureView {
    pub url: Seq<char>,
    pub media_type: Option<Seq<char>>,
}

/// A `FeedEntry`, with its texts as sequences.
pub ghost struct EntryView {
    pub guid: Option<Seq<char>>,
    pub title: Seq<char>,
    pub enclosure: Option<EnclosureView>,
    pub published: Option<(int, int)>,
    pub duration_seconds: Option<int>,
    pub image_url: Option<Seq<char>>,
    pub summary: Option<Seq<char>>,
}

/// A `ParsedFeed`, with its texts as sequences.
pub ghost struct FeedView {
    pub title: Option<Seq<char>>,
    pub image_url: Option<Seq<char>>,
    pub entries: Seq<EntryView>,
}

impl View for FeedEntry {
    type V = EntryView;

    open spec fn view(&self) -> EntryView {
        EntryView {
            guid: text::opt(self.guid),
            title: self.title@,
            enclosure: match self.enclosure {
                Some(file) => Some(
                    EnclosureView { url: file.url@, media_type: text::opt(file.media_type) },
                ),
                None => None,
            },
            published: match self.published {
                Some(at) => Some((at.seconds as int, at.nanos as int)),
                None => None,
            },
            duration_seconds: reply::opt_i64(self.duration_seconds),
            image_url: text::opt(self.image_url),
            summary: text::opt(self.summary),
        }
    }
}

impl View for ParsedFeed {
    type V = FeedView;

    open spec fn view(&self) -> FeedView {
        FeedView {
            title: text::opt(self.title),
            image_url: text::opt(self.image_url),
            entries: self.entries@.map_values(|e: FeedEntry| e@),
        }
    }
}

/// A file that can be played: http(s), and audio, video, or of a type the feed did not say.
pub open spec fn is_playable(url: Seq<char>, media_type: Option<Seq<char>>) -> bool {
    &&& "https://"@.is_prefix_of(url) || "http://"@.is_prefix_of(url)
    &&& media_type matches Some(t) ==> "audio/"@.is_prefix_of(text::lowered(t))
        || "video/"@.is_prefix_of(text::lowered(t))
}

/// The episode that an entry describes, if it is one. Without a guid the file identifies the
/// episode.
pub open spec fn episode_in(entry: EntryView) -> Option<rows::NewEpisodeView> {
    match entry.enclosure {
        Some(file) => if is_playable(file.url, file.media_type) {
            Some(
                rows::NewEpisodeView {
                    guid: match entry.guid {
                        Some(guid) => guid,
                        None => file.url,
                    },
                    title: entry.title,
                    url: file.url,
                    media_type: file.media_type,
                    published_at: match entry.published {
                        Some(at) => moment::rfc3339(at.0, at.1),
                        None => None,
                    },
                    duration_seconds: entry.duration_seconds,
                    image_url: entry.image_url,
                    summary: entry.summary,
                },
            )
        } else {
            None
        },
        None => None,
    }
}

/// The episodes among a feed's entries, in the feed's order.
pub open spec fn episodes_in(entries: Seq<EntryView>) -> Seq<rows::NewEpisodeView>
    decreases entries.len(),
{
    if entries.len() == 0 {
        seq![]
    } else {
        let before = episodes_in(entries.drop_last());
        match episode_in(entries.last()) {
            Some(episode) => before.push(episode),
            None => before,
        }
    }
}

fn playable(url: &str, media_type: &Option<String>) -> (r: bool)
    ensures
        r == is_playable(url@, text::opt(*media_type)),
{
    let web = text::has_prefix(url, "https://") || text::has_prefix(url, "http://");
    let kind = match media_type {
        Some(t) => {
            let t = text::lowercase(t);
            text::has_prefix(&t, "audio/") || text::has_prefix(&t, "video/")
        },
        None => true,
    };
    web && kind
}

fn read_entry(entry: &FeedEntry) -> (r: Option<NewEpisode>)
    ensures
        match r {
            Some(episode) => episode_in(entry@) == Some(episode@),
            None => episode_in(entry@) is None,
        },
{
    let file = match &entry.enclosure {
        Some(file) => file,
        None => {
            return None;
        },
    };
    if !playable(&file.url, &file.media_type) {
        return None;
    }
    let guid = match &entry.guid {
        Some(guid) => guid.clone(),
        None => file.url.clone(),
    };
    let published_at = match entry.published {
        Some(at) => at.write(),
        None => None,
    };
    Some(
        NewEpisode {
            guid,
            title: entry.title.clone(),
            url: file.url.clone(),
            media_type: text::copy(&file.media_type),
            published_at,
            duration_seconds: entry.duration_seconds,
            image_url: text::copy(&entry.image_url),
            summary: text::copy(&entry.summary),
        },
    )
}

/// The episodes of a feed that are worth keeping, in the feed's order.
pub fn episodes_from(feed: &ParsedFeed) -> (r: Vec<NewEpisode>)
    ensures
        changes::feed_view(r@) == episodes_in(feed@.entries),
{
    let ghost all = feed@.entries;
    let mut r: Vec<NewEpisode> = Vec::new();
    let mut i: usize = 0;
    assert(changes::feed_view(r@) =~= episodes_in(all.take(0)));
    while i < feed.entries.len()
        invariant
            i <= feed.entries@.len(),
            all == feed@.entries,
            changes::feed_view(r@) == episodes_in(all.take(i as int)),
        decreases feed.entries@.len() - i,
    {
        let ghost had = changes::feed_view(r@);
        assert(all.take(i + 1).drop_last() =~= all.take(i as int));
        assert(all.take(i + 1).last() == feed.entries@[i as int]@);
        if let Some(episode) = read_entry(&feed.entries[i]) {
            r.push(episode);
            assert(changes::feed_view(r@) =~= had.push(episode@));
        }
        i += 1;
    }
    assert(all.take(all.len() as int) =~= all);
    r
}

/// Every episode of a feed can be played: it is an http(s) file.
pub proof fn law_episodes_are_playable(entries: Seq<EntryView>)
    ensures
        forall|i: int|
            0 <= i < episodes_in(entries).len() ==> is_playable(
                (#[trigger] episodes_in(entries)[i]).url,
                episodes_in(entries)[i].media_type,
            ),
        episodes_in(entries).len() <= entries.len(),
    decreases entries.len(),
{
    if entries.len() > 0 {
        law_episodes_are_playable(entries.drop_last());
    }
}

/// An entry is an episode if and only if it comes with an http(s) file that is audio, video, or of a
/// type that is not said. The episode is what the entry says it is: it goes by the entry's guid, and
/// by the file's URL only if there is no guid.
pub proof fn law_an_entry_is_its_episode(entry: EntryView)
    ensures
        episode_in(entry) is Some <==> (entry.enclosure matches Some(file) && ("http://"@.is_prefix_of(
            file.url,
        ) || "https://"@.is_prefix_of(file.url)) && (file.media_type is None
            || "audio/"@.is_prefix_of(text::lowered(file.media_type->Some_0))
            || "video/"@.is_prefix_of(text::lowered(file.media_type->Some_0)))),
        episode_in(entry) matches Some(episode) ==> {
            &&& entry.guid is Some ==> episode.guid == entry.guid->Some_0
            &&& entry.guid is None ==> episode.guid == entry.enclosure->Some_0.url
            &&& episode.title == entry.title
            &&& episode.url == entry.enclosure->Some_0.url
            &&& episode.media_type == entry.enclosure->Some_0.media_type
            &&& entry.published is None ==> episode.published_at is None
            &&& entry.published matches Some(at) ==> episode.published_at == moment::rfc3339(
                at.0,
                at.1,
            )
            &&& episode.duration_seconds == entry.duration_seconds
            &&& episode.image_url == entry.image_url
            &&& episode.summary == entry.summary
        },
{
}

/// Two entries with one guid are one episode, wherever their files are.
pub proof fn law_one_guid_is_one_episode(a: EntryView, b: EntryView)
    requires
        a.guid is Some,
        a.guid == b.guid,
        episode_in(a) is Some,
        episode_in(b) is Some,
    ensures
        episode_in(a)->Some_0.guid == episode_in(b)->Some_0.guid,
        episode_in(a)->Some_0.guid == a.guid->Some_0,
{
}

/// A feed is read entry by entry, in its order: what two stretches of a feed hold stands one after
/// the other, and a single entry gives its own episode or none.
pub proof fn law_entries_are_read_in_order(a: Seq<EntryView>, b: Seq<EntryView>, entry: EntryView)
    ensures
        episodes_in(a + b) == episodes_in(a) + episodes_in(b),
        episodes_in(seq![]) == Seq::<rows::NewEpisodeView>::empty(),
        episode_in(entry) matches Some(episode) ==> episodes_in(seq![entry]) == seq![episode],
        episode_in(entry) is None ==> episodes_in(seq![entry]).len() == 0,
    decreases b.len(),
{
    reveal_with_fuel(episodes_in, 2);
    assert(seq![entry].drop_last() =~= seq![]);
    assert(seq![entry].last() == entry);
    if episode_in(entry) is Some {
        assert(episodes_in(seq![entry]) =~= seq![episode_in(entry)->Some_0]);
    }
    if b.len() == 0 {
        assert(a + b =~= a);
        assert(episodes_in(a) + episodes_in(b) =~= episodes_in(a));
    } else {
        law_entries_are_read_in_order(a, b.drop_last(), entry);
        assert((a + b).drop_last() =~= a + b.drop_last());
        assert((a + b).last() == b.last());
        assert(episodes_in(a + b) =~= episodes_in(a) + episodes_in(b));
    }
}

} // verus!
