//! Shows and episodes as they are kept, and as they are read. Times are in milliseconds.
use vstd::prelude::*;

use crate::mpd::reply;
use crate::text;

verus! {

/// One episode as a feed describes it, before it has an id.
#[derive(Debug, Clone, PartialEq)]
pub struct NewEpisode {
    pub guid: String,
    pub title: String,
    pub url: String,
    pub media_type: Option<String>,
    pub published_at: Option<String>,
    pub duration_seconds: Option<i64>,
    pub image_url: Option<String>,
    pub summary: Option<String>,
}

/// A `NewEpisode`, with its texts as sequences.
pub ghost struct NewEpisodeView {
    pub guid: Seq<char>,
    pub title: Seq<char>,
    pub url: Seq<char>,
    pub media_type: Option<Seq<char>>,
    pub published_at: Option<Seq<char>>,
    pub duration_seconds: Option<int>,
    pub image_url: Option<Seq<char>>,
    pub summary: Option<Seq<char>>,
}

impl View for NewEpisode {
    type V = NewEpisodeView;

    open spec fn view(&self) -> NewEpisodeView {
        NewEpisodeView {
            guid: self.guid@,
            title: self.title@,
            url: self.url@,
            media_type: text::opt(self.media_type),
            published_at: text::opt(self.published_at),
            duration_seconds: reply::opt_i64(self.duration_seconds),
            image_url: text::opt(self.image_url),
            summary: text::opt(self.summary),
        }
    }
}

impl NewEpisode {
    /// A copy of the episode.
    pub fn copy(&self) -> (r: NewEpisode)
        ensures
            r@ == self@,
    {
        NewEpisode {
            guid: self.guid.clone(),
            title: self.title.clone(),
            url: self.url.clone(),
            media_type: text::copy(&self.media_type),
            published_at: text::copy(&self.published_at),
            duration_seconds: self.duration_seconds,
            image_url: text::copy(&self.image_url),
            summary: text::copy(&self.summary),
        }
    }
}

/// A show as it is kept.
#[derive(Debug, Clone, PartialEq)]
pub struct ShowRow {
    pub id: i64,
    pub name: String,
    pub feed_url: String,
    pub title: Option<String>,
    pub image_url: Option<String>,
    pub added_at: String,
    pub refreshed_at: Option<String>,
}

/// A `ShowRow`, with its texts as sequences.
pub ghost struct ShowRowView {
    pub id: int,
    pub name: Seq<char>,
    pub feed_url: Seq<char>,
    pub title: Option<Seq<char>>,
    pub image_url: Option<Seq<char>>,
    pub added_at: Seq<char>,
    pub refreshed_at: Option<Seq<char>>,
}

impl View for ShowRow {
    type V = ShowRowView;

    open spec fn view(&self) -> ShowRowView {
        ShowRowView {
            id: self.id as int,
            name: self.name@,
            feed_url: self.feed_url@,
            title: text::opt(self.title),
            image_url: text::opt(self.image_url),
            added_at: self.added_at@,
            refreshed_at: text::opt(self.refreshed_at),
        }
    }
}

impl ShowRow {
    /// A copy of the row.
    pub fn copy(&self) -> (r: ShowRow)
        ensures
            r@ == self@,
    {
        ShowRow {
            id: self.id,
            name: self.name.clone(),
            feed_url: self.feed_url.clone(),
            title: text::copy(&self.title),
            image_url: text::copy(&self.image_url),
            added_at: self.added_at.clone(),
            refreshed_at: text::copy(&self.refreshed_at),
        }
    }
}

/// An episode as it is kept: what its feed says, where you stopped, and its download.
#[derive(Debug, Clone, PartialEq)]
pub struct EpisodeRow {
    pub id: i64,
    pub show_id: i64,
    pub about: NewEpisode,
    pub position: i64,
    pub played: bool,
    pub download_path: Option<String>,
}

/// An `EpisodeRow`, with its texts as sequences.
pub ghost struct EpisodeRowView {
    pub id: int,
    pub show_id: int,
    pub about: NewEpisodeView,
    pub position: int,
    pub played: bool,
    pub download_path: Option<Seq<char>>,
}

impl View for EpisodeRow {
    type V = EpisodeRowView;

    open spec fn view(&self) -> EpisodeRowView {
        EpisodeRowView {
            id: self.id as int,
            show_id: self.show_id as int,
            about: self.about@,
            position: self.position as int,
            played: self.played,
            download_path: text::opt(self.download_path),
        }
    }
}

impl EpisodeRow {
    /// A copy of the row.
    pub fn copy(&self) -> (r: EpisodeRow)
        ensures
            r@ == self@,
    {
        EpisodeRow {
            id: self.id,
            show_id: self.show_id,
            about: self.about.copy(),
            position: self.position,
            played: self.played,
            download_path: text::copy(&self.download_path),
        }
    }
}

/// A show as it is read.
#[derive(Debug, Clone, PartialEq)]
pub struct Show {
    pub id: i64,
    pub name: String,
    pub feed_url: String,
    pub title: Option<String>,
    pub image_url: Option<String>,
    pub refreshed_at: Option<String>,
    pub episodes: u64,
    pub unplayed: u64,
}

/// A `Show`, with its texts as sequences.
pub ghost struct ShowView {
    pub id: int,
    pub name: Seq<char>,
    pub feed_url: Seq<char>,
    pub title: Option<Seq<char>>,
    pub image_url: Option<Seq<char>>,
    pub refreshed_at: Option<Seq<char>>,
    pub episodes: nat,
    pub unplayed: nat,
}

impl View for Show {
    type V = ShowView;

    open spec fn view(&self) -> ShowView {
        ShowView {
            id: self.id as int,
            name: self.name@,
            feed_url: self.feed_url@,
            title: text::opt(self.title),
            image_url: text::opt(self.image_url),
            refreshed_at: text::opt(self.refreshed_at),
            episodes: self.episodes as nat,
            unplayed: self.unplayed as nat,
        }
    }
}

/// An episode as it is read.
#[derive(Debug, Clone, PartialEq)]
pub struct Episode {
    pub id: i64,
    /// the name of its show
    pub show: String,
    pub guid: String,
    pub title: String,
    pub url: String,
    pub media_type: Option<String>,
    pub published_at: Option<String>,
    pub duration_seconds: Option<i64>,
    pub image_url: Option<String>,
    pub summary: Option<String>,
    /// where playback stopped
    pub position: i64,
    pub played: bool,
    /// the downloaded file, as mpd's path inside the music folder
    pub download_path: Option<String>,
}

/// An `Episode`, with its texts as sequences.
pub ghost struct EpisodeView {
    pub id: int,
    pub show: Seq<char>,
    pub about: NewEpisodeView,
    pub position: int,
    pub played: bool,
    pub download_path: Option<Seq<char>>,
}

impl View for Episode {
    type V = EpisodeView;

    open spec fn view(&self) -> EpisodeView {
        EpisodeView {
            id: self.id as int,
            show: self.show@,
            about: NewEpisodeView {
                guid: self.guid@,
                title: self.title@,
                url: self.url@,
                media_type: text::opt(self.media_type),
                published_at: text::opt(self.published_at),
                duration_seconds: reply::opt_i64(self.duration_seconds),
                image_url: text::opt(self.image_url),
                summary: text::opt(self.summary),
            },
            position: self.position as int,
            played: self.played,
            download_path: text::opt(self.download_path),
        }
    }
}

/// The episode that a row keeps, under the name of its show.
pub open spec fn episode_of(row: EpisodeRowView, show: Seq<char>) -> EpisodeView {
    EpisodeView {
        id: row.id,
        show,
        about: row.about,
        position: row.position,
        played: row.played,
        download_path: row.download_path,
    }
}

/// The episode that a row keeps, under the name of its show.
pub fn read_episode(row: &EpisodeRow, show: &String) -> (r: Episode)
    ensures
        r@ == episode_of(row@, show@),
{
    Episode {
        id: row.id,
        show: show.clone(),
        guid: row.about.guid.clone(),
        title: row.about.title.clone(),
        url: row.about.url.clone(),
        media_type: text::copy(&row.about.media_type),
        published_at: text::copy(&row.about.published_at),
        duration_seconds: row.about.duration_seconds,
        image_url: text::copy(&row.about.image_url),
        summary: text::copy(&row.about.summary),
        position: row.position,
        played: row.played,
        download_path: text::copy(&row.download_path),
    }
}

} // verus!
