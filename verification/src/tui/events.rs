//! What the loop does: take in news, press keys, and take in what came of their effects.
use vstd::prelude::*;

use crate::mpd::reply;
use crate::mpd::reply::{get_all, parse_songs, Song};
use crate::number;
use crate::player;
use crate::player::Now;
use crate::store::rows;
use crate::store::rows::{Episode, Show};
use crate::text;
use crate::tui::state;
use crate::tui::state::{Effect, Entry, Key, State};

verus! {

/// How many of a show's episodes are listed.
pub const EPISODES_SHOWN: usize = 200;

// ── News ─────────────────────────────────────────────────────────────────

/// What the background reports.
pub enum Update {
    Now(Now),
    Message(String),
}

impl State {
    /// Take in what the background reports.
    pub fn hear(&mut self, update: Update)
        ensures
            final(self)@ == match update {
                Update::Now(now) => (state::StateView { now: Some(now@), ..old(self)@ }),
                Update::Message(m) => (state::StateView { message: Some(m@), ..old(self)@ }),
            },
    {
        match update {
            Update::Now(now) => {
                self.now = Some(now);
            },
            Update::Message(m) => {
                self.message = Some(m);
            },
        }
    }

    /// Press a key: the news of the last one is gone, and the answer is what this one asks for.
    pub fn press(&mut self, key: Key) -> (r: Effect)
        ensures
            (final(self)@, r@) == state::on_key(
                state::StateView { message: None, ..old(self)@ },
                key,
            ),
    {
        self.message = None;
        self.key(key)
    }
}

/// What is said once a download has ended.
pub open spec fn download_news(path: Result<Seq<char>, Seq<char>>) -> Seq<char> {
    match path {
        Ok(path) => "saved to ~/music/"@ + path,
        Err(cause) => "download failed: "@ + cause,
    }
}

/// What is said once a download has ended: where the file is, or why there is none.
pub fn download_message(path: Result<String, String>) -> (r: String)
    ensures
        r@ == download_news(
            match path {
                Ok(path) => Ok(path@),
                Err(cause) => Err(cause@),
            },
        ),
{
    match path {
        Ok(path) => "saved to ~/music/".to_owned().concat(&path),
        Err(cause) => "download failed: ".to_owned().concat(&cause),
    }
}

// ── Effects ──────────────────────────────────────────────────────────────

/// Does an effect need mpd? Downloads and the store do not.
pub open spec fn asks_mpd(effect: state::EffectView) -> bool {
    effect is Mpd || effect is LoadQueue || effect is Browse || effect is PlayEpisode
}

/// Does the queue have to be read again once mpd has run this?
pub open spec fn changes_queue(command: Seq<char>) -> bool {
    command == "clear"@ || command == "delete"@ || command == "add"@
}

impl Effect {
    /// Does the effect need mpd?
    pub fn needs_mpd(&self) -> (r: bool)
        ensures
            r == asks_mpd(self@),
    {
        match self {
            Effect::Mpd(_, _) => true,
            Effect::LoadQueue => true,
            Effect::Browse(_) => true,
            Effect::PlayEpisode(_) => true,
            _ => false,
        }
    }
}

/// Does the queue have to be read again once mpd has run this?
pub fn reloads_queue(command: &str) -> (r: bool)
    ensures
        r == changes_queue(command@),
{
    text::same(command, "clear") || text::same(command, "delete") || text::same(command, "add")
}

/// What came of an effect.
pub enum Outcome {
    /// mpd ran this command; its queue, where it was read again
    Ran(String, Option<Vec<Song>>),
    Queue(Vec<Song>),
    /// what mpd lists for the folder
    Folder(Vec<(String, String)>),
    Shows(Vec<Show>),
    Episodes(Vec<Episode>),
    /// an episode with this title is playing
    Playing(String),
    /// the download of this episode has begun
    Downloading(i64),
    /// there is no connection to mpd
    NoMpd,
    Failed(String),
    /// there was nothing to do
    Idle,
}

/// The rows that mpd lists for a folder: folders first, then songs.
pub open spec fn entries_of(pairs: Seq<(Seq<char>, Seq<char>)>) -> Seq<state::EntryView> {
    reply::folders_of(pairs).map_values(|path: Seq<char>| state::EntryView::Folder(path))
        + reply::songs_of(pairs).map_values(|song: reply::SongView| state::EntryView::Song(song))
}

/// The state once it is known what came of an effect, before the cursors are put right.
pub open spec fn taken_in(s: state::StateView, outcome: Outcome) -> state::StateView {
    match outcome {
        Outcome::Ran(command, queue) => state::StateView {
            queue: match queue {
                Some(queue) => reply::songs_view(queue@),
                None => s.queue,
            },
            message: if command@ == "add"@ {
                Some("added to the queue"@)
            } else {
                s.message
            },
            ..s
        },
        Outcome::Queue(queue) => state::StateView { queue: reply::songs_view(queue@), ..s },
        Outcome::Folder(pairs) => state::StateView {
            entries: entries_of(reply::pairs_view(pairs@)),
            ..s
        },
        Outcome::Shows(shows) => state::StateView {
            shows: shows@.map_values(|show: Show| show@),
            ..s
        },
        Outcome::Episodes(episodes) => state::StateView {
            episodes: episodes@.map_values(|e: Episode| e@),
            ..s
        },
        Outcome::Playing(title) => state::StateView { message: Some("playing "@ + title@), ..s },
        Outcome::Downloading(id) => state::StateView {
            message: Some(
                "downloading episode "@ + number::signed_decimal(id as int) + "\u{2026}"@,
            ),
            ..s
        },
        Outcome::NoMpd => state::StateView { message: Some("mpd is not answering"@), ..s },
        Outcome::Failed(cause) => state::StateView { message: Some(cause@), ..s },
        Outcome::Idle => s,
    }
}

/// The rows that mpd lists for a folder: folders first, then songs.
pub fn list_folder(pairs: &[(String, String)]) -> (r: Vec<Entry>)
    ensures
        r@.map_values(|e: Entry| e@) == entries_of(reply::pairs_view(pairs@)),
{
    let folders = get_all(pairs, "directory");
    let songs = parse_songs(pairs);
    let ghost wanted = entries_of(reply::pairs_view(pairs@));
    let mut r: Vec<Entry> = Vec::new();
    let mut i: usize = 0;
    assert(reply::strings_view(folders@).len() == folders@.len());
    assert(reply::songs_view(songs@).len() == songs@.len());
    while i < folders.len()
        invariant
            i <= folders@.len(),
            wanted == entries_of(reply::pairs_view(pairs@)),
            reply::strings_view(folders@) == reply::folders_of(reply::pairs_view(pairs@)),
            r@.len() == i,
            forall|k: int| 0 <= k < i ==> (#[trigger] r@[k])@ == wanted[k],
        decreases folders@.len() - i,
    {
        assert(reply::folders_of(reply::pairs_view(pairs@))[i as int] == folders@[i as int]@);
        r.push(Entry::Folder(folders[i].clone()));
        i += 1;
    }
    let mut j: usize = 0;
    while j < songs.len()
        invariant
            j <= songs@.len(),
            wanted == entries_of(reply::pairs_view(pairs@)),
            reply::strings_view(folders@) == reply::folders_of(reply::pairs_view(pairs@)),
            reply::songs_view(songs@) == reply::songs_of(reply::pairs_view(pairs@)),
            r@.len() == folders@.len() + j,
            forall|k: int| 0 <= k < folders@.len() + j ==> (#[trigger] r@[k])@ == wanted[k],
        decreases songs@.len() - j,
    {
        assert(reply::songs_of(reply::pairs_view(pairs@))[j as int] == songs@[j as int]@);
        assert(reply::strings_view(folders@).len() == folders@.len());
        r.push(Entry::Song(songs[j].copy()));
        j += 1;
    }
    assert(reply::strings_view(folders@).len() == folders@.len());
    assert(reply::songs_view(songs@).len() == songs@.len());
    assert(r@.map_values(|e: Entry| e@) =~= wanted);
    r
}

impl State {
    /// Take in what came of an effect, and keep each cursor inside its list.
    pub fn settle(&mut self, outcome: Outcome)
        ensures
            final(self)@ == state::clamped(taken_in(old(self)@, outcome)),
    {
        match outcome {
            Outcome::Ran(command, queue) => {
                if let Some(queue) = queue {
                    self.queue = queue;
                }
                if text::same(&command, "add") {
                    self.message = Some("added to the queue".to_owned());
                }
            },
            Outcome::Queue(queue) => {
                self.queue = queue;
            },
            Outcome::Folder(pairs) => {
                self.entries = list_folder(&pairs);
            },
            Outcome::Shows(shows) => {
                self.shows = shows;
            },
            Outcome::Episodes(episodes) => {
                self.episodes = episodes;
            },
            Outcome::Playing(title) => {
                self.message = Some("playing ".to_owned().concat(&title));
            },
            Outcome::Downloading(id) => {
                self.message = Some(
                    "downloading episode ".to_owned().concat(&number::write_signed(id)).concat(
                        "\u{2026}",
                    ),
                );
            },
            Outcome::NoMpd => {
                self.message = Some("mpd is not answering".to_owned());
            },
            Outcome::Failed(cause) => {
                self.message = Some(cause);
            },
            Outcome::Idle => {},
        }
        self.clamp();
    }
}

/// Is the connection to mpd given up, to be opened again for the next key?
pub fn drops_connection(outcome: &Outcome) -> (r: bool)
    ensures
        r == (outcome is NoMpd || outcome is Failed),
{
    match outcome {
        Outcome::NoMpd => true,
        Outcome::Failed(_) => true,
        _ => false,
    }
}

} // verus!
