//! Opening the store: bringing its schema up to date, and taking in the records of its file.
use vstd::prelude::*;

use crate::store::records::{Store, StoreError};
use crate::store::records;
use crate::store::rows::{EpisodeRow, ShowRow};
use crate::text;

verus! {

/// The tables of the first version.
pub const FIRST_SCHEMA: &'static str =
    "CREATE TABLE shows (id INTEGER PRIMARY KEY, name TEXT NOT NULL UNIQUE, feed_url TEXT NOT NULL UNIQUE, title TEXT, image_url TEXT, added_at TEXT NOT NULL, refreshed_at TEXT); CREATE TABLE episodes (id INTEGER PRIMARY KEY, show_id INTEGER NOT NULL REFERENCES shows(id) ON DELETE CASCADE, guid TEXT NOT NULL, title TEXT NOT NULL, url TEXT NOT NULL, media_type TEXT, published_at TEXT, duration_seconds INTEGER, image_url TEXT, summary TEXT, position_seconds REAL NOT NULL DEFAULT 0, played INTEGER NOT NULL DEFAULT 0, download_path TEXT, UNIQUE(show_id, guid)); CREATE INDEX idx_episodes_show_published ON episodes(show_id, published_at DESC);";

/// A step from one version of the schema to the next.
#[derive(Debug, Clone)]
pub struct Migration {
    pub version: u64,
    pub sql: String,
}

/// The SQL of every step, oldest first. Steps are only ever added.
pub open spec fn migrations() -> Seq<Seq<char>> {
    seq![FIRST_SCHEMA@]
}

/// The steps still to take once `applied` of them have been: each with the version it leads to.
pub open spec fn pending(applied: nat) -> Seq<(nat, Seq<char>)> {
    Seq::new(
        (migrations().len() - applied) as nat,
        |i: int| ((applied + i + 1) as nat, migrations()[applied + i]),
    )
}

/// The steps still to take on a file in which `applied` steps are recorded. A file with more steps
/// than there are was written by a later version.
pub fn pending_migrations(applied: u64) -> (r: Result<Vec<Migration>, StoreError>)
    ensures
        if applied > migrations().len() {
            r matches Err(e) && e is Newer
        } else {
            r matches Ok(steps) && steps@.map_values(|m: Migration| (m.version as nat, m.sql@))
                == pending(applied as nat)
        },
{
    if applied > 1 {
        return Err(StoreError::Newer);
    }
    let mut steps: Vec<Migration> = Vec::new();
    if applied == 0 {
        steps.push(Migration { version: 1, sql: FIRST_SCHEMA.to_owned() });
    }
    assert(steps@.map_values(|m: Migration| (m.version as nat, m.sql@)) =~= pending(
        applied as nat,
    ));
    Ok(steps)
}

/// Does the file stay in WAL mode, so that the daemon and the command line can share it?
pub fn check_journal(mode: &str) -> (r: Result<(), StoreError>)
    ensures
        if text::lowered(mode@) == "wal"@ {
            r is Ok
        } else {
            r matches Err(e) && e@ == records::StoreErrorView::NotWal(mode@)
        },
{
    let small = text::lowercase(mode);
    if text::same(&small, "wal") {
        Ok(())
    } else {
        Err(StoreError::NotWal(mode.to_owned()))
    }
}

fn shows_differ(shows: &Vec<ShowRow>) -> (r: bool)
    ensures
        r == (forall|i: int, j: int|
            0 <= i < j < shows@.len() ==> {
                &&& (#[trigger] shows@[i]).id != (#[trigger] shows@[j]).id
                &&& shows@[i].name@ != shows@[j].name@
                &&& shows@[i].feed_url@ != shows@[j].feed_url@
            }),
{
    let mut j: usize = 0;
    while j < shows.len()
        invariant
            j <= shows@.len(),
            forall|a: int, b: int|
                0 <= a < b < j ==> {
                    &&& (#[trigger] shows@[a]).id != (#[trigger] shows@[b]).id
                    &&& shows@[a].name@ != shows@[b].name@
                    &&& shows@[a].feed_url@ != shows@[b].feed_url@
                },
        decreases shows@.len() - j,
    {
        let mut i: usize = 0;
        while i < j
            invariant
                i <= j < shows@.len(),
                forall|a: int|
                    0 <= a < i ==> {
                        &&& (#[trigger] shows@[a]).id != shows@[j as int].id
                        &&& shows@[a].name@ != shows@[j as int].name@
                        &&& shows@[a].feed_url@ != shows@[j as int].feed_url@
                    },
            decreases j - i,
        {
            if shows[i].id == shows[j].id || text::same(&shows[i].name, &shows[j].name)
                || text::same(&shows[i].feed_url, &shows[j].feed_url) {
                return false;
            }
            i += 1;
        }
        j += 1;
    }
    true
}

fn episodes_differ(episodes: &Vec<EpisodeRow>) -> (r: bool)
    ensures
        r == (forall|i: int, j: int|
            0 <= i < j < episodes@.len() ==> {
                &&& (#[trigger] episodes@[i]).id != (#[trigger] episodes@[j]).id
                &&& episodes@[i].show_id == episodes@[j].show_id ==> episodes@[i].about.guid@
                    != episodes@[j].about.guid@
            }),
{
    let mut j: usize = 0;
    while j < episodes.len()
        invariant
            j <= episodes@.len(),
            forall|a: int, b: int|
                0 <= a < b < j ==> {
                    &&& (#[trigger] episodes@[a]).id != (#[trigger] episodes@[b]).id
                    &&& episodes@[a].show_id == episodes@[b].show_id ==> episodes@[a].about.guid@
                        != episodes@[b].about.guid@
                },
        decreases episodes@.len() - j,
    {
        let mut i: usize = 0;
        while i < j
            invariant
                i <= j < episodes@.len(),
                forall|a: int|
                    0 <= a < i ==> {
                        &&& (#[trigger] episodes@[a]).id != episodes@[j as int].id
                        &&& episodes@[a].show_id == episodes@[j as int].show_id
                            ==> episodes@[a].about.guid@ != episodes@[j as int].about.guid@
                    },
            decreases j - i,
        {
            if episodes[i].id == episodes[j].id || (episodes[i].show_id == episodes[j].show_id
                && text::same(&episodes[i].about.guid, &episodes[j].about.guid)) {
                return false;
            }
            i += 1;
        }
        j += 1;
    }
    true
}

impl Store {
    /// Take in the records of a file; records that contradict each other are refused. Episodes whose
    /// show is gone are taken in too, and left out of every answer.
    pub fn open(shows: Vec<ShowRow>, episodes: Vec<EpisodeRow>) -> (r: Result<
        Store,
        StoreError,
    >)
        ensures
            ({
                let given = records::StoreView {
                    shows: shows@.map_values(|r: ShowRow| r@),
                    episodes: episodes@.map_values(|r: EpisodeRow| r@),
                };
                if given.sound() {
                    r matches Ok(store) && store@ == given
                } else {
                    r matches Err(e) && e is Broken
                }
            }),
    {
        let store = Store { shows, episodes };
        if store.is_sound() {
            Ok(store)
        } else {
            Err(StoreError::Broken)
        }
    }

    fn is_sound(&self) -> (r: bool)
        ensures
            r == self@.sound(),
    {
        if !shows_differ(&self.shows) || !episodes_differ(&self.episodes) {
            proof {
                if self@.sound() {
                    assert forall|i: int, j: int| 0 <= i < j < self.shows@.len() implies {
                        &&& (#[trigger] self.shows@[i]).id != (#[trigger] self.shows@[j]).id
                        &&& self.shows@[i].name@ != self.shows@[j].name@
                        &&& self.shows@[i].feed_url@ != self.shows@[j].feed_url@
                    } by {
                        assert(self@.shows[i] == self.shows@[i]@ && self@.shows[j]
                            == self.shows@[j]@);
                    }
                    assert forall|i: int, j: int| 0 <= i < j < self.episodes@.len() implies {
                        &&& (#[trigger] self.episodes@[i]).id != (#[trigger] self.episodes@[j]).id
                        &&& self.episodes@[i].show_id == self.episodes@[j].show_id
                            ==> self.episodes@[i].about.guid@ != self.episodes@[j].about.guid@
                    } by {
                        assert(self@.episodes[i] == self.episodes@[i]@ && self@.episodes[j]
                            == self.episodes@[j]@);
                    }
                }
            }
            return false;
        }
        assert forall|k: int| 0 <= k < self.shows@.len() implies #[trigger] self@.shows[k]
            == self.shows@[k]@ by {}
        assert forall|k: int| 0 <= k < self.episodes@.len() implies #[trigger] self@.episodes[k]
            == self.episodes@[k]@ by {}
        true
    }
}

} // verus!
