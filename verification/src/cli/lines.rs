//! What is printed for a person.
use vstd::prelude::*;

use crate::mpd::reply;
use crate::mpd::reply::Song;
use crate::number;
use crate::player;
use crate::player::Now;
use crate::store::rows;
use crate::store::rows::{Episode, Show};
use crate::text;
use crate::tui::screen;
use crate::tui::screen::{left_text, time_label};

verus! {

/// mpd's state, as a sign.
pub open spec fn state_mark(state: Seq<char>) -> Seq<char> {
    if state == "play"@ {
        "\u{25b6}"@
    } else if state == "pause"@ {
        "\u{23f8}"@
    } else {
        "\u{25a0}"@
    }
}

/// What is playing, in one line.
pub open spec fn now_text(now: player::NowView) -> Seq<char> {
    let volume = match now.volume {
        Some(v) => "  vol "@ + number::signed_decimal(v) + "%"@,
        None => seq![],
    };
    if now.state == "stop"@ && now.title.len() == 0 {
        state_mark(now.state) + " stopped"@ + volume
    } else {
        state_mark(now.state) + " "@ + (if now.artist.len() == 0 {
            seq![]
        } else {
            now.artist + " \u{2014} "@
        }) + now.title + "  "@ + screen::time_text(now.elapsed, now.duration) + volume
    }
}

/// What is playing, in one line.
pub fn now_line(now: &Now) -> (r: String)
    ensures
        r@ == now_text(now@),
{
    let mark = if text::same(&now.state, "play") {
        "\u{25b6}"
    } else if text::same(&now.state, "pause") {
        "\u{23f8}"
    } else {
        "\u{25a0}"
    };
    let volume = match now.volume {
        Some(v) => "  vol ".to_owned().concat(&number::write_signed(v as i64)).concat("%"),
        None => {
            let none = String::new();
            assert(none@ =~= seq![]);
            none
        },
    };
    if text::same(&now.state, "stop") && now.title.as_str().is_empty() {
        return mark.to_owned().concat(" stopped").concat(&volume);
    }
    let who = if now.artist.as_str().is_empty() {
        let none = String::new();
        assert(none@ =~= seq![]);
        none
    } else {
        now.artist.clone().concat(" \u{2014} ")
    };
    mark.to_owned().concat(" ").concat(&who).concat(&now.title).concat("  ").concat(
        &time_label(now.elapsed, now.duration),
    ).concat(&volume)
}

/// A song in one line: its position in the queue, who it is by, and its name.
pub open spec fn song_text(song: reply::SongView) -> Seq<char> {
    let pos = match song.pos {
        Some(p) => number::padded_left(number::decimal(p), 3, ' ') + "  "@,
        None => seq![],
    };
    let title = player::song_title(song, song.file);
    match song.artist {
        Some(a) => pos + a + " \u{2014} "@ + title,
        None => pos + title,
    }
}

fn song_line(song: &Song) -> (r: String)
    ensures
        r@ == song_text(song@),
{
    let pos = match song.pos {
        Some(p) => number::pad_left(&number::write_number(p as u64), 3, ' ').concat("  "),
        None => {
            let none = String::new();
            assert(none@ =~= seq![]);
            none
        },
    };
    let title = match &song.title {
        Some(t) => t.clone(),
        None => match &song.name {
            Some(n) => n.clone(),
            None => song.file.clone(),
        },
    };
    match &song.artist {
        Some(a) => pos.concat(a).concat(" \u{2014} ").concat(&title),
        None => pos.concat(&title),
    }
}

/// Songs, one line each.
pub fn song_lines(songs: &[Song]) -> (r: Vec<String>)
    ensures
        reply::strings_view(r@) == reply::songs_view(songs@).map_values(
            |song: reply::SongView| song_text(song),
        ),
{
    let mut r: Vec<String> = Vec::new();
    let mut i: usize = 0;
    while i < songs.len()
        invariant
            i <= songs@.len(),
            r@.len() == i,
            forall|k: int| 0 <= k < i ==> (#[trigger] r@[k])@ == song_text(songs@[k]@),
        decreases songs@.len() - i,
    {
        r.push(song_line(&songs[i]));
        i += 1;
    }
    assert(reply::strings_view(r@) =~= reply::songs_view(songs@).map_values(
        |song: reply::SongView| song_text(song),
    ));
    r
}

/// Folders, one line each.
pub fn folder_lines(folders: &[String]) -> (r: Vec<String>)
    ensures
        reply::strings_view(r@) == reply::strings_view(folders@).map_values(
            |folder: Seq<char>| folder + "/"@,
        ),
{
    let mut r: Vec<String> = Vec::new();
    let mut i: usize = 0;
    while i < folders.len()
        invariant
            i <= folders@.len(),
            r@.len() == i,
            forall|k: int| 0 <= k < i ==> (#[trigger] r@[k])@ == folders@[k]@ + "/"@,
        decreases folders@.len() - i,
    {
        r.push(folders[i].clone().concat("/"));
        i += 1;
    }
    assert(reply::strings_view(r@) =~= reply::strings_view(folders@).map_values(
        |folder: Seq<char>| folder + "/"@,
    ));
    r
}

/// A show in one line: its name, its episodes counted, and its title.
pub open spec fn show_text(show: rows::ShowView) -> Seq<char> {
    number::padded_right(show.name, 20, ' ') + " "@ + number::padded_left(
        number::decimal(show.episodes),
        4,
        ' ',
    ) + " episodes, "@ + number::padded_left(number::decimal(show.unplayed), 3, ' ') + " new  "@
        + player::or_empty(show.title)
}

fn show_line(show: &Show) -> (r: String)
    ensures
        r@ == show_text(show@),
{
    let line = number::pad_right(&show.name, 20, ' ').concat(" ").concat(
        &number::pad_left(&number::write_number(show.episodes), 4, ' '),
    ).concat(" episodes, ").concat(
        &number::pad_left(&number::write_number(show.unplayed), 3, ' '),
    ).concat(" new  ");
    match &show.title {
        Some(t) => line.concat(t),
        None => {
            assert(line@ + Seq::<char>::empty() =~= line@);
            line
        },
    }
}

/// Shows, one line each.
pub fn show_lines(shows: &[Show]) -> (r: Vec<String>)
    ensures
        reply::strings_view(r@) == shows@.map_values(|s: Show| s@).map_values(
            |show: rows::ShowView| show_text(show),
        ),
{
    let mut r: Vec<String> = Vec::new();
    let mut i: usize = 0;
    while i < shows.len()
        invariant
            i <= shows@.len(),
            r@.len() == i,
            forall|k: int| 0 <= k < i ==> (#[trigger] r@[k])@ == show_text(shows@[k]@),
        decreases shows@.len() - i,
    {
        r.push(show_line(&shows[i]));
        i += 1;
    }
    assert(reply::strings_view(r@) =~= shows@.map_values(|s: Show| s@).map_values(
        |show: rows::ShowView| show_text(show),
    ));
    r
}

/// An episode in one line: a mark if it is new, its id, its title, where it was left, and whether it
/// is downloaded.
pub open spec fn episode_text(episode: rows::EpisodeView) -> Seq<char> {
    (if episode.played {
        " "@
    } else {
        "\u{2022}"@
    }) + " "@ + number::padded_left(number::signed_decimal(episode.id), 6, ' ') + "  "@
        + episode.about.title + screen::left_at(episode) + (if episode.download_path is Some {
        "  [saved]"@
    } else {
        seq![]
    })
}

fn episode_line(episode: &Episode) -> (r: String)
    ensures
        r@ == episode_text(episode@),
{
    let mark = if episode.played {
        " "
    } else {
        "\u{2022}"
    };
    let line = mark.to_owned().concat(" ").concat(
        &number::pad_left(&number::write_signed(episode.id), 6, ' '),
    ).concat("  ").concat(&episode.title).concat(&left_text(episode));
    if episode.download_path.is_some() {
        line.concat("  [saved]")
    } else {
        assert(line@ + Seq::<char>::empty() =~= line@);
        line
    }
}

/// Episodes, one line each.
pub fn episode_lines(episodes: &[Episode]) -> (r: Vec<String>)
    ensures
        reply::strings_view(r@) == episodes@.map_values(|e: Episode| e@).map_values(
            |episode: rows::EpisodeView| episode_text(episode),
        ),
{
    let mut r: Vec<String> = Vec::new();
    let mut i: usize = 0;
    while i < episodes.len()
        invariant
            i <= episodes@.len(),
            r@.len() == i,
            forall|k: int| 0 <= k < i ==> (#[trigger] r@[k])@ == episode_text(episodes@[k]@),
        decreases episodes@.len() - i,
    {
        r.push(episode_line(&episodes[i]));
        i += 1;
    }
    assert(reply::strings_view(r@) =~= episodes@.map_values(|e: Episode| e@).map_values(
        |episode: rows::EpisodeView| episode_text(episode),
    ));
    r
}

/// What is said of a new subscription.
pub fn subscribed_line(show: &Show, added: usize) -> (r: String)
    ensures
        r@ == (match show@.title {
            Some(t) => t,
            None => show@.name,
        }) + " subscribed: "@ + number::decimal(added as nat) + " episodes"@,
{
    let name = match &show.title {
        Some(t) => t.clone(),
        None => show.name.clone(),
    };
    name.concat(" subscribed: ").concat(&number::write_number(added as u64)).concat(" episodes")
}

/// What is said of an episode that is playing.
pub fn playing_line(episode: &Episode) -> (r: String)
    ensures
        r@ == "playing "@ + episode@.about.title,
{
    "playing ".to_owned().concat(&episode.title)
}

/// What is said of a download.
pub fn saved_line(path: &str) -> (r: String)
    ensures
        r@ == "saved to ~/music/"@ + path@,
{
    "saved to ~/music/".to_owned().concat(path)
}

/// What is said of a download that was deleted.
pub fn removed_line(id: i64) -> (r: String)
    ensures
        r@ == "removed episode "@ + number::signed_decimal(id as int) + "'s file"@,
{
    "removed episode ".to_owned().concat(&number::write_signed(id)).concat("'s file")
}

/// What is said of a subscription that ended.
pub fn forgotten_line(name: &str) -> (r: String)
    ensures
        r@ == "unsubscribed from "@ + name@,
{
    "unsubscribed from ".to_owned().concat(name)
}

/// What is playing is told in one line: a mark for mpd's state, whose music it is, what it is, where
/// it is in it, and the volume, where there is one. If nothing is there to play it says so.
pub proof fn law_what_is_playing_is_told(now: player::NowView)
    ensures
        ({
            let mark = if now.state == "play"@ {
                "\u{25b6}"@
            } else if now.state == "pause"@ {
                "\u{23f8}"@
            } else {
                "\u{25a0}"@
            };
            let volume = if now.volume is Some {
                "  vol "@ + number::signed_decimal(now.volume->Some_0) + "%"@
            } else {
                seq![]
            };
            let times = if now.duration > 0 {
                player::clock_text(now.elapsed) + " / "@ + player::clock_text(now.duration)
            } else {
                player::clock_text(now.elapsed)
            };
            &&& now.state == "stop"@ && now.title.len() == 0 ==> now_text(now) == mark
                + " stopped"@ + volume
            &&& !(now.state == "stop"@ && now.title.len() == 0) && now.artist.len() > 0 ==> now_text(
                now,
            ) == mark + " "@ + now.artist + " \u{2014} "@ + now.title + "  "@ + times + volume
            &&& !(now.state == "stop"@ && now.title.len() == 0) && now.artist.len() == 0 ==> now_text(
                now,
            ) == mark + " "@ + now.title + "  "@ + times + volume
        }),
{
    if now.artist.len() > 0 {
        assert(state_mark(now.state) + " "@ + (now.artist + " \u{2014} "@) =~= state_mark(now.state)
            + " "@ + now.artist + " \u{2014} "@);
    } else {
        assert(state_mark(now.state) + " "@ + Seq::<char>::empty() =~= state_mark(now.state) + " "@);
    }
}

/// A song's line shows its own title, or else its station's name, or else its file; its artist before
/// that; and before everything its place in the queue, if it has one.
pub proof fn law_a_song_is_told(song: reply::SongView)
    ensures
        ({
            let title = if song.title is Some {
                song.title->Some_0
            } else if song.name is Some {
                song.name->Some_0
            } else {
                song.file
            };
            let said = if song.artist is Some {
                song.artist->Some_0 + " \u{2014} "@ + title
            } else {
                title
            };
            &&& song.pos is None ==> song_text(song) == said
            &&& song.pos matches Some(p) ==> song_text(song) == number::padded_left(
                number::decimal(p),
                3,
                ' ',
            ) + "  "@ + said
        }),
{
    let title = player::song_title(song, song.file);
    assert(song_text(song) =~= (match song.pos {
        Some(p) => number::padded_left(number::decimal(p), 3, ' ') + "  "@,
        None => seq![],
    }) + (match song.artist {
        Some(a) => a + " \u{2014} "@ + title,
        None => title,
    }));
    if song.pos is None {
        assert(song_text(song) =~= match song.artist {
            Some(a) => a + " \u{2014} "@ + title,
            None => title,
        });
    }
}

/// A show's line shows the name it goes by, how many episodes it has and how many of them are new,
/// and its title, if that is known.
pub proof fn law_a_show_is_told(show: rows::ShowView)
    ensures
        ({
            let said = number::padded_right(show.name, 20, ' ') + " "@ + number::padded_left(
                number::decimal(show.episodes),
                4,
                ' ',
            ) + " episodes, "@ + number::padded_left(number::decimal(show.unplayed), 3, ' ')
                + " new  "@;
            &&& show.title matches Some(t) ==> show_text(show) == said + t
            &&& show.title is None ==> show_text(show) == said
        }),
{
    if show.title is None {
        assert(show_text(show) + Seq::<char>::empty() =~= show_text(show));
    }
}

/// An episode's line begins with a dot until it has been heard, and shows the id it is played by, its
/// title, where it was left, and whether its file is here.
pub proof fn law_an_episode_is_told(episode: rows::EpisodeView)
    ensures
        ({
            let mark = if episode.played {
                " "@
            } else {
                "\u{2022}"@
            };
            let said = mark + " "@ + number::padded_left(
                number::signed_decimal(episode.id),
                6,
                ' ',
            ) + "  "@ + episode.about.title;
            let left = if !episode.played && episode.position > 0 {
                said + ("  at "@ + player::clock_text(episode.position))
            } else {
                said
            };
            &&& episode.download_path is Some ==> episode_text(episode) == left + "  [saved]"@
            &&& episode.download_path is None ==> episode_text(episode) == left
        }),
{
    let said = (if episode.played {
        " "@
    } else {
        "\u{2022}"@
    }) + " "@ + number::padded_left(number::signed_decimal(episode.id), 6, ' ') + "  "@
        + episode.about.title;
    assert(said + Seq::<char>::empty() =~= said);
    assert(said + screen::left_at(episode) + Seq::<char>::empty() =~= said + screen::left_at(
        episode,
    ));
}

} // verus!
