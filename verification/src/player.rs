//! What is playing, in one value: mpd's state, the song, and the podcast it belongs to.
//!
//! `title` and `artist` are filled for display: a podcast episode shows its own title and its show;
//! a stream its station's name; a file with no tags its file name. `at` is when mpd was asked, so
//! that a reader can advance `elapsed` between changes. Times are in milliseconds.
use vstd::prelude::*;

use crate::mpd::reply;
use crate::mpd::reply::{Song, Status};
use crate::number;
use crate::store::changes;
use crate::store::laws;
use crate::store::records::Store;
use crate::store::records;
use crate::store::rows::Episode;
use crate::store::rows;
use crate::text;

verus! {

/// The podcast episode that is playing.
#[derive(Debug, Clone, PartialEq)]
pub struct PodcastRef {
    pub episode_id: i64,
    pub show: String,
    pub image_url: Option<String>,
}

/// What is playing.
#[derive(Debug, Clone, PartialEq)]
pub struct Now {
    pub state: String,
    pub elapsed: i64,
    pub duration: i64,
    pub volume: Option<i32>,
    pub random: bool,
    pub repeat: bool,
    pub queue_length: u32,
    pub title: String,
    pub artist: String,
    pub album: String,
    pub file: Option<String>,
    pub podcast: Option<PodcastRef>,
    /// a local cover image, when one is known
    pub art: Option<String>,
    pub at: i64,
}

/// A `PodcastRef`, with its texts as sequences.
pub ghost struct PodcastRefView {
    pub episode_id: int,
    pub show: Seq<char>,
    pub image_url: Option<Seq<char>>,
}

/// A `Now`, with its texts as sequences.
pub ghost struct NowView {
    pub state: Seq<char>,
    pub elapsed: int,
    pub duration: int,
    pub volume: Option<int>,
    pub random: bool,
    pub repeat: bool,
    pub queue_length: nat,
    pub title: Seq<char>,
    pub artist: Seq<char>,
    pub album: Seq<char>,
    pub file: Option<Seq<char>>,
    pub podcast: Option<PodcastRefView>,
    pub art: Option<Seq<char>>,
    pub at: int,
}

impl View for PodcastRef {
    type V = PodcastRefView;

    open spec fn view(&self) -> PodcastRefView {
        PodcastRefView {
            episode_id: self.episode_id as int,
            show: self.show@,
            image_url: text::opt(self.image_url),
        }
    }
}

/// A volume that may be absent.
pub open spec fn opt_i32(n: Option<i32>) -> Option<int> {
    match n {
        Some(n) => Some(n as int),
        None => None,
    }
}

impl View for Now {
    type V = NowView;

    open spec fn view(&self) -> NowView {
        NowView {
            state: self.state@,
            elapsed: self.elapsed as int,
            duration: self.duration as int,
            volume: opt_i32(self.volume),
            random: self.random,
            repeat: self.repeat,
            queue_length: self.queue_length as nat,
            title: self.title@,
            artist: self.artist@,
            album: self.album@,
            file: text::opt(self.file),
            podcast: match self.podcast {
                Some(p) => Some(p@),
                None => None,
            },
            art: text::opt(self.art),
            at: self.at as int,
        }
    }
}

/// A time as far as it can be held.
pub open spec fn fitted(millis: int) -> int {
    if millis > i64::MAX {
        i64::MAX as int
    } else if millis < i64::MIN {
        i64::MIN as int
    } else {
        millis
    }
}

/// A time as far as it can be held.
pub fn fit(millis: i128) -> (r: i64)
    ensures
        r == fitted(millis as int),
{
    if millis > i64::MAX as i128 {
        i64::MAX
    } else if millis < i64::MIN as i128 {
        i64::MIN
    } else {
        millis as i64
    }
}

/// The path of a file or a URL: a URL ends before its query, and a file's name may hold anything.
pub open spec fn path_of(file: Seq<char>) -> Seq<char> {
    if text::find(file, "://"@) is Some {
        text::before_query(file)
    } else {
        file
    }
}

/// The last piece of a file's path or a URL, for songs with no tags.
pub open spec fn base_name_of(file: Seq<char>) -> Seq<char> {
    let path = path_of(file);
    let trimmed = text::without_end(path, '/');
    if trimmed.len() == 0 {
        path
    } else {
        text::after_last(trimmed, '/')
    }
}

/// The name that a song goes by: its title, else its station's name, else `fallback`.
pub open spec fn song_title(song: reply::SongView, fallback: Seq<char>) -> Seq<char> {
    match song.title {
        Some(t) => t,
        None => match song.name {
            Some(n) => n,
            None => fallback,
        },
    }
}

/// A text, or nothing.
pub open spec fn or_empty(text: Option<Seq<char>>) -> Seq<char> {
    match text {
        Some(t) => t,
        None => seq![],
    }
}

/// mpd's status, its current song and the podcast episode it belongs to, put together for display.
/// The title of an episode's show may be unknown. A stream's length is unknown to mpd, and its feed
/// may know it.
pub open spec fn composed(
    status: reply::StatusView,
    song: Option<reply::SongView>,
    podcast: Option<(rows::EpisodeView, Option<Seq<char>>)>,
    at: int,
) -> NowView {
    NowView {
        state: status.state,
        elapsed: status.elapsed,
        duration: match podcast {
            Some((episode, _)) => if status.duration <= 0 {
                match episode.about.duration_seconds {
                    Some(d) => fitted(d * 1000),
                    None => 0,
                }
            } else {
                status.duration
            },
            None => status.duration,
        },
        volume: status.volume,
        random: status.random,
        repeat: status.repeat,
        queue_length: status.queue_length,
        title: match podcast {
            Some((episode, _)) => episode.about.title,
            None => match song {
                Some(s) => song_title(s, base_name_of(s.file)),
                None => seq![],
            },
        },
        artist: match podcast {
            Some((episode, show_title)) => match show_title {
                Some(t) => t,
                None => episode.show,
            },
            None => match song {
                Some(s) => or_empty(s.artist),
                None => seq![],
            },
        },
        album: match podcast {
            Some(_) => seq![],
            None => match song {
                Some(s) => or_empty(s.album),
                None => seq![],
            },
        },
        file: match song {
            Some(s) => Some(s.file),
            None => None,
        },
        podcast: match podcast {
            Some((episode, _)) => Some(
                PodcastRefView {
                    episode_id: episode.id,
                    show: episode.show,
                    image_url: episode.about.image_url,
                },
            ),
            None => None,
        },
        art: None,
        at,
    }
}

/// A song's view, if there is one.
pub open spec fn opt_song(song: Option<Song>) -> Option<reply::SongView> {
    match song {
        Some(s) => Some(s@),
        None => None,
    }
}

/// An episode and its show's title, if there is one.
pub open spec fn opt_podcast(podcast: Option<(Episode, Option<String>)>) -> Option<
    (rows::EpisodeView, Option<Seq<char>>),
> {
    match podcast {
        Some((episode, title)) => Some((episode@, text::opt(title))),
        None => None,
    }
}

fn base_name(file: &str) -> (r: String)
    ensures
        r@ == base_name_of(file@),
{
    let path = if text::holds(file, "://") {
        text::without_query(file)
    } else {
        file.to_owned()
    };
    let trimmed = text::trim_end(&path, '/');
    if trimmed.as_str().is_empty() {
        path
    } else {
        text::last_piece(&trimmed, '/')
    }
}

fn text_or_empty(text: Option<String>) -> (r: String)
    ensures
        r@ == or_empty(text::opt(text)),
{
    match text {
        Some(t) => t,
        None => {
            let r = String::new();
            assert(r@ =~= seq![]);
            r
        },
    }
}

/// Put mpd's status, its current song and the podcast episode it belongs to together for display.
pub fn compose(
    status: Status,
    song: Option<Song>,
    podcast: Option<(Episode, Option<String>)>,
    at: i64,
) -> (now: Now)
    ensures
        now@ == composed(status@, opt_song(song), opt_podcast(podcast), at as int),
{
    let file = match &song {
        Some(s) => Some(s.file.clone()),
        None => None,
    };
    let (title, artist, album, duration, podcast) = match podcast {
        Some((episode, show_title)) => {
            let duration = if status.duration <= 0 {
                match episode.duration_seconds {
                    Some(d) => fit(d as i128 * 1000),
                    None => 0,
                }
            } else {
                status.duration
            };
            let artist = match show_title {
                Some(t) => t,
                None => episode.show.clone(),
            };
            let podcast = PodcastRef {
                episode_id: episode.id,
                show: episode.show,
                image_url: episode.image_url,
            };
            (episode.title, artist, text_or_empty(None), duration, Some(podcast))
        },
        None => match song {
            Some(s) => {
                let title = match s.title {
                    Some(t) => t,
                    None => match s.name {
                        Some(n) => n,
                        None => base_name(&s.file),
                    },
                };
                (title, text_or_empty(s.artist), text_or_empty(s.album), status.duration, None)
            },
            None => (
                text_or_empty(None),
                text_or_empty(None),
                text_or_empty(None),
                status.duration,
                None,
            ),
        },
    };
    Now {
        state: status.state,
        elapsed: status.elapsed,
        duration,
        volume: status.volume,
        random: status.random,
        repeat: status.repeat,
        queue_length: status.queue_length,
        title,
        artist,
        album,
        file,
        podcast,
        art: None,
        at,
    }
}

/// The podcast episode that a song is, with its show's title, as far as the store knows.
pub open spec fn podcast_for(store: Option<records::StoreView>, song: Option<reply::SongView>)
    -> Option<(rows::EpisodeView, Option<Seq<char>>)> {
    match (store, song) {
        (Some(store), Some(song)) => match changes::episode_with_uri(store, song.file) {
            Some(episode) => Some(
                (
                    episode,
                    match records::show_index(store.shows, episode.show) {
                        Some(i) => store.shows[i].title,
                        None => None,
                    },
                ),
            ),
            None => None,
        },
        _ => None,
    }
}

/// A store's view, if there is one.
pub open spec fn opt_store(store: Option<&Store>) -> Option<records::StoreView> {
    match store {
        Some(store) => Some(store@),
        None => None,
    }
}

/// What is playing right now, from mpd's status and current song, and the podcast store if there is
/// one. `at` is when mpd was asked.
pub fn now(status: Status, song: Option<Song>, store: Option<&Store>, at: i64) -> (r: Now)
    ensures
        r@ == composed(
            status@,
            opt_song(song),
            podcast_for(opt_store(store), opt_song(song)),
            at as int,
        ),
{
    let podcast = match (store, &song) {
        (Some(store), Some(song)) => match store.episode_by_uri(&song.file) {
            Some(episode) => {
                let title = match store.show(&episode.show) {
                    Ok(show) => show.title,
                    Err(_) => None,
                };
                Some((episode, title))
            },
            None => None,
        },
        _ => None,
    };
    compose(status, song, podcast, at)
}

/// Two digits.
pub open spec fn two_digits(n: nat) -> Seq<char> {
    number::padded_left(number::decimal(n), 2, '0')
}

/// A time as a clock shows it: `3:07` or `1:02:03`. A time before the start is the start.
pub open spec fn clock_text(millis: int) -> Seq<char> {
    let total = if millis < 0 {
        0nat
    } else {
        (millis / 1000) as nat
    };
    let h = total / 3600;
    let m = total % 3600 / 60;
    let s = total % 60;
    if h > 0 {
        number::decimal(h) + ":"@ + two_digits(m) + ":"@ + two_digits(s)
    } else {
        number::decimal(m) + ":"@ + two_digits(s)
    }
}

/// A time as a clock shows it: `3:07` or `1:02:03`.
pub fn clock(millis: i64) -> (r: String)
    ensures
        r@ == clock_text(millis as int),
{
    let total: u64 = if millis < 0 {
        0
    } else {
        millis as u64 / 1000
    };
    let h: u64 = total / 3600;
    let m: u64 = total % 3600 / 60;
    let s: u64 = total % 60;
    let seconds = number::pad_left(&number::write_number(s), 2, '0');
    if h > 0 {
        let minutes = number::pad_left(&number::write_number(m), 2, '0');
        number::write_number(h).concat(":").concat(&minutes).concat(":").concat(&seconds)
    } else {
        number::write_number(m).concat(":").concat(&seconds)
    }
}

/// What is shown of a song never depends on the podcast store unless the song is an episode: with
/// no store, or none that knows the file, the song speaks for itself.
pub proof fn law_songs_speak_for_themselves(
    status: reply::StatusView,
    song: reply::SongView,
    store: records::StoreView,
    at: int,
)
    requires
        changes::episode_with_uri(store, song.file) is None,
    ensures
        composed(status, Some(song), podcast_for(Some(store), Some(song)), at) == composed(
            status,
            Some(song),
            podcast_for(None, Some(song)),
            at,
        ),
{
}

/// A clock shows whole seconds: it stands still until the next second is full.
pub proof fn law_clock_shows_whole_seconds(seconds: int, rest: int)
    requires
        0 <= seconds,
        0 <= rest < 1000,
    ensures
        clock_text(seconds * 1000 + rest) == clock_text(seconds * 1000),
{
}

/// A library file with no tags shows its file name: what follows the last slash of its path.
pub proof fn law_library_files_show_their_name(file: Seq<char>)
    requires
        text::find(file, "://"@) is None,
        file.len() > 0,
        file.last() != '/',
    ensures
        base_name_of(file) == text::after_last(file, '/'),
{
}

/// The seconds that the fields of a clock stand for, from the left: each field is worth sixty of the
/// next.
pub open spec fn fields_value(fields: Seq<Seq<char>>) -> nat
    decreases fields.len(),
{
    if fields.len() == 0 {
        0
    } else {
        fields_value(fields.drop_last()) * 60 + number::digits_value(fields.last())
    }
}

proof fn lemma_two_digits(n: nat)
    requires
        n < 60,
    ensures
        number::digits_value(two_digits(n)) == n,
        !two_digits(n).contains(':'),
{
    number::law_decimal_reads_back(n);
    reveal_with_fuel(number::decimal, 2);
    reveal_with_fuel(number::digits_value, 3);
    let s = two_digits(n);
    if n < 10 {
        assert(s.drop_last() =~= seq!['0']);
        assert(s.drop_last().drop_last() =~= seq![]);
    }
    assert forall|i: int| 0 <= i < s.len() implies s[i] != ':' by {
        assert(text::is_digit(s[i]));
    }
}

/// A clock reads back as the whole seconds of the time that it shows.
pub proof fn law_clock_reads_back(millis: int)
    ensures
        fields_value(text::pieces(clock_text(millis), ':')) == if millis < 0 {
            0
        } else {
            millis / 1000
        },
{
    reveal_strlit(":");
    reveal_with_fuel(fields_value, 4);
    let total = if millis < 0 {
        0nat
    } else {
        (millis / 1000) as nat
    };
    let h = total / 3600;
    let m = total % 3600 / 60;
    let s = total % 60;
    lemma_two_digits(s);
    lemma_two_digits(m);
    lemma_number_has_no_colon(h);
    lemma_number_has_no_colon(m);
    let c = clock_text(millis);
    let fields = text::pieces(c, ':');
    text::lemma_pieces(two_digits(s), seq![], ':');
    if h > 0 {
        let rest = two_digits(m) + seq![':'] + two_digits(s);
        assert(c =~= number::decimal(h) + seq![':'] + rest);
        text::lemma_pieces(number::decimal(h), rest, ':');
        text::lemma_pieces(two_digits(m), two_digits(s), ':');
        assert(fields =~= seq![number::decimal(h), two_digits(m), two_digits(s)]);
        assert(fields.drop_last() =~= seq![number::decimal(h), two_digits(m)]);
        assert(fields.drop_last().drop_last() =~= seq![number::decimal(h)]);
        assert(fields.drop_last().drop_last().drop_last() =~= seq![]);
    } else {
        assert(c =~= number::decimal(m) + seq![':'] + two_digits(s));
        text::lemma_pieces(number::decimal(m), two_digits(s), ':');
        assert(fields =~= seq![number::decimal(m), two_digits(s)]);
        assert(fields.drop_last() =~= seq![number::decimal(m)]);
        assert(fields.drop_last().drop_last() =~= seq![]);
    }
}

proof fn lemma_number_has_no_colon(n: nat)
    ensures
        !number::decimal(n).contains(':'),
        number::digits_value(number::decimal(n)) == n,
{
    number::law_decimal_reads_back(n);
    let s = number::decimal(n);
    assert forall|i: int| 0 <= i < s.len() implies s[i] != ':' by {
        assert(text::is_digit(s[i]));
    }
}

/// What mpd says of itself is shown as mpd says it, whatever plays; only a length that mpd does not
/// know is taken from an episode's feed.
pub proof fn law_mpds_word_is_kept(
    status: reply::StatusView,
    song: Option<reply::SongView>,
    podcast: Option<(rows::EpisodeView, Option<Seq<char>>)>,
    at: int,
)
    ensures
        ({
            let now = composed(status, song, podcast, at);
            &&& now.state == status.state
            &&& now.elapsed == status.elapsed
            &&& now.volume == status.volume
            &&& now.random == status.random
            &&& now.repeat == status.repeat
            &&& now.queue_length == status.queue_length
            &&& now.at == at
            &&& now.art is None
            &&& podcast is None || status.duration > 0 ==> now.duration == status.duration
            &&& song is None ==> now.file is None
            &&& song matches Some(s) ==> now.file == Some(s.file)
        }),
{
}

/// A song that is no episode shows its own tags: its title, or else its station's name, or else what
/// its file is called; and its artist and album, where it has them.
pub proof fn law_a_song_shows_its_tags(status: reply::StatusView, song: reply::SongView, at: int)
    ensures
        ({
            let now = composed(status, Some(song), None, at);
            &&& now.podcast is None
            &&& song.title matches Some(t) ==> now.title == t
            &&& song.title is None && song.name is Some ==> now.title == song.name->Some_0
            &&& song.title is None && song.name is None ==> now.title == base_name_of(song.file)
            &&& song.artist matches Some(a) ==> now.artist == a
            &&& song.artist is None ==> now.artist.len() == 0
            &&& song.album matches Some(a) ==> now.album == a
            &&& song.album is None ==> now.album.len() == 0
        }),
        ({
            let now = composed(status, None, None, at);
            &&& now.podcast is None
            &&& now.title.len() == 0
            &&& now.artist.len() == 0
            &&& now.album.len() == 0
        }),
{
}

/// An episode shows its own title, its show as the artist, and no album, whatever tags its stream
/// has. If mpd does not know how long it is, its feed says so, in whole seconds.
pub proof fn law_an_episode_shows_its_show(
    status: reply::StatusView,
    song: Option<reply::SongView>,
    episode: rows::EpisodeView,
    show_title: Option<Seq<char>>,
    at: int,
)
    ensures
        ({
            let now = composed(status, song, Some((episode, show_title)), at);
            &&& now.title == episode.about.title
            &&& show_title matches Some(t) ==> now.artist == t
            &&& show_title is None ==> now.artist == episode.show
            &&& now.album.len() == 0
            &&& now.podcast matches Some(p) && p.episode_id == episode.id && p.show == episode.show
                && p.image_url == episode.about.image_url
            &&& status.duration > 0 ==> now.duration == status.duration
            &&& status.duration <= 0 && episode.about.duration_seconds is None ==> now.duration == 0
            &&& status.duration <= 0 ==> (episode.about.duration_seconds matches Some(d) ==> (
            i64::MIN <= d * 1000 <= i64::MAX ==> now.duration == d * 1000))
        }),
{
}

/// What a song without tags is called: what follows the last slash of its path. A file of the library
/// may hold any characters; a URL ends before its query; and slashes at the end do not count.
pub proof fn law_what_a_file_is_called(
    above: Seq<char>,
    name: Seq<char>,
    query: Seq<char>,
)
    requires
        name.len() > 0,
        !name.contains('/'),
        query.len() > 0 ==> query[0] == '?' || query[0] == '#',
    ensures
        ({
            let file = above + seq!['/'] + name;
            &&& text::find(file, "://"@) is None ==> base_name_of(file) == name && base_name_of(
                file.push('/'),
            ) == name
            &&& text::find(file + query, "://"@) is Some && !file.contains('?') && !file.contains(
                '#',
            ) ==> base_name_of(file + query) == name
        }),
        text::find(name, "://"@) is None ==> base_name_of(name) == name,
{
    let file = above + seq!['/'] + name;
    text::law_cut_at_the_last(above, name, '/');
    assert(file.last() == name.last());
    assert(name[name.len() - 1] != '/');
    text::law_trimming(file, '/');
    text::law_trimming(name, '/');
    if text::find(file, "://"@) is None {
        let longer = file.push('/');
        if text::find(longer, "://"@) is Some {
            reveal_strlit("://");
            text::lemma_find(longer, "://"@);
            let k = text::find(longer, "://"@)->Some_0;
            assert("://"@ == longer.skip(k).subrange(0, 3));
            assert("://"@[1] == '/' && "://"@[2] == '/');
            assert(longer.skip(k)[1] == longer.skip(k).subrange(0, 3)[1]);
            if k + 3 == longer.len() {
                assert(longer[k + 1] == '/');
                assert(longer[k + 1] == file[k + 1]);
                assert(k + 1 == file.len() - 1);
            } else {
                assert("://"@.is_prefix_of(file.skip(k))) by {
                    assert forall|j: int| 0 <= j < 3 implies file.skip(k)[j] == "://"@[j] by {
                        assert(file.skip(k)[j] == longer.skip(k)[j]);
                    }
                    assert("://"@ =~= file.skip(k).take(3));
                }
                text::law_cut_at_the_first(file, "://"@, k);
            }
        }
        assert(text::find(longer, "://"@) is None);
    }
    if !file.contains('?') && !file.contains('#') {
        text::law_a_path_ends_at_its_query(file, query);
    }
}

/// A time is kept as it is if it can be held, and else as the nearest that can.
pub proof fn law_times_that_cannot_be_held(millis: int)
    ensures
        i64::MIN <= millis <= i64::MAX ==> fitted(millis) == millis,
        millis > i64::MAX ==> fitted(millis) == i64::MAX,
        millis < i64::MIN ==> fitted(millis) == i64::MIN,
{
}

/// A clock shows minutes and seconds, and hours before them once there are any; and behind its first
/// field each has two digits.
pub proof fn law_the_fields_of_a_clock(millis: int)
    ensures
        ({
            let fields = text::pieces(clock_text(millis), ':');
            &&& millis < 3600000 ==> fields.len() == 2
            &&& millis >= 3600000 ==> fields.len() == 3 && fields[1].len() == 2
            &&& fields.last().len() == 2
            &&& number::digits_value(fields.last()) < 60
            &&& fields.len() == 3 ==> number::digits_value(fields[1]) < 60 && fields[0]
                == number::decimal((millis / 3600000) as nat)
            &&& 0 <= millis < 3600000 ==> fields[0] == number::decimal((millis / 60000) as nat)
        }),
{
    reveal_strlit(":");
    let total = if millis < 0 {
        0nat
    } else {
        (millis / 1000) as nat
    };
    let h = total / 3600;
    let m = total % 3600 / 60;
    let s = total % 60;
    lemma_two_digits(s);
    lemma_two_digits(m);
    lemma_number_has_no_colon(h);
    lemma_number_has_no_colon(m);
    reveal_with_fuel(number::decimal, 2);
    assert(two_digits(s).len() == 2 && two_digits(m).len() == 2);
    let c = clock_text(millis);
    text::lemma_pieces(two_digits(s), seq![], ':');
    if h > 0 {
        let rest = two_digits(m) + seq![':'] + two_digits(s);
        assert(c =~= number::decimal(h) + seq![':'] + rest);
        text::lemma_pieces(number::decimal(h), rest, ':');
        text::lemma_pieces(two_digits(m), two_digits(s), ':');
        assert(text::pieces(c, ':') =~= seq![number::decimal(h), two_digits(m), two_digits(s)]);
        assert(h == millis / 3600000);
    } else {
        assert(c =~= number::decimal(m) + seq![':'] + two_digits(s));
        text::lemma_pieces(number::decimal(m), two_digits(s), ':');
        assert(text::pieces(c, ':') =~= seq![number::decimal(m), two_digits(s)]);
        assert(millis >= 0 ==> m == millis / 60000);
    }
}

/// A song is an episode if the store knows its file or its stream, and then it is shown under the
/// title of its show, where that is known. Without a store, or with no song, there is no episode.
pub proof fn law_the_store_knows_its_episodes(
    store: records::StoreView,
    song: reply::SongView,
    i: int,
)
    requires
        store.sound(),
        0 <= i < store.shows.len(),
    ensures
        podcast_for(None, Some(song)) is None,
        podcast_for(Some(store), None) is None,
        changes::episode_with_uri(store, song.file) is None ==> podcast_for(
            Some(store),
            Some(song),
        ) is None,
        changes::episode_with_uri(store, song.file) matches Some(e) ==> podcast_for(
            Some(store),
            Some(song),
        ) matches Some((episode, title)) && episode == e && (store.shows[i].name == e.show
            ==> title == store.shows[i].title),
{
    laws::lemma_row_named(store.shows, i);
}

} // verus!
