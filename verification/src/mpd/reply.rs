//! What mpd reports: its status, and songs. Times are in milliseconds.
use vstd::prelude::*;

use crate::number;
use crate::text;

verus! {

/// mpd's state.
#[derive(Debug, Clone, Default, PartialEq)]
pub struct Status {
    /// play, pause or stop
    pub state: String,
    /// none when mpd has no mixer
    pub volume: Option<i32>,
    pub elapsed: i64,
    pub duration: i64,
    /// position of the current song in the queue
    pub song: Option<u32>,
    pub queue_length: u32,
    pub random: bool,
    pub repeat: bool,
    pub single: bool,
    pub consume: bool,
    pub error: Option<String>,
}

/// A `Status`, with its texts as sequences.
pub ghost struct StatusView {
    pub state: Seq<char>,
    pub volume: Option<int>,
    pub elapsed: int,
    pub duration: int,
    pub song: Option<nat>,
    pub queue_length: nat,
    pub random: bool,
    pub repeat: bool,
    pub single: bool,
    pub consume: bool,
    pub error: Option<Seq<char>>,
}

/// A number that may be absent.
pub open spec fn opt_u32(n: Option<u32>) -> Option<nat> {
    match n {
        Some(n) => Some(n as nat),
        None => None,
    }
}

/// A number that may be absent.
pub open spec fn opt_i64(n: Option<i64>) -> Option<int> {
    match n {
        Some(n) => Some(n as int),
        None => None,
    }
}

impl View for Status {
    type V = StatusView;

    open spec fn view(&self) -> StatusView {
        StatusView {
            state: self.state@,
            volume: match self.volume {
                Some(v) => Some(v as int),
                None => None,
            },
            elapsed: self.elapsed as int,
            duration: self.duration as int,
            song: opt_u32(self.song),
            queue_length: self.queue_length as nat,
            random: self.random,
            repeat: self.repeat,
            single: self.single,
            consume: self.consume,
            error: text::opt(self.error),
        }
    }
}

/// One song, as mpd describes it.
#[derive(Debug, Clone, Default, PartialEq)]
pub struct Song {
    pub file: String,
    pub title: Option<String>,
    pub artist: Option<String>,
    pub album: Option<String>,
    /// a radio or podcast stream's own name
    pub name: Option<String>,
    pub duration: Option<i64>,
    pub pos: Option<u32>,
    pub id: Option<u32>,
}

/// A `Song`, with its texts as sequences.
pub ghost struct SongView {
    pub file: Seq<char>,
    pub title: Option<Seq<char>>,
    pub artist: Option<Seq<char>>,
    pub album: Option<Seq<char>>,
    pub name: Option<Seq<char>>,
    pub duration: Option<int>,
    pub pos: Option<nat>,
    pub id: Option<nat>,
}

impl View for Song {
    type V = SongView;

    open spec fn view(&self) -> SongView {
        SongView {
            file: self.file@,
            title: text::opt(self.title),
            artist: text::opt(self.artist),
            album: text::opt(self.album),
            name: text::opt(self.name),
            duration: opt_i64(self.duration),
            pos: opt_u32(self.pos),
            id: opt_u32(self.id),
        }
    }
}

impl Song {
    /// A copy of the song.
    pub fn copy(&self) -> (r: Song)
        ensures
            r@ == self@,
    {
        Song {
            file: self.file.clone(),
            title: text::copy(&self.title),
            artist: text::copy(&self.artist),
            album: text::copy(&self.album),
            name: text::copy(&self.name),
            duration: self.duration,
            pos: self.pos,
            id: self.id,
        }
    }
}

/// The songs' views.
pub open spec fn songs_view(songs: Seq<Song>) -> Seq<SongView> {
    songs.map_values(|s: Song| s@)
}

/// A reply's keys and values.
pub open spec fn pairs_view(pairs: Seq<(String, String)>) -> Seq<(Seq<char>, Seq<char>)> {
    pairs.map_values(|kv: (String, String)| (kv.0@, kv.1@))
}

/// The value of the first `key` in a reply.
pub open spec fn lookup(pairs: Seq<(Seq<char>, Seq<char>)>, key: Seq<char>) -> Option<Seq<char>>
    decreases pairs.len(),
{
    if pairs.len() == 0 {
        None
    } else if pairs[0].0 == key {
        Some(pairs[0].1)
    } else {
        lookup(pairs.skip(1), key)
    }
}

/// A time in a reply; one that is missing or odd is zero.
pub open spec fn time_in(pairs: Seq<(Seq<char>, Seq<char>)>, key: Seq<char>) -> int {
    match lookup(pairs, key) {
        Some(v) => match number::millis(v) {
            Some(n) => n,
            None => 0,
        },
        None => 0,
    }
}

/// A 32-bit number in a reply.
pub open spec fn number_in(pairs: Seq<(Seq<char>, Seq<char>)>, key: Seq<char>) -> Option<nat> {
    match lookup(pairs, key) {
        Some(v) => number::unsigned_within(v, u32::MAX as nat),
        None => None,
    }
}

/// What a `status` reply says.
pub open spec fn status_of(pairs: Seq<(Seq<char>, Seq<char>)>) -> StatusView {
    StatusView {
        state: match lookup(pairs, "state"@) {
            Some(s) => s,
            None => "stop"@,
        },
        // mpd says -1 when there is no volume control
        volume: match lookup(pairs, "volume"@) {
            Some(v) => match number::signed_value(v) {
                Some(n) if 0 <= n <= i32::MAX => Some(n),
                _ => None,
            },
            None => None,
        },
        elapsed: time_in(pairs, "elapsed"@),
        duration: time_in(pairs, "duration"@),
        song: number_in(pairs, "song"@),
        queue_length: match number_in(pairs, "playlistlength"@) {
            Some(n) => n,
            None => 0,
        },
        random: lookup(pairs, "random"@) == Some("1"@),
        repeat: lookup(pairs, "repeat"@) == Some("1"@),
        single: lookup(pairs, "single"@) == Some("1"@),
        consume: lookup(pairs, "consume"@) == Some("1"@),
        error: lookup(pairs, "error"@),
    }
}

/// A song of which only the file is known.
pub open spec fn bare_song(file: Seq<char>) -> SongView {
    SongView {
        file,
        title: None,
        artist: None,
        album: None,
        name: None,
        duration: None,
        pos: None,
        id: None,
    }
}

/// A song with one more of its keys read.
pub open spec fn with_key(song: SongView, key: Seq<char>, value: Seq<char>) -> SongView {
    if key == "Title"@ {
        SongView { title: Some(value), ..song }
    } else if key == "Artist"@ {
        SongView { artist: Some(value), ..song }
    } else if key == "Album"@ {
        SongView { album: Some(value), ..song }
    } else if key == "Name"@ {
        SongView { name: Some(value), ..song }
    } else if key == "duration"@ {
        SongView { duration: number::millis(value), ..song }
    } else if key == "Pos"@ {
        SongView { pos: number::unsigned_within(value, u32::MAX as nat), ..song }
    } else if key == "Id"@ {
        SongView { id: number::unsigned_within(value, u32::MAX as nat), ..song }
    } else {
        song
    }
}

/// The songs that a reply lists: each `file` starts one, and the keys after it are its own. What
/// stands before the first `file` belongs to none.
pub open spec fn songs_of(pairs: Seq<(Seq<char>, Seq<char>)>) -> Seq<SongView>
    decreases pairs.len(),
{
    if pairs.len() == 0 {
        seq![]
    } else {
        let before = songs_of(pairs.drop_last());
        let (key, value) = pairs.last();
        if key == "file"@ {
            before.push(bare_song(value))
        } else if before.len() == 0 {
            before
        } else {
            before.drop_last().push(with_key(before.last(), key, value))
        }
    }
}

/// The value of one key in a reply, if present.
pub fn get(pairs: &[(String, String)], key: &str) -> (value: Option<String>)
    ensures
        text::opt(value) == lookup(pairs_view(pairs@), key@),
{
    let mut i: usize = 0;
    let ghost all = pairs_view(pairs@);
    assert(all.skip(0) =~= all);
    while i < pairs.len()
        invariant
            i <= pairs@.len(),
            all == pairs_view(pairs@),
            lookup(all, key@) == lookup(all.skip(i as int), key@),
        decreases pairs@.len() - i,
    {
        if text::same(&pairs[i].0, key) {
            return Some(pairs[i].1.clone());
        }
        assert(all.skip(i as int).skip(1) =~= all.skip(i + 1));
        i += 1;
    }
    None
}

fn time(pairs: &[(String, String)], key: &str) -> (n: i64)
    ensures
        n == time_in(pairs_view(pairs@), key@),
{
    match get(pairs, key) {
        Some(v) => match number::read_millis(&v) {
            Some(n) => n,
            None => 0,
        },
        None => 0,
    }
}

fn small_number(pairs: &[(String, String)], key: &str) -> (n: Option<u32>)
    ensures
        opt_u32(n) == number_in(pairs_view(pairs@), key@),
{
    match get(pairs, key) {
        Some(v) => number::read_u32(&v),
        None => None,
    }
}

fn flag(pairs: &[(String, String)], key: &str) -> (r: bool)
    ensures
        r == (lookup(pairs_view(pairs@), key@) == Some("1"@)),
{
    match get(pairs, key) {
        Some(v) => text::same(&v, "1"),
        None => false,
    }
}

/// Read a `status` reply; missing or odd numbers read as zero rather than failing.
pub fn parse_status(pairs: &[(String, String)]) -> (status: Status)
    ensures
        status@ == status_of(pairs_view(pairs@)),
{
    let state = match get(pairs, "state") {
        Some(s) => s,
        None => "stop".to_owned(),
    };
    let volume: Option<i32> = match get(pairs, "volume") {
        Some(v) => match number::read_i32(&v) {
            Some(n) => if n >= 0 {
                Some(n)
            } else {
                None
            },
            None => None,
        },
        None => None,
    };
    Status {
        state,
        volume,
        elapsed: time(pairs, "elapsed"),
        duration: time(pairs, "duration"),
        song: small_number(pairs, "song"),
        queue_length: match small_number(pairs, "playlistlength") {
            Some(n) => n,
            None => 0,
        },
        random: flag(pairs, "random"),
        repeat: flag(pairs, "repeat"),
        single: flag(pairs, "single"),
        consume: flag(pairs, "consume"),
        error: get(pairs, "error"),
    }
}

fn read_key(song: Song, key: &str, value: &String) -> (r: Song)
    ensures
        r@ == with_key(song@, key@, value@),
{
    let mut song = song;
    if text::same(key, "Title") {
        song.title = Some(value.clone());
    } else if text::same(key, "Artist") {
        song.artist = Some(value.clone());
    } else if text::same(key, "Album") {
        song.album = Some(value.clone());
    } else if text::same(key, "Name") {
        song.name = Some(value.clone());
    } else if text::same(key, "duration") {
        song.duration = number::read_millis(value);
    } else if text::same(key, "Pos") {
        song.pos = number::read_u32(value);
    } else if text::same(key, "Id") {
        song.id = number::read_u32(value);
    }
    song
}

/// Read a reply that lists songs: one for each `file` line and the keys after it.
pub fn parse_songs(pairs: &[(String, String)]) -> (songs: Vec<Song>)
    ensures
        songs_view(songs@) == songs_of(pairs_view(pairs@)),
{
    let mut songs: Vec<Song> = Vec::new();
    let ghost all = pairs_view(pairs@);
    let mut i: usize = 0;
    assert(songs_view(songs@) =~= songs_of(all.take(0)));
    while i < pairs.len()
        invariant
            i <= pairs@.len(),
            all == pairs_view(pairs@),
            songs_view(songs@) == songs_of(all.take(i as int)),
        decreases pairs@.len() - i,
    {
        let ghost before = songs_view(songs@);
        assert(all.take(i + 1).drop_last() =~= all.take(i as int));
        assert(all.take(i + 1).last() == (pairs@[i as int].0@, pairs@[i as int].1@));
        if text::same(&pairs[i].0, "file") {
            songs.push(
                Song {
                    file: pairs[i].1.clone(),
                    title: None,
                    artist: None,
                    album: None,
                    name: None,
                    duration: None,
                    pos: None,
                    id: None,
                },
            );
            assert(songs_view(songs@) =~= before.push(bare_song(pairs@[i as int].1@)));
        } else {
            match songs.pop() {
                Some(song) => {
                    let song = read_key(song, &pairs[i].0, &pairs[i].1);
                    songs.push(song);
                    assert(songs_view(songs@) =~= before.drop_last().push(song@));
                },
                None => {
                    assert(songs_view(songs@) =~= before);
                },
            }
        }
        i += 1;
    }
    assert(all.take(pairs@.len() as int) =~= all);
    songs
}

/// The folders that a reply lists.
pub open spec fn folders_of(pairs: Seq<(Seq<char>, Seq<char>)>) -> Seq<Seq<char>> {
    values_of(pairs, "directory"@)
}

/// The values of every `key` in a reply, in order.
pub open spec fn values_of(pairs: Seq<(Seq<char>, Seq<char>)>, key: Seq<char>) -> Seq<Seq<char>> {
    pairs.filter(|kv: (Seq<char>, Seq<char>)| kv.0 == key).map_values(
        |kv: (Seq<char>, Seq<char>)| kv.1,
    )
}

/// The texts' views.
pub open spec fn strings_view(texts: Seq<String>) -> Seq<Seq<char>> {
    texts.map_values(|t: String| t@)
}

/// The values of every `key` in a reply, in order.
pub fn get_all(pairs: &[(String, String)], key: &str) -> (values: Vec<String>)
    ensures
        strings_view(values@) == values_of(pairs_view(pairs@), key@),
{
    let mut values: Vec<String> = Vec::new();
    let ghost all = pairs_view(pairs@);
    let ghost wanted = |kv: (Seq<char>, Seq<char>)| kv.0 == key@;
    let mut i: usize = 0;
    reveal(Seq::filter);
    assert(all.take(0).filter(wanted) =~= seq![]);
    assert(strings_view(values@) =~= values_of(all.take(0), key@));
    while i < pairs.len()
        invariant
            i <= pairs@.len(),
            all == pairs_view(pairs@),
            wanted == (|kv: (Seq<char>, Seq<char>)| kv.0 == key@),
            strings_view(values@) == values_of(all.take(i as int), key@),
        decreases pairs@.len() - i,
    {
        let ghost before = strings_view(values@);
        reveal(Seq::filter);
        assert(all.take(i + 1).drop_last() =~= all.take(i as int));
        assert(all.take(i + 1).last() == (pairs@[i as int].0@, pairs@[i as int].1@));
        if text::same(&pairs[i].0, key) {
            values.push(pairs[i].1.clone());
            assert(strings_view(values@) =~= before.push(pairs@[i as int].1@));
            assert(values_of(all.take(i + 1), key@) =~= before.push(pairs@[i as int].1@));
        }
        i += 1;
    }
    assert(all.take(pairs@.len() as int) =~= all);
    values
}

/// The last value that is given for `key`.
pub open spec fn last_given(lines: Seq<(Seq<char>, Seq<char>)>, key: Seq<char>) -> Option<Seq<char>>
    decreases lines.len(),
{
    if lines.len() == 0 {
        None
    } else if lines.last().0 == key {
        Some(lines.last().1)
    } else {
        last_given(lines.drop_last(), key)
    }
}

/// Is `key` given nowhere?
pub open spec fn never_given(lines: Seq<(Seq<char>, Seq<char>)>, key: Seq<char>) -> bool {
    forall|i: int| 0 <= i < lines.len() ==> (#[trigger] lines[i]).0 != key
}

proof fn lemma_keys_differ()
    ensures
        "file"@ != "Title"@,
        "file"@ != "Artist"@,
        "file"@ != "Album"@,
        "file"@ != "Name"@,
        "file"@ != "duration"@,
        "file"@ != "Pos"@,
        "file"@ != "Id"@,
        "Title"@ != "Artist"@,
        "Title"@ != "Album"@,
        "Title"@ != "Name"@,
        "Title"@ != "duration"@,
        "Title"@ != "Pos"@,
        "Title"@ != "Id"@,
        "Artist"@ != "Album"@,
        "Artist"@ != "Name"@,
        "Artist"@ != "duration"@,
        "Artist"@ != "Pos"@,
        "Artist"@ != "Id"@,
        "Album"@ != "Name"@,
        "Album"@ != "duration"@,
        "Album"@ != "Pos"@,
        "Album"@ != "Id"@,
        "Name"@ != "duration"@,
        "Name"@ != "Pos"@,
        "Name"@ != "Id"@,
        "duration"@ != "Pos"@,
        "duration"@ != "Id"@,
        "Pos"@ != "Id"@,
{
    reveal_strlit("file");
    reveal_strlit("Title");
    reveal_strlit("Artist");
    reveal_strlit("Album");
    reveal_strlit("Name");
    reveal_strlit("duration");
    reveal_strlit("Pos");
    reveal_strlit("Id");
    assert("file"@[0] == 'f' && "Title"@[0] == 'T' && "Artist"@[0] == 'A' && "Artist"@[1] == 'r');
    assert("Album"@[0] == 'A' && "Album"@[1] == 'l' && "Name"@[0] == 'N' && "duration"@[0] == 'd');
    assert("Pos"@[0] == 'P' && "Id"@[0] == 'I');
}

/// Does a song say what its own lines say? The last value of each key counts, a key that is not given
/// leaves the song without it, and a number that is odd is none.
pub open spec fn says(song: SongView, own: Seq<(Seq<char>, Seq<char>)>) -> bool {
    &&& song.title == last_given(own, "Title"@)
    &&& song.artist == last_given(own, "Artist"@)
    &&& song.album == last_given(own, "Album"@)
    &&& song.name == last_given(own, "Name"@)
    &&& last_given(own, "duration"@) is None ==> song.duration is None
    &&& last_given(own, "duration"@) matches Some(v) ==> song.duration == number::millis(v)
    &&& last_given(own, "Pos"@) is None ==> song.pos is None
    &&& last_given(own, "Pos"@) matches Some(v) ==> song.pos == number::unsigned_within(
        v,
        u32::MAX as nat,
    )
    &&& last_given(own, "Id"@) is None ==> song.id is None
    &&& last_given(own, "Id"@) matches Some(v) ==> song.id == number::unsigned_within(
        v,
        u32::MAX as nat,
    )
}

proof fn lemma_last_given(lines: Seq<(Seq<char>, Seq<char>)>, key: Seq<char>)
    requires
        lines.len() > 0,
    ensures
        last_given(lines, key) == if lines.last().0 == key {
            Some(lines.last().1)
        } else {
            last_given(lines.drop_last(), key)
        },
{
}

proof fn lemma_own_lines(
    before: Seq<(Seq<char>, Seq<char>)>,
    file: Seq<char>,
    own: Seq<(Seq<char>, Seq<char>)>,
)
    requires
        never_given(own, "file"@),
    ensures
        ({
            let songs = songs_of(before.push(("file"@, file)) + own);
            &&& songs.len() == songs_of(before).len() + 1
            &&& songs.drop_last() == songs_of(before)
            &&& songs.last().file == file
            &&& says(songs.last(), own)
        }),
    decreases own.len(),
{
    let start = before.push(("file"@, file));
    if own.len() == 0 {
        assert(start + own =~= start);
        assert(start.drop_last() =~= before);
        assert(songs_of(start).drop_last() =~= songs_of(before));
    } else {
        lemma_keys_differ();
        let less = own.drop_last();
        assert forall|i: int| 0 <= i < less.len() implies (#[trigger] less[i]).0 != "file"@ by {
            assert(less[i] == own[i]);
        }
        lemma_own_lines(before, file, less);
        assert((start + own).drop_last() =~= start + less);
        assert((start + own).last() == own.last());
        assert(own[own.len() - 1].0 != "file"@);
        let songs = songs_of(start + own);
        let had = songs_of(start + less);
        assert(songs.drop_last() =~= had.drop_last());
        lemma_last_given(own, "Title"@);
        lemma_last_given(own, "Artist"@);
        lemma_last_given(own, "Album"@);
        lemma_last_given(own, "Name"@);
        lemma_last_given(own, "duration"@);
        lemma_last_given(own, "Pos"@);
        lemma_last_given(own, "Id"@);
    }
}

/// Every tag of a song reads back. A `file` line starts a song, and the lines up to the next `file`
/// line are its own: the last value for `Title`, `Artist`, `Album`, `Name`, `duration`, `Pos` and
/// `Id` among them is the song's, and what is not among them the song does not have. Songs stand in
/// the order of their `file` lines, and no song takes anything from another.
pub proof fn law_tags_read_back(
    before: Seq<(Seq<char>, Seq<char>)>,
    file: Seq<char>,
    own: Seq<(Seq<char>, Seq<char>)>,
    after: Seq<(Seq<char>, Seq<char>)>,
)
    requires
        never_given(own, "file"@),
        after.len() == 0 || after[0].0 == "file"@,
    ensures
        ({
            let songs = songs_of(before + seq![("file"@, file)] + own + after);
            let k = songs_of(before).len() as int;
            &&& songs.len() == k + 1 + songs_of(after).len()
            &&& songs.take(k) == songs_of(before)
            &&& songs[k].file == file
            &&& says(songs[k], own)
            &&& songs.skip(k + 1) == songs_of(after)
        }),
    decreases after.len(),
{
    let start = before + seq![("file"@, file)] + own;
    assert(start =~= before.push(("file"@, file)) + own);
    lemma_own_lines(before, file, own);
    let k = songs_of(before).len() as int;
    let songs = songs_of(start + after);
    if after.len() == 0 {
        assert(start + after =~= start);
        assert(songs.take(k) =~= songs.drop_last());
        assert(songs.skip(k + 1) =~= songs_of(after));
    } else {
        let less = after.drop_last();
        assert((start + after).drop_last() =~= start + less);
        assert((start + after).last() == after.last());
        if less.len() > 0 {
            assert(less[0] == after[0]);
        }
        law_tags_read_back(before, file, own, less);
        let had = songs_of(start + less);
        assert(songs.take(k) =~= had.take(k));
        assert(songs[k] == had[k]) by {
            if after.last().0 != "file"@ {
                assert(less.len() > 0);
                lemma_songs_begin(less);
            }
        }
        assert(songs.skip(k + 1) =~= songs_of(after)) by {
            if after.last().0 == "file"@ {
                assert(songs.skip(k + 1) =~= had.skip(k + 1).push(bare_song(after.last().1)));
            } else {
                assert(less.len() > 0);
                lemma_songs_begin(less);
                assert(had.skip(k + 1).last() == had.last());
                assert(songs.skip(k + 1) =~= had.skip(k + 1).drop_last().push(songs.last()));
            }
        }
    }
}

proof fn lemma_songs_begin(lines: Seq<(Seq<char>, Seq<char>)>)
    requires
        lines.len() > 0,
        lines[0].0 == "file"@,
    ensures
        songs_of(lines).len() > 0,
    decreases lines.len(),
{
    if lines.len() > 1 {
        assert(lines.drop_last()[0] == lines[0]);
        lemma_songs_begin(lines.drop_last());
    }
}

/// Lines without a `file` make no song.
pub proof fn law_no_file_no_song(lines: Seq<(Seq<char>, Seq<char>)>)
    requires
        never_given(lines, "file"@),
    ensures
        songs_of(lines).len() == 0,
    decreases lines.len(),
{
    if lines.len() > 0 {
        let less = lines.drop_last();
        assert forall|i: int| 0 <= i < less.len() implies (#[trigger] less[i]).0 != "file"@ by {
            assert(less[i] == lines[i]);
        }
        law_no_file_no_song(less);
        assert(lines[lines.len() - 1].0 != "file"@);
    }
}

/// The last value that is given for a key is that of the last line with the key.
pub proof fn law_last_given(
    before: Seq<(Seq<char>, Seq<char>)>,
    key: Seq<char>,
    value: Seq<char>,
    after: Seq<(Seq<char>, Seq<char>)>,
)
    requires
        never_given(after, key),
    ensures
        last_given(before + seq![(key, value)] + after, key) == Some(value),
        last_given(after, key) is None,
    decreases after.len(),
{
    let all = before + seq![(key, value)] + after;
    if after.len() == 0 {
        assert(all.last() == (key, value));
    } else {
        let less = after.drop_last();
        assert forall|i: int| 0 <= i < less.len() implies (#[trigger] less[i]).0 != key by {
            assert(less[i] == after[i]);
        }
        law_last_given(before, key, value, less);
        assert(all.drop_last() =~= before + seq![(key, value)] + less);
        assert(all.last() == after.last());
        assert(after[after.len() - 1].0 != key);
    }
}

/// A key is looked up by its first line, and one that is not given has no value.
pub proof fn law_the_first_line_counts(
    before: Seq<(Seq<char>, Seq<char>)>,
    key: Seq<char>,
    value: Seq<char>,
    after: Seq<(Seq<char>, Seq<char>)>,
)
    requires
        never_given(before, key),
    ensures
        lookup(before + seq![(key, value)] + after, key) == Some(value),
        lookup(before, key) is None,
    decreases before.len(),
{
    let all = before + seq![(key, value)] + after;
    if before.len() == 0 {
        assert(all[0] == (key, value));
    } else {
        let less = before.skip(1);
        assert forall|i: int| 0 <= i < less.len() implies (#[trigger] less[i]).0 != key by {
            assert(less[i] == before[i + 1]);
        }
        law_the_first_line_counts(less, key, value, after);
        assert(before[0].0 != key);
        assert(all[0] == before[0]);
        assert(all.skip(1) =~= less + seq![(key, value)] + after);
    }
}

/// A status says what its reply says, each thing under its own key: a number that is missing or odd
/// is zero or none, a volume below zero is none, and a switch is on only at `1`.
pub proof fn law_status_reads_back(pairs: Seq<(Seq<char>, Seq<char>)>)
    ensures
        ({
            let status = status_of(pairs);
            &&& lookup(pairs, "state"@) matches Some(v) ==> status.state == v
            &&& lookup(pairs, "state"@) is None ==> status.state == "stop"@
            &&& lookup(pairs, "volume"@) is None ==> status.volume is None
            &&& lookup(pairs, "volume"@) matches Some(v) ==> (number::signed_value(v) matches Some(
                n,
            ) ==> (0 <= n <= 100 ==> status.volume == Some(n)) && (n < 0 ==> status.volume is None))
            &&& status.volume matches Some(n) ==> lookup(pairs, "volume"@) is Some
                && number::signed_value(lookup(pairs, "volume"@)->Some_0) == Some(n)
            &&& lookup(pairs, "elapsed"@) is None ==> status.elapsed == 0
            &&& lookup(pairs, "elapsed"@) matches Some(v) ==> (number::millis(v) matches Some(n)
                ==> status.elapsed == n) && (number::millis(v) is None ==> status.elapsed == 0)
            &&& lookup(pairs, "duration"@) is None ==> status.duration == 0
            &&& lookup(pairs, "duration"@) matches Some(v) ==> (number::millis(v) matches Some(n)
                ==> status.duration == n) && (number::millis(v) is None ==> status.duration == 0)
            &&& lookup(pairs, "song"@) is None ==> status.song is None
            &&& lookup(pairs, "song"@) matches Some(v) ==> status.song == number::unsigned_within(
                v,
                u32::MAX as nat,
            )
            &&& lookup(pairs, "playlistlength"@) is None ==> status.queue_length == 0
            &&& lookup(pairs, "playlistlength"@) matches Some(v) ==> (number::unsigned_within(
                v,
                u32::MAX as nat,
            ) matches Some(n) ==> status.queue_length == n)
            &&& status.random <==> lookup(pairs, "random"@) == Some("1"@)
            &&& status.repeat <==> lookup(pairs, "repeat"@) == Some("1"@)
            &&& status.single <==> lookup(pairs, "single"@) == Some("1"@)
            &&& status.consume <==> lookup(pairs, "consume"@) == Some("1"@)
            &&& status.error == lookup(pairs, "error"@)
        }),
{
}

/// The values of a key are read in the order of their lines: each line with the key adds its value,
/// and no other line adds anything. A folder is a `directory` line.
pub proof fn law_values_in_order(
    lines: Seq<(Seq<char>, Seq<char>)>,
    key: Seq<char>,
    line: (Seq<char>, Seq<char>),
)
    ensures
        values_of(seq![], key).len() == 0,
        line.0 == key ==> values_of(lines.push(line), key) == values_of(lines, key).push(line.1),
        line.0 != key ==> values_of(lines.push(line), key) == values_of(lines, key),
        folders_of(lines) == values_of(lines, "directory"@),
{
    reveal(Seq::filter);
    assert(lines.push(line).drop_last() =~= lines);
    if line.0 == key {
        assert(values_of(lines.push(line), key) =~= values_of(lines, key).push(line.1));
    }
}

} // verus!
