//! What the player shows: the tabs, the open tab's body, and one line of keys or news.
//!
//! A screen is a plain value; painting it is left to the terminal.
use vstd::prelude::*;

use crate::mpd::reply;
use crate::mpd::reply::Song;
use crate::number;
use crate::player;
use crate::player::{clock, Now};
use crate::store::rows;
use crate::store::rows::{Episode, Show};
use crate::text;
use crate::tui::state;
use crate::tui::state::{Entry, State, Tab};

verus! {

/// The colour of a piece of text.
#[derive(Debug, Clone, Copy, PartialEq, Eq, Structural)]
pub enum Ink {
    Plain,
    Accent,
    Dim,
}

/// A piece of a row, in one colour.
#[derive(Debug, Clone, PartialEq, Eq)]
pub struct Piece {
    pub text: String,
    pub ink: Ink,
}

/// A `Piece`, with its text as a sequence.
pub ghost struct PieceView {
    pub text: Seq<char>,
    pub ink: Ink,
}

impl View for Piece {
    type V = PieceView;

    open spec fn view(&self) -> PieceView {
        PieceView { text: self.text@, ink: self.ink }
    }
}

/// One row of a list.
#[derive(Debug, Clone, PartialEq, Eq)]
pub struct Row {
    pub pieces: Vec<Piece>,
}

impl View for Row {
    type V = Seq<PieceView>;

    open spec fn view(&self) -> Seq<PieceView> {
        self.pieces@.map_values(|p: Piece| p@)
    }
}

/// A list under a title.
#[derive(Debug, Clone, PartialEq, Eq)]
pub struct Listing {
    pub title: String,
    pub rows: Vec<Row>,
    /// the row that the cursor is on
    pub selected: Option<usize>,
}

/// A `Listing`, with its texts as sequences.
pub ghost struct ListingView {
    pub title: Seq<char>,
    pub rows: Seq<Seq<PieceView>>,
    pub selected: Option<int>,
}

impl View for Listing {
    type V = ListingView;

    open spec fn view(&self) -> ListingView {
        ListingView {
            title: self.title@,
            rows: self.rows@.map_values(|r: Row| r@),
            selected: match self.selected {
                Some(i) => Some(i as int),
                None => None,
            },
        }
    }
}

/// What is playing, as it is shown.
#[derive(Debug, Clone, PartialEq, Eq)]
pub struct Panel {
    pub title: String,
    /// who it is by, and on what
    pub by: String,
    /// how much of the bar is filled, out of `whole`
    pub filled: i64,
    pub whole: i64,
    /// what the bar says
    pub label: String,
    pub info: String,
}

/// A `Panel`, with its texts as sequences.
pub ghost struct PanelView {
    pub title: Seq<char>,
    pub by: Seq<char>,
    pub filled: int,
    pub whole: int,
    pub label: Seq<char>,
    pub info: Seq<char>,
}

impl View for Panel {
    type V = PanelView;

    open spec fn view(&self) -> PanelView {
        PanelView {
            title: self.title@,
            by: self.by@,
            filled: self.filled as int,
            whole: self.whole as int,
            label: self.label@,
            info: self.info@,
        }
    }
}

/// The body of the open tab.
#[derive(Debug, Clone, PartialEq, Eq)]
pub enum Body {
    /// nothing is known yet
    Waiting(String),
    Playing(Panel),
    List(Listing),
}

/// A `Body`, with its texts as sequences.
pub ghost enum BodyView {
    Waiting(Seq<char>),
    Playing(PanelView),
    List(ListingView),
}

impl View for Body {
    type V = BodyView;

    open spec fn view(&self) -> BodyView {
        match *self {
            Body::Waiting(t) => BodyView::Waiting(t@),
            Body::Playing(p) => BodyView::Playing(p@),
            Body::List(l) => BodyView::List(l@),
        }
    }
}

/// Everything on the screen.
#[derive(Debug, Clone, PartialEq, Eq)]
pub struct Screen {
    /// the titles of the tabs
    pub tabs: Vec<String>,
    /// the tab that is open
    pub selected: usize,
    pub body: Body,
    /// the line at the bottom
    pub keys: String,
    /// does that line ask a question?
    pub warn: bool,
}

/// A `Screen`, with its texts as sequences.
pub ghost struct ScreenView {
    pub tabs: Seq<Seq<char>>,
    pub selected: int,
    pub body: BodyView,
    pub keys: Seq<char>,
    pub warn: bool,
}

impl View for Screen {
    type V = ScreenView;

    open spec fn view(&self) -> ScreenView {
        ScreenView {
            tabs: reply::strings_view(self.tabs@),
            selected: self.selected as int,
            body: self.body@,
            keys: self.keys@,
            warn: self.warn,
        }
    }
}

// ── Rows ─────────────────────────────────────────────────────────────────

pub open spec fn piece(text: Seq<char>, ink: Ink) -> PieceView {
    PieceView { text, ink }
}

/// `Artist — Title` for a row of the queue or the library.
pub open spec fn song_row(song: reply::SongView) -> Seq<PieceView> {
    let title = piece(player::song_title(song, song.file), Ink::Plain);
    match song.artist {
        Some(a) => seq![piece(a + " \u{2014} "@, Ink::Dim), title],
        None => seq![title],
    }
}

/// A row of the library.
pub open spec fn entry_row(entry: state::EntryView) -> Seq<PieceView> {
    match entry {
        state::EntryView::Folder(path) => seq![
            piece(text::after_last(path, '/') + "/"@, Ink::Accent),
        ],
        state::EntryView::Song(song) => song_row(song),
    }
}

/// A row of the list of shows.
pub open spec fn show_row(show: rows::ShowView) -> Seq<PieceView> {
    seq![
        piece(
            match show.title {
                Some(t) => t,
                None => show.name,
            },
            Ink::Plain,
        ),
        piece("  "@ + number::decimal(show.unplayed) + " new"@, Ink::Dim),
    ]
}

/// Where an episode was left, if it was begun and not heard.
pub open spec fn left_at(episode: rows::EpisodeView) -> Seq<char> {
    if episode.position > 0 && !episode.played {
        "  at "@ + player::clock_text(episode.position)
    } else {
        seq![]
    }
}

/// A row of a show's episodes.
pub open spec fn episode_row(episode: rows::EpisodeView) -> Seq<PieceView> {
    seq![
        piece(
            if episode.played {
                "  "@
            } else {
                "\u{2022} "@
            },
            Ink::Accent,
        ),
        piece(episode.about.title, Ink::Plain),
        piece(
            left_at(episode) + if episode.download_path is Some {
                "  saved"@
            } else {
                seq![]
            },
            Ink::Dim,
        ),
    ]
}

fn make_piece(text: String, ink: Ink) -> (r: Piece)
    ensures
        r@ == piece(text@, ink),
{
    Piece { text, ink }
}

fn song_line(song: &Song) -> (r: Row)
    ensures
        r@ == song_row(song@),
{
    let title = match &song.title {
        Some(t) => t.clone(),
        None => match &song.name {
            Some(n) => n.clone(),
            None => song.file.clone(),
        },
    };
    let mut pieces: Vec<Piece> = Vec::new();
    if let Some(a) = &song.artist {
        pieces.push(make_piece(a.clone().concat(" \u{2014} "), Ink::Dim));
    }
    pieces.push(make_piece(title, Ink::Plain));
    let r = Row { pieces };
    assert(r@ =~= song_row(song@));
    r
}

fn entry_line(entry: &Entry) -> (r: Row)
    ensures
        r@ == entry_row(entry@),
{
    match entry {
        Entry::Folder(path) => {
            let mut pieces: Vec<Piece> = Vec::new();
            pieces.push(make_piece(text::last_piece(path, '/').concat("/"), Ink::Accent));
            let r = Row { pieces };
            assert(r@ =~= entry_row(entry@));
            r
        },
        Entry::Song(song) => song_line(song),
    }
}

fn show_line(show: &Show) -> (r: Row)
    ensures
        r@ == show_row(show@),
{
    let name = match &show.title {
        Some(t) => t.clone(),
        None => show.name.clone(),
    };
    let fresh = "  ".to_owned().concat(&number::write_number(show.unplayed)).concat(" new");
    let mut pieces: Vec<Piece> = Vec::new();
    pieces.push(make_piece(name, Ink::Plain));
    pieces.push(make_piece(fresh, Ink::Dim));
    let r = Row { pieces };
    assert(r@ =~= show_row(show@));
    r
}

/// Where an episode was left, if it was begun and not heard.
pub fn left_text(episode: &Episode) -> (r: String)
    ensures
        r@ == left_at(episode@),
{
    if episode.position > 0 && !episode.played {
        "  at ".to_owned().concat(&clock(episode.position))
    } else {
        let r = String::new();
        assert(r@ =~= seq![]);
        r
    }
}

fn episode_line(episode: &Episode) -> (r: Row)
    ensures
        r@ == episode_row(episode@),
{
    let mark = if episode.played {
        "  ".to_owned()
    } else {
        "\u{2022} ".to_owned()
    };
    let left = left_text(episode);
    let news = if episode.download_path.is_some() {
        left.concat("  saved")
    } else {
        assert(left@ + Seq::<char>::empty() =~= left@);
        left
    };
    let mut pieces: Vec<Piece> = Vec::new();
    pieces.push(make_piece(mark, Ink::Accent));
    pieces.push(make_piece(episode.title.clone(), Ink::Plain));
    pieces.push(make_piece(news, Ink::Dim));
    let r = Row { pieces };
    assert(r@ =~= episode_row(episode@));
    r
}

// ── Bodies ───────────────────────────────────────────────────────────────

/// A list with the cursor on one of its rows, if it has any.
pub open spec fn listing(title: Seq<char>, rows: Seq<Seq<PieceView>>, cursor: int) -> BodyView {
    BodyView::List(
        ListingView {
            title,
            rows,
            selected: if rows.len() == 0 {
                None
            } else {
                Some(cursor)
            },
        },
    )
}

/// The parts that are not empty, with a dot between them.
pub open spec fn dotted(a: Seq<char>, b: Seq<char>) -> Seq<char> {
    if a.len() == 0 {
        b
    } else if b.len() == 0 {
        a
    } else {
        a + " \u{b7} "@ + b
    }
}

/// What mpd is doing, in a word.
pub open spec fn state_word(state: Seq<char>) -> Seq<char> {
    if state == "play"@ {
        "playing"@
    } else if state == "pause"@ {
        "paused"@
    } else {
        "stopped"@
    }
}

/// The time that was played, out of the length if it is known.
pub open spec fn time_text(elapsed: int, duration: int) -> Seq<char> {
    if duration > 0 {
        player::clock_text(elapsed) + " / "@ + player::clock_text(duration)
    } else {
        player::clock_text(elapsed)
    }
}

/// What is playing, as it is shown.
pub open spec fn panel(now: player::NowView, elapsed: int) -> PanelView {
    PanelView {
        title: if now.title.len() == 0 {
            "nothing playing"@
        } else {
            now.title
        },
        by: dotted(now.artist, now.album),
        filled: if now.duration <= 0 || elapsed < 0 {
            0
        } else if elapsed > now.duration {
            now.duration
        } else {
            elapsed
        },
        whole: if now.duration > 0 {
            now.duration
        } else {
            1
        },
        label: time_text(elapsed, now.duration),
        info: state_word(now.state) + (match now.volume {
            Some(v) => " \u{b7} volume "@ + number::signed_decimal(v) + "%"@,
            None => seq![],
        }) + (match now.podcast {
            Some(p) => " \u{b7} podcast "@ + p.show,
            None => seq![],
        }) + " \u{b7} "@ + number::decimal(now.queue_length) + " in queue"@,
    }
}

/// The body of the open tab.
pub open spec fn body_of(s: state::StateView, now_ms: int) -> BodyView {
    let cursor = state::cursor_of(s);
    match s.tab {
        Tab::Playing => match s.now {
            Some(now) => BodyView::Playing(panel(now, state::elapsed_of(s.now, now_ms))),
            None => BodyView::Waiting("connecting to mpd\u{2026}"@),
        },
        Tab::Queue => listing(
            " queue "@,
            s.queue.map_values(|song: reply::SongView| song_row(song)),
            cursor,
        ),
        Tab::Library => listing(
            if s.folder.len() == 0 {
                " library "@
            } else {
                " "@ + s.folder + " "@
            },
            s.entries.map_values(|entry: state::EntryView| entry_row(entry)),
            cursor,
        ),
        Tab::Podcasts => match s.show {
            None => listing(
                " podcasts "@,
                s.shows.map_values(|show: rows::ShowView| show_row(show)),
                cursor,
            ),
            Some(name) => listing(
                " "@ + name + " "@,
                s.episodes.map_values(|episode: rows::EpisodeView| episode_row(episode)),
                cursor,
            ),
        },
    }
}

/// The line at the bottom: the question if there is one, else the news, else the tab's keys.
pub open spec fn keys_of(s: state::StateView) -> Seq<char> {
    if s.confirm_clear {
        "Clear the whole queue? y = yes"@
    } else {
        match s.message {
            Some(m) => m,
            None => match s.tab {
                Tab::Playing =>
                    "space play/pause \u{b7} n/p next/prev \u{b7} \u{2190}/\u{2192} seek \u{b7} +/- volume \u{b7} tab/1-4 \u{b7} q quit"@,
                Tab::Queue =>
                    "enter play \u{b7} d remove \u{b7} c clear \u{b7} space play/pause \u{b7} q quit"@,
                Tab::Library =>
                    "enter open/add \u{b7} a add folder \u{b7} backspace up \u{b7} q quit"@,
                Tab::Podcasts =>
                    "enter open/play (resumes) \u{b7} D download \u{b7} esc back \u{b7} q quit"@,
            },
        }
    }
}

/// A tab's title, with the number of the key that opens it.
pub open spec fn tab_title(tab: Tab) -> Seq<char> {
    number::decimal((state::index_of(tab) + 1) as nat) + " "@ + state::title_of(tab)
}

/// Everything on the screen at a moment.
pub open spec fn screen_of(s: state::StateView, now_ms: int) -> ScreenView {
    ScreenView {
        tabs: seq![
            tab_title(Tab::Playing),
            tab_title(Tab::Queue),
            tab_title(Tab::Library),
            tab_title(Tab::Podcasts),
        ],
        selected: state::index_of(s.tab),
        body: body_of(s, now_ms),
        keys: keys_of(s),
        warn: s.confirm_clear,
    }
}

fn list(title: String, rows: Vec<Row>, cursor: usize) -> (r: Body)
    ensures
        r@ == listing(title@, rows@.map_values(|r: Row| r@), cursor as int),
{
    let selected = if rows.len() == 0 {
        None
    } else {
        Some(cursor)
    };
    Body::List(Listing { title, rows, selected })
}

fn spaced(name: &str) -> (r: String)
    ensures
        r@ == " "@ + name@ + " "@,
{
    " ".to_owned().concat(name).concat(" ")
}

fn join_dotted(a: &String, b: &String) -> (r: String)
    ensures
        r@ == dotted(a@, b@),
{
    if a.as_str().is_empty() {
        b.clone()
    } else if b.as_str().is_empty() {
        a.clone()
    } else {
        a.clone().concat(" \u{b7} ").concat(b)
    }
}

/// The time that was played, out of the length if it is known.
pub fn time_label(elapsed: i64, duration: i64) -> (r: String)
    ensures
        r@ == time_text(elapsed as int, duration as int),
{
    if duration > 0 {
        clock(elapsed).concat(" / ").concat(&clock(duration))
    } else {
        clock(elapsed)
    }
}

fn info_line(now: &Now) -> (r: String)
    ensures
        r@ == panel(now@, 0).info,
{
    let word = if text::same(&now.state, "play") {
        "playing"
    } else if text::same(&now.state, "pause") {
        "paused"
    } else {
        "stopped"
    };
    let mut line = word.to_owned();
    let ghost first = line@;
    match now.volume {
        Some(v) => {
            line = line.concat(" \u{b7} volume ").concat(&number::write_signed(v as i64)).concat("%");
            assert(line@ =~= first + (" \u{b7} volume "@ + number::signed_decimal(v as int)
                + "%"@));
        },
        None => {
            assert(line@ =~= first + Seq::<char>::empty());
        },
    }
    let ghost second = line@;
    match &now.podcast {
        Some(p) => {
            line = line.concat(" \u{b7} podcast ").concat(&p.show);
            assert(line@ =~= second + (" \u{b7} podcast "@ + p.show@));
        },
        None => {
            assert(line@ =~= second + Seq::<char>::empty());
        },
    }
    line.concat(" \u{b7} ").concat(&number::write_number(now.queue_length as u64)).concat(
        " in queue",
    )
}

fn draw_playing(now: &Now, elapsed: i64) -> (r: Panel)
    ensures
        r@ == panel(now@, elapsed as int),
{
    let title = if now.title.as_str().is_empty() {
        "nothing playing".to_owned()
    } else {
        now.title.clone()
    };
    let filled: i64 = if now.duration <= 0 || elapsed < 0 {
        0
    } else if elapsed > now.duration {
        now.duration
    } else {
        elapsed
    };
    let whole: i64 = if now.duration > 0 {
        now.duration
    } else {
        1
    };
    Panel {
        title,
        by: join_dotted(&now.artist, &now.album),
        filled,
        whole,
        label: time_label(elapsed, now.duration),
        info: info_line(now),
    }
}

fn draw_queue(state: &State) -> (r: Body)
    requires
        state.tab == Tab::Queue,
    ensures
        r@ == body_of(state@, 0),
{
    let mut rows: Vec<Row> = Vec::new();
    let mut i: usize = 0;
    while i < state.queue.len()
        invariant
            i <= state.queue@.len(),
            rows@.len() == i,
            forall|k: int| 0 <= k < i ==> (#[trigger] rows@[k])@ == song_row(state.queue@[k]@),
        decreases state.queue@.len() - i,
    {
        rows.push(song_line(&state.queue[i]));
        i += 1;
    }
    assert(rows@.map_values(|r: Row| r@) =~= state@.queue.map_values(
        |song: reply::SongView| song_row(song),
    ));
    list(" queue ".to_owned(), rows, state.cursor())
}

fn draw_library(state: &State) -> (r: Body)
    requires
        state.tab == Tab::Library,
    ensures
        r@ == body_of(state@, 0),
{
    let title = if state.folder.as_str().is_empty() {
        " library ".to_owned()
    } else {
        spaced(&state.folder)
    };
    let mut rows: Vec<Row> = Vec::new();
    let mut i: usize = 0;
    while i < state.entries.len()
        invariant
            i <= state.entries@.len(),
            rows@.len() == i,
            forall|k: int| 0 <= k < i ==> (#[trigger] rows@[k])@ == entry_row(state.entries@[k]@),
        decreases state.entries@.len() - i,
    {
        rows.push(entry_line(&state.entries[i]));
        i += 1;
    }
    assert(rows@.map_values(|r: Row| r@) =~= state@.entries.map_values(
        |entry: state::EntryView| entry_row(entry),
    ));
    list(title, rows, state.cursor())
}

fn draw_shows(state: &State) -> (r: Body)
    requires
        state.tab == Tab::Podcasts,
        state.show is None,
    ensures
        r@ == body_of(state@, 0),
{
    let mut rows: Vec<Row> = Vec::new();
    let mut i: usize = 0;
    while i < state.shows.len()
        invariant
            i <= state.shows@.len(),
            rows@.len() == i,
            forall|k: int| 0 <= k < i ==> (#[trigger] rows@[k])@ == show_row(state.shows@[k]@),
        decreases state.shows@.len() - i,
    {
        rows.push(show_line(&state.shows[i]));
        i += 1;
    }
    assert(rows@.map_values(|r: Row| r@) =~= state@.shows.map_values(
        |show: rows::ShowView| show_row(show),
    ));
    list(" podcasts ".to_owned(), rows, state.cursor())
}

fn draw_episodes(state: &State, name: &String) -> (r: Body)
    requires
        state.tab == Tab::Podcasts,
        state@.show == Some(name@),
    ensures
        r@ == body_of(state@, 0),
{
    let mut rows: Vec<Row> = Vec::new();
    let mut i: usize = 0;
    while i < state.episodes.len()
        invariant
            i <= state.episodes@.len(),
            rows@.len() == i,
            forall|k: int|
                0 <= k < i ==> (#[trigger] rows@[k])@ == episode_row(state.episodes@[k]@),
        decreases state.episodes@.len() - i,
    {
        rows.push(episode_line(&state.episodes[i]));
        i += 1;
    }
    assert(rows@.map_values(|r: Row| r@) =~= state@.episodes.map_values(
        |episode: rows::EpisodeView| episode_row(episode),
    ));
    list(spaced(name), rows, state.cursor())
}

fn bottom_line(state: &State) -> (r: String)
    ensures
        r@ == keys_of(state@),
{
    if state.confirm_clear {
        return "Clear the whole queue? y = yes".to_owned();
    }
    match &state.message {
        Some(m) => m.clone(),
        None => match state.tab {
            Tab::Playing =>
                "space play/pause \u{b7} n/p next/prev \u{b7} \u{2190}/\u{2192} seek \u{b7} +/- volume \u{b7} tab/1-4 \u{b7} q quit".to_owned(),
            Tab::Queue =>
                "enter play \u{b7} d remove \u{b7} c clear \u{b7} space play/pause \u{b7} q quit".to_owned(),
            Tab::Library =>
                "enter open/add \u{b7} a add folder \u{b7} backspace up \u{b7} q quit".to_owned(),
            Tab::Podcasts =>
                "enter open/play (resumes) \u{b7} D download \u{b7} esc back \u{b7} q quit".to_owned(),
        },
    }
}

fn titled(tab: Tab) -> (r: String)
    ensures
        r@ == tab_title(tab),
{
    number::write_number(tab.index() as u64 + 1).concat(" ").concat(tab.title())
}

/// Everything on the screen at this moment.
pub fn draw(state: &State, now_ms: i64) -> (r: Screen)
    ensures
        r@ == screen_of(state@, now_ms as int),
{
    let mut tabs: Vec<String> = Vec::new();
    tabs.push(titled(Tab::Playing));
    tabs.push(titled(Tab::Queue));
    tabs.push(titled(Tab::Library));
    tabs.push(titled(Tab::Podcasts));
    assert(reply::strings_view(tabs@) =~= screen_of(state@, now_ms as int).tabs);
    let body = match state.tab {
        Tab::Playing => match &state.now {
            Some(now) => Body::Playing(draw_playing(now, state.elapsed(now_ms))),
            None => Body::Waiting("connecting to mpd\u{2026}".to_owned()),
        },
        Tab::Queue => draw_queue(state),
        Tab::Library => draw_library(state),
        Tab::Podcasts => match &state.show {
            Some(name) => draw_episodes(state, name),
            None => draw_shows(state),
        },
    };
    Screen {
        tabs,
        selected: state.tab.index(),
        body,
        keys: bottom_line(state),
        warn: state.confirm_clear,
    }
}

/// The bar is never filled past its end, and is empty where the length is unknown.
pub proof fn law_the_bar(now: player::NowView, elapsed: int)
    ensures
        0 <= panel(now, elapsed).filled <= panel(now, elapsed).whole,
        panel(now, elapsed).whole > 0,
        now.duration <= 0 ==> panel(now, elapsed).filled == 0,
{
}

/// A song's row shows its own title, or else its station's name, or else its file, after its artist.
pub proof fn law_a_song_row(song: reply::SongView)
    ensures
        ({
            let row = song_row(song);
            &&& row.len() > 0
            &&& row.last().ink == Ink::Plain
            &&& song.title matches Some(t) ==> row.last().text == t
            &&& song.title is None && song.name is Some ==> row.last().text == song.name->Some_0
            &&& song.title is None && song.name is None ==> row.last().text == song.file
            &&& song.artist is None ==> row.len() == 1
            &&& song.artist matches Some(a) ==> row.len() == 2 && row[0].text == a
                + " \u{2014} "@ && row[0].ink == Ink::Dim
        }),
{
}

/// A folder's row shows what the folder is called, and a song in a folder shows as it does in the
/// queue.
pub proof fn law_an_entry_row(above: Seq<char>, name: Seq<char>, song: reply::SongView)
    requires
        !name.contains('/'),
    ensures
        entry_row(state::EntryView::Folder(above + seq!['/'] + name)) == seq![
            PieceView { text: name + "/"@, ink: Ink::Accent },
        ],
        entry_row(state::EntryView::Folder(name)) == seq![
            PieceView { text: name + "/"@, ink: Ink::Accent },
        ],
        entry_row(state::EntryView::Song(song)) == song_row(song),
{
    text::law_cut_at_the_last(above, name, '/');
}

/// A show's row shows its title, or else its name, and how many of its episodes are new.
pub proof fn law_a_show_row(show: rows::ShowView)
    ensures
        show_row(show).len() == 2,
        show.title matches Some(t) ==> show_row(show)[0].text == t,
        show.title is None ==> show_row(show)[0].text == show.name,
        show_row(show)[1].text == "  "@ + number::decimal(show.unplayed) + " new"@,
        show_row(show)[0].ink == Ink::Plain && show_row(show)[1].ink == Ink::Dim,
{
}

/// An episode's row has a dot until it has been heard, shows its title, where it was left if it has
/// been begun and not heard, and whether its file is here.
pub proof fn law_an_episode_row(episode: rows::EpisodeView)
    ensures
        ({
            let row = episode_row(episode);
            let begun = episode.position > 0 && !episode.played;
            let at = "  at "@ + player::clock_text(episode.position);
            &&& row.len() == 3
            &&& episode.played ==> row[0].text == "  "@
            &&& !episode.played ==> row[0].text == "\u{2022} "@
            &&& row[1].text == episode.about.title
            &&& begun && episode.download_path is Some ==> row[2].text == at + "  saved"@
            &&& begun && episode.download_path is None ==> row[2].text == at
            &&& !begun && episode.download_path is Some ==> row[2].text == "  saved"@
            &&& !begun && episode.download_path is None ==> row[2].text.len() == 0
            &&& row[0].ink == Ink::Accent && row[1].ink == Ink::Plain && row[2].ink == Ink::Dim
        }),
        left_at(episode) == if episode.position > 0 && !episode.played {
            "  at "@ + player::clock_text(episode.position)
        } else {
            seq![]
        },
{
    let at = "  at "@ + player::clock_text(episode.position);
    assert(at + Seq::<char>::empty() =~= at);
    assert(Seq::<char>::empty() + "  saved"@ =~= "  saved"@);
}

/// The panel shows what is playing and whose it is, how far along it is and of how much, and the
/// state, volume, podcast and queue that mpd reports.
pub proof fn law_the_panel(now: player::NowView, elapsed: int)
    ensures
        ({
            let p = panel(now, elapsed);
            let state = if now.state == "play"@ {
                "playing"@
            } else if now.state == "pause"@ {
                "paused"@
            } else {
                "stopped"@
            };
            let volume = if now.volume is Some {
                " \u{b7} volume "@ + number::signed_decimal(now.volume->Some_0) + "%"@
            } else {
                seq![]
            };
            let podcast = if now.podcast is Some {
                " \u{b7} podcast "@ + now.podcast->Some_0.show
            } else {
                seq![]
            };
            &&& now.title.len() > 0 ==> p.title == now.title
            &&& now.title.len() == 0 ==> p.title == "nothing playing"@
            &&& now.album.len() == 0 ==> p.by == now.artist
            &&& now.artist.len() == 0 ==> p.by == now.album
            &&& now.artist.len() > 0 && now.album.len() > 0 ==> p.by == now.artist + " \u{b7} "@
                + now.album
            &&& now.duration > 0 ==> p.whole == now.duration
            &&& now.duration > 0 && 0 <= elapsed <= now.duration ==> p.filled == elapsed
            &&& now.duration > 0 && elapsed > now.duration ==> p.filled == now.duration
            &&& elapsed < 0 ==> p.filled == 0
            &&& now.duration > 0 ==> p.label == player::clock_text(elapsed) + " / "@
                + player::clock_text(now.duration)
            &&& now.duration <= 0 ==> p.label == player::clock_text(elapsed)
            &&& p.info == state + volume + podcast + " \u{b7} "@ + number::decimal(
                now.queue_length,
            ) + " in queue"@
        }),
{
    assert(now.artist.len() == 0 && now.album.len() == 0 ==> now.artist =~= now.album);
}

/// Each tab lists its own rows, all of them and in their order, under its own title, with the row
/// selected that its cursor is on. Before mpd has answered there is nothing to show of it.
pub proof fn law_what_a_tab_shows(s: state::StateView, now_ms: int, i: int)
    ensures
        ({
            let body = body_of(s, now_ms);
            &&& s.tab == Tab::Playing && s.now is None ==> body == BodyView::Waiting(
                "connecting to mpd\u{2026}"@,
            )
            &&& s.tab == Tab::Playing ==> (s.now matches Some(now) ==> body == BodyView::Playing(
                panel(now, state::elapsed_of(Some(now), now_ms)),
            ))
            &&& s.tab != Tab::Playing ==> body is List
            &&& body matches BodyView::List(list) ==> {
                &&& s.tab == Tab::Queue ==> list.title == " queue "@ && list.rows.len()
                    == s.queue.len() && (0 <= i < s.queue.len() ==> list.rows[i] == song_row(
                    s.queue[i],
                )) && (s.queue.len() > 0 ==> list.selected == Some(s.cursor[1] as int))
                &&& s.tab == Tab::Library ==> list.rows.len() == s.entries.len() && (0 <= i
                    < s.entries.len() ==> list.rows[i] == entry_row(s.entries[i])) && (
                s.entries.len() > 0 ==> list.selected == Some(s.cursor[2] as int)) && (
                s.folder.len() == 0 ==> list.title == " library "@) && (s.folder.len() > 0
                    ==> list.title == " "@ + s.folder + " "@)
                &&& s.tab == Tab::Podcasts && s.show is None ==> list.title == " podcasts "@
                    && list.rows.len() == s.shows.len() && (0 <= i < s.shows.len() ==> list.rows[i]
                    == show_row(s.shows[i])) && (s.shows.len() > 0 ==> list.selected == Some(
                    s.cursor[3] as int,
                ))
                &&& s.tab == Tab::Podcasts ==> (s.show matches Some(name) ==> list.title == " "@
                    + name + " "@ && list.rows.len() == s.episodes.len() && (0 <= i
                    < s.episodes.len() ==> list.rows[i] == episode_row(s.episodes[i])) && (
                s.episodes.len() > 0 ==> list.selected == Some(s.cursor[3] as int)))
                &&& list.rows.len() == 0 ==> list.selected is None
            }
        }),
{
}

/// The screen numbers the four tabs, marks the one that is open, and warns while it asks. Its last
/// line is the question, or else the news, or else what the open tab's keys do.
pub proof fn law_the_screen(s: state::StateView, now_ms: int)
    ensures
        ({
            let screen = screen_of(s, now_ms);
            &&& screen.tabs == seq!["1 Now Playing"@, "2 Queue"@, "3 Library"@, "4 Podcasts"@]
            &&& s.tab == Tab::Playing ==> screen.selected == 0
            &&& s.tab == Tab::Queue ==> screen.selected == 1
            &&& s.tab == Tab::Library ==> screen.selected == 2
            &&& s.tab == Tab::Podcasts ==> screen.selected == 3
            &&& screen.body == body_of(s, now_ms)
            &&& screen.warn == s.confirm_clear
            &&& s.confirm_clear ==> screen.keys == "Clear the whole queue? y = yes"@
            &&& !s.confirm_clear ==> (s.message matches Some(m) ==> screen.keys == m)
            &&& !s.confirm_clear && s.message is None ==> {
                &&& s.tab == Tab::Playing ==> screen.keys
                    == "space play/pause \u{b7} n/p next/prev \u{b7} \u{2190}/\u{2192} seek \u{b7} +/- volume \u{b7} tab/1-4 \u{b7} q quit"@
                &&& s.tab == Tab::Queue ==> screen.keys
                    == "enter play \u{b7} d remove \u{b7} c clear \u{b7} space play/pause \u{b7} q quit"@
                &&& s.tab == Tab::Library ==> screen.keys
                    == "enter open/add \u{b7} a add folder \u{b7} backspace up \u{b7} q quit"@
                &&& s.tab == Tab::Podcasts ==> screen.keys
                    == "enter open/play (resumes) \u{b7} D download \u{b7} esc back \u{b7} q quit"@
            }
        }),
{
    reveal_strlit(" ");
    reveal_strlit("Now Playing");
    reveal_strlit("Queue");
    reveal_strlit("Library");
    reveal_strlit("Podcasts");
    reveal_strlit("1 Now Playing");
    reveal_strlit("2 Queue");
    reveal_strlit("3 Library");
    reveal_strlit("4 Podcasts");
    reveal_with_fuel(number::decimal, 1);
    assert(tab_title(Tab::Playing) =~= "1 Now Playing"@);
    assert(tab_title(Tab::Queue) =~= "2 Queue"@);
    assert(tab_title(Tab::Library) =~= "3 Library"@);
    assert(tab_title(Tab::Podcasts) =~= "4 Podcasts"@);
}

} // verus!
