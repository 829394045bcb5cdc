//! Everything the player knows, and what each key does.
//!
//! Keys become an effect that the loop carries out: tell mpd something, load a list, play an
//! episode, start a download. Clearing the queue asks first; everything else can be undone, and
//! acts at once. Times are in milliseconds: `now.elapsed` is where mpd was at `now.at`, and while it
//! is playing the time since is added, so that the clock moves without asking mpd.
use vstd::prelude::*;

use crate::mpd::reply;
use crate::mpd::reply::Song;
use crate::number;
use crate::player;
use crate::player::Now;
use crate::store::rows;
use crate::store::rows::{Episode, Show};
use crate::text;

verus! {

/// The step that one arrow press seeks, in seconds.
pub const SEEK_STEP: &'static str = "10";

/// The step that one press changes the volume by.
pub const VOLUME_STEP: &'static str = "5";

/// The tabs of the screen.
#[derive(Debug, Clone, Copy, PartialEq, Eq, Structural, Default)]
pub enum Tab {
    #[default]
    Playing,
    Queue,
    Library,
    Podcasts,
}

/// The tabs in the order in which they stand.
pub const TABS: [Tab; 4] = [Tab::Playing, Tab::Queue, Tab::Library, Tab::Podcasts];

/// Where a tab stands.
pub open spec fn index_of(tab: Tab) -> int {
    match tab {
        Tab::Playing => 0,
        Tab::Queue => 1,
        Tab::Library => 2,
        Tab::Podcasts => 3,
    }
}

/// The title of a tab.
pub open spec fn title_of(tab: Tab) -> Seq<char> {
    match tab {
        Tab::Playing => "Now Playing"@,
        Tab::Queue => "Queue"@,
        Tab::Library => "Library"@,
        Tab::Podcasts => "Podcasts"@,
    }
}

impl Tab {
    /// The title of the tab.
    pub fn title(self) -> (r: &'static str)
        ensures
            r@ == title_of(self),
    {
        match self {
            Tab::Playing => "Now Playing",
            Tab::Queue => "Queue",
            Tab::Library => "Library",
            Tab::Podcasts => "Podcasts",
        }
    }

    /// Where the tab stands.
    pub fn index(self) -> (r: usize)
        ensures
            r == index_of(self),
            r < 4,
    {
        match self {
            Tab::Playing => 0,
            Tab::Queue => 1,
            Tab::Library => 2,
            Tab::Podcasts => 3,
        }
    }
}

/// A key that was pressed.
#[derive(Debug, Clone, Copy, PartialEq, Eq, Structural)]
pub enum KeyCode {
    Char(char),
    Tab,
    BackTab,
    Left,
    Right,
    Up,
    Down,
    Home,
    End,
    Enter,
    Backspace,
    Esc,
    /// any other key
    Other,
}

/// A key press.
#[derive(Debug, Clone, Copy, PartialEq, Eq, Structural)]
pub struct Key {
    pub code: KeyCode,
    /// was control held down?
    pub control: bool,
}

/// A row in the library view: a folder to open, or a song to add.
#[derive(Debug, Clone, PartialEq)]
pub enum Entry {
    Folder(String),
    Song(Song),
}

/// An `Entry`, with its texts as sequences.
pub ghost enum EntryView {
    Folder(Seq<char>),
    Song(reply::SongView),
}

impl View for Entry {
    type V = EntryView;

    open spec fn view(&self) -> EntryView {
        match *self {
            Entry::Folder(path) => EntryView::Folder(path@),
            Entry::Song(song) => EntryView::Song(song@),
        }
    }
}

/// What a key asks for.
#[derive(Debug, Clone, PartialEq)]
pub enum Effect {
    Nothing,
    Quit,
    /// an mpd command with its arguments
    Mpd(&'static str, Vec<String>),
    LoadQueue,
    Browse(String),
    LoadShows,
    LoadEpisodes(String),
    PlayEpisode(i64),
    Download(i64),
}

/// An `Effect`, with its texts as sequences.
pub ghost enum EffectView {
    Nothing,
    Quit,
    Mpd(Seq<char>, Seq<Seq<char>>),
    LoadQueue,
    Browse(Seq<char>),
    LoadShows,
    LoadEpisodes(Seq<char>),
    PlayEpisode(int),
    Download(int),
}

impl View for Effect {
    type V = EffectView;

    open spec fn view(&self) -> EffectView {
        match *self {
            Effect::Nothing => EffectView::Nothing,
            Effect::Quit => EffectView::Quit,
            Effect::Mpd(command, args) => EffectView::Mpd(command@, reply::strings_view(args@)),
            Effect::LoadQueue => EffectView::LoadQueue,
            Effect::Browse(folder) => EffectView::Browse(folder@),
            Effect::LoadShows => EffectView::LoadShows,
            Effect::LoadEpisodes(show) => EffectView::LoadEpisodes(show@),
            Effect::PlayEpisode(id) => EffectView::PlayEpisode(id as int),
            Effect::Download(id) => EffectView::Download(id as int),
        }
    }
}

/// Everything the player knows.
pub struct State {
    pub tab: Tab,
    pub now: Option<Now>,
    pub queue: Vec<Song>,
    pub folder: String,
    pub entries: Vec<Entry>,
    pub shows: Vec<Show>,
    /// the show whose episodes are open, if any
    pub show: Option<String>,
    pub episodes: Vec<Episode>,
    /// the row that each tab's cursor is on
    pub cursor: [usize; 4],
    /// is the question open whether to clear the queue?
    pub confirm_clear: bool,
    pub message: Option<String>,
}

/// A `State`, with its texts and lists as sequences.
pub ghost struct StateView {
    pub tab: Tab,
    pub now: Option<player::NowView>,
    pub queue: Seq<reply::SongView>,
    pub folder: Seq<char>,
    pub entries: Seq<EntryView>,
    pub shows: Seq<rows::ShowView>,
    pub show: Option<Seq<char>>,
    pub episodes: Seq<rows::EpisodeView>,
    pub cursor: Seq<usize>,
    pub confirm_clear: bool,
    pub message: Option<Seq<char>>,
}

impl View for State {
    type V = StateView;

    open spec fn view(&self) -> StateView {
        StateView {
            tab: self.tab,
            now: match self.now {
                Some(n) => Some(n@),
                None => None,
            },
            queue: reply::songs_view(self.queue@),
            folder: self.folder@,
            entries: self.entries@.map_values(|e: Entry| e@),
            shows: self.shows@.map_values(|s: Show| s@),
            show: text::opt(self.show),
            episodes: self.episodes@.map_values(|e: Episode| e@),
            cursor: self.cursor@,
            confirm_clear: self.confirm_clear,
            message: text::opt(self.message),
        }
    }
}

impl Default for State {
    /// Nothing known, and nothing asked.
    fn default() -> (s: State)
        ensures
            s@.tab == Tab::Playing,
            s@.now is None,
            s@.queue.len() == 0,
            s@.folder.len() == 0,
            s@.entries.len() == 0,
            s@.shows.len() == 0,
            s@.show is None,
            s@.episodes.len() == 0,
            s@.cursor == seq![0usize, 0usize, 0usize, 0usize],
            !s@.confirm_clear,
            s@.message is None,
    {
        let s = State {
            tab: Tab::Playing,
            now: None,
            queue: Vec::new(),
            folder: String::new(),
            entries: Vec::new(),
            shows: Vec::new(),
            show: None,
            episodes: Vec::new(),
            cursor: [0, 0, 0, 0],
            confirm_clear: false,
            message: None,
        };
        assert(s.cursor@ =~= seq![0usize, 0usize, 0usize, 0usize]);
        s
    }
}

// ── The clock ────────────────────────────────────────────────────────────

/// Where playback is at a moment: mpd's last word, plus the time since if it is playing, but never
/// past the end.
pub open spec fn elapsed_of(now: Option<player::NowView>, now_ms: int) -> int {
    match now {
        Some(n) => {
            let moved = if n.state == "play"@ && now_ms > n.at {
                now_ms - n.at
            } else {
                0
            };
            let at = n.elapsed + moved;
            player::fitted(
                if n.duration > 0 && at > n.duration {
                    n.duration
                } else {
                    at
                },
            )
        },
        None => 0,
    }
}

impl State {
    /// Where playback is at this moment, as far as a time can be held.
    pub fn elapsed(&self, now_ms: i64) -> (r: i64)
        ensures
            r == elapsed_of(self@.now, now_ms as int),
    {
        match &self.now {
            Some(n) => {
                let moved: i128 = if text::same(&n.state, "play") && now_ms > n.at {
                    now_ms as i128 - n.at as i128
                } else {
                    0
                };
                let at: i128 = n.elapsed as i128 + moved;
                if n.duration > 0 && at > n.duration as i128 {
                    n.duration
                } else {
                    player::fit(at)
                }
            },
            None => 0,
        }
    }
}

// ── Cursors ──────────────────────────────────────────────────────────────

/// How many rows a tab has.
pub open spec fn rows_of(s: StateView, tab: Tab) -> nat {
    match tab {
        Tab::Playing => 0,
        Tab::Queue => s.queue.len(),
        Tab::Library => s.entries.len(),
        Tab::Podcasts => if s.show is Some {
            s.episodes.len()
        } else {
            s.shows.len()
        },
    }
}

/// The last row of a tab; the first if it has none.
pub open spec fn last_row(s: StateView, tab: Tab) -> int {
    if rows_of(s, tab) == 0 {
        0
    } else {
        rows_of(s, tab) - 1
    }
}

/// The row that the cursor of the open tab is on.
pub open spec fn cursor_of(s: StateView) -> int {
    s.cursor[index_of(s.tab)] as int
}

/// A row, or the last if there are not that many.
pub open spec fn at_most(row: int, last: int) -> int {
    if row > last {
        last
    } else {
        row
    }
}

/// The state with each cursor inside its list.
pub open spec fn clamped(s: StateView) -> StateView {
    StateView {
        cursor: seq![
            at_most(s.cursor[0] as int, last_row(s, Tab::Playing)) as usize,
            at_most(s.cursor[1] as int, last_row(s, Tab::Queue)) as usize,
            at_most(s.cursor[2] as int, last_row(s, Tab::Library)) as usize,
            at_most(s.cursor[3] as int, last_row(s, Tab::Podcasts)) as usize,
        ],
        ..s
    }
}

/// A move of the cursor.
#[derive(Debug, Clone, Copy, PartialEq, Eq, Structural)]
pub enum Step {
    Down,
    Up,
    First,
    Last,
}

/// Where a move takes the cursor: never outside the list.
pub open spec fn stepped(row: int, last: int, step: Step) -> int {
    match step {
        Step::Down => at_most(row + 1, last),
        Step::Up => at_most(
            if row > 0 {
                row - 1
            } else {
                0
            },
            last,
        ),
        Step::First => 0,
        Step::Last => last,
    }
}

/// The state with the cursor of the open tab on this row.
pub open spec fn with_cursor(s: StateView, tab: Tab, row: int) -> StateView {
    StateView { cursor: s.cursor.update(index_of(tab), row as usize), ..s }
}

impl State {
    fn rows(&self, tab: Tab) -> (n: usize)
        ensures
            n == rows_of(self@, tab),
    {
        match tab {
            Tab::Playing => 0,
            Tab::Queue => self.queue.len(),
            Tab::Library => self.entries.len(),
            Tab::Podcasts => if self.show.is_some() {
                self.episodes.len()
            } else {
                self.shows.len()
            },
        }
    }

    fn last(&self, tab: Tab) -> (n: usize)
        ensures
            n == last_row(self@, tab),
    {
        let rows = self.rows(tab);
        if rows == 0 {
            0
        } else {
            rows - 1
        }
    }

    /// The row that the cursor of the open tab is on.
    pub fn cursor(&self) -> (r: usize)
        ensures
            r == cursor_of(self@),
    {
        self.cursor[self.tab.index()]
    }

    fn set_cursor(&mut self, tab: Tab, row: usize)
        ensures
            final(self)@ == with_cursor(old(self)@, tab, row as int),
    {
        let i = tab.index();
        self.cursor[i] = row;
    }

    /// Keep each cursor inside its list after the list changed.
    pub fn clamp(&mut self)
        ensures
            final(self)@ == clamped(old(self)@),
    {
        let ghost before = self@;
        let playing = self.last(Tab::Playing);
        let queue = self.last(Tab::Queue);
        let library = self.last(Tab::Library);
        let podcasts = self.last(Tab::Podcasts);
        if self.cursor[0] > playing {
            self.set_cursor(Tab::Playing, playing);
        }
        if self.cursor[1] > queue {
            self.set_cursor(Tab::Queue, queue);
        }
        if self.cursor[2] > library {
            self.set_cursor(Tab::Library, library);
        }
        if self.cursor[3] > podcasts {
            self.set_cursor(Tab::Podcasts, podcasts);
        }
        assert(self@.cursor =~= clamped(before).cursor);
    }

    fn step(&mut self, step: Step)
        ensures
            final(self)@ == with_cursor(
                old(self)@,
                old(self)@.tab,
                stepped(cursor_of(old(self)@), last_row(old(self)@, old(self)@.tab), step),
            ),
    {
        let last = self.last(self.tab);
        let row = self.cursor();
        let to: usize = match step {
            Step::Down => if row >= last {
                last
            } else {
                row + 1
            },
            Step::Up => {
                let up: usize = if row > 0 {
                    row - 1
                } else {
                    0
                };
                if up > last {
                    last
                } else {
                    up
                }
            },
            Step::First => 0,
            Step::Last => last,
        };
        let tab = self.tab;
        self.set_cursor(tab, to);
    }
}

// ── Keys ─────────────────────────────────────────────────────────────────

/// The tab that stands at `i`.
pub open spec fn tab_at(i: int) -> Tab {
    if i == 0 {
        Tab::Playing
    } else if i == 1 {
        Tab::Queue
    } else if i == 2 {
        Tab::Library
    } else {
        Tab::Podcasts
    }
}

/// What a tab asks for when it is opened.
pub open spec fn opening_effect(s: StateView, tab: Tab) -> EffectView {
    match tab {
        Tab::Queue => EffectView::LoadQueue,
        Tab::Library => EffectView::Browse(s.folder),
        Tab::Podcasts => match s.show {
            Some(name) => EffectView::LoadEpisodes(name),
            None => EffectView::LoadShows,
        },
        Tab::Playing => EffectView::Nothing,
    }
}

/// The state with another tab open, and what that asks for.
pub open spec fn switched(s: StateView, tab: Tab) -> (StateView, EffectView) {
    (StateView { tab, ..s }, opening_effect(s, tab))
}

/// An mpd command without arguments.
pub open spec fn bare(command: Seq<char>) -> EffectView {
    EffectView::Mpd(command, seq![])
}

/// An mpd command with one argument.
pub open spec fn with_argument(command: Seq<char>, arg: Seq<char>) -> EffectView {
    EffectView::Mpd(command, seq![arg])
}

/// The position of a row of the queue: mpd's own, or the row, as far as a position can be written.
pub open spec fn queue_position(song: reply::SongView, row: int) -> nat {
    match song.pos {
        Some(p) => p,
        None => (row % 0x1_0000_0000) as nat,
    }
}

/// What a key does that means something on one tab only.
pub open spec fn on_tab_key(s: StateView, code: KeyCode) -> (StateView, EffectView) {
    let row = cursor_of(s);
    match s.tab {
        Tab::Playing => (s, EffectView::Nothing),
        Tab::Queue => match code {
            KeyCode::Enter => if row < s.queue.len() {
                (
                    s,
                    with_argument("play"@, number::decimal(queue_position(s.queue[row], row))),
                )
            } else {
                (s, EffectView::Nothing)
            },
            KeyCode::Char('d') => if row < s.queue.len() {
                (
                    s,
                    with_argument("delete"@, number::decimal(queue_position(s.queue[row], row))),
                )
            } else {
                (s, EffectView::Nothing)
            },
            KeyCode::Char('c') => (StateView { confirm_clear: true, ..s }, EffectView::Nothing),
            _ => (s, EffectView::Nothing),
        },
        Tab::Library => match code {
            KeyCode::Enter => if row < s.entries.len() {
                match s.entries[row] {
                    EntryView::Folder(path) => (
                        StateView { folder: path, ..with_cursor(s, Tab::Library, 0) },
                        EffectView::Browse(path),
                    ),
                    EntryView::Song(song) => (s, with_argument("add"@, song.file)),
                }
            } else {
                (s, EffectView::Nothing)
            },
            // a folder can be queued whole
            KeyCode::Char('a') => if row < s.entries.len() {
                match s.entries[row] {
                    EntryView::Folder(path) => (s, with_argument("add"@, path)),
                    EntryView::Song(song) => (s, with_argument("add"@, song.file)),
                }
            } else {
                (s, EffectView::Nothing)
            },
            KeyCode::Backspace => {
                let up = folder_above(s.folder);
                (
                    StateView { folder: up, ..with_cursor(s, Tab::Library, 0) },
                    EffectView::Browse(up),
                )
            },
            _ => (s, EffectView::Nothing),
        },
        Tab::Podcasts => match code {
            KeyCode::Enter => if s.show is Some {
                if row < s.episodes.len() {
                    (s, EffectView::PlayEpisode(s.episodes[row].id))
                } else {
                    (s, EffectView::Nothing)
                }
            } else if row < s.shows.len() {
                let name = s.shows[row].name;
                (
                    StateView { show: Some(name), ..with_cursor(s, Tab::Podcasts, 0) },
                    EffectView::LoadEpisodes(name),
                )
            } else {
                (s, EffectView::Nothing)
            },
            KeyCode::Char('D') => if s.show is Some && row < s.episodes.len() {
                (s, EffectView::Download(s.episodes[row].id))
            } else {
                (s, EffectView::Nothing)
            },
            KeyCode::Backspace => back_to_shows(s),
            KeyCode::Esc => back_to_shows(s),
            _ => (s, EffectView::Nothing),
        },
    }
}

/// The folder that a folder lies in; the top has none above it.
pub open spec fn folder_above(folder: Seq<char>) -> Seq<char> {
    match text::cut_last(folder, '/') {
        Some((up, _)) => up,
        None => seq![],
    }
}

/// Back from a show's episodes to the list of shows.
pub open spec fn back_to_shows(s: StateView) -> (StateView, EffectView) {
    if s.show is Some {
        (StateView { show: None, ..with_cursor(s, Tab::Podcasts, 0) }, EffectView::LoadShows)
    } else {
        (s, EffectView::Nothing)
    }
}

/// The state with the cursor of the open tab moved.
pub open spec fn moved(s: StateView, step: Step) -> (StateView, EffectView) {
    (
        with_cursor(s, s.tab, stepped(cursor_of(s), last_row(s, s.tab), step)),
        EffectView::Nothing,
    )
}

/// What a key does: the state after it, and what it asks for.
pub open spec fn on_key(s: StateView, key: Key) -> (StateView, EffectView) {
    if key.control && key.code == KeyCode::Char('c') {
        (s, EffectView::Quit)
    } else if s.confirm_clear {
        // the one question: only y clears the queue
        (
            StateView { confirm_clear: false, ..s },
            if key.code == KeyCode::Char('y') {
                bare("clear"@)
            } else {
                EffectView::Nothing
            },
        )
    } else {
        match key.code {
            KeyCode::Char('q') => (s, EffectView::Quit),
            KeyCode::Tab => switched(s, tab_at((index_of(s.tab) + 1) % 4)),
            KeyCode::BackTab => switched(s, tab_at((index_of(s.tab) + 3) % 4)),
            KeyCode::Char('1') => switched(s, Tab::Playing),
            KeyCode::Char('2') => switched(s, Tab::Queue),
            KeyCode::Char('3') => switched(s, Tab::Library),
            KeyCode::Char('4') => switched(s, Tab::Podcasts),
            // transport works on every tab
            KeyCode::Char(' ') => (
                s,
                if s.now is None || s.now->Some_0.state == "stop"@ {
                    bare("play"@)
                } else {
                    bare("pause"@)
                },
            ),
            KeyCode::Char('n') => (s, bare("next"@)),
            KeyCode::Char('p') => (s, bare("previous"@)),
            KeyCode::Right => (s, with_argument("seekcur"@, "+"@ + SEEK_STEP@)),
            KeyCode::Left => (s, with_argument("seekcur"@, "-"@ + SEEK_STEP@)),
            KeyCode::Char('+') => (s, with_argument("volume"@, "+"@ + VOLUME_STEP@)),
            KeyCode::Char('=') => (s, with_argument("volume"@, "+"@ + VOLUME_STEP@)),
            KeyCode::Char('-') => (s, with_argument("volume"@, "-"@ + VOLUME_STEP@)),
            KeyCode::Down => moved(s, Step::Down),
            KeyCode::Char('j') => moved(s, Step::Down),
            KeyCode::Up => moved(s, Step::Up),
            KeyCode::Char('k') => moved(s, Step::Up),
            KeyCode::Home => moved(s, Step::First),
            KeyCode::Char('g') => moved(s, Step::First),
            KeyCode::End => moved(s, Step::Last),
            KeyCode::Char('G') => moved(s, Step::Last),
            _ => on_tab_key(s, key.code),
        }
    }
}

fn command(name: &'static str) -> (r: Effect)
    ensures
        r@ == bare(name@),
{
    let args: Vec<String> = Vec::new();
    assert(reply::strings_view(args@) =~= seq![]);
    Effect::Mpd(name, args)
}

fn command_with(name: &'static str, arg: String) -> (r: Effect)
    ensures
        r@ == with_argument(name@, arg@),
{
    let mut args: Vec<String> = Vec::new();
    args.push(arg);
    assert(reply::strings_view(args@) =~= seq![arg@]);
    Effect::Mpd(name, args)
}

fn signed(sign: &str, step: &str) -> (r: String)
    ensures
        r@ == sign@ + step@,
{
    sign.to_owned().concat(step)
}

impl State {
    fn switch(&mut self, tab: Tab) -> (r: Effect)
        ensures
            (final(self)@, r@) == switched(old(self)@, tab),
    {
        self.tab = tab;
        match tab {
            Tab::Queue => Effect::LoadQueue,
            Tab::Library => Effect::Browse(self.folder.clone()),
            Tab::Podcasts => match &self.show {
                Some(name) => Effect::LoadEpisodes(name.clone()),
                None => Effect::LoadShows,
            },
            Tab::Playing => Effect::Nothing,
        }
    }

    /// What a key does; the answer is what it asks for.
    pub fn key(&mut self, key: Key) -> (r: Effect)
        ensures
            (final(self)@, r@) == on_key(old(self)@, key),
    {
        if key.control && key.code == KeyCode::Char('c') {
            return Effect::Quit;
        }
        if self.confirm_clear {
            self.confirm_clear = false;
            return if key.code == KeyCode::Char('y') {
                command("clear")
            } else {
                Effect::Nothing
            };
        }
        match key.code {
            KeyCode::Char('q') => Effect::Quit,
            KeyCode::Tab => {
                let tab = TABS[(self.tab.index() + 1) % 4];
                self.switch(tab)
            },
            KeyCode::BackTab => {
                let tab = TABS[(self.tab.index() + 3) % 4];
                self.switch(tab)
            },
            KeyCode::Char('1') => self.switch(Tab::Playing),
            KeyCode::Char('2') => self.switch(Tab::Queue),
            KeyCode::Char('3') => self.switch(Tab::Library),
            KeyCode::Char('4') => self.switch(Tab::Podcasts),
            KeyCode::Char(' ') => {
                let stopped = match &self.now {
                    Some(n) => text::same(&n.state, "stop"),
                    None => true,
                };
                if stopped {
                    command("play")
                } else {
                    command("pause")
                }
            },
            KeyCode::Char('n') => command("next"),
            KeyCode::Char('p') => command("previous"),
            KeyCode::Right => command_with("seekcur", signed("+", SEEK_STEP)),
            KeyCode::Left => command_with("seekcur", signed("-", SEEK_STEP)),
            KeyCode::Char('+') | KeyCode::Char('=') => {
                command_with("volume", signed("+", VOLUME_STEP))
            },
            KeyCode::Char('-') => command_with("volume", signed("-", VOLUME_STEP)),
            KeyCode::Down | KeyCode::Char('j') => {
                self.step(Step::Down);
                Effect::Nothing
            },
            KeyCode::Up | KeyCode::Char('k') => {
                self.step(Step::Up);
                Effect::Nothing
            },
            KeyCode::Home | KeyCode::Char('g') => {
                self.step(Step::First);
                Effect::Nothing
            },
            KeyCode::End | KeyCode::Char('G') => {
                self.step(Step::Last);
                Effect::Nothing
            },
            code => self.tab_key(code),
        }
    }

    /// Keys that mean something on one tab only.
    fn tab_key(&mut self, code: KeyCode) -> (r: Effect)
        ensures
            (final(self)@, r@) == on_tab_key(old(self)@, code),
    {
        match self.tab {
            Tab::Playing => Effect::Nothing,
            Tab::Queue => self.queue_key(code),
            Tab::Library => self.library_key(code),
            Tab::Podcasts => self.podcasts_key(code),
        }
    }

    fn queue_key(&mut self, code: KeyCode) -> (r: Effect)
        requires
            old(self)@.tab == Tab::Queue,
        ensures
            (final(self)@, r@) == on_tab_key(old(self)@, code),
    {
        let row = self.cursor();
        match code {
            KeyCode::Enter => if row < self.queue.len() {
                command_with("play", self.position(row))
            } else {
                Effect::Nothing
            },
            KeyCode::Char('d') => if row < self.queue.len() {
                command_with("delete", self.position(row))
            } else {
                Effect::Nothing
            },
            KeyCode::Char('c') => {
                self.confirm_clear = true;
                Effect::Nothing
            },
            _ => Effect::Nothing,
        }
    }

    fn position(&self, row: usize) -> (r: String)
        requires
            row < self.queue@.len(),
        ensures
            r@ == number::decimal(queue_position(self@.queue[row as int], row as int)),
    {
        assert(self@.queue[row as int] == self.queue@[row as int]@);
        match self.queue[row].pos {
            Some(p) => number::write_number(p as u64),
            None => number::write_number(row as u64 % 0x1_0000_0000),
        }
    }

    fn library_key(&mut self, code: KeyCode) -> (r: Effect)
        requires
            old(self)@.tab == Tab::Library,
        ensures
            (final(self)@, r@) == on_tab_key(old(self)@, code),
    {
        let row = self.cursor();
        assert(row < self.entries@.len() ==> self@.entries[row as int] == self.entries@[row as int]@);
        match code {
            KeyCode::Enter => {
                if row >= self.entries.len() {
                    return Effect::Nothing;
                }
                let path = match &self.entries[row] {
                    Entry::Folder(path) => path.clone(),
                    Entry::Song(song) => {
                        return command_with("add", song.file.clone());
                    },
                };
                self.folder = path.clone();
                self.set_cursor(Tab::Library, 0);
                Effect::Browse(path)
            },
            KeyCode::Char('a') => {
                if row >= self.entries.len() {
                    return Effect::Nothing;
                }
                match &self.entries[row] {
                    Entry::Folder(path) => command_with("add", path.clone()),
                    Entry::Song(song) => command_with("add", song.file.clone()),
                }
            },
            KeyCode::Backspace => {
                let up = match text::split_last(&self.folder, '/') {
                    Some((up, _)) => up,
                    None => {
                        let top = String::new();
                        assert(top@ =~= seq![]);
                        top
                    },
                };
                self.folder = up.clone();
                self.set_cursor(Tab::Library, 0);
                Effect::Browse(up)
            },
            _ => Effect::Nothing,
        }
    }

    fn podcasts_key(&mut self, code: KeyCode) -> (r: Effect)
        requires
            old(self)@.tab == Tab::Podcasts,
        ensures
            (final(self)@, r@) == on_tab_key(old(self)@, code),
    {
        let row = self.cursor();
        let open = self.show.is_some();
        assert(row < self.episodes@.len() ==> self@.episodes[row as int]
            == self.episodes@[row as int]@);
        assert(row < self.shows@.len() ==> self@.shows[row as int] == self.shows@[row as int]@);
        match code {
            KeyCode::Enter => {
                if open {
                    if row < self.episodes.len() {
                        Effect::PlayEpisode(self.episodes[row].id)
                    } else {
                        Effect::Nothing
                    }
                } else if row < self.shows.len() {
                    let name = self.shows[row].name.clone();
                    self.show = Some(name.clone());
                    self.set_cursor(Tab::Podcasts, 0);
                    Effect::LoadEpisodes(name)
                } else {
                    Effect::Nothing
                }
            },
            KeyCode::Char('D') => if open && row < self.episodes.len() {
                Effect::Download(self.episodes[row].id)
            } else {
                Effect::Nothing
            },
            KeyCode::Backspace | KeyCode::Esc => if open {
                self.show = None;
                self.set_cursor(Tab::Podcasts, 0);
                Effect::LoadShows
            } else {
                Effect::Nothing
            },
            _ => Effect::Nothing,
        }
    }
}

} // verus!
