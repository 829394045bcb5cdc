//! The player's keys and screens.
use mg_streamr::mpd::Song;
use mg_streamr::player::{Now, PodcastRef};
use mg_streamr::store::{Episode, Show};
use mg_streamr::tui::{
    download_message, draw, drops_connection, reloads_queue, Body, Effect, Entry, Ink, Key, KeyCode,
    Outcome, State, Tab, Update, TABS,
};

fn key(code: KeyCode) -> Key {
    Key {
        code,
        control: false,
    }
}

fn now(state: &str, elapsed: i64, duration: i64, at: i64) -> Now {
    Now {
        state: state.into(),
        elapsed,
        duration,
        volume: Some(50),
        random: false,
        repeat: false,
        queue_length: 1,
        title: "Song".into(),
        artist: "Band".into(),
        album: String::new(),
        file: Some("Band/Song.flac".into()),
        podcast: None,
        art: None,
        at,
    }
}

fn song(file: &str) -> Song {
    Song {
        file: file.into(),
        ..Default::default()
    }
}

fn show(name: &str) -> Show {
    Show {
        id: 1,
        name: name.into(),
        feed_url: String::new(),
        title: None,
        image_url: None,
        refreshed_at: None,
        episodes: 1,
        unplayed: 1,
    }
}

fn episode(id: i64) -> Episode {
    Episode {
        id,
        show: "pod".into(),
        guid: "g".into(),
        title: "Ep".into(),
        url: "https://c/e.mp3".into(),
        media_type: None,
        published_at: None,
        duration_seconds: None,
        image_url: None,
        summary: None,
        position: 0,
        played: false,
        download_path: None,
    }
}

/// Every text on the screen.
fn screen(state: &State) -> String {
    let s = draw(state, 5_000);
    let body = match s.body {
        Body::Waiting(t) => t,
        Body::Playing(p) => format!("{}\n{}\n{}\n{}", p.title, p.by, p.label, p.info),
        Body::List(l) => {
            let rows: Vec<String> = l
                .rows
                .iter()
                .map(|r| r.pieces.iter().map(|p| p.text.as_str()).collect())
                .collect();
            format!("{}\n{}", l.title, rows.join("\n"))
        }
    };
    format!("{}\n{}\n{}", s.tabs.join("|"), body, s.keys)
}

#[test]
fn every_tab_draws_and_the_clock_advances() {
    let mut s = State {
        now: Some(now("play", 10_000, 100_000, 0)),
        ..Default::default()
    };
    let text = screen(&s);
    assert!(text.contains("Song") && text.contains("Band") && text.contains("0:15 / 1:40"));
    for tab in TABS {
        s.tab = tab;
        screen(&s);
    }
    s.tab = Tab::Queue;
    s.confirm_clear = true;
    assert!(screen(&s).contains("Clear the whole queue?"));
}

#[test]
fn the_clock_moves_only_while_playing_and_stops_at_the_end() {
    let mut s = State {
        now: Some(now("play", 10_000, 100_000, 1_000)),
        ..Default::default()
    };
    assert_eq!(s.elapsed(4_000), 13_000);
    assert_eq!(s.elapsed(500_000), 100_000, "never past the end");
    s.now = Some(now("pause", 10_000, 100_000, 1_000));
    assert_eq!(s.elapsed(4_000), 10_000);
}

#[test]
fn the_clock_holds_at_its_limits() {
    let mut s = State::default();
    assert_eq!(s.elapsed(4_000), 0, "nothing is known yet");
    s.now = Some(now("play", i64::MAX, 0, i64::MIN));
    assert_eq!(s.elapsed(i64::MAX), i64::MAX);
    s.now = Some(now("play", 10_000, 0, 1_000));
    assert_eq!(s.elapsed(0), 10_000, "never backwards");
    assert_eq!(s.elapsed(61_000), 70_000, "no end is known");
}

#[test]
fn space_plays_when_stopped_and_pauses_otherwise() {
    let mut s = State {
        now: Some(now("stop", 0, 0, 0)),
        ..Default::default()
    };
    assert_eq!(s.key(key(KeyCode::Char(' '))), Effect::Mpd("play", vec![]));
    s.now = Some(now("play", 1_000, 9_000, 0));
    assert_eq!(s.key(key(KeyCode::Char(' '))), Effect::Mpd("pause", vec![]));
    assert_eq!(
        s.key(key(KeyCode::Right)),
        Effect::Mpd("seekcur", vec!["+10".into()])
    );
}

#[test]
fn transport_works_on_every_tab() {
    for tab in TABS {
        let mut s = State {
            tab,
            ..Default::default()
        };
        assert_eq!(s.key(key(KeyCode::Char('n'))), Effect::Mpd("next", vec![]));
        assert_eq!(
            s.key(key(KeyCode::Char('p'))),
            Effect::Mpd("previous", vec![])
        );
        assert_eq!(
            s.key(key(KeyCode::Left)),
            Effect::Mpd("seekcur", vec!["-10".into()])
        );
        for (code, by) in [('+', "+5"), ('=', "+5"), ('-', "-5")] {
            assert_eq!(
                s.key(key(KeyCode::Char(code))),
                Effect::Mpd("volume", vec![by.into()])
            );
        }
        assert_eq!(s.key(key(KeyCode::Char('q'))), Effect::Quit);
        assert_eq!(s.tab, tab);
    }
}

#[test]
fn clearing_the_queue_asks_first() {
    let mut s = State {
        tab: Tab::Queue,
        ..Default::default()
    };
    assert_eq!(s.key(key(KeyCode::Char('c'))), Effect::Nothing);
    assert_eq!(
        s.key(key(KeyCode::Char('n'))),
        Effect::Nothing,
        "anything but y is no"
    );
    s.key(key(KeyCode::Char('c')));
    assert_eq!(s.key(key(KeyCode::Char('y'))), Effect::Mpd("clear", vec![]));
}

#[test]
fn control_c_quits_even_while_asking() {
    let mut s = State {
        tab: Tab::Queue,
        confirm_clear: true,
        ..Default::default()
    };
    let quit = Key {
        code: KeyCode::Char('c'),
        control: true,
    };
    assert_eq!(s.key(quit), Effect::Quit);
    assert_eq!(s.key(key(KeyCode::Char('q'))), Effect::Nothing);
    assert!(!s.confirm_clear);
}

#[test]
fn the_library_opens_folders_adds_songs_and_goes_back_up() {
    let mut s = State {
        tab: Tab::Library,
        entries: vec![Entry::Folder("Band".into()), Entry::Song(song("a.flac"))],
        ..Default::default()
    };
    assert_eq!(s.key(key(KeyCode::Enter)), Effect::Browse("Band".into()));
    s.entries = vec![Entry::Folder("Band/Album".into())];
    s.key(key(KeyCode::Enter));
    assert_eq!(
        s.key(key(KeyCode::Backspace)),
        Effect::Browse("Band".into())
    );
    s.entries = vec![Entry::Song(song("Band/x.flac"))];
    assert_eq!(
        s.key(key(KeyCode::Enter)),
        Effect::Mpd("add", vec!["Band/x.flac".into()])
    );
}

#[test]
fn a_folder_can_be_queued_whole_and_the_top_has_nothing_above() {
    let mut s = State {
        tab: Tab::Library,
        folder: "Band".into(),
        entries: vec![Entry::Folder("Band/Album".into())],
        ..Default::default()
    };
    assert_eq!(
        s.key(key(KeyCode::Char('a'))),
        Effect::Mpd("add", vec!["Band/Album".into()])
    );
    assert_eq!(s.key(key(KeyCode::Backspace)), Effect::Browse("".into()));
    assert_eq!(s.folder, "");
    s.entries.clear();
    assert_eq!(s.key(key(KeyCode::Enter)), Effect::Nothing);
    assert_eq!(s.key(key(KeyCode::Char('a'))), Effect::Nothing);
}

#[test]
fn podcasts_open_a_show_then_play_or_download_an_episode() {
    let mut s = State {
        shows: vec![show("pod")],
        ..Default::default()
    };
    assert_eq!(s.key(key(KeyCode::Char('4'))), Effect::LoadShows);
    assert_eq!(
        s.key(key(KeyCode::Enter)),
        Effect::LoadEpisodes("pod".into())
    );
    s.episodes = vec![episode(9)];
    assert_eq!(s.key(key(KeyCode::Enter)), Effect::PlayEpisode(9));
    assert_eq!(s.key(key(KeyCode::Char('D'))), Effect::Download(9));
    assert_eq!(s.key(key(KeyCode::Esc)), Effect::LoadShows);
    assert!(s.show.is_none());
}

#[test]
fn the_queue_goes_by_mpds_positions() {
    let mut second = song("b");
    second.pos = Some(7);
    let mut s = State {
        tab: Tab::Queue,
        queue: vec![song("a"), second],
        ..Default::default()
    };
    assert_eq!(
        s.key(key(KeyCode::Enter)),
        Effect::Mpd("play", vec!["0".into()])
    );
    assert_eq!(s.key(key(KeyCode::Char('j'))), Effect::Nothing);
    assert_eq!(
        s.key(key(KeyCode::Char('d'))),
        Effect::Mpd("delete", vec!["7".into()])
    );
    assert_eq!(s.key(key(KeyCode::Down)), Effect::Nothing);
    assert_eq!(s.cursor(), 1, "never past the last row");
    s.key(key(KeyCode::Home));
    assert_eq!(s.cursor(), 0);
    s.key(key(KeyCode::Up));
    assert_eq!(s.cursor(), 0);
    s.key(key(KeyCode::Char('G')));
    assert_eq!(s.cursor(), 1);
    s.queue.clear();
    s.clamp();
    assert_eq!(s.cursor(), 0);
    assert_eq!(s.key(key(KeyCode::Enter)), Effect::Nothing);
}

#[test]
fn tabs_go_round() {
    let mut s = State {
        folder: "Band".into(),
        ..Default::default()
    };
    assert_eq!(s.key(key(KeyCode::BackTab)), Effect::LoadShows);
    assert_eq!(s.tab, Tab::Podcasts);
    assert_eq!(s.key(key(KeyCode::Tab)), Effect::Nothing);
    assert_eq!(s.tab, Tab::Playing);
    assert_eq!(s.key(key(KeyCode::Tab)), Effect::LoadQueue);
    assert_eq!(s.key(key(KeyCode::Tab)), Effect::Browse("Band".into()));
    s.show = Some("pod".into());
    assert_eq!(s.key(key(KeyCode::Tab)), Effect::LoadEpisodes("pod".into()));
    let titles: Vec<&str> = TABS.iter().map(|t| t.title()).collect();
    assert_eq!(titles, ["Now Playing", "Queue", "Library", "Podcasts"]);
}

#[test]
fn rows_are_drawn_as_they_are_read() {
    let mut tagged = song("x.flac");
    tagged.title = Some("Title".into());
    tagged.artist = Some("Artist".into());
    let mut s = State {
        tab: Tab::Library,
        folder: "Band".into(),
        entries: vec![
            Entry::Folder("Band/Album".into()),
            Entry::Song(tagged),
            Entry::Song(song("Band/y.flac")),
        ],
        ..Default::default()
    };
    let text = screen(&s);
    assert!(text.contains(" Band \nAlbum/\nArtist \u{2014} Title\nBand/y.flac"));
    match draw(&s, 0).body {
        Body::List(l) => {
            assert_eq!(l.selected, Some(0));
            assert_eq!(l.rows[0].pieces[0].ink, Ink::Accent);
            assert_eq!(l.rows[1].pieces[0].ink, Ink::Dim);
        }
        _ => panic!("a list"),
    }
    s.tab = Tab::Podcasts;
    s.shows = vec![show("pod")];
    assert!(screen(&s).contains(" podcasts \npod  1 new"));
    let mut begun = episode(1);
    begun.position = 61_000;
    begun.download_path = Some("p".into());
    let mut heard = episode(2);
    heard.played = true;
    heard.position = 61_000;
    s.show = Some("pod".into());
    s.episodes = vec![begun, heard];
    assert!(screen(&s).contains(" pod \n\u{2022} Ep  at 1:01  saved\n  Ep"));
}

#[test]
fn the_panel_says_what_is_playing() {
    let mut s = State::default();
    assert!(screen(&s).contains("connecting to mpd\u{2026}"));
    let mut n = now("pause", 200_000, 100_000, 0);
    n.album = "Album".into();
    n.podcast = Some(PodcastRef {
        episode_id: 1,
        show: "pod".into(),
        image_url: None,
    });
    s.hear(Update::Now(n));
    match draw(&s, 0).body {
        Body::Playing(p) => {
            assert_eq!(p.by, "Band \u{b7} Album");
            assert_eq!((p.filled, p.whole), (100_000, 100_000));
            assert_eq!(
                p.info,
                "paused \u{b7} volume 50% \u{b7} podcast pod \u{b7} 1 in queue"
            );
        }
        _ => panic!("a panel"),
    }
    let mut quiet = now("stop", 0, 0, 0);
    quiet.title = String::new();
    quiet.volume = None;
    s.hear(Update::Now(quiet));
    match draw(&s, 0).body {
        Body::Playing(p) => {
            assert_eq!(p.title, "nothing playing");
            assert_eq!((p.filled, p.whole), (0, 1));
            assert_eq!(p.label, "0:00");
            assert_eq!(p.info, "stopped \u{b7} 1 in queue");
        }
        _ => panic!("a panel"),
    }
}

#[test]
fn news_stays_until_the_next_key() {
    let mut s = State::default();
    s.hear(Update::Message("mpd: gone".into()));
    assert!(screen(&s).contains("mpd: gone"));
    assert_eq!(s.press(key(KeyCode::Char('2'))), Effect::LoadQueue);
    assert!(s.message.is_none());
    assert!(screen(&s).contains("enter play"));
}

#[test]
fn what_came_of_an_effect_is_taken_in() {
    let mut s = State {
        tab: Tab::Queue,
        cursor: [0, 5, 9, 9],
        ..Default::default()
    };
    s.settle(Outcome::Ran("add".into(), Some(vec![song("a"), song("b")])));
    assert_eq!(s.message.as_deref(), Some("added to the queue"));
    assert_eq!((s.queue.len(), s.cursor), (2, [0, 1, 0, 0]));
    s.settle(Outcome::Folder(vec![
        ("file".into(), "x.flac".into()),
        ("Title".into(), "X".into()),
        ("directory".into(), "D".into()),
    ]));
    assert_eq!(s.entries[0], Entry::Folder("D".into()));
    assert!(matches!(&s.entries[1], Entry::Song(x) if x.title.as_deref() == Some("X")));
    s.settle(Outcome::Downloading(4));
    assert_eq!(s.message.as_deref(), Some("downloading episode 4\u{2026}"));
    s.settle(Outcome::Playing("Ep".into()));
    assert_eq!(s.message.as_deref(), Some("playing Ep"));
    s.settle(Outcome::NoMpd);
    assert_eq!(s.message.as_deref(), Some("mpd is not answering"));
    s.settle(Outcome::Failed("mpd: no".into()));
    assert_eq!(s.message.as_deref(), Some("mpd: no"));
    s.settle(Outcome::Shows(vec![show("pod")]));
    s.settle(Outcome::Episodes(vec![episode(1)]));
    s.settle(Outcome::Queue(vec![]));
    s.settle(Outcome::Idle);
    assert_eq!((s.shows.len(), s.episodes.len(), s.queue.len()), (1, 1, 0));
    assert!(drops_connection(&Outcome::NoMpd));
    assert!(!drops_connection(&Outcome::Idle));
    assert!(reloads_queue("delete") && !reloads_queue("play"));
    assert!(Effect::LoadQueue.needs_mpd() && !Effect::LoadShows.needs_mpd());
    assert_eq!(
        download_message(Ok("podcasts/a".into())),
        "saved to ~/music/podcasts/a"
    );
    assert_eq!(
        download_message(Err("no".into())),
        "download failed: no"
    );
}

#[test]
fn four_tabs_come_round_from_anywhere() {
    for tab in TABS {
        let mut s = State {
            tab,
            ..Default::default()
        };
        s.key(key(KeyCode::BackTab));
        assert_ne!(s.tab, tab);
        s.key(key(KeyCode::Tab));
        assert_eq!(s.tab, tab);
        for _ in 0..4 {
            s.key(key(KeyCode::Tab));
        }
        assert_eq!(s.tab, tab);
    }
}
