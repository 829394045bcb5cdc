//! The command line: what is asked of mpd, and what is printed.
use mg_streamr::cli::{
    episode_lines, folder_lines, folder_to_update, forgotten_line, keep_first, note, now_line, plan,
    playing_line, removed_line, saved_line, show_lines, song_lines, subscribed_line, toggle,
    valid_amount, CliError, Command, Note, Plan, DEFAULT_SEARCH_LIMIT, WATCHED,
};
use mg_streamr::mpd::{Mpd, Song};
use mg_streamr::player::{Now, PodcastRef};
use mg_streamr::store::{Episode, Show};

fn now(state: &str, title: &str) -> Now {
    Now {
        state: state.into(),
        elapsed: 61_000,
        duration: 120_000,
        volume: Some(50),
        random: false,
        repeat: false,
        queue_length: 1,
        title: title.into(),
        artist: "Band".into(),
        album: String::new(),
        file: None,
        podcast: Some(PodcastRef {
            episode_id: 5,
            show: "pod".into(),
            image_url: None,
        }),
        art: None,
        at: 0,
    }
}

#[test]
fn amounts_are_digits_with_a_sign_and_a_point_at_most() {
    for good in ["90", "+30", "-10", "1.5", "+.5", "5.", "12345678"] {
        assert!(valid_amount(good), "{good}");
    }
    for bad in ["", "+", ".", "+.", "1.5.2", "123456789", "ten", "--1", "1 ", "+-1"] {
        assert!(!valid_amount(bad), "{bad}");
    }
}

#[test]
fn commands_become_what_mpd_understands() {
    let run = |c: Command| match plan(c).unwrap() {
        Plan::Run(name, args) => format!("{name} {}", args.join(" ")),
        _ => panic!("not a command for mpd"),
    };
    assert_eq!(run(Command::Play(Some(3))), "play 3");
    assert_eq!(run(Command::Play(None)), "play ");
    assert_eq!(run(Command::Pause), "pause 1");
    assert_eq!(run(Command::Stop), "stop ");
    assert_eq!(run(Command::Next), "next ");
    assert_eq!(run(Command::Prev), "previous ");
    assert_eq!(run(Command::Seek("+30".into())), "seekcur +30");
    assert_eq!(run(Command::Volume("60".into())), "setvol 60");
    assert_eq!(run(Command::Volume("-5".into())), "volume -5");
    assert_eq!(run(Command::QueueAdd("a b".into())), "add a b");
    assert_eq!(run(Command::QueueClear), "clear ");
    assert_eq!(run(Command::QueueRemove(2)), "delete 2");
    assert_eq!(run(Command::Update), "update ");
    assert_eq!(plan(Command::Status), Ok(Plan::Status));
    assert_eq!(plan(Command::Art), Ok(Plan::Art));
    assert_eq!(plan(Command::Toggle), Ok(Plan::Toggle));
    assert_eq!(plan(Command::QueueList), Ok(Plan::Queue));
    assert_eq!(
        plan(Command::Browse("Band".into())),
        Ok(Plan::Folder("lsinfo", vec!["Band".into()]))
    );
    assert_eq!(
        plan(Command::Search("x".into(), 5000)),
        Ok(Plan::Songs("search", vec!["any".into(), "x".into()], 1000))
    );
    assert_eq!(
        plan(Command::Search("x".into(), 0)),
        Ok(Plan::Songs("search", vec!["any".into(), "x".into()], 1))
    );
    assert_eq!(DEFAULT_SEARCH_LIMIT, 100);
}

#[test]
fn odd_amounts_are_refused() {
    let err = plan(Command::Seek("later".into())).unwrap_err();
    assert_eq!(err, CliError::BadSeek);
    assert_eq!(err.message(), "seek takes seconds: 90, +30 or -10");
    let err = plan(Command::Volume("loud".into())).unwrap_err();
    assert_eq!(err, CliError::BadVolume);
    assert_eq!(err.message(), "volume takes 0\u{2013}100, +5 or -5");
}

#[test]
fn toggling_starts_when_stopped() {
    assert_eq!(toggle("stop"), "play");
    assert_eq!(toggle("play"), "pause");
    assert_eq!(toggle("pause"), "pause");
}

#[test]
fn what_is_watched_can_be_waited_for() {
    let mut mpd = Mpd::new();
    assert_eq!(
        mpd.idle(&WATCHED).unwrap(),
        "idle player mixer playlist options\n"
    );
}

#[test]
fn the_status_is_one_line() {
    let mut n = now("play", "Song");
    assert_eq!(
        now_line(&n),
        "\u{25b6} Band \u{2014} Song  1:01 / 2:00  vol 50%"
    );
    n.state = "pause".into();
    n.artist = String::new();
    n.duration = 0;
    n.volume = None;
    assert_eq!(now_line(&n), "\u{23f8} Song  1:01");
    n.state = "stop".into();
    assert_eq!(now_line(&n), "\u{25a0} Song  1:01");
    n.title = String::new();
    n.volume = Some(7);
    assert_eq!(now_line(&n), "\u{25a0} stopped  vol 7%");
}

#[test]
fn songs_are_listed_with_their_positions() {
    let mut first = Song {
        file: "a.flac".into(),
        title: Some("A".into()),
        artist: Some("X".into()),
        pos: Some(7),
        ..Default::default()
    };
    let second = Song {
        file: "b.flac".into(),
        ..Default::default()
    };
    assert_eq!(
        song_lines(&[first.clone(), second.clone()]),
        ["  7  X \u{2014} A", "b.flac"]
    );
    first.pos = Some(1234);
    first.title = None;
    first.name = Some("Radio".into());
    assert_eq!(song_lines(&[first.clone()]), ["1234  X \u{2014} Radio"]);
    assert_eq!(folder_lines(&["Band".into()]), ["Band/"]);
    let mut songs = vec![first, second];
    keep_first(&mut songs, 5);
    assert_eq!(songs.len(), 2);
    keep_first(&mut songs, 1);
    assert_eq!(songs[0].pos, Some(1234));
    assert_eq!(songs.len(), 1);
}

#[test]
fn shows_and_episodes_are_listed_in_columns() {
    let show = Show {
        id: 1,
        name: "pod".into(),
        feed_url: "u".into(),
        title: Some("The Pod".into()),
        image_url: None,
        refreshed_at: None,
        episodes: 12,
        unplayed: 3,
    };
    assert_eq!(
        show_lines(&[show.clone()]),
        ["pod                    12 episodes,   3 new  The Pod"]
    );
    assert_eq!(
        subscribed_line(&show, 12),
        "The Pod subscribed: 12 episodes"
    );
    let untitled = Show {
        title: None,
        ..show
    };
    assert_eq!(
        show_lines(&[untitled.clone()]),
        ["pod                    12 episodes,   3 new  "]
    );
    assert_eq!(subscribed_line(&untitled, 0), "pod subscribed: 0 episodes");
    let mut episode = Episode {
        id: 42,
        show: "pod".into(),
        guid: "g".into(),
        title: "Ep".into(),
        url: "u".into(),
        media_type: None,
        published_at: None,
        duration_seconds: None,
        image_url: None,
        summary: None,
        position: 61_000,
        played: false,
        download_path: Some("p".into()),
    };
    assert_eq!(
        episode_lines(&[episode.clone()]),
        ["\u{2022}     42  Ep  at 1:01  [saved]"]
    );
    episode.played = true;
    episode.download_path = None;
    assert_eq!(episode_lines(&[episode.clone()]), ["      42  Ep"]);
    assert_eq!(playing_line(&episode), "playing Ep");
}

#[test]
fn changes_are_confirmed() {
    assert_eq!(saved_line("podcasts/a.mp3"), "saved to ~/music/podcasts/a.mp3");
    assert_eq!(removed_line(4), "removed episode 4's file");
    assert_eq!(forgotten_line("pod"), "unsubscribed from pod");
    assert_eq!(folder_to_update("podcasts/pod/a.mp3"), "podcasts/pod");
    assert_eq!(folder_to_update("a.mp3"), "a.mp3");
}

#[test]
fn the_daemon_notes_playing_episodes_only() {
    assert_eq!(
        note(&now("play", "Ep")),
        Some(Note {
            episode_id: 5,
            position: 61_000,
            played: true
        })
    );
    assert_eq!(note(&now("pause", "Ep")), None);
    let mut longer = now("play", "Ep");
    longer.duration = 122_000;
    assert!(!note(&longer).unwrap().played);
    longer.duration = 0;
    assert!(!note(&longer).unwrap().played, "no length is known");
    longer.podcast = None;
    assert_eq!(note(&longer), None);
}
