//! What is playing, put together for display.
use mg_streamr::mpd::{Song, Status};
use mg_streamr::player::{clock, compose, now};
use mg_streamr::store::{Episode, NewEpisode, Store};

fn song(file: &str, title: Option<&str>) -> Song {
    Song {
        file: file.into(),
        title: title.map(Into::into),
        artist: Some("Artist".into()),
        ..Default::default()
    }
}

fn playing(duration: i64) -> Status {
    Status {
        state: "play".into(),
        elapsed: 12_000,
        duration,
        ..Default::default()
    }
}

fn episode() -> Episode {
    Episode {
        id: 5,
        show: "late-show".into(),
        guid: "g".into(),
        title: "Ep 1".into(),
        url: "https://cdn.example/1.mp3".into(),
        media_type: None,
        published_at: None,
        duration_seconds: Some(1800),
        image_url: None,
        summary: None,
        position: 0,
        played: false,
        download_path: None,
    }
}

#[test]
fn songs_fall_back_to_the_file_name_and_podcasts_show_their_show() {
    let n = compose(
        playing(200_000),
        Some(song("music/Band/01 - Song.flac", Some("Song"))),
        None,
        1,
    );
    assert_eq!((n.title.as_str(), n.artist.as_str()), ("Song", "Artist"));
    let untagged = compose(
        playing(200_000),
        Some(song("https://radio.example/live?x=1", None)),
        None,
        1,
    );
    assert_eq!(untagged.title, "live");
    let pod = compose(
        playing(0),
        Some(song("https://cdn.example/1.mp3", None)),
        Some((episode(), Some("The Late Show".into()))),
        1,
    );
    assert_eq!(
        (pod.title.as_str(), pod.artist.as_str()),
        ("Ep 1", "The Late Show")
    );
    assert_eq!(
        pod.duration, 1_800_000,
        "a stream's length comes from the feed"
    );
    assert_eq!(pod.podcast.unwrap().episode_id, 5);
}

#[test]
fn clocks_read_like_a_player() {
    assert_eq!(clock(187_000), "3:07");
    assert_eq!(clock(3_723_000), "1:02:03");
    assert_eq!(clock(-5_000), "0:00");
}

#[test]
fn clocks_show_whole_seconds() {
    assert_eq!(clock(59_999), "0:59");
    assert_eq!(clock(60_000), "1:00");
    assert_eq!(clock(3_599_999), "59:59");
    assert_eq!(clock(360_000_000), "100:00:00");
}

#[test]
fn names_come_from_the_last_piece_of_a_path() {
    let title = |file: &str| compose(playing(0), Some(song(file, None)), None, 1).title;
    assert_eq!(title("Band #1/Song.flac"), "Song.flac");
    assert_eq!(title("a/b/What? #2.mp3"), "What? #2.mp3");
    assert_eq!(title("https://x/a/b.mp3#x"), "b.mp3");
    assert_eq!(title("https://radio.example/live/"), "live");
    assert_eq!(title("///"), "///");
    assert_eq!(title("?q"), "?q");
    let mut station = song("https://radio.example/live", None);
    station.name = Some("Radio".into());
    assert_eq!(compose(playing(0), Some(station), None, 1).title, "Radio");
}

#[test]
fn nothing_playing_is_empty() {
    let n = compose(Status::default(), None, None, 7);
    assert_eq!((n.title.as_str(), n.artist.as_str(), n.at), ("", "", 7));
    assert!(n.file.is_none() && n.podcast.is_none() && n.art.is_none());
}

#[test]
fn an_episode_without_a_show_title_shows_the_shows_name() {
    let mut e = episode();
    e.duration_seconds = Some(i64::MAX);
    let n = compose(playing(0), None, Some((e, None)), 1);
    assert_eq!(n.artist, "late-show");
    assert_eq!(n.duration, i64::MAX, "as far as a time can be held");
    let known = compose(playing(5_000), None, Some((episode(), None)), 1);
    assert_eq!(known.duration, 5_000, "mpd's word comes first");
}

#[test]
fn the_store_recognises_an_episode_by_what_is_playing() {
    let mut store = Store::new();
    store.add_show("pod", "u", "t").unwrap();
    let about = NewEpisode {
        guid: "g".into(),
        title: "Ep".into(),
        url: "https://cdn.example/1.mp3".into(),
        media_type: None,
        published_at: None,
        duration_seconds: Some(60),
        image_url: Some("https://cdn.example/1.jpg".into()),
        summary: None,
    };
    store
        .save_feed("pod", Some("The Pod"), None, &[about], "t")
        .unwrap();
    let n = now(
        playing(0),
        Some(song("https://cdn.example/1.mp3", Some("tag"))),
        Some(&store),
        3,
    );
    assert_eq!(
        (n.title.as_str(), n.artist.as_str(), n.duration),
        ("Ep", "The Pod", 60_000)
    );
    assert_eq!(
        n.podcast.unwrap().image_url.as_deref(),
        Some("https://cdn.example/1.jpg")
    );
    let other = now(
        playing(0),
        Some(song("a.mp3", Some("tag"))),
        Some(&store),
        3,
    );
    assert_eq!(other.title, "tag");
    let alone = now(
        playing(0),
        Some(song("https://cdn.example/1.mp3", Some("tag"))),
        None,
        3,
    );
    assert_eq!(alone.title, "tag");
}

#[test]
fn a_clock_reads_back_as_whole_seconds() {
    for millis in [0, 999, 59_999, 187_400, 3_599_999, 3_600_000, 360_061_001] {
        let read = clock(millis)
            .split(':')
            .fold(0, |sum: i64, field| sum * 60 + field.parse::<i64>().unwrap());
        assert_eq!(read, millis / 1000);
    }
}
