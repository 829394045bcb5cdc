//! Podcasts: which entries are episodes, where they resume, and where their files go.
use mg_streamr::moment::Moment;
use mg_streamr::podcast::{
    download, download_path, download_plan, episodes_from, finish_subscription, is_played, play,
    play_step, progress, record_download, record_removal, refresh, refresh_names, removable,
    remove_download, removal_plan, resume_from, save_fetched, subscribe, Enclosure, FeedEntry,
    ParsedFeed, PlayStage, PlayStep, PodcastError, Removal,
};
use mg_streamr::store::{Episode, Store, StoreError};

const AT: &str = "2026-09-19T08:00:00+00:00";

fn entry(title: &str, guid: Option<&str>, file: Option<(&str, Option<&str>)>) -> FeedEntry {
    FeedEntry {
        guid: guid.map(Into::into),
        title: title.into(),
        enclosure: file.map(|(url, media_type)| Enclosure {
            url: url.into(),
            media_type: media_type.map(Into::into),
        }),
        published: None,
        duration_seconds: None,
        image_url: None,
        summary: None,
    }
}

fn feed() -> ParsedFeed {
    let mut first = entry(
        "Ep \u{2019}1",
        Some("g1"),
        Some(("https://cdn.example/1.mp3", Some("audio/mpeg"))),
    );
    first.duration_seconds = Some(1800);
    first.published = Some(Moment {
        seconds: 1_789_725_600,
        nanos: 0,
    });
    ParsedFeed {
        title: Some("Show".into()),
        image_url: Some("https://cdn.example/cover.jpg".into()),
        entries: vec![
            first,
            entry("Blog post", Some("g2"), None),
            entry(
                "Bad file",
                Some("g3"),
                Some(("file:///etc/passwd", Some("audio/mpeg"))),
            ),
            entry(
                "Transcript",
                Some("g4"),
                Some(("https://cdn.example/4.pdf", Some("application/pdf"))),
            ),
            entry(
                "No guid",
                None,
                Some(("https://cdn.example/5.m4a", Some("audio/x-m4a"))),
            ),
        ],
    }
}

fn ep(title: &str, media: Option<&str>, url: &str) -> Episode {
    Episode {
        id: 42,
        show: "late-show".into(),
        guid: "g".into(),
        title: title.into(),
        url: url.into(),
        media_type: media.map(Into::into),
        published_at: None,
        duration_seconds: None,
        image_url: None,
        summary: None,
        position: 0,
        played: false,
        download_path: None,
    }
}

#[test]
fn only_http_audio_or_video_entries_become_episodes() {
    let eps = episodes_from(&feed());
    assert_eq!(eps.len(), 2, "blog post, file:// and pdf are dropped");
    assert_eq!(eps[0].title, "Ep \u{2019}1");
    assert_eq!(eps[0].duration_seconds, Some(1800));
    assert!(eps[0].published_at.is_some());
    assert_eq!(
        eps[0].published_at.as_deref(),
        Some("2026-09-18T10:00:00+00:00")
    );
    assert_eq!(
        eps[1].guid, eps[1].url,
        "no guid → the file is the identity"
    );
}

#[test]
fn moments_that_cannot_be_written_are_left_out() {
    let far = Moment {
        seconds: i64::MAX,
        nanos: 0,
    };
    assert!(far.write().is_none());
    let half = Moment {
        seconds: 0,
        nanos: 500_000_000,
    };
    assert_eq!(
        half.write().as_deref(),
        Some("1970-01-01T00:00:00.500+00:00")
    );
}

#[test]
fn a_type_that_the_feed_does_not_say_is_played_and_case_does_not_matter() {
    let feed = ParsedFeed {
        title: None,
        image_url: None,
        entries: vec![
            entry("a", None, Some(("http://x/a", None))),
            entry("b", None, Some(("https://x/b", Some("VIDEO/mp4")))),
            entry("c", None, Some(("https://x/c", Some("text/html")))),
            entry("d", None, Some(("ftp://x/d", None))),
        ],
    };
    let titles: Vec<String> = episodes_from(&feed).into_iter().map(|e| e.title).collect();
    assert_eq!(titles, ["a", "b"]);
}

#[test]
fn resume_skips_the_first_seconds_and_the_last_minute() {
    assert_eq!(resume_from(5_000, Some(1800)), None);
    assert_eq!(resume_from(600_000, Some(1800)), Some(600_000));
    assert_eq!(
        resume_from(1_760_000, Some(1800)),
        None,
        "heard: start over"
    );
    assert!(is_played(1_745_000, Some(1800)));
    assert!(
        !is_played(1_000_000, None),
        "no length, never counted as heard"
    );
}

#[test]
fn the_edges_of_resuming() {
    assert_eq!(resume_from(9_999, None), None);
    assert_eq!(resume_from(10_000, None), Some(10_000));
    assert_eq!(resume_from(1_739_999, Some(1800)), Some(1_739_999));
    assert_eq!(resume_from(1_740_000, Some(1800)), None);
    assert!(!is_played(10, Some(0)));
    assert!(!is_played(i64::MAX, Some(i64::MAX)));
}

#[test]
fn only_a_playing_episode_is_noted() {
    assert_eq!(progress("play", 61_000, Some(120)), Some((61_000, true)));
    assert_eq!(progress("play", 59_000, Some(120)), Some((59_000, false)));
    assert_eq!(progress("pause", 61_000, Some(120)), None);
    assert_eq!(progress("stop", 0, None), None);
}

#[test]
fn download_names_are_made_here_not_taken_from_the_feed() {
    assert_eq!(
        download_path(&ep(
            "Episode 12: Hello, World!",
            Some("audio/mpeg"),
            "https://x/a"
        )),
        "podcasts/late-show/42-episode-12-hello-world.mp3"
    );
    assert_eq!(
        download_path(&ep("../../etc", None, "https://x/f.OGG?t=1")),
        "podcasts/late-show/42-etc.ogg"
    );
    assert_eq!(
        download_path(&ep("!!!", None, "https://x/noext")),
        "podcasts/late-show/42-episode.mp3"
    );
    assert_eq!(
        download_path(&ep("x", None, "https://x/evil.sh;rm")),
        "podcasts/late-show/42-x.mp3",
        "odd extensions fall back"
    );
}

#[test]
fn extensions_go_by_type_first() {
    let ext = |media: &str, url: &str| {
        let path = download_path(&ep("x", Some(media), url));
        path.rsplit_once('.').unwrap().1.to_string()
    };
    for (media, wanted) in [
        ("audio/MPEG", "mp3"),
        ("audio/mp3", "mp3"),
        ("audio/mp4", "m4a"),
        ("audio/x-m4a", "m4a"),
        ("audio/aac", "m4a"),
        ("audio/ogg", "ogg"),
        ("audio/vorbis", "ogg"),
        ("audio/opus", "opus"),
        ("audio/flac", "flac"),
        ("audio/x-flac", "flac"),
        ("video/mp4", "mp4"),
        ("video/webm", "webm"),
    ] {
        assert_eq!(ext(media, "https://x/y.wav"), wanted);
    }
    assert_eq!(ext("audio/wav", "https://x/y.wav#t"), "wav");
    assert_eq!(ext("audio/wav", "https://x/y.toolong"), "mp3");
    assert_eq!(ext("audio/wav", "https://x.com/"), "mp3");
    for bare in ["https://example.com", "https://example.com?a=/b.ogg"] {
        let path = download_path(&ep("x", None, bare));
        assert_eq!(path, "podcasts/late-show/42-x.mp3", "a host is no file");
    }
    assert_eq!(ext("audio/wav", "https://example.com/a.b/c.ogg"), "ogg");
    assert_eq!(ext("audio/wav", "https://example.com/a.b/c"), "mp3");
}

#[test]
fn slugs_are_cut_and_never_end_in_a_dash() {
    let slug = |title: &str| {
        let path = download_path(&ep(title, None, "https://x/y"));
        let name = path.rsplit_once('/').unwrap().1.to_string();
        name.strip_prefix("42-")
            .unwrap()
            .strip_suffix(".mp3")
            .unwrap()
            .to_string()
    };
    assert_eq!(slug(&"ab ".repeat(40)), format!("{}ab", "ab-".repeat(19)));
    assert_eq!(slug("--A  B--"), "a-b");
    assert_eq!(slug("\u{e9}t\u{e9}"), "t");
    assert_eq!(slug(""), "episode");
    assert_eq!(slug("?! \u{e9}"), "episode");
    for title in ["Episode 12: Hello, World!", "--A  B--", &"ab ".repeat(40)] {
        assert_eq!(slug(&slug(title)), slug(title), "a slug's slug is itself");
    }
}

fn with_feed() -> Store {
    let mut store = Store::new();
    store
        .add_show("pod", "https://pod.example/feed", AT)
        .unwrap();
    store
        .save_feed("pod", None, None, &episodes_from(&feed()), AT)
        .unwrap();
    store
}

#[test]
fn removing_a_download_never_leaves_the_podcast_folder() {
    let mut store = with_feed();
    let id = store.episodes("pod", 10)[0].id;
    store.set_download(id, Some("podcasts/pod/a.mp3"));
    assert_eq!(removal_plan(&store, id).unwrap(), "podcasts/pod/a.mp3");
    remove_download(&mut store, id, Removal::Gone).unwrap();
    assert!(store.episode(id).unwrap().download_path.is_none());
    store.set_download(id, Some("podcasts/../../secret"));
    assert!(removal_plan(&store, id).is_err());
    assert!(remove_download(&mut store, id, Removal::Gone).is_err());
    store.set_download(id, Some("elsewhere/a.mp3"));
    let err = remove_download(&mut store, id, Removal::Gone).unwrap_err();
    assert_eq!(
        err.message(),
        "refusing to delete elsewhere/a.mp3: not a podcast download"
    );
    assert_eq!(
        store.episode(id).unwrap().download_path.as_deref(),
        Some("elsewhere/a.mp3"),
        "what is refused is not forgotten"
    );
}

#[test]
fn a_file_that_is_gone_is_forgotten_and_one_that_stays_is_not() {
    let mut store = with_feed();
    let err = removal_plan(&store, 1).unwrap_err();
    assert_eq!(err, PodcastError::NotDownloaded(1));
    assert_eq!(err.message(), "episode 1 is not downloaded");
    store.set_download(1, Some("podcasts/pod/a.mp3"));
    let err = remove_download(&mut store, 1, Removal::Failed("denied".into())).unwrap_err();
    assert_eq!(err.message(), "denied");
    assert!(store.episode(1).unwrap().download_path.is_some());
    remove_download(&mut store, 1, Removal::Missing).unwrap();
    assert!(store.episode(1).unwrap().download_path.is_none());
    assert_eq!(
        remove_download(&mut store, 9, Removal::Gone)
            .unwrap_err()
            .message(),
        "no episode 9"
    );
}

#[test]
fn a_download_is_recorded_played_and_removable() {
    let mut store = with_feed();
    let plan = download_plan(&store, 1).unwrap();
    assert_eq!(plan.url, "https://cdn.example/1.mp3");
    assert_eq!(plan.path, "podcasts/pod/1-ep-1.mp3");
    let err = download(&mut store, 1, Err("timed out".into())).unwrap_err();
    assert_eq!(err.message(), "downloading episode 1: timed out");
    assert!(store.episode(1).unwrap().download_path.is_none());
    assert_eq!(play(&store, 1).unwrap().uri, "https://cdn.example/1.mp3");
    assert_eq!(download(&mut store, 1, Ok(())).unwrap(), plan.path);
    let playback = play(&store, 1).unwrap();
    assert_eq!((playback.uri.as_str(), playback.seek), (plan.path.as_str(), None));
    assert!(removable(&plan.path));
    assert_eq!(store.episode_by_uri(&plan.path).unwrap().id, 1);
    store.set_position(1, 600_000, false);
    assert_eq!(play(&store, 1).unwrap().seek, Some(600_000));
    assert_eq!(
        play(&store, 8).unwrap_err(),
        PodcastError::Store(StoreError::NoEpisode(8))
    );
}

#[test]
fn a_show_with_two_dots_makes_downloads_that_can_be_removed() {
    let mut store = Store::new();
    subscribe(&mut store, "a..b", "https://n", Ok(feed()), AT).unwrap();
    let path = download(&mut store, 1, Ok(())).unwrap();
    assert_eq!(path, "podcasts/a..b/1-ep-1.mp3");
    assert_eq!(removal_plan(&store, 1).unwrap(), path);
    remove_download(&mut store, 1, Removal::Gone).unwrap();
    assert!(store.episode(1).unwrap().download_path.is_none());
    assert_eq!(
        remove_download(&mut store, 1, Removal::Gone).unwrap_err(),
        PodcastError::NotDownloaded(1)
    );
}

#[test]
fn only_pieces_that_go_up_are_refused() {
    for inside in ["podcasts/", "podcasts/a..b/c", "podcasts/..a", "podcasts/a/b.."] {
        assert!(removable(inside), "{inside}");
    }
    for outside in ["podcastsx/a", "podcasts", "podcasts/..", "podcasts/../a", "podcasts/a/../b"] {
        assert!(!removable(outside), "{outside}");
    }
}

#[test]
fn different_episodes_go_to_different_files() {
    let one = ep("Same", None, "https://x/y.mp3");
    let mut two = ep("Same", None, "https://x/y.mp3");
    two.id = -42;
    assert_ne!(download_path(&one), download_path(&two));
    two.id = 4;
    two.title = "2 Same".into();
    assert_eq!(download_path(&two), "podcasts/late-show/4-2-same.mp3");
    assert_ne!(download_path(&one), download_path(&two));
}

#[test]
fn a_refresh_reads_the_show_that_is_named_or_every_show() {
    let mut store = with_feed();
    store.add_show("a", "https://a", AT).unwrap();
    assert_eq!(refresh_names(&store, None), ["a", "pod"]);
    assert_eq!(refresh_names(&store, Some("x".into())), ["x"]);
    assert!(refresh_names(&Store::new(), None).is_empty());
}

#[test]
fn a_refresh_that_fails_changes_nothing() {
    let mut store = with_feed();
    let err = refresh(&mut store, "pod", Err("timed out".into()), AT).unwrap_err();
    assert_eq!(err.message(), "reading pod's feed: timed out");
    let empty = ParsedFeed {
        title: Some("New".into()),
        image_url: None,
        entries: vec![],
    };
    let err = refresh(&mut store, "pod", Ok(empty), AT).unwrap_err();
    assert_eq!(err.message(), "pod's feed has no audio or video episodes");
    assert!(store.show("pod").unwrap().title.is_none());
    assert_eq!(refresh(&mut store, "pod", Ok(feed()), AT).unwrap(), 0);
    assert_eq!(store.show("pod").unwrap().title.as_deref(), Some("Show"));
    assert_eq!(
        refresh(&mut store, "x", Ok(feed()), AT)
            .unwrap_err()
            .message(),
        "no show named x"
    );
}

#[test]
fn a_subscription_that_fails_leaves_nothing_behind() {
    let mut store = with_feed();
    let err = subscribe(&mut store, "new", "https://n", Err("no".into()), AT).unwrap_err();
    assert_eq!(err.message(), "reading new's feed: no");
    assert!(store.show("new").is_err());
    assert_eq!(store.show("pod").unwrap().episodes, 2, "others stay");
    let err = subscribe(&mut store, ".", "https://n", Ok(feed()), AT).unwrap_err();
    assert_eq!(err, PodcastError::Store(StoreError::BadName));
    let (show, added) = subscribe(&mut store, "new", "https://n", Ok(feed()), AT).unwrap();
    assert_eq!((show.name.as_str(), show.episodes, added), ("new", 2, 2));
    subscribe(&mut store, "new", "https://n", Err("no".into()), AT).unwrap_err();
    assert!(store.show("new").is_err(), "a known name is forgotten too");
    assert_eq!(store.show("pod").unwrap().episodes, 2);
}

#[test]
fn a_download_is_recorded_where_it_went() {
    let mut store = with_feed();
    let plan = download_plan(&store, 1).unwrap();
    let mut renamed = feed();
    renamed.entries[0].title = "Another title".into();
    save_fetched(&mut store, "pod", Ok(renamed), AT).unwrap();
    assert_ne!(download_plan(&store, 1).unwrap().path, plan.path);
    let err = record_download(&mut store, 1, &plan.path, Err("full".into())).unwrap_err();
    assert_eq!(err.message(), "downloading episode 1: full");
    assert!(store.episode(1).unwrap().download_path.is_none());
    assert_eq!(
        record_download(&mut store, 1, &plan.path, Ok(())).unwrap(),
        "podcasts/pod/1-ep-1.mp3"
    );
    assert_eq!(
        store.episode(1).unwrap().download_path.as_deref(),
        Some("podcasts/pod/1-ep-1.mp3")
    );
    assert!(store.episode(2).unwrap().download_path.is_none());
    store.forget("pod").unwrap();
    assert_eq!(
        record_download(&mut store, 1, &plan.path, Ok(())).unwrap(),
        plan.path,
        "the file is there, though the episode is not"
    );
    assert!(store.episode(1).is_err());
}

#[test]
fn a_removal_is_recorded_for_the_file_that_was_removed() {
    let mut store = with_feed();
    store.set_download(1, Some("podcasts/pod/a.mp3"));
    let err = record_removal(&mut store, 1, Removal::Failed("denied".into())).unwrap_err();
    assert_eq!(err, PodcastError::Disk("denied".into()));
    assert!(store.episode(1).unwrap().download_path.is_some());
    record_removal(&mut store, 1, Removal::Missing).unwrap();
    assert!(store.episode(1).unwrap().download_path.is_none());
    record_removal(&mut store, 1, Removal::Gone).unwrap();
    record_removal(&mut store, 8, Removal::Gone).unwrap();
}

#[test]
fn a_feed_that_was_fetched_is_saved_if_its_show_is_still_there() {
    let mut store = with_feed();
    assert_eq!(save_fetched(&mut store, "pod", Ok(feed()), AT).unwrap(), 0);
    assert_eq!(
        save_fetched(&mut store, "pod", Err("no".into()), AT)
            .unwrap_err()
            .message(),
        "reading pod's feed: no"
    );
    let mut silent = feed();
    silent.entries.clear();
    assert_eq!(
        save_fetched(&mut store, "pod", Ok(silent), AT)
            .unwrap_err()
            .message(),
        "pod's feed has no audio or video episodes"
    );
    store.forget("pod").unwrap();
    assert_eq!(
        save_fetched(&mut store, "pod", Ok(feed()), AT).unwrap_err(),
        PodcastError::Store(StoreError::NoShow("pod".into()))
    );
    assert_eq!(
        save_fetched(&mut store, "pod", Err("no".into()), AT)
            .unwrap_err()
            .message(),
        "reading pod's feed: no",
        "what went wrong first is what is said"
    );
}

#[test]
fn a_subscription_ends_with_its_feed_saved_or_its_show_forgotten() {
    let mut store = with_feed();
    store.add_show("new", "https://n", AT).unwrap();
    let (show, added) = finish_subscription(&mut store, "new", Ok(feed()), AT).unwrap();
    assert_eq!((show.name.as_str(), show.episodes, added), ("new", 2, 2));
    store.forget("new").unwrap();
    store.add_show("new", "https://n", AT).unwrap();
    let err = finish_subscription(&mut store, "new", Err("no".into()), AT).unwrap_err();
    assert_eq!(err.message(), "reading new's feed: no");
    assert!(store.show("new").is_err());
    assert_eq!(store.show("pod").unwrap().episodes, 2);
}

#[test]
fn playing_adds_starts_and_seeks() {
    let mut store = with_feed();
    store.set_position(1, 600_005, false);
    let playback = play(&store, 1).unwrap();
    let id = vec![("Id".to_string(), "17".to_string())];
    assert_eq!(
        play_step(&playback, PlayStage::Start, &[]),
        PlayStep::Run(
            "addid",
            vec!["https://cdn.example/1.mp3".into()],
            PlayStage::Added
        )
    );
    assert_eq!(
        play_step(&playback, PlayStage::Added, &id),
        PlayStep::Run("playid", vec!["17".into()], PlayStage::Started)
    );
    assert_eq!(
        play_step(&playback, PlayStage::Started, &[]),
        PlayStep::Run("seekcur", vec!["600.005".into()], PlayStage::Sought)
    );
    assert_eq!(
        play_step(&playback, PlayStage::Sought, &[]),
        PlayStep::Done
    );
}

#[test]
fn playing_from_the_start_does_not_seek_and_needs_an_id() {
    let playback = play(&with_feed(), 1).unwrap();
    assert_eq!(
        play_step(&playback, PlayStage::Started, &[]),
        PlayStep::Done
    );
    let other = vec![("id".to_string(), "17".to_string())];
    for reply in [&[], other.as_slice()] {
        assert_eq!(
            play_step(&playback, PlayStage::Added, reply),
            PlayStep::Failed(PodcastError::NotAdded)
        );
    }
    assert_eq!(PodcastError::NotAdded.message(), "mpd did not add it");
}
