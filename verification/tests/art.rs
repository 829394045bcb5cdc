//! Covers: where they come from, and what they are kept under.
use mg_streamr::art::{
    album_of, cover, cover_files, key, key_from_hash, origin, settle, CoverEnd, CoverStep, Fetched,
    Origin,
};
use mg_streamr::player::{Now, PodcastRef};

fn now(file: Option<&str>, podcast_image: Option<&str>) -> Now {
    Now {
        state: "play".into(),
        elapsed: 0,
        duration: 0,
        volume: None,
        random: false,
        repeat: false,
        queue_length: 1,
        title: String::new(),
        artist: String::new(),
        album: String::new(),
        file: file.map(Into::into),
        podcast: podcast_image.map(|i| PodcastRef {
            episode_id: 1,
            show: "s".into(),
            image_url: Some(i.into()),
        }),
        art: None,
        at: 0,
    }
}

#[test]
fn keys_are_stable_and_an_album_shares_one_cover() {
    assert_eq!(key("a"), key("a"));
    assert_ne!(key("a"), key("b"));
    assert_eq!(key("a").len(), 32);
    assert_eq!(album_of("Band/Album/01 - x.flac"), "Band/Album");
    assert_eq!(
        origin(&now(Some("Band/Album/1.flac"), None)),
        Some(Origin::Library("Band/Album/1.flac".into()))
    );
    assert!(
        origin(&now(Some("https://radio.example/live"), None)).is_none(),
        "streams have no cover"
    );
    assert_eq!(
        origin(&now(Some("https://cdn/e.mp3"), Some("https://cdn/e.jpg"))),
        Some(Origin::Web("https://cdn/e.jpg".into()))
    );
}

#[test]
fn keys_are_the_start_of_the_hash() {
    assert_eq!(key("a"), "ca978112ca1bbdcafac231b39a23dc4d");
    assert_eq!(key_from_hash(&[0x00, 0x9f, 0xa0, 0xff]), "009fa0ff");
    assert_eq!(key_from_hash(&[1; 32]).len(), 32);
    assert!(key("b")
        .chars()
        .all(|c| c.is_ascii_digit() || ('a'..='f').contains(&c)));
}

#[test]
fn songs_of_one_album_are_kept_under_one_name() {
    let one = cover_files(&now(Some("Band/Album/1.flac"), None)).unwrap();
    let two = cover_files(&now(Some("Band/Album/2.flac"), None)).unwrap();
    assert_eq!(one.name, "6a527cf372e372840b566d812da743cb");
    assert_eq!(one.name, two.name);
    assert_eq!(one.none, format!("{}.none", one.name));
    assert_eq!(one.part, format!(".{}.part", one.name));
    let web = cover_files(&now(None, Some("a"))).unwrap();
    assert_eq!(web.name, key("a"));
    assert_eq!(album_of("loose.flac"), "loose.flac");
}

#[test]
fn an_episode_without_a_picture_has_no_cover() {
    let mut n = now(Some("Band/Album/1.flac"), Some("x"));
    n.podcast = n.podcast.map(|p| PodcastRef {
        image_url: None,
        ..p
    });
    assert!(cover_files(&n).is_none());
    assert!(cover_files(&now(None, None)).is_none());
}

#[test]
fn a_cover_is_asked_for_once() {
    let library = cover_files(&now(Some("a/b.flac"), None)).unwrap();
    assert_eq!(cover(&library, true, true), CoverStep::Use);
    assert_eq!(cover(&library, false, true), CoverStep::NoCover);
    assert_eq!(
        cover(&library, false, false),
        CoverStep::AskMpd("a/b.flac".into())
    );
    let web = cover_files(&now(None, Some("https://x/p.jpg"))).unwrap();
    assert_eq!(
        cover(&web, false, false),
        CoverStep::Download("https://x/p.jpg".into())
    );
    assert_eq!(settle(Fetched::Downloaded), CoverEnd::Use);
    assert_eq!(settle(Fetched::NotDownloaded), CoverEnd::MarkNone);
    assert_eq!(settle(Fetched::NoPicture), CoverEnd::MarkNone);
    assert_eq!(
        settle(Fetched::Picture(vec![1, 2])),
        CoverEnd::Save(vec![1, 2])
    );
    assert_eq!(
        settle(Fetched::Failed("gone".into())),
        CoverEnd::Fail("gone".into()),
        "no marker: ask again next time"
    );
}

#[test]
fn a_second_song_of_an_album_asks_mpd_nothing() {
    let one = cover_files(&now(Some("Band/Album/1.flac"), None)).unwrap();
    let two = cover_files(&now(Some("Band/Album/2.flac"), None)).unwrap();
    for fetched in [Fetched::Picture(vec![1]), Fetched::NoPicture] {
        let mut cache: Vec<String> = Vec::new();
        let holds = |cache: &[String], name: &String| cache.contains(name);
        assert_eq!(
            cover(&one, holds(&cache, &one.name), holds(&cache, &one.none)),
            CoverStep::AskMpd("Band/Album/1.flac".into())
        );
        let wanted = match settle(fetched) {
            CoverEnd::Save(_) => {
                cache.push(one.name.clone());
                CoverStep::Use
            }
            _ => {
                cache.push(one.none.clone());
                CoverStep::NoCover
            }
        };
        assert_eq!(
            cover(&two, holds(&cache, &two.name), holds(&cache, &two.none)),
            wanted
        );
    }
}
