//! The store: what is written is read back, and nothing else moves.
use mg_streamr::store::{
    check_journal, pending_migrations, row_writes, valid_name, Episode, EpisodeRow, NewEpisode,
    RowWrite, ShowRow, Store, StoreError,
};

const AT: &str = "2026-09-19T08:00:00+00:00";

fn ep(guid: &str, published: &str) -> NewEpisode {
    NewEpisode {
        guid: guid.into(),
        title: format!("Episode {guid}"),
        url: format!("https://cdn.example/{guid}.mp3"),
        media_type: Some("audio/mpeg".into()),
        published_at: Some(published.into()),
        duration_seconds: Some(1800),
        image_url: None,
        summary: None,
    }
}

fn guids(list: &[Episode]) -> Vec<&str> {
    list.iter().map(|e| e.guid.as_str()).collect()
}

#[test]
fn a_show_collects_episodes_newest_first_without_duplicates() {
    let mut store = Store::new();
    store
        .add_show("late-show", "https://pod.example/feed", AT)
        .unwrap();
    let added = store
        .save_feed(
            "late-show",
            Some("Late Show"),
            Some("https://cdn.example/c.jpg"),
            &[ep("1", "2026-09-01"), ep("2", "2026-09-08")],
            AT,
        )
        .unwrap();
    assert_eq!(added, 2);
    let again = store
        .save_feed(
            "late-show",
            None,
            None,
            &[ep("2", "2026-09-08"), ep("3", "2026-09-15")],
            AT,
        )
        .unwrap();
    assert_eq!(again, 1, "only episode 3 is new");
    let list = store.episodes("late-show", 10);
    assert_eq!(guids(&list), ["3", "2", "1"]);
    let show = store.show("late-show").unwrap();
    assert_eq!(
        (show.title.as_deref(), show.episodes, show.unplayed),
        (Some("Late Show"), 3, 3)
    );
}

#[test]
fn positions_and_downloads_survive_a_refresh_and_are_found_by_uri() {
    let mut store = Store::new();
    store
        .add_show("pod", "https://pod.example/feed", AT)
        .unwrap();
    store
        .save_feed("pod", None, None, &[ep("1", "2026-09-01")], AT)
        .unwrap();
    let id = store.episodes("pod", 1)[0].id;
    store.set_position(id, 612_500, false);
    store.set_download(id, Some("podcasts/pod/1.mp3"));
    store
        .save_feed("pod", None, None, &[ep("1", "2026-09-01")], AT)
        .unwrap();
    let e = store.episode(id).unwrap();
    assert_eq!(
        (e.position, e.download_path.as_deref()),
        (612_500, Some("podcasts/pod/1.mp3"))
    );
    assert_eq!(
        store
            .episode_by_uri("https://cdn.example/1.mp3")
            .unwrap()
            .id,
        id
    );
    assert_eq!(store.episode_by_uri("podcasts/pod/1.mp3").unwrap().id, id);
    assert!(store.episode_by_uri("other.mp3").is_none());
}

#[test]
fn names_are_folder_safe_and_forgetting_takes_the_episodes() {
    for bad in ["", ".hidden", "../up", "a/b", "sp ace", &"x".repeat(65)] {
        assert!(!valid_name(bad), "{bad:?}");
    }
    let mut store = Store::new();
    assert!(store.add_show("../up", "https://x", AT).is_err());
    store
        .add_show("pod", "https://pod.example/feed", AT)
        .unwrap();
    store
        .save_feed("pod", None, None, &[ep("1", "2026-09-01")], AT)
        .unwrap();
    store.forget("pod").unwrap();
    assert!(store.shows().is_empty());
    assert!(
        store.episode_by_uri("https://cdn.example/1.mp3").is_none(),
        "episodes went with the show"
    );
    assert!(store.forget("pod").is_err());
}

#[test]
fn reopening_keeps_data_and_a_newer_store_is_refused() {
    let mut first = Store::new();
    first.add_show("pod", "https://x", AT).unwrap();
    let store = Store::open(first.shows, first.episodes).unwrap();
    assert_eq!(store.shows().len(), 1);
    assert!(pending_migrations(1).unwrap().is_empty());
    let err = pending_migrations(2).unwrap_err();
    assert_eq!(err, StoreError::Newer);
    assert_eq!(
        err.message(),
        "this store was written by a newer mg-streamr"
    );
}

#[test]
fn an_empty_file_gets_the_first_schema() {
    let steps = pending_migrations(0).unwrap();
    assert_eq!(steps.len(), 1);
    assert_eq!(steps[0].version, 1);
    assert!(steps[0].sql.starts_with("CREATE TABLE shows"));
    assert!(steps[0].sql.contains("UNIQUE(show_id, guid)"));
}

#[test]
fn the_file_has_to_stay_in_wal_mode() {
    assert!(check_journal("wal").is_ok());
    assert!(check_journal("WAL").is_ok());
    let err = check_journal("delete").unwrap_err();
    assert_eq!(
        err.message(),
        "store could not switch to WAL (journal mode delete)"
    );
}

#[test]
fn records_that_contradict_each_other_are_refused() {
    let show = |id: i64, name: &str, feed: &str| ShowRow {
        id,
        name: name.into(),
        feed_url: feed.into(),
        title: None,
        image_url: None,
        added_at: AT.into(),
        refreshed_at: None,
    };
    let row = |id: i64, show_id: i64, guid: &str| EpisodeRow {
        id,
        show_id,
        about: ep(guid, "2026-09-01"),
        position: 0,
        played: false,
        download_path: None,
    };
    let two = || vec![show(1, "a", "u"), show(2, "b", "v")];
    assert!(Store::open(two(), vec![row(1, 1, "g"), row(2, 2, "g")]).is_ok());
    for (shows, episodes) in [
        (vec![show(1, "a", "u"), show(1, "b", "v")], vec![]),
        (vec![show(1, "a", "u"), show(2, "a", "v")], vec![]),
        (vec![show(1, "a", "u"), show(2, "b", "u")], vec![]),
        (two(), vec![row(1, 1, "g"), row(1, 2, "h")]),
        (two(), vec![row(1, 1, "g"), row(2, 1, "g")]),
    ] {
        match Store::open(shows, episodes) {
            Err(e) => assert_eq!(e, StoreError::Broken),
            Ok(_) => panic!("taken in"),
        }
    }
    assert_eq!(
        StoreError::Broken.message(),
        "the store's records contradict each other"
    );
}

#[test]
fn a_known_name_changes_its_feed_and_a_feed_belongs_to_one_show() {
    let mut store = Store::new();
    let first = store.add_show("b", "https://b", AT).unwrap();
    assert_eq!((first.id, first.episodes, first.unplayed), (1, 0, 0));
    let second = store.add_show("a", "https://a", AT).unwrap();
    assert_eq!(second.id, 2);
    let moved = store.add_show("b", "https://c", AT).unwrap();
    assert_eq!((moved.id, moved.feed_url.as_str()), (1, "https://c"));
    assert_eq!(
        store.add_show("b", "https://a", AT).unwrap_err(),
        StoreError::FeedTaken("https://a".into())
    );
    assert_eq!(
        store.add_show("c", "https://a", AT).unwrap_err().message(),
        "another show is read from https://a"
    );
    let names: Vec<String> = store.shows().into_iter().map(|s| s.name).collect();
    assert_eq!(names, ["a", "b"], "by name");
    assert_eq!(
        store.show("a").unwrap().feed_url,
        "https://a",
        "other shows stay as they are"
    );
}

#[test]
fn what_is_not_there_is_said_to_be_missing() {
    let mut store = Store::new();
    assert_eq!(store.show("x").unwrap_err().message(), "no show named x");
    assert_eq!(store.episode(7).unwrap_err().message(), "no episode 7");
    assert_eq!(
        store
            .save_feed("x", None, None, &[], AT)
            .unwrap_err()
            .message(),
        "no show named x"
    );
    assert_eq!(
        store.add_show("a b", "u", AT).unwrap_err().message(),
        "a show name is up to 64 letters, digits, dashes, underscores or dots"
    );
    assert!(store.episodes("x", 10).is_empty());
    store.set_position(7, 1, true);
    store.set_download(7, Some("p"));
    assert!(store.episodes.is_empty());
}

#[test]
fn positions_before_the_start_are_the_start() {
    let mut store = Store::new();
    store.add_show("pod", "u", AT).unwrap();
    store
        .save_feed(
            "pod",
            None,
            None,
            &[ep("1", "2026-09-01"), ep("2", "2026-09-01")],
            AT,
        )
        .unwrap();
    store.set_position(1, -5, true);
    let e = store.episode(1).unwrap();
    assert_eq!((e.position, e.played), (0, true));
    let other = store.episode(2).unwrap();
    assert_eq!((other.position, other.played), (0, false));
    let show = store.show("pod").unwrap();
    assert_eq!((show.episodes, show.unplayed), (2, 1));
    store.set_download(1, Some("p"));
    store.set_download(1, None);
    assert!(store.episode(1).unwrap().download_path.is_none());
}

#[test]
fn episodes_without_a_date_come_last_and_ties_go_to_the_later_id() {
    let mut store = Store::new();
    store.add_show("pod", "u", AT).unwrap();
    let mut undated = ep("undated", "");
    undated.published_at = None;
    store
        .save_feed(
            "pod",
            None,
            None,
            &[
                undated,
                ep("old", "2025-01-01"),
                ep("new", "2026-01-01"),
                ep("twin", "2025-01-01"),
            ],
            AT,
        )
        .unwrap();
    assert_eq!(
        guids(&store.episodes("pod", 10)),
        ["new", "twin", "old", "undated"]
    );
    assert_eq!(guids(&store.episodes("pod", 2)), ["new", "twin"]);
    assert_eq!(guids(&store.episodes("pod", 0)), ["new"], "at least one");
}

#[test]
fn a_refresh_keeps_the_title_that_a_feed_does_not_name() {
    let mut store = Store::new();
    store.add_show("pod", "u", AT).unwrap();
    store
        .save_feed("pod", Some("Pod"), Some("pic"), &[ep("1", "a")], "t1")
        .unwrap();
    let mut renamed = ep("1", "b");
    renamed.title = "Renamed".into();
    let added = store
        .save_feed("pod", None, Some("pic2"), &[renamed], "t2")
        .unwrap();
    assert_eq!(added, 0);
    let show = store.show("pod").unwrap();
    assert_eq!(
        (
            show.title.as_deref(),
            show.image_url.as_deref(),
            show.refreshed_at.as_deref()
        ),
        (Some("Pod"), Some("pic2"), Some("t2"))
    );
    assert_eq!(store.episode(1).unwrap().title, "Renamed");
}

#[test]
fn ids_run_out_at_the_largest() {
    let row = EpisodeRow {
        id: i64::MAX,
        show_id: 1,
        about: ep("g", "a"),
        position: 0,
        played: false,
        download_path: None,
    };
    let mut first = Store::new();
    first.add_show("pod", "u", AT).unwrap();
    let mut store = Store::open(first.shows, vec![row]).unwrap();
    let err = store
        .save_feed("pod", Some("t"), None, &[ep("h", "a")], AT)
        .unwrap_err();
    assert_eq!(err.message(), "the store has no more ids");
    assert!(store.show("pod").unwrap().title.is_none(), "nothing changed");
    assert_eq!(
        store
            .save_feed("pod", Some("t"), None, &[ep("g", "b")], AT)
            .unwrap(),
        0,
        "a known episode needs no id"
    );
}

#[test]
fn an_episode_whose_show_is_gone_is_left_out_of_answers() {
    let mut first = Store::new();
    first.add_show("pod", "u", AT).unwrap();
    first
        .save_feed("pod", None, None, &[ep("1", "a")], AT)
        .unwrap();
    let lost = EpisodeRow {
        id: 9,
        show_id: 7,
        about: ep("lost", "a"),
        position: 0,
        played: false,
        download_path: None,
    };
    let mut episodes = first.episodes;
    episodes.insert(0, lost);
    let store = Store::open(first.shows, episodes).unwrap();
    assert!(store.episode(9).is_err());
    assert!(store
        .episode_by_uri("https://cdn.example/lost.mp3")
        .is_none());
    assert_eq!(guids(&store.episodes("pod", 10)), ["1"]);
    assert_eq!(store.show("pod").unwrap().episodes, 1);
    assert_eq!(store.episode(1).unwrap().guid, "1");
}

/// Two stores with the same records.
fn twice(store: Store) -> (Store, Store) {
    let same = Store::open(store.shows.clone(), store.episodes.clone()).unwrap();
    (store, same)
}

#[test]
fn only_what_changed_is_written() {
    let mut store = Store::new();
    store.add_show("a", "u", AT).unwrap();
    store.add_show("b", "v", AT).unwrap();
    store
        .save_feed("a", None, None, &[ep("1", "x"), ep("2", "x")], AT)
        .unwrap();
    store
        .save_feed("b", None, None, &[ep("1", "x")], AT)
        .unwrap();
    let (before, mut after) = twice(store);
    assert!(row_writes(&before, &after).is_empty());
    after.set_position(2, 5, true);
    assert_eq!(
        row_writes(&before, &after),
        [RowWrite::PutEpisode(after.episodes[1].clone())]
    );
    after.forget("b").unwrap();
    assert_eq!(
        row_writes(&before, &after),
        [
            RowWrite::DropEpisode(3),
            RowWrite::DropShow(2),
            RowWrite::PutEpisode(after.episodes[1].clone()),
        ]
    );
    after.add_show("c", "w", AT).unwrap();
    assert_eq!(
        row_writes(&before, &after),
        [
            RowWrite::DropEpisode(3),
            RowWrite::PutShow(after.shows[1].clone()),
            RowWrite::PutEpisode(after.episodes[1].clone()),
        ],
        "the new show has the id of the one that is gone"
    );
}

#[test]
fn new_episodes_are_the_guids_that_were_missing() {
    let mut store = Store::new();
    store.add_show("pod", "u", AT).unwrap();
    store
        .save_feed("pod", None, None, &[ep("1", "a")], AT)
        .unwrap();
    let feed = [ep("2", "a"), ep("1", "a"), ep("2", "b"), ep("3", "a")];
    assert_eq!(store.save_feed("pod", None, None, &feed, AT).unwrap(), 2);
    assert_eq!(store.show("pod").unwrap().episodes, 3);
    assert_eq!(
        store.episode(2).unwrap().published_at.as_deref(),
        Some("b"),
        "the feed's last word"
    );
}
