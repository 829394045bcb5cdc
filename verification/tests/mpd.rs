//! mpd's protocol, against a scripted conversation.
use mg_streamr::mpd::{
    default_address, parse_songs, parse_status, quote, Address, Mpd, MpdError, PictureProgress,
    Progress, MAX_PICTURE_BYTES,
};

/// A conversation that has been greeted.
fn greeted() -> Mpd {
    let mut mpd = Mpd::new();
    mpd.receive(b"OK MPD 0.24.0\n");
    match mpd.connect(None) {
        Progress::Done(None) => mpd,
        _ => panic!("not greeted"),
    }
}

/// The line that was to be sent, without its line break.
fn sent(line: Result<String, MpdError>) -> String {
    let line = line.unwrap();
    assert!(line.ends_with('\n'));
    line.trim_end().to_string()
}

fn done<T>(progress: Progress<T>) -> T {
    match progress {
        Progress::Done(t) => t,
        Progress::More => panic!("more is needed"),
        Progress::Failed(e) => panic!("{}", e.message()),
    }
}

fn failed<T>(progress: Progress<T>) -> MpdError {
    match progress {
        Progress::Failed(e) => e,
        _ => panic!("did not fail"),
    }
}

fn pairs(of: &[(&str, &str)]) -> Vec<(String, String)> {
    of.iter()
        .map(|(k, v)| (k.to_string(), v.to_string()))
        .collect()
}

#[test]
fn arguments_are_quoted_and_line_breaks_refused() {
    assert_eq!(quote(r#"a "b" \c"#).unwrap(), r#""a \"b\" \\c""#);
    assert!(
        quote("song\nclear").is_err(),
        "a newline would start a second command"
    );
}

#[test]
fn status_and_songs_parse_and_an_ack_becomes_an_error() {
    let mut mpd = greeted();
    assert_eq!(mpd.version, "0.24.0");
    assert_eq!(sent(mpd.run("status", &[])), "status");
    mpd.receive(b"volume: -1\nrandom: 1\nstate: play\nsong: 2\nelapsed: 12.5\nduration: 300.0\nplaylistlength: 3\nOK\n");
    let status = done(mpd.status());
    assert_eq!(
        (
            status.state.as_str(),
            status.song,
            status.elapsed,
            status.volume
        ),
        ("play", Some(2), 12_500, None)
    );
    assert!(status.random && !status.repeat);
    assert_eq!(sent(mpd.run("playlistinfo", &[])), "playlistinfo");
    mpd.receive(b"file: a.mp3\nTitle: A\nArtist: X\nPos: 0\nId: 7\nfile: http://pod/ep.mp3\nName: Show\nPos: 1\nOK\n");
    let queue = done(mpd.queue());
    assert_eq!(queue.len(), 2);
    assert_eq!(
        (queue[0].title.as_deref(), queue[0].id),
        (Some("A"), Some(7))
    );
    assert_eq!(queue[1].name.as_deref(), Some("Show"));
    assert_eq!(sent(mpd.run("play", &["9"])), r#"play "9""#);
    mpd.receive(b"ACK [2@0] {play} Bad song index\n");
    let err = failed(mpd.read_reply());
    assert_eq!(err.message(), "mpd: Bad song index");
}

#[test]
fn pictures_are_read_in_chunks_with_albumart_as_fallback() {
    let mut mpd = greeted();
    assert_eq!(
        sent(mpd.picture("x.flac")),
        r#"readpicture "x.flac" "0""#
    );
    mpd.receive(b"size: 6\ntype: image/png\nbinary: 4\n");
    mpd.receive(b"\x89PNG\nOK\n");
    match mpd.read_picture() {
        PictureProgress::Send(line) => assert_eq!(line.trim_end(), r#"readpicture "x.flac" "4""#),
        _ => panic!("the picture goes on"),
    }
    mpd.receive(b"size: 6\ntype: image/png\nbinary: 2\n");
    assert!(matches!(mpd.read_picture(), PictureProgress::More));
    mpd.receive(b"ab\nOK\n");
    match mpd.read_picture() {
        PictureProgress::Done(Some(bytes)) => assert_eq!(bytes, b"\x89PNGab"),
        _ => panic!("the picture is whole"),
    }
    assert_eq!(sent(mpd.picture("y.mp3")), r#"readpicture "y.mp3" "0""#);
    mpd.receive(b"OK\n");
    match mpd.read_picture() {
        PictureProgress::Send(line) => assert_eq!(line.trim_end(), r#"albumart "y.mp3" "0""#),
        _ => panic!("the folder is next"),
    }
    mpd.receive(b"ACK [50@0] {albumart} No file exists\n");
    assert!(
        matches!(mpd.read_picture(), PictureProgress::Done(None)),
        "no embedded picture and no cover file"
    );
}

#[test]
fn idle_reports_what_changed() {
    let mut mpd = greeted();
    assert_eq!(sent(mpd.idle(&["player", "mixer"])), "idle player mixer");
    mpd.receive(b"changed: player\n");
    assert!(matches!(mpd.read_changes(), Progress::More));
    mpd.receive(b"changed: mixer\nOK\n");
    assert_eq!(done(mpd.read_changes()), ["player", "mixer"]);
    let refused = mpd.idle(&["player; clear"]).unwrap_err();
    assert_eq!(refused.message(), "not an mpd subsystem: player; clear");
}

#[test]
fn something_that_is_not_mpd_is_refused() {
    let mut mpd = Mpd::new();
    mpd.receive(b"HTTP/1.1 400 Bad Request\n");
    let err = failed(mpd.connect(None));
    assert_eq!(err, MpdError::NotMpd);
    assert_eq!(err.message(), "that is not mpd");
}

#[test]
fn a_password_is_sent_after_the_greeting() {
    let mut mpd = Mpd::new();
    assert!(matches!(mpd.connect(Some("se\"cret")), Progress::More));
    mpd.receive(b"OK MPD 0.23.5\n");
    match mpd.connect(Some("se\"cret")) {
        Progress::Done(Some(line)) => assert_eq!(line, "password \"se\\\"cret\"\n"),
        _ => panic!("the password is next"),
    }
    assert_eq!(mpd.version, "0.23.5");
    let mut other = Mpd::new();
    other.receive(b"OK MPD 0.23.5\n");
    assert_eq!(failed(other.connect(Some("a\nb"))), MpdError::LineBreak);
}

#[test]
fn no_argument_can_hold_a_second_command() {
    let mut mpd = greeted();
    let err = mpd.run("add", &["a", "b\rclear"]).unwrap_err();
    assert_eq!(err, MpdError::LineBreak);
    assert_eq!(err.message(), "an mpd argument cannot contain a line break");
    assert_eq!(mpd.picture("a\nb").unwrap_err(), MpdError::LineBreak);
    assert_eq!(
        mpd.run("search", &["any", "x \"y\""]).unwrap(),
        "search \"any\" \"x \\\"y\\\"\"\n"
    );
}

#[test]
fn replies_read_the_same_however_they_arrive() {
    let whole = b"state: play\nelapsed: 1.5\nOK\n";
    let mut mpd = greeted();
    mpd.run("status", &[]).unwrap();
    for (i, b) in whole.iter().enumerate() {
        mpd.receive(&[*b]);
        if i + 1 < whole.len() {
            assert!(matches!(mpd.read_reply(), Progress::More));
        }
    }
    let reply = done(mpd.read_reply());
    assert_eq!(reply, pairs(&[("state", "play"), ("elapsed", "1.5")]));
    assert!(mpd.inbox.is_empty());
}

#[test]
fn a_connection_that_ends_is_reported() {
    let mut mpd = greeted();
    mpd.run("status", &[]).unwrap();
    mpd.receive(b"state: play\n");
    mpd.end();
    let err = failed(mpd.status());
    assert_eq!(err, MpdError::Closed);
    assert_eq!(err.message(), "mpd closed the connection");
}

#[test]
fn a_line_that_is_not_text_is_refused() {
    let mut mpd = greeted();
    mpd.run("status", &[]).unwrap();
    mpd.receive(b"state: \xff\xfe\nOK\n");
    assert_eq!(failed(mpd.read_reply()), MpdError::Garbled);
}

#[test]
fn odd_pictures_are_refused() {
    let ask = |reply: &[u8]| {
        let mut mpd = greeted();
        mpd.picture("x").unwrap();
        mpd.receive(reply);
        match mpd.read_picture() {
            PictureProgress::Failed(e) => e,
            _ => panic!("not refused"),
        }
    };
    assert_eq!(ask(b"size: 4\nbinary: x\n"), MpdError::BadLength);
    assert_eq!(ask(b"binary: 4\n"), MpdError::NoSize);
    assert_eq!(ask(b"size: 99999999\nbinary: 4\n"), MpdError::TooLarge);
    assert_eq!(
        ask(b"size: 4\nbinary: 4\nabcd\nnot OK\n"),
        MpdError::AfterPicture
    );
    let mut mpd = greeted();
    mpd.picture("x").unwrap();
    mpd.receive(b"size: 4\nbinary: 4\nab");
    mpd.end();
    match mpd.read_picture() {
        PictureProgress::Failed(e) => {
            assert_eq!(e, MpdError::CutShort);
            assert_eq!(e.message(), "failed to fill whole buffer");
        }
        _ => panic!("not refused"),
    }
    assert_eq!(MAX_PICTURE_BYTES, 10 * 1024 * 1024);
    assert_eq!(
        MpdError::TooLarge.message(),
        "the picture is larger than 10485760 bytes"
    );
}

#[test]
fn a_cover_larger_than_the_limit_is_refused_however_it_is_cut() {
    let most = 10 * 1024 * 1024;
    let chunk = |total: usize, length: usize| {
        let mut reply = format!("size: {total}\nbinary: {length}\n").into_bytes();
        reply.extend(vec![7u8; length]);
        reply.extend_from_slice(b"\nOK\n");
        reply
    };
    for (second, fits) in [(1, true), (2, false)] {
        let mut mpd = greeted();
        mpd.picture("x").unwrap();
        mpd.receive(&chunk(most, most - 1));
        assert!(matches!(mpd.read_picture(), PictureProgress::Send(_)));
        mpd.receive(&chunk(most, second));
        match mpd.read_picture() {
            PictureProgress::Done(Some(bytes)) => assert!(fits && bytes.len() == most),
            PictureProgress::Failed(e) => assert!(!fits && e == MpdError::TooLarge),
            _ => panic!("neither whole nor refused"),
        }
        assert!(mpd.picture.is_none());
    }
}

#[test]
fn an_empty_chunk_does_not_loop_forever() {
    let mut mpd = greeted();
    mpd.picture("x").unwrap();
    mpd.receive(b"size: 4\nbinary: 0\n\nOK\n");
    match mpd.read_picture() {
        PictureProgress::Send(line) => assert_eq!(line, "albumart \"x\" \"0\"\n"),
        _ => panic!("the folder is next"),
    }
    mpd.receive(b"size: 4\nbinary: 0\n\nOK\n");
    assert!(matches!(mpd.read_picture(), PictureProgress::Done(None)));
}

#[test]
fn the_first_song_is_the_current_one() {
    let mut mpd = greeted();
    mpd.run("currentsong", &[]).unwrap();
    mpd.receive(b"file: a.flac\nTitle: A\nduration: 10.25\nOK\n");
    let song = done(mpd.current_song()).unwrap();
    assert_eq!(
        (song.file.as_str(), song.title.as_deref(), song.duration),
        ("a.flac", Some("A"), Some(10_250))
    );
    mpd.run("currentsong", &[]).unwrap();
    mpd.receive(b"OK\n");
    assert!(done(mpd.current_song()).is_none());
}

#[test]
fn missing_and_odd_values_read_as_none() {
    let status = parse_status(&pairs(&[
        ("elapsed", "nan"),
        ("duration", "1e1"),
        ("song", "-1"),
        ("volume", "70"),
        ("error", "no output"),
    ]));
    assert_eq!(status.state, "stop");
    assert_eq!((status.elapsed, status.duration), (0, 10_000));
    assert_eq!((status.song, status.volume), (None, Some(70)));
    assert_eq!(status.error.as_deref(), Some("no output"));
    let songs = parse_songs(&pairs(&[
        ("Title", "lost"),
        ("file", "a"),
        ("Pos", "x"),
        ("file", "b"),
        ("Album", "B"),
    ]));
    assert_eq!(songs.len(), 2);
    assert_eq!((songs[0].title.as_deref(), songs[0].pos), (None, None));
    assert_eq!(songs[1].album.as_deref(), Some("B"));
}

#[test]
fn mpd_is_found_where_it_is_said_to_be() {
    let socket = |s: &str| Address::Socket(s.to_string());
    let tcp = |s: &str| Address::Tcp(s.to_string());
    assert_eq!(
        default_address(Some("secret@/run/mpd"), None, None),
        (socket("/run/mpd"), Some("secret".to_string()))
    );
    assert_eq!(
        default_address(Some("pi"), Some("6601"), Some("/run/s")),
        (tcp("pi:6601"), None)
    );
    assert_eq!(
        default_address(Some("pi"), None, None),
        (tcp("pi:6600"), None)
    );
    assert_eq!(
        default_address(Some(""), None, Some("/run/s")),
        (socket("/run/s"), None)
    );
    assert_eq!(
        default_address(None, Some("1"), None),
        (tcp("127.0.0.1:6600"), None)
    );
    let (mpd, address, password) = Mpd::connect_default(Some("a@b@host"), None, None);
    assert_eq!(address, tcp("host:6600"));
    assert_eq!(password.as_deref(), Some("a@b"));
    assert!(mpd.inbox.is_empty() && !mpd.closed);
}

#[test]
fn what_is_asked_is_what_is_sent() {
    let mut mpd = greeted();
    assert_eq!(mpd.ask_status(), "status\n");
    mpd.receive(b"state: play\nOK\n");
    assert_eq!(done(mpd.status()).state, "play");
    assert_eq!(mpd.ask_current_song(), "currentsong\n");
    mpd.receive(b"file: a/b.flac\nOK\n");
    assert_eq!(done(mpd.current_song()).unwrap().file, "a/b.flac");
    assert_eq!(mpd.ask_queue(), "playlistinfo\n");
    mpd.receive(b"file: a\nfile: b\nOK\n");
    assert_eq!(done(mpd.queue()).len(), 2);
    assert_eq!(
        mpd.ask_folder("Band \"X\"").unwrap(),
        "lsinfo \"Band \\\"X\\\"\"\n"
    );
    mpd.receive(b"directory: Band/One\nOK\n");
    assert_eq!(
        done(mpd.read_reply()),
        pairs(&[("directory", "Band/One")])
    );
    assert_eq!(
        mpd.ask_update("podcasts/pod").unwrap(),
        "update \"podcasts/pod\"\n"
    );
    mpd.receive(b"OK\n");
    assert!(done(mpd.read_reply()).is_empty());
    assert!(matches!(
        mpd.ask_folder("a\nclear"),
        Err(MpdError::LineBreak)
    ));
    assert!(matches!(
        mpd.ask_update("a\nclear"),
        Err(MpdError::LineBreak)
    ));
}
