//! A conversation with mpd, without the connection itself.
//!
//! What a method returns as a line is to be sent; what arrives is handed to `receive`, and the end
//! of the connection to `end`. Each reading method takes what has arrived and answers
//! `Progress::More` until its reply is whole.
use vstd::prelude::*;

use crate::mpd::address;
use crate::mpd::address::{default_address, Address};
use crate::mpd::command;
use crate::mpd::reply;
use crate::mpd::reply::{parse_songs, parse_status, Song, Status};
use crate::mpd::wire;
use crate::mpd::wire::{MpdError, Progress, ReadLine};
use crate::number;
use crate::text;

verus! {

/// A cover that is being read.
pub struct Picture {
    pub uri: String,
    /// whether the picture in the file has been given up for the one in its folder
    pub fallback: bool,
    /// the bytes that have come so far
    pub bytes: Vec<u8>,
}

/// One side of a conversation with mpd.
pub struct Mpd {
    pub version: String,
    /// what has arrived and has not been read
    pub inbox: Vec<u8>,
    /// whether mpd has closed the connection
    pub closed: bool,
    /// what has been read of the reply that is under way
    pub pairs: Vec<(String, String)>,
    /// the size that the chunk under way has named
    pub size: Option<usize>,
    /// the cover that is under way
    pub picture: Option<Picture>,
}

/// What came of reading a cover.
pub enum PictureProgress {
    /// more bytes are needed
    More,
    /// send this line and read on
    Send(String),
    /// the cover, or that there is none
    Done(Option<Vec<u8>>),
    Failed(MpdError),
}

/// What follows one chunk of a cover.
pub ghost enum PictureStep {
    /// ask for more: in the song's folder or not, behind these bytes
    Ask(bool, Seq<u8>),
    Found(Seq<u8>),
    Nothing,
    /// more came than a cover has
    TooLarge,
}

/// A chunk is added to the bytes until the picture is whole. No picture, or a chunk of nothing, is
/// followed by the picture in the song's folder and then by giving up. What is larger than
/// `MAX_PICTURE_BYTES` is not a cover, whatever size was named.
pub open spec fn picture_step(
    fallback: bool,
    bytes: Seq<u8>,
    chunk: Option<(nat, Seq<u8>)>,
) -> PictureStep {
    match chunk {
        Some((total, chunk)) if chunk.len() > 0 => if (bytes + chunk).len()
            > wire::MAX_PICTURE_BYTES {
            PictureStep::TooLarge
        } else if (bytes + chunk).len() >= total {
            PictureStep::Found(bytes + chunk)
        } else {
            PictureStep::Ask(fallback, bytes + chunk)
        },
        _ => if fallback {
            PictureStep::Nothing
        } else {
            PictureStep::Ask(true, seq![])
        },
    }
}

/// The command that reads a cover.
pub open spec fn picture_command(fallback: bool) -> Seq<char> {
    if fallback {
        "albumart"@
    } else {
        "readpicture"@
    }
}

/// The line that asks for a cover's bytes from `offset` on.
pub open spec fn picture_line(uri: Seq<char>, fallback: bool, offset: nat) -> Seq<char> {
    command::command_line(picture_command(fallback), seq![uri, number::decimal(offset)])
}

fn picture_request(uri: &str, fallback: bool, offset: usize) -> (r: Result<String, MpdError>)
    ensures
        match r {
            Ok(line) => !command::has_line_break(uri@) && line@ == picture_line(
                uri@,
                fallback,
                offset as nat,
            ),
            Err(e) => command::has_line_break(uri@) && e is LineBreak,
        },
{
    let offset_text = number::write_number(offset as u64);
    let args = [uri, offset_text.as_str()];
    let name = if fallback {
        "albumart"
    } else {
        "readpicture"
    };
    assert(command::texts(args@) =~= seq![uri@, number::decimal(offset as nat)]);
    assert(!command::has_line_break(number::decimal(offset as nat))) by {
        number::law_decimal_reads_back(offset as nat);
        let d = number::decimal(offset as nat);
        assert forall|j: int| 0 <= j < d.len() implies d[j] != '\n' && d[j] != '\r' by {
            assert(text::is_digit(d[j]));
        }
    }
    assert(args@[0]@ == uri@);
    match command::request(name, &args) {
        Ok(line) => Ok(line),
        Err(_) => Err(MpdError::LineBreak),
    }
}

impl Mpd {
    /// A conversation that has not begun.
    pub fn new() -> (mpd: Mpd)
        ensures
            mpd.version@ == ""@,
            mpd.inbox@ == Seq::<u8>::empty(),
            !mpd.closed,
            mpd.pairs@ == Seq::<(String, String)>::empty(),
            mpd.size is None,
            mpd.picture is None,
    {
        Mpd {
            version: "".to_owned(),
            inbox: Vec::new(),
            closed: false,
            pairs: Vec::new(),
            size: None,
            picture: None,
        }
    }

    /// Where mpd is, the password to send, and a conversation to have there.
    pub fn connect_default(host: Option<&str>, port: Option<&str>, socket: Option<&str>) -> (r: (
        Mpd,
        Address,
        Option<String>,
    ))
        ensures
            (r.1@, text::opt(r.2)) == address::address_of(
                address::opt_str(host),
                address::opt_str(port),
                address::opt_str(socket),
            ),
            r.0.version@ == ""@,
            r.0.inbox@ == Seq::<u8>::empty(),
            !r.0.closed,
            r.0.pairs@ == Seq::<(String, String)>::empty(),
            r.0.size is None,
            r.0.picture is None,
    {
        let (address, password) = default_address(host, port, socket);
        (Mpd::new(), address, password)
    }

    /// Take in bytes that have arrived.
    pub fn receive(&mut self, bytes: &[u8])
        ensures
            final(self).inbox@ == old(self).inbox@ + bytes@,
            final(self).version == old(self).version,
            final(self).closed == old(self).closed,
            final(self).pairs == old(self).pairs,
            final(self).size == old(self).size,
            final(self).picture == old(self).picture,
    {
        let mut i: usize = 0;
        while i < bytes.len()
            invariant
                i <= bytes@.len(),
                self.inbox@ == old(self).inbox@ + bytes@.take(i as int),
                self.version == old(self).version,
                self.closed == old(self).closed,
                self.pairs == old(self).pairs,
                self.size == old(self).size,
                self.picture == old(self).picture,
            decreases bytes@.len() - i,
        {
            self.inbox.push(bytes[i]);
            assert(bytes@.take(i + 1) =~= bytes@.take(i as int).push(bytes@[i as int]));
            i += 1;
        }
        assert(bytes@.take(bytes@.len() as int) =~= bytes@);
    }

    /// Nothing more will arrive.
    pub fn end(&mut self)
        ensures
            final(self).closed,
            final(self).inbox == old(self).inbox,
            final(self).version == old(self).version,
            final(self).pairs == old(self).pairs,
            final(self).size == old(self).size,
            final(self).picture == old(self).picture,
    {
        self.closed = true;
    }

    /// Read the greeting; what comes back is the line that logs in, if a password was given.
    pub fn connect(&mut self, password: Option<&str>) -> (r: Progress<Option<String>>)
        ensures
            final(self).closed == old(self).closed,
            final(self).pairs == old(self).pairs,
            final(self).size == old(self).size,
            final(self).picture == old(self).picture,
            match wire::next_line(old(self).inbox@, old(self).closed) {
                wire::Line::More => r is More && *final(self) == *old(self),
                wire::Line::Closed => r matches Progress::Failed(e) && e is Closed && *final(self)
                    == *old(self),
                wire::Line::Garbled(used) => r matches Progress::Failed(e) && e is Garbled
                    && final(self).inbox@ == old(self).inbox@.skip(used) && final(self).version
                    == old(self).version,
                wire::Line::Text(line, used) => {
                    &&& final(self).inbox@ == old(self).inbox@.skip(used)
                    &&& match text::after_prefix(line, "OK MPD "@) {
                        None => r matches Progress::Failed(e) && e is NotMpd
                            && final(self).version == old(self).version,
                        Some(version) => {
                            &&& final(self).version@ == version
                            &&& match password {
                                None => r matches Progress::Done(None),
                                Some(p) => if command::has_line_break(p@) {
                                    r matches Progress::Failed(e) && e is LineBreak
                                } else {
                                    r matches Progress::Done(Some(login)) && login@
                                        == command::command_line("password"@, seq![p@])
                                },
                            }
                        },
                    }
                },
            },
    {
        assert(self.inbox@.skip(0) =~= self.inbox@);
        match wire::read_line(&self.inbox, 0, self.closed) {
            ReadLine::More => Progress::More,
            ReadLine::Closed => Progress::Failed(MpdError::Closed),
            ReadLine::Garbled(to) => {
                wire::drop_front(&mut self.inbox, to);
                Progress::Failed(MpdError::Garbled)
            },
            ReadLine::Text(line, to) => {
                wire::drop_front(&mut self.inbox, to);
                match text::strip(&line, "OK MPD ") {
                    None => Progress::Failed(MpdError::NotMpd),
                    Some(version) => {
                        self.version = version;
                        match password {
                            None => Progress::Done(None),
                            Some(p) => {
                                let args = [p];
                                assert(command::texts(args@) =~= seq![p@]);
                                assert(args@[0]@ == p@);
                                match command::request("password", &args) {
                                    Ok(login) => Progress::Done(Some(login)),
                                    Err(_) => Progress::Failed(MpdError::LineBreak),
                                }
                            },
                        }
                    },
                }
            },
        }
    }

    /// Begin one command: the line to send. Its reply is then read with `read_reply`.
    pub fn run(&mut self, name: &str, args: &[&str]) -> (r: Result<String, MpdError>)
        ensures
            final(self).inbox == old(self).inbox,
            final(self).closed == old(self).closed,
            final(self).version == old(self).version,
            final(self).size == old(self).size,
            final(self).picture == old(self).picture,
            final(self).pairs@ == Seq::<(String, String)>::empty(),
            match r {
                Ok(line) => {
                    &&& line@ == command::command_line(name@, command::texts(args@))
                    &&& forall|i: int|
                        0 <= i < args@.len() ==> !command::has_line_break(#[trigger] args@[i]@)
                },
                Err(e) => {
                    &&& e is LineBreak
                    &&& exists|i: int|
                        0 <= i < args@.len() && command::has_line_break(#[trigger] args@[i]@)
                },
            },
    {
        self.pairs = Vec::new();
        match command::request(name, args) {
            Ok(line) => Ok(line),
            Err(_) => Err(MpdError::LineBreak),
        }
    }

    /// How far the reply under way has come.
    pub open spec fn reading(self) -> wire::Reading {
        wire::read_reply(self.inbox@, self.closed, reply::pairs_view(self.pairs@))
    }

    /// Is this the conversation after reading on in a reply?
    pub open spec fn has_read(self, before: Mpd) -> bool {
        &&& self.closed == before.closed
        &&& self.version == before.version
        &&& self.size == before.size
        &&& self.picture == before.picture
        &&& match before.reading() {
            wire::Reading::More(rest, got) => self.inbox@ == rest && reply::pairs_view(self.pairs@)
                == got,
            wire::Reading::Done(rest, _) => self.inbox@ == rest && self.pairs@ == Seq::<
                (String, String),
            >::empty(),
            wire::Reading::Failed(rest, _) => self.inbox@ == rest && self.pairs@ == Seq::<
                (String, String),
            >::empty(),
        }
    }

    /// Read on in the reply that is under way.
    pub fn read_reply(&mut self) -> (r: Progress<Vec<(String, String)>>)
        ensures
            final(self).has_read(*old(self)),
            match old(self).reading() {
                wire::Reading::More(_, _) => r is More,
                wire::Reading::Done(_, got) => r matches Progress::Done(pairs)
                    && reply::pairs_view(pairs@) == got,
                wire::Reading::Failed(_, e) => r matches Progress::Failed(error) && error@ == e,
            },
    {
        match wire::reply_from(&mut self.inbox, self.closed, &mut self.pairs) {
            Progress::More => Progress::More,
            Progress::Done(_) => {
                let mut pairs: Vec<(String, String)> = Vec::new();
                std::mem::swap(&mut pairs, &mut self.pairs);
                Progress::Done(pairs)
            },
            Progress::Failed(e) => {
                self.pairs = Vec::new();
                Progress::Failed(e)
            },
        }
    }

    /// Begin asking for mpd's status: the line to send. The reply is then read with `status`.
    pub fn ask_status(&mut self) -> (line: String)
        ensures
            line@ == command::command_line("status"@, seq![]),
            final(self).begun(*old(self)),
    {
        self.ask("status")
    }

    /// Begin asking for the current song: the line to send. The reply is then read with
    /// `current_song`.
    pub fn ask_current_song(&mut self) -> (line: String)
        ensures
            line@ == command::command_line("currentsong"@, seq![]),
            final(self).begun(*old(self)),
    {
        self.ask("currentsong")
    }

    /// Begin asking for the queue: the line to send. The reply is then read with `queue`.
    pub fn ask_queue(&mut self) -> (line: String)
        ensures
            line@ == command::command_line("playlistinfo"@, seq![]),
            final(self).begun(*old(self)),
    {
        self.ask("playlistinfo")
    }

    /// Begin asking what a folder of the library holds: the line to send. The reply is then read with
    /// `read_reply`.
    pub fn ask_folder(&mut self, folder: &str) -> (r: Result<String, MpdError>)
        ensures
            final(self).begun(*old(self)),
            match r {
                Ok(line) => !command::has_line_break(folder@) && line@ == command::command_line(
                    "lsinfo"@,
                    seq![folder@],
                ),
                Err(e) => command::has_line_break(folder@) && e is LineBreak,
            },
    {
        self.ask_about("lsinfo", folder)
    }

    /// Begin having mpd look for new files in a folder of the library: the line to send. The reply is
    /// then read with `read_reply`.
    pub fn ask_update(&mut self, folder: &str) -> (r: Result<String, MpdError>)
        ensures
            final(self).begun(*old(self)),
            match r {
                Ok(line) => !command::has_line_break(folder@) && line@ == command::command_line(
                    "update"@,
                    seq![folder@],
                ),
                Err(e) => command::has_line_break(folder@) && e is LineBreak,
            },
    {
        self.ask_about("update", folder)
    }

    /// Is this the conversation after a command was begun?
    pub open spec fn begun(self, before: Mpd) -> bool {
        &&& self.inbox == before.inbox
        &&& self.closed == before.closed
        &&& self.version == before.version
        &&& self.size == before.size
        &&& self.picture == before.picture
        &&& self.pairs@ == Seq::<(String, String)>::empty()
    }

    fn ask(&mut self, name: &str) -> (line: String)
        ensures
            line@ == command::command_line(name@, seq![]),
            final(self).begun(*old(self)),
    {
        self.pairs = Vec::new();
        let line = name.to_owned().concat("\n");
        proof {
            reveal_strlit("\n");
            assert(command::arguments_text(seq![]) =~= seq![]);
            assert(line@ =~= command::command_line(name@, seq![]));
        }
        line
    }

    fn ask_about(&mut self, name: &str, arg: &str) -> (r: Result<String, MpdError>)
        ensures
            final(self).begun(*old(self)),
            match r {
                Ok(line) => !command::has_line_break(arg@) && line@ == command::command_line(
                    name@,
                    seq![arg@],
                ),
                Err(e) => command::has_line_break(arg@) && e is LineBreak,
            },
    {
        let args = [arg];
        assert(command::texts(args@) =~= seq![arg@]);
        assert(args@[0]@ == arg@);
        self.run(name, &args)
    }

    /// Read the reply to `status`.
    pub fn status(&mut self) -> (r: Progress<Status>)
        ensures
            final(self).has_read(*old(self)),
            match old(self).reading() {
                wire::Reading::More(_, _) => r is More,
                wire::Reading::Done(_, got) => r matches Progress::Done(status) && status@
                    == reply::status_of(got),
                wire::Reading::Failed(_, e) => r matches Progress::Failed(error) && error@ == e,
            },
    {
        match self.read_reply() {
            Progress::More => Progress::More,
            Progress::Done(pairs) => Progress::Done(parse_status(&pairs)),
            Progress::Failed(e) => Progress::Failed(e),
        }
    }

    /// Read the reply to `currentsong`.
    pub fn current_song(&mut self) -> (r: Progress<Option<Song>>)
        ensures
            final(self).has_read(*old(self)),
            match old(self).reading() {
                wire::Reading::More(_, _) => r is More,
                wire::Reading::Done(_, got) => r matches Progress::Done(song) && match song {
                    Some(s) => reply::songs_of(got).len() > 0 && s@ == reply::songs_of(got)[0],
                    None => reply::songs_of(got).len() == 0,
                },
                wire::Reading::Failed(_, e) => r matches Progress::Failed(error) && error@ == e,
            },
    {
        match self.read_reply() {
            Progress::More => Progress::More,
            Progress::Done(pairs) => {
                let mut songs = parse_songs(&pairs);
                let ghost listed = reply::songs_view(songs@);
                if songs.len() == 0 {
                    Progress::Done(None)
                } else {
                    assert(listed[0] == songs@[0]@);
                    Progress::Done(Some(songs.swap_remove(0)))
                }
            },
            Progress::Failed(e) => Progress::Failed(e),
        }
    }

    /// Read the reply to `playlistinfo`.
    pub fn queue(&mut self) -> (r: Progress<Vec<Song>>)
        ensures
            final(self).has_read(*old(self)),
            match old(self).reading() {
                wire::Reading::More(_, _) => r is More,
                wire::Reading::Done(_, got) => r matches Progress::Done(songs)
                    && reply::songs_view(songs@) == reply::songs_of(got),
                wire::Reading::Failed(_, e) => r matches Progress::Failed(error) && error@ == e,
            },
    {
        match self.read_reply() {
            Progress::More => Progress::More,
            Progress::Done(pairs) => Progress::Done(parse_songs(&pairs)),
            Progress::Failed(e) => Progress::Failed(e),
        }
    }

    /// Begin waiting for a change in any of these areas: the line to send. What changed is then
    /// read with `read_changes`.
    pub fn idle(&mut self, subsystems: &[&str]) -> (r: Result<String, MpdError>)
        ensures
            final(self).inbox == old(self).inbox,
            final(self).closed == old(self).closed,
            final(self).version == old(self).version,
            final(self).size == old(self).size,
            final(self).picture == old(self).picture,
            final(self).pairs@ == Seq::<(String, String)>::empty(),
            match r {
                Ok(line) => {
                    &&& line@ == command::idle_line(command::texts(subsystems@))
                    &&& forall|i: int|
                        0 <= i < subsystems@.len() ==> command::is_subsystem(
                            #[trigger] subsystems@[i]@,
                        )
                },
                Err(e) => e matches MpdError::NotSubsystem(bad) && exists|i: int|
                    0 <= i < subsystems@.len() && bad@ == (#[trigger] subsystems@[i])@
                        && !command::is_subsystem(bad@) && forall|j: int|
                        0 <= j < i ==> command::is_subsystem(#[trigger] subsystems@[j]@),
            },
    {
        self.pairs = Vec::new();
        match command::idle_request(subsystems) {
            Ok(line) => Ok(line),
            Err(bad) => Err(MpdError::NotSubsystem(bad)),
        }
    }

    /// Read which areas changed.
    pub fn read_changes(&mut self) -> (r: Progress<Vec<String>>)
        ensures
            final(self).has_read(*old(self)),
            match old(self).reading() {
                wire::Reading::More(_, _) => r is More,
                wire::Reading::Done(_, got) => r matches Progress::Done(changed)
                    && reply::strings_view(changed@) == reply::values_of(got, "changed"@),
                wire::Reading::Failed(_, e) => r matches Progress::Failed(error) && error@ == e,
            },
    {
        match self.read_reply() {
            Progress::More => Progress::More,
            Progress::Done(pairs) => Progress::Done(reply::get_all(&pairs, "changed")),
            Progress::Failed(e) => Progress::Failed(e),
        }
    }

    /// Begin reading a song's cover: the line to send. The picture in the file comes first, else
    /// the one in its folder. The cover is then read with `read_picture`.
    pub fn picture(&mut self, uri: &str) -> (r: Result<String, MpdError>)
        ensures
            final(self).inbox == old(self).inbox,
            final(self).closed == old(self).closed,
            final(self).version == old(self).version,
            final(self).pairs == old(self).pairs,
            match r {
                Ok(line) => {
                    &&& !command::has_line_break(uri@)
                    &&& line@ == picture_line(uri@, false, 0)
                    &&& final(self).size is None
                    &&& final(self).picture matches Some(p)
                    &&& p.uri@ == uri@ && !p.fallback && p.bytes@ == Seq::<u8>::empty()
                },
                Err(e) => {
                    &&& command::has_line_break(uri@)
                    &&& e is LineBreak
                    &&& final(self).size == old(self).size
                    &&& final(self).picture == old(self).picture
                },
            },
    {
        let line = match picture_request(uri, false, 0) {
            Ok(line) => line,
            Err(e) => {
                return Err(e);
            },
        };
        self.size = None;
        self.picture = Some(Picture { uri: uri.to_owned(), fallback: false, bytes: Vec::new() });
        Ok(line)
    }

    /// How far the chunk under way has come.
    pub open spec fn chunk_reading(self) -> wire::ChunkReading {
        wire::read_chunk(self.inbox@, self.closed, wire::opt_size(self.size))
    }

    /// Is this what follows the chunk, in the conversation and in the answer?
    pub open spec fn took_chunk(
        self,
        before: Picture,
        chunk: Option<(nat, Seq<u8>)>,
        r: PictureProgress,
    ) -> bool {
        match picture_step(before.fallback, before.bytes@, chunk) {
            PictureStep::Found(bytes) => {
                &&& r matches PictureProgress::Done(Some(b))
                &&& b@ == bytes
                &&& self.picture is None
            },
            PictureStep::Nothing => r matches PictureProgress::Done(None) && self.picture is None,
            PictureStep::TooLarge => {
                &&& r matches PictureProgress::Failed(e)
                &&& e is TooLarge
                &&& self.picture is None
            },
            PictureStep::Ask(fallback, bytes) => if command::has_line_break(before.uri@) {
                r matches PictureProgress::Failed(e) && e is LineBreak && self.picture is None
            } else {
                &&& r matches PictureProgress::Send(line)
                &&& line@ == picture_line(before.uri@, fallback, bytes.len())
                &&& self.picture matches Some(p)
                &&& p.uri@ == before.uri@ && p.fallback == fallback && p.bytes@ == bytes
                &&& self.size is None
            },
        }
    }

    /// Read on in the cover that is under way; without one, there is none.
    pub fn read_picture(&mut self) -> (r: PictureProgress)
        ensures
            final(self).closed == old(self).closed,
            final(self).version == old(self).version,
            final(self).pairs == old(self).pairs,
            r matches PictureProgress::Done(Some(p)) ==> 0 < p@.len() <= wire::MAX_PICTURE_BYTES,
            match old(self).picture {
                None => r matches PictureProgress::Done(None) && *final(self) == *old(self),
                Some(before) => match old(self).chunk_reading() {
                    wire::ChunkReading::More(rest, size) => {
                        &&& r is More
                        &&& final(self).inbox@ == rest
                        &&& wire::opt_size(final(self).size) == size
                        &&& final(self).picture == old(self).picture
                    },
                    wire::ChunkReading::Failed(rest, e) => {
                        &&& r matches PictureProgress::Failed(error)
                        &&& error@ == e
                        &&& final(self).inbox@ == rest
                        &&& final(self).picture is None
                    },
                    wire::ChunkReading::Nothing(rest) => {
                        &&& final(self).inbox@ == rest
                        &&& final(self).took_chunk(before, None, r)
                    },
                    wire::ChunkReading::Chunk(rest, total, chunk) => {
                        &&& final(self).inbox@ == rest
                        &&& final(self).took_chunk(before, Some((total, chunk)), r)
                    },
                },
            },
    {
        if self.picture.is_none() {
            return PictureProgress::Done(None);
        }
        let chunk = match wire::chunk_from(&mut self.inbox, self.closed, &mut self.size) {
            Progress::More => {
                return PictureProgress::More;
            },
            Progress::Failed(e) => {
                self.picture = None;
                return PictureProgress::Failed(e);
            },
            Progress::Done(chunk) => chunk,
        };
        let mut under_way: Option<Picture> = None;
        std::mem::swap(&mut under_way, &mut self.picture);
        let picture = match under_way {
            Some(p) => p,
            None => {
                return PictureProgress::Done(None);
            },
        };
        let mut bytes = picture.bytes;
        let mut fallback = picture.fallback;
        let ghost had = bytes@;
        match chunk {
            Some((total, mut more)) => {
                if more.len() > 0 {
                    let ghost came = more@;
                    bytes.append(&mut more);
                    assert(bytes@ =~= had + came);
                    if bytes.len() > wire::MAX_PICTURE_BYTES {
                        return PictureProgress::Failed(MpdError::TooLarge);
                    }
                    if bytes.len() >= total {
                        return PictureProgress::Done(Some(bytes));
                    }
                } else {
                    if fallback {
                        return PictureProgress::Done(None);
                    }
                    fallback = true;
                    bytes = Vec::new();
                }
            },
            None => {
                if fallback {
                    return PictureProgress::Done(None);
                }
                fallback = true;
                bytes = Vec::new();
            },
        }
        match picture_request(&picture.uri, fallback, bytes.len()) {
            Ok(line) => {
                self.size = None;
                self.picture = Some(Picture { uri: picture.uri, fallback, bytes });
                PictureProgress::Send(line)
            },
            Err(e) => PictureProgress::Failed(e),
        }
    }
}

// ── Covers ───────────────────────────────────────────────────────────────

/// What comes of a cover's chunks, one after the other.
pub open spec fn picture_of(
    fallback: bool,
    bytes: Seq<u8>,
    chunks: Seq<Option<(nat, Seq<u8>)>>,
) -> PictureStep
    decreases chunks.len(),
{
    if chunks.len() == 0 {
        PictureStep::Ask(fallback, bytes)
    } else {
        match picture_step(fallback, bytes, chunks[0]) {
            PictureStep::Ask(f, b) => picture_of(f, b, chunks.skip(1)),
            done => done,
        }
    }
}

/// The bytes of several chunks, put together.
pub open spec fn joined(chunks: Seq<Seq<u8>>) -> Seq<u8>
    decreases chunks.len(),
{
    if chunks.len() == 0 {
        seq![]
    } else {
        chunks[0] + joined(chunks.skip(1))
    }
}

/// A picture that comes in chunks is those chunks put together, however it was cut, up to the
/// largest cover.
pub proof fn law_chunks_make_the_picture(
    fallback: bool,
    bytes: Seq<u8>,
    chunks: Seq<Seq<u8>>,
    total: nat,
)
    requires
        chunks.len() > 0,
        forall|i: int| 0 <= i < chunks.len() ==> (#[trigger] chunks[i]).len() > 0,
        total == (bytes + joined(chunks)).len(),
        total <= wire::MAX_PICTURE_BYTES,
    ensures
        picture_of(fallback, bytes, chunks.map_values(|c: Seq<u8>| Some((total, c))))
            == PictureStep::Found(bytes + joined(chunks)),
    decreases chunks.len(),
{
    let tagged = chunks.map_values(|c: Seq<u8>| Some((total, c)));
    let rest = chunks.skip(1);
    let first = chunks[0];
    assert(tagged[0] == Some((total, first)));
    assert(bytes + joined(chunks) =~= (bytes + first) + joined(rest));
    if rest.len() == 0 {
        assert(joined(rest) =~= seq![]);
        assert((bytes + first) + joined(rest) =~= bytes + first);
    } else {
        assert(rest[0].len() > 0) by {
            assert(rest[0] == chunks[1]);
        }
        assert(joined(rest).len() > 0);
        assert forall|i: int| 0 <= i < rest.len() implies (#[trigger] rest[i]).len() > 0 by {
            assert(rest[i] == chunks[i + 1]);
        }
        law_chunks_make_the_picture(fallback, bytes + first, rest, total);
        assert(tagged.skip(1) =~= rest.map_values(|c: Seq<u8>| Some((total, c))));
    }
}

/// Reading a cover comes to an end: each further question either asks behind more bytes than the
/// last one, short of the picture's size, or gives up the file for its folder, once.
pub proof fn law_picture_goes_forward(fallback: bool, bytes: Seq<u8>, chunk: Option<(nat, Seq<u8>)>)
    ensures
        picture_step(fallback, bytes, chunk) matches PictureStep::Ask(f, b) ==> {
            ||| f && !fallback
            ||| chunk matches Some((total, _)) && f == fallback && bytes.len() < b.len() < total
        },
{
}

/// A cover that is found holds something, and is no larger than the largest cover, whatever sizes
/// mpd named and however it cut the picture.
pub proof fn law_covers_are_not_too_large(
    fallback: bool,
    bytes: Seq<u8>,
    chunks: Seq<Option<(nat, Seq<u8>)>>,
)
    ensures
        picture_of(fallback, bytes, chunks) matches PictureStep::Found(p) ==> 0 < p.len()
            <= wire::MAX_PICTURE_BYTES,
    decreases chunks.len(),
{
    if chunks.len() > 0 {
        match picture_step(fallback, bytes, chunks[0]) {
            PictureStep::Ask(f, b) => law_covers_are_not_too_large(f, b, chunks.skip(1)),
            _ => {},
        }
    }
}

/// What becomes of a piece of a picture: it is put behind what has come; if that is all, the picture
/// is there, and if it is not, the rest is asked for. One of more than ten megabytes is refused. If
/// nothing comes, the song's folder is asked for its cover, once.
pub proof fn law_how_a_picture_grows(
    fallback: bool,
    bytes: Seq<u8>,
    total: nat,
    chunk: Seq<u8>,
)
    ensures
        chunk.len() > 0 && bytes.len() + chunk.len() > 10485760 ==> picture_step(
            fallback,
            bytes,
            Some((total, chunk)),
        ) is TooLarge,
        chunk.len() > 0 && total <= bytes.len() + chunk.len() <= 10485760 ==> picture_step(
            fallback,
            bytes,
            Some((total, chunk)),
        ) == PictureStep::Found(bytes + chunk),
        chunk.len() > 0 && bytes.len() + chunk.len() <= 10485760 && bytes.len() + chunk.len()
            < total ==> picture_step(fallback, bytes, Some((total, chunk))) == PictureStep::Ask(
            fallback,
            bytes + chunk,
        ),
        picture_step(false, bytes, None) == PictureStep::Ask(true, Seq::<u8>::empty()),
        picture_step(true, bytes, None) is Nothing,
        chunk.len() == 0 ==> picture_step(fallback, bytes, Some((total, chunk))) == picture_step(
            fallback,
            bytes,
            None,
        ),
{
}

/// A picture is asked for from where it has come to: first the one inside the song, and then the one
/// in its folder.
pub proof fn law_how_a_picture_is_asked_for(uri: Seq<char>, offset: nat)
    ensures
        picture_line(uri, false, offset) == command::command_line(
            "readpicture"@,
            seq![uri, number::decimal(offset)],
        ),
        picture_line(uri, true, offset) == command::command_line(
            "albumart"@,
            seq![uri, number::decimal(offset)],
        ),
{
}

} // verus!
