//! The bytes that mpd sends, read as lines, replies and chunks of pictures.
//!
//! Bytes arrive in pieces of any size. Each reader here takes what has arrived so far and either
//! makes something of it or says that more is needed, keeping what it has read.
use vstd::prelude::*;
use vstd::utf8::*;

use crate::mpd::reply;
use crate::number;
use crate::text;

verus! {

/// A cover larger than this is not a cover.
pub const MAX_PICTURE_BYTES: usize = 10485760;

/// Why a conversation with mpd went wrong.
#[derive(Debug, Clone, PartialEq, Eq)]
pub enum MpdError {
    /// an argument holds a line break
    LineBreak,
    /// what answered does not greet like mpd
    NotMpd,
    /// mpd closed the connection
    Closed,
    /// mpd closed the connection in the middle of a picture
    CutShort,
    /// a line was not UTF-8
    Garbled,
    /// mpd refused the command, with this message
    Refused(String),
    /// the length of a picture's bytes was not a number
    BadLength,
    /// picture bytes came without a size
    NoSize,
    /// the picture is larger than `MAX_PICTURE_BYTES`
    TooLarge,
    /// something other than `OK` followed the picture bytes
    AfterPicture,
    /// not the name of one of mpd's areas
    NotSubsystem(String),
}

/// An `MpdError`, with its texts as sequences.
pub ghost enum ErrorView {
    LineBreak,
    NotMpd,
    Closed,
    CutShort,
    Garbled,
    Refused(Seq<char>),
    BadLength,
    NoSize,
    TooLarge,
    AfterPicture,
    NotSubsystem(Seq<char>),
}

impl View for MpdError {
    type V = ErrorView;

    open spec fn view(&self) -> ErrorView {
        match *self {
            MpdError::LineBreak => ErrorView::LineBreak,
            MpdError::NotMpd => ErrorView::NotMpd,
            MpdError::Closed => ErrorView::Closed,
            MpdError::CutShort => ErrorView::CutShort,
            MpdError::Garbled => ErrorView::Garbled,
            MpdError::Refused(m) => ErrorView::Refused(m@),
            MpdError::BadLength => ErrorView::BadLength,
            MpdError::NoSize => ErrorView::NoSize,
            MpdError::TooLarge => ErrorView::TooLarge,
            MpdError::AfterPicture => ErrorView::AfterPicture,
            MpdError::NotSubsystem(m) => ErrorView::NotSubsystem(m@),
        }
    }
}

/// What an error says to a person.
pub open spec fn error_message(e: ErrorView) -> Seq<char> {
    match e {
        ErrorView::LineBreak => "an mpd argument cannot contain a line break"@,
        ErrorView::NotMpd => "that is not mpd"@,
        ErrorView::Closed => "mpd closed the connection"@,
        ErrorView::CutShort => "failed to fill whole buffer"@,
        ErrorView::Garbled => "stream did not contain valid UTF-8"@,
        ErrorView::Refused(m) => "mpd: "@ + m,
        ErrorView::BadLength => "bad binary length from mpd"@,
        ErrorView::NoSize => "mpd sent picture bytes without a size"@,
        ErrorView::TooLarge => "the picture is larger than "@ + number::decimal(
            MAX_PICTURE_BYTES as nat,
        ) + " bytes"@,
        ErrorView::AfterPicture => "mpd sent something after the picture bytes"@,
        ErrorView::NotSubsystem(m) => "not an mpd subsystem: "@ + m,
    }
}

impl MpdError {
    /// What the error says to a person.
    pub fn message(&self) -> (m: String)
        ensures
            m@ == error_message(self@),
    {
        match self {
            MpdError::LineBreak => "an mpd argument cannot contain a line break".to_owned(),
            MpdError::NotMpd => "that is not mpd".to_owned(),
            MpdError::Closed => "mpd closed the connection".to_owned(),
            MpdError::CutShort => "failed to fill whole buffer".to_owned(),
            MpdError::Garbled => "stream did not contain valid UTF-8".to_owned(),
            MpdError::Refused(m) => "mpd: ".to_owned().concat(m),
            MpdError::BadLength => "bad binary length from mpd".to_owned(),
            MpdError::NoSize => "mpd sent picture bytes without a size".to_owned(),
            MpdError::TooLarge => "the picture is larger than ".to_owned().concat(
                &number::write_number(MAX_PICTURE_BYTES as u64),
            ).concat(" bytes"),
            MpdError::AfterPicture => "mpd sent something after the picture bytes".to_owned(),
            MpdError::NotSubsystem(m) => "not an mpd subsystem: ".to_owned().concat(m),
        }
    }
}

// ── Lines ────────────────────────────────────────────────────────────────

/// What the front of the unread bytes holds.
pub ghost enum Line {
    /// no whole line yet
    More,
    /// nothing is left, and nothing will come
    Closed,
    /// a line that is not UTF-8, and how many bytes it takes
    Garbled(int),
    /// a line without its line break, and how many bytes it takes
    Text(Seq<char>, int),
}

pub open spec fn decoded(line: Seq<u8>, used: int) -> Line {
    if valid_utf8(line) {
        Line::Text(decode_utf8(line), used)
    } else {
        Line::Garbled(used)
    }
}

/// The next line: up to a line break or, once mpd has closed the connection, up to the end.
pub open spec fn next_line(bytes: Seq<u8>, closed: bool) -> Line {
    match text::first_index(bytes, 10u8) {
        Some(i) => decoded(bytes.take(i), i + 1),
        None => if !closed {
            Line::More
        } else if bytes.len() == 0 {
            Line::Closed
        } else {
            decoded(bytes, bytes.len() as int)
        },
    }
}

pub proof fn lemma_next_line(bytes: Seq<u8>, closed: bool)
    ensures
        match next_line(bytes, closed) {
            Line::Text(_, used) => 0 < used <= bytes.len(),
            Line::Garbled(used) => 0 < used <= bytes.len(),
            _ => true,
        },
{
    text::lemma_first_index(bytes, 10u8);
}

/// A line as it was read.
pub(crate) enum ReadLine {
    More,
    Closed,
    Garbled(usize),
    Text(String, usize),
}

fn bytes_of(bytes: &[u8], from: usize, to: usize) -> (r: Vec<u8>)
    requires
        from <= to <= bytes@.len(),
    ensures
        r@ == bytes@.subrange(from as int, to as int),
{
    let mut r: Vec<u8> = Vec::new();
    let mut i: usize = from;
    while i < to
        invariant
            from <= i <= to <= bytes@.len(),
            r@ == bytes@.subrange(from as int, i as int),
        decreases to - i,
    {
        r.push(bytes[i]);
        assert(bytes@.subrange(from as int, i + 1) =~= bytes@.subrange(from as int, i as int).push(
            bytes@[i as int],
        ));
        i += 1;
    }
    r
}

/// Read the line at `at`; the number in the result is where the next one starts.
pub(crate) fn read_line(bytes: &[u8], at: usize, closed: bool) -> (r: ReadLine)
    requires
        at <= bytes@.len(),
    ensures
        match r {
            ReadLine::More => next_line(bytes@.skip(at as int), closed) is More,
            ReadLine::Closed => next_line(bytes@.skip(at as int), closed) is Closed,
            ReadLine::Garbled(to) => at < to <= bytes@.len() && next_line(
                bytes@.skip(at as int),
                closed,
            ) == Line::Garbled(to - at),
            ReadLine::Text(t, to) => at < to <= bytes@.len() && next_line(
                bytes@.skip(at as int),
                closed,
            ) == Line::Text(t@, to - at),
        },
{
    let ghost rest = bytes@.skip(at as int);
    let mut i: usize = at;
    while i < bytes.len()
        invariant
            at <= i <= bytes@.len(),
            rest == bytes@.skip(at as int),
            forall|j: int| 0 <= j < i - at ==> rest[j] != 10u8,
        decreases bytes@.len() - i,
    {
        if bytes[i] == 10u8 {
            let line = bytes_of(bytes, at, i);
            proof {
                text::lemma_first_index_is(rest, 10u8, i - at);
                assert(line@ =~= rest.take(i - at));
            }
            return match text::decode(line) {
                Some(t) => ReadLine::Text(t, i + 1),
                None => ReadLine::Garbled(i + 1),
            };
        }
        assert(rest[i - at] == bytes@[i as int]);
        i += 1;
    }
    proof {
        text::lemma_first_index_none(rest, 10u8);
    }
    if !closed {
        return ReadLine::More;
    }
    if at == bytes.len() {
        return ReadLine::Closed;
    }
    let line = bytes_of(bytes, at, bytes.len());
    assert(line@ =~= rest);
    match text::decode(line) {
        Some(t) => ReadLine::Text(t, bytes.len()),
        None => ReadLine::Garbled(bytes.len()),
    }
}

// ── Replies ──────────────────────────────────────────────────────────────

/// How far a reply has been read. Each case holds the bytes that are left.
pub ghost enum Reading {
    /// the reply goes on; these pairs have been read
    More(Seq<u8>, Seq<(Seq<char>, Seq<char>)>),
    Done(Seq<u8>, Seq<(Seq<char>, Seq<char>)>),
    Failed(Seq<u8>, ErrorView),
}

/// The message in what follows `ACK `: `[50@0] {play} No such song` says `No such song`.
pub open spec fn refusal(ack: Seq<char>) -> Seq<char> {
    match text::cut_first(ack, "} "@) {
        Some((_, message)) => message,
        None => ack,
    }
}

/// Read `key: value` lines up to `OK`, onto the pairs read before; an `ACK` is mpd's refusal.
pub open spec fn read_reply(
    bytes: Seq<u8>,
    closed: bool,
    pairs: Seq<(Seq<char>, Seq<char>)>,
) -> Reading
    decreases bytes.len(),
{
    proof {
        lemma_next_line(bytes, closed);
    }
    match next_line(bytes, closed) {
        Line::More => Reading::More(bytes, pairs),
        Line::Closed => Reading::Failed(bytes, ErrorView::Closed),
        Line::Garbled(used) => Reading::Failed(bytes.skip(used), ErrorView::Garbled),
        Line::Text(line, used) => {
            if line == "OK"@ {
                Reading::Done(bytes.skip(used), pairs)
            } else if text::after_prefix(line, "ACK "@) is Some {
                Reading::Failed(bytes.skip(used), ErrorView::Refused(refusal(line.skip(4))))
            } else {
                match text::cut_first(line, ": "@) {
                    Some(kv) => read_reply(bytes.skip(used), closed, pairs.push(kv)),
                    None => read_reply(bytes.skip(used), closed, pairs),
                }
            }
        },
    }
}

/// What came of reading.
pub enum Progress<T> {
    /// more bytes are needed
    More,
    Done(T),
    Failed(MpdError),
}

/// Read on in a reply: `bytes` loses what was read, `pairs` gains it.
pub fn reply_from(bytes: &mut Vec<u8>, closed: bool, pairs: &mut Vec<(String, String)>) -> (r:
    Progress<()>)
    ensures
        match r {
            Progress::More => read_reply(old(bytes)@, closed, reply::pairs_view(old(pairs)@))
                == Reading::More(final(bytes)@, reply::pairs_view(final(pairs)@)),
            Progress::Done(_) => read_reply(old(bytes)@, closed, reply::pairs_view(old(pairs)@))
                == Reading::Done(final(bytes)@, reply::pairs_view(final(pairs)@)),
            Progress::Failed(e) => read_reply(old(bytes)@, closed, reply::pairs_view(old(pairs)@))
                == Reading::Failed(final(bytes)@, e@),
        },
{
    proof {
        reveal_strlit("ACK ");
    }
    let mut at: usize = 0;
    let ghost start = bytes@;
    let ghost before = reply::pairs_view(pairs@);
    assert(start.skip(0) =~= start);
    loop
        invariant
            at <= bytes@.len(),
            bytes@ == start,
            start == old(bytes)@,
            before == reply::pairs_view(old(pairs)@),
            "ACK "@.len() == 4,
            read_reply(start, closed, before) == read_reply(
                start.skip(at as int),
                closed,
                reply::pairs_view(pairs@),
            ),
        decreases bytes@.len() - at,
    {
        let ghost rest = start.skip(at as int);
        proof {
            lemma_next_line(rest, closed);
        }
        match read_line(bytes, at, closed) {
            ReadLine::More => {
                drop_front(bytes, at);
                return Progress::More;
            },
            ReadLine::Closed => {
                drop_front(bytes, at);
                return Progress::Failed(MpdError::Closed);
            },
            ReadLine::Garbled(to) => {
                assert(start.skip(to as int) =~= rest.skip(to - at));
                drop_front(bytes, to);
                return Progress::Failed(MpdError::Garbled);
            },
            ReadLine::Text(line, to) => {
                assert(start.skip(to as int) =~= rest.skip(to - at));
                if text::same(&line, "OK") {
                    drop_front(bytes, to);
                    return Progress::Done(());
                }
                if let Some(ack) = text::strip(&line, "ACK ") {
                    drop_front(bytes, to);
                    let message = match text::split_first(&ack, "} ") {
                        Some((_, m)) => m,
                        None => ack,
                    };
                    return Progress::Failed(MpdError::Refused(message));
                }
                if let Some((key, value)) = text::split_first(&line, ": ") {
                    let ghost had = reply::pairs_view(pairs@);
                    pairs.push((key, value));
                    assert(reply::pairs_view(pairs@) =~= had.push((key@, value@)));
                }
                at = to;
            },
        }
    }
}

// ── Pictures ─────────────────────────────────────────────────────────────

/// How far a chunk of a picture has been read. Each case but `More` holds the bytes that are left.
pub ghost enum ChunkReading {
    /// the chunk goes on; these bytes are left, and this size has been read
    More(Seq<u8>, Option<nat>),
    /// there is no picture
    Nothing(Seq<u8>),
    /// the picture's whole size, and this chunk's bytes
    Chunk(Seq<u8>, nat, Seq<u8>),
    Failed(Seq<u8>, ErrorView),
}

/// A number that fits in a `usize`.
pub open spec fn length_value(s: Seq<char>) -> Option<nat> {
    number::unsigned_within(s, usize::MAX as nat)
}

/// What follows a `binary` line: the bytes, a line break, and `OK`. Until it is all there, reading
/// goes back to `start`.
pub open spec fn read_binary(
    start: Seq<u8>,
    rest: Seq<u8>,
    closed: bool,
    total: nat,
    length: nat,
) -> ChunkReading {
    if rest.len() <= length {
        if closed {
            ChunkReading::Failed(seq![], ErrorView::CutShort)
        } else {
            ChunkReading::More(start, Some(total))
        }
    } else {
        let tail = rest.skip(length as int + 1);
        match next_line(tail, closed) {
            Line::More => ChunkReading::More(start, Some(total)),
            Line::Closed => ChunkReading::Failed(tail, ErrorView::Closed),
            Line::Garbled(used) => ChunkReading::Failed(tail.skip(used), ErrorView::Garbled),
            Line::Text(line, used) => if line == "OK"@ {
                ChunkReading::Chunk(tail.skip(used), total, rest.take(length as int))
            } else {
                ChunkReading::Failed(tail.skip(used), ErrorView::AfterPicture)
            },
        }
    }
}

/// Read one chunk of a picture. A bare `OK`, and an `ACK`, mean that there is no picture.
pub open spec fn read_chunk(bytes: Seq<u8>, closed: bool, size: Option<nat>) -> ChunkReading
    decreases bytes.len(),
{
    proof {
        lemma_next_line(bytes, closed);
    }
    match next_line(bytes, closed) {
        Line::More => ChunkReading::More(bytes, size),
        Line::Closed => ChunkReading::Failed(bytes, ErrorView::Closed),
        Line::Garbled(used) => ChunkReading::Failed(bytes.skip(used), ErrorView::Garbled),
        Line::Text(line, used) => {
            let rest = bytes.skip(used);
            if line == "OK"@ || text::after_prefix(line, "ACK "@) is Some {
                ChunkReading::Nothing(rest)
            } else if text::after_prefix(line, "size: "@) is Some {
                read_chunk(rest, closed, length_value(line.skip(6)))
            } else if text::after_prefix(line, "binary: "@) is Some {
                match (length_value(line.skip(8)), size) {
                    (None, _) => ChunkReading::Failed(rest, ErrorView::BadLength),
                    (Some(_), None) => ChunkReading::Failed(rest, ErrorView::NoSize),
                    (Some(length), Some(total)) => if total > MAX_PICTURE_BYTES || length
                        > MAX_PICTURE_BYTES {
                        ChunkReading::Failed(rest, ErrorView::TooLarge)
                    } else {
                        read_binary(bytes, rest, closed, total, length)
                    },
                }
            } else {
                read_chunk(rest, closed, size)
            }
        },
    }
}

/// A size that may be absent.
pub open spec fn opt_size(n: Option<usize>) -> Option<nat> {
    match n {
        Some(n) => Some(n as nat),
        None => None,
    }
}

fn read_length(text: &str) -> (r: Option<usize>)
    ensures
        opt_size(r) == length_value(text@),
{
    match number::read_unsigned(text, usize::MAX as u64) {
        Some(n) => Some(n as usize),
        None => None,
    }
}

/// Drop the first `to` bytes.
pub(crate) fn drop_front(bytes: &mut Vec<u8>, to: usize)
    requires
        to <= old(bytes)@.len(),
    ensures
        final(bytes)@ == old(bytes)@.skip(to as int),
{
    let left = bytes_of(bytes, to, bytes.len());
    assert(left@ =~= bytes@.skip(to as int));
    *bytes = left;
}

/// Has the reading come to this?
pub open spec fn chunk_read(
    reading: ChunkReading,
    r: Progress<Option<(usize, Vec<u8>)>>,
    bytes: Seq<u8>,
    size: Option<usize>,
) -> bool {
    match r {
        Progress::More => reading == ChunkReading::More(bytes, opt_size(size)),
        Progress::Done(None) => reading == ChunkReading::Nothing(bytes),
        Progress::Done(Some((total, chunk))) => reading == ChunkReading::Chunk(
            bytes,
            total as nat,
            chunk@,
        ),
        Progress::Failed(e) => reading == ChunkReading::Failed(bytes, e@),
    }
}

/// Read what follows a `binary` line, which ends at `at`.
fn binary_from(
    bytes: &mut Vec<u8>,
    from: usize,
    at: usize,
    closed: bool,
    total: usize,
    length: usize,
) -> (r: Progress<Option<(usize, Vec<u8>)>>)
    requires
        from <= at <= old(bytes)@.len(),
        length <= MAX_PICTURE_BYTES,
    ensures
        chunk_read(
            read_binary(
                old(bytes)@.skip(from as int),
                old(bytes)@.skip(at as int),
                closed,
                total as nat,
                length as nat,
            ),
            r,
            final(bytes)@,
            Some(total),
        ),
{
    let ghost rest = bytes@.skip(at as int);
    if bytes.len() - at <= length {
        if closed {
            bytes.clear();
            return Progress::Failed(MpdError::CutShort);
        }
        drop_front(bytes, from);
        return Progress::More;
    }
    let after: usize = at + length + 1;
    let ghost tail = rest.skip(length + 1);
    assert(bytes@.skip(after as int) =~= tail);
    match read_line(bytes, after, closed) {
        ReadLine::More => {
            drop_front(bytes, from);
            Progress::More
        },
        ReadLine::Closed => {
            drop_front(bytes, after);
            Progress::Failed(MpdError::Closed)
        },
        ReadLine::Garbled(to) => {
            assert(bytes@.skip(to as int) =~= tail.skip(to - after));
            drop_front(bytes, to);
            Progress::Failed(MpdError::Garbled)
        },
        ReadLine::Text(line, to) => {
            assert(bytes@.skip(to as int) =~= tail.skip(to - after));
            let chunk = bytes_of(bytes, at, at + length);
            assert(chunk@ =~= rest.take(length as int));
            drop_front(bytes, to);
            if text::same(&line, "OK") {
                Progress::Done(Some((total, chunk)))
            } else {
                Progress::Failed(MpdError::AfterPicture)
            }
        },
    }
}

/// Read on in a chunk of a picture: `bytes` loses what was read, `size` is the size read last.
pub fn chunk_from(bytes: &mut Vec<u8>, closed: bool, size: &mut Option<usize>) -> (r: Progress<
    Option<(usize, Vec<u8>)>,
>)
    ensures
        chunk_read(
            read_chunk(old(bytes)@, closed, opt_size(*old(size))),
            r,
            final(bytes)@,
            *final(size),
        ),
{
    proof {
        reveal_strlit("ACK ");
        reveal_strlit("size: ");
        reveal_strlit("binary: ");
    }
    let mut at: usize = 0;
    assert(bytes@.skip(0) =~= bytes@);
    loop
        invariant
            at <= bytes@.len(),
            bytes@ == old(bytes)@,
            "size: "@.len() == 6,
            "binary: "@.len() == 8,
            read_chunk(old(bytes)@, closed, opt_size(*old(size))) == read_chunk(
                bytes@.skip(at as int),
                closed,
                opt_size(*size),
            ),
        decreases bytes@.len() - at,
    {
        let ghost rest = bytes@.skip(at as int);
        proof {
            lemma_next_line(rest, closed);
        }
        match read_line(bytes, at, closed) {
            ReadLine::More => {
                drop_front(bytes, at);
                return Progress::More;
            },
            ReadLine::Closed => {
                drop_front(bytes, at);
                return Progress::Failed(MpdError::Closed);
            },
            ReadLine::Garbled(to) => {
                assert(bytes@.skip(to as int) =~= rest.skip(to - at));
                drop_front(bytes, to);
                return Progress::Failed(MpdError::Garbled);
            },
            ReadLine::Text(line, to) => {
                assert(bytes@.skip(to as int) =~= rest.skip(to - at));
                if text::same(&line, "OK") || text::has_prefix(&line, "ACK ") {
                    drop_front(bytes, to);
                    return Progress::Done(None);
                }
                if let Some(v) = text::strip(&line, "size: ") {
                    *size = read_length(&v);
                } else if let Some(v) = text::strip(&line, "binary: ") {
                    match (read_length(&v), *size) {
                        (None, _) => {
                            drop_front(bytes, to);
                            return Progress::Failed(MpdError::BadLength);
                        },
                        (Some(_), None) => {
                            drop_front(bytes, to);
                            return Progress::Failed(MpdError::NoSize);
                        },
                        (Some(length), Some(total)) => {
                            if total > MAX_PICTURE_BYTES || length > MAX_PICTURE_BYTES {
                                drop_front(bytes, to);
                                return Progress::Failed(MpdError::TooLarge);
                            }
                            return binary_from(bytes, at, to, closed, total, length);
                        },
                    }
                }
                at = to;
            },
        }
    }
}

} // verus!
