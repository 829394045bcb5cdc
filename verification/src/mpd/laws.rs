//! What holds of reading from mpd, however the bytes arrive.
use vstd::prelude::*;
use vstd::utf8::*;

use crate::mpd::wire;
use crate::number;
use crate::text;

verus! {

proof fn lemma_first_index_append<A>(s: Seq<A>, t: Seq<A>, needle: A)
    requires
        text::first_index(s, needle) is Some,
    ensures
        text::first_index(s + t, needle) == text::first_index(s, needle),
{
    text::lemma_first_index(s, needle);
    let i = text::first_index(s, needle)->Some_0;
    assert forall|j: int| 0 <= j < i implies (s + t)[j] != needle by {
        assert(s[j] != needle);
    }
    text::lemma_first_index_is(s + t, needle, i);
}

/// A whole line stays the same line when more bytes follow.
proof fn lemma_line_arrival(bytes: Seq<u8>, more: Seq<u8>, closed: bool)
    ensures
        !(wire::next_line(bytes, false) is More) ==> wire::next_line(bytes + more, closed)
            == wire::next_line(bytes, false),
{
    text::lemma_first_index(bytes, 10u8);
    if text::first_index(bytes, 10u8) is Some {
        lemma_first_index_append(bytes, more, 10u8);
        let i = text::first_index(bytes, 10u8)->Some_0;
        assert((bytes + more).take(i) =~= bytes.take(i));
    }
}

/// A reply reads the same however its bytes arrive: reading a first piece and then what is left of
/// it together with the rest comes to the same as reading all of it at once.
pub proof fn law_reply_arrival(
    bytes: Seq<u8>,
    more: Seq<u8>,
    closed: bool,
    pairs: Seq<(Seq<char>, Seq<char>)>,
)
    ensures
        match wire::read_reply(bytes, false, pairs) {
            wire::Reading::More(rest, got) => wire::read_reply(bytes + more, closed, pairs)
                == wire::read_reply(rest + more, closed, got),
            wire::Reading::Done(rest, got) => wire::read_reply(bytes + more, closed, pairs)
                == wire::Reading::Done(rest + more, got),
            wire::Reading::Failed(rest, e) => wire::read_reply(bytes + more, closed, pairs)
                == wire::Reading::Failed(rest + more, e),
        },
    decreases bytes.len(),
{
    wire::lemma_next_line(bytes, false);
    lemma_line_arrival(bytes, more, closed);
    match wire::next_line(bytes, false) {
        wire::Line::Text(line, used) => {
            assert((bytes + more).skip(used) =~= bytes.skip(used) + more);
            match text::cut_first(line, ": "@) {
                Some(kv) => law_reply_arrival(bytes.skip(used), more, closed, pairs.push(kv)),
                None => law_reply_arrival(bytes.skip(used), more, closed, pairs),
            }
        },
        wire::Line::Garbled(used) => {
            assert((bytes + more).skip(used) =~= bytes.skip(used) + more);
        },
        _ => {},
    }
}

/// A chunk of a picture reads the same however its bytes arrive.
pub proof fn law_chunk_arrival(bytes: Seq<u8>, more: Seq<u8>, closed: bool, size: Option<nat>)
    ensures
        match wire::read_chunk(bytes, false, size) {
            wire::ChunkReading::More(rest, got) => wire::read_chunk(bytes + more, closed, size)
                == wire::read_chunk(rest + more, closed, got),
            wire::ChunkReading::Nothing(rest) => wire::read_chunk(bytes + more, closed, size)
                == wire::ChunkReading::Nothing(rest + more),
            wire::ChunkReading::Chunk(rest, total, chunk) => wire::read_chunk(bytes + more, closed, size)
                == wire::ChunkReading::Chunk(rest + more, total, chunk),
            wire::ChunkReading::Failed(rest, e) => wire::read_chunk(bytes + more, closed, size)
                == wire::ChunkReading::Failed(rest + more, e),
        },
    decreases bytes.len(),
{
    wire::lemma_next_line(bytes, false);
    lemma_line_arrival(bytes, more, closed);
    match wire::next_line(bytes, false) {
        wire::Line::Text(line, used) => {
            let rest = bytes.skip(used);
            assert((bytes + more).skip(used) =~= rest + more);
            law_chunk_arrival(rest, more, closed, size);
            if text::after_prefix(line, "size: "@) is Some {
                law_chunk_arrival(rest, more, closed, wire::length_value(line.skip(6)));
            }
            match wire::length_value(line.skip(8)) {
                Some(length) => {
                    if rest.len() > length {
                        let tail = rest.skip(length as int + 1);
                        assert((rest + more).skip(length as int + 1) =~= tail + more);
                        assert((rest + more).take(length as int) =~= rest.take(length as int));
                        wire::lemma_next_line(tail, false);
                        lemma_line_arrival(tail, more, closed);
                        match wire::next_line(tail, false) {
                            wire::Line::Text(_, u) => {
                                assert((tail + more).skip(u) =~= tail.skip(u) + more);
                            },
                            wire::Line::Garbled(u) => {
                                assert((tail + more).skip(u) =~= tail.skip(u) + more);
                            },
                            _ => {},
                        }
                    }
                },
                None => {},
            }
        },
        wire::Line::Garbled(used) => {
            assert((bytes + more).skip(used) =~= bytes.skip(used) + more);
        },
        _ => {},
    }
}

// ── What mpd writes is what is read ──────────────────────────────────────

/// A line on the wire.
pub open spec fn line_bytes(line: Seq<char>) -> Seq<u8> {
    encode_utf8(line).push(10u8)
}

/// A reply on the wire: its `key: value` lines, then `OK`.
pub open spec fn reply_bytes(pairs: Seq<(Seq<char>, Seq<char>)>) -> Seq<u8>
    decreases pairs.len(),
{
    if pairs.len() == 0 {
        line_bytes("OK"@)
    } else {
        line_bytes(pairs[0].0 + ": "@ + pairs[0].1) + reply_bytes(pairs.skip(1))
    }
}

/// Can this pair stand in a reply? It keeps to one line, its key ends where it should, and the
/// line does not read as the reply's end or as a refusal.
pub open spec fn sendable(pair: (Seq<char>, Seq<char>)) -> bool {
    let line = pair.0 + ": "@ + pair.1;
    &&& !line.contains('\n')
    &&& text::find(pair.0, ": "@) is None
    &&& text::after_prefix(line, "ACK "@) is None
}

proof fn lemma_scalar_bytes(c: char)
    requires
        c != '\n',
    ensures
        forall|j: int|
            0 <= j < encode_scalar(c as u32).len() ==> #[trigger] encode_scalar(c as u32)[j] != 10u8,
{
    let v = c as u32;
    if has_width_1_encoding(v) {
        assert((v & 0x7F) as u8 == v) by (bit_vector)
            requires
                v <= 0x7F,
        ;
    } else {
        assert(0xC0u8 | (((v >> 6) & 0x1F) as u8) != 10u8) by (bit_vector);
        assert(0xE0u8 | (((v >> 12) & 0x0F) as u8) != 10u8) by (bit_vector);
        assert(0xF0u8 | (((v >> 18) & 0x7) as u8) != 10u8) by (bit_vector);
        assert(0x80u8 | ((v & 0x3F) as u8) != 10u8) by (bit_vector);
        assert(0x80u8 | (((v >> 6) & 0x3F) as u8) != 10u8) by (bit_vector);
        assert(0x80u8 | (((v >> 12) & 0x3F) as u8) != 10u8) by (bit_vector);
    }
}

/// Only a line break makes a byte that reads as one.
proof fn lemma_no_line_break(line: Seq<char>)
    requires
        !line.contains('\n'),
    ensures
        forall|j: int| 0 <= j < encode_utf8(line).len() ==> #[trigger] encode_utf8(line)[j] != 10u8,
    decreases line.len(),
{
    if line.len() > 0 {
        assert(line.contains(line[0]));
        lemma_scalar_bytes(line[0]);
        let rest = line.drop_first();
        assert(!rest.contains('\n')) by {
            assert forall|j: int| 0 <= j < rest.len() implies rest[j] != '\n' by {
                assert(rest[j] == line[j + 1]);
            }
        }
        lemma_no_line_break(rest);
        let head = encode_scalar(line[0] as u32);
        assert forall|j: int| 0 <= j < encode_utf8(line).len() implies #[trigger] encode_utf8(
            line,
        )[j] != 10u8 by {
            if j < head.len() {
                assert(encode_utf8(line)[j] == head[j]);
            } else {
                assert(encode_utf8(line)[j] == encode_utf8(rest)[j - head.len()]);
            }
        }
    }
}

/// A line that was written reads back as that line, and the next byte is the first after it.
pub proof fn law_line_reads_back(line: Seq<char>, rest: Seq<u8>, closed: bool)
    requires
        !line.contains('\n'),
    ensures
        wire::next_line(line_bytes(line) + rest, closed) == wire::Line::Text(
            line,
            line_bytes(line).len() as int,
        ),
        (line_bytes(line) + rest).skip(line_bytes(line).len() as int) == rest,
{
    let b = encode_utf8(line);
    let all = line_bytes(line) + rest;
    lemma_no_line_break(line);
    assert forall|j: int| 0 <= j < b.len() implies all[j] != 10u8 by {
        assert(all[j] == b[j]);
    }
    text::lemma_first_index_is(all, 10u8, b.len() as int);
    assert(all.take(b.len() as int) =~= b);
    encode_utf8_valid_utf8(line);
    encode_utf8_decode_utf8(line);
    assert(all.skip(line_bytes(line).len() as int) =~= rest);
}

/// A key that holds no `: ` ends at the first one behind it.
proof fn lemma_pair_splits(key: Seq<char>, value: Seq<char>)
    requires
        text::find(key, ": "@) is None,
    ensures
        text::cut_first(key + ": "@ + value, ": "@) == Some((key, value)),
{
    reveal_strlit(": ");
    let part = ": "@;
    let line = key + part + value;
    let n = key.len() as int;
    text::lemma_find(key, part);
    assert(part.is_prefix_of(line.skip(n))) by {
        assert(line.skip(n).subrange(0, 2) =~= part);
    }
    assert forall|j: int| 0 <= j < n implies !part.is_prefix_of(#[trigger] line.skip(j)) by {
        if part.is_prefix_of(line.skip(j)) {
            assert(line.skip(j)[0] == part[0] && line.skip(j)[1] == part[1]);
            assert(line[j] == ':' && line[j + 1] == ' ');
            if j + 1 < n {
                assert(key.skip(j).subrange(0, 2) =~= part);
                assert(part.is_prefix_of(key.skip(j)));
            }
        }
    }
    text::lemma_find_is(line, part, n);
    assert(line.take(n) =~= key);
    assert(line.skip(n + 2) =~= value);
}

/// What mpd writes in a reply is what is read from it, and reading stops at its end.
pub proof fn law_reply_reads_back(
    pairs: Seq<(Seq<char>, Seq<char>)>,
    before: Seq<(Seq<char>, Seq<char>)>,
    rest: Seq<u8>,
    closed: bool,
)
    requires
        forall|i: int| 0 <= i < pairs.len() ==> sendable(#[trigger] pairs[i]),
    ensures
        wire::read_reply(reply_bytes(pairs) + rest, closed, before) == wire::Reading::Done(
            rest,
            before + pairs,
        ),
    decreases pairs.len(),
{
    reveal_strlit("OK");
    if pairs.len() == 0 {
        law_line_reads_back("OK"@, rest, closed);
        assert(before + pairs =~= before);
    } else {
        let (key, value) = pairs[0];
        let line = key + ": "@ + value;
        let tail = pairs.skip(1);
        assert(sendable(pairs[0]));
        assert forall|i: int| 0 <= i < tail.len() implies sendable(#[trigger] tail[i]) by {
            assert(tail[i] == pairs[i + 1]);
        }
        let after = reply_bytes(tail) + rest;
        assert(reply_bytes(pairs) + rest =~= line_bytes(line) + after);
        law_line_reads_back(line, after, closed);
        lemma_pair_splits(key, value);
        reveal_strlit(": ");
        assert(line != "OK"@) by {
            if line == "OK"@ {
                assert(line[key.len() as int] == ':');
            }
        }
        law_reply_reads_back(tail, before.push(pairs[0]), rest, closed);
        assert(before.push(pairs[0]) + tail =~= before + pairs);
    }
}

/// A chunk on the wire: the picture's size, how many bytes follow, the bytes, and `OK`.
pub open spec fn chunk_bytes(total: nat, chunk: Seq<u8>) -> Seq<u8> {
    line_bytes("size: "@ + number::decimal(total)) + line_bytes(
        "binary: "@ + number::decimal(chunk.len()),
    ) + chunk + seq![10u8] + line_bytes("OK"@)
}

/// The line with the size sets the size.
proof fn lemma_size_line(total: nat, before: Option<nat>, rest: Seq<u8>, closed: bool)
    requires
        total <= wire::MAX_PICTURE_BYTES,
    ensures
        wire::read_chunk(
            line_bytes("size: "@ + number::decimal(total)) + rest,
            closed,
            before,
        ) == wire::read_chunk(rest, closed, Some(total)),
{
    reveal_strlit("OK");
    reveal_strlit("ACK ");
    reveal_strlit("size: ");
    number::law_decimal_reads_back(total);
    let line = "size: "@ + number::decimal(total);
    lemma_digits_no_break("size: "@, number::decimal(total));
    law_line_reads_back(line, rest, closed);
    assert(line.subrange(0, 6) =~= "size: "@);
    assert(line.skip(6) =~= number::decimal(total));
    assert(line[0] == 's');
    assert("OK"@[0] == 'O' && "ACK "@[0] == 'A');
}

/// The line with the length is followed by that many bytes.
proof fn lemma_binary_line(total: nat, length: nat, rest: Seq<u8>, closed: bool)
    requires
        total <= wire::MAX_PICTURE_BYTES,
        length <= wire::MAX_PICTURE_BYTES,
    ensures
        ({
            let all = line_bytes("binary: "@ + number::decimal(length)) + rest;
            wire::read_chunk(all, closed, Some(total)) == wire::read_binary(
                all,
                rest,
                closed,
                total,
                length,
            )
        }),
{
    reveal_strlit("OK");
    reveal_strlit("ACK ");
    reveal_strlit("size: ");
    reveal_strlit("binary: ");
    number::law_decimal_reads_back(length);
    let line = "binary: "@ + number::decimal(length);
    lemma_digits_no_break("binary: "@, number::decimal(length));
    law_line_reads_back(line, rest, closed);
    assert(line.subrange(0, 8) =~= "binary: "@);
    assert(line.skip(8) =~= number::decimal(length));
    assert(line[0] == 'b');
    assert("OK"@[0] == 'O' && "ACK "@[0] == 'A' && "size: "@[0] == 's');
}

/// A chunk that mpd writes is the chunk that is read.
pub proof fn law_chunk_reads_back(
    total: nat,
    chunk: Seq<u8>,
    before: Option<nat>,
    rest: Seq<u8>,
    closed: bool,
)
    requires
        total <= wire::MAX_PICTURE_BYTES,
        chunk.len() <= wire::MAX_PICTURE_BYTES,
    ensures
        wire::read_chunk(chunk_bytes(total, chunk) + rest, closed, before)
            == wire::ChunkReading::Chunk(rest, total, chunk),
{
    let n = chunk.len();
    let a = line_bytes("size: "@ + number::decimal(total));
    let b = line_bytes("binary: "@ + number::decimal(n));
    let ok = line_bytes("OK"@);
    let raw = chunk + seq![10u8] + (ok + rest);
    assert(chunk_bytes(total, chunk) + rest =~= a + (b + raw));
    lemma_size_line(total, before, b + raw, closed);
    lemma_binary_line(total, n, raw, closed);
    assert(!"OK"@.contains('\n')) by {
        reveal_strlit("OK");
    }
    law_line_reads_back("OK"@, rest, closed);
    assert(raw.skip(n as int + 1) =~= ok + rest);
    assert(raw.take(n as int) =~= chunk);
}

proof fn lemma_digits_no_break(word: Seq<char>, digits: Seq<char>)
    requires
        !word.contains('\n'),
        number::all_digits(digits),
    ensures
        !(word + digits).contains('\n'),
{
    let s = word + digits;
    assert forall|j: int| 0 <= j < s.len() implies s[j] != '\n' by {
        if j < word.len() {
            assert(word.contains(word[j]));
        } else {
            assert(text::is_digit(digits[j - word.len()]));
        }
    }
}

/// A line ends at its line break, and the last one where the connection does; until then it is waited
/// for. A line that is not text is told apart.
pub proof fn law_when_a_line_is_there(bytes: Seq<u8>, rest: Seq<u8>, closed: bool)
    requires
        !bytes.contains(10u8),
    ensures
        wire::next_line(bytes, false) is More,
        wire::next_line(seq![], true) is Closed,
        bytes.len() > 0 && valid_utf8(bytes) ==> wire::next_line(bytes, true) == wire::Line::Text(
            decode_utf8(bytes),
            bytes.len() as int,
        ),
        bytes.len() > 0 && !valid_utf8(bytes) ==> wire::next_line(bytes, true)
            == wire::Line::Garbled(bytes.len() as int),
        valid_utf8(bytes) ==> wire::next_line(bytes + seq![10u8] + rest, closed)
            == wire::Line::Text(decode_utf8(bytes), bytes.len() as int + 1),
        !valid_utf8(bytes) ==> wire::next_line(bytes + seq![10u8] + rest, closed)
            == wire::Line::Garbled(bytes.len() as int + 1),
{
    assert forall|j: int| 0 <= j < bytes.len() implies bytes[j] != 10u8 by {
        assert(bytes.contains(bytes[j]));
    }
    text::lemma_first_index_none(bytes, 10u8);
    text::lemma_first_index_none(Seq::<u8>::empty(), 10u8);
    let all = bytes + seq![10u8] + rest;
    text::lemma_first_index_is(all, 10u8, bytes.len() as int);
    assert(all.take(bytes.len() as int) =~= bytes);
}

/// What comes before the first `} ` is taken off a refusal, and what follows is why; without one it is
/// all of it.
proof fn lemma_refusal(head: Seq<char>, why: Seq<char>)
    requires
        !head.contains('}'),
    ensures
        wire::refusal(head + "} "@ + why) == why,
        wire::refusal(head) == head,
{
    reveal_strlit("} ");
    let part = "} "@;
    let line = head + part + why;
    let n = head.len() as int;
    assert(line.skip(n).subrange(0, 2) =~= part);
    assert forall|j: int| 0 <= j < n implies !part.is_prefix_of(#[trigger] line.skip(j)) by {
        if part.is_prefix_of(line.skip(j)) {
            assert(part[0] == line.skip(j).subrange(0, 2)[0]);
            assert(head[j] == '}');
        }
    }
    text::lemma_find_is(line, part, n);
    assert(line.skip(n + 2) =~= why);
    text::lemma_find(head, part);
    if let Some(k) = text::find(head, part) {
        assert(part[0] == head.skip(k).subrange(0, 2)[0]);
        assert(head[k] == '}');
    }
}

/// A refusal ends the reply, and mpd's own words for it are what is told: those behind the braces, or
/// all of them where there are none.
pub proof fn law_a_refusal_is_told(
    head: Seq<char>,
    why: Seq<char>,
    rest: Seq<u8>,
    closed: bool,
    pairs: Seq<(Seq<char>, Seq<char>)>,
)
    requires
        !head.contains('}'),
        !head.contains('\n'),
        !why.contains('\n'),
    ensures
        wire::read_reply(line_bytes("ACK "@ + (head + "} "@ + why)) + rest, closed, pairs)
            == wire::Reading::Failed(rest, wire::ErrorView::Refused(why)),
        wire::read_reply(line_bytes("ACK "@ + head) + rest, closed, pairs)
            == wire::Reading::Failed(rest, wire::ErrorView::Refused(head)),
{
    reveal_strlit("} ");
    reveal_strlit("ACK ");
    reveal_strlit("OK");
    lemma_refusal(head, why);
    let long = "ACK "@ + (head + "} "@ + why);
    let short = "ACK "@ + head;
    assert forall|j: int| 0 <= j < long.len() implies long[j] != '\n' by {
        if 4 <= j < 4 + head.len() {
            assert(head.contains(head[j - 4]));
        } else if j >= 6 + head.len() {
            assert(why.contains(why[j - 6 - head.len()]));
        }
    }
    assert forall|j: int| 0 <= j < short.len() implies short[j] != '\n' by {
        if 4 <= j {
            assert(head.contains(head[j - 4]));
        }
    }
    law_line_reads_back(long, rest, closed);
    law_line_reads_back(short, rest, closed);
    assert("ACK "@ =~= long.subrange(0, 4));
    assert("ACK "@ =~= short.subrange(0, 4));
    assert(long.skip(4) =~= head + "} "@ + why);
    assert(short.skip(4) =~= head);
    assert(long[0] == 'A' && short[0] == 'A' && "OK"@[0] == 'O');
}

/// A line of a reply that is no pair is passed over.
pub proof fn law_other_lines_are_passed_over(
    line: Seq<char>,
    rest: Seq<u8>,
    closed: bool,
    pairs: Seq<(Seq<char>, Seq<char>)>,
)
    requires
        !line.contains('\n'),
        line != "OK"@,
        !"ACK "@.is_prefix_of(line),
        text::find(line, ": "@) is None,
    ensures
        wire::read_reply(line_bytes(line) + rest, closed, pairs) == wire::read_reply(
            rest,
            closed,
            pairs,
        ),
{
    law_line_reads_back(line, rest, closed);
}

/// A reply that has not ended is waited for, with what has come of it kept. If the connection ends, or
/// what comes is not text, that is the error.
pub proof fn law_a_reply_that_does_not_end(
    bytes: Seq<u8>,
    closed: bool,
    pairs: Seq<(Seq<char>, Seq<char>)>,
)
    ensures
        wire::next_line(bytes, closed) is More ==> wire::read_reply(bytes, closed, pairs)
            == wire::Reading::More(bytes, pairs),
        wire::next_line(bytes, closed) is Closed ==> wire::read_reply(bytes, closed, pairs)
            == wire::Reading::Failed(bytes, wire::ErrorView::Closed),
        wire::next_line(bytes, closed) matches wire::Line::Garbled(used) ==> wire::read_reply(
            bytes,
            closed,
            pairs,
        ) == wire::Reading::Failed(bytes.skip(used), wire::ErrorView::Garbled),
{
}

/// If mpd answers with no bytes, or refuses, there is no picture there.
pub proof fn law_no_picture(
    line: Seq<char>,
    rest: Seq<u8>,
    closed: bool,
    size: Option<nat>,
)
    requires
        !line.contains('\n'),
        line == "OK"@ || "ACK "@.is_prefix_of(line),
    ensures
        wire::read_chunk(line_bytes(line) + rest, closed, size) == wire::ChunkReading::Nothing(rest),
{
    law_line_reads_back(line, rest, closed);
}

/// The length of a picture's bytes has to be a number, and the picture's size has to have come before
/// it; and neither may be more than ten megabytes.
pub proof fn law_pictures_that_are_refused(
    given: Seq<char>,
    rest: Seq<u8>,
    closed: bool,
    size: Option<nat>,
)
    requires
        !given.contains('\n'),
    ensures
        ({
            let r = wire::read_chunk(line_bytes("binary: "@ + given) + rest, closed, size);
            let length = number::unsigned_within(given, usize::MAX as nat);
            &&& length is None ==> r == wire::ChunkReading::Failed(
                rest,
                wire::ErrorView::BadLength,
            )
            &&& length is Some && size is None ==> r == wire::ChunkReading::Failed(
                rest,
                wire::ErrorView::NoSize,
            )
            &&& length is Some && size is Some && (length->Some_0 > 10485760 || size->Some_0
                > 10485760) ==> r == wire::ChunkReading::Failed(rest, wire::ErrorView::TooLarge)
            &&& length is Some && size is Some && length->Some_0 <= 10485760 && size->Some_0
                <= 10485760 && rest.len() <= length->Some_0 ==> (closed ==> r
                == wire::ChunkReading::Failed(Seq::<u8>::empty(), wire::ErrorView::CutShort)) && (
            !closed ==> r is More)
        }),
{
    reveal_strlit("binary: ");
    reveal_strlit("size: ");
    reveal_strlit("ACK ");
    reveal_strlit("OK");
    let line = "binary: "@ + given;
    assert forall|j: int| 0 <= j < line.len() implies line[j] != '\n' by {
        if j >= 8 {
            assert(given.contains(given[j - 8]));
        }
    }
    law_line_reads_back(line, rest, closed);
    assert("binary: "@ =~= line.subrange(0, 8));
    assert(line.skip(8) =~= given);
    assert(line[0] == 'b' && "OK"@[0] == 'O');
    if "ACK "@.is_prefix_of(line) {
        assert("ACK "@[0] == line.subrange(0, 4)[0]);
    }
    if "size: "@.is_prefix_of(line) {
        assert("size: "@[0] == line.subrange(0, 6)[0]);
    }
}

/// What is said of each error.
pub proof fn law_what_an_error_says(given: Seq<char>)
    ensures
        wire::error_message(wire::ErrorView::LineBreak)
            == "an mpd argument cannot contain a line break"@,
        wire::error_message(wire::ErrorView::NotMpd) == "that is not mpd"@,
        wire::error_message(wire::ErrorView::Closed) == "mpd closed the connection"@,
        wire::error_message(wire::ErrorView::CutShort) == "failed to fill whole buffer"@,
        wire::error_message(wire::ErrorView::Garbled) == "stream did not contain valid UTF-8"@,
        wire::error_message(wire::ErrorView::Refused(given)) == "mpd: "@ + given,
        wire::error_message(wire::ErrorView::BadLength) == "bad binary length from mpd"@,
        wire::error_message(wire::ErrorView::NoSize) == "mpd sent picture bytes without a size"@,
        wire::error_message(wire::ErrorView::TooLarge) == "the picture is larger than "@
            + number::decimal(10485760) + " bytes"@,
        wire::error_message(wire::ErrorView::AfterPicture)
            == "mpd sent something after the picture bytes"@,
        wire::error_message(wire::ErrorView::NotSubsystem(given)) == "not an mpd subsystem: "@
            + given,
{
}

/// A line before a picture's bytes that says neither how large it is nor how many follow is passed
/// over.
pub proof fn law_other_lines_before_a_picture(
    line: Seq<char>,
    rest: Seq<u8>,
    closed: bool,
    size: Option<nat>,
)
    requires
        !line.contains('\n'),
        line != "OK"@,
        !"ACK "@.is_prefix_of(line),
        !"size: "@.is_prefix_of(line),
        !"binary: "@.is_prefix_of(line),
    ensures
        wire::read_chunk(line_bytes(line) + rest, closed, size) == wire::read_chunk(
            rest,
            closed,
            size,
        ),
{
    law_line_reads_back(line, rest, closed);
}

/// The line with the size is what the size is, and one that is no number leaves it unknown.
pub proof fn law_the_size_of_a_picture(
    given: Seq<char>,
    rest: Seq<u8>,
    closed: bool,
    size: Option<nat>,
)
    requires
        !given.contains('\n'),
    ensures
        wire::read_chunk(line_bytes("size: "@ + given) + rest, closed, size) == wire::read_chunk(
            rest,
            closed,
            number::unsigned_within(given, usize::MAX as nat),
        ),
{
    reveal_strlit("size: ");
    reveal_strlit("ACK ");
    reveal_strlit("OK");
    let line = "size: "@ + given;
    assert forall|j: int| 0 <= j < line.len() implies line[j] != '\n' by {
        if j >= 6 {
            assert(given.contains(given[j - 6]));
        }
    }
    law_line_reads_back(line, rest, closed);
    assert("size: "@ =~= line.subrange(0, 6));
    assert(line.skip(6) =~= given);
    assert(line[0] == 's' && "OK"@[0] == 'O');
    if "ACK "@.is_prefix_of(line) {
        assert("ACK "@[0] == line.subrange(0, 4)[0]);
    }
}

/// Behind a picture's bytes and a line break there is `OK`; any other line is an error.
pub proof fn law_what_follows_a_picture(
    start: Seq<u8>,
    chunk: Seq<u8>,
    between: u8,
    line: Seq<char>,
    rest: Seq<u8>,
    closed: bool,
    total: nat,
)
    requires
        !line.contains('\n'),
    ensures
        ({
            let r = wire::read_binary(
                start,
                chunk + seq![between] + (line_bytes(line) + rest),
                closed,
                total,
                chunk.len(),
            );
            &&& line == "OK"@ ==> r == wire::ChunkReading::Chunk(rest, total, chunk)
            &&& line != "OK"@ ==> r == wire::ChunkReading::Failed(
                rest,
                wire::ErrorView::AfterPicture,
            )
        }),
{
    law_line_reads_back(line, rest, closed);
    let all = chunk + seq![between] + (line_bytes(line) + rest);
    assert(all.skip(chunk.len() as int + 1) =~= line_bytes(line) + rest);
    assert(all.take(chunk.len() as int) =~= chunk);
}

} // verus!
