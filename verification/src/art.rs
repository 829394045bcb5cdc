//! Cover art as local files, so that a screen never fetches a picture itself.
//!
//! Covers are cached under a hash of where they came from. A library song's cover comes from mpd,
//! and is keyed by the album's folder, so that one album is asked for once; a podcast's picture
//! comes from the web. A song with no cover leaves a small marker, so that it is not asked for again
//! each time the song comes up.
use vstd::prelude::*;
use vstd::utf8::*;

use crate::player::Now;
use crate::player;
use crate::text;

verus! {

/// The largest picture that is downloaded.
pub const MAX_ART_BYTES: u64 = 10 * 1024 * 1024;

pub const ART_TIMEOUT_SECONDS: u64 = 20;

/// What the name of a marker ends in.
pub const NONE_SUFFIX: &'static str = ".none";

/// How many bytes of the hash make up a name.
pub const KEY_BYTES: usize = 16;

// ── Names ────────────────────────────────────────────────────────────────

/// The SHA-256 hash of some bytes, as sha2 computes it.
pub uninterp spec fn sha256(bytes: Seq<u8>) -> Seq<u8>;

/// `sha2::Sha256::digest` gives the SHA-256 hash of the bytes: 32 bytes that depend on nothing
/// else.
#[verifier::external_body]
fn digest(bytes: &[u8]) -> (r: Vec<u8>)
    ensures
        r@ == sha256(bytes@),
        r@.len() == 32,
{
    <sha2::Sha256 as sha2::Digest>::digest(bytes).to_vec()
}

/// A digit of a hexadecimal number.
pub open spec fn hex_char(n: nat) -> char {
    if n < 10 {
        (48 + n) as char
    } else {
        (87 + n) as char
    }
}

/// Bytes in hexadecimal, two small digits for each.
pub open spec fn hex(bytes: Seq<u8>) -> Seq<char>
    decreases bytes.len(),
{
    if bytes.len() == 0 {
        seq![]
    } else {
        hex(bytes.drop_last()).push(hex_char(bytes.last() as nat / 16)).push(
            hex_char(bytes.last() as nat % 16),
        )
    }
}

/// The name that a hash makes: its first bytes in hexadecimal.
pub open spec fn key_of(hash: Seq<u8>) -> Seq<char> {
    hex(
        hash.take(
            if hash.len() < KEY_BYTES {
                hash.len() as int
            } else {
                KEY_BYTES as int
            },
        ),
    )
}

fn hex_digit(n: u8) -> (c: char)
    requires
        n < 16,
    ensures
        c == hex_char(n as nat),
{
    if n < 10 {
        (48 + n) as char
    } else {
        (87 + n) as char
    }
}

/// The name that a hash makes.
pub fn key_from_hash(hash: &[u8]) -> (r: String)
    ensures
        r@ == key_of(hash@),
{
    let end: usize = if hash.len() < KEY_BYTES {
        hash.len()
    } else {
        KEY_BYTES
    };
    let mut r = String::new();
    let mut i: usize = 0;
    assert(r@ =~= hex(hash@.take(0)));
    while i < end
        invariant
            i <= end <= hash@.len(),
            r@ == hex(hash@.take(i as int)),
        decreases end - i,
    {
        assert(hash@.take(i + 1).drop_last() =~= hash@.take(i as int));
        assert(hash@.take(i + 1).last() == hash@[i as int]);
        let b = hash[i];
        r.push(hex_digit(b / 16));
        r.push(hex_digit(b % 16));
        i += 1;
    }
    r
}

/// A stable file name for whatever a picture belongs to.
pub open spec fn key_for(source: Seq<char>) -> Seq<char> {
    key_of(sha256(encode_utf8(source)))
}

/// A stable file name for whatever a picture belongs to.
pub fn key(source: &str) -> (r: String)
    ensures
        r@ == key_for(source@),
        r@.len() == 32,
{
    let hash = digest(source.as_bytes());
    proof {
        law_key_length(hash@);
    }
    key_from_hash(&hash)
}

proof fn lemma_hex_length(bytes: Seq<u8>)
    ensures
        hex(bytes).len() == 2 * bytes.len(),
    decreases bytes.len(),
{
    if bytes.len() > 0 {
        lemma_hex_length(bytes.drop_last());
    }
}

/// Is this a small digit of a hexadecimal number?
pub open spec fn is_hex_char(c: char) -> bool {
    text::is_digit(c) || 'a' <= c <= 'f'
}

/// A cover's name is made of small hexadecimal digits.
pub proof fn law_key_is_hexadecimal(hash: Seq<u8>)
    ensures
        forall|i: int| 0 <= i < key_of(hash).len() ==> is_hex_char(#[trigger] key_of(hash)[i]),
{
    let bytes = hash.take(
        if hash.len() < KEY_BYTES {
            hash.len() as int
        } else {
            KEY_BYTES as int
        },
    );
    lemma_hex_chars(bytes);
}

proof fn lemma_hex_chars(bytes: Seq<u8>)
    ensures
        forall|i: int| 0 <= i < hex(bytes).len() ==> is_hex_char(#[trigger] hex(bytes)[i]),
    decreases bytes.len(),
{
    if bytes.len() > 0 {
        let rest = hex(bytes.drop_last());
        let (high, low) = (bytes.last() as nat / 16, bytes.last() as nat % 16);
        lemma_hex_chars(bytes.drop_last());
        assert(is_hex_char(hex_char(high)) && is_hex_char(hex_char(low)));
        assert(hex(bytes) == rest.push(hex_char(high)).push(hex_char(low)));
        assert forall|i: int| 0 <= i < hex(bytes).len() implies is_hex_char(
            #[trigger] hex(bytes)[i],
        ) by {
            if i < rest.len() {
                assert(hex(bytes)[i] == rest[i]);
            }
        }
    }
}

/// A name made from a hash of 32 bytes has 32 characters.
pub proof fn law_key_length(hash: Seq<u8>)
    requires
        hash.len() == 32,
    ensures
        key_of(hash).len() == 32,
{
    lemma_hex_length(hash.take(16));
}

// ── Where a cover comes from ─────────────────────────────────────────────

/// Where the picture for a song comes from.
#[derive(Debug, Clone, PartialEq, Eq)]
pub enum Origin {
    /// a picture on the web
    Web(String),
    /// a file of mpd's library
    Library(String),
}

/// An `Origin`, with its text as a sequence.
pub ghost enum OriginView {
    Web(Seq<char>),
    Library(Seq<char>),
}

impl View for Origin {
    type V = OriginView;

    open spec fn view(&self) -> OriginView {
        match *self {
            Origin::Web(url) => OriginView::Web(url@),
            Origin::Library(file) => OriginView::Library(file@),
        }
    }
}

/// Where the picture for what is playing comes from: an episode has its own picture or none, and a
/// radio stream has no cover to read.
pub open spec fn origin_of(now: player::NowView) -> Option<OriginView> {
    match now.podcast {
        Some(p) => match p.image_url {
            Some(url) => Some(OriginView::Web(url)),
            None => None,
        },
        None => match now.file {
            Some(file) => if text::find(file, "://"@) is Some {
                None
            } else {
                Some(OriginView::Library(file))
            },
            None => None,
        },
    }
}

/// Where the picture for what is playing comes from, if there can be one.
pub fn origin(now: &Now) -> (r: Option<Origin>)
    ensures
        match r {
            Some(o) => origin_of(now@) == Some(o@),
            None => origin_of(now@) is None,
        },
{
    if let Some(p) = &now.podcast {
        return match &p.image_url {
            Some(url) => Some(Origin::Web(url.clone())),
            None => None,
        };
    }
    match &now.file {
        Some(file) => if text::holds(file, "://") {
            None
        } else {
            Some(Origin::Library(file.clone()))
        },
        None => None,
    }
}

/// The folder that a library file lives in: one cover for each album.
pub fn album_of(file: &str) -> (r: String)
    ensures
        r@ == text::before_last(file@, '/'),
{
    text::first_pieces(file, '/')
}

/// What a picture is kept under.
pub open spec fn source_of(origin: OriginView) -> Seq<char> {
    match origin {
        OriginView::Web(url) => url,
        OriginView::Library(file) => text::before_last(file, '/'),
    }
}

/// The files of a cover in the cache.
#[derive(Debug, Clone, PartialEq, Eq)]
pub struct CoverFiles {
    pub origin: Origin,
    /// the picture
    pub name: String,
    /// the marker that there is none
    pub none: String,
    /// a picture that is still being written
    pub part: String,
}

/// The files for the cover of what is playing, if it can have one.
pub fn cover_files(now: &Now) -> (r: Option<CoverFiles>)
    ensures
        match origin_of(now@) {
            Some(o) => {
                let name = key_for(source_of(o));
                &&& r matches Some(files)
                &&& files.origin@ == o
                &&& files.name@ == name
                &&& files.none@ == name + NONE_SUFFIX@
                &&& files.part@ == "."@ + name + ".part"@
            },
            None => r is None,
        },
{
    let origin = match origin(now) {
        Some(o) => o,
        None => {
            return None;
        },
    };
    let name = match &origin {
        Origin::Web(url) => key(url),
        Origin::Library(file) => key(&album_of(file)),
    };
    let none = name.clone().concat(NONE_SUFFIX);
    let part = ".".to_owned().concat(&name).concat(".part");
    Some(CoverFiles { origin, name, none, part })
}

/// Songs of one album share one cover: they are kept under the same name.
pub proof fn law_album_shares_one_cover(a: Seq<char>, b: Seq<char>)
    requires
        text::before_last(a, '/') == text::before_last(b, '/'),
    ensures
        key_for(source_of(OriginView::Library(a))) == key_for(source_of(OriginView::Library(b))),
{
}

/// What the web has to do with a cover is decided by the podcast alone: a song that is no episode is
/// never looked for on the web, and an episode never in the library.
pub proof fn law_origin(now: player::NowView)
    ensures
        origin_of(now) matches Some(o) ==> (o is Web <==> now.podcast is Some),
        origin_of(now) matches Some(OriginView::Library(file)) ==> now.file == Some(file)
            && text::find(file, "://"@) is None,
{
}

// ── Getting a cover ──────────────────────────────────────────────────────

/// What to do about a cover.
#[derive(Debug, Clone, PartialEq, Eq)]
pub enum CoverStep {
    /// the picture is there
    Use,
    /// it is known that there is none
    NoCover,
    /// download the picture from here to its place
    Download(String),
    /// ask mpd for the picture of this file
    AskMpd(String),
}

/// What came of getting a picture.
#[derive(Debug, Clone, PartialEq, Eq)]
pub enum Fetched {
    /// the picture was downloaded to its place
    Downloaded,
    NotDownloaded,
    /// mpd sent a picture
    Picture(Vec<u8>),
    /// mpd has no picture
    NoPicture,
    /// mpd did not answer, and why
    Failed(String),
}

/// What to do with what came.
#[derive(Debug, Clone, PartialEq, Eq)]
pub enum CoverEnd {
    /// the picture is there
    Use,
    /// write the picture beside its place, then move it there, so that no reader sees half of it
    Save(Vec<u8>),
    /// leave the marker
    MarkNone,
    /// give up, and try again next time
    Fail(String),
}

/// A `CoverStep`, with its text as a sequence.
pub ghost enum CoverStepView {
    Use,
    NoCover,
    Download(Seq<char>),
    AskMpd(Seq<char>),
}

impl View for CoverStep {
    type V = CoverStepView;

    open spec fn view(&self) -> CoverStepView {
        match *self {
            CoverStep::Use => CoverStepView::Use,
            CoverStep::NoCover => CoverStepView::NoCover,
            CoverStep::Download(url) => CoverStepView::Download(url@),
            CoverStep::AskMpd(file) => CoverStepView::AskMpd(file@),
        }
    }
}

/// What to do about a cover: use the picture if it is cached, nothing if it is known that there is
/// none, and else get it.
pub open spec fn cover_step(origin: OriginView, cached: bool, marked_none: bool) -> CoverStepView {
    if cached {
        CoverStepView::Use
    } else if marked_none {
        CoverStepView::NoCover
    } else {
        match origin {
            OriginView::Web(url) => CoverStepView::Download(url),
            OriginView::Library(file) => CoverStepView::AskMpd(file),
        }
    }
}

/// What to do about a cover: use the picture if it is cached, nothing if it is known that there is
/// none, and else get it.
pub fn cover(files: &CoverFiles, cached: bool, marked_none: bool) -> (r: CoverStep)
    ensures
        r@ == cover_step(files.origin@, cached, marked_none),
{
    if cached {
        return CoverStep::Use;
    }
    if marked_none {
        return CoverStep::NoCover;
    }
    match &files.origin {
        Origin::Web(url) => CoverStep::Download(url.clone()),
        Origin::Library(file) => CoverStep::AskMpd(file.clone()),
    }
}

/// A `CoverEnd`, with its contents as sequences.
pub ghost enum CoverEndView {
    Use,
    Save(Seq<u8>),
    MarkNone,
    Fail(Seq<char>),
}

impl View for CoverEnd {
    type V = CoverEndView;

    open spec fn view(&self) -> CoverEndView {
        match *self {
            CoverEnd::Use => CoverEndView::Use,
            CoverEnd::Save(bytes) => CoverEndView::Save(bytes@),
            CoverEnd::MarkNone => CoverEndView::MarkNone,
            CoverEnd::Fail(cause) => CoverEndView::Fail(cause@),
        }
    }
}

/// What to do with what came of getting a picture: keep it, or leave the marker; if mpd did not
/// answer, do neither.
pub open spec fn cover_end(fetched: Fetched) -> CoverEndView {
    match fetched {
        Fetched::Downloaded => CoverEndView::Use,
        Fetched::NotDownloaded => CoverEndView::MarkNone,
        Fetched::Picture(bytes) => CoverEndView::Save(bytes@),
        Fetched::NoPicture => CoverEndView::MarkNone,
        Fetched::Failed(cause) => CoverEndView::Fail(cause@),
    }
}

/// What to do with what came of getting a picture.
pub fn settle(fetched: Fetched) -> (r: CoverEnd)
    ensures
        r@ == cover_end(fetched),
{
    match fetched {
        Fetched::Downloaded => CoverEnd::Use,
        Fetched::NotDownloaded => CoverEnd::MarkNone,
        Fetched::Picture(bytes) => CoverEnd::Save(bytes),
        Fetched::NoPicture => CoverEnd::MarkNone,
        Fetched::Failed(cause) => CoverEnd::Fail(cause),
    }
}

/// What to do about a cover, with these files in the cache.
pub open spec fn step_with_cache(cache: Set<Seq<char>>, origin: OriginView) -> CoverStepView {
    let name = key_for(source_of(origin));
    cover_step(origin, cache.contains(name), cache.contains(name + NONE_SUFFIX@))
}

/// The files in the cache once what came of getting a cover has been dealt with.
pub open spec fn cache_after(
    cache: Set<Seq<char>>,
    origin: OriginView,
    end: CoverEndView,
) -> Set<Seq<char>> {
    let name = key_for(source_of(origin));
    match end {
        CoverEndView::Use => cache.insert(name),
        CoverEndView::Save(_) => cache.insert(name),
        CoverEndView::MarkNone => cache.insert(name + NONE_SUFFIX@),
        CoverEndView::Fail(_) => cache,
    }
}

/// A cover is asked for once: when a song's cover has been got, or it was found that there is none, no
/// song in the same folder makes mpd be asked again. Nor does one if the first song needed no asking.
pub proof fn law_an_album_is_asked_for_once(
    cache: Set<Seq<char>>,
    a: Seq<char>,
    b: Seq<char>,
    fetched: Fetched,
)
    requires
        text::before_last(a, '/') == text::before_last(b, '/'),
        !(fetched is Failed),
    ensures
        ({
            let first = step_with_cache(cache, OriginView::Library(a));
            let after = if first is AskMpd {
                cache_after(cache, OriginView::Library(a), cover_end(fetched))
            } else {
                cache
            };
            let second = step_with_cache(after, OriginView::Library(b));
            second is Use || second is NoCover
        }),
{
}

/// A picture on the web is downloaded once, whether that succeeds or not.
pub proof fn law_a_picture_is_downloaded_once(
    cache: Set<Seq<char>>,
    url: Seq<char>,
    fetched: Fetched,
)
    requires
        !(fetched is Failed),
    ensures
        ({
            let after = cache_after(cache, OriginView::Web(url), cover_end(fetched));
            let step = step_with_cache(after, OriginView::Web(url));
            step is Use || step is NoCover
        }),
{
}

/// An episode's cover is the picture that its feed names, and it has none if the feed names none; a
/// file of the library has its own, and a stream has none.
pub proof fn law_where_a_cover_comes_from(now: player::NowView)
    ensures
        now.podcast matches Some(p) ==> (p.image_url matches Some(url) ==> origin_of(now) == Some(
            OriginView::Web(url),
        )) && (p.image_url is None ==> origin_of(now) is None),
        now.podcast is None ==> (now.file matches Some(file) ==> (text::find(file, "://"@) is None
            ==> origin_of(now) == Some(OriginView::Library(file))) && (text::find(
            file,
            "://"@,
        ) is Some ==> origin_of(now) is None)),
        now.podcast is None && now.file is None ==> origin_of(now) is None,
{
}

/// A picture on the web is kept under its URL, and that of a song under the folder that the song lies
/// in; a song in no folder stands for itself.
pub proof fn law_what_a_cover_is_kept_under(
    url: Seq<char>,
    folder: Seq<char>,
    song: Seq<char>,
)
    requires
        !song.contains('/'),
    ensures
        source_of(OriginView::Web(url)) == url,
        source_of(OriginView::Library(folder + seq!['/'] + song)) == folder,
        source_of(OriginView::Library(song)) == song,
{
    text::law_cut_at_the_last(folder, song, '/');
}

/// The number that a hexadecimal digit stands for.
pub open spec fn hex_value(c: char) -> int {
    if '0' <= c <= '9' {
        c as int - 48
    } else {
        c as int - 87
    }
}

/// A key reads back as the first sixteen bytes of the hash, two digits each.
pub proof fn law_a_key_reads_back(hash: Seq<u8>, i: int)
    requires
        0 <= i < 16,
        i < hash.len(),
    ensures
        hash.len() >= 16 ==> key_of(hash).len() == 32,
        hash.len() < 16 ==> key_of(hash).len() == 2 * hash.len(),
        hex_value(key_of(hash)[2 * i]) * 16 + hex_value(key_of(hash)[2 * i + 1]) == hash[i],
{
    let n = if hash.len() < 16 {
        hash.len() as int
    } else {
        16
    };
    lemma_hex_length(hash.take(n));
    lemma_hex_reads_back(hash.take(n), i);
}

proof fn lemma_hex_reads_back(bytes: Seq<u8>, i: int)
    requires
        0 <= i < bytes.len(),
    ensures
        hex_value(hex(bytes)[2 * i]) * 16 + hex_value(hex(bytes)[2 * i + 1]) == bytes[i],
    decreases bytes.len(),
{
    lemma_hex_length(bytes);
    lemma_hex_length(bytes.drop_last());
    if i < bytes.len() - 1 {
        lemma_hex_reads_back(bytes.drop_last(), i);
    }
}

/// A cover that is cached is used, one that is known not to be there is left, and only one of which
/// neither is known is got: from the web by its URL, or from mpd by its file.
pub proof fn law_when_a_cover_is_got(
    cached: bool,
    marked_none: bool,
    url: Seq<char>,
    file: Seq<char>,
    origin: OriginView,
)
    ensures
        cached ==> cover_step(origin, cached, marked_none) is Use,
        !cached && marked_none ==> cover_step(origin, cached, marked_none) is NoCover,
        cover_step(OriginView::Web(url), false, false) == CoverStepView::Download(url),
        cover_step(OriginView::Library(file), false, false) == CoverStepView::AskMpd(file),
{
}

/// A picture that came is kept as it came; that there is none is noted; and a failure is neither, so
/// that it is tried again.
pub proof fn law_what_becomes_of_a_cover(bytes: Vec<u8>, cause: String)
    ensures
        cover_end(Fetched::Downloaded) is Use,
        cover_end(Fetched::NotDownloaded) is MarkNone,
        cover_end(Fetched::NoPicture) is MarkNone,
        cover_end(Fetched::Picture(bytes)) == CoverEndView::Save(bytes@),
        cover_end(Fetched::Failed(cause)) == CoverEndView::Fail(cause@),
{
}

/// What something is kept under depends on it alone: it is the start of the hash of its text, in
/// hexadecimal. That there is no cover is marked by the same name with an ending.
pub proof fn law_a_key_is_the_start_of_the_hash(source: Seq<char>, i: int)
    requires
        0 <= i < 16,
    ensures
        ({
            let hash = sha256(encode_utf8(source));
            let key = key_for(source);
            hash.len() >= 16 ==> key.len() == 32 && hex_value(key[2 * i]) * 16 + hex_value(
                key[2 * i + 1],
            ) == hash[i]
        }),
        NONE_SUFFIX@ == ".none"@,
{
    let hash = sha256(encode_utf8(source));
    if hash.len() >= 16 {
        law_a_key_reads_back(hash, i);
    }
}

} // verus!
