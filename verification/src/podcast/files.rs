//! Where a download goes, and which files may be deleted.
use vstd::prelude::*;

use crate::number;
use crate::store::records;
use crate::store::rows::Episode;
use crate::store::rows;
use crate::text;

verus! {

/// The folder of the music library that downloads go into.
pub const PODCAST_FOLDER: &'static str = "podcasts";

/// A slug has at most this many characters.
pub const SLUG_MAX: usize = 60;

// ── Names ────────────────────────────────────────────────────────────────

/// The extension that goes with a media type.
pub open spec fn extension_of_type(media_type: Seq<char>) -> Option<Seq<char>> {
    let t = text::lowered(media_type);
    if t == "audio/mpeg"@ || t == "audio/mp3"@ {
        Some("mp3"@)
    } else if t == "audio/mp4"@ || t == "audio/x-m4a"@ || t == "audio/aac"@ {
        Some("m4a"@)
    } else if t == "audio/ogg"@ || t == "audio/vorbis"@ {
        Some("ogg"@)
    } else if t == "audio/opus"@ {
        Some("opus"@)
    } else if t == "audio/flac"@ || t == "audio/x-flac"@ {
        Some("flac"@)
    } else if t == "video/mp4"@ {
        Some("mp4"@)
    } else if t == "video/webm"@ {
        Some("webm"@)
    } else {
        None
    }
}

/// A short and plain extension.
pub open spec fn is_plain(ext: Seq<char>) -> bool {
    &&& 1 <= ext.len() <= 5
    &&& forall|i: int| 0 <= i < ext.len() ==> text::is_alphanumeric(#[trigger] ext[i])
}

/// The path of a URL: what follows the first slash behind its host. A host alone has none; what names
/// no host is all path.
pub open spec fn path_of_url(url: Seq<char>) -> Option<Seq<char>> {
    let whole = text::before_query(url);
    match text::cut_first(whole, "://"@) {
        Some((_, rest)) => match text::cut_first(rest, "/"@) {
            Some((_, path)) => Some(path),
            None => None,
        },
        None => Some(whole),
    }
}

/// The extension of the last piece of a URL's path, if it is short and plain.
pub open spec fn extension_of_url(url: Seq<char>) -> Option<Seq<char>> {
    match path_of_url(url) {
        Some(path) => match text::cut_last(text::after_last(path, '/'), '.') {
            Some((_, ext)) => if is_plain(text::lowered(ext)) {
                Some(text::lowered(ext))
            } else {
                None
            },
            None => None,
        },
        None => None,
    }
}

/// The extension for a media type, else the URL's own, else mp3.
pub open spec fn extension_for(media_type: Option<Seq<char>>, url: Seq<char>) -> Seq<char> {
    let by_type = match media_type {
        Some(t) => extension_of_type(t),
        None => None,
    };
    match by_type {
        Some(ext) => ext,
        None => match extension_of_url(url) {
            Some(ext) => ext,
            None => "mp3"@,
        },
    }
}

/// A slug with one more character of the title: a letter or digit as it is, made small; anything
/// else as a dash, but not at the start and not behind another.
pub open spec fn slug_step(out: Seq<char>, c: char) -> Seq<char> {
    if text::is_alphanumeric(c) {
        out.push(text::lower(c))
    } else if out.len() > 0 && out.last() != '-' {
        out.push('-')
    } else {
        out
    }
}

/// A slug continued with the rest of the title, until it is long enough.
pub open spec fn slug_from(out: Seq<char>, title: Seq<char>) -> Seq<char>
    decreases title.len(),
{
    if title.len() == 0 {
        out
    } else {
        let next = slug_step(out, title[0]);
        if next.len() >= SLUG_MAX {
            next
        } else {
            slug_from(next, title.skip(1))
        }
    }
}

/// A text without a dash at its end.
pub open spec fn without_last_dash(out: Seq<char>) -> Seq<char> {
    if out.len() > 0 && out.last() == '-' {
        out.drop_last()
    } else {
        out
    }
}

/// The slug of a title: `Episode 12: Hello, World!` gives `episode-12-hello-world`.
pub open spec fn slug_of(title: Seq<char>) -> Seq<char> {
    let out = without_last_dash(slug_from(seq![], title));
    if out.len() == 0 {
        "episode"@
    } else {
        out
    }
}

/// Where an episode's download goes, inside the music folder.
pub open spec fn download_path_of(episode: rows::EpisodeView) -> Seq<char> {
    PODCAST_FOLDER@ + "/"@ + episode.show + "/"@ + number::signed_decimal(episode.id) + "-"@
        + slug_of(episode.about.title) + "."@ + extension_for(
        episode.about.media_type,
        episode.about.url,
    )
}

fn type_extension(media_type: &str) -> (r: Option<&'static str>)
    ensures
        match r {
            Some(ext) => extension_of_type(media_type@) == Some(ext@),
            None => extension_of_type(media_type@) is None,
        },
{
    let t = text::lowercase(media_type);
    if text::same(&t, "audio/mpeg") || text::same(&t, "audio/mp3") {
        Some("mp3")
    } else if text::same(&t, "audio/mp4") || text::same(&t, "audio/x-m4a") || text::same(
        &t,
        "audio/aac",
    ) {
        Some("m4a")
    } else if text::same(&t, "audio/ogg") || text::same(&t, "audio/vorbis") {
        Some("ogg")
    } else if text::same(&t, "audio/opus") {
        Some("opus")
    } else if text::same(&t, "audio/flac") || text::same(&t, "audio/x-flac") {
        Some("flac")
    } else if text::same(&t, "video/mp4") {
        Some("mp4")
    } else if text::same(&t, "video/webm") {
        Some("webm")
    } else {
        None
    }
}

fn plain(ext: &str) -> (r: bool)
    ensures
        r == is_plain(ext@),
{
    let chars = text::characters(ext);
    if chars.len() < 1 || chars.len() > 5 {
        return false;
    }
    let mut i: usize = 0;
    while i < chars.len()
        invariant
            i <= chars@.len(),
            chars@ == ext@,
            forall|j: int| 0 <= j < i ==> text::is_alphanumeric(#[trigger] ext@[j]),
        decreases chars@.len() - i,
    {
        if !text::alphanumeric(chars[i]) {
            assert(!text::is_alphanumeric(ext@[i as int]));
            return false;
        }
        i += 1;
    }
    true
}

fn url_path(url: &str) -> (r: Option<String>)
    ensures
        text::opt(r) == path_of_url(url@),
{
    let whole = text::without_query(url);
    match text::split_first(&whole, "://") {
        Some((_, rest)) => match text::split_first(&rest, "/") {
            Some((_, path)) => Some(path),
            None => None,
        },
        None => Some(whole),
    }
}

fn extension(media_type: &Option<String>, url: &str) -> (r: String)
    ensures
        r@ == extension_for(text::opt(*media_type), url@),
{
    if let Some(t) = media_type {
        if let Some(ext) = type_extension(t) {
            return ext.to_owned();
        }
    }
    if let Some(path) = url_path(url) {
        let segment = text::last_piece(&path, '/');
        if let Some((_, ext)) = text::split_last(&segment, '.') {
            let ext = text::lowercase(&ext);
            if plain(&ext) {
                return ext;
            }
        }
    }
    "mp3".to_owned()
}

fn slug(title: &str) -> (r: String)
    ensures
        r@ == slug_of(title@),
{
    let chars = text::characters(title);
    let mut out: Vec<char> = Vec::new();
    let mut i: usize = 0;
    assert(title@.skip(0) =~= title@);
    assert(out@ =~= seq![]);
    while i < chars.len() && out.len() < SLUG_MAX
        invariant
            i <= chars@.len(),
            chars@ == title@,
            if out@.len() < SLUG_MAX {
                slug_from(seq![], title@) == slug_from(out@, title@.skip(i as int))
            } else {
                slug_from(seq![], title@) == out@
            },
        decreases chars@.len() - i,
    {
        assert(title@.skip(i as int)[0] == chars@[i as int]);
        assert(title@.skip(i as int).skip(1) =~= title@.skip(i + 1));
        let c = chars[i];
        if text::alphanumeric(c) {
            out.push(text::lowercase_char(c));
        } else if out.len() > 0 && out[out.len() - 1] != '-' {
            out.push('-');
        }
        i += 1;
    }
    if out.len() > 0 && out[out.len() - 1] == '-' {
        let ghost had = out@;
        out.pop();
        assert(out@ =~= had.drop_last());
    }
    if out.len() == 0 {
        "episode".to_owned()
    } else {
        let r = text::text_of(&out, 0, out.len());
        assert(r@ =~= out@);
        r
    }
}

/// Where an episode's download goes, inside the music folder: the path that mpd uses.
pub fn download_path(episode: &Episode) -> (r: String)
    ensures
        r@ == download_path_of(episode@),
{
    let r = PODCAST_FOLDER.to_owned().concat("/").concat(&episode.show).concat("/").concat(
        &number::write_signed(episode.id),
    ).concat("-").concat(&slug(&episode.title)).concat(".").concat(
        &extension(&episode.media_type, &episode.url),
    );
    r
}

// ── Deleting ─────────────────────────────────────────────────────────────

/// May the file at this path be deleted as a download? Only inside the podcast folder, whatever
/// the records say: no piece of the path goes up.
pub open spec fn is_removable(path: Seq<char>) -> bool {
    (PODCAST_FOLDER@ + "/"@).is_prefix_of(path) && !text::pieces(path, '/').contains(".."@)
}

/// May the file at this path be deleted as a download?
pub fn removable(path: &str) -> (r: bool)
    ensures
        r == is_removable(path@),
{
    let folder = PODCAST_FOLDER.to_owned().concat("/");
    text::has_prefix(path, &folder) && !text::has_piece(path, '/', "..")
}

// ── Laws ─────────────────────────────────────────────────────────────────

/// A character of a slug.
pub open spec fn slug_char(c: char) -> bool {
    text::is_digit(c) || text::is_lower(c) || c == '-'
}

proof fn lemma_lower(c: char)
    requires
        text::is_alphanumeric(c),
    ensures
        text::is_digit(text::lower(c)) || text::is_lower(text::lower(c)),
{
}

pub proof fn lemma_slug_from(out: Seq<char>, title: Seq<char>)
    requires
        out.len() < SLUG_MAX,
        forall|i: int| 0 <= i < out.len() ==> slug_char(#[trigger] out[i]),
        out.len() > 0 ==> out[0] != '-',
        forall|i: int|
            0 <= i < out.len() - 1 ==> !(#[trigger] out[i] == '-' && out[i + 1] == '-'),
    ensures
        ({
            let r = slug_from(out, title);
            &&& r.len() <= SLUG_MAX
            &&& forall|i: int| 0 <= i < r.len() ==> slug_char(#[trigger] r[i])
            &&& r.len() > 0 ==> r[0] != '-'
            &&& forall|i: int|
                0 <= i < r.len() - 1 ==> !(#[trigger] r[i] == '-' && r[i + 1] == '-')
        }),
    decreases title.len(),
{
    if title.len() > 0 {
        let next = slug_step(out, title[0]);
        if text::is_alphanumeric(title[0]) {
            lemma_lower(title[0]);
        }
        assert forall|i: int| 0 <= i < next.len() implies slug_char(#[trigger] next[i]) by {
            if i < out.len() {
                assert(next[i] == out[i]);
            }
        }
        assert forall|i: int| 0 <= i < next.len() - 1 implies !(#[trigger] next[i] == '-'
            && next[i + 1] == '-') by {
            if i < out.len() - 1 {
                assert(next[i] == out[i] && next[i + 1] == out[i + 1]);
            } else {
                assert(next[i] == out.last());
            }
        }
        if next.len() < SLUG_MAX {
            lemma_slug_from(next, title.skip(1));
        }
    }
}

/// A slug is never empty, is not too long, holds small letters, digits and dashes only, starts and
/// ends with no dash, and has no two dashes side by side.
pub proof fn law_slug(title: Seq<char>)
    ensures
        0 < slug_of(title).len() <= SLUG_MAX,
        forall|i: int| 0 <= i < slug_of(title).len() ==> slug_char(#[trigger] slug_of(title)[i]),
        slug_of(title)[0] != '-',
        slug_of(title).last() != '-',
        forall|i: int|
            0 <= i < slug_of(title).len() - 1 ==> !(#[trigger] slug_of(title)[i] == '-' && slug_of(
                title,
            )[i + 1] == '-'),
{
    reveal_strlit("episode");
    let out = slug_from(seq![], title);
    lemma_slug_from(seq![], title);
    let cut = without_last_dash(out);
    assert forall|i: int| 0 <= i < cut.len() implies #[trigger] cut[i] == out[i] by {}
    if out.len() > 0 && out.last() == '-' && cut.len() > 0 {
        assert(!(out[out.len() - 2] == '-' && out[out.len() - 2 + 1] == '-'));
        assert(cut.last() == out[out.len() - 2]);
    }
    assert forall|i: int| 0 <= i < cut.len() - 1 implies !(#[trigger] cut[i] == '-' && cut[i + 1]
        == '-') by {
        assert(cut[i] == out[i] && cut[i + 1] == out[i + 1]);
    }
}

/// An extension has one to five letters and digits.
pub proof fn law_extension(media_type: Option<Seq<char>>, url: Seq<char>)
    ensures
        is_plain(extension_for(media_type, url)),
{
    reveal_strlit("mp3");
    reveal_strlit("m4a");
    reveal_strlit("ogg");
    reveal_strlit("opus");
    reveal_strlit("flac");
    reveal_strlit("mp4");
    reveal_strlit("webm");
}

/// The file name that an episode's download gets.
pub open spec fn file_name_of(episode: rows::EpisodeView) -> Seq<char> {
    number::signed_decimal(episode.id) + "-"@ + slug_of(episode.about.title) + "."@ + extension_for(
        episode.about.media_type,
        episode.about.url,
    )
}

/// A feed cannot choose where a file goes: a download lies in its show's folder inside the podcast
/// folder, under a name that holds no slash, and one dot only, before its extension.
pub proof fn law_download_stays_in_its_folder(episode: rows::EpisodeView)
    ensures
        download_path_of(episode) == "podcasts"@ + "/"@ + episode.show + "/"@ + file_name_of(
            episode,
        ),
        text::first_index(file_name_of(episode), '/') is None,
        text::first_index(file_name_of(episode), '.') == Some(
            file_name_of(episode).len() - 1 - extension_for(
                episode.about.media_type,
                episode.about.url,
            ).len(),
        ),
{
    reveal_strlit("-");
    reveal_strlit(".");
    let id = number::signed_decimal(episode.id);
    let slug = slug_of(episode.about.title);
    let ext = extension_for(episode.about.media_type, episode.about.url);
    let name = file_name_of(episode);
    law_slug(episode.about.title);
    law_extension(episode.about.media_type, episode.about.url);
    number::law_decimal_reads_back(
        if episode.id < 0 {
            (-episode.id) as nat
        } else {
            episode.id as nat
        },
    );
    assert(download_path_of(episode) =~= "podcasts"@ + "/"@ + episode.show + "/"@ + name);
    let dot = id.len() + 1 + slug.len();
    assert forall|i: int| 0 <= i < name.len() implies #[trigger] name[i] != '/' by {
        lemma_name_char(id, slug, ext, i);
    }
    assert forall|i: int| 0 <= i < dot implies #[trigger] name[i] != '.' by {
        lemma_name_char(id, slug, ext, i);
    }
    text::lemma_first_index_none(name, '/');
    text::lemma_first_index_is(name, '.', dot as int);
}

proof fn lemma_name_char(id: Seq<char>, slug: Seq<char>, ext: Seq<char>, i: int)
    requires
        forall|k: int| 0 <= k < id.len() ==> #[trigger] id[k] == '-' || text::is_digit(id[k]),
        forall|k: int| 0 <= k < slug.len() ==> slug_char(#[trigger] slug[k]),
        is_plain(ext),
        0 <= i < id.len() + 1 + slug.len() + 1 + ext.len(),
    ensures
        (id + "-"@ + slug + "."@ + ext)[i] != '/',
        i < id.len() + 1 + slug.len() ==> (id + "-"@ + slug + "."@ + ext)[i] != '.',
{
    reveal_strlit("-");
    reveal_strlit(".");
}

/// How many folders down a path leads: a piece that goes up leads back, and an empty one or a single
/// dot stays.
pub open spec fn depth(pieces: Seq<Seq<char>>) -> int
    decreases pieces.len(),
{
    if pieces.len() == 0 {
        0
    } else if pieces.last() == ".."@ {
        depth(pieces.drop_last()) - 1
    } else if pieces.last().len() == 0 || pieces.last() == "."@ {
        depth(pieces.drop_last())
    } else {
        depth(pieces.drop_last()) + 1
    }
}

proof fn lemma_depth(pieces: Seq<Seq<char>>, n: int)
    requires
        pieces.len() > 0,
        pieces[0] == "podcasts"@,
        !pieces.contains(".."@),
        1 <= n <= pieces.len(),
    ensures
        depth(pieces.take(n)) >= 1,
    decreases n,
{
    reveal_strlit("podcasts");
    reveal_strlit("..");
    reveal_strlit(".");
    let now = pieces.take(n);
    assert(now.drop_last() =~= pieces.take(n - 1));
    assert(now.last() == pieces[n - 1]);
    assert(pieces.contains(pieces[n - 1]));
    if n > 1 {
        lemma_depth(pieces, n - 1);
    } else {
        assert(depth(pieces.take(0)) == 0);
    }
}

/// What may be deleted lies in the podcast folder: the path leads into it, none of its pieces goes up,
/// and followed piece by piece it never comes back out.
pub proof fn law_removable_stays_inside(path: Seq<char>)
    requires
        is_removable(path),
    ensures
        text::pieces(path, '/')[0] == "podcasts"@,
        forall|i: int|
            0 <= i < text::pieces(path, '/').len() ==> #[trigger] text::pieces(path, '/')[i]
                != ".."@,
        forall|n: int|
            1 <= n <= text::pieces(path, '/').len() ==> depth(
                #[trigger] text::pieces(path, '/').take(n),
            ) >= 1,
{
    reveal_strlit("podcasts");
    reveal_strlit("/");
    let folder = "podcasts"@;
    let all = text::pieces(path, '/');
    let rest = path.skip(9);
    let start = PODCAST_FOLDER@ + "/"@;
    assert(start.len() == 9);
    assert(start == path.subrange(0, 9));
    assert forall|j: int| 0 <= j < 9 implies path[j] == start[j] by {
        assert(path.subrange(0, 9)[j] == path[j]);
    }
    assert(path =~= folder + seq!['/'] + rest);
    text::lemma_pieces(folder, rest, '/');
    assert(all[0] == folder);
    assert forall|n: int| 1 <= n <= all.len() implies depth(#[trigger] all.take(n)) >= 1 by {
        lemma_depth(all, n);
    }
}

/// The pieces of a download's path: the podcast folder, the show's folder, and the file.
proof fn lemma_download_pieces(episode: rows::EpisodeView)
    requires
        !episode.show.contains('/'),
    ensures
        text::pieces(download_path_of(episode), '/') == seq![
            "podcasts"@,
            episode.show,
            file_name_of(episode),
        ],
{
    reveal_strlit("podcasts");
    reveal_strlit("/");
    let folder = "podcasts"@;
    let show = episode.show;
    let name = file_name_of(episode);
    law_download_stays_in_its_folder(episode);
    text::lemma_first_index(name, '/');
    assert(!name.contains('/'));
    let inner = show + seq!['/'] + name;
    assert(download_path_of(episode) =~= folder + seq!['/'] + inner);
    text::lemma_pieces(folder, inner, '/');
    text::lemma_pieces(show, name, '/');
    text::lemma_pieces(name, seq![], '/');
    assert(text::pieces(download_path_of(episode), '/') =~= seq![folder, show, name]);
}

/// A download can be deleted again, whatever its feed said: its path is removable for every name that
/// a show can have.
pub proof fn law_downloads_are_removable(episode: rows::EpisodeView)
    requires
        records::is_valid_name(episode.show),
    ensures
        is_removable(download_path_of(episode)),
{
    reveal_strlit("podcasts");
    reveal_strlit("/");
    reveal_strlit("..");
    reveal_strlit("-");
    reveal_strlit(".");
    records::law_valid_name_is_one_folder(episode.show);
    lemma_download_pieces(episode);
    law_download_stays_in_its_folder(episode);
    let path = download_path_of(episode);
    let name = file_name_of(episode);
    assert((PODCAST_FOLDER@ + "/"@) =~= path.subrange(0, 9));
    law_slug(episode.about.title);
    number::law_signed_reads_back(episode.id);
    assert(name.len() > 3);
    let pieces = text::pieces(path, '/');
    assert forall|i: int| 0 <= i < pieces.len() implies pieces[i] != ".."@ by {
        assert(pieces[0] == "podcasts"@ && pieces[1] == episode.show && pieces[2] == name);
    }
}

/// Two different episodes never share a file: downloads of episodes with different ids go to
/// different paths.
pub proof fn law_downloads_do_not_collide(a: rows::EpisodeView, b: rows::EpisodeView)
    requires
        records::is_valid_name(a.show),
        records::is_valid_name(b.show),
        a.id != b.id,
    ensures
        download_path_of(a) != download_path_of(b),
{
    if download_path_of(a) == download_path_of(b) {
        records::law_valid_name_is_one_folder(a.show);
        records::law_valid_name_is_one_folder(b.show);
        lemma_download_pieces(a);
        lemma_download_pieces(b);
        let pieces = text::pieces(download_path_of(a), '/');
        assert(pieces[2] == file_name_of(a) && pieces[2] == file_name_of(b));
        lemma_id_of_name(a);
        lemma_id_of_name(b);
    }
}

/// The text of a number, read off the front of a file's name: what stands before the first dash that
/// is no sign.
pub open spec fn id_text(name: Seq<char>) -> Seq<char> {
    if name.len() > 0 && name[0] == '-' {
        seq!['-'] + text::cut_first(name.skip(1), "-"@)->Some_0.0
    } else {
        text::cut_first(name, "-"@)->Some_0.0
    }
}

proof fn lemma_cut_at_dash(digits: Seq<char>, rest: Seq<char>)
    requires
        number::all_digits(digits),
    ensures
        text::cut_first(digits + seq!['-'] + rest, "-"@) == Some((digits, rest)),
{
    reveal_strlit("-");
    let s = digits + seq!['-'] + rest;
    let n = digits.len() as int;
    assert(s.skip(n).subrange(0, 1) =~= "-"@);
    assert forall|j: int| 0 <= j < n implies !"-"@.is_prefix_of(#[trigger] s.skip(j)) by {
        assert(s.skip(j)[0] == digits[j]);
        assert(text::is_digit(digits[j]));
        assert(s.skip(j).subrange(0, 1)[0] == digits[j]);
    }
    text::lemma_find_is(s, "-"@, n);
    assert(s.take(n) =~= digits);
    assert(s.skip(n + 1) =~= rest);
}

proof fn lemma_id_of_name(episode: rows::EpisodeView)
    ensures
        number::signed_value(id_text(file_name_of(episode))) == Some(episode.id),
{
    reveal_strlit("-");
    let name = file_name_of(episode);
    let rest = slug_of(episode.about.title) + "."@ + extension_for(
        episode.about.media_type,
        episode.about.url,
    );
    number::law_signed_reads_back(episode.id);
    if episode.id < 0 {
        let digits = number::decimal((-episode.id) as nat);
        number::law_decimal_reads_back((-episode.id) as nat);
        assert(name.skip(1) =~= digits + seq!['-'] + rest);
        lemma_cut_at_dash(digits, rest);
    } else {
        let digits = number::decimal(episode.id as nat);
        number::law_decimal_reads_back(episode.id as nat);
        assert(name =~= digits + seq!['-'] + rest);
        assert(text::is_digit(digits[0]));
        lemma_cut_at_dash(digits, rest);
    }
}

// ── Slugs of slugs ───────────────────────────────────────────────────────

proof fn lemma_no_letters(title: Seq<char>)
    requires
        forall|i: int| 0 <= i < title.len() ==> !text::is_alphanumeric(#[trigger] title[i]),
    ensures
        slug_from(seq![], title) == Seq::<char>::empty(),
    decreases title.len(),
{
    if title.len() > 0 {
        assert(!text::is_alphanumeric(title[0]));
        let rest = title.skip(1);
        assert forall|i: int| 0 <= i < rest.len() implies !text::is_alphanumeric(
            #[trigger] rest[i],
        ) by {
            assert(rest[i] == title[i + 1]);
        }
        lemma_no_letters(rest);
    }
}

/// What is made like a slug goes through unchanged.
proof fn lemma_slug_passes(out: Seq<char>, rest: Seq<char>)
    requires
        (out + rest).len() <= SLUG_MAX,
        forall|i: int| 0 <= i < (out + rest).len() ==> slug_char(#[trigger] (out + rest)[i]),
        (out + rest).len() > 0 ==> (out + rest)[0] != '-',
        forall|i: int|
            0 <= i < (out + rest).len() - 1 ==> !(#[trigger] (out + rest)[i] == '-' && (out
                + rest)[i + 1] == '-'),
    ensures
        slug_from(out, rest) == out + rest,
    decreases rest.len(),
{
    let all = out + rest;
    if rest.len() == 0 {
        assert(all =~= out);
    } else {
        let c = rest[0];
        let n = out.len() as int;
        assert(all[n] == c);
        assert(slug_char(c));
        if c == '-' {
            assert(n > 0);
            assert(all[n - 1] == out.last());
            assert(!(all[n - 1] == '-' && all[n - 1 + 1] == '-'));
        }
        let next = out.push(c);
        assert(slug_step(out, c) =~= next);
        assert(next + rest.skip(1) =~= all);
        if next.len() >= SLUG_MAX {
            assert(next =~= all);
        } else {
            lemma_slug_passes(next, rest.skip(1));
        }
    }
}

/// A slug's slug is itself, and a title without an ASCII letter or digit gives `episode`.
pub proof fn law_slug_of_a_slug(title: Seq<char>)
    ensures
        slug_of(slug_of(title)) == slug_of(title),
        (forall|i: int| 0 <= i < title.len() ==> !text::is_alphanumeric(#[trigger] title[i]))
            ==> slug_of(title) == "episode"@,
{
    let s = slug_of(title);
    law_slug(title);
    assert(Seq::<char>::empty() + s =~= s);
    lemma_slug_passes(seq![], s);
    if forall|i: int| 0 <= i < title.len() ==> !text::is_alphanumeric(#[trigger] title[i]) {
        lemma_no_letters(title);
    }
}

} // verus!
