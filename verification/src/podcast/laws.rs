//! What podcasts promise: which episodes a refresh adds, what is played, and that a download's name
//! says what it is.
use vstd::prelude::*;

use crate::number;
use crate::mpd::reply;
use crate::podcast::feed;
use crate::podcast::files;
use crate::podcast::follow;
use crate::podcast::follow::PlayStage;
use crate::podcast::resume;
use crate::store::changes;
use crate::store::order;
use crate::store::promises;
use crate::store::records;
use crate::store::rows;
use crate::text;

verus! {

// ── Slugs ────────────────────────────────────────────────────────────────

/// The ASCII letters and digits of a text, in order, in lower case.
pub open spec fn letters(s: Seq<char>) -> Seq<char>
    decreases s.len(),
{
    if s.len() == 0 {
        seq![]
    } else if text::is_alphanumeric(s.last()) {
        letters(s.drop_last()).push(text::lower(s.last()))
    } else {
        letters(s.drop_last())
    }
}

proof fn lemma_letters_join(a: Seq<char>, b: Seq<char>)
    ensures
        letters(a + b) == letters(a) + letters(b),
    decreases b.len(),
{
    if b.len() == 0 {
        assert(a + b =~= a);
        assert(letters(a) + letters(b) =~= letters(a));
    } else {
        lemma_letters_join(a, b.drop_last());
        assert((a + b).drop_last() =~= a + b.drop_last());
        assert((a + b).last() == b.last());
        assert(letters(a + b) =~= letters(a) + letters(b));
    }
}

proof fn lemma_letters_step(out: Seq<char>, c: char)
    ensures
        letters(files::slug_step(out, c)) == letters(out) + letters(seq![c]),
{
    reveal_with_fuel(letters, 2);
    assert(seq![c].drop_last() =~= seq![]);
    assert(seq![c].last() == c);
    let next = files::slug_step(out, c);
    if text::is_alphanumeric(c) {
        assert(next.drop_last() =~= out);
        assert(text::is_alphanumeric(text::lower(c)));
        assert(text::lower(text::lower(c)) == text::lower(c));
        assert(letters(next) =~= letters(out) + letters(seq![c]));
    } else {
        if next.len() > out.len() {
            assert(next.drop_last() =~= out);
            assert(!text::is_alphanumeric('-'));
        }
        assert(letters(next) =~= letters(out) + letters(seq![c]));
    }
}

proof fn lemma_letters_of_title(out: Seq<char>, title: Seq<char>) -> (got: Seq<char>)
    requires
        out.len() < 60,
    ensures
        letters(files::slug_from(out, title)) == letters(out) + got,
        got.is_prefix_of(letters(title)),
        out.len() + title.len() <= 60 ==> got == letters(title),
    decreases title.len(),
{
    if title.len() == 0 {
        assert(letters(out) + Seq::<char>::empty() =~= letters(out));
        Seq::<char>::empty()
    } else {
        let next = files::slug_step(out, title[0]);
        let first = letters(seq![title[0]]);
        let rest = title.skip(1);
        lemma_letters_step(out, title[0]);
        assert(seq![title[0]] + rest =~= title);
        lemma_letters_join(seq![title[0]], rest);
        if next.len() >= 60 {
            assert(first =~= (first + letters(rest)).subrange(0, first.len() as int));
            if out.len() + title.len() <= 60 {
                assert(rest.len() == 0);
                assert(first + letters(rest) =~= first);
            }
            first
        } else {
            let got = lemma_letters_of_title(next, rest);
            assert(letters(next) + got =~= letters(out) + (first + got));
            assert(first + got =~= (first + letters(rest)).subrange(0, (first + got).len() as int))
                by {
                assert(got == letters(rest).subrange(0, got.len() as int));
                assert forall|i: int| 0 <= i < got.len() implies got[i] == letters(rest)[i] by {
                    assert(got[i] == letters(rest).subrange(0, got.len() as int)[i]);
                }
            }
            first + got
        }
    }
}

proof fn lemma_slug_grows(out: Seq<char>, title: Seq<char>)
    ensures
        files::slug_from(out, title).len() >= out.len(),
        letters(title).len() > 0 ==> files::slug_from(out, title).len() > 0,
    decreases title.len(),
{
    if title.len() > 0 {
        let next = files::slug_step(out, title[0]);
        let rest = title.skip(1);
        if next.len() < 60 {
            lemma_slug_grows(next, rest);
        }
        assert(seq![title[0]] + rest =~= title);
        lemma_letters_join(seq![title[0]], rest);
        if !text::is_alphanumeric(title[0]) {
            reveal_with_fuel(letters, 2);
            assert(letters(seq![title[0]]).len() == 0);
        }
    }
}

proof fn lemma_slug_has_letters(title: Seq<char>)
    requires
        letters(title).len() > 0,
    ensures
        ({
            let out = files::slug_from(seq![], title);
            &&& files::without_last_dash(out).len() > 0
            &&& files::slug_of(title) == files::without_last_dash(out)
            &&& letters(files::slug_of(title)) == letters(out)
            &&& out.len() > 0
        }),
{
    let out = files::slug_from(seq![], title);
    files::lemma_slug_from(seq![], title);
    lemma_slug_grows(seq![], title);
    if out.last() == '-' {
        assert(out.len() > 1);
        assert(!text::is_alphanumeric('-'));
    }
}

/// A title can be read in its slug: the slug's letters and digits are the title's, in order and in
/// lower case, from the first on; and where the title has no more than sixty characters, they are
/// all there.
pub proof fn law_a_slug_says_its_title(title: Seq<char>)
    requires
        letters(title).len() > 0,
    ensures
        letters(files::slug_of(title)).is_prefix_of(letters(title)),
        title.len() <= 60 ==> letters(files::slug_of(title)) == letters(title),
        0 < files::slug_of(title).len() <= 60,
{
    lemma_slug_has_letters(title);
    files::law_slug(title);
    let got = lemma_letters_of_title(seq![], title);
    assert(letters(Seq::<char>::empty()) + got =~= got);
}

/// A word's slug is the word in lower case, as far as sixty characters go.
pub proof fn law_slug_of_a_word(word: Seq<char>)
    requires
        word.len() > 0,
        forall|i: int| 0 <= i < word.len() ==> text::is_alphanumeric(#[trigger] word[i]),
    ensures
        word.len() <= 60 ==> files::slug_of(word) == text::lowered(word),
        word.len() > 60 ==> files::slug_of(word) == text::lowered(word.take(60)),
{
    lemma_word(seq![], word);
    let n = if word.len() < 60 {
        word.len() as int
    } else {
        60
    };
    let r = text::lowered(word.take(n));
    assert(files::slug_from(seq![], word) =~= r);
    assert(word.take(word.len() as int) =~= word);
    assert(text::is_alphanumeric(word[n - 1]));
    assert(r.last() == text::lower(word[n - 1]));
    assert(r.last() != '-');
}

proof fn lemma_word(out: Seq<char>, word: Seq<char>)
    requires
        out.len() < 60,
        forall|i: int| 0 <= i < word.len() ==> text::is_alphanumeric(#[trigger] word[i]),
    ensures
        ({
            let n = if out.len() + word.len() < 60 {
                word.len() as int
            } else {
                60 - out.len()
            };
            files::slug_from(out, word) == out + text::lowered(word.take(n))
        }),
    decreases word.len(),
{
    if word.len() == 0 {
        assert(out + text::lowered(word.take(0)) =~= out);
    } else {
        assert(text::is_alphanumeric(word[0]));
        let next = out.push(text::lower(word[0]));
        let rest = word.skip(1);
        if next.len() >= 60 {
            assert(out + text::lowered(word.take(1)) =~= next);
        } else {
            assert forall|i: int| 0 <= i < rest.len() implies text::is_alphanumeric(
                #[trigger] rest[i],
            ) by {
                assert(rest[i] == word[i + 1]);
            }
            lemma_word(next, rest);
            let m = if next.len() + rest.len() < 60 {
                rest.len() as int
            } else {
                60 - next.len()
            };
            assert(next + text::lowered(rest.take(m)) =~= out + text::lowered(word.take(m + 1)));
        }
    }
}

proof fn lemma_slug_goes_on(out: Seq<char>, a: Seq<char>, b: Seq<char>)
    requires
        out.len() + a.len() < 60,
    ensures
        files::slug_from(out, a + b) == files::slug_from(files::slug_from(out, a), b),
        files::slug_from(out, a).len() <= out.len() + a.len(),
    decreases a.len(),
{
    if a.len() == 0 {
        assert(a + b =~= b);
    } else {
        assert((a + b)[0] == a[0]);
        assert((a + b).skip(1) =~= a.skip(1) + b);
        lemma_slug_goes_on(files::slug_step(out, a[0]), a.skip(1), b);
    }
}

proof fn lemma_slug_of_a_gap(out: Seq<char>, gap: Seq<char>)
    requires
        out.len() > 0,
        out.len() + gap.len() < 60,
        forall|i: int| 0 <= i < gap.len() ==> !text::is_alphanumeric(#[trigger] gap[i]),
    ensures
        out.last() == '-' ==> files::slug_from(out, gap) == out,
        out.last() != '-' && gap.len() > 0 ==> files::slug_from(out, gap) == out.push('-'),
    decreases gap.len(),
{
    if gap.len() > 0 {
        assert(!text::is_alphanumeric(gap[0]));
        let rest = gap.skip(1);
        assert forall|i: int| 0 <= i < rest.len() implies !text::is_alphanumeric(
            #[trigger] rest[i],
        ) by {
            assert(rest[i] == gap[i + 1]);
        }
        lemma_slug_of_a_gap(files::slug_step(out, gap[0]), rest);
    }
}

proof fn lemma_slug_after_a_dash(out: Seq<char>, part: Seq<char>, title: Seq<char>)
    requires
        out.len() > 0,
        out.last() == '-',
        out.len() + part.len() + title.len() <= 60,
    ensures
        files::slug_from(out + part, title) == out + files::slug_from(part, title),
    decreases title.len(),
{
    if title.len() > 0 {
        let next = files::slug_step(part, title[0]);
        if part.len() > 0 {
            assert((out + part).last() == part.last());
        } else {
            assert(out + part =~= out);
        }
        assert(files::slug_step(out + part, title[0]) =~= out + next);
        let rest = title.skip(1);
        lemma_slug_after_a_dash(out, next, rest);
        if (out + next).len() >= 60 {
            assert(rest.len() == 0);
        }
    }
}

/// What lies between two words becomes one dash, however long it is and whatever it holds, and the
/// slug of the whole is the slugs of its parts with the dash between them.
pub proof fn law_a_gap_becomes_one_dash(a: Seq<char>, gap: Seq<char>, b: Seq<char>)
    requires
        letters(a).len() > 0,
        letters(b).len() > 0,
        gap.len() > 0,
        forall|i: int| 0 <= i < gap.len() ==> !text::is_alphanumeric(#[trigger] gap[i]),
        a.len() + gap.len() + b.len() <= 60,
    ensures
        files::slug_of(a + gap + b) == files::slug_of(a) + seq!['-'] + files::slug_of(b),
{
    lemma_slug_has_letters(a);
    lemma_slug_has_letters(b);
    let x = files::slug_from(seq![], a);
    let y = files::slug_from(seq![], b);
    let whole = a + gap + b;
    assert(b.len() > 0);
    assert(whole =~= a + (gap + b));
    lemma_slug_goes_on(seq![], a, gap + b);
    lemma_slug_goes_on(x, gap, b);
    lemma_slug_of_a_gap(x, gap);
    let out = files::without_last_dash(x).push('-');
    assert(files::slug_from(x, gap) =~= out) by {
        if x.last() == '-' {
            assert(x.drop_last().push('-') =~= x);
        }
    }
    assert(out + Seq::<char>::empty() =~= out);
    lemma_slug_after_a_dash(out, seq![], b);
    assert(files::slug_from(seq![], whole) == out + y);
    assert((out + y).last() == y.last());
    assert(files::without_last_dash(out + y) =~= out + files::without_last_dash(y));
    assert(out + files::without_last_dash(y) =~= files::slug_of(a) + seq!['-'] + files::slug_of(b));
}

// ── Extensions ───────────────────────────────────────────────────────────

/// A type that is known decides the extension, in any case and whatever the URL is.
pub proof fn law_a_known_type_decides(media_type: Seq<char>, url: Seq<char>)
    ensures
        ({
            let t = text::lowered(media_type);
            let ext = files::extension_for(Some(media_type), url);
            &&& t == "audio/mpeg"@ || t == "audio/mp3"@ ==> ext == "mp3"@
            &&& t == "audio/mp4"@ || t == "audio/x-m4a"@ || t == "audio/aac"@ ==> ext == "m4a"@
            &&& t == "audio/ogg"@ || t == "audio/vorbis"@ ==> ext == "ogg"@
            &&& t == "audio/opus"@ ==> ext == "opus"@
            &&& t == "audio/flac"@ || t == "audio/x-flac"@ ==> ext == "flac"@
            &&& t == "video/mp4"@ ==> ext == "mp4"@
            &&& t == "video/webm"@ ==> ext == "webm"@
            &&& t != "audio/mpeg"@ && t != "audio/mp3"@ && t != "audio/mp4"@ && t
                != "audio/x-m4a"@ && t != "audio/aac"@ && t != "audio/ogg"@ && t
                != "audio/vorbis"@ && t != "audio/opus"@ && t != "audio/flac"@ && t
                != "audio/x-flac"@ && t != "video/mp4"@ && t != "video/webm"@ ==> ext
                == files::extension_for(None, url)
        }),
{
    reveal_strlit("audio/mpeg");
    reveal_strlit("audio/mp3");
    reveal_strlit("audio/mp4");
    reveal_strlit("audio/x-m4a");
    reveal_strlit("audio/aac");
    reveal_strlit("audio/ogg");
    reveal_strlit("audio/vorbis");
    reveal_strlit("audio/opus");
    reveal_strlit("audio/flac");
    reveal_strlit("audio/x-flac");
    reveal_strlit("video/mp4");
    reveal_strlit("video/webm");
    // no two types with different extensions are the same text
    assert("audio/mpeg"@.len() != "audio/mp4"@.len());
    assert("audio/mpeg"@.len() != "audio/x-m4a"@.len());
    assert("audio/mpeg"@.len() != "audio/aac"@.len());
    assert("audio/mpeg"@.len() != "audio/ogg"@.len());
    assert("audio/mpeg"@.len() != "audio/vorbis"@.len());
    assert("audio/mpeg"@[6] != "audio/opus"@[6]);
    assert("audio/mpeg"@[6] != "audio/flac"@[6]);
    assert("audio/mpeg"@.len() != "audio/x-flac"@.len());
    assert("audio/mpeg"@.len() != "video/mp4"@.len());
    assert("audio/mpeg"@[0] != "video/webm"@[0]);
    assert("audio/mp3"@[8] != "audio/mp4"@[8]);
    assert("audio/mp3"@.len() != "audio/x-m4a"@.len());
    assert("audio/mp3"@[6] != "audio/aac"@[6]);
    assert("audio/mp3"@[6] != "audio/ogg"@[6]);
    assert("audio/mp3"@.len() != "audio/vorbis"@.len());
    assert("audio/mp3"@.len() != "audio/opus"@.len());
    assert("audio/mp3"@.len() != "audio/flac"@.len());
    assert("audio/mp3"@.len() != "audio/x-flac"@.len());
    assert("audio/mp3"@[0] != "video/mp4"@[0]);
    assert("audio/mp3"@.len() != "video/webm"@.len());
    assert("audio/mp4"@[6] != "audio/ogg"@[6]);
    assert("audio/mp4"@.len() != "audio/vorbis"@.len());
    assert("audio/mp4"@.len() != "audio/opus"@.len());
    assert("audio/mp4"@.len() != "audio/flac"@.len());
    assert("audio/mp4"@.len() != "audio/x-flac"@.len());
    assert("audio/mp4"@[0] != "video/mp4"@[0]);
    assert("audio/mp4"@.len() != "video/webm"@.len());
    assert("audio/x-m4a"@.len() != "audio/ogg"@.len());
    assert("audio/x-m4a"@.len() != "audio/vorbis"@.len());
    assert("audio/x-m4a"@.len() != "audio/opus"@.len());
    assert("audio/x-m4a"@.len() != "audio/flac"@.len());
    assert("audio/x-m4a"@.len() != "audio/x-flac"@.len());
    assert("audio/x-m4a"@.len() != "video/mp4"@.len());
    assert("audio/x-m4a"@.len() != "video/webm"@.len());
    assert("audio/aac"@[6] != "audio/ogg"@[6]);
    assert("audio/aac"@.len() != "audio/vorbis"@.len());
    assert("audio/aac"@.len() != "audio/opus"@.len());
    assert("audio/aac"@.len() != "audio/flac"@.len());
    assert("audio/aac"@.len() != "audio/x-flac"@.len());
    assert("audio/aac"@[0] != "video/mp4"@[0]);
    assert("audio/aac"@.len() != "video/webm"@.len());
    assert("audio/ogg"@.len() != "audio/opus"@.len());
    assert("audio/ogg"@.len() != "audio/flac"@.len());
    assert("audio/ogg"@.len() != "audio/x-flac"@.len());
    assert("audio/ogg"@[0] != "video/mp4"@[0]);
    assert("audio/ogg"@.len() != "video/webm"@.len());
    assert("audio/vorbis"@.len() != "audio/opus"@.len());
    assert("audio/vorbis"@.len() != "audio/flac"@.len());
    assert("audio/vorbis"@[6] != "audio/x-flac"@[6]);
    assert("audio/vorbis"@.len() != "video/mp4"@.len());
    assert("audio/vorbis"@.len() != "video/webm"@.len());
    assert("audio/opus"@[6] != "audio/flac"@[6]);
    assert("audio/opus"@.len() != "audio/x-flac"@.len());
    assert("audio/opus"@.len() != "video/mp4"@.len());
    assert("audio/opus"@[0] != "video/webm"@[0]);
    assert("audio/flac"@.len() != "video/mp4"@.len());
    assert("audio/flac"@[0] != "video/webm"@[0]);
    assert("audio/x-flac"@.len() != "video/mp4"@.len());
    assert("audio/x-flac"@.len() != "video/webm"@.len());
    assert("video/mp4"@.len() != "video/webm"@.len());
}

proof fn lemma_path_of_url(
    scheme: Seq<char>,
    host: Seq<char>,
    path: Seq<char>,
    query: Seq<char>,
)
    requires
        !scheme.contains(':'),
        !host.contains('/'),
        !(scheme + "://"@ + host + "/"@ + path).contains('?'),
        !(scheme + "://"@ + host + "/"@ + path).contains('#'),
        query.len() > 0 ==> query[0] == '?' || query[0] == '#',
    ensures
        files::path_of_url(scheme + "://"@ + host + "/"@ + path + query) == Some(path),
{
    reveal_strlit("://");
    reveal_strlit("/");
    let rest = host + "/"@ + path;
    let url = scheme + "://"@ + host + "/"@ + path;
    text::law_a_path_ends_at_its_query(url, query);
    assert(url =~= scheme + "://"@ + rest);
    let k = scheme.len() as int;
    assert("://"@ =~= url.skip(k).subrange(0, 3));
    assert forall|j: int| 0 <= j < k implies !"://"@.is_prefix_of(#[trigger] url.skip(j)) by {
        if "://"@.is_prefix_of(url.skip(j)) {
            assert("://"@[0] == url.skip(j).subrange(0, 3)[0]);
            assert(scheme[j] == ':');
        }
    }
    text::lemma_find_is(url, "://"@, k);
    assert(url.skip(k + 3) =~= rest);
    let h = host.len() as int;
    assert("/"@ =~= rest.skip(h).subrange(0, 1));
    assert forall|j: int| 0 <= j < h implies !"/"@.is_prefix_of(#[trigger] rest.skip(j)) by {
        if "/"@.is_prefix_of(rest.skip(j)) {
            assert("/"@[0] == rest.skip(j).subrange(0, 1)[0]);
            assert(host[j] == '/');
        }
    }
    text::lemma_find_is(rest, "/"@, h);
    assert(rest.skip(h + 1) =~= path);
}

proof fn lemma_last_piece(above: Seq<char>, name: Seq<char>, ext: Seq<char>)
    requires
        above.len() == 0 || above.last() == '/',
        !name.contains('/'),
        !ext.contains('/'),
    ensures
        text::after_last(above + (name + seq!['.'] + ext), '/') == name + seq!['.'] + ext,
{
    let file = name + seq!['.'] + ext;
    assert(!file.contains('/')) by {
        if file.contains('/') {
            let j = choose|j: int| 0 <= j < file.len() && file[j] == '/';
            if j < name.len() {
                assert(name[j] == '/');
            } else if j > name.len() {
                assert(ext[j - name.len() - 1] == '/');
            }
        }
    }
    if above.len() > 0 {
        assert(above + file =~= above.drop_last() + seq!['/'] + file);
        text::law_cut_at_the_last(above.drop_last(), file, '/');
    } else {
        assert(above + file =~= file);
        text::law_cut_at_the_last(above, file, '/');
    }
}

/// Without a type that is known the URL decides: what follows the last dot of the last piece of its
/// path, in lower case, if that is one to five ASCII letters and digits; else it is `mp3`.
pub proof fn law_the_url_decides(
    scheme: Seq<char>,
    host: Seq<char>,
    above: Seq<char>,
    name: Seq<char>,
    ext: Seq<char>,
    query: Seq<char>,
)
    requires
        !scheme.contains(':'),
        !host.contains('/'),
        above.len() == 0 || above.last() == '/',
        !name.contains('/'),
        !ext.contains('/'),
        !ext.contains('.'),
        ({
            let url = scheme + "://"@ + host + "/"@ + (above + (name + seq!['.'] + ext));
            !url.contains('?') && !url.contains('#')
        }),
        query.len() > 0 ==> query[0] == '?' || query[0] == '#',
    ensures
        ({
            let url = scheme + "://"@ + host + "/"@ + (above + (name + seq!['.'] + ext)) + query;
            let plain = 1 <= ext.len() <= 5 && forall|i: int|
                0 <= i < ext.len() ==> text::is_alphanumeric(#[trigger] ext[i]);
            &&& plain ==> files::extension_for(None, url) == text::lowered(ext)
            &&& !plain ==> files::extension_for(None, url) == "mp3"@
        }),
{
    lemma_path_of_url(scheme, host, above + (name + seq!['.'] + ext), query);
    lemma_last_piece(above, name, ext);
    text::law_cut_at_the_last(name, ext, '.');
    let low = text::lowered(ext);
    if 1 <= ext.len() <= 5 && forall|i: int|
        0 <= i < ext.len() ==> text::is_alphanumeric(#[trigger] ext[i]) {
        assert forall|i: int| 0 <= i < low.len() implies text::is_alphanumeric(
            #[trigger] low[i],
        ) by {
            assert(text::is_alphanumeric(ext[i]));
        }
        assert(files::is_plain(low));
    } else if 1 <= ext.len() <= 5 {
        let i = choose|i: int| 0 <= i < ext.len() && !text::is_alphanumeric(#[trigger] ext[i]);
        assert(low[i] == ext[i]);
        assert(!files::is_plain(low));
    }
}

/// A URL whose path has no dot in its last piece gives `mp3`.
pub proof fn law_no_dot_no_extension(
    scheme: Seq<char>,
    host: Seq<char>,
    above: Seq<char>,
    name: Seq<char>,
    query: Seq<char>,
)
    requires
        !scheme.contains(':'),
        !host.contains('/'),
        !name.contains('/'),
        !name.contains('.'),
        ({
            let url = scheme + "://"@ + host + "/"@ + (above + seq!['/'] + name);
            !url.contains('?') && !url.contains('#')
        }),
        query.len() > 0 ==> query[0] == '?' || query[0] == '#',
    ensures
        files::extension_for(
            None,
            scheme + "://"@ + host + "/"@ + (above + seq!['/'] + name) + query,
        ) == "mp3"@,
{
    lemma_path_of_url(scheme, host, above + seq!['/'] + name, query);
    text::law_cut_at_the_last(above, name, '/');
    text::law_cut_at_the_last(above, name, '.');
}

// ── Paths ────────────────────────────────────────────────────────────────

/// A download lies in the podcast folder, in the folder of its show, under a name that says its id,
/// its title and its type.
pub proof fn law_where_a_download_lies(episode: rows::EpisodeView)
    requires
        records::is_valid_name(episode.show),
    ensures
        text::pieces(files::download_path_of(episode), '/') == seq![
            "podcasts"@,
            episode.show,
            number::signed_decimal(episode.id) + seq!['-'] + files::slug_of(episode.about.title)
                + seq!['.'] + files::extension_for(episode.about.media_type, episode.about.url),
        ],
{
    reveal_strlit("podcasts");
    reveal_strlit("/");
    reveal_strlit("-");
    reveal_strlit(".");
    let file = number::signed_decimal(episode.id) + seq!['-'] + files::slug_of(episode.about.title)
        + seq!['.'] + files::extension_for(episode.about.media_type, episode.about.url);
    files::law_download_stays_in_its_folder(episode);
    records::law_valid_name_is_one_folder(episode.show);
    text::lemma_first_index(files::file_name_of(episode), '/');
    assert(files::file_name_of(episode) =~= file);
    assert(!file.contains('/'));
    assert(files::download_path_of(episode) =~= "podcasts"@ + seq!['/'] + (episode.show + seq![
        '/',
    ] + file));
    assert(!"podcasts"@.contains('/'));
    text::law_pieces("podcasts"@, episode.show + seq!['/'] + file, '/');
    text::law_pieces(episode.show, file, '/');
    text::law_pieces(file, seq![], '/');
    assert(text::pieces(files::download_path_of(episode), '/') =~= seq![
        "podcasts"@,
        episode.show,
        file,
    ]);
}

/// A file may be deleted as a download if and only if its path begins in the podcast folder and no
/// piece of it goes up.
pub proof fn law_what_may_be_deleted(rest: Seq<char>, path: Seq<char>)
    ensures
        (forall|i: int|
            0 <= i < text::pieces(rest, '/').len() ==> #[trigger] text::pieces(rest, '/')[i]
                != ".."@) ==> files::is_removable("podcasts"@ + seq!['/'] + rest),
        text::pieces(path, '/')[0] != "podcasts"@ ==> !files::is_removable(path),
        (exists|i: int|
            0 <= i < text::pieces(path, '/').len() && #[trigger] text::pieces(path, '/')[i]
                == ".."@) ==> !files::is_removable(path),
        !path.contains('/') ==> !files::is_removable(path),
{
    reveal_strlit("podcasts");
    reveal_strlit("/");
    reveal_strlit("..");
    let whole = "podcasts"@ + seq!['/'] + rest;
    assert(!"podcasts"@.contains('/'));
    text::law_pieces("podcasts"@, rest, '/');
    assert(files::PODCAST_FOLDER@ + "/"@ =~= "podcasts"@ + seq!['/']);
    assert(files::PODCAST_FOLDER@ + "/"@ =~= whole.subrange(0, 9));
    if forall|i: int|
        0 <= i < text::pieces(rest, '/').len() ==> #[trigger] text::pieces(rest, '/')[i] != ".."@ {
        let pieces = text::pieces(whole, '/');
        assert forall|i: int| 0 <= i < pieces.len() implies pieces[i] != ".."@ by {
            if i > 0 {
                assert(pieces[i] == text::pieces(rest, '/')[i - 1]);
            }
        }
    }
    if files::is_removable(path) {
        files::law_removable_stays_inside(path);
        assert((files::PODCAST_FOLDER@ + "/"@)[8] == path.subrange(0, 9)[8]);
        assert(path[8] == '/');
    }
}

// ── Refreshing ───────────────────────────────────────────────────────────

/// An episode is known by its guid. If an entry comes again with the same guid, it adds no episode,
/// even where its file has moved, and the row that was there keeps where you stopped, whether it was
/// heard, and its download.
pub proof fn law_a_moved_file_is_no_new_episode(
    episodes: Seq<rows::EpisodeRowView>,
    show_id: int,
    first: feed::EntryView,
    again: feed::EntryView,
    i: int,
)
    requires
        first.guid is Some,
        again.guid == first.guid,
        feed::episode_in(first) is Some,
        feed::episode_in(again) is Some,
    ensures
        ({
            let before = changes::with_episodes(
                episodes,
                show_id,
                feed::episodes_in(seq![first]),
            );
            let after = changes::with_episodes(before, show_id, feed::episodes_in(seq![again]));
            &&& changes::new_episodes(before, show_id, feed::episodes_in(seq![again])) == 0
            &&& after.len() == before.len()
            &&& 0 <= i < before.len() ==> after[i].id == before[i].id && after[i].position
                == before[i].position && after[i].played == before[i].played
                && after[i].download_path == before[i].download_path
        }),
{
    let none = Seq::<feed::EntryView>::empty();
    feed::law_entries_are_read_in_order(none, none, first);
    feed::law_entries_are_read_in_order(none, none, again);
    let a = feed::episode_in(first)->Some_0;
    let b = feed::episode_in(again)->Some_0;
    feed::law_one_guid_is_one_episode(first, again);
    let before = changes::with_episodes(episodes, show_id, seq![a]);
    changes::law_feed_is_saved(episodes, show_id, seq![a], 0);
    let k = choose|k: int|
        {
            &&& 0 <= k < before.len()
            &&& (#[trigger] before[k]).show_id == show_id
            &&& before[k].about == a
        };
    assert(before[k].about.guid == b.guid);
    promises::law_new_by_guid(before, show_id, seq![], b);
    assert(changes::with_episodes(before, show_id, seq![]) == before);
    assert(Seq::<rows::NewEpisodeView>::empty().push(b) =~= seq![b]);
    changes::law_new_episodes_are_added(before, show_id, seq![b]);
    changes::law_refresh_keeps_progress(before, show_id, seq![b]);
}

/// A refresh fails if there is no such show, if its feed could not be read, or if no entry of the feed
/// is an episode, in this order; otherwise, as long as there are ids, it succeeds.
pub proof fn law_when_a_refresh_fails(
    store: records::StoreView,
    name: Seq<char>,
    cause: Seq<char>,
    f: feed::FeedView,
    k: int,
)
    ensures
        ({
            let unread = follow::refresh_error(store, name, Err(cause));
            let read = follow::refresh_error(store, name, Ok(f));
            let known = exists|i: int|
                0 <= i < store.shows.len() && (#[trigger] store.shows[i]).name == name;
            let found = 0 <= k < f.entries.len() && feed::episode_in(f.entries[k]) is Some;
            let empty = forall|e: int|
                0 <= e < f.entries.len() ==> feed::episode_in(#[trigger] f.entries[e]) is None;
            let no_show = Some(
                follow::ErrorView::Store(records::StoreErrorView::NoShow(name)),
            );
            &&& !known ==> unread == no_show && read == no_show
            &&& known ==> unread == Some(follow::ErrorView::Feed(name, cause))
            &&& known && empty ==> read == Some(follow::ErrorView::NoEpisodes(name))
            &&& known && found ==> read is None || read == Some(
                follow::ErrorView::Store(records::StoreErrorView::NoMoreIds),
            )
            &&& known && found && (forall|i: int|
                0 <= i < store.episodes.len() ==> (#[trigger] store.episodes[i]).id
                    <= 0x7fff_ffff_ffff_ffff - f.entries.len()) && f.entries.len()
                < 0x7fff_ffff_ffff_ffff ==> read is None
        }),
{
    records::lemma_show_index(store.shows, name);
    if let Some(i) = records::show_index(store.shows, name) {
        assert(store.shows[i].name == name);
        lemma_no_episodes(f.entries);
        if 0 <= k < f.entries.len() && feed::episode_in(f.entries[k]) is Some {
            lemma_an_episode(f.entries, k);
        }
        if (forall|j: int|
            0 <= j < store.episodes.len() ==> (#[trigger] store.episodes[j]).id
                <= 0x7fff_ffff_ffff_ffff - f.entries.len()) && f.entries.len()
            < 0x7fff_ffff_ffff_ffff {
            let episodes = feed::episodes_in(f.entries);
            feed::law_episodes_are_playable(f.entries);
            lemma_ids_fit(
                store.episodes,
                store.shows[i].id,
                episodes,
                0x7fff_ffff_ffff_ffff - episodes.len(),
            );
        }
    }
}

proof fn lemma_no_episodes(entries: Seq<feed::EntryView>)
    ensures
        (forall|e: int|
            0 <= e < entries.len() ==> feed::episode_in(#[trigger] entries[e]) is None)
            ==> feed::episodes_in(entries).len() == 0,
    decreases entries.len(),
{
    if entries.len() > 0 {
        let less = entries.drop_last();
        lemma_no_episodes(less);
        if forall|e: int|
            0 <= e < entries.len() ==> feed::episode_in(#[trigger] entries[e]) is None {
            assert forall|e: int| 0 <= e < less.len() implies feed::episode_in(
                #[trigger] less[e],
            ) is None by {
                assert(less[e] == entries[e]);
            }
            assert(feed::episode_in(entries[entries.len() - 1]) is None);
        }
    }
}

proof fn lemma_an_episode(entries: Seq<feed::EntryView>, k: int)
    requires
        0 <= k < entries.len(),
        feed::episode_in(entries[k]) is Some,
    ensures
        feed::episodes_in(entries).len() > 0,
    decreases entries.len(),
{
    if k < entries.len() - 1 {
        assert(entries.drop_last()[k] == entries[k]);
        lemma_an_episode(entries.drop_last(), k);
    }
}

proof fn lemma_ids_fit(
    episodes: Seq<rows::EpisodeRowView>,
    show_id: int,
    saved: Seq<rows::NewEpisodeView>,
    most: int,
)
    requires
        most >= 0,
        forall|i: int| 0 <= i < episodes.len() ==> (#[trigger] episodes[i]).id <= most,
    ensures
        forall|i: int|
            0 <= i < changes::with_episodes(episodes, show_id, saved).len() ==> (
            #[trigger] changes::with_episodes(episodes, show_id, saved)[i]).id <= most
                + saved.len(),
    decreases saved.len(),
{
    if saved.len() > 0 {
        let before = changes::with_episodes(episodes, show_id, saved.drop_last());
        let after = changes::with_episodes(episodes, show_id, saved);
        lemma_ids_fit(episodes, show_id, saved.drop_last(), most);
        changes::lemma_guid_index(before, show_id, saved.last().guid);
        let ids = records::episode_ids(before);
        promises::law_ids_count_up(ids);
        if ids.len() > 0 {
            let k = choose|k: int|
                0 <= k < ids.len() && #[trigger] ids[k] + 1 == records::next_id(ids);
            assert(ids[k] == before[k].id);
        }
        assert forall|i: int| 0 <= i < after.len() implies (#[trigger] after[i]).id <= most
            + saved.len() by {
            if i < before.len() {
                assert(before[i].id <= most + saved.len() - 1);
            }
        }
    }
}

/// Saving a feed that was fetched fails as a refresh does, but for the order: what went wrong with
/// the feed is said first, and then that the show is gone.
pub proof fn law_when_saving_fails(
    store: records::StoreView,
    name: Seq<char>,
    cause: Seq<char>,
    f: feed::FeedView,
)
    ensures
        follow::save_error(store, name, Err(cause)) == Some(follow::ErrorView::Feed(name, cause)),
        feed::episodes_in(f.entries).len() == 0 ==> follow::save_error(store, name, Ok(f)) == Some(
            follow::ErrorView::NoEpisodes(name),
        ),
        feed::episodes_in(f.entries).len() > 0 && (forall|i: int|
            0 <= i < store.shows.len() ==> (#[trigger] store.shows[i]).name != name)
            ==> follow::save_error(store, name, Ok(f)) == Some(
            follow::ErrorView::Store(records::StoreErrorView::NoShow(name)),
        ),
        feed::episodes_in(f.entries).len() > 0 && (exists|i: int|
            0 <= i < store.shows.len() && (#[trigger] store.shows[i]).name == name)
            ==> follow::save_error(store, name, Ok(f)) == follow::refresh_error(store, name, Ok(f)),
{
    records::lemma_show_index(store.shows, name);
}

/// A feed that has been read changes its own show and that show's episodes. The show keeps its id,
/// its name and where it is read from.
pub proof fn law_a_feed_changes_its_show(
    store: records::StoreView,
    i: int,
    f: feed::FeedView,
    at: Seq<char>,
    k: int,
)
    requires
        0 <= i < store.shows.len(),
    ensures
        ({
            let after = follow::with_feed(store, i, f, at);
            let row = after.shows[i];
            &&& after.shows.len() == store.shows.len()
            &&& 0 <= k < store.shows.len() && k != i ==> after.shows[k] == store.shows[k]
            &&& row.id == store.shows[i].id && row.name == store.shows[i].name
            &&& row.feed_url == store.shows[i].feed_url && row.added_at == store.shows[i].added_at
            &&& row.refreshed_at == Some(at)
            &&& f.title is Some ==> row.title == f.title
            &&& f.title is None ==> row.title == store.shows[i].title
            &&& f.image_url is Some ==> row.image_url == f.image_url
            &&& f.image_url is None ==> row.image_url == store.shows[i].image_url
            &&& 0 <= k < store.episodes.len() && store.episodes[k].show_id != store.shows[i].id
                ==> after.episodes[k] == store.episodes[k]
            &&& after.episodes == changes::with_episodes(
                store.episodes,
                store.shows[i].id,
                feed::episodes_in(f.entries),
            )
        }),
{
    changes::law_refresh_leaves_other_shows(
        store.episodes,
        store.shows[i].id,
        feed::episodes_in(f.entries),
    );
}

/// A refresh reads the show that is named and no other; or else every show, by name.
pub proof fn law_which_shows_are_refreshed(
    store: records::StoreView,
    name: Seq<char>,
    i: int,
    j: int,
    k: int,
)
    ensures
        follow::names_to_refresh(store, Some(name)) == seq![name],
        ({
            let names = follow::names_to_refresh(store, None);
            &&& names.len() == store.shows.len()
            &&& 0 <= i < j < names.len() ==> text::text_le(names[i], names[j])
            &&& 0 <= k < store.shows.len() ==> names.contains(store.shows[k].name)
        }),
{
    let list = order::arranged(store.shows, records::by_name());
    let names = follow::names_to_refresh(store, None);
    promises::law_shows_are_listed_by_name(store.shows, i, j, k);
    if 0 <= k < store.shows.len() {
        let m = choose|m: int| 0 <= m < list.len() && list[m] == store.shows[k];
        assert(names[m] == store.shows[k].name);
    }
}

// ── Playing ──────────────────────────────────────────────────────────────

/// An episode is played from its file if it has been downloaded, and from the web if it has not.
pub proof fn law_where_an_episode_is_played_from(episode: rows::EpisodeView)
    ensures
        episode.download_path matches Some(path) ==> follow::uri_of(episode) == path,
        episode.download_path is None ==> follow::uri_of(episode) == episode.about.url,
{
}

/// To play an episode, mpd is told to add it; then to start what it says it added, by the id that it
/// gave it; and then, if it is to resume, to go to where it was left. If mpd gives no id, it fails.
pub proof fn law_how_an_episode_is_played(
    uri: Seq<char>,
    seek: Option<int>,
    before: Seq<(Seq<char>, Seq<char>)>,
    id: Seq<char>,
    after: Seq<(Seq<char>, Seq<char>)>,
)
    requires
        reply::never_given(before, "Id"@),
    ensures
        ({
            let reply = before + seq![("Id"@, id)] + after;
            &&& follow::next_play_step(uri, seek, PlayStage::Start, reply)
                == follow::PlayStepView::Run("addid"@, seq![uri], PlayStage::Added)
            &&& follow::next_play_step(uri, seek, PlayStage::Added, reply)
                == follow::PlayStepView::Run("playid"@, seq![id], PlayStage::Started)
            &&& follow::next_play_step(uri, seek, PlayStage::Added, before)
                == follow::PlayStepView::Failed(follow::ErrorView::NotAdded)
            &&& seek is None ==> follow::next_play_step(uri, seek, PlayStage::Started, reply) is Done
            &&& seek is Some ==> (follow::next_play_step(
                uri,
                seek,
                PlayStage::Started,
                reply,
            ) matches follow::PlayStepView::Run(command, args, next) && command == "seekcur"@
                && args.len() == 1 && next == PlayStage::Sought)
            &&& follow::next_play_step(uri, seek, PlayStage::Sought, reply) is Done
        }),
{
    reply::law_the_first_line_counts(before, "Id"@, id, after);
}

/// An episode that was noted somewhere past its first ten seconds and before its last minute is
/// played from there: what mpd is told to go to reads back as what was noted.
pub proof fn law_playing_goes_where_it_was_left(
    store: records::StoreView,
    id: int,
    position: int,
    pairs: Seq<(Seq<char>, Seq<char>)>,
)
    requires
        store.sound(),
        changes::episode_with_id(store, id) is Some,
        10000 <= position <= i64::MAX,
        ({
            let length = changes::episode_with_id(store, id)->Some_0.about.duration_seconds;
            length is None || length->Some_0 <= 0 || position < length->Some_0 * 1000 - 60000
        }),
    ensures
        ({
            let after = records::StoreView {
                episodes: changes::with_position(store.episodes, id, position, false),
                ..store
            };
            &&& changes::episode_with_id(after, id) matches Some(e)
            &&& follow::next_play_step(
                follow::uri_of(e),
                resume::resumed(e.position, e.about.duration_seconds),
                PlayStage::Started,
                pairs,
            ) matches follow::PlayStepView::Run(command, args, _)
            &&& command == "seekcur"@
            &&& args.len() == 1
            &&& number::millis(args[0]) == Some(position)
        }),
{
    follow::law_resumes_where_it_was_noted(store, id, position, false);
    let after = records::StoreView {
        episodes: changes::with_position(store.episodes, id, position, false),
        ..store
    };
    let e = changes::episode_with_id(after, id)->Some_0;
    let had = changes::episode_with_id(store, id)->Some_0;
    resume::law_resumes_unless_at_an_end(position, had.about.duration_seconds);
    follow::law_playing_ends(follow::uri_of(e), Some(position), PlayStage::Started, pairs);
}

// ── Downloads ────────────────────────────────────────────────────────────

/// A download is removed by the path that it was recorded under. It is refused if the episode is not
/// there, if it has no download, and if its path may not be deleted.
pub proof fn law_which_file_is_removed(store: records::StoreView, id: int)
    ensures
        changes::episode_with_id(store, id) is None ==> follow::removal_of(store, id) == Err::<
            Seq<char>,
            follow::ErrorView,
        >(follow::ErrorView::Store(records::StoreErrorView::NoEpisode(id))),
        changes::episode_with_id(store, id) matches Some(e) ==> {
            &&& e.download_path is None ==> follow::removal_of(store, id) == Err::<
                Seq<char>,
                follow::ErrorView,
            >(follow::ErrorView::NotDownloaded(id))
            &&& e.download_path matches Some(path) ==> {
                &&& files::is_removable(path) ==> follow::removal_of(store, id) == Ok::<
                    Seq<char>,
                    follow::ErrorView,
                >(path)
                &&& !files::is_removable(path) ==> follow::removal_of(store, id) == Err::<
                    Seq<char>,
                    follow::ErrorView,
                >(follow::ErrorView::NotOurs(path))
            }
        },
{
}

/// What is said of each error.
pub proof fn law_what_an_error_says(
    name: Seq<char>,
    cause: Seq<char>,
    id: int,
    e: records::StoreErrorView,
)
    ensures
        follow::error_message(follow::ErrorView::Store(e)) == records::error_message(e),
        follow::error_message(follow::ErrorView::Feed(name, cause)) == "reading "@ + name
            + "'s feed: "@ + cause,
        follow::error_message(follow::ErrorView::NoEpisodes(name)) == name
            + "'s feed has no audio or video episodes"@,
        follow::error_message(follow::ErrorView::Download(id, cause)) == "downloading episode "@
            + number::signed_decimal(id) + ": "@ + cause,
        follow::error_message(follow::ErrorView::NotDownloaded(id)) == "episode "@
            + number::signed_decimal(id) + " is not downloaded"@,
        follow::error_message(follow::ErrorView::NotOurs(name)) == "refusing to delete "@ + name
            + ": not a podcast download"@,
        follow::error_message(follow::ErrorView::Disk(cause)) == cause,
        follow::error_message(follow::ErrorView::NotAdded) == "mpd did not add it"@,
{
}

} // verus!
