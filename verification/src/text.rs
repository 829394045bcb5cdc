//! Plain text: the cuts, searches and comparisons that the rest of the library is written in.
//!
//! A text is modelled by its sequence of characters.
use vstd::prelude::*;
use vstd::utf8::*;

verus! {

/// `String::push` puts one character at the end of the text.
pub assume_specification[ String::push ](s: &mut String, c: char)
    ensures
        final(s)@ == old(s)@.push(c),
;

/// `String::from_utf8` gives the text that the bytes encode, and refuses exactly the bytes that
/// are not UTF-8.
#[verifier::external_body]
pub(crate) fn decode(bytes: Vec<u8>) -> (text: Option<String>)
    ensures
        text is Some <==> valid_utf8(bytes@),
        text matches Some(t) ==> t@ == decode_utf8(bytes@),
{
    String::from_utf8(bytes).ok()
}

// ── Vocabulary ───────────────────────────────────────────────────────────

/// Where `needle` stands first, if anywhere.
pub open spec fn first_index<A>(s: Seq<A>, needle: A) -> Option<int>
    decreases s.len(),
{
    if s.len() == 0 {
        None
    } else if s[0] == needle {
        Some(0)
    } else {
        match first_index(s.skip(1), needle) {
            Some(i) => Some(i + 1),
            None => None,
        }
    }
}

/// Where `needle` stands last, if anywhere.
pub open spec fn last_index<A>(s: Seq<A>, needle: A) -> Option<int>
    decreases s.len(),
{
    if s.len() == 0 {
        None
    } else if s.last() == needle {
        Some(s.len() - 1)
    } else {
        last_index(s.drop_last(), needle)
    }
}

/// Where `part` starts for the first time, if it occurs at all.
pub open spec fn find(s: Seq<char>, part: Seq<char>) -> Option<int>
    decreases s.len(),
{
    if part.is_prefix_of(s) {
        Some(0)
    } else if s.len() == 0 {
        None
    } else {
        match find(s.skip(1), part) {
            Some(i) => Some(i + 1),
            None => None,
        }
    }
}

/// The text around the first `part`.
pub open spec fn cut_first(s: Seq<char>, part: Seq<char>) -> Option<(Seq<char>, Seq<char>)> {
    match find(s, part) {
        Some(i) => Some((s.take(i), s.skip(i + part.len()))),
        None => None,
    }
}

/// The text around the last `c`.
pub open spec fn cut_last(s: Seq<char>, c: char) -> Option<(Seq<char>, Seq<char>)> {
    match last_index(s, c) {
        Some(i) => Some((s.take(i), s.skip(i + 1))),
        None => None,
    }
}

/// What follows `prefix`, if the text starts with it.
pub open spec fn after_prefix(s: Seq<char>, prefix: Seq<char>) -> Option<Seq<char>> {
    if prefix.is_prefix_of(s) {
        Some(s.skip(prefix.len() as int))
    } else {
        None
    }
}

pub open spec fn is_digit(c: char) -> bool {
    '0' <= c <= '9'
}

pub open spec fn is_lower(c: char) -> bool {
    'a' <= c <= 'z'
}

pub open spec fn is_upper(c: char) -> bool {
    'A' <= c <= 'Z'
}

/// An ASCII letter or digit.
pub open spec fn is_alphanumeric(c: char) -> bool {
    is_digit(c) || is_lower(c) || is_upper(c)
}

/// The small letter of an ASCII capital; any other character as it is.
pub open spec fn lower(c: char) -> char {
    if is_upper(c) {
        ((c as u8) + 32) as char
    } else {
        c
    }
}

/// A text with its ASCII capitals made small.
pub open spec fn lowered(s: Seq<char>) -> Seq<char> {
    s.map_values(|c: char| lower(c))
}

/// Code point order, shorter first where one text continues the other.
pub open spec fn text_le(a: Seq<char>, b: Seq<char>) -> bool
    decreases a.len(),
{
    if a.len() == 0 {
        true
    } else if b.len() == 0 {
        false
    } else if a[0] != b[0] {
        a[0] < b[0]
    } else {
        text_le(a.skip(1), b.skip(1))
    }
}

/// The views of an optional text.
pub open spec fn opt(text: Option<String>) -> Option<Seq<char>> {
    match text {
        Some(t) => Some(t@),
        None => None,
    }
}

// ── Lemmas ───────────────────────────────────────────────────────────────

pub proof fn lemma_first_index<A>(s: Seq<A>, needle: A)
    ensures
        match first_index(s, needle) {
            Some(i) => 0 <= i < s.len() && s[i] == needle && forall|j: int|
                0 <= j < i ==> s[j] != needle,
            None => forall|j: int| 0 <= j < s.len() ==> s[j] != needle,
        },
    decreases s.len(),
{
    if s.len() > 0 && s[0] != needle {
        let rest = s.skip(1);
        lemma_first_index(rest, needle);
        assert forall|j: int| 1 <= j < s.len() implies s[j] == rest[j - 1] by {}
    }
}

pub proof fn lemma_first_index_is<A>(s: Seq<A>, needle: A, i: int)
    requires
        0 <= i < s.len(),
        s[i] == needle,
        forall|j: int| 0 <= j < i ==> s[j] != needle,
    ensures
        first_index(s, needle) == Some(i),
{
    lemma_first_index(s, needle);
    match first_index(s, needle) {
        Some(k) => {
            if k < i {
                assert(s[k] != needle);
            }
        },
        None => {
            assert(s[i] != needle);
        },
    }
}

pub proof fn lemma_first_index_none<A>(s: Seq<A>, needle: A)
    requires
        forall|j: int| 0 <= j < s.len() ==> s[j] != needle,
    ensures
        first_index(s, needle) is None,
{
    lemma_first_index(s, needle);
}

pub proof fn lemma_last_index<A>(s: Seq<A>, needle: A)
    ensures
        match last_index(s, needle) {
            Some(i) => 0 <= i < s.len() && s[i] == needle && forall|j: int|
                i < j < s.len() ==> s[j] != needle,
            None => forall|j: int| 0 <= j < s.len() ==> s[j] != needle,
        },
    decreases s.len(),
{
    if s.len() > 0 && s.last() != needle {
        let rest = s.drop_last();
        lemma_last_index(rest, needle);
        assert forall|j: int| 0 <= j < s.len() - 1 implies s[j] == rest[j] by {}
    }
}

pub proof fn lemma_last_index_is<A>(s: Seq<A>, needle: A, i: int)
    requires
        0 <= i < s.len(),
        s[i] == needle,
        forall|j: int| i < j < s.len() ==> s[j] != needle,
    ensures
        last_index(s, needle) == Some(i),
{
    lemma_last_index(s, needle);
    match last_index(s, needle) {
        Some(k) => {
            if k > i {
                assert(s[k] != needle);
            }
        },
        None => {
            assert(s[i] != needle);
        },
    }
}

pub proof fn lemma_last_index_none<A>(s: Seq<A>, needle: A)
    requires
        forall|j: int| 0 <= j < s.len() ==> s[j] != needle,
    ensures
        last_index(s, needle) is None,
{
    lemma_last_index(s, needle);
}

/// What `find` finds: an occurrence with none before it.
pub proof fn lemma_find(s: Seq<char>, part: Seq<char>)
    ensures
        match find(s, part) {
            Some(i) => 0 <= i && i + part.len() <= s.len() && part.is_prefix_of(s.skip(i))
                && forall|j: int| 0 <= j < i ==> !part.is_prefix_of(#[trigger] s.skip(j)),
            None => forall|j: int| 0 <= j <= s.len() ==> !part.is_prefix_of(#[trigger] s.skip(j)),
        },
    decreases s.len(),
{
    assert(s.skip(0) =~= s);
    if !part.is_prefix_of(s) && s.len() > 0 {
        let rest = s.skip(1);
        lemma_find(rest, part);
        assert forall|j: int| 1 <= j <= s.len() implies #[trigger] s.skip(j) == rest.skip(j - 1) by {
            assert(s.skip(j) =~= rest.skip(j - 1));
        }
        match find(rest, part) {
            Some(i) => {
                assert(s.skip(i + 1) == rest.skip(i));
                assert forall|j: int| 0 <= j < i + 1 implies !part.is_prefix_of(
                    #[trigger] s.skip(j),
                ) by {
                    if j > 0 {
                        assert(s.skip(j) == rest.skip(j - 1));
                    }
                }
            },
            None => {
                assert forall|j: int| 0 <= j <= s.len() implies !part.is_prefix_of(
                    #[trigger] s.skip(j),
                ) by {
                    if j > 0 {
                        assert(s.skip(j) == rest.skip(j - 1));
                    }
                }
            },
        }
    }
}

pub proof fn lemma_find_is(s: Seq<char>, part: Seq<char>, i: int)
    requires
        0 <= i <= s.len(),
        part.is_prefix_of(s.skip(i)),
        forall|j: int| 0 <= j < i ==> !part.is_prefix_of(#[trigger] s.skip(j)),
    ensures
        find(s, part) == Some(i),
{
    lemma_find(s, part);
    match find(s, part) {
        Some(k) => {
            if k < i {
                assert(!part.is_prefix_of(s.skip(k)));
            } else if i < k {
                assert(!part.is_prefix_of(s.skip(i)));
            }
        },
        None => {
            assert(!part.is_prefix_of(s.skip(i)));
        },
    }
}

// ── Code ─────────────────────────────────────────────────────────────────

/// The characters of a text.
pub fn characters(text: &str) -> (chars: Vec<char>)
    ensures
        chars@ == text@,
{
    let mut chars: Vec<char> = Vec::new();
    for c in it: text.chars()
        invariant
            chars@ == it.seq().take(it.index()),
            it.seq() == text@,
    {
        chars.push(c);
        assert(it.seq().take(it.index() + 1) =~= it.seq().take(it.index()).push(c));
    }
    assert(text@.take(text@.len() as int) =~= text@);
    chars
}

/// The text made of `chars[from..to]`.
pub fn text_of(chars: &[char], from: usize, to: usize) -> (text: String)
    requires
        from <= to <= chars@.len(),
    ensures
        text@ == chars@.subrange(from as int, to as int),
{
    let mut text = String::new();
    let mut i: usize = from;
    while i < to
        invariant
            from <= i <= to <= chars@.len(),
            text@ == chars@.subrange(from as int, i as int),
        decreases to - i,
    {
        text.push(chars[i]);
        assert(chars@.subrange(from as int, i + 1) =~= chars@.subrange(from as int, i as int).push(
            chars@[i as int],
        ));
        i += 1;
    }
    text
}

/// Are the two texts the same?
pub fn same(a: &str, b: &str) -> (r: bool)
    ensures
        r == (a@ == b@),
{
    broadcast use encode_utf8_decode_utf8;

    let x = a.as_bytes();
    let y = b.as_bytes();
    assert(decode_utf8(encode_utf8(a@)) == a@);
    assert(decode_utf8(encode_utf8(b@)) == b@);
    if x.len() != y.len() {
        return false;
    }
    let mut i: usize = 0;
    while i < x.len()
        invariant
            i <= x@.len(),
            x@.len() == y@.len(),
            x@ == encode_utf8(a@),
            y@ == encode_utf8(b@),
            forall|j: int| 0 <= j < i ==> x@[j] == y@[j],
        decreases x@.len() - i,
    {
        if x[i] != y[i] {
            return false;
        }
        i += 1;
    }
    assert(x@ =~= y@);
    true
}

/// Does `part` stand at `at` in the text?
fn stands_at(chars: &[char], part: &[char], at: usize) -> (r: bool)
    requires
        at <= chars@.len(),
    ensures
        r == part@.is_prefix_of(chars@.skip(at as int)),
{
    let rest = chars.len() - at;
    if part.len() > rest {
        return false;
    }
    let mut i: usize = 0;
    while i < part.len()
        invariant
            i <= part@.len(),
            at + part@.len() <= chars@.len() <= usize::MAX,
            forall|j: int| 0 <= j < i ==> part@[j] == chars@[at + j],
        decreases part@.len() - i,
    {
        if chars[at + i] != part[i] {
            assert(chars@.skip(at as int)[i as int] == chars@[at + i]);
            return false;
        }
        i += 1;
    }
    assert(part@ =~= chars@.skip(at as int).subrange(0, part@.len() as int));
    true
}

/// Does the text start with `prefix`?
pub fn has_prefix(text: &str, prefix: &str) -> (r: bool)
    ensures
        r == prefix@.is_prefix_of(text@),
{
    let chars = characters(text);
    let part = characters(prefix);
    assert(text@.skip(0) =~= text@);
    stands_at(&chars, &part, 0)
}

/// What follows `prefix`, if the text starts with it.
pub fn strip(text: &str, prefix: &str) -> (rest: Option<String>)
    ensures
        opt(rest) == after_prefix(text@, prefix@),
{
    let chars = characters(text);
    let part = characters(prefix);
    assert(text@.skip(0) =~= text@);
    if stands_at(&chars, &part, 0) {
        Some(text_of(&chars, part.len(), chars.len()))
    } else {
        None
    }
}

/// Where `part` starts for the first time, if it occurs at all.
fn position(chars: &[char], part: &[char]) -> (at: Option<usize>)
    ensures
        match at {
            Some(i) => find(chars@, part@) == Some(i as int) && i + part@.len() <= chars@.len(),
            None => find(chars@, part@) is None,
        },
{
    let mut i: usize = 0;
    loop
        invariant
            i <= chars@.len(),
            forall|j: int| 0 <= j < i ==> !part@.is_prefix_of(#[trigger] chars@.skip(j)),
        decreases chars@.len() - i,
    {
        if stands_at(chars, part, i) {
            proof {
                lemma_find_is(chars@, part@, i as int);
                lemma_find(chars@, part@);
            }
            return Some(i);
        }
        if i == chars.len() {
            proof {
                lemma_find(chars@, part@);
            }
            return None;
        }
        i += 1;
    }
}

/// Does `part` occur in the text?
pub fn holds(text: &str, part: &str) -> (r: bool)
    ensures
        r == (find(text@, part@) is Some),
{
    let chars = characters(text);
    let part = characters(part);
    position(&chars, &part).is_some()
}

/// The text around the first `part`.
pub fn split_first(text: &str, part: &str) -> (halves: Option<(String, String)>)
    ensures
        match halves {
            Some((a, b)) => cut_first(text@, part@) == Some((a@, b@)),
            None => cut_first(text@, part@) is None,
        },
{
    let chars = characters(text);
    let part = characters(part);
    let end = chars.len();
    match position(&chars, &part) {
        Some(i) => Some((text_of(&chars, 0, i), text_of(&chars, i + part.len(), end))),
        None => None,
    }
}

/// Does `c` occur in the text?
pub fn has_char(text: &str, c: char) -> (r: bool)
    ensures
        r == text@.contains(c),
{
    let chars = characters(text);
    let mut i: usize = 0;
    while i < chars.len()
        invariant
            i <= chars@.len(),
            chars@ == text@,
            forall|j: int| 0 <= j < i ==> chars@[j] != c,
        decreases chars@.len() - i,
    {
        if chars[i] == c {
            assert(text@[i as int] == c);
            return true;
        }
        i += 1;
    }
    false
}

/// The text around the last `c`.
pub fn split_last(text: &str, c: char) -> (halves: Option<(String, String)>)
    ensures
        match halves {
            Some((a, b)) => cut_last(text@, c) == Some((a@, b@)),
            None => cut_last(text@, c) is None,
        },
{
    let chars = characters(text);
    let mut i: usize = chars.len();
    while i > 0
        invariant
            i <= chars@.len(),
            chars@ == text@,
            forall|j: int| i <= j < chars@.len() ==> chars@[j] != c,
        decreases i,
    {
        i -= 1;
        if chars[i] == c {
            proof {
                lemma_last_index_is(text@, c, i as int);
            }
            return Some((text_of(&chars, 0, i), text_of(&chars, i + 1, chars.len())));
        }
    }
    proof {
        lemma_last_index_none(text@, c);
    }
    None
}

/// The small letter of an ASCII capital; any other character as it is.
pub fn lowercase_char(c: char) -> (r: char)
    ensures
        r == lower(c),
{
    if 'A' <= c && c <= 'Z' {
        ((c as u8) + 32) as char
    } else {
        c
    }
}

/// The text with its ASCII capitals made small.
pub fn lowercase(text: &str) -> (r: String)
    ensures
        r@ == lowered(text@),
{
    let chars = characters(text);
    let mut out = String::new();
    let mut i: usize = 0;
    while i < chars.len()
        invariant
            i <= chars@.len(),
            chars@ == text@,
            out@ == lowered(text@).take(i as int),
        decreases chars@.len() - i,
    {
        out.push(lowercase_char(chars[i]));
        assert(lowered(text@).take(i + 1) =~= lowered(text@).take(i as int).push(
            lower(text@[i as int]),
        ));
        i += 1;
    }
    assert(lowered(text@).take(chars@.len() as int) =~= lowered(text@));
    out
}

pub fn digit(c: char) -> (r: bool)
    ensures
        r == is_digit(c),
{
    '0' <= c && c <= '9'
}

/// Is this an ASCII letter or digit?
pub fn alphanumeric(c: char) -> (r: bool)
    ensures
        r == is_alphanumeric(c),
{
    ('0' <= c && c <= '9') || ('a' <= c && c <= 'z') || ('A' <= c && c <= 'Z')
}

/// Does `a` come no later than `b` in code point order?
pub fn not_after(a: &str, b: &str) -> (r: bool)
    ensures
        r == text_le(a@, b@),
{
    let mut x = a.chars();
    let mut y = b.chars();
    loop
        invariant
            text_le(a@, b@) == text_le(vstd::std_specs::iter::IteratorSpec::remaining(&x), vstd::std_specs::iter::IteratorSpec::remaining(&y)),
            vstd::std_specs::iter::IteratorSpec::obeys_prophetic_iter_laws(&x),
            vstd::std_specs::iter::IteratorSpec::obeys_prophetic_iter_laws(&y),
            vstd::std_specs::iter::IteratorSpec::decrease(&x) is Some,
        decreases vstd::std_specs::iter::IteratorSpec::decrease(&x)->Some_0,
    {
        let ghost p = vstd::std_specs::iter::IteratorSpec::remaining(&x);
        let ghost q = vstd::std_specs::iter::IteratorSpec::remaining(&y);
        let c = match x.next() {
            Some(c) => c,
            None => {
                return true;
            },
        };
        let d = match y.next() {
            Some(d) => d,
            None => {
                return false;
            },
        };
        if c != d {
            return c < d;
        }
        assert(p.drop_first() =~= p.skip(1));
        assert(q.drop_first() =~= q.skip(1));
    }
}

/// Code point order puts any two texts in order, and tells different ones apart.
pub proof fn lemma_text_le_total(a: Seq<char>, b: Seq<char>)
    ensures
        text_le(a, b) || text_le(b, a),
        text_le(a, b) && text_le(b, a) <==> a == b,
    decreases a.len(),
{
    if a.len() == 0 {
        if b.len() == 0 {
            assert(a =~= b);
        }
    } else if b.len() > 0 && a[0] == b[0] {
        lemma_text_le_total(a.skip(1), b.skip(1));
        if a.skip(1) == b.skip(1) {
            assert(a =~= seq![a[0]] + a.skip(1));
            assert(b =~= seq![b[0]] + b.skip(1));
        }
    }
}

pub proof fn lemma_text_le_transitive(a: Seq<char>, b: Seq<char>, c: Seq<char>)
    requires
        text_le(a, b),
        text_le(b, c),
    ensures
        text_le(a, c),
    decreases a.len(),
{
    if a.len() > 0 && b.len() > 0 && c.len() > 0 && a[0] == b[0] && b[0] == c[0] {
        lemma_text_le_transitive(a.skip(1), b.skip(1), c.skip(1));
    }
}

/// A copy of an optional text.
pub fn copy(text: &Option<String>) -> (r: Option<String>)
    ensures
        opt(r) == opt(*text),
{
    match text {
        Some(t) => Some(t.clone()),
        None => None,
    }
}

/// A path or URL up to its first `?` or `#`.
pub open spec fn before_query(s: Seq<char>) -> Seq<char>
    decreases s.len(),
{
    if s.len() == 0 || s[0] == '?' || s[0] == '#' {
        seq![]
    } else {
        seq![s[0]] + before_query(s.skip(1))
    }
}

/// What stands behind the last `c`; the whole text if there is none.
pub open spec fn after_last(s: Seq<char>, c: char) -> Seq<char> {
    match cut_last(s, c) {
        Some((_, b)) => b,
        None => s,
    }
}

/// What stands before the last `c`; the whole text if there is none.
pub open spec fn before_last(s: Seq<char>, c: char) -> Seq<char> {
    match cut_last(s, c) {
        Some((a, _)) => a,
        None => s,
    }
}

/// A path or URL up to its first `?` or `#`.
pub fn without_query(text: &str) -> (r: String)
    ensures
        r@ == before_query(text@),
{
    let chars = characters(text);
    let mut r = String::new();
    let mut i: usize = 0;
    assert(text@.skip(0) =~= text@);
    assert(before_query(text@) =~= r@ + before_query(text@.skip(0)));
    while i < chars.len() && chars[i] != '?' && chars[i] != '#'
        invariant
            i <= chars@.len(),
            chars@ == text@,
            before_query(text@) == r@ + before_query(text@.skip(i as int)),
        decreases chars@.len() - i,
    {
        assert(text@.skip(i as int).skip(1) =~= text@.skip(i + 1));
        assert(text@.skip(i as int)[0] == chars@[i as int]);
        let ghost had = r@;
        r.push(chars[i]);
        assert(had + (seq![chars@[i as int]] + before_query(text@.skip(i + 1))) =~= r@
            + before_query(text@.skip(i + 1)));
        i += 1;
    }
    assert(i < chars@.len() ==> text@.skip(i as int)[0] == chars@[i as int]);
    assert(before_query(text@.skip(i as int)) =~= seq![]);
    assert(before_query(text@) =~= r@);
    r
}

/// What stands behind the last `c`; the whole text if there is none.
pub fn last_piece(text: &str, c: char) -> (r: String)
    ensures
        r@ == after_last(text@, c),
{
    match split_last(text, c) {
        Some((_, b)) => b,
        None => text.to_owned(),
    }
}

/// What stands before the last `c`; the whole text if there is none.
pub fn first_pieces(text: &str, c: char) -> (r: String)
    ensures
        r@ == before_last(text@, c),
{
    match split_last(text, c) {
        Some((a, _)) => a,
        None => text.to_owned(),
    }
}

/// A text without the `c`s at its end.
pub open spec fn without_end(s: Seq<char>, c: char) -> Seq<char>
    decreases s.len(),
{
    if s.len() > 0 && s.last() == c {
        without_end(s.drop_last(), c)
    } else {
        s
    }
}

/// A text without the `c`s at its end.
pub fn trim_end(text: &str, c: char) -> (r: String)
    ensures
        r@ == without_end(text@, c),
{
    let chars = characters(text);
    let mut end: usize = chars.len();
    assert(text@.take(end as int) =~= text@);
    while end > 0 && chars[end - 1] == c
        invariant
            end <= chars@.len(),
            chars@ == text@,
            without_end(text@, c) == without_end(text@.take(end as int), c),
        decreases end,
    {
        assert(text@.take(end as int).drop_last() =~= text@.take(end - 1));
        assert(text@.take(end as int).last() == chars@[end - 1]);
        end -= 1;
    }
    assert(end > 0 ==> text@.take(end as int).last() == chars@[end - 1]);
    let r = text_of(&chars, 0, end);
    assert(r@ =~= text@.take(end as int));
    r
}

/// The pieces of a text between its `c`s.
pub open spec fn pieces(s: Seq<char>, c: char) -> Seq<Seq<char>>
    decreases s.len(),
{
    proof {
        lemma_first_index(s, c);
    }
    match first_index(s, c) {
        Some(i) => seq![s.take(i)] + pieces(s.skip(i + 1), c),
        None => seq![s],
    }
}

/// Is one of the pieces of the text between its `c`s this one?
pub fn has_piece(text: &str, c: char, piece: &str) -> (r: bool)
    ensures
        r == pieces(text@, c).contains(piece@),
{
    let chars = characters(text);
    let end = chars.len();
    let mut from: usize = 0;
    assert(text@.skip(0) =~= text@);
    loop
        invariant
            from <= end == chars@.len(),
            chars@ == text@,
            pieces(text@, c).contains(piece@) == pieces(text@.skip(from as int), c).contains(
                piece@,
            ),
        decreases end - from,
    {
        let ghost rest = text@.skip(from as int);
        let mut to: usize = from;
        while to < end && chars[to] != c
            invariant
                from <= to <= end == chars@.len(),
                chars@ == text@,
                rest == text@.skip(from as int),
                forall|j: int| 0 <= j < to - from ==> rest[j] != c,
            decreases end - to,
        {
            assert(rest[to - from] == chars@[to as int]);
            to += 1;
        }
        let next = text_of(&chars, from, to);
        assert(next@ =~= rest.take(to - from));
        let found = same(&next, piece);
        if to == end {
            proof {
                lemma_first_index_none(rest, c);
                assert(next@ =~= rest);
                assert(pieces(rest, c)[0] == rest);
            }
            return found;
        }
        proof {
            assert(rest[to - from] == c);
            lemma_first_index_is(rest, c, to - from);
            assert(rest.skip(to - from + 1) =~= text@.skip(to + 1));
            let more = pieces(text@.skip(to + 1), c);
            let all = pieces(rest, c);
            assert(all =~= seq![next@] + more);
            assert(all[0] == next@);
            if more.contains(piece@) {
                let k = choose|k: int| 0 <= k < more.len() && more[k] == piece@;
                assert(all[k + 1] == piece@);
            }
            if all.contains(piece@) && next@ != piece@ {
                let k = choose|k: int| 0 <= k < all.len() && all[k] == piece@;
                assert(more[k - 1] == piece@);
            }
        }
        if found {
            return true;
        }
        from = to + 1;
    }
}

/// The first piece and the others.
pub proof fn lemma_pieces(first: Seq<char>, rest: Seq<char>, c: char)
    requires
        !first.contains(c),
    ensures
        pieces(first + seq![c] + rest, c) == seq![first] + pieces(rest, c),
        pieces(first, c) == seq![first],
{
    let s = first + seq![c] + rest;
    let n = first.len() as int;
    assert forall|j: int| 0 <= j < n implies first[j] != c by {}
    assert(s[n] == c);
    lemma_first_index_is(s, c, n);
    lemma_first_index_none(first, c);
    assert(s.take(n) =~= first);
    assert(s.skip(n + 1) =~= rest);
}

/// A text is cut at the last `c`: what precedes it and what follows it come back, and a text without
/// one is not cut.
pub proof fn law_cut_at_the_last(before: Seq<char>, after: Seq<char>, c: char)
    requires
        !after.contains(c),
    ensures
        cut_last(before + seq![c] + after, c) == Some((before, after)),
        before_last(before + seq![c] + after, c) == before,
        after_last(before + seq![c] + after, c) == after,
        cut_last(after, c) is None,
        before_last(after, c) == after,
        after_last(after, c) == after,
{
    let s = before + seq![c] + after;
    let n = before.len() as int;
    assert(s[n] == c);
    assert forall|j: int| n < j < s.len() implies s[j] != c by {
        assert(s[j] == after[j - n - 1]);
    }
    lemma_last_index_is(s, c, n);
    assert(s.take(n) =~= before);
    assert(s.skip(n + 1) =~= after);
    assert forall|j: int| 0 <= j < after.len() implies after[j] != c by {}
    lemma_last_index_none(after, c);
}

/// A text is cut at the first `part`: the two halves and the part make the text, and the part does not
/// begin anywhere before the cut. A text that holds the part somewhere is cut.
pub proof fn law_cut_at_the_first(s: Seq<char>, part: Seq<char>, i: int)
    ensures
        cut_first(s, part) matches Some((a, b)) ==> a + part + b == s && (0 <= i < a.len()
            ==> !part.is_prefix_of(s.skip(i))),
        0 <= i <= s.len() && part.is_prefix_of(s.skip(i)) ==> cut_first(s, part) is Some && find(
            s,
            part,
        ) is Some,
        cut_first(s, part) is Some <==> find(s, part) is Some,
{
    lemma_find(s, part);
    if let Some(k) = find(s, part) {
        let rest = s.skip(k);
        assert forall|j: int| 0 <= j < part.len() implies s[k + j] == part[j] by {
            assert(rest[j] == part[j]);
        }
        assert(s.take(k) + part + s.skip(k + part.len()) =~= s);
    }
}

/// A path ends where its query begins: at the first `?` or `#`, whatever follows.
pub proof fn law_a_path_ends_at_its_query(path: Seq<char>, query: Seq<char>)
    requires
        !path.contains('?'),
        !path.contains('#'),
        query.len() > 0 ==> query[0] == '?' || query[0] == '#',
    ensures
        before_query(path + query) == path,
    decreases path.len(),
{
    let s = path + query;
    if path.len() == 0 {
        assert(s =~= query);
        assert(before_query(s) =~= path);
    } else {
        assert(path[0] != '?' && path[0] != '#');
        let rest = path.skip(1);
        assert forall|c: char| rest.contains(c) implies path.contains(c) by {
            let j = choose|j: int| 0 <= j < rest.len() && rest[j] == c;
            assert(path[j + 1] == c);
        }
        law_a_path_ends_at_its_query(rest, query);
        assert(s.skip(1) =~= rest + query);
        assert(s[0] == path[0]);
        assert(before_query(s) =~= path);
    }
}

/// Trimming takes every `c` off the end and nothing else.
pub proof fn law_trimming(s: Seq<char>, c: char)
    ensures
        s.len() == 0 || s.last() != c ==> without_end(s, c) == s,
        without_end(s.push(c), c) == without_end(s, c),
{
    assert(s.push(c).drop_last() =~= s);
}

/// Lower case changes the letters from A to Z, each to its own small letter, and nothing else.
pub proof fn law_lower_case(s: Seq<char>, i: int)
    requires
        0 <= i < s.len(),
    ensures
        lowered(s).len() == s.len(),
        'A' <= s[i] <= 'Z' ==> lowered(s)[i] as u32 == s[i] as u32 + 32,
        !('A' <= s[i] <= 'Z') ==> lowered(s)[i] == s[i],
{
}

/// Texts are ordered by their first difference, and a text comes before what it begins.
pub proof fn law_texts_are_ordered(
    common: Seq<char>,
    a: char,
    b: char,
    rest: Seq<char>,
    other: Seq<char>,
)
    requires
        a < b,
    ensures
        text_le(common + seq![a] + rest, common + seq![b] + other),
        !text_le(common + seq![b] + other, common + seq![a] + rest),
        text_le(common, common + rest),
        rest.len() > 0 ==> !text_le(common + rest, common),
    decreases common.len(),
{
    let x = common + seq![a] + rest;
    let y = common + seq![b] + other;
    if common.len() > 0 {
        let less = common.skip(1);
        law_texts_are_ordered(less, a, b, rest, other);
        assert(x.skip(1) =~= less + seq![a] + rest);
        assert(y.skip(1) =~= less + seq![b] + other);
        assert((common + rest).skip(1) =~= less + rest);
        assert(x[0] == common[0] && y[0] == common[0] && (common + rest)[0] == common[0]);
    } else {
        assert(x[0] == a && y[0] == b);
    }
}

/// A text is cut at every `c`, and at nothing else.
pub proof fn law_pieces(first: Seq<char>, rest: Seq<char>, c: char)
    requires
        !first.contains(c),
    ensures
        pieces(first + seq![c] + rest, c) == seq![first] + pieces(rest, c),
        pieces(first, c) == seq![first],
{
    lemma_pieces(first, rest, c);
}

/// Which characters are letters and digits, and which of them are which.
pub proof fn law_letters_and_digits(c: char)
    ensures
        is_digit(c) <==> 48 <= c as u32 <= 57,
        is_lower(c) <==> 97 <= c as u32 <= 122,
        is_upper(c) <==> 65 <= c as u32 <= 90,
        is_alphanumeric(c) <==> is_digit(c) || is_lower(c) || is_upper(c),
{
}

/// A prefix is taken off a text that begins with it, and off no other.
pub proof fn law_taking_off_a_prefix(prefix: Seq<char>, rest: Seq<char>, s: Seq<char>)
    ensures
        after_prefix(prefix + rest, prefix) == Some(rest),
        after_prefix(s, prefix) matches Some(r) ==> prefix + r == s,
{
    assert(prefix =~= (prefix + rest).subrange(0, prefix.len() as int));
    assert((prefix + rest).skip(prefix.len() as int) =~= rest);
    if prefix.is_prefix_of(s) {
        assert(prefix == s.subrange(0, prefix.len() as int));
        assert(prefix + s.skip(prefix.len() as int) =~= s);
    }
}

} // verus!
