//! Lists in order: how records are arranged for reading.
use vstd::prelude::*;

use crate::text;

verus! {

/// A list with `x` put before the first item that it goes ahead of, or at the end.
pub open spec fn inserted<A>(s: Seq<A>, x: A, ahead: spec_fn(A, A) -> bool) -> Seq<A>
    decreases s.len(),
{
    if s.len() == 0 {
        seq![x]
    } else if ahead(x, s[0]) {
        seq![x] + s
    } else {
        seq![s[0]] + inserted(s.skip(1), x, ahead)
    }
}

/// A list with its items put in order, one after the other.
pub open spec fn arranged<A>(s: Seq<A>, ahead: spec_fn(A, A) -> bool) -> Seq<A>
    decreases s.len(),
{
    if s.len() == 0 {
        s
    } else {
        inserted(arranged(s.drop_last(), ahead), s.last(), ahead)
    }
}

/// Does nothing in the list go ahead of what stands before it?
pub open spec fn in_order<A>(s: Seq<A>, ahead: spec_fn(A, A) -> bool) -> bool {
    forall|i: int, j: int| 0 <= i < j < s.len() ==> !ahead(#[trigger] s[j], #[trigger] s[i])
}

/// An order in which "goes ahead of" never runs both ways, and "does not go ahead of" carries over.
pub open spec fn is_order<A>(ahead: spec_fn(A, A) -> bool) -> bool {
    &&& forall|a: A, b: A| ahead(a, b) ==> !(#[trigger] ahead(b, a))
    &&& forall|a: A, b: A, c: A|
        !(#[trigger] ahead(b, a)) && !(#[trigger] ahead(c, b)) ==> !ahead(c, a)
}

/// Where `x` is put.
pub proof fn lemma_inserted_at<A>(s: Seq<A>, x: A, ahead: spec_fn(A, A) -> bool, at: int)
    requires
        0 <= at <= s.len(),
        forall|j: int| 0 <= j < at ==> !ahead(x, #[trigger] s[j]),
        at < s.len() ==> ahead(x, s[at]),
    ensures
        inserted(s, x, ahead) == s.insert(at, x),
    decreases s.len(),
{
    if s.len() == 0 {
        assert(s.insert(at, x) =~= seq![x]);
    } else if at == 0 {
        assert(s.insert(0, x) =~= seq![x] + s);
    } else {
        let rest = s.skip(1);
        assert forall|j: int| 0 <= j < at - 1 implies !ahead(x, #[trigger] rest[j]) by {
            assert(rest[j] == s[j + 1]);
        }
        lemma_inserted_at(rest, x, ahead, at - 1);
        assert(!ahead(x, s[0]));
        assert(s.insert(at, x) =~= seq![s[0]] + rest.insert(at - 1, x));
    }
}

proof fn lemma_inserted<A>(s: Seq<A>, x: A, ahead: spec_fn(A, A) -> bool)
    requires
        is_order(ahead),
        in_order(s, ahead),
    ensures
        in_order(inserted(s, x, ahead), ahead),
        inserted(s, x, ahead).to_multiset() == s.to_multiset().insert(x),
        inserted(s, x, ahead).len() == s.len() + 1,
    decreases s.len(),
{
    broadcast use vstd::seq_lib::group_to_multiset_ensures;

    let at = position(s, x, ahead, 0);
    lemma_position(s, x, ahead, 0);
    lemma_inserted_at(s, x, ahead, at);
    let t = s.insert(at, x);
    assert(t.to_multiset() =~= s.to_multiset().insert(x));
    assert forall|i: int, j: int| 0 <= i < j < t.len() implies !ahead(
        #[trigger] t[j],
        #[trigger] t[i],
    ) by {
        if j < at {
        } else if j == at {
            assert(t[i] == s[i]);
        } else if i == at {
            // x goes ahead of s[at], which nothing behind it goes ahead of
            assert(t[j] == s[j - 1]);
            if j - 1 > at {
                assert(!ahead(s[j - 1], s[at]));
            }
            assert(!ahead(s[at], x));
        } else if i < at {
            assert(t[j] == s[j - 1]);
        } else {
            assert(t[j] == s[j - 1] && t[i] == s[i - 1]);
        }
    }
}

spec fn position<A>(s: Seq<A>, x: A, ahead: spec_fn(A, A) -> bool, from: int) -> int
    decreases s.len() - from,
{
    if from >= s.len() || ahead(x, s[from]) {
        from
    } else {
        position(s, x, ahead, from + 1)
    }
}

proof fn lemma_position<A>(s: Seq<A>, x: A, ahead: spec_fn(A, A) -> bool, from: int)
    requires
        0 <= from <= s.len(),
    ensures
        from <= position(s, x, ahead, from) <= s.len(),
        forall|j: int| from <= j < position(s, x, ahead, from) ==> !ahead(x, #[trigger] s[j]),
        position(s, x, ahead, from) < s.len() ==> ahead(x, s[position(s, x, ahead, from)]),
    decreases s.len() - from,
{
    if from < s.len() && !ahead(x, s[from]) {
        lemma_position(s, x, ahead, from + 1);
    }
}

/// An arranged list is in order and holds what it held, each as often.
pub proof fn law_arranged<A>(s: Seq<A>, ahead: spec_fn(A, A) -> bool)
    requires
        is_order(ahead),
    ensures
        in_order(arranged(s, ahead), ahead),
        arranged(s, ahead).to_multiset() == s.to_multiset(),
        arranged(s, ahead).len() == s.len(),
    decreases s.len(),
{
    broadcast use vstd::seq_lib::group_to_multiset_ensures;

    if s.len() > 0 {
        law_arranged(s.drop_last(), ahead);
        lemma_inserted(arranged(s.drop_last(), ahead), s.last(), ahead);
        assert(s =~= s.drop_last().push(s.last()));
    }
}

/// No later than, where an absent text comes before every text.
pub open spec fn opt_le(a: Option<Seq<char>>, b: Option<Seq<char>>) -> bool {
    match (a, b) {
        (None, _) => true,
        (Some(_), None) => false,
        (Some(x), Some(y)) => text::text_le(x, y),
    }
}

pub proof fn lemma_opt_le_total(a: Option<Seq<char>>, b: Option<Seq<char>>)
    ensures
        opt_le(a, b) || opt_le(b, a),
        opt_le(a, b) && opt_le(b, a) <==> a == b,
{
    if let (Some(x), Some(y)) = (a, b) {
        text::lemma_text_le_total(x, y);
    }
}

pub proof fn lemma_opt_le_transitive(
    a: Option<Seq<char>>,
    b: Option<Seq<char>>,
    c: Option<Seq<char>>,
)
    requires
        opt_le(a, b),
        opt_le(b, c),
    ensures
        opt_le(a, c),
{
    if let (Some(x), Some(y)) = (a, b) {
        if let Some(z) = c {
            text::lemma_text_le_transitive(x, y, z);
        }
    }
}

/// Does `a` come no later than `b`?
pub fn opt_not_after(a: &Option<String>, b: &Option<String>) -> (r: bool)
    ensures
        r == opt_le(text::opt(*a), text::opt(*b)),
{
    match (a, b) {
        (None, _) => true,
        (Some(_), None) => false,
        (Some(x), Some(y)) => text::not_after(x, y),
    }
}

/// Where the item at `a` of what is kept of a list stands in the list.
pub open spec fn source<A>(s: Seq<A>, keep: spec_fn(A) -> bool, a: int) -> int
    decreases s.len(),
{
    if s.len() == 0 {
        0
    } else if a < s.drop_last().filter(keep).len() {
        source(s.drop_last(), keep, a)
    } else {
        s.len() - 1
    }
}

/// What is kept of a list comes from it, in the same order.
pub proof fn lemma_source<A>(s: Seq<A>, keep: spec_fn(A) -> bool)
    ensures
        forall|a: int|
            0 <= a < s.filter(keep).len() ==> {
                &&& keep(#[trigger] s.filter(keep)[a])
                &&& 0 <= source(s, keep, a) < s.len()
                &&& s[source(s, keep, a)] == s.filter(keep)[a]
            },
        forall|a: int, b: int|
            0 <= a < b < s.filter(keep).len() ==> #[trigger] source(s, keep, a) < #[trigger] source(
                s,
                keep,
                b,
            ),
    decreases s.len(),
{
    reveal(Seq::filter);
    if s.len() > 0 {
        let rest = s.drop_last();
        lemma_source(rest, keep);
        assert forall|a: int, b: int| 0 <= a < b < s.filter(keep).len() implies #[trigger] source(
            s,
            keep,
            a,
        ) < #[trigger] source(s, keep, b) by {
            let kept = rest.filter(keep);
            assert(keep(kept[a]));
            if b < kept.len() {
                assert(source(rest, keep, a) < source(rest, keep, b));
            }
        }
    }
}

} // verus!
