//! An element is known by its local name: what is read of an envelope does
//! not depend on the prefixes its tags are written with.

use vstd::prelude::*;

#[allow(unused_imports)]
use crate::document::{lemma_attributes_alone, lemma_begins, lemma_local, lemma_qualified};
#[allow(unused_imports)]
use crate::envelope::{
    carried_in, described_in, href_in, listed_in, optional_in, party_in, party_type_in, refusal_in,
    required_in, text_in,
};
#[allow(unused_imports)]
use crate::flat::{closed, is_plain, legible, lemma_closed_stays, lemma_pieces, no_tag};
#[allow(unused_imports)]
use crate::markup::{
    attributes_in, from, is_quote, lemma_markup_end, lemma_span, lemma_unquoted_end, markup_end,
    pieces_in, render, span, tag_end, unquoted_end, until, Piece,
};
#[allow(unused_imports)]
use crate::scan::{
    attribute_in, begins, closes, content_of, element_in, end_in, ends_open_name, first_end,
    first_opening, holds_element, is_empty_tag, local_name_of, opens, properties_among,
    properties_in, property_of, property_text, value_in,
};
#[allow(unused_imports)]
use crate::signal::{signal_in, signalled_in};
#[allow(unused_imports)]
use crate::text::{
    find_char, find_word, is_char, lemma_find_word, lemma_find_word_found, lemma_first_where,
    lemma_first_where_found, occurs_at, starts_with,
};
#[allow(unused_imports)]
use crate::xml::{is_mark, is_prefix, unmarked};

verus! {

/// `a` and `b` are the same tag, but for the prefix of its name.
pub open spec fn same_name(a: Seq<char>, b: Seq<char>) -> bool {
    exists|p: Seq<char>, q: Seq<char>, n: Seq<char>, rest: Seq<char>|
        #[trigger] qualifies(p, n, rest, a) && #[trigger] qualifies(q, n, rest, b)
}

/// `tag` opens or closes `n` under the prefix `p`, with `rest` after the name.
pub open spec fn qualifies(p: Seq<char>, n: Seq<char>, rest: Seq<char>, tag: Seq<char>) -> bool {
    &&& is_prefix(p)
    &&& unmarked(n)
    &&& n.len() > 0
    &&& rest.len() > 0 ==> ends_open_name()(rest[0])
    &&& tag == p + n + rest
}

/// `b` is `a` with another prefix, where it has one.
pub open spec fn respelled(a: Seq<char>, b: Seq<char>) -> bool {
    ||| a == b
    ||| same_name(a, b)
    ||| (begins(a, '/') && begins(b, '/') && same_name(a.skip(1), b.skip(1)))
}

/// `q` is the run `p` with the prefixes of its tags exchanged.
pub open spec fn respelled_run(p: Seq<Piece>, q: Seq<Piece>) -> bool {
    &&& p.len() == q.len()
    &&& forall|i: int|
        0 <= i < p.len() ==> respelled((#[trigger] p[i]).tag, q[i].tag) && p[i].text == q[i].text
}

/// An element whose content is read as a text.
pub open spec fn read_as_text(n: Seq<char>) -> bool {
    ||| n == "MessageId"@
    ||| n == "Timestamp"@
    ||| n == "PartyId"@
    ||| n == "Service"@
    ||| n == "Action"@
    ||| n == "ConversationId"@
    ||| n == "AgreementRef"@
    ||| n == "Property"@
    ||| n == "RefToMessageId"@
    ||| n == "Description"@
}

/// What is read as a text of the element `n` that the first of `pieces`
/// opens.
pub open spec fn text_of(pieces: Seq<Piece>, n: Seq<char>) -> Option<Seq<char>> {
    if n == "Property"@ && !is_empty_tag(pieces[0].tag) {
        property_text(pieces)
    } else {
        content_of(pieces, n)
    }
}

/// What is read as a text is the same in both runs: it is wherever it holds
/// no tag, or none whose prefix was exchanged.
pub open spec fn same_texts(p: Seq<Piece>, q: Seq<Piece>) -> bool {
    forall|i: int, n: Seq<char>|
        0 <= i < p.len() && read_as_text(n) && #[trigger] opens(p[i].tag, n) ==> text_of(
            p.skip(i),
            n,
        ) == text_of(q.skip(i), n)
}

/// Two tags that a reader cannot tell apart.
spec fn kin(a: Seq<char>, b: Seq<char>) -> bool {
    &&& forall|n: Seq<char>| #[trigger] opens(a, n) == opens(b, n)
    &&& forall|n: Seq<char>| #[trigger] closes(a, n) == closes(b, n)
    &&& begins(a, '/') == begins(b, '/')
    &&& is_empty_tag(a) == is_empty_tag(b)
    &&& attributes_in(a) == attributes_in(b)
}

/// Two runs that a reader cannot tell apart but by the tags in a text.
#[verifier::opaque]
spec fn akin(p: Seq<Piece>, q: Seq<Piece>) -> bool {
    &&& p.len() == q.len()
    &&& forall|i: int|
        0 <= i < p.len() ==> kin((#[trigger] p[i]).tag, q[i].tag) && p[i].text == q[i].text
}

/// What a reader makes of a qualified name.
proof fn lemma_qualifies(p: Seq<char>, n: Seq<char>, rest: Seq<char>, tag: Seq<char>)
    requires
        qualifies(p, n, rest, tag),
    ensures
        local_name_of(tag) == n,
        !begins(tag, '/'),
        !begins(tag, '!'),
        !begins(tag, '?'),
        is_empty_tag(tag) == is_empty_tag(rest),
        attributes_in(tag) == attributes_in(rest),
        is_plain(p + n),
{
    lemma_local(p, n, rest);
    lemma_begins(p, n, rest, '/');
    lemma_begins(p, n, rest, '!');
    lemma_begins(p, n, rest, '?');
    lemma_qualified(p, n);
    lemma_attributes_alone(p + n, rest);
    if rest.len() > 0 {
        assert(tag.last() == rest.last());
    } else {
        assert(tag.last() == n.last());
        assert(!is_mark(n[n.len() - 1]));
    }
}

/// What makes two tags that open an element kin.
proof fn lemma_kin_open(a: Seq<char>, b: Seq<char>)
    requires
        !begins(a, '/') && !begins(a, '!') && !begins(a, '?'),
        !begins(b, '/') && !begins(b, '!') && !begins(b, '?'),
        local_name_of(a) == local_name_of(b),
        is_empty_tag(a) == is_empty_tag(b),
        attributes_in(a) == attributes_in(b),
    ensures
        kin(a, b),
{
}

/// What makes two tags that close an element kin.
proof fn lemma_kin_close(a: Seq<char>, b: Seq<char>)
    requires
        begins(a, '/') && begins(b, '/'),
        local_name_of(a.skip(1)) == local_name_of(b.skip(1)),
        is_empty_tag(a) == is_empty_tag(b),
        attributes_in(a) == attributes_in(b),
    ensures
        kin(a, b),
{
}

/// What a reader makes of two tags of the same name is the same.
proof fn lemma_same_name(a: Seq<char>, b: Seq<char>)
    requires
        same_name(a, b),
    ensures
        a.len() > 0 && b.len() > 0,
        !begins(a, '/') && !begins(a, '!') && !begins(a, '?'),
        !begins(b, '/') && !begins(b, '!') && !begins(b, '?'),
        local_name_of(a) == local_name_of(b),
        is_empty_tag(a) == is_empty_tag(b),
        attributes_in(a) == attributes_in(b),
{
    let (p, q, n, rest) = choose|p: Seq<char>, q: Seq<char>, n: Seq<char>, rest: Seq<char>|
        #[trigger] qualifies(p, n, rest, a) && #[trigger] qualifies(q, n, rest, b);
    lemma_qualifies(p, n, rest, a);
    lemma_qualifies(q, n, rest, b);
}

/// What a tag that closes is beside its `/`.
proof fn lemma_behind_slash(a: Seq<char>)
    requires
        begins(a, '/'),
        a.len() > 1,
    ensures
        attributes_in(a) == attributes_in(a.skip(1)),
        is_empty_tag(a) == is_empty_tag(a.skip(1)),
{
    let slash = seq!['/'];
    assert(a =~= slash + a.skip(1));
    lemma_attributes_alone(slash, a.skip(1));
    assert(a.last() == a.skip(1).last());
}

/// A reader cannot tell a tag from the same under another prefix.
proof fn lemma_respelled(a: Seq<char>, b: Seq<char>)
    requires
        respelled(a, b),
    ensures
        kin(a, b),
{
    if a != b {
        if same_name(a, b) {
            lemma_same_name(a, b);
            lemma_kin_open(a, b);
        } else {
            lemma_same_name(a.skip(1), b.skip(1));
            lemma_behind_slash(a);
            lemma_behind_slash(b);
            lemma_kin_close(a, b);
        }
    }
}

proof fn lemma_akin(p: Seq<Piece>, q: Seq<Piece>)
    requires
        respelled_run(p, q),
    ensures
        akin(p, q),
{
    reveal(akin);
    assert forall|i: int| 0 <= i < p.len() implies kin((#[trigger] p[i]).tag, q[i].tag) && p[i].text
        == q[i].text by {
        lemma_respelled(p[i].tag, q[i].tag);
    }
}

/// What is cut out of two such runs are two such runs.
proof fn lemma_akin_part(p: Seq<Piece>, q: Seq<Piece>, a: int, b: int)
    requires
        akin(p, q),
        0 <= a <= b <= p.len(),
    ensures
        akin(p.subrange(a, b), q.subrange(a, b)),
{
    reveal(akin);
    let (x, y) = (p.subrange(a, b), q.subrange(a, b));
    assert forall|i: int| 0 <= i < x.len() implies kin((#[trigger] x[i]).tag, y[i].tag) && x[i].text
        == y[i].text by {
        assert(x[i] == p[a + i]);
    }
}

proof fn lemma_same_opening(p: Seq<Piece>, q: Seq<Piece>, n: Seq<char>)
    requires
        akin(p, q),
    ensures
        first_opening(p, n) == first_opening(q, n),
        first_opening(p, n) matches Some(i) ==> 0 <= i < p.len() && opens(p[i].tag, n),
        p.len() == q.len(),
    decreases p.len(),
{
    assert(p.len() == q.len()) by {
        reveal(akin);
    }
    if p.len() > 0 {
        assert(kin(p[0].tag, q[0].tag)) by {
            reveal(akin);
        }
        lemma_akin_part(p, q, 1, p.len() as int);
        assert(p.drop_first() =~= p.subrange(1, p.len() as int));
        assert(q.drop_first() =~= q.subrange(1, q.len() as int));
        assert(opens(p[0].tag, n) == opens(q[0].tag, n));
        lemma_same_opening(p.drop_first(), q.drop_first(), n);
    }
}

proof fn lemma_same_end(p: Seq<Piece>, q: Seq<Piece>, n: Seq<char>, depth: nat)
    requires
        akin(p, q),
    ensures
        end_in(p, n, depth) == end_in(q, n, depth),
        end_in(p, n, depth) matches Some(e) ==> 0 <= e < p.len(),
        p.len() == q.len(),
    decreases p.len(),
{
    assert(p.len() == q.len()) by {
        reveal(akin);
    }
    if p.len() > 0 {
        assert(kin(p[0].tag, q[0].tag)) by {
            reveal(akin);
        }
        lemma_akin_part(p, q, 1, p.len() as int);
        assert(p.drop_first() =~= p.subrange(1, p.len() as int));
        assert(q.drop_first() =~= q.subrange(1, q.len() as int));
        assert(opens(p[0].tag, n) == opens(q[0].tag, n));
        assert(closes(p[0].tag, n) == closes(q[0].tag, n));
        lemma_same_end(p.drop_first(), q.drop_first(), n, depth);
        lemma_same_end(p.drop_first(), q.drop_first(), n, depth + 1);
        if depth > 0 {
            lemma_same_end(p.drop_first(), q.drop_first(), n, (depth - 1) as nat);
        }
    }
}

/// An end that is found in the beginning of a run is found in all of it.
proof fn lemma_end_in_part(p: Seq<Piece>, m: int, n: Seq<char>, depth: nat)
    requires
        0 <= m <= p.len(),
        end_in(p.take(m), n, depth) is Some,
    ensures
        end_in(p, n, depth) == end_in(p.take(m), n, depth),
        end_in(p.take(m), n, depth) matches Some(e) ==> 0 <= e < m,
    decreases p.len(),
{
    let part = p.take(m);
    if m > 0 {
        assert(part[0] == p[0]);
        assert(part.drop_first() =~= p.drop_first().take(m - 1));
        let tag = p[0].tag;
        if closes(tag, n) {
            if depth > 0 {
                lemma_end_in_part(p.drop_first(), m - 1, n, (depth - 1) as nat);
            }
        } else if opens(tag, n) && !is_empty_tag(tag) {
            lemma_end_in_part(p.drop_first(), m - 1, n, depth + 1);
        } else {
            lemma_end_in_part(p.drop_first(), m - 1, n, depth);
        }
    }
}

/// The content of an element in a part of a run is its content in all of it.
proof fn lemma_content_in_part(p: Seq<Piece>, a: int, b: int, i: int, n: Seq<char>)
    requires
        0 <= a <= b <= p.len(),
        0 <= i < b - a,
        content_of(p.subrange(a, b).skip(i), n) is Some,
    ensures
        content_of(p.skip(a + i), n) == content_of(p.subrange(a, b).skip(i), n),
{
    let part = p.subrange(a, b).skip(i);
    let all = p.skip(a + i);
    assert(part[0] == all[0]);
    let inner = all.drop_first();
    let m = b - a - i - 1;
    assert(part.drop_first() =~= inner.take(m));
    lemma_end_in_part(inner, m, n, 0);
    let e = end_in(inner, n, 0)->0;
    assert(inner.take(m).take(e) =~= inner.take(e));
}

proof fn lemma_same_first_end(p: Seq<Piece>, q: Seq<Piece>)
    requires
        akin(p, q),
    ensures
        first_end(p) == first_end(q),
        first_end(p) matches Some(e) ==> 0 <= e < p.len(),
        p.len() == q.len(),
    decreases p.len(),
{
    assert(p.len() == q.len()) by {
        reveal(akin);
    }
    if p.len() > 0 {
        assert(begins(p[0].tag, '/') == begins(q[0].tag, '/')) by {
            reveal(akin);
        }
        lemma_akin_part(p, q, 1, p.len() as int);
        assert(p.drop_first() =~= p.subrange(1, p.len() as int));
        assert(q.drop_first() =~= q.subrange(1, q.len() as int));
        lemma_same_first_end(p.drop_first(), q.drop_first());
    }
}

/// The first end in the beginning of a run is the first in all of it.
proof fn lemma_first_end_part(p: Seq<Piece>, m: int)
    requires
        0 <= m <= p.len(),
        first_end(p.take(m)) is Some,
    ensures
        first_end(p) == first_end(p.take(m)),
        first_end(p.take(m)) matches Some(e) ==> 0 <= e < m,
    decreases p.len(),
{
    let part = p.take(m);
    if m > 0 {
        assert(part[0] == p[0]);
        assert(part.drop_first() =~= p.drop_first().take(m - 1));
        if !begins(p[0].tag, '/') {
            lemma_first_end_part(p.drop_first(), m - 1);
        }
    }
}

/// No element ends before the first tag that closes any.
proof fn lemma_first_end_first(p: Seq<Piece>, n: Seq<char>, depth: nat)
    requires
        end_in(p, n, depth) is Some,
    ensures
        first_end(p) matches Some(e) && 0 <= e <= end_in(p, n, depth)->0,
        0 <= end_in(p, n, depth)->0 < p.len(),
    decreases p.len(),
{
    let tag = p[0].tag;
    if closes(tag, n) {
        if depth > 0 {
            lemma_first_end_first(p.drop_first(), n, (depth - 1) as nat);
        }
    } else if opens(tag, n) && !is_empty_tag(tag) {
        lemma_first_end_first(p.drop_first(), n, depth + 1);
    } else {
        lemma_first_end_first(p.drop_first(), n, depth);
    }
}

/// The text of a property up to the first end tag, where no tag closes it in
/// a part of a run, is the same in both runs where the texts in all of them
/// are.
proof fn lemma_same_fallback(p: Seq<Piece>, q: Seq<Piece>, i: int, e: int)
    requires
        akin(p, q),
        legible(p),
        legible(q),
        0 <= i < p.len(),
        !is_empty_tag(p[i].tag),
        first_end(p.skip(i).drop_first()) == Some(e),
        property_text(p.skip(i)) == property_text(q.skip(i)),
    ensures
        0 <= e,
        i + 1 + e < p.len(),
        p.len() == q.len(),
        p[i].text == q[i].text,
        render(p.subrange(i + 1, i + 1 + e)) == render(q.subrange(i + 1, i + 1 + e)),
{
    let n = "Property"@;
    let (x, y) = (p.skip(i), q.skip(i));
    let (c, d) = (x.drop_first(), y.drop_first());
    assert(p.len() == q.len() && kin(p[i].tag, q[i].tag) && p[i].text == q[i].text) by {
        reveal(akin);
    }
    assert(x[0] == p[i] && y[0] == q[i]);
    lemma_akin_part(p, q, i + 1, p.len() as int);
    assert(c =~= p.subrange(i + 1, p.len() as int));
    assert(d =~= q.subrange(i + 1, q.len() as int));
    lemma_same_end(c, d, n, 0);
    lemma_same_first_end(c, d);
    let m = match end_in(c, n, 0) {
        Some(m) => m,
        None => e,
    };
    if end_in(c, n, 0) is Some {
        lemma_first_end_first(c, n, 0);
    }
    let (u, v) = (c.take(m), d.take(m));
    assert(u =~= p.subrange(i + 1, i + 1 + m));
    assert(v =~= q.subrange(i + 1, i + 1 + m));
    assert(p[i].text + render(u) == p[i].text + render(v));
    lemma_same_tail(p[i].text, render(u), render(v));
    lemma_legible_part(p, i + 1, i + 1 + m);
    lemma_legible_part(q, i + 1, i + 1 + m);
    let none = Seq::<char>::empty();
    lemma_pieces(none, u);
    lemma_pieces(none, v);
    assert(u == v);
    assert(u.take(e) =~= p.subrange(i + 1, i + 1 + e));
    assert(v.take(e) =~= q.subrange(i + 1, i + 1 + e));
}

proof fn lemma_same_tail(a: Seq<char>, b: Seq<char>, c: Seq<char>)
    requires
        a + b == a + c,
    ensures
        b == c,
{
    assert((a + b).skip(a.len() as int) =~= b);
    assert((a + c).skip(a.len() as int) =~= c);
}

/// What is cut out of a legible run is legible.
proof fn lemma_legible_part(p: Seq<Piece>, a: int, b: int)
    requires
        legible(p),
        0 <= a <= b <= p.len(),
    ensures
        legible(p.subrange(a, b)),
{
    reveal(crate::flat::legible);
    let x = p.subrange(a, b);
    assert forall|i: int| 0 <= i < x.len() implies closed(#[trigger] x[i]) && no_tag(x[i].text) by {
        assert(x[i] == p[a + i]);
    }
}

/// What is read as a text is the same in a part of two runs where it is in
/// all of them.
proof fn lemma_same_text_in_part(
    p: Seq<Piece>,
    q: Seq<Piece>,
    a: int,
    b: int,
    i: int,
    n: Seq<char>,
)
    requires
        akin(p, q),
        legible(p),
        legible(q),
        0 <= a <= b <= p.len(),
        0 <= i < b - a,
        text_of(p.skip(a + i), n) == text_of(q.skip(a + i), n),
    ensures
        text_of(p.subrange(a, b).skip(i), n) == text_of(q.subrange(a, b).skip(i), n),
{
    let (x, y) = (p.subrange(a, b), q.subrange(a, b));
    lemma_akin_part(p, q, a, b);
    lemma_same_content(x, y, i, n);
    assert(p.len() == q.len() && kin(p[a + i].tag, q[a + i].tag)) by {
        reveal(akin);
    }
    assert(x.skip(i)[0] == p[a + i] && y.skip(i)[0] == q[a + i]);
    assert(p.skip(a + i)[0] == p[a + i] && q.skip(a + i)[0] == q[a + i]);
    if content_of(x.skip(i), n) is Some {
        lemma_content_in_part(p, a, b, i, n);
        lemma_content_in_part(q, a, b, i, n);
    } else if n == "Property"@ && !is_empty_tag(p[a + i].tag) {
        let (c, d) = (x.skip(i).drop_first(), y.skip(i).drop_first());
        let (s, t) = (p.skip(a + i).drop_first(), q.skip(a + i).drop_first());
        let m = b - a - i - 1;
        assert(c =~= s.take(m));
        assert(d =~= t.take(m));
        lemma_akin_part(x, y, i + 1, b - a);
        assert(c =~= x.subrange(i + 1, b - a));
        assert(d =~= y.subrange(i + 1, b - a));
        lemma_same_first_end(c, d);
        if let Some(e) = first_end(c) {
            lemma_first_end_part(s, m);
            lemma_same_fallback(p, q, a + i, e);
            assert(c.take(e) =~= p.subrange(a + i + 1, a + i + 1 + e));
            assert(d.take(e) =~= q.subrange(a + i + 1, a + i + 1 + e));
        }
    }
}

proof fn lemma_same_texts_part(p: Seq<Piece>, q: Seq<Piece>, a: int, b: int)
    requires
        akin(p, q),
        legible(p),
        legible(q),
        same_texts(p, q),
        0 <= a <= b <= p.len(),
    ensures
        same_texts(p.subrange(a, b), q.subrange(a, b)),
{
    let (x, y) = (p.subrange(a, b), q.subrange(a, b));
    assert forall|i: int, n: Seq<char>|
        0 <= i < x.len() && read_as_text(n) && #[trigger] opens(x[i].tag, n) implies text_of(
        x.skip(i),
        n,
    ) == text_of(y.skip(i), n) by {
        assert(x[i] == p[a + i]);
        assert(opens(p[a + i].tag, n));
        lemma_same_text_in_part(p, q, a, b, i, n);
    }
}

/// The content of an element is there in both runs or in neither; where it
/// is, it is the same text and the same stretch of tags.
proof fn lemma_same_content(p: Seq<Piece>, q: Seq<Piece>, i: int, n: Seq<char>)
    requires
        akin(p, q),
        0 <= i < p.len(),
    ensures
        p.len() == q.len(),
        content_of(p.skip(i), n) is Some <==> content_of(q.skip(i), n) is Some,
        content_of(p.skip(i), n) is Some ==> ({
            let e = end_in(p.skip(i).drop_first(), n, 0)->0;
            &&& 0 <= e
            &&& i + 1 + e < p.len()
            &&& content_of(p.skip(i), n) == Some(p[i].text + render(p.subrange(i + 1, i + 1 + e)))
            &&& content_of(q.skip(i), n) == Some(p[i].text + render(q.subrange(i + 1, i + 1 + e)))
        }),
{
    let (x, y) = (p.skip(i), q.skip(i));
    assert(p.len() == q.len() && kin(p[i].tag, q[i].tag) && p[i].text == q[i].text) by {
        reveal(akin);
    }
    assert(x[0] == p[i] && y[0] == q[i]);
    lemma_akin_part(p, q, i + 1, p.len() as int);
    assert(x.drop_first() =~= p.subrange(i + 1, p.len() as int));
    assert(y.drop_first() =~= q.subrange(i + 1, q.len() as int));
    lemma_same_end(x.drop_first(), y.drop_first(), n, 0);
    if let Some(e) = end_in(x.drop_first(), n, 0) {
        assert(x.drop_first().take(e) =~= p.subrange(i + 1, i + 1 + e));
        assert(y.drop_first().take(e) =~= q.subrange(i + 1, i + 1 + e));
    }
}

/// Two texts that a reader cannot tell apart.
#[verifier::opaque]
spec fn twins(x: Seq<char>, y: Seq<char>) -> bool {
    akin(pieces_in(x), pieces_in(y)) && same_texts(pieces_in(x), pieces_in(y))
}

/// What is written with a `>` after it, and ends there, ends there whatever
/// follows.
proof fn lemma_end_stays(s: Seq<char>, quote: Option<char>, i: int, rest: Seq<char>)
    requires
        unquoted_end(s, quote) == Some(i),
    ensures
        0 <= i < s.len(),
        unquoted_end(s.take(i) + (seq!['>'] + rest), quote) == Some(i),
    decreases s.len(),
{
    lemma_unquoted_end(s, quote);
    let t = s.take(i) + (seq!['>'] + rest);
    if i == 0 {
        assert(t[0] == '>');
        match quote {
            Some(q) => {
                lemma_unquoted_end(
                    s.drop_first(),
                    if s[0] == q {
                        None
                    } else {
                        quote
                    },
                );
            },
            None => {
                if s[0] != '>' {
                    lemma_unquoted_end(
                        s.drop_first(),
                        if is_quote(s[0]) {
                            Some(s[0])
                        } else {
                            None
                        },
                    );
                }
            },
        }
    } else {
        assert(t[0] == s[0]);
        let next = match quote {
            Some(q) => if s[0] == q {
                None
            } else {
                quote
            },
            None => if is_quote(s[0]) {
                Some(s[0])
            } else {
                None
            },
        };
        assert(unquoted_end(s.drop_first(), next) == Some(i - 1));
        lemma_end_stays(s.drop_first(), next, i - 1, rest);
        assert(t.drop_first() =~= s.drop_first().take(i - 1) + (seq!['>'] + rest));
    }
}

/// A word that ends in `>` is first found where it was, whatever follows.
proof fn lemma_word_stays(s: Seq<char>, n: int, word: Seq<char>, i: int, rest: Seq<char>)
    requires
        0 <= n <= s.len(),
        word.len() > 0,
        word.last() == '>',
        find_word(s.skip(n), word) == Some(i),
    ensures
        0 <= i,
        n + i + word.len() <= s.len(),
        ({
            let t = s.take(n + i + word.len() - 1) + (seq!['>'] + rest);
            n <= t.len() && find_word(t.skip(n), word) == Some(i)
        }),
{
    let m = n + i + word.len();
    let t = s.take(m - 1) + (seq!['>'] + rest);
    lemma_find_word_found(s.skip(n), word);
    assert(s.skip(n).subrange(i, i + word.len())[word.len() - 1] == s[m - 1]);
    assert forall|k: int| 0 <= k < m implies t[k] == s[k] by {}
    let (a, b) = (t.skip(n), s.skip(n));
    assert(a.subrange(i, i + word.len()) =~= b.subrange(i, i + word.len()));
    assert forall|j: int| 0 <= j < i implies !#[trigger] occurs_at(a, word, j) by {
        if occurs_at(a, word, j) {
            assert(b.subrange(j, j + word.len()) =~= a.subrange(j, j + word.len()));
            assert(occurs_at(b, word, j));
        }
    }
    lemma_find_word(a, word, i);
}

/// What a text begins with, it begins with whatever follows, where the text
/// up to its end is as long.
proof fn lemma_starts_stays(s: Seq<char>, i: int, rest: Seq<char>, word: Seq<char>)
    requires
        0 <= i < s.len(),
        s[i] == '>',
        forall|k: int| 0 <= k < word.len() ==> #[trigger] word[k] != '>',
    ensures
        starts_with(s.take(i) + (seq!['>'] + rest), word) == starts_with(s, word),
{
    let t = s.take(i) + (seq!['>'] + rest);
    assert forall|k: int| 0 <= k <= i implies t[k] == s[k] by {}
    let n = word.len() as int;
    if starts_with(s, word) {
        if n > i {
            assert(s.subrange(0, n)[i] == s[i]);
            assert(word[i] == '>');
        }
        assert(t.subrange(0, n) =~= s.subrange(0, n));
    }
    if starts_with(t, word) {
        if n > i {
            assert(t.subrange(0, n)[i] == t[i]);
            assert(word[i] == '>');
        }
        assert(t.subrange(0, n) =~= s.subrange(0, n));
    }
}

/// Where a `<` follows, what is before it alone says where a tag ends outside
/// of quotes.
proof fn lemma_unquoted_cut(s: Seq<char>, rest: Seq<char>, quote: Option<char>)
    requires
        rest.len() == 0 || rest[0] == '<',
    ensures
        unquoted_end(s + rest, quote) == unquoted_end(s, quote),
    decreases s.len(),
{
    if s.len() == 0 {
        assert(s + rest =~= rest);
    } else {
        assert((s + rest)[0] == s[0]);
        assert((s + rest).drop_first() =~= s.drop_first() + rest);
        lemma_unquoted_cut(s.drop_first(), rest, quote);
        lemma_unquoted_cut(s.drop_first(), rest, None);
        lemma_unquoted_cut(s.drop_first(), rest, Some(s[0]));
    }
}

/// A tag that ends outside of quotes, or at the first `>` there is, ends there
/// whatever tags follow its text.
proof fn lemma_tag_end_stays(s: Seq<char>, i: int, rest: Seq<char>)
    requires
        tag_end(s) == Some(i),
        rest.len() == 0 || rest[0] == '<',
    ensures
        0 <= i < s.len(),
        tag_end(s.take(i) + (seq!['>'] + (until(s.skip(i + 1), is_char('<')) + rest))) == Some(i),
{
    let found = is_char('<');
    lemma_unquoted_end(s, None);
    lemma_first_where_found(s, is_char('>'));
    let behind = s.skip(i + 1);
    let text = until(behind, found);
    lemma_span(behind, found);
    let t = s.take(i) + (seq!['>'] + (text + rest));
    if unquoted_end(s, None) is Some {
        lemma_end_stays(s, None, i, text + rest);
    } else {
        let head = s.take(i) + (seq!['>'] + text);
        let tail = from(behind, found);
        assert(s =~= head + tail);
        assert(t =~= head + rest);
        if tail.len() > 0 {
            assert(tail[0] == behind[span(behind, found)]);
        }
        lemma_unquoted_cut(head, tail, None);
        lemma_unquoted_cut(head, rest, None);
        assert(t[i] == '>');
        assert forall|j: int| 0 <= j < i implies !is_char('>')(#[trigger] t[j]) by {
            assert(t[j] == s[j]);
            assert(!is_char('>')(s[j]));
        }
        lemma_first_where(t, is_char('>'), i);
    }
}

/// A tag that was read, with the text after it, is closed.
#[verifier::rlimit(30)]
proof fn lemma_read_is_closed(s: Seq<char>, i: int)
    requires
        markup_end(s) == Some(i),
    ensures
        closed(Piece { tag: s.take(i), text: until(s.skip(i + 1), is_char('<')) }),
{
    reveal(crate::flat::closed);
    let tag = s.take(i);
    let text = until(s.skip(i + 1), is_char('<'));
    reveal_strlit("!--");
    reveal_strlit("![CDATA[");
    reveal_strlit("?");
    reveal_strlit("-->");
    reveal_strlit("]]>");
    reveal_strlit("?>");
    lemma_markup_end(s);
    assert forall|rest: Seq<char>| rest.len() == 0 || rest[0] == '<' implies #[trigger] markup_end(
        tag + (seq!['>'] + (text + rest)),
    ) == Some(tag.len() as int) by {
        lemma_starts_stays(s, i, text + rest, "!--"@);
        lemma_starts_stays(s, i, text + rest, "![CDATA["@);
        lemma_starts_stays(s, i, text + rest, "?"@);
        if starts_with(s, "!--"@) {
            lemma_word_stays(s, 3, "-->"@, i - 5, text + rest);
        } else if starts_with(s, "![CDATA["@) {
            lemma_word_stays(s, 8, "]]>"@, i - 10, text + rest);
        } else if starts_with(s, "?"@) {
            lemma_word_stays(s, 1, "?>"@, i - 2, text + rest);
        } else {
            lemma_tag_end_stays(s, i, rest);
        }
    }
}

/// What was read is legible.
pub proof fn lemma_read_is_legible(xml: Seq<char>)
    ensures
        legible(pieces_in(xml)),
    decreases xml.len(),
{
    reveal(crate::flat::legible);
    lemma_first_where_found(xml, is_char('<'));
    if let Some(start) = find_char(xml, '<') {
        let tag = xml.skip(start + 1);
        lemma_markup_end(tag);
        if let Some(end) = markup_end(tag) {
            let rest = tag.skip(end + 1);
            lemma_read_is_closed(tag, end);
            lemma_read_is_legible(rest);
            let text = until(rest, is_char('<'));
            lemma_span(rest, is_char('<'));
            assert(no_tag(text)) by {
                assert forall|k: int| 0 <= k < text.len() implies #[trigger] text[k] != '<' by {
                    assert(text[k] == rest[k]);
                    assert(!is_char('<')(rest[k]));
                }
            }
            let all = pieces_in(xml);
            assert forall|k: int| 0 <= k < all.len() implies closed(#[trigger] all[k]) && no_tag(
                all[k].text,
            ) by {
                if k > 0 {
                    assert(all[k] == pieces_in(rest)[k - 1]);
                }
            }
        }
    }
}

/// The contents of two elements that cannot be told apart cannot be told
/// apart.
#[verifier::rlimit(30)]
proof fn lemma_twin_elements(x: Seq<char>, y: Seq<char>, n: Seq<char>)
    requires
        twins(x, y),
    ensures
        element_in(x, n) is Some <==> element_in(y, n) is Some,
        element_in(x, n) is Some ==> twins(element_in(x, n)->0, element_in(y, n)->0),
        read_as_text(n) ==> element_in(x, n) == element_in(y, n),
        holds_element(x, n) == holds_element(y, n),
{
    reveal(twins);
    let (p, q) = (pieces_in(x), pieces_in(y));
    lemma_same_opening(p, q, n);
    if let Some(i) = first_opening(p, n) {
        lemma_same_content(p, q, i, n);
        assert(kin(p[i].tag, q[i].tag)) by {
            reveal(akin);
        }
        if element_in(x, n) is Some {
            let e = end_in(p.skip(i).drop_first(), n, 0)->0;
            let (a, b) = (i + 1, i + 1 + e);
            lemma_read_is_legible(x);
            lemma_read_is_legible(y);
            lemma_legible_part(p, a, b);
            lemma_legible_part(q, a, b);
            assert(no_tag(p[i].text)) by {
                reveal(crate::flat::legible);
            }
            lemma_pieces(p[i].text, p.subrange(a, b));
            lemma_pieces(p[i].text, q.subrange(a, b));
            lemma_akin_part(p, q, a, b);
            lemma_same_texts_part(p, q, a, b);
            if read_as_text(n) {
                assert(text_of(p.skip(i), n) == text_of(q.skip(i), n));
            }
        }
    }
}

/// The same attributes are read of what cannot be told apart.
proof fn lemma_twin_attributes(x: Seq<char>, y: Seq<char>, n: Seq<char>, key: Seq<char>)
    requires
        twins(x, y),
    ensures
        attribute_in(x, n, key) == attribute_in(y, n, key),
{
    reveal(twins);
    let (p, q) = (pieces_in(x), pieces_in(y));
    lemma_same_opening(p, q, n);
    if let Some(i) = first_opening(p, n) {
        assert(kin(p[i].tag, q[i].tag)) by {
            reveal(akin);
        }
    }
}

proof fn lemma_same_properties(p: Seq<Piece>, q: Seq<Piece>)
    requires
        akin(p, q),
        legible(p),
        legible(q),
        same_texts(p, q),
    ensures
        properties_among(p) == properties_among(q),
    decreases p.len(),
{
    assert(p.len() == q.len()) by {
        reveal(akin);
    }
    if p.len() > 0 {
        let m = p.len() as int;
        assert(kin(p[0].tag, q[0].tag)) by {
            reveal(akin);
        }
        assert(p.skip(0) =~= p && q.skip(0) =~= q);
        assert(opens(p[0].tag, "Property"@) == opens(q[0].tag, "Property"@));
        if opens(p[0].tag, "Property"@) {
            assert(text_of(p.skip(0), "Property"@) == text_of(q.skip(0), "Property"@));
        }
        assert(value_in(p[0].tag, "name"@) == value_in(q[0].tag, "name"@));
        assert(property_of(p) == property_of(q));
        lemma_akin_part(p, q, 1, m);
        lemma_legible_part(p, 1, m);
        lemma_legible_part(q, 1, m);
        lemma_same_texts_part(p, q, 1, m);
        assert(p.drop_first() =~= p.subrange(1, m));
        assert(q.drop_first() =~= q.subrange(1, m));
        lemma_same_properties(p.drop_first(), q.drop_first());
    }
}

/// The same properties are read of what cannot be told apart.
proof fn lemma_twin_properties(x: Seq<char>, y: Seq<char>)
    requires
        twins(x, y),
    ensures
        properties_in(x) == properties_in(y),
{
    reveal(twins);
    lemma_read_is_legible(x);
    lemma_read_is_legible(y);
    lemma_same_properties(pieces_in(x), pieces_in(y));
}

/// The same texts are read of what cannot be told apart.
proof fn lemma_twin_texts(x: Seq<char>, y: Seq<char>, n: Seq<char>)
    requires
        twins(x, y),
        read_as_text(n),
    ensures
        required_in(x, n) == required_in(y, n),
        optional_in(x, n) == optional_in(y, n),
        text_in(x, n) == text_in(y, n),
{
    lemma_twin_elements(x, y, n);
}

/// The same party is read of what cannot be told apart.
proof fn lemma_twin_parties(x: Seq<char>, y: Seq<char>, side: Seq<char>)
    requires
        twins(x, y),
    ensures
        party_in(x, side) == party_in(y, side),
        party_type_in(x) == party_type_in(y),
{
    lemma_twin_elements(x, y, side);
    if element_in(x, side) is Some {
        lemma_twin_elements(element_in(x, side)->0, element_in(y, side)->0, "PartyId"@);
    }
    lemma_twin_elements(x, y, "From"@);
    if element_in(x, "From"@) is Some {
        lemma_twin_attributes(
            element_in(x, "From"@)->0,
            element_in(y, "From"@)->0,
            "PartyId"@,
            "type"@,
        );
    }
}

/// The same properties of an element are read of what cannot be told apart.
proof fn lemma_twin_listings(x: Seq<char>, y: Seq<char>, n: Seq<char>)
    requires
        twins(x, y),
    ensures
        listed_in(x, n) == listed_in(y, n),
{
    lemma_twin_elements(x, y, n);
    if element_in(x, n) is Some {
        lemma_twin_properties(element_in(x, n)->0, element_in(y, n)->0);
    }
}

/// Each field of a message is read alike.
#[verifier::opaque]
spec fn alike(x: Seq<char>, y: Seq<char>) -> bool {
    &&& href_in(x) == href_in(y)
    &&& required_in(x, "MessageId"@) == required_in(y, "MessageId"@)
    &&& text_in(x, "Timestamp"@) == text_in(y, "Timestamp"@)
    &&& party_in(x, "From"@) == party_in(y, "From"@)
    &&& party_in(x, "To"@) == party_in(y, "To"@)
    &&& required_in(x, "Service"@) == required_in(y, "Service"@)
    &&& required_in(x, "Action"@) == required_in(y, "Action"@)
    &&& text_in(x, "ConversationId"@) == text_in(y, "ConversationId"@)
    &&& party_type_in(x) == party_type_in(y)
    &&& attribute_in(x, "Service"@, "type"@) == attribute_in(y, "Service"@, "type"@)
    &&& optional_in(x, "AgreementRef"@) == optional_in(y, "AgreementRef"@)
    &&& listed_in(x, "MessageProperties"@) == listed_in(y, "MessageProperties"@)
    &&& listed_in(x, "PartInfo"@) == listed_in(y, "PartInfo"@)
}

#[verifier::rlimit(30)]
proof fn lemma_alike(x: Seq<char>, y: Seq<char>)
    requires
        alike(x, y),
    ensures
        described_in(x) == described_in(y),
{
    reveal(alike);
    assert(refusal_in(x) == refusal_in(y));
}

/// The same message is described by what cannot be told apart.
#[verifier::rlimit(30)]
proof fn lemma_twin_messages(x: Seq<char>, y: Seq<char>)
    requires
        twins(x, y),
    ensures
        described_in(x) == described_in(y),
{
    assert(alike(x, y)) by {
        reveal(alike);
        lemma_twin_attributes(x, y, "PartInfo"@, "href"@);
        lemma_twin_texts(x, y, "MessageId"@);
        lemma_twin_texts(x, y, "Timestamp"@);
        lemma_twin_parties(x, y, "From"@);
        lemma_twin_parties(x, y, "To"@);
        lemma_twin_texts(x, y, "Service"@);
        lemma_twin_texts(x, y, "Action"@);
        lemma_twin_texts(x, y, "ConversationId"@);
        lemma_twin_attributes(x, y, "Service"@, "type"@);
        lemma_twin_texts(x, y, "AgreementRef"@);
        lemma_twin_listings(x, y, "MessageProperties"@);
        lemma_twin_listings(x, y, "PartInfo"@);
    }
    lemma_alike(x, y);
}

/// The same signal is what cannot be told apart.
proof fn lemma_twin_signals(x: Seq<char>, y: Seq<char>)
    requires
        twins(x, y),
    ensures
        signalled_in(x) == signalled_in(y),
{
    lemma_twin_elements(x, y, "RefToMessageId"@);
    lemma_twin_elements(x, y, "Receipt"@);
    lemma_twin_elements(x, y, "MessageId"@);
    lemma_twin_attributes(x, y, "Error"@, "errorCode"@);
    lemma_twin_elements(x, y, "Description"@);
}

/// A partner's prefixes do not matter: two envelopes whose tags differ in
/// nothing but the prefixes of their names, each of them exchanged for any
/// other or for none, carry the same message, or are refused alike, and so
/// with the signal. What is read as a text must be the same in both, which
/// it is unless it holds tags itself.
pub proof fn a_prefix_does_not_matter(theirs: Seq<char>, ours: Seq<char>)
    requires
        respelled_run(pieces_in(theirs), pieces_in(ours)),
        same_texts(pieces_in(theirs), pieces_in(ours)),
    ensures
        carried_in(theirs) == carried_in(ours),
        signal_in(theirs) == signal_in(ours),
{
    lemma_akin(pieces_in(theirs), pieces_in(ours));
    assert(twins(theirs, ours)) by {
        reveal(twins);
    }
    lemma_twin_elements(theirs, ours, "UserMessage"@);
    if element_in(theirs, "UserMessage"@) is Some {
        lemma_twin_messages(
            element_in(theirs, "UserMessage"@)->0,
            element_in(ours, "UserMessage"@)->0,
        );
    }
    lemma_twin_elements(theirs, ours, "SignalMessage"@);
    if element_in(theirs, "SignalMessage"@) is Some {
        lemma_twin_signals(
            element_in(theirs, "SignalMessage"@)->0,
            element_in(ours, "SignalMessage"@)->0,
        );
    }
}

/// What is read of a document does not depend on its prefixes either: which
/// elements are there, their attributes and the properties are the same.
pub proof fn what_is_read_does_not_depend_on_a_prefix(
    theirs: Seq<char>,
    ours: Seq<char>,
    name: Seq<char>,
    key: Seq<char>,
)
    requires
        respelled_run(pieces_in(theirs), pieces_in(ours)),
        same_texts(pieces_in(theirs), pieces_in(ours)),
    ensures
        holds_element(theirs, name) == holds_element(ours, name),
        element_in(theirs, name) is Some <==> element_in(ours, name) is Some,
        read_as_text(name) ==> element_in(theirs, name) == element_in(ours, name),
        attribute_in(theirs, name, key) == attribute_in(ours, name, key),
        properties_in(theirs) == properties_in(ours),
{
    lemma_akin(pieces_in(theirs), pieces_in(ours));
    assert(twins(theirs, ours)) by {
        reveal(twins);
    }
    lemma_twin_elements(theirs, ours, name);
    lemma_twin_attributes(theirs, ours, name, key);
    lemma_twin_properties(theirs, ours);
}

/// Whatever is read as a text in `p` holds no tag.
pub open spec fn plain_texts(p: Seq<Piece>) -> bool {
    forall|i: int, n: Seq<char>|
        0 <= i < p.len() && read_as_text(n) && #[trigger] opens(p[i].tag, n) ==> (text_of(
            p.skip(i),
            n,
        ) matches Some(text) ==> no_tag(text))
}

/// A stretch of tags that is no text is none.
proof fn lemma_no_stretch(text: Seq<char>, inner: Seq<Piece>)
    requires
        no_tag(text + render(inner)),
    ensures
        inner.len() == 0,
{
    if inner.len() > 0 {
        assert(render(inner)[0] == '<');
        assert((text + render(inner))[text.len() as int] == '<');
    }
}

/// A text that holds no tag is the same whatever the prefixes.
pub proof fn plain_texts_stay_the_same(theirs: Seq<Piece>, ours: Seq<Piece>)
    requires
        respelled_run(theirs, ours),
        plain_texts(theirs),
    ensures
        same_texts(theirs, ours),
{
    lemma_akin(theirs, ours);
    assert forall|i: int, n: Seq<char>|
        0 <= i < theirs.len() && read_as_text(n) && #[trigger] opens(
            theirs[i].tag,
            n,
        ) implies text_of(theirs.skip(i), n) == text_of(ours.skip(i), n) by {
        let (x, y) = (theirs.skip(i), ours.skip(i));
        lemma_same_content(theirs, ours, i, n);
        assert(kin(theirs[i].tag, ours[i].tag) && theirs[i].text == ours[i].text) by {
            reveal(akin);
        }
        assert(x[0] == theirs[i] && y[0] == ours[i]);
        if content_of(x, n) is Some {
            let e = end_in(x.drop_first(), n, 0)->0;
            let inner = theirs.subrange(i + 1, i + 1 + e);
            lemma_no_stretch(theirs[i].text, inner);
            assert(inner =~= ours.subrange(i + 1, i + 1 + e));
        } else if n == "Property"@ && !is_empty_tag(theirs[i].tag) {
            let (c, d) = (x.drop_first(), y.drop_first());
            lemma_akin_part(theirs, ours, i + 1, theirs.len() as int);
            assert(c =~= theirs.subrange(i + 1, theirs.len() as int));
            assert(d =~= ours.subrange(i + 1, ours.len() as int));
            lemma_same_first_end(c, d);
            if let Some(e) = first_end(c) {
                lemma_no_stretch(theirs[i].text, c.take(e));
                assert(c.take(e) =~= d.take(e));
            }
        }
    }
}

/// A piece is closed under the other prefix `q` where it is under `p`.
proof fn lemma_closed_under(
    slash: Seq<char>,
    p: Seq<char>,
    q: Seq<char>,
    n: Seq<char>,
    rest: Seq<char>,
    text: Seq<char>,
)
    requires
        slash.len() == 0 || slash == seq!['/'],
        qualifies(p, n, rest, p + n + rest),
        qualifies(q, n, rest, q + n + rest),
        closed(Piece { tag: slash + (p + n) + rest, text }),
    ensures
        closed(Piece { tag: slash + (q + n) + rest, text }),
{
    let (a, b) = (slash + (p + n), slash + (q + n));
    lemma_qualifies(p, n, rest, p + n + rest);
    lemma_qualifies(q, n, rest, q + n + rest);
    assert(is_plain(a)) by {
        assert forall|i: int| 0 <= i < a.len() implies #[trigger] a[i] != '>' && a[i] != '<'
            && !is_quote(a[i]) by {
            if i >= slash.len() {
                assert(a[i] == (p + n)[i - slash.len()]);
            }
        }
    }
    assert(is_plain(b)) by {
        assert forall|i: int| 0 <= i < b.len() implies #[trigger] b[i] != '>' && b[i] != '<'
            && !is_quote(b[i]) by {
            if i >= slash.len() {
                assert(b[i] == (q + n)[i - slash.len()]);
            }
        }
    }
    if slash.len() == 0 {
        assert(a + rest =~= p + n + rest);
        assert(b + rest =~= q + n + rest);
    } else {
        assert((a + rest)[0] == '/');
        assert((b + rest)[0] == '/');
    }
    lemma_closed_stays(a, b, rest, text);
}

/// A closed piece is closed under another prefix.
proof fn lemma_same_name_closed(
    slash: Seq<char>,
    c: Seq<char>,
    d: Seq<char>,
    text: Seq<char>,
)
    requires
        slash.len() == 0 || slash == seq!['/'],
        same_name(c, d),
        closed(Piece { tag: slash + c, text }),
    ensures
        closed(Piece { tag: slash + d, text }),
{
    let (p, q, n, rest) = choose|p: Seq<char>, q: Seq<char>, n: Seq<char>, rest: Seq<char>|
        #[trigger] qualifies(p, n, rest, c) && #[trigger] qualifies(q, n, rest, d);
    assert(slash + c =~= slash + (p + n) + rest);
    assert(slash + d =~= slash + (q + n) + rest);
    lemma_closed_under(slash, p, q, n, rest, text);
}

/// A closed piece is closed with its prefix exchanged.
proof fn lemma_respelled_closed(a: Seq<char>, b: Seq<char>, text: Seq<char>)
    requires
        respelled(a, b),
        closed(Piece { tag: a, text }),
    ensures
        closed(Piece { tag: b, text }),
{
    let none = Seq::<char>::empty();
    if a != b {
        if same_name(a, b) {
            assert(none + a =~= a);
            assert(none + b =~= b);
            lemma_same_name_closed(none, a, b, text);
        } else {
            assert(seq!['/'] + a.skip(1) =~= a);
            assert(seq!['/'] + b.skip(1) =~= b);
            lemma_same_name_closed(seq!['/'], a.skip(1), b.skip(1), text);
        }
    }
}

proof fn lemma_respelled_legible(p: Seq<Piece>, q: Seq<Piece>)
    requires
        legible(p),
        respelled_run(p, q),
    ensures
        legible(q),
{
    reveal(crate::flat::legible);
    assert forall|i: int| 0 <= i < q.len() implies closed(#[trigger] q[i]) && no_tag(q[i].text) by {
        assert(respelled(p[i].tag, q[i].tag));
        assert(closed(p[i]));
        lemma_respelled_closed(p[i].tag, q[i].tag, p[i].text);
    }
}

/// A run of tags that can be read reads the same with its prefixes exchanged.
pub proof fn a_run_reads_the_same_under_any_prefix(theirs: Seq<Piece>, ours: Seq<Piece>)
    requires
        legible(theirs),
        respelled_run(theirs, ours),
        same_texts(theirs, ours),
    ensures
        carried_in(render(theirs)) == carried_in(render(ours)),
        signal_in(render(theirs)) == signal_in(render(ours)),
{
    let none = Seq::<char>::empty();
    lemma_respelled_legible(theirs, ours);
    lemma_pieces(none, theirs);
    lemma_pieces(none, ours);
    assert(none + render(theirs) =~= render(theirs));
    assert(none + render(ours) =~= render(ours));
    a_prefix_does_not_matter(render(theirs), render(ours));
}

} // verus!
