//! Runs of tags that are read as they are written, and what is read of them.

use vstd::prelude::*;

#[allow(unused_imports)]
use crate::error::Refusal;
#[allow(unused_imports)]
use crate::markup::{
    further, is_quote, lemma_span, lemma_span_is, markup_end, pieces_in, render, span, tag_end,
    unquoted_end, until, Piece,
};
#[allow(unused_imports)]
use crate::scan::{
    attribute_in, begins, closes, element_in, end_in, first_opening, holds_element, is_empty_tag,
    joined, opens, properties_in, read, value_in,
};
#[allow(unused_imports)]
use crate::text::{is_char, lemma_first_where, lemma_no_first_where, starts_with};

verus! {

/// No character of `s` begins a tag.
pub open spec fn no_tag(s: Seq<char>) -> bool {
    forall|i: int| 0 <= i < s.len() ==> #[trigger] s[i] != '<'
}

/// Every quote of `s` is closed in it, no `>` stands outside of quotes and no
/// `<` at all: to look for the end of a tag, `s` can be passed over.
#[verifier::opaque]
pub open spec fn even(s: Seq<char>) -> bool {
    forall|rest: Seq<char>| #[trigger]
        unquoted_end(s + rest, None) == further(s.len() as int, unquoted_end(rest, None))
}

/// A tag that ends at the `>` it is written with, whatever follows.
#[verifier::opaque]
pub open spec fn whole(tag: Seq<char>) -> bool {
    forall|rest: Seq<char>| #[trigger]
        markup_end(tag + (seq!['>'] + rest)) == Some(tag.len() as int)
}

/// Every tag of `pieces` is whole, and no text holds another.
#[verifier::opaque]
pub open spec fn flat(pieces: Seq<Piece>) -> bool {
    forall|i: int|
        0 <= i < pieces.len() ==> whole((#[trigger] pieces[i]).tag) && no_tag(pieces[i].text)
}

/// A piece whose tag ends at the `>` it is written with, whatever tags follow
/// its text.
#[verifier::opaque]
pub open spec fn closed(p: Piece) -> bool {
    forall|rest: Seq<char>|
        rest.len() == 0 || rest[0] == '<' ==> #[trigger] markup_end(
            p.tag + (seq!['>'] + (p.text + rest)),
        ) == Some(p.tag.len() as int)
}

/// Every one of `pieces` is closed, and no text holds another tag: what can
/// be read of a document.
#[verifier::opaque]
pub open spec fn legible(pieces: Seq<Piece>) -> bool {
    forall|i: int| 0 <= i < pieces.len() ==> closed(#[trigger] pieces[i]) && no_tag(pieces[i].text)
}

/// A piece that neither opens nor closes an element `name`.
pub open spec fn stranger(p: Piece, name: Seq<char>) -> bool {
    !opens(p.tag, name) && !closes(p.tag, name)
}

/// Every one of `pieces` is a stranger to `name`.
#[verifier::opaque]
pub open spec fn avoids(pieces: Seq<Piece>, name: Seq<char>) -> bool {
    forall|i: int| 0 <= i < pieces.len() ==> stranger(#[trigger] pieces[i], name)
}

/// What is even one after the other is even.
pub proof fn lemma_even_append(a: Seq<char>, b: Seq<char>)
    requires
        even(a),
        even(b),
    ensures
        even(a + b),
{
    reveal(even);
    assert forall|rest: Seq<char>| #[trigger]
        unquoted_end((a + b) + rest, None) == further(
            (a + b).len() as int,
            unquoted_end(rest, None),
        ) by {
        assert((a + b) + rest =~= a + (b + rest));
    }
}

/// `s` holds no quote and neither angle bracket.
pub open spec fn is_plain(s: Seq<char>) -> bool {
    forall|i: int|
        0 <= i < s.len() ==> #[trigger] s[i] != '>' && s[i] != '<' && !is_quote(s[i])
}

/// `s` can stand in double quotes.
pub open spec fn is_quotable(s: Seq<char>) -> bool {
    forall|i: int| 0 <= i < s.len() ==> #[trigger] s[i] != '"' && s[i] != '<'
}

/// What is plain is even.
pub proof fn lemma_even_plain(s: Seq<char>)
    requires
        is_plain(s),
    ensures
        even(s),
    decreases s.len(),
{
    reveal(even);
    if s.len() == 0 {
        assert forall|rest: Seq<char>| #[trigger]
            unquoted_end(s + rest, None) == further(s.len() as int, unquoted_end(rest, None)) by {
            assert(s + rest =~= rest);
        }
    } else {
        let tail = s.drop_first();
        assert(is_plain(tail)) by {
            assert forall|i: int| 0 <= i < tail.len() implies #[trigger] tail[i] != '>' && tail[i]
                != '<' && !is_quote(tail[i]) by {
                assert(tail[i] == s[i + 1]);
            }
        }
        lemma_even_plain(tail);
        assert forall|rest: Seq<char>| #[trigger]
            unquoted_end(s + rest, None) == further(s.len() as int, unquoted_end(rest, None)) by {
            assert((s + rest).drop_first() =~= tail + rest);
            assert((s + rest)[0] == s[0]);
            assert(unquoted_end(tail + rest, None) == further(
                tail.len() as int,
                unquoted_end(rest, None),
            ));
        }
    }
}

/// Inside of quotes nothing counts but the quote that closes them.
proof fn lemma_inside_quotes(v: Seq<char>, rest: Seq<char>)
    requires
        is_quotable(v),
    ensures
        unquoted_end(v + (seq!['"'] + rest), Some('"')) == further(
            v.len() + 1int,
            unquoted_end(rest, None),
        ),
    decreases v.len(),
{
    let s = v + (seq!['"'] + rest);
    if v.len() == 0 {
        assert(s[0] == '"');
        assert(s.drop_first() =~= rest);
    } else {
        let tail = v.drop_first();
        assert(is_quotable(tail)) by {
            assert forall|i: int| 0 <= i < tail.len() implies #[trigger] tail[i] != '"' && tail[i]
                != '<' by {
                assert(tail[i] == v[i + 1]);
            }
        }
        lemma_inside_quotes(tail, rest);
        assert(s[0] == v[0]);
        assert(s.drop_first() =~= tail + (seq!['"'] + rest));
    }
}

/// What stands in double quotes, and holds none, is even with them.
pub proof fn lemma_even_quoted(v: Seq<char>)
    requires
        is_quotable(v),
    ensures
        even(seq!['"'] + v + seq!['"']),
{
    reveal(even);
    let s = seq!['"'] + v + seq!['"'];
    assert forall|rest: Seq<char>| #[trigger]
        unquoted_end(s + rest, None) == further(s.len() as int, unquoted_end(rest, None)) by {
        lemma_inside_quotes(v, rest);
        assert((s + rest)[0] == '"');
        assert((s + rest).drop_first() =~= v + (seq!['"'] + rest));
    }
}

/// What begins as no comment, section or instruction ends as a tag.
pub proof fn lemma_tag_end(tag: Seq<char>, rest: Seq<char>)
    requires
        !begins(tag, '!'),
        !begins(tag, '?'),
    ensures
        markup_end(tag + (seq!['>'] + rest)) == tag_end(tag + (seq!['>'] + rest)),
{
    reveal_strlit("!--");
    reveal_strlit("![CDATA[");
    reveal_strlit("?");
    let s = tag + (seq!['>'] + rest);
    assert(s[0] == (if tag.len() > 0 {
        tag[0]
    } else {
        '>'
    }));
    if starts_with(s, "!--"@) {
        assert(s.subrange(0, 3)[0] == s[0]);
    }
    if starts_with(s, "![CDATA["@) {
        assert(s.subrange(0, 8)[0] == s[0]);
    }
    if starts_with(s, "?"@) {
        assert(s.subrange(0, 1)[0] == s[0]);
    }
}

/// A tag that is even is whole.
pub proof fn lemma_whole(tag: Seq<char>)
    requires
        even(tag),
        !begins(tag, '!'),
        !begins(tag, '?'),
    ensures
        whole(tag),
{
    reveal(even);
    reveal(whole);
    assert forall|rest: Seq<char>| #[trigger]
        markup_end(tag + (seq!['>'] + rest)) == Some(tag.len() as int) by {
        lemma_tag_end(tag, rest);
        assert((seq!['>'] + rest)[0] == '>');
        assert(unquoted_end(seq!['>'] + rest, None) == Some(0int));
    }
}

/// What is plain is passed over on the way to the end of a tag.
pub proof fn lemma_tag_end_shift(a: Seq<char>, rest: Seq<char>)
    requires
        is_plain(a),
    ensures
        tag_end(a + rest) == further(a.len() as int, tag_end(rest)),
{
    lemma_even_plain(a);
    reveal(even);
    assert(unquoted_end(a + rest, None) == further(a.len() as int, unquoted_end(rest, None)));
    let found = is_char('>');
    let n = a.len() as int;
    let at = span(rest, found);
    lemma_span(rest, found);
    assert forall|j: int| 0 <= j < n + at implies !found(#[trigger] (a + rest)[j]) by {
        if j < n {
            assert((a + rest)[j] == a[j]);
        } else {
            assert((a + rest)[j] == rest[j - n]);
        }
    }
    if at < rest.len() {
        assert((a + rest)[n + at] == rest[at]);
        lemma_first_where(a + rest, found, n + at);
        lemma_first_where(rest, found, at);
    } else {
        lemma_no_first_where(a + rest, found);
        lemma_no_first_where(rest, found);
    }
}

/// Another plain beginning leaves a closed piece closed.
pub proof fn lemma_closed_stays(a: Seq<char>, b: Seq<char>, tail: Seq<char>, text: Seq<char>)
    requires
        is_plain(a),
        is_plain(b),
        closed(Piece { tag: a + tail, text }),
        !begins(a + tail, '!'),
        !begins(a + tail, '?'),
        !begins(b + tail, '!'),
        !begins(b + tail, '?'),
    ensures
        closed(Piece { tag: b + tail, text }),
{
    reveal(closed);
    assert forall|rest: Seq<char>| rest.len() == 0 || rest[0] == '<' implies #[trigger] markup_end(
        (b + tail) + (seq!['>'] + (text + rest)),
    ) == Some((b + tail).len() as int) by {
        let after = tail + (seq!['>'] + (text + rest));
        lemma_tag_end(a + tail, text + rest);
        lemma_tag_end(b + tail, text + rest);
        assert((a + tail) + (seq!['>'] + (text + rest)) =~= a + after);
        assert((b + tail) + (seq!['>'] + (text + rest)) =~= b + after);
        lemma_tag_end_shift(a, after);
        lemma_tag_end_shift(b, after);
        assert(markup_end((a + tail) + (seq!['>'] + (text + rest))) == Some(
            (a + tail).len() as int,
        ));
    }
}

/// What is written flat can be read.
pub proof fn lemma_flat_legible(pieces: Seq<Piece>)
    requires
        flat(pieces),
    ensures
        legible(pieces),
{
    reveal(flat);
    reveal(legible);
    reveal(closed);
    reveal(whole);
    assert forall|i: int| 0 <= i < pieces.len() implies closed(#[trigger] pieces[i]) && no_tag(
        pieces[i].text,
    ) by {
        assert(whole(pieces[i].tag));
    }
}

pub proof fn lemma_render_append(a: Seq<Piece>, b: Seq<Piece>)
    ensures
        render(a + b) == render(a) + render(b),
    decreases a.len(),
{
    if a.len() == 0 {
        assert(a + b =~= b);
        assert(render(a) + render(b) =~= render(b));
    } else {
        assert((a + b).drop_first() =~= a.drop_first() + b);
        assert((a + b)[0] == a[0]);
        lemma_render_append(a.drop_first(), b);
        assert(render(a + b) =~= render(a) + render(b));
    }
}

/// A legible run is read as it stands, whatever text stands before it.
pub proof fn lemma_pieces(lead: Seq<char>, pieces: Seq<Piece>)
    requires
        no_tag(lead),
        legible(pieces),
    ensures
        pieces_in(lead + render(pieces)) == pieces,
    decreases pieces.len(),
{
    reveal(legible);
    let xml = lead + render(pieces);
    let found = is_char('<');
    if pieces.len() == 0 {
        assert(xml =~= lead);
        lemma_no_first_where(xml, found);
        assert(pieces_in(xml) =~= pieces);
    } else {
        let p = pieces[0];
        let more = pieces.drop_first();
        let start = lead.len() as int;
        assert(xml[start] == '<');
        lemma_first_where(xml, found, start);
        let rest = p.text + render(more);
        let tag = xml.skip(start + 1);
        assert(tag =~= p.tag + (seq!['>'] + rest));
        assert(closed(p));
        assert(markup_end(tag) == Some(p.tag.len() as int)) by {
            reveal(closed);
            if more.len() > 0 {
                assert(render(more)[0] == '<');
            }
        }
        assert(tag.take(p.tag.len() as int) =~= p.tag);
        assert(tag.skip(p.tag.len() + 1int) =~= rest);
        assert(no_tag(p.text));
        assert forall|j: int| 0 <= j < p.text.len() implies !found(#[trigger] rest[j]) by {
            assert(rest[j] == p.text[j]);
        }
        if more.len() > 0 {
            assert(rest[p.text.len() as int] == '<');
        }
        lemma_span_is(rest, found, p.text.len() as int);
        assert(until(rest, found) =~= p.text);
        assert forall|i: int| 0 <= i < more.len() implies closed(#[trigger] more[i]) && no_tag(
            more[i].text,
        ) by {
            assert(more[i] == pieces[i + 1]);
        }
        lemma_pieces(p.text, more);
        assert(pieces_in(xml) == seq![Piece { tag: p.tag, text: p.text }] + pieces_in(rest));
        assert(seq![p] + more =~= pieces);
    }
}

/// A flat run is read as it was written.
pub proof fn lemma_read_pieces(pieces: Seq<Piece>)
    requires
        flat(pieces),
    ensures
        pieces_in(render(pieces)) == pieces,
{
    lemma_flat_legible(pieces);
    lemma_pieces(Seq::empty(), pieces);
    assert(Seq::<char>::empty() + render(pieces) =~= render(pieces));
}

/// Tags that do not open an element are passed over on the way to it.
pub proof fn lemma_first_opening(before: Seq<Piece>, rest: Seq<Piece>, name: Seq<char>)
    requires
        forall|i: int| 0 <= i < before.len() ==> !opens((#[trigger] before[i]).tag, name),
    ensures
        first_opening(before + rest, name) == further(
            before.len() as int,
            first_opening(rest, name),
        ),
    decreases before.len(),
{
    if before.len() == 0 {
        assert(before + rest =~= rest);
    } else {
        let tail = before.drop_first();
        assert((before + rest)[0] == before[0]);
        assert((before + rest).drop_first() =~= tail + rest);
        assert forall|i: int| 0 <= i < tail.len() implies !opens((#[trigger] tail[i]).tag, name) by {
            assert(tail[i] == before[i + 1]);
        }
        lemma_first_opening(tail, rest, name);
    }
}

/// Strangers are passed over on the way to an end.
pub proof fn lemma_end_in(inner: Seq<Piece>, rest: Seq<Piece>, name: Seq<char>, depth: nat)
    requires
        avoids(inner, name),
    ensures
        end_in(inner + rest, name, depth) == further(
            inner.len() as int,
            end_in(rest, name, depth),
        ),
    decreases inner.len(),
{
    reveal(avoids);
    if inner.len() == 0 {
        assert(inner + rest =~= rest);
    } else {
        let tail = inner.drop_first();
        assert((inner + rest)[0] == inner[0]);
        assert(stranger(inner[0], name));
        assert((inner + rest).drop_first() =~= tail + rest);
        assert forall|i: int| 0 <= i < tail.len() implies stranger(#[trigger] tail[i], name) by {
            assert(tail[i] == inner[i + 1]);
        }
        lemma_end_in(tail, rest, name, depth);
    }
}

/// The first element `name` of a run is found, and what is found of it is all
/// that stands between its two tags.
pub proof fn lemma_element_found(
    before: Seq<Piece>,
    p: Piece,
    inner: Seq<Piece>,
    q: Piece,
    after: Seq<Piece>,
    name: Seq<char>,
)
    requires
        flat(before + (seq![p] + inner + seq![q] + after)),
        forall|i: int| 0 <= i < before.len() ==> !opens((#[trigger] before[i]).tag, name),
        opens(p.tag, name),
        !is_empty_tag(p.tag),
        avoids(inner, name),
        closes(q.tag, name),
    ensures
        element_in(render(before + (seq![p] + inner + seq![q] + after)), name) == Some(
            p.text + render(inner),
        ),
        holds_element(render(before + (seq![p] + inner + seq![q] + after)), name),
{
    let rest = seq![p] + inner + seq![q] + after;
    let all = before + rest;
    lemma_read_pieces(all);
    lemma_first_opening(before, rest, name);
    assert(rest[0] == p);
    assert(first_opening(rest, name) == Some(0int));
    let n = before.len() as int;
    assert(all.skip(n) =~= rest);
    assert(all[n] == p);
    let ending = seq![q] + after;
    assert(rest.drop_first() =~= inner + ending);
    lemma_end_in(inner, ending, name, 0);
    assert(ending[0] == q);
    assert((inner + ending).take(inner.len() as int) =~= inner);
}

/// An element is not found where no tag opens it.
pub proof fn lemma_element_absent(pieces: Seq<Piece>, name: Seq<char>)
    requires
        flat(pieces),
        avoids(pieces, name),
    ensures
        element_in(render(pieces), name) is None,
        !holds_element(render(pieces), name),
{
    reveal(avoids);
    let nothing = Seq::<Piece>::empty();
    lemma_read_pieces(pieces);
    assert forall|i: int| 0 <= i < pieces.len() implies !opens((#[trigger] pieces[i]).tag, name) by {
        assert(stranger(pieces[i], name));
    }
    lemma_first_opening(pieces, nothing, name);
    assert(pieces + nothing =~= pieces);
}

/// An attribute is read off the first tag that opens the element it is looked
/// for on.
pub proof fn lemma_attribute_found(
    before: Seq<Piece>,
    p: Piece,
    after: Seq<Piece>,
    name: Seq<char>,
    key: Seq<char>,
)
    requires
        flat(before + (seq![p] + after)),
        forall|i: int| 0 <= i < before.len() ==> !opens((#[trigger] before[i]).tag, name),
        opens(p.tag, name),
    ensures
        attribute_in(render(before + (seq![p] + after)), name, key) == value_in(p.tag, key),
{
    let rest = seq![p] + after;
    lemma_read_pieces(before + rest);
    lemma_first_opening(before, rest, name);
    assert(rest[0] == p);
    assert(first_opening(rest, name) == Some(0int));
    assert((before + rest)[before.len() as int] == p);
}

/// The rest of a flat run is flat.
pub proof fn lemma_flat_rest(pieces: Seq<Piece>)
    requires
        pieces.len() > 0,
        flat(pieces),
    ensures
        flat(pieces.drop_first()),
{
    reveal(flat);
    let more = pieces.drop_first();
    assert forall|i: int| 0 <= i < more.len() implies whole((#[trigger] more[i]).tag) && no_tag(
        more[i].text,
    ) by {
        assert(more[i] == pieces[i + 1]);
    }
}

/// A piece that opens no `Property` is passed over.
pub proof fn lemma_properties_skip(pieces: Seq<Piece>)
    requires
        pieces.len() > 0,
        flat(pieces),
        !opens(pieces[0].tag, "Property"@),
    ensures
        properties_in(render(pieces)) == properties_in(render(pieces.drop_first())),
{
    lemma_flat_rest(pieces);
    lemma_read_pieces(pieces);
    lemma_read_pieces(pieces.drop_first());
}

/// A `Property` with a name and a text, and the tag that closes it.
pub proof fn lemma_properties_hit(pieces: Seq<Piece>, name: Seq<char>, value: Seq<char>)
    requires
        pieces.len() > 1,
        flat(pieces),
        opens(pieces[0].tag, "Property"@),
        !is_empty_tag(pieces[0].tag),
        value_in(pieces[0].tag, "name"@) == Ok::<Option<Seq<char>>, Refusal>(Some(name)),
        read(pieces[0].text) == Ok::<Seq<char>, Refusal>(value),
        closes(pieces[1].tag, "Property"@),
    ensures
        properties_in(render(pieces)) == joined(
            seq![(name, value)],
            properties_in(render(pieces.drop_first())),
        ),
{
    lemma_flat_rest(pieces);
    lemma_read_pieces(pieces);
    lemma_read_pieces(pieces.drop_first());
    let more = pieces.drop_first();
    assert(more[0] == pieces[1]);
    assert(end_in(more, "Property"@, 0) == Some(0int));
    assert(more.take(0) =~= Seq::<Piece>::empty());
    assert(pieces[0].text + render(more.take(0)) =~= pieces[0].text);
}

} // verus!
