//! How markup is read, told letter for letter: where a tag ends, which
//! element it opens whatever its prefix and whatever white space is in it,
//! what the content of an element is, and what stands in an attribute.

use vstd::prelude::*;

#[allow(unused_imports)]
use crate::document::{lemma_begins, lemma_local};
#[allow(unused_imports)]
use crate::envelope::party_in;
#[allow(unused_imports)]
use crate::error::Refusal;
#[allow(unused_imports)]
use crate::flat::{
    even, flat, is_plain, lemma_even_append, lemma_even_plain, lemma_first_opening,
    lemma_flat_legible, lemma_pieces, lemma_whole, no_tag, whole,
};
#[allow(unused_imports)]
use crate::markup::{
    attributes_in, ends_key, first_named, from, further, is_white, lemma_span, lemma_span_is,
    markup_end, pieces_in, render, solid, span, step, unquoted_end, until, white, Piece, Step,
};
#[allow(unused_imports)]
use crate::scan::{
    attribute_in, begins, closes, element_in, end_in, ends_open_name, first_end, holds_element,
    is_empty_tag, opens, properties_among, properties_in, read,
};
#[allow(unused_imports)]
use crate::text::{
    find_char, find_word, is_char, lemma_find_word, lemma_first_where, lemma_first_where_found,
    lemma_no_first_where, lemma_rfind_word, occurs_at, starts_with,
};
#[allow(unused_imports)]
use crate::xml::{is_mark, is_prefix, unescaped, unmarked};

verus! {

/// `s` is a name: something without white space or a mark that markup is made
/// with.
pub open spec fn is_name(s: Seq<char>) -> bool {
    s.len() > 0 && forall|i: int|
        0 <= i < s.len() ==> #[trigger] s[i] != ' ' && s[i] != '\t' && s[i] != '\r' && s[i] != '\n'
            && s[i] != '/' && s[i] != ':' && s[i] != '<' && s[i] != '>' && s[i] != '"' && s[i]
            != '\'' && s[i] != '=' && s[i] != '!' && s[i] != '?'
}

/// `prefix` is what stands before a local name: nothing, or a name and a
/// colon.
pub open spec fn is_namespace(prefix: Seq<char>) -> bool {
    prefix.len() == 0 || prefix.last() == ':' && is_name(prefix.drop_last())
}

/// `s` is white space, or nothing.
pub open spec fn is_gap(s: Seq<char>) -> bool {
    forall|i: int|
        0 <= i < s.len() ==> #[trigger] s[i] == ' ' || s[i] == '\t' || s[i] == '\r' || s[i] == '\n'
}

/// `s` holds no angle bracket and no quote.
pub open spec fn is_bare(s: Seq<char>) -> bool {
    forall|i: int|
        0 <= i < s.len() ==> #[trigger] s[i] != '<' && s[i] != '>' && s[i] != '"' && s[i] != '\''
}

/// No tag begins in `s`.
pub open spec fn is_text(s: Seq<char>) -> bool {
    forall|i: int| 0 <= i < s.len() ==> #[trigger] s[i] != '<'
}

/// What follows a text: nothing, or a tag.
pub open spec fn is_next(more: Seq<char>) -> bool {
    more.len() == 0 || more[0] == '<'
}

/// What may follow a name in a tag: nothing, white space or a slash and more.
pub open spec fn is_tail(tail: Seq<char>) -> bool {
    tail.len() == 0 || tail[0] == ' ' || tail[0] == '\t' || tail[0] == '\r' || tail[0] == '\n'
        || tail[0] == '/'
}

proof fn lemma_names(prefix: Seq<char>, n: Seq<char>)
    requires
        is_namespace(prefix),
        is_name(n),
    ensures
        is_prefix(prefix),
        unmarked(n),
{
    assert forall|i: int| 0 <= i < n.len() implies !is_mark(#[trigger] n[i]) by {}
    if prefix.len() > 0 {
        let p = prefix.drop_last();
        assert forall|i: int| 0 <= i < p.len() implies !is_mark(#[trigger] p[i]) by {}
    }
}

/// A tag opens the element of its local name, whatever its prefix and
/// whatever follows the name, and opens no other; one that begins with a
/// slash closes it, and closes no other.
pub proof fn a_tag_is_of_the_element_of_its_local_name(
    prefix: Seq<char>,
    n: Seq<char>,
    tail: Seq<char>,
    other: Seq<char>,
)
    requires
        is_namespace(prefix),
        is_name(n),
        is_tail(tail),
    ensures
        opens(prefix + n + tail, n),
        opens(prefix + n + tail, other) ==> other == n,
        !closes(prefix + n + tail, other),
        closes(seq!['/'] + (prefix + n + tail), n),
        closes(seq!['/'] + (prefix + n + tail), other) ==> other == n,
        !opens(seq!['/'] + (prefix + n + tail), other),
{
    lemma_names(prefix, n);
    lemma_local(prefix, n, tail);
    lemma_begins(prefix, n, tail, '/');
    lemma_begins(prefix, n, tail, '!');
    lemma_begins(prefix, n, tail, '?');
    let tag = prefix + n + tail;
    let end = seq!['/'] + tag;
    assert(end.skip(1) =~= tag);
}

/// A comment, a section or an instruction opens and closes nothing, whatever
/// it holds.
pub proof fn what_is_no_tag_opens_and_closes_nothing(tag: Seq<char>, name: Seq<char>)
    requires
        tag.len() > 0,
        tag[0] == '!' || tag[0] == '?',
    ensures
        !opens(tag, name),
        !closes(tag, name),
{
}

/// What stands before the first tag is passed over.
proof fn lemma_lead(lead: Seq<char>, more: Seq<char>)
    requires
        is_text(lead),
    ensures
        pieces_in(lead + more) == pieces_in(more),
{
    let xml = lead + more;
    let found = is_char('<');
    let n = lead.len() as int;
    let at = span(more, found);
    lemma_span(more, found);
    assert forall|j: int| 0 <= j < n + at implies !found(#[trigger] xml[j]) by {
        if j < n {
            assert(xml[j] == lead[j]);
        } else {
            assert(xml[j] == more[j - n]);
        }
    }
    if at < more.len() {
        assert(xml[n + at] == more[at]);
        lemma_first_where(xml, found, n + at);
        lemma_first_where(more, found, at);
        assert(xml.skip(n + at + 1) =~= more.skip(at + 1));
    } else {
        lemma_no_first_where(xml, found);
        lemma_no_first_where(more, found);
    }
}

/// One piece is read, and then the rest.
proof fn lemma_piece(lead: Seq<char>, tag: Seq<char>, text: Seq<char>, more: Seq<char>)
    requires
        is_text(lead),
        is_text(text),
        is_next(more),
        whole(tag),
    ensures
        pieces_in(lead + (seq!['<'] + tag + seq!['>'] + text + more)) == seq![Piece { tag, text }]
            + pieces_in(more),
{
    let xml = lead + (seq!['<'] + tag + seq!['>'] + text + more);
    let found = is_char('<');
    let start = lead.len() as int;
    assert(xml[start] == '<');
    assert forall|j: int| 0 <= j < start implies !found(#[trigger] xml[j]) by {
        assert(xml[j] == lead[j]);
    }
    lemma_first_where(xml, found, start);
    let opened = xml.skip(start + 1);
    let rest = text + more;
    assert(opened =~= tag + (seq!['>'] + rest));
    assert(markup_end(opened) == Some(tag.len() as int)) by {
        reveal(crate::flat::whole);
    }
    let end = tag.len() as int;
    assert(opened.take(end) =~= tag);
    assert(opened.skip(end + 1) =~= rest);
    assert forall|j: int| 0 <= j < text.len() implies !found(#[trigger] rest[j]) by {
        assert(rest[j] == text[j]);
    }
    if more.len() > 0 {
        assert(rest[text.len() as int] == '<');
    }
    lemma_span_is(rest, found, text.len() as int);
    assert(until(rest, found) =~= text);
    lemma_lead(text, more);
}

/// A tag ends at its bracket, the text after it is all up to the next tag,
/// and what stands before the first tag of a text is no tag.
pub proof fn a_tag_ends_at_its_bracket(
    lead: Seq<char>,
    tag: Seq<char>,
    text: Seq<char>,
    more: Seq<char>,
)
    requires
        is_text(lead),
        is_bare(tag),
        tag.len() > 0 ==> tag[0] != '!' && tag[0] != '?',
        is_text(text),
        is_next(more),
    ensures
        pieces_in(lead + (seq!['<'] + tag + seq!['>'] + text + more)) == seq![Piece { tag, text }]
            + pieces_in(more),
        pieces_in(lead).len() == 0,
{
    assert(is_plain(tag));
    lemma_even_plain(tag);
    lemma_whole(tag);
    lemma_piece(lead, tag, text, more);
    lemma_no_first_where(lead, is_char('<'));
}

/// Inside of quotes nothing counts but the quote that closes them.
proof fn lemma_inside(v: Seq<char>, quote: char, rest: Seq<char>)
    requires
        quote != '<',
        forall|i: int| 0 <= i < v.len() ==> #[trigger] v[i] != quote && v[i] != '<',
    ensures
        unquoted_end(v + (seq![quote] + rest), Some(quote)) == further(
            v.len() + 1int,
            unquoted_end(rest, None),
        ),
    decreases v.len(),
{
    let s = v + (seq![quote] + rest);
    if v.len() == 0 {
        assert(s.drop_first() =~= rest);
    } else {
        let tail = v.drop_first();
        assert(s[0] == v[0]);
        assert(s.drop_first() =~= tail + (seq![quote] + rest));
        assert forall|i: int| 0 <= i < tail.len() implies #[trigger] tail[i] != quote && tail[i]
            != '<' by {
            assert(tail[i] == v[i + 1]);
        }
        lemma_inside(tail, quote, rest);
    }
}

/// What stands in either quotes is even with them.
proof fn lemma_even_in(v: Seq<char>, quote: char)
    requires
        quote == '"' || quote == '\'',
        forall|i: int| 0 <= i < v.len() ==> #[trigger] v[i] != quote && v[i] != '<',
    ensures
        even(seq![quote] + v + seq![quote]),
{
    reveal(crate::flat::even);
    let s = seq![quote] + v + seq![quote];
    assert forall|rest: Seq<char>| #[trigger]
        unquoted_end(s + rest, None) == further(s.len() as int, unquoted_end(rest, None)) by {
        let t = s + rest;
        assert(t[0] == quote);
        assert(t.drop_first() =~= v + (seq![quote] + rest));
        lemma_inside(v, quote, rest);
    }
}

/// A bracket in quotes ends no tag, in double ones or in single ones.
pub proof fn a_bracket_in_quotes_ends_no_tag(
    lead: Seq<char>,
    head: Seq<char>,
    quote: char,
    value: Seq<char>,
    tail: Seq<char>,
    text: Seq<char>,
    more: Seq<char>,
)
    requires
        is_text(lead),
        is_bare(head),
        head.len() > 0 && head[0] != '!' && head[0] != '?',
        quote == '"' || quote == '\'',
        forall|i: int| 0 <= i < value.len() ==> #[trigger] value[i] != quote && value[i] != '<',
        is_bare(tail),
        is_text(text),
        is_next(more),
    ensures
        ({
            let tag = head + (seq![quote] + value + seq![quote]) + tail;
            pieces_in(lead + (seq!['<'] + tag + seq!['>'] + text + more)) == seq![
                Piece { tag, text },
            ] + pieces_in(more)
        }),
{
    let quoted = seq![quote] + value + seq![quote];
    let tag = head + quoted + tail;
    assert(is_plain(head) && is_plain(tail));
    lemma_even_plain(head);
    lemma_even_plain(tail);
    lemma_even_in(value, quote);
    lemma_even_append(head, quoted);
    lemma_even_append(head + quoted, tail);
    assert(tag[0] == head[0]);
    lemma_whole(tag);
    lemma_piece(lead, tag, text, more);
}

/// A word is found where it stands first.
proof fn lemma_first_word(c: Seq<char>, word: Seq<char>, rest: Seq<char>)
    requires
        word.len() > 0,
        forall|j: int| 0 <= j < c.len() ==> !#[trigger] occurs_at(c + word, word, j),
    ensures
        find_word(c + word + rest, word) == Some(c.len() as int),
{
    let s = c + word + rest;
    let n = c.len() as int;
    assert(s.subrange(n, n + word.len()) =~= word);
    assert forall|j: int| 0 <= j < n implies !#[trigger] occurs_at(s, word, j) by {
        if occurs_at(s, word, j) {
            assert((c + word).subrange(j, j + word.len()) =~= s.subrange(j, j + word.len()));
            assert(occurs_at(c + word, word, j));
        }
    }
    lemma_find_word(s, word, n);
}

/// A comment ends at its `-->` and no earlier, whatever it holds: tags in it
/// are none.
pub proof fn a_comment_is_passed_over(
    lead: Seq<char>,
    c: Seq<char>,
    text: Seq<char>,
    more: Seq<char>,
)
    requires
        is_text(lead),
        forall|j: int| 0 <= j < c.len() ==> !#[trigger] occurs_at(c + "-->"@, "-->"@, j),
        is_text(text),
        is_next(more),
    ensures
        pieces_in(lead + (seq!['<'] + ("!--"@ + c + "--"@) + seq!['>'] + text + more)) == seq![
            Piece { tag: "!--"@ + c + "--"@, text },
        ] + pieces_in(more),
{
    reveal_strlit("!--");
    reveal_strlit("-->");
    reveal_strlit("--");
    let tag = "!--"@ + c + "--"@;
    assert(whole(tag)) by {
        reveal(crate::flat::whole);
        assert forall|rest: Seq<char>| #[trigger]
            markup_end(tag + (seq!['>'] + rest)) == Some(tag.len() as int) by {
            let s = tag + (seq!['>'] + rest);
            assert(s.subrange(0, 3) =~= "!--"@);
            assert(s.skip(3) =~= c + "-->"@ + rest);
            lemma_first_word(c, "-->"@, rest);
        }
    }
    lemma_piece(lead, tag, text, more);
}

/// A CDATA section ends at its `]]>` and no earlier, whatever it holds.
pub proof fn a_section_is_passed_over(
    lead: Seq<char>,
    c: Seq<char>,
    text: Seq<char>,
    more: Seq<char>,
)
    requires
        is_text(lead),
        forall|j: int| 0 <= j < c.len() ==> !#[trigger] occurs_at(c + "]]>"@, "]]>"@, j),
        is_text(text),
        is_next(more),
    ensures
        pieces_in(lead + (seq!['<'] + ("![CDATA["@ + c + "]]"@) + seq!['>'] + text + more))
            == seq![Piece { tag: "![CDATA["@ + c + "]]"@, text }] + pieces_in(more),
{
    reveal_strlit("!--");
    reveal_strlit("![CDATA[");
    reveal_strlit("]]>");
    reveal_strlit("]]");
    let tag = "![CDATA["@ + c + "]]"@;
    assert(whole(tag)) by {
        reveal(crate::flat::whole);
        assert forall|rest: Seq<char>| #[trigger]
            markup_end(tag + (seq!['>'] + rest)) == Some(tag.len() as int) by {
            let s = tag + (seq!['>'] + rest);
            if starts_with(s, "!--"@) {
                assert(s.subrange(0, 3)[1] == s[1]);
            }
            assert(s.subrange(0, 8) =~= "![CDATA["@);
            assert(s.skip(8) =~= c + "]]>"@ + rest);
            lemma_first_word(c, "]]>"@, rest);
        }
    }
    lemma_piece(lead, tag, text, more);
}

/// An instruction ends at its `?>` and no earlier, whatever it holds.
pub proof fn an_instruction_is_passed_over(
    lead: Seq<char>,
    c: Seq<char>,
    text: Seq<char>,
    more: Seq<char>,
)
    requires
        is_text(lead),
        forall|j: int| 0 <= j < c.len() ==> !#[trigger] occurs_at(c + "?>"@, "?>"@, j),
        is_text(text),
        is_next(more),
    ensures
        pieces_in(lead + (seq!['<'] + ("?"@ + c + "?"@) + seq!['>'] + text + more)) == seq![
            Piece { tag: "?"@ + c + "?"@, text },
        ] + pieces_in(more),
{
    reveal_strlit("!--");
    reveal_strlit("![CDATA[");
    reveal_strlit("?");
    reveal_strlit("?>");
    let tag = "?"@ + c + "?"@;
    assert(whole(tag)) by {
        reveal(crate::flat::whole);
        assert forall|rest: Seq<char>| #[trigger]
            markup_end(tag + (seq!['>'] + rest)) == Some(tag.len() as int) by {
            let s = tag + (seq!['>'] + rest);
            if starts_with(s, "!--"@) {
                assert(s.subrange(0, 3)[0] == s[0]);
            }
            if starts_with(s, "![CDATA["@) {
                assert(s.subrange(0, 8)[0] == s[0]);
            }
            assert(s.subrange(0, 1) =~= "?"@);
            assert(s.skip(1) =~= c + "?>"@ + rest);
            lemma_first_word(c, "?>"@, rest);
        }
    }
    lemma_piece(lead, tag, text, more);
}

/// What neither closes an element nor opens one that must be closed is passed
/// over on the way to an end.
proof fn lemma_passed(inner: Seq<Piece>, rest: Seq<Piece>, name: Seq<char>, depth: nat)
    requires
        forall|i: int|
            0 <= i < inner.len() ==> !closes((#[trigger] inner[i]).tag, name) && (opens(
                inner[i].tag,
                name,
            ) ==> is_empty_tag(inner[i].tag)),
    ensures
        end_in(inner + rest, name, depth) == further(
            inner.len() as int,
            end_in(rest, name, depth),
        ),
    decreases inner.len(),
{
    if inner.len() == 0 {
        assert(inner + rest =~= rest);
    } else {
        let tail = inner.drop_first();
        assert((inner + rest).drop_first() =~= tail + rest);
        assert((inner + rest)[0] == inner[0]);
        assert forall|i: int| 0 <= i < tail.len() implies !closes((#[trigger] tail[i]).tag, name)
            && (opens(tail[i].tag, name) ==> is_empty_tag(tail[i].tag)) by {
            assert(tail[i] == inner[i + 1]);
        }
        lemma_passed(tail, rest, name, depth);
    }
}

/// `pieces` hold no tag that closes an element `name`, nor one that opens one
/// that must be closed.
pub open spec fn passes(pieces: Seq<Piece>, name: Seq<char>) -> bool {
    forall|i: int|
        0 <= i < pieces.len() ==> !closes((#[trigger] pieces[i]).tag, name) && (opens(
            pieces[i].tag,
            name,
        ) ==> pieces[i].tag.len() > 0 && pieces[i].tag.last() == '/')
}

/// No tag of `pieces` opens an element `name`.
pub open spec fn opens_none(pieces: Seq<Piece>, name: Seq<char>) -> bool {
    forall|i: int| 0 <= i < pieces.len() ==> !opens((#[trigger] pieces[i]).tag, name)
}

/// The content of the first element of a name is all that stands between its
/// tags, as it stands. What stands before it and after it does not matter,
/// nor what else is in it: an empty element of its own name neither.
pub proof fn an_element_is_all_between_its_tags(
    xml: Seq<char>,
    before: Seq<Piece>,
    p: Piece,
    inner: Seq<Piece>,
    q: Piece,
    after: Seq<Piece>,
    name: Seq<char>,
)
    requires
        pieces_in(xml) == before + (seq![p] + inner + seq![q] + after),
        opens_none(before, name),
        opens(p.tag, name),
        !(p.tag.len() > 0 && p.tag.last() == '/'),
        passes(inner, name),
        closes(q.tag, name),
    ensures
        element_in(xml, name) == Some(p.text + render(inner)),
        holds_element(xml, name),
{
    let rest = seq![p] + inner + seq![q] + after;
    let all = before + rest;
    lemma_first_opening(before, rest, name);
    assert(rest[0] == p);
    let n = before.len() as int;
    assert(all.skip(n) =~= rest);
    assert(all[n] == p);
    let ending = seq![q] + after;
    assert(rest.drop_first() =~= inner + ending);
    assert(ending[0] == q);
    lemma_passed(inner, ending, name, 0);
    assert(rest.drop_first().take(inner.len() as int) =~= inner);
}

/// An element that stands in another of its name belongs to that one's
/// content: the outer one ends at its own tag.
pub proof fn an_element_in_one_of_its_name_ends_first(
    xml: Seq<char>,
    before: Seq<Piece>,
    p: Piece,
    a: Seq<Piece>,
    inner_open: Piece,
    b: Seq<Piece>,
    inner_close: Piece,
    c: Seq<Piece>,
    q: Piece,
    after: Seq<Piece>,
    name: Seq<char>,
)
    requires
        pieces_in(xml) == before + (seq![p] + (a + (seq![inner_open] + (b + (seq![inner_close] + (c
            + (seq![q] + after))))))),
        opens_none(before, name),
        opens(p.tag, name) && opens(inner_open.tag, name),
        !(p.tag.len() > 0 && p.tag.last() == '/'),
        !(inner_open.tag.len() > 0 && inner_open.tag.last() == '/'),
        passes(a, name) && passes(b, name) && passes(c, name),
        closes(inner_close.tag, name) && closes(q.tag, name),
    ensures
        element_in(xml, name) == Some(
            p.text + render(a + (seq![inner_open] + (b + (seq![inner_close] + c)))),
        ),
{
    let s5 = seq![q] + after;
    let s4 = seq![inner_close] + (c + s5);
    let s3 = seq![inner_open] + (b + s4);
    let rest = seq![p] + (a + s3);
    let all = before + rest;
    let inner = a + (seq![inner_open] + (b + (seq![inner_close] + c)));
    lemma_first_opening(before, rest, name);
    assert(rest[0] == p);
    let n = before.len() as int;
    assert(all.skip(n) =~= rest);
    assert(rest.drop_first() =~= a + s3);
    lemma_passed(a, s3, name, 0);
    assert(s3[0] == inner_open && s3.drop_first() =~= b + s4);
    assert(!closes(inner_open.tag, name));
    lemma_passed(b, s4, name, 1);
    assert(s4[0] == inner_close && s4.drop_first() =~= c + s5);
    lemma_passed(c, s5, name, 0);
    assert(s5[0] == q);
    assert(end_in(s5, name, 0) == Some(0int));
    assert(end_in(s4, name, 1) == Some(c.len() + 1int));
    assert(end_in(s3, name, 0) == Some(b.len() + c.len() + 2int));
    assert(inner.len() == a.len() + b.len() + c.len() + 2);
    assert(end_in(rest.drop_first(), name, 0) == Some(inner.len() as int));
    assert(rest.drop_first().take(inner.len() as int) =~= inner);
}

/// An empty element is there and has no content; what is not opened is not
/// there; and what is opened and never closed is not there either.
pub proof fn an_element_is_there_where_it_is_opened_and_closed(
    xml: Seq<char>,
    before: Seq<Piece>,
    p: Piece,
    after: Seq<Piece>,
    name: Seq<char>,
)
    requires
        opens_none(before, name),
    ensures
        pieces_in(xml) == before ==> element_in(xml, name) is None && !holds_element(xml, name),
        pieces_in(xml) == before + (seq![p] + after) && opens(p.tag, name) && p.tag.len() > 0
            && p.tag.last() == '/' ==> element_in(xml, name) is None && holds_element(xml, name),
        pieces_in(xml) == before + (seq![p] + after) && opens(p.tag, name) && !(p.tag.len() > 0
            && p.tag.last() == '/') && passes(after, name) ==> element_in(xml, name) is None
            && !holds_element(xml, name),
{
    let nothing = Seq::<Piece>::empty();
    let rest = seq![p] + after;
    lemma_first_opening(before, nothing, name);
    assert(before + nothing =~= before);
    lemma_first_opening(before, rest, name);
    assert(rest[0] == p);
    let all = before + rest;
    let n = before.len() as int;
    assert(all.skip(n) =~= rest);
    assert(all[n] == p);
    assert(rest.drop_first() =~= after);
    if passes(after, name) {
        lemma_passed(after, nothing, name, 0);
        assert(after + nothing =~= after);
    }
}

/// An attribute is what stands in its quotes, double or single, whatever
/// white space stands before it and around its `=`; what follows is read
/// after it.
pub proof fn an_attribute_is_what_its_quotes_hold(
    lead: Seq<char>,
    gap: Seq<char>,
    key: Seq<char>,
    before: Seq<char>,
    after: Seq<char>,
    quote: char,
    value: Seq<char>,
    rest: Seq<char>,
)
    requires
        forall|i: int|
            0 <= i < lead.len() ==> #[trigger] lead[i] != ' ' && lead[i] != '\t' && lead[i] != '\r'
                && lead[i] != '\n',
        gap.len() > 0,
        is_gap(gap) && is_gap(before) && is_gap(after),
        key.len() > 0,
        forall|i: int|
            0 <= i < key.len() ==> #[trigger] key[i] != ' ' && key[i] != '\t' && key[i] != '\r'
                && key[i] != '\n' && key[i] != '=',
        quote == '"' || quote == '\'',
        forall|i: int| 0 <= i < value.len() ==> #[trigger] value[i] != quote,
    ensures
        attributes_in(
            lead + (gap + (key + (before + (seq!['='] + (after + (seq![quote] + (value + (seq![
                quote,
            ] + rest)))))))),
        ) == seq![(key, value)] + attributes_in(rest),
{
    let quoted = seq![quote] + (value + (seq![quote] + rest));
    let equals = seq!['='] + (after + quoted);
    let spaced_equals = before + equals;
    let s = lead + (gap + (key + spaced_equals));
    assert(spaced_equals.len() > 0 && (is_white(spaced_equals[0]) || spaced_equals[0] == '=')) by {
        if before.len() > 0 {
            assert(spaced_equals[0] == before[0]);
        } else {
            assert(spaced_equals[0] == equals[0]);
        }
    }
    lemma_word(lead, gap, key, spaced_equals);
    lemma_equals(before, after, quoted);
    lemma_quoted(value, quote, rest);
    lemma_pair(s, key, spaced_equals, equals, quoted, value.len() as int);
}

/// What follows the name of an attribute.
proof fn lemma_equals(before: Seq<char>, after: Seq<char>, value: Seq<char>)
    requires
        forall|i: int| 0 <= i < before.len() ==> is_white(#[trigger] before[i]),
        forall|i: int| 0 <= i < after.len() ==> is_white(#[trigger] after[i]),
        value.len() > 0,
        !is_white(value[0]),
    ensures
        ({
            let equals = seq!['='] + (after + value);
            &&& from(before + equals, solid()) == equals
            &&& equals.len() > 0
            &&& equals[0] == '='
            &&& from(equals.skip(1), solid()) == value
        }),
{
    let equals = seq!['='] + (after + value);
    assert(equals[0] == '=');
    assert(equals.skip(1) =~= after + value);
    lemma_cut(before, equals, solid());
    lemma_cut(after, value, solid());
}

/// One step over an attribute, and what it leaves.
proof fn lemma_pair(
    s: Seq<char>,
    key: Seq<char>,
    rest: Seq<char>,
    equals: Seq<char>,
    quoted: Seq<char>,
    end: int,
)
    requires
        ({
            let at = from(from(s, white()), solid());
            &&& at.len() > 0
            &&& until(at, ends_key()) == key
            &&& from(at, ends_key()) == rest
        }),
        from(rest, solid()) == equals,
        equals.len() > 0 && equals[0] == '=',
        from(equals.skip(1), solid()) == quoted,
        quoted.len() > 0 && (quoted[0] == '"' || quoted[0] == '\''),
        find_char(quoted.skip(1), quoted[0]) == Some(end),
    ensures
        attributes_in(s) == seq![(key, quoted.subrange(1, end + 1))] + attributes_in(
            quoted.skip(end + 2),
        ),
{
    assert(step(s) == Step::Pair(key, quoted.subrange(1, end + 1), quoted.skip(end + 2)));
}

/// One step over what is no attribute, and what it leaves.
proof fn lemma_past(s: Seq<char>, rest: Seq<char>, equals: Seq<char>)
    requires
        ({
            let at = from(from(s, white()), solid());
            &&& at.len() > 0
            &&& from(at, ends_key()) == rest
        }),
        from(rest, solid()) == equals,
    ensures
        equals.len() > 0 && equals[0] != '=' ==> attributes_in(s) == attributes_in(rest),
        equals.len() > 0 && equals[0] == '=' ==> ({
            let value = from(equals.skip(1), solid());
            value.len() > 0 && value[0] != '"' && value[0] != '\'' ==> attributes_in(s)
                == attributes_in(value)
        }),
{
    if equals.len() > 0 && equals[0] != '=' {
        assert(step(s) == Step::Past(rest));
    }
    if equals.len() > 0 && equals[0] == '=' {
        let value = from(equals.skip(1), solid());
        if value.len() > 0 && value[0] != '"' && value[0] != '\'' {
            assert(step(s) == Step::Past(value));
        }
    }
}

/// What stands before the first character of a kind, and from it on.
proof fn lemma_cut(a: Seq<char>, b: Seq<char>, p: spec_fn(char) -> bool)
    requires
        forall|i: int| 0 <= i < a.len() ==> !p(#[trigger] a[i]),
        b.len() > 0,
        p(b[0]),
    ensures
        until(a + b, p) == a,
        from(a + b, p) == b,
{
    let s = a + b;
    assert(s[a.len() as int] == b[0]);
    assert forall|j: int| 0 <= j < a.len() implies !p(#[trigger] s[j]) by {
        assert(s[j] == a[j]);
    }
    lemma_span_is(s, p, a.len() as int);
    assert(s.take(a.len() as int) =~= a);
    assert(s.skip(a.len() as int) =~= b);
}

/// What stands in quotes, and what after them.
proof fn lemma_quoted(value: Seq<char>, quote: char, rest: Seq<char>)
    requires
        forall|i: int| 0 <= i < value.len() ==> #[trigger] value[i] != quote,
    ensures
        ({
            let quoted = seq![quote] + (value + (seq![quote] + rest));
            let end = value.len() as int;
            &&& find_char(quoted.skip(1), quote) == Some(end)
            &&& quoted.subrange(1, end + 1) == value
            &&& quoted.skip(end + 2) == rest
        }),
{
    let inside = value + (seq![quote] + rest);
    let quoted = seq![quote] + inside;
    assert(quoted.skip(1) =~= inside);
    assert(inside[value.len() as int] == quote);
    assert forall|j: int| 0 <= j < value.len() implies !is_char(quote)(#[trigger] inside[j]) by {
        assert(inside[j] == value[j]);
    }
    lemma_first_where(inside, is_char(quote), value.len() as int);
    assert(quoted.subrange(1, value.len() + 1int) =~= value);
    assert(quoted.skip(value.len() + 2int) =~= rest);
}

/// Of several attributes of a name the first counts, and nothing is read
/// where there is none of the name.
pub proof fn the_first_attribute_of_a_name_counts(
    attributes: Seq<(Seq<char>, Seq<char>)>,
    key: Seq<char>,
    i: int,
)
    ensures
        0 <= i < attributes.len() && attributes[i].0 == key && (forall|j: int|
            0 <= j < i ==> (#[trigger] attributes[j]).0 != key) ==> first_named(attributes, key)
            == Some(attributes[i].1),
        (forall|j: int| 0 <= j < attributes.len() ==> (#[trigger] attributes[j]).0 != key)
            ==> first_named(attributes, key) is None,
    decreases attributes.len(),
{
    if attributes.len() > 0 {
        let rest = attributes.drop_first();
        the_first_attribute_of_a_name_counts(rest, key, i - 1);
        if 0 < i < attributes.len() && attributes[i].0 == key && (forall|j: int|
            0 <= j < i ==> (#[trigger] attributes[j]).0 != key) {
            assert(rest[i - 1] == attributes[i]);
            assert forall|j: int| 0 <= j < i - 1 implies (#[trigger] rest[j]).0 != key by {
                assert(rest[j] == attributes[j + 1]);
            }
        }
        if forall|j: int| 0 <= j < attributes.len() ==> (#[trigger] attributes[j]).0 != key {
            assert forall|j: int| 0 <= j < rest.len() implies (#[trigger] rest[j]).0 != key by {
                assert(rest[j] == attributes[j + 1]);
            }
        }
    }
}

/// An attribute of an element is read off the first tag that opens it: the
/// text its value writes, nothing where the tag has none of that name or no
/// tag opens the element, and a refusal where the value writes no text.
pub proof fn an_attribute_is_read_off_the_first_of_its_element(
    xml: Seq<char>,
    before: Seq<Piece>,
    p: Piece,
    after: Seq<Piece>,
    name: Seq<char>,
    key: Seq<char>,
)
    requires
        opens_none(before, name),
    ensures
        pieces_in(xml) == before ==> attribute_in(xml, name, key) == Ok::<
            Option<Seq<char>>,
            Refusal,
        >(None),
        pieces_in(xml) == before + (seq![p] + after) && opens(p.tag, name) ==> match first_named(
            attributes_in(p.tag),
            key,
        ) {
            None => attribute_in(xml, name, key) == Ok::<Option<Seq<char>>, Refusal>(None),
            Some(raw) => match unescaped(raw) {
                Some(text) => attribute_in(xml, name, key) == Ok::<Option<Seq<char>>, Refusal>(
                    Some(text),
                ),
                None => attribute_in(xml, name, key) matches Err(e) && !e.retryable && e.message
                    == "an entity XML does not define"@,
            },
        },
{
    let nothing = Seq::<Piece>::empty();
    let rest = seq![p] + after;
    lemma_first_opening(before, nothing, name);
    assert(before + nothing =~= before);
    lemma_first_opening(before, rest, name);
    assert(rest[0] == p);
    assert((before + rest)[before.len() as int] == p);
}

/// Properties are read one after the other: what is no property, is an empty
/// one or has no name is passed over; one that is closed says what stands in
/// it, and then come those that follow.
pub proof fn properties_are_read_one_after_the_other(
    p: Piece,
    inner: Seq<Piece>,
    q: Piece,
    after: Seq<Piece>,
    name: Seq<char>,
    text: Seq<char>,
    more: Seq<(Seq<char>, Seq<char>)>,
)
    ensures
        properties_among(Seq::empty()) matches Ok(l) && l.len() == 0,
        !opens(p.tag, "Property"@) || p.tag.len() > 0 && p.tag.last() == '/' || first_named(
            attributes_in(p.tag),
            "name"@,
        ) is None ==> properties_among(seq![p] + after) == properties_among(after),
        opens(p.tag, "Property"@) && !(p.tag.len() > 0 && p.tag.last() == '/') && (first_named(
            attributes_in(p.tag),
            "name"@,
        ) matches Some(raw) && unescaped(raw) == Some(name)) && passes(inner, "Property"@)
            && closes(q.tag, "Property"@) && unescaped(p.text + render(inner)) == Some(text)
            && properties_among(inner + seq![q] + after) == Ok::<
            Seq<(Seq<char>, Seq<char>)>,
            Refusal,
        >(more) ==> properties_among(seq![p] + (inner + seq![q] + after)) == Ok::<
            Seq<(Seq<char>, Seq<char>)>,
            Refusal,
        >(seq![(name, text)] + more),
{
    let rest = inner + seq![q] + after;
    assert((seq![p] + after).drop_first() =~= after);
    assert((seq![p] + after)[0] == p);
    let all = seq![p] + rest;
    assert(all.drop_first() =~= rest);
    assert(all[0] == p);
    if passes(inner, "Property"@) && closes(q.tag, "Property"@) {
        let ending = seq![q] + after;
        assert(rest =~= inner + ending);
        assert(ending[0] == q);
        lemma_passed(inner, ending, "Property"@, 0);
        assert(rest.take(inner.len() as int) =~= inner);
    }
}

/// A property that nothing closes says what stands before the next tag that
/// closes an element; where there is none, there is no more to read.
pub proof fn a_property_that_is_left_open_ends_with_what_it_is_in(
    p: Piece,
    inner: Seq<Piece>,
    q: Piece,
    after: Seq<Piece>,
    name: Seq<char>,
    text: Seq<char>,
    more: Seq<(Seq<char>, Seq<char>)>,
)
    requires
        opens(p.tag, "Property"@),
        !(p.tag.len() > 0 && p.tag.last() == '/'),
        first_named(attributes_in(p.tag), "name"@) matches Some(raw) && unescaped(raw) == Some(
            name,
        ),
        passes(inner, "Property"@),
        forall|i: int|
            0 <= i < inner.len() ==> !((#[trigger] inner[i]).tag.len() > 0 && inner[i].tag[0]
                == '/'),
    ensures
        properties_among(seq![p] + inner) matches Ok(l) && l.len() == 0,
        q.tag.len() > 0 && q.tag[0] == '/' && passes(seq![q] + after, "Property"@) && unescaped(
            p.text + render(inner),
        ) == Some(text) && properties_among(inner + seq![q] + after) == Ok::<
            Seq<(Seq<char>, Seq<char>)>,
            Refusal,
        >(more) ==> properties_among(seq![p] + (inner + seq![q] + after)) == Ok::<
            Seq<(Seq<char>, Seq<char>)>,
            Refusal,
        >(seq![(name, text)] + more),
{
    let nothing = Seq::<Piece>::empty();
    let alone = seq![p] + inner;
    assert(alone.drop_first() =~= inner);
    assert(alone[0] == p);
    lemma_passed(inner, nothing, "Property"@, 0);
    assert(inner + nothing =~= inner);
    lemma_no_end(inner, nothing);
    let ending = seq![q] + after;
    let rest = inner + seq![q] + after;
    let all = seq![p] + rest;
    assert(all.drop_first() =~= rest);
    assert(all[0] == p);
    assert(rest =~= inner + ending);
    lemma_no_end(inner, ending);
    assert(ending[0] == q);
    assert(rest.take(inner.len() as int) =~= inner);
    if passes(ending, "Property"@) {
        lemma_passed(inner, ending, "Property"@, 0);
        lemma_passed(ending, nothing, "Property"@, 0);
        assert(ending + nothing =~= ending);
    }
}

/// What closes nothing is passed over on the way to a tag that closes.
proof fn lemma_no_end(inner: Seq<Piece>, rest: Seq<Piece>)
    requires
        forall|i: int| 0 <= i < inner.len() ==> !begins((#[trigger] inner[i]).tag, '/'),
    ensures
        first_end(inner + rest) == further(inner.len() as int, first_end(rest)),
    decreases inner.len(),
{
    if inner.len() == 0 {
        assert(inner + rest =~= rest);
    } else {
        let tail = inner.drop_first();
        assert((inner + rest).drop_first() =~= tail + rest);
        assert((inner + rest)[0] == inner[0]);
        assert forall|i: int| 0 <= i < tail.len() implies !begins(
            (#[trigger] tail[i]).tag,
            '/',
        ) by {
            assert(tail[i] == inner[i + 1]);
        }
        lemma_no_end(tail, rest);
    }
}

/// `tag` between its brackets, and the text after it.
pub open spec fn bracketed(tag: Seq<char>, text: Seq<char>, more: Seq<char>) -> Seq<char> {
    seq!['<'] + tag + seq!['>'] + text + more
}

/// A tag is bare where its name and what follows it are.
proof fn lemma_bare(prefix: Seq<char>, n: Seq<char>, tail: Seq<char>)
    requires
        is_namespace(prefix),
        is_name(n),
        is_tail(tail),
        is_bare(tail),
    ensures
        is_bare(prefix + n + tail),
        is_bare(seq!['/'] + (prefix + n + tail)),
        (prefix + n + tail)[0] != '!' && (prefix + n + tail)[0] != '?',
        whole(prefix + n + tail),
        whole(seq!['/'] + (prefix + n + tail)),
        tail.len() == 0 || tail.last() != '/' ==> (prefix + n + tail).last() != '/',
{
    let tag = prefix + n + tail;
    let end = seq!['/'] + tag;
    assert forall|i: int| 0 <= i < tag.len() implies #[trigger] tag[i] != '<' && tag[i] != '>'
        && tag[i] != '"' && tag[i] != '\'' by {
        if i < prefix.len() - 1 {
            assert(tag[i] == prefix.drop_last()[i]);
        } else if i < prefix.len() {
            assert(tag[i] == prefix.last());
        } else if i < prefix.len() + n.len() {
            assert(tag[i] == n[i - prefix.len()]);
        } else {
            assert(tag[i] == tail[i - prefix.len() - n.len()]);
        }
    }
    assert forall|i: int| 0 <= i < end.len() implies #[trigger] end[i] != '<' && end[i] != '>'
        && end[i] != '"' && end[i] != '\'' by {
        if i > 0 {
            assert(end[i] == tag[i - 1]);
        }
    }
    if prefix.len() > 1 {
        assert(tag[0] == prefix.drop_last()[0]);
    } else if prefix.len() == 1 {
        assert(tag[0] == prefix.last());
    } else {
        assert(tag[0] == n[0]);
    }
    assert(is_plain(tag) && is_plain(end));
    lemma_even_plain(tag);
    lemma_even_plain(end);
    lemma_whole(tag);
    lemma_whole(end);
    if tail.len() == 0 {
        assert(tag.last() == n[n.len() - 1]);
    } else {
        assert(tag.last() == tail.last());
    }
}

/// An element with nothing but text in it is read off the letters it is
/// written with: under any prefix, with any white space in its tags, and
/// with any text before it, in it and after it.
pub proof fn an_element_is_read_off_its_letters(
    lead: Seq<char>,
    prefix: Seq<char>,
    n: Seq<char>,
    gap: Seq<char>,
    text: Seq<char>,
    end_gap: Seq<char>,
    after: Seq<char>,
    more: Seq<char>,
)
    requires
        is_text(lead) && is_text(text) && is_text(after),
        is_namespace(prefix),
        is_name(n),
        is_gap(gap) && is_gap(end_gap),
        is_next(more),
    ensures
        element_in(
            lead + bracketed(
                prefix + n + gap,
                text,
                bracketed(seq!['/'] + (prefix + n + end_gap), after, more),
            ),
            n,
        ) == Some(text),
{
    assert(is_tail(gap) && is_tail(end_gap));
    assert(is_bare(gap) && is_bare(end_gap));
    lemma_bare(prefix, n, gap);
    lemma_bare(prefix, n, end_gap);
    a_tag_is_of_the_element_of_its_local_name(prefix, n, gap, n);
    a_tag_is_of_the_element_of_its_local_name(prefix, n, end_gap, n);
    let a = Piece { tag: prefix + n + gap, text };
    let b = Piece { tag: seq!['/'] + (prefix + n + end_gap), text: after };
    let m1 = bracketed(b.tag, after, more);
    let xml = lead + bracketed(a.tag, text, m1);
    let none = Seq::<char>::empty();
    let nothing = Seq::<Piece>::empty();
    lemma_piece(lead, a.tag, text, m1);
    lemma_piece(none, b.tag, after, more);
    assert(none + m1 =~= m1);
    let rest = pieces_in(more);
    assert(pieces_in(xml) =~= nothing + (seq![a] + nothing + seq![b] + rest));
    an_element_is_all_between_its_tags(xml, nothing, a, nothing, b, rest, n);
    assert(text + render(nothing) =~= text);
}

/// A party is read off the letters it is written with: white space or other
/// text before its `PartyId` and after it is passed over.
pub proof fn a_party_is_read_off_its_letters(
    lead: Seq<char>,
    prefix: Seq<char>,
    side: Seq<char>,
    before: Seq<char>,
    id_prefix: Seq<char>,
    id: Seq<char>,
    after: Seq<char>,
    rest: Seq<char>,
    more: Seq<char>,
    party: Seq<char>,
)
    requires
        is_text(lead) && is_text(before) && is_text(id) && is_text(after) && is_text(rest),
        is_namespace(prefix) && is_namespace(id_prefix),
        is_name(side),
        side != "PartyId"@,
        is_next(more),
        unescaped(id) == Some(party),
    ensures
        party_in(
            lead + bracketed(
                prefix + side,
                before,
                bracketed(
                    id_prefix + "PartyId"@,
                    id,
                    bracketed(
                        seq!['/'] + (id_prefix + "PartyId"@),
                        after,
                        bracketed(seq!['/'] + (prefix + side), rest, more),
                    ),
                ),
            ),
            side,
        ) == Ok::<Seq<char>, Refusal>(party),
{
    let none = Seq::<char>::empty();
    let n = "PartyId"@;
    assert(is_name(n)) by {
        reveal_strlit("PartyId");
    }
    assert(prefix + side + none =~= prefix + side);
    assert(id_prefix + n + none =~= id_prefix + n);
    lemma_bare(prefix, side, none);
    lemma_bare(id_prefix, n, none);
    a_tag_is_of_the_element_of_its_local_name(prefix, side, none, side);
    a_tag_is_of_the_element_of_its_local_name(id_prefix, n, none, side);
    a_tag_is_of_the_element_of_its_local_name(id_prefix, n, none, n);
    let a = Piece { tag: prefix + side, text: before };
    let b = Piece { tag: id_prefix + n, text: id };
    let c = Piece { tag: seq!['/'] + (id_prefix + n), text: after };
    let d = Piece { tag: seq!['/'] + (prefix + side), text: rest };
    lemma_one_in_another(lead, a, b, c, d, more, side, n);
}

/// An element in another, each opened and closed, and text around them.
proof fn lemma_one_in_another(
    lead: Seq<char>,
    a: Piece,
    b: Piece,
    c: Piece,
    d: Piece,
    more: Seq<char>,
    outer: Seq<char>,
    n: Seq<char>,
)
    requires
        is_text(lead) && is_text(a.text) && is_text(b.text) && is_text(c.text) && is_text(d.text),
        whole(a.tag) && whole(b.tag) && whole(c.tag) && whole(d.tag),
        is_next(more),
        opens(a.tag, outer) && closes(d.tag, outer),
        !opens(b.tag, outer) && !closes(b.tag, outer),
        !opens(c.tag, outer) && !closes(c.tag, outer),
        opens(b.tag, n) && closes(c.tag, n),
        a.tag.last() != '/' && b.tag.last() != '/',
    ensures
        element_in(
            lead + bracketed(
                a.tag,
                a.text,
                bracketed(b.tag, b.text, bracketed(c.tag, c.text, bracketed(d.tag, d.text, more))),
            ),
            outer,
        ) == Some(a.text + render(seq![b, c])),
        element_in(a.text + render(seq![b, c]), n) == Some(b.text),
{
    let none = Seq::<char>::empty();
    let nothing = Seq::<Piece>::empty();
    let m3 = bracketed(d.tag, d.text, more);
    let m2 = bracketed(c.tag, c.text, m3);
    let m1 = bracketed(b.tag, b.text, m2);
    let xml = lead + bracketed(a.tag, a.text, m1);
    let others = pieces_in(more);
    let inner = seq![b, c];
    assert(pieces_in(xml) == seq![a] + pieces_in(m1)) by {
        lemma_piece(lead, a.tag, a.text, m1);
    }
    assert(pieces_in(m1) == seq![b] + pieces_in(m2)) by {
        lemma_piece(none, b.tag, b.text, m2);
        assert(none + m1 =~= m1);
    }
    assert(pieces_in(m2) == seq![c] + pieces_in(m3)) by {
        lemma_piece(none, c.tag, c.text, m3);
        assert(none + m2 =~= m2);
    }
    assert(pieces_in(m3) == seq![d] + others) by {
        lemma_piece(none, d.tag, d.text, more);
        assert(none + m3 =~= m3);
    }
    assert(pieces_in(xml) =~= nothing + (seq![a] + inner + seq![d] + others));
    assert(element_in(xml, outer) == Some(a.text + render(inner))) by {
        an_element_is_all_between_its_tags(xml, nothing, a, inner, d, others, outer);
    }
    let found = a.text + render(inner);
    assert(pieces_in(found) == inner) by {
        assert(flat(inner)) by {
            reveal(crate::flat::flat);
            assert(no_tag(b.text) && no_tag(c.text));
        }
        lemma_flat_legible(inner);
        lemma_pieces(a.text, inner);
    }
    assert(inner =~= nothing + (seq![b] + nothing + seq![c] + nothing));
    assert(element_in(found, n) == Some(b.text)) by {
        an_element_is_all_between_its_tags(found, nothing, b, nothing, c, nothing, n);
        assert(b.text + render(nothing) =~= b.text);
    }
}

/// The local name of a tag is what follows the last colon of its name,
/// however many there are.
pub proof fn the_local_name_follows_the_last_colon(lead: Seq<char>, n: Seq<char>, tail: Seq<char>)
    requires
        lead.len() > 0,
        lead[0] != '!' && lead[0] != '?',
        lead.last() == ':',
        forall|i: int|
            0 <= i < lead.len() ==> #[trigger] lead[i] != ' ' && lead[i] != '\t' && lead[i] != '\r'
                && lead[i] != '\n' && lead[i] != '/',
        forall|i: int|
            0 <= i < n.len() ==> #[trigger] n[i] != ' ' && n[i] != '\t' && n[i] != '\r' && n[i]
                != '\n' && n[i] != '/' && n[i] != ':',
        is_tail(tail),
    ensures
        opens(lead + n + tail, n),
        closes(seq!['/'] + (lead + n + tail), n),
{
    reveal_strlit(":");
    let qualified = lead + n;
    let tag = qualified + tail;
    let p = ends_open_name();
    assert forall|j: int| 0 <= j < qualified.len() implies !p(#[trigger] tag[j]) by {
        if j < lead.len() {
            assert(tag[j] == lead[j]);
        } else {
            assert(tag[j] == n[j - lead.len()]);
        }
    }
    if tail.len() > 0 {
        assert(tag[qualified.len() as int] == tail[0]);
    }
    lemma_span_is(tag, p, qualified.len() as int);
    assert(tag.take(qualified.len() as int) =~= qualified);
    let colon = lead.len() - 1;
    assert(qualified.subrange(colon, colon + 1) =~= ":"@);
    assert forall|j: int| colon < j implies !#[trigger] occurs_at(qualified, ":"@, j) by {
        if occurs_at(qualified, ":"@, j) {
            assert(qualified.subrange(j, j + 1)[0] == qualified[j]);
            assert(qualified[j] == n[j - lead.len()]);
        }
    }
    lemma_rfind_word(qualified, ":"@, colon);
    assert(qualified.skip(colon + 1) =~= n);
    assert(tag[0] == lead[0]);
    assert((seq!['/'] + tag).skip(1) =~= tag);
}

/// What ends an element ends it too where others are open around it, and what
/// follows is looked for among those.
proof fn lemma_deeper(pieces: Seq<Piece>, name: Seq<char>, e: nat, d: nat)
    ensures
        end_in(pieces, name, e) matches Some(k) ==> 0 <= k < pieces.len() && end_in(
            pieces,
            name,
            e + d + 1,
        ) == further(k + 1, end_in(pieces.skip(k + 1), name, d)),
    decreases pieces.len(),
{
    if pieces.len() > 0 {
        let tag = pieces[0].tag;
        let rest = pieces.drop_first();
        assert(pieces.skip(1) =~= rest);
        if closes(tag, name) {
            if e > 0 {
                lemma_deeper(rest, name, (e - 1) as nat, d);
                if let Some(k) = end_in(rest, name, (e - 1) as nat) {
                    assert(pieces.skip(k + 2) =~= rest.skip(k + 1));
                }
            }
        } else if opens(tag, name) && !is_empty_tag(tag) {
            lemma_deeper(rest, name, e + 1, d);
            if let Some(k) = end_in(rest, name, e + 1) {
                assert(pieces.skip(k + 2) =~= rest.skip(k + 1));
            }
        } else {
            lemma_deeper(rest, name, e, d);
            if let Some(k) = end_in(rest, name, e) {
                assert(pieces.skip(k + 2) =~= rest.skip(k + 1));
            }
        }
    }
}

/// On the way to the end of an element, another of its name is passed over to
/// its own end, whatever it holds and however deep it stands.
pub proof fn an_element_is_passed_over_to_its_own_end(
    p: Piece,
    pieces: Seq<Piece>,
    name: Seq<char>,
    depth: nat,
)
    requires
        opens(p.tag, name),
        !(p.tag.len() > 0 && p.tag.last() == '/'),
    ensures
        end_in(pieces, name, 0) matches Some(k) ==> end_in(seq![p] + pieces, name, depth)
            == further(k + 2, end_in(pieces.skip(k + 1), name, depth)),
{
    let all = seq![p] + pieces;
    assert(all[0] == p);
    assert(all.drop_first() =~= pieces);
    lemma_deeper(pieces, name, 0, depth);
}

/// No end is found in quotes that nothing closes.
proof fn lemma_open_quotes(s: Seq<char>, quote: char, more: Seq<char>)
    requires
        forall|i: int| 0 <= i < s.len() ==> #[trigger] s[i] != quote,
        is_next(more),
    ensures
        unquoted_end(s + more, Some(quote)) is None,
    decreases s.len(),
{
    let t = s + more;
    if s.len() == 0 {
        assert(t =~= more);
    } else {
        let tail = s.drop_first();
        assert(t.drop_first() =~= tail + more);
        assert(t[0] == s[0]);
        assert forall|i: int| 0 <= i < tail.len() implies #[trigger] tail[i] != quote by {
            assert(tail[i] == s[i + 1]);
        }
        lemma_open_quotes(tail, quote, more);
    }
}

/// A tag whose quotes nothing closes before the next tag ends at the first
/// bracket there is.
pub proof fn a_tag_with_open_quotes_ends_at_the_first_bracket(
    lead: Seq<char>,
    head: Seq<char>,
    quote: char,
    value: Seq<char>,
    text: Seq<char>,
    more: Seq<char>,
)
    requires
        is_text(lead),
        is_bare(head),
        head.len() > 0 && head[0] != '!' && head[0] != '?',
        quote == '"' || quote == '\'',
        is_bare(value),
        is_text(text),
        forall|i: int| 0 <= i < text.len() ==> #[trigger] text[i] != quote,
        is_next(more),
    ensures
        ({
            let tag = head + (seq![quote] + value);
            pieces_in(lead + (seq!['<'] + tag + seq!['>'] + text + more)) == seq![
                Piece { tag, text },
            ] + pieces_in(more)
        }),
{
    let tag = head + (seq![quote] + value);
    let rest = text + more;
    let opened = tag + (seq!['>'] + rest);
    let end = tag.len() as int;
    assert(markup_end(opened) == Some(end)) by {
        assert(tag[0] == head[0]);
        crate::flat::lemma_tag_end(tag, rest);
        let inside = value + seq!['>'] + text;
        assert forall|i: int| 0 <= i < inside.len() implies #[trigger] inside[i] != quote by {
            if i < value.len() {
                assert(inside[i] == value[i]);
            } else if i > value.len() {
                assert(inside[i] == text[i - value.len() - 1]);
            }
        }
        lemma_open_quotes(inside, quote, more);
        let quoted = seq![quote] + (inside + more);
        assert(quoted[0] == quote);
        assert(quoted.drop_first() =~= inside + more);
        assert(unquoted_end(quoted, None) is None);
        assert(is_plain(head));
        lemma_even_plain(head);
        assert(opened =~= head + quoted);
        assert(unquoted_end(opened, None) is None) by {
            reveal(crate::flat::even);
        }
        assert(opened[end] == '>');
        assert forall|j: int| 0 <= j < end implies !is_char('>')(#[trigger] opened[j]) by {
            if j < head.len() {
                assert(opened[j] == head[j]);
            } else if j > head.len() {
                assert(opened[j] == value[j - head.len() - 1]);
            }
        }
        lemma_first_where(opened, is_char('>'), end);
    }
    let xml = lead + (seq!['<'] + tag + seq!['>'] + text + more);
    let found = is_char('<');
    let start = lead.len() as int;
    assert(xml[start] == '<');
    assert forall|j: int| 0 <= j < start implies !found(#[trigger] xml[j]) by {
        assert(xml[j] == lead[j]);
    }
    lemma_first_where(xml, found, start);
    assert(xml.skip(start + 1) =~= opened);
    assert(opened.take(end) =~= tag);
    assert(opened.skip(end + 1) =~= rest);
    assert forall|j: int| 0 <= j < text.len() implies !found(#[trigger] rest[j]) by {
        assert(rest[j] == text[j]);
    }
    if more.len() > 0 {
        assert(rest[text.len() as int] == '<');
    }
    lemma_span_is(rest, found, text.len() as int);
    assert(until(rest, found) =~= text);
    lemma_lead(text, more);
}

/// What begins as a tag and has no bracket that ends it is none, and there is
/// nothing after it; so it is with a comment that is left open.
pub proof fn what_does_not_end_is_no_tag(lead: Seq<char>, s: Seq<char>)
    requires
        is_text(lead),
    ensures
        s.len() > 0 && s[0] != '!' && s[0] != '?' && (forall|i: int|
            0 <= i < s.len() ==> #[trigger] s[i] != '>') ==> pieces_in(lead + (seq!['<'] + s)).len()
            == 0,
        (forall|i: int| !#[trigger] occurs_at(s, "-->"@, i)) ==> pieces_in(
            lead + (seq!['<'] + ("!--"@ + s)),
        ).len() == 0,
{
    reveal_strlit("!--");
    reveal_strlit("![CDATA[");
    reveal_strlit("?");
    lemma_start(lead, s);
    lemma_start(lead, "!--"@ + s);
    if s.len() > 0 && s[0] != '!' && s[0] != '?' && (forall|i: int|
        0 <= i < s.len() ==> #[trigger] s[i] != '>') {
        if starts_with(s, "!--"@) {
            assert(s.subrange(0, 3)[0] == s[0]);
        }
        if starts_with(s, "![CDATA["@) {
            assert(s.subrange(0, 8)[0] == s[0]);
        }
        if starts_with(s, "?"@) {
            assert(s.subrange(0, 1)[0] == s[0]);
        }
        crate::markup::lemma_unquoted_end(s, None);
        lemma_first_where_found(s, is_char('>'));
        assert(markup_end(s) is None);
    }
    if forall|i: int| !#[trigger] occurs_at(s, "-->"@, i) {
        let c = "!--"@ + s;
        assert(c.subrange(0, 3) =~= "!--"@);
        assert(c.skip(3) =~= s);
        crate::text::lemma_no_word(s, "-->"@);
        assert(markup_end(c) is None);
    }
}

/// What begins at the first bracket.
proof fn lemma_start(lead: Seq<char>, s: Seq<char>)
    requires
        is_text(lead),
    ensures
        markup_end(s) is None ==> pieces_in(lead + (seq!['<'] + s)).len() == 0,
{
    let xml = lead + (seq!['<'] + s);
    let found = is_char('<');
    let start = lead.len() as int;
    assert(xml[start] == '<');
    assert forall|j: int| 0 <= j < start implies !found(#[trigger] xml[j]) by {
        assert(xml[j] == lead[j]);
    }
    lemma_first_where(xml, found, start);
    assert(xml.skip(start + 1) =~= s);
}

/// What is no attribute is passed over: a word without a value, and a value
/// without quotes. Where no white space is, there is no attribute.
pub proof fn what_is_no_attribute_is_passed_over(
    lead: Seq<char>,
    gap: Seq<char>,
    word: Seq<char>,
    before: Seq<char>,
    after: Seq<char>,
    rest: Seq<char>,
)
    requires
        forall|i: int|
            0 <= i < lead.len() ==> #[trigger] lead[i] != ' ' && lead[i] != '\t' && lead[i] != '\r'
                && lead[i] != '\n',
        gap.len() > 0,
        is_gap(gap) && is_gap(before) && is_gap(after),
        word.len() > 0,
        forall|i: int|
            0 <= i < word.len() ==> #[trigger] word[i] != ' ' && word[i] != '\t' && word[i] != '\r'
                && word[i] != '\n' && word[i] != '=',
        rest.len() > 0,
        rest[0] != ' ' && rest[0] != '\t' && rest[0] != '\r' && rest[0] != '\n',
    ensures
        attributes_in(lead).len() == 0,
        before.len() > 0 && rest[0] != '=' ==> attributes_in(
            lead + (gap + (word + (before + rest))),
        ) == attributes_in(before + rest),
        rest[0] != '"' && rest[0] != '\'' ==> attributes_in(
            lead + (gap + (word + (before + (seq!['='] + (after + rest))))),
        ) == attributes_in(rest),
{
    assert(attributes_in(lead).len() == 0) by {
        crate::document::lemma_no_attribute(lead);
    }
    if before.len() > 0 && rest[0] != '=' {
        lemma_word_alone(lead, gap, word, before, rest);
    }
    if rest[0] != '"' && rest[0] != '\'' {
        lemma_value_alone(lead, gap, word, before, after, rest);
    }
}

proof fn lemma_word_alone(
    lead: Seq<char>,
    gap: Seq<char>,
    word: Seq<char>,
    before: Seq<char>,
    rest: Seq<char>,
)
    requires
        forall|i: int| 0 <= i < lead.len() ==> !is_white(#[trigger] lead[i]),
        gap.len() > 0,
        forall|i: int| 0 <= i < gap.len() ==> is_white(#[trigger] gap[i]),
        word.len() > 0,
        forall|i: int| 0 <= i < word.len() ==> !is_white(#[trigger] word[i]) && word[i] != '=',
        before.len() > 0,
        forall|i: int| 0 <= i < before.len() ==> is_white(#[trigger] before[i]),
        rest.len() > 0,
        !is_white(rest[0]) && rest[0] != '=',
    ensures
        attributes_in(lead + (gap + (word + (before + rest)))) == attributes_in(before + rest),
{
    let spaced = before + rest;
    assert(spaced[0] == before[0]);
    lemma_word(lead, gap, word, spaced);
    lemma_cut(before, rest, solid());
    lemma_past(lead + (gap + (word + spaced)), spaced, rest);
}

proof fn lemma_value_alone(
    lead: Seq<char>,
    gap: Seq<char>,
    word: Seq<char>,
    before: Seq<char>,
    after: Seq<char>,
    rest: Seq<char>,
)
    requires
        forall|i: int| 0 <= i < lead.len() ==> !is_white(#[trigger] lead[i]),
        gap.len() > 0,
        forall|i: int| 0 <= i < gap.len() ==> is_white(#[trigger] gap[i]),
        word.len() > 0,
        forall|i: int| 0 <= i < word.len() ==> !is_white(#[trigger] word[i]) && word[i] != '=',
        forall|i: int| 0 <= i < before.len() ==> is_white(#[trigger] before[i]),
        forall|i: int| 0 <= i < after.len() ==> is_white(#[trigger] after[i]),
        rest.len() > 0,
        !is_white(rest[0]) && rest[0] != '"' && rest[0] != '\'',
    ensures
        attributes_in(lead + (gap + (word + (before + (seq!['='] + (after + rest))))))
            == attributes_in(rest),
{
    let equals = seq!['='] + (after + rest);
    let spaced = before + equals;
    assert(is_white(spaced[0]) || spaced[0] == '=') by {
        if before.len() > 0 {
            assert(spaced[0] == before[0]);
        } else {
            assert(spaced[0] == equals[0]);
        }
    }
    lemma_word(lead, gap, word, spaced);
    lemma_equals(before, after, rest);
    lemma_past(lead + (gap + (word + spaced)), spaced, equals);
}

/// The first word after white space.
proof fn lemma_word(lead: Seq<char>, gap: Seq<char>, word: Seq<char>, rest: Seq<char>)
    requires
        forall|i: int| 0 <= i < lead.len() ==> !is_white(#[trigger] lead[i]),
        gap.len() > 0,
        forall|i: int| 0 <= i < gap.len() ==> is_white(#[trigger] gap[i]),
        word.len() > 0,
        forall|i: int| 0 <= i < word.len() ==> !is_white(#[trigger] word[i]) && word[i] != '=',
        rest.len() > 0,
        is_white(rest[0]) || rest[0] == '=',
    ensures
        ({
            let at = from(from(lead + (gap + (word + rest)), white()), solid());
            &&& at == word + rest
            &&& until(at, ends_key()) == word
            &&& from(at, ends_key()) == rest
        }),
{
    let at = word + rest;
    let spaced = gap + at;
    assert(from(lead + spaced, white()) == spaced) by {
        assert(spaced[0] == gap[0]);
        lemma_cut(lead, spaced, white());
    }
    assert(from(spaced, solid()) == at) by {
        assert(at[0] == word[0]);
        lemma_cut(gap, at, solid());
    }
    lemma_cut(word, rest, ends_key());
}

/// A property whose name or whose text cannot be read is refused, and with it
/// all properties; so are they where one that follows is.
pub proof fn a_property_that_cannot_be_read_is_refused(
    p: Piece,
    inner: Seq<Piece>,
    q: Piece,
    after: Seq<Piece>,
    raw: Seq<char>,
)
    requires
        opens(p.tag, "Property"@),
        !(p.tag.len() > 0 && p.tag.last() == '/'),
        first_named(attributes_in(p.tag), "name"@) == Some(raw),
        passes(inner, "Property"@),
        closes(q.tag, "Property"@),
    ensures
        unescaped(raw) is None || unescaped(p.text + render(inner)) is None ==> (properties_among(
            seq![p] + (inner + seq![q] + after),
        ) matches Err(e) && !e.retryable && e.message == "an entity XML does not define"@),
        unescaped(raw) is Some && unescaped(p.text + render(inner)) is Some ==> (properties_among(
            inner + seq![q] + after,
        ) matches Err(e) ==> properties_among(seq![p] + (inner + seq![q] + after)) == Err::<
            Seq<(Seq<char>, Seq<char>)>,
            Refusal,
        >(e)),
{
    let rest = inner + seq![q] + after;
    let all = seq![p] + rest;
    assert(all.drop_first() =~= rest);
    assert(all[0] == p);
    let ending = seq![q] + after;
    assert(rest =~= inner + ending);
    assert(ending[0] == q);
    lemma_passed(inner, ending, "Property"@, 0);
    assert(rest.take(inner.len() as int) =~= inner);
}

/// The properties of a text are those of its tags.
pub proof fn the_properties_of_a_text_are_those_of_its_tags(xml: Seq<char>)
    ensures
        properties_in(xml) == properties_among(pieces_in(xml)),
{
}

} // verus!
