//! The elements messages and signals are written with, as runs of tags, and
//! what is read back of each.

use vstd::prelude::*;

#[allow(unused_imports)]
use crate::error::Refusal;
#[allow(unused_imports)]
use crate::flat::{
    avoids, even, flat, is_plain, is_quotable, lemma_attribute_found, lemma_element_absent,
    lemma_element_found, lemma_even_append, lemma_even_plain, lemma_even_quoted, lemma_flat_rest,
    lemma_properties_hit, lemma_properties_skip, lemma_render_append, lemma_whole, no_tag, stranger,
    whole,
};
#[allow(unused_imports)]
use crate::markup::{
    attributes_in, ends_key, from, is_quote, is_white, lemma_span, lemma_span_is, render, solid,
    span, step, white, Piece, Step,
};
#[allow(unused_imports)]
use crate::scan::{
    attribute_in, begins, closes, element_in, ends_open_name, holds_element, is_empty_tag, joined,
    lemma_joined, local_name_of, opens, properties_in, read, unprefixed, value_in,
};
#[allow(unused_imports)]
use crate::text::{is_char, lemma_first_where, lemma_no_word, lemma_rfind_word, occurs_at};
#[allow(unused_imports)]
use crate::xml::{
    attributed, escaped, escaped_text_holds_no_markup, is_mark, is_prefix, tagged,
    unescape_undoes_escape, unmarked,
};

verus! {

/// An element of the ebMS namespace.
pub enum Tag {
    UserMessage,
    MessageInfo,
    Timestamp,
    MessageId,
    PartyInfo,
    From,
    To,
    PartyId,
    Role,
    CollaborationInfo,
    AgreementRef,
    Service,
    Action,
    ConversationId,
    MessageProperties,
    Property,
    PayloadInfo,
    PartInfo,
    PartProperties,
    SignalMessage,
    RefToMessageId,
    Receipt,
    Error,
    Description,
    Messaging,
}

/// The local name of an element.
pub open spec fn name(t: Tag) -> Seq<char> {
    match t {
        Tag::UserMessage => "UserMessage"@,
        Tag::MessageInfo => "MessageInfo"@,
        Tag::Timestamp => "Timestamp"@,
        Tag::MessageId => "MessageId"@,
        Tag::PartyInfo => "PartyInfo"@,
        Tag::From => "From"@,
        Tag::To => "To"@,
        Tag::PartyId => "PartyId"@,
        Tag::Role => "Role"@,
        Tag::CollaborationInfo => "CollaborationInfo"@,
        Tag::AgreementRef => "AgreementRef"@,
        Tag::Service => "Service"@,
        Tag::Action => "Action"@,
        Tag::ConversationId => "ConversationId"@,
        Tag::MessageProperties => "MessageProperties"@,
        Tag::Property => "Property"@,
        Tag::PayloadInfo => "PayloadInfo"@,
        Tag::PartInfo => "PartInfo"@,
        Tag::PartProperties => "PartProperties"@,
        Tag::SignalMessage => "SignalMessage"@,
        Tag::RefToMessageId => "RefToMessageId"@,
        Tag::Receipt => "Receipt"@,
        Tag::Error => "Error"@,
        Tag::Description => "Description"@,
        Tag::Messaging => "Messaging"@,
    }
}

pub proof fn lemma_literals()
    ensures
        forall|t: Tag| #[trigger] name(t).len() > 1 && unmarked(name(t)),
        forall|s: Tag, t: Tag| #[trigger] name(s) == #[trigger] name(t) ==> s == t,
{
    reveal_strlit("UserMessage");
    reveal_strlit("MessageInfo");
    reveal_strlit("Timestamp");
    reveal_strlit("MessageId");
    reveal_strlit("PartyInfo");
    reveal_strlit("From");
    reveal_strlit("To");
    reveal_strlit("PartyId");
    reveal_strlit("Role");
    reveal_strlit("CollaborationInfo");
    reveal_strlit("AgreementRef");
    reveal_strlit("Service");
    reveal_strlit("Action");
    reveal_strlit("ConversationId");
    reveal_strlit("MessageProperties");
    reveal_strlit("Property");
    reveal_strlit("PayloadInfo");
    reveal_strlit("PartInfo");
    reveal_strlit("PartProperties");
    reveal_strlit("SignalMessage");
    reveal_strlit("RefToMessageId");
    reveal_strlit("Receipt");
    reveal_strlit("Error");
    reveal_strlit("Description");
    reveal_strlit("Messaging");
    assert forall|s: Tag, t: Tag| #[trigger] name(s) == #[trigger] name(t) implies s == t by {
        let a = name(s);
        let b = name(t);
        assert(a.len() == b.len());
        assert(a[0] == b[0]);
        assert(a[1] == b[1]);
        assert(a[a.len() - 1] == b[b.len() - 1]);
        if a.len() > 4 {
            assert(a[4] == b[4]);
        }
    }
}

/// What may stand in a tag after the name.
pub open spec fn are_attributes(s: Seq<char>) -> bool {
    s.len() > 0 ==> even(s) && s[0] == ' ' && s.last() == '"'
}

/// The tag that opens `t`, and the text after it.
pub open spec fn open(prefix: Seq<char>, t: Tag, attributes: Seq<char>, text: Seq<char>) -> Piece {
    Piece { tag: prefix + name(t) + attributes, text }
}

/// The tag that closes `t`.
pub open spec fn close(prefix: Seq<char>, t: Tag) -> Piece {
    Piece { tag: "/"@ + prefix + name(t), text: Seq::empty() }
}

/// The element `t` around `text` and `inner`.
#[verifier::opaque]
pub open spec fn elem(
    prefix: Seq<char>,
    t: Tag,
    attributes: Seq<char>,
    text: Seq<char>,
    inner: Seq<Piece>,
) -> Seq<Piece> {
    seq![open(prefix, t, attributes, text)] + inner + seq![close(prefix, t)]
}

/// What is found of the first element `n` of `xml`.
#[verifier::opaque]
pub open spec fn finds(xml: Seq<char>, n: Seq<char>, content: Option<Seq<char>>) -> bool {
    element_in(xml, n) == content
}

/// No element `n` is in `xml`.
#[verifier::opaque]
pub open spec fn lacks(xml: Seq<char>, n: Seq<char>) -> bool {
    !holds_element(xml, n)
}

/// What is read of the attribute `key` on the first element `n` of `xml`.
#[verifier::opaque]
pub open spec fn shows(
    xml: Seq<char>,
    n: Seq<char>,
    key: Seq<char>,
    value: Result<Option<Seq<char>>, Refusal>,
) -> bool {
    attribute_in(xml, n, key) == value
}

/// What is read of the properties in `xml`.
#[verifier::opaque]
pub open spec fn lists(
    xml: Seq<char>,
    properties: Result<Seq<(Seq<char>, Seq<char>)>, Refusal>,
) -> bool {
    properties_in(xml) == properties
}

/// An element `t` is not the one `sought`.
pub open spec fn apart(t: Tag, sought: Tag) -> bool {
    t != sought
}

/// The qualified name a prefix makes of a local one has that local name.
pub proof fn lemma_unprefixed(prefix: Seq<char>, local_name: Seq<char>)
    requires
        is_prefix(prefix),
        unmarked(local_name),
    ensures
        unprefixed(prefix + local_name) == local_name,
{
    reveal_strlit(":");
    let qualified = prefix + local_name;
    let colon = prefix.len() - 1;
    assert forall|j: int| colon < j implies !#[trigger] occurs_at(qualified, ":"@, j) by {
        if occurs_at(qualified, ":"@, j) {
            assert(qualified.subrange(j, j + 1)[0] == qualified[j]);
            assert(qualified[j] == local_name[j - prefix.len()]);
            assert(is_mark(local_name[j - prefix.len()]));
        }
    }
    if prefix.len() > 0 {
        assert(qualified.subrange(colon, colon + 1) =~= ":"@);
        lemma_rfind_word(qualified, ":"@, colon);
        assert(qualified.skip(colon + 1) =~= local_name);
    } else {
        lemma_no_word(qualified, ":"@);
        assert(qualified =~= local_name);
    }
}

/// A qualified name holds no mark but the colon of its prefix, and is even.
pub proof fn lemma_qualified(prefix: Seq<char>, n: Seq<char>)
    requires
        is_prefix(prefix),
        unmarked(n),
    ensures
        forall|i: int|
            0 <= i < (prefix + n).len() ==> #[trigger] (prefix + n)[i] == ':' || !is_mark(
                (prefix + n)[i],
            ),
        is_plain(prefix + n),
        even(prefix + n),
{
    let qualified = prefix + n;
    assert forall|i: int| 0 <= i < qualified.len() implies #[trigger] qualified[i] == ':'
        || !is_mark(qualified[i]) by {
        if i < prefix.len() - 1 {
            assert(qualified[i] == prefix.drop_last()[i]);
        } else if i >= prefix.len() {
            assert(qualified[i] == n[i - prefix.len()]);
        }
    }
    assert(is_plain(qualified));
    lemma_even_plain(qualified);
}

/// A qualified name and what may follow it in a tag have the local name that
/// the prefix was put before.
pub proof fn lemma_local(prefix: Seq<char>, n: Seq<char>, attributes: Seq<char>)
    requires
        is_prefix(prefix),
        unmarked(n),
        attributes.len() > 0 ==> ends_open_name()(attributes[0]),
    ensures
        local_name_of(prefix + n + attributes) == n,
{
    let qualified = prefix + n;
    let tag = qualified + attributes;
    lemma_qualified(prefix, n);
    if attributes.len() > 0 {
        assert(tag[qualified.len() as int] == attributes[0]);
    }
    assert forall|i: int| 0 <= i < qualified.len() implies !ends_open_name()(#[trigger] tag[i]) by {
        assert(tag[i] == qualified[i]);
    }
    lemma_span_is(tag, ends_open_name(), qualified.len() as int);
    assert(tag.take(qualified.len() as int) =~= qualified);
    lemma_unprefixed(prefix, n);
}

/// What a qualified name begins with is no mark that a tag begins with.
pub proof fn lemma_begins(prefix: Seq<char>, n: Seq<char>, rest: Seq<char>, c: char)
    requires
        is_prefix(prefix),
        unmarked(n),
        n.len() > 0,
        c == '/' || c == '!' || c == '?',
    ensures
        !begins(prefix + n + rest, c),
{
    lemma_qualified(prefix, n);
    assert((prefix + n + rest)[0] == (prefix + n)[0]);
}

/// The tag that opens `t` opens `t`, and nothing else.
pub proof fn lemma_open(prefix: Seq<char>, t: Tag, attributes: Seq<char>, text: Seq<char>)
    requires
        is_prefix(prefix),
        are_attributes(attributes),
    ensures
        opens(open(prefix, t, attributes, text).tag, name(t)),
        whole(open(prefix, t, attributes, text).tag),
        !is_empty_tag(open(prefix, t, attributes, text).tag),
        forall|s: Tag|
            apart(t, s) ==> #[trigger] stranger(open(prefix, t, attributes, text), name(s)),
{
    lemma_literals();
    let n = name(t);
    let p = open(prefix, t, attributes, text);
    assert(unmarked(n));
    lemma_qualified(prefix, n);
    lemma_local(prefix, n, attributes);
    lemma_begins(prefix, n, attributes, '/');
    lemma_begins(prefix, n, attributes, '!');
    lemma_begins(prefix, n, attributes, '?');
    if attributes.len() == 0 {
        lemma_even_plain(attributes);
    }
    lemma_even_append(prefix + n, attributes);
    lemma_whole(p.tag);
    if attributes.len() > 0 {
        assert(p.tag.last() == attributes.last());
    } else {
        assert(p.tag.last() == n.last());
        assert(!is_mark(n[n.len() - 1]));
    }
}

/// The tag that closes `t` closes `t`, and nothing else.
pub proof fn lemma_close(prefix: Seq<char>, t: Tag)
    requires
        is_prefix(prefix),
    ensures
        closes(close(prefix, t).tag, name(t)),
        whole(close(prefix, t).tag),
        no_tag(close(prefix, t).text),
        forall|s: Tag| apart(t, s) ==> #[trigger] stranger(close(prefix, t), name(s)),
        forall|s: Tag| !opens(close(prefix, t).tag, #[trigger] name(s)),
{
    lemma_literals();
    let n = name(t);
    let p = close(prefix, t);
    let none = Seq::<char>::empty();
    reveal_strlit("/");
    assert(unmarked(n));
    lemma_qualified(prefix, n);
    lemma_local(prefix, n, none);
    assert(p.tag =~= "/"@ + (prefix + n));
    assert(p.tag.skip(1) =~= prefix + n + none);
    lemma_even_plain("/"@);
    lemma_even_append("/"@, prefix + n);
    lemma_whole(p.tag);
}

/// Nothing is flat, and no element of any name.
pub proof fn lemma_nothing()
    ensures
        flat(Seq::<Piece>::empty()),
        forall|n: Seq<char>| #[trigger] avoids(Seq::<Piece>::empty(), n),
{
    reveal(crate::flat::flat);
    reveal(crate::flat::avoids);
}

pub proof fn lemma_flat_append(a: Seq<Piece>, b: Seq<Piece>)
    ensures
        flat(a + b) <==> flat(a) && flat(b),
{
    reveal(crate::flat::flat);
    let all = a + b;
    if flat(a) && flat(b) {
        assert forall|i: int| 0 <= i < all.len() implies whole((#[trigger] all[i]).tag)
            && no_tag(all[i].text) by {
            if i < a.len() {
                assert(all[i] == a[i]);
            } else {
                assert(all[i] == b[i - a.len()]);
            }
        }
    }
    if flat(all) {
        assert forall|i: int| 0 <= i < a.len() implies whole((#[trigger] a[i]).tag) && no_tag(
            a[i].text,
        ) by {
            assert(all[i] == a[i]);
        }
        assert forall|i: int| 0 <= i < b.len() implies whole((#[trigger] b[i]).tag) && no_tag(
            b[i].text,
        ) by {
            assert(all[a.len() + i] == b[i]);
        }
    }
}

pub proof fn lemma_avoids_append(a: Seq<Piece>, b: Seq<Piece>, n: Seq<char>)
    ensures
        avoids(a + b, n) <==> avoids(a, n) && avoids(b, n),
{
    reveal(crate::flat::avoids);
    let all = a + b;
    if avoids(a, n) && avoids(b, n) {
        assert forall|i: int| 0 <= i < all.len() implies stranger(#[trigger] all[i], n) by {
            if i < a.len() {
                assert(all[i] == a[i]);
            } else {
                assert(all[i] == b[i - a.len()]);
            }
        }
    }
    if avoids(all, n) {
        assert forall|i: int| 0 <= i < a.len() implies stranger(#[trigger] a[i], n) by {
            assert(all[i] == a[i]);
        }
        assert forall|i: int| 0 <= i < b.len() implies stranger(#[trigger] b[i], n) by {
            assert(all[a.len() + i] == b[i]);
        }
    }
}

/// Seven texts in a row, however they are put together.
proof fn lemma_ends_apart(
    head: Seq<char>,
    text: Seq<char>,
    inner: Seq<char>,
    a: Seq<char>,
    b: Seq<char>,
    c: Seq<char>,
    d: Seq<char>,
)
    ensures
        head + text + inner + (a + b + c + d) == head + (text + inner) + a + b + c + d,
{
    assert(head + text + inner + (a + b + c + d) =~= head + (text + inner) + a + b + c + d);
}

/// Both tags of an element as written.
proof fn lemma_tags(prefix: Seq<char>, t: Tag, attributes: Seq<char>, text: Seq<char>)
    ensures
        render(seq![open(
            prefix,
            t,
            attributes,
            text,
        )]) == "<"@ + prefix + name(t) + attributes + ">"@
            + text,
        render(seq![close(prefix, t)]) == "</"@ + prefix + name(t) + ">"@,
{
    let p = open(prefix, t, attributes, text);
    let q = close(prefix, t);
    reveal_strlit("<");
    reveal_strlit("</");
    reveal_strlit("/");
    reveal_strlit(">");
    assert(seq![p].drop_first() =~= Seq::<Piece>::empty());
    assert(seq![q].drop_first() =~= Seq::<Piece>::empty());
    assert(render(Seq::<Piece>::empty()) =~= Seq::<char>::empty());
    assert(render(seq![p]) =~= "<"@ + prefix + name(t) + attributes + ">"@ + text);
    assert(render(seq![q]) =~= "</"@ + prefix + name(t) + ">"@);
}

/// An element as written.
#[verifier::rlimit(30)]
pub proof fn lemma_elem(
    prefix: Seq<char>,
    t: Tag,
    attributes: Seq<char>,
    text: Seq<char>,
    inner: Seq<Piece>,
)
    requires
        is_prefix(prefix),
        are_attributes(attributes),
        no_tag(text),
        flat(inner),
    ensures
        render(elem(prefix, t, attributes, text, inner)) == tagged(
            prefix,
            name(t),
            attributes,
            text + render(inner),
        ),
        flat(elem(prefix, t, attributes, text, inner)),
        forall|s: Tag|
            apart(t, s) && avoids(inner, name(s)) ==> #[trigger] avoids(
                elem(prefix, t, attributes, text, inner),
                name(s),
            ),
{
    reveal(elem);
    reveal(crate::flat::flat);
    reveal(crate::flat::avoids);
    let p = open(prefix, t, attributes, text);
    let q = close(prefix, t);
    lemma_open(prefix, t, attributes, text);
    lemma_close(prefix, t);
    lemma_render_append(seq![p], inner);
    lemma_render_append(seq![p] + inner, seq![q]);
    assert(flat(seq![p]));
    assert(flat(seq![q]));
    lemma_flat_append(seq![p], inner);
    lemma_flat_append(seq![p] + inner, seq![q]);
    lemma_tags(prefix, t, attributes, text);
    lemma_ends_apart(
        "<"@ + prefix + name(t) + attributes + ">"@,
        text,
        render(inner),
        "</"@,
        prefix,
        name(t),
        ">"@,
    );
    assert forall|s: Tag| apart(t, s) && avoids(inner, name(s)) implies #[trigger] avoids(
        elem(prefix, t, attributes, text, inner),
        name(s),
    ) by {
        assert(stranger(p, name(s)));
        assert(stranger(q, name(s)));
        assert(avoids(seq![p], name(s)));
        assert(avoids(seq![q], name(s)));
        lemma_avoids_append(seq![p], inner, name(s));
        lemma_avoids_append(seq![p] + inner, seq![q], name(s));
    }
}

/// An element is not found where none of its name stands.
pub proof fn lemma_absent(pieces: Seq<Piece>, t: Tag)
    requires
        flat(pieces),
        avoids(pieces, name(t)),
    ensures
        finds(render(pieces), name(t), None),
        lacks(render(pieces), name(t)),
{
    reveal(finds);
    reveal(lacks);
    lemma_element_absent(pieces, name(t));
}

/// An element is found where none of its name stands before or in it.
#[verifier::rlimit(30)]
pub proof fn lemma_lookup(
    prefix: Seq<char>,
    before: Seq<Piece>,
    t: Tag,
    attributes: Seq<char>,
    text: Seq<char>,
    inner: Seq<Piece>,
    after: Seq<Piece>,
)
    requires
        is_prefix(prefix),
        flat(before),
        flat(inner),
        flat(after),
        are_attributes(attributes),
        no_tag(text),
        avoids(before, name(t)),
        avoids(inner, name(t)),
    ensures
        finds(
            render(before + elem(prefix, t, attributes, text, inner) + after),
            name(t),
            Some(text + render(inner)),
        ),
{
    reveal(finds);
    reveal(elem);
    reveal(crate::flat::flat);
    reveal(crate::flat::avoids);
    let p = open(prefix, t, attributes, text);
    let q = close(prefix, t);
    lemma_elem(prefix, t, attributes, text, inner);
    lemma_open(prefix, t, attributes, text);
    lemma_close(prefix, t);
    let rest = seq![p] + inner + seq![q] + after;
    lemma_flat_append(elem(prefix, t, attributes, text, inner), after);
    lemma_flat_append(before, rest);
    assert forall|i: int| 0 <= i < before.len() implies !opens(
        (#[trigger] before[i]).tag,
        name(t),
    ) by {
        assert(stranger(before[i], name(t)));
    }
    lemma_element_found(before, p, inner, q, after, name(t));
    assert(before + elem(prefix, t, attributes, text, inner) + after =~= before + rest);
}

/// An attribute is read off the first element of the name it is looked for
/// on.
#[verifier::rlimit(30)]
pub proof fn lemma_attribute_lookup(
    prefix: Seq<char>,
    before: Seq<Piece>,
    t: Tag,
    attributes: Seq<char>,
    text: Seq<char>,
    inner: Seq<Piece>,
    after: Seq<Piece>,
    key: Seq<char>,
)
    requires
        is_prefix(prefix),
        flat(before),
        flat(inner),
        flat(after),
        are_attributes(attributes),
        no_tag(text),
        avoids(before, name(t)),
    ensures
        shows(
            render(before + elem(prefix, t, attributes, text, inner) + after),
            name(t),
            key,
            value_in(prefix + name(t) + attributes, key),
        ),
{
    reveal(shows);
    reveal(elem);
    reveal(crate::flat::flat);
    reveal(crate::flat::avoids);
    let p = open(prefix, t, attributes, text);
    let q = close(prefix, t);
    lemma_elem(prefix, t, attributes, text, inner);
    lemma_open(prefix, t, attributes, text);
    let rest = seq![p] + inner + seq![q] + after;
    lemma_flat_append(elem(prefix, t, attributes, text, inner), after);
    lemma_flat_append(before, rest);
    assert forall|i: int| 0 <= i < before.len() implies !opens(
        (#[trigger] before[i]).tag,
        name(t),
    ) by {
        assert(stranger(before[i], name(t)));
    }
    assert(rest =~= seq![p] + (inner + seq![q] + after));
    lemma_attribute_found(before, p, inner + seq![q] + after, name(t), key);
    assert(before + elem(prefix, t, attributes, text, inner) + after =~= before + rest);
}

/// An escaped text is the text of a piece.
pub proof fn lemma_escaped_no_tag(s: Seq<char>)
    ensures
        no_tag(escaped(s)),
{
    escaped_text_holds_no_markup(s);
}

/// What is read of an escaped text.
pub proof fn lemma_read_escaped(s: Seq<char>)
    ensures
        read(escaped(s)) == Ok::<Seq<char>, Refusal>(s),
{
    unescape_undoes_escape(s);
}

/// One attribute is read, and then what follows it.
pub proof fn lemma_attribute(
    lead: Seq<char>,
    key: Seq<char>,
    value: Seq<char>,
    after: Seq<char>,
)
    requires
        forall|i: int| 0 <= i < lead.len() ==> !is_white(#[trigger] lead[i]),
        key.len() > 0,
        unmarked(key),
        forall|i: int| 0 <= i < value.len() ==> #[trigger] value[i] != '"',
    ensures
        attributes_in(lead + (" "@ + key + "=\""@ + value + "\""@) + after) == seq![(key, value)]
            + attributes_in(after),
{
    reveal_strlit(" ");
    reveal_strlit("=\"");
    reveal_strlit("\"");
    let s = lead + (" "@ + key + "=\""@ + value + "\""@) + after;
    let n = lead.len() as int;
    assert(s[n] == ' ');
    assert forall|j: int| 0 <= j < n implies !white()(#[trigger] s[j]) by {
        assert(s[j] == lead[j]);
    }
    lemma_span_is(s, white(), n);
    let spaced = s.skip(n);
    assert(spaced[0] == ' ');
    assert(spaced[1] == key[0]);
    assert(!is_mark(key[0]));
    lemma_span_is(spaced, solid(), 1);
    let at = key + ("=\""@ + value + "\""@ + after);
    assert(spaced.skip(1) =~= at);
    assert forall|j: int| 0 <= j < key.len() implies !ends_key()(#[trigger] at[j]) by {
        assert(at[j] == key[j]);
        assert(!is_mark(key[j]));
    }
    assert(at[key.len() as int] == '=');
    lemma_span_is(at, ends_key(), key.len() as int);
    assert(at.take(key.len() as int) =~= key);
    let equals = "=\""@ + value + "\""@ + after;
    assert(at.skip(key.len() as int) =~= equals);
    assert(equals[0] == '=');
    lemma_span_is(equals, solid(), 0);
    assert(equals.skip(0) =~= equals);
    let quoted = equals.skip(1);
    assert(quoted[0] == '"');
    lemma_span_is(quoted, solid(), 0);
    assert(quoted.skip(0) =~= quoted);
    let inside = quoted.skip(1);
    assert(inside =~= value + ("\""@ + after));
    assert(inside[value.len() as int] == '"');
    assert forall|j: int| 0 <= j < value.len() implies !is_char('"')(#[trigger] inside[j]) by {
        assert(inside[j] == value[j]);
    }
    lemma_first_where(inside, is_char('"'), value.len() as int);
    assert(quoted.subrange(1, value.len() + 1int) =~= value);
    assert(quoted.skip(value.len() + 2int) =~= after);
    assert(step(s) == Step::Pair(key, value, after));
}

/// Where no white space stands there is no attribute.
pub proof fn lemma_no_attribute(s: Seq<char>)
    requires
        forall|i: int| 0 <= i < s.len() ==> !is_white(#[trigger] s[i]),
    ensures
        attributes_in(s) == Seq::<(Seq<char>, Seq<char>)>::empty(),
{
    lemma_span_is(s, white(), s.len() as int);
    assert(s.skip(s.len() as int) =~= Seq::<char>::empty());
    lemma_span_is(Seq::<char>::empty(), solid(), 0);
    assert(from(from(s, white()), solid()) =~= Seq::<char>::empty());
    assert(step(s) == Step::Done);
}

/// No attribute stands in a name: a tag has the attributes that follow its
/// name, and no others.
pub proof fn lemma_attributes_alone(qualified: Seq<char>, attributes: Seq<char>)
    requires
        forall|i: int| 0 <= i < qualified.len() ==> !is_white(#[trigger] qualified[i]),
    ensures
        attributes_in(qualified + attributes) == attributes_in(attributes),
{
    let tag = qualified + attributes;
    let n = qualified.len() as int;
    let at = span(attributes, white());
    lemma_span(attributes, white());
    assert forall|j: int| 0 <= j < n + at implies !white()(#[trigger] tag[j]) by {
        if j < n {
            assert(tag[j] == qualified[j]);
        } else {
            assert(tag[j] == attributes[j - n]);
        }
    }
    if at < attributes.len() {
        assert(tag[n + at] == attributes[at]);
    }
    lemma_span_is(tag, white(), n + at);
    assert(from(tag, white()) =~= from(attributes, white()));
    assert(step(tag) == step(attributes));
}

/// An escaped text stands in double quotes as one value.
pub proof fn lemma_escaped_unquoted(s: Seq<char>)
    ensures
        is_quotable(escaped(s)),
{
    escaped_text_holds_no_markup(s);
}

/// The only attribute of a tag is read back.
pub proof fn lemma_only_value(prefix: Seq<char>, t: Tag, key: Seq<char>, value: Seq<char>)
    requires
        is_prefix(prefix),
        key.len() > 0,
        unmarked(key),
    ensures
        value_in(prefix + name(t) + attributed(key, value), key) == Ok::<
            Option<Seq<char>>,
            Refusal,
        >(Some(value)),
        are_attributes(attributed(key, value)),
{
    lemma_literals();
    let qualified = prefix + name(t);
    let none = Seq::<char>::empty();
    let nothing = Seq::<(Seq<char>, Seq<char>)>::empty();
    assert(unmarked(name(t)));
    lemma_qualified(prefix, name(t));
    lemma_escaped_unquoted(value);
    lemma_attribute(qualified, key, escaped(value), none);
    lemma_no_attribute(none);
    assert(qualified + attributed(key, value) + none =~= qualified + attributed(key, value));
    let all = seq![(key, escaped(value))];
    assert(all + nothing =~= all);
    assert(all[0].0 == key);
    lemma_read_escaped(value);
    lemma_attributes(key, value);
}

/// An attribute is what may stand in a tag after the name.
pub proof fn lemma_attributes(key: Seq<char>, value: Seq<char>)
    requires
        unmarked(key),
    ensures
        are_attributes(attributed(key, value)),
{
    reveal_strlit(" ");
    reveal_strlit("=\"");
    reveal_strlit("\"");
    lemma_escaped_unquoted(value);
    let a = attributed(key, value);
    let head = " "@ + key + seq!['='];
    assert forall|i: int| 0 <= i < head.len() implies #[trigger] head[i] != '>' && head[i] != '<'
        && !is_quote(head[i]) by {
        if 1 <= i < 1 + key.len() {
            assert(head[i] == key[i - 1]);
            assert(!is_mark(key[i - 1]));
        }
    }
    lemma_even_plain(head);
    lemma_even_quoted(escaped(value));
    lemma_even_append(head, seq!['"'] + escaped(value) + seq!['"']);
    assert(a =~= head + (seq!['"'] + escaped(value) + seq!['"']));
    assert(a[0] == ' ');
    assert(a.last() == '"');
}

/// A tag without attributes has none to read.
pub proof fn lemma_nothing_to_read(prefix: Seq<char>, t: Tag, key: Seq<char>)
    requires
        is_prefix(prefix),
    ensures
        value_in(prefix + name(t) + Seq::<char>::empty(), key) == Ok::<
            Option<Seq<char>>,
            Refusal,
        >(None),
{
    lemma_literals();
    assert(unmarked(name(t)));
    lemma_qualified(prefix, name(t));
    assert(prefix + name(t) + Seq::<char>::empty() =~= prefix + name(t));
    lemma_no_attribute(prefix + name(t));
}

/// An attribute with a value of its own is what may stand in a tag after the
/// name.
pub proof fn lemma_literal_attribute(head: Seq<char>, value: Seq<char>)
    requires
        head.len() > 0,
        head[0] == ' ',
        is_plain(head),
        is_quotable(value),
    ensures
        are_attributes(head + (seq!['"'] + value + seq!['"'])),
{
    lemma_even_plain(head);
    lemma_even_quoted(value);
    lemma_even_append(head, seq!['"'] + value + seq!['"']);
}

/// `properties` as pieces.
pub open spec fn property_pieces(
    prefix: Seq<char>,
    properties: Seq<(Seq<char>, Seq<char>)>,
) -> Seq<Piece>
    decreases properties.len(),
{
    if properties.len() == 0 {
        Seq::empty()
    } else {
        property_pieces(prefix, properties.drop_last()) + elem(
            prefix,
            Tag::Property,
            attributed("name"@, properties.last().0),
            escaped(properties.last().1),
            Seq::empty(),
        )
    }
}

/// `name` holds no mark.
proof fn lemma_name_key()
    ensures
        unmarked("name"@),
        "name"@.len() > 0,
{
    reveal_strlit("name");
}

/// Properties are flat, and nothing but properties.
#[verifier::rlimit(30)]
pub proof fn lemma_property_pieces(prefix: Seq<char>, properties: Seq<(Seq<char>, Seq<char>)>)
    requires
        is_prefix(prefix),
    ensures
        flat(property_pieces(prefix, properties)),
        forall|s: Tag|
            apart(Tag::Property, s) ==> #[trigger] avoids(
                property_pieces(prefix, properties),
                name(s),
            ),
    decreases properties.len(),
{
    reveal(elem);
    reveal(crate::flat::flat);
    reveal(crate::flat::avoids);
    if properties.len() > 0 {
        let last = properties.last();
        let earlier = property_pieces(prefix, properties.drop_last());
        let none = Seq::<Piece>::empty();
        let e = elem(prefix, Tag::Property, attributed("name"@, last.0), escaped(last.1), none);
        lemma_property_pieces(prefix, properties.drop_last());
        lemma_name_key();
        lemma_attributes("name"@, last.0);
        lemma_escaped_no_tag(last.1);
        lemma_elem(prefix, Tag::Property, attributed("name"@, last.0), escaped(last.1), none);
        lemma_flat_append(earlier, e);
        assert forall|s: Tag| apart(Tag::Property, s) implies #[trigger] avoids(
            property_pieces(prefix, properties),
            name(s),
        ) by {
            assert(avoids(earlier, name(s)));
            assert(avoids(none, name(s)));
            assert(avoids(e, name(s)));
            lemma_avoids_append(earlier, e, name(s));
        }
    }
}

/// One property is read, and then what follows it.
#[verifier::rlimit(30)]
proof fn lemma_one_property(prefix: Seq<char>, property: (Seq<char>, Seq<char>), after: Seq<Piece>)
    requires
        is_prefix(prefix),
        flat(after),
    ensures
        properties_in(
            render(
                elem(
                    prefix,
                    Tag::Property,
                    attributed("name"@, property.0),
                    escaped(property.1),
                    Seq::empty(),
                ) + after,
            ),
        ) == joined(seq![property], properties_in(render(after))),
{
    let none = Seq::<Piece>::empty();
    let attributes = attributed("name"@, property.0);
    let text = escaped(property.1);
    let p = open(prefix, Tag::Property, attributes, text);
    let q = close(prefix, Tag::Property);
    let e = elem(prefix, Tag::Property, attributes, text, none);
    let all = e + after;
    lemma_nothing();
    lemma_name_key();
    lemma_only_value(prefix, Tag::Property, "name"@, property.0);
    lemma_escaped_no_tag(property.1);
    lemma_open(prefix, Tag::Property, attributes, text);
    lemma_close(prefix, Tag::Property);
    lemma_elem(prefix, Tag::Property, attributes, text, none);
    lemma_flat_append(e, after);
    assert(all =~= seq![p, q] + after) by {
        reveal(elem);
    }
    assert(all[0] == p && all[1] == q);
    lemma_read_escaped(property.1);
    lemma_properties_hit(all, property.0, property.1);
    let rest = all.drop_first();
    assert(rest =~= seq![q] + after);
    assert(flat(rest)) by {
        lemma_flat_rest(all);
    }
    assert(!opens(q.tag, name(Tag::Property)));
    lemma_properties_skip(rest);
    assert(rest.drop_first() =~= after);
}

/// Properties are read back in order, and then what follows them.
#[verifier::rlimit(30)]
pub proof fn lemma_properties_read_back(
    prefix: Seq<char>,
    properties: Seq<(Seq<char>, Seq<char>)>,
    after: Seq<Piece>,
)
    requires
        is_prefix(prefix),
        flat(after),
    ensures
        properties_in(render(property_pieces(prefix, properties) + after)) == joined(
            properties,
            properties_in(render(after)),
        ),
    decreases properties.len(),
{
    reveal(elem);
    reveal(crate::flat::flat);
    if properties.len() == 0 {
        assert(property_pieces(prefix, properties) + after =~= after);
        if let Ok(more) = properties_in(render(after)) {
            assert(properties + more =~= more);
        }
    } else {
        let last = properties.last();
        let earlier = properties.drop_last();
        let none = Seq::<Piece>::empty();
        let e = elem(prefix, Tag::Property, attributed("name"@, last.0), escaped(last.1), none);
        lemma_name_key();
        lemma_attributes("name"@, last.0);
        lemma_escaped_no_tag(last.1);
        lemma_elem(prefix, Tag::Property, attributed("name"@, last.0), escaped(last.1), none);
        lemma_flat_append(e, after);
        lemma_properties_read_back(prefix, earlier, e + after);
        assert(property_pieces(prefix, properties) + after =~= property_pieces(
            prefix,
            earlier,
        ) + (e + after));
        lemma_one_property(prefix, last, after);
        lemma_joined(earlier, seq![last], properties_in(render(after)));
        assert(earlier + seq![last] =~= properties);
    }
}

/// An element with nothing in it but text.
pub open spec fn leaf(
    prefix: Seq<char>,
    t: Tag,
    attributes: Seq<char>,
    text: Seq<char>,
) -> Seq<Piece> {
    elem(prefix, t, attributes, text, Seq::empty())
}

/// An element with no attributes and no text around `inner`.
pub open spec fn around(prefix: Seq<char>, t: Tag, inner: Seq<Piece>) -> Seq<Piece> {
    elem(prefix, t, Seq::empty(), Seq::empty(), inner)
}

/// `pieces` are written as `s`.
pub open spec fn writes(pieces: Seq<Piece>, s: Seq<char>) -> bool {
    flat(pieces) && render(pieces) == s
}

pub proof fn lemma_writes_append(a: Seq<Piece>, s: Seq<char>, b: Seq<Piece>, t: Seq<char>)
    requires
        writes(a, s),
        writes(b, t),
    ensures
        writes(a + b, s + t),
{
    lemma_flat_append(a, b);
    lemma_render_append(a, b);
}

pub proof fn lemma_leaf(prefix: Seq<char>, t: Tag, attributes: Seq<char>, text: Seq<char>)
    requires
        is_prefix(prefix),
        are_attributes(attributes),
        no_tag(text),
    ensures
        writes(leaf(prefix, t, attributes, text), tagged(prefix, name(t), attributes, text)),
        forall|s: Tag| apart(t, s) ==> #[trigger] avoids(
            leaf(prefix, t, attributes, text),
            name(s),
        ),
{
    lemma_nothing();
    let none = Seq::<Piece>::empty();
    lemma_elem(prefix, t, attributes, text, none);
    assert(text + render(none) =~= text);
    assert forall|s: Tag| apart(t, s) implies #[trigger] avoids(
        leaf(prefix, t, attributes, text),
        name(s),
    ) by {
        assert(avoids(none, name(s)));
        assert(avoids(elem(prefix, t, attributes, text, none), name(s)));
    }
}

pub proof fn lemma_around(prefix: Seq<char>, t: Tag, inner: Seq<Piece>, s: Seq<char>)
    requires
        is_prefix(prefix),
        writes(inner, s),
    ensures
        writes(around(prefix, t, inner), tagged(prefix, name(t), Seq::empty(), s)),
        forall|u: Tag|
            apart(t, u) && avoids(inner, name(u)) ==> #[trigger] avoids(
                around(prefix, t, inner),
                name(u),
            ),
{
    let none = Seq::<char>::empty();
    lemma_elem(prefix, t, none, none, inner);
    assert(none + render(inner) =~= s);
}

/// An element inside another is found as it would be alone.
#[verifier::rlimit(30)]
pub proof fn lemma_inside(
    prefix: Seq<char>,
    pre: Seq<Piece>,
    outer: Tag,
    left: Seq<Piece>,
    t: Tag,
    attributes: Seq<char>,
    text: Seq<char>,
    inner: Seq<Piece>,
    right: Seq<Piece>,
    post: Seq<Piece>,
    key: Seq<char>,
)
    requires
        is_prefix(prefix),
        flat(pre),
        flat(left),
        flat(inner),
        flat(right),
        flat(post),
        are_attributes(attributes),
        no_tag(text),
        apart(outer, t),
        avoids(pre, name(t)),
        avoids(left, name(t)),
        avoids(inner, name(t)),
    ensures
        finds(
            render(
                pre + around(
                    prefix,
                    outer,
                    left + elem(prefix, t, attributes, text, inner) + right,
                ) + post,
            ),
            name(t),
            Some(text + render(inner)),
        ),
        shows(
            render(
                pre + around(
                    prefix,
                    outer,
                    left + elem(prefix, t, attributes, text, inner) + right,
                ) + post,
            ),
            name(t),
            key,
            value_in(prefix + name(t) + attributes, key),
        ),
{
    reveal(elem);
    reveal(crate::flat::flat);
    reveal(crate::flat::avoids);
    let none = Seq::<char>::empty();
    let p = seq![open(prefix, outer, none, none)];
    let q = seq![close(prefix, outer)];
    let e = elem(prefix, t, attributes, text, inner);
    lemma_open(prefix, outer, none, none);
    lemma_close(prefix, outer);
    let before = pre + p + left;
    let after = right + q + post;
    assert(flat(p));
    assert(flat(q));
    lemma_flat_append(pre, p);
    lemma_flat_append(pre + p, left);
    lemma_flat_append(right, q);
    lemma_flat_append(right + q, post);
    assert(avoids(p, name(t)));
    lemma_avoids_append(pre, p, name(t));
    lemma_avoids_append(pre + p, left, name(t));
    let all = pre + around(prefix, outer, left + e + right) + post;
    assert(all =~= before + e + after);
    lemma_lookup(prefix, before, t, attributes, text, inner, after);
    lemma_attribute_lookup(prefix, before, t, attributes, text, inner, after, key);
}

/// An element with no text of its own but what stands in it.
pub proof fn lemma_text_only(text: Seq<char>)
    ensures
        text + render(Seq::<Piece>::empty()) == text,
        Seq::<char>::empty() + text == text,
{
    assert(text + render(Seq::<Piece>::empty()) =~= text);
    assert(Seq::<char>::empty() + text =~= text);
}

} // verus!
