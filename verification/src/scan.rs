//! Reading the flat XML of a protocol by scanning for local names, so that a
//! partner's prefix (`eb:`, `eb3:`, `ns2:`) does not matter; what matters is
//! the element.

use vstd::prelude::*;
use vstd::slice::slice_subrange;

use crate::error::TransportError;
use crate::markup::{lemma_between, marks_of, raw_value, whitespace, Mark};
use crate::text::{after, before, chars_of, rfind_word_in, same};
use crate::xml::unescape_chars;

#[allow(unused_imports)]
use crate::error::Refusal;
#[allow(unused_imports)]
use crate::markup::{
    attributes_in, first_named, further, is_white, lemma_span_is, marked, pieces_in, render, until,
    Piece,
};
#[allow(unused_imports)]
use crate::text::rfind_word;
#[allow(unused_imports)]
use crate::xml::{undefined_entity, unescaped};

verus! {

/// The characters after which the name in a tag is over.
pub open spec fn ends_open_name() -> spec_fn(char) -> bool {
    |c: char| is_white(c) || c == '/'
}

/// A qualified name without its prefix: what follows the last `:`.
pub open spec fn unprefixed(qualified: Seq<char>) -> Seq<char> {
    match rfind_word(qualified, ":"@) {
        Some(colon) => qualified.skip(colon + 1),
        None => qualified,
    }
}

/// The local name of the element that the open tag `open` opens, whatever
/// its prefix; a tag that closes has none.
pub open spec fn local_name_of(open: Seq<char>) -> Seq<char> {
    unprefixed(until(open, ends_open_name()))
}

/// `tag` begins with `c`.
pub open spec fn begins(tag: Seq<char>, c: char) -> bool {
    tag.len() > 0 && tag[0] == c
}

/// `tag` opens an element whose local name is `name`: it neither closes one
/// nor is a comment, a CDATA section or an instruction.
pub open spec fn opens(tag: Seq<char>, name: Seq<char>) -> bool {
    !begins(tag, '/') && !begins(tag, '!') && !begins(tag, '?') && local_name_of(tag) == name
}

/// `tag` closes an element whose local name is `name`.
pub open spec fn closes(tag: Seq<char>, name: Seq<char>) -> bool {
    begins(tag, '/') && local_name_of(tag.skip(1)) == name
}

/// Whether a tag ends in `/`.
pub open spec fn is_empty_tag(open: Seq<char>) -> bool {
    open.len() > 0 && open.last() == '/'
}

/// The first of `pieces` that opens an element `name`.
pub open spec fn first_opening(pieces: Seq<Piece>, name: Seq<char>) -> Option<int>
    decreases pieces.len(),
{
    if pieces.len() == 0 {
        None
    } else if opens(pieces[0].tag, name) {
        Some(0)
    } else {
        further(1, first_opening(pieces.drop_first(), name))
    }
}

/// The first of `pieces` that closes an element `name` which `depth` others
/// of the name stand in.
pub open spec fn end_in(pieces: Seq<Piece>, name: Seq<char>, depth: nat) -> Option<int>
    decreases pieces.len(),
{
    if pieces.len() == 0 {
        None
    } else {
        let tag = pieces[0].tag;
        let rest = pieces.drop_first();
        if closes(tag, name) {
            if depth == 0 {
                Some(0)
            } else {
                further(1, end_in(rest, name, (depth - 1) as nat))
            }
        } else if opens(tag, name) && !is_empty_tag(tag) {
            further(1, end_in(rest, name, depth + 1))
        } else {
            further(1, end_in(rest, name, depth))
        }
    }
}

/// The content of the element `name` that the first of `pieces` opens: all
/// that stands before the tag that closes it.
pub open spec fn content_of(pieces: Seq<Piece>, name: Seq<char>) -> Option<Seq<char>> {
    if is_empty_tag(pieces[0].tag) {
        None
    } else {
        match end_in(pieces.drop_first(), name, 0) {
            Some(end) => Some(pieces[0].text + render(pieces.drop_first().take(end))),
            None => None,
        }
    }
}

/// The content of the first element `name` among `pieces`.
pub open spec fn element_among(pieces: Seq<Piece>, name: Seq<char>) -> Option<Seq<char>> {
    match first_opening(pieces, name) {
        Some(i) => content_of(pieces.skip(i), name),
        None => None,
    }
}

/// The content of the first element of `xml` whose local name is `name`.
pub open spec fn element_in(xml: Seq<char>, name: Seq<char>) -> Option<Seq<char>> {
    element_among(pieces_in(xml), name)
}

/// An element `name` is among `pieces`, empty or closed.
pub open spec fn holds_among(pieces: Seq<Piece>, name: Seq<char>) -> bool {
    match first_opening(pieces, name) {
        Some(i) => is_empty_tag(pieces[i].tag) || content_of(pieces.skip(i), name) is Some,
        None => false,
    }
}

/// An element whose local name is `name` is in `xml`, empty or not.
pub open spec fn holds_element(xml: Seq<char>, name: Seq<char>) -> bool {
    holds_among(pieces_in(xml), name)
}

/// The text `s` writes.
pub open spec fn read(s: Seq<char>) -> Result<Seq<char>, Refusal> {
    match unescaped(s) {
        Some(text) => Ok(text),
        None => Err(undefined_entity()),
    }
}

/// The text an optional raw value writes.
pub open spec fn read_some(raw: Option<Seq<char>>) -> Result<Option<Seq<char>>, Refusal> {
    match raw {
        Some(s) => match read(s) {
            Ok(text) => Ok(Some(text)),
            Err(e) => Err(e),
        },
        None => Ok(None),
    }
}

/// The value of `attribute` in the open tag `open`.
pub open spec fn value_in(open: Seq<char>, attribute: Seq<char>) -> Result<
    Option<Seq<char>>,
    Refusal,
> {
    read_some(first_named(attributes_in(open), attribute))
}

/// The value of `attribute` on the first element `name` among `pieces`.
pub open spec fn attribute_among(
    pieces: Seq<Piece>,
    name: Seq<char>,
    attribute: Seq<char>,
) -> Result<Option<Seq<char>>, Refusal> {
    match first_opening(pieces, name) {
        Some(i) => value_in(pieces[i].tag, attribute),
        None => Ok(None),
    }
}

/// The value of `attribute` on the first element of `xml` whose local name
/// is `name`.
pub open spec fn attribute_in(xml: Seq<char>, name: Seq<char>, attribute: Seq<char>) -> Result<
    Option<Seq<char>>,
    Refusal,
> {
    attribute_among(pieces_in(xml), name, attribute)
}

/// Names and values.
pub open spec fn pairs(properties: Seq<(String, String)>) -> Seq<(Seq<char>, Seq<char>)> {
    properties.map_values(|p: (String, String)| (p.0@, p.1@))
}

/// `found` and, where it was read, what follows.
pub open spec fn joined(
    found: Seq<(Seq<char>, Seq<char>)>,
    more: Result<Seq<(Seq<char>, Seq<char>)>, Refusal>,
) -> Result<Seq<(Seq<char>, Seq<char>)>, Refusal> {
    match more {
        Ok(more) => Ok(found + more),
        Err(e) => Err(e),
    }
}

/// The first of `pieces` that closes an element.
pub open spec fn first_end(pieces: Seq<Piece>) -> Option<int>
    decreases pieces.len(),
{
    if pieces.len() == 0 {
        None
    } else if begins(pieces[0].tag, '/') {
        Some(0)
    } else {
        further(1, first_end(pieces.drop_first()))
    }
}

/// The text of the property that the first of `pieces` opens: its content,
/// or where no tag closes it, all that stands before the next that closes an
/// element.
pub open spec fn property_text(pieces: Seq<Piece>) -> Option<Seq<char>> {
    match content_of(pieces, "Property"@) {
        Some(content) => Some(content),
        None => match first_end(pieces.drop_first()) {
            Some(end) => Some(pieces[0].text + render(pieces.drop_first().take(end))),
            None => None,
        },
    }
}

/// What one tag is to a reader of properties.
pub enum Yield {
    /// No property.
    Nothing,
    /// A property that nothing closes: there is no more to read.
    End,
    /// A property, its name and its text.
    Pair(Seq<char>, Seq<char>),
}

/// What the first of `pieces` is to a reader of properties: a property where
/// it opens one that is not empty and has a `name`.
pub open spec fn property_of(pieces: Seq<Piece>) -> Result<Yield, Refusal> {
    let tag = pieces[0].tag;
    if !opens(tag, "Property"@) || is_empty_tag(tag) {
        Ok(Yield::Nothing)
    } else {
        match value_in(tag, "name"@) {
            Ok(Some(name)) => match read_some(property_text(pieces)) {
                Ok(Some(value)) => Ok(Yield::Pair(name, value)),
                Ok(None) => Ok(Yield::End),
                Err(e) => Err(e),
            },
            Ok(None) => Ok(Yield::Nothing),
            Err(e) => Err(e),
        }
    }
}

/// Every property among `pieces`, in order.
pub open spec fn properties_among(pieces: Seq<Piece>) -> Result<
    Seq<(Seq<char>, Seq<char>)>,
    Refusal,
>
    decreases pieces.len(),
{
    if pieces.len() == 0 {
        Ok(Seq::empty())
    } else {
        match property_of(pieces) {
            Ok(Yield::Nothing) => properties_among(pieces.drop_first()),
            Ok(Yield::End) => Ok(Seq::empty()),
            Ok(Yield::Pair(name, value)) => joined(
                seq![(name, value)],
                properties_among(pieces.drop_first()),
            ),
            Err(e) => Err(e),
        }
    }
}

/// Every `Property` element of `xml` that is not empty and has a `name`: the
/// name and the text, in order.
pub open spec fn properties_in(xml: Seq<char>) -> Result<Seq<(Seq<char>, Seq<char>)>, Refusal> {
    properties_among(pieces_in(xml))
}

/// A qualified name without its prefix.
fn without_prefix(qualified: &[char]) -> (local: &[char])
    ensures
        local@ == unprefixed(qualified@),
{
    proof {
        reveal_strlit(":");
    }
    match rfind_word_in(qualified, chars_of(":").as_slice()) {
        Some(colon) => after(qualified, colon + 1),
        None => qualified,
    }
}

/// The local name of the element `open` opens, whatever its prefix.
pub fn local_name(open: &[char]) -> (local: &[char])
    ensures
        local@ == local_name_of(open@),
{
    for i in 0..open.len()
        invariant
            forall|j: int| 0 <= j < i ==> !ends_open_name()(#[trigger] open@[j]),
    {
        let c = open[i];
        if whitespace(c) || c == '/' {
            proof {
                lemma_span_is(open@, ends_open_name(), i as int);
            }
            return without_prefix(before(open, i));
        }
    }
    proof {
        lemma_span_is(open@, ends_open_name(), open@.len() as int);
        assert(open@.take(open@.len() as int) =~= open@);
    }
    without_prefix(open)
}

/// Whether a tag ends in `/`.
fn ends_in_slash(open: &[char]) -> (b: bool)
    ensures
        b == is_empty_tag(open@),
{
    open.len() > 0 && open[open.len() - 1] == '/'
}

/// Whether `tag` opens an element whose local name is `name`.
fn is_opening(tag: &[char], name: &[char]) -> (b: bool)
    ensures
        b == opens(tag@, name@),
{
    if tag.len() > 0 && (tag[0] == '/' || tag[0] == '!' || tag[0] == '?') {
        return false;
    }
    same(local_name(tag), name)
}

/// Whether `tag` closes an element whose local name is `name`.
fn is_closing(tag: &[char], name: &[char]) -> (b: bool)
    ensures
        b == closes(tag@, name@),
{
    tag.len() > 0 && tag[0] == '/' && same(local_name(after(tag, 1)), name)
}

/// The tag at `mark`.
fn tag_at<'a>(xml: &'a [char], mark: &Mark) -> (tag: &'a [char])
    requires
        mark.open < mark.close < xml@.len(),
    ensures
        tag@ == xml@.subrange(mark.open + 1, mark.close as int),
{
    slice_subrange(xml, mark.open + 1, mark.close)
}

/// The first tag that opens an element `name`.
fn opening(xml: &[char], marks: &Vec<Mark>, name: &[char]) -> (r: Option<usize>)
    requires
        marked(xml@, marks@, pieces_in(xml@)),
    ensures
        match first_opening(pieces_in(xml@), name@) {
            Some(i) => r matches Some(n) && n == i && n < marks@.len(),
            None => r is None,
        },
{
    let ghost pieces = pieces_in(xml@);
    assert(pieces.skip(0) =~= pieces);
    for i in 0..marks.len()
        invariant
            pieces == pieces_in(xml@),
            marked(xml@, marks@, pieces),
            first_opening(pieces, name@) == further(
                i as int,
                first_opening(pieces.skip(i as int), name@),
            ),
    {
        proof {
            assert(pieces.skip(i as int)[0] == pieces[i as int]);
            assert(pieces.skip(i as int).drop_first() =~= pieces.skip(i + 1));
        }
        if is_opening(tag_at(xml, &marks[i]), name) {
            return Some(i);
        }
    }
    None
}

/// The tag that closes the element `name` that tag `at` opens.
fn closing(xml: &[char], marks: &Vec<Mark>, name: &[char], at: usize) -> (r: Option<usize>)
    requires
        marked(xml@, marks@, pieces_in(xml@)),
        at < marks@.len(),
    ensures
        match end_in(pieces_in(xml@).skip(at as int).drop_first(), name@, 0) {
            Some(i) => r matches Some(n) && n == at + 1 + i && at < n < marks@.len(),
            None => r is None,
        },
{
    let ghost pieces = pieces_in(xml@);
    let ghost inner = pieces.skip(at as int).drop_first();
    assert(inner =~= pieces.skip(at + 1));
    let mut depth: usize = 0;
    for i in at + 1..marks.len()
        invariant
            pieces == pieces_in(xml@),
            marked(xml@, marks@, pieces),
            inner == pieces.skip(at as int).drop_first(),
            at < i,
            depth <= i,
            end_in(inner, name@, 0) == further(
                i - at - 1,
                end_in(pieces.skip(i as int), name@, depth as nat),
            ),
    {
        proof {
            assert(pieces.skip(i as int)[0] == pieces[i as int]);
            assert(pieces.skip(i as int).drop_first() =~= pieces.skip(i + 1));
        }
        let tag = tag_at(xml, &marks[i]);
        if is_closing(tag, name) {
            if depth == 0 {
                return Some(i);
            }
            depth = depth - 1;
        } else if is_opening(tag, name) && !ends_in_slash(tag) {
            depth = depth + 1;
        }
    }
    None
}

/// Where the content of the element `name` lies that tag `at` opens.
fn content_span(xml: &[char], marks: &Vec<Mark>, name: &[char], at: usize) -> (r: Option<
    (usize, usize),
>)
    requires
        marked(xml@, marks@, pieces_in(xml@)),
        at < marks@.len(),
    ensures
        match content_of(pieces_in(xml@).skip(at as int), name@) {
            Some(content) => r matches Some((a, b)) && a <= b <= xml@.len() && xml@.subrange(
                a as int,
                b as int,
            ) == content,
            None => r is None,
        },
{
    let ghost pieces = pieces_in(xml@);
    assert(pieces.skip(at as int)[0] == pieces[at as int]);
    if ends_in_slash(tag_at(xml, &marks[at])) {
        return None;
    }
    match closing(xml, marks, name, at) {
        Some(end) => {
            proof {
                lemma_between(xml@, marks@, pieces, at as int, end as int);
                assert(pieces.skip(at as int).drop_first().take(end - at - 1)
                    =~= pieces.subrange(at + 1, end as int));
            }
            Some((marks[at].close + 1, marks[end].open))
        },
        None => None,
    }
}

/// Where the content of the first element lies whose local name is `name`.
fn element_span(xml: &[char], name: &[char]) -> (r: Option<(usize, usize)>)
    ensures
        match element_in(xml@, name@) {
            Some(content) => r matches Some((a, b)) && a <= b <= xml@.len() && xml@.subrange(
                a as int,
                b as int,
            ) == content,
            None => r is None,
        },
{
    let marks = marks_of(xml);
    match opening(xml, &marks, name) {
        Some(at) => content_span(xml, &marks, name, at),
        None => None,
    }
}

/// Whether an element whose local name is `name` is in `xml`, empty or not.
pub fn has_element(xml: &[char], name: &str) -> (b: bool)
    ensures
        b == holds_element(xml@, name@),
{
    let sought = chars_of(name);
    let marks = marks_of(xml);
    match opening(xml, &marks, sought.as_slice()) {
        Some(at) => {
            ends_in_slash(tag_at(xml, &marks[at])) || content_span(
                xml,
                &marks,
                sought.as_slice(),
                at,
            ).is_some()
        },
        None => false,
    }
}

/// The content of the first element of `xml` whose local name is `name`.
pub fn element_chars<'a>(xml: &'a [char], name: &str) -> (r: Option<&'a [char]>)
    ensures
        match element_in(xml@, name@) {
            Some(content) => r matches Some(c) && c@ == content,
            None => r is None,
        },
{
    match element_span(xml, chars_of(name).as_slice()) {
        Some((a, b)) => Some(vstd::slice::slice_subrange(xml, a, b)),
        None => None,
    }
}

/// The content of the first element whose local name is `name`, whatever
/// its prefix, or `None` where there is none or it is empty (`<x/>`).
#[must_use]
pub fn element<'a>(xml: &'a str, name: &str) -> (r: Option<&'a str>)
    ensures
        match element_in(xml@, name@) {
            Some(content) => r matches Some(c) && c@ == content,
            None => r is None,
        },
{
    match element_span(chars_of(xml).as_slice(), chars_of(name).as_slice()) {
        Some((a, b)) => Some(xml.substring_char(a, b)),
        None => None,
    }
}

/// The text an optional raw value writes.
fn unescaped_some(raw: Option<&[char]>) -> (r: Result<Option<String>, TransportError>)
    ensures
        match read_some(
            match raw {
                Some(s) => Some(s@),
                None => None,
            },
        ) {
            Ok(Some(value)) => r matches Ok(Some(v)) && v@ == value,
            Ok(None) => r matches Ok(None),
            Err(refusal) => r matches Err(e) && e@ == refusal,
        },
{
    match raw {
        Some(s) => match unescape_chars(s) {
            Ok(text) => Ok(Some(text)),
            Err(e) => Err(e),
        },
        None => Ok(None),
    }
}

/// The value of `attribute` in the open tag `open`, unescaped.
///
/// # Errors
/// Where the value holds an entity XML does not define.
pub fn value_of(open: &[char], attribute: &str) -> (r: Result<Option<String>, TransportError>)
    ensures
        match value_in(open@, attribute@) {
            Ok(Some(value)) => r matches Ok(Some(v)) && v@ == value,
            Ok(None) => r matches Ok(None),
            Err(refusal) => r matches Err(e) && e@ == refusal,
        },
{
    unescaped_some(raw_value(open, chars_of(attribute).as_slice()))
}

/// The value of `attribute` on the first element of `xml` whose local name
/// is `name`.
///
/// # Errors
/// Where the value holds an entity XML does not define.
pub fn attribute_chars(xml: &[char], name: &str, attribute: &str) -> (r: Result<
    Option<String>,
    TransportError,
>)
    ensures
        match attribute_in(xml@, name@, attribute@) {
            Ok(Some(value)) => r matches Ok(Some(v)) && v@ == value,
            Ok(None) => r matches Ok(None),
            Err(refusal) => r matches Err(e) && e@ == refusal,
        },
{
    let marks = marks_of(xml);
    match opening(xml, &marks, chars_of(name).as_slice()) {
        Some(at) => value_of(tag_at(xml, &marks[at]), attribute),
        None => Ok(None),
    }
}

/// The value of the attribute `key` on the first element whose local name is
/// `name`.
///
/// # Errors
/// Where the value holds an entity XML does not define.
pub fn attribute(xml: &str, name: &str, key: &str) -> (r: Result<
    Option<String>,
    TransportError,
>)
    ensures
        match attribute_in(xml@, name@, key@) {
            Ok(Some(value)) => r matches Ok(Some(v)) && v@ == value,
            Ok(None) => r matches Ok(None),
            Err(refusal) => r matches Err(e) && e@ == refusal,
        },
{
    attribute_chars(chars_of(xml).as_slice(), name, key)
}

/// The first tag after `at` that closes an element.
fn next_end(xml: &[char], marks: &Vec<Mark>, at: usize) -> (r: Option<usize>)
    requires
        marked(xml@, marks@, pieces_in(xml@)),
        at < marks@.len(),
    ensures
        match first_end(pieces_in(xml@).skip(at as int).drop_first()) {
            Some(i) => r matches Some(n) && n == at + 1 + i && at < n < marks@.len(),
            None => r is None,
        },
{
    let ghost pieces = pieces_in(xml@);
    let ghost inner = pieces.skip(at as int).drop_first();
    assert(inner =~= pieces.skip(at + 1));
    for i in at + 1..marks.len()
        invariant
            pieces == pieces_in(xml@),
            marked(xml@, marks@, pieces),
            inner == pieces.skip(at as int).drop_first(),
            at < i,
            first_end(inner) == further(i - at - 1, first_end(pieces.skip(i as int))),
    {
        proof {
            assert(pieces.skip(i as int)[0] == pieces[i as int]);
            assert(pieces.skip(i as int).drop_first() =~= pieces.skip(i + 1));
        }
        let tag = tag_at(xml, &marks[i]);
        if tag.len() > 0 && tag[0] == '/' {
            return Some(i);
        }
    }
    None
}

/// Where the text of the property lies that tag `at` opens.
fn property_span(xml: &[char], marks: &Vec<Mark>, at: usize) -> (r: Option<(usize, usize)>)
    requires
        marked(xml@, marks@, pieces_in(xml@)),
        at < marks@.len(),
    ensures
        match property_text(pieces_in(xml@).skip(at as int)) {
            Some(text) => r matches Some((a, b)) && a <= b <= xml@.len() && xml@.subrange(
                a as int,
                b as int,
            ) == text,
            None => r is None,
        },
{
    if let Some(span) = content_span(xml, marks, chars_of("Property").as_slice(), at) {
        return Some(span);
    }
    let ghost pieces = pieces_in(xml@);
    assert(pieces.skip(at as int)[0] == pieces[at as int]);
    match next_end(xml, marks, at) {
        Some(end) => {
            proof {
                lemma_between(xml@, marks@, pieces, at as int, end as int);
                assert(pieces.skip(at as int).drop_first().take(end - at - 1)
                    =~= pieces.subrange(at + 1, end as int));
            }
            Some((marks[at].close + 1, marks[end].open))
        },
        None => None,
    }
}

/// What one tag turned out to be.
enum Found {
    Nothing,
    End,
    Pair(String, String),
}

/// What tag `at` is to a reader of properties.
fn property(xml: &[char], marks: &Vec<Mark>, at: usize) -> (r: Result<Found, TransportError>)
    requires
        marked(xml@, marks@, pieces_in(xml@)),
        at < marks@.len(),
    ensures
        match property_of(pieces_in(xml@).skip(at as int)) {
            Ok(Yield::Nothing) => r matches Ok(Found::Nothing),
            Ok(Yield::End) => r matches Ok(Found::End),
            Ok(Yield::Pair(name, value)) => r matches Ok(Found::Pair(n, v)) && n@ == name && v@
                == value,
            Err(refusal) => r matches Err(e) && e@ == refusal,
        },
{
    let tag = tag_at(xml, &marks[at]);
    assert(pieces_in(xml@).skip(at as int)[0].tag == tag@);
    if !is_opening(tag, chars_of("Property").as_slice()) || ends_in_slash(tag) {
        return Ok(Found::Nothing);
    }
    let name = match value_of(tag, "name") {
        Ok(Some(name)) => name,
        Ok(None) => return Ok(Found::Nothing),
        Err(e) => return Err(e),
    };
    let raw = match property_span(xml, marks, at) {
        Some((a, b)) => Some(slice_subrange(xml, a, b)),
        None => None,
    };
    match unescaped_some(raw) {
        Ok(Some(value)) => Ok(Found::Pair(name, value)),
        Ok(None) => Ok(Found::End),
        Err(e) => Err(e),
    }
}

/// Every `Property` element in `xml`, its `name` attribute and its text, in
/// order; one that is empty (`<x/>`) or unnamed is passed over.
///
/// # Errors
/// Where a name or a text holds an entity XML does not define.
pub fn properties_chars(xml: &[char]) -> (r: Result<Vec<(String, String)>, TransportError>)
    ensures
        match properties_in(xml@) {
            Ok(properties) => r matches Ok(v) && pairs(v@) == properties,
            Err(refusal) => r matches Err(e) && e@ == refusal,
        },
{
    let marks = marks_of(xml);
    let ghost pieces = pieces_in(xml@);
    let mut found: Vec<(String, String)> = Vec::new();
    proof {
        assert(pieces.skip(0) =~= pieces);
        lemma_joined_empty(pairs(found@), properties_in(xml@));
    }
    for i in 0..marks.len()
        invariant
            pieces == pieces_in(xml@),
            marked(xml@, marks@, pieces),
            properties_in(xml@) == joined(
                pairs(found@),
                properties_among(pieces.skip(i as int)),
            ),
    {
        proof {
            assert(pieces.skip(i as int).drop_first() =~= pieces.skip(i + 1));
        }
        proof {
            lemma_joined_nothing(pairs(found@));
        }
        match property(xml, &marks, i) {
            Ok(Found::Nothing) => {},
            Ok(Found::End) => return Ok(found),
            Ok(Found::Pair(name, value)) => {
                let ghost earlier = found@;
                found.push((name, value));
                proof {
                    assert(pairs(found@) =~= pairs(earlier) + seq![(name@, value@)]);
                    lemma_joined(
                        pairs(earlier),
                        seq![(name@, value@)],
                        properties_among(pieces.skip(i + 1)),
                    );
                }
            },
            Err(e) => return Err(e),
        }
    }
    proof {
        lemma_joined_nothing(pairs(found@));
    }
    Ok(found)
}

/// Every `Property` element in `xml`, its `name` attribute and its text, in
/// order; one that is empty (`<x/>`) or unnamed is passed over.
///
/// # Errors
/// Where a name or a text holds an entity XML does not define.
pub fn properties(xml: &str) -> (r: Result<Vec<(String, String)>, TransportError>)
    ensures
        match properties_in(xml@) {
            Ok(properties) => r matches Ok(v) && pairs(v@) == properties,
            Err(refusal) => r matches Err(e) && e@ == refusal,
        },
{
    properties_chars(chars_of(xml).as_slice())
}

proof fn lemma_joined_empty(
    found: Seq<(Seq<char>, Seq<char>)>,
    more: Result<Seq<(Seq<char>, Seq<char>)>, Refusal>,
)
    requires
        found.len() == 0,
    ensures
        joined(found, more) == more,
{
    if let Ok(m) = more {
        assert(found + m =~= m);
    }
}

proof fn lemma_joined_nothing(found: Seq<(Seq<char>, Seq<char>)>)
    ensures
        joined(found, Ok(Seq::empty())) == Ok::<Seq<(Seq<char>, Seq<char>)>, Refusal>(found),
{
    assert(found + Seq::<(Seq<char>, Seq<char>)>::empty() =~= found);
}

pub proof fn lemma_joined(
    a: Seq<(Seq<char>, Seq<char>)>,
    b: Seq<(Seq<char>, Seq<char>)>,
    more: Result<Seq<(Seq<char>, Seq<char>)>, Refusal>,
)
    ensures
        joined(a, joined(b, more)) == joined(a + b, more),
{
    if let Ok(m) = more {
        assert(a + (b + m) =~= a + b + m);
    }
}

} // verus!
