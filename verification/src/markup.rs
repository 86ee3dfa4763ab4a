//! XML as a run of tags, each with the text that follows it, and the
//! attributes a tag has.

use vstd::prelude::*;

use crate::text::{after, before, begins_with, chars_of, find_char_in, find_word_in, same};

#[allow(unused_imports)]
use crate::text::{
    find_char, find_word, first_where, is_char, lemma_first_where, lemma_first_where_found,
    lemma_no_first_where, starts_with,
};

verus! {

/// What stands between `<` and `>`, and the text up to the next `<`.
#[verifier::ext_equal]
pub struct Piece {
    pub tag: Seq<char>,
    pub text: Seq<char>,
}

/// `pieces` as written.
pub open spec fn render(pieces: Seq<Piece>) -> Seq<char>
    decreases pieces.len(),
{
    if pieces.len() == 0 {
        Seq::empty()
    } else {
        seq!['<'] + pieces[0].tag + seq!['>'] + pieces[0].text + render(pieces.drop_first())
    }
}

/// White space in a tag.
pub open spec fn is_white(c: char) -> bool {
    c == ' ' || c == '\t' || c == '\r' || c == '\n'
}

/// A white character.
pub open spec fn white() -> spec_fn(char) -> bool {
    |c: char| is_white(c)
}

/// A character that is not white.
pub open spec fn solid() -> spec_fn(char) -> bool {
    |c: char| !is_white(c)
}

/// What ends the name of an attribute.
pub open spec fn ends_key() -> spec_fn(char) -> bool {
    |c: char| is_white(c) || c == '='
}

/// What a value stands between.
pub open spec fn is_quote(c: char) -> bool {
    c == '"' || c == '\''
}

/// How much of `s` stands before the first character that satisfies `p`; all
/// of it where none does.
pub open spec fn span(s: Seq<char>, p: spec_fn(char) -> bool) -> int {
    match first_where(s, p) {
        Some(end) => end,
        None => s.len() as int,
    }
}

/// `s` before the first character that satisfies `p`; all of it where none does.
pub open spec fn until(s: Seq<char>, p: spec_fn(char) -> bool) -> Seq<char> {
    s.take(span(s, p))
}

/// `s` from the first character that satisfies `p`; nothing where none does.
pub open spec fn from(s: Seq<char>, p: spec_fn(char) -> bool) -> Seq<char> {
    s.skip(span(s, p))
}

/// `n` further on.
pub open spec fn further(n: int, at: Option<int>) -> Option<int> {
    match at {
        Some(i) => Some(n + i),
        None => None,
    }
}

/// Where the first `>` of `s` stands that is in no quotes, where no `<`
/// stands before it; `quote` is what was opened before `s`.
pub open spec fn unquoted_end(s: Seq<char>, quote: Option<char>) -> Option<int>
    decreases s.len(),
{
    if s.len() == 0 || s[0] == '<' {
        None
    } else {
        match quote {
            Some(q) => further(
                1,
                unquoted_end(
                    s.drop_first(),
                    if s[0] == q {
                        None
                    } else {
                        quote
                    },
                ),
            ),
            None => if s[0] == '>' {
                Some(0)
            } else {
                further(
                    1,
                    unquoted_end(
                        s.drop_first(),
                        if is_quote(s[0]) {
                            Some(s[0])
                        } else {
                            None
                        },
                    ),
                )
            },
        }
    }
}

/// Where the `>` stands that ends the tag that begins with `<` and `s`: the
/// first that is in no quotes. Where quotes are left open, so that there is
/// none before the next `<`, it is the first there is.
pub open spec fn tag_end(s: Seq<char>) -> Option<int> {
    match unquoted_end(s, None) {
        Some(end) => Some(end),
        None => find_char(s, '>'),
    }
}

/// Where the `>` stands that ends what begins with `<` and `s`: a comment, a
/// CDATA section or a processing instruction ends as such, anything else as a
/// tag.
pub open spec fn markup_end(s: Seq<char>) -> Option<int> {
    if starts_with(s, "!--"@) {
        further(5, find_word(s.skip(3), "-->"@))
    } else if starts_with(s, "![CDATA["@) {
        further(10, find_word(s.skip(8), "]]>"@))
    } else if starts_with(s, "?"@) {
        further(2, find_word(s.skip(1), "?>"@))
    } else {
        tag_end(s)
    }
}

pub proof fn lemma_span(s: Seq<char>, p: spec_fn(char) -> bool)
    ensures
        0 <= span(s, p) <= s.len(),
        span(s, p) < s.len() ==> p(s[span(s, p)]),
        forall|j: int| 0 <= j < span(s, p) ==> !p(#[trigger] s[j]),
{
    lemma_first_where_found(s, p);
    if first_where(s, p) is None {
        assert forall|j: int| 0 <= j < s.len() implies !p(#[trigger] s[j]) by {
            if p(s[j]) {
                lemma_some_first_where(s, p, j);
            }
        }
    }
}

/// How much stands before the first character that satisfies `p`.
pub proof fn lemma_span_is(s: Seq<char>, p: spec_fn(char) -> bool, n: int)
    requires
        0 <= n <= s.len(),
        n < s.len() ==> p(s[n]),
        forall|j: int| 0 <= j < n ==> !p(#[trigger] s[j]),
    ensures
        span(s, p) == n,
{
    if n < s.len() {
        lemma_first_where(s, p, n);
    } else {
        lemma_no_first_where(s, p);
    }
}

/// Where `p` holds somewhere, it holds somewhere first.
pub proof fn lemma_some_first_where(s: Seq<char>, p: spec_fn(char) -> bool, k: int)
    requires
        0 <= k < s.len(),
        p(s[k]),
    ensures
        first_where(s, p) is Some,
    decreases k,
{
    if forall|j: int| 0 <= j < k ==> !p(#[trigger] s[j]) {
        lemma_first_where(s, p, k);
    } else {
        let j = choose|j: int| 0 <= j < k && p(#[trigger] s[j]);
        lemma_some_first_where(s, p, j);
    }
}

/// An end that is found is one.
pub proof fn lemma_unquoted_end(s: Seq<char>, quote: Option<char>)
    ensures
        unquoted_end(s, quote) matches Some(i) ==> 0 <= i < s.len() && s[i] == '>',
    decreases s.len(),
{
    if s.len() > 0 {
        lemma_unquoted_end(s.drop_first(), Some(s[0]));
        lemma_unquoted_end(s.drop_first(), quote);
        lemma_unquoted_end(s.drop_first(), None);
    }
}

/// The end of what begins with `<` and `s` is a `>` in `s`.
pub proof fn lemma_markup_end(s: Seq<char>)
    ensures
        markup_end(s) matches Some(i) ==> 0 <= i < s.len() && s[i] == '>',
{
    lemma_unquoted_end(s, None);
    lemma_first_where_found(s, is_char('>'));
    reveal_strlit("!--");
    reveal_strlit("![CDATA[");
    reveal_strlit("?");
    reveal_strlit("-->");
    reveal_strlit("]]>");
    reveal_strlit("?>");
    lemma_word_end(s, 3, "-->"@);
    lemma_word_end(s, 8, "]]>"@);
    lemma_word_end(s, 1, "?>"@);
}

/// A word that is found ends in its last character.
proof fn lemma_word_end(s: Seq<char>, n: int, word: Seq<char>)
    requires
        0 <= n,
        word.len() > 0,
    ensures
        n <= s.len() ==> (find_word(s.skip(n), word) matches Some(i) ==> 0 <= i && n + i
            + word.len() <= s.len() && s[n + i + word.len() - 1] == word.last()),
{
    if n <= s.len() {
        let t = s.skip(n);
        crate::text::lemma_find_word_found(t, word);
        if let Some(i) = find_word(t, word) {
            assert(t.subrange(i, i + word.len())[word.len() - 1] == t[i + word.len() - 1]);
        }
    }
}

/// The tags of `xml`, each with the text that follows it. What begins with
/// `<` and does not end is none.
pub open spec fn pieces_in(xml: Seq<char>) -> Seq<Piece>
    decreases xml.len(),
{
    match find_char(xml, '<') {
        Some(start) => {
            let tag = xml.skip(start + 1);
            proof {
                lemma_first_where_found(xml, is_char('<'));
                lemma_markup_end(tag);
            }
            match markup_end(tag) {
                Some(end) => {
                    let rest = tag.skip(end + 1);
                    seq![Piece { tag: tag.take(end), text: until(rest, is_char('<')) }]
                        + pieces_in(rest)
                },
                None => Seq::empty(),
            }
        },
        None => Seq::empty(),
    }
}

/// What the first thing after white space is to a reader of attributes, and
/// what is left to read.
pub enum Step {
    /// There is no more.
    Done,
    /// No attribute.
    Past(Seq<char>),
    /// An attribute: its name, and what stands in the quotes after its `=`.
    Pair(Seq<char>, Seq<char>, Seq<char>),
}

/// What the first thing after white space in `s` is to a reader of
/// attributes.
pub open spec fn step(s: Seq<char>) -> Step {
    let at = from(from(s, white()), solid());
    let name = until(at, ends_key());
    let rest = from(at, ends_key());
    let equals = from(rest, solid());
    if at.len() == 0 {
        Step::Done
    } else if equals.len() > 0 && equals[0] == '=' {
        let value = from(equals.skip(1), solid());
        if value.len() > 0 && is_quote(value[0]) {
            match find_char(value.skip(1), value[0]) {
                Some(end) => Step::Pair(name, value.subrange(1, end + 1), value.skip(end + 2)),
                None => Step::Done,
            }
        } else {
            Step::Past(value)
        }
    } else {
        Step::Past(rest)
    }
}

/// Every step leaves less to read.
pub proof fn lemma_step(s: Seq<char>)
    ensures
        match step(s) {
            Step::Done => true,
            Step::Past(rest) => rest.len() < s.len(),
            Step::Pair(_, _, rest) => rest.len() < s.len(),
        },
{
    let at = from(from(s, white()), solid());
    let rest = from(at, ends_key());
    let equals = from(rest, solid());
    lemma_span(s, white());
    lemma_span(from(s, white()), solid());
    lemma_span(at, ends_key());
    lemma_span(rest, solid());
    if at.len() > 0 {
        assert(!is_white(at[0])) by {
            let spaced = from(s, white());
            assert(at[0] == spaced[span(spaced, solid())]);
        }
        if equals.len() > 0 && equals[0] == '=' {
            let value = from(equals.skip(1), solid());
            lemma_span(equals.skip(1), solid());
            if value.len() > 0 {
                lemma_first_where_found(value.skip(1), is_char(value[0]));
            }
        } else if at[0] == '=' {
            assert(span(at, ends_key()) == 0) by {
                lemma_span_is(at, ends_key(), 0);
            }
            assert(rest =~= at);
            lemma_span_is(rest, solid(), 0);
            assert(equals =~= rest);
        }
    }
}

/// The attributes in `s`, each after white space, in order. What is no
/// attribute is passed over.
pub open spec fn attributes_in(s: Seq<char>) -> Seq<(Seq<char>, Seq<char>)>
    decreases s.len(),
{
    proof {
        lemma_step(s);
    }
    match step(s) {
        Step::Done => Seq::empty(),
        Step::Past(rest) => attributes_in(rest),
        Step::Pair(name, value, rest) => seq![(name, value)] + attributes_in(rest),
    }
}

/// The value of the first attribute named `key`.
pub open spec fn first_named(
    attributes: Seq<(Seq<char>, Seq<char>)>,
    key: Seq<char>,
) -> Option<Seq<char>>
    decreases attributes.len(),
{
    if attributes.len() == 0 {
        None
    } else if attributes[0].0 == key {
        Some(attributes[0].1)
    } else {
        first_named(attributes.drop_first(), key)
    }
}

/// How much of `s` stands before its first white character.
fn white_at(s: &[char]) -> (n: usize)
    ensures
        n == span(s@, white()),
        n <= s@.len() <= usize::MAX,
{
    for i in 0..s.len()
        invariant
            forall|j: int| 0 <= j < i ==> !white()(#[trigger] s@[j]),
    {
        if whitespace(s[i]) {
            proof {
                lemma_span_is(s@, white(), i as int);
            }
            return i;
        }
    }
    proof {
        lemma_span_is(s@, white(), s@.len() as int);
    }
    s.len()
}

/// How much of `s` stands before its first character that is not white.
fn solid_at(s: &[char]) -> (n: usize)
    ensures
        n == span(s@, solid()),
        n <= s@.len() <= usize::MAX,
{
    for i in 0..s.len()
        invariant
            forall|j: int| 0 <= j < i ==> !solid()(#[trigger] s@[j]),
    {
        if !whitespace(s[i]) {
            proof {
                lemma_span_is(s@, solid(), i as int);
            }
            return i;
        }
    }
    proof {
        lemma_span_is(s@, solid(), s@.len() as int);
    }
    s.len()
}

/// How much of `s` the name of an attribute is.
fn key_end(s: &[char]) -> (n: usize)
    ensures
        n == span(s@, ends_key()),
        n <= s@.len() <= usize::MAX,
{
    for i in 0..s.len()
        invariant
            forall|j: int| 0 <= j < i ==> !ends_key()(#[trigger] s@[j]),
    {
        let c = s[i];
        if whitespace(c) || c == '=' {
            proof {
                lemma_span_is(s@, ends_key(), i as int);
            }
            return i;
        }
    }
    proof {
        lemma_span_is(s@, ends_key(), s@.len() as int);
    }
    s.len()
}

/// Whether `c` is white space in a tag.
pub fn whitespace(c: char) -> (b: bool)
    ensures
        b == is_white(c),
{
    c == ' ' || c == '\t' || c == '\r' || c == '\n'
}

/// What was come upon.
enum Stepped<'a> {
    Done,
    Past(&'a [char]),
    Pair(&'a [char], &'a [char], &'a [char]),
}

/// What the first thing after white space in `s` is.
fn stepped<'a>(s: &'a [char]) -> (r: Stepped<'a>)
    ensures
        match step(s@) {
            Step::Done => r is Done,
            Step::Past(rest) => r matches Stepped::Past(m) && m@ == rest,
            Step::Pair(name, value, rest) => r matches Stepped::Pair(n, v, m) && n@ == name && v@
                == value && m@ == rest,
        },
{
    let spaced = after(s, white_at(s));
    let at = after(spaced, solid_at(spaced));
    if at.len() == 0 {
        return Stepped::Done;
    }
    let end = key_end(at);
    let name = before(at, end);
    let rest = after(at, end);
    let equals = after(rest, solid_at(rest));
    if equals.len() == 0 || equals[0] != '=' {
        return Stepped::Past(rest);
    }
    let behind = after(equals, 1);
    let value = after(behind, solid_at(behind));
    if value.len() == 0 || !(value[0] == '"' || value[0] == '\'') {
        return Stepped::Past(value);
    }
    let inside = after(value, 1);
    match find_char_in(inside, value[0]) {
        Some(close) => {
            let text = before(inside, close);
            let more = after(inside, close + 1);
            proof {
                assert(text@ =~= value@.subrange(1, close + 1));
                assert(more@ =~= value@.skip(close + 2));
            }
            Stepped::Pair(name, text, more)
        },
        None => Stepped::Done,
    }
}

/// What stands in the quotes of the attribute `key` of `tag`, where it has
/// one.
pub fn raw_value<'a>(tag: &'a [char], key: &[char]) -> (r: Option<&'a [char]>)
    ensures
        match first_named(attributes_in(tag@), key@) {
            Some(value) => r matches Some(v) && v@ == value,
            None => r is None,
        },
{
    let mut s: &'a [char] = tag;
    loop
        invariant
            first_named(attributes_in(tag@), key@) == first_named(attributes_in(s@), key@),
        decreases s@.len(),
    {
        proof {
            lemma_step(s@);
        }
        match stepped(s) {
            Stepped::Done => return None,
            Stepped::Past(rest) => {
                s = rest;
            },
            Stepped::Pair(name, value, rest) => {
                proof {
                    let all = attributes_in(s@);
                    assert(all[0] == (name@, value@));
                    assert(all.drop_first() =~= attributes_in(rest@));
                }
                if same(name, key) {
                    return Some(value);
                }
                s = rest;
            },
        }
    }
}

/// Where the first `>` of `s` stands that is in no quotes, where no `<`
/// stands before it.
fn unquoted_at(s: &[char]) -> (r: Option<usize>)
    ensures
        match unquoted_end(s@, None) {
            Some(i) => r matches Some(n) && n == i && n < s@.len(),
            None => r is None,
        },
{
    let mut quote: Option<char> = None;
    let mut i: usize = 0;
    proof {
        assert(s@.skip(0) =~= s@);
        lemma_unquoted_end(s@, None);
    }
    while i < s.len()
        invariant
            i <= s@.len(),
            unquoted_end(s@, None) matches Some(e) ==> 0 <= e < s@.len(),
            unquoted_end(s@, None) == further(i as int, unquoted_end(s@.skip(i as int), quote)),
        decreases s@.len() - i,
    {
        let c = s[i];
        proof {
            assert(s@.skip(i as int)[0] == c);
            assert(s@.skip(i as int).drop_first() =~= s@.skip(i + 1));
        }
        if c == '<' {
            return None;
        }
        match quote {
            Some(q) => {
                if c == q {
                    quote = None;
                }
            },
            None => {
                if c == '>' {
                    return Some(i);
                }
                if c == '"' || c == '\'' {
                    quote = Some(c);
                }
            },
        }
        i = i + 1;
    }
    None
}

/// Where the `>` stands that ends what begins with `<` and `s`.
fn markup_ends(s: &[char]) -> (r: Option<usize>)
    ensures
        match markup_end(s@) {
            Some(i) => r matches Some(n) && n == i && n < s@.len(),
            None => r is None,
        },
{
    proof {
        lemma_markup_end(s@);
        reveal_strlit("!--");
        reveal_strlit("![CDATA[");
        reveal_strlit("?");
        reveal_strlit("-->");
        reveal_strlit("]]>");
        reveal_strlit("?>");
    }
    if begins_with(s, chars_of("!--").as_slice()) {
        match find_word_in(after(s, 3), chars_of("-->").as_slice()) {
            Some(i) => Some(i + 5),
            None => None,
        }
    } else if begins_with(s, chars_of("![CDATA[").as_slice()) {
        match find_word_in(after(s, 8), chars_of("]]>").as_slice()) {
            Some(i) => Some(i + 10),
            None => None,
        }
    } else if begins_with(s, chars_of("?").as_slice()) {
        match find_word_in(after(s, 1), chars_of("?>").as_slice()) {
            Some(i) => Some(i + 2),
            None => None,
        }
    } else {
        match unquoted_at(s) {
            Some(end) => Some(end),
            None => find_char_in(s, '>'),
        }
    }
}

/// Where a tag stands: its `<` and its `>`.
pub struct Mark {
    pub open: usize,
    pub close: usize,
}

/// `marks` are where `pieces` stand in `xml`.
pub open spec fn marked(xml: Seq<char>, marks: Seq<Mark>, pieces: Seq<Piece>) -> bool {
    &&& marks.len() == pieces.len()
    &&& xml.len() <= usize::MAX
    &&& forall|k: int|
        0 <= k < marks.len() ==> (#[trigger] marks[k]).open < marks[k].close < xml.len()
            && xml[marks[k].open as int] == '<' && xml[marks[k].close as int] == '>'
            && xml.subrange(marks[k].open + 1, marks[k].close as int) == pieces[k].tag
            && marks[k].close + 1 + pieces[k].text.len() <= xml.len() && xml.subrange(
            marks[k].close + 1,
            marks[k].close + 1 + pieces[k].text.len(),
        ) == pieces[k].text
    &&& forall|k: int|
        0 <= k && k + 1 < marks.len() ==> marks[k + 1].open == (#[trigger] marks[k]).close + 1
            + pieces[k].text.len()
}

/// The tags of `xml`.
pub fn marks_of(xml: &[char]) -> (marks: Vec<Mark>)
    ensures
        marked(xml@, marks@, pieces_in(xml@)),
{
    let mut marks: Vec<Mark> = Vec::new();
    let ghost mut done = Seq::<Piece>::empty();
    let mut pos: usize = 0;
    let ghost all = pieces_in(xml@);
    proof {
        assert(xml@.skip(0) =~= xml@);
        assert(done + all =~= all);
    }
    assert(xml@.len() <= usize::MAX) by {
        let n = xml.len();
    }
    loop
        invariant
            pos <= xml@.len() <= usize::MAX,
            all == pieces_in(xml@),
            all == done + pieces_in(xml@.skip(pos as int)),
            marked(xml@, marks@, done),
            marks@.len() > 0 ==> marks@.last().close + 1 == pos && done.last().text == until(
                xml@.skip(pos as int),
                is_char('<'),
            ),
        decreases xml@.len() - pos,
    {
        let rest = after(xml, pos);
        let start = match find_char_in(rest, '<') {
            Some(start) => start,
            None => {
                proof {
                    assert(all =~= done);
                }
                return marks;
            },
        };
        let tag = after(rest, start + 1);
        let end = match markup_ends(tag) {
            Some(end) => end,
            None => {
                proof {
                    assert(all =~= done);
                }
                return marks;
            },
        };
        let open = pos + start;
        let close = open + 1 + end;
        let ghost piece = Piece {
            tag: tag@.take(end as int),
            text: until(tag@.skip(end + 1), is_char('<')),
        };
        let ghost before_marks = marks@;
        let ghost before_done = done;
        proof {
            let next = xml@.skip(close + 1);
            assert(next =~= tag@.skip(end + 1));
            lemma_span(next, is_char('<'));
            assert(pieces_in(rest@) == seq![piece] + pieces_in(next));
            done = before_done.push(piece);
            assert(all =~= done + pieces_in(next));
            assert(xml@.subrange(open + 1, close as int) =~= piece.tag);
            assert(xml@.subrange(close + 1, close + 1 + piece.text.len()) =~= piece.text);
            assert(tag@[end as int] == '>') by {
                lemma_markup_end(tag@);
            }
            assert(xml@[close as int] == '>');
            assert(xml@[open as int] == '<');
        }
        marks.push(Mark { open, close });
        pos = close + 1;
        proof {
            assert forall|k: int| 0 <= k && k + 1 < marks@.len() implies marks@[k + 1].open == (
            #[trigger] marks@[k]).close + 1 + done[k].text.len() by {
                if k + 1 < before_marks.len() {
                    assert(before_marks[k] == marks@[k]);
                    assert(before_marks[k + 1] == marks@[k + 1]);
                } else {
                    assert(marks@[k] == before_marks.last());
                    assert(done[k] == before_done.last());
                    assert(before_done.last().text.len() == start);
                }
            }
        }
    }
}

/// What stands between two tags is the text after the first, and the tags
/// between them.
pub proof fn lemma_between(
    xml: Seq<char>,
    marks: Seq<Mark>,
    pieces: Seq<Piece>,
    i: int,
    j: int,
)
    requires
        marked(xml, marks, pieces),
        0 <= i < j < marks.len(),
    ensures
        marks[i].close < marks[j].open,
        xml.subrange(marks[i].close + 1, marks[j].open as int) == pieces[i].text + render(
            pieces.subrange(i + 1, j),
        ),
    decreases j - i,
{
    if j == i + 1 {
        assert(marks[i + 1].open == marks[i].close + 1 + pieces[i].text.len());
        assert(pieces.subrange(i + 1, j) =~= Seq::<Piece>::empty());
        assert(pieces[i].text + render(Seq::<Piece>::empty()) =~= pieces[i].text);
    } else {
        lemma_between(xml, marks, pieces, i + 1, j);
        let m = marks[i + 1];
        assert(marks[i + 1].open == marks[i].close + 1 + pieces[i].text.len());
        let inner = pieces.subrange(i + 1, j);
        assert(inner[0] == pieces[i + 1]);
        assert(inner.drop_first() =~= pieces.subrange(i + 2, j));
        let tail = pieces[i + 1].text + render(pieces.subrange(i + 2, j));
        assert(render(inner) =~= seq!['<'] + pieces[i + 1].tag + seq!['>'] + tail);
        let a = xml.subrange(marks[i].close + 1, m.open as int);
        assert(a == pieces[i].text);
        let b = xml.subrange(m.open as int, m.close + 1);
        assert(b =~= seq!['<'] + xml.subrange(m.open + 1, m.close as int) + seq!['>']);
        let c = xml.subrange(m.close + 1, marks[j].open as int);
        assert(xml.subrange(marks[i].close + 1, marks[j].open as int) =~= a + (b + c));
        assert(b + c =~= render(inner));
    }
}

} // verus!
