//! XML text: what is escaped on the way out and read back on the way in, and
//! an element in the ebMS namespace around its content.

use vstd::prelude::*;

use crate::error::{protocol_error, TransportError};
use crate::text::{chars_of, find_char_in, same, stands_at};

#[allow(unused_imports)]
use crate::markup::{is_quote, is_white};
#[allow(unused_imports)]
use crate::error::{protocol, Refusal};
#[allow(unused_imports)]
use crate::text::{find_char, is_char, lemma_first_where, lemma_first_where_found, starts_with};

verus! {

/// The prefix the ebMS namespace is written under here.
pub const PREFIX: &'static str = "eb:";

/// `char::from_u32` gives the character a Unicode scalar value numbers, and
/// nothing for a number that is a surrogate or beyond the last one.
pub assume_specification[ char::from_u32 ](n: u32) -> (r: Option<char>)
    ensures
        match r {
            Some(c) => c as u32 == n,
            None => 0xd800 <= n <= 0xdfff || n > 0x10ffff,
        },
;

/// How one character of a text is written.
pub open spec fn escape_char(c: char) -> Seq<char> {
    if c == '&' {
        "&amp;"@
    } else if c == '<' {
        "&lt;"@
    } else if c == '>' {
        "&gt;"@
    } else if c == '"' {
        "&quot;"@
    } else if c == '\'' {
        "&apos;"@
    } else {
        seq![c]
    }
}

/// `s` as text content or an attribute value: each character XML gives a
/// meaning to written as the entity that stands for it.
pub open spec fn escaped(s: Seq<char>) -> Seq<char>
    decreases s.len(),
{
    if s.len() == 0 {
        Seq::empty()
    } else {
        escape_char(s[0]) + escaped(s.drop_first())
    }
}

/// What one digit counts in `base`.
pub open spec fn digit_value(c: char, base: nat) -> Option<nat> {
    if '0' <= c <= '9' {
        Some((c as nat - '0' as nat) as nat)
    } else if base == 16 && 'a' <= c <= 'f' {
        Some((c as nat - 'a' as nat + 10) as nat)
    } else if base == 16 && 'A' <= c <= 'F' {
        Some((c as nat - 'A' as nat + 10) as nat)
    } else {
        None
    }
}

/// The number `s` writes in `base`.
pub open spec fn number(s: Seq<char>, base: nat) -> Option<nat>
    decreases s.len(),
{
    if s.len() == 0 {
        Some(0)
    } else {
        match (number(s.drop_last(), base), digit_value(s.last(), base)) {
            (Some(n), Some(d)) => Some(n * base + d),
            _ => None,
        }
    }
}

/// The numbers of the characters an XML document may hold.
pub open spec fn is_xml_char(n: nat) -> bool {
    n == 0x9 || n == 0xa || n == 0xd || 0x20 <= n <= 0xd7ff || 0xe000 <= n <= 0xfffd || 0x10000
        <= n <= 0x10ffff
}

/// The character numbered `n`, where XML has one.
pub open spec fn numbered(n: Option<nat>) -> Option<char> {
    match n {
        Some(n) => if is_xml_char(n) {
            Some(n as char)
        } else {
            None
        },
        None => None,
    }
}

/// The character a reference `&name;` stands for: one of the five entities
/// XML defines, or a character by its number.
pub open spec fn referenced(name: Seq<char>) -> Option<char> {
    if name == "amp"@ {
        Some('&')
    } else if name == "lt"@ {
        Some('<')
    } else if name == "gt"@ {
        Some('>')
    } else if name == "quot"@ {
        Some('"')
    } else if name == "apos"@ {
        Some('\'')
    } else if starts_with(name, "#x"@) && name.len() > 2 {
        numbered(number(name.skip(2), 16))
    } else if starts_with(name, "#"@) && name.len() > 1 {
        numbered(number(name.skip(1), 10))
    } else {
        None
    }
}

/// The text `s` writes, every reference in it replaced by its character;
/// `None` where one stands for no character.
pub open spec fn unescaped(s: Seq<char>) -> Option<Seq<char>>
    decreases s.len(),
{
    if s.len() == 0 {
        Some(Seq::empty())
    } else if s[0] != '&' {
        prefixed(seq![s[0]], unescaped(s.drop_first()))
    } else {
        match find_char(s, ';') {
            Some(end) => {
                proof {
                    lemma_first_where_found(s, is_char(';'));
                }
                match referenced(s.subrange(1, end)) {
                    Some(c) => prefixed(seq![c], unescaped(s.skip(end + 1))),
                    None => None,
                }
            },
            None => None,
        }
    }
}

/// The text `s` writes, every reference in it that stands for a character
/// replaced by it, and every other kept as it stands.
pub open spec fn loosely(s: Seq<char>) -> Seq<char>
    decreases s.len(),
{
    if s.len() == 0 {
        Seq::empty()
    } else {
        match character_at(s) {
            Some((c, len)) => seq![c] + loosely(s.skip(len)),
            None => seq![s[0]] + loosely(s.drop_first()),
        }
    }
}

/// The character that the reference `s` begins with stands for, and how long
/// that reference is.
pub open spec fn character_at(s: Seq<char>) -> Option<(char, int)> {
    if s.len() > 0 && s[0] == '&' {
        match find_char(s, ';') {
            Some(end) => if 0 < end < s.len() {
                match referenced(s.subrange(1, end)) {
                    Some(c) => Some((c, end + 1)),
                    None => None,
                }
            } else {
                None
            },
            None => None,
        }
    } else {
        None
    }
}

/// `text` with `prefix` before it.
pub open spec fn prefixed(prefix: Seq<char>, text: Option<Seq<char>>) -> Option<Seq<char>> {
    match text {
        Some(t) => Some(prefix + t),
        None => None,
    }
}

/// The refusal of a text with a reference that stands for no character.
pub open spec fn undefined_entity() -> Refusal {
    protocol("an entity XML does not define"@)
}

/// A character no name holds.
pub open spec fn is_mark(c: char) -> bool {
    is_white(c) || is_quote(c) || c == ':' || c == '/' || c == '<' || c == '>' || c == '=' || c
        == '!' || c == '?'
}

/// `s` holds no mark.
pub open spec fn unmarked(s: Seq<char>) -> bool {
    forall|i: int| 0 <= i < s.len() ==> !is_mark(#[trigger] s[i])
}

/// What may stand before a local name: nothing, or a namespace prefix and a
/// colon.
pub open spec fn is_prefix(prefix: Seq<char>) -> bool {
    prefix.len() > 0 ==> prefix.last() == ':' && unmarked(prefix.drop_last())
}

/// The prefix written here is one.
pub proof fn lemma_prefix()
    ensures
        is_prefix(PREFIX@),
{
    reveal_strlit("eb:");
}

/// The element `name` around `inner`, written under `prefix`.
pub open spec fn tagged(
    prefix: Seq<char>,
    name: Seq<char>,
    attributes: Seq<char>,
    inner: Seq<char>,
) -> Seq<char> {
    "<"@ + prefix + name + attributes + ">"@ + inner + "</"@ + prefix + name + ">"@
}

/// The attribute `name` with `value`, and the space before it.
pub open spec fn attributed(name: Seq<char>, value: Seq<char>) -> Seq<char> {
    " "@ + name + "=\""@ + escaped(value) + "\""@
}

/// `text` as XML writes it.
pub fn escape(text: &str) -> (s: String)
    ensures
        s@ == escaped(text@),
{
    let chars = chars_of(text);
    let mut s = String::new();
    assert(chars@.skip(0) =~= chars@);
    for i in 0..chars.len()
        invariant
            chars@ == text@,
            s@ + escaped(chars@.skip(i as int)) =~= escaped(text@),
    {
        let c = chars[i];
        let ghost before = s@;
        match c {
            '&' => s.append("&amp;"),
            '<' => s.append("&lt;"),
            '>' => s.append("&gt;"),
            '"' => s.append("&quot;"),
            '\'' => s.append("&apos;"),
            _ => s.push(c),
        }
        proof {
            assert(s@ =~= before + escape_char(c));
            assert(chars@.skip(i as int)[0] == c);
            assert(chars@.skip(i as int).drop_first() =~= chars@.skip(i + 1));
            assert(s@ + escaped(chars@.skip(i + 1)) =~= before + (escape_char(c) + escaped(
                chars@.skip(i + 1),
            )));
        }
    }
    assert(chars@.skip(chars@.len() as int) =~= Seq::<char>::empty());
    assert(s@ + Seq::<char>::empty() =~= s@);
    s
}

/// What one digit counts in `base`.
fn value_of_digit(c: char, base: u32) -> (r: Option<u32>)
    ensures
        match r {
            Some(d) => d < 16 && digit_value(c, base as nat) == Some(d as nat),
            None => digit_value(c, base as nat) is None,
        },
{
    let n = c as u32;
    if '0' <= c && c <= '9' {
        Some(n - 48)
    } else if base == 16 && 'a' <= c && c <= 'f' {
        Some(n - 97 + 10)
    } else if base == 16 && 'A' <= c && c <= 'F' {
        Some(n - 65 + 10)
    } else {
        None
    }
}

/// The number `s` writes in `base`, or some number past the last character
/// where it writes one that large.
fn number_of(s: &[char], base: u32) -> (r: Option<u32>)
    requires
        base == 10 || base == 16,
    ensures
        match number(s@, base as nat) {
            Some(n) => r matches Some(v) && (if n <= 0x10ffff {
                v == n
            } else {
                v > 0x10ffff
            }),
            None => r is None,
        },
{
    let mut value: u32 = 0;
    let mut i: usize = 0;
    while i < s.len()
        invariant
            i <= s.len(),
            base == 10 || base == 16,
            value <= 0x110000,
            match number(s@.take(i as int), base as nat) {
                Some(n) => if n <= 0x10ffff {
                    value == n
                } else {
                    value == 0x110000
                },
                None => false,
            },
        decreases s.len() - i,
    {
        proof {
            assert(s@.take(i + 1).drop_last() =~= s@.take(i as int));
            assert(s@.take(i + 1).last() == s@[i as int]);
        }
        match value_of_digit(s[i], base) {
            Some(d) => {
                proof {
                    lemma_next_number(s@, i as int, base as nat, value as nat, d as nat);
                }
                let next: u32 = value * base + d;
                value = if next > 0x10ffff {
                    0x110000
                } else {
                    next
                };
            },
            None => {
                proof {
                    lemma_number_prefix(s@, i + 1, base as nat);
                }
                return None;
            },
        }
        i = i + 1;
    }
    assert(s@.take(s@.len() as int) =~= s@);
    Some(value)
}

/// One digit more: the number it makes, and that a number past the last
/// character stays past it.
proof fn lemma_next_number(s: Seq<char>, i: int, base: nat, value: nat, d: nat)
    requires
        0 <= i < s.len(),
        base == 10 || base == 16,
        digit_value(s[i], base) == Some(d),
        number(s.take(i), base) matches Some(n) && (if n <= 0x10ffff {
            value == n
        } else {
            value == 0x110000
        }),
    ensures
        number(s.take(i + 1), base) matches Some(n) && (if n <= 0x10ffff {
            value * base + d == n
        } else {
            value * base + d > 0x10ffff
        }),
        value <= 0x110000 ==> value * base <= 0x1100000,
{
    let n = number(s.take(i), base)->0;
    assert(s.take(i + 1).drop_last() =~= s.take(i));
    assert(s.take(i + 1).last() == s[i]);
    assert(number(s.take(i + 1), base) == Some((n * base + d) as nat));
    if base == 10 {
        assert(n * base == n * 10 && value * base == value * 10);
    } else {
        assert(n * base == n * 16 && value * base == value * 16);
    }
}

/// What begins with no number is none.
proof fn lemma_number_prefix(s: Seq<char>, i: int, base: nat)
    requires
        0 <= i <= s.len(),
        number(s.take(i), base) is None,
    ensures
        number(s, base) is None,
    decreases s.len() - i,
{
    if i == s.len() {
        assert(s.take(i) =~= s);
    } else {
        assert(s.take(i + 1).drop_last() =~= s.take(i));
        lemma_number_prefix(s, i + 1, base);
    }
}

/// The character numbered `n`, where XML has one.
fn character(n: Option<u32>) -> (c: Option<char>)
    ensures
        c == numbered(
            match n {
                Some(n) => Some(n as nat),
                None => None,
            },
        ),
{
    match n {
        Some(n) => {
            if n == 0x9 || n == 0xa || n == 0xd || (0x20 <= n && n <= 0xd7ff) || (0xe000 <= n && n
                <= 0xfffd) || (0x10000 <= n && n <= 0x10ffff) {
                let c = char::from_u32(n);
                proof {
                    vstd::utf8::char_u32_cast(c->0, n);
                    assert(c->0 as nat == n as nat);
                }
                c
            } else {
                None
            }
        },
        None => None,
    }
}

/// The character a reference named `name` stands for.
fn reference(name: &[char]) -> (c: Option<char>)
    ensures
        c == referenced(name@),
{
    if same(name, chars_of("amp").as_slice()) {
        return Some('&');
    }
    if same(name, chars_of("lt").as_slice()) {
        return Some('<');
    }
    if same(name, chars_of("gt").as_slice()) {
        return Some('>');
    }
    if same(name, chars_of("quot").as_slice()) {
        return Some('"');
    }
    if same(name, chars_of("apos").as_slice()) {
        return Some('\'');
    }
    if stands_at(name, chars_of("#x").as_slice(), 0) && name.len() > 2 {
        let digits = vstd::slice::slice_subrange(name, 2, name.len());
        assert(digits@ == name@.skip(2));
        return character(number_of(digits, 16));
    }
    if stands_at(name, chars_of("#").as_slice(), 0) && name.len() > 1 {
        let digits = vstd::slice::slice_subrange(name, 1, name.len());
        assert(digits@ == name@.skip(1));
        return character(number_of(digits, 10));
    }
    None
}

/// The text that `chars` writes.
pub fn unescape_chars(chars: &[char]) -> (r: Result<String, TransportError>)
    ensures
        match unescaped(chars@) {
            Some(text) => r matches Ok(s) && s@ == text,
            None => r matches Err(e) && e@ == undefined_entity(),
        },
{
    let mut s = String::new();
    let mut i: usize = 0;
    assert(chars@.skip(0) =~= chars@);
    proof {
        lemma_prefixed_empty(unescaped(chars@));
    }
    while i < chars.len()
        invariant
            i <= chars.len(),
            unescaped(chars@) == prefixed(s@, unescaped(chars@.skip(i as int))),
        decreases chars.len() - i,
    {
        let ghost rest = chars@.skip(i as int);
        let ghost before = s@;
        let c = chars[i];
        if c != '&' {
            s.push(c);
            i = i + 1;
            proof {
                assert(rest.drop_first() =~= chars@.skip(i as int));
                lemma_prefixed(before, seq![c], unescaped(chars@.skip(i as int)));
                assert(before + seq![c] =~= s@);
            }
        } else {
            let tail = vstd::slice::slice_subrange(chars, i, chars.len());
            assert(tail@ =~= rest);
            match find_char_in(tail, ';') {
                Some(end) => {
                    if end == 0 {
                        assert(false);
                    }
                    let name = vstd::slice::slice_subrange(tail, 1, end);
                    match reference(name) {
                        Some(c) => {
                            s.push(c);
                            i = i + end + 1;
                            proof {
                                assert(rest.skip(end + 1) =~= chars@.skip(i as int));
                                lemma_prefixed(before, seq![c], unescaped(chars@.skip(i as int)));
                                assert(before + seq![c] =~= s@);
                            }
                        },
                        None => {
                            return Err(protocol_error(crate::text::owned("an entity XML does not define")));
                        },
                    }
                },
                None => {
                    return Err(protocol_error(crate::text::owned("an entity XML does not define")));
                },
            }
        }
    }
    proof {
        assert(chars@.skip(chars@.len() as int) =~= Seq::<char>::empty());
        assert(s@ + Seq::<char>::empty() =~= s@);
    }
    Ok(s)
}

/// The text that `chars` writes, a reference that stands for no character
/// kept as it stands.
pub fn unescape_loosely(chars: &[char]) -> (s: String)
    ensures
        s@ == loosely(chars@),
{
    let mut s = String::new();
    let mut i: usize = 0;
    proof {
        assert(chars@.skip(0) =~= chars@);
        assert(s@ + loosely(chars@) =~= loosely(chars@));
    }
    while i < chars.len()
        invariant
            i <= chars.len(),
            loosely(chars@) == s@ + loosely(chars@.skip(i as int)),
        decreases chars.len() - i,
    {
        let ghost rest = chars@.skip(i as int);
        let ghost before = s@;
        let tail = vstd::slice::slice_subrange(chars, i, chars.len());
        assert(tail@ =~= rest);
        match character_of(tail) {
            Some((c, len)) => {
                s.push(c);
                i = i + len;
                proof {
                    assert(rest.skip(len as int) =~= chars@.skip(i as int));
                    assert(s@ + loosely(chars@.skip(i as int)) =~= before + (seq![c] + loosely(
                        chars@.skip(i as int),
                    )));
                }
            },
            None => {
                let c = chars[i];
                s.push(c);
                i = i + 1;
                proof {
                    assert(rest.drop_first() =~= chars@.skip(i as int));
                    assert(s@ + loosely(chars@.skip(i as int)) =~= before + (seq![c] + loosely(
                        chars@.skip(i as int),
                    )));
                }
            },
        }
    }
    proof {
        assert(chars@.skip(chars@.len() as int) =~= Seq::<char>::empty());
        assert(s@ + Seq::<char>::empty() =~= s@);
    }
    s
}

/// The character that the reference `s` begins with stands for, and how long
/// that reference is.
fn character_of(s: &[char]) -> (r: Option<(char, usize)>)
    ensures
        match character_at(s@) {
            Some((c, len)) => r matches Some((d, n)) && d == c && n == len && 0 < n <= s@.len(),
            None => r is None,
        },
{
    if s.len() == 0 || s[0] != '&' {
        return None;
    }
    match find_char_in(s, ';') {
        Some(end) => {
            if end == 0 {
                return None;
            }
            match reference(vstd::slice::slice_subrange(s, 1, end)) {
                Some(c) => Some((c, end + 1)),
                None => None,
            }
        },
        None => None,
    }
}

/// The text that `s` writes.
///
/// # Errors
/// Where a reference in it stands for no character: an entity XML does not
/// define, or the number of none.
pub fn unescape(s: &str) -> (r: Result<String, TransportError>)
    ensures
        match unescaped(s@) {
            Some(text) => r matches Ok(t) && t@ == text,
            None => r matches Err(e) && e@ == undefined_entity(),
        },
{
    unescape_chars(chars_of(s).as_slice())
}

proof fn lemma_prefixed_empty(text: Option<Seq<char>>)
    ensures
        prefixed(Seq::empty(), text) == text,
{
    if let Some(t) = text {
        assert(Seq::<char>::empty() + t =~= t);
    }
}

proof fn lemma_prefixed(a: Seq<char>, b: Seq<char>, text: Option<Seq<char>>)
    ensures
        prefixed(a, prefixed(b, text)) == prefixed(a + b, text),
{
    if let Some(t) = text {
        assert(a + (b + t) =~= a + b + t);
    }
}

/// The element `name` around `inner`.
pub fn tag(name: &str, attributes: &str, inner: &str) -> (s: String)
    ensures
        s@ == tagged(PREFIX@, name@, attributes@, inner@),
{
    let mut s = crate::text::owned("<");
    s.append(PREFIX);
    s.append(name);
    s.append(attributes);
    s.append(">");
    s.append(inner);
    s.append("</");
    s.append(PREFIX);
    s.append(name);
    s.append(">");
    s
}

/// The attribute `name` with `value`, and the space before it.
pub fn attribute_of(name: &str, value: &str) -> (s: String)
    ensures
        s@ == attributed(name@, value@),
{
    let mut s = crate::text::owned(" ");
    s.append(name);
    s.append("=\"");
    s.append(escape(value).as_str());
    s.append("\"");
    s
}

/// How `c` is written holds nothing that XML gives a meaning to in a text or
/// an attribute value, but for the `&` of an entity.
proof fn lemma_escape_char_clean(c: char)
    ensures
        forall|i: int|
            0 <= i < escape_char(c).len() ==> #[trigger] escape_char(c)[i] != '<' && escape_char(
                c,
            )[i] != '>' && escape_char(c)[i] != '"',
{
    reveal_strlit("&amp;");
    reveal_strlit("&lt;");
    reveal_strlit("&gt;");
    reveal_strlit("&quot;");
    reveal_strlit("&apos;");
}

/// An escaped text begins and ends no tag, and ends no attribute value.
pub proof fn escaped_text_holds_no_markup(s: Seq<char>)
    ensures
        forall|i: int|
            0 <= i < escaped(s).len() ==> #[trigger] escaped(s)[i] != '<' && escaped(s)[i] != '>'
                && escaped(s)[i] != '"',
    decreases s.len(),
{
    if s.len() > 0 {
        let first = escape_char(s[0]);
        let rest = escaped(s.drop_first());
        lemma_escape_char_clean(s[0]);
        escaped_text_holds_no_markup(s.drop_first());
        assert forall|i: int| 0 <= i < escaped(s).len() implies #[trigger] escaped(s)[i] != '<'
            && escaped(s)[i] != '>' && escaped(s)[i] != '"' by {
            if i < first.len() {
                assert(escaped(s)[i] == first[i]);
            } else {
                assert(escaped(s)[i] == rest[i - first.len()]);
            }
        }
    }
}

/// A reference `&name;` is read as the character it stands for.
proof fn lemma_reference(entity: Seq<char>, name: Seq<char>, rest: Seq<char>)
    requires
        entity == seq!['&'] + name + seq![';'],
        forall|i: int| 0 <= i < name.len() ==> #[trigger] name[i] != ';',
        referenced(name) is Some,
    ensures
        unescaped(entity + rest) == prefixed(seq![referenced(name)->0], unescaped(rest)),
{
    let all = entity + rest;
    let end = name.len() + 1;
    assert(all[0] == '&');
    assert(all[end as int] == ';');
    assert forall|j: int| 0 <= j < end implies !is_char(';')(#[trigger] all[j]) by {
        if j > 0 {
            assert(all[j] == name[j - 1]);
        }
    }
    lemma_first_where(all, is_char(';'), end as int);
    assert(all.subrange(1, end as int) =~= name);
    assert(all.skip(end + 1int) =~= rest);
}

/// What is read of how one character is written, and of `rest` after it.
proof fn lemma_escape_char_reads_back(c: char, rest: Seq<char>)
    ensures
        unescaped(escape_char(c) + rest) == prefixed(seq![c], unescaped(rest)),
{
    reveal_strlit("&amp;");
    reveal_strlit("&lt;");
    reveal_strlit("&gt;");
    reveal_strlit("&quot;");
    reveal_strlit("&apos;");
    reveal_strlit("amp");
    reveal_strlit("lt");
    reveal_strlit("gt");
    reveal_strlit("quot");
    reveal_strlit("apos");
    if c == '&' {
        assert("&amp;"@ =~= seq!['&'] + "amp"@ + seq![';']);
        lemma_reference("&amp;"@, "amp"@, rest);
    } else if c == '<' {
        assert("&lt;"@ =~= seq!['&'] + "lt"@ + seq![';']);
        assert("lt"@ != "amp"@);
        lemma_reference("&lt;"@, "lt"@, rest);
    } else if c == '>' {
        assert("&gt;"@ =~= seq!['&'] + "gt"@ + seq![';']);
        assert("gt"@ != "amp"@);
        assert("gt"@[0] != "lt"@[0]);
        lemma_reference("&gt;"@, "gt"@, rest);
    } else if c == '"' {
        assert("&quot;"@ =~= seq!['&'] + "quot"@ + seq![';']);
        lemma_reference("&quot;"@, "quot"@, rest);
    } else if c == '\'' {
        assert("&apos;"@ =~= seq!['&'] + "apos"@ + seq![';']);
        assert("apos"@[0] != "quot"@[0]);
        lemma_reference("&apos;"@, "apos"@, rest);
    } else {
        let all = seq![c] + rest;
        assert(all[0] == c);
        assert(all.drop_first() =~= rest);
    }
}

/// A text that was escaped reads back as it was, whatever it is.
pub proof fn unescape_undoes_escape(s: Seq<char>)
    ensures
        unescaped(escaped(s)) == Some(s),
    decreases s.len(),
{
    if s.len() > 0 {
        unescape_undoes_escape(s.drop_first());
        lemma_escape_char_reads_back(s[0], escaped(s.drop_first()));
        assert(seq![s[0]] + s.drop_first() =~= s);
    } else {
        assert(s =~= Seq::<char>::empty());
    }
}

/// Where every reference in a text stands for a character, to keep those that
/// do not keeps none.
pub proof fn nothing_to_keep(s: Seq<char>)
    ensures
        unescaped(s) matches Some(text) ==> loosely(s) == text,
    decreases s.len(),
{
    if s.len() > 0 {
        if s[0] != '&' {
            nothing_to_keep(s.drop_first());
        } else {
            lemma_first_where_found(s, is_char(';'));
            if let Some(end) = find_char(s, ';') {
                assert(s[end] == ';');
                nothing_to_keep(s.skip(end + 1));
            }
        }
    }
}

/// A text with no `&` reads as it stands.
pub proof fn plain_text_reads_as_it_stands(s: Seq<char>)
    requires
        forall|i: int| 0 <= i < s.len() ==> #[trigger] s[i] != '&',
    ensures
        unescaped(s) == Some(s),
    decreases s.len(),
{
    if s.len() > 0 {
        let rest = s.drop_first();
        assert forall|i: int| 0 <= i < rest.len() implies #[trigger] rest[i] != '&' by {
            assert(rest[i] == s[i + 1]);
        }
        plain_text_reads_as_it_stands(rest);
        assert(seq![s[0]] + rest =~= s);
    } else {
        assert(s =~= Seq::<char>::empty());
    }
}

} // verus!
