//! How a text is spelled in markup, told letter for letter: which characters
//! are written as which entities, which references are read as which
//! characters, and what becomes of a reference that stands for none.

use vstd::prelude::*;

#[allow(unused_imports)]
use crate::error::Refusal;
#[allow(unused_imports)]
use crate::scan::read;
#[allow(unused_imports)]
use crate::text::{
    decimal, digit, is_char, lemma_decimal_digits, lemma_first_where, lemma_no_first_where,
    starts_with,
};
#[allow(unused_imports)]
use crate::xml::{
    digit_value, escape_char, escaped, loosely, number, prefixed, referenced, unescaped,
};

verus! {

/// Five characters are written as entities, and every other as itself.
pub proof fn five_characters_are_written_as_entities(c: char)
    ensures
        escaped(seq!['&']) == "&amp;"@,
        escaped(seq!['<']) == "&lt;"@,
        escaped(seq!['>']) == "&gt;"@,
        escaped(seq!['"']) == "&quot;"@,
        escaped(seq!['\'']) == "&apos;"@,
        c != '&' && c != '<' && c != '>' && c != '"' && c != '\'' ==> escaped(seq![c]) == seq![c],
        escaped(Seq::empty()).len() == 0,
{
    lemma_one('&');
    lemma_one('<');
    lemma_one('>');
    lemma_one('"');
    lemma_one('\'');
    lemma_one(c);
}

proof fn lemma_one(c: char)
    ensures
        escaped(seq![c]) == escape_char(c),
{
    let s = seq![c];
    assert(s.drop_first() =~= Seq::<char>::empty());
    assert(escaped(s.drop_first()) =~= Seq::<char>::empty());
    assert(escape_char(c) + Seq::<char>::empty() =~= escape_char(c));
}

/// Each character of a text is written by itself: two texts one after the
/// other are written one after the other.
pub proof fn texts_are_written_one_after_the_other(a: Seq<char>, b: Seq<char>)
    ensures
        escaped(a + b) == escaped(a) + escaped(b),
    decreases a.len(),
{
    if a.len() == 0 {
        assert(a + b =~= b);
        assert(escaped(a) + escaped(b) =~= escaped(b));
    } else {
        let c = escape_char(a[0]);
        let rest = a.drop_first();
        assert((a + b).drop_first() =~= rest + b);
        assert((a + b)[0] == a[0]);
        texts_are_written_one_after_the_other(rest, b);
        assert(c + (escaped(rest) + escaped(b)) =~= (c + escaped(rest)) + escaped(b));
    }
}

/// No two texts are written alike.
pub proof fn no_two_texts_are_written_alike(a: Seq<char>, b: Seq<char>)
    ensures
        escaped(a) == escaped(b) ==> a == b,
{
    crate::xml::unescape_undoes_escape(a);
    crate::xml::unescape_undoes_escape(b);
}

/// `name` as a reference, and what follows it.
pub open spec fn reference(name: Seq<char>, rest: Seq<char>) -> Seq<char> {
    seq!['&'] + name + seq![';'] + rest
}

proof fn lemma_reference(name: Seq<char>, rest: Seq<char>)
    requires
        forall|i: int| 0 <= i < name.len() ==> #[trigger] name[i] != ';',
    ensures
        match referenced(name) {
            Some(c) => unescaped(reference(name, rest)) == prefixed(seq![c], unescaped(rest))
                && loosely(reference(name, rest)) == seq![c] + loosely(rest),
            None => unescaped(reference(name, rest)) is None && loosely(reference(name, rest))
                == seq!['&'] + loosely(name + seq![';'] + rest),
        },
{
    let s = reference(name, rest);
    let end = name.len() + 1int;
    assert(s[0] == '&');
    assert(s[end] == ';');
    assert forall|j: int| 0 <= j < end implies !is_char(';')(#[trigger] s[j]) by {
        if j > 0 {
            assert(s[j] == name[j - 1]);
        }
    }
    lemma_first_where(s, is_char(';'), end);
    assert(s.subrange(1, end) =~= name);
    assert(s.skip(end + 1) =~= rest);
    assert(s.drop_first() =~= name + seq![';'] + rest);
}

/// What is no reference is read as it stands, one character after the other.
pub proof fn a_character_is_read_as_it_stands(c: char, rest: Seq<char>, text: Seq<char>)
    requires
        c != '&',
    ensures
        unescaped(rest) == Some(text) ==> unescaped(seq![c] + rest) == Some(seq![c] + text),
        unescaped(rest) is None ==> unescaped(seq![c] + rest) is None,
        loosely(seq![c] + rest) == seq![c] + loosely(rest),
        unescaped(Seq::empty()) == Some(Seq::<char>::empty()),
        loosely(Seq::empty()) == Seq::<char>::empty(),
{
    let s = seq![c] + rest;
    assert(s.drop_first() =~= rest);
    assert(s[0] == c);
}

/// The five entities are read as the characters they stand for.
pub proof fn five_entities_are_read_as_characters(rest: Seq<char>, text: Seq<char>)
    requires
        unescaped(rest) == Some(text),
    ensures
        unescaped("&amp;"@ + rest) == Some(seq!['&'] + text),
        unescaped("&lt;"@ + rest) == Some(seq!['<'] + text),
        unescaped("&gt;"@ + rest) == Some(seq!['>'] + text),
        unescaped("&quot;"@ + rest) == Some(seq!['"'] + text),
        unescaped("&apos;"@ + rest) == Some(seq!['\''] + text),
        loosely("&amp;"@ + rest) == seq!['&'] + loosely(rest),
        loosely("&lt;"@ + rest) == seq!['<'] + loosely(rest),
        loosely("&gt;"@ + rest) == seq!['>'] + loosely(rest),
        loosely("&quot;"@ + rest) == seq!['"'] + loosely(rest),
        loosely("&apos;"@ + rest) == seq!['\''] + loosely(rest),
{
    lemma_entities();
    assert(reference("amp"@, rest) == "&amp;"@ + rest) by {
        reveal_strlit("&amp;");
        reveal_strlit("amp");
        assert(reference("amp"@, rest) =~= "&amp;"@ + rest);
    }
    assert(reference("lt"@, rest) == "&lt;"@ + rest) by {
        reveal_strlit("&lt;");
        reveal_strlit("lt");
        assert(reference("lt"@, rest) =~= "&lt;"@ + rest);
    }
    assert(reference("gt"@, rest) == "&gt;"@ + rest) by {
        reveal_strlit("&gt;");
        reveal_strlit("gt");
        assert(reference("gt"@, rest) =~= "&gt;"@ + rest);
    }
    assert(reference("quot"@, rest) == "&quot;"@ + rest) by {
        reveal_strlit("&quot;");
        reveal_strlit("quot");
        assert(reference("quot"@, rest) =~= "&quot;"@ + rest);
    }
    assert(reference("apos"@, rest) == "&apos;"@ + rest) by {
        reveal_strlit("&apos;");
        reveal_strlit("apos");
        assert(reference("apos"@, rest) =~= "&apos;"@ + rest);
    }
    lemma_reference("amp"@, rest);
    lemma_reference("lt"@, rest);
    lemma_reference("gt"@, rest);
    lemma_reference("quot"@, rest);
    lemma_reference("apos"@, rest);
}

/// The five entities, and the characters they stand for.
proof fn lemma_entities()
    ensures
        referenced("amp"@) == Some('&'),
        referenced("lt"@) == Some('<'),
        referenced("gt"@) == Some('>'),
        referenced("quot"@) == Some('"'),
        referenced("apos"@) == Some('\''),
        forall|i: int| 0 <= i < "amp"@.len() ==> #[trigger] "amp"@[i] != ';',
        forall|i: int| 0 <= i < "lt"@.len() ==> #[trigger] "lt"@[i] != ';',
        forall|i: int| 0 <= i < "gt"@.len() ==> #[trigger] "gt"@[i] != ';',
        forall|i: int| 0 <= i < "quot"@.len() ==> #[trigger] "quot"@[i] != ';',
        forall|i: int| 0 <= i < "apos"@.len() ==> #[trigger] "apos"@[i] != ';',
{
    reveal_strlit("amp");
    reveal_strlit("lt");
    reveal_strlit("gt");
    reveal_strlit("quot");
    reveal_strlit("apos");
    assert("lt"@[0] != "gt"@[0]);
    assert("quot"@[0] != "apos"@[0]);
}

/// The number that decimal digits write is the one they were written of.
pub proof fn digits_write_their_number(n: nat)
    ensures
        number(decimal(n), 10) == Some(n),
    decreases n,
{
    if n < 10 {
        let s = decimal(n);
        assert(s.drop_last() =~= Seq::<char>::empty());
        assert(number(s.drop_last(), 10) == Some(0nat));
        assert(digit_value(digit(n), 10) == Some(n));
    } else {
        digits_write_their_number(n / 10);
        let s = decimal(n);
        assert(s.drop_last() =~= decimal(n / 10));
        assert(digit_value(digit(n % 10), 10) == Some(n % 10));
    }
}

/// A hexadecimal digit counts what it counts, in either case.
pub proof fn a_hexadecimal_digit_counts(s: Seq<char>, c: char, n: nat)
    requires
        number(s, 16) == Some(n),
    ensures
        '0' <= c <= '9' ==> number(s.push(c), 16) == Some((n * 16 + (c as nat - 48)) as nat),
        'a' <= c <= 'f' ==> number(s.push(c), 16) == Some((n * 16 + (c as nat - 87)) as nat),
        'A' <= c <= 'F' ==> number(s.push(c), 16) == Some((n * 16 + (c as nat - 55)) as nat),
        !('0' <= c <= '9') && !('a' <= c <= 'f') && !('A' <= c <= 'F') ==> number(s.push(c), 16)
            is None,
        number(Seq::empty(), 16) == Some(0nat),
{
    assert(s.push(c).drop_last() =~= s);
}

/// A decimal digit counts what it counts, and nothing else is one; no number
/// is written with a nought before it.
pub proof fn a_decimal_digit_counts(s: Seq<char>, c: char, n: nat, d: nat)
    requires
        number(s, 10) == Some(n),
    ensures
        '0' <= c <= '9' ==> number(s.push(c), 10) == Some((n * 10 + (c as nat - 48)) as nat),
        !('0' <= c <= '9') ==> number(s.push(c), 10) is None,
        d < 10 ==> decimal(n * 10 + d).last() as nat == 48 + d && (n > 0 ==> decimal(
            n * 10 + d,
        ).drop_last() == decimal(n)),
        n < 10 ==> decimal(n).len() == 1,
        n > 0 ==> decimal(n)[0] != '0',
{
    assert(s.push(c).drop_last() =~= s);
    if d < 10 {
        let m = n * 10 + d;
        assert(m / 10 == n && m % 10 == d);
        if n > 0 {
            assert(decimal(m).drop_last() =~= decimal(n));
        }
    }
    lemma_leading(n);
}

proof fn lemma_leading(n: nat)
    ensures
        n > 0 ==> decimal(n)[0] != '0',
    decreases n,
{
    if n >= 10 {
        lemma_leading(n / 10);
        lemma_decimal_digits(n / 10);
        assert(decimal(n)[0] == decimal(n / 10)[0]);
    }
}

/// A character is read by its number wherever XML has one of that number,
/// and only there.
pub proof fn a_character_is_read_by_its_number(
    n: nat,
    hex: Seq<char>,
    rest: Seq<char>,
    text: Seq<char>,
)
    requires
        unescaped(rest) == Some(text),
        hex.len() > 0,
        number(hex, 16) == Some(n),
        forall|i: int| 0 <= i < hex.len() ==> #[trigger] hex[i] != ';',
    ensures
        ({
            let known = n == 0x9 || n == 0xa || n == 0xd || 0x20 <= n <= 0xd7ff || 0xe000 <= n
                <= 0xfffd || 0x10000 <= n <= 0x10ffff;
            &&& unescaped("&#"@ + decimal(n) + ";"@ + rest) == if known {
                Some(seq![n as char] + text)
            } else {
                None
            }
            &&& unescaped("&#x"@ + hex + ";"@ + rest) == if known {
                Some(seq![n as char] + text)
            } else {
                None
            }
            &&& known ==> loosely("&#"@ + decimal(n) + ";"@ + rest) == seq![n as char] + loosely(
                rest,
            )
            &&& known ==> loosely("&#x"@ + hex + ";"@ + rest) == seq![n as char] + loosely(rest)
            &&& !known ==> loosely("&#"@ + decimal(n) + ";"@ + rest) == seq!['&'] + loosely(
                "#"@ + decimal(n) + ";"@ + rest,
            )
        }),
{
    reveal_strlit("&#");
    reveal_strlit("&#x");
    reveal_strlit(";");
    reveal_strlit("#");
    reveal_strlit("#x");
    lemma_decimal_digits(n);
    digits_write_their_number(n);
    let a = "#"@ + decimal(n);
    let b = "#x"@ + hex;
    lemma_no_entity(a);
    lemma_no_entity(b);
    assert(a.subrange(0, 1) =~= "#"@);
    assert(b.subrange(0, 2) =~= "#x"@);
    assert(a.skip(1) =~= decimal(n));
    assert(b.skip(2) =~= hex);
    if starts_with(a, "#x"@) {
        assert(a.subrange(0, 2)[1] == decimal(n)[0]);
    }
    assert forall|i: int| 0 <= i < a.len() implies #[trigger] a[i] != ';' by {
        if i > 0 {
            assert(a[i] == decimal(n)[i - 1]);
        }
    }
    assert forall|i: int| 0 <= i < b.len() implies #[trigger] b[i] != ';' by {
        if i > 1 {
            assert(b[i] == hex[i - 2]);
        }
    }
    lemma_reference(a, rest);
    lemma_reference(b, rest);
    assert(a + seq![';'] + rest =~= "#"@ + decimal(n) + ";"@ + rest);
    assert(reference(a, rest) =~= "&#"@ + decimal(n) + ";"@ + rest);
    assert(reference(b, rest) =~= "&#x"@ + hex + ";"@ + rest);
}

/// A name that begins with `#` is none of the five entities.
proof fn lemma_no_entity(name: Seq<char>)
    requires
        name.len() > 0,
        name[0] == '#',
    ensures
        name != "amp"@ && name != "lt"@ && name != "gt"@ && name != "quot"@ && name != "apos"@,
{
    reveal_strlit("amp");
    reveal_strlit("lt");
    reveal_strlit("gt");
    reveal_strlit("quot");
    reveal_strlit("apos");
}

/// A reference that stands for no character makes a text that cannot be read,
/// and is kept as it stands by a reader that keeps it. So it is with a name
/// that is no entity, with a number that has no digits, and with an ampersand
/// that nothing closes.
pub proof fn what_stands_for_nothing_is_refused_or_kept(name: Seq<char>, rest: Seq<char>)
    requires
        forall|i: int| 0 <= i < name.len() ==> #[trigger] name[i] != ';',
    ensures
        name != "amp"@ && name != "lt"@ && name != "gt"@ && name != "quot"@ && name != "apos"@ && (
        name.len() == 0 || name[0] != '#' || name.len() == 1) ==> {
            &&& unescaped(reference(name, rest)) is None
            &&& loosely(reference(name, rest)) == seq!['&'] + loosely(name + seq![';'] + rest)
        },
        unescaped(seq!['&'] + name) is None,
        loosely(seq!['&'] + name) == seq!['&'] + loosely(name),
{
    reveal_strlit("#");
    reveal_strlit("#x");
    lemma_reference(name, rest);
    if starts_with(name, "#"@) {
        assert(name.subrange(0, 1)[0] == name[0]);
    }
    if starts_with(name, "#x"@) {
        assert(name.subrange(0, 2)[0] == name[0]);
    }
    let s = seq!['&'] + name;
    assert forall|j: int| 0 <= j < s.len() implies !is_char(';')(#[trigger] s[j]) by {
        if j > 0 {
            assert(s[j] == name[j - 1]);
        }
    }
    lemma_no_first_where(s, is_char(';'));
    assert(s.drop_first() =~= name);
}

/// What cannot be read is refused, and what can is what it writes.
pub proof fn what_can_be_read_is_what_it_writes(s: Seq<char>, text: Seq<char>)
    ensures
        unescaped(s) == Some(text) <==> read(s) == Ok::<Seq<char>, Refusal>(text),
        unescaped(s) is None ==> (read(s) matches Err(e) && !e.retryable && e.message
            == "an entity XML does not define"@),
{
}

} // verus!
