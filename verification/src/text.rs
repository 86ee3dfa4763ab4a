//! Text as a sequence of characters: where a character or a word first or
//! last stands in it, and the words and numbers messages are put together
//! from.

use vstd::prelude::*;

verus! {

/// `String::push` appends one character.
pub assume_specification[ String::push ](text: &mut String, c: char)
    ensures
        final(text)@ == old(text)@.push(c),
;

/// `i` is the first place in `s` where a character satisfies `p`.
pub open spec fn first_where_at(s: Seq<char>, p: spec_fn(char) -> bool, i: int) -> bool {
    &&& 0 <= i < s.len()
    &&& p(s[i])
    &&& forall|j: int| 0 <= j < i ==> !p(#[trigger] s[j])
}

/// The first place in `s` where a character satisfies `p`.
pub open spec fn first_where(s: Seq<char>, p: spec_fn(char) -> bool) -> Option<int> {
    if exists|i: int| first_where_at(s, p, i) {
        Some(choose|i: int| first_where_at(s, p, i))
    } else {
        None
    }
}

/// Being the character `c`.
pub open spec fn is_char(c: char) -> spec_fn(char) -> bool {
    |d: char| d == c
}

/// The first place of `c` in `s`.
pub open spec fn find_char(s: Seq<char>, c: char) -> Option<int> {
    first_where(s, is_char(c))
}

/// `word` stands in `s` at `i`.
pub open spec fn occurs_at(s: Seq<char>, word: Seq<char>, i: int) -> bool {
    &&& 0 <= i
    &&& i + word.len() <= s.len()
    &&& s.subrange(i, i + word.len()) == word
}

/// `i` is the first place in `s` where `word` stands.
pub open spec fn first_occurrence(s: Seq<char>, word: Seq<char>, i: int) -> bool {
    &&& occurs_at(s, word, i)
    &&& forall|j: int| 0 <= j < i ==> !#[trigger] occurs_at(s, word, j)
}

/// The first place in `s` where `word` stands.
pub open spec fn find_word(s: Seq<char>, word: Seq<char>) -> Option<int> {
    if exists|i: int| first_occurrence(s, word, i) {
        Some(choose|i: int| first_occurrence(s, word, i))
    } else {
        None
    }
}

/// `i` is the last place in `s` where `word` stands.
pub open spec fn last_occurrence(s: Seq<char>, word: Seq<char>, i: int) -> bool {
    &&& occurs_at(s, word, i)
    &&& forall|j: int| i < j ==> !#[trigger] occurs_at(s, word, j)
}

/// The last place in `s` where `word` stands.
pub open spec fn rfind_word(s: Seq<char>, word: Seq<char>) -> Option<int> {
    if exists|i: int| last_occurrence(s, word, i) {
        Some(choose|i: int| last_occurrence(s, word, i))
    } else {
        None
    }
}

/// `s` begins with `word`.
pub open spec fn starts_with(s: Seq<char>, word: Seq<char>) -> bool {
    occurs_at(s, word, 0)
}

/// The digits of `n`, most significant first and without leading zeros.
pub open spec fn decimal(n: nat) -> Seq<char>
    decreases n,
{
    if n < 10 {
        seq![digit(n)]
    } else {
        decimal(n / 10).push(digit(n % 10))
    }
}

/// The character of one decimal digit.
pub open spec fn digit(d: nat) -> char {
    (('0' as nat) + d) as char
}

/// A number is written in digits.
pub proof fn lemma_decimal_digits(n: nat)
    ensures
        decimal(n).len() > 0,
        forall|j: int| 0 <= j < decimal(n).len() ==> '0' <= #[trigger] decimal(n)[j] <= '9',
    decreases n,
{
    if n >= 10 {
        lemma_decimal_digits(n / 10);
    }
}

proof fn lemma_digit_injective(a: nat, b: nat)
    requires
        a < 10,
        b < 10,
        digit(a) == digit(b),
    ensures
        a == b,
{
    assert(digit(a) as nat == '0' as nat + a);
    assert(digit(b) as nat == '0' as nat + b);
}

/// Different numbers are written differently.
pub proof fn lemma_decimal_injective(a: nat, b: nat)
    requires
        decimal(a) == decimal(b),
    ensures
        a == b,
    decreases a,
{
    if a >= 10 && b >= 10 {
        assert(decimal(a).drop_last() =~= decimal(a / 10));
        assert(decimal(b).drop_last() =~= decimal(b / 10));
        lemma_decimal_injective(a / 10, b / 10);
        assert(decimal(a).last() == digit(a % 10));
        assert(decimal(b).last() == digit(b % 10));
        lemma_digit_injective(a % 10, b % 10);
    } else if a >= 10 {
        lemma_decimal_digits(a / 10);
        assert(decimal(a).len() == decimal(a / 10).len() + 1);
        assert(decimal(b).len() == 1);
    } else if b >= 10 {
        lemma_decimal_digits(b / 10);
        assert(decimal(b).len() == decimal(b / 10).len() + 1);
        assert(decimal(a).len() == 1);
    } else {
        assert(decimal(a)[0] == digit(a));
        assert(decimal(b)[0] == digit(b));
        lemma_digit_injective(a, b);
    }
}

pub proof fn lemma_first_where(s: Seq<char>, p: spec_fn(char) -> bool, i: int)
    requires
        first_where_at(s, p, i),
    ensures
        first_where(s, p) == Some(i),
{
    let k = choose|k: int| first_where_at(s, p, k);
    assert(first_where_at(s, p, k));
    if k < i {
        assert(!p(s[k]));
    }
    if i < k {
        assert(!p(s[i]));
    }
}

pub proof fn lemma_no_first_where(s: Seq<char>, p: spec_fn(char) -> bool)
    requires
        forall|j: int| 0 <= j < s.len() ==> !p(#[trigger] s[j]),
    ensures
        first_where(s, p) is None,
{
    if exists|i: int| first_where_at(s, p, i) {
        let k = choose|k: int| first_where_at(s, p, k);
        assert(!p(s[k]));
    }
}

/// A place found is one in range where `p` first holds.
pub proof fn lemma_first_where_found(s: Seq<char>, p: spec_fn(char) -> bool)
    ensures
        first_where(s, p) matches Some(i) ==> first_where_at(s, p, i),
{
}

pub proof fn lemma_find_word(s: Seq<char>, word: Seq<char>, i: int)
    requires
        first_occurrence(s, word, i),
    ensures
        find_word(s, word) == Some(i),
{
    let k = choose|k: int| first_occurrence(s, word, k);
    assert(first_occurrence(s, word, k));
    if k < i {
        assert(!occurs_at(s, word, k));
    }
    if i < k {
        assert(!occurs_at(s, word, i));
    }
}

/// A place found is the first where the word stands.
pub proof fn lemma_find_word_found(s: Seq<char>, word: Seq<char>)
    ensures
        find_word(s, word) matches Some(i) ==> first_occurrence(s, word, i),
{
}

pub proof fn lemma_no_word(s: Seq<char>, word: Seq<char>)
    requires
        forall|j: int| 0 <= j ==> !#[trigger] occurs_at(s, word, j),
    ensures
        find_word(s, word) is None,
        rfind_word(s, word) is None,
{
    if exists|i: int| first_occurrence(s, word, i) {
        let k = choose|k: int| first_occurrence(s, word, k);
        assert(!occurs_at(s, word, k));
    }
    if exists|i: int| last_occurrence(s, word, i) {
        let k = choose|k: int| last_occurrence(s, word, k);
        assert(!occurs_at(s, word, k));
    }
}

pub proof fn lemma_rfind_word(s: Seq<char>, word: Seq<char>, i: int)
    requires
        last_occurrence(s, word, i),
    ensures
        rfind_word(s, word) == Some(i),
{
    let k = choose|k: int| last_occurrence(s, word, k);
    assert(last_occurrence(s, word, k));
    if k < i {
        assert(!occurs_at(s, word, i));
    }
    if i < k {
        assert(!occurs_at(s, word, k));
    }
}

/// The characters of `s`.
pub fn chars_of(s: &str) -> (chars: Vec<char>)
    ensures
        chars@ == s@,
{
    let mut chars: Vec<char> = Vec::new();
    for c in it: s.chars()
        invariant
            chars@ == it.seq().take(it.index() as int),
            it.seq() == s@,
    {
        chars.push(c);
    }
    chars
}

/// `chars` as a string.
pub fn string_of(chars: &[char]) -> (s: String)
    ensures
        s@ == chars@,
{
    let mut s = String::new();
    for i in 0..chars.len()
        invariant
            s@ == chars@.take(i as int),
    {
        s.push(chars[i]);
        assert(chars@.take(i + 1) =~= chars@.take(i as int).push(chars@[i as int]));
    }
    assert(chars@.take(chars@.len() as int) =~= chars@);
    s
}

/// `s` as a string of its own.
pub fn owned(s: &str) -> (text: String)
    ensures
        text@ == s@,
{
    String::from_str(s)
}

/// Whether `word` stands in `s` at `at`.
pub fn stands_at(s: &[char], word: &[char], at: usize) -> (b: bool)
    ensures
        b == occurs_at(s@, word@, at as int),
{
    if word.len() > s.len() || at > s.len() - word.len() {
        return false;
    }
    for i in 0..word.len()
        invariant
            at + word.len() <= s.len(),
            forall|j: int| 0 <= j < i ==> s@[at + j] == #[trigger] word@[j],
    {
        if s[at + i] != word[i] {
            proof {
                if s@.subrange(at as int, at + word@.len()) == word@ {
                    assert(s@.subrange(at as int, at + word@.len())[i as int] == s@[at + i]);
                }
            }
            return false;
        }
    }
    assert(s@.subrange(at as int, at + word@.len()) =~= word@);
    true
}

/// Whether two texts are the same.
pub fn same(a: &[char], b: &[char]) -> (r: bool)
    ensures
        r == (a@ == b@),
{
    if a.len() != b.len() {
        return false;
    }
    let r = stands_at(a, b, 0);
    assert(a@.subrange(0, a@.len() as int) =~= a@);
    r
}

/// Whether two texts are the same.
pub fn same_text(a: &str, b: &str) -> (r: bool)
    ensures
        r == (a@ == b@),
{
    same(chars_of(a).as_slice(), chars_of(b).as_slice())
}

/// The first place of `c` in `s`.
pub fn find_char_in(s: &[char], c: char) -> (r: Option<usize>)
    ensures
        match r {
            Some(i) => i < s@.len() <= usize::MAX && first_where_at(
                s@,
                is_char(c),
                i as int,
            ) && find_char(
                s@,
                c,
            ) == Some(i as int),
            None => find_char(s@, c) is None && forall|j: int| 0 <= j < s@.len() ==> s@[j] != c,
        },
{
    for i in 0..s.len()
        invariant
            forall|j: int| 0 <= j < i ==> #[trigger] s@[j] != c,
    {
        if s[i] == c {
            proof {
                lemma_first_where(s@, is_char(c), i as int);
            }
            return Some(i);
        }
    }
    proof {
        lemma_no_first_where(s@, is_char(c));
    }
    None
}

/// The first place of `word` in `s`.
pub fn find_word_in(s: &[char], word: &[char]) -> (r: Option<usize>)
    ensures
        match r {
            Some(i) => i + word@.len() <= s@.len() <= usize::MAX && occurs_at(s@, word@, i as int) && find_word(
                s@,
                word@,
            ) == Some(i as int),
            None => find_word(s@, word@) is None,
        },
{
    if word.len() > s.len() {
        proof {
            lemma_no_word(s@, word@);
        }
        return None;
    }
    let last = s.len() - word.len();
    let mut i: usize = 0;
    loop
        invariant
            last + word.len() == s.len(),
            i <= last,
            forall|j: int| 0 <= j < i ==> !#[trigger] occurs_at(s@, word@, j),
        decreases last - i,
    {
        if stands_at(s, word, i) {
            proof {
                lemma_find_word(s@, word@, i as int);
            }
            return Some(i);
        }
        if i == last {
            proof {
                lemma_no_word(s@, word@);
            }
            return None;
        }
        i = i + 1;
    }
}

/// The last place of `word` in `s`.
pub fn rfind_word_in(s: &[char], word: &[char]) -> (r: Option<usize>)
    ensures
        match r {
            Some(i) => i + word@.len() <= s@.len() <= usize::MAX && occurs_at(s@, word@, i as int) && rfind_word(
                s@,
                word@,
            ) == Some(i as int),
            None => rfind_word(s@, word@) is None,
        },
{
    if word.len() > s.len() {
        proof {
            lemma_no_word(s@, word@);
        }
        return None;
    }
    let mut i: usize = s.len() - word.len();
    loop
        invariant
            i + word.len() <= s.len(),
            forall|j: int| i < j ==> !#[trigger] occurs_at(s@, word@, j),
        decreases i,
    {
        if stands_at(s, word, i) {
            proof {
                lemma_rfind_word(s@, word@, i as int);
            }
            return Some(i);
        }
        if i == 0 {
            proof {
                lemma_no_word(s@, word@);
            }
            return None;
        }
        i = i - 1;
    }
}

/// `s` from `from` on.
pub fn after(s: &[char], from: usize) -> (r: &[char])
    requires
        from <= s@.len(),
    ensures
        r@ == s@.skip(from as int),
        s@.len() <= usize::MAX,
{
    let r = vstd::slice::slice_subrange(s, from, s.len());
    assert(r@ =~= s@.skip(from as int));
    r
}

/// `s` up to `to`.
pub fn before(s: &[char], to: usize) -> (r: &[char])
    requires
        to <= s@.len(),
    ensures
        r@ == s@.take(to as int),
{
    let r = vstd::slice::slice_subrange(s, 0, to);
    assert(r@ =~= s@.take(to as int));
    r
}

/// Whether `s` begins with `word`.
pub fn begins_with(s: &[char], word: &[char]) -> (b: bool)
    ensures
        b == starts_with(s@, word@),
{
    stands_at(s, word, 0)
}

/// `n` in decimal.
pub fn decimal_of(n: u128) -> (s: String)
    ensures
        s@ == decimal(n as nat),
    decreases n,
{
    let last: char = digit_of((n % 10) as u8);
    let mut s = if n < 10 {
        String::new()
    } else {
        decimal_of(n / 10)
    };
    s.push(last);
    assert(n < 10 ==> s@ =~= seq![digit(n as nat)]);
    s
}

/// The character of one decimal digit.
fn digit_of(d: u8) -> (c: char)
    requires
        d < 10,
    ensures
        c == digit(d as nat),
{
    (48 + d) as char
}

} // verus!
