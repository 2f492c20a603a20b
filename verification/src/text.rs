//! Characters, lines, words and decimal numbers: the text handling that the rest of the crate
//! is built on.  Texts are modelled as sequences of characters.
use vstd::prelude::*;
use vstd::slice::slice_subrange;

verus! {

// ---------------------------------------------------------------------------------------------
//  Strings and characters
// ---------------------------------------------------------------------------------------------

/// `String::push` of std.  Claimed: the given character is appended to the end of the string.
pub assume_specification[ String::push ](s: &mut String, c: char)
    ensures
        final(s)@ == old(s)@.push(c),
;

/// The text of an optional string.
pub open spec fn opt_text(s: Option<String>) -> Option<Seq<char>> {
    match s {
        Some(x) => Some(x@),
        None => None,
    }
}

/// The texts of some strings.
pub open spec fn strings(v: Seq<String>) -> Seq<Seq<char>> {
    v.map_values(|s: String| s@)
}

/// A copy of an optional string.
pub fn copy_text(s: &Option<String>) -> (r: Option<String>)
    ensures
        opt_text(r) == opt_text(*s),
{
    match s {
        Some(x) => Some(x.clone()),
        None => None,
    }
}

/// The characters of a string.
pub fn chars_of(s: &str) -> (r: Vec<char>)
    ensures
        r@ == s@,
{
    let mut out: Vec<char> = Vec::new();
    for c in it: s.chars()
        invariant
            it.seq() == s@,
            out@ == s@.take(it.index() as int),
    {
        out.push(c);
    }
    out
}

/// The string made of some characters.
pub fn string_of(chars: &[char]) -> (r: String)
    ensures
        r@ == chars@,
{
    let mut out = String::new();
    let mut i: usize = 0;
    while i < chars.len()
        invariant
            i <= chars@.len(),
            out@ == chars@.take(i as int),
        decreases chars@.len() - i,
    {
        out.push(chars[i]);
        i = i + 1;
    }
    proof {
        assert(chars@.take(chars@.len() as int) =~= chars@);
    }
    out
}

/// Do the two texts hold the same characters?
pub fn same_text(a: &[char], b: &[char]) -> (r: bool)
    ensures
        r == (a@ == b@),
{
    if a.len() != b.len() {
        return false;
    }
    proof {
        assert(a@.subrange(0, a@.len() as int) =~= a@);
    }
    starts_with(a, b)
}

/// Do the two strings hold the same characters?
pub fn same_str(a: &str, b: &str) -> (r: bool)
    ensures
        r == (a@ == b@),
{
    let x = chars_of(a);
    let y = chars_of(b);
    same_text(x.as_slice(), y.as_slice())
}

/// Is `p` a prefix of `s`?
pub fn starts_with(s: &[char], p: &[char]) -> (r: bool)
    ensures
        r == p@.is_prefix_of(s@),
{
    if p.len() > s.len() {
        return false;
    }
    let mut i: usize = 0;
    while i < p.len()
        invariant
            i <= p@.len() <= s@.len(),
            forall|j: int| 0 <= j < i ==> p@[j] == s@[j],
        decreases p@.len() - i,
    {
        if p[i] != s[i] {
            proof {
                assert(p@[i as int] != s@.subrange(0, p@.len() as int)[i as int]);
            }
            return false;
        }
        i = i + 1;
    }
    proof {
        assert(p@ =~= s@.subrange(0, p@.len() as int));
    }
    true
}

/// Is `p` a suffix of `s`?
pub fn ends_with(s: &[char], p: &[char]) -> (r: bool)
    ensures
        r == p@.is_suffix_of(s@),
{
    if p.len() > s.len() {
        return false;
    }
    let tail = slice_subrange(s, s.len() - p.len(), s.len());
    same_text(tail, p)
}

// ---------------------------------------------------------------------------------------------
//  Searching
// ---------------------------------------------------------------------------------------------

/// The number of characters before the first `c`, or the length of `s` if there is none.
pub open spec fn until(s: Seq<char>, c: char) -> nat
    decreases s.len(),
{
    if s.len() == 0 || s[0] == c {
        0
    } else {
        1 + until(s.skip(1), c)
    }
}

proof fn lemma_until_bound(s: Seq<char>, c: char)
    ensures
        until(s, c) <= s.len(),
    decreases s.len(),
{
    if s.len() > 0 && s[0] != c {
        lemma_until_bound(s.skip(1), c);
    }
}

/// What `until` finds: no earlier character is `c`, and the one there is.
pub proof fn lemma_until_splits(s: Seq<char>, c: char)
    ensures
        until(s, c) <= s.len(),
        until(s, c) < s.len() ==> s[until(s, c) as int] == c,
        forall|j: int| 0 <= j < until(s, c) ==> s[j] != c,
    decreases s.len(),
{
    if s.len() > 0 && s[0] != c {
        lemma_until_splits(s.skip(1), c);
        assert forall|j: int| 0 <= j < until(s, c) implies s[j] != c by {
            if j > 0 {
                assert(s.skip(1)[j - 1] == s[j]);
            }
        }
    }
}

pub fn position_of(s: &[char], c: char) -> (r: usize)
    ensures
        r == until(s@, c),
        r <= s@.len(),
{
    let mut i: usize = 0;
    proof {
        assert(s@.skip(0) =~= s@);
        lemma_until_bound(s@, c);
    }
    while i < s.len()
        invariant
            i <= s@.len(),
            until(s@, c) == i + until(s@.skip(i as int), c),
            until(s@, c) <= s@.len(),
        decreases s@.len() - i,
    {
        if s[i] == c {
            return i;
        }
        proof {
            assert(s@.skip(i as int).skip(1) =~= s@.skip(i + 1));
        }
        i = i + 1;
    }
    i
}

/// The index of the first occurrence of `needle` in `s`.
pub open spec fn find(s: Seq<char>, needle: Seq<char>) -> Option<int>
    decreases s.len(),
{
    if needle.is_prefix_of(s) {
        Some(0)
    } else if s.len() == 0 {
        None
    } else {
        match find(s.skip(1), needle) {
            Some(i) => Some(i + 1),
            None => None,
        }
    }
}

/// `find` gives the least index at which `needle` stands, and nothing exactly when it stands
/// nowhere.
pub proof fn lemma_find_is_first(s: Seq<char>, needle: Seq<char>)
    ensures
        find(s, needle) matches Some(i) ==> 0 <= i && i + needle.len() <= s.len() && s.subrange(
            i,
            i + needle.len(),
        ) == needle,
        forall|j: int|
            #![trigger s.subrange(j, j + needle.len())]
            0 <= j && j + needle.len() <= s.len() && s.subrange(j, j + needle.len()) == needle
                ==> (find(s, needle) matches Some(i) && i <= j),
    decreases s.len(),
{
    if needle.is_prefix_of(s) {
        assert(s.subrange(0, needle.len() as int) =~= needle);
    } else {
        if s.len() > 0 {
            let t = s.skip(1);
            lemma_find_is_first(t, needle);
            if let Some(i) = find(t, needle) {
                assert(t.subrange(i, i + needle.len()) =~= s.subrange(i + 1, i + 1 + needle.len()));
            }
        }
        assert forall|j: int|
            #![trigger s.subrange(j, j + needle.len())]
            0 <= j && j + needle.len() <= s.len() && s.subrange(j, j + needle.len())
                == needle implies (find(s, needle) matches Some(i) && i <= j) by {
            if j == 0 {
                assert(needle.is_prefix_of(s));
            } else {
                let t = s.skip(1);
                assert(t.subrange(j - 1, j - 1 + needle.len()) =~= s.subrange(
                    j,
                    j + needle.len(),
                ));
            }
        }
    }
}

pub fn find_text(s: &[char], needle: &[char]) -> (r: Option<usize>)
    ensures
        match r {
            Some(i) => find(s@, needle@) == Some(i as int) && i + needle@.len() <= s@.len(),
            None => find(s@, needle@) is None,
        },
{
    let mut i: usize = 0;
    proof {
        assert(s@.skip(0) =~= s@);
        lemma_find_is_first(s@, needle@);
    }
    loop
        invariant
            i <= s@.len(),
            find(s@, needle@) == match find(s@.skip(i as int), needle@) {
                Some(k) => Some(k + i),
                None => None::<int>,
            },
            find(s@, needle@) matches Some(k) ==> k + needle@.len() <= s@.len(),
        decreases s@.len() - i,
    {
        let rest = slice_subrange(s, i, s.len());
        proof {
            assert(rest@ =~= s@.skip(i as int));
        }
        if starts_with(rest, needle) {
            return Some(i);
        }
        if i == s.len() {
            return None;
        }
        proof {
            assert(s@.skip(i as int).skip(1) =~= s@.skip(i + 1));
        }
        i = i + 1;
    }
}

/// Does `needle` stand somewhere in `s`?
pub open spec fn contains(s: Seq<char>, needle: Seq<char>) -> bool {
    find(s, needle) is Some
}

pub fn contains_text(s: &[char], needle: &[char]) -> (r: bool)
    ensures
        r == contains(s@, needle@),
{
    find_text(s, needle).is_some()
}

// ---------------------------------------------------------------------------------------------
//  White space
// ---------------------------------------------------------------------------------------------

/// The characters with the `White_Space` property of Unicode.
pub open spec fn is_space(c: char) -> bool {
    ||| '\u{9}' <= c <= '\u{d}'
    ||| c == '\u{20}'
    ||| c == '\u{85}'
    ||| c == '\u{a0}'
    ||| c == '\u{1680}'
    ||| '\u{2000}' <= c <= '\u{200a}'
    ||| c == '\u{2028}'
    ||| c == '\u{2029}'
    ||| c == '\u{202f}'
    ||| c == '\u{205f}'
    ||| c == '\u{3000}'
}

pub fn is_space_char(c: char) -> (r: bool)
    ensures
        r == is_space(c),
{
    ('\u{9}' <= c && c <= '\u{d}') || c == '\u{20}' || c == '\u{85}' || c == '\u{a0}' || c
        == '\u{1680}' || ('\u{2000}' <= c && c <= '\u{200a}') || c == '\u{2028}' || c == '\u{2029}'
        || c == '\u{202f}' || c == '\u{205f}' || c == '\u{3000}'
}

/// `s` without its leading white space.
pub open spec fn trimmed_start(s: Seq<char>) -> Seq<char>
    decreases s.len(),
{
    if s.len() > 0 && is_space(s[0]) {
        trimmed_start(s.skip(1))
    } else {
        s
    }
}

/// `s` without its trailing white space.
pub open spec fn trimmed_end(s: Seq<char>) -> Seq<char>
    decreases s.len(),
{
    if s.len() > 0 && is_space(s.last()) {
        trimmed_end(s.drop_last())
    } else {
        s
    }
}

/// `s` without white space at either end.
pub open spec fn trimmed(s: Seq<char>) -> Seq<char> {
    trimmed_end(trimmed_start(s))
}

pub fn trim_start(s: &[char]) -> (r: &[char])
    ensures
        r@ == trimmed_start(s@),
{
    let mut i: usize = 0;
    proof {
        assert(s@.skip(0) =~= s@);
    }
    while i < s.len() && is_space_char(s[i])
        invariant
            i <= s@.len(),
            trimmed_start(s@) == trimmed_start(s@.skip(i as int)),
        decreases s@.len() - i,
    {
        proof {
            assert(s@.skip(i as int).skip(1) =~= s@.skip(i + 1));
        }
        i = i + 1;
    }
    proof {
        assert(s@.subrange(i as int, s@.len() as int) =~= s@.skip(i as int));
    }
    slice_subrange(s, i, s.len())
}

pub fn trim_end(s: &[char]) -> (r: &[char])
    ensures
        r@ == trimmed_end(s@),
{
    let mut n: usize = s.len();
    proof {
        assert(s@.take(n as int) =~= s@);
    }
    while n > 0 && is_space_char(s[n - 1])
        invariant
            n <= s@.len(),
            trimmed_end(s@) == trimmed_end(s@.take(n as int)),
        decreases n,
    {
        proof {
            assert(s@.take(n as int).drop_last() =~= s@.take(n - 1));
        }
        n = n - 1;
    }
    proof {
        assert(s@.subrange(0, n as int) =~= s@.take(n as int));
    }
    slice_subrange(s, 0, n)
}

pub fn trim(s: &[char]) -> (r: &[char])
    ensures
        r@ == trimmed(s@),
{
    trim_end(trim_start(s))
}

// ---------------------------------------------------------------------------------------------
//  Lines, fields and words
// ---------------------------------------------------------------------------------------------

/// The texts of some slices.
pub open spec fn texts(v: Seq<&[char]>) -> Seq<Seq<char>> {
    v.map_values(|x: &[char]| x@)
}

proof fn lemma_texts_push(v: Seq<&[char]>, x: &[char])
    ensures
        texts(v.push(x)) == texts(v).push(x@),
{
    assert(texts(v.push(x)) =~= texts(v).push(x@));
}

/// A line without the carriage return before its line feed.
pub open spec fn without_cr(line: Seq<char>) -> Seq<char> {
    if line.len() > 0 && line.last() == '\r' {
        line.drop_last()
    } else {
        line
    }
}

/// The lines of a text.  A line ends with a line feed, or with a carriage return and a line
/// feed; the last line may go without.
pub open spec fn lines_of(s: Seq<char>) -> Seq<Seq<char>>
    decreases s.len(),
    via lines_of_decreases
{
    if s.len() == 0 {
        seq![]
    } else if until(s, '\n') == s.len() {
        seq![s]
    } else {
        seq![without_cr(s.take(until(s, '\n') as int))] + lines_of(s.skip(until(s, '\n') as int + 1))
    }
}

#[via_fn]
proof fn lines_of_decreases(s: Seq<char>) {
    lemma_until_bound(s, '\n');
}

pub fn lines(s: &[char]) -> (r: Vec<&[char]>)
    ensures
        texts(r@) == lines_of(s@),
{
    let mut out: Vec<&[char]> = Vec::new();
    let mut rest: &[char] = s;
    proof {
        assert(texts(out@) + lines_of(s@) =~= lines_of(s@));
    }
    while rest.len() > 0
        invariant
            texts(out@) + lines_of(rest@) == lines_of(s@),
        decreases rest@.len(),
    {
        let n = position_of(rest, '\n');
        if n == rest.len() {
            proof {
                lemma_texts_push(out@, rest);
                assert(texts(out@).push(rest@) =~= texts(out@) + lines_of(rest@));
            }
            out.push(rest);
            return out;
        }
        let ghost before = rest@;
        let mut m: usize = n;
        if n > 0 && rest[n - 1] == '\r' {
            m = n - 1;
        }
        let line = slice_subrange(rest, 0, m);
        proof {
            assert(before.subrange(0, n as int) =~= before.take(n as int));
            assert(line@ =~= without_cr(before.take(n as int)));
        }
        rest = slice_subrange(rest, n + 1, rest.len());
        proof {
            assert(rest@ =~= before.skip(n + 1));
            lemma_texts_push(out@, line);
            assert(texts(out@).push(line@) + lines_of(rest@) =~= texts(out@) + (seq![line@]
                + lines_of(rest@)));
        }
        out.push(line);
    }
    proof {
        assert(texts(out@) + lines_of(rest@) =~= texts(out@));
    }
    out
}

/// The first `n` fields of `s`, separated by `sep`; the last of them takes all that is left.
pub open spec fn fields_of(s: Seq<char>, sep: char, n: nat) -> Seq<Seq<char>>
    decreases n,
{
    if n == 0 {
        seq![]
    } else if n == 1 || until(s, sep) == s.len() {
        seq![s]
    } else {
        seq![s.take(until(s, sep) as int)] + fields_of(
            s.skip(until(s, sep) as int + 1),
            sep,
            (n - 1) as nat,
        )
    }
}

pub fn fields(s: &[char], sep: char, n: usize) -> (r: Vec<&[char]>)
    ensures
        texts(r@) == fields_of(s@, sep, n as nat),
{
    let mut out: Vec<&[char]> = Vec::new();
    let mut rest: &[char] = s;
    let mut left: usize = n;
    proof {
        assert(texts(out@) + fields_of(s@, sep, n as nat) =~= fields_of(s@, sep, n as nat));
    }
    while left > 0
        invariant
            texts(out@) + fields_of(rest@, sep, left as nat) == fields_of(s@, sep, n as nat),
        decreases left,
    {
        let k = position_of(rest, sep);
        if left == 1 || k == rest.len() {
            proof {
                lemma_texts_push(out@, rest);
                assert(texts(out@).push(rest@) =~= texts(out@) + fields_of(
                    rest@,
                    sep,
                    left as nat,
                ));
            }
            out.push(rest);
            return out;
        }
        let ghost before = rest@;
        let field = slice_subrange(rest, 0, k);
        rest = slice_subrange(rest, k + 1, rest.len());
        proof {
            assert(field@ =~= before.take(k as int));
            assert(rest@ =~= before.skip(k + 1));
            lemma_texts_push(out@, field);
            assert(texts(out@).push(field@) + fields_of(rest@, sep, (left - 1) as nat) =~= texts(
                out@,
            ) + (seq![field@] + fields_of(rest@, sep, (left - 1) as nat)));
        }
        out.push(field);
        left = left - 1;
    }
    proof {
        assert(texts(out@) + fields_of(rest@, sep, 0) =~= texts(out@));
    }
    out
}

/// The number of characters before the first white space, or the length of `s` if there is none.
pub open spec fn word_len(s: Seq<char>) -> nat
    decreases s.len(),
{
    if s.len() == 0 || is_space(s[0]) {
        0
    } else {
        1 + word_len(s.skip(1))
    }
}

proof fn lemma_word_len_bound(s: Seq<char>)
    ensures
        word_len(s) <= s.len(),
    decreases s.len(),
{
    if s.len() > 0 && !is_space(s[0]) {
        lemma_word_len_bound(s.skip(1));
    }
}

proof fn lemma_trimmed_start_shape(s: Seq<char>)
    ensures
        trimmed_start(s).len() <= s.len(),
        trimmed_start(s).len() > 0 ==> !is_space(trimmed_start(s)[0]),
    decreases s.len(),
{
    if s.len() > 0 && is_space(s[0]) {
        lemma_trimmed_start_shape(s.skip(1));
    }
}

/// The words of a text: its maximal runs of characters that are not white space.
pub open spec fn words_of(s: Seq<char>) -> Seq<Seq<char>>
    decreases s.len(),
    via words_of_decreases
{
    let t = trimmed_start(s);
    if t.len() == 0 {
        seq![]
    } else {
        seq![t.take(word_len(t) as int)] + words_of(t.skip(word_len(t) as int))
    }
}

#[via_fn]
proof fn words_of_decreases(s: Seq<char>) {
    lemma_trimmed_start_shape(s);
    lemma_word_len_bound(trimmed_start(s));
}

fn end_of_word(s: &[char]) -> (r: usize)
    ensures
        r == word_len(s@),
        r <= s@.len(),
{
    let mut i: usize = 0;
    proof {
        assert(s@.skip(0) =~= s@);
        lemma_word_len_bound(s@);
    }
    while i < s.len()
        invariant
            i <= s@.len(),
            word_len(s@) == i + word_len(s@.skip(i as int)),
            word_len(s@) <= s@.len(),
        decreases s@.len() - i,
    {
        if is_space_char(s[i]) {
            return i;
        }
        proof {
            assert(s@.skip(i as int).skip(1) =~= s@.skip(i + 1));
        }
        i = i + 1;
    }
    i
}

pub fn words(s: &[char]) -> (r: Vec<&[char]>)
    ensures
        texts(r@) == words_of(s@),
{
    let mut out: Vec<&[char]> = Vec::new();
    let mut rest: &[char] = s;
    proof {
        assert(texts(out@) + words_of(s@) =~= words_of(s@));
    }
    loop
        invariant
            texts(out@) + words_of(rest@) == words_of(s@),
        decreases rest@.len(),
    {
        let ghost before = rest@;
        let t = trim_start(rest);
        proof {
            lemma_trimmed_start_shape(before);
        }
        if t.len() == 0 {
            proof {
                assert(texts(out@) + words_of(rest@) =~= texts(out@));
            }
            return out;
        }
        let k = end_of_word(t);
        let word = slice_subrange(t, 0, k);
        rest = slice_subrange(t, k, t.len());
        proof {
            assert(word@ =~= t@.take(k as int));
            assert(rest@ =~= t@.skip(k as int));
            lemma_texts_push(out@, word);
            assert(texts(out@).push(word@) + words_of(rest@) =~= texts(out@) + (seq![word@]
                + words_of(rest@)));
        }
        out.push(word);
    }
}

// ---------------------------------------------------------------------------------------------
//  Decimal numbers
// ---------------------------------------------------------------------------------------------

pub open spec fn is_digit(c: char) -> bool {
    '0' <= c <= '9'
}

pub open spec fn digit_value(c: char) -> nat {
    (c as int - '0' as int) as nat
}

/// The number that a run of decimal digits writes.
pub open spec fn value_of(digits: Seq<char>) -> nat
    decreases digits.len(),
{
    if digits.len() == 0 {
        0
    } else {
        value_of(digits.drop_last()) * 10 + digit_value(digits.last())
    }
}

pub open spec fn all_digits(s: Seq<char>) -> bool {
    forall|i: int| 0 <= i < s.len() ==> is_digit(#[trigger] s[i])
}

/// A decimal number without its optional plus sign.
pub open spec fn without_plus(s: Seq<char>) -> Seq<char> {
    if s.len() > 0 && s[0] == '+' {
        s.skip(1)
    } else {
        s
    }
}

/// The number that `s` writes in decimal, if it is one and at most `max`: an optional plus sign,
/// then one or more digits, and nothing else.
pub open spec fn parsed(s: Seq<char>, max: nat) -> Option<nat> {
    let digits = without_plus(s);
    if digits.len() > 0 && all_digits(digits) && value_of(digits) <= max {
        Some(value_of(digits))
    } else {
        None
    }
}

proof fn lemma_value_grows(digits: Seq<char>, n: int)
    requires
        0 <= n <= digits.len(),
    ensures
        value_of(digits.take(n)) <= value_of(digits),
    decreases digits.len() - n,
{
    if n == digits.len() {
        assert(digits.take(n) =~= digits);
    } else {
        lemma_value_grows(digits, n + 1);
        assert(digits.take(n + 1).drop_last() =~= digits.take(n));
    }
}

fn parse_up_to(s: &[char], max: u64) -> (r: Option<u64>)
    ensures
        match r {
            Some(v) => parsed(s@, max as nat) == Some(v as nat),
            None => parsed(s@, max as nat) is None,
        },
{
    let mut start: usize = 0;
    if s.len() > 0 && s[0] == '+' {
        start = 1;
    }
    let digits = slice_subrange(s, start, s.len());
    proof {
        assert(digits@ =~= without_plus(s@));
    }
    if digits.len() == 0 {
        return None;
    }
    let mut value: u64 = 0;
    let mut i: usize = 0;
    while i < digits.len()
        invariant
            i <= digits@.len(),
            digits@ == without_plus(s@),
            value == value_of(digits@.take(i as int)),
            value <= max,
            forall|j: int| 0 <= j < i ==> is_digit(#[trigger] digits@[j]),
        decreases digits@.len() - i,
    {
        let c = digits[i];
        if !('0' <= c && c <= '9') {
            return None;
        }
        let d: u64 = (c as u32 - '0' as u32) as u64;
        proof {
            assert(digits@.take(i + 1).drop_last() =~= digits@.take(i as int));
            lemma_value_grows(digits@, i + 1);
        }
        if d > max || value > max / 10 || value * 10 > max - d {
            return None;
        }
        value = value * 10 + d;
        i = i + 1;
    }
    proof {
        assert(digits@.take(i as int) =~= digits@);
    }
    Some(value)
}

/// The `u32` that `s` writes in decimal.
pub fn parse_u32(s: &[char]) -> (r: Option<u32>)
    ensures
        match r {
            Some(v) => parsed(s@, u32::MAX as nat) == Some(v as nat),
            None => parsed(s@, u32::MAX as nat) is None,
        },
{
    match parse_up_to(s, u32::MAX as u64) {
        Some(v) => Some(v as u32),
        None => None,
    }
}

/// The `u64` that `s` writes in decimal.
pub fn parse_u64(s: &[char]) -> (r: Option<u64>)
    ensures
        match r {
            Some(v) => parsed(s@, u64::MAX as nat) == Some(v as nat),
            None => parsed(s@, u64::MAX as nat) is None,
        },
{
    parse_up_to(s, u64::MAX)
}

pub open spec fn digit_char(d: nat) -> char {
    ('0' as int + d) as char
}

/// A number written in decimal, without leading zeros.
pub open spec fn decimal(n: nat) -> Seq<char>
    decreases n,
{
    if n < 10 {
        seq![digit_char(n)]
    } else {
        decimal(n / 10).push(digit_char(n % 10))
    }
}

fn push_decimal(out: &mut String, n: u64)
    ensures
        final(out)@ == old(out)@ + decimal(n as nat),
    decreases n,
{
    if n >= 10 {
        push_decimal(out, n / 10);
    }
    let d: u8 = (n % 10) as u8;
    let c = (48u8 + d) as char;
    let ghost before = out@;
    out.push(c);
    proof {
        if n >= 10 {
            assert(before.push(c) =~= old(out)@ + decimal((n / 10) as nat).push(c));
        } else {
            assert(before.push(c) =~= old(out)@ + seq![c]);
        }
    }
}

/// A number written in decimal.
pub fn decimal_string(n: u64) -> (r: String)
    ensures
        r@ == decimal(n as nat),
{
    let mut out = String::new();
    push_decimal(&mut out, n);
    proof {
        assert(Seq::<char>::empty() + decimal(n as nat) =~= decimal(n as nat));
    }
    out
}

proof fn lemma_decimal_digits(n: nat)
    ensures
        decimal(n).len() > 0,
        all_digits(decimal(n)),
        value_of(decimal(n)) == n,
    decreases n,
{
    if n < 10 {
        let s = decimal(n);
        assert(s.drop_last() =~= Seq::<char>::empty());
        assert(s.last() == digit_char(n));
        assert(value_of(s.drop_last()) == 0);
    } else {
        lemma_decimal_digits(n / 10);
        let s = decimal(n);
        assert(s.drop_last() =~= decimal(n / 10));
        assert(s.last() == digit_char(n % 10));
    }
}

/// Reading a number back from its decimal form gives the number.
pub proof fn law_decimal_reads_back(n: nat, max: nat)
    requires
        n <= max,
    ensures
        parsed(decimal(n), max) == Some(n),
{
    lemma_decimal_digits(n);
    assert(is_digit(decimal(n)[0]));
}

/// Different numbers have different decimal forms.
pub proof fn law_decimal_is_injective(m: nat, n: nat)
    requires
        decimal(m) == decimal(n),
    ensures
        m == n,
{
    lemma_decimal_digits(m);
    lemma_decimal_digits(n);
}

// ---------------------------------------------------------------------------------------------
//  Padding
// ---------------------------------------------------------------------------------------------

pub open spec fn repeated(c: char, n: nat) -> Seq<char> {
    Seq::new(n, |i: int| c)
}

/// `s` followed by as many spaces as it takes to reach `width` characters.
pub open spec fn padded(s: Seq<char>, width: nat) -> Seq<char> {
    if s.len() >= width {
        s
    } else {
        s + repeated(' ', (width - s.len()) as nat)
    }
}

/// Append `c` to `out`, `n` times.
pub fn push_repeated(out: &mut String, c: char, n: usize)
    ensures
        final(out)@ == old(out)@ + repeated(c, n as nat),
{
    let mut i: usize = 0;
    proof {
        assert(out@ =~= old(out)@ + repeated(c, 0));
    }
    while i < n
        invariant
            i <= n,
            out@ == old(out)@ + repeated(c, i as nat),
        decreases n - i,
    {
        out.push(c);
        i = i + 1;
        proof {
            assert(out@ =~= old(out)@ + repeated(c, i as nat));
        }
    }
}

/// Append `s` to `out`, padded to `width` characters.
pub fn push_padded(out: &mut String, s: &str, width: usize)
    ensures
        final(out)@ == old(out)@ + padded(s@, width as nat),
{
    let chars = chars_of(s);
    out.append(s);
    if chars.len() < width {
        push_repeated(out, ' ', width - chars.len());
        proof {
            assert(out@ =~= old(out)@ + padded(s@, width as nat));
        }
    }
}

// ---------------------------------------------------------------------------------------------
//  Laws
// ---------------------------------------------------------------------------------------------

/// Are all characters of a text white space?
pub open spec fn blank(s: Seq<char>) -> bool {
    forall|i: int| 0 <= i < s.len() ==> is_space(#[trigger] s[i])
}

proof fn lemma_start_is_trimmed(left: Seq<char>, s: Seq<char>)
    requires
        blank(left),
        s.len() > 0 ==> !is_space(s[0]),
    ensures
        trimmed_start(left + s) == s,
    decreases left.len(),
{
    let all = left + s;
    if left.len() == 0 {
        assert(all =~= s);
    } else {
        assert(all[0] == left[0]);
        assert(all.skip(1) =~= left.skip(1) + s);
        lemma_start_is_trimmed(left.skip(1), s);
    }
}

proof fn lemma_end_is_trimmed(s: Seq<char>, right: Seq<char>)
    requires
        blank(right),
        s.len() > 0 ==> !is_space(s.last()),
    ensures
        trimmed_end(s + right) == s,
    decreases right.len(),
{
    let all = s + right;
    if right.len() == 0 {
        assert(all =~= s);
    } else {
        assert(all.last() == right.last());
        assert(all.drop_last() =~= s + right.drop_last());
        lemma_end_is_trimmed(s, right.drop_last());
    }
}

/// Trimming takes the white space at both ends away, and nothing else.
pub proof fn law_trimming_takes_white_space_only(
    left: Seq<char>,
    inner: Seq<char>,
    right: Seq<char>,
)
    requires
        blank(left),
        blank(right),
        inner.len() > 0 ==> !is_space(inner[0]) && !is_space(inner.last()),
    ensures
        trimmed_start(left + inner) == inner,
        inner.len() > 0 ==> trimmed(left + inner + right) == inner,
        trimmed(left) == Seq::<char>::empty(),
{
    lemma_start_is_trimmed(left, inner);
    if inner.len() > 0 {
        assert(left + inner + right =~= left + (inner + right));
        lemma_start_is_trimmed(left, inner + right);
        lemma_end_is_trimmed(inner, right);
    }
    assert(left =~= left + Seq::<char>::empty());
    lemma_start_is_trimmed(left, Seq::<char>::empty());
}

proof fn lemma_until_found(head: Seq<char>, c: char, rest: Seq<char>)
    requires
        !head.contains(c),
    ensures
        until(head + seq![c] + rest, c) == head.len(),
        until(head, c) == head.len(),
{
    let all = head + seq![c] + rest;
    lemma_until_splits(all, c);
    lemma_until_splits(head, c);
    let n = until(all, c);
    assert(all[head.len() as int] == c);
    if n < head.len() {
        assert(head[n as int] == c);
    }
    let m = until(head, c);
    if m < head.len() {
        assert(head[m as int] == c);
    }
}

/// A text is cut into lines at its line feeds: a line ends at the first one, without a carriage return
/// before it, and what follows it is cut in the same way.
pub proof fn law_lines_end_at_line_feeds(line: Seq<char>, rest: Seq<char>)
    requires
        !line.contains('\n'),
    ensures
        lines_of(line + seq!['\n'] + rest) == seq![
            if line.len() > 0 && line.last() == '\r' {
                line.drop_last()
            } else {
                line
            },
        ] + lines_of(rest),
        lines_of(line) == if line.len() == 0 {
            Seq::<Seq<char>>::empty()
        } else {
            seq![line]
        },
{
    let all = line + seq!['\n'] + rest;
    lemma_until_found(line, '\n', rest);
    assert(all.take(line.len() as int) =~= line);
    assert(all.skip(line.len() as int + 1) =~= rest);
}

/// A text is cut into fields at the separators: a field ends at the first one, and what follows it is
/// cut in the same way, up to the number of fields that was asked for.  The last field is the rest.
pub proof fn law_fields_end_at_separators(head: Seq<char>, sep: char, rest: Seq<char>, n: nat)
    requires
        !head.contains(sep),
    ensures
        fields_of(head + seq![sep] + rest, sep, n + 2) == seq![head] + fields_of(rest, sep, n + 1),
        fields_of(head, sep, n + 1) == seq![head],
        fields_of(rest, sep, 1) == seq![rest],
{
    let all = head + seq![sep] + rest;
    lemma_until_found(head, sep, rest);
    assert(all.take(head.len() as int) =~= head);
    assert(all.skip(head.len() as int + 1) =~= rest);
}

proof fn lemma_word_is_measured(word: Seq<char>, rest: Seq<char>)
    requires
        forall|i: int| 0 <= i < word.len() ==> !is_space(#[trigger] word[i]),
        rest.len() > 0 ==> is_space(rest[0]),
    ensures
        word_len(word + rest) == word.len(),
    decreases word.len(),
{
    let all = word + rest;
    if word.len() == 0 {
        assert(all =~= rest);
    } else {
        assert(all[0] == word[0]);
        assert(all.skip(1) =~= word.skip(1) + rest);
        lemma_word_is_measured(word.skip(1), rest);
    }
}

/// A text is cut into words at its white space: a word is as long as no white space comes, and what
/// follows it is cut in the same way.
pub proof fn law_words_end_at_white_space(left: Seq<char>, word: Seq<char>, rest: Seq<char>)
    requires
        blank(left),
        word.len() > 0,
        forall|i: int| 0 <= i < word.len() ==> !is_space(#[trigger] word[i]),
        rest.len() > 0 ==> is_space(rest[0]),
    ensures
        words_of(left + word + rest) == seq![word] + words_of(rest),
        words_of(left) == Seq::<Seq<char>>::empty(),
{
    let t = word + rest;
    assert(left + word + rest =~= left + t);
    assert(t[0] == word[0]);
    lemma_start_is_trimmed(left, t);
    lemma_word_is_measured(word, rest);
    assert(t.take(word.len() as int) =~= word);
    assert(t.skip(word.len() as int) =~= rest);
    assert(left =~= left + Seq::<char>::empty());
    lemma_start_is_trimmed(left, Seq::<char>::empty());
}

/// A number is read digit by digit, as long as it is not above the limit.  A plus sign before it
/// changes nothing.
pub proof fn law_numbers_are_read_digit_by_digit(s: Seq<char>, d: nat, max: nat)
    requires
        s.len() > 0,
        forall|i: int| 0 <= i < s.len() ==> '0' <= #[trigger] s[i] <= '9',
        d < 10,
    ensures
        parsed(seq![('0' as int + d) as char], max) == if d <= max {
            Some(d)
        } else {
            None
        },
        parsed(s.push(('0' as int + d) as char), max) == match parsed(s, max) {
            Some(v) => if v * 10 + d <= max {
                Some(v * 10 + d)
            } else {
                None
            },
            None => None::<nat>,
        },
        parsed(seq!['+'] + s, max) == parsed(s, max),
{
    let c = ('0' as int + d) as char;
    let one = seq![c];
    let longer = s.push(c);
    assert(one.drop_last() =~= Seq::<char>::empty());
    assert(value_of(one.drop_last()) == 0);
    assert(value_of(one) == d);
    assert(is_digit(c));
    assert(s[0] != '+' && longer[0] == s[0]);
    assert(longer.drop_last() =~= s);
    assert forall|i: int| 0 <= i < longer.len() implies is_digit(#[trigger] longer[i]) by {
        if i < s.len() {
            assert(longer[i] == s[i]);
        }
    }
    assert((seq!['+'] + s).skip(1) =~= s);
}

/// A text without a digit, or with anything but digits after a plus sign, is no number.
pub proof fn law_other_texts_are_no_numbers(s: Seq<char>, max: nat, i: int)
    requires
        0 <= i < s.len(),
        !('0' <= s[i] <= '9'),
        i == 0 ==> s[0] != '+' || s.len() == 1,
    ensures
        parsed(s, max) is None,
        parsed(Seq::<char>::empty(), max) is None,
{
    let digits = without_plus(s);
    if s[0] == '+' {
        if s.len() > 1 {
            assert(digits[i - 1] == s[i]);
            assert(!is_digit(digits[i - 1]));
        }
    } else {
        assert(!is_digit(digits[i]));
    }
}

/// A decimal is written digit by digit, without zeros in front.
pub proof fn law_decimals_are_written_digit_by_digit(n: nat, d: nat)
    requires
        d < 10,
    ensures
        decimal(d) == seq![('0' as int + d) as char],
        n > 0 ==> decimal(n * 10 + d) == decimal(n).push(('0' as int + d) as char),
{
    if n > 0 {
        assert((n * 10 + d) / 10 == n);
        assert((n * 10 + d) % 10 == d);
    }
}

/// A text is contained in another exactly if it stands at some place in it.
pub proof fn law_contained_texts_stand_somewhere(s: Seq<char>, needle: Seq<char>)
    ensures
        contains(s, needle) <==> exists|i: int|
            0 <= i && i + needle.len() <= s.len() && #[trigger] s.subrange(i, i + needle.len())
                == needle,
{
    lemma_find_is_first(s, needle);
    if let Some(i) = find(s, needle) {
        assert(s.subrange(i, i + needle.len()) == needle);
    }
}

/// Padding adds spaces at the end, as many as are missing.
pub proof fn law_padding_fills_with_spaces(s: Seq<char>, width: nat)
    ensures
        s.is_prefix_of(padded(s, width)),
        padded(s, width).len() == if s.len() >= width {
            s.len()
        } else {
            width
        },
        forall|i: int| s.len() <= i < padded(s, width).len() ==> padded(s, width)[i] == ' ',
{
    assert(padded(s, width).take(s.len() as int) =~= s);
}

/// The decimal form of a number stands between white space: trimming leaves it, and it reads back.
pub proof fn law_decimals_stand_out(left: Seq<char>, n: nat, right: Seq<char>, max: nat)
    requires
        blank(left),
        blank(right),
    ensures
        trimmed(left + decimal(n) + right) == decimal(n),
        parsed(trimmed(left + decimal(n) + right), max) == if n <= max {
            Some(n)
        } else {
            None
        },
        words_of(left + decimal(n)) == seq![decimal(n)],
        right.len() > 0 ==> words_of(left + decimal(n) + right) == seq![decimal(n)],
{
    let d = decimal(n);
    lemma_decimal_digits(n);
    assert forall|i: int| 0 <= i < d.len() implies !is_space(#[trigger] d[i]) by {
        assert(is_digit(d[i]));
    }
    assert(is_digit(d[0]) && is_digit(d.last()));
    law_trimming_takes_white_space_only(left, d, right);
    law_trimming_takes_white_space_only(right, Seq::<char>::empty(), right);
    let none = Seq::<char>::empty();
    law_words_end_at_white_space(left, d, none);
    law_words_end_at_white_space(none, d, none);
    assert(left + d + none =~= left + d);
    assert(seq![d] + words_of(none) =~= seq![d]);
    if right.len() > 0 {
        law_words_end_at_white_space(left, d, right);
        law_words_end_at_white_space(right, d, none);
        assert(seq![d] + words_of(right) =~= seq![d]);
    }
}

/// The decimal form of a number is one word: there is no white space in it.
pub proof fn law_decimals_are_words(n: nat)
    ensures
        decimal(n).len() > 0,
        forall|i: int| 0 <= i < decimal(n).len() ==> !is_space(#[trigger] decimal(n)[i]),
{
    lemma_decimal_digits(n);
    assert forall|i: int| 0 <= i < decimal(n).len() implies !is_space(#[trigger] decimal(n)[i]) by {
        assert(is_digit(decimal(n)[i]));
    }
}

/// Nothing but the digits from 0 to 9 stands in the decimal form of a number.
pub proof fn law_decimals_have_digits_only(n: nat)
    ensures
        decimal(n).len() > 0,
        forall|i: int| 0 <= i < decimal(n).len() ==> '0' <= #[trigger] decimal(n)[i] <= '9',
{
    lemma_decimal_digits(n);
    assert forall|i: int| 0 <= i < decimal(n).len() implies '0' <= #[trigger] decimal(n)[i]
        <= '9' by {
        assert(is_digit(decimal(n)[i]));
    }
}

/// In ASCII, white space is the space and the five control characters from the tab on.
pub proof fn law_white_space_of_ascii(c: char)
    requires
        (c as int) < 128,
    ensures
        is_space(c) <==> c as int == 32 || 9 <= c as int <= 13,
{
}

/// The texts of some strings are as many as the strings, in the same order; an optional string has a text,
/// empty or not, exactly if it is there.
pub proof fn law_strings_keep_their_texts(v: Seq<String>, s: String)
    ensures
        strings(v).len() == v.len(),
        forall|i: int| 0 <= i < v.len() ==> #[trigger] strings(v)[i] == v[i]@,
        opt_text(Some(s)) == Some(s@),
        opt_text(None) is None,
{
}

} // verus!
