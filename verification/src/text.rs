//! Text as sequences of characters.

use vstd::prelude::*;
use vstd::string::*;

verus! {

/// `String::push` appends one character.
pub assume_specification[ String::push ](s: &mut String, c: char)
    ensures
        final(s)@ == old(s)@.push(c),
;

/// The characters of `text`, in order.
pub fn chars_of(text: &str) -> (out: Vec<char>)
    ensures
        out@ == text@,
{
    let mut out: Vec<char> = Vec::new();
    for c in it: text.chars()
        invariant
            out@ == it.seq().take(it.index()),
            it.seq() == text@,
    {
        out.push(c);
    }
    out
}

/// The text whose characters are `chars`.
pub fn string_of(chars: &[char]) -> (out: String)
    ensures
        out@ == chars@,
{
    let mut out: String = String::new();
    let mut i: usize = 0;
    while i < chars.len()
        invariant
            i <= chars.len(),
            out@ == chars@.take(i as int),
        decreases chars.len() - i,
    {
        out.push(chars[i]);
        i += 1;
    }
    out
}

/// Whether two texts hold the same characters.
pub fn same_text(a: &str, b: &str) -> (same: bool)
    ensures
        same == (a@ == b@),
{
    let x: &[u8] = a.as_bytes();
    let y: &[u8] = b.as_bytes();
    proof {
        vstd::utf8::encode_utf8_decode_utf8(a@);
        vstd::utf8::encode_utf8_decode_utf8(b@);
    }
    if x.len() != y.len() {
        return false;
    }
    let mut i: usize = 0;
    while i < x.len()
        invariant
            i <= x.len() == y.len(),
            x@.take(i as int) == y@.take(i as int),
            x@ == a.spec_bytes(),
            y@ == b.spec_bytes(),
        decreases x.len() - i,
    {
        if x[i] != y[i] {
            assert(x@[i as int] != y@[i as int]);
            return false;
        }
        assert(x@.take(i + 1) == x@.take(i as int).push(x@[i as int]));
        assert(y@.take(i + 1) == y@.take(i as int).push(y@[i as int]));
        i += 1;
    }
    assert(x@.take(i as int) == x@);
    assert(y@.take(i as int) == y@);
    true
}

/// One text after another.
pub fn join2(a: &str, b: &str) -> (out: String)
    ensures
        out@ == a@ + b@,
{
    let mut out: String = a.to_owned();
    out.append(b);
    out
}

/// Three texts, one after another.
pub fn join3(a: &str, b: &str, c: &str) -> (out: String)
    ensures
        out@ == a@ + b@ + c@,
{
    let mut out: String = a.to_owned();
    out.append(b);
    out.append(c);
    out
}

/// Four texts, one after another.
pub fn join4(a: &str, b: &str, c: &str, d: &str) -> (out: String)
    ensures
        out@ == a@ + b@ + c@ + d@,
{
    let mut out: String = a.to_owned();
    out.append(b);
    out.append(c);
    out.append(d);
    out
}

// ---------------------------------------------------------------------------
// Character classes
// ---------------------------------------------------------------------------

/// The characters with the Unicode property `White_Space`.
pub open spec fn white(c: char) -> bool {
    ||| '\u{9}' <= c <= '\u{d}'
    ||| c == '\u{20}'
    ||| c == '\u{85}'
    ||| c == '\u{a0}'
    ||| c == '\u{1680}'
    ||| '\u{2000}' <= c <= '\u{200a}'
    ||| c == '\u{2028}'
    ||| c == '\u{2029}'
    ||| c == '\u{202f}'
    ||| c == '\u{205f}'
    ||| c == '\u{3000}'
}

/// The ASCII white space: space, tab, line feed, form feed, carriage return.
pub open spec fn ascii_white(c: char) -> bool {
    c == '\u{20}' || c == '\u{9}' || c == '\u{a}' || c == '\u{c}' || c == '\u{d}'
}

pub open spec fn digit(c: char) -> bool {
    '0' <= c <= '9'
}

/// An ASCII letter or digit.
pub open spec fn alnum(c: char) -> bool {
    'a' <= c <= 'z' || 'A' <= c <= 'Z' || '0' <= c <= '9'
}

/// An ASCII upper-case letter as its lower-case letter; any other character as it is.
pub open spec fn lower_char(c: char) -> char {
    if 'A' <= c <= 'Z' {
        (c as u32 + 32) as char
    } else {
        c
    }
}

/// `text` with its ASCII letters in lower case.
pub open spec fn lower(text: Seq<char>) -> Seq<char> {
    text.map_values(|c: char| lower_char(c))
}

pub fn is_white(c: char) -> (yes: bool)
    ensures
        yes == white(c),
{
    ('\u{9}' <= c && c <= '\u{d}') || c == '\u{20}' || c == '\u{85}' || c == '\u{a0}' || c
        == '\u{1680}' || ('\u{2000}' <= c && c <= '\u{200a}') || c == '\u{2028}' || c
        == '\u{2029}' || c == '\u{202f}' || c == '\u{205f}' || c == '\u{3000}'
}

pub fn is_ascii_white(c: char) -> (yes: bool)
    ensures
        yes == ascii_white(c),
{
    c == '\u{20}' || c == '\u{9}' || c == '\u{a}' || c == '\u{c}' || c == '\u{d}'
}

pub fn is_digit(c: char) -> (yes: bool)
    ensures
        yes == digit(c),
{
    '0' <= c && c <= '9'
}

pub fn is_alnum(c: char) -> (yes: bool)
    ensures
        yes == alnum(c),
{
    ('a' <= c && c <= 'z') || ('A' <= c && c <= 'Z') || ('0' <= c && c <= '9')
}

pub fn to_lower_char(c: char) -> (out: char)
    ensures
        out == lower_char(c),
{
    if 'A' <= c && c <= 'Z' {
        let code: u8 = c as u8;
        (code + 32) as char
    } else {
        c
    }
}

/// `chars` with the ASCII letters in lower case.
pub fn lower_chars(chars: &[char]) -> (out: Vec<char>)
    ensures
        out@ == lower(chars@),
{
    let mut out: Vec<char> = Vec::new();
    let mut i: usize = 0;
    while i < chars.len()
        invariant
            i <= chars.len(),
            out@ == lower(chars@.take(i as int)),
        decreases chars.len() - i,
    {
        out.push(to_lower_char(chars[i]));
        assert(lower(chars@.take(i + 1)) == lower(chars@.take(i as int)).push(
            lower_char(chars@[i as int]),
        ));
        i += 1;
    }
    assert(chars@.take(i as int) == chars@);
    out
}

/// `text` with its ASCII letters in lower case.
pub fn to_lower(text: &str) -> (out: String)
    ensures
        out@ == lower(text@),
{
    string_of(&lower_chars(&chars_of(text)))
}

/// Whether two texts agree but for the case of their ASCII letters.
pub fn same_ignoring_case(a: &str, b: &str) -> (same: bool)
    ensures
        same == (lower(a@) == lower(b@)),
{
    same_text(&to_lower(a), &to_lower(b))
}

/// A copy of `text`.
pub fn copy_of(text: &String) -> (out: String)
    ensures
        out@ == text@,
{
    text.as_str().to_owned()
}

/// A copy of the text, if there is one.
pub fn copy_of_option(text: &Option<String>) -> (out: Option<String>)
    ensures
        option_view(out) == option_view(*text),
{
    match text {
        Some(t) => Some(copy_of(t)),
        None => None,
    }
}

/// What an optional text holds.
pub open spec fn option_view(text: Option<String>) -> Option<Seq<char>> {
    match text {
        Some(t) => Some(t@),
        None => None,
    }
}

/// What an optional borrowed text holds.
pub open spec fn option_str_view(text: Option<&str>) -> Option<Seq<char>> {
    match text {
        Some(t) => Some(t@),
        None => None,
    }
}

/// What a list of texts holds.
pub open spec fn texts_view(texts: Seq<String>) -> Seq<Seq<char>> {
    texts.map_values(|t: String| t@)
}

// ---------------------------------------------------------------------------
// Trimming
// ---------------------------------------------------------------------------

/// The characters that are cut from the ends of a text.
#[derive(Clone, Copy, PartialEq, Eq, Structural)]
pub enum TrimSet {
    /// Unicode white space.
    White,
    /// The hyphen.
    Hyphen,
    /// The hyphen and the underscore.
    HyphenOrUnderscore,
}

pub open spec fn in_trim_set(set: TrimSet, c: char) -> bool {
    match set {
        TrimSet::White => white(c),
        TrimSet::Hyphen => c == '-',
        TrimSet::HyphenOrUnderscore => c == '-' || c == '_',
    }
}

/// `text` without the characters of `set` that it starts with.
pub open spec fn trim_front(set: TrimSet, text: Seq<char>) -> Seq<char>
    decreases text.len(),
{
    if text.len() > 0 && in_trim_set(set, text[0]) {
        trim_front(set, text.drop_first())
    } else {
        text
    }
}

/// `text` without the characters of `set` that it ends with.
pub open spec fn trim_back(set: TrimSet, text: Seq<char>) -> Seq<char>
    decreases text.len(),
{
    if text.len() > 0 && in_trim_set(set, text.last()) {
        trim_back(set, text.drop_last())
    } else {
        text
    }
}

/// `text` without the characters of `set` at its two ends.
pub open spec fn trim_both(set: TrimSet, text: Seq<char>) -> Seq<char> {
    trim_back(set, trim_front(set, text))
}

/// `text` without white space at its two ends.
pub open spec fn trimmed(text: Seq<char>) -> Seq<char> {
    trim_both(TrimSet::White, text)
}

fn is_in_trim_set(set: TrimSet, c: char) -> (yes: bool)
    ensures
        yes == in_trim_set(set, c),
{
    match set {
        TrimSet::White => is_white(c),
        TrimSet::Hyphen => c == '-',
        TrimSet::HyphenOrUnderscore => c == '-' || c == '_',
    }
}

proof fn lemma_trim_front(set: TrimSet, text: Seq<char>, lo: int)
    requires
        0 <= lo <= text.len(),
        forall|i: int| 0 <= i < lo ==> in_trim_set(set, #[trigger] text[i]),
        lo < text.len() ==> !in_trim_set(set, text[lo]),
    ensures
        trim_front(set, text) == text.skip(lo),
    decreases lo,
{
    if lo > 0 {
        let rest = text.drop_first();
        assert(in_trim_set(set, text[0]));
        assert forall|i: int| 0 <= i < lo - 1 implies in_trim_set(set, #[trigger] rest[i]) by {
            assert(in_trim_set(set, text[i + 1]));
        }
        lemma_trim_front(set, rest, lo - 1);
        assert(rest.skip(lo - 1) == text.skip(lo));
    } else {
        assert(text.skip(0) == text);
    }
}

proof fn lemma_trim_back(set: TrimSet, text: Seq<char>, hi: int)
    requires
        0 <= hi <= text.len(),
        forall|i: int| hi <= i < text.len() ==> in_trim_set(set, #[trigger] text[i]),
        hi > 0 ==> !in_trim_set(set, text[hi - 1]),
    ensures
        trim_back(set, text) == text.take(hi),
    decreases text.len() - hi,
{
    if hi < text.len() {
        assert(in_trim_set(set, text.last()));
        lemma_trim_back(set, text.drop_last(), hi);
        assert(text.drop_last().take(hi) == text.take(hi));
    } else {
        assert(text.take(hi) == text);
    }
}

/// Trimming takes a part out of a text, which neither starts nor ends with a
/// character of the set.
pub proof fn lemma_trim_is_part(set: TrimSet, text: Seq<char>) -> (ends: (int, int))
    ensures
        0 <= ends.0 <= ends.1 <= text.len(),
        trim_both(set, text) == text.subrange(ends.0, ends.1),
        ends.0 < ends.1 ==> !in_trim_set(set, text[ends.0]) && !in_trim_set(set, text[ends.1 - 1]),
    decreases text.len(),
{
    if text.len() > 0 && in_trim_set(set, text[0]) {
        let rest = text.drop_first();
        let (lo, hi) = lemma_trim_is_part(set, rest);
        assert(rest.subrange(lo, hi) =~= text.subrange(lo + 1, hi + 1));
        assert(lo < hi ==> rest[lo] == text[lo + 1] && rest[hi - 1] == text[hi]);
        (lo + 1, hi + 1)
    } else if text.len() > 0 && in_trim_set(set, text.last()) {
        let rest = text.drop_last();
        assert(rest.len() > 0);
        assert(rest[0] == text[0]);
        let (lo, hi) = lemma_trim_is_part(set, rest);
        assert(rest.subrange(lo, hi) =~= text.subrange(lo, hi));
        assert(lo < hi ==> rest[lo] == text[lo] && rest[hi - 1] == text[hi - 1]);
        (lo, hi)
    } else {
        assert(text.subrange(0, text.len() as int) =~= text);
        (0, text.len() as int)
    }
}

/// `chars` without the characters of `set` at the two ends.
pub fn trim_chars(set: TrimSet, chars: &[char]) -> (out: Vec<char>)
    ensures
        out@ == trim_both(set, chars@),
{
    let mut lo: usize = 0;
    while lo < chars.len() && is_in_trim_set(set, chars[lo])
        invariant
            lo <= chars.len(),
            forall|i: int| 0 <= i < lo ==> in_trim_set(set, #[trigger] chars@[i]),
        decreases chars.len() - lo,
    {
        lo += 1;
    }
    let ghost front = trim_front(set, chars@);
    proof {
        lemma_trim_front(set, chars@, lo as int);
    }
    let mut hi: usize = chars.len();
    while hi > lo && is_in_trim_set(set, chars[hi - 1])
        invariant
            lo <= hi <= chars.len(),
            forall|i: int| hi <= i < chars.len() ==> in_trim_set(set, #[trigger] chars@[i]),
        decreases hi,
    {
        hi -= 1;
    }
    proof {
        lemma_trim_back(set, front, hi - lo);
        assert(front.take(hi - lo) == chars@.subrange(lo as int, hi as int));
    }
    part_of(chars, lo, hi)
}

/// `text` without white space at its two ends.
pub fn trim(text: &str) -> (out: String)
    ensures
        out@ == trimmed(text@),
{
    string_of(&trim_chars(TrimSet::White, &chars_of(text)))
}

// ---------------------------------------------------------------------------
// Numbers
// ---------------------------------------------------------------------------

/// The digit that stands for `d`.
pub open spec fn digit_char(d: nat) -> char {
    (48 + d) as char
}

/// `n` in decimal digits, without leading zeros.
pub open spec fn decimal(n: nat) -> Seq<char>
    decreases n,
{
    if n < 10 {
        seq![digit_char(n)]
    } else {
        decimal(n / 10).push(digit_char(n % 10))
    }
}

/// The number that a row of decimal digits stands for.
pub open spec fn digits_value(text: Seq<char>) -> nat
    decreases text.len(),
{
    if text.len() == 0 {
        0
    } else {
        digits_value(text.drop_last()) * 10 + (text.last() as nat - 48) as nat
    }
}

pub open spec fn all_digits(text: Seq<char>) -> bool {
    forall|i: int| 0 <= i < text.len() ==> digit(#[trigger] text[i])
}

/// `text` without the plus sign that it may start with.
pub open spec fn without_plus(text: Seq<char>) -> Seq<char> {
    if text.len() > 0 && text[0] == '+' {
        text.drop_first()
    } else {
        text
    }
}

/// The number that `text` writes: an optional plus sign and then one or more
/// decimal digits, of a value that fits in `usize`.
pub open spec fn number_of(text: Seq<char>) -> Option<usize> {
    let digits = without_plus(text);
    if digits.len() > 0 && all_digits(digits) && digits_value(digits) <= usize::MAX {
        Some(digits_value(digits) as usize)
    } else {
        None
    }
}

fn push_decimal(n: usize, out: &mut Vec<char>)
    ensures
        final(out)@ == old(out)@ + decimal(n as nat),
    decreases n,
{
    let ghost before = out@;
    if n >= 10 {
        push_decimal(n / 10, out);
    }
    let d: u8 = (n % 10) as u8;
    out.push((48 + d) as char);
    assert(out@ =~= before + decimal(n as nat));
}

/// `n` in decimal digits.
pub fn decimal_text(n: usize) -> (out: String)
    ensures
        out@ == decimal(n as nat),
{
    let mut chars: Vec<char> = Vec::new();
    push_decimal(n, &mut chars);
    assert(Seq::<char>::empty() + decimal(n as nat) == decimal(n as nat));
    string_of(&chars)
}

proof fn lemma_digits_value_grows(text: Seq<char>, i: int)
    requires
        0 <= i <= text.len(),
        all_digits(text),
    ensures
        digits_value(text.take(i)) <= digits_value(text),
    decreases text.len() - i,
{
    if i == text.len() {
        assert(text.take(i) == text);
    } else {
        lemma_digits_value_grows(text, i + 1);
        assert(text.take(i + 1).drop_last() == text.take(i));
        assert(digit(text[i]));
    }
}

/// The number that `chars` write, if they write one.
pub fn parse_chars(chars: &[char]) -> (out: Option<usize>)
    ensures
        out == number_of(chars@),
{
    let start: usize = if chars.len() > 0 && chars[0] == '+' {
        1
    } else {
        0
    };
    let ghost digits = without_plus(chars@);
    assert(digits == chars@.skip(start as int));
    if start == chars.len() {
        return None;
    }
    let mut value: usize = 0;
    let mut i: usize = start;
    while i < chars.len()
        invariant
            start <= i <= chars.len(),
            start < chars.len(),
            digits == chars@.skip(start as int),
            digits == without_plus(chars@),
            forall|k: int| 0 <= k < i - start ==> digit(#[trigger] digits[k]),
            value == digits_value(digits.take(i - start)),
        decreases chars.len() - i,
    {
        let c: char = chars[i];
        let ghost k = i - start;
        assert(c == digits[k]);
        if !is_digit(c) {
            assert(!all_digits(digits));
            return None;
        }
        let d: usize = (c as u8 - 48) as usize;
        assert(digits.take(k + 1).drop_last() == digits.take(k));
        assert(digits_value(digits.take(k + 1)) == value * 10 + d);
        if value > (usize::MAX - d) / 10 {
            proof {
                if all_digits(digits) {
                    lemma_digits_value_grows(digits, k + 1);
                }
            }
            return None;
        }
        value = value * 10 + d;
        i += 1;
    }
    assert(digits.take(i - start) == digits);
    Some(value)
}

/// The number that `text` writes, if it writes one.
pub fn parse_number(text: &str) -> (out: Option<usize>)
    ensures
        out == number_of(text@),
{
    parse_chars(&chars_of(text))
}

/// Reading the decimal digits of a number gives the number back.
pub proof fn decimal_reads_back(n: usize)
    ensures
        number_of(decimal(n as nat)) == Some(n),
{
    lemma_decimal(n as nat);
    assert(digit(decimal(n as nat)[0]));
}

/// The decimal digits of a number are digits, there is at least one, and they
/// stand for the number.
pub proof fn lemma_decimal(n: nat)
    ensures
        decimal(n).len() > 0,
        all_digits(decimal(n)),
        digits_value(decimal(n)) == n,
    decreases n,
{
    if n < 10 {
        reveal_with_fuel(digits_value, 2);
        assert(decimal(n).drop_last() =~= Seq::<char>::empty());
    } else {
        lemma_decimal(n / 10);
        assert(decimal(n).drop_last() =~= decimal(n / 10));
    }
}

// ---------------------------------------------------------------------------
// Parts of texts
// ---------------------------------------------------------------------------

pub open spec fn ends_with(text: Seq<char>, tail: Seq<char>) -> bool {
    tail.len() <= text.len() && text.skip(text.len() - tail.len()) == tail
}

/// Whether `part` stands in `text` at position `at`.
pub open spec fn stands_at(text: Seq<char>, part: Seq<char>, at: int) -> bool {
    0 <= at && at + part.len() <= text.len() && text.subrange(at, at + part.len()) == part
}

/// Whether `part` stands in `text` at some position.
pub open spec fn contains(text: Seq<char>, part: Seq<char>) -> bool {
    exists|at: int| stands_at(text, part, at)
}

fn is_at(text: &[char], part: &[char], at: usize) -> (yes: bool)
    requires
        at <= text.len(),
    ensures
        yes == stands_at(text@, part@, at as int),
{
    if part.len() > text.len() - at {
        return false;
    }
    let mut i: usize = 0;
    while i < part.len()
        invariant
            i <= part.len(),
            at + part.len() <= text.len(),
            forall|k: int| 0 <= k < i ==> text@[at + k] == #[trigger] part@[k],
        decreases part.len() - i,
    {
        if text[at + i] != part[i] {
            assert(text@.subrange(at as int, at + part.len())[i as int] != part@[i as int]);
            return false;
        }
        i += 1;
    }
    assert(text@.subrange(at as int, at + part.len()) =~= part@);
    true
}

/// Whether `part` stands somewhere in `text`.
pub fn holds_part(text: &[char], part: &[char]) -> (yes: bool)
    ensures
        yes == contains(text@, part@),
{
    let mut at: usize = 0;
    while at < text.len()
        invariant
            at <= text.len(),
            forall|k: int| 0 <= k < at ==> !stands_at(text@, part@, k),
        decreases text.len() - at,
    {
        if is_at(text, part, at) {
            return true;
        }
        at += 1;
    }
    is_at(text, part, at)
}

/// Whether `text` ends with `tail`.
pub fn has_tail(text: &[char], tail: &[char]) -> (yes: bool)
    ensures
        yes == ends_with(text@, tail@),
{
    if tail.len() > text.len() {
        return false;
    }
    assert(text@.skip(text.len() - tail.len()) =~= text@.subrange(
        text.len() - tail.len(),
        text.len() as int,
    ));
    is_at(text, tail, text.len() - tail.len())
}

/// The part of `chars` from `lo` up to but without `hi`.
pub fn part_of(chars: &[char], lo: usize, hi: usize) -> (out: Vec<char>)
    requires
        lo <= hi <= chars.len(),
    ensures
        out@ == chars@.subrange(lo as int, hi as int),
{
    let mut out: Vec<char> = Vec::new();
    let mut i: usize = lo;
    while i < hi
        invariant
            lo <= i <= hi <= chars.len(),
            out@ == chars@.subrange(lo as int, i as int),
        decreases hi - i,
    {
        out.push(chars[i]);
        assert(chars@.subrange(lo as int, i + 1) == chars@.subrange(lo as int, i as int).push(
            chars@[i as int],
        ));
        i += 1;
    }
    out
}

// ---------------------------------------------------------------------------
// Quotes
// ---------------------------------------------------------------------------

/// A text as Rust's `Debug` writes it: in double quotes, with escapes.
pub uninterp spec fn quoted(text: Seq<char>) -> Seq<char>;

/// Calls `<str as Debug>::fmt` through `format!`. What is written depends on the
/// text alone; which characters are escaped is left open.
#[verifier::external_body]
pub(crate) fn quote(text: &str) -> (out: String)
    ensures
        out@ == quoted(text@),
{
    format!("{:?}", text)
}

// ---------------------------------------------------------------------------
// What texts keep
// ---------------------------------------------------------------------------

/// Trimming takes away white space only, and only at the ends: what is taken from the front
/// and from the back is white, and what is left neither starts nor ends with white space. A
/// text without white space at its ends is left as it is.
pub proof fn only_white_ends_are_trimmed(text: Seq<char>) -> (ends: (int, int))
    ensures
        0 <= ends.0 <= ends.1 <= text.len(),
        trimmed(text) == text.subrange(ends.0, ends.1),
        forall|i: int| 0 <= i < ends.0 || ends.1 <= i < text.len() ==> white(#[trigger] text[i]),
        ends.0 < ends.1 ==> !white(text[ends.0]) && !white(text[ends.1 - 1]),
        trimmed(trimmed(text)) == trimmed(text),
        text.len() > 0 && !white(text[0]) && !white(text.last()) ==> trimmed(text) == text,
{
    let ends = lemma_trim_ends(TrimSet::White, text);
    let part = text.subrange(ends.0, ends.1);
    let again = lemma_trim_ends(TrimSet::White, part);
    if part.len() > 0 {
        if again.0 > 0 {
            assert(in_trim_set(TrimSet::White, part[0]));
        }
        if again.1 < part.len() {
            assert(in_trim_set(TrimSet::White, part[part.len() - 1]));
        }
        assert(part.subrange(again.0, again.1) =~= part);
    } else {
        assert(part.subrange(again.0, again.1) =~= part);
    }
    if text.len() > 0 && !white(text[0]) && !white(text.last()) {
        if ends.0 > 0 {
            assert(in_trim_set(TrimSet::White, text[0]));
        }
        if ends.1 < text.len() {
            assert(in_trim_set(TrimSet::White, text[text.len() - 1]));
        }
        assert(text.subrange(ends.0, ends.1) =~= text);
    }
    ends
}

proof fn lemma_trim_ends(set: TrimSet, text: Seq<char>) -> (ends: (int, int))
    ensures
        0 <= ends.0 <= ends.1 <= text.len(),
        trim_both(set, text) == text.subrange(ends.0, ends.1),
        forall|i: int|
            0 <= i < ends.0 || ends.1 <= i < text.len() ==> in_trim_set(set, #[trigger] text[i]),
        ends.0 < ends.1 ==> !in_trim_set(set, text[ends.0]) && !in_trim_set(set, text[ends.1 - 1]),
    decreases text.len(),
{
    if text.len() > 0 && in_trim_set(set, text[0]) {
        let rest = text.drop_first();
        let ends = lemma_trim_ends(set, rest);
        assert(rest.subrange(ends.0, ends.1) =~= text.subrange(ends.0 + 1, ends.1 + 1));
        assert forall|i: int|
            0 <= i < ends.0 + 1 || ends.1 + 1 <= i < text.len() implies in_trim_set(
            set,
            #[trigger] text[i],
        ) by {
            if i > 0 {
                assert(rest[i - 1] == text[i]);
            }
        }
        (ends.0 + 1, ends.1 + 1)
    } else {
        let end = lemma_trim_back_end(set, text);
        (0, end)
    }
}

proof fn lemma_trim_back_end(set: TrimSet, text: Seq<char>) -> (end: int)
    ensures
        0 <= end <= text.len(),
        trim_back(set, text) == text.subrange(0, end),
        forall|i: int| end <= i < text.len() ==> in_trim_set(set, #[trigger] text[i]),
        0 < end ==> !in_trim_set(set, text[end - 1]),
    decreases text.len(),
{
    if text.len() > 0 && in_trim_set(set, text.last()) {
        let rest = text.drop_last();
        let end = lemma_trim_back_end(set, rest);
        assert(rest.subrange(0, end) =~= text.subrange(0, end));
        assert forall|i: int| end <= i < text.len() implies in_trim_set(set, #[trigger] text[i]) by {
            if i < rest.len() {
                assert(rest[i] == text[i]);
            }
        }
        end
    } else {
        assert(text.subrange(0, text.len() as int) =~= text);
        text.len() as int
    }
}

/// What is white space: the controls from tab to carriage return, the space, the next line,
/// the no-break space and the spaces of other scripts and widths. No letter, digit or mark
/// of ASCII is.
pub proof fn white_space_is_known(c: char)
    ensures
        ({
            let n = c as int;
            white(c) <==> n == 32 || 9 <= n <= 13 || n == 133 || n == 160 || n == 5760 || 8192 <= n
                <= 8202 || n == 8232 || n == 8233 || n == 8239 || n == 8287 || n == 12288
        }),
        33 <= c as int <= 126 ==> !white(c),
        ascii_white(c) ==> white(c),
        ascii_white(c) <==> c as int == 32 || c as int == 9 || c as int == 10 || c as int == 12
            || c as int == 13,
{
}

/// Small letters stand 32 behind their capitals. Nothing but a capital is changed, and what
/// is in small letters stays as it is.
pub proof fn lowering_changes_capitals_only(text: Seq<char>, i: int)
    requires
        0 <= i < text.len(),
    ensures
        lower(text).len() == text.len(),
        65 <= text[i] as int <= 90 ==> lower(text)[i] as int == text[i] as int + 32,
        !(65 <= text[i] as int <= 90) ==> lower(text)[i] == text[i],
        lower(lower(text)) == lower(text),
{
    assert(lower(lower(text)) =~= lower(text));
}

/// Numbers are written in base ten: the last digit is what ten leaves of a number, and the
/// digits before it write the tenth part. Digits are those from '0' to '9' in their order,
/// and there is no zero in front but for the number zero itself.
pub proof fn numbers_are_written_in_tens(n: nat, d: nat)
    requires
        d < 10,
    ensures
        decimal(d) == seq![(('0' as u32 + d) as char)],
        n > 0 ==> decimal(n * 10 + d) == decimal(n) + decimal(d),
        n > 0 ==> decimal(n)[0] != '0',
    decreases n,
{
    if n > 0 {
        assert((n * 10 + d) / 10 == n && (n * 10 + d) % 10 == d);
        assert(decimal(n * 10 + d) =~= decimal(n) + decimal(d));
        if n >= 10 {
            numbers_are_written_in_tens(n / 10, n % 10);
            assert(decimal(n) == decimal(n / 10).push(digit_char(n % 10)));
            lemma_decimal(n / 10);
        }
    }
}

/// A number is read from its digits, with zeros in front of them or a plus sign or neither,
/// and from nothing else: not from an empty text, nor from one with any other character.
pub proof fn numbers_are_read_from_digits(text: Seq<char>, c: char)
    requires
        text.len() > 0,
    ensures
        number_of(Seq::empty()) is None,
        all_digits(text) && digits_value(text) <= usize::MAX ==> {
            &&& number_of(text) == Some(digits_value(text) as usize)
            &&& number_of(seq!['+'] + text) == number_of(text)
            &&& number_of(seq!['0'] + text) == number_of(text)
        },
        digit(c) ==> digits_value(text.push(c)) == 10 * digits_value(text) + (c as int - '0' as int),
        !digit(c) ==> number_of(text.push(c)) is None,
        !digit(c) && c != '+' ==> number_of(seq![c] + text) is None,
{
    assert(text.push(c).drop_last() =~= text);
    if all_digits(text) {
        assert(digit(text[0]));
        let plus = seq!['+'] + text;
        assert(plus.drop_first() =~= text);
        let zero = seq!['0'] + text;
        lemma_leading_zero(text);
        assert(all_digits(zero)) by {
            assert forall|i: int| 0 <= i < zero.len() implies digit(#[trigger] zero[i]) by {
                if i > 0 {
                    assert(zero[i] == text[i - 1]);
                }
            }
        }
    }
    if !digit(c) {
        let more = text.push(c);
        let digits = without_plus(more);
        assert(digits[digits.len() - 1] == c);
        let front = seq![c] + text;
        assert(front[0] == c);
    }
}

proof fn lemma_leading_zero(text: Seq<char>)
    ensures
        digits_value(seq!['0'] + text) == digits_value(text),
    decreases text.len(),
{
    let zero = seq!['0'] + text;
    if text.len() == 0 {
        assert(zero.drop_last() =~= Seq::<char>::empty());
        assert(zero.last() == '0');
        reveal_with_fuel(digits_value, 2);
    } else {
        lemma_leading_zero(text.drop_last());
        assert(zero.drop_last() =~= seq!['0'] + text.drop_last());
    }
}

/// A part is found wherever it stands, with anything before and behind it, and nowhere else.
pub proof fn parts_are_found_where_they_stand(
    before: Seq<char>,
    part: Seq<char>,
    behind: Seq<char>,
    text: Seq<char>,
)
    ensures
        contains(before + part + behind, part),
        ends_with(before + part, part),
        contains(text, part) ==> exists|a: Seq<char>, b: Seq<char>|
            text == #[trigger] ((a + part) + b),
        ends_with(text, part) ==> exists|a: Seq<char>| text == #[trigger] (a + part),
{
    let whole = before + part + behind;
    assert(whole.subrange(before.len() as int, (before.len() + part.len()) as int) =~= part);
    assert(stands_at(whole, part, before.len() as int));
    assert((before + part).skip(before.len() as int) =~= part);
    if contains(text, part) {
        let at = choose|at: int| stands_at(text, part, at);
        let a = text.take(at);
        let b = text.skip(at + part.len());
        assert(text =~= (a + part) + b);
    }
    if ends_with(text, part) {
        let a = text.take(text.len() - part.len());
        assert(text =~= a + part);
    }
}

} // verus!
