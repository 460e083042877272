//! Characters and runs of characters: the alphabet under the grammar.
//!
//! A statement is read as a sequence of `char`s. Every token is a run of
//! characters of one class, a keyword or a single punctuation mark, found at
//! a position of that sequence.

use vstd::prelude::*;

verus! {

/// `String::push` appends the character to the end of the string.
pub assume_specification[ String::push ](s: &mut String, c: char)
    ensures
        final(s)@ == old(s)@.push(c),
;

/// A class of characters that a run is made of.
#[derive(Clone, Copy, Debug)]
pub enum CharClass {
    /// Blank, tab, carriage return or line feed: what separates tokens.
    Space,
    /// `0` to `9`.
    Digit,
    /// `A` to `Z` and `a` to `z`.
    Letter,
    /// A letter, a digit or `_`: what an identifier is made of.
    Word,
    /// Anything but `'`: what a text literal holds between its quotes.
    Unquoted,
    /// Whitespace in Unicode's sense: what is trimmed off a statement.
    Blank,
}

/// Whether `c` is whitespace in Unicode's sense: the characters that have
/// the property `White_Space`, which are the ones that `str::trim` takes
/// off.
pub open spec fn is_blank(c: char) -> bool {
    ('\u{9}' <= c && c <= '\u{d}') || c == ' ' || c == '\u{85}' || c == '\u{a0}' || c
        == '\u{1680}' || ('\u{2000}' <= c && c <= '\u{200a}') || c == '\u{2028}' || c
        == '\u{2029}' || c == '\u{202f}' || c == '\u{205f}' || c == '\u{3000}'
}

/// Whether `c` is one of `0` to `9`.
pub open spec fn is_digit(c: char) -> bool {
    '0' <= c && c <= '9'
}

/// Whether `c` is one of `a` to `z` or of `A` to `Z`.
pub open spec fn is_letter(c: char) -> bool {
    ('a' <= c && c <= 'z') || ('A' <= c && c <= 'Z')
}

/// Whether `c` may stand in an identifier.
pub open spec fn is_ident_char(c: char) -> bool {
    is_letter(c) || is_digit(c) || c == '_'
}

/// Whether `c` belongs to `class`.
pub open spec fn in_class(class: CharClass, c: char) -> bool {
    match class {
        CharClass::Space => c == ' ' || c == '\t' || c == '\r' || c == '\n',
        CharClass::Digit => is_digit(c),
        CharClass::Letter => is_letter(c),
        CharClass::Word => is_ident_char(c),
        CharClass::Unquoted => c != '\'',
        CharClass::Blank => is_blank(c),
    }
}

/// The lower-case form of an ASCII letter; any other character is itself.
pub open spec fn lower(c: char) -> char {
    if 'A' <= c && c <= 'Z' {
        ((c as u8) + 32) as char
    } else {
        c
    }
}

/// The lower-case form of a sequence, character by character.
pub open spec fn lowered(k: Seq<char>) -> Seq<char> {
    Seq::new(k.len(), |j: int| lower(k[j]))
}

/// Where the longest run of `class` that starts at `i` ends. It is `i`
/// itself where no character of the class stands at `i`.
pub open spec fn run_end(s: Seq<char>, class: CharClass, i: int) -> int
    decreases s.len() - i,
{
    if 0 <= i < s.len() && in_class(class, s[i]) {
        run_end(s, class, i + 1)
    } else {
        i
    }
}

/// Where the longest run of `class` that ends at `j` starts.
pub open spec fn run_start(s: Seq<char>, class: CharClass, j: int) -> int
    decreases j,
{
    if 0 < j <= s.len() && in_class(class, s[j - 1]) {
        run_start(s, class, j - 1)
    } else {
        j
    }
}

/// Where `s` starts and ends once the whitespace at its two ends is left
/// out. Where `s` is whitespace throughout, nothing is left: the range is
/// empty.
pub open spec fn trimmed_range(s: Seq<char>) -> (int, int) {
    let from = run_end(s, CharClass::Blank, 0);
    let to = run_start(s, CharClass::Blank, s.len() as int);
    if from <= to {
        (from, to)
    } else {
        (from, from)
    }
}

/// `s` without the whitespace at its two ends.
pub open spec fn trimmed(s: Seq<char>) -> Seq<char> {
    s.subrange(trimmed_range(s).0, trimmed_range(s).1)
}

/// A run is a run: it stays inside the sequence, holds only characters of
/// its class, and cannot be made longer.
pub proof fn lemma_run_end(s: Seq<char>, class: CharClass, i: int)
    requires
        0 <= i <= s.len(),
    ensures
        i <= run_end(s, class, i) <= s.len(),
        forall|j: int| i <= j < run_end(s, class, i) ==> in_class(class, #[trigger] s[j]),
        run_end(s, class, i) < s.len() ==> !in_class(class, s[run_end(s, class, i)]),
    decreases s.len() - i,
{
    if i < s.len() && in_class(class, s[i]) {
        lemma_run_end(s, class, i + 1);
    }
}

/// A run ends where its class ends: if every character from `i` up to `end`
/// is of the class and the one at `end`, if any, is not, the run that starts
/// at `i` ends at `end`.
pub proof fn lemma_run_end_is(s: Seq<char>, class: CharClass, i: int, end: int)
    requires
        0 <= i <= end <= s.len(),
        forall|j: int| i <= j < end ==> in_class(class, #[trigger] s[j]),
        end < s.len() ==> !in_class(class, s[end]),
    ensures
        run_end(s, class, i) == end,
    decreases end - i,
{
    if i < end {
        lemma_run_end_is(s, class, i + 1, end);
    }
}

/// The mirror image of `lemma_run_end`, for a run read backwards.
pub proof fn lemma_run_start(s: Seq<char>, class: CharClass, j: int)
    requires
        0 <= j <= s.len(),
    ensures
        0 <= run_start(s, class, j) <= j,
        forall|k: int| run_start(s, class, j) <= k < j ==> in_class(class, #[trigger] s[k]),
        0 < run_start(s, class, j) ==> !in_class(class, s[run_start(s, class, j) - 1]),
    decreases j,
{
    if 0 < j && in_class(class, s[j - 1]) {
        lemma_run_start(s, class, j - 1);
    }
}

/// What is trimmed off is whitespace, and what is left neither starts nor
/// ends with whitespace.
pub proof fn lemma_trimmed(s: Seq<char>)
    ensures
        0 <= trimmed_range(s).0 <= trimmed_range(s).1 <= s.len(),
        forall|i: int| 0 <= i < trimmed_range(s).0 ==> is_blank(#[trigger] s[i]),
        forall|i: int| trimmed_range(s).1 <= i < s.len() ==> is_blank(#[trigger] s[i]),
        trimmed(s).len() > 0 ==> !is_blank(trimmed(s).first()) && !is_blank(trimmed(s).last()),
{
    let from = run_end(s, CharClass::Blank, 0);
    let to = run_start(s, CharClass::Blank, s.len() as int);
    lemma_run_end(s, CharClass::Blank, 0);
    lemma_run_start(s, CharClass::Blank, s.len() as int);
    assert forall|i: int| 0 <= i < from implies is_blank(#[trigger] s[i]) by {
        assert(in_class(CharClass::Blank, s[i]));
    }
    assert forall|i: int| to <= i < s.len() implies is_blank(#[trigger] s[i]) by {
        assert(in_class(CharClass::Blank, s[i]));
    }
    if from < to {
        assert(!in_class(CharClass::Blank, s[from]));
        assert(!in_class(CharClass::Blank, s[to - 1]));
    }
}

/// Whether `c` belongs to `class`.
pub fn is_in_class(class: CharClass, c: char) -> (r: bool)
    ensures
        r == in_class(class, c),
{
    match class {
        CharClass::Space => c == ' ' || c == '\t' || c == '\r' || c == '\n',
        CharClass::Digit => '0' <= c && c <= '9',
        CharClass::Letter => ('a' <= c && c <= 'z') || ('A' <= c && c <= 'Z'),
        CharClass::Word => is_valid_ident(c),
        CharClass::Unquoted => c != '\'',
        CharClass::Blank => ('\u{9}' <= c && c <= '\u{d}') || c == ' ' || c == '\u{85}' || c
            == '\u{a0}' || c == '\u{1680}' || ('\u{2000}' <= c && c <= '\u{200a}') || c
            == '\u{2028}' || c == '\u{2029}' || c == '\u{202f}' || c == '\u{205f}' || c
            == '\u{3000}',
    }
}

/// Whether `c` may stand in an identifier: an ASCII letter, a digit or `_`.
pub fn is_valid_ident(c: char) -> (r: bool)
    ensures
        r == is_ident_char(c),
{
    ('a' <= c && c <= 'z') || ('A' <= c && c <= 'Z') || ('0' <= c && c <= '9') || c == '_'
}

/// Maps an ASCII capital to its small letter and leaves every other
/// character as it is.
pub fn to_lower(c: char) -> (r: char)
    ensures
        r == lower(c),
{
    if 'A' <= c && c <= 'Z' {
        ((c as u8) + 32) as char
    } else {
        c
    }
}

/// Walks over the run of `class` that starts at `start` and returns its end.
/// A `start` beyond the input is returned unchanged.
pub fn scan(input: &[char], class: CharClass, start: usize) -> (end: usize)
    ensures
        end == run_end(input@, class, start as int),
{
    let mut i: usize = start;
    while i < input.len() && is_in_class(class, input[i])
        invariant
            run_end(input@, class, i as int) == run_end(input@, class, start as int),
        decreases input@.len() - i,
    {
        i += 1;
    }
    i
}

/// Walks backwards over the run of `class` that ends at `end` and returns
/// its start. An `end` beyond the input is returned unchanged.
pub fn scan_back(input: &[char], class: CharClass, end: usize) -> (start: usize)
    ensures
        start == run_start(input@, class, end as int),
{
    let mut j: usize = end;
    while 0 < j && j <= input.len() && is_in_class(class, input[j - 1])
        invariant
            run_start(input@, class, j as int) == run_start(input@, class, end as int),
        decreases j,
    {
        j -= 1;
    }
    j
}

/// The characters of a string, in order.
pub fn to_chars(s: &str) -> (chars: Vec<char>)
    ensures
        chars@ == s@,
{
    let mut chars: Vec<char> = Vec::new();
    for c in it: s.chars()
        invariant
            chars@ == it.seq().take(it.index()),
    {
        chars.push(c);
    }
    chars
}

/// The string made of the characters of `input` from `from` up to `to`.
pub fn text_of(input: &[char], from: usize, to: usize) -> (text: String)
    requires
        from <= to <= input@.len(),
    ensures
        text@ == input@.subrange(from as int, to as int),
{
    let mut text = String::new();
    let mut i: usize = from;
    while i < to
        invariant
            from <= i <= to <= input@.len(),
            text@ == input@.subrange(from as int, i as int),
        decreases to - i,
    {
        text.push(input[i]);
        i += 1;
    }
    text
}

/// The bounds of `input` without the whitespace at its two ends.
pub fn trim_bounds(input: &[char]) -> (bounds: (usize, usize))
    ensures
        (bounds.0 as int, bounds.1 as int) == trimmed_range(input@),
        bounds.0 <= bounds.1 <= input@.len(),
{
    let from = scan(input, CharClass::Blank, 0);
    let to = scan_back(input, CharClass::Blank, input.len());
    proof {
        lemma_run_end(input@, CharClass::Blank, 0);
        lemma_run_start(input@, CharClass::Blank, input@.len() as int);
    }
    if from <= to {
        (from, to)
    } else {
        (from, from)
    }
}

} // verus!
