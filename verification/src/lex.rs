//! Character classes and the scanning primitives shared by the grammar.

use vstd::prelude::*;

verus! {

/// The sets of characters that the lexical rules speak of.
#[derive(Clone, Copy, Debug)]
pub enum CharClass {
    /// Insignificant whitespace: space, tab, line feed, carriage return.
    Space,
    /// ASCII letters, of which function names are made.
    Letter,
    /// ASCII decimal digits.
    Digit,
    /// What an unquoted identifier may hold: letters, digits, `.`, `_`, `-`, `*`.
    Bare,
    /// What an unquoted literal argument may hold: the bare characters, `+` and `/`.
    Argument,
    /// Every character but the given one.
    Except(char),
}

pub open spec fn is_space(c: char) -> bool {
    c == ' ' || c == '\t' || c == '\n' || c == '\r'
}

pub open spec fn is_digit(c: char) -> bool {
    '0' <= c <= '9'
}

pub open spec fn is_letter(c: char) -> bool {
    ('a' <= c <= 'z') || ('A' <= c <= 'Z')
}

pub open spec fn is_bare(c: char) -> bool {
    is_letter(c) || is_digit(c) || c == '.' || c == '_' || c == '-' || c == '*'
}

pub open spec fn is_argument(c: char) -> bool {
    is_bare(c) || c == '+' || c == '/'
}

/// Whether `c` belongs to the class `k`.
pub open spec fn in_class(k: CharClass, c: char) -> bool {
    match k {
        CharClass::Space => is_space(c),
        CharClass::Letter => is_letter(c),
        CharClass::Digit => is_digit(c),
        CharClass::Bare => is_bare(c),
        CharClass::Argument => is_argument(c),
        CharClass::Except(q) => c != q,
    }
}

/// The length of the longest run of characters of class `k` that starts at `i`.
pub open spec fn run_len(s: Seq<char>, i: int, k: CharClass) -> nat
    decreases s.len() - i,
{
    if 0 <= i < s.len() && in_class(k, s[i]) {
        1 + run_len(s, i + 1, k)
    } else {
        0
    }
}

/// Whether every character of `t` belongs to the class `k`.
pub open spec fn all_in(t: Seq<char>, k: CharClass) -> bool {
    forall|j: int| 0 <= j < t.len() ==> in_class(k, #[trigger] t[j])
}

pub fn class_holds(k: CharClass, c: char) -> (b: bool)
    ensures
        b == in_class(k, c),
{
    let letter = ('a' <= c && c <= 'z') || ('A' <= c && c <= 'Z');
    let digit = '0' <= c && c <= '9';
    let bare = letter || digit || c == '.' || c == '_' || c == '-' || c == '*';
    match k {
        CharClass::Space => c == ' ' || c == '\t' || c == '\n' || c == '\r',
        CharClass::Letter => letter,
        CharClass::Digit => digit,
        CharClass::Bare => bare,
        CharClass::Argument => bare || c == '+' || c == '/',
        CharClass::Except(q) => c != q,
    }
}

/// A run stays inside the text, holds only characters of its class, and
/// stops at the end of the text or in front of a character outside the class.
pub proof fn lemma_run_len(s: Seq<char>, i: int, k: CharClass)
    requires
        0 <= i <= s.len(),
    ensures
        i <= i + run_len(s, i, k) <= s.len(),
        forall|j: int| i <= j < i + run_len(s, i, k) ==> in_class(k, #[trigger] s[j]),
        i + run_len(s, i, k) < s.len() ==> !in_class(k, s[i + run_len(s, i, k)]),
    decreases s.len() - i,
{
    if i < s.len() && in_class(k, s[i]) {
        lemma_run_len(s, i + 1, k);
    }
}

/// The end of the longest run of class `k` that starts at `i`.
pub fn run_end(chars: &Vec<char>, i: usize, k: CharClass) -> (e: usize)
    requires
        i <= chars.len(),
    ensures
        e == i + run_len(chars@, i as int, k),
        e <= chars.len(),
{
    let mut j: usize = i;
    while j < chars.len() && class_holds(k, chars[j])
        invariant
            i <= j <= chars.len(),
            i + run_len(chars@, i as int, k) == j + run_len(chars@, j as int, k),
        decreases chars.len() - j,
    {
        j = j + 1;
    }
    j
}

/// The characters of `src`, in order.
pub fn chars_of(src: &str) -> (chars: Vec<char>)
    ensures
        chars@ == src@,
{
    let mut chars: Vec<char> = Vec::new();
    for c in it: src.chars()
        invariant
            chars@ == it.seq().take(it.index() as int),
    {
        chars.push(c);
    }
    chars
}

} // verus!
