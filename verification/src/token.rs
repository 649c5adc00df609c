//! The shapes of the tokens: numbers, fractions, durations, role identifiers.

use crate::lex::{class_holds, is_space, lemma_run_len, run_end, run_len, CharClass};
use crate::tree::{branch, leaf, ParseTree, ParseTreeModel, Rule};
use vstd::prelude::*;
use vstd::string::StrSliceExecFns;

verus! {

pub open spec fn is_sign(c: char) -> bool {
    c == '+' || c == '-'
}

pub open spec fn is_quote(c: char) -> bool {
    c == '\'' || c == '"'
}

/// Whether the character at the offset `i` of `s` exists and is `c`.
pub open spec fn has_char(s: Seq<char>, i: int, c: char) -> bool {
    0 <= i < s.len() && s[i] == c
}

/// Whether a quoted token starts at the offset `i` of `s`.
pub open spec fn has_quote(s: Seq<char>, i: int) -> bool {
    0 <= i < s.len() && is_quote(s[i])
}

/// The offset behind the sign at `i`, or `i` where no sign stands.
pub open spec fn after_sign(t: Seq<char>, i: int) -> int {
    if 0 <= i < t.len() && is_sign(t[i]) {
        i + 1
    } else {
        i
    }
}

/// The offset behind the digits of the integer part, which starts at the front of `t`
/// with an optional sign.
pub open spec fn integer_end(t: Seq<char>) -> int {
    after_sign(t, 0) + run_len(t, after_sign(t, 0), CharClass::Digit)
}

/// The offset behind the fractional part, or `integer_end` where `t` has no `.` there.
pub open spec fn fraction_end(t: Seq<char>) -> int {
    let b = integer_end(t);
    if has_char(t, b, '.') {
        b + 1 + run_len(t, b + 1, CharClass::Digit)
    } else {
        b
    }
}

/// Whether an exponent mark stands behind the fractional part.
pub open spec fn has_exponent(t: Seq<char>) -> bool {
    has_char(t, fraction_end(t), 'e') || has_char(t, fraction_end(t), 'E')
}

/// The offset of the first digit of the exponent, where `t` has an exponent.
pub open spec fn exponent_digits(t: Seq<char>) -> int {
    after_sign(t, fraction_end(t) + 1)
}

/// The offset behind the exponent, or `fraction_end` where `t` has none.
pub open spec fn exponent_end(t: Seq<char>) -> int {
    if has_exponent(t) {
        exponent_digits(t) + run_len(t, exponent_digits(t), CharClass::Digit)
    } else {
        fraction_end(t)
    }
}

/// A decimal number: an optional sign, digits, optionally `.` and digits,
/// optionally `e` or `E`, an optional sign and digits; and nothing else.
pub open spec fn is_double(t: Seq<char>) -> bool {
    &&& integer_end(t) > after_sign(t, 0)
    &&& has_char(t, integer_end(t), '.') ==> fraction_end(t) > integer_end(t) + 1
    &&& has_exponent(t) ==> exponent_end(t) > exponent_digits(t)
    &&& exponent_end(t) == t.len()
}

/// A duration: digits followed at once by letters, and nothing else.
pub open spec fn is_duration(t: Seq<char>) -> bool {
    let a = run_len(t, 0, CharClass::Digit);
    let b = run_len(t, a as int, CharClass::Letter);
    a > 0 && b > 0 && a + b == t.len()
}

/// Whether `t` is two decimal numbers around its first `/`.
pub open spec fn is_fraction(t: Seq<char>) -> bool {
    let p = run_len(t, 0, CharClass::Except('/')) as int;
    p < t.len() && is_double(t.subrange(0, p)) && is_double(t.subrange(p + 1, t.len() as int))
}

/// The parse tree of an unquoted literal argument, by its shape.
pub open spec fn classify(t: Seq<char>) -> ParseTreeModel {
    let p = run_len(t, 0, CharClass::Except('/')) as int;
    if is_fraction(t) {
        ParseTreeModel {
            rule: Rule::Fraction,
            text: t,
            children: seq![
                leaf(Rule::Double, t.subrange(0, p)),
                leaf(Rule::Double, t.subrange(p + 1, t.len() as int)),
            ],
        }
    } else if is_double(t) {
        leaf(Rule::Double, t)
    } else if is_duration(t) {
        leaf(Rule::Duration, t)
    } else {
        leaf(Rule::Identifier, t)
    }
}

/// The number of whitespace characters at the end of `t`.
pub open spec fn trailing_spaces(t: Seq<char>) -> nat
    decreases t.len(),
{
    if t.len() > 0 && is_space(t.last()) {
        1 + trailing_spaces(t.drop_last())
    } else {
        0
    }
}

/// The offset of the first character of `t` that is no whitespace.
pub open spec fn trim_start(t: Seq<char>) -> int {
    run_len(t, 0, CharClass::Space) as int
}

/// The offset behind the last character of `t` that is no whitespace.
pub open spec fn trim_end(t: Seq<char>) -> int {
    t.len() - trailing_spaces(t)
}

/// `t` without the whitespace at its two ends.
pub open spec fn trim(t: Seq<char>) -> Seq<char> {
    if trim_start(t) >= t.len() {
        Seq::empty()
    } else {
        t.subrange(trim_start(t), trim_end(t))
    }
}

/// The offset of the only `:` of `t`, where `t` holds exactly one.
pub open spec fn colon_of(t: Seq<char>) -> Option<int> {
    let p = run_len(t, 0, CharClass::Except(':')) as int;
    if p < t.len() && p + 1 + run_len(t, p + 1, CharClass::Except(':')) == t.len() {
        Some(p)
    } else {
        None
    }
}

/// The service and the role of a quoted role identifier with the content `t`:
/// the two sides of its only `:`, trimmed, where neither is empty.
pub open spec fn split_role(t: Seq<char>) -> Option<(Seq<char>, Seq<char>)> {
    match colon_of(t) {
        None => None,
        Some(p) => {
            let service = trim(t.subrange(0, p));
            let role = trim(t.subrange(p + 1, t.len() as int));
            if service.len() > 0 && role.len() > 0 {
                Some((service, role))
            } else {
                None
            }
        },
    }
}

/// The parse tree of a role identifier with the given components.
pub open spec fn role_tree(service: Seq<char>, role: Seq<char>) -> ParseTreeModel {
    branch(
        Rule::RoleIdentifier,
        seq![leaf(Rule::Identifier, service), leaf(Rule::Identifier, role)],
    )
}

pub proof fn lemma_trailing_spaces(t: Seq<char>)
    ensures
        trailing_spaces(t) <= t.len(),
        forall|j: int| t.len() - trailing_spaces(t) <= j < t.len() ==> is_space(#[trigger] t[j]),
        trailing_spaces(t) < t.len() ==> !is_space(t[t.len() - trailing_spaces(t) - 1]),
    decreases t.len(),
{
    if t.len() > 0 && is_space(t.last()) {
        let u = t.drop_last();
        lemma_trailing_spaces(u);
        assert forall|j: int| t.len() - trailing_spaces(t) <= j < t.len() implies is_space(
            #[trigger] t[j],
        ) by {
            if j < u.len() {
                assert(t[j] == u[j]);
            }
        }
        if trailing_spaces(t) < t.len() {
            assert(t[t.len() - trailing_spaces(t) - 1] == u[u.len() - trailing_spaces(u) - 1]);
        }
    }
}

/// The characters of `chars` from `from` up to `to`.
pub fn slice_of(chars: &Vec<char>, from: usize, to: usize) -> (part: Vec<char>)
    requires
        from <= to <= chars.len(),
    ensures
        part@ == chars@.subrange(from as int, to as int),
{
    let mut part: Vec<char> = Vec::new();
    let mut j: usize = from;
    while j < to
        invariant
            from <= j <= to <= chars.len(),
            part@ == chars@.subrange(from as int, j as int),
        decreases to - j,
    {
        part.push(chars[j]);
        j = j + 1;
        assert(part@ =~= chars@.subrange(from as int, j as int));
    }
    part
}

/// The text of `src` from the character `from` up to the character `to`.
pub fn text_of(src: &str, from: usize, to: usize) -> (text: String)
    requires
        from <= to <= src@.len(),
    ensures
        text@ == src@.subrange(from as int, to as int),
{
    src.substring_char(from, to).to_owned()
}

pub fn sign_at(t: &Vec<char>, i: usize) -> (b: bool)
    ensures
        b == (i < t.len() && is_sign(t@[i as int])),
{
    i < t.len() && (t[i] == '+' || t[i] == '-')
}

pub fn char_at(t: &Vec<char>, i: usize, c: char) -> (b: bool)
    ensures
        b == has_char(t@, i as int, c),
{
    i < t.len() && t[i] == c
}

pub fn quote_at(t: &Vec<char>, i: usize) -> (b: bool)
    ensures
        b == has_quote(t@, i as int),
{
    i < t.len() && (t[i] == '\'' || t[i] == '"')
}

/// Whether `t` is a decimal number.
pub fn double_shape(t: &Vec<char>) -> (b: bool)
    ensures
        b == is_double(t@),
{
    let a: usize = if sign_at(t, 0) { 1 } else { 0 };
    let b = run_end(t, a, CharClass::Digit);
    if b == a {
        return false;
    }
    let mut c: usize = b;
    if char_at(t, b, '.') {
        c = run_end(t, b + 1, CharClass::Digit);
        if c == b + 1 {
            return false;
        }
    }
    let mut d: usize = c;
    if char_at(t, c, 'e') || char_at(t, c, 'E') {
        let y: usize = if sign_at(t, c + 1) { c + 2 } else { c + 1 };
        d = run_end(t, y, CharClass::Digit);
        if d == y {
            return false;
        }
    }
    d == t.len()
}

/// The parse tree of the unquoted literal argument that `src` holds from `lo` to `hi`.
pub fn classify_token(src: &str, chars: &Vec<char>, lo: usize, hi: usize) -> (tree: ParseTree)
    requires
        chars@ == src@,
        lo <= hi <= chars.len(),
    ensures
        tree@ == classify(src@.subrange(lo as int, hi as int)),
{
    let tok = slice_of(chars, lo, hi);
    let p = run_end(&tok, 0, CharClass::Except('/'));
    if p < tok.len() {
        let numerator = slice_of(&tok, 0, p);
        let denominator = slice_of(&tok, p + 1, tok.len());
        if double_shape(&numerator) && double_shape(&denominator) {
            let mut children: Vec<ParseTree> = Vec::new();
            children.push(ParseTree::new_leaf(Rule::Double, text_of(src, lo, lo + p)));
            children.push(ParseTree::new_leaf(Rule::Double, text_of(src, lo + p + 1, hi)));
            let tree = ParseTree { rule: Rule::Fraction, text: text_of(src, lo, hi), children };
            proof {
                let t = src@.subrange(lo as int, hi as int);
                assert(src@.subrange(lo as int, lo + p) =~= t.subrange(0, p as int));
                assert(src@.subrange(lo + p + 1, hi as int) =~= t.subrange(p + 1, t.len() as int));
                assert(tree@.children =~= classify(t).children);
            }
            return tree;
        }
    }
    let rule = if double_shape(&tok) {
        Rule::Double
    } else if duration_shape(&tok) {
        Rule::Duration
    } else {
        Rule::Identifier
    };
    ParseTree::new_leaf(rule, text_of(src, lo, hi))
}

/// The two ends of `t` without the whitespace around it: `start >= end` where
/// `t` holds nothing but whitespace.
pub fn trim_bounds(t: &Vec<char>) -> (bounds: (usize, usize))
    ensures
        bounds.0 == trim_start(t@),
        bounds.1 == trim_end(t@),
        bounds.0 < t.len() ==> bounds.0 < bounds.1 <= t.len(),
{
    let start = run_end(t, 0, CharClass::Space);
    let mut end: usize = t.len();
    assert(t@.subrange(0, t.len() as int) =~= t@);
    while end > 0 && class_holds(CharClass::Space, t[end - 1])
        invariant
            end <= t.len(),
            end - trailing_spaces(t@.subrange(0, end as int)) == trim_end(t@),
        decreases end,
    {
        proof {
            let u = t@.subrange(0, end as int);
            assert(u.drop_last() =~= t@.subrange(0, end - 1));
            assert(u.last() == t@[end - 1]);
        }
        end = end - 1;
    }
    proof {
        assert(t@.subrange(0, t.len() as int) =~= t@);
        let u = t@.subrange(0, end as int);
        if end > 0 {
            assert(u.last() == t@[end - 1]);
        }
        lemma_run_len(t@, 0, CharClass::Space);
        lemma_trailing_spaces(t@);
    }
    (start, end)
}

/// Where the service and the role of a quoted role identifier lie in its content `t`:
/// the service from `.0` to `.1`, the role from `.2` to `.3`.
pub fn split_role_bounds(t: &Vec<char>) -> (r: Option<(usize, usize, usize, usize)>)
    ensures
        match r {
            Some((a, b, c, d)) => a < b <= c < d <= t.len() && split_role(t@) == Some(
                (t@.subrange(a as int, b as int), t@.subrange(c as int, d as int)),
            ),
            None => split_role(t@) is None,
        },
{
    let p = run_end(t, 0, CharClass::Except(':'));
    if p >= t.len() {
        return None;
    }
    let q = run_end(t, p + 1, CharClass::Except(':'));
    if q < t.len() {
        return None;
    }
    let left = slice_of(t, 0, p);
    let right = slice_of(t, p + 1, t.len());
    let (a, b) = trim_bounds(&left);
    let (c, d) = trim_bounds(&right);
    if a >= left.len() || c >= right.len() {
        return None;
    }
    proof {
        assert(left@.subrange(a as int, b as int) =~= t@.subrange(a as int, b as int));
        assert(right@.subrange(c as int, d as int) =~= t@.subrange(p + 1 + c, p + 1 + d));
    }
    Some((a, b, p + 1 + c, p + 1 + d))
}

/// Whether `t` is a duration.
pub fn duration_shape(t: &Vec<char>) -> (b: bool)
    ensures
        b == is_duration(t@),
{
    let a = run_end(t, 0, CharClass::Digit);
    let b = run_end(t, a, CharClass::Letter);
    a > 0 && b > a && b == t.len()
}

} // verus!
