//! The parser: the grammar, run over the characters of a text.

use crate::error::{Expected, SyntaxError};
use crate::grammar::{
    arity, kind_at, parse_argument, parse_arguments, parse_call, parse_fixed, parse_list,
    parse_literal, parse_name, parse_role_name, parse_text_spec, quoted, rule_of_keyword, ArgKind,
    Parsed, ParsedList,
};
use crate::lex::{chars_of, lemma_run_len, run_end, CharClass};
use crate::token::{
    char_at, classify_token, quote_at, role_tree, slice_of, split_role_bounds, text_of,
};
use crate::tree::{leaf, models, ParseTree, ParseTreeModel, Rule};
use vstd::prelude::*;

verus! {

/// What a parsing step returns: the tree and the offset behind it.
pub type Step = Result<(ParseTree, usize), SyntaxError>;

/// What a parsing step over arguments returns: the trees and the offset behind them.
pub type Steps = Result<(Vec<ParseTree>, usize), SyntaxError>;

/// Whether the step `r`, taken at `i`, is what the grammar finds there.
pub open spec fn agrees(r: Step, p: Parsed, i: int) -> bool {
    match p {
        Ok((tree, n)) => r matches Ok((t, end)) && t@ == tree && end == i + n,
        Err(e) => r matches Err(f) && f == e,
    }
}

/// Whether the step `r`, taken at `i`, is what the grammar finds there.
pub open spec fn agree(r: Steps, p: ParsedList, i: int) -> bool {
    match p {
        Ok((trees, n)) => r matches Ok((ts, end)) && models(ts@) == trees && end == i + n,
        Err(e) => r matches Err(f) && f == e,
    }
}

/// The list `p` with the trees `front` before it, found `shift` characters earlier.
pub open spec fn prepend(front: Seq<ParseTreeModel>, shift: int, p: ParsedList) -> ParsedList {
    match p {
        Ok((rest, m)) => Ok((front + rest, (shift + m) as nat)),
        Err(e) => Err(e),
    }
}

pub fn equal_chars(a: &Vec<char>, b: &Vec<char>) -> (same: bool)
    ensures
        same == (a@ == b@),
{
    if a.len() != b.len() {
        return false;
    }
    let mut j: usize = 0;
    while j < a.len()
        invariant
            j <= a.len() == b.len(),
            forall|k: int| 0 <= k < j ==> a@[k] == b@[k],
        decreases a.len() - j,
    {
        if a[j] != b[j] {
            return false;
        }
        j = j + 1;
    }
    assert(a@ =~= b@);
    true
}

/// Whether the characters `word` spell `name`.
pub fn spells(word: &Vec<char>, name: &str) -> (same: bool)
    ensures
        same == (word@ == name@),
{
    let other = chars_of(name);
    equal_chars(word, &other)
}

/// The function form that the name `word` selects.
pub fn keyword_rule(word: &Vec<char>) -> (r: Option<Rule>)
    ensures
        r == rule_of_keyword(word@),
{
    if spells(word, "host") {
        Some(Rule::HostMetric)
    } else if spells(word, "service") {
        Some(Rule::ServiceMetric)
    } else if spells(word, "role") {
        Some(Rule::RoleMetric)
    } else if spells(word, "roleSlots") {
        Some(Rule::RoleSlotMetric)
    } else if spells(word, "avg") {
        Some(Rule::AvgMetric)
    } else if spells(word, "max") {
        Some(Rule::MaxMetric)
    } else if spells(word, "min") {
        Some(Rule::MinMetric)
    } else if spells(word, "product") {
        Some(Rule::ProductMetric)
    } else if spells(word, "diff") {
        Some(Rule::DiffMetric)
    } else if spells(word, "divide") {
        Some(Rule::DivideMetric)
    } else if spells(word, "scale") {
        Some(Rule::ScaleMetric)
    } else if spells(word, "offset") {
        Some(Rule::OffsetMetric)
    } else if spells(word, "percentile") {
        Some(Rule::PercentileMetric)
    } else if spells(word, "timeShift") {
        Some(Rule::TimeShiftMetric)
    } else if spells(word, "movingAverage") {
        Some(Rule::MovingAverageMetric)
    } else if spells(word, "linearRegression") {
        Some(Rule::LinearRegressionMetric)
    } else if spells(word, "timeLeftForecast") {
        Some(Rule::TimeLeftForecastMetric)
    } else if spells(word, "group") {
        Some(Rule::GroupMetric)
    } else if spells(word, "stack") {
        Some(Rule::StackMetric)
    } else {
        None
    }
}

/// The number of arguments of a function form other than `group`.
pub fn arity_of(rule: Rule) -> (n: usize)
    ensures
        n == arity(rule),
{
    match rule {
        Rule::HostMetric | Rule::ServiceMetric | Rule::RoleMetric | Rule::RoleSlotMetric => 2,
        Rule::AvgMetric | Rule::MaxMetric | Rule::MinMetric | Rule::ProductMetric
        | Rule::StackMetric => 1,
        Rule::DiffMetric | Rule::DivideMetric => 2,
        Rule::ScaleMetric | Rule::OffsetMetric | Rule::PercentileMetric | Rule::TimeShiftMetric
        | Rule::MovingAverageMetric | Rule::LinearRegressionMetric => 2,
        Rule::TimeLeftForecastMetric => 3,
        _ => 0,
    }
}

/// The kind of the argument `k` of a function form.
pub fn kind_of(rule: Rule, k: usize) -> (kind: ArgKind)
    ensures
        kind == kind_at(rule, k as nat),
{
    match rule {
        Rule::HostMetric | Rule::ServiceMetric => ArgKind::Name,
        Rule::RoleMetric | Rule::RoleSlotMetric => if k == 0 {
            ArgKind::RoleName
        } else {
            ArgKind::Name
        },
        Rule::ScaleMetric | Rule::OffsetMetric | Rule::PercentileMetric | Rule::TimeShiftMetric
        | Rule::MovingAverageMetric | Rule::LinearRegressionMetric
        | Rule::TimeLeftForecastMetric => if k == 0 {
            ArgKind::Nested
        } else {
            ArgKind::Literal
        },
        _ => ArgKind::Nested,
    }
}

/// The offset of the quote that closes the quoted token that opens at `i`.
pub fn closing_quote(chars: &Vec<char>, i: usize) -> (r: Option<usize>)
    requires
        i < chars.len(),
    ensures
        match r {
            Some(close) => i < close < chars.len() && quoted(chars@, i as int) == Some(
                chars@.subrange(i + 1, close as int),
            ),
            None => quoted(chars@, i as int) is None,
        },
{
    let close = run_end(chars, i + 1, CharClass::Except(chars[i]));
    proof {
        lemma_run_len(chars@, i + 1, CharClass::Except(chars@[i as int]));
    }
    if close < chars.len() {
        Some(close)
    } else {
        None
    }
}

/// The content of a quoted token at `i` as an identifier, or `expected` at `i`
/// where the token does not close.
pub fn read_quoted(src: &str, chars: &Vec<char>, i: usize, expected: Expected) -> (r: Step)
    requires
        chars@ == src@,
        i < chars.len(),
    ensures
        match quoted(src@, i as int) {
            Some(content) => r matches Ok((t, end)) && t@ == leaf(Rule::Identifier, content)
                && end == i + content.len() + 2 && end <= chars.len(),
            None => r matches Err(e) && e == (SyntaxError { position: i, expected }),
        },
{
    match closing_quote(chars, i) {
        Some(close) => Ok(
            (ParseTree::new_leaf(Rule::Identifier, text_of(src, i + 1, close)), close + 1),
        ),
        None => Err(SyntaxError { position: i, expected }),
    }
}

/// The identifier at `i`.
pub fn read_name(src: &str, chars: &Vec<char>, i: usize) -> (r: Step)
    requires
        chars@ == src@,
        i <= chars.len(),
    ensures
        agrees(r, parse_name(src@, i as int), i as int),
        r matches Ok((_, end)) ==> end <= chars.len(),
{
    if quote_at(chars, i) {
        read_quoted(src, chars, i, Expected::Identifier)
    } else {
        let end = run_end(chars, i, CharClass::Bare);
        if end > i {
            Ok((ParseTree::new_leaf(Rule::Identifier, text_of(src, i, end)), end))
        } else {
            Err(SyntaxError { position: i, expected: Expected::Identifier })
        }
    }
}

/// The tree of a role identifier whose components `src` holds at the given offsets.
pub fn role_node(src: &str, a: usize, b: usize, c: usize, d: usize) -> (t: ParseTree)
    requires
        a <= b <= c <= d <= src@.len(),
    ensures
        t@ == role_tree(src@.subrange(a as int, b as int), src@.subrange(c as int, d as int)),
{
    let mut children: Vec<ParseTree> = Vec::new();
    children.push(ParseTree::new_leaf(Rule::Identifier, text_of(src, a, b)));
    children.push(ParseTree::new_leaf(Rule::Identifier, text_of(src, c, d)));
    let t = ParseTree::new_branch(Rule::RoleIdentifier, children);
    assert(t@.children =~= role_tree(
        src@.subrange(a as int, b as int),
        src@.subrange(c as int, d as int),
    ).children);
    t
}

/// The role identifier at `i`.
pub fn read_role_name(src: &str, chars: &Vec<char>, i: usize) -> (r: Step)
    requires
        chars@ == src@,
        i <= chars.len(),
    ensures
        agrees(r, parse_role_name(src@, i as int), i as int),
        r matches Ok((_, end)) ==> end <= chars.len(),
{
    let failure = SyntaxError { position: i, expected: Expected::RoleIdentifier };
    if quote_at(chars, i) {
        match closing_quote(chars, i) {
            None => Err(failure),
            Some(close) => {
                let content = slice_of(chars, i + 1, close);
                match split_role_bounds(&content) {
                    None => Err(failure),
                    Some((a, b, c, d)) => {
                        proof {
                            let t = src@.subrange(i + 1, close as int);
                            assert(t.subrange(a as int, b as int) =~= src@.subrange(
                                i + 1 + a,
                                i + 1 + b,
                            ));
                            assert(t.subrange(c as int, d as int) =~= src@.subrange(
                                i + 1 + c,
                                i + 1 + d,
                            ));
                        }
                        Ok((role_node(src, i + 1 + a, i + 1 + b, i + 1 + c, i + 1 + d), close + 1))
                    },
                }
            },
        }
    } else {
        let colon = run_end(chars, i, CharClass::Bare);
        if colon > i && char_at(chars, colon, ':') {
            let end = run_end(chars, colon + 1, CharClass::Bare);
            if end > colon + 1 {
                return Ok((role_node(src, i, colon, colon + 1, end), end));
            }
        }
        Err(failure)
    }
}

/// The literal argument at `i`.
pub fn read_literal(src: &str, chars: &Vec<char>, i: usize) -> (r: Step)
    requires
        chars@ == src@,
        i <= chars.len(),
    ensures
        agrees(r, parse_literal(src@, i as int), i as int),
        r matches Ok((_, end)) ==> end <= chars.len(),
{
    if quote_at(chars, i) {
        read_quoted(src, chars, i, Expected::Argument)
    } else {
        let end = run_end(chars, i, CharClass::Argument);
        if end > i {
            Ok((classify_token(src, chars, i, end), end))
        } else {
            Err(SyntaxError { position: i, expected: Expected::Argument })
        }
    }
}

/// The function form at `i`.
pub fn read_call(src: &str, chars: &Vec<char>, i: usize) -> (r: Step)
    requires
        chars@ == src@,
        i <= chars.len(),
    ensures
        agrees(r, parse_call(src@, i as int), i as int),
        r matches Ok((_, end)) ==> end <= chars.len(),
    decreases chars.len() - i, 0nat,
{
    let name_end = run_end(chars, i, CharClass::Letter);
    let word = slice_of(chars, i, name_end);
    match keyword_rule(&word) {
        None => Err(SyntaxError { position: i, expected: Expected::Function }),
        Some(rule) => {
            let open = run_end(chars, name_end, CharClass::Space);
            if !char_at(chars, open, '(') {
                return Err(SyntaxError { position: open, expected: Expected::Open });
            }
            match read_arguments(src, chars, open + 1, rule) {
                Err(e) => Err(e),
                Ok((children, end)) => {
                    let close = run_end(chars, end, CharClass::Space);
                    if !char_at(chars, close, ')') {
                        return Err(SyntaxError { position: close, expected: Expected::Close });
                    }
                    Ok((ParseTree::new_branch(rule, children), close + 1))
                },
            }
        },
    }
}

/// The arguments of the form `rule`, which start at `i` behind its `(`.
pub fn read_arguments(src: &str, chars: &Vec<char>, i: usize, rule: Rule) -> (r: Steps)
    requires
        chars@ == src@,
        i <= chars.len(),
    ensures
        agree(r, parse_arguments(src@, i as int, rule), i as int),
        r matches Ok((_, end)) ==> end <= chars.len(),
    decreases chars.len() - i, 3nat,
{
    match rule {
        Rule::GroupMetric => read_list(src, chars, i),
        _ => read_fixed(src, chars, i, rule, 0),
    }
}

/// The arguments of the form `rule` from the argument `k` on.
pub fn read_fixed(src: &str, chars: &Vec<char>, i: usize, rule: Rule, k: usize) -> (r: Steps)
    requires
        chars@ == src@,
        i <= chars.len(),
        k < usize::MAX,
    ensures
        agree(r, parse_fixed(src@, i as int, rule, k as nat), i as int),
        r matches Ok((_, end)) ==> end <= chars.len(),
    decreases chars.len() - i, 2nat,
{
    proof {
        reveal(parse_argument);
    }
    let start = run_end(chars, i, CharClass::Space);
    match read_argument(src, chars, start, kind_of(rule, k)) {
        Err(e) => Err(e),
        Ok((tree, end)) => {
            if k + 1 >= arity_of(rule) {
                let mut trees: Vec<ParseTree> = Vec::new();
                let ghost first = tree@;
                trees.push(tree);
                assert(models(trees@) =~= seq![first]);
                Ok((trees, end))
            } else {
                let comma = run_end(chars, end, CharClass::Space);
                if !char_at(chars, comma, ',') {
                    return Err(SyntaxError { position: comma, expected: Expected::Comma });
                }
                match read_fixed(src, chars, comma + 1, rule, k + 1) {
                    Err(e) => Err(e),
                    Ok((rest, last)) => {
                        let mut trees: Vec<ParseTree> = Vec::new();
                        let ghost first = tree@;
                        let ghost others = models(rest@);
                        trees.push(tree);
                        let mut rest = rest;
                        trees.append(&mut rest);
                        assert(models(trees@) =~= seq![first] + others);
                        Ok((trees, last))
                    },
                }
            }
        },
    }
}

/// One or more nested metrics from `i` on.
pub fn read_list(src: &str, chars: &Vec<char>, i: usize) -> (r: Steps)
    requires
        chars@ == src@,
        i <= chars.len(),
    ensures
        agree(r, parse_list(src@, i as int), i as int),
        r matches Ok((_, end)) ==> end <= chars.len(),
    decreases chars.len() - i, 2nat,
{
    let mut trees: Vec<ParseTree> = Vec::new();
    let mut at: usize = i;
    assert(Seq::<ParseTreeModel>::empty() + parse_list(src@, i as int)->Ok_0.0
        =~= parse_list(src@, i as int)->Ok_0.0);
    loop
        invariant
            chars@ == src@,
            i <= at <= chars.len(),
            parse_list(src@, i as int) == prepend(
                models(trees@),
                at - i,
                parse_list(src@, at as int),
            ),
        decreases chars.len() - at,
    {
        let start = run_end(chars, at, CharClass::Space);
        match read_call(src, chars, start) {
            Err(e) => {
                return Err(e);
            },
            Ok((tree, end)) => {
                let comma = run_end(chars, end, CharClass::Space);
                let ghost front = models(trees@);
                let ghost first = tree@;
                trees.push(tree);
                assert(models(trees@) =~= front + seq![first]);
                if char_at(chars, comma, ',') {
                    proof {
                        let tail = parse_list(src@, comma + 1);
                        if tail is Ok {
                            assert((front + seq![first]) + tail->Ok_0.0 =~= front + (seq![first]
                                + tail->Ok_0.0));
                        }
                    }
                    at = comma + 1;
                } else {
                    return Ok((trees, end));
                }
            },
        }
    }
}

/// One argument of the given kind at `i`.
pub fn read_argument(src: &str, chars: &Vec<char>, i: usize, kind: ArgKind) -> (r: Step)
    requires
        chars@ == src@,
        i <= chars.len(),
    ensures
        agrees(r, parse_argument(src@, i as int, kind), i as int),
        r matches Ok((_, end)) ==> end <= chars.len(),
    decreases chars.len() - i, 1nat,
{
    proof {
        reveal(parse_argument);
    }
    match kind {
        ArgKind::Name => read_name(src, chars, i),
        ArgKind::RoleName => read_role_name(src, chars, i),
        ArgKind::Literal => read_literal(src, chars, i),
        ArgKind::Nested => read_call(src, chars, i),
    }
}

/// The parse tree of the text `src`, or the first place where it does not
/// conform to the grammar. The characters of a text can be counted.
pub fn parse_text(src: &str) -> (r: Result<ParseTree, SyntaxError>)
    ensures
        match parse_text_spec(src@) {
            Ok(tree) => r matches Ok(t) && t@ == tree,
            Err(e) => r matches Err(f) && f == e,
        },
        src@.len() <= usize::MAX,
{
    let chars = chars_of(src);
    let start = run_end(&chars, 0, CharClass::Space);
    match read_call(src, &chars, start) {
        Err(e) => Err(e),
        Ok((tree, end)) => {
            let rest = run_end(&chars, end, CharClass::Space);
            if rest == chars.len() {
                Ok(tree)
            } else {
                Err(SyntaxError { position: rest, expected: Expected::End })
            }
        },
    }
}

} // verus!
