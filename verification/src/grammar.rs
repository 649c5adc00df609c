//! The grammar of metric expressions, as functions from a text and an offset
//! to the parse tree that starts there and the number of characters it takes.

use crate::error::{syntax_error, Expected, SyntaxError};
use crate::lex::{lemma_run_len, run_len, CharClass};
use crate::token::{classify, has_char, has_quote, role_tree, split_role};
use crate::tree::{branch, leaf, ParseTreeModel, Rule};
use vstd::prelude::*;

verus! {

/// The kinds of argument that a function form takes.
#[derive(Clone, Copy, Debug, PartialEq, Eq, Structural)]
pub enum ArgKind {
    /// An identifier.
    Name,
    /// A `service:role` pair.
    RoleName,
    /// A nested metric expression.
    Nested,
    /// A literal: a number, a fraction or a duration.
    Literal,
}

/// The function form that the name `w` selects.
pub open spec fn rule_of_keyword(w: Seq<char>) -> Option<Rule> {
    if w == "host"@ {
        Some(Rule::HostMetric)
    } else if w == "service"@ {
        Some(Rule::ServiceMetric)
    } else if w == "role"@ {
        Some(Rule::RoleMetric)
    } else if w == "roleSlots"@ {
        Some(Rule::RoleSlotMetric)
    } else if w == "avg"@ {
        Some(Rule::AvgMetric)
    } else if w == "max"@ {
        Some(Rule::MaxMetric)
    } else if w == "min"@ {
        Some(Rule::MinMetric)
    } else if w == "product"@ {
        Some(Rule::ProductMetric)
    } else if w == "diff"@ {
        Some(Rule::DiffMetric)
    } else if w == "divide"@ {
        Some(Rule::DivideMetric)
    } else if w == "scale"@ {
        Some(Rule::ScaleMetric)
    } else if w == "offset"@ {
        Some(Rule::OffsetMetric)
    } else if w == "percentile"@ {
        Some(Rule::PercentileMetric)
    } else if w == "timeShift"@ {
        Some(Rule::TimeShiftMetric)
    } else if w == "movingAverage"@ {
        Some(Rule::MovingAverageMetric)
    } else if w == "linearRegression"@ {
        Some(Rule::LinearRegressionMetric)
    } else if w == "timeLeftForecast"@ {
        Some(Rule::TimeLeftForecastMetric)
    } else if w == "group"@ {
        Some(Rule::GroupMetric)
    } else if w == "stack"@ {
        Some(Rule::StackMetric)
    } else {
        None
    }
}

/// The number of arguments of a function form; `group` takes one or more
/// nested metrics and is not listed here.
pub open spec fn arity(rule: Rule) -> nat {
    match rule {
        Rule::HostMetric | Rule::ServiceMetric | Rule::RoleMetric | Rule::RoleSlotMetric => 2,
        Rule::AvgMetric | Rule::MaxMetric | Rule::MinMetric | Rule::ProductMetric
        | Rule::StackMetric => 1,
        Rule::DiffMetric | Rule::DivideMetric => 2,
        Rule::ScaleMetric | Rule::OffsetMetric | Rule::PercentileMetric | Rule::TimeShiftMetric
        | Rule::MovingAverageMetric | Rule::LinearRegressionMetric => 2,
        Rule::TimeLeftForecastMetric => 3,
        _ => 0,
    }
}

/// The kind of the argument `k` of a function form.
pub open spec fn kind_at(rule: Rule, k: nat) -> ArgKind {
    match rule {
        Rule::HostMetric | Rule::ServiceMetric => ArgKind::Name,
        Rule::RoleMetric | Rule::RoleSlotMetric => if k == 0 {
            ArgKind::RoleName
        } else {
            ArgKind::Name
        },
        Rule::ScaleMetric | Rule::OffsetMetric | Rule::PercentileMetric | Rule::TimeShiftMetric
        | Rule::MovingAverageMetric | Rule::LinearRegressionMetric
        | Rule::TimeLeftForecastMetric => if k == 0 {
            ArgKind::Nested
        } else {
            ArgKind::Literal
        },
        _ => ArgKind::Nested,
    }
}

/// What the grammar finds at an offset: a tree and the number of characters
/// that it takes, or the place and the kind of the first mismatch.
pub type Parsed = Result<(ParseTreeModel, nat), SyntaxError>;

/// What the grammar finds at an offset where arguments start: their trees in order.
pub type ParsedList = Result<(Seq<ParseTreeModel>, nat), SyntaxError>;

/// The result of a step that found `tree` in `used` characters.
pub open spec fn found(tree: ParseTreeModel, used: nat) -> Parsed {
    Ok((tree, used))
}

/// The result of a step that found `trees` in `used` characters.
pub open spec fn found_all(trees: Seq<ParseTreeModel>, used: nat) -> ParsedList {
    Ok((trees, used))
}

/// The offset of the first character at or behind `i` that is no whitespace.
pub open spec fn skip(s: Seq<char>, i: int) -> int {
    i + run_len(s, i, CharClass::Space)
}

/// The content of a quoted token that opens at `i`, where its closing quote exists.
pub open spec fn quoted(s: Seq<char>, i: int) -> Option<Seq<char>> {
    let n = run_len(s, i + 1, CharClass::Except(s[i]));
    if i + 1 + n < s.len() {
        Some(s.subrange(i + 1, i + 1 + n))
    } else {
        None
    }
}

/// An identifier at `i`: a quoted string, or a run of bare characters.
pub open spec fn parse_name(s: Seq<char>, i: int) -> Parsed {
    if has_quote(s, i) {
        match quoted(s, i) {
            Some(content) => Ok((leaf(Rule::Identifier, content), content.len() + 2)),
            None => Err(syntax_error(i, Expected::Identifier)),
        }
    } else {
        let n = run_len(s, i, CharClass::Bare);
        if n > 0 {
            Ok((leaf(Rule::Identifier, s.subrange(i, i + n)), n))
        } else {
            Err(syntax_error(i, Expected::Identifier))
        }
    }
}

/// A role identifier at `i`: a quoted string with one `:` and something on
/// both sides of it, or two runs of bare characters with a `:` between them.
pub open spec fn parse_role_name(s: Seq<char>, i: int) -> Parsed {
    if has_quote(s, i) {
        match quoted(s, i) {
            Some(content) => match split_role(content) {
                Some((service, role)) => Ok((role_tree(service, role), content.len() + 2)),
                None => Err(syntax_error(i, Expected::RoleIdentifier)),
            },
            None => Err(syntax_error(i, Expected::RoleIdentifier)),
        }
    } else {
        let n = run_len(s, i, CharClass::Bare);
        let m = run_len(s, i + n + 1, CharClass::Bare);
        if n > 0 && has_char(s, i + n, ':') && m > 0 {
            Ok(
                (
                    role_tree(s.subrange(i, i + n), s.subrange(i + n + 1, i + n + 1 + m)),
                    n + 1 + m,
                ),
            )
        } else {
            Err(syntax_error(i, Expected::RoleIdentifier))
        }
    }
}

/// A literal argument at `i`: a quoted string, which is an identifier, or a
/// run of argument characters, which has the rule of its shape.
pub open spec fn parse_literal(s: Seq<char>, i: int) -> Parsed {
    if has_quote(s, i) {
        match quoted(s, i) {
            Some(content) => Ok((leaf(Rule::Identifier, content), content.len() + 2)),
            None => Err(syntax_error(i, Expected::Argument)),
        }
    } else {
        let n = run_len(s, i, CharClass::Argument);
        if n > 0 {
            Ok((classify(s.subrange(i, i + n)), n))
        } else {
            Err(syntax_error(i, Expected::Argument))
        }
    }
}

/// A function form at `i`: its name, `(`, its arguments, `)`, with whitespace
/// allowed around the parentheses.
pub open spec fn parse_call(s: Seq<char>, i: int) -> Parsed
    decreases s.len() - i, 0nat,
{
    let n = run_len(s, i, CharClass::Letter);
    match rule_of_keyword(s.subrange(i, i + n)) {
        None => Err(syntax_error(i, Expected::Function)),
        Some(rule) => {
            let p = skip(s, i + n);
            if !has_char(s, p, '(') {
                Err(syntax_error(p, Expected::Open))
            } else {
                match parse_arguments(s, p + 1, rule) {
                    Err(e) => Err(e),
                    Ok((children, m)) => {
                        let c = skip(s, p + 1 + m);
                        if !has_char(s, c, ')') {
                            Err(syntax_error(c, Expected::Close))
                        } else {
                            Ok((branch(rule, children), (c + 1 - i) as nat))
                        }
                    },
                }
            }
        },
    }
}

/// The arguments of the form `rule`, which start at `i` behind its `(`.
pub open spec fn parse_arguments(s: Seq<char>, i: int, rule: Rule) -> ParsedList
    decreases s.len() - i, 3nat,
{
    if rule == Rule::GroupMetric {
        parse_list(s, i)
    } else {
        parse_fixed(s, i, rule, 0)
    }
}

/// The arguments of the form `rule` from the argument `k` on, separated by
/// `,` with whitespace allowed around each.
pub open spec fn parse_fixed(s: Seq<char>, i: int, rule: Rule, k: nat) -> ParsedList
    decreases s.len() - i, 2nat,
{
    let a = skip(s, i);
    proof {
        if 0 <= i <= s.len() {
            lemma_run_len(s, i, CharClass::Space);
        }
    }
    match parse_argument(s, a, kind_at(rule, k)) {
        Err(e) => Err(e),
        Ok((tree, n)) => {
            if k + 1 >= arity(rule) {
                Ok((seq![tree], (a + n - i) as nat))
            } else {
                let c = skip(s, a + n);
                if !has_char(s, c, ',') {
                    Err(syntax_error(c, Expected::Comma))
                } else {
                    match parse_fixed(s, c + 1, rule, k + 1) {
                        Err(e) => Err(e),
                        Ok((rest, m)) => Ok((seq![tree] + rest, (c + 1 + m - i) as nat)),
                    }
                }
            }
        },
    }
}

/// One or more nested metrics from `i` on, separated by `,` with whitespace
/// allowed around each.
pub open spec fn parse_list(s: Seq<char>, i: int) -> ParsedList
    decreases s.len() - i, 2nat,
{
    let a = skip(s, i);
    proof {
        if 0 <= i <= s.len() {
            lemma_run_len(s, i, CharClass::Space);
        }
    }
    match parse_call(s, a) {
        Err(e) => Err(e),
        Ok((tree, n)) => {
            let c = skip(s, a + n);
            if has_char(s, c, ',') {
                match parse_list(s, c + 1) {
                    Err(e) => Err(e),
                    Ok((rest, m)) => Ok((seq![tree] + rest, (c + 1 + m - i) as nat)),
                }
            } else {
                Ok((seq![tree], (a + n - i) as nat))
            }
        },
    }
}

/// One argument of the given kind at `i`.
#[verifier::opaque]
pub open spec fn parse_argument(s: Seq<char>, i: int, kind: ArgKind) -> Parsed
    decreases s.len() - i, 1nat,
{
    match kind {
        ArgKind::Name => parse_name(s, i),
        ArgKind::RoleName => parse_role_name(s, i),
        ArgKind::Literal => parse_literal(s, i),
        ArgKind::Nested => parse_call(s, i),
    }
}

/// The parse tree of a whole text: one function form, with whitespace allowed
/// in front of it and behind it, and nothing else.
pub open spec fn parse_text_spec(s: Seq<char>) -> Result<ParseTreeModel, SyntaxError> {
    match parse_call(s, skip(s, 0)) {
        Err(e) => Err(e),
        Ok((tree, n)) => {
            let end = skip(s, skip(s, 0) + n);
            if end == s.len() {
                Ok(tree)
            } else {
                Err(syntax_error(end, Expected::End))
            }
        },
    }
}

} // verus!
