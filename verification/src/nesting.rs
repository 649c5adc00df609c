//! How deep a parse tree nests function forms, and why a text holds at
//! least two characters for each level of the metric that it denotes.

use crate::parse_spec;
use crate::builder::{convert_from, convert_spec, lemma_converted};
use crate::grammar::{
    arity, kind_at, parse_argument, parse_arguments, parse_call, parse_fixed, parse_list,
    parse_text_spec, rule_of_keyword, skip, ArgKind,
};
use crate::lex::{lemma_run_len, run_len, CharClass};
use crate::metric::{greatest_depth, larger, MetricModel};
use crate::token::{has_char, has_quote};
use crate::tree::{ParseTreeModel, Rule};
use vstd::prelude::*;

verus! {

/// Whether a rule is that of a function form.
pub open spec fn is_form(rule: Rule) -> bool {
    arity(rule) > 0 || rule == Rule::GroupMetric
}

/// The number of function forms on the longest path from this node down.
pub open spec fn nesting(p: ParseTreeModel) -> nat
    decreases p, 0nat,
{
    if is_form(p.rule) {
        1 + highest(p.children, p.children.len())
    } else {
        0
    }
}

/// The largest nesting among the first `n` trees of `ts`; 0 where `n` is 0.
pub open spec fn highest(ts: Seq<ParseTreeModel>, n: nat) -> nat
    decreases ts, n,
{
    if n == 0 || n > ts.len() {
        0
    } else {
        larger(highest(ts, (n - 1) as nat), nesting(ts[n - 1]))
    }
}

/// Whether each tree of `ts` nests at most `bound / 2` forms.
pub open spec fn all_within(ts: Seq<ParseTreeModel>, bound: int) -> bool {
    forall|j: int| 0 <= j < ts.len() ==> 2 * nesting(#[trigger] ts[j]) <= bound
}

/// What bounds each tree bounds the highest of them.
pub proof fn lemma_highest_within(ts: Seq<ParseTreeModel>, n: nat, bound: int)
    requires
        n <= ts.len(),
        all_within(ts, bound),
        0 <= bound,
    ensures
        2 * highest(ts, n) <= bound,
    decreases n,
{
    if n > 0 {
        lemma_highest_within(ts, (n - 1) as nat, bound);
    }
}

/// None of the first `n` trees nests more than the highest of them.
pub proof fn lemma_highest(ts: Seq<ParseTreeModel>, n: nat, j: int)
    requires
        0 <= j < n <= ts.len(),
    ensures
        nesting(ts[j]) <= highest(ts, n),
    decreases n,
{
    if j < n - 1 {
        lemma_highest(ts, (n - 1) as nat, j);
    }
}

/// A function form takes at least two characters more than its arguments,
/// so a form that the grammar finds takes two characters for each level.
pub proof fn lemma_call_nesting(s: Seq<char>, i: int)
    requires
        0 <= i <= s.len(),
    ensures
        parse_call(s, i) matches Ok((tree, n)) ==> 2 * nesting(tree) <= n && i + n <= s.len(),
    decreases s.len() - i, 0nat,
{
    let w = run_len(s, i, CharClass::Letter);
    lemma_run_len(s, i, CharClass::Letter);
    lemma_run_len(s, i + w, CharClass::Space);
    if let Some(rule) = rule_of_keyword(s.subrange(i, i + w)) {
        let p = skip(s, i + w);
        if has_char(s, p, '(') {
            lemma_arguments_nesting(s, p + 1, rule);
            if let Ok((children, m)) = parse_arguments(s, p + 1, rule) {
                lemma_run_len(s, p + 1 + m, CharClass::Space);
                lemma_highest_within(children, children.len(), m as int);
            }
        }
    }
}

/// The arguments that the grammar finds take two characters for each level
/// of each of them.
pub proof fn lemma_arguments_nesting(s: Seq<char>, i: int, rule: Rule)
    requires
        0 <= i <= s.len(),
    ensures
        parse_arguments(s, i, rule) matches Ok((trees, n)) ==> all_within(trees, n as int) && i + n
            <= s.len(),
    decreases s.len() - i, 3nat,
{
    if rule == Rule::GroupMetric {
        lemma_list_nesting(s, i);
    } else {
        lemma_fixed_nesting(s, i, rule, 0);
    }
}

/// The arguments from the argument `k` on take two characters for each
/// level of each of them.
pub proof fn lemma_fixed_nesting(s: Seq<char>, i: int, rule: Rule, k: nat)
    requires
        0 <= i <= s.len(),
    ensures
        parse_fixed(s, i, rule, k) matches Ok((trees, n)) ==> all_within(trees, n as int) && i + n
            <= s.len(),
    decreases s.len() - i, 2nat,
{
    reveal(parse_argument);
    let a = skip(s, i);
    lemma_run_len(s, i, CharClass::Space);
    lemma_argument_nesting(s, a, kind_at(rule, k));
    if let Ok((tree, n)) = parse_argument(s, a, kind_at(rule, k)) {
        lemma_run_len(s, a + n, CharClass::Space);
        let c = skip(s, a + n);
        if k + 1 < arity(rule) && has_char(s, c, ',') {
            lemma_fixed_nesting(s, c + 1, rule, k + 1);
            if let Ok((rest, m)) = parse_fixed(s, c + 1, rule, k + 1) {
                let all = seq![tree] + rest;
                assert forall|j: int| 0 <= j < all.len() implies 2 * nesting(#[trigger] all[j])
                    <= c + 1 + m - i by {
                    if j > 0 {
                        assert(all[j] == rest[j - 1]);
                    }
                }
            }
        }
    }
}

/// The members of a group take two characters for each level of each of them.
pub proof fn lemma_list_nesting(s: Seq<char>, i: int)
    requires
        0 <= i <= s.len(),
    ensures
        parse_list(s, i) matches Ok((trees, n)) ==> all_within(trees, n as int) && i + n
            <= s.len(),
    decreases s.len() - i, 2nat,
{
    let a = skip(s, i);
    lemma_run_len(s, i, CharClass::Space);
    lemma_call_nesting(s, a);
    if let Ok((tree, n)) = parse_call(s, a) {
        lemma_run_len(s, a + n, CharClass::Space);
        let c = skip(s, a + n);
        if has_char(s, c, ',') {
            lemma_list_nesting(s, c + 1);
            if let Ok((rest, m)) = parse_list(s, c + 1) {
                let all = seq![tree] + rest;
                assert forall|j: int| 0 <= j < all.len() implies 2 * nesting(#[trigger] all[j])
                    <= c + 1 + m - i by {
                    if j > 0 {
                        assert(all[j] == rest[j - 1]);
                    }
                }
            }
        }
    }
}

/// An argument that the grammar finds takes two characters for each level:
/// a token has no level, and a nested metric is a function form.
pub proof fn lemma_argument_nesting(s: Seq<char>, i: int, kind: ArgKind)
    requires
        0 <= i <= s.len(),
    ensures
        parse_argument(s, i, kind) matches Ok((tree, n)) ==> 2 * nesting(tree) <= n && i + n
            <= s.len(),
    decreases s.len() - i, 1nat,
{
    reveal(parse_argument);
    match kind {
        ArgKind::Nested => {
            lemma_call_nesting(s, i);
        },
        ArgKind::Name => {
            lemma_run_len(s, i, CharClass::Bare);
            if has_quote(s, i) {
                lemma_run_len(s, i + 1, CharClass::Except(s[i]));
            }
        },
        ArgKind::RoleName => {
            lemma_run_len(s, i, CharClass::Bare);
            let n = run_len(s, i, CharClass::Bare);
            if has_quote(s, i) {
                lemma_run_len(s, i + 1, CharClass::Except(s[i]));
            } else if i + n + 1 <= s.len() {
                lemma_run_len(s, i + n + 1, CharClass::Bare);
            }
        },
        ArgKind::Literal => {
            lemma_run_len(s, i, CharClass::Argument);
            if has_quote(s, i) {
                lemma_run_len(s, i + 1, CharClass::Except(s[i]));
            }
        },
    }
}

/// The metrics that the tree builder makes of a list of trees are no
/// deeper than the trees nest.
pub proof fn lemma_converted_depths(ts: Seq<ParseTreeModel>, k: nat)
    requires
        k <= ts.len(),
    ensures
        convert_from(ts, k) matches Ok(ms) ==> ms.len() == ts.len() - k && forall|j: int|
            0 <= j < ms.len() ==> (#[trigger] ms[j]).depth() <= nesting(ts[k + j]),
    decreases ts, ts.len() - k,
{
    if k < ts.len() {
        lemma_converted_depth(ts[k as int]);
        lemma_converted_depths(ts, k + 1);
        if let Ok(ms) = convert_from(ts, k) {
            let m = convert_spec(ts[k as int])->Ok_0;
            let rest = convert_from(ts, k + 1)->Ok_0;
            assert(ms == seq![m] + rest);
            assert forall|j: int| 0 <= j < ms.len() implies (#[trigger] ms[j]).depth() <= nesting(
                ts[k + j],
            ) by {
                if j > 0 {
                    assert(ms[j] == rest[j - 1]);
                    assert(rest[j - 1].depth() <= nesting(ts[k + 1 + (j - 1)]));
                }
            }
        }
    }
}

/// The greatest depth among the metrics made of a list of trees is no more than
/// the highest of the trees.
pub proof fn lemma_depth_below(ms: Seq<MetricModel>, ts: Seq<ParseTreeModel>, n: nat)
    requires
        n <= ms.len() == ts.len(),
        forall|j: int| 0 <= j < ms.len() ==> (#[trigger] ms[j]).depth() <= nesting(ts[j]),
    ensures
        greatest_depth(ms, n) <= highest(ts, n),
    decreases n,
{
    if n > 0 {
        lemma_depth_below(ms, ts, (n - 1) as nat);
    }
}

/// A metric that the tree builder makes is no deeper than its parse tree nests.
pub proof fn lemma_converted_depth(p: ParseTreeModel)
    ensures
        convert_spec(p) matches Ok(m) ==> m.depth() <= nesting(p),
    decreases p, 0nat,
{
    let n = p.children.len();
    if n >= 1 {
        lemma_converted_depth(p.children[0]);
        lemma_highest(p.children, n, 0);
    }
    if n >= 2 {
        lemma_converted_depth(p.children[1]);
        lemma_highest(p.children, n, 1);
    }
    if p.rule == Rule::GroupMetric && n >= 1 {
        lemma_converted_depths(p.children, 0);
        if let Ok(ms) = convert_from(p.children, 0) {
            assert forall|j: int| 0 <= j < ms.len() implies (#[trigger] ms[j]).depth() <= nesting(
                p.children[j],
            ) by {
                assert(ms[j].depth() <= nesting(p.children[0 + j]));
            }
            lemma_depth_below(ms, p.children, n);
        }
    }
}

/// A text holds at least two characters for each level of the metric that
/// it denotes, and that metric has no empty group.
pub proof fn lemma_parsed_depth(s: Seq<char>)
    ensures
        parse_spec(s) matches Ok(m) ==> m.well_formed() && 2 * m.depth() <= s.len(),
{
    lemma_run_len(s, 0, CharClass::Space);
    lemma_call_nesting(s, skip(s, 0));
    if let Ok(tree) = parse_text_spec(s) {
        lemma_converted(tree);
        lemma_converted_depth(tree);
    }
}

} // verus!
