//! Canonical metrics: those whose tokens can be written without quotes, and
//! the parse tree that the grammar finds in the text of each.

use crate::grammar::{found, parse_literal, parse_name, parse_role_name};
use crate::lex::{all_in, in_class, lemma_run_len, run_len, CharClass};
use crate::metric::{FactorModel, MetricModel};
use crate::scan::{lemma_occurs_subrange, lemma_run_over, occurs, stops};
use crate::token::{
    after_sign, classify, exponent_digits, exponent_end, fraction_end, has_char, has_exponent,
    integer_end, is_double, is_duration, is_fraction, role_tree,
};
use crate::tree::{branch, leaf, ParseTreeModel, Rule};
use vstd::prelude::*;

verus! {

/// A name that needs no quotes: a run of bare characters, not empty.
pub open spec fn is_bare_name(t: Seq<char>) -> bool {
    t.len() > 0 && all_in(t, CharClass::Bare)
}

/// A factor whose numbers are decimal numbers.
pub open spec fn canonical_factor(f: FactorModel) -> bool {
    match f {
        FactorModel::Double(t) => is_double(t),
        FactorModel::Fraction(n, d) => is_double(n) && is_double(d),
    }
}

/// A metric whose names need no quotes, whose literals have the shapes of
/// their places, and whose groups are not empty.
pub open spec fn canonical(m: MetricModel) -> bool
    decreases m,
{
    match m {
        MetricModel::Host(a, b) | MetricModel::Service(a, b) => is_bare_name(a) && is_bare_name(
            b,
        ),
        MetricModel::Role(s, r, n) | MetricModel::RoleSlot(s, r, n) => is_bare_name(s)
            && is_bare_name(r) && is_bare_name(n),
        MetricModel::Avg(c) | MetricModel::Max(c) | MetricModel::Min(c) | MetricModel::Product(c)
        | MetricModel::Stack(c) => canonical(*c),
        MetricModel::Diff(l, r) | MetricModel::Divide(l, r) => canonical(*l) && canonical(*r),
        MetricModel::Scale(c, f) | MetricModel::Offset(c, f) => canonical(*c) && canonical_factor(
            f,
        ),
        MetricModel::Percentile(c, p) => canonical(*c) && is_double(p),
        MetricModel::TimeShift(c, d) | MetricModel::MovingAverage(c, d)
        | MetricModel::LinearRegression(c, d) => canonical(*c) && is_duration(d),
        MetricModel::TimeLeftForecast(c, d, f) => canonical(*c) && is_duration(d)
            && canonical_factor(f),
        MetricModel::Group(ms) => ms.len() > 0 && forall|i: int|
            0 <= i < ms.len() ==> canonical(#[trigger] ms[i]),
    }
}

/// The rule of the function form of a metric.
pub open spec fn rule_of(m: MetricModel) -> Rule {
    match m {
        MetricModel::Host(_, _) => Rule::HostMetric,
        MetricModel::Service(_, _) => Rule::ServiceMetric,
        MetricModel::Role(_, _, _) => Rule::RoleMetric,
        MetricModel::RoleSlot(_, _, _) => Rule::RoleSlotMetric,
        MetricModel::Avg(_) => Rule::AvgMetric,
        MetricModel::Max(_) => Rule::MaxMetric,
        MetricModel::Min(_) => Rule::MinMetric,
        MetricModel::Product(_) => Rule::ProductMetric,
        MetricModel::Diff(_, _) => Rule::DiffMetric,
        MetricModel::Divide(_, _) => Rule::DivideMetric,
        MetricModel::Scale(_, _) => Rule::ScaleMetric,
        MetricModel::Offset(_, _) => Rule::OffsetMetric,
        MetricModel::Percentile(_, _) => Rule::PercentileMetric,
        MetricModel::TimeShift(_, _) => Rule::TimeShiftMetric,
        MetricModel::MovingAverage(_, _) => Rule::MovingAverageMetric,
        MetricModel::LinearRegression(_, _) => Rule::LinearRegressionMetric,
        MetricModel::TimeLeftForecast(_, _, _) => Rule::TimeLeftForecastMetric,
        MetricModel::Group(_) => Rule::GroupMetric,
        MetricModel::Stack(_) => Rule::StackMetric,
    }
}

/// The parse tree of a canonical factor.
pub open spec fn factor_tree(f: FactorModel) -> ParseTreeModel {
    match f {
        FactorModel::Double(t) => leaf(Rule::Double, t),
        FactorModel::Fraction(n, d) => ParseTreeModel {
            rule: Rule::Fraction,
            text: n + "/"@ + d,
            children: seq![leaf(Rule::Double, n), leaf(Rule::Double, d)],
        },
    }
}

/// The parse tree of a canonical metric.
pub open spec fn tree_of(m: MetricModel) -> ParseTreeModel
    decreases m, 0nat,
{
    match m {
        MetricModel::Host(a, b) | MetricModel::Service(a, b) => branch(
            rule_of(m),
            seq![leaf(Rule::Identifier, a), leaf(Rule::Identifier, b)],
        ),
        MetricModel::Role(s, r, n) | MetricModel::RoleSlot(s, r, n) => branch(
            rule_of(m),
            seq![role_tree(s, r), leaf(Rule::Identifier, n)],
        ),
        MetricModel::Avg(c) | MetricModel::Max(c) | MetricModel::Min(c) | MetricModel::Product(c)
        | MetricModel::Stack(c) => branch(rule_of(m), seq![tree_of(*c)]),
        MetricModel::Diff(l, r) | MetricModel::Divide(l, r) => branch(
            rule_of(m),
            seq![tree_of(*l), tree_of(*r)],
        ),
        MetricModel::Scale(c, f) | MetricModel::Offset(c, f) => branch(
            rule_of(m),
            seq![tree_of(*c), factor_tree(f)],
        ),
        MetricModel::Percentile(c, p) => branch(
            rule_of(m),
            seq![tree_of(*c), leaf(Rule::Double, p)],
        ),
        MetricModel::TimeShift(c, d) | MetricModel::MovingAverage(c, d)
        | MetricModel::LinearRegression(c, d) => branch(
            rule_of(m),
            seq![tree_of(*c), leaf(Rule::Duration, d)],
        ),
        MetricModel::TimeLeftForecast(c, d, f) => branch(
            rule_of(m),
            seq![tree_of(*c), leaf(Rule::Duration, d), factor_tree(f)],
        ),
        MetricModel::Group(ms) => branch(rule_of(m), trees_from(ms, 0)),
    }
}

/// The parse trees of the metrics of `ms` from the metric `k` on.
pub open spec fn trees_from(ms: Seq<MetricModel>, k: nat) -> Seq<ParseTreeModel>
    decreases ms, ms.len() - k,
{
    if k >= ms.len() {
        Seq::empty()
    } else {
        seq![tree_of(ms[k as int])] + trees_from(ms, k + 1)
    }
}

/// The grammar reads a bare name that stands at `i` and ends there.
pub proof fn lemma_reads_name(s: Seq<char>, i: int, a: Seq<char>)
    requires
        occurs(s, i, a),
        is_bare_name(a),
        stops(s, i + a.len(), CharClass::Bare),
    ensures
        parse_name(s, i) == found(leaf(Rule::Identifier, a), a.len()),
{
    assert(s[i + 0] == a[0]);
    assert(in_class(CharClass::Bare, a[0]));
    lemma_run_over(s, i, a, CharClass::Bare);
    lemma_occurs_subrange(s, i, a);
}

/// The grammar reads a bare role identifier that stands at `i` and ends there.
pub proof fn lemma_reads_role_name(s: Seq<char>, i: int, service: Seq<char>, role: Seq<char>)
    requires
        occurs(s, i, service),
        has_char(s, i + service.len(), ':'),
        occurs(s, i + service.len() + 1, role),
        is_bare_name(service),
        is_bare_name(role),
        stops(s, i + service.len() + 1 + role.len(), CharClass::Bare),
    ensures
        parse_role_name(s, i) == found(
            role_tree(service, role),
            service.len() + 1 + role.len(),
        ),
{
    assert(s[i + 0] == service[0]);
    assert(in_class(CharClass::Bare, service[0]));
    lemma_run_over(s, i, service, CharClass::Bare);
    lemma_run_over(s, i + service.len() + 1, role, CharClass::Bare);
    lemma_occurs_subrange(s, i, service);
    lemma_occurs_subrange(s, i + service.len() + 1, role);
}

/// The characters of which decimal numbers are made.
pub open spec fn is_numeric(c: char) -> bool {
    ('0' <= c <= '9') || c == '+' || c == '-' || c == '.' || c == 'e' || c == 'E'
}

/// A decimal number is not empty and holds nothing but digits, signs, `.`, `e` and `E`.
pub proof fn lemma_double_chars(t: Seq<char>)
    requires
        is_double(t),
    ensures
        t.len() > 0,
        forall|j: int| 0 <= j < t.len() ==> is_numeric(#[trigger] t[j]),
{
    let a = after_sign(t, 0);
    let b = integer_end(t);
    let c = fraction_end(t);
    let y = exponent_digits(t);
    let d = exponent_end(t);
    lemma_run_len(t, a, CharClass::Digit);
    assert(b <= t.len());
    if has_char(t, b, '.') {
        lemma_run_len(t, b + 1, CharClass::Digit);
    }
    assert(c <= t.len());
    if has_exponent(t) {
        assert(y <= t.len());
        lemma_run_len(t, y, CharClass::Digit);
    }
    assert forall|j: int| 0 <= j < t.len() implies is_numeric(#[trigger] t[j]) by {
        if j < a {
        } else if j < b {
            assert(in_class(CharClass::Digit, t[j]));
        } else if j < c {
            if j > b {
                assert(in_class(CharClass::Digit, t[j]));
            }
        } else if j < y {
        } else {
            assert(in_class(CharClass::Digit, t[j]));
        }
    }
}

/// A literal without `/` is no fraction.
pub proof fn lemma_no_slash(t: Seq<char>)
    requires
        forall|j: int| 0 <= j < t.len() ==> #[trigger] t[j] != '/',
    ensures
        run_len(t, 0, CharClass::Except('/')) == t.len(),
        !is_fraction(t),
{
    assert(occurs(t, 0, t));
    lemma_run_over(t, 0, t, CharClass::Except('/'));
}

/// A decimal number has the rule `Double`.
pub proof fn lemma_classify_double(t: Seq<char>)
    requires
        is_double(t),
    ensures
        classify(t) == leaf(Rule::Double, t),
        t.len() > 0,
        all_in(t, CharClass::Argument),
{
    lemma_double_chars(t);
    lemma_no_slash(t);
}

/// Two decimal numbers around a `/` have the rule `Fraction`.
pub proof fn lemma_classify_fraction(n: Seq<char>, d: Seq<char>)
    requires
        is_double(n),
        is_double(d),
    ensures
        classify(n + "/"@ + d) == factor_tree(FactorModel::Fraction(n, d)),
        (n + "/"@ + d).len() == n.len() + 1 + d.len(),
        all_in(n + "/"@ + d, CharClass::Argument),
{
    reveal_strlit("/");
    let t = n + "/"@ + d;
    lemma_double_chars(n);
    lemma_double_chars(d);
    assert(occurs(t, 0, n));
    assert(t[n.len() as int] == '/');
    lemma_run_over(t, 0, n, CharClass::Except('/'));
    assert(t.subrange(0, n.len() as int) =~= n);
    assert(t.subrange(n.len() as int + 1, t.len() as int) =~= d);
    assert forall|j: int| 0 <= j < t.len() implies in_class(
        CharClass::Argument,
        #[trigger] t[j],
    ) by {
        if j < n.len() {
            assert(t[j] == n[j]);
        } else if j > n.len() {
            assert(t[j] == d[j - n.len() - 1]);
        }
    }
}

/// A duration has the rule `Duration`.
pub proof fn lemma_classify_duration(t: Seq<char>)
    requires
        is_duration(t),
    ensures
        classify(t) == leaf(Rule::Duration, t),
        t.len() > 0,
        all_in(t, CharClass::Argument),
{
    let a = run_len(t, 0, CharClass::Digit) as int;
    lemma_run_len(t, 0, CharClass::Digit);
    lemma_run_len(t, a, CharClass::Letter);
    assert forall|j: int| 0 <= j < t.len() implies in_class(CharClass::Argument, #[trigger] t[j])
        && t[j] != '/' by {
        if j < a {
            assert(in_class(CharClass::Digit, t[j]));
        } else {
            assert(in_class(CharClass::Letter, t[j]));
        }
    }
    lemma_no_slash(t);
    assert(in_class(CharClass::Digit, t[0]));
    assert(in_class(CharClass::Letter, t[a]));
    assert(after_sign(t, 0) == 0);
    assert(integer_end(t) == a);
    assert(fraction_end(t) == a);
    if has_exponent(t) {
        if a + 1 < t.len() {
            assert(in_class(CharClass::Letter, t[a + 1]));
        }
        assert(exponent_digits(t) == a + 1);
        assert(run_len(t, a + 1, CharClass::Digit) == 0);
    }
    assert(!is_double(t));
}

/// The grammar reads an unquoted literal that stands at `i` and ends there.
pub proof fn lemma_reads_literal(s: Seq<char>, i: int, t: Seq<char>)
    requires
        occurs(s, i, t),
        t.len() > 0,
        all_in(t, CharClass::Argument),
        stops(s, i + t.len(), CharClass::Argument),
    ensures
        parse_literal(s, i) == found(classify(t), t.len()),
{
    assert(s[i + 0] == t[0]);
    assert(in_class(CharClass::Argument, t[0]));
    lemma_run_over(s, i, t, CharClass::Argument);
    lemma_occurs_subrange(s, i, t);
}

} // verus!
