//! The grammar reads the canonical text of a canonical metric back.

use crate::builder::{convert_from, convert_spec};
use crate::canon::{
    canonical, canonical_factor, factor_tree, lemma_classify_double, lemma_classify_duration,
    lemma_classify_fraction, lemma_reads_literal, lemma_reads_name, lemma_reads_role_name, rule_of,
    tree_of, trees_from,
};
use crate::error::{ShapeError, SyntaxError};
use crate::forms::{
    lemma_closing, lemma_form1_parts, lemma_form1_reads, lemma_form2_parts, lemma_form2_reads,
    lemma_form3_parts, lemma_form3_reads, lemma_punctuation,
};
use crate::grammar::{found, found_all, parse_argument, parse_call, parse_list, parse_text_spec};
use crate::keywords::{lemma_body_starts, lemma_keyword};
use crate::layouts::{
    gap_first, gap_last, gap_next, lemma_binary_is_form, lemma_forecast_is_form, lemma_gaps,
    lemma_group_parts, lemma_indent, lemma_leaf_is_form, lemma_param_is_form, lemma_role_is_form,
    lemma_unary_is_form,
};
use crate::lex::{all_in, in_class, CharClass};
use crate::metric::{FactorModel, MetricModel};
use crate::printer::{factor_text, indent_text, name_of, render, render_body, render_list};
use crate::scan::{
    blank, lemma_occurs_after, lemma_occurs_concat, lemma_peel, lemma_starts, occurs, stops,
};
use crate::steps::{lemma_form, lemma_last_member, lemma_next_member, lemma_reads_padded};
use crate::token::{classify, has_char, role_tree};
use crate::tree::{leaf, ParseTreeModel, Rule};
use vstd::prelude::*;

verus! {

/// The text of a canonical factor is a literal of its shape.
pub proof fn lemma_factor(f: FactorModel)
    requires
        canonical_factor(f),
    ensures
        factor_text(f).len() > 0,
        all_in(factor_text(f), CharClass::Argument),
        classify(factor_text(f)) == factor_tree(f),
{
    match f {
        FactorModel::Double(t) => {
            lemma_classify_double(t);
        },
        FactorModel::Fraction(n, d) => {
            lemma_classify_fraction(n, d);
        },
    }
}

/// The grammar reads the members of a group from the member `k` on, where
/// they stand behind the gap `g` and in front of the closing gap and `)`.
pub proof fn lemma_reads_members(
    s: Seq<char>,
    i: int,
    ms: Seq<MetricModel>,
    k: nat,
    depth: int,
    indent: nat,
    g: Seq<char>,
    ge: Seq<char>,
)
    requires
        k < ms.len(),
        forall|j: int| 0 <= j < ms.len() ==> canonical(#[trigger] ms[j]),
        blank(g),
        blank(ge),
        occurs(s, i, g),
        occurs(s, i + g.len(), render_list(ms, k, depth, indent)),
        occurs(s, i + g.len() + render_list(ms, k, depth, indent).len(), ge),
        has_char(s, i + g.len() + render_list(ms, k, depth, indent).len() + ge.len(), ')'),
    ensures
        parse_list(s, i) == found_all(
            trees_from(ms, k),
            g.len() + render_list(ms, k, depth, indent).len(),
        ),
    decreases ms, ms.len() - k,
{
    lemma_punctuation();
    lemma_indent(indent);
    let list = render_list(ms, k, depth, indent);
    let pad = indent_text(indent);
    let body = render_body(ms[k as int], depth, indent);
    let gap = g + pad;
    let a = i + g.len() + pad.len();
    let e = i + g.len() + list.len();
    assert(blank(gap)) by {
        assert forall|j: int| 0 <= j < gap.len() implies in_class(
            CharClass::Space,
            #[trigger] gap[j],
        ) by {
            if j < g.len() {
                assert(gap[j] == g[j]);
            } else {
                assert(gap[j] == pad[j - g.len()]);
            }
        }
    }
    lemma_body_starts(ms[k as int], depth, indent);
    if k + 1 == ms.len() {
        assert(render(ms[k as int], depth, indent) == pad + body);
        assert(list == pad + body);
        lemma_peel(s, i + g.len(), pad, body);
        lemma_occurs_concat(s, i, g, pad);
        lemma_reads_metric(s, a, ms[k as int], depth, indent);
        lemma_starts(s, a, body);
        lemma_closing(s, e, ge);
        lemma_last_member(s, i, gap, tree_of(ms[k as int]), body.len(), ge);
        assert(trees_from(ms, k + 1) =~= Seq::empty());
        assert(trees_from(ms, k) =~= seq![tree_of(ms[k as int])]);
    } else {
        let rest = render_list(ms, k + 1, depth, indent);
        assert(render(ms[k as int], depth, indent) == pad + body);
        assert(list == pad + body + ",\n"@ + rest);
        lemma_peel(s, i + g.len(), pad + body + ",\n"@, rest);
        lemma_peel(s, i + g.len(), pad + body, ",\n"@);
        lemma_peel(s, i + g.len(), pad, body);
        lemma_occurs_concat(s, i, g, pad);
        lemma_reads_metric(s, a, ms[k as int], depth, indent);
        lemma_starts(s, a, body);
        let c = a + body.len();
        assert(s[c + 0] == ",\n"@[0]);
        assert(s[c + 1] == ",\n"@[1]);
        assert(occurs(s, c + 1, "\n"@));
        assert(blank("\n"@));
        lemma_reads_members(s, c + 1, ms, k + 1, depth, indent, "\n"@, ge);
        lemma_next_member(
            s,
            i,
            gap,
            tree_of(ms[k as int]),
            body.len(),
            trees_from(ms, k + 1),
            1 + rest.len(),
        );
    }
}

/// The grammar reads a leaf with two names.
pub proof fn lemma_reads_leaf(s: Seq<char>, i: int, m: MetricModel, depth: int, indent: nat)
    requires
        canonical(m),
        m is Host || m is Service,
        occurs(s, i, render_body(m, depth, indent)),
    ensures
        parse_call(s, i) == found(tree_of(m), render_body(m, depth, indent).len()),
{
    reveal(parse_argument);
    lemma_keyword(m);
    let name = name_of(m);
    let rule = rule_of(m);
    let (a, b) = match m {
        MetricModel::Host(a, b) => (a, b),
        MetricModel::Service(a, b) => (a, b),
        _ => (Seq::empty(), Seq::empty()),
    };
    lemma_leaf_is_form(name, a, b);
    lemma_gaps(true, 0);
    let g0 = gap_first(true, 0);
    let g1 = gap_next(true, 0);
    let ge = gap_last(true, 0);
    lemma_form2_parts(s, i, name, g0, a, g1, b, ge);
    let at0 = i + name.len() + 1 + g0.len();
    let at1 = at0 + a.len() + 1 + g1.len();
    lemma_reads_name(s, at0, a);
    lemma_reads_name(s, at1, b);
    assert(in_class(CharClass::Bare, a[0]) && in_class(CharClass::Bare, b[0]));
    lemma_starts(s, at0, a);
    lemma_starts(s, at1, b);
    lemma_form2_reads(
        s,
        i,
        name,
        rule,
        g0,
        a,
        g1,
        b,
        ge,
        leaf(Rule::Identifier, a),
        leaf(Rule::Identifier, b),
    );
}

/// The grammar reads a leaf with a role.
pub proof fn lemma_reads_role(s: Seq<char>, i: int, m: MetricModel, depth: int, indent: nat)
    requires
        canonical(m),
        m is Role || m is RoleSlot,
        occurs(s, i, render_body(m, depth, indent)),
    ensures
        parse_call(s, i) == found(tree_of(m), render_body(m, depth, indent).len()),
{
    reveal(parse_argument);
    lemma_keyword(m);
    lemma_punctuation();
    let name = name_of(m);
    let rule = rule_of(m);
    let (service, role, n) = match m {
        MetricModel::Role(a, b, c) => (a, b, c),
        MetricModel::RoleSlot(a, b, c) => (a, b, c),
        _ => (Seq::empty(), Seq::empty(), Seq::empty()),
    };
    lemma_role_is_form(name, service, role, n);
    lemma_gaps(true, 0);
    let g0 = gap_first(true, 0);
    let g1 = gap_next(true, 0);
    let ge = gap_last(true, 0);
    let full = service + ":"@ + role;
    lemma_form2_parts(s, i, name, g0, full, g1, n, ge);
    let at0 = i + name.len() + 1 + g0.len();
    let at1 = at0 + full.len() + 1 + g1.len();
    lemma_peel(s, at0, service + ":"@, role);
    lemma_peel(s, at0, service, ":"@);
    assert(s[at0 + service.len() + 0] == ":"@[0]);
    lemma_reads_role_name(s, at0, service, role);
    lemma_reads_name(s, at1, n);
    assert(in_class(CharClass::Bare, service[0]) && in_class(CharClass::Bare, n[0]));
    assert(full[0] == service[0]);
    lemma_starts(s, at0, full);
    lemma_starts(s, at1, n);
    lemma_form2_reads(
        s,
        i,
        name,
        rule,
        g0,
        full,
        g1,
        n,
        ge,
        role_tree(service, role),
        leaf(Rule::Identifier, n),
    );
}

/// The nested metric of a form with one nested metric.
pub open spec fn child_of(m: MetricModel) -> MetricModel {
    match m {
        MetricModel::Avg(c) | MetricModel::Max(c) | MetricModel::Min(c) | MetricModel::Product(c)
        | MetricModel::Stack(c) | MetricModel::Scale(c, _) | MetricModel::Offset(c, _)
        | MetricModel::Percentile(c, _) | MetricModel::TimeShift(c, _)
        | MetricModel::MovingAverage(c, _) | MetricModel::LinearRegression(c, _)
        | MetricModel::TimeLeftForecast(c, _, _) => *c,
        _ => m,
    }
}

/// The grammar reads a form with one nested metric and no parameter.
pub proof fn lemma_reads_unary(s: Seq<char>, i: int, m: MetricModel, depth: int, indent: nat)
    requires
        canonical(m),
        m is Avg || m is Max || m is Min || m is Product || m is Stack,
        occurs(s, i, render_body(m, depth, indent)),
    ensures
        parse_call(s, i) == found(tree_of(m), render_body(m, depth, indent).len()),
    decreases m, 0nat,
{
    reveal(parse_argument);
    lemma_keyword(m);
    let name = name_of(m);
    let rule = rule_of(m);
    let c = child_of(m);
    let inline = depth <= 2;
    let level: nat = if inline {
        0
    } else {
        indent + 1
    };
    let body = render_body(c, depth - 1, level);
    lemma_unary_is_form(
        name,
        render_body(c, depth - 1, 0),
        render_body(c, depth - 1, indent + 1),
        depth,
        indent,
    );
    lemma_gaps(inline, indent);
    let g0 = gap_first(inline, indent);
    let ge = gap_last(inline, indent);
    lemma_form1_parts(s, i, name, g0, body, ge);
    let at0 = i + name.len() + 1 + g0.len();
    lemma_reads_metric(s, at0, c, depth - 1, level);
    lemma_body_starts(c, depth - 1, level);
    lemma_starts(s, at0, body);
    lemma_form1_reads(s, i, name, rule, g0, body, ge, tree_of(c));
}

/// The grammar reads a form with two nested metrics.
pub proof fn lemma_reads_binary(s: Seq<char>, i: int, m: MetricModel, depth: int, indent: nat)
    requires
        canonical(m),
        m is Diff || m is Divide,
        occurs(s, i, render_body(m, depth, indent)),
    ensures
        parse_call(s, i) == found(tree_of(m), render_body(m, depth, indent).len()),
    decreases m, 0nat,
{
    reveal(parse_argument);
    lemma_keyword(m);
    let name = name_of(m);
    let rule = rule_of(m);
    let (l, r) = match m {
        MetricModel::Diff(l, r) => (*l, *r),
        MetricModel::Divide(l, r) => (*l, *r),
        _ => (m, m),
    };
    let left = render_body(l, depth - 1, indent + 1);
    let right = render_body(r, depth - 1, indent + 1);
    lemma_binary_is_form(name, left, right, indent);
    lemma_gaps(false, indent);
    let g0 = gap_first(false, indent);
    let g1 = gap_next(false, indent);
    let ge = gap_last(false, indent);
    lemma_form2_parts(s, i, name, g0, left, g1, right, ge);
    let at0 = i + name.len() + 1 + g0.len();
    let at1 = at0 + left.len() + 1 + g1.len();
    lemma_reads_metric(s, at0, l, depth - 1, indent + 1);
    lemma_reads_metric(s, at1, r, depth - 1, indent + 1);
    lemma_body_starts(l, depth - 1, indent + 1);
    lemma_body_starts(r, depth - 1, indent + 1);
    lemma_starts(s, at0, left);
    lemma_starts(s, at1, right);
    lemma_form2_reads(s, i, name, rule, g0, left, g1, right, ge, tree_of(l), tree_of(r));
}

/// The text of the parameter of a form with one nested metric and one parameter.
pub open spec fn param_of(m: MetricModel) -> Seq<char> {
    match m {
        MetricModel::Scale(_, f) | MetricModel::Offset(_, f) => factor_text(f),
        MetricModel::Percentile(_, p) | MetricModel::TimeShift(_, p)
        | MetricModel::MovingAverage(_, p) | MetricModel::LinearRegression(_, p) => p,
        _ => Seq::empty(),
    }
}

/// The parse tree of the parameter of a form with one nested metric and one parameter.
pub open spec fn param_tree(m: MetricModel) -> ParseTreeModel {
    match m {
        MetricModel::Scale(_, f) | MetricModel::Offset(_, f) => factor_tree(f),
        MetricModel::Percentile(_, p) => leaf(Rule::Double, p),
        MetricModel::TimeShift(_, p) | MetricModel::MovingAverage(_, p)
        | MetricModel::LinearRegression(_, p) => leaf(Rule::Duration, p),
        _ => leaf(Rule::Identifier, Seq::empty()),
    }
}

/// The parameter of a canonical form is a literal of its shape.
pub proof fn lemma_param(m: MetricModel)
    requires
        canonical(m),
        m is Scale || m is Offset || m is Percentile || m is TimeShift || m is MovingAverage
            || m is LinearRegression,
    ensures
        param_of(m).len() > 0,
        all_in(param_of(m), CharClass::Argument),
        classify(param_of(m)) == param_tree(m),
{
    match m {
        MetricModel::Scale(_, f) | MetricModel::Offset(_, f) => {
            lemma_factor(f);
        },
        MetricModel::Percentile(_, p) => {
            lemma_classify_double(p);
        },
        MetricModel::TimeShift(_, p) | MetricModel::MovingAverage(_, p)
        | MetricModel::LinearRegression(_, p) => {
            lemma_classify_duration(p);
        },
        _ => {},
    }
}

/// The grammar reads a form with one nested metric and one parameter.
pub proof fn lemma_reads_param(s: Seq<char>, i: int, m: MetricModel, depth: int, indent: nat)
    requires
        canonical(m),
        m is Scale || m is Offset || m is Percentile || m is TimeShift || m is MovingAverage
            || m is LinearRegression,
        occurs(s, i, render_body(m, depth, indent)),
    ensures
        parse_call(s, i) == found(tree_of(m), render_body(m, depth, indent).len()),
    decreases m, 0nat,
{
    reveal(parse_argument);
    lemma_keyword(m);
    lemma_param(m);
    let name = name_of(m);
    let rule = rule_of(m);
    let c = child_of(m);
    let param = param_of(m);
    let inline = depth <= 2;
    let level: nat = if inline {
        0
    } else {
        indent + 1
    };
    let body = render_body(c, depth - 1, level);
    lemma_param_is_form(
        name,
        render_body(c, depth - 1, 0),
        render_body(c, depth - 1, indent + 1),
        param,
        depth,
        indent,
    );
    lemma_gaps(inline, indent);
    let g0 = gap_first(inline, indent);
    let g1 = gap_next(inline, indent);
    let ge = gap_last(inline, indent);
    lemma_form2_parts(s, i, name, g0, body, g1, param, ge);
    let at0 = i + name.len() + 1 + g0.len();
    let at1 = at0 + body.len() + 1 + g1.len();
    lemma_reads_metric(s, at0, c, depth - 1, level);
    lemma_body_starts(c, depth - 1, level);
    lemma_starts(s, at0, body);
    lemma_reads_literal(s, at1, param);
    assert(in_class(CharClass::Argument, param[0]));
    lemma_starts(s, at1, param);
    lemma_form2_reads(s, i, name, rule, g0, body, g1, param, ge, tree_of(c), param_tree(m));
}

/// The grammar reads the forecast form.
pub proof fn lemma_reads_forecast(s: Seq<char>, i: int, m: MetricModel, depth: int, indent: nat)
    requires
        canonical(m),
        m is TimeLeftForecast,
        occurs(s, i, render_body(m, depth, indent)),
    ensures
        parse_call(s, i) == found(tree_of(m), render_body(m, depth, indent).len()),
    decreases m, 0nat,
{
    reveal(parse_argument);
    lemma_keyword(m);
    let name = name_of(m);
    let rule = rule_of(m);
    let c = child_of(m);
    let d = m->TimeLeftForecast_1;
    let f = m->TimeLeftForecast_2;
    let body = render_body(c, depth - 1, indent + 1);
    let param = factor_text(f);
    lemma_factor(f);
    lemma_classify_duration(d);
    lemma_forecast_is_form(name, body, d, param, indent);
    lemma_gaps(false, indent);
    let g0 = gap_first(false, indent);
    let g1 = gap_next(false, indent);
    let ge = gap_last(false, indent);
    lemma_form3_parts(s, i, name, g0, body, g1, d, g1, param, ge);
    let at0 = i + name.len() + 1 + g0.len();
    let at1 = at0 + body.len() + 1 + g1.len();
    let at2 = at1 + d.len() + 1 + g1.len();
    lemma_reads_metric(s, at0, c, depth - 1, indent + 1);
    lemma_body_starts(c, depth - 1, indent + 1);
    lemma_starts(s, at0, body);
    assert(stops(s, at1 + d.len(), CharClass::Argument));
    lemma_reads_literal(s, at1, d);
    lemma_reads_literal(s, at2, param);
    assert(in_class(CharClass::Argument, d[0]) && in_class(CharClass::Argument, param[0]));
    lemma_starts(s, at1, d);
    lemma_starts(s, at2, param);
    lemma_form3_reads(
        s,
        i,
        name,
        rule,
        g0,
        body,
        g1,
        d,
        g1,
        param,
        ge,
        tree_of(c),
        leaf(Rule::Duration, d),
        factor_tree(f),
    );
}

/// The grammar reads a group.
pub proof fn lemma_reads_group(s: Seq<char>, i: int, m: MetricModel, depth: int, indent: nat)
    requires
        canonical(m),
        m is Group,
        occurs(s, i, render_body(m, depth, indent)),
    ensures
        parse_call(s, i) == found(tree_of(m), render_body(m, depth, indent).len()),
    decreases m, 0nat,
{
    lemma_keyword(m);
    lemma_punctuation();
    let name = name_of(m);
    let rule = rule_of(m);
    let ms = m->Group_0;
    let list = render_list(ms, 0, depth - 1, indent + 1);
    let ge = gap_last(false, indent);
    lemma_gaps(false, indent);
    lemma_indent(indent);
    lemma_group_parts(s, i, name, list, indent);
    let p = i + name.len() + 1;
    assert(blank("\n"@));
    lemma_reads_members(s, p, ms, 0, depth - 1, indent + 1, "\n"@, ge);
    lemma_form(s, i, name, Seq::empty(), rule, trees_from(ms, 0), 1 + list.len(), ge);
}

/// The grammar reads the text of a canonical metric, whatever its layout,
/// as the parse tree of the metric.
pub proof fn lemma_reads_metric(s: Seq<char>, i: int, m: MetricModel, depth: int, indent: nat)
    requires
        canonical(m),
        occurs(s, i, render_body(m, depth, indent)),
    ensures
        parse_call(s, i) == found(tree_of(m), render_body(m, depth, indent).len()),
    decreases m, 1nat,
{
    match m {
        MetricModel::Host(_, _) | MetricModel::Service(_, _) => {
            lemma_reads_leaf(s, i, m, depth, indent);
        },
        MetricModel::Role(_, _, _) | MetricModel::RoleSlot(_, _, _) => {
            lemma_reads_role(s, i, m, depth, indent);
        },
        MetricModel::Avg(_) | MetricModel::Max(_) | MetricModel::Min(_) | MetricModel::Product(_)
        | MetricModel::Stack(_) => {
            lemma_reads_unary(s, i, m, depth, indent);
        },
        MetricModel::Diff(_, _) | MetricModel::Divide(_, _) => {
            lemma_reads_binary(s, i, m, depth, indent);
        },
        MetricModel::Scale(_, _) | MetricModel::Offset(_, _) | MetricModel::Percentile(_, _)
        | MetricModel::TimeShift(_, _) | MetricModel::MovingAverage(_, _)
        | MetricModel::LinearRegression(_, _) => {
            lemma_reads_param(s, i, m, depth, indent);
        },
        MetricModel::TimeLeftForecast(_, _, _) => {
            lemma_reads_forecast(s, i, m, depth, indent);
        },
        MetricModel::Group(_) => {
            lemma_reads_group(s, i, m, depth, indent);
        },
    }
}

/// The parse trees of the members of a group stand in the order of the members.
pub proof fn lemma_trees_from(ms: Seq<MetricModel>, k: nat)
    requires
        k <= ms.len(),
    ensures
        trees_from(ms, k).len() == ms.len() - k,
        forall|j: int|
            0 <= j < ms.len() - k ==> #[trigger] trees_from(ms, k)[j] == tree_of(ms[k as int + j]),
    decreases ms.len() - k,
{
    if k < ms.len() {
        lemma_trees_from(ms, k + 1);
        let rest = trees_from(ms, k + 1);
        let all = trees_from(ms, k);
        assert forall|j: int| 0 <= j < ms.len() - k implies #[trigger] all[j] == tree_of(
            ms[k as int + j],
        ) by {
            if j > 0 {
                assert(all[j] == rest[j - 1]);
            }
        }
    }
}

/// The tree builder turns the parse trees of the members of a canonical
/// group back into the members.
pub proof fn lemma_builds_members(ms: Seq<MetricModel>, k: nat)
    requires
        k <= ms.len(),
        forall|j: int| 0 <= j < ms.len() ==> canonical(#[trigger] ms[j]),
    ensures
        convert_from(trees_from(ms, 0), k) == Ok::<_, ShapeError>(
            ms.subrange(k as int, ms.len() as int),
        ),
    decreases ms, ms.len() - k,
{
    let ts = trees_from(ms, 0);
    lemma_trees_from(ms, 0);
    if k < ms.len() {
        assert(ts[k as int] == tree_of(ms[0 + k as int]));
        lemma_builds_metric(ms[k as int]);
        lemma_builds_members(ms, k + 1);
        assert(seq![ms[k as int]] + ms.subrange(k as int + 1, ms.len() as int) =~= ms.subrange(
            k as int,
            ms.len() as int,
        ));
    } else {
        assert(ms.subrange(k as int, ms.len() as int) =~= Seq::empty());
    }
}

/// The tree builder turns the parse tree of a canonical metric back into the metric.
pub proof fn lemma_builds_metric(m: MetricModel)
    requires
        canonical(m),
    ensures
        convert_spec(tree_of(m)) == Ok::<_, ShapeError>(m),
    decreases m, 0nat,
{
    match m {
        MetricModel::Host(_, _) | MetricModel::Service(_, _) | MetricModel::Role(_, _, _)
        | MetricModel::RoleSlot(_, _, _) => {},
        MetricModel::Avg(c) | MetricModel::Max(c) | MetricModel::Min(c) | MetricModel::Product(c)
        | MetricModel::Stack(c) | MetricModel::Scale(c, _) | MetricModel::Offset(c, _)
        | MetricModel::Percentile(c, _) | MetricModel::TimeShift(c, _)
        | MetricModel::MovingAverage(c, _) | MetricModel::LinearRegression(c, _)
        | MetricModel::TimeLeftForecast(c, _, _) => {
            lemma_builds_metric(*c);
        },
        MetricModel::Diff(l, r) | MetricModel::Divide(l, r) => {
            lemma_builds_metric(*l);
            lemma_builds_metric(*r);
        },
        MetricModel::Group(ms) => {
            lemma_trees_from(ms, 0);
            lemma_builds_members(ms, 0);
            assert(ms.subrange(0, ms.len() as int) =~= ms);
        },
    }
}

/// The grammar reads the text of a canonical metric, at whatever depth and
/// indentation it was laid out, as the parse tree of the metric.
pub proof fn lemma_reads_text(m: MetricModel, depth: int, indent: nat)
    requires
        canonical(m),
    ensures
        parse_text_spec(render(m, depth, indent)) == Ok::<_, SyntaxError>(tree_of(m)),
{
    let pad = indent_text(indent);
    let body = render_body(m, depth, indent);
    lemma_indent(indent);
    lemma_body_starts(m, depth, indent);
    lemma_occurs_after(pad, body);
    lemma_reads_metric(pad + body, pad.len() as int, m, depth, indent);
    assert(pad + body + Seq::<char>::empty() =~= pad + body);
    lemma_reads_padded(pad, body, Seq::empty(), tree_of(m));
}

/// A canonical metric has no empty group.
pub proof fn lemma_canonical_is_well_formed(m: MetricModel)
    requires
        canonical(m),
    ensures
        m.well_formed(),
    decreases m,
{
    match m {
        MetricModel::Host(_, _) | MetricModel::Service(_, _) | MetricModel::Role(_, _, _)
        | MetricModel::RoleSlot(_, _, _) => {},
        MetricModel::Avg(c) | MetricModel::Max(c) | MetricModel::Min(c) | MetricModel::Product(c)
        | MetricModel::Stack(c) | MetricModel::Scale(c, _) | MetricModel::Offset(c, _)
        | MetricModel::Percentile(c, _) | MetricModel::TimeShift(c, _)
        | MetricModel::MovingAverage(c, _) | MetricModel::LinearRegression(c, _)
        | MetricModel::TimeLeftForecast(c, _, _) => {
            lemma_canonical_is_well_formed(*c);
        },
        MetricModel::Diff(l, r) | MetricModel::Divide(l, r) => {
            lemma_canonical_is_well_formed(*l);
            lemma_canonical_is_well_formed(*r);
        },
        MetricModel::Group(ms) => {
            assert forall|i: int| 0 <= i < ms.len() implies (#[trigger] ms[i]).well_formed() by {
                lemma_canonical_is_well_formed(ms[i]);
            }
        },
    }
}

} // verus!
