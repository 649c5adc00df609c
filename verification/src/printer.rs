//! The pretty-printer: the canonical text of a metric.

use crate::metric::{
    greatest_depth, lemma_greatest_depth, metric_models, Duration, Factor, FactorModel, Metric,
    MetricModel, Percentage,
};
use vstd::prelude::*;
use vstd::string::StringExecFns;

verus! {

/// The indentation of the level `level`: two spaces for each level.
pub open spec fn indent_text(level: nat) -> Seq<char>
    decreases level,
{
    if level == 0 {
        Seq::empty()
    } else {
        indent_text((level - 1) as nat) + "  "@
    }
}

/// The text of a factor: the number, or the two numbers around a `/`.
pub open spec fn factor_text(f: FactorModel) -> Seq<char> {
    match f {
        FactorModel::Double(s) => s,
        FactorModel::Fraction(n, d) => n + "/"@ + d,
    }
}

/// The name of the function form of a metric.
pub open spec fn name_of(m: MetricModel) -> Seq<char> {
    match m {
        MetricModel::Host(_, _) => "host"@,
        MetricModel::Service(_, _) => "service"@,
        MetricModel::Role(_, _, _) => "role"@,
        MetricModel::RoleSlot(_, _, _) => "roleSlots"@,
        MetricModel::Avg(_) => "avg"@,
        MetricModel::Max(_) => "max"@,
        MetricModel::Min(_) => "min"@,
        MetricModel::Product(_) => "product"@,
        MetricModel::Diff(_, _) => "diff"@,
        MetricModel::Divide(_, _) => "divide"@,
        MetricModel::Scale(_, _) => "scale"@,
        MetricModel::Offset(_, _) => "offset"@,
        MetricModel::Percentile(_, _) => "percentile"@,
        MetricModel::TimeShift(_, _) => "timeShift"@,
        MetricModel::MovingAverage(_, _) => "movingAverage"@,
        MetricModel::LinearRegression(_, _) => "linearRegression"@,
        MetricModel::TimeLeftForecast(_, _, _) => "timeLeftForecast"@,
        MetricModel::Group(_) => "group"@,
        MetricModel::Stack(_) => "stack"@,
    }
}

/// A leaf with two names: `name(first, second)`.
pub open spec fn leaf_layout(name: Seq<char>, first: Seq<char>, second: Seq<char>) -> Seq<char> {
    name + "("@ + first + ", "@ + second + ")"@
}

/// A leaf with a role: `name(service:role, metric)`.
pub open spec fn role_layout(
    name: Seq<char>,
    service: Seq<char>,
    role: Seq<char>,
    metric: Seq<char>,
) -> Seq<char> {
    name + "("@ + service + ":"@ + role + ", "@ + metric + ")"@
}

/// The lines of a form that is written over several lines: the name and `(`,
/// the arguments, each on lines of its own and with `,` behind all but the
/// last, and `)` at the indentation of the form itself.
pub open spec fn block_layout(name: Seq<char>, lines: Seq<char>, indent: nat) -> Seq<char> {
    name + "(\n"@ + lines + "\n"@ + indent_text(indent) + ")"@
}

/// A form with one nested metric: on one line where `depth` is at most 2,
/// where `inline` is the metric without indentation; else over several
/// lines, where `block` is the metric one level deeper.
pub open spec fn unary_layout(
    name: Seq<char>,
    inline: Seq<char>,
    block: Seq<char>,
    depth: int,
    indent: nat,
) -> Seq<char> {
    if depth <= 2 {
        name + "("@ + inline + ")"@
    } else {
        block_layout(name, block, indent)
    }
}

/// A form with one nested metric and one parameter: on one line where `depth`
/// is at most 2, else over several lines with the parameter on its own.
pub open spec fn param_layout(
    name: Seq<char>,
    inline: Seq<char>,
    block: Seq<char>,
    param: Seq<char>,
    depth: int,
    indent: nat,
) -> Seq<char> {
    if depth <= 2 {
        name + "("@ + inline + ", "@ + param + ")"@
    } else {
        block_layout(name, block + ",\n"@ + indent_text(indent + 1) + param, indent)
    }
}

/// The text of the metric `m` at the indentation `indent`, where `depth`
/// is the depth that its place in the whole tree leaves to it.
pub open spec fn render(m: MetricModel, depth: int, indent: nat) -> Seq<char>
    decreases m, 1nat,
{
    indent_text(indent) + render_body(m, depth, indent)
}

/// The text of the metric `m` without the indentation in front of it.
pub open spec fn render_body(m: MetricModel, depth: int, indent: nat) -> Seq<char>
    decreases m, 0nat,
{
    match m {
        MetricModel::Host(a, b) | MetricModel::Service(a, b) => leaf_layout(name_of(m), a, b),
        MetricModel::Role(s, r, n) | MetricModel::RoleSlot(s, r, n) => role_layout(
            name_of(m),
            s,
            r,
            n,
        ),
        MetricModel::Avg(c) | MetricModel::Max(c) | MetricModel::Min(c) | MetricModel::Product(c)
        | MetricModel::Stack(c) => unary_layout(
            name_of(m),
            render(*c, depth - 1, 0),
            render(*c, depth - 1, indent + 1),
            depth,
            indent,
        ),
        MetricModel::Diff(l, r) | MetricModel::Divide(l, r) => block_layout(
            name_of(m),
            render(*l, depth - 1, indent + 1) + ",\n"@ + render(*r, depth - 1, indent + 1),
            indent,
        ),
        MetricModel::Scale(c, f) | MetricModel::Offset(c, f) => param_layout(
            name_of(m),
            render(*c, depth - 1, 0),
            render(*c, depth - 1, indent + 1),
            factor_text(f),
            depth,
            indent,
        ),
        MetricModel::Percentile(c, p) | MetricModel::TimeShift(c, p)
        | MetricModel::MovingAverage(c, p) | MetricModel::LinearRegression(c, p) => param_layout(
            name_of(m),
            render(*c, depth - 1, 0),
            render(*c, depth - 1, indent + 1),
            p,
            depth,
            indent,
        ),
        MetricModel::TimeLeftForecast(c, d, f) => block_layout(
            name_of(m),
            render(*c, depth - 1, indent + 1) + ",\n"@ + indent_text(indent + 1) + d + ",\n"@
                + indent_text(indent + 1) + factor_text(f),
            indent,
        ),
        MetricModel::Group(ms) => block_layout(
            name_of(m),
            render_list(ms, 0, depth - 1, indent + 1),
            indent,
        ),
    }
}

/// The texts of the metrics of `ms` from the metric `k` on, each at the
/// indentation `indent`, with `,` and a line break between two of them.
pub open spec fn render_list(ms: Seq<MetricModel>, k: nat, depth: int, indent: nat) -> Seq<char>
    decreases ms, ms.len() - k,
{
    if k >= ms.len() {
        Seq::empty()
    } else if k + 1 == ms.len() {
        render(ms[k as int], depth, indent)
    } else {
        render(ms[k as int], depth, indent) + ",\n"@ + render_list(ms, k + 1, depth, indent)
    }
}

/// The canonical text of the metric `m`.
pub open spec fn pretty(m: MetricModel) -> Seq<char> {
    render(m, m.depth() as int, 0)
}

/// The indentation of the level `level`.
pub fn indent_string(level: usize) -> (text: String)
    ensures
        text@ == indent_text(level as nat),
{
    let mut text = String::new();
    let mut k: usize = 0;
    while k < level
        invariant
            k <= level,
            text@ == indent_text(k as nat),
        decreases level - k,
    {
        text.append("  ");
        k = k + 1;
    }
    text
}

/// The text of a factor.
pub fn pretty_print_factor(factor: &Factor) -> (text: String)
    ensures
        text@ == factor_text(factor@),
{
    match factor {
        Factor::Double(s) => s.clone(),
        Factor::Fraction(nume, deno) => {
            let mut text = nume.clone();
            text.append("/");
            text.append(deno.as_str());
            text
        },
    }
}

/// The text of a percentage.
pub fn pretty_print_percentage(percentage: &Percentage) -> (text: String)
    ensures
        text@ == percentage@,
{
    percentage.0.clone()
}

/// The text of a duration.
pub fn pretty_print_duration(duration: &Duration) -> (text: String)
    ensures
        text@ == duration@,
{
    duration.0.clone()
}

/// The name of the function form of a metric.
pub fn function_name(metric: &Metric) -> (name: &'static str)
    ensures
        name@ == name_of(metric@),
{
    match metric {
        Metric::Host(_, _) => "host",
        Metric::Service(_, _) => "service",
        Metric::Role(_, _, _) => "role",
        Metric::RoleSlot(_, _, _) => "roleSlots",
        Metric::Avg(_) => "avg",
        Metric::Max(_) => "max",
        Metric::Min(_) => "min",
        Metric::Product(_) => "product",
        Metric::Diff(_, _) => "diff",
        Metric::Divide(_, _) => "divide",
        Metric::Scale(_, _) => "scale",
        Metric::Offset(_, _) => "offset",
        Metric::Percentile(_, _) => "percentile",
        Metric::TimeShift(_, _) => "timeShift",
        Metric::MovingAverage(_, _) => "movingAverage",
        Metric::LinearRegression(_, _) => "linearRegression",
        Metric::TimeLeftForecast(_, _, _) => "timeLeftForecast",
        Metric::Group(_) => "group",
        Metric::Stack(_) => "stack",
    }
}

/// The depth of a metric: 1 for a leaf, else one more than the largest depth
/// among its nested metrics.
pub fn calc_depth(metric: &Metric) -> (depth: u64)
    requires
        metric@.well_formed(),
        metric@.depth() <= u64::MAX,
    ensures
        depth == metric@.depth(),
    decreases metric,
{
    match metric {
        Metric::Host(_, _) | Metric::Service(_, _) | Metric::Role(_, _, _)
        | Metric::RoleSlot(_, _, _) => 1,
        Metric::Avg(m) | Metric::Max(m) | Metric::Min(m) | Metric::Product(m)
        | Metric::Stack(m) => 1 + calc_depth(m),
        Metric::Scale(m, _) | Metric::Offset(m, _) => 1 + calc_depth(m),
        Metric::Percentile(m, _) => 1 + calc_depth(m),
        Metric::TimeShift(m, _) | Metric::MovingAverage(m, _)
        | Metric::LinearRegression(m, _) => 1 + calc_depth(m),
        Metric::TimeLeftForecast(m, _, _) => 1 + calc_depth(m),
        Metric::Diff(metric1, metric2) | Metric::Divide(metric1, metric2) => {
            let left = calc_depth(metric1);
            let right = calc_depth(metric2);
            if left >= right {
                1 + left
            } else {
                1 + right
            }
        },
        Metric::Group(metrics) => {
            proof {
                Metric::lemma_group_model(*metrics);
            }
            let ghost ms = metric_models(metrics@);
            let mut best: u64 = 0;
            let mut k: usize = 0;
            while k < metrics.len()
                invariant
                    k <= metrics.len(),
                    metric is Group && metric->Group_0 == *metrics,
                    ms == metric_models(metrics@),
                    best == greatest_depth(ms, k as nat),
                    greatest_depth(ms, ms.len()) < u64::MAX,
                    forall|i: int| 0 <= i < ms.len() ==> (#[trigger] ms[i]).well_formed(),
                decreases metrics.len() - k,
            {
                proof {
                    lemma_greatest_depth(ms, ms.len(), k as int);
                }
                let depth = calc_depth(&metrics[k]);
                if depth > best {
                    best = depth;
                }
                k = k + 1;
            }
            1 + best
        },
    }
}

/// `name(first, second)`.
pub fn leaf_form(name: &str, first: &str, second: &str) -> (text: String)
    ensures
        text@ == leaf_layout(name@, first@, second@),
{
    let mut text = String::from_str(name);
    text.append("(");
    text.append(first);
    text.append(", ");
    text.append(second);
    text.append(")");
    text
}

/// `name(service:role, metric)`.
pub fn role_form(name: &str, service: &str, role: &str, metric: &str) -> (text: String)
    ensures
        text@ == role_layout(name@, service@, role@, metric@),
{
    let mut text = String::from_str(name);
    text.append("(");
    text.append(service);
    text.append(":");
    text.append(role);
    text.append(", ");
    text.append(metric);
    text.append(")");
    text
}

/// `name(inline)`.
pub fn inline_form(name: &str, inline: &str) -> (text: String)
    ensures
        text@ == name@ + "("@ + inline@ + ")"@,
{
    let mut text = String::from_str(name);
    text.append("(");
    text.append(inline);
    text.append(")");
    text
}

/// `name(inline, param)`.
pub fn inline_param_form(name: &str, inline: &str, param: &str) -> (text: String)
    ensures
        text@ == name@ + "("@ + inline@ + ", "@ + param@ + ")"@,
{
    let mut text = String::from_str(name);
    text.append("(");
    text.append(inline);
    text.append(", ");
    text.append(param);
    text.append(")");
    text
}

/// The form `name` over several lines, around the lines `lines` of its arguments.
pub fn block_form(name: &str, lines: &str, indent: usize) -> (text: String)
    ensures
        text@ == block_layout(name@, lines@, indent as nat),
{
    let mut text = String::from_str(name);
    text.append("(\n");
    text.append(lines);
    text.append("\n");
    text.append(indent_string(indent).as_str());
    text.append(")");
    text
}

/// `lines`, then `,`, and `param` on a line of its own at the level `level`.
pub fn with_param_line(lines: String, level: usize, param: &str) -> (text: String)
    ensures
        text@ == lines@ + ",\n"@ + indent_text(level as nat) + param@,
{
    let mut text = lines;
    text.append(",\n");
    text.append(indent_string(level).as_str());
    text.append(param);
    text
}

/// What `pretty_print_inner` needs of its arguments: no empty group, a depth
/// that is not below that of the metric, and an indentation that can be counted.
pub open spec fn printable(m: MetricModel, depth: int, indent: int) -> bool {
    &&& m.well_formed()
    &&& m.depth() <= depth
    &&& 2 * (indent + m.depth()) <= usize::MAX
}

/// The text of `metric` at the indentation `indent`, laid out for the depth `depth`.
pub fn pretty_print_inner(metric: &Metric, depth: u64, indent: usize) -> (text: String)
    requires
        printable(metric@, depth as int, indent as int),
    ensures
        text@ == render(metric@, depth as int, indent as nat),
    decreases metric,
{
    let name = function_name(metric);
    let body = match metric {
        Metric::Host(first, second) | Metric::Service(first, second) => leaf_form(
            name,
            first.as_str(),
            second.as_str(),
        ),
        Metric::Role(service_name, role_name, metric_name)
        | Metric::RoleSlot(service_name, role_name, metric_name) => role_form(
            name,
            service_name.as_str(),
            role_name.as_str(),
            metric_name.as_str(),
        ),
        Metric::Avg(m) | Metric::Max(m) | Metric::Min(m) | Metric::Product(m)
        | Metric::Stack(m) => {
            if depth <= 2 {
                inline_form(name, pretty_print_inner(m, depth - 1, 0).as_str())
            } else {
                block_form(name, pretty_print_inner(m, depth - 1, indent + 1).as_str(), indent)
            }
        },
        Metric::Diff(metric1, metric2) | Metric::Divide(metric1, metric2) => {
            let mut lines = pretty_print_inner(metric1, depth - 1, indent + 1);
            lines.append(",\n");
            lines.append(pretty_print_inner(metric2, depth - 1, indent + 1).as_str());
            block_form(name, lines.as_str(), indent)
        },
        Metric::Scale(m, factor) | Metric::Offset(m, factor) => {
            let param = pretty_print_factor(factor);
            if depth <= 2 {
                inline_param_form(
                    name,
                    pretty_print_inner(m, depth - 1, 0).as_str(),
                    param.as_str(),
                )
            } else {
                let lines = with_param_line(
                    pretty_print_inner(m, depth - 1, indent + 1),
                    indent + 1,
                    param.as_str(),
                );
                block_form(name, lines.as_str(), indent)
            }
        },
        Metric::Percentile(m, percentage) => {
            let param = pretty_print_percentage(percentage);
            if depth <= 2 {
                inline_param_form(
                    name,
                    pretty_print_inner(m, depth - 1, 0).as_str(),
                    param.as_str(),
                )
            } else {
                let lines = with_param_line(
                    pretty_print_inner(m, depth - 1, indent + 1),
                    indent + 1,
                    param.as_str(),
                );
                block_form(name, lines.as_str(), indent)
            }
        },
        Metric::TimeShift(m, duration) | Metric::MovingAverage(m, duration)
        | Metric::LinearRegression(m, duration) => {
            let param = pretty_print_duration(duration);
            if depth <= 2 {
                inline_param_form(
                    name,
                    pretty_print_inner(m, depth - 1, 0).as_str(),
                    param.as_str(),
                )
            } else {
                let lines = with_param_line(
                    pretty_print_inner(m, depth - 1, indent + 1),
                    indent + 1,
                    param.as_str(),
                );
                block_form(name, lines.as_str(), indent)
            }
        },
        Metric::TimeLeftForecast(m, duration, threshold) => {
            let lines = with_param_line(
                pretty_print_inner(m, depth - 1, indent + 1),
                indent + 1,
                pretty_print_duration(duration).as_str(),
            );
            let lines = with_param_line(
                lines,
                indent + 1,
                pretty_print_factor(threshold).as_str(),
            );
            block_form(name, lines.as_str(), indent)
        },
        Metric::Group(metrics) => {
            proof {
                Metric::lemma_group_model(*metrics);
            }
            let ghost ms = metric_models(metrics@);
            let ghost below = depth - 1;
            let ghost level = (indent + 1) as nat;
            let mut lines = String::new();
            let mut k: usize = 0;
            assert(lines@ + render_list(ms, 0, below, level) =~= render_list(ms, 0, below, level));
            while k < metrics.len()
                invariant
                    k <= metrics.len(),
                    metric is Group && metric->Group_0 == *metrics,
                    ms == metric_models(metrics@),
                    below == depth - 1,
                    level == indent + 1,
                    1 + greatest_depth(ms, ms.len()) <= depth,
                    2 * (indent + 1 + greatest_depth(ms, ms.len())) <= usize::MAX,
                    forall|i: int| 0 <= i < ms.len() ==> (#[trigger] ms[i]).well_formed(),
                    render_list(ms, 0, below, level) == lines@ + render_list(
                        ms,
                        k as nat,
                        below,
                        level,
                    ),
                decreases metrics.len() - k,
            {
                proof {
                    lemma_greatest_depth(ms, ms.len(), k as int);
                }
                let ghost before = lines@;
                let member = pretty_print_inner(&metrics[k], depth - 1, indent + 1);
                lines.append(member.as_str());
                if k + 1 < metrics.len() {
                    lines.append(",\n");
                    assert(before + (member@ + ",\n"@ + render_list(
                        ms,
                        (k + 1) as nat,
                        below,
                        level,
                    )) =~= before + member@ + ",\n"@ + render_list(
                        ms,
                        (k + 1) as nat,
                        below,
                        level,
                    ));
                } else {
                    assert(before + member@ + render_list(ms, (k + 1) as nat, below, level)
                        =~= before + member@);
                }
                k = k + 1;
            }
            assert(lines@ + render_list(ms, k as nat, below, level) =~= lines@);
            block_form(name, lines.as_str(), indent)
        },
    };
    let mut text = indent_string(indent);
    text.append(body.as_str());
    text
}

/// The canonical text of `metric`.
pub fn pretty_print(metric: Metric) -> (text: String)
    requires
        printable(metric@, metric@.depth() as int, 0),
    ensures
        text@ == pretty(metric@),
{
    let depth = calc_depth(&metric);
    pretty_print_inner(&metric, depth, 0)
}

/// The depth of `metric`, where it has no empty group and its depth is at most `limit`.
pub fn checked_depth(metric: &Metric, limit: u64) -> (r: Option<u64>)
    ensures
        match r {
            Some(depth) => metric@.well_formed() && depth == metric@.depth() && depth <= limit,
            None => !(metric@.well_formed() && metric@.depth() <= limit),
        },
    decreases metric,
{
    if limit == 0 {
        return None;
    }
    match metric {
        Metric::Host(_, _) | Metric::Service(_, _) | Metric::Role(_, _, _)
        | Metric::RoleSlot(_, _, _) => Some(1),
        Metric::Avg(m) | Metric::Max(m) | Metric::Min(m) | Metric::Product(m)
        | Metric::Stack(m) => match checked_depth(m, limit - 1) {
            Some(depth) => Some(depth + 1),
            None => None,
        },
        Metric::Scale(m, _) | Metric::Offset(m, _) => match checked_depth(m, limit - 1) {
            Some(depth) => Some(depth + 1),
            None => None,
        },
        Metric::Percentile(m, _) => match checked_depth(m, limit - 1) {
            Some(depth) => Some(depth + 1),
            None => None,
        },
        Metric::TimeShift(m, _) | Metric::MovingAverage(m, _)
        | Metric::LinearRegression(m, _) => match checked_depth(m, limit - 1) {
            Some(depth) => Some(depth + 1),
            None => None,
        },
        Metric::TimeLeftForecast(m, _, _) => match checked_depth(m, limit - 1) {
            Some(depth) => Some(depth + 1),
            None => None,
        },
        Metric::Diff(metric1, metric2) | Metric::Divide(metric1, metric2) => {
            match checked_depth(metric1, limit - 1) {
                None => None,
                Some(left) => match checked_depth(metric2, limit - 1) {
                    None => None,
                    Some(right) => if left >= right {
                        Some(left + 1)
                    } else {
                        Some(right + 1)
                    },
                },
            }
        },
        Metric::Group(metrics) => {
            proof {
                Metric::lemma_group_model(*metrics);
            }
            if metrics.len() == 0 {
                return None;
            }
            let ghost ms = metric_models(metrics@);
            let mut best: u64 = 0;
            let mut k: usize = 0;
            while k < metrics.len()
                invariant
                    k <= metrics.len(),
                    limit >= 1,
                    metric is Group && metric->Group_0 == *metrics,
                    ms == metric_models(metrics@),
                    metric@ == MetricModel::Group(ms),
                    best == greatest_depth(ms, k as nat),
                    best <= limit - 1,
                    forall|i: int| 0 <= i < k ==> (#[trigger] ms[i]).well_formed(),
                decreases metrics.len() - k,
            {
                match checked_depth(&metrics[k], limit - 1) {
                    None => {
                        proof {
                            lemma_greatest_depth(ms, ms.len(), k as int);
                        }
                        return None;
                    },
                    Some(depth) => {
                        if depth > best {
                            best = depth;
                        }
                    },
                }
                k = k + 1;
            }
            Some(best + 1)
        },
    }
}

/// The canonical text of `metric`, or nothing where the metric has an empty
/// group or is too deep for its indentation to be counted.
pub fn try_pretty_print(metric: Metric) -> (r: Option<String>)
    ensures
        match r {
            Some(text) => printable(metric@, metric@.depth() as int, 0) && text@ == pretty(
                metric@,
            ),
            None => !printable(metric@, metric@.depth() as int, 0),
        },
{
    let limit: u64 = (usize::MAX / 2) as u64;
    match checked_depth(&metric, limit) {
        Some(depth) => Some(pretty_print_inner(&metric, depth, 0)),
        None => None,
    }
}

} // verus!
