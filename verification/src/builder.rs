//! The tree builder: from a parse tree to a metric, or to the shape error
//! of the first literal that does not fit its place.

use crate::error::ShapeError;
use crate::metric::{metric_models, Duration, Factor, FactorModel, Metric, MetricModel, Percentage};
use crate::tree::{models, ParseTree, ParseTreeModel, Rule};
use vstd::prelude::*;

verus! {

/// The factor that the literal `p` stands for.
pub open spec fn convert_factor_spec(p: ParseTreeModel) -> Result<FactorModel, ShapeError> {
    match p.rule {
        Rule::Double => Ok(FactorModel::Double(p.text)),
        Rule::Fraction => if p.children.len() == 2 {
            Ok(FactorModel::Fraction(p.children[0].text, p.children[1].text))
        } else {
            Err(ShapeError::InvalidTree)
        },
        _ => Err(ShapeError::InvalidFactor),
    }
}

/// The percentage that the literal `p` stands for.
pub open spec fn convert_percentage_spec(p: ParseTreeModel) -> Result<Seq<char>, ShapeError> {
    match p.rule {
        Rule::Double => Ok(p.text),
        _ => Err(ShapeError::InvalidPercentage),
    }
}

/// The duration that the literal `p` stands for.
pub open spec fn convert_duration_spec(p: ParseTreeModel) -> Result<Seq<char>, ShapeError> {
    match p.rule {
        Rule::Duration => Ok(p.text),
        _ => Err(ShapeError::InvalidDuration),
    }
}

/// The metric with one nested metric and no parameter that `rule` names.
pub open spec fn unary(rule: Rule, m: MetricModel) -> MetricModel {
    match rule {
        Rule::AvgMetric => MetricModel::Avg(Box::new(m)),
        Rule::MaxMetric => MetricModel::Max(Box::new(m)),
        Rule::MinMetric => MetricModel::Min(Box::new(m)),
        Rule::ProductMetric => MetricModel::Product(Box::new(m)),
        _ => MetricModel::Stack(Box::new(m)),
    }
}

/// The metric with one nested metric and a factor that `rule` names.
pub open spec fn scaled(rule: Rule, m: MetricModel, f: FactorModel) -> MetricModel {
    match rule {
        Rule::ScaleMetric => MetricModel::Scale(Box::new(m), f),
        _ => MetricModel::Offset(Box::new(m), f),
    }
}

/// The metric with one nested metric and a duration that `rule` names.
pub open spec fn timed(rule: Rule, m: MetricModel, d: Seq<char>) -> MetricModel {
    match rule {
        Rule::TimeShiftMetric => MetricModel::TimeShift(Box::new(m), d),
        Rule::MovingAverageMetric => MetricModel::MovingAverage(Box::new(m), d),
        _ => MetricModel::LinearRegression(Box::new(m), d),
    }
}

/// The metric that the parse tree `p` stands for. Nested metrics are
/// converted first, from left to right, and the first failure is the result.
pub open spec fn convert_spec(p: ParseTreeModel) -> Result<MetricModel, ShapeError>
    decreases p, 0nat,
{
    let n = p.children.len();
    match p.rule {
        Rule::HostMetric => if n == 2 {
            Ok(MetricModel::Host(p.children[0].text, p.children[1].text))
        } else {
            Err(ShapeError::InvalidTree)
        },
        Rule::ServiceMetric => if n == 2 {
            Ok(MetricModel::Service(p.children[0].text, p.children[1].text))
        } else {
            Err(ShapeError::InvalidTree)
        },
        Rule::RoleMetric => if n == 2 && p.children[0].children.len() == 2 {
            Ok(
                MetricModel::Role(
                    p.children[0].children[0].text,
                    p.children[0].children[1].text,
                    p.children[1].text,
                ),
            )
        } else {
            Err(ShapeError::InvalidTree)
        },
        Rule::RoleSlotMetric => if n == 2 && p.children[0].children.len() == 2 {
            Ok(
                MetricModel::RoleSlot(
                    p.children[0].children[0].text,
                    p.children[0].children[1].text,
                    p.children[1].text,
                ),
            )
        } else {
            Err(ShapeError::InvalidTree)
        },
        Rule::AvgMetric | Rule::MaxMetric | Rule::MinMetric | Rule::ProductMetric
        | Rule::StackMetric => if n == 1 {
            match convert_spec(p.children[0]) {
                Ok(m) => Ok(unary(p.rule, m)),
                Err(e) => Err(e),
            }
        } else {
            Err(ShapeError::InvalidTree)
        },
        Rule::DiffMetric | Rule::DivideMetric => if n == 2 {
            match convert_spec(p.children[0]) {
                Ok(l) => match convert_spec(p.children[1]) {
                    Ok(r) => Ok(
                        if p.rule == Rule::DiffMetric {
                            MetricModel::Diff(Box::new(l), Box::new(r))
                        } else {
                            MetricModel::Divide(Box::new(l), Box::new(r))
                        },
                    ),
                    Err(e) => Err(e),
                },
                Err(e) => Err(e),
            }
        } else {
            Err(ShapeError::InvalidTree)
        },
        Rule::ScaleMetric | Rule::OffsetMetric => if n == 2 {
            match convert_spec(p.children[0]) {
                Ok(m) => match convert_factor_spec(p.children[1]) {
                    Ok(f) => Ok(scaled(p.rule, m, f)),
                    Err(e) => Err(e),
                },
                Err(e) => Err(e),
            }
        } else {
            Err(ShapeError::InvalidTree)
        },
        Rule::PercentileMetric => if n == 2 {
            match convert_spec(p.children[0]) {
                Ok(m) => match convert_percentage_spec(p.children[1]) {
                    Ok(pct) => Ok(MetricModel::Percentile(Box::new(m), pct)),
                    Err(e) => Err(e),
                },
                Err(e) => Err(e),
            }
        } else {
            Err(ShapeError::InvalidTree)
        },
        Rule::TimeShiftMetric | Rule::MovingAverageMetric | Rule::LinearRegressionMetric => if n
            == 2 {
            match convert_spec(p.children[0]) {
                Ok(m) => match convert_duration_spec(p.children[1]) {
                    Ok(d) => Ok(timed(p.rule, m, d)),
                    Err(e) => Err(e),
                },
                Err(e) => Err(e),
            }
        } else {
            Err(ShapeError::InvalidTree)
        },
        Rule::TimeLeftForecastMetric => if n == 3 {
            match convert_spec(p.children[0]) {
                Ok(m) => match convert_duration_spec(p.children[1]) {
                    Ok(d) => match convert_factor_spec(p.children[2]) {
                        Ok(f) => Ok(MetricModel::TimeLeftForecast(Box::new(m), d, f)),
                        Err(e) => Err(e),
                    },
                    Err(e) => Err(e),
                },
                Err(e) => Err(e),
            }
        } else {
            Err(ShapeError::InvalidTree)
        },
        Rule::GroupMetric => if n >= 1 {
            match convert_from(p.children, 0) {
                Ok(ms) => Ok(MetricModel::Group(ms)),
                Err(e) => Err(e),
            }
        } else {
            Err(ShapeError::InvalidTree)
        },
        _ => Err(ShapeError::InvalidTree),
    }
}

/// The metrics that the parse trees `ts` stand for from the tree `k` on.
pub open spec fn convert_from(ts: Seq<ParseTreeModel>, k: nat) -> Result<
    Seq<MetricModel>,
    ShapeError,
>
    decreases ts, ts.len() - k,
{
    if k >= ts.len() {
        Ok(Seq::empty())
    } else {
        match convert_spec(ts[k as int]) {
            Err(e) => Err(e),
            Ok(m) => match convert_from(ts, k + 1) {
                Err(e) => Err(e),
                Ok(rest) => Ok(seq![m] + rest),
            },
        }
    }
}

/// Whether `r` is the result `want`, a metric taken by its model.
pub open spec fn built(
    r: Result<Metric, ShapeError>,
    want: Result<MetricModel, ShapeError>,
) -> bool {
    match want {
        Ok(m) => r matches Ok(x) && x@ == m,
        Err(e) => r matches Err(x) && x == e,
    }
}

/// The list `p` with the metrics `front` before it.
pub open spec fn after(front: Seq<MetricModel>, p: Result<Seq<MetricModel>, ShapeError>) -> Result<
    Seq<MetricModel>,
    ShapeError,
> {
    match p {
        Ok(rest) => Ok(front + rest),
        Err(e) => Err(e),
    }
}

/// The factor that the literal `pair` stands for.
pub fn convert_factor(pair: &ParseTree) -> (r: Result<Factor, ShapeError>)
    ensures
        match convert_factor_spec(pair@) {
            Ok(f) => r matches Ok(x) && x@ == f,
            Err(e) => r matches Err(x) && x == e,
        },
{
    proof {
        pair.lemma_model();
    }
    match pair.rule {
        Rule::Double => Ok(Factor::Double(pair.text.clone())),
        Rule::Fraction => {
            if pair.children.len() == 2 {
                proof {
                    pair.children[0].lemma_model();
                    pair.children[1].lemma_model();
                }
                Ok(
                    Factor::Fraction(
                        pair.children[0].text.clone(),
                        pair.children[1].text.clone(),
                    ),
                )
            } else {
                Err(ShapeError::InvalidTree)
            }
        },
        _ => Err(ShapeError::InvalidFactor),
    }
}

/// The percentage that the literal `pair` stands for.
pub fn convert_percentage(pair: &ParseTree) -> (r: Result<Percentage, ShapeError>)
    ensures
        match convert_percentage_spec(pair@) {
            Ok(p) => r matches Ok(x) && x@ == p,
            Err(e) => r matches Err(x) && x == e,
        },
{
    proof {
        pair.lemma_model();
    }
    match pair.rule {
        Rule::Double => Ok(Percentage(pair.text.clone())),
        _ => Err(ShapeError::InvalidPercentage),
    }
}

/// The duration that the literal `pair` stands for.
pub fn convert_duration(pair: &ParseTree) -> (r: Result<Duration, ShapeError>)
    ensures
        match convert_duration_spec(pair@) {
            Ok(d) => r matches Ok(x) && x@ == d,
            Err(e) => r matches Err(x) && x == e,
        },
{
    proof {
        pair.lemma_model();
    }
    match pair.rule {
        Rule::Duration => Ok(Duration(pair.text.clone())),
        _ => Err(ShapeError::InvalidDuration),
    }
}

/// The metric that the parse tree `pair` stands for, or the shape error of
/// the first literal, from left to right, that does not fit its place.
pub fn convert_metrics(pair: &ParseTree) -> (r: Result<Metric, ShapeError>)
    ensures
        built(r, convert_spec(pair@)),
    decreases pair, 0nat,
{
    proof {
        pair.lemma_model();
    }
    let n = pair.children.len();
    match pair.rule {
        Rule::HostMetric | Rule::ServiceMetric => {
            if n != 2 {
                return Err(ShapeError::InvalidTree);
            }
            proof {
                pair.children[0].lemma_model();
                pair.children[1].lemma_model();
            }
            let first = pair.children[0].text.clone();
            let second = pair.children[1].text.clone();
            match pair.rule {
                Rule::HostMetric => Ok(Metric::Host(first, second)),
                _ => Ok(Metric::Service(first, second)),
            }
        },
        Rule::RoleMetric | Rule::RoleSlotMetric => {
            if n != 2 || pair.children[0].children.len() != 2 {
                proof {
                    if n == 2 {
                        pair.children[0].lemma_model();
                    }
                }
                return Err(ShapeError::InvalidTree);
            }
            let full_name = &pair.children[0];
            proof {
                full_name.lemma_model();
                full_name.children[0].lemma_model();
                full_name.children[1].lemma_model();
                pair.children[1].lemma_model();
            }
            let service_name = full_name.children[0].text.clone();
            let role_name = full_name.children[1].text.clone();
            let metric_name = pair.children[1].text.clone();
            match pair.rule {
                Rule::RoleMetric => Ok(Metric::Role(service_name, role_name, metric_name)),
                _ => Ok(Metric::RoleSlot(service_name, role_name, metric_name)),
            }
        },
        Rule::AvgMetric | Rule::MaxMetric | Rule::MinMetric | Rule::ProductMetric
        | Rule::StackMetric => {
            if n != 1 {
                return Err(ShapeError::InvalidTree);
            }
            match convert_metrics(&pair.children[0]) {
                Err(e) => Err(e),
                Ok(m) => {
                    let inner = Box::new(m);
                    match pair.rule {
                        Rule::AvgMetric => Ok(Metric::Avg(inner)),
                        Rule::MaxMetric => Ok(Metric::Max(inner)),
                        Rule::MinMetric => Ok(Metric::Min(inner)),
                        Rule::ProductMetric => Ok(Metric::Product(inner)),
                        _ => Ok(Metric::Stack(inner)),
                    }
                },
            }
        },
        Rule::DiffMetric | Rule::DivideMetric => {
            if n != 2 {
                return Err(ShapeError::InvalidTree);
            }
            match convert_metrics(&pair.children[0]) {
                Err(e) => Err(e),
                Ok(left) => match convert_metrics(&pair.children[1]) {
                    Err(e) => Err(e),
                    Ok(right) => match pair.rule {
                        Rule::DiffMetric => Ok(Metric::Diff(Box::new(left), Box::new(right))),
                        _ => Ok(Metric::Divide(Box::new(left), Box::new(right))),
                    },
                },
            }
        },
        Rule::ScaleMetric | Rule::OffsetMetric => {
            if n != 2 {
                return Err(ShapeError::InvalidTree);
            }
            match convert_metrics(&pair.children[0]) {
                Err(e) => Err(e),
                Ok(m) => match convert_factor(&pair.children[1]) {
                    Err(e) => Err(e),
                    Ok(factor) => match pair.rule {
                        Rule::ScaleMetric => Ok(Metric::Scale(Box::new(m), factor)),
                        _ => Ok(Metric::Offset(Box::new(m), factor)),
                    },
                },
            }
        },
        Rule::PercentileMetric => {
            if n != 2 {
                return Err(ShapeError::InvalidTree);
            }
            match convert_metrics(&pair.children[0]) {
                Err(e) => Err(e),
                Ok(m) => match convert_percentage(&pair.children[1]) {
                    Err(e) => Err(e),
                    Ok(percentage) => Ok(Metric::Percentile(Box::new(m), percentage)),
                },
            }
        },
        Rule::TimeShiftMetric | Rule::MovingAverageMetric | Rule::LinearRegressionMetric => {
            if n != 2 {
                return Err(ShapeError::InvalidTree);
            }
            match convert_metrics(&pair.children[0]) {
                Err(e) => Err(e),
                Ok(m) => match convert_duration(&pair.children[1]) {
                    Err(e) => Err(e),
                    Ok(duration) => match pair.rule {
                        Rule::TimeShiftMetric => Ok(Metric::TimeShift(Box::new(m), duration)),
                        Rule::MovingAverageMetric => Ok(
                            Metric::MovingAverage(Box::new(m), duration),
                        ),
                        _ => Ok(Metric::LinearRegression(Box::new(m), duration)),
                    },
                },
            }
        },
        Rule::TimeLeftForecastMetric => {
            if n != 3 {
                return Err(ShapeError::InvalidTree);
            }
            match convert_metrics(&pair.children[0]) {
                Err(e) => Err(e),
                Ok(m) => match convert_duration(&pair.children[1]) {
                    Err(e) => Err(e),
                    Ok(duration) => match convert_factor(&pair.children[2]) {
                        Err(e) => Err(e),
                        Ok(threshold) => Ok(
                            Metric::TimeLeftForecast(Box::new(m), duration, threshold),
                        ),
                    },
                },
            }
        },
        Rule::GroupMetric => {
            if n == 0 {
                return Err(ShapeError::InvalidTree);
            }
            let mut metrics: Vec<Metric> = Vec::new();
            let mut k: usize = 0;
            assert(Seq::<MetricModel>::empty() + convert_from(pair@.children, 0)->Ok_0
                =~= convert_from(pair@.children, 0)->Ok_0);
            while k < n
                invariant
                    n == pair.children.len(),
                    n >= 1,
                    k <= n,
                    pair@.rule == Rule::GroupMetric,
                    pair@.children == models(pair.children@),
                    convert_from(pair@.children, 0) == after(
                        metric_models(metrics@),
                        convert_from(pair@.children, k as nat),
                    ),
                decreases n - k,
            {
                match convert_metrics(&pair.children[k]) {
                    Err(e) => {
                        return Err(e);
                    },
                    Ok(m) => {
                        let ghost front = metric_models(metrics@);
                        let ghost first = m@;
                        metrics.push(m);
                        proof {
                            assert(metric_models(metrics@) =~= front + seq![first]);
                            let tail = convert_from(pair@.children, (k + 1) as nat);
                            if tail is Ok {
                                assert((front + seq![first]) + tail->Ok_0 =~= front + (seq![first]
                                    + tail->Ok_0));
                            }
                        }
                        k = k + 1;
                    },
                }
            }
            proof {
                assert(metric_models(metrics@) + Seq::<MetricModel>::empty() =~= metric_models(
                    metrics@,
                ));
                Metric::lemma_group_model(metrics);
            }
            Ok(Metric::Group(metrics))
        },
        _ => Err(ShapeError::InvalidTree),
    }
}

/// What the tree builder makes of a list of parse trees has one well-formed
/// metric for each tree.
pub proof fn lemma_converted_members(ts: Seq<ParseTreeModel>, k: nat)
    requires
        k <= ts.len(),
    ensures
        convert_from(ts, k) matches Ok(ms) ==> ms.len() == ts.len() - k && forall|i: int|
            0 <= i < ms.len() ==> (#[trigger] ms[i]).well_formed(),
    decreases ts, ts.len() - k,
{
    if k < ts.len() {
        lemma_converted(ts[k as int]);
        lemma_converted_members(ts, k + 1);
        if let Ok(ms) = convert_from(ts, k) {
            let m = convert_spec(ts[k as int])->Ok_0;
            let rest = convert_from(ts, k + 1)->Ok_0;
            assert(ms == seq![m] + rest);
            assert forall|i: int| 0 <= i < ms.len() implies (#[trigger] ms[i]).well_formed() by {
                if i > 0 {
                    assert(ms[i] == rest[i - 1]);
                }
            }
        }
    }
}

/// Whatever the tree builder makes has no empty group.
pub proof fn lemma_converted(p: ParseTreeModel)
    ensures
        convert_spec(p) matches Ok(m) ==> m.well_formed(),
    decreases p, 0nat,
{
    if p.children.len() >= 1 {
        lemma_converted(p.children[0]);
    }
    if p.children.len() >= 2 {
        lemma_converted(p.children[1]);
    }
    if p.rule == Rule::GroupMetric {
        lemma_converted_members(p.children, 0);
    }
}

} // verus!
