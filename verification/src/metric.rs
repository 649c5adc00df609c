//! The abstract syntax tree of a metric expression and its mathematical model.

use vstd::prelude::*;

verus! {

/// A numeric parameter, kept as the text it was written with.
#[derive(Debug, PartialEq, Clone)]
pub enum Factor {
    Double(String),
    Fraction(String, String),
}

/// A percentage parameter, kept as the text it was written with.
#[derive(Debug, PartialEq, Clone)]
pub struct Percentage(pub String);

/// A duration parameter, kept as the text it was written with.
#[derive(Debug, PartialEq, Clone)]
pub struct Duration(pub String);

/// One metric expression: a leaf reference or a function applied to metrics.
#[derive(Debug, PartialEq)]
pub enum Metric {
    Host(String, String),
    Service(String, String),
    Role(String, String, String),
    RoleSlot(String, String, String),
    Avg(Box<Metric>),
    Max(Box<Metric>),
    Min(Box<Metric>),
    Product(Box<Metric>),
    Diff(Box<Metric>, Box<Metric>),
    Divide(Box<Metric>, Box<Metric>),
    Scale(Box<Metric>, Factor),
    Offset(Box<Metric>, Factor),
    Percentile(Box<Metric>, Percentage),
    TimeShift(Box<Metric>, Duration),
    MovingAverage(Box<Metric>, Duration),
    LinearRegression(Box<Metric>, Duration),
    TimeLeftForecast(Box<Metric>, Duration, Factor),
    Group(Vec<Metric>),
    Stack(Box<Metric>),
}

/// The model of a `Factor`: its tokens as character sequences.
pub enum FactorModel {
    Double(Seq<char>),
    Fraction(Seq<char>, Seq<char>),
}

/// The model of a `Metric`: the same tree over character sequences.
pub enum MetricModel {
    Host(Seq<char>, Seq<char>),
    Service(Seq<char>, Seq<char>),
    Role(Seq<char>, Seq<char>, Seq<char>),
    RoleSlot(Seq<char>, Seq<char>, Seq<char>),
    Avg(Box<MetricModel>),
    Max(Box<MetricModel>),
    Min(Box<MetricModel>),
    Product(Box<MetricModel>),
    Diff(Box<MetricModel>, Box<MetricModel>),
    Divide(Box<MetricModel>, Box<MetricModel>),
    Scale(Box<MetricModel>, FactorModel),
    Offset(Box<MetricModel>, FactorModel),
    Percentile(Box<MetricModel>, Seq<char>),
    TimeShift(Box<MetricModel>, Seq<char>),
    MovingAverage(Box<MetricModel>, Seq<char>),
    LinearRegression(Box<MetricModel>, Seq<char>),
    TimeLeftForecast(Box<MetricModel>, Seq<char>, FactorModel),
    Group(Seq<MetricModel>),
    Stack(Box<MetricModel>),
}

impl View for Factor {
    type V = FactorModel;

    open spec fn view(&self) -> FactorModel {
        match self {
            Factor::Double(s) => FactorModel::Double(s@),
            Factor::Fraction(n, d) => FactorModel::Fraction(n@, d@),
        }
    }
}

impl View for Percentage {
    type V = Seq<char>;

    open spec fn view(&self) -> Seq<char> {
        self.0@
    }
}

impl View for Duration {
    type V = Seq<char>;

    open spec fn view(&self) -> Seq<char> {
        self.0@
    }
}

impl Metric {
    /// The model of this tree, built node by node.
    pub open spec fn model(&self) -> MetricModel
        decreases self,
    {
        match self {
            Metric::Host(a, b) => MetricModel::Host(a@, b@),
            Metric::Service(a, b) => MetricModel::Service(a@, b@),
            Metric::Role(a, b, c) => MetricModel::Role(a@, b@, c@),
            Metric::RoleSlot(a, b, c) => MetricModel::RoleSlot(a@, b@, c@),
            Metric::Avg(m) => MetricModel::Avg(Box::new(m.model())),
            Metric::Max(m) => MetricModel::Max(Box::new(m.model())),
            Metric::Min(m) => MetricModel::Min(Box::new(m.model())),
            Metric::Product(m) => MetricModel::Product(Box::new(m.model())),
            Metric::Diff(l, r) => MetricModel::Diff(Box::new(l.model()), Box::new(r.model())),
            Metric::Divide(l, r) => MetricModel::Divide(Box::new(l.model()), Box::new(r.model())),
            Metric::Scale(m, f) => MetricModel::Scale(Box::new(m.model()), f@),
            Metric::Offset(m, f) => MetricModel::Offset(Box::new(m.model()), f@),
            Metric::Percentile(m, p) => MetricModel::Percentile(Box::new(m.model()), p@),
            Metric::TimeShift(m, d) => MetricModel::TimeShift(Box::new(m.model()), d@),
            Metric::MovingAverage(m, d) => MetricModel::MovingAverage(Box::new(m.model()), d@),
            Metric::LinearRegression(m, d) => MetricModel::LinearRegression(
                Box::new(m.model()),
                d@,
            ),
            Metric::TimeLeftForecast(m, d, f) => MetricModel::TimeLeftForecast(
                Box::new(m.model()),
                d@,
                f@,
            ),
            Metric::Group(ms) => MetricModel::Group(
                Seq::new(
                    ms@.len(),
                    |i: int|
                        if 0 <= i < ms@.len() {
                            ms@[i].model()
                        } else {
                            MetricModel::Group(Seq::empty())
                        },
                ),
            ),
            Metric::Stack(m) => MetricModel::Stack(Box::new(m.model())),
        }
    }
}

/// The models of the metrics of `v`, in order.
pub open spec fn metric_models(v: Seq<Metric>) -> Seq<MetricModel> {
    Seq::new(v.len(), |i: int| v[i]@)
}

impl Metric {
    /// The model of a group holds the models of its members, in order.
    pub proof fn lemma_group_model(members: Vec<Metric>)
        ensures
            Metric::Group(members)@ == MetricModel::Group(metric_models(members@)),
    {
        assert(Metric::Group(members)@->Group_0 =~= metric_models(members@));
    }
}

impl View for Metric {
    type V = MetricModel;

    open spec fn view(&self) -> MetricModel {
        self.model()
    }
}

impl MetricModel {
    /// Whether every group of the tree has at least one member.
    pub open spec fn well_formed(self) -> bool
        decreases self,
    {
        match self {
            MetricModel::Host(_, _) | MetricModel::Service(_, _) | MetricModel::Role(_, _, _)
            | MetricModel::RoleSlot(_, _, _) => true,
            MetricModel::Avg(m) | MetricModel::Max(m) | MetricModel::Min(m)
            | MetricModel::Product(m) | MetricModel::Stack(m) | MetricModel::Scale(m, _)
            | MetricModel::Offset(m, _) | MetricModel::Percentile(m, _)
            | MetricModel::TimeShift(m, _) | MetricModel::MovingAverage(m, _)
            | MetricModel::LinearRegression(m, _) | MetricModel::TimeLeftForecast(m, _, _) => {
                m.well_formed()
            },
            MetricModel::Diff(l, r) | MetricModel::Divide(l, r) => l.well_formed()
                && r.well_formed(),
            MetricModel::Group(ms) => ms.len() > 0 && forall|i: int|
                0 <= i < ms.len() ==> (#[trigger] ms[i]).well_formed(),
        }
    }

    /// The number of nodes on the longest path from this node down to a leaf.
    pub open spec fn depth(self) -> nat
        decreases self, 0nat,
    {
        match self {
            MetricModel::Host(_, _) | MetricModel::Service(_, _) | MetricModel::Role(_, _, _)
            | MetricModel::RoleSlot(_, _, _) => 1,
            MetricModel::Avg(m) | MetricModel::Max(m) | MetricModel::Min(m)
            | MetricModel::Product(m) | MetricModel::Stack(m) | MetricModel::Scale(m, _)
            | MetricModel::Offset(m, _) | MetricModel::Percentile(m, _)
            | MetricModel::TimeShift(m, _) | MetricModel::MovingAverage(m, _)
            | MetricModel::LinearRegression(m, _) | MetricModel::TimeLeftForecast(m, _, _) => 1
                + m.depth(),
            MetricModel::Diff(l, r) | MetricModel::Divide(l, r) => 1 + larger(
                l.depth(),
                r.depth(),
            ),
            MetricModel::Group(ms) => 1 + greatest_depth(ms, ms.len()),
        }
    }
}

pub open spec fn larger(a: nat, b: nat) -> nat {
    if a >= b {
        a
    } else {
        b
    }
}

/// The largest depth among the first `n` metrics of `ms`; 0 where `n` is 0.
pub open spec fn greatest_depth(ms: Seq<MetricModel>, n: nat) -> nat
    decreases ms, n,
{
    if n == 0 || n > ms.len() {
        0
    } else {
        larger(greatest_depth(ms, (n - 1) as nat), ms[n - 1].depth())
    }
}

/// None of the first `n` metrics of `ms` is deeper than `greatest_depth` says.
pub proof fn lemma_greatest_depth(ms: Seq<MetricModel>, n: nat, i: int)
    requires
        0 <= i < n <= ms.len(),
    ensures
        ms[i].depth() <= greatest_depth(ms, n),
    decreases n,
{
    if i < n - 1 {
        lemma_greatest_depth(ms, (n - 1) as nat, i);
    }
}

impl Metric {
    /// A copy of this tree.
    pub fn duplicate(&self) -> (copy: Metric)
        ensures
            copy@ == self@,
        decreases self,
    {
        match self {
            Metric::Host(a, b) => Metric::Host(a.clone(), b.clone()),
            Metric::Service(a, b) => Metric::Service(a.clone(), b.clone()),
            Metric::Role(a, b, c) => Metric::Role(a.clone(), b.clone(), c.clone()),
            Metric::RoleSlot(a, b, c) => Metric::RoleSlot(a.clone(), b.clone(), c.clone()),
            Metric::Avg(m) => Metric::Avg(Box::new(m.duplicate())),
            Metric::Max(m) => Metric::Max(Box::new(m.duplicate())),
            Metric::Min(m) => Metric::Min(Box::new(m.duplicate())),
            Metric::Product(m) => Metric::Product(Box::new(m.duplicate())),
            Metric::Stack(m) => Metric::Stack(Box::new(m.duplicate())),
            Metric::Diff(l, r) => Metric::Diff(Box::new(l.duplicate()), Box::new(r.duplicate())),
            Metric::Divide(l, r) => Metric::Divide(
                Box::new(l.duplicate()),
                Box::new(r.duplicate()),
            ),
            Metric::Scale(m, f) => Metric::Scale(Box::new(m.duplicate()), f.duplicate()),
            Metric::Offset(m, f) => Metric::Offset(Box::new(m.duplicate()), f.duplicate()),
            Metric::Percentile(m, p) => Metric::Percentile(
                Box::new(m.duplicate()),
                Percentage(p.0.clone()),
            ),
            Metric::TimeShift(m, d) => Metric::TimeShift(
                Box::new(m.duplicate()),
                Duration(d.0.clone()),
            ),
            Metric::MovingAverage(m, d) => Metric::MovingAverage(
                Box::new(m.duplicate()),
                Duration(d.0.clone()),
            ),
            Metric::LinearRegression(m, d) => Metric::LinearRegression(
                Box::new(m.duplicate()),
                Duration(d.0.clone()),
            ),
            Metric::TimeLeftForecast(m, d, f) => Metric::TimeLeftForecast(
                Box::new(m.duplicate()),
                Duration(d.0.clone()),
                f.duplicate(),
            ),
            Metric::Group(members) => {
                let mut copies: Vec<Metric> = Vec::new();
                let mut k: usize = 0;
                while k < members.len()
                    invariant
                        k <= members.len(),
                        self is Group && self->Group_0 == *members,
                        copies.len() == k,
                        forall|i: int| 0 <= i < k ==> (#[trigger] copies@[i])@ == members@[i]@,
                    decreases members.len() - k,
                {
                    copies.push(members[k].duplicate());
                    k = k + 1;
                }
                proof {
                    Metric::lemma_group_model(copies);
                    Metric::lemma_group_model(*members);
                    assert(metric_models(copies@) =~= metric_models(members@));
                }
                Metric::Group(copies)
            },
        }
    }
}

impl Factor {
    /// A copy of this factor.
    pub fn duplicate(&self) -> (copy: Factor)
        ensures
            copy@ == self@,
    {
        match self {
            Factor::Double(s) => Factor::Double(s.clone()),
            Factor::Fraction(n, d) => Factor::Fraction(n.clone(), d.clone()),
        }
    }
}

impl Clone for Metric {
    fn clone(&self) -> (copy: Self)
        ensures
            copy@ == self@,
    {
        self.duplicate()
    }
}

} // verus!
