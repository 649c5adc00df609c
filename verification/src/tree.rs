//! The parse tree that the grammar produces and the tree builder consumes.

use crate::metric::Duration;
use vstd::prelude::*;

verus! {

/// The tag of a parse-tree node: one per function form and one per kind of token.
#[derive(Clone, Copy, Debug, PartialEq, Eq, Structural)]
pub enum Rule {
    HostMetric,
    ServiceMetric,
    RoleMetric,
    RoleSlotMetric,
    AvgMetric,
    MaxMetric,
    MinMetric,
    ProductMetric,
    DiffMetric,
    DivideMetric,
    ScaleMetric,
    OffsetMetric,
    PercentileMetric,
    TimeShiftMetric,
    MovingAverageMetric,
    LinearRegressionMetric,
    TimeLeftForecastMetric,
    GroupMetric,
    StackMetric,
    /// An identifier; its text is the content with the quoting stripped.
    Identifier,
    /// A `service:role` pair; its children are the two trimmed components.
    RoleIdentifier,
    /// A decimal number.
    Double,
    /// Two decimal numbers around a `/`; its children are the two numbers.
    Fraction,
    /// A magnitude followed by a unit.
    Duration,
}

/// A node of the parse tree: its tag, the text of a token, the ordered children.
#[derive(Debug, PartialEq)]
pub struct ParseTree {
    pub rule: Rule,
    pub text: String,
    pub children: Vec<ParseTree>,
}

/// The model of a `ParseTree`.
pub struct ParseTreeModel {
    pub rule: Rule,
    pub text: Seq<char>,
    pub children: Seq<ParseTreeModel>,
}

impl ParseTree {
    /// The model of this tree, built node by node.
    pub open spec fn model(&self) -> ParseTreeModel
        decreases self,
    {
        ParseTreeModel {
            rule: self.rule,
            text: self.text@,
            children: Seq::new(
                self.children@.len(),
                |i: int|
                    if 0 <= i < self.children@.len() {
                        self.children@[i].model()
                    } else {
                        ParseTreeModel {
                            rule: Rule::Identifier,
                            text: Seq::empty(),
                            children: Seq::empty(),
                        }
                    },
            ),
        }
    }
}

impl View for ParseTree {
    type V = ParseTreeModel;

    open spec fn view(&self) -> ParseTreeModel {
        self.model()
    }
}

/// The models of the trees of `v`, in order.
pub open spec fn models(v: Seq<ParseTree>) -> Seq<ParseTreeModel> {
    Seq::new(v.len(), |i: int| v[i]@)
}

/// A node without children that carries the text of one token.
pub open spec fn leaf(rule: Rule, text: Seq<char>) -> ParseTreeModel {
    ParseTreeModel { rule, text, children: Seq::empty() }
}

/// A node without text that carries the given children.
pub open spec fn branch(rule: Rule, children: Seq<ParseTreeModel>) -> ParseTreeModel {
    ParseTreeModel { rule, text: Seq::empty(), children }
}

impl ParseTree {
    /// The model of a node holds the models of its children, in order.
    pub proof fn lemma_model(&self)
        ensures
            self@.rule == self.rule,
            self@.text == self.text@,
            self@.children == models(self.children@),
            self@.children.len() == self.children@.len(),
            forall|i: int|
                0 <= i < self.children@.len() ==> self@.children[i] == (
                #[trigger] self.children@[i])@,
    {
        assert(self@.children =~= models(self.children@));
    }

    /// A node without children that carries the text of one token.
    pub fn new_leaf(rule: Rule, text: String) -> (t: ParseTree)
        ensures
            t@ == leaf(rule, text@),
    {
        let t = ParseTree { rule, text, children: Vec::new() };
        assert(t@.children =~= Seq::empty());
        t
    }

    /// A node without text that carries the given children.
    pub fn new_branch(rule: Rule, children: Vec<ParseTree>) -> (t: ParseTree)
        ensures
            t@ == branch(rule, models(children@)),
    {
        let t = ParseTree { rule, text: String::new(), children };
        assert(t@.children =~= models(children@));
        t
    }
}

} // verus!
