//! Parser and canonical pretty-printer for a small expression language
//! that describes monitoring metrics.

pub mod builder;
pub mod canon;
pub mod error;
pub mod forms;
pub mod grammar;
pub mod keywords;
pub mod laws;
pub mod layouts;
pub mod lex;
pub mod metric;
pub mod nesting;
pub mod parser;
pub mod printer;
pub mod quoting;
pub mod roundtrip;
pub mod scan;
pub mod steps;
pub mod token;
pub mod tree;
pub mod trimming;

pub use crate::error::{Expected, ParseError, ShapeError, SyntaxError};
pub use crate::metric::{Duration, Factor, Metric, Percentage};
pub use crate::printer::{pretty_print, try_pretty_print};
pub use crate::tree::{ParseTree, Rule};

use crate::builder::{convert_metrics, convert_spec};
use crate::grammar::parse_text_spec;
use crate::metric::MetricModel;
use crate::nesting::lemma_parsed_depth;
use crate::parser::parse_text;
use crate::printer::{pretty, printable};
use vstd::prelude::*;

verus! {

/// The grammar of metric expressions.
#[derive(Debug, Clone, Copy)]
pub struct MetricParser;

impl MetricParser {
    /// The parse tree of the text `src`, or the first place where it does
    /// not conform to the grammar. The characters of a text can be counted.
    pub fn parse_str(src: &str) -> (r: Result<ParseTree, SyntaxError>)
        ensures
            match parse_text_spec(src@) {
                Ok(tree) => r matches Ok(t) && t@ == tree,
                Err(e) => r matches Err(f) && f == e,
            },
            src@.len() <= usize::MAX,
    {
        parse_text(src)
    }
}

/// The metric that the text `s` denotes: the grammar gives its parse tree or
/// a syntax error, and the tree gives the metric or a shape error.
pub open spec fn parse_spec(s: Seq<char>) -> Result<MetricModel, ParseError> {
    match parse_text_spec(s) {
        Err(e) => Err(ParseError::Syntax(e)),
        Ok(tree) => match convert_spec(tree) {
            Err(e) => Err(ParseError::Shape(e)),
            Ok(m) => Ok(m),
        },
    }
}

/// The metric that the text `src` denotes, or why it denotes none. A metric
/// that comes out of a text can be printed: it has no empty group, and it is
/// no deeper than half the length of the text.
pub fn parse_metric(src: &str) -> (r: Result<Metric, ParseError>)
    ensures
        match parse_spec(src@) {
            Ok(m) => r matches Ok(x) && x@ == m,
            Err(e) => r matches Err(f) && f == e,
        },
        r matches Ok(x) ==> printable(x@, x@.depth() as int, 0),
{
    proof {
        lemma_parsed_depth(src@);
    }
    match MetricParser::parse_str(src) {
        Err(e) => Err(ParseError::Syntax(e)),
        Ok(tree) => match convert_metrics(&tree) {
            Err(e) => Err(ParseError::Shape(e)),
            Ok(metric) => Ok(metric),
        },
    }
}

/// The canonical text of the metric that the text `src` denotes, or why it
/// denotes none.
pub fn format_metric(src: &str) -> (r: Result<String, ParseError>)
    ensures
        match parse_spec(src@) {
            Ok(m) => r matches Ok(text) && text@ == pretty(m),
            Err(e) => r matches Err(f) && f == e,
        },
{
    match parse_metric(src) {
        Ok(metric) => Ok(pretty_print(metric)),
        Err(e) => Err(e),
    }
}

} // verus!
