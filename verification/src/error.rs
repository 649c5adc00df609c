//! The two kinds of failure of a parse: syntax and shape.

use vstd::prelude::*;
use vstd::string::StringExecFns;

verus! {

/// What the grammar needed at the place where the text stopped matching.
#[derive(Clone, Copy, Debug, PartialEq, Eq, Structural)]
pub enum Expected {
    /// The name of one of the function forms.
    Function,
    /// `(` after a function name.
    Open,
    /// `)` after the last argument.
    Close,
    /// `,` between two arguments.
    Comma,
    /// A bare or quoted identifier.
    Identifier,
    /// A `service:role` pair, bare or quoted.
    RoleIdentifier,
    /// A literal argument: a number, a fraction, a duration.
    Argument,
    /// Nothing but whitespace after the expression.
    End,
}

/// The text does not conform to the grammar.
#[derive(Clone, Copy, Debug, PartialEq, Eq, Structural)]
pub struct SyntaxError {
    /// The offset, in characters, at which the text stopped matching.
    pub position: usize,
    pub expected: Expected,
}

/// A literal matched the grammar but not the shape that its place requires.
#[derive(Clone, Copy, Debug, PartialEq, Eq, Structural)]
pub enum ShapeError {
    InvalidFactor,
    InvalidPercentage,
    InvalidDuration,
    /// A node of the parse tree has children that its rule does not allow.
    InvalidTree,
}

/// Why a text could not be turned into a metric.
#[derive(Clone, Copy, Debug, PartialEq, Eq, Structural)]
pub enum ParseError {
    Syntax(SyntaxError),
    Shape(ShapeError),
}

/// The syntax error that reports `expected` at the offset `position`.
pub open spec fn syntax_error(position: int, expected: Expected) -> SyntaxError {
    SyntaxError { position: position as usize, expected }
}

/// The text of one decimal digit.
pub open spec fn digit_text(d: nat) -> Seq<char> {
    if d == 0 {
        "0"@
    } else if d == 1 {
        "1"@
    } else if d == 2 {
        "2"@
    } else if d == 3 {
        "3"@
    } else if d == 4 {
        "4"@
    } else if d == 5 {
        "5"@
    } else if d == 6 {
        "6"@
    } else if d == 7 {
        "7"@
    } else if d == 8 {
        "8"@
    } else {
        "9"@
    }
}

/// The decimal text of a number, without leading zeros.
pub open spec fn decimal_text(n: nat) -> Seq<char>
    decreases n,
{
    if n < 10 {
        digit_text(n)
    } else {
        decimal_text(n / 10) + digit_text(n % 10)
    }
}

/// The words for what the grammar needed.
pub open spec fn expected_text(expected: Expected) -> Seq<char> {
    match expected {
        Expected::Function => "a function name"@,
        Expected::Open => "`(`"@,
        Expected::Close => "`)`"@,
        Expected::Comma => "`,`"@,
        Expected::Identifier => "an identifier"@,
        Expected::RoleIdentifier => "a role identifier"@,
        Expected::Argument => "a literal argument"@,
        Expected::End => "the end of the input"@,
    }
}

/// The words for a shape error.
pub open spec fn shape_text(e: ShapeError) -> Seq<char> {
    match e {
        ShapeError::InvalidFactor => "invalid factor"@,
        ShapeError::InvalidPercentage => "invalid percentage"@,
        ShapeError::InvalidDuration => "invalid duration"@,
        ShapeError::InvalidTree => "invalid parse tree"@,
    }
}

/// The message of an error: for a syntax error what was expected and where,
/// for a shape error the category of the literal.
pub open spec fn message_text(e: ParseError) -> Seq<char> {
    match e {
        ParseError::Syntax(s) => "syntax error at offset "@ + decimal_text(s.position as nat)
            + ": expected "@ + expected_text(s.expected),
        ParseError::Shape(s) => shape_text(s),
    }
}

/// The text of one decimal digit.
pub fn digit_str(d: usize) -> (text: &'static str)
    requires
        d < 10,
    ensures
        text@ == digit_text(d as nat),
{
    if d == 0 {
        "0"
    } else if d == 1 {
        "1"
    } else if d == 2 {
        "2"
    } else if d == 3 {
        "3"
    } else if d == 4 {
        "4"
    } else if d == 5 {
        "5"
    } else if d == 6 {
        "6"
    } else if d == 7 {
        "7"
    } else if d == 8 {
        "8"
    } else {
        "9"
    }
}

/// The decimal text of a number.
pub fn decimal(n: usize) -> (text: String)
    ensures
        text@ == decimal_text(n as nat),
    decreases n,
{
    if n < 10 {
        String::from_str(digit_str(n))
    } else {
        let mut text = decimal(n / 10);
        text.append(digit_str(n % 10));
        text
    }
}

impl Expected {
    /// The words for what the grammar needed.
    pub fn describe(&self) -> (text: &'static str)
        ensures
            text@ == expected_text(*self),
    {
        match self {
            Expected::Function => "a function name",
            Expected::Open => "`(`",
            Expected::Close => "`)`",
            Expected::Comma => "`,`",
            Expected::Identifier => "an identifier",
            Expected::RoleIdentifier => "a role identifier",
            Expected::Argument => "a literal argument",
            Expected::End => "the end of the input",
        }
    }
}

impl ShapeError {
    /// The words for this error.
    pub fn describe(&self) -> (text: &'static str)
        ensures
            text@ == shape_text(*self),
    {
        match self {
            ShapeError::InvalidFactor => "invalid factor",
            ShapeError::InvalidPercentage => "invalid percentage",
            ShapeError::InvalidDuration => "invalid duration",
            ShapeError::InvalidTree => "invalid parse tree",
        }
    }
}

impl ParseError {
    /// Whether the text did not conform to the grammar.
    pub fn is_syntax(&self) -> (b: bool)
        ensures
            b == (*self is Syntax),
    {
        match self {
            ParseError::Syntax(_) => true,
            ParseError::Shape(_) => false,
        }
    }

    /// Whether a literal did not have the shape that its place requires.
    pub fn is_shape(&self) -> (b: bool)
        ensures
            b == (*self is Shape),
    {
        match self {
            ParseError::Syntax(_) => false,
            ParseError::Shape(_) => true,
        }
    }

    /// The message of this error.
    pub fn message(&self) -> (text: String)
        ensures
            text@ == message_text(*self),
    {
        match self {
            ParseError::Syntax(s) => {
                let mut text = String::from_str("syntax error at offset ");
                text.append(decimal(s.position).as_str());
                text.append(": expected ");
                text.append(s.expected.describe());
                text
            },
            ParseError::Shape(s) => String::from_str(s.describe()),
        }
    }
}

} // verus!
