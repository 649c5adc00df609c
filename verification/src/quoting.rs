//! Quoting and whitespace carry no meaning: however the names of a leaf are
//! quoted and whatever whitespace stands around its tokens, it denotes the same metric.

use crate::canon::{is_bare_name, lemma_reads_name, rule_of};
use crate::error::SyntaxError;
use crate::forms::{lemma_closing, lemma_punctuation};
use crate::grammar::{
    arity, found, kind_at, parse_argument, parse_call, parse_name, parse_text_spec, rule_of_keyword,
};
use crate::keywords::lemma_keyword;
use crate::lex::{all_in, in_class, is_space, CharClass};
use crate::metric::MetricModel;
use crate::printer::name_of;
use crate::scan::{
    blank, lemma_occurs_after, lemma_occurs_subrange, lemma_peel, lemma_run_over, lemma_starts,
    occurs, stops,
};
use crate::steps::{lemma_form, lemma_last_argument, lemma_next_argument, lemma_reads_padded};
use crate::token::has_char;
use crate::tree::{branch, leaf, ParseTreeModel, Rule};
use vstd::prelude::*;

verus! {

/// How a name is written in a text.
pub enum Quoting {
    /// As it is.
    Bare,
    /// Between two `'`.
    Single,
    /// Between two `"`.
    Double,
}

/// The quote that a way of writing puts around a name.
pub open spec fn quote_of(q: Quoting) -> Seq<char> {
    match q {
        Quoting::Bare => Seq::empty(),
        Quoting::Single => seq!['\''],
        Quoting::Double => seq!['"'],
    }
}

/// The name `a`, written in the way `q`.
pub open spec fn written(q: Quoting, a: Seq<char>) -> Seq<char> {
    quote_of(q) + a + quote_of(q)
}

/// Whether the name `a` can be written in the way `q`: bare where it is a
/// run of bare characters, in quotes where it does not hold the quote.
pub open spec fn writable(q: Quoting, a: Seq<char>) -> bool {
    match q {
        Quoting::Bare => is_bare_name(a),
        Quoting::Single => all_in(a, CharClass::Except('\'')),
        Quoting::Double => all_in(a, CharClass::Except('"')),
    }
}

/// The grammar reads a name, however it is written.
pub proof fn lemma_reads_written(s: Seq<char>, i: int, q: Quoting, a: Seq<char>)
    requires
        occurs(s, i, written(q, a)),
        writable(q, a),
        stops(s, i + written(q, a).len(), CharClass::Bare),
    ensures
        parse_name(s, i) == found(leaf(Rule::Identifier, a), written(q, a).len()),
        written(q, a).len() > 0,
        !is_space(written(q, a)[0]),
{
    let w = written(q, a);
    match q {
        Quoting::Bare => {
            assert(w =~= a);
            assert(in_class(CharClass::Bare, a[0]));
            lemma_reads_name(s, i, a);
        },
        _ => {
            let mark = quote_of(q)[0];
            lemma_peel(s, i, quote_of(q) + a, quote_of(q));
            lemma_peel(s, i, quote_of(q), a);
            assert(s[i + 0] == quote_of(q)[0]);
            assert(s[i + 1 + a.len() + 0] == quote_of(q)[0]);
            assert(w[0] == mark);
            lemma_run_over(s, i + 1, a, CharClass::Except(mark));
            lemma_occurs_subrange(s, i + 1, a);
        },
    }
}

/// The text of a form with two arguments and a gap wherever one may stand:
/// behind the name, in front of each argument, behind each argument.
#[verifier::opaque]
pub open spec fn call2(
    name: Seq<char>,
    w1: Seq<char>,
    w2: Seq<char>,
    a0: Seq<char>,
    w3: Seq<char>,
    w4: Seq<char>,
    a1: Seq<char>,
    w5: Seq<char>,
) -> Seq<char> {
    name + w1 + "("@ + w2 + a0 + w3 + ","@ + w4 + a1 + w5 + ")"@
}

/// The gaps of a form with two arguments: in front of the form, behind its
/// name, around its first argument, around its second argument, behind the form.
pub struct Gaps {
    pub leading: Seq<char>,
    pub after_name: Seq<char>,
    pub before_first: Seq<char>,
    pub after_first: Seq<char>,
    pub before_second: Seq<char>,
    pub after_second: Seq<char>,
    pub trailing: Seq<char>,
}

impl Gaps {
    /// Whether every gap holds nothing but whitespace.
    pub open spec fn blank(self) -> bool {
        &&& blank(self.leading)
        &&& blank(self.after_name)
        &&& blank(self.before_first)
        &&& blank(self.after_first)
        &&& blank(self.before_second)
        &&& blank(self.after_second)
        &&& blank(self.trailing)
    }

    /// The form `name` with the arguments `a0` and `a1` between these gaps.
    pub open spec fn call(self, name: Seq<char>, a0: Seq<char>, a1: Seq<char>) -> Seq<char> {
        call2(
            name,
            self.after_name,
            self.before_first,
            a0,
            self.after_first,
            self.before_second,
            a1,
            self.after_second,
        )
    }

    /// The whole text: the form between the gap in front of it and the gap behind it.
    pub open spec fn text(self, name: Seq<char>, a0: Seq<char>, a1: Seq<char>) -> Seq<char> {
        self.leading + self.call(name, a0, a1) + self.trailing
    }
}

/// Where the pieces of a form with two arguments and all its gaps stand.
pub proof fn lemma_call2_parts(
    s: Seq<char>,
    i: int,
    name: Seq<char>,
    w1: Seq<char>,
    w2: Seq<char>,
    a0: Seq<char>,
    w3: Seq<char>,
    w4: Seq<char>,
    a1: Seq<char>,
    w5: Seq<char>,
)
    requires
        occurs(s, i, call2(name, w1, w2, a0, w3, w4, a1, w5)),
        blank(w3),
        blank(w5),
    ensures
        call2(name, w1, w2, a0, w3, w4, a1, w5).len() == name.len() + w1.len() + 1 + w2.len()
            + a0.len() + w3.len() + 1 + w4.len() + a1.len() + w5.len() + 1,
        occurs(s, i, name),
        occurs(s, i + name.len(), w1),
        has_char(s, i + name.len() + w1.len(), '('),
        occurs(s, i + name.len() + w1.len() + 1, w2),
        occurs(s, i + name.len() + w1.len() + 1 + w2.len(), a0),
        occurs(s, i + name.len() + w1.len() + 1 + w2.len() + a0.len(), w3),
        has_char(s, i + name.len() + w1.len() + 1 + w2.len() + a0.len() + w3.len(), ','),
        occurs(s, i + name.len() + w1.len() + 1 + w2.len() + a0.len() + w3.len() + 1, w4),
        occurs(
            s,
            i + name.len() + w1.len() + 1 + w2.len() + a0.len() + w3.len() + 1 + w4.len(),
            a1,
        ),
        occurs(
            s,
            i + name.len() + w1.len() + 1 + w2.len() + a0.len() + w3.len() + 1 + w4.len()
                + a1.len(),
            w5,
        ),
        has_char(
            s,
            i + name.len() + w1.len() + 1 + w2.len() + a0.len() + w3.len() + 1 + w4.len()
                + a1.len() + w5.len(),
            ')',
        ),
        stops(s, i + name.len() + w1.len() + 1 + w2.len() + a0.len(), CharClass::Bare),
        stops(
            s,
            i + name.len() + w1.len() + 1 + w2.len() + a0.len() + w3.len() + 1 + w4.len()
                + a1.len(),
            CharClass::Bare,
        ),
{
    reveal(call2);
    lemma_punctuation();
    let upto1 = name + w1;
    let upto2 = upto1 + "("@;
    let upto3 = upto2 + w2;
    let upto4 = upto3 + a0;
    let upto5 = upto4 + w3;
    let upto6 = upto5 + ","@;
    let upto7 = upto6 + w4;
    let upto8 = upto7 + a1;
    let upto9 = upto8 + w5;
    lemma_peel(s, i, upto9, ")"@);
    lemma_peel(s, i, upto8, w5);
    lemma_peel(s, i, upto7, a1);
    lemma_peel(s, i, upto6, w4);
    lemma_peel(s, i, upto5, ","@);
    lemma_peel(s, i, upto4, w3);
    lemma_peel(s, i, upto3, a0);
    lemma_peel(s, i, upto2, w2);
    lemma_peel(s, i, upto1, "("@);
    lemma_peel(s, i, name, w1);
    assert(s[i + upto1.len() + 0] == "("@[0]);
    assert(s[i + upto5.len() + 0] == ","@[0]);
    assert(s[i + upto9.len() + 0] == ")"@[0]);
    lemma_closing(s, i + upto8.len(), w5);
    if w3.len() > 0 {
        assert(s[i + upto4.len() + 0] == w3[0]);
        assert(in_class(CharClass::Space, w3[0]));
    }
}

/// The grammar reads a form with two arguments and all its gaps where it
/// reads the arguments.
pub proof fn lemma_call2_reads(
    s: Seq<char>,
    i: int,
    name: Seq<char>,
    rule: Rule,
    w1: Seq<char>,
    w2: Seq<char>,
    a0: Seq<char>,
    w3: Seq<char>,
    w4: Seq<char>,
    a1: Seq<char>,
    w5: Seq<char>,
    t0: ParseTreeModel,
    t1: ParseTreeModel,
)
    requires
        occurs(s, i, call2(name, w1, w2, a0, w3, w4, a1, w5)),
        all_in(name, CharClass::Letter),
        rule_of_keyword(name) == Some(rule),
        rule != Rule::GroupMetric,
        arity(rule) == 2,
        blank(w1),
        blank(w2),
        blank(w3),
        blank(w4),
        blank(w5),
        stops(s, i + name.len() + w1.len() + 1 + w2.len(), CharClass::Space),
        parse_argument(s, i + name.len() + w1.len() + 1 + w2.len(), kind_at(rule, 0)) == found(
            t0,
            a0.len(),
        ),
        stops(
            s,
            i + name.len() + w1.len() + 1 + w2.len() + a0.len() + w3.len() + 1 + w4.len(),
            CharClass::Space,
        ),
        parse_argument(
            s,
            i + name.len() + w1.len() + 1 + w2.len() + a0.len() + w3.len() + 1 + w4.len(),
            kind_at(rule, 1),
        ) == found(t1, a1.len()),
    ensures
        parse_call(s, i) == found(
            branch(rule, seq![t0, t1]),
            call2(name, w1, w2, a0, w3, w4, a1, w5).len(),
        ),
{
    lemma_call2_parts(s, i, name, w1, w2, a0, w3, w4, a1, w5);
    let p = i + name.len() + w1.len() + 1;
    let q = p + w2.len() + a0.len() + w3.len() + 1;
    lemma_last_argument(s, q, rule, 1, w4, t1, a1.len());
    lemma_next_argument(s, p, rule, 0, w2, t0, a0.len(), w3, seq![t1], w4.len() + a1.len());
    assert(seq![t0] + seq![t1] =~= seq![t0, t1]);
    lemma_form(
        s,
        i,
        name,
        w1,
        rule,
        seq![t0, t1],
        w2.len() + a0.len() + w3.len() + 1 + w4.len() + a1.len(),
        w5,
    );
}

/// The first name of a leaf with two names.
pub open spec fn first_name(m: MetricModel) -> Seq<char> {
    match m {
        MetricModel::Host(a, _) | MetricModel::Service(a, _) => a,
        _ => Seq::empty(),
    }
}

/// The second name of a leaf with two names.
pub open spec fn second_name(m: MetricModel) -> Seq<char> {
    match m {
        MetricModel::Host(_, b) | MetricModel::Service(_, b) => b,
        _ => Seq::empty(),
    }
}

/// The grammar reads a leaf with two names, however each name is written
/// and whatever whitespace stands around the tokens.
pub proof fn lemma_reads_spaced_leaf(
    s: Seq<char>,
    i: int,
    m: MetricModel,
    first: Quoting,
    second: Quoting,
    gaps: Gaps,
)
    requires
        m is Host || m is Service,
        writable(first, first_name(m)),
        writable(second, second_name(m)),
        gaps.blank(),
        occurs(
            s,
            i,
            gaps.call(
                name_of(m),
                written(first, first_name(m)),
                written(second, second_name(m)),
            ),
        ),
    ensures
        parse_call(s, i) == found(
            branch(
                rule_of(m),
                seq![leaf(Rule::Identifier, first_name(m)), leaf(Rule::Identifier, second_name(m))],
            ),
            gaps.call(
                name_of(m),
                written(first, first_name(m)),
                written(second, second_name(m)),
            ).len(),
        ),
{
    reveal(parse_argument);
    let a = first_name(m);
    let b = second_name(m);
    lemma_keyword(m);
    let name = name_of(m);
    let rule = rule_of(m);
    let a0 = written(first, a);
    let a1 = written(second, b);
    lemma_call2_parts(
        s,
        i,
        name,
        gaps.after_name,
        gaps.before_first,
        a0,
        gaps.after_first,
        gaps.before_second,
        a1,
        gaps.after_second,
    );
    let at0 = i + name.len() + gaps.after_name.len() + 1 + gaps.before_first.len();
    let at1 = at0 + a0.len() + gaps.after_first.len() + 1 + gaps.before_second.len();
    lemma_reads_written(s, at0, first, a);
    lemma_reads_written(s, at1, second, b);
    lemma_starts(s, at0, a0);
    lemma_starts(s, at1, a1);
    lemma_call2_reads(
        s,
        i,
        name,
        rule,
        gaps.after_name,
        gaps.before_first,
        a0,
        gaps.after_first,
        gaps.before_second,
        a1,
        gaps.after_second,
        leaf(Rule::Identifier, a),
        leaf(Rule::Identifier, b),
    );
}

/// The text of a form starts with its name.
pub proof fn lemma_call2_starts(
    name: Seq<char>,
    w1: Seq<char>,
    w2: Seq<char>,
    a0: Seq<char>,
    w3: Seq<char>,
    w4: Seq<char>,
    a1: Seq<char>,
    w5: Seq<char>,
)
    requires
        name.len() > 0,
    ensures
        call2(name, w1, w2, a0, w3, w4, a1, w5).len() > 0,
        call2(name, w1, w2, a0, w3, w4, a1, w5)[0] == name[0],
{
    reveal(call2);
}

/// The grammar reads a text that is a leaf with two names between two gaps.
pub proof fn lemma_reads_spaced_text(
    m: MetricModel,
    first: Quoting,
    second: Quoting,
    gaps: Gaps,
)
    requires
        m is Host || m is Service,
        writable(first, first_name(m)),
        writable(second, second_name(m)),
        gaps.blank(),
    ensures
        parse_text_spec(
            gaps.text(
                name_of(m),
                written(first, first_name(m)),
                written(second, second_name(m)),
            ),
        ) == Ok::<_, SyntaxError>(
            branch(
                rule_of(m),
                seq![leaf(Rule::Identifier, first_name(m)), leaf(Rule::Identifier, second_name(m))],
            ),
        ),
{
    let name = name_of(m);
    let a0 = written(first, first_name(m));
    let a1 = written(second, second_name(m));
    let body = gaps.call(name, a0, a1);
    let tree = branch(
        rule_of(m),
        seq![leaf(Rule::Identifier, first_name(m)), leaf(Rule::Identifier, second_name(m))],
    );
    lemma_keyword(m);
    lemma_occurs_after(gaps.leading, body);
    lemma_occurs_after(gaps.leading + body, gaps.trailing);
    lemma_peel(gaps.leading + body + gaps.trailing, 0, gaps.leading, body);
    lemma_reads_spaced_leaf(
        gaps.leading + body + gaps.trailing,
        gaps.leading.len() as int,
        m,
        first,
        second,
        gaps,
    );
    lemma_call2_starts(
        name,
        gaps.after_name,
        gaps.before_first,
        a0,
        gaps.after_first,
        gaps.before_second,
        a1,
        gaps.after_second,
    );
    assert(in_class(CharClass::Letter, name[0]));
    lemma_reads_padded(gaps.leading, body, gaps.trailing, tree);
}

} // verus!
