//! Function forms written with a gap in front of each argument and in front
//! of `)`, and how the grammar reads them.

use crate::grammar::{
    arity, found, found_all, kind_at, parse_argument, parse_call, parse_fixed, rule_of_keyword,
};
use crate::lex::{all_in, in_class, CharClass};
use crate::scan::{blank, lemma_peel, occurs, stops};
use crate::steps::{lemma_form, lemma_last_argument, lemma_next_argument};
use crate::token::has_char;
use crate::tree::{branch, ParseTreeModel, Rule};
use vstd::prelude::*;

verus! {

/// The text of a form with one argument: `g0` is the gap in front of the
/// argument and `ge` the gap in front of `)`.
#[verifier::opaque]
pub open spec fn form1(name: Seq<char>, g0: Seq<char>, a0: Seq<char>, ge: Seq<char>) -> Seq<char> {
    name + "("@ + g0 + a0 + ge + ")"@
}

/// The text of a form with two arguments, with a gap in front of each and in front of `)`.
#[verifier::opaque]
pub open spec fn form2(
    name: Seq<char>,
    g0: Seq<char>,
    a0: Seq<char>,
    g1: Seq<char>,
    a1: Seq<char>,
    ge: Seq<char>,
) -> Seq<char> {
    name + "("@ + g0 + a0 + ","@ + g1 + a1 + ge + ")"@
}

/// The text of a form with three arguments, with a gap in front of each and in front of `)`.
#[verifier::opaque]
pub open spec fn form3(
    name: Seq<char>,
    g0: Seq<char>,
    a0: Seq<char>,
    g1: Seq<char>,
    a1: Seq<char>,
    g2: Seq<char>,
    a2: Seq<char>,
    ge: Seq<char>,
) -> Seq<char> {
    name + "("@ + g0 + a0 + ","@ + g1 + a1 + ","@ + g2 + a2 + ge + ")"@
}

/// Behind a gap that is followed by `)` no name and no literal goes on.
pub proof fn lemma_closing(s: Seq<char>, i: int, ge: Seq<char>)
    requires
        occurs(s, i, ge),
        blank(ge),
        has_char(s, i + ge.len(), ')'),
    ensures
        stops(s, i, CharClass::Bare),
        stops(s, i, CharClass::Argument),
        !has_char(s, i, ','),
        stops(s, i + ge.len(), CharClass::Space),
{
    if ge.len() > 0 {
        assert(s[i + 0] == ge[0]);
        assert(in_class(CharClass::Space, ge[0]));
    }
}

/// Where the pieces of a form with one argument stand.
pub proof fn lemma_form1_parts(
    s: Seq<char>,
    i: int,
    name: Seq<char>,
    g0: Seq<char>,
    a0: Seq<char>,
    ge: Seq<char>,
)
    requires
        occurs(s, i, form1(name, g0, a0, ge)),
        blank(ge),
    ensures
        form1(name, g0, a0, ge).len() == name.len() + 1 + g0.len() + a0.len() + ge.len() + 1,
        occurs(s, i, name),
        has_char(s, i + name.len(), '('),
        occurs(s, i + name.len() + 1, g0),
        occurs(s, i + name.len() + 1 + g0.len(), a0),
        occurs(s, i + name.len() + 1 + g0.len() + a0.len(), ge),
        has_char(s, i + name.len() + 1 + g0.len() + a0.len() + ge.len(), ')'),
        stops(s, i + name.len() + 1 + g0.len() + a0.len(), CharClass::Bare),
        stops(s, i + name.len() + 1 + g0.len() + a0.len(), CharClass::Argument),
{
    reveal(form1);
    lemma_punctuation();
    let upto1 = name + "("@;
    let upto2 = upto1 + g0;
    let upto3 = upto2 + a0;
    let upto4 = upto3 + ge;
    lemma_peel(s, i, upto4, ")"@);
    lemma_peel(s, i, upto3, ge);
    lemma_peel(s, i, upto2, a0);
    lemma_peel(s, i, upto1, g0);
    lemma_peel(s, i, name, "("@);
    assert(s[i + name.len() + 0] == "("@[0]);
    assert(s[i + upto4.len() + 0] == ")"@[0]);
    lemma_closing(s, i + upto3.len(), ge);
}

/// Where the pieces of a form with two arguments stand.
pub proof fn lemma_form2_parts(
    s: Seq<char>,
    i: int,
    name: Seq<char>,
    g0: Seq<char>,
    a0: Seq<char>,
    g1: Seq<char>,
    a1: Seq<char>,
    ge: Seq<char>,
)
    requires
        occurs(s, i, form2(name, g0, a0, g1, a1, ge)),
        blank(ge),
    ensures
        form2(name, g0, a0, g1, a1, ge).len() == name.len() + 1 + g0.len() + a0.len() + 1
            + g1.len() + a1.len() + ge.len() + 1,
        occurs(s, i, name),
        has_char(s, i + name.len(), '('),
        occurs(s, i + name.len() + 1, g0),
        occurs(s, i + name.len() + 1 + g0.len(), a0),
        has_char(s, i + name.len() + 1 + g0.len() + a0.len(), ','),
        occurs(s, i + name.len() + 1 + g0.len() + a0.len() + 1, g1),
        occurs(s, i + name.len() + 1 + g0.len() + a0.len() + 1 + g1.len(), a1),
        occurs(s, i + name.len() + 1 + g0.len() + a0.len() + 1 + g1.len() + a1.len(), ge),
        has_char(
            s,
            i + name.len() + 1 + g0.len() + a0.len() + 1 + g1.len() + a1.len() + ge.len(),
            ')',
        ),
        stops(
            s,
            i + name.len() + 1 + g0.len() + a0.len() + 1 + g1.len() + a1.len(),
            CharClass::Bare,
        ),
        stops(
            s,
            i + name.len() + 1 + g0.len() + a0.len() + 1 + g1.len() + a1.len(),
            CharClass::Argument,
        ),
{
    reveal(form2);
    lemma_punctuation();
    let upto1 = name + "("@;
    let upto2 = upto1 + g0;
    let upto3 = upto2 + a0;
    let upto4 = upto3 + ","@;
    let upto5 = upto4 + g1;
    let upto6 = upto5 + a1;
    let upto7 = upto6 + ge;
    lemma_peel(s, i, upto7, ")"@);
    lemma_peel(s, i, upto6, ge);
    lemma_peel(s, i, upto5, a1);
    lemma_peel(s, i, upto4, g1);
    lemma_peel(s, i, upto3, ","@);
    lemma_peel(s, i, upto2, a0);
    lemma_peel(s, i, upto1, g0);
    lemma_peel(s, i, name, "("@);
    assert(s[i + name.len() + 0] == "("@[0]);
    assert(s[i + upto3.len() + 0] == ","@[0]);
    assert(s[i + upto7.len() + 0] == ")"@[0]);
    lemma_closing(s, i + upto6.len(), ge);
}

/// Where the pieces of a form with three arguments stand.
pub proof fn lemma_form3_parts(
    s: Seq<char>,
    i: int,
    name: Seq<char>,
    g0: Seq<char>,
    a0: Seq<char>,
    g1: Seq<char>,
    a1: Seq<char>,
    g2: Seq<char>,
    a2: Seq<char>,
    ge: Seq<char>,
)
    requires
        occurs(s, i, form3(name, g0, a0, g1, a1, g2, a2, ge)),
        blank(ge),
    ensures
        form3(name, g0, a0, g1, a1, g2, a2, ge).len() == name.len() + 1 + g0.len() + a0.len() + 1
            + g1.len() + a1.len() + 1 + g2.len() + a2.len() + ge.len() + 1,
        occurs(s, i, name),
        has_char(s, i + name.len(), '('),
        occurs(s, i + name.len() + 1, g0),
        occurs(s, i + name.len() + 1 + g0.len(), a0),
        has_char(s, i + name.len() + 1 + g0.len() + a0.len(), ','),
        occurs(s, i + name.len() + 1 + g0.len() + a0.len() + 1, g1),
        occurs(s, i + name.len() + 1 + g0.len() + a0.len() + 1 + g1.len(), a1),
        has_char(s, i + name.len() + 1 + g0.len() + a0.len() + 1 + g1.len() + a1.len(), ','),
        occurs(s, i + name.len() + 1 + g0.len() + a0.len() + 1 + g1.len() + a1.len() + 1, g2),
        occurs(
            s,
            i + name.len() + 1 + g0.len() + a0.len() + 1 + g1.len() + a1.len() + 1 + g2.len(),
            a2,
        ),
        occurs(
            s,
            i + name.len() + 1 + g0.len() + a0.len() + 1 + g1.len() + a1.len() + 1 + g2.len()
                + a2.len(),
            ge,
        ),
        has_char(
            s,
            i + name.len() + 1 + g0.len() + a0.len() + 1 + g1.len() + a1.len() + 1 + g2.len()
                + a2.len() + ge.len(),
            ')',
        ),
        stops(
            s,
            i + name.len() + 1 + g0.len() + a0.len() + 1 + g1.len() + a1.len() + 1 + g2.len()
                + a2.len(),
            CharClass::Argument,
        ),
{
    reveal(form3);
    lemma_punctuation();
    let upto1 = name + "("@;
    let upto2 = upto1 + g0;
    let upto3 = upto2 + a0;
    let upto4 = upto3 + ","@;
    let upto5 = upto4 + g1;
    let upto6 = upto5 + a1;
    let upto7 = upto6 + ","@;
    let upto8 = upto7 + g2;
    let upto9 = upto8 + a2;
    let upto10 = upto9 + ge;
    lemma_peel(s, i, upto10, ")"@);
    lemma_peel(s, i, upto9, ge);
    lemma_peel(s, i, upto8, a2);
    lemma_peel(s, i, upto7, g2);
    lemma_peel(s, i, upto6, ","@);
    lemma_peel(s, i, upto5, a1);
    lemma_peel(s, i, upto4, g1);
    lemma_peel(s, i, upto3, ","@);
    lemma_peel(s, i, upto2, a0);
    lemma_peel(s, i, upto1, g0);
    lemma_peel(s, i, name, "("@);
    assert(s[i + name.len() + 0] == "("@[0]);
    assert(s[i + upto3.len() + 0] == ","@[0]);
    assert(s[i + upto6.len() + 0] == ","@[0]);
    assert(s[i + upto10.len() + 0] == ")"@[0]);
    lemma_closing(s, i + upto9.len(), ge);
}

/// The grammar reads a form with one argument where it reads the argument.
pub proof fn lemma_form1_reads(
    s: Seq<char>,
    i: int,
    name: Seq<char>,
    rule: Rule,
    g0: Seq<char>,
    a0: Seq<char>,
    ge: Seq<char>,
    t0: ParseTreeModel,
)
    requires
        occurs(s, i, form1(name, g0, a0, ge)),
        all_in(name, CharClass::Letter),
        rule_of_keyword(name) == Some(rule),
        rule != Rule::GroupMetric,
        arity(rule) == 1,
        blank(g0),
        blank(ge),
        stops(s, i + name.len() + 1 + g0.len(), CharClass::Space),
        parse_argument(s, i + name.len() + 1 + g0.len(), kind_at(rule, 0)) == found(
            t0,
            a0.len(),
        ),
    ensures
        parse_call(s, i) == found(branch(rule, seq![t0]), form1(name, g0, a0, ge).len()),
{
    lemma_form1_parts(s, i, name, g0, a0, ge);
    let p = i + name.len() + 1;
    lemma_last_argument(s, p, rule, 0, g0, t0, a0.len());
    lemma_form(s, i, name, Seq::empty(), rule, seq![t0], g0.len() + a0.len(), ge);
}

/// The grammar reads a form with two arguments where it reads the arguments.
pub proof fn lemma_form2_reads(
    s: Seq<char>,
    i: int,
    name: Seq<char>,
    rule: Rule,
    g0: Seq<char>,
    a0: Seq<char>,
    g1: Seq<char>,
    a1: Seq<char>,
    ge: Seq<char>,
    t0: ParseTreeModel,
    t1: ParseTreeModel,
)
    requires
        occurs(s, i, form2(name, g0, a0, g1, a1, ge)),
        all_in(name, CharClass::Letter),
        rule_of_keyword(name) == Some(rule),
        rule != Rule::GroupMetric,
        arity(rule) == 2,
        blank(g0),
        blank(g1),
        blank(ge),
        stops(s, i + name.len() + 1 + g0.len(), CharClass::Space),
        parse_argument(s, i + name.len() + 1 + g0.len(), kind_at(rule, 0)) == found(
            t0,
            a0.len(),
        ),
        stops(s, i + name.len() + 1 + g0.len() + a0.len() + 1 + g1.len(), CharClass::Space),
        parse_argument(
            s,
            i + name.len() + 1 + g0.len() + a0.len() + 1 + g1.len(),
            kind_at(rule, 1),
        ) == found(t1, a1.len()),
    ensures
        parse_call(s, i) == found(
            branch(rule, seq![t0, t1]),
            form2(name, g0, a0, g1, a1, ge).len(),
        ),
{
    let p = i + name.len() + 1;
    let q = p + g0.len() + a0.len() + 1;
    let used = g0.len() + a0.len() + 1 + g1.len() + a1.len();
    assert(parse_fixed(s, q, rule, 1) == found_all(seq![t1], g1.len() + a1.len())) by {
        lemma_form2_parts(s, i, name, g0, a0, g1, a1, ge);
        lemma_last_argument(s, q, rule, 1, g1, t1, a1.len());
    }
    assert(parse_fixed(s, p, rule, 0) == found_all(seq![t0, t1], used)) by {
        lemma_form2_parts(s, i, name, g0, a0, g1, a1, ge);
        lemma_next_argument(
            s,
            p,
            rule,
            0,
            g0,
            t0,
            a0.len(),
            Seq::empty(),
            seq![t1],
            g1.len() + a1.len(),
        );
        assert(seq![t0] + seq![t1] =~= seq![t0, t1]);
    }
    assert(parse_call(s, i) == found(
        branch(rule, seq![t0, t1]),
        name.len() + 1 + used + ge.len() + 1,
    )) by {
        lemma_form2_parts(s, i, name, g0, a0, g1, a1, ge);
        lemma_form(s, i, name, Seq::empty(), rule, seq![t0, t1], used, ge);
    }
    lemma_form2_parts(s, i, name, g0, a0, g1, a1, ge);
}

/// The grammar reads the three arguments of a form where it reads each.
pub proof fn lemma_form3_arguments(
    s: Seq<char>,
    i: int,
    name: Seq<char>,
    rule: Rule,
    g0: Seq<char>,
    a0: Seq<char>,
    g1: Seq<char>,
    a1: Seq<char>,
    g2: Seq<char>,
    a2: Seq<char>,
    ge: Seq<char>,
    t0: ParseTreeModel,
    t1: ParseTreeModel,
    t2: ParseTreeModel,
)
    requires
        occurs(s, i, form3(name, g0, a0, g1, a1, g2, a2, ge)),
        arity(rule) == 3,
        blank(g0),
        blank(g1),
        blank(g2),
        blank(ge),
        stops(s, i + name.len() + 1 + g0.len(), CharClass::Space),
        parse_argument(s, i + name.len() + 1 + g0.len(), kind_at(rule, 0)) == found(
            t0,
            a0.len(),
        ),
        stops(s, i + name.len() + 1 + g0.len() + a0.len() + 1 + g1.len(), CharClass::Space),
        parse_argument(
            s,
            i + name.len() + 1 + g0.len() + a0.len() + 1 + g1.len(),
            kind_at(rule, 1),
        ) == found(t1, a1.len()),
        stops(
            s,
            i + name.len() + 1 + g0.len() + a0.len() + 1 + g1.len() + a1.len() + 1 + g2.len(),
            CharClass::Space,
        ),
        parse_argument(
            s,
            i + name.len() + 1 + g0.len() + a0.len() + 1 + g1.len() + a1.len() + 1 + g2.len(),
            kind_at(rule, 2),
        ) == found(t2, a2.len()),
    ensures
        parse_fixed(s, i + name.len() + 1, rule, 0) == found_all(
            seq![t0, t1, t2],
            g0.len() + a0.len() + 1 + g1.len() + a1.len() + 1 + g2.len() + a2.len(),
        ),
{
    let p = i + name.len() + 1;
    let q = p + g0.len() + a0.len() + 1;
    let r = q + g1.len() + a1.len() + 1;
    assert(parse_fixed(s, r, rule, 2) == found_all(seq![t2], g2.len() + a2.len())) by {
        lemma_form3_parts(s, i, name, g0, a0, g1, a1, g2, a2, ge);
        lemma_last_argument(s, r, rule, 2, g2, t2, a2.len());
    }
    assert(parse_fixed(s, q, rule, 1) == found_all(
        seq![t1, t2],
        g1.len() + a1.len() + 1 + g2.len() + a2.len(),
    )) by {
        lemma_form3_parts(s, i, name, g0, a0, g1, a1, g2, a2, ge);
        lemma_next_argument(
            s,
            q,
            rule,
            1,
            g1,
            t1,
            a1.len(),
            Seq::empty(),
            seq![t2],
            g2.len() + a2.len(),
        );
        assert(seq![t1] + seq![t2] =~= seq![t1, t2]);
    }
    assert(parse_fixed(s, p, rule, 0) == found_all(
        seq![t0, t1, t2],
        g0.len() + a0.len() + 1 + g1.len() + a1.len() + 1 + g2.len() + a2.len(),
    )) by {
        lemma_form3_parts(s, i, name, g0, a0, g1, a1, g2, a2, ge);
        lemma_next_argument(
            s,
            p,
            rule,
            0,
            g0,
            t0,
            a0.len(),
            Seq::empty(),
            seq![t1, t2],
            g1.len() + a1.len() + 1 + g2.len() + a2.len(),
        );
        assert(seq![t0] + seq![t1, t2] =~= seq![t0, t1, t2]);
    }
}

/// The grammar reads a form with three arguments where it reads the arguments.
pub proof fn lemma_form3_reads(
    s: Seq<char>,
    i: int,
    name: Seq<char>,
    rule: Rule,
    g0: Seq<char>,
    a0: Seq<char>,
    g1: Seq<char>,
    a1: Seq<char>,
    g2: Seq<char>,
    a2: Seq<char>,
    ge: Seq<char>,
    t0: ParseTreeModel,
    t1: ParseTreeModel,
    t2: ParseTreeModel,
)
    requires
        occurs(s, i, form3(name, g0, a0, g1, a1, g2, a2, ge)),
        all_in(name, CharClass::Letter),
        rule_of_keyword(name) == Some(rule),
        rule != Rule::GroupMetric,
        arity(rule) == 3,
        blank(g0),
        blank(g1),
        blank(g2),
        blank(ge),
        stops(s, i + name.len() + 1 + g0.len(), CharClass::Space),
        parse_argument(s, i + name.len() + 1 + g0.len(), kind_at(rule, 0)) == found(
            t0,
            a0.len(),
        ),
        stops(s, i + name.len() + 1 + g0.len() + a0.len() + 1 + g1.len(), CharClass::Space),
        parse_argument(
            s,
            i + name.len() + 1 + g0.len() + a0.len() + 1 + g1.len(),
            kind_at(rule, 1),
        ) == found(t1, a1.len()),
        stops(
            s,
            i + name.len() + 1 + g0.len() + a0.len() + 1 + g1.len() + a1.len() + 1 + g2.len(),
            CharClass::Space,
        ),
        parse_argument(
            s,
            i + name.len() + 1 + g0.len() + a0.len() + 1 + g1.len() + a1.len() + 1 + g2.len(),
            kind_at(rule, 2),
        ) == found(t2, a2.len()),
    ensures
        parse_call(s, i) == found(
            branch(rule, seq![t0, t1, t2]),
            form3(name, g0, a0, g1, a1, g2, a2, ge).len(),
        ),
{
    lemma_form3_arguments(s, i, name, rule, g0, a0, g1, a1, g2, a2, ge, t0, t1, t2);
    lemma_form3_parts(s, i, name, g0, a0, g1, a1, g2, a2, ge);
    lemma_form(
        s,
        i,
        name,
        Seq::empty(),
        rule,
        seq![t0, t1, t2],
        g0.len() + a0.len() + 1 + g1.len() + a1.len() + 1 + g2.len() + a2.len(),
        ge,
    );
}

/// What the punctuation of the canonical text is made of.
pub proof fn lemma_punctuation()
    ensures
        "("@ == seq!['('],
        ")"@ == seq![')'],
        ","@ == seq![','],
        ":"@ == seq![':'],
        "/"@ == seq!['/'],
        "\n"@ == seq!['\n'],
        ", "@ == seq![',', ' '],
        "(\n"@ == seq!['(', '\n'],
        ",\n"@ == seq![',', '\n'],
        "  "@ == seq![' ', ' '],
{
    reveal_strlit("(");
    reveal_strlit(")");
    reveal_strlit(",");
    reveal_strlit(":");
    reveal_strlit("/");
    reveal_strlit("\n");
    reveal_strlit(", ");
    reveal_strlit("(\n");
    reveal_strlit(",\n");
    reveal_strlit("  ");
    assert("("@ =~= seq!['(']);
    assert(")"@ =~= seq![')']);
    assert(","@ =~= seq![',']);
    assert(":"@ =~= seq![':']);
    assert("/"@ =~= seq!['/']);
    assert("\n"@ =~= seq!['\n']);
    assert(", "@ =~= seq![',', ' ']);
    assert("(\n"@ =~= seq!['(', '\n']);
    assert(",\n"@ =~= seq![',', '\n']);
    assert("  "@ =~= seq![' ', ' ']);
}

} // verus!
