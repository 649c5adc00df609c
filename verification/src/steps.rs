//! The grammar one step at a time: what each of its functions finds, given
//! what stands in the text and what the steps inside it find.

use crate::error::SyntaxError;
use crate::grammar::{
    arity, found, found_all, kind_at, parse_argument, parse_arguments, parse_call, parse_fixed,
    parse_list, parse_text_spec, rule_of_keyword, skip,
};
use crate::lex::{all_in, in_class, is_space, CharClass};
use crate::scan::{
    blank, lemma_no_gap, lemma_occurs_after, lemma_occurs_subrange, lemma_peel, lemma_run_over,
    lemma_starts, occurs, stops,
};
use crate::token::has_char;
use crate::tree::{branch, ParseTreeModel, Rule};
use vstd::prelude::*;

verus! {

/// The grammar skips a gap of whitespace that is followed by something else.
pub proof fn lemma_skips(s: Seq<char>, i: int, g: Seq<char>)
    requires
        occurs(s, i, g),
        blank(g),
        stops(s, i + g.len(), CharClass::Space),
    ensures
        skip(s, i) == i + g.len(),
{
    lemma_run_over(s, i, g, CharClass::Space);
}

/// The last argument of a form: a gap, then the argument.
pub proof fn lemma_last_argument(
    s: Seq<char>,
    i: int,
    rule: Rule,
    k: nat,
    g: Seq<char>,
    tree: ParseTreeModel,
    n: nat,
)
    requires
        occurs(s, i, g),
        blank(g),
        stops(s, i + g.len(), CharClass::Space),
        parse_argument(s, i + g.len(), kind_at(rule, k)) == found(tree, n),
        k + 1 >= arity(rule),
    ensures
        parse_fixed(s, i, rule, k) == found_all(seq![tree], g.len() + n),
{
    lemma_skips(s, i, g);
}

/// An argument that is not the last: a gap, the argument, a gap, `,`, and the rest.
pub proof fn lemma_next_argument(
    s: Seq<char>,
    i: int,
    rule: Rule,
    k: nat,
    g: Seq<char>,
    tree: ParseTreeModel,
    n: nat,
    w: Seq<char>,
    rest: Seq<ParseTreeModel>,
    m: nat,
)
    requires
        occurs(s, i, g),
        blank(g),
        stops(s, i + g.len(), CharClass::Space),
        parse_argument(s, i + g.len(), kind_at(rule, k)) == found(tree, n),
        k + 1 < arity(rule),
        occurs(s, i + g.len() + n, w),
        blank(w),
        has_char(s, i + g.len() + n + w.len(), ','),
        parse_fixed(s, i + g.len() + n + w.len() + 1, rule, k + 1) == found_all(rest, m),
    ensures
        parse_fixed(s, i, rule, k) == found_all(
            seq![tree] + rest,
            g.len() + n + w.len() + 1 + m,
        ),
{
    lemma_skips(s, i, g);
    lemma_skips(s, i + g.len() + n, w);
}

/// The last member of a group: a gap, then the member, then no `,`.
pub proof fn lemma_last_member(
    s: Seq<char>,
    i: int,
    g: Seq<char>,
    tree: ParseTreeModel,
    n: nat,
    tail: Seq<char>,
)
    requires
        occurs(s, i, g),
        blank(g),
        stops(s, i + g.len(), CharClass::Space),
        parse_call(s, i + g.len()) == found(tree, n),
        occurs(s, i + g.len() + n, tail),
        blank(tail),
        stops(s, i + g.len() + n + tail.len(), CharClass::Space),
        !has_char(s, i + g.len() + n + tail.len(), ','),
    ensures
        parse_list(s, i) == found_all(seq![tree], g.len() + n),
{
    lemma_skips(s, i, g);
    lemma_skips(s, i + g.len() + n, tail);
}

/// A member of a group that is not the last: a gap, the member, `,`, and the rest.
pub proof fn lemma_next_member(
    s: Seq<char>,
    i: int,
    g: Seq<char>,
    tree: ParseTreeModel,
    n: nat,
    rest: Seq<ParseTreeModel>,
    m: nat,
)
    requires
        occurs(s, i, g),
        blank(g),
        stops(s, i + g.len(), CharClass::Space),
        parse_call(s, i + g.len()) == found(tree, n),
        has_char(s, i + g.len() + n, ','),
        parse_list(s, i + g.len() + n + 1) == found_all(rest, m),
    ensures
        parse_list(s, i) == found_all(seq![tree] + rest, g.len() + n + 1 + m),
{
    lemma_skips(s, i, g);
    lemma_no_gap(s, i + g.len() + n);
}

/// A function form: its name, a gap, `(`, its arguments, a gap, `)`.
pub proof fn lemma_form(
    s: Seq<char>,
    i: int,
    name: Seq<char>,
    w: Seq<char>,
    rule: Rule,
    children: Seq<ParseTreeModel>,
    m: nat,
    g: Seq<char>,
)
    requires
        occurs(s, i, name),
        all_in(name, CharClass::Letter),
        rule_of_keyword(name) == Some(rule),
        occurs(s, i + name.len(), w),
        blank(w),
        has_char(s, i + name.len() + w.len(), '('),
        parse_arguments(s, i + name.len() + w.len() + 1, rule) == found_all(children, m),
        occurs(s, i + name.len() + w.len() + 1 + m, g),
        blank(g),
        has_char(s, i + name.len() + w.len() + 1 + m + g.len(), ')'),
    ensures
        parse_call(s, i) == found(
            branch(rule, children),
            name.len() + w.len() + 1 + m + g.len() + 1,
        ),
{
    if w.len() > 0 {
        assert(s[i + name.len() + 0] == w[0]);
        assert(in_class(CharClass::Space, w[0]));
    }
    lemma_run_over(s, i, name, CharClass::Letter);
    lemma_occurs_subrange(s, i, name);
    lemma_skips(s, i + name.len(), w);
    lemma_skips(s, i + name.len() + w.len() + 1 + m, g);
}

/// A text that is one function form between two gaps is read as that form.
pub proof fn lemma_reads_padded(
    pad: Seq<char>,
    body: Seq<char>,
    trail: Seq<char>,
    tree: ParseTreeModel,
)
    requires
        blank(pad),
        blank(trail),
        body.len() > 0,
        !is_space(body[0]),
        parse_call(pad + body + trail, pad.len() as int) == found(tree, body.len()),
    ensures
        parse_text_spec(pad + body + trail) == Ok::<_, SyntaxError>(tree),
{
    let text = pad + body + trail;
    lemma_occurs_after(pad + body, trail);
    lemma_peel(text, 0, pad, body);
    lemma_starts(text, pad.len() as int, body);
    lemma_skips(text, 0, pad);
    lemma_skips(text, (pad.len() + body.len()) as int, trail);
}

} // verus!
