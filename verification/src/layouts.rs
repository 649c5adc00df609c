//! The layouts of the pretty-printer, seen as function forms with gaps.

use crate::forms::{form1, form2, form3, lemma_punctuation};
use crate::lex::{in_class, CharClass};
use crate::printer::{
    block_layout, indent_text, leaf_layout, param_layout, role_layout, unary_layout,
};
use crate::scan::{blank, lemma_occurs_concat, lemma_peel, occurs};
use crate::token::has_char;
use vstd::prelude::*;

verus! {

/// Indentation is whitespace, two characters for each level.
pub proof fn lemma_indent(level: nat)
    ensures
        blank(indent_text(level)),
        indent_text(level).len() == 2 * level,
    decreases level,
{
    lemma_punctuation();
    if level > 0 {
        lemma_indent((level - 1) as nat);
        let before = indent_text((level - 1) as nat);
        assert forall|j: int| 0 <= j < indent_text(level).len() implies in_class(
            CharClass::Space,
            #[trigger] indent_text(level)[j],
        ) by {
            if j < before.len() {
                assert(indent_text(level)[j] == before[j]);
            }
        }
    }
}

/// The gap in front of the first argument: none on one line, else a line
/// break and the indentation of the next level.
pub open spec fn gap_first(inline: bool, indent: nat) -> Seq<char> {
    if inline {
        Seq::empty()
    } else {
        "\n"@ + indent_text(indent + 1)
    }
}

/// The gap in front of a later argument: a space on one line, else a line
/// break and the indentation of the next level.
pub open spec fn gap_next(inline: bool, indent: nat) -> Seq<char> {
    if inline {
        " "@
    } else {
        "\n"@ + indent_text(indent + 1)
    }
}

/// The gap in front of `)`: none on one line, else a line break and the
/// indentation of the form itself.
pub open spec fn gap_last(inline: bool, indent: nat) -> Seq<char> {
    if inline {
        Seq::empty()
    } else {
        "\n"@ + indent_text(indent)
    }
}

/// The gaps of the layouts are whitespace.
pub proof fn lemma_gaps(inline: bool, indent: nat)
    ensures
        blank(gap_first(inline, indent)),
        blank(gap_next(inline, indent)),
        blank(gap_last(inline, indent)),
{
    lemma_punctuation();
    reveal_strlit(" ");
    lemma_indent(indent);
    lemma_indent(indent + 1);
    let a = indent_text(indent);
    let b = indent_text(indent + 1);
    assert forall|j: int| 0 <= j < ("\n"@ + a).len() implies in_class(
        CharClass::Space,
        #[trigger] ("\n"@ + a)[j],
    ) by {
        if j > 0 {
            assert(("\n"@ + a)[j] == a[j - 1]);
        }
    }
    assert forall|j: int| 0 <= j < ("\n"@ + b).len() implies in_class(
        CharClass::Space,
        #[trigger] ("\n"@ + b)[j],
    ) by {
        if j > 0 {
            assert(("\n"@ + b)[j] == b[j - 1]);
        }
    }
}

/// A leaf with two names is a form with two arguments on one line.
pub proof fn lemma_leaf_is_form(name: Seq<char>, a: Seq<char>, b: Seq<char>)
    ensures
        leaf_layout(name, a, b) == form2(
            name,
            gap_first(true, 0),
            a,
            gap_next(true, 0),
            b,
            gap_last(true, 0),
        ),
{
    reveal(form2);
    lemma_punctuation();
    reveal_strlit(" ");
    assert(leaf_layout(name, a, b) =~= form2(
        name,
        gap_first(true, 0),
        a,
        gap_next(true, 0),
        b,
        gap_last(true, 0),
    ));
}

/// A leaf with a role is a form with two arguments on one line.
pub proof fn lemma_role_is_form(name: Seq<char>, service: Seq<char>, role: Seq<char>, n: Seq<char>)
    ensures
        role_layout(name, service, role, n) == form2(
            name,
            gap_first(true, 0),
            service + ":"@ + role,
            gap_next(true, 0),
            n,
            gap_last(true, 0),
        ),
{
    reveal(form2);
    lemma_punctuation();
    reveal_strlit(" ");
    assert(role_layout(name, service, role, n) =~= form2(
        name,
        gap_first(true, 0),
        service + ":"@ + role,
        gap_next(true, 0),
        n,
        gap_last(true, 0),
    ));
}

/// A form with one nested metric is a form with one argument.
pub proof fn lemma_unary_is_form(
    name: Seq<char>,
    inline: Seq<char>,
    block: Seq<char>,
    depth: int,
    indent: nat,
)
    ensures
        unary_layout(
            name,
            indent_text(0) + inline,
            indent_text(indent + 1) + block,
            depth,
            indent,
        ) == form1(
            name,
            gap_first(depth <= 2, indent),
            if depth <= 2 {
                inline
            } else {
                block
            },
            gap_last(depth <= 2, indent),
        ),
{
    reveal(form1);
    lemma_punctuation();
    assert(unary_layout(
        name,
        indent_text(0) + inline,
        indent_text(indent + 1) + block,
        depth,
        indent,
    ) =~= form1(
        name,
        gap_first(depth <= 2, indent),
        if depth <= 2 {
            inline
        } else {
            block
        },
        gap_last(depth <= 2, indent),
    ));
}

/// A form with one nested metric and one parameter is a form with two arguments.
pub proof fn lemma_param_is_form(
    name: Seq<char>,
    inline: Seq<char>,
    block: Seq<char>,
    param: Seq<char>,
    depth: int,
    indent: nat,
)
    ensures
        param_layout(
            name,
            indent_text(0) + inline,
            indent_text(indent + 1) + block,
            param,
            depth,
            indent,
        ) == form2(
            name,
            gap_first(depth <= 2, indent),
            if depth <= 2 {
                inline
            } else {
                block
            },
            gap_next(depth <= 2, indent),
            param,
            gap_last(depth <= 2, indent),
        ),
{
    reveal(form2);
    lemma_punctuation();
    reveal_strlit(" ");
    assert(param_layout(
        name,
        indent_text(0) + inline,
        indent_text(indent + 1) + block,
        param,
        depth,
        indent,
    ) =~= form2(
        name,
        gap_first(depth <= 2, indent),
        if depth <= 2 {
            inline
        } else {
            block
        },
        gap_next(depth <= 2, indent),
        param,
        gap_last(depth <= 2, indent),
    ));
}

/// A form with two nested metrics is a form with two arguments over several lines.
pub proof fn lemma_binary_is_form(name: Seq<char>, left: Seq<char>, right: Seq<char>, indent: nat)
    ensures
        block_layout(
            name,
            indent_text(indent + 1) + left + ",\n"@ + (indent_text(indent + 1) + right),
            indent,
        ) == form2(
            name,
            gap_first(false, indent),
            left,
            gap_next(false, indent),
            right,
            gap_last(false, indent),
        ),
{
    reveal(form2);
    lemma_punctuation();
    assert(block_layout(
        name,
        indent_text(indent + 1) + left + ",\n"@ + (indent_text(indent + 1) + right),
        indent,
    ) =~= form2(
        name,
        gap_first(false, indent),
        left,
        gap_next(false, indent),
        right,
        gap_last(false, indent),
    ));
}

/// The forecast form is a form with three arguments over several lines.
pub proof fn lemma_forecast_is_form(
    name: Seq<char>,
    child: Seq<char>,
    duration: Seq<char>,
    factor: Seq<char>,
    indent: nat,
)
    ensures
        block_layout(
            name,
            indent_text(indent + 1) + child + ",\n"@ + indent_text(indent + 1) + duration
                + ",\n"@ + indent_text(indent + 1) + factor,
            indent,
        ) == form3(
            name,
            gap_first(false, indent),
            child,
            gap_next(false, indent),
            duration,
            gap_next(false, indent),
            factor,
            gap_last(false, indent),
        ),
{
    reveal(form3);
    lemma_punctuation();
    assert(block_layout(
        name,
        indent_text(indent + 1) + child + ",\n"@ + indent_text(indent + 1) + duration + ",\n"@
            + indent_text(indent + 1) + factor,
        indent,
    ) =~= form3(
        name,
        gap_first(false, indent),
        child,
        gap_next(false, indent),
        duration,
        gap_next(false, indent),
        factor,
        gap_last(false, indent),
    ));
}

/// Where the pieces of a group stand.
pub proof fn lemma_group_parts(s: Seq<char>, i: int, name: Seq<char>, list: Seq<char>, indent: nat)
    requires
        occurs(s, i, block_layout(name, list, indent)),
    ensures
        block_layout(name, list, indent).len() == name.len() + 2 + list.len() + 1 + 2 * indent + 1,
        occurs(s, i, name),
        has_char(s, i + name.len(), '('),
        occurs(s, i + name.len() + 1, "\n"@),
        occurs(s, i + name.len() + 2, list),
        occurs(s, i + name.len() + 2 + list.len(), gap_last(false, indent)),
        has_char(s, i + name.len() + 2 + list.len() + 1 + 2 * indent, ')'),
{
    lemma_punctuation();
    lemma_indent(indent);
    let upto1 = name + "(\n"@;
    let upto2 = upto1 + list;
    let upto3 = upto2 + "\n"@;
    let upto4 = upto3 + indent_text(indent);
    lemma_peel(s, i, upto4, ")"@);
    lemma_peel(s, i, upto3, indent_text(indent));
    lemma_peel(s, i, upto2, "\n"@);
    lemma_peel(s, i, upto1, list);
    lemma_peel(s, i, name, "(\n"@);
    assert(s[i + name.len() + 0] == "(\n"@[0]);
    assert(s[i + name.len() + 1] == "(\n"@[1]);
    assert(s[i + upto4.len() + 0] == ")"@[0]);
    lemma_occurs_concat(s, i + upto2.len(), "\n"@, indent_text(indent));
}

} // verus!
