//! The components of a role identifier are trimmed: whitespace inside the
//! quotes of a role identifier, around its components, carries no meaning.

use crate::canon::{is_bare_name, lemma_reads_role_name, rule_of, tree_of};
use crate::error::SyntaxError;
use crate::grammar::{found, parse_argument, parse_call, parse_role_name, parse_text_spec};
use crate::keywords::lemma_keyword;
use crate::lex::{all_in, in_class, is_space, CharClass};
use crate::metric::MetricModel;
use crate::printer::name_of;
use crate::quoting::{
    lemma_call2_parts, lemma_call2_reads, lemma_call2_starts, lemma_reads_written, quote_of,
    writable, written, Gaps, Quoting,
};
use crate::scan::{
    blank, lemma_occurs_after, lemma_occurs_subrange, lemma_peel, lemma_run_over, lemma_starts,
    occurs, stops,
};
use crate::steps::lemma_reads_padded;
use crate::token::{role_tree, split_role, trailing_spaces, trim};
use crate::tree::{leaf, Rule};
use vstd::prelude::*;

verus! {

/// A text that whitespace neither starts nor ends, and that is not empty.
pub open spec fn trimmed(x: Seq<char>) -> bool {
    x.len() > 0 && !is_space(x[0]) && !is_space(x.last())
}

/// The whitespace at the end of a text that ends with a gap is the gap.
pub proof fn lemma_trailing_over(y: Seq<char>, v: Seq<char>)
    requires
        blank(v),
        y.len() == 0 || !is_space(y.last()),
    ensures
        trailing_spaces(y + v) == v.len(),
    decreases v.len(),
{
    let t = y + v;
    if v.len() > 0 {
        assert(t.last() == v.last());
        assert(in_class(CharClass::Space, v[v.len() - 1]));
        assert(t.drop_last() =~= y + v.drop_last());
        assert forall|j: int| 0 <= j < v.drop_last().len() implies in_class(
            CharClass::Space,
            #[trigger] v.drop_last()[j],
        ) by {
            assert(v.drop_last()[j] == v[j]);
        }
        lemma_trailing_over(y, v.drop_last());
    } else {
        assert(t =~= y);
    }
}

/// Trimming takes the gaps around a trimmed text away.
pub proof fn lemma_trim(u: Seq<char>, x: Seq<char>, v: Seq<char>)
    requires
        blank(u),
        blank(v),
        trimmed(x),
    ensures
        trim(u + x + v) == x,
{
    let t = u + x + v;
    lemma_occurs_after(u + x, v);
    lemma_peel(t, 0, u, x);
    assert(t[u.len() as int + 0] == x[0]);
    lemma_run_over(t, 0, u, CharClass::Space);
    assert((u + x).last() == x.last());
    lemma_trailing_over(u + x, v);
    assert(t.subrange(u.len() as int, u.len() as int + x.len()) =~= x);
}

/// The whitespace that may stand inside the quotes of a role identifier,
/// around its two components.
pub struct RoleGaps {
    pub before_service: Seq<char>,
    pub after_service: Seq<char>,
    pub before_role: Seq<char>,
    pub after_role: Seq<char>,
}

impl RoleGaps {
    /// Whether every gap holds nothing but whitespace.
    pub open spec fn blank(self) -> bool {
        &&& blank(self.before_service)
        &&& blank(self.after_service)
        &&& blank(self.before_role)
        &&& blank(self.after_role)
    }

    /// What stands on the left of the `:`.
    pub open spec fn left(self, service: Seq<char>) -> Seq<char> {
        self.before_service + service + self.after_service
    }

    /// What stands on the right of the `:`.
    pub open spec fn right(self, role: Seq<char>) -> Seq<char> {
        self.before_role + role + self.after_role
    }

    /// What stands between the quotes.
    pub open spec fn content(self, service: Seq<char>, role: Seq<char>) -> Seq<char> {
        self.left(service) + seq![':'] + self.right(role)
    }
}

/// A component of a role identifier with gaps around it holds `c` only
/// where the component does, if `c` is no whitespace.
pub proof fn lemma_padded_lacks(u: Seq<char>, x: Seq<char>, v: Seq<char>, c: char)
    requires
        blank(u),
        blank(v),
        all_in(x, CharClass::Except(c)),
        !is_space(c),
    ensures
        all_in(u + x + v, CharClass::Except(c)),
{
    let t = u + x + v;
    assert forall|j: int| 0 <= j < t.len() implies in_class(
        CharClass::Except(c),
        #[trigger] t[j],
    ) by {
        if j < u.len() {
            assert(t[j] == u[j]);
            assert(in_class(CharClass::Space, u[j]));
        } else if j < u.len() + x.len() {
            assert(t[j] == x[j - u.len()]);
            assert(in_class(CharClass::Except(c), x[j - u.len()]));
        } else {
            assert(t[j] == v[j - u.len() - x.len()]);
            assert(in_class(CharClass::Space, v[j - u.len() - x.len()]));
        }
    }
}

/// Two pieces hold `c` only where one of them does.
pub proof fn lemma_both_lack(x: Seq<char>, y: Seq<char>, c: char)
    requires
        all_in(x, CharClass::Except(c)),
        all_in(y, CharClass::Except(c)),
    ensures
        all_in(x + y, CharClass::Except(c)),
{
    let t = x + y;
    assert forall|j: int| 0 <= j < t.len() implies in_class(
        CharClass::Except(c),
        #[trigger] t[j],
    ) by {
        if j < x.len() {
            assert(t[j] == x[j]);
            assert(in_class(CharClass::Except(c), x[j]));
        } else {
            assert(t[j] == y[j - x.len()]);
            assert(in_class(CharClass::Except(c), y[j - x.len()]));
        }
    }
}

/// The content of a quoted role identifier splits into its two components,
/// without the whitespace around them.
pub proof fn lemma_split_role(service: Seq<char>, role: Seq<char>, pads: RoleGaps)
    requires
        pads.blank(),
        trimmed(service),
        trimmed(role),
        all_in(service, CharClass::Except(':')),
        all_in(role, CharClass::Except(':')),
    ensures
        split_role(pads.content(service, role)) == Some((service, role)),
{
    let left = pads.left(service);
    let right = pads.right(role);
    let t = pads.content(service, role);
    let p = left.len() as int;
    lemma_padded_lacks(pads.before_service, service, pads.after_service, ':');
    lemma_padded_lacks(pads.before_role, role, pads.after_role, ':');
    lemma_occurs_after(left + seq![':'], right);
    lemma_peel(t, 0, left, seq![':']);
    assert(t[p + 0] == seq![':'][0]);
    lemma_run_over(t, 0, left, CharClass::Except(':'));
    lemma_run_over(t, p + 1, right, CharClass::Except(':'));
    assert(t.subrange(0, p) =~= left);
    assert(t.subrange(p + 1, t.len() as int) =~= right);
    lemma_trim(pads.before_service, service, pads.after_service);
    lemma_trim(pads.before_role, role, pads.after_role);
}

/// The role identifier with the components `service` and `role`, written in
/// the way `q`: bare without whitespace, in quotes with the gaps `pads`.
pub open spec fn role_written(
    q: Quoting,
    service: Seq<char>,
    role: Seq<char>,
    pads: RoleGaps,
) -> Seq<char> {
    match q {
        Quoting::Bare => service + seq![':'] + role,
        _ => quote_of(q) + pads.content(service, role) + quote_of(q),
    }
}

/// Whether `x` can be a component of a role identifier written in the way
/// `q`: bare where it is a run of bare characters, in quotes where it is
/// trimmed and holds neither `:` nor the quote.
pub open spec fn role_writable(q: Quoting, x: Seq<char>) -> bool {
    match q {
        Quoting::Bare => is_bare_name(x),
        _ => trimmed(x) && all_in(x, CharClass::Except(':')) && writable(q, x),
    }
}

/// The grammar reads a role identifier, however it is written.
pub proof fn lemma_reads_role_written(
    s: Seq<char>,
    i: int,
    q: Quoting,
    service: Seq<char>,
    role: Seq<char>,
    pads: RoleGaps,
)
    requires
        occurs(s, i, role_written(q, service, role, pads)),
        role_writable(q, service),
        role_writable(q, role),
        pads.blank(),
        stops(s, i + role_written(q, service, role, pads).len(), CharClass::Bare),
    ensures
        parse_role_name(s, i) == found(
            role_tree(service, role),
            role_written(q, service, role, pads).len(),
        ),
        role_written(q, service, role, pads).len() > 0,
        !is_space(role_written(q, service, role, pads)[0]),
{
    let w = role_written(q, service, role, pads);
    match q {
        Quoting::Bare => {
            lemma_peel(s, i, service + seq![':'], role);
            lemma_peel(s, i, service, seq![':']);
            assert(s[i + service.len() + 0] == seq![':'][0]);
            assert(w[0] == service[0]);
            assert(in_class(CharClass::Bare, service[0]));
            lemma_reads_role_name(s, i, service, role);
        },
        _ => {
            let mark = quote_of(q)[0];
            let content = pads.content(service, role);
            lemma_peel(s, i, quote_of(q) + content, quote_of(q));
            lemma_peel(s, i, quote_of(q), content);
            assert(s[i + 0] == quote_of(q)[0]);
            assert(s[i + 1 + content.len() + 0] == quote_of(q)[0]);
            assert(w[0] == mark);
            lemma_padded_lacks(pads.before_service, service, pads.after_service, mark);
            lemma_padded_lacks(pads.before_role, role, pads.after_role, mark);
            assert(all_in(seq![':'], CharClass::Except(mark)));
            lemma_both_lack(pads.left(service), seq![':'], mark);
            lemma_both_lack(pads.left(service) + seq![':'], pads.right(role), mark);
            lemma_run_over(s, i + 1, content, CharClass::Except(mark));
            lemma_occurs_subrange(s, i + 1, content);
            lemma_split_role(service, role, pads);
        },
    }
}

/// The service of a leaf with a role.
pub open spec fn service_of(m: MetricModel) -> Seq<char> {
    match m {
        MetricModel::Role(s, _, _) | MetricModel::RoleSlot(s, _, _) => s,
        _ => Seq::empty(),
    }
}

/// The role of a leaf with a role.
pub open spec fn role_of(m: MetricModel) -> Seq<char> {
    match m {
        MetricModel::Role(_, r, _) | MetricModel::RoleSlot(_, r, _) => r,
        _ => Seq::empty(),
    }
}

/// The metric name of a leaf with a role.
pub open spec fn metric_of(m: MetricModel) -> Seq<char> {
    match m {
        MetricModel::Role(_, _, n) | MetricModel::RoleSlot(_, _, n) => n,
        _ => Seq::empty(),
    }
}

/// The grammar reads a leaf with a role, however its tokens are written.
pub proof fn lemma_reads_spaced_role(
    s: Seq<char>,
    i: int,
    m: MetricModel,
    first: Quoting,
    pads: RoleGaps,
    second: Quoting,
    gaps: Gaps,
)
    requires
        m is Role || m is RoleSlot,
        role_writable(first, service_of(m)),
        role_writable(first, role_of(m)),
        pads.blank(),
        writable(second, metric_of(m)),
        gaps.blank(),
        occurs(
            s,
            i,
            gaps.call(
                name_of(m),
                role_written(first, service_of(m), role_of(m), pads),
                written(second, metric_of(m)),
            ),
        ),
    ensures
        parse_call(s, i) == found(
            tree_of(m),
            gaps.call(
                name_of(m),
                role_written(first, service_of(m), role_of(m), pads),
                written(second, metric_of(m)),
            ).len(),
        ),
{
    reveal(parse_argument);
    lemma_keyword(m);
    let name = name_of(m);
    let rule = rule_of(m);
    let a0 = role_written(first, service_of(m), role_of(m), pads);
    let a1 = written(second, metric_of(m));
    lemma_call2_parts(
        s,
        i,
        name,
        gaps.after_name,
        gaps.before_first,
        a0,
        gaps.after_first,
        gaps.before_second,
        a1,
        gaps.after_second,
    );
    let at0 = i + name.len() + gaps.after_name.len() + 1 + gaps.before_first.len();
    let at1 = at0 + a0.len() + gaps.after_first.len() + 1 + gaps.before_second.len();
    lemma_reads_role_written(s, at0, first, service_of(m), role_of(m), pads);
    lemma_reads_written(s, at1, second, metric_of(m));
    lemma_starts(s, at0, a0);
    lemma_starts(s, at1, a1);
    lemma_call2_reads(
        s,
        i,
        name,
        rule,
        gaps.after_name,
        gaps.before_first,
        a0,
        gaps.after_first,
        gaps.before_second,
        a1,
        gaps.after_second,
        role_tree(service_of(m), role_of(m)),
        leaf(Rule::Identifier, metric_of(m)),
    );
}

/// The grammar reads a text that is a leaf with a role between two gaps.
pub proof fn lemma_reads_spaced_role_text(
    m: MetricModel,
    first: Quoting,
    pads: RoleGaps,
    second: Quoting,
    gaps: Gaps,
)
    requires
        m is Role || m is RoleSlot,
        role_writable(first, service_of(m)),
        role_writable(first, role_of(m)),
        pads.blank(),
        writable(second, metric_of(m)),
        gaps.blank(),
    ensures
        parse_text_spec(
            gaps.text(
                name_of(m),
                role_written(first, service_of(m), role_of(m), pads),
                written(second, metric_of(m)),
            ),
        ) == Ok::<_, SyntaxError>(tree_of(m)),
{
    let name = name_of(m);
    let a0 = role_written(first, service_of(m), role_of(m), pads);
    let a1 = written(second, metric_of(m));
    let body = gaps.call(name, a0, a1);
    lemma_keyword(m);
    lemma_occurs_after(gaps.leading, body);
    lemma_occurs_after(gaps.leading + body, gaps.trailing);
    lemma_peel(gaps.leading + body + gaps.trailing, 0, gaps.leading, body);
    lemma_reads_spaced_role(
        gaps.leading + body + gaps.trailing,
        gaps.leading.len() as int,
        m,
        first,
        pads,
        second,
        gaps,
    );
    lemma_call2_starts(
        name,
        gaps.after_name,
        gaps.before_first,
        a0,
        gaps.after_first,
        gaps.before_second,
        a1,
        gaps.after_second,
    );
    assert(in_class(CharClass::Letter, name[0]));
    lemma_reads_padded(gaps.leading, body, gaps.trailing, tree_of(m));
}

} // verus!
