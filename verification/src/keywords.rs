//! The names of the function forms: how they differ and how a text starts with one.

use crate::canon::rule_of;
use crate::grammar::rule_of_keyword;
use crate::lex::{all_in, in_class, is_space, CharClass};
use crate::metric::MetricModel;
use crate::printer::{name_of, render_body};
use vstd::prelude::*;

verus! {

/// The names of the function forms, in the order in which the grammar tries them.
pub open spec fn keywords() -> Seq<Seq<char>> {
    seq![
        "host"@,
        "service"@,
        "role"@,
        "roleSlots"@,
        "avg"@,
        "max"@,
        "min"@,
        "product"@,
        "diff"@,
        "divide"@,
        "scale"@,
        "offset"@,
        "percentile"@,
        "timeShift"@,
        "movingAverage"@,
        "linearRegression"@,
        "timeLeftForecast"@,
        "group"@,
        "stack"@,
    ]
}

/// No two function forms have the same name, and each name is made of letters.
pub proof fn lemma_keywords_differ()
    ensures
        forall|a: int, b: int|
            0 <= a < b < keywords().len() ==> #[trigger] keywords()[a] != #[trigger] keywords()[b],
        forall|a: int|
            0 <= a < keywords().len() ==> (#[trigger] keywords()[a]).len() > 0 && all_in(
                keywords()[a],
                CharClass::Letter,
            ),
{
    reveal_strlit("host");
    reveal_strlit("service");
    reveal_strlit("role");
    reveal_strlit("roleSlots");
    reveal_strlit("avg");
    reveal_strlit("max");
    reveal_strlit("min");
    reveal_strlit("product");
    reveal_strlit("diff");
    reveal_strlit("divide");
    reveal_strlit("scale");
    reveal_strlit("offset");
    reveal_strlit("percentile");
    reveal_strlit("timeShift");
    reveal_strlit("movingAverage");
    reveal_strlit("linearRegression");
    reveal_strlit("timeLeftForecast");
    reveal_strlit("group");
    reveal_strlit("stack");
    let ks = keywords();
    assert forall|a: int, b: int| 0 <= a < b < ks.len() implies #[trigger] ks[a]
        != #[trigger] ks[b] by {
        if ks[a].len() == ks[b].len() {
            assert(ks[a][0] != ks[b][0] || ks[a][1] != ks[b][1] || ks[a][2] != ks[b][2]);
        }
    }
}

/// The name of each function form is made of letters and selects its rule.
pub proof fn lemma_keyword(m: MetricModel)
    ensures
        name_of(m).len() > 0,
        all_in(name_of(m), CharClass::Letter),
        rule_of_keyword(name_of(m)) == Some(rule_of(m)),
{
    lemma_keywords_differ();
    let ks = keywords();
    assert(ks[0] == "host"@);
    assert(ks[1] == "service"@);
    assert(ks[2] == "role"@);
    assert(ks[3] == "roleSlots"@);
    assert(ks[4] == "avg"@);
    assert(ks[5] == "max"@);
    assert(ks[6] == "min"@);
    assert(ks[7] == "product"@);
    assert(ks[8] == "diff"@);
    assert(ks[9] == "divide"@);
    assert(ks[10] == "scale"@);
    assert(ks[11] == "offset"@);
    assert(ks[12] == "percentile"@);
    assert(ks[13] == "timeShift"@);
    assert(ks[14] == "movingAverage"@);
    assert(ks[15] == "linearRegression"@);
    assert(ks[16] == "timeLeftForecast"@);
    assert(ks[17] == "group"@);
    assert(ks[18] == "stack"@);
}

/// The text of a metric starts with the name of its form.
pub proof fn lemma_body_starts(m: MetricModel, depth: int, indent: nat)
    ensures
        render_body(m, depth, indent).len() > 0,
        !is_space(render_body(m, depth, indent)[0]),
{
    lemma_keyword(m);
    let name = name_of(m);
    assert(in_class(CharClass::Letter, name[0]));
    let body = render_body(m, depth, indent);
    assert(body.len() > 0 && body[0] == name[0]);
}

} // verus!
