//! The laws of the library: what holds of parsing and printing together.

use crate::parse_spec;
use crate::canon::canonical;
use crate::error::ParseError;
use crate::forms::lemma_punctuation;
use crate::keywords::lemma_body_starts;
use crate::lex::is_space;
use crate::metric::MetricModel;
use crate::nesting::lemma_parsed_depth;
use crate::printer::{name_of, pretty, render, render_body};
use crate::quoting::{
    first_name, lemma_reads_spaced_text, second_name, writable, written, Gaps, Quoting,
};
use crate::roundtrip::{
    child_of, lemma_builds_metric, lemma_canonical_is_well_formed, lemma_reads_text,
};
use crate::trimming::{
    lemma_reads_spaced_role_text, metric_of, role_of, role_writable, role_written, service_of,
    RoleGaps,
};
use vstd::prelude::*;

verus! {

/// Round trip: a canonical metric has no empty group, so it has a
/// canonical text, and parsing that text gives the metric back.
pub proof fn law_round_trip(m: MetricModel)
    requires
        canonical(m),
    ensures
        m.well_formed(),
        parse_spec(pretty(m)) == Ok::<_, ParseError>(m),
{
    lemma_canonical_is_well_formed(m);
    lemma_reads_text(m, m.depth() as int, 0);
    lemma_builds_metric(m);
}

/// Layout carries no meaning: the text of a canonical metric denotes the
/// metric at whatever depth and indentation it was laid out.
pub proof fn law_layout_is_insignificant(m: MetricModel, depth: int, indent: nat)
    requires
        canonical(m),
    ensures
        parse_spec(render(m, depth, indent)) == Ok::<_, ParseError>(m),
{
    lemma_reads_text(m, depth, indent);
    lemma_builds_metric(m);
}

/// Rendering is idempotent: the canonical text of what the canonical text of
/// a canonical metric denotes is that same text.
pub proof fn law_rendering_is_idempotent(m: MetricModel)
    requires
        canonical(m),
    ensures
        parse_spec(pretty(m)) matches Ok(again) && pretty(again) == pretty(m),
{
    law_round_trip(m);
}

/// Quoting and whitespace of a leaf carry no meaning: a `host` or `service`
/// form denotes the metric of its two names, however each name is written
/// and whatever whitespace stands around the tokens.
pub proof fn law_quoting_is_normalized(
    m: MetricModel,
    first: Quoting,
    second: Quoting,
    gaps: Gaps,
)
    requires
        m is Host || m is Service,
        writable(first, first_name(m)),
        writable(second, second_name(m)),
        gaps.blank(),
    ensures
        parse_spec(
            gaps.text(
                name_of(m),
                written(first, first_name(m)),
                written(second, second_name(m)),
            ),
        ) == Ok::<_, ParseError>(m),
{
    lemma_reads_spaced_text(m, first, second, gaps);
}

/// The components of a role identifier are trimmed: a `role` or `roleSlots`
/// form denotes the metric of its service, role and metric name, whether the
/// role identifier is written bare or in quotes with whitespace around its
/// components, and whatever whitespace stands around the tokens.
pub proof fn law_role_is_trimmed(
    m: MetricModel,
    first: Quoting,
    pads: RoleGaps,
    second: Quoting,
    gaps: Gaps,
)
    requires
        m is Role || m is RoleSlot,
        role_writable(first, service_of(m)),
        role_writable(first, role_of(m)),
        pads.blank(),
        writable(second, metric_of(m)),
        gaps.blank(),
    ensures
        parse_spec(
            gaps.text(
                name_of(m),
                role_written(first, service_of(m), role_of(m), pads),
                written(second, metric_of(m)),
            ),
        ) == Ok::<_, ParseError>(m),
{
    lemma_reads_spaced_role_text(m, first, pads, second, gaps);
}

/// The canonical text tells canonical metrics apart: two of them with the
/// same text are the same metric.
pub proof fn law_rendering_is_injective(a: MetricModel, b: MetricModel)
    requires
        canonical(a),
        canonical(b),
        pretty(a) == pretty(b),
    ensures
        a == b,
{
    law_round_trip(a);
    law_round_trip(b);
}

/// Whether the text `t` of a form with a name of `n` characters goes on
/// with a new line behind its `(`.
pub open spec fn breaks_after_open(t: Seq<char>, n: int) -> bool {
    n + 1 < t.len() && t[n] == '(' && t[n + 1] == '\n'
}

/// Whether the text `t` of a form with a name of `n` characters goes on
/// with its first argument right behind its `(`.
pub open spec fn stays_after_open(t: Seq<char>, n: int) -> bool {
    n + 1 < t.len() && t[n] == '(' && !is_space(t[n + 1])
}

/// Forms with two nested metrics, the forecast form and groups are written
/// over several lines at every depth.
pub proof fn law_block_forms_break_lines(m: MetricModel, depth: int, indent: nat)
    requires
        m is Diff || m is Divide || m is TimeLeftForecast || m is Group,
    ensures
        breaks_after_open(render_body(m, depth, indent), name_of(m).len() as int),
{
    lemma_punctuation();
    let t = render_body(m, depth, indent);
    let n = name_of(m).len() as int;
    let head = name_of(m) + "(\n"@;
    assert(head[n] == '(' && head[n + 1] == '\n');
    assert(t.len() >= head.len() && t[n] == head[n] && t[n + 1] == head[n + 1]);
}

/// Forms with one nested metric, with or without a parameter, are written
/// on one line up to the depth 2 and over several lines beyond it.
pub proof fn law_depth_decides_layout(m: MetricModel, depth: int, indent: nat)
    requires
        m is Avg || m is Max || m is Min || m is Product || m is Stack || m is Scale
            || m is Offset || m is Percentile || m is TimeShift || m is MovingAverage
            || m is LinearRegression,
    ensures
        depth <= 2 ==> stays_after_open(render_body(m, depth, indent), name_of(m).len() as int),
        depth > 2 ==> breaks_after_open(render_body(m, depth, indent), name_of(m).len() as int),
{
    lemma_punctuation();
    let t = render_body(m, depth, indent);
    let n = name_of(m).len() as int;
    let c = child_of(m);
    if depth <= 2 {
        let body = render_body(c, depth - 1, 0);
        lemma_body_starts(c, depth - 1, 0);
        assert(render(c, depth - 1, 0) =~= body);
        let head = name_of(m) + "("@ + body;
        assert(head[n] == '(' && head[n + 1] == body[0]);
        assert(t.len() >= head.len() && t[n] == head[n] && t[n + 1] == head[n + 1]);
    } else {
        let head = name_of(m) + "(\n"@;
        assert(head[n] == '(' && head[n + 1] == '\n');
        assert(t.len() >= head.len() && t[n] == head[n] && t[n + 1] == head[n + 1]);
    }
}

/// Whatever a text denotes can be printed: it has no empty group, and the
/// text holds at least two characters for each level of it.
pub proof fn law_parsed_is_printable(s: Seq<char>)
    ensures
        parse_spec(s) matches Ok(m) ==> m.well_formed() && 2 * m.depth() <= s.len(),
{
    lemma_parsed_depth(s);
}

} // verus!
