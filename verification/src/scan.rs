//! Facts about scanning a text in which a known piece stands at a known offset.

use crate::lex::{all_in, in_class, is_space, run_len, CharClass};
use vstd::prelude::*;

verus! {

/// Whether the piece `x` stands in `s` at the offset `i`.
pub open spec fn occurs(s: Seq<char>, i: int, x: Seq<char>) -> bool {
    &&& 0 <= i
    &&& i + x.len() <= s.len()
    &&& forall|j: int| 0 <= j < x.len() ==> s[i + j] == #[trigger] x[j]
}

/// Whether the run of class `k` stops at the offset `i` of `s`.
pub open spec fn stops(s: Seq<char>, i: int, k: CharClass) -> bool {
    i >= s.len() || !in_class(k, s[i])
}

/// A piece made of two stands where its first part stands, with its
/// second part right behind.
pub proof fn lemma_occurs_concat(s: Seq<char>, i: int, x: Seq<char>, y: Seq<char>)
    ensures
        occurs(s, i, x + y) <==> occurs(s, i, x) && occurs(s, i + x.len(), y),
{
    let z = x + y;
    if occurs(s, i, z) {
        assert forall|j: int| 0 <= j < x.len() implies s[i + j] == #[trigger] x[j] by {
            assert(z[j] == x[j]);
        }
        assert forall|j: int| 0 <= j < y.len() implies s[i + x.len() + j] == #[trigger] y[j] by {
            assert(z[x.len() + j] == y[j]);
        }
    }
    if occurs(s, i, x) && occurs(s, i + x.len(), y) {
        assert forall|j: int| 0 <= j < z.len() implies s[i + j] == #[trigger] z[j] by {
            if j < x.len() {
                assert(z[j] == x[j]);
            } else {
                assert(z[j] == y[j - x.len()]);
                assert(s[i + x.len() + (j - x.len())] == y[j - x.len()]);
            }
        }
    }
}

/// The part of `s` where the piece `x` stands is `x`.
pub proof fn lemma_occurs_subrange(s: Seq<char>, i: int, x: Seq<char>)
    requires
        occurs(s, i, x),
    ensures
        s.subrange(i, i + x.len()) == x,
{
    assert(s.subrange(i, i + x.len()) =~= x);
}

/// A run that starts where a piece of its class stands, and that stops
/// behind the piece, is as long as the piece.
pub proof fn lemma_run_over(s: Seq<char>, i: int, x: Seq<char>, k: CharClass)
    requires
        occurs(s, i, x),
        all_in(x, k),
        stops(s, i + x.len(), k),
    ensures
        run_len(s, i, k) == x.len(),
    decreases x.len(),
{
    if x.len() > 0 {
        assert(s[i + 0] == x[0]);
        let rest = x.subrange(1, x.len() as int);
        assert forall|j: int| 0 <= j < rest.len() implies s[i + 1 + j] == #[trigger] rest[j] by {
            assert(rest[j] == x[j + 1]);
            assert(s[i + (j + 1)] == x[j + 1]);
        }
        assert forall|j: int| 0 <= j < rest.len() implies in_class(k, #[trigger] rest[j]) by {
            assert(rest[j] == x[j + 1]);
        }
        lemma_run_over(s, i + 1, rest, k);
    }
}

/// No whitespace is skipped in front of a character that is none.
pub proof fn lemma_no_gap(s: Seq<char>, i: int)
    requires
        stops(s, i, CharClass::Space),
    ensures
        run_len(s, i, CharClass::Space) == 0,
{
}

/// Whether `g` holds nothing but whitespace.
pub open spec fn blank(g: Seq<char>) -> bool {
    all_in(g, CharClass::Space)
}

/// Where a piece made of two stands, both parts stand.
pub proof fn lemma_peel(s: Seq<char>, i: int, x: Seq<char>, y: Seq<char>)
    requires
        occurs(s, i, x + y),
    ensures
        occurs(s, i, x),
        occurs(s, i + x.len(), y),
        (x + y).len() == x.len() + y.len(),
{
    lemma_occurs_concat(s, i, x, y);
}

/// No whitespace is skipped in front of a piece that starts with something else.
pub proof fn lemma_starts(s: Seq<char>, i: int, x: Seq<char>)
    requires
        occurs(s, i, x),
        x.len() > 0,
        !is_space(x[0]),
    ensures
        stops(s, i, CharClass::Space),
{
    assert(s[i + 0] == x[0]);
}

/// The second of two pieces stands behind the first.
pub proof fn lemma_occurs_after(x: Seq<char>, y: Seq<char>)
    ensures
        occurs(x + y, 0, x),
        occurs(x + y, x.len() as int, y),
{
    let z = x + y;
    assert forall|j: int| 0 <= j < x.len() implies z[0 + j] == #[trigger] x[j] by {}
    assert forall|j: int| 0 <= j < y.len() implies z[x.len() + j] == #[trigger] y[j] by {}
}

} // verus!
