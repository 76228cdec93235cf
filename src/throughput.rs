use vstd::prelude::*;
use crate::tokenize::Span;

verus! {

/// Total byte length of the units.
pub open spec fn total_len(v: Seq<Span>) -> int
    decreases v.len(),
{
    if v.len() == 0 {
        0
    } else {
        total_len(v.drop_last()) + (v.last().end - v.last().start)
    }
}

proof fn lemma_total_len_bounded(v: Seq<Span>)
    requires
        forall|k: int| 0 <= k < v.len() ==> (#[trigger] v[k]).start <= v[k].end,
    ensures
        0 <= total_len(v) <= v.len() * (usize::MAX as int),
    decreases v.len(),
{
    if v.len() > 0 {
        let w = v.drop_last();
        assert forall|k: int| 0 <= k < w.len() implies (#[trigger] w[k]).start <= w[k].end by {
            assert(w[k] == v[k]);
        }
        lemma_total_len_bounded(w);
        assert(v.last() == v[v.len() - 1]);
    }
}

/// The byte count that a byte-oriented group reports: the sum of the byte
/// lengths of all units in its pool.
pub fn total_bytes(units: &Vec<Span>) -> (r: u128)
    requires
        forall|k: int| 0 <= k < units@.len() ==> (#[trigger] units@[k]).start <= units@[k].end,
    ensures
        r == total_len(units@),
{
    let mut sum: u128 = 0;
    let mut i: usize = 0;
    while i < units.len()
        invariant
            i <= units@.len(),
            forall|k: int| 0 <= k < units@.len() ==> (#[trigger] units@[k]).start <= units@[k].end,
            sum == total_len(units@.subrange(0, i as int)),
        decreases units@.len() - i,
    {
        let ghost pre = units@.subrange(0, i as int);
        let ghost next = units@.subrange(0, i + 1);
        proof {
            assert(next.drop_last() =~= pre);
            assert(forall|k: int| 0 <= k < next.len() ==> #[trigger] next[k] == units@[k]);
            lemma_total_len_bounded(next);
            assert((i + 1) * (usize::MAX as int) <= u128::MAX) by (nonlinear_arith)
                requires
                    i < usize::MAX,
            ;
        }
        sum = sum + units[i].len() as u128;
        i = i + 1;
    }
    assert(units@.subrange(0, units@.len() as int) =~= units@);
    sum
}

} // verus!
