use vstd::prelude::*;
use crate::config::{ConfigError, Mode};
use crate::tokenize::{lemma_units_utf8, spans_model, spans_within, tokenize, units_of, Span};
use crate::utf8::is_utf8;

verus! {

/// Number of pairs that `n` units give, capped at `max_pairs` where one is set.
pub open spec fn pair_count(n: int, max_pairs: Option<usize>) -> int {
    match max_pairs {
        None => n / 2,
        Some(m) => if n / 2 <= m {
            n / 2
        } else {
            m as int
        },
    }
}

/// Groups units two by two, in order; an odd last unit is dropped, and only
/// the first `max_pairs` pairs are kept where a cap is set.
pub fn make_pairs(units: &Vec<Span>, max_pairs: Option<usize>) -> (r: Result<
    Vec<(Span, Span)>,
    ConfigError,
>)
    ensures
        units@.len() < 2 <==> (r matches Err(ConfigError::TooFewUnits)),
        units@.len() >= 2 && pair_count(units@.len() as int, max_pairs) == 0 <==> (r matches Err(
            ConfigError::NoPairs,
        )),
        r matches Ok(v) ==> {
            &&& v@.len() == pair_count(units@.len() as int, max_pairs)
            &&& v@.len() > 0
            &&& forall|k: int|
                0 <= k < v@.len() ==> #[trigger] v@[k] == (units@[2 * k], units@[2 * k + 1])
        },
        r is Ok || r matches Err(ConfigError::TooFewUnits) || r matches Err(ConfigError::NoPairs),
{
    let n = units.len();
    if n < 2 {
        return Err(ConfigError::TooFewUnits);
    }
    let mut count = n / 2;
    match max_pairs {
        Some(m) => {
            if count > m {
                count = m;
            }
        },
        None => {},
    }
    if count == 0 {
        return Err(ConfigError::NoPairs);
    }
    let mut pairs: Vec<(Span, Span)> = Vec::new();
    let mut k: usize = 0;
    while k < count
        invariant
            n == units@.len(),
            count <= n / 2,
            k <= count,
            pairs@.len() == k,
            forall|j: int| 0 <= j < k ==> #[trigger] pairs@[j] == (units@[2 * j], units@[2 * j + 1]),
        decreases count - k,
    {
        pairs.push((units[2 * k], units[2 * k + 1]));
        k = k + 1;
    }
    Ok(pairs)
}

/// The early-exit bound of a pair: `percent` percent of the longer unit's
/// byte length, rounded down.
pub open spec fn bound_of(a_len: int, b_len: int, percent: int) -> int {
    let m = if a_len >= b_len {
        a_len
    } else {
        b_len
    };
    m * percent / 100
}

/// The bound of a pair of units with the given byte lengths. Where `percent`
/// exceeds 100 and the bound would not fit, it is capped at `usize::MAX`.
pub fn pair_bound(a_len: usize, b_len: usize, percent: u64) -> (r: usize)
    ensures
        bound_of(a_len as int, b_len as int, percent as int) <= usize::MAX ==> r == bound_of(
            a_len as int,
            b_len as int,
            percent as int,
        ),
        bound_of(a_len as int, b_len as int, percent as int) > usize::MAX ==> r == usize::MAX,
        percent <= 100 ==> r == bound_of(a_len as int, b_len as int, percent as int),
        percent == 0 ==> r == 0,
        percent == 100 ==> r == if a_len >= b_len {
            a_len
        } else {
            b_len
        },
{
    let m: usize = if a_len >= b_len {
        a_len
    } else {
        b_len
    };
    proof {
        lemma_bound_range(m as int, percent as int);
    }
    let prod: u128 = (m as u128) * (percent as u128);
    let q: u128 = prod / 100;
    if q > usize::MAX as u128 {
        usize::MAX
    } else {
        q as usize
    }
}

proof fn lemma_bound_range(m: int, p: int)
    requires
        0 <= m <= usize::MAX,
        0 <= p <= u64::MAX,
    ensures
        m * p <= u128::MAX,
        0 <= m * p / 100,
        p <= 100 ==> m * p / 100 <= m,
        p == 0 ==> m * p / 100 == 0,
        p == 100 ==> m * p / 100 == m,
{
    assert(m * p <= u64::MAX * u64::MAX) by (nonlinear_arith)
        requires
            0 <= m <= u64::MAX,
            0 <= p <= u64::MAX,
    ;
    assert(0 <= m * p) by (nonlinear_arith)
        requires
            0 <= m,
            0 <= p,
    ;
    assert(p <= 100 ==> m * p <= m * 100) by (nonlinear_arith)
        requires
            0 <= m,
    ;
}

/// The bound of each pair, in the order of the pairs.
pub fn pair_bounds(pairs: &Vec<(Span, Span)>, percent: u64) -> (r: Vec<usize>)
    requires
        forall|k: int|
            0 <= k < pairs@.len() ==> (#[trigger] pairs@[k]).0.start <= pairs@[k].0.end
                && pairs@[k].1.start <= pairs@[k].1.end,
    ensures
        r@.len() == pairs@.len(),
        forall|k: int|
            0 <= k < pairs@.len() ==> {
                let a = pairs@[k].0;
                let b = pairs@[k].1;
                let exact = bound_of(a.end - a.start, b.end - b.start, percent as int);
                &&& exact <= usize::MAX ==> #[trigger] r@[k] == exact
                &&& exact > usize::MAX ==> r@[k] == usize::MAX
            },
{
    let mut out: Vec<usize> = Vec::new();
    let mut k: usize = 0;
    while k < pairs.len()
        invariant
            k <= pairs@.len(),
            out@.len() == k,
            forall|j: int|
                0 <= j < pairs@.len() ==> (#[trigger] pairs@[j]).0.start <= pairs@[j].0.end
                    && pairs@[j].1.start <= pairs@[j].1.end,
            forall|j: int|
                0 <= j < k ==> {
                    let a = pairs@[j].0;
                    let b = pairs@[j].1;
                    let exact = bound_of(a.end - a.start, b.end - b.start, percent as int);
                    &&& exact <= usize::MAX ==> #[trigger] out@[j] == exact
                    &&& exact > usize::MAX ==> out@[j] == usize::MAX
                },
        decreases pairs@.len() - k,
    {
        let (a, b) = pairs[k];
        out.push(pair_bound(a.len(), b.len(), percent));
        k = k + 1;
    }
    out
}

/// The pool of an edit-distance group: the dataset cut by `mode`, paired
/// (capped at `max_pairs`), and the bound of each pair at `percent`.
pub fn prepare_pairs(data: &[u8], mode: Mode, max_pairs: Option<usize>, percent: u64) -> (r: Result<
    (Vec<(Span, Span)>, Vec<usize>),
    ConfigError,
>)
    ensures
        units_of(data@, mode).len() == 0 <==> (r matches Err(ConfigError::NoUnits)),
        units_of(data@, mode).len() == 1 <==> (r matches Err(ConfigError::TooFewUnits)),
        units_of(data@, mode).len() >= 2 && pair_count(units_of(data@, mode).len() as int, max_pairs)
            == 0 <==> (r matches Err(ConfigError::NoPairs)),
        r matches Ok((pairs, bounds)) ==> {
            let u = units_of(data@, mode);
            &&& pairs@.len() == pair_count(u.len() as int, max_pairs)
            &&& pairs@.len() > 0
            &&& bounds@.len() == pairs@.len()
            &&& forall|k: int|
                0 <= k < pairs@.len() ==> {
                    let (a, b) = #[trigger] pairs@[k];
                    &&& a.model() == u[2 * k]
                    &&& b.model() == u[2 * k + 1]
                    &&& a.start <= a.end <= data@.len()
                    &&& b.start <= b.end <= data@.len()
                    &&& is_utf8(data@) ==> is_utf8(data@.subrange(a.start as int, a.end as int))
                        && is_utf8(data@.subrange(b.start as int, b.end as int))
                    &&& bound_of(a.end - a.start, b.end - b.start, percent as int) <= usize::MAX
                        ==> bounds@[k] == bound_of(a.end - a.start, b.end - b.start, percent as int)
                    &&& bound_of(a.end - a.start, b.end - b.start, percent as int) > usize::MAX
                        ==> bounds@[k] == usize::MAX
                    &&& percent <= 100 ==> bounds@[k] == bound_of(
                        a.end - a.start,
                        b.end - b.start,
                        percent as int,
                    )
                }
        },
        r is Ok || r matches Err(ConfigError::NoUnits) || r matches Err(ConfigError::TooFewUnits)
            || r matches Err(ConfigError::NoPairs),
{
    let units = match tokenize(data, mode) {
        Ok(u) => u,
        Err(e) => {
            return Err(e);
        },
    };
    let ghost u = units_of(data@, mode);
    assert(forall|k: int| 0 <= k < units@.len() ==> #[trigger] units@[k].model() == u[k]);
    let pairs = match make_pairs(&units, max_pairs) {
        Ok(p) => p,
        Err(e) => {
            return Err(e);
        },
    };
    assert forall|k: int| 0 <= k < pairs@.len() implies {
        let (a, b) = #[trigger] pairs@[k];
        a.start <= a.end <= data@.len() && b.start <= b.end <= data@.len()
    } by {
        assert(pairs@[k] == (units@[2 * k], units@[2 * k + 1]));
        assert(2 * k + 1 < units@.len());
        assert(spans_model(units@)[2 * k] == units@[2 * k].model());
        assert(spans_model(units@)[2 * k + 1] == units@[2 * k + 1].model());
        let x = spans_model(units@)[2 * k];
        let y = spans_model(units@)[2 * k + 1];
        assert(0 <= x.0 <= x.1 <= data@.len());
        assert(0 <= y.0 <= y.1 <= data@.len());
    }
    let bounds = pair_bounds(&pairs, percent);
    proof {
        assert forall|k: int| 0 <= k < pairs@.len() implies {
            let (a, b) = #[trigger] pairs@[k];
            &&& a.model() == u[2 * k]
            &&& b.model() == u[2 * k + 1]
            &&& is_utf8(data@) ==> is_utf8(data@.subrange(a.start as int, a.end as int))
                && is_utf8(data@.subrange(b.start as int, b.end as int))
            &&& percent <= 100 ==> bounds@[k] == bound_of(
                a.end - a.start,
                b.end - b.start,
                percent as int,
            )
        } by {
            let (a, b) = pairs@[k];
            let la = a.end - a.start;
            let lb = b.end - b.start;
            lemma_bound_range(if la >= lb { la } else { lb }, percent as int);
            if is_utf8(data@) {
                lemma_units_utf8(data@, mode);
                assert(2 * k + 1 < u.len());
                assert(is_utf8(data@.subrange(u[2 * k].0, u[2 * k].1)));
                assert(is_utf8(data@.subrange(u[2 * k + 1].0, u[2 * k + 1].1)));
            }
            assert(pairs@[k] == (units@[2 * k], units@[2 * k + 1]));
            assert(2 * k + 1 < units@.len());
            assert(spans_model(units@)[2 * k] == units@[2 * k].model());
            assert(spans_model(units@)[2 * k + 1] == units@[2 * k + 1].model());
        }
    }
    Ok((pairs, bounds))
}

} // verus!
