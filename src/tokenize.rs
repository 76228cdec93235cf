use vstd::prelude::*;
use crate::config::{ConfigError, Mode};
use crate::utf8::{is_utf8, is_utf8_from, lemma_between_is_utf8, lemma_walk_to, utf8_width};

verus! {

/// A unit: the bytes `start..end` of the dataset it was cut from.
#[derive(Clone, Copy, Debug, PartialEq, Eq, Structural)]
pub struct Span {
    pub start: usize,
    pub end: usize,
}

impl Span {
    pub open spec fn model(self) -> (int, int) {
        (self.start as int, self.end as int)
    }

    /// Number of bytes in the unit.
    pub fn len(&self) -> (r: usize)
        requires
            self.start <= self.end,
        ensures
            r == self.end - self.start,
    {
        self.end - self.start
    }
}

/// The spans as pairs of integer bounds.
pub open spec fn spans_model(v: Seq<Span>) -> Seq<(int, int)> {
    v.map_values(|s: Span| s.model())
}

/// Width in bytes of the whitespace character that starts at `i`, or 0. Covers
/// every Unicode white-space character in its UTF-8 form.
pub open spec fn ws_width(d: Seq<u8>, i: int) -> int {
    let b = d[i];
    if b == 0x20 || (0x09 <= b && b <= 0x0d) {
        1
    } else if i + 1 < d.len() && b == 0xc2 && (d[i + 1] == 0x85 || d[i + 1] == 0xa0) {
        2
    } else if i + 2 < d.len() && b == 0xe1 && d[i + 1] == 0x9a && d[i + 2] == 0x80 {
        3
    } else if i + 2 < d.len() && b == 0xe2 && d[i + 1] == 0x80 && ((0x80 <= d[i + 2] && d[i
        + 2] <= 0x8a) || d[i + 2] == 0xa8 || d[i + 2] == 0xa9 || d[i + 2] == 0xaf) {
        3
    } else if i + 2 < d.len() && b == 0xe2 && d[i + 1] == 0x81 && d[i + 2] == 0x9f {
        3
    } else if i + 2 < d.len() && b == 0xe3 && d[i + 1] == 0x80 && d[i + 2] == 0x80 {
        3
    } else {
        0
    }
}

/// Words of `d` from position `i` on, where the current word began at `s`:
/// maximal runs of non-whitespace bytes, empty runs dropped.
pub open spec fn words_from(d: Seq<u8>, s: int, i: int) -> Seq<(int, int)>
    decreases d.len() - i,
{
    if i >= d.len() {
        if s < d.len() {
            seq![(s, d.len() as int)]
        } else {
            seq![]
        }
    } else if ws_width(d, i) > 0 {
        let next = i + ws_width(d, i);
        (if s < i {
            seq![(s, i)]
        } else {
            seq![]
        }) + words_from(d, next, next)
    } else {
        words_from(d, s, i + 1)
    }
}

/// End of a line that began at `s` and whose newline is at `i`: a carriage
/// return right before the newline is left out.
pub open spec fn line_end(d: Seq<u8>, s: int, i: int) -> int {
    if s < i && d[i - 1] == 0x0d {
        i - 1
    } else {
        i
    }
}

/// Lines of `d` from position `i` on, where the current line began at `s`.
/// A newline ends a line; content after the last newline is a last line; a
/// final newline adds no empty line.
pub open spec fn lines_from(d: Seq<u8>, s: int, i: int) -> Seq<(int, int)>
    decreases d.len() - i,
{
    if i >= d.len() {
        if s < d.len() {
            seq![(s, d.len() as int)]
        } else {
            seq![]
        }
    } else if d[i] == 0x0a {
        seq![(s, line_end(d, s, i))] + lines_from(d, i + 1, i + 1)
    } else {
        lines_from(d, s, i + 1)
    }
}

pub open spec fn words_of(d: Seq<u8>) -> Seq<(int, int)> {
    words_from(d, 0, 0)
}

pub open spec fn lines_of(d: Seq<u8>) -> Seq<(int, int)> {
    lines_from(d, 0, 0)
}

/// The units that a mode cuts from `d`.
pub open spec fn units_of(d: Seq<u8>, mode: Mode) -> Seq<(int, int)> {
    match mode {
        Mode::Lines => lines_of(d),
        Mode::Words => words_of(d),
        Mode::File => seq![(0, d.len() as int)],
    }
}

/// Every span is ordered and lies within `d`.
pub open spec fn spans_within(v: Seq<(int, int)>, len: int) -> bool {
    forall|k: int| 0 <= k < v.len() ==> 0 <= #[trigger] v[k].0 <= v[k].1 <= len
}

/// Width of the whitespace character at `i`, or 0.
pub fn whitespace_width(d: &[u8], i: usize) -> (r: usize)
    requires
        i < d@.len(),
    ensures
        r == ws_width(d@, i as int),
{
    let n = d.len();
    let b = d[i];
    if b == 0x20 || (0x09 <= b && b <= 0x0d) {
        1
    } else if n - i > 1 && b == 0xc2 && (d[i + 1] == 0x85 || d[i + 1] == 0xa0) {
        2
    } else if n - i > 2 && b == 0xe1 && d[i + 1] == 0x9a && d[i + 2] == 0x80 {
        3
    } else if n - i > 2 && b == 0xe2 && d[i + 1] == 0x80 && ((0x80 <= d[i + 2] && d[i + 2]
        <= 0x8a) || d[i + 2] == 0xa8 || d[i + 2] == 0xa9 || d[i + 2] == 0xaf) {
        3
    } else if n - i > 2 && b == 0xe2 && d[i + 1] == 0x81 && d[i + 2] == 0x9f {
        3
    } else if n - i > 2 && b == 0xe3 && d[i + 1] == 0x80 && d[i + 2] == 0x80 {
        3
    } else {
        0
    }
}

proof fn lemma_ws_width_fits(d: Seq<u8>, i: int)
    requires
        0 <= i < d.len(),
    ensures
        0 <= ws_width(d, i) <= 3,
        i + ws_width(d, i) <= d.len(),
{
}

/// Every word lies within the data and holds at least one byte.
proof fn lemma_words_from_shape(d: Seq<u8>, s: int, i: int)
    requires
        0 <= s <= i <= d.len(),
    ensures
        spans_within(words_from(d, s, i), d.len() as int),
        forall|k: int|
            0 <= k < words_from(d, s, i).len() ==> s <= #[trigger] words_from(d, s, i)[k].0
                < words_from(d, s, i)[k].1,
    decreases d.len() - i,
{
    if i >= d.len() {
    } else if ws_width(d, i) > 0 {
        lemma_ws_width_fits(d, i);
        let next = i + ws_width(d, i);
        lemma_words_from_shape(d, next, next);
    } else {
        lemma_words_from_shape(d, s, i + 1);
    }
}

proof fn lemma_lines_from_shape(d: Seq<u8>, s: int, i: int)
    requires
        0 <= s <= i <= d.len(),
    ensures
        spans_within(lines_from(d, s, i), d.len() as int),
        forall|k: int|
            0 <= k < lines_from(d, s, i).len() ==> s <= #[trigger] lines_from(d, s, i)[k].0,
    decreases d.len() - i,
{
    if i >= d.len() {
    } else if d[i] == 0x0a {
        lemma_lines_from_shape(d, i + 1, i + 1);
    } else {
        lemma_lines_from_shape(d, s, i + 1);
    }
}

/// Splits on runs of whitespace and drops empty runs.
pub fn split_words(d: &[u8]) -> (r: Vec<Span>)
    ensures
        spans_model(r@) == words_of(d@),
{
    let n = d.len();
    let mut out: Vec<Span> = Vec::new();
    let mut s: usize = 0;
    let mut i: usize = 0;
    while i < n
        invariant
            n == d@.len(),
            s <= i <= n,
            words_of(d@) == spans_model(out@) + words_from(d@, s as int, i as int),
        decreases n - i,
    {
        let w = whitespace_width(d, i);
        if w > 0 {
            proof {
                lemma_ws_width_fits(d@, i as int);
            }
            let ghost piece: Seq<(int, int)> = if s < i {
                seq![(s as int, i as int)]
            } else {
                seq![]
            };
            let ghost before = spans_model(out@);
            let ghost rest = words_from(d@, (i + w) as int, (i + w) as int);
            assert(words_from(d@, s as int, i as int) == piece + rest);
            if s < i {
                out.push(Span { start: s, end: i });
            }
            assert(spans_model(out@) =~= before + piece);
            assert(words_of(d@) =~= spans_model(out@) + rest);
            i = i + w;
            s = i;
        } else {
            i = i + 1;
        }
    }
    if s < n {
        out.push(Span { start: s, end: n });
    }
    assert(spans_model(out@) =~= words_of(d@));
    out
}

/// Splits at newlines; a carriage return before a newline is not part of the
/// line, and a final newline adds no empty line.
pub fn split_lines(d: &[u8]) -> (r: Vec<Span>)
    ensures
        spans_model(r@) == lines_of(d@),
{
    let n = d.len();
    let mut out: Vec<Span> = Vec::new();
    let mut s: usize = 0;
    let mut i: usize = 0;
    while i < n
        invariant
            n == d@.len(),
            s <= i <= n,
            lines_of(d@) == spans_model(out@) + lines_from(d@, s as int, i as int),
        decreases n - i,
    {
        if d[i] == 0x0a {
            let e: usize = if s < i && d[i - 1] == 0x0d {
                i - 1
            } else {
                i
            };
            let ghost before = spans_model(out@);
            let ghost rest = lines_from(d@, (i + 1) as int, (i + 1) as int);
            assert(lines_from(d@, s as int, i as int) == seq![(s as int, e as int)] + rest);
            out.push(Span { start: s, end: e });
            assert(spans_model(out@) =~= before + seq![(s as int, e as int)]);
            assert(lines_of(d@) =~= spans_model(out@) + rest);
            i = i + 1;
            s = i;
        } else {
            i = i + 1;
        }
    }
    if s < n {
        out.push(Span { start: s, end: n });
    }
    assert(spans_model(out@) =~= lines_of(d@));
    out
}

/// Cuts `d` into units by `mode`. A dataset that yields no unit is refused.
pub fn tokenize(d: &[u8], mode: Mode) -> (r: Result<Vec<Span>, ConfigError>)
    ensures
        units_of(d@, mode).len() > 0 ==> (r matches Ok(v) && spans_model(v@) == units_of(
            d@,
            mode,
        )),
        units_of(d@, mode).len() == 0 ==> (r matches Err(ConfigError::NoUnits)),
        r matches Ok(v) ==> spans_within(spans_model(v@), d@.len() as int),
{
    proof {
        lemma_units_within(d@, mode);
    }
    let units = match mode {
        Mode::Lines => split_lines(d),
        Mode::Words => split_words(d),
        Mode::File => {
            let v = vec![Span { start: 0, end: d.len() }];
            assert(spans_model(v@) =~= units_of(d@, mode));
            v
        },
    };
    if units.len() == 0 {
        Err(ConfigError::NoUnits)
    } else {
        Ok(units)
    }
}

/// Units of every mode lie within the data.
pub proof fn lemma_units_within(d: Seq<u8>, mode: Mode)
    ensures
        spans_within(units_of(d, mode), d.len() as int),
{
    lemma_words_from_shape(d, 0, 0);
    lemma_lines_from_shape(d, 0, 0);
}

/// No word is empty: runs between adjacent separators are dropped.
pub proof fn lemma_words_nonempty(d: Seq<u8>)
    ensures
        forall|k: int| 0 <= k < words_of(d).len() ==> #[trigger] words_of(d)[k].0 < words_of(d)[k].1,
{
    lemma_words_from_shape(d, 0, 0);
}

/// Number of newline bytes in `d` from position `i` on.
pub open spec fn newlines_from(d: Seq<u8>, i: int) -> nat
    decreases d.len() - i,
{
    if i >= d.len() {
        0
    } else {
        (if d[i] == 0x0a {
            1nat
        } else {
            0nat
        }) + newlines_from(d, i + 1)
    }
}

/// Whether `d` ends in content that no newline terminates.
pub open spec fn has_open_last_line(d: Seq<u8>) -> bool {
    d.len() > 0 && d.last() != 0x0a
}

proof fn lemma_lines_from_count(d: Seq<u8>, s: int, i: int)
    requires
        0 <= s <= i <= d.len(),
        forall|k: int| s <= k < i ==> d[k] != 0x0a,
        s == 0 || d[s - 1] == 0x0a,
    ensures
        lines_from(d, s, i).len() == newlines_from(d, i) + if has_open_last_line(d) {
            1nat
        } else {
            0nat
        },
    decreases d.len() - i,
{
    if i >= d.len() {
        if s < d.len() {
            assert(d[d.len() - 1] != 0x0a);
        }
    } else if d[i] == 0x0a {
        lemma_lines_from_count(d, i + 1, i + 1);
    } else {
        lemma_lines_from_count(d, s, i + 1);
    }
}

/// Line count: one unit per newline, plus one for content after the last
/// newline. So data that does not end in a newline has one unit more than it
/// has newlines, and data that does has exactly as many.
pub proof fn lemma_line_count(d: Seq<u8>)
    ensures
        lines_of(d).len() == newlines_from(d, 0) + if has_open_last_line(d) {
            1nat
        } else {
            0nat
        },
        has_open_last_line(d) ==> lines_of(d).len() == newlines_from(d, 0) + 1,
{
    lemma_lines_from_count(d, 0, 0);
}

/// Every span of `v` cuts well-formed UTF-8 out of `d`.
pub open spec fn spans_utf8(d: Seq<u8>, v: Seq<(int, int)>) -> bool {
    forall|k: int| 0 <= k < v.len() ==> is_utf8(#[trigger] d.subrange(v[k].0, v[k].1))
}

proof fn lemma_spans_utf8_concat(d: Seq<u8>, x: Seq<(int, int)>, y: Seq<(int, int)>)
    requires
        spans_utf8(d, x),
        spans_utf8(d, y),
    ensures
        spans_utf8(d, x + y),
{
    assert forall|k: int| 0 <= k < (x + y).len() implies is_utf8(
        #[trigger] d.subrange((x + y)[k].0, (x + y)[k].1),
    ) by {
        if k < x.len() {
            assert((x + y)[k] == x[k]);
        } else {
            assert((x + y)[k] == y[k - x.len()]);
        }
    }
}

proof fn lemma_lines_from_utf8(d: Seq<u8>, s: int, i: int)
    requires
        0 <= s <= i <= d.len(),
        is_utf8_from(d, s),
    ensures
        spans_utf8(d, lines_from(d, s, i)),
    decreases d.len() - i,
{
    if i >= d.len() {
        if s < d.len() {
            lemma_walk_to(d, s, d.len() as int);
            lemma_between_is_utf8(d, s, d.len() as int);
            assert(lines_from(d, s, i)[0] == (s, d.len() as int));
        }
    } else if d[i] == 0x0a {
        let e = line_end(d, s, i);
        lemma_walk_to(d, s, e);
        lemma_between_is_utf8(d, s, e);
        lemma_walk_to(d, s, i);
        assert(utf8_width(d, i) == 1);
        assert(is_utf8_from(d, i + 1));
        lemma_lines_from_utf8(d, i + 1, i + 1);
        let head = seq![(s, e)];
        assert(head[0] == (s, e));
        lemma_spans_utf8_concat(d, head, lines_from(d, i + 1, i + 1));
    } else {
        lemma_lines_from_utf8(d, s, i + 1);
    }
}

proof fn lemma_words_from_utf8(d: Seq<u8>, s: int, i: int)
    requires
        0 <= s <= i <= d.len(),
        is_utf8_from(d, s),
    ensures
        spans_utf8(d, words_from(d, s, i)),
    decreases d.len() - i,
{
    if i >= d.len() {
        if s < d.len() {
            lemma_walk_to(d, s, d.len() as int);
            lemma_between_is_utf8(d, s, d.len() as int);
            assert(words_from(d, s, i)[0] == (s, d.len() as int));
        }
    } else if ws_width(d, i) > 0 {
        let w = ws_width(d, i);
        lemma_walk_to(d, s, i);
        lemma_between_is_utf8(d, s, i);
        assert(utf8_width(d, i) == w);
        assert(is_utf8_from(d, i + w));
        lemma_ws_width_fits(d, i);
        lemma_words_from_utf8(d, i + w, i + w);
        let head: Seq<(int, int)> = if s < i {
            seq![(s, i)]
        } else {
            seq![]
        };
        if s < i {
            assert(head[0] == (s, i));
        }
        lemma_spans_utf8_concat(d, head, words_from(d, i + w, i + w));
    } else {
        lemma_words_from_utf8(d, s, i + 1);
    }
}

/// Cutting well-formed UTF-8 data in any mode yields well-formed UTF-8 units:
/// every cut falls between characters.
pub proof fn lemma_units_utf8(d: Seq<u8>, mode: Mode)
    requires
        is_utf8(d),
    ensures
        spans_utf8(d, units_of(d, mode)),
{
    lemma_lines_from_utf8(d, 0, 0);
    lemma_words_from_utf8(d, 0, 0);
    if mode == Mode::File {
        assert(d.subrange(0, d.len() as int) =~= d);
        assert(units_of(d, mode)[0] == (0int, d.len() as int));
    }
}

} // verus!
