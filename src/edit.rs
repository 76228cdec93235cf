use vstd::prelude::*;
use crate::cyclic::CyclicDriver;
use crate::tokenize::Span;
use crate::utf8::{code_points, is_utf8};

verus! {

pub open spec fn min3(x: nat, y: nat, z: nat) -> nat {
    if x <= y && x <= z {
        x
    } else if y <= z {
        y
    } else {
        z
    }
}

/// Levenshtein distance: the least number of single-element insertions,
/// deletions and substitutions that turn `a` into `b`.
pub open spec fn levenshtein<T>(a: Seq<T>, b: Seq<T>) -> nat
    decreases a.len() + b.len(),
{
    if a.len() == 0 {
        b.len()
    } else if b.len() == 0 {
        a.len()
    } else {
        min3(
            levenshtein(a.drop_last(), b) + 1,
            levenshtein(a, b.drop_last()) + 1,
            levenshtein(a.drop_last(), b.drop_last()) + if a.last() == b.last() {
                0nat
            } else {
                1nat
            },
        )
    }
}

/// Levenshtein distance over the characters that two well-formed UTF-8 byte
/// strings encode.
pub open spec fn char_levenshtein(a: Seq<u8>, b: Seq<u8>) -> nat {
    levenshtein(code_points(a), code_points(b))
}

/// A distance as a bounded stringzilla routine reports it: exact within the
/// bound, the bound itself beyond it, and exact always where the bound is 0.
pub open spec fn capped(d: nat, bound: usize) -> nat {
    if bound == 0 || d <= bound {
        d
    } else {
        bound as nat
    }
}

/// A distance as rapidfuzz reports it under a cutoff: present only within it.
pub open spec fn within_cutoff(d: nat, cutoff: usize) -> Option<usize> {
    if d <= cutoff {
        Some(d as usize)
    } else {
        None
    }
}

/// Relies on stringzilla::sz::edit_distance_bounded: the byte-level
/// Levenshtein distance, or `bound` where it is exceeded; 0 sets no bound.
/// Where its working memory cannot be allocated it reports `usize::MAX`.
#[verifier::external_body]
fn sz_bytes_distance(a: &[u8], b: &[u8], bound: usize) -> (r: usize)
    ensures
        r == capped(levenshtein(a@, b@), bound) || r == usize::MAX,
{
    stringzilla::sz::edit_distance_bounded(a, b, bound)
}

/// Relies on stringzilla::sz::edit_distance_utf8_bounded: the distance over
/// characters, or `bound` where it is exceeded; 0 sets no bound. Where its
/// working memory cannot be allocated it reports `usize::MAX`. Its decoder does
/// not guard against malformed input, so the bytes must be well-formed UTF-8.
#[verifier::external_body]
fn sz_utf8_distance(a: &[u8], b: &[u8], bound: usize) -> (r: usize)
    requires
        is_utf8(a@),
        is_utf8(b@),
    ensures
        r == capped(char_levenshtein(a@, b@), bound) || r == usize::MAX,
{
    stringzilla::sz::edit_distance_utf8_bounded(a, b, bound)
}

/// Relies on rapidfuzz::distance::levenshtein::distance over bytes.
#[verifier::external_body]
fn rf_bytes_distance(a: &[u8], b: &[u8]) -> (r: usize)
    ensures
        r == levenshtein(a@, b@),
{
    rapidfuzz::distance::levenshtein::distance(a.iter().copied(), b.iter().copied())
}

/// Relies on rapidfuzz::distance::levenshtein::distance_with_args over bytes
/// with a score cutoff: the distance where it is within the cutoff.
#[verifier::external_body]
fn rf_bytes_distance_cutoff(a: &[u8], b: &[u8], cutoff: usize) -> (r: Option<usize>)
    ensures
        r == within_cutoff(levenshtein(a@, b@), cutoff),
{
    let args = rapidfuzz::distance::levenshtein::Args::default().score_cutoff(cutoff);
    rapidfuzz::distance::levenshtein::distance_with_args(a.iter().copied(), b.iter().copied(), &args)
}

/// Relies on rapidfuzz::distance::levenshtein::distance over the characters
/// of well-formed UTF-8 bytes (std::str::from_utf8 only changes their type).
#[verifier::external_body]
fn rf_chars_distance(a: &[u8], b: &[u8]) -> (r: usize)
    requires
        is_utf8(a@),
        is_utf8(b@),
    ensures
        r == char_levenshtein(a@, b@),
{
    let a = std::str::from_utf8(a).unwrap_or_default();
    let b = std::str::from_utf8(b).unwrap_or_default();
    rapidfuzz::distance::levenshtein::distance(a.chars(), b.chars())
}

/// Relies on rapidfuzz::distance::levenshtein::distance_with_args over the
/// characters of well-formed UTF-8 bytes, with a score cutoff
/// (std::str::from_utf8 only changes their type).
#[verifier::external_body]
fn rf_chars_distance_cutoff(a: &[u8], b: &[u8], cutoff: usize) -> (r: Option<usize>)
    requires
        is_utf8(a@),
        is_utf8(b@),
    ensures
        r == within_cutoff(char_levenshtein(a@, b@), cutoff),
{
    let a = std::str::from_utf8(a).unwrap_or_default();
    let b = std::str::from_utf8(b).unwrap_or_default();
    let args = rapidfuzz::distance::levenshtein::Args::default().score_cutoff(cutoff);
    rapidfuzz::distance::levenshtein::distance_with_args(a.chars(), b.chars(), &args)
}

/// The edit-distance routines that are compared: library, unit of edit
/// (byte or character), and whether the pair's bound is handed over.
#[derive(Clone, Copy, Debug, PartialEq, Eq, Structural)]
pub enum EditCandidate {
    StringzillaBytes,
    StringzillaBytesBounded,
    StringzillaUtf8,
    StringzillaUtf8Bounded,
    RapidfuzzBytes,
    RapidfuzzBytesBounded,
    RapidfuzzChars,
    RapidfuzzCharsBounded,
}

impl EditCandidate {
    pub open spec fn is_stringzilla(self) -> bool {
        self is StringzillaBytes || self is StringzillaBytesBounded || self is StringzillaUtf8
            || self is StringzillaUtf8Bounded
    }

    /// Whether the routine works on characters, and so needs well-formed UTF-8.
    pub open spec fn on_chars(self) -> bool {
        self is StringzillaUtf8 || self is StringzillaUtf8Bounded || self is RapidfuzzChars
            || self is RapidfuzzCharsBounded
    }
}

/// What a routine reports for a pair and its bound; `None` only where a
/// rapidfuzz cutoff is exceeded. (A stringzilla routine that cannot allocate
/// its working memory reports `usize::MAX` instead.)
pub open spec fn edit_outcome(c: EditCandidate, a: Seq<u8>, b: Seq<u8>, bound: usize) -> Option<
    usize,
> {
    match c {
        EditCandidate::StringzillaBytes => Some(levenshtein(a, b) as usize),
        EditCandidate::StringzillaBytesBounded => Some(capped(levenshtein(a, b), bound) as usize),
        EditCandidate::StringzillaUtf8 => Some(char_levenshtein(a, b) as usize),
        EditCandidate::StringzillaUtf8Bounded => Some(
            capped(char_levenshtein(a, b), bound) as usize,
        ),
        EditCandidate::RapidfuzzBytes => Some(levenshtein(a, b) as usize),
        EditCandidate::RapidfuzzBytesBounded => within_cutoff(levenshtein(a, b), bound),
        EditCandidate::RapidfuzzChars => Some(char_levenshtein(a, b) as usize),
        EditCandidate::RapidfuzzCharsBounded => within_cutoff(char_levenshtein(a, b), bound),
    }
}

/// Runs one edit-distance routine on a pair; unbounded routines ignore `bound`.
pub fn run_edit(c: EditCandidate, a: &[u8], b: &[u8], bound: usize) -> (r: Option<usize>)
    requires
        c.on_chars() ==> is_utf8(a@) && is_utf8(b@),
    ensures
        r == edit_outcome(c, a@, b@, bound) || (c.is_stringzilla() && r == Some(usize::MAX)),
{
    match c {
        EditCandidate::StringzillaBytes => Some(sz_bytes_distance(a, b, 0)),
        EditCandidate::StringzillaBytesBounded => Some(sz_bytes_distance(a, b, bound)),
        EditCandidate::StringzillaUtf8 => Some(sz_utf8_distance(a, b, 0)),
        EditCandidate::StringzillaUtf8Bounded => Some(sz_utf8_distance(a, b, bound)),
        EditCandidate::RapidfuzzBytes => Some(rf_bytes_distance(a, b)),
        EditCandidate::RapidfuzzBytesBounded => rf_bytes_distance_cutoff(a, b, bound),
        EditCandidate::RapidfuzzChars => Some(rf_chars_distance(a, b)),
        EditCandidate::RapidfuzzCharsBounded => rf_chars_distance_cutoff(a, b, bound),
    }
}

/// The bytes of a unit.
pub open spec fn unit_bytes(data: Seq<u8>, s: Span) -> Seq<u8> {
    data.subrange(s.start as int, s.end as int)
}

/// One measured step of an edit-distance group: takes the pair and bound at
/// the driver's position, runs the routine on them, and moves the driver on.
pub fn edit_step(
    c: EditCandidate,
    data: &[u8],
    pairs: &Vec<(Span, Span)>,
    bounds: &Vec<usize>,
    driver: &mut CyclicDriver,
) -> (r: Option<usize>)
    requires
        old(driver).wf(),
        pairs@.len() == old(driver).len,
        bounds@.len() == old(driver).len,
        forall|k: int|
            0 <= k < pairs@.len() ==> {
                let (a, b) = #[trigger] pairs@[k];
                &&& a.start <= a.end <= data@.len()
                &&& b.start <= b.end <= data@.len()
                &&& c.on_chars() ==> is_utf8(unit_bytes(data@, a)) && is_utf8(unit_bytes(data@, b))
            },
    ensures
        ({
            let k = old(driver).position as int;
            r == edit_outcome(
                c,
                unit_bytes(data@, pairs@[k].0),
                unit_bytes(data@, pairs@[k].1),
                bounds@[k],
            ) || (c.is_stringzilla() && r == Some(usize::MAX))
        }),
        final(driver).wf(),
        final(driver).len == old(driver).len,
        final(driver).position == crate::cyclic::cycle_step(
            old(driver).len as int,
            old(driver).position as int,
        ),
{
    let k = driver.next_index();
    let (a, b) = pairs[k];
    let a_bytes = vstd::slice::slice_subrange(data, a.start, a.end);
    let b_bytes = vstd::slice::slice_subrange(data, b.start, b.end);
    run_edit(c, a_bytes, b_bytes, bounds[k])
}

} // verus!
