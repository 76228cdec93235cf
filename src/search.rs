use vstd::prelude::*;
use crate::cyclic::CyclicDriver;
use crate::edit::unit_bytes;
use crate::tokenize::Span;

verus! {

/// `needle` stands in `haystack` at position `i`.
pub open spec fn occurs_at(haystack: Seq<u8>, needle: Seq<u8>, i: int) -> bool {
    0 <= i && i + needle.len() <= haystack.len() && haystack.subrange(i, i + needle.len())
        == needle
}

/// `r` is the first position of `needle` in `haystack`, or `None` where it
/// does not occur.
pub open spec fn is_first_match(haystack: Seq<u8>, needle: Seq<u8>, r: Option<usize>) -> bool {
    match r {
        Some(i) => occurs_at(haystack, needle, i as int) && forall|j: int|
            0 <= j < i ==> !#[trigger] occurs_at(haystack, needle, j),
        None => forall|j: int| !#[trigger] occurs_at(haystack, needle, j),
    }
}

/// `r` is the last position of `needle` in `haystack`, or `None` where it
/// does not occur.
pub open spec fn is_last_match(haystack: Seq<u8>, needle: Seq<u8>, r: Option<usize>) -> bool {
    match r {
        Some(i) => occurs_at(haystack, needle, i as int) && forall|j: int|
            i < j ==> !#[trigger] occurs_at(haystack, needle, j),
        None => forall|j: int| !#[trigger] occurs_at(haystack, needle, j),
    }
}

/// Relies on memchr::memmem::find: the index of the first occurrence.
#[verifier::external_body]
fn memmem_find(haystack: &[u8], needle: &[u8]) -> (r: Option<usize>)
    ensures
        is_first_match(haystack@, needle@, r),
{
    memchr::memmem::find(haystack, needle)
}

/// Relies on memchr::memmem::rfind: the index of the last occurrence.
#[verifier::external_body]
fn memmem_rfind(haystack: &[u8], needle: &[u8]) -> (r: Option<usize>)
    ensures
        is_last_match(haystack@, needle@, r),
{
    memchr::memmem::rfind(haystack, needle)
}

/// Relies on stringzilla::sz::find: the index of the first occurrence of a
/// non-empty needle.
#[verifier::external_body]
fn sz_find(haystack: &[u8], needle: &[u8]) -> (r: Option<usize>)
    requires
        needle@.len() > 0,
    ensures
        is_first_match(haystack@, needle@, r),
{
    stringzilla::sz::find(haystack, needle)
}

/// Relies on stringzilla::sz::rfind: the index of the last occurrence of a
/// non-empty needle.
#[verifier::external_body]
fn sz_rfind(haystack: &[u8], needle: &[u8]) -> (r: Option<usize>)
    requires
        needle@.len() > 0,
    ensures
        is_last_match(haystack@, needle@, r),
{
    stringzilla::sz::rfind(haystack, needle)
}

/// The substring-search routines that are compared.
#[derive(Clone, Copy, Debug, PartialEq, Eq, Structural)]
pub enum SearchCandidate {
    MemchrFind,
    MemchrRfind,
    StringzillaFind,
    StringzillaRfind,
}

impl SearchCandidate {
    /// Whether the routine looks for the last occurrence rather than the first.
    pub open spec fn is_reverse(self) -> bool {
        self is MemchrRfind || self is StringzillaRfind
    }
}

/// Runs one search routine: the first occurrence for a forward routine, the
/// last for a reverse one.
pub fn run_search(c: SearchCandidate, haystack: &[u8], needle: &[u8]) -> (r: Option<usize>)
    requires
        needle@.len() > 0,
    ensures
        c.is_reverse() ==> is_last_match(haystack@, needle@, r),
        !c.is_reverse() ==> is_first_match(haystack@, needle@, r),
{
    match c {
        SearchCandidate::MemchrFind => memmem_find(haystack, needle),
        SearchCandidate::MemchrRfind => memmem_rfind(haystack, needle),
        SearchCandidate::StringzillaFind => sz_find(haystack, needle),
        SearchCandidate::StringzillaRfind => sz_rfind(haystack, needle),
    }
}

/// One measured step of a search group: looks for the unit at the driver's
/// position (the needle) in the whole dataset (the haystack), and moves the
/// driver on.
pub fn search_step(
    c: SearchCandidate,
    data: &[u8],
    needles: &Vec<Span>,
    driver: &mut CyclicDriver,
) -> (r: Option<usize>)
    requires
        old(driver).wf(),
        needles@.len() == old(driver).len,
        forall|k: int|
            0 <= k < needles@.len() ==> (#[trigger] needles@[k]).start < needles@[k].end
                <= data@.len(),
    ensures
        ({
            let needle = unit_bytes(data@, needles@[old(driver).position as int]);
            &&& c.is_reverse() ==> is_last_match(data@, needle, r)
            &&& !c.is_reverse() ==> is_first_match(data@, needle, r)
        }),
        final(driver).wf(),
        final(driver).len == old(driver).len,
        final(driver).position == crate::cyclic::cycle_step(
            old(driver).len as int,
            old(driver).position as int,
        ),
{
    let k = driver.next_index();
    let u = needles[k];
    run_search(c, data, vstd::slice::slice_subrange(data, u.start, u.end))
}

/// Where a fuzz input is cut into needle and haystack: nowhere for an input of
/// fewer than two bytes, else at `max(first byte, 1) mod length`.
pub open spec fn fuzz_split_of(data: Seq<u8>) -> Option<int> {
    if data.len() < 2 {
        None
    } else {
        let f = if data[0] >= 1 {
            data[0] as int
        } else {
            1
        };
        Some(f % (data.len() as int))
    }
}

/// The cut point of a fuzz input.
pub fn fuzz_split(data: &[u8]) -> (r: Option<usize>)
    ensures
        match r {
            Some(k) => fuzz_split_of(data@) == Some(k as int) && k < data@.len(),
            None => fuzz_split_of(data@) is None,
        },
{
    let n = data.len();
    if n < 2 {
        return None;
    }
    let f: usize = if data[0] >= 1 {
        data[0] as usize
    } else {
        1
    };
    Some(f % n)
}

/// One fuzz case: cuts the input, then searches the haystack (the bytes from
/// the cut on) for the needle (the bytes before it). An input of fewer than
/// two bytes is no case and searches nothing; the result is then `None`.
pub fn fuzz_one(data: &[u8]) -> (r: Option<Option<usize>>)
    ensures
        data@.len() < 2 <==> r is None,
        match (r, fuzz_split_of(data@)) {
            (Some(found), Some(k)) => is_first_match(
                data@.subrange(k, data@.len() as int),
                data@.subrange(0, k),
                found,
            ),
            _ => true,
        },
{
    match fuzz_split(data) {
        None => None,
        Some(k) => {
            let (needle, haystack) = data.split_at(k);
            Some(memmem_find(haystack, needle))
        },
    }
}

} // verus!
