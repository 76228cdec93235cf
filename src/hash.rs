use vstd::prelude::*;
use crate::cyclic::CyclicDriver;
use crate::edit::unit_bytes;
use crate::tokenize::Span;

verus! {

/// The seeded hasher factory of ahash, carried through unopened.
#[verifier::external_type_specification]
#[verifier::external_body]
pub struct ExRandomState(ahash::RandomState);

/// What xxhash-rust's 64-bit XXH3 gives for a byte string (seed 0).
pub uninterp spec fn xxh3_of(b: Seq<u8>) -> u64;

/// Relies on xxhash_rust::xxh3::xxh3_64: a function of the bytes alone.
#[verifier::external_body]
fn xxh3(b: &[u8]) -> (r: u64)
    ensures
        r == xxh3_of(b@),
{
    xxhash_rust::xxh3::xxh3_64(b)
}

/// Relies on ahash: a hasher built from `state`, fed the bytes, then finished.
/// The seeds of `state` differ from process to process, so nothing is stated
/// of the result.
#[verifier::external_body]
fn ahash_bytes(state: &ahash::RandomState, b: &[u8]) -> (r: u64) {
    let mut h = std::hash::BuildHasher::build_hasher(state);
    std::hash::Hasher::write(&mut h, b);
    std::hash::Hasher::finish(&h)
}

/// The hashing routines that are compared. stringzilla's checksum and hash
/// are not among them: the stringzilla release this crate builds on (3.12)
/// offers neither in its Rust interface.
#[derive(Clone, Copy, Debug, PartialEq, Eq, Structural)]
pub enum HashCandidate {
    AHash,
    Xxh3,
}

/// Runs one hashing routine on a unit. XXH3 is a function of the bytes; aHash
/// depends on the seeds in `state`.
pub fn run_hash(c: HashCandidate, state: &ahash::RandomState, b: &[u8]) -> (r: u64)
    ensures
        c == HashCandidate::Xxh3 ==> r == xxh3_of(b@),
{
    match c {
        HashCandidate::AHash => ahash_bytes(state, b),
        HashCandidate::Xxh3 => xxh3(b),
    }
}

/// One measured step of a hashing group: hashes the unit at the driver's
/// position and moves the driver on.
pub fn hash_step(
    c: HashCandidate,
    state: &ahash::RandomState,
    data: &[u8],
    units: &Vec<Span>,
    driver: &mut CyclicDriver,
) -> (r: u64)
    requires
        old(driver).wf(),
        units@.len() == old(driver).len,
        forall|k: int|
            0 <= k < units@.len() ==> (#[trigger] units@[k]).start <= units@[k].end
                <= data@.len(),
    ensures
        c == HashCandidate::Xxh3 ==> r == xxh3_of(
            unit_bytes(data@, units@[old(driver).position as int]),
        ),
        final(driver).wf(),
        final(driver).len == old(driver).len,
        final(driver).position == crate::cyclic::cycle_step(
            old(driver).len as int,
            old(driver).position as int,
        ),
{
    let k = driver.next_index();
    let u = units[k];
    run_hash(c, state, vstd::slice::slice_subrange(data, u.start, u.end))
}

} // verus!
