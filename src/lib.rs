//! Workload generation for comparing string-processing routines: tokenizing a
//! dataset into units, pairing units, deriving early-exit bounds, replaying a
//! finite pool cyclically, and accounting for throughput. The routines under
//! comparison (hashing, edit distance, substring search) come from outside
//! crates and are run through one call contract per kind of workload.

pub mod config;
pub mod tokenize;
pub mod pairing;
pub mod cyclic;
pub mod search;
pub mod throughput;
pub mod edit;
pub mod hash;
pub mod utf8;
