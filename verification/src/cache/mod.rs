//! Local content-addressed task caching.

use vstd::prelude::*;

pub mod entry;
pub mod error;
pub mod glob;
pub mod hash;
pub mod key;
pub mod pattern;
pub mod promises;

verus! {

/// Whether cache entries are read, and whether they are written.
#[derive(Debug, Clone, Copy, PartialEq, Eq, Structural)]
pub enum CacheMode {
    ReadWrite,
    NoCache,
    Force,
}

} // verus!
