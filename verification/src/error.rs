//! The ways in which indexing or reporting can fail.

use vstd::prelude::*;

verus! {

/// Why a scan or a read of the index was given up.
#[derive(Debug, Clone, Copy, PartialEq, Eq, Structural)]
pub enum IndexError {
    /// The chain source could not be read.
    ChainSource,
    /// The store could not encode, decode or keep a value.
    Store,
    /// The stored matches of a height could not be read back.
    MatchDecode,
}

} // verus!
