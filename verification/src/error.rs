//! The one way in which a query can fail.

use vstd::prelude::*;

verus! {

/// Why a request for several ports could not be met.
#[derive(Debug, Clone, Copy, PartialEq, Eq, Structural)]
pub enum DynaportError {
    /// The whole range was probed and only `got` of the `wanted` ports were
    /// free.
    NotEnoughPorts { wanted: usize, got: usize },
}

} // verus!
