//! Error taxonomy of the resolution core.

use vstd::prelude::*;

verus! {

/// Failure of graph construction or status resolution.
///
/// Upstream query failures are not represented here: the enrichment fan-out
/// tolerates them per entity, and the dashboard aggregator propagates the
/// caller's own error type unchanged.
#[derive(Clone, Copy, Debug, PartialEq, Eq, Structural)]
pub enum Error {
    /// The product tree names a product that it does not define, or defines
    /// one product twice.
    MalformedInput,
}

impl Error {
    /// Short description of the error.
    pub fn message(&self) -> (r: &'static str)
        ensures
            r@ == "malformed product tree"@,
    {
        "malformed product tree"
    }
}

} // verus!
