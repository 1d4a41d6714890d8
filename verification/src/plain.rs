//! The plain text form of results.

use vstd::prelude::*;

verus! {

/// Values that have a compact plain text form: the energy performance of a building, its
/// data and balances.
pub trait AsCtePlain {
    /// The value in plain text
    fn to_plain(&self) -> String;
}

} // verus!
