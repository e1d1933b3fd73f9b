use vstd::prelude::*;

use crate::hash::CryptoHash;

verus! {

/// A configuration record that a runtime stores under its own identity, so
/// that several can live in one state.
pub trait RuntimeSystemConfig {
    /// The identity the record is stored under.
    fn id(&self) -> CryptoHash;

    /// A short name for the kind of record.
    fn name(&self) -> String;
}

} // verus!
