//! Messages of the ve-aterra contract.

use vstd::prelude::*;

verus! {

/// What the ve-aterra contract does with tokens sent to it.
#[derive(Clone, Copy, Debug, PartialEq, Eq, Structural)]
pub enum Cw20HookMsg {
    /// Bond aterra and release ve-aterra.
    BondATerra,
    /// Burn ve-aterra; the sender may claim the aterra after 30 days.
    UnbondVeATerra,
}

} // verus!
