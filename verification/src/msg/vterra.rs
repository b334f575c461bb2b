//! Messages of the vterra contract.

use vstd::prelude::*;

verus! {

/// What the vterra contract does with tokens sent to it.
#[derive(Clone, Copy, Debug, PartialEq, Eq, Structural)]
pub enum Cw20HookMsg {
    /// Bond aterra and release vterra.
    BondATerra,
    /// Burn vterra; the sender may claim the aterra after 30 days.
    UnbondVeATerra,
}

} // verus!
