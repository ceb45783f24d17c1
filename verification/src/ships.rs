//! Ship stances in combat.

use vstd::prelude::*;

verus! {

/// How a ship (or garrison) behaves when enemies share its system.
#[derive(Clone, Copy, Debug, PartialEq, Eq, Structural)]
pub enum ShipAttackMode {
    Defend,
    StrikeFirst,
}

} // verus!
