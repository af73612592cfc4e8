//! Edicts: the orders in a runestone that move an amount of a rune to an
//! output.

use vstd::prelude::*;
use crate::rune_id::RuneId;

verus! {

/// An order to move `amount` of the rune `id` to the output at place `output`.
/// An amount of zero asks for all that is left; an output equal to the number
/// of outputs asks for every output that can hold runes.
#[derive(Copy, Clone, Debug, PartialEq, Eq, Structural, Hash)]
pub struct Edict {
    pub id: RuneId,
    pub amount: u128,
    pub output: u32,
}

impl Edict {
    /// The edict with these parts, where `output` names an output of a
    /// transaction with `outputs` outputs, or equals `outputs`.
    pub open spec fn of_integers(outputs: nat, id: RuneId, amount: u128, output: u128) -> Option<
        Edict,
    > {
        if output > u32::MAX || output > outputs {
            None
        } else {
            Some(Edict { id, amount, output: output as u32 })
        }
    }

    /// The edict with these parts, for a transaction with `outputs` outputs.
    pub fn from_integers(outputs: usize, id: RuneId, amount: u128, output: u128) -> (r: Option<
        Edict,
    >)
        ensures
            r == Edict::of_integers(outputs as nat, id, amount, output),
    {
        if output > u32::MAX as u128 || output > outputs as u128 {
            None
        } else {
            Some(Edict { id, amount, output: output as u32 })
        }
    }
}

} // verus!
