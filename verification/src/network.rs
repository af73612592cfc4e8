//! The chains the protocol runs on, and where it starts on each.

use vstd::prelude::*;

verus! {

/// The number of blocks between two halvings of the block subsidy.
pub const SUBSIDY_HALVING_INTERVAL: u32 = 210_000;

/// The largest number of bytes that one data push of a script may hold.
pub const MAX_SCRIPT_ELEMENT_SIZE: usize = 520;

/// A chain.
#[derive(Copy, Clone, Debug, PartialEq, Eq, Structural, Hash)]
pub enum Network {
    Bitcoin,
    Testnet,
    Signet,
    Regtest,
}

impl Network {
    /// The number of halvings after which the protocol is active on the chain.
    pub open spec fn activation_halvings(self) -> nat {
        match self {
            Network::Bitcoin => 4,
            Network::Testnet => 12,
            Network::Signet => 0,
            Network::Regtest => 0,
        }
    }

    /// The height of the first block in which runes exist: that of the
    /// halving at which the protocol becomes active.
    pub fn first_rune_height(self) -> (r: u32)
        ensures
            r == SUBSIDY_HALVING_INTERVAL * self.activation_halvings(),
            r <= 2_520_000,
    {
        match self {
            Network::Bitcoin => SUBSIDY_HALVING_INTERVAL * 4,
            Network::Testnet => SUBSIDY_HALVING_INTERVAL * 12,
            Network::Signet => 0,
            Network::Regtest => 0,
        }
    }
}

} // verus!
