//! Etchings: what a runestone says of the rune it creates.

use vstd::prelude::*;
use crate::rune::Rune;

verus! {

/// The largest number of decimal places that a rune can have.
pub const MAX_DIVISIBILITY: u8 = 38;

/// The largest mask of spacers that a name can have.
pub const MAX_SPACERS: u32 = 0x0007_FFFF;

/// The terms under which a rune can be minted.
#[derive(Copy, Clone, Debug, PartialEq, Eq)]
pub struct Terms {
    /// The amount of one mint.
    pub amount: Option<u128>,
    /// The number of mints allowed.
    pub cap: Option<u128>,
    /// The first height at which the rune can be minted, and the first at
    /// which it no longer can.
    pub height: (Option<u64>, Option<u64>),
    /// The same two heights, counted from the block of the etching.
    pub offset: (Option<u64>, Option<u64>),
}

/// The creation of a rune.
#[derive(Copy, Clone, Debug, PartialEq, Eq)]
pub struct Etching {
    pub divisibility: Option<u8>,
    pub premine: Option<u128>,
    pub rune: Option<Rune>,
    pub spacers: Option<u32>,
    pub symbol: Option<char>,
    pub terms: Option<Terms>,
}

/// The number that `value` holds, or zero.
pub open spec fn or_zero(value: Option<u128>) -> nat {
    match value {
        Some(v) => v as nat,
        None => 0,
    }
}

/// Whether a premine and `cap` mints of `amount` together leave 128 bits.
pub open spec fn supply_overflows(premine: Option<u128>, cap: Option<u128>, amount: Option<u128>)
    -> bool {
    or_zero(premine) + or_zero(cap) * or_zero(amount) > u128::MAX
}

/// Whether a premine and `cap` mints of `amount` together leave 128 bits.
pub fn supply_overflow(premine: Option<u128>, cap: Option<u128>, amount: Option<u128>) -> (r: bool)
    ensures
        r == supply_overflows(premine, cap, amount),
{
    let p: u128 = match premine {
        Some(v) => v,
        None => 0,
    };
    let c: u128 = match cap {
        Some(v) => v,
        None => 0,
    };
    let a: u128 = match amount {
        Some(v) => v,
        None => 0,
    };
    match c.checked_mul(a) {
        None => true,
        Some(minted) => p.checked_add(minted).is_none(),
    }
}

impl Etching {
    /// The units that exist once every mint is made: the premine and `cap`
    /// times `amount`, where that fits in 128 bits.
    pub open spec fn total(self) -> nat {
        match self.terms {
            Some(terms) => or_zero(self.premine) + or_zero(terms.cap) * or_zero(terms.amount),
            None => or_zero(self.premine),
        }
    }

    /// The units that exist once every mint is made, unless they leave 128
    /// bits.
    pub fn supply(&self) -> (r: Option<u128>)
        ensures
            r == if self.total() <= u128::MAX {
                Some(self.total() as u128)
            } else {
                None
            },
    {
        let premine: u128 = match self.premine {
            Some(v) => v,
            None => 0,
        };
        match self.terms {
            None => Some(premine),
            Some(terms) => {
                let cap: u128 = match terms.cap {
                    Some(v) => v,
                    None => 0,
                };
                let amount: u128 = match terms.amount {
                    Some(v) => v,
                    None => 0,
                };
                match cap.checked_mul(amount) {
                    None => None,
                    Some(minted) => premine.checked_add(minted),
                }
            },
        }
    }
}

} // verus!
