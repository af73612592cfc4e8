//! The bits of the flags field of a runes message.

use vstd::prelude::*;

verus! {

/// A bit of the flags field.
#[derive(Copy, Clone, Debug, PartialEq, Eq, Structural)]
pub enum Flag {
    /// The message creates a rune.
    Etching,
    /// The rune it creates can be minted.
    Terms,
}

impl Flag {
    /// The value of the bit.
    pub open spec fn weight(self) -> u128 {
        match self {
            Flag::Etching => 1,
            Flag::Terms => 2,
        }
    }

    /// Whether the bit is set in `flags`.
    pub open spec fn set_in(self, flags: u128) -> bool {
        (flags / self.weight()) % 2 == 1
    }

    /// The value of the bit.
    pub fn mask(self) -> (r: u128)
        ensures
            r == self.weight(),
    {
        match self {
            Flag::Etching => 1,
            Flag::Terms => 2,
        }
    }

    /// Tells whether the bit is set in `flags`, and clears it.
    pub fn take(self, flags: &mut u128) -> (r: bool)
        ensures
            r == self.set_in(*old(flags)),
            *final(flags) == if r {
                *old(flags) - self.weight()
            } else {
                *old(flags) as int
            },
    {
        let mask: u128 = self.mask();
        let set: bool = (*flags / mask) % 2 == 1;
        if set {
            *flags = *flags - mask;
        }
        set
    }

    /// Sets the bit in `flags`.
    pub fn set(self, flags: &mut u128)
        ensures
            *final(flags) == if self.set_in(*old(flags)) {
                *old(flags) as int
            } else {
                *old(flags) + self.weight()
            },
            self.set_in(*final(flags)),
    {
        let mask: u128 = self.mask();
        if (*flags / mask) % 2 != 1 {
            *flags = *flags + mask;
        }
    }
}

} // verus!
