//! When a rune can be minted.

use vstd::prelude::*;
use vstd::string::StringExecFns;
use crate::decimal::append_decimal;
use crate::decimal::digits;
use crate::db::RuneEntry;
use crate::db::RuneEntryView;

verus! {

/// Why a rune cannot be minted.
#[derive(Copy, Clone, Debug, PartialEq, Eq, Structural)]
pub enum MintError {
    /// All of that many mints were made.
    Cap(u128),
    /// Minting ended with the block at that height.
    End(u64),
    /// Minting starts with the block at that height.
    Start(u64),
    /// The rune has no terms.
    Unmintable,
}

impl MintError {
    /// What the error says, in words.
    pub open spec fn words(self) -> Seq<char> {
        match self {
            MintError::Cap(cap) => "limited to "@ + digits(cap as nat) + " mints"@,
            MintError::End(end) => "mint ended on block "@ + digits(end as nat),
            MintError::Start(start) => "mint starts on block "@ + digits(start as nat),
            MintError::Unmintable => "not mintable"@,
        }
    }

    /// What the error says, in words.
    pub fn to_string(&self) -> (r: String)
        ensures
            r@ == self.words(),
    {
        match self {
            MintError::Cap(cap) => {
                let mut out: String = String::from_str("limited to ");
                append_decimal(&mut out, *cap);
                out.append(" mints");
                out
            },
            MintError::End(end) => {
                let mut out: String = String::from_str("mint ended on block ");
                append_decimal(&mut out, *end as u128);
                out
            },
            MintError::Start(start) => {
                let mut out: String = String::from_str("mint starts on block ");
                append_decimal(&mut out, *start as u128);
                out
            },
            MintError::Unmintable => String::from_str("not mintable"),
        }
    }
}

/// The sum of `a` and `b`, or the largest height where the sum is beyond it.
pub open spec fn capped_sum(a: u64, b: u64) -> u64 {
    if a + b > u64::MAX {
        u64::MAX
    } else {
        (a + b) as u64
    }
}

/// The height that is `offset` blocks after the block of the etching, where
/// there is an offset.
pub open spec fn relative(block_height: u64, offset: Option<u64>) -> Option<u64> {
    match offset {
        Some(o) => Some(capped_sum(block_height, o)),
        None => None,
    }
}

/// The first height at which the rune of `entry` can be minted: the later of
/// the height that its terms give and the height that their offset gives,
/// or the one of the two that is there.
pub open spec fn start_of(entry: RuneEntryView) -> Option<u64> {
    match entry.terms {
        None => None,
        Some(terms) => match (relative(entry.block_height, terms.offset_start), terms.height_start) {
            (Some(r), Some(a)) => Some(
                if r >= a {
                    r
                } else {
                    a
                },
            ),
            (Some(r), None) => Some(r),
            (None, Some(a)) => Some(a),
            (None, None) => None,
        },
    }
}

/// The first height at which the rune of `entry` can no longer be minted: the
/// earlier of the height that its terms give and the height that their
/// offset gives, or the one of the two that is there.
pub open spec fn end_of(entry: RuneEntryView) -> Option<u64> {
    match entry.terms {
        None => None,
        Some(terms) => match (relative(entry.block_height, terms.offset_end), terms.height_end) {
            (Some(r), Some(a)) => Some(
                if r <= a {
                    r
                } else {
                    a
                },
            ),
            (Some(r), None) => Some(r),
            (None, Some(a)) => Some(a),
            (None, None) => None,
        },
    }
}

/// The cap of the mints of `entry`; zero where its terms give none.
pub open spec fn cap_of(entry: RuneEntryView) -> u128 {
    match entry.terms {
        Some(terms) => match terms.cap {
            Some(cap) => cap,
            None => 0,
        },
        None => 0,
    }
}

/// What a mint of the rune of `entry` in the block at `height` gives: the
/// amount of its terms (zero where they give none), or the first of the
/// reasons why it gives nothing: no terms, not yet started, ended, all mints
/// made.
pub open spec fn mint_of(entry: RuneEntryView, height: u64) -> Result<u128, MintError> {
    match entry.terms {
        None => Err(MintError::Unmintable),
        Some(terms) => if start_of(entry) is Some && height < start_of(entry)->Some_0 {
            Err(MintError::Start(start_of(entry)->Some_0))
        } else if end_of(entry) is Some && height >= end_of(entry)->Some_0 {
            Err(MintError::End(end_of(entry)->Some_0))
        } else if entry.mint_count >= cap_of(entry) {
            Err(MintError::Cap(cap_of(entry)))
        } else {
            Ok(
                match terms.amount {
                    Some(amount) => amount,
                    None => 0,
                },
            )
        },
    }
}

/// The first height at which the rune can be minted, where it has one.
pub fn mint_start(rune_entry: &RuneEntry) -> (r: Option<u64>)
    ensures
        r == start_of(rune_entry@),
{
    let terms = match rune_entry.terms {
        Some(terms) => terms,
        None => {
            return None;
        },
    };
    let relative: Option<u64> = match terms.offset_start {
        Some(offset) => Some(rune_entry.block_height.saturating_add(offset)),
        None => None,
    };
    match (relative, terms.height_start) {
        (Some(r), Some(a)) => Some(
            if r >= a {
                r
            } else {
                a
            },
        ),
        (Some(r), None) => Some(r),
        (None, Some(a)) => Some(a),
        (None, None) => None,
    }
}

/// The first height at which the rune can no longer be minted, where it has
/// one.
pub fn mint_end(rune_entry: &RuneEntry) -> (r: Option<u64>)
    ensures
        r == end_of(rune_entry@),
{
    let terms = match rune_entry.terms {
        Some(terms) => terms,
        None => {
            return None;
        },
    };
    let relative: Option<u64> = match terms.offset_end {
        Some(offset) => Some(rune_entry.block_height.saturating_add(offset)),
        None => None,
    };
    match (relative, terms.height_end) {
        (Some(r), Some(a)) => Some(
            if r <= a {
                r
            } else {
                a
            },
        ),
        (Some(r), None) => Some(r),
        (None, Some(a)) => Some(a),
        (None, None) => None,
    }
}

/// What a mint of the rune in the block at `block_height` gives.
pub fn mintable(rune_entry: &RuneEntry, block_height: u64) -> (r: Result<u128, MintError>)
    ensures
        r == mint_of(rune_entry@, block_height),
        r is Ok ==> rune_entry@.mint_count < u128::MAX,
{
    let terms = match rune_entry.terms {
        Some(terms) => terms,
        None => {
            return Err(MintError::Unmintable);
        },
    };
    match mint_start(rune_entry) {
        Some(start) => {
            if block_height < start {
                return Err(MintError::Start(start));
            }
        },
        None => {},
    }
    match mint_end(rune_entry) {
        Some(end) => {
            if block_height >= end {
                return Err(MintError::End(end));
            }
        },
        None => {},
    }
    let cap: u128 = match terms.cap {
        Some(cap) => cap,
        None => 0,
    };
    if rune_entry.mint_count >= cap {
        return Err(MintError::Cap(cap));
    }
    Ok(
        match terms.amount {
            Some(amount) => amount,
            None => 0,
        },
    )
}

} // verus!
