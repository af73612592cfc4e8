//! Rune identifiers: the block and the place in that block of the transaction
//! that etched the rune.

use vstd::prelude::*;
use vstd::string::StrSliceExecFns;
use crate::decimal::append_decimal;
use crate::decimal::digits;
use crate::decimal::lemma_digits;
use crate::decimal::parse_decimal;
use crate::decimal::parsed;

verus! {

/// The identifier of a rune. `(0, 0)` stands, inside an edict, for the rune
/// that the same transaction etches.
#[derive(Copy, Clone, Debug, PartialEq, Eq, Structural, PartialOrd, Ord, Hash)]
pub struct RuneId {
    pub block: u64,
    pub tx: u32,
}

impl Default for RuneId {
    fn default() -> (r: RuneId)
        ensures
            r == (RuneId { block: 0, tx: 0 }),
    {
        RuneId { block: 0, tx: 0 }
    }
}

impl RuneId {
    /// Whether the pair can identify a rune or is `(0, 0)`: no transaction of
    /// block 0 but the first is named.
    pub open spec fn valid(self) -> bool {
        self.block == 0 ==> self.tx == 0
    }

    /// Whether `self` comes before `other` or equals it, by block and then by
    /// place in the block.
    pub open spec fn at_most(self, other: RuneId) -> bool {
        self.block < other.block || (self.block == other.block && self.tx <= other.tx)
    }

    /// Whether `self` comes before `other`, by block and then by place in the
    /// block.
    pub open spec fn before(self, other: RuneId) -> bool {
        self.block < other.block || (self.block == other.block && self.tx < other.tx)
    }

    /// The pair of numbers that leads from `self` to `next`: the difference of
    /// the blocks, then the difference of the places where the block is the
    /// same and the place itself where it is not.
    pub open spec fn delta_to(self, next: RuneId) -> (nat, nat) {
        (
            (next.block - self.block) as nat,
            if next.block == self.block {
                (next.tx - self.tx) as nat
            } else {
                next.tx as nat
            },
        )
    }

    /// Where the pair of numbers `(block, tx)` leads from `self`, if anywhere.
    pub open spec fn step(self, block: nat, tx: nat) -> Option<RuneId> {
        let next_block = self.block + block;
        let next_tx = if block == 0 {
            self.tx + tx
        } else {
            tx as int
        };
        if next_block > u64::MAX || next_tx > u32::MAX || (next_block == 0 && next_tx > 0) {
            None
        } else {
            Some(RuneId { block: next_block as u64, tx: next_tx as u32 })
        }
    }

    /// The identifier `(block, tx)`, unless it names a later transaction of
    /// block 0.
    pub fn new(block: u64, tx: u32) -> (r: Option<RuneId>)
        ensures
            r == if block == 0 && tx > 0 {
                None
            } else {
                Some(RuneId { block, tx })
            },
    {
        if block == 0 && tx > 0 {
            None
        } else {
            Some(RuneId { block, tx })
        }
    }

    /// Whether `self` is `other` or comes before it.
    pub fn le(self, other: RuneId) -> (r: bool)
        ensures
            r == self.at_most(other),
    {
        self.block < other.block || (self.block == other.block && self.tx <= other.tx)
    }

    /// Whether `self` comes before `other`.
    pub fn lt(self, other: RuneId) -> (r: bool)
        ensures
            r == self.before(other),
    {
        self.block < other.block || (self.block == other.block && self.tx < other.tx)
    }

    /// The numbers that lead from `self` to `next`, where `next` does not come
    /// before `self`.
    pub fn delta(self, next: RuneId) -> (r: Option<(u128, u128)>)
        ensures
            r == if self.at_most(next) {
                Some((self.delta_to(next).0 as u128, self.delta_to(next).1 as u128))
            } else {
                None
            },
    {
        if next.block < self.block {
            return None;
        }
        let block: u64 = next.block - self.block;
        let tx: u32 = if block == 0 {
            if next.tx < self.tx {
                return None;
            }
            next.tx - self.tx
        } else {
            next.tx
        };
        Some((block as u128, tx as u128))
    }

    /// The identifier to which the numbers `(block, tx)` lead from `self`.
    pub fn next(self, block: u128, tx: u128) -> (r: Option<RuneId>)
        ensures
            r == self.step(block as nat, tx as nat),
    {
        if block > u64::MAX as u128 || tx > u32::MAX as u128 {
            return None;
        }
        let next_block: u64 = match self.block.checked_add(block as u64) {
            Some(b) => b,
            None => {
                return None;
            },
        };
        let next_tx: u32 = if block == 0 {
            match self.tx.checked_add(tx as u32) {
                Some(t) => t,
                None => {
                    return None;
                },
            }
        } else {
            tx as u32
        };
        RuneId::new(next_block, next_tx)
    }
}

/// The step by the numbers of `delta` leads back to the identifier they were
/// taken towards.
pub proof fn lemma_step_delta(from: RuneId, to: RuneId)
    requires
        from.at_most(to),
        to.valid(),
    ensures
        from.step(from.delta_to(to).0, from.delta_to(to).1) == Some(to),
{
}

/// Why a string is no rune identifier.
#[derive(Copy, Clone, Debug, PartialEq, Eq, Structural)]
pub enum RuneIdError {
    /// The string holds no colon.
    Separator,
    /// What stands before the first colon is no block height.
    Block,
    /// What stands behind the first colon is no place in a block.
    Transaction,
}

/// The place of the first colon of `s`, or the length of `s`.
pub open spec fn colon(s: Seq<char>) -> int
    decreases s.len(),
{
    if s.len() == 0 {
        0
    } else if colon(s.drop_last()) < s.len() - 1 {
        colon(s.drop_last())
    } else if s.last() == ':' {
        s.len() - 1
    } else {
        s.len() as int
    }
}

/// The identifier that `s` writes: a block height in decimal digits, a colon,
/// and a place in the block in decimal digits.
pub open spec fn parsed_id(s: Seq<char>) -> Result<RuneId, RuneIdError> {
    let at = colon(s);
    if at >= s.len() {
        Err(RuneIdError::Separator)
    } else {
        match parsed(s.subrange(0, at)) {
            None => Err(RuneIdError::Block),
            Some(block) => if block > u64::MAX {
                Err(RuneIdError::Block)
            } else {
                match parsed(s.subrange(at + 1, s.len() as int)) {
                    None => Err(RuneIdError::Transaction),
                    Some(tx) => if tx > u32::MAX {
                        Err(RuneIdError::Transaction)
                    } else {
                        Ok(RuneId { block: block as u64, tx: tx as u32 })
                    },
                }
            },
        }
    }
}

/// The string that writes the identifier `id`.
pub open spec fn written_id(id: RuneId) -> Seq<char> {
    digits(id.block as nat) + seq![':'] + digits(id.tx as nat)
}

impl RuneId {
    /// The identifier as the block height, a colon, and the place in the
    /// block.
    pub fn to_string(&self) -> (r: String)
        ensures
            r@ == written_id(*self),
    {
        let mut out: String = String::new();
        append_decimal(&mut out, self.block as u128);
        out.push(':');
        append_decimal(&mut out, self.tx as u128);
        assert(out@ =~= written_id(*self));
        out
    }

    /// The identifier that `s` writes.
    pub fn from_str(s: &str) -> (r: Result<RuneId, RuneIdError>)
        ensures
            r == parsed_id(s@),
    {
        let len: usize = s.unicode_len();
        let mut at: usize = 0;
        let mut found: bool = false;
        assert(s@.take(0) =~= Seq::<char>::empty());
        while at < len && !found
            invariant
                at <= len == s@.len(),
                found ==> at < len && colon(s@) == at,
                !found ==> colon(s@.take(at as int)) == at,
            decreases len - at + if found {
                0int
            } else {
                1int
            },
        {
            let c: char = s.get_char(at);
            let ghost next = s@.take(at + 1);
            assert(next.drop_last() =~= s@.take(at as int));
            assert(next.last() == c);
            if c == ':' {
                proof {
                    lemma_colon_stays(s@, at + 1);
                }
                found = true;
            } else {
                at = at + 1;
            }
        }
        if !found {
            assert(s@.take(len as int) =~= s@);
            return Err(RuneIdError::Separator);
        }
        let block: u128 = match parse_decimal(s, 0, at) {
            Some(v) => v,
            None => {
                return Err(RuneIdError::Block);
            },
        };
        if block > u64::MAX as u128 {
            return Err(RuneIdError::Block);
        }
        let tx: u128 = match parse_decimal(s, at + 1, len) {
            Some(v) => v,
            None => {
                return Err(RuneIdError::Transaction);
            },
        };
        if tx > u32::MAX as u128 {
            return Err(RuneIdError::Transaction);
        }
        Ok(RuneId { block: block as u64, tx: tx as u32 })
    }
}

/// A colon found among the first characters is the first colon of all.
proof fn lemma_colon_stays(s: Seq<char>, i: int)
    requires
        0 <= i <= s.len(),
        colon(s.take(i)) < i,
    ensures
        colon(s) == colon(s.take(i)),
    decreases s.len() - i,
{
    if i < s.len() {
        assert(s.take(i + 1).drop_last() =~= s.take(i));
        lemma_colon_stays(s, i + 1);
    } else {
        assert(s.take(i) =~= s);
    }
}

/// The first colon of a string that starts with digits alone and then has a
/// colon is that colon.
proof fn lemma_colon_after_digits(s: Seq<char>, at: int)
    requires
        0 <= at < s.len(),
        s[at] == ':',
        forall|i: int| 0 <= i < at ==> crate::decimal::is_digit(#[trigger] s[i]),
    ensures
        colon(s) == at,
    decreases s.len(),
{
    let front = s.drop_last();
    if at < s.len() - 1 {
        assert forall|i: int| 0 <= i < at implies crate::decimal::is_digit(#[trigger] front[i]) by {
            assert(front[i] == s[i]);
        }
        lemma_colon_after_digits(front, at);
    } else {
        lemma_no_colon(front);
    }
}

/// A string of digits has no colon.
proof fn lemma_no_colon(s: Seq<char>)
    requires
        forall|i: int| 0 <= i < s.len() ==> crate::decimal::is_digit(#[trigger] s[i]),
    ensures
        colon(s) == s.len(),
    decreases s.len(),
{
    if s.len() > 0 {
        let front = s.drop_last();
        assert forall|i: int| 0 <= i < front.len() implies crate::decimal::is_digit(
            #[trigger] front[i],
        ) by {
            assert(front[i] == s[i]);
        }
        lemma_no_colon(front);
        assert(crate::decimal::is_digit(s[s.len() - 1]));
    }
}

/// An identifier that is written and read again is the same identifier.
pub proof fn lemma_parse_written(id: RuneId)
    ensures
        parsed_id(written_id(id)) == Ok::<RuneId, RuneIdError>(id),
{
    let a = digits(id.block as nat);
    let b = digits(id.tx as nat);
    let s = written_id(id);
    lemma_digits(id.block as nat);
    lemma_digits(id.tx as nat);
    let at = a.len() as int;
    assert(s[at] == ':');
    assert forall|i: int| 0 <= i < at implies crate::decimal::is_digit(#[trigger] s[i]) by {
        assert(s[i] == a[i]);
    }
    lemma_colon_after_digits(s, at);
    assert(s.subrange(0, at) =~= a);
    assert(s.subrange(at + 1, s.len() as int) =~= b);
}

} // verus!
