//! The fields of a runes message, read from its pairs of tag and value.
//!
//! For each tag only the first value counts. Where a field does not take it,
//! the value is left over, and so is every later value of the same tag. A
//! value left over under an even tag is a flaw; one under an odd tag is not.

use vstd::prelude::*;
use crate::etching::MAX_DIVISIBILITY;
use crate::etching::MAX_SPACERS;
use crate::rune_id::RuneId;
use crate::tag::Tag;

verus! {

/// `char::from_u32` of the standard library. Claimed: it gives the character
/// with that number where the number is a Unicode scalar value, and nothing
/// where it is not.
pub assume_specification[ char::from_u32 ](i: u32) -> (r: Option<char>)
    ensures
        r == if is_scalar(i as u128) {
            Some(i as char)
        } else {
            None
        },
;

/// Whether `v` is a Unicode scalar value.
pub open spec fn is_scalar(v: u128) -> bool {
    v <= 0xD7FF || 0xE000 <= v <= 0x10FFFF
}

/// What has been read of a field with one value.
#[derive(Copy, Clone, Debug, PartialEq, Eq, Structural)]
pub enum Slot {
    /// No value of the tag was met.
    Unseen,
    /// The first value of the tag, which the field takes.
    Taken(u128),
    /// The first value of the tag was one that the field does not take.
    Refused,
}

/// What has been read of the mint field, which has two values.
#[derive(Copy, Clone, Debug, PartialEq, Eq, Structural)]
pub enum MintSlot {
    /// No value of the tag was met.
    Unseen,
    /// The first value of the tag, the block, waits for the second.
    Block(u128),
    /// The first two values of the tag, as the identifier they spell.
    Taken(RuneId),
    /// The first two values of the tag spell no identifier.
    Refused,
}

/// What has been read of the fields of a message.
#[derive(Copy, Clone, Debug, PartialEq, Eq, Structural)]
pub struct Fields {
    pub flags: Slot,
    pub rune: Slot,
    pub premine: Slot,
    pub cap: Slot,
    pub amount: Slot,
    pub height_start: Slot,
    pub height_end: Slot,
    pub offset_start: Slot,
    pub offset_end: Slot,
    pub pointer: Slot,
    pub divisibility: Slot,
    pub spacers: Slot,
    pub symbol: Slot,
    pub mint: MintSlot,
    /// Whether a value was left over under an even tag.
    pub left_over: bool,
}

/// Whether the tag announces a field with one value.
pub open spec fn single(tag: Tag) -> bool {
    match tag {
        Tag::Body | Tag::Mint | Tag::Cenotaph | Tag::Nop => false,
        _ => true,
    }
}

/// Whether the field under `tag` takes `value`, in a transaction with
/// `outputs` outputs.
pub open spec fn accepts(tag: Tag, value: u128, outputs: nat) -> bool {
    match tag {
        Tag::Flags | Tag::Rune | Tag::Premine | Tag::Cap | Tag::Amount => true,
        Tag::HeightStart | Tag::HeightEnd | Tag::OffsetStart | Tag::OffsetEnd => value <= u64::MAX,
        Tag::Pointer => value <= u32::MAX && value < outputs,
        Tag::Divisibility => value <= MAX_DIVISIBILITY,
        Tag::Spacers => value <= MAX_SPACERS,
        Tag::Symbol => is_scalar(value),
        _ => false,
    }
}

impl Slot {
    /// The slot after `value` was met, where `ok` tells whether the field
    /// takes it.
    pub open spec fn offered(self, value: u128, ok: bool) -> Slot {
        match self {
            Slot::Unseen => if ok {
                Slot::Taken(value)
            } else {
                Slot::Refused
            },
            other => other,
        }
    }

    /// The value that the field took.
    pub open spec fn value(self) -> Option<u128> {
        match self {
            Slot::Taken(v) => Some(v),
            _ => None,
        }
    }

    /// The value that the field took.
    pub fn get(self) -> (r: Option<u128>)
        ensures
            r == self.value(),
    {
        match self {
            Slot::Taken(v) => Some(v),
            _ => None,
        }
    }
}

impl MintSlot {
    /// The identifier that the field took.
    pub open spec fn id(self) -> Option<RuneId> {
        match self {
            MintSlot::Taken(id) => Some(id),
            _ => None,
        }
    }
}

impl Fields {
    /// Nothing read yet.
    pub open spec fn start() -> Fields {
        Fields {
            flags: Slot::Unseen,
            rune: Slot::Unseen,
            premine: Slot::Unseen,
            cap: Slot::Unseen,
            amount: Slot::Unseen,
            height_start: Slot::Unseen,
            height_end: Slot::Unseen,
            offset_start: Slot::Unseen,
            offset_end: Slot::Unseen,
            pointer: Slot::Unseen,
            divisibility: Slot::Unseen,
            spacers: Slot::Unseen,
            symbol: Slot::Unseen,
            mint: MintSlot::Unseen,
            left_over: false,
        }
    }

    /// The slot of the field under `tag`.
    pub open spec fn slot(self, tag: Tag) -> Slot {
        match tag {
            Tag::Flags => self.flags,
            Tag::Rune => self.rune,
            Tag::Premine => self.premine,
            Tag::Cap => self.cap,
            Tag::Amount => self.amount,
            Tag::HeightStart => self.height_start,
            Tag::HeightEnd => self.height_end,
            Tag::OffsetStart => self.offset_start,
            Tag::OffsetEnd => self.offset_end,
            Tag::Pointer => self.pointer,
            Tag::Divisibility => self.divisibility,
            Tag::Spacers => self.spacers,
            Tag::Symbol => self.symbol,
            _ => Slot::Refused,
        }
    }

    /// These fields with `slot` for the field under `tag`.
    pub open spec fn with_slot(self, tag: Tag, slot: Slot) -> Fields {
        match tag {
            Tag::Flags => Fields { flags: slot, ..self },
            Tag::Rune => Fields { rune: slot, ..self },
            Tag::Premine => Fields { premine: slot, ..self },
            Tag::Cap => Fields { cap: slot, ..self },
            Tag::Amount => Fields { amount: slot, ..self },
            Tag::HeightStart => Fields { height_start: slot, ..self },
            Tag::HeightEnd => Fields { height_end: slot, ..self },
            Tag::OffsetStart => Fields { offset_start: slot, ..self },
            Tag::OffsetEnd => Fields { offset_end: slot, ..self },
            Tag::Pointer => Fields { pointer: slot, ..self },
            Tag::Divisibility => Fields { divisibility: slot, ..self },
            Tag::Spacers => Fields { spacers: slot, ..self },
            Tag::Symbol => Fields { symbol: slot, ..self },
            _ => self,
        }
    }

    /// Whether every value taken is one that its field takes.
    pub open spec fn sound(self, outputs: nat) -> bool {
        &&& forall|tag: Tag|
            single(tag) ==> match #[trigger] self.slot(tag) {
                Slot::Taken(v) => accepts(tag, v, outputs),
                _ => true,
            }
        &&& match self.mint {
            MintSlot::Taken(id) => id.valid(),
            _ => true,
        }
    }

    /// These fields after the mint tag was met with `value`.
    pub open spec fn minted(self, value: u128) -> Fields {
        match self.mint {
            MintSlot::Unseen => Fields { mint: MintSlot::Block(value), ..self },
            MintSlot::Block(block) => if block <= u64::MAX && value <= u32::MAX && !(block == 0
                && value > 0) {
                Fields {
                    mint: MintSlot::Taken(RuneId { block: block as u64, tx: value as u32 }),
                    ..self
                }
            } else {
                Fields { mint: MintSlot::Refused, left_over: true, ..self }
            },
            _ => Fields { left_over: true, ..self },
        }
    }

    /// These fields after the pair of `tag` and `value` was met, in a
    /// transaction with `outputs` outputs.
    pub open spec fn absorbed(self, tag: u128, value: u128, outputs: nat) -> Fields {
        match Tag::of(tag) {
            Some(Tag::Mint) => self.minted(value),
            Some(known) => if single(known) {
                let ok = accepts(known, value, outputs);
                let slot = self.slot(known);
                let next = self.with_slot(known, slot.offered(value, ok));
                Fields {
                    left_over: self.left_over || (tag % 2 == 0 && !(slot == Slot::Unseen && ok)),
                    ..next
                }
            } else {
                Fields { left_over: self.left_over || tag % 2 == 0, ..self }
            },
            None => Fields { left_over: self.left_over || tag % 2 == 0, ..self },
        }
    }

    /// Nothing read yet.
    pub fn new() -> (r: Fields)
        ensures
            r == Fields::start(),
            r.sound(0),
    {
        Fields {
            flags: Slot::Unseen,
            rune: Slot::Unseen,
            premine: Slot::Unseen,
            cap: Slot::Unseen,
            amount: Slot::Unseen,
            height_start: Slot::Unseen,
            height_end: Slot::Unseen,
            offset_start: Slot::Unseen,
            offset_end: Slot::Unseen,
            pointer: Slot::Unseen,
            divisibility: Slot::Unseen,
            spacers: Slot::Unseen,
            symbol: Slot::Unseen,
            mint: MintSlot::Unseen,
            left_over: false,
        }
    }

    /// The slot of the field under `tag`.
    pub fn get(&self, tag: Tag) -> (r: Slot)
        ensures
            r == self.slot(tag),
    {
        match tag {
            Tag::Flags => self.flags,
            Tag::Rune => self.rune,
            Tag::Premine => self.premine,
            Tag::Cap => self.cap,
            Tag::Amount => self.amount,
            Tag::HeightStart => self.height_start,
            Tag::HeightEnd => self.height_end,
            Tag::OffsetStart => self.offset_start,
            Tag::OffsetEnd => self.offset_end,
            Tag::Pointer => self.pointer,
            Tag::Divisibility => self.divisibility,
            Tag::Spacers => self.spacers,
            Tag::Symbol => self.symbol,
            _ => Slot::Refused,
        }
    }

    /// Puts `slot` in the place of the field under `tag`.
    pub fn put(&mut self, tag: Tag, slot: Slot)
        ensures
            *final(self) == old(self).with_slot(tag, slot),
    {
        match tag {
            Tag::Flags => {
                self.flags = slot;
            },
            Tag::Rune => {
                self.rune = slot;
            },
            Tag::Premine => {
                self.premine = slot;
            },
            Tag::Cap => {
                self.cap = slot;
            },
            Tag::Amount => {
                self.amount = slot;
            },
            Tag::HeightStart => {
                self.height_start = slot;
            },
            Tag::HeightEnd => {
                self.height_end = slot;
            },
            Tag::OffsetStart => {
                self.offset_start = slot;
            },
            Tag::OffsetEnd => {
                self.offset_end = slot;
            },
            Tag::Pointer => {
                self.pointer = slot;
            },
            Tag::Divisibility => {
                self.divisibility = slot;
            },
            Tag::Spacers => {
                self.spacers = slot;
            },
            Tag::Symbol => {
                self.symbol = slot;
            },
            _ => {},
        }
    }

    /// Reads the pair of `tag` and `value`, in a transaction with `outputs`
    /// outputs.
    pub fn absorb(&mut self, tag: u128, value: u128, outputs: usize)
        requires
            old(self).sound(outputs as nat),
        ensures
            *final(self) == old(self).absorbed(tag, value, outputs as nat),
            final(self).sound(outputs as nat),
    {
        let even: bool = tag % 2 == 0;
        match Tag::from_u128(tag) {
            Some(Tag::Mint) => {
                match self.mint {
                    MintSlot::Unseen => {
                        self.mint = MintSlot::Block(value);
                    },
                    MintSlot::Block(block) => {
                        if block <= u64::MAX as u128 && value <= u32::MAX as u128 && !(block == 0
                            && value > 0) {
                            self.mint = MintSlot::Taken(
                                RuneId { block: block as u64, tx: value as u32 },
                            );
                        } else {
                            self.mint = MintSlot::Refused;
                            self.left_over = true;
                        }
                    },
                    _ => {
                        self.left_over = true;
                    },
                }
                assert(forall|tag: Tag| single(tag) ==> self.slot(tag) == old(self).slot(tag));
            },
            Some(known) => {
                let one: bool = match known {
                    Tag::Body | Tag::Mint | Tag::Cenotaph | Tag::Nop => false,
                    _ => true,
                };
                if one {
                    let ok: bool = accept(known, value, outputs);
                    let slot: Slot = self.get(known);
                    let fresh: bool = match slot {
                        Slot::Unseen => true,
                        _ => false,
                    };
                    if fresh {
                        if ok {
                            self.put(known, Slot::Taken(value));
                        } else {
                            self.put(known, Slot::Refused);
                        }
                    } else {
                        assert(old(self).with_slot(known, slot) == *old(self));
                    }
                    if even && !(fresh && ok) {
                        self.left_over = true;
                    }
                    assert forall|tag: Tag| single(tag) implies match #[trigger] self.slot(tag) {
                        Slot::Taken(v) => accepts(tag, v, outputs as nat),
                        _ => true,
                    } by {
                        if tag != known {
                            assert(self.slot(tag) == old(self).slot(tag));
                        } else if !fresh {
                            assert(self.slot(tag) == old(self).slot(tag));
                        }
                    }
                } else if even {
                    self.left_over = true;
                    assert(forall|tag: Tag| single(tag) ==> self.slot(tag) == old(self).slot(tag));
                }
            },
            None => {
                if even {
                    self.left_over = true;
                    assert(forall|tag: Tag| single(tag) ==> self.slot(tag) == old(self).slot(tag));
                }
            },
        }
    }
}

/// Whether the field under `tag` takes `value`, in a transaction with
/// `outputs` outputs.
pub fn accept(tag: Tag, value: u128, outputs: usize) -> (r: bool)
    ensures
        r == accepts(tag, value, outputs as nat),
{
    match tag {
        Tag::Flags | Tag::Rune | Tag::Premine | Tag::Cap | Tag::Amount => true,
        Tag::HeightStart | Tag::HeightEnd | Tag::OffsetStart | Tag::OffsetEnd => value
            <= u64::MAX as u128,
        Tag::Pointer => value <= u32::MAX as u128 && value < outputs as u128,
        Tag::Divisibility => value <= MAX_DIVISIBILITY as u128,
        Tag::Spacers => value <= MAX_SPACERS as u128,
        Tag::Symbol => value <= 0xD7FF || (0xE000 <= value && value <= 0x10FFFF),
        _ => false,
    }
}

/// The fields after all of `pairs` were read from the left, starting from
/// `state`.
pub open spec fn folded(pairs: Seq<(u128, u128)>, state: Fields, outputs: nat) -> Fields
    decreases pairs.len(),
{
    if pairs.len() == 0 {
        state
    } else {
        folded(pairs.skip(1), state.absorbed(pairs[0].0, pairs[0].1, outputs), outputs)
    }
}

/// Reads all of `pairs`, in a transaction with `outputs` outputs.
pub fn fold(pairs: &Vec<(u128, u128)>, outputs: usize) -> (r: Fields)
    ensures
        r == folded(pairs@, Fields::start(), outputs as nat),
        r.sound(outputs as nat),
{
    let mut state: Fields = Fields::new();
    let mut i: usize = 0;
    assert(pairs@.skip(0) =~= pairs@);
    while i < pairs.len()
        invariant
            i <= pairs@.len(),
            state.sound(outputs as nat),
            folded(pairs@.skip(i as int), state, outputs as nat) == folded(
                pairs@,
                Fields::start(),
                outputs as nat,
            ),
        decreases pairs@.len() - i,
    {
        let pair: (u128, u128) = pairs[i];
        proof {
            let here = pairs@.skip(i as int);
            assert(here[0] == pair);
            assert(here.skip(1) =~= pairs@.skip(i + 1));
        }
        state.absorb(pair.0, pair.1, outputs);
        i = i + 1;
    }
    state
}

/// Reading two lists of pairs one after the other is reading them as one.
pub proof fn lemma_folded_concat(
    a: Seq<(u128, u128)>,
    b: Seq<(u128, u128)>,
    state: Fields,
    outputs: nat,
)
    ensures
        folded(a + b, state, outputs) == folded(b, folded(a, state, outputs), outputs),
    decreases a.len(),
{
    if a.len() == 0 {
        assert(a + b =~= b);
    } else {
        assert((a + b).skip(1) =~= a.skip(1) + b);
        lemma_folded_concat(a.skip(1), b, state.absorbed(a[0].0, a[0].1, outputs), outputs);
    }
}

} // verus!
