//! The tags that announce the fields of a runes message. An even tag that a
//! reader does not know makes the message a cenotaph; an odd one is passed
//! over.

use vstd::prelude::*;
use crate::varint::encode_to_vec;
use crate::varint::encoded;
use crate::varint::encoding;
use crate::varint::lemma_encoded_one;
use crate::varint::lemma_encoded_concat;

verus! {

/// A tag.
#[derive(Copy, Clone, Debug, PartialEq, Eq, Structural, Hash)]
pub enum Tag {
    Body,
    Flags,
    Rune,
    Premine,
    Cap,
    Amount,
    HeightStart,
    HeightEnd,
    OffsetStart,
    OffsetEnd,
    Mint,
    Pointer,
    Cenotaph,
    Divisibility,
    Spacers,
    Symbol,
    Nop,
}

impl Tag {
    /// The number that stands for the tag.
    pub open spec fn number(self) -> u128 {
        match self {
            Tag::Body => 0,
            Tag::Flags => 2,
            Tag::Rune => 4,
            Tag::Premine => 6,
            Tag::Cap => 8,
            Tag::Amount => 10,
            Tag::HeightStart => 12,
            Tag::HeightEnd => 14,
            Tag::OffsetStart => 16,
            Tag::OffsetEnd => 18,
            Tag::Mint => 20,
            Tag::Pointer => 22,
            Tag::Cenotaph => 126,
            Tag::Divisibility => 1,
            Tag::Spacers => 3,
            Tag::Symbol => 5,
            Tag::Nop => 127,
        }
    }

    /// The tag that `n` stands for, if any.
    pub open spec fn of(n: u128) -> Option<Tag> {
        if n == 0 {
            Some(Tag::Body)
        } else if n == 2 {
            Some(Tag::Flags)
        } else if n == 4 {
            Some(Tag::Rune)
        } else if n == 6 {
            Some(Tag::Premine)
        } else if n == 8 {
            Some(Tag::Cap)
        } else if n == 10 {
            Some(Tag::Amount)
        } else if n == 12 {
            Some(Tag::HeightStart)
        } else if n == 14 {
            Some(Tag::HeightEnd)
        } else if n == 16 {
            Some(Tag::OffsetStart)
        } else if n == 18 {
            Some(Tag::OffsetEnd)
        } else if n == 20 {
            Some(Tag::Mint)
        } else if n == 22 {
            Some(Tag::Pointer)
        } else if n == 126 {
            Some(Tag::Cenotaph)
        } else if n == 1 {
            Some(Tag::Divisibility)
        } else if n == 3 {
            Some(Tag::Spacers)
        } else if n == 5 {
            Some(Tag::Symbol)
        } else if n == 127 {
            Some(Tag::Nop)
        } else {
            None
        }
    }

    /// The number that stands for the tag.
    pub fn value(self) -> (r: u128)
        ensures
            r == self.number(),
    {
        match self {
            Tag::Body => 0,
            Tag::Flags => 2,
            Tag::Rune => 4,
            Tag::Premine => 6,
            Tag::Cap => 8,
            Tag::Amount => 10,
            Tag::HeightStart => 12,
            Tag::HeightEnd => 14,
            Tag::OffsetStart => 16,
            Tag::OffsetEnd => 18,
            Tag::Mint => 20,
            Tag::Pointer => 22,
            Tag::Cenotaph => 126,
            Tag::Divisibility => 1,
            Tag::Spacers => 3,
            Tag::Symbol => 5,
            Tag::Nop => 127,
        }
    }

    /// The tag that `n` stands for, if any.
    pub fn from_u128(n: u128) -> (r: Option<Tag>)
        ensures
            r == Tag::of(n),
    {
        if n == 0 {
            Some(Tag::Body)
        } else if n == 2 {
            Some(Tag::Flags)
        } else if n == 4 {
            Some(Tag::Rune)
        } else if n == 6 {
            Some(Tag::Premine)
        } else if n == 8 {
            Some(Tag::Cap)
        } else if n == 10 {
            Some(Tag::Amount)
        } else if n == 12 {
            Some(Tag::HeightStart)
        } else if n == 14 {
            Some(Tag::HeightEnd)
        } else if n == 16 {
            Some(Tag::OffsetStart)
        } else if n == 18 {
            Some(Tag::OffsetEnd)
        } else if n == 20 {
            Some(Tag::Mint)
        } else if n == 22 {
            Some(Tag::Pointer)
        } else if n == 126 {
            Some(Tag::Cenotaph)
        } else if n == 1 {
            Some(Tag::Divisibility)
        } else if n == 3 {
            Some(Tag::Spacers)
        } else if n == 5 {
            Some(Tag::Symbol)
        } else if n == 127 {
            Some(Tag::Nop)
        } else {
            None
        }
    }

    /// The integers that write the field `value` under this tag.
    pub open spec fn field(self, value: Option<u128>) -> Seq<u128> {
        match value {
            Some(v) => seq![self.number(), v],
            None => Seq::empty(),
        }
    }

    /// Appends the tag and `value` to `payload`.
    pub fn encode(self, value: u128, payload: &mut Vec<u8>)
        ensures
            final(payload)@ == old(payload)@ + encoded(seq![self.number(), value]),
    {
        proof {
            lemma_encoded_one(self.number());
            lemma_encoded_one(value);
            lemma_encoded_concat(seq![self.number()], seq![value]);
            assert(seq![self.number()] + seq![value] =~= seq![self.number(), value]);
        }
        encode_to_vec(self.value(), payload);
        encode_to_vec(value, payload);
        assert(payload@ =~= old(payload)@ + (encoding(self.number() as nat) + encoding(
            value as nat,
        )));
    }

    /// Appends the tag and the value to `payload`, where there is a value.
    pub fn encode_option(self, value: Option<u128>, payload: &mut Vec<u8>)
        ensures
            final(payload)@ == old(payload)@ + encoded(self.field(value)),
    {
        match value {
            Some(v) => {
                self.encode(v, payload);
            },
            None => {
                assert(payload@ + encoded(Seq::<u128>::empty()) =~= payload@);
            },
        }
    }
}

} // verus!
