//! Rune names: the 128-bit numbers and the strings over `A` to `Z` that stand
//! for them.
//!
//! A name is its number plus one, written in bijective base 26 with `A` for the
//! digit one and `Z` for the digit twenty-six: `A` is 0, `Z` is 25, `AA` is 26.

use vstd::prelude::*;
use vstd::string::StrSliceExecFns;
use crate::height::Height;
use crate::network::Network;
use crate::network::SUBSIDY_HALVING_INTERVAL;

verus! {

/// `String::push` of the standard library. Claimed: it appends the character.
pub assume_specification[ String::push ](s: &mut String, ch: char)
    ensures
        final(s)@ == old(s)@.push(ch),
;

/// The first of the numbers whose names nobody can choose.
pub const RESERVED: u128 = 6402364363415443603228541259936211926;

/// The number of blocks after which the shortest name that may be chosen loses
/// one letter.
pub const UNLOCK_INTERVAL: u32 = 17_500;

/// The number of a rune's name.
#[derive(Copy, Clone, Debug, PartialEq, Eq, Structural, PartialOrd, Ord, Hash)]
pub struct Rune(pub u128);

/// Why a string is no rune name.
#[derive(Copy, Clone, Debug, PartialEq, Eq, Structural)]
pub enum RuneError {
    /// The string has no letter.
    Empty,
    /// The string holds this character, which is none of `A` to `Z`.
    Character(char),
    /// The name stands for a number beyond 128 bits.
    Range,
}

/// Whether `c` is one of `A` to `Z`.
pub open spec fn is_letter(c: char) -> bool {
    65 <= c as int <= 90
}

/// The place of a letter in the alphabet, from 0.
pub open spec fn letter_index(c: char) -> nat {
    (c as int - 65) as nat
}

/// The letter at place `d` of the alphabet, from 0.
pub open spec fn letter(d: nat) -> char {
    (d + 65) as char
}

/// The number that `s` writes in bijective base 26.
pub open spec fn bijective_value(s: Seq<char>) -> nat
    decreases s.len(),
{
    if s.len() == 0 {
        0
    } else {
        26 * bijective_value(s.drop_last()) + letter_index(s.last()) + 1
    }
}

/// `k` written in bijective base 26.
pub open spec fn bijective_digits(k: nat) -> Seq<char>
    decreases k,
{
    if k == 0 {
        Seq::empty()
    } else {
        bijective_digits(((k - 1) / 26) as nat).push(letter(((k - 1) % 26) as nat))
    }
}

/// The name of the rune with number `n`.
pub open spec fn name(n: nat) -> Seq<char> {
    bijective_digits(n + 1)
}

/// Whether `s` is a name: one letter or more, nothing else.
pub open spec fn is_name(s: Seq<char>) -> bool {
    s.len() > 0 && forall|i: int| 0 <= i < s.len() ==> is_letter(#[trigger] s[i])
}

/// The number of the rune with name `s`.
pub open spec fn number(s: Seq<char>) -> int {
    bijective_value(s) - 1
}

/// Reading `s` from the left: its bijective value, or what stops the reading
/// first. A number that leaves 128 bits stops it before the character that
/// follows is looked at.
pub open spec fn scanned(s: Seq<char>) -> Result<nat, RuneError>
    decreases s.len(),
{
    if s.len() == 0 {
        Ok(0)
    } else {
        match scanned(s.drop_last()) {
            Err(e) => Err(e),
            Ok(v) => if 26 * v > u128::MAX {
                Err(RuneError::Range)
            } else if !is_letter(s.last()) {
                Err(RuneError::Character(s.last()))
            } else if 26 * v + letter_index(s.last()) > u128::MAX {
                Err(RuneError::Range)
            } else {
                Ok(26 * v + letter_index(s.last()) + 1)
            },
        }
    }
}

/// What parsing `s` as a name gives.
pub open spec fn parsed(s: Seq<char>) -> Result<Rune, RuneError> {
    if s.len() == 0 {
        Err(RuneError::Empty)
    } else {
        match scanned(s) {
            Err(e) => Err(e),
            Ok(v) => Ok(Rune((v - 1) as u128)),
        }
    }
}

/// The bytes of `n`, least significant first, without zero bytes at the end.
pub open spec fn minimal_le_bytes(n: nat) -> Seq<u8>
    decreases n,
{
    if n == 0 {
        Seq::empty()
    } else {
        seq![(n % 256) as u8] + minimal_le_bytes(n / 256)
    }
}

/// The number of the name made of `len` letters `A`.
pub open spec fn repeated_a(len: nat) -> nat
    decreases len,
{
    if len <= 1 {
        0
    } else {
        (repeated_a((len - 1) as nat) + 1) * 26
    }
}

/// The length of the shortest name that may be chosen at `height` on a chain
/// where runes start at `start`: thirteen letters until the start, one letter
/// less after each `UNLOCK_INTERVAL` blocks, one letter from the next halving on.
pub open spec fn minimum_length(start: nat, height: nat) -> nat {
    if height < start {
        13
    } else if (height - start) / (UNLOCK_INTERVAL as int) >= 12 {
        1
    } else {
        (13 - (height - start) / (UNLOCK_INTERVAL as int)) as nat
    }
}

/// The letters of `d`, a list of alphabet places, last place first.
pub open spec fn letters_reversed(d: Seq<u8>) -> Seq<char> {
    Seq::new(d.len(), |i: int| letter(d[d.len() - 1 - i] as nat))
}

proof fn lemma_repeated_a_bound(len: nat)
    requires
        len <= 13,
    ensures
        repeated_a(len) <= 99246114928149462,
    decreases 13 - len,
{
    if len < 13 {
        lemma_repeated_a_bound(len + 1);
    } else {
        reveal_with_fuel(repeated_a, 14);
    }
}

impl Rune {
    /// The number.
    pub fn n(self) -> (r: u128)
        ensures
            r == self.0,
    {
        self.0
    }

    /// Whether the name is one that nobody can choose.
    pub fn is_reserved(self) -> (r: bool)
        ensures
            r == (self.0 >= RESERVED),
    {
        self.0 >= RESERVED
    }

    /// The reserved rune that belongs to the transaction at place `tx` of the
    /// block at height `block`.
    pub fn reserved(block: u64, tx: u32) -> (r: Rune)
        ensures
            r.0 == RESERVED + block * 0x1_0000_0000 + tx,
    {
        let high: u128 = block as u128 * 0x1_0000_0000;
        Rune(RESERVED + high + tx as u128)
    }

    /// The bytes by which a transaction commits to this rune.
    pub fn commitment(self) -> (r: Vec<u8>)
        ensures
            r@ == minimal_le_bytes(self.0 as nat),
    {
        let mut bytes: Vec<u8> = Vec::new();
        let mut n: u128 = self.0;
        while n > 0
            invariant
                bytes@ + minimal_le_bytes(n as nat) == minimal_le_bytes(self.0 as nat),
            decreases n,
        {
            let byte: u8 = (n % 256) as u8;
            proof {
                assert(bytes@.push(byte) + minimal_le_bytes((n / 256) as nat) =~= bytes@ + (
                seq![byte] + minimal_le_bytes((n / 256) as nat)));
            }
            bytes.push(byte);
            n = n / 256;
        }
        assert(bytes@ + minimal_le_bytes(0) =~= bytes@);
        bytes
    }

    /// The smallest rune that may be chosen at `height` on `chain`.
    pub fn minimum_at_height(chain: Network, height: Height) -> (r: Rune)
        ensures
            r.0 == repeated_a(
                minimum_length(
                    (SUBSIDY_HALVING_INTERVAL * chain.activation_halvings()) as nat,
                    height.0 as nat,
                ),
            ),
    {
        let start: u32 = chain.first_rune_height();
        let length: u32 = if height.0 < start {
            13
        } else {
            let steps: u32 = (height.0 - start) / UNLOCK_INTERVAL;
            if steps >= 12 {
                1
            } else {
                13 - steps
            }
        };
        let mut x: u128 = 0;
        let mut k: u32 = 1;
        while k < length
            invariant
                1 <= k <= length <= 13,
                x == repeated_a(k as nat),
            decreases length - k,
        {
            proof {
                lemma_repeated_a_bound(k as nat);
            }
            x = (x + 1) * 26;
            k = k + 1;
        }
        Rune(x)
    }

    /// The name.
    pub fn to_string(self) -> (r: String)
        ensures
            r@ == name(self.0 as nat),
    {
        let mut digits: Vec<u8> = Vec::new();
        let mut m: u128 = self.0;
        let mut more: bool = true;
        assert(bijective_digits((m + 1) as nat) + letters_reversed(digits@) =~= name(
            self.0 as nat,
        ));
        while more
            invariant
                bijective_digits(
                    if more {
                        (m + 1) as nat
                    } else {
                        0
                    },
                ) + letters_reversed(digits@) == name(self.0 as nat),
                forall|i: int| 0 <= i < digits@.len() ==> digits@[i] < 26,
            decreases
                    if more {
                        m + 1
                    } else {
                        0
                    },
        {
            let digit: u8 = (m % 26) as u8;
            let ghost rest = ((m / 26) as nat);
            proof {
                assert(bijective_digits((m + 1) as nat) == bijective_digits(rest).push(
                    letter(digit as nat),
                ));
                assert(bijective_digits(rest).push(letter(digit as nat)) + letters_reversed(
                    digits@,
                ) =~= bijective_digits(rest) + letters_reversed(digits@.push(digit)));
            }
            digits.push(digit);
            if m < 26 {
                more = false;
            } else {
                m = m / 26 - 1;
            }
        }
        assert(bijective_digits(0) + letters_reversed(digits@) =~= letters_reversed(digits@));
        let mut s: String = String::new();
        let mut i: usize = digits.len();
        while i > 0
            invariant
                i <= digits@.len(),
                s@ == letters_reversed(digits@).take(digits@.len() - i),
                forall|i: int| 0 <= i < digits@.len() ==> digits@[i] < 26,
            decreases i,
        {
            i = i - 1;
            let c: char = (65u8 + digits[i]) as char;
            proof {
                let all = letters_reversed(digits@);
                let done = digits@.len() - i - 1;
                assert(all[done] == c);
                assert(all.take(done).push(c) =~= all.take(done + 1));
            }
            s.push(c);
        }
        assert(letters_reversed(digits@).take(digits@.len() as int) =~= letters_reversed(
            digits@,
        ));
        s
    }

    /// The rune that `s` names.
    pub fn from_str(s: &str) -> (r: Result<Rune, RuneError>)
        ensures
            r == parsed(s@),
    {
        let len: usize = s.unicode_len();
        if len == 0 {
            return Err(RuneError::Empty);
        }
        let mut x: u128 = 0;
        let mut i: usize = 0;
        assert(s@.take(0) =~= Seq::<char>::empty());
        while i < len
            invariant
                i <= len == s@.len(),
                scanned(s@.take(i as int)) == Ok::<nat, RuneError>(
                    if i == 0 {
                        0nat
                    } else {
                        (x + 1) as nat
                    },
                ),
            decreases len - i,
        {
            let c: char = s.get_char(i);
            let ghost next = s@.take(i + 1);
            proof {
                assert(next.drop_last() =~= s@.take(i as int));
                assert(next.last() == c);
            }
            let code: u32 = c as u32;
            let scaled: Option<u128> = if i == 0 {
                Some(0u128)
            } else {
                match x.checked_add(1) {
                    Some(v) => v.checked_mul(26),
                    None => None,
                }
            };
            match scaled {
                None => {
                    proof {
                        lemma_scan_stops(s@, i + 1);
                    }
                    return Err(RuneError::Range);
                },
                Some(base) => {
                    if code < 65 || code > 90 {
                        proof {
                            lemma_scan_stops(s@, i + 1);
                        }
                        return Err(RuneError::Character(c));
                    }
                    match base.checked_add((code - 65) as u128) {
                        None => {
                            proof {
                                lemma_scan_stops(s@, i + 1);
                            }
                            return Err(RuneError::Range);
                        },
                        Some(v) => {
                            x = v;
                        },
                    }
                },
            }
            i = i + 1;
        }
        assert(s@.take(len as int) =~= s@);
        Ok(Rune(x))
    }
}

/// Once reading has stopped at a prefix, it has stopped for the whole string.
proof fn lemma_scan_stops(s: Seq<char>, i: int)
    requires
        0 <= i <= s.len(),
        scanned(s.take(i)) is Err,
    ensures
        scanned(s) == scanned(s.take(i)),
    decreases s.len() - i,
{
    if i < s.len() {
        assert(s.take(i + 1).drop_last() =~= s.take(i));
        lemma_scan_stops(s, i + 1);
    } else {
        assert(s.take(i) =~= s);
    }
}

/// Reading a string succeeds exactly on the names whose number fits in 128
/// bits, and gives the bijective value.
pub proof fn lemma_scanned_is_value(s: Seq<char>)
    ensures
        scanned(s) is Ok <==> (forall|i: int| 0 <= i < s.len() ==> is_letter(#[trigger] s[i]))
            && bijective_value(s) <= u128::MAX + 1,
        scanned(s) is Ok ==> scanned(s)->Ok_0 == bijective_value(s),
    decreases s.len(),
{
    if s.len() > 0 {
        let t = s.drop_last();
        lemma_scanned_is_value(t);
        if scanned(s) is Ok {
            assert forall|i: int| 0 <= i < s.len() implies is_letter(#[trigger] s[i]) by {
                if i < s.len() - 1 {
                    assert(t[i] == s[i]);
                }
            }
        }
        if (forall|i: int| 0 <= i < s.len() ==> is_letter(#[trigger] s[i])) && bijective_value(s)
            <= u128::MAX + 1 {
            assert forall|i: int| 0 <= i < t.len() implies is_letter(#[trigger] t[i]) by {
                assert(t[i] == s[i]);
            }
            assert(is_letter(s[s.len() - 1]));
        }
    }
}

/// A number written in bijective base 26 and read again is the same number.
pub proof fn lemma_value_of_digits(k: nat)
    ensures
        bijective_value(bijective_digits(k)) == k,
        forall|i: int|
            0 <= i < bijective_digits(k).len() ==> is_letter(#[trigger] bijective_digits(k)[i]),
        k > 0 ==> bijective_digits(k).len() > 0,
    decreases k,
{
    if k > 0 {
        let rest = ((k - 1) / 26) as nat;
        let d = ((k - 1) % 26) as nat;
        lemma_value_of_digits(rest);
        let s = bijective_digits(k);
        assert(s == bijective_digits(rest).push(letter(d)));
        assert(s.drop_last() =~= bijective_digits(rest));
        assert(s.last() == letter(d));
        assert(letter_index(letter(d)) == d);
        assert forall|i: int| 0 <= i < s.len() implies is_letter(#[trigger] s[i]) by {
            if i < s.len() - 1 {
                assert(s[i] == bijective_digits(rest)[i]);
            }
        }
    }
}

/// A string of letters read in bijective base 26 and written again is the
/// same string.
pub proof fn lemma_digits_of_value(s: Seq<char>)
    requires
        forall|i: int| 0 <= i < s.len() ==> is_letter(#[trigger] s[i]),
    ensures
        bijective_digits(bijective_value(s)) == s,
    decreases s.len(),
{
    if s.len() > 0 {
        let t = s.drop_last();
        assert forall|i: int| 0 <= i < t.len() implies is_letter(#[trigger] t[i]) by {
            assert(t[i] == s[i]);
        }
        lemma_digits_of_value(t);
        let c = s.last();
        assert(is_letter(s[s.len() - 1]));
        let k = bijective_value(s);
        let v = bijective_value(t);
        let d = letter_index(c);
        assert(k - 1 == 26 * v + d);
        assert((k - 1) / 26 == v);
        assert((k - 1) % 26 == d as int);
        assert(letter(d) == c);
        assert(t.push(c) =~= s);
    }
}

/// Parsing the name of a rune gives the rune.
pub proof fn lemma_parse_format(rune: Rune)
    ensures
        is_name(name(rune.0 as nat)),
        parsed(name(rune.0 as nat)) == Ok::<Rune, RuneError>(rune),
{
    let k = (rune.0 + 1) as nat;
    lemma_value_of_digits(k);
    lemma_scanned_is_value(bijective_digits(k));
}

/// The name of the rune that a string parses to is that string; and every
/// name whose number fits in 128 bits parses.
pub proof fn lemma_format_parse(s: Seq<char>)
    ensures
        parsed(s) is Ok ==> is_name(s) && name(parsed(s)->Ok_0.0 as nat) == s,
        is_name(s) && number(s) <= u128::MAX ==> parsed(s) is Ok && parsed(s)->Ok_0.0 == number(s),
{
    lemma_scanned_is_value(s);
    if is_name(s) {
        lemma_digits_of_value(s);
        lemma_value_positive(s);
    }
}

/// A string with a letter in it has a bijective value above zero.
proof fn lemma_value_positive(s: Seq<char>)
    requires
        s.len() > 0,
    ensures
        bijective_value(s) > 0,
{
}

} // verus!
