//! Rune names with spacers: the name, and a mask that tells after which of
//! its letters a bullet is shown. Spacers change how a name looks, not which
//! rune it is.

use vstd::prelude::*;
use vstd::string::StrSliceExecFns;
use crate::rune::Rune;
use crate::rune::RuneError;
use crate::rune::is_letter;
use crate::rune::name;
use crate::rune::parsed;

verus! {

/// A rune and the spacers of its name. Bit `i` of `spacers` stands for a
/// bullet after letter `i` of the name.
#[derive(Copy, Clone, Debug, PartialEq, Eq, Structural, PartialOrd, Ord)]
pub struct SpacedRune {
    pub rune: Rune,
    pub spacers: u32,
}

/// Why a string is no name with spacers.
#[derive(Copy, Clone, Debug, PartialEq, Eq, Structural)]
pub enum SpacedRuneError {
    /// A spacer stands before the first letter.
    LeadingSpacer,
    /// A spacer stands behind the last letter.
    TrailingSpacer,
    /// Two spacers stand together.
    DoubleSpacer,
    /// The string holds this character, which is no letter and no spacer.
    Character(char),
    /// The letters are no rune name.
    Rune(RuneError),
}

/// Whether `c` is a spacer: a full stop or a bullet.
pub open spec fn is_spacer(c: char) -> bool {
    c == '.' || c == '\u{2022}'
}

/// Two to the power `k`.
pub open spec fn pow2(k: nat) -> nat
    decreases k,
{
    if k == 0 {
        1
    } else {
        2 * pow2((k - 1) as nat)
    }
}

/// What has been read of a name with spacers.
pub struct Scan {
    /// The letters read.
    pub letters: Seq<char>,
    /// The mask of the spacers read.
    pub spacers: nat,
    /// Whether the last character read is a spacer.
    pub spaced: bool,
}

/// Reading `s` from the left: the letters and the spacers, or what stops the
/// reading first. A spacer behind more than 32 letters stops it, for the name
/// is then too long to be one.
pub open spec fn scan(s: Seq<char>) -> Result<Scan, SpacedRuneError>
    decreases s.len(),
{
    if s.len() == 0 {
        Ok(Scan { letters: Seq::empty(), spacers: 0, spaced: false })
    } else {
        match scan(s.drop_last()) {
            Err(e) => Err(e),
            Ok(state) => {
                let c = s.last();
                if is_letter(c) {
                    Ok(
                        Scan {
                            letters: state.letters.push(c),
                            spacers: state.spacers,
                            spaced: false,
                        },
                    )
                } else if is_spacer(c) {
                    if state.letters.len() == 0 {
                        Err(SpacedRuneError::LeadingSpacer)
                    } else if state.spaced {
                        Err(SpacedRuneError::DoubleSpacer)
                    } else if state.letters.len() > 32 {
                        Err(SpacedRuneError::Rune(RuneError::Range))
                    } else {
                        Ok(
                            Scan {
                                letters: state.letters,
                                spacers: state.spacers + pow2((state.letters.len() - 1) as nat),
                                spaced: true,
                            },
                        )
                    }
                } else {
                    Err(SpacedRuneError::Character(c))
                }
            },
        }
    }
}

/// What parsing `s` as a name with spacers gives.
pub open spec fn parsed_spaced(s: Seq<char>) -> Result<SpacedRune, SpacedRuneError> {
    match scan(s) {
        Err(e) => Err(e),
        Ok(state) => if state.spaced {
            Err(SpacedRuneError::TrailingSpacer)
        } else {
            match parsed(state.letters) {
                Err(e) => Err(SpacedRuneError::Rune(e)),
                Ok(rune) => Ok(SpacedRune { rune, spacers: state.spacers as u32 }),
            }
        },
    }
}

/// Whether the mask `spacers` has a bullet after letter `i`.
pub open spec fn spaced_after(spacers: u32, i: nat) -> bool {
    (spacers as nat / pow2(i)) % 2 == 1
}

/// The first `upto` letters of `letters` with the bullets of `spacers` among
/// them; none behind the last letter of `letters`.
pub open spec fn spaced(letters: Seq<char>, spacers: u32, upto: nat) -> Seq<char>
    decreases upto,
{
    if upto == 0 {
        Seq::empty()
    } else {
        let i = (upto - 1) as nat;
        let before = spaced(letters, spacers, i).push(letters[i as int]);
        if i + 1 < letters.len() && spaced_after(spacers, i) {
            before.push('\u{2022}')
        } else {
            before
        }
    }
}

proof fn lemma_pow2_step(k: nat)
    ensures
        pow2(k + 1) == 2 * pow2(k),
        pow2(k) >= 1,
    decreases k,
{
    if k > 0 {
        lemma_pow2_step((k - 1) as nat);
    }
}

proof fn lemma_pow2_monotonic(i: nat, j: nat)
    requires
        i <= j,
    ensures
        pow2(i) <= pow2(j),
    decreases j,
{
    if i < j {
        lemma_pow2_monotonic(i, (j - 1) as nat);
        lemma_pow2_step((j - 1) as nat);
    }
}

proof fn lemma_pow2_32()
    ensures
        pow2(31) == 0x8000_0000,
        pow2(32) == 0x1_0000_0000,
{
    reveal_with_fuel(pow2, 33);
}

/// Once reading has stopped at a prefix, it has stopped for the whole string.
proof fn lemma_scan_stops(s: Seq<char>, i: int)
    requires
        0 <= i <= s.len(),
        scan(s.take(i)) is Err,
    ensures
        scan(s) == scan(s.take(i)),
    decreases s.len() - i,
{
    if i < s.len() {
        assert(s.take(i + 1).drop_last() =~= s.take(i));
        lemma_scan_stops(s, i + 1);
    } else {
        assert(s.take(i) =~= s);
    }
}

/// Two to the power `k`, for `k` up to 31.
fn power_of_two(k: u32) -> (r: u32)
    requires
        k <= 31,
    ensures
        r == pow2(k as nat),
{
    let mut r: u32 = 1;
    let mut i: u32 = 0;
    while i < k
        invariant
            i <= k <= 31,
            r == pow2(i as nat),
        decreases k - i,
    {
        proof {
            lemma_pow2_step(i as nat);
            lemma_pow2_monotonic((i + 1) as nat, 31);
            lemma_pow2_32();
        }
        r = r * 2;
        i = i + 1;
    }
    r
}

impl SpacedRune {
    /// The rune with these spacers.
    pub fn new(rune: Rune, spacers: u32) -> (r: SpacedRune)
        ensures
            r == (SpacedRune { rune, spacers }),
    {
        SpacedRune { rune, spacers }
    }

    /// The name with spacers that `s` writes.
    pub fn from_str(s: &str) -> (r: Result<SpacedRune, SpacedRuneError>)
        ensures
            r == parsed_spaced(s@),
    {
        let len: usize = s.unicode_len();
        let mut letters: String = String::new();
        let mut count: usize = 0;
        let mut spacers: u32 = 0;
        let mut spaced: bool = false;
        let mut i: usize = 0;
        assert(s@.take(0) =~= Seq::<char>::empty());
        proof {
            lemma_pow2_step(0);
        }
        while i < len
            invariant
                i <= len == s@.len(),
                count == letters@.len(),
                count <= i,
                scan(s@.take(i as int)) == Ok::<Scan, SpacedRuneError>(
                    Scan { letters: letters@, spacers: spacers as nat, spaced },
                ),
                count == 0 ==> spacers == 0 && !spaced,
                1 <= count <= 32 ==> spacers < pow2(
                    if spaced {
                        count as nat
                    } else {
                        (count - 1) as nat
                    },
                ),
                count > 32 ==> !spaced && spacers < pow2(32),
            decreases len - i,
        {
            let c: char = s.get_char(i);
            let ghost next = s@.take(i + 1);
            proof {
                assert(next.drop_last() =~= s@.take(i as int));
                assert(next.last() == c);
                lemma_pow2_32();
            }
            let code: u32 = c as u32;
            if 65 <= code && code <= 90 {
                proof {
                    if count >= 1 && count <= 32 {
                        lemma_pow2_monotonic((count - 1) as nat, count as nat);
                        lemma_pow2_monotonic(count as nat, 32);
                    }
                }
                letters.push(c);
                count = count + 1;
                spaced = false;
            } else if c == '.' || c == '\u{2022}' {
                if count == 0 {
                    proof {
                        lemma_scan_stops(s@, i + 1);
                    }
                    return Err(SpacedRuneError::LeadingSpacer);
                }
                if spaced {
                    proof {
                        lemma_scan_stops(s@, i + 1);
                    }
                    return Err(SpacedRuneError::DoubleSpacer);
                }
                if count > 32 {
                    proof {
                        lemma_scan_stops(s@, i + 1);
                    }
                    return Err(SpacedRuneError::Rune(RuneError::Range));
                }
                let flag: u32 = power_of_two((count - 1) as u32);
                proof {
                    lemma_pow2_step((count - 1) as nat);
                    lemma_pow2_monotonic(count as nat, 32);
                }
                spacers = spacers + flag;
                spaced = true;
            } else {
                proof {
                    lemma_scan_stops(s@, i + 1);
                }
                return Err(SpacedRuneError::Character(c));
            }
            i = i + 1;
        }
        assert(s@.take(len as int) =~= s@);
        if spaced {
            return Err(SpacedRuneError::TrailingSpacer);
        }
        match Rune::from_str(letters.as_str()) {
            Err(e) => Err(SpacedRuneError::Rune(e)),
            Ok(rune) => Ok(SpacedRune { rune, spacers }),
        }
    }

    /// The name, with a bullet after each letter that has a spacer and is not
    /// the last.
    pub fn to_string(&self) -> (r: String)
        ensures
            r@ == spaced(name(self.rune.0 as nat), self.spacers, name(self.rune.0 as nat).len()),
    {
        let letters: String = self.rune.to_string();
        let len: usize = letters.as_str().unicode_len();
        let mut out: String = String::new();
        let mut rest: u32 = self.spacers;
        let mut i: usize = 0;
        proof {
            lemma_pow2_step(0);
            assert(self.spacers as nat / 1 == self.spacers as nat);
        }
        while i < len
            invariant
                i <= len == letters@.len(),
                out@ == spaced(letters@, self.spacers, i as nat),
                rest as nat == self.spacers as nat / pow2(i as nat),
            decreases len - i,
        {
            let c: char = letters.as_str().get_char(i);
            out.push(c);
            if i + 1 < len && rest % 2 == 1 {
                out.push('\u{2022}');
            }
            proof {
                lemma_pow2_step(i as nat);
                let p = pow2(i as nat);
                let whole = self.spacers as nat;
                assert(whole / (2 * p) == (whole / p) / 2) by (nonlinear_arith)
                    requires
                        p >= 1,
                ;
            }
            rest = rest / 2;
            i = i + 1;
        }
        out
    }
}

/// The bits of `x` below place `i + 1` are those below place `i` and the bit
/// at place `i`.
proof fn lemma_low_bits(x: u32, i: nat)
    ensures
        (x as nat) % pow2(i + 1) == (x as nat) % pow2(i) + if spaced_after(x, i) {
            pow2(i)
        } else {
            0
        },
        spaced_after(x, i) ==> i < 32,
        pow2(i) >= 1,
{
    lemma_pow2_step(i);
    let p = pow2(i) as int;
    let whole = x as int;
    vstd::arithmetic::div_mod::lemma_breakdown(whole, p, 2);
    assert(p * 2 == 2 * p);
    assert((whole / p) % 2 == 0 || (whole / p) % 2 == 1);
    assert(p * 1 == p && p * 0 == 0);
    if spaced_after(x, i) && i >= 32 {
        lemma_pow2_monotonic(32, i);
        lemma_pow2_32();
        assert(whole / p == 0) by (nonlinear_arith)
            requires
                0 <= whole < p,
        ;
    }
}

/// What reading gives on the first `upto` letters of `letters` written with
/// the bullets of `spacers`.
proof fn lemma_scan_spaced(letters: Seq<char>, spacers: u32, upto: nat)
    requires
        upto <= letters.len(),
        letters.len() > 0,
        forall|i: int| 0 <= i < letters.len() ==> is_letter(#[trigger] letters[i]),
    ensures
        scan(spaced(letters, spacers, upto)) == Ok::<Scan, SpacedRuneError>(
            Scan {
                letters: letters.take(upto as int),
                spacers: (spacers as nat) % pow2(
                    if upto < letters.len() {
                        upto
                    } else {
                        (upto - 1) as nat
                    },
                ),
                spaced: 1 <= upto < letters.len() && spaced_after(spacers, (upto - 1) as nat),
            },
        ),
    decreases upto,
{
    if upto == 0 {
        assert(letters.take(0) =~= Seq::<char>::empty());
        assert(pow2(0) == 1);
        assert((spacers as nat) % 1 == 0);
    } else {
        let i = (upto - 1) as nat;
        lemma_scan_spaced(letters, spacers, i);
        lemma_low_bits(spacers, i);
        let low = (spacers as nat) % pow2(i);
        let before = spaced(letters, spacers, i);
        let lettered = before.push(letters[i as int]);
        assert(lettered.drop_last() =~= before);
        assert(lettered.last() == letters[i as int]);
        assert(is_letter(letters[i as int]));
        assert(letters.take(i as int).push(letters[i as int]) =~= letters.take(upto as int));
        assert(scan(before) is Ok && scan(before)->Ok_0.spacers == low);
        assert(scan(lettered) == Ok::<Scan, SpacedRuneError>(
            Scan { letters: letters.take(upto as int), spacers: low, spaced: false },
        ));
        if i + 1 < letters.len() && spaced_after(spacers, i) {
            let bulleted = lettered.push('\u{2022}');
            assert(bulleted.drop_last() =~= lettered);
            assert(bulleted.last() == '\u{2022}');
            assert(!is_letter('\u{2022}'));
            assert(is_spacer('\u{2022}'));
            assert(letters.take(upto as int).len() == upto);
            assert(scan(bulleted) == Ok::<Scan, SpacedRuneError>(
                Scan { letters: letters.take(upto as int), spacers: low + pow2(i), spaced: true },
            ));
            assert(spaced(letters, spacers, upto) == bulleted);
        } else {
            assert(spaced(letters, spacers, upto) == lettered);
        }
    }
}

/// Parsing what a name with spacers is written as gives the rune, and the
/// spacers that stand between two letters of the name. So a name with
/// spacers that has no spacer at or behind its last letter is read back as
/// it is.
pub proof fn lemma_parse_spaced(spaced_rune: SpacedRune)
    ensures
        parsed_spaced(
            spaced(
                name(spaced_rune.rune.0 as nat),
                spaced_rune.spacers,
                name(spaced_rune.rune.0 as nat).len(),
            ),
        ) == Ok::<SpacedRune, SpacedRuneError>(
            SpacedRune {
                rune: spaced_rune.rune,
                spacers: ((spaced_rune.spacers as nat) % pow2(
                    (name(spaced_rune.rune.0 as nat).len() - 1) as nat,
                )) as u32,
            },
        ),
        (spaced_rune.spacers as nat) < pow2((name(spaced_rune.rune.0 as nat).len() - 1) as nat)
            ==> parsed_spaced(
            spaced(
                name(spaced_rune.rune.0 as nat),
                spaced_rune.spacers,
                name(spaced_rune.rune.0 as nat).len(),
            ),
        ) == Ok::<SpacedRune, SpacedRuneError>(spaced_rune),
{
    let letters = name(spaced_rune.rune.0 as nat);
    crate::rune::lemma_parse_format(spaced_rune.rune);
    lemma_scan_spaced(letters, spaced_rune.spacers, letters.len());
    assert(letters.take(letters.len() as int) =~= letters);
    let last = (letters.len() - 1) as nat;
    lemma_low_bits(spaced_rune.spacers, last);
    let whole = spaced_rune.spacers as nat;
    assert(whole % pow2(last) <= whole) by (nonlinear_arith)
        requires
            pow2(last) >= 1,
    ;
    if whole < pow2(last) {
        vstd::arithmetic::div_mod::lemma_small_mod(whole, pow2(last));
    }
}

/// Whether `s` holds no full stop: every spacer in it is a bullet.
pub open spec fn bulleted(s: Seq<char>) -> bool {
    forall|i: int| 0 <= i < s.len() ==> #[trigger] s[i] != '.'
}

proof fn lemma_pow2_sum(a: nat, b: nat)
    ensures
        pow2(a + b) == pow2(a) * pow2(b),
    decreases b,
{
    if b == 0 {
        assert(pow2(a) * 1 == pow2(a));
    } else {
        lemma_pow2_sum(a, (b - 1) as nat);
        lemma_pow2_step((a + b - 1) as nat);
        lemma_pow2_step((b - 1) as nat);
        let x = pow2(a);
        let y = pow2((b - 1) as nat);
        assert(2 * (x * y) == x * (2 * y)) by (nonlinear_arith);
    }
}

/// A mask below two to the power `k` has no bit at place `k`; with that
/// power added it has one, and the bits below are as they were.
proof fn lemma_bit_added(x: u32, k: nat, i: nat)
    requires
        (x as nat) < pow2(k),
        k < 32,
        i < k,
    ensures
        x + pow2(k) < pow2(32),
        !spaced_after(x, k),
        spaced_after((x + pow2(k)) as u32, k),
        spaced_after((x + pow2(k)) as u32, i) == spaced_after(x, i),
{
    lemma_pow2_32();
    lemma_pow2_step(k);
    lemma_pow2_monotonic(k + 1, 32);
    let whole = x as int;
    let top = pow2(k) as int;
    assert(whole / top == 0) by (nonlinear_arith)
        requires
            0 <= whole < top,
    ;
    assert((whole + top) / top == 1) by (nonlinear_arith)
        requires
            0 <= whole < top,
    ;
    let low = pow2(i) as int;
    let rest = (k - i - 1) as nat;
    lemma_pow2_sum(i, (k - i) as nat);
    lemma_pow2_step(rest);
    lemma_pow2_step(i);
    let half = pow2(rest) as int;
    assert(top == low * (2 * half));
    assert(low * (2 * half) == (2 * half) * low) by (nonlinear_arith);
    vstd::arithmetic::div_mod::lemma_hoist_over_denominator(whole, 2 * half, low as nat);
    assert((whole + top) / low == whole / low + 2 * half);
    assert((whole / low + 2 * half) % 2 == (whole / low) % 2) by (nonlinear_arith);
}

/// Two masks that agree on the places between the letters write a name
/// alike.
proof fn lemma_spaced_alike(letters: Seq<char>, a: u32, b: u32, upto: nat)
    requires
        forall|i: nat| i < upto && i + 1 < letters.len() ==> spaced_after(a, i) == spaced_after(b, i),
    ensures
        spaced(letters, a, upto) == spaced(letters, b, upto),
    decreases upto,
{
    if upto > 0 {
        lemma_spaced_alike(letters, a, b, (upto - 1) as nat);
    }
}

/// With one more letter behind it, a name is written as before, and with a
/// bullet behind what was its last letter where the mask has one there.
proof fn lemma_spaced_longer(letters: Seq<char>, c: char, spacers: u32, upto: nat)
    requires
        upto <= letters.len(),
    ensures
        spaced(letters.push(c), spacers, upto) == if 1 <= upto == letters.len() && spaced_after(
            spacers,
            (upto - 1) as nat,
        ) {
            spaced(letters, spacers, upto).push('\u{2022}')
        } else {
            spaced(letters, spacers, upto)
        },
    decreases upto,
{
    if upto > 0 {
        lemma_spaced_longer(letters, c, spacers, (upto - 1) as nat);
        assert(letters.push(c)[upto - 1] == letters[upto - 1]);
    }
}

/// What was read of a string without full stops writes that string: the
/// letters with the bullets of the mask, and a bullet at the end where the
/// last character read is one.
proof fn lemma_scan_written(s: Seq<char>)
    requires
        bulleted(s),
        scan(s) is Ok,
    ensures
        ({
            let state = scan(s)->Ok_0;
            let count = state.letters.len();
            &&& state.spacers < pow2(32)
            &&& count == 0 ==> state.spacers == 0 && !state.spaced
            &&& count >= 1 && !state.spaced ==> state.spacers < pow2((count - 1) as nat)
            &&& state.spaced ==> 1 <= count <= 32 && pow2((count - 1) as nat) <= state.spacers
                < pow2(count)
            &&& s == if state.spaced {
                spaced(state.letters, state.spacers as u32, count).push('\u{2022}')
            } else {
                spaced(state.letters, state.spacers as u32, count)
            }
        }),
    decreases s.len(),
{
    lemma_pow2_32();
    if s.len() == 0 {
        assert(pow2(0) == 1);
        assert(s =~= Seq::<char>::empty());
    } else {
        let front = s.drop_last();
        let c = s.last();
        assert(scan(front) is Ok);
        assert forall|i: int| 0 <= i < front.len() implies #[trigger] front[i] != '.' by {
            assert(front[i] == s[i]);
        }
        lemma_scan_written(front);
        let before = scan(front)->Ok_0;
        let after = scan(s)->Ok_0;
        let count = before.letters.len();
        let mask = before.spacers as u32;
        assert(s =~= front.push(c));
        if is_letter(c) {
            lemma_spaced_longer(before.letters, c, mask, count);
            if count >= 1 {
                let last = (count - 1) as nat;
                lemma_pow2_step(last);
                let whole = before.spacers as int;
                let top = pow2(last) as int;
                if before.spaced {
                    assert(whole / top == 1) by (nonlinear_arith)
                        requires
                            top <= whole < 2 * top,
                    ;
                } else {
                    assert(whole / top == 0) by (nonlinear_arith)
                        requires
                            0 <= whole < top,
                    ;
                }
            } else {
                assert(pow2(0) == 1);
            }
            assert(after.letters == before.letters.push(c));
            assert(spaced(after.letters, mask, count + 1) == spaced(after.letters, mask, count).push(
                c,
            ));
        } else {
            assert(is_spacer(c));
            assert(s[s.len() - 1] != '.');
            assert(c == '\u{2022}');
            let last = (count - 1) as nat;
            lemma_pow2_step(last);
            lemma_pow2_monotonic(count, 32);
            let more = (mask + pow2(last)) as u32;
            assert forall|i: nat| i < count && i + 1 < before.letters.len() implies spaced_after(
                more,
                i,
            ) == spaced_after(mask, i) by {
                lemma_bit_added(mask, last, i);
            }
            lemma_spaced_alike(before.letters, more, mask, count);
            assert(after.spacers == before.spacers + pow2(last));
        }
    }
}

/// Writing the name with spacers that a string without full stops parses
/// to gives that string.
pub proof fn lemma_spaced_parse(s: Seq<char>)
    requires
        bulleted(s),
        parsed_spaced(s) is Ok,
    ensures
        spaced(
            name(parsed_spaced(s)->Ok_0.rune.0 as nat),
            parsed_spaced(s)->Ok_0.spacers,
            name(parsed_spaced(s)->Ok_0.rune.0 as nat).len(),
        ) == s,
{
    let state = scan(s)->Ok_0;
    lemma_scan_written(s);
    lemma_pow2_32();
    crate::rune::lemma_format_parse(state.letters);
}

} // verus!
