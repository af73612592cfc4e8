//! Numbers as strings of decimal digits.

use vstd::prelude::*;
use vstd::string::StrSliceExecFns;

verus! {

/// Whether `c` is one of `0` to `9`.
pub open spec fn is_digit(c: char) -> bool {
    48 <= c as int <= 57
}

/// The digit for `d`.
pub open spec fn digit(d: nat) -> char {
    (d + 48) as char
}

/// `n` in decimal digits, without zeros in front.
pub open spec fn digits(n: nat) -> Seq<char>
    decreases n,
{
    if n < 10 {
        seq![digit(n)]
    } else {
        digits(n / 10).push(digit(n % 10))
    }
}

/// The number that the digits of `s` write, where `s` holds digits alone and
/// the number stays within 128 bits.
pub open spec fn scanned(s: Seq<char>) -> Option<nat>
    decreases s.len(),
{
    if s.len() == 0 {
        Some(0)
    } else {
        match scanned(s.drop_last()) {
            None => None,
            Some(v) => if !is_digit(s.last()) || v * 10 + (s.last() as int - 48) > u128::MAX {
                None
            } else {
                Some((v * 10 + (s.last() as int - 48)) as nat)
            },
        }
    }
}

/// The number that `s` writes: `s` holds one digit or more, nothing else, and
/// the number stays within 128 bits.
pub open spec fn parsed(s: Seq<char>) -> Option<u128> {
    if s.len() == 0 {
        None
    } else {
        match scanned(s) {
            Some(v) => Some(v as u128),
            None => None,
        }
    }
}

/// The digits of `d`, a list of digits, last digit first.
pub open spec fn reversed(d: Seq<u8>) -> Seq<char> {
    Seq::new(d.len(), |i: int| digit(d[d.len() - 1 - i] as nat))
}

/// Appends `n` in decimal digits to `out`.
pub fn append_decimal(out: &mut String, n: u128)
    ensures
        final(out)@ == old(out)@ + digits(n as nat),
{
    let mut list: Vec<u8> = Vec::new();
    let mut m: u128 = n;
    let ghost start = out@;
    while m >= 10
        invariant
            digits(m as nat) + reversed(list@) == digits(n as nat),
            forall|i: int| 0 <= i < list@.len() ==> list@[i] < 10,
        decreases m,
    {
        let d: u8 = (m % 10) as u8;
        proof {
            assert(digits((m / 10) as nat).push(digit(d as nat)) + reversed(list@) =~= digits(
                (m / 10) as nat,
            ) + reversed(list@.push(d)));
        }
        list.push(d);
        m = m / 10;
    }
    proof {
        assert(digits(m as nat) + reversed(list@) =~= reversed(list@.push(m as u8)));
    }
    list.push(m as u8);
    let mut i: usize = list.len();
    assert(reversed(list@).take(0) =~= Seq::<char>::empty());
    assert(out@ =~= start + reversed(list@).take(0));
    while i > 0
        invariant
            i <= list@.len(),
            out@ == start + reversed(list@).take(list@.len() - i),
            forall|i: int| 0 <= i < list@.len() ==> list@[i] < 10,
        decreases i,
    {
        i = i - 1;
        let c: char = (48u8 + list[i]) as char;
        proof {
            let all = reversed(list@);
            let done = list@.len() - i - 1;
            assert(all[done] == c);
            assert((start + all.take(done)).push(c) =~= start + all.take(done + 1));
        }
        out.push(c);
    }
    assert(reversed(list@).take(list@.len() as int) =~= reversed(list@));
}

/// `n` in decimal digits.
pub fn to_decimal(n: u128) -> (r: String)
    ensures
        r@ == digits(n as nat),
{
    let mut out: String = String::new();
    append_decimal(&mut out, n);
    assert(Seq::<char>::empty() + digits(n as nat) =~= digits(n as nat));
    out
}

/// The number that the characters of `s` from place `from` up to place `to`
/// write.
pub fn parse_decimal(s: &str, from: usize, to: usize) -> (r: Option<u128>)
    requires
        from <= to <= s@.len(),
    ensures
        r == parsed(s@.subrange(from as int, to as int)),
{
    if from == to {
        return None;
    }
    let ghost text = s@.subrange(from as int, to as int);
    let mut v: u128 = 0;
    let mut i: usize = from;
    assert(text.take(0) =~= Seq::<char>::empty());
    while i < to
        invariant
            from <= i <= to <= s@.len(),
            text == s@.subrange(from as int, to as int),
            scanned(text.take(i - from)) == Some(v as nat),
        decreases to - i,
    {
        let c: char = s.get_char(i);
        let code: u32 = c as u32;
        let ghost next = text.take(i - from + 1);
        proof {
            assert(next.drop_last() =~= text.take(i - from));
            assert(next.last() == c);
        }
        if code < 48 || code > 57 {
            proof {
                lemma_scan_stops(text, i - from + 1);
            }
            return None;
        }
        let grown: Option<u128> = match v.checked_mul(10) {
            Some(t) => t.checked_add((code - 48) as u128),
            None => None,
        };
        match grown {
            Some(g) => {
                v = g;
            },
            None => {
                proof {
                    lemma_scan_stops(text, i - from + 1);
                }
                return None;
            },
        }
        i = i + 1;
    }
    assert(text.take(to - from) =~= text);
    Some(v)
}

/// Once reading has stopped at a prefix, it has stopped for the whole string.
proof fn lemma_scan_stops(s: Seq<char>, i: int)
    requires
        0 <= i <= s.len(),
        scanned(s.take(i)) is None,
    ensures
        scanned(s) is None,
    decreases s.len() - i,
{
    if i < s.len() {
        assert(s.take(i + 1).drop_last() =~= s.take(i));
        lemma_scan_stops(s, i + 1);
    } else {
        assert(s.take(i) =~= s);
    }
}

/// The digits of a number hold digits alone, and no colon.
pub proof fn lemma_digits(n: nat)
    ensures
        digits(n).len() > 0,
        forall|i: int| 0 <= i < digits(n).len() ==> is_digit(#[trigger] digits(n)[i]),
        n <= u128::MAX ==> scanned(digits(n)) == Some(n),
    decreases n,
{
    let s = digits(n);
    if n >= 10 {
        lemma_digits(n / 10);
        assert(s.drop_last() =~= digits(n / 10));
        assert(s.last() == digit(n % 10));
        assert(s.last() as int - 48 == n % 10);
        assert forall|i: int| 0 <= i < s.len() implies is_digit(#[trigger] s[i]) by {
            if i < s.len() - 1 {
                assert(s[i] == digits(n / 10)[i]);
            }
        }
        if n <= u128::MAX {
            assert(scanned(s.drop_last()) == Some(n / 10));
            assert((n / 10) * 10 + n % 10 == n);
        }
    } else {
        assert(s.drop_last() =~= Seq::<char>::empty());
        assert(s.last() == digit(n));
        assert(s.last() as int - 48 == n);
        assert(scanned(s.drop_last()) == Some(0nat));
    }
}

/// A number written in decimal digits and read again is the same number.
pub proof fn lemma_parse_digits(n: u128)
    ensures
        parsed(digits(n as nat)) == Some(n),
{
    lemma_digits(n as nat);
}

} // verus!
