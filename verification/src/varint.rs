//! Variable-length encoding of unsigned 128-bit integers: seven data bits per
//! byte, least significant group first, the high bit of a byte set when another
//! byte follows.

use vstd::prelude::*;

verus! {

/// Why a buffer does not start with an encoded integer.
#[derive(Copy, Clone, Debug, PartialEq, Eq, Structural)]
pub enum VarintError {
    /// More than nineteen bytes carry a continuation bit.
    Overlong,
    /// The nineteenth byte holds bits beyond the 128th.
    Overflow,
    /// The buffer ends in a byte that announces another one.
    Unterminated,
}

/// 128 to the power `k`.
pub open spec fn pow128(k: nat) -> nat
    decreases k,
{
    if k == 0 {
        1
    } else {
        128 * pow128((k - 1) as nat)
    }
}

/// The bytes that encode `n`.
pub open spec fn encoding(n: nat) -> Seq<u8>
    decreases n,
{
    if n < 128 {
        seq![n as u8]
    } else {
        seq![(n % 128 + 128) as u8] + encoding(n / 128)
    }
}

/// The index of the first byte of `b` without a continuation bit, or the
/// length of `b` where every byte has one.
pub open spec fn first_end(b: Seq<u8>) -> nat
    decreases b.len(),
{
    if b.len() == 0 || b[0] < 128 {
        0
    } else {
        1 + first_end(b.skip(1))
    }
}

/// The number that the leading bytes of `b` spell, up to and including the
/// first byte without a continuation bit.
pub open spec fn value(b: Seq<u8>) -> nat
    decreases b.len(),
{
    if b.len() == 0 {
        0
    } else if b[0] < 128 {
        b[0] as nat
    } else {
        (b[0] - 128) as nat + 128 * value(b.skip(1))
    }
}

/// What decoding the front of `b` gives: the number and the count of bytes it
/// took, or the reason why there is none.
pub open spec fn decoded(b: Seq<u8>) -> Result<(u128, usize), VarintError> {
    let k = first_end(b);
    if k >= 18 && b.len() > 18 && b[18] % 128 >= 4 {
        Err(VarintError::Overflow)
    } else if k >= 19 && b.len() > 19 {
        Err(VarintError::Overlong)
    } else if k >= b.len() {
        Err(VarintError::Unterminated)
    } else {
        Ok((value(b) as u128, (k + 1) as usize))
    }
}

proof fn lemma_pow128_values()
    ensures
        pow128(0) == 1,
        pow128(1) == 128,
        pow128(17) == 0x80_0000_0000_0000_0000_0000_0000_0000,
        pow128(18) == 0x4000_0000_0000_0000_0000_0000_0000_0000,
        pow128(19) == 0x20_0000_0000_0000_0000_0000_0000_0000_0000,
{
    reveal_with_fuel(pow128, 20);
}

proof fn lemma_pow128_step(k: nat)
    ensures
        pow128(k + 1) == 128 * pow128(k),
        pow128(k) >= 1,
    decreases k,
{
    if k > 0 {
        lemma_pow128_step((k - 1) as nat);
    }
}

proof fn lemma_pow128_monotonic(i: nat, j: nat)
    requires
        i <= j,
    ensures
        pow128(i) <= pow128(j),
    decreases j,
{
    if i < j {
        lemma_pow128_monotonic(i, (j - 1) as nat);
        lemma_pow128_step((j - 1) as nat);
    }
}

/// The value of a buffer whose first `i` bytes all continue splits into what
/// those bytes hold and what follows them.
proof fn lemma_value_split(b: Seq<u8>, i: nat)
    requires
        i <= b.len(),
        forall|j: int| 0 <= j < i ==> b[j] >= 128,
    ensures
        first_end(b) == i + first_end(b.skip(i as int)),
        value(b) == low_value(b, i) + pow128(i) * value(b.skip(i as int)),
        low_value(b, i) < pow128(i),
    decreases i,
{
    if i == 0 {
        assert(b.skip(0) =~= b);
        assert(pow128(0) == 1);
        assert(1 * value(b) == value(b));
    } else {
        let k = (i - 1) as nat;
        lemma_value_split(b, k);
        let t = b.skip(k as int);
        assert(t[0] == b[k as int]);
        assert(t.skip(1) =~= b.skip(i as int));
        lemma_pow128_step(k);
        let p = pow128(k);
        let v = value(b.skip(i as int));
        let d = (b[k as int] - 128) as nat;
        assert(d == (b[k as int] % 128) as nat);
        assert(value(t) == d + 128 * v);
        assert(p * (d + 128 * v) == p * d + (128 * p) * v) by (nonlinear_arith);
        assert(p * d <= p * 127) by (nonlinear_arith)
            requires
                d <= 127,
        ;
        assert(low_value(b, i) == low_value(b, k) + p * d);
        assert(pow128(i) == 128 * p);
        assert(value(b) == low_value(b, k) + p * (d + 128 * v));
        assert(pow128(i) * v == (128 * p) * v);
    }
}

/// The number held by the first `i` bytes of `b`, each taken without its
/// continuation bit.
pub open spec fn low_value(b: Seq<u8>, i: nat) -> nat
    decreases i,
{
    if i == 0 {
        0
    } else {
        low_value(b, (i - 1) as nat) + pow128((i - 1) as nat) * ((b[i - 1] % 128) as nat)
    }
}

/// Appends the encoding of `n` to `v`.
pub fn encode_to_vec(n: u128, v: &mut Vec<u8>)
    ensures
        final(v)@ == old(v)@ + encoding(n as nat),
{
    let mut n: u128 = n;
    let ghost start = v@;
    let ghost whole = n as nat;
    while n >= 128
        invariant
            v@ + encoding(n as nat) == start + encoding(whole),
        decreases n,
    {
        let byte: u8 = (n % 128 + 128) as u8;
        proof {
            assert(encoding(n as nat) == seq![byte] + encoding((n / 128) as nat));
            assert(v@.push(byte) + encoding((n / 128) as nat) =~= v@ + (seq![byte] + encoding(
                (n / 128) as nat,
            )));
        }
        v.push(byte);
        n = n / 128;
    }
    proof {
        assert(encoding(n as nat) == seq![n as u8]);
        assert(v@.push(n as u8) =~= v@ + seq![n as u8]);
    }
    v.push(n as u8);
}

/// The encoding of `n`.
pub fn encode(n: u128) -> (r: Vec<u8>)
    ensures
        r@ == encoding(n as nat),
{
    let mut v: Vec<u8> = Vec::new();
    encode_to_vec(n, &mut v);
    assert(v@ =~= encoding(n as nat));
    v
}

/// Decodes the integer at the front of `buffer`.
pub fn decode(buffer: &[u8]) -> (r: Result<(u128, usize), VarintError>)
    ensures
        r == decoded(buffer@),
{
    let mut n: u128 = 0;
    let mut p: u128 = 1;
    let mut i: usize = 0;
    proof {
        lemma_pow128_values();
        lemma_value_split(buffer@, 0);
    }
    while i < buffer.len()
        invariant
            i <= buffer@.len(),
            i <= 19,
            forall|j: int| 0 <= j < i ==> buffer@[j] >= 128,
            n == low_value(buffer@, i as nat),
            i <= 18 ==> p == pow128(i as nat),
            i == 19 ==> buffer@[18] % 128 < 4,
        decreases buffer@.len() - i,
    {
        proof {
            lemma_value_split(buffer@, i as nat);
            lemma_pow128_values();
            if i <= 17 {
                lemma_pow128_monotonic(i as nat, 17);
            }
        }
        if i > 18 {
            assert(first_end(buffer@) >= 19);
            return Err(VarintError::Overlong);
        }
        let byte: u8 = buffer[i];
        let low: u8 = byte % 128;
        if i == 18 && low >= 4 {
            return Err(VarintError::Overflow);
        }
        proof {
            let pn = p as nat;
            let ln = low as nat;
            assert(pn * ln <= pn * 127) by (nonlinear_arith)
                requires
                    ln <= 127,
            ;
            if i == 18 {
                assert(pn * ln <= pn * 3) by (nonlinear_arith)
                    requires
                        ln <= 3,
                ;
            }
            assert(pn * ln == ln * pn) by (nonlinear_arith);
        }
        n = n + (low as u128) * p;
        if byte < 128 {
            proof {
                let t = buffer@.skip(i as int);
                assert(t[0] == byte);
                assert(first_end(t) == 0);
                assert(value(t) == byte as nat);
                assert(first_end(buffer@) == i);
                assert(value(buffer@) == n);
            }
            return Ok((n, i + 1));
        }
        if i < 18 {
            proof {
                lemma_pow128_step(i as nat);
                lemma_pow128_monotonic((i + 1) as nat, 18);
            }
            p = p * 128;
        }
        i = i + 1;
    }
    proof {
        lemma_value_split(buffer@, i as nat);
        assert(buffer@.skip(i as int).len() == 0);
        assert(first_end(buffer@) == buffer@.len());
    }
    Err(VarintError::Unterminated)
}

/// How `encoding(n)` looks to the decoder: it ends at its last byte, holds `n`
/// and has at most `k` bytes where `n` is below 128 to the power `k`.
proof fn lemma_encoding_shape(n: nat, k: nat)
    requires
        k >= 1,
        n < pow128(k),
    ensures
        1 <= encoding(n).len() <= k,
        first_end(encoding(n)) == encoding(n).len() - 1,
        value(encoding(n)) == n,
    decreases n,
{
    let e = encoding(n);
    if n < 128 {
        assert(e[0] == n as u8);
    } else {
        let m = n / 128;
        let head = (n % 128 + 128) as u8;
        lemma_pow128_step((k - 1) as nat);
        if k == 1 {
            assert(pow128(1) == 128) by {
                reveal_with_fuel(pow128, 2);
            }
        }
        assert(m < pow128((k - 1) as nat));
        lemma_encoding_shape(m, (k - 1) as nat);
        assert(e == seq![head] + encoding(m));
        assert(e[0] == head);
        assert(e.skip(1) =~= encoding(m));
    }
}

/// Decoding what `encode` wrote gives the number back, and the count of bytes
/// that were written.
pub proof fn lemma_decode_encode(n: u128)
    ensures
        decoded(encoding(n as nat)) == Ok::<(u128, usize), VarintError>(
            (n, encoding(n as nat).len() as usize),
        ),
        1 <= encoding(n as nat).len() <= 19,
{
    lemma_pow128_values();
    lemma_encoding_shape(n as nat, 19);
    let e = encoding(n as nat);
    if e.len() == 19 {
        lemma_tail_bound(e, n as nat);
    }
}

/// A nineteen-byte encoding of a number below 2 to the power 128 ends in a
/// byte below four.
proof fn lemma_tail_bound(e: Seq<u8>, n: nat)
    requires
        e.len() == 19,
        first_end(e) == 18,
        value(e) == n,
        n < 0x1_0000_0000_0000_0000_0000_0000_0000_0000,
    ensures
        e[18] % 128 < 4,
{
    lemma_first_end_continues(e, 18);
    lemma_value_split(e, 18);
    lemma_pow128_values();
    let t = e.skip(18);
    assert(t[0] == e[18]);
    lemma_first_end_stops(e);
    assert(value(t) == e[18] as nat);
    let p = pow128(18);
    let last = e[18] as nat;
    if last >= 4 {
        assert(p * last >= p * 4) by (nonlinear_arith)
            requires
                last >= 4,
        ;
    }
}

/// Every byte before the first end has a continuation bit.
proof fn lemma_first_end_continues(b: Seq<u8>, i: nat)
    requires
        i <= first_end(b),
        i <= b.len(),
    ensures
        forall|j: int| 0 <= j < i ==> b[j] >= 128,
    decreases i,
{
    if i > 0 {
        assert(b[0] >= 128);
        let t = b.skip(1);
        lemma_first_end_continues(t, (i - 1) as nat);
        assert forall|j: int| 0 <= j < i implies b[j] >= 128 by {
            if j > 0 {
                assert(t[j - 1] == b[j]);
            }
        }
    }
}

/// The byte at the first end, where there is one, has no continuation bit.
proof fn lemma_first_end_stops(b: Seq<u8>)
    ensures
        first_end(b) <= b.len(),
        first_end(b) < b.len() ==> b[first_end(b) as int] < 128,
    decreases b.len(),
{
    if b.len() != 0 && b[0] >= 128 {
        let t = b.skip(1);
        lemma_first_end_stops(t);
        if first_end(t) < t.len() {
            assert(t[first_end(t) as int] == b[first_end(t) as int + 1]);
        }
    }
}


/// The bytes that encode the integers of `ints`, one after the other.
pub open spec fn encoded(ints: Seq<u128>) -> Seq<u8>
    decreases ints.len(),
{
    if ints.len() == 0 {
        Seq::empty()
    } else {
        encoded(ints.drop_last()) + encoding(ints.last() as nat)
    }
}

/// The integers that `bytes` encode, one after the other, where they do.
pub open spec fn integers_of(bytes: Seq<u8>) -> Option<Seq<u128>>
    decreases bytes.len(),
{
    if bytes.len() == 0 {
        Some(Seq::empty())
    } else {
        match decoded(bytes) {
            Err(_) => None,
            Ok((n, len)) => if 0 < len <= bytes.len() {
                match integers_of(bytes.skip(len as int)) {
                    Some(rest) => Some(seq![n] + rest),
                    None => None,
                }
            } else {
                None
            },
        }
    }
}

/// The encoding of two lists of integers, one after the other, is the
/// encoding of the first followed by that of the second.
pub proof fn lemma_encoded_concat(a: Seq<u128>, b: Seq<u128>)
    ensures
        encoded(a + b) == encoded(a) + encoded(b),
    decreases b.len(),
{
    if b.len() == 0 {
        assert(a + b =~= a);
        assert(encoded(a) + encoded(b) =~= encoded(a));
    } else {
        lemma_encoded_concat(a, b.drop_last());
        assert((a + b).drop_last() =~= a + b.drop_last());
        assert((a + b).last() == b.last());
        assert(encoded(a) + encoded(b.drop_last()) + encoding(b.last() as nat) =~= encoded(a) + (
        encoded(b.drop_last()) + encoding(b.last() as nat)));
    }
}

/// The encoding of one integer, as a list.
pub proof fn lemma_encoded_one(n: u128)
    ensures
        encoded(seq![n]) == encoding(n as nat),
{
    let s = seq![n];
    assert(s.drop_last() =~= Seq::<u128>::empty());
    assert(encoded(s.drop_last()) + encoding(n as nat) =~= encoding(n as nat));
}

/// What follows an encoded integer does not change what the decoder reads.
proof fn lemma_decoded_prefix(n: u128, rest: Seq<u8>)
    ensures
        decoded(encoding(n as nat) + rest) == Ok::<(u128, usize), VarintError>(
            (n, encoding(n as nat).len() as usize),
        ),
{
    let e = encoding(n as nat);
    let b = e + rest;
    lemma_decode_encode(n);
    lemma_first_end_stops(e);
    lemma_first_end_continues(e, first_end(e));
    let k = first_end(e);
    assert(k < e.len()) by {
        if k >= e.len() {
            assert(decoded(e) is Err);
        }
    }
    assert forall|j: int| 0 <= j < k implies b[j] >= 128 by {
        assert(b[j] == e[j]);
    }
    lemma_value_split(b, k);
    lemma_value_split(e, k);
    let tb = b.skip(k as int);
    let te = e.skip(k as int);
    assert(tb[0] == e[k as int]);
    assert(te[0] == e[k as int]);
    assert(first_end(tb) == 0);
    assert(first_end(te) == 0);
    assert(value(tb) == value(te));
    assert(low_value(b, k) == low_value(e, k)) by {
        lemma_low_value_prefix(e, b, k);
    }
    if k == 18 {
        assert(b[18] == e[18]);
    }
}

/// The low value of the first `i` bytes depends on those bytes alone.
proof fn lemma_low_value_prefix(a: Seq<u8>, b: Seq<u8>, i: nat)
    requires
        i <= a.len(),
        i <= b.len(),
        forall|j: int| 0 <= j < i ==> a[j] == b[j],
    ensures
        low_value(a, i) == low_value(b, i),
    decreases i,
{
    if i > 0 {
        lemma_low_value_prefix(a, b, (i - 1) as nat);
    }
}

/// Reading the encoding of a list of integers gives the list.
pub proof fn lemma_integers_of_encoded(ints: Seq<u128>)
    ensures
        integers_of(encoded(ints)) == Some(ints),
    decreases ints.len(),
{
    if ints.len() == 0 {
    } else {
        let head = ints[0];
        let tail = ints.skip(1);
        assert(seq![head] + tail =~= ints);
        lemma_encoded_concat(seq![head], tail);
        lemma_encoded_one(head);
        let e = encoding(head as nat);
        let bytes = encoded(ints);
        assert(bytes == e + encoded(tail));
        lemma_decoded_prefix(head, encoded(tail));
        lemma_decode_encode(head);
        assert(bytes.skip(e.len() as int) =~= encoded(tail));
        lemma_integers_of_encoded(tail);
    }
}

} // verus!
