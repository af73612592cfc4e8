//! Writing a runestone as the locking script of an output.

use vstd::prelude::*;
use vstd::slice::slice_subrange;
use crate::artifact::Runestone;
use crate::artifact::RunestoneView;
use crate::edict::Edict;
use crate::etching::Etching;
use crate::etching::Terms;
use crate::network::MAX_SCRIPT_ELEMENT_SIZE;
use crate::rune::Rune;
use crate::rune_id::RuneId;
use crate::script::MAGIC_NUMBER;
use crate::script::OP_RETURN;
use crate::script::builder_bytes;
use crate::script::builder_into_bytes;
use crate::script::builder_new;
use crate::script::builder_push_opcode;
use crate::script::builder_push_slice;
use crate::script::push_prefix;
use crate::tag::Tag;
use crate::varint::encode_to_vec;
use crate::varint::encoded;
use crate::varint::encoding;
use crate::varint::lemma_encoded_concat;
use crate::varint::lemma_encoded_one;

verus! {

/// Whether the edicts of `list` stand in the order of their runes.
pub open spec fn ordered(list: Seq<Edict>) -> bool {
    forall|i: int, j: int| 0 <= i < j < list.len() ==> list[i].id.at_most(list[j].id)
}

/// The ordered list `sorted` with `edict` put behind the last edict whose rune
/// does not come after its own.
pub open spec fn inserted(sorted: Seq<Edict>, edict: Edict) -> Seq<Edict>
    decreases sorted.len(),
{
    if sorted.len() == 0 {
        seq![edict]
    } else if sorted.last().id.at_most(edict.id) {
        sorted.push(edict)
    } else {
        inserted(sorted.drop_last(), edict).push(sorted.last())
    }
}

/// The edicts of `list` in the order of their runes, those of one rune in the
/// order in which they stand in `list`.
pub open spec fn sorted_by_id(list: Seq<Edict>) -> Seq<Edict>
    decreases list.len(),
{
    if list.len() == 0 {
        Seq::empty()
    } else {
        inserted(sorted_by_id(list.drop_last()), list.last())
    }
}

/// The integers of a value that may be absent.
pub open spec fn widened(value: Option<u64>) -> Option<u128> {
    match value {
        Some(v) => Some(v as u128),
        None => None,
    }
}

/// The integers that write the terms `terms`.
pub open spec fn terms_ints(terms: Terms) -> Seq<u128> {
    Tag::Amount.field(terms.amount) + Tag::Cap.field(terms.cap) + Tag::HeightStart.field(
        widened(terms.height.0),
    ) + Tag::HeightEnd.field(widened(terms.height.1)) + Tag::OffsetStart.field(
        widened(terms.offset.0),
    ) + Tag::OffsetEnd.field(widened(terms.offset.1))
}

/// The integers that write the etching `etching`: the flags, then each field
/// that is there.
pub open spec fn etching_ints(etching: Etching) -> Seq<u128> {
    seq![
        Tag::Flags.number(),
        if etching.terms is Some {
            3u128
        } else {
            1u128
        },
    ] + Tag::Rune.field(
        match etching.rune {
            Some(rune) => Some(rune.0),
            None => None,
        },
    ) + Tag::Divisibility.field(
        match etching.divisibility {
            Some(d) => Some(d as u128),
            None => None,
        },
    ) + Tag::Spacers.field(
        match etching.spacers {
            Some(s) => Some(s as u128),
            None => None,
        },
    ) + Tag::Symbol.field(
        match etching.symbol {
            Some(c) => Some(c as u128),
            None => None,
        },
    ) + Tag::Premine.field(etching.premine) + match etching.terms {
        Some(terms) => terms_ints(terms),
        None => Seq::empty(),
    }
}

/// The integers that write a mint of the rune `mint`.
pub open spec fn mint_ints(mint: Option<RuneId>) -> Seq<u128> {
    match mint {
        Some(id) => seq![
            Tag::Mint.number(),
            id.block as u128,
            Tag::Mint.number(),
            id.tx as u128,
        ],
        None => Seq::empty(),
    }
}

/// The integers that write the edicts of `edicts`, each rune as the step
/// that leads to it from the rune before; the first from `previous`.
pub open spec fn body_ints(edicts: Seq<Edict>, previous: RuneId) -> Seq<u128>
    decreases edicts.len(),
{
    if edicts.len() == 0 {
        Seq::empty()
    } else {
        let step = previous.delta_to(edicts[0].id);
        seq![step.0 as u128, step.1 as u128, edicts[0].amount, edicts[0].output as u128]
            + body_ints(edicts.skip(1), edicts[0].id)
    }
}

/// The integers that write the runestone `runestone`.
pub open spec fn payload_ints(runestone: RunestoneView) -> Seq<u128> {
    (match runestone.etching {
        Some(etching) => etching_ints(etching),
        None => Seq::empty(),
    }) + mint_ints(runestone.mint) + Tag::Pointer.field(
        match runestone.pointer {
            Some(p) => Some(p as u128),
            None => None,
        },
    ) + if runestone.edicts.len() > 0 {
        seq![Tag::Body.number()] + body_ints(
            sorted_by_id(runestone.edicts),
            RuneId { block: 0, tx: 0 },
        )
    } else {
        Seq::empty()
    }
}

/// The bytes of the script that pushes `payload`, in pushes of as many bytes
/// as one push can hold and a last one of what is left.
pub open spec fn chunked(payload: Seq<u8>) -> Seq<u8>
    decreases payload.len(),
{
    if payload.len() == 0 {
        Seq::empty()
    } else {
        let n: int = if payload.len() < MAX_SCRIPT_ELEMENT_SIZE {
            payload.len() as int
        } else {
            MAX_SCRIPT_ELEMENT_SIZE as int
        };
        push_prefix(n as nat) + payload.take(n) + chunked(payload.skip(n))
    }
}

/// The script that carries the runestone `runestone`.
pub open spec fn enciphered(runestone: RunestoneView) -> Seq<u8> {
    seq![OP_RETURN, MAGIC_NUMBER] + chunked(encoded(payload_ints(runestone)))
}

/// Putting an edict at place `p` of an ordered list is inserting it, where
/// `p` is behind the last edict whose rune does not come after its own.
proof fn lemma_inserted_at(sorted: Seq<Edict>, edict: Edict, p: int)
    requires
        0 <= p <= sorted.len(),
        forall|k: int| p <= k < sorted.len() ==> !sorted[k].id.at_most(edict.id),
        p > 0 ==> sorted[p - 1].id.at_most(edict.id),
    ensures
        inserted(sorted, edict) == sorted.insert(p, edict),
    decreases sorted.len(),
{
    if sorted.len() == 0 {
        assert(sorted.insert(0, edict) =~= seq![edict]);
    } else if p == sorted.len() {
        assert(sorted.insert(p, edict) =~= sorted.push(edict));
    } else {
        let front = sorted.drop_last();
        lemma_inserted_at(front, edict, p);
        assert(front.insert(p, edict).push(sorted.last()) =~= sorted.insert(p, edict));
    }
}

/// An ordered list with an edict inserted is ordered.
proof fn lemma_inserted_ordered(sorted: Seq<Edict>, edict: Edict, p: int)
    requires
        ordered(sorted),
        0 <= p <= sorted.len(),
        forall|k: int| p <= k < sorted.len() ==> !sorted[k].id.at_most(edict.id),
        p > 0 ==> sorted[p - 1].id.at_most(edict.id),
    ensures
        ordered(sorted.insert(p, edict)),
{
    let out = sorted.insert(p, edict);
    assert forall|i: int, j: int| 0 <= i < j < out.len() implies out[i].id.at_most(out[j].id) by {
        if j < p {
            assert(out[i] == sorted[i] && out[j] == sorted[j]);
        } else if j == p {
            assert(out[i] == sorted[i]);
            if i < p - 1 {
                assert(sorted[i].id.at_most(sorted[p - 1].id));
            }
        } else if i < p {
            assert(out[i] == sorted[i] && out[j] == sorted[j - 1]);
        } else if i == p {
            assert(out[j] == sorted[j - 1]);
        } else {
            assert(out[i] == sorted[i - 1] && out[j] == sorted[j - 1]);
        }
    }
}

/// Sorting a list that is ordered leaves it as it is.
pub proof fn lemma_sorted_of_ordered(list: Seq<Edict>)
    requires
        ordered(list),
    ensures
        sorted_by_id(list) == list,
    decreases list.len(),
{
    if list.len() > 0 {
        let front = list.drop_last();
        assert(ordered(front)) by {
            assert forall|i: int, j: int| 0 <= i < j < front.len() implies front[i].id.at_most(
                front[j].id,
            ) by {
                assert(front[i] == list[i] && front[j] == list[j]);
            }
        }
        lemma_sorted_of_ordered(front);
        if front.len() > 0 {
            assert(front.last() == list[list.len() - 2]);
            assert(list[list.len() - 2].id.at_most(list[list.len() - 1].id));
        }
        assert(front.push(list.last()) =~= list);
    }
}

/// The edicts of `edicts` in the order of their runes.
pub fn sort_edicts(edicts: &Vec<Edict>) -> (r: Vec<Edict>)
    ensures
        r@ == sorted_by_id(edicts@),
        ordered(r@),
        r@.len() == edicts@.len(),
{
    let mut out: Vec<Edict> = Vec::new();
    let mut i: usize = 0;
    assert(edicts@.take(0) =~= Seq::<Edict>::empty());
    while i < edicts.len()
        invariant
            i <= edicts@.len(),
            out@ == sorted_by_id(edicts@.take(i as int)),
            ordered(out@),
            out@.len() == i,
        decreases edicts@.len() - i,
    {
        let edict: Edict = edicts[i];
        let mut p: usize = out.len();
        while p > 0 && !out[p - 1].id.le(edict.id)
            invariant
                p <= out@.len(),
                forall|k: int| p <= k < out@.len() ==> !out@[k].id.at_most(edict.id),
            decreases p,
        {
            p = p - 1;
        }
        proof {
            lemma_inserted_at(out@, edict, p as int);
            lemma_inserted_ordered(out@, edict, p as int);
            let next = edicts@.take(i + 1);
            assert(next.drop_last() =~= edicts@.take(i as int));
            assert(next.last() == edict);
        }
        out.insert(p, edict);
        i = i + 1;
    }
    assert(edicts@.take(edicts@.len() as int) =~= edicts@);
    out
}

/// Appends four integers to `payload`.
fn encode_four(a: u128, b: u128, c: u128, d: u128, payload: &mut Vec<u8>)
    ensures
        final(payload)@ == old(payload)@ + encoded(seq![a, b, c, d]),
{
    proof {
        lemma_encoded_one(a);
        lemma_encoded_one(b);
        lemma_encoded_one(c);
        lemma_encoded_one(d);
        lemma_encoded_concat(seq![a], seq![b]);
        lemma_encoded_concat(seq![a] + seq![b], seq![c]);
        lemma_encoded_concat(seq![a] + seq![b] + seq![c], seq![d]);
        assert(seq![a] + seq![b] + seq![c] + seq![d] =~= seq![a, b, c, d]);
    }
    encode_to_vec(a, payload);
    encode_to_vec(b, payload);
    encode_to_vec(c, payload);
    encode_to_vec(d, payload);
    assert(payload@ =~= old(payload)@ + (encoding(a as nat) + encoding(b as nat) + encoding(
        c as nat,
    ) + encoding(d as nat)));
}

/// Appends the integers that write `etching` to `payload`.
fn encode_etching(etching: &Etching, payload: &mut Vec<u8>)
    ensures
        final(payload)@ == old(payload)@ + encoded(etching_ints(*etching)),
{
    let ghost start = payload@;
    let ghost mut ints: Seq<u128> = Seq::empty();
    assert(start + encoded(ints) =~= start);
    let flags: u128 = if etching.terms.is_some() {
        3
    } else {
        1
    };
    Tag::Flags.encode(flags, payload);
    proof {
        let part = seq![Tag::Flags.number(), flags];
        lemma_encoded_concat(ints, part);
        assert(start + encoded(ints) + encoded(part) =~= start + (encoded(ints) + encoded(part)));
        ints = ints + part;
    }
    let rune: Option<u128> = match etching.rune {
        Some(rune) => Some(rune.0),
        None => None,
    };
    Tag::Rune.encode_option(rune, payload);
    proof {
        let part = Tag::Rune.field(rune);
        lemma_encoded_concat(ints, part);
        assert(start + encoded(ints) + encoded(part) =~= start + (encoded(ints) + encoded(part)));
        ints = ints + part;
    }
    let divisibility: Option<u128> = match etching.divisibility {
        Some(d) => Some(d as u128),
        None => None,
    };
    Tag::Divisibility.encode_option(divisibility, payload);
    proof {
        let part = Tag::Divisibility.field(divisibility);
        lemma_encoded_concat(ints, part);
        assert(start + encoded(ints) + encoded(part) =~= start + (encoded(ints) + encoded(part)));
        ints = ints + part;
    }
    let spacers: Option<u128> = match etching.spacers {
        Some(s) => Some(s as u128),
        None => None,
    };
    Tag::Spacers.encode_option(spacers, payload);
    proof {
        let part = Tag::Spacers.field(spacers);
        lemma_encoded_concat(ints, part);
        assert(start + encoded(ints) + encoded(part) =~= start + (encoded(ints) + encoded(part)));
        ints = ints + part;
    }
    let symbol: Option<u128> = match etching.symbol {
        Some(c) => Some(c as u128),
        None => None,
    };
    Tag::Symbol.encode_option(symbol, payload);
    proof {
        let part = Tag::Symbol.field(symbol);
        lemma_encoded_concat(ints, part);
        assert(start + encoded(ints) + encoded(part) =~= start + (encoded(ints) + encoded(part)));
        ints = ints + part;
    }
    Tag::Premine.encode_option(etching.premine, payload);
    proof {
        let part = Tag::Premine.field(etching.premine);
        lemma_encoded_concat(ints, part);
        assert(start + encoded(ints) + encoded(part) =~= start + (encoded(ints) + encoded(part)));
        ints = ints + part;
    }
    match etching.terms {
        Some(terms) => {
            encode_terms(&terms, payload);
            proof {
                let part = terms_ints(terms);
                lemma_encoded_concat(ints, part);
                assert(start + encoded(ints) + encoded(part) =~= start + (encoded(ints) + encoded(
                    part,
                )));
                ints = ints + part;
            }
        },
        None => {
            assert(ints + Seq::<u128>::empty() =~= ints);
        },
    }
    assert(ints =~= etching_ints(*etching));
}

/// The integer of a height that may be absent.
fn widen(value: Option<u64>) -> (r: Option<u128>)
    ensures
        r == widened(value),
{
    match value {
        Some(v) => Some(v as u128),
        None => None,
    }
}

/// Appends the integers that write `terms` to `payload`.
fn encode_terms(terms: &Terms, payload: &mut Vec<u8>)
    ensures
        final(payload)@ == old(payload)@ + encoded(terms_ints(*terms)),
{
    let ghost start = payload@;
    let ghost mut ints: Seq<u128> = Seq::empty();
    assert(start + encoded(ints) =~= start);
    Tag::Amount.encode_option(terms.amount, payload);
    proof {
        let part = Tag::Amount.field(terms.amount);
        lemma_encoded_concat(ints, part);
        assert(start + encoded(ints) + encoded(part) =~= start + (encoded(ints) + encoded(part)));
        ints = ints + part;
    }
    Tag::Cap.encode_option(terms.cap, payload);
    proof {
        let part = Tag::Cap.field(terms.cap);
        lemma_encoded_concat(ints, part);
        assert(start + encoded(ints) + encoded(part) =~= start + (encoded(ints) + encoded(part)));
        ints = ints + part;
    }
    Tag::HeightStart.encode_option(widen(terms.height.0), payload);
    proof {
        let part = Tag::HeightStart.field(widened(terms.height.0));
        lemma_encoded_concat(ints, part);
        assert(start + encoded(ints) + encoded(part) =~= start + (encoded(ints) + encoded(part)));
        ints = ints + part;
    }
    Tag::HeightEnd.encode_option(widen(terms.height.1), payload);
    proof {
        let part = Tag::HeightEnd.field(widened(terms.height.1));
        lemma_encoded_concat(ints, part);
        assert(start + encoded(ints) + encoded(part) =~= start + (encoded(ints) + encoded(part)));
        ints = ints + part;
    }
    Tag::OffsetStart.encode_option(widen(terms.offset.0), payload);
    proof {
        let part = Tag::OffsetStart.field(widened(terms.offset.0));
        lemma_encoded_concat(ints, part);
        assert(start + encoded(ints) + encoded(part) =~= start + (encoded(ints) + encoded(part)));
        ints = ints + part;
    }
    Tag::OffsetEnd.encode_option(widen(terms.offset.1), payload);
    proof {
        let part = Tag::OffsetEnd.field(widened(terms.offset.1));
        lemma_encoded_concat(ints, part);
        assert(start + encoded(ints) + encoded(part) =~= start + (encoded(ints) + encoded(part)));
        ints = ints + part;
    }
    assert(ints =~= terms_ints(*terms));
}

/// Appends the integers that write the edicts of `edicts`, which are ordered,
/// to `payload`.
fn encode_body(edicts: &Vec<Edict>, payload: &mut Vec<u8>)
    requires
        ordered(edicts@),
    ensures
        final(payload)@ == old(payload)@ + encoded(body_ints(edicts@, RuneId { block: 0, tx: 0 })),
{
    let ghost start = payload@;
    let ghost whole = body_ints(edicts@, RuneId { block: 0, tx: 0 });
    let ghost mut ints: Seq<u128> = Seq::empty();
    let mut previous: RuneId = RuneId { block: 0, tx: 0 };
    let mut i: usize = 0;
    assert(start + encoded(ints) =~= start);
    assert(edicts@.skip(0) =~= edicts@);
    assert(ints + whole =~= whole);
    while i < edicts.len()
        invariant
            i <= edicts@.len(),
            ordered(edicts@),
            payload@ == start + encoded(ints),
            whole == ints + body_ints(edicts@.skip(i as int), previous),
            i > 0 ==> previous == edicts@[i - 1].id,
            i == 0 ==> previous == (RuneId { block: 0, tx: 0 }),
        decreases edicts@.len() - i,
    {
        let edict: Edict = edicts[i];
        let ghost here = edicts@.skip(i as int);
        assert(here[0] == edict);
        assert(here.skip(1) =~= edicts@.skip(i + 1));
        assert(previous.at_most(edict.id));
        let (block, tx): (u128, u128) = match previous.delta(edict.id) {
            Some(step) => step,
            None => (0, 0),
        };
        encode_four(block, tx, edict.amount, edict.output as u128, payload);
        proof {
            let part = seq![block, tx, edict.amount, edict.output as u128];
            lemma_encoded_concat(ints, part);
            assert(start + encoded(ints) + encoded(part) =~= start + (encoded(ints) + encoded(
                part,
            )));
            assert(ints + part + body_ints(edicts@.skip(i + 1), edict.id) =~= ints + (part
                + body_ints(edicts@.skip(i + 1), edict.id)));
            ints = ints + part;
        }
        previous = edict.id;
        i = i + 1;
    }
    assert(edicts@.skip(i as int).len() == 0);
    assert(ints + Seq::<u128>::empty() =~= ints);
}

impl Runestone {
    /// The bytes of the payload that writes this runestone.
    pub fn payload_bytes(&self) -> (r: Vec<u8>)
        ensures
            r@ == encoded(payload_ints(self@)),
    {
        let mut payload: Vec<u8> = Vec::new();
        let ghost mut ints: Seq<u128> = Seq::empty();
        assert(payload@ =~= encoded(ints));
        match &self.etching {
            Some(etching) => {
                encode_etching(etching, &mut payload);
                proof {
                    let part = etching_ints(*etching);
                    lemma_encoded_concat(ints, part);
                    ints = ints + part;
                }
            },
            None => {
                assert(ints + Seq::<u128>::empty() =~= ints);
            },
        }
        match self.mint {
            Some(id) => {
                let ghost before = payload@;
                Tag::Mint.encode(id.block as u128, &mut payload);
                Tag::Mint.encode(id.tx as u128, &mut payload);
                proof {
                    let first = seq![Tag::Mint.number(), id.block as u128];
                    let second = seq![Tag::Mint.number(), id.tx as u128];
                    lemma_encoded_concat(first, second);
                    assert(first + second =~= mint_ints(self.mint));
                    lemma_encoded_concat(ints, first + second);
                    assert(before + encoded(first) + encoded(second) =~= before + (encoded(first)
                        + encoded(second)));
                    ints = ints + mint_ints(self.mint);
                }
            },
            None => {
                assert(ints + Seq::<u128>::empty() =~= ints);
            },
        }
        let pointer: Option<u128> = match self.pointer {
            Some(p) => Some(p as u128),
            None => None,
        };
        Tag::Pointer.encode_option(pointer, &mut payload);
        proof {
            let part = Tag::Pointer.field(pointer);
            lemma_encoded_concat(ints, part);
            ints = ints + part;
        }
        if self.edicts.len() > 0 {
            let sorted: Vec<Edict> = sort_edicts(&self.edicts);
            let ghost before = payload@;
            encode_to_vec(Tag::Body.value(), &mut payload);
            encode_body(&sorted, &mut payload);
            proof {
                let head = seq![Tag::Body.number()];
                let body = body_ints(sorted@, RuneId { block: 0, tx: 0 });
                lemma_encoded_one(Tag::Body.number());
                lemma_encoded_concat(head, body);
                lemma_encoded_concat(ints, head + body);
                assert(before + encoding(0) + encoded(body) =~= before + (encoded(head) + encoded(
                    body,
                )));
                ints = ints + (head + body);
            }
        } else {
            assert(ints + Seq::<u128>::empty() =~= ints);
        }
        assert(ints =~= payload_ints(self@));
        payload
    }

    /// The locking script that carries this runestone.
    pub fn encipher(&self) -> (r: Vec<u8>)
        ensures
            r@ == enciphered(self@),
    {
        let payload: Vec<u8> = self.payload_bytes();
        let mut builder = builder_new();
        builder = builder_push_opcode(builder, OP_RETURN);
        builder = builder_push_opcode(builder, MAGIC_NUMBER);
        let ghost head = seq![OP_RETURN, MAGIC_NUMBER];
        assert(builder_bytes(builder) =~= head);
        let len: usize = payload.len();
        let mut i: usize = 0;
        assert(payload@.skip(0) =~= payload@);
        while i < len
            invariant
                i <= len == payload@.len(),
                head + chunked(payload@) == builder_bytes(builder) + chunked(
                    payload@.skip(i as int),
                ),
            decreases len - i,
        {
            let n: usize = if len - i < MAX_SCRIPT_ELEMENT_SIZE {
                len - i
            } else {
                MAX_SCRIPT_ELEMENT_SIZE
            };
            let chunk: &[u8] = slice_subrange(payload.as_slice(), i, i + n);
            proof {
                let here = payload@.skip(i as int);
                assert(chunk@ =~= here.take(n as int));
                assert(here.skip(n as int) =~= payload@.skip(i + n));
                let after = chunked(payload@.skip(i + n));
                assert(builder_bytes(builder) + push_prefix(n as nat) + chunk@ + after
                    =~= builder_bytes(builder) + (push_prefix(n as nat) + chunk@ + after));
            }
            builder = builder_push_slice(builder, chunk);
            i = i + n;
        }
        assert(payload@.skip(i as int).len() == 0);
        assert(builder_bytes(builder) + chunked(payload@.skip(i as int)) =~= builder_bytes(
            builder,
        ));
        builder_into_bytes(builder)
    }
}

} // verus!
