//! Reading what was written: a runestone that is written as a script and
//! read from a transaction with that script comes out as it went in.

use vstd::prelude::*;
use crate::artifact::ArtifactView;
use crate::artifact::RunestoneView;
use crate::edict::Edict;
use crate::encipher::body_ints;
use crate::encipher::chunked;
use crate::encipher::enciphered;
use crate::encipher::etching_ints;
use crate::encipher::lemma_sorted_of_ordered;
use crate::encipher::mint_ints;
use crate::encipher::ordered;
use crate::encipher::payload_ints;
use crate::encipher::terms_ints;
use crate::encipher::widened;
use crate::etching::Etching;
use crate::etching::MAX_DIVISIBILITY;
use crate::etching::MAX_SPACERS;
use crate::etching::Terms;
use crate::etching::supply_overflows;
use crate::fields::Fields;
use crate::fields::MintSlot;
use crate::fields::Slot;
use crate::fields::accepts;
use crate::fields::folded;
use crate::fields::lemma_folded_concat;
use crate::fields::single;
use crate::flaw::Flaws;
use crate::message::MessageView;
use crate::message::body_edicts;
use crate::message::message_of;
use crate::network::MAX_SCRIPT_ELEMENT_SIZE;
use crate::rune_id::RuneId;
use crate::runestone::carries_message;
use crate::runestone::deciphered;
use crate::runestone::interpreted;
use crate::runestone::payload_of;
use crate::runestone::pushes;
use crate::script::InstructionView;
use crate::script::MAGIC_NUMBER;
use crate::script::OP_RETURN;
use crate::script::instructions;
use crate::script::le_value;
use crate::script::push_prefix;
use crate::tag::Tag;
use crate::varint::encoded;
use crate::varint::lemma_integers_of_encoded;

verus! {

/// Whether a runestone can be written without loss for a transaction with
/// `outputs` outputs: its edicts stand in the order of their runes and name
/// runes and outputs that can be; its mint names a rune that can be; its
/// pointer names an output; the divisibility and the spacers of its etching
/// are within their bounds, and the supply stays within 128 bits.
pub open spec fn writable(stone: RunestoneView, outputs: nat) -> bool {
    &&& ordered(stone.edicts)
    &&& forall|i: int|
        0 <= i < stone.edicts.len() ==> (#[trigger] stone.edicts[i]).id.valid()
            && stone.edicts[i].output <= outputs
    &&& match stone.mint {
        Some(id) => id.valid(),
        None => true,
    }
    &&& match stone.pointer {
        Some(p) => p < outputs,
        None => true,
    }
    &&& match stone.etching {
        Some(e) => {
            &&& match e.divisibility {
                Some(d) => d <= MAX_DIVISIBILITY,
                None => true,
            }
            &&& match e.spacers {
                Some(s) => s <= MAX_SPACERS,
                None => true,
            }
            &&& match e.terms {
                Some(t) => !supply_overflows(e.premine, t.cap, t.amount),
                None => true,
            }
        },
        None => true,
    }
}

/// The pair that writes the field `value` under `tag`, where there is a
/// value.
pub open spec fn one(tag: Tag, value: Option<u128>) -> Seq<(u128, u128)> {
    match value {
        Some(v) => seq![(tag.number(), v)],
        None => Seq::empty(),
    }
}

/// The integers of `pairs`, tag and value in turn.
pub open spec fn flat(pairs: Seq<(u128, u128)>) -> Seq<u128>
    decreases pairs.len(),
{
    if pairs.len() == 0 {
        Seq::empty()
    } else {
        seq![pairs[0].0, pairs[0].1] + flat(pairs.skip(1))
    }
}

/// The value of a field that holds a rune.
pub open spec fn rune_value(e: Etching) -> Option<u128> {
    match e.rune {
        Some(rune) => Some(rune.0),
        None => None,
    }
}

/// The value of the field of the divisibility.
pub open spec fn divisibility_value(e: Etching) -> Option<u128> {
    match e.divisibility {
        Some(d) => Some(d as u128),
        None => None,
    }
}

/// The value of the field of the spacers.
pub open spec fn spacers_value(e: Etching) -> Option<u128> {
    match e.spacers {
        Some(s) => Some(s as u128),
        None => None,
    }
}

/// The value of the field of the symbol.
pub open spec fn symbol_value(e: Etching) -> Option<u128> {
    match e.symbol {
        Some(c) => Some(c as u128),
        None => None,
    }
}

/// The value of the field of the pointer.
pub open spec fn pointer_value(stone: RunestoneView) -> Option<u128> {
    match stone.pointer {
        Some(p) => Some(p as u128),
        None => None,
    }
}

/// The flags of an etching.
pub open spec fn flags_value(e: Etching) -> u128 {
    if e.terms is Some {
        3
    } else {
        1
    }
}

proof fn lemma_flat_concat(a: Seq<(u128, u128)>, b: Seq<(u128, u128)>)
    ensures
        flat(a + b) == flat(a) + flat(b),
    decreases a.len(),
{
    if a.len() == 0 {
        assert(a + b =~= b);
        assert(flat(a) + flat(b) =~= flat(b));
    } else {
        assert((a + b).skip(1) =~= a.skip(1) + b);
        lemma_flat_concat(a.skip(1), b);
        assert(flat(a + b) =~= flat(a) + flat(b));
    }
}

proof fn lemma_flat_single(pairs: Seq<(u128, u128)>)
    requires
        pairs.len() == 1,
    ensures
        flat(pairs) == seq![pairs[0].0, pairs[0].1],
{
    assert(pairs.skip(1).len() == 0);
    assert(flat(pairs.skip(1)) =~= Seq::<u128>::empty());
    assert(flat(pairs) =~= seq![pairs[0].0, pairs[0].1]);
}

/// Every character is a Unicode scalar value.
proof fn lemma_char_is_scalar(c: char)
    ensures
        crate::fields::is_scalar(c as u128),
        (c as u128) as char == c,
{
}

proof fn lemma_flat_one(tag: Tag, value: Option<u128>)
    ensures
        flat(one(tag, value)) == tag.field(value),
{
    match value {
        Some(v) => {
            let p = one(tag, value);
            lemma_flat_single(p);
        },
        None => {},
    }
}

/// What the fields are after the pair of a field with one value was read,
/// where the field was not read before and takes the value.
proof fn lemma_fold_one(state: Fields, tag: Tag, value: Option<u128>, outputs: nat)
    requires
        single(tag),
        state.slot(tag) == Slot::Unseen,
        value matches Some(v) ==> accepts(tag, v, outputs),
    ensures
        folded(one(tag, value), state, outputs) == match value {
            Some(v) => state.with_slot(tag, Slot::Taken(v)),
            None => state,
        },
{
    match value {
        Some(v) => {
            let p = one(tag, value);
            assert(p.skip(1) =~= Seq::<(u128, u128)>::empty());
            assert(Tag::of(tag.number()) == Some(tag));
            let next = state.absorbed(tag.number(), v, outputs);
            assert(folded(p.skip(1), next, outputs) == next);
        },
        None => {},
    }
}

/// The pairs that write the terms `t`.
pub open spec fn terms_pairs(t: Terms) -> Seq<(u128, u128)> {
    one(Tag::Amount, t.amount) + one(Tag::Cap, t.cap) + one(
        Tag::HeightStart,
        widened(t.height.0),
    ) + one(Tag::HeightEnd, widened(t.height.1)) + one(Tag::OffsetStart, widened(t.offset.0))
        + one(Tag::OffsetEnd, widened(t.offset.1))
}

/// The pairs that write the etching `e`.
pub open spec fn etching_pairs(e: Etching) -> Seq<(u128, u128)> {
    seq![(Tag::Flags.number(), flags_value(e))] + one(Tag::Rune, rune_value(e)) + one(
        Tag::Divisibility,
        divisibility_value(e),
    ) + one(Tag::Spacers, spacers_value(e)) + one(Tag::Symbol, symbol_value(e)) + one(
        Tag::Premine,
        e.premine,
    ) + match e.terms {
        Some(t) => terms_pairs(t),
        None => Seq::empty(),
    }
}

/// The pairs that write a mint of the rune `mint`.
pub open spec fn mint_pairs(mint: Option<RuneId>) -> Seq<(u128, u128)> {
    match mint {
        Some(id) => seq![(Tag::Mint.number(), id.block as u128), (Tag::Mint.number(), id.tx as u128)],
        None => Seq::empty(),
    }
}

/// The pairs that write the fields of the runestone `stone`.
pub open spec fn head_pairs(stone: RunestoneView) -> Seq<(u128, u128)> {
    (match stone.etching {
        Some(e) => etching_pairs(e),
        None => Seq::empty(),
    }) + mint_pairs(stone.mint) + one(Tag::Pointer, pointer_value(stone))
}

/// The integers that write the edicts of the runestone `stone`, behind the
/// tag that announces them.
pub open spec fn body_part(stone: RunestoneView) -> Seq<u128> {
    if stone.edicts.len() > 0 {
        seq![Tag::Body.number()] + body_ints(stone.edicts, RuneId { block: 0, tx: 0 })
    } else {
        Seq::empty()
    }
}

proof fn lemma_terms_flat(t: Terms)
    ensures
        flat(terms_pairs(t)) == terms_ints(t),
{
    let a = one(Tag::Amount, t.amount);
    let b = one(Tag::Cap, t.cap);
    let c = one(Tag::HeightStart, widened(t.height.0));
    let d = one(Tag::HeightEnd, widened(t.height.1));
    let e = one(Tag::OffsetStart, widened(t.offset.0));
    let f = one(Tag::OffsetEnd, widened(t.offset.1));
    lemma_flat_one(Tag::Amount, t.amount);
    lemma_flat_one(Tag::Cap, t.cap);
    lemma_flat_one(Tag::HeightStart, widened(t.height.0));
    lemma_flat_one(Tag::HeightEnd, widened(t.height.1));
    lemma_flat_one(Tag::OffsetStart, widened(t.offset.0));
    lemma_flat_one(Tag::OffsetEnd, widened(t.offset.1));
    lemma_flat_concat(a, b);
    lemma_flat_concat(a + b, c);
    lemma_flat_concat(a + b + c, d);
    lemma_flat_concat(a + b + c + d, e);
    lemma_flat_concat(a + b + c + d + e, f);
}

proof fn lemma_etching_flat(e: Etching)
    ensures
        flat(etching_pairs(e)) == etching_ints(e),
{
    let a = seq![(Tag::Flags.number(), flags_value(e))];
    let b = one(Tag::Rune, rune_value(e));
    let c = one(Tag::Divisibility, divisibility_value(e));
    let d = one(Tag::Spacers, spacers_value(e));
    let f = one(Tag::Symbol, symbol_value(e));
    let g = one(Tag::Premine, e.premine);
    let h = match e.terms {
        Some(t) => terms_pairs(t),
        None => Seq::empty(),
    };
    lemma_flat_single(a);
    lemma_flat_one(Tag::Rune, rune_value(e));
    lemma_flat_one(Tag::Divisibility, divisibility_value(e));
    lemma_flat_one(Tag::Spacers, spacers_value(e));
    lemma_flat_one(Tag::Symbol, symbol_value(e));
    lemma_flat_one(Tag::Premine, e.premine);
    match e.terms {
        Some(t) => {
            lemma_terms_flat(t);
        },
        None => {},
    }
    lemma_flat_concat(a, b);
    lemma_flat_concat(a + b, c);
    lemma_flat_concat(a + b + c, d);
    lemma_flat_concat(a + b + c + d, f);
    lemma_flat_concat(a + b + c + d + f, g);
    lemma_flat_concat(a + b + c + d + f + g, h);
}

/// The integers of a runestone are those of its fields, pair by pair, and
/// then those of its edicts.
proof fn lemma_payload_parts(stone: RunestoneView)
    requires
        ordered(stone.edicts),
    ensures
        payload_ints(stone) == flat(head_pairs(stone)) + body_part(stone),
{
    let a = match stone.etching {
        Some(e) => etching_pairs(e),
        None => Seq::empty(),
    };
    let b = mint_pairs(stone.mint);
    let c = one(Tag::Pointer, pointer_value(stone));
    match stone.etching {
        Some(e) => {
            lemma_etching_flat(e);
        },
        None => {},
    }
    match stone.mint {
        Some(id) => {
            assert(b.skip(1) =~= seq![(Tag::Mint.number(), id.tx as u128)]);
            lemma_flat_single(b.skip(1));
            assert(flat(b) =~= mint_ints(stone.mint));
        },
        None => {},
    }
    lemma_flat_one(Tag::Pointer, pointer_value(stone));
    lemma_flat_concat(a, b);
    lemma_flat_concat(a + b, c);
    lemma_sorted_of_ordered(stone.edicts);
}

/// Pairs whose tags do not announce the body are read as fields, and what
/// follows them is read after them.
proof fn lemma_message_pairs(pairs: Seq<(u128, u128)>, rest: Seq<u128>, outputs: nat)
    requires
        forall|i: int| 0 <= i < pairs.len() ==> (#[trigger] pairs[i]).0 != 0,
    ensures
        message_of(flat(pairs) + rest, outputs) == (MessageView {
            fields: pairs + message_of(rest, outputs).fields,
            ..message_of(rest, outputs)
        }),
    decreases pairs.len(),
{
    if pairs.len() == 0 {
        assert(flat(pairs) + rest =~= rest);
        assert(pairs + message_of(rest, outputs).fields =~= message_of(rest, outputs).fields);
    } else {
        let tail = pairs.skip(1);
        let ints = flat(pairs) + rest;
        assert forall|i: int| 0 <= i < tail.len() implies (#[trigger] tail[i]).0 != 0 by {
            assert(tail[i] == pairs[i + 1]);
        }
        lemma_message_pairs(tail, rest, outputs);
        assert(ints[0] == pairs[0].0);
        assert(ints[1] == pairs[0].1);
        assert(ints.skip(2) =~= flat(tail) + rest);
        assert(seq![(ints[0], ints[1])] + (tail + message_of(rest, outputs).fields) =~= pairs
            + message_of(rest, outputs).fields);
    }
}

/// The edicts that were written are the edicts that are read.
proof fn lemma_body(edicts: Seq<Edict>, previous: RuneId, outputs: nat)
    requires
        ordered(edicts),
        edicts.len() > 0 ==> previous.at_most(edicts[0].id),
        forall|i: int|
            0 <= i < edicts.len() ==> (#[trigger] edicts[i]).id.valid() && edicts[i].output
                <= outputs,
    ensures
        body_edicts(body_ints(edicts, previous), previous, outputs) == (edicts, Flaws::none()),
    decreases edicts.len(),
{
    if edicts.len() > 0 {
        let first = edicts[0];
        let tail = edicts.skip(1);
        let ints = body_ints(edicts, previous);
        let step = previous.delta_to(first.id);
        assert(ordered(tail)) by {
            assert forall|i: int, j: int| 0 <= i < j < tail.len() implies tail[i].id.at_most(
                tail[j].id,
            ) by {
                assert(tail[i] == edicts[i + 1] && tail[j] == edicts[j + 1]);
            }
        }
        assert forall|i: int| 0 <= i < tail.len() implies (#[trigger] tail[i]).id.valid()
            && tail[i].output <= outputs by {
            assert(tail[i] == edicts[i + 1]);
        }
        if tail.len() > 0 {
            assert(tail[0] == edicts[1]);
            assert(edicts[0].id.at_most(edicts[1].id));
        }
        lemma_body(tail, first.id, outputs);
        assert(ints.skip(4) =~= body_ints(tail, first.id));
        assert(ints[0] == step.0 as u128 && ints[1] == step.1 as u128);
        assert(ints[2] == first.amount && ints[3] == first.output as u128);
        crate::rune_id::lemma_step_delta(previous, first.id);
        assert(seq![first] + tail =~= edicts);
    } else {
        assert(body_ints(edicts, previous) =~= Seq::<u128>::empty());
    }
}

/// The message that the integers of a runestone spell has its pairs as
/// fields and its edicts as edicts, and no flaw.
proof fn lemma_message(stone: RunestoneView, outputs: nat)
    requires
        writable(stone, outputs),
    ensures
        message_of(payload_ints(stone), outputs) == (MessageView {
            flaws: Flaws::none(),
            edicts: stone.edicts,
            fields: head_pairs(stone),
        }),
{
    lemma_payload_parts(stone);
    let pairs = head_pairs(stone);
    let rest = body_part(stone);
    assert forall|i: int| 0 <= i < pairs.len() implies (#[trigger] pairs[i]).0 != 0 by {
        lemma_head_tags(stone, i);
    }
    lemma_message_pairs(pairs, rest, outputs);
    if stone.edicts.len() > 0 {
        let zero = RuneId { block: 0, tx: 0 };
        lemma_body(stone.edicts, zero, outputs);
        assert(rest.skip(1) =~= body_ints(stone.edicts, zero));
        assert(rest[0] == 0);
    } else {
        assert(stone.edicts =~= Seq::<Edict>::empty());
    }
    assert(pairs + Seq::<(u128, u128)>::empty() =~= pairs);
}

/// No pair of a runestone has the tag that announces the body.
proof fn lemma_head_tags(stone: RunestoneView, i: int)
    requires
        0 <= i < head_pairs(stone).len(),
    ensures
        head_pairs(stone)[i].0 != 0,
{
    let tags = set![2u128, 4, 1, 3, 5, 6, 10, 8, 12, 14, 16, 18, 20, 22];
    let ok = |pairs: Seq<(u128, u128)>|
        forall|k: int| 0 <= k < pairs.len() ==> (#[trigger] pairs[k]).0 != 0;
    let etch = match stone.etching {
        Some(e) => etching_pairs(e),
        None => Seq::empty(),
    };
    match stone.etching {
        Some(e) => {
            match e.terms {
                Some(t) => {
                    assert(ok(terms_pairs(t)));
                },
                None => {},
            }
            assert(ok(etching_pairs(e)));
        },
        None => {},
    }
    assert(ok(etch));
    assert(ok(mint_pairs(stone.mint)));
    assert(ok(one(Tag::Pointer, pointer_value(stone))));
    assert(ok(head_pairs(stone)));
}

/// The fields that the pairs of a runestone are read as.
pub open spec fn fields_of(stone: RunestoneView) -> Fields {
    let start = Fields::start();
    let etched = match stone.etching {
        None => start,
        Some(e) => {
            let basic = Fields {
                flags: Slot::Taken(flags_value(e)),
                rune: slot_of(rune_value(e)),
                divisibility: slot_of(divisibility_value(e)),
                spacers: slot_of(spacers_value(e)),
                symbol: slot_of(symbol_value(e)),
                premine: slot_of(e.premine),
                ..start
            };
            match e.terms {
                None => basic,
                Some(t) => Fields {
                    amount: slot_of(t.amount),
                    cap: slot_of(t.cap),
                    height_start: slot_of(widened(t.height.0)),
                    height_end: slot_of(widened(t.height.1)),
                    offset_start: slot_of(widened(t.offset.0)),
                    offset_end: slot_of(widened(t.offset.1)),
                    ..basic
                },
            }
        },
    };
    Fields {
        mint: match stone.mint {
            Some(id) => MintSlot::Taken(id),
            None => MintSlot::Unseen,
        },
        pointer: slot_of(pointer_value(stone)),
        ..etched
    }
}

/// The slot of a field that was written once or not at all.
pub open spec fn slot_of(value: Option<u128>) -> Slot {
    match value {
        Some(v) => Slot::Taken(v),
        None => Slot::Unseen,
    }
}

proof fn lemma_fold_terms(state: Fields, t: Terms, outputs: nat)
    requires
        state.amount == Slot::Unseen,
        state.cap == Slot::Unseen,
        state.height_start == Slot::Unseen,
        state.height_end == Slot::Unseen,
        state.offset_start == Slot::Unseen,
        state.offset_end == Slot::Unseen,
    ensures
        folded(terms_pairs(t), state, outputs) == (Fields {
            amount: slot_of(t.amount),
            cap: slot_of(t.cap),
            height_start: slot_of(widened(t.height.0)),
            height_end: slot_of(widened(t.height.1)),
            offset_start: slot_of(widened(t.offset.0)),
            offset_end: slot_of(widened(t.offset.1)),
            ..state
        }),
{
    let a = one(Tag::Amount, t.amount);
    let b = one(Tag::Cap, t.cap);
    let c = one(Tag::HeightStart, widened(t.height.0));
    let d = one(Tag::HeightEnd, widened(t.height.1));
    let e = one(Tag::OffsetStart, widened(t.offset.0));
    let f = one(Tag::OffsetEnd, widened(t.offset.1));
    lemma_fold_one(state, Tag::Amount, t.amount, outputs);
    let s1 = folded(a, state, outputs);
    lemma_fold_one(s1, Tag::Cap, t.cap, outputs);
    let s2 = folded(b, s1, outputs);
    lemma_fold_one(s2, Tag::HeightStart, widened(t.height.0), outputs);
    let s3 = folded(c, s2, outputs);
    lemma_fold_one(s3, Tag::HeightEnd, widened(t.height.1), outputs);
    let s4 = folded(d, s3, outputs);
    lemma_fold_one(s4, Tag::OffsetStart, widened(t.offset.0), outputs);
    let s5 = folded(e, s4, outputs);
    lemma_fold_one(s5, Tag::OffsetEnd, widened(t.offset.1), outputs);
    lemma_folded_concat(a + b + c + d + e, f, state, outputs);
    lemma_folded_concat(a + b + c + d, e, state, outputs);
    lemma_folded_concat(a + b + c, d, state, outputs);
    lemma_folded_concat(a + b, c, state, outputs);
    lemma_folded_concat(a, b, state, outputs);
}

proof fn lemma_fold_etching(e: Etching, outputs: nat)
    requires
        e.divisibility matches Some(d) ==> d <= MAX_DIVISIBILITY,
        e.spacers matches Some(s) ==> s <= MAX_SPACERS,
    ensures
        folded(etching_pairs(e), Fields::start(), outputs) == fields_of(
            RunestoneView { edicts: Seq::empty(), etching: Some(e), mint: None, pointer: None },
        ),
{
    let start = Fields::start();
    let a = seq![(Tag::Flags.number(), flags_value(e))];
    let b = one(Tag::Rune, rune_value(e));
    let c = one(Tag::Divisibility, divisibility_value(e));
    let d = one(Tag::Spacers, spacers_value(e));
    let f = one(Tag::Symbol, symbol_value(e));
    let g = one(Tag::Premine, e.premine);
    let h = match e.terms {
        Some(t) => terms_pairs(t),
        None => Seq::empty(),
    };
    assert(a =~= one(Tag::Flags, Some(flags_value(e))));
    lemma_fold_one(start, Tag::Flags, Some(flags_value(e)), outputs);
    let s1 = folded(a, start, outputs);
    lemma_fold_one(s1, Tag::Rune, rune_value(e), outputs);
    let s2 = folded(b, s1, outputs);
    lemma_fold_one(s2, Tag::Divisibility, divisibility_value(e), outputs);
    let s3 = folded(c, s2, outputs);
    lemma_fold_one(s3, Tag::Spacers, spacers_value(e), outputs);
    let s4 = folded(d, s3, outputs);
    match e.symbol {
        Some(c) => {
            lemma_char_is_scalar(c);
        },
        None => {},
    }
    lemma_fold_one(s4, Tag::Symbol, symbol_value(e), outputs);
    let s5 = folded(f, s4, outputs);
    lemma_fold_one(s5, Tag::Premine, e.premine, outputs);
    let s6 = folded(g, s5, outputs);
    match e.terms {
        Some(t) => {
            lemma_fold_terms(s6, t, outputs);
        },
        None => {},
    }
    lemma_folded_concat(a + b + c + d + f + g, h, start, outputs);
    lemma_folded_concat(a + b + c + d + f, g, start, outputs);
    lemma_folded_concat(a + b + c + d, f, start, outputs);
    lemma_folded_concat(a + b + c, d, start, outputs);
    lemma_folded_concat(a + b, c, start, outputs);
    lemma_folded_concat(a, b, start, outputs);
}

/// The pairs of a runestone are read as its fields.
proof fn lemma_fold(stone: RunestoneView, outputs: nat)
    requires
        writable(stone, outputs),
    ensures
        folded(head_pairs(stone), Fields::start(), outputs) == fields_of(stone),
{
    let start = Fields::start();
    let a = match stone.etching {
        Some(e) => etching_pairs(e),
        None => Seq::empty(),
    };
    let b = mint_pairs(stone.mint);
    let c = one(Tag::Pointer, pointer_value(stone));
    match stone.etching {
        Some(e) => {
            lemma_fold_etching(e, outputs);
        },
        None => {},
    }
    let s1 = folded(a, start, outputs);
    match stone.mint {
        Some(id) => {
            assert(b.skip(1).skip(1) =~= Seq::<(u128, u128)>::empty());
            assert(Tag::of(20) == Some(Tag::Mint));
            let first = s1.absorbed(20, id.block as u128, outputs);
            let second = first.absorbed(20, id.tx as u128, outputs);
            assert(b.skip(1)[0] == b[1]);
            assert(folded(b.skip(1).skip(1), second, outputs) == second);
            assert(folded(b.skip(1), first, outputs) == second);
            assert(folded(b, s1, outputs) == second);
        },
        None => {},
    }
    let s2 = folded(b, s1, outputs);
    lemma_fold_one(s2, Tag::Pointer, pointer_value(stone), outputs);
    lemma_folded_concat(a + b, c, start, outputs);
    lemma_folded_concat(a, b, start, outputs);
}

/// A runestone that is written as integers and read from them is the same
/// runestone.
pub proof fn lemma_interpret_payload(stone: RunestoneView, outputs: nat)
    requires
        writable(stone, outputs),
    ensures
        interpreted(message_of(payload_ints(stone), outputs), outputs) == ArtifactView::Runestone(
            stone,
        ),
{
    lemma_message(stone, outputs);
    lemma_fold(stone, outputs);
    let fields = fields_of(stone);
    let message = message_of(payload_ints(stone), outputs);
    assert(folded(message.fields, Fields::start(), outputs) == fields);
    assert(!fields.left_over);
    assert(!(fields.mint matches MintSlot::Block(_)));
    match stone.etching {
        Some(e) => {
            assert(flags_value(e) / 4 == 0);
            assert(flags_value(e) / 1 == flags_value(e));
            assert(crate::runestone::flags_of(fields) == flags_value(e));
            assert(crate::flag::Flag::Etching.set_in(flags_value(e)));
            assert(crate::flag::Flag::Terms.set_in(flags_value(e)) == (e.terms is Some));
            match e.symbol {
                Some(c) => {
                    lemma_char_is_scalar(c);
                },
                None => {},
            }
            match e.terms {
                Some(t) => {
                    assert(crate::runestone::terms_of(fields) == t);
                },
                None => {
                    assert(fields.cap == Slot::Unseen && fields.amount == Slot::Unseen);
                    assert(crate::etching::or_zero(fields.cap.value()) == 0);
                    assert(crate::etching::or_zero(fields.amount.value()) == 0);
                    assert(crate::etching::or_zero(fields.premine.value()) <= u128::MAX);
                    assert(crate::etching::or_zero(fields.cap.value()) * crate::etching::or_zero(
                        fields.amount.value(),
                    ) == 0);
                    assert(!supply_overflows(
                        fields.premine.value(),
                        fields.cap.value(),
                        fields.amount.value(),
                    ));
                },
            }
            assert(crate::runestone::etching_of(fields) == Some(e));
        },
        None => {
            assert(crate::runestone::flags_of(fields) == 0);
            assert(crate::runestone::etching_of(fields) == None::<Etching>);
            assert(!supply_overflows(
                fields.premine.value(),
                fields.cap.value(),
                fields.amount.value(),
            ));
        },
    }
    assert(!crate::runestone::unrecognised(fields));
    assert(crate::runestone::flaws_of(message.flaws, fields) == Flaws::none());
    assert(fields.mint.id() == stone.mint);
    assert(crate::runestone::pointer_of(fields) == stone.pointer);
}

/// The script that pushes a payload is read as pushes of that payload.
proof fn lemma_pushes_chunked(payload: Seq<u8>)
    ensures
        pushes(instructions(chunked(payload))) == Ok::<Seq<u8>, crate::flaw::Flaw>(payload),
    decreases payload.len(),
{
    if payload.len() == 0 {
        assert(instructions(chunked(payload)).len() == 0);
        assert(payload =~= Seq::<u8>::empty());
    } else {
        let n: int = if payload.len() < MAX_SCRIPT_ELEMENT_SIZE {
            payload.len() as int
        } else {
            MAX_SCRIPT_ELEMENT_SIZE as int
        };
        let head = payload.take(n);
        let tail = payload.skip(n);
        let prefix = push_prefix(n as nat);
        let s = chunked(payload);
        lemma_pushes_chunked(tail);
        assert(s == prefix + head + chunked(tail));
        let width: int = if n < 76 {
            0
        } else if n < 256 {
            1
        } else {
            2
        };
        assert(s[0] == prefix[0]);
        if n >= 76 {
            assert(s[1] == prefix[1]);
            let size = s.subrange(1, 1 + width);
            if n < 256 {
                assert(size =~= seq![n as u8]);
                assert(size.skip(1) =~= Seq::<u8>::empty());
                assert(le_value(size.skip(1)) == 0);
                assert(le_value(size) == n);
            } else {
                assert(s[2] == prefix[2]);
                assert(size =~= seq![(n % 256) as u8, (n / 256) as u8]);
                assert(size.skip(1) =~= seq![(n / 256) as u8]);
                assert(size.skip(1).skip(1) =~= Seq::<u8>::empty());
                assert(le_value(size.skip(1).skip(1)) == 0);
                assert(le_value(size.skip(1)) == n / 256);
                assert(le_value(size) == n % 256 + 256 * (n / 256));
                assert(le_value(size) == n);
            }
        }
        let start = 1 + width;
        assert(s.subrange(start, start + n) =~= head);
        assert(s.skip(start + n) =~= chunked(tail));
        let list = instructions(s);
        assert(list == seq![InstructionView::PushBytes(head)] + instructions(chunked(tail)));
        assert(list[0] == InstructionView::PushBytes(head));
        assert(list.skip(1) =~= instructions(chunked(tail)));
        assert(head + tail =~= payload);
        assert(pushes(list) == Ok::<Seq<u8>, crate::flaw::Flaw>(head + tail));
    }
}

/// The script of a runestone carries a message, and its payload is that of
/// the runestone.
proof fn lemma_script(stone: RunestoneView)
    ensures
        carries_message(instructions(enciphered(stone))),
        pushes(instructions(enciphered(stone)).skip(2)) == Ok::<Seq<u8>, crate::flaw::Flaw>(
            encoded(payload_ints(stone)),
        ),
{
    let payload = encoded(payload_ints(stone));
    let s = enciphered(stone);
    let after_one = s.skip(1);
    assert(s[0] == OP_RETURN);
    assert(after_one[0] == MAGIC_NUMBER);
    assert(after_one.skip(1) =~= chunked(payload));
    lemma_pushes_chunked(payload);
    let inner = instructions(after_one);
    assert(inner == seq![InstructionView::Op(MAGIC_NUMBER)] + instructions(chunked(payload)));
    let list = instructions(s);
    assert(list == seq![InstructionView::Op(OP_RETURN)] + inner);
    assert(list[0] == InstructionView::Op(OP_RETURN));
    assert(list[1] == inner[0]);
    assert(list.skip(2) =~= instructions(chunked(payload)));
}

/// The payload of a list of scripts is that of the first script that carries
/// a message.
proof fn lemma_payload_at(scripts: Seq<Seq<u8>>, place: int)
    requires
        0 <= place < scripts.len(),
        carries_message(instructions(scripts[place])),
        forall|k: int| 0 <= k < place ==> !carries_message(instructions(#[trigger] scripts[k])),
    ensures
        payload_of(scripts) == Some(pushes(instructions(scripts[place]).skip(2))),
    decreases place,
{
    if place > 0 {
        let rest = scripts.skip(1);
        assert(rest[place - 1] == scripts[place]);
        assert forall|k: int| 0 <= k < place - 1 implies !carries_message(
            instructions(#[trigger] rest[k]),
        ) by {
            assert(rest[k] == scripts[k + 1]);
        }
        lemma_payload_at(rest, place - 1);
        assert(!carries_message(instructions(scripts[0])));
    }
}

/// Reading undoes writing: where the script of a runestone is the first
/// script of a transaction that carries a message, and the runestone can be
/// written without loss for that transaction, the message of the transaction
/// is the runestone.
pub proof fn lemma_decipher_encipher(stone: RunestoneView, scripts: Seq<Seq<u8>>, place: int)
    requires
        writable(stone, scripts.len()),
        0 <= place < scripts.len(),
        scripts[place] == enciphered(stone),
        forall|k: int| 0 <= k < place ==> !carries_message(instructions(#[trigger] scripts[k])),
    ensures
        deciphered(scripts) == Some(ArtifactView::Runestone(stone)),
{
    lemma_script(stone);
    lemma_payload_at(scripts, place);
    lemma_integers_of_encoded(payload_ints(stone));
    lemma_interpret_payload(stone, scripts.len());
}

} // verus!
