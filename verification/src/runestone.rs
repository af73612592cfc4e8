//! Reading the runes message of a transaction, and writing one as a script.

use vstd::prelude::*;
use vstd::slice::slice_subrange;
use crate::artifact::Artifact;
use crate::artifact::ArtifactView;
use crate::artifact::Cenotaph;
use crate::artifact::Runestone;
use crate::artifact::RunestoneView;
use crate::artifact::artifact_view;
use crate::etching::Etching;
use crate::etching::Terms;
use crate::etching::supply_overflow;
use crate::etching::supply_overflows;
use crate::fields::Fields;
use crate::fields::MintSlot;
use crate::fields::Slot;
use crate::fields::fold;
use crate::fields::folded;
use crate::fields::single;
use crate::flag::Flag;
use crate::flaw::Flaw;
use crate::flaw::Flaws;
use crate::message::Message;
use crate::message::MessageView;
use crate::message::message_of;
use crate::rune::Rune;
use crate::rune_id::RuneId;
use crate::script::Instruction;
use crate::script::InstructionView;
use crate::script::MAGIC_NUMBER;
use crate::script::OP_RETURN;
use crate::script::instruction_views;
use crate::script::instructions;
use crate::script::script_instructions;
use crate::tag::Tag;
use crate::tx::Tx;
use crate::varint::decode;
use crate::varint::integers_of;

verus! {

/// The bytes that a transaction carries for the protocol, or what keeps it
/// from carrying any.
#[derive(Clone, Debug, PartialEq, Eq)]
pub enum Payload {
    Valid(Vec<u8>),
    Invalid(Flaw),
}

/// The view of a payload that may be absent.
pub open spec fn payload_view(payload: Option<Payload>) -> Option<Result<Seq<u8>, Flaw>> {
    match payload {
        None => None,
        Some(Payload::Valid(bytes)) => Some(Ok(bytes@)),
        Some(Payload::Invalid(flaw)) => Some(Err(flaw)),
    }
}

/// The view of a list of integers that may be absent.
pub open spec fn integers_view(integers: Option<Vec<u128>>) -> Option<Seq<u128>> {
    match integers {
        Some(list) => Some(list@),
        None => None,
    }
}

/// The bytes that the instructions of `list` push, one push after the other;
/// or the flaw of the first instruction that is no push.
pub open spec fn pushes(list: Seq<InstructionView>) -> Result<Seq<u8>, Flaw>
    decreases list.len(),
{
    if list.len() == 0 {
        Ok(Seq::empty())
    } else {
        match list[0] {
            InstructionView::PushBytes(bytes) => match pushes(list.skip(1)) {
                Ok(rest) => Ok(bytes + rest),
                Err(flaw) => Err(flaw),
            },
            InstructionView::Op(_) => Err(Flaw::Opcode),
            InstructionView::Error => Err(Flaw::InvalidScript),
        }
    }
}

/// Whether a script with these instructions carries a runes message: it
/// starts with `OP_RETURN` and the protocol's opcode.
pub open spec fn carries_message(list: Seq<InstructionView>) -> bool {
    list.len() >= 2 && list[0] == InstructionView::Op(OP_RETURN) && list[1] == InstructionView::Op(
        MAGIC_NUMBER,
    )
}

/// The payload of the first of `scripts` that carries a runes message.
pub open spec fn payload_of(scripts: Seq<Seq<u8>>) -> Option<Result<Seq<u8>, Flaw>>
    decreases scripts.len(),
{
    if scripts.len() == 0 {
        None
    } else if carries_message(instructions(scripts[0])) {
        Some(pushes(instructions(scripts[0]).skip(2)))
    } else {
        payload_of(scripts.skip(1))
    }
}

/// The flags that were read, or none.
pub open spec fn flags_of(fields: Fields) -> u128 {
    match fields.flags {
        Slot::Taken(v) => v,
        _ => 0,
    }
}

/// The value of a slot, as a height.
pub open spec fn height_of(slot: Slot) -> Option<u64> {
    match slot {
        Slot::Taken(v) => Some(v as u64),
        _ => None,
    }
}

/// The pointer that was read.
pub open spec fn pointer_of(fields: Fields) -> Option<u32> {
    match fields.pointer {
        Slot::Taken(v) => Some(v as u32),
        _ => None,
    }
}

/// The terms that the fields spell.
pub open spec fn terms_of(fields: Fields) -> Terms {
    Terms {
        amount: fields.amount.value(),
        cap: fields.cap.value(),
        height: (height_of(fields.height_start), height_of(fields.height_end)),
        offset: (height_of(fields.offset_start), height_of(fields.offset_end)),
    }
}

/// The etching that the fields spell, where the flags announce one.
pub open spec fn etching_of(fields: Fields) -> Option<Etching> {
    if Flag::Etching.set_in(flags_of(fields)) {
        Some(
            Etching {
                divisibility: match fields.divisibility {
                    Slot::Taken(v) => Some(v as u8),
                    _ => None,
                },
                premine: fields.premine.value(),
                rune: match fields.rune {
                    Slot::Taken(v) => Some(Rune(v)),
                    _ => None,
                },
                spacers: match fields.spacers {
                    Slot::Taken(v) => Some(v as u32),
                    _ => None,
                },
                symbol: match fields.symbol {
                    Slot::Taken(v) => Some(v as char),
                    _ => None,
                },
                terms: if Flag::Terms.set_in(flags_of(fields)) {
                    Some(terms_of(fields))
                } else {
                    None
                },
            },
        )
    } else {
        None
    }
}

/// Whether the fields leave something that a reader has to know and does not:
/// a value under an even tag, half a mint, or a flag beyond the two known.
pub open spec fn unrecognised(fields: Fields) -> bool {
    fields.left_over || flags_of(fields) / 4 != 0 || (fields.mint matches MintSlot::Block(_))
}

/// The flaws of a message with the flaws `found` and these fields.
pub open spec fn flaws_of(found: Flaws, fields: Fields) -> Flaws {
    let with_supply = if supply_overflows(
        fields.premine.value(),
        fields.cap.value(),
        fields.amount.value(),
    ) {
        found.with(Flaw::SupplyOverflow)
    } else {
        found
    };
    if unrecognised(fields) {
        with_supply.with(Flaw::UnrecognisedEvenTag)
    } else {
        with_supply
    }
}

/// What a message with these parts is, in a transaction with `outputs`
/// outputs: a runestone where nothing is wrong, else a cenotaph with the name
/// and the mint that could be read.
pub open spec fn interpreted(message: MessageView, outputs: nat) -> ArtifactView {
    let fields = folded(message.fields, Fields::start(), outputs);
    let flaws = flaws_of(message.flaws, fields);
    let etching = etching_of(fields);
    if flaws.empty() {
        ArtifactView::Runestone(
            RunestoneView {
                edicts: message.edicts,
                etching,
                mint: fields.mint.id(),
                pointer: pointer_of(fields),
            },
        )
    } else {
        ArtifactView::Cenotaph(
            Cenotaph {
                etching: match etching {
                    Some(e) => e.rune,
                    None => None,
                },
                mint: fields.mint.id(),
                flaws,
            },
        )
    }
}

/// The cenotaph of a message of which nothing could be read.
pub open spec fn unreadable(flaw: Flaw) -> ArtifactView {
    ArtifactView::Cenotaph(Cenotaph { etching: None, mint: None, flaws: Flaws::none().with(flaw) })
}

/// The runes message of a transaction whose outputs have the locking scripts
/// `scripts`.
pub open spec fn deciphered(scripts: Seq<Seq<u8>>) -> Option<ArtifactView> {
    match payload_of(scripts) {
        None => None,
        Some(Err(flaw)) => Some(unreadable(flaw)),
        Some(Ok(bytes)) => match integers_of(bytes) {
            None => Some(unreadable(Flaw::Varint)),
            Some(ints) => Some(interpreted(message_of(ints, scripts.len()), scripts.len())),
        },
    }
}

/// Appends the bytes of `source` to `target`.
fn append_bytes(target: &mut Vec<u8>, source: &Vec<u8>)
    ensures
        final(target)@ == old(target)@ + source@,
{
    let mut i: usize = 0;
    assert(target@ =~= old(target)@ + source@.take(0));
    while i < source.len()
        invariant
            i <= source@.len(),
            target@ == old(target)@ + source@.take(i as int),
        decreases source@.len() - i,
    {
        assert(target@.push(source@[i as int]) =~= old(target)@ + source@.take(i + 1));
        target.push(source[i]);
        i = i + 1;
    }
    assert(source@.take(source@.len() as int) =~= source@);
}

/// Whether `instruction` is the opcode `op`.
fn is_opcode(instruction: &Instruction, op: u8) -> (r: bool)
    ensures
        r == (instruction@ == InstructionView::Op(op)),
{
    match instruction {
        Instruction::Op(code) => *code == op,
        _ => false,
    }
}

/// The payload that the instructions of `list` push, from the third on.
fn pushed(list: &Vec<Instruction>) -> (r: Payload)
    requires
        list@.len() >= 2,
    ensures
        payload_view(Some(r)) == Some(pushes(instruction_views(list@).skip(2))),
{
    let ghost views = instruction_views(list@);
    let ghost target = pushes(views.skip(2));
    let mut payload: Vec<u8> = Vec::new();
    let mut m: usize = 2;
    while m < list.len()
        invariant
            2 <= m <= list@.len(),
            views == instruction_views(list@),
            target == pushes(views.skip(2)),
            target == match pushes(views.skip(m as int)) {
                Ok(rest) => Ok::<Seq<u8>, Flaw>(payload@ + rest),
                Err(flaw) => Err(flaw),
            },
        decreases list@.len() - m,
    {
        let ghost here = views.skip(m as int);
        assert(here[0] == list@[m as int]@);
        assert(here.skip(1) =~= views.skip(m + 1));
        match &list[m] {
            Instruction::PushBytes(bytes) => {
                proof {
                    match pushes(views.skip(m + 1)) {
                        Ok(rest) => {
                            assert(payload@ + bytes@ + rest =~= payload@ + (bytes@ + rest));
                        },
                        Err(_) => {},
                    }
                }
                append_bytes(&mut payload, bytes);
            },
            Instruction::Op(_) => {
                assert(pushes(here) == Err::<Seq<u8>, Flaw>(Flaw::Opcode));
                return Payload::Invalid(Flaw::Opcode);
            },
            Instruction::Error => {
                assert(pushes(here) == Err::<Seq<u8>, Flaw>(Flaw::InvalidScript));
                return Payload::Invalid(Flaw::InvalidScript);
            },
        }
        m = m + 1;
    }
    assert(views.skip(m as int).len() == 0);
    assert(payload@ + Seq::<u8>::empty() =~= payload@);
    Payload::Valid(payload)
}

/// What the fields and the flaws found before them make of a message.
fn interpret(message: Message, outputs: usize) -> (r: Artifact)
    ensures
        r@ == interpreted(message@, outputs as nat),
{
    let fields: Fields = fold(&message.fields, outputs);
    let mut flaws: Flaws = message.flaws;
    let premine: Option<u128> = fields.premine.get();
    let cap: Option<u128> = fields.cap.get();
    let amount: Option<u128> = fields.amount.get();
    if supply_overflow(premine, cap, amount) {
        flaws.insert(Flaw::SupplyOverflow);
    }
    let mut flags: u128 = match fields.flags {
        Slot::Taken(v) => v,
        _ => 0,
    };
    let ghost all = flags;
    let etches: bool = Flag::Etching.take(&mut flags);
    let ghost rest = flags;
    let has_terms: bool = Flag::Terms.take(&mut flags);
    proof {
        assert(Flag::Etching.weight() == 1 && Flag::Terms.weight() == 2);
        assert(all / 1 == all);
        assert(rest == all - all % 2);
        assert(rest / 2 == all / 2);
        assert(flags == rest - 2 * ((all / 2) % 2));
        assert(flags == 4 * (all / 4));
    }
    let half_mint: bool = match fields.mint {
        MintSlot::Block(_) => true,
        _ => false,
    };
    assert(Flag::Terms.set_in(flags_of(fields)) == has_terms);
    assert((flags != 0) == (flags_of(fields) / 4 != 0));
    if fields.left_over || flags != 0 || half_mint {
        flaws.insert(Flaw::UnrecognisedEvenTag);
    }
    proof {
        assert(single(Tag::Divisibility) && single(Tag::Spacers) && single(Tag::Symbol) && single(
            Tag::Pointer,
        ) && single(Tag::HeightStart) && single(Tag::HeightEnd) && single(Tag::OffsetStart)
            && single(Tag::OffsetEnd));
        assert(fields.slot(Tag::Divisibility) == fields.divisibility);
        assert(fields.slot(Tag::Spacers) == fields.spacers);
        assert(fields.slot(Tag::Symbol) == fields.symbol);
        assert(fields.slot(Tag::Pointer) == fields.pointer);
        assert(fields.slot(Tag::HeightStart) == fields.height_start);
        assert(fields.slot(Tag::HeightEnd) == fields.height_end);
        assert(fields.slot(Tag::OffsetStart) == fields.offset_start);
        assert(fields.slot(Tag::OffsetEnd) == fields.offset_end);
    }
    let rune: Option<Rune> = match fields.rune {
        Slot::Taken(v) => Some(Rune(v)),
        _ => None,
    };
    let etching: Option<Etching> = if etches {
        Some(
            Etching {
                divisibility: match fields.divisibility {
                    Slot::Taken(v) => Some(v as u8),
                    _ => None,
                },
                premine,
                rune,
                spacers: match fields.spacers {
                    Slot::Taken(v) => Some(v as u32),
                    _ => None,
                },
                symbol: match fields.symbol {
                    Slot::Taken(v) => char::from_u32(v as u32),
                    _ => None,
                },
                terms: if has_terms {
                    Some(
                        Terms {
                            amount,
                            cap,
                            height: (as_height(fields.height_start), as_height(fields.height_end)),
                            offset: (as_height(fields.offset_start), as_height(fields.offset_end)),
                        },
                    )
                } else {
                    None
                },
            },
        )
    } else {
        None
    };
    let mint: Option<RuneId> = match fields.mint {
        MintSlot::Taken(id) => Some(id),
        _ => None,
    };
    if flaws.is_empty() {
        Artifact::Runestone(
            Runestone {
                edicts: message.edicts,
                etching,
                mint,
                pointer: match fields.pointer {
                    Slot::Taken(v) => Some(v as u32),
                    _ => None,
                },
            },
        )
    } else {
        Artifact::Cenotaph(
            Cenotaph {
                etching: if etches {
                    rune
                } else {
                    None
                },
                mint,
                flaws,
            },
        )
    }
}

/// The value of a slot, as a height.
fn as_height(slot: Slot) -> (r: Option<u64>)
    requires
        slot matches Slot::Taken(v) ==> v <= u64::MAX,
    ensures
        r == height_of(slot),
{
    match slot {
        Slot::Taken(v) => Some(v as u64),
        _ => None,
    }
}

impl Runestone {

    /// The payload of the first output of `tx` whose script carries a runes
    /// message.
    pub fn payload(tx: &Tx) -> (r: Option<Payload>)
        ensures
            payload_view(r) == payload_of(tx.scripts()),
    {
        let ghost scripts = tx.scripts();
        let mut k: usize = 0;
        assert(scripts.skip(0) =~= scripts);
        while k < tx.output.len()
            invariant
                k <= tx.output@.len(),
                scripts == tx.scripts(),
                payload_of(scripts) == payload_of(scripts.skip(k as int)),
            decreases tx.output@.len() - k,
        {
            let ghost here = scripts.skip(k as int);
            assert(here[0] == tx.output@[k as int].script_pubkey@);
            assert(here.skip(1) =~= scripts.skip(k + 1));
            let list: Vec<Instruction> = script_instructions(&tx.output[k].script_pubkey);
            let ghost views = instruction_views(list@);
            if list.len() >= 2 {
                assert(views[0] == list@[0]@);
                assert(views[1] == list@[1]@);
                if is_opcode(&list[0], OP_RETURN) && is_opcode(&list[1], MAGIC_NUMBER) {
                    return Some(pushed(&list));
                }
            }
            k = k + 1;
        }
        assert(scripts.skip(k as int).len() == 0);
        None
    }

    /// The integers that `payload` encodes, where it encodes a list of them.
    pub fn integers(payload: &[u8]) -> (r: Option<Vec<u128>>)
        ensures
            integers_view(r) == integers_of(payload@),
    {
        let mut out: Vec<u128> = Vec::new();
        let mut i: usize = 0;
        let len: usize = payload.len();
        assert(payload@.skip(0) =~= payload@);
        while i < len
            invariant
                i <= len == payload@.len(),
                integers_of(payload@) == match integers_of(payload@.skip(i as int)) {
                    Some(rest) => Some(out@ + rest),
                    None => None,
                },
            decreases len - i,
        {
            let rest: &[u8] = slice_subrange(payload, i, len);
            assert(rest@ =~= payload@.skip(i as int));
            match decode(rest) {
                Err(_) => {
                    return None;
                },
                Ok((n, used)) => {
                    proof {
                        assert(payload@.skip(i as int).skip(used as int) =~= payload@.skip(
                            i + used,
                        ));
                        match integers_of(payload@.skip(i + used)) {
                            Some(after) => {
                                assert(out@.push(n) + after =~= out@ + (seq![n] + after));
                            },
                            None => {},
                        }
                    }
                    out.push(n);
                    i = i + used;
                },
            }
        }
        assert(out@ + Seq::<u128>::empty() =~= out@);
        Some(out)
    }

    /// The runes message of `tx`, if it has one.
    pub fn decipher(tx: &Tx) -> (r: Option<Artifact>)
        ensures
            artifact_view(r) == deciphered(tx.scripts()),
    {
        let payload: Vec<u8> = match Runestone::payload(tx) {
            None => {
                return None;
            },
            Some(Payload::Invalid(flaw)) => {
                return Some(
                    Artifact::Cenotaph(
                        Cenotaph { etching: None, mint: None, flaws: Flaws::of(flaw) },
                    ),
                );
            },
            Some(Payload::Valid(bytes)) => bytes,
        };
        let integers: Vec<u128> = match Runestone::integers(payload.as_slice()) {
            None => {
                return Some(
                    Artifact::Cenotaph(
                        Cenotaph { etching: None, mint: None, flaws: Flaws::of(Flaw::Varint) },
                    ),
                );
            },
            Some(list) => list,
        };
        let message: Message = Message::from_integers(tx.output.len(), integers.as_slice());
        assert(tx.scripts().len() == tx.output@.len());
        Some(interpret(message, tx.output.len()))
    }

    /// The runes message of `tx`, if it has one.
    pub fn from_transaction(tx: &Tx) -> (r: Option<Artifact>)
        ensures
            artifact_view(r) == deciphered(tx.scripts()),
    {
        Runestone::decipher(tx)
    }
}

} // verus!
