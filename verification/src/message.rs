//! The integers of a runes message, parted into fields and edicts.

use vstd::prelude::*;
use crate::edict::Edict;
use crate::flaw::Flaw;
use crate::flaw::Flaws;
use crate::rune_id::RuneId;

verus! {

/// The parts of a message: the pairs of tag and value before the body tag, in
/// order, the edicts after it, and what was found wrong on the way.
#[derive(Clone, Debug, PartialEq, Eq)]
pub struct Message {
    pub flaws: Flaws,
    pub edicts: Vec<Edict>,
    pub fields: Vec<(u128, u128)>,
}

/// The parts of a message, as the contracts see it.
pub struct MessageView {
    pub flaws: Flaws,
    pub edicts: Seq<Edict>,
    pub fields: Seq<(u128, u128)>,
}

impl View for Message {
    type V = MessageView;

    open spec fn view(&self) -> MessageView {
        MessageView { flaws: self.flaws, edicts: self.edicts@, fields: self.fields@ }
    }
}

/// The edicts that the integers `ints` spell after the rune `id`, four
/// integers to an edict, and the flaw that ends the reading, if any.
pub open spec fn body_edicts(ints: Seq<u128>, id: RuneId, outputs: nat) -> (Seq<Edict>, Flaws)
    decreases ints.len(),
{
    if ints.len() == 0 {
        (Seq::empty(), Flaws::none())
    } else if ints.len() < 4 {
        (Seq::empty(), Flaws::none().with(Flaw::TrailingIntegers))
    } else {
        match id.step(ints[0] as nat, ints[1] as nat) {
            None => (Seq::empty(), Flaws::none().with(Flaw::EdictRuneId)),
            Some(next) => match Edict::of_integers(outputs, next, ints[2], ints[3]) {
                None => (Seq::empty(), Flaws::none().with(Flaw::EdictOutput)),
                Some(edict) => {
                    let rest = body_edicts(ints.skip(4), next, outputs);
                    (seq![edict] + rest.0, rest.1)
                },
            },
        }
    }
}

/// The parts of the message that the integers `ints` spell in a transaction
/// with `outputs` outputs.
pub open spec fn message_of(ints: Seq<u128>, outputs: nat) -> MessageView
    decreases ints.len(),
{
    if ints.len() == 0 {
        MessageView { flaws: Flaws::none(), edicts: Seq::empty(), fields: Seq::empty() }
    } else if ints[0] == 0 {
        let body = body_edicts(ints.skip(1), RuneId { block: 0, tx: 0 }, outputs);
        MessageView { flaws: body.1, edicts: body.0, fields: Seq::empty() }
    } else if ints.len() == 1 {
        MessageView {
            flaws: Flaws::none().with(Flaw::TruncatedField),
            edicts: Seq::empty(),
            fields: Seq::empty(),
        }
    } else {
        let rest = message_of(ints.skip(2), outputs);
        MessageView {
            flaws: rest.flaws,
            edicts: rest.edicts,
            fields: seq![(ints[0], ints[1])] + rest.fields,
        }
    }
}

impl Message {
    /// Parts the integers of a message in a transaction with `outputs`
    /// outputs.
    pub fn from_integers(outputs: usize, payload: &[u128]) -> (r: Message)
        ensures
            r@ == message_of(payload@, outputs as nat),
    {
        let len: usize = payload.len();
        let ghost whole = message_of(payload@, outputs as nat);
        let mut fields: Vec<(u128, u128)> = Vec::new();
        let mut edicts: Vec<Edict> = Vec::new();
        let mut flaws: Flaws = Flaws::new();
        let mut i: usize = 0;
        assert(payload@.skip(0) =~= payload@);
        assert(fields@ + whole.fields =~= whole.fields);
        while i < len
            invariant
                i <= len == payload@.len(),
                edicts@ =~= Seq::<Edict>::empty(),
                flaws == Flaws::none(),
                whole == message_of(payload@, outputs as nat),
                whole.fields == fields@ + message_of(payload@.skip(i as int), outputs as nat).fields,
                whole.edicts == message_of(payload@.skip(i as int), outputs as nat).edicts,
                whole.flaws == message_of(payload@.skip(i as int), outputs as nat).flaws,
            decreases len - i,
        {
            let ghost here = payload@.skip(i as int);
            let tag: u128 = payload[i];
            assert(here[0] == tag);
            if tag == 0 {
                let ghost body = here.skip(1);
                let ghost target = body_edicts(body, RuneId { block: 0, tx: 0 }, outputs as nat);
                let mut id: RuneId = RuneId { block: 0, tx: 0 };
                let mut j: usize = i + 1;
                assert(body =~= payload@.skip(j as int));
                assert(edicts@ + target.0 =~= target.0);
                proof {
                    if j >= len {
                        assert(payload@.skip(j as int).len() == 0);
                        assert(edicts@ + Seq::<Edict>::empty() =~= edicts@);
                    }
                }
                while j < len
                    invariant_except_break
                        flaws == Flaws::none(),
                        target.0 == edicts@ + body_edicts(
                            payload@.skip(j as int),
                            id,
                            outputs as nat,
                        ).0,
                        target.1 == body_edicts(payload@.skip(j as int), id, outputs as nat).1,
                    invariant
                        i < j <= len == payload@.len(),
                    ensures
                        target.0 == edicts@,
                        target.1 == flaws,
                    decreases len - j,
                {
                    let ghost rest = payload@.skip(j as int);
                    if len - j < 4 {
                        flaws.insert(Flaw::TrailingIntegers);
                        assert(edicts@ + Seq::<Edict>::empty() =~= edicts@);
                        break ;
                    }
                    assert(rest[0] == payload@[j as int]);
                    assert(rest[1] == payload@[j + 1]);
                    assert(rest[2] == payload@[j + 2]);
                    assert(rest[3] == payload@[j + 3]);
                    let next: RuneId = match id.next(payload[j], payload[j + 1]) {
                        Some(next) => next,
                        None => {
                            flaws.insert(Flaw::EdictRuneId);
                            assert(edicts@ + Seq::<Edict>::empty() =~= edicts@);
                            break ;
                        },
                    };
                    let edict: Edict = match Edict::from_integers(
                        outputs,
                        next,
                        payload[j + 2],
                        payload[j + 3],
                    ) {
                        Some(edict) => edict,
                        None => {
                            flaws.insert(Flaw::EdictOutput);
                            assert(edicts@ + Seq::<Edict>::empty() =~= edicts@);
                            break ;
                        },
                    };
                    proof {
                        assert(rest.skip(4) =~= payload@.skip(j + 4));
                        let after = body_edicts(payload@.skip(j + 4), next, outputs as nat);
                        assert(edicts@.push(edict) + after.0 =~= edicts@ + (seq![edict] + after.0));
                    }
                    id = next;
                    edicts.push(edict);
                    j = j + 4;
                    proof {
                        if j >= len {
                            assert(payload@.skip(j as int).len() == 0);
                            assert(edicts@ + Seq::<Edict>::empty() =~= edicts@);
                        }
                    }
                }
                proof {
                    assert(fields@ + Seq::<(u128, u128)>::empty() =~= fields@);
                }
                return Message { flaws, edicts, fields };
            }
            if len - i < 2 {
                flaws.insert(Flaw::TruncatedField);
                assert(fields@ + Seq::<(u128, u128)>::empty() =~= fields@);
                return Message { flaws, edicts, fields };
            }
            let value: u128 = payload[i + 1];
            proof {
                assert(here[1] == value);
                assert(here.skip(2) =~= payload@.skip(i + 2));
                let after = message_of(payload@.skip(i + 2), outputs as nat);
                assert(fields@.push((tag, value)) + after.fields =~= fields@ + (seq![(tag, value)]
                    + after.fields));
            }
            fields.push((tag, value));
            i = i + 2;
        }
        proof {
            assert(payload@.skip(i as int).len() == 0);
            assert(fields@ + Seq::<(u128, u128)>::empty() =~= fields@);
        }
        Message { flaws, edicts, fields }
    }
}

} // verus!
