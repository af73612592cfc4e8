//! The proof that whoever etches a name knew it some blocks before: an input
//! of the etching transaction spends a taproot output, old enough, and
//! carries in its script a push of the bytes of the name.

use vstd::prelude::*;
use crate::rune::Rune;
use crate::rune::minimal_le_bytes;
use crate::script::Instruction;
use crate::script::InstructionView;
use crate::script::instruction_views;
use crate::script::instructions;
use crate::script::is_v1_p2tr;
use crate::script::pays_to_taproot;
use crate::script::script_instructions;
use crate::script::tapscript_of;
use crate::script::witness_size;
use crate::script::witness_tapscript;
use crate::tx::PrevOut;
use crate::tx::Tx;

verus! {

/// The number of blocks that must confirm the output that commits to a name
/// before the name can be etched.
pub const COMMIT_INTERVAL: u32 = 6;

/// What is known of a spent output, as the contracts see it.
pub struct PrevOutView {
    pub script_pubkey: Seq<u8>,
    pub confirmations: Option<u32>,
}

impl View for PrevOut {
    type V = PrevOutView;

    open spec fn view(&self) -> PrevOutView {
        PrevOutView { script_pubkey: self.script_pubkey@, confirmations: self.confirmations }
    }
}

/// The views of what is known of the spent outputs.
pub open spec fn prevout_views(prevouts: Seq<Option<PrevOut>>) -> Seq<Option<PrevOutView>> {
    Seq::new(
        prevouts.len(),
        |i: int|
            match prevouts[i] {
                Some(p) => Some(p@),
                None => None,
            },
    )
}

/// Whether the instructions of `list` hold a push of `commitment` before the
/// place, if any, from which they cannot be read.
pub open spec fn commits_in(list: Seq<InstructionView>, commitment: Seq<u8>) -> bool
    decreases list.len(),
{
    if list.len() == 0 {
        false
    } else {
        match list[0] {
            InstructionView::Error => false,
            InstructionView::PushBytes(bytes) => bytes == commitment || commits_in(
                list.skip(1),
                commitment,
            ),
            InstructionView::Op(_) => commits_in(list.skip(1), commitment),
        }
    }
}

/// Whether the script inside the witness `witness` holds a push of
/// `commitment`. A witness that takes 4 GiB or more is in no block and holds
/// no commitment.
pub open spec fn input_commits(witness: Seq<Seq<u8>>, commitment: Seq<u8>) -> bool {
    witness_size(witness) <= u32::MAX && match tapscript_of(witness) {
        Some(script) => commits_in(instructions(script), commitment),
        None => false,
    }
}

/// A witness takes at least as many bytes as its first items do.
proof fn lemma_witness_size_grows(witness: Seq<Seq<u8>>, i: int)
    requires
        0 <= i <= witness.len(),
    ensures
        witness_size(witness.take(i)) <= witness_size(witness),
    decreases witness.len() - i,
{
    if i == witness.len() {
        assert(witness.take(i) =~= witness);
    } else {
        lemma_witness_size_grows(witness, i + 1);
        assert(witness.take(i + 1).drop_last() =~= witness.take(i));
    }
}

/// Whether `witness` takes less than 4 GiB where it is kept as one run of
/// bytes.
pub fn witness_fits(witness: &Vec<Vec<u8>>) -> (r: bool)
    ensures
        r == (witness_size(witness.deep_view()) <= u32::MAX),
{
    let ghost items = witness.deep_view();
    let mut size: u64 = 0;
    let mut i: usize = 0;
    assert(items.take(0) =~= Seq::<Seq<u8>>::empty());
    while i < witness.len()
        invariant
            i <= witness@.len(),
            items == witness.deep_view(),
            size == witness_size(items.take(i as int)),
            size <= u32::MAX,
        decreases witness@.len() - i,
    {
        let len: usize = witness[i].len();
        proof {
            assert(items.take(i + 1).drop_last() =~= items.take(i as int));
            assert(items.take(i + 1).last() == witness@[i as int]@);
            lemma_witness_size_grows(items, i + 1);
        }
        if len > 0xFFFF_FFFF {
            return false;
        }
        let prefix: u64 = if len <= 0xFC {
            1
        } else if len <= 0xFFFF {
            3
        } else {
            5
        };
        size = size + len as u64 + prefix + 4;
        if size > 0xFFFF_FFFF {
            return false;
        }
        i = i + 1;
    }
    assert(items.take(i as int) =~= items);
    true
}

/// Whether the spent output is a taproot output with enough confirmations.
pub open spec fn confirmed(prevout: PrevOutView) -> bool {
    pays_to_taproot(prevout.script_pubkey) && match prevout.confirmations {
        Some(c) => c >= COMMIT_INTERVAL,
        None => false,
    }
}

/// Whether an input at place `from` or later commits to `commitment`: its
/// script holds the push, and the output it spends is a taproot output with
/// enough confirmations. Where the script of an input holds the push and
/// nothing is known of the output it spends, the place of that input is
/// given instead.
pub open spec fn commits_from(
    witnesses: Seq<Seq<Seq<u8>>>,
    prevouts: Seq<Option<PrevOutView>>,
    commitment: Seq<u8>,
    from: int,
) -> Result<bool, int>
    decreases witnesses.len() - from,
{
    if from >= witnesses.len() || from < 0 {
        Ok(false)
    } else if !input_commits(witnesses[from], commitment) {
        commits_from(witnesses, prevouts, commitment, from + 1)
    } else if from >= prevouts.len() || prevouts[from] is None {
        Err(from)
    } else if confirmed(prevouts[from]->Some_0) {
        Ok(true)
    } else {
        commits_from(witnesses, prevouts, commitment, from + 1)
    }
}

/// Whether `a` and `b` hold the same bytes.
pub fn same_bytes(a: &Vec<u8>, b: &Vec<u8>) -> (r: bool)
    ensures
        r == (a@ == b@),
{
    if a.len() != b.len() {
        return false;
    }
    let mut i: usize = 0;
    while i < a.len()
        invariant
            i <= a@.len() == b@.len(),
            forall|k: int| 0 <= k < i ==> a@[k] == b@[k],
        decreases a@.len() - i,
    {
        if a[i] != b[i] {
            return false;
        }
        i = i + 1;
    }
    assert(a@ =~= b@);
    true
}

/// Whether the script inside `witness` holds a push of `commitment`.
pub fn witness_commits(witness: &Vec<Vec<u8>>, commitment: &Vec<u8>) -> (r: bool)
    ensures
        r == input_commits(witness.deep_view(), commitment@),
{
    if !witness_fits(witness) {
        return false;
    }
    let script: Vec<u8> = match witness_tapscript(witness) {
        Some(script) => script,
        None => {
            return false;
        },
    };
    let list: Vec<Instruction> = script_instructions(&script);
    let ghost views = instruction_views(list@);
    let mut i: usize = 0;
    assert(views.skip(0) =~= views);
    while i < list.len()
        invariant
            i <= list@.len(),
            views == instruction_views(list@),
            input_commits(witness.deep_view(), commitment@) == commits_in(views, commitment@),
            commits_in(views, commitment@) == commits_in(views.skip(i as int), commitment@),
        decreases list@.len() - i,
    {
        let ghost here = views.skip(i as int);
        assert(here[0] == list@[i as int]@);
        assert(here.skip(1) =~= views.skip(i + 1));
        match &list[i] {
            Instruction::Error => {
                return false;
            },
            Instruction::PushBytes(bytes) => {
                if same_bytes(bytes, commitment) {
                    return true;
                }
            },
            Instruction::Op(_) => {},
        }
        i = i + 1;
    }
    assert(views.skip(i as int).len() == 0);
    false
}

/// The inputs of `tx` whose scripts hold a push of the commitment to `rune`:
/// those of which the spent output has to be known to tell whether the
/// transaction commits to the rune.
pub fn commit_inputs(tx: &Tx, rune: Rune) -> (r: Vec<bool>)
    ensures
        r@.len() == tx.input@.len(),
        forall|i: int|
            0 <= i < r@.len() ==> r@[i] == input_commits(
                #[trigger] tx.witnesses()[i],
                minimal_le_bytes(rune.0 as nat),
            ),
{
    let commitment: Vec<u8> = rune.commitment();
    let mut out: Vec<bool> = Vec::new();
    let mut i: usize = 0;
    while i < tx.input.len()
        invariant
            i <= tx.input@.len(),
            out@.len() == i,
            commitment@ == minimal_le_bytes(rune.0 as nat),
            forall|k: int|
                0 <= k < i ==> out@[k] == input_commits(
                    #[trigger] tx.witnesses()[k],
                    minimal_le_bytes(rune.0 as nat),
                ),
        decreases tx.input@.len() - i,
    {
        let found: bool = witness_commits(&tx.input[i].witness, &commitment);
        assert(tx.witnesses()[i as int] == tx.input@[i as int].witness.deep_view());
        out.push(found);
        i = i + 1;
    }
    out
}

/// Whether `tx` commits to `rune`, given what is known of the outputs that
/// its inputs spend, one entry to an input. Where the script of an input
/// holds the commitment and nothing is known of the output it spends, the
/// place of that input is the error.
pub fn tx_commits_to_rune(tx: &Tx, rune: Rune, prevouts: &Vec<Option<PrevOut>>) -> (r: Result<
    bool,
    usize,
>)
    ensures
        match r {
            Ok(found) => commits_from(
                tx.witnesses(),
                prevout_views(prevouts@),
                minimal_le_bytes(rune.0 as nat),
                0,
            ) == Ok::<bool, int>(found),
            Err(place) => commits_from(
                tx.witnesses(),
                prevout_views(prevouts@),
                minimal_le_bytes(rune.0 as nat),
                0,
            ) == Err::<bool, int>(place as int),
        },
{
    let commitment: Vec<u8> = rune.commitment();
    let ghost witnesses = tx.witnesses();
    let ghost known = prevout_views(prevouts@);
    let mut i: usize = 0;
    while i < tx.input.len()
        invariant
            i <= tx.input@.len(),
            witnesses == tx.witnesses(),
            known == prevout_views(prevouts@),
            commitment@ == minimal_le_bytes(rune.0 as nat),
            commits_from(witnesses, known, commitment@, 0) == commits_from(
                witnesses,
                known,
                commitment@,
                i as int,
            ),
        decreases tx.input@.len() - i,
    {
        assert(witnesses[i as int] == tx.input@[i as int].witness.deep_view());
        if witness_commits(&tx.input[i].witness, &commitment) {
            if i >= prevouts.len() {
                return Err(i);
            }
            match &prevouts[i] {
                None => {
                    return Err(i);
                },
                Some(prevout) => {
                    assert(known[i as int] == Some(prevout@));
                    let mature: bool = match prevout.confirmations {
                        Some(c) => c >= COMMIT_INTERVAL,
                        None => false,
                    };
                    if is_v1_p2tr(&prevout.script_pubkey) && mature {
                        return Ok(true);
                    }
                },
            }
        }
        i = i + 1;
    }
    Ok(false)
}

} // verus!
