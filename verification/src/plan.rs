//! What a transaction does to the runes, told before anything is written: the
//! runes that its inputs bring, the mint, the etching, and where every unit
//! ends.

use vstd::prelude::*;
use vstd::string::StringExecFns;
use crate::artifact::ArtifactView;
use crate::balances::Balances;
use crate::balances::amount_of;
use crate::balances::credited;
use crate::balances::positive;
use crate::balances::sorted;
use crate::commit::PrevOutView;
use crate::commit::commits_from;
use crate::db::RuneEntryView;
use crate::db::RuneTxoView;
use crate::db::Terms;
use crate::db::TransactionView;
use crate::db::TxoView;
use crate::mint::mint_of;
use crate::mock_db::SelectView;
use crate::mock_db::StoreError;
use crate::mock_db::StoreState;
use crate::mock_db::selected;
use crate::network::Network;
use crate::network::SUBSIDY_HALVING_INTERVAL;
use crate::pots::FIRST_OUTPUT;
use crate::rune::RESERVED;
use crate::rune::Rune;
use crate::rune::minimal_le_bytes;
use crate::rune::minimum_length;
use crate::rune::name;
use crate::rune::repeated_a;
use crate::rune_id::RuneId;
use crate::script::address_of_script;
use crate::script::is_op_return;
use crate::script::lowercase_of;
use crate::script::starts_with_return;
use crate::spaced_rune::spaced;
use crate::tx::Tx;

verus! {

/// Why a transaction cannot be indexed.
#[derive(Copy, Clone, Debug, PartialEq, Eq, Structural)]
pub enum IndexError {
    /// An amount of a rune leaves 128 bits.
    Overflow,
    /// The input at this place commits to the name that the transaction
    /// etches, and nothing is known of the output that it spends.
    MissingPrevOut(usize),
    /// The transaction has more outputs than can be counted in 32 bits.
    TooManyOutputs,
    /// The store refuses the rune that the transaction etches.
    Store(StoreError),
}

/// The most outputs that a transaction can have to be indexed.
pub const MAX_OUTPUTS: usize = 0xFFFF_FFF0;

/// `list` with `amount` more of `id`, unless that leaves 128 bits.
pub open spec fn credit_checked(list: Seq<(RuneId, u128)>, id: RuneId, amount: u128) -> Option<
    Seq<(RuneId, u128)>,
> {
    if amount_of(list, id) + amount > u128::MAX {
        None
    } else {
        Some(credited(list, id, amount as nat))
    }
}

/// `list` with the amounts of `rows` added, each to its rune, unless a sum
/// leaves 128 bits.
pub open spec fn gathered(list: Seq<(RuneId, u128)>, rows: Seq<RuneTxoView>) -> Option<
    Seq<(RuneId, u128)>,
>
    decreases rows.len(),
{
    if rows.len() == 0 {
        Some(list)
    } else {
        match credit_checked(list, rows[0].rune_id, rows[0].amount) {
            None => None,
            Some(next) => gathered(next, rows.skip(1)),
        }
    }
}

/// `list` with all the rune amounts added that stand on the outputs
/// `points`, unless a sum leaves 128 bits.
pub open spec fn unallocated_from(
    store: StoreState,
    points: Seq<(Seq<char>, u32)>,
    list: Seq<(RuneId, u128)>,
) -> Option<Seq<(RuneId, u128)>>
    decreases points.len(),
{
    if points.len() == 0 {
        Some(list)
    } else {
        match gathered(
            list,
            selected(store.rune_txos, SelectView::Outpoint(points[0].0, points[0].1)),
        ) {
            None => None,
            Some(next) => unallocated_from(store, points.skip(1), next),
        }
    }
}

/// `into` with the amounts of `from` added, each to its rune, unless a sum
/// leaves 128 bits.
pub open spec fn merged(into: Seq<(RuneId, u128)>, from: Seq<(RuneId, u128)>) -> Option<
    Seq<(RuneId, u128)>,
>
    decreases from.len(),
{
    if from.len() == 0 {
        Some(into)
    } else if from[0].1 == 0 {
        merged(into, from.skip(1))
    } else {
        match credit_checked(into, from[0].0, from[0].1) {
            None => None,
            Some(next) => merged(next, from.skip(1)),
        }
    }
}

/// The rune and the amount of the mint that a message asks for, where the
/// store knows the rune and the rune can be minted at `height`.
pub open spec fn minting(store: StoreState, mint: Option<RuneId>, height: u64) -> Option<
    (RuneId, u128),
> {
    match mint {
        None => None,
        Some(id) => match store.rune(id) {
            None => None,
            Some(entry) => match mint_of(entry, height) {
                Ok(amount) => Some((id, amount)),
                Err(_) => None,
            },
        },
    }
}

/// The name that a message asks to etch: none where it etches nothing, an
/// absent name where it etches and leaves the name to be given.
pub open spec fn wanted(artifact: ArtifactView) -> Option<Option<Rune>> {
    match artifact {
        ArtifactView::Runestone(runestone) => match runestone.etching {
            Some(etching) => Some(etching.rune),
            None => None,
        },
        ArtifactView::Cenotaph(cenotaph) => match cenotaph.etching {
            Some(rune) => Some(Some(rune)),
            None => None,
        },
    }
}

/// The smallest number of a name that may be chosen at `height` on `chain`.
pub open spec fn minimum(chain: Network, height: u32) -> nat {
    repeated_a(
        minimum_length(
            (SUBSIDY_HALVING_INTERVAL * chain.activation_halvings()) as nat,
            height as nat,
        ),
    )
}

/// The identifier and the name of the rune that the transaction at place
/// `tx_index` of the block at `height` etches, if any. A name that is given
/// is taken where it is long enough for the height, not reserved, not taken,
/// and committed to; a name that is not given is the reserved name of the
/// transaction. Where the commitment cannot be judged, the place of the
/// input of which too little is known is the error.
pub open spec fn etched_of(
    store: StoreState,
    chain: Network,
    height: u32,
    tx_index: u32,
    artifact: ArtifactView,
    witnesses: Seq<Seq<Seq<u8>>>,
    prevouts: Seq<Option<PrevOutView>>,
) -> Result<Option<(RuneId, Rune)>, int> {
    let id = RuneId { block: height as u64, tx: tx_index };
    match wanted(artifact) {
        None => Ok(None),
        Some(None) => Ok(
            Some((id, Rune((RESERVED + height * 0x1_0000_0000 + tx_index) as u128))),
        ),
        Some(Some(rune)) => if rune.0 < minimum(chain, height) || rune.0 >= RESERVED
            || store.rune_named(name(rune.0 as nat)) is Some {
            Ok(None)
        } else {
            match commits_from(witnesses, prevouts, minimal_le_bytes(rune.0 as nat), 0) {
                Err(place) => Err(place),
                Ok(false) => Ok(None),
                Ok(true) => Ok(Some((id, rune))),
            }
        },
    }
}

/// The terms of an etching, as they are stored.
pub open spec fn stored_terms(terms: Option<crate::etching::Terms>) -> Option<Terms> {
    match terms {
        None => None,
        Some(t) => Some(
            Terms {
                amount: t.amount,
                cap: t.cap,
                height_start: t.height.0,
                height_end: t.height.1,
                offset_start: t.offset.0,
                offset_end: t.offset.1,
            },
        ),
    }
}

/// The value that is there, or zero.
pub open spec fn or_default(value: Option<u128>) -> u128 {
    match value {
        Some(v) => v,
        None => 0,
    }
}

/// The entry of the rune `rune` with the identifier `id`, etched by the
/// transaction `tx_id` with the message `artifact`. The rune of a cenotaph
/// has a name and nothing else: no supply, no terms.
pub open spec fn entry_of(
    tx_id: Seq<char>,
    artifact: ArtifactView,
    id: RuneId,
    rune: Rune,
    time: u32,
) -> RuneEntryView {
    let raw = name(rune.0 as nat);
    let etching = match artifact {
        ArtifactView::Runestone(runestone) => runestone.etching,
        ArtifactView::Cenotaph(_) => None,
    };
    RuneEntryView {
        etching_tx_id: tx_id,
        block_height: id.block,
        rune_id: id,
        name: match etching {
            Some(e) => spaced(
                raw,
                match e.spacers {
                    Some(s) => s,
                    None => 0,
                },
                raw.len(),
            ),
            None => raw,
        },
        raw_name: raw,
        symbol: match etching {
            Some(e) => e.symbol,
            None => None,
        },
        divisibility: match etching {
            Some(e) => match e.divisibility {
                Some(d) => d,
                None => 0,
            },
            None => 0,
        },
        premine: match etching {
            Some(e) => or_default(e.premine),
            None => 0,
        },
        terms: match etching {
            Some(e) => stored_terms(e.terms),
            None => None,
        },
        burned: 0,
        mint_count: 0,
        timestamp: time,
        is_cenotaph: artifact is Cenotaph,
        rune_number: 0,
    }
}

/// What the etching credits to the rune it creates: the premine of a
/// runestone; nothing for a cenotaph.
pub open spec fn premine_of(artifact: Option<ArtifactView>, etched: Option<(RuneId, Rune)>)
    -> u128 {
    match (artifact, etched) {
        (Some(ArtifactView::Runestone(runestone)), Some(_)) => match runestone.etching {
            Some(etching) => or_default(etching.premine),
            None => 0,
        },
        _ => 0,
    }
}

/// Which outputs can hold runes: those whose script does not start with
/// `OP_RETURN`.
pub open spec fn spendables(scripts: Seq<Seq<u8>>) -> Seq<bool> {
    Seq::new(scripts.len(), |o: int| !starts_with_return(scripts[o]))
}

/// The record of a transaction with the message `artifact`.
pub open spec fn record_of(tx_id: Seq<char>, artifact: ArtifactView, height: u32, time: u32)
    -> TransactionView {
    TransactionView {
        tx_id,
        block_height: height as u64,
        is_runestone: artifact is Runestone,
        is_cenotaph: artifact is Cenotaph,
        cenotaph_message: match artifact {
            ArtifactView::Cenotaph(cenotaph) => Some(cenotaph.flaws.joined()),
            ArtifactView::Runestone(_) => None,
        },
        timestamp: time,
    }
}

/// The address of a script on `chain`, in lower case.
pub open spec fn lower_address(script: Seq<u8>, chain: Network) -> Option<Seq<char>> {
    match address_of_script(script, chain) {
        Some(address) => Some(lowercase_of(address)),
        None => None,
    }
}

/// The row of the output at place `o` of the transaction.
pub open spec fn txo_row(
    tx: Tx,
    tx_id: Seq<char>,
    chain: Network,
    height: u32,
    time: u32,
    o: int,
) -> TxoView {
    TxoView {
        tx_id,
        output_index: o as u32,
        block_height: height as u64,
        value: tx.values()[o] as u128,
        address: address_of_script(tx.scripts()[o], chain),
        address_lowercase: lower_address(tx.scripts()[o], chain),
        is_unspent: true,
        spent_tx_id: None,
        timestamp: time,
    }
}

/// The rows of the first `upto` outputs of the transaction.
pub open spec fn txo_rows(
    tx: Tx,
    tx_id: Seq<char>,
    chain: Network,
    height: u32,
    time: u32,
    upto: int,
) -> Seq<TxoView>
    decreases upto,
{
    if upto <= 0 {
        Seq::empty()
    } else {
        txo_rows(tx, tx_id, chain, height, time, upto - 1).push(
            txo_row(tx, tx_id, chain, height, time, upto - 1),
        )
    }
}

/// The row of `amount` of the rune `id` on the output at place `o` of the
/// transaction.
pub open spec fn rune_row(
    tx: Tx,
    tx_id: Seq<char>,
    chain: Network,
    height: u32,
    time: u32,
    o: int,
    id: RuneId,
    amount: u128,
) -> RuneTxoView {
    RuneTxoView {
        tx_id,
        output_index: o as u32,
        block_height: height as u64,
        rune_id: id,
        amount,
        address: address_of_script(tx.scripts()[o], chain),
        address_lowercase: lower_address(tx.scripts()[o], chain),
        is_unspent: true,
        spent_tx_id: None,
        timestamp: time,
    }
}

/// One row for each amount of `list`, in the order of the list, on the
/// output at place `o` of the transaction.
pub open spec fn list_rows(
    list: Seq<(RuneId, u128)>,
    tx: Tx,
    tx_id: Seq<char>,
    chain: Network,
    height: u32,
    time: u32,
    o: int,
) -> Seq<RuneTxoView> {
    Seq::new(
        list.len(),
        |i: int| rune_row(tx, tx_id, chain, height, time, o, list[i].0, list[i].1),
    )
}

/// The rows of the first `upto` amounts of `list` that are not zero are the
/// rows of those of the first `upto` entries whose amount is not zero.
pub proof fn lemma_pot_rows_positive(
    list: Seq<(RuneId, u128)>,
    tx: Tx,
    tx_id: Seq<char>,
    chain: Network,
    height: u32,
    time: u32,
    o: int,
    upto: int,
)
    requires
        0 <= upto <= list.len(),
    ensures
        pot_rows(list, tx, tx_id, chain, height, time, o, upto) == list_rows(
            positive(list.take(upto)),
            tx,
            tx_id,
            chain,
            height,
            time,
            o,
        ),
    decreases upto,
{
    let rows = pot_rows(list, tx, tx_id, chain, height, time, o, upto);
    let kept = positive(list.take(upto));
    if upto > 0 {
        lemma_pot_rows_positive(list, tx, tx_id, chain, height, time, o, upto - 1);
        assert(list.take(upto).drop_last() =~= list.take(upto - 1));
        assert(list.take(upto).last() == list[upto - 1]);
    }
    assert(rows =~= list_rows(kept, tx, tx_id, chain, height, time, o));
}

/// The rows of the first `upto` amounts of `list` that are not zero, on the
/// output at place `o` of the transaction.
pub open spec fn pot_rows(
    list: Seq<(RuneId, u128)>,
    tx: Tx,
    tx_id: Seq<char>,
    chain: Network,
    height: u32,
    time: u32,
    o: int,
    upto: int,
) -> Seq<RuneTxoView>
    decreases upto,
{
    if upto <= 0 {
        Seq::empty()
    } else if list[upto - 1].1 == 0 {
        pot_rows(list, tx, tx_id, chain, height, time, o, upto - 1)
    } else {
        pot_rows(list, tx, tx_id, chain, height, time, o, upto - 1).push(
            rune_row(tx, tx_id, chain, height, time, o, list[upto - 1].0, list[upto - 1].1),
        )
    }
}

/// The rows of the rune amounts on the first `upto` outputs of the
/// transaction: for each output that can hold runes, in order, one row for
/// each rune that its pot holds, in the order of the runes.
pub open spec fn rune_rows(
    pots: Seq<Seq<(RuneId, u128)>>,
    tx: Tx,
    tx_id: Seq<char>,
    chain: Network,
    height: u32,
    time: u32,
    upto: int,
) -> Seq<RuneTxoView>
    decreases upto,
{
    if upto <= 0 {
        Seq::empty()
    } else if starts_with_return(tx.scripts()[upto - 1]) {
        rune_rows(pots, tx, tx_id, chain, height, time, upto - 1)
    } else {
        rune_rows(pots, tx, tx_id, chain, height, time, upto - 1) + pot_rows(
            pots[FIRST_OUTPUT + upto - 1],
            tx,
            tx_id,
            chain,
            height,
            time,
            upto - 1,
            pots[FIRST_OUTPUT + upto - 1].len() as int,
        )
    }
}

/// Adds `amount` of `id` to `list`, unless the sum leaves 128 bits.
pub fn credit(list: &mut Balances, id: RuneId, amount: u128) -> (r: bool)
    requires
        sorted(old(list)@),
    ensures
        sorted(final(list)@),
        match credit_checked(old(list)@, id, amount) {
            Some(next) => r && final(list)@ == next,
            None => !r && final(list)@ == old(list)@,
        },
{
    list.add(id, amount)
}

/// Which outputs of `tx` can hold runes.
pub fn spendable_outputs(tx: &Tx) -> (r: Vec<bool>)
    ensures
        r@ == spendables(tx.scripts()),
{
    let mut out: Vec<bool> = Vec::new();
    let mut o: usize = 0;
    while o < tx.output.len()
        invariant
            o <= tx.output@.len(),
            out@.len() == o,
            forall|k: int| 0 <= k < o ==> out@[k] == !starts_with_return(#[trigger] tx.scripts()[k]),
        decreases tx.output@.len() - o,
    {
        let unspendable: bool = is_op_return(&tx.output[o].script_pubkey);
        assert(tx.scripts()[o as int] == tx.output@[o as int].script_pubkey@);
        out.push(!unspendable);
        o = o + 1;
    }
    assert(out@ =~= spendables(tx.scripts()));
    out
}

/// Adds the amounts of `from` to `into`, each to its rune, unless a sum
/// leaves 128 bits.
pub fn merge(into: &mut Balances, from: &Balances) -> (r: bool)
    requires
        sorted(old(into)@),
    ensures
        sorted(final(into)@),
        match merged(old(into)@, from@) {
            Some(next) => r && final(into)@ == next,
            None => !r,
        },
{
    let mut i: usize = 0;
    assert(from@.skip(0) =~= from@);
    while i < from.entries.len()
        invariant
            i <= from@.len(),
            sorted(into@),
            merged(old(into)@, from@) == merged(into@, from@.skip(i as int)),
        decreases from@.len() - i,
    {
        let entry: (RuneId, u128) = from.entries[i];
        let ghost rest = from@.skip(i as int);
        assert(rest[0] == entry);
        assert(rest.skip(1) =~= from@.skip(i + 1));
        if entry.1 != 0 {
            if !credit(into, entry.0, entry.1) {
                return false;
            }
        }
        i = i + 1;
    }
    assert(from@.skip(i as int).len() == 0);
    true
}

/// The terms of an etching, as they are stored.
pub fn store_terms(terms: Option<crate::etching::Terms>) -> (r: Option<Terms>)
    ensures
        r == stored_terms(terms),
{
    match terms {
        None => None,
        Some(t) => Some(
            Terms {
                amount: t.amount,
                cap: t.cap,
                height_start: t.height.0,
                height_end: t.height.1,
                offset_start: t.offset.0,
                offset_end: t.offset.1,
            },
        ),
    }
}

} // verus!
