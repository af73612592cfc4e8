//! Nothing is made and nothing is lost: of every rune, what a transaction
//! brings in is what the rows of its outputs hold and what it burns.

use vstd::prelude::*;
use crate::allocation::held;
use crate::allocation::lemma_conservation;
use crate::allocation::orders_of;
use crate::allocation::pots_wf;
use crate::allocation::settled;
use crate::balances::amount_of;
use crate::balances::lemma_amount_of;
use crate::balances::lemma_credited;
use crate::balances::sorted;
use crate::commit::PrevOutView;
use crate::db::RuneTxoView;
use crate::mock_db::SelectView;
use crate::mock_db::StoreState;
use crate::mock_db::selected;
use crate::network::Network;
use crate::plan::MAX_OUTPUTS;
use crate::plan::credit_checked;
use crate::plan::gathered;
use crate::plan::pot_rows;
use crate::plan::rune_rows;
use crate::plan::spendables;
use crate::plan::unallocated_from;
use crate::pots::BURNED;
use crate::pots::FIRST_OUTPUT;
use crate::pots::all_sorted;
use crate::pots::sum_at;
use crate::rune_id::RuneId;
use crate::rune_updaters::UpdaterView;
use crate::rune_updaters::credit_option;
use crate::rune_updaters::etched_id;
use crate::rune_updaters::etched_now;
use crate::rune_updaters::mint_now;
use crate::rune_updaters::planned;
use crate::rune_updaters::premine_credit;
use crate::rune_updaters::start_pots;
use crate::runestone::deciphered;
use crate::script::starts_with_return;
use crate::tx::Tx;

verus! {

/// The sum of the amounts of the rows of `rows` that hold the rune `id`.
pub open spec fn rows_amount(rows: Seq<RuneTxoView>, id: RuneId) -> nat
    decreases rows.len(),
{
    if rows.len() == 0 {
        0
    } else if rows.last().rune_id == id {
        rows_amount(rows.drop_last(), id) + rows.last().amount as nat
    } else {
        rows_amount(rows.drop_last(), id)
    }
}

/// The amount of `id` that an amount of a rune adds: the amount where the
/// rune is `id`, nothing where it is another rune or there is no amount.
pub open spec fn part_of(credit: Option<(RuneId, u128)>, id: RuneId) -> nat {
    match credit {
        Some((rune, amount)) => if rune == id {
            amount as nat
        } else {
            0
        },
        None => 0,
    }
}

/// What a transaction brings in of the rune `id`: what stands on the
/// outputs that it spends, what it mints, and the premine of its etching.
pub open spec fn brought_in(
    u: UpdaterView,
    tx_index: u32,
    tx: Tx,
    prevouts: Seq<Option<PrevOutView>>,
    id: RuneId,
) -> nat {
    let artifact = deciphered(tx.scripts());
    let inputs = unallocated_from(u.database, tx.points(), Seq::empty());
    let etched = etched_now(u, tx_index, tx, artifact, prevouts);
    amount_of(inputs->Some_0, id) + part_of(mint_now(u, artifact), id) + part_of(
        premine_credit(artifact, etched->Ok_0),
        id,
    )
}

proof fn lemma_rows_amount_concat(a: Seq<RuneTxoView>, b: Seq<RuneTxoView>, id: RuneId)
    ensures
        rows_amount(a + b, id) == rows_amount(a, id) + rows_amount(b, id),
    decreases b.len(),
{
    if b.len() == 0 {
        assert(a + b =~= a);
    } else {
        lemma_rows_amount_concat(a, b.drop_last(), id);
        assert((a + b).drop_last() =~= a + b.drop_last());
        assert((a + b).last() == b.last());
    }
}

/// The amount of `id` among the first `upto` entries of `list`.
pub open spec fn listed_amount(list: Seq<(RuneId, u128)>, id: RuneId, upto: int) -> nat
    decreases upto,
{
    if upto <= 0 {
        0
    } else if list[upto - 1].0 == id {
        listed_amount(list, id, upto - 1) + list[upto - 1].1 as nat
    } else {
        listed_amount(list, id, upto - 1)
    }
}

proof fn lemma_listed_amount(list: Seq<(RuneId, u128)>, id: RuneId, upto: int)
    requires
        sorted(list),
        0 <= upto <= list.len(),
    ensures
        listed_amount(list, id, upto) == if exists|q: int|
            0 <= q < upto && (#[trigger] list[q]).0 == id {
            amount_of(list, id)
        } else {
            0
        },
    decreases upto,
{
    lemma_amount_of(list, id);
    if upto > 0 {
        lemma_listed_amount(list, id, upto - 1);
        if list[upto - 1].0 == id {
            if exists|q: int| 0 <= q < upto - 1 && (#[trigger] list[q]).0 == id {
                let q = choose|q: int| 0 <= q < upto - 1 && (#[trigger] list[q]).0 == id;
                assert(list[q].0.before(list[upto - 1].0));
            }
        } else {
            if exists|q: int| 0 <= q < upto && (#[trigger] list[q]).0 == id {
                let q = choose|q: int| 0 <= q < upto && (#[trigger] list[q]).0 == id;
                assert(q < upto - 1);
            }
        }
    }
}

proof fn lemma_pot_rows_amount(
    list: Seq<(RuneId, u128)>,
    tx: Tx,
    tx_id: Seq<char>,
    chain: Network,
    height: u32,
    time: u32,
    o: int,
    upto: int,
    id: RuneId,
)
    requires
        0 <= upto <= list.len(),
    ensures
        rows_amount(pot_rows(list, tx, tx_id, chain, height, time, o, upto), id) == listed_amount(
            list,
            id,
            upto,
        ),
    decreases upto,
{
    if upto > 0 {
        lemma_pot_rows_amount(list, tx, tx_id, chain, height, time, o, upto - 1, id);
        let before = pot_rows(list, tx, tx_id, chain, height, time, o, upto - 1);
        if list[upto - 1].1 != 0 {
            let after = pot_rows(list, tx, tx_id, chain, height, time, o, upto);
            assert(after.drop_last() =~= before);
        }
    }
}

/// Whether the row stands on one of the first `upto` outputs of `tx`, on one
/// that does not start with `OP_RETURN`, unspent and with an amount above
/// zero.
pub open spec fn stands_spendable(row: RuneTxoView, tx: Tx, tx_id: Seq<char>, upto: int) -> bool {
    &&& row.tx_id == tx_id
    &&& row.output_index < upto
    &&& !starts_with_return(tx.scripts()[row.output_index as int])
    &&& row.amount > 0
    &&& row.is_unspent
}

proof fn lemma_pot_rows_stand(
    list: Seq<(RuneId, u128)>,
    tx: Tx,
    tx_id: Seq<char>,
    chain: Network,
    height: u32,
    time: u32,
    o: int,
    upto: int,
)
    requires
        0 <= o < tx.output@.len() <= MAX_OUTPUTS,
        !starts_with_return(tx.scripts()[o]),
    ensures
        forall|i: int|
            0 <= i < pot_rows(list, tx, tx_id, chain, height, time, o, upto).len()
                ==> stands_spendable(
                #[trigger] pot_rows(list, tx, tx_id, chain, height, time, o, upto)[i],
                tx,
                tx_id,
                o + 1,
            ),
    decreases upto,
{
    if upto > 0 {
        lemma_pot_rows_stand(list, tx, tx_id, chain, height, time, o, upto - 1);
        let before = pot_rows(list, tx, tx_id, chain, height, time, o, upto - 1);
        let rows = pot_rows(list, tx, tx_id, chain, height, time, o, upto);
        assert forall|i: int| 0 <= i < rows.len() implies stands_spendable(
            #[trigger] rows[i],
            tx,
            tx_id,
            o + 1,
        ) by {
            if i < before.len() {
                assert(rows[i] == before[i]);
            }
        }
    }
}

/// Every row that a transaction adds stands on one of its outputs that does
/// not start with `OP_RETURN`, and holds an amount above zero. So what the
/// pots hold on an output that starts with `OP_RETURN`, or of which they
/// hold nothing, is in no row.
pub proof fn lemma_rows_stand_spendable(
    pots: Seq<Seq<(RuneId, u128)>>,
    tx: Tx,
    tx_id: Seq<char>,
    chain: Network,
    height: u32,
    time: u32,
    upto: int,
)
    requires
        0 <= upto <= tx.output@.len() <= MAX_OUTPUTS,
    ensures
        forall|i: int|
            0 <= i < rune_rows(pots, tx, tx_id, chain, height, time, upto).len()
                ==> stands_spendable(
                #[trigger] rune_rows(pots, tx, tx_id, chain, height, time, upto)[i],
                tx,
                tx_id,
                upto,
            ),
    decreases upto,
{
    if upto > 0 {
        lemma_rows_stand_spendable(pots, tx, tx_id, chain, height, time, upto - 1);
        let before = rune_rows(pots, tx, tx_id, chain, height, time, upto - 1);
        let rows = rune_rows(pots, tx, tx_id, chain, height, time, upto);
        let list = pots[FIRST_OUTPUT + upto - 1];
        let more = pot_rows(list, tx, tx_id, chain, height, time, upto - 1, list.len() as int);
        if !starts_with_return(tx.scripts()[upto - 1]) {
            lemma_pot_rows_stand(list, tx, tx_id, chain, height, time, upto - 1, list.len() as int);
        }
        assert forall|i: int| 0 <= i < rows.len() implies stands_spendable(
            #[trigger] rows[i],
            tx,
            tx_id,
            upto,
        ) by {
            if i < before.len() {
                assert(rows[i] == before[i]);
            } else {
                assert(rows[i] == more[i - before.len()]);
            }
        }
    }
}

/// The rows of the outputs hold of every rune what the pots of the outputs
/// that can hold runes hold of it.
pub proof fn lemma_rows_hold(
    pots: Seq<Seq<(RuneId, u128)>>,
    tx: Tx,
    tx_id: Seq<char>,
    chain: Network,
    height: u32,
    time: u32,
    upto: int,
    id: RuneId,
)
    requires
        all_sorted(pots),
        0 <= upto <= tx.output@.len(),
        pots.len() == tx.output@.len() + 2,
    ensures
        rows_amount(rune_rows(pots, tx, tx_id, chain, height, time, upto), id) == held(
            pots,
            spendables(tx.scripts()),
            id,
            upto,
        ),
    decreases upto,
{
    if upto > 0 {
        lemma_rows_hold(pots, tx, tx_id, chain, height, time, upto - 1, id);
        let list = pots[FIRST_OUTPUT + upto - 1];
        assert(spendables(tx.scripts())[upto - 1] == !starts_with_return(tx.scripts()[upto - 1]));
        if !starts_with_return(tx.scripts()[upto - 1]) {
            let before = rune_rows(pots, tx, tx_id, chain, height, time, upto - 1);
            let more = pot_rows(
                list,
                tx,
                tx_id,
                chain,
                height,
                time,
                upto - 1,
                list.len() as int,
            );
            lemma_rows_amount_concat(before, more, id);
            lemma_pot_rows_amount(
                list,
                tx,
                tx_id,
                chain,
                height,
                time,
                upto - 1,
                list.len() as int,
                id,
            );
            assert(sorted(list));
            lemma_listed_amount(list, id, list.len() as int);
            lemma_amount_of(list, id);
        }
    }
}

proof fn lemma_credit_checked(list: Seq<(RuneId, u128)>, id: RuneId, amount: u128, other: RuneId)
    requires
        sorted(list),
        credit_checked(list, id, amount) is Some,
    ensures
        sorted(credit_checked(list, id, amount)->Some_0),
        amount_of(credit_checked(list, id, amount)->Some_0, other) == amount_of(list, other)
            + part_of(Some((id, amount)), other),
{
    lemma_credited(list, id, amount as nat, other);
}

proof fn lemma_gathered_sorted(list: Seq<(RuneId, u128)>, rows: Seq<RuneTxoView>)
    requires
        sorted(list),
        gathered(list, rows) is Some,
    ensures
        sorted(gathered(list, rows)->Some_0),
    decreases rows.len(),
{
    if rows.len() > 0 {
        lemma_credit_checked(list, rows[0].rune_id, rows[0].amount, rows[0].rune_id);
        lemma_gathered_sorted(
            credit_checked(list, rows[0].rune_id, rows[0].amount)->Some_0,
            rows.skip(1),
        );
    }
}

proof fn lemma_unallocated_sorted(
    store: StoreState,
    points: Seq<(Seq<char>, u32)>,
    list: Seq<(RuneId, u128)>,
)
    requires
        sorted(list),
        unallocated_from(store, points, list) is Some,
    ensures
        sorted(unallocated_from(store, points, list)->Some_0),
    decreases points.len(),
{
    if points.len() > 0 {
        let rows = selected(store.rune_txos, SelectView::Outpoint(points[0].0, points[0].1));
        lemma_gathered_sorted(list, rows);
        lemma_unallocated_sorted(store, points.skip(1), gathered(list, rows)->Some_0);
    }
}

proof fn lemma_start_pots(start: Seq<(RuneId, u128)>, outputs: nat, upto: int, id: RuneId)
    requires
        1 <= upto <= outputs + 2,
    ensures
        sum_at(start_pots(start, outputs).take(upto), id) == amount_of(start, id),
    decreases upto,
{
    let pots = start_pots(start, outputs);
    let now = pots.take(upto);
    if upto == 1 {
        assert(now.drop_last() =~= Seq::<Seq<(RuneId, u128)>>::empty());
        assert(now.last() == start);
        assert(sum_at(now.drop_last(), id) == 0);
    } else {
        lemma_start_pots(start, outputs, upto - 1, id);
        assert(now.drop_last() =~= pots.take(upto - 1));
        assert(now.last() =~= Seq::<(RuneId, u128)>::empty());
        assert(amount_of(now.last(), id) == 0);
    }
}

/// Of every rune, what a transaction that can be indexed brings in is what
/// the rows of its outputs hold and what it burns.
pub proof fn lemma_transaction_conserves(
    u: UpdaterView,
    tx_index: u32,
    tx: Tx,
    tx_id: Seq<char>,
    prevouts: Seq<Option<PrevOutView>>,
    id: RuneId,
)
    requires
        planned(u, tx_index, tx, tx_id, prevouts) is Ok,
    ensures
        brought_in(u, tx_index, tx, prevouts, id) == rows_amount(
            rune_rows(
                planned(u, tx_index, tx, tx_id, prevouts)->Ok_0.pots,
                tx,
                tx_id,
                u.chain,
                u.block_height,
                u.block_time,
                tx.output@.len() as int,
            ),
            id,
        ) + amount_of(planned(u, tx_index, tx, tx_id, prevouts)->Ok_0.pots[BURNED as int], id),
{
    reveal(planned);
    let outputs = tx.output@.len();
    let all = outputs as int + 2;
    let artifact = deciphered(tx.scripts());
    let minted = mint_now(u, artifact);
    let inputs = unallocated_from(u.database, tx.points(), Seq::empty())->Some_0;
    lemma_unallocated_sorted(u.database, tx.points(), Seq::empty());
    let with_mint = credit_option(inputs, minted)->Some_0;
    match minted {
        Some((rune, amount)) => {
            lemma_credit_checked(inputs, rune, amount, id);
        },
        None => {},
    }
    let etched = etched_now(u, tx_index, tx, artifact, prevouts)->Ok_0;
    let premine = premine_credit(artifact, etched);
    let start = credit_option(with_mint, premine)->Some_0;
    match premine {
        Some((rune, amount)) => {
            lemma_credit_checked(with_mint, rune, amount, id);
        },
        None => {},
    }
    let first = start_pots(start, outputs);
    let spendable = spendables(tx.scripts());
    assert(pots_wf(first, spendable.len())) by {
        assert forall|k: int| 0 <= k < first.len() implies sorted(#[trigger] first[k]) by {}
        assert forall|other: RuneId| sum_at(first, other) <= u128::MAX by {
            lemma_start_pots(start, outputs, all, other);
            assert(first.take(all) =~= first);
            assert(amount_of(start, other) <= u128::MAX);
        }
    }
    lemma_start_pots(start, outputs, all, id);
    assert(first.take(all) =~= first);
    let last = settled(first, orders_of(artifact), etched_id(etched), spendable);
    lemma_conservation(first, orders_of(artifact), etched_id(etched), spendable, id);
    crate::allocation::lemma_settled(first, orders_of(artifact), etched_id(etched), spendable);
    lemma_rows_hold(last, tx, tx_id, u.chain, u.block_height, u.block_time, outputs as int, id);
}

} // verus!
