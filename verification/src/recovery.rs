//! Going back undoes going forward: a store that indexed blocks above a
//! height and is taken back to that height is the store that it was, where
//! those blocks left alone what was there before them.
//!
//! Taking a store back removes rows and makes outputs unspent again. It does
//! not bring back what was counted on a rune: the number of its mints and
//! what was burned of it. And it knows the transactions that it undoes by
//! their records, which only transactions with a runes message have. So a
//! block can be undone where it mints and burns nothing of runes that were
//! there before, and where the transactions in it that spend rune amounts
//! that were there before carry a runes message.

use vstd::prelude::*;
use crate::burns::burn_recorded;
use crate::burns::burns_recorded;
use crate::commit::PrevOutView;
use crate::commit::prevout_views;
use crate::db::RuneEntryView;
use crate::db::RuneTxoView;
use crate::db::TransactionView;
use crate::db::TxoView;
use crate::indexer::BlockData;
use crate::indexer::TxData;
use crate::indexer::block_indexed;
use crate::indexer::block_row;
use crate::indexer::block_start;
use crate::indexer::txs_indexed;
use crate::mock_db::StoreState;
use crate::mock_db::amount_sound;
use crate::mock_db::amounts_sound;
use crate::mock_db::lemma_place_of_id_found;
use crate::mock_db::outputs_sound;
use crate::mock_db::place_of_id;
use crate::mock_db::spent_rune_txo;
use crate::mock_db::spent_txo;
use crate::network::Network;
use crate::plan::entry_of;
use crate::plan::record_of;
use crate::plan::rune_row;
use crate::plan::rune_rows;
use crate::plan::pot_rows;
use crate::plan::txo_rows;
use crate::rollback::Dated;
use crate::rollback::kept;
use crate::rollback::restored_amount;
use crate::rollback::restored_output;
use crate::rollback::rolled_amounts;
use crate::rollback::rolled_outputs;
use crate::rollback::undone;
use crate::rune_id::RuneId;
use crate::rune_updaters::Plan;
use crate::rune_updaters::UpdaterView;
use crate::rune_updaters::all_spent;
use crate::rune_updaters::applied;
use crate::rune_updaters::indexed;
use crate::rune_updaters::planned;
use crate::rune_updaters::with_message;
use crate::rune_updaters::with_rune_txos;
use crate::tx::Tx;

verus! {

/// Whether the row stands on one of the outputs `points`.
pub open spec fn stands_on(tx_id: Seq<char>, vout: u32, points: Seq<(Seq<char>, u32)>) -> bool {
    exists|i: int| 0 <= i < points.len() && #[trigger] points[i] == (tx_id, vout)
}

/// Whether the transaction leaves alone what was in the store up to the
/// height `h`: the rune amounts and outputs of those blocks that it spends
/// were unspent, and it has a record by which its spending can be undone;
/// no row of those blocks names it as having spent it already; and where it
/// mints, the rune was etched above `h`.
pub open spec fn leaves_alone(u: UpdaterView, plan: Plan, tx: Tx, tx_id: Seq<char>, h: u64)
    -> bool {
    &&& forall|k: int|
        0 <= k < u.database.rune_txos.len() && (#[trigger] u.database.rune_txos[k]).block_height
            <= h ==> if stands_on(
            u.database.rune_txos[k].tx_id,
            u.database.rune_txos[k].output_index,
            tx.points(),
        ) {
            u.database.rune_txos[k].is_unspent && plan.artifact is Some
        } else {
            u.database.rune_txos[k].spent_tx_id != Some(tx_id)
        }
    &&& forall|k: int|
        0 <= k < u.database.txos.len() && (#[trigger] u.database.txos[k]).block_height <= h
            ==> if stands_on(
            u.database.txos[k].tx_id,
            u.database.txos[k].output_index,
            tx.points(),
        ) {
            u.database.txos[k].is_unspent && plan.artifact is Some
        } else {
            u.database.txos[k].spent_tx_id != Some(tx_id)
        }
    &&& match plan.minted {
        Some((id, _)) => match u.database.rune(id) {
            Some(entry) => entry.block_height > h,
            None => true,
        },
        None => true,
    }
}

/// The rows after the first `upto` of the outputs `points` were spent: a row
/// that stands on one of them is spent, every other row is as it was.
proof fn lemma_all_spent_rows(
    store: StoreState,
    points: Seq<(Seq<char>, u32)>,
    spender: Seq<char>,
    upto: int,
)
    requires
        0 <= upto <= points.len(),
    ensures
        all_spent(store, points, spender, upto).rune_txos.len() == store.rune_txos.len(),
        all_spent(store, points, spender, upto).txos.len() == store.txos.len(),
        forall|k: int|
            0 <= k < store.rune_txos.len() ==> #[trigger] all_spent(
                store,
                points,
                spender,
                upto,
            ).rune_txos[k] == if stands_on(
                store.rune_txos[k].tx_id,
                store.rune_txos[k].output_index,
                points.take(upto),
            ) {
                RuneTxoView { is_unspent: false, spent_tx_id: Some(spender), ..store.rune_txos[k] }
            } else {
                store.rune_txos[k]
            },
        forall|k: int|
            0 <= k < store.txos.len() ==> #[trigger] all_spent(store, points, spender, upto).txos[k]
                == if stands_on(
                store.txos[k].tx_id,
                store.txos[k].output_index,
                points.take(upto),
            ) {
                TxoView { is_unspent: false, spent_tx_id: Some(spender), ..store.txos[k] }
            } else {
                store.txos[k]
            },
    decreases upto,
{
    if upto > 0 {
        lemma_all_spent_rows(store, points, spender, upto - 1);
        let before = all_spent(store, points, spender, upto - 1);
        let after = all_spent(store, points, spender, upto);
        let point = points[upto - 1];
        let now = points.take(upto);
        let earlier = points.take(upto - 1);
        assert(now[upto - 1] == point);
        assert forall|t: Seq<char>, v: u32|
            stands_on(t, v, now) == (stands_on(t, v, earlier) || (t, v) == point) by {
            if stands_on(t, v, earlier) {
                let i = choose|i: int| 0 <= i < earlier.len() && #[trigger] earlier[i] == (t, v);
                assert(now[i] == earlier[i]);
            }
            if stands_on(t, v, now) {
                let i = choose|i: int| 0 <= i < now.len() && #[trigger] now[i] == (t, v);
                if i < upto - 1 {
                    assert(earlier[i] == now[i]);
                }
            }
        }
        assert forall|k: int| 0 <= k < store.rune_txos.len() implies #[trigger] after.rune_txos[k]
            == if stands_on(store.rune_txos[k].tx_id, store.rune_txos[k].output_index, now) {
            RuneTxoView { is_unspent: false, spent_tx_id: Some(spender), ..store.rune_txos[k] }
        } else {
            store.rune_txos[k]
        } by {
            assert(after.rune_txos[k] == spent_rune_txo(
                before.rune_txos[k],
                point.0,
                point.1,
                spender,
            ));
        }
        assert forall|k: int| 0 <= k < store.txos.len() implies #[trigger] after.txos[k]
            == if stands_on(store.txos[k].tx_id, store.txos[k].output_index, now) {
            TxoView { is_unspent: false, spent_tx_id: Some(spender), ..store.txos[k] }
        } else {
            store.txos[k]
        } by {
            assert(after.txos[k] == spent_txo(before.txos[k], point.0, point.1, spender));
        }
    } else {
        assert forall|t: Seq<char>, v: u32| !stands_on(t, v, points.take(0)) by {}
    }
}

/// Rows of blocks above the height, added at the end, are not kept.
proof fn lemma_kept_concat<T: Dated>(rows: Seq<T>, more: Seq<T>, h: u64)
    requires
        forall|i: int| 0 <= i < more.len() ==> (#[trigger] more[i]).height() > h,
    ensures
        kept(rows + more, h) == kept(rows, h),
    decreases more.len(),
{
    if more.len() == 0 {
        assert(rows + more =~= rows);
    } else {
        let front = more.drop_last();
        assert forall|i: int| 0 <= i < front.len() implies (#[trigger] front[i]).height() > h by {
            assert(front[i] == more[i]);
        }
        lemma_kept_concat(rows, front, h);
        assert((rows + more).drop_last() =~= rows + front);
        assert((rows + more).last() == more[more.len() - 1]);
    }
}

/// Two lists of rows that agree, row by row, in what is kept of them, are
/// kept alike.
proof fn lemma_kept_alike<T: Dated>(a: Seq<T>, b: Seq<T>, h: u64)
    requires
        a.len() == b.len(),
        forall|k: int|
            0 <= k < a.len() ==> (#[trigger] a[k]).height() == b[k].height() && (a[k].height()
                <= h ==> a[k] == b[k]),
    ensures
        kept(a, h) == kept(b, h),
    decreases a.len(),
{
    if a.len() > 0 {
        let fa = a.drop_last();
        let fb = b.drop_last();
        assert forall|k: int| 0 <= k < fa.len() implies (#[trigger] fa[k]).height()
            == fb[k].height() && (fa[k].height() <= h ==> fa[k] == fb[k]) by {
            assert(fa[k] == a[k] && fb[k] == b[k]);
        }
        lemma_kept_alike(fa, fb, h);
        assert(a[a.len() - 1].height() == b[a.len() - 1].height());
    }
}

/// Two lists of amounts that agree, row by row, in what is left of them after
/// going back, are alike after going back.
proof fn lemma_amounts_alike(
    a: Seq<RuneTxoView>,
    ta: Seq<TransactionView>,
    b: Seq<RuneTxoView>,
    tb: Seq<TransactionView>,
    h: u64,
)
    requires
        a.len() == b.len(),
        forall|k: int|
            0 <= k < a.len() ==> (#[trigger] a[k]).block_height == b[k].block_height && (
            a[k].block_height <= h ==> restored_amount(a[k], ta, h) == restored_amount(b[k], tb, h)),
    ensures
        rolled_amounts(a, ta, h) == rolled_amounts(b, tb, h),
    decreases a.len(),
{
    if a.len() > 0 {
        let fa = a.drop_last();
        let fb = b.drop_last();
        assert forall|k: int| 0 <= k < fa.len() implies (#[trigger] fa[k]).block_height
            == fb[k].block_height && (fa[k].block_height <= h ==> restored_amount(fa[k], ta, h)
            == restored_amount(fb[k], tb, h)) by {
            assert(fa[k] == a[k] && fb[k] == b[k]);
        }
        lemma_amounts_alike(fa, ta, fb, tb, h);
        assert(a[a.len() - 1].block_height == b[a.len() - 1].block_height);
    }
}

/// The same of outputs.
proof fn lemma_outputs_alike(
    a: Seq<TxoView>,
    ta: Seq<TransactionView>,
    b: Seq<TxoView>,
    tb: Seq<TransactionView>,
    h: u64,
)
    requires
        a.len() == b.len(),
        forall|k: int|
            0 <= k < a.len() ==> (#[trigger] a[k]).block_height == b[k].block_height && (
            a[k].block_height <= h ==> restored_output(a[k], ta, h) == restored_output(b[k], tb, h)),
    ensures
        rolled_outputs(a, ta, h) == rolled_outputs(b, tb, h),
    decreases a.len(),
{
    if a.len() > 0 {
        let fa = a.drop_last();
        let fb = b.drop_last();
        assert forall|k: int| 0 <= k < fa.len() implies (#[trigger] fa[k]).block_height
            == fb[k].block_height && (fa[k].block_height <= h ==> restored_output(fa[k], ta, h)
            == restored_output(fb[k], tb, h)) by {
            assert(fa[k] == a[k] && fb[k] == b[k]);
        }
        lemma_outputs_alike(fa, ta, fb, tb, h);
        assert(a[a.len() - 1].block_height == b[a.len() - 1].block_height);
    }
}

/// Amounts of blocks above the height, added at the end, are gone after
/// going back.
proof fn lemma_amounts_concat(
    rows: Seq<RuneTxoView>,
    more: Seq<RuneTxoView>,
    t: Seq<TransactionView>,
    h: u64,
)
    requires
        forall|i: int| 0 <= i < more.len() ==> (#[trigger] more[i]).block_height > h,
    ensures
        rolled_amounts(rows + more, t, h) == rolled_amounts(rows, t, h),
    decreases more.len(),
{
    if more.len() == 0 {
        assert(rows + more =~= rows);
    } else {
        let front = more.drop_last();
        assert forall|i: int| 0 <= i < front.len() implies (#[trigger] front[i]).block_height
            > h by {
            assert(front[i] == more[i]);
        }
        lemma_amounts_concat(rows, front, t, h);
        assert((rows + more).drop_last() =~= rows + front);
        assert((rows + more).last() == more[more.len() - 1]);
    }
}

/// The same of outputs.
proof fn lemma_outputs_concat(rows: Seq<TxoView>, more: Seq<TxoView>, t: Seq<TransactionView>, h: u64)
    requires
        forall|i: int| 0 <= i < more.len() ==> (#[trigger] more[i]).block_height > h,
    ensures
        rolled_outputs(rows + more, t, h) == rolled_outputs(rows, t, h),
    decreases more.len(),
{
    if more.len() == 0 {
        assert(rows + more =~= rows);
    } else {
        let front = more.drop_last();
        assert forall|i: int| 0 <= i < front.len() implies (#[trigger] front[i]).block_height
            > h by {
            assert(front[i] == more[i]);
        }
        lemma_outputs_concat(rows, front, t, h);
        assert((rows + more).drop_last() =~= rows + front);
        assert((rows + more).last() == more[more.len() - 1]);
    }
}

/// A record of a block above the height, added at the end, undoes its own
/// transaction and changes nothing for any other.
proof fn lemma_undone_push(t: Seq<TransactionView>, record: TransactionView, tx_id: Seq<char>, h: u64)
    requires
        record.block_height > h,
    ensures
        undone(t.push(record), tx_id, h) == (undone(t, tx_id, h) || record.tx_id == tx_id),
{
    assert(t.push(record).drop_last() =~= t);
}

/// The rows of the rune amounts of a transaction belong to its block.
proof fn lemma_rune_rows_height(
    pots: Seq<Seq<(RuneId, u128)>>,
    tx: Tx,
    tx_id: Seq<char>,
    chain: Network,
    height: u32,
    time: u32,
    upto: int,
)
    ensures
        forall|i: int|
            0 <= i < rune_rows(pots, tx, tx_id, chain, height, time, upto).len() ==> (
            #[trigger] rune_rows(pots, tx, tx_id, chain, height, time, upto)[i]).block_height
                == height,
    decreases upto,
{
    if upto > 0 {
        lemma_rune_rows_height(pots, tx, tx_id, chain, height, time, upto - 1);
        let list = pots[crate::pots::FIRST_OUTPUT + upto - 1];
        lemma_pot_rows_height(list, tx, tx_id, chain, height, time, upto - 1, list.len() as int);
    }
}

proof fn lemma_pot_rows_height(
    list: Seq<(RuneId, u128)>,
    tx: Tx,
    tx_id: Seq<char>,
    chain: Network,
    height: u32,
    time: u32,
    o: int,
    upto: int,
)
    ensures
        forall|i: int|
            0 <= i < pot_rows(list, tx, tx_id, chain, height, time, o, upto).len() ==> (
            #[trigger] pot_rows(list, tx, tx_id, chain, height, time, o, upto)[i]).block_height
                == height,
    decreases upto,
{
    if upto > 0 {
        lemma_pot_rows_height(list, tx, tx_id, chain, height, time, o, upto - 1);
    }
}

proof fn lemma_txo_rows_height(
    tx: Tx,
    tx_id: Seq<char>,
    chain: Network,
    height: u32,
    time: u32,
    upto: int,
)
    ensures
        forall|i: int|
            0 <= i < txo_rows(tx, tx_id, chain, height, time, upto).len() ==> (#[trigger] txo_rows(
                tx,
                tx_id,
                chain,
                height,
                time,
                upto,
            )[i]).block_height == height,
    decreases upto,
{
    if upto > 0 {
        lemma_txo_rows_height(tx, tx_id, chain, height, time, upto - 1);
    }
}

/// A rune of a block above the height, replaced by one of the same block,
/// changes nothing of what is kept.
proof fn lemma_kept_update(rows: Seq<RuneEntryView>, place: int, entry: RuneEntryView, h: u64)
    requires
        0 <= place < rows.len(),
        rows[place].block_height > h,
        entry.block_height == rows[place].block_height,
    ensures
        kept(rows.update(place, entry), h) == kept(rows, h),
{
    let after = rows.update(place, entry);
    assert forall|k: int| 0 <= k < after.len() implies (#[trigger] after[k]).height()
        == rows[k].height() && (after[k].height() <= h ==> after[k] == rows[k]) by {}
    lemma_kept_alike(after, rows, h);
}

/// A row of a block above the height, added at the end, is not kept.
proof fn lemma_kept_push<T: Dated>(rows: Seq<T>, row: T, h: u64)
    requires
        row.height() > h,
    ensures
        kept(rows.push(row), h) == kept(rows, h),
{
    assert(rows.push(row).drop_last() =~= rows);
}

/// What recording the message of a transaction changes: it adds rows of the
/// block, and counts a mint on a rune.
proof fn lemma_message_undone(
    store: StoreState,
    u: UpdaterView,
    plan: Plan,
    tx: Tx,
    tx_id: Seq<char>,
    h: u64,
)
    requires
        u.block_height > h,
        match plan.minted {
            Some((id, _)) => match store.rune(id) {
                Some(entry) => entry.block_height > h,
                None => true,
            },
            None => true,
        },
        match plan.etched {
            Some((id, _)) => id.block > h,
            None => true,
        },
    ensures
        kept(with_message(store, u, plan, tx, tx_id).rune_entries, h) == kept(
            store.rune_entries,
            h,
        ),
        kept(with_message(store, u, plan, tx, tx_id).events, h) == kept(store.events, h),
        kept(with_message(store, u, plan, tx, tx_id).transactions, h) == kept(
            store.transactions,
            h,
        ),
        with_message(store, u, plan, tx, tx_id).blocks == store.blocks,
        with_message(store, u, plan, tx, tx_id).block_height == store.block_height,
        with_message(store, u, plan, tx, tx_id).rune_txos == store.rune_txos,
        with_message(store, u, plan, tx, tx_id).transactions == match plan.artifact {
            Some(a) => store.transactions.push(record_of(tx_id, a, u.block_height, u.block_time)),
            None => store.transactions,
        },
        with_message(store, u, plan, tx, tx_id).txos == match plan.artifact {
            Some(a) => store.txos + txo_rows(
                tx,
                tx_id,
                u.chain,
                u.block_height,
                u.block_time,
                tx.output@.len() as int,
            ),
            None => store.txos,
        },
{
    match plan.artifact {
        None => {},
        Some(a) => {
            let record = record_of(tx_id, a, u.block_height, u.block_time);
            let recorded = StoreState { transactions: store.transactions.push(record), ..store };
            lemma_kept_push(store.transactions, record, h);
            let listed = crate::rune_updaters::with_txos(
                recorded,
                txo_rows(tx, tx_id, u.chain, u.block_height, u.block_time, tx.output@.len() as int),
            );
            let minted = match plan.minted {
                Some((id, amount)) => match listed.minted(
                    id,
                    tx_id,
                    amount,
                    u.block_height as u64,
                    u.block_time,
                ) {
                    Ok(next) => next,
                    Err(_) => listed,
                },
                None => listed,
            };
            match plan.minted {
                Some((id, amount)) => {
                    let place = place_of_id(store.rune_entries, id);
                    lemma_place_of_id_found(store.rune_entries, id);
                    if place < store.rune_entries.len() && minted != listed {
                        let entry = store.rune_entries[place];
                        let changed = RuneEntryView {
                            mint_count: (entry.mint_count + 1) as u128,
                            ..entry
                        };
                        assert(minted.rune_entries == store.rune_entries.update(place, changed));
                        lemma_kept_update(store.rune_entries, place, changed, h);
                        assert(minted.events == store.events.push(minted.events.last()));
                        lemma_kept_push(store.events, minted.events.last(), h);
                    }
                },
                None => {},
            }
            match plan.etched {
                Some((id, rune)) => {
                    let entry = entry_of(tx_id, a, id, rune, u.block_time);
                    let after = minted.with_rune(entry);
                    lemma_kept_push(minted.rune_entries, after.rune_entries.last(), h);
                    lemma_kept_push(minted.events, after.events.last(), h);
                },
                None => {},
            }
        },
    }
}

/// The rune that a plan etches, if any, is etched above the height.
pub open spec fn etches_above(plan: Plan, h: u64) -> bool {
    match plan.etched {
        Some((id, _)) => id.block > h,
        None => true,
    }
}

/// A transaction of a block above the height that leaves alone what was
/// there is undone by going back to the height.
pub proof fn lemma_tx_undone(u: UpdaterView, plan: Plan, tx: Tx, tx_id: Seq<char>, h: u64)
    requires
        u.block_height > h,
        amounts_sound(u.database.rune_txos),
        outputs_sound(u.database.txos),
        leaves_alone(u, plan, tx, tx_id, h),
        etches_above(plan, h),
    ensures
        applied(u, plan, tx, tx_id).database.rolled_back(h) == u.database.rolled_back(h),
        amounts_sound(applied(u, plan, tx, tx_id).database.rune_txos),
        outputs_sound(applied(u, plan, tx, tx_id).database.txos),
        applied(u, plan, tx, tx_id).chain == u.chain,
        applied(u, plan, tx, tx_id).block_height == u.block_height,
        applied(u, plan, tx, tx_id).block_time == u.block_time,
        applied(u, plan, tx, tx_id).burned == plan.burned,
{
    reveal(applied);
    let store = u.database;
    let points = tx.points();
    let n = tx.input@.len() as int;
    let spent = all_spent(store, points, tx_id, n);
    lemma_all_spent_rows(store, points, tx_id, n);
    crate::rune_updaters::lemma_all_spent_keeps(store, points, tx_id, n);
    assert(points.take(n) =~= points);
    let recorded = with_message(spent, u, plan, tx, tx_id);
    lemma_message_undone(spent, u, plan, tx, tx_id, h);
    let rows = rune_rows(
        plan.pots,
        tx,
        tx_id,
        u.chain,
        u.block_height,
        u.block_time,
        tx.output@.len() as int,
    );
    lemma_rune_rows_height(
        plan.pots,
        tx,
        tx_id,
        u.chain,
        u.block_height,
        u.block_time,
        tx.output@.len() as int,
    );
    let last = with_rune_txos(recorded, rows);
    let records = recorded.transactions;
    let old_records = store.transactions;
    match plan.artifact {
        Some(a) => {
            lemma_txo_rows_height(
                tx,
                tx_id,
                u.chain,
                u.block_height,
                u.block_time,
                tx.output@.len() as int,
            );
        },
        None => {},
    }
    assert forall|t: Seq<char>|
        undone(records, t, h) == (undone(old_records, t, h) || (plan.artifact is Some && t
            == tx_id)) by {
        match plan.artifact {
            Some(a) => {
                lemma_undone_push(
                    old_records,
                    record_of(tx_id, a, u.block_height, u.block_time),
                    t,
                    h,
                );
            },
            None => {},
        }
    }
    // The amounts.
    assert forall|k: int| 0 <= k < spent.rune_txos.len() implies (
    #[trigger] spent.rune_txos[k]).block_height == store.rune_txos[k].block_height && (
    spent.rune_txos[k].block_height <= h ==> restored_amount(spent.rune_txos[k], records, h)
        == restored_amount(store.rune_txos[k], old_records, h)) by {
        let row = store.rune_txos[k];
        assert(row.is_unspent <==> row.spent_tx_id is None);
        if row.block_height <= h {
            if stands_on(row.tx_id, row.output_index, points) {
                assert(row.is_unspent && plan.artifact is Some);
                assert(undone(records, tx_id, h));
            } else {
                assert(row.spent_tx_id != Some(tx_id));
            }
        }
    }
    lemma_amounts_alike(spent.rune_txos, records, store.rune_txos, old_records, h);
    lemma_amounts_concat(spent.rune_txos, rows, records, h);
    // The outputs.
    assert forall|k: int| 0 <= k < spent.txos.len() implies (#[trigger] spent.txos[k]).block_height
        == store.txos[k].block_height && (spent.txos[k].block_height <= h ==> restored_output(
        spent.txos[k],
        records,
        h,
    ) == restored_output(store.txos[k], old_records, h)) by {
        let row = store.txos[k];
        assert(row.is_unspent <==> row.spent_tx_id is None);
        if row.block_height <= h {
            if stands_on(row.tx_id, row.output_index, points) {
                assert(row.is_unspent && plan.artifact is Some);
                assert(undone(records, tx_id, h));
            } else {
                assert(row.spent_tx_id != Some(tx_id));
            }
        }
    }
    lemma_outputs_alike(spent.txos, records, store.txos, old_records, h);
    match plan.artifact {
        Some(a) => {
            lemma_outputs_concat(
                spent.txos,
                txo_rows(tx, tx_id, u.chain, u.block_height, u.block_time, tx.output@.len() as int),
                records,
                h,
            );
        },
        None => {},
    }
    // The events of the transfers.
    let transfers = Seq::new(rows.len(), |i: int| crate::rune_updaters::transfer_event(rows[i]));
    assert forall|i: int| 0 <= i < transfers.len() implies (#[trigger] transfers[i]).height()
        > h by {
        assert(rows[i].block_height == u.block_height);
    }
    lemma_kept_concat(recorded.events, transfers, h);
    // What is sound stays sound.
    assert forall|k: int| 0 <= k < last.rune_txos.len() implies amount_sound(
        #[trigger] last.rune_txos[k],
    ) by {
        if k < spent.rune_txos.len() {
            assert(last.rune_txos[k] == spent.rune_txos[k]);
            assert(amount_sound(store.rune_txos[k]));
        } else {
            lemma_rune_rows_sound(
                plan.pots,
                tx,
                tx_id,
                u.chain,
                u.block_height,
                u.block_time,
                tx.output@.len() as int,
            );
            assert(last.rune_txos[k] == rows[k - spent.rune_txos.len()]);
        }
    }
    assert forall|k: int| 0 <= k < last.txos.len() implies ((#[trigger] last.txos[k]).is_unspent
        <==> last.txos[k].spent_tx_id is None) by {
        if k < spent.txos.len() {
            assert(last.txos[k] == spent.txos[k]);
            assert(store.txos[k].is_unspent <==> store.txos[k].spent_tx_id is None);
        } else {
            let more = txo_rows(
                tx,
                tx_id,
                u.chain,
                u.block_height,
                u.block_time,
                tx.output@.len() as int,
            );
            lemma_txo_rows_unspent(
                tx,
                tx_id,
                u.chain,
                u.block_height,
                u.block_time,
                tx.output@.len() as int,
            );
            assert(last.txos[k] == more[k - spent.txos.len()]);
        }
    }
}

proof fn lemma_rune_rows_sound(
    pots: Seq<Seq<(RuneId, u128)>>,
    tx: Tx,
    tx_id: Seq<char>,
    chain: Network,
    height: u32,
    time: u32,
    upto: int,
)
    ensures
        forall|i: int|
            0 <= i < rune_rows(pots, tx, tx_id, chain, height, time, upto).len() ==> amount_sound(
                #[trigger] rune_rows(pots, tx, tx_id, chain, height, time, upto)[i],
            ),
    decreases upto,
{
    if upto > 0 {
        lemma_rune_rows_sound(pots, tx, tx_id, chain, height, time, upto - 1);
        let list = pots[crate::pots::FIRST_OUTPUT + upto - 1];
        lemma_pot_rows_sound(list, tx, tx_id, chain, height, time, upto - 1, list.len() as int);
        let before = rune_rows(pots, tx, tx_id, chain, height, time, upto - 1);
        let more = pot_rows(list, tx, tx_id, chain, height, time, upto - 1, list.len() as int);
        let rows = rune_rows(pots, tx, tx_id, chain, height, time, upto);
        assert forall|i: int| 0 <= i < rows.len() implies amount_sound(#[trigger] rows[i]) by {
            if i < before.len() {
                assert(rows[i] == before[i]);
            } else {
                assert(rows[i] == more[i - before.len()]);
            }
        }
    }
}

proof fn lemma_pot_rows_sound(
    list: Seq<(RuneId, u128)>,
    tx: Tx,
    tx_id: Seq<char>,
    chain: Network,
    height: u32,
    time: u32,
    o: int,
    upto: int,
)
    ensures
        forall|i: int|
            0 <= i < pot_rows(list, tx, tx_id, chain, height, time, o, upto).len() ==> amount_sound(
                #[trigger] pot_rows(list, tx, tx_id, chain, height, time, o, upto)[i],
            ),
    decreases upto,
{
    if upto > 0 {
        lemma_pot_rows_sound(list, tx, tx_id, chain, height, time, o, upto - 1);
        let before = pot_rows(list, tx, tx_id, chain, height, time, o, upto - 1);
        let rows = pot_rows(list, tx, tx_id, chain, height, time, o, upto);
        assert forall|i: int| 0 <= i < rows.len() implies amount_sound(#[trigger] rows[i]) by {
            if i < before.len() {
                assert(rows[i] == before[i]);
            } else {
                assert(rows[i] == rune_row(
                    tx,
                    tx_id,
                    chain,
                    height,
                    time,
                    o,
                    list[upto - 1].0,
                    list[upto - 1].1,
                ));
            }
        }
    }
}

proof fn lemma_txo_rows_unspent(
    tx: Tx,
    tx_id: Seq<char>,
    chain: Network,
    height: u32,
    time: u32,
    upto: int,
)
    ensures
        forall|i: int|
            0 <= i < txo_rows(tx, tx_id, chain, height, time, upto).len() ==> (#[trigger] txo_rows(
                tx,
                tx_id,
                chain,
                height,
                time,
                upto,
            )[i]).is_unspent && txo_rows(tx, tx_id, chain, height, time, upto)[i].spent_tx_id
                is None,
    decreases upto,
{
    if upto > 0 {
        lemma_txo_rows_unspent(tx, tx_id, chain, height, time, upto - 1);
    }
}

/// The rune that a transaction etches is etched in the block that is being
/// indexed.
proof fn lemma_planned_etches(
    u: UpdaterView,
    tx_index: u32,
    tx: Tx,
    tx_id: Seq<char>,
    prevouts: Seq<Option<PrevOutView>>,
)
    requires
        planned(u, tx_index, tx, tx_id, prevouts) is Ok,
    ensures
        match planned(u, tx_index, tx, tx_id, prevouts)->Ok_0.etched {
            Some((id, _)) => id.block == u.block_height,
            None => true,
        },
{
    reveal(planned);
}

/// Whether the transaction at place `k` of a block leaves alone what was in
/// the store up to the height `h`.
pub open spec fn tx_leaves_alone(first: UpdaterView, txs: Seq<TxData>, k: int, h: u64) -> bool {
    let before = txs_indexed(first, txs, k).0;
    match planned(
        before,
        k as u32,
        txs[k].tx,
        txs[k].tx_id@,
        prevout_views(txs[k].prevouts@),
    ) {
        Ok(plan) => leaves_alone(before, plan, txs[k].tx, txs[k].tx_id@, h),
        Err(_) => true,
    }
}

/// Whether what was burned is of runes that were etched above the height
/// `h`, or that the store does not know.
pub open spec fn burns_leave_alone(store: StoreState, burned: Seq<(RuneId, u128)>, h: u64) -> bool {
    forall|k: int|
        0 <= k < burned.len() && (#[trigger] burned[k]).1 > 0 ==> match store.rune(burned[k].0) {
            Some(entry) => entry.block_height > h,
            None => true,
        }
}

/// Whether a block leaves alone what was in the store up to the height `h`:
/// each of its transactions does, and what it burns is of runes etched
/// above `h`.
pub open spec fn block_leaves_alone(store: StoreState, chain: Network, block: BlockData, h: u64)
    -> bool {
    let first = block_start(store, chain, block);
    let done = txs_indexed(first, block.txdata@, block.txdata@.len() as int);
    &&& forall|k: int|
        0 <= k < block.txdata@.len() ==> #[trigger] tx_leaves_alone(first, block.txdata@, k, h)
    &&& burns_leave_alone(done.0.database, done.0.burned, h)
}

/// The transactions of a block above the height that leave alone what was
/// there are undone by going back to the height.
proof fn lemma_txs_undone(first: UpdaterView, txs: Seq<TxData>, upto: int, h: u64)
    requires
        0 <= upto <= txs.len(),
        first.block_height > h,
        amounts_sound(first.database.rune_txos),
        outputs_sound(first.database.txos),
        txs_indexed(first, txs, upto).1 is None,
        forall|k: int| 0 <= k < upto ==> #[trigger] tx_leaves_alone(first, txs, k, h),
    ensures
        txs_indexed(first, txs, upto).0.database.rolled_back(h) == first.database.rolled_back(h),
        amounts_sound(txs_indexed(first, txs, upto).0.database.rune_txos),
        outputs_sound(txs_indexed(first, txs, upto).0.database.txos),
        txs_indexed(first, txs, upto).0.block_height == first.block_height,
        txs_indexed(first, txs, upto).0.block_time == first.block_time,
        txs_indexed(first, txs, upto).0.chain == first.chain,
    decreases upto,
{
    if upto > 0 {
        let before = txs_indexed(first, txs, upto - 1);
        lemma_txs_undone(first, txs, upto - 1, h);
        let t = txs[upto - 1];
        let prevouts = prevout_views(t.prevouts@);
        let index = (upto - 1) as u32;
        assert(tx_leaves_alone(first, txs, upto - 1, h));
        assert(indexed(before.0, index, t.tx, t.tx_id@, prevouts) is Ok);
        let plan = planned(before.0, index, t.tx, t.tx_id@, prevouts)->Ok_0;
        lemma_planned_etches(before.0, index, t.tx, t.tx_id@, prevouts);
        lemma_tx_undone(before.0, plan, t.tx, t.tx_id@, h);
    }
}

/// Recording what was burned changes no block of a rune and no place of a
/// rune.
proof fn lemma_burns_heights(
    store: StoreState,
    list: Seq<(RuneId, u128)>,
    height: u64,
    time: u32,
    upto: int,
)
    requires
        0 <= upto <= list.len(),
    ensures
        burns_recorded(store, list, height, time, upto).rune_entries.len()
            == store.rune_entries.len(),
        forall|k: int|
            0 <= k < store.rune_entries.len() ==> (#[trigger] burns_recorded(
                store,
                list,
                height,
                time,
                upto,
            ).rune_entries[k]).block_height == store.rune_entries[k].block_height,
        forall|id: RuneId|
            place_of_id(burns_recorded(store, list, height, time, upto).rune_entries, id)
                == place_of_id(store.rune_entries, id),
        burns_recorded(store, list, height, time, upto).rune_txos == store.rune_txos,
        burns_recorded(store, list, height, time, upto).txos == store.txos,
        burns_recorded(store, list, height, time, upto).transactions == store.transactions,
        burns_recorded(store, list, height, time, upto).blocks == store.blocks,
        burns_recorded(store, list, height, time, upto).block_height == store.block_height,
    decreases upto,
{
    if upto > 0 {
        lemma_burns_heights(store, list, height, time, upto - 1);
        let before = burns_recorded(store, list, height, time, upto - 1);
        let after = burns_recorded(store, list, height, time, upto);
        let id = list[upto - 1].0;
        let amount = list[upto - 1].1;
        let place = place_of_id(before.rune_entries, id);
        lemma_place_of_id_found(before.rune_entries, id);
        if amount != 0 && before.burned(id, amount) is Ok && place < before.rune_entries.len() {
            let entry = before.rune_entries[place];
            let changed = RuneEntryView { burned: (entry.burned + amount) as u128, ..entry };
            assert(after.rune_entries == before.rune_entries.update(place, changed));
            assert forall|other: RuneId|
                place_of_id(after.rune_entries, other) == place_of_id(
                    store.rune_entries,
                    other,
                ) by {
                crate::mock_db::lemma_place_of_id_update(
                    before.rune_entries,
                    place,
                    changed,
                    other,
                );
            }
        }
    }
}

/// What was burned of runes etched above the height is undone by going back
/// to the height.
proof fn lemma_burns_undone(
    store: StoreState,
    list: Seq<(RuneId, u128)>,
    height: u64,
    time: u32,
    upto: int,
    h: u64,
)
    requires
        0 <= upto <= list.len(),
        height > h,
        burns_leave_alone(store, list, h),
    ensures
        burns_recorded(store, list, height, time, upto).rolled_back(h) == store.rolled_back(h),
    decreases upto,
{
    if upto > 0 {
        lemma_burns_undone(store, list, height, time, upto - 1, h);
        lemma_burns_heights(store, list, height, time, upto - 1);
        lemma_burns_heights(store, list, height, time, upto);
        let before = burns_recorded(store, list, height, time, upto - 1);
        let after = burns_recorded(store, list, height, time, upto);
        let id = list[upto - 1].0;
        let amount = list[upto - 1].1;
        let place = place_of_id(before.rune_entries, id);
        lemma_place_of_id_found(before.rune_entries, id);
        lemma_place_of_id_found(store.rune_entries, id);
        if amount != 0 && before.burned(id, amount) is Ok {
            let counted = before.burned(id, amount)->Ok_0;
            if place < before.rune_entries.len() {
                let entry = before.rune_entries[place];
                let changed = RuneEntryView { burned: (entry.burned + amount) as u128, ..entry };
                assert(list[upto - 1].1 > 0);
                assert(store.rune(id) == Some(store.rune_entries[place]));
                assert(entry.block_height > h);
                lemma_kept_update(before.rune_entries, place, changed, h);
            }
            lemma_kept_push(counted.events, after.events.last(), h);
        }
    }
}

/// A block above the height that leaves alone what was there is undone by
/// going back to the height, but for the height that the store has
/// reached.
proof fn lemma_block_undone(store: StoreState, chain: Network, block: BlockData, h: u64)
    requires
        block.height > h,
        amounts_sound(store.rune_txos),
        outputs_sound(store.txos),
        block_indexed(store, chain, block).1 is None,
        block_leaves_alone(store, chain, block, h),
    ensures
        block_indexed(store, chain, block).0.rolled_back(h) == (StoreState {
            block_height: h,
            ..store.rolled_back(h)
        }),
        amounts_sound(block_indexed(store, chain, block).0.rune_txos),
        outputs_sound(block_indexed(store, chain, block).0.txos),
{
    let first = block_start(store, chain, block);
    let txs = block.txdata@;
    let done = txs_indexed(first, txs, txs.len() as int);
    lemma_txs_undone(first, txs, txs.len() as int, h);
    let list = done.0.burned;
    lemma_burns_undone(
        done.0.database,
        list,
        block.height as u64,
        block.time,
        list.len() as int,
        h,
    );
    lemma_burns_heights(done.0.database, list, block.height as u64, block.time, list.len() as int);
    let burnt = burns_recorded(
        done.0.database,
        list,
        block.height as u64,
        block.time,
        list.len() as int,
    );
    lemma_kept_push(burnt.blocks, block_row(block), h);
}

/// The store after the first `upto` of `blocks` were indexed in order, and
/// whether all of them were.
pub open spec fn blocks_indexed(
    store: StoreState,
    chain: Network,
    blocks: Seq<BlockData>,
    upto: int,
) -> (StoreState, bool)
    decreases upto,
{
    if upto <= 0 {
        (store, true)
    } else {
        let before = blocks_indexed(store, chain, blocks, upto - 1);
        if before.1 {
            let next = block_indexed(before.0, chain, blocks[upto - 1]);
            (next.0, next.1 is None)
        } else {
            before
        }
    }
}

/// Whether each of `blocks` stands above the height `h` and leaves alone
/// what was in the store up to `h`.
pub open spec fn blocks_leave_alone(
    store: StoreState,
    chain: Network,
    blocks: Seq<BlockData>,
    h: u64,
) -> bool {
    forall|i: int|
        0 <= i < blocks.len() ==> (#[trigger] blocks[i]).height > h && block_leaves_alone(
            blocks_indexed(store, chain, blocks, i).0,
            chain,
            blocks[i],
            h,
        )
}

proof fn lemma_blocks_undone(
    store: StoreState,
    chain: Network,
    blocks: Seq<BlockData>,
    upto: int,
    h: u64,
)
    requires
        0 <= upto <= blocks.len(),
        amounts_sound(store.rune_txos),
        outputs_sound(store.txos),
        store.block_height == h,
        blocks_indexed(store, chain, blocks, upto).1,
        blocks_leave_alone(store, chain, blocks, h),
    ensures
        blocks_indexed(store, chain, blocks, upto).0.rolled_back(h) == store.rolled_back(h),
        amounts_sound(blocks_indexed(store, chain, blocks, upto).0.rune_txos),
        outputs_sound(blocks_indexed(store, chain, blocks, upto).0.txos),
    decreases upto,
{
    if upto > 0 {
        lemma_blocks_undone(store, chain, blocks, upto - 1, h);
        let before = blocks_indexed(store, chain, blocks, upto - 1);
        assert(blocks[upto - 1].height > h && block_leaves_alone(
            before.0,
            chain,
            blocks[upto - 1],
            h,
        ));
        lemma_block_undone(before.0, chain, blocks[upto - 1], h);
    }
}

/// Going back undoes a fork. A store stands at the height `h` and holds
/// nothing above it. It indexes the blocks of `stale`, which stand above
/// `h` and leave alone what was there, and is then taken back to `h`. It is
/// the store that it was; so indexing the blocks of `canonical` from there
/// ends as indexing them from the store as it was ends.
pub proof fn lemma_reorg_recovery(
    store: StoreState,
    chain: Network,
    stale: Seq<BlockData>,
    canonical: Seq<BlockData>,
    h: u64,
)
    requires
        store.well_formed(),
        store.rolled_back(h) == store,
        store.block_height == h,
        blocks_indexed(store, chain, stale, stale.len() as int).1,
        blocks_leave_alone(store, chain, stale, h),
    ensures
        blocks_indexed(store, chain, stale, stale.len() as int).0.rolled_back(h) == store,
        blocks_indexed(
            blocks_indexed(store, chain, stale, stale.len() as int).0.rolled_back(h),
            chain,
            canonical,
            canonical.len() as int,
        ) == blocks_indexed(store, chain, canonical, canonical.len() as int),
{
    lemma_blocks_undone(store, chain, stale, stale.len() as int, h);
}

} // verus!
