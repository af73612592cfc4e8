//! Taking the store back to a height: every row of a later block goes, and an
//! output that a transaction of a later block spent is unspent again.

use vstd::prelude::*;
use crate::db::Block;
use crate::db::BlockView;
use crate::db::RuneEntry;
use crate::db::RuneEntryView;
use crate::db::RuneEvent;
use crate::db::RuneEventView;
use crate::db::RuneTXO;
use crate::db::RuneTxoView;
use crate::db::TXO;
use crate::db::Transaction;
use crate::db::TransactionView;
use crate::db::TxoView;
use crate::db::lemma_views_push;
use crate::db::text;
use crate::db::views;
use crate::mock_db::MockDb;
use crate::mock_db::StoreState;
use crate::mock_db::amount_sound;
use crate::mock_db::amounts_sound;
use crate::mock_db::blocks_sound;
use crate::mock_db::outputs_sound;
use crate::mock_db::runes_sound;

verus! {

/// A row that belongs to a block.
pub trait Dated {
    /// The height of the block that the row belongs to.
    spec fn height(self) -> u64;
}

impl Dated for RuneEntryView {
    open spec fn height(self) -> u64 {
        self.block_height
    }
}

impl Dated for TransactionView {
    open spec fn height(self) -> u64 {
        self.block_height
    }
}

impl Dated for RuneTxoView {
    open spec fn height(self) -> u64 {
        self.block_height
    }
}

impl Dated for TxoView {
    open spec fn height(self) -> u64 {
        self.block_height
    }
}

impl Dated for RuneEventView {
    open spec fn height(self) -> u64 {
        self.block_height
    }
}

impl Dated for BlockView {
    open spec fn height(self) -> u64 {
        self.height
    }
}

/// The rows of `rows` that belong to blocks up to the height `h`, in order.
pub open spec fn kept<T: Dated>(rows: Seq<T>, h: u64) -> Seq<T>
    decreases rows.len(),
{
    if rows.len() == 0 {
        Seq::empty()
    } else if rows.last().height() <= h {
        kept(rows.drop_last(), h).push(rows.last())
    } else {
        kept(rows.drop_last(), h)
    }
}

/// Whether one of `transactions` is the transaction `tx_id` and belongs to a
/// block above the height `h`.
pub open spec fn undone(transactions: Seq<TransactionView>, tx_id: Seq<char>, h: u64) -> bool
    decreases transactions.len(),
{
    transactions.len() > 0 && ((transactions.last().tx_id == tx_id
        && transactions.last().block_height > h) || undone(transactions.drop_last(), tx_id, h))
}

/// Whether the transaction that spent an output, if any, is undone.
pub open spec fn spender_undone(
    spent_tx_id: Option<Seq<char>>,
    transactions: Seq<TransactionView>,
    h: u64,
) -> bool {
    match spent_tx_id {
        Some(tx_id) => undone(transactions, tx_id, h),
        None => false,
    }
}

/// The amount `row`, unspent again where the transaction that spent it is
/// undone.
pub open spec fn restored_amount(row: RuneTxoView, transactions: Seq<TransactionView>, h: u64)
    -> RuneTxoView {
    if spender_undone(row.spent_tx_id, transactions, h) {
        RuneTxoView { is_unspent: true, spent_tx_id: None, ..row }
    } else {
        row
    }
}

/// The output `row`, unspent again where the transaction that spent it is
/// undone.
pub open spec fn restored_output(row: TxoView, transactions: Seq<TransactionView>, h: u64)
    -> TxoView {
    if spender_undone(row.spent_tx_id, transactions, h) {
        TxoView { is_unspent: true, spent_tx_id: None, ..row }
    } else {
        row
    }
}

/// The amounts of `rows` that belong to blocks up to the height `h`, each
/// unspent again where the transaction that spent it is undone.
pub open spec fn rolled_amounts(
    rows: Seq<RuneTxoView>,
    transactions: Seq<TransactionView>,
    h: u64,
) -> Seq<RuneTxoView>
    decreases rows.len(),
{
    if rows.len() == 0 {
        Seq::empty()
    } else if rows.last().block_height <= h {
        rolled_amounts(rows.drop_last(), transactions, h).push(
            restored_amount(rows.last(), transactions, h),
        )
    } else {
        rolled_amounts(rows.drop_last(), transactions, h)
    }
}

/// The outputs of `rows` that belong to blocks up to the height `h`, each
/// unspent again where the transaction that spent it is undone.
pub open spec fn rolled_outputs(rows: Seq<TxoView>, transactions: Seq<TransactionView>, h: u64)
    -> Seq<TxoView>
    decreases rows.len(),
{
    if rows.len() == 0 {
        Seq::empty()
    } else if rows.last().block_height <= h {
        rolled_outputs(rows.drop_last(), transactions, h).push(
            restored_output(rows.last(), transactions, h),
        )
    } else {
        rolled_outputs(rows.drop_last(), transactions, h)
    }
}

impl StoreState {
    /// The store taken back to the height `h`.
    pub open spec fn rolled_back(self, h: u64) -> StoreState {
        StoreState {
            rune_entries: kept(self.rune_entries, h),
            transactions: kept(self.transactions, h),
            rune_txos: rolled_amounts(self.rune_txos, self.transactions, h),
            txos: rolled_outputs(self.txos, self.transactions, h),
            events: kept(self.events, h),
            blocks: kept(self.blocks, h),
            block_height: if self.block_height > h {
                h
            } else {
                self.block_height
            },
        }
    }
}

/// Every row that is kept belongs to a block up to the height, and stood in
/// the list.
pub proof fn lemma_kept_rows<T: Dated>(rows: Seq<T>, h: u64)
    ensures
        kept(rows, h).len() <= rows.len(),
        forall|i: int| 0 <= i < kept(rows, h).len() ==> (#[trigger] kept(rows, h)[i]).height() <= h,
    decreases rows.len(),
{
    if rows.len() > 0 {
        lemma_kept_rows(rows.drop_last(), h);
    }
}

/// A list of rows that all belong to blocks up to the height is kept whole.
pub proof fn lemma_kept_all<T: Dated>(rows: Seq<T>, h: u64)
    requires
        forall|i: int| 0 <= i < rows.len() ==> (#[trigger] rows[i]).height() <= h,
    ensures
        kept(rows, h) == rows,
    decreases rows.len(),
{
    if rows.len() > 0 {
        let front = rows.drop_last();
        assert forall|i: int| 0 <= i < front.len() implies (#[trigger] front[i]).height() <= h by {
            assert(front[i] == rows[i]);
        }
        lemma_kept_all(front, h);
        assert(rows[rows.len() - 1].height() <= h);
        assert(front.push(rows.last()) =~= rows);
    }
}

/// Keeping twice is keeping once.
pub proof fn lemma_kept_twice<T: Dated>(rows: Seq<T>, h: u64)
    ensures
        kept(kept(rows, h), h) == kept(rows, h),
{
    lemma_kept_rows(rows, h);
    lemma_kept_all(kept(rows, h), h);
}

/// No transaction that is kept is undone.
pub proof fn lemma_none_undone(transactions: Seq<TransactionView>, tx_id: Seq<char>, h: u64)
    requires
        forall|i: int| 0 <= i < transactions.len() ==> (#[trigger] transactions[i]).block_height
            <= h,
    ensures
        !undone(transactions, tx_id, h),
    decreases transactions.len(),
{
    if transactions.len() > 0 {
        let front = transactions.drop_last();
        assert forall|i: int| 0 <= i < front.len() implies (#[trigger] front[i]).block_height
            <= h by {
            assert(front[i] == transactions[i]);
        }
        lemma_none_undone(front, tx_id, h);
        assert(transactions[transactions.len() - 1].block_height <= h);
    }
}

/// What holds of the amounts that are left after the store was taken back.
pub proof fn lemma_rolled_amounts(
    rows: Seq<RuneTxoView>,
    transactions: Seq<TransactionView>,
    h: u64,
)
    ensures
        forall|i: int|
            0 <= i < rolled_amounts(rows, transactions, h).len() ==> (#[trigger] rolled_amounts(
                rows,
                transactions,
                h,
            )[i]).block_height <= h,
        amounts_sound(rows) ==> amounts_sound(rolled_amounts(rows, transactions, h)),
    decreases rows.len(),
{
    if rows.len() > 0 {
        let front = rows.drop_last();
        lemma_rolled_amounts(front, transactions, h);
        if amounts_sound(rows) {
            assert forall|i: int| 0 <= i < front.len() implies amount_sound(#[trigger] front[i]) by {
                assert(front[i] == rows[i]);
            }
            assert(amount_sound(rows[rows.len() - 1]));
        }
    }
}

/// What holds of the outputs that are left after the store was taken back.
pub proof fn lemma_rolled_outputs(rows: Seq<TxoView>, transactions: Seq<TransactionView>, h: u64)
    ensures
        forall|i: int|
            0 <= i < rolled_outputs(rows, transactions, h).len() ==> (#[trigger] rolled_outputs(
                rows,
                transactions,
                h,
            )[i]).block_height <= h,
        outputs_sound(rows) ==> outputs_sound(rolled_outputs(rows, transactions, h)),
    decreases rows.len(),
{
    if rows.len() > 0 {
        let front = rows.drop_last();
        lemma_rolled_outputs(front, transactions, h);
        if outputs_sound(rows) {
            assert forall|i: int| 0 <= i < front.len() implies ((#[trigger] front[i]).is_unspent
                <==> front[i].spent_tx_id is None) by {
                assert(front[i] == rows[i]);
            }
            assert(rows[rows.len() - 1].is_unspent <==> rows[rows.len() - 1].spent_tx_id is None);
        }
    }
}

/// Amounts of blocks up to the height, taken back with no transaction
/// undone, are as they were.
pub proof fn lemma_rolled_amounts_settled(
    rows: Seq<RuneTxoView>,
    transactions: Seq<TransactionView>,
    h: u64,
)
    requires
        forall|i: int| 0 <= i < rows.len() ==> (#[trigger] rows[i]).block_height <= h,
        forall|i: int| 0 <= i < transactions.len() ==> (#[trigger] transactions[i]).block_height
            <= h,
    ensures
        rolled_amounts(rows, transactions, h) == rows,
    decreases rows.len(),
{
    if rows.len() > 0 {
        let front = rows.drop_last();
        assert forall|i: int| 0 <= i < front.len() implies (#[trigger] front[i]).block_height
            <= h by {
            assert(front[i] == rows[i]);
        }
        lemma_rolled_amounts_settled(front, transactions, h);
        let last = rows[rows.len() - 1];
        assert(last.block_height <= h);
        match last.spent_tx_id {
            Some(tx_id) => {
                lemma_none_undone(transactions, tx_id, h);
            },
            None => {},
        }
        assert(front.push(last) =~= rows);
    }
}

/// Outputs of blocks up to the height, taken back with no transaction
/// undone, are as they were.
pub proof fn lemma_rolled_outputs_settled(
    rows: Seq<TxoView>,
    transactions: Seq<TransactionView>,
    h: u64,
)
    requires
        forall|i: int| 0 <= i < rows.len() ==> (#[trigger] rows[i]).block_height <= h,
        forall|i: int| 0 <= i < transactions.len() ==> (#[trigger] transactions[i]).block_height
            <= h,
    ensures
        rolled_outputs(rows, transactions, h) == rows,
    decreases rows.len(),
{
    if rows.len() > 0 {
        let front = rows.drop_last();
        assert forall|i: int| 0 <= i < front.len() implies (#[trigger] front[i]).block_height
            <= h by {
            assert(front[i] == rows[i]);
        }
        lemma_rolled_outputs_settled(front, transactions, h);
        let last = rows[rows.len() - 1];
        assert(last.block_height <= h);
        match last.spent_tx_id {
            Some(tx_id) => {
                lemma_none_undone(transactions, tx_id, h);
            },
            None => {},
        }
        assert(front.push(last) =~= rows);
    }
}

/// Taking the store back to a height twice leaves it as taking it back once
/// does.
pub proof fn lemma_rollback_idempotent(store: StoreState, h: u64)
    ensures
        store.rolled_back(h).rolled_back(h) == store.rolled_back(h),
{
    let once = store.rolled_back(h);
    lemma_kept_twice(store.rune_entries, h);
    lemma_kept_twice(store.transactions, h);
    lemma_kept_twice(store.events, h);
    lemma_kept_twice(store.blocks, h);
    lemma_kept_rows(store.transactions, h);
    lemma_rolled_amounts(store.rune_txos, store.transactions, h);
    lemma_rolled_outputs(store.txos, store.transactions, h);
    lemma_rolled_amounts_settled(once.rune_txos, once.transactions, h);
    lemma_rolled_outputs_settled(once.txos, once.transactions, h);
}

/// The runes that are kept are sound where all runes were: they are the
/// first of the runes.
pub proof fn lemma_kept_runes_sound(entries: Seq<RuneEntryView>, h: u64)
    requires
        runes_sound(entries),
    ensures
        runes_sound(kept(entries, h)),
    decreases entries.len(),
{
    if entries.len() > 0 {
        let front = entries.drop_last();
        assert(runes_sound(front)) by {
            assert forall|i: int| 0 <= i < front.len() implies (#[trigger] front[i]).rune_number
                == i by {
                assert(front[i] == entries[i]);
            }
            assert forall|i: int, j: int| 0 <= i < j < front.len() implies {
                &&& (#[trigger] front[i]).raw_name != (#[trigger] front[j]).raw_name
                &&& front[i].rune_id != front[j].rune_id
                &&& front[i].block_height <= front[j].block_height
            } by {
                assert(front[i] == entries[i] && front[j] == entries[j]);
            }
        }
        if entries.last().block_height <= h {
            assert forall|i: int| 0 <= i < entries.len() implies (#[trigger] entries[i]).height()
                <= h by {
                if i < entries.len() - 1 {
                    assert(entries[i].block_height <= entries[entries.len() - 1].block_height);
                }
            }
            lemma_kept_all(entries, h);
        } else {
            lemma_kept_runes_sound(front, h);
        }
    }
}

/// The blocks that are kept are sound where all blocks were: they are the
/// first of the blocks.
pub proof fn lemma_kept_blocks_sound(blocks: Seq<BlockView>, h: u64)
    requires
        blocks_sound(blocks),
    ensures
        blocks_sound(kept(blocks, h)),
    decreases blocks.len(),
{
    if blocks.len() > 0 {
        let front = blocks.drop_last();
        assert(blocks_sound(front)) by {
            assert forall|i: int, j: int| 0 <= i < j < front.len() implies (
            #[trigger] front[i]).height < (#[trigger] front[j]).height by {
                assert(front[i] == blocks[i] && front[j] == blocks[j]);
            }
        }
        if blocks.last().height <= h {
            assert forall|i: int| 0 <= i < blocks.len() implies (#[trigger] blocks[i]).height()
                <= h by {
                if i < blocks.len() - 1 {
                    assert(blocks[i].height < blocks[blocks.len() - 1].height);
                }
            }
            lemma_kept_all(blocks, h);
        } else {
            lemma_kept_blocks_sound(front, h);
        }
    }
}

/// A store taken back to a height is as every store should be.
pub proof fn lemma_rollback_well_formed(store: StoreState, h: u64)
    requires
        store.well_formed(),
    ensures
        store.rolled_back(h).well_formed(),
{
    lemma_kept_runes_sound(store.rune_entries, h);
    lemma_kept_blocks_sound(store.blocks, h);
    lemma_rolled_amounts(store.rune_txos, store.transactions, h);
    lemma_rolled_outputs(store.txos, store.transactions, h);
}

impl MockDb {
    /// Whether the transaction that spent an output, if any, has a record in
    /// a block above the height `h`.
    fn spender_undone(&self, spent_tx_id: &Option<String>, h: u64) -> (r: bool)
        ensures
            r == spender_undone(text(*spent_tx_id), self@.transactions, h),
    {
        let tx_id: &String = match spent_tx_id {
            Some(s) => s,
            None => {
                return false;
            },
        };
        let ghost rows = views(self.transactions@);
        let mut i: usize = 0;
        assert(rows.take(0) =~= Seq::<TransactionView>::empty());
        while i < self.transactions.len()
            invariant
                i <= self.transactions@.len(),
                rows == views(self.transactions@),
                text(*spent_tx_id) == Some(tx_id@),
                !undone(rows.take(i as int), tx_id@, h),
            decreases self.transactions@.len() - i,
        {
            let ghost next = rows.take(i + 1);
            assert(next.drop_last() =~= rows.take(i as int));
            assert(next.last() == self.transactions@[i as int]@);
            if self.transactions[i].block_height > h && self.transactions[i].tx_id == *tx_id {
                proof {
                    assert(undone(next, tx_id@, h));
                    lemma_undone_stays(rows, tx_id@, h, i + 1);
                }
                return true;
            }
            i = i + 1;
        }
        assert(rows.take(i as int) =~= rows);
        false
    }

    /// Takes the store back to the height `height`: removes the runes, the
    /// amounts, the outputs, the records of transactions, the events and the
    /// blocks above it, and makes unspent again what a transaction with a
    /// record above it spent.
    pub fn reorg_blocks(&mut self, height: u64)
        requires
            old(self).wf(),
        ensures
            final(self).wf(),
            final(self)@ == old(self)@.rolled_back(height),
    {
        let ghost before = self@;
        proof {
            lemma_rollback_well_formed(before, height);
        }
        let mut rune_txos: Vec<RuneTXO> = Vec::new();
        let mut i: usize = 0;
        assert(before.rune_txos.take(0) =~= Seq::<RuneTxoView>::empty());
        assert(views(rune_txos@) =~= Seq::<RuneTxoView>::empty());
        while i < self.rune_txos.len()
            invariant
                i <= self.rune_txos@.len(),
                before == self@,
                views(rune_txos@) == rolled_amounts(
                    before.rune_txos.take(i as int),
                    before.transactions,
                    height,
                ),
            decreases self.rune_txos@.len() - i,
        {
            let ghost next = before.rune_txos.take(i + 1);
            assert(next.drop_last() =~= before.rune_txos.take(i as int));
            assert(next.last() == self.rune_txos@[i as int]@);
            if self.rune_txos[i].block_height <= height {
                let mut row: RuneTXO = self.rune_txos[i].duplicate();
                if self.spender_undone(&row.spent_tx_id, height) {
                    row.is_unspent = true;
                    row.spent_tx_id = None;
                }
                proof {
                    lemma_views_push(rune_txos@, row);
                }
                rune_txos.push(row);
            }
            i = i + 1;
        }
        assert(before.rune_txos.take(i as int) =~= before.rune_txos);
        let mut txos: Vec<TXO> = Vec::new();
        let mut i: usize = 0;
        assert(before.txos.take(0) =~= Seq::<TxoView>::empty());
        assert(views(txos@) =~= Seq::<TxoView>::empty());
        while i < self.txos.len()
            invariant
                i <= self.txos@.len(),
                before == self@,
                views(txos@) == rolled_outputs(before.txos.take(i as int), before.transactions, height),
            decreases self.txos@.len() - i,
        {
            let ghost next = before.txos.take(i + 1);
            assert(next.drop_last() =~= before.txos.take(i as int));
            assert(next.last() == self.txos@[i as int]@);
            if self.txos[i].block_height <= height {
                let mut row: TXO = self.txos[i].duplicate();
                if self.spender_undone(&row.spent_tx_id, height) {
                    row.is_unspent = true;
                    row.spent_tx_id = None;
                }
                proof {
                    lemma_views_push(txos@, row);
                }
                txos.push(row);
            }
            i = i + 1;
        }
        assert(before.txos.take(i as int) =~= before.txos);
        let mut rune_entries: Vec<RuneEntry> = Vec::new();
        let mut i: usize = 0;
        assert(before.rune_entries.take(0) =~= Seq::<RuneEntryView>::empty());
        assert(views(rune_entries@) =~= Seq::<RuneEntryView>::empty());
        while i < self.rune_entries.len()
            invariant
                i <= self.rune_entries@.len(),
                before == self@,
                views(rune_entries@) == kept(before.rune_entries.take(i as int), height),
            decreases self.rune_entries@.len() - i,
        {
            let ghost next = before.rune_entries.take(i + 1);
            assert(next.drop_last() =~= before.rune_entries.take(i as int));
            assert(next.last() == self.rune_entries@[i as int]@);
            if self.rune_entries[i].block_height <= height {
                let row: RuneEntry = self.rune_entries[i].duplicate();
                proof {
                    lemma_views_push(rune_entries@, row);
                }
                rune_entries.push(row);
            }
            i = i + 1;
        }
        assert(before.rune_entries.take(i as int) =~= before.rune_entries);
        let mut transactions: Vec<Transaction> = Vec::new();
        let mut i: usize = 0;
        assert(before.transactions.take(0) =~= Seq::<TransactionView>::empty());
        assert(views(transactions@) =~= Seq::<TransactionView>::empty());
        while i < self.transactions.len()
            invariant
                i <= self.transactions@.len(),
                before == self@,
                views(transactions@) == kept(before.transactions.take(i as int), height),
            decreases self.transactions@.len() - i,
        {
            let ghost next = before.transactions.take(i + 1);
            assert(next.drop_last() =~= before.transactions.take(i as int));
            assert(next.last() == self.transactions@[i as int]@);
            if self.transactions[i].block_height <= height {
                let row: Transaction = self.transactions[i].duplicate();
                proof {
                    lemma_views_push(transactions@, row);
                }
                transactions.push(row);
            }
            i = i + 1;
        }
        assert(before.transactions.take(i as int) =~= before.transactions);
        let mut events: Vec<RuneEvent> = Vec::new();
        let mut i: usize = 0;
        assert(before.events.take(0) =~= Seq::<RuneEventView>::empty());
        assert(views(events@) =~= Seq::<RuneEventView>::empty());
        while i < self.events.len()
            invariant
                i <= self.events@.len(),
                before == self@,
                views(events@) == kept(before.events.take(i as int), height),
            decreases self.events@.len() - i,
        {
            let ghost next = before.events.take(i + 1);
            assert(next.drop_last() =~= before.events.take(i as int));
            assert(next.last() == self.events@[i as int]@);
            if self.events[i].block_height <= height {
                let row: RuneEvent = self.events[i].duplicate();
                proof {
                    lemma_views_push(events@, row);
                }
                events.push(row);
            }
            i = i + 1;
        }
        assert(before.events.take(i as int) =~= before.events);
        let mut blocks: Vec<Block> = Vec::new();
        let mut i: usize = 0;
        assert(before.blocks.take(0) =~= Seq::<BlockView>::empty());
        assert(views(blocks@) =~= Seq::<BlockView>::empty());
        while i < self.blocks.len()
            invariant
                i <= self.blocks@.len(),
                before == self@,
                views(blocks@) == kept(before.blocks.take(i as int), height),
            decreases self.blocks@.len() - i,
        {
            let ghost next = before.blocks.take(i + 1);
            assert(next.drop_last() =~= before.blocks.take(i as int));
            assert(next.last() == self.blocks@[i as int]@);
            if self.blocks[i].height <= height {
                let row: Block = self.blocks[i].duplicate();
                proof {
                    lemma_views_push(blocks@, row);
                }
                blocks.push(row);
            }
            i = i + 1;
        }
        assert(before.blocks.take(i as int) =~= before.blocks);
        self.rune_txos = rune_txos;
        self.txos = txos;
        self.rune_entries = rune_entries;
        self.transactions = transactions;
        self.events = events;
        self.blocks = blocks;
        if self.statistics.block_height > height {
            self.statistics.block_height = height;
        }
    }
}

/// A transaction found undone among the first records is undone among all.
pub proof fn lemma_undone_stays(rows: Seq<TransactionView>, tx_id: Seq<char>, h: u64, i: int)
    requires
        0 <= i <= rows.len(),
        undone(rows.take(i), tx_id, h),
    ensures
        undone(rows, tx_id, h),
    decreases rows.len() - i,
{
    if i < rows.len() {
        assert(rows.take(i + 1).drop_last() =~= rows.take(i));
        lemma_undone_stays(rows, tx_id, h, i + 1);
    } else {
        assert(rows.take(i) =~= rows);
    }
}

} // verus!
