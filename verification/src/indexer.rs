//! The indexing of whole blocks: where to go on, and what a block does to
//! the store.

use vstd::prelude::*;
use vstd::string::StringExecFns;
use crate::burns::burn_overflows;
use crate::burns::burns_recorded;
use crate::commit::prevout_views;
use crate::db::Block;
use crate::db::BlockView;
use crate::mock_db::MockDb;
use crate::mock_db::StoreState;
use crate::network::Network;
use crate::network::SUBSIDY_HALVING_INTERVAL;
use crate::plan::IndexError;
use crate::reorg::follows;
use crate::rune_updaters::RuneUpdater;
use crate::rune_updaters::UpdaterView;
use crate::burns::lemma_burns_keep_blocks;
use crate::rune_updaters::indexed;
use crate::rune_updaters::lemma_indexed_keeps;
use crate::tx::PrevOut;
use crate::tx::Tx;

verus! {

/// A transaction of a block, with what the indexer needs of it.
#[derive(Clone, Debug, PartialEq, Eq)]
pub struct TxData {
    /// The identifier of the transaction, in lower-case hexadecimal.
    pub tx_id: String,
    pub tx: Tx,
    /// For each input, what is known of the output that it spends.
    pub prevouts: Vec<Option<PrevOut>>,
}

/// A block, with what the indexer needs of it.
#[derive(Clone, Debug, PartialEq, Eq)]
pub struct BlockData {
    pub height: u32,
    /// The hash of the block, in lower-case hexadecimal.
    pub hash: String,
    /// The hash of the block before it, in lower-case hexadecimal.
    pub prev_blockhash: String,
    pub time: u32,
    pub txdata: Vec<TxData>,
}

/// Why a block was not indexed.
#[derive(Copy, Clone, Debug, PartialEq, Eq, Structural)]
pub enum BlockError {
    /// The block has more transactions than can be counted in 32 bits.
    TooManyTransactions,
    /// The block does not follow on the block that the store has before it:
    /// the chain has changed.
    Reorg,
    /// The block does not come after the last block of the store.
    OutOfOrder,
    /// The transaction at this place cannot be indexed.
    Index(usize, IndexError),
    /// What was burned of a rune leaves 128 bits.
    Burn,
}

/// The driver of the indexing.
#[derive(Clone, Debug, PartialEq, Eq)]
pub struct Indexer {
    pub chain: Network,
    pub database: MockDb,
}

/// The height at which indexing goes on: after the last block of the store,
/// or, where it has none, after the height at which the protocol becomes
/// active on the chain.
pub open spec fn resume_height(store: StoreState, chain: Network) -> int {
    if store.blocks.len() > 0 {
        store.blocks.last().height + 1
    } else {
        SUBSIDY_HALVING_INTERVAL * chain.activation_halvings() + 1
    }
}

/// The indexer of the block after the first `upto` of its transactions were
/// indexed; or the place of the first transaction that cannot be, why, and
/// the indexer as it was before that transaction.
pub open spec fn txs_indexed(u: UpdaterView, txs: Seq<TxData>, upto: int) -> (
    UpdaterView,
    Option<(int, IndexError)>,
)
    decreases upto,
{
    if upto <= 0 {
        (u, None)
    } else {
        let before = txs_indexed(u, txs, upto - 1);
        match before.1 {
            Some(_) => before,
            None => match indexed(
                before.0,
                (upto - 1) as u32,
                txs[upto - 1].tx,
                txs[upto - 1].tx_id@,
                prevout_views(txs[upto - 1].prevouts@),
            ) {
                Ok(next) => (next, None),
                Err(e) => (before.0, Some((upto - 1, e))),
            },
        }
    }
}

/// The row of the block.
pub open spec fn block_row(block: BlockData) -> BlockView {
    BlockView { height: block.height as u64, hash: block.hash@, timestamp: block.time }
}

/// The indexer of a block at its start.
pub open spec fn block_start(store: StoreState, chain: Network, block: BlockData) -> UpdaterView {
    UpdaterView {
        database: store,
        chain,
        burned: Seq::empty(),
        block_height: block.height,
        block_time: block.time,
    }
}

/// What indexing `block` makes of the store, and why it stopped, if it did.
/// A block that does not follow on the store is refused before anything is
/// written. Then the transactions are indexed in order, what was burned is
/// recorded, and the row of the block is added, which declares the block
/// indexed. Where a transaction cannot be indexed, or what was burned leaves
/// 128 bits, the store is left as it was at that point, without the row of
/// the block.
pub open spec fn block_indexed(store: StoreState, chain: Network, block: BlockData) -> (
    StoreState,
    Option<BlockError>,
) {
    let done = txs_indexed(block_start(store, chain, block), block.txdata@, block.txdata@.len() as int);
    if block.txdata@.len() > u32::MAX {
        (store, Some(BlockError::TooManyTransactions))
    } else if !follows(store, block.prev_blockhash@, block.height) {
        (store, Some(BlockError::Reorg))
    } else if !store.takes_block(block_row(block)) {
        (store, Some(BlockError::OutOfOrder))
    } else {
        match done.1 {
            Some((place, e)) => (done.0.database, Some(BlockError::Index(place as usize, e))),
            None => if burn_overflows(done.0.database, done.0.burned) {
                (done.0.database, Some(BlockError::Burn))
            } else {
                (
                    burns_recorded(
                        done.0.database,
                        done.0.burned,
                        block.height as u64,
                        block.time,
                        done.0.burned.len() as int,
                    ).with_block(block_row(block)),
                    None,
                )
            },
        }
    }
}

impl Indexer {
    /// The indexer of `chain` over `database`.
    pub fn new(chain: Network, database: MockDb) -> (r: Indexer)
        ensures
            r.chain == chain,
            r.database == database,
    {
        Indexer { chain, database }
    }

    /// The height at which indexing goes on, unless it is beyond 32 bits.
    pub fn start_height(&self) -> (r: Option<u32>)
        ensures
            r == if resume_height(self.database@, self.chain) <= u32::MAX {
                Some(resume_height(self.database@, self.chain) as u32)
            } else {
                None
            },
    {
        match self.database.get_latest_block() {
            Some(block) => {
                if block.height >= u32::MAX as u64 {
                    None
                } else {
                    Some((block.height + 1) as u32)
                }
            },
            None => Some(self.chain.first_rune_height() + 1),
        }
    }

    /// Indexes `block`. The store is that of `block_indexed`, and so is the
    /// reason where the indexing stopped. A block is only ever added to the
    /// store where it follows on the block that the store has before it.
    pub fn index_block(&mut self, block: &BlockData) -> (r: Result<(), BlockError>)
        requires
            old(self).database.wf(),
        ensures
            final(self).database.wf(),
            final(self).chain == old(self).chain,
            final(self).database@ == block_indexed(old(self).database@, old(self).chain, *block).0,
            match r {
                Ok(()) => block_indexed(old(self).database@, old(self).chain, *block).1 is None
                    && follows(old(self).database@, block.prev_blockhash@, block.height),
                Err(e) => block_indexed(old(self).database@, old(self).chain, *block).1 == Some(e),
            },
    {
        let ghost store = self.database@;
        let count: usize = block.txdata.len();
        if count > u32::MAX as usize {
            return Err(BlockError::TooManyTransactions);
        }
        if block.height > 0 {
            match self.database.get_block_by_height((block.height - 1) as u64) {
                Some(before) => {
                    if !(before.hash == block.prev_blockhash) {
                        return Err(BlockError::Reorg);
                    }
                },
                None => {},
            }
        }
        match self.database.get_latest_block() {
            Some(last) => {
                if last.height >= block.height as u64 {
                    return Err(BlockError::OutOfOrder);
                }
            },
            None => {},
        }
        let mut database: MockDb = MockDb::new();
        core::mem::swap(&mut database, &mut self.database);
        let mut updater: RuneUpdater = RuneUpdater::init(
            database,
            self.chain,
            block.height,
            block.time,
        );
        let ghost first = updater@;
        let ghost chain = self.chain;
        assert(first == block_start(store, chain, *block));
        assert(follows(store, block.prev_blockhash@, block.height));
        assert(store.takes_block(block_row(*block)));
        let mut i: usize = 0;
        while i < count
            invariant
                i <= count == block.txdata@.len() <= u32::MAX,
                updater.wf(),
                self.chain == chain,
                chain == old(self).chain,
                store == old(self).database@,
                first == block_start(store, chain, *block),
                follows(store, block.prev_blockhash@, block.height),
                store.takes_block(block_row(*block)),
                txs_indexed(first, block.txdata@, i as int) == (updater@, None::<(int, IndexError)>),
            decreases count - i,
        {
            match updater.index_runes(
                i as u32,
                &block.txdata[i].tx,
                block.txdata[i].tx_id.as_str(),
                &block.txdata[i].prevouts,
            ) {
                Ok(()) => {},
                Err(e) => {
                    proof {
                        lemma_txs_stopped(first, block.txdata@, i + 1, count as int);
                    }
                    self.database = updater.database;
                    return Err(BlockError::Index(i, e));
                },
            }
            i = i + 1;
        }
        proof {
            lemma_txs_keep(first, block.txdata@, count as int);
            lemma_burns_keep_blocks(
                updater@.database,
                updater@.burned,
                block.height as u64,
                block.time,
                updater@.burned.len() as int,
            );
        }
        match updater.update() {
            Ok(()) => {},
            Err(_) => {
                self.database = updater.database;
                return Err(BlockError::Burn);
            },
        }
        self.database = updater.database;
        let row: Block = Block {
            height: block.height as u64,
            hash: block.hash.clone(),
            timestamp: block.time,
        };
        match self.database.insert_block(row) {
            Ok(()) => {},
            Err(_) => {},
        }
        Ok(())
    }
}

/// Indexing transactions adds no block and changes nothing of the block that
/// is being indexed.
pub proof fn lemma_txs_keep(u: UpdaterView, txs: Seq<TxData>, upto: int)
    ensures
        txs_indexed(u, txs, upto).0.database.blocks == u.database.blocks,
        txs_indexed(u, txs, upto).0.block_height == u.block_height,
        txs_indexed(u, txs, upto).0.block_time == u.block_time,
        txs_indexed(u, txs, upto).0.chain == u.chain,
    decreases upto,
{
    if upto > 0 {
        lemma_txs_keep(u, txs, upto - 1);
        let before = txs_indexed(u, txs, upto - 1);
        lemma_indexed_keeps(
            before.0,
            (upto - 1) as u32,
            txs[upto - 1].tx,
            txs[upto - 1].tx_id@,
            prevout_views(txs[upto - 1].prevouts@),
        );
    }
}

/// Once a transaction stopped the indexing, going on changes nothing.
pub proof fn lemma_txs_stopped(u: UpdaterView, txs: Seq<TxData>, at: int, upto: int)
    requires
        0 <= at <= upto,
        txs_indexed(u, txs, at).1 is Some,
    ensures
        txs_indexed(u, txs, upto) == txs_indexed(u, txs, at),
    decreases upto - at,
{
    if at < upto {
        lemma_txs_stopped(u, txs, at, upto - 1);
    }
}

} // verus!
