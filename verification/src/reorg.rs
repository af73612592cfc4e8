//! Telling that the chain has changed under the indexer, and going back to
//! the last block that the store and the chain share.
//!
//! The hashes of the chain come from outside. The detector is asked again
//! and again with the hashes known so far, and says each time what it needs
//! next or what the end is.

use vstd::prelude::*;
use vstd::string::StringExecFns;
use crate::db::Block;
use crate::mock_db::MockDb;
use crate::mock_db::StoreState;

verus! {

/// The greatest number of blocks that the indexer goes back.
pub const MAX_REORG_DEPTH: u32 = 20;

/// A change of the chain that the indexer recovered from.
#[derive(Copy, Clone, Debug, PartialEq, Eq, Structural)]
pub struct Recoverable {
    /// The height at which the change was seen.
    pub height: u32,
    /// How many blocks the indexer went back.
    pub depth: u32,
}

/// What the detector says.
#[derive(Copy, Clone, Debug, PartialEq, Eq, Structural)]
pub enum ReorgStep {
    /// The chain has not changed: the block can be indexed.
    NoReorg,
    /// The hash of the chain's block that many below the height is needed.
    Ask(u32),
    /// The store went back to the last block that it shares with the chain.
    Recovered(Recoverable),
    /// The store shares none of the last blocks with the chain.
    TooDeep,
}

/// The detector.
#[derive(Copy, Clone, Debug, PartialEq, Eq)]
pub struct Reorg {}

/// The hash of the block that the store has at `height`.
pub open spec fn stored_hash(store: StoreState, height: int) -> Option<Seq<char>> {
    if 0 <= height <= u64::MAX {
        match store.block(height as u64) {
            Some(block) => Some(block.hash),
            None => None,
        }
    } else {
        None
    }
}

/// The views of a list of hashes.
pub open spec fn hash_views(known: Seq<String>) -> Seq<Seq<char>> {
    Seq::new(known.len(), |i: int| known[i]@)
}

/// Whether the block that the store has at `height` follows on the block
/// before it with the hash `prev_hash`: the store has no block before it, or
/// that block has this hash.
pub open spec fn follows(store: StoreState, prev_hash: Seq<char>, height: u32) -> bool {
    height == 0 || stored_hash(store, height - 1) is None || stored_hash(store, height - 1)
        == Some(prev_hash)
}

/// The least depth from `from` up to the number of hashes known, and no more
/// than the height, at which the store has a block and that block has the
/// hash of the chain's block; or zero.
pub open spec fn shared_depth(store: StoreState, height: u32, known: Seq<Seq<char>>, from: int)
    -> int
    decreases known.len() - from + 1,
{
    if from > known.len() || from > height || from < 1 {
        0
    } else if stored_hash(store, height - from) == Some(known[from - 1]) {
        from
    } else {
        shared_depth(store, height, known, from + 1)
    }
}

/// How many of the chain's hashes are looked at: those known, up to the
/// greatest depth.
pub open spec fn looked_at(known: Seq<Seq<char>>) -> Seq<Seq<char>> {
    if known.len() > MAX_REORG_DEPTH {
        known.take(MAX_REORG_DEPTH as int)
    } else {
        known
    }
}

/// What the detector says at `height`, where the chain's block has the hash
/// `prev_hash` before it and `known` holds the hashes of the chain's blocks
/// one, two and more below the height.
pub open spec fn decision(
    store: StoreState,
    prev_hash: Seq<char>,
    height: u32,
    known: Seq<Seq<char>>,
) -> ReorgStep {
    let depth = shared_depth(store, height, looked_at(known), 1);
    if follows(store, prev_hash, height) {
        ReorgStep::NoReorg
    } else if depth > 0 {
        ReorgStep::Recovered(Recoverable { height, depth: depth as u32 })
    } else if known.len() < MAX_REORG_DEPTH && known.len() < height {
        ReorgStep::Ask((known.len() + 1) as u32)
    } else {
        ReorgStep::TooDeep
    }
}

impl Reorg {
    /// Tells whether the chain changed below `height`, and goes back where it
    /// did. `bitcoind_prev_blockhash` is the hash that the chain's block at
    /// `height` names as the one before it; `known` holds the hashes of the
    /// chain's blocks one, two and more below `height`, as far as they were
    /// asked for. The store goes back only to a block that it has and whose
    /// hash is the chain's.
    pub fn detect_and_handle_reorg(
        database: &mut MockDb,
        bitcoind_prev_blockhash: &str,
        height: u32,
        known: &Vec<String>,
    ) -> (r: ReorgStep)
        requires
            old(database).wf(),
        ensures
            final(database).wf(),
            r == decision(old(database)@, bitcoind_prev_blockhash@, height, hash_views(known@)),
            final(database)@ == match r {
                ReorgStep::Recovered(found) => old(database)@.rolled_back(
                    (height - found.depth) as u64,
                ),
                _ => old(database)@,
            },
    {
        if height == 0 {
            return ReorgStep::NoReorg;
        }
        let before: Block = match database.get_block_by_height((height - 1) as u64) {
            Some(block) => block,
            None => {
                return ReorgStep::NoReorg;
            },
        };
        let prev: String = String::from_str(bitcoind_prev_blockhash);
        if before.hash == prev {
            return ReorgStep::NoReorg;
        }
        let ghost store = database@;
        let ghost hashes = looked_at(hash_views(known@));
        assert(!follows(store, bitcoind_prev_blockhash@, height));
        let limit: usize = if known.len() > MAX_REORG_DEPTH as usize {
            MAX_REORG_DEPTH as usize
        } else {
            known.len()
        };
        let mut depth: usize = 1;
        while depth <= limit && depth <= height as usize
            invariant
                1 <= depth <= limit + 1,
                limit == hashes.len(),
                limit <= MAX_REORG_DEPTH,
                limit <= known@.len(),
                hashes == looked_at(hash_views(known@)),
                store == database@,
                store == old(database)@,
                database.wf(),
                !follows(store, bitcoind_prev_blockhash@, height),
                shared_depth(store, height, hashes, 1) == shared_depth(
                    store,
                    height,
                    hashes,
                    depth as int,
                ),
            decreases limit + 1 - depth,
        {
            let stored: Option<Block> = database.get_block_by_height(
                (height - depth as u32) as u64,
            );
            assert(hashes[depth - 1] == known@[depth - 1]@);
            let same: bool = match &stored {
                Some(block) => block.hash == known[depth - 1],
                None => false,
            };
            assert(same == (stored_hash(store, height - depth) == Some(hashes[depth - 1])));
            if same {
                database.reorg_blocks((height - depth as u32) as u64);
                return ReorgStep::Recovered(Recoverable { height, depth: depth as u32 });
            }
            depth = depth + 1;
        }
        if known.len() < MAX_REORG_DEPTH as usize && known.len() < height as usize {
            ReorgStep::Ask((known.len() + 1) as u32)
        } else {
            ReorgStep::TooDeep
        }
    }
}

} // verus!
