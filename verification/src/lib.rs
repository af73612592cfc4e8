//! Indexing of the Runes fungible-token protocol: the runestone codec, the
//! per-transaction balance transition, the in-memory relations it writes to and
//! the decisions of the block driver, each with a machine-checked contract.

pub mod allocation;
pub mod artifact;
pub mod balance_list;
pub mod balances;
pub mod burns;
pub mod commit;
pub mod conservation;
pub mod db;
pub mod decimal;
pub mod edict;
pub mod encipher;
pub mod etching;
pub mod fields;
pub mod flag;
pub mod flaw;
pub mod height;
pub mod indexer;
pub mod message;
pub mod mint;
pub mod mock_db;
pub mod network;
pub mod plan;
pub mod pots;
pub mod recovery;
pub mod reorg;
pub mod rollback;
pub mod round_trip;
pub mod rune;
pub mod rune_id;
pub mod rune_updaters;
pub mod runestone;
pub mod script;
pub mod spaced_rune;
pub mod store_writes;
pub mod tag;
pub mod tx;
pub mod varint;
