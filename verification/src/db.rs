//! The rows of the relations that the indexer keeps.

use vstd::prelude::*;
use crate::rune_id::RuneId;

verus! {

/// How far the indexer has come.
#[derive(Copy, Clone, Debug, PartialEq, Eq, Structural)]
pub struct Statistics {
    /// The height of the last block that was indexed.
    pub block_height: u64,
}

/// The terms of a rune, as they are stored.
#[derive(Copy, Clone, Debug, PartialEq, Eq, Structural)]
pub struct Terms {
    pub amount: Option<u128>,
    pub cap: Option<u128>,
    pub height_start: Option<u64>,
    pub height_end: Option<u64>,
    pub offset_start: Option<u64>,
    pub offset_end: Option<u64>,
}

/// What is known of a rune.
#[derive(Clone, Debug, PartialEq, Eq)]
pub struct RuneEntry {
    pub etching_tx_id: String,
    pub block_height: u64,
    pub rune_id: RuneId,
    /// The name with its spacers.
    pub name: String,
    /// The name without spacers.
    pub raw_name: String,
    pub symbol: Option<char>,
    pub divisibility: u8,
    pub premine: u128,
    pub terms: Option<Terms>,
    /// The units that were burned, in all.
    pub burned: u128,
    /// The number of mints made.
    pub mint_count: u128,
    pub timestamp: u32,
    /// Whether the rune was etched by a cenotaph.
    pub is_cenotaph: bool,
    /// The place of the rune among all runes, from 0, in the order of etching.
    pub rune_number: u128,
}

/// A rune entry, as the contracts see it.
pub struct RuneEntryView {
    pub etching_tx_id: Seq<char>,
    pub block_height: u64,
    pub rune_id: RuneId,
    pub name: Seq<char>,
    pub raw_name: Seq<char>,
    pub symbol: Option<char>,
    pub divisibility: u8,
    pub premine: u128,
    pub terms: Option<Terms>,
    pub burned: u128,
    pub mint_count: u128,
    pub timestamp: u32,
    pub is_cenotaph: bool,
    pub rune_number: u128,
}

/// How a transaction with a runes message was classified.
#[derive(Clone, Debug, PartialEq, Eq)]
pub struct Transaction {
    pub tx_id: String,
    pub block_height: u64,
    pub is_runestone: bool,
    pub is_cenotaph: bool,
    /// The flaws of the cenotaph, as words with commas between them.
    pub cenotaph_message: Option<String>,
    pub timestamp: u32,
}

/// A transaction record, as the contracts see it.
pub struct TransactionView {
    pub tx_id: Seq<char>,
    pub block_height: u64,
    pub is_runestone: bool,
    pub is_cenotaph: bool,
    pub cenotaph_message: Option<Seq<char>>,
    pub timestamp: u32,
}

/// An output of a transaction with a runes message.
#[derive(Clone, Debug, PartialEq, Eq)]
pub struct TXO {
    pub tx_id: String,
    pub output_index: u32,
    pub block_height: u64,
    pub value: u128,
    pub address: Option<String>,
    pub address_lowercase: Option<String>,
    pub is_unspent: bool,
    pub spent_tx_id: Option<String>,
    pub timestamp: u32,
}

/// A transaction output, as the contracts see it.
pub struct TxoView {
    pub tx_id: Seq<char>,
    pub output_index: u32,
    pub block_height: u64,
    pub value: u128,
    pub address: Option<Seq<char>>,
    pub address_lowercase: Option<Seq<char>>,
    pub is_unspent: bool,
    pub spent_tx_id: Option<Seq<char>>,
    pub timestamp: u32,
}

/// An amount of one rune on one output.
#[derive(Clone, Debug, PartialEq, Eq)]
pub struct RuneTXO {
    pub tx_id: String,
    pub output_index: u32,
    pub block_height: u64,
    pub rune_id: RuneId,
    pub amount: u128,
    pub address: Option<String>,
    pub address_lowercase: Option<String>,
    pub is_unspent: bool,
    pub spent_tx_id: Option<String>,
    pub timestamp: u32,
}

/// An amount of a rune on an output, as the contracts see it.
pub struct RuneTxoView {
    pub tx_id: Seq<char>,
    pub output_index: u32,
    pub block_height: u64,
    pub rune_id: RuneId,
    pub amount: u128,
    pub address: Option<Seq<char>>,
    pub address_lowercase: Option<Seq<char>>,
    pub is_unspent: bool,
    pub spent_tx_id: Option<Seq<char>>,
    pub timestamp: u32,
}

/// What an event tells of.
#[derive(Copy, Clone, Debug, PartialEq, Eq, Structural, Hash)]
pub enum EventKind {
    Etch,
    Mint,
    Transfer,
    Burn,
}

/// Something that happened to a rune. Events are only ever added.
#[derive(Clone, Debug, PartialEq, Eq)]
pub struct RuneEvent {
    /// The transaction in which it happened; empty for a burn, which is
    /// recorded once for a block.
    pub tx_id: String,
    pub rune_id: RuneId,
    pub block_height: u64,
    pub amount: u128,
    pub kind: EventKind,
    pub output_index: Option<u32>,
    pub address: Option<String>,
    pub timestamp: u32,
}

/// An event, as the contracts see it.
pub struct RuneEventView {
    pub tx_id: Seq<char>,
    pub rune_id: RuneId,
    pub block_height: u64,
    pub amount: u128,
    pub kind: EventKind,
    pub output_index: Option<u32>,
    pub address: Option<Seq<char>>,
    pub timestamp: u32,
}

/// A block that was indexed.
#[derive(Clone, Debug, PartialEq, Eq)]
pub struct Block {
    pub height: u64,
    /// The hash of the block, in lower-case hexadecimal.
    pub hash: String,
    pub timestamp: u32,
}

/// A block, as the contracts see it.
pub struct BlockView {
    pub height: u64,
    pub hash: Seq<char>,
    pub timestamp: u32,
}

/// The view of a string that may be absent.
pub open spec fn text(value: Option<String>) -> Option<Seq<char>> {
    match value {
        Some(s) => Some(s@),
        None => None,
    }
}

/// A copy of a string that may be absent.
pub fn copy_text(value: &Option<String>) -> (r: Option<String>)
    ensures
        r == *value,
{
    match value {
        Some(s) => Some(s.clone()),
        None => None,
    }
}

impl View for RuneEntry {
    type V = RuneEntryView;

    open spec fn view(&self) -> RuneEntryView {
        RuneEntryView {
            etching_tx_id: self.etching_tx_id@,
            block_height: self.block_height,
            rune_id: self.rune_id,
            name: self.name@,
            raw_name: self.raw_name@,
            symbol: self.symbol,
            divisibility: self.divisibility,
            premine: self.premine,
            terms: self.terms,
            burned: self.burned,
            mint_count: self.mint_count,
            timestamp: self.timestamp,
            is_cenotaph: self.is_cenotaph,
            rune_number: self.rune_number,
        }
    }
}

impl View for Transaction {
    type V = TransactionView;

    open spec fn view(&self) -> TransactionView {
        TransactionView {
            tx_id: self.tx_id@,
            block_height: self.block_height,
            is_runestone: self.is_runestone,
            is_cenotaph: self.is_cenotaph,
            cenotaph_message: text(self.cenotaph_message),
            timestamp: self.timestamp,
        }
    }
}

impl View for TXO {
    type V = TxoView;

    open spec fn view(&self) -> TxoView {
        TxoView {
            tx_id: self.tx_id@,
            output_index: self.output_index,
            block_height: self.block_height,
            value: self.value,
            address: text(self.address),
            address_lowercase: text(self.address_lowercase),
            is_unspent: self.is_unspent,
            spent_tx_id: text(self.spent_tx_id),
            timestamp: self.timestamp,
        }
    }
}

impl View for RuneTXO {
    type V = RuneTxoView;

    open spec fn view(&self) -> RuneTxoView {
        RuneTxoView {
            tx_id: self.tx_id@,
            output_index: self.output_index,
            block_height: self.block_height,
            rune_id: self.rune_id,
            amount: self.amount,
            address: text(self.address),
            address_lowercase: text(self.address_lowercase),
            is_unspent: self.is_unspent,
            spent_tx_id: text(self.spent_tx_id),
            timestamp: self.timestamp,
        }
    }
}

impl View for RuneEvent {
    type V = RuneEventView;

    open spec fn view(&self) -> RuneEventView {
        RuneEventView {
            tx_id: self.tx_id@,
            rune_id: self.rune_id,
            block_height: self.block_height,
            amount: self.amount,
            kind: self.kind,
            output_index: self.output_index,
            address: text(self.address),
            timestamp: self.timestamp,
        }
    }
}

impl View for Block {
    type V = BlockView;

    open spec fn view(&self) -> BlockView {
        BlockView { height: self.height, hash: self.hash@, timestamp: self.timestamp }
    }
}

impl RuneEntry {
    /// A copy of the entry.
    pub fn duplicate(&self) -> (r: RuneEntry)
        ensures
            r == *self,
    {
        RuneEntry {
            etching_tx_id: self.etching_tx_id.clone(),
            block_height: self.block_height,
            rune_id: self.rune_id,
            name: self.name.clone(),
            raw_name: self.raw_name.clone(),
            symbol: self.symbol,
            divisibility: self.divisibility,
            premine: self.premine,
            terms: self.terms,
            burned: self.burned,
            mint_count: self.mint_count,
            timestamp: self.timestamp,
            is_cenotaph: self.is_cenotaph,
            rune_number: self.rune_number,
        }
    }
}

impl Transaction {
    /// A copy of the record.
    pub fn duplicate(&self) -> (r: Transaction)
        ensures
            r == *self,
    {
        Transaction {
            tx_id: self.tx_id.clone(),
            block_height: self.block_height,
            is_runestone: self.is_runestone,
            is_cenotaph: self.is_cenotaph,
            cenotaph_message: copy_text(&self.cenotaph_message),
            timestamp: self.timestamp,
        }
    }
}

impl TXO {
    /// A copy of the row.
    pub fn duplicate(&self) -> (r: TXO)
        ensures
            r == *self,
    {
        TXO {
            tx_id: self.tx_id.clone(),
            output_index: self.output_index,
            block_height: self.block_height,
            value: self.value,
            address: copy_text(&self.address),
            address_lowercase: copy_text(&self.address_lowercase),
            is_unspent: self.is_unspent,
            spent_tx_id: copy_text(&self.spent_tx_id),
            timestamp: self.timestamp,
        }
    }
}

impl RuneTXO {
    /// A copy of the row.
    pub fn duplicate(&self) -> (r: RuneTXO)
        ensures
            r == *self,
    {
        RuneTXO {
            tx_id: self.tx_id.clone(),
            output_index: self.output_index,
            block_height: self.block_height,
            rune_id: self.rune_id,
            amount: self.amount,
            address: copy_text(&self.address),
            address_lowercase: copy_text(&self.address_lowercase),
            is_unspent: self.is_unspent,
            spent_tx_id: copy_text(&self.spent_tx_id),
            timestamp: self.timestamp,
        }
    }
}

impl RuneEvent {
    /// A copy of the event.
    pub fn duplicate(&self) -> (r: RuneEvent)
        ensures
            r == *self,
    {
        RuneEvent {
            tx_id: self.tx_id.clone(),
            rune_id: self.rune_id,
            block_height: self.block_height,
            amount: self.amount,
            kind: self.kind,
            output_index: self.output_index,
            address: copy_text(&self.address),
            timestamp: self.timestamp,
        }
    }
}

impl Block {
    /// A copy of the block.
    pub fn duplicate(&self) -> (r: Block)
        ensures
            r == *self,
    {
        Block { height: self.height, hash: self.hash.clone(), timestamp: self.timestamp }
    }
}

/// The views of the rows of `rows`.
pub open spec fn views<T: View>(rows: Seq<T>) -> Seq<T::V> {
    Seq::new(rows.len(), |i: int| rows[i]@)
}

/// The views of a list with one more row are the views of the list with one
/// more view.
pub proof fn lemma_views_push<T: View>(rows: Seq<T>, row: T)
    ensures
        views(rows.push(row)) == views(rows).push(row@),
{
    assert(views(rows.push(row)) =~= views(rows).push(row@));
}

} // verus!
