//! The relations of the indexer, held in memory.
//!
//! Every relation is a list of rows in the order in which they were added.
//! Five things hold of a store at all times (`well_formed`): a rune's number is
//! its place in the list of runes; no two runes share a name or an identifier;
//! the runes stand in the order of their blocks; an output is unspent exactly
//! when no transaction is named as having spent it; and the blocks stand in
//! the order of their heights, each height once.

use vstd::prelude::*;
use vstd::string::StringExecFns;
use crate::db::Block;
use crate::db::BlockView;
use crate::db::EventKind;
use crate::db::RuneEntry;
use crate::db::RuneEntryView;
use crate::db::RuneEvent;
use crate::db::RuneEventView;
use crate::db::RuneTXO;
use crate::db::RuneTxoView;
use crate::db::Statistics;
use crate::db::TXO;
use crate::db::Transaction;
use crate::db::TransactionView;
use crate::db::TxoView;
use crate::db::lemma_views_push;
use crate::db::text;
use crate::db::views;
use crate::rune_id::RuneId;
use crate::script::lowercase_of;
use crate::script::to_lowercase;

verus! {

/// The store.
#[derive(Clone, Debug, PartialEq, Eq)]
pub struct MockDb {
    pub rune_entries: Vec<RuneEntry>,
    pub transactions: Vec<Transaction>,
    pub rune_txos: Vec<RuneTXO>,
    pub txos: Vec<TXO>,
    pub events: Vec<RuneEvent>,
    pub blocks: Vec<Block>,
    pub statistics: Statistics,
}

/// The store, as the contracts see it.
pub struct StoreState {
    pub rune_entries: Seq<RuneEntryView>,
    pub transactions: Seq<TransactionView>,
    pub rune_txos: Seq<RuneTxoView>,
    pub txos: Seq<TxoView>,
    pub events: Seq<RuneEventView>,
    pub blocks: Seq<BlockView>,
    pub block_height: u64,
}

/// Why the store refuses a change.
#[derive(Copy, Clone, Debug, PartialEq, Eq, Structural)]
pub enum StoreError {
    /// A sum leaves 128 bits.
    Overflow,
    /// A rune of that name is there already.
    DuplicateName,
    /// A rune of that identifier is there already.
    DuplicateId,
    /// The row belongs to a block before that of the last row.
    OutOfOrder,
    /// The row says both that it is unspent and which transaction spent it,
    /// or neither.
    Inconsistent,
}

/// Which rows of rune amounts a question is about.
#[derive(Clone, Debug, PartialEq, Eq)]
pub enum Select {
    /// Those on the output at place `1` of the transaction `0`.
    Outpoint(String, u32),
    /// Those created or spent by the transaction.
    Transaction(String),
    /// Those at the address, given in lower case.
    Address(String),
    /// Those at the address, given in lower case, that are unspent and of
    /// the rune.
    Unspent(String, RuneId),
    /// Those at the address, given in lower case, that are unspent.
    UnspentAt(String),
}

/// A choice of rows, as the contracts see it.
pub enum SelectView {
    Outpoint(Seq<char>, u32),
    Transaction(Seq<char>),
    Address(Seq<char>),
    Unspent(Seq<char>, RuneId),
    UnspentAt(Seq<char>),
}

impl View for Select {
    type V = SelectView;

    open spec fn view(&self) -> SelectView {
        match self {
            Select::Outpoint(tx_id, vout) => SelectView::Outpoint(tx_id@, *vout),
            Select::Transaction(tx_id) => SelectView::Transaction(tx_id@),
            Select::Address(address) => SelectView::Address(address@),
            Select::Unspent(address, id) => SelectView::Unspent(address@, *id),
            Select::UnspentAt(address) => SelectView::UnspentAt(address@),
        }
    }
}

impl View for MockDb {
    type V = StoreState;

    open spec fn view(&self) -> StoreState {
        StoreState {
            rune_entries: views(self.rune_entries@),
            transactions: views(self.transactions@),
            rune_txos: views(self.rune_txos@),
            txos: views(self.txos@),
            events: views(self.events@),
            blocks: views(self.blocks@),
            block_height: self.statistics.block_height,
        }
    }
}

/// Whether the row is among those that `select` asks for.
pub open spec fn chosen(row: RuneTxoView, select: SelectView) -> bool {
    match select {
        SelectView::Outpoint(tx_id, vout) => row.tx_id == tx_id && row.output_index == vout,
        SelectView::Transaction(tx_id) => row.tx_id == tx_id || row.spent_tx_id == Some(tx_id),
        SelectView::Address(address) => row.address_lowercase == Some(address),
        SelectView::Unspent(address, id) => row.address_lowercase == Some(address) && row.rune_id
            == id && row.is_unspent,
        SelectView::UnspentAt(address) => row.address_lowercase == Some(address) && row.is_unspent,
    }
}

/// The rows of `rows` that `select` asks for, in order.
pub open spec fn selected(rows: Seq<RuneTxoView>, select: SelectView) -> Seq<RuneTxoView>
    decreases rows.len(),
{
    if rows.len() == 0 {
        Seq::empty()
    } else if chosen(rows.last(), select) {
        selected(rows.drop_last(), select).push(rows.last())
    } else {
        selected(rows.drop_last(), select)
    }
}

/// The sum of the amounts of `rows`.
pub open spec fn total(rows: Seq<RuneTxoView>) -> nat
    decreases rows.len(),
{
    if rows.len() == 0 {
        0
    } else {
        total(rows.drop_last()) + rows.last().amount as nat
    }
}

/// The place of the first rune of `entries` with the identifier `id`, or the
/// length of `entries`.
pub open spec fn place_of_id(entries: Seq<RuneEntryView>, id: RuneId) -> int
    decreases entries.len(),
{
    if entries.len() == 0 {
        0
    } else if place_of_id(entries.drop_last(), id) < entries.len() - 1 {
        place_of_id(entries.drop_last(), id)
    } else if entries.last().rune_id == id {
        entries.len() - 1
    } else {
        entries.len() as int
    }
}

/// The place of the first rune of `entries` with the name `name`, or the
/// length of `entries`.
pub open spec fn place_of_name(entries: Seq<RuneEntryView>, name: Seq<char>) -> int
    decreases entries.len(),
{
    if entries.len() == 0 {
        0
    } else if place_of_name(entries.drop_last(), name) < entries.len() - 1 {
        place_of_name(entries.drop_last(), name)
    } else if entries.last().raw_name == name {
        entries.len() - 1
    } else {
        entries.len() as int
    }
}

/// The place of the first rune of `entries` etched by the transaction
/// `tx_id`, or the length of `entries`.
pub open spec fn place_of_etching(entries: Seq<RuneEntryView>, tx_id: Seq<char>) -> int
    decreases entries.len(),
{
    if entries.len() == 0 {
        0
    } else if place_of_etching(entries.drop_last(), tx_id) < entries.len() - 1 {
        place_of_etching(entries.drop_last(), tx_id)
    } else if entries.last().etching_tx_id == tx_id {
        entries.len() - 1
    } else {
        entries.len() as int
    }
}

/// The row at `place`, where `place` is one.
pub open spec fn row_at<T>(rows: Seq<T>, place: int) -> Option<T> {
    if 0 <= place < rows.len() {
        Some(rows[place])
    } else {
        None
    }
}

/// The view of a rune entry that may be absent.
pub open spec fn entry_view(entry: Option<RuneEntry>) -> Option<RuneEntryView> {
    match entry {
        Some(e) => Some(e@),
        None => None,
    }
}

/// Whether each rune has its place as its number, no two runes share a name
/// or an identifier, and the runes stand in the order of their blocks.
pub open spec fn runes_sound(entries: Seq<RuneEntryView>) -> bool {
    &&& forall|i: int| 0 <= i < entries.len() ==> (#[trigger] entries[i]).rune_number == i
    &&& forall|i: int, j: int|
        0 <= i < j < entries.len() ==> {
            &&& (#[trigger] entries[i]).raw_name != (#[trigger] entries[j]).raw_name
            &&& entries[i].rune_id != entries[j].rune_id
            &&& entries[i].block_height <= entries[j].block_height
        }
}

/// `text` in lower case, where there is one.
pub open spec fn lowered(text: Option<Seq<char>>) -> Option<Seq<char>> {
    match text {
        Some(t) => Some(lowercase_of(t)),
        None => None,
    }
}

/// Whether the amount is unspent exactly when it names no transaction that
/// spent it, and has beside its address the same address in lower case.
pub open spec fn amount_sound(row: RuneTxoView) -> bool {
    (row.is_unspent <==> row.spent_tx_id is None) && row.address_lowercase == lowered(row.address)
}

/// Whether each amount is unspent exactly when it names no transaction that
/// spent it, and has beside its address the same address in lower case.
pub open spec fn amounts_sound(rows: Seq<RuneTxoView>) -> bool {
    forall|i: int| 0 <= i < rows.len() ==> amount_sound(#[trigger] rows[i])
}

/// Whether each output is unspent exactly when it names no transaction that
/// spent it.
pub open spec fn outputs_sound(rows: Seq<TxoView>) -> bool {
    forall|i: int|
        0 <= i < rows.len() ==> ((#[trigger] rows[i]).is_unspent <==> rows[i].spent_tx_id is None)
}

/// Whether the blocks stand in the order of their heights, each height once.
pub open spec fn blocks_sound(blocks: Seq<BlockView>) -> bool {
    forall|i: int, j: int|
        0 <= i < j < blocks.len() ==> (#[trigger] blocks[i]).height < (#[trigger] blocks[j]).height
}

impl StoreState {
    /// What holds of every store: the numbers, names, identifiers and order
    /// of the runes, the spending of outputs, the addresses of the amounts
    /// in lower case, and the order of the blocks.
    pub open spec fn well_formed(self) -> bool {
        &&& runes_sound(self.rune_entries)
        &&& amounts_sound(self.rune_txos)
        &&& outputs_sound(self.txos)
        &&& blocks_sound(self.blocks)
    }

    /// The rune with the identifier `id`.
    pub open spec fn rune(self, id: RuneId) -> Option<RuneEntryView> {
        row_at(self.rune_entries, place_of_id(self.rune_entries, id))
    }

    /// The rune with the name `name`.
    pub open spec fn rune_named(self, name: Seq<char>) -> Option<RuneEntryView> {
        row_at(self.rune_entries, place_of_name(self.rune_entries, name))
    }

    /// What the address `address`, given in lower case, holds of the rune
    /// `id`: the sum of the unspent amounts of that rune at that address.
    pub open spec fn balance(self, address: Seq<char>, id: RuneId) -> nat {
        total(selected(self.rune_txos, SelectView::Unspent(address, id)))
    }

    /// The store with `row` added to the rune amounts, and the event of the
    /// transfer.
    pub open spec fn with_rune_txo(self, row: RuneTxoView) -> StoreState {
        StoreState {
            rune_txos: self.rune_txos.push(row),
            events: self.events.push(
                RuneEventView {
                    tx_id: row.tx_id,
                    rune_id: row.rune_id,
                    block_height: row.block_height,
                    amount: row.amount,
                    kind: EventKind::Transfer,
                    output_index: Some(row.output_index),
                    address: row.address,
                    timestamp: row.timestamp,
                },
            ),
            ..self
        }
    }

    /// The store with `entry` added to the runes under the next number, and
    /// the event of the etching.
    pub open spec fn with_rune(self, entry: RuneEntryView) -> StoreState {
        StoreState {
            rune_entries: self.rune_entries.push(
                RuneEntryView { rune_number: self.rune_entries.len() as u128, ..entry },
            ),
            events: self.events.push(
                RuneEventView {
                    tx_id: entry.etching_tx_id,
                    rune_id: entry.rune_id,
                    block_height: entry.block_height,
                    amount: entry.premine,
                    kind: EventKind::Etch,
                    output_index: None,
                    address: None,
                    timestamp: entry.timestamp,
                },
            ),
            ..self
        }
    }

    /// Why `entry` cannot be added to the runes, if it cannot.
    pub open spec fn refuses_rune(self, entry: RuneEntryView) -> Option<StoreError> {
        if place_of_name(self.rune_entries, entry.raw_name) < self.rune_entries.len() {
            Some(StoreError::DuplicateName)
        } else if place_of_id(self.rune_entries, entry.rune_id) < self.rune_entries.len() {
            Some(StoreError::DuplicateId)
        } else if self.rune_entries.len() > 0 && entry.block_height
            < self.rune_entries.last().block_height {
            Some(StoreError::OutOfOrder)
        } else {
            None
        }
    }

    /// The store with one more mint of the rune at `place` counted, and the
    /// event of the mint.
    pub open spec fn with_mint(
        self,
        place: int,
        tx_id: Seq<char>,
        amount: u128,
        block_height: u64,
        timestamp: u32,
    ) -> StoreState {
        let entry = self.rune_entries[place];
        StoreState {
            rune_entries: self.rune_entries.update(
                place,
                RuneEntryView { mint_count: (entry.mint_count + 1) as u128, ..entry },
            ),
            events: self.events.push(
                RuneEventView {
                    tx_id,
                    rune_id: entry.rune_id,
                    block_height,
                    amount,
                    kind: EventKind::Mint,
                    output_index: None,
                    address: None,
                    timestamp,
                },
            ),
            ..self
        }
    }

    /// The store with `amount` more burned of the rune at `place`.
    pub open spec fn with_burned(self, place: int, amount: u128) -> StoreState {
        let entry = self.rune_entries[place];
        StoreState {
            rune_entries: self.rune_entries.update(
                place,
                RuneEntryView { burned: (entry.burned + amount) as u128, ..entry },
            ),
            ..self
        }
    }

    /// The store with the event of a burn added.
    pub open spec fn with_burn_event(
        self,
        id: RuneId,
        tx_id: Seq<char>,
        amount: u128,
        block_height: u64,
        timestamp: u32,
    ) -> StoreState {
        StoreState {
            events: self.events.push(
                RuneEventView {
                    tx_id,
                    rune_id: id,
                    block_height,
                    amount,
                    kind: EventKind::Burn,
                    output_index: None,
                    address: None,
                    timestamp,
                },
            ),
            ..self
        }
    }

    /// The store with the output at place `vout` of the transaction `tx_id`
    /// spent by the transaction `spender`.
    pub open spec fn with_spent(self, tx_id: Seq<char>, vout: u32, spender: Seq<char>)
        -> StoreState {
        StoreState {
            rune_txos: spent_rune_txos(
                self.rune_txos,
                tx_id,
                vout,
                spender,
                self.rune_txos.len() as int,
            ),
            txos: spent_txos(self.txos, tx_id, vout, spender, self.txos.len() as int),
            ..self
        }
    }

    /// The block at height `height`.
    pub open spec fn block(self, height: u64) -> Option<BlockView> {
        row_at(self.blocks, place_of_height(self.blocks, height))
    }
}

/// The place of the first block of `blocks` at height `height`, or the length
/// of `blocks`.
pub open spec fn place_of_height(blocks: Seq<BlockView>, height: u64) -> int
    decreases blocks.len(),
{
    if blocks.len() == 0 {
        0
    } else if place_of_height(blocks.drop_last(), height) < blocks.len() - 1 {
        place_of_height(blocks.drop_last(), height)
    } else if blocks.last().height == height {
        blocks.len() - 1
    } else {
        blocks.len() as int
    }
}

/// The place of the first record of `rows` of the transaction `tx_id`, or the
/// length of `rows`.
pub open spec fn place_of_transaction(rows: Seq<TransactionView>, tx_id: Seq<char>) -> int
    decreases rows.len(),
{
    if rows.len() == 0 {
        0
    } else if place_of_transaction(rows.drop_last(), tx_id) < rows.len() - 1 {
        place_of_transaction(rows.drop_last(), tx_id)
    } else if rows.last().tx_id == tx_id {
        rows.len() - 1
    } else {
        rows.len() as int
    }
}

/// The place of the first output of `rows` at place `vout` of the
/// transaction `tx_id`, or the length of `rows`.
pub open spec fn place_of_txo(rows: Seq<TxoView>, tx_id: Seq<char>, vout: u32) -> int
    decreases rows.len(),
{
    if rows.len() == 0 {
        0
    } else if place_of_txo(rows.drop_last(), tx_id, vout) < rows.len() - 1 {
        place_of_txo(rows.drop_last(), tx_id, vout)
    } else if rows.last().tx_id == tx_id && rows.last().output_index == vout {
        rows.len() - 1
    } else {
        rows.len() as int
    }
}

/// The row `row` after the transaction `spender` spent the output at place
/// `vout` of the transaction `tx_id`.
pub open spec fn spent_rune_txo(row: RuneTxoView, tx_id: Seq<char>, vout: u32, spender: Seq<char>)
    -> RuneTxoView {
    if row.tx_id == tx_id && row.output_index == vout {
        RuneTxoView { is_unspent: false, spent_tx_id: Some(spender), ..row }
    } else {
        row
    }
}

/// The rows `rows` after the spending reached those before place `upto`.
pub open spec fn spent_rune_txos(
    rows: Seq<RuneTxoView>,
    tx_id: Seq<char>,
    vout: u32,
    spender: Seq<char>,
    upto: int,
) -> Seq<RuneTxoView> {
    Seq::new(
        rows.len(),
        |i: int|
            if i < upto {
                spent_rune_txo(rows[i], tx_id, vout, spender)
            } else {
                rows[i]
            },
    )
}

/// The row `row` after the transaction `spender` spent the output at place
/// `vout` of the transaction `tx_id`.
pub open spec fn spent_txo(row: TxoView, tx_id: Seq<char>, vout: u32, spender: Seq<char>)
    -> TxoView {
    if row.tx_id == tx_id && row.output_index == vout {
        TxoView { is_unspent: false, spent_tx_id: Some(spender), ..row }
    } else {
        row
    }
}

/// The rows `rows` after the spending reached those before place `upto`.
pub open spec fn spent_txos(
    rows: Seq<TxoView>,
    tx_id: Seq<char>,
    vout: u32,
    spender: Seq<char>,
    upto: int,
) -> Seq<TxoView> {
    Seq::new(
        rows.len(),
        |i: int|
            if i < upto {
                spent_txo(rows[i], tx_id, vout, spender)
            } else {
                rows[i]
            },
    )
}

/// A rune at a place before which no rune has the identifier is the first
/// with it; where no rune has it, the place is the length.
pub proof fn lemma_place_of_id(entries: Seq<RuneEntryView>, id: RuneId, i: int)
    requires
        0 <= i <= entries.len(),
        forall|j: int| 0 <= j < i ==> (#[trigger] entries[j]).rune_id != id,
        i < entries.len() ==> entries[i].rune_id == id,
    ensures
        place_of_id(entries, id) == i,
    decreases entries.len(),
{
    if entries.len() > 0 {
        let front = entries.drop_last();
        if i < entries.len() - 1 {
            lemma_place_of_id(front, id, i);
        } else {
            assert forall|j: int| 0 <= j < front.len() implies (#[trigger] front[j]).rune_id
                != id by {
                assert(front[j] == entries[j]);
            }
            lemma_place_of_id(front, id, front.len() as int);
        }
    }
}

/// The same of names.
pub proof fn lemma_place_of_name(entries: Seq<RuneEntryView>, name: Seq<char>, i: int)
    requires
        0 <= i <= entries.len(),
        forall|j: int| 0 <= j < i ==> (#[trigger] entries[j]).raw_name != name,
        i < entries.len() ==> entries[i].raw_name == name,
    ensures
        place_of_name(entries, name) == i,
    decreases entries.len(),
{
    if entries.len() > 0 {
        let front = entries.drop_last();
        if i < entries.len() - 1 {
            lemma_place_of_name(front, name, i);
        } else {
            assert forall|j: int| 0 <= j < front.len() implies (#[trigger] front[j]).raw_name
                != name by {
                assert(front[j] == entries[j]);
            }
            lemma_place_of_name(front, name, front.len() as int);
        }
    }
}

/// The same of etching transactions.
pub proof fn lemma_place_of_etching(entries: Seq<RuneEntryView>, tx_id: Seq<char>, i: int)
    requires
        0 <= i <= entries.len(),
        forall|j: int| 0 <= j < i ==> (#[trigger] entries[j]).etching_tx_id != tx_id,
        i < entries.len() ==> entries[i].etching_tx_id == tx_id,
    ensures
        place_of_etching(entries, tx_id) == i,
    decreases entries.len(),
{
    if entries.len() > 0 {
        let front = entries.drop_last();
        if i < entries.len() - 1 {
            lemma_place_of_etching(front, tx_id, i);
        } else {
            assert forall|j: int| 0 <= j < front.len() implies (
            #[trigger] front[j]).etching_tx_id != tx_id by {
                assert(front[j] == entries[j]);
            }
            lemma_place_of_etching(front, tx_id, front.len() as int);
        }
    }
}

/// Where the first rune with an identifier stands, it has the identifier, and
/// no rune before it has.
pub proof fn lemma_place_of_id_found(entries: Seq<RuneEntryView>, id: RuneId)
    ensures
        0 <= place_of_id(entries, id) <= entries.len(),
        place_of_id(entries, id) < entries.len() ==> entries[place_of_id(entries, id)].rune_id
            == id,
        forall|j: int| 0 <= j < place_of_id(entries, id) ==> (#[trigger] entries[j]).rune_id != id,
    decreases entries.len(),
{
    if entries.len() > 0 {
        let front = entries.drop_last();
        lemma_place_of_id_found(front, id);
        assert forall|j: int| 0 <= j < place_of_id(entries, id) implies (
        #[trigger] entries[j]).rune_id != id by {
            if j < front.len() {
                assert(front[j] == entries[j]);
            }
        }
    }
}

/// The same of names.
pub proof fn lemma_place_of_name_found(entries: Seq<RuneEntryView>, name: Seq<char>)
    ensures
        0 <= place_of_name(entries, name) <= entries.len(),
        place_of_name(entries, name) < entries.len() ==> entries[place_of_name(
            entries,
            name,
        )].raw_name == name,
        forall|j: int|
            0 <= j < place_of_name(entries, name) ==> (#[trigger] entries[j]).raw_name != name,
    decreases entries.len(),
{
    if entries.len() > 0 {
        let front = entries.drop_last();
        lemma_place_of_name_found(front, name);
        assert forall|j: int| 0 <= j < place_of_name(entries, name) implies (
        #[trigger] entries[j]).raw_name != name by {
            if j < front.len() {
                assert(front[j] == entries[j]);
            }
        }
    }
}

/// The views of a list with one row replaced are the views of the list with
/// one view replaced.
pub proof fn lemma_views_update<T: View>(rows: Seq<T>, i: int, row: T)
    requires
        0 <= i < rows.len(),
    ensures
        views(rows.update(i, row)) == views(rows).update(i, row@),
{
    assert(views(rows.update(i, row)) =~= views(rows).update(i, row@));
}

/// Whether `row` is among the rows that `select` asks for.
fn choose_row(row: &RuneTXO, select: &Select) -> (r: bool)
    ensures
        r == chosen(row@, select@),
{
    match select {
        Select::Outpoint(tx_id, vout) => row.tx_id == *tx_id && row.output_index == *vout,
        Select::Transaction(tx_id) => row.tx_id == *tx_id || same_text(&row.spent_tx_id, tx_id),
        Select::Address(address) => same_text(&row.address_lowercase, address),
        Select::Unspent(address, id) => same_text(&row.address_lowercase, address) && row.rune_id
            == *id && row.is_unspent,
        Select::UnspentAt(address) => same_text(&row.address_lowercase, address) && row.is_unspent,
    }
}

/// Whether `value` is there and reads as `other` does.
fn same_text(value: &Option<String>, other: &String) -> (r: bool)
    ensures
        r == (text(*value) == Some(other@)),
{
    match value {
        Some(s) => *s == *other,
        None => false,
    }
}

impl MockDb {
    /// Whether the store is as every store should be.
    pub open spec fn wf(&self) -> bool {
        self@.well_formed()
    }

    /// A store without rows, at height 0.
    pub fn new() -> (r: MockDb)
        ensures
            r.wf(),
            r@.rune_entries.len() == 0,
            r@.transactions.len() == 0,
            r@.rune_txos.len() == 0,
            r@.txos.len() == 0,
            r@.events.len() == 0,
            r@.blocks.len() == 0,
            r@.block_height == 0,
    {
        MockDb {
            rune_entries: Vec::new(),
            transactions: Vec::new(),
            rune_txos: Vec::new(),
            txos: Vec::new(),
            events: Vec::new(),
            blocks: Vec::new(),
            statistics: Statistics { block_height: 0 },
        }
    }

    /// The rows of rune amounts that `select` asks for, in order.
    pub fn select(&self, select: &Select) -> (r: Vec<RuneTXO>)
        ensures
            views(r@) == selected(self@.rune_txos, select@),
    {
        let mut out: Vec<RuneTXO> = Vec::new();
        let mut i: usize = 0;
        let ghost rows = views(self.rune_txos@);
        assert(rows.take(0) =~= Seq::<RuneTxoView>::empty());
        assert(views(out@) =~= Seq::<RuneTxoView>::empty());
        while i < self.rune_txos.len()
            invariant
                i <= self.rune_txos@.len(),
                rows == views(self.rune_txos@),
                views(out@) == selected(rows.take(i as int), select@),
            decreases self.rune_txos@.len() - i,
        {
            let ghost next = rows.take(i + 1);
            assert(next.drop_last() =~= rows.take(i as int));
            assert(next.last() == self.rune_txos@[i as int]@);
            if choose_row(&self.rune_txos[i], select) {
                let row: RuneTXO = self.rune_txos[i].duplicate();
                proof {
                    lemma_views_push(out@, row);
                }
                out.push(row);
            }
            i = i + 1;
        }
        assert(rows.take(rows.len() as int) =~= rows);
        out
    }

    /// The rune amounts on the output at place `output_index` of the
    /// transaction `tx_id`.
    pub fn get_runes_txo_by_output_index(&self, tx_id: &str, output_index: u32) -> (r: Vec<
        RuneTXO,
    >)
        ensures
            views(r@) == selected(self@.rune_txos, SelectView::Outpoint(tx_id@, output_index)),
    {
        self.select(&Select::Outpoint(String::from_str(tx_id), output_index))
    }

    /// The rune amounts that the transaction `tx_id` created or spent.
    pub fn get_transaction_runes_txo(&self, tx_id: &str) -> (r: Vec<RuneTXO>)
        ensures
            views(r@) == selected(self@.rune_txos, SelectView::Transaction(tx_id@)),
    {
        self.select(&Select::Transaction(String::from_str(tx_id)))
    }

    /// The rune amounts at `address`, whatever its case.
    pub fn get_address_runes_txo(&self, address: &str) -> (r: Vec<RuneTXO>)
        ensures
            views(r@) == selected(self@.rune_txos, SelectView::Address(lowercase_of(address@))),
    {
        self.select(&Select::Address(to_lowercase(address)))
    }

    /// The unspent amounts of the rune `rune_id` at `address`, whatever its
    /// case.
    pub fn get_address_runes_utxo_by_rune_id(&self, address: &str, rune_id: RuneId) -> (r: Vec<
        RuneTXO,
    >)
        ensures
            views(r@) == selected(
                self@.rune_txos,
                SelectView::Unspent(lowercase_of(address@), rune_id),
            ),
    {
        self.select(&Select::Unspent(to_lowercase(address), rune_id))
    }

    /// What `address`, whatever its case, holds of the rune `rune_id`: the
    /// sum of the unspent amounts of that rune at that address.
    pub fn get_address_balance_by_rune_id(&self, address: &str, rune_id: RuneId) -> (r: Result<
        u128,
        StoreError,
    >)
        ensures
            match r {
                Ok(sum) => sum == self@.balance(lowercase_of(address@), rune_id),
                Err(e) => e == StoreError::Overflow && self@.balance(
                    lowercase_of(address@),
                    rune_id,
                ) > u128::MAX,
            },
    {
        let rows: Vec<RuneTXO> = self.get_address_runes_utxo_by_rune_id(address, rune_id);
        let ghost list = views(rows@);
        let mut sum: u128 = 0;
        let mut i: usize = 0;
        assert(list.take(0) =~= Seq::<RuneTxoView>::empty());
        while i < rows.len()
            invariant
                i <= rows@.len(),
                list == views(rows@),
                total(list) == self@.balance(lowercase_of(address@), rune_id),
                sum == total(list.take(i as int)),
            decreases rows@.len() - i,
        {
            let ghost next = list.take(i + 1);
            assert(next.drop_last() =~= list.take(i as int));
            assert(next.last() == rows@[i as int]@);
            match sum.checked_add(rows[i].amount) {
                Some(s) => {
                    sum = s;
                },
                None => {
                    proof {
                        assert(total(next) == sum + rows@[i as int].amount);
                        lemma_total_grows(list, i + 1);
                    }
                    return Err(StoreError::Overflow);
                },
            }
            i = i + 1;
        }
        assert(list.take(list.len() as int) =~= list);
        Ok(sum)
    }

    /// The rune with the identifier `rune_id`.
    pub fn get_rune_by_id(&self, rune_id: RuneId) -> (r: Option<RuneEntry>)
        ensures
            entry_view(r) == self@.rune(rune_id),
    {
        match self.find_rune(rune_id) {
            Some(i) => Some(self.rune_entries[i].duplicate()),
            None => None,
        }
    }

    /// The place of the rune with the identifier `rune_id`.
    pub fn find_rune(&self, rune_id: RuneId) -> (r: Option<usize>)
        ensures
            match r {
                Some(i) => i < self@.rune_entries.len() && i == place_of_id(
                    self@.rune_entries,
                    rune_id,
                ),
                None => place_of_id(self@.rune_entries, rune_id) == self@.rune_entries.len(),
            },
    {
        let ghost rows = views(self.rune_entries@);
        let mut i: usize = 0;
        while i < self.rune_entries.len()
            invariant
                i <= self.rune_entries@.len(),
                rows == views(self.rune_entries@),
                forall|j: int| 0 <= j < i ==> (#[trigger] rows[j]).rune_id != rune_id,
            decreases self.rune_entries@.len() - i,
        {
            if self.rune_entries[i].rune_id == rune_id {
                proof {
                    lemma_place_of_id(rows, rune_id, i as int);
                }
                return Some(i);
            }
            i = i + 1;
        }
        proof {
            lemma_place_of_id(rows, rune_id, i as int);
        }
        None
    }

    /// The rune with the name `name`, written without spacers.
    pub fn get_rune_by_raw_name(&self, name: &str) -> (r: Option<RuneEntry>)
        ensures
            entry_view(r) == self@.rune_named(name@),
    {
        let key: String = String::from_str(name);
        let ghost rows = views(self.rune_entries@);
        let mut i: usize = 0;
        while i < self.rune_entries.len()
            invariant
                i <= self.rune_entries@.len(),
                rows == views(self.rune_entries@),
                key@ == name@,
                forall|j: int| 0 <= j < i ==> (#[trigger] rows[j]).raw_name != name@,
            decreases self.rune_entries@.len() - i,
        {
            if self.rune_entries[i].raw_name == key {
                proof {
                    lemma_place_of_name(rows, name@, i as int);
                }
                return Some(self.rune_entries[i].duplicate());
            }
            i = i + 1;
        }
        proof {
            lemma_place_of_name(rows, name@, i as int);
        }
        None
    }

    /// The rune that the transaction `tx_id` etched.
    pub fn get_rune_by_etched_tx_id(&self, tx_id: &str) -> (r: Option<RuneEntry>)
        ensures
            entry_view(r) == row_at(
                self@.rune_entries,
                place_of_etching(self@.rune_entries, tx_id@),
            ),
    {
        let key: String = String::from_str(tx_id);
        let ghost rows = views(self.rune_entries@);
        let mut i: usize = 0;
        while i < self.rune_entries.len()
            invariant
                i <= self.rune_entries@.len(),
                rows == views(self.rune_entries@),
                key@ == tx_id@,
                forall|j: int| 0 <= j < i ==> (#[trigger] rows[j]).etching_tx_id != tx_id@,
            decreases self.rune_entries@.len() - i,
        {
            if self.rune_entries[i].etching_tx_id == key {
                proof {
                    lemma_place_of_etching(rows, tx_id@, i as int);
                }
                return Some(self.rune_entries[i].duplicate());
            }
            i = i + 1;
        }
        proof {
            lemma_place_of_etching(rows, tx_id@, i as int);
        }
        None
    }

    /// The number of runes.
    pub fn get_rune_count(&self) -> (r: u128)
        ensures
            r == self@.rune_entries.len(),
    {
        self.rune_entries.len() as u128
    }

    /// The height of the last block that was indexed.
    pub fn get_block_height(&self) -> (r: u64)
        ensures
            r == self@.block_height,
    {
        self.statistics.block_height
    }

    /// Records `block_height` as the height of the last block that was
    /// indexed.
    pub fn set_block_height(&mut self, block_height: u64)
        ensures
            final(self)@ == (StoreState { block_height, ..old(self)@ }),
    {
        self.statistics.block_height = block_height;
    }

    /// All runes, in the order of their numbers.
    pub fn get_runes(&self) -> (r: Vec<RuneEntry>)
        ensures
            views(r@) == self@.rune_entries,
    {
        let mut out: Vec<RuneEntry> = Vec::new();
        let mut i: usize = 0;
        while i < self.rune_entries.len()
            invariant
                i <= self.rune_entries@.len(),
                out@ == self.rune_entries@.take(i as int),
            decreases self.rune_entries@.len() - i,
        {
            assert(self.rune_entries@.take(i as int).push(self.rune_entries@[i as int])
                =~= self.rune_entries@.take(i + 1));
            out.push(self.rune_entries[i].duplicate());
            i = i + 1;
        }
        assert(self.rune_entries@.take(i as int) =~= self.rune_entries@);
        out
    }

    /// The records of all transactions with a runes message, in order.
    pub fn get_transactions(&self) -> (r: Vec<Transaction>)
        ensures
            views(r@) == self@.transactions,
    {
        let mut out: Vec<Transaction> = Vec::new();
        let mut i: usize = 0;
        while i < self.transactions.len()
            invariant
                i <= self.transactions@.len(),
                out@ == self.transactions@.take(i as int),
            decreases self.transactions@.len() - i,
        {
            assert(self.transactions@.take(i as int).push(self.transactions@[i as int])
                =~= self.transactions@.take(i + 1));
            out.push(self.transactions[i].duplicate());
            i = i + 1;
        }
        assert(self.transactions@.take(i as int) =~= self.transactions@);
        out
    }

    /// The record of the transaction `tx_id`.
    pub fn get_transaction(&self, tx_id: &str) -> (r: Option<Transaction>)
        ensures
            match r {
                Some(row) => Some(row@) == row_at(
                    self@.transactions,
                    place_of_transaction(self@.transactions, tx_id@),
                ),
                None => place_of_transaction(self@.transactions, tx_id@)
                    == self@.transactions.len(),
            },
    {
        let key: String = String::from_str(tx_id);
        let ghost rows = views(self.transactions@);
        let mut i: usize = 0;
        while i < self.transactions.len()
            invariant
                i <= self.transactions@.len(),
                rows == views(self.transactions@),
                key@ == tx_id@,
                place_of_transaction(rows.take(i as int), tx_id@) == i,
            decreases self.transactions@.len() - i,
        {
            let ghost next = rows.take(i + 1);
            assert(next.drop_last() =~= rows.take(i as int));
            if self.transactions[i].tx_id == key {
                proof {
                    lemma_place_of_transaction_stays(rows, tx_id@, i + 1);
                }
                return Some(self.transactions[i].duplicate());
            }
            i = i + 1;
        }
        assert(rows.take(i as int) =~= rows);
        None
    }

    /// The output at place `output_index` of the transaction `tx_id`.
    pub fn get_txo(&self, tx_id: &str, output_index: u32) -> (r: Option<TXO>)
        ensures
            match r {
                Some(row) => Some(row@) == row_at(
                    self@.txos,
                    place_of_txo(self@.txos, tx_id@, output_index),
                ),
                None => place_of_txo(self@.txos, tx_id@, output_index) == self@.txos.len(),
            },
    {
        let key: String = String::from_str(tx_id);
        let ghost rows = views(self.txos@);
        let mut i: usize = 0;
        while i < self.txos.len()
            invariant
                i <= self.txos@.len(),
                rows == views(self.txos@),
                key@ == tx_id@,
                place_of_txo(rows.take(i as int), tx_id@, output_index) == i,
            decreases self.txos@.len() - i,
        {
            let ghost next = rows.take(i + 1);
            assert(next.drop_last() =~= rows.take(i as int));
            if self.txos[i].tx_id == key && self.txos[i].output_index == output_index {
                proof {
                    lemma_place_of_txo_stays(rows, tx_id@, output_index, i + 1);
                }
                return Some(self.txos[i].duplicate());
            }
            i = i + 1;
        }
        assert(rows.take(i as int) =~= rows);
        None
    }

    /// The block at height `height`.
    pub fn get_block_by_height(&self, height: u64) -> (r: Option<Block>)
        ensures
            match r {
                Some(row) => Some(row@) == self@.block(height),
                None => self@.block(height) is None,
            },
    {
        let ghost rows = views(self.blocks@);
        let mut i: usize = 0;
        while i < self.blocks.len()
            invariant
                i <= self.blocks@.len(),
                rows == views(self.blocks@),
                place_of_height(rows.take(i as int), height) == i,
            decreases self.blocks@.len() - i,
        {
            let ghost next = rows.take(i + 1);
            assert(next.drop_last() =~= rows.take(i as int));
            if self.blocks[i].height == height {
                proof {
                    lemma_place_of_height_stays(rows, height, i + 1);
                }
                return Some(self.blocks[i].duplicate());
            }
            i = i + 1;
        }
        assert(rows.take(i as int) =~= rows);
        None
    }

    /// The last block that was added.
    pub fn get_latest_block(&self) -> (r: Option<Block>)
        ensures
            match r {
                Some(row) => self@.blocks.len() > 0 && row@ == self@.blocks.last(),
                None => self@.blocks.len() == 0,
            },
    {
        if self.blocks.len() == 0 {
            None
        } else {
            Some(self.blocks[self.blocks.len() - 1].duplicate())
        }
    }
}

/// The sum of some rows is no more than the sum of them and others.
pub proof fn lemma_total_grows(rows: Seq<RuneTxoView>, i: int)
    requires
        0 <= i <= rows.len(),
    ensures
        total(rows.take(i)) <= total(rows),
    decreases rows.len() - i,
{
    if i < rows.len() {
        assert(rows.take(i + 1).drop_last() =~= rows.take(i));
        lemma_total_grows(rows, i + 1);
    } else {
        assert(rows.take(i) =~= rows);
    }
}

/// A place found among the first rows is the place among all.
pub proof fn lemma_place_of_transaction_stays(rows: Seq<TransactionView>, tx_id: Seq<char>, i: int)
    requires
        0 <= i <= rows.len(),
        place_of_transaction(rows.take(i), tx_id) < i,
    ensures
        place_of_transaction(rows, tx_id) == place_of_transaction(rows.take(i), tx_id),
    decreases rows.len() - i,
{
    if i < rows.len() {
        assert(rows.take(i + 1).drop_last() =~= rows.take(i));
        lemma_place_of_transaction_stays(rows, tx_id, i + 1);
    } else {
        assert(rows.take(i) =~= rows);
    }
}

/// A place found among the first rows is the place among all.
pub proof fn lemma_place_of_txo_stays(rows: Seq<TxoView>, tx_id: Seq<char>, vout: u32, i: int)
    requires
        0 <= i <= rows.len(),
        place_of_txo(rows.take(i), tx_id, vout) < i,
    ensures
        place_of_txo(rows, tx_id, vout) == place_of_txo(rows.take(i), tx_id, vout),
    decreases rows.len() - i,
{
    if i < rows.len() {
        assert(rows.take(i + 1).drop_last() =~= rows.take(i));
        lemma_place_of_txo_stays(rows, tx_id, vout, i + 1);
    } else {
        assert(rows.take(i) =~= rows);
    }
}

/// A place found among the first blocks is the place among all.
pub proof fn lemma_place_of_height_stays(rows: Seq<BlockView>, height: u64, i: int)
    requires
        0 <= i <= rows.len(),
        place_of_height(rows.take(i), height) < i,
    ensures
        place_of_height(rows, height) == place_of_height(rows.take(i), height),
    decreases rows.len() - i,
{
    if i < rows.len() {
        assert(rows.take(i + 1).drop_last() =~= rows.take(i));
        lemma_place_of_height_stays(rows, height, i + 1);
    } else {
        assert(rows.take(i) =~= rows);
    }
}

/// A rune replaced by one of the same identifier leaves every identifier at
/// its place.
pub proof fn lemma_place_of_id_update(
    rows: Seq<RuneEntryView>,
    place: int,
    entry: RuneEntryView,
    id: RuneId,
)
    requires
        0 <= place < rows.len(),
        entry.rune_id == rows[place].rune_id,
    ensures
        place_of_id(rows.update(place, entry), id) == place_of_id(rows, id),
{
    lemma_place_of_id_found(rows, id);
    let q = place_of_id(rows, id);
    let after = rows.update(place, entry);
    assert forall|j: int| 0 <= j < q implies (#[trigger] after[j]).rune_id != id by {
        assert(rows[j].rune_id != id);
    }
    lemma_place_of_id(after, id, q);
}

/// A rune replaced by one of the same name leaves every name at its place.
pub proof fn lemma_place_of_name_update(
    rows: Seq<RuneEntryView>,
    place: int,
    entry: RuneEntryView,
    name: Seq<char>,
)
    requires
        0 <= place < rows.len(),
        entry.raw_name == rows[place].raw_name,
    ensures
        place_of_name(rows.update(place, entry), name) == place_of_name(rows, name),
{
    lemma_place_of_name_found(rows, name);
    let q = place_of_name(rows, name);
    let after = rows.update(place, entry);
    assert forall|j: int| 0 <= j < q implies (#[trigger] after[j]).raw_name != name by {
        assert(rows[j].raw_name != name);
    }
    lemma_place_of_name(after, name, q);
}

/// In every store, the number of a rune is its place in the order of
/// etching, and no two runes have the same name.
pub proof fn lemma_runes_numbered(store: StoreState, i: int, j: int)
    requires
        store.well_formed(),
        0 <= i < store.rune_entries.len(),
        0 <= j < store.rune_entries.len(),
    ensures
        store.rune_entries[i].rune_number == i,
        i != j ==> store.rune_entries[i].raw_name != store.rune_entries[j].raw_name,
{
    if i < j {
        assert(store.rune_entries[i].raw_name != store.rune_entries[j].raw_name);
    } else if j < i {
        assert(store.rune_entries[j].raw_name != store.rune_entries[i].raw_name);
    }
}

/// The unspent amounts of the rune `id` among `rows` whose address is
/// `address`, both taken in lower case.
pub open spec fn held_at(rows: Seq<RuneTxoView>, address: Seq<char>, id: RuneId) -> Seq<
    RuneTxoView,
>
    decreases rows.len(),
{
    if rows.len() == 0 {
        Seq::empty()
    } else if rows.last().is_unspent && rows.last().rune_id == id && lowered(rows.last().address)
        == Some(lowercase_of(address)) {
        held_at(rows.drop_last(), address, id).push(rows.last())
    } else {
        held_at(rows.drop_last(), address, id)
    }
}

proof fn lemma_selected_by_address(rows: Seq<RuneTxoView>, address: Seq<char>, id: RuneId)
    requires
        amounts_sound(rows),
    ensures
        selected(rows, SelectView::Unspent(lowercase_of(address), id)) == held_at(
            rows,
            address,
            id,
        ),
    decreases rows.len(),
{
    if rows.len() > 0 {
        let front = rows.drop_last();
        assert forall|i: int| 0 <= i < front.len() implies amount_sound(#[trigger] front[i]) by {
            assert(front[i] == rows[i]);
        }
        lemma_selected_by_address(front, address, id);
        assert(amount_sound(rows[rows.len() - 1]));
    }
}

/// In every store, what an address holds of a rune is the sum of the unspent
/// amounts of that rune whose address is that address, both taken in lower
/// case: spent amounts, other runes and other addresses add nothing.
pub proof fn lemma_balance_by_address(store: StoreState, address: Seq<char>, id: RuneId)
    requires
        store.well_formed(),
    ensures
        store.balance(lowercase_of(address), id) == total(held_at(store.rune_txos, address, id)),
{
    lemma_selected_by_address(store.rune_txos, address, id);
}

/// In every store, an amount of a rune is unspent exactly when it names no
/// transaction that spent it.
pub proof fn lemma_unspent_unnamed(store: StoreState, i: int)
    requires
        store.well_formed(),
        0 <= i < store.rune_txos.len(),
    ensures
        store.rune_txos[i].is_unspent <==> store.rune_txos[i].spent_tx_id is None,
{
}

} // verus!
