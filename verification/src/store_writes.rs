//! The changes that the store takes. Each is all or nothing: where a change
//! is refused, the store is as it was.

use vstd::prelude::*;
use vstd::string::StringExecFns;
use crate::db::Block;
use crate::db::BlockView;
use crate::db::EventKind;
use crate::db::RuneEntry;
use crate::db::RuneEntryView;
use crate::db::RuneEvent;
use crate::db::RuneTXO;
use crate::db::TXO;
use crate::db::Transaction;
use crate::db::copy_text;
use crate::db::lemma_views_push;
use crate::db::views;
use crate::mock_db::MockDb;
use crate::mock_db::StoreError;
use crate::mock_db::StoreState;
use crate::mock_db::lemma_place_of_id_found;
use crate::mock_db::lemma_place_of_name;
use crate::mock_db::lemma_place_of_name_found;
use crate::mock_db::lemma_views_update;
use crate::mock_db::amount_sound;
use crate::mock_db::amounts_sound;
use crate::mock_db::blocks_sound;
use crate::mock_db::outputs_sound;
use crate::mock_db::place_of_id;
use crate::mock_db::runes_sound;
use crate::mock_db::place_of_name;
use crate::mock_db::spent_rune_txos;
use crate::mock_db::spent_txos;
use crate::rune_id::RuneId;
use crate::script::to_lowercase;

verus! {

impl StoreState {
    /// The store after one more mint of the rune `id` was counted and its
    /// event added; the store as it is where it has no such rune.
    pub open spec fn minted(
        self,
        id: RuneId,
        tx_id: Seq<char>,
        amount: u128,
        block_height: u64,
        timestamp: u32,
    ) -> Result<StoreState, StoreError> {
        let place = place_of_id(self.rune_entries, id);
        if place >= self.rune_entries.len() {
            Ok(self)
        } else if self.rune_entries[place].mint_count + 1 > u128::MAX {
            Err(StoreError::Overflow)
        } else {
            Ok(self.with_mint(place, tx_id, amount, block_height, timestamp))
        }
    }

    /// The store after `amount` more was burned of the rune `id`; the store
    /// as it is where it has no such rune.
    pub open spec fn burned(self, id: RuneId, amount: u128) -> Result<StoreState, StoreError> {
        let place = place_of_id(self.rune_entries, id);
        if place >= self.rune_entries.len() {
            Ok(self)
        } else if self.rune_entries[place].burned + amount > u128::MAX {
            Err(StoreError::Overflow)
        } else {
            Ok(self.with_burned(place, amount))
        }
    }

    /// The store with the block `block` added, and its height as the height
    /// reached.
    pub open spec fn with_block(self, block: BlockView) -> StoreState {
        StoreState { blocks: self.blocks.push(block), block_height: block.height, ..self }
    }

    /// Whether the block `block` comes after every block of the store.
    pub open spec fn takes_block(self, block: BlockView) -> bool {
        self.blocks.len() == 0 || self.blocks.last().height < block.height
    }
}

/// Whether a row says of itself that it is unspent exactly when it names no
/// transaction that spent it.
pub open spec fn consistent(is_unspent: bool, spent_tx_id: Option<Seq<char>>) -> bool {
    is_unspent <==> spent_tx_id is None
}

impl MockDb {
    /// Adds the record of a transaction.
    pub fn add_transaction(&mut self, transaction: Transaction)
        requires
            old(self).wf(),
        ensures
            final(self).wf(),
            final(self)@ == (StoreState {
                transactions: old(self)@.transactions.push(transaction@),
                ..old(self)@
            }),
    {
        proof {
            lemma_views_push(self.transactions@, transaction);
        }
        self.transactions.push(transaction);
    }

    /// Adds an output.
    pub fn add_txo(&mut self, txo: TXO) -> (r: Result<(), StoreError>)
        requires
            old(self).wf(),
        ensures
            final(self).wf(),
            r is Ok <==> consistent(txo@.is_unspent, txo@.spent_tx_id),
            match r {
                Ok(()) => final(self)@ == (StoreState {
                    txos: old(self)@.txos.push(txo@),
                    ..old(self)@
                }),
                Err(e) => e == StoreError::Inconsistent && *final(self) == *old(self),
            },
    {
        if txo.is_unspent != txo.spent_tx_id.is_none() {
            return Err(StoreError::Inconsistent);
        }
        proof {
            lemma_views_push(self.txos@, txo);
            let rows = views(self.txos@);
            let after = rows.push(txo@);
            assert(outputs_sound(rows));
            assert forall|i: int| 0 <= i < after.len() implies ((#[trigger] after[i]).is_unspent
                <==> after[i].spent_tx_id is None) by {
                if i < rows.len() {
                    assert(after[i] == rows[i]);
                }
            }
        }
        self.txos.push(txo);
        Ok(())
    }

    /// Adds an amount of a rune on an output, and the event of the transfer.
    /// A row that says it is unspent and names a spender, or the other way
    /// round, is refused, and so is one whose address in lower case is not
    /// the lower case of its address.
    pub fn add_rune_txo(&mut self, rune_txo: RuneTXO) -> (r: Result<(), StoreError>)
        requires
            old(self).wf(),
        ensures
            final(self).wf(),
            r is Ok <==> amount_sound(rune_txo@),
            match r {
                Ok(()) => final(self)@ == old(self)@.with_rune_txo(rune_txo@),
                Err(e) => e == StoreError::Inconsistent && *final(self) == *old(self),
            },
    {
        if rune_txo.is_unspent != rune_txo.spent_tx_id.is_none() {
            return Err(StoreError::Inconsistent);
        }
        let lowered: bool = match (&rune_txo.address, &rune_txo.address_lowercase) {
            (Some(address), Some(lower)) => to_lowercase(address.as_str()) == *lower,
            (None, None) => true,
            _ => false,
        };
        if !lowered {
            return Err(StoreError::Inconsistent);
        }
        let event: RuneEvent = RuneEvent {
            tx_id: rune_txo.tx_id.clone(),
            rune_id: rune_txo.rune_id,
            block_height: rune_txo.block_height,
            amount: rune_txo.amount,
            kind: EventKind::Transfer,
            output_index: Some(rune_txo.output_index),
            address: copy_text(&rune_txo.address),
            timestamp: rune_txo.timestamp,
        };
        proof {
            lemma_views_push(self.rune_txos@, rune_txo);
            lemma_views_push(self.events@, event);
            let rows = views(self.rune_txos@);
            let after = rows.push(rune_txo@);
            assert(amounts_sound(rows));
            assert forall|i: int| 0 <= i < after.len() implies amount_sound(#[trigger] after[i]) by {
                if i < rows.len() {
                    assert(after[i] == rows[i]);
                }
            }
        }
        self.rune_txos.push(rune_txo);
        self.events.push(event);
        Ok(())
    }

    /// The place of the rune with the name `name`.
    pub fn find_rune_by_name(&self, name: &String) -> (r: Option<usize>)
        ensures
            match r {
                Some(i) => i < self@.rune_entries.len() && i == place_of_name(
                    self@.rune_entries,
                    name@,
                ),
                None => place_of_name(self@.rune_entries, name@) == self@.rune_entries.len(),
            },
    {
        let ghost rows = views(self.rune_entries@);
        let mut i: usize = 0;
        while i < self.rune_entries.len()
            invariant
                i <= self.rune_entries@.len(),
                rows == views(self.rune_entries@),
                forall|j: int| 0 <= j < i ==> (#[trigger] rows[j]).raw_name != name@,
            decreases self.rune_entries@.len() - i,
        {
            if self.rune_entries[i].raw_name == *name {
                proof {
                    lemma_place_of_name(rows, name@, i as int);
                }
                return Some(i);
            }
            i = i + 1;
        }
        proof {
            lemma_place_of_name(rows, name@, i as int);
        }
        None
    }

    /// Why the store would refuse to add the rune `rune_entry`, if it would.
    pub fn refuses(&self, rune_entry: &RuneEntry) -> (r: Option<StoreError>)
        ensures
            r == self@.refuses_rune(rune_entry@),
    {
        if self.find_rune_by_name(&rune_entry.raw_name).is_some() {
            return Some(StoreError::DuplicateName);
        }
        if self.find_rune(rune_entry.rune_id).is_some() {
            return Some(StoreError::DuplicateId);
        }
        let count: usize = self.rune_entries.len();
        if count > 0 && rune_entry.block_height < self.rune_entries[count - 1].block_height {
            assert(views(self.rune_entries@).last() == self.rune_entries@[count - 1]@);
            return Some(StoreError::OutOfOrder);
        }
        if count > 0 {
            assert(views(self.rune_entries@).last() == self.rune_entries@[count - 1]@);
        }
        None
    }

    /// Adds a rune under the next number, and the event of its etching. The
    /// number that `rune_entry` holds is not looked at.
    pub fn add_rune_entry(&mut self, rune_entry: RuneEntry) -> (r: Result<(), StoreError>)
        requires
            old(self).wf(),
        ensures
            final(self).wf(),
            match r {
                Ok(()) => old(self)@.refuses_rune(rune_entry@) is None && final(self)@ == old(
                    self,
                )@.with_rune(rune_entry@),
                Err(e) => old(self)@.refuses_rune(rune_entry@) == Some(e) && *final(self) == *old(
                    self,
                ),
            },
    {
        if self.find_rune_by_name(&rune_entry.raw_name).is_some() {
            return Err(StoreError::DuplicateName);
        }
        if self.find_rune(rune_entry.rune_id).is_some() {
            return Err(StoreError::DuplicateId);
        }
        let count: usize = self.rune_entries.len();
        if count > 0 && rune_entry.block_height < self.rune_entries[count - 1].block_height {
            return Err(StoreError::OutOfOrder);
        }
        let event: RuneEvent = RuneEvent {
            tx_id: rune_entry.etching_tx_id.clone(),
            rune_id: rune_entry.rune_id,
            block_height: rune_entry.block_height,
            amount: rune_entry.premine,
            kind: EventKind::Etch,
            output_index: None,
            address: None,
            timestamp: rune_entry.timestamp,
        };
        let mut entry: RuneEntry = rune_entry;
        entry.rune_number = count as u128;
        proof {
            let rows = views(self.rune_entries@);
            lemma_views_push(self.rune_entries@, entry);
            lemma_views_push(self.events@, event);
            lemma_place_of_name_found(rows, entry@.raw_name);
            lemma_place_of_id_found(rows, entry@.rune_id);
            let after = rows.push(entry@);
            assert(runes_sound(rows));
            assert forall|i: int| 0 <= i < after.len() implies (#[trigger] after[i]).rune_number
                == i by {
                if i < rows.len() {
                    assert(after[i] == rows[i]);
                }
            }
            assert forall|i: int, j: int| 0 <= i < j < after.len() implies {
                &&& (#[trigger] after[i]).raw_name != (#[trigger] after[j]).raw_name
                &&& after[i].rune_id != after[j].rune_id
                &&& after[i].block_height <= after[j].block_height
            } by {
                if j < rows.len() {
                    assert(after[i] == rows[i] && after[j] == rows[j]);
                } else {
                    assert(after[i] == rows[i]);
                    if i < rows.len() - 1 {
                        assert(rows[i].block_height <= rows[rows.len() - 1].block_height);
                    }
                }
            }
        }
        self.rune_entries.push(entry);
        self.events.push(event);
        Ok(())
    }

    /// Counts one more mint of the rune `rune_id` and adds the event of the
    /// mint. Where the store has no such rune, nothing changes.
    pub fn update_rune_entry_mint_count(
        &mut self,
        rune_id: RuneId,
        tx_id: &str,
        amount: u128,
        block_height: u64,
        timestamp: u32,
    ) -> (r: Result<(), StoreError>)
        requires
            old(self).wf(),
        ensures
            final(self).wf(),
            match r {
                Ok(()) => Ok::<StoreState, StoreError>(final(self)@) == old(self)@.minted(
                    rune_id,
                    tx_id@,
                    amount,
                    block_height,
                    timestamp,
                ),
                Err(e) => Err::<StoreState, StoreError>(e) == old(self)@.minted(
                    rune_id,
                    tx_id@,
                    amount,
                    block_height,
                    timestamp,
                ) && *final(self) == *old(self),
            },
    {
        let place: usize = match self.find_rune(rune_id) {
            Some(i) => i,
            None => {
                return Ok(());
            },
        };
        let count: u128 = match self.rune_entries[place].mint_count.checked_add(1) {
            Some(c) => c,
            None => {
                return Err(StoreError::Overflow);
            },
        };
        let mut entry: RuneEntry = self.rune_entries[place].duplicate();
        entry.mint_count = count;
        let event: RuneEvent = RuneEvent {
            tx_id: String::from_str(tx_id),
            rune_id: entry.rune_id,
            block_height,
            amount,
            kind: EventKind::Mint,
            output_index: None,
            address: None,
            timestamp,
        };
        proof {
            lemma_views_update(self.rune_entries@, place as int, entry);
            lemma_views_push(self.events@, event);
            lemma_same_keys(views(self.rune_entries@), place as int, entry@);
        }
        self.rune_entries.set(place, entry);
        self.events.push(event);
        Ok(())
    }

    /// Adds `amount` to what was burned of the rune `rune_id`. Where the
    /// store has no such rune, nothing changes.
    pub fn increase_rune_entry_burned(&mut self, rune_id: RuneId, amount: u128) -> (r: Result<
        (),
        StoreError,
    >)
        requires
            old(self).wf(),
        ensures
            final(self).wf(),
            match r {
                Ok(()) => Ok::<StoreState, StoreError>(final(self)@) == old(self)@.burned(
                    rune_id,
                    amount,
                ),
                Err(e) => Err::<StoreState, StoreError>(e) == old(self)@.burned(rune_id, amount)
                    && *final(self) == *old(self),
            },
    {
        let place: usize = match self.find_rune(rune_id) {
            Some(i) => i,
            None => {
                return Ok(());
            },
        };
        let sum: u128 = match self.rune_entries[place].burned.checked_add(amount) {
            Some(s) => s,
            None => {
                return Err(StoreError::Overflow);
            },
        };
        let mut entry: RuneEntry = self.rune_entries[place].duplicate();
        entry.burned = sum;
        proof {
            lemma_views_update(self.rune_entries@, place as int, entry);
            lemma_same_keys(views(self.rune_entries@), place as int, entry@);
        }
        self.rune_entries.set(place, entry);
        Ok(())
    }

    /// Adds the event of a burn.
    pub fn add_rune_burn_event(
        &mut self,
        rune_id: RuneId,
        tx_id: &str,
        amount: u128,
        block_height: u64,
        timestamp: u32,
    )
        requires
            old(self).wf(),
        ensures
            final(self).wf(),
            final(self)@ == old(self)@.with_burn_event(
                rune_id,
                tx_id@,
                amount,
                block_height,
                timestamp,
            ),
    {
        let event: RuneEvent = RuneEvent {
            tx_id: String::from_str(tx_id),
            rune_id,
            block_height,
            amount,
            kind: EventKind::Burn,
            output_index: None,
            address: None,
            timestamp,
        };
        proof {
            lemma_views_push(self.events@, event);
        }
        self.events.push(event);
    }

    /// Marks the output at place `output_index` of the transaction `tx_id`,
    /// and every amount of a rune on it, as spent by the transaction
    /// `spent_tx_id`.
    pub fn mark_utxo_as_spent(&mut self, tx_id: &str, output_index: u32, spent_tx_id: &str)
        requires
            old(self).wf(),
        ensures
            final(self).wf(),
            final(self)@ == old(self)@.with_spent(tx_id@, output_index, spent_tx_id@),
    {
        let key: String = String::from_str(tx_id);
        let ghost before = self@;
        let mut i: usize = 0;
        assert(self@.rune_txos =~= spent_rune_txos(
            before.rune_txos,
            tx_id@,
            output_index,
            spent_tx_id@,
            0,
        ));
        while i < self.rune_txos.len()
            invariant
                i <= self.rune_txos@.len(),
                key@ == tx_id@,
                before.well_formed(),
                self@.rune_txos.len() == before.rune_txos.len(),
                self@.rune_txos == spent_rune_txos(
                    before.rune_txos,
                    tx_id@,
                    output_index,
                    spent_tx_id@,
                    i as int,
                ),
                self@ == (StoreState { rune_txos: self@.rune_txos, ..before }),
            decreases self.rune_txos@.len() - i,
        {
            let ghost rows = self@.rune_txos;
            assert(rows[i as int] == before.rune_txos[i as int]);
            if self.rune_txos[i].tx_id == key && self.rune_txos[i].output_index == output_index {
                let mut row: RuneTXO = self.rune_txos[i].duplicate();
                row.is_unspent = false;
                row.spent_tx_id = Some(String::from_str(spent_tx_id));
                proof {
                    lemma_views_update(self.rune_txos@, i as int, row);
                }
                self.rune_txos.set(i, row);
            }
            assert(self@.rune_txos =~= spent_rune_txos(
                before.rune_txos,
                tx_id@,
                output_index,
                spent_tx_id@,
                i + 1,
            ));
            i = i + 1;
        }
        let ghost middle = self@;
        let mut k: usize = 0;
        assert(self@.txos =~= spent_txos(before.txos, tx_id@, output_index, spent_tx_id@, 0));
        while k < self.txos.len()
            invariant
                k <= self.txos@.len(),
                key@ == tx_id@,
                before.well_formed(),
                self@.txos.len() == before.txos.len(),
                middle == (StoreState { rune_txos: middle.rune_txos, ..before }),
                self@.txos == spent_txos(
                    before.txos,
                    tx_id@,
                    output_index,
                    spent_tx_id@,
                    k as int,
                ),
                self@ == (StoreState { txos: self@.txos, ..middle }),
            decreases self.txos@.len() - k,
        {
            let ghost rows = self@.txos;
            assert(rows[k as int] == before.txos[k as int]);
            if self.txos[k].tx_id == key && self.txos[k].output_index == output_index {
                let mut row: TXO = self.txos[k].duplicate();
                row.is_unspent = false;
                row.spent_tx_id = Some(String::from_str(spent_tx_id));
                proof {
                    lemma_views_update(self.txos@, k as int, row);
                }
                self.txos.set(k, row);
            }
            assert(self@.txos =~= spent_txos(
                before.txos,
                tx_id@,
                output_index,
                spent_tx_id@,
                k + 1,
            ));
            k = k + 1;
        }
        proof {
            let after = self@;
            assert forall|j: int| 0 <= j < after.rune_txos.len() implies amount_sound(
                #[trigger] after.rune_txos[j],
            ) by {
                assert(amount_sound(before.rune_txos[j]));
            }
            assert forall|j: int| 0 <= j < after.txos.len() implies ((
            #[trigger] after.txos[j]).is_unspent <==> after.txos[j].spent_tx_id is None) by {
                assert(before.txos[j].is_unspent <==> before.txos[j].spent_tx_id is None);
            }
        }
    }

    /// Adds a block, which declares it indexed, and records its height as the
    /// height reached. A block that does not come after the last block is
    /// refused.
    pub fn insert_block(&mut self, block: Block) -> (r: Result<(), StoreError>)
        requires
            old(self).wf(),
        ensures
            final(self).wf(),
            r is Ok <==> old(self)@.takes_block(block@),
            match r {
                Ok(()) => final(self)@ == old(self)@.with_block(block@),
                Err(e) => e == StoreError::OutOfOrder && *final(self) == *old(self),
            },
    {
        let count: usize = self.blocks.len();
        if count > 0 && self.blocks[count - 1].height >= block.height {
            assert(views(self.blocks@).last() == self.blocks@[count - 1]@);
            return Err(StoreError::OutOfOrder);
        }
        proof {
            let rows = views(self.blocks@);
            lemma_views_push(self.blocks@, block);
            let after = rows.push(block@);
            assert(blocks_sound(rows));
            assert forall|i: int, j: int| 0 <= i < j < after.len() implies (
            #[trigger] after[i]).height < (#[trigger] after[j]).height by {
                if j < rows.len() {
                    assert(after[i] == rows[i] && after[j] == rows[j]);
                } else {
                    assert(after[i] == rows[i]);
                    assert(rows.last() == self.blocks@[count - 1]@);
                    if i < rows.len() - 1 {
                        assert(rows[i].height < rows[rows.len() - 1].height);
                    }
                }
            }
        }
        self.statistics.block_height = block.height;
        self.blocks.push(block);
        Ok(())
    }
}

/// A list of runes in which one rune was replaced by one of the same name,
/// identifier, block and number holds what held of it before.
pub proof fn lemma_same_keys(rows: Seq<RuneEntryView>, place: int, entry: RuneEntryView)
    requires
        0 <= place < rows.len(),
        entry.raw_name == rows[place].raw_name,
        entry.rune_id == rows[place].rune_id,
        entry.block_height == rows[place].block_height,
        entry.rune_number == rows[place].rune_number,
    ensures
        forall|i: int|
            0 <= i < rows.len() ==> (#[trigger] rows.update(place, entry)[i]).rune_number
                == rows[i].rune_number,
        forall|i: int|
            0 <= i < rows.len() ==> (#[trigger] rows.update(place, entry)[i]).raw_name
                == rows[i].raw_name && rows.update(place, entry)[i].rune_id == rows[i].rune_id
                && rows.update(place, entry)[i].block_height == rows[i].block_height,
{
}

} // verus!
