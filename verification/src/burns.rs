//! The end of a block: what was burned in it is added to what was burned of
//! each rune, and recorded as an event.

use vstd::prelude::*;
use crate::balances::Balances;
use crate::balances::sorted;
use crate::db::RuneEntryView;
use crate::mock_db::StoreError;
use crate::mock_db::StoreState;
use crate::mock_db::lemma_place_of_id_found;
use crate::mock_db::lemma_place_of_id_update;
use crate::mock_db::place_of_id;
use crate::rune_id::RuneId;
use crate::rune_updaters::RuneUpdater;
use crate::rune_updaters::UpdaterView;

verus! {

/// The store after `amount` of the rune `id` was burned in the block at
/// `height`: more is burned of the rune, where the store knows it, and the
/// event is added. An amount of zero changes nothing.
pub open spec fn burn_recorded(store: StoreState, id: RuneId, amount: u128, height: u64, time: u32)
    -> StoreState {
    if amount == 0 {
        store
    } else {
        match store.burned(id, amount) {
            Ok(next) => next.with_burn_event(id, Seq::empty(), amount, height, time),
            Err(_) => store,
        }
    }
}

/// The store after the first `upto` amounts of `list` were burned.
pub open spec fn burns_recorded(
    store: StoreState,
    list: Seq<(RuneId, u128)>,
    height: u64,
    time: u32,
    upto: int,
) -> StoreState
    decreases upto,
{
    if upto <= 0 {
        store
    } else {
        burn_recorded(
            burns_recorded(store, list, height, time, upto - 1),
            list[upto - 1].0,
            list[upto - 1].1,
            height,
            time,
        )
    }
}

/// Whether burning the amount at place `k` of `list` takes what was burned
/// of its rune beyond 128 bits.
pub open spec fn overflows_at(store: StoreState, list: Seq<(RuneId, u128)>, k: int) -> bool {
    list[k].1 > 0 && store.burned(list[k].0, list[k].1) is Err
}

/// Whether burning an amount of `list` takes what was burned of its rune
/// beyond 128 bits.
pub open spec fn burn_overflows(store: StoreState, list: Seq<(RuneId, u128)>) -> bool {
    exists|k: int| 0 <= k < list.len() && overflows_at(store, list, k)
}

/// Burning amounts of other runes leaves a rune at its place and what was
/// burned of it as it was.
pub proof fn lemma_burns_keep(
    store: StoreState,
    list: Seq<(RuneId, u128)>,
    height: u64,
    time: u32,
    upto: int,
    id: RuneId,
)
    requires
        0 <= upto <= list.len(),
        forall|j: int| 0 <= j < upto ==> (#[trigger] list[j]).0 != id,
    ensures
        burns_recorded(store, list, height, time, upto).rune_entries.len()
            == store.rune_entries.len(),
        forall|other: RuneId|
            place_of_id(
                burns_recorded(store, list, height, time, upto).rune_entries,
                other,
            ) == place_of_id(store.rune_entries, other),
        place_of_id(store.rune_entries, id) < store.rune_entries.len() ==> burns_recorded(
            store,
            list,
            height,
            time,
            upto,
        ).rune_entries[place_of_id(store.rune_entries, id)].burned
            == store.rune_entries[place_of_id(store.rune_entries, id)].burned,
    decreases upto,
{
    if upto > 0 {
        lemma_burns_keep(store, list, height, time, upto - 1, id);
        let before = burns_recorded(store, list, height, time, upto - 1);
        let after = burns_recorded(store, list, height, time, upto);
        let gone = list[upto - 1].0;
        let amount = list[upto - 1].1;
        let place = place_of_id(before.rune_entries, gone);
        lemma_place_of_id_found(before.rune_entries, gone);
        lemma_place_of_id_found(store.rune_entries, id);
        assert(list[upto - 1].0 != id);
        if amount != 0 && before.burned(gone, amount) is Ok && place < before.rune_entries.len() {
            let entry = before.rune_entries[place];
            let changed = RuneEntryView { burned: (entry.burned + amount) as u128, ..entry };
            assert(after.rune_entries == before.rune_entries.update(place, changed));
            assert forall|other: RuneId|
                place_of_id(after.rune_entries, other) == place_of_id(
                    store.rune_entries,
                    other,
                ) by {
                lemma_place_of_id_update(before.rune_entries, place, changed, other);
            }
            let mine = place_of_id(store.rune_entries, id);
            if mine < store.rune_entries.len() {
                lemma_place_of_id_found(before.rune_entries, id);
                assert(before.rune_entries[mine].rune_id == id);
                assert(mine != place);
            }
        }
    }
}

/// Recording what was burned adds no block.
pub proof fn lemma_burns_keep_blocks(
    store: StoreState,
    list: Seq<(RuneId, u128)>,
    height: u64,
    time: u32,
    upto: int,
)
    ensures
        burns_recorded(store, list, height, time, upto).blocks == store.blocks,
        burns_recorded(store, list, height, time, upto).block_height == store.block_height,
    decreases upto,
{
    if upto > 0 {
        lemma_burns_keep_blocks(store, list, height, time, upto - 1);
    }
}

impl RuneUpdater {
    /// Ends the block: adds what was burned in it to what was burned of each
    /// rune, records the events, and forgets what was burned. Where a sum
    /// leaves 128 bits, nothing changes.
    pub fn update(&mut self) -> (r: Result<(), StoreError>)
        requires
            old(self).wf(),
        ensures
            final(self).wf(),
            r is Err <==> burn_overflows(old(self)@.database, old(self)@.burned),
            match r {
                Ok(()) => final(self)@ == (UpdaterView {
                    database: burns_recorded(
                        old(self)@.database,
                        old(self)@.burned,
                        old(self).block_height as u64,
                        old(self).block_time,
                        old(self)@.burned.len() as int,
                    ),
                    burned: Seq::empty(),
                    ..old(self)@
                }),
                Err(e) => e == StoreError::Overflow && final(self)@ == old(self)@,
            },
    {
        let ghost start = self@;
        let ghost list = self.burned@;
        let count: usize = self.burned.entries.len();
        let mut k: usize = 0;
        while k < count
            invariant
                k <= count == list.len(),
                self@ == start,
                self.wf(),
                list == self.burned@,
                forall|j: int| 0 <= j < k ==> !overflows_at(start.database, list, j),
            decreases count - k,
        {
            let entry: (RuneId, u128) = self.burned.entries[k];
            if entry.1 != 0 {
                match self.database.find_rune(entry.0) {
                    Some(place) => {
                        assert(self.database@.rune_entries[place as int]
                            == self.database.rune_entries@[place as int]@);
                        if self.database.rune_entries[place].burned.checked_add(entry.1).is_none() {
                            assert(overflows_at(start.database, list, k as int));
                            return Err(StoreError::Overflow);
                        }
                    },
                    None => {},
                }
            }
            k = k + 1;
        }
        assert(!burn_overflows(start.database, list));
        let mut k: usize = 0;
        while k < count
            invariant
                k <= count == list.len(),
                sorted(list),
                list == self.burned@,
                self.wf(),
                forall|j: int| 0 <= j < list.len() ==> !overflows_at(start.database, list, j),
                self@ == (UpdaterView {
                    database: burns_recorded(
                        start.database,
                        list,
                        start.block_height as u64,
                        start.block_time,
                        k as int,
                    ),
                    ..start
                }),
            decreases count - k,
        {
            let entry: (RuneId, u128) = self.burned.entries[k];
            if entry.1 != 0 {
                proof {
                    assert forall|j: int| 0 <= j < k implies (#[trigger] list[j]).0 != entry.0 by {
                        assert(list[j].0.before(list[k as int].0));
                    }
                    lemma_burns_keep(
                        start.database,
                        list,
                        start.block_height as u64,
                        start.block_time,
                        k as int,
                        entry.0,
                    );
                    assert(!overflows_at(start.database, list, k as int));
                }
                match self.database.increase_rune_entry_burned(entry.0, entry.1) {
                    Ok(()) => {},
                    Err(_) => {},
                }
                self.database.add_rune_burn_event(
                    entry.0,
                    "",
                    entry.1,
                    self.block_height as u64,
                    self.block_time,
                );
                proof {
                    reveal_strlit("");
                    assert(""@ =~= Seq::<char>::empty());
                }
            }
            k = k + 1;
        }
        self.burned = Balances::new();
        Ok(())
    }
}

} // verus!
