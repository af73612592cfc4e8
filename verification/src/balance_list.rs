//! What an address holds of every rune.

use vstd::prelude::*;
use crate::balances::Balances;
use crate::balances::amount_of;
use crate::balances::sorted;
use crate::conservation::rows_amount;
use crate::db::RuneTXO;
use crate::db::RuneTxoView;
use crate::db::views;
use crate::mock_db::MockDb;
use crate::mock_db::Select;
use crate::mock_db::SelectView;
use crate::mock_db::StoreError;
use crate::mock_db::selected;
use crate::mock_db::total;
use crate::plan::credit;
use crate::plan::credit_checked;
use crate::plan::gathered;
use crate::rune_id::RuneId;
use crate::script::lowercase_of;
use crate::script::to_lowercase;

verus! {

/// The sum of the amounts of `id` among rows is that of the first row and that
/// of the rest.
proof fn lemma_rows_amount_front(rows: Seq<RuneTxoView>, id: RuneId)
    requires
        rows.len() > 0,
    ensures
        rows_amount(rows, id) == rows_amount(rows.skip(1), id) + if rows[0].rune_id == id {
            rows[0].amount as nat
        } else {
            0
        },
    decreases rows.len(),
{
    if rows.len() == 1 {
        assert(rows.drop_last() =~= Seq::<RuneTxoView>::empty());
        assert(rows.skip(1) =~= Seq::<RuneTxoView>::empty());
        assert(rows.last() == rows[0]);
    } else {
        let front = rows.drop_last();
        lemma_rows_amount_front(front, id);
        assert(front[0] == rows[0]);
        assert(rows.skip(1).drop_last() =~= front.skip(1));
        assert(rows.skip(1).last() == rows.last());
    }
}

/// The amounts gathered from rows are, of every rune, what was there and the
/// sum of the amounts of the rows of that rune.
pub proof fn lemma_gathered_amount(list: Seq<(RuneId, u128)>, rows: Seq<RuneTxoView>, id: RuneId)
    requires
        sorted(list),
        gathered(list, rows) is Some,
    ensures
        sorted(gathered(list, rows)->Some_0),
        amount_of(gathered(list, rows)->Some_0, id) == amount_of(list, id) + rows_amount(rows, id),
    decreases rows.len(),
{
    if rows.len() > 0 {
        let next = credit_checked(list, rows[0].rune_id, rows[0].amount)->Some_0;
        crate::balances::lemma_credited(list, rows[0].rune_id, rows[0].amount as nat, id);
        lemma_gathered_amount(next, rows.skip(1), id);
        lemma_rows_amount_front(rows, id);
    }
}

/// Among the unspent rows at an address, the amounts of a rune sum to what
/// the address holds of the rune.
pub proof fn lemma_unspent_of_rune(rows: Seq<RuneTxoView>, address: Seq<char>, id: RuneId)
    ensures
        rows_amount(selected(rows, SelectView::UnspentAt(address)), id) == total(
            selected(rows, SelectView::Unspent(address, id)),
        ),
    decreases rows.len(),
{
    if rows.len() > 0 {
        lemma_unspent_of_rune(rows.drop_last(), address, id);
        let all = selected(rows, SelectView::UnspentAt(address));
        let of_rune = selected(rows, SelectView::Unspent(address, id));
        let last = rows.last();
        if last.address_lowercase == Some(address) && last.is_unspent {
            assert(all.drop_last() =~= selected(rows.drop_last(), SelectView::UnspentAt(address)));
            if last.rune_id == id {
                assert(of_rune.drop_last() =~= selected(
                    rows.drop_last(),
                    SelectView::Unspent(address, id),
                ));
            }
        }
    }
}

impl MockDb {
    /// What `address`, whatever its case, holds of every rune of which it has
    /// an unspent amount, in the order of the runes.
    pub fn get_address_balance_list(&self, address: &str) -> (r: Result<Balances, StoreError>)
        ensures
            match r {
                Ok(list) => Some(list@) == gathered(
                    Seq::empty(),
                    selected(self@.rune_txos, SelectView::UnspentAt(lowercase_of(address@))),
                ) && sorted(list@) && forall|id: RuneId|
                    #[trigger] amount_of(list@, id) == self@.balance(lowercase_of(address@), id),
                Err(e) => e == StoreError::Overflow && gathered(
                    Seq::empty(),
                    selected(self@.rune_txos, SelectView::UnspentAt(lowercase_of(address@))),
                ) is None,
            },
    {
        let rows: Vec<RuneTXO> = self.select(&Select::UnspentAt(to_lowercase(address)));
        let ghost found = views(rows@);
        let mut list: Balances = Balances::new();
        let mut i: usize = 0;
        assert(found.skip(0) =~= found);
        while i < rows.len()
            invariant
                i <= rows@.len(),
                found == views(rows@),
                found == selected(
                    self@.rune_txos,
                    SelectView::UnspentAt(lowercase_of(address@)),
                ),
                sorted(list@),
                gathered(Seq::empty(), found) == gathered(list@, found.skip(i as int)),
            decreases rows@.len() - i,
        {
            let ghost tail = found.skip(i as int);
            assert(tail[0] == rows@[i as int]@);
            assert(tail.skip(1) =~= found.skip(i + 1));
            if !credit(&mut list, rows[i].rune_id, rows[i].amount) {
                return Err(StoreError::Overflow);
            }
            i = i + 1;
        }
        assert(found.skip(i as int).len() == 0);
        proof {
            assert forall|id: RuneId|
                #[trigger] amount_of(list@, id) == self@.balance(lowercase_of(address@), id) by {
                lemma_gathered_amount(Seq::empty(), found, id);
                lemma_unspent_of_rune(self@.rune_txos, lowercase_of(address@), id);
            }
        }
        Ok(list)
    }
}

} // verus!
