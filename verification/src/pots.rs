//! Where the runes of a transaction are while it is worked through: what is
//! not yet allocated, what is burned, and what each output holds. Runes only
//! ever move from one of these pots to another, so the sum over all pots of
//! the amount of a rune never changes.

use vstd::prelude::*;
use crate::balances::Balances;
use crate::balances::amount_of;
use crate::balances::credited;
use crate::balances::debited;
use crate::balances::lemma_credited;
use crate::balances::lemma_debited;
use crate::balances::sorted;
use crate::rune_id::RuneId;

verus! {

/// The place of the pot of what is not yet allocated.
pub const UNALLOCATED: usize = 0;

/// The place of the pot of what is burned.
pub const BURNED: usize = 1;

/// The place of the pot of the first output; the pot of output `o` stands at
/// `FIRST_OUTPUT + o`.
pub const FIRST_OUTPUT: usize = 2;

/// The pots of a transaction.
#[derive(Clone, Debug, PartialEq, Eq)]
pub struct Pots {
    pub pots: Vec<Balances>,
}

impl View for Pots {
    type V = Seq<Seq<(RuneId, u128)>>;

    open spec fn view(&self) -> Seq<Seq<(RuneId, u128)>> {
        Seq::new(self.pots@.len(), |i: int| self.pots@[i]@)
    }
}

/// The sum over all pots of the amount of `id`.
pub open spec fn sum_at(pots: Seq<Seq<(RuneId, u128)>>, id: RuneId) -> nat
    decreases pots.len(),
{
    if pots.len() == 0 {
        0
    } else {
        sum_at(pots.drop_last(), id) + amount_of(pots.last(), id)
    }
}

/// Whether every pot is sorted.
pub open spec fn all_sorted(pots: Seq<Seq<(RuneId, u128)>>) -> bool {
    forall|k: int| 0 <= k < pots.len() ==> sorted(#[trigger] pots[k])
}

/// How much of `id` moves from the pot `from` when `amount` is asked for:
/// that much, or all the pot has where it has less.
pub open spec fn given(pots: Seq<Seq<(RuneId, u128)>>, id: RuneId, amount: nat, from: int) -> nat {
    if amount <= amount_of(pots[from], id) {
        amount
    } else {
        amount_of(pots[from], id)
    }
}

/// The pots after `amount` of `id`, or what there is of it, moved from the
/// pot `from` to the pot `to`.
pub open spec fn moved(
    pots: Seq<Seq<(RuneId, u128)>>,
    id: RuneId,
    amount: nat,
    from: int,
    to: int,
) -> Seq<Seq<(RuneId, u128)>> {
    let give = given(pots, id, amount, from);
    if give == 0 || from == to {
        pots
    } else {
        pots.update(from, debited(pots[from], id, give)).update(
            to,
            credited(pots[to], id, give),
        )
    }
}

/// The pots after all of each rune of `ids` moved from the pot `from` to the
/// pot `to`.
pub open spec fn drained(pots: Seq<Seq<(RuneId, u128)>>, ids: Seq<RuneId>, from: int, to: int)
    -> Seq<Seq<(RuneId, u128)>>
    decreases ids.len(),
{
    if ids.len() == 0 {
        pots
    } else {
        drained(moved(pots, ids[0], u128::MAX as nat, from, to), ids.skip(1), from, to)
    }
}

/// The runes of `list`, in order.
pub open spec fn ids_of(list: Seq<(RuneId, u128)>) -> Seq<RuneId> {
    Seq::new(list.len(), |i: int| list[i].0)
}

/// The sum over pots of which one was replaced.
pub proof fn lemma_sum_update(
    pots: Seq<Seq<(RuneId, u128)>>,
    k: int,
    pot: Seq<(RuneId, u128)>,
    id: RuneId,
)
    requires
        0 <= k < pots.len(),
    ensures
        sum_at(pots.update(k, pot), id) == sum_at(pots, id) - amount_of(pots[k], id) + amount_of(
            pot,
            id,
        ),
        sum_at(pots, id) >= amount_of(pots[k], id),
    decreases pots.len(),
{
    let after = pots.update(k, pot);
    if k == pots.len() - 1 {
        assert(after.drop_last() =~= pots.drop_last());
    } else {
        lemma_sum_update(pots.drop_last(), k, pot, id);
        assert(after.drop_last() =~= pots.drop_last().update(k, pot));
    }
}

/// A move leaves every pot sorted and the sum of every rune as it was.
pub proof fn lemma_moved(
    pots: Seq<Seq<(RuneId, u128)>>,
    id: RuneId,
    amount: nat,
    from: int,
    to: int,
    other: RuneId,
)
    requires
        all_sorted(pots),
        0 <= from < pots.len(),
        0 <= to < pots.len(),
        sum_at(pots, id) <= u128::MAX,
    ensures
        all_sorted(moved(pots, id, amount, from, to)),
        moved(pots, id, amount, from, to).len() == pots.len(),
        sum_at(moved(pots, id, amount, from, to), other) == sum_at(pots, other),
        from != to ==> amount_of(pots[to], id) + given(pots, id, amount, from) <= u128::MAX,
{
    let give = given(pots, id, amount, from);
    if from != to {
        let lower = debited(pots[from], id, give);
        let middle = pots.update(from, lower);
        lemma_sum_update(pots, from, lower, id);
        lemma_sum_update(middle, to, pots[to], id);
        lemma_debited(pots[from], id, give, id);
        assert(middle[to] == pots[to]);
        assert(sum_at(pots, id) >= amount_of(pots[from], id) + amount_of(pots[to], id)) by {
            lemma_sum_update(pots, from, Seq::empty(), id);
            lemma_sum_update(pots.update(from, Seq::empty()), to, pots[to], id);
            assert(pots.update(from, Seq::empty())[to] == pots[to]);
            assert(amount_of(Seq::<(RuneId, u128)>::empty(), id) == 0);
        }
        if give != 0 {
            let upper = credited(pots[to], id, give);
            let after = middle.update(to, upper);
            lemma_debited(pots[from], id, give, other);
            lemma_credited(pots[to], id, give, other);
            lemma_sum_update(pots, from, lower, other);
            lemma_sum_update(middle, to, upper, other);
            assert forall|k: int| 0 <= k < after.len() implies sorted(#[trigger] after[k]) by {
                if k != to && k != from {
                    assert(after[k] == pots[k]);
                }
            }
        }
    }
}

impl Pots {
    /// Whether the pots are sorted and no rune sums to more than 128 bits
    /// hold.
    pub open spec fn wf(&self) -> bool {
        &&& all_sorted(self@)
        &&& forall|id: RuneId| sum_at(self@, id) <= u128::MAX
    }

    /// The pots of a transaction with `outputs` outputs, all empty but that of
    /// what is not yet allocated, which holds `unallocated`.
    pub fn new(unallocated: Balances, outputs: usize) -> (r: Pots)
        requires
            sorted(unallocated@),
            outputs <= usize::MAX - 2,
        ensures
            r.wf(),
            r@.len() == outputs + 2,
            r@[0] == unallocated@,
            forall|k: int| 1 <= k < r@.len() ==> (#[trigger] r@[k]).len() == 0,
            forall|id: RuneId| sum_at(r@, id) == amount_of(unallocated@, id),
    {
        let ghost first = unallocated@;
        let mut pots: Vec<Balances> = Vec::new();
        pots.push(unallocated);
        let mut r: Pots = Pots { pots };
        let mut k: usize = 0;
        assert(r@.drop_last() =~= Seq::<Seq<(RuneId, u128)>>::empty());
        assert(r@.last() == first);
        assert forall|id: RuneId| sum_at(r@, id) == amount_of(first, id) by {
            assert(sum_at(r@.drop_last(), id) == 0);
        }
        while k < outputs + 1
            invariant
                k <= outputs + 1,
                outputs <= usize::MAX - 2,
                r@.len() == k + 1,
                r@[0] == first,
                sorted(first),
                forall|j: int| 1 <= j < r@.len() ==> (#[trigger] r@[j]).len() == 0,
                forall|id: RuneId| sum_at(r@, id) == amount_of(first, id),
            decreases outputs + 1 - k,
        {
            let ghost before = r@;
            r.pots.push(Balances::new());
            proof {
                assert(r@.drop_last() =~= before);
                assert(r@.last().len() == 0);
                assert forall|id: RuneId| sum_at(r@, id) == amount_of(first, id) by {
                    assert(amount_of(r@.last(), id) == 0);
                }
                assert forall|j: int| 1 <= j < r@.len() implies (#[trigger] r@[j]).len() == 0 by {
                    if j < before.len() {
                        assert(r@[j] == before[j]);
                    }
                }
            }
            k = k + 1;
        }
        proof {
            assert forall|j: int| 0 <= j < r@.len() implies sorted(#[trigger] r@[j]) by {
                if j > 0 {
                    assert(r@[j].len() == 0);
                }
            }
            assert forall|id: RuneId| sum_at(r@, id) <= u128::MAX by {
                assert(sum_at(r@, id) == amount_of(first, id));
                assert(amount_of(first, id) <= u128::MAX);
            }
        }
        r
    }

    /// The number of pots.
    pub fn len(&self) -> (r: usize)
        ensures
            r == self@.len(),
    {
        self.pots.len()
    }

    /// The amount of `id` in the pot `pot`.
    pub fn get(&self, pot: usize, id: RuneId) -> (r: u128)
        requires
            self.wf(),
            pot < self@.len(),
        ensures
            r == amount_of(self@[pot as int], id),
    {
        assert(sorted(self@[pot as int]));
        self.pots[pot].get(id)
    }

    /// Moves `amount` of `id`, or what there is of it, from the pot `from` to
    /// the pot `to`.
    pub fn move_amount(&mut self, id: RuneId, amount: u128, from: usize, to: usize)
        requires
            old(self).wf(),
            from < old(self)@.len(),
            to < old(self)@.len(),
        ensures
            final(self).wf(),
            final(self)@ == moved(old(self)@, id, amount as nat, from as int, to as int),
            final(self)@.len() == old(self)@.len(),
            forall|other: RuneId| sum_at(final(self)@, other) == sum_at(old(self)@, other),
    {
        let ghost before = self@;
        proof {
            lemma_moved(before, id, amount as nat, from as int, to as int, id);
            assert forall|other: RuneId|
                sum_at(
                    moved(before, id, amount as nat, from as int, to as int),
                    other,
                ) == sum_at(before, other) by {
                lemma_moved(before, id, amount as nat, from as int, to as int, other);
            }
            assert(sorted(before[from as int]));
            assert(sorted(before[to as int]));
        }
        let balance: u128 = self.pots[from].get(id);
        let give: u128 = if amount <= balance {
            amount
        } else {
            balance
        };
        if give == 0 || from == to {
            assert(self@ =~= before);
            return ;
        }
        let mut source: Balances = Balances { entries: Vec::new() };
        core::mem::swap(&mut source, &mut self.pots[from]);
        source.sub(id, give);
        core::mem::swap(&mut source, &mut self.pots[from]);
        let mut target: Balances = Balances { entries: Vec::new() };
        core::mem::swap(&mut target, &mut self.pots[to]);
        let fits: bool = target.add(id, give);
        core::mem::swap(&mut target, &mut self.pots[to]);
        assert(self@ =~= moved(before, id, amount as nat, from as int, to as int));
        assert forall|other: RuneId| sum_at(self@, other) <= u128::MAX by {
            lemma_moved(before, id, amount as nat, from as int, to as int, other);
            assert(sum_at(before, other) <= u128::MAX);
        }
    }
}

} // verus!
