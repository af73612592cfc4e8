//! Amounts of runes, one amount to a rune, in the order of the runes.

use vstd::prelude::*;
use crate::rune_id::RuneId;

verus! {

/// Amounts of runes. A rune stands in the list once at most, and the runes
/// stand in their order (`sorted`).
#[derive(Clone, Debug, PartialEq, Eq)]
pub struct Balances {
    pub entries: Vec<(RuneId, u128)>,
}

impl View for Balances {
    type V = Seq<(RuneId, u128)>;

    open spec fn view(&self) -> Seq<(RuneId, u128)> {
        self.entries@
    }
}

/// Whether the runes of `list` stand in their order, each once.
pub open spec fn sorted(list: Seq<(RuneId, u128)>) -> bool {
    forall|i: int, j: int|
        0 <= i < j < list.len() ==> (#[trigger] list[i]).0.before((#[trigger] list[j]).0)
}

/// The number of entries of `list` whose rune comes before `id`: the place of
/// `id` in the list, or where it would stand.
pub open spec fn position(list: Seq<(RuneId, u128)>, id: RuneId) -> int
    decreases list.len(),
{
    if list.len() == 0 {
        0
    } else if list.last().0.before(id) {
        list.len() as int
    } else {
        position(list.drop_last(), id)
    }
}

/// Whether `list` has an entry for `id`.
pub open spec fn holds(list: Seq<(RuneId, u128)>, id: RuneId) -> bool {
    position(list, id) < list.len() && list[position(list, id)].0 == id
}

/// The amount of `id` in `list`; zero where the list has no entry for it.
pub open spec fn amount_of(list: Seq<(RuneId, u128)>, id: RuneId) -> nat {
    if holds(list, id) {
        list[position(list, id)].1 as nat
    } else {
        0
    }
}

/// `list` with `amount` more of `id`.
pub open spec fn credited(list: Seq<(RuneId, u128)>, id: RuneId, amount: nat) -> Seq<
    (RuneId, u128),
> {
    let p = position(list, id);
    if holds(list, id) {
        list.update(p, (id, (list[p].1 + amount) as u128))
    } else {
        list.insert(p, (id, amount as u128))
    }
}

/// `list` with `amount` less of `id`, of which it holds as much at least.
pub open spec fn debited(list: Seq<(RuneId, u128)>, id: RuneId, amount: nat) -> Seq<
    (RuneId, u128),
> {
    let p = position(list, id);
    if holds(list, id) {
        list.update(p, (id, (list[p].1 - amount) as u128))
    } else {
        list
    }
}

/// The place that `position` gives parts the list: before it the runes come
/// before `id`, from it on they do not.
pub proof fn lemma_position(list: Seq<(RuneId, u128)>, id: RuneId)
    requires
        sorted(list),
    ensures
        0 <= position(list, id) <= list.len(),
        forall|k: int| 0 <= k < position(list, id) ==> (#[trigger] list[k]).0.before(id),
        forall|k: int| position(list, id) <= k < list.len() ==> !(#[trigger] list[k]).0.before(id),
    decreases list.len(),
{
    if list.len() > 0 {
        let front = list.drop_last();
        assert(sorted(front)) by {
            assert forall|i: int, j: int| 0 <= i < j < front.len() implies (
            #[trigger] front[i]).0.before((#[trigger] front[j]).0) by {
                assert(front[i] == list[i] && front[j] == list[j]);
            }
        }
        lemma_position(front, id);
        if list.last().0.before(id) {
            assert forall|k: int| 0 <= k < list.len() implies (#[trigger] list[k]).0.before(
                id,
            ) by {
                if k < list.len() - 1 {
                    assert(list[k].0.before(list[list.len() - 1].0));
                }
            }
        } else {
            assert forall|k: int| 0 <= k < position(list, id) implies (
            #[trigger] list[k]).0.before(id) by {
                assert(front[k] == list[k]);
            }
            assert forall|k: int| position(list, id) <= k < list.len() implies !(
            #[trigger] list[k]).0.before(id) by {
                if k < list.len() - 1 {
                    assert(front[k] == list[k]);
                }
            }
        }
    }
}

/// A place that parts the list as `position` does is the position.
pub proof fn lemma_position_is(list: Seq<(RuneId, u128)>, id: RuneId, p: int)
    requires
        sorted(list),
        0 <= p <= list.len(),
        forall|k: int| 0 <= k < p ==> (#[trigger] list[k]).0.before(id),
        p < list.len() ==> !list[p].0.before(id),
    ensures
        position(list, id) == p,
{
    lemma_position(list, id);
    let q = position(list, id);
    if q < p {
        assert(list[q].0.before(id));
    } else if q > p {
        assert(list[p].0.before(id));
    }
}

/// The amount of a rune is that of its entry, and zero where it has none.
pub proof fn lemma_amount_of(list: Seq<(RuneId, u128)>, id: RuneId)
    requires
        sorted(list),
    ensures
        forall|q: int| 0 <= q < list.len() && (#[trigger] list[q]).0 == id ==> amount_of(list, id)
            == list[q].1,
        (forall|q: int| 0 <= q < list.len() ==> (#[trigger] list[q]).0 != id) ==> amount_of(
            list,
            id,
        ) == 0,
{
    lemma_position(list, id);
    let p = position(list, id);
    assert forall|q: int| 0 <= q < list.len() && (#[trigger] list[q]).0 == id implies amount_of(
        list,
        id,
    ) == list[q].1 by {
        if q < p {
            assert(list[q].0.before(id));
        } else if q > p {
            assert(list[p].0.before(list[q].0));
            assert(!list[p].0.before(id));
        }
    }
}

/// What crediting does: the list stays sorted, the rune has that much more,
/// every other rune what it had.
pub proof fn lemma_credited(list: Seq<(RuneId, u128)>, id: RuneId, amount: nat, other: RuneId)
    requires
        sorted(list),
        amount_of(list, id) + amount <= u128::MAX,
    ensures
        sorted(credited(list, id, amount)),
        amount_of(credited(list, id, amount), other) == amount_of(list, other) + if other == id {
            amount
        } else {
            0
        },
{
    lemma_position(list, id);
    let p = position(list, id);
    let after = credited(list, id, amount);
    if holds(list, id) {
        assert forall|i: int, j: int| 0 <= i < j < after.len() implies (
        #[trigger] after[i]).0.before((#[trigger] after[j]).0) by {
            assert(after[i].0 == list[i].0 && after[j].0 == list[j].0);
            assert(list[i].0.before(list[j].0));
        }
        lemma_amount_of(list, other);
        lemma_amount_of(after, other);
        if exists|q: int| 0 <= q < list.len() && (#[trigger] list[q]).0 == other {
            let q = choose|q: int| 0 <= q < list.len() && (#[trigger] list[q]).0 == other;
            assert(after[q].0 == other);
            if q != p {
                assert(list[q].0.before(list[p].0) || list[p].0.before(list[q].0));
            }
        } else {
            assert forall|q: int| 0 <= q < after.len() implies (#[trigger] after[q]).0
                != other by {
                assert(after[q].0 == list[q].0);
            }
        }
    } else {
        assert forall|i: int, j: int| 0 <= i < j < after.len() implies (
        #[trigger] after[i]).0.before((#[trigger] after[j]).0) by {
            if j < p {
                assert(after[i] == list[i] && after[j] == list[j]);
            } else if j == p {
                assert(after[i] == list[i]);
            } else if i < p {
                assert(after[i] == list[i] && after[j] == list[j - 1]);
            } else if i == p {
                assert(after[j] == list[j - 1]);
                assert(!list[j - 1].0.before(id));
                if list[j - 1].0 == id {
                    assert(!list[p].0.before(id));
                    if j - 1 > p {
                        assert(list[p].0.before(list[j - 1].0));
                    }
                }
            } else {
                assert(after[i] == list[i - 1] && after[j] == list[j - 1]);
            }
        }
        lemma_amount_of(list, other);
        lemma_amount_of(after, other);
        assert(after[p] == (id, amount as u128));
        if exists|q: int| 0 <= q < list.len() && (#[trigger] list[q]).0 == other {
            let q = choose|q: int| 0 <= q < list.len() && (#[trigger] list[q]).0 == other;
            if q < p {
                assert(after[q] == list[q]);
            } else {
                assert(after[q + 1] == list[q]);
                assert(!list[q].0.before(id));
                if other == id {
                    assert(!list[p].0.before(id));
                    if q > p {
                        assert(list[p].0.before(list[q].0));
                    }
                }
            }
        } else if other != id {
            assert forall|q: int| 0 <= q < after.len() implies (#[trigger] after[q]).0
                != other by {
                if q < p {
                    assert(after[q] == list[q]);
                } else if q > p {
                    assert(after[q] == list[q - 1]);
                }
            }
        }
    }
}

/// What debiting does: the list stays sorted, the rune has that much less,
/// every other rune what it had.
pub proof fn lemma_debited(list: Seq<(RuneId, u128)>, id: RuneId, amount: nat, other: RuneId)
    requires
        sorted(list),
        amount <= amount_of(list, id),
    ensures
        sorted(debited(list, id, amount)),
        amount_of(debited(list, id, amount), other) == amount_of(list, other) - if other == id {
            amount
        } else {
            0
        },
{
    lemma_position(list, id);
    let p = position(list, id);
    let after = debited(list, id, amount);
    if holds(list, id) {
        assert forall|i: int, j: int| 0 <= i < j < after.len() implies (
        #[trigger] after[i]).0.before((#[trigger] after[j]).0) by {
            assert(after[i].0 == list[i].0 && after[j].0 == list[j].0);
            assert(list[i].0.before(list[j].0));
        }
        lemma_amount_of(list, other);
        lemma_amount_of(after, other);
        if exists|q: int| 0 <= q < list.len() && (#[trigger] list[q]).0 == other {
            let q = choose|q: int| 0 <= q < list.len() && (#[trigger] list[q]).0 == other;
            assert(after[q].0 == other);
            if q != p {
                assert(list[q].0.before(list[p].0) || list[p].0.before(list[q].0));
            }
        } else {
            assert forall|q: int| 0 <= q < after.len() implies (#[trigger] after[q]).0
                != other by {
                assert(after[q].0 == list[q].0);
            }
        }
    }
}

/// The entries of `list` whose amount is not zero, in order.
pub open spec fn positive(list: Seq<(RuneId, u128)>) -> Seq<(RuneId, u128)>
    decreases list.len(),
{
    if list.len() == 0 {
        Seq::empty()
    } else if list.last().1 == 0 {
        positive(list.drop_last())
    } else {
        positive(list.drop_last()).push(list.last())
    }
}

impl Balances {
    /// The amounts that are not zero, in order.
    pub fn positive(&self) -> (r: Balances)
        ensures
            r@ == positive(self@),
    {
        let mut entries: Vec<(RuneId, u128)> = Vec::new();
        let mut i: usize = 0;
        assert(self@.take(0) =~= Seq::<(RuneId, u128)>::empty());
        while i < self.entries.len()
            invariant
                i <= self@.len(),
                entries@ == positive(self@.take(i as int)),
            decreases self@.len() - i,
        {
            assert(self@.take(i + 1).drop_last() =~= self@.take(i as int));
            assert(self@.take(i + 1).last() == self@[i as int]);
            if self.entries[i].1 != 0 {
                entries.push(self.entries[i]);
            }
            i = i + 1;
        }
        assert(self@.take(i as int) =~= self@);
        Balances { entries }
    }

    /// No amounts.
    pub fn new() -> (r: Balances)
        ensures
            r@ == Seq::<(RuneId, u128)>::empty(),
            sorted(r@),
    {
        Balances { entries: Vec::new() }
    }

    /// A copy of the amounts.
    pub fn duplicate(&self) -> (r: Balances)
        ensures
            r@ == self@,
    {
        let mut entries: Vec<(RuneId, u128)> = Vec::new();
        let mut i: usize = 0;
        while i < self.entries.len()
            invariant
                i <= self@.len(),
                entries@ == self@.take(i as int),
            decreases self@.len() - i,
        {
            assert(self@.take(i as int).push(self@[i as int]) =~= self@.take(i + 1));
            entries.push(self.entries[i]);
            i = i + 1;
        }
        assert(self@.take(i as int) =~= self@);
        Balances { entries }
    }

    /// The number of entries.
    pub fn len(&self) -> (r: usize)
        ensures
            r == self@.len(),
    {
        self.entries.len()
    }

    /// The place of `id` among the entries, or where it would stand.
    pub fn place(&self, id: RuneId) -> (r: usize)
        requires
            sorted(self@),
        ensures
            r == position(self@, id),
            r <= self@.len(),
    {
        let mut i: usize = 0;
        while i < self.entries.len() && self.entries[i].0.lt(id)
            invariant
                i <= self@.len(),
                forall|k: int| 0 <= k < i ==> (#[trigger] self@[k]).0.before(id),
            decreases self@.len() - i,
        {
            i = i + 1;
        }
        proof {
            lemma_position_is(self@, id, i as int);
        }
        i
    }

    /// The amount of `id`.
    pub fn get(&self, id: RuneId) -> (r: u128)
        requires
            sorted(self@),
        ensures
            r == amount_of(self@, id),
    {
        let p: usize = self.place(id);
        if p < self.entries.len() && self.entries[p].0 == id {
            self.entries[p].1
        } else {
            0
        }
    }

    /// Adds `amount` to the amount of `id`, unless the sum leaves 128 bits.
    pub fn add(&mut self, id: RuneId, amount: u128) -> (r: bool)
        requires
            sorted(old(self)@),
        ensures
            sorted(final(self)@),
            r == (amount_of(old(self)@, id) + amount <= u128::MAX),
            final(self)@ == if r {
                credited(old(self)@, id, amount as nat)
            } else {
                old(self)@
            },
    {
        let p: usize = self.place(id);
        proof {
            if amount_of(self@, id) + amount <= u128::MAX {
                lemma_credited(self@, id, amount as nat, id);
            }
        }
        if p < self.entries.len() && self.entries[p].0 == id {
            match self.entries[p].1.checked_add(amount) {
                Some(sum) => {
                    self.entries.set(p, (id, sum));
                    true
                },
                None => false,
            }
        } else {
            self.entries.insert(p, (id, amount));
            true
        }
    }

    /// Takes `amount` from the amount of `id`, which is as much at least.
    pub fn sub(&mut self, id: RuneId, amount: u128)
        requires
            sorted(old(self)@),
            amount <= amount_of(old(self)@, id),
        ensures
            sorted(final(self)@),
            final(self)@ == debited(old(self)@, id, amount as nat),
    {
        let p: usize = self.place(id);
        proof {
            lemma_debited(self@, id, amount as nat, id);
        }
        if p < self.entries.len() && self.entries[p].0 == id {
            let rest: u128 = self.entries[p].1 - amount;
            self.entries.set(p, (id, rest));
        }
    }
}

} // verus!
