//! How the runes of a transaction come to its outputs: by the edicts of its
//! runestone, then what is left to one output or to the burned, then what
//! stands on an unspendable output to the burned.

use vstd::prelude::*;
use crate::artifact::Artifact;
use crate::artifact::ArtifactView;
use crate::balances::amount_of;
use crate::balances::lemma_amount_of;
use crate::balances::lemma_position;
use crate::balances::sorted;
use crate::edict::Edict;
use crate::pots::BURNED;
use crate::pots::FIRST_OUTPUT;
use crate::pots::Pots;
use crate::pots::UNALLOCATED;
use crate::pots::all_sorted;
use crate::pots::drained;
use crate::pots::given;
use crate::pots::ids_of;
use crate::pots::lemma_moved;
use crate::pots::moved;
use crate::pots::sum_at;
use crate::rune_id::RuneId;

verus! {

/// The pots of the outputs that can hold runes, in order. `spendable` tells
/// of each output whether it can.
pub open spec fn targets(spendable: Seq<bool>) -> Seq<int>
    decreases spendable.len(),
{
    if spendable.len() == 0 {
        Seq::empty()
    } else if spendable.last() {
        targets(spendable.drop_last()).push(FIRST_OUTPUT + spendable.len() - 1)
    } else {
        targets(spendable.drop_last())
    }
}

/// The pots after each of `targets` in turn got `share` of what is not yet
/// allocated of `id`, the first `extra` of them one unit more.
pub open spec fn shared(
    pots: Seq<Seq<(RuneId, u128)>>,
    id: RuneId,
    targets: Seq<int>,
    share: nat,
    extra: nat,
) -> Seq<Seq<(RuneId, u128)>>
    decreases targets.len(),
{
    if targets.len() == 0 {
        pots
    } else if extra > 0 {
        shared(
            moved(pots, id, share + 1, UNALLOCATED as int, targets[0]),
            id,
            targets.skip(1),
            share,
            (extra - 1) as nat,
        )
    } else {
        shared(moved(pots, id, share, UNALLOCATED as int, targets[0]), id, targets.skip(1), share, 0)
    }
}

/// The pots after each of `targets` in turn got `amount` of what is not yet
/// allocated of `id`, or what was left of it.
pub open spec fn poured(
    pots: Seq<Seq<(RuneId, u128)>>,
    id: RuneId,
    targets: Seq<int>,
    amount: nat,
) -> Seq<Seq<(RuneId, u128)>>
    decreases targets.len(),
{
    if targets.len() == 0 {
        pots
    } else {
        poured(moved(pots, id, amount, UNALLOCATED as int, targets[0]), id, targets.skip(1), amount)
    }
}

/// The rune that an edict speaks of: its own, or the one that the transaction
/// etches where it names none.
pub open spec fn edict_rune(edict: Edict, etched: Option<RuneId>) -> Option<RuneId> {
    if edict.id == (RuneId { block: 0, tx: 0 }) {
        etched
    } else {
        Some(edict.id)
    }
}

/// The pots after `edict` was carried out. An edict for every output gives
/// each output that can hold runes its amount, or, where its amount is zero,
/// an equal share of all there is, the first outputs one unit more where the
/// shares do not come out even. An edict for one output gives it its amount,
/// or, where its amount is zero, all there is. An edict gives no more than
/// there is, and one that speaks of no rune or of no output does nothing.
pub open spec fn edict_applied(
    pots: Seq<Seq<(RuneId, u128)>>,
    edict: Edict,
    etched: Option<RuneId>,
    spendable: Seq<bool>,
) -> Seq<Seq<(RuneId, u128)>> {
    match edict_rune(edict, etched) {
        None => pots,
        Some(id) => {
            let balance = amount_of(pots[UNALLOCATED as int], id);
            let everyone = targets(spendable);
            if edict.output == spendable.len() {
                if everyone.len() == 0 {
                    pots
                } else if edict.amount == 0 {
                    shared(
                        pots,
                        id,
                        everyone,
                        balance / everyone.len(),
                        balance % everyone.len(),
                    )
                } else {
                    poured(pots, id, everyone, edict.amount as nat)
                }
            } else if edict.output < spendable.len() {
                moved(
                    pots,
                    id,
                    if edict.amount == 0 {
                        balance
                    } else {
                        edict.amount as nat
                    },
                    UNALLOCATED as int,
                    FIRST_OUTPUT + edict.output,
                )
            } else {
                pots
            }
        },
    }
}

/// The pots after the edicts of `edicts` were carried out in order.
pub open spec fn edicts_applied(
    pots: Seq<Seq<(RuneId, u128)>>,
    edicts: Seq<Edict>,
    etched: Option<RuneId>,
    spendable: Seq<bool>,
) -> Seq<Seq<(RuneId, u128)>>
    decreases edicts.len(),
{
    if edicts.len() == 0 {
        pots
    } else {
        edicts_applied(
            edict_applied(pots, edicts[0], etched, spendable),
            edicts.skip(1),
            etched,
            spendable,
        )
    }
}

/// The place of the first output that can hold runes, or the number of
/// outputs.
pub open spec fn first_spendable(spendable: Seq<bool>) -> int
    decreases spendable.len(),
{
    if spendable.len() == 0 {
        0
    } else if first_spendable(spendable.drop_last()) < spendable.len() - 1 {
        first_spendable(spendable.drop_last())
    } else if spendable.last() {
        spendable.len() - 1
    } else {
        spendable.len() as int
    }
}

/// The pot that takes what the edicts leave: that of the output that the
/// pointer names; without a pointer that names an output, that of the first
/// output that can hold runes; without such an output the burned.
pub open spec fn residual_pot(pointer: Option<u32>, spendable: Seq<bool>) -> int {
    let first = if first_spendable(spendable) < spendable.len() {
        FIRST_OUTPUT + first_spendable(spendable)
    } else {
        BURNED as int
    };
    match pointer {
        Some(p) => if p < spendable.len() {
            FIRST_OUTPUT + p
        } else {
            first
        },
        None => first,
    }
}

/// The pots after what stands on the first `upto` outputs that cannot hold
/// runes went to the burned.
pub open spec fn returns_burned(pots: Seq<Seq<(RuneId, u128)>>, spendable: Seq<bool>, upto: int)
    -> Seq<Seq<(RuneId, u128)>>
    decreases upto,
{
    if upto <= 0 {
        pots
    } else {
        let before = returns_burned(pots, spendable, upto - 1);
        let pot = FIRST_OUTPUT + upto - 1;
        if spendable[upto - 1] {
            before
        } else {
            drained(before, ids_of(before[pot]), pot, BURNED as int)
        }
    }
}

/// What kind of message a transaction carries, as far as the moving of runes
/// goes.
pub enum Orders {
    /// No message: what comes in goes to the first output that can hold
    /// runes.
    Silent,
    /// A cenotaph: what comes in is burned.
    Burn,
    /// A runestone with these edicts and this pointer.
    Move(Seq<Edict>, Option<u32>),
}

/// The pots at the end: after the edicts, after what they leave went where it
/// goes, and after unspendable outputs were emptied into the burned.
pub open spec fn settled(
    pots: Seq<Seq<(RuneId, u128)>>,
    orders: Orders,
    etched: Option<RuneId>,
    spendable: Seq<bool>,
) -> Seq<Seq<(RuneId, u128)>> {
    let after_edicts = match orders {
        Orders::Move(edicts, _) => edicts_applied(pots, edicts, etched, spendable),
        _ => pots,
    };
    let rest = match orders {
        Orders::Burn => BURNED as int,
        Orders::Move(_, pointer) => residual_pot(pointer, spendable),
        Orders::Silent => residual_pot(None, spendable),
    };
    let after_rest = drained(
        after_edicts,
        ids_of(after_edicts[UNALLOCATED as int]),
        UNALLOCATED as int,
        rest,
    );
    returns_burned(after_rest, spendable, spendable.len() as int)
}

/// What the outputs that can hold runes hold of `id`, over the first `upto`
/// outputs.
pub open spec fn held(pots: Seq<Seq<(RuneId, u128)>>, spendable: Seq<bool>, id: RuneId, upto: int)
    -> nat
    decreases upto,
{
    if upto <= 0 {
        0
    } else if spendable[upto - 1] {
        held(pots, spendable, id, upto - 1) + amount_of(pots[FIRST_OUTPUT + upto - 1], id)
    } else {
        held(pots, spendable, id, upto - 1)
    }
}

/// Whether the pots are sorted, one for each output and two more, and no
/// rune sums to more than 128 bits hold.
pub open spec fn pots_wf(pots: Seq<Seq<(RuneId, u128)>>, outputs: nat) -> bool {
    &&& pots.len() == outputs + 2
    &&& all_sorted(pots)
    &&& forall|id: RuneId| sum_at(pots, id) <= u128::MAX
}

/// Whether two lists of pots hold the same sum of every rune.
pub open spec fn same_sums(a: Seq<Seq<(RuneId, u128)>>, b: Seq<Seq<(RuneId, u128)>>) -> bool {
    forall|id: RuneId| sum_at(a, id) == sum_at(b, id)
}

/// A move keeps the pots well formed and their sums.
pub proof fn lemma_move_keeps(
    pots: Seq<Seq<(RuneId, u128)>>,
    outputs: nat,
    id: RuneId,
    amount: nat,
    from: int,
    to: int,
)
    requires
        pots_wf(pots, outputs),
        0 <= from < pots.len(),
        0 <= to < pots.len(),
    ensures
        pots_wf(moved(pots, id, amount, from, to), outputs),
        same_sums(moved(pots, id, amount, from, to), pots),
        forall|k: int|
            0 <= k < pots.len() && k != from && k != to ==> (#[trigger] moved(
                pots,
                id,
                amount,
                from,
                to,
            )[k]) == pots[k],
        from != to ==> ids_of(moved(pots, id, amount, from, to)[from]) == ids_of(pots[from]),
        from != to ==> forall|other: RuneId|
            #[trigger] amount_of(moved(pots, id, amount, from, to)[from], other) == if other == id {
                (amount_of(pots[from], id) - given(pots, id, amount, from)) as nat
            } else {
                amount_of(pots[from], other)
            },
{
    let after = moved(pots, id, amount, from, to);
    lemma_moved(pots, id, amount, from, to, id);
    assert forall|other: RuneId| sum_at(after, other) == sum_at(pots, other) by {
        lemma_moved(pots, id, amount, from, to, other);
    }
    if from != to {
        let give = given(pots, id, amount, from);
        assert(sorted(pots[from]));
        lemma_position(pots[from], id);
        assert(ids_of(after[from]) =~= ids_of(pots[from]));
        assert forall|other: RuneId|
            #[trigger] amount_of(after[from], other) == if other == id {
                (amount_of(pots[from], id) - give) as nat
            } else {
                amount_of(pots[from], other)
            } by {
            if give != 0 {
                crate::balances::lemma_debited(pots[from], id, give, other);
            }
        }
    }
}

/// The pots of the outputs that can hold runes are pots of outputs.
pub proof fn lemma_targets(spendable: Seq<bool>)
    ensures
        forall|k: int|
            0 <= k < targets(spendable).len() ==> FIRST_OUTPUT <= (#[trigger] targets(
                spendable,
            )[k]) < FIRST_OUTPUT + spendable.len(),
        targets(spendable).len() <= spendable.len(),
    decreases spendable.len(),
{
    if spendable.len() > 0 {
        lemma_targets(spendable.drop_last());
    }
}

/// Sharing keeps the pots well formed and their sums.
pub proof fn lemma_shared_keeps(
    pots: Seq<Seq<(RuneId, u128)>>,
    outputs: nat,
    id: RuneId,
    targets: Seq<int>,
    share: nat,
    extra: nat,
)
    requires
        pots_wf(pots, outputs),
        forall|k: int| 0 <= k < targets.len() ==> 0 <= (#[trigger] targets[k]) < pots.len(),
    ensures
        pots_wf(shared(pots, id, targets, share, extra), outputs),
        same_sums(shared(pots, id, targets, share, extra), pots),
    decreases targets.len(),
{
    if targets.len() > 0 {
        let give = if extra > 0 {
            share + 1
        } else {
            share
        };
        let less = if extra > 0 {
            (extra - 1) as nat
        } else {
            0
        };
        let next = moved(pots, id, give, UNALLOCATED as int, targets[0]);
        lemma_move_keeps(pots, outputs, id, give, UNALLOCATED as int, targets[0]);
        let rest = targets.skip(1);
        assert forall|k: int| 0 <= k < rest.len() implies 0 <= (#[trigger] rest[k])
            < next.len() by {
            assert(rest[k] == targets[k + 1]);
        }
        lemma_shared_keeps(next, outputs, id, rest, share, less);
    }
}

/// Pouring keeps the pots well formed and their sums.
pub proof fn lemma_poured_keeps(
    pots: Seq<Seq<(RuneId, u128)>>,
    outputs: nat,
    id: RuneId,
    targets: Seq<int>,
    amount: nat,
)
    requires
        pots_wf(pots, outputs),
        forall|k: int| 0 <= k < targets.len() ==> 0 <= (#[trigger] targets[k]) < pots.len(),
    ensures
        pots_wf(poured(pots, id, targets, amount), outputs),
        same_sums(poured(pots, id, targets, amount), pots),
    decreases targets.len(),
{
    if targets.len() > 0 {
        let next = moved(pots, id, amount, UNALLOCATED as int, targets[0]);
        lemma_move_keeps(pots, outputs, id, amount, UNALLOCATED as int, targets[0]);
        let rest = targets.skip(1);
        assert forall|k: int| 0 <= k < rest.len() implies 0 <= (#[trigger] rest[k])
            < next.len() by {
            assert(rest[k] == targets[k + 1]);
        }
        lemma_poured_keeps(next, outputs, id, rest, amount);
    }
}

/// An edict keeps the pots well formed and their sums.
pub proof fn lemma_edict_keeps(
    pots: Seq<Seq<(RuneId, u128)>>,
    edict: Edict,
    etched: Option<RuneId>,
    spendable: Seq<bool>,
)
    requires
        pots_wf(pots, spendable.len()),
    ensures
        pots_wf(edict_applied(pots, edict, etched, spendable), spendable.len()),
        same_sums(edict_applied(pots, edict, etched, spendable), pots),
{
    lemma_targets(spendable);
    match edict_rune(edict, etched) {
        None => {},
        Some(id) => {
            let balance = amount_of(pots[UNALLOCATED as int], id);
            let everyone = targets(spendable);
            if edict.output == spendable.len() {
                if everyone.len() != 0 {
                    if edict.amount == 0 {
                        lemma_shared_keeps(
                            pots,
                            spendable.len(),
                            id,
                            everyone,
                            balance / everyone.len(),
                            balance % everyone.len(),
                        );
                    } else {
                        lemma_poured_keeps(
                            pots,
                            spendable.len(),
                            id,
                            everyone,
                            edict.amount as nat,
                        );
                    }
                }
            } else if edict.output < spendable.len() {
                lemma_move_keeps(
                    pots,
                    spendable.len(),
                    id,
                    if edict.amount == 0 {
                        balance
                    } else {
                        edict.amount as nat
                    },
                    UNALLOCATED as int,
                    FIRST_OUTPUT + edict.output,
                );
            }
        },
    }
}

/// Edicts keep the pots well formed and their sums.
pub proof fn lemma_edicts_keep(
    pots: Seq<Seq<(RuneId, u128)>>,
    edicts: Seq<Edict>,
    etched: Option<RuneId>,
    spendable: Seq<bool>,
)
    requires
        pots_wf(pots, spendable.len()),
    ensures
        pots_wf(edicts_applied(pots, edicts, etched, spendable), spendable.len()),
        same_sums(edicts_applied(pots, edicts, etched, spendable), pots),
    decreases edicts.len(),
{
    if edicts.len() > 0 {
        lemma_edict_keeps(pots, edicts[0], etched, spendable);
        lemma_edicts_keep(
            edict_applied(pots, edicts[0], etched, spendable),
            edicts.skip(1),
            etched,
            spendable,
        );
    }
}

/// Draining keeps the pots well formed and their sums, leaves in the pot it
/// takes from nothing of the runes it took, and touches no third pot.
pub proof fn lemma_drain_keeps(
    pots: Seq<Seq<(RuneId, u128)>>,
    outputs: nat,
    ids: Seq<RuneId>,
    from: int,
    to: int,
)
    requires
        pots_wf(pots, outputs),
        0 <= from < pots.len(),
        0 <= to < pots.len(),
    ensures
        pots_wf(drained(pots, ids, from, to), outputs),
        same_sums(drained(pots, ids, from, to), pots),
        forall|k: int|
            0 <= k < pots.len() && k != from && k != to ==> (#[trigger] drained(
                pots,
                ids,
                from,
                to,
            )[k]) == pots[k],
        from != to ==> ids_of(drained(pots, ids, from, to)[from]) == ids_of(pots[from]),
        from != to ==> forall|other: RuneId|
            #[trigger] amount_of(drained(pots, ids, from, to)[from], other) == if ids.contains(
                other,
            ) {
                0
            } else {
                amount_of(pots[from], other)
            },
        from == to ==> drained(pots, ids, from, to) == pots,
    decreases ids.len(),
{
    if ids.len() > 0 {
        let next = moved(pots, ids[0], u128::MAX as nat, from, to);
        lemma_move_keeps(pots, outputs, ids[0], u128::MAX as nat, from, to);
        let rest = ids.skip(1);
        lemma_drain_keeps(next, outputs, rest, from, to);
        let after = drained(pots, ids, from, to);
        if from != to {
            assert forall|other: RuneId|
                #[trigger] amount_of(after[from], other) == if ids.contains(other) {
                    0
                } else {
                    amount_of(pots[from], other)
                } by {
                assert(amount_of(pots[from], ids[0]) <= u128::MAX);
                if rest.contains(other) {
                    let k = choose|k: int| 0 <= k < rest.len() && rest[k] == other;
                    assert(ids[k + 1] == other);
                } else if ids.contains(other) {
                    let k = choose|k: int| 0 <= k < ids.len() && ids[k] == other;
                    if k > 0 {
                        assert(rest[k - 1] == other);
                    }
                } else {
                    assert(ids[0] != other);
                }
            }
        }
    }
}

/// A pot drained of all its runes holds nothing.
pub proof fn lemma_drain_empties(
    pots: Seq<Seq<(RuneId, u128)>>,
    outputs: nat,
    from: int,
    to: int,
    id: RuneId,
)
    requires
        pots_wf(pots, outputs),
        0 <= from < pots.len(),
        0 <= to < pots.len(),
        from != to,
    ensures
        amount_of(drained(pots, ids_of(pots[from]), from, to)[from], id) == 0,
{
    let ids = ids_of(pots[from]);
    lemma_drain_keeps(pots, outputs, ids, from, to);
    if !ids.contains(id) {
        assert(sorted(pots[from]));
        lemma_amount_of(pots[from], id);
        assert forall|q: int| 0 <= q < pots[from].len() implies (#[trigger] pots[from][q]).0
            != id by {
            assert(ids[q] == pots[from][q].0);
        }
    }
}

/// The first output that can hold runes is one, where there is one; and no
/// output before it can.
pub proof fn lemma_first_spendable(spendable: Seq<bool>)
    ensures
        0 <= first_spendable(spendable) <= spendable.len(),
        first_spendable(spendable) < spendable.len() ==> spendable[first_spendable(spendable)],
        forall|k: int| 0 <= k < first_spendable(spendable) ==> !(#[trigger] spendable[k]),
    decreases spendable.len(),
{
    if spendable.len() > 0 {
        let front = spendable.drop_last();
        lemma_first_spendable(front);
        assert forall|k: int| 0 <= k < first_spendable(spendable) implies !(
        #[trigger] spendable[k]) by {
            if k < front.len() {
                assert(front[k] == spendable[k]);
            }
        }
    }
}

/// An output at a place before which no output can hold runes is the first
/// that can.
pub proof fn lemma_first_spendable_is(spendable: Seq<bool>, i: int)
    requires
        0 <= i <= spendable.len(),
        forall|k: int| 0 <= k < i ==> !(#[trigger] spendable[k]),
        i < spendable.len() ==> spendable[i],
    ensures
        first_spendable(spendable) == i,
{
    lemma_first_spendable(spendable);
    let f = first_spendable(spendable);
    if f < i {
        assert(!spendable[f]);
    } else if f > i {
        assert(!spendable[i]);
    }
}

/// Emptying the unspendable outputs keeps the pots well formed and their
/// sums, leaves those outputs empty and the other outputs and what is not
/// allocated as they were.
pub proof fn lemma_returns_keep(pots: Seq<Seq<(RuneId, u128)>>, spendable: Seq<bool>, upto: int)
    requires
        pots_wf(pots, spendable.len()),
        0 <= upto <= spendable.len(),
    ensures
        pots_wf(returns_burned(pots, spendable, upto), spendable.len()),
        same_sums(returns_burned(pots, spendable, upto), pots),
        returns_burned(pots, spendable, upto)[UNALLOCATED as int] == pots[UNALLOCATED as int],
        forall|k: int|
            FIRST_OUTPUT <= k < pots.len() && (spendable[k - FIRST_OUTPUT] || k >= FIRST_OUTPUT
                + upto) ==> (#[trigger] returns_burned(pots, spendable, upto)[k]) == pots[k],
        forall|k: int, id: RuneId|
            FIRST_OUTPUT <= k < FIRST_OUTPUT + upto && !spendable[k - FIRST_OUTPUT]
                ==> #[trigger] amount_of(returns_burned(pots, spendable, upto)[k], id) == 0,
    decreases upto,
{
    if upto > 0 {
        let before = returns_burned(pots, spendable, upto - 1);
        lemma_returns_keep(pots, spendable, upto - 1);
        let pot = FIRST_OUTPUT + upto - 1;
        let after = returns_burned(pots, spendable, upto);
        if !spendable[upto - 1] {
            lemma_drain_keeps(before, spendable.len(), ids_of(before[pot]), pot, BURNED as int);
            assert forall|k: int|
                FIRST_OUTPUT <= k < pots.len() && (spendable[k - FIRST_OUTPUT] || k
                    >= FIRST_OUTPUT + upto) implies (#[trigger] after[k]) == pots[k] by {
                assert(after[k] == before[k]);
            }
            assert forall|k: int, id: RuneId|
                FIRST_OUTPUT <= k < FIRST_OUTPUT + upto && !spendable[k
                    - FIRST_OUTPUT] implies #[trigger] amount_of(after[k], id) == 0 by {
                if k < pot {
                    assert(after[k] == before[k]);
                    assert(amount_of(before[k], id) == 0);
                } else {
                    lemma_drain_empties(before, spendable.len(), pot, BURNED as int, id);
                }
            }
        }
    }
}

/// The sum over the first pots is what the first two hold and what the
/// outputs among them hold.
pub proof fn lemma_sum_split(
    pots: Seq<Seq<(RuneId, u128)>>,
    spendable: Seq<bool>,
    id: RuneId,
    upto: int,
)
    requires
        pots.len() == spendable.len() + 2,
        0 <= upto <= spendable.len(),
        forall|k: int|
            FIRST_OUTPUT <= k < pots.len() && !spendable[k - FIRST_OUTPUT] ==> #[trigger] amount_of(
                pots[k],
                id,
            ) == 0,
    ensures
        sum_at(pots.take(FIRST_OUTPUT + upto), id) == amount_of(pots[UNALLOCATED as int], id)
            + amount_of(pots[BURNED as int], id) + held(pots, spendable, id, upto),
    decreases upto,
{
    if upto == 0 {
        let two = pots.take(2);
        let one = two.drop_last();
        assert(one.drop_last() =~= Seq::<Seq<(RuneId, u128)>>::empty());
        assert(one.last() == pots[0]);
        assert(two.last() == pots[1]);
        assert(sum_at(one.drop_last(), id) == 0);
        assert(sum_at(one, id) == amount_of(pots[0], id));
        assert(sum_at(two, id) == amount_of(pots[0], id) + amount_of(pots[1], id));
        assert(held(pots, spendable, id, 0) == 0);
    } else {
        lemma_sum_split(pots, spendable, id, upto - 1);
        let now = pots.take(FIRST_OUTPUT + upto);
        assert(now.drop_last() =~= pots.take(FIRST_OUTPUT + upto - 1));
        assert(now.last() == pots[FIRST_OUTPUT + upto - 1]);
        if !spendable[upto - 1] {
            assert(amount_of(pots[FIRST_OUTPUT + upto - 1], id) == 0);
        }
        assert(sum_at(now, id) == sum_at(now.drop_last(), id) + amount_of(now.last(), id));
    }
}

/// The pot that takes what the edicts leave is one of the pots, and not that
/// of what is not yet allocated.
pub proof fn lemma_residual_pot(pointer: Option<u32>, spendable: Seq<bool>)
    ensures
        1 <= residual_pot(pointer, spendable) < spendable.len() + 2,
{
    lemma_first_spendable(spendable);
}

/// What holds of the pots at the end: they are well formed, hold of every
/// rune the sum that they held at the start, and hold nothing that is not yet
/// allocated and nothing on an output that cannot hold runes.
pub proof fn lemma_settled(
    pots: Seq<Seq<(RuneId, u128)>>,
    orders: Orders,
    etched: Option<RuneId>,
    spendable: Seq<bool>,
)
    requires
        pots_wf(pots, spendable.len()),
    ensures
        pots_wf(settled(pots, orders, etched, spendable), spendable.len()),
        same_sums(settled(pots, orders, etched, spendable), pots),
        forall|id: RuneId|
            #[trigger] amount_of(settled(pots, orders, etched, spendable)[UNALLOCATED as int], id)
                == 0,
        forall|k: int, id: RuneId|
            FIRST_OUTPUT <= k < pots.len() && !spendable[k - FIRST_OUTPUT]
                ==> #[trigger] amount_of(settled(pots, orders, etched, spendable)[k], id) == 0,
{
    let after_edicts = match orders {
        Orders::Move(edicts, _) => edicts_applied(pots, edicts, etched, spendable),
        _ => pots,
    };
    match orders {
        Orders::Move(edicts, _) => {
            lemma_edicts_keep(pots, edicts, etched, spendable);
        },
        _ => {},
    }
    let rest = match orders {
        Orders::Burn => BURNED as int,
        Orders::Move(_, pointer) => residual_pot(pointer, spendable),
        Orders::Silent => residual_pot(None, spendable),
    };
    match orders {
        Orders::Move(_, pointer) => {
            lemma_residual_pot(pointer, spendable);
        },
        _ => {
            lemma_residual_pot(None, spendable);
        },
    }
    let ids = ids_of(after_edicts[UNALLOCATED as int]);
    let after_rest = drained(after_edicts, ids, UNALLOCATED as int, rest);
    lemma_drain_keeps(after_edicts, spendable.len(), ids, UNALLOCATED as int, rest);
    lemma_returns_keep(after_rest, spendable, spendable.len() as int);
    let last = settled(pots, orders, etched, spendable);
    assert forall|id: RuneId| #[trigger] amount_of(last[UNALLOCATED as int], id) == 0 by {
        lemma_drain_empties(after_edicts, spendable.len(), UNALLOCATED as int, rest, id);
    }
}

/// Of every rune, what a transaction brings in is what its outputs hold in
/// the end and what is burned: nothing is made and nothing is lost on the
/// way. `pots` are the pots at the start, with all that comes in (from the
/// inputs, from a mint, from a premine) in the pot of what is not yet
/// allocated.
pub proof fn lemma_conservation(
    pots: Seq<Seq<(RuneId, u128)>>,
    orders: Orders,
    etched: Option<RuneId>,
    spendable: Seq<bool>,
    id: RuneId,
)
    requires
        pots_wf(pots, spendable.len()),
    ensures
        sum_at(pots, id) == held(
            settled(pots, orders, etched, spendable),
            spendable,
            id,
            spendable.len() as int,
        ) + amount_of(settled(pots, orders, etched, spendable)[BURNED as int], id),
{
    let last = settled(pots, orders, etched, spendable);
    lemma_settled(pots, orders, etched, spendable);
    lemma_sum_split(last, spendable, id, spendable.len() as int);
    assert(last.take(FIRST_OUTPUT + spendable.len()) =~= last);
}

/// Pots that agree on the outputs that can hold runes hold the same there.
proof fn lemma_held_alike(
    a: Seq<Seq<(RuneId, u128)>>,
    b: Seq<Seq<(RuneId, u128)>>,
    spendable: Seq<bool>,
    id: RuneId,
    upto: int,
)
    requires
        0 <= upto <= spendable.len(),
        forall|k: int|
            FIRST_OUTPUT <= k < FIRST_OUTPUT + upto && spendable[k - FIRST_OUTPUT] ==> #[trigger] a[k]
                == b[k],
    ensures
        held(a, spendable, id, upto) == held(b, spendable, id, upto),
    decreases upto,
{
    if upto > 0 {
        lemma_held_alike(a, b, spendable, id, upto - 1);
        if spendable[upto - 1] {
            assert(a[FIRST_OUTPUT + upto - 1] == b[FIRST_OUTPUT + upto - 1]);
        }
    }
}

/// Where the pointer of a runestone names an output that cannot hold runes,
/// what its edicts leave of a rune is burned. If the edicts put nothing of
/// the rune `id` on an output that cannot hold runes, the burned hold of it
/// in the end what they held after the edicts and what the edicts left; and
/// every output that can hold runes holds what it held after the edicts.
pub proof fn lemma_pointer_burns(
    pots: Seq<Seq<(RuneId, u128)>>,
    edicts: Seq<Edict>,
    pointer: u32,
    etched: Option<RuneId>,
    spendable: Seq<bool>,
    id: RuneId,
)
    requires
        pots_wf(pots, spendable.len()),
        pointer < spendable.len(),
        !spendable[pointer as int],
        forall|k: int|
            FIRST_OUTPUT <= k < pots.len() && !spendable[k - FIRST_OUTPUT] ==> amount_of(
                #[trigger] edicts_applied(pots, edicts, etched, spendable)[k],
                id,
            ) == 0,
    ensures
        amount_of(
            settled(pots, Orders::Move(edicts, Some(pointer)), etched, spendable)[BURNED as int],
            id,
        ) == amount_of(edicts_applied(pots, edicts, etched, spendable)[BURNED as int], id)
            + amount_of(edicts_applied(pots, edicts, etched, spendable)[UNALLOCATED as int], id),
        forall|k: int|
            FIRST_OUTPUT <= k < pots.len() && spendable[k - FIRST_OUTPUT] ==> (#[trigger] settled(
                pots,
                Orders::Move(edicts, Some(pointer)),
                etched,
                spendable,
            )[k]) == edicts_applied(pots, edicts, etched, spendable)[k],
{
    let orders = Orders::Move(edicts, Some(pointer));
    let outputs = spendable.len() as int;
    let after = edicts_applied(pots, edicts, etched, spendable);
    let rest = FIRST_OUTPUT + pointer;
    let ids = ids_of(after[UNALLOCATED as int]);
    let poured = drained(after, ids, UNALLOCATED as int, rest);
    let last = settled(pots, orders, etched, spendable);
    lemma_edicts_keep(pots, edicts, etched, spendable);
    lemma_drain_keeps(after, spendable.len(), ids, UNALLOCATED as int, rest);
    lemma_returns_keep(poured, spendable, outputs);
    lemma_settled(pots, orders, etched, spendable);
    assert forall|k: int| FIRST_OUTPUT <= k < pots.len() && spendable[k - FIRST_OUTPUT] implies (
    #[trigger] last[k]) == after[k] by {
        assert(last[k] == poured[k]);
        assert(poured[k] == after[k]);
    }
    lemma_held_alike(last, after, spendable, id, outputs);
    lemma_sum_split(last, spendable, id, outputs);
    lemma_sum_split(after, spendable, id, outputs);
    assert(last.take(FIRST_OUTPUT + outputs) =~= last);
    assert(after.take(FIRST_OUTPUT + outputs) =~= after);
    assert(sum_at(last, id) == sum_at(poured, id));
    assert(sum_at(poured, id) == sum_at(after, id));
}

/// What is asked of the runes by a message, or by none.
pub open spec fn orders_of(artifact: Option<ArtifactView>) -> Orders {
    match artifact {
        None => Orders::Silent,
        Some(ArtifactView::Cenotaph(_)) => Orders::Burn,
        Some(ArtifactView::Runestone(runestone)) => Orders::Move(
            runestone.edicts,
            runestone.pointer,
        ),
    }
}

/// Whether `places` are the pots `targets`.
pub open spec fn same_places(places: Seq<usize>, targets: Seq<int>) -> bool {
    places.len() == targets.len() && forall|k: int|
        0 <= k < places.len() ==> (#[trigger] places[k]) as int == targets[k]
}

/// The pots of the outputs that can hold runes, in order.
pub fn target_pots(spendable: &Vec<bool>) -> (r: Vec<usize>)
    requires
        spendable@.len() <= usize::MAX - 2,
    ensures
        same_places(r@, targets(spendable@)),
{
    let mut out: Vec<usize> = Vec::new();
    let mut o: usize = 0;
    assert(spendable@.take(0) =~= Seq::<bool>::empty());
    while o < spendable.len()
        invariant
            o <= spendable@.len() <= usize::MAX - 2,
            same_places(out@, targets(spendable@.take(o as int))),
        decreases spendable@.len() - o,
    {
        let ghost next = spendable@.take(o + 1);
        assert(next.drop_last() =~= spendable@.take(o as int));
        assert(next.last() == spendable@[o as int]);
        if spendable[o] {
            out.push(o + FIRST_OUTPUT);
        }
        o = o + 1;
    }
    assert(spendable@.take(o as int) =~= spendable@);
    out
}

/// The place of the first output that can hold runes, if there is one.
pub fn first_spendable_output(spendable: &Vec<bool>) -> (r: Option<usize>)
    ensures
        match r {
            Some(o) => o < spendable@.len() && o == first_spendable(spendable@),
            None => first_spendable(spendable@) == spendable@.len(),
        },
{
    let mut o: usize = 0;
    while o < spendable.len()
        invariant
            o <= spendable@.len(),
            forall|k: int| 0 <= k < o ==> !(#[trigger] spendable@[k]),
        decreases spendable@.len() - o,
    {
        if spendable[o] {
            proof {
                lemma_first_spendable_is(spendable@, o as int);
            }
            return Some(o);
        }
        o = o + 1;
    }
    proof {
        lemma_first_spendable_is(spendable@, o as int);
    }
    None
}

impl Pots {
    /// The number of outputs that the pots are for.
    pub open spec fn outputs(&self) -> nat {
        (self@.len() - 2) as nat
    }

    /// Whether the pots are those of a transaction: two and one for each
    /// output, all sorted, no rune with a sum beyond 128 bits.
    pub open spec fn fit(&self) -> bool {
        self@.len() >= 2 && pots_wf(self@, self.outputs())
    }

    /// Moves all of each rune of the pot `from` to the pot `to`.
    pub fn drain(&mut self, from: usize, to: usize)
        requires
            old(self).fit(),
            from < old(self)@.len(),
            to < old(self)@.len(),
        ensures
            final(self).fit(),
            final(self)@.len() == old(self)@.len(),
            final(self)@ == drained(
                old(self)@,
                ids_of(old(self)@[from as int]),
                from as int,
                to as int,
            ),
    {
        let ghost start = self@;
        let ghost outputs = self.outputs();
        let ghost ids = ids_of(start[from as int]);
        let count: usize = self.pots[from].len();
        let mut i: usize = 0;
        assert(ids.skip(0) =~= ids);
        if from == to {
            proof {
                lemma_drain_keeps(start, outputs, ids, from as int, to as int);
            }
            return ;
        }
        while i < count
            invariant
                i <= count == ids.len(),
                from != to,
                from < self@.len(),
                to < self@.len(),
                self@.len() == outputs + 2,
                self.fit(),
                ids == ids_of(self@[from as int]),
                drained(start, ids_of(start[from as int]), from as int, to as int) == drained(
                    self@,
                    ids.skip(i as int),
                    from as int,
                    to as int,
                ),
            decreases count - i,
        {
            let id: RuneId = self.pots[from].entries[i].0;
            proof {
                let rest = ids.skip(i as int);
                assert(rest[0] == id);
                assert(rest.skip(1) =~= ids.skip(i + 1));
                lemma_move_keeps(self@, outputs, id, u128::MAX as nat, from as int, to as int);
            }
            self.move_amount(id, u128::MAX, from, to);
            i = i + 1;
        }
        assert(ids.skip(i as int).len() == 0);
    }

    /// Carries out `edict`.
    pub fn apply_edict(&mut self, edict: &Edict, etched: Option<RuneId>, spendable: &Vec<bool>)
        requires
            old(self).fit(),
            spendable@.len() == old(self).outputs(),
        ensures
            final(self).fit(),
            final(self)@.len() == old(self)@.len(),
            final(self)@ == edict_applied(old(self)@, *edict, etched, spendable@),
    {
        let ghost start = self@;
        let ghost outputs = self.outputs();
        let total: usize = self.pots.len();
        proof {
            assert(spendable@.len() + 2 == total);
            lemma_edict_keeps(start, *edict, etched, spendable@);
            lemma_targets(spendable@);
        }
        let id: RuneId = if edict.id.block == 0 && edict.id.tx == 0 {
            match etched {
                Some(id) => id,
                None => {
                    return ;
                },
            }
        } else {
            edict.id
        };
        let balance: u128 = self.get(UNALLOCATED, id);
        let count: usize = spendable.len();
        if edict.output as usize == count {
            let everyone: Vec<usize> = target_pots(spendable);
            let n: usize = everyone.len();
            if n == 0 {
                return ;
            }
            let ghost places = targets(spendable@);
            if edict.amount == 0 {
                let share: u128 = balance / (n as u128);
                let mut extra: u128 = balance % (n as u128);
                let mut k: usize = 0;
                assert(places.skip(0) =~= places);
                while k < n
                    invariant
                        k <= n == places.len(),
                        same_places(everyone@, places),
                        forall|j: int|
                            0 <= j < places.len() ==> 0 <= (#[trigger] places[j]) < self@.len(),
                        self@.len() == outputs + 2,
                        self.fit(),
                        shared(self@, id, places.skip(k as int), share as nat, extra as nat)
                            == shared(
                            start,
                            id,
                            places,
                            (balance / (n as u128)) as nat,
                            (balance % (n as u128)) as nat,
                        ),
                    decreases n - k,
                {
                    let ghost rest = places.skip(k as int);
                    assert(rest[0] == places[k as int]);
                    assert(rest.skip(1) =~= places.skip(k + 1));
                    let give: u128 = if extra > 0 {
                        match share.checked_add(1) {
                            Some(g) => g,
                            None => u128::MAX,
                        }
                    } else {
                        share
                    };
                    proof {
                        let asked: nat = if extra > 0 {
                            (share + 1) as nat
                        } else {
                            share as nat
                        };
                        assert(amount_of(self@[0], id) <= u128::MAX);
                        assert(moved(self@, id, asked, 0, places[k as int]) == moved(
                            self@,
                            id,
                            give as nat,
                            0,
                            places[k as int],
                        ));
                    }
                    self.move_amount(id, give, UNALLOCATED, everyone[k]);
                    if extra > 0 {
                        extra = extra - 1;
                    }
                    k = k + 1;
                }
                assert(places.skip(k as int).len() == 0);
            } else {
                let mut k: usize = 0;
                assert(places.skip(0) =~= places);
                while k < n
                    invariant
                        k <= n == places.len(),
                        same_places(everyone@, places),
                        forall|j: int|
                            0 <= j < places.len() ==> 0 <= (#[trigger] places[j]) < self@.len(),
                        self@.len() == outputs + 2,
                        self.fit(),
                        poured(self@, id, places.skip(k as int), edict.amount as nat) == poured(
                            start,
                            id,
                            places,
                            edict.amount as nat,
                        ),
                    decreases n - k,
                {
                    let ghost rest = places.skip(k as int);
                    assert(rest[0] == places[k as int]);
                    assert(rest.skip(1) =~= places.skip(k + 1));
                    self.move_amount(id, edict.amount, UNALLOCATED, everyone[k]);
                    k = k + 1;
                }
                assert(places.skip(k as int).len() == 0);
            }
        } else if (edict.output as usize) < count {
            let amount: u128 = if edict.amount == 0 {
                balance
            } else {
                edict.amount
            };
            self.move_amount(id, amount, UNALLOCATED, edict.output as usize + FIRST_OUTPUT);
        }
    }

    /// Carries out the edicts of `edicts` in order.
    pub fn apply_edicts(
        &mut self,
        edicts: &Vec<Edict>,
        etched: Option<RuneId>,
        spendable: &Vec<bool>,
    )
        requires
            old(self).fit(),
            spendable@.len() == old(self).outputs(),
        ensures
            final(self).fit(),
            final(self)@.len() == old(self)@.len(),
            final(self)@ == edicts_applied(old(self)@, edicts@, etched, spendable@),
    {
        let ghost start = self@;
        let mut i: usize = 0;
        assert(edicts@.skip(0) =~= edicts@);
        while i < edicts.len()
            invariant
                i <= edicts@.len(),
                self.fit(),
                self@.len() == start.len(),
                spendable@.len() == self.outputs(),
                edicts_applied(self@, edicts@.skip(i as int), etched, spendable@)
                    == edicts_applied(start, edicts@, etched, spendable@),
            decreases edicts@.len() - i,
        {
            let ghost rest = edicts@.skip(i as int);
            assert(rest[0] == edicts@[i as int]);
            assert(rest.skip(1) =~= edicts@.skip(i + 1));
            self.apply_edict(&edicts[i], etched, spendable);
            i = i + 1;
        }
        assert(edicts@.skip(i as int).len() == 0);
    }

    /// Moves what stands on outputs that cannot hold runes to the burned.
    pub fn burn_returns(&mut self, spendable: &Vec<bool>)
        requires
            old(self).fit(),
            spendable@.len() == old(self).outputs(),
        ensures
            final(self).fit(),
            final(self)@.len() == old(self)@.len(),
            final(self)@ == returns_burned(old(self)@, spendable@, spendable@.len() as int),
    {
        let ghost start = self@;
        let total: usize = self.pots.len();
        let mut o: usize = 0;
        while o < spendable.len()
            invariant
                o <= spendable@.len(),
                spendable@.len() + 2 == total,
                self.fit(),
                self@.len() == start.len(),
                spendable@.len() == self.outputs(),
                self@ == returns_burned(start, spendable@, o as int),
            decreases spendable@.len() - o,
        {
            if !spendable[o] {
                self.drain(o + FIRST_OUTPUT, BURNED);
            }
            o = o + 1;
        }
    }

    /// Works the pots through to the end: the edicts of a runestone, then what
    /// is left to where it goes, then what stands on unspendable outputs to
    /// the burned.
    pub fn settle(
        &mut self,
        artifact: &Option<Artifact>,
        etched: Option<RuneId>,
        spendable: &Vec<bool>,
    )
        requires
            old(self).fit(),
            spendable@.len() == old(self).outputs(),
        ensures
            final(self).fit(),
            final(self)@.len() == old(self)@.len(),
            final(self)@ == settled(
                old(self)@,
                orders_of(crate::artifact::artifact_view(*artifact)),
                etched,
                spendable@,
            ),
    {
        let mut pointer: Option<u32> = None;
        let mut burn: bool = false;
        let total: usize = self.pots.len();
        assert(spendable@.len() + 2 == total);
        match artifact {
            Some(Artifact::Runestone(runestone)) => {
                self.apply_edicts(&runestone.edicts, etched, spendable);
                pointer = runestone.pointer;
            },
            Some(Artifact::Cenotaph(_)) => {
                burn = true;
            },
            None => {},
        }
        let rest: usize = if burn {
            BURNED
        } else {
            let named: Option<usize> = match pointer {
                Some(p) => if (p as usize) < spendable.len() {
                    Some(p as usize)
                } else {
                    None
                },
                None => None,
            };
            match named {
                Some(o) => o + FIRST_OUTPUT,
                None => match first_spendable_output(spendable) {
                    Some(o) => o + FIRST_OUTPUT,
                    None => BURNED,
                },
            }
        };
        self.drain(UNALLOCATED, rest);
        self.burn_returns(spendable);
    }
}

} // verus!
