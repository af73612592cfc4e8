//! The indexing of one block: transaction by transaction, what each does to
//! the runes, and at the end of the block what was burned in it.
//!
//! A transaction is first planned, which reads the store and changes
//! nothing, and then applied, which cannot fail. So a transaction that
//! cannot be indexed leaves the store as it was.

use vstd::prelude::*;
use vstd::string::StringExecFns;
use crate::allocation::orders_of;
use crate::allocation::settled;
use crate::artifact::Artifact;
use crate::artifact::ArtifactView;
use crate::artifact::artifact_view;
use crate::balances::Balances;
use crate::balances::sorted;
use crate::commit::PrevOutView;
use crate::commit::prevout_views;
use crate::commit::tx_commits_to_rune;
use crate::db::EventKind;
use crate::db::RuneEntry;
use crate::db::RuneEntryView;
use crate::db::RuneEventView;
use crate::db::RuneTXO;
use crate::db::RuneTxoView;
use crate::db::TXO;
use crate::db::Transaction;
use crate::db::TxoView;
use crate::height::Height;
use crate::mint::mintable;
use crate::mock_db::MockDb;
use crate::mock_db::StoreError;
use crate::mock_db::StoreState;
use crate::mock_db::lemma_place_of_id_found;
use crate::mock_db::lemma_place_of_id_update;
use crate::mock_db::lemma_place_of_name_update;
use crate::mock_db::place_of_id;
use crate::script::is_op_return;
use crate::network::Network;
use crate::plan::IndexError;
use crate::plan::MAX_OUTPUTS;
use crate::plan::credit;
use crate::plan::credit_checked;
use crate::plan::entry_of;
use crate::plan::etched_of;
use crate::plan::gathered;
use crate::plan::lemma_pot_rows_positive;
use crate::plan::list_rows;
use crate::plan::merge;
use crate::plan::merged;
use crate::plan::minting;
use crate::plan::pot_rows;
use crate::plan::premine_of;
use crate::plan::record_of;
use crate::plan::rune_row;
use crate::plan::rune_rows;
use crate::plan::spendable_outputs;
use crate::plan::spendables;
use crate::plan::store_terms;
use crate::plan::txo_row;
use crate::plan::txo_rows;
use crate::plan::unallocated_from;
use crate::pots::BURNED;
use crate::pots::FIRST_OUTPUT;
use crate::pots::Pots;
use crate::rune::Rune;
use crate::rune_id::RuneId;
use crate::runestone::deciphered;
use crate::script::output_to_address;
use crate::script::to_lowercase;
use crate::spaced_rune::SpacedRune;
use crate::tx::PrevOut;
use crate::tx::Tx;

verus! {

/// The indexer of one block.
#[derive(Clone, Debug, PartialEq, Eq)]
pub struct RuneUpdater {
    pub database: MockDb,
    pub chain: Network,
    /// What was burned in the block so far, of each rune.
    pub burned: Balances,
    pub block_height: u32,
    pub block_time: u32,
}

/// The indexer of a block, as the contracts see it.
pub struct UpdaterView {
    pub database: StoreState,
    pub chain: Network,
    pub burned: Seq<(RuneId, u128)>,
    pub block_height: u32,
    pub block_time: u32,
}

impl View for RuneUpdater {
    type V = UpdaterView;

    open spec fn view(&self) -> UpdaterView {
        UpdaterView {
            database: self.database@,
            chain: self.chain,
            burned: self.burned@,
            block_height: self.block_height,
            block_time: self.block_time,
        }
    }
}

/// What a transaction does to the runes.
#[derive(Clone, Debug, PartialEq, Eq)]
pub struct Outcome {
    /// The message of the transaction.
    pub artifact: Option<Artifact>,
    /// The rune and the amount that the transaction mints.
    pub minted: Option<(RuneId, u128)>,
    /// The identifier and the name of the rune that the transaction etches.
    pub etched: Option<(RuneId, Rune)>,
    /// Where the runes are in the end.
    pub pots: Pots,
    /// What was burned in the block, this transaction included.
    pub burned: Balances,
}

/// What a transaction does to the runes, as the contracts see it.
pub struct Plan {
    pub artifact: Option<ArtifactView>,
    pub minted: Option<(RuneId, u128)>,
    pub etched: Option<(RuneId, Rune)>,
    pub pots: Seq<Seq<(RuneId, u128)>>,
    pub burned: Seq<(RuneId, u128)>,
}

impl View for Outcome {
    type V = Plan;

    open spec fn view(&self) -> Plan {
        Plan {
            artifact: artifact_view(self.artifact),
            minted: self.minted,
            etched: self.etched,
            pots: self.pots@,
            burned: self.burned@,
        }
    }
}

/// The pots of a transaction with `outputs` outputs before anything moved:
/// all that came in is not yet allocated.
pub open spec fn start_pots(unallocated: Seq<(RuneId, u128)>, outputs: nat) -> Seq<
    Seq<(RuneId, u128)>,
> {
    Seq::new(
        outputs + 2,
        |k: int|
            if k == 0 {
                unallocated
            } else {
                Seq::empty()
            },
    )
}

/// `list` with an amount of a rune added, where there is one, unless the sum
/// leaves 128 bits.
pub open spec fn credit_option(list: Seq<(RuneId, u128)>, credit: Option<(RuneId, u128)>)
    -> Option<Seq<(RuneId, u128)>> {
    match credit {
        Some((id, amount)) => credit_checked(list, id, amount),
        None => Some(list),
    }
}

/// The rune and the amount that the etching of a runestone credits.
pub open spec fn premine_credit(artifact: Option<ArtifactView>, etched: Option<(RuneId, Rune)>)
    -> Option<(RuneId, u128)> {
    match (artifact, etched) {
        (Some(ArtifactView::Runestone(_)), Some((id, _))) => Some(
            (id, premine_of(artifact, etched)),
        ),
        _ => None,
    }
}

/// The identifier of the rune that is etched.
pub open spec fn etched_id(etched: Option<(RuneId, Rune)>) -> Option<RuneId> {
    match etched {
        Some((id, _)) => Some(id),
        None => None,
    }
}

/// Why the store refuses the rune that the transaction etches, if it does.
pub open spec fn refusal(
    store: StoreState,
    artifact: Option<ArtifactView>,
    etched: Option<(RuneId, Rune)>,
    tx_id: Seq<char>,
    time: u32,
) -> Option<StoreError> {
    match (artifact, etched) {
        (Some(a), Some((id, rune))) => store.refuses_rune(entry_of(tx_id, a, id, rune, time)),
        _ => None,
    }
}

/// The mint that the message asks for and the store allows.
pub open spec fn mint_now(u: UpdaterView, artifact: Option<ArtifactView>) -> Option<
    (RuneId, u128),
> {
    match artifact {
        Some(a) => minting(u.database, a.mint(), u.block_height as u64),
        None => None,
    }
}

/// The amount of a mint, where there is one.
pub open spec fn mint_amount(minted: Option<(RuneId, u128)>) -> Option<u128> {
    match minted {
        Some((_, amount)) => Some(amount),
        None => None,
    }
}

/// The store after the transaction `tx_id` asked for a mint of the rune `id`
/// in the block of `u`: where the rune can be minted there, its count of
/// mints is one higher and the event of the mint is added; otherwise the
/// store is as it was.
pub open spec fn after_mint(u: UpdaterView, id: RuneId, tx_id: Seq<char>) -> StoreState {
    match minting(u.database, Some(id), u.block_height as u64) {
        Some((_, amount)) => u.database.with_mint(
            place_of_id(u.database.rune_entries, id),
            tx_id,
            amount,
            u.block_height as u64,
            u.block_time,
        ),
        None => u.database,
    }
}

/// The rune that the transaction etches.
pub open spec fn etched_now(
    u: UpdaterView,
    tx_index: u32,
    tx: Tx,
    artifact: Option<ArtifactView>,
    prevouts: Seq<Option<PrevOutView>>,
) -> Result<Option<(RuneId, Rune)>, int> {
    match artifact {
        Some(a) => etched_of(
            u.database,
            u.chain,
            u.block_height,
            tx_index,
            a,
            tx.witnesses(),
            prevouts,
        ),
        None => Ok(None),
    }
}

/// What the transaction `tx`, at place `tx_index` of the block, does to the
/// runes, or why it cannot be indexed. The runes on its inputs, the amount
/// of its mint and the premine of its etching are what is not yet allocated;
/// from there the pots are settled, and what is burned is added to what was
/// burned in the block before.
#[verifier::opaque]
pub open spec fn planned(
    u: UpdaterView,
    tx_index: u32,
    tx: Tx,
    tx_id: Seq<char>,
    prevouts: Seq<Option<PrevOutView>>,
) -> Result<Plan, IndexError> {
    let artifact = deciphered(tx.scripts());
    let minted = mint_now(u, artifact);
    if tx.output@.len() > MAX_OUTPUTS {
        Err(IndexError::TooManyOutputs)
    } else {
        match unallocated_from(u.database, tx.points(), Seq::empty()) {
            None => Err(IndexError::Overflow),
            Some(inputs) => match credit_option(inputs, minted) {
                None => Err(IndexError::Overflow),
                Some(with_mint) => match etched_now(u, tx_index, tx, artifact, prevouts) {
                    Err(place) => Err(IndexError::MissingPrevOut(place as usize)),
                    Ok(etched) => match refusal(
                        u.database,
                        artifact,
                        etched,
                        tx_id,
                        u.block_time,
                    ) {
                        Some(e) => Err(IndexError::Store(e)),
                        None => match credit_option(with_mint, premine_credit(artifact, etched)) {
                            None => Err(IndexError::Overflow),
                            Some(start) => {
                                let pots = settled(
                                    start_pots(start, tx.output@.len()),
                                    orders_of(artifact),
                                    etched_id(etched),
                                    spendables(tx.scripts()),
                                );
                                match merged(u.burned, pots[BURNED as int]) {
                                    None => Err(IndexError::Overflow),
                                    Some(burned) => Ok(
                                        Plan { artifact, minted, etched, pots, burned },
                                    ),
                                }
                            },
                        },
                    },
                },
            },
        }
    }
}

/// The store after the first `upto` of the outputs `points` were spent by
/// the transaction `spender`.
pub open spec fn all_spent(
    store: StoreState,
    points: Seq<(Seq<char>, u32)>,
    spender: Seq<char>,
    upto: int,
) -> StoreState
    decreases upto,
{
    if upto <= 0 {
        store
    } else {
        all_spent(store, points, spender, upto - 1).with_spent(
            points[upto - 1].0,
            points[upto - 1].1,
            spender,
        )
    }
}

/// The event of the transfer that `row` records.
pub open spec fn transfer_event(row: RuneTxoView) -> RuneEventView {
    RuneEventView {
        tx_id: row.tx_id,
        rune_id: row.rune_id,
        block_height: row.block_height,
        amount: row.amount,
        kind: EventKind::Transfer,
        output_index: Some(row.output_index),
        address: row.address,
        timestamp: row.timestamp,
    }
}

/// The store with the rune amounts `rows` added, and the events of their
/// transfers.
pub open spec fn with_rune_txos(store: StoreState, rows: Seq<RuneTxoView>) -> StoreState {
    StoreState {
        rune_txos: store.rune_txos + rows,
        events: store.events + Seq::new(rows.len(), |i: int| transfer_event(rows[i])),
        ..store
    }
}

/// The store with the outputs `rows` added.
pub open spec fn with_txos(store: StoreState, rows: Seq<TxoView>) -> StoreState {
    StoreState { txos: store.txos + rows, ..store }
}

/// The store after the message of a transaction was recorded: its record,
/// its outputs, its mint and its etching.
pub open spec fn with_message(
    store: StoreState,
    u: UpdaterView,
    plan: Plan,
    tx: Tx,
    tx_id: Seq<char>,
) -> StoreState {
    match plan.artifact {
        None => store,
        Some(a) => {
            let recorded = StoreState {
                transactions: store.transactions.push(
                    record_of(tx_id, a, u.block_height, u.block_time),
                ),
                ..store
            };
            let listed = with_txos(
                recorded,
                txo_rows(tx, tx_id, u.chain, u.block_height, u.block_time, tx.output@.len() as int),
            );
            let minted = match plan.minted {
                Some((id, amount)) => match listed.minted(
                    id,
                    tx_id,
                    amount,
                    u.block_height as u64,
                    u.block_time,
                ) {
                    Ok(next) => next,
                    Err(_) => listed,
                },
                None => listed,
            };
            match plan.etched {
                Some((id, rune)) => minted.with_rune(entry_of(tx_id, a, id, rune, u.block_time)),
                None => minted,
            }
        },
    }
}

/// The indexer after the plan of a transaction was applied: the inputs are
/// spent, the message is recorded, the rune amounts of the outputs are
/// added, and what was burned is counted.
#[verifier::opaque]
pub open spec fn applied(u: UpdaterView, plan: Plan, tx: Tx, tx_id: Seq<char>) -> UpdaterView {
    let spent = all_spent(u.database, tx.points(), tx_id, tx.input@.len() as int);
    let recorded = with_message(spent, u, plan, tx, tx_id);
    UpdaterView {
        database: with_rune_txos(
            recorded,
            rune_rows(
                plan.pots,
                tx,
                tx_id,
                u.chain,
                u.block_height,
                u.block_time,
                tx.output@.len() as int,
            ),
        ),
        burned: plan.burned,
        ..u
    }
}

/// The indexer after the transaction `tx` was indexed, or why it cannot be.
pub open spec fn indexed(
    u: UpdaterView,
    tx_index: u32,
    tx: Tx,
    tx_id: Seq<char>,
    prevouts: Seq<Option<PrevOutView>>,
) -> Result<UpdaterView, IndexError> {
    match planned(u, tx_index, tx, tx_id, prevouts) {
        Err(e) => Err(e),
        Ok(plan) => Ok(applied(u, plan, tx, tx_id)),
    }
}

/// The view of amounts that may be absent.
pub open spec fn balances_view(balances: Option<Balances>) -> Option<Seq<(RuneId, u128)>> {
    match balances {
        Some(b) => Some(b@),
        None => None,
    }
}

impl RuneUpdater {
    /// Whether the store is as every store should be and what was burned is
    /// sorted.
    pub open spec fn wf(&self) -> bool {
        self.database.wf() && sorted(self.burned@)
    }

    /// The indexer of the block at `block_height` with the time `block_time`,
    /// on `chain`, over `database`.
    pub fn init(database: MockDb, chain: Network, block_height: u32, block_time: u32) -> (r:
        RuneUpdater)
        ensures
            r@ == (UpdaterView {
                database: database@,
                chain,
                burned: Seq::empty(),
                block_height,
                block_time,
            }),
            database.wf() ==> r.wf(),
    {
        RuneUpdater { database, chain, burned: Balances::new(), block_height, block_time }
    }

    /// The runes that stand on the outputs that `tx` spends, the amounts of
    /// each rune added up; nothing where a sum leaves 128 bits.
    pub fn unallocated(&self, tx: &Tx) -> (r: Option<Balances>)
        ensures
            balances_view(r) == unallocated_from(self.database@, tx.points(), Seq::empty()),
            r matches Some(b) ==> sorted(b@),
    {
        let mut list: Balances = Balances::new();
        let ghost points = tx.points();
        let ghost whole = unallocated_from(self.database@, points, Seq::empty());
        let mut i: usize = 0;
        assert(points.skip(0) =~= points);
        while i < tx.input.len()
            invariant
                i <= tx.input@.len(),
                points == tx.points(),
                sorted(list@),
                whole == unallocated_from(self.database@, points, Seq::empty()),
                whole == unallocated_from(self.database@, points.skip(i as int), list@),
            decreases tx.input@.len() - i,
        {
            let ghost rest = points.skip(i as int);
            assert(rest[0] == points[i as int]);
            assert(rest.skip(1) =~= points.skip(i + 1));
            let rows: Vec<RuneTXO> = self.database.get_runes_txo_by_output_index(
                tx.input[i].previous_output.txid.as_str(),
                tx.input[i].previous_output.vout,
            );
            let ghost found = crate::db::views(rows@);
            let ghost before = list@;
            let mut j: usize = 0;
            assert(found.skip(0) =~= found);
            while j < rows.len()
                invariant
                    j <= rows@.len(),
                    found == crate::db::views(rows@),
                    sorted(list@),
                    whole == unallocated_from(self.database@, tx.points(), Seq::empty()),
                    whole == match gathered(list@, found.skip(j as int)) {
                        None => None,
                        Some(next) => unallocated_from(
                            self.database@,
                            points.skip(i + 1),
                            next,
                        ),
                    },
                decreases rows@.len() - j,
            {
                let ghost tail = found.skip(j as int);
                assert(tail[0] == rows@[j as int]@);
                assert(tail.skip(1) =~= found.skip(j + 1));
                if !credit(&mut list, rows[j].rune_id, rows[j].amount) {
                    return None;
                }
                j = j + 1;
            }
            assert(found.skip(j as int).len() == 0);
            i = i + 1;
        }
        assert(points.skip(i as int).len() == 0);
        Some(list)
    }

    /// The rune and the amount that a mint of `id` in this block gives, where
    /// the store knows the rune and its terms allow the mint. Nothing is
    /// written.
    fn mint_allowed(&self, id: RuneId) -> (r: Option<(RuneId, u128)>)
        ensures
            r == minting(self.database@, Some(id), self.block_height as u64),
            r is Some ==> self.database@.rune(id) is Some && self.database@.rune(
                id,
            )->Some_0.mint_count < u128::MAX,
    {
        let entry: RuneEntry = match self.database.get_rune_by_id(id) {
            Some(entry) => entry,
            None => {
                return None;
            },
        };
        match mintable(&entry, self.block_height as u64) {
            Ok(amount) => Some((id, amount)),
            Err(_) => None,
        }
    }

    /// Mints the rune `id` for the transaction `tx_id`: where the store
    /// knows the rune and its terms allow a mint in this block, one more
    /// mint of the rune is counted, the event of the mint is added, and the
    /// amount of the mint is the result. Otherwise nothing changes and there
    /// is no amount.
    pub fn mint(&mut self, id: RuneId, tx_id: &str) -> (r: Result<Option<u128>, StoreError>)
        requires
            old(self).wf(),
        ensures
            final(self).wf(),
            r == Ok::<Option<u128>, StoreError>(
                mint_amount(minting(old(self)@.database, Some(id), old(self).block_height as u64)),
            ),
            final(self)@ == (UpdaterView {
                database: after_mint(old(self)@, id, tx_id@),
                ..old(self)@
            }),
    {
        let amount: u128 = match self.mint_allowed(id) {
            Some((_, amount)) => amount,
            None => {
                return Ok(None);
            },
        };
        proof {
            lemma_place_of_id_found(self.database@.rune_entries, id);
        }
        match self.database.update_rune_entry_mint_count(
            id,
            tx_id,
            amount,
            self.block_height as u64,
            self.block_time,
        ) {
            Ok(()) => Ok(Some(amount)),
            Err(e) => Err(e),
        }
    }

    /// The identifier and the name of the rune that the transaction etches,
    /// if any; or the place of the input of which too little is known to
    /// tell.
    pub fn etched(
        &self,
        tx_index: u32,
        tx: &Tx,
        artifact: &Artifact,
        prevouts: &Vec<Option<PrevOut>>,
    ) -> (r: Result<Option<(RuneId, Rune)>, usize>)
        ensures
            match r {
                Ok(found) => Ok::<Option<(RuneId, Rune)>, int>(found) == etched_of(
                    self.database@,
                    self.chain,
                    self.block_height,
                    tx_index,
                    artifact@,
                    tx.witnesses(),
                    prevout_views(prevouts@),
                ),
                Err(place) => Err::<Option<(RuneId, Rune)>, int>(place as int) == etched_of(
                    self.database@,
                    self.chain,
                    self.block_height,
                    tx_index,
                    artifact@,
                    tx.witnesses(),
                    prevout_views(prevouts@),
                ),
            },
    {
        let named: Option<Rune> = match artifact {
            Artifact::Runestone(runestone) => match runestone.etching {
                Some(etching) => etching.rune,
                None => {
                    return Ok(None);
                },
            },
            Artifact::Cenotaph(cenotaph) => match cenotaph.etching {
                Some(rune) => Some(rune),
                None => {
                    return Ok(None);
                },
            },
        };
        let id: RuneId = RuneId { block: self.block_height as u64, tx: tx_index };
        let rune: Rune = match named {
            None => {
                return Ok(Some((id, Rune::reserved(self.block_height as u64, tx_index))));
            },
            Some(rune) => rune,
        };
        let least: Rune = Rune::minimum_at_height(self.chain, Height(self.block_height));
        if rune.0 < least.0 || rune.is_reserved() {
            return Ok(None);
        }
        let text: String = rune.to_string();
        if self.database.get_rune_by_raw_name(text.as_str()).is_some() {
            return Ok(None);
        }
        match tx_commits_to_rune(tx, rune, prevouts) {
            Err(place) => Err(place),
            Ok(false) => Ok(None),
            Ok(true) => Ok(Some((id, rune))),
        }
    }

    /// The entry of the rune `rune` with the identifier `id`, etched by the
    /// transaction `tx_id` with the message `artifact`.
    pub fn rune_entry(&self, tx_id: &str, artifact: &Artifact, id: RuneId, rune: Rune) -> (r:
        RuneEntry)
        ensures
            r@ == entry_of(tx_id@, artifact@, id, rune, self.block_time),
    {
        let etching = match artifact {
            Artifact::Runestone(runestone) => runestone.etching,
            Artifact::Cenotaph(_) => None,
        };
        let is_cenotaph: bool = match artifact {
            Artifact::Runestone(_) => false,
            Artifact::Cenotaph(_) => true,
        };
        RuneEntry {
            etching_tx_id: String::from_str(tx_id),
            block_height: id.block,
            rune_id: id,
            name: match etching {
                Some(e) => SpacedRune {
                    rune,
                    spacers: match e.spacers {
                        Some(s) => s,
                        None => 0,
                    },
                }.to_string(),
                None => rune.to_string(),
            },
            raw_name: rune.to_string(),
            symbol: match etching {
                Some(e) => e.symbol,
                None => None,
            },
            divisibility: match etching {
                Some(e) => match e.divisibility {
                    Some(d) => d,
                    None => 0,
                },
                None => 0,
            },
            premine: match etching {
                Some(e) => match e.premine {
                    Some(p) => p,
                    None => 0,
                },
                None => 0,
            },
            terms: match etching {
                Some(e) => store_terms(e.terms),
                None => None,
            },
            burned: 0,
            mint_count: 0,
            timestamp: self.block_time,
            is_cenotaph,
            rune_number: 0,
        }
    }

    /// What the transaction `tx`, at place `tx_index` of the block, does to
    /// the runes. Nothing is written.
    pub fn plan(&self, tx_index: u32, tx: &Tx, tx_id: &str, prevouts: &Vec<Option<PrevOut>>) -> (r:
        Result<Outcome, IndexError>)
        requires
            self.wf(),
        ensures
            match r {
                Ok(outcome) => Ok::<Plan, IndexError>(outcome@) == planned(
                    self@,
                    tx_index,
                    *tx,
                    tx_id@,
                    prevout_views(prevouts@),
                ) && outcome.pots.fit() && outcome.pots@.len() == tx.output@.len() + 2 && sorted(
                    outcome.burned@,
                ),
                Err(e) => Err::<Plan, IndexError>(e) == planned(
                    self@,
                    tx_index,
                    *tx,
                    tx_id@,
                    prevout_views(prevouts@),
                ),
            },
    {
        proof {
            reveal(planned);
        }
        let artifact: Option<Artifact> = crate::artifact::Runestone::decipher(tx);
        let outputs: usize = tx.output.len();
        if outputs > MAX_OUTPUTS {
            return Err(IndexError::TooManyOutputs);
        }
        let mut list: Balances = match self.unallocated(tx) {
            Some(list) => list,
            None => {
                return Err(IndexError::Overflow);
            },
        };
        let minted: Option<(RuneId, u128)> = match &artifact {
            Some(a) => match a.mint() {
                Some(id) => self.mint_allowed(id),
                None => None,
            },
            None => None,
        };
        match minted {
            Some((id, amount)) => {
                if !credit(&mut list, id, amount) {
                    return Err(IndexError::Overflow);
                }
            },
            None => {},
        }
        let etched: Option<(RuneId, Rune)> = match &artifact {
            Some(a) => match self.etched(tx_index, tx, a, prevouts) {
                Ok(found) => found,
                Err(place) => {
                    return Err(IndexError::MissingPrevOut(place));
                },
            },
            None => None,
        };
        match (&artifact, etched) {
            (Some(a), Some((id, rune))) => {
                let entry: RuneEntry = self.rune_entry(tx_id, a, id, rune);
                match self.database.refuses(&entry) {
                    Some(e) => {
                        return Err(IndexError::Store(e));
                    },
                    None => {},
                }
                match a {
                    Artifact::Runestone(runestone) => {
                        let premine: u128 = match runestone.etching {
                            Some(etching) => match etching.premine {
                                Some(p) => p,
                                None => 0,
                            },
                            None => 0,
                        };
                        if !credit(&mut list, id, premine) {
                            return Err(IndexError::Overflow);
                        }
                    },
                    Artifact::Cenotaph(_) => {},
                }
            },
            _ => {},
        }
        let spendable: Vec<bool> = spendable_outputs(tx);
        let ghost start = list@;
        let mut pots: Pots = Pots::new(list, outputs);
        proof {
            let fresh = start_pots(start, outputs as nat);
            assert forall|k: int| 0 <= k < pots@.len() implies #[trigger] pots@[k] == fresh[k] by {
                if k > 0 {
                    assert(pots@[k].len() == 0);
                    assert(pots@[k] =~= fresh[k]);
                }
            }
            assert(pots@ =~= fresh);
        }
        let id: Option<RuneId> = match etched {
            Some((id, _)) => Some(id),
            None => None,
        };
        pots.settle(&artifact, id, &spendable);
        let mut burned: Balances = self.burned.duplicate();
        if !merge(&mut burned, &pots.pots[BURNED]) {
            return Err(IndexError::Overflow);
        }
        Ok(Outcome { artifact, minted, etched, pots, burned })
    }
}

/// Spending outputs changes nothing but the rows of those outputs.
pub proof fn lemma_all_spent_keeps(
    store: StoreState,
    points: Seq<(Seq<char>, u32)>,
    spender: Seq<char>,
    upto: int,
)
    ensures
        all_spent(store, points, spender, upto).rune_entries == store.rune_entries,
        all_spent(store, points, spender, upto).transactions == store.transactions,
        all_spent(store, points, spender, upto).events == store.events,
        all_spent(store, points, spender, upto).blocks == store.blocks,
        all_spent(store, points, spender, upto).block_height == store.block_height,
    decreases upto,
{
    if upto > 0 {
        lemma_all_spent_keeps(store, points, spender, upto - 1);
    }
}

/// Adding rows one after the other is adding them together.
pub proof fn lemma_with_rune_txos_twice(
    store: StoreState,
    first: Seq<RuneTxoView>,
    second: Seq<RuneTxoView>,
)
    ensures
        with_rune_txos(with_rune_txos(store, first), second) == with_rune_txos(
            store,
            first + second,
        ),
{
    let a = with_rune_txos(with_rune_txos(store, first), second);
    let b = with_rune_txos(store, first + second);
    assert(a.rune_txos =~= b.rune_txos);
    assert(a.events =~= b.events);
}

/// Adding one row is adding a list of one.
pub proof fn lemma_with_rune_txo(store: StoreState, rows: Seq<RuneTxoView>, row: RuneTxoView)
    ensures
        with_rune_txos(store, rows).with_rune_txo(row) == with_rune_txos(store, rows.push(row)),
        with_rune_txos(store, Seq::empty()) == store,
{
    let a = with_rune_txos(store, rows).with_rune_txo(row);
    let b = with_rune_txos(store, rows.push(row));
    assert(a.rune_txos =~= b.rune_txos);
    assert(a.events =~= b.events);
    let c = with_rune_txos(store, Seq::empty());
    assert(c.rune_txos =~= store.rune_txos);
    assert(c.events =~= store.events);
}

/// Indexing a transaction adds no block and changes nothing of the block
/// that is being indexed.
pub proof fn lemma_indexed_keeps(
    u: UpdaterView,
    tx_index: u32,
    tx: Tx,
    tx_id: Seq<char>,
    prevouts: Seq<Option<PrevOutView>>,
)
    ensures
        match indexed(u, tx_index, tx, tx_id, prevouts) {
            Ok(next) => next.database.blocks == u.database.blocks && next.database.block_height
                == u.database.block_height && next.chain == u.chain && next.block_height
                == u.block_height && next.block_time == u.block_time,
            Err(_) => true,
        },
{
    reveal(applied);
    lemma_all_spent_keeps(u.database, tx.points(), tx_id, tx.input@.len() as int);
}

/// Indexing a transaction changes of a rune that the store has nothing but
/// the count of its mints: the count is one higher where the message of the
/// transaction asks for a mint of the rune and the store allows it, and as
/// it was otherwise.
pub proof fn lemma_indexed_counts_mint(
    u: UpdaterView,
    tx_index: u32,
    tx: Tx,
    tx_id: Seq<char>,
    prevouts: Seq<Option<PrevOutView>>,
    id: RuneId,
)
    requires
        indexed(u, tx_index, tx, tx_id, prevouts) is Ok,
        u.database.rune(id) is Some,
    ensures
        indexed(u, tx_index, tx, tx_id, prevouts)->Ok_0.database.rune(id) == Some(
            if mint_now(u, deciphered(tx.scripts())) is Some && mint_now(
                u,
                deciphered(tx.scripts()),
            )->Some_0.0 == id {
                RuneEntryView {
                    mint_count: (u.database.rune(id)->Some_0.mint_count + 1) as u128,
                    ..u.database.rune(id)->Some_0
                }
            } else {
                u.database.rune(id)->Some_0
            },
        ),
{
    reveal(planned);
    reveal(applied);
    let plan = planned(u, tx_index, tx, tx_id, prevouts)->Ok_0;
    let before = u.database.rune_entries;
    let place = place_of_id(before, id);
    let spent = all_spent(u.database, tx.points(), tx_id, tx.input@.len() as int);
    lemma_all_spent_keeps(u.database, tx.points(), tx_id, tx.input@.len() as int);
    lemma_place_of_id_found(before, id);
    let recorded = with_message(spent, u, plan, tx, tx_id);
    match plan.artifact {
        None => {},
        Some(a) => {
            let counted = match plan.minted {
                Some((minted, _)) => {
                    let q = place_of_id(before, minted);
                    lemma_place_of_id_found(before, minted);
                    let entry = RuneEntryView {
                        mint_count: (before[q].mint_count + 1) as u128,
                        ..before[q]
                    };
                    lemma_place_of_id_update(before, q, entry, id);
                    before.update(q, entry)
                },
                None => before,
            };
            assert(place_of_id(counted, id) == place);
            match plan.etched {
                Some((etched, rune)) => {
                    let added = RuneEntryView {
                        rune_number: counted.len() as u128,
                        ..entry_of(tx_id, a, etched, rune, u.block_time)
                    };
                    assert(counted.push(added).drop_last() =~= counted);
                    assert(recorded.rune_entries == counted.push(added));
                },
                None => {
                    assert(recorded.rune_entries == counted);
                },
            }
        },
    }
}

/// Indexing a transaction adds a rune to the store exactly where its message
/// etches one: the rune then stands last, under the number that is the
/// count of the runes before it; otherwise there are as many runes as
/// before.
pub proof fn lemma_indexed_etches(
    u: UpdaterView,
    tx_index: u32,
    tx: Tx,
    tx_id: Seq<char>,
    prevouts: Seq<Option<PrevOutView>>,
)
    requires
        indexed(u, tx_index, tx, tx_id, prevouts) is Ok,
    ensures
        etched_now(u, tx_index, tx, deciphered(tx.scripts()), prevouts) is Ok,
        match (
            deciphered(tx.scripts()),
            etched_now(u, tx_index, tx, deciphered(tx.scripts()), prevouts)->Ok_0,
        ) {
            (Some(a), Some((id, rune))) => {
                &&& indexed(u, tx_index, tx, tx_id, prevouts)->Ok_0.database.rune_entries.len()
                    == u.database.rune_entries.len() + 1
                &&& indexed(u, tx_index, tx, tx_id, prevouts)->Ok_0.database.rune_entries.last()
                    == (RuneEntryView {
                    rune_number: u.database.rune_entries.len() as u128,
                    ..entry_of(tx_id, a, id, rune, u.block_time)
                })
            },
            _ => indexed(u, tx_index, tx, tx_id, prevouts)->Ok_0.database.rune_entries.len()
                == u.database.rune_entries.len(),
        },
{
    reveal(planned);
    reveal(applied);
    lemma_all_spent_keeps(u.database, tx.points(), tx_id, tx.input@.len() as int);
}

impl RuneUpdater {
    /// Marks the outputs that `tx` spends as spent by the transaction
    /// `tx_id`.
    pub fn mark_txs_as_spent(&mut self, tx: &Tx, tx_id: &str)
        requires
            old(self).wf(),
        ensures
            final(self).wf(),
            final(self)@ == (UpdaterView {
                database: all_spent(
                    old(self)@.database,
                    tx.points(),
                    tx_id@,
                    tx.input@.len() as int,
                ),
                ..old(self)@
            }),
    {
        let ghost start = self@;
        let ghost points = tx.points();
        let mut i: usize = 0;
        while i < tx.input.len()
            invariant
                i <= tx.input@.len(),
                points == tx.points(),
                self.wf(),
                self@ == (UpdaterView {
                    database: all_spent(start.database, points, tx_id@, i as int),
                    ..start
                }),
            decreases tx.input@.len() - i,
        {
            assert(points[i as int] == (
                tx.input@[i as int].previous_output.txid@,
                tx.input@[i as int].previous_output.vout,
            ));
            self.database.mark_utxo_as_spent(
                tx.input[i].previous_output.txid.as_str(),
                tx.input[i].previous_output.vout,
                tx_id,
            );
            i = i + 1;
        }
    }

    /// Records how the transaction `tx_id` with the message `artifact` was
    /// classified.
    pub fn add_transaction(&mut self, tx_id: &str, artifact: &Artifact)
        requires
            old(self).wf(),
        ensures
            final(self).wf(),
            final(self)@ == (UpdaterView {
                database: StoreState {
                    transactions: old(self)@.database.transactions.push(
                        record_of(tx_id@, artifact@, old(self).block_height, old(self).block_time),
                    ),
                    ..old(self)@.database
                },
                ..old(self)@
            }),
    {
        let record: Transaction = Transaction {
            tx_id: String::from_str(tx_id),
            block_height: self.block_height as u64,
            is_runestone: match artifact {
                Artifact::Runestone(_) => true,
                Artifact::Cenotaph(_) => false,
            },
            is_cenotaph: match artifact {
                Artifact::Runestone(_) => false,
                Artifact::Cenotaph(_) => true,
            },
            cenotaph_message: match artifact {
                Artifact::Runestone(_) => None,
                Artifact::Cenotaph(cenotaph) => Some(cenotaph.flaws.to_string()),
            },
            timestamp: self.block_time,
        };
        self.database.add_transaction(record);
    }

    /// The address of the output at place `o` of `tx`, as it is and in lower
    /// case.
    fn addresses(&self, tx: &Tx, o: usize) -> (r: (Option<String>, Option<String>))
        requires
            o < tx.output@.len(),
        ensures
            crate::db::text(r.0) == crate::script::address_of_script(tx.scripts()[o as int], self.chain),
            crate::db::text(r.1) == crate::plan::lower_address(tx.scripts()[o as int], self.chain),
    {
        let address: Option<String> = output_to_address(&tx.output[o], self.chain);
        assert(tx.scripts()[o as int] == tx.output@[o as int].script_pubkey@);
        let lower: Option<String> = match &address {
            Some(a) => Some(to_lowercase(a.as_str())),
            None => None,
        };
        (address, lower)
    }

    /// Adds a row for each output of `tx`.
    pub fn add_txo(&mut self, tx: &Tx, tx_id: &str)
        requires
            old(self).wf(),
            tx.output@.len() <= MAX_OUTPUTS,
        ensures
            final(self).wf(),
            final(self)@ == (UpdaterView {
                database: with_txos(
                    old(self)@.database,
                    txo_rows(
                        *tx,
                        tx_id@,
                        old(self).chain,
                        old(self).block_height,
                        old(self).block_time,
                        tx.output@.len() as int,
                    ),
                ),
                ..old(self)@
            }),
    {
        let ghost start = self@;
        let mut o: usize = 0;
        proof {
            let none = with_txos(start.database, Seq::empty());
            assert(none.txos =~= start.database.txos);
        }
        while o < tx.output.len()
            invariant
                o <= tx.output@.len() <= MAX_OUTPUTS,
                self.wf(),
                self@ == (UpdaterView {
                    database: with_txos(
                        start.database,
                        txo_rows(
                            *tx,
                            tx_id@,
                            start.chain,
                            start.block_height,
                            start.block_time,
                            o as int,
                        ),
                    ),
                    ..start
                }),
            decreases tx.output@.len() - o,
        {
            let (address, lower) = self.addresses(tx, o);
            let row: TXO = TXO {
                tx_id: String::from_str(tx_id),
                output_index: o as u32,
                block_height: self.block_height as u64,
                value: tx.output[o].value as u128,
                address,
                address_lowercase: lower,
                is_unspent: true,
                spent_tx_id: None,
                timestamp: self.block_time,
            };
            proof {
                assert(tx.values()[o as int] == tx.output@[o as int].value);
                assert(row@ == txo_row(
                    *tx,
                    tx_id@,
                    start.chain,
                    start.block_height,
                    start.block_time,
                    o as int,
                ));
                let rows = txo_rows(
                    *tx,
                    tx_id@,
                    start.chain,
                    start.block_height,
                    start.block_time,
                    o as int,
                );
                assert(start.database.txos + rows.push(row@) =~= (start.database.txos + rows).push(
                    row@,
                ));
            }
            match self.database.add_txo(row) {
                Ok(()) => {},
                Err(_) => {},
            }
            o = o + 1;
        }
    }

    /// Adds a row for each amount of `balances`, in the order of the list, on
    /// the output at place `vout` of `tx`, and the events of the transfers.
    /// No row that was there changes.
    pub fn add_rune_transfers(&mut self, tx: &Tx, tx_id: &str, vout: usize, balances: &Balances)
        requires
            old(self).wf(),
            vout < tx.output@.len() <= MAX_OUTPUTS,
        ensures
            final(self).wf(),
            final(self)@ == (UpdaterView {
                database: with_rune_txos(
                    old(self)@.database,
                    list_rows(
                        balances@,
                        *tx,
                        tx_id@,
                        old(self).chain,
                        old(self).block_height,
                        old(self).block_time,
                        vout as int,
                    ),
                ),
                ..old(self)@
            }),
    {
        let ghost start = self@;
        let mut k: usize = 0;
        proof {
            lemma_with_rune_txo(
                start.database,
                Seq::empty(),
                rune_row(*tx, tx_id@, start.chain, 0, 0, 0, RuneId { block: 0, tx: 0 }, 0),
            );
            assert(list_rows(
                balances@.take(0),
                *tx,
                tx_id@,
                start.chain,
                start.block_height,
                start.block_time,
                vout as int,
            ) =~= Seq::<RuneTxoView>::empty());
        }
        while k < balances.entries.len()
            invariant
                k <= balances@.len(),
                vout < tx.output@.len() <= MAX_OUTPUTS,
                self.wf(),
                self@ == (UpdaterView {
                    database: with_rune_txos(
                        start.database,
                        list_rows(
                            balances@.take(k as int),
                            *tx,
                            tx_id@,
                            start.chain,
                            start.block_height,
                            start.block_time,
                            vout as int,
                        ),
                    ),
                    ..start
                }),
            decreases balances@.len() - k,
        {
            let entry: (RuneId, u128) = balances.entries[k];
            let (address, lower) = self.addresses(tx, vout);
            let row: RuneTXO = RuneTXO {
                tx_id: String::from_str(tx_id),
                output_index: vout as u32,
                block_height: self.block_height as u64,
                rune_id: entry.0,
                amount: entry.1,
                address,
                address_lowercase: lower,
                is_unspent: true,
                spent_tx_id: None,
                timestamp: self.block_time,
            };
            proof {
                let rows = list_rows(
                    balances@.take(k as int),
                    *tx,
                    tx_id@,
                    start.chain,
                    start.block_height,
                    start.block_time,
                    vout as int,
                );
                assert(row@ == rune_row(
                    *tx,
                    tx_id@,
                    start.chain,
                    start.block_height,
                    start.block_time,
                    vout as int,
                    entry.0,
                    entry.1,
                ));
                lemma_with_rune_txo(start.database, rows, row@);
                assert(rows.push(row@) =~= list_rows(
                    balances@.take(k + 1),
                    *tx,
                    tx_id@,
                    start.chain,
                    start.block_height,
                    start.block_time,
                    vout as int,
                ));
            }
            match self.database.add_rune_txo(row) {
                Ok(()) => {},
                Err(_) => {},
            }
            k = k + 1;
        }
        assert(balances@.take(k as int) =~= balances@);
    }

    /// Adds the rune `rune` with the identifier `id`, etched by the
    /// transaction `tx_id` with the message `artifact`, and the event of the
    /// etching.
    pub fn create_rune_entry(&mut self, tx_id: &str, artifact: &Artifact, id: RuneId, rune: Rune)
        -> (r: Result<(), StoreError>)
        requires
            old(self).wf(),
        ensures
            final(self).wf(),
            match r {
                Ok(()) => old(self)@.database.refuses_rune(
                    entry_of(tx_id@, artifact@, id, rune, old(self).block_time),
                ) is None && final(self)@ == (UpdaterView {
                    database: old(self)@.database.with_rune(
                        entry_of(tx_id@, artifact@, id, rune, old(self).block_time),
                    ),
                    ..old(self)@
                }),
                Err(e) => old(self)@.database.refuses_rune(
                    entry_of(tx_id@, artifact@, id, rune, old(self).block_time),
                ) == Some(e) && final(self)@ == old(self)@,
            },
    {
        let entry: RuneEntry = self.rune_entry(tx_id, artifact, id, rune);
        self.database.add_rune_entry(entry)
    }

    /// Indexes the transaction `tx`, which stands at place `tx_index` of the
    /// block and has the identifier `tx_id`. `prevouts` tells, for each
    /// input, what is known of the output that it spends; it is asked for
    /// the inputs that commit to the name that the transaction etches. Where
    /// the transaction cannot be indexed, nothing changes.
    pub fn index_runes(
        &mut self,
        tx_index: u32,
        tx: &Tx,
        tx_id: &str,
        prevouts: &Vec<Option<PrevOut>>,
    ) -> (r: Result<(), IndexError>)
        requires
            old(self).wf(),
        ensures
            final(self).wf(),
            match r {
                Ok(()) => Ok::<UpdaterView, IndexError>(final(self)@) == indexed(
                    old(self)@,
                    tx_index,
                    *tx,
                    tx_id@,
                    prevout_views(prevouts@),
                ),
                Err(e) => Err::<UpdaterView, IndexError>(e) == indexed(
                    old(self)@,
                    tx_index,
                    *tx,
                    tx_id@,
                    prevout_views(prevouts@),
                ) && final(self)@ == old(self)@,
            },
    {
        proof {
            reveal(planned);
            reveal(applied);
        }
        let outcome: Outcome = match self.plan(tx_index, tx, tx_id, prevouts) {
            Ok(outcome) => outcome,
            Err(e) => {
                return Err(e);
            },
        };
        let ghost start = self@;
        let ghost plan = outcome@;
        let ghost inputs = tx.input@.len() as int;
        let ghost outputs = tx.output@.len() as int;
        assert(tx.output@.len() <= MAX_OUTPUTS);
        self.mark_txs_as_spent(tx, tx_id);
        let ghost spent = self@.database;
        proof {
            lemma_all_spent_keeps(start.database, tx.points(), tx_id@, inputs);
        }
        match &outcome.artifact {
            None => {},
            Some(artifact) => {
                self.add_transaction(tx_id, artifact);
                self.add_txo(tx, tx_id);
                let ghost listed = self@.database;
                assert(listed.rune_entries == start.database.rune_entries);
                match outcome.minted {
                    Some((id, _)) => {
                        match self.mint(id, tx_id) {
                            Ok(_) => {},
                            Err(_) => {},
                        }
                    },
                    None => {},
                }
                let ghost minted = self@.database;
                match outcome.etched {
                    Some((id, rune)) => {
                        proof {
                            let entry = entry_of(tx_id@, artifact@, id, rune, start.block_time);
                            let before = start.database.rune_entries;
                            assert(start.database.refuses_rune(entry) is None);
                            if minted.rune_entries != before {
                                let (mint_id, _) = outcome.minted->Some_0;
                                let place = place_of_id(before, mint_id);
                                lemma_place_of_id_found(before, mint_id);
                                lemma_place_of_id_update(
                                    before,
                                    place,
                                    minted.rune_entries[place],
                                    entry.rune_id,
                                );
                                lemma_place_of_name_update(
                                    before,
                                    place,
                                    minted.rune_entries[place],
                                    entry.raw_name,
                                );
                                assert(minted.rune_entries.last().block_height
                                    == before.last().block_height);
                            }
                            assert(minted.refuses_rune(entry) is None);
                        }
                        match self.create_rune_entry(tx_id, artifact, id, rune) {
                            Ok(()) => {},
                            Err(_) => {},
                        }
                    },
                    None => {},
                }
            },
        }
        let ghost recorded = self@.database;
        assert(recorded == with_message(spent, start, plan, *tx, tx_id@));
        let mut o: usize = 0;
        proof {
            lemma_with_rune_txo(
                recorded,
                Seq::empty(),
                rune_row(*tx, tx_id@, start.chain, 0, 0, 0, RuneId { block: 0, tx: 0 }, 0),
            );
        }
        while o < tx.output.len()
            invariant
                o <= tx.output@.len() <= MAX_OUTPUTS,
                outcome.pots@.len() == tx.output@.len() + 2,
                plan == outcome@,
                self.wf(),
                self@ == (UpdaterView {
                    database: with_rune_txos(
                        recorded,
                        rune_rows(
                            plan.pots,
                            *tx,
                            tx_id@,
                            start.chain,
                            start.block_height,
                            start.block_time,
                            o as int,
                        ),
                    ),
                    ..start
                }),
            decreases tx.output@.len() - o,
        {
            let ghost done = rune_rows(
                plan.pots,
                *tx,
                tx_id@,
                start.chain,
                start.block_height,
                start.block_time,
                o as int,
            );
            let unspendable: bool = is_op_return(&tx.output[o].script_pubkey);
            assert(tx.scripts()[o as int] == tx.output@[o as int].script_pubkey@);
            if !unspendable {
                assert(outcome.pots@[FIRST_OUTPUT + o] == outcome.pots.pots@[FIRST_OUTPUT + o]@);
                let held: Balances = outcome.pots.pots[o + FIRST_OUTPUT].positive();
                proof {
                    let list = plan.pots[FIRST_OUTPUT + o];
                    lemma_pot_rows_positive(
                        list,
                        *tx,
                        tx_id@,
                        start.chain,
                        start.block_height,
                        start.block_time,
                        o as int,
                        list.len() as int,
                    );
                    assert(list.take(list.len() as int) =~= list);
                    let more = pot_rows(
                        plan.pots[FIRST_OUTPUT + o],
                        *tx,
                        tx_id@,
                        start.chain,
                        start.block_height,
                        start.block_time,
                        o as int,
                        plan.pots[FIRST_OUTPUT + o].len() as int,
                    );
                    lemma_with_rune_txos_twice(recorded, done, more);
                }
                self.add_rune_transfers(tx, tx_id, o, &held);
            }
            o = o + 1;
        }
        self.burned = outcome.burned;
        Ok(())
    }
}

} // verus!
