use runes_indexer::artifact::Runestone;
use runes_indexer::db::EventKind;
use runes_indexer::db::RuneEvent;
use runes_indexer::db::RuneTXO;
use runes_indexer::edict::Edict;
use runes_indexer::etching::Etching;
use runes_indexer::etching::Terms;
use runes_indexer::indexer::BlockData;
use runes_indexer::indexer::BlockError;
use runes_indexer::indexer::Indexer;
use runes_indexer::indexer::TxData;
use runes_indexer::mock_db::MockDb;
use runes_indexer::network::Network;
use runes_indexer::plan::IndexError;
use runes_indexer::reorg::Recoverable;
use runes_indexer::reorg::Reorg;
use runes_indexer::reorg::ReorgStep;
use runes_indexer::rune::Rune;
use runes_indexer::rune_id::RuneId;
use runes_indexer::rune_updaters::RuneUpdater;
use runes_indexer::tx::OutPoint;
use runes_indexer::tx::PrevOut;
use runes_indexer::tx::Tx;
use runes_indexer::tx::TxIn;
use runes_indexer::tx::TxOut;

fn spendable() -> Vec<u8> {
    vec![0x51]
}

fn taproot_script() -> Vec<u8> {
    let mut script = vec![0x51, 0x20];
    script.extend_from_slice(&[7u8; 32]);
    script
}

fn input(txid: &str, vout: u32) -> TxIn {
    TxIn { previous_output: OutPoint { txid: txid.to_string(), vout }, witness: Vec::new() }
}

fn committing_input(txid: &str, vout: u32, rune: Rune) -> TxIn {
    let commitment = rune.commitment();
    let mut tapscript = vec![commitment.len() as u8];
    tapscript.extend_from_slice(&commitment);
    tapscript.push(0xac);
    TxIn {
        previous_output: OutPoint { txid: txid.to_string(), vout },
        witness: vec![vec![1, 2, 3], tapscript, vec![0xc0; 33]],
    }
}

fn tx(inputs: Vec<TxIn>, scripts: Vec<Vec<u8>>) -> Tx {
    Tx {
        input: inputs,
        output: scripts
            .into_iter()
            .map(|script_pubkey| TxOut { value: 546, script_pubkey })
            .collect(),
    }
}

fn stone() -> Runestone {
    Runestone { edicts: Vec::new(), etching: None, mint: None, pointer: None }
}

fn etching(rune: Option<Rune>, premine: Option<u128>, terms: Option<Terms>) -> Etching {
    Etching { divisibility: None, premine, rune, spacers: None, symbol: None, terms }
}

fn amounts(db: &MockDb) -> Vec<(String, u32, RuneId, u128, bool)> {
    db.rune_txos
        .iter()
        .map(|r| (r.tx_id.clone(), r.output_index, r.rune_id, r.amount, r.is_unspent))
        .collect()
}

fn kinds(events: &[RuneEvent]) -> Vec<EventKind> {
    events.iter().map(|e| e.kind).collect()
}

fn etch_with_premine(db: MockDb, height: u32, premine: u128) -> (MockDb, RuneId) {
    let mut updater = RuneUpdater::init(db, Network::Regtest, height, 1000);
    let message = Runestone {
        etching: Some(etching(None, Some(premine), None)),
        pointer: Some(0),
        ..stone()
    };
    let etch = tx(vec![input("aa", 0)], vec![spendable(), message.encipher()]);
    assert_eq!(updater.index_runes(1, &etch, "etch", &vec![None]), Ok(()));
    assert_eq!(updater.update(), Ok(()));
    (updater.database, RuneId { block: u64::from(height), tx: 1 })
}

#[test]
fn simple_etching_with_premine() {
    let rune = Rune::from_str("UNCOMMONGOODS").unwrap();
    let message = Runestone {
        etching: Some(Etching {
            divisibility: Some(0),
            premine: Some(1000),
            rune: Some(rune),
            spacers: Some(128),
            symbol: None,
            terms: None,
        }),
        pointer: Some(0),
        ..stone()
    };
    let etch = tx(
        vec![committing_input("commit", 0, rune)],
        vec![taproot_script(), message.encipher()],
    );
    let prevouts = vec![Some(PrevOut { script_pubkey: taproot_script(), confirmations: Some(6) })];
    let mut updater = RuneUpdater::init(MockDb::new(), Network::Bitcoin, 840_000, 1_713_571_767);
    assert_eq!(updater.index_runes(1, &etch, "etchtx", &prevouts), Ok(()));
    assert_eq!(updater.update(), Ok(()));
    let db = updater.database;
    assert_eq!(db.rune_entries.len(), 1);
    let entry = &db.rune_entries[0];
    assert_eq!(entry.rune_number, 0);
    assert_eq!(entry.rune_id, RuneId { block: 840_000, tx: 1 });
    assert_eq!(entry.raw_name, "UNCOMMONGOODS");
    assert_eq!(entry.name, "UNCOMMON\u{2022}GOODS");
    assert_eq!(entry.premine, 1000);
    assert_eq!(entry.divisibility, 0);
    assert_eq!(entry.block_height, 840_000);
    assert_eq!(entry.etching_tx_id, "etchtx");
    assert_eq!(entry.timestamp, 1_713_571_767);
    assert!(!entry.is_cenotaph);
    assert_eq!(entry.terms, None);
    assert_eq!(
        amounts(&db),
        vec![("etchtx".to_string(), 0, RuneId { block: 840_000, tx: 1 }, 1000, true)]
    );
    assert_eq!(kinds(&db.events), vec![EventKind::Etch, EventKind::Transfer]);
    assert_eq!(db.events[0].amount, 1000);
    assert_eq!(db.events[1].output_index, Some(0));
    assert_eq!(db.transactions.len(), 1);
    assert!(db.transactions[0].is_runestone && !db.transactions[0].is_cenotaph);
    assert_eq!(db.transactions[0].cenotaph_message, None);
    assert_eq!(db.txos.len(), 2);
    let address = db.rune_txos[0].address.clone().unwrap();
    assert!(address.starts_with("bc1p"));
    assert_eq!(db.rune_txos[0].address_lowercase, Some(address.to_lowercase()));
    assert_eq!(db.get_rune_by_raw_name("UNCOMMONGOODS").unwrap().rune_number, 0);
    assert_eq!(db.get_rune_by_etched_tx_id("etchtx").unwrap().raw_name, "UNCOMMONGOODS");
    assert_eq!(db.get_rune_by_etched_tx_id("other"), None);
    assert_eq!(db.get_rune_count(), 1);
}

#[test]
fn etching_needs_a_commitment() {
    let rune = Rune::from_str("UNCOMMONGOODS").unwrap();
    let message = Runestone { etching: Some(etching(Some(rune), Some(1), None)), ..stone() };
    let scripts = vec![taproot_script(), message.encipher()];
    let good = Some(PrevOut { script_pubkey: taproot_script(), confirmations: Some(6) });
    let run = |inputs: Vec<TxIn>, prevouts: Vec<Option<PrevOut>>| {
        let mut updater = RuneUpdater::init(MockDb::new(), Network::Bitcoin, 840_000, 0);
        let result = updater.index_runes(1, &tx(inputs, scripts.clone()), "t", &prevouts);
        (result, updater.database.rune_entries.len())
    };
    assert_eq!(run(vec![committing_input("c", 0, rune)], vec![good.clone()]), (Ok(()), 1));
    assert_eq!(run(vec![input("c", 0)], vec![good.clone()]), (Ok(()), 0));
    assert_eq!(run(vec![committing_input("c", 0, Rune(rune.0 + 1))], vec![good.clone()]), (Ok(()), 0));
    let young = Some(PrevOut { script_pubkey: taproot_script(), confirmations: Some(5) });
    assert_eq!(run(vec![committing_input("c", 0, rune)], vec![young]), (Ok(()), 0));
    let unconfirmed = Some(PrevOut { script_pubkey: taproot_script(), confirmations: None });
    assert_eq!(run(vec![committing_input("c", 0, rune)], vec![unconfirmed]), (Ok(()), 0));
    let legacy = Some(PrevOut { script_pubkey: spendable(), confirmations: Some(100) });
    assert_eq!(run(vec![committing_input("c", 0, rune)], vec![legacy.clone()]), (Ok(()), 0));
    assert_eq!(
        run(vec![committing_input("c", 0, rune)], vec![None]),
        (Err(IndexError::MissingPrevOut(0)), 0)
    );
    assert_eq!(
        run(vec![input("x", 0), committing_input("c", 0, rune)], vec![None]),
        (Err(IndexError::MissingPrevOut(1)), 0)
    );
    assert_eq!(
        run(
            vec![committing_input("d", 0, rune), committing_input("c", 0, rune)],
            vec![legacy, good.clone()]
        ),
        (Ok(()), 1)
    );
    let mut with_annex = committing_input("c", 0, rune);
    with_annex.witness.push(vec![0x50, 1]);
    assert_eq!(run(vec![with_annex], vec![good.clone()]), (Ok(()), 1));
    let mut shifted = committing_input("c", 0, rune);
    shifted.witness.push(vec![0x51, 1]);
    assert_eq!(run(vec![shifted], vec![good.clone()]), (Ok(()), 0));
    assert_eq!(
        runes_indexer::commit::commit_inputs(
            &tx(vec![input("x", 0), committing_input("c", 0, rune)], scripts.clone()),
            rune
        ),
        vec![false, true]
    );
}

#[test]
fn etching_rules_for_names() {
    let good = Some(PrevOut { script_pubkey: taproot_script(), confirmations: Some(6) });
    let run = |db: MockDb, rune: Rune, height: u32| {
        let message = Runestone { etching: Some(etching(Some(rune), None, None)), ..stone() };
        let mut updater = RuneUpdater::init(db, Network::Bitcoin, height, 0);
        let result = updater.index_runes(
            1,
            &tx(vec![committing_input("c", 0, rune)], vec![message.encipher()]),
            &format!("t{height}"),
            &vec![good.clone()],
        );
        assert_eq!(result, Ok(()));
        updater.database
    };
    let minimum = Rune::from_str("AAAAAAAAAAAAA").unwrap();
    assert_eq!(run(MockDb::new(), minimum, 840_000).rune_entries.len(), 1);
    assert_eq!(run(MockDb::new(), Rune(minimum.0 - 1), 840_000).rune_entries.len(), 0);
    assert_eq!(run(MockDb::new(), Rune(minimum.0 - 1), 857_500).rune_entries.len(), 1);
    assert_eq!(run(MockDb::new(), Rune(0), 1_050_000).rune_entries.len(), 1);
    let reserved = Rune(runes_indexer::rune::RESERVED);
    assert_eq!(run(MockDb::new(), reserved, 1_050_000).rune_entries.len(), 0);
    let once = run(MockDb::new(), minimum, 840_000);
    let twice = run(once, minimum, 840_001);
    assert_eq!(twice.rune_entries.len(), 1);
    let other = run(twice, Rune(minimum.0 + 1), 840_002);
    assert_eq!(other.rune_entries.len(), 2);
    assert_eq!(other.rune_entries[1].rune_number, 1);
    assert_eq!(other.rune_entries[1].rune_id, RuneId { block: 840_002, tx: 1 });
}

#[test]
fn mint_within_window() {
    let terms = Terms {
        amount: Some(10),
        cap: Some(5),
        height: (None, None),
        offset: (Some(0), Some(100)),
    };
    let mut updater = RuneUpdater::init(MockDb::new(), Network::Regtest, 1000, 1);
    let message = Runestone { etching: Some(etching(None, None, Some(terms))), ..stone() };
    let etch = tx(vec![input("aa", 0)], vec![spendable(), message.encipher()]);
    assert_eq!(updater.index_runes(1, &etch, "etch", &vec![]), Ok(()));
    assert_eq!(updater.update(), Ok(()));
    let id = RuneId { block: 1000, tx: 1 };
    let entry = updater.database.get_rune_by_id(id).unwrap();
    assert_eq!(entry.raw_name, Rune::reserved(1000, 1).to_string());
    assert_eq!(entry.mint_count, 0);
    assert_eq!(runes_indexer::mint::mintable(&entry, 1050), Ok(10));
    assert_eq!(runes_indexer::mint::mintable(&entry, 999), Err(runes_indexer::mint::MintError::Start(1000)));
    assert_eq!(runes_indexer::mint::mintable(&entry, 1100), Err(runes_indexer::mint::MintError::End(1100)));
    assert_eq!(runes_indexer::mint::mint_start(&entry), Some(1000));
    assert_eq!(runes_indexer::mint::mint_end(&entry), Some(1100));

    let mint_message = Runestone { mint: Some(id), pointer: Some(0), ..stone() };
    let mint = tx(vec![input("bb", 0)], vec![spendable(), mint_message.encipher()]);
    let mut updater = RuneUpdater::init(updater.database, Network::Regtest, 1050, 2);
    assert_eq!(updater.index_runes(3, &mint, "mint", &vec![]), Ok(()));
    assert_eq!(updater.update(), Ok(()));
    assert_eq!(updater.database.get_rune_by_id(id).unwrap().mint_count, 1);
    assert_eq!(amounts(&updater.database), vec![("mint".to_string(), 0, id, 10, true)]);
    assert_eq!(
        kinds(&updater.database.events),
        vec![EventKind::Etch, EventKind::Mint, EventKind::Transfer]
    );
    assert_eq!(updater.database.events[1].amount, 10);
    assert_eq!(updater.database.events[1].tx_id, "mint");

    let before = updater.database.clone();
    let mut updater = RuneUpdater::init(updater.database, Network::Regtest, 1100, 3);
    assert_eq!(updater.index_runes(1, &mint, "late", &vec![]), Ok(()));
    assert_eq!(updater.update(), Ok(()));
    assert_eq!(updater.database.rune_entries, before.rune_entries);
    assert_eq!(updater.database.rune_txos, before.rune_txos);
    assert_eq!(updater.database.events, before.events);
    assert_eq!(updater.database.transactions.len(), before.transactions.len() + 1);
}

#[test]
fn mint_stops_at_the_cap() {
    let terms = Terms { amount: Some(3), cap: Some(2), height: (None, None), offset: (None, None) };
    let mut updater = RuneUpdater::init(MockDb::new(), Network::Regtest, 10, 1);
    let message = Runestone { etching: Some(etching(None, None, Some(terms))), ..stone() };
    let etch = tx(vec![], vec![spendable(), message.encipher()]);
    assert_eq!(updater.index_runes(0, &etch, "etch", &vec![]), Ok(()));
    let id = RuneId { block: 10, tx: 0 };
    let mint_message = Runestone { mint: Some(id), ..stone() };
    let mint = tx(vec![], vec![spendable(), mint_message.encipher()]);
    for (i, expected) in [(1u32, 1u128), (2, 2), (3, 2)] {
        assert_eq!(updater.index_runes(i, &mint, &format!("m{i}"), &vec![]), Ok(()));
        assert_eq!(updater.database.get_rune_by_id(id).unwrap().mint_count, expected);
    }
    let entry = updater.database.get_rune_by_id(id).unwrap();
    assert_eq!(
        runes_indexer::mint::mintable(&entry, 10),
        Err(runes_indexer::mint::MintError::Cap(2))
    );
    assert_eq!(updater.database.rune_txos.len(), 2);
    let no_terms = etch_with_premine(MockDb::new(), 5, 1).0;
    assert_eq!(
        runes_indexer::mint::mintable(&no_terms.rune_entries[0], 5),
        Err(runes_indexer::mint::MintError::Unmintable)
    );
}

#[test]
fn edict_for_all_outputs_with_amount_zero_shares_evenly() {
    let (db, id) = etch_with_premine(MockDb::new(), 100, 100);
    let message = Runestone {
        edicts: vec![Edict { id, amount: 0, output: 3 }],
        ..stone()
    };
    let spend = tx(vec![input("etch", 0)], vec![spendable(), spendable(), message.encipher()]);
    let mut updater = RuneUpdater::init(db, Network::Regtest, 101, 5);
    assert_eq!(updater.index_runes(1, &spend, "spend", &vec![]), Ok(()));
    assert!(updater.burned.entries.iter().all(|(_, amount)| *amount == 0));
    assert_eq!(updater.update(), Ok(()));
    assert_eq!(
        amounts(&updater.database),
        vec![
            ("etch".to_string(), 0, id, 100, false),
            ("spend".to_string(), 0, id, 50, true),
            ("spend".to_string(), 1, id, 50, true),
        ]
    );
    assert_eq!(updater.database.rune_txos[0].spent_tx_id, Some("spend".to_string()));
    assert_eq!(updater.database.get_rune_by_id(id).unwrap().burned, 0);
    assert!(!kinds(&updater.database.events).contains(&EventKind::Burn));
}

#[test]
fn shares_that_do_not_come_out_even() {
    let (db, id) = etch_with_premine(MockDb::new(), 100, 100);
    let message = Runestone { edicts: vec![Edict { id, amount: 0, output: 4 }], ..stone() };
    let spend = tx(
        vec![input("etch", 0)],
        vec![spendable(), message.encipher(), spendable(), spendable()],
    );
    let mut updater = RuneUpdater::init(db, Network::Regtest, 101, 5);
    assert_eq!(updater.index_runes(1, &spend, "spend", &vec![]), Ok(()));
    assert_eq!(
        amounts(&updater.database)[1..],
        [
            ("spend".to_string(), 0, id, 34, true),
            ("spend".to_string(), 2, id, 33, true),
            ("spend".to_string(), 3, id, 33, true),
        ]
    );
}

#[test]
fn edict_for_all_outputs_with_an_amount_gives_until_nothing_is_left() {
    let (db, id) = etch_with_premine(MockDb::new(), 100, 100);
    let message = Runestone { edicts: vec![Edict { id, amount: 40, output: 4 }], ..stone() };
    let spend = tx(
        vec![input("etch", 0)],
        vec![spendable(), spendable(), spendable(), message.encipher()],
    );
    let mut updater = RuneUpdater::init(db, Network::Regtest, 101, 5);
    assert_eq!(updater.index_runes(1, &spend, "spend", &vec![]), Ok(()));
    assert_eq!(
        amounts(&updater.database)[1..],
        [
            ("spend".to_string(), 0, id, 40, true),
            ("spend".to_string(), 1, id, 40, true),
            ("spend".to_string(), 2, id, 20, true),
        ]
    );
}

#[test]
fn edicts_in_order_and_the_rest_to_the_first_output() {
    let (db, id) = etch_with_premine(MockDb::new(), 100, 100);
    let message = Runestone {
        edicts: vec![
            Edict { id, amount: 30, output: 1 },
            Edict { id: RuneId { block: 9, tx: 9 }, amount: 5, output: 1 },
            Edict { id: RuneId { block: 0, tx: 0 }, amount: 5, output: 1 },
            Edict { id, amount: 500, output: 2 },
            Edict { id, amount: 1, output: 1 },
        ],
        ..stone()
    };
    let spend = tx(
        vec![input("etch", 0), input("none", 7)],
        vec![message.encipher(), spendable(), spendable()],
    );
    let mut updater = RuneUpdater::init(db, Network::Regtest, 101, 5);
    assert_eq!(updater.index_runes(1, &spend, "spend", &vec![]), Ok(()));
    assert_eq!(
        amounts(&updater.database)[1..],
        [("spend".to_string(), 1, id, 30, true), ("spend".to_string(), 2, id, 70, true)]
    );
    let plain = tx(vec![input("spend", 2)], vec![vec![0x6a], spendable(), spendable()]);
    assert_eq!(updater.index_runes(2, &plain, "plain", &vec![]), Ok(()));
    assert_eq!(
        amounts(&updater.database)[2..],
        [("spend".to_string(), 2, id, 70, false), ("plain".to_string(), 1, id, 70, true)]
    );
    assert_eq!(updater.database.transactions.len(), 2);
    let burn = tx(vec![input("plain", 1)], vec![vec![0x6a]]);
    assert_eq!(updater.index_runes(3, &burn, "burn", &vec![]), Ok(()));
    assert_eq!(updater.burned.entries, vec![(id, 70)]);
    assert_eq!(updater.database.rune_txos.len(), 4);
}

#[test]
fn pointer_to_op_return_burns() {
    let (db, id) = etch_with_premine(MockDb::new(), 100, 100);
    let message = Runestone {
        edicts: vec![Edict { id, amount: 60, output: 0 }],
        pointer: Some(2),
        ..stone()
    };
    let spend = tx(vec![input("etch", 0)], vec![spendable(), spendable(), message.encipher()]);
    let mut updater = RuneUpdater::init(db, Network::Regtest, 101, 5);
    assert_eq!(updater.index_runes(1, &spend, "spend", &vec![]), Ok(()));
    assert_eq!(updater.burned.entries, vec![(id, 40)]);
    assert_eq!(updater.database.get_rune_by_id(id).unwrap().burned, 0);
    assert_eq!(updater.update(), Ok(()));
    assert!(updater.burned.entries.is_empty());
    assert_eq!(updater.database.get_rune_by_id(id).unwrap().burned, 40);
    assert_eq!(amounts(&updater.database)[1..], [("spend".to_string(), 0, id, 60, true)]);
    let burn = updater.database.events.last().unwrap();
    assert_eq!(burn.kind, EventKind::Burn);
    assert_eq!((burn.rune_id, burn.amount, burn.block_height), (id, 40, 101));
    assert_eq!(updater.update(), Ok(()));
    assert_eq!(updater.database.get_rune_by_id(id).unwrap().burned, 40);
}

#[test]
fn cenotaph_burns_what_comes_in() {
    let (db, id) = etch_with_premine(MockDb::new(), 100, 100);
    let script = vec![0x6a, 0x5d, 0x02, 126, 0];
    let spend = tx(vec![input("etch", 0)], vec![spendable(), script]);
    let mut updater = RuneUpdater::init(db, Network::Regtest, 101, 5);
    assert_eq!(updater.index_runes(1, &spend, "broken", &vec![]), Ok(()));
    let record = updater.database.get_transaction("broken").unwrap();
    assert!(record.is_cenotaph && !record.is_runestone);
    assert_eq!(record.cenotaph_message, Some("unrecognised_even_tag".to_string()));
    assert_eq!(amounts(&updater.database), vec![("etch".to_string(), 0, id, 100, false)]);
    assert_eq!(updater.burned.entries, vec![(id, 100)]);
    assert_eq!(updater.update(), Ok(()));
    assert_eq!(updater.database.get_rune_by_id(id).unwrap().burned, 100);
    assert_eq!(updater.database.get_transaction("missing"), None);
    assert_eq!(updater.database.get_transactions().len(), 2);
}

#[test]
fn cenotaph_can_take_a_name_and_nothing_more() {
    let rune = Rune::from_str("AAAAAAAAAAAAAB").unwrap();
    let mut payload = Vec::new();
    for n in [2u128, 1, 4, rune.0, 6, 500, 126, 0] {
        runes_indexer::varint::encode_to_vec(n, &mut payload);
    }
    let mut script = vec![0x6a, 0x5d, payload.len() as u8];
    script.extend_from_slice(&payload);
    let good = Some(PrevOut { script_pubkey: taproot_script(), confirmations: Some(6) });
    let etch = tx(vec![committing_input("c", 0, rune)], vec![spendable(), script]);
    let mut updater = RuneUpdater::init(MockDb::new(), Network::Regtest, 7, 5);
    assert_eq!(updater.index_runes(2, &etch, "ceno", &vec![good]), Ok(()));
    let entry = updater.database.get_rune_by_id(RuneId { block: 7, tx: 2 }).unwrap();
    assert!(entry.is_cenotaph);
    assert_eq!(entry.raw_name, "AAAAAAAAAAAAAB");
    assert_eq!(entry.name, "AAAAAAAAAAAAAB");
    assert_eq!((entry.premine, entry.terms, entry.mint_count), (0, None, 0));
    assert!(updater.database.rune_txos.is_empty());
    assert_eq!(kinds(&updater.database.events), vec![EventKind::Etch]);
}

#[test]
fn what_comes_in_is_what_goes_out_and_what_is_burned() {
    let (db, first) = etch_with_premine(MockDb::new(), 100, 1000);
    let mut updater = RuneUpdater::init(db, Network::Regtest, 101, 5);
    let terms = Terms { amount: Some(7), cap: Some(9), height: (None, None), offset: (None, None) };
    let message = Runestone { etching: Some(etching(None, Some(50), Some(terms))), ..stone() };
    let etch = tx(vec![], vec![spendable(), message.encipher()]);
    assert_eq!(updater.index_runes(0, &etch, "second", &vec![]), Ok(()));
    let second = RuneId { block: 101, tx: 0 };
    let message = Runestone {
        edicts: vec![
            Edict { id: first, amount: 0, output: 5 },
            Edict { id: second, amount: 11, output: 5 },
            Edict { id: second, amount: 3, output: 4 },
        ],
        mint: Some(second),
        pointer: Some(1),
        ..stone()
    };
    let spend = tx(
        vec![input("etch", 0), input("second", 0)],
        vec![spendable(), vec![0x6a, 0x00], spendable(), message.encipher(), spendable()],
    );
    let outcome = updater.plan(1, &spend, "spend", &vec![]).unwrap();
    assert_eq!(outcome.minted, Some((second, 7)));
    for (id, came_in) in [(first, 1000u128), (second, 57)] {
        let held: u128 = [0usize, 2, 4]
            .iter()
            .map(|o| outcome.pots.pots[o + 2].get(id))
            .sum();
        let burned = outcome.pots.pots[1].get(id);
        assert_eq!(held + burned, came_in);
        assert_eq!(outcome.pots.pots[0].get(id), 0);
        assert_eq!(outcome.pots.pots[3].get(id) + outcome.pots.pots[5].get(id), 0);
    }
    assert_eq!(outcome.pots.pots[1].entries, vec![(second, 21)]);
    assert_eq!(updater.index_runes(1, &spend, "spend", &vec![]), Ok(()));
    let rows: Vec<(u32, RuneId, u128)> = updater
        .database
        .get_transaction_runes_txo("spend")
        .iter()
        .filter(|r| r.tx_id == "spend")
        .map(|r| (r.output_index, r.rune_id, r.amount))
        .collect();
    assert_eq!(
        rows,
        vec![(0, first, 334), (0, second, 11), (2, first, 333), (2, second, 11), (4, first, 333), (4, second, 14)]
    );
    assert_eq!(updater.burned.entries, vec![(second, 21)]);
}

#[test]
fn a_transaction_that_cannot_be_indexed_changes_nothing() {
    let (mut db, id) = etch_with_premine(MockDb::new(), 100, u128::MAX);
    let extra = RuneTXO {
        tx_id: "more".to_string(),
        output_index: 0,
        block_height: 100,
        rune_id: id,
        amount: 1,
        address: None,
        address_lowercase: None,
        is_unspent: true,
        spent_tx_id: None,
        timestamp: 0,
    };
    assert_eq!(db.add_rune_txo(extra), Ok(()));
    let mut updater = RuneUpdater::init(db, Network::Regtest, 101, 5);
    let before = updater.clone();
    let spend = tx(vec![input("etch", 0), input("more", 0)], vec![spendable()]);
    assert_eq!(updater.index_runes(1, &spend, "spend", &vec![]), Err(IndexError::Overflow));
    assert_eq!(updater, before);
    assert_eq!(updater.unallocated(&spend), None);
    let one = tx(vec![input("etch", 0)], vec![spendable()]);
    assert_eq!(updater.unallocated(&one).unwrap().entries, vec![(id, u128::MAX)]);
    let message = Runestone { etching: Some(etching(None, None, None)), ..stone() };
    let again = tx(vec![], vec![message.encipher()]);
    let mut clash = RuneUpdater::init(updater.database.clone(), Network::Regtest, 100, 5);
    let before = clash.clone();
    assert_eq!(
        clash.index_runes(1, &again, "again", &vec![]),
        Err(IndexError::Store(runes_indexer::mock_db::StoreError::DuplicateName))
    );
    assert_eq!(clash, before);
    let mut early = RuneUpdater::init(updater.database.clone(), Network::Regtest, 99, 5);
    assert_eq!(
        early.index_runes(1, &again, "again", &vec![]),
        Err(IndexError::Store(runes_indexer::mock_db::StoreError::OutOfOrder))
    );
}

fn block(height: u32, hash: &str, prev: &str, txs: Vec<(&str, Tx)>) -> BlockData {
    BlockData {
        height,
        hash: hash.to_string(),
        prev_blockhash: prev.to_string(),
        time: height + 1_000_000,
        txdata: txs
            .into_iter()
            .map(|(tx_id, tx)| TxData {
                tx_id: tx_id.to_string(),
                prevouts: vec![None; tx.input.len()],
                tx,
            })
            .collect(),
    }
}

fn chain_blocks() -> (BlockData, BlockData, BlockData, BlockData) {
    let etch_message = Runestone {
        etching: Some(etching(None, Some(100), None)),
        pointer: Some(0),
        ..stone()
    };
    let first = block(
        10,
        "h10",
        "h9",
        vec![("coinbase", tx(vec![], vec![spendable()])), ("etch", tx(vec![], vec![spendable(), etch_message.encipher()]))],
    );
    let id = RuneId { block: 10, tx: 1 };
    let stale_message = Runestone { edicts: vec![Edict { id, amount: 60, output: 1 }], ..stone() };
    let stale = block(
        11,
        "h11",
        "h10",
        vec![("stale", tx(vec![input("etch", 0)], vec![stale_message.encipher(), spendable(), spendable()]))],
    );
    let fresh_message = Runestone { edicts: vec![Edict { id, amount: 25, output: 2 }], ..stone() };
    let fresh = block(
        11,
        "h11b",
        "h10",
        vec![("fresh", tx(vec![input("etch", 0)], vec![fresh_message.encipher(), spendable(), spendable()]))],
    );
    let next = block(
        12,
        "h12b",
        "h11b",
        vec![("next", tx(vec![input("fresh", 2)], vec![spendable()]))],
    );
    (first, stale, fresh, next)
}

#[test]
fn reorg_of_one_block() {
    let (first, stale, fresh, next) = chain_blocks();
    let mut direct = Indexer::new(Network::Regtest, MockDb::new());
    assert_eq!(direct.index_block(&first), Ok(()));
    assert_eq!(direct.index_block(&fresh), Ok(()));
    assert_eq!(direct.index_block(&next), Ok(()));

    let mut indexer = Indexer::new(Network::Regtest, MockDb::new());
    assert_eq!(indexer.start_height(), Some(1));
    assert_eq!(indexer.index_block(&first), Ok(()));
    assert_eq!(indexer.index_block(&stale), Ok(()));
    assert_eq!(indexer.start_height(), Some(12));
    assert_eq!(indexer.database.get_block_height(), 11);
    let before = indexer.clone();
    assert_eq!(indexer.index_block(&next), Err(BlockError::Reorg));
    assert_eq!(indexer, before);

    let mut known: Vec<String> = Vec::new();
    let step = Reorg::detect_and_handle_reorg(&mut indexer.database, "h11b", 12, &known);
    assert_eq!(step, ReorgStep::Ask(1));
    known.push("h11b".to_string());
    let step = Reorg::detect_and_handle_reorg(&mut indexer.database, "h11b", 12, &known);
    assert_eq!(step, ReorgStep::Ask(2));
    assert_eq!(indexer, before);
    known.push("h10".to_string());
    let step = Reorg::detect_and_handle_reorg(&mut indexer.database, "h11b", 12, &known);
    assert_eq!(step, ReorgStep::Recovered(Recoverable { height: 12, depth: 2 }));
    assert_eq!(indexer.start_height(), Some(11));
    assert_eq!(indexer.database.get_block_height(), 10);
    assert_eq!(indexer.database.get_latest_block().unwrap().hash, "h10");
    assert_eq!(indexer.database.get_block_by_height(11), None);
    assert_eq!(
        amounts(&indexer.database),
        vec![("etch".to_string(), 0, RuneId { block: 10, tx: 1 }, 100, true)]
    );
    assert_eq!(
        Reorg::detect_and_handle_reorg(&mut indexer.database, "h10", 11, &Vec::new()),
        ReorgStep::NoReorg
    );
    assert_eq!(indexer.index_block(&fresh), Ok(()));
    assert_eq!(indexer.index_block(&next), Ok(()));
    assert_eq!(indexer, direct);
    assert_eq!(indexer.database.blocks.len(), 3);
}

#[test]
fn reorg_too_deep() {
    let mut db = MockDb::new();
    for h in 0..30u64 {
        let row = runes_indexer::db::Block { height: h, hash: format!("a{h}"), timestamp: 0 };
        assert_eq!(db.insert_block(row), Ok(()));
    }
    let late = runes_indexer::db::Block { height: 5, hash: "x".to_string(), timestamp: 0 };
    assert_eq!(db.insert_block(late), Err(runes_indexer::mock_db::StoreError::OutOfOrder));
    let before = db.clone();
    let mut known: Vec<String> = Vec::new();
    for depth in 1..=20u32 {
        assert_eq!(
            Reorg::detect_and_handle_reorg(&mut db, "b29", 30, &known),
            ReorgStep::Ask(depth)
        );
        known.push(format!("b{}", 30 - depth));
    }
    assert_eq!(Reorg::detect_and_handle_reorg(&mut db, "b29", 30, &known), ReorgStep::TooDeep);
    assert_eq!(db, before);
    known[19] = "a10".to_string();
    assert_eq!(
        Reorg::detect_and_handle_reorg(&mut db, "b29", 30, &known),
        ReorgStep::Recovered(Recoverable { height: 30, depth: 20 })
    );
    assert_eq!(db.blocks.len(), 11);
    assert_eq!(Reorg::detect_and_handle_reorg(&mut db, "zz", 0, &known), ReorgStep::NoReorg);
    assert_eq!(Reorg::detect_and_handle_reorg(&mut db, "zz", 50, &known), ReorgStep::NoReorg);
    assert_eq!(Reorg::detect_and_handle_reorg(&mut db, "a10", 11, &known), ReorgStep::NoReorg);
    assert_eq!(
        Reorg::detect_and_handle_reorg(&mut db, "zz", 2, &vec!["p".to_string(), "q".to_string()]),
        ReorgStep::TooDeep
    );
}

#[test]
fn reorg_needs_a_stored_block() {
    let mut db = MockDb::new();
    for (h, hash) in [(5u64, "a5"), (7, "a7")] {
        let row = runes_indexer::db::Block { height: h, hash: hash.to_string(), timestamp: 0 };
        assert_eq!(db.insert_block(row), Ok(()));
    }
    let before = db.clone();
    let mut known: Vec<String> = Vec::new();
    assert_eq!(Reorg::detect_and_handle_reorg(&mut db, "b7", 8, &known), ReorgStep::Ask(1));
    known.push("b7".to_string());
    assert_eq!(Reorg::detect_and_handle_reorg(&mut db, "b7", 8, &known), ReorgStep::Ask(2));
    known.push("b6".to_string());
    assert_eq!(Reorg::detect_and_handle_reorg(&mut db, "b7", 8, &known), ReorgStep::Ask(3));
    assert_eq!(db, before);
    known.push("a5".to_string());
    assert_eq!(
        Reorg::detect_and_handle_reorg(&mut db, "b7", 8, &known),
        ReorgStep::Recovered(Recoverable { height: 8, depth: 3 })
    );
    assert_eq!(db.blocks.len(), 1);
    assert_eq!(db.get_block_height(), 5);
}

#[test]
fn rollback_twice_is_rollback_once() {
    let (first, stale, _, _) = chain_blocks();
    let mut indexer = Indexer::new(Network::Regtest, MockDb::new());
    assert_eq!(indexer.index_block(&first), Ok(()));
    let at_ten = indexer.database.clone();
    assert_eq!(indexer.index_block(&stale), Ok(()));
    assert!(indexer.database != at_ten);
    let mut once = indexer.database.clone();
    once.reorg_blocks(10);
    assert_eq!(once, at_ten);
    let mut twice = once.clone();
    twice.reorg_blocks(10);
    assert_eq!(twice, once);
    let mut all = indexer.database.clone();
    all.reorg_blocks(11);
    assert_eq!(all, indexer.database);
    let mut none = indexer.database.clone();
    none.reorg_blocks(9);
    assert_eq!(none, MockDb { statistics: runes_indexer::db::Statistics { block_height: 9 }, ..MockDb::new() });
}

#[test]
fn blocks_are_taken_in_order() {
    let (first, stale, fresh, _) = chain_blocks();
    let mut indexer = Indexer::new(Network::Regtest, MockDb::new());
    assert_eq!(indexer.index_block(&stale), Ok(()));
    assert_eq!(indexer.index_block(&first), Err(BlockError::OutOfOrder));
    assert_eq!(indexer.index_block(&fresh), Err(BlockError::OutOfOrder));
    let mut indexer = Indexer::new(Network::Bitcoin, MockDb::new());
    assert_eq!(indexer.start_height(), Some(840_001));
    assert_eq!(indexer.index_block(&first), Ok(()));
    let mut wrong = fresh.clone();
    wrong.prev_blockhash = "other".to_string();
    assert_eq!(indexer.index_block(&wrong), Err(BlockError::Reorg));
}

#[test]
fn going_back_keeps_what_was_counted_on_a_rune() {
    let terms = Terms { amount: Some(3), cap: Some(9), height: (None, None), offset: (None, None) };
    let message = Runestone { etching: Some(etching(None, Some(10), Some(terms))), pointer: Some(0), ..stone() };
    let first = block(10, "h10", "h9", vec![("etch", tx(vec![], vec![spendable(), message.encipher()]))]);
    let id = RuneId { block: 10, tx: 0 };
    let mint = Runestone { mint: Some(id), ..stone() };
    let second = block(
        11,
        "h11",
        "h10",
        vec![
            ("mint", tx(vec![], vec![spendable(), mint.encipher()])),
            ("plain", tx(vec![input("etch", 0)], vec![vec![0x6a]])),
        ],
    );
    let mut indexer = Indexer::new(Network::Regtest, MockDb::new());
    assert_eq!(indexer.index_block(&first), Ok(()));
    let at_ten = indexer.database.clone();
    assert_eq!(indexer.index_block(&second), Ok(()));
    let entry = indexer.database.get_rune_by_id(id).unwrap();
    assert_eq!((entry.mint_count, entry.burned), (1, 10));
    indexer.database.reorg_blocks(10);
    let entry = indexer.database.get_rune_by_id(id).unwrap();
    assert_eq!((entry.mint_count, entry.burned), (1, 10));
    assert_eq!(indexer.database.rune_txos.len(), 1);
    assert_eq!(indexer.database.rune_txos[0].spent_tx_id, Some("plain".to_string()));
    assert_eq!(indexer.database.events, at_ten.events);
    assert_eq!(indexer.database.blocks, at_ten.blocks);
    assert_eq!(indexer.database.transactions, at_ten.transactions);
    assert!(indexer.database != at_ten);
}

#[test]
fn pointer_beyond_the_outputs_falls_back_to_the_first_output() {
    use_pots();
}

fn use_pots() {
    let id = RuneId { block: 3, tx: 1 };
    let settle = |pointer: Option<u32>, spendable: Vec<bool>| {
        let mut list = runes_indexer::balances::Balances::new();
        assert!(list.add(id, 10));
        let mut pots = runes_indexer::pots::Pots::new(list, spendable.len());
        let message = runes_indexer::artifact::Artifact::Runestone(Runestone { pointer, ..stone() });
        pots.settle(&Some(message), None, &spendable);
        pots.pots.iter().map(|pot| pot.get(id)).collect::<Vec<u128>>()
    };
    assert_eq!(settle(Some(9), vec![false, true]), vec![0, 0, 0, 10]);
    assert_eq!(settle(None, vec![false, true]), vec![0, 0, 0, 10]);
    assert_eq!(settle(Some(1), vec![true, true]), vec![0, 0, 0, 10]);
    assert_eq!(settle(Some(0), vec![false, true]), vec![0, 10, 0, 0]);
    assert_eq!(settle(Some(9), vec![false, false]), vec![0, 10, 0, 0]);
    assert_eq!(settle(None, vec![]), vec![0, 10]);
}

#[test]
fn mint_counts_the_mint() {
    let terms = Terms {
        amount: Some(10),
        cap: Some(5),
        height: (None, None),
        offset: (Some(0), Some(100)),
    };
    let mut updater = RuneUpdater::init(MockDb::new(), Network::Regtest, 1000, 1);
    let message = Runestone { etching: Some(etching(None, None, Some(terms))), ..stone() };
    let etch = tx(vec![input("aa", 0)], vec![spendable(), message.encipher()]);
    assert_eq!(updater.index_runes(1, &etch, "etch", &vec![]), Ok(()));
    let other = tx(vec![input("ab", 0)], vec![spendable(), message.encipher()]);
    assert_eq!(updater.index_runes(2, &other, "etch2", &vec![]), Ok(()));
    let id = RuneId { block: 1000, tx: 1 };

    let mut updater = RuneUpdater::init(updater.database, Network::Regtest, 1050, 7);
    let before = updater.clone();
    assert_eq!(updater.mint(id, "m1"), Ok(Some(10)));
    assert_eq!(updater.database.rune_entries[0].mint_count, 1);
    let mut counted = before.database.rune_entries.clone();
    counted[0].mint_count = 1;
    assert_eq!(updater.database.rune_entries, counted);
    assert_eq!(updater.database.events.len(), before.database.events.len() + 1);
    assert_eq!(updater.database.events[..2], before.database.events[..]);
    let event = updater.database.events.last().unwrap();
    assert_eq!(event.kind, EventKind::Mint);
    assert_eq!(event.rune_id, id);
    assert_eq!(event.tx_id, "m1");
    assert_eq!(event.amount, 10);
    assert_eq!(event.block_height, 1050);
    assert_eq!(event.timestamp, 7);
    assert_eq!(event.output_index, None);
    assert_eq!(updater.database.rune_txos, before.database.rune_txos);
    assert_eq!(updater.database.txos, before.database.txos);
    assert_eq!(updater.database.transactions, before.database.transactions);
    assert_eq!(updater.burned, before.burned);

    let before = updater.clone();
    assert_eq!(updater.mint(RuneId { block: 1000, tx: 9 }, "m2"), Ok(None));
    assert_eq!(updater, before);
    let mut late = RuneUpdater::init(updater.database, Network::Regtest, 1100, 8);
    let before = late.clone();
    assert_eq!(late.mint(id, "m3"), Ok(None));
    assert_eq!(late, before);
    let mut early = RuneUpdater::init(late.database, Network::Regtest, 999, 8);
    assert_eq!(early.mint(id, "m4"), Ok(None));
    let mut again = RuneUpdater::init(early.database, Network::Regtest, 1099, 9);
    for count in 2..=5u128 {
        assert_eq!(again.mint(id, "m5"), Ok(Some(10)));
        assert_eq!(again.database.rune_entries[0].mint_count, count);
    }
    assert_eq!(again.mint(id, "m6"), Ok(None));
    assert_eq!(again.database.rune_entries[0].mint_count, 5);
    assert_eq!(again.database.rune_entries[1].mint_count, 0);
}

#[test]
fn a_row_for_each_amount_of_the_list() {
    let mut updater = RuneUpdater::init(MockDb::new(), Network::Regtest, 20, 3);
    let (a, b, c) = (RuneId { block: 5, tx: 1 }, RuneId { block: 5, tx: 2 }, RuneId { block: 6, tx: 0 });
    let pays = tx(vec![], vec![spendable(), taproot_script()]);
    let first = runes_indexer::balances::Balances { entries: vec![(a, 7)] };
    updater.add_rune_transfers(&pays, "t", 0, &first);
    let before = updater.database.rune_txos.clone();
    let list = runes_indexer::balances::Balances { entries: vec![(b, 4), (a, 0), (c, 9)] };
    updater.add_rune_transfers(&pays, "t", 1, &list);
    assert_eq!(
        amounts(&updater.database),
        vec![
            ("t".to_string(), 0, a, 7, true),
            ("t".to_string(), 1, b, 4, true),
            ("t".to_string(), 1, a, 0, true),
            ("t".to_string(), 1, c, 9, true),
        ]
    );
    assert_eq!(updater.database.rune_txos[..1], before[..]);
    for row in &updater.database.rune_txos[1..] {
        assert_eq!(row.spent_tx_id, None);
        assert_eq!(row.block_height, 20);
        assert_eq!(row.timestamp, 3);
        assert_eq!(row.address_lowercase, row.address.as_ref().map(|x| x.to_lowercase()));
    }
    assert!(updater.database.rune_txos[1].address.is_some());
    assert_eq!(kinds(&updater.database.events), vec![EventKind::Transfer; 4]);
    assert_eq!(list.positive().entries, vec![(b, 4), (c, 9)]);
}

#[test]
fn a_witness_is_read_where_it_fits() {
    let rune = Rune(1234567);
    let commitment = rune.commitment();
    let spend = committing_input("c", 0, rune);
    assert!(runes_indexer::commit::witness_fits(&spend.witness));
    assert!(runes_indexer::commit::witness_fits(&Vec::new()));
    assert!(runes_indexer::commit::witness_fits(&vec![vec![0u8; 70_000], Vec::new()]));
    assert!(runes_indexer::commit::witness_commits(&spend.witness, &commitment));
    assert!(!runes_indexer::commit::witness_commits(&spend.witness, &Rune(7).commitment()));
    let mut annexed = spend.witness.clone();
    annexed.push(vec![0x50, 1]);
    assert!(runes_indexer::commit::witness_commits(&annexed, &commitment));
    assert!(runes_indexer::commit::witness_commits(&annexed[1..].to_vec(), &commitment));
    assert!(!runes_indexer::commit::witness_commits(&annexed[2..].to_vec(), &commitment));
}
