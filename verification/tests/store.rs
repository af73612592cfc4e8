use runes_indexer::db::Block;
use runes_indexer::db::EventKind;
use runes_indexer::db::RuneEntry;
use runes_indexer::db::RuneTXO;
use runes_indexer::db::Transaction;
use runes_indexer::db::TXO;
use runes_indexer::mock_db::MockDb;
use runes_indexer::mock_db::StoreError;
use runes_indexer::network::Network;
use runes_indexer::rune_id::RuneId;
use runes_indexer::script::output_to_address;
use runes_indexer::tx::TxOut;

fn entry(name: &str, block: u64, tx: u32) -> RuneEntry {
    RuneEntry {
        etching_tx_id: format!("etch-{name}"),
        block_height: block,
        rune_id: RuneId { block, tx },
        name: name.to_string(),
        raw_name: name.to_string(),
        symbol: None,
        divisibility: 0,
        premine: 5,
        terms: None,
        burned: 0,
        mint_count: 0,
        timestamp: 1,
        is_cenotaph: false,
        rune_number: 77,
    }
}

fn amount(tx_id: &str, vout: u32, block: u64, id: RuneId, amount: u128, address: Option<&str>) -> RuneTXO {
    RuneTXO {
        tx_id: tx_id.to_string(),
        output_index: vout,
        block_height: block,
        rune_id: id,
        amount,
        address: address.map(|a| a.to_string()),
        address_lowercase: address.map(|a| a.to_lowercase()),
        is_unspent: true,
        spent_tx_id: None,
        timestamp: 0,
    }
}

#[test]
fn runes_are_numbered_in_order_and_names_are_unique() {
    let mut db = MockDb::new();
    assert_eq!(db.add_rune_entry(entry("AAA", 5, 1)), Ok(()));
    assert_eq!(db.add_rune_entry(entry("BBB", 5, 2)), Ok(()));
    assert_eq!(db.add_rune_entry(entry("AAA", 6, 1)), Err(StoreError::DuplicateName));
    assert_eq!(db.add_rune_entry(entry("CCC", 5, 2)), Err(StoreError::DuplicateId));
    assert_eq!(db.add_rune_entry(entry("CCC", 4, 1)), Err(StoreError::OutOfOrder));
    assert_eq!(db.add_rune_entry(entry("CCC", 7, 0)), Ok(()));
    let numbers: Vec<u128> = db.get_runes().iter().map(|e| e.rune_number).collect();
    assert_eq!(numbers, vec![0, 1, 2]);
    assert_eq!(db.get_rune_count(), 3);
    assert_eq!(db.get_rune_by_id(RuneId { block: 5, tx: 2 }).unwrap().raw_name, "BBB");
    assert_eq!(db.get_rune_by_id(RuneId { block: 9, tx: 9 }), None);
    assert_eq!(db.get_rune_by_raw_name("CCC").unwrap().rune_number, 2);
    assert_eq!(db.get_rune_by_raw_name("ccc"), None);
    assert_eq!(db.events.len(), 3);
    assert!(db.events.iter().all(|e| e.kind == EventKind::Etch && e.amount == 5));
    assert_eq!(db.refuses(&entry("AAA", 9, 9)), Some(StoreError::DuplicateName));
    assert_eq!(db.refuses(&entry("DDD", 9, 9)), None);
}

#[test]
fn counting_mints_and_burns() {
    let mut db = MockDb::new();
    let id = RuneId { block: 5, tx: 1 };
    assert_eq!(db.add_rune_entry(entry("AAA", 5, 1)), Ok(()));
    assert_eq!(db.update_rune_entry_mint_count(id, "m", 10, 6, 2), Ok(()));
    assert_eq!(db.update_rune_entry_mint_count(id, "n", 10, 6, 2), Ok(()));
    assert_eq!(db.get_rune_by_id(id).unwrap().mint_count, 2);
    assert_eq!(db.events.len(), 3);
    assert_eq!(db.events[2].kind, EventKind::Mint);
    let before = db.clone();
    assert_eq!(db.update_rune_entry_mint_count(RuneId { block: 1, tx: 1 }, "m", 1, 6, 2), Ok(()));
    assert_eq!(db.increase_rune_entry_burned(RuneId { block: 1, tx: 1 }, 9), Ok(()));
    assert_eq!(db, before);
    assert_eq!(db.increase_rune_entry_burned(id, 9), Ok(()));
    assert_eq!(db.increase_rune_entry_burned(id, u128::MAX - 9), Ok(()));
    assert_eq!(db.get_rune_by_id(id).unwrap().burned, u128::MAX);
    let before = db.clone();
    assert_eq!(db.increase_rune_entry_burned(id, 1), Err(StoreError::Overflow));
    assert_eq!(db, before);
    db.rune_entries[0].mint_count = u128::MAX;
    let before = db.clone();
    assert_eq!(db.update_rune_entry_mint_count(id, "m", 10, 6, 2), Err(StoreError::Overflow));
    assert_eq!(db, before);
    db.add_rune_burn_event(id, "", 3, 8, 9);
    assert_eq!(db.events.last().unwrap().kind, EventKind::Burn);
}

#[test]
fn spending_and_balances() {
    let mut db = MockDb::new();
    let a = RuneId { block: 5, tx: 1 };
    let b = RuneId { block: 5, tx: 2 };
    let address = "1BoatSLRHtKNngkdXEeobR76b53LETtpyT";
    assert_eq!(db.add_rune_txo(amount("t1", 0, 5, a, 10, Some(address))), Ok(()));
    assert_eq!(db.add_rune_txo(amount("t1", 0, 5, b, 20, Some(address))), Ok(()));
    assert_eq!(db.add_rune_txo(amount("t1", 1, 5, a, 30, Some(address))), Ok(()));
    assert_eq!(db.add_rune_txo(amount("t2", 0, 6, a, 40, Some("other"))), Ok(()));
    assert_eq!(db.add_rune_txo(amount("t2", 1, 6, a, 50, None)), Ok(()));
    let mut bad = amount("t3", 0, 6, a, 1, None);
    bad.is_unspent = false;
    let before = db.clone();
    assert_eq!(db.add_rune_txo(bad), Err(StoreError::Inconsistent));
    let mut bad = amount("t3", 0, 6, a, 1, None);
    bad.spent_tx_id = Some("x".to_string());
    assert_eq!(db.add_rune_txo(bad), Err(StoreError::Inconsistent));
    assert_eq!(db, before);
    assert_eq!(db.events.len(), 5);
    assert!(db.events.iter().all(|e| e.kind == EventKind::Transfer));

    assert_eq!(db.get_address_balance_by_rune_id(address, a), Ok(40));
    assert_eq!(db.get_address_balance_by_rune_id(&address.to_uppercase(), a), Ok(40));
    assert_eq!(db.get_address_balance_by_rune_id(&address.to_lowercase(), b), Ok(20));
    assert_eq!(db.get_address_balance_by_rune_id("nobody", a), Ok(0));
    assert_eq!(db.get_runes_txo_by_output_index("t1", 0).len(), 2);
    assert_eq!(db.get_runes_txo_by_output_index("T1", 0).len(), 0);
    assert_eq!(db.get_address_runes_txo(address).len(), 3);
    assert_eq!(db.get_address_runes_utxo_by_rune_id(address, a).len(), 2);

    db.mark_utxo_as_spent("t1", 0, "t9");
    assert!(db.rune_txos.iter().all(|r| r.is_unspent == r.spent_tx_id.is_none()));
    let spent: Vec<bool> = db.rune_txos.iter().map(|r| !r.is_unspent).collect();
    assert_eq!(spent, vec![true, true, false, false, false]);
    assert_eq!(db.rune_txos[0].spent_tx_id, Some("t9".to_string()));
    assert_eq!(db.get_address_balance_by_rune_id(address, a), Ok(30));
    assert_eq!(db.get_address_balance_by_rune_id(address, b), Ok(0));
    assert_eq!(db.get_address_runes_utxo_by_rune_id(address, a).len(), 1);
    assert_eq!(db.get_address_runes_txo(address).len(), 3);
    let touched: Vec<String> = db
        .get_transaction_runes_txo("t9")
        .iter()
        .map(|r| format!("{}:{}", r.tx_id, r.output_index))
        .collect();
    assert_eq!(touched, vec!["t1:0", "t1:0"]);

    assert_eq!(db.get_address_balance_list(address).unwrap().entries, vec![(a, 30)]);
    assert_eq!(db.get_address_balance_list("OTHER").unwrap().entries, vec![(a, 40)]);
    assert_eq!(db.get_address_balance_list("nobody").unwrap().entries, vec![]);
    assert_eq!(db.add_rune_txo(amount("t5", 0, 7, b, 2, Some(address))), Ok(()));
    assert_eq!(db.add_rune_txo(amount("t5", 1, 7, a, 3, Some(address))), Ok(()));
    assert_eq!(db.get_address_balance_list(address).unwrap().entries, vec![(a, 33), (b, 2)]);
    assert_eq!(db.add_rune_txo(amount("t4", 0, 7, a, u128::MAX, Some(address))), Ok(()));
    assert_eq!(db.get_address_balance_by_rune_id(address, a), Err(StoreError::Overflow));
    assert_eq!(db.get_address_balance_list(address), Err(StoreError::Overflow));
    assert_eq!(db.get_address_balance_by_rune_id(address, b), Ok(2));
}

#[test]
fn outputs_and_records() {
    let mut db = MockDb::new();
    let txo = |tx_id: &str, vout: u32, block: u64| TXO {
        tx_id: tx_id.to_string(),
        output_index: vout,
        block_height: block,
        value: 1,
        address: None,
        address_lowercase: None,
        is_unspent: true,
        spent_tx_id: None,
        timestamp: 0,
    };
    assert_eq!(db.add_txo(txo("a", 0, 1)), Ok(()));
    assert_eq!(db.add_txo(txo("a", 1, 1)), Ok(()));
    let mut bad = txo("a", 2, 1);
    bad.is_unspent = false;
    assert_eq!(db.add_txo(bad), Err(StoreError::Inconsistent));
    assert_eq!(db.get_txo("a", 1).unwrap().output_index, 1);
    assert_eq!(db.get_txo("a", 2), None);
    db.mark_utxo_as_spent("a", 1, "b");
    assert_eq!(db.get_txo("a", 1).unwrap().spent_tx_id, Some("b".to_string()));
    assert!(!db.get_txo("a", 1).unwrap().is_unspent);
    assert!(db.get_txo("a", 0).unwrap().is_unspent);
    db.add_transaction(Transaction {
        tx_id: "b".to_string(),
        block_height: 2,
        is_runestone: true,
        is_cenotaph: false,
        cenotaph_message: None,
        timestamp: 0,
    });
    assert_eq!(db.get_transaction("b").unwrap().block_height, 2);
    db.set_block_height(9);
    assert_eq!(db.get_block_height(), 9);
    assert_eq!(db.insert_block(Block { height: 3, hash: "h3".to_string(), timestamp: 0 }), Ok(()));
    assert_eq!(db.get_block_height(), 3);
    db.reorg_blocks(1);
    assert_eq!(db.get_block_height(), 1);
    assert!(db.transactions.is_empty() && db.blocks.is_empty());
    assert!(db.get_txo("a", 1).unwrap().is_unspent);
    assert_eq!(db.get_txo("a", 1).unwrap().spent_tx_id, None);
}

#[test]
fn addresses_of_scripts() {
    let mut script = vec![0x76, 0xa9, 0x14];
    script.extend_from_slice(&[0u8; 20]);
    script.extend_from_slice(&[0x88, 0xac]);
    let output = TxOut { value: 1, script_pubkey: script };
    assert_eq!(
        output_to_address(&output, Network::Bitcoin),
        Some("1111111111111111111114oLvT2".to_string())
    );
    assert_eq!(
        output_to_address(&output, Network::Testnet),
        Some("mfWxJ45yp2SFn7UciZyNpvDKrzbhyfKrY8".to_string())
    );
    let data = TxOut { value: 0, script_pubkey: vec![0x6a, 0x01, 0x02] };
    assert_eq!(output_to_address(&data, Network::Bitcoin), None);
    let mut updater = runes_indexer::rune_updaters::RuneUpdater::init(
        MockDb::new(),
        Network::Bitcoin,
        1,
        1,
    );
    let tx = runes_indexer::tx::Tx { input: Vec::new(), output: vec![output, data] };
    updater.add_txo(&tx, "t");
    assert_eq!(
        updater.database.txos[0].address,
        Some("1111111111111111111114oLvT2".to_string())
    );
    assert_eq!(
        updater.database.txos[0].address_lowercase,
        Some("1111111111111111111114olvt2".to_string())
    );
    assert_eq!(updater.database.txos[1].address, None);
    assert_eq!(runes_indexer::plan::spendable_outputs(&tx), vec![true, false]);
}

#[test]
fn an_amount_keeps_its_address_in_lower_case() {
    let mut db = MockDb::new();
    let id = RuneId { block: 5, tx: 1 };
    let mut wrong = amount("t1", 0, 5, id, 10, Some("AbC"));
    wrong.address_lowercase = Some("AbC".to_string());
    assert_eq!(db.add_rune_txo(wrong), Err(StoreError::Inconsistent));
    let mut missing = amount("t1", 0, 5, id, 10, Some("AbC"));
    missing.address_lowercase = None;
    assert_eq!(db.add_rune_txo(missing), Err(StoreError::Inconsistent));
    let mut extra = amount("t1", 0, 5, id, 10, None);
    extra.address_lowercase = Some("abc".to_string());
    assert_eq!(db.add_rune_txo(extra), Err(StoreError::Inconsistent));
    assert_eq!(db, MockDb::new());
    assert_eq!(db.add_rune_txo(amount("t1", 0, 5, id, 10, Some("AbC"))), Ok(()));
    assert_eq!(db.add_rune_txo(amount("t1", 1, 5, id, 5, Some("aBc"))), Ok(()));
    assert_eq!(db.add_rune_txo(amount("t1", 2, 5, id, 1, Some("abd"))), Ok(()));
    assert_eq!(db.rune_txos[0].address_lowercase, Some("abc".to_string()));
    assert_eq!(db.get_address_balance_by_rune_id("ABC", id), Ok(15));
    assert_eq!(db.get_address_balance_by_rune_id("abc", id), Ok(15));
    assert_eq!(db.get_address_balance_by_rune_id("abd", id), Ok(1));
    let before = db.clone();
    assert_eq!(db.get_address_balance_by_rune_id("Abc", id), Ok(15));
    assert_eq!(db, before);
}
