use runes_indexer::height::Height;
use runes_indexer::height::DIFFCHANGE_INTERVAL;

#[test]
fn n() {
    assert_eq!(Height(0).n(), 0);
    assert_eq!(Height(1).n(), 1);
}

#[test]
fn add() {
    assert_eq!(Height(0) + 1, 1);
    assert_eq!(Height(1) + 100, 101);
}

#[test]
fn sub() {
    assert_eq!(Height(1) - 1, 0);
    assert_eq!(Height(100) - 50, 50);
}

#[test]
fn eq() {
    assert_eq!(Height(0), 0);
    assert_eq!(Height(100), 100);
}

#[test]
fn period_offset() {
    assert_eq!(Height(0).period_offset(), 0);
    assert_eq!(Height(1).period_offset(), 1);
    assert_eq!(Height(DIFFCHANGE_INTERVAL - 1).period_offset(), 2015);
    assert_eq!(Height(DIFFCHANGE_INTERVAL).period_offset(), 0);
    assert_eq!(Height(DIFFCHANGE_INTERVAL + 1).period_offset(), 1);
}

#[test]
fn constants_are_those_of_the_bitcoin_crate() {
    assert_eq!(DIFFCHANGE_INTERVAL, bitcoin::blockdata::constants::DIFFCHANGE_INTERVAL);
    assert_eq!(
        runes_indexer::network::SUBSIDY_HALVING_INTERVAL,
        bitcoin::blockdata::constants::SUBSIDY_HALVING_INTERVAL
    );
    assert_eq!(
        runes_indexer::network::MAX_SCRIPT_ELEMENT_SIZE,
        bitcoin::blockdata::constants::MAX_SCRIPT_ELEMENT_SIZE
    );
    assert_eq!(runes_indexer::script::OP_RETURN, bitcoin::blockdata::opcodes::all::OP_RETURN.to_u8());
    assert_eq!(
        runes_indexer::script::MAGIC_NUMBER,
        bitcoin::blockdata::opcodes::all::OP_PUSHNUM_13.to_u8()
    );
}
