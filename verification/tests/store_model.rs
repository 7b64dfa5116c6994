use xprotocol::address::Address;
use xprotocol::handle::{ProposalAduitState, ProposalRelation, ProposalState};
use xprotocol::store::StoreDB;

fn addr(tail: u8) -> Address {
    Address { bytes: vec![tail; 20] }
}

#[test]
fn relation_writes_are_insert_if_absent() {
    let mut store = StoreDB::init_db(1);
    store.write_relation(7, addr(0xAA), ProposalRelation::Trade);
    store.write_relation(7, addr(0xAA), ProposalRelation::Trade);
    assert_eq!(store.relations.len(), 1);
    store.write_relation(7, addr(0xAA), ProposalRelation::Liquidity);
    assert_eq!(store.relations.len(), 2);
}

#[test]
fn price_writes_are_keyed_by_proposal_and_timestamp() {
    let mut store = StoreDB::init_db(1);
    store.write_price(7, 1000, [50, 50]);
    store.write_price(7, 1000, [30, 70]); // same key: ignored, values kept
    assert_eq!(store.prices.len(), 1);
    assert_eq!(store.prices[0].token1, 50);
    assert_eq!(store.prices[0].token2, 50);
    store.write_price(7, 1001, [30, 70]);
    assert_eq!(store.prices.len(), 2);
}

#[test]
fn replaying_a_log_range_adds_no_rows() {
    let mut store = StoreDB::init_db(1);
    // one "range" of effects
    store.write_relation(1, addr(1), ProposalRelation::Create);
    store.write_relation(1, addr(2), ProposalRelation::Trade);
    store.write_price(1, 500, [50, 50]);
    let relations = store.relations.len();
    let prices = store.prices.len();
    // the same range replayed after a crash
    store.write_relation(1, addr(1), ProposalRelation::Create);
    store.write_relation(1, addr(2), ProposalRelation::Trade);
    store.write_price(1, 500, [50, 50]);
    assert_eq!(store.relations.len(), relations);
    assert_eq!(store.prices.len(), prices);
}

#[test]
fn proposal_upsert_keeps_untouched_columns() {
    let mut store = StoreDB::init_db(1);
    store.write_proposals(3, addr(3), 2, addr(9), ProposalState::Original, 1000, [10, 20]);
    store.write_volume24(3, 777);
    store.write_volume(3, 888);
    // a replayed creation keeps the recomputed volumes and the audit state
    store.write_proposals(3, addr(3), 2, addr(9), ProposalState::Original, 1000, [10, 20]);
    assert_eq!(store.proposals.len(), 1);
    assert_eq!(store.proposals[0].volume24, 777);
    assert_eq!(store.proposals[0].volume, 888);
    assert_eq!(store.proposals[0].audit_state, ProposalAduitState::NotReviewed);
}

#[test]
fn volume24_write_for_fresh_id_creates_default_row() {
    let mut store = StoreDB::init_db(1);
    store.write_volume24(9, 123);
    assert_eq!(store.proposals.len(), 1);
    assert_eq!(store.proposals[0].proposal_id, 9);
    assert_eq!(store.proposals[0].volume24, 123);
    assert_eq!(store.proposals[0].volume, 0);
}

#[test]
fn audit_state_updates_by_address_only_when_known() {
    let mut store = StoreDB::init_db(1);
    store.write_proposals(3, addr(3), 2, addr(9), ProposalState::Original, 1000, [10, 20]);
    store.write_proposal_audit_state(addr(3), ProposalAduitState::Passed);
    assert_eq!(store.proposals[0].audit_state, ProposalAduitState::Passed);
    store.write_proposal_audit_state(addr(4), ProposalAduitState::NotPassed);
    assert_eq!(store.proposals.len(), 1);
    assert_eq!(store.proposals[0].audit_state, ProposalAduitState::Passed);
}

#[test]
fn cursor_row_updates_block_and_keeps_step() {
    let mut store = StoreDB::init_db(5);
    assert_eq!(store.read_block(5), (1, 100));
    store.write_block_hight(5, 4242);
    assert_eq!(store.read_block(5), (4242, 100));
    // a chain without a row reads the default cursor
    assert_eq!(store.read_block(6), (0, 100));
}

#[test]
fn coin_rows_keep_their_first_symbol() {
    let mut store = StoreDB::init_db(1);
    store.write_coins_support("0xaa".to_string(), "USDX".to_string(), true);
    store.write_coins_support("0xaa".to_string(), "OTHER".to_string(), false);
    let rows = store.read_coins_support();
    assert_eq!(rows.len(), 1);
    assert_eq!(rows[0].1, "USDX");
    assert!(!rows[0].2);
}
