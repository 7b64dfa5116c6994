use xprotocol::abi::{CallKind, EventParam, EventSchema, FunctionSchema, ParamKind, RawLog};
use xprotocol::address::Address;
use xprotocol::factory::{Factory, FactoryAbi};
use xprotocol::handle::{ProposalAduitState, ProposalRelation, ProposalState};
use xprotocol::proposals::{HistoryUpdate, Proposal, ProposalAbi};
use xprotocol::router::{Router, RouterAbi};
use xprotocol::state::{AppData, PushData};
use xprotocol::store::StoreDB;
use xprotocol::ws::{SubOpCode, XWsSub};
use xprotocol::events::Log;

fn be_word_u128(v: u128) -> Vec<u8> {
    let mut w = vec![0u8; 16];
    w.extend_from_slice(&v.to_be_bytes());
    w
}

fn addr_word(tail: u8) -> Vec<u8> {
    let mut w = vec![0u8; 12];
    w.extend_from_slice(&[tail; 20]);
    w
}

fn bool_word(b: bool) -> Vec<u8> {
    let mut w = vec![0u8; 31];
    w.push(if b { 1 } else { 0 });
    w
}

fn topic_word(tag: u8) -> Vec<u8> {
    vec![tag; 32]
}

fn addr(tail: u8) -> Address {
    Address { bytes: vec![tail; 20] }
}

fn uint_event(tag: u8, n: usize) -> EventSchema {
    EventSchema {
        topic: topic_word(tag),
        params: vec![EventParam { kind: ParamKind::Uint, indexed: false }; n],
    }
}

fn factory_abi() -> FactoryAbi {
    FactoryAbi {
        support_markets: EventSchema {
            topic: topic_word(0x10),
            params: vec![EventParam { kind: ParamKind::Address, indexed: false }],
        },
        settlement_currency_paused: EventSchema {
            topic: topic_word(0x11),
            params: vec![EventParam { kind: ParamKind::Address, indexed: false }],
        },
        create_proposal: EventSchema {
            topic: topic_word(0x12),
            params: vec![
                EventParam { kind: ParamKind::Uint, indexed: false },
                EventParam { kind: ParamKind::Address, indexed: false },
                EventParam { kind: ParamKind::Address, indexed: false },
                EventParam { kind: ParamKind::Address, indexed: false },
                EventParam { kind: ParamKind::Uint, indexed: false },
            ],
        },
        create_proposal_fn: FunctionSchema {
            params: vec![
                CallKind::Dynamic,
                CallKind::Dynamic,
                CallKind::Dynamic,
                CallKind::Uint,
                CallKind::Uint,
                CallKind::Address,
                CallKind::Uint,
                CallKind::Uint,
            ],
        },
    }
}

fn create_proposal_input() -> Vec<u8> {
    let mut input = Vec::new();
    input.extend_from_slice(&be_word_u128(256));
    input.extend_from_slice(&be_word_u128(256));
    input.extend_from_slice(&be_word_u128(256));
    input.extend_from_slice(&be_word_u128(9_999)); // closeTime
    input.extend_from_slice(&be_word_u128(2)); // category
    input.extend_from_slice(&addr_word(0xB1)); // settlement token
    input.extend_from_slice(&be_word_u128(1_000_000)); // initial liquidity
    input.extend_from_slice(&be_word_u128(3)); // fee ratio
    input
}

#[test]
fn create_proposal_persists_exactly_one_of_each_row() {
    let abi = factory_abi();
    let mut data = AppData::new(1, Vec::new());
    let mut store = StoreDB::init_db(1);
    data.client_sub(10, XWsSub { target: "proposalStatus".to_string(), id: 21 });

    let raw = RawLog {
        topics: vec![topic_word(0x12)],
        data: {
            let mut d = be_word_u128(77);
            d.extend_from_slice(&addr_word(0xA1));
            d.extend_from_slice(&addr_word(0xA2));
            d.extend_from_slice(&addr_word(0xA3));
            d.extend_from_slice(&be_word_u128(5_555));
            d
        },
    };
    let probe = Factory::with_factory(&abi, &raw);
    let (proposal_id, proposal_add, create_time) = probe.create.expect("creation must decode");
    assert_eq!(proposal_id, 77);
    assert!(proposal_add == addr(0xA3));
    assert_eq!(create_time, 5_555);
    assert!(probe.support_markets.is_none());
    assert!(probe.settlement_paused.is_none());

    let input = create_proposal_input();
    let ds = Factory::update_new_proposal(&mut data, &mut store, &abi, &input, &addr(0xCC),
        proposal_id, &proposal_add, create_time).expect("input must decode");

    // exactly one proposal row, one Create relation, one 50/50 price point
    assert_eq!(store.proposals.len(), 1);
    let row = &store.proposals[0];
    assert_eq!(row.proposal_id, 77);
    assert!(row.address == addr(0xA3));
    assert_eq!(row.category, 2);
    assert!(row.token == addr(0xB1));
    assert_eq!(row.state, ProposalState::Original);
    assert_eq!(row.liquidity, 1_000_000);
    assert_eq!(row.create_time, 5_555);
    assert_eq!(row.close_time, 9_999);
    assert_eq!(store.relations.len(), 1);
    assert!(store.relations[0].address == addr(0xCC));
    assert_eq!(store.relations[0].relation, ProposalRelation::Create);
    assert_eq!(store.prices.len(), 1);
    assert_eq!(store.prices[0].token1, 50);
    assert_eq!(store.prices[0].token2, 100 - 50);
    assert_eq!(store.prices[0].ts, 5_555);

    // the new contract is indexed, and the subscriber was told
    assert_eq!(data.get_proposal_id(&addr(0xA3)), Some(77));
    assert_eq!(ds.len(), 1);
    assert_eq!(ds[0].conn, 10);
    assert_eq!(ds[0].msg.target, "proposalStatus");
    assert_eq!(ds[0].msg.id, 21);
    match &ds[0].msg.data {
        PushData::Proposal(p) => {
            assert_eq!(p.proposal_id, 77);
            assert_eq!(p.state, 0);
            assert_eq!(p.address,
                "0xa3a3a3a3a3a3a3a3a3a3a3a3a3a3a3a3a3a3a3a3");
        },
        _ => panic!("expected a proposal payload"),
    }
}

#[test]
fn create_proposal_with_foreign_input_changes_nothing() {
    let abi = factory_abi();
    let mut data = AppData::new(1, Vec::new());
    let mut store = StoreDB::init_db(1);
    let bad_input = vec![0u8; 32];
    assert!(Factory::update_new_proposal(&mut data, &mut store, &abi, &bad_input, &addr(0xCC),
        77, &addr(0xA3), 5_555).is_err());
    assert_eq!(store.proposals.len(), 0);
    assert_eq!(store.relations.len(), 0);
    assert!(data.get_proposal_id(&addr(0xA3)).is_none());
}

#[test]
fn coin_toggle_updates_both_tables_and_broadcasts() {
    let mut data = AppData::new(1, Vec::new());
    let mut store = StoreDB::init_db(1);
    data.client_sub(4, XWsSub { target: "coinsSupport".to_string(), id: 8 });
    let ds = Factory::with_address(&mut data, &mut store, &addr(0xB1), "USDX".to_string(), true);
    assert_eq!(ds.len(), 1);
    assert_eq!(ds[0].msg.op, SubOpCode::Add);
    assert!(matches!(&ds[0].msg.data, PushData::Coin(a)
        if a == "0xb1b1b1b1b1b1b1b1b1b1b1b1b1b1b1b1b1b1b1b1"));
    let coins = data.coins_support();
    assert_eq!(coins.len(), 1);
    assert_eq!(coins[0].1, "USDX");
    let ds = Factory::with_address(&mut data, &mut store, &addr(0xB1), "USDX".to_string(),
        false);
    assert_eq!(ds[0].msg.op, SubOpCode::Del);
    assert_eq!(data.coins_support().len(), 0);
    assert_eq!(store.coins.len(), 1);
}

fn router_abi_two_shapes_one_topic() -> RouterAbi {
    RouterAbi {
        accept_state_formal_prediction: uint_event(0x20, 1),
        accept_proposal_end: uint_event(0x20, 1),
        accept_fn: FunctionSchema { params: vec![CallKind::Address, CallKind::Bool] },
    }
}

#[test]
fn log_matching_both_shapes_applies_exactly_one_transition() {
    let abi = router_abi_two_shapes_one_topic();
    let mut data = AppData::new(1, Vec::new());
    let mut store = StoreDB::init_db(1);
    store.write_proposals(7, addr(0xA3), 2, addr(0xB1), ProposalState::Original, 0, [1, 2]);
    data.insert_proposal(addr(0xA3), 7);
    data.client_sub(3, XWsSub { target: "proposalStatus".to_string(), id: 40 });

    // this log decodes against both shapes; only the first probe may win
    let raw = RawLog { topics: vec![topic_word(0x20)], data: be_word_u128(7) };
    let ds = Router::update_proposal_state(&mut data, &mut store, &abi, &raw, &vec![0u8; 4]);

    assert_eq!(store.proposals[0].state, ProposalState::Formal);
    assert_eq!(data.proposals_state.len(), 1);
    assert_eq!(data.proposals_state[0], (7, ProposalState::Formal));
    assert_eq!(ds.len(), 1);
    match &ds[0].msg.data {
        PushData::Proposal(p) => {
            assert_eq!(p.proposal_id, 7);
            assert_eq!(p.state, 1); // formal, never end
        },
        _ => panic!("expected a proposal payload"),
    }
}

#[test]
fn audit_verdict_lands_on_the_addressed_proposal() {
    let abi = router_abi_two_shapes_one_topic();
    let mut data = AppData::new(1, Vec::new());
    let mut store = StoreDB::init_db(1);
    store.write_proposals(7, addr(0xA3), 2, addr(0xB1), ProposalState::Original, 0, [1, 2]);
    let mut input = addr_word(0xA3);
    input.extend_from_slice(&bool_word(true));
    // a log matching no transition shape
    let raw = RawLog { topics: vec![topic_word(0x77)], data: Vec::new() };
    let ds = Router::update_proposal_state(&mut data, &mut store, &abi, &raw, &input);
    assert_eq!(ds.len(), 0);
    assert_eq!(store.proposals[0].audit_state, ProposalAduitState::Passed);
    assert_eq!(store.proposals[0].state, ProposalState::Original);
}

fn proposal_abi() -> ProposalAbi {
    ProposalAbi {
        buy: EventSchema {
            topic: topic_word(0x30),
            params: vec![
                EventParam { kind: ParamKind::Uint, indexed: false },
                EventParam { kind: ParamKind::Address, indexed: false },
                EventParam { kind: ParamKind::Uint, indexed: false },
            ],
        },
        sell: EventSchema {
            topic: topic_word(0x31),
            params: vec![
                EventParam { kind: ParamKind::Uint, indexed: false },
                EventParam { kind: ParamKind::Address, indexed: false },
                EventParam { kind: ParamKind::Uint, indexed: false },
            ],
        },
        add_liquidity: EventSchema {
            topic: topic_word(0x32),
            params: vec![
                EventParam { kind: ParamKind::Address, indexed: false },
                EventParam { kind: ParamKind::Uint, indexed: false },
                EventParam { kind: ParamKind::Uint, indexed: false },
            ],
        },
        remove_liquidity: EventSchema {
            topic: topic_word(0x33),
            params: vec![
                EventParam { kind: ParamKind::Address, indexed: false },
                EventParam { kind: ParamKind::Uint, indexed: false },
                EventParam { kind: ParamKind::Uint, indexed: false },
            ],
        },
    }
}

fn trade_log(topic: u8, account: u8, amount: u128) -> RawLog {
    RawLog {
        topics: vec![topic_word(topic)],
        data: {
            let mut d = be_word_u128(0);
            d.extend_from_slice(&addr_word(account));
            d.extend_from_slice(&be_word_u128(amount));
            d
        },
    }
}

#[test]
fn trade_log_raises_volume_and_price_flags() {
    let abi = proposal_abi();
    let mut store = StoreDB::init_db(1);
    let raw = trade_log(0x30, 0xE1, 500);
    let flags = Proposal::update_volumeand_relation(&mut store, &abi, &raw, 7);
    assert_eq!(flags, (true, false, true));
    assert_eq!(store.relations.len(), 1);
    assert_eq!(store.relations[0].relation, ProposalRelation::Trade);
    // replay: no duplicate relation row
    let flags = Proposal::update_volumeand_relation(&mut store, &abi, &raw, 7);
    assert_eq!(flags, (true, false, true));
    assert_eq!(store.relations.len(), 1);
}

#[test]
fn liquidity_log_raises_liquidity_and_price_flags() {
    let abi = proposal_abi();
    let mut store = StoreDB::init_db(1);
    let raw = RawLog {
        topics: vec![topic_word(0x32)],
        data: {
            let mut d = addr_word(0xE2);
            d.extend_from_slice(&be_word_u128(10));
            d.extend_from_slice(&be_word_u128(7));
            d
        },
    };
    let flags = Proposal::update_volumeand_relation(&mut store, &abi, &raw, 7);
    assert_eq!(flags, (false, true, true));
    assert_eq!(store.relations[0].relation, ProposalRelation::Liquidity);
}

#[test]
fn price_refresh_splits_balances_into_percentages() {
    let mut store = StoreDB::init_db(1);
    Proposal::update_history(&mut store, 7, &HistoryUpdate::Price {
        ts: 4_000,
        balance0: 30,
        balance1: 70,
    });
    assert_eq!(store.prices.len(), 1);
    assert_eq!(store.prices[0].token1, 30);
    assert_eq!(store.prices[0].token2, 70);
    Proposal::update_history(&mut store, 7, &HistoryUpdate::Volume(999));
    Proposal::update_history(&mut store, 7, &HistoryUpdate::Liquidity(111));
    assert_eq!(store.proposals[0].volume, 999);
    assert_eq!(store.proposals[0].liquidity, 111);
}

#[test]
fn with_volume_sums_trades_per_address() {
    let abi = proposal_abi();
    let logs = vec![
        Log { address: addr(0xD1), raw: trade_log(0x30, 1, 100), transaction_hash: None,
            block_hash: None },
        Log { address: addr(0xD1), raw: trade_log(0x31, 2, 50), transaction_hash: None,
            block_hash: None },
        // this address has a log in the window, but it decodes as no trade:
        // it gets no totals entry, so the recompute will not touch it
        Log { address: addr(0xD2), raw: RawLog { topics: vec![topic_word(0x77)],
            data: Vec::new() }, transaction_hash: None, block_hash: None },
    ];
    let totals = Proposal::with_volume(&abi, &logs);
    assert_eq!(totals.len(), 1);
    assert!(totals[0].address == addr(0xD1));
    assert_eq!(totals[0].total, 150);
}

#[test]
fn hot_recompute_skips_addresses_without_logs() {
    let abi = proposal_abi();
    let mut data = AppData::new(1, Vec::new());
    let mut store = StoreDB::init_db(1);
    store.write_proposals(1, addr(0xD1), 0, addr(0xB1), ProposalState::Original, 0, [0, 0]);
    store.write_proposals(2, addr(0xD2), 0, addr(0xB1), ProposalState::Original, 0, [0, 0]);
    store.write_volume24(1, 500);
    store.write_volume24(2, 600);
    data.insert_proposal(addr(0xD1), 1);
    data.insert_proposal(addr(0xD2), 2);

    // only D1 traded in the window; D2's log decodes as no trade
    let logs = vec![
        Log { address: addr(0xD1), raw: trade_log(0x30, 1, 42), transaction_hash: None,
            block_hash: None },
        Log { address: addr(0xD2), raw: RawLog { topics: vec![topic_word(0x77)],
            data: Vec::new() }, transaction_hash: None, block_hash: None },
    ];
    let totals = Proposal::with_volume(&abi, &logs);
    Proposal::update_24h_hot(&data, &mut store, &totals);
    assert_eq!(store.proposals[0].volume24, 42);
    assert_eq!(store.proposals[1].volume24, 600); // untouched, not zeroed

    // zero matching logs at all: nothing changes, and no row is added
    let empty = Proposal::with_volume(&abi, &Vec::new());
    Proposal::update_24h_hot(&data, &mut store, &empty);
    assert_eq!(store.proposals.len(), 2);
    assert_eq!(store.proposals[0].volume24, 42);
    assert_eq!(store.proposals[1].volume24, 600);
}
