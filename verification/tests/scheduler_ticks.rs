use xprotocol::address::Address;
use xprotocol::scheduler::{
    hot_window_start, route_log, should_recompute_hot, tick_plan, BlockCursor, Ping, TickPlan,
};
use xprotocol::state::{AppData, ProposalSeed};
use xprotocol::handle::ProposalState;

fn addr(tail: u8) -> Address {
    Address { bytes: vec![tail; 20] }
}

#[test]
fn tick_covers_min_of_step_and_head() {
    match tick_plan(0, 100, 1000) {
        TickPlan::Advance { from_block, to_block } => {
            assert_eq!(from_block, 0);
            assert_eq!(to_block, 99);
        },
        TickPlan::CaughtUp => panic!("a fresh cursor must advance"),
    }
    match tick_plan(950, 100, 1000) {
        TickPlan::Advance { from_block, to_block } => {
            assert_eq!(from_block, 950);
            assert_eq!(to_block, 1000);
        },
        TickPlan::CaughtUp => panic!("a trailing cursor must advance"),
    }
}

#[test]
fn caught_up_cursor_does_not_advance() {
    assert!(matches!(tick_plan(1000, 100, 1000), TickPlan::CaughtUp));
    assert!(matches!(tick_plan(1000, 1, 1000), TickPlan::CaughtUp));
}

#[test]
fn cursor_moves_one_past_the_scanned_range() {
    let mut cursor = BlockCursor { chain_id: 1, from_block: 0, step: 100 };
    cursor.advance(99);
    assert_eq!(cursor.from_block, 100);
    cursor.advance(199);
    assert_eq!(cursor.from_block, 200);
    let _ = Ping(cursor.step);
}

#[test]
fn hot_recompute_is_hourly() {
    assert!(!should_recompute_hot(1_000, 1_000 + 3_600));
    assert!(should_recompute_hot(1_000, 1_000 + 3_601));
}

#[test]
fn hot_window_trails_one_day_of_blocks() {
    assert_eq!(hot_window_start(10_000), 10_000 - 5_760);
    assert_eq!(hot_window_start(100), 0);
}

#[test]
fn logs_route_by_address() {
    let factory = addr(1);
    let router = addr(2);
    let data = AppData::new(1, vec![ProposalSeed {
        proposal_id: 7,
        address: addr(3),
        state: ProposalState::Original,
    }]);
    assert_eq!(route_log(&factory, &router, &data, &addr(1)), (true, false, false));
    assert_eq!(route_log(&factory, &router, &data, &addr(2)), (false, true, false));
    assert_eq!(route_log(&factory, &router, &data, &addr(3)), (false, false, true));
    assert_eq!(route_log(&factory, &router, &data, &addr(4)), (false, false, false));
}
