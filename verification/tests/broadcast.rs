use xprotocol::state::{AppData, PushData};
use xprotocol::ws::{SubOpCode, XWsSub};

fn fresh() -> AppData {
    AppData::new(1, Vec::new())
}

fn sub(target: &str, id: u64) -> XWsSub {
    XWsSub { target: target.to_string(), id }
}

#[test]
fn broadcast_reaches_exactly_the_matching_subscription() {
    let mut data = fresh();
    data.client_sub(10, sub("proposalStatus", 77));
    data.client_sub(11, sub("newBlock", 5));
    let ds = data.push_to_client(
        "proposalStatus",
        SubOpCode::Update,
        &PushData::Block(7),
    );
    assert_eq!(ds.len(), 1);
    assert_eq!(ds[0].conn, 10);
    assert_eq!(ds[0].msg.op, SubOpCode::Update);
    assert_eq!(ds[0].msg.target, "proposalStatus");
    assert_eq!(ds[0].msg.id, 77);
    assert!(matches!(ds[0].msg.data, PushData::Block(7)));
}

#[test]
fn broadcast_sends_one_envelope_per_subscription() {
    let mut data = fresh();
    data.client_sub(10, sub("coinsSupport", 1));
    data.client_sub(10, sub("coinsSupport", 2));
    let ds = data.push_to_client("coinsSupport", SubOpCode::Add,
        &PushData::Coin("0xaa".to_string()));
    assert_eq!(ds.len(), 2);
    assert_eq!(ds[0].msg.id, 1);
    assert_eq!(ds[1].msg.id, 2);
}

#[test]
fn subscribe_is_idempotent() {
    let mut data = fresh();
    data.client_sub(10, sub("newBlock", 4));
    data.client_sub(10, sub("newBlock", 4));
    let ds = data.push_to_client("newBlock", SubOpCode::Update, &PushData::Block(1));
    assert_eq!(ds.len(), 1);
}

#[test]
fn unsubscribe_is_idempotent_and_keyed() {
    let mut data = fresh();
    data.client_sub(10, sub("newBlock", 4));
    data.client_unsub(10, &sub("newBlock", 4));
    data.client_unsub(10, &sub("newBlock", 4));
    data.client_unsub(11, &sub("newBlock", 4));
    let ds = data.push_to_client("newBlock", SubOpCode::Update, &PushData::Block(1));
    assert_eq!(ds.len(), 0);
}

#[test]
fn dropped_connection_receives_nothing() {
    let mut data = fresh();
    data.client_sub(10, sub("newBlock", 4));
    data.client_sub(11, sub("newBlock", 6));
    data.delete_client(10);
    let ds = data.push_to_client("newBlock", SubOpCode::Update, &PushData::Block(1));
    assert_eq!(ds.len(), 1);
    assert_eq!(ds[0].conn, 11);
}

#[test]
fn replayed_broadcasts_are_not_deduplicated() {
    let mut data = fresh();
    data.client_sub(10, sub("newBlock", 4));
    let first = data.push_to_client("newBlock", SubOpCode::Update, &PushData::Block(1));
    let second = data.push_to_client("newBlock", SubOpCode::Update, &PushData::Block(1));
    assert_eq!(first.len(), 1);
    assert_eq!(second.len(), 1); // the subscriber hears the replay again
}

#[test]
fn new_block_broadcasts_only_on_change() {
    let mut data = fresh();
    data.client_sub(10, sub("newBlock", 4));
    let ds = data.update_data_block(55);
    assert_eq!(ds.len(), 1);
    assert!(matches!(ds[0].msg.data, PushData::Block(55)));
    let ds = data.update_data_block(55);
    assert_eq!(ds.len(), 0);
    assert_eq!(data.get_current_block(), 55);
}
