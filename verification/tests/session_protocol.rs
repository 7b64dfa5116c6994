use xprotocol::session::{ClientRequest, Session, SessionReply, CLIENT_TIMEOUT_MS};
use xprotocol::state::{AppData, PushData};
use xprotocol::ws::{SubOpCode, XWsSub};

#[test]
fn ping_answers_pong_and_resets_liveness() {
    let mut data = AppData::new(1, Vec::new());
    let mut session = Session::new(10, 1_000);
    let r = session.with_text(&mut data, Some(ClientRequest::Ping), 2_000);
    assert!(matches!(r, SessionReply::Pong));
    assert_eq!(session.hb, 2_000);
    let r = session.with_text(&mut data, Some(ClientRequest::Pong), 3_000);
    assert!(matches!(r, SessionReply::Ping));
    assert_eq!(session.hb, 3_000);
}

#[test]
fn sub_and_unsub_are_acknowledged() {
    let mut data = AppData::new(1, Vec::new());
    let mut session = Session::new(10, 0);
    let r = session.with_text(&mut data,
        Some(ClientRequest::Sub(XWsSub { target: "newBlock".to_string(), id: 9 })), 0);
    match r {
        SessionReply::Ack(a) => {
            assert_eq!(a.code, 200);
            assert_eq!(a.id, 9);
        },
        _ => panic!("expected an acknowledgement"),
    }
    let r = session.with_text(&mut data,
        Some(ClientRequest::Unsub(XWsSub { target: "newBlock".to_string(), id: 9 })), 0);
    assert!(matches!(r, SessionReply::Ack(_)));
    let ds = data.push_to_client("newBlock", SubOpCode::Update, &PushData::Block(1));
    assert_eq!(ds.len(), 0);
}

#[test]
fn malformed_message_earns_error_and_keeps_connection_state() {
    let mut data = AppData::new(1, Vec::new());
    let mut session = Session::new(10, 500);
    let r = session.with_text(&mut data, None, 9_999);
    match r {
        SessionReply::Fault(e) => assert_eq!(e.code, 500),
        _ => panic!("expected an error envelope"),
    }
    assert_eq!(session.hb, 500);
}

#[test]
fn silent_connection_expires_after_fifteen_seconds() {
    let session = Session::new(10, 1_000);
    assert!(!session.heartbeat_expired(1_000 + CLIENT_TIMEOUT_MS));
    assert!(session.heartbeat_expired(1_000 + CLIENT_TIMEOUT_MS + 1));
}

#[test]
fn teardown_silences_the_connection() {
    let mut data = AppData::new(1, Vec::new());
    let mut session = Session::new(10, 0);
    session.with_text(&mut data,
        Some(ClientRequest::Sub(XWsSub { target: "proposalStatus".to_string(), id: 3 })), 0);
    // silent past the timeout: the heartbeat closes it, teardown runs
    assert!(session.heartbeat_expired(CLIENT_TIMEOUT_MS + 1));
    session.stopped(&mut data);
    let ds = data.push_to_client("proposalStatus", SubOpCode::Update, &PushData::Block(1));
    assert_eq!(ds.len(), 0);
}
