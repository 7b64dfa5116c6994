use xprotocol::address::{str_eq, Address};
use xprotocol::events::ProposalStatus;
use xprotocol::handle::{
    ErrorResponse, FromSymbol, ProposalAduitState, ProposalRelation, ProposalState,
    XProtocolError, XResponse,
};
use xprotocol::ws::{SubOp, SubOpCode, XWsSubRes};

#[test]
fn proposal_state_parses_its_lowercase_names() {
    assert_eq!(ProposalState::parse("original"), Ok(ProposalState::Original));
    assert_eq!(ProposalState::parse("formal"), Ok(ProposalState::Formal));
    assert_eq!(ProposalState::parse("end"), Ok(ProposalState::End));
    assert_eq!(ProposalState::parse("limbo"), Err(XProtocolError::ExpectationFailed));
    assert_eq!(ProposalState::Formal.code(), 1);
}

#[test]
fn audit_state_parses_its_lowercase_names() {
    assert_eq!(ProposalAduitState::from_str("passed"), Ok(ProposalAduitState::Passed));
    assert_eq!(ProposalAduitState::from_str("not_passed"), Ok(ProposalAduitState::NotPassed));
    assert_eq!(ProposalAduitState::from_str("not_reviewed"),
        Ok(ProposalAduitState::NotReviewed));
    assert_eq!(ProposalAduitState::from_str(""), Err(XProtocolError::ExpectationFailed));
}

#[test]
fn relation_selector_maps_its_three_codes() {
    assert_eq!(ProposalRelation::try_from(0), Ok(ProposalRelation::Liquidity));
    assert_eq!(ProposalRelation::try_from(1), Ok(ProposalRelation::Create));
    assert_eq!(ProposalRelation::try_from(2), Ok(ProposalRelation::Trade));
    assert_eq!(ProposalRelation::try_from(3), Err(XProtocolError::ExpectationFailed));
}

#[test]
fn response_wrappers_carry_their_fields() {
    let r = XResponse::new(200, 5u64);
    assert_eq!(r.code, 200);
    assert_eq!(r.data, 5);
    let e = ErrorResponse::new(500, "boom".to_string());
    assert_eq!(e.code, 500);
    assert_eq!(e.message, "boom");
    let a = XWsSubRes::new(200, 9);
    assert_eq!(a.code, 200);
    assert_eq!(a.id, 9);
    let s = SubOp::new(SubOpCode::Update, "newBlock".to_string(), 7u64, 3);
    assert_eq!(s.op, SubOpCode::Update);
    assert_eq!(s.target, "newBlock");
    assert_eq!(s.data, 7);
    assert_eq!(s.id, 3);
}

#[test]
fn proposal_status_formats_its_address() {
    let p = ProposalStatus::new(7, &Address { bytes: vec![0x0F; 20] }, ProposalState::End);
    assert_eq!(p.proposal_id, 7);
    assert_eq!(p.state, 2);
    assert_eq!(p.address, "0x0f0f0f0f0f0f0f0f0f0f0f0f0f0f0f0f0f0f0f0f");
}

#[test]
fn string_comparison_is_by_contents() {
    assert!(str_eq("abc", "abc"));
    assert!(!str_eq("abc", "abd"));
    assert!(!str_eq("abc", "ab"));
}
