//! The Router handler: audit outcomes and proposal state transitions.
//!
//! One Router log leads through the originating transaction's input to an
//! audit-outcome write, and is probed against the two state-transition
//! event shapes; the first shape that decodes wins, so one log applies at
//! most one transition — never both.

use vstd::prelude::*;
use crate::abi::{DecodeError, EventSchema, FunctionSchema, RawLog, call_matches, event_matches};
use crate::address::{Address, spec_hex};
use crate::events::{
    ProposalStatus, XProtocol, addr_at, bool_at, cparams, eparams, is_addr_at, is_bool_at,
    is_u64_at, u64_at,
};
use crate::handle::{ProposalAduitState, ProposalState, spec_state_code};
use crate::state::{
    AppData, Delivery, PushData, PushVal, deliveries_view, spec_deliveries, states_upsert_ok,
};
use crate::store::{
    PropWrite, ProposalRowV, StoreDB, audit_update_ok, props_upsert_ok,
};
use crate::ws::SubOpCode;

verus! {

/// The Router contract's probed shapes.
pub struct RouterAbi {
    /// `AcceptStateFormalPrediction(uint proposalId)`: the proposal turns
    /// formal.
    pub accept_state_formal_prediction: EventSchema,
    /// `AcceptProposalEnd(uint proposalId)`: the proposal ends.
    pub accept_proposal_end: EventSchema,
    /// `acceptStateFormalPrediction(address, bool)`: the audit verdict for
    /// the proposal at the address.
    pub accept_fn: FunctionSchema,
}

/// Whether one Router log carries a formal-state transition.
pub open spec fn formal_probe_ok(abi: RouterAbi, raw: RawLog) -> bool {
    event_matches(abi.accept_state_formal_prediction, raw)
        && is_u64_at(eparams(abi.accept_state_formal_prediction, raw), 0)
}

/// Whether one Router log carries an end-state transition.
pub open spec fn end_probe_ok(abi: RouterAbi, raw: RawLog) -> bool {
    event_matches(abi.accept_proposal_end, raw)
        && is_u64_at(eparams(abi.accept_proposal_end, raw), 0)
}

/// Whether a transaction input carries an audit verdict.
pub open spec fn audit_probe_ok(abi: RouterAbi, input: Seq<u8>) -> bool {
    call_matches(abi.accept_fn, input)
        && is_addr_at(cparams(abi.accept_fn, input), 0)
        && is_bool_at(cparams(abi.accept_fn, input), 1)
}

/// What one applied transition leaves behind: the lifecycle state recorded
/// in memory and durably, and — when the index knows the proposal's
/// address — one `proposalStatus` envelope per matching subscription.
pub open spec fn transition_applied(
    old_data: AppData,
    new_data: AppData,
    mid_props: Seq<ProposalRowV>,
    new_props: Seq<ProposalRowV>,
    ds: Seq<Delivery>,
    pid: u64,
    st: ProposalState,
) -> bool {
    &&& states_upsert_ok(old_data.proposals_state@, new_data.proposals_state@, pid, st)
    &&& props_upsert_ok(mid_props, new_props, pid, PropWrite::State(st))
    &&& (exists|i: int| 0 <= i < old_data.index().len()
            && (#[trigger] old_data.index()[i]).1 == pid)
        ==> exists|i: int|
            {
                &&& 0 <= i < old_data.index().len()
                &&& #[trigger] old_data.index()[i].1 == pid
                &&& (forall|k: int| 0 <= k < i
                    ==> (#[trigger] old_data.index()[k]).1 != pid)
                &&& deliveries_view(ds) == spec_deliveries(old_data.registry(),
                    "proposalStatus"@, SubOpCode::Update,
                    PushVal::Proposal((pid, spec_hex(old_data.index()[i].0),
                        spec_state_code(st))))
            }
    &&& (forall|i: int| 0 <= i < old_data.index().len()
            ==> (#[trigger] old_data.index()[i]).1 != pid)
        ==> ds.len() == 0
}

/// The Router handler.
pub struct Router;

impl Router {
    /// The proposal id parameter of a state-transition event.
    pub fn parse_proposal_id(raw: &RawLog, schema: &EventSchema) -> (r: Result<u64, DecodeError>)
        ensures
            r is Ok <==> event_matches(*schema, *raw) && is_u64_at(eparams(*schema, *raw), 0),
            r matches Ok(id) ==> id == u64_at(eparams(*schema, *raw), 0),
    {
        let params = XProtocol::parse_log(raw, schema)?;
        XProtocol::get_index(params.as_slice(), 0)?.to_u64()
    }

    /// The proposal address and verdict of an audit call input (selector
    /// already stripped).
    pub fn parse_factory_function(schema: &FunctionSchema, input: &Vec<u8>) -> (r: Result<
        (Address, bool),
        DecodeError,
    >)
        ensures
            r is Ok <==> call_matches(*schema, input@)
                && is_addr_at(cparams(*schema, input@), 0)
                && is_bool_at(cparams(*schema, input@), 1),
            r matches Ok(t) ==> t.0@ == addr_at(cparams(*schema, input@), 0)
                && t.1 == bool_at(cparams(*schema, input@), 1),
    {
        let params = crate::abi::decode_call(schema, input)?;
        let proposal_address = XProtocol::get_index(params.as_slice(), 0)?.to_address()?;
        let verdict = XProtocol::get_index(params.as_slice(), 1)?.to_bool()?;
        Ok((proposal_address, verdict))
    }

    /// Apply one Router log: record the audit verdict its transaction
    /// carries, then probe the two transition shapes — the first that
    /// decodes wins, so at most one transition is applied even when the log
    /// matches both.
    pub fn update_proposal_state(data: &mut AppData, store: &mut StoreDB, abi: &RouterAbi,
        raw: &RawLog, tx_input: &Vec<u8>) -> (ds: Vec<Delivery>)
        requires
            old(data).wf(),
            old(store).wf(),
        ensures
            final(data).wf(),
            final(store).wf(),
            final(data).index() == old(data).index(),
            final(data).support() == old(data).support(),
            final(data).registry() == old(data).registry(),
            final(data).current_block == old(data).current_block,
            final(data).chain_id == old(data).chain_id,
            final(store).blocks@ == old(store).blocks@,
            final(store).coin_rows() == old(store).coin_rows(),
            final(store).rels() == old(store).rels(),
            final(store).prices@ == old(store).prices@,
            exists|mid: Seq<ProposalRowV>|
                #![trigger mid.len()]
                {
                    &&& (audit_probe_ok(*abi, tx_input@)
                        ==> audit_update_ok(old(store).props(), mid,
                            addr_at(cparams(abi.accept_fn, tx_input@), 0),
                            if bool_at(cparams(abi.accept_fn, tx_input@), 1) {
                                ProposalAduitState::Passed
                            } else {
                                ProposalAduitState::NotPassed
                            }))
                    &&& (!audit_probe_ok(*abi, tx_input@) ==> mid == old(store).props())
                    &&& (formal_probe_ok(*abi, *raw)
                        ==> transition_applied(*old(data), *final(data), mid,
                            final(store).props(), ds@,
                            u64_at(eparams(abi.accept_state_formal_prediction, *raw), 0),
                            ProposalState::Formal))
                    &&& (!formal_probe_ok(*abi, *raw) && end_probe_ok(*abi, *raw)
                        ==> transition_applied(*old(data), *final(data), mid,
                            final(store).props(), ds@,
                            u64_at(eparams(abi.accept_proposal_end, *raw), 0),
                            ProposalState::End))
                    &&& (!formal_probe_ok(*abi, *raw) && !end_probe_ok(*abi, *raw)
                        ==> final(store).props() == mid
                            && final(data).proposals_state@ == old(data).proposals_state@
                            && ds@.len() == 0)
                },
    {
        match Self::parse_factory_function(&abi.accept_fn, tx_input) {
            Ok((proposal_address, verdict)) => {
                let audit = if verdict {
                    ProposalAduitState::Passed
                } else {
                    ProposalAduitState::NotPassed
                };
                store.write_proposal_audit_state(proposal_address, audit);
            },
            Err(_) => {},
        }
        let ghost mid = store.props();
        let probe_formal = Self::parse_proposal_id(raw, &abi.accept_state_formal_prediction);
        match probe_formal {
            Ok(proposal_id) => {
                let ds = Self::apply_transition(data, store, proposal_id, ProposalState::Formal);
                proof {
                    assert(mid.len() >= 0);
                    assert({
                        &&& (audit_probe_ok(*abi, tx_input@)
                            ==> audit_update_ok(old(store).props(), mid,
                                addr_at(cparams(abi.accept_fn, tx_input@), 0),
                                if bool_at(cparams(abi.accept_fn, tx_input@), 1) {
                                    ProposalAduitState::Passed
                                } else {
                                    ProposalAduitState::NotPassed
                                }))
                        &&& (!audit_probe_ok(*abi, tx_input@) ==> mid == old(store).props())
                        &&& (formal_probe_ok(*abi, *raw)
                            ==> transition_applied(*old(data), *data, mid, store.props(), ds@,
                                u64_at(eparams(abi.accept_state_formal_prediction, *raw), 0),
                                ProposalState::Formal))
                        &&& (!formal_probe_ok(*abi, *raw) && end_probe_ok(*abi, *raw)
                            ==> transition_applied(*old(data), *data, mid, store.props(), ds@,
                                u64_at(eparams(abi.accept_proposal_end, *raw), 0),
                                ProposalState::End))
                        &&& (!formal_probe_ok(*abi, *raw) && !end_probe_ok(*abi, *raw)
                            ==> store.props() == mid
                                && data.proposals_state@ == old(data).proposals_state@
                                && ds@.len() == 0)
                    });
                }
                ds
            },
            Err(_) => {
                match Self::parse_proposal_id(raw, &abi.accept_proposal_end) {
                    Ok(proposal_id) => {
                        let ds = Self::apply_transition(data, store, proposal_id,
                            ProposalState::End);
                        proof {
                            assert(mid.len() >= 0);
                            assert({
                                &&& (audit_probe_ok(*abi, tx_input@)
                                    ==> audit_update_ok(old(store).props(), mid,
                                        addr_at(cparams(abi.accept_fn, tx_input@), 0),
                                        if bool_at(cparams(abi.accept_fn, tx_input@), 1) {
                                            ProposalAduitState::Passed
                                        } else {
                                            ProposalAduitState::NotPassed
                                        }))
                                &&& (!audit_probe_ok(*abi, tx_input@)
                                    ==> mid == old(store).props())
                                &&& (formal_probe_ok(*abi, *raw)
                                    ==> transition_applied(*old(data), *data, mid,
                                        store.props(), ds@,
                                        u64_at(eparams(abi.accept_state_formal_prediction,
                                            *raw), 0),
                                        ProposalState::Formal))
                                &&& (!formal_probe_ok(*abi, *raw) && end_probe_ok(*abi, *raw)
                                    ==> transition_applied(*old(data), *data, mid,
                                        store.props(), ds@,
                                        u64_at(eparams(abi.accept_proposal_end, *raw), 0),
                                        ProposalState::End))
                                &&& (!formal_probe_ok(*abi, *raw) && !end_probe_ok(*abi, *raw)
                                    ==> store.props() == mid
                                        && data.proposals_state@ == old(data).proposals_state@
                                        && ds@.len() == 0)
                            });
                        }
                        ds
                    },
                    Err(_) => {
                        let ds: Vec<Delivery> = Vec::new();
                        proof {
                            assert(mid.len() >= 0);
                            assert({
                                &&& (audit_probe_ok(*abi, tx_input@)
                                    ==> audit_update_ok(old(store).props(), mid,
                                        addr_at(cparams(abi.accept_fn, tx_input@), 0),
                                        if bool_at(cparams(abi.accept_fn, tx_input@), 1) {
                                            ProposalAduitState::Passed
                                        } else {
                                            ProposalAduitState::NotPassed
                                        }))
                                &&& (!audit_probe_ok(*abi, tx_input@)
                                    ==> mid == old(store).props())
                                &&& (!formal_probe_ok(*abi, *raw) && !end_probe_ok(*abi, *raw)
                                    ==> store.props() == mid
                                        && data.proposals_state@ == old(data).proposals_state@
                                        && ds@.len() == 0)
                            });
                        }
                        ds
                    },
                }
            },
        }
    }

    /// Record one decoded transition: the in-memory state, the broadcast to
    /// `proposalStatus` subscribers (when the index resolves the id to an
    /// address), and the durable state.
    #[verifier::rlimit(60)]
    fn apply_transition(data: &mut AppData, store: &mut StoreDB, proposal_id: u64,
        state: ProposalState) -> (ds: Vec<Delivery>)
        requires
            old(data).wf(),
            old(store).wf(),
        ensures
            final(data).wf(),
            final(store).wf(),
            final(data).index() == old(data).index(),
            final(data).support() == old(data).support(),
            final(data).registry() == old(data).registry(),
            final(data).current_block == old(data).current_block,
            final(data).chain_id == old(data).chain_id,
            final(store).blocks@ == old(store).blocks@,
            final(store).coin_rows() == old(store).coin_rows(),
            final(store).rels() == old(store).rels(),
            final(store).prices@ == old(store).prices@,
            transition_applied(*old(data), *final(data), old(store).props(),
                final(store).props(), ds@, proposal_id, state),
    {
        data.set_proposal_state(proposal_id, state);
        let ds = match data.get_proposal_address(proposal_id) {
            Some(address) => {
                let status = ProposalStatus::new(proposal_id, &address, state);
                let ds = data.push_to_client("proposalStatus", SubOpCode::Update,
                    &PushData::Proposal(status));
                proof {
                    let i = choose|i: int|
                        {
                            &&& 0 <= i < old(data).index().len()
                            &&& #[trigger] old(data).index()[i] == (address@, proposal_id)
                            &&& forall|k: int| 0 <= k < i
                                ==> (#[trigger] old(data).index()[k]).1 != proposal_id
                        };
                    assert((old(data).index()[i]).1 == proposal_id);
                    assert(deliveries_view(ds@) == spec_deliveries(old(data).registry(),
                        "proposalStatus"@, SubOpCode::Update,
                        PushVal::Proposal((proposal_id, spec_hex(old(data).index()[i].0),
                            spec_state_code(state)))));
                }
                ds
            },
            None => Vec::new(),
        };
        store.write_proposal_state(proposal_id, state);
        ds
    }
}

} // verus!
