//! The Factory handler: coin-support toggles and proposal creation.
//!
//! A Factory log is probed against three shapes.  The two support shapes
//! each drive a coin toggle (the caller fetches the token's symbol between
//! the probe and the write); the creation shape leads through the
//! originating transaction's input to a new proposal row, its `Create`
//! relation, its initial 50/50 price point, the in-memory index entry, and
//! a `proposalStatus` broadcast.

use vstd::prelude::*;
use crate::abi::{
    AbiValue, DecodeError, EventSchema, FunctionSchema, RawLog, call_matches, event_matches,
};
use crate::address::{Address, spec_hex};
use crate::events::{
    ProposalStatus, XProtocol, addr_at, cparams, eparams, is_addr_at, is_u128_at, is_u64_at,
    u128_at, u64_at,
};
use crate::handle::{ProposalRelation, ProposalState, spec_state_code};
use crate::state::{
    AppData, Delivery, PushData, PushVal, deliveries_view, index_upsert_ok, spec_deliveries,
    states_upsert_ok, support_upsert_ok,
};
use crate::store::{
    PriceRow, ProposalRowV, StoreDB, apply_price, apply_relation, coins_upsert_ok,
    full_upsert_ok,
};
use crate::ws::SubOpCode;

verus! {

/// The Factory contract's probed shapes.
pub struct FactoryAbi {
    /// `SupportMarkets(address token)`: the coin becomes supported.
    pub support_markets: EventSchema,
    /// `SettlementCurrencyPaused(address token)`: the coin is paused.
    pub settlement_currency_paused: EventSchema,
    /// `CreateProposal(...)`: id at parameter 0, pair address at 3, creation
    /// time at 4.
    pub create_proposal: EventSchema,
    /// `createProposal(...)`: close time at parameter 3, category at 4,
    /// settlement token at 5, initial liquidity at 6.
    pub create_proposal_fn: FunctionSchema,
}

/// What probing one Factory log found.
pub struct FactoryProbe {
    /// The token of a matching `SupportMarkets` event.
    pub support_markets: Option<Address>,
    /// The token of a matching `SettlementCurrencyPaused` event.
    pub settlement_paused: Option<Address>,
    /// (proposal id, pair address, creation time) of a matching
    /// `CreateProposal` event.
    pub create: Option<(u64, Address, u64)>,
}

/// The Factory handler.
pub struct Factory;

impl Factory {
    /// The single address parameter of a coin-support event.
    pub fn parse_log_address(raw: &RawLog, schema: &EventSchema) -> (r: Result<
        Address,
        DecodeError,
    >)
        ensures
            r is Ok <==> event_matches(*schema, *raw) && is_addr_at(eparams(*schema, *raw), 0),
            r matches Ok(a) ==> a@ == addr_at(eparams(*schema, *raw), 0),
    {
        let params = XProtocol::parse_log(raw, schema)?;
        let v = XProtocol::get_index(params.as_slice(), 0)?;
        v.to_address()
    }

    /// The id, pair address and creation time of a `CreateProposal` event.
    pub fn parse_log_create_proposal(raw: &RawLog, schema: &EventSchema) -> (r: Result<
        (u64, Address, u64),
        DecodeError,
    >)
        ensures
            r is Ok <==> event_matches(*schema, *raw)
                && is_u64_at(eparams(*schema, *raw), 0)
                && is_addr_at(eparams(*schema, *raw), 3)
                && is_u64_at(eparams(*schema, *raw), 4),
            r matches Ok(t) ==> t.0 == u64_at(eparams(*schema, *raw), 0)
                && t.1@ == addr_at(eparams(*schema, *raw), 3)
                && t.2 == u64_at(eparams(*schema, *raw), 4),
    {
        let params = XProtocol::parse_log(raw, schema)?;
        let proposal_id = XProtocol::get_index(params.as_slice(), 0)?.to_u64()?;
        let proposal = XProtocol::get_index(params.as_slice(), 3)?.to_address()?;
        let time = XProtocol::get_index(params.as_slice(), 4)?.to_u64()?;
        Ok((proposal_id, proposal, time))
    }

    /// The close time, category, settlement token and initial liquidity of
    /// a `createProposal` call input (selector already stripped).
    pub fn parse_create_proposal_input(schema: &FunctionSchema, input: &Vec<u8>) -> (r: Result<
        (u64, u64, Address, u128),
        DecodeError,
    >)
        ensures
            r is Ok <==> call_matches(*schema, input@)
                && is_u64_at(cparams(*schema, input@), 3)
                && is_u64_at(cparams(*schema, input@), 4)
                && is_addr_at(cparams(*schema, input@), 5)
                && is_u128_at(cparams(*schema, input@), 6),
            r matches Ok(t) ==> t.0 == u64_at(cparams(*schema, input@), 3)
                && t.1 == u64_at(cparams(*schema, input@), 4)
                && t.2@ == addr_at(cparams(*schema, input@), 5)
                && t.3 == u128_at(cparams(*schema, input@), 6),
    {
        let params = crate::abi::decode_call(schema, input)?;
        let close_time = XProtocol::get_index(params.as_slice(), 3)?.to_u64()?;
        let category = XProtocol::get_index(params.as_slice(), 4)?.to_u64()?;
        let found = XProtocol::get_index(params.as_slice(), 5)?.to_address()?;
        let number = XProtocol::get_index(params.as_slice(), 6)?.to_u128()?;
        Ok((close_time, category, found, number))
    }

    /// Probe one Factory log against all three shapes; pure, no effect.
    pub fn with_factory(abi: &FactoryAbi, raw: &RawLog) -> (r: FactoryProbe)
        ensures
            ({
                let ok = event_matches(abi.support_markets, *raw)
                    && is_addr_at(eparams(abi.support_markets, *raw), 0);
                &&& (r.support_markets is Some <==> ok)
                &&& (r.support_markets matches Some(a)
                    ==> a@ == addr_at(eparams(abi.support_markets, *raw), 0))
            }),
            ({
                let ok = event_matches(abi.settlement_currency_paused, *raw)
                    && is_addr_at(eparams(abi.settlement_currency_paused, *raw), 0);
                &&& (r.settlement_paused is Some <==> ok)
                &&& (r.settlement_paused matches Some(a)
                    ==> a@ == addr_at(eparams(abi.settlement_currency_paused, *raw), 0))
            }),
            ({
                let ok = event_matches(abi.create_proposal, *raw)
                    && is_u64_at(eparams(abi.create_proposal, *raw), 0)
                    && is_addr_at(eparams(abi.create_proposal, *raw), 3)
                    && is_u64_at(eparams(abi.create_proposal, *raw), 4);
                &&& (r.create is Some <==> ok)
                &&& (r.create matches Some(t)
                    ==> t.0 == u64_at(eparams(abi.create_proposal, *raw), 0)
                        && t.1@ == addr_at(eparams(abi.create_proposal, *raw), 3)
                        && t.2 == u64_at(eparams(abi.create_proposal, *raw), 4))
            }),
    {
        let support_markets = match Self::parse_log_address(raw, &abi.support_markets) {
            Ok(a) => Some(a),
            Err(_) => None,
        };
        let settlement_paused = match Self::parse_log_address(raw, &abi.settlement_currency_paused) {
            Ok(a) => Some(a),
            Err(_) => None,
        };
        let create = match Self::parse_log_create_proposal(raw, &abi.create_proposal) {
            Ok(t) => Some(t),
            Err(_) => None,
        };
        FactoryProbe { support_markets, settlement_paused, create }
    }

    /// Apply one coin-support toggle: the in-memory table and the durable
    /// table take the formatted address with the fetched symbol, and every
    /// `coinsSupport` subscriber is told whether the coin was added or
    /// dropped.
    pub fn with_address(data: &mut AppData, store: &mut StoreDB, addr: &Address, symbol: String,
        flag: bool) -> (ds: Vec<Delivery>)
        requires
            old(data).wf(),
            old(store).wf(),
        ensures
            final(data).wf(),
            final(store).wf(),
            support_upsert_ok(old(data).support(), final(data).support(), spec_hex(addr@),
                symbol@, flag),
            coins_upsert_ok(old(store).coin_rows(), final(store).coin_rows(), spec_hex(addr@),
                symbol@, flag),
            final(data).index() == old(data).index(),
            final(data).proposals_state@ == old(data).proposals_state@,
            final(data).registry() == old(data).registry(),
            final(data).current_block == old(data).current_block,
            final(data).chain_id == old(data).chain_id,
            final(store).blocks@ == old(store).blocks@,
            final(store).props() == old(store).props(),
            final(store).rels() == old(store).rels(),
            final(store).prices@ == old(store).prices@,
            deliveries_view(ds@) == spec_deliveries(old(data).registry(), "coinsSupport"@,
                if flag { SubOpCode::Add } else { SubOpCode::Del },
                PushVal::Coin(spec_hex(addr@))),
    {
        let hex = addr.to_hex();
        data.insert_support(hex.clone(), symbol.clone(), flag);
        store.write_coins_support(hex.clone(), symbol, flag);
        let op = if flag { SubOpCode::Add } else { SubOpCode::Del };
        data.push_to_client("coinsSupport", op, &PushData::Coin(hex))
    }

    /// Persist a decoded proposal creation: decode the originating
    /// transaction's input, write the proposal row, the creator's `Create`
    /// relation and the initial 50/50 price point, register the contract in
    /// the index, and tell every `proposalStatus` subscriber.  Fails — with
    /// nothing changed — exactly when the input does not carry the
    /// `createProposal` shape.
    pub fn update_new_proposal(data: &mut AppData, store: &mut StoreDB, abi: &FactoryAbi,
        tx_input: &Vec<u8>, tx_from: &Address, proposal_id: u64, proposal_add: &Address,
        create_time: u64) -> (r: Result<Vec<Delivery>, DecodeError>)
        requires
            old(data).wf(),
            old(store).wf(),
        ensures
            final(data).wf(),
            final(store).wf(),
            r is Ok <==> call_matches(abi.create_proposal_fn, tx_input@)
                && is_u64_at(cparams(abi.create_proposal_fn, tx_input@), 3)
                && is_u64_at(cparams(abi.create_proposal_fn, tx_input@), 4)
                && is_addr_at(cparams(abi.create_proposal_fn, tx_input@), 5)
                && is_u128_at(cparams(abi.create_proposal_fn, tx_input@), 6),
            r is Err ==> *final(data) == *old(data) && *final(store) == *old(store),
            r matches Ok(ds) ==> ({
                let ps = cparams(abi.create_proposal_fn, tx_input@);
                &&& full_upsert_ok(old(store).props(), final(store).props(), proposal_id,
                    proposal_add@, u64_at(ps, 4), addr_at(ps, 5), ProposalState::Original,
                    u128_at(ps, 6), create_time, u64_at(ps, 3))
                &&& final(store).rels() == apply_relation(old(store).rels(),
                    (proposal_id, tx_from@, ProposalRelation::Create))
                &&& final(store).prices@ == apply_price(old(store).prices@,
                    PriceRow { proposal_id, ts: create_time, token1: 50, token2: 50 })
                &&& final(store).blocks@ == old(store).blocks@
                &&& final(store).coin_rows() == old(store).coin_rows()
                &&& index_upsert_ok(old(data).index(), final(data).index(), proposal_add@,
                    proposal_id)
                &&& states_upsert_ok(old(data).proposals_state@, final(data).proposals_state@,
                    proposal_id, ProposalState::Original)
                &&& final(data).support() == old(data).support()
                &&& final(data).registry() == old(data).registry()
                &&& final(data).current_block == old(data).current_block
                &&& deliveries_view(ds@) == spec_deliveries(old(data).registry(),
                    "proposalStatus"@, SubOpCode::Update,
                    PushVal::Proposal((proposal_id, spec_hex(proposal_add@),
                        spec_state_code(ProposalState::Original))))
            }),
    {
        let (close_time, category, token, number) =
            Self::parse_create_proposal_input(&abi.create_proposal_fn, tx_input)?;
        store.write_proposals(proposal_id, proposal_add.dup(), category, token,
            ProposalState::Original, number, [create_time, close_time]);
        proof {
            let ps = cparams(abi.create_proposal_fn, tx_input@);
            assert(full_upsert_ok(old(store).props(), store.props(), proposal_id,
                proposal_add@, u64_at(ps, 4), addr_at(ps, 5), ProposalState::Original,
                u128_at(ps, 6), create_time, u64_at(ps, 3))) by {
                if exists|j: int| 0 <= j < old(store).props().len()
                    && (#[trigger] old(store).props()[j]).proposal_id == proposal_id {
                    assert(exists|j: int|
                        {
                            &&& 0 <= j < old(store).props().len()
                            &&& (#[trigger] old(store).props()[j]).proposal_id == proposal_id
                            &&& store.props().len() == old(store).props().len()
                            &&& store.props()[j] == (ProposalRowV {
                                address: proposal_add@,
                                category: u64_at(ps, 4),
                                token: addr_at(ps, 5),
                                state: ProposalState::Original,
                                liquidity: u128_at(ps, 6),
                                create_time,
                                close_time: u64_at(ps, 3),
                                ..old(store).props()[j]
                            })
                            &&& (forall|k: int|
                                0 <= k < old(store).props().len() && k != j
                                ==> #[trigger] store.props()[k] == old(store).props()[k])
                        });
                }
            }
        }
        store.write_relation(proposal_id, tx_from.dup(), ProposalRelation::Create);
        store.write_price(proposal_id, create_time, [50, 50]);
        data.insert_proposal(proposal_add.dup(), proposal_id);
        data.set_proposal_state(proposal_id, ProposalState::Original);
        let status = ProposalStatus::new(proposal_id, proposal_add, ProposalState::Original);
        let ds = data.push_to_client("proposalStatus", SubOpCode::Update,
            &PushData::Proposal(status));
        Ok(ds)
    }
}

} // verus!
