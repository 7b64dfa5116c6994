//! The typed face of the log decoder: helpers shared by every handler, and
//! the per-event extraction functions of the Factory, Router and Proposal
//! handlers.
//!
//! Each extraction probes one event or call shape against a raw log or a
//! call input and returns the few fields the handler needs; a mismatch is an
//! error value, never a panic, because handlers probe several shapes per
//! log.

use vstd::prelude::*;
use crate::abi::{
    AbiVal, AbiValue, DecodeError, EventSchema, FunctionSchema, RawLog, be_nat,
    call_params_val, decode_event, event_matches, event_params_val, event_shape_ok,
    event_words_ok,
};
use crate::address::{Address, spec_hex};
use crate::handle::{ProposalState, spec_state_code};

verus! {

/// The `proposalStatus` push payload: id, formatted address, state code.
#[derive(Debug)]
pub struct ProposalStatus {
    pub proposal_id: u64,
    pub address: String,
    pub state: u8,
}

impl View for ProposalStatus {
    type V = (u64, Seq<char>, u8);

    open spec fn view(&self) -> (u64, Seq<char>, u8) {
        (self.proposal_id, self.address@, self.state)
    }
}

impl ProposalStatus {
    pub fn new(proposal_id: u64, address: &Address, state: ProposalState) -> (r: ProposalStatus)
        ensures
            r.proposal_id == proposal_id,
            r.address@ == spec_hex(address@),
            r.state == spec_state_code(state),
    {
        ProposalStatus { proposal_id, address: address.to_hex(), state: state.code() }
    }

    /// An explicit copy that keeps every field exactly.
    pub fn dup(&self) -> (r: ProposalStatus)
        ensures
            r@ == self@,
    {
        ProposalStatus {
            proposal_id: self.proposal_id,
            address: self.address.clone(),
            state: self.state,
        }
    }
}

/// One raw log together with the context the handlers need.
pub struct Log {
    pub address: Address,
    pub raw: RawLog,
    pub transaction_hash: Option<Vec<u8>>,
    pub block_hash: Option<Vec<u8>>,
}

/// Whether parameter `i` exists and is an unsigned integer that fits `u64`.
pub open spec fn is_u64_at(ps: Seq<AbiVal>, i: int) -> bool {
    &&& 0 <= i < ps.len()
    &&& ps[i] is Uint
    &&& be_nat(ps[i]->Uint_0) <= u64::MAX
}

/// The `u64` value of parameter `i`.
pub open spec fn u64_at(ps: Seq<AbiVal>, i: int) -> u64 {
    be_nat(ps[i]->Uint_0) as u64
}

/// Whether parameter `i` exists and is an unsigned integer that fits `u128`.
pub open spec fn is_u128_at(ps: Seq<AbiVal>, i: int) -> bool {
    &&& 0 <= i < ps.len()
    &&& ps[i] is Uint
    &&& be_nat(ps[i]->Uint_0) <= u128::MAX
}

/// The `u128` value of parameter `i`.
pub open spec fn u128_at(ps: Seq<AbiVal>, i: int) -> u128 {
    be_nat(ps[i]->Uint_0) as u128
}

/// Whether parameter `i` exists and is an address.
pub open spec fn is_addr_at(ps: Seq<AbiVal>, i: int) -> bool {
    0 <= i < ps.len() && ps[i] is Address
}

/// The address bytes of parameter `i`.
pub open spec fn addr_at(ps: Seq<AbiVal>, i: int) -> Seq<u8> {
    ps[i]->Address_0
}

/// Whether parameter `i` exists and is a boolean.
pub open spec fn is_bool_at(ps: Seq<AbiVal>, i: int) -> bool {
    0 <= i < ps.len() && ps[i] is Bool
}

/// The boolean value of parameter `i`.
pub open spec fn bool_at(ps: Seq<AbiVal>, i: int) -> bool {
    ps[i]->Bool_0
}

/// The decoded parameters of a log that matches an event shape.
pub open spec fn eparams(schema: EventSchema, raw: RawLog) -> Seq<AbiVal> {
    event_params_val(schema, raw)
}

/// The decoded head parameters of an input that matches a call shape.
pub open spec fn cparams(schema: FunctionSchema, input: Seq<u8>) -> Seq<AbiVal> {
    call_params_val(schema, input)
}

/// Decoder plumbing shared by every handler.
pub struct XProtocol;

impl XProtocol {
    /// A bounds-checked index into a decoded parameter list.
    pub fn get_index<'a, T>(array: &'a [T], i: usize) -> (r: Result<&'a T, DecodeError>)
        ensures
            i < array@.len() ==> (r matches Ok(v) && *v == array@[i as int]),
            i >= array@.len() ==> (r matches Err(e) && e == DecodeError::Index),
    {
        if i < array.len() {
            Ok(&array[i])
        } else {
            Err(DecodeError::Index)
        }
    }

    /// Decode a raw log against one event shape; succeeds exactly when the
    /// log matches the shape.
    pub fn parse_log(raw: &RawLog, schema: &EventSchema) -> (r: Result<Vec<AbiValue>, DecodeError>)
        ensures
            r is Ok <==> event_matches(*schema, *raw),
            r matches Ok(vals) ==> vals@.map_values(|v: AbiValue| v@)
                == event_params_val(*schema, *raw),
            !event_shape_ok(*schema, *raw)
                ==> r == Err::<Vec<AbiValue>, DecodeError>(DecodeError::Shape),
            event_shape_ok(*schema, *raw) && !event_words_ok(*schema, *raw)
                ==> r == Err::<Vec<AbiValue>, DecodeError>(DecodeError::Value),
    {
        decode_event(schema, raw)
    }
}

} // verus!
