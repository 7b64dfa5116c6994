//! Shared record types of the platform: proposal lifecycle and audit states,
//! account/proposal relations, response wrappers, and the error taxonomy of
//! the service edge.

use vstd::prelude::*;
use crate::address::str_eq;

verus! {

/// A response wrapper: an HTTP-style status code and a payload.
#[derive(Debug)]
pub struct XResponse<T> {
    pub code: u16,
    pub data: T,
}

impl<T> XResponse<T> {
    pub fn new(code: u16, data: T) -> (r: XResponse<T>)
        ensures
            r.code == code,
            r.data == data,
    {
        XResponse { code, data }
    }
}

/// A supported settlement coin, as listed to clients.
#[derive(Debug)]
pub struct Coins {
    pub address: String,
    pub symbol: String,
}

/// One day of price history, as listed to clients.
#[derive(Debug)]
pub struct History {
    pub ts: u64,
    pub t1: Vec<String>,
    pub t2: Vec<String>,
}

/// The lifecycle state of a proposal; transitions are event-driven only.
#[derive(Clone, Copy, Debug, PartialEq, Eq, Hash, Structural)]
pub enum ProposalState {
    Original,
    Formal,
    End,
}

impl ProposalState {
    /// The numeric code the wire protocol carries for this state.
    pub fn code(&self) -> (r: u8)
        ensures
            r == spec_state_code(*self),
    {
        match self {
            ProposalState::Original => 0,
            ProposalState::Formal => 1,
            ProposalState::End => 2,
        }
    }

    /// Parse the lowercase state name the store hands out.
    pub fn parse(s: &str) -> (r: Result<ProposalState, XProtocolError>)
        ensures
            s@ == "original"@ ==> r == Ok::<ProposalState, XProtocolError>(ProposalState::Original),
            s@ == "formal"@ ==> r == Ok::<ProposalState, XProtocolError>(ProposalState::Formal),
            s@ == "end"@ ==> r == Ok::<ProposalState, XProtocolError>(ProposalState::End),
            s@ != "original"@ && s@ != "formal"@ && s@ != "end"@
                ==> r == Err::<ProposalState, XProtocolError>(XProtocolError::ExpectationFailed),
    {
        proof {
            reveal_strlit("original");
            reveal_strlit("formal");
            reveal_strlit("end");
            assert("original"@.len() == 8);
            assert("formal"@.len() == 6);
            assert("end"@.len() == 3);
        }
        if str_eq(s, "original") {
            proof {
                assert(s@ != "formal"@);
                assert(s@ != "end"@);
            }
            Ok(ProposalState::Original)
        } else if str_eq(s, "formal") {
            proof {
                assert(s@ != "end"@);
            }
            Ok(ProposalState::Formal)
        } else if str_eq(s, "end") {
            Ok(ProposalState::End)
        } else {
            Err(XProtocolError::ExpectationFailed)
        }
    }
}

/// The wire code of each lifecycle state.
pub open spec fn spec_state_code(s: ProposalState) -> u8 {
    match s {
        ProposalState::Original => 0,
        ProposalState::Formal => 1,
        ProposalState::End => 2,
    }
}

/// The review outcome of a proposal, distinct from its lifecycle state.
#[derive(Clone, Copy, Debug, PartialEq, Eq, Hash, Structural)]
pub enum ProposalAduitState {
    NotReviewed,
    Passed,
    NotPassed,
}

/// How an account is related to a proposal.
#[derive(Clone, Copy, Debug, PartialEq, Eq, Structural)]
pub enum ProposalRelation {
    Liquidity,
    Create,
    Trade,
}

impl ProposalRelation {
    /// The numeric relation selector the query surface accepts.
    pub fn try_from(value: u32) -> (r: Result<ProposalRelation, XProtocolError>)
        ensures
            value == 0 ==> r == Ok::<ProposalRelation, XProtocolError>(ProposalRelation::Liquidity),
            value == 1 ==> r == Ok::<ProposalRelation, XProtocolError>(ProposalRelation::Create),
            value == 2 ==> r == Ok::<ProposalRelation, XProtocolError>(ProposalRelation::Trade),
            value > 2 ==> r == Err::<ProposalRelation, XProtocolError>(
                XProtocolError::ExpectationFailed),
    {
        match value {
            0 => Ok(ProposalRelation::Liquidity),
            1 => Ok(ProposalRelation::Create),
            2 => Ok(ProposalRelation::Trade),
            _ => Err(XProtocolError::ExpectationFailed),
        }
    }
}

/// A page request from the query surface.
#[derive(Clone, Copy, Debug)]
pub struct Pagination {
    pub page: usize,
    pub count: usize,
}

/// One proposal as listed to clients.
#[derive(Debug)]
pub struct ProposalItem {
    pub proposal_id: u64,
    pub create_time: u64,
    pub address: String,
}

/// A page of listed proposals.
#[derive(Debug)]
pub struct ProposalList<T> {
    pub total: usize,
    pub current: usize,
    pub list: T,
}

/// The error envelope sent to a single offending connection.
#[derive(Debug)]
pub struct ErrorResponse {
    pub code: u16,
    pub message: String,
}

impl ErrorResponse {
    pub fn new(code: u16, message: String) -> (r: ErrorResponse)
        ensures
            r.code == code,
            r.message == message,
    {
        ErrorResponse { code, message }
    }
}

/// The service edge's error taxonomy.
#[derive(Clone, Copy, Debug, PartialEq, Eq, Structural)]
pub enum XProtocolError {
    BadRequest,
    NotFound,
    MethodNotAllowed,
    ExpectationFailed,
    InternalServerError,
    InsufficientStorage,
    Unknown,
}

/// Parse a symbol into a typed value; the store hands several enumerations
/// out as their lowercase names.
pub trait FromSymbol: Sized {
    type Err;

    fn from_str(s: &str) -> Result<Self, Self::Err>;
}

impl FromSymbol for ProposalState {
    type Err = XProtocolError;

    fn from_str(s: &str) -> Result<ProposalState, XProtocolError> {
        ProposalState::parse(s)
    }
}

impl FromSymbol for ProposalAduitState {
    type Err = XProtocolError;

    fn from_str(s: &str) -> Result<ProposalAduitState, XProtocolError> {
        if str_eq(s, "not_reviewed") {
            Ok(ProposalAduitState::NotReviewed)
        } else if str_eq(s, "passed") {
            Ok(ProposalAduitState::Passed)
        } else if str_eq(s, "not_passed") {
            Ok(ProposalAduitState::NotPassed)
        } else {
            Err(XProtocolError::ExpectationFailed)
        }
    }
}

} // verus!
