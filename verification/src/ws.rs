//! Wire-protocol records for the per-connection session.
//!
//! Clients send `{"op": "ping"|"pong"}` or `{"op": "sub"|"unsub", "target":
//! ..., "id": ...}`; the server acknowledges subscription requests with
//! `{code, id}` and pushes `{op, target, data, id}` envelopes.  The JSON
//! encoding itself lives outside the library; these are the values it
//! carries.

use vstd::prelude::*;

verus! {

/// A client-originated operation.
#[derive(Clone, Copy, Debug, PartialEq, Eq, Structural)]
pub enum OpCode {
    Ping,
    Pong,
    Sub,
    Unsub,
}

/// A subscription request: the topic and the client-chosen request id that
/// is echoed in every push for this subscription.
#[derive(Debug)]
pub struct XWsSub {
    pub target: String,
    pub id: u64,
}

impl View for XWsSub {
    type V = (Seq<char>, u64);

    open spec fn view(&self) -> (Seq<char>, u64) {
        (self.target@, self.id)
    }
}

impl XWsSub {
    /// An explicit copy that keeps both fields exactly.
    pub fn dup(&self) -> (r: XWsSub)
        ensures
            r@ == self@,
    {
        XWsSub { target: self.target.clone(), id: self.id }
    }
}

impl PartialEq for XWsSub {
    /// Subscriptions are equal exactly when topic and id both are.
    fn eq(&self, other: &XWsSub) -> (r: bool) {
        self.target == other.target && self.id == other.id
    }
}

impl vstd::std_specs::cmp::PartialEqSpecImpl for XWsSub {
    open spec fn obeys_eq_spec() -> bool {
        true
    }

    open spec fn eq_spec(&self, other: &XWsSub) -> bool {
        self@ == other@
    }
}

/// The acknowledgement for a subscribe/unsubscribe request.
#[derive(Debug)]
pub struct XWsSubRes {
    pub code: u16,
    pub id: u64,
}

impl XWsSubRes {
    pub fn new(code: u16, id: u64) -> (r: XWsSubRes)
        ensures
            r.code == code,
            r.id == id,
    {
        XWsSubRes { code, id }
    }
}

/// What a push envelope does to the subscribed value.
#[derive(Clone, Copy, Debug, PartialEq, Eq, Structural)]
pub enum SubOpCode {
    Add,
    Del,
    Update,
}

/// A push envelope: operation, topic, payload, and the subscription's
/// request id.
#[derive(Debug)]
pub struct SubOp<T> {
    pub op: SubOpCode,
    pub target: String,
    pub data: T,
    pub id: u64,
}

impl<T> SubOp<T> {
    pub fn new(op: SubOpCode, target: String, data: T, id: u64) -> (r: SubOp<T>)
        ensures
            r.op == op,
            r.target == target,
            r.data == data,
            r.id == id,
    {
        SubOp { op, target, data, id }
    }
}

/// A serialized frame on its way out to one connection.
#[derive(Debug)]
pub struct WsMessage(pub String);

} // verus!
