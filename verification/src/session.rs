//! The per-connection session protocol: heartbeat liveness and the four
//! client operations.
//!
//! A session answers `ping` with `pong` and `pong` with `ping`, resetting
//! its liveness clock either way; it registers and removes subscriptions
//! with an acknowledgement; anything malformed earns an error envelope
//! while the connection stays open.  A connection silent for more than the
//! client timeout is force-closed by the heartbeat timer, and teardown
//! drops every subscription it owns.

use vstd::prelude::*;
use crate::handle::ErrorResponse;
use crate::state::{AppData, sub_insert_ok, subs_has};
use crate::ws::{XWsSub, XWsSubRes};

verus! {

/// How often the liveness timer fires, in milliseconds.
pub const HEARTBEAT_INTERVAL_MS: u64 = 5 * 1000;

/// How long a connection may stay silent before it is force-closed, in
/// milliseconds.
pub const CLIENT_TIMEOUT_MS: u64 = 15 * 1000;

/// A parsed client message.
pub enum ClientRequest {
    Ping,
    Pong,
    Sub(XWsSub),
    Unsub(XWsSub),
}

/// What the session sends back for one client message.
pub enum SessionReply {
    /// The answer to a client `ping`.
    Pong,
    /// The answer to a client `pong`.
    Ping,
    /// The acknowledgement of a subscribe/unsubscribe request.
    Ack(XWsSubRes),
    /// The error envelope for a malformed message.
    Fault(ErrorResponse),
}

/// One live connection: its handle and the time of its last sign of life.
pub struct Session {
    pub conn: u64,
    pub hb: u64,
}

impl Session {
    /// A fresh session, alive as of now.
    pub fn new(conn: u64, now: u64) -> (r: Session)
        ensures
            r.conn == conn,
            r.hb == now,
    {
        Session { conn, hb: now }
    }

    /// Whether the heartbeat timer must force-close this connection: it has
    /// been silent for more than the client timeout.
    pub fn heartbeat_expired(&self, now: u64) -> (expired: bool)
        ensures
            expired == (now > self.hb + CLIENT_TIMEOUT_MS),
    {
        now > self.hb && now - self.hb > CLIENT_TIMEOUT_MS
    }

    /// Answer one client message.  Liveness is reset by ping/pong only;
    /// subscribe and unsubscribe mutate the registry and are acknowledged
    /// with code 200 and the request's id; a malformed message earns a
    /// code-500 envelope and changes nothing.
    pub fn with_text(&mut self, data: &mut AppData, req: Option<ClientRequest>, now: u64) -> (r:
        SessionReply)
        requires
            old(data).wf(),
        ensures
            final(data).wf(),
            final(self).conn == old(self).conn,
            final(data).index() == old(data).index(),
            final(data).support() == old(data).support(),
            final(data).proposals_state@ == old(data).proposals_state@,
            final(data).current_block == old(data).current_block,
            final(data).chain_id == old(data).chain_id,
            req is None ==> (r matches SessionReply::Fault(e) && e.code == 500
                && *final(self) == *old(self) && *final(data) == *old(data)),
            req matches Some(ClientRequest::Ping)
                ==> (r is Pong && final(self).hb == now && *final(data) == *old(data)),
            req matches Some(ClientRequest::Pong)
                ==> (r is Ping && final(self).hb == now && *final(data) == *old(data)),
            req matches Some(ClientRequest::Sub(sub)) ==> ({
                &&& (r matches SessionReply::Ack(a) && a.code == 200 && a.id == sub.id)
                &&& final(self).hb == old(self).hb
                &&& sub_insert_ok(old(data).registry(), final(data).registry(),
                    old(self).conn, sub@)
            }),
            req matches Some(ClientRequest::Unsub(sub)) ==> ({
                &&& (r matches SessionReply::Ack(a) && a.code == 200 && a.id == sub.id)
                &&& final(self).hb == old(self).hb
                &&& final(data).registry().len() == old(data).registry().len()
                &&& (forall|k: int| 0 <= k < old(data).registry().len()
                        && (#[trigger] old(data).registry()[k]).0 != old(self).conn
                    ==> final(data).registry()[k] == old(data).registry()[k])
                &&& (forall|j: int| 0 <= j < old(data).registry().len()
                        && (#[trigger] old(data).registry()[j]).0 == old(self).conn
                    ==> (final(data).registry()[j]).0 == old(self).conn
                        && !subs_has((final(data).registry()[j]).1, sub@))
            }),
    {
        match req {
            None => {
                SessionReply::Fault(ErrorResponse::new(500, "malformed message".to_owned()))
            },
            Some(ClientRequest::Ping) => {
                self.hb = now;
                SessionReply::Pong
            },
            Some(ClientRequest::Pong) => {
                self.hb = now;
                SessionReply::Ping
            },
            Some(ClientRequest::Sub(sub)) => {
                let id = sub.id;
                data.client_sub(self.conn, sub);
                SessionReply::Ack(XWsSubRes::new(200, id))
            },
            Some(ClientRequest::Unsub(sub)) => {
                let id = sub.id;
                data.client_unsub(self.conn, &sub);
                SessionReply::Ack(XWsSubRes::new(200, id))
            },
        }
    }

    /// Session teardown: the registry forgets this connection entirely, so
    /// a later broadcast attempts no delivery to it.
    pub fn stopped(&self, data: &mut AppData)
        requires
            old(data).wf(),
        ensures
            final(data).wf(),
            final(data).index() == old(data).index(),
            final(data).support() == old(data).support(),
            final(data).proposals_state@ == old(data).proposals_state@,
            final(data).current_block == old(data).current_block,
            final(data).chain_id == old(data).chain_id,
            forall|k: int| 0 <= k < final(data).registry().len()
                ==> (#[trigger] final(data).registry()[k]).0 != self.conn,
    {
        data.delete_client(self.conn);
    }
}

} // verus!
