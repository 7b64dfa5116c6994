//! The in-memory derived state shared by the scheduler and the sessions:
//! the proposal index (contract address to proposal id), the per-proposal
//! lifecycle states, the supported-coin table, the latest announced block,
//! and the subscription registry.
//!
//! Connections are identified by plain integer handles; delivering a frame
//! to a live socket is the caller's business, so the broadcast fan-out
//! returns the envelopes to send instead of sending them.

use vstd::prelude::*;
use crate::address::{Address, str_eq};
use crate::events::ProposalStatus;
use crate::handle::ProposalState;
use crate::ws::{SubOp, SubOpCode, XWsSub};

verus! {

/// One row of the proposal index.
pub struct ProposalIndexEntry {
    pub address: Address,
    pub proposal_id: u64,
}

/// One row of the supported-coin table.
pub struct CoinSupport {
    pub address: String,
    pub symbol: String,
    pub flag: bool,
}

/// One connection's subscriptions.
pub struct ClientEntry {
    pub conn: u64,
    pub subs: Vec<XWsSub>,
}

/// A broadcast payload.
pub enum PushData {
    /// The chain head, for topic `newBlock`.
    Block(u64),
    /// A coin address, for topic `coinsSupport`.
    Coin(String),
    /// A proposal status, for topic `proposalStatus`.
    Proposal(ProposalStatus),
}

/// The mathematical shadow of [`PushData`].
pub enum PushVal {
    Block(u64),
    Coin(Seq<char>),
    Proposal((u64, Seq<char>, u8)),
}

impl View for PushData {
    type V = PushVal;

    open spec fn view(&self) -> PushVal {
        match self {
            PushData::Block(b) => PushVal::Block(*b),
            PushData::Coin(a) => PushVal::Coin(a@),
            PushData::Proposal(p) => PushVal::Proposal(p@),
        }
    }
}

impl PushData {
    /// An explicit copy that keeps the payload exactly.
    pub fn dup(&self) -> (r: PushData)
        ensures
            r@ == self@,
    {
        match self {
            PushData::Block(b) => PushData::Block(*b),
            PushData::Coin(a) => PushData::Coin(a.clone()),
            PushData::Proposal(p) => PushData::Proposal(p.dup()),
        }
    }
}

/// One envelope on its way to one connection.
pub struct Delivery {
    pub conn: u64,
    pub msg: SubOp<PushData>,
}

/// The view of one delivery: `(connection, (op, target, payload, id))`.
pub open spec fn delivery_view(d: Delivery) -> (u64, (SubOpCode, Seq<char>, PushVal, u64)) {
    (d.conn, (d.msg.op, d.msg.target@, d.msg.data@, d.msg.id))
}

/// The index rows as address/id pairs.
pub open spec fn entries_view(s: Seq<ProposalIndexEntry>) -> Seq<(Seq<u8>, u64)> {
    Seq::new(s.len(), |k: int| (s[k].address@, s[k].proposal_id))
}

/// The coin rows as (address, symbol, enabled) triples.
pub open spec fn support_view(s: Seq<CoinSupport>) -> Seq<(Seq<char>, Seq<char>, bool)> {
    Seq::new(s.len(), |k: int| (s[k].address@, s[k].symbol@, s[k].flag))
}

/// A subscription list as (topic, id) pairs.
pub open spec fn subs_view(s: Seq<XWsSub>) -> Seq<(Seq<char>, u64)> {
    Seq::new(s.len(), |k: int| (s[k].target@, s[k].id))
}

/// The registry rows as (connection, subscriptions) pairs.
pub open spec fn registry_view(s: Seq<ClientEntry>) -> Seq<(u64, Seq<(Seq<char>, u64)>)> {
    Seq::new(s.len(), |k: int| (s[k].conn, subs_view(s[k].subs@)))
}

/// No subscription appears twice in one connection's list.
pub open spec fn distinct_subs(subs: Seq<(Seq<char>, u64)>) -> bool {
    forall|i: int, j: int| 0 <= i < j < subs.len() ==> subs[i] != subs[j]
}

/// What an index upsert leaves: the row keyed by this address rewritten, or
/// a fresh row appended.
pub open spec fn index_upsert_ok(
    olds: Seq<(Seq<u8>, u64)>,
    news: Seq<(Seq<u8>, u64)>,
    addr: Seq<u8>,
    id: u64,
) -> bool {
    &&& (exists|j: int| 0 <= j < olds.len() && (#[trigger] olds[j]).0 == addr)
        ==> exists|j: int|
            {
                &&& 0 <= j < olds.len()
                &&& (#[trigger] olds[j]).0 == addr
                &&& news.len() == olds.len()
                &&& news[j] == (addr, id)
                &&& (forall|k: int| 0 <= k < olds.len() && k != j
                    ==> #[trigger] news[k] == olds[k])
            }
    &&& (forall|j: int| 0 <= j < olds.len() ==> (#[trigger] olds[j]).0 != addr)
        ==> news.len() == olds.len() + 1
            && news.last() == (addr, id)
            && (forall|k: int| 0 <= k < olds.len() ==> #[trigger] news[k] == olds[k])
}

/// What a state-table upsert leaves: the row keyed by this id rewritten, or
/// a fresh row appended.
pub open spec fn states_upsert_ok(
    olds: Seq<(u64, ProposalState)>,
    news: Seq<(u64, ProposalState)>,
    id: u64,
    state: ProposalState,
) -> bool {
    &&& (exists|i: int| 0 <= i < news.len() && #[trigger] news[i] == (id, state))
    &&& (exists|j: int| 0 <= j < olds.len() && (#[trigger] olds[j]).0 == id)
        ==> news.len() == olds.len()
    &&& (forall|j: int| 0 <= j < olds.len() ==> (#[trigger] olds[j]).0 != id)
        ==> news.len() == olds.len() + 1
    &&& (forall|k: int| 0 <= k < olds.len() && (#[trigger] olds[k]).0 != id
        ==> news[k] == olds[k])
}

/// What a support-table upsert leaves: the row with this (address, symbol)
/// key rewritten, or a fresh row appended.
pub open spec fn support_upsert_ok(
    olds: Seq<(Seq<char>, Seq<char>, bool)>,
    news: Seq<(Seq<char>, Seq<char>, bool)>,
    addr: Seq<char>,
    symbol: Seq<char>,
    flag: bool,
) -> bool {
    &&& (exists|i: int| 0 <= i < news.len() && #[trigger] news[i] == (addr, symbol, flag))
    &&& (exists|j: int| 0 <= j < olds.len()
            && ((#[trigger] olds[j]).0, olds[j].1) == (addr, symbol))
        ==> news.len() == olds.len()
    &&& (forall|j: int| 0 <= j < olds.len()
            ==> ((#[trigger] olds[j]).0, olds[j].1) != (addr, symbol))
        ==> news.len() == olds.len() + 1
    &&& (forall|k: int| 0 <= k < olds.len()
            && ((#[trigger] olds[k]).0, olds[k].1) != (addr, symbol)
        ==> news[k] == olds[k])
}

/// What a subscription insert leaves of the registry: idempotent set-insert
/// into the connection's entry, or a fresh one-subscription entry.
pub open spec fn sub_insert_ok(
    olds: Seq<(u64, Seq<(Seq<char>, u64)>)>,
    news: Seq<(u64, Seq<(Seq<char>, u64)>)>,
    conn: u64,
    sub: (Seq<char>, u64),
) -> bool {
    &&& (exists|j: int| 0 <= j < olds.len() && (#[trigger] olds[j]).0 == conn)
        ==> exists|j: int|
            {
                &&& 0 <= j < olds.len()
                &&& (#[trigger] olds[j]).0 == conn
                &&& news.len() == olds.len()
                &&& (forall|k: int| 0 <= k < olds.len() && k != j
                    ==> #[trigger] news[k] == olds[k])
                &&& (subs_has(olds[j].1, sub) ==> news[j] == olds[j])
                &&& (!subs_has(olds[j].1, sub) ==> news[j] == (conn, olds[j].1.push(sub)))
            }
    &&& (forall|j: int| 0 <= j < olds.len() ==> (#[trigger] olds[j]).0 != conn)
        ==> news.len() == olds.len() + 1
            && news.last() == (conn, seq![sub])
            && (forall|k: int| 0 <= k < olds.len() ==> #[trigger] news[k] == olds[k])
}

/// The shared in-memory state.
pub struct AppData {
    pub chain_id: u32,
    pub current_block: u64,
    pub support_list: Vec<CoinSupport>,
    pub proposals: Vec<ProposalIndexEntry>,
    pub proposals_state: Vec<(u64, ProposalState)>,
    pub client_list: Vec<ClientEntry>,
}

/// One proposal as loaded from the durable store at startup.
pub struct ProposalSeed {
    pub proposal_id: u64,
    pub address: Address,
    pub state: ProposalState,
}

impl AppData {
    /// The proposal index as address/id pairs, in table order.
    pub open spec fn index(&self) -> Seq<(Seq<u8>, u64)> {
        entries_view(self.proposals@)
    }

    /// The supported-coin table as (address, symbol, enabled) rows.
    pub open spec fn support(&self) -> Seq<(Seq<char>, Seq<char>, bool)> {
        support_view(self.support_list@)
    }

    /// The registry as (connection, subscriptions) rows.
    pub open spec fn registry(&self) -> Seq<(u64, Seq<(Seq<char>, u64)>)> {
        registry_view(self.client_list@)
    }

    /// No two index rows share an address.
    pub open spec fn wf_index(&self) -> bool {
        forall|i: int, j: int| 0 <= i < j < self.index().len()
            ==> (#[trigger] self.index()[i]).0 != (#[trigger] self.index()[j]).0
    }

    /// No two coin rows share an (address, symbol) key.
    pub open spec fn wf_support(&self) -> bool {
        forall|i: int, j: int| 0 <= i < j < self.support().len()
            ==> ((#[trigger] self.support()[i]).0, self.support()[i].1)
                != ((#[trigger] self.support()[j]).0, self.support()[j].1)
    }

    /// No two state rows share an id.
    pub open spec fn wf_states(&self) -> bool {
        forall|i: int, j: int| 0 <= i < j < self.proposals_state@.len()
            ==> (#[trigger] self.proposals_state@[i]).0 != (#[trigger] self.proposals_state@[j]).0
    }

    /// No two registry rows share a connection, and no connection holds the
    /// same subscription twice.
    pub open spec fn wf_clients(&self) -> bool {
        &&& forall|i: int, j: int| 0 <= i < j < self.registry().len()
            ==> (#[trigger] self.registry()[i]).0 != (#[trigger] self.registry()[j]).0
        &&& forall|i: int| 0 <= i < self.registry().len()
            ==> distinct_subs((#[trigger] self.registry()[i]).1)
    }

    /// Every table is keyed consistently.
    pub open spec fn wf(&self) -> bool {
        self.wf_index() && self.wf_support() && self.wf_states() && self.wf_clients()
    }

    /// Fresh state for one chain, seeded with the proposals the store holds
    /// row by row.  A store with a unique address key hands the seeds out
    /// distinct, which the index invariant needs.
    pub fn new(chain_id: u32, proposals: Vec<ProposalSeed>) -> (r: AppData)
        requires
            forall|i: int, j: int| 0 <= i < j < proposals@.len()
                ==> (#[trigger] proposals@[i]).address@ != (#[trigger] proposals@[j]).address@,
            forall|i: int, j: int| 0 <= i < j < proposals@.len()
                ==> (#[trigger] proposals@[i]).proposal_id
                    != (#[trigger] proposals@[j]).proposal_id,
        ensures
            r.wf(),
            r.chain_id == chain_id,
            r.current_block == 0,
            r.support().len() == 0,
            r.registry().len() == 0,
            r.index().len() == proposals@.len(),
            forall|k: int| 0 <= k < proposals@.len()
                ==> #[trigger] r.index()[k]
                    == ((#[trigger] proposals@[k]).address@, proposals@[k].proposal_id),
            r.proposals_state@.len() == proposals@.len(),
            forall|k: int| 0 <= k < proposals@.len()
                ==> #[trigger] r.proposals_state@[k]
                    == ((#[trigger] proposals@[k]).proposal_id, proposals@[k].state),
    {
        let mut index: Vec<ProposalIndexEntry> = Vec::new();
        let mut states: Vec<(u64, ProposalState)> = Vec::new();
        let n = proposals.len();
        let mut i: usize = 0;
        while i < n
            invariant
                i <= n,
                n == proposals@.len(),
                index@.len() == i,
                states@.len() == i,
                forall|k: int| 0 <= k < i
                    ==> (#[trigger] index@[k]).address@ == (#[trigger] proposals@[k]).address@
                        && index@[k].proposal_id == proposals@[k].proposal_id,
                forall|k: int| 0 <= k < i
                    ==> #[trigger] states@[k]
                        == ((#[trigger] proposals@[k]).proposal_id, proposals@[k].state),
            decreases n - i,
        {
            let seed = &proposals[i];
            index.push(ProposalIndexEntry {
                address: seed.address.dup(),
                proposal_id: seed.proposal_id,
            });
            states.push((seed.proposal_id, seed.state));
            i = i + 1;
        }
        let r = AppData {
            chain_id,
            current_block: 0,
            support_list: Vec::new(),
            proposals: index,
            proposals_state: states,
            client_list: Vec::new(),
        };
        proof {
            assert(forall|k: int| 0 <= k < proposals@.len()
                ==> #[trigger] r.index()[k]
                    == ((#[trigger] proposals@[k]).address@, proposals@[k].proposal_id));
            assert forall|a: int, b: int| 0 <= a < b < r.index().len()
                implies (#[trigger] r.index()[a]).0 != (#[trigger] r.index()[b]).0 by {
                assert(proposals@[a].address@ != proposals@[b].address@);
            }
            assert forall|a: int, b: int| 0 <= a < b < r.proposals_state@.len()
                implies (#[trigger] r.proposals_state@[a]).0
                    != (#[trigger] r.proposals_state@[b]).0 by {
                assert(proposals@[a].proposal_id != proposals@[b].proposal_id);
            }
        }
        r
    }

    /// The last chain head announced to clients.
    pub fn get_current_block(&self) -> (r: u64)
        ensures
            r == self.current_block,
    {
        self.current_block
    }

    /// Record a new chain head; returns the previous one.
    pub fn set_current_block(&mut self, block: u64) -> (r: u64)
        ensures
            r == old(self).current_block,
            *final(self) == (AppData { current_block: block, ..*old(self) }),
    {
        let r = self.current_block;
        self.current_block = block;
        r
    }

    /// Whether a log address belongs to a known proposal contract.
    pub fn contains_proposal(&self, proposal: &Address) -> (r: bool)
        ensures
            r == exists|i: int| 0 <= i < self.index().len()
                && (#[trigger] self.index()[i]).0 == proposal@,
    {
        let n = self.proposals.len();
        let mut i: usize = 0;
        while i < n
            invariant
                i <= n,
                n == self.index().len(),
                forall|j: int| 0 <= j < i ==> (#[trigger] self.index()[j]).0 != proposal@,
            decreases n - i,
        {
            if self.proposals[i].address == *proposal {
                assert((self.index()[i as int]).0 == proposal@);
                return true;
            }
            i = i + 1;
        }
        false
    }

    /// The proposal id a contract address resolves to, if any.
    pub fn get_proposal_id(&self, proposal: &Address) -> (r: Option<u64>)
        ensures
            r is Some <==> exists|i: int| 0 <= i < self.index().len()
                && (#[trigger] self.index()[i]).0 == proposal@,
            r matches Some(id) ==> exists|i: int| 0 <= i < self.index().len()
                && #[trigger] self.index()[i] == (proposal@, id),
    {
        let n = self.proposals.len();
        let mut i: usize = 0;
        while i < n
            invariant
                i <= n,
                n == self.index().len(),
                forall|j: int| 0 <= j < i ==> (#[trigger] self.index()[j]).0 != proposal@,
            decreases n - i,
        {
            if self.proposals[i].address == *proposal {
                assert(self.index()[i as int]
                    == (proposal@, self.proposals@[i as int].proposal_id));
                return Some(self.proposals[i].proposal_id);
            }
            i = i + 1;
        }
        None
    }

    /// The contract address of a proposal id: the first index row that
    /// carries the id, if any does.
    pub fn get_proposal_address(&self, proposal_id: u64) -> (r: Option<Address>)
        ensures
            r is Some <==> exists|i: int| 0 <= i < self.index().len()
                && (#[trigger] self.index()[i]).1 == proposal_id,
            r matches Some(a) ==> exists|i: int|
                {
                    &&& 0 <= i < self.index().len()
                    &&& #[trigger] self.index()[i] == (a@, proposal_id)
                    &&& forall|k: int| 0 <= k < i
                        ==> (#[trigger] self.index()[k]).1 != proposal_id
                },
    {
        let n = self.proposals.len();
        let mut i: usize = 0;
        while i < n
            invariant
                i <= n,
                n == self.index().len(),
                forall|j: int| 0 <= j < i ==> (#[trigger] self.index()[j]).1 != proposal_id,
            decreases n - i,
        {
            if self.proposals[i].proposal_id == proposal_id {
                let a = self.proposals[i].address.dup();
                assert(self.index()[i as int] == (a@, proposal_id));
                return Some(a);
            }
            i = i + 1;
        }
        None
    }

    /// All known proposal contract addresses, in table order.
    pub fn get_proposals(&self) -> (r: Vec<Address>)
        ensures
            r@.len() == self.index().len(),
            forall|k: int| 0 <= k < r@.len()
                ==> (#[trigger] r@[k])@ == (#[trigger] self.index()[k]).0,
    {
        let mut r: Vec<Address> = Vec::new();
        let n = self.proposals.len();
        let mut i: usize = 0;
        while i < n
            invariant
                i <= n,
                n == self.index().len(),
                r@.len() == i,
                forall|k: int| 0 <= k < i
                    ==> (#[trigger] r@[k])@ == (#[trigger] self.index()[k]).0,
            decreases n - i,
        {
            r.push(self.proposals[i].address.dup());
            i = i + 1;
        }
        r
    }

    /// Register a proposal contract: update the id of the row holding this
    /// address, or append a fresh row.
    pub fn insert_proposal(&mut self, proposal: Address, proposal_id: u64)
        requires
            old(self).wf(),
        ensures
            final(self).wf(),
            exists|i: int| 0 <= i < final(self).index().len()
                && #[trigger] final(self).index()[i] == (proposal@, proposal_id),
            index_upsert_ok(old(self).index(), final(self).index(), proposal@, proposal_id),
            final(self).proposals_state@ == old(self).proposals_state@,
            final(self).support() == old(self).support(),
            final(self).registry() == old(self).registry(),
            final(self).current_block == old(self).current_block,
            final(self).chain_id == old(self).chain_id,
    {
        let n = self.proposals.len();
        let mut i: usize = 0;
        while i < n
            invariant
                i <= n,
                n == self.index().len(),
                forall|j: int| 0 <= j < i ==> (#[trigger] self.index()[j]).0 != proposal@,
                old(self).wf(),
                *self == *old(self),
            decreases n - i,
        {
            if self.proposals[i].address == proposal {
                self.proposals.set(i, ProposalIndexEntry { address: proposal, proposal_id });
                proof {
                    assert((old(self).index()[i as int]).0 == proposal@);
                    assert(forall|k: int| 0 <= k < self.index().len() && k != i
                        ==> #[trigger] self.index()[k] == old(self).index()[k]);
                    assert(self.index()[i as int] == (proposal@, proposal_id));
                    assert forall|a: int, b: int| 0 <= a < b < self.index().len()
                        implies (#[trigger] self.index()[a]).0
                            != (#[trigger] self.index()[b]).0 by {
                        if a == i {
                            assert((old(self).index()[b]).0 != (old(self).index()[i as int]).0);
                        } else if b == i {
                            assert((old(self).index()[a]).0 != (old(self).index()[i as int]).0);
                        } else {
                            assert((old(self).index()[a]).0 != (old(self).index()[b]).0);
                        }
                    }
                    assert(self.support() =~~= old(self).support());
                    assert(self.registry() =~~= old(self).registry());
                }
                return;
            }
            i = i + 1;
        }
        self.proposals.push(ProposalIndexEntry { address: proposal, proposal_id });
        proof {
            let m = old(self).index().len() as int;
            assert(self.index()[m] == (proposal@, proposal_id));
            assert(self.index().last() == (proposal@, proposal_id));
            assert(forall|k: int| 0 <= k < m
                ==> #[trigger] self.index()[k] == old(self).index()[k]);
            assert forall|a: int, b: int| 0 <= a < b < self.index().len()
                implies (#[trigger] self.index()[a]).0 != (#[trigger] self.index()[b]).0 by {
                if b == m {
                    assert((old(self).index()[a]).0 != proposal@);
                } else {
                    assert((old(self).index()[a]).0 != (old(self).index()[b]).0);
                }
            }
            assert(self.support() =~~= old(self).support());
            assert(self.registry() =~~= old(self).registry());
        }
    }

    /// Record a proposal's lifecycle state: update the row holding this id,
    /// or append a fresh row.
    pub fn set_proposal_state(&mut self, id: u64, state: ProposalState)
        requires
            old(self).wf(),
        ensures
            final(self).wf(),
            states_upsert_ok(old(self).proposals_state@, final(self).proposals_state@, id,
                state),
            final(self).index() == old(self).index(),
            final(self).support() == old(self).support(),
            final(self).registry() == old(self).registry(),
            final(self).current_block == old(self).current_block,
            final(self).chain_id == old(self).chain_id,
    {
        let n = self.proposals_state.len();
        let mut i: usize = 0;
        while i < n
            invariant
                i <= n,
                n == self.proposals_state@.len(),
                forall|j: int| 0 <= j < i ==> (#[trigger] self.proposals_state@[j]).0 != id,
                old(self).wf(),
                *self == *old(self),
            decreases n - i,
        {
            if self.proposals_state[i].0 == id {
                self.proposals_state.set(i, (id, state));
                proof {
                    assert((old(self).proposals_state@[i as int]).0 == id);
                    assert(self.proposals_state@[i as int] == (id, state));
                    assert forall|a: int, b: int| 0 <= a < b < self.proposals_state@.len()
                        implies (#[trigger] self.proposals_state@[a]).0
                            != (#[trigger] self.proposals_state@[b]).0 by {
                        if a == i {
                            assert((old(self).proposals_state@[b]).0
                                != (old(self).proposals_state@[i as int]).0);
                        } else if b == i {
                            assert((old(self).proposals_state@[a]).0
                                != (old(self).proposals_state@[i as int]).0);
                        } else {
                            assert((old(self).proposals_state@[a]).0
                                != (old(self).proposals_state@[b]).0);
                        }
                    }
                    assert(self.index() =~~= old(self).index());
                    assert(self.support() =~~= old(self).support());
                    assert(self.registry() =~~= old(self).registry());
                }
                return;
            }
            i = i + 1;
        }
        self.proposals_state.push((id, state));
        proof {
            let m = old(self).proposals_state@.len() as int;
            assert(self.proposals_state@[m] == (id, state));
            assert forall|a: int, b: int| 0 <= a < b < self.proposals_state@.len()
                implies (#[trigger] self.proposals_state@[a]).0
                    != (#[trigger] self.proposals_state@[b]).0 by {
                if b == m {
                    assert((old(self).proposals_state@[a]).0 != id);
                } else {
                    assert((old(self).proposals_state@[a]).0
                        != (old(self).proposals_state@[b]).0);
                }
            }
            assert(self.index() =~~= old(self).index());
            assert(self.support() =~~= old(self).support());
            assert(self.registry() =~~= old(self).registry());
        }
    }

    /// Record a coin's support flag: update the row with this (address,
    /// symbol) key, or append a fresh row.
    pub fn insert_support(&mut self, addr: String, symbol: String, flag: bool)
        requires
            old(self).wf(),
        ensures
            final(self).wf(),
            support_upsert_ok(old(self).support(), final(self).support(), addr@, symbol@,
                flag),
            final(self).index() == old(self).index(),
            final(self).proposals_state@ == old(self).proposals_state@,
            final(self).registry() == old(self).registry(),
            final(self).current_block == old(self).current_block,
            final(self).chain_id == old(self).chain_id,
    {
        let n = self.support_list.len();
        let mut i: usize = 0;
        while i < n
            invariant
                i <= n,
                n == self.support().len(),
                forall|j: int| 0 <= j < i
                    ==> ((#[trigger] self.support()[j]).0, self.support()[j].1)
                        != (addr@, symbol@),
                old(self).wf(),
                *self == *old(self),
            decreases n - i,
        {
            if self.support_list[i].address == addr && self.support_list[i].symbol == symbol {
                self.support_list.set(i, CoinSupport { address: addr, symbol, flag });
                proof {
                    assert(((old(self).support()[i as int]).0, (old(self).support()[i as int]).1)
                        == (addr@, symbol@));
                    assert(self.support()[i as int] == (addr@, symbol@, flag));
                    assert(forall|k: int| 0 <= k < self.support().len() && k != i
                        ==> #[trigger] self.support()[k] == old(self).support()[k]);
                    assert forall|a: int, b: int| 0 <= a < b < self.support().len()
                        implies ((#[trigger] self.support()[a]).0, self.support()[a].1)
                            != ((#[trigger] self.support()[b]).0, self.support()[b].1) by {
                        if a == i {
                            assert(((old(self).support()[b]).0, (old(self).support()[b]).1)
                                != ((old(self).support()[i as int]).0,
                                    (old(self).support()[i as int]).1));
                        } else if b == i {
                            assert(((old(self).support()[a]).0, (old(self).support()[a]).1)
                                != ((old(self).support()[i as int]).0,
                                    (old(self).support()[i as int]).1));
                        } else {
                            assert(((old(self).support()[a]).0, (old(self).support()[a]).1)
                                != ((old(self).support()[b]).0, (old(self).support()[b]).1));
                        }
                    }
                    assert(self.index() =~~= old(self).index());
                    assert(self.registry() =~~= old(self).registry());
                }
                return;
            }
            i = i + 1;
        }
        self.support_list.push(CoinSupport { address: addr, symbol, flag });
        proof {
            let m = old(self).support().len() as int;
            assert(self.support()[m] == (addr@, symbol@, flag));
            assert(self.support().last() == (addr@, symbol@, flag));
            assert(forall|k: int| 0 <= k < m
                ==> #[trigger] self.support()[k] == old(self).support()[k]);
            assert forall|a: int, b: int| 0 <= a < b < self.support().len()
                implies ((#[trigger] self.support()[a]).0, self.support()[a].1)
                    != ((#[trigger] self.support()[b]).0, self.support()[b].1) by {
                if b == m {
                    assert(((old(self).support()[a]).0, (old(self).support()[a]).1)
                        != (addr@, symbol@));
                } else {
                    assert(((old(self).support()[a]).0, (old(self).support()[a]).1)
                        != ((old(self).support()[b]).0, (old(self).support()[b]).1));
                }
            }
            assert(self.index() =~~= old(self).index());
            assert(self.registry() =~~= old(self).registry());
        }
    }

    /// The enabled coins, as (address, symbol) pairs in table order.
    pub fn coins_support(&self) -> (r: Vec<(String, String)>)
        ensures
            coin_pairs_view(r@) == spec_enabled_coins(self.support()),
    {
        let mut r: Vec<(String, String)> = Vec::new();
        let n = self.support_list.len();
        let mut i: usize = 0;
        while i < n
            invariant
                i <= n,
                n == self.support().len(),
                coin_pairs_view(r@) == spec_enabled_coins(self.support().take(i as int)),
            decreases n - i,
        {
            proof {
                assert(self.support().take(i + 1).drop_last()
                    =~~= self.support().take(i as int));
                assert(self.support().take(i + 1).last() == self.support()[i as int]);
            }
            let row = &self.support_list[i];
            if row.flag {
                r.push((row.address.clone(), row.symbol.clone()));
                proof {
                    assert(coin_pairs_view(r@)
                        =~~= spec_enabled_coins(self.support().take(i as int))
                            + seq![(self.support()[i as int].0, self.support()[i as int].1)]);
                }
            } else {
                proof {
                    assert(spec_enabled_coins(self.support().take(i + 1))
                        =~~= spec_enabled_coins(self.support().take(i as int)));
                }
            }
            i = i + 1;
        }
        proof {
            assert(self.support().take(n as int) =~~= self.support());
        }
        r
    }
}

/// String pairs by their contents.
pub open spec fn coin_pairs_view(s: Seq<(String, String)>) -> Seq<(Seq<char>, Seq<char>)> {
    Seq::new(s.len(), |k: int| (s[k].0@, s[k].1@))
}

/// The (address, symbol) pairs of the rows whose flag is set, in order.
pub open spec fn spec_enabled_coins(rows: Seq<(Seq<char>, Seq<char>, bool)>) -> Seq<(
    Seq<char>,
    Seq<char>,
)>
    decreases rows.len(),
{
    if rows.len() == 0 {
        Seq::empty()
    } else {
        spec_enabled_coins(rows.drop_last())
            + if rows.last().2 { seq![(rows.last().0, rows.last().1)] } else { Seq::empty() }
    }
}

} // verus!

verus! {

/// Whether a subscription list holds a given (topic, id) pair.
pub open spec fn subs_has(subs: Seq<(Seq<char>, u64)>, s: (Seq<char>, u64)) -> bool {
    exists|i: int| 0 <= i < subs.len() && subs[i] == s
}

/// Copy a subscription list, keeping every (topic, id) pair.
fn dup_subs(subs: &Vec<XWsSub>) -> (r: Vec<XWsSub>)
    ensures
        subs_view(r@) == subs_view(subs@),
{
    let mut r: Vec<XWsSub> = Vec::new();
    let n = subs.len();
    let mut i: usize = 0;
    while i < n
        invariant
            i <= n,
            n == subs@.len(),
            r@.len() == i,
            forall|k: int| 0 <= k < i
                ==> (#[trigger] r@[k]).target@ == (#[trigger] subs@[k]).target@
                    && r@[k].id == subs@[k].id,
        decreases n - i,
    {
        r.push(subs[i].dup());
        i = i + 1;
    }
    proof {
        assert(subs_view(r@) =~~= subs_view(subs@));
    }
    r
}

/// Whether one subscription list holds the given pair.
fn subs_contains(subs: &Vec<XWsSub>, sub: &XWsSub) -> (r: bool)
    ensures
        r == subs_has(subs_view(subs@), sub@),
{
    let n = subs.len();
    let mut i: usize = 0;
    while i < n
        invariant
            i <= n,
            n == subs@.len(),
            forall|k: int| 0 <= k < i ==> #[trigger] subs_view(subs@)[k] != sub@,
        decreases n - i,
    {
        if subs[i] == *sub {
            assert(subs_view(subs@)[i as int] == sub@);
            return true;
        }
        i = i + 1;
    }
    false
}

/// The envelopes one connection receives: one per subscription whose topic
/// matches, in subscription order.
pub open spec fn entry_deliveries(
    conn: u64,
    subs: Seq<(Seq<char>, u64)>,
    topic: Seq<char>,
    op: SubOpCode,
    payload: PushVal,
) -> Seq<(u64, (SubOpCode, Seq<char>, PushVal, u64))>
    decreases subs.len(),
{
    if subs.len() == 0 {
        Seq::empty()
    } else {
        entry_deliveries(conn, subs.drop_last(), topic, op, payload)
            + if subs.last().0 == topic {
                seq![(conn, (op, subs.last().0, payload, subs.last().1))]
            } else {
                Seq::empty()
            }
    }
}

/// The envelopes a broadcast produces: every connection's matching
/// subscriptions, in registry order.
pub open spec fn spec_deliveries(
    registry: Seq<(u64, Seq<(Seq<char>, u64)>)>,
    topic: Seq<char>,
    op: SubOpCode,
    payload: PushVal,
) -> Seq<(u64, (SubOpCode, Seq<char>, PushVal, u64))>
    decreases registry.len(),
{
    if registry.len() == 0 {
        Seq::empty()
    } else {
        spec_deliveries(registry.drop_last(), topic, op, payload)
            + entry_deliveries(registry.last().0, registry.last().1, topic, op, payload)
    }
}

/// A delivery list by its contents.
pub open spec fn deliveries_view(ds: Seq<Delivery>) -> Seq<(
    u64,
    (SubOpCode, Seq<char>, PushVal, u64),
)> {
    Seq::new(ds.len(), |k: int| delivery_view(ds[k]))
}

impl AppData {
    /// Register a subscription: an idempotent set-insert keyed by the
    /// connection.  A first subscription creates the connection's entry.
    pub fn client_sub(&mut self, conn: u64, sub: XWsSub)
        requires
            old(self).wf(),
        ensures
            final(self).wf(),
            final(self).index() == old(self).index(),
            final(self).support() == old(self).support(),
            final(self).proposals_state@ == old(self).proposals_state@,
            final(self).current_block == old(self).current_block,
            final(self).chain_id == old(self).chain_id,
            sub_insert_ok(old(self).registry(), final(self).registry(), conn, sub@),
    {
        let n = self.client_list.len();
        let mut i: usize = 0;
        while i < n
            invariant
                i <= n,
                n == self.registry().len(),
                forall|j: int| 0 <= j < i ==> (#[trigger] self.registry()[j]).0 != conn,
                old(self).wf(),
                *self == *old(self),
            decreases n - i,
        {
            if self.client_list[i].conn == conn {
                let already = subs_contains(&self.client_list[i].subs, &sub);
                if already {
                    proof {
                        assert((old(self).registry()[i as int]).0 == conn);
                        assert(subs_has((old(self).registry()[i as int]).1, sub@));
                    }
                    return;
                }
                let mut subs = dup_subs(&self.client_list[i].subs);
                subs.push(sub);
                self.client_list.set(i, ClientEntry { conn, subs });
                proof {
                    assert((old(self).registry()[i as int]).0 == conn);
                    assert(subs_view(self.client_list@[i as int].subs@)
                        =~~= (old(self).registry()[i as int]).1.push(sub@));
                    assert(self.registry()[i as int]
                        == (conn, (old(self).registry()[i as int]).1.push(sub@)));
                    assert(forall|k: int| 0 <= k < self.registry().len() && k != i
                        ==> #[trigger] self.registry()[k] == old(self).registry()[k]);
                    assert forall|a: int, b: int| 0 <= a < b < self.registry().len()
                        implies (#[trigger] self.registry()[a]).0
                            != (#[trigger] self.registry()[b]).0 by {
                        if a != i && b != i {
                            assert((old(self).registry()[a]).0 != (old(self).registry()[b]).0);
                        } else if a == i {
                            assert((old(self).registry()[b]).0
                                != (old(self).registry()[i as int]).0);
                        } else {
                            assert((old(self).registry()[a]).0
                                != (old(self).registry()[i as int]).0);
                        }
                    }
                    assert forall|k: int| 0 <= k < self.registry().len()
                        implies distinct_subs((#[trigger] self.registry()[k]).1) by {
                        if k == i {
                            let olds = (old(self).registry()[i as int]).1;
                            assert(distinct_subs(olds));
                            assert(!subs_has(olds, sub@));
                            assert forall|a: int, b: int|
                                0 <= a < b < self.registry()[k].1.len()
                                implies self.registry()[k].1[a] != self.registry()[k].1[b] by {
                                if b == olds.len() as int {
                                    assert(olds[a] == self.registry()[k].1[a]);
                                    assert(self.registry()[k].1[b] == sub@);
                                    assert(!(exists|t: int| 0 <= t < olds.len()
                                        && olds[t] == sub@));
                                }
                            }
                        } else {
                            assert(distinct_subs((old(self).registry()[k]).1));
                        }
                    }
                    assert(self.index() =~~= old(self).index());
                    assert(self.support() =~~= old(self).support());
                }
                return;
            }
            i = i + 1;
        }
        let mut subs: Vec<XWsSub> = Vec::new();
        subs.push(sub);
        self.client_list.push(ClientEntry { conn, subs });
        proof {
            let m = old(self).registry().len() as int;
            assert(subs_view(self.client_list@[m].subs@) =~~= seq![sub@]);
            assert(self.registry()[m] == (conn, seq![sub@]));
            assert(self.registry().last() == (conn, seq![sub@]));
            assert(forall|k: int| 0 <= k < m
                ==> #[trigger] self.registry()[k] == old(self).registry()[k]);
            assert forall|a: int, b: int| 0 <= a < b < self.registry().len()
                implies (#[trigger] self.registry()[a]).0
                    != (#[trigger] self.registry()[b]).0 by {
                if b == m {
                    assert((old(self).registry()[a]).0 != conn);
                } else {
                    assert((old(self).registry()[a]).0 != (old(self).registry()[b]).0);
                }
            }
            assert forall|k: int| 0 <= k < self.registry().len()
                implies distinct_subs((#[trigger] self.registry()[k]).1) by {
                if k < m {
                    assert(distinct_subs((old(self).registry()[k]).1));
                }
            }
            assert(self.index() =~~= old(self).index());
            assert(self.support() =~~= old(self).support());
        }
    }

    /// Remove a subscription: an idempotent set-remove; a connection with no
    /// entry, or an entry without the pair, is left as it stands.
    pub fn client_unsub(&mut self, conn: u64, sub: &XWsSub)
        requires
            old(self).wf(),
        ensures
            final(self).wf(),
            final(self).index() == old(self).index(),
            final(self).support() == old(self).support(),
            final(self).proposals_state@ == old(self).proposals_state@,
            final(self).current_block == old(self).current_block,
            final(self).chain_id == old(self).chain_id,
            final(self).registry().len() == old(self).registry().len(),
            forall|k: int| 0 <= k < old(self).registry().len()
                    && (#[trigger] old(self).registry()[k]).0 != conn
                ==> final(self).registry()[k] == old(self).registry()[k],
            forall|j: int| 0 <= j < old(self).registry().len()
                    && (#[trigger] old(self).registry()[j]).0 == conn
                ==> {
                    &&& (final(self).registry()[j]).0 == conn
                    &&& !subs_has((final(self).registry()[j]).1, sub@)
                    &&& (!subs_has((old(self).registry()[j]).1, sub@)
                        ==> final(self).registry()[j] == old(self).registry()[j])
                    &&& (subs_has((old(self).registry()[j]).1, sub@)
                        ==> exists|p: int| 0 <= p < (old(self).registry()[j]).1.len()
                            && (old(self).registry()[j]).1[p] == sub@
                            && (final(self).registry()[j]).1
                                == (old(self).registry()[j]).1.remove(p))
                },
    {
        let n = self.client_list.len();
        let mut i: usize = 0;
        while i < n
            invariant
                i <= n,
                n == self.registry().len(),
                forall|j: int| 0 <= j < i ==> (#[trigger] self.registry()[j]).0 != conn,
                old(self).wf(),
                *self == *old(self),
            decreases n - i,
        {
            if self.client_list[i].conn == conn {
                proof {
                    assert((old(self).registry()[i as int]).0 == conn);
                }
                let m = self.client_list[i].subs.len();
                let mut p: usize = 0;
                while p < m
                    invariant
                        p <= m,
                        0 <= (i as int) < self.registry().len(),
                        m == (self.registry()[i as int]).1.len(),
                        self.client_list@[i as int].conn == conn,
                        forall|k: int| 0 <= k < p
                            ==> (#[trigger] (self.registry()[i as int]).1[k]) != sub@,
                        old(self).wf(),
                        *self == *old(self),
                    decreases m - p,
                {
                    if self.client_list[i].subs[p] == *sub {
                        proof {
                            assert((self.registry()[i as int]).1[p as int] == sub@);
                        }
                        let mut subs = dup_subs(&self.client_list[i].subs);
                        subs.remove(p);
                        self.client_list.set(i, ClientEntry { conn, subs });
                        proof {
                            let olds = (old(self).registry()[i as int]).1;
                            assert(subs_view(self.client_list@[i as int].subs@)
                                =~~= olds.remove(p as int));
                            assert(self.registry()[i as int] == (conn, olds.remove(p as int)));
                            assert(forall|k: int|
                                0 <= k < self.registry().len() && k != i
                                ==> #[trigger] self.registry()[k] == old(self).registry()[k]);
                            assert(distinct_subs(olds));
                            assert forall|t: int|
                                0 <= t < olds.remove(p as int).len()
                                implies (#[trigger] olds.remove(p as int)[t]) != sub@ by {
                                if t < p {
                                    assert(olds.remove(p as int)[t] == olds[t]);
                                } else {
                                    assert(olds.remove(p as int)[t] == olds[t + 1]);
                                }
                            }
                            assert(!subs_has((self.registry()[i as int]).1, sub@));
                            assert forall|a: int, b: int|
                                0 <= a < b < self.registry().len()
                                implies (#[trigger] self.registry()[a]).0
                                    != (#[trigger] self.registry()[b]).0 by {
                                if a != i && b != i {
                                    assert((old(self).registry()[a]).0
                                        != (old(self).registry()[b]).0);
                                } else if a == i {
                                    assert((old(self).registry()[b]).0
                                        != (old(self).registry()[i as int]).0);
                                } else {
                                    assert((old(self).registry()[a]).0
                                        != (old(self).registry()[i as int]).0);
                                }
                            }
                            assert forall|k: int| 0 <= k < self.registry().len()
                                implies distinct_subs((#[trigger] self.registry()[k]).1) by {
                                if k == i {
                                    assert forall|a: int, b: int|
                                        0 <= a < b < olds.remove(p as int).len()
                                        implies olds.remove(p as int)[a]
                                            != olds.remove(p as int)[b] by {
                                        let ra = if a < p { a } else { a + 1 };
                                        let rb = if b < p { b } else { b + 1 };
                                        assert(olds.remove(p as int)[a] == olds[ra]);
                                        assert(olds.remove(p as int)[b] == olds[rb]);
                                        assert(olds[ra] != olds[rb]);
                                    }
                                } else {
                                    assert(distinct_subs((old(self).registry()[k]).1));
                                }
                            }
                            assert(self.index() =~~= old(self).index());
                            assert(self.support() =~~= old(self).support());
                        }
                        return;
                    }
                    p = p + 1;
                }
                proof {
                    assert(!subs_has((old(self).registry()[i as int]).1, sub@));
                }
                return;
            }
            i = i + 1;
        }
    }

    /// Drop a connection and every subscription it owns; invoked on session
    /// teardown.
    pub fn delete_client(&mut self, conn: u64)
        requires
            old(self).wf(),
        ensures
            final(self).wf(),
            final(self).index() == old(self).index(),
            final(self).support() == old(self).support(),
            final(self).proposals_state@ == old(self).proposals_state@,
            final(self).current_block == old(self).current_block,
            final(self).chain_id == old(self).chain_id,
            forall|k: int| 0 <= k < final(self).registry().len()
                ==> (#[trigger] final(self).registry()[k]).0 != conn,
            (exists|j: int| 0 <= j < old(self).registry().len()
                    && (#[trigger] old(self).registry()[j]).0 == conn)
                ==> exists|j: int|
                    {
                        &&& 0 <= j < old(self).registry().len()
                        &&& (#[trigger] old(self).registry()[j]).0 == conn
                        &&& final(self).registry() == old(self).registry().remove(j)
                    },
            (forall|j: int| 0 <= j < old(self).registry().len()
                    ==> (#[trigger] old(self).registry()[j]).0 != conn)
                ==> final(self).registry() == old(self).registry(),
    {
        let n = self.client_list.len();
        let mut i: usize = 0;
        while i < n
            invariant
                i <= n,
                n == self.registry().len(),
                forall|j: int| 0 <= j < i ==> (#[trigger] self.registry()[j]).0 != conn,
                old(self).wf(),
                *self == *old(self),
            decreases n - i,
        {
            if self.client_list[i].conn == conn {
                proof {
                    assert((old(self).registry()[i as int]).0 == conn);
                }
                self.client_list.remove(i);
                proof {
                    assert(self.registry() =~~= old(self).registry().remove(i as int));
                    let newr = old(self).registry().remove(i as int);
                    assert forall|k: int| 0 <= k < newr.len()
                        implies (#[trigger] newr[k]).0 != conn by {
                        let rk = if k < i { k } else { k + 1 };
                        assert(newr[k] == old(self).registry()[rk]);
                        if rk != i {
                            assert((old(self).registry()[rk]).0
                                != (old(self).registry()[i as int]).0);
                        }
                    }
                    assert forall|a: int, b: int| 0 <= a < b < newr.len()
                        implies (#[trigger] newr[a]).0 != (#[trigger] newr[b]).0 by {
                        let ra = if a < i { a } else { a + 1 };
                        let rb = if b < i { b } else { b + 1 };
                        assert(newr[a] == old(self).registry()[ra]);
                        assert(newr[b] == old(self).registry()[rb]);
                        assert((old(self).registry()[ra]).0 != (old(self).registry()[rb]).0);
                    }
                    assert forall|k: int| 0 <= k < newr.len()
                        implies distinct_subs((#[trigger] newr[k]).1) by {
                        let rk = if k < i { k } else { k + 1 };
                        assert(newr[k] == old(self).registry()[rk]);
                        assert(distinct_subs((old(self).registry()[rk]).1));
                    }
                    assert(self.index() =~~= old(self).index());
                    assert(self.support() =~~= old(self).support());
                }
                return;
            }
            i = i + 1;
        }
        proof {
            assert(self.registry() =~~= old(self).registry());
        }
    }

    /// Fan a payload out: one envelope per matching-topic subscription, in
    /// registry order.  Delivering them is the caller's business; a failed
    /// delivery must not stop the rest, which handing the list back makes
    /// immediate.
    pub fn push_to_client(&self, target: &str, sub_op: SubOpCode, data: &PushData) -> (ds: Vec<
        Delivery,
    >)
        ensures
            deliveries_view(ds@) == spec_deliveries(self.registry(), target@, sub_op, data@),
    {
        let mut ds: Vec<Delivery> = Vec::new();
        let n = self.client_list.len();
        let mut i: usize = 0;
        while i < n
            invariant
                i <= n,
                n == self.registry().len(),
                deliveries_view(ds@)
                    == spec_deliveries(self.registry().take(i as int), target@, sub_op, data@),
            decreases n - i,
        {
            let conn = self.client_list[i].conn;
            let m = self.client_list[i].subs.len();
            let mut j: usize = 0;
            while j < m
                invariant
                    j <= m,
                    i < n,
                    n == self.registry().len(),
                    conn == (self.registry()[i as int]).0,
                    m == (self.registry()[i as int]).1.len(),
                    deliveries_view(ds@)
                        == spec_deliveries(self.registry().take(i as int), target@, sub_op,
                            data@)
                            + entry_deliveries(conn,
                                (self.registry()[i as int]).1.take(j as int), target@, sub_op,
                                data@),
                decreases m - j,
            {
                let subs = &self.client_list[i].subs;
                proof {
                    assert((self.registry()[i as int]).1.take(j + 1).drop_last()
                        =~~= (self.registry()[i as int]).1.take(j as int));
                    assert((self.registry()[i as int]).1.take(j + 1).last()
                        == (self.registry()[i as int]).1[j as int]);
                    assert((self.registry()[i as int]).1[j as int]
                        == (subs@[j as int].target@, subs@[j as int].id));
                }
                if str_eq(subs[j].target.as_str(), target) {
                    let ghost pre = deliveries_view(ds@);
                    ds.push(Delivery {
                        conn,
                        msg: SubOp {
                            op: sub_op,
                            target: subs[j].target.clone(),
                            data: data.dup(),
                            id: subs[j].id,
                        },
                    });
                    proof {
                        let s = (self.registry()[i as int]).1[j as int];
                        let elem = (conn, (sub_op, s.0, data@, s.1));
                        assert(delivery_view(ds@.last()) == elem);
                        assert(deliveries_view(ds@) =~~= pre.push(elem));
                        assert(entry_deliveries(conn,
                                (self.registry()[i as int]).1.take(j + 1), target@, sub_op,
                                data@)
                            =~~= entry_deliveries(conn,
                                (self.registry()[i as int]).1.take(j as int), target@, sub_op,
                                data@) + seq![elem]);
                        assert(deliveries_view(ds@)
                            =~~= spec_deliveries(self.registry().take(i as int), target@,
                                sub_op, data@)
                                + entry_deliveries(conn,
                                    (self.registry()[i as int]).1.take(j + 1), target@, sub_op,
                                    data@));
                    }
                } else {
                    proof {
                        assert(deliveries_view(ds@)
                            =~~= spec_deliveries(self.registry().take(i as int), target@,
                                sub_op, data@)
                                + entry_deliveries(conn,
                                    (self.registry()[i as int]).1.take(j + 1), target@, sub_op,
                                    data@));
                    }
                }
                j = j + 1;
            }
            proof {
                assert(self.registry().take(i + 1).drop_last()
                    =~~= self.registry().take(i as int));
                assert(self.registry().take(i + 1).last() == self.registry()[i as int]);
                assert((self.registry()[i as int]).1.take(m as int)
                    =~~= (self.registry()[i as int]).1);
                assert(deliveries_view(ds@)
                    =~~= spec_deliveries(self.registry().take(i + 1), target@, sub_op, data@));
            }
            i = i + 1;
        }
        proof {
            assert(self.registry().take(n as int) =~~= self.registry());
        }
        ds
    }

    /// Announce a new chain head: when it differs from the last announced
    /// block, broadcast it on `newBlock` and remember it.
    pub fn update_data_block(&mut self, block: u64) -> (ds: Vec<Delivery>)
        requires
            old(self).wf(),
        ensures
            final(self).wf(),
            final(self).index() == old(self).index(),
            final(self).support() == old(self).support(),
            final(self).proposals_state@ == old(self).proposals_state@,
            final(self).registry() == old(self).registry(),
            final(self).chain_id == old(self).chain_id,
            old(self).current_block == block
                ==> *final(self) == *old(self) && ds@.len() == 0,
            old(self).current_block != block
                ==> final(self).current_block == block
                    && deliveries_view(ds@) == spec_deliveries(old(self).registry(),
                        "newBlock"@, SubOpCode::Update, PushVal::Block(block)),
    {
        if self.get_current_block() != block {
            let ds = self.push_to_client("newBlock", SubOpCode::Update, &PushData::Block(block));
            self.set_current_block(block);
            proof {
                assert(self.proposals@ == old(self).proposals@);
                assert(self.support_list@ == old(self).support_list@);
                assert(self.client_list@ == old(self).client_list@);
                assert(self.index() == old(self).index());
                assert(self.support() == old(self).support());
                assert(self.registry() == old(self).registry());
            }
            ds
        } else {
            Vec::new()
        }
    }
}

} // verus!
