//! An in-memory model of the durable store, with the write semantics the
//! ingestion pipeline relies on: relation and price writes are
//! insert-if-absent, proposal field writes are upserts keyed by id, coin
//! rows are upserts keyed by address that never overwrite a symbol, and the
//! cursor row is an upsert keyed by chain that never overwrites the step.
//!
//! Replay safety rests on these semantics: a tick's effects may be applied
//! again after a crash, and the insert-if-absent tables must not grow.

use vstd::prelude::*;
use crate::address::Address;
use crate::handle::{ProposalAduitState, ProposalRelation, ProposalState};
use crate::state::{CoinSupport, ProposalSeed};

verus! {

/// The ingestion cursor row of one chain.
#[derive(Clone, Copy, Debug, PartialEq, Eq, Structural)]
pub struct BlockRow {
    pub id: u32,
    pub block: u64,
    pub step: u64,
}

/// One proposal row.
pub struct ProposalRow {
    pub proposal_id: u64,
    pub address: Address,
    pub category: u64,
    pub token: Address,
    pub state: ProposalState,
    pub audit_state: ProposalAduitState,
    pub liquidity: u128,
    pub create_time: u64,
    pub close_time: u64,
    pub volume: u128,
    pub volume24: u128,
}

/// The mathematical shadow of one proposal row.
pub struct ProposalRowV {
    pub proposal_id: u64,
    pub address: Seq<u8>,
    pub category: u64,
    pub token: Seq<u8>,
    pub state: ProposalState,
    pub audit_state: ProposalAduitState,
    pub liquidity: u128,
    pub create_time: u64,
    pub close_time: u64,
    pub volume: u128,
    pub volume24: u128,
}

/// One account/proposal relation row; the whole row is the key.
pub struct RelationRow {
    pub proposal_id: u64,
    pub address: Address,
    pub relation: ProposalRelation,
}

/// One price point; keyed by (proposal, timestamp).
#[derive(Clone, Copy, Debug, PartialEq, Eq, Structural)]
pub struct PriceRow {
    pub proposal_id: u64,
    pub ts: u64,
    pub token1: u128,
    pub token2: u128,
}

/// The view of one proposal row.
pub open spec fn prow_view(r: ProposalRow) -> ProposalRowV {
    ProposalRowV {
        proposal_id: r.proposal_id,
        address: r.address@,
        category: r.category,
        token: r.token@,
        state: r.state,
        audit_state: r.audit_state,
        liquidity: r.liquidity,
        create_time: r.create_time,
        close_time: r.close_time,
        volume: r.volume,
        volume24: r.volume24,
    }
}

/// The proposal table by contents.
pub open spec fn proposals_view(s: Seq<ProposalRow>) -> Seq<ProposalRowV> {
    Seq::new(s.len(), |k: int| prow_view(s[k]))
}

/// One relation row by contents: (proposal, account, kind).
pub open spec fn rel_view(s: Seq<RelationRow>) -> Seq<(u64, Seq<u8>, ProposalRelation)> {
    Seq::new(s.len(), |k: int| (s[k].proposal_id, s[k].address@, s[k].relation))
}

/// The coin table by contents.
pub open spec fn coins_view(s: Seq<CoinSupport>) -> Seq<(Seq<char>, Seq<char>, bool)> {
    Seq::new(s.len(), |k: int| (s[k].address@, s[k].symbol@, s[k].flag))
}

/// What a coin upsert leaves: the flag of the row keyed by this address
/// overwritten with its first-observed symbol kept, or a fresh row appended.
pub open spec fn coins_upsert_ok(
    olds: Seq<(Seq<char>, Seq<char>, bool)>,
    news: Seq<(Seq<char>, Seq<char>, bool)>,
    addr: Seq<char>,
    symbol: Seq<char>,
    flag: bool,
) -> bool {
    &&& (exists|j: int| 0 <= j < olds.len() && (#[trigger] olds[j]).0 == addr)
        ==> exists|j: int|
            {
                &&& 0 <= j < olds.len()
                &&& (#[trigger] olds[j]).0 == addr
                &&& news.len() == olds.len()
                &&& news[j] == (addr, olds[j].1, flag)
                &&& (forall|k: int| 0 <= k < olds.len() && k != j
                    ==> #[trigger] news[k] == olds[k])
            }
    &&& (forall|j: int| 0 <= j < olds.len() ==> (#[trigger] olds[j]).0 != addr)
        ==> news.len() == olds.len() + 1
            && news.last() == (addr, symbol, flag)
            && (forall|k: int| 0 <= k < olds.len() ==> #[trigger] news[k] == olds[k])
}

/// The durable store: every table the ingestion pipeline writes.
pub struct StoreDB {
    pub blocks: Vec<BlockRow>,
    pub coins: Vec<CoinSupport>,
    pub proposals: Vec<ProposalRow>,
    pub relations: Vec<RelationRow>,
    pub prices: Vec<PriceRow>,
}

impl StoreDB {
    /// The relation table by contents.
    pub open spec fn rels(&self) -> Seq<(u64, Seq<u8>, ProposalRelation)> {
        rel_view(self.relations@)
    }

    /// The proposal table by contents.
    pub open spec fn props(&self) -> Seq<ProposalRowV> {
        proposals_view(self.proposals@)
    }

    /// The coin table by contents.
    pub open spec fn coin_rows(&self) -> Seq<(Seq<char>, Seq<char>, bool)> {
        coins_view(self.coins@)
    }

    /// Cursor rows are keyed by chain.
    pub open spec fn wf_blocks(&self) -> bool {
        forall|i: int, j: int| 0 <= i < j < self.blocks@.len()
            ==> (#[trigger] self.blocks@[i]).id != (#[trigger] self.blocks@[j]).id
    }

    /// Coin rows are keyed by address.
    pub open spec fn wf_coins(&self) -> bool {
        forall|i: int, j: int| 0 <= i < j < self.coin_rows().len()
            ==> (#[trigger] self.coin_rows()[i]).0 != (#[trigger] self.coin_rows()[j]).0
    }

    /// Proposal rows are keyed by id.
    pub open spec fn wf_props(&self) -> bool {
        forall|i: int, j: int| 0 <= i < j < self.props().len()
            ==> (#[trigger] self.props()[i]).proposal_id
                != (#[trigger] self.props()[j]).proposal_id
    }

    /// No relation row is duplicated: the whole row is its key.
    pub open spec fn wf_rels(&self) -> bool {
        forall|i: int, j: int| 0 <= i < j < self.rels().len()
            ==> #[trigger] self.rels()[i] != #[trigger] self.rels()[j]
    }

    /// Price rows are keyed by (proposal, timestamp).
    pub open spec fn wf_prices(&self) -> bool {
        forall|i: int, j: int| 0 <= i < j < self.prices@.len()
            ==> ((#[trigger] self.prices@[i]).proposal_id, self.prices@[i].ts)
                != ((#[trigger] self.prices@[j]).proposal_id, self.prices@[j].ts)
    }

    /// Every table is keyed consistently.
    pub open spec fn wf(&self) -> bool {
        self.wf_blocks() && self.wf_coins() && self.wf_props() && self.wf_rels()
            && self.wf_prices()
    }

    /// A fresh store for one chain, holding only the seed cursor row the
    /// bootstrap writes: block 1, step 100.
    pub fn init_db(chain_id: u32) -> (r: StoreDB)
        ensures
            r.wf(),
            r.blocks@ == seq![BlockRow { id: chain_id, block: 1, step: 100 }],
            r.coin_rows().len() == 0,
            r.props().len() == 0,
            r.rels().len() == 0,
            r.prices@.len() == 0,
    {
        let mut blocks: Vec<BlockRow> = Vec::new();
        blocks.push(BlockRow { id: chain_id, block: 1, step: 100 });
        let r = StoreDB {
            blocks,
            coins: Vec::new(),
            proposals: Vec::new(),
            relations: Vec::new(),
            prices: Vec::new(),
        };
        proof {
            assert(r.blocks@ =~= seq![BlockRow { id: chain_id, block: 1, step: 100 }]);
        }
        r
    }

    /// The cursor of one chain: its stored (block, step), or (0, 100) when
    /// the chain has no row yet.
    pub fn read_block(&self, chain_id: u32) -> (r: (u64, u64))
        ensures
            (exists|i: int| 0 <= i < self.blocks@.len()
                    && (#[trigger] self.blocks@[i]).id == chain_id)
                ==> exists|i: int| 0 <= i < self.blocks@.len()
                    && (#[trigger] self.blocks@[i]).id == chain_id
                    && r == (self.blocks@[i].block, self.blocks@[i].step),
            (forall|i: int| 0 <= i < self.blocks@.len()
                    ==> (#[trigger] self.blocks@[i]).id != chain_id)
                ==> r == (0u64, 100u64),
    {
        let n = self.blocks.len();
        let mut i: usize = 0;
        while i < n
            invariant
                i <= n,
                n == self.blocks@.len(),
                forall|j: int| 0 <= j < i ==> (#[trigger] self.blocks@[j]).id != chain_id,
            decreases n - i,
        {
            if self.blocks[i].id == chain_id {
                return (self.blocks[i].block, self.blocks[i].step);
            }
            i = i + 1;
        }
        (0, 100)
    }

    /// Persist cursor progress for one chain: the block of its row is
    /// overwritten, the step is left as configured.  A chain without a row
    /// gets one with the default step.
    pub fn write_block_hight(&mut self, chain_id: u32, hight: u64)
        requires
            old(self).wf(),
        ensures
            final(self).wf(),
            final(self).coin_rows() == old(self).coin_rows(),
            final(self).props() == old(self).props(),
            final(self).rels() == old(self).rels(),
            final(self).prices@ == old(self).prices@,
            exists|i: int| 0 <= i < final(self).blocks@.len()
                && (#[trigger] final(self).blocks@[i]).id == chain_id
                && final(self).blocks@[i].block == hight,
            (exists|j: int| 0 <= j < old(self).blocks@.len()
                    && (#[trigger] old(self).blocks@[j]).id == chain_id)
                ==> exists|j: int|
                    {
                        &&& 0 <= j < old(self).blocks@.len()
                        &&& (#[trigger] old(self).blocks@[j]).id == chain_id
                        &&& final(self).blocks@ == old(self).blocks@.update(j,
                            BlockRow { block: hight, ..old(self).blocks@[j] })
                    },
            (forall|j: int| 0 <= j < old(self).blocks@.len()
                    ==> (#[trigger] old(self).blocks@[j]).id != chain_id)
                ==> final(self).blocks@ == old(self).blocks@.push(
                    BlockRow { id: chain_id, block: hight, step: 100 }),
    {
        let n = self.blocks.len();
        let mut i: usize = 0;
        while i < n
            invariant
                i <= n,
                n == self.blocks@.len(),
                forall|j: int| 0 <= j < i ==> (#[trigger] self.blocks@[j]).id != chain_id,
                old(self).wf(),
                *self == *old(self),
            decreases n - i,
        {
            if self.blocks[i].id == chain_id {
                let step = self.blocks[i].step;
                self.blocks.set(i, BlockRow { id: chain_id, block: hight, step });
                proof {
                    assert(self.blocks@ =~= old(self).blocks@.update(i as int,
                        BlockRow { block: hight, ..old(self).blocks@[i as int] }));
                    assert((self.blocks@[i as int]).id == chain_id
                        && self.blocks@[i as int].block == hight);
                    assert forall|a: int, b: int| 0 <= a < b < self.blocks@.len()
                        implies (#[trigger] self.blocks@[a]).id
                            != (#[trigger] self.blocks@[b]).id by {
                        assert((old(self).blocks@[a]).id != (old(self).blocks@[b]).id);
                    }
                    assert(self.coin_rows() =~~= old(self).coin_rows());
                    assert(self.props() =~~= old(self).props());
                    assert(self.rels() =~~= old(self).rels());
                }
                return;
            }
            i = i + 1;
        }
        self.blocks.push(BlockRow { id: chain_id, block: hight, step: 100 });
        proof {
            assert(self.blocks@ =~= old(self).blocks@.push(
                BlockRow { id: chain_id, block: hight, step: 100 }));
            let m = old(self).blocks@.len() as int;
            assert((self.blocks@[m]).id == chain_id && self.blocks@[m].block == hight);
            assert forall|a: int, b: int| 0 <= a < b < self.blocks@.len()
                implies (#[trigger] self.blocks@[a]).id != (#[trigger] self.blocks@[b]).id by {
                if b == m {
                    assert((old(self).blocks@[a]).id != chain_id);
                } else {
                    assert((old(self).blocks@[a]).id != (old(self).blocks@[b]).id);
                }
            }
            assert(self.coin_rows() =~~= old(self).coin_rows());
            assert(self.props() =~~= old(self).props());
            assert(self.rels() =~~= old(self).rels());
        }
    }

    /// The proposals the store holds, as startup seeds (id, address, state).
    pub fn read_proposals(&self) -> (r: Vec<ProposalSeed>)
        ensures
            r@.len() == self.props().len(),
            forall|k: int| 0 <= k < r@.len()
                ==> (#[trigger] r@[k]).proposal_id == (#[trigger] self.props()[k]).proposal_id
                    && r@[k].address@ == self.props()[k].address
                    && r@[k].state == self.props()[k].state,
    {
        let mut r: Vec<ProposalSeed> = Vec::new();
        let n = self.proposals.len();
        let mut i: usize = 0;
        while i < n
            invariant
                i <= n,
                n == self.props().len(),
                r@.len() == i,
                forall|k: int| 0 <= k < i
                    ==> (#[trigger] r@[k]).proposal_id
                            == (#[trigger] self.props()[k]).proposal_id
                        && r@[k].address@ == self.props()[k].address
                        && r@[k].state == self.props()[k].state,
            decreases n - i,
        {
            let row = &self.proposals[i];
            r.push(ProposalSeed {
                proposal_id: row.proposal_id,
                address: row.address.dup(),
                state: row.state,
            });
            i = i + 1;
        }
        r
    }

    /// The coin table, row by row.
    pub fn read_coins_support(&self) -> (r: Vec<(String, String, bool)>)
        ensures
            r@.len() == self.coin_rows().len(),
            forall|k: int| 0 <= k < r@.len()
                ==> ((#[trigger] r@[k]).0@, r@[k].1@, r@[k].2) == #[trigger] self.coin_rows()[k],
    {
        let mut r: Vec<(String, String, bool)> = Vec::new();
        let n = self.coins.len();
        let mut i: usize = 0;
        while i < n
            invariant
                i <= n,
                n == self.coin_rows().len(),
                r@.len() == i,
                forall|k: int| 0 <= k < i
                    ==> ((#[trigger] r@[k]).0@, r@[k].1@, r@[k].2)
                        == #[trigger] self.coin_rows()[k],
            decreases n - i,
        {
            let row = &self.coins[i];
            r.push((row.address.clone(), row.symbol.clone(), row.flag));
            i = i + 1;
        }
        r
    }

    /// Record a coin's support flag durably: the flag of the row keyed by
    /// this address is overwritten; its symbol, fetched on first
    /// observation, is kept.  A new address gets a fresh row.
    pub fn write_coins_support(&mut self, addr: String, symbol: String, flag: bool)
        requires
            old(self).wf(),
        ensures
            final(self).wf(),
            final(self).blocks@ == old(self).blocks@,
            final(self).props() == old(self).props(),
            final(self).rels() == old(self).rels(),
            final(self).prices@ == old(self).prices@,
            coins_upsert_ok(old(self).coin_rows(), final(self).coin_rows(), addr@, symbol@,
                flag),
    {
        let n = self.coins.len();
        let mut i: usize = 0;
        while i < n
            invariant
                i <= n,
                n == self.coin_rows().len(),
                forall|j: int| 0 <= j < i ==> (#[trigger] self.coin_rows()[j]).0 != addr@,
                old(self).wf(),
                *self == *old(self),
            decreases n - i,
        {
            if self.coins[i].address == addr {
                let symbol_kept = self.coins[i].symbol.clone();
                self.coins.set(i, CoinSupport { address: addr, symbol: symbol_kept, flag });
                proof {
                    assert((old(self).coin_rows()[i as int]).0 == addr@);
                    assert(self.coin_rows()[i as int]
                        == (addr@, (old(self).coin_rows()[i as int]).1, flag));
                    assert(forall|k: int| 0 <= k < self.coin_rows().len() && k != i
                        ==> #[trigger] self.coin_rows()[k] == old(self).coin_rows()[k]);
                    assert forall|a: int, b: int| 0 <= a < b < self.coin_rows().len()
                        implies (#[trigger] self.coin_rows()[a]).0
                            != (#[trigger] self.coin_rows()[b]).0 by {
                        assert((old(self).coin_rows()[a]).0 != (old(self).coin_rows()[b]).0);
                    }
                    assert(self.props() =~~= old(self).props());
                    assert(self.rels() =~~= old(self).rels());
                }
                return;
            }
            i = i + 1;
        }
        self.coins.push(CoinSupport { address: addr, symbol, flag });
        proof {
            let m = old(self).coin_rows().len() as int;
            assert(self.coin_rows()[m] == (addr@, symbol@, flag));
            assert(self.coin_rows().last() == (addr@, symbol@, flag));
            assert(forall|k: int| 0 <= k < m
                ==> #[trigger] self.coin_rows()[k] == old(self).coin_rows()[k]);
            assert forall|a: int, b: int| 0 <= a < b < self.coin_rows().len()
                implies (#[trigger] self.coin_rows()[a]).0
                    != (#[trigger] self.coin_rows()[b]).0 by {
                if b == m {
                    assert((old(self).coin_rows()[a]).0 != addr@);
                } else {
                    assert((old(self).coin_rows()[a]).0 != (old(self).coin_rows()[b]).0);
                }
            }
            assert(self.props() =~~= old(self).props());
            assert(self.rels() =~~= old(self).rels());
        }
    }
}

} // verus!

verus! {

/// Whether the relation table holds this exact row.
pub open spec fn rels_has(
    rows: Seq<(u64, Seq<u8>, ProposalRelation)>,
    row: (u64, Seq<u8>, ProposalRelation),
) -> bool {
    exists|i: int| 0 <= i < rows.len() && rows[i] == row
}

/// Insert-if-absent on the relation table.
pub open spec fn apply_relation(
    rows: Seq<(u64, Seq<u8>, ProposalRelation)>,
    row: (u64, Seq<u8>, ProposalRelation),
) -> Seq<(u64, Seq<u8>, ProposalRelation)> {
    if rels_has(rows, row) {
        rows
    } else {
        rows.push(row)
    }
}

/// Whether the price table holds a row with this (proposal, timestamp) key.
pub open spec fn price_key_has(rows: Seq<PriceRow>, proposal_id: u64, ts: u64) -> bool {
    exists|i: int| 0 <= i < rows.len()
        && ((#[trigger] rows[i]).proposal_id, rows[i].ts) == (proposal_id, ts)
}

/// Insert-if-absent on the price table, keyed by (proposal, timestamp).
pub open spec fn apply_price(rows: Seq<PriceRow>, row: PriceRow) -> Seq<PriceRow> {
    if price_key_has(rows, row.proposal_id, row.ts) {
        rows
    } else {
        rows.push(row)
    }
}

/// The row an upsert creates for an id the table does not hold: every
/// column at its schema default.
pub open spec fn spec_default_row(proposal_id: u64) -> ProposalRowV {
    ProposalRowV {
        proposal_id,
        address: Seq::empty(),
        category: 0,
        token: Seq::empty(),
        state: ProposalState::Original,
        audit_state: ProposalAduitState::NotReviewed,
        liquidity: 0,
        create_time: 0,
        close_time: 0,
        volume: 0,
        volume24: 0,
    }
}

/// Build the default row for an id.
fn default_row(proposal_id: u64) -> (r: ProposalRow)
    ensures
        prow_view(r) == spec_default_row(proposal_id),
{
    ProposalRow {
        proposal_id,
        address: Address { bytes: Vec::new() },
        category: 0,
        token: Address { bytes: Vec::new() },
        state: ProposalState::Original,
        audit_state: ProposalAduitState::NotReviewed,
        liquidity: 0,
        create_time: 0,
        close_time: 0,
        volume: 0,
        volume24: 0,
    }
}

impl StoreDB {
    /// Record an account/proposal relation; inserting a row the table
    /// already holds leaves the store exactly as it stands.
    pub fn write_relation(&mut self, proposal_id: u64, account: Address,
        relation: ProposalRelation)
        requires
            old(self).wf(),
        ensures
            final(self).wf(),
            final(self).blocks@ == old(self).blocks@,
            final(self).coin_rows() == old(self).coin_rows(),
            final(self).props() == old(self).props(),
            final(self).prices@ == old(self).prices@,
            final(self).rels()
                == apply_relation(old(self).rels(), (proposal_id, account@, relation)),
            rels_has(old(self).rels(), (proposal_id, account@, relation))
                ==> *final(self) == *old(self),
    {
        let n = self.relations.len();
        let mut i: usize = 0;
        while i < n
            invariant
                i <= n,
                n == self.rels().len(),
                forall|j: int| 0 <= j < i
                    ==> #[trigger] self.rels()[j] != (proposal_id, account@, relation),
                old(self).wf(),
                *self == *old(self),
            decreases n - i,
        {
            let row = &self.relations[i];
            if row.proposal_id == proposal_id && row.address == account
                && row.relation == relation {
                proof {
                    assert(self.rels()[i as int] == (proposal_id, account@, relation));
                    assert(rels_has(old(self).rels(), (proposal_id, account@, relation)));
                }
                return;
            }
            i = i + 1;
        }
        self.relations.push(RelationRow { proposal_id, address: account, relation });
        proof {
            let m = old(self).rels().len() as int;
            let row = (proposal_id, account@, relation);
            assert(self.rels()[m] == row);
            assert(forall|k: int| 0 <= k < m
                ==> #[trigger] self.rels()[k] == old(self).rels()[k]);
            assert(!rels_has(old(self).rels(), row));
            assert(self.rels() =~~= old(self).rels().push(row));
            assert forall|a: int, b: int| 0 <= a < b < self.rels().len()
                implies #[trigger] self.rels()[a] != #[trigger] self.rels()[b] by {
                if b == m {
                    assert(old(self).rels()[a] != row);
                } else {
                    assert(old(self).rels()[a] != old(self).rels()[b]);
                }
            }
            assert(self.coin_rows() =~~= old(self).coin_rows());
            assert(self.props() =~~= old(self).props());
        }
    }

    /// Record a price point; a (proposal, timestamp) key the table already
    /// holds leaves the store exactly as it stands, whatever values the new
    /// point carries.
    pub fn write_price(&mut self, proposal_id: u64, ts: u64, tokens: [u128; 2])
        requires
            old(self).wf(),
        ensures
            final(self).wf(),
            final(self).blocks@ == old(self).blocks@,
            final(self).coin_rows() == old(self).coin_rows(),
            final(self).props() == old(self).props(),
            final(self).rels() == old(self).rels(),
            final(self).prices@ == apply_price(old(self).prices@,
                PriceRow { proposal_id, ts, token1: tokens[0], token2: tokens[1] }),
            price_key_has(old(self).prices@, proposal_id, ts) ==> *final(self) == *old(self),
    {
        let n = self.prices.len();
        let mut i: usize = 0;
        while i < n
            invariant
                i <= n,
                n == self.prices@.len(),
                forall|j: int| 0 <= j < i
                    ==> ((#[trigger] self.prices@[j]).proposal_id, self.prices@[j].ts)
                        != (proposal_id, ts),
                old(self).wf(),
                *self == *old(self),
            decreases n - i,
        {
            let row = &self.prices[i];
            if row.proposal_id == proposal_id && row.ts == ts {
                proof {
                    assert(((self.prices@[i as int]).proposal_id, self.prices@[i as int].ts)
                        == (proposal_id, ts));
                    assert(price_key_has(old(self).prices@, proposal_id, ts));
                }
                return;
            }
            i = i + 1;
        }
        self.prices.push(PriceRow { proposal_id, ts, token1: tokens[0], token2: tokens[1] });
        proof {
            let m = old(self).prices@.len() as int;
            let row = PriceRow { proposal_id, ts, token1: tokens[0], token2: tokens[1] };
            assert(!price_key_has(old(self).prices@, proposal_id, ts));
            assert(self.prices@ =~= old(self).prices@.push(row));
            assert forall|a: int, b: int| 0 <= a < b < self.prices@.len()
                implies ((#[trigger] self.prices@[a]).proposal_id, self.prices@[a].ts)
                    != ((#[trigger] self.prices@[b]).proposal_id, self.prices@[b].ts) by {
                if b == m {
                    assert(((old(self).prices@[a]).proposal_id, (old(self).prices@[a]).ts)
                        != (proposal_id, ts));
                } else {
                    assert(((old(self).prices@[a]).proposal_id, (old(self).prices@[a]).ts)
                        != ((old(self).prices@[b]).proposal_id, (old(self).prices@[b]).ts));
                }
            }
            assert(self.coin_rows() =~~= old(self).coin_rows());
            assert(self.props() =~~= old(self).props());
            assert(self.rels() =~~= old(self).rels());
        }
    }
}

} // verus!

verus! {

/// One write against the proposal table: the full row shape the creation
/// event persists, or a single recomputed column.
pub enum PropWrite {
    Full {
        address: Address,
        category: u64,
        token: Address,
        state: ProposalState,
        liquidity: u128,
        create_time: u64,
        close_time: u64,
    },
    Volume(u128),
    Volume24(u128),
    Liquidity(u128),
    State(ProposalState),
}

/// What a write leaves of a row: the written columns replaced, the rest —
/// the review outcome and the volume counters a full write does not carry —
/// kept.
pub open spec fn apply_prop_write(row: ProposalRowV, w: PropWrite) -> ProposalRowV {
    match w {
        PropWrite::Full { address, category, token, state, liquidity, create_time, close_time } =>
            ProposalRowV {
                address: address@,
                category,
                token: token@,
                state,
                liquidity,
                create_time,
                close_time,
                ..row
            },
        PropWrite::Volume(v) => ProposalRowV { volume: v, ..row },
        PropWrite::Volume24(v) => ProposalRowV { volume24: v, ..row },
        PropWrite::Liquidity(v) => ProposalRowV { liquidity: v, ..row },
        PropWrite::State(s) => ProposalRowV { state: s, ..row },
    }
}

/// Apply one write to a row value.
fn apply_write_row(row: &ProposalRow, w: PropWrite) -> (r: ProposalRow)
    ensures
        prow_view(r) == apply_prop_write(prow_view(*row), w),
{
    match w {
        PropWrite::Full { address, category, token, state, liquidity, create_time, close_time } =>
            ProposalRow {
                proposal_id: row.proposal_id,
                address,
                category,
                token,
                state,
                audit_state: row.audit_state,
                liquidity,
                create_time,
                close_time,
                volume: row.volume,
                volume24: row.volume24,
            },
        PropWrite::Volume(v) => ProposalRow {
            proposal_id: row.proposal_id,
            address: row.address.dup(),
            category: row.category,
            token: row.token.dup(),
            state: row.state,
            audit_state: row.audit_state,
            liquidity: row.liquidity,
            create_time: row.create_time,
            close_time: row.close_time,
            volume: v,
            volume24: row.volume24,
        },
        PropWrite::Volume24(v) => ProposalRow {
            proposal_id: row.proposal_id,
            address: row.address.dup(),
            category: row.category,
            token: row.token.dup(),
            state: row.state,
            audit_state: row.audit_state,
            liquidity: row.liquidity,
            create_time: row.create_time,
            close_time: row.close_time,
            volume: row.volume,
            volume24: v,
        },
        PropWrite::Liquidity(v) => ProposalRow {
            proposal_id: row.proposal_id,
            address: row.address.dup(),
            category: row.category,
            token: row.token.dup(),
            state: row.state,
            audit_state: row.audit_state,
            liquidity: v,
            create_time: row.create_time,
            close_time: row.close_time,
            volume: row.volume,
            volume24: row.volume24,
        },
        PropWrite::State(s) => ProposalRow {
            proposal_id: row.proposal_id,
            address: row.address.dup(),
            category: row.category,
            token: row.token.dup(),
            state: s,
            audit_state: row.audit_state,
            liquidity: row.liquidity,
            create_time: row.create_time,
            close_time: row.close_time,
            volume: row.volume,
            volume24: row.volume24,
        },
    }
}

/// What an upsert leaves the proposal table holding: the row keyed by this
/// id rewritten, or a written-over default row appended for a fresh id.
pub open spec fn props_upsert_ok(
    olds: Seq<ProposalRowV>,
    news: Seq<ProposalRowV>,
    proposal_id: u64,
    w: PropWrite,
) -> bool {
    &&& (exists|j: int| 0 <= j < olds.len()
            && (#[trigger] olds[j]).proposal_id == proposal_id)
        ==> exists|j: int|
            {
                &&& 0 <= j < olds.len()
                &&& (#[trigger] olds[j]).proposal_id == proposal_id
                &&& news.len() == olds.len()
                &&& news[j] == apply_prop_write(olds[j], w)
                &&& (forall|k: int| 0 <= k < olds.len() && k != j
                    ==> #[trigger] news[k] == olds[k])
            }
    &&& (forall|j: int| 0 <= j < olds.len()
            ==> (#[trigger] olds[j]).proposal_id != proposal_id)
        ==> news.len() == olds.len() + 1
            && news.last() == apply_prop_write(spec_default_row(proposal_id), w)
            && (forall|k: int| 0 <= k < olds.len() ==> #[trigger] news[k] == olds[k])
}

/// What persisting a creation event leaves of the proposal table, stated
/// over plain values: the row keyed by the id carries the decoded columns,
/// while its review outcome and volume counters are kept (or defaulted for
/// a fresh row).
pub open spec fn full_upsert_ok(
    olds: Seq<ProposalRowV>,
    news: Seq<ProposalRowV>,
    proposal_id: u64,
    address: Seq<u8>,
    category: u64,
    token: Seq<u8>,
    state: ProposalState,
    liquidity: u128,
    create_time: u64,
    close_time: u64,
) -> bool {
    &&& (exists|j: int| 0 <= j < olds.len()
            && (#[trigger] olds[j]).proposal_id == proposal_id)
        ==> exists|j: int|
            {
                &&& 0 <= j < olds.len()
                &&& (#[trigger] olds[j]).proposal_id == proposal_id
                &&& news.len() == olds.len()
                &&& news[j] == (ProposalRowV {
                    address,
                    category,
                    token,
                    state,
                    liquidity,
                    create_time,
                    close_time,
                    ..olds[j]
                })
                &&& (forall|k: int| 0 <= k < olds.len() && k != j
                    ==> #[trigger] news[k] == olds[k])
            }
    &&& (forall|j: int| 0 <= j < olds.len()
            ==> (#[trigger] olds[j]).proposal_id != proposal_id)
        ==> news.len() == olds.len() + 1
            && news.last() == (ProposalRowV {
                address,
                category,
                token,
                state,
                liquidity,
                create_time,
                close_time,
                ..spec_default_row(proposal_id)
            })
            && (forall|k: int| 0 <= k < olds.len() ==> #[trigger] news[k] == olds[k])
}

/// What an audit write leaves of the proposal table: the first row holding
/// the address carries the new review outcome; an unknown address changes
/// nothing.
pub open spec fn audit_update_ok(
    olds: Seq<ProposalRowV>,
    news: Seq<ProposalRowV>,
    address: Seq<u8>,
    audit: ProposalAduitState,
) -> bool {
    &&& (exists|j: int| 0 <= j < olds.len() && (#[trigger] olds[j]).address == address)
        ==> exists|j: int|
            {
                &&& 0 <= j < olds.len()
                &&& (#[trigger] olds[j]).address == address
                &&& news.len() == olds.len()
                &&& news[j] == (ProposalRowV { audit_state: audit, ..olds[j] })
                &&& (forall|k: int| 0 <= k < olds.len() && k != j
                    ==> #[trigger] news[k] == olds[k])
            }
    &&& (forall|j: int| 0 <= j < olds.len() ==> (#[trigger] olds[j]).address != address)
        ==> news == olds
}

impl StoreDB {
    /// Upsert one proposal row by id.
    fn upsert_proposal_row(&mut self, proposal_id: u64, w: PropWrite)
        requires
            old(self).wf(),
        ensures
            final(self).wf(),
            final(self).blocks@ == old(self).blocks@,
            final(self).coin_rows() == old(self).coin_rows(),
            final(self).rels() == old(self).rels(),
            final(self).prices@ == old(self).prices@,
            props_upsert_ok(old(self).props(), final(self).props(), proposal_id, w),
    {
        let n = self.proposals.len();
        let mut i: usize = 0;
        while i < n
            invariant
                i <= n,
                n == self.props().len(),
                forall|j: int| 0 <= j < i
                    ==> (#[trigger] self.props()[j]).proposal_id != proposal_id,
                old(self).wf(),
                *self == *old(self),
            decreases n - i,
        {
            if self.proposals[i].proposal_id == proposal_id {
                let updated = apply_write_row(&self.proposals[i], w);
                let ghost oldrow = self.props()[i as int];
                self.proposals.set(i, updated);
                proof {
                    assert((old(self).props()[i as int]).proposal_id == proposal_id);
                    assert(self.props()[i as int] == apply_prop_write(oldrow, w));
                    assert(forall|k: int| 0 <= k < self.props().len() && k != i
                        ==> #[trigger] self.props()[k] == old(self).props()[k]);
                    assert forall|a: int, b: int| 0 <= a < b < self.props().len()
                        implies (#[trigger] self.props()[a]).proposal_id
                            != (#[trigger] self.props()[b]).proposal_id by {
                        assert((old(self).props()[a]).proposal_id
                            != (old(self).props()[b]).proposal_id);
                    }
                    assert(self.coin_rows() =~~= old(self).coin_rows());
                    assert(self.rels() =~~= old(self).rels());
                }
                return;
            }
            i = i + 1;
        }
        let fresh = default_row(proposal_id);
        let updated = apply_write_row(&fresh, w);
        self.proposals.push(updated);
        proof {
            let m = old(self).props().len() as int;
            assert(self.props()[m] == apply_prop_write(spec_default_row(proposal_id), w));
            assert(self.props().last() == apply_prop_write(spec_default_row(proposal_id), w));
            assert(forall|k: int| 0 <= k < m
                ==> #[trigger] self.props()[k] == old(self).props()[k]);
            assert forall|a: int, b: int| 0 <= a < b < self.props().len()
                implies (#[trigger] self.props()[a]).proposal_id
                    != (#[trigger] self.props()[b]).proposal_id by {
                if b == m {
                    assert((old(self).props()[a]).proposal_id != proposal_id);
                } else {
                    assert((old(self).props()[a]).proposal_id
                        != (old(self).props()[b]).proposal_id);
                }
            }
            assert(self.coin_rows() =~~= old(self).coin_rows());
            assert(self.rels() =~~= old(self).rels());
        }
    }

    /// Persist a proposal as the creation event describes it.  The review
    /// outcome and the volume counters of an existing row are kept.
    pub fn write_proposals(&mut self, proposal_id: u64, address: Address, category: u64,
        token: Address, state: ProposalState, liquidity: u128, times: [u64; 2])
        requires
            old(self).wf(),
        ensures
            final(self).wf(),
            final(self).blocks@ == old(self).blocks@,
            final(self).coin_rows() == old(self).coin_rows(),
            final(self).rels() == old(self).rels(),
            final(self).prices@ == old(self).prices@,
            props_upsert_ok(old(self).props(), final(self).props(), proposal_id,
                PropWrite::Full {
                    address,
                    category,
                    token,
                    state,
                    liquidity,
                    create_time: times[0],
                    close_time: times[1],
                }),
    {
        let create_time = times[0];
        let close_time = times[1];
        self.upsert_proposal_row(proposal_id, PropWrite::Full {
            address,
            category,
            token,
            state,
            liquidity,
            create_time,
            close_time,
        });
    }

    /// Persist a recomputed aggregate trade volume.
    pub fn write_volume(&mut self, proposal_id: u64, volume: u128)
        requires
            old(self).wf(),
        ensures
            final(self).wf(),
            final(self).blocks@ == old(self).blocks@,
            final(self).coin_rows() == old(self).coin_rows(),
            final(self).rels() == old(self).rels(),
            final(self).prices@ == old(self).prices@,
            props_upsert_ok(old(self).props(), final(self).props(), proposal_id,
                PropWrite::Volume(volume)),
    {
        self.upsert_proposal_row(proposal_id, PropWrite::Volume(volume));
    }

    /// Persist a recomputed 24h trade volume.
    pub fn write_volume24(&mut self, proposal_id: u64, volume24: u128)
        requires
            old(self).wf(),
        ensures
            final(self).wf(),
            final(self).blocks@ == old(self).blocks@,
            final(self).coin_rows() == old(self).coin_rows(),
            final(self).rels() == old(self).rels(),
            final(self).prices@ == old(self).prices@,
            props_upsert_ok(old(self).props(), final(self).props(), proposal_id,
                PropWrite::Volume24(volume24)),
    {
        self.upsert_proposal_row(proposal_id, PropWrite::Volume24(volume24));
    }

    /// Persist a recomputed aggregate liquidity.
    pub fn write_liquidity(&mut self, proposal_id: u64, liquidity: u128)
        requires
            old(self).wf(),
        ensures
            final(self).wf(),
            final(self).blocks@ == old(self).blocks@,
            final(self).coin_rows() == old(self).coin_rows(),
            final(self).rels() == old(self).rels(),
            final(self).prices@ == old(self).prices@,
            props_upsert_ok(old(self).props(), final(self).props(), proposal_id,
                PropWrite::Liquidity(liquidity)),
    {
        self.upsert_proposal_row(proposal_id, PropWrite::Liquidity(liquidity));
    }

    /// Persist a proposal's lifecycle state.
    pub fn write_proposal_state(&mut self, proposal_id: u64, state: ProposalState)
        requires
            old(self).wf(),
        ensures
            final(self).wf(),
            final(self).blocks@ == old(self).blocks@,
            final(self).coin_rows() == old(self).coin_rows(),
            final(self).rels() == old(self).rels(),
            final(self).prices@ == old(self).prices@,
            props_upsert_ok(old(self).props(), final(self).props(), proposal_id,
                PropWrite::State(state)),
    {
        self.upsert_proposal_row(proposal_id, PropWrite::State(state));
    }

    /// Persist a proposal's review outcome, resolved by contract address:
    /// the first row holding the address is rewritten; an unknown address
    /// leaves the table as it stands.
    pub fn write_proposal_audit_state(&mut self, address: Address, audit: ProposalAduitState)
        requires
            old(self).wf(),
        ensures
            final(self).wf(),
            final(self).blocks@ == old(self).blocks@,
            final(self).coin_rows() == old(self).coin_rows(),
            final(self).rels() == old(self).rels(),
            final(self).prices@ == old(self).prices@,
            audit_update_ok(old(self).props(), final(self).props(), address@, audit),
    {
        let n = self.proposals.len();
        let mut i: usize = 0;
        while i < n
            invariant
                i <= n,
                n == self.props().len(),
                forall|j: int| 0 <= j < i ==> (#[trigger] self.props()[j]).address != address@,
                old(self).wf(),
                *self == *old(self),
            decreases n - i,
        {
            if self.proposals[i].address == address {
                let row = &self.proposals[i];
                let updated = ProposalRow {
                    proposal_id: row.proposal_id,
                    address: row.address.dup(),
                    category: row.category,
                    token: row.token.dup(),
                    state: row.state,
                    audit_state: audit,
                    liquidity: row.liquidity,
                    create_time: row.create_time,
                    close_time: row.close_time,
                    volume: row.volume,
                    volume24: row.volume24,
                };
                let ghost oldrow = self.props()[i as int];
                self.proposals.set(i, updated);
                proof {
                    assert((old(self).props()[i as int]).address == address@);
                    assert(self.props()[i as int]
                        == (ProposalRowV { audit_state: audit, ..oldrow }));
                    assert(forall|k: int| 0 <= k < self.props().len() && k != i
                        ==> #[trigger] self.props()[k] == old(self).props()[k]);
                    assert forall|a: int, b: int| 0 <= a < b < self.props().len()
                        implies (#[trigger] self.props()[a]).proposal_id
                            != (#[trigger] self.props()[b]).proposal_id by {
                        assert((old(self).props()[a]).proposal_id
                            != (old(self).props()[b]).proposal_id);
                    }
                    assert(self.coin_rows() =~~= old(self).coin_rows());
                    assert(self.rels() =~~= old(self).rels());
                }
                return;
            }
            i = i + 1;
        }
        proof {
            assert(self.props() =~~= old(self).props());
        }
    }
}

} // verus!
