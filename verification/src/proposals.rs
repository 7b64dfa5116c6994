//! The Proposal handler: trade and liquidity events on a proposal contract,
//! the history writes they trigger, and the 24h hot-volume recompute.

use vstd::prelude::*;
use crate::abi::{DecodeError, EventSchema, RawLog, event_matches};
use crate::address::Address;
use crate::events::{Log, XProtocol, addr_at, eparams, is_addr_at, is_u128_at, u128_at};
use crate::handle::ProposalRelation;
use crate::state::AppData;
use crate::store::{
    PriceRow, PropWrite, ProposalRowV, StoreDB, apply_price, apply_prop_write, apply_relation,
    props_upsert_ok, spec_default_row,
};

verus! {

/// The proposal contract's probed shapes.
pub struct ProposalAbi {
    /// `Buy(uint tokenIndex, address account, uint256 amount)`.
    pub buy: EventSchema,
    /// `Sell(uint tokenIndex, address account, uint256 amount)`.
    pub sell: EventSchema,
    /// `AddLiquidity(address account, uint256 amount, uint256 proposalId)`.
    pub add_liquidity: EventSchema,
    /// `RemoveLiquidity(address account, uint256 amount, uint256 proposalId)`.
    pub remove_liquidity: EventSchema,
}

/// Whether a log carries a trade with a readable account.
pub open spec fn trade_probe_ok(schema: EventSchema, raw: RawLog) -> bool {
    event_matches(schema, raw) && is_addr_at(eparams(schema, raw), 1)
}

/// Whether a log carries a liquidity change with a readable account.
pub open spec fn liq_probe_ok(schema: EventSchema, raw: RawLog) -> bool {
    event_matches(schema, raw) && is_addr_at(eparams(schema, raw), 0)
}

/// The decoded trade amount of a log against one shape, zero when the log
/// does not match or the amount does not fit.
pub open spec fn amount_of(schema: EventSchema, raw: RawLog) -> nat {
    if event_matches(schema, raw) && is_u128_at(eparams(schema, raw), 2) {
        u128_at(eparams(schema, raw), 2) as nat
    } else {
        0
    }
}

/// A refresh selector with its fetched chain value: the aggregate volume,
/// the aggregate supply, or the two settlement-token balances at a block.
pub enum HistoryUpdate {
    Volume(u128),
    Liquidity(u128),
    Price { ts: u64, balance0: u128, balance1: u128 },
}

/// A nat clipped into `u128`.
pub open spec fn sat128(n: nat) -> u128 {
    if n > u128::MAX { u128::MAX } else { n as u128 }
}

/// One proposal's share of the trade volume over a set of logs.
pub struct AddrVolume {
    pub address: Address,
    pub total: u128,
}

/// The Proposal handler.
pub struct Proposal;

impl Proposal {
    /// The amount parameter of a trade event.
    pub fn parse_amount(raw: &RawLog, schema: &EventSchema) -> (r: Result<u128, DecodeError>)
        ensures
            r is Ok <==> event_matches(*schema, *raw) && is_u128_at(eparams(*schema, *raw), 2),
            r matches Ok(a) ==> a == u128_at(eparams(*schema, *raw), 2),
    {
        let params = XProtocol::parse_log(raw, schema)?;
        XProtocol::get_index(params.as_slice(), 2)?.to_u128()
    }

    /// The account parameter of a trade event.
    pub fn parse_trade(raw: &RawLog, schema: &EventSchema) -> (r: Result<Address, DecodeError>)
        ensures
            r is Ok <==> trade_probe_ok(*schema, *raw),
            r matches Ok(a) ==> a@ == addr_at(eparams(*schema, *raw), 1),
    {
        let params = XProtocol::parse_log(raw, schema)?;
        XProtocol::get_index(params.as_slice(), 1)?.to_address()
    }

    /// The account parameter of a liquidity event.
    pub fn parse_liquidity(raw: &RawLog, schema: &EventSchema) -> (r: Result<Address, DecodeError>)
        ensures
            r is Ok <==> liq_probe_ok(*schema, *raw),
            r matches Ok(a) ==> a@ == addr_at(eparams(*schema, *raw), 0),
    {
        let params = XProtocol::parse_log(raw, schema)?;
        XProtocol::get_index(params.as_slice(), 0)?.to_address()
    }

    /// Probe one proposal log against the four shapes, record a relation
    /// edge for each match, and raise the refresh flags: (volume,
    /// liquidity, price).
    pub fn update_volumeand_relation(store: &mut StoreDB, abi: &ProposalAbi, raw: &RawLog,
        proposal_id: u64) -> (flags: (bool, bool, bool))
        requires
            old(store).wf(),
        ensures
            final(store).wf(),
            final(store).blocks@ == old(store).blocks@,
            final(store).coin_rows() == old(store).coin_rows(),
            final(store).props() == old(store).props(),
            final(store).prices@ == old(store).prices@,
            flags.0 == (trade_probe_ok(abi.buy, *raw) || trade_probe_ok(abi.sell, *raw)),
            flags.1 == (liq_probe_ok(abi.add_liquidity, *raw)
                || liq_probe_ok(abi.remove_liquidity, *raw)),
            flags.2 == (flags.0 || flags.1),
            final(store).rels() == ({
                let s1 = if trade_probe_ok(abi.buy, *raw) {
                    apply_relation(old(store).rels(),
                        (proposal_id, addr_at(eparams(abi.buy, *raw), 1),
                            ProposalRelation::Trade))
                } else {
                    old(store).rels()
                };
                let s2 = if trade_probe_ok(abi.sell, *raw) {
                    apply_relation(s1,
                        (proposal_id, addr_at(eparams(abi.sell, *raw), 1),
                            ProposalRelation::Trade))
                } else {
                    s1
                };
                let s3 = if liq_probe_ok(abi.add_liquidity, *raw) {
                    apply_relation(s2,
                        (proposal_id, addr_at(eparams(abi.add_liquidity, *raw), 0),
                            ProposalRelation::Liquidity))
                } else {
                    s2
                };
                if liq_probe_ok(abi.remove_liquidity, *raw) {
                    apply_relation(s3,
                        (proposal_id, addr_at(eparams(abi.remove_liquidity, *raw), 0),
                            ProposalRelation::Liquidity))
                } else {
                    s3
                }
            }),
    {
        let mut volume_need_update = false;
        let mut liquidity_need_update = false;
        match Self::parse_trade(raw, &abi.buy) {
            Ok(account) => {
                store.write_relation(proposal_id, account, ProposalRelation::Trade);
                volume_need_update = true;
            },
            Err(_) => {},
        }
        match Self::parse_trade(raw, &abi.sell) {
            Ok(account) => {
                store.write_relation(proposal_id, account, ProposalRelation::Trade);
                volume_need_update = true;
            },
            Err(_) => {},
        }
        match Self::parse_liquidity(raw, &abi.add_liquidity) {
            Ok(account) => {
                store.write_relation(proposal_id, account, ProposalRelation::Liquidity);
                liquidity_need_update = true;
            },
            Err(_) => {},
        }
        match Self::parse_liquidity(raw, &abi.remove_liquidity) {
            Ok(account) => {
                store.write_relation(proposal_id, account, ProposalRelation::Liquidity);
                liquidity_need_update = true;
            },
            Err(_) => {},
        }
        let price_need_update = volume_need_update || liquidity_need_update;
        (volume_need_update, liquidity_need_update, price_need_update)
    }

    /// Persist one raised refresh flag's fetched value: the volume, the
    /// liquidity, or a price point with `token1 = balance0*100 / (balance0
    /// + balance1)` and `token2 = 100 - token1` — the two always sum to
    /// 100.  A price fetch needs a nonzero balance sum, and balances small
    /// enough for the percentage arithmetic.
    pub fn update_history(store: &mut StoreDB, proposal_id: u64, upd: &HistoryUpdate)
        requires
            old(store).wf(),
            (*upd) matches HistoryUpdate::Price { balance0, balance1, .. }
                ==> balance0 + balance1 > 0 && balance0 <= u128::MAX / 100
                    && balance1 <= u128::MAX - balance0,
        ensures
            final(store).wf(),
            final(store).blocks@ == old(store).blocks@,
            final(store).coin_rows() == old(store).coin_rows(),
            final(store).rels() == old(store).rels(),
            (*upd) matches HistoryUpdate::Volume(v)
                ==> props_upsert_ok(old(store).props(), final(store).props(), proposal_id,
                        PropWrite::Volume(v))
                    && final(store).prices@ == old(store).prices@,
            (*upd) matches HistoryUpdate::Liquidity(v)
                ==> props_upsert_ok(old(store).props(), final(store).props(), proposal_id,
                        PropWrite::Liquidity(v))
                    && final(store).prices@ == old(store).prices@,
            (*upd) matches HistoryUpdate::Price { ts, balance0, balance1 } ==> ({
                let p1 = balance0 * 100 / (balance0 + balance1);
                &&& 0 <= p1 <= 100
                &&& final(store).prices@ == apply_price(old(store).prices@,
                    PriceRow {
                        proposal_id,
                        ts,
                        token1: p1 as u128,
                        token2: (100 - p1) as u128,
                    })
                &&& final(store).props() == old(store).props()
            }),
    {
        match upd {
            HistoryUpdate::Volume(v) => {
                store.write_volume(proposal_id, *v);
            },
            HistoryUpdate::Liquidity(v) => {
                store.write_liquidity(proposal_id, *v);
            },
            HistoryUpdate::Price { ts, balance0, balance1 } => {
                let sum = *balance0 + *balance1;
                let p1 = *balance0 * 100 / sum;
                proof {
                    vstd::arithmetic::div_mod::lemma_div_is_ordered(
                        *balance0 as int * 100, sum as int * 100, sum as int);
                    vstd::arithmetic::div_mod::lemma_div_multiples_vanish(100, sum as int);
                }
                let p2 = 100 - p1;
                store.write_price(proposal_id, *ts, [p1, p2]);
            },
        }
    }
}

} // verus!

verus! {

/// The combined trade amount one log contributes: its Buy part plus its
/// Sell part.
pub open spec fn log_amount(abi: ProposalAbi, raw: RawLog) -> nat {
    amount_of(abi.buy, raw) + amount_of(abi.sell, raw)
}

/// Whether a log decodes as a trade against either shape, with a readable
/// amount: exactly the logs whose amounts the recompute sums.
pub open spec fn trade_match(abi: ProposalAbi, raw: RawLog) -> bool {
    ||| event_matches(abi.buy, raw) && is_u128_at(eparams(abi.buy, raw), 2)
    ||| event_matches(abi.sell, raw) && is_u128_at(eparams(abi.sell, raw), 2)
}

/// The trade volume a set of logs attributes to one address.
pub open spec fn sum_amounts(abi: ProposalAbi, logs: Seq<Log>, addr: Seq<u8>) -> nat
    decreases logs.len(),
{
    if logs.len() == 0 {
        0
    } else {
        sum_amounts(abi, logs.drop_last(), addr)
            + if logs.last().address@ == addr { log_amount(abi, logs.last().raw) } else { 0 }
    }
}

/// The distinct addresses that carry at least one decoded trade log, in
/// first-occurrence order.  An address whose window logs match neither
/// shape is absent, so the recompute leaves its stored volume untouched.
pub open spec fn trading_addrs(abi: ProposalAbi, logs: Seq<Log>) -> Seq<Seq<u8>>
    decreases logs.len(),
{
    if logs.len() == 0 {
        Seq::empty()
    } else {
        let p = trading_addrs(abi, logs.drop_last());
        if !trade_match(abi, logs.last().raw) {
            p
        } else if p.contains(logs.last().address@) {
            p
        } else {
            p.push(logs.last().address@)
        }
    }
}

/// An address stands among the trading addresses exactly when one of its
/// logs decodes as a trade.
pub proof fn lemma_trading_addrs_complete(abi: ProposalAbi, logs: Seq<Log>, addr: Seq<u8>)
    ensures
        trading_addrs(abi, logs).contains(addr)
            <==> exists|i: int| 0 <= i < logs.len()
                && (#[trigger] logs[i]).address@ == addr
                && trade_match(abi, logs[i].raw),
    decreases logs.len(),
{
    if logs.len() > 0 {
        lemma_trading_addrs_complete(abi, logs.drop_last(), addr);
        let p = trading_addrs(abi, logs.drop_last());
        if trading_addrs(abi, logs).contains(addr) {
            if p.contains(addr) {
                let i = choose|i: int| 0 <= i < logs.drop_last().len()
                    && (#[trigger] logs.drop_last()[i]).address@ == addr
                    && trade_match(abi, logs.drop_last()[i].raw);
                assert(logs[i].address@ == addr && trade_match(abi, logs[i].raw));
            } else {
                if trade_match(abi, logs.last().raw)
                    && !p.contains(logs.last().address@) {
                    let j = choose|j: int|
                        0 <= j < p.push(logs.last().address@).len()
                            && p.push(logs.last().address@)[j] == addr;
                    if j < p.len() {
                        assert(p[j] == addr);
                    } else {
                        assert(logs[logs.len() - 1].address@ == addr);
                    }
                }
            }
        }
        if exists|i: int| 0 <= i < logs.len()
            && (#[trigger] logs[i]).address@ == addr && trade_match(abi, logs[i].raw) {
            let i = choose|i: int| 0 <= i < logs.len()
                && (#[trigger] logs[i]).address@ == addr && trade_match(abi, logs[i].raw);
            if i < logs.len() - 1 {
                assert(logs.drop_last()[i].address@ == addr
                    && trade_match(abi, logs.drop_last()[i].raw));
                assert(p.contains(addr));
                let j = choose|j: int| 0 <= j < p.len() && p[j] == addr;
                if trade_match(abi, logs.last().raw)
                    && !p.contains(logs.last().address@) {
                    assert(p.push(logs.last().address@)[j] == addr);
                }
            } else {
                if p.contains(addr) {
                    let j = choose|j: int| 0 <= j < p.len() && p[j] == addr;
                    if !p.contains(logs.last().address@) {
                        assert(p.push(logs.last().address@)[j] == addr);
                    }
                } else {
                    assert(p.push(addr)[p.len() as int] == addr);
                }
            }
        }
    }
}

/// An address with no decoded trade log accumulates nothing: its other
/// logs all contribute a zero amount.
pub proof fn lemma_sum_amounts_no_trades(abi: ProposalAbi, logs: Seq<Log>, addr: Seq<u8>)
    requires
        forall|i: int| 0 <= i < logs.len()
            ==> !((#[trigger] logs[i]).address@ == addr && trade_match(abi, logs[i].raw)),
    ensures
        sum_amounts(abi, logs, addr) == 0,
    decreases logs.len(),
{
    if logs.len() > 0 {
        assert forall|i: int| 0 <= i < logs.drop_last().len()
            implies !((#[trigger] logs.drop_last()[i]).address@ == addr
                && trade_match(abi, logs.drop_last()[i].raw)) by {
            assert(logs[i] == logs.drop_last()[i]);
        }
        lemma_sum_amounts_no_trades(abi, logs.drop_last(), addr);
        if logs.last().address@ == addr {
            assert(!trade_match(abi, logs.last().raw)) by {
                assert(logs[logs.len() - 1].address@ == addr);
            }
            assert(amount_of(abi.buy, logs.last().raw) == 0);
            assert(amount_of(abi.sell, logs.last().raw) == 0);
        }
    }
}

impl Proposal {
    /// Sum the decoded Buy/Sell amounts of a batch of logs per address, in
    /// first-occurrence order, clipping each total into `u128`.  Only
    /// addresses with at least one decoded trade log appear; the rest get
    /// no entry and so no write.
    pub fn with_volume(abi: &ProposalAbi, logs: &Vec<Log>) -> (r: Vec<AddrVolume>)
        ensures
            r@.len() == trading_addrs(*abi, logs@).len(),
            forall|k: int| 0 <= k < r@.len()
                ==> (#[trigger] r@[k]).address@ == trading_addrs(*abi, logs@)[k],
            forall|k: int| 0 <= k < r@.len()
                ==> (#[trigger] r@[k]).total
                    == sat128(sum_amounts(*abi, logs@, r@[k].address@)),
    {
        let mut r: Vec<AddrVolume> = Vec::new();
        let n = logs.len();
        let mut i: usize = 0;
        while i < n
            invariant
                i <= n,
                n == logs@.len(),
                r@.len() == trading_addrs(*abi, logs@.take(i as int)).len(),
                forall|k: int| 0 <= k < r@.len()
                    ==> (#[trigger] r@[k]).address@
                        == trading_addrs(*abi, logs@.take(i as int))[k],
                forall|k: int, l: int| 0 <= k < l < r@.len()
                    ==> (#[trigger] r@[k]).address@ != (#[trigger] r@[l]).address@,
                forall|k: int| 0 <= k < r@.len()
                    ==> (#[trigger] r@[k]).total
                        == sat128(sum_amounts(*abi, logs@.take(i as int), r@[k].address@)),
            decreases n - i,
        {
            proof {
                assert(logs@.take(i + 1).drop_last() =~~= logs@.take(i as int));
                assert(logs@.take(i + 1).last() == logs@[i as int]);
            }
            let log = &logs[i];
            let (a_buy, buy_ok) = match Self::parse_amount(&log.raw, &abi.buy) {
                Ok(a) => (a, true),
                Err(_) => (0, false),
            };
            let (a_sell, sell_ok) = match Self::parse_amount(&log.raw, &abi.sell) {
                Ok(a) => (a, true),
                Err(_) => (0, false),
            };
            if !(buy_ok || sell_ok) {
                proof {
                    assert(!trade_match(*abi, logs@[i as int].raw));
                    assert(trading_addrs(*abi, logs@.take(i + 1))
                        =~~= trading_addrs(*abi, logs@.take(i as int)));
                    assert(amount_of(abi.buy, logs@[i as int].raw) == 0);
                    assert(amount_of(abi.sell, logs@[i as int].raw) == 0);
                    assert forall|t: int| 0 <= t < r@.len()
                        implies (#[trigger] r@[t]).total
                            == sat128(sum_amounts(*abi, logs@.take(i + 1),
                                r@[t].address@)) by {
                        assert(sum_amounts(*abi, logs@.take(i + 1), r@[t].address@)
                            == sum_amounts(*abi, logs@.take(i as int), r@[t].address@));
                    }
                }
                i = i + 1;
                continue;
            }
            let amount = a_buy.saturating_add(a_sell);
            proof {
                assert(trade_match(*abi, logs@[i as int].raw));
                assert(amount == sat128(log_amount(*abi, logs@[i as int].raw)));
            }
            let m = r.len();
            let mut k: usize = 0;
            let mut found = false;
            while k < m && !found
                invariant
                    k <= m,
                    m == r@.len(),
                    i < n,
                    n == logs@.len(),
                    log.address@ == logs@[i as int].address@,
                    found ==> k < m && (r@[k as int]).address@ == logs@[i as int].address@,
                    !found ==> forall|t: int| 0 <= t < k
                        ==> (#[trigger] r@[t]).address@ != logs@[i as int].address@,
                decreases m - k + if found { 0int } else { 1int },
            {
                if r[k].address == log.address {
                    found = true;
                } else {
                    k = k + 1;
                }
            }
            if found {
                let new_total = r[k].total.saturating_add(amount);
                let addr = r[k].address.dup();
                r.set(k, AddrVolume { address: addr, total: new_total });
                proof {
                    let la = log_amount(*abi, logs@[i as int].raw);
                    let prev = sum_amounts(*abi, logs@.take(i as int), r@[k as int].address@);
                    assert(sum_amounts(*abi, logs@.take(i + 1), r@[k as int].address@)
                        == prev + la);
                    assert(new_total == sat128(prev + la));
                    assert(trading_addrs(*abi, logs@.take(i + 1))
                        =~~= trading_addrs(*abi, logs@.take(i as int))) by {
                        assert(trading_addrs(*abi, logs@.take(i as int)).contains(
                            logs@[i as int].address@)) by {
                            assert(trading_addrs(*abi, logs@.take(i as int))[k as int]
                                == logs@[i as int].address@);
                        }
                    }
                    assert forall|t: int| 0 <= t < r@.len() && t != k
                        implies (#[trigger] r@[t]).total
                            == sat128(sum_amounts(*abi, logs@.take(i + 1), r@[t].address@)) by {
                        assert(r@[t].address@ != logs@[i as int].address@);
                        assert(sum_amounts(*abi, logs@.take(i + 1), r@[t].address@)
                            == sum_amounts(*abi, logs@.take(i as int), r@[t].address@));
                    }
                }
            } else {
                let addr = log.address.dup();
                r.push(AddrVolume { address: addr, total: amount });
                proof {
                    let la = log_amount(*abi, logs@[i as int].raw);
                    let old_d = trading_addrs(*abi, logs@.take(i as int));
                    assert(!old_d.contains(logs@[i as int].address@)) by {
                        if old_d.contains(logs@[i as int].address@) {
                            let j = choose|j: int| 0 <= j < old_d.len()
                                && old_d[j] == logs@[i as int].address@;
                            assert(r@[j].address@ == logs@[i as int].address@);
                        }
                    }
                    assert(trading_addrs(*abi, logs@.take(i + 1))
                        =~~= old_d.push(logs@[i as int].address@));
                    assert(forall|t: int| 0 <= t < logs@.take(i as int).len()
                        ==> !((#[trigger] logs@.take(i as int)[t]).address@
                                == logs@[i as int].address@
                            && trade_match(*abi, logs@.take(i as int)[t].raw))) by {
                        assert forall|t: int| 0 <= t < logs@.take(i as int).len()
                            implies !((#[trigger] logs@.take(i as int)[t]).address@
                                    == logs@[i as int].address@
                                && trade_match(*abi, logs@.take(i as int)[t].raw)) by {
                            if logs@.take(i as int)[t].address@ == logs@[i as int].address@
                                && trade_match(*abi, logs@.take(i as int)[t].raw) {
                                lemma_trading_addrs_complete(*abi, logs@.take(i as int),
                                    logs@[i as int].address@);
                            }
                        }
                    }
                    lemma_sum_amounts_no_trades(*abi, logs@.take(i as int),
                        logs@[i as int].address@);
                    assert(sum_amounts(*abi, logs@.take(i + 1), logs@[i as int].address@)
                        == la);
                    assert forall|t: int| 0 <= t < r@.len() - 1
                        implies (#[trigger] r@[t]).total
                            == sat128(sum_amounts(*abi, logs@.take(i + 1), r@[t].address@)) by {
                        assert(r@[t].address@ != logs@[i as int].address@);
                        assert(sum_amounts(*abi, logs@.take(i + 1), r@[t].address@)
                            == sum_amounts(*abi, logs@.take(i as int), r@[t].address@));
                    }
                }
            }
            i = i + 1;
        }
        proof {
            assert(logs@.take(n as int) =~~= logs@);
        }
        r
    }
}

} // verus!

verus! {

/// The totals as (address, total) pairs.
pub open spec fn totals_view(s: Seq<AddrVolume>) -> Seq<(Seq<u8>, u128)> {
    Seq::new(s.len(), |k: int| (s[k].address@, s[k].total))
}

/// Whether some totals entry resolves through the index to this proposal
/// id.
pub open spec fn touches_id(
    index: Seq<(Seq<u8>, u64)>,
    totals: Seq<(Seq<u8>, u128)>,
    id: u64,
) -> bool {
    exists|t: int, i: int| 0 <= t < totals.len() && 0 <= i < index.len()
        && #[trigger] index[i] == ((#[trigger] totals[t]).0, id)
}

/// The proposal id the index resolves an address to, if any; the index
/// keys rows by address, so the row is unambiguous.
pub open spec fn index_resolve(index: Seq<(Seq<u8>, u64)>, addr: Seq<u8>) -> Option<u64> {
    if exists|i: int| 0 <= i < index.len() && (#[trigger] index[i]).0 == addr {
        Some(index[choose|i: int| 0 <= i < index.len() && (#[trigger] index[i]).0 == addr].1)
    } else {
        None
    }
}

/// What one volume24 write leaves of the proposal table: the row keyed by
/// the id carries the value, every other column and row as before; a fresh
/// id gets a written-over default row.
pub open spec fn spec_apply_volume24(props: Seq<ProposalRowV>, id: u64, v: u128) -> Seq<
    ProposalRowV,
> {
    if exists|j: int| 0 <= j < props.len() && (#[trigger] props[j]).proposal_id == id {
        let j = choose|j: int| 0 <= j < props.len() && (#[trigger] props[j]).proposal_id == id;
        props.update(j, ProposalRowV { volume24: v, ..props[j] })
    } else {
        props.push(ProposalRowV { volume24: v, ..spec_default_row(id) })
    }
}

/// The whole recompute as a fold: each totals entry the index resolves
/// writes its total, in order; an unresolved entry writes nothing.  Empty
/// totals leave the table exactly as it stands.
pub open spec fn spec_volume24_writes(
    props: Seq<ProposalRowV>,
    index: Seq<(Seq<u8>, u64)>,
    totals: Seq<(Seq<u8>, u128)>,
) -> Seq<ProposalRowV>
    decreases totals.len(),
{
    if totals.len() == 0 {
        props
    } else {
        let prev = spec_volume24_writes(props, index, totals.drop_last());
        match index_resolve(index, totals.last().0) {
            Some(id) => spec_apply_volume24(prev, id, totals.last().1),
            None => prev,
        }
    }
}

impl Proposal {
    /// Persist the recomputed 24h volume of every address the totals carry
    /// that resolves to a known proposal: exactly the fold of one volume24
    /// write per resolving entry, in order.  An address with no decoded
    /// trade log in the window has no totals entry — the aggregation omits
    /// it — so its stored `volume24` is left untouched, never overwritten
    /// with zero.
    pub fn update_24h_hot(data: &AppData, store: &mut StoreDB, totals: &Vec<AddrVolume>)
        requires
            old(store).wf(),
            data.wf(),
        ensures
            final(store).wf(),
            final(store).blocks@ == old(store).blocks@,
            final(store).coin_rows() == old(store).coin_rows(),
            final(store).rels() == old(store).rels(),
            final(store).prices@ == old(store).prices@,
            final(store).props()
                == spec_volume24_writes(old(store).props(), data.index(),
                    totals_view(totals@)),
            final(store).props().len() >= old(store).props().len(),
            forall|k: int| 0 <= k < old(store).props().len()
                ==> #[trigger] final(store).props()[k]
                    == (ProposalRowV {
                        volume24: final(store).props()[k].volume24,
                        ..old(store).props()[k]
                    }),
            forall|k: int| 0 <= k < old(store).props().len()
                    && !touches_id(data.index(), totals_view(totals@),
                        (#[trigger] old(store).props()[k]).proposal_id)
                ==> final(store).props()[k] == old(store).props()[k],
    {
        let n = totals.len();
        let mut t: usize = 0;
        proof {
            assert(totals_view(totals@).take(0) =~~= Seq::<(Seq<u8>, u128)>::empty());
        }
        while t < n
            invariant
                t <= n,
                n == totals@.len(),
                data.wf(),
                store.wf(),
                store.blocks@ == old(store).blocks@,
                store.coin_rows() == old(store).coin_rows(),
                store.rels() == old(store).rels(),
                store.prices@ == old(store).prices@,
                store.props()
                    == spec_volume24_writes(old(store).props(), data.index(),
                        totals_view(totals@).take(t as int)),
                store.props().len() >= old(store).props().len(),
                forall|k: int| 0 <= k < old(store).props().len()
                    ==> #[trigger] store.props()[k]
                        == (ProposalRowV {
                            volume24: store.props()[k].volume24,
                            ..old(store).props()[k]
                        }),
                forall|k: int| 0 <= k < old(store).props().len()
                        && !touches_id(data.index(), totals_view(totals@).take(t as int),
                            (#[trigger] old(store).props()[k]).proposal_id)
                    ==> store.props()[k] == old(store).props()[k],
            decreases n - t,
        {
            proof {
                assert(totals_view(totals@).take(t + 1).drop_last()
                    =~~= totals_view(totals@).take(t as int));
                assert(totals_view(totals@).take(t + 1).last()
                    == (totals@[t as int].address@, totals@[t as int].total));
            }
            let entry = &totals[t];
            match data.get_proposal_id(&entry.address) {
                Some(proposal_id) => {
                    let ghost pre = store.props();
                    proof {
                        assert(index_resolve(data.index(), entry.address@)
                            == Some(proposal_id)) by {
                            let ii = choose|ii: int| 0 <= ii < data.index().len()
                                && #[trigger] data.index()[ii]
                                    == (entry.address@, proposal_id);
                            assert((data.index()[ii]).0 == entry.address@);
                            let cc = choose|i: int| 0 <= i < data.index().len()
                                && (#[trigger] data.index()[i]).0 == entry.address@;
                            if cc != ii {
                                if cc < ii {
                                    assert((data.index()[cc]).0 != (data.index()[ii]).0);
                                } else {
                                    assert((data.index()[ii]).0 != (data.index()[cc]).0);
                                }
                            }
                        }
                    }
                    store.write_volume24(proposal_id, entry.total);
                    proof {
                        let w = PropWrite::Volume24(entry.total);
                        assert(store.props() =~~= spec_apply_volume24(pre, proposal_id,
                            entry.total)) by {
                            if exists|j: int| 0 <= j < pre.len()
                                && (#[trigger] pre[j]).proposal_id == proposal_id {
                                let j = choose|j: int| 0 <= j < pre.len()
                                    && (#[trigger] pre[j]).proposal_id == proposal_id;
                                let ju = choose|ju: int|
                                    {
                                        &&& 0 <= ju < pre.len()
                                        &&& (#[trigger] pre[ju]).proposal_id == proposal_id
                                        &&& store.props().len() == pre.len()
                                        &&& store.props()[ju] == apply_prop_write(pre[ju], w)
                                        &&& (forall|k: int| 0 <= k < pre.len() && k != ju
                                            ==> #[trigger] store.props()[k] == pre[k])
                                    };
                                if j != ju {
                                    if j < ju {
                                        assert(pre[j].proposal_id != pre[ju].proposal_id);
                                    } else {
                                        assert(pre[ju].proposal_id != pre[j].proposal_id);
                                    }
                                }
                                assert(store.props()[j]
                                    == (ProposalRowV { volume24: entry.total, ..pre[j] }));
                            } else {
                                assert(store.props().last()
                                    == (ProposalRowV {
                                        volume24: entry.total,
                                        ..spec_default_row(proposal_id)
                                    }));
                            }
                        }
                        assert(store.props()
                            =~~= spec_volume24_writes(old(store).props(), data.index(),
                                totals_view(totals@).take(t + 1)));
                        assert forall|k: int|
                            0 <= k < old(store).props().len()
                                && !touches_id(data.index(), totals_view(totals@).take(t + 1),
                                    (#[trigger] old(store).props()[k]).proposal_id)
                            implies store.props()[k] == old(store).props()[k] by {
                            assert(!touches_id(data.index(),
                                totals_view(totals@).take(t as int),
                                old(store).props()[k].proposal_id)) by {
                                if touches_id(data.index(),
                                    totals_view(totals@).take(t as int),
                                    old(store).props()[k].proposal_id) {
                                    let (tt, ii) = choose|tt: int, ii: int|
                                        0 <= tt < totals_view(totals@).take(t as int).len()
                                            && 0 <= ii < data.index().len()
                                            && #[trigger] data.index()[ii]
                                                == ((#[trigger] totals_view(totals@).take(
                                                    t as int)[tt]).0,
                                                    old(store).props()[k].proposal_id);
                                    assert(totals_view(totals@).take(t + 1)[tt]
                                        == totals_view(totals@).take(t as int)[tt]);
                                }
                            }
                            assert(pre[k] == old(store).props()[k]);
                            if old(store).props()[k].proposal_id == proposal_id {
                                let ii = choose|ii: int| 0 <= ii < data.index().len()
                                    && #[trigger] data.index()[ii]
                                        == (entry.address@, proposal_id);
                                assert(totals_view(totals@).take(t + 1)[t as int]
                                    == (entry.address@, entry.total));
                                assert(touches_id(data.index(),
                                    totals_view(totals@).take(t + 1),
                                    old(store).props()[k].proposal_id));
                            } else {
                                assert(store.props()[k] == pre[k]);
                            }
                        }
                    }
                },
                None => {
                    proof {
                        assert(index_resolve(data.index(), entry.address@) is None);
                        assert(store.props()
                            =~~= spec_volume24_writes(old(store).props(), data.index(),
                                totals_view(totals@).take(t + 1)));
                        assert forall|k: int|
                            0 <= k < old(store).props().len()
                                && !touches_id(data.index(), totals_view(totals@).take(t + 1),
                                    (#[trigger] old(store).props()[k]).proposal_id)
                            implies store.props()[k] == old(store).props()[k] by {
                            assert(!touches_id(data.index(),
                                totals_view(totals@).take(t as int),
                                old(store).props()[k].proposal_id)) by {
                                if touches_id(data.index(),
                                    totals_view(totals@).take(t as int),
                                    old(store).props()[k].proposal_id) {
                                    let (tt, ii) = choose|tt: int, ii: int|
                                        0 <= tt < totals_view(totals@).take(t as int).len()
                                            && 0 <= ii < data.index().len()
                                            && #[trigger] data.index()[ii]
                                                == ((#[trigger] totals_view(totals@).take(
                                                    t as int)[tt]).0,
                                                    old(store).props()[k].proposal_id);
                                    assert(totals_view(totals@).take(t + 1)[tt]
                                        == totals_view(totals@).take(t as int)[tt]);
                                }
                            }
                        }
                    }
                },
            }
            t = t + 1;
        }
        proof {
            assert(totals_view(totals@).take(n as int) =~~= totals_view(totals@));
        }
    }
}

} // verus!
