//! The library-wide guarantees, stated and proved once: replaying a log
//! range is harmless, a creation event leaves exactly one row of each kind,
//! a broadcast reaches exactly the matching subscriptions, and a dropped
//! connection receives nothing.

use vstd::prelude::*;
use crate::handle::ProposalRelation;
use crate::state::{PushVal, entry_deliveries, spec_deliveries};
use crate::store::{
    PriceRow, apply_price, apply_relation, price_key_has, rels_has,
};
use crate::ws::SubOpCode;

verus! {

/// Apply a batch of relation writes in order.
pub open spec fn apply_relations(
    rows: Seq<(u64, Seq<u8>, ProposalRelation)>,
    batch: Seq<(u64, Seq<u8>, ProposalRelation)>,
) -> Seq<(u64, Seq<u8>, ProposalRelation)>
    decreases batch.len(),
{
    if batch.len() == 0 {
        rows
    } else {
        apply_relation(apply_relations(rows, batch.drop_last()), batch.last())
    }
}

/// Apply a batch of price writes in order.
pub open spec fn apply_prices(rows: Seq<PriceRow>, batch: Seq<PriceRow>) -> Seq<PriceRow>
    decreases batch.len(),
{
    if batch.len() == 0 {
        rows
    } else {
        apply_price(apply_prices(rows, batch.drop_last()), batch.last())
    }
}

/// A relation row once present stays present under further writes.
pub proof fn lemma_rels_monotone(
    rows: Seq<(u64, Seq<u8>, ProposalRelation)>,
    batch: Seq<(u64, Seq<u8>, ProposalRelation)>,
    row: (u64, Seq<u8>, ProposalRelation),
)
    requires
        rels_has(rows, row),
    ensures
        rels_has(apply_relations(rows, batch), row),
    decreases batch.len(),
{
    if batch.len() > 0 {
        lemma_rels_monotone(rows, batch.drop_last(), row);
        let mid = apply_relations(rows, batch.drop_last());
        if !rels_has(mid, batch.last()) {
            let i = choose|i: int| 0 <= i < mid.len() && mid[i] == row;
            assert(mid.push(batch.last())[i] == row);
        }
    }
}

/// After a batch is applied, every row of the batch is present.
pub proof fn lemma_rels_batch_present(
    rows: Seq<(u64, Seq<u8>, ProposalRelation)>,
    batch: Seq<(u64, Seq<u8>, ProposalRelation)>,
    t: int,
)
    requires
        0 <= t < batch.len(),
    ensures
        rels_has(apply_relations(rows, batch), batch[t]),
    decreases batch.len(),
{
    if t == batch.len() - 1 {
        let mid = apply_relations(rows, batch.drop_last());
        if !rels_has(mid, batch.last()) {
            assert(mid.push(batch.last())[mid.len() as int] == batch.last());
        }
    } else {
        lemma_rels_batch_present(rows, batch.drop_last(), t);
        let mid = apply_relations(rows, batch.drop_last());
        if !rels_has(mid, batch.last()) {
            let i = choose|i: int| 0 <= i < mid.len() && mid[i] == batch[t];
            assert(mid.push(batch.last())[i] == batch[t]);
        }
    }
}

/// A batch whose rows are all present already changes nothing.
pub proof fn lemma_rels_noop(
    rows: Seq<(u64, Seq<u8>, ProposalRelation)>,
    batch: Seq<(u64, Seq<u8>, ProposalRelation)>,
)
    requires
        forall|t: int| 0 <= t < batch.len() ==> rels_has(rows, #[trigger] batch[t]),
    ensures
        apply_relations(rows, batch) == rows,
    decreases batch.len(),
{
    if batch.len() > 0 {
        lemma_rels_noop(rows, batch.drop_last());
        assert(rels_has(rows, batch[batch.len() - 1]));
    }
}

/// Replaying the same batch of relation writes adds no rows: the second
/// pass finds every row already present.
pub proof fn lemma_relation_replay_idempotent(
    rows: Seq<(u64, Seq<u8>, ProposalRelation)>,
    batch: Seq<(u64, Seq<u8>, ProposalRelation)>,
)
    ensures
        apply_relations(apply_relations(rows, batch), batch)
            == apply_relations(rows, batch),
{
    let once = apply_relations(rows, batch);
    assert forall|t: int| 0 <= t < batch.len()
        implies rels_has(once, #[trigger] batch[t]) by {
        lemma_rels_batch_present(rows, batch, t);
    }
    lemma_rels_noop(once, batch);
}

/// A price key once present stays present under further writes.
pub proof fn lemma_prices_monotone(rows: Seq<PriceRow>, batch: Seq<PriceRow>, id: u64, ts: u64)
    requires
        price_key_has(rows, id, ts),
    ensures
        price_key_has(apply_prices(rows, batch), id, ts),
    decreases batch.len(),
{
    if batch.len() > 0 {
        lemma_prices_monotone(rows, batch.drop_last(), id, ts);
        let mid = apply_prices(rows, batch.drop_last());
        if !price_key_has(mid, batch.last().proposal_id, batch.last().ts) {
            let i = choose|i: int| 0 <= i < mid.len()
                && ((#[trigger] mid[i]).proposal_id, mid[i].ts) == (id, ts);
            assert((mid.push(batch.last())[i].proposal_id, mid.push(batch.last())[i].ts)
                == (id, ts));
        }
    }
}

/// After a batch is applied, every key of the batch is present.
pub proof fn lemma_prices_batch_present(rows: Seq<PriceRow>, batch: Seq<PriceRow>, t: int)
    requires
        0 <= t < batch.len(),
    ensures
        price_key_has(apply_prices(rows, batch), batch[t].proposal_id, batch[t].ts),
    decreases batch.len(),
{
    if t == batch.len() - 1 {
        let mid = apply_prices(rows, batch.drop_last());
        if !price_key_has(mid, batch.last().proposal_id, batch.last().ts) {
            assert((mid.push(batch.last())[mid.len() as int].proposal_id,
                mid.push(batch.last())[mid.len() as int].ts)
                == (batch.last().proposal_id, batch.last().ts));
        }
    } else {
        lemma_prices_batch_present(rows, batch.drop_last(), t);
        let mid = apply_prices(rows, batch.drop_last());
        if !price_key_has(mid, batch.last().proposal_id, batch.last().ts) {
            let i = choose|i: int| 0 <= i < mid.len()
                && ((#[trigger] mid[i]).proposal_id, mid[i].ts)
                    == (batch[t].proposal_id, batch[t].ts);
            assert((mid.push(batch.last())[i].proposal_id, mid.push(batch.last())[i].ts)
                == (batch[t].proposal_id, batch[t].ts));
        }
    }
}

/// A batch whose keys are all present already changes nothing.
pub proof fn lemma_prices_noop(rows: Seq<PriceRow>, batch: Seq<PriceRow>)
    requires
        forall|t: int| 0 <= t < batch.len()
            ==> price_key_has(rows, (#[trigger] batch[t]).proposal_id, batch[t].ts),
    ensures
        apply_prices(rows, batch) == rows,
    decreases batch.len(),
{
    if batch.len() > 0 {
        lemma_prices_noop(rows, batch.drop_last());
        assert(price_key_has(rows, batch[batch.len() - 1].proposal_id,
            batch[batch.len() - 1].ts));
    }
}

/// Replaying the same batch of price writes adds no rows.
pub proof fn lemma_price_replay_idempotent(rows: Seq<PriceRow>, batch: Seq<PriceRow>)
    ensures
        apply_prices(apply_prices(rows, batch), batch) == apply_prices(rows, batch),
{
    let once = apply_prices(rows, batch);
    assert forall|t: int| 0 <= t < batch.len()
        implies price_key_has(once, (#[trigger] batch[t]).proposal_id, batch[t].ts) by {
        lemma_prices_batch_present(rows, batch, t);
    }
    lemma_prices_noop(once, batch);
}

/// How many rows of the relation table equal the given row.
pub open spec fn count_rel(
    rows: Seq<(u64, Seq<u8>, ProposalRelation)>,
    row: (u64, Seq<u8>, ProposalRelation),
) -> nat
    decreases rows.len(),
{
    if rows.len() == 0 {
        0
    } else {
        count_rel(rows.drop_last(), row) + if rows.last() == row { 1nat } else { 0nat }
    }
}

/// How many rows of the price table carry the given key.
pub open spec fn count_price_key(rows: Seq<PriceRow>, id: u64, ts: u64) -> nat
    decreases rows.len(),
{
    if rows.len() == 0 {
        0
    } else {
        count_price_key(rows.drop_last(), id, ts)
            + if (rows.last().proposal_id, rows.last().ts) == (id, ts) { 1nat } else { 0nat }
    }
}

/// A row absent from the table counts zero.
pub proof fn lemma_count_rel_absent(
    rows: Seq<(u64, Seq<u8>, ProposalRelation)>,
    row: (u64, Seq<u8>, ProposalRelation),
)
    requires
        !rels_has(rows, row),
    ensures
        count_rel(rows, row) == 0,
    decreases rows.len(),
{
    if rows.len() > 0 {
        assert forall|i: int| 0 <= i < rows.drop_last().len()
            implies rows.drop_last()[i] != row by {
            assert(rows[i] == rows.drop_last()[i]);
        }
        lemma_count_rel_absent(rows.drop_last(), row);
        assert(rows[rows.len() - 1] != row);
    }
}

/// A key absent from the table counts zero.
pub proof fn lemma_count_price_absent(rows: Seq<PriceRow>, id: u64, ts: u64)
    requires
        !price_key_has(rows, id, ts),
    ensures
        count_price_key(rows, id, ts) == 0,
    decreases rows.len(),
{
    if rows.len() > 0 {
        assert forall|i: int| 0 <= i < rows.drop_last().len()
            implies ((#[trigger] rows.drop_last()[i]).proposal_id, rows.drop_last()[i].ts)
                != (id, ts) by {
            assert(rows[i] == rows.drop_last()[i]);
        }
        lemma_count_price_absent(rows.drop_last(), id, ts);
        assert(((rows[rows.len() - 1]).proposal_id, rows[rows.len() - 1].ts) != (id, ts));
    }
}

/// A decoded creation event leaves exactly one `Create` relation for the
/// sender and exactly one initial price point at {50, 50} — provided the
/// proposal is genuinely new, so neither row was there before.
pub proof fn lemma_create_proposal_unique(
    rels: Seq<(u64, Seq<u8>, ProposalRelation)>,
    prices: Seq<PriceRow>,
    proposal_id: u64,
    owner: Seq<u8>,
    create_time: u64,
)
    requires
        !rels_has(rels, (proposal_id, owner, ProposalRelation::Create)),
        !price_key_has(prices, proposal_id, create_time),
    ensures
        count_rel(apply_relation(rels, (proposal_id, owner, ProposalRelation::Create)),
            (proposal_id, owner, ProposalRelation::Create)) == 1,
        count_price_key(apply_price(prices,
            PriceRow { proposal_id, ts: create_time, token1: 50, token2: 50 }),
            proposal_id, create_time) == 1,
        apply_price(prices,
            PriceRow { proposal_id, ts: create_time, token1: 50, token2: 50 }).last()
            == (PriceRow { proposal_id, ts: create_time, token1: 50, token2: 50 }),
{
    let row = (proposal_id, owner, ProposalRelation::Create);
    lemma_count_rel_absent(rels, row);
    let applied = apply_relation(rels, row);
    assert(applied == rels.push(row));
    assert(applied.drop_last() =~~= rels);
    let prow = PriceRow { proposal_id, ts: create_time, token1: 50, token2: 50 };
    lemma_count_price_absent(prices, proposal_id, create_time);
    let papplied = apply_price(prices, prow);
    assert(papplied == prices.push(prow));
    assert(papplied.drop_last() =~= prices);
}

/// How many envelopes of a delivery list go to one connection.
pub open spec fn count_to(
    ds: Seq<(u64, (SubOpCode, Seq<char>, PushVal, u64))>,
    conn: u64,
) -> nat
    decreases ds.len(),
{
    if ds.len() == 0 {
        0
    } else {
        count_to(ds.drop_last(), conn) + if ds.last().0 == conn { 1nat } else { 0nat }
    }
}

/// How many subscriptions of one connection match a topic.
pub open spec fn count_matching(subs: Seq<(Seq<char>, u64)>, topic: Seq<char>) -> nat
    decreases subs.len(),
{
    if subs.len() == 0 {
        0
    } else {
        count_matching(subs.drop_last(), topic)
            + if subs.last().0 == topic { 1nat } else { 0nat }
    }
}

/// Every envelope one connection's subscriptions produce goes to that
/// connection and carries exactly the operation, the topic and the
/// payload, one envelope per matching subscription.
pub proof fn lemma_entry_deliveries(
    conn: u64,
    subs: Seq<(Seq<char>, u64)>,
    topic: Seq<char>,
    op: SubOpCode,
    payload: PushVal,
)
    ensures
        entry_deliveries(conn, subs, topic, op, payload).len()
            == count_matching(subs, topic),
        forall|j: int|
            #![trigger entry_deliveries(conn, subs, topic, op, payload)[j]]
            0 <= j < entry_deliveries(conn, subs, topic, op, payload).len()
            ==> entry_deliveries(conn, subs, topic, op, payload)[j].0 == conn
                && entry_deliveries(conn, subs, topic, op, payload)[j].1.0 == op
                && entry_deliveries(conn, subs, topic, op, payload)[j].1.1 == topic
                && entry_deliveries(conn, subs, topic, op, payload)[j].1.2 == payload,
    decreases subs.len(),
{
    if subs.len() > 0 {
        lemma_entry_deliveries(conn, subs.drop_last(), topic, op, payload);
        let prev = entry_deliveries(conn, subs.drop_last(), topic, op, payload);
        assert forall|j: int|
            #![trigger entry_deliveries(conn, subs, topic, op, payload)[j]]
            0 <= j < entry_deliveries(conn, subs, topic, op, payload).len()
            implies entry_deliveries(conn, subs, topic, op, payload)[j].0 == conn
                && entry_deliveries(conn, subs, topic, op, payload)[j].1.0 == op
                && entry_deliveries(conn, subs, topic, op, payload)[j].1.1 == topic
                && entry_deliveries(conn, subs, topic, op, payload)[j].1.2 == payload by {
            if j < prev.len() {
                assert(entry_deliveries(conn, subs, topic, op, payload)[j] == prev[j]);
            } else {
                assert(subs.last().0 == topic);
                assert(entry_deliveries(conn, subs, topic, op, payload)[j]
                    == (conn, (op, subs.last().0, payload, subs.last().1)));
            }
        }
    } else {
        assert(entry_deliveries(conn, subs, topic, op, payload)
            =~~= Seq::<(u64, (SubOpCode, Seq<char>, PushVal, u64))>::empty());
    }
}

/// The envelope of one matching subscription stands in the connection's
/// deliveries, with that subscription's own id.
pub proof fn lemma_entry_contains(
    conn: u64,
    subs: Seq<(Seq<char>, u64)>,
    topic: Seq<char>,
    op: SubOpCode,
    payload: PushVal,
    s: int,
)
    requires
        0 <= s < subs.len(),
        subs[s].0 == topic,
    ensures
        entry_deliveries(conn, subs, topic, op, payload).contains(
            (conn, (op, topic, payload, subs[s].1))),
    decreases subs.len(),
{
    let whole = entry_deliveries(conn, subs, topic, op, payload);
    let prev = entry_deliveries(conn, subs.drop_last(), topic, op, payload);
    if s == subs.len() - 1 {
        assert(subs.last().0 == topic);
        assert(whole[prev.len() as int] == (conn, (op, subs.last().0, payload, subs.last().1)));
    } else {
        assert(subs.drop_last()[s] == subs[s]);
        lemma_entry_contains(conn, subs.drop_last(), topic, op, payload, s);
        let j = choose|j: int| 0 <= j < prev.len()
            && prev[j] == (conn, (op, topic, payload, subs[s].1));
        assert(whole[j] == (conn, (op, topic, payload, subs[s].1)));
    }
}

/// A matching subscription's envelope stands in the broadcast's deliveries.
pub proof fn lemma_broadcast_contains(
    registry: Seq<(u64, Seq<(Seq<char>, u64)>)>,
    topic: Seq<char>,
    op: SubOpCode,
    payload: PushVal,
    i: int,
    s: int,
)
    requires
        0 <= i < registry.len(),
        0 <= s < registry[i].1.len(),
        registry[i].1[s].0 == topic,
    ensures
        spec_deliveries(registry, topic, op, payload).contains(
            (registry[i].0, (op, topic, payload, registry[i].1[s].1))),
    decreases registry.len(),
{
    let whole = spec_deliveries(registry, topic, op, payload);
    let prev = spec_deliveries(registry.drop_last(), topic, op, payload);
    let elem = (registry[i].0, (op, topic, payload, registry[i].1[s].1));
    if i == registry.len() - 1 {
        lemma_entry_contains(registry.last().0, registry.last().1, topic, op, payload, s);
        let j = choose|j: int| 0 <= j
            < entry_deliveries(registry.last().0, registry.last().1, topic, op, payload).len()
            && entry_deliveries(registry.last().0, registry.last().1, topic, op, payload)[j]
                == elem;
        assert(whole[prev.len() + j] == elem);
    } else {
        assert(registry.drop_last()[i] == registry[i]);
        lemma_broadcast_contains(registry.drop_last(), topic, op, payload, i, s);
        let j = choose|j: int| 0 <= j < prev.len() && prev[j] == elem;
        assert(whole[j] == elem);
    }
}

/// The count of envelopes a delivery list gives one connection, split over
/// a concatenation.
pub proof fn lemma_count_to_add(
    a: Seq<(u64, (SubOpCode, Seq<char>, PushVal, u64))>,
    b: Seq<(u64, (SubOpCode, Seq<char>, PushVal, u64))>,
    conn: u64,
)
    ensures
        count_to(a + b, conn) == count_to(a, conn) + count_to(b, conn),
    decreases b.len(),
{
    if b.len() == 0 {
        assert(a + b =~~= a);
    } else {
        lemma_count_to_add(a, b.drop_last(), conn);
        assert((a + b).drop_last() =~~= a + b.drop_last());
        assert((a + b).last() == b.last());
    }
}

/// Every envelope produced for one connection's subscriptions counts to
/// that connection alone.
pub proof fn lemma_entry_count_to(
    c: u64,
    subs: Seq<(Seq<char>, u64)>,
    topic: Seq<char>,
    op: SubOpCode,
    payload: PushVal,
    conn: u64,
)
    ensures
        conn == c ==> count_to(entry_deliveries(c, subs, topic, op, payload), conn)
            == count_matching(subs, topic),
        conn != c ==> count_to(entry_deliveries(c, subs, topic, op, payload), conn) == 0,
    decreases subs.len(),
{
    if subs.len() > 0 {
        lemma_entry_count_to(c, subs.drop_last(), topic, op, payload, conn);
        let prev = entry_deliveries(c, subs.drop_last(), topic, op, payload);
        if subs.last().0 == topic {
            let elem = (c, (op, subs.last().0, payload, subs.last().1));
            lemma_count_to_add(prev, seq![elem], conn);
            assert(seq![elem].drop_last()
                =~~= Seq::<(u64, (SubOpCode, Seq<char>, PushVal, u64))>::empty());
            assert(count_to(Seq::<(u64, (SubOpCode, Seq<char>, PushVal, u64))>::empty(),
                conn) == 0);
            assert(seq![elem].last() == elem);
            assert(count_to(seq![elem], conn) == if conn == c { 1nat } else { 0nat });
            assert(entry_deliveries(c, subs, topic, op, payload) == prev + seq![elem]);
        } else {
            lemma_count_to_add(prev, Seq::empty(), conn);
            assert(entry_deliveries(c, subs, topic, op, payload)
                =~~= prev + Seq::empty());
        }
    }
}

/// Broadcast fan-out: a connection whose entry holds `m` matching-topic
/// subscriptions receives exactly `m` envelopes, and a connection without
/// an entry receives none.
pub proof fn lemma_broadcast_fanout(
    registry: Seq<(u64, Seq<(Seq<char>, u64)>)>,
    topic: Seq<char>,
    op: SubOpCode,
    payload: PushVal,
    conn: u64,
)
    requires
        forall|i: int, j: int| 0 <= i < j < registry.len()
            ==> (#[trigger] registry[i]).0 != (#[trigger] registry[j]).0,
    ensures
        (forall|i: int| 0 <= i < registry.len() ==> (#[trigger] registry[i]).0 != conn)
            ==> count_to(spec_deliveries(registry, topic, op, payload), conn) == 0,
        forall|i: int| 0 <= i < registry.len() && (#[trigger] registry[i]).0 == conn
            ==> count_to(spec_deliveries(registry, topic, op, payload), conn)
                == count_matching(registry[i].1, topic),
    decreases registry.len(),
{
    if registry.len() > 0 {
        let prefix = registry.drop_last();
        assert forall|i: int, j: int| 0 <= i < j < prefix.len()
            implies (#[trigger] prefix[i]).0 != (#[trigger] prefix[j]).0 by {
            assert(prefix[i] == registry[i] && prefix[j] == registry[j]);
        }
        lemma_broadcast_fanout(prefix, topic, op, payload, conn);
        let last = registry.last();
        lemma_count_to_add(spec_deliveries(prefix, topic, op, payload),
            entry_deliveries(last.0, last.1, topic, op, payload), conn);
        lemma_entry_count_to(last.0, last.1, topic, op, payload, conn);
        if last.0 == conn {
            assert forall|i: int| 0 <= i < prefix.len()
                implies (#[trigger] prefix[i]).0 != conn by {
                assert(registry[i].0 != registry[registry.len() - 1].0);
            }
        }
        assert forall|i: int| 0 <= i < registry.len() && (#[trigger] registry[i]).0 == conn
            implies count_to(spec_deliveries(registry, topic, op, payload), conn)
                == count_matching(registry[i].1, topic) by {
            if i < registry.len() - 1 {
                assert(prefix[i] == registry[i]);
                assert(registry[i].0 != registry[registry.len() - 1].0);
            }
        }
    }
}

/// A broadcast attempts no delivery to a connection the registry does not
/// hold — in particular to one just force-closed and dropped.
pub proof fn lemma_broadcast_skips_dropped(
    registry: Seq<(u64, Seq<(Seq<char>, u64)>)>,
    topic: Seq<char>,
    op: SubOpCode,
    payload: PushVal,
    conn: u64,
)
    requires
        forall|i: int| 0 <= i < registry.len() ==> (#[trigger] registry[i]).0 != conn,
    ensures
        forall|j: int| 0 <= j < spec_deliveries(registry, topic, op, payload).len()
            ==> (#[trigger] spec_deliveries(registry, topic, op, payload)[j]).0 != conn,
    decreases registry.len(),
{
    if registry.len() > 0 {
        let prefix = registry.drop_last();
        assert forall|i: int| 0 <= i < prefix.len()
            implies (#[trigger] prefix[i]).0 != conn by {
            assert(prefix[i] == registry[i]);
        }
        lemma_broadcast_skips_dropped(prefix, topic, op, payload, conn);
        let last = registry.last();
        lemma_entry_deliveries(last.0, last.1, topic, op, payload);
        assert forall|j: int| 0 <= j < spec_deliveries(registry, topic, op, payload).len()
            implies (#[trigger] spec_deliveries(registry, topic, op, payload)[j]).0
                != conn by {
            let a = spec_deliveries(prefix, topic, op, payload);
            let b = entry_deliveries(last.0, last.1, topic, op, payload);
            if j < a.len() {
                assert(spec_deliveries(registry, topic, op, payload)[j] == a[j]);
            } else {
                assert(spec_deliveries(registry, topic, op, payload)[j] == b[j - a.len()]);
                assert(registry[registry.len() - 1].0 != conn);
            }
        }
    }
}

} // verus!
