//! Cursor arithmetic for the per-chain polling loop.
//!
//! One tick covers the block range `[from_block, to_block]` with
//! `to_block = min(from_block + step - 1, head)`.  When the cursor has caught
//! up with the chain head the tick degenerates to a hot-volume refresh check;
//! otherwise the range is fetched, dispatched, and the cursor advances to
//! `to_block + 1`.  The cursor never moves backwards.

use vstd::prelude::*;
use crate::address::Address;
use crate::state::AppData;

verus! {

/// Message that triggers one polling tick; carries the configured block step.
pub struct Ping(pub u64);

/// The persisted ingestion cursor for one chain: the next block to scan and
/// the static range width loaded at startup.
pub struct BlockCursor {
    pub chain_id: u32,
    pub from_block: u64,
    pub step: u64,
}

/// What one tick must do, decided from `(from_block, step, head)` alone.
pub enum TickPlan {
    /// The cursor is at (or past) the head: no range to scan this tick.
    CaughtUp,
    /// Scan logs over the inclusive block range `[from_block, to_block]`.
    Advance { from_block: u64, to_block: u64 },
}

/// The upper end of the range a tick may cover, `min(from + step - 1, head)`.
pub open spec fn spec_to_block(from_block: int, step: int, head: int) -> int {
    if from_block + step - 1 <= head {
        from_block + step - 1
    } else {
        head
    }
}

/// Where the cursor stands after one tick: unchanged when caught up, else one
/// past the scanned range.
pub open spec fn spec_next_from(from_block: int, step: int, head: int) -> int {
    let to_block = spec_to_block(from_block, step, head);
    if from_block >= to_block {
        from_block
    } else {
        to_block + 1
    }
}

/// Decide what one tick does, from the cursor and the fetched chain head.
/// The range's upper end never passes the head, so the unclipped sum
/// `from_block + step - 1` needs no headroom of its own.
pub fn tick_plan(from_block: u64, step: u64, head: u64) -> (plan: TickPlan)
    requires
        step >= 1,
    ensures
        ({
            let to = spec_to_block(from_block as int, step as int, head as int);
            if from_block >= to {
                plan is CaughtUp
            } else {
                plan matches TickPlan::Advance { from_block: f, to_block: t }
                    && f == from_block && t == to
            }
        }),
{
    let mut to_block: u64 = from_block.saturating_add(step - 1);
    if to_block >= head {
        to_block = head;
    }
    if from_block >= to_block {
        TickPlan::CaughtUp
    } else {
        TickPlan::Advance { from_block, to_block }
    }
}

impl BlockCursor {
    /// Move the cursor one past a scanned range; called only after every log
    /// in `[from_block, to_block]` has been dispatched.
    pub fn advance(&mut self, to_block: u64)
        requires
            old(self).from_block <= to_block,
            to_block < u64::MAX,
        ensures
            final(self).from_block == to_block + 1,
            final(self).from_block > old(self).from_block,
            final(self).step == old(self).step,
            final(self).chain_id == old(self).chain_id,
    {
        self.from_block = to_block + 1;
    }
}

/// The cursor never decreases across ticks, and after an advancing tick it
/// stands exactly one past `to_block`.
pub proof fn lemma_cursor_monotonic(from_block: int, step: int, head: int)
    requires
        step >= 1,
    ensures
        spec_next_from(from_block, step, head) >= from_block,
        from_block < spec_to_block(from_block, step, head)
            ==> spec_next_from(from_block, step, head)
                == spec_to_block(from_block, step, head) + 1,
{
}

/// Whether the hourly 24h-volume recompute is due: more than an hour has
/// passed since it last ran.
pub fn should_recompute_hot(start: u64, now: u64) -> (due: bool)
    ensures
        due == (start + 60 * 60 < now),
{
    now > start && now - start > 60 * 60
}

/// The trailing window whose trade logs make up the 24h volume: one day of
/// blocks at the chain's cadence, clipped at the genesis block.
pub fn hot_window_start(head: u64) -> (from_block: u64)
    ensures
        head >= 24 * 60 * 60 / 15 ==> from_block == head - 24 * 60 * 60 / 15,
        head < 24 * 60 * 60 / 15 ==> from_block == 0,
{
    if head < 24 * 60 * 60 / 15 {
        0
    } else {
        head - 24 * 60 * 60 / 15
    }
}

/// Which handlers one log's address selects: the Factory handler, the
/// Router handler, and/or the Proposal handler — a module handler and the
/// proposal handler both fire only if a module address collides with a
/// proposal contract, which correct configuration rules out.
pub fn route_log(factory: &Address, router: &Address, data: &AppData, addr: &Address) -> (r: (
    bool,
    bool,
    bool,
))
    ensures
        r.0 == (addr@ == factory@),
        r.1 == (addr@ == router@),
        r.2 == exists|i: int| 0 <= i < data.index().len()
            && (#[trigger] data.index()[i]).0 == addr@,
{
    let is_factory = *addr == *factory;
    let is_router = *addr == *router;
    let is_proposal = data.contains_proposal(addr);
    (is_factory, is_router, is_proposal)
}

} // verus!
