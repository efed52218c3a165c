//! Round-robin production scheduler.
//!
//! Each production building owns a repeating countdown and a cursor into its
//! connection list.  While the list is empty the countdown is suspended (its
//! progress is kept, not reset).  When a tick completes the countdown, one
//! unit is requested — catch-up is clamped to at most one firing per tick —
//! the target is the connection at the cursor taken modulo the current list
//! length, the cursor moves on and the countdown starts over.

use vstd::prelude::*;

verus! {

use vstd::arithmetic::div_mod::{
    lemma_add_mod_noop, lemma_mod_division_less_than_divisor, lemma_small_mod,
};
use crate::graph::BuildingId;

/// A request to instantiate a unit travelling from `from` to `to`.
#[derive(Clone, Copy, Debug, PartialEq, Eq, Structural)]
pub struct SpawnUnitRequest {
    pub from: BuildingId,
    pub to: BuildingId,
}

/// Per production building: the configured period, the progress of the
/// current countdown, and the cursor into the connection list.
#[derive(Clone, Copy, Debug, PartialEq, Eq, Structural)]
pub struct ProductionSchedule {
    pub period: u64,
    pub elapsed: u64,
    pub cursor: usize,
}

impl ProductionSchedule {
    pub open spec fn wf(&self) -> bool {
        1 <= self.period && self.elapsed < self.period
    }

    pub fn new(period: u64) -> (s: ProductionSchedule)
        requires
            period >= 1,
        ensures
            s == (ProductionSchedule { period, elapsed: 0, cursor: 0 }),
            s.wf(),
    {
        ProductionSchedule { period, elapsed: 0, cursor: 0 }
    }
}

/// Whether a tick of `dt` completes the countdown: only with somewhere to
/// produce into, and only when the kept progress plus `dt` reaches the
/// period.
pub open spec fn tick_fires(s: ProductionSchedule, conns_len: nat, dt: u64) -> bool {
    conns_len > 0 && s.elapsed + dt >= s.period
}

/// The connection index visited when `s` fires against a list of length
/// `len`: the cursor modulo the current length, which stays valid even if
/// the list grew since the last firing.
pub open spec fn fire_index(s: ProductionSchedule, len: nat) -> int {
    (s.cursor as int) % (len as int)
}

/// The schedule after a firing: the cursor moves past the visited index and
/// the countdown starts over.
pub open spec fn fired(s: ProductionSchedule, len: nat) -> ProductionSchedule {
    ProductionSchedule { period: s.period, elapsed: 0, cursor: (fire_index(s, len) + 1) as usize }
}

/// The schedule after one tick: suspended while the list is empty, advanced
/// by `dt` otherwise, firing at most once.
pub open spec fn tick_next(s: ProductionSchedule, conns_len: nat, dt: u64) -> ProductionSchedule {
    if conns_len == 0 {
        s
    } else if s.elapsed + dt >= s.period {
        fired(s, conns_len)
    } else {
        ProductionSchedule { period: s.period, elapsed: (s.elapsed + dt) as u64, cursor: s.cursor }
    }
}

/// The production target of one tick, if it fires.
pub open spec fn tick_target(s: ProductionSchedule, conns: Seq<BuildingId>, dt: u64) -> Option<
    BuildingId,
> {
    if tick_fires(s, conns.len(), dt) {
        Some(conns[fire_index(s, conns.len())])
    } else {
        None
    }
}

impl ProductionSchedule {
    /// Advances the countdown by `dt` against the building's current
    /// connection list and returns the target to produce into, if the
    /// countdown completed.
    pub fn tick(&mut self, connections: &Vec<BuildingId>, dt: u64) -> (target: Option<BuildingId>)
        requires
            old(self).wf(),
        ensures
            final(self).wf(),
            *final(self) == tick_next(*old(self), connections@.len(), dt),
            target == tick_target(*old(self), connections@, dt),
    {
        let len = connections.len();
        if len == 0 {
            return None;
        }
        let remaining = self.period - self.elapsed;
        if dt >= remaining {
            let i = self.cursor % len;
            proof {
                lemma_mod_division_less_than_divisor(self.cursor as int, len as int);
            }
            let t = connections[i];
            self.cursor = i + 1;
            self.elapsed = 0;
            Some(t)
        } else {
            self.elapsed = self.elapsed + dt;
            None
        }
    }
}

/// The schedule after `n` consecutive firings against a fixed list length.
pub open spec fn fired_n(s: ProductionSchedule, len: nat, n: nat) -> ProductionSchedule
    decreases n,
{
    if n == 0 {
        s
    } else {
        fired(fired_n(s, len, (n - 1) as nat), len)
    }
}

/// Round-robin law: starting from cursor 0, the `n`-th firing (counting from
/// 0) against a connection list of fixed length `len` visits index
/// `n % len`, so consecutive firings cycle through the list in order.
pub proof fn lemma_round_robin(s: ProductionSchedule, len: nat, n: nat)
    requires
        1 <= len <= usize::MAX,
        s.cursor == 0,
    ensures
        fire_index(fired_n(s, len, n), len) == (n as int) % (len as int),
    decreases n,
{
    if n == 0 {
        lemma_small_mod(0, len);
    } else {
        lemma_round_robin(s, len, (n - 1) as nat);
        let sp = fired_n(s, len, (n - 1) as nat);
        lemma_mod_division_less_than_divisor(sp.cursor as int, len as int);
        // cursor after the previous firing is its visited index plus one
        assert(fired_n(s, len, n).cursor == fire_index(sp, len) + 1);
        lemma_add_mod_noop((n - 1) as int, 1, len as int);
        if len == 1 {
            lemma_mod_division_less_than_divisor((n - 1) as int + 1, 1);
            lemma_mod_division_less_than_divisor(fire_index(sp, len) + 1, 1);
        } else {
            lemma_small_mod(1, len);
        }
    }
}

/// The schedule after ticking once per entry of `waits` with an empty
/// connection list.
pub open spec fn ticked_while_empty(s: ProductionSchedule, waits: Seq<u64>) -> ProductionSchedule
    decreases waits.len(),
{
    if waits.len() == 0 {
        s
    } else {
        ticked_while_empty(tick_next(s, 0, waits[0]), waits.skip(1))
    }
}

/// Suspension law: with no connections the countdown does not advance, no
/// matter how many ticks pass; once a connection exists, the next firing
/// comes exactly when the kept progress plus the new tick's delta reaches
/// the period — in particular never immediately on the tick that saw the
/// connection appear with no time elapsed.
pub proof fn lemma_suspended_until_connected(
    s: ProductionSchedule,
    waits: Seq<u64>,
    conns: Seq<BuildingId>,
    dt: u64,
)
    requires
        s.wf(),
        conns.len() >= 1,
    ensures
        ticked_while_empty(s, waits) == s,
        tick_target(ticked_while_empty(s, waits), conns, dt) is Some <==> s.elapsed + dt
            >= s.period,
        dt == 0 ==> tick_target(ticked_while_empty(s, waits), conns, dt) is None,
    decreases waits.len(),
{
    if waits.len() > 0 {
        lemma_suspended_until_connected(tick_next(s, 0, waits[0]), waits.skip(1), conns, dt);
    }
}

} // verus!
