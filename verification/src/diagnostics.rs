//! Figures by which the network's health is watched.
use crate::tick::Tick;
use vstd::prelude::*;

verus! {

/// The totals that were last seen of rollbacks and of the ticks they went back.
#[derive(Clone, Copy, Debug, PartialEq, Eq, Structural)]
pub struct RollbackMetrics {
    pub rollbacks: u32,
    pub rollback_ticks: u32,
}

impl Default for RollbackMetrics {
    fn default() -> (metrics: RollbackMetrics)
        ensures
            metrics == (RollbackMetrics { rollbacks: 0, rollback_ticks: 0 }),
    {
        RollbackMetrics { rollbacks: 0, rollback_ticks: 0 }
    }
}

/// What `total` has grown by; a total that has shrunk has grown by nothing.
pub open spec fn growth(total: u32, before: u32) -> int {
    if total >= before {
        total - before
    } else {
        0
    }
}

impl RollbackMetrics {
    /// Takes note of the totals, and says what was added since the last time.
    pub fn advance(&mut self, totals: RollbackMetrics) -> (added: RollbackMetrics)
        ensures
            *final(self) == totals,
            added.rollbacks == growth(totals.rollbacks, old(self).rollbacks),
            added.rollback_ticks == growth(totals.rollback_ticks, old(self).rollback_ticks),
    {
        let added = RollbackMetrics {
            rollbacks: totals.rollbacks.saturating_sub(self.rollbacks),
            rollback_ticks: totals.rollback_ticks.saturating_sub(self.rollback_ticks),
        };
        self.rollbacks = totals.rollbacks;
        self.rollback_ticks = totals.rollback_ticks;
        added
    }
}

/// How the server's tick stands to a buffer of inputs.
#[derive(Clone, Copy, Debug, PartialEq, Eq, Structural)]
pub struct BufferStatus {
    /// How far the server is past the first input.
    pub ahead: i16,
    /// How far the server is past the end of the buffer.
    pub past_end: i32,
}

/// Compares the server's tick with a buffer of `length` inputs that begins at `start`.
pub fn input_buffer_status(server: Tick, start: Tick, length: u16) -> (status: BufferStatus)
    ensures
        status.ahead == server.since_spec(start),
        status.past_end == server.since_spec(start) - length,
{
    let ahead: i16 = server.since(start);
    BufferStatus { ahead, past_end: ahead as i32 - length as i32 }
}

/// What is added is what the earlier total lacks to the later one, and nothing where it lacks nothing.
pub proof fn law_growth_leads_to_the_total(total: u32, before: u32)
    ensures
        growth(total, before) >= 0,
        before <= total ==> before + growth(total, before) == total,
        before > total ==> growth(total, before) == 0,
{
}

} // verus!
