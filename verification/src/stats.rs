//! Throughput tracking: how many items an inventory gained over a sliding
//! window of recent ticks.
use crate::inventory::Inventory;
use vstd::prelude::*;

verus! {

/// How many ticks the sliding window spans.
pub const TRACKING_WINDOW: usize = 640;

/// `a - b`, held at zero.
pub open spec fn sat_sub_u32(a: u32, b: u32) -> u32 {
    if a >= b {
        (a - b) as u32
    } else {
        0
    }
}

/// A ring of the inventory totals seen over the last window of ticks.
#[derive(Clone, Debug)]
pub struct ThroughputTracker {
    snapshots: Vec<u32>,
    head: usize,
}

impl ThroughputTracker {
    /// The totals of the window, oldest first.
    pub closed spec fn window(&self) -> Seq<u32> {
        self.snapshots@.subrange(self.head as int, TRACKING_WINDOW as int) + self.snapshots@.subrange(
            0,
            self.head as int,
        )
    }

    /// The ring holds one slot per tick of the window.
    pub closed spec fn wf(&self) -> bool {
        &&& self.snapshots@.len() == TRACKING_WINDOW
        &&& self.head < TRACKING_WINDOW
    }

    pub fn new() -> (t: ThroughputTracker)
        ensures
            t.wf(),
            t.window() == Seq::new(TRACKING_WINDOW as nat, |i: int| 0u32),
    {
        let mut snapshots: Vec<u32> = Vec::new();
        let mut i: usize = 0;
        while i < TRACKING_WINDOW
            invariant
                i <= TRACKING_WINDOW,
                snapshots@ == Seq::new(i as nat, |j: int| 0u32),
            decreases TRACKING_WINDOW - i,
        {
            snapshots.push(0);
            i = i + 1;
        }
        let t = ThroughputTracker { snapshots, head: 0 };
        proof {
            assert(t.window() =~= Seq::new(TRACKING_WINDOW as nat, |i: int| 0u32));
        }
        t
    }

    /// Records this tick's total and returns how many items were gained
    /// since the oldest total of the window (zero if the total fell).
    pub fn record(&mut self, current_total: u32) -> (gained: u32)
        requires
            old(self).wf(),
        ensures
            final(self).wf(),
            gained == sat_sub_u32(current_total, old(self).window()[0]),
            final(self).window() == old(self).window().drop_first().push(current_total),
    {
        let head = self.head;
        let oldest = self.snapshots[head];
        let ghost w0 = self.window();
        self.snapshots.set(head, current_total);
        self.head = if head + 1 == TRACKING_WINDOW { 0 } else { head + 1 };
        proof {
            assert(w0[0] == oldest);
            assert(self.window() =~= w0.drop_first().push(current_total));
        }
        current_total.saturating_sub(oldest)
    }

    /// Records the inventory's current total; returns the items gained over
    /// the window.
    pub fn observe(&mut self, inventory: &Inventory) -> (gained: u32)
        requires
            old(self).wf(),
            inventory.wf(),
        ensures
            final(self).wf(),
            gained == sat_sub_u32(inventory.total() as u32, old(self).window()[0]),
            final(self).window() == old(self).window().drop_first().push(inventory.total() as u32),
    {
        let total = inventory.total_count();
        self.record(total)
    }
}

impl Default for ThroughputTracker {
    fn default() -> (t: ThroughputTracker)
        ensures
            t.wf(),
            t.window() == Seq::new(TRACKING_WINDOW as nat, |i: int| 0u32),
    {
        ThroughputTracker::new()
    }
}

/// The window always spans the same number of ticks.
pub proof fn lemma_window_len(t: ThroughputTracker)
    requires
        t.wf(),
    ensures
        t.window().len() == TRACKING_WINDOW,
{
}

} // verus!
