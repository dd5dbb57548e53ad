//! Warping between star systems on the galaxy map: a warp is ordered to a
//! system that is not the active one, and carrying it out makes the target
//! the only active system.
use vstd::prelude::*;

verus! {

/// The warp the player has ordered, by system index, if any.
#[derive(Clone, Copy, Debug, PartialEq, Eq, Structural)]
pub struct PendingWarp {
    pub target_index: Option<usize>,
}

impl Default for PendingWarp {
    fn default() -> (p: PendingWarp)
        ensures
            p.target_index is None,
    {
        PendingWarp { target_index: None }
    }
}

/// Systems as (index, whether active) after warping to `target`.
pub open spec fn warped(systems: Seq<(usize, bool)>, target: usize) -> Seq<(usize, bool)> {
    systems.map_values(|s: (usize, bool)| (s.0, s.0 == target))
}

impl PendingWarp {
    /// The "Warp Here" button of the selected system `selected`: orders a
    /// warp there unless it is already the active system. Returns whether
    /// a warp was ordered.
    pub fn order(&mut self, selected: usize, selected_is_active: bool) -> (ordered: bool)
        ensures
            ordered == !selected_is_active,
            ordered ==> final(self).target_index == Some(selected),
            !ordered ==> *final(self) == *old(self),
    {
        if selected_is_active {
            false
        } else {
            self.target_index = Some(selected);
            true
        }
    }
}

/// Carries out the pending warp, if any: exactly the systems whose index is
/// the target become active. The order is used up.
pub fn apply_pending_warp(pending: &mut PendingWarp, systems: &mut Vec<(usize, bool)>)
    ensures
        final(pending).target_index is None,
        match old(pending).target_index {
            Some(t) => final(systems)@ == warped(old(systems)@, t),
            None => final(systems)@ == old(systems)@,
        },
{
    let target = match pending.target_index {
        Some(t) => t,
        None => {
            return;
        },
    };
    pending.target_index = None;
    let mut i: usize = 0;
    while i < systems.len()
        invariant
            i <= systems@.len(),
            systems@.len() == old(systems)@.len(),
            forall|k: int| 0 <= k < i ==> systems@[k] == (old(systems)@[k].0, old(systems)@[k].0 == target),
            forall|k: int| i <= k < systems@.len() ==> systems@[k] == old(systems)@[k],
        decreases systems@.len() - i,
    {
        let idx = systems[i].0;
        systems.set(i, (idx, idx == target));
        i = i + 1;
    }
    proof {
        assert(systems@ =~= warped(old(systems)@, target));
    }
}

/// After a warp the active systems are exactly those with the target's
/// index: the target is active and every other system is not.
pub proof fn lemma_warp_single_active(systems: Seq<(usize, bool)>, target: usize, k: int)
    requires
        0 <= k < systems.len(),
    ensures
        warped(systems, target)[k].1 <==> systems[k].0 == target,
        warped(systems, target)[k].0 == systems[k].0,
{
}

} // verus!
