//! Fleets: named groups of ships under one commander.
use crate::text::owned;
use vstd::prelude::*;

verus! {

/// A fleet of ships; ships are named by their entity id. Members are kept
/// in the order they joined, each at most once.
#[derive(Clone, Debug)]
pub struct Fleet {
    pub id: u32,
    pub name: String,
    pub commander: Option<u64>,
    pub members: Vec<u64>,
}

/// An order given to a fleet; ships and targets are named by entity id.
#[derive(Clone, Copy, Debug, PartialEq, Eq, Structural)]
pub enum FleetCommand {
    Assemble,
    EngageTarget { target: u64 },
    Disengage,
    WarpTo { system_index: usize },
}

/// No ship is listed twice.
pub open spec fn members_distinct(m: Seq<u64>) -> bool {
    forall|i: int, j: int| 0 <= i < j < m.len() ==> m[i] != m[j]
}

/// Position of the first occurrence of `e`, or -1.
pub open spec fn first_position(m: Seq<u64>, e: u64) -> int
    decreases m.len(),
{
    if m.len() == 0 {
        -1
    } else if m[0] == e {
        0
    } else {
        let p = first_position(m.drop_first(), e);
        if p < 0 {
            -1
        } else {
            p + 1
        }
    }
}

pub(crate) proof fn lemma_first_position(m: Seq<u64>, e: u64)
    ensures
        -1 <= first_position(m, e) < m.len(),
        first_position(m, e) >= 0 ==> m[first_position(m, e)] == e,
        first_position(m, e) >= 0 ==> forall|k: int| 0 <= k < first_position(m, e) ==> m[k] != e,
        first_position(m, e) < 0 <==> !m.contains(e),
    decreases m.len(),
{
    if m.len() > 0 {
        lemma_first_position(m.drop_first(), e);
        if m[0] != e && first_position(m, e) >= 0 {
            assert forall|k: int| 0 <= k < first_position(m, e) implies m[k] != e by {
                if k > 0 {
                    assert(m[k] == m.drop_first()[k - 1]);
                }
            }
        }
        if m[0] != e {
            if m.contains(e) {
                let k = choose|k: int| 0 <= k < m.len() && m[k] == e;
                assert(m.drop_first()[k - 1] == e);
            }
            if m.drop_first().contains(e) {
                let k = choose|k: int| 0 <= k < m.drop_first().len() && m.drop_first()[k] == e;
                assert(m[k + 1] == e);
            }
        }
    }
}

impl Fleet {
    pub fn new(id: u32, name: &str) -> (f: Fleet)
        ensures
            f.id == id,
            f.name@ == name@,
            f.commander.is_none(),
            f.members@ == Seq::<u64>::empty(),
    {
        Fleet { id, name: owned(name), commander: None, members: Vec::new() }
    }

    /// Adds a ship unless it is already a member.
    pub fn add_member(&mut self, entity: u64)
        ensures
            final(self).id == old(self).id,
            final(self).name == old(self).name,
            final(self).commander == old(self).commander,
            final(self).members@ == if old(self).members@.contains(entity) {
                old(self).members@
            } else {
                old(self).members@.push(entity)
            },
    {
        if !self.contains(entity) {
            self.members.push(entity);
        }
    }

    /// Removes a ship's first listing; returns whether it was a member.
    pub fn remove_member(&mut self, entity: u64) -> (removed: bool)
        ensures
            final(self).id == old(self).id,
            final(self).name == old(self).name,
            final(self).commander == old(self).commander,
            removed == old(self).members@.contains(entity),
            final(self).members@ == if removed {
                old(self).members@.remove(first_position(old(self).members@, entity))
            } else {
                old(self).members@
            },
    {
        proof {
            lemma_first_position(self.members@, entity);
        }
        let mut i: usize = 0;
        while i < self.members.len()
            invariant
                i <= self.members@.len(),
                self.members@ == old(self).members@,
                forall|k: int| 0 <= k < i ==> self.members@[k] != entity,
                first_position(self.members@, entity) < 0 || first_position(self.members@, entity) >= i,
                -1 <= first_position(self.members@, entity) < self.members@.len(),
                first_position(self.members@, entity) >= 0 ==> self.members@[first_position(self.members@, entity)] == entity,
                self.id == old(self).id,
                self.name == old(self).name,
                self.commander == old(self).commander,
            decreases self.members@.len() - i,
        {
            if self.members[i] == entity {
                proof {
                    lemma_first_position(self.members@, entity);
                    assert(self.members@.contains(entity));
                }
                assert(first_position(self.members@, entity) == i);
                self.members.remove(i);
                return true;
            }
            i = i + 1;
        }
        false
    }

    /// Whether a ship is a member.
    pub fn contains(&self, entity: u64) -> (r: bool)
        ensures
            r == self.members@.contains(entity),
    {
        let mut i: usize = 0;
        while i < self.members.len()
            invariant
                i <= self.members@.len(),
                forall|k: int| 0 <= k < i ==> self.members@[k] != entity,
            decreases self.members@.len() - i,
        {
            if self.members[i] == entity {
                return true;
            }
            i = i + 1;
        }
        false
    }

    /// Number of members.
    pub fn size(&self) -> (n: usize)
        ensures
            n == self.members@.len(),
    {
        self.members.len()
    }
}

impl Default for Fleet {
    fn default() -> (f: Fleet)
        ensures
            f.id == 0,
            f.name@ == Seq::<char>::empty(),
            f.commander.is_none(),
            f.members@ == Seq::<u64>::empty(),
    {
        Fleet { id: 0, name: String::new(), commander: None, members: Vec::new() }
    }
}

/// Adding a ship keeps every ship listed at most once, and adding it again
/// changes nothing.
pub proof fn lemma_add_member_idempotent(m: Seq<u64>, e: u64)
    requires
        members_distinct(m),
    ensures
        ({
            let once = if m.contains(e) { m } else { m.push(e) };
            let twice = if once.contains(e) { once } else { once.push(e) };
            &&& members_distinct(once)
            &&& once.contains(e)
            &&& twice == once
        }),
{
    if !m.contains(e) {
        assert(m.push(e)[m.len() as int] == e);
    }
}

/// In a fleet without repeats, a removed ship is no longer a member and the
/// others stay.
pub proof fn lemma_remove_member_gone(m: Seq<u64>, e: u64, other: u64)
    requires
        members_distinct(m),
        m.contains(e),
    ensures
        ({
            let after = m.remove(first_position(m, e));
            &&& !after.contains(e)
            &&& members_distinct(after)
            &&& other != e ==> (after.contains(other) <==> m.contains(other))
        }),
{
    lemma_first_position(m, e);
    let p = first_position(m, e);
    let after = m.remove(p);
    if after.contains(e) {
        let k = choose|k: int| 0 <= k < after.len() && after[k] == e;
        if k < p {
            assert(m[k] == e);
        } else {
            assert(m[k + 1] == e);
        }
    }
    if other != e {
        if m.contains(other) {
            let k = choose|k: int| 0 <= k < m.len() && m[k] == other;
            if k < p {
                assert(after[k] == other);
            } else {
                assert(after[k - 1] == other);
            }
        }
        if after.contains(other) {
            let k = choose|k: int| 0 <= k < after.len() && after[k] == other;
            if k < p {
                assert(m[k] == other);
            } else {
                assert(m[k + 1] == other);
            }
        }
    }
}

} // verus!
