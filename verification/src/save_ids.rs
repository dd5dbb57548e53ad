//! Numbering of world objects for a save file: each object (by entity id)
//! gets the next sequential save id, and references to objects that were
//! not numbered are written as `u32::MAX`.
use std::collections::HashMap;
use vstd::prelude::*;

verus! {

broadcast use vstd::std_specs::hash::group_hash_axioms;

/// The save id written for a reference to an object that has none.
pub const MISSING_SAVE_ID: u32 = 0xffff_ffff;

/// The save ids handed out so far, and the next one.
#[derive(Debug)]
pub struct SaveIds {
    ids: HashMap<u64, u32>,
    next_id: u32,
}

impl SaveIds {
    /// The save id of each numbered entity.
    pub closed spec fn numbering(&self) -> Map<u64, u32> {
        self.ids@
    }

    /// The id the next numbered entity gets.
    pub closed spec fn next(&self) -> u32 {
        self.next_id
    }

    /// Every id handed out is below the next one, and no two entities share
    /// an id.
    pub open spec fn wf(&self) -> bool {
        &&& forall|e: u64| #[trigger] self.numbering().contains_key(e) ==> self.numbering()[e] < self.next()
        &&& forall|a: u64, b: u64|
            #[trigger] self.numbering().contains_key(a) && #[trigger] self.numbering().contains_key(b) && a != b
                ==> self.numbering()[a] != self.numbering()[b]
    }

    pub fn new() -> (s: SaveIds)
        ensures
            s.wf(),
            s.numbering() == Map::<u64, u32>::empty(),
            s.next() == 0,
    {
        SaveIds { ids: HashMap::new(), next_id: 0 }
    }

    /// Gives `entity` the next save id and returns it.
    pub fn assign(&mut self, entity: u64) -> (id: u32)
        requires
            old(self).wf(),
            old(self).next() < MISSING_SAVE_ID,
        ensures
            final(self).wf(),
            id == old(self).next(),
            final(self).next() == old(self).next() + 1,
            final(self).numbering() == old(self).numbering().insert(entity, id),
    {
        let id = self.next_id;
        self.ids.insert(entity, id);
        self.next_id = self.next_id + 1;
        proof {
            let m = self.numbering();
            let o = old(self).numbering();
            assert forall|e: u64| #[trigger] m.contains_key(e) implies m[e] < self.next() by {
                if e != entity {
                    assert(o.contains_key(e));
                }
            }
            assert forall|a: u64, b: u64|
                #[trigger] m.contains_key(a) && #[trigger] m.contains_key(b) && a != b implies m[a] != m[b] by {
                if a != entity && b != entity {
                    assert(o.contains_key(a) && o.contains_key(b));
                } else if a == entity {
                    assert(o.contains_key(b));
                } else {
                    assert(o.contains_key(a));
                }
            }
        }
        id
    }

    /// The save id of `entity`, or `MISSING_SAVE_ID` if it has none.
    pub fn id_of(&self, entity: u64) -> (id: u32)
        ensures
            id == if self.numbering().contains_key(entity) {
                self.numbering()[entity]
            } else {
                MISSING_SAVE_ID
            },
    {
        match self.ids.get(&entity) {
            Some(id) => *id,
            None => MISSING_SAVE_ID,
        }
    }
}

/// The numbering that gives the entities of `order` the ids 0, 1, 2, ...
/// in turn (a repeated entity keeps its last id).
pub open spec fn numbered(order: Seq<u64>) -> Map<u64, u32>
    decreases order.len(),
{
    if order.len() == 0 {
        Map::empty()
    } else {
        numbered(order.drop_last()).insert(order.last(), (order.len() - 1) as u32)
    }
}

/// Numbers the world for a save: the resource nodes get ids first, in the
/// order given, then the buildings, in the order given (a building that is
/// written without a record, such as a transport line, still takes its
/// number).
pub fn number_for_save(nodes: &[u64], buildings: &[u64]) -> (ids: SaveIds)
    requires
        nodes@.len() + buildings@.len() <= MISSING_SAVE_ID,
    ensures
        ids.wf(),
        ids.numbering() == numbered(nodes@ + buildings@),
        ids.next() == nodes@.len() + buildings@.len(),
{
    let ghost order = nodes@ + buildings@;
    let mut ids = SaveIds::new();
    let mut i: usize = 0;
    while i < nodes.len()
        invariant
            i <= nodes@.len(),
            order == nodes@ + buildings@,
            nodes@.len() + buildings@.len() <= MISSING_SAVE_ID,
            ids.wf(),
            ids.next() == i,
            ids.numbering() == numbered(order.take(i as int)),
        decreases nodes@.len() - i,
    {
        proof {
            assert(order.take(i + 1).drop_last() =~= order.take(i as int));
            assert(order[i as int] == nodes@[i as int]);
        }
        ids.assign(nodes[i]);
        i = i + 1;
    }
    let mut j: usize = 0;
    while j < buildings.len()
        invariant
            j <= buildings@.len(),
            order == nodes@ + buildings@,
            nodes@.len() + buildings@.len() <= MISSING_SAVE_ID,
            ids.wf(),
            ids.next() == nodes@.len() + j,
            ids.numbering() == numbered(order.take(nodes@.len() + j)),
        decreases buildings@.len() - j,
    {
        proof {
            let n = nodes@.len() + j;
            assert(order.take(n + 1).drop_last() =~= order.take(n as int));
            assert(order[n as int] == buildings@[j as int]);
        }
        ids.assign(buildings[j]);
        j = j + 1;
    }
    proof {
        assert(order.take(order.len() as int) =~= order);
    }
    ids
}

/// The entity restored for each save id on loading.
#[derive(Debug)]
pub struct LoadIds {
    entities: HashMap<u32, u64>,
}

/// The entity a reference to a save id that was never restored points at.
pub const PLACEHOLDER_ENTITY: u64 = 0xffff_ffff_ffff_ffff;

/// The map that records (save id, entity) pairs in turn gives (a repeated
/// save id keeps its last entity).
pub open spec fn restored(records: Seq<(u32, u64)>) -> Map<u32, u64>
    decreases records.len(),
{
    if records.len() == 0 {
        Map::empty()
    } else {
        restored(records.drop_last()).insert(records.last().0, records.last().1)
    }
}

impl LoadIds {
    /// The entity restored for each save id.
    pub closed spec fn mapping(&self) -> Map<u32, u64> {
        self.entities@
    }

    pub fn new() -> (l: LoadIds)
        ensures
            l.mapping() == Map::<u32, u64>::empty(),
    {
        LoadIds { entities: HashMap::new() }
    }

    /// Records that the object saved as `save_id` was restored as `entity`.
    pub fn record(&mut self, save_id: u32, entity: u64)
        ensures
            final(self).mapping() == old(self).mapping().insert(save_id, entity),
    {
        self.entities.insert(save_id, entity);
    }

    /// The restored entity a saved reference points at, or
    /// `PLACEHOLDER_ENTITY` when none was restored under that id (a drill
    /// whose node is gone, a line whose building is gone).
    pub fn resolve(&self, save_id: u32) -> (e: u64)
        ensures
            e == if self.mapping().contains_key(save_id) {
                self.mapping()[save_id]
            } else {
                PLACEHOLDER_ENTITY
            },
    {
        match self.entities.get(&save_id) {
            Some(e) => *e,
            None => PLACEHOLDER_ENTITY,
        }
    }

    /// The map of the objects restored, given as (save id, new entity) in
    /// the order they were restored.
    pub fn from_records(records: &[(u32, u64)]) -> (l: LoadIds)
        ensures
            l.mapping() == restored(records@),
    {
        let mut l = LoadIds::new();
        let mut i: usize = 0;
        while i < records.len()
            invariant
                i <= records@.len(),
                l.mapping() == restored(records@.take(i as int)),
            decreases records@.len() - i,
        {
            proof {
                assert(records@.take(i + 1).drop_last() =~= records@.take(i as int));
            }
            let (id, e) = records[i];
            l.record(id, e);
            i = i + 1;
        }
        proof {
            assert(records@.take(records@.len() as int) =~= records@);
        }
        l
    }
}

/// Save then load: when the objects restored are recorded under the
/// distinct ids they were saved with, a saved reference to any of them
/// resolves to the entity restored for it.
pub proof fn lemma_restored_resolves(records: Seq<(u32, u64)>, k: int)
    requires
        0 <= k < records.len(),
        forall|a: int, b: int| 0 <= a < b < records.len() ==> #[trigger] records[a].0 != #[trigger] records[b].0,
    ensures
        restored(records).contains_key(records[k].0),
        restored(records)[records[k].0] == records[k].1,
    decreases records.len(),
{
    if k < records.len() - 1 {
        let prefix = records.drop_last();
        assert forall|a: int, b: int| 0 <= a < b < prefix.len() implies #[trigger] prefix[a].0 != #[trigger] prefix[b].0 by {
            assert(prefix[a] == records[a] && prefix[b] == records[b]);
        }
        assert(prefix[k] == records[k]);
        lemma_restored_resolves(prefix, k);
        assert(records[k].0 != records[records.len() - 1].0);
    }
}

/// Numbered entities never collide with the missing-reference marker, and
/// distinct numbered entities are written with distinct ids.
pub proof fn lemma_save_ids_distinct(s: SaveIds, a: u64, b: u64)
    requires
        s.wf(),
        s.numbering().contains_key(a),
        s.numbering().contains_key(b),
        a != b,
    ensures
        s.numbering()[a] != s.numbering()[b],
        s.numbering()[a] != MISSING_SAVE_ID,
{
}

} // verus!
