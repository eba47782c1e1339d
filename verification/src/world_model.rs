//! The library's view of the host world.
//!
//! A snapshot is resolved against introspection data that the host engine
//! reads off its world: for every live entity of interest, the identifiers
//! of the component types attached to it, and the set of component-type
//! identifiers that are reflectable (registered with a value-copy
//! capability). An entity with no record here is treated as despawned: it
//! carries no attached components, so every pair involving it resolves to
//! nothing.

use vstd::prelude::*;
use crate::ids::IdSet;
use crate::ids::insert_id;

verus! {

/// One entity and the component types attached to it.
pub struct EntityRecord {
    /// The entity's identifier.
    pub entity: u64,
    /// The identifiers of the component types attached to the entity.
    pub attached: IdSet,
}

/// Whether `records` holds a record for `e`.
pub open spec fn known_in(records: Seq<EntityRecord>, e: u64) -> bool
    decreases records.len(),
{
    if records.len() == 0 {
        false
    } else if records[0].entity == e {
        true
    } else {
        known_in(records.skip(1), e)
    }
}

/// The attached identifiers recorded for `e`: those of the first record for
/// `e`, or the empty sequence when there is none.
pub open spec fn attached_in(records: Seq<EntityRecord>, e: u64) -> Seq<u64>
    decreases records.len(),
{
    if records.len() == 0 {
        Seq::empty()
    } else if records[0].entity == e {
        records[0].attached@
    } else {
        attached_in(records.skip(1), e)
    }
}

/// Introspection data for one world, as supplied by the host engine.
pub struct WorldModel {
    records: Vec<EntityRecord>,
    reflectable: IdSet,
}

impl View for WorldModel {
    type V = Seq<EntityRecord>;

    closed spec fn view(&self) -> Seq<EntityRecord> {
        self.records@
    }
}

impl WorldModel {
    /// Whether the world holds a record for `e`.
    pub open spec fn has_entity(&self, e: u64) -> bool {
        known_in(self@, e)
    }

    /// The component types attached to `e`, in recorded order.
    pub open spec fn attached_seq(&self, e: u64) -> Seq<u64> {
        attached_in(self@, e)
    }

    /// The component types attached to `e`, as a set.
    pub open spec fn attached(&self, e: u64) -> Set<u64> {
        self.attached_seq(e).to_set()
    }

    /// The reflectable component types, in the order they were marked.
    pub closed spec fn reflectable_seq(&self) -> Seq<u64> {
        self.reflectable@
    }

    /// The reflectable component types, as a set.
    pub open spec fn reflectable_ids(&self) -> Set<u64> {
        self.reflectable_seq().to_set()
    }

    /// Every entity is recorded at most once, and the stored id sets are
    /// well-formed.
    pub open spec fn wf(&self) -> bool {
        &&& forall|i: int, j: int|
            0 <= i < j < self@.len() ==> (#[trigger] self@[i]).entity != (#[trigger] self@[j]).entity
        &&& forall|i: int| 0 <= i < self@.len() ==> (#[trigger] self@[i]).attached.wf()
        &&& self.reflectable_seq().no_duplicates()
    }

    /// An empty world: no entities, nothing reflectable.
    pub fn new() -> (r: WorldModel)
        ensures
            r.wf(),
            r@ == Seq::<EntityRecord>::empty(),
            r.reflectable_seq() == Seq::<u64>::empty(),
    {
        WorldModel { records: Vec::new(), reflectable: IdSet::new() }
    }

    /// Whether the world holds a record for `e` (executable form).
    pub fn contains_entity(&self, e: u64) -> (r: bool)
        ensures
            r == self.has_entity(e),
    {
        let n = self.records.len();
        let mut i: usize = 0;
        proof {
            assert(self@.skip(0) =~= self@);
        }
        while i < n
            invariant
                n == self@.len(),
                i <= n,
                known_in(self@, e) == known_in(self@.skip(i as int), e),
            decreases n - i,
        {
            if self.records[i].entity == e {
                proof {
                    assert(self@.skip(i as int)[0] == self@[i as int]);
                }
                return true;
            }
            proof {
                assert(self@.skip(i as int)[0] == self@[i as int]);
                assert(self@.skip(i as int).skip(1) =~= self@.skip(i + 1));
            }
            i += 1;
        }
        proof {
            assert(self@.skip(n as int) =~= Seq::<EntityRecord>::empty());
        }
        return false;
    }

    /// Record entity `e` with its attached component types.
    pub fn add_entity_record(&mut self, e: u64, attached: IdSet)
        requires
            old(self).wf(),
            attached.wf(),
            !old(self).has_entity(e),
        ensures
            final(self).wf(),
            final(self)@ == old(self)@.push(EntityRecord { entity: e, attached }),
            final(self).reflectable_seq() == old(self).reflectable_seq(),
            final(self).has_entity(e),
            final(self).attached_seq(e) == attached@,
            forall|e2: u64| e2 != e ==> final(self).has_entity(e2) == old(self).has_entity(e2),
            forall|e2: u64| e2 != e ==> final(self).attached_seq(e2) == old(self).attached_seq(e2),
    {
        let ghost rec = EntityRecord { entity: e, attached };
        proof {
            lemma_lookup_push(old(self)@, rec, e);
            assert forall|e2: u64| e2 != e implies known_in(old(self)@.push(rec), e2)
                == known_in(old(self)@, e2) && attached_in(old(self)@.push(rec), e2)
                == attached_in(old(self)@, e2) by {
                lemma_lookup_push(old(self)@, rec, e2);
                if !known_in(old(self)@, e2) {
                    lemma_lookup_absent(old(self)@, e2);
                }
            }
            lemma_known_at_index(old(self)@, e);
        }
        self.records.push(EntityRecord { entity: e, attached });
    }

    /// Mark component type `id` as reflectable.
    pub fn mark_reflectable(&mut self, id: u64)
        requires
            old(self).wf(),
        ensures
            final(self).wf(),
            final(self)@ == old(self)@,
            final(self).reflectable_seq() == insert_id(old(self).reflectable_seq(), id),
    {
        self.reflectable.insert(id);
        proof {
            assert forall|i: int| 0 <= i < self@.len() implies (#[trigger] self@[i]).attached.wf() by {
                assert(self@[i] == old(self)@[i]);
            }
            assert forall|i: int, j: int|
                0 <= i < j < self@.len() implies (#[trigger] self@[i]).entity
                != (#[trigger] self@[j]).entity by {
                assert(self@[i] == old(self)@[i]);
                assert(self@[j] == old(self)@[j]);
            }
        }
    }

    /// Whether component type `id` is reflectable (executable form).
    pub fn is_reflectable(&self, id: u64) -> (r: bool)
        ensures
            r == self.reflectable_ids().contains(id),
    {
        self.reflectable.contains(id)
    }

    /// Look up the attached component types of `e`.
    pub fn attached_of(&self, e: u64) -> (r: Option<&IdSet>)
        requires
            self.wf(),
        ensures
            match r {
                Some(s) => self.has_entity(e) && s@ == self.attached_seq(e) && s.wf(),
                None => !self.has_entity(e) && self.attached_seq(e) == Seq::<u64>::empty(),
            },
    {
        let n = self.records.len();
        let mut i: usize = 0;
        proof {
            assert(self@.skip(0) =~= self@);
        }
        while i < n
            invariant
                self.wf(),
                n == self@.len(),
                i <= n,
                known_in(self@, e) == known_in(self@.skip(i as int), e),
                attached_in(self@, e) == attached_in(self@.skip(i as int), e),
            decreases n - i,
        {
            if self.records[i].entity == e {
                proof {
                    assert(self@.skip(i as int)[0] == self@[i as int]);
                }
                return Some(&self.records[i].attached);
            }
            proof {
                assert(self@.skip(i as int)[0] == self@[i as int]);
                assert(self@.skip(i as int).skip(1) =~= self@.skip(i + 1));
            }
            i += 1;
        }
        proof {
            assert(self@.skip(n as int) =~= Seq::<EntityRecord>::empty());
        }
        return None;
    }
}

/// An entity without a record has no attached components.
pub proof fn lemma_lookup_absent(records: Seq<EntityRecord>, e: u64)
    requires
        !known_in(records, e),
    ensures
        attached_in(records, e) == Seq::<u64>::empty(),
    decreases records.len(),
{
    if records.len() > 0 {
        lemma_lookup_absent(records.skip(1), e);
    }
}

/// With well-formed records, an entity's attached identifiers hold no
/// duplicates.
pub proof fn lemma_attached_in_no_duplicates(records: Seq<EntityRecord>, e: u64)
    requires
        forall|i: int| 0 <= i < records.len() ==> (#[trigger] records[i]).attached.wf(),
    ensures
        attached_in(records, e).no_duplicates(),
    decreases records.len(),
{
    if records.len() == 0 {
    } else if records[0].entity == e {
    } else {
        assert forall|i: int|
            0 <= i < records.skip(1).len() implies (#[trigger] records.skip(1)[i]).attached.wf() by {
            assert(records.skip(1)[i] == records[i + 1]);
        }
        lemma_attached_in_no_duplicates(records.skip(1), e);
    }
}

/// How a record appended at the end shows through a front-first lookup.
proof fn lemma_lookup_push(records: Seq<EntityRecord>, rec: EntityRecord, e: u64)
    ensures
        known_in(records.push(rec), e) == (known_in(records, e) || rec.entity == e),
        attached_in(records.push(rec), e) == if known_in(records, e) {
            attached_in(records, e)
        } else if rec.entity == e {
            rec.attached@
        } else {
            Seq::<u64>::empty()
        },
    decreases records.len(),
{
    reveal_with_fuel(known_in, 2);
    reveal_with_fuel(attached_in, 2);
    if records.len() == 0 {
        assert(records.push(rec)[0] == rec);
        assert(records.push(rec).skip(1) =~= Seq::<EntityRecord>::empty());
        if rec.entity == e {
            assert(known_in(records.push(rec), e));
            assert(attached_in(records.push(rec), e) == rec.attached@);
        } else {
            assert(!known_in(records.push(rec), e));
            assert(attached_in(records.push(rec), e) == Seq::<u64>::empty());
        }
    } else {
        assert(records.push(rec)[0] == records[0]);
        if records[0].entity != e {
            assert(records.push(rec).skip(1) =~= records.skip(1).push(rec));
            lemma_lookup_push(records.skip(1), rec, e);
            assert(known_in(records.push(rec), e) == known_in(records.skip(1).push(rec), e));
            assert(attached_in(records.push(rec), e) == attached_in(
                records.skip(1).push(rec),
                e,
            ));
            assert(known_in(records, e) == known_in(records.skip(1), e));
            assert(attached_in(records, e) == attached_in(records.skip(1), e));
        } else {
            assert(known_in(records.push(rec), e));
            assert(known_in(records, e));
            assert(attached_in(records.push(rec), e) == records[0].attached@);
            assert(attached_in(records, e) == records[0].attached@);
        }
    }
}

/// A recorded entity stands at some index of the record sequence.
proof fn lemma_known_at_index(records: Seq<EntityRecord>, e: u64)
    ensures
        known_in(records, e) <==> exists|i: int|
            0 <= i < records.len() && (#[trigger] records[i]).entity == e,
    decreases records.len(),
{
    if records.len() > 0 {
        lemma_known_at_index(records.skip(1), e);
        if records[0].entity == e {
        } else if known_in(records, e) {
            let i = choose|i: int|
                0 <= i < records.skip(1).len() && (#[trigger] records.skip(1)[i]).entity == e;
            assert(records[i + 1].entity == e);
        } else {
            assert forall|i: int|
                0 <= i < records.len() implies (#[trigger] records[i]).entity != e by {
                if i > 0 {
                    assert(records.skip(1)[i - 1] == records[i]);
                }
            }
        }
    }
}

} // verus!
