//! A small set of component-type identifiers.
//!
//! Identifiers are kept in a duplicate-free vector, so a set can also be
//! walked in a fixed (insertion) order when a snapshot is assembled.

use vstd::prelude::*;

verus! {

/// `s` with `id` appended, unless `id` is already present.
pub open spec fn insert_id(s: Seq<u64>, id: u64) -> Seq<u64> {
    if s.contains(id) {
        s
    } else {
        s.push(id)
    }
}

/// `a` with every identifier of `b` inserted, in order.
pub open spec fn union_ids(a: Seq<u64>, b: Seq<u64>) -> Seq<u64>
    decreases b.len(),
{
    if b.len() == 0 {
        a
    } else {
        insert_id(union_ids(a, b.drop_last()), b.last())
    }
}

/// A set of component-type identifiers.
///
/// The identifiers are stored without duplicates; `self@` is the stored
/// sequence and [`IdSet::id_set`] its set of elements.
pub struct IdSet {
    ids: Vec<u64>,
}

impl View for IdSet {
    type V = Seq<u64>;

    closed spec fn view(&self) -> Seq<u64> {
        self.ids@
    }
}

impl IdSet {
    /// The identifiers, regardless of the order they were inserted in.
    pub open spec fn id_set(&self) -> Set<u64> {
        self@.to_set()
    }

    /// The stored sequence holds each identifier at most once.
    pub open spec fn wf(&self) -> bool {
        self@.no_duplicates()
    }

    /// An empty set.
    pub fn new() -> (r: IdSet)
        ensures
            r.wf(),
            r@ == Seq::<u64>::empty(),
    {
        IdSet { ids: Vec::new() }
    }

    /// How many identifiers the set holds.
    pub fn len(&self) -> (r: usize)
        ensures
            r == self@.len(),
    {
        self.ids.len()
    }

    /// The identifier at position `i` of the insertion order.
    pub fn index(&self, i: usize) -> (r: u64)
        requires
            i < self@.len(),
        ensures
            r == self@[i as int],
    {
        self.ids[i]
    }

    /// Whether `id` is in the set.
    pub fn contains(&self, id: u64) -> (r: bool)
        ensures
            r == self.id_set().contains(id),
    {
        let mut i: usize = 0;
        while i < self.ids.len()
            invariant
                i <= self.ids.len(),
                forall|j: int| 0 <= j < i ==> self.ids@[j] != id,
            decreases self.ids.len() - i,
        {
            if self.ids[i] == id {
                assert(self@.contains(id));
                return true;
            }
            i += 1;
        }
        assert(!self@.contains(id));
        return false;
    }

    /// Insert `id`, keeping the set duplicate-free.
    pub fn insert(&mut self, id: u64)
        requires
            old(self).wf(),
        ensures
            final(self).wf(),
            final(self)@ == insert_id(old(self)@, id),
    {
        if !self.contains(id) {
            self.ids.push(id);
        }
    }

    /// Insert every identifier of `other`, in its insertion order.
    pub fn insert_all(&mut self, other: &IdSet)
        requires
            old(self).wf(),
        ensures
            final(self).wf(),
            final(self)@ == union_ids(old(self)@, other@),
    {
        let n = other.len();
        let mut i: usize = 0;
        while i < n
            invariant
                n == other@.len(),
                i <= n,
                self.wf(),
                self@ == union_ids(old(self)@, other@.take(i as int)),
            decreases n - i,
        {
            proof {
                assert(other@.take(i + 1).drop_last() =~= other@.take(i as int));
                assert(other@.take(i + 1).last() == other@[i as int]);
            }
            self.insert(other.index(i));
            i += 1;
        }
        proof {
            assert(other@.take(n as int) =~= other@);
        }
    }
}

/// Inserting an identifier adds exactly that identifier to the set of elements.
pub proof fn lemma_insert_id_to_set(s: Seq<u64>, id: u64)
    ensures
        insert_id(s, id).to_set() == s.to_set().insert(id),
        insert_id(s, id).no_duplicates() == s.no_duplicates(),
{
    if s.contains(id) {
        assert(insert_id(s, id).to_set() =~= s.to_set().insert(id));
    } else {
        Seq::<u64>::lemma_to_set_insert_commutes(s, id);
        assert(s + seq![id] =~= s.push(id));
        assert(forall|j: int| 0 <= j < s.len() ==> s.push(id)[j] == s[j]);
    }
}

/// The union of the stored sequences is the union of the sets of elements,
/// and keeps the left-hand sequence duplicate-free.
pub proof fn lemma_union_ids_to_set(a: Seq<u64>, b: Seq<u64>)
    ensures
        union_ids(a, b).to_set() == a.to_set().union(b.to_set()),
        union_ids(a, b).no_duplicates() == a.no_duplicates(),
    decreases b.len(),
{
    if b.len() == 0 {
        assert(b.to_set() =~= Set::<u64>::empty());
        assert(union_ids(a, b).to_set() =~= a.to_set().union(b.to_set()));
    } else {
        lemma_union_ids_to_set(a, b.drop_last());
        lemma_insert_id_to_set(union_ids(a, b.drop_last()), b.last());
        assert(b.drop_last().push(b.last()) =~= b);
        assert(b.drop_last().to_set().insert(b.last()) =~= b.to_set());
        assert(union_ids(a, b).to_set() =~= a.to_set().union(b.to_set()));
    }
}

} // verus!
