//! An ordered list of component-type descriptors.
//!
//! A caller names one or more component types; the host engine resolves each
//! type against a world, yielding its component-type identifier there, or
//! nothing when the type is not registered. A descriptor also records
//! whether the type is *required*: a required type contributes a
//! "must be present" constraint to query-based entity selection, while an
//! optional type contributes no constraint. Either way, a registered type
//! contributes its identifier to the set of types to resolve; an
//! unregistered type is silently omitted.
//!
//! The empty list contributes no identifiers and an always-true constraint.

use vstd::prelude::*;
use crate::ids::IdSet;
use crate::ids::insert_id;

verus! {

/// One component type, as resolved against a world.
pub struct TypeDescriptor {
    /// The component-type identifier in the world, if the type is registered
    /// there.
    pub id: Option<u64>,
    /// Whether entity selection by this list requires the type to be present.
    pub required: bool,
}

/// An ordered list of component-type descriptors.
pub struct ComponentList {
    entries: Vec<TypeDescriptor>,
}

/// The registered identifiers among `entries`, each kept once, in order.
pub open spec fn listed_ids(entries: Seq<TypeDescriptor>) -> Seq<u64>
    decreases entries.len(),
{
    if entries.len() == 0 {
        Seq::empty()
    } else {
        let rest = listed_ids(entries.drop_last());
        match entries.last().id {
            Some(id) => insert_id(rest, id),
            None => rest,
        }
    }
}

impl View for ComponentList {
    type V = Seq<TypeDescriptor>;

    closed spec fn view(&self) -> Seq<TypeDescriptor> {
        self.entries@
    }
}

impl ComponentList {
    /// The identifiers this list selects for resolution, each kept once.
    pub open spec fn id_seq(&self) -> Seq<u64> {
        listed_ids(self@)
    }

    /// The identifiers this list selects for resolution, as a set.
    pub open spec fn ids(&self) -> Set<u64> {
        self.id_seq().to_set()
    }

    /// The conjoined presence constraint of the list: every required type
    /// must be registered and among the attached identifiers.
    pub open spec fn filter_matches(&self, attached: Set<u64>) -> bool {
        forall|i: int|
            0 <= i < self@.len() && (#[trigger] self@[i]).required ==> self@[i].id is Some
                && attached.contains(self@[i].id->0)
    }

    /// The empty list: no identifiers, always-true constraint.
    pub fn new() -> (r: ComponentList)
        ensures
            r@ == Seq::<TypeDescriptor>::empty(),
    {
        ComponentList { entries: Vec::new() }
    }

    /// Append a required component type, as resolved by the host
    /// (`None` when the type is not registered in the world).
    pub fn add_required(&mut self, id: Option<u64>)
        ensures
            final(self)@ == old(self)@.push(TypeDescriptor { id, required: true }),
    {
        self.entries.push(TypeDescriptor { id, required: true });
    }

    /// Append an optional component type, as resolved by the host.
    pub fn add_optional(&mut self, id: Option<u64>)
        ensures
            final(self)@ == old(self)@.push(TypeDescriptor { id, required: false }),
    {
        self.entries.push(TypeDescriptor { id, required: false });
    }

    /// Collect the registered identifiers of the list.
    pub fn component_ids(&self) -> (r: IdSet)
        ensures
            r.wf(),
            r@ == self.id_seq(),
    {
        let mut out = IdSet::new();
        let n = self.entries.len();
        let mut i: usize = 0;
        while i < n
            invariant
                n == self@.len(),
                i <= n,
                out.wf(),
                out@ == listed_ids(self@.take(i as int)),
            decreases n - i,
        {
            proof {
                assert(self@.take(i + 1).drop_last() =~= self@.take(i as int));
                assert(self@.take(i + 1).last() == self@[i as int]);
            }
            match self.entries[i].id {
                Some(id) => out.insert(id),
                None => (),
            }
            i += 1;
        }
        proof {
            assert(self@.take(n as int) =~= self@);
        }
        out
    }

    /// Decide the presence constraint against a concrete set of attached
    /// identifiers.
    pub fn matches_filter(&self, attached: &IdSet) -> (r: bool)
        ensures
            r == self.filter_matches(attached.id_set()),
    {
        let n = self.entries.len();
        let mut i: usize = 0;
        while i < n
            invariant
                n == self@.len(),
                i <= n,
                forall|j: int|
                    0 <= j < i && (#[trigger] self@[j]).required ==> self@[j].id is Some
                        && attached.id_set().contains(self@[j].id->0),
            decreases n - i,
        {
            if self.entries[i].required {
                match self.entries[i].id {
                    Some(id) => {
                        if !attached.contains(id) {
                            return false;
                        }
                    },
                    None => {
                        return false;
                    },
                }
            }
            i += 1;
        }
        return true;
    }
}

} // verus!
