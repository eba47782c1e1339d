//! Exported snapshots and the resolution rule.
//!
//! Resolution takes the component types selected for one entity and keeps
//! exactly those the world can produce a value for: the type must be
//! attached to the entity and reflectable. An `All` selection additionally
//! drops the builder's ignored types. The surviving identifiers are grouped
//! by entity into an [`ExportedScene`]; the host engine then copies the
//! actual component values for each surviving pair.

use vstd::prelude::*;
use crate::ids::IdSet;
use crate::world_model::WorldModel;

verus! {

/// One entity of a snapshot: its identifier and the component types whose
/// values are to be copied for it.
pub struct ExportedEntity {
    /// The entity's identifier.
    pub entity: u64,
    /// The resolved component types, each at most once.
    pub components: Vec<u64>,
}

/// A snapshot: the exported entities, in selection order. The order carries
/// no meaning; a snapshot is read as a set of entities.
pub struct ExportedScene {
    /// The exported entities.
    pub entities: Vec<ExportedEntity>,
}

/// The identifiers of `s` that are in `keep` and not in `drop`, in order.
pub open spec fn kept_ids(s: Seq<u64>, keep: Set<u64>, drop: Set<u64>) -> Seq<u64>
    decreases s.len(),
{
    if s.len() == 0 {
        Seq::empty()
    } else {
        let rest = kept_ids(s.drop_last(), keep, drop);
        if keep.contains(s.last()) && !drop.contains(s.last()) {
            rest.push(s.last())
        } else {
            rest
        }
    }
}

/// The component types resolved for an entity selected with an explicit
/// list `ids`: those attached to `e` and reflectable. The ignore set plays
/// no part here.
pub open spec fn listed_components_for(world: WorldModel, ids: Seq<u64>, e: u64) -> Seq<u64> {
    kept_ids(ids, world.attached(e).intersect(world.reflectable_ids()), Set::empty())
}

/// The component types resolved for an entity selected whole: everything
/// attached to `e` that is reflectable and not ignored.
pub open spec fn all_components_for(world: WorldModel, ignored: Set<u64>, e: u64) -> Seq<u64> {
    kept_ids(world.attached_seq(e), world.reflectable_ids(), ignored)
}

/// Resolution keeps exactly the identifiers of `s` that are in `keep` and
/// not in `drop`, without introducing duplicates.
pub proof fn lemma_kept_ids_set(s: Seq<u64>, keep: Set<u64>, drop: Set<u64>)
    ensures
        kept_ids(s, keep, drop).to_set() == s.to_set().intersect(keep).difference(drop),
        s.no_duplicates() ==> kept_ids(s, keep, drop).no_duplicates(),
    decreases s.len(),
{
    if s.len() == 0 {
        assert(kept_ids(s, keep, drop).to_set() =~= s.to_set().intersect(keep).difference(drop));
    } else {
        lemma_kept_ids_set(s.drop_last(), keep, drop);
        let rest = kept_ids(s.drop_last(), keep, drop);
        assert(s.drop_last().push(s.last()) =~= s);
        assert(s.to_set() =~= s.drop_last().to_set().insert(s.last()));
        if keep.contains(s.last()) && !drop.contains(s.last()) {
            Seq::<u64>::lemma_to_set_insert_commutes(rest, s.last());
            assert(rest + seq![s.last()] =~= rest.push(s.last()));
            assert(kept_ids(s, keep, drop).to_set() =~= s.to_set().intersect(keep).difference(
                drop,
            ));
            if s.no_duplicates() {
                assert(!s.drop_last().contains(s.last()));
                assert(!rest.to_set().contains(s.last()));
                assert(forall|j: int| 0 <= j < rest.len() ==> rest[j] != s.last());
                assert(forall|j: int| 0 <= j < rest.len() ==> rest.push(s.last())[j] == rest[j]);
            }
        } else {
            assert(kept_ids(s, keep, drop).to_set() =~= s.to_set().intersect(keep).difference(
                drop,
            ));
        }
    }
}

/// Resolve a whole entity: keep every attached component type that is
/// reflectable and not ignored.
pub(crate) fn resolve_all_ids(world: &WorldModel, e: u64, ignored: &IdSet) -> (r: Vec<u64>)
    requires
        world.wf(),
    ensures
        r@ == all_components_for(*world, ignored.id_set(), e),
{
    let mut out: Vec<u64> = Vec::new();
    match world.attached_of(e) {
        Some(att) => {
            let n = att.len();
            let mut i: usize = 0;
            while i < n
                invariant
                    world.wf(),
                    n == att@.len(),
                    att@ == world.attached_seq(e),
                    i <= n,
                    out@ == kept_ids(att@.take(i as int), world.reflectable_ids(), ignored.id_set()),
                decreases n - i,
            {
                proof {
                    assert(att@.take(i + 1).drop_last() =~= att@.take(i as int));
                    assert(att@.take(i + 1).last() == att@[i as int]);
                }
                let id = att.index(i);
                if world.is_reflectable(id) && !ignored.contains(id) {
                    out.push(id);
                }
                i += 1;
            }
            proof {
                assert(att@.take(n as int) =~= att@);
            }
        },
        None => {
            proof {
                assert(world.attached_seq(e) =~= Seq::<u64>::empty());
            }
        },
    }
    out
}

/// Resolve an explicit list: keep every listed component type that is
/// attached to the entity and reflectable.
pub(crate) fn resolve_listed_ids(world: &WorldModel, ids: &IdSet, att: &IdSet) -> (r: Vec<u64>)
    requires
        world.wf(),
    ensures
        r@ == kept_ids(ids@, att.id_set().intersect(world.reflectable_ids()), Set::<u64>::empty()),
{
    let mut out: Vec<u64> = Vec::new();
    let n = ids.len();
    let mut i: usize = 0;
    while i < n
        invariant
            world.wf(),
            n == ids@.len(),
            i <= n,
            out@ == kept_ids(
                ids@.take(i as int),
                att.id_set().intersect(world.reflectable_ids()),
                Set::<u64>::empty(),
            ),
        decreases n - i,
    {
        proof {
            assert(ids@.take(i + 1).drop_last() =~= ids@.take(i as int));
            assert(ids@.take(i + 1).last() == ids@[i as int]);
        }
        let id = ids.index(i);
        if att.contains(id) && world.is_reflectable(id) {
            out.push(id);
        }
        i += 1;
    }
    proof {
        assert(ids@.take(n as int) =~= ids@);
    }
    out
}

/// Membership in a resolved list, element by element.
pub proof fn lemma_kept_ids_contains(s: Seq<u64>, keep: Set<u64>, drop: Set<u64>, id: u64)
    ensures
        kept_ids(s, keep, drop).contains(id) <==> s.contains(id) && keep.contains(id)
            && !drop.contains(id),
{
    lemma_kept_ids_set(s, keep, drop);
    assert(kept_ids(s, keep, drop).to_set().contains(id) == kept_ids(s, keep, drop).contains(id));
    assert(s.to_set().contains(id) == s.contains(id));
}

} // verus!
