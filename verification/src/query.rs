//! One-call selection: a snapshot from a single query, without a builder.
//!
//! Two selection styles, matching the two halves of a query: by component
//! list (keep the candidates whose attached components satisfy the list's
//! presence constraint, and resolve only the listed types for each) and by
//! filter alone (keep every matched entity and resolve everything attached
//! to it). The candidate entities come from the host's query machinery;
//! deciding the presence constraint and resolving components is done here.

use vstd::prelude::*;
use crate::component_list::ComponentList;
use crate::ids::IdSet;
use crate::scene::ExportedEntity;
use crate::scene::ExportedScene;
use crate::scene::all_components_for;
use crate::scene::listed_components_for;
use crate::scene::resolve_all_ids;
use crate::scene::resolve_listed_ids;
use crate::world_model::WorldModel;

verus! {

/// The entities of `cands`, in order, whose attached components satisfy
/// the presence constraint of `list`.
pub open spec fn matching_entities(world: WorldModel, list: ComponentList, cands: Seq<u64>) -> Seq<
    u64,
>
    decreases cands.len(),
{
    if cands.len() == 0 {
        Seq::empty()
    } else {
        let rest = matching_entities(world, list, cands.drop_last());
        if list.filter_matches(world.attached(cands.last())) {
            rest.push(cands.last())
        } else {
            rest
        }
    }
}

/// Build a snapshot of the candidate entities that carry all required
/// component types of `list`, resolving only the listed types for each.
///
/// The candidates are the entities the host's additional query filter
/// matched; with no additional filter, every entity of the world.
pub fn scene_from_query_components(
    world: &WorldModel,
    list: &ComponentList,
    candidates: &Vec<u64>,
) -> (r: ExportedScene)
    requires
        world.wf(),
    ensures
        r.entities@.len() == matching_entities(*world, *list, candidates@).len(),
        forall|i: int|
            0 <= i < r.entities@.len() ==> (#[trigger] r.entities@[i]).entity == matching_entities(
                *world,
                *list,
                candidates@,
            )[i],
        forall|i: int|
            0 <= i < r.entities@.len() ==> (#[trigger] r.entities@[i]).components@
                == listed_components_for(
                *world,
                list.id_seq(),
                matching_entities(*world, *list, candidates@)[i],
            ),
{
    let ids = list.component_ids();
    let empty_ids = IdSet::new();
    let mut out: Vec<ExportedEntity> = Vec::new();
    let n = candidates.len();
    let mut i: usize = 0;
    while i < n
        invariant
            world.wf(),
            n == candidates@.len(),
            i <= n,
            ids.wf(),
            ids@ == list.id_seq(),
            empty_ids@ == Seq::<u64>::empty(),
            out@.len() == matching_entities(*world, *list, candidates@.take(i as int)).len(),
            forall|j: int|
                0 <= j < out@.len() ==> (#[trigger] out@[j]).entity == matching_entities(
                    *world,
                    *list,
                    candidates@.take(i as int),
                )[j],
            forall|j: int|
                0 <= j < out@.len() ==> (#[trigger] out@[j]).components@ == listed_components_for(
                    *world,
                    list.id_seq(),
                    matching_entities(*world, *list, candidates@.take(i as int))[j],
                ),
        decreases n - i,
    {
        proof {
            assert(candidates@.take(i + 1).drop_last() =~= candidates@.take(i as int));
            assert(candidates@.take(i + 1).last() == candidates@[i as int]);
        }
        let e = candidates[i];
        let att = match world.attached_of(e) {
            Some(att) => att,
            None => {
                proof {
                    assert(empty_ids.id_set() =~= world.attached(e));
                }
                &empty_ids
            },
        };
        if list.matches_filter(att) {
            let components = resolve_listed_ids(world, &ids, att);
            out.push(ExportedEntity { entity: e, components });
        }
        i += 1;
    }
    proof {
        assert(candidates@.take(n as int) =~= candidates@);
    }
    ExportedScene { entities: out }
}

/// Build a snapshot of exactly the entities the host's query filter
/// matched, resolving every attached, reflectable component type of each.
pub fn scene_from_query_filter(world: &WorldModel, matched: &Vec<u64>) -> (r: ExportedScene)
    requires
        world.wf(),
    ensures
        r.entities@.len() == matched@.len(),
        forall|i: int|
            0 <= i < matched@.len() ==> (#[trigger] r.entities@[i]).entity == matched@[i],
        forall|i: int|
            0 <= i < matched@.len() ==> (#[trigger] r.entities@[i]).components@
                == all_components_for(*world, Set::<u64>::empty(), matched@[i]),
{
    let empty_ids = IdSet::new();
    let mut out: Vec<ExportedEntity> = Vec::new();
    let n = matched.len();
    let mut i: usize = 0;
    while i < n
        invariant
            world.wf(),
            n == matched@.len(),
            i <= n,
            empty_ids@ == Seq::<u64>::empty(),
            out@.len() == i,
            forall|j: int| 0 <= j < i ==> (#[trigger] out@[j]).entity == matched@[j],
            forall|j: int|
                0 <= j < i ==> (#[trigger] out@[j]).components@ == all_components_for(
                    *world,
                    Set::<u64>::empty(),
                    matched@[j],
                ),
        decreases n - i,
    {
        let e = matched[i];
        proof {
            assert(empty_ids.id_set() =~= Set::<u64>::empty());
        }
        let components = resolve_all_ids(world, e, &empty_ids);
        out.push(ExportedEntity { entity: e, components });
        i += 1;
    }
    ExportedScene { entities: out }
}

} // verus!
