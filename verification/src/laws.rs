//! The selection model's guarantees, stated as proved lemmas.

use vstd::prelude::*;
use crate::builder::BuilderView;
use crate::builder::SceneBuilder;
use crate::builder::SelectionView;
use crate::builder::components_for;
use crate::builder::scene_matches;
use crate::builder::with_all_entity;
use crate::builder::with_listed_components;
use crate::ids::lemma_union_ids_to_set;
use crate::scene::ExportedScene;
use crate::scene::lemma_kept_ids_contains;
use crate::world_model::WorldModel;

verus! {

/// An entity with no selection entry never appears in a snapshot built
/// from the selection.
pub proof fn lemma_unselected_entity_absent(
    b: &SceneBuilder,
    world: WorldModel,
    r: ExportedScene,
    e: u64,
)
    requires
        scene_matches(r, b@, world),
        !b@.selection.contains_key(e),
    ensures
        forall|i: int| 0 <= i < r.entities@.len() ==> (#[trigger] r.entities@[i]).entity != e,
{
    b.lemma_order_in_selection();
}

/// Selecting an entity whole twice in a row leaves the same selection as
/// selecting it once; and an entity that is already selected — whole or
/// with an explicit component list — keeps its entry unchanged.
pub proof fn lemma_add_entity_idempotent(v: BuilderView, e: u64)
    ensures
        with_all_entity(with_all_entity(v, e), e) == with_all_entity(v, e),
        v.selection.contains_key(e) ==> with_all_entity(v, e) == v,
{
}

/// Listing components twice for a fresh entity accumulates: the entity
/// ends up with an explicit selection holding exactly the union of the two
/// lists' registered identifiers.
pub proof fn lemma_listed_components_accumulate(
    v: BuilderView,
    e: u64,
    ids1: Seq<u64>,
    ids2: Seq<u64>,
)
    requires
        !v.selection.contains_key(e),
    ensures
        ({
            let v2 = with_listed_components(with_listed_components(v, e, ids1), e, ids2);
            &&& v2.selection.contains_key(e)
            &&& v2.selection[e] matches SelectionView::ByIds(s) && s.to_set() == ids1.to_set().union(
                ids2.to_set(),
            )
        }),
{
    lemma_union_ids_to_set(ids1, ids2);
}

/// The ignore set thins exactly the `All` selections: an ignored component
/// type never survives the resolution of an `All` selection, while a
/// component type listed explicitly survives the ignore set whenever it is
/// attached and reflectable.
pub proof fn lemma_ignore_set_rules(
    world: WorldModel,
    ignored: Set<u64>,
    ids: Seq<u64>,
    e: u64,
    t: u64,
)
    ensures
        ignored.contains(t) ==> !components_for(SelectionView::All, world, ignored, e).contains(t),
        ids.contains(t) && world.attached(e).contains(t) && world.reflectable_ids().contains(t)
            ==> components_for(SelectionView::ByIds(ids), world, ignored, e).contains(t),
{
    lemma_kept_ids_contains(world.attached_seq(e), world.reflectable_ids(), ignored, t);
    lemma_kept_ids_contains(
        ids,
        world.attached(e).intersect(world.reflectable_ids()),
        Set::<u64>::empty(),
        t,
    );
}

/// Building twice from an unchanged selection against an unchanged world
/// describes the same snapshot: the same entities in the same order, each
/// with the same resolved component types.
pub proof fn lemma_build_repeatable(
    v: BuilderView,
    world: WorldModel,
    r1: ExportedScene,
    r2: ExportedScene,
)
    requires
        scene_matches(r1, v, world),
        scene_matches(r2, v, world),
    ensures
        r1.entities@.len() == r2.entities@.len(),
        forall|i: int|
            0 <= i < r1.entities@.len() ==> (#[trigger] r1.entities@[i]).entity
                == r2.entities@[i].entity,
        forall|i: int|
            0 <= i < r1.entities@.len() ==> (#[trigger] r1.entities@[i]).components@
                == r2.entities@[i].components@,
{
}

} // verus!
