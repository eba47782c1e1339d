//! The incremental scene builder.
//!
//! A builder accumulates, over any number of calls in any order, a
//! per-entity record of which component types should be resolved: either
//! the whole entity (`All`, subject to the builder's ignore set) or an
//! explicit set of types (`ByIds`, exempt from the ignore set). Adding an
//! entity that is already selected never changes its entry, and listing
//! components for an `All` entity is a no-op: an `All` selection is never
//! narrowed, and a `ByIds` selection is never silently widened to `All`.
//!
//! Building a snapshot reads the accumulated selection and the world, and
//! leaves both unchanged, so one builder can produce several snapshots.

use vstd::prelude::*;
use crate::component_list::ComponentList;
use crate::ids::IdSet;
use crate::ids::union_ids;
use crate::scene::ExportedEntity;
use crate::scene::ExportedScene;
use crate::scene::all_components_for;
use crate::scene::listed_components_for;
use crate::scene::resolve_all_ids;
use crate::scene::resolve_listed_ids;
use crate::world_model::WorldModel;

verus! {

/// Which component types of one selected entity should be resolved.
pub enum ComponentSelection {
    /// Every attached component type, except the builder's ignored ones.
    All,
    /// Exactly the listed component types, ignore set notwithstanding.
    ByIds(IdSet),
}

/// The mathematical form of a [`ComponentSelection`].
pub enum SelectionView {
    /// Every attached component type, except the ignored ones.
    All,
    /// Exactly the listed component types, in insertion order.
    ByIds(Seq<u64>),
}

impl View for ComponentSelection {
    type V = SelectionView;

    open spec fn view(&self) -> SelectionView {
        match self {
            ComponentSelection::All => SelectionView::All,
            ComponentSelection::ByIds(ids) => SelectionView::ByIds(ids@),
        }
    }
}

impl ComponentSelection {
    /// A `ByIds` selection stores its identifiers without duplicates.
    pub open spec fn wf(&self) -> bool {
        match self {
            ComponentSelection::All => true,
            ComponentSelection::ByIds(ids) => ids.wf(),
        }
    }
}

/// The entity identifiers of the entries, in insertion order.
pub open spec fn keys_of(s: Seq<(u64, ComponentSelection)>) -> Seq<u64> {
    s.map_values(|p: (u64, ComponentSelection)| p.0)
}

/// The selection map described by the entries; a later entry for the same
/// entity would win, but entries are kept unique by key.
pub open spec fn selection_of(s: Seq<(u64, ComponentSelection)>) -> Map<u64, SelectionView>
    decreases s.len(),
{
    if s.len() == 0 {
        Map::empty()
    } else {
        selection_of(s.drop_last()).insert(s.last().0, s.last().1@)
    }
}

/// The abstract state of a [`SceneBuilder`]: its selection map, the
/// insertion order of the selected entities, and its ignore set.
#[verifier::ext_equal]
pub struct BuilderView {
    /// Which component types to resolve, per selected entity.
    pub selection: Map<u64, SelectionView>,
    /// The selected entities, in first-selection order.
    pub order: Seq<u64>,
    /// Component types excluded from `All` selections.
    pub ignored: Set<u64>,
}

/// `v` after selecting `e` whole: a fresh entity gets an `All` entry; an
/// entity already present keeps its entry, whatever it is.
pub open spec fn with_all_entity(v: BuilderView, e: u64) -> BuilderView {
    if v.selection.contains_key(e) {
        v
    } else {
        BuilderView {
            selection: v.selection.insert(e, SelectionView::All),
            order: v.order.push(e),
            ignored: v.ignored,
        }
    }
}

/// `v` after selecting each entity of `es` whole, in order.
pub open spec fn with_all_entities(v: BuilderView, es: Seq<u64>) -> BuilderView
    decreases es.len(),
{
    if es.len() == 0 {
        v
    } else {
        with_all_entity(with_all_entities(v, es.drop_last()), es.last())
    }
}

/// `v` after listing the component types `ids` for `e`: a fresh entity gets
/// a `ByIds` entry with exactly `ids`; an existing `ByIds` entry absorbs
/// them; an `All` entry is left as it is.
pub open spec fn with_listed_components(v: BuilderView, e: u64, ids: Seq<u64>) -> BuilderView {
    if !v.selection.contains_key(e) {
        BuilderView {
            selection: v.selection.insert(e, SelectionView::ByIds(ids)),
            order: v.order.push(e),
            ignored: v.ignored,
        }
    } else {
        match v.selection[e] {
            SelectionView::All => v,
            SelectionView::ByIds(s) => BuilderView {
                selection: v.selection.insert(e, SelectionView::ByIds(union_ids(s, ids))),
                order: v.order,
                ignored: v.ignored,
            },
        }
    }
}

/// `v` after listing the component types `ids` for each entity of `es`.
pub open spec fn with_listed_components_each(v: BuilderView, es: Seq<u64>, ids: Seq<u64>) -> BuilderView
    decreases es.len(),
{
    if es.len() == 0 {
        v
    } else {
        with_listed_components(with_listed_components_each(v, es.drop_last(), ids), es.last(), ids)
    }
}

/// `v` after listing `ids` for every entity of `es` whose attached
/// components satisfy the presence constraint of `list`.
pub open spec fn with_matching_components(
    v: BuilderView,
    world: WorldModel,
    list: ComponentList,
    es: Seq<u64>,
) -> BuilderView
    decreases es.len(),
{
    if es.len() == 0 {
        v
    } else {
        let rest = with_matching_components(v, world, list, es.drop_last());
        if list.filter_matches(world.attached(es.last())) {
            with_listed_components(rest, es.last(), list.id_seq())
        } else {
            rest
        }
    }
}

/// The component types resolved for one selection entry against a world.
pub open spec fn components_for(
    sel: SelectionView,
    world: WorldModel,
    ignored: Set<u64>,
    e: u64,
) -> Seq<u64> {
    match sel {
        SelectionView::All => all_components_for(world, ignored, e),
        SelectionView::ByIds(ids) => listed_components_for(world, ids, e),
    }
}

/// Whether snapshot `r` is the one the selection state `v` describes
/// against `world`: one exported entity per selected entity, in selection
/// order, each with its resolved component types.
pub open spec fn scene_matches(r: ExportedScene, v: BuilderView, world: WorldModel) -> bool {
    &&& r.entities@.len() == v.order.len()
    &&& forall|i: int|
        0 <= i < v.order.len() ==> (#[trigger] r.entities@[i]).entity == v.order[i]
    &&& forall|i: int|
        0 <= i < v.order.len() ==> (#[trigger] r.entities@[i]).components@ == components_for(
            v.selection[v.order[i]],
            world,
            v.ignored,
            v.order[i],
        )
}

/// An accumulator of entity and component selections for one snapshot.
pub struct SceneBuilder {
    entries: Vec<(u64, ComponentSelection)>,
    ignored: IdSet,
}

impl View for SceneBuilder {
    type V = BuilderView;

    closed spec fn view(&self) -> BuilderView {
        BuilderView {
            selection: selection_of(self.entries@),
            order: keys_of(self.entries@),
            ignored: self.ignored.id_set(),
        }
    }
}

/// An entity's entry is in the selection map exactly when its key occurs.
proof fn lemma_selection_contains(s: Seq<(u64, ComponentSelection)>, e: u64)
    ensures
        selection_of(s).contains_key(e) <==> keys_of(s).contains(e),
    decreases s.len(),
{
    if s.len() > 0 {
        lemma_selection_contains(s.drop_last(), e);
        assert(keys_of(s.drop_last()) =~= keys_of(s).drop_last());
        if s.last().0 == e {
            assert(keys_of(s)[s.len() - 1] == e);
        } else if keys_of(s).contains(e) {
            let j = choose|j: int| 0 <= j < keys_of(s).len() && keys_of(s)[j] == e;
            assert(keys_of(s).drop_last()[j] == e);
        } else {
            assert(forall|j: int|
                0 <= j < keys_of(s).drop_last().len() ==> keys_of(s).drop_last()[j] == keys_of(
                    s,
                )[j]);
        }
    }
}

/// With unique keys, the entry at index `i` is what the selection map holds
/// for its key.
proof fn lemma_selection_at_index(s: Seq<(u64, ComponentSelection)>, i: int)
    requires
        keys_of(s).no_duplicates(),
        0 <= i < s.len(),
    ensures
        selection_of(s).contains_key(s[i].0),
        selection_of(s)[s[i].0] == s[i].1@,
    decreases s.len(),
{
    lemma_selection_contains(s, s[i].0);
    assert(keys_of(s)[i] == s[i].0);
    if i == s.len() - 1 {
    } else {
        assert(keys_of(s.drop_last()) =~= keys_of(s).drop_last());
        lemma_selection_at_index(s.drop_last(), i);
        assert(s.drop_last()[i] == s[i]);
        assert(keys_of(s)[s.len() - 1] == s.last().0);
        assert(s.last().0 != s[i].0);
    }
}

impl SceneBuilder {
    /// Entries are unique by entity, stored `ByIds` sets and the ignore set
    /// are well-formed.
    pub open spec fn wf(&self) -> bool {
        &&& keys_of(self.entries()).no_duplicates()
        &&& forall|i: int| 0 <= i < self.entries().len() ==> (#[trigger] self.entries()[i]).1.wf()
        &&& self.ignored_seq().no_duplicates()
    }

    /// The stored entries, in insertion order.
    pub closed spec fn entries(&self) -> Seq<(u64, ComponentSelection)> {
        self.entries@
    }

    /// The stored ignore set, in insertion order.
    pub closed spec fn ignored_seq(&self) -> Seq<u64> {
        self.ignored@
    }

    /// Every entity of the selection order has a selection entry.
    pub proof fn lemma_order_in_selection(&self)
        ensures
            forall|i: int|
                0 <= i < self@.order.len() ==> self@.selection.contains_key(
                    #[trigger] self@.order[i],
                ),
    {
        assert forall|i: int|
            0 <= i < self@.order.len() implies self@.selection.contains_key(
            #[trigger] self@.order[i],
        ) by {
            lemma_selection_contains(self.entries@, self@.order[i]);
        }
    }

    /// A fresh builder: nothing selected, nothing ignored.
    pub fn new() -> (r: SceneBuilder)
        ensures
            r.wf(),
            r@.selection == Map::<u64, SelectionView>::empty(),
            r@.order == Seq::<u64>::empty(),
            r@.ignored == Set::<u64>::empty(),
    {
        let r = SceneBuilder { entries: Vec::new(), ignored: IdSet::new() };
        proof {
            assert(keys_of(r.entries@) =~= Seq::<u64>::empty());
            assert(r@.ignored =~= Set::<u64>::empty());
        }
        r
    }

    /// Add the registered component types of `list` to the ignore set.
    ///
    /// The ignore set thins only `All` selections; component types listed
    /// explicitly for an entity are still resolved.
    pub fn ignore_components(&mut self, list: &ComponentList)
        requires
            old(self).wf(),
        ensures
            final(self).wf(),
            final(self)@.selection == old(self)@.selection,
            final(self)@.order == old(self)@.order,
            final(self)@.ignored == old(self)@.ignored.union(list.ids()),
    {
        let ids = list.component_ids();
        self.ignored.insert_all(&ids);
        proof {
            crate::ids::lemma_union_ids_to_set(old(self).ignored_seq(), list.id_seq());
        }
    }

    /// Look up the position of the entry for `e`, if there is one.
    fn find_entry(&self, e: u64) -> (r: Option<usize>)
        requires
            self.wf(),
        ensures
            match r {
                Some(i) => i < self.entries().len() && self.entries()[i as int].0 == e
                    && self@.selection.contains_key(e) && self@.selection[e]
                    == self.entries()[i as int].1@,
                None => !self@.selection.contains_key(e),
            },
    {
        let n = self.entries.len();
        let mut i: usize = 0;
        while i < n
            invariant
                self.wf(),
                n == self.entries@.len(),
                i <= n,
                forall|j: int| 0 <= j < i ==> (#[trigger] self.entries@[j]).0 != e,
            decreases n - i,
        {
            if self.entries[i].0 == e {
                proof {
                    lemma_selection_at_index(self.entries@, i as int);
                }
                return Some(i);
            }
            i += 1;
        }
        proof {
            lemma_selection_contains(self.entries@, e);
            assert forall|j: int| 0 <= j < keys_of(self.entries@).len() implies keys_of(
                self.entries@,
            )[j] != e by {
                assert(keys_of(self.entries@)[j] == self.entries@[j].0);
            }
        }
        return None;
    }

    /// Select entity `e` whole.
    ///
    /// An entity that is already selected keeps its existing entry: a
    /// repeated call changes nothing, and a `ByIds` entry is not widened.
    pub fn add_entity(&mut self, e: u64)
        requires
            old(self).wf(),
        ensures
            final(self).wf(),
            final(self)@ == with_all_entity(old(self)@, e),
    {
        match self.find_entry(e) {
            Some(_) => {
                proof {
                    assert(self@ =~~= with_all_entity(old(self)@, e));
                }
            },
            None => {
                proof {
                    lemma_selection_contains(self.entries@, e);
                }
                self.entries.push((e, ComponentSelection::All));
                proof {
                    let s = old(self).entries();
                    let t = self.entries@;
                    assert(t.drop_last() =~= s);
                    assert(keys_of(t) =~= keys_of(s).push(e));
                    assert(!keys_of(s).contains(e));
                    assert(forall|j: int|
                        0 <= j < keys_of(s).len() ==> keys_of(t)[j] == keys_of(s)[j]);
                    assert(self@ =~~= with_all_entity(old(self)@, e));
                }
            },
        }
    }
    /// Select each entity of `es` whole, in order, under the same rule as
    /// [`SceneBuilder::add_entity`].
    pub fn add_entities(&mut self, es: &Vec<u64>)
        requires
            old(self).wf(),
        ensures
            final(self).wf(),
            final(self)@ == with_all_entities(old(self)@, es@),
    {
        let n = es.len();
        let mut i: usize = 0;
        while i < n
            invariant
                n == es@.len(),
                i <= n,
                self.wf(),
                self@ == with_all_entities(old(self)@, es@.take(i as int)),
            decreases n - i,
        {
            proof {
                assert(es@.take(i + 1).drop_last() =~= es@.take(i as int));
                assert(es@.take(i + 1).last() == es@[i as int]);
            }
            self.add_entity(es[i]);
            i += 1;
        }
        proof {
            assert(es@.take(n as int) =~= es@);
        }
    }

    /// Select whole every entity that the host's query filter matched.
    ///
    /// Evaluating the filter against the world is the host's part; the
    /// matched entities are handed over as they came back.
    pub fn add_from_query_filter(&mut self, matched: &Vec<u64>)
        requires
            old(self).wf(),
        ensures
            final(self).wf(),
            final(self)@ == with_all_entities(old(self)@, matched@),
    {
        self.add_entities(matched);
    }

    /// List the registered component types of `list` for entity `e`.
    ///
    /// A fresh entity gets a `ByIds` entry with exactly those types; an
    /// existing `ByIds` entry absorbs them; an `All` entry stays as it is.
    pub fn add_components_to_entity(&mut self, e: u64, list: &ComponentList)
        requires
            old(self).wf(),
        ensures
            final(self).wf(),
            final(self)@ == with_listed_components(old(self)@, e, list.id_seq()),
    {
        let ids = list.component_ids();
        match self.find_entry(e) {
            Some(i) => {
                let (key, sel) = self.entries.remove(i);
                match sel {
                    ComponentSelection::All => {
                        self.entries.insert(i, (key, ComponentSelection::All));
                        proof {
                            assert(self.entries@ =~= old(self).entries());
                            assert(self@ =~~= with_listed_components(
                                old(self)@,
                                e,
                                list.id_seq(),
                            ));
                        }
                    },
                    ComponentSelection::ByIds(mut s) => {
                        let ghost s0 = s@;
                        s.insert_all(&ids);
                        self.entries.insert(i, (key, ComponentSelection::ByIds(s)));
                        proof {
                            let before = old(self).entries();
                            let sel2 = ComponentSelection::ByIds(s);
                            assert(self.entries@ =~= before.update(i as int, (key, sel2)));
                            lemma_selection_update(before, i as int, sel2);
                            assert(sel2@ == SelectionView::ByIds(union_ids(s0, list.id_seq())));
                            assert(self@ =~~= with_listed_components(
                                old(self)@,
                                e,
                                list.id_seq(),
                            ));
                        }
                    },
                }
            },
            None => {
                self.entries.push((e, ComponentSelection::ByIds(ids)));
                proof {
                    let s = old(self).entries();
                    let t = self.entries@;
                    lemma_selection_contains(s, e);
                    assert(t.drop_last() =~= s);
                    assert(keys_of(t) =~= keys_of(s).push(e));
                    assert(!keys_of(s).contains(e));
                    assert(forall|j: int|
                        0 <= j < keys_of(s).len() ==> keys_of(t)[j] == keys_of(s)[j]);
                    assert(self@ =~~= with_listed_components(old(self)@, e, list.id_seq()));
                }
            },
        }
    }

    /// List the registered component types of `list` for each entity of
    /// `es`, under the same rule as [`SceneBuilder::add_components_to_entity`].
    pub fn add_components_to_entities(&mut self, es: &Vec<u64>, list: &ComponentList)
        requires
            old(self).wf(),
        ensures
            final(self).wf(),
            final(self)@ == with_listed_components_each(old(self)@, es@, list.id_seq()),
    {
        let n = es.len();
        let mut i: usize = 0;
        while i < n
            invariant
                n == es@.len(),
                i <= n,
                self.wf(),
                self@ == with_listed_components_each(old(self)@, es@.take(i as int), list.id_seq()),
            decreases n - i,
        {
            proof {
                assert(es@.take(i + 1).drop_last() =~= es@.take(i as int));
                assert(es@.take(i + 1).last() == es@[i as int]);
            }
            self.add_components_to_entity(es[i], list);
            i += 1;
        }
        proof {
            assert(es@.take(n as int) =~= es@);
        }
    }

    /// List the registered component types of `list` for every entity the
    /// host's query filter matched whose attached components also satisfy
    /// the presence constraint of `list`.
    pub fn add_with_components(&mut self, world: &WorldModel, matched: &Vec<u64>, list: &ComponentList)
        requires
            old(self).wf(),
            world.wf(),
        ensures
            final(self).wf(),
            final(self)@ == with_matching_components(old(self)@, *world, *list, matched@),
    {
        let empty_ids = IdSet::new();
        let n = matched.len();
        let mut i: usize = 0;
        while i < n
            invariant
                n == matched@.len(),
                i <= n,
                self.wf(),
                world.wf(),
                empty_ids@ == Seq::<u64>::empty(),
                self@ == with_matching_components(old(self)@, *world, *list, matched@.take(i as int)),
            decreases n - i,
        {
            proof {
                assert(matched@.take(i + 1).drop_last() =~= matched@.take(i as int));
                assert(matched@.take(i + 1).last() == matched@[i as int]);
            }
            let e = matched[i];
            let matches = match world.attached_of(e) {
                Some(att) => list.matches_filter(att),
                None => {
                    proof {
                        assert(empty_ids.id_set() =~= world.attached(e));
                    }
                    list.matches_filter(&empty_ids)
                },
            };
            if matches {
                self.add_components_to_entity(e, list);
            }
            i += 1;
        }
        proof {
            assert(matched@.take(n as int) =~= matched@);
        }
    }

    /// The selected entities, in first-selection order.
    pub fn selected_entities(&self) -> (r: Vec<u64>)
        ensures
            r@ == self@.order,
    {
        let mut out: Vec<u64> = Vec::new();
        let n = self.entries.len();
        let mut i: usize = 0;
        while i < n
            invariant
                n == self.entries@.len(),
                i <= n,
                out@.len() == i,
                forall|j: int| 0 <= j < i ==> out@[j] == (#[trigger] self.entries@[j]).0,
            decreases n - i,
        {
            out.push(self.entries[i].0);
            i += 1;
        }
        proof {
            assert(out@ =~= self@.order);
        }
        out
    }

    /// Build a snapshot from everything selected so far.
    ///
    /// The builder is read, not changed: the call can be repeated, and
    /// against an unchanged world it describes the same snapshot.
    pub fn build_scene(&self, world: &WorldModel) -> (r: ExportedScene)
        requires
            self.wf(),
            world.wf(),
        ensures
            scene_matches(r, self@, *world),
    {
        let empty_ids = IdSet::new();
        let mut out: Vec<ExportedEntity> = Vec::new();
        let n = self.entries.len();
        let mut i: usize = 0;
        while i < n
            invariant
                self.wf(),
                world.wf(),
                n == self.entries@.len(),
                i <= n,
                empty_ids@ == Seq::<u64>::empty(),
                out@.len() == i,
                forall|j: int|
                    0 <= j < i ==> (#[trigger] out@[j]).entity == self@.order[j],
                forall|j: int|
                    0 <= j < i ==> (#[trigger] out@[j]).components@ == components_for(
                        self@.selection[self@.order[j]],
                        *world,
                        self@.ignored,
                        self@.order[j],
                    ),
            decreases n - i,
        {
            let e = self.entries[i].0;
            proof {
                lemma_selection_at_index(self.entries@, i as int);
                assert(self@.order[i as int] == e);
            }
            let components: Vec<u64> = match &self.entries[i].1 {
                ComponentSelection::All => resolve_all_ids(world, e, &self.ignored),
                ComponentSelection::ByIds(ids) => {
                    let att = match world.attached_of(e) {
                        Some(att) => att,
                        None => {
                            proof {
                                assert(empty_ids.id_set() =~= world.attached(e));
                            }
                            &empty_ids
                        },
                    };
                    resolve_listed_ids(world, ids, att)
                },
            };
            out.push(ExportedEntity { entity: e, components });
            i += 1;
        }
        ExportedScene { entities: out }
    }
}

/// A snapshot built from a well-formed builder is itself well-formed: no
/// entity is exported twice, and no exported component list repeats an
/// identifier.
pub proof fn lemma_snapshot_well_formed(b: &SceneBuilder, world: WorldModel, r: ExportedScene)
    requires
        b.wf(),
        world.wf(),
        scene_matches(r, b@, world),
    ensures
        forall|i: int, j: int|
            0 <= i < j < r.entities@.len() ==> (#[trigger] r.entities@[i]).entity
                != (#[trigger] r.entities@[j]).entity,
        forall|i: int|
            0 <= i < r.entities@.len() ==> (#[trigger] r.entities@[i]).components@.no_duplicates(),
{
    assert forall|i: int, j: int|
        0 <= i < j < r.entities@.len() implies (#[trigger] r.entities@[i]).entity
        != (#[trigger] r.entities@[j]).entity by {
        assert(keys_of(b.entries@)[i] == r.entities@[i].entity);
        assert(keys_of(b.entries@)[j] == r.entities@[j].entity);
    }
    assert forall|i: int|
        0 <= i < r.entities@.len() implies
        (#[trigger] r.entities@[i]).components@.no_duplicates() by {
        let e = b@.order[i];
        assert(keys_of(b.entries@)[i] == b.entries@[i].0);
        lemma_selection_at_index(b.entries@, i);
        match b.entries@[i].1 {
            ComponentSelection::All => {
                crate::world_model::lemma_attached_in_no_duplicates(world@, e);
                crate::scene::lemma_kept_ids_set(
                    world.attached_seq(e),
                    world.reflectable_ids(),
                    b@.ignored,
                );
            },
            ComponentSelection::ByIds(ids) => {
                crate::scene::lemma_kept_ids_set(
                    ids@,
                    world.attached(e).intersect(world.reflectable_ids()),
                    Set::<u64>::empty(),
                );
            },
        }
    }
}

/// Replacing the selection of the entry at `i` updates exactly its key's
/// image in the selection map.
proof fn lemma_selection_update(s: Seq<(u64, ComponentSelection)>, i: int, sel: ComponentSelection)
    requires
        keys_of(s).no_duplicates(),
        0 <= i < s.len(),
    ensures
        keys_of(s.update(i, (s[i].0, sel))) =~= keys_of(s),
        selection_of(s.update(i, (s[i].0, sel))) == selection_of(s).insert(s[i].0, sel@),
    decreases s.len(),
{
    let t = s.update(i, (s[i].0, sel));
    assert forall|j: int| 0 <= j < s.len() implies keys_of(t)[j] == keys_of(s)[j] by {
        assert(keys_of(t)[j] == t[j].0);
        assert(keys_of(s)[j] == s[j].0);
    }
    if i == s.len() - 1 {
        assert(t.drop_last() =~= s.drop_last());
        assert(t.last() == (s[i].0, sel));
        assert(selection_of(t) =~= selection_of(s).insert(s[i].0, sel@));
    } else {
        assert(keys_of(s.drop_last()) =~= keys_of(s).drop_last());
        assert(keys_of(s).drop_last().no_duplicates());
        lemma_selection_update(s.drop_last(), i, sel);
        assert(t.drop_last() =~= s.drop_last().update(i, (s[i].0, sel)));
        assert(s.drop_last()[i] == s[i]);
        assert(t.last() == s.last());
        assert(keys_of(s)[i] == s[i].0);
        assert(keys_of(s)[s.len() - 1] == s.last().0);
        assert(s.last().0 != s[i].0);
        assert(selection_of(t) =~= selection_of(s).insert(s[i].0, sel@));
    }
}

} // verus!
