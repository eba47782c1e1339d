// The builder's selection rules, observed at runtime.

use scene_tools::ComponentList;
use scene_tools::IdSet;
use scene_tools::SceneBuilder;
use scene_tools::WorldModel;

// Position and Velocity stand in for two registered component types, and
// Unseen for one without a reflection registration.
const POSITION: u64 = 10;
const VELOCITY: u64 = 20;
const UNSEEN: u64 = 30;

fn world_two_entities() -> WorldModel {
    // entity 1 carries Position and Velocity, entity 2 only Position
    let mut w = WorldModel::new();
    let mut a = IdSet::new();
    a.insert(POSITION);
    a.insert(VELOCITY);
    w.add_entity_record(1, a);
    let mut b = IdSet::new();
    b.insert(POSITION);
    w.add_entity_record(2, b);
    w.mark_reflectable(POSITION);
    w.mark_reflectable(VELOCITY);
    w
}

fn list_of(ids: &[u64]) -> ComponentList {
    let mut l = ComponentList::new();
    for id in ids {
        l.add_required(Some(*id));
    }
    l
}

#[test]
fn add_entity_selects_all_components() {
    let w = world_two_entities();
    let mut b = SceneBuilder::new();
    b.add_entity(1);
    let s = b.build_scene(&w);
    assert_eq!(s.entities.len(), 1);
    assert_eq!(s.entities[0].entity, 1);
    assert_eq!(s.entities[0].components, vec![POSITION, VELOCITY]);
}

#[test]
fn add_entity_twice_changes_nothing() {
    let w = world_two_entities();
    let mut b = SceneBuilder::new();
    b.add_entity(1);
    b.add_entity(1);
    let s = b.build_scene(&w);
    assert_eq!(s.entities.len(), 1);
    assert_eq!(s.entities[0].entity, 1);
    assert_eq!(s.entities[0].components, vec![POSITION, VELOCITY]);
}

#[test]
fn re_adding_never_upgrades_an_explicit_selection() {
    // entity 1 is first given only Position; a later add_entity must not
    // widen that to an All selection
    let w = world_two_entities();
    let mut b = SceneBuilder::new();
    b.add_components_to_entity(1, &list_of(&[POSITION]));
    b.add_entity(1);
    let s = b.build_scene(&w);
    assert_eq!(s.entities.len(), 1);
    assert_eq!(s.entities[0].components, vec![POSITION]);
}

#[test]
fn listed_components_accumulate_on_a_fresh_entity() {
    let w = world_two_entities();
    let mut b = SceneBuilder::new();
    b.add_components_to_entity(1, &list_of(&[POSITION]));
    b.add_components_to_entity(1, &list_of(&[VELOCITY]));
    let s = b.build_scene(&w);
    assert_eq!(s.entities.len(), 1);
    assert_eq!(s.entities[0].components, vec![POSITION, VELOCITY]);
}

#[test]
fn unselected_entities_stay_out_of_the_snapshot() {
    let w = world_two_entities();
    let mut b = SceneBuilder::new();
    b.add_entity(2);
    let s = b.build_scene(&w);
    assert_eq!(s.entities.len(), 1);
    assert_eq!(s.entities[0].entity, 2);
}

#[test]
fn despawned_entity_exports_no_components() {
    // entity 99 has no record in the world; it is still listed, with
    // nothing resolved for it
    let w = world_two_entities();
    let mut b = SceneBuilder::new();
    b.add_entity(99);
    b.add_components_to_entity(98, &list_of(&[POSITION]));
    let s = b.build_scene(&w);
    assert_eq!(s.entities.len(), 2);
    assert_eq!(s.entities[0].entity, 99);
    assert!(s.entities[0].components.is_empty());
    assert_eq!(s.entities[1].entity, 98);
    assert!(s.entities[1].components.is_empty());
}

#[test]
fn ignored_component_left_out_of_all_selection() {
    let w = world_two_entities();
    let mut b = SceneBuilder::new();
    let mut ignore = ComponentList::new();
    ignore.add_optional(Some(VELOCITY));
    b.ignore_components(&ignore);
    b.add_entity(1);
    let s = b.build_scene(&w);
    assert_eq!(s.entities.len(), 1);
    assert_eq!(s.entities[0].components, vec![POSITION]);
}

#[test]
fn explicit_selection_wins_over_the_ignore_set() {
    let w = world_two_entities();
    let mut b = SceneBuilder::new();
    let mut ignore = ComponentList::new();
    ignore.add_optional(Some(VELOCITY));
    b.ignore_components(&ignore);
    b.add_components_to_entity(1, &list_of(&[VELOCITY]));
    let s = b.build_scene(&w);
    assert_eq!(s.entities.len(), 1);
    assert_eq!(s.entities[0].components, vec![VELOCITY]);
}

#[test]
fn listing_components_on_an_all_entity_is_a_no_op() {
    // the documented asymmetry: entity 1 is All with Velocity ignored;
    // explicitly listing Velocity afterwards does not bring it back
    let w = world_two_entities();
    let mut b = SceneBuilder::new();
    let mut ignore = ComponentList::new();
    ignore.add_optional(Some(VELOCITY));
    b.ignore_components(&ignore);
    b.add_entity(1);
    let first = b.build_scene(&w);
    assert_eq!(first.entities.len(), 1);
    assert_eq!(first.entities[0].components, vec![POSITION]);
    b.add_components_to_entity(1, &list_of(&[VELOCITY]));
    let second = b.build_scene(&w);
    assert_eq!(second.entities.len(), 1);
    assert_eq!(second.entities[0].components, vec![POSITION]);
}

#[test]
fn building_twice_yields_the_same_snapshot() {
    let w = world_two_entities();
    let mut b = SceneBuilder::new();
    b.add_entity(1);
    b.add_components_to_entity(2, &list_of(&[POSITION]));
    let s1 = b.build_scene(&w);
    let s2 = b.build_scene(&w);
    assert_eq!(s1.entities.len(), s2.entities.len());
    for (e1, e2) in s1.entities.iter().zip(s2.entities.iter()) {
        assert_eq!(e1.entity, e2.entity);
        assert_eq!(e1.components, e2.components);
    }
}

#[test]
fn add_entities_selects_each_once() {
    let w = world_two_entities();
    let mut b = SceneBuilder::new();
    b.add_entities(&vec![1, 2, 1]);
    let s = b.build_scene(&w);
    assert_eq!(s.entities.len(), 2);
    assert_eq!(s.entities[0].entity, 1);
    assert_eq!(s.entities[1].entity, 2);
}

#[test]
fn add_from_query_filter_selects_whole_entities() {
    // the host's filter matched only entity 1
    let w = world_two_entities();
    let mut b = SceneBuilder::new();
    b.add_from_query_filter(&vec![1]);
    let s = b.build_scene(&w);
    assert_eq!(s.entities.len(), 1);
    assert_eq!(s.entities[0].components, vec![POSITION, VELOCITY]);
}

#[test]
fn add_with_components_respects_the_presence_constraint() {
    // Velocity is required: entity 2 does not qualify
    let w = world_two_entities();
    let mut b = SceneBuilder::new();
    b.add_with_components(&w, &vec![1, 2], &list_of(&[VELOCITY]));
    let s = b.build_scene(&w);
    assert_eq!(s.entities.len(), 1);
    assert_eq!(s.entities[0].entity, 1);
    assert_eq!(s.entities[0].components, vec![VELOCITY]);
}

#[test]
fn add_components_to_entities_lists_for_each() {
    let w = world_two_entities();
    let mut b = SceneBuilder::new();
    b.add_components_to_entities(&vec![1, 2], &list_of(&[POSITION]));
    let s = b.build_scene(&w);
    assert_eq!(s.entities.len(), 2);
    assert_eq!(s.entities[0].components, vec![POSITION]);
    assert_eq!(s.entities[1].components, vec![POSITION]);
}

#[test]
fn selected_entities_come_back_in_first_selection_order() {
    let mut b = SceneBuilder::new();
    b.add_entity(2);
    b.add_components_to_entity(1, &list_of(&[POSITION]));
    b.add_entity(2);
    assert_eq!(b.selected_entities(), vec![2, 1]);
}

#[test]
fn non_reflectable_components_are_dropped() {
    let mut w = WorldModel::new();
    let mut a = IdSet::new();
    a.insert(POSITION);
    a.insert(UNSEEN);
    w.add_entity_record(1, a);
    w.mark_reflectable(POSITION);
    let mut b = SceneBuilder::new();
    b.add_entity(1);
    b.add_components_to_entity(2, &list_of(&[UNSEEN]));
    let mut c = IdSet::new();
    c.insert(UNSEEN);
    w.add_entity_record(2, c);
    let s = b.build_scene(&w);
    assert_eq!(s.entities.len(), 2);
    assert_eq!(s.entities[0].components, vec![POSITION]);
    assert!(s.entities[1].components.is_empty());
}
