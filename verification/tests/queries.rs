// The one-call query functions, the component lists and the id sets.

use scene_tools::ComponentList;
use scene_tools::IdSet;
use scene_tools::WorldModel;
use scene_tools::scene_from_query_components;
use scene_tools::scene_from_query_filter;

const POSITION: u64 = 10;
const VELOCITY: u64 = 20;

fn world_two_entities() -> WorldModel {
    // entity 1 carries Position and Velocity, entity 2 only Position
    let mut w = WorldModel::new();
    let mut a = IdSet::new();
    a.insert(POSITION);
    a.insert(VELOCITY);
    w.add_entity_record(1, a);
    let mut b = IdSet::new();
    b.insert(POSITION);
    w.add_entity_record(2, b);
    w.mark_reflectable(POSITION);
    w.mark_reflectable(VELOCITY);
    w
}

#[test]
fn query_components_selects_carriers_and_listed_types_only() {
    let w = world_two_entities();
    let mut list = ComponentList::new();
    list.add_required(Some(POSITION));
    let s = scene_from_query_components(&w, &list, &vec![1, 2]);
    assert_eq!(s.entities.len(), 2);
    assert_eq!(s.entities[0].entity, 1);
    assert_eq!(s.entities[0].components, vec![POSITION]);
    assert_eq!(s.entities[1].entity, 2);
    assert_eq!(s.entities[1].components, vec![POSITION]);
}

#[test]
fn query_components_excludes_entities_missing_a_required_type() {
    let w = world_two_entities();
    let mut list = ComponentList::new();
    list.add_required(Some(VELOCITY));
    let s = scene_from_query_components(&w, &list, &vec![1, 2]);
    assert_eq!(s.entities.len(), 1);
    assert_eq!(s.entities[0].entity, 1);
    assert_eq!(s.entities[0].components, vec![VELOCITY]);
}

#[test]
fn query_components_with_optional_type_keeps_non_carriers() {
    let w = world_two_entities();
    let mut list = ComponentList::new();
    list.add_required(Some(POSITION));
    list.add_optional(Some(VELOCITY));
    let s = scene_from_query_components(&w, &list, &vec![1, 2]);
    assert_eq!(s.entities.len(), 2);
    assert_eq!(s.entities[0].components, vec![POSITION, VELOCITY]);
    assert_eq!(s.entities[1].components, vec![POSITION]);
}

#[test]
fn query_components_with_empty_list_keeps_everything_resolves_nothing() {
    let w = world_two_entities();
    let list = ComponentList::new();
    let s = scene_from_query_components(&w, &list, &vec![1, 2]);
    assert_eq!(s.entities.len(), 2);
    assert!(s.entities[0].components.is_empty());
    assert!(s.entities[1].components.is_empty());
}

#[test]
fn query_components_with_unregistered_required_type_matches_nothing() {
    let w = world_two_entities();
    let mut list = ComponentList::new();
    list.add_required(None);
    let s = scene_from_query_components(&w, &list, &vec![1, 2]);
    assert_eq!(s.entities.len(), 0);
}

#[test]
fn query_components_with_unregistered_optional_type_omits_it() {
    let w = world_two_entities();
    let mut list = ComponentList::new();
    list.add_required(Some(POSITION));
    list.add_optional(None);
    let s = scene_from_query_components(&w, &list, &vec![2]);
    assert_eq!(s.entities.len(), 1);
    assert_eq!(s.entities[0].components, vec![POSITION]);
}

#[test]
fn query_filter_resolves_all_attached_components() {
    // the host's filter matched only entity 1
    let w = world_two_entities();
    let s = scene_from_query_filter(&w, &vec![1]);
    assert_eq!(s.entities.len(), 1);
    assert_eq!(s.entities[0].entity, 1);
    assert_eq!(s.entities[0].components, vec![POSITION, VELOCITY]);
}

#[test]
fn query_filter_keeps_the_matched_order() {
    let w = world_two_entities();
    let s = scene_from_query_filter(&w, &vec![2, 1]);
    assert_eq!(s.entities.len(), 2);
    assert_eq!(s.entities[0].entity, 2);
    assert_eq!(s.entities[0].components, vec![POSITION]);
    assert_eq!(s.entities[1].entity, 1);
    assert_eq!(s.entities[1].components, vec![POSITION, VELOCITY]);
}

#[test]
fn component_list_collects_each_registered_id_once() {
    let mut list = ComponentList::new();
    list.add_required(Some(POSITION));
    list.add_optional(None);
    list.add_optional(Some(VELOCITY));
    list.add_required(Some(POSITION));
    let ids = list.component_ids();
    assert_eq!(ids.len(), 2);
    assert_eq!(ids.index(0), POSITION);
    assert_eq!(ids.index(1), VELOCITY);
    assert!(ids.contains(POSITION));
    assert!(!ids.contains(99));
}

#[test]
fn id_set_insert_is_idempotent() {
    let mut ids = IdSet::new();
    ids.insert(POSITION);
    ids.insert(POSITION);
    assert_eq!(ids.len(), 1);
    let mut more = IdSet::new();
    more.insert(VELOCITY);
    more.insert(POSITION);
    ids.insert_all(&more);
    assert_eq!(ids.len(), 2);
    assert_eq!(ids.index(0), POSITION);
    assert_eq!(ids.index(1), VELOCITY);
}

#[test]
fn world_model_reports_its_records() {
    let w = world_two_entities();
    assert!(w.contains_entity(1));
    assert!(!w.contains_entity(3));
    assert!(w.is_reflectable(POSITION));
    assert!(!w.is_reflectable(99));
    let att = w.attached_of(2).expect("entity 2 is recorded");
    assert_eq!(att.len(), 1);
    assert_eq!(att.index(0), POSITION);
    assert!(w.attached_of(3).is_none());
}
