//! Selection of entities and components for exported scene snapshots.
//!
//! A scene snapshot is built from a live world in three stages: *selection*
//! (decide which entities, and which of their component types, are of
//! interest), *resolution* (keep only the pairs for which the world can
//! produce a reflectable value), and *assembly* (group the surviving
//! component types by entity). This crate verifies the selection and
//! resolution rules; the host engine supplies the world introspection data
//! and copies the actual component values afterwards.
//!
//! Entities and component types are handled purely as numeric identifiers,
//! as handed over by the host engine.

mod builder;
mod component_list;
mod ids;
mod laws;
mod query;
mod scene;
mod world_model;

pub use builder::BuilderView;
pub use builder::ComponentSelection;
pub use builder::SceneBuilder;
pub use builder::SelectionView;
pub use builder::components_for;
pub use builder::keys_of;
pub use builder::lemma_snapshot_well_formed;
pub use builder::scene_matches;
pub use builder::selection_of;
pub use builder::with_all_entities;
pub use builder::with_all_entity;
pub use builder::with_listed_components;
pub use builder::with_listed_components_each;
pub use builder::with_matching_components;
pub use component_list::ComponentList;
pub use component_list::TypeDescriptor;
pub use component_list::listed_ids;
pub use ids::IdSet;
pub use ids::insert_id;
pub use ids::lemma_insert_id_to_set;
pub use ids::lemma_union_ids_to_set;
pub use ids::union_ids;
pub use laws::lemma_add_entity_idempotent;
pub use laws::lemma_build_repeatable;
pub use laws::lemma_ignore_set_rules;
pub use laws::lemma_listed_components_accumulate;
pub use laws::lemma_unselected_entity_absent;
pub use query::matching_entities;
pub use query::scene_from_query_components;
pub use query::scene_from_query_filter;
pub use scene::ExportedEntity;
pub use scene::ExportedScene;
pub use scene::all_components_for;
pub use scene::kept_ids;
pub use scene::lemma_kept_ids_contains;
pub use scene::lemma_kept_ids_set;
pub use scene::listed_components_for;
pub use world_model::EntityRecord;
pub use world_model::WorldModel;
pub use world_model::attached_in;
pub use world_model::known_in;
pub use world_model::lemma_attached_in_no_duplicates;
pub use world_model::lemma_lookup_absent;
