//! A small entity-component-system runtime, verified with Verus.
//!
//! State lives in an [`App`]: an entity registry with generational
//! handles, per-kind component tables with tick-based change detection,
//! and singleton resources. Systems declare the kinds they read or
//! write as [`Borrow`]s; a [`SystemSet`] packs systems whose
//! declarations never conflict into waves, so an embedding may run a
//! wave's systems side by side. Structural edits made while a run is in
//! flight go through a [`Commands`] queue and are applied, in order,
//! when the run finishes.
//!
//! Component and resource values are the caller's own types; kinds are
//! told apart by plain `u64` ids, so one value type (usually an enum)
//! covers a whole component universe.

mod app;
mod commands;
mod component;
mod component_container;
mod entities;
mod kind_map;
mod many_mut;
mod query;
mod resource;
mod resource_container;
mod run_state;
mod system;
mod system_set;
mod tick;
mod windowing;

pub use app::{
    lemma_add_remove_component_roundtrip, lemma_add_remove_resource_roundtrip,
    spec_add_component_rel, spec_add_resource_rel, spec_create_rel, spec_destroy_rel,
    spec_remove_component_rel, spec_remove_resource_rel, App,
};
pub use commands::{Command, Commands};
pub use component::{Component, Resource};
pub use component_container::{ComponentContainer, ComponentSlot};
pub use entities::{
    alive_generation, lemma_create_reuses_lowest_dead, lemma_exists_unique, Entities, Entity,
    EntityMap, EntitySlot,
};
pub use kind_map::{lemma_kind_map_update_frame, KindMap};
pub use many_mut::RefManyMut;
pub use query::{lemma_change_detection, Query, Ref, RefMut};
pub use resource::{Res, ResMut};
pub use resource_container::ResourceContainer;
pub use run_state::{
    spec_add_all_rel, spec_apply_all_rel, spec_apply_rel, spec_remove_all_rel, SystemRunState,
};
pub use system::{
    borrows_conflict, check_borrows, check_system, lemma_sets_conflict_pairwise, spec_declares,
    spec_declares_mut, spec_mixed, spec_sets_conflict, spec_unique_ids, Borrow, BorrowType,
    RegistrationError, SystemWrapper,
};
pub use system_set::{
    lemma_same_wave_conflict_free, merge_borrows, sets_conflict, spec_covers, spec_first_fit,
    spec_fits, spec_systems_compatible, spec_waves_declare_component,
    spec_waves_declare_component_mut, spec_waves_declare_resource, spec_waves_declare_resource_mut,
    SystemGroup, SystemSet,
};
pub use tick::{CurrentTick, LastRunTick};
pub use windowing::{KeyState, Keyboard, WindowSize};
