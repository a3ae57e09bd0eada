use thallium_ecs::{
    App, Component, CurrentTick, Entities, EntityMap, LastRunTick, Resource,
};

#[derive(Debug, Clone, PartialEq)]
struct Marker(u8);

impl Component for Marker {}

#[derive(Debug, Clone, PartialEq)]
struct Nothing;

impl Resource for Nothing {}

const KIND: u64 = 1;

#[test]
fn default_values_are_empty() {
    let map = EntityMap::default();
    assert_eq!(map.iter().len(), 0);
    let app: App<Marker, Nothing> = App::default();
    assert!(!app.entity_exists(thallium_ecs::Entity { id: 0, generation: 2 }));
    let set = thallium_ecs::SystemSet::default();
    assert_eq!(set.system_groups.len(), 0);
}

#[test]
fn registry_iteration_marks_dead_slots() {
    let mut map = EntityMap::new();
    let a = map.create_entity();
    let b = map.create_entity();
    let c = map.create_entity();
    map.destroy_entity(b);

    let slots = map.iter();
    assert_eq!(slots.len(), 3);
    assert_eq!(slots[0], Some(a));
    assert_eq!(slots[1], None);
    assert_eq!(slots[2], Some(c));
}

#[test]
fn registry_reuses_the_lowest_dead_slot() {
    let mut map = EntityMap::new();
    let a = map.create_entity();
    let b = map.create_entity();
    let _c = map.create_entity();
    map.destroy_entity(b);
    map.destroy_entity(a);

    let first = map.create_entity();
    assert_eq!(first.id, a.id);
    assert_eq!(first.generation, a.generation + 2);
    let second = map.create_entity();
    assert_eq!(second.id, b.id);
    assert_eq!(second.generation, b.generation + 2);
}

#[test]
fn entities_view_checks_existence() {
    let mut map = EntityMap::new();
    let a = map.create_entity();
    let b = map.create_entity();
    map.destroy_entity(a);

    let view = Entities::new(&map);
    assert!(!view.entity_exists(a));
    assert!(view.entity_exists(b));
    assert_eq!(view.iter(), vec![b]);
}

#[test]
fn attached_kinds_come_back_from_destroy() {
    let mut map = EntityMap::new();
    let e = map.create_entity();
    map.add_component(e, 3);
    map.add_component(e, 5);
    map.add_component(e, 3);
    map.remove_component(e, 5);
    let kinds = map.destroy_entity(e).unwrap();
    assert_eq!(kinds, vec![3]);
    assert_eq!(map.destroy_entity(e), None);
}

#[test]
fn tick_parameters_carry_their_values() {
    let mut app: App<Marker, Nothing> = App::new();
    app.next_tick();
    app.next_tick();
    let state = app.begin_run();
    assert_eq!(CurrentTick::lock(&state), CurrentTick(2));
    assert_eq!(LastRunTick::lock(5), LastRunTick(5));
    app.finish_run(state);
}

#[test]
fn many_view_tracks_only_stamping_writes() {
    let mut app: App<Marker, Nothing> = App::new();
    let e = app.create_entity();
    app.add_component(KIND, e, Marker(1));
    app.next_tick();

    let mut state = app.begin_run();
    {
        let mut many = state.get_many_mut(KIND, &vec![e], 0).unwrap();
        assert!(!many.get_modified(0));
        many.silently_set(0, Marker(2));
        assert!(!many.get_modified(0));
        assert_eq!(many.get(0), &Marker(2));
        many.set(0, Marker(3));
        assert!(many.get_modified(0));
        assert_eq!(many.get(0), &Marker(3));
    }
    app.finish_run(state);
}
