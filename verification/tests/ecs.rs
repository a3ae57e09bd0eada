use thallium_ecs::{App, Component, Entity, Resource};

#[derive(Debug, Clone, PartialEq)]
enum TestComp {
    One(i32),
    Two(i32),
}

impl Component for TestComp {}

#[derive(Debug, Clone, PartialEq)]
struct TestRes(i32);

impl Resource for TestRes {}

const K1: u64 = 1;
const K2: u64 = 2;

fn value_of(c: &TestComp) -> i32 {
    match c {
        TestComp::One(v) => *v,
        TestComp::Two(v) => *v,
    }
}

#[test]
fn test() {
    let mut app: App<TestComp, TestRes> = App::new();

    let entity1 = app.create_entity();
    app.add_component(K1, entity1, TestComp::One(42));

    let entity2 = app.create_entity();
    app.add_component(K1, entity2, TestComp::One(44));
    app.add_component(K2, entity2, TestComp::Two(0));

    // A system with Query<RefMut<TestComponent>> takes two write views
    // at once and adjusts both values to 43.
    let mut state = app.begin_run();
    {
        let mut many = state
            .get_many_mut(K1, &vec![entity1, entity2], 0)
            .expect("both handles are alive with the component attached");
        assert_eq!(value_of(many.get(0)), 42);
        assert_eq!(value_of(many.get(1)), 44);
        let v1 = value_of(many.get(0));
        let v2 = value_of(many.get(1));
        many.set(0, TestComp::One(v1 + 1));
        many.set(1, TestComp::One(v2 - 1));
    }
    app.finish_run(state);

    // A read-only system observes both components at 43, and sees the
    // second entity's pair when it is present.
    let state = app.begin_run();
    {
        let q1 = state.query(K1, 0);
        let q2 = state.query(K2, 0);
        let mut rows = 0;
        for (entity, c) in q1.iter() {
            rows += 1;
            assert_eq!(value_of(c.get()), 43);
            if let Some(c2) = q2.get(entity) {
                assert_eq!(value_of(c2.get()), 0);
                let c1 = q1.get(entity).unwrap();
                assert_eq!(value_of(c1.get()), 43);
            }
        }
        assert_eq!(rows, 2);
    }
    app.finish_run(state);

    // A system queues two deferred creations; they apply on drain.
    let mut state = app.begin_run();
    state.commands.create_entity(vec![]);
    state.commands.create_entity(vec![(K1, TestComp::One(5))]);
    app.finish_run(state);

    // All four entities are alive; three carry the first component.
    let state = app.begin_run();
    {
        let entities = thallium_ecs::Entities::new(&state.entities);
        let q = state.query(K1, 0);
        let alive = entities.iter();
        assert_eq!(alive.len(), 4);
        let with_component = alive.iter().filter(|&&e| q.get(e).is_some()).count();
        assert_eq!(with_component, 3);
    }
    app.finish_run(state);
}

#[test]
fn change_detection_via_ticks() {
    // S1: a tracked write at tick 0 is seen as a modification by a
    // system whose last run was before that tick.
    let mut app: App<TestComp, TestRes> = App::new();
    let e = app.create_entity();
    app.add_component(K1, e, TestComp::One(1));
    app.next_tick();

    let mut state = app.begin_run();
    {
        let rm = state.get_component_mut(K1, e, 0).unwrap();
        let v = value_of(rm.get());
        rm.set(TestComp::One(v + 1));
    }
    app.finish_run(state);

    app.next_tick();

    let state = app.begin_run();
    {
        let q = state.query(K1, 0);
        let r = q.get(e).unwrap();
        assert!(r.get_modified());
        assert_eq!(value_of(r.get()), 2);
    }
    app.finish_run(state);
}

#[test]
fn silent_writes_leave_ticks_alone() {
    let mut app: App<TestComp, TestRes> = App::new();
    app.next_tick();
    let e = app.create_entity();
    // Attached at tick 1; an observer that last ran at tick 1 sees no
    // modification, and a silent write keeps it that way.
    app.add_component(K1, e, TestComp::One(7));

    let mut state = app.begin_run();
    {
        let rm = state.get_component_mut(K1, e, 1).unwrap();
        assert!(!rm.get_modified());
        let c = rm.silently_modify();
        *c = TestComp::One(8);
    }
    app.finish_run(state);

    let state = app.begin_run();
    {
        let q = state.query(K1, 1);
        let r = q.get(e).unwrap();
        assert!(!r.get_modified());
        assert_eq!(value_of(r.get()), 8);
    }
    app.finish_run(state);
}

#[test]
fn aliasing_safety_of_get_many_mut() {
    // S2: duplicates fail, and a failed call leaves no stray marks.
    let mut app: App<TestComp, TestRes> = App::new();
    let e1 = app.create_entity();
    let e2 = app.create_entity();
    let e3 = app.create_entity();
    app.add_component(K1, e1, TestComp::One(1));
    app.add_component(K1, e2, TestComp::One(2));
    app.add_component(K1, e3, TestComp::One(3));

    let mut state = app.begin_run();
    {
        let many = state.get_many_mut(K1, &vec![e1, e2, e3], 0);
        let many = many.expect("three distinct live handles");
        assert_eq!(many.len(), 3);
    }
    {
        let many = state.get_many_mut(K1, &vec![e1, e2, e1], 0);
        assert!(many.is_none());
    }
    {
        let many = state.get_many_mut(K1, &vec![e1, e2, e3], 0);
        let mut many = many.expect("the failed call left the table unchanged");
        assert_eq!(many.len(), 3);
        assert_eq!(value_of(many.get(0)), 1);
        assert_eq!(value_of(many.get(1)), 2);
        assert_eq!(value_of(many.get(2)), 3);
        many.set(2, TestComp::One(30));
        assert_eq!(value_of(many.get(2)), 30);
    }
    app.finish_run(state);
}

#[test]
fn get_many_mut_rejects_dead_and_missing() {
    let mut app: App<TestComp, TestRes> = App::new();
    let e1 = app.create_entity();
    let e2 = app.create_entity();
    app.add_component(K1, e1, TestComp::One(1));
    // e2 has no component of kind K1.
    let mut state = app.begin_run();
    assert!(state.get_many_mut(K1, &vec![e1, e2], 0).is_none());
    assert!(state.get_many_mut(K2, &vec![e1], 0).is_none());
    app.finish_run(state);

    app.destroy_entity(e1);
    let mut state = app.begin_run();
    assert!(state.get_many_mut(K1, &vec![e1], 0).is_none());
    app.finish_run(state);
}

#[test]
fn commands_apply_in_order() {
    // S4: create, create, destroy-the-first; afterwards exactly the
    // second creation is alive.
    let mut app: App<TestComp, TestRes> = App::new();
    let mut state = app.begin_run();
    state.commands.create_entity(vec![]);
    state.commands.create_entity(vec![]);
    state.commands.destroy_entity(Entity { id: 0, generation: 2 });
    app.finish_run(state);

    assert!(!app.entity_exists(Entity { id: 0, generation: 2 }));
    assert!(app.entity_exists(Entity { id: 1, generation: 2 }));
    let state = app.begin_run();
    let alive = thallium_ecs::Entities::new(&state.entities).iter();
    assert_eq!(alive.len(), 1);
    assert_eq!(alive[0], Entity { id: 1, generation: 2 });
    app.finish_run(state);
}

#[test]
fn generational_reuse() {
    // S5 of the end-to-end scenarios: the id is reused, the generation
    // moves on by 2 and stays even.
    let mut app: App<TestComp, TestRes> = App::new();
    let e1 = app.create_entity();
    app.destroy_entity(e1);
    let e2 = app.create_entity();
    assert_eq!(e2.id, e1.id);
    assert_ne!(e2.generation, e1.generation);
    assert_eq!(e1.generation % 2, 0);
    assert_eq!(e2.generation % 2, 0);
    assert_eq!(e2.generation, e1.generation + 2);
}

#[test]
fn destroyed_entities_are_not_found() {
    // P-style check: after a destroy, every kind reads as absent and
    // iteration skips the entity.
    let mut app: App<TestComp, TestRes> = App::new();
    let e1 = app.create_entity();
    let e2 = app.create_entity();
    app.add_component(K1, e1, TestComp::One(1));
    app.add_component(K2, e1, TestComp::Two(2));
    app.add_component(K1, e2, TestComp::One(3));

    app.destroy_entity(e1);
    assert!(!app.entity_exists(e1));

    let state = app.begin_run();
    {
        let q1 = state.query(K1, 0);
        let q2 = state.query(K2, 0);
        assert!(q1.get(e1).is_none());
        assert!(q2.get(e1).is_none());
        let rows = q1.iter();
        assert_eq!(rows.len(), 1);
        assert_eq!(rows[0].0, e2);
    }
    app.finish_run(state);
}

#[test]
fn optional_component_iteration() {
    // S6: iterate the A-rows, pairing each with the optional B.
    let mut app: App<TestComp, TestRes> = App::new();
    let e1 = app.create_entity();
    let e2 = app.create_entity();
    let e3 = app.create_entity();
    app.add_component(K1, e1, TestComp::One(10));
    app.add_component(K2, e1, TestComp::Two(11));
    app.add_component(K1, e2, TestComp::One(20));
    app.add_component(K2, e3, TestComp::Two(31));

    let state = app.begin_run();
    {
        let qa = state.query(K1, 0);
        let qb = state.query(K2, 0);
        let rows = qa.iter_optional(&qb);
        assert_eq!(rows.len(), 2);
        assert_eq!(rows[0].0, e1);
        assert_eq!(value_of(rows[0].1.get()), 10);
        assert_eq!(value_of(rows[0].2.as_ref().unwrap().get()), 11);
        assert_eq!(rows[1].0, e2);
        assert_eq!(value_of(rows[1].1.get()), 20);
        assert!(rows[1].2.is_none());
    }
    app.finish_run(state);
}

#[test]
fn add_then_remove_component_roundtrip() {
    let mut app: App<TestComp, TestRes> = App::new();
    let e = app.create_entity();
    app.add_component(K1, e, TestComp::One(99));
    let got = app.remove_component(K1, e);
    assert_eq!(got, Some(TestComp::One(99)));
    assert_eq!(app.remove_component(K1, e), None);
}

#[test]
fn replace_component_stamps_current_tick() {
    // Re-adding under the same kind replaces the value and stamps the
    // current tick.
    let mut app: App<TestComp, TestRes> = App::new();
    let e = app.create_entity();
    app.add_component(K1, e, TestComp::One(1));
    app.next_tick();
    app.add_component(K1, e, TestComp::One(2));

    let state = app.begin_run();
    {
        let q = state.query(K1, 0);
        let r = q.get(e).unwrap();
        assert_eq!(value_of(r.get()), 2);
        assert!(r.get_modified());
    }
    app.finish_run(state);
}

#[test]
fn add_then_remove_resource_roundtrip() {
    let mut app: App<TestComp, TestRes> = App::new();
    app.add_resource(7, TestRes(123));
    assert_eq!(app.remove_resource(7), Some(TestRes(123)));
    assert_eq!(app.remove_resource(7), None);
}

#[test]
fn re_adding_a_resource_replaces_it() {
    let mut app: App<TestComp, TestRes> = App::new();
    app.add_resource(7, TestRes(1));
    app.add_resource(7, TestRes(2));
    assert_eq!(app.remove_resource(7), Some(TestRes(2)));
}

#[test]
fn resource_views_track_modification() {
    let mut app: App<TestComp, TestRes> = App::new();
    app.add_resource(7, TestRes(5));
    app.next_tick();

    let mut state = app.begin_run();
    {
        let rm = state.res_mut(7, 0).unwrap();
        assert!(!rm.get_modified());
        rm.set(TestRes(6));
    }
    {
        let r = state.res(7, 0).unwrap();
        assert_eq!(r.get(), &TestRes(6));
        assert!(r.get_modified());
    }
    app.finish_run(state);
}

#[test]
fn commands_add_and_remove_components() {
    let mut app: App<TestComp, TestRes> = App::new();
    let e = app.create_entity();

    let mut state = app.begin_run();
    state.commands.add_components(e, vec![(K1, TestComp::One(4)), (K2, TestComp::Two(5))]);
    app.finish_run(state);
    assert_eq!(app.remove_component(K2, e), Some(TestComp::Two(5)));

    let mut state = app.begin_run();
    state.commands.remove_components(e, vec![K1]);
    app.finish_run(state);
    assert_eq!(app.remove_component(K1, e), None);

    // Deferred edits on a dead handle are silently dropped.
    app.destroy_entity(e);
    let mut state = app.begin_run();
    state.commands.add_components(e, vec![(K1, TestComp::One(4))]);
    app.finish_run(state);
    let state = app.begin_run();
    assert!(state.query(K1, 0).get(e).is_none());
    app.finish_run(state);
}

#[test]
fn operations_on_unknown_handles_are_noops() {
    let mut app: App<TestComp, TestRes> = App::new();
    let ghost = Entity { id: 10, generation: 2 };
    assert!(!app.entity_exists(ghost));
    assert_eq!(app.remove_component(K1, ghost), None);
    app.add_component(K1, ghost, TestComp::One(1));
    let state = app.begin_run();
    assert!(state.query(K1, 0).get(ghost).is_none());
    app.finish_run(state);
    app.destroy_entity(ghost);
    assert!(!app.entity_exists(ghost));
}
