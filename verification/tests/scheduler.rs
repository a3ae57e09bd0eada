use thallium_ecs::{
    check_system, sets_conflict, Borrow, BorrowType, RegistrationError, SystemSet, SystemWrapper,
};

const RES_T: u64 = 10;
const COMP_A: u64 = 1;
const COMP_B: u64 = 2;

fn reads(id: u64) -> Borrow {
    Borrow { id, borrow_type: BorrowType::Immutable }
}

fn writes(id: u64) -> Borrow {
    Borrow { id, borrow_type: BorrowType::Mutable }
}

#[test]
fn first_fit_wave_packing() {
    // S3: two readers of A and a writer of B share the first wave; a
    // writer of A must open a second wave.
    let mut set = SystemSet::new();
    set.register_system(SystemWrapper::new(1, vec![], vec![reads(COMP_A)])).unwrap();
    set.register_system(SystemWrapper::new(2, vec![], vec![reads(COMP_A)])).unwrap();
    set.register_system(SystemWrapper::new(3, vec![], vec![writes(COMP_B)])).unwrap();
    assert_eq!(set.system_groups.len(), 1);
    assert_eq!(set.system_groups[0].systems.len(), 3);

    set.register_system(SystemWrapper::new(4, vec![], vec![writes(COMP_A)])).unwrap();
    assert_eq!(set.system_groups.len(), 2);
    assert_eq!(set.system_groups[1].systems.len(), 1);
    assert_eq!(set.system_groups[1].systems[0].function_id, 4);
}

#[test]
fn same_wave_members_have_conflict_free_borrows() {
    // Every pair sharing a wave passes the conflict test; the writer of
    // A in its own wave conflicts with the readers of A.
    let mut set = SystemSet::new();
    set.register_system(SystemWrapper::new(1, vec![reads(RES_T)], vec![reads(COMP_A)])).unwrap();
    set.register_system(SystemWrapper::new(2, vec![], vec![reads(COMP_A), writes(COMP_B)]))
        .unwrap();
    set.register_system(SystemWrapper::new(3, vec![writes(RES_T)], vec![])).unwrap();

    for group in &set.system_groups {
        for i in 0..group.systems.len() {
            for j in (i + 1)..group.systems.len() {
                let a = &group.systems[i];
                let b = &group.systems[j];
                assert!(!sets_conflict(&a.resource_borrows, &b.resource_borrows));
                assert!(!sets_conflict(&a.component_borrows, &b.component_borrows));
            }
        }
    }
    // The resource writer cannot share the first wave with the reader.
    assert_eq!(set.system_groups.len(), 2);
}

#[test]
fn mixed_borrows_on_one_kind_are_rejected() {
    let wrapper = SystemWrapper::new(1, vec![reads(RES_T), writes(RES_T)], vec![]);
    match check_system(&wrapper) {
        Err(RegistrationError::ResourceConflict { id }) => assert_eq!(id, RES_T),
        other => panic!("expected a resource conflict, got {:?}", other.is_ok()),
    }

    let wrapper = SystemWrapper::new(1, vec![], vec![writes(COMP_A), reads(COMP_A)]);
    match check_system(&wrapper) {
        Err(RegistrationError::ComponentConflict { id }) => assert_eq!(id, COMP_A),
        other => panic!("expected a component conflict, got {:?}", other.is_ok()),
    }

    let mut set = SystemSet::new();
    let err = set.register_system(SystemWrapper::new(1, vec![reads(RES_T), writes(RES_T)], vec![]));
    assert!(err.is_err());
    assert_eq!(set.system_groups.len(), 0);
}

#[test]
fn repeated_borrows_of_one_mode_are_tolerated() {
    // Declaring the same kind twice shared, or twice exclusive, is
    // idempotent rather than an error.
    let wrapper = SystemWrapper::new(1, vec![reads(RES_T), reads(RES_T)], vec![
        writes(COMP_A),
        writes(COMP_A),
    ]);
    let (resources, components) = check_system(&wrapper).unwrap();
    assert_eq!(resources.len(), 1);
    assert_eq!(components.len(), 1);
    assert_eq!(resources[0], reads(RES_T));
    assert_eq!(components[0], writes(COMP_A));
}

#[test]
fn aggregated_borrows_union_with_dominance() {
    // A set is itself a system: its declared borrows are the union over
    // its waves, with exclusive dominating shared.
    let mut set = SystemSet::new();
    set.register_system(SystemWrapper::new(1, vec![reads(RES_T)], vec![reads(COMP_A)])).unwrap();
    set.register_system(SystemWrapper::new(2, vec![], vec![writes(COMP_A)])).unwrap();

    let resources = set.get_resource_types();
    assert_eq!(resources.len(), 1);
    assert_eq!(resources[0], reads(RES_T));

    let components = set.get_component_types();
    assert_eq!(components.len(), 1);
    assert_eq!(components[0].id, COMP_A);
    assert!(matches!(components[0].borrow_type, BorrowType::Mutable));
}

#[test]
fn mark_run_updates_the_last_run_tick() {
    let mut wrapper = SystemWrapper::new(9, vec![], vec![]);
    assert_eq!(wrapper.last_run_tick, 0);
    wrapper.mark_run(5);
    assert_eq!(wrapper.last_run_tick, 5);
    assert_eq!(wrapper.function_id, 9);
}
