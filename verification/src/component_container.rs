use crate::component::Component;
use crate::entities::Entity;
use crate::query::{Ref, RefMut};
use vstd::prelude::*;

verus! {

/// One row of a component table: the generation of the entity the value
/// belongs to, the value itself, and the tick of its last tracked write.
pub struct ComponentSlot<C> where C: Component {
    pub generation: usize,
    pub component: C,
    pub last_modified_tick: u64,
}

/// Dense per-kind component storage, indexed by entity id. Gaps are
/// `None`; a row belongs to a handle iff it is present and stores the
/// handle's generation.
pub struct ComponentContainer<C> where C: Component {
    pub components: Vec<Option<ComponentSlot<C>>>,
}

impl<C> ComponentContainer<C> where C: Component {
    /// The row at `entity.id` is present and stores `entity.generation`.
    pub open spec fn has_slot_for(self, entity: Entity) -> bool {
        &&& entity.id < self.components@.len()
        &&& self.components@[entity.id as int] is Some
        &&& self.components@[entity.id as int].unwrap().generation == entity.generation
    }

    /// The row belonging to `entity`; meaningful under `has_slot_for`.
    pub open spec fn spec_slot(self, entity: Entity) -> ComponentSlot<C> {
        self.components@[entity.id as int].unwrap()
    }

    pub fn new() -> (r: Self)
        ensures
            r.components@.len() == 0,
    {
        ComponentContainer { components: Vec::new() }
    }

    /// Stores `component` for `entity`, growing the table on demand,
    /// overwriting any prior row at that id, and stamping the row with
    /// `current_tick`.
    pub fn insert(&mut self, current_tick: u64, entity: Entity, component: C)
        requires
            entity.id < usize::MAX,
        ensures
            final(self).components@.len() == (if entity.id < old(self).components@.len() {
                old(self).components@.len() as int
            } else {
                entity.id + 1
            }),
            final(self).components@[entity.id as int] == Some(
                ComponentSlot { generation: entity.generation, component, last_modified_tick: current_tick },
            ),
            forall|i: int|
                0 <= i < old(self).components@.len() && i != entity.id
                    ==> final(self).components@[i] == old(self).components@[i],
            forall|i: int|
                old(self).components@.len() <= i < final(self).components@.len() && i != entity.id
                    ==> final(self).components@[i] is None,
            forall|h: Entity|
                h.id != entity.id ==> final(self).has_slot_for(h) == old(self).has_slot_for(h),
    {
        while self.components.len() < entity.id + 1
            invariant
                entity.id < usize::MAX,
                old(self).components@.len() <= self.components@.len(),
                forall|i: int|
                    0 <= i < old(self).components@.len()
                        ==> self.components@[i] == old(self).components@[i],
                forall|i: int|
                    old(self).components@.len() <= i < self.components@.len()
                        ==> self.components@[i] is None,
                self.components@.len() <= entity.id + 1 || self.components@.len() == old(self).components@.len(),
            decreases entity.id + 1 - self.components@.len(),
        {
            self.components.push(None);
        }
        self.components[entity.id] = Some(
            ComponentSlot { generation: entity.generation, component, last_modified_tick: current_tick },
        );
    }

    /// Takes the row out and yields its value, but only when the row
    /// belongs to `entity`; otherwise the table is left untouched.
    pub fn remove(&mut self, entity: Entity) -> (r: Option<C>)
        ensures
            old(self).has_slot_for(entity) ==> {
                &&& r == Some(old(self).spec_slot(entity).component)
                &&& final(self).components@ == old(self).components@.update(
                    entity.id as int,
                    None::<ComponentSlot<C>>,
                )
            },
            !old(self).has_slot_for(entity) ==> r is None && *final(self) == *old(self),
    {
        if entity.id < self.components.len() {
            let matches = match &self.components[entity.id] {
                Some(slot) => slot.generation == entity.generation,
                None => false,
            };
            if matches {
                let mut taken: Option<ComponentSlot<C>> = None;
                std::mem::swap(&mut self.components[entity.id], &mut taken);
                proof {
                    assert(self.components@ =~= old(self).components@.update(
                        entity.id as int,
                        None::<ComponentSlot<C>>,
                    ));
                }
                return match taken {
                    Some(slot) => Some(slot.component),
                    None => None,
                };
            }
        }
        None
    }

    /// A read view of the row belonging to `entity`, or `None` when there
    /// is no such row. The view carries the caller's `last_run_tick` so
    /// that it can report whether the row changed since then.
    pub fn get(&self, last_run_tick: u64, entity: Entity) -> (r: Option<Ref<'_, C>>)
        ensures
            self.has_slot_for(entity) ==> {
                &&& r is Some
                &&& *r.unwrap().component == self.spec_slot(entity).component
                &&& r.unwrap().last_modified_tick == self.spec_slot(entity).last_modified_tick
                &&& r.unwrap().last_run_tick == last_run_tick
            },
            !self.has_slot_for(entity) ==> r is None,
    {
        if entity.id < self.components.len() {
            match &self.components[entity.id] {
                Some(slot) => {
                    if slot.generation == entity.generation {
                        return Some(
                            Ref {
                                component: &slot.component,
                                last_modified_tick: slot.last_modified_tick,
                                last_run_tick,
                            },
                        );
                    }
                },
                None => {},
            }
        }
        None
    }

    /// A write view of the row belonging to `entity`. Whatever the caller
    /// does through the view, the table afterwards holds the row with its
    /// generation kept and the component and tick the view left behind.
    pub fn get_mut<'a>(
        &'a mut self,
        last_run_tick: u64,
        current_tick: u64,
        entity: Entity,
    ) -> (r: Option<RefMut<'a, C>>)
        ensures
            old(self).has_slot_for(entity) ==> {
                &&& r is Some
                &&& *r.unwrap().component == old(self).spec_slot(entity).component
                &&& *r.unwrap().last_modified_tick == old(self).spec_slot(entity).last_modified_tick
                &&& r.unwrap().last_run_tick == last_run_tick
                &&& r.unwrap().current_tick == current_tick
                &&& final(self).components@ == old(self).components@.update(
                    entity.id as int,
                    Some(
                        ComponentSlot {
                            generation: entity.generation,
                            component: *final(r.unwrap().component),
                            last_modified_tick: *final(r.unwrap().last_modified_tick),
                        },
                    ),
                )
            },
            !old(self).has_slot_for(entity) ==> r is None && *final(self) == *old(self),
    {
        if entity.id < self.components.len() {
            let matches = match &self.components[entity.id] {
                Some(slot) => slot.generation == entity.generation,
                None => false,
            };
            if matches {
                match &mut self.components[entity.id] {
                    Some(slot) => {
                        return Some(
                            RefMut {
                                component: &mut slot.component,
                                last_modified_tick: &mut slot.last_modified_tick,
                                last_run_tick,
                                current_tick,
                            },
                        );
                    },
                    None => {},
                }
            }
        }
        None
    }
}

} // verus!
