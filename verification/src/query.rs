use crate::component::Component;
use crate::component_container::{ComponentContainer, ComponentSlot};
use crate::entities::{alive_generation, Entity, EntityMap};
use vstd::prelude::*;

verus! {

/// A read view of one component row. `modified` reporting compares the
/// row's last tracked write against the reading system's last run.
pub struct Ref<'a, C> where C: Component {
    pub component: &'a C,
    pub last_modified_tick: u64,
    pub last_run_tick: u64,
}

impl<'a, C> Ref<'a, C> where C: Component {
    /// Whether the row was written through a tracking view since the
    /// reading system last ran.
    pub fn get_modified(&self) -> (r: bool)
        ensures
            r == (self.last_run_tick < self.last_modified_tick),
    {
        self.last_run_tick < self.last_modified_tick
    }

    /// The component value behind the view.
    pub fn get(&self) -> (r: &C)
        ensures
            *r == *self.component,
    {
        self.component
    }
}

/// A write view of one component row. Writing through `set` stamps the
/// row with the current tick; `silently_modify` hands out the bare
/// mutable reference and leaves the tick alone.
pub struct RefMut<'a, C> where C: Component {
    pub component: &'a mut C,
    pub last_modified_tick: &'a mut u64,
    pub last_run_tick: u64,
    pub current_tick: u64,
}

impl<'a, C> RefMut<'a, C> where C: Component {
    /// Whether the row was written through a tracking view since the
    /// owning system last ran.
    pub fn get_modified(&self) -> (r: bool)
        ensures
            r == (self.last_run_tick < *old(self.last_modified_tick)),
    {
        self.last_run_tick < *self.last_modified_tick
    }

    /// The component value behind the view.
    pub fn get(&self) -> (r: &C)
        ensures
            *r == *old(self.component),
    {
        self.component
    }

    /// Writes the component and stamps the row with the current tick, so
    /// that later readers with an earlier last-run tick see it as
    /// modified.
    pub fn set(self, value: C)
        ensures
            *final(self.component) == value,
            *final(self.last_modified_tick) == self.current_tick,
    {
        *self.component = value;
        *self.last_modified_tick = self.current_tick;
    }

    /// Mutable access to the component that does not count as a tracked
    /// write: the row's tick stays what it was.
    pub fn silently_modify(self) -> (r: &'a mut C)
        ensures
            *r == *old(self.component),
            *final(self.component) == *final(r),
            *final(self.last_modified_tick) == *old(self.last_modified_tick),
    {
        self.component
    }
}

/// A per-run view over one component kind: the registry (shared) and
/// that kind's table (shared), plus the two ticks change detection
/// needs. The table is absent when no component of the kind was ever
/// added.
pub struct Query<'a, C> where C: Component {
    pub entities: &'a EntityMap,
    pub container: Option<&'a ComponentContainer<C>>,
    pub current_tick: u64,
    pub last_run_tick: u64,
}

impl<'a, C> Query<'a, C> where C: Component {
    /// The row belonging to `entity` exists in the viewed table.
    pub open spec fn spec_has(self, entity: Entity) -> bool {
        self.container is Some && self.container.unwrap().has_slot_for(entity)
    }

    /// A read view of the component attached to `entity`, or `None`
    /// when the handle has no row of this kind.
    pub fn get(&self, entity: Entity) -> (r: Option<Ref<'a, C>>)
        ensures
            r is Some <==> self.spec_has(entity),
            r is Some ==> {
                &&& *r.unwrap().component == self.container.unwrap().spec_slot(entity).component
                &&& r.unwrap().last_modified_tick == self.container.unwrap().spec_slot(
                    entity,
                ).last_modified_tick
                &&& r.unwrap().last_run_tick == self.last_run_tick
            },
    {
        match self.container {
            Some(container) => container.get(self.last_run_tick, entity),
            None => None,
        }
    }

    /// One row per entity that is alive and has a component of this
    /// kind, in id order: a destroyed or never-created entity is
    /// skipped, as is a live one without the component.
    pub fn iter(&self) -> (r: Vec<(Entity, Ref<'a, C>)>)
        ensures
            forall|k: int|
                0 <= k < r@.len() ==> {
                    &&& (#[trigger] r@[k]).0.id < self.entities.entities@.len()
                    &&& r@[k].0.generation == self.entities.entities@[r@[k].0.id as int].generation
                    &&& alive_generation(r@[k].0.generation)
                    &&& self.container is Some
                    &&& r@[k].0.id < self.container.unwrap().components@.len()
                    &&& self.container.unwrap().components@[r@[k].0.id as int] is Some
                    &&& *r@[k].1.component == self.container.unwrap().components@[r@[k].0.id as int].unwrap().component
                    &&& r@[k].1.last_modified_tick == self.container.unwrap().components@[r@[k].0.id as int].unwrap().last_modified_tick
                    &&& r@[k].1.last_run_tick == self.last_run_tick
                },
            forall|k1: int, k2: int| 0 <= k1 < k2 < r@.len() ==> r@[k1].0.id < r@[k2].0.id,
            forall|i: int|
                0 <= i < self.entities.entities@.len() && alive_generation(
                    (#[trigger] self.entities.entities@[i]).generation,
                ) && self.container is Some && i < self.container.unwrap().components@.len()
                    && self.container.unwrap().components@[i] is Some ==> exists|k: int|
                    0 <= k < r@.len() && (#[trigger] r@[k]).0.id == i,
    {
        let mut r: Vec<(Entity, Ref<'a, C>)> = Vec::new();
        let container = match self.container {
            Some(container) => container,
            None => {
                return r;
            },
        };
        let mut i: usize = 0;
        let n = self.entities.entities.len();
        while i < n
            invariant
                n == self.entities.entities@.len(),
                i <= n,
                self.container == Some(container),
                forall|k: int|
                    0 <= k < r@.len() ==> {
                        &&& (#[trigger] r@[k]).0.id < i
                        &&& r@[k].0.generation == self.entities.entities@[r@[k].0.id as int].generation
                        &&& alive_generation(r@[k].0.generation)
                        &&& r@[k].0.id < container.components@.len()
                        &&& container.components@[r@[k].0.id as int] is Some
                        &&& *r@[k].1.component == container.components@[r@[k].0.id as int].unwrap().component
                        &&& r@[k].1.last_modified_tick == container.components@[r@[k].0.id as int].unwrap().last_modified_tick
                        &&& r@[k].1.last_run_tick == self.last_run_tick
                    },
                forall|k1: int, k2: int| 0 <= k1 < k2 < r@.len() ==> r@[k1].0.id < r@[k2].0.id,
                forall|j: int|
                    0 <= j < i && alive_generation(
                        (#[trigger] self.entities.entities@[j]).generation,
                    ) && j < container.components@.len() && container.components@[j] is Some
                        ==> exists|k: int| 0 <= k < r@.len() && (#[trigger] r@[k]).0.id == j,
            decreases n - i,
        {
            let generation = self.entities.entities[i].generation;
            let ghost rpre = r@;
            if generation % 2 == 0 && i < container.components.len() {
                match &container.components[i] {
                    Some(slot) => {
                        r.push(
                            (
                                Entity { id: i, generation },
                                Ref {
                                    component: &slot.component,
                                    last_modified_tick: slot.last_modified_tick,
                                    last_run_tick: self.last_run_tick,
                                },
                            ),
                        );
                        proof {
                            assert(r@[r@.len() - 1].0.id == i as int);
                            assert forall|j: int|
                                0 <= j < i && alive_generation(
                                    (#[trigger] self.entities.entities@[j]).generation,
                                ) && j < container.components@.len() && container.components@[j]
                                    is Some implies exists|k: int|
                                0 <= k < r@.len() && (#[trigger] r@[k]).0.id == j by {
                                let k = choose|k: int|
                                    0 <= k < rpre.len() && (#[trigger] rpre[k]).0.id == j;
                                assert(r@[k].0.id == j);
                            }
                        }
                    },
                    None => {},
                }
            }
            i = i + 1;
        }
        r
    }
}

impl<'a, C> Query<'a, C> where C: Component {
    /// Iteration over a pair of kinds where the second is optional: one
    /// row per entity that is alive and has a component of this kind,
    /// each row carrying the other query's component when it is there
    /// and `None` when it is not, without suppressing the row.
    pub fn iter_optional(&self, other: &Query<'a, C>) -> (r: Vec<
        (Entity, Ref<'a, C>, Option<Ref<'a, C>>),
    >)
        requires
            self.entities == other.entities,
        ensures
            forall|k: int|
                0 <= k < r@.len() ==> {
                    &&& (#[trigger] r@[k]).0.id < self.entities.entities@.len()
                    &&& r@[k].0.generation == self.entities.entities@[r@[k].0.id as int].generation
                    &&& alive_generation(r@[k].0.generation)
                    &&& self.container is Some
                    &&& r@[k].0.id < self.container.unwrap().components@.len()
                    &&& self.container.unwrap().components@[r@[k].0.id as int] is Some
                    &&& *r@[k].1.component == self.container.unwrap().components@[r@[k].0.id as int].unwrap().component
                    &&& (r@[k].2 is Some <==> other.spec_has(r@[k].0))
                    &&& (r@[k].2 is Some ==> *r@[k].2.unwrap().component
                        == other.container.unwrap().spec_slot(r@[k].0).component)
                },
            forall|k1: int, k2: int| 0 <= k1 < k2 < r@.len() ==> r@[k1].0.id < r@[k2].0.id,
            forall|i: int|
                0 <= i < self.entities.entities@.len() && alive_generation(
                    (#[trigger] self.entities.entities@[i]).generation,
                ) && self.container is Some && i < self.container.unwrap().components@.len()
                    && self.container.unwrap().components@[i] is Some ==> exists|k: int|
                    0 <= k < r@.len() && (#[trigger] r@[k]).0.id == i,
    {
        let rows = self.iter();
        let mut r: Vec<(Entity, Ref<'a, C>, Option<Ref<'a, C>>)> = Vec::new();
        let n = rows.len();
        let mut k: usize = 0;
        while k < n
            invariant
                n == rows@.len(),
                k <= n,
                r@.len() == k,
                forall|j: int|
                    0 <= j < k ==> {
                        &&& (#[trigger] r@[j]).0 == rows@[j].0
                        &&& r@[j].1 == rows@[j].1
                        &&& (r@[j].2 is Some <==> other.spec_has(rows@[j].0))
                        &&& (r@[j].2 is Some ==> *r@[j].2.unwrap().component
                            == other.container.unwrap().spec_slot(rows@[j].0).component)
                    },
                forall|j: int|
                    0 <= j < rows@.len() ==> {
                        &&& (#[trigger] rows@[j]).0.id < self.entities.entities@.len()
                        &&& rows@[j].0.generation == self.entities.entities@[rows@[j].0.id as int].generation
                        &&& alive_generation(rows@[j].0.generation)
                        &&& self.container is Some
                        &&& rows@[j].0.id < self.container.unwrap().components@.len()
                        &&& self.container.unwrap().components@[rows@[j].0.id as int] is Some
                        &&& *rows@[j].1.component == self.container.unwrap().components@[rows@[j].0.id as int].unwrap().component
                    },
                forall|k1: int, k2: int|
                    0 <= k1 < k2 < rows@.len() ==> rows@[k1].0.id < rows@[k2].0.id,
            decreases n - k,
        {
            let row = &rows[k];
            let entity = row.0;
            let component = Ref {
                component: row.1.component,
                last_modified_tick: row.1.last_modified_tick,
                last_run_tick: row.1.last_run_tick,
            };
            let optional = other.get(entity);
            r.push((entity, component, optional));
            k = k + 1;
        }
        proof {
            assert forall|i: int|
                0 <= i < self.entities.entities@.len() && alive_generation(
                    (#[trigger] self.entities.entities@[i]).generation,
                ) && self.container is Some && i < self.container.unwrap().components@.len()
                    && self.container.unwrap().components@[i] is Some implies exists|j: int|
                0 <= j < r@.len() && (#[trigger] r@[j]).0.id == i by {
                let j = choose|j: int| 0 <= j < rows@.len() && (#[trigger] rows@[j]).0.id == i;
                assert(r@[j].0.id == i);
            }
        }
        r
    }
}

/// Change detection, seen through the contracts of the views: a tracked
/// write at tick `current_tick` leaves the row's tick at
/// `current_tick`, so any later `Ref` held by a system whose last run
/// was before that tick reports the row as modified; an untracked write
/// leaves the row's tick alone, so the same observation is unchanged.
pub proof fn lemma_change_detection<C>(
    t0: ComponentContainer<C>,
    tracked_post: ComponentContainer<C>,
    silent_post: ComponentContainer<C>,
    e: Entity,
    v1: C,
    v2: C,
    current_tick: u64,
    observer_last_run: u64,
) where C: Component
    requires
        t0.has_slot_for(e),
        observer_last_run < current_tick,
        tracked_post.components@ == t0.components@.update(
            e.id as int,
            Some(
                ComponentSlot {
                    generation: e.generation,
                    component: v1,
                    last_modified_tick: current_tick,
                },
            ),
        ),
        silent_post.components@ == t0.components@.update(
            e.id as int,
            Some(
                ComponentSlot {
                    generation: e.generation,
                    component: v2,
                    last_modified_tick: t0.spec_slot(e).last_modified_tick,
                },
            ),
        ),
    ensures
        tracked_post.has_slot_for(e),
        observer_last_run < tracked_post.spec_slot(e).last_modified_tick,
        silent_post.has_slot_for(e),
        (observer_last_run < silent_post.spec_slot(e).last_modified_tick) == (observer_last_run
            < t0.spec_slot(e).last_modified_tick),
{
}

} // verus!
