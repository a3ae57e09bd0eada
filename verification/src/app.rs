use crate::component::{Component, Resource};
use crate::component_container::ComponentContainer;
use crate::entities::{alive_generation, Entity, EntityMap};
use crate::kind_map::{lemma_kind_map_update_frame, KindMap};
use crate::resource_container::ResourceContainer;
use vstd::prelude::*;

verus! {

/// The owner of all state: the resource entries, the entity registry,
/// the component tables, and the logical clock.
pub struct App<C, R> where C: Component, R: Resource {
    pub resources: KindMap<ResourceContainer<R>>,
    pub entities: EntityMap,
    pub components: KindMap<ComponentContainer<C>>,
    pub current_tick: u64,
}

impl<C, R> App<C, R> where C: Component, R: Resource {
    /// A handle exists in the registry.
    pub open spec fn spec_exists(self, entity: Entity) -> bool {
        self.entities.spec_exists(entity)
    }

    /// The component of kind `kind` attached to `entity`, if any.
    pub open spec fn spec_component(self, kind: u64, entity: Entity) -> Option<C> {
        if self.spec_has_component(kind, entity) {
            Some(self.components.spec_get(kind).spec_slot(entity).component)
        } else {
            None
        }
    }

    pub open spec fn spec_has_component(self, kind: u64, entity: Entity) -> bool {
        self.components.spec_contains(kind) && self.components.spec_get(kind).has_slot_for(entity)
    }

    /// The last tracked write of that component; meaningful when it is
    /// present.
    pub open spec fn spec_component_tick(self, kind: u64, entity: Entity) -> u64 {
        self.components.spec_get(kind).spec_slot(entity).last_modified_tick
    }

    /// The resource of kind `kind`, if any.
    pub open spec fn spec_resource(self, kind: u64) -> Option<R> {
        if self.resources.spec_contains(kind) {
            Some(self.resources.spec_get(kind).resource)
        } else {
            None
        }
    }

    /// The last tracked write of that resource; meaningful when it is
    /// present.
    pub open spec fn spec_resource_tick(self, kind: u64) -> u64 {
        self.resources.spec_get(kind).last_modified_tick
    }

    /// Every structure is well formed, every present component row
    /// belongs to the live entity of its slot and is recorded in that
    /// entity's attached set, and dead slots have nothing attached.
    pub open spec fn wf(self) -> bool {
        &&& self.entities.wf()
        &&& self.resources.wf()
        &&& self.components.wf()
        &&& forall|kind: u64, i: int|
            self.components.spec_contains(kind) && 0 <= i < self.components.spec_get(
                kind,
            ).components@.len() && (#[trigger] self.components.spec_get(kind).components@[i])
                is Some ==> {
                &&& i < self.entities.entities@.len()
                &&& self.components.spec_get(kind).components@[i].unwrap().generation
                    == self.entities.entities@[i].generation
                &&& alive_generation(self.entities.entities@[i].generation)
                &&& self.entities.entities@[i].attached().contains(kind)
            }
        &&& forall|i: int|
            0 <= i < self.entities.entities@.len() && !alive_generation(
                (#[trigger] self.entities.entities@[i]).generation,
            ) ==> self.entities.entities@[i].components@.len() == 0
    }

    /// Allocation is possible: reviving the next dead slot cannot
    /// overflow its generation counter. Every practical registry
    /// satisfies this.
    pub open spec fn spec_can_create(self) -> bool {
        self.entities.next_free_entity < self.entities.entities@.len()
            ==> self.entities.entities@[self.entities.next_free_entity as int].generation
            < usize::MAX
    }

    pub fn new() -> (r: Self)
        ensures
            r.wf(),
            r.entities.entities@.len() == 0,
            r.current_tick == 0,
            forall|kind: u64| !r.components.spec_contains(kind),
            forall|kind: u64| r.spec_resource(kind) is None,
    {
        App {
            resources: KindMap::new(),
            entities: EntityMap::new(),
            components: KindMap::new(),
            current_tick: 0,
        }
    }

    /// Stores a resource under `kind`, replacing any previous one and
    /// stamping the entry with the current tick.
    pub fn add_resource(&mut self, kind: u64, resource: R)
        requires
            old(self).wf(),
        ensures
            final(self).wf(),
            spec_add_resource_rel(*old(self), *final(self), kind, resource),
    {
        let tick = self.current_tick;
        self.resources.insert(kind, ResourceContainer { resource, last_modified_tick: tick });
    }

    /// Takes the resource stored under `kind` out of the `App` and
    /// yields it.
    pub fn remove_resource(&mut self, kind: u64) -> (r: Option<R>)
        requires
            old(self).wf(),
        ensures
            final(self).wf(),
            spec_remove_resource_rel(*old(self), *final(self), kind, r),
    {
        match self.resources.remove(kind) {
            Some(container) => Some(container.resource),
            None => None,
        }
    }

    /// Allocates an entity handle: the lowest dead slot is revived with
    /// a generation never seen at that id, or a fresh slot is appended.
    pub fn create_entity(&mut self) -> (r: Entity)
        requires
            old(self).wf(),
            old(self).spec_can_create(),
        ensures
            final(self).wf(),
            spec_create_rel(*old(self), *final(self), r),
            if old(self).entities.next_free_entity < old(self).entities.entities@.len() {
                &&& r.id == old(self).entities.next_free_entity
                &&& r.generation == old(self).entities.entities@[r.id as int].generation + 1
                &&& final(self).entities.entities@.len() == old(self).entities.entities@.len()
            } else {
                &&& r.id == old(self).entities.entities@.len()
                &&& r.generation == 2
                &&& final(self).entities.entities@.len() == old(self).entities.entities@.len() + 1
            },
    {
        let r = self.entities.create_entity();
        proof {
            assert(self.entities.entities@[r.id as int].components@.len() == 0);
        }
        r
    }

    /// Destroys an entity along with all its attached components: its
    /// slot dies, and afterwards no component of any kind is found for
    /// the handle.
    pub fn destroy_entity(&mut self, entity: Entity)
        requires
            old(self).wf(),
        ensures
            final(self).wf(),
            spec_destroy_rel(*old(self), *final(self), entity),
    {
        let attached = match self.entities.destroy_entity(entity) {
            Some(attached) => attached,
            None => {
                return ;
            },
        };
        let ghost mid = *self;
        let n = attached.len();
        let mut i: usize = 0;
        while i < n
            invariant
                old(self).wf(),
                old(self).spec_exists(entity),
                n == attached@.len(),
                i <= n,
                attached@ == old(self).entities.entities@[entity.id as int].components@,
                self.entities == mid.entities,
                self.resources == mid.resources,
                self.current_tick == mid.current_tick,
                mid.entities.entities@.len() == old(self).entities.entities@.len(),
                mid.entities.entities@[entity.id as int].components@.len() == 0,
                mid.entities.entities@[entity.id as int].generation == (if alive_generation(
                    entity.generation,
                ) {
                    entity.generation + 1
                } else {
                    entity.generation as int
                }),
                forall|j: int|
                    0 <= j < old(self).entities.entities@.len() && j != entity.id ==> mid.entities.entities@[j]
                        == old(self).entities.entities@[j],
                self.components.wf(),
                forall|kind: u64|
                    #![trigger self.components.spec_contains(kind)]
                    self.components.spec_contains(kind) == old(self).components.spec_contains(
                        kind,
                    ),
                forall|kind: u64|
                    #![trigger self.components.spec_get(kind)]
                    old(self).components.spec_contains(kind) ==> {
                        &&& self.components.spec_get(kind).components@.len() == old(
                            self,
                        ).components.spec_get(kind).components@.len()
                        &&& forall|p: int|
                            0 <= p < old(self).components.spec_get(kind).components@.len() && p
                                != entity.id ==> self.components.spec_get(kind).components@[p]
                                == old(self).components.spec_get(kind).components@[p]
                        &&& (exists|j: int| 0 <= j < i && attached@[j] == kind) && entity.id
                            < self.components.spec_get(kind).components@.len()
                            ==> self.components.spec_get(kind).components@[entity.id as int]
                            is None
                        &&& (!exists|j: int| 0 <= j < i && attached@[j] == kind)
                            ==> self.components.spec_get(kind).components@ == old(
                            self,
                        ).components.spec_get(kind).components@
                    },
            decreases n - i,
        {
            let kind = attached[i];
            let ghost mpre = self.components;
            match self.components.get_mut(kind) {
                Some(table) => {
                    table.remove(entity);
                },
                None => {},
            }
            proof {
                if mpre.spec_contains(kind) {
                    lemma_kind_map_update_frame(
                        mpre,
                        self.components,
                        kind,
                        self.components.entries@[mpre.spec_index_of(kind)].1,
                    );
                } else {
                    assert(self.components == mpre);
                }
                assert forall|kind2: u64| #![trigger self.components.spec_get(kind2)]
                    old(self).components.spec_contains(kind2) implies {
                    &&& self.components.spec_get(kind2).components@.len() == old(
                        self,
                    ).components.spec_get(kind2).components@.len()
                    &&& forall|p: int|
                        0 <= p < old(self).components.spec_get(kind2).components@.len() && p
                            != entity.id ==> self.components.spec_get(kind2).components@[p] == old(
                            self,
                        ).components.spec_get(kind2).components@[p]
                    &&& ((exists|j: int| 0 <= j < i + 1 && attached@[j] == kind2)
                        ==> !self.components.spec_get(kind2).has_slot_for(entity))
                    &&& ((!exists|j: int| 0 <= j < i + 1 && attached@[j] == kind2)
                        ==> self.components.spec_get(kind2).components@ == old(
                        self,
                    ).components.spec_get(kind2).components@)
                } by {
                    if kind2 == kind {
                        assert(mpre.spec_contains(kind2));
                        if mpre.spec_get(kind).has_slot_for(entity) {
                            assert(self.components.spec_get(kind).components@ == mpre.spec_get(
                                kind,
                            ).components@.update(entity.id as int, None::<crate::component_container::ComponentSlot<C>>));
                        } else {
                            assert(self.components.spec_get(kind).components@ == mpre.spec_get(
                                kind,
                            ).components@);
                            if entity.id < mpre.spec_get(kind).components@.len() && mpre.spec_get(
                                kind,
                            ).components@[entity.id as int] is Some {
                                if exists|j: int| 0 <= j < i && attached@[j] == kind {
                                } else {
                                    assert(mpre.spec_get(kind).components@ == old(
                                        self,
                                    ).components.spec_get(kind).components@);
                                    assert(old(self).components.spec_get(kind).components@[entity.id as int].unwrap().generation
                                        == old(self).entities.entities@[entity.id as int].generation);
                                    assert(old(self).entities.entities@[entity.id as int].generation
                                        == entity.generation);
                                    assert(mpre.spec_get(kind).has_slot_for(entity));
                                    assert(false);
                                }
                            }
                        }
                        assert(exists|j: int| 0 <= j < i + 1 && attached@[j] == kind2) by {
                            assert(attached@[i as int] == kind);
                        }
                    } else {
                        if mpre.spec_contains(kind) {
                            assert(self.components.spec_get(kind2) == mpre.spec_get(kind2));
                        }
                        assert(self.components.spec_get(kind2) == mpre.spec_get(kind2));
                        if exists|j: int| 0 <= j < i + 1 && attached@[j] == kind2 {
                            let j = choose|j: int| 0 <= j < i + 1 && attached@[j] == kind2;
                            assert(j < i);
                        }
                        if !(exists|j: int| 0 <= j < i + 1 && attached@[j] == kind2) {
                            assert(!(exists|j: int| 0 <= j < i && attached@[j] == kind2));
                        }
                    }
                }
            }
            i = i + 1;
        }
        proof {
            let pre = *old(self);
            let post = *self;
            assert forall|kind: u64| #[trigger]
                post.spec_component(kind, entity) is None by {
                if post.spec_has_component(kind, entity) {
                    assert(pre.components.spec_contains(kind));
                    if exists|j: int| 0 <= j < n && attached@[j] == kind {
                        assert(!post.components.spec_get(kind).has_slot_for(entity));
                    } else {
                        assert(post.components.spec_get(kind).components@ == pre.components.spec_get(
                            kind,
                        ).components@);
                        assert(pre.components.spec_get(kind).has_slot_for(entity));
                        assert(pre.entities.entities@[entity.id as int].attached().contains(kind));
                        assert(attached@.to_set().contains(kind));
                        let j = choose|j: int| 0 <= j < attached@.len() && attached@[j] == kind;
                        assert(false);
                    }
                }
            }
            assert forall|kind: u64, h: Entity|
                h.id != entity.id implies #[trigger] post.spec_component(kind, h)
                == pre.spec_component(kind, h) by {
                if pre.components.spec_contains(kind) {
                    if h.id < pre.components.spec_get(kind).components@.len() {
                        assert(post.components.spec_get(kind).components@[h.id as int]
                            == pre.components.spec_get(kind).components@[h.id as int]);
                    }
                }
            }
            assert forall|kind: u64, h: Entity|
                h.id != entity.id && pre.spec_has_component(kind, h)
                implies #[trigger] post.spec_component_tick(kind, h) == pre.spec_component_tick(
                kind,
                h,
            ) by {
                assert(post.components.spec_get(kind).components@[h.id as int]
                    == pre.components.spec_get(kind).components@[h.id as int]);
            }
            assert forall|h: Entity|
                h.id != entity.id implies post.spec_exists(h) == pre.spec_exists(h) by {
                if h.id < pre.entities.entities@.len() {
                    assert(post.entities.entities@[h.id as int] == pre.entities.entities@[h.id as int]);
                }
            }
            assert(spec_destroy_rel(pre, post, entity));
            assert forall|kind2: u64, i2: int|
                post.components.spec_contains(kind2) && 0 <= i2 < post.components.spec_get(
                    kind2,
                ).components@.len() && (#[trigger] post.components.spec_get(kind2).components@[i2])
                    is Some implies {
                &&& i2 < post.entities.entities@.len()
                &&& post.components.spec_get(kind2).components@[i2].unwrap().generation
                    == post.entities.entities@[i2].generation
                &&& alive_generation(post.entities.entities@[i2].generation)
                &&& post.entities.entities@[i2].attached().contains(kind2)
            } by {
                assert(pre.components.spec_contains(kind2));
                if i2 == entity.id {
                    if exists|j: int| 0 <= j < n && attached@[j] == kind2 {
                        assert(post.components.spec_get(kind2).components@[i2] is None);
                        assert(false);
                    } else {
                        assert(post.components.spec_get(kind2).components@ == pre.components.spec_get(
                            kind2,
                        ).components@);
                        assert(pre.components.spec_get(kind2).components@[i2] is Some);
                        assert(pre.components.spec_get(kind2).components@[i2].unwrap().generation
                            == pre.entities.entities@[i2].generation);
                        assert(pre.entities.entities@[i2].generation == entity.generation);
                        assert(pre.entities.entities@[i2].attached().contains(kind2));
                        let j = choose|j: int| 0 <= j < attached@.len() && attached@[j] == kind2;
                        assert(false);
                    }
                } else {
                    assert(post.components.spec_get(kind2).components@[i2]
                        == pre.components.spec_get(kind2).components@[i2]);
                    assert(post.entities.entities@[i2] == pre.entities.entities@[i2]);
                }
            }
            assert forall|i2: int|
                0 <= i2 < post.entities.entities@.len() && !alive_generation(
                    (#[trigger] post.entities.entities@[i2]).generation,
                ) implies post.entities.entities@[i2].components@.len() == 0 by {
                if i2 != entity.id {
                    assert(post.entities.entities@[i2] == pre.entities.entities@[i2]);
                }
            }
        }
    }

    /// A handle exists iff its slot is present and stores its
    /// generation.
    pub fn entity_exists(&self, entity: Entity) -> (r: bool)
        ensures
            r == self.spec_exists(entity),
    {
        self.entities.entity_exists(entity)
    }

    /// Attaches a component of kind `kind` to a live entity, replacing
    /// any previous one of that kind and stamping the row with the
    /// current tick; a dead handle makes the call a no-op.
    pub fn add_component(&mut self, kind: u64, entity: Entity, component: C)
        requires
            old(self).wf(),
            alive_generation(entity.generation),
        ensures
            final(self).wf(),
            spec_add_component_rel(*old(self), *final(self), kind, entity, component),
    {
        if !self.entities.entity_exists(entity) {
            return ;
        }
        if !self.components.contains(kind) {
            self.components.insert(kind, ComponentContainer::new());
        }
        let ghost mid1 = *self;
        let tick = self.current_tick;
        let registry_len = self.entities.entities.len();
        proof {
            assert(entity.id < registry_len);
            assert(registry_len <= usize::MAX);
        }
        match self.components.get_mut(kind) {
            Some(table) => {
                table.insert(tick, entity, component);
            },
            None => {},
        }
        let ghost mid2 = *self;
        self.entities.add_component(entity, kind);
        proof {
            let pre = *old(self);
            let post = *self;
            let t2 = mid2.components.entries@[mid1.components.spec_index_of(kind)].1;
            lemma_kind_map_update_frame(mid1.components, mid2.components, kind, t2);
            assert(mid2.components.spec_get(kind) == t2);
            assert(post.components == mid2.components);
            assert(post.spec_component(kind, entity) == Some(component));
            assert(post.spec_component_tick(kind, entity) == pre.current_tick);
            assert forall|k2: u64, h: Entity|
                !(k2 == kind && h == entity) implies #[trigger] post.spec_component(k2, h)
                == pre.spec_component(k2, h) by {
                if k2 != kind {
                    assert(post.components.spec_contains(k2) == pre.components.spec_contains(k2));
                    if pre.components.spec_contains(k2) {
                        assert(post.components.spec_get(k2) == pre.components.spec_get(k2));
                    }
                } else {
                    if h.id != entity.id {
                        if pre.spec_has_component(kind, h) {
                            assert(t2.components@[h.id as int] == pre.components.spec_get(
                                kind,
                            ).components@[h.id as int]);
                        }
                        if post.spec_has_component(kind, h) {
                            assert(pre.components.spec_contains(kind));
                            assert(t2.components@[h.id as int] == pre.components.spec_get(
                                kind,
                            ).components@[h.id as int]);
                        }
                    } else {
                        assert(!post.spec_has_component(kind, h));
                        if pre.spec_has_component(kind, h) {
                            assert(pre.components.spec_get(kind).components@[h.id as int].unwrap().generation
                                == pre.entities.entities@[h.id as int].generation);
                            assert(false);
                        }
                    }
                }
            }
            assert forall|k2: u64, h: Entity|
                !(k2 == kind && h == entity) && pre.spec_has_component(k2, h)
                implies #[trigger] post.spec_component_tick(k2, h) == pre.spec_component_tick(
                k2,
                h,
            ) by {
                if k2 != kind {
                    assert(post.components.spec_get(k2) == pre.components.spec_get(k2));
                } else {
                    if h.id == entity.id {
                        assert(false);
                    } else {
                        assert(t2.components@[h.id as int] == pre.components.spec_get(
                            kind,
                        ).components@[h.id as int]);
                    }
                }
            }
            assert forall|h: Entity| #[trigger]
                post.spec_exists(h) == pre.spec_exists(h) by {
                if h.id == entity.id {
                    assert(post.entities.entities@[h.id as int].generation
                        == pre.entities.entities@[h.id as int].generation);
                } else if h.id < pre.entities.entities@.len() {
                    assert(post.entities.entities@[h.id as int] == pre.entities.entities@[h.id as int]);
                }
            }
            assert(spec_add_component_rel(pre, post, kind, entity, component));
            assert forall|kind2: u64, i: int|
                post.components.spec_contains(kind2) && 0 <= i < post.components.spec_get(
                    kind2,
                ).components@.len() && (#[trigger] post.components.spec_get(kind2).components@[i])
                    is Some implies {
                &&& i < post.entities.entities@.len()
                &&& post.components.spec_get(kind2).components@[i].unwrap().generation
                    == post.entities.entities@[i].generation
                &&& alive_generation(post.entities.entities@[i].generation)
                &&& post.entities.entities@[i].attached().contains(kind2)
            } by {
                if kind2 == kind {
                    if i == entity.id {
                        assert(post.entities.entities@[i].attached() == pre.entities.entities@[i].attached().insert(
                            kind,
                        ));
                    } else {
                        if pre.components.spec_contains(kind) {
                            assert(t2.components@[i] == pre.components.spec_get(
                                kind,
                            ).components@[i]);
                            assert(pre.components.spec_get(kind).components@[i] is Some);
                            if i == entity.id {
                            } else {
                                assert(post.entities.entities@[i] == pre.entities.entities@[i]);
                            }
                        } else {
                            assert(mid1.components.spec_get(kind).components@.len() == 0);
                            assert(t2.components@[i] is None);
                            assert(false);
                        }
                    }
                } else {
                    assert(pre.components.spec_contains(kind2));
                    assert(post.components.spec_get(kind2) == pre.components.spec_get(kind2));
                    assert(pre.components.spec_get(kind2).components@[i] is Some);
                    if i == entity.id {
                        assert(post.entities.entities@[i].generation == pre.entities.entities@[i].generation);
                        assert(post.entities.entities@[i].attached() == pre.entities.entities@[i].attached().insert(
                            kind,
                        ));
                        assert(pre.entities.entities@[i].attached().contains(kind2));
                    } else {
                        assert(post.entities.entities@[i] == pre.entities.entities@[i]);
                    }
                }
            }
            assert forall|i: int|
                0 <= i < post.entities.entities@.len() && !alive_generation(
                    (#[trigger] post.entities.entities@[i]).generation,
                ) implies post.entities.entities@[i].components@.len() == 0 by {
                if i == entity.id {
                    assert(alive_generation(post.entities.entities@[i].generation));
                } else {
                    assert(post.entities.entities@[i] == pre.entities.entities@[i]);
                }
            }
        }
    }

    /// Detaches the component of kind `kind` from `entity` and yields
    /// it; absent components and dead handles yield `None`.
    pub fn remove_component(&mut self, kind: u64, entity: Entity) -> (r: Option<C>)
        requires
            old(self).wf(),
        ensures
            final(self).wf(),
            spec_remove_component_rel(*old(self), *final(self), kind, entity, r),
    {
        if !self.entities.entity_exists(entity) {
            return None;
        }
        self.entities.remove_component(entity, kind);
        let ghost mid = *self;
        let r = match self.components.get_mut(kind) {
            Some(table) => table.remove(entity),
            None => None,
        };
        proof {
            let pre = *old(self);
            let post = *self;
            if pre.components.spec_contains(kind) {
                lemma_kind_map_update_frame(
                    mid.components,
                    post.components,
                    kind,
                    post.components.entries@[mid.components.spec_index_of(kind)].1,
                );
            } else {
                assert(post.components == mid.components);
            }
            assert(mid.components == pre.components);
            assert forall|h: Entity| #[trigger]
                post.spec_exists(h) == pre.spec_exists(h) by {
                if h.id == entity.id {
                    assert(post.entities.entities@[h.id as int].generation
                        == pre.entities.entities@[h.id as int].generation);
                } else if h.id < pre.entities.entities@.len() {
                    assert(post.entities.entities@[h.id as int] == pre.entities.entities@[h.id as int]);
                }
            }
            assert forall|k2: u64, h: Entity|
                !(k2 == kind && h == entity) implies #[trigger] post.spec_component(k2, h)
                == pre.spec_component(k2, h) by {
                if k2 != kind {
                    if pre.components.spec_contains(k2) {
                        assert(post.components.spec_get(k2) == pre.components.spec_get(k2));
                    }
                } else {
                    if pre.components.spec_contains(kind) {
                        let tpre = pre.components.spec_get(kind);
                        let tpost = post.components.spec_get(kind);
                        if h.id != entity.id {
                            if h.id < tpre.components@.len() {
                                assert(tpost.components@[h.id as int] == tpre.components@[h.id as int]);
                            }
                            assert(tpost.components@.len() == tpre.components@.len());
                        } else {
                            assert(pre.entities.entities@[entity.id as int].generation
                                == entity.generation);
                            if pre.spec_has_component(kind, h) {
                                assert(tpre.components@[h.id as int].unwrap().generation
                                    == pre.entities.entities@[h.id as int].generation);
                                assert(false);
                            }
                            if post.spec_has_component(kind, h) {
                                if tpre.has_slot_for(entity) {
                                    assert(tpost.components@[h.id as int] is None);
                                    assert(false);
                                } else {
                                    assert(tpost.components@ == tpre.components@);
                                    assert(tpre.components@[h.id as int].unwrap().generation
                                        == pre.entities.entities@[h.id as int].generation);
                                    assert(false);
                                }
                            }
                        }
                    }
                }
            }
            assert forall|k2: u64, h: Entity|
                !(k2 == kind && h == entity) && pre.spec_has_component(k2, h)
                implies #[trigger] post.spec_component_tick(k2, h) == pre.spec_component_tick(
                k2,
                h,
            ) by {
                if k2 != kind {
                    assert(post.components.spec_get(k2) == pre.components.spec_get(k2));
                } else {
                    if h.id == entity.id {
                        assert(pre.components.spec_get(kind).components@[h.id as int].unwrap().generation
                            == pre.entities.entities@[h.id as int].generation);
                        assert(false);
                    } else {
                        assert(post.components.spec_get(kind).components@[h.id as int]
                            == pre.components.spec_get(kind).components@[h.id as int]);
                    }
                }
            }
            assert(r == pre.spec_component(kind, entity));
            assert(post.spec_component(kind, entity) is None);
            assert(spec_remove_component_rel(pre, post, kind, entity, r));
            assert forall|kind2: u64, i: int|
                post.components.spec_contains(kind2) && 0 <= i < post.components.spec_get(
                    kind2,
                ).components@.len() && (#[trigger] post.components.spec_get(kind2).components@[i])
                    is Some implies {
                &&& i < post.entities.entities@.len()
                &&& post.components.spec_get(kind2).components@[i].unwrap().generation
                    == post.entities.entities@[i].generation
                &&& alive_generation(post.entities.entities@[i].generation)
                &&& post.entities.entities@[i].attached().contains(kind2)
            } by {
                assert(pre.components.spec_contains(kind2));
                if kind2 == kind && pre.components.spec_contains(kind) {
                    if i == entity.id {
                        assert(post.components.spec_get(kind).components@[i] is None);
                        assert(false);
                    } else {
                        assert(post.components.spec_get(kind).components@[i]
                            == pre.components.spec_get(kind).components@[i]);
                        assert(post.entities.entities@[i] == pre.entities.entities@[i]);
                    }
                } else {
                    assert(post.components.spec_get(kind2) == pre.components.spec_get(kind2));
                    assert(pre.components.spec_get(kind2).components@[i] is Some);
                    if i == entity.id {
                        assert(post.entities.entities@[i].generation == pre.entities.entities@[i].generation);
                        assert(post.entities.entities@[i].attached() == pre.entities.entities@[i].attached().remove(
                            kind,
                        ));
                        assert(pre.entities.entities@[i].attached().contains(kind2));
                        assert(kind2 != kind);
                    } else {
                        assert(post.entities.entities@[i] == pre.entities.entities@[i]);
                    }
                }
            }
            assert forall|i: int|
                0 <= i < post.entities.entities@.len() && !alive_generation(
                    (#[trigger] post.entities.entities@[i]).generation,
                ) implies post.entities.entities@[i].components@.len() == 0 by {
                if i == entity.id {
                    assert(pre.entities.entities@[i].generation == entity.generation);
                    assert(post.entities.entities@[i].generation == entity.generation);
                    if !alive_generation(entity.generation) {
                        assert(pre.entities.entities@[i].components@.len() == 0);
                        assert(post.entities.entities@[i].components@.len()
                            <= pre.entities.entities@[i].components@.len());
                    }
                } else {
                    assert(post.entities.entities@[i] == pre.entities.entities@[i]);
                }
            }
        }
        r
    }

    /// Advances the logical clock by one; nothing else moves.
    pub fn next_tick(&mut self)
        requires
            old(self).current_tick < u64::MAX,
        ensures
            final(self).current_tick == old(self).current_tick + 1,
            final(self).resources == old(self).resources,
            final(self).entities == old(self).entities,
            final(self).components == old(self).components,
            old(self).wf() ==> final(self).wf(),
    {
        self.current_tick = self.current_tick + 1;
    }
}

impl<C, R> Default for App<C, R> where C: Component, R: Resource {
    fn default() -> (r: Self)
        ensures
            r.wf(),
            r.entities.entities@.len() == 0,
            r.current_tick == 0,
    {
        App::new()
    }
}

/// What `add_resource` does: the resource is stored under its kind with
/// the current tick; nothing else moves.
pub open spec fn spec_add_resource_rel<C, R>(
    pre: App<C, R>,
    post: App<C, R>,
    kind: u64,
    resource: R,
) -> bool where C: Component, R: Resource {
    &&& post.spec_resource(kind) == Some(resource)
    &&& post.spec_resource_tick(kind) == pre.current_tick
    &&& forall|k2: u64| k2 != kind ==> #[trigger] post.spec_resource(k2) == pre.spec_resource(k2)
    &&& forall|k2: u64|
        k2 != kind && pre.spec_resource(k2) is Some ==> #[trigger] post.spec_resource_tick(k2)
            == pre.spec_resource_tick(k2)
    &&& post.entities == pre.entities
    &&& post.components == pre.components
    &&& post.current_tick == pre.current_tick
}

/// What `remove_resource` does: yields exactly what was stored, leaves
/// the kind empty; nothing else moves.
pub open spec fn spec_remove_resource_rel<C, R>(
    pre: App<C, R>,
    post: App<C, R>,
    kind: u64,
    r: Option<R>,
) -> bool where C: Component, R: Resource {
    &&& r == pre.spec_resource(kind)
    &&& post.spec_resource(kind) is None
    &&& forall|k2: u64| k2 != kind ==> #[trigger] post.spec_resource(k2) == pre.spec_resource(k2)
    &&& forall|k2: u64|
        k2 != kind && pre.spec_resource(k2) is Some ==> #[trigger] post.spec_resource_tick(k2)
            == pre.spec_resource_tick(k2)
    &&& post.entities == pre.entities
    &&& post.components == pre.components
    &&& post.current_tick == pre.current_tick
}

/// What `create_entity` does: a fresh live handle appears with nothing
/// attached, every other handle is untouched, tables and resources and
/// the clock stay.
pub open spec fn spec_create_rel<C, R>(pre: App<C, R>, post: App<C, R>, e: Entity) -> bool where
    C: Component,
    R: Resource,
{
    &&& post.spec_exists(e)
    &&& !pre.spec_exists(e)
    &&& alive_generation(e.generation)
    &&& e.id < post.entities.entities@.len()
    &&& post.entities.entities@[e.id as int].components@.len() == 0
    &&& forall|h: Entity| h.id != e.id ==> post.spec_exists(h) == pre.spec_exists(h)
    &&& forall|h: Entity| h.id == e.id ==> post.spec_exists(h) == (h == e)
    &&& e.id < pre.entities.entities@.len() ==> {
        &&& e.generation == pre.entities.entities@[e.id as int].generation + 1
        &&& post.entities.entities@.len() == pre.entities.entities@.len()
    }
    &&& e.id >= pre.entities.entities@.len() ==> {
        &&& e.id == pre.entities.entities@.len()
        &&& e.generation == 2
        &&& post.entities.entities@.len() == pre.entities.entities@.len() + 1
    }
    &&& post.resources == pre.resources
    &&& post.components == pre.components
    &&& post.current_tick == pre.current_tick
}

/// What `destroy_entity` does on a live handle: the slot dies, every
/// component of every kind is gone for that handle, everything else is
/// untouched; on a dead handle nothing happens.
pub open spec fn spec_destroy_rel<C, R>(pre: App<C, R>, post: App<C, R>, e: Entity) -> bool where
    C: Component,
    R: Resource,
{
    if pre.spec_exists(e) {
        &&& forall|h: Entity|
            alive_generation(h.generation) && h.id == e.id ==> !post.spec_exists(h)
        &&& forall|h: Entity| h.id != e.id ==> post.spec_exists(h) == pre.spec_exists(h)
        &&& forall|kind: u64| #[trigger] post.spec_component(kind, e) is None
        &&& forall|kind: u64, h: Entity|
            h.id != e.id ==> #[trigger] post.spec_component(kind, h) == pre.spec_component(kind, h)
        &&& forall|kind: u64, h: Entity|
            h.id != e.id && pre.spec_has_component(kind, h) ==> #[trigger] post.spec_component_tick(
                kind,
                h,
            ) == pre.spec_component_tick(kind, h)
        &&& post.entities.entities@.len() == pre.entities.entities@.len()
        &&& e.id < post.entities.entities@.len()
        &&& !alive_generation(post.entities.entities@[e.id as int].generation)
        &&& post.entities.entities@[e.id as int].components@.len() == 0
        &&& post.resources == pre.resources
        &&& post.current_tick == pre.current_tick
    } else {
        post == pre
    }
}

/// What `add_component` does on a live handle: the component is stored
/// for exactly that handle with the current tick, the attached set
/// gains the kind, everything else is untouched; on a dead handle
/// nothing happens.
pub open spec fn spec_add_component_rel<C, R>(
    pre: App<C, R>,
    post: App<C, R>,
    kind: u64,
    e: Entity,
    v: C,
) -> bool where C: Component, R: Resource {
    if pre.spec_exists(e) {
        &&& post.spec_component(kind, e) == Some(v)
        &&& post.spec_component_tick(kind, e) == pre.current_tick
        &&& forall|k2: u64, h: Entity|
            !(k2 == kind && h == e) ==> #[trigger] post.spec_component(k2, h)
                == pre.spec_component(k2, h)
        &&& forall|k2: u64, h: Entity|
            !(k2 == kind && h == e) && pre.spec_has_component(k2, h)
                ==> #[trigger] post.spec_component_tick(k2, h) == pre.spec_component_tick(k2, h)
        &&& forall|h: Entity| #[trigger] post.spec_exists(h) == pre.spec_exists(h)
        &&& post.entities.entities@.len() == pre.entities.entities@.len()
        &&& post.entities.spec_attached(e) == pre.entities.spec_attached(e).insert(kind)
        &&& forall|i: int|
            0 <= i < pre.entities.entities@.len() && i != e.id
                ==> post.entities.entities@[i] == pre.entities.entities@[i]
        &&& post.resources == pre.resources
        &&& post.current_tick == pre.current_tick
    } else {
        post == pre
    }
}

/// What `remove_component` does on a live handle: yields exactly the
/// stored component, leaves the handle without one, detaches the kind,
/// everything else is untouched; on a dead handle nothing happens and
/// nothing is yielded.
pub open spec fn spec_remove_component_rel<C, R>(
    pre: App<C, R>,
    post: App<C, R>,
    kind: u64,
    e: Entity,
    r: Option<C>,
) -> bool where C: Component, R: Resource {
    if pre.spec_exists(e) {
        &&& r == pre.spec_component(kind, e)
        &&& post.spec_component(kind, e) is None
        &&& forall|k2: u64, h: Entity|
            !(k2 == kind && h == e) ==> #[trigger] post.spec_component(k2, h)
                == pre.spec_component(k2, h)
        &&& forall|k2: u64, h: Entity|
            !(k2 == kind && h == e) && pre.spec_has_component(k2, h)
                ==> #[trigger] post.spec_component_tick(k2, h) == pre.spec_component_tick(k2, h)
        &&& forall|h: Entity| #[trigger] post.spec_exists(h) == pre.spec_exists(h)
        &&& post.entities.entities@.len() == pre.entities.entities@.len()
        &&& post.entities.spec_attached(e) == pre.entities.spec_attached(e).remove(kind)
        &&& forall|i: int|
            0 <= i < pre.entities.entities@.len() && i != e.id
                ==> post.entities.entities@[i] == pre.entities.entities@[i]
        &&& post.resources == pre.resources
        &&& post.current_tick == pre.current_tick
    } else {
        r is None && post == pre
    }
}

/// Attaching a component to a live entity and then detaching the same
/// kind hands back exactly the value that was attached.
pub proof fn lemma_add_remove_component_roundtrip<C, R>(
    a0: App<C, R>,
    a1: App<C, R>,
    a2: App<C, R>,
    kind: u64,
    e: Entity,
    v: C,
    r: Option<C>,
) where C: Component, R: Resource
    requires
        a0.spec_exists(e),
        spec_add_component_rel(a0, a1, kind, e, v),
        spec_remove_component_rel(a1, a2, kind, e, r),
    ensures
        r == Some(v),
{
    assert(a1.spec_exists(e));
    assert(a1.spec_component(kind, e) == Some(v));
}

/// Adding a resource and then removing the same kind hands back exactly
/// the resource that was added.
pub proof fn lemma_add_remove_resource_roundtrip<C, R>(
    a0: App<C, R>,
    a1: App<C, R>,
    a2: App<C, R>,
    kind: u64,
    v: R,
    r: Option<R>,
) where C: Component, R: Resource
    requires
        spec_add_resource_rel(a0, a1, kind, v),
        spec_remove_resource_rel(a1, a2, kind, r),
    ensures
        r == Some(v),
{
    assert(a1.spec_resource(kind) == Some(v));
}

} // verus!
