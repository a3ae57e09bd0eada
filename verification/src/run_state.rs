use crate::app::{
    spec_add_component_rel, spec_create_rel, spec_destroy_rel, spec_remove_component_rel, App,
};
use crate::commands::{Command, Commands};
use crate::component::{Component, Resource};
use crate::component_container::{ComponentContainer, ComponentSlot};
use crate::many_mut::RefManyMut;
use crate::query::{Query, RefMut};
use crate::resource::{Res, ResMut};
use crate::entities::{Entity, EntityMap};
use crate::kind_map::KindMap;
use crate::resource_container::ResourceContainer;
use vstd::prelude::*;

verus! {

/// The state bundle a system runs against: the `App`'s structures,
/// checked out for the duration of one run, plus a fresh command queue
/// and the current tick.
pub struct SystemRunState<C, R> where C: Component, R: Resource {
    pub resources: KindMap<ResourceContainer<R>>,
    pub entities: EntityMap,
    pub components: KindMap<ComponentContainer<C>>,
    pub commands: Commands<C>,
    pub current_tick: u64,
}

impl<C, R> SystemRunState<C, R> where C: Component, R: Resource {
    /// The `App` these structures came from and return to.
    pub open spec fn spec_app(self) -> App<C, R> {
        App {
            resources: self.resources,
            entities: self.entities,
            components: self.components,
            current_tick: self.current_tick,
        }
    }

    pub open spec fn wf(self) -> bool {
        &&& self.spec_app().wf()
        &&& self.commands.wf()
    }

    /// A shared query over one component kind, for the system whose
    /// last run was at `last_run_tick`.
    pub fn query(&self, kind: u64, last_run_tick: u64) -> (q: Query<'_, C>)
        requires
            self.components.wf(),
        ensures
            q.entities == &self.entities,
            q.current_tick == self.current_tick,
            q.last_run_tick == last_run_tick,
            q.container is Some <==> self.components.spec_contains(kind),
            q.container is Some ==> *q.container.unwrap() == self.components.spec_get(kind),
    {
        Query {
            entities: &self.entities,
            container: self.components.get(kind),
            current_tick: self.current_tick,
            last_run_tick,
        }
    }

    /// A write view of one component row, stamping on `set` with the
    /// run's current tick.
    pub fn get_component_mut(
        &mut self,
        kind: u64,
        entity: Entity,
        last_run_tick: u64,
    ) -> (r: Option<RefMut<'_, C>>)
        requires
            old(self).components.wf(),
        ensures
            r is Some <==> old(self).components.spec_contains(kind) && old(
                self,
            ).components.spec_get(kind).has_slot_for(entity),
            r is Some ==> {
                &&& *r.unwrap().component == old(self).components.spec_get(kind).spec_slot(
                    entity,
                ).component
                &&& *r.unwrap().last_modified_tick == old(self).components.spec_get(
                    kind,
                ).spec_slot(entity).last_modified_tick
                &&& r.unwrap().last_run_tick == last_run_tick
                &&& r.unwrap().current_tick == old(self).current_tick
                &&& exists|t: ComponentContainer<C>|
                    {
                        &&& final(self).components.entries@ == old(
                            self,
                        ).components.entries@.update(
                            old(self).components.spec_index_of(kind),
                            (kind, t),
                        )
                        &&& (#[trigger] t.components@) == old(self).components.spec_get(
                            kind,
                        ).components@.update(
                            entity.id as int,
                            Some(
                                ComponentSlot {
                                    generation: entity.generation,
                                    component: *final(r.unwrap().component),
                                    last_modified_tick: *final(r.unwrap().last_modified_tick),
                                },
                            ),
                        )
                    }
            },
            final(self).entities == old(self).entities,
            final(self).resources == old(self).resources,
            final(self).commands == old(self).commands,
            final(self).current_tick == old(self).current_tick,
    {
        let current_tick = self.current_tick;
        match self.components.get_mut(kind) {
            Some(table) => table.get_mut(last_run_tick, current_tick, entity),
            None => None,
        }
    }

    /// Write views for several handles at once, with the duplicate and
    /// liveness checking of `ComponentContainer::get_many_mut`.
    pub fn get_many_mut(
        &mut self,
        kind: u64,
        entities: &Vec<Entity>,
        last_run_tick: u64,
    ) -> (r: Option<RefManyMut<'_, C>>)
        requires
            old(self).components.wf(),
            forall|i: int|
                0 <= i < entities@.len() ==> crate::entities::alive_generation(
                    (#[trigger] entities@[i]).generation,
                ),
        ensures
            r is Some <==> old(self).components.spec_contains(kind) && old(
                self,
            ).components.spec_get(kind).spec_many_valid(entities@),
            r is Some ==> {
                &&& r.unwrap().ids@.len() == entities@.len()
                &&& forall|i: int|
                    0 <= i < entities@.len() ==> r.unwrap().ids@[i] == (
                    #[trigger] entities@[i]).id
                &&& r.unwrap().last_run_tick == last_run_tick
                &&& r.unwrap().current_tick == old(self).current_tick
                &&& r.unwrap().wf()
            },
            final(self).entities == old(self).entities,
            final(self).resources == old(self).resources,
            final(self).commands == old(self).commands,
            final(self).current_tick == old(self).current_tick,
    {
        let current_tick = self.current_tick;
        match self.components.get_mut(kind) {
            Some(table) => table.get_many_mut(last_run_tick, current_tick, entities),
            None => None,
        }
    }

    /// A read view of a resource, or `None` when it was never added.
    pub fn res(&self, kind: u64, last_run_tick: u64) -> (r: Option<Res<'_, R>>)
        requires
            self.resources.wf(),
        ensures
            r is Some <==> self.resources.spec_contains(kind),
            r is Some ==> {
                &&& *r.unwrap().resource == self.resources.spec_get(kind).resource
                &&& r.unwrap().last_modified_tick == self.resources.spec_get(
                    kind,
                ).last_modified_tick
                &&& r.unwrap().last_run_tick == last_run_tick
            },
    {
        match self.resources.get(kind) {
            Some(container) => Some(
                Res {
                    resource: &container.resource,
                    last_modified_tick: container.last_modified_tick,
                    last_run_tick,
                },
            ),
            None => None,
        }
    }

    /// A write view of a resource, stamping on `set` with the run's
    /// current tick.
    pub fn res_mut(&mut self, kind: u64, last_run_tick: u64) -> (r: Option<ResMut<'_, R>>)
        requires
            old(self).resources.wf(),
        ensures
            r is Some <==> old(self).resources.spec_contains(kind),
            r is Some ==> {
                &&& *r.unwrap().resource == old(self).resources.spec_get(kind).resource
                &&& *r.unwrap().last_modified_tick == old(self).resources.spec_get(
                    kind,
                ).last_modified_tick
                &&& r.unwrap().last_run_tick == last_run_tick
                &&& r.unwrap().current_tick == old(self).current_tick
                &&& final(self).resources.entries@ == old(self).resources.entries@.update(
                    old(self).resources.spec_index_of(kind),
                    (
                        kind,
                        crate::resource_container::ResourceContainer {
                            resource: *final(r.unwrap().resource),
                            last_modified_tick: *final(r.unwrap().last_modified_tick),
                        },
                    ),
                )
            },
            final(self).entities == old(self).entities,
            final(self).components == old(self).components,
            final(self).commands == old(self).commands,
            final(self).current_tick == old(self).current_tick,
    {
        let current_tick = self.current_tick;
        match self.resources.get_mut(kind) {
            Some(container) => Some(
                ResMut {
                    resource: &mut container.resource,
                    last_modified_tick: &mut container.last_modified_tick,
                    last_run_tick,
                    current_tick,
                },
            ),
            None => None,
        }
    }
}

/// Attaching a bundle: each `(kind, value)` pair is attached in order,
/// through the same relation as a direct `add_component`.
pub open spec fn spec_add_all_rel<C, R>(
    pre: App<C, R>,
    e: Entity,
    bundle: Seq<(u64, C)>,
    post: App<C, R>,
) -> bool where C: Component, R: Resource
    decreases bundle.len(),
{
    if bundle.len() == 0 {
        post == pre
    } else {
        exists|m: App<C, R>|
            #[trigger] spec_add_component_rel(pre, m, bundle[0].0, e, bundle[0].1)
                && spec_add_all_rel(m, e, bundle.skip(1), post)
    }
}

/// Detaching a bundle: each listed kind is detached in order, through
/// the same relation as a direct `remove_component`.
pub open spec fn spec_remove_all_rel<C, R>(
    pre: App<C, R>,
    e: Entity,
    kinds: Seq<u64>,
    post: App<C, R>,
) -> bool where C: Component, R: Resource
    decreases kinds.len(),
{
    if kinds.len() == 0 {
        post == pre
    } else {
        exists|m: App<C, R>, r: Option<C>|
            #[trigger] spec_remove_component_rel(pre, m, kinds[0], e, r) && spec_remove_all_rel(
                m,
                e,
                kinds.skip(1),
                post,
            )
    }
}

/// What applying one deferred command does. A creation that would
/// overflow the revived slot's generation counter is dropped rather
/// than applied; no practical registry reaches that state.
pub open spec fn spec_apply_rel<C, R>(pre: App<C, R>, cmd: Command<C>, post: App<C, R>) -> bool where
    C: Component,
    R: Resource,
{
    match cmd {
        Command::CreateEntity { bundle } => {
            if pre.spec_can_create() {
                exists|m: App<C, R>, e: Entity|
                    #[trigger] spec_create_rel(pre, m, e) && spec_add_all_rel(m, e, bundle@, post)
            } else {
                post == pre
            }
        },
        Command::DestroyEntity { entity } => spec_destroy_rel(pre, post, entity),
        Command::AddComponents { entity, bundle } => spec_add_all_rel(pre, entity, bundle@, post),
        Command::RemoveComponents { entity, kinds } => spec_remove_all_rel(
            pre,
            entity,
            kinds@,
            post,
        ),
    }
}

/// Draining a queue: the commands are applied one after the other, in
/// exactly the order they were queued.
pub open spec fn spec_apply_all_rel<C, R>(
    pre: App<C, R>,
    cmds: Seq<Command<C>>,
    post: App<C, R>,
) -> bool where C: Component, R: Resource
    decreases cmds.len(),
{
    if cmds.len() == 0 {
        post == pre
    } else {
        exists|m: App<C, R>|
            #[trigger] spec_apply_rel(pre, cmds[0], m) && spec_apply_all_rel(m, cmds.skip(1), post)
    }
}

/// Chaining one more attachment onto an attach chain.
proof fn lemma_add_all_snoc<C, R>(
    p0: App<C, R>,
    mid: App<C, R>,
    post: App<C, R>,
    e: Entity,
    bundle: Seq<(u64, C)>,
    kind: u64,
    v: C,
) where C: Component, R: Resource
    requires
        spec_add_all_rel(p0, e, bundle, mid),
        spec_add_component_rel(mid, post, kind, e, v),
    ensures
        spec_add_all_rel(p0, e, bundle.push((kind, v)), post),
    decreases bundle.len(),
{
    let b2 = bundle.push((kind, v));
    if bundle.len() == 0 {
        assert(b2[0] == (kind, v));
        assert(b2.skip(1) =~= Seq::<(u64, C)>::empty());
        assert(spec_add_component_rel(p0, post, b2[0].0, e, b2[0].1));
        assert(spec_add_all_rel(post, e, b2.skip(1), post));
    } else {
        let m = choose|m: App<C, R>|
            #[trigger] spec_add_component_rel(p0, m, bundle[0].0, e, bundle[0].1)
                && spec_add_all_rel(m, e, bundle.skip(1), mid);
        lemma_add_all_snoc(m, mid, post, e, bundle.skip(1), kind, v);
        assert(bundle.skip(1).push((kind, v)) =~= b2.skip(1));
        assert(b2[0] == bundle[0]);
        assert(spec_add_component_rel(p0, m, b2[0].0, e, b2[0].1));
    }
}

/// Chaining one more detachment onto a detach chain.
proof fn lemma_remove_all_snoc<C, R>(
    p0: App<C, R>,
    mid: App<C, R>,
    post: App<C, R>,
    e: Entity,
    kinds: Seq<u64>,
    kind: u64,
    r: Option<C>,
) where C: Component, R: Resource
    requires
        spec_remove_all_rel(p0, e, kinds, mid),
        spec_remove_component_rel(mid, post, kind, e, r),
    ensures
        spec_remove_all_rel(p0, e, kinds.push(kind), post),
    decreases kinds.len(),
{
    let k2 = kinds.push(kind);
    if kinds.len() == 0 {
        assert(k2[0] == kind);
        assert(k2.skip(1) =~= Seq::<u64>::empty());
        assert(spec_remove_component_rel(p0, post, k2[0], e, r));
        assert(spec_remove_all_rel(post, e, k2.skip(1), post));
    } else {
        let (m, r0) = choose|m: App<C, R>, r0: Option<C>|
            #[trigger] spec_remove_component_rel(p0, m, kinds[0], e, r0) && spec_remove_all_rel(
                m,
                e,
                kinds.skip(1),
                mid,
            );
        lemma_remove_all_snoc(m, mid, post, e, kinds.skip(1), kind, r);
        assert(kinds.skip(1).push(kind) =~= k2.skip(1));
        assert(k2[0] == kinds[0]);
        assert(spec_remove_component_rel(p0, m, k2[0], e, r0));
    }
}

/// Chaining one more command onto an application chain.
proof fn lemma_apply_all_snoc<C, R>(
    p0: App<C, R>,
    mid: App<C, R>,
    post: App<C, R>,
    cmds: Seq<Command<C>>,
    cmd: Command<C>,
) where C: Component, R: Resource
    requires
        spec_apply_all_rel(p0, cmds, mid),
        spec_apply_rel(mid, cmd, post),
    ensures
        spec_apply_all_rel(p0, cmds.push(cmd), post),
    decreases cmds.len(),
{
    let c2 = cmds.push(cmd);
    if cmds.len() == 0 {
        assert(c2[0] == cmd);
        assert(c2.skip(1) =~= Seq::<Command<C>>::empty());
        assert(spec_apply_rel(p0, c2[0], post));
        assert(spec_apply_all_rel(post, c2.skip(1), post));
    } else {
        let m = choose|m: App<C, R>|
            #[trigger] spec_apply_rel(p0, cmds[0], m) && spec_apply_all_rel(m, cmds.skip(1), mid);
        lemma_apply_all_snoc(m, mid, post, cmds.skip(1), cmd);
        assert(cmds.skip(1).push(cmd) =~= c2.skip(1));
        assert(c2[0] == cmds[0]);
        assert(spec_apply_rel(p0, c2[0], m));
    }
}

impl<C, R> App<C, R> where C: Component, R: Resource {
    /// Whether allocation can revive or append a slot without the
    /// revived generation overflowing.
    pub fn can_create(&self) -> (r: bool)
        ensures
            r == self.spec_can_create(),
    {
        self.entities.next_free_entity >= self.entities.entities.len()
            || self.entities.entities[self.entities.next_free_entity].generation < usize::MAX
    }

    /// Checks the `App`'s structures out into a run-state bundle with a
    /// fresh command queue; the `App` keeps only the clock until
    /// `finish_run` brings everything back.
    pub fn begin_run(&mut self) -> (s: SystemRunState<C, R>)
        requires
            old(self).wf(),
        ensures
            s.wf(),
            s.spec_app() == (App {
                resources: old(self).resources,
                entities: old(self).entities,
                components: old(self).components,
                current_tick: old(self).current_tick,
            }),
            s.commands.commands@.len() == 0,
            final(self).wf(),
            final(self).current_tick == old(self).current_tick,
    {
        let mut resources: KindMap<ResourceContainer<R>> = KindMap::new();
        let mut entities: EntityMap = EntityMap::new();
        let mut components: KindMap<ComponentContainer<C>> = KindMap::new();
        std::mem::swap(&mut self.resources, &mut resources);
        std::mem::swap(&mut self.entities, &mut entities);
        std::mem::swap(&mut self.components, &mut components);
        let current_tick = self.current_tick;
        SystemRunState { resources, entities, components, commands: Commands::new(), current_tick }
    }

    /// Brings the structures back from a finished run and drains the
    /// queued commands into the `App`, in exactly the order the systems
    /// queued them, before anything else can run.
    pub fn finish_run(&mut self, state: SystemRunState<C, R>)
        requires
            state.wf(),
        ensures
            final(self).wf(),
            spec_apply_all_rel(state.spec_app(), state.commands.commands@, *final(self)),
    {
        let SystemRunState { resources, entities, components, commands, current_tick } = state;
        self.resources = resources;
        self.entities = entities;
        self.components = components;
        self.current_tick = current_tick;
        let ghost start = *self;
        let ghost queue = commands.commands@;
        let mut remaining = commands.commands;
        let mut i: usize = 0;
        let n = remaining.len();
        while i < n
            invariant
                i <= n,
                n == queue.len(),
                remaining@ == queue.skip(i as int),
                self.wf(),
                forall|j: int| 0 <= j < queue.len() ==> (#[trigger] queue[j]).wf(),
                spec_apply_all_rel(start, queue.take(i as int), *self),
            decreases n - i,
        {
            let ghost sofar = *self;
            let cmd = remaining.remove(0);
            proof {
                assert(cmd == queue[i as int]);
                assert(remaining@ =~= queue.skip(i + 1int));
            }
            self.apply_command(cmd);
            proof {
                lemma_apply_all_snoc(start, sofar, *self, queue.take(i as int), queue[i as int]);
                assert(queue.take(i as int).push(queue[i as int]) =~= queue.take(i + 1int));
            }
            i = i + 1;
        }
        proof {
            assert(queue.take(n as int) == queue);
        }
    }

    /// Applies one deferred command, as `spec_apply_rel` says.
    pub fn apply_command(&mut self, cmd: Command<C>)
        requires
            old(self).wf(),
            cmd.wf(),
        ensures
            final(self).wf(),
            spec_apply_rel(*old(self), cmd, *final(self)),
    {
        match cmd {
            Command::CreateEntity { bundle } => {
                if self.can_create() {
                    let entity = self.create_entity();
                    self.add_bundle(entity, bundle);
                } else {
                    proof {
                        assert(spec_apply_rel(
                            *old(self),
                            Command::CreateEntity { bundle },
                            *final(self),
                        ));
                    }
                }
            },
            Command::DestroyEntity { entity } => {
                self.destroy_entity(entity);
            },
            Command::AddComponents { entity, bundle } => {
                self.add_bundle(entity, bundle);
            },
            Command::RemoveComponents { entity, kinds } => {
                self.remove_kinds(entity, kinds);
            },
        }
    }

    /// Attaches each `(kind, value)` pair of the bundle in order.
    pub fn add_bundle(&mut self, entity: Entity, bundle: Vec<(u64, C)>)
        requires
            old(self).wf(),
            crate::entities::alive_generation(entity.generation),
        ensures
            final(self).wf(),
            spec_add_all_rel(*old(self), entity, bundle@, *final(self)),
    {
        let ghost orig = bundle@;
        let ghost start = *self;
        let mut remaining = bundle;
        let mut i: usize = 0;
        let n = remaining.len();
        while i < n
            invariant
                i <= n,
                n == orig.len(),
                remaining@ == orig.skip(i as int),
                self.wf(),
                crate::entities::alive_generation(entity.generation),
                spec_add_all_rel(start, entity, orig.take(i as int), *self),
            decreases n - i,
        {
            let ghost sofar = *self;
            let (kind, value) = remaining.remove(0);
            proof {
                assert((kind, value) == orig[i as int]);
                assert(remaining@ =~= orig.skip(i + 1int));
            }
            self.add_component(kind, entity, value);
            proof {
                lemma_add_all_snoc(
                    start,
                    sofar,
                    *self,
                    entity,
                    orig.take(i as int),
                    kind,
                    value,
                );
                assert(orig.take(i as int).push((kind, value)) =~= orig.take(i + 1int));
            }
            i = i + 1;
        }
        proof {
            assert(orig.take(n as int) == orig);
        }
    }

    /// Detaches each listed kind in order.
    pub fn remove_kinds(&mut self, entity: Entity, kinds: Vec<u64>)
        requires
            old(self).wf(),
        ensures
            final(self).wf(),
            spec_remove_all_rel(*old(self), entity, kinds@, *final(self)),
    {
        let ghost orig = kinds@;
        let ghost start = *self;
        let mut remaining = kinds;
        let mut i: usize = 0;
        let n = remaining.len();
        while i < n
            invariant
                i <= n,
                n == orig.len(),
                remaining@ == orig.skip(i as int),
                self.wf(),
                spec_remove_all_rel(start, entity, orig.take(i as int), *self),
            decreases n - i,
        {
            let ghost sofar = *self;
            let kind = remaining.remove(0);
            proof {
                assert(kind == orig[i as int]);
                assert(remaining@ =~= orig.skip(i + 1int));
            }
            let r = self.remove_component(kind, entity);
            proof {
                lemma_remove_all_snoc(
                    start,
                    sofar,
                    *self,
                    entity,
                    orig.take(i as int),
                    kind,
                    r,
                );
                assert(orig.take(i as int).push(kind) =~= orig.take(i + 1int));
            }
            i = i + 1;
        }
        proof {
            assert(orig.take(n as int) == orig);
        }
    }
}

} // verus!
