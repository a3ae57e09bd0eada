use crate::entities::{alive_generation, Entity};
use vstd::prelude::*;

verus! {

/// One deferred structural edit, applied by the `App` after the wave
/// that queued it has finished. A bundle is an ordered list of
/// `(kind, value)` pairs, attached or detached in order.
pub enum Command<C> {
    CreateEntity { bundle: Vec<(u64, C)> },
    DestroyEntity { entity: Entity },
    AddComponents { entity: Entity, bundle: Vec<(u64, C)> },
    RemoveComponents { entity: Entity, kinds: Vec<u64> },
}

impl<C> Command<C> {
    /// Handles carried by a command are registry handles: their
    /// generation is even.
    pub open spec fn wf(self) -> bool {
        match self {
            Command::CreateEntity { .. } => true,
            Command::DestroyEntity { .. } => true,
            Command::AddComponents { entity, .. } => alive_generation(entity.generation),
            Command::RemoveComponents { .. } => true,
        }
    }
}

/// The deferred-command queue a system writes into. Draining applies
/// the commands in exactly the order they were queued.
///
/// The queue holds deferred edits as plain data, so there is no way to
/// defer an arbitrary state-mutating closure: Verus cannot hold a
/// stored function value to any contract. Work that none of the four
/// commands expresses is done by mutating the `App` directly between
/// runs instead.
pub struct Commands<C> {
    pub commands: Vec<Command<C>>,
}

impl<C> Commands<C> {
    pub open spec fn wf(self) -> bool {
        forall|i: int| 0 <= i < self.commands@.len() ==> (#[trigger] self.commands@[i]).wf()
    }

    pub fn new() -> (r: Self)
        ensures
            r.wf(),
            r.commands@.len() == 0,
    {
        Commands { commands: Vec::new() }
    }

    /// Defers the creation of an entity with `bundle` attached to it.
    pub fn create_entity(&mut self, bundle: Vec<(u64, C)>)
        ensures
            final(self).commands@ == old(self).commands@.push(
                Command::CreateEntity { bundle },
            ),
            old(self).wf() ==> final(self).wf(),
    {
        self.commands.push(Command::CreateEntity { bundle });
    }

    /// Defers the destruction of `entity` with all its components; a
    /// handle that is already dead makes the command a no-op.
    pub fn destroy_entity(&mut self, entity: Entity)
        ensures
            final(self).commands@ == old(self).commands@.push(
                Command::DestroyEntity { entity },
            ),
            old(self).wf() ==> final(self).wf(),
    {
        self.commands.push(Command::DestroyEntity { entity });
    }

    /// Defers attaching `bundle` to `entity`, replacing components that
    /// are already there; a dead handle makes the command a no-op.
    pub fn add_components(&mut self, entity: Entity, bundle: Vec<(u64, C)>)
        requires
            alive_generation(entity.generation),
        ensures
            final(self).commands@ == old(self).commands@.push(
                Command::AddComponents { entity, bundle },
            ),
            old(self).wf() ==> final(self).wf(),
    {
        self.commands.push(Command::AddComponents { entity, bundle });
    }

    /// Defers detaching the listed kinds from `entity`; missing
    /// components and dead handles are ignored.
    pub fn remove_components(&mut self, entity: Entity, kinds: Vec<u64>)
        ensures
            final(self).commands@ == old(self).commands@.push(
                Command::RemoveComponents { entity, kinds },
            ),
            old(self).wf() ==> final(self).wf(),
    {
        self.commands.push(Command::RemoveComponents { entity, kinds });
    }
}

} // verus!
