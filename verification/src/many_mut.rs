use crate::component::Component;
use crate::component_container::{ComponentContainer, ComponentSlot};
use crate::entities::{alive_generation, Entity};
use vstd::pervasive::unreached;
use vstd::prelude::*;

verus! {

/// An aliasing-safe bundle of write views over pairwise-distinct rows of
/// one component table, produced by `ComponentContainer::get_many_mut`.
/// The i-th view is addressed by its position in the handle array the
/// caller passed in.
pub struct RefManyMut<'a, C> where C: Component {
    pub container: &'a mut ComponentContainer<C>,
    pub ids: Vec<usize>,
    pub last_run_tick: u64,
    pub current_tick: u64,
}

impl<'a, C> RefManyMut<'a, C> where C: Component {
    /// Every addressed row is present, and no two positions address the
    /// same row.
    pub open spec fn wf(self) -> bool {
        &&& forall|i: int|
            0 <= i < self.ids@.len() ==> (#[trigger] self.ids@[i]) < (
            *self.container).components@.len()
        &&& forall|i: int|
            0 <= i < self.ids@.len() ==> (*self.container).components@[#[trigger] self.ids@[i] as int] is Some
        &&& forall|i: int, j: int| 0 <= i < j < self.ids@.len() ==> self.ids@[i] != self.ids@[j]
    }

    /// How many write views the bundle holds.
    pub fn len(&self) -> (r: usize)
        ensures
            r == self.ids@.len(),
    {
        self.ids.len()
    }

    /// Reads the component behind the view at position `i`.
    pub fn get(&self, i: usize) -> (r: &C)
        requires
            self.wf(),
            i < self.ids@.len(),
        ensures
            *r == (*old(self.container)).components@[self.ids@[i as int] as int].unwrap().component,
    {
        match &self.container.components[self.ids[i]] {
            Some(slot) => &slot.component,
            None => unreached(),
        }
    }

    /// Whether the row at position `i` was written through a tracking
    /// view since the owning system last ran.
    pub fn get_modified(&self, i: usize) -> (r: bool)
        requires
            self.wf(),
            i < self.ids@.len(),
        ensures
            r == (self.last_run_tick < (*old(self.container)).components@[self.ids@[i as int] as int].unwrap().last_modified_tick),
    {
        match &self.container.components[self.ids[i]] {
            Some(slot) => self.last_run_tick < slot.last_modified_tick,
            None => unreached(),
        }
    }

    /// Writes the component at position `i` and stamps its row with the
    /// current tick. Rows at other positions are untouched.
    pub fn set(&mut self, i: usize, value: C)
        requires
            old(self).wf(),
            i < old(self).ids@.len(),
        ensures
            final(self).ids == old(self).ids,
            final(self).last_run_tick == old(self).last_run_tick,
            final(self).current_tick == old(self).current_tick,
            final(self).wf(),
            (*final(self).container).components@ == (*old(old(self).container)).components@.update(
                old(self).ids@[i as int] as int,
                Some(
                    ComponentSlot {
                        generation: (*old(old(self).container)).components@[old(self).ids@[i as int] as int].unwrap().generation,
                        component: value,
                        last_modified_tick: old(self).current_tick,
                    },
                ),
            ),
    {
        let id = self.ids[i];
        let current_tick = self.current_tick;
        match &mut self.container.components[id] {
            Some(slot) => {
                slot.component = value;
                slot.last_modified_tick = current_tick;
            },
            None => {},
        }
    }

    /// Writes the component at position `i` without counting as a
    /// tracked write: the row's tick stays what it was.
    pub fn silently_set(&mut self, i: usize, value: C)
        requires
            old(self).wf(),
            i < old(self).ids@.len(),
        ensures
            final(self).ids == old(self).ids,
            final(self).last_run_tick == old(self).last_run_tick,
            final(self).current_tick == old(self).current_tick,
            final(self).wf(),
            (*final(self).container).components@ == (*old(old(self).container)).components@.update(
                old(self).ids@[i as int] as int,
                Some(
                    ComponentSlot {
                        generation: (*old(old(self).container)).components@[old(self).ids@[i as int] as int].unwrap().generation,
                        component: value,
                        last_modified_tick: (*old(old(self).container)).components@[old(self).ids@[i as int] as int].unwrap().last_modified_tick,
                    },
                ),
            ),
    {
        let id = self.ids[i];
        match &mut self.container.components[id] {
            Some(slot) => {
                slot.component = value;
            },
            None => {},
        }
    }
}

impl<C> ComponentContainer<C> where C: Component {
    /// All handles address present rows of their own generation, and no
    /// two handles share an id.
    pub open spec fn spec_many_valid(self, es: Seq<Entity>) -> bool {
        &&& forall|i: int| 0 <= i < es.len() ==> self.has_slot_for(#[trigger] es[i])
        &&& forall|i: int, j: int| 0 <= i < j < es.len() ==> es[i].id != es[j].id
    }

    /// Write views for every handle in `entities`, in input order, or
    /// `None` as soon as one handle is out of range, of the wrong
    /// generation, or a duplicate of an earlier one. Duplicates are found
    /// in one forward pass by temporarily setting the low bit of each
    /// visited row's generation; the marks are cleared again on every
    /// path, so a failed call leaves the table exactly as it was.
    pub fn get_many_mut<'a>(
        &'a mut self,
        last_run_tick: u64,
        current_tick: u64,
        entities: &Vec<Entity>,
    ) -> (r: Option<RefManyMut<'a, C>>)
        requires
            forall|i: int|
                0 <= i < entities@.len() ==> alive_generation(
                    (#[trigger] entities@[i]).generation,
                ),
        ensures
            r is Some <==> old(self).spec_many_valid(entities@),
            r is None ==> final(self).components@ == old(self).components@,
            r is Some ==> {
                &&& r.unwrap().ids@.len() == entities@.len()
                &&& forall|i: int|
                    0 <= i < entities@.len() ==> r.unwrap().ids@[i] == (
                    #[trigger] entities@[i]).id
                &&& r.unwrap().last_run_tick == last_run_tick
                &&& r.unwrap().current_tick == current_tick
                &&& r.unwrap().wf()
                &&& (*r.unwrap().container).components@ == old(self).components@
            },
    {
        let ghost pre = self.components@;
        let n = entities.len();
        let mut i: usize = 0;
        let mut ok = true;

        // First pass: validate each handle against the table and mark its
        // row by setting the generation's low bit. A handle whose row is
        // already marked meets an odd generation, fails the even/odd
        // comparison, and is thereby caught as a duplicate.
        while ok && i < n
            invariant
                i <= n,
                n == entities@.len(),
                forall|k: int|
                    0 <= k < entities@.len() ==> alive_generation(
                        (#[trigger] entities@[k]).generation,
                    ),
                self.components@.len() == pre.len(),
                forall|k: int, l: int| 0 <= k < l < i ==> entities@[k].id != entities@[l].id,
                forall|k: int|
                    0 <= k < i ==> {
                        &&& (#[trigger] entities@[k]).id < pre.len()
                        &&& pre[entities@[k].id as int] is Some
                        &&& pre[entities@[k].id as int].unwrap().generation == entities@[k].generation
                        &&& self.components@[entities@[k].id as int] == Some(
                            ComponentSlot {
                                generation: (entities@[k].generation + 1) as usize,
                                component: pre[entities@[k].id as int].unwrap().component,
                                last_modified_tick: pre[entities@[k].id as int].unwrap().last_modified_tick,
                            },
                        )
                    },
                forall|idx: int|
                    0 <= idx < pre.len() && (forall|k: int|
                        0 <= k < i ==> (#[trigger] entities@[k]).id != idx) ==> self.components@[idx]
                        == pre[idx],
                !ok ==> i < n && !({
                    &&& entities@[i as int].id < pre.len()
                    &&& pre[entities@[i as int].id as int] is Some
                    &&& pre[entities@[i as int].id as int].unwrap().generation == entities@[i as int].generation
                    &&& forall|k: int| 0 <= k < i ==> entities@[k].id != entities@[i as int].id
                }),
            decreases n - i + (if ok { 1int } else { 0int }),
        {
            let e = entities[i];
            let mut good = e.id < self.components.len();
            if good {
                good = match &self.components[e.id] {
                    Some(slot) => slot.generation == e.generation,
                    None => false,
                };
            }
            if good {
                proof {
                    assert(e.generation % 2 == 0);
                    assert forall|k: int| 0 <= k < i implies entities@[k].id != e.id by {
                        if entities@[k].id == e.id {
                            assert(self.components@[e.id as int].unwrap().generation == entities@[k].generation + 1);
                        }
                    }
                    assert(self.components@[e.id as int] == pre[e.id as int]);
                    assert(e.generation < usize::MAX);
                }
                match &mut self.components[e.id] {
                    Some(slot) => {
                        slot.generation = slot.generation + 1;
                    },
                    None => {},
                }
                i = i + 1;
            } else {
                ok = false;
            }
        }

        // Second pass: clear every mark, whether or not the check
        // succeeded, restoring each visited generation to its old value.
        let mut j: usize = 0;
        while j < i
            invariant
                j <= i <= n,
                n == entities@.len(),
                self.components@.len() == pre.len(),
                forall|k: int, l: int| 0 <= k < l < i ==> entities@[k].id != entities@[l].id,
                forall|k: int|
                    0 <= k < i ==> {
                        &&& (#[trigger] entities@[k]).id < pre.len()
                        &&& pre[entities@[k].id as int] is Some
                        &&& pre[entities@[k].id as int].unwrap().generation == entities@[k].generation
                    },
                forall|k: int|
                    j <= k < i ==> self.components@[(#[trigger] entities@[k]).id as int] == Some(
                        ComponentSlot {
                            generation: (entities@[k].generation + 1) as usize,
                            component: pre[entities@[k].id as int].unwrap().component,
                            last_modified_tick: pre[entities@[k].id as int].unwrap().last_modified_tick,
                        },
                    ),
                forall|k: int|
                    0 <= k < j ==> self.components@[(#[trigger] entities@[k]).id as int] == pre[entities@[k].id as int],
                forall|idx: int|
                    0 <= idx < pre.len() && (forall|k: int|
                        0 <= k < i ==> (#[trigger] entities@[k]).id != idx) ==> self.components@[idx]
                        == pre[idx],
                forall|k: int|
                    0 <= k < entities@.len() ==> alive_generation(
                        (#[trigger] entities@[k]).generation,
                    ),
            decreases i - j,
        {
            let e = entities[j];
            proof {
                assert(e.generation < usize::MAX);
            }
            match &mut self.components[e.id] {
                Some(slot) => {
                    slot.generation = slot.generation - 1;
                },
                None => {},
            }
            proof {
                assert(self.components@[e.id as int] =~= pre[e.id as int]);
            }
            j = j + 1;
        }
        proof {
            assert forall|idx: int| 0 <= idx < pre.len() implies self.components@[idx] == pre[idx] by {
                if exists|k: int| 0 <= k < i && (#[trigger] entities@[k]).id == idx {
                } else {
                }
            }
            assert(self.components@ =~= pre);
        }

        if ok {
            let mut ids: Vec<usize> = Vec::new();
            let mut k: usize = 0;
            while k < n
                invariant
                    k <= n,
                    n == entities@.len(),
                    ids@.len() == k,
                    forall|l: int| 0 <= l < k ==> ids@[l] == (#[trigger] entities@[l]).id,
                decreases n - k,
            {
                ids.push(entities[k].id);
                k = k + 1;
            }
            proof {
                assert(self.components@ == pre);
                assert forall|a: int, b: int| 0 <= a < b < ids@.len() implies ids@[a] != ids@[b] by {
                    assert(ids@[a] == entities@[a].id);
                    assert(ids@[b] == entities@[b].id);
                }
                assert forall|a: int|
                    0 <= a < ids@.len() implies ids@[a] < self.components@.len()
                        && self.components@[ids@[a] as int] is Some by {
                    assert(ids@[a] == entities@[a].id);
                    assert(pre[entities@[a].id as int] is Some);
                }
            }
            Some(RefManyMut { container: self, ids, last_run_tick, current_tick })
        } else {
            None
        }
    }
}

} // verus!
