use vstd::prelude::*;

verus! {

broadcast use vstd::seq_lib::group_seq_properties;

/// A handle for components to be attached to.
///
/// A handle pairs an index into the entity registry with a generation
/// counter, so that a recycled slot never matches a stale handle.
/// Handles handed out by the registry always carry an even generation;
/// a slot whose stored generation is odd is dead.
#[derive(Debug, Clone, Copy, PartialEq, Eq, Structural, Hash, PartialOrd, Ord)]
pub struct Entity {
    pub id: usize,
    pub generation: usize,
}

/// One slot of the registry: the stored generation and the set of
/// component kinds currently attached to the entity living in the slot.
pub struct EntitySlot {
    pub generation: usize,
    pub components: Vec<u64>,
}

/// The entity registry: a slot per id, plus a cursor that points at the
/// smallest id that is either dead or one past the end.
pub struct EntityMap {
    pub entities: Vec<EntitySlot>,
    pub next_free_entity: usize,
}

/// A generation denotes a live entity iff its low bit is clear.
pub open spec fn alive_generation(g: usize) -> bool {
    g % 2 == 0
}

impl EntitySlot {
    /// The attached component kinds, with no kind listed twice.
    pub open spec fn wf(self) -> bool {
        forall|j: int, k: int|
            0 <= j < k < self.components@.len() ==> self.components@[j] != self.components@[k]
    }

    pub open spec fn attached(self) -> Set<u64> {
        self.components@.to_set()
    }
}

impl EntityMap {
    /// Registry invariant: the cursor is at the first dead slot (or at the
    /// end), every generation is at least 2, and attached sets hold no
    /// duplicates.
    pub open spec fn wf(self) -> bool {
        &&& self.next_free_entity <= self.entities@.len()
        &&& forall|i: int|
            0 <= i < self.next_free_entity ==> alive_generation(
                #[trigger] self.entities@[i].generation,
            )
        &&& (self.next_free_entity < self.entities@.len() ==> !alive_generation(
            self.entities@[self.next_free_entity as int].generation,
        ))
        &&& forall|i: int| 0 <= i < self.entities@.len() ==> self.entities@[i].generation >= 2
        &&& forall|i: int| 0 <= i < self.entities@.len() ==> (#[trigger] self.entities@[i]).wf()
    }

    /// A handle exists iff its slot is present and stores its generation.
    pub open spec fn spec_exists(self, entity: Entity) -> bool {
        &&& entity.id < self.entities@.len()
        &&& self.entities@[entity.id as int].generation == entity.generation
    }

    /// The set of component kinds attached to the slot of `entity`.
    pub open spec fn spec_attached(self, entity: Entity) -> Set<u64> {
        self.entities@[entity.id as int].attached()
    }

    pub fn new() -> (r: Self)
        ensures
            r.wf(),
            r.entities@.len() == 0,
            r.next_free_entity == 0,
    {
        EntityMap { entities: Vec::new(), next_free_entity: 0 }
    }

    /// Allocates a handle: revives the first dead slot if there is one,
    /// otherwise appends a new slot with generation 2.
    ///
    /// On a registry with at least one dead slot the lowest dead id is
    /// reused and the new generation is the old one plus 1 (even again),
    /// so the handle differs from every handle previously stored there.
    pub fn create_entity(&mut self) -> (r: Entity)
        requires
            old(self).wf(),
            old(self).next_free_entity < old(self).entities@.len()
                ==> old(self).entities@[old(self).next_free_entity as int].generation < usize::MAX,
        ensures
            final(self).wf(),
            final(self).spec_exists(r),
            !old(self).spec_exists(r),
            alive_generation(r.generation),
            if old(self).next_free_entity < old(self).entities@.len() {
                &&& r.id == old(self).next_free_entity
                &&& r.generation == old(self).entities@[r.id as int].generation + 1
                &&& final(self).entities@.len() == old(self).entities@.len()
                &&& final(self).entities@[r.id as int].components == old(self).entities@[r.id as int].components
            } else {
                &&& r.id == old(self).entities@.len()
                &&& r.generation == 2
                &&& final(self).entities@.len() == old(self).entities@.len() + 1
                &&& final(self).entities@[r.id as int].components@.len() == 0
                &&& final(self).next_free_entity == final(self).entities@.len()
            },
            final(self).entities@[r.id as int].generation == r.generation,
            forall|i: int|
                0 <= i < old(self).entities@.len() && i != r.id
                    ==> final(self).entities@[i] == old(self).entities@[i],
            forall|h: Entity|
                h.id != r.id ==> final(self).spec_exists(h) == old(self).spec_exists(h),
            forall|i: int|
                0 <= i < old(self).entities@.len()
                    ==> final(self).entities@[i].generation >= old(self).entities@[i].generation,
    {
        let id = self.next_free_entity;
        if id < self.entities.len() {
            let generation = self.entities[id].generation + 1;
            self.entities[id].generation = generation;

            while self.next_free_entity < self.entities.len()
                && self.entities[self.next_free_entity].generation % 2 == 0
                invariant
                    id <= self.next_free_entity <= self.entities@.len(),
                    generation % 2 == 0,
                    self.entities@.len() == old(self).entities@.len(),
                    self.entities@[id as int].generation == generation,
                    self.entities@[id as int].components == old(self).entities@[id as int].components,
                    forall|i: int|
                        0 <= i < self.entities@.len() && i != id
                            ==> self.entities@[i] == old(self).entities@[i],
                    forall|i: int|
                        0 <= i < self.next_free_entity ==> alive_generation(
                            #[trigger] self.entities@[i].generation,
                        ),
                decreases self.entities@.len() - self.next_free_entity,
            {
                self.next_free_entity = self.next_free_entity + 1;
            }

            Entity { id, generation }
        } else {
            self.entities.push(EntitySlot { generation: 2, components: Vec::new() });
            self.next_free_entity = self.entities.len();
            Entity { id, generation: 2 }
        }
    }

    /// Kills the handle's slot and yields the kinds that were attached,
    /// or returns `None` when the handle does not exist. The stored
    /// generation gets its low bit set, so no handle with an even
    /// generation matches the slot afterwards.
    pub fn destroy_entity(&mut self, entity: Entity) -> (r: Option<Vec<u64>>)
        requires
            old(self).wf(),
        ensures
            final(self).wf(),
            old(self).spec_exists(entity) ==> {
                &&& r is Some
                &&& r.unwrap()@ == old(self).entities@[entity.id as int].components@
                &&& final(self).entities@[entity.id as int].generation == (if alive_generation(
                    entity.generation,
                ) {
                    entity.generation + 1
                } else {
                    entity.generation as int
                })
                &&& final(self).entities@[entity.id as int].components@.len() == 0
                &&& final(self).entities@.len() == old(self).entities@.len()
                &&& final(self).next_free_entity == (if entity.id < old(self).next_free_entity {
                    entity.id as int
                } else {
                    old(self).next_free_entity as int
                })
                &&& forall|i: int|
                    0 <= i < old(self).entities@.len() && i != entity.id
                        ==> final(self).entities@[i] == old(self).entities@[i]
                &&& forall|h: Entity|
                    alive_generation(h.generation) && h.id == entity.id ==> !final(self).spec_exists(h)
                &&& forall|h: Entity|
                    h.id != entity.id ==> final(self).spec_exists(h) == old(self).spec_exists(h)
            },
            !old(self).spec_exists(entity) ==> r is None && *final(self) == *old(self),
    {
        if self.entity_exists(entity) {
            let generation = self.entities[entity.id].generation;
            if generation % 2 == 0 {
                self.entities[entity.id].generation = generation + 1;
            }
            if entity.id < self.next_free_entity {
                self.next_free_entity = entity.id;
            }
            let mut components: Vec<u64> = Vec::new();
            std::mem::swap(&mut self.entities[entity.id].components, &mut components);
            Some(components)
        } else {
            None
        }
    }

    /// A handle exists iff its slot is present and stores its generation.
    pub fn entity_exists(&self, entity: Entity) -> (r: bool)
        ensures
            r == self.spec_exists(entity),
    {
        entity.id < self.entities.len() && self.entities[entity.id].generation
            == entity.generation
    }

    /// Records that a component of kind `component_type` is attached to
    /// the entity. The attached set gains the kind; nothing else moves.
    pub fn add_component(&mut self, entity: Entity, component_type: u64)
        requires
            old(self).wf(),
            old(self).spec_exists(entity),
        ensures
            final(self).wf(),
            final(self).entities@.len() == old(self).entities@.len(),
            final(self).next_free_entity == old(self).next_free_entity,
            final(self).entities@[entity.id as int].generation == old(self).entities@[entity.id as int].generation,
            final(self).spec_attached(entity) == old(self).spec_attached(entity).insert(
                component_type,
            ),
            forall|i: int|
                0 <= i < old(self).entities@.len() && i != entity.id
                    ==> final(self).entities@[i] == old(self).entities@[i],
    {
        let ghost pre = self.entities@[entity.id as int].components@;
        let n = self.entities[entity.id].components.len();
        let mut i: usize = 0;
        while i < n
            invariant
                old(self).wf(),
                old(self).spec_exists(entity),
                *self == *old(self),
                pre == self.entities@[entity.id as int].components@,
                entity.id < self.entities@.len(),
                n == pre.len(),
                i <= n,
                forall|j: int| 0 <= j < i ==> pre[j] != component_type,
            decreases n - i,
        {
            if self.entities[entity.id].components[i] == component_type {
                proof {
                    assert(pre.to_set().contains(component_type));
                    assert(old(self).spec_attached(entity).insert(component_type) =~= old(self).spec_attached(entity));
                }
                return ;
            }
            i = i + 1;
        }
        self.entities[entity.id].components.push(component_type);
        proof {
            assert(self.entities@[entity.id as int].components@ == pre.push(component_type));
            pre.lemma_push_to_set_commute(component_type);
        }
    }

    /// Removes a component kind from the entity's attached set.
    pub fn remove_component(&mut self, entity: Entity, component_type: u64)
        requires
            old(self).wf(),
            old(self).spec_exists(entity),
        ensures
            final(self).wf(),
            final(self).entities@.len() == old(self).entities@.len(),
            final(self).next_free_entity == old(self).next_free_entity,
            final(self).entities@[entity.id as int].generation == old(self).entities@[entity.id as int].generation,
            final(self).spec_attached(entity) == old(self).spec_attached(entity).remove(
                component_type,
            ),
            final(self).entities@[entity.id as int].components@.len() <= old(self).entities@[entity.id as int].components@.len(),
            forall|i: int|
                0 <= i < old(self).entities@.len() && i != entity.id
                    ==> final(self).entities@[i] == old(self).entities@[i],
    {
        let ghost pre = self.entities@[entity.id as int].components@;
        let n = self.entities[entity.id].components.len();
        let mut i: usize = 0;
        while i < n
            invariant
                old(self).wf(),
                old(self).spec_exists(entity),
                *self == *old(self),
                pre == self.entities@[entity.id as int].components@,
                entity.id < self.entities@.len(),
                n == pre.len(),
                i <= n,
                forall|j: int| 0 <= j < i ==> pre[j] != component_type,
            decreases n - i,
        {
            if self.entities[entity.id].components[i] == component_type {
                self.entities[entity.id].components.remove(i);
                proof {
                    assert(old(self).entities@[entity.id as int].wf());
                    lemma_remove_unique_to_set(pre, component_type, i as int);
                }
                return ;
            }
            i = i + 1;
        }
        proof {
            assert(!pre.to_set().contains(component_type));
            assert(old(self).spec_attached(entity).remove(component_type) =~= old(self).spec_attached(entity));
        }
    }

    /// One entry per slot in id order: the live handle, or `None` for a
    /// dead slot, so a consumer can zip this against a component table.
    pub fn iter(&self) -> (r: Vec<Option<Entity>>)
        ensures
            r@.len() == self.entities@.len(),
            forall|i: int|
                0 <= i < r@.len() ==> r@[i] == (if alive_generation(
                    self.entities@[i].generation,
                ) {
                    Some(Entity { id: i as usize, generation: self.entities@[i].generation })
                } else {
                    None::<Entity>
                }),
    {
        let mut r: Vec<Option<Entity>> = Vec::new();
        let mut i: usize = 0;
        let n = self.entities.len();
        while i < n
            invariant
                n == self.entities@.len(),
                i <= n,
                r@.len() == i,
                forall|j: int|
                    0 <= j < i ==> r@[j] == (if alive_generation(self.entities@[j].generation) {
                        Some(Entity { id: j as usize, generation: self.entities@[j].generation })
                    } else {
                        None::<Entity>
                    }),
            decreases n - i,
        {
            let generation = self.entities[i].generation;
            if generation % 2 == 0 {
                r.push(Some(Entity { id: i, generation }));
            } else {
                r.push(None);
            }
            i = i + 1;
        }
        r
    }
}

impl Default for EntityMap {
    fn default() -> (r: Self)
        ensures
            r.wf(),
            r.entities@.len() == 0,
            r.next_free_entity == 0,
    {
        EntityMap::new()
    }
}

/// A read-only view of the registry handed to systems: every structural
/// mutation is deferred through commands instead.
#[derive(Clone, Copy)]
pub struct Entities<'a> {
    pub entities: &'a EntityMap,
}

impl<'a> Entities<'a> {
    pub fn new(entities: &'a EntityMap) -> (r: Entities<'a>)
        ensures
            r.entities == entities,
    {
        Entities { entities }
    }

    /// A handle exists iff its slot is present and stores its
    /// generation.
    pub fn entity_exists(&self, entity: Entity) -> (r: bool)
        ensures
            r == self.entities.spec_exists(entity),
    {
        self.entities.entity_exists(entity)
    }

    /// Every currently-alive handle, in id order.
    pub fn iter(&self) -> (r: Vec<Entity>)
        ensures
            forall|k: int|
                0 <= k < r@.len() ==> {
                    &&& (#[trigger] r@[k]).id < self.entities.entities@.len()
                    &&& r@[k].generation == self.entities.entities@[r@[k].id as int].generation
                    &&& alive_generation(r@[k].generation)
                },
            forall|k1: int, k2: int| 0 <= k1 < k2 < r@.len() ==> r@[k1].id < r@[k2].id,
            forall|i: int|
                0 <= i < self.entities.entities@.len() && alive_generation(
                    (#[trigger] self.entities.entities@[i]).generation,
                ) ==> exists|k: int| 0 <= k < r@.len() && (#[trigger] r@[k]).id == i,
    {
        let mut r: Vec<Entity> = Vec::new();
        let mut i: usize = 0;
        let n = self.entities.entities.len();
        while i < n
            invariant
                n == self.entities.entities@.len(),
                i <= n,
                forall|k: int|
                    0 <= k < r@.len() ==> {
                        &&& (#[trigger] r@[k]).id < i
                        &&& r@[k].generation == self.entities.entities@[r@[k].id as int].generation
                        &&& alive_generation(r@[k].generation)
                    },
                forall|k1: int, k2: int| 0 <= k1 < k2 < r@.len() ==> r@[k1].id < r@[k2].id,
                forall|j: int|
                    0 <= j < i && alive_generation(
                        (#[trigger] self.entities.entities@[j]).generation,
                    ) ==> exists|k: int| 0 <= k < r@.len() && (#[trigger] r@[k]).id == j,
            decreases n - i,
        {
            let generation = self.entities.entities[i].generation;
            let ghost rpre = r@;
            if generation % 2 == 0 {
                r.push(Entity { id: i, generation });
                proof {
                    assert(r@[r@.len() - 1].id == i as int);
                    assert forall|j: int|
                        0 <= j < i && alive_generation(
                            (#[trigger] self.entities.entities@[j]).generation,
                        ) implies exists|k: int| 0 <= k < r@.len() && (#[trigger] r@[k]).id
                        == j by {
                        let k = choose|k: int| 0 <= k < rpre.len() && (#[trigger] rpre[k]).id == j;
                        assert(r@[k].id == j);
                    }
                }
            }
            i = i + 1;
        }
        r
    }
}

/// Removing the only occurrence of an element from a duplicate-free
/// sequence removes exactly that element from its set of members.
proof fn lemma_remove_unique_to_set(s: Seq<u64>, elem: u64, i: int)
    requires
        0 <= i < s.len(),
        s[i] == elem,
        forall|j: int, k: int| 0 <= j < k < s.len() ==> s[j] != s[k],
    ensures
        s.remove(i).to_set() =~= s.to_set().remove(elem),
        forall|j: int, k: int|
            0 <= j < k < s.remove(i).len() ==> s.remove(i)[j] != s.remove(i)[k],
{
    let t = s.remove(i);
    assert forall|x: u64| t.to_set().contains(x) implies s.to_set().remove(elem).contains(x) by {
        let j = choose|j: int| 0 <= j < t.len() && t[j] == x;
        if j < i {
            assert(s[j] == x);
        } else {
            assert(s[j + 1] == x);
        }
    }
    assert forall|x: u64| s.to_set().remove(elem).contains(x) implies t.to_set().contains(x) by {
        let j = choose|j: int| 0 <= j < s.len() && s[j] == x;
        if j < i {
            assert(t[j] == x);
        } else if j > i {
            assert(t[j - 1] == x);
        }
    }
}

/// At any moment at most one handle per id exists, so a handle stops
/// existing exactly when its slot is destroyed or recycled: together with
/// the `create_entity` and `destroy_entity` contracts this pins
/// `entity_exists` to "the most recent handle produced at this id, not
/// since destroyed".
pub proof fn lemma_exists_unique(m: EntityMap, h1: Entity, h2: Entity)
    requires
        m.spec_exists(h1),
        m.spec_exists(h2),
        h1.id == h2.id,
    ensures
        h1 == h2,
{
}

/// Creating on a registry with a dead slot revives the lowest dead id:
/// every id below the reused one is alive.
pub proof fn lemma_create_reuses_lowest_dead(m: EntityMap)
    requires
        m.wf(),
        m.next_free_entity < m.entities@.len(),
    ensures
        !alive_generation(m.entities@[m.next_free_entity as int].generation),
        forall|i: int|
            0 <= i < m.next_free_entity ==> alive_generation(
                #[trigger] m.entities@[i].generation,
            ),
{
}

} // verus!
