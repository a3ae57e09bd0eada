use crate::system::{
    check_system, spec_declares, spec_declares_mut, spec_mixed, spec_sets_conflict,
    spec_unique_ids, Borrow, BorrowType, RegistrationError, SystemWrapper,
};
use vstd::prelude::*;

verus! {

/// `outer` names every kind `inner` names, exclusively wherever `inner`
/// does.
pub open spec fn spec_covers(outer: Seq<Borrow>, inner: Seq<Borrow>) -> bool {
    &&& forall|id: u64|
        #![trigger spec_declares(inner, id)]
        spec_declares(inner, id) ==> spec_declares(outer, id)
    &&& forall|id: u64|
        #![trigger spec_declares_mut(inner, id)]
        spec_declares_mut(inner, id) ==> spec_declares_mut(outer, id)
}

/// Two systems may share a wave: neither their resource nor their
/// component declarations conflict.
pub open spec fn spec_systems_compatible(a: SystemWrapper, b: SystemWrapper) -> bool {
    &&& !spec_sets_conflict(a.resource_borrows@, b.resource_borrows@)
    &&& !spec_sets_conflict(a.component_borrows@, b.component_borrows@)
}

/// One wave: the union of its members' borrow sets and the members
/// themselves.
pub struct SystemGroup {
    pub resources: Vec<Borrow>,
    pub components: Vec<Borrow>,
    pub systems: Vec<SystemWrapper>,
}

impl SystemGroup {
    /// The wave's borrow sets are duplicate-free unions that cover every
    /// member, and the members are pairwise conflict-free.
    pub open spec fn wf(self) -> bool {
        &&& spec_unique_ids(self.resources@)
        &&& spec_unique_ids(self.components@)
        &&& forall|s: int|
            0 <= s < self.systems@.len() ==> spec_covers(
                self.resources@,
                (#[trigger] self.systems@[s]).resource_borrows@,
            ) && spec_covers(self.components@, self.systems@[s].component_borrows@)
        &&& forall|i: int, j: int|
            0 <= i < j < self.systems@.len() ==> spec_systems_compatible(
                self.systems@[i],
                self.systems@[j],
            )
    }
}

/// A new system may join the wave: its declarations conflict with
/// neither of the wave's borrow sets.
pub open spec fn spec_fits(g: SystemGroup, s: SystemWrapper) -> bool {
    &&& !spec_sets_conflict(g.resources@, s.resource_borrows@)
    &&& !spec_sets_conflict(g.components@, s.component_borrows@)
}

/// The index of the first wave the system fits into, or the number of
/// waves when it fits none.
pub open spec fn spec_first_fit(gs: Seq<SystemGroup>, s: SystemWrapper) -> int
    decreases gs.len(),
{
    if gs.len() == 0 {
        0
    } else if spec_fits(gs[0], s) {
        0
    } else {
        1 + spec_first_fit(gs.skip(1), s)
    }
}

/// An ordered sequence of waves; the systems of one wave have pairwise
/// conflict-free declarations and so may run in parallel.
pub struct SystemSet {
    pub system_groups: Vec<SystemGroup>,
}

impl SystemSet {
    pub open spec fn wf(self) -> bool {
        forall|g: int|
            0 <= g < self.system_groups@.len() ==> (#[trigger] self.system_groups@[g]).wf()
    }

    pub fn new() -> (r: Self)
        ensures
            r.wf(),
            r.system_groups@.len() == 0,
    {
        SystemSet { system_groups: Vec::new() }
    }

    /// Greedy first-fit registration: the system joins the first wave
    /// whose borrow sets its declarations do not conflict with, or opens
    /// a new wave holding exactly its own declarations. The joined
    /// wave's sets become the union, an exclusive declaration dominating
    /// a shared one of the same kind. Rejects a system that declares one
    /// kind both shared and exclusive, leaving the set untouched.
    pub fn register_system(&mut self, system: SystemWrapper) -> (r: Result<(), RegistrationError>)
        requires
            old(self).wf(),
        ensures
            final(self).wf(),
            r is Err ==> *final(self) == *old(self) && (spec_mixed(system.resource_borrows@)
                || spec_mixed(system.component_borrows@)),
            r is Ok ==> !spec_mixed(system.resource_borrows@) && !spec_mixed(
                system.component_borrows@,
            ),
            r is Ok ==> {
                let gs = old(self).system_groups@;
                let gi = spec_first_fit(gs, system);
                &&& (gi < gs.len() ==> {
                    &&& final(self).system_groups@.len() == gs.len()
                    &&& forall|h: int|
                        0 <= h < gs.len() && h != gi ==> final(self).system_groups@[h] == gs[h]
                    &&& final(self).system_groups@[gi].systems@ == gs[gi].systems@.push(system)
                    &&& forall|id: u64|
                        #![trigger spec_declares(final(self).system_groups@[gi].resources@, id)]
                        spec_declares(final(self).system_groups@[gi].resources@, id) == (
                        spec_declares(gs[gi].resources@, id) || spec_declares(
                            system.resource_borrows@,
                            id,
                        ))
                    &&& forall|id: u64|
                        #![trigger spec_declares(final(self).system_groups@[gi].components@, id)]
                        spec_declares(final(self).system_groups@[gi].components@, id) == (
                        spec_declares(gs[gi].components@, id) || spec_declares(
                            system.component_borrows@,
                            id,
                        ))
                    &&& forall|id: u64|
                        #![trigger spec_declares_mut(final(self).system_groups@[gi].resources@, id)]
                        spec_declares_mut(final(self).system_groups@[gi].resources@, id) == (
                        spec_declares_mut(gs[gi].resources@, id) || spec_declares_mut(
                            system.resource_borrows@,
                            id,
                        ))
                    &&& forall|id: u64|
                        #![trigger spec_declares_mut(final(self).system_groups@[gi].components@, id)]
                        spec_declares_mut(final(self).system_groups@[gi].components@, id) == (
                        spec_declares_mut(gs[gi].components@, id) || spec_declares_mut(
                            system.component_borrows@,
                            id,
                        ))
                })
                &&& (gi == gs.len() ==> {
                    &&& final(self).system_groups@.len() == gs.len() + 1
                    &&& forall|h: int|
                        0 <= h < gs.len() ==> final(self).system_groups@[h] == gs[h]
                    &&& final(self).system_groups@[gi].systems@ =~= seq![system]
                    &&& forall|id: u64|
                        #![trigger spec_declares(final(self).system_groups@[gi].resources@, id)]
                        spec_declares(final(self).system_groups@[gi].resources@, id)
                            == spec_declares(system.resource_borrows@, id)
                    &&& forall|id: u64|
                        #![trigger spec_declares(final(self).system_groups@[gi].components@, id)]
                        spec_declares(final(self).system_groups@[gi].components@, id)
                            == spec_declares(system.component_borrows@, id)
                    &&& forall|id: u64|
                        #![trigger spec_declares_mut(final(self).system_groups@[gi].resources@, id)]
                        spec_declares_mut(final(self).system_groups@[gi].resources@, id)
                            == spec_declares_mut(system.resource_borrows@, id)
                    &&& forall|id: u64|
                        #![trigger spec_declares_mut(final(self).system_groups@[gi].components@, id)]
                        spec_declares_mut(final(self).system_groups@[gi].components@, id)
                            == spec_declares_mut(system.component_borrows@, id)
                })
            },
    {
        let (resources, components) = match check_system(&system) {
            Ok(rc) => rc,
            Err(e) => {
                return Err(e);
            },
        };
        let ghost gs = self.system_groups@;
        let ngroups = self.system_groups.len();
        let mut g: usize = 0;
        while g < ngroups
            invariant
                old(self).wf(),
                g <= ngroups,
                *self == *old(self),
                gs == self.system_groups@,
                ngroups == gs.len(),
                forall|h: int| 0 <= h < g ==> !spec_fits(gs[h], system),
                !spec_mixed(system.resource_borrows@),
                !spec_mixed(system.component_borrows@),
                spec_unique_ids(resources@),
                spec_unique_ids(components@),
                forall|id: u64|
                    #![trigger spec_declares(resources@, id)]
                    spec_declares(resources@, id) == spec_declares(system.resource_borrows@, id),
                forall|id: u64|
                    #![trigger spec_declares_mut(resources@, id)]
                    spec_declares_mut(resources@, id) == spec_declares_mut(
                        system.resource_borrows@,
                        id,
                    ),
                forall|id: u64|
                    #![trigger spec_declares(components@, id)]
                    spec_declares(components@, id) == spec_declares(system.component_borrows@, id),
                forall|id: u64|
                    #![trigger spec_declares_mut(components@, id)]
                    spec_declares_mut(components@, id) == spec_declares_mut(
                        system.component_borrows@,
                        id,
                    ),
            decreases ngroups - g,
        {
            let fits_resources = !sets_conflict(&self.system_groups[g].resources, &system.resource_borrows);
            let fits_components = !sets_conflict(&self.system_groups[g].components, &system.component_borrows);
            if fits_resources && fits_components {
                proof {
                    lemma_first_fit_at(gs, system, g as int);
                    assert(gs[g as int].wf());
                }
                self.system_groups[g].systems.push(system);
                merge_borrows(&mut self.system_groups[g].resources, &resources);
                merge_borrows(&mut self.system_groups[g].components, &components);
                proof {
                    let gnew = self.system_groups@[g as int];
                    assert(gnew.systems@ == gs[g as int].systems@.push(system));
                    assert forall|id: u64|
                        #![trigger spec_declares(system.resource_borrows@, id)]
                        spec_declares(gnew.resources@, id) == (spec_declares(
                            gs[g as int].resources@,
                            id,
                        ) || spec_declares(system.resource_borrows@, id)) by {
                        assert(spec_declares(gnew.resources@, id) == (spec_declares(
                            gs[g as int].resources@,
                            id,
                        ) || spec_declares(resources@, id)));
                        assert(spec_declares(resources@, id) == spec_declares(
                            system.resource_borrows@,
                            id,
                        ));
                    }
                    assert forall|id: u64|
                        #![trigger spec_declares_mut(system.resource_borrows@, id)]
                        spec_declares_mut(gnew.resources@, id) == (spec_declares_mut(
                            gs[g as int].resources@,
                            id,
                        ) || spec_declares_mut(system.resource_borrows@, id)) by {
                        assert(spec_declares_mut(gnew.resources@, id) == (spec_declares_mut(
                            gs[g as int].resources@,
                            id,
                        ) || spec_declares_mut(resources@, id)));
                        assert(spec_declares_mut(resources@, id) == spec_declares_mut(
                            system.resource_borrows@,
                            id,
                        ));
                    }
                    assert forall|id: u64|
                        #![trigger spec_declares(system.component_borrows@, id)]
                        spec_declares(gnew.components@, id) == (spec_declares(
                            gs[g as int].components@,
                            id,
                        ) || spec_declares(system.component_borrows@, id)) by {
                        assert(spec_declares(gnew.components@, id) == (spec_declares(
                            gs[g as int].components@,
                            id,
                        ) || spec_declares(components@, id)));
                        assert(spec_declares(components@, id) == spec_declares(
                            system.component_borrows@,
                            id,
                        ));
                    }
                    assert forall|id: u64|
                        #![trigger spec_declares_mut(system.component_borrows@, id)]
                        spec_declares_mut(gnew.components@, id) == (spec_declares_mut(
                            gs[g as int].components@,
                            id,
                        ) || spec_declares_mut(system.component_borrows@, id)) by {
                        assert(spec_declares_mut(gnew.components@, id) == (spec_declares_mut(
                            gs[g as int].components@,
                            id,
                        ) || spec_declares_mut(components@, id)));
                        assert(spec_declares_mut(components@, id) == spec_declares_mut(
                            system.component_borrows@,
                            id,
                        ));
                    }
                    lemma_group_extended_wf(gs[g as int], *old(self), g as int, system, *self);
                }
                return Ok(());
            }
            g = g + 1;
        }
        proof {
            lemma_first_fit_none(gs, system);
        }
        let group = SystemGroup { resources, components, systems: vec![system] };
        self.system_groups.push(group);
        proof {
            assert forall|h: int|
                0 <= h < self.system_groups@.len() implies (
            #[trigger] self.system_groups@[h]).wf() by {
                if h < gs.len() {
                    assert(self.system_groups@[h] == gs[h]);
                } else {
                    let gnew = self.system_groups@[h];
                    assert(gnew.systems@.len() == 1);
                    assert(gnew.systems@[0] == system);
                }
            }
            assert(self.system_groups@[gs.len() as int].systems@ =~= seq![system]);
        }
        Ok(())
    }
}

impl Default for SystemSet {
    fn default() -> (r: Self)
        ensures
            r.wf(),
            r.system_groups@.len() == 0,
    {
        SystemSet::new()
    }
}

/// Some wave's resource set names `id`.
pub open spec fn spec_waves_declare_resource(gs: Seq<SystemGroup>, id: u64) -> bool {
    exists|g: int| 0 <= g < gs.len() && spec_declares((#[trigger] gs[g]).resources@, id)
}

/// Some wave's resource set names `id` exclusively.
pub open spec fn spec_waves_declare_resource_mut(gs: Seq<SystemGroup>, id: u64) -> bool {
    exists|g: int| 0 <= g < gs.len() && spec_declares_mut((#[trigger] gs[g]).resources@, id)
}

/// Some wave's component set names `id`.
pub open spec fn spec_waves_declare_component(gs: Seq<SystemGroup>, id: u64) -> bool {
    exists|g: int| 0 <= g < gs.len() && spec_declares((#[trigger] gs[g]).components@, id)
}

/// Some wave's component set names `id` exclusively.
pub open spec fn spec_waves_declare_component_mut(gs: Seq<SystemGroup>, id: u64) -> bool {
    exists|g: int| 0 <= g < gs.len() && spec_declares_mut((#[trigger] gs[g]).components@, id)
}

impl SystemSet {
    /// The set's aggregated resource declarations: the union over its
    /// waves, each kind once, exclusive where any wave is exclusive. A
    /// set of systems is itself registrable as one system through this.
    pub fn get_resource_types(&self) -> (r: Vec<Borrow>)
        requires
            self.wf(),
        ensures
            spec_unique_ids(r@),
            forall|id: u64|
                #![trigger spec_declares(r@, id)]
                spec_declares(r@, id) == spec_waves_declare_resource(self.system_groups@, id),
            forall|id: u64|
                #![trigger spec_declares_mut(r@, id)]
                spec_declares_mut(r@, id) == spec_waves_declare_resource_mut(
                    self.system_groups@,
                    id,
                ),
    {
        let mut acc: Vec<Borrow> = Vec::new();
        let n = self.system_groups.len();
        let mut g: usize = 0;
        while g < n
            invariant
                self.wf(),
                g <= n,
                n == self.system_groups@.len(),
                spec_unique_ids(acc@),
                forall|id: u64|
                    #![trigger spec_declares(acc@, id)]
                    spec_declares(acc@, id) == spec_waves_declare_resource(
                        self.system_groups@.take(g as int),
                        id,
                    ),
                forall|id: u64|
                    #![trigger spec_declares_mut(acc@, id)]
                    spec_declares_mut(acc@, id) == spec_waves_declare_resource_mut(
                        self.system_groups@.take(g as int),
                        id,
                    ),
            decreases n - g,
        {
            let ghost accpre = acc@;
            proof {
                assert(self.system_groups@[g as int].wf());
            }
            merge_borrows(&mut acc, &self.system_groups[g].resources);
            proof {
                let gs = self.system_groups@;
                assert(gs.take(g + 1int) =~= gs.take(g as int).push(gs[g as int]));
                assert forall|id: u64| #![trigger spec_declares(acc@, id)]
                    spec_declares(acc@, id) == spec_waves_declare_resource(
                        gs.take(g + 1int),
                        id,
                    ) by {
                    if spec_declares(acc@, id) {
                        if spec_declares(accpre, id) {
                            let h = choose|h: int|
                                0 <= h < gs.take(g as int).len() && spec_declares(
                                    (#[trigger] gs.take(g as int)[h]).resources@,
                                    id,
                                );
                            assert(gs.take(g + 1int)[h] == gs[h]);
                            assert(spec_declares(gs.take(g + 1int)[h].resources@, id));
                        } else {
                            assert(gs.take(g + 1int)[g as int] == gs[g as int]);
                            assert(spec_declares(gs.take(g + 1int)[g as int].resources@, id));
                        }
                    }
                    if spec_waves_declare_resource(gs.take(g + 1int), id) {
                        let h = choose|h: int|
                            0 <= h < gs.take(g + 1int).len() && spec_declares(
                                (#[trigger] gs.take(g + 1int)[h]).resources@,
                                id,
                            );
                        if h < g {
                            assert(gs.take(g as int)[h] == gs[h]);
                            assert(spec_waves_declare_resource(gs.take(g as int), id));
                            assert(spec_declares(accpre, id));
                        }
                        assert(spec_declares(acc@, id));
                    }
                }
                assert forall|id: u64| #![trigger spec_declares_mut(acc@, id)]
                    spec_declares_mut(acc@, id) == spec_waves_declare_resource_mut(
                        gs.take(g + 1int),
                        id,
                    ) by {
                    if spec_declares_mut(acc@, id) {
                        if spec_declares_mut(accpre, id) {
                            let h = choose|h: int|
                                0 <= h < gs.take(g as int).len() && spec_declares_mut(
                                    (#[trigger] gs.take(g as int)[h]).resources@,
                                    id,
                                );
                            assert(gs.take(g + 1int)[h] == gs[h]);
                            assert(spec_declares_mut(gs.take(g + 1int)[h].resources@, id));
                        } else {
                            assert(gs.take(g + 1int)[g as int] == gs[g as int]);
                            assert(spec_declares_mut(gs.take(g + 1int)[g as int].resources@, id));
                        }
                    }
                    if spec_waves_declare_resource_mut(gs.take(g + 1int), id) {
                        let h = choose|h: int|
                            0 <= h < gs.take(g + 1int).len() && spec_declares_mut(
                                (#[trigger] gs.take(g + 1int)[h]).resources@,
                                id,
                            );
                        if h < g {
                            assert(gs.take(g as int)[h] == gs[h]);
                            assert(spec_waves_declare_resource_mut(gs.take(g as int), id));
                            assert(spec_declares_mut(accpre, id));
                        }
                        assert(spec_declares_mut(acc@, id));
                    }
                }
            }
            g = g + 1;
        }
        proof {
            assert(self.system_groups@.take(n as int) == self.system_groups@);
        }
        acc
    }

    /// The set's aggregated component declarations, mirroring
    /// `get_resource_types`.
    pub fn get_component_types(&self) -> (r: Vec<Borrow>)
        requires
            self.wf(),
        ensures
            spec_unique_ids(r@),
            forall|id: u64|
                #![trigger spec_declares(r@, id)]
                spec_declares(r@, id) == spec_waves_declare_component(self.system_groups@, id),
            forall|id: u64|
                #![trigger spec_declares_mut(r@, id)]
                spec_declares_mut(r@, id) == spec_waves_declare_component_mut(
                    self.system_groups@,
                    id,
                ),
    {
        let mut acc: Vec<Borrow> = Vec::new();
        let n = self.system_groups.len();
        let mut g: usize = 0;
        while g < n
            invariant
                self.wf(),
                g <= n,
                n == self.system_groups@.len(),
                spec_unique_ids(acc@),
                forall|id: u64|
                    #![trigger spec_declares(acc@, id)]
                    spec_declares(acc@, id) == spec_waves_declare_component(
                        self.system_groups@.take(g as int),
                        id,
                    ),
                forall|id: u64|
                    #![trigger spec_declares_mut(acc@, id)]
                    spec_declares_mut(acc@, id) == spec_waves_declare_component_mut(
                        self.system_groups@.take(g as int),
                        id,
                    ),
            decreases n - g,
        {
            let ghost accpre = acc@;
            proof {
                assert(self.system_groups@[g as int].wf());
            }
            merge_borrows(&mut acc, &self.system_groups[g].components);
            proof {
                let gs = self.system_groups@;
                assert(gs.take(g + 1int) =~= gs.take(g as int).push(gs[g as int]));
                assert forall|id: u64| #![trigger spec_declares(acc@, id)]
                    spec_declares(acc@, id) == spec_waves_declare_component(
                        gs.take(g + 1int),
                        id,
                    ) by {
                    if spec_declares(acc@, id) {
                        if spec_declares(accpre, id) {
                            let h = choose|h: int|
                                0 <= h < gs.take(g as int).len() && spec_declares(
                                    (#[trigger] gs.take(g as int)[h]).components@,
                                    id,
                                );
                            assert(gs.take(g + 1int)[h] == gs[h]);
                            assert(spec_declares(gs.take(g + 1int)[h].components@, id));
                        } else {
                            assert(gs.take(g + 1int)[g as int] == gs[g as int]);
                            assert(spec_declares(gs.take(g + 1int)[g as int].components@, id));
                        }
                    }
                    if spec_waves_declare_component(gs.take(g + 1int), id) {
                        let h = choose|h: int|
                            0 <= h < gs.take(g + 1int).len() && spec_declares(
                                (#[trigger] gs.take(g + 1int)[h]).components@,
                                id,
                            );
                        if h < g {
                            assert(gs.take(g as int)[h] == gs[h]);
                            assert(spec_waves_declare_component(gs.take(g as int), id));
                            assert(spec_declares(accpre, id));
                        }
                        assert(spec_declares(acc@, id));
                    }
                }
                assert forall|id: u64| #![trigger spec_declares_mut(acc@, id)]
                    spec_declares_mut(acc@, id) == spec_waves_declare_component_mut(
                        gs.take(g + 1int),
                        id,
                    ) by {
                    if spec_declares_mut(acc@, id) {
                        if spec_declares_mut(accpre, id) {
                            let h = choose|h: int|
                                0 <= h < gs.take(g as int).len() && spec_declares_mut(
                                    (#[trigger] gs.take(g as int)[h]).components@,
                                    id,
                                );
                            assert(gs.take(g + 1int)[h] == gs[h]);
                            assert(spec_declares_mut(gs.take(g + 1int)[h].components@, id));
                        } else {
                            assert(gs.take(g + 1int)[g as int] == gs[g as int]);
                            assert(spec_declares_mut(gs.take(g + 1int)[g as int].components@, id));
                        }
                    }
                    if spec_waves_declare_component_mut(gs.take(g + 1int), id) {
                        let h = choose|h: int|
                            0 <= h < gs.take(g + 1int).len() && spec_declares_mut(
                                (#[trigger] gs.take(g + 1int)[h]).components@,
                                id,
                            );
                        if h < g {
                            assert(gs.take(g as int)[h] == gs[h]);
                            assert(spec_waves_declare_component_mut(gs.take(g as int), id));
                            assert(spec_declares_mut(accpre, id));
                        }
                        assert(spec_declares_mut(acc@, id));
                    }
                }
            }
            g = g + 1;
        }
        proof {
            assert(self.system_groups@.take(n as int) == self.system_groups@);
        }
        acc
    }
}

/// Whether two borrow lists conflict, exactly as `spec_sets_conflict`
/// says.
pub fn sets_conflict(a: &Vec<Borrow>, b: &Vec<Borrow>) -> (r: bool)
    ensures
        r == spec_sets_conflict(a@, b@),
{
    let n = a.len();
    let mut i: usize = 0;
    while i < n
        invariant
            i <= n,
            n == a@.len(),
            forall|x: int, y: int|
                0 <= x < i && 0 <= y < b@.len() ==> !(a@[x].id == b@[y].id && !(a@[x].borrow_type
                    is Immutable && b@[y].borrow_type is Immutable)),
        decreases n - i,
    {
        let m = b.len();
        let mut j: usize = 0;
        while j < m
            invariant
                i < n,
                j <= m,
                n == a@.len(),
                m == b@.len(),
                forall|x: int, y: int|
                    0 <= x < i && 0 <= y < b@.len() ==> !(a@[x].id == b@[y].id
                        && !(a@[x].borrow_type is Immutable && b@[y].borrow_type is Immutable)),
                forall|y: int|
                    0 <= y < j ==> !(a@[i as int].id == b@[y].id && !(a@[i as int].borrow_type
                        is Immutable && b@[y].borrow_type is Immutable)),
            decreases m - j,
        {
            let conflict = a[i].id == b[j].id && !(matches!(a[i].borrow_type, BorrowType::Immutable)
                && matches!(b[j].borrow_type, BorrowType::Immutable));
            if conflict {
                proof {
                    let id = a@[i as int].id;
                    assert(spec_declares(a@, id));
                    assert(spec_declares(b@, id));
                    if a@[i as int].borrow_type is Mutable {
                        assert(spec_declares_mut(a@, id));
                    } else {
                        assert(spec_declares_mut(b@, id));
                    }
                }
                return true;
            }
            j = j + 1;
        }
        i = i + 1;
    }
    proof {
        if spec_sets_conflict(a@, b@) {
            let id = choose|id: u64|
                spec_declares(a@, id) && spec_declares(b@, id) && (spec_declares_mut(a@, id)
                    || spec_declares_mut(b@, id));
            let x = choose|x: int| 0 <= x < a@.len() && a@[x].id == id;
            let y = choose|y: int| 0 <= y < b@.len() && b@[y].id == id;
            if spec_declares_mut(a@, id) {
                let x2 = choose|x2: int|
                    0 <= x2 < a@.len() && a@[x2].id == id && a@[x2].borrow_type is Mutable;
                assert(!(a@[x2].id == b@[y].id && !(a@[x2].borrow_type is Immutable
                    && b@[y].borrow_type is Immutable)));
                assert(false);
            } else {
                let y2 = choose|y2: int|
                    0 <= y2 < b@.len() && b@[y2].id == id && b@[y2].borrow_type is Mutable;
                assert(!(a@[x].id == b@[y2].id && !(a@[x].borrow_type is Immutable
                    && b@[y2].borrow_type is Immutable)));
                assert(false);
            }
        }
    }
    false
}

/// Folds `source` into `target`: kinds not yet present are appended,
/// and an exclusive declaration raises a shared one already there.
pub fn merge_borrows(target: &mut Vec<Borrow>, source: &Vec<Borrow>)
    requires
        spec_unique_ids(old(target)@),
        spec_unique_ids(source@),
    ensures
        spec_unique_ids(final(target)@),
        forall|id: u64|
            #![trigger spec_declares(final(target)@, id)]
            spec_declares(final(target)@, id) == (spec_declares(old(target)@, id) || spec_declares(
                source@,
                id,
            )),
        forall|id: u64|
            #![trigger spec_declares_mut(final(target)@, id)]
            spec_declares_mut(final(target)@, id) == (spec_declares_mut(old(target)@, id)
                || spec_declares_mut(source@, id)),
{
    let n = source.len();
    let mut i: usize = 0;
    while i < n
        invariant
            i <= n,
            n == source@.len(),
            spec_unique_ids(source@),
            spec_unique_ids(target@),
            forall|id: u64|
                #![trigger spec_declares(target@, id)]
                spec_declares(target@, id) == (spec_declares(old(target)@, id) || spec_declares(
                    source@.take(i as int),
                    id,
                )),
            forall|id: u64|
                #![trigger spec_declares_mut(target@, id)]
                spec_declares_mut(target@, id) == (spec_declares_mut(old(target)@, id)
                    || spec_declares_mut(source@.take(i as int), id)),
        decreases n - i,
    {
        let b = source[i];
        let ghost pre = target@;
        let m = target.len();
        let mut j: usize = 0;
        let mut found_at: Option<usize> = None;
        while j < m
            invariant
                j <= m,
                m == target@.len(),
                found_at is None ==> forall|k: int| 0 <= k < j ==> target@[k].id != b.id,
                found_at is Some ==> {
                    &&& found_at.unwrap() < m
                    &&& target@[found_at.unwrap() as int].id == b.id
                },
            decreases m - j,
        {
            if target[j].id == b.id {
                found_at = Some(j);
                j = m;
            } else {
                j = j + 1;
            }
        }
        match found_at {
            Some(k) => {
                let raise = matches!(b.borrow_type, BorrowType::Mutable);
                if raise {
                    self_set_mode(target, k, BorrowType::Mutable);
                }
                proof {
                    lemma_merge_step_existing(pre, target@, source@, i as int, k as int, old(target)@);
                }
            },
            None => {
                target.push(b);
                proof {
                    lemma_merge_step_pushed(pre, target@, source@, i as int, old(target)@);
                }
            },
        }
        i = i + 1;
    }
    proof {
        assert(source@.take(n as int) == source@);
    }
}

/// Overwrites the mode of one entry, keeping its id.
fn self_set_mode(target: &mut Vec<Borrow>, k: usize, mode: BorrowType)
    requires
        k < old(target)@.len(),
    ensures
        final(target)@ == old(target)@.update(
            k as int,
            Borrow { id: old(target)@[k as int].id, borrow_type: mode },
        ),
{
    let id = target[k].id;
    target.set(k, Borrow { id, borrow_type: mode });
}

/// One merge step on an id already present: declarations gain the
/// step's borrow, exclusivity is raised where the source is exclusive.
proof fn lemma_merge_step_existing(
    pre: Seq<Borrow>,
    post: Seq<Borrow>,
    source: Seq<Borrow>,
    i: int,
    k: int,
    orig: Seq<Borrow>,
)
    requires
        0 <= i < source.len(),
        0 <= k < pre.len(),
        pre[k].id == source[i].id,
        spec_unique_ids(pre),
        spec_unique_ids(source),
        post == (if source[i].borrow_type is Mutable {
            pre.update(k, Borrow { id: pre[k].id, borrow_type: BorrowType::Mutable })
        } else {
            pre
        }),
        forall|id: u64|
            #![trigger spec_declares(pre, id)]
            spec_declares(pre, id) == (spec_declares(orig, id) || spec_declares(
                source.take(i),
                id,
            )),
        forall|id: u64|
            #![trigger spec_declares_mut(pre, id)]
            spec_declares_mut(pre, id) == (spec_declares_mut(orig, id) || spec_declares_mut(
                source.take(i),
                id,
            )),
    ensures
        spec_unique_ids(post),
        forall|id: u64|
            #![trigger spec_declares(post, id)]
            spec_declares(post, id) == (spec_declares(orig, id) || spec_declares(
                source.take(i + 1),
                id,
            )),
        forall|id: u64|
            #![trigger spec_declares_mut(post, id)]
            spec_declares_mut(post, id) == (spec_declares_mut(orig, id) || spec_declares_mut(
                source.take(i + 1),
                id,
            )),
{
    let b = source[i];
    assert(source.take(i + 1) =~= source.take(i).push(b));
    assert(post.len() == pre.len());
    assert forall|x: int| 0 <= x < post.len() implies post[x].id == pre[x].id by {}
    assert forall|id: u64| #![trigger spec_declares(post, id)]
        spec_declares(post, id) == (spec_declares(orig, id) || spec_declares(
            source.take(i + 1),
            id,
        )) by {
        assert(spec_declares(post, id) == spec_declares(pre, id)) by {
            if spec_declares(post, id) {
                let x = choose|x: int| 0 <= x < post.len() && post[x].id == id;
                assert(pre[x].id == id);
            }
            if spec_declares(pre, id) {
                let x = choose|x: int| 0 <= x < pre.len() && pre[x].id == id;
                assert(post[x].id == id);
            }
        }
        assert(spec_declares(source.take(i + 1), id) == (spec_declares(source.take(i), id) || id
            == b.id)) by {
            if spec_declares(source.take(i + 1), id) {
                let x = choose|x: int|
                    0 <= x < source.take(i + 1).len() && (#[trigger] source.take(i + 1)[x]).id
                        == id;
                if x < i {
                    assert(source.take(i)[x].id == id);
                }
            }
            if spec_declares(source.take(i), id) {
                let x = choose|x: int|
                    0 <= x < source.take(i).len() && (#[trigger] source.take(i)[x]).id == id;
                assert(source.take(i + 1)[x].id == id);
            }
            if id == b.id {
                assert(source.take(i + 1)[i].id == id);
            }
        }
        if id == b.id {
            assert(pre[k].id == id);
            assert(spec_declares(pre, id));
        }
    }
    assert forall|id: u64| #![trigger spec_declares_mut(post, id)]
        spec_declares_mut(post, id) == (spec_declares_mut(orig, id) || spec_declares_mut(
            source.take(i + 1),
            id,
        )) by {
        assert(spec_declares_mut(source.take(i + 1), id) == (spec_declares_mut(source.take(i), id)
            || (id == b.id && b.borrow_type is Mutable))) by {
            if spec_declares_mut(source.take(i + 1), id) {
                let x = choose|x: int|
                    0 <= x < source.take(i + 1).len() && (#[trigger] source.take(i + 1)[x]).id
                        == id && source.take(i + 1)[x].borrow_type is Mutable;
                if x < i {
                    assert(source.take(i)[x].id == id && source.take(i)[x].borrow_type is Mutable);
                }
            }
            if spec_declares_mut(source.take(i), id) {
                let x = choose|x: int|
                    0 <= x < source.take(i).len() && (#[trigger] source.take(i)[x]).id == id
                        && source.take(i)[x].borrow_type is Mutable;
                assert(source.take(i + 1)[x].id == id && source.take(i + 1)[x].borrow_type
                    is Mutable);
            }
            if id == b.id && b.borrow_type is Mutable {
                assert(source.take(i + 1)[i].id == id && source.take(i + 1)[i].borrow_type
                    is Mutable);
            }
        }
        if b.borrow_type is Mutable {
            assert(post[k].id == b.id && post[k].borrow_type is Mutable);
            assert(spec_declares_mut(post, b.id));
            if spec_declares_mut(post, id) && id != b.id {
                let x = choose|x: int|
                    0 <= x < post.len() && post[x].id == id && post[x].borrow_type is Mutable;
                assert(x != k);
                assert(pre[x] == post[x]);
                assert(spec_declares_mut(pre, id));
            }
            if spec_declares_mut(pre, id) && id != b.id {
                let x = choose|x: int|
                    0 <= x < pre.len() && pre[x].id == id && pre[x].borrow_type is Mutable;
                assert(x != k);
                assert(post[x] == pre[x]);
                assert(spec_declares_mut(post, id));
            }
        } else {
            assert(post == pre);
            if id == b.id {
                assert(spec_declares_mut(source.take(i + 1), id) == spec_declares_mut(
                    source.take(i),
                    id,
                ));
            }
        }
    }
}

/// One merge step on a fresh id: the pushed borrow is now declared.
proof fn lemma_merge_step_pushed(
    pre: Seq<Borrow>,
    post: Seq<Borrow>,
    source: Seq<Borrow>,
    i: int,
    orig: Seq<Borrow>,
)
    requires
        0 <= i < source.len(),
        spec_unique_ids(pre),
        spec_unique_ids(source),
        post == pre.push(source[i]),
        !spec_declares(pre, source[i].id),
        forall|id: u64|
            #![trigger spec_declares(pre, id)]
            spec_declares(pre, id) == (spec_declares(orig, id) || spec_declares(
                source.take(i),
                id,
            )),
        forall|id: u64|
            #![trigger spec_declares_mut(pre, id)]
            spec_declares_mut(pre, id) == (spec_declares_mut(orig, id) || spec_declares_mut(
                source.take(i),
                id,
            )),
    ensures
        spec_unique_ids(post),
        forall|id: u64|
            #![trigger spec_declares(post, id)]
            spec_declares(post, id) == (spec_declares(orig, id) || spec_declares(
                source.take(i + 1),
                id,
            )),
        forall|id: u64|
            #![trigger spec_declares_mut(post, id)]
            spec_declares_mut(post, id) == (spec_declares_mut(orig, id) || spec_declares_mut(
                source.take(i + 1),
                id,
            )),
{
    let b = source[i];
    assert(source.take(i + 1) =~= source.take(i).push(b));
    assert forall|x: int, y: int| 0 <= x < y < post.len() implies post[x].id != post[y].id by {
        if y == pre.len() {
            assert(post[x] == pre[x]);
            if pre[x].id == b.id {
                assert(spec_declares(pre, b.id));
            }
        }
    }
    assert forall|id: u64| #![trigger spec_declares(post, id)]
        spec_declares(post, id) == (spec_declares(orig, id) || spec_declares(
            source.take(i + 1),
            id,
        )) by {
        if spec_declares(post, id) {
            let x = choose|x: int| 0 <= x < post.len() && post[x].id == id;
            if x < pre.len() {
                assert(pre[x].id == id);
                assert(spec_declares(pre, id));
            } else {
                assert(id == b.id);
                assert(source.take(i + 1)[i].id == id);
                assert(spec_declares(source.take(i + 1), id));
            }
        }
        if spec_declares(orig, id) || spec_declares(source.take(i), id) {
            assert(spec_declares(pre, id));
            let x = choose|x: int| 0 <= x < pre.len() && pre[x].id == id;
            assert(post[x].id == id);
        }
        if spec_declares(source.take(i + 1), id) {
            let x = choose|x: int|
                0 <= x < source.take(i + 1).len() && (#[trigger] source.take(i + 1)[x]).id == id;
            if x < i {
                assert(source.take(i)[x].id == id);
                assert(spec_declares(source.take(i), id));
                assert(spec_declares(pre, id));
                let y = choose|y: int| 0 <= y < pre.len() && pre[y].id == id;
                assert(post[y].id == id);
            } else {
                assert(id == b.id);
                assert(post[pre.len() as int].id == id);
            }
        }
    }
    assert forall|id: u64| #![trigger spec_declares_mut(post, id)]
        spec_declares_mut(post, id) == (spec_declares_mut(orig, id) || spec_declares_mut(
            source.take(i + 1),
            id,
        )) by {
        if spec_declares_mut(post, id) {
            let x = choose|x: int|
                0 <= x < post.len() && post[x].id == id && post[x].borrow_type is Mutable;
            if x < pre.len() {
                assert(pre[x].id == id && pre[x].borrow_type is Mutable);
                assert(spec_declares_mut(pre, id));
            } else {
                assert(id == b.id && b.borrow_type is Mutable);
                assert(source.take(i + 1)[i].id == id && source.take(i + 1)[i].borrow_type
                    is Mutable);
                assert(spec_declares_mut(source.take(i + 1), id));
            }
        }
        if spec_declares_mut(orig, id) || spec_declares_mut(source.take(i), id) {
            assert(spec_declares_mut(pre, id));
            let x = choose|x: int|
                0 <= x < pre.len() && pre[x].id == id && pre[x].borrow_type is Mutable;
            assert(post[x].id == id && post[x].borrow_type is Mutable);
        }
        if spec_declares_mut(source.take(i + 1), id) {
            let x = choose|x: int|
                0 <= x < source.take(i + 1).len() && (#[trigger] source.take(i + 1)[x]).id == id
                    && source.take(i + 1)[x].borrow_type is Mutable;
            if x < i {
                assert(source.take(i)[x].id == id && source.take(i)[x].borrow_type is Mutable);
                assert(spec_declares_mut(source.take(i), id));
                assert(spec_declares_mut(pre, id));
                let y = choose|y: int|
                    0 <= y < pre.len() && pre[y].id == id && pre[y].borrow_type is Mutable;
                assert(post[y].id == id && post[y].borrow_type is Mutable);
            } else {
                assert(id == b.id && b.borrow_type is Mutable);
                assert(post[pre.len() as int].id == id && post[pre.len() as int].borrow_type
                    is Mutable);
            }
        }
    }
}

/// When the scan finds a fitting wave at `g`, that wave is the first
/// fit.
proof fn lemma_first_fit_at(gs: Seq<SystemGroup>, s: SystemWrapper, g: int)
    requires
        0 <= g < gs.len(),
        spec_fits(gs[g], s),
        forall|h: int| 0 <= h < g ==> !spec_fits(gs[h], s),
    ensures
        spec_first_fit(gs, s) == g,
    decreases g,
{
    if g == 0 {
    } else {
        assert(!spec_fits(gs[0], s));
        lemma_first_fit_at(gs.skip(1), s, g - 1);
        assert forall|h: int| 0 <= h < g - 1 implies !spec_fits(gs.skip(1)[h], s) by {
            assert(gs.skip(1)[h] == gs[h + 1]);
        }
    }
}

/// When no wave fits, the first fit is one past the end.
proof fn lemma_first_fit_none(gs: Seq<SystemGroup>, s: SystemWrapper)
    requires
        forall|h: int| 0 <= h < gs.len() ==> !spec_fits(gs[h], s),
    ensures
        spec_first_fit(gs, s) == gs.len(),
    decreases gs.len(),
{
    if gs.len() == 0 {
    } else {
        lemma_first_fit_none(gs.skip(1), s);
        assert forall|h: int| 0 <= h < gs.skip(1).len() implies !spec_fits(gs.skip(1)[h], s) by {
            assert(gs.skip(1)[h] == gs[h + 1]);
        }
    }
}

/// A system that fits a wave's borrow sets is compatible with every
/// member the sets cover: that keeps the members of one wave pairwise
/// conflict-free.
proof fn lemma_fit_member_compatible(g: SystemGroup, m: SystemWrapper, s: SystemWrapper)
    requires
        spec_covers(g.resources@, m.resource_borrows@),
        spec_covers(g.components@, m.component_borrows@),
        spec_fits(g, s),
    ensures
        spec_systems_compatible(m, s),
{
    if spec_sets_conflict(m.resource_borrows@, s.resource_borrows@) {
        let id = choose|id: u64|
            spec_declares(m.resource_borrows@, id) && spec_declares(s.resource_borrows@, id) && (
            spec_declares_mut(m.resource_borrows@, id) || spec_declares_mut(
                s.resource_borrows@,
                id,
            ));
        assert(spec_declares(g.resources@, id));
        assert(spec_sets_conflict(g.resources@, s.resource_borrows@));
    }
    if spec_sets_conflict(m.component_borrows@, s.component_borrows@) {
        let id = choose|id: u64|
            spec_declares(m.component_borrows@, id) && spec_declares(s.component_borrows@, id) && (
            spec_declares_mut(m.component_borrows@, id) || spec_declares_mut(
                s.component_borrows@,
                id,
            ));
        assert(spec_declares(g.components@, id));
        assert(spec_sets_conflict(g.components@, s.component_borrows@));
    }
}

/// Any two systems placed in the same wave have conflict-free borrow
/// sets: the wave invariant of the scheduler.
pub proof fn lemma_same_wave_conflict_free(set: SystemSet, g: int, i: int, j: int)
    requires
        set.wf(),
        0 <= g < set.system_groups@.len(),
        0 <= i < j < set.system_groups@[g].systems@.len(),
    ensures
        spec_systems_compatible(set.system_groups@[g].systems@[i], set.system_groups@[g].systems@[j]),
{
}

/// Extending a fitting wave with a system keeps the wave well formed:
/// the grown borrow sets still cover every member, and the newcomer is
/// compatible with each of them.
proof fn lemma_group_extended_wf(
    gpre: SystemGroup,
    pre: SystemSet,
    g: int,
    s: SystemWrapper,
    post: SystemSet,
)
    requires
        pre.wf(),
        0 <= g < pre.system_groups@.len(),
        gpre == pre.system_groups@[g],
        spec_fits(gpre, s),
        post.system_groups@.len() == pre.system_groups@.len(),
        forall|h: int|
            0 <= h < pre.system_groups@.len() && h != g ==> post.system_groups@[h]
                == pre.system_groups@[h],
        post.system_groups@[g].systems@ == gpre.systems@.push(s),
        spec_unique_ids(post.system_groups@[g].resources@),
        spec_unique_ids(post.system_groups@[g].components@),
        forall|id: u64|
            #![trigger spec_declares(post.system_groups@[g].resources@, id)]
            spec_declares(post.system_groups@[g].resources@, id) == (spec_declares(
                gpre.resources@,
                id,
            ) || spec_declares(s.resource_borrows@, id)),
        forall|id: u64|
            #![trigger spec_declares_mut(post.system_groups@[g].resources@, id)]
            spec_declares_mut(post.system_groups@[g].resources@, id) == (spec_declares_mut(
                gpre.resources@,
                id,
            ) || spec_declares_mut(s.resource_borrows@, id)),
        forall|id: u64|
            #![trigger spec_declares(post.system_groups@[g].components@, id)]
            spec_declares(post.system_groups@[g].components@, id) == (spec_declares(
                gpre.components@,
                id,
            ) || spec_declares(s.component_borrows@, id)),
        forall|id: u64|
            #![trigger spec_declares_mut(post.system_groups@[g].components@, id)]
            spec_declares_mut(post.system_groups@[g].components@, id) == (spec_declares_mut(
                gpre.components@,
                id,
            ) || spec_declares_mut(s.component_borrows@, id)),
    ensures
        post.wf(),
{
    let gnew = post.system_groups@[g];
    assert forall|x: int|
        0 <= x < gnew.systems@.len() implies spec_covers(
        gnew.resources@,
        (#[trigger] gnew.systems@[x]).resource_borrows@,
    ) && spec_covers(gnew.components@, gnew.systems@[x].component_borrows@) by {
        if x < gpre.systems@.len() {
            assert(gnew.systems@[x] == gpre.systems@[x]);
            assert(spec_covers(gpre.resources@, gpre.systems@[x].resource_borrows@));
            assert(spec_covers(gpre.components@, gpre.systems@[x].component_borrows@));
        } else {
            assert(gnew.systems@[x] == s);
        }
    }
    assert forall|x: int, y: int|
        0 <= x < y < gnew.systems@.len() implies spec_systems_compatible(
        gnew.systems@[x],
        gnew.systems@[y],
    ) by {
        if y < gpre.systems@.len() {
            assert(gnew.systems@[x] == gpre.systems@[x]);
            assert(gnew.systems@[y] == gpre.systems@[y]);
            assert(spec_systems_compatible(gpre.systems@[x], gpre.systems@[y]));
        } else {
            assert(gnew.systems@[y] == s);
            assert(gnew.systems@[x] == gpre.systems@[x]);
            lemma_fit_member_compatible(gpre, gpre.systems@[x], s);
        }
    }
    assert forall|h: int|
        0 <= h < post.system_groups@.len() implies (#[trigger] post.system_groups@[h]).wf() by {
        if h != g {
            assert(post.system_groups@[h] == pre.system_groups@[h]);
        }
    }
}

} // verus!
