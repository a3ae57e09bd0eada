use vstd::prelude::*;

verus! {

/// How a system intends to use one kind: shared or exclusive.
#[derive(Debug, Clone, Copy, PartialEq, Eq, Structural)]
pub enum BorrowType {
    Immutable,
    Mutable,
}

/// One declared access: a kind id and the intended mode. Used only for
/// conflict analysis; with plain integer kinds the id is the whole
/// identity, so diagnostics name the kind by its id rather than by a
/// type-name string.
#[derive(Debug, Clone, Copy, PartialEq, Eq, Structural)]
pub struct Borrow {
    pub id: u64,
    pub borrow_type: BorrowType,
}

/// Two borrows conflict iff they name the same kind and at least one is
/// exclusive.
pub open spec fn borrows_conflict(a: Borrow, b: Borrow) -> bool {
    a.id == b.id && !(a.borrow_type is Immutable && b.borrow_type is Immutable)
}

/// Some borrow in the list names `id`.
pub open spec fn spec_declares(bs: Seq<Borrow>, id: u64) -> bool {
    exists|i: int| 0 <= i < bs.len() && bs[i].id == id
}

/// Some borrow in the list names `id` exclusively.
pub open spec fn spec_declares_mut(bs: Seq<Borrow>, id: u64) -> bool {
    exists|i: int| 0 <= i < bs.len() && bs[i].id == id && bs[i].borrow_type is Mutable
}

/// Two borrow lists conflict iff some kind is named in both and at
/// least one side names it exclusively.
pub open spec fn spec_sets_conflict(a: Seq<Borrow>, b: Seq<Borrow>) -> bool {
    exists|id: u64|
        #![trigger spec_declares(a, id), spec_declares(b, id)]
        spec_declares(a, id) && spec_declares(b, id) && (spec_declares_mut(a, id)
            || spec_declares_mut(b, id))
}

/// One kind is named both shared and exclusive in the same list: the
/// registration error of a single system.
pub open spec fn spec_mixed(bs: Seq<Borrow>) -> bool {
    exists|i: int, j: int|
        0 <= i < bs.len() && 0 <= j < bs.len() && bs[i].id == bs[j].id && bs[i].borrow_type
            is Immutable && bs[j].borrow_type is Mutable
}

/// No kind appears twice in the list.
pub open spec fn spec_unique_ids(bs: Seq<Borrow>) -> bool {
    forall|i: int, j: int| 0 <= i < j < bs.len() ==> bs[i].id != bs[j].id
}

/// The list-level conflict test agrees with the pairwise rule: two
/// lists conflict exactly when some borrow of one conflicts with some
/// borrow of the other.
pub proof fn lemma_sets_conflict_pairwise(a: Seq<Borrow>, b: Seq<Borrow>)
    ensures
        spec_sets_conflict(a, b) <==> exists|i: int, j: int|
            0 <= i < a.len() && 0 <= j < b.len() && borrows_conflict(a[i], b[j]),
{
    if spec_sets_conflict(a, b) {
        let id = choose|id: u64|
            spec_declares(a, id) && spec_declares(b, id) && (spec_declares_mut(a, id)
                || spec_declares_mut(b, id));
        if spec_declares_mut(a, id) {
            let i = choose|i: int| 0 <= i < a.len() && a[i].id == id && a[i].borrow_type is Mutable;
            let j = choose|j: int| 0 <= j < b.len() && b[j].id == id;
            assert(borrows_conflict(a[i], b[j]));
        } else {
            let i = choose|i: int| 0 <= i < a.len() && a[i].id == id;
            let j = choose|j: int| 0 <= j < b.len() && b[j].id == id && b[j].borrow_type is Mutable;
            assert(borrows_conflict(a[i], b[j]));
        }
    }
    if exists|i: int, j: int| 0 <= i < a.len() && 0 <= j < b.len() && borrows_conflict(a[i], b[j]) {
        let (i, j) = choose|i: int, j: int|
            0 <= i < a.len() && 0 <= j < b.len() && borrows_conflict(a[i], b[j]);
        let id = a[i].id;
        assert(spec_declares(a, id));
        assert(spec_declares(b, id));
        if a[i].borrow_type is Mutable {
            assert(spec_declares_mut(a, id));
        } else {
            assert(spec_declares_mut(b, id));
        }
    }
}

/// A registered system: an id the embedding maps back to the actual
/// function, the declared borrow sets, and the tick of its last run.
pub struct SystemWrapper {
    pub function_id: u64,
    pub resource_borrows: Vec<Borrow>,
    pub component_borrows: Vec<Borrow>,
    pub last_run_tick: u64,
}

impl SystemWrapper {
    /// Binds a function id to its declared borrows; the system has not
    /// run yet, so its last-run tick is 0.
    pub fn new(function_id: u64, resource_borrows: Vec<Borrow>, component_borrows: Vec<Borrow>) -> (r: Self)
        ensures
            r.function_id == function_id,
            r.resource_borrows == resource_borrows,
            r.component_borrows == component_borrows,
            r.last_run_tick == 0,
    {
        SystemWrapper { function_id, resource_borrows, component_borrows, last_run_tick: 0 }
    }

    /// Bookkeeping after a run: the system's last-run tick becomes the
    /// tick it just ran at.
    pub fn mark_run(&mut self, current_tick: u64)
        ensures
            final(self).function_id == old(self).function_id,
            final(self).resource_borrows == old(self).resource_borrows,
            final(self).component_borrows == old(self).component_borrows,
            final(self).last_run_tick == current_tick,
    {
        self.last_run_tick = current_tick;
    }
}

/// A single system declared the same kind both shared and exclusive;
/// `id` names the offending kind.
#[derive(Debug, Clone, Copy, PartialEq, Eq, Structural)]
pub enum RegistrationError {
    ResourceConflict { id: u64 },
    ComponentConflict { id: u64 },
}

/// Deduplicates a borrow list, or reports the kind that is named both
/// shared and exclusive. On success the result names exactly the kinds
/// of the input, each once, exclusive iff the input names it
/// exclusively.
pub fn check_borrows(borrows: &Vec<Borrow>) -> (r: Result<Vec<Borrow>, u64>)
    ensures
        r is Ok <==> !spec_mixed(borrows@),
        r is Ok ==> {
            &&& spec_unique_ids(r.unwrap()@)
            &&& forall|id: u64|
                #![trigger spec_declares(r.unwrap()@, id)]
                spec_declares(r.unwrap()@, id) == spec_declares(borrows@, id)
            &&& forall|id: u64|
                #![trigger spec_declares_mut(r.unwrap()@, id)]
                spec_declares_mut(r.unwrap()@, id) == spec_declares_mut(borrows@, id)
        },
        r is Err ==> spec_declares(borrows@, r.unwrap_err()) && spec_declares_mut(
            borrows@,
            r.unwrap_err(),
        ),
{
    let mut seen: Vec<Borrow> = Vec::new();
    let n = borrows.len();
    let mut i: usize = 0;
    while i < n
        invariant
            i <= n,
            n == borrows@.len(),
            spec_unique_ids(seen@),
            forall|id: u64|
                #![trigger spec_declares(seen@, id)]
                spec_declares(seen@, id) == spec_declares(borrows@.take(i as int), id),
            forall|k: int|
                0 <= k < seen@.len() ==> exists|l: int|
                    0 <= l < i && borrows@[l] == #[trigger] seen@[k],
            forall|k: int, l: int|
                0 <= k < seen@.len() && 0 <= l < i && seen@[k].id == borrows@[l].id
                    ==> seen@[k].borrow_type == borrows@[l].borrow_type,
        decreases n - i,
    {
        let b = borrows[i];
        let m = seen.len();
        let mut j: usize = 0;
        let mut found = false;
        let mut clash = false;
        while j < m
            invariant
                j <= m,
                m == seen@.len(),
                !found && !clash ==> forall|k: int| 0 <= k < j ==> seen@[k].id != b.id,
                found ==> exists|k: int|
                    0 <= k < seen@.len() && seen@[k].id == b.id && seen@[k].borrow_type
                        == b.borrow_type,
                clash ==> exists|k: int|
                    0 <= k < seen@.len() && seen@[k].id == b.id && seen@[k].borrow_type
                        != b.borrow_type,
            decreases m - j,
        {
            if seen[j].id == b.id {
                if seen[j].borrow_type == b.borrow_type {
                    found = true;
                } else {
                    clash = true;
                }
                j = m;
            } else {
                j = j + 1;
            }
        }
        if clash {
            proof {
                let k = choose|k: int|
                    0 <= k < seen@.len() && seen@[k].id == b.id && seen@[k].borrow_type
                        != b.borrow_type;
                let l = choose|l: int| 0 <= l < i && borrows@[l] == seen@[k];
                assert(borrows@[l].id == b.id);
                if b.borrow_type is Mutable {
                    assert(borrows@[l].borrow_type is Immutable);
                } else {
                    assert(borrows@[l].borrow_type is Mutable);
                }
            }
            return Err(b.id);
        }
        let ghost seen_pre = seen@;
        if !found {
            seen.push(b);
        }
        proof {
            assert(borrows@.take(i + 1int) =~= borrows@.take(i as int).push(b));
            if !found {
                assert(seen@ == seen_pre.push(b));
                assert(!spec_declares(seen_pre, b.id)) by {
                    if spec_declares(seen_pre, b.id) {
                        let k = choose|k: int| 0 <= k < seen_pre.len() && seen_pre[k].id == b.id;
                    }
                }
            } else {
                assert(seen@ == seen_pre);
            }
            assert forall|id: u64| #![trigger spec_declares(seen@, id)]
                spec_declares(seen@, id) == spec_declares(borrows@.take(i + 1int), id) by {
                if spec_declares(seen@, id) {
                    let k = choose|k: int| 0 <= k < seen@.len() && seen@[k].id == id;
                    if k < seen_pre.len() {
                        assert(seen_pre[k].id == id);
                        assert(spec_declares(seen_pre, id));
                        assert(spec_declares(borrows@.take(i as int), id));
                        let l = choose|l: int|
                            0 <= l < borrows@.take(i as int).len() && (#[trigger] borrows@.take(
                                i as int,
                            )[l]).id == id;
                        assert(borrows@.take(i + 1int)[l].id == id);
                    } else {
                        assert(seen@[k] == b);
                        assert(borrows@.take(i + 1int)[i as int] == b);
                    }
                    assert(spec_declares(borrows@.take(i + 1int), id));
                }
                if spec_declares(borrows@.take(i + 1int), id) {
                    let l = choose|l: int|
                        0 <= l < borrows@.take(i + 1int).len() && (#[trigger] borrows@.take(
                            i + 1int,
                        )[l]).id == id;
                    if l < i {
                        assert(borrows@.take(i as int)[l].id == id);
                        assert(spec_declares(borrows@.take(i as int), id));
                        assert(spec_declares(seen_pre, id));
                        let k = choose|k: int| 0 <= k < seen_pre.len() && seen_pre[k].id == id;
                        assert(seen@[k].id == id);
                    } else {
                        assert(id == b.id);
                        if found {
                            let k = choose|k: int|
                                0 <= k < seen_pre.len() && seen_pre[k].id == b.id
                                    && seen_pre[k].borrow_type == b.borrow_type;
                            assert(seen@[k].id == id);
                        } else {
                            assert(seen@[seen_pre.len() as int].id == id);
                        }
                    }
                    assert(spec_declares(seen@, id));
                }
            }
            assert forall|k: int, l: int|
                0 <= k < seen@.len() && 0 <= l < i + 1 && seen@[k].id == borrows@[l].id implies seen@[k].borrow_type
                == borrows@[l].borrow_type by {
                if l < i {
                    if k < seen_pre.len() {
                    } else {
                        assert(seen@[k] == b);
                        assert(borrows@.take(i as int)[l].id == b.id);
                        assert(spec_declares(borrows@.take(i as int), b.id));
                        assert(spec_declares(seen_pre, b.id));
                        assert(false);
                    }
                } else {
                    assert(borrows@[l] == b);
                    if k < seen_pre.len() {
                        if found {
                            let k0 = choose|k0: int|
                                0 <= k0 < seen_pre.len() && seen_pre[k0].id == b.id
                                    && seen_pre[k0].borrow_type == b.borrow_type;
                            if k != k0 {
                                assert(false);
                            }
                        } else {
                            assert(seen_pre[k].id == b.id);
                            assert(spec_declares(seen_pre, b.id));
                            assert(false);
                        }
                    } else {
                        assert(seen@[k] == b);
                    }
                }
            }
        }
        i = i + 1;
    }
    proof {
        assert(borrows@.take(n as int) == borrows@);
        assert forall|id: u64| #![trigger spec_declares_mut(seen@, id)]
            spec_declares_mut(seen@, id) == spec_declares_mut(borrows@, id) by {
            if spec_declares_mut(seen@, id) {
                let k = choose|k: int|
                    0 <= k < seen@.len() && seen@[k].id == id && seen@[k].borrow_type is Mutable;
                let l = choose|l: int| 0 <= l < n && borrows@[l] == seen@[k];
                assert(spec_declares_mut(borrows@, id));
            }
            if spec_declares_mut(borrows@, id) {
                let l = choose|l: int|
                    0 <= l < borrows@.len() && borrows@[l].id == id && borrows@[l].borrow_type
                        is Mutable;
                assert(borrows@.take(n as int)[l].id == id);
                assert(spec_declares(borrows@.take(n as int), id));
                assert(spec_declares(seen@, id));
                let k = choose|k: int| 0 <= k < seen@.len() && seen@[k].id == id;
                assert(seen@[k].borrow_type == borrows@[l].borrow_type);
                assert(spec_declares_mut(seen@, id));
            }
        }
        if spec_mixed(borrows@) {
            let (x, y) = choose|x: int, y: int|
                0 <= x < borrows@.len() && 0 <= y < borrows@.len() && borrows@[x].id
                    == borrows@[y].id && borrows@[x].borrow_type is Immutable
                    && borrows@[y].borrow_type is Mutable;
            assert(borrows@.take(n as int)[x].id == borrows@[x].id);
            assert(spec_declares(borrows@.take(n as int), borrows@[x].id));
            assert(spec_declares(seen@, borrows@[x].id));
            let k = choose|k: int| 0 <= k < seen@.len() && seen@[k].id == borrows@[x].id;
            assert(seen@[k].borrow_type == borrows@[x].borrow_type);
            assert(seen@[k].borrow_type == borrows@[y].borrow_type);
            assert(false);
        }
    }
    Ok(seen)
}

/// Deduplicates a system's two borrow lists, or reports the kind that a
/// single system declares both shared and exclusive.
pub fn check_system(system: &SystemWrapper) -> (r: Result<(Vec<Borrow>, Vec<Borrow>), RegistrationError>)
    ensures
        r is Ok <==> !spec_mixed(system.resource_borrows@) && !spec_mixed(
            system.component_borrows@,
        ),
        r is Ok ==> {
            &&& spec_unique_ids(r.unwrap().0@)
            &&& spec_unique_ids(r.unwrap().1@)
            &&& forall|id: u64|
                #![trigger spec_declares(r.unwrap().0@, id)]
                spec_declares(r.unwrap().0@, id) == spec_declares(system.resource_borrows@, id)
            &&& forall|id: u64|
                #![trigger spec_declares_mut(r.unwrap().0@, id)]
                spec_declares_mut(r.unwrap().0@, id) == spec_declares_mut(
                    system.resource_borrows@,
                    id,
                )
            &&& forall|id: u64|
                #![trigger spec_declares(r.unwrap().1@, id)]
                spec_declares(r.unwrap().1@, id) == spec_declares(system.component_borrows@, id)
            &&& forall|id: u64|
                #![trigger spec_declares_mut(r.unwrap().1@, id)]
                spec_declares_mut(r.unwrap().1@, id) == spec_declares_mut(
                    system.component_borrows@,
                    id,
                )
        },
{
    let resources = match check_borrows(&system.resource_borrows) {
        Ok(r) => r,
        Err(id) => {
            return Err(RegistrationError::ResourceConflict { id });
        },
    };
    let components = match check_borrows(&system.component_borrows) {
        Ok(c) => c,
        Err(id) => {
            return Err(RegistrationError::ComponentConflict { id });
        },
    };
    Ok((resources, components))
}

} // verus!
