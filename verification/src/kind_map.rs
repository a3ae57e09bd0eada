use vstd::prelude::*;

verus! {

/// An association from kind ids to values, with each kind present at
/// most once. The `App` keys component tables and resource entries by
/// such ids.
pub struct KindMap<V> {
    pub entries: Vec<(u64, V)>,
}

impl<V> KindMap<V> {
    /// No kind id is listed twice.
    pub open spec fn wf(self) -> bool {
        forall|i: int, j: int|
            0 <= i < j < self.entries@.len() ==> self.entries@[i].0 != self.entries@[j].0
    }

    pub open spec fn spec_contains(self, kind: u64) -> bool {
        exists|i: int| 0 <= i < self.entries@.len() && self.entries@[i].0 == kind
    }

    /// The position of `kind`; meaningful under `spec_contains`.
    pub open spec fn spec_index_of(self, kind: u64) -> int {
        choose|i: int| 0 <= i < self.entries@.len() && self.entries@[i].0 == kind
    }

    /// The value stored under `kind`; meaningful under `spec_contains`.
    pub open spec fn spec_get(self, kind: u64) -> V {
        self.entries@[self.spec_index_of(kind)].1
    }

    pub fn new() -> (r: Self)
        ensures
            r.wf(),
            r.entries@.len() == 0,
            forall|kind: u64| !r.spec_contains(kind),
    {
        KindMap { entries: Vec::new() }
    }

    /// The position of `kind`, or `None` when it is absent.
    pub fn index_of(&self, kind: u64) -> (r: Option<usize>)
        requires
            self.wf(),
        ensures
            r is Some <==> self.spec_contains(kind),
            r is Some ==> {
                &&& r.unwrap() == self.spec_index_of(kind)
                &&& r.unwrap() < self.entries@.len()
                &&& self.entries@[r.unwrap() as int].0 == kind
            },
    {
        let n = self.entries.len();
        let mut i: usize = 0;
        while i < n
            invariant
                self.wf(),
                n == self.entries@.len(),
                i <= n,
                forall|j: int| 0 <= j < i ==> self.entries@[j].0 != kind,
            decreases n - i,
        {
            if self.entries[i].0 == kind {
                return Some(i);
            }
            i = i + 1;
        }
        None
    }

    /// Whether a value is stored under `kind`.
    pub fn contains(&self, kind: u64) -> (r: bool)
        requires
            self.wf(),
        ensures
            r == self.spec_contains(kind),
    {
        self.index_of(kind).is_some()
    }

    /// A shared borrow of the value stored under `kind`.
    pub fn get(&self, kind: u64) -> (r: Option<&V>)
        requires
            self.wf(),
        ensures
            r is Some <==> self.spec_contains(kind),
            r is Some ==> *r.unwrap() == self.spec_get(kind),
    {
        match self.index_of(kind) {
            Some(i) => Some(&self.entries[i].1),
            None => None,
        }
    }

    /// A mutable borrow of the value stored under `kind`. The map
    /// afterwards holds, under the same kind, whatever the caller leaves
    /// behind the borrow; nothing else moves.
    pub fn get_mut(&mut self, kind: u64) -> (r: Option<&mut V>)
        requires
            old(self).wf(),
        ensures
            r is Some <==> old(self).spec_contains(kind),
            r is Some ==> {
                &&& *r.unwrap() == old(self).spec_get(kind)
                &&& final(self).entries@ == old(self).entries@.update(
                    old(self).spec_index_of(kind),
                    (kind, *final(r.unwrap())),
                )
            },
            r is None ==> *final(self) == *old(self),
    {
        match self.index_of(kind) {
            Some(i) => Some(&mut self.entries[i].1),
            None => None,
        }
    }

    /// Stores `value` under `kind`, replacing any value already there.
    pub fn insert(&mut self, kind: u64, value: V)
        requires
            old(self).wf(),
        ensures
            final(self).wf(),
            final(self).spec_contains(kind),
            final(self).spec_get(kind) == value,
            forall|k: u64|
                k != kind ==> final(self).spec_contains(k) == old(self).spec_contains(k),
            forall|k: u64|
                k != kind && old(self).spec_contains(k) ==> final(self).spec_get(k) == old(
                    self,
                ).spec_get(k),
            final(self).entries@.len() == (if old(self).spec_contains(kind) {
                old(self).entries@.len() as int
            } else {
                old(self).entries@.len() + 1int
            }),
    {
        let ghost pre = self.entries@;
        match self.index_of(kind) {
            Some(i) => {
                self.entries[i].1 = value;
                proof {
                    lemma_kind_map_frame::<V>(pre, self.entries@, i as int);
                    assert(self.entries@[i as int].0 == kind);
                    lemma_kind_map_index_unique::<V>(self.entries@, i as int);
                    assert forall|k: u64|
                        k != kind && old(self).spec_contains(k) implies (*self).spec_contains(
                        k,
                    ) && (*self).spec_get(k) == old(self).spec_get(k) by {
                        let j = old(self).spec_index_of(k);
                        assert(pre[j].0 == k);
                        assert(j != i);
                        assert(self.entries@[j].0 == k);
                        lemma_kind_map_index_unique::<V>(self.entries@, j);
                    }
                    assert forall|k: u64|
                        k != kind && (*self).spec_contains(k) implies old(self).spec_contains(
                        k,
                    ) by {
                        let j = (*self).spec_index_of(k);
                        assert(self.entries@[j].0 == k);
                        assert(j != i);
                        assert(pre[j].0 == k);
                    }
                }
            },
            None => {
                self.entries.push((kind, value));
                proof {
                    assert(self.entries@[pre.len() as int].0 == kind);
                    assert forall|a: int, b: int|
                        0 <= a < b < self.entries@.len() implies self.entries@[a].0
                        != self.entries@[b].0 by {
                        if b == pre.len() {
                            assert(self.entries@[a] == pre[a]);
                        } else {
                            assert(self.entries@[a] == pre[a]);
                            assert(self.entries@[b] == pre[b]);
                        }
                    }
                    lemma_kind_map_index_unique::<V>(self.entries@, pre.len() as int);
                    assert forall|k: u64|
                        k != kind && old(self).spec_contains(k) implies (*self).spec_contains(
                        k,
                    ) && (*self).spec_get(k) == old(self).spec_get(k) by {
                        let j = old(self).spec_index_of(k);
                        assert(pre[j].0 == k);
                        assert(self.entries@[j].0 == k);
                        lemma_kind_map_index_unique::<V>(self.entries@, j);
                    }
                    assert forall|k: u64|
                        k != kind && (*self).spec_contains(k) implies old(self).spec_contains(
                        k,
                    ) by {
                        let j = (*self).spec_index_of(k);
                        assert(pre[j].0 == k);
                    }
                }
            },
        }
    }

    /// Takes the value stored under `kind` out of the map and yields it.
    pub fn remove(&mut self, kind: u64) -> (r: Option<V>)
        requires
            old(self).wf(),
        ensures
            final(self).wf(),
            r is Some <==> old(self).spec_contains(kind),
            r is Some ==> r == Some(old(self).spec_get(kind)),
            !final(self).spec_contains(kind),
            forall|k: u64|
                k != kind ==> final(self).spec_contains(k) == old(self).spec_contains(k),
            forall|k: u64|
                k != kind && old(self).spec_contains(k) ==> final(self).spec_get(k) == old(
                    self,
                ).spec_get(k),
    {
        let ghost pre = self.entries@;
        match self.index_of(kind) {
            Some(i) => {
                let entry = self.entries.remove(i);
                proof {
                    lemma_kind_map_remove::<V>(*old(self), *self, i as int);
                }
                Some(entry.1)
            },
            None => None,
        }
    }
}

/// After an in-place update at position `i`, every other kind keeps its
/// position and value.
proof fn lemma_kind_map_frame<V>(pre: Seq<(u64, V)>, post: Seq<(u64, V)>, i: int)
    requires
        0 <= i < pre.len(),
        post.len() == pre.len(),
        post[i].0 == pre[i].0,
        forall|j: int| 0 <= j < pre.len() && j != i ==> post[j] == pre[j],
        forall|a: int, b: int| 0 <= a < b < pre.len() ==> pre[a].0 != pre[b].0,
    ensures
        forall|a: int, b: int| 0 <= a < b < post.len() ==> post[a].0 != post[b].0,
{
    assert forall|a: int, b: int| 0 <= a < b < post.len() implies post[a].0 != post[b].0 by {
        assert(post[a].0 == pre[a].0);
        assert(post[b].0 == pre[b].0);
    }
}

/// In a duplicate-free association list, any position holding `kind` is
/// the chosen one.
proof fn lemma_kind_map_index_unique<V>(s: Seq<(u64, V)>, j: int)
    requires
        forall|a: int, b: int| 0 <= a < b < s.len() ==> s[a].0 != s[b].0,
        0 <= j < s.len(),
    ensures
        (choose|i: int| 0 <= i < s.len() && s[i].0 == s[j].0) == j,
{
    let k = s[j].0;
    assert(exists|i: int| 0 <= i < s.len() && s[i].0 == k);
    let c = choose|i: int| 0 <= i < s.len() && s[i].0 == k;
    if c != j {
        if c < j {
            assert(s[c].0 != s[j].0);
        } else {
            assert(s[j].0 != s[c].0);
        }
    }
}

/// Removing position `i` keeps every other kind present exactly once
/// with its value, and takes the kind at `i` out.
proof fn lemma_kind_map_remove<V>(pre: KindMap<V>, post: KindMap<V>, i: int)
    requires
        pre.wf(),
        0 <= i < pre.entries@.len(),
        post.entries@ == pre.entries@.remove(i),
    ensures
        post.wf(),
        !post.spec_contains(pre.entries@[i].0),
        forall|k: u64|
            k != pre.entries@[i].0 ==> post.spec_contains(k) == pre.spec_contains(k),
        forall|k: u64|
            k != pre.entries@[i].0 && pre.spec_contains(k) ==> post.spec_get(k) == pre.spec_get(
                k,
            ),
{
    let kind0 = pre.entries@[i].0;
    assert forall|a: int, b: int|
        0 <= a < b < post.entries@.len() implies post.entries@[a].0 != post.entries@[b].0 by {
        if b < i {
        } else if a < i {
            assert(post.entries@[b] == pre.entries@[b + 1]);
        } else {
            assert(post.entries@[a] == pre.entries@[a + 1]);
            assert(post.entries@[b] == pre.entries@[b + 1]);
        }
    }
    if post.spec_contains(kind0) {
        let a = post.spec_index_of(kind0);
        if a < i {
            assert(pre.entries@[a].0 == kind0);
        } else {
            assert(pre.entries@[a + 1].0 == kind0);
        }
        assert(false);
    }
    assert forall|k: u64|
        k != kind0 && pre.spec_contains(k) implies post.spec_contains(k) && post.spec_get(k)
        == pre.spec_get(k) by {
        let a = pre.spec_index_of(k);
        assert(pre.entries@[a].0 == k);
        lemma_kind_map_index_unique::<V>(pre.entries@, a);
        if a < i {
            assert(post.entries@[a] == pre.entries@[a]);
            lemma_kind_map_index_unique_post(pre, post, i, a);
        } else {
            assert(post.entries@[a - 1] == pre.entries@[a]);
            lemma_kind_map_index_unique_post(pre, post, i, a - 1);
        }
    }
    assert forall|k: u64|
        k != kind0 && post.spec_contains(k) implies pre.spec_contains(k) by {
        let a = post.spec_index_of(k);
        if a < i {
            assert(pre.entries@[a].0 == k);
        } else {
            assert(pre.entries@[a + 1].0 == k);
        }
    }
}

/// In the shortened list, the entry at `a` is found at `a` by `choose`.
proof fn lemma_kind_map_index_unique_post<V>(pre: KindMap<V>, post: KindMap<V>, i: int, a: int)
    requires
        pre.wf(),
        0 <= i < pre.entries@.len(),
        post.entries@ == pre.entries@.remove(i),
        0 <= a < post.entries@.len(),
    ensures
        post.spec_index_of(post.entries@[a].0) == a,
        post.spec_get(post.entries@[a].0) == post.entries@[a].1,
{
    assert forall|x: int, y: int|
        0 <= x < y < post.entries@.len() implies post.entries@[x].0 != post.entries@[y].0 by {
        if y < i {
        } else if x < i {
            assert(post.entries@[y] == pre.entries@[y + 1]);
        } else {
            assert(post.entries@[x] == pre.entries@[x + 1]);
            assert(post.entries@[y] == pre.entries@[y + 1]);
        }
    }
    lemma_kind_map_index_unique::<V>(post.entries@, a);
}

/// The frame facts of an in-place update under one kind: every kind
/// stays present or absent as before, the updated kind now holds `v`,
/// and every other kind keeps its value.
pub proof fn lemma_kind_map_update_frame<V>(pre: KindMap<V>, post: KindMap<V>, kind: u64, v: V)
    requires
        pre.wf(),
        pre.spec_contains(kind),
        post.entries@ == pre.entries@.update(pre.spec_index_of(kind), (kind, v)),
    ensures
        post.wf(),
        forall|k2: u64|
            #![trigger post.spec_contains(k2)]
            post.spec_contains(k2) == pre.spec_contains(k2),
        post.spec_get(kind) == v,
        post.spec_contains(kind),
        forall|k2: u64|
            k2 != kind && pre.spec_contains(k2) ==> #[trigger] post.spec_get(k2) == pre.spec_get(
                k2,
            ),
{
    let i = pre.spec_index_of(kind);
    assert(0 <= i < pre.entries@.len() && pre.entries@[i].0 == kind);
    assert forall|a: int, b: int|
        0 <= a < b < post.entries@.len() implies post.entries@[a].0 != post.entries@[b].0 by {
        assert(post.entries@[a].0 == pre.entries@[a].0);
        assert(post.entries@[b].0 == pre.entries@[b].0);
    }
    assert forall|k2: u64| #![trigger post.spec_contains(k2)]
        post.spec_contains(k2) == pre.spec_contains(k2) by {
        if post.spec_contains(k2) {
            let a = choose|a: int| 0 <= a < post.entries@.len() && post.entries@[a].0 == k2;
            assert(pre.entries@[a].0 == k2);
        }
        if pre.spec_contains(k2) {
            let a = choose|a: int| 0 <= a < pre.entries@.len() && pre.entries@[a].0 == k2;
            assert(post.entries@[a].0 == k2);
        }
    }
    assert(post.entries@[i].0 == kind);
    lemma_kind_map_index_unique::<V>(post.entries@, i);
    assert(post.spec_get(kind) == v);
    assert forall|k2: u64|
        k2 != kind && pre.spec_contains(k2) implies #[trigger] post.spec_get(k2) == pre.spec_get(
        k2,
    ) by {
        let a = pre.spec_index_of(k2);
        assert(pre.entries@[a].0 == k2);
        assert(a != i);
        assert(post.entries@[a] == pre.entries@[a]);
        lemma_kind_map_index_unique::<V>(post.entries@, a);
        lemma_kind_map_index_unique::<V>(pre.entries@, a);
    }
}

} // verus!
