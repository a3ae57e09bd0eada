use crate::component::Resource;
use vstd::prelude::*;

verus! {

/// The window's size in pixels, published to systems as a read-only
/// resource by the windowing shell.
pub struct WindowSize {
    pub width: usize,
    pub height: usize,
}

impl Resource for WindowSize {

}

impl WindowSize {
    pub fn new(width: usize, height: usize) -> (r: Self)
        ensures
            r.width == width,
            r.height == height,
    {
        WindowSize { width, height }
    }

    /// The width of the window.
    pub fn width(&self) -> (r: usize)
        ensures
            r == self.width,
    {
        self.width
    }

    /// The height of the window.
    pub fn height(&self) -> (r: usize)
        ensures
            r == self.height,
    {
        self.height
    }
}

/// One key's state: whether it is held down, and the tick of the last
/// change.
pub struct KeyState {
    pub pressed: bool,
    pub last_changed_tick: u64,
}

/// Keyboard state, published to systems as a read-only resource by the
/// windowing shell, which feeds events in as plain key codes.
pub struct Keyboard {
    pub keys: Vec<(u32, KeyState)>,
    pub current_tick: u64,
}

impl Resource for Keyboard {

}

impl Keyboard {
    /// No key code is listed twice.
    pub open spec fn wf(self) -> bool {
        forall|i: int, j: int| 0 <= i < j < self.keys@.len() ==> self.keys@[i].0 != self.keys@[j].0
    }

    pub open spec fn spec_has_key(self, key: u32) -> bool {
        exists|i: int| 0 <= i < self.keys@.len() && self.keys@[i].0 == key
    }

    /// The recorded state of `key`; meaningful under `spec_has_key`.
    pub open spec fn spec_key(self, key: u32) -> KeyState {
        self.keys@[choose|i: int| 0 <= i < self.keys@.len() && self.keys@[i].0 == key].1
    }

    pub fn new() -> (r: Self)
        ensures
            r.wf(),
            r.keys@.len() == 0,
            r.current_tick == 0,
    {
        Keyboard { keys: Vec::new(), current_tick: 0 }
    }

    /// The position of `key` in the list, or `None`.
    fn index_of(&self, key: u32) -> (r: Option<usize>)
        requires
            self.wf(),
        ensures
            r is Some <==> self.spec_has_key(key),
            r is Some ==> {
                &&& r.unwrap() < self.keys@.len()
                &&& self.keys@[r.unwrap() as int].0 == key
                &&& self.keys@[r.unwrap() as int].1 == self.spec_key(key)
            },
    {
        let n = self.keys.len();
        let mut i: usize = 0;
        while i < n
            invariant
                self.wf(),
                n == self.keys@.len(),
                i <= n,
                forall|j: int| 0 <= j < i ==> self.keys@[j].0 != key,
            decreases n - i,
        {
            if self.keys[i].0 == key {
                proof {
                    lemma_key_index_unique(*self, i as int);
                }
                return Some(i);
            }
            i = i + 1;
        }
        None
    }

    /// Whether `key` is currently held down.
    pub fn key_down(&self, key: u32) -> (r: bool)
        requires
            self.wf(),
        ensures
            r == (self.spec_has_key(key) && self.spec_key(key).pressed),
    {
        match self.index_of(key) {
            Some(i) => self.keys[i].1.pressed,
            None => false,
        }
    }

    /// Whether `key` is not currently held down.
    pub fn key_up(&self, key: u32) -> (r: bool)
        requires
            self.wf(),
        ensures
            r == (!self.spec_has_key(key) || !self.spec_key(key).pressed),
    {
        match self.index_of(key) {
            Some(i) => !self.keys[i].1.pressed,
            None => true,
        }
    }

    /// Whether `key` was pressed this tick.
    pub fn key_pressed(&self, key: u32) -> (r: bool)
        requires
            self.wf(),
        ensures
            r == (self.spec_has_key(key) && self.spec_key(key).pressed && self.current_tick
                == self.spec_key(key).last_changed_tick),
    {
        match self.index_of(key) {
            Some(i) => self.keys[i].1.pressed && self.current_tick
                == self.keys[i].1.last_changed_tick,
            None => false,
        }
    }

    /// Whether `key` was released this tick.
    pub fn key_released(&self, key: u32) -> (r: bool)
        requires
            self.wf(),
        ensures
            r == (self.spec_has_key(key) && !self.spec_key(key).pressed && self.current_tick
                == self.spec_key(key).last_changed_tick),
    {
        match self.index_of(key) {
            Some(i) => !self.keys[i].1.pressed && self.current_tick
                == self.keys[i].1.last_changed_tick,
            None => false,
        }
    }

    /// Whether `key` is down and its last change lies before `tick`.
    pub fn key_pressed_since(&self, key: u32, tick: u64) -> (r: bool)
        requires
            self.wf(),
        ensures
            r == (self.spec_has_key(key) && self.spec_key(key).pressed && tick > self.spec_key(
                key,
            ).last_changed_tick),
    {
        match self.index_of(key) {
            Some(i) => self.keys[i].1.pressed && tick > self.keys[i].1.last_changed_tick,
            None => false,
        }
    }

    /// Whether `key` is up and its last change lies before `tick`.
    pub fn key_released_since(&self, key: u32, tick: u64) -> (r: bool)
        requires
            self.wf(),
        ensures
            r == (self.spec_has_key(key) && !self.spec_key(key).pressed && tick > self.spec_key(
                key,
            ).last_changed_tick),
    {
        match self.index_of(key) {
            Some(i) => !self.keys[i].1.pressed && tick > self.keys[i].1.last_changed_tick,
            None => false,
        }
    }

    /// Records a key event: the key is now down or up as of `tick`.
    pub fn set_key(&mut self, key: u32, pressed: bool, tick: u64)
        requires
            old(self).wf(),
        ensures
            final(self).wf(),
            final(self).spec_has_key(key),
            final(self).spec_key(key).pressed == pressed,
            final(self).spec_key(key).last_changed_tick == tick,
            final(self).current_tick == old(self).current_tick,
            forall|k2: u32|
                k2 != key ==> final(self).spec_has_key(k2) == old(self).spec_has_key(k2),
            forall|k2: u32|
                k2 != key && old(self).spec_has_key(k2) ==> final(self).spec_key(k2) == old(
                    self,
                ).spec_key(k2),
    {
        let ghost pre = self.keys@;
        match self.index_of(key) {
            Some(i) => {
                self.keys.set(i, (key, KeyState { pressed, last_changed_tick: tick }));
                proof {
                    assert forall|a: int, b: int|
                        0 <= a < b < self.keys@.len() implies self.keys@[a].0
                        != self.keys@[b].0 by {
                        assert(self.keys@[a].0 == pre[a].0);
                        assert(self.keys@[b].0 == pre[b].0);
                    }
                    lemma_key_index_unique(*self, i as int);
                    assert forall|k2: u32|
                        k2 != key && old(self).spec_has_key(k2) implies final(self).spec_has_key(
                        k2,
                    ) && final(self).spec_key(k2) == old(self).spec_key(k2) by {
                        let j = choose|j: int| 0 <= j < pre.len() && pre[j].0 == k2;
                        assert(self.keys@[j].0 == k2);
                        lemma_key_index_unique(*self, j);
                        lemma_key_index_unique(*old(self), j);
                    }
                    assert forall|k2: u32|
                        k2 != key && final(self).spec_has_key(k2) implies old(self).spec_has_key(
                        k2,
                    ) by {
                        let j = choose|j: int| 0 <= j < self.keys@.len() && self.keys@[j].0 == k2;
                        assert(pre[j].0 == k2);
                    }
                }
            },
            None => {
                self.keys.push((key, KeyState { pressed, last_changed_tick: tick }));
                proof {
                    assert(self.keys@[pre.len() as int].0 == key);
                    assert forall|a: int, b: int|
                        0 <= a < b < self.keys@.len() implies self.keys@[a].0
                        != self.keys@[b].0 by {
                        if b < pre.len() {
                            assert(self.keys@[a] == pre[a]);
                            assert(self.keys@[b] == pre[b]);
                        } else {
                            assert(self.keys@[a] == pre[a]);
                        }
                    }
                    lemma_key_index_unique(*self, pre.len() as int);
                    assert forall|k2: u32|
                        k2 != key && old(self).spec_has_key(k2) implies final(self).spec_has_key(
                        k2,
                    ) && final(self).spec_key(k2) == old(self).spec_key(k2) by {
                        let j = choose|j: int| 0 <= j < pre.len() && pre[j].0 == k2;
                        assert(self.keys@[j].0 == k2);
                        lemma_key_index_unique(*self, j);
                        lemma_key_index_unique(*old(self), j);
                    }
                    assert forall|k2: u32|
                        k2 != key && final(self).spec_has_key(k2) implies old(self).spec_has_key(
                        k2,
                    ) by {
                        let j = choose|j: int| 0 <= j < self.keys@.len() && self.keys@[j].0 == k2;
                        assert(pre[j].0 == k2);
                    }
                }
            },
        }
    }

    /// Notes the tick the keyboard is being observed at, so that
    /// `key_pressed` and `key_released` mean "changed this tick".
    pub fn set_current_tick(&mut self, tick: u64)
        requires
            old(self).wf(),
        ensures
            final(self).wf(),
            final(self).keys == old(self).keys,
            final(self).current_tick == tick,
    {
        self.current_tick = tick;
    }
}

/// In a duplicate-free key list, any position holding `key` is the
/// chosen one.
proof fn lemma_key_index_unique(kb: Keyboard, i: int)
    requires
        kb.wf(),
        0 <= i < kb.keys@.len(),
    ensures
        (choose|j: int| 0 <= j < kb.keys@.len() && kb.keys@[j].0 == kb.keys@[i].0) == i,
{
    let key0 = kb.keys@[i].0;
    assert(exists|j: int| 0 <= j < kb.keys@.len() && kb.keys@[j].0 == key0) by {
        assert(0 <= i < kb.keys@.len() && kb.keys@[i].0 == key0);
    }
    let c = choose|j: int| 0 <= j < kb.keys@.len() && kb.keys@[j].0 == kb.keys@[i].0;
    if c != i {
        if c < i {
            assert(kb.keys@[c].0 != kb.keys@[i].0);
        } else {
            assert(kb.keys@[i].0 != kb.keys@[c].0);
        }
    }
}

} // verus!
