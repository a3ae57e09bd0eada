use crate::component::Resource;
use vstd::prelude::*;

verus! {

/// A read view of a resource entry; mirrors `Ref` for components.
pub struct Res<'a, R> where R: Resource {
    pub resource: &'a R,
    pub last_modified_tick: u64,
    pub last_run_tick: u64,
}

impl<'a, R> Res<'a, R> where R: Resource {
    /// Whether the resource was written through a tracking view since
    /// the reading system last ran.
    pub fn get_modified(&self) -> (r: bool)
        ensures
            r == (self.last_run_tick < self.last_modified_tick),
    {
        self.last_run_tick < self.last_modified_tick
    }

    /// The resource value behind the view.
    pub fn get(&self) -> (r: &R)
        ensures
            *r == *self.resource,
    {
        self.resource
    }
}

/// A write view of a resource entry; mirrors `RefMut` for components.
pub struct ResMut<'a, R> where R: Resource {
    pub resource: &'a mut R,
    pub last_modified_tick: &'a mut u64,
    pub last_run_tick: u64,
    pub current_tick: u64,
}

impl<'a, R> ResMut<'a, R> where R: Resource {
    /// Whether the resource was written through a tracking view since
    /// the owning system last ran.
    pub fn get_modified(&self) -> (r: bool)
        ensures
            r == (self.last_run_tick < *old(self.last_modified_tick)),
    {
        self.last_run_tick < *self.last_modified_tick
    }

    /// The resource value behind the view.
    pub fn get(&self) -> (r: &R)
        ensures
            *r == *old(self.resource),
    {
        self.resource
    }

    /// Writes the resource and stamps its entry with the current tick.
    pub fn set(self, value: R)
        ensures
            *final(self.resource) == value,
            *final(self.last_modified_tick) == self.current_tick,
    {
        *self.resource = value;
        *self.last_modified_tick = self.current_tick;
    }

    /// Mutable access to the resource that does not count as a tracked
    /// write: the entry's tick stays what it was.
    pub fn silently_modify(self) -> (r: &'a mut R)
        ensures
            *r == *old(self.resource),
            *final(self.resource) == *final(r),
            *final(self.last_modified_tick) == *old(self.last_modified_tick),
    {
        self.resource
    }
}

} // verus!
