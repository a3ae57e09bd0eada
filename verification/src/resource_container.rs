use crate::component::Resource;
use vstd::prelude::*;

verus! {

/// One resource entry: the singleton value and the tick of its last
/// tracked write.
pub struct ResourceContainer<R> where R: Resource {
    pub resource: R,
    pub last_modified_tick: u64,
}

} // verus!
