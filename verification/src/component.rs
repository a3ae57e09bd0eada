use vstd::prelude::*;

verus! {

/// Marker for types that may be attached to entities. Component values
/// are stored per kind id; the trait carries no behaviour of its own.
pub trait Component: Send + Sync {

}

/// Marker for singleton values owned by the `App`.
pub trait Resource: Send + Sync {

}

} // verus!
