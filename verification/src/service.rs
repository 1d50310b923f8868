//! The per-connection service factory shell.
//!
//! A host that opens one service instance per connection asks a factory for
//! it. Because a built router is immutable and shared, the factory has
//! nothing to set up: it only hands out one clone of the wrapped service
//! value per connection, every clone referencing the same router.

use vstd::prelude::*;

verus! {

/// Wraps the per-request service value a host is to receive one copy of for
/// each connection it opens.
pub struct MakeRouterService<Svc> {
    pub inner: Svc,
}

impl<Svc> MakeRouterService<Svc> {
    /// Wraps `inner`.
    pub fn new(inner: Svc) -> (r: Self)
        ensures
            r.inner == inner,
    {
        MakeRouterService { inner }
    }
}

} // verus!
