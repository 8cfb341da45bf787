use vstd::prelude::*;

use std::rc::Rc;

use crate::store::Store;
use crate::store::Subscriber;

verus! {

/// Context owning the store for one logical state domain. A host creates
/// exactly one per domain, at the root of the observer tree, and drives
/// every observer against it.
pub struct StoreContext<T, S> {
    /// The store itself.
    pub store: Store<T, S>,
}

impl<T, S: Subscriber<T>> StoreContext<T, S> {
    /// Create a context whose store holds `initial_state` and has no
    /// subscribers yet.
    pub fn new(initial_state: T) -> (r: Self)
        ensures
            r.store.wf(),
            r.store@.current == initial_state,
            r.store@.previous == initial_state,
            r.store@.subscribers == Seq::<S>::empty(),
    {
        StoreContext { store: Store::new(initial_state) }
    }
}

/// Context holding a shared reference to an application service: a plain
/// value the host hands to every observer that needs it.
pub struct ServiceContext<T> {
    /// The shared service.
    pub service: Rc<T>,
}

impl<T> ServiceContext<T> {
    /// Wrap `service` in a shared handle.
    pub fn new(service: T) -> (r: Self)
        ensures
            r.service == service,
    {
        ServiceContext { service: Rc::new(service) }
    }
}

} // verus!
