//! A reactive state container with selector-based subscriptions.
//!
//! A [`Store`] holds the current and previous snapshot of a shared state
//! value and a list of subscribers. Writing a new state with
//! [`Store::set_state`] notifies every live subscriber with the previous and
//! the next snapshot; a subscriber decides for itself whether it stays
//! subscribed, and may request a follow-up write, which is applied before the
//! remaining subscribers of the same pass are notified.
//!
//! On top of the raw store, a [`UseStoreHandle`] is a per-observer registry
//! of [`Selector`]s: narrow views into the state, declared once per
//! evaluation pass in a stable order. On a state transition the registry
//! re-evaluates each declared selector and wakes its observer at most once,
//! and only when at least one selected value actually changed. The handle
//! implements [`Subscriber`], so a store can own one registry per observer
//! and drive the whole diffing machinery from `set_state`.

pub mod context;
pub mod error;
pub mod registry;
pub mod store;

pub use context::ServiceContext;
pub use context::StoreContext;
pub use error::StoreError;
pub use registry::Derived;
pub use registry::RegistryView;
pub use registry::Selector;
pub use registry::UseStoreHandle;
pub use store::Store;
pub use store::StoreView;
pub use store::Subscriber;
