//! A minimal inversion-of-control container: a registry of lazily
//! constructed services keyed by an opaque type token, with memoized
//! singleton instances and detection of circular construction
//! dependencies.
//!
//! Components declare "I need an instance of X" by token without knowing
//! how X is built; the [`ServiceProvider`] resolves build order, caches
//! every result, and fails cleanly on misconfiguration. Each registry
//! entry walks a one-way lifecycle `Pending -> InProgress -> Resolved`;
//! the single take-and-replace of an entry with the `InProgress` sentinel
//! is what makes a circular dependency detectable without threading a
//! visited set through every call.

pub mod collection;
pub mod error;
pub mod provider;
pub mod registry;

pub use collection::ServiceCollection;
pub use error::{ResolveCause, ResolveError, ResolveErrorKind};
pub use provider::ServiceProvider;
pub use registry::{Factory, Instance, ProviderModel, ServiceEntry, ServiceKey};
