//! Registration-time builder: collects factories and pre-built
//! instances, then freezes them into a queryable provider.

use vstd::prelude::*;

use crate::provider::ServiceProvider;
use crate::registry::{
    entry_is_resolved_to, store_extends, Factory, Instance, ProviderModel, ServiceEntry,
    ServiceKey,
};

verus! {

/// Collects registrations before first use. Registration after
/// [`Self::build`] is out of contract: the set of services is frozen
/// into the returned provider.
pub struct ServiceCollection {
    services: ServiceProvider,
}

impl View for ServiceCollection {
    type V = ProviderModel;

    closed spec fn view(&self) -> ProviderModel {
        self.services@
    }
}

impl ServiceCollection {
    /// An empty collection: nothing registered yet.
    pub fn new() -> (c: ServiceCollection)
        ensures
            c@.wf(),
            c@.entries == Map::<u64, ServiceEntry>::empty(),
            c@.instances == Seq::<Instance>::empty(),
    {
        ServiceCollection { services: ServiceProvider::new(Vec::new()) }
    }

    /// Stores a one-shot factory under its own token; the entry starts
    /// as pending and the factory runs at most once, on first
    /// resolution. A later registration for the same token wins.
    pub fn register_factory(&mut self, factory: Factory)
        requires
            old(self)@.wf(),
        ensures
            final(self)@.wf(),
            final(self)@.instances == old(self)@.instances,
            final(self)@.entries == old(self)@.entries.insert(
                factory.key.token,
                ServiceEntry::Pending(factory),
            ),
    {
        self.services.insert_factory(factory);
    }

    /// Stores a pre-built singleton directly as already resolved,
    /// skipping construction entirely; returns its handle.
    pub fn register_instance(&mut self, key: ServiceKey, payload: String) -> (h: usize)
        requires
            old(self)@.wf(),
        ensures
            final(self)@.wf(),
            h == old(self)@.instances.len(),
            final(self)@.instances.len() == old(self)@.instances.len() + 1,
            store_extends(old(self)@.instances, final(self)@.instances),
            final(self)@.instances.last().token == key.token,
            final(self)@.instances.last().payload == payload,
            final(self)@.entries == old(self)@.entries.insert(key.token, ServiceEntry::Resolved(h)),
            entry_is_resolved_to(final(self)@, key.token, h as int),
    {
        self.services.insert_instance(key, payload)
    }

    /// Freezes the registrations into a queryable provider.
    pub fn build(self) -> (provider: ServiceProvider)
        ensures
            provider@ == self@,
    {
        self.services
    }
}

} // verus!
