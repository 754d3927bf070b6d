//! The provider: owns the registry, and drives each entry from
//! `Pending` to `Resolved` exactly once.

use std::collections::HashMap;
use vstd::prelude::*;

use crate::error::{ResolveCause, ResolveError, ResolveErrorKind};
use crate::registry::{
    deps_resolved_to, entry_evolves, entry_is_resolved_to, entry_pending, instance_wf,
    lemma_evolves_pending_subset, lemma_registry_evolves_trans, lemma_resolution_is_monotone,
    lemma_resolvable_preserved, lemma_take_shrinks_pending, no_entry_left_in_progress,
    only_constructions_finished, pending_factory, pending_tokens, registry_evolves, registry_of,
    resolvable, resolved_handle, store_extends, Factory, Instance, ProviderModel, ServiceEntry,
    ServiceKey,
};

verus! {

/// Everything one resolution request promises, relating the provider's
/// state before (`pre`) and after (`post`) a request for `token` whose
/// diagnostic name is `requested`.
///
/// In particular: no entry is ever created or removed as a side effect;
/// a resolved entry is frozen forever (singleton memoization for every
/// type); the memoized fast path is owed success and changes nothing; a
/// token already mid-construction is owed a `CircularReferenceFound`;
/// an unregistered token is owed a `NotFound` and changes nothing;
/// every resolvable token is owed success, and success leaves no entry
/// stuck mid-construction; and a factory that requests its own type is
/// owed a wrapped `CircularReferenceFound` rather than infinite
/// recursion.
pub open spec fn resolve_post(
    pre: ProviderModel,
    post: ProviderModel,
    token: u64,
    requested: Seq<char>,
    r: Result<usize, ResolveError>,
) -> bool {
    &&& post.wf()
    &&& registry_evolves(pre.entries, post.entries)
    &&& store_extends(pre.instances, post.instances)
    &&& (r is Ok ==> no_entry_left_in_progress(pre.entries, post.entries))
    &&& (pre.entries.contains_key(token) && pre.entries[token] is Resolved ==> r is Ok)
    &&& (pre.entries.contains_key(token) && pre.entries[token] is InProgress ==> r is Err)
    &&& (!pre.entries.contains_key(token) ==> r is Err)
    &&& (resolvable(pre.entries, token) ==> r is Ok)
    &&& (entry_pending(pre.entries, token) && pending_factory(pre.entries, token).deps@.len() > 0
        && pending_factory(pre.entries, token).deps@[0].token == token ==> error_is_wrapped_cycle(
        r,
    ))
    &&& match r {
        Result::Ok(h) => {
            &&& entry_is_resolved_to(post, token, h as int)
            &&& (pre.entries.contains_key(token) && pre.entries[token] is Resolved ==> {
                &&& post == pre
                &&& pre.entries[token] == ServiceEntry::Resolved(h)
            })
            &&& (entry_pending(pre.entries, token) ==> {
                let f = pending_factory(pre.entries, token);
                &&& f.outcome is Ok
                &&& pre.instances.len() <= h as int
                &&& h as int == post.instances.len() - 1
                &&& post.instances[h as int].label == f.key.label
                &&& post.instances[h as int].payload == f.outcome->Ok_0
                &&& deps_resolved_to(post, f.deps@, post.instances[h as int].deps@)
            })
        },
        Result::Err(e) => {
            &&& e.label@ == requested
            &&& !(e.kind is TypeMismatch)
            &&& (e.kind is NotFound <==> !pre.entries.contains_key(token))
            &&& (e.kind is NotFound ==> post == pre)
            &&& (e.kind is CircularReferenceFound <==> pre.entries.contains_key(token)
                && pre.entries[token] is InProgress)
            &&& (e.kind is CircularReferenceFound ==> post == pre)
            &&& (e.kind is ErrorWhileResolving ==> {
                &&& pre.entries.contains_key(token)
                &&& pre.entries[token] is Pending
                &&& post.entries.contains_key(token)
                &&& post.entries[token] is InProgress
            })
            &&& (e.kind matches ResolveErrorKind::ErrorWhileResolving(c) ==> match *c {
                ResolveCause::Domain(d) => entry_pending(pre.entries, token) && pending_factory(
                    pre.entries,
                    token,
                ).outcome == Result::<String, String>::Err(d),
                ResolveCause::Nested(ne) => entry_pending(pre.entries, token) && exists|j: int|
                    {
                        let dep = (#[trigger] pending_factory(pre.entries, token).deps@[j]);
                        &&& 0 <= j < pending_factory(pre.entries, token).deps@.len()
                        &&& dep.label@ == (*ne).label@
                        &&& ((*ne).kind is NotFound ==> !pre.entries.contains_key(dep.token))
                    },
            })
        },
    }
}

/// The request failed because the factory's own first dependency is the
/// type under construction: the failure wraps a `CircularReferenceFound`
/// found one level down.
pub open spec fn error_is_wrapped_cycle(r: Result<usize, ResolveError>) -> bool {
    &&& r matches Result::Err(e)
    &&& e.kind matches ResolveErrorKind::ErrorWhileResolving(c)
    &&& (*c) matches ResolveCause::Nested(ne)
    &&& (*ne).kind is CircularReferenceFound
}

/// Singleton memoization across calls: once a request for a token has
/// succeeded, every later request for the same token succeeds with the
/// identical handle — the same instance, not merely an equal one — and
/// changes nothing.
pub proof fn lemma_singleton_memoization(
    s0: ProviderModel,
    s1: ProviderModel,
    s2: ProviderModel,
    token: u64,
    first_name: Seq<char>,
    second_name: Seq<char>,
    r1: Result<usize, ResolveError>,
    r2: Result<usize, ResolveError>,
)
    requires
        resolve_post(s0, s1, token, first_name, r1),
        resolve_post(s1, s2, token, second_name, r2),
        r1 is Ok,
    ensures
        r2 == r1,
        s2 == s1,
{
}

broadcast use vstd::std_specs::hash::group_hash_axioms;

/// The registry of services: a mapping from type token to entry state,
/// plus the arena owning every instance constructed so far. The
/// provider is the only mutator of entry state; a handle handed out is
/// an index into the arena and stays valid for the provider's lifetime.
pub struct ServiceProvider {
    slots: HashMap<u64, ServiceEntry>,
    store: Vec<Instance>,
}

impl View for ServiceProvider {
    type V = ProviderModel;

    closed spec fn view(&self) -> ProviderModel {
        ProviderModel { entries: self.slots@, instances: self.store@ }
    }
}

impl ServiceProvider {
    /// Builds a provider holding a pending entry for each factory, keyed
    /// by the factory's own token. A later factory for the same token
    /// overwrites an earlier one: the last registration wins.
    pub fn new(factories: Vec<Factory>) -> (provider: ServiceProvider)
        ensures
            provider@.wf(),
            provider@.entries == registry_of(factories@),
            provider@.instances == Seq::<Instance>::empty(),
    {
        let ghost orig = factories@;
        let mut provider = ServiceProvider { slots: HashMap::new(), store: Vec::new() };
        let mut rest = factories;
        proof {
            assert(orig.take(0) =~= Seq::<Factory>::empty());
            assert(provider@.entries =~= registry_of(orig.take(0)));
        }
        while rest.len() > 0
            invariant
                provider@.wf(),
                provider@.instances == Seq::<Instance>::empty(),
                rest@.len() <= orig.len(),
                rest@ == orig.skip(orig.len() - rest@.len()),
                provider@.entries == registry_of(orig.take(orig.len() - rest@.len())),
            decreases rest.len(),
        {
            let ghost i = orig.len() - rest@.len();
            proof {
                assert(orig.skip(i as int)[0] == orig[i as int]);
            }
            let f = rest.remove(0);
            proof {
                assert(rest@ =~= orig.skip(i as int + 1));
            }
            provider.insert_factory(f);
            proof {
                assert(orig.take(i as int + 1).drop_last() =~= orig.take(i as int));
                assert(orig.take(i as int + 1).last() == orig[i as int]);
            }
        }
        proof {
            assert(orig.take(orig.len() as int) =~= orig);
        }
        provider
    }

    /// Registers a pending entry holding `factory` under the factory's
    /// own token, overwriting any prior entry for that token.
    pub fn insert_factory(&mut self, factory: Factory)
        ensures
            final(self)@.instances == old(self)@.instances,
            final(self)@.entries == old(self)@.entries.insert(
                factory.key.token,
                ServiceEntry::Pending(factory),
            ),
            old(self)@.wf() ==> final(self)@.wf(),
    {
        let ghost pre = self@;
        let token = factory.key.token;
        self.slots.insert(token, ServiceEntry::Pending(factory));
        proof {
            if pre.wf() {
                assert(self@.entries.dom() =~= pre.entries.dom().insert(token));
                assert forall|k: u64|
                    #[trigger] self@.entries.contains_key(k) && self@.entries[k] is Resolved
                    implies entry_is_resolved_to(
                        self@,
                        k,
                        resolved_handle(self@.entries[k]),
                    ) by {
                    assert(k != token);
                    assert(pre.entries.contains_key(k) && pre.entries[k] == self@.entries[k]);
                }
                assert forall|i: int| 0 <= i < self@.instances.len() implies instance_wf(
                    #[trigger] self@.instances[i],
                    i,
                ) by {
                    assert(self@.instances[i] == pre.instances[i]);
                }
            }
        }
    }

    /// Registers a pre-built singleton: stores `payload` as an instance
    /// of `key`'s contract and marks the entry resolved directly, so no
    /// factory is ever invoked for it.
    pub fn insert_instance(&mut self, key: ServiceKey, payload: String) -> (h: usize)
        ensures
            h == old(self)@.instances.len(),
            final(self)@.instances.len() == old(self)@.instances.len() + 1,
            store_extends(old(self)@.instances, final(self)@.instances),
            final(self)@.instances.last().token == key.token,
            final(self)@.instances.last().label == key.label,
            final(self)@.instances.last().payload == payload,
            final(self)@.instances.last().deps@ == Seq::<usize>::empty(),
            final(self)@.entries == old(self)@.entries.insert(key.token, ServiceEntry::Resolved(h)),
            entry_is_resolved_to(final(self)@, key.token, h as int),
            old(self)@.wf() ==> final(self)@.wf(),
    {
        let ghost pre = self@;
        let h = self.store.len();
        let token = key.token;
        let inst = Instance { token, label: key.label, payload, deps: Vec::new() };
        self.store.push(inst);
        self.slots.insert(token, ServiceEntry::Resolved(h));
        proof {
            if pre.wf() {
                assert forall|k: u64|
                    #[trigger] self@.entries.contains_key(k) && self@.entries[k] is Resolved
                    implies entry_is_resolved_to(
                        self@,
                        k,
                        resolved_handle(self@.entries[k]),
                    ) by {
                    if k != token {
                        assert(pre.entries.contains_key(k) && pre.entries[k] == self@.entries[k]);
                    }
                }
                assert forall|i: int| 0 <= i < self@.instances.len() implies instance_wf(
                    #[trigger] self@.instances[i],
                    i,
                ) by {
                    if i < pre.instances.len() {
                        assert(self@.instances[i] == pre.instances[i]);
                    }
                }
            }
        }
        h
    }

    /// Borrows the instance a handle denotes.
    pub fn instance(&self, h: usize) -> (inst: &Instance)
        requires
            h < self@.instances.len(),
        ensures
            *inst == self@.instances[h as int],
    {
        &self.store[h]
    }

    /// Atomically reads the entry for `token` and replaces it with the
    /// `InProgress` sentinel, returning what was there. This single
    /// read-and-replace is what lets a recursive request for the same
    /// token observe `InProgress` instead of re-triggering construction.
    fn take_for_resolution(&mut self, token: u64) -> (prev: Option<ServiceEntry>)
        ensures
            final(self)@.instances == old(self)@.instances,
            match prev {
                Option::Some(e) => {
                    &&& old(self)@.entries.contains_key(token)
                    &&& e == old(self)@.entries[token]
                    &&& final(self)@.entries == old(self)@.entries.insert(token, ServiceEntry::InProgress)
                },
                Option::None => {
                    &&& !old(self)@.entries.contains_key(token)
                    &&& final(self)@.entries == old(self)@.entries
                },
            },
    {
        let prev = self.slots.insert(token, ServiceEntry::InProgress);
        if prev.is_none() {
            self.slots.remove(&token);
            proof {
                assert(self.slots@ =~= old(self).slots@);
            }
        }
        prev
    }

    /// Writes `Resolved(h)` into the slot for `token`, overwriting the
    /// `InProgress` sentinel left by [`Self::take_for_resolution`].
    fn store_resolved(&mut self, token: u64, h: usize)
        ensures
            final(self)@.instances == old(self)@.instances,
            final(self)@.entries == old(self)@.entries.insert(token, ServiceEntry::Resolved(h)),
    {
        self.slots.insert(token, ServiceEntry::Resolved(h));
    }

    /// The resolution engine: drives the entry for `token` from
    /// `Pending` to `Resolved` exactly once, resolving the factory's
    /// dependencies depth-first in the order it requests them,
    /// detecting circular references through the `InProgress` sentinel,
    /// and propagating construction failures wrapped in
    /// `ErrorWhileResolving`. On a factory failure the entry is
    /// deliberately left `InProgress`: there is no silent retry.
    fn resolve_by_id(&mut self, token: u64, requested: &String) -> (r: Result<usize, ResolveError>)
        requires
            old(self)@.wf(),
        ensures
            resolve_post(old(self)@, final(self)@, token, requested@, r),
        decreases pending_tokens(old(self)@.entries).len(),
    {
        let ghost pre = self@;
        let prev = self.take_for_resolution(token);
        match prev {
            Option::None => {
                proof {
                    assert(self@ =~= pre);
                }
                Err(ResolveError::for_type(requested.clone(), ResolveErrorKind::NotFound))
            },
            Option::Some(ServiceEntry::Resolved(h)) => {
                self.store_resolved(token, h);
                proof {
                    assert(self.slots@ =~= pre.entries);
                    assert(self@ =~= pre);
                }
                Ok(h)
            },
            Option::Some(ServiceEntry::InProgress) => {
                proof {
                    assert(self.slots@ =~= pre.entries);
                    assert(self@ =~= pre);
                }
                Err(
                    ResolveError::for_type(
                        requested.clone(),
                        ResolveErrorKind::CircularReferenceFound,
                    ),
                )
            },
            Option::Some(ServiceEntry::Pending(f)) => {
                let ghost f0 = f;
                let ghost mid = self@;
                let Factory { key: fkey, deps: fdeps, outcome: foutcome } = f;
                proof {
                    assert(mid.entries.dom() =~= pre.entries.dom());
                    assert(registry_evolves(pre.entries, mid.entries));
                }
                let mut handles: Vec<usize> = Vec::new();
                let mut i: usize = 0;
                while i < fdeps.len()
                    invariant
                        pre == old(self)@,
                        pre.wf(),
                        self@.wf(),
                        fdeps@ == f0.deps@,
                        i <= fdeps.len(),
                        handles@.len() == i,
                        pre.entries.contains_key(token),
                        pre.entries[token] == ServiceEntry::Pending(f0),
                        mid.entries == pre.entries.insert(token, ServiceEntry::InProgress),
                        mid.instances == pre.instances,
                        registry_evolves(pre.entries, mid.entries),
                        registry_evolves(mid.entries, self@.entries),
                        self@.entries.contains_key(token),
                        self@.entries[token] is InProgress,
                        store_extends(pre.instances, self@.instances),
                        forall|j: int|
                            0 <= j < i ==> entry_is_resolved_to(
                                self@,
                                f0.deps@[j].token,
                                #[trigger] handles@[j] as int,
                            ),
                        forall|k: u64|
                            #[trigger] pre.entries.contains_key(k) && k != token
                                && pre.entries[k] is Pending ==> self@.entries[k]
                                == pre.entries[k] || self@.entries[k] is Resolved,
                        i == 0 ==> self@ == mid,
                        i > 0 ==> f0.deps@[0].token != token,
                    decreases fdeps.len() - i,
                {
                    let ghost before = self@;
                    proof {
                        lemma_take_shrinks_pending(pre.entries, token);
                        lemma_evolves_pending_subset(mid.entries, self@.entries);
                        vstd::set_lib::lemma_len_subset(
                            pending_tokens(self@.entries),
                            pending_tokens(mid.entries),
                        );
                        assert(pending_tokens(self@.entries).len() < pending_tokens(
                            pre.entries,
                        ).len());
                        assert(pre == old(self)@);
                    }
                    let res = self.resolve_by_id(fdeps[i].token, &fdeps[i].label);
                    match res {
                        Result::Ok(h) => {
                            proof {
                                lemma_registry_evolves_trans(
                                    mid.entries,
                                    before.entries,
                                    self@.entries,
                                );
                                assert forall|j: int| 0 <= j < i + 1 implies entry_is_resolved_to(
                                    self@,
                                    f0.deps@[j].token,
                                    #[trigger] handles@.push(h)[j] as int,
                                ) by {
                                    if j < i {
                                        assert(entry_is_resolved_to(
                                            before,
                                            f0.deps@[j].token,
                                            handles@[j] as int,
                                        ));
                                        lemma_resolution_is_monotone(
                                            before.entries,
                                            self@.entries,
                                            f0.deps@[j].token,
                                        );
                                        assert(handles@.push(h)[j] == handles@[j]);
                                        assert(self@.instances[handles@[j] as int]
                                            == before.instances[handles@[j] as int]);
                                    } else {
                                        assert(handles@.push(h)[j] == h);
                                    }
                                }
                                if i == 0 && f0.deps@[0].token == token {
                                    assert(before.entries[token] is InProgress);
                                    assert(false);
                                }
                                assert forall|k: u64|
                                    #[trigger] pre.entries.contains_key(k) && k != token
                                        && pre.entries[k] is Pending implies self@.entries[k]
                                    == pre.entries[k] || self@.entries[k] is Resolved by {
                                    assert(before.entries.contains_key(k));
                                    if !(before.entries[k] == pre.entries[k]) {
                                        assert(before.entries[k] is Resolved);
                                        lemma_resolution_is_monotone(
                                            before.entries,
                                            self@.entries,
                                            k,
                                        );
                                    }
                                }
                            }
                            handles.push(h);
                        },
                        Result::Err(e) => {
                            let ghost e0 = e;
                            proof {
                                lemma_registry_evolves_trans(
                                    pre.entries,
                                    mid.entries,
                                    before.entries,
                                );
                                lemma_registry_evolves_trans(
                                    pre.entries,
                                    before.entries,
                                    self@.entries,
                                );
                                if resolvable(pre.entries, token) {
                                    assert(resolvable(
                                        mid.entries,
                                        f0.deps@[i as int].token,
                                    ));
                                    assert(only_constructions_finished(
                                        mid.entries,
                                        before.entries,
                                    )) by {
                                        assert forall|k: u64|
                                            #[trigger] mid.entries.contains_key(k)
                                            implies before.entries[k] == mid.entries[k] || (
                                        mid.entries[k] is Pending
                                            && before.entries[k] is Resolved) by {
                                            if k == token {
                                                assert(before.entries[k] is InProgress);
                                            } else {
                                                assert(pre.entries.contains_key(k));
                                                assert(mid.entries[k] == pre.entries[k]);
                                                if pre.entries[k] is InProgress {
                                                    assert(before.entries[k] is InProgress);
                                                }
                                            }
                                        }
                                    }
                                    lemma_resolvable_preserved(
                                        mid.entries,
                                        before.entries,
                                        f0.deps@[i as int].token,
                                    );
                                    assert(false);
                                }
                                assert(f0.deps@[i as int].label@ == e0.label@);
                                assert(before.entries.dom() == pre.entries.dom());
                                if e0.kind is NotFound {
                                    assert(!before.entries.contains_key(
                                        f0.deps@[i as int].token,
                                    ));
                                }
                                assert(pending_factory(pre.entries, token).deps@[i as int]
                                    == f0.deps@[i as int]);
                            }
                            return Err(
                                ResolveError::for_type(
                                    requested.clone(),
                                    ResolveErrorKind::ErrorWhileResolving(
                                        Box::new(ResolveCause::Nested(Box::new(e))),
                                    ),
                                ),
                            );
                        },
                    }
                    i = i + 1;
                }
                proof {
                    lemma_registry_evolves_trans(pre.entries, mid.entries, self@.entries);
                }
                match foutcome {
                    Result::Ok(payload) => {
                        let ghost cur = self@;
                        let ghost hs = handles@;
                        let h = self.store.len();
                        let inst = Instance { token, label: fkey.label, payload, deps: handles };
                        self.store.push(inst);
                        self.store_resolved(token, h);
                        proof {
                            assert(self@.entries.dom() =~= pre.entries.dom());
                            assert forall|k: u64| #[trigger] pre.entries.contains_key(k)
                                implies entry_evolves(
                                pre.entries[k],
                                self@.entries[k],
                            ) by {
                                if k != token {
                                    assert(self@.entries[k] == cur.entries[k]);
                                }
                            }
                            assert forall|k: u64|
                                #[trigger] self@.entries.contains_key(k)
                                    && self@.entries[k] is Resolved
                                implies entry_is_resolved_to(
                                self@,
                                k,
                                resolved_handle(self@.entries[k]),
                            ) by {
                                if k != token {
                                    assert(cur.entries.contains_key(k)
                                        && cur.entries[k] == self@.entries[k]);
                                    assert(entry_is_resolved_to(
                                        cur,
                                        k,
                                        resolved_handle(cur.entries[k]),
                                    ));
                                    assert(self@.instances[resolved_handle(
                                        cur.entries[k],
                                    )] == cur.instances[resolved_handle(
                                        cur.entries[k],
                                    )]);
                                }
                            }
                            assert forall|j: int| 0 <= j < self@.instances.len()
                                implies instance_wf(#[trigger] self@.instances[j], j) by {
                                if j < cur.instances.len() {
                                    assert(self@.instances[j] == cur.instances[j]);
                                } else {
                                    assert(self@.instances[j] == self@.instances.last());
                                    assert forall|m: int| 0 <= m < hs.len() implies (
                                    #[trigger] hs[m]) < j by {
                                        assert(entry_is_resolved_to(cur, f0.deps@[m].token, hs[m] as int));
                                    }
                                }
                            }
                            assert forall|j: int| 0 <= j < f0.deps@.len()
                                implies entry_is_resolved_to(
                                self@,
                                f0.deps@[j].token,
                                #[trigger] hs[j] as int,
                            ) by {
                                assert(entry_is_resolved_to(cur, f0.deps@[j].token, hs[j] as int));
                                assert(f0.deps@[j].token != token);
                                assert(self@.entries[f0.deps@[j].token]
                                    == cur.entries[f0.deps@[j].token]);
                                assert(self@.instances[hs[j] as int]
                                    == cur.instances[hs[j] as int]);
                            }
                            assert(self@.instances[h as int].deps@ == hs);
                            assert forall|k: u64|
                                #[trigger] pre.entries.contains_key(k) && pre.entries[k] is Pending
                                implies self@.entries[k] == pre.entries[k] || self@.entries[k]
                                is Resolved by {
                                if k != token {
                                    assert(self@.entries[k] == cur.entries[k]);
                                }
                            }
                        }
                        Ok(h)
                    },
                    Result::Err(d) => {
                        proof {
                            if resolvable(pre.entries, token) {
                                assert(f0.outcome is Ok);
                                assert(false);
                            }
                        }
                        Err(
                            ResolveError::for_type(
                                requested.clone(),
                                ResolveErrorKind::ErrorWhileResolving(
                                    Box::new(ResolveCause::Domain(d)),
                                ),
                            ),
                        )
                    },
                }
            },
        }
    }

    /// Type-safe entry point: resolves the contract `key` names, and
    /// hands back a handle to its singleton instance. The returned
    /// handle is checked to carry the requested token — the checked
    /// downcast of the erased storage — and that defensive check is
    /// proved to never fire: `TypeMismatch` is never returned.
    ///
    /// Callable reentrant-safely while another resolution is running
    /// further up the call stack; a request that reaches back to a type
    /// under construction fails with `CircularReferenceFound` instead
    /// of recursing forever.
    pub fn resolve(&mut self, key: &ServiceKey) -> (r: Result<usize, ResolveError>)
        requires
            old(self)@.wf(),
        ensures
            resolve_post(old(self)@, final(self)@, key.token, key.label@, r),
    {
        let r = self.resolve_by_id(key.token, &key.label);
        match r {
            Result::Ok(h) => {
                if self.store[h].token == key.token {
                    Ok(h)
                } else {
                    proof {
                        assert(false);
                    }
                    Err(ResolveError::for_type(key.label.clone(), ResolveErrorKind::TypeMismatch))
                }
            },
            Result::Err(e) => Err(e),
        }
    }
}

} // verus!
