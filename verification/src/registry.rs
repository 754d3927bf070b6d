//! The registry's data model: keys, factories, instances, entry states,
//! and the specification vocabulary the provider's contracts are written
//! in.

use vstd::prelude::*;

verus! {

/// Identifies one contract type: an opaque token for equality in the
/// registry, paired with a human-readable name for diagnostics.
///
/// Two requests for the same contract must carry the same token; the
/// registry has at most one entry per token.
#[derive(Debug)]
pub struct ServiceKey {
    /// Opaque unique token distinguishing this contract type.
    pub token: u64,
    /// Human-readable type name, used only in diagnostics.
    pub label: String,
}

/// A one-shot recipe for constructing a service: the dependencies it
/// requests, in order, and what it produces once they are all resolved —
/// either the constructed payload or a domain-level failure.
#[derive(Debug)]
pub struct Factory {
    /// The contract type this factory constructs.
    pub key: ServiceKey,
    /// The contracts this factory resolves before constructing, in the
    /// order it requests them.
    pub deps: Vec<ServiceKey>,
    /// The constructed payload, or the construction failure the factory
    /// reports after its dependencies resolved.
    pub outcome: Result<String, String>,
}

/// A constructed service: the erased storage cell pairing a payload with
/// the token it was constructed for, the diagnostic type name, and
/// handles to the instances of its dependencies.
#[derive(Debug)]
pub struct Instance {
    /// The token of the contract this instance satisfies.
    pub token: u64,
    /// Diagnostic name of the constructed type.
    pub label: String,
    /// The constructed value.
    pub payload: String,
    /// Handles of the dependency instances, in the order the factory
    /// requested them.
    pub deps: Vec<usize>,
}

/// One registry slot. Every entry starts as `Pending` (or directly as
/// `Resolved` when an instance is pre-supplied) and moves one-way:
/// `Pending -> InProgress -> Resolved` on the successful path.
#[derive(Debug)]
pub enum ServiceEntry {
    /// Holds the one-shot factory; construction has not started.
    Pending(Factory),
    /// Construction of this entry has started but not finished; carries
    /// no payload. A second request observing this sentinel is a
    /// circular reference.
    InProgress,
    /// Construction finished; holds the handle of the stored instance.
    Resolved(usize),
}

/// The provider's mathematical model: the registry mapping tokens to
/// entry states, and the arena of all instances constructed so far.
#[verifier::ext_equal]
pub struct ProviderModel {
    /// What the registry holds for each registered token.
    pub entries: Map<u64, ServiceEntry>,
    /// Every instance constructed or pre-supplied so far; a handle is an
    /// index into this sequence.
    pub instances: Seq<Instance>,
}

/// An instance stored at position `bound` refers only to instances
/// constructed strictly before it.
pub open spec fn instance_wf(inst: Instance, bound: int) -> bool {
    forall|j: int| 0 <= j < inst.deps@.len() ==> (#[trigger] inst.deps@[j]) < bound
}

impl ProviderModel {
    /// Well-formedness: the registry's domain is finite, every resolved
    /// entry points at an instance carrying its own token, and every
    /// instance's dependency handles point strictly backwards in the
    /// arena.
    pub open spec fn wf(self) -> bool {
        &&& self.entries.dom().finite()
        &&& forall|k: u64|
            #[trigger] self.entries.contains_key(k) && self.entries[k] is Resolved
                ==> entry_is_resolved_to(self, k, resolved_handle(self.entries[k]))
        &&& forall|i: int|
            0 <= i < self.instances.len() ==> instance_wf(#[trigger] self.instances[i], i)
    }
}

/// The handle a resolved entry stores.
pub open spec fn resolved_handle(e: ServiceEntry) -> int
    recommends
        e is Resolved,
{
    e->Resolved_0 as int
}

/// Token `t` is registered and resolved to handle `h`, and `h` is a
/// valid handle of an instance carrying `t`.
pub open spec fn entry_is_resolved_to(m: ProviderModel, t: u64, h: int) -> bool {
    &&& m.entries.contains_key(t)
    &&& m.entries[t] matches ServiceEntry::Resolved(h0) && h0 == h
    &&& 0 <= h < m.instances.len()
    &&& m.instances[h].token == t
}

/// Each requested dependency is resolved to the matching handle.
pub open spec fn deps_resolved_to(m: ProviderModel, deps: Seq<ServiceKey>, handles: Seq<usize>) -> bool {
    &&& handles.len() == deps.len()
    &&& forall|i: int|
        0 <= i < deps.len() ==> entry_is_resolved_to(m, deps[i].token, #[trigger] handles[i] as int)
}

/// Every construction a request for `t` needs can run: the entry
/// exists and, along the whole dependency chain, every factory is
/// registered with a successful outcome and never reaches back to a
/// type already under construction. A request for a resolvable token
/// is owed success.
pub open spec fn resolvable(entries: Map<u64, ServiceEntry>, t: u64) -> bool
    decreases pending_tokens(entries).len(),
        when entries.dom().finite()
        via resolvable_decreases
{
    &&& entries.contains_key(t)
    &&& match entries[t] {
        ServiceEntry::Resolved(_) => true,
        ServiceEntry::InProgress => false,
        ServiceEntry::Pending(f) => {
            &&& f.outcome is Ok
            &&& forall|j: int|
                0 <= j < f.deps@.len() ==> resolvable(
                    entries.insert(t, ServiceEntry::InProgress),
                    (#[trigger] f.deps@[j]).token,
                )
        },
    }
}

#[via_fn]
proof fn resolvable_decreases(entries: Map<u64, ServiceEntry>, t: u64) {
    if entries.dom().finite() && entries.contains_key(t) && entries[t] is Pending {
        assert(entries.insert(t, ServiceEntry::InProgress).dom() =~= entries.dom().insert(t));
        lemma_take_shrinks_pending(entries, t);
    }
}

/// Relates two registries that differ only by finished constructions:
/// each slot is unchanged, or was pending and is now resolved.
pub open spec fn only_constructions_finished(
    pre: Map<u64, ServiceEntry>,
    post: Map<u64, ServiceEntry>,
) -> bool {
    &&& post.dom() == pre.dom()
    &&& forall|k: u64|
        #[trigger] pre.contains_key(k) ==> post[k] == pre[k] || (pre[k] is Pending && post[k]
            is Resolved)
}

/// Finishing constructions never makes a resolvable token
/// unresolvable.
pub proof fn lemma_resolvable_preserved(
    pre: Map<u64, ServiceEntry>,
    post: Map<u64, ServiceEntry>,
    t: u64,
)
    requires
        pre.dom().finite(),
        only_constructions_finished(pre, post),
        resolvable(pre, t),
    ensures
        resolvable(post, t),
    decreases pending_tokens(pre).len(),
{
    assert(post.dom().finite());
    assert(pre.contains_key(t));
    match pre[t] {
        ServiceEntry::Resolved(_) => {
            assert(post[t] == pre[t]);
        },
        ServiceEntry::InProgress => {
            assert(false);
        },
        ServiceEntry::Pending(f) => {
            if !(post[t] is Resolved) {
                assert(post[t] == pre[t]);
                let pre2 = pre.insert(t, ServiceEntry::InProgress);
                let post2 = post.insert(t, ServiceEntry::InProgress);
                assert(pre2.dom() =~= pre.dom());
                assert(post2.dom() =~= post.dom());
                assert forall|k: u64| #[trigger] pre2.contains_key(k) implies post2[k] == pre2[k]
                    || (pre2[k] is Pending && post2[k] is Resolved) by {
                    if k != t {
                        assert(pre.contains_key(k));
                    }
                }
                lemma_take_shrinks_pending(pre, t);
                assert forall|j: int| 0 <= j < f.deps@.len() implies resolvable(
                    post2,
                    (#[trigger] f.deps@[j]).token,
                ) by {
                    assert(resolvable(pre2, f.deps@[j].token));
                    lemma_resolvable_preserved(pre2, post2, f.deps@[j].token);
                }
            }
        },
    }
}

/// Token `t` is registered and its factory has not been invoked.
pub open spec fn entry_pending(entries: Map<u64, ServiceEntry>, t: u64) -> bool {
    entries.contains_key(t) && entries[t] is Pending
}

/// The factory a pending entry holds.
pub open spec fn pending_factory(entries: Map<u64, ServiceEntry>, t: u64) -> Factory
    recommends
        entry_pending(entries, t),
{
    entries[t]->Pending_0
}

/// The tokens whose entries still hold an uninvoked factory. Resolution
/// only ever shrinks this set, which is why it terminates.
pub open spec fn pending_tokens(entries: Map<u64, ServiceEntry>) -> Set<u64> {
    entries.dom().filter(|k: u64| entries[k] is Pending)
}

/// How one registry slot may change across a resolution: a resolved
/// entry is frozen forever, an in-progress entry is owned by a call
/// further up the stack and stays in progress, and a pending entry
/// either keeps its factory, gets caught mid-construction, or finishes.
pub open spec fn entry_evolves(pre: ServiceEntry, post: ServiceEntry) -> bool {
    match pre {
        ServiceEntry::Resolved(_) => post == pre,
        ServiceEntry::InProgress => post is InProgress,
        ServiceEntry::Pending(_) => post == pre || post is InProgress || post is Resolved,
    }
}

/// How the whole registry may change across a resolution: no entry is
/// ever created or removed as a side effect, and each slot evolves as
/// [`entry_evolves`] allows.
pub open spec fn registry_evolves(pre: Map<u64, ServiceEntry>, post: Map<u64, ServiceEntry>) -> bool {
    &&& post.dom() == pre.dom()
    &&& forall|k: u64|
        #[trigger] pre.contains_key(k) ==> entry_evolves(pre[k], post[k])
}

/// There is no partial success: a resolution that succeeds leaves no
/// entry stuck mid-construction — every factory it started, it also
/// finished.
pub open spec fn no_entry_left_in_progress(
    pre: Map<u64, ServiceEntry>,
    post: Map<u64, ServiceEntry>,
) -> bool {
    forall|k: u64|
        #[trigger] pre.contains_key(k) && pre[k] is Pending ==> post[k] == pre[k] || post[k]
            is Resolved
}

/// The arena only grows; every handle handed out stays valid and keeps
/// denoting the same instance.
pub open spec fn store_extends(pre: Seq<Instance>, post: Seq<Instance>) -> bool {
    &&& pre.len() <= post.len()
    &&& forall|i: int| 0 <= i < pre.len() ==> post[i] == #[trigger] pre[i]
}

/// [`registry_evolves`] composes.
pub proof fn lemma_registry_evolves_trans(
    a: Map<u64, ServiceEntry>,
    b: Map<u64, ServiceEntry>,
    c: Map<u64, ServiceEntry>,
)
    requires
        registry_evolves(a, b),
        registry_evolves(b, c),
    ensures
        registry_evolves(a, c),
{
    assert forall|k: u64| #[trigger] a.contains_key(k) implies entry_evolves(a[k], c[k]) by {
        assert(b.contains_key(k));
    }
}

/// Once an entry is resolved, any evolution of the registry keeps it
/// resolved to the same handle: singleton memoization holds for every
/// type, forever.
pub proof fn lemma_resolution_is_monotone(
    pre: Map<u64, ServiceEntry>,
    post: Map<u64, ServiceEntry>,
    t: u64,
)
    requires
        registry_evolves(pre, post),
        pre.contains_key(t),
        pre[t] is Resolved,
    ensures
        post.contains_key(t),
        post[t] == pre[t],
{
    assert(post.dom() == pre.dom());
}

/// An evolution never revives a factory: the pending tokens afterwards
/// are among the pending tokens before.
pub proof fn lemma_evolves_pending_subset(pre: Map<u64, ServiceEntry>, post: Map<u64, ServiceEntry>)
    requires
        registry_evolves(pre, post),
    ensures
        pending_tokens(post).subset_of(pending_tokens(pre)),
{
    assert forall|k: u64| pending_tokens(post).contains(k) implies pending_tokens(pre).contains(
        k,
    ) by {
        assert(post.dom().contains(k));
        assert(pre.contains_key(k));
        assert(entry_evolves(pre[k], post[k]));
    }
}

/// Replacing a pending entry with the `InProgress` sentinel strictly
/// shrinks the set of pending tokens: the measure resolution terminates
/// by.
pub proof fn lemma_take_shrinks_pending(pre: Map<u64, ServiceEntry>, t: u64)
    requires
        pre.dom().finite(),
        pre.contains_key(t),
        pre[t] is Pending,
        pre.insert(t, ServiceEntry::InProgress).dom().finite(),
    ensures
        pending_tokens(pre.insert(t, ServiceEntry::InProgress)).finite(),
        pending_tokens(pre.insert(t, ServiceEntry::InProgress)).len() < pending_tokens(pre).len(),
{
    let mid = pre.insert(t, ServiceEntry::InProgress);
    pre.dom().lemma_len_filter(|k: u64| pre[k] is Pending);
    mid.dom().lemma_len_filter(|k: u64| mid[k] is Pending);
    assert(pending_tokens(pre).contains(t));
    assert(pending_tokens(mid).subset_of(pending_tokens(pre).remove(t))) by {
        assert forall|k: u64| pending_tokens(mid).contains(k) implies pending_tokens(pre).remove(
            t,
        ).contains(k) by {
            assert(k != t);
            assert(pre.contains_key(k) && pre[k] is Pending);
        }
    }
    vstd::set_lib::lemma_len_subset(
        pending_tokens(mid),
        pending_tokens(pre).remove(t),
    );
}

/// The registry that registering a sequence of factories produces: each
/// factory becomes a pending entry under its own token, and a later
/// registration for the same token overwrites an earlier one — the last
/// registration wins.
pub open spec fn registry_of(s: Seq<Factory>) -> Map<u64, ServiceEntry>
    decreases s.len(),
{
    if s.len() == 0 {
        Map::empty()
    } else {
        registry_of(s.drop_last()).insert(s.last().key.token, ServiceEntry::Pending(s.last()))
    }
}

/// Registration order is what decides a token's entry: the factory at
/// position `i` owns its token's slot whenever no later factory
/// registers the same token — the last registration wins.
pub proof fn lemma_registry_of_last_wins(s: Seq<Factory>, i: int)
    requires
        0 <= i < s.len(),
        forall|j: int| i < j < s.len() ==> (#[trigger] s[j]).key.token != s[i].key.token,
    ensures
        registry_of(s).contains_key(s[i].key.token),
        registry_of(s)[s[i].key.token] == ServiceEntry::Pending(s[i]),
    decreases s.len(),
{
    if i < s.len() - 1 {
        assert(s.drop_last()[i] == s[i]);
        lemma_registry_of_last_wins(s.drop_last(), i);
        assert(s.last().key.token != s[i].key.token);
    }
}

} // verus!
