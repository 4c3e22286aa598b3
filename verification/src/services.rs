//! Providing services, taking them away, and reading them.

use std::any::TypeId;

use crate::ctx::{scope_seen, Ctx};
use crate::effect::{fresh_record, Callback, Effect};
use crate::error::{single_issue, validation_issue, CordisError};
use crate::fiber::{
    contains_dep, has_dep, Dep, FiberIx, FiberModel, FiberState, Intent, PluginId, RecordId, TaskId,
};
use crate::key::{clone_scope, same_key, same_scope, scope_eq, ScopeId, TypeKey};
use crate::registry::{Binding, RegistryModel, ValueId};
use crate::shared::{Shared, SharedModel};
use crate::text::joined;
use vstd::prelude::*;

verus! {

broadcast use crate::shared::fiber_is_viewed;

/// The complaint about a value that is not of its key's type.
pub open spec fn type_complaint(key: TypeKey, given: Seq<char>) -> Seq<char> {
    "service key "@ + key.description() + " expects value of type "@ + key.type_label() + ", got "@
        + given
}

/// A value on offer.
pub struct Offer<'a> {
    pub value: ValueId,
    /// The type of the value, and how diagnostics call it.
    pub type_id: TypeId,
    pub label: &'a str,
    /// The value is ready only while a check says so.
    pub has_check: bool,
    /// The value can be replaced later.
    pub mutable: bool,
    /// The cleanup that takes the value away again.
    pub cleanup: Callback,
}

impl SharedModel {
    /// The binding of an offer that fiber `i` makes.
    pub open spec fn binding_of(self, i: FiberIx, offer: Offer) -> Binding {
        Binding {
            id: 0,
            value: offer.value,
            mutable: offer.mutable,
            provider: i,
            provider_id: self.fiber(i).id,
            provider_gen: self.fiber(i).trans.generation,
            has_check: offer.has_check,
            check_status: None,
            removing: false,
        }
    }

    /// The offer has been bound to the key, in the scope that the context sees,
    /// as a service of the context's fiber.
    pub open spec fn binding_made(self, ctx: Ctx, key: TypeKey, offer: Offer) -> SharedModel {
        let i = ctx.node.fiber;
        let scope = scope_seen(ctx, key);
        SharedModel {
            registry: self.registry.inserted(key, scope, self.binding_of(i, offer)),
            ..self
        }.put(i, FiberModel { provided: self.fiber(i).provided.push((key, scope)), ..self.fiber(i) })
    }
}

impl Shared {
    /// Provides a service: binds a value and gives the fiber the cleanup that
    /// takes it away again. Fibers that wait for the key are told if the
    /// provider is active already.
    pub fn provide_inner(&mut self, ctx: &Ctx, key: TypeKey, offer: &Offer) -> (result: Result<
        (RecordId, u64),
        CordisError,
    >)
        requires
            old(self)@.wf(),
            old(self)@.registry.next < u64::MAX,
        ensures
            final(self)@.wf(),
            match old(self)@.key_refusal(*ctx, key) {
                Some(e) => result == Err::<(RecordId, u64), CordisError>(e) && final(self)@
                    == old(self)@,
                None => if key.identity().type_id != offer.type_id {
                    &&& final(self)@ == old(self)@
                    &&& result matches Err(e)
                    &&& single_issue(e, type_complaint(key, offer.label@))
                } else if old(self)@.registry.taken(key, scope_seen(*ctx, key)) {
                    &&& final(self)@ == old(self)@
                    &&& result matches Err(CordisError::ServiceExists(name))
                    &&& name@ == key.description()
                } else {
                    let made = old(self)@.binding_made(*ctx, key, *offer);
                    let i = ctx.node.fiber;
                    &&& result == Ok::<(RecordId, u64), CordisError>(
                        (old(self)@.records.len() as usize, old(self)@.registry.next),
                    )
                    &&& final(self)@.records.len() == old(self)@.records.len() + 1
                    &&& fresh_record(
                        final(self)@.records.last(),
                        Effect::AsyncDisposer(offer.cleanup),
                        "service provide: "@ + key.description(),
                        i,
                    )
                    &&& final(self)@ == (if old(self)@.fiber(i).state() == FiberState::Active {
                        made.with_effect(i, final(self)@.records.last()).key_changed(key)
                    } else {
                        made.with_effect(i, final(self)@.records.last())
                    })
                },
            },
    {
        let ghost before = self@;
        match ctx.key_preflight(self, &key) {
            Ok(()) => {},
            Err(e) => {
                return Err(e);
            },
        }
        if !key.has_type(&offer.type_id) {
            let mut issue = joined("service key ", key.describe().as_str());
            issue.push_str(" expects value of type ");
            issue.push_str(key.label());
            issue.push_str(", got ");
            issue.push_str(offer.label);
            return Err(validation_issue(issue));
        }
        let i: usize = ctx.node.fiber;
        let scope = ctx.scope_for(&key);
        let label = joined("service provide: ", key.describe().as_str());
        let binding = Binding {
            id: 0,
            value: offer.value,
            mutable: offer.mutable,
            provider: i,
            provider_id: self.fibers[i].id,
            provider_gen: self.fibers[i].trans.generation,
            has_check: offer.has_check,
            check_status: None,
            removing: false,
        };
        assert(binding == before.binding_of(i, *offer));
        let id = match self.registry.insert_binding(key.clone(), clone_scope(&scope), binding) {
            Ok(id) => id,
            Err(e) => {
                return Err(e);
            },
        };
        self.fibers[i].provided.push((key.clone(), scope));
        let ghost made = before.binding_made(*ctx, key, *offer);
        assert(self@.fibers =~= made.fibers);
        assert(self@ == made);
        let active = self.fibers[i].trans.state == FiberState::Active;
        assert(active == (before.fiber(i).state() == FiberState::Active));
        let record = self.push_effect(i, &Effect::AsyncDisposer(offer.cleanup), label);
        if active {
            self.notify_key_changed(&key);
        }
        Ok((record, id))
    }
}

/// A service that is being taken away.
pub struct Eviction {
    /// The binding on its way out, if it was still in its slot.
    pub binding: Option<u64>,
    /// The tasks to wait for before it is taken out.
    pub tasks: Vec<TaskId>,
}

impl SharedModel {
    /// The binding that a provider's generation has in the slot of the key and
    /// scope.
    pub open spec fn own_binding(
        self,
        id: PluginId,
        generation: u64,
        key: TypeKey,
        scope: Option<ScopeId>,
    ) -> Option<Binding> {
        match self.registry.bound(key, scope) {
            Some(b) => if b.provider_id == id && b.provider_gen == generation {
                Some(b)
            } else {
                None
            },
            None => None,
        }
    }

    /// A fiber other than the provider that depends on `dep`.
    pub open spec fn consumes(self, j: FiberIx, dep: Dep) -> bool {
        let f = self.fiber(j);
        &&& self.registry.waits(dep.key, j)
        &&& f.held
        &&& f.last_deps matches Some(deps)
        &&& has_dep(deps, dep)
        &&& f.id != dep.provider
    }

    /// The first `n` fibers have been seen to: each consumer of `dep` among them
    /// is cancelled and asked to look at its dependencies, or, where it is
    /// closed already, its end is what is waited for.
    pub open spec fn evicted(self, dep: Dep, n: nat) -> (SharedModel, Seq<TaskId>)
        decreases n,
    {
        if n == 0 {
            (self, seq![])
        } else {
            let (m, tasks) = self.evicted(dep, (n - 1) as nat);
            let j = (n - 1) as usize;
            if m.consumes(j, dep) {
                let cancelled = m.put(j, FiberModel { cancelled: true, ..m.fiber(j) });
                if m.fiber(j).closing {
                    match m.fiber(j).shutdown_inner {
                        Some(task) => (cancelled, tasks.push(task)),
                        None => (cancelled, tasks),
                    }
                } else {
                    let task = m.tasks.len() as usize;
                    (
                        cancelled.with_task().posted(j, Intent::RefreshDepsJoin(task)),
                        tasks.push(task),
                    )
                }
            } else {
                (m, tasks)
            }
        }
    }

    /// The binding is on its way out.
    pub open spec fn marked(
        self,
        binding: Option<Binding>,
        key: TypeKey,
        scope: Option<ScopeId>,
    ) -> SharedModel {
        match binding {
            Some(b) => SharedModel {
                registry: self.registry.rebound(key, scope, Binding { removing: true, ..b }),
                ..self
            },
            None => self,
        }
    }
}

impl Shared {
    /// Starts to take away a service that fiber `i` provided in `generation`:
    /// the binding turns unusable at once, everybody who depends on it is
    /// cancelled and asked to look at its dependencies, and everybody else who
    /// waits for the key is told.
    pub fn begin_evict(
        &mut self,
        id: PluginId,
        generation: u64,
        key: &TypeKey,
        scope: &Option<ScopeId>,
    ) -> (eviction: Eviction)
        requires
            old(self)@.wf(),
        ensures
            final(self)@.wf(),
            ({
                let own = old(self)@.own_binding(id, generation, *key, *scope);
                let marked = old(self)@.marked(own, *key, *scope);
                let dep = Dep { provider: id, generation, key: *key, scope: *scope };
                let (told, tasks) = marked.evicted(dep, marked.fibers.len());
                &&& eviction.binding == (match own {
                    Some(b) => Some(b.id),
                    None => None,
                })
                &&& eviction.tasks@ == tasks
                &&& final(self)@ == told.key_changed(*key)
            }),
    {
        let ghost before = self@;
        let mut binding: Option<u64> = None;
        if let Some(b) = self.registry.lookup(key, scope) {
            if b.provider_id == id && b.provider_gen == generation {
                binding = Some(b.id);
                self.registry.mark_removing_if(key, scope, b.id);
            }
        }
        let ghost own = before.own_binding(id, generation, *key, *scope);
        let ghost marked = before.marked(own, *key, *scope);
        assert(self@.registry == marked.registry);
        assert(self@ == marked);
        let dep = Dep { provider: id, generation, key: key.clone(), scope: clone_scope(scope) };
        let mut tasks: Vec<TaskId> = Vec::new();
        let mut j: usize = 0;
        while j < self.fibers.len()
            invariant
                j <= marked.fibers.len(),
                self@.fibers.len() == marked.fibers.len(),
                self@.wf(),
                (self@, tasks@) == marked.evicted(dep, j as nat),
            decreases marked.fibers.len() - j,
        {
            let ghost m = self@;
            assert(self.fibers@.len() == m.fibers.len());
            let ghost so_far = tasks@;
            if self.consumer(j, &dep) {
                self.fibers[j].cancelled = true;
                assert(self@.fibers =~= m.put(
                    j,
                    FiberModel { cancelled: true, ..m.fiber(j) },
                ).fibers);
                if self.fibers[j].closing {
                    if let Some(task) = self.fibers[j].shutdown_inner {
                        tasks.push(task);
                    }
                } else {
                    let task = self.open_task();
                    let _ = self.post(j, Intent::RefreshDepsJoin(task));
                    tasks.push(task);
                }
            }
            j += 1;
            assert((self@, tasks@) == marked.evicted(dep, j as nat));
        }
        self.notify_key_changed(key);
        Eviction { binding, tasks }
    }

    fn consumer(&self, j: FiberIx, dep: &Dep) -> (yes: bool)
        requires
            self@.has(j),
        ensures
            yes == self@.consumes(j, *dep),
    {
        if !self.fibers[j].held || self.fibers[j].id == dep.provider || !self.registry.waiting(
            &dep.key,
            j,
        ) {
            return false;
        }
        match &self.fibers[j].last_deps {
            Some(deps) => contains_dep(deps, dep),
            None => false,
        }
    }

    /// Takes a service out, after everybody who depended on it has been seen to:
    /// its slot is freed unless another binding has taken it meanwhile, and the
    /// provider's account loses one entry of the key and scope.
    pub fn finish_evict(
        &mut self,
        provider: FiberIx,
        key: &TypeKey,
        scope: &Option<ScopeId>,
        binding: Option<u64>,
    )
        requires
            old(self)@.wf(),
        ensures
            final(self)@.wf(),
            ({
                let registry = match binding {
                    Some(id) => if old(self)@.registry.is_current(*key, *scope, id) {
                        RegistryModel {
                            slots: old(self)@.registry.slots.remove(
                                old(self)@.registry.place(*key, *scope),
                            ),
                            ..old(self)@.registry
                        }
                    } else {
                        old(self)@.registry
                    },
                    None => old(self)@.registry,
                };
                let freed = SharedModel { registry, ..old(self)@ };
                if old(self)@.has(provider) && old(self)@.fiber(provider).held && accounted(
                    old(self)@.fiber(provider).provided,
                    *key,
                    *scope,
                ) {
                    exists|at: int|
                        #![trigger first_entry(old(self)@.fiber(provider).provided, *key, *scope, at)]
                        first_entry(old(self)@.fiber(provider).provided, *key, *scope, at)
                            && final(self)@ == freed.put(
                            provider,
                            FiberModel {
                                provided: old(self)@.fiber(provider).provided.update(
                                    at,
                                    old(self)@.fiber(provider).provided.last(),
                                ).drop_last(),
                                ..old(self)@.fiber(provider)
                            },
                        )
                } else {
                    final(self)@ == freed
                }
            }),
    {
        let ghost before = self@;
        if let Some(id) = binding {
            self.registry.finalize_binding_if(key, scope, id);
        }
        let ghost freed = self@;
        if provider < self.fibers.len() && self.fibers[provider].held {
            if let Some(at) = find_provided(&self.fibers[provider].provided, key, scope) {
                let _ = self.fibers[provider].provided.swap_remove(at);
                assert(self@.fibers =~= freed.put(
                    provider,
                    FiberModel {
                        provided: before.fiber(provider).provided.update(
                            at as int,
                            before.fiber(provider).provided.last(),
                        ).drop_last(),
                        ..before.fiber(provider)
                    },
                ).fibers);
                assert(first_entry(before.fiber(provider).provided, *key, *scope, at as int));
            }
        }
    }
}

/// An entry of a provider's account.
pub open spec fn entry_at(
    provided: Seq<(TypeKey, Option<ScopeId>)>,
    key: TypeKey,
    scope: Option<ScopeId>,
    at: int,
) -> bool {
    0 <= at < provided.len() && same_key(provided[at].0, key) && same_scope(provided[at].1, scope)
}

/// The account has an entry of the key and scope.
pub open spec fn accounted(
    provided: Seq<(TypeKey, Option<ScopeId>)>,
    key: TypeKey,
    scope: Option<ScopeId>,
) -> bool {
    exists|at: int| #[trigger] entry_at(provided, key, scope, at)
}

/// The first entry of the key and scope.
pub open spec fn first_entry(
    provided: Seq<(TypeKey, Option<ScopeId>)>,
    key: TypeKey,
    scope: Option<ScopeId>,
    at: int,
) -> bool {
    &&& entry_at(provided, key, scope, at)
    &&& forall|j: int| 0 <= j < at ==> !#[trigger] entry_at(provided, key, scope, j)
}

pub fn find_provided(
    provided: &Vec<(TypeKey, Option<ScopeId>)>,
    key: &TypeKey,
    scope: &Option<ScopeId>,
) -> (at: Option<usize>)
    ensures
        match at {
            Some(i) => first_entry(provided@, *key, *scope, i as int),
            None => !accounted(provided@, *key, *scope),
        },
{
    let mut i: usize = 0;
    while i < provided.len()
        invariant
            i <= provided.len(),
            forall|j: int| 0 <= j < i ==> !#[trigger] entry_at(provided@, *key, *scope, j),
        decreases provided.len() - i,
    {
        if provided[i].0 == *key && scope_eq(&provided[i].1, scope) {
            assert(entry_at(provided@, *key, *scope, i as int));
            return Some(i);
        }
        i += 1;
    }
    None
}

} // verus!
