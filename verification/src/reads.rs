//! Reading services: the optional locator and the strict read.

use std::any::TypeId;

use crate::ctx::{scope_seen, Ctx};
use crate::diagnostics::{DependencyStatus, ServiceAccess};
use crate::error::{CallSite, ServiceReadError, ServiceReadFailure};
use crate::fiber::{FiberIx, FiberModel, FiberState, PluginId};
use crate::key::{
    clone_scope, same_key, same_scope, scope_eq, type_id_of, type_identity, ScopeId, TypeKey,
};
use crate::registry::{Binding, ValueId};
use crate::services::{accounted, find_provided};
use crate::shared::{Shared, SharedModel};
use vstd::prelude::*;

verus! {

broadcast use crate::shared::fiber_is_viewed;

/// Where a value came from: its provider, the provider's generation, and
/// whether the reader is outside the provider's subtree.
pub type Found = Option<(PluginId, u64, bool)>;

/// What the interceptors of a service made of a read.
#[derive(Debug, Clone, Copy, PartialEq, Eq, Structural)]
pub enum HookFailure {
    Denied,
    Panicked,
    Reentrant,
}

/// How a strict read is judged before the interceptors.
pub enum ReadVerdict {
    Refused { reason: ServiceReadFailure, found: Found, declared: bool },
    Granted { value: ValueId, found: Found, declared: bool },
}

/// A strict read that only the interceptors can still refuse.
pub struct ReadGrant {
    pub value: ValueId,
    pub found: Found,
    pub declared: bool,
}

pub open spec fn same_access(a: ServiceAccess, b: ServiceAccess) -> bool {
    &&& same_key(a.key, b.key)
    &&& same_scope(a.scope, b.scope)
    &&& a.provider == b.provider
    &&& a.generation == b.generation
    &&& a.declared == b.declared
    &&& a.external == b.external
    &&& a.out_of_scope == b.out_of_scope
    &&& a.strict == b.strict
    &&& a.failure == b.failure
}

/// The entry of one read.
pub open spec fn access_entry(
    key: TypeKey,
    scope: Option<ScopeId>,
    found: Found,
    declared: bool,
    strict: bool,
    failure: Option<ServiceReadFailure>,
    out_of_scope: bool,
) -> ServiceAccess {
    ServiceAccess {
        key,
        scope,
        provider: match found {
            Some((p, _, _)) => Some(p),
            None => None,
        },
        generation: match found {
            Some((_, g, _)) => Some(g),
            None => None,
        },
        declared,
        external: match found {
            Some((_, _, x)) => x,
            None => false,
        },
        out_of_scope,
        strict,
        failure,
    }
}

pub open spec fn has_access(list: Seq<ServiceAccess>, access: ServiceAccess) -> bool {
    exists|i: int| 0 <= i < list.len() && same_access(#[trigger] list[i], access)
}

/// The type of the key, as values are asked for by it.
pub open spec fn of_type(key: TypeKey, wanted: TypeId) -> bool {
    key.identity().type_id == wanted
}

impl SharedModel {
    /// A read has been entered in the fiber's account, where the same one is not
    /// entered twice.
    pub open spec fn accessed(self, ctx: Ctx, access: ServiceAccess) -> SharedModel {
        if !self.present(ctx) || has_access(self.fiber(ctx.node.fiber).accesses, access) {
            self
        } else {
            let f = self.fiber(ctx.node.fiber);
            self.put(ctx.node.fiber, FiberModel { accesses: f.accesses.push(access), ..f })
        }
    }

    /// Where a binding's value comes from, if its provider is still there.
    pub open spec fn source_of(self, ctx: Ctx, binding: Option<Binding>) -> Found {
        match binding {
            Some(b) => if self.has(b.provider) && self.fiber(b.provider).held {
                Some((b.provider_id, b.provider_gen, !self.within(ctx.node.fiber, b.provider)))
            } else {
                None
            },
            None => None,
        }
    }

    /// The value that a binding has for a reader. Inside the provider's own
    /// subtree the value is always there; anybody else sees it only while the
    /// reader is not on its way out, the provider is active, and the binding is
    /// not being taken away.
    pub open spec fn value_for(self, ctx: Ctx, binding: Option<Binding>) -> Option<ValueId> {
        match binding {
            Some(b) => if !self.has(b.provider) || !self.fiber(b.provider).held {
                None
            } else if self.within(ctx.node.fiber, b.provider) {
                Some(b.value)
            } else if self.asleep(ctx) || self.fiber(b.provider).state() != FiberState::Active
                || b.removing {
                None
            } else {
                Some(b.value)
            },
            None => None,
        }
    }

    pub open spec fn read_of(self, ctx: Ctx, key: TypeKey) -> Option<Binding> {
        self.registry.bound(key, scope_seen(ctx, key))
    }

    /// What an optional read gives.
    pub open spec fn located(self, ctx: Ctx, key: TypeKey, wanted: TypeId) -> Option<ValueId> {
        if self.in_instance_key(ctx.node.fiber, key) && of_type(key, wanted) {
            self.value_for(ctx, self.read_of(ctx, key))
        } else {
            None
        }
    }

    /// The reader's fiber provides the key itself, in the scope it sees.
    pub open spec fn owns(self, ctx: Ctx, key: TypeKey) -> bool {
        self.present(ctx) && accounted(
            self.fiber(ctx.node.fiber).provided,
            key,
            scope_seen(ctx, key),
        )
    }

    pub open spec fn declares(self, i: FiberIx, key: TypeKey) -> bool {
        exists|k: int|
            0 <= k < self.fiber(i).declared.len() && same_key(
                #[trigger] self.fiber(i).declared[k],
                key,
            )
    }

    /// The fiber, or one on its way to the root, declares the key and sees it in
    /// the same scope.
    pub open spec fn declared_for(self, i: FiberIx, key: TypeKey, scope: Option<ScopeId>) -> bool
        decreases i,
    {
        if !self.has(i) || !self.fiber(i).held {
            false
        } else if self.declares(i, key) && same_scope(
            scope_seen(self.nodes[i as int].ctx, key),
            scope,
        ) {
            true
        } else {
            match self.nodes[i as int].parent {
                Some(p) => p < i && self.declared_for(p, key, scope),
                None => false,
            }
        }
    }

    pub open spec fn injected(self, ctx: Ctx, key: TypeKey) -> bool {
        self.declared_for(ctx.node.fiber, key, scope_seen(ctx, key))
    }

    /// Why a strict read fails before anything is looked up.
    pub open spec fn early_failure(self, ctx: Ctx, key: TypeKey, wanted: TypeId) -> Option<
        ServiceReadFailure,
    > {
        if !self.in_instance_key(ctx.node.fiber, key) {
            Some(ServiceReadFailure::OutOfScope)
        } else if !of_type(key, wanted) {
            Some(ServiceReadFailure::TypeMismatch)
        } else if self.asleep(ctx) && !self.owns(ctx, key) {
            Some(ServiceReadFailure::Inactive)
        } else if !self.owns(ctx, key) && !self.injected(ctx, key) {
            Some(ServiceReadFailure::Undeclared)
        } else {
            None
        }
    }

    /// The status of the key as the context sees it.
    pub open spec fn read_status(self, ctx: Ctx, key: TypeKey) -> DependencyStatus {
        self.bound_status(key, scope_seen(ctx, key))
    }

    /// Why a fiber that provides the key itself may not read what somebody else
    /// has put in the slot.
    pub open spec fn replaced_failure(self, ctx: Ctx, key: TypeKey) -> Option<ServiceReadFailure> {
        if self.asleep(ctx) {
            Some(ServiceReadFailure::Inactive)
        } else if !self.injected(ctx, key) {
            Some(ServiceReadFailure::Undeclared)
        } else if self.read_status(ctx, key) != DependencyStatus::Ready {
            Some(ServiceReadFailure::Unavailable(self.read_status(ctx, key)))
        } else {
            None
        }
    }

    /// Whether the slot of a key that the reader provides holds somebody else's
    /// binding.
    pub open spec fn replaced(self, ctx: Ctx, key: TypeKey) -> bool {
        self.owns(ctx, key) && (self.source_of(ctx, self.read_of(ctx, key)) matches Some((p, _, _))
            && p != ctx.node.plugin_id)
    }

    /// How a strict read is judged.
    pub open spec fn verdict(self, ctx: Ctx, key: TypeKey, wanted: TypeId) -> ReadVerdict {
        let owns = self.owns(ctx, key);
        let declared = owns || self.injected(ctx, key);
        let status = self.read_status(ctx, key);
        let found = self.source_of(ctx, self.read_of(ctx, key));
        if self.early_failure(ctx, key, wanted) is Some {
            ReadVerdict::Refused {
                reason: self.early_failure(ctx, key, wanted)->0,
                found: None,
                declared,
            }
        } else if !owns && status != DependencyStatus::Ready {
            ReadVerdict::Refused {
                reason: ServiceReadFailure::Unavailable(status),
                found: None,
                declared,
            }
        } else if self.replaced(ctx, key) && self.replaced_failure(ctx, key) is Some {
            ReadVerdict::Refused {
                reason: self.replaced_failure(ctx, key)->0,
                found: None,
                declared: self.injected(ctx, key),
            }
        } else {
            match self.value_for(ctx, self.read_of(ctx, key)) {
                Some(value) => ReadVerdict::Granted { value, found, declared },
                None => ReadVerdict::Refused {
                    reason: if !owns && self.asleep(ctx) {
                        ServiceReadFailure::Inactive
                    } else if status == DependencyStatus::Ready {
                        ServiceReadFailure::Unavailable(DependencyStatus::Missing)
                    } else {
                        ServiceReadFailure::Unavailable(status)
                    },
                    found,
                    declared,
                },
            }
        }
    }
}

fn build_access(
    key: &TypeKey,
    scope: &Option<ScopeId>,
    found: Found,
    declared: bool,
    strict: bool,
    failure: Option<ServiceReadFailure>,
    out_of_scope: bool,
) -> (access: ServiceAccess)
    ensures
        access == access_entry(*key, *scope, found, declared, strict, failure, out_of_scope),
{
    let (provider, generation, external) = match found {
        Some((p, g, x)) => (Some(p), Some(g), x),
        None => (None, None, false),
    };
    ServiceAccess {
        key: key.clone(),
        scope: clone_scope(scope),
        provider,
        generation,
        declared,
        external,
        out_of_scope,
        strict,
        failure,
    }
}

fn opt_eq(a: Option<u64>, b: Option<u64>) -> (same: bool)
    ensures
        same == (a == b),
{
    match (a, b) {
        (Some(x), Some(y)) => x == y,
        (None, None) => true,
        _ => false,
    }
}

impl SharedModel {
    /// After an optional read: while the reader is being assembled, the read is
    /// entered in its account.
    pub open spec fn located_from(self, ctx: Ctx, key: TypeKey) -> SharedModel {
        if self.present(ctx) && self.fiber(ctx.node.fiber).state() == FiberState::Loading {
            let inside = self.in_instance_key(ctx.node.fiber, key);
            self.accessed(
                ctx,
                access_entry(
                    key,
                    scope_seen(ctx, key),
                    if inside {
                        self.source_of(ctx, self.read_of(ctx, key))
                    } else {
                        None
                    },
                    self.declares(ctx.node.fiber, key),
                    false,
                    None,
                    !inside,
                ),
            )
        } else {
            self
        }
    }

    /// A strict read, up to the interceptors, gives `result` and leads to
    /// `after`: a refusal is entered in the reader's account.
    pub open spec fn read_strictly(
        self,
        ctx: Ctx,
        key: TypeKey,
        wanted: TypeId,
        location: CallSite,
        result: Result<ReadGrant, ServiceReadError>,
        after: SharedModel,
    ) -> bool {
        match self.verdict(ctx, key, wanted) {
            ReadVerdict::Granted { value, found, declared } => {
                &&& result == Ok::<ReadGrant, ServiceReadError>(
                    ReadGrant { value, found, declared },
                )
                &&& after == self
            },
            ReadVerdict::Refused { reason, found, declared } => {
                &&& result == Err::<ReadGrant, ServiceReadError>(
                    read_failure(ctx, key, location, reason),
                )
                &&& after == self.accessed(
                    ctx,
                    access_entry(
                        key,
                        scope_seen(ctx, key),
                        found,
                        declared,
                        true,
                        Some(reason),
                        reason == ServiceReadFailure::OutOfScope,
                    ),
                )
            },
        }
    }
}

impl ServiceAccess {
    pub fn same(&self, other: &ServiceAccess) -> (same: bool)
        ensures
            same == same_access(*self, *other),
    {
        let provider = match (self.provider, other.provider) {
            (Some(x), Some(y)) => x == y,
            (None, None) => true,
            _ => false,
        };
        let failure = match (self.failure, other.failure) {
            (Some(x), Some(y)) => x == y,
            (None, None) => true,
            _ => false,
        };
        self.key == other.key && scope_eq(&self.scope, &other.scope) && provider && opt_eq(
            self.generation,
            other.generation,
        ) && self.declared == other.declared && self.external == other.external
            && self.out_of_scope == other.out_of_scope && self.strict == other.strict && failure
    }
}

impl Shared {
    /// Enters a read in the account of the context's fiber, once.
    pub fn record_access(&mut self, ctx: &Ctx, access: ServiceAccess)
        ensures
            old(self)@.wf() ==> final(self)@.wf(),
            final(self)@ == old(self)@.accessed(*ctx, access),
    {
        let ghost before = self@;
        let i: usize = ctx.node.fiber;
        if i >= self.fibers.len() || !self.fibers[i].held {
            return;
        }
        assert(self.fibers@[i as int]@ == before.fiber(i));
        let mut k: usize = 0;
        while k < self.fibers[i].accesses.len()
            invariant
                self@ == before,
                self@.has(i),
                k <= self@.fiber(i).accesses.len(),
                forall|l: int|
                    0 <= l < k ==> !same_access(#[trigger] self@.fiber(i).accesses[l], access),
                i == ctx.node.fiber,
            decreases self@.fiber(i).accesses.len() - k,
        {
            if self.fibers[i].accesses[k].same(&access) {
                assert(same_access(before.fiber(i).accesses[k as int], access));
                return;
            }
            k += 1;
        }
        self.fibers[i].accesses.push(access);
        assert(self@.fibers =~= before.accessed(*ctx, access).fibers);
    }

    fn owns(&self, ctx: &Ctx, key: &TypeKey, scope: &Option<ScopeId>) -> (yes: bool)
        requires
            *scope == scope_seen(*ctx, *key),
        ensures
            yes == self@.owns(*ctx, *key),
    {
        let i: usize = ctx.node.fiber;
        if i >= self.fibers.len() || !self.fibers[i].held {
            return false;
        }
        assert(self.fibers@[i as int]@ == self@.fiber(i));
        match find_provided(&self.fibers[i].provided, key, scope) {
            Some(_) => true,
            None => false,
        }
    }

    /// Whether a fiber declares a key.
    pub fn declares(&self, i: FiberIx, key: &TypeKey) -> (yes: bool)
        requires
            self@.has(i),
        ensures
            yes == self@.declares(i, *key),
    {
        let mut k: usize = 0;
        while k < self.fibers[i].declared_injects.len()
            invariant
                self@.has(i),
                k <= self@.fiber(i).declared.len(),
                forall|l: int|
                    0 <= l < k ==> !same_key(#[trigger] self@.fiber(i).declared[l], *key),
            decreases self@.fiber(i).declared.len() - k,
        {
            if self.fibers[i].declared_injects[k] == *key {
                assert(same_key(self@.fiber(i).declared[k as int], *key));
                return true;
            }
            k += 1;
        }
        false
    }

    fn declared_for(&self, i: FiberIx, key: &TypeKey, scope: &Option<ScopeId>) -> (yes: bool)
        requires
            self@.wf(),
        ensures
            yes == self@.declared_for(i, *key, *scope),
        decreases i,
    {
        if i >= self.fibers.len() || !self.fibers[i].held {
            return false;
        }
        assert(self.fibers@[i as int]@ == self@.fiber(i));
        if self.declares(i, key) {
            let seen = self.nodes[i].ctx.scope_for(key);
            if scope_eq(&seen, scope) {
                return true;
            }
        }
        match self.nodes[i].parent {
            Some(p) => {
                assert(p < i);
                self.declared_for(p, key, scope)
            },
            None => false,
        }
    }

    /// The value that a binding has for a reader, and where it comes from.
    pub fn read_binding(&self, ctx: &Ctx, binding: &Option<Binding>) -> (result: (
        Option<ValueId>,
        Found,
    ))
        requires
            self@.wf(),
        ensures
            result.0 == self@.value_for(*ctx, *binding),
            result.1 == self@.source_of(*ctx, *binding),
    {
        match binding {
            None => (None, None),
            Some(b) => {
                if b.provider >= self.fibers.len() || !self.fibers[b.provider].held {
                    return (None, None);
                }
                assert(self.fibers@[b.provider as int]@ == self@.fiber(b.provider));
                let own = self.in_subtree_of(ctx.node.fiber, b.provider);
                let found = Some((b.provider_id, b.provider_gen, !own));
                if !own && (ctx.is_asleep(self) || self.fibers[b.provider].trans.state
                    != FiberState::Active || b.removing) {
                    return (None, found);
                }
                (Some(b.value), found)
            },
        }
    }

    /// An optional read of a value of type `wanted`. While the reader is being
    /// assembled, the read is entered in its account.
    pub fn locate(&mut self, ctx: &Ctx, key: &TypeKey, wanted: &TypeId) -> (value: Option<ValueId>)
        requires
            old(self)@.wf(),
        ensures
            value == old(self)@.located(*ctx, *key, *wanted),
            final(self)@ == old(self)@.located_from(*ctx, *key),
            final(self)@.wf(),
    {
        let scope = ctx.scope_for(key);
        let i: usize = ctx.node.fiber;
        let inside = self.in_instance_key(i, key);
        let (found_value, found) = if inside {
            let binding = self.registry.lookup(key, &scope);
            self.read_binding(ctx, &binding)
        } else {
            (None, None)
        };
        let value = if key.has_type(wanted) {
            found_value
        } else {
            None
        };
        if i < self.fibers.len() && self.fibers[i].held {
            assert(self.fibers@[i as int]@ == self@.fiber(i));
            if self.fibers[i].trans.state == FiberState::Loading {
                let declared = self.declares(i, key);
                let access = build_access(key, &scope, found, declared, false, None, !inside);
                self.record_access(ctx, access);
            }
        }
        value
    }

    /// Judges a strict read of a value of type `wanted`.
    pub fn judge(&self, ctx: &Ctx, key: &TypeKey, wanted: &TypeId) -> (verdict: ReadVerdict)
        requires
            self@.wf(),
        ensures
            verdict == self@.verdict(*ctx, *key, *wanted),
    {
        let scope = ctx.scope_for(key);
        let owns = self.owns(ctx, key, &scope);
        let injected = self.declared_for(ctx.node.fiber, key, &scope);
        let declared = owns || injected;
        let idle = ctx.is_asleep(self);
        let failure = if !self.in_instance_key(ctx.node.fiber, key) {
            Some(ServiceReadFailure::OutOfScope)
        } else if !key.has_type(wanted) {
            Some(ServiceReadFailure::TypeMismatch)
        } else if idle && !owns {
            Some(ServiceReadFailure::Inactive)
        } else if !declared {
            Some(ServiceReadFailure::Undeclared)
        } else {
            None
        };
        if let Some(reason) = failure {
            return ReadVerdict::Refused { reason, found: None, declared };
        }
        let status = self.bound_status(key, &scope);
        if !owns && status != DependencyStatus::Ready {
            let reason = ServiceReadFailure::Unavailable(status);
            return ReadVerdict::Refused { reason, found: None, declared };
        }
        let binding = self.registry.lookup(key, &scope);
        let (value, found) = self.read_binding(ctx, &binding);
        let replaced = owns && match found {
            Some((p, _, _)) => p != ctx.node.plugin_id,
            None => false,
        };
        if replaced {
            let reason = if idle {
                Some(ServiceReadFailure::Inactive)
            } else if !injected {
                Some(ServiceReadFailure::Undeclared)
            } else if status != DependencyStatus::Ready {
                Some(ServiceReadFailure::Unavailable(status))
            } else {
                None
            };
            if let Some(reason) = reason {
                return ReadVerdict::Refused { reason, found: None, declared: injected };
            }
        }
        match value {
            Some(value) => ReadVerdict::Granted { value, found, declared },
            None => {
                let reason = if !owns && idle {
                    ServiceReadFailure::Inactive
                } else if status == DependencyStatus::Ready {
                    ServiceReadFailure::Unavailable(DependencyStatus::Missing)
                } else {
                    ServiceReadFailure::Unavailable(status)
                };
                ReadVerdict::Refused { reason, found, declared }
            },
        }
    }

    /// A strict read, up to the interceptors. A refused read is entered in the
    /// reader's account with its reason.
    pub fn begin_require(
        &mut self,
        ctx: &Ctx,
        key: &TypeKey,
        wanted: &TypeId,
        location: CallSite,
    ) -> (result: Result<ReadGrant, ServiceReadError>)
        requires
            old(self)@.wf(),
        ensures
            final(self)@.wf(),
            old(self)@.read_strictly(*ctx, *key, *wanted, location, result, final(self)@),
    {
        match self.judge(ctx, key, wanted) {
            ReadVerdict::Granted { value, found, declared } => Ok(
                ReadGrant { value, found, declared },
            ),
            ReadVerdict::Refused { reason, found, declared } => {
                let scope = ctx.scope_for(key);
                let outside = reason == ServiceReadFailure::OutOfScope;
                let access = build_access(key, &scope, found, declared, true, Some(reason), outside);
                self.record_access(ctx, access);
                Err(read_error(ctx, key, location, reason))
            },
        }
    }

    /// The end of a strict read: what the interceptors made of it is what the
    /// reader gets, and is entered in the reader's account.
    pub fn finish_require(
        &mut self,
        ctx: &Ctx,
        key: &TypeKey,
        grant: &ReadGrant,
        outcome: Result<ValueId, HookFailure>,
        location: CallSite,
    ) -> (result: Result<ValueId, ServiceReadError>)
        ensures
            old(self)@.wf() ==> final(self)@.wf(),
            match outcome {
                Ok(value) => result == Ok::<ValueId, ServiceReadError>(value),
                Err(failure) => result == Err::<ValueId, ServiceReadError>(
                    read_failure(*ctx, *key, location, hook_reason(failure)),
                ),
            },
            final(self)@ == old(self)@.accessed(
                *ctx,
                access_entry(
                    *key,
                    scope_seen(*ctx, *key),
                    grant.found,
                    grant.declared,
                    true,
                    match outcome {
                        Ok(_) => None,
                        Err(failure) => Some(hook_reason(failure)),
                    },
                    false,
                ),
            ),
    {
        let scope = ctx.scope_for(key);
        let failure = match outcome {
            Ok(_) => None,
            Err(HookFailure::Denied) => Some(ServiceReadFailure::InterceptDenied),
            Err(HookFailure::Panicked) => Some(ServiceReadFailure::InterceptPanicked),
            Err(HookFailure::Reentrant) => Some(ServiceReadFailure::InterceptReentrant),
        };
        let access = build_access(key, &scope, grant.found, grant.declared, true, failure, false);
        self.record_access(ctx, access);
        match (outcome, failure) {
            (Ok(value), _) => Ok(value),
            (Err(_), Some(reason)) => Err(read_error(ctx, key, location, reason)),
            (Err(_), None) => {
                assert(false);
                Err(read_error(ctx, key, location, ServiceReadFailure::InterceptDenied))
            },
        }
    }
}

/// The reader's view of what an interceptor ended in.
pub open spec fn hook_reason(failure: HookFailure) -> ServiceReadFailure {
    match failure {
        HookFailure::Denied => ServiceReadFailure::InterceptDenied,
        HookFailure::Panicked => ServiceReadFailure::InterceptPanicked,
        HookFailure::Reentrant => ServiceReadFailure::InterceptReentrant,
    }
}

pub open spec fn read_failure(
    ctx: Ctx,
    key: TypeKey,
    location: CallSite,
    reason: ServiceReadFailure,
) -> ServiceReadError {
    ServiceReadError {
        key,
        plugin_id: ctx.node.plugin_id,
        instance: ctx.node.instance,
        location,
        reason,
    }
}

fn read_error(ctx: &Ctx, key: &TypeKey, location: CallSite, reason: ServiceReadFailure) -> (e:
    ServiceReadError)
    ensures
        e == read_failure(*ctx, *key, location, reason),
{
    ServiceReadError {
        key: key.clone(),
        plugin_id: ctx.node.plugin_id,
        instance: ctx.node.instance,
        location,
        reason,
    }
}

impl Ctx {
    /// An optional read of a value of type `T`.
    pub fn get_as<T: ?Sized + 'static>(&self, shared: &mut Shared, key: &TypeKey) -> (value: Option<
        ValueId,
    >)
        requires
            old(shared)@.wf(),
        ensures
            final(shared)@.wf(),
            value == old(shared)@.located(*self, *key, type_identity::<T>()),
            final(shared)@ == old(shared)@.located_from(*self, *key),
    {
        let wanted = type_id_of::<T>();
        shared.locate(self, key, &wanted)
    }

    /// A strict read of a value of type `T`, up to the interceptors.
    pub fn require_as<T: ?Sized + 'static>(
        &self,
        shared: &mut Shared,
        key: &TypeKey,
        location: CallSite,
    ) -> (result: Result<ReadGrant, ServiceReadError>)
        requires
            old(shared)@.wf(),
        ensures
            final(shared)@.wf(),
            old(shared)@.read_strictly(
                *self,
                *key,
                type_identity::<T>(),
                location,
                result,
                final(shared)@,
            ),
    {
        let wanted = type_id_of::<T>();
        shared.begin_require(self, key, &wanted, location)
    }
}

/// The root sees every key in no scope. A fiber sees each key in the scope in which
/// the context sees it that the fiber was mounted through.
pub proof fn scopes_come_from_the_mounting_context(m: SharedModel, i: FiberIx, key: TypeKey)
    requires
        m.wf(),
        m.has(i),
    ensures
        i == 0 ==> scope_seen(m.nodes[i as int].ctx, key) is None,
        i != 0 ==> (m.nodes[i as int].ctx.node.parent matches Some(above) && scope_seen(
            m.nodes[i as int].ctx,
            key,
        ) == scope_seen(above, key)),
{
    assert(m.placed(m.nodes[i as int], i as int));
}

proof fn other_scopes_declare_nothing(
    m: SharedModel,
    i: FiberIx,
    key: TypeKey,
    scope: Option<ScopeId>,
)
    requires
        forall|a: FiberIx| #[trigger]
            m.within(i, a) && m.declares(a, key) ==> !same_scope(
                scope_seen(m.nodes[a as int].ctx, key),
                scope,
            ),
    ensures
        !m.declared_for(i, key, scope),
    decreases i,
{
    if m.has(i) && m.fiber(i).held {
        assert(m.within(i, i));
        if let Some(p) = m.nodes[i as int].parent {
            if p < i {
                assert forall|a: FiberIx| #[trigger]
                    m.within(p, a) && m.declares(a, key) implies !same_scope(
                    scope_seen(m.nodes[a as int].ctx, key),
                    scope,
                ) by {
                    assert(m.within(i, a));
                }
                other_scopes_declare_nothing(m, p, key, scope);
            }
        }
    }
}

/// Declarations respect isolation: where no fiber on the way to the root declares
/// the key in the scope that the reader sees, the key is undeclared for the reader,
/// whatever is declared in other scopes.
pub proof fn declarations_respect_isolation(
    m: SharedModel,
    ctx: Ctx,
    key: TypeKey,
    wanted: TypeId,
)
    requires
        forall|a: FiberIx| #[trigger]
            m.within(ctx.node.fiber, a) && m.declares(a, key) ==> !same_scope(
                scope_seen(m.nodes[a as int].ctx, key),
                scope_seen(ctx, key),
            ),
    ensures
        !m.injected(ctx, key),
        m.in_instance_key(ctx.node.fiber, key) && of_type(key, wanted) && !m.asleep(ctx) && !m.owns(
            ctx,
            key,
        ) ==> (m.verdict(ctx, key, wanted) matches ReadVerdict::Refused { reason, .. } && reason
            == ServiceReadFailure::Undeclared),
{
    other_scopes_declare_nothing(m, ctx.node.fiber, key, scope_seen(ctx, key));
}

/// Outside the subtree of the instance that owns a key, the key is out of scope
/// for strict reads and gives nothing to optional ones, whatever is bound to it.
pub proof fn instance_keys_stay_in_their_subtree(m: SharedModel, ctx: Ctx, key: TypeKey, wanted: TypeId)
    requires
        !m.in_instance_key(ctx.node.fiber, key),
    ensures
        m.located(ctx, key, wanted) is None,
        m.verdict(ctx, key, wanted) matches ReadVerdict::Refused { reason, found, declared }
            && reason == ServiceReadFailure::OutOfScope && found is None,
{
}

/// A strict read that is granted gives what an optional read gives; and it is
/// granted only to a fiber that provides the key or has it declared.
pub proof fn strict_reads_agree_with_optional_ones(
    m: SharedModel,
    ctx: Ctx,
    key: TypeKey,
    wanted: TypeId,
)
    requires
        m.verdict(ctx, key, wanted) is Granted,
    ensures
        m.located(ctx, key, wanted) == Some(m.verdict(ctx, key, wanted)->Granted_value),
        m.owns(ctx, key) || m.injected(ctx, key),
{
}

/// A fiber that reads somebody else's service strictly gets it only while it is
/// ready: present, not being taken away, its provider active, its check passed.
pub proof fn strict_reads_of_others_need_readiness(
    m: SharedModel,
    ctx: Ctx,
    key: TypeKey,
    wanted: TypeId,
)
    requires
        m.verdict(ctx, key, wanted) is Granted,
        !m.owns(ctx, key),
    ensures
        m.read_status(ctx, key) == DependencyStatus::Ready,
{
}

} // verus!
