//! Interceptors of strict reads and of updates, and the right to update a
//! mutable service.

use std::any::TypeId;

use crate::bus::picked_list;
use crate::ctx::{scope_seen, Ctx};
use crate::effect::{fresh_record, Callback, Effect};
use crate::error::{
    single_issue, validation_issue, CallSite, CordisError, ServiceWriteError, ServiceWriteFailure,
};
use crate::fiber::{FiberIx, FiberState, PluginId, RecordId};
use crate::key::{clone_scope, same_key, same_scope, scope_eq, InstanceId, ScopeId, TypeKey};
use crate::list::{
    adding_takes_a_number, filter_empty, filter_step, filtering_keeps_numbers, numbered,
    shrink_if_sparse, whole,
};
use crate::reads::HookFailure;
use crate::registry::{Binding, ValueId};
use crate::shared::{Shared, SharedModel};
use crate::text::joined;
use vstd::prelude::*;

verus! {

broadcast use crate::shared::fiber_is_viewed;

/// What an interceptor decides: let the value pass, put another one of the same
/// type in its place, or refuse the operation.
pub enum ServiceIntercept<T> {
    Continue,
    Replace(T),
    Deny,
}

/// The operation that is intercepted.
#[derive(Debug, Clone, Copy, PartialEq, Eq, Structural)]
pub enum HookKind {
    Read,
    Write,
}

/// A registered interceptor. No two registrations share an id.
#[derive(Debug, Clone, Copy, PartialEq, Eq, Structural)]
pub struct Interceptor {
    pub id: u64,
    pub kind: HookKind,
    pub call: Callback,
    pub owner: FiberIx,
}

/// An interceptor with the key and scope that it is for.
pub struct Interception {
    pub key: TypeKey,
    pub scope: Option<ScopeId>,
    pub hook: Interceptor,
}

/// The interceptors of one root, in the order in which they are called.
pub struct ServiceInterceptors {
    pub entries: Vec<Interception>,
    pub next_id: u64,
}

/// `ServiceInterceptors`, with its list as a sequence.
pub struct InterceptModel {
    pub entries: Seq<Interception>,
    pub next: u64,
}

impl View for ServiceInterceptors {
    type V = InterceptModel;

    open spec fn view(&self) -> InterceptModel {
        InterceptModel { entries: self.entries@, next: self.next_id }
    }
}

/// An entry for the operation on the key in the scope.
pub open spec fn concerns(
    e: Interception,
    kind: HookKind,
    key: TypeKey,
    scope: Option<ScopeId>,
) -> bool {
    e.hook.kind == kind && same_key(e.key, key) && same_scope(e.scope, scope)
}

/// The id of an entry's interceptor.
pub open spec fn interceptor_id() -> spec_fn(Interception) -> u64 {
    |e: Interception| e.hook.id
}

impl InterceptModel {
    /// No two interceptors have the same id, and that of the next is above all.
    pub open spec fn wf(self) -> bool {
        numbered(self.entries, interceptor_id(), self.next)
    }
}

/// All entries but that of one interceptor.
pub open spec fn other_interceptor(id: u64) -> spec_fn(Interception) -> bool {
    |e: Interception| e.hook.id != id
}

impl SharedModel {
    /// The interceptor takes part in what the context does: its owner is there,
    /// takes requests, is not closing, and is the context's fiber or on its way
    /// to the root.
    pub open spec fn attends(self, ctx: Ctx, hook: Interceptor) -> bool {
        &&& self.has(hook.owner)
        &&& self.fiber(hook.owner).held
        &&& self.fiber(hook.owner).alive
        &&& !self.fiber(hook.owner).closing
        &&& self.within(ctx.node.fiber, hook.owner)
    }

    /// The interceptors that are called, among the first `n` entries.
    pub open spec fn selected(
        self,
        entries: Seq<Interception>,
        kind: HookKind,
        key: TypeKey,
        scope: Option<ScopeId>,
        ctx: Ctx,
        n: nat,
    ) -> Seq<Interceptor>
        decreases n,
    {
        if n == 0 {
            seq![]
        } else {
            let before = self.selected(entries, kind, key, scope, ctx, (n - 1) as nat);
            let e = entries[n - 1];
            if concerns(e, kind, key, scope) && self.attends(ctx, e.hook) {
                before.push(e.hook)
            } else {
                before
            }
        }
    }

    /// The end of fiber `j` waits for the interceptors: it is the actor's, or
    /// that of an interceptor.
    pub open spec fn attending(self, ctx: Ctx, hooks: Seq<Interceptor>, j: FiberIx) -> bool {
        &&& self.has(j)
        &&& self.fiber(j).held
        &&& (ctx.node.fiber == j || owns_interceptor(hooks, j))
    }
}

/// One of the interceptors is owned by fiber `j`.
pub open spec fn owns_interceptor(hooks: Seq<Interceptor>, j: FiberIx) -> bool {
    exists|k: int| 0 <= k < hooks.len() && (#[trigger] hooks[k]).owner == j
}

fn any_interceptor(hooks: &Vec<Interceptor>, j: FiberIx) -> (yes: bool)
    ensures
        yes == owns_interceptor(hooks@, j),
{
    let mut k: usize = 0;
    while k < hooks.len()
        invariant
            k <= hooks.len(),
            forall|l: int| 0 <= l < k ==> (#[trigger] hooks@[l]).owner != j,
        decreases hooks.len() - k,
    {
        if hooks[k].owner == j {
            assert(hooks@[k as int].owner == j);
            return true;
        }
        k += 1;
    }
    false
}

/// The interceptors chosen for one operation.
pub struct Selection {
    /// In the order of calling.
    pub hooks: Vec<Interceptor>,
    /// The fibers whose end waits for them.
    pub flight: Vec<FiberIx>,
}

/// The complaint about an interceptor that is not for its key's type.
pub open spec fn interceptor_complaint(key: TypeKey) -> Seq<char> {
    "interceptor type does not match "@ + key.description()
}

/// How diagnostics call an interceptor.
pub open spec fn interceptor_label(kind: HookKind, key: TypeKey) -> Seq<char> {
    match kind {
        HookKind::Read => "service read interceptor: "@ + key.description(),
        HookKind::Write => "service write interceptor: "@ + key.description(),
    }
}

impl ServiceInterceptors {
    pub fn new() -> (all: Self)
        ensures
            all@ == (InterceptModel { entries: Seq::empty(), next: 0 }),
            all@.wf(),
    {
        ServiceInterceptors { entries: Vec::new(), next_id: 0 }
    }

    /// Registers an interceptor for values of type `given`, owned by the
    /// context's fiber, for the key in the scope that the context sees.
    pub fn register_service_interceptor(
        &mut self,
        shared: &mut Shared,
        ctx: &Ctx,
        key: TypeKey,
        given: &TypeId,
        kind: HookKind,
        call: Callback,
        cleanup: Callback,
    ) -> (result: Result<(RecordId, u64), CordisError>)
        requires
            old(shared)@.wf(),
            old(self)@.next < u64::MAX,
        ensures
            final(shared)@.wf(),
            old(self)@.wf() ==> final(self)@.wf(),
            match old(shared)@.key_refusal(*ctx, key) {
                Some(e) => {
                    &&& result == Err::<(RecordId, u64), CordisError>(e)
                    &&& final(self)@ == old(self)@
                    &&& final(shared)@ == old(shared)@
                },
                None => if key.identity().type_id != *given {
                    &&& result matches Err(e)
                    &&& single_issue(e, interceptor_complaint(key))
                    &&& final(self)@ == old(self)@
                    &&& final(shared)@ == old(shared)@
                } else {
                    let hook = Interceptor {
                        id: old(self)@.next,
                        kind,
                        call,
                        owner: ctx.node.fiber,
                    };
                    &&& result == Ok::<(RecordId, u64), CordisError>(
                        (old(shared)@.records.len() as usize, old(self)@.next),
                    )
                    &&& final(self)@ == (InterceptModel {
                        entries: old(self)@.entries.push(
                            Interception { key, scope: scope_seen(*ctx, key), hook },
                        ),
                        next: (old(self)@.next + 1) as u64,
                    })
                    &&& fresh_record(
                        final(shared)@.records.last(),
                        Effect::AsyncDisposer(cleanup),
                        interceptor_label(kind, key),
                        ctx.node.fiber,
                    )
                    &&& final(shared)@ == old(shared)@.with_effect(
                        ctx.node.fiber,
                        final(shared)@.records.last(),
                    )
                },
            },
    {
        match ctx.key_preflight(shared, &key) {
            Ok(()) => {},
            Err(e) => {
                return Err(e);
            },
        }
        if !key.has_type(given) {
            return Err(
                validation_issue(
                    joined("interceptor type does not match ", key.describe().as_str()),
                ),
            );
        }
        let scope = ctx.scope_for(&key);
        let id: u64 = self.next_id;
        self.next_id = id + 1;
        let label = match kind {
            HookKind::Read => joined("service read interceptor: ", key.describe().as_str()),
            HookKind::Write => joined("service write interceptor: ", key.describe().as_str()),
        };
        let hook = Interceptor { id, kind, call, owner: ctx.node.fiber };
        let entry = Interception { key, scope, hook };
        self.entries.push(entry);
        proof {
            if old(self)@.wf() {
                adding_takes_a_number(
                    old(self)@.entries,
                    entry,
                    interceptor_id(),
                    old(self)@.next,
                );
            }
        }
        let record = shared.push_effect(ctx.node.fiber, &Effect::AsyncDisposer(cleanup), label);
        Ok((record, id))
    }

    /// Takes an interceptor away.
    pub fn remove(&mut self, id: u64)
        ensures
            old(self)@.wf() ==> final(self)@.wf(),
            final(self)@ == (InterceptModel {
                entries: old(self)@.entries.filter(other_interceptor(id)),
                ..old(self)@
            }),
    {
        let ghost all = self.entries@;
        let ghost keep = other_interceptor(id);
        let mut kept: Vec<Interception> = Vec::new();
        let mut i: usize = 0;
        proof {
            filter_empty(all, keep);
        }
        while i < self.entries.len()
            invariant
                i <= self.entries.len(),
                self.entries@ == all,
                self@ == old(self)@,
                keep == other_interceptor(id),
                kept@ == all.subrange(0, i as int).filter(keep),
            decreases self.entries.len() - i,
        {
            proof {
                filter_step(all, i as int, keep);
            }
            let hook = self.entries[i].hook;
            if hook.id != id {
                kept.push(
                    Interception {
                        key: self.entries[i].key.clone(),
                        scope: clone_scope(&self.entries[i].scope),
                        hook,
                    },
                );
            }
            i += 1;
        }
        proof {
            whole(all);
            if old(self)@.wf() {
                filtering_keeps_numbers(all, keep, interceptor_id(), old(self)@.next);
            }
        }
        shrink_if_sparse(&mut kept);
        self.entries = kept;
    }

    /// Chooses the interceptors of an operation that the context carries out,
    /// and lets the ends of their fibers and of the context's wait for them.
    pub fn select(
        &self,
        shared: &mut Shared,
        kind: HookKind,
        key: &TypeKey,
        scope: &Option<ScopeId>,
        ctx: &Ctx,
    ) -> (selection: Selection)
        requires
            old(shared)@.wf(),
            old(shared)@.flight_room(),
        ensures
            final(shared)@.wf(),
            selection.hooks@ == old(shared)@.selected(
                self@.entries,
                kind,
                *key,
                *scope,
                *ctx,
                self@.entries.len(),
            ),
            ({
                let picked = Seq::new(
                    old(shared)@.fibers.len(),
                    |j: int| old(shared)@.attending(*ctx, selection.hooks@, j as usize),
                );
                selection.flight@ == picked_list(picked, picked.len()) && final(shared)@
                    == old(shared)@.airborne(picked, picked.len())
            }),
    {
        let ghost before = shared@;
        let mut hooks: Vec<Interceptor> = Vec::new();
        let mut i: usize = 0;
        while i < self.entries.len()
            invariant
                i <= self.entries.len(),
                shared@ == before,
                shared@.wf(),
                hooks@ == before.selected(self@.entries, kind, *key, *scope, *ctx, i as nat),
            decreases self.entries.len() - i,
        {
            let e = &self.entries[i];
            let hook = e.hook;
            let o: usize = hook.owner;
            if hook.kind == kind && e.key == *key && scope_eq(&e.scope, scope) && o
                < shared.fibers.len() && shared.fibers[o].held && shared.fibers[o].alive
                && !shared.fibers[o].closing && shared.in_subtree_of(ctx.node.fiber, o) {
                assert(shared.fibers@[o as int]@ == before.fiber(o));
                assert(concerns(self@.entries[i as int], kind, *key, *scope));
                hooks.push(hook);
            } else {
                if o < shared.fibers.len() {
                    assert(shared.fibers@[o as int]@ == before.fiber(o));
                }
            }
            i += 1;
        }
        let mut picked: Vec<bool> = Vec::new();
        let mut j: usize = 0;
        while j < shared.fibers.len()
            invariant
                shared@ == before,
                j <= shared.fibers.len(),
                picked@.len() == j,
                forall|k: int|
                    0 <= k < j ==> #[trigger] picked@[k] == before.attending(
                        *ctx,
                        hooks@,
                        k as usize,
                    ),
            decreases shared.fibers.len() - j,
        {
            assert(shared.fibers@[j as int]@ == before.fiber(j));
            picked.push(
                shared.fibers[j].held && (ctx.node.fiber == j || any_interceptor(&hooks, j)),
            );
            j += 1;
        }
        assert(picked@ =~= Seq::new(
            before.fibers.len(),
            |j: int| before.attending(*ctx, hooks@, j as usize),
        ));
        let flight = shared.take_off(&picked);
        Selection { hooks, flight }
    }
}

/// The operations whose interceptors are being called, innermost last.
pub struct ReentryGuard {
    active: Vec<(HookKind, TypeKey, Option<ScopeId>)>,
}

/// The operation on the key in the scope is among those.
pub open spec fn entered(
    active: Seq<(HookKind, TypeKey, Option<ScopeId>)>,
    kind: HookKind,
    key: TypeKey,
    scope: Option<ScopeId>,
) -> bool {
    exists|i: int|
        0 <= i < active.len() && (#[trigger] active[i]).0 == kind && same_key(active[i].1, key)
            && same_scope(active[i].2, scope)
}

impl ReentryGuard {
    pub closed spec fn running(&self) -> Seq<(HookKind, TypeKey, Option<ScopeId>)> {
        self.active@
    }

    pub fn new() -> (guard: Self)
        ensures
            guard.running() == Seq::<(HookKind, TypeKey, Option<ScopeId>)>::empty(),
    {
        ReentryGuard { active: Vec::new() }
    }

    /// Enters an operation, unless it is running already.
    pub fn enter(&mut self, kind: HookKind, key: &TypeKey, scope: &Option<ScopeId>) -> (result: Result<
        (),
        HookFailure,
    >)
        ensures
            if entered(old(self).running(), kind, *key, *scope) {
                result == Err::<(), HookFailure>(HookFailure::Reentrant) && final(self).running()
                    == old(self).running()
            } else {
                result == Ok::<(), HookFailure>(()) && final(self).running()
                    == old(self).running().push((kind, *key, *scope))
            },
    {
        let mut i: usize = 0;
        while i < self.active.len()
            invariant
                i <= self.active.len(),
                self.running() == old(self).running(),
                forall|j: int|
                    0 <= j < i ==> !((#[trigger] self.running()[j]).0 == kind && same_key(
                        self.running()[j].1,
                        *key,
                    ) && same_scope(self.running()[j].2, *scope)),
            decreases self.active.len() - i,
        {
            let entry = &self.active[i];
            if entry.0 == kind && entry.1 == *key && scope_eq(&entry.2, scope) {
                assert(self.running()[i as int].0 == kind);
                return Err(HookFailure::Reentrant);
            }
            i += 1;
        }
        self.active.push((kind, key.clone(), clone_scope(scope)));
        Ok(())
    }

    /// Leaves the operation entered last.
    pub fn leave(&mut self)
        ensures
            old(self).running().len() > 0 ==> final(self).running()
                == old(self).running().drop_last(),
            old(self).running().len() == 0 ==> final(self).running() == old(self).running(),
    {
        let _ = self.active.pop();
    }
}

/// What became of calling an interceptor.
pub enum HookOutcome {
    Decided(ServiceIntercept<ValueId>),
    Panicked,
}

/// One run of the interceptors of an operation over a value.
pub struct InterceptRun {
    hooks: Vec<Interceptor>,
    next: usize,
    value: ValueId,
    failed: Option<HookFailure>,
    inside: bool,
}

impl InterceptRun {
    pub closed spec fn wf(&self) -> bool {
        self.next <= self.hooks@.len()
    }

    /// The interceptors not called yet.
    pub closed spec fn left(&self) -> Seq<Interceptor> {
        self.hooks@.subrange(self.next as int, self.hooks@.len() as int)
    }

    /// The value that the next interceptor sees.
    pub closed spec fn current(&self) -> ValueId {
        self.value
    }

    /// Why the operation has been refused, if it has.
    pub closed spec fn refused(&self) -> Option<HookFailure> {
        self.failed
    }

    /// The run stands among the operations that the guard holds.
    pub closed spec fn guarded(&self) -> bool {
        self.inside
    }

    /// Starts a run. Without interceptors the value passes; otherwise the
    /// operation is entered, which fails where it is running already.
    pub fn begin(
        guard: &mut ReentryGuard,
        hooks: Vec<Interceptor>,
        kind: HookKind,
        key: &TypeKey,
        scope: &Option<ScopeId>,
        value: ValueId,
    ) -> (result: Result<Self, HookFailure>)
        ensures
            if hooks@.len() == 0 {
                &&& final(guard).running() == old(guard).running()
                &&& result matches Ok(run)
                &&& run.starts(hooks@, value)
                &&& !run.guarded()
            } else if entered(old(guard).running(), kind, *key, *scope) {
                &&& final(guard).running() == old(guard).running()
                &&& result == Err::<Self, HookFailure>(HookFailure::Reentrant)
            } else {
                &&& final(guard).running() == old(guard).running().push((kind, *key, *scope))
                &&& result matches Ok(run)
                &&& run.starts(hooks@, value)
                &&& run.guarded()
            },
    {
        assert(hooks@.subrange(0, hooks@.len() as int) =~= hooks@);
        let inside = hooks.len() > 0;
        if inside {
            match guard.enter(kind, key, scope) {
                Ok(()) => {},
                Err(e) => {
                    return Err(e);
                },
            }
        }
        Ok(InterceptRun { hooks, next: 0, value, failed: None, inside })
    }

    /// A run of the interceptors over the value, before the first call.
    pub open spec fn starts(&self, hooks: Seq<Interceptor>, value: ValueId) -> bool {
        &&& self.wf()
        &&& self.left() == hooks
        &&& self.current() == value
        &&& self.refused() is None
    }

    /// The interceptor to call next and the value to show it: the first one
    /// left, unless the operation has been refused.
    pub fn next_hook(&mut self) -> (call: Option<(Interceptor, ValueId)>)
        requires
            old(self).wf(),
        ensures
            final(self).wf(),
            final(self).current() == old(self).current(),
            final(self).refused() == old(self).refused(),
            final(self).guarded() == old(self).guarded(),
            if old(self).refused() is Some || old(self).left().len() == 0 {
                call is None && final(self).left() == old(self).left()
            } else {
                call == Some((old(self).left()[0], old(self).current())) && final(self).left()
                    == old(self).left().drop_first()
            },
    {
        if self.failed.is_some() || self.next >= self.hooks.len() {
            return None;
        }
        let ghost before = self.left();
        let hook = self.hooks[self.next];
        self.next = self.next + 1;
        assert(self.left() =~= before.drop_first());
        Some((hook, self.value))
    }

    /// Takes note of what became of the interceptor called last.
    pub fn ended(&mut self, outcome: HookOutcome)
        requires
            old(self).wf(),
            old(self).refused() is None,
        ensures
            final(self).wf(),
            final(self).left() == old(self).left(),
            final(self).guarded() == old(self).guarded(),
            match outcome {
                HookOutcome::Decided(ServiceIntercept::Continue) => final(self).current()
                    == old(self).current() && final(self).refused() is None,
                HookOutcome::Decided(ServiceIntercept::Replace(v)) => final(self).current() == v
                    && final(self).refused() is None,
                HookOutcome::Decided(ServiceIntercept::Deny) => final(self).refused() == Some(
                    HookFailure::Denied,
                ),
                HookOutcome::Panicked => final(self).refused() == Some(HookFailure::Panicked),
            },
    {
        match outcome {
            HookOutcome::Decided(ServiceIntercept::Continue) => {},
            HookOutcome::Decided(ServiceIntercept::Replace(v)) => {
                self.value = v;
            },
            HookOutcome::Decided(ServiceIntercept::Deny) => {
                self.failed = Some(HookFailure::Denied);
            },
            HookOutcome::Panicked => {
                self.failed = Some(HookFailure::Panicked);
            },
        }
    }

    /// Leaves the operation, where it was entered, and says what the
    /// interceptors made of the value.
    pub fn finish(self, guard: &mut ReentryGuard) -> (result: Result<ValueId, HookFailure>)
        requires
            self.guarded() ==> old(guard).running().len() > 0,
        ensures
            final(guard).running() == (if self.guarded() {
                old(guard).running().drop_last()
            } else {
                old(guard).running()
            }),
            result == (match self.refused() {
                Some(f) => Err::<ValueId, HookFailure>(f),
                None => Ok(self.current()),
            }),
    {
        if self.inside {
            guard.leave();
        }
        match self.failed {
            Some(f) => Err(f),
            None => Ok(self.value),
        }
    }
}

/// The right to update one mutable binding of one generation of its provider.
pub struct ServiceWriter {
    pub key: TypeKey,
    pub scope: Option<ScopeId>,
    pub binding: u64,
    pub provider: FiberIx,
    pub provider_id: PluginId,
    pub provider_gen: u64,
    /// The root of the runtime that the binding is in.
    pub root: InstanceId,
}

impl SharedModel {
    /// Why an update is refused before the interceptors: only the provider
    /// itself, in the scope of the binding, may make it, and only while it can
    /// register.
    pub open spec fn write_refusal(self, ctx: Ctx, w: ServiceWriter) -> Option<ServiceWriteFailure> {
        if self.nodes[0].instance != w.root {
            Some(ServiceWriteFailure::WrongOwner)
        } else if !self.has(w.provider) || !self.fiber(w.provider).held {
            Some(ServiceWriteFailure::Stale)
        } else if !self.present(ctx) || ctx.node.fiber != w.provider || !same_scope(
            scope_seen(ctx, w.key),
            w.scope,
        ) || !self.in_instance_key(ctx.node.fiber, w.key) {
            Some(ServiceWriteFailure::WrongOwner)
        } else if self.refusal(ctx) is Some {
            Some(ServiceWriteFailure::Stale)
        } else {
            None
        }
    }

    /// The binding can still be updated.
    pub open spec fn writable(self, ctx: Ctx, w: ServiceWriter) -> bool {
        &&& !self.closed_for(ctx)
        &&& self.has(w.provider)
        &&& self.fiber(w.provider).trans.generation == w.provider_gen
        &&& (self.fiber(w.provider).state() == FiberState::Loading || self.fiber(
            w.provider,
        ).state() == FiberState::Active)
        &&& self.registry.bound(w.key, w.scope) matches Some(b)
        &&& b.id == w.binding && b.mutable && !b.removing
    }
}

/// What a writer is told of a refused update.
pub open spec fn write_failure(
    w: ServiceWriter,
    location: CallSite,
    reason: ServiceWriteFailure,
) -> ServiceWriteError {
    ServiceWriteError {
        key: w.key,
        provider: w.provider_id,
        generation: w.provider_gen,
        location,
        reason,
    }
}

impl ServiceWriter {
    fn error(&self, location: CallSite, reason: ServiceWriteFailure) -> (e: ServiceWriteError)
        ensures
            e == write_failure(*self, location, reason),
    {
        ServiceWriteError {
            key: self.key.clone(),
            provider: self.provider_id,
            generation: self.provider_gen,
            location,
            reason,
        }
    }

    /// The writer of a binding that the context's fiber has just made.
    pub fn new(shared: &Shared, ctx: &Ctx, key: TypeKey, binding: u64) -> (w: ServiceWriter)
        requires
            shared@.wf(),
            shared@.has(ctx.node.fiber),
        ensures
            w.key == key,
            w.scope == scope_seen(*ctx, key),
            w.binding == binding,
            w.provider == ctx.node.fiber,
            w.provider_id == shared@.fiber(ctx.node.fiber).id,
            w.provider_gen == shared@.fiber(ctx.node.fiber).trans.generation,
            w.root == shared@.nodes[0].instance,
    {
        let scope = ctx.scope_for(&key);
        let i: usize = ctx.node.fiber;
        ServiceWriter {
            key,
            scope,
            binding,
            provider: i,
            provider_id: shared.fibers[i].id,
            provider_gen: shared.fibers[i].trans.generation,
            root: shared.nodes[0].instance,
        }
    }

    /// Asks for an update, up to the interceptors.
    pub fn begin_set(&self, shared: &Shared, ctx: &Ctx, location: CallSite) -> (result: Result<
        (),
        ServiceWriteError,
    >)
        requires
            shared@.wf(),
        ensures
            result == (match shared@.write_refusal(*ctx, *self) {
                Some(reason) => Err::<(), ServiceWriteError>(
                    write_failure(*self, location, reason),
                ),
                None => Ok(()),
            }),
    {
        if shared.nodes[0].instance != self.root {
            return Err(self.error(location, ServiceWriteFailure::WrongOwner));
        }
        let p: usize = self.provider;
        if p >= shared.fibers.len() || !shared.fibers[p].held {
            return Err(self.error(location, ServiceWriteFailure::Stale));
        }
        assert(shared.fibers@[p as int]@ == shared@.fiber(p));
        let seen = ctx.scope_for(&self.key);
        if ctx.node.fiber != p || !scope_eq(&seen, &self.scope) || !shared.in_instance_key(
            ctx.node.fiber,
            &self.key,
        ) {
            return Err(self.error(location, ServiceWriteFailure::WrongOwner));
        }
        match ctx.registration_preflight(shared) {
            Ok(()) => Ok(()),
            Err(_) => Err(self.error(location, ServiceWriteFailure::Stale)),
        }
    }

    /// Carries an update out with what the interceptors made of it, if the
    /// binding is still the writer's, and hands back the old value.
    pub fn finish_set(
        &self,
        shared: &mut Shared,
        ctx: &Ctx,
        outcome: Result<ValueId, HookFailure>,
        location: CallSite,
    ) -> (result: Result<ValueId, ServiceWriteError>)
        requires
            old(shared)@.wf(),
        ensures
            final(shared)@.wf(),
            match outcome {
                Err(f) => {
                    &&& final(shared)@ == old(shared)@
                    &&& result == Err::<ValueId, ServiceWriteError>(
                        write_failure(
                            *self,
                            location,
                            match f {
                                HookFailure::Denied => ServiceWriteFailure::InterceptDenied,
                                HookFailure::Panicked => ServiceWriteFailure::InterceptPanicked,
                                HookFailure::Reentrant => ServiceWriteFailure::InterceptReentrant,
                            },
                        ),
                    )
                },
                Ok(value) => if old(shared)@.writable(*ctx, *self) {
                    let b = old(shared)@.registry.bound(self.key, self.scope)->0;
                    &&& result == Ok::<ValueId, ServiceWriteError>(b.value)
                    &&& final(shared)@ == (SharedModel {
                        registry: old(shared)@.registry.rebound(
                            self.key,
                            self.scope,
                            Binding { value, ..b },
                        ),
                        ..old(shared)@
                    })
                } else {
                    &&& final(shared)@ == old(shared)@
                    &&& result == Err::<ValueId, ServiceWriteError>(
                        write_failure(*self, location, ServiceWriteFailure::Stale),
                    )
                },
            },
    {
        let value = match outcome {
            Ok(value) => value,
            Err(HookFailure::Denied) => {
                return Err(self.error(location, ServiceWriteFailure::InterceptDenied));
            },
            Err(HookFailure::Panicked) => {
                return Err(self.error(location, ServiceWriteFailure::InterceptPanicked));
            },
            Err(HookFailure::Reentrant) => {
                return Err(self.error(location, ServiceWriteFailure::InterceptReentrant));
            },
        };
        if shared.closing || ctx.subtree_closing(shared) {
            return Err(self.error(location, ServiceWriteFailure::Stale));
        }
        let p: usize = self.provider;
        if p >= shared.fibers.len() {
            return Err(self.error(location, ServiceWriteFailure::Stale));
        }
        assert(shared.fibers@[p as int]@ == shared@.fiber(p));
        let state = shared.fibers[p].trans.state;
        if shared.fibers[p].trans.generation != self.provider_gen || (state != FiberState::Loading
            && state != FiberState::Active) {
            return Err(self.error(location, ServiceWriteFailure::Stale));
        }
        let ghost before = shared@;
        match shared.registry.replace_mutable_if_current(
            &self.key,
            &self.scope,
            self.binding,
            value,
        ) {
            Some(previous) => {
                assert(shared@.fibers =~= before.fibers);
                Ok(previous)
            },
            None => Err(self.error(location, ServiceWriteFailure::Stale)),
        }
    }
}

/// An interceptor is called only for the key and scope that it was registered
/// for, and only on behalf of its owner and the fibers below it.
pub proof fn interceptors_stay_in_their_subtree(
    m: SharedModel,
    entries: Seq<Interception>,
    kind: HookKind,
    key: TypeKey,
    scope: Option<ScopeId>,
    ctx: Ctx,
    n: nat,
    i: int,
)
    requires
        n <= entries.len(),
        0 <= i < m.selected(entries, kind, key, scope, ctx, n).len(),
    ensures
        ({
            let hook = m.selected(entries, kind, key, scope, ctx, n)[i];
            &&& m.within(ctx.node.fiber, hook.owner)
            &&& exists|j: int|
                0 <= j < n && (#[trigger] entries[j]).hook == hook && concerns(
                    entries[j],
                    kind,
                    key,
                    scope,
                )
        }),
    decreases n,
{
    let before = m.selected(entries, kind, key, scope, ctx, (n - 1) as nat);
    if i < before.len() {
        interceptors_stay_in_their_subtree(m, entries, kind, key, scope, ctx, (n - 1) as nat, i);
    } else {
        assert(entries[n - 1].hook == m.selected(entries, kind, key, scope, ctx, n)[i]);
    }
}

/// An interceptor that was taken away is not called again.
pub proof fn removed_interceptors_are_not_called(
    m: SharedModel,
    entries: Seq<Interception>,
    id: u64,
    kind: HookKind,
    key: TypeKey,
    scope: Option<ScopeId>,
    ctx: Ctx,
)
    ensures
        ({
            let left = entries.filter(other_interceptor(id));
            let called = m.selected(left, kind, key, scope, ctx, left.len());
            forall|i: int| 0 <= i < called.len() ==> (#[trigger] called[i]).id != id
        }),
{
    let left = entries.filter(other_interceptor(id));
    let called = m.selected(left, kind, key, scope, ctx, left.len());
    assert forall|i: int| 0 <= i < called.len() implies (#[trigger] called[i]).id != id by {
        interceptors_stay_in_their_subtree(m, left, kind, key, scope, ctx, left.len(), i);
        let j = choose|j: int| 0 <= j < left.len() && (#[trigger] left[j]).hook == called[i];
        assert(left.contains(left[j]));
        entries.lemma_filter_contains_rev(other_interceptor(id), left[j]);
        entries.lemma_filter_pred(other_interceptor(id), j);
    }
}

/// A read after an update gives the new value: an update that went through is
/// what the key is bound to in the scope.
pub proof fn reads_see_the_last_update(m: SharedModel, w: ServiceWriter, ctx: Ctx, value: ValueId)
    requires
        m.wf(),
        m.writable(ctx, w),
    ensures
        ({
            let b = m.registry.bound(w.key, w.scope)->0;
            m.registry.rebound(w.key, w.scope, Binding { value, ..b }).bound(w.key, w.scope)
                == Some(Binding { value, ..b })
        }),
{
    let b = m.registry.bound(w.key, w.scope)->0;
    let r = m.registry;
    let next = r.rebound(w.key, w.scope, Binding { value, ..b });
    let p = r.place(w.key, w.scope);
    assert(crate::registry::is_slot(r.slots, p, w.key, w.scope));
    assert(crate::registry::is_slot(next.slots, p, w.key, w.scope));
    assert(next.wf());
    crate::registry::slot_is_unique(next, w.key, w.scope, p);
}

} // verus!
