//! Who may read and register what, and what a read gives.

use std::any::TypeId;

use crate::ctx::{scope_seen, Ctx};
use crate::diagnostics::{DependencyStatus, ServiceAccess};
use crate::error::{CordisError, ServiceReadFailure};
use crate::fiber::{FiberIx, FiberModel, FiberState};
use crate::gating::{
    keys_are_bound_by_their_slot, new_bindings_take_their_slot, serves,
};
use crate::key::{same_key, same_scope, ScopeId, TypeKey};
use crate::reads::{has_access, hook_reason, same_access, HookFailure, ReadVerdict};
use crate::registry::{is_slot, Binding};
use crate::services::{entry_at, Offer};
use crate::shared::SharedModel;
use vstd::prelude::*;

verus! {

/// The nearest isolation of a key on the way up decides its scope; a context that
/// does not isolate the key sees it as its parent does, and one without a parent sees
/// it in no scope.
pub proof fn the_nearest_isolation_decides(ctx: Ctx, key: TypeKey)
    ensures
        ctx.node.isolate matches Some((k, s)) && k.identity() == key.identity() ==> scope_seen(
            ctx,
            key,
        ) == Some((ctx.node.isolate->0).1),
        !(ctx.node.isolate matches Some((k, _)) && k.identity() == key.identity())
            && ctx.node.parent is Some ==> scope_seen(ctx, key) == scope_seen(
            ctx.node.parent->0,
            key,
        ),
        !(ctx.node.isolate matches Some((k, _)) && k.identity() == key.identity())
            && ctx.node.parent is None ==> scope_seen(ctx, key) is None,
{
}

/// The context `n` steps up.
pub open spec fn up(ctx: Ctx, n: nat) -> Option<Ctx>
    decreases n,
{
    if n == 0 {
        Some(ctx)
    } else {
        match up(ctx, (n - 1) as nat) {
            Some(c) => c.node.parent,
            None => None,
        }
    }
}

/// `n` steps up there is a context of a fiber that is closing.
pub open spec fn closing_at(m: SharedModel, ctx: Ctx, n: nat) -> bool {
    up(ctx, n) matches Some(c) && c.node.fiber < m.fibers.len() && m.fibers[c.node.fiber as int].closing
}

proof fn up_from_the_parent(ctx: Ctx, n: nat)
    requires
        ctx.node.parent is Some,
    ensures
        up(ctx, n + 1) == up(ctx.node.parent->0, n),
    decreases n,
{
    if n > 0 {
        up_from_the_parent(ctx, (n - 1) as nat);
    } else {
        assert(up(ctx, 0) == Some(ctx));
        assert(up(ctx, 1) == ctx.node.parent);
    }
}

proof fn closed_above_is_closing_at(m: SharedModel, ctx: Ctx)
    ensures
        m.closed_above(ctx) <==> exists|n: nat| #[trigger] closing_at(m, ctx, n),
    decreases ctx,
{
    if m.has(ctx.node.fiber) && m.fiber(ctx.node.fiber).closing {
        assert(closing_at(m, ctx, 0));
    }
    if let Some(parent) = ctx.node.parent {
        closed_above_is_closing_at(m, parent);
        if m.closed_above(parent) {
            let n = choose|n: nat| #[trigger] closing_at(m, parent, n);
            up_from_the_parent(ctx, n);
            assert(closing_at(m, ctx, n + 1));
        }
    }
    if exists|n: nat| #[trigger] closing_at(m, ctx, n) {
        let n = choose|n: nat| #[trigger] closing_at(m, ctx, n);
        if n > 0 {
            match ctx.node.parent {
                Some(parent) => {
                    up_from_the_parent(ctx, (n - 1) as nat);
                    assert(closing_at(m, parent, (n - 1) as nat));
                },
                None => {
                    nothing_above_the_top(ctx, n);
                },
            }
        }
    }
}

proof fn nothing_above_the_top(ctx: Ctx, n: nat)
    requires
        ctx.node.parent is None,
        n > 0,
    ensures
        up(ctx, n) is None,
    decreases n,
{
    if n > 1 {
        nothing_above_the_top(ctx, (n - 1) as nat);
    } else {
        assert(up(ctx, 0) == Some(ctx));
    }
}

/// A context is closed exactly if the root has been shut down, or a fiber whose
/// context is on the way up, its own among them, is closing.
pub proof fn contexts_are_closed_from_above(m: SharedModel, ctx: Ctx)
    ensures
        m.closed_for(ctx) <==> m.closing || exists|n: nat| #[trigger] closing_at(m, ctx, n),
{
    closed_above_is_closing_at(m, ctx);
}

/// A registration is accepted exactly if nothing above is closed, the fiber is still
/// there and being assembled or active, and the context is of its current generation.
/// What is closed is told first, then that the fiber is gone, unloading or disposed
/// of, then that the generation is an earlier one, then that its state takes nothing.
pub proof fn registrations_need_an_open_current_generation(m: SharedModel, ctx: Ctx)
    ensures
        ({
            let i = ctx.node.fiber;
            let f = m.fibers[i as int];
            let closed = m.closing || exists|n: nat| #[trigger] closing_at(m, ctx, n);
            let gone = i >= m.fibers.len() || !f.held || f.trans.state is Unloading
                || f.trans.state is Disposed;
            let stale = f.trans.generation != ctx.node.generation;
            let idle = !(f.trans.state is Loading) && !(f.trans.state is Active);
            &&& m.refusal(ctx) is None <==> !closed && !gone && !stale && !idle
            &&& closed ==> m.refusal(ctx) == Some(CordisError::Closed)
            &&& !closed && gone ==> m.refusal(ctx) == Some(CordisError::InactiveEffect)
            &&& !closed && !gone && stale ==> m.refusal(ctx) == Some(
                CordisError::StaleGeneration {
                    generation: ctx.node.generation,
                    current: f.trans.generation,
                },
            )
            &&& !closed && !gone && !stale && idle ==> m.refusal(ctx) == Some(
                CordisError::InactiveGeneration {
                    generation: ctx.node.generation,
                    state: f.trans.state,
                },
            )
        }),
{
    closed_above_is_closing_at(m, ctx);
}

/// A registration under a key of an instance also needs the context to be below that
/// instance; that is told last.
pub proof fn keyed_registrations_stay_below_the_instance(m: SharedModel, ctx: Ctx, key: TypeKey)
    ensures
        m.key_refusal(ctx, key) is None <==> m.refusal(ctx) is None && (
        key.identity().instance is None || m.in_instance(
            ctx.node.fiber,
            key.identity().instance->0,
        )),
        m.refusal(ctx) is Some ==> m.key_refusal(ctx, key) == m.refusal(ctx),
        m.refusal(ctx) is None && key.identity().instance is Some && !m.in_instance(
            ctx.node.fiber,
            key.identity().instance->0,
        ) ==> m.key_refusal(ctx, key) == Some(
            CordisError::InstanceOutOfScope { instance: key.identity().instance->0 },
        ),
{
}

/// A fiber that is being closed while it is assembled may still register its effects;
/// apart from that effects are accepted and refused as other registrations are.
pub proof fn effects_are_accepted_while_assembling(m: SharedModel, ctx: Ctx)
    ensures
        ({
            let i = ctx.node.fiber;
            let f = m.fibers[i as int];
            let above = exists|n: nat| #[trigger] closing_at(m, ctx, n);
            let assembling = i < m.fibers.len() && f.held && f.trans.state is Loading;
            &&& m.closing ==> m.effect_refusal(ctx) == Some(CordisError::Closed)
            &&& !m.closing && !above ==> m.effect_refusal(ctx) == m.refusal(ctx)
            &&& !m.closing && above && !assembling ==> m.effect_refusal(ctx) == Some(
                CordisError::Closed,
            )
            &&& !m.closing && assembling && f.trans.generation == ctx.node.generation
                ==> m.effect_refusal(ctx) is None
            &&& m.effect_refusal(ctx) is None ==> i < m.fibers.len() && f.held && (
            f.trans.state is Loading || f.trans.state is Active) && f.trans.generation
                == ctx.node.generation
        }),
{
    closed_above_is_closing_at(m, ctx);
}

/// The fiber declares the key: one of its declarations is of the same key.
pub open spec fn asks_for(f: FiberModel, key: TypeKey) -> bool {
    exists|k: int| 0 <= k < f.declared.len() && (#[trigger] f.declared[k]).identity() == key.identity()
}

/// The fiber has the key in its account of services, in the scope.
pub open spec fn offers(f: FiberModel, key: TypeKey, scope: Option<ScopeId>) -> bool {
    exists|k: int|
        0 <= k < f.provided.len() && (#[trigger] f.provided[k]).0.identity() == key.identity()
            && same_scope(f.provided[k].1, scope)
}

/// A fiber on the way to the root, or the fiber itself, declares the key and sees it
/// in the scope.
pub open spec fn declared_above(
    m: SharedModel,
    i: FiberIx,
    key: TypeKey,
    scope: Option<ScopeId>,
) -> bool {
    exists|a: FiberIx| #[trigger]
        m.within(i, a) && asks_for(m.fibers[a as int], key) && same_scope(
            scope_seen(m.nodes[a as int].ctx, key),
            scope,
        )
}

proof fn declaring_is_asking(m: SharedModel, i: FiberIx, key: TypeKey)
    ensures
        m.declares(i, key) <==> asks_for(m.fibers[i as int], key),
{
    let f = m.fibers[i as int];
    if m.declares(i, key) {
        let k = choose|k: int|
            0 <= k < m.fiber(i).declared.len() && same_key(#[trigger] m.fiber(i).declared[k], key);
        assert(f.declared[k].identity() == key.identity());
    }
    if asks_for(f, key) {
        let k = choose|k: int|
            0 <= k < f.declared.len() && (#[trigger] f.declared[k]).identity() == key.identity();
        assert(same_key(m.fiber(i).declared[k], key));
    }
}

proof fn declared_for_is_declared_above(
    m: SharedModel,
    i: FiberIx,
    key: TypeKey,
    scope: Option<ScopeId>,
)
    ensures
        m.declared_for(i, key, scope) <==> declared_above(m, i, key, scope),
    decreases i,
{
    if m.has(i) && m.fiber(i).held {
        assert(m.within(i, i));
        declaring_is_asking(m, i, key);
        if let Some(p) = m.nodes[i as int].parent {
            if p < i {
                declared_for_is_declared_above(m, p, key, scope);
                if declared_above(m, p, key, scope) {
                    let a = choose|a: FiberIx| #[trigger]
                        m.within(p, a) && asks_for(m.fibers[a as int], key) && same_scope(
                            scope_seen(m.nodes[a as int].ctx, key),
                            scope,
                        );
                    assert(m.within(i, a));
                }
            }
        }
        if declared_above(m, i, key, scope) {
            let a = choose|a: FiberIx| #[trigger]
                m.within(i, a) && asks_for(m.fibers[a as int], key) && same_scope(
                    scope_seen(m.nodes[a as int].ctx, key),
                    scope,
                );
            if a != i {
                assert(m.within(m.nodes[i as int].parent->0, a));
            }
        }
    } else {
        assert(forall|a: FiberIx| !m.within(i, a));
    }
}

proof fn owning_is_offering(m: SharedModel, ctx: Ctx, key: TypeKey)
    requires
        m.has(ctx.node.fiber),
        m.fibers[ctx.node.fiber as int].held,
    ensures
        m.owns(ctx, key) <==> offers(
            m.fibers[ctx.node.fiber as int],
            key,
            scope_seen(ctx, key),
        ),
{
    let f = m.fibers[ctx.node.fiber as int];
    let scope = scope_seen(ctx, key);
    if m.owns(ctx, key) {
        let k = choose|k: int| #[trigger] entry_at(f.provided, key, scope, k);
        assert(f.provided[k].0.identity() == key.identity());
    }
    if offers(f, key, scope) {
        let k = choose|k: int|
            0 <= k < f.provided.len() && (#[trigger] f.provided[k]).0.identity() == key.identity()
                && same_scope(f.provided[k].1, scope);
        assert(entry_at(f.provided, key, scope, k));
    }
}

/// The reader's fiber is still there, and neither cleaning up nor done with it.
pub open spec fn awake(m: SharedModel, ctx: Ctx) -> bool {
    &&& ctx.node.fiber < m.fibers.len()
    &&& m.fibers[ctx.node.fiber as int].held
    &&& !(m.fibers[ctx.node.fiber as int].trans.state is Unloading)
    &&& !(m.fibers[ctx.node.fiber as int].trans.state is Disposed)
}

/// A strict read is granted, with the bound value, whenever the reader may use the
/// key and asks for the right type, is awake, has the key declared for it in the
/// scope that it sees, and the service there can be used: whoever provides it.
pub proof fn strict_reads_are_granted_when_served(
    m: SharedModel,
    ctx: Ctx,
    key: TypeKey,
    wanted: TypeId,
    s: int,
)
    requires
        m.wf(),
        m.in_instance_key(ctx.node.fiber, key),
        key.identity().type_id == wanted,
        awake(m, ctx),
        declared_above(m, ctx.node.fiber, key, scope_seen(ctx, key)),
        0 <= s < m.registry.slots.len(),
        serves(m, m.registry.slots[s], key, scope_seen(ctx, key)),
    ensures
        ({
            let b = m.registry.slots[s].binding;
            &&& m.verdict(ctx, key, wanted) matches ReadVerdict::Granted { value, found, declared }
            &&& value == b.value
            &&& found == Some(
                (b.provider_id, b.provider_gen, !m.within(ctx.node.fiber, b.provider)),
            )
            &&& declared
        }),
{
    let scope = scope_seen(ctx, key);
    keys_are_bound_by_their_slot(m.registry, key, scope, s);
    declared_for_is_declared_above(m, ctx.node.fiber, key, scope);
    owning_is_offering(m, ctx, key);
}

/// A fiber reads its own service strictly in every state, declared or not.
pub proof fn own_services_are_always_read(
    m: SharedModel,
    ctx: Ctx,
    key: TypeKey,
    wanted: TypeId,
    s: int,
)
    requires
        m.wf(),
        m.in_instance_key(ctx.node.fiber, key),
        key.identity().type_id == wanted,
        m.has(ctx.node.fiber),
        m.fibers[ctx.node.fiber as int].held,
        ctx.node.plugin_id == m.fibers[ctx.node.fiber as int].id,
        offers(m.fibers[ctx.node.fiber as int], key, scope_seen(ctx, key)),
        0 <= s < m.registry.slots.len(),
        m.registry.slots[s].key.identity() == key.identity(),
        same_scope(m.registry.slots[s].scope, scope_seen(ctx, key)),
        m.registry.slots[s].binding.provider == ctx.node.fiber,
        m.registry.slots[s].binding.provider_id == m.fibers[ctx.node.fiber as int].id,
    ensures
        m.verdict(ctx, key, wanted) matches ReadVerdict::Granted { value, .. } && value
            == m.registry.slots[s].binding.value,
{
    keys_are_bound_by_their_slot(m.registry, key, scope_seen(ctx, key), s);
    owning_is_offering(m, ctx, key);
    assert(m.within(ctx.node.fiber, ctx.node.fiber));
}

/// A strict read that is granted: the key may be used and is of the wanted type, the
/// value is that of the key's slot in the scope that the reader sees, whose provider
/// is still there; and the reader either provides the key itself, or is awake, has it
/// declared for it, and the service can be used.
pub proof fn granted_reads_are_declared_and_served(
    m: SharedModel,
    ctx: Ctx,
    key: TypeKey,
    wanted: TypeId,
)
    requires
        m.wf(),
        m.verdict(ctx, key, wanted) is Granted,
    ensures
        m.in_instance_key(ctx.node.fiber, key),
        key.identity().type_id == wanted,
        m.has(ctx.node.fiber) && m.fibers[ctx.node.fiber as int].held,
        exists|s: int|
            0 <= s < m.registry.slots.len() && (#[trigger] m.registry.slots[s]).key.identity()
                == key.identity() && same_scope(m.registry.slots[s].scope, scope_seen(ctx, key))
                && m.registry.slots[s].binding.value == m.verdict(ctx, key, wanted)->Granted_value
                && m.registry.slots[s].binding.provider < m.fibers.len()
                && m.fibers[m.registry.slots[s].binding.provider as int].held && (offers(
                m.fibers[ctx.node.fiber as int],
                key,
                scope_seen(ctx, key),
            ) || (awake(m, ctx) && declared_above(
                m,
                ctx.node.fiber,
                key,
                scope_seen(ctx, key),
            ) && serves(m, m.registry.slots[s], key, scope_seen(ctx, key)))),
{
    let scope = scope_seen(ctx, key);
    let r = m.registry;
    declared_for_is_declared_above(m, ctx.node.fiber, key, scope);
    if m.has(ctx.node.fiber) && m.fiber(ctx.node.fiber).held {
        owning_is_offering(m, ctx, key);
    } else {
        assert(!m.owns(ctx, key));
        assert(m.asleep(ctx));
    }
    assert(r.occupied(key, scope));
    let p = r.place(key, scope);
    assert(is_slot(r.slots, p, key, scope));
    assert(r.slots[p].key.identity() == key.identity());
}

/// Why a strict read is refused, in this order: the key is of an instance out of
/// reach; it is of another type; the reader is not awake; it is not declared for the
/// reader; the service is not ready, and in which way. A reader that provides the key
/// itself is spared the last three as long as the service is its own.
pub proof fn refused_reads_say_why(
    m: SharedModel,
    ctx: Ctx,
    key: TypeKey,
    wanted: TypeId,
)
    requires
        m.wf(),
        m.has(ctx.node.fiber),
        m.fibers[ctx.node.fiber as int].held,
        !offers(m.fibers[ctx.node.fiber as int], key, scope_seen(ctx, key)),
    ensures
        ({
            let v = m.verdict(ctx, key, wanted);
            let inside = m.in_instance_key(ctx.node.fiber, key);
            let typed = key.identity().type_id == wanted;
            let declared = declared_above(m, ctx.node.fiber, key, scope_seen(ctx, key));
            let served = exists|s: int|
                0 <= s < m.registry.slots.len() && serves(
                    m,
                    #[trigger] m.registry.slots[s],
                    key,
                    scope_seen(ctx, key),
                );
            &&& !inside ==> (v matches ReadVerdict::Refused { reason, .. } && reason
                == ServiceReadFailure::OutOfScope)
            &&& inside && !typed ==> (v matches ReadVerdict::Refused { reason, .. } && reason
                == ServiceReadFailure::TypeMismatch)
            &&& inside && typed && !awake(m, ctx) ==> (v matches ReadVerdict::Refused { reason, .. }
                && reason == ServiceReadFailure::Inactive)
            &&& inside && typed && awake(m, ctx) && !declared ==> (v matches ReadVerdict::Refused {
                reason,
                declared: said,
                ..
            } && reason == ServiceReadFailure::Undeclared && !said)
            &&& inside && typed && awake(m, ctx) && declared && !served ==> (
            v matches ReadVerdict::Refused { reason, .. } && reason is Unavailable
                && reason->Unavailable_0 != DependencyStatus::Ready)
            &&& inside && typed && awake(m, ctx) && declared && served ==> v is Granted
        }),
{
    let scope = scope_seen(ctx, key);
    let r = m.registry;
    declared_for_is_declared_above(m, ctx.node.fiber, key, scope);
    owning_is_offering(m, ctx, key);
    if r.occupied(key, scope) {
        let p = r.place(key, scope);
        assert(is_slot(r.slots, p, key, scope));
        if m.bound_status(key, scope) == DependencyStatus::Ready {
            assert(serves(m, r.slots[p], key, scope));
        }
    }
    if exists|s: int| 0 <= s < r.slots.len() && serves(m, #[trigger] r.slots[s], key, scope) {
        let s = choose|s: int| 0 <= s < r.slots.len() && serves(m, #[trigger] r.slots[s], key, scope);
        keys_are_bound_by_their_slot(r, key, scope, s);
    }
}

/// A fiber that provides a key reads what somebody else has put in its place as any
/// other reader does: awake, with the key declared for it, and while it is served.
pub proof fn replaced_services_are_read_like_others(
    m: SharedModel,
    ctx: Ctx,
    key: TypeKey,
    wanted: TypeId,
    s: int,
)
    requires
        m.wf(),
        m.in_instance_key(ctx.node.fiber, key),
        key.identity().type_id == wanted,
        m.has(ctx.node.fiber),
        m.fibers[ctx.node.fiber as int].held,
        offers(m.fibers[ctx.node.fiber as int], key, scope_seen(ctx, key)),
        0 <= s < m.registry.slots.len(),
        m.registry.slots[s].key.identity() == key.identity(),
        same_scope(m.registry.slots[s].scope, scope_seen(ctx, key)),
        m.registry.slots[s].binding.provider_id != ctx.node.plugin_id,
        m.registry.slots[s].binding.provider < m.fibers.len(),
        m.fibers[m.registry.slots[s].binding.provider as int].held,
    ensures
        ({
            let v = m.verdict(ctx, key, wanted);
            let declared = declared_above(m, ctx.node.fiber, key, scope_seen(ctx, key));
            let served = serves(m, m.registry.slots[s], key, scope_seen(ctx, key));
            &&& awake(m, ctx) && declared && served ==> (v matches ReadVerdict::Granted {
                value,
                ..
            } && value == m.registry.slots[s].binding.value)
            &&& !awake(m, ctx) ==> (v matches ReadVerdict::Refused { reason, .. } && reason
                == ServiceReadFailure::Inactive)
            &&& awake(m, ctx) && !declared ==> (v matches ReadVerdict::Refused { reason, .. }
                && reason == ServiceReadFailure::Undeclared)
            &&& awake(m, ctx) && declared && !served ==> (v matches ReadVerdict::Refused {
                reason,
                ..
            } && reason is Unavailable)
        }),
{
    let scope = scope_seen(ctx, key);
    keys_are_bound_by_their_slot(m.registry, key, scope, s);
    declared_for_is_declared_above(m, ctx.node.fiber, key, scope);
    owning_is_offering(m, ctx, key);
}

/// A fiber that still has a key in its account, but of whose service nothing is left or
/// whose provider is gone, is told so: that the service is missing, being taken away,
/// or that its provider is disposed of.
pub proof fn own_services_that_are_gone_are_unavailable(
    m: SharedModel,
    ctx: Ctx,
    key: TypeKey,
    wanted: TypeId,
    s: int,
)
    requires
        m.wf(),
        m.in_instance_key(ctx.node.fiber, key),
        key.identity().type_id == wanted,
        m.has(ctx.node.fiber),
        m.fibers[ctx.node.fiber as int].held,
        offers(m.fibers[ctx.node.fiber as int], key, scope_seen(ctx, key)),
    ensures
        ({
            let slot = m.registry.slots[s];
            let v = m.verdict(ctx, key, wanted);
            let there = 0 <= s < m.registry.slots.len() && slot.key.identity() == key.identity()
                && same_scope(slot.scope, scope_seen(ctx, key));
            let gone = !(slot.binding.provider < m.fibers.len()
                && m.fibers[slot.binding.provider as int].held);
            &&& there && gone && slot.binding.removing ==> (v matches ReadVerdict::Refused {
                reason,
                ..
            } && reason == ServiceReadFailure::Unavailable(DependencyStatus::Removing))
            &&& there && gone && !slot.binding.removing ==> (v matches ReadVerdict::Refused {
                reason,
                ..
            } && reason == ServiceReadFailure::Unavailable(
                DependencyStatus::ProviderInactive(FiberState::Disposed),
            ))
            &&& (forall|k: int|
                0 <= k < m.registry.slots.len() ==> !((
                #[trigger] m.registry.slots[k]).key.identity() == key.identity() && same_scope(
                    m.registry.slots[k].scope,
                    scope_seen(ctx, key),
                ))) ==> (v matches ReadVerdict::Refused { reason, .. } && reason
                == ServiceReadFailure::Unavailable(DependencyStatus::Missing))
        }),
{
    keys_are_bound_by_their_slot(m.registry, key, scope_seen(ctx, key), s);
    owning_is_offering(m, ctx, key);
}

/// What the interceptors make of a read is told as what it was.
pub proof fn intercepted_reads_say_so()
    ensures
        hook_reason(HookFailure::Denied) == ServiceReadFailure::InterceptDenied,
        hook_reason(HookFailure::Panicked) == ServiceReadFailure::InterceptPanicked,
        hook_reason(HookFailure::Reentrant) == ServiceReadFailure::InterceptReentrant,
{
}

/// An optional read gives the value of the key's slot in the scope that the reader
/// sees: inside the provider's own subtree as long as the provider is there, and
/// elsewhere while the reader is awake, the provider active and the service not being
/// taken away. It gives nothing otherwise, and needs no declaration.
pub proof fn optional_reads_see_what_is_there(
    m: SharedModel,
    ctx: Ctx,
    key: TypeKey,
    wanted: TypeId,
    s: int,
)
    requires
        m.wf(),
        0 <= s < m.registry.slots.len(),
        m.registry.slots[s].key.identity() == key.identity(),
        same_scope(m.registry.slots[s].scope, scope_seen(ctx, key)),
    ensures
        ({
            let b = m.registry.slots[s].binding;
            let there = b.provider < m.fibers.len() && m.fibers[b.provider as int].held;
            let usable = m.in_instance_key(ctx.node.fiber, key) && key.identity().type_id == wanted
                && there && (m.within(ctx.node.fiber, b.provider) || (awake(m, ctx)
                && m.fibers[b.provider as int].trans.state is Active && !b.removing));
            &&& usable ==> m.located(ctx, key, wanted) == Some(b.value)
            &&& !usable ==> m.located(ctx, key, wanted) is None
        }),
{
    keys_are_bound_by_their_slot(m.registry, key, scope_seen(ctx, key), s);
}

/// An optional read of a key without a slot in the scope that the reader sees gives
/// nothing, whatever is bound in other scopes.
pub proof fn optional_reads_stay_in_their_scope(
    m: SharedModel,
    ctx: Ctx,
    key: TypeKey,
    wanted: TypeId,
)
    requires
        m.wf(),
        forall|s: int|
            0 <= s < m.registry.slots.len() ==> !((#[trigger] m.registry.slots[s]).key.identity()
                == key.identity() && same_scope(m.registry.slots[s].scope, scope_seen(ctx, key))),
    ensures
        m.located(ctx, key, wanted) is None,
        !(m.verdict(ctx, key, wanted) is Granted),
{
    keys_are_bound_by_their_slot(m.registry, key, scope_seen(ctx, key), 0);
}

/// The account holds an entry that says the same as the given one in every respect.
pub open spec fn recorded(list: Seq<ServiceAccess>, access: ServiceAccess) -> bool {
    exists|k: int|
        0 <= k < list.len() && (#[trigger] list[k]).key.identity() == access.key.identity()
            && same_scope(list[k].scope, access.scope) && list[k].provider == access.provider
            && list[k].generation == access.generation && list[k].declared == access.declared
            && list[k].external == access.external && list[k].out_of_scope == access.out_of_scope
            && list[k].strict == access.strict && list[k].failure == access.failure
}

/// A read is in the account exactly if an entry says the same in every respect.
pub proof fn accounts_hold_what_was_entered(list: Seq<ServiceAccess>, access: ServiceAccess)
    ensures
        has_access(list, access) <==> recorded(list, access),
{
    if has_access(list, access) {
        let k = choose|k: int| 0 <= k < list.len() && same_access(#[trigger] list[k], access);
        assert(list[k].key.identity() == access.key.identity());
    }
    if recorded(list, access) {
        let k = choose|k: int|
            0 <= k < list.len() && (#[trigger] list[k]).key.identity() == access.key.identity()
                && same_scope(list[k].scope, access.scope) && list[k].provider == access.provider
                && list[k].generation == access.generation && list[k].declared == access.declared
                && list[k].external == access.external && list[k].out_of_scope
                == access.out_of_scope && list[k].strict == access.strict && list[k].failure
                == access.failure;
        assert(same_access(list[k], access));
    }
}

/// What is entered in a fiber's account of reads stands there afterwards, behind the
/// reads before it, unless the same one did already. Nobody else's account changes.
pub proof fn reads_are_entered_once(m: SharedModel, ctx: Ctx, access: ServiceAccess, j: FiberIx)
    requires
        m.has(ctx.node.fiber),
        m.has(j),
    ensures
        ({
            let i = ctx.node.fiber;
            let before = m.fibers[i as int].accesses;
            let after = m.accessed(ctx, access);
            &&& m.fibers[i as int].held ==> has_access(after.fibers[i as int].accesses, access)
            &&& has_access(before, access) || !m.fibers[i as int].held ==> after == m
            &&& m.fibers[i as int].held && !has_access(before, access)
                ==> after.fibers[i as int].accesses == before.push(access)
            &&& j != i ==> after.fibers[j as int] == m.fibers[j as int]
            &&& after.registry == m.registry && after.tasks == m.tasks && after.nodes == m.nodes
            &&& after.fibers[i as int] == (FiberModel {
                accesses: after.fibers[i as int].accesses,
                ..m.fibers[i as int]
            })
        }),
{
    let i = ctx.node.fiber;
    let before = m.fibers[i as int].accesses;
    if m.fibers[i as int].held && !has_access(before, access) {
        let after = m.accessed(ctx, access).fibers[i as int].accesses;
        assert(after[before.len() as int] == access);
        assert(same_access(after[before.len() as int], access));
    }
}

/// A service that is provided is what its key is bound to in the scope that the
/// provider sees: with the value offered, under the provider's id and generation, and
/// not checked yet. The provider has it in its account. No other key or scope changes.
pub proof fn provided_services_are_bound(
    m: SharedModel,
    ctx: Ctx,
    key: TypeKey,
    offer: Offer,
    other: TypeKey,
    elsewhere: Option<ScopeId>,
)
    requires
        m.wf(),
        m.has(ctx.node.fiber),
        m.registry.next < u64::MAX,
    ensures
        ({
            let i = ctx.node.fiber;
            let scope = scope_seen(ctx, key);
            let after = m.binding_made(ctx, key, offer);
            let f = m.fibers[i as int];
            &&& after.registry.bound(key, scope) == Some(
                Binding {
                    id: m.registry.next,
                    value: offer.value,
                    mutable: offer.mutable,
                    provider: i,
                    provider_id: f.id,
                    provider_gen: f.trans.generation,
                    has_check: offer.has_check,
                    check_status: None,
                    removing: false,
                },
            )
            &&& other.identity() != key.identity() || !same_scope(elsewhere, scope)
                ==> after.registry.bound(other, elsewhere) == m.registry.bound(other, elsewhere)
            &&& after.fibers[i as int] == (FiberModel {
                provided: f.provided.push((key, scope)),
                ..f
            })
            &&& forall|j: int|
                0 <= j < m.fibers.len() && j != i ==> #[trigger] after.fibers[j] == m.fibers[j]
            &&& after.registry.index == m.registry.index
        }),
{
    let i = ctx.node.fiber;
    let binding = m.binding_of(i, offer);
    new_bindings_take_their_slot(
        m.registry,
        key,
        scope_seen(ctx, key),
        binding,
        other,
        elsewhere,
    );
}

/// A key is taken in a scope exactly if a slot of it there holds a service that is
/// not being taken away: a second one is refused just then.
pub proof fn keys_are_taken_by_services_that_stay(
    m: SharedModel,
    key: TypeKey,
    scope: Option<ScopeId>,
)
    requires
        m.wf(),
    ensures
        m.registry.taken(key, scope) <==> exists|s: int|
            0 <= s < m.registry.slots.len() && (#[trigger] m.registry.slots[s]).key.identity()
                == key.identity() && same_scope(m.registry.slots[s].scope, scope)
                && !m.registry.slots[s].binding.removing,
{
    let r = m.registry;
    if r.taken(key, scope) {
        let p = r.place(key, scope);
        assert(is_slot(r.slots, p, key, scope));
        assert(r.slots[p].key.identity() == key.identity());
    }
    if exists|s: int|
        0 <= s < r.slots.len() && (#[trigger] r.slots[s]).key.identity() == key.identity()
            && same_scope(r.slots[s].scope, scope) && !r.slots[s].binding.removing {
        let s = choose|s: int|
            0 <= s < r.slots.len() && (#[trigger] r.slots[s]).key.identity() == key.identity()
                && same_scope(r.slots[s].scope, scope) && !r.slots[s].binding.removing;
        keys_are_bound_by_their_slot(r, key, scope, s);
    }
}

} // verus!
