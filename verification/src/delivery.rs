//! Who is called: listeners, interceptors and observers, and the fibers whose end
//! waits for the calls.

use crate::bus::{
    hooks_of, listeners, of_key, other_hook, picked_list, survives_dispatch, tail_is_unique,
    BusModel, Hook,
};
use crate::ctx::{scope_seen, Ctx};
use crate::error::{CallSite, CordisError, ServiceWriteFailure};
use crate::fiber::{FiberIx, FiberModel};
use crate::gating::keys_are_bound_by_their_slot;
use crate::intercept::{
    entered, other_interceptor, write_failure, HookKind, Interception, Interceptor, ServiceWriter,
};
use crate::key::{same_key, same_scope, InstanceId, ScopeId, TypeKey};
use crate::list::{filter_empty, filter_step, filters_agree, whole};
use crate::observe::other_observer;
use crate::reading::{awake, closing_at, contexts_are_closed_from_above};
use crate::registry::{is_slot, Slot};
use crate::shared::SharedModel;
use vstd::prelude::*;

verus! {

/// The fiber is still there and up, and nobody is closing it.
pub open spec fn answers(m: SharedModel, i: FiberIx) -> bool {
    &&& i < m.fibers.len()
    &&& m.fibers[i as int].held
    &&& m.fibers[i as int].alive
    &&& !m.fibers[i as int].closing
}

/// The interceptors that a call has to pass: those of its kind, key and scope whose
/// owner answers and is the acting fiber or on its way to the root.
pub open spec fn in_the_way(
    m: SharedModel,
    kind: HookKind,
    key: TypeKey,
    scope: Option<ScopeId>,
    ctx: Ctx,
) -> spec_fn(Interception) -> bool {
    |e: Interception|
        e.hook.kind == kind && e.key.identity() == key.identity() && same_scope(e.scope, scope)
            && answers(m, e.hook.owner) && m.within(ctx.node.fiber, e.hook.owner)
}

pub open spec fn hook_of() -> spec_fn(Interception) -> Interceptor {
    |e: Interception| e.hook
}

proof fn selecting_is_filtering(
    m: SharedModel,
    entries: Seq<Interception>,
    kind: HookKind,
    key: TypeKey,
    scope: Option<ScopeId>,
    ctx: Ctx,
    n: nat,
)
    requires
        n <= entries.len(),
    ensures
        m.selected(entries, kind, key, scope, ctx, n) == entries.subrange(0, n as int).filter(
            in_the_way(m, kind, key, scope, ctx),
        ).map_values(hook_of()),
    decreases n,
{
    let keep = in_the_way(m, kind, key, scope, ctx);
    if n == 0 {
        filter_empty(entries, keep);
        assert(Seq::<Interception>::empty().map_values(hook_of()) =~= Seq::<
            Interceptor,
        >::empty());
    } else {
        selecting_is_filtering(m, entries, kind, key, scope, ctx, (n - 1) as nat);
        filter_step(entries, n - 1, keep);
        let before = entries.subrange(0, n - 1).filter(keep);
        let e = entries[n - 1];
        assert(before.push(e).map_values(hook_of()) =~= before.map_values(hook_of()).push(e.hook));
    }
}

/// The interceptors of a call are all those in its way and no others, each once, in
/// the order in which they were registered.
pub proof fn interceptors_in_the_way_are_called(
    m: SharedModel,
    entries: Seq<Interception>,
    kind: HookKind,
    key: TypeKey,
    scope: Option<ScopeId>,
    ctx: Ctx,
)
    ensures
        m.selected(entries, kind, key, scope, ctx, entries.len()) == entries.filter(
            in_the_way(m, kind, key, scope, ctx),
        ).map_values(hook_of()),
{
    selecting_is_filtering(m, entries, kind, key, scope, ctx, entries.len());
    whole(entries);
}

/// An interceptor is called exactly if it stands in the list for the kind, the key and
/// the scope, and its owner answers and is on the actor's way to the root.
pub proof fn an_interceptor_is_called_when_it_is_in_the_way(
    m: SharedModel,
    entries: Seq<Interception>,
    kind: HookKind,
    key: TypeKey,
    scope: Option<ScopeId>,
    ctx: Ctx,
    hook: Interceptor,
)
    ensures
        m.selected(entries, kind, key, scope, ctx, entries.len()).contains(hook) <==> exists|k: int|
            0 <= k < entries.len() && (#[trigger] entries[k]).hook == hook && hook.kind == kind
                && entries[k].key.identity() == key.identity() && same_scope(
                entries[k].scope,
                scope,
            ) && answers(m, hook.owner) && m.within(ctx.node.fiber, hook.owner),
{
    broadcast use vstd::seq_lib::group_filter_ensures;

    let keep = in_the_way(m, kind, key, scope, ctx);
    let chosen = entries.filter(keep);
    let called = chosen.map_values(hook_of());
    interceptors_in_the_way_are_called(m, entries, kind, key, scope, ctx);
    if called.contains(hook) {
        let j = choose|j: int| 0 <= j < called.len() && called[j] == hook;
        let e = chosen[j];
        assert(chosen.contains(e) && keep(e));
        entries.lemma_filter_contains_rev(keep, e);
        let k = choose|k: int| 0 <= k < entries.len() && entries[k] == e;
        assert(entries[k].hook == hook);
    }
    if exists|k: int|
        0 <= k < entries.len() && (#[trigger] entries[k]).hook == hook && keep(entries[k]) {
        let k = choose|k: int|
            0 <= k < entries.len() && (#[trigger] entries[k]).hook == hook && keep(entries[k]);
        assert(chosen.contains(entries[k]));
        let j = choose|j: int| 0 <= j < chosen.len() && chosen[j] == entries[k];
        assert(called[j] == hook);
    }
    assert forall|k: int| 0 <= k < entries.len() implies (keep(#[trigger] entries[k]) <==> (
    entries[k].hook.kind == kind && entries[k].key.identity() == key.identity() && same_scope(
        entries[k].scope,
        scope,
    ) && answers(m, entries[k].hook.owner) && m.within(ctx.node.fiber, entries[k].hook.owner))) by {}
}

/// A fiber's end waits for the interceptors that it owns and for those of its own
/// calls, as long as it is there.
pub proof fn intercepted_fibers_wait(
    m: SharedModel,
    ctx: Ctx,
    hooks: Seq<Interceptor>,
    j: FiberIx,
)
    ensures
        m.attending(ctx, hooks, j) <==> j < m.fibers.len() && m.fibers[j as int].held && (j
            == ctx.node.fiber || exists|k: int| 0 <= k < hooks.len() && (#[trigger] hooks[k]).owner == j),
{
}

/// The guard holds a call back exactly if one of the same kind, on the same key in the
/// same scope, is under way.
pub proof fn calls_are_not_reentered(
    active: Seq<(HookKind, TypeKey, Option<ScopeId>)>,
    kind: HookKind,
    key: TypeKey,
    scope: Option<ScopeId>,
)
    ensures
        entered(active.push((kind, key, scope)), kind, key, scope),
        forall|k2: HookKind, key2: TypeKey, scope2: Option<ScopeId>|
            k2 != kind || key2.identity() != key.identity() || !same_scope(scope, scope2)
                ==> #[trigger] entered(active.push((kind, key, scope)), k2, key2, scope2)
                == entered(active, k2, key2, scope2),
        !entered(Seq::empty(), kind, key, scope),
{
    let more = active.push((kind, key, scope));
    assert(more[active.len() as int] == (kind, key, scope));
    assert forall|k2: HookKind, key2: TypeKey, scope2: Option<ScopeId>|
        k2 != kind || key2.identity() != key.identity() || !same_scope(
            scope,
            scope2,
        ) implies #[trigger] entered(more, k2, key2, scope2) == entered(
        active,
        k2,
        key2,
        scope2,
    ) by {
        if entered(active, k2, key2, scope2) {
            let i = choose|i: int|
                0 <= i < active.len() && (#[trigger] active[i]).0 == k2 && same_key(
                    active[i].1,
                    key2,
                ) && same_scope(active[i].2, scope2);
            assert(more[i] == active[i]);
        }
        if entered(more, k2, key2, scope2) {
            let i = choose|i: int|
                0 <= i < more.len() && (#[trigger] more[i]).0 == k2 && same_key(more[i].1, key2)
                    && same_scope(more[i].2, scope2);
            assert(i < active.len());
            assert(more[i] == active[i]);
        }
    }
}

/// The listeners of a key.
pub open spec fn listens_to(key: TypeKey) -> spec_fn((TypeKey, Hook)) -> bool {
    |e: (TypeKey, Hook)| e.0.identity() == key.identity()
}

/// The listeners of a key whose owner answers.
pub open spec fn hears(m: SharedModel, key: TypeKey) -> spec_fn((TypeKey, Hook)) -> bool {
    |e: (TypeKey, Hook)| e.0.identity() == key.identity() && answers(m, e.1.owner)
}

pub open spec fn listener_of() -> spec_fn((TypeKey, Hook)) -> Hook {
    |e: (TypeKey, Hook)| e.1
}

proof fn calling_is_filtering(
    m: SharedModel,
    entries: Seq<(TypeKey, Hook)>,
    key: TypeKey,
    n: int,
)
    requires
        0 <= n <= entries.len(),
    ensures
        ({
            let taken = hooks_of(entries.subrange(0, n).filter(of_key(key)));
            &&& m.called(taken, true, taken.len()) == entries.subrange(0, n).filter(
                hears(m, key),
            ).map_values(listener_of())
            &&& m.called(taken, false, taken.len()) == entries.subrange(0, n).filter(
                listens_to(key),
            ).map_values(listener_of())
        }),
    decreases n,
{
    if n == 0 {
        filter_empty(entries, of_key(key));
        filter_empty(entries, hears(m, key));
        filter_empty(entries, listens_to(key));
        assert(Seq::<(TypeKey, Hook)>::empty().map_values(listener_of()) =~= Seq::<Hook>::empty());
        assert(hooks_of(Seq::empty()) =~= Seq::<Hook>::empty());
    } else {
        calling_is_filtering(m, entries, key, n - 1);
        filter_step(entries, n - 1, of_key(key));
        filter_step(entries, n - 1, hears(m, key));
        filter_step(entries, n - 1, listens_to(key));
        let e = entries[n - 1];
        let before = entries.subrange(0, n - 1).filter(of_key(key));
        let kept = entries.subrange(0, n - 1).filter(hears(m, key));
        let all = entries.subrange(0, n - 1).filter(listens_to(key));
        if of_key(key)(e) {
            let taken = hooks_of(before.push(e));
            assert(taken =~= hooks_of(before).push(e.1));
            called_goes_by_the_list(m, hooks_of(before), taken, true, before.len());
            called_goes_by_the_list(m, hooks_of(before), taken, false, before.len());
            assert(kept.push(e).map_values(listener_of()) =~= kept.map_values(listener_of()).push(
                e.1,
            ));
            assert(all.push(e).map_values(listener_of()) =~= all.map_values(listener_of()).push(
                e.1,
            ));
        }
    }
}

proof fn called_goes_by_the_list(
    m: SharedModel,
    a: Seq<Hook>,
    b: Seq<Hook>,
    instance: bool,
    n: nat,
)
    requires
        n <= a.len(),
        n <= b.len(),
        forall|k: int| 0 <= k < n ==> a[k] == b[k],
    ensures
        m.called(a, instance, n) == m.called(b, instance, n),
    decreases n,
{
    if n > 0 {
        called_goes_by_the_list(m, a, b, instance, (n - 1) as nat);
    }
}

/// A dispatch on a key of an instance calls all listeners of the key whose owner
/// answers, and no others; one on any other key calls all its listeners. Each is
/// called once, in the order of the table.
pub proof fn listeners_that_hear_are_called(bus: BusModel, m: SharedModel, key: TypeKey)
    ensures
        key.identity().instance is Some ==> bus.callees(m, key) == bus.hooks.filter(
            hears(m, key),
        ).map_values(listener_of()),
        key.identity().instance is None ==> bus.callees(m, key) == bus.hooks.filter(
            listens_to(key),
        ).map_values(listener_of()),
{
    calling_is_filtering(m, bus.hooks, key, bus.hooks.len() as int);
    whole(bus.hooks);
}

/// A waterfall goes through all listeners of the key, in the order of their table.
pub proof fn waterfalls_pass_every_listener(entries: Seq<(TypeKey, Hook)>, key: TypeKey)
    ensures
        hooks_of(listeners(entries, key)) == entries.filter(listens_to(key)).map_values(
            listener_of(),
        ),
{
    filters_agree(entries, of_key(key), listens_to(key));
    let all = entries.filter(listens_to(key));
    assert(hooks_of(all) =~= all.map_values(listener_of()));
}

/// A listener is called exactly if it stands in the table under the key and, for a key
/// of an instance, its owner answers.
pub proof fn a_listener_is_called_when_it_hears(
    bus: BusModel,
    m: SharedModel,
    key: TypeKey,
    hook: Hook,
)
    ensures
        bus.callees(m, key).contains(hook) <==> exists|k: int|
            0 <= k < bus.hooks.len() && (#[trigger] bus.hooks[k]).1 == hook
                && bus.hooks[k].0.identity() == key.identity() && (key.identity().instance is Some
                ==> answers(m, hook.owner)),
{
    broadcast use vstd::seq_lib::group_filter_ensures;

    let entries = bus.hooks;
    let keep = if key.identity().instance is Some {
        hears(m, key)
    } else {
        listens_to(key)
    };
    let chosen = entries.filter(keep);
    let called = chosen.map_values(listener_of());
    listeners_that_hear_are_called(bus, m, key);
    if called.contains(hook) {
        let j = choose|j: int| 0 <= j < called.len() && called[j] == hook;
        let e = chosen[j];
        assert(chosen.contains(e) && keep(e));
        entries.lemma_filter_contains_rev(keep, e);
        let k = choose|k: int| 0 <= k < entries.len() && entries[k] == e;
        assert(entries[k].1 == hook);
    }
    if exists|k: int|
        0 <= k < entries.len() && (#[trigger] entries[k]).1 == hook && keep(entries[k]) {
        let k = choose|k: int|
            0 <= k < entries.len() && (#[trigger] entries[k]).1 == hook && keep(entries[k]);
        assert(chosen.contains(entries[k]));
        let j = choose|j: int| 0 <= j < chosen.len() && chosen[j] == entries[k];
        assert(called[j] == hook);
    }
    assert forall|k: int| 0 <= k < entries.len() implies (keep(#[trigger] entries[k]) <==> (
    entries[k].0.identity() == key.identity() && (key.identity().instance is Some ==> answers(
        m,
        entries[k].1.owner,
    )))) by {}
}

/// The entries that a dispatch leaves in the table.
pub open spec fn stays(key: TypeKey) -> spec_fn((TypeKey, Hook)) -> bool {
    |e: (TypeKey, Hook)| e.0.identity() != key.identity() || !e.1.once
}

/// A dispatch takes the one-time listeners of its key out of the table, whether they
/// were called or not, and leaves everything else as it was.
pub proof fn one_time_listeners_leave(bus: BusModel, key: TypeKey)
    ensures
        bus.dispatched(key).hooks == bus.hooks.filter(stays(key)),
        bus.dispatched(key).wf_hooks == bus.wf_hooks,
        bus.dispatched(key).tails == bus.tails,
        bus.dispatched(key).next == bus.next,
        bus.dispatched(key).root == bus.root,
        bus.wf_hooks.filter(survives_dispatch(key)) == bus.wf_hooks.filter(stays(key)),
{
    filters_agree(bus.hooks, survives_dispatch(key), stays(key));
    filters_agree(bus.wf_hooks, survives_dispatch(key), stays(key));
}

/// A dispatch on an instance is refused exactly if the root or a fiber above the
/// context is closing, the dispatching fiber is not awake, the bus is another root's,
/// or the context is not below the instance; in that order.
pub proof fn dispatches_on_an_instance_come_from_below(
    bus: BusModel,
    m: SharedModel,
    ctx: Ctx,
    key: TypeKey,
)
    requires
        key.identity().instance is Some,
    ensures
        ({
            let id = key.identity().instance->0;
            let closed = m.closing || exists|n: nat| #[trigger] closing_at(m, ctx, n);
            let outside = bus.root != m.nodes[0].instance || !m.in_instance(ctx.node.fiber, id);
            let r = bus.dispatch_refusal(m, ctx, key);
            &&& closed ==> r == Some(CordisError::Closed)
            &&& !closed && !awake(m, ctx) ==> r == Some(CordisError::InactiveEffect)
            &&& !closed && awake(m, ctx) && outside ==> r == Some(
                CordisError::InstanceOutOfScope { instance: id },
            )
            &&& !closed && awake(m, ctx) && !outside ==> r is None
        }),
{
    contexts_are_closed_from_above(m, ctx);
}

/// A listener is accepted where another registration under the key would be, unless
/// the key is of an instance and the bus is another root's.
pub proof fn listeners_are_accepted_below_the_instance(
    bus: BusModel,
    m: SharedModel,
    ctx: Ctx,
    key: TypeKey,
)
    ensures
        bus.hook_refusal(m, ctx, key) is None <==> m.key_refusal(ctx, key) is None && (
        key.identity().instance is None || bus.root == m.nodes[0].instance),
        m.key_refusal(ctx, key) is Some ==> bus.hook_refusal(m, ctx, key) == m.key_refusal(
            ctx,
            key,
        ),
        m.key_refusal(ctx, key) is None && bus.hook_refusal(m, ctx, key) is Some
            ==> bus.hook_refusal(m, ctx, key) == Some(
            CordisError::InstanceOutOfScope { instance: key.identity().instance->0 },
        ),
{
}

/// A fiber's end waits for a dispatch on an instance if it is there and owns the
/// instance, dispatches, or owns one of the listeners.
pub proof fn dispatching_fibers_wait(
    m: SharedModel,
    ctx: Ctx,
    id: InstanceId,
    hooks: Seq<Hook>,
    j: FiberIx,
)
    ensures
        m.involved(ctx, id, hooks, j) <==> j < m.fibers.len() && m.fibers[j as int].held && (j
            == ctx.node.fiber || m.owner_of(ctx.node.fiber, id) == Some(j) || exists|k: int|
            0 <= k < hooks.len() && (#[trigger] hooks[k]).owner == j),
{
}

proof fn picking_lists(picked: Seq<bool>, n: nat)
    requires
        n <= picked.len(),
        picked.len() <= usize::MAX + 1,
    ensures
        forall|k: int|
            0 <= k < picked_list(picked, n).len() ==> (#[trigger] picked_list(picked, n)[k]) < n
                && picked[picked_list(picked, n)[k] as int],
        forall|j: usize| j < n && picked[j as int] ==> #[trigger] picked_list(picked, n).contains(j),
        forall|k: int, l: int|
            #![trigger picked_list(picked, n)[k], picked_list(picked, n)[l]]
            0 <= k < l < picked_list(picked, n).len() ==> picked_list(picked, n)[k] < picked_list(
                picked,
                n,
            )[l],
    decreases n,
{
    if n > 0 {
        let before = picked_list(picked, (n - 1) as nat);
        let after = picked_list(picked, n);
        picking_lists(picked, (n - 1) as nat);
        if picked[n - 1] {
            assert(after == before.push((n - 1) as usize));
            assert forall|j: usize| j < n && picked[j as int] implies #[trigger] after.contains(
                j,
            ) by {
                if j == n - 1 {
                    assert(after[before.len() as int] == j);
                } else {
                    assert(before.contains(j));
                    let k = choose|k: int| 0 <= k < before.len() && before[k] == j;
                    assert(after[k] == j);
                }
            }
        }
    }
}

/// Each fiber that was picked is listed once, in the order of the fibers, and has one
/// flight more; everything else stays as it was.
pub proof fn picked_fibers_have_one_flight_more(m: SharedModel, picked: Seq<bool>)
    requires
        m.flight_room(),
        picked.len() == m.fibers.len(),
        m.fibers.len() <= usize::MAX,
    ensures
        ({
            let list = picked_list(picked, picked.len());
            let after = m.airborne(picked, picked.len());
            &&& forall|j: usize|
                #![trigger list.contains(j)]
                list.contains(j) <==> j < picked.len() && picked[j as int]
            &&& forall|k: int, l: int|
                #![trigger list[k], list[l]]
                0 <= k < l < list.len() ==> list[k] < list[l]
            &&& after.fibers.len() == m.fibers.len()
            &&& forall|j: int|
                0 <= j < m.fibers.len() ==> #[trigger] after.fibers[j] == (FiberModel {
                    flights: (m.fibers[j].flights + if picked[j] {
                        1int
                    } else {
                        0int
                    }) as usize,
                    ..m.fibers[j]
                })
            &&& after == SharedModel { fibers: after.fibers, ..m }
        }),
{
    picking_lists(picked, picked.len());
    let list = picked_list(picked, picked.len());
    assert forall|j: usize|
        #![trigger list.contains(j)]
        list.contains(j) implies j < picked.len() && picked[j as int] by {
        let k = choose|k: int| 0 <= k < list.len() && list[k] == j;
        assert(list[k] == j);
    }
}

/// The observers that are told of a dispatch: those whose owner answers and is the
/// dispatching fiber or on its way to the root.
pub open spec fn overlooks(m: SharedModel, ctx: Ctx) -> spec_fn(Hook) -> bool {
    |h: Hook| answers(m, h.owner) && m.within(ctx.node.fiber, h.owner)
}

proof fn watching_is_filtering(m: SharedModel, entries: Seq<Hook>, ctx: Ctx, n: nat)
    requires
        n <= entries.len(),
    ensures
        m.watchers(entries, ctx, n) == entries.subrange(0, n as int).filter(overlooks(m, ctx)),
    decreases n,
{
    if n == 0 {
        filter_empty(entries, overlooks(m, ctx));
    } else {
        watching_is_filtering(m, entries, ctx, (n - 1) as nat);
        filter_step(entries, n - 1, overlooks(m, ctx));
    }
}

/// A dispatch is told to all observers that overlook it, and to no others, each once,
/// in the order in which they were registered; a fiber's end waits for those it owns.
pub proof fn observers_above_are_told(m: SharedModel, entries: Seq<Hook>, ctx: Ctx, j: FiberIx)
    ensures
        m.watchers(entries, ctx, entries.len()) == entries.filter(overlooks(m, ctx)),
        m.watching(entries, j) <==> j < m.fibers.len() && m.fibers[j as int].held && exists|k: int|
            0 <= k < entries.len() && (#[trigger] entries[k]).owner == j,
{
    watching_is_filtering(m, entries, ctx, entries.len());
    whole(entries);
}

/// The writer's slot: of its key, in its scope, holding its binding, which may be
/// written and is not being taken away.
pub open spec fn open_slot(slot: Slot, w: ServiceWriter) -> bool {
    &&& slot.key.identity() == w.key.identity()
    &&& same_scope(slot.scope, w.scope)
    &&& slot.binding.id == w.binding
    &&& slot.binding.mutable
    &&& !slot.binding.removing
}

/// A write is begun exactly if the writer is of this root, the writing fiber is the
/// provider, still there, sees the key in the binding's scope and may use it, and
/// could register something. A writer of another root or fiber is told so; one whose
/// provider is gone or takes no registrations is stale.
pub proof fn writes_are_begun_by_the_provider(m: SharedModel, ctx: Ctx, w: ServiceWriter)
    ensures
        ({
            let there = w.provider < m.fibers.len() && m.fibers[w.provider as int].held;
            let home = m.nodes[0].instance == w.root;
            let own = ctx.node.fiber == w.provider && same_scope(scope_seen(ctx, w.key), w.scope)
                && m.in_instance_key(ctx.node.fiber, w.key);
            let r = m.write_refusal(ctx, w);
            &&& r is None <==> home && there && own && m.refusal(ctx) is None
            &&& r == Some(ServiceWriteFailure::WrongOwner) <==> !home || (there && !own)
            &&& r == Some(ServiceWriteFailure::Stale) <==> home && (!there || (own
                && m.refusal(ctx) is Some))
        }),
{
}

/// A value is put in place exactly if nothing above the writing context is closing,
/// the provider is being assembled or active in the generation in which it bound the
/// service, and the binding is the writer's, may be written and stays.
pub proof fn writes_reach_their_own_binding(m: SharedModel, ctx: Ctx, w: ServiceWriter)
    requires
        m.wf(),
    ensures
        m.writable(ctx, w) <==> !m.closing && !(exists|n: nat| #[trigger] closing_at(m, ctx, n))
            && w.provider < m.fibers.len() && m.fibers[w.provider as int].trans.generation
            == w.provider_gen && (m.fibers[w.provider as int].trans.state is Loading
            || m.fibers[w.provider as int].trans.state is Active) && exists|s: int|
            0 <= s < m.registry.slots.len() && open_slot(#[trigger] m.registry.slots[s], w),
{
    contexts_are_closed_from_above(m, ctx);
    let r = m.registry;
    if r.occupied(w.key, w.scope) {
        let p = r.place(w.key, w.scope);
        assert(is_slot(r.slots, p, w.key, w.scope));
        if m.writable(ctx, w) {
            assert(open_slot(r.slots[p], w));
        }
    }
    if exists|s: int| 0 <= s < r.slots.len() && open_slot(#[trigger] r.slots[s], w) {
        let s = choose|s: int| 0 <= s < r.slots.len() && open_slot(#[trigger] r.slots[s], w);
        keys_are_bound_by_their_slot(r, w.key, w.scope, s);
    }
}

/// A key is queued exactly if there is a last dispatch of it that is not over, and its
/// tail is that one.
pub proof fn keys_queue_behind_their_own_tail(bus: BusModel, key: TypeKey, i: int)
    requires
        bus.wf(),
    ensures
        bus.queued(key) <==> exists|k: int|
            0 <= k < bus.tails.len() && (#[trigger] bus.tails[k]).key.identity() == key.identity(),
        0 <= i < bus.tails.len() && bus.tails[i].key.identity() == key.identity() ==> bus.tail(key)
            == bus.tails[i],
{
    if bus.queued(key) {
        let k = choose|k: int| #[trigger] bus.has_tail(k, key);
        assert(bus.tails[k].key.identity() == key.identity());
    }
    if exists|k: int|
        0 <= k < bus.tails.len() && (#[trigger] bus.tails[k]).key.identity() == key.identity() {
        let k = choose|k: int|
            0 <= k < bus.tails.len() && (#[trigger] bus.tails[k]).key.identity() == key.identity();
        assert(bus.has_tail(k, key));
    }
    if 0 <= i < bus.tails.len() && bus.tails[i].key.identity() == key.identity() {
        assert(bus.has_tail(i, key));
        tail_is_unique(bus, key, i);
    }
}

/// Every listener but the one with the key and the number.
pub open spec fn all_but(key: TypeKey, id: u64) -> spec_fn((TypeKey, Hook)) -> bool {
    |e: (TypeKey, Hook)| e.0.identity() != key.identity() || e.1.id != id
}

pub open spec fn all_interceptors_but(id: u64) -> spec_fn(Interception) -> bool {
    |e: Interception| e.hook.id != id
}

pub open spec fn all_observers_but(id: u64) -> spec_fn(Hook) -> bool {
    |h: Hook| h.id != id
}

/// A listener, an interceptor or an observer that is removed leaves every other one in
/// its place.
pub proof fn removals_leave_the_others(
    listeners: Seq<(TypeKey, Hook)>,
    interceptors: Seq<Interception>,
    observers: Seq<Hook>,
    key: TypeKey,
    id: u64,
)
    ensures
        listeners.filter(other_hook(key, id)) == listeners.filter(all_but(key, id)),
        interceptors.filter(other_interceptor(id)) == interceptors.filter(all_interceptors_but(id)),
        observers.filter(other_observer(id)) == observers.filter(all_observers_but(id)),
{
    filters_agree(listeners, other_hook(key, id), all_but(key, id));
    filters_agree(interceptors, other_interceptor(id), all_interceptors_but(id));
    filters_agree(observers, other_observer(id), all_observers_but(id));
}

/// A refused write is answered with the key, the provider and its generation as the
/// writer knows them, where it was made and why.
pub proof fn refused_writes_say_whose_they_were(
    w: ServiceWriter,
    location: CallSite,
    reason: ServiceWriteFailure,
)
    ensures
        ({
            let e = write_failure(w, location, reason);
            &&& e.key == w.key
            &&& e.provider == w.provider_id
            &&& e.generation == w.provider_gen
            &&& e.location == location
            &&& e.reason == reason
        }),
{
}

/// A callback that has ended is no longer in flight for the fiber; nothing else
/// changes.
pub proof fn landed_callbacks_are_not_waited_for(m: SharedModel, i: FiberIx, j: FiberIx)
    requires
        m.has(i),
        m.has(j),
        m.fibers[i as int].flights > 0,
    ensures
        ({
            let after = m.landed(i);
            &&& after.fibers[i as int].flights == m.fibers[i as int].flights - 1
            &&& after.fibers[i as int] == (FiberModel {
                flights: after.fibers[i as int].flights,
                ..m.fibers[i as int]
            })
            &&& j != i ==> after.fibers[j as int] == m.fibers[j as int]
            &&& after == SharedModel { fibers: after.fibers, ..m }
        }),
{
}

} // verus!
