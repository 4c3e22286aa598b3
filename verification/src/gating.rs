//! When a dependency counts as ready, and what a fiber does about it.

use crate::ctx::scope_seen;
use crate::diagnostics::DependencyStatus;
use crate::fiber::{
    has_dep, same_dep, same_deps, AfterDrain, Dep, FiberIx, FiberModel, FiberState, Intent,
    PluginId, Stage, TaskId,
};
use crate::key::{same_key, same_scope, InstanceId, ScopeId, TypeKey};
use crate::registry::{
    is_slot, slot_is_unique, status_of, Binding, CheckOutcome, RegistryModel, Slot,
};
use crate::shared::SharedModel;
use vstd::prelude::*;

verus! {

/// Two scopes are the same where both are absent, or both have the same text.
pub proof fn scopes_are_compared_by_text(a: Option<ScopeId>, b: Option<ScopeId>)
    ensures
        same_scope(a, b) <==> (a is None && b is None) || (a is Some && b is Some && (a->0)@
            == (b->0)@),
{
}

/// A way up the tree: every fiber on it is still there, and each is followed by
/// its parent.
pub open spec fn climbs(m: SharedModel, way: Seq<FiberIx>) -> bool {
    &&& way.len() > 0
    &&& forall|k: int|
        0 <= k < way.len() ==> (#[trigger] way[k]) < m.fibers.len() && m.fibers[way[k] as int].held
    &&& forall|k: int|
        0 < k < way.len() ==> m.nodes[way[k - 1] as int].parent == Some(#[trigger] way[k])
}

/// The way leads from one fiber to the other.
pub open spec fn climbs_to(m: SharedModel, way: Seq<FiberIx>, from: FiberIx, to: FiberIx) -> bool {
    climbs(m, way) && way[0] == from && way.last() == to
}

proof fn within_has_a_way(m: SharedModel, i: FiberIx, other: FiberIx) -> (way: Seq<FiberIx>)
    requires
        m.wf(),
        m.within(i, other),
    ensures
        climbs_to(m, way, i, other),
    decreases i,
{
    if i == other {
        seq![i]
    } else {
        let p = m.nodes[i as int].parent->0;
        let rest = within_has_a_way(m, p, other);
        let way = seq![i] + rest;
        assert forall|k: int| 0 <= k < way.len() implies (#[trigger] way[k]) < m.fibers.len()
            && m.fibers[way[k] as int].held by {
            if k > 0 {
                assert(way[k] == rest[k - 1]);
            }
        }
        assert forall|k: int| 0 < k < way.len() implies m.nodes[way[k - 1] as int].parent == Some(
            #[trigger] way[k],
        ) by {
            assert(way[k] == rest[k - 1]);
            if k > 1 {
                assert(way[k - 1] == rest[k - 2]);
            }
        }
        way
    }
}

proof fn a_way_is_within(m: SharedModel, way: Seq<FiberIx>, i: FiberIx, other: FiberIx)
    requires
        m.wf(),
        climbs_to(m, way, i, other),
    ensures
        m.within(i, other),
    decreases way.len(),
{
    assert(way[0] < m.fibers.len() && m.fibers[way[0] as int].held);
    if way.len() == 1 {
        assert(way.last() == way[0]);
    } else if i != other {
        let rest = way.drop_first();
        assert(m.nodes[way[0] as int].parent == Some(way[1]));
        assert(i != 0);
        assert(m.nodes[i as int].parent matches Some(p) && p < i);
        assert forall|k: int| 0 <= k < rest.len() implies (#[trigger] rest[k]) < m.fibers.len()
            && m.fibers[rest[k] as int].held by {
            assert(rest[k] == way[k + 1]);
        }
        assert forall|k: int| 0 < k < rest.len() implies m.nodes[rest[k - 1] as int].parent == Some(
            #[trigger] rest[k],
        ) by {
            assert(rest[k] == way[k + 1] && rest[k - 1] == way[k]);
        }
        assert(rest.last() == way.last());
        a_way_is_within(m, rest, way[1], other);
    }
}

/// A fiber is below another exactly if a way over parents that are still there
/// leads up to it.
pub proof fn ancestors_are_reached_over_parents(m: SharedModel, i: FiberIx, other: FiberIx)
    requires
        m.wf(),
    ensures
        m.within(i, other) <==> exists|way: Seq<FiberIx>| #[trigger] climbs_to(m, way, i, other),
{
    if m.within(i, other) {
        let way = within_has_a_way(m, i, other);
        assert(climbs_to(m, way, i, other));
    }
    if exists|way: Seq<FiberIx>| #[trigger] climbs_to(m, way, i, other) {
        let way = choose|way: Seq<FiberIx>| #[trigger] climbs_to(m, way, i, other);
        a_way_is_within(m, way, i, other);
    }
}

/// An instance is seen from a fiber exactly if a fiber of that instance is among
/// those on its way to the root. The nearest one is its owner.
pub proof fn instances_are_seen_from_below(m: SharedModel, i: FiberIx, id: InstanceId)
    requires
        m.wf(),
    ensures
        m.in_instance(i, id) <==> exists|a: FiberIx| #[trigger]
            m.within(i, a) && m.nodes[a as int].instance == id,
        m.owner_of(i, id) is Some <==> m.in_instance(i, id),
        m.owner_of(i, id) matches Some(o) ==> m.within(i, o) && m.nodes[o as int].instance == id,
        m.owner_of(i, id) matches Some(o) ==> forall|a: FiberIx| #[trigger]
            m.within(i, a) && m.nodes[a as int].instance == id ==> a <= o,
    decreases i,
{
    if m.has(i) && m.fiber(i).held {
        assert(m.within(i, i));
        if let Some(p) = m.nodes[i as int].parent {
            if p < i {
                instances_are_seen_from_below(m, p, id);
                assert forall|a: FiberIx| #[trigger] m.within(i, a) implies a <= i && (a == i
                    || m.within(p, a)) by {
                    ancestors_come_first(m, i, a);
                }
                if m.in_instance(p, id) {
                    let a = choose|a: FiberIx| #[trigger]
                        m.within(p, a) && m.nodes[a as int].instance == id;
                    if a == i {
                        ancestors_come_first(m, p, a);
                    }
                    assert(m.within(i, a));
                }
                if m.nodes[i as int].instance != id {
                    if let Some(o) = m.owner_of(p, id) {
                        if o != i {
                            assert(m.within(i, o));
                        }
                    }
                }
            }
        }
    }
}

/// What is on a fiber's way to the root came into being no later than the fiber.
pub proof fn ancestors_come_first(m: SharedModel, i: FiberIx, a: FiberIx)
    requires
        m.within(i, a),
    ensures
        a <= i,
        m.has(a),
        m.fibers[a as int].held,
    decreases i,
{
    if a != i {
        let p = m.nodes[i as int].parent->0;
        ancestors_come_first(m, p, a);
    }
}

/// A key that belongs to no instance may be used everywhere; one that belongs to
/// an instance exactly below a fiber of that instance.
pub proof fn keys_of_an_instance_are_for_its_subtree(m: SharedModel, i: FiberIx, key: TypeKey)
    requires
        m.wf(),
    ensures
        key.identity().instance is None ==> m.in_instance_key(i, key),
        key.identity().instance matches Some(id) ==> (m.in_instance_key(i, key) <==> exists|
            a: FiberIx,
        | #[trigger]
            m.within(i, a) && m.nodes[a as int].instance == id),
{
    if let Some(id) = key.identity().instance {
        instances_are_seen_from_below(m, i, id);
    }
}

/// A key is bound, in a scope, to what its slot holds, and to nothing where it has
/// no slot.
pub proof fn keys_are_bound_by_their_slot(
    r: RegistryModel,
    key: TypeKey,
    scope: Option<ScopeId>,
    s: int,
)
    requires
        r.wf(),
    ensures
        0 <= s < r.slots.len() && r.slots[s].key.identity() == key.identity() && same_scope(
            r.slots[s].scope,
            scope,
        ) ==> r.bound(key, scope) == Some(r.slots[s].binding),
        (forall|k: int|
            0 <= k < r.slots.len() ==> !((#[trigger] r.slots[k]).key.identity() == key.identity()
                && same_scope(r.slots[k].scope, scope))) <==> r.bound(key, scope) is None,
{
    if 0 <= s < r.slots.len() && r.slots[s].key.identity() == key.identity() && same_scope(
        r.slots[s].scope,
        scope,
    ) {
        assert(is_slot(r.slots, s, key, scope));
        slot_is_unique(r, key, scope, s);
    }
    if r.bound(key, scope) is Some {
        let p = r.place(key, scope);
        assert(is_slot(r.slots, p, key, scope));
        assert(r.slots[p].key.identity() == key.identity());
    } else {
        assert forall|k: int| 0 <= k < r.slots.len() implies !((
        #[trigger] r.slots[k]).key.identity() == key.identity() && same_scope(
            r.slots[k].scope,
            scope,
        )) by {
            assert(!is_slot(r.slots, k, key, scope));
        }
    }
}

/// The slot holds a service that can be used now: it is for the key in the scope, it
/// is not being taken away, its provider is still there and active, and its check,
/// if it has one, passed last.
pub open spec fn serves(m: SharedModel, slot: Slot, key: TypeKey, scope: Option<ScopeId>) -> bool {
    &&& slot.key.identity() == key.identity()
    &&& same_scope(slot.scope, scope)
    &&& !slot.binding.removing
    &&& slot.binding.provider < m.fibers.len()
    &&& m.fibers[slot.binding.provider as int].held
    &&& m.fibers[slot.binding.provider as int].trans.state == FiberState::Active
    &&& slot.binding.has_check ==> slot.binding.check_status == Some(CheckOutcome::Passed)
}

/// A service is ready exactly if it stays, its provider is active, and its check, if it
/// has one, has passed; whatever it lacks is told, the first of these first.
pub proof fn services_are_ready_when_active_and_checked(b: Binding, provider: FiberState)
    ensures
        status_of(b, provider) == DependencyStatus::Ready <==> !b.removing && provider is Active
            && (!b.has_check || b.check_status == Some(CheckOutcome::Passed)),
        b.removing <==> status_of(b, provider) == DependencyStatus::Removing,
        !b.removing && !(provider is Active) ==> status_of(b, provider)
            == DependencyStatus::ProviderInactive(provider),
        !b.removing && provider is Active && b.has_check ==> {
            &&& b.check_status is None ==> status_of(b, provider) == DependencyStatus::CheckPending
            &&& b.check_status == Some(CheckOutcome::Rejected) ==> status_of(b, provider)
                == DependencyStatus::CheckRejected
            &&& b.check_status == Some(CheckOutcome::Panicked) ==> status_of(b, provider)
                == DependencyStatus::CheckPanicked
        },
{
}

/// A dependency is ready exactly if the fiber may use the key and a slot of the key,
/// in the scope that the fiber sees, holds a service that can be used: bound, not
/// being removed, its provider held and active, its check passed. It is ready only
/// if the provider is active, whatever else holds.
pub proof fn dependencies_are_ready_when_their_provider_is_active(
    m: SharedModel,
    i: FiberIx,
    key: TypeKey,
)
    requires
        m.wf(),
        m.has(i),
    ensures
        m.dependency(i, key) == DependencyStatus::Ready <==> m.in_instance_key(i, key) && exists|
            s: int,
        |
            0 <= s < m.registry.slots.len() && serves(
                m,
                #[trigger] m.registry.slots[s],
                key,
                scope_seen(m.nodes[i as int].ctx, key),
            ),
        m.dependency(i, key) == DependencyStatus::Ready ==> (m.registry.bound(
            key,
            scope_seen(m.nodes[i as int].ctx, key),
        ) matches Some(b) && !b.removing && b.provider < m.fibers.len()
            && m.fibers[b.provider as int].held && m.fibers[b.provider as int].trans.state
            == FiberState::Active && (b.has_check ==> b.check_status == Some(
            CheckOutcome::Passed,
        ))),
{
    let scope = scope_seen(m.nodes[i as int].ctx, key);
    let r = m.registry;
    if m.in_instance_key(i, key) {
        if r.occupied(key, scope) {
            let p = r.place(key, scope);
            assert(is_slot(r.slots, p, key, scope));
            if m.dependency(i, key) == DependencyStatus::Ready {
                assert(serves(m, r.slots[p], key, scope));
            }
        }
        if exists|s: int| 0 <= s < r.slots.len() && serves(m, #[trigger] r.slots[s], key, scope) {
            let s = choose|s: int|
                0 <= s < r.slots.len() && serves(m, #[trigger] r.slots[s], key, scope);
            keys_are_bound_by_their_slot(r, key, scope, s);
        }
    }
}

/// What stands in the way of a dependency, in this order: the key is of an instance
/// out of reach; nothing is bound; it is being removed; its provider is in another
/// state than active, and in which; its check has not ended, was rejected, or
/// panicked.
pub proof fn dependencies_tell_what_they_lack(m: SharedModel, i: FiberIx, key: TypeKey, s: int)
    requires
        m.wf(),
        m.has(i),
        0 <= s < m.registry.slots.len(),
        m.registry.slots[s].key.identity() == key.identity(),
        same_scope(m.registry.slots[s].scope, scope_seen(m.nodes[i as int].ctx, key)),
        m.in_instance_key(i, key),
    ensures
        ({
            let b = m.registry.slots[s].binding;
            let status = m.dependency(i, key);
            let there = b.provider < m.fibers.len() && m.fibers[b.provider as int].held;
            let state = m.fibers[b.provider as int].trans.state;
            &&& status == DependencyStatus::Removing <==> b.removing
            &&& !b.removing && !there ==> status == DependencyStatus::ProviderInactive(
                FiberState::Disposed,
            )
            &&& !b.removing && there && !(state is Active) ==> status
                == DependencyStatus::ProviderInactive(state)
            &&& !b.removing && there && state is Active && b.has_check && b.check_status is None
                ==> status == DependencyStatus::CheckPending
            &&& !b.removing && there && state is Active && b.has_check && b.check_status == Some(
                CheckOutcome::Rejected,
            ) ==> status == DependencyStatus::CheckRejected
            &&& !b.removing && there && state is Active && b.has_check && b.check_status == Some(
                CheckOutcome::Panicked,
            ) ==> status == DependencyStatus::CheckPanicked
            &&& !b.removing && there && state is Active && (!b.has_check || b.check_status == Some(
                CheckOutcome::Passed,
            )) ==> status == DependencyStatus::Ready
        }),
{
    keys_are_bound_by_their_slot(
        m.registry,
        key,
        scope_seen(m.nodes[i as int].ctx, key),
        s,
    );
}

/// A dependency of which nothing is bound in the scope that the fiber sees is
/// missing, and one that belongs to an instance out of reach is out of scope.
pub proof fn unbound_dependencies_are_missing(m: SharedModel, i: FiberIx, key: TypeKey)
    requires
        m.wf(),
        m.has(i),
    ensures
        !m.in_instance_key(i, key) <==> m.dependency(i, key) == DependencyStatus::OutOfScope,
        m.dependency(i, key) == DependencyStatus::Missing <==> m.in_instance_key(i, key) && forall|
            s: int,
        |
            0 <= s < m.registry.slots.len() ==> !((#[trigger] m.registry.slots[s]).key.identity()
                == key.identity() && same_scope(
                m.registry.slots[s].scope,
                scope_seen(m.nodes[i as int].ctx, key),
            )),
{
    keys_are_bound_by_their_slot(
        m.registry,
        key,
        scope_seen(m.nodes[i as int].ctx, key),
        0,
    );
}

/// Every declaration of the fiber is served now.
pub open spec fn all_served(m: SharedModel, i: FiberIx) -> bool {
    forall|k: int|
        0 <= k < m.fibers[i as int].declared.len() ==> m.in_instance_key(
            i,
            #[trigger] m.fibers[i as int].declared[k],
        ) && exists|s: int|
            0 <= s < m.registry.slots.len() && serves(
                m,
                #[trigger] m.registry.slots[s],
                m.fibers[i as int].declared[k],
                scope_seen(m.nodes[i as int].ctx, m.fibers[i as int].declared[k]),
            )
}

/// All dependencies of a fiber are ready exactly if each of its declarations may be
/// used by it and is served in the scope in which it sees it.
pub proof fn fibers_are_ready_when_all_is_served(m: SharedModel, i: FiberIx)
    requires
        m.wf(),
        m.has(i),
    ensures
        m.all_ready(i) <==> all_served(m, i),
{
    let f = m.fibers[i as int];
    assert(f == m.fiber(i));
    if m.all_ready(i) {
        assert forall|k: int| 0 <= k < f.declared.len() implies m.in_instance_key(
            i,
            #[trigger] f.declared[k],
        ) && exists|s: int|
            0 <= s < m.registry.slots.len() && serves(
                m,
                #[trigger] m.registry.slots[s],
                f.declared[k],
                scope_seen(m.nodes[i as int].ctx, f.declared[k]),
            ) by {
            assert(m.dependency(i, m.fiber(i).declared[k]) == DependencyStatus::Ready);
            dependencies_are_ready_when_their_provider_is_active(m, i, f.declared[k]);
        }
    }
    if all_served(m, i) {
        assert forall|k: int| 0 <= k < m.fiber(i).declared.len() implies m.dependency(
            i,
            #[trigger] m.fiber(i).declared[k],
        ) == DependencyStatus::Ready by {
            assert(m.in_instance_key(i, m.fibers[i as int].declared[k]));
            dependencies_are_ready_when_their_provider_is_active(m, i, f.declared[k]);
        }
    }
}

/// A waiting fiber that is open and has a plugin is loaded exactly if every declared
/// dependency is served by an active provider; and a running fiber that has lost one
/// is unloaded.
pub proof fn fibers_are_loaded_when_all_is_served(
    m: SharedModel,
    i: FiberIx,
    join: Option<TaskId>,
)
    requires
        m.wf(),
        m.has(i),
        m.fibers[i as int].stage == (Stage::Resolving { join }),
        m.fibers[i as int].trans.seq < u64::MAX,
        m.fibers[i as int].trans.generation < u64::MAX,
    ensures
        ({
            let f = m.fibers[i as int];
            let g = m.resolved(i, join).fibers[i as int];
            &&& f.trans.state is Pending && !f.closing && !m.closing && f.last_deps is None
                && all_served(m, i) ==> g.trans.state is Loading && g.stage == (Stage::Building {
                join,
            }) && g.trans.generation == f.trans.generation + 1 && !g.cancelled
                && g.trans.error is None
            &&& f.trans.state is Pending && !all_served(m, i) ==> g.trans.state is Pending
                && g.stage is Idle && g.trans.generation == f.trans.generation && g.effects
                == f.effects
            &&& f.trans.state is Active && !all_served(m, i) ==> g.trans.state is Unloading
                && g.stage == (Stage::Draining { after: AfterDrain::Settle, join }) && g.cancelled
                && g.effects.len() == 0 && g.draining == f.effects.reverse()
            &&& g.trans.state is Loading ==> all_served(m, i)
        }),
{
    fibers_are_ready_when_all_is_served(m, i);
}

proof fn served_declarations_are_found(m: SharedModel, i: FiberIx, n: nat, k: int)
    requires
        0 <= k < n <= m.fibers[i as int].declared.len(),
        m.dependency(i, m.fibers[i as int].declared[k]) == DependencyStatus::Ready,
    ensures
        has_dep(m.found(i, n), m.dep_of(i, m.fibers[i as int].declared[k])),
    decreases n,
{
    let dep = m.dep_of(i, m.fibers[i as int].declared[k]);
    let before = m.found(i, (n - 1) as nat);
    let all = m.found(i, n);
    if k < n - 1 {
        served_declarations_are_found(m, i, (n - 1) as nat, k);
    }
    if has_dep(before, dep) {
        let x = choose|x: int| 0 <= x < before.len() && same_dep(#[trigger] before[x], dep);
        assert(all[x] == before[x]);
    } else {
        assert(all[before.len() as int] == dep);
        assert(same_dep(all[before.len() as int], dep));
    }
}

/// What a fiber is said to depend on holds, for each of its declarations that is
/// served, the provider of the slot that serves it and that provider's generation.
pub proof fn fibers_depend_on_who_serves_them(m: SharedModel, i: FiberIx, k: int, s: int)
    requires
        m.wf(),
        m.has(i),
        0 <= k < m.fibers[i as int].declared.len(),
        m.in_instance_key(i, m.fibers[i as int].declared[k]),
        0 <= s < m.registry.slots.len(),
        serves(
            m,
            m.registry.slots[s],
            m.fibers[i as int].declared[k],
            scope_seen(m.nodes[i as int].ctx, m.fibers[i as int].declared[k]),
        ),
    ensures
        exists|d: int|
            0 <= d < m.all_found(i).len() && (#[trigger] m.all_found(i)[d]).provider
                == m.registry.slots[s].binding.provider_id && m.all_found(i)[d].generation
                == m.registry.slots[s].binding.provider_gen && m.all_found(i)[d].key.identity()
                == m.fibers[i as int].declared[k].identity() && same_scope(
                m.all_found(i)[d].scope,
                scope_seen(m.nodes[i as int].ctx, m.fibers[i as int].declared[k]),
            ),
{
    let key = m.fibers[i as int].declared[k];
    let scope = scope_seen(m.nodes[i as int].ctx, key);
    let n = m.fibers[i as int].declared.len();
    dependencies_are_ready_when_their_provider_is_active(m, i, key);
    keys_are_bound_by_their_slot(m.registry, key, scope, s);
    served_declarations_are_found(m, i, n, k);
    let dep = m.dep_of(i, key);
    let all = m.all_found(i);
    let x = choose|x: int| 0 <= x < all.len() && same_dep(#[trigger] all[x], dep);
    assert(all[x].provider == m.registry.slots[s].binding.provider_id);
}

/// The dependency is in the list: one of the same provider, generation, key and scope.
pub open spec fn listed(list: Seq<Dep>, dep: Dep) -> bool {
    exists|l: int|
        0 <= l < list.len() && (#[trigger] list[l]).provider == dep.provider && list[l].generation
            == dep.generation && list[l].key.identity() == dep.key.identity() && same_scope(
            list[l].scope,
            dep.scope,
        )
}

proof fn having_is_listing(list: Seq<Dep>, dep: Dep)
    ensures
        has_dep(list, dep) <==> listed(list, dep),
{
    if has_dep(list, dep) {
        let l = choose|l: int| 0 <= l < list.len() && same_dep(#[trigger] list[l], dep);
        assert(list[l].provider == dep.provider);
    }
    if listed(list, dep) {
        let l = choose|l: int|
            0 <= l < list.len() && (#[trigger] list[l]).provider == dep.provider
                && list[l].generation == dep.generation && list[l].key.identity()
                == dep.key.identity() && same_scope(list[l].scope, dep.scope);
        assert(same_dep(list[l], dep));
    }
}

/// Two lists of dependencies are the same exactly if each dependency of the one is
/// in the other, by provider, generation, key and scope; their order has no say.
pub proof fn dependencies_are_compared_as_sets(a: Seq<Dep>, b: Seq<Dep>)
    ensures
        same_deps(a, b) <==> (forall|k: int| 0 <= k < a.len() ==> listed(b, #[trigger] a[k])) && (
        forall|k: int| 0 <= k < b.len() ==> listed(a, #[trigger] b[k])),
{
    assert forall|k: int| 0 <= k < a.len() implies has_dep(b, #[trigger] a[k]) == listed(
        b,
        a[k],
    ) by {
        having_is_listing(b, a[k]);
    }
    assert forall|k: int| 0 <= k < b.len() implies has_dep(a, #[trigger] b[k]) == listed(
        a,
        b[k],
    ) by {
        having_is_listing(a, b[k]);
    }
}

/// Everybody who waits for a key, is still there and takes requests is told to look
/// at its dependencies, behind what it was asked before; nobody else is told
/// anything, and nothing else changes.
pub proof fn changes_of_a_key_are_told_to_who_waits_for_it(
    m: SharedModel,
    key: TypeKey,
    j: FiberIx,
)
    requires
        m.has(j),
        m.fibers.len() <= usize::MAX,
    ensures
        ({
            let f = m.fibers[j as int];
            let g = m.key_changed(key).fibers[j as int];
            let waits = exists|k: int|
                0 <= k < m.registry.index.len() && (#[trigger] m.registry.index[k]).0.identity()
                    == key.identity() && m.registry.index[k].1 == j;
            &&& waits && f.held && f.alive ==> g == (FiberModel {
                mailbox: f.mailbox.push(Intent::RefreshDeps),
                ..f
            })
            &&& !(waits && f.held && f.alive) ==> g == f
        }),
        m.key_changed(key).fibers.len() == m.fibers.len(),
        m.key_changed(key).registry == m.registry,
        m.key_changed(key).tasks == m.tasks,
        m.key_changed(key).nodes == m.nodes,
        m.key_changed(key).records == m.records,
        m.key_changed(key).closing == m.closing,
{
    let r = m.registry;
    if r.waits(key, j) {
        let k = choose|k: int|
            0 <= k < r.index.len() && same_key((#[trigger] r.index[k]).0, key) && r.index[k].1 == j;
        assert(r.index[k].0.identity() == key.identity());
    }
    if exists|k: int|
        0 <= k < r.index.len() && (#[trigger] r.index[k]).0.identity() == key.identity()
            && r.index[k].1 == j {
        let k = choose|k: int|
            0 <= k < r.index.len() && (#[trigger] r.index[k]).0.identity() == key.identity()
                && r.index[k].1 == j;
        assert(same_key(r.index[k].0, key));
    }
}

/// The fiber runs on the dependency: it waits for the key, is still there, and was
/// last loaded with it. A provider does not run on its own service.
pub open spec fn runs_on(m: SharedModel, j: FiberIx, dep: Dep) -> bool {
    let f = m.fibers[j as int];
    &&& exists|k: int|
        0 <= k < m.registry.index.len() && (#[trigger] m.registry.index[k]).0.identity()
            == dep.key.identity() && m.registry.index[k].1 == j
    &&& f.held
    &&& f.last_deps is Some
    &&& listed(f.last_deps->0, dep)
    &&& f.id != dep.provider
}

proof fn running_on_is_consuming(m: SharedModel, j: FiberIx, dep: Dep)
    ensures
        m.consumes(j, dep) <==> runs_on(m, j, dep),
{
    let r = m.registry;
    let f = m.fibers[j as int];
    if f.last_deps is Some {
        having_is_listing(f.last_deps->0, dep);
    }
    if r.waits(dep.key, j) {
        let k = choose|k: int|
            0 <= k < r.index.len() && same_key((#[trigger] r.index[k]).0, dep.key) && r.index[k].1
                == j;
        assert(r.index[k].0.identity() == dep.key.identity());
    }
    if runs_on(m, j, dep) {
        let k = choose|k: int|
            0 <= k < r.index.len() && (#[trigger] r.index[k]).0.identity() == dep.key.identity()
                && r.index[k].1 == j;
        assert(same_key(r.index[k].0, dep.key));
    }
}

proof fn evicted_upto(m: SharedModel, dep: Dep, n: nat, j: FiberIx)
    requires
        m.has(j),
        n <= m.fibers.len() <= usize::MAX,
        m.tasks.len() + m.fibers.len() <= usize::MAX,
    ensures
        ({
            let after = m.evicted(dep, n).0;
            let tasks = m.evicted(dep, n).1;
            let f = m.fibers[j as int];
            let g = after.fibers[j as int];
            &&& after.registry == m.registry
            &&& after.nodes == m.nodes
            &&& after.fibers.len() == m.fibers.len()
            &&& m.tasks.len() <= after.tasks.len() <= m.tasks.len() + n
            &&& j >= n ==> g == f
            &&& j < n && !runs_on(m, j, dep) ==> g == f
            &&& j < n && runs_on(m, j, dep) ==> g.cancelled
            &&& j < n && runs_on(m, j, dep) && f.closing ==> g == (FiberModel {
                cancelled: true,
                ..f
            }) && (f.shutdown_inner matches Some(t) ==> tasks.contains(t))
            &&& j < n && runs_on(m, j, dep) && !f.closing && f.alive ==> g == (FiberModel {
                cancelled: true,
                mailbox: f.mailbox.push(g.mailbox.last()),
                ..f
            }) && (g.mailbox.last() matches Intent::RefreshDepsJoin(t) && m.tasks.len() <= t
                < after.tasks.len() && tasks.contains(t))
        }),
    decreases n,
{
    running_on_is_consuming(m, j, dep);
    if n > 0 {
        evicted_upto(m, dep, (n - 1) as nat, j);
        let before = m.evicted(dep, (n - 1) as nat).0;
        let told = m.evicted(dep, (n - 1) as nat).1;
        let after = m.evicted(dep, n).0;
        let tasks = m.evicted(dep, n).1;
        let l = (n - 1) as usize;
        evicted_upto(m, dep, (n - 1) as nat, l);
        running_on_is_consuming(m, l, dep);
        running_on_is_consuming(before, l, dep);
        assert(before.fibers[l as int] == m.fibers[l as int]);
        assert(before.consumes(l, dep) == m.consumes(l, dep));
        assert forall|t: TaskId| #[trigger] told.contains(t) implies tasks.contains(t) by {
            assert(tasks[told.index_of(t)] == t);
        }
        if j == l && runs_on(m, j, dep) {
            let f = m.fibers[j as int];
            if f.closing {
                if let Some(t) = f.shutdown_inner {
                    assert(tasks[told.len() as int] == t);
                }
            } else if f.alive {
                let t = before.tasks.len() as usize;
                assert(tasks[told.len() as int] == t);
                assert(after.fibers[j as int] == (FiberModel {
                    cancelled: true,
                    mailbox: f.mailbox.push(Intent::RefreshDepsJoin(t)),
                    ..f
                }));
            }
        }
    }
}

/// When a service is taken away, everybody who runs on it is cancelled. Who is not
/// ending already is asked to look at its dependencies again, and the eviction waits
/// for the answer; of who is ending it waits for the end. Nobody else is disturbed.
pub proof fn evictions_reach_who_runs_on_the_service(m: SharedModel, dep: Dep, j: FiberIx)
    requires
        m.has(j),
        m.fibers.len() <= usize::MAX,
        m.tasks.len() + m.fibers.len() <= usize::MAX,
    ensures
        ({
            let after = m.evicted(dep, m.fibers.len()).0;
            let tasks = m.evicted(dep, m.fibers.len()).1;
            let f = m.fibers[j as int];
            let g = after.fibers[j as int];
            &&& !runs_on(m, j, dep) ==> g == f
            &&& runs_on(m, j, dep) ==> g.cancelled
            &&& runs_on(m, j, dep) && f.closing ==> g == (FiberModel { cancelled: true, ..f }) && (
            f.shutdown_inner matches Some(t) ==> tasks.contains(t))
            &&& runs_on(m, j, dep) && !f.closing && f.alive ==> g == (FiberModel {
                cancelled: true,
                mailbox: f.mailbox.push(g.mailbox.last()),
                ..f
            }) && (g.mailbox.last() matches Intent::RefreshDepsJoin(t) && m.tasks.len() <= t
                < after.tasks.len() && tasks.contains(t))
        }),
{
    evicted_upto(m, dep, m.fibers.len(), j);
}

/// The service on its way out is marked at once, so that it is ready for nobody, and
/// no other binding is touched.
pub proof fn evicted_services_are_marked(
    m: SharedModel,
    key: TypeKey,
    scope: Option<ScopeId>,
    s: int,
    t: int,
)
    requires
        m.wf(),
        0 <= s < m.registry.slots.len(),
        0 <= t < m.registry.slots.len(),
        t != s,
        m.registry.slots[s].key.identity() == key.identity(),
        same_scope(m.registry.slots[s].scope, scope),
    ensures
        ({
            let b = m.registry.slots[s].binding;
            let own = m.own_binding(b.provider_id, b.provider_gen, key, scope);
            let after = m.marked(own, key, scope).registry;
            &&& own == Some(b)
            &&& after.slots.len() == m.registry.slots.len()
            &&& after.slots[s].binding == (Binding { removing: true, ..b })
            &&& after.slots[s].key == m.registry.slots[s].key
            &&& after.slots[t] == m.registry.slots[t]
            &&& after.index == m.registry.index
        }),
        forall|id: PluginId, generation: u64|
            #![trigger m.own_binding(id, generation, key, scope)]
            id != m.registry.slots[s].binding.provider_id || generation
                != m.registry.slots[s].binding.provider_gen ==> m.own_binding(
                id,
                generation,
                key,
                scope,
            ) is None,
{
    keys_are_bound_by_their_slot(m.registry, key, scope, s);
    slot_is_unique(m.registry, key, scope, s);
}

/// A new binding is what its key is bound to in its scope, under an id that no
/// binding had before; what is bound to other keys, or in other scopes, stays.
pub proof fn new_bindings_take_their_slot(
    r: RegistryModel,
    key: TypeKey,
    scope: Option<ScopeId>,
    binding: Binding,
    other: TypeKey,
    elsewhere: Option<ScopeId>,
)
    requires
        r.wf(),
        r.next < u64::MAX,
    ensures
        ({
            let after = r.inserted(key, scope, binding);
            &&& after.wf()
            &&& after.bound(key, scope) == Some(Binding { id: r.next, ..binding })
            &&& after.next == r.next + 1
            &&& after.index == r.index
            &&& other.identity() != key.identity() || !same_scope(elsewhere, scope) ==> after.bound(
                other,
                elsewhere,
            ) == r.bound(other, elsewhere)
        }),
{
    let after = r.inserted(key, scope, binding);
    let fresh = Binding { id: r.next, ..binding };
    let n = r.slots.len() as int;
    let bumped = RegistryModel { next: (r.next + 1) as u64, ..r };
    if r.occupied(key, scope) {
        let p = r.place(key, scope);
        assert(is_slot(r.slots, p, key, scope));
        assert(is_slot(bumped.slots, p, key, scope));
        assert(bumped.wf());
        slot_is_unique(bumped, key, scope, p);
        assert(after.slots == r.slots.update(p, Slot { binding: fresh, ..r.slots[p] }));
        assert(after.wf());
        assert(is_slot(after.slots, p, key, scope));
        keys_are_bound_by_their_slot(after, key, scope, p);
        if r.occupied(other, elsewhere) {
            let q = r.place(other, elsewhere);
            assert(is_slot(r.slots, q, other, elsewhere));
            if other.identity() != key.identity() || !same_scope(elsewhere, scope) {
                assert(q != p);
                keys_are_bound_by_their_slot(after, other, elsewhere, q);
                keys_are_bound_by_their_slot(r, other, elsewhere, q);
            }
        } else if after.occupied(other, elsewhere) {
            let q = after.place(other, elsewhere);
            assert(is_slot(after.slots, q, other, elsewhere));
            assert(is_slot(r.slots, q, other, elsewhere));
        }
    } else {
        assert forall|k: int| 0 <= k < n implies !(same_key((#[trigger] r.slots[k]).key, key)
            && same_scope(r.slots[k].scope, scope)) by {
            assert(!is_slot(r.slots, k, key, scope));
        }
        assert(after.wf());
        assert(is_slot(after.slots, n, key, scope));
        keys_are_bound_by_their_slot(after, key, scope, n);
        if r.occupied(other, elsewhere) {
            let q = r.place(other, elsewhere);
            assert(is_slot(r.slots, q, other, elsewhere));
            keys_are_bound_by_their_slot(after, other, elsewhere, q);
            keys_are_bound_by_their_slot(r, other, elsewhere, q);
        } else if after.occupied(other, elsewhere) {
            let q = after.place(other, elsewhere);
            assert(is_slot(after.slots, q, other, elsewhere));
            if q < n {
                assert(is_slot(r.slots, q, other, elsewhere));
            }
        }
    }
}

/// The outcome of a readiness check is noted on the binding that was checked, if it
/// is still in its slot; every other binding stays as it was.
pub proof fn check_outcomes_are_noted_where_they_belong(
    r: RegistryModel,
    key: TypeKey,
    scope: Option<ScopeId>,
    id: u64,
    outcome: CheckOutcome,
    s: int,
)
    requires
        r.wf(),
        0 <= s < r.slots.len(),
    ensures
        ({
            let after = r.checked(key, scope, id, outcome);
            let b = r.slots[s].binding;
            &&& after.slots.len() == r.slots.len()
            &&& r.slots[s].key.identity() == key.identity() && same_scope(r.slots[s].scope, scope)
                && b.id == id ==> after.slots[s].binding == (Binding {
                check_status: Some(outcome),
                ..b
            })
            &&& !(r.slots[s].key.identity() == key.identity() && same_scope(r.slots[s].scope, scope)
                && b.id == id) ==> after.slots[s] == r.slots[s]
            &&& after.index == r.index
            &&& after.next == r.next
        }),
{
    if r.slots[s].key.identity() == key.identity() && same_scope(r.slots[s].scope, scope) {
        keys_are_bound_by_their_slot(r, key, scope, s);
        slot_is_unique(r, key, scope, s);
    } else if r.occupied(key, scope) {
        assert(is_slot(r.slots, r.place(key, scope), key, scope));
    }
}

/// The checks that a fiber waits for are those of its declarations whose service has
/// a check, is not being taken away, and has an active provider: each of them, and
/// no other.
pub proof fn checks_are_asked_of_active_providers(
    m: SharedModel,
    i: FiberIx,
    n: nat,
    k: int,
    s: int,
)
    requires
        m.wf(),
        m.has(i),
        0 <= k < n <= m.fibers[i as int].declared.len(),
        0 <= s < m.registry.slots.len(),
        m.registry.slots[s].key.identity() == m.fibers[i as int].declared[k].identity(),
        same_scope(
            m.registry.slots[s].scope,
            scope_seen(m.nodes[i as int].ctx, m.fibers[i as int].declared[k]),
        ),
    ensures
        ({
            let b = m.registry.slots[s].binding;
            let key = m.fibers[i as int].declared[k];
            m.in_instance_key(i, key) && b.has_check && !b.removing && b.provider < m.fibers.len()
                && m.fibers[b.provider as int].held && m.fibers[b.provider as int].trans.state
                == FiberState::Active ==> exists|c: int|
                0 <= c < m.checks(i, n).len() && (#[trigger] m.checks(i, n)[c]).key == key
                    && m.checks(i, n)[c].scope == scope_seen(m.nodes[i as int].ctx, key) && m.checks(
                    i,
                    n,
                )[c].binding == b.id
        }),
    decreases n,
{
    let b = m.registry.slots[s].binding;
    let key = m.fibers[i as int].declared[k];
    let all = m.checks(i, n);
    let before = m.checks(i, (n - 1) as nat);
    keys_are_bound_by_their_slot(m.registry, key, scope_seen(m.nodes[i as int].ctx, key), s);
    assert(key == m.fiber(i).declared[k]);
    if m.asks_check(i, key) {
        if k == n - 1 {
            assert(all[before.len() as int].key == key);
        } else {
            checks_are_asked_of_active_providers(m, i, (n - 1) as nat, k, s);
            let c = choose|c: int|
                0 <= c < before.len() && (#[trigger] before[c]).key == key && before[c].scope
                    == scope_seen(m.nodes[i as int].ctx, key) && before[c].binding == b.id;
            assert(all[c] == before[c]);
        }
    }
}

} // verus!
