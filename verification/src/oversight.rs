//! What is told of the runtime: the survey of its fibers, the account of reads, and
//! the subtrees that a shutdown reaches.

use std::any::TypeId;

use crate::ctx::{scope_seen, Ctx};
use crate::diagnostics::{RuntimeDiagnostics, ServiceAccess};
use crate::error::{CallSite, ServiceReadError, ServiceReadFailure};
use crate::fiber::{FiberIx, FiberModel, Intent, TaskId, TransModel};
use crate::gating::keys_are_bound_by_their_slot;
use crate::key::{same_key, same_scope, ScopeId, TypeKey};
use crate::reading::asks_for;
use crate::reads::{has_access, same_access, ReadGrant, ReadVerdict};
use crate::registry::Binding;
use crate::shared::{SharedModel, TaskDone};
use crate::subtree::ShutdownPlan;
use vstd::prelude::*;

verus! {

/// A way down: each fiber is a child of the one before, younger, and still there.
pub open spec fn descends(m: SharedModel, way: Seq<FiberIx>) -> bool {
    &&& way.len() > 0
    &&& way[0] < m.fibers.len()
    &&& forall|k: int, l: int|
        #![trigger way[k], way[l]]
        0 <= k < way.len() && l == k + 1 && l < way.len() ==> m.fibers[way[k] as int].children.contains(
            way[l],
        ) && way[l] > way[k] && way[l] < m.fibers.len() && m.fibers[way[l] as int].held
}

pub open spec fn descends_to(m: SharedModel, way: Seq<FiberIx>, from: FiberIx, to: FiberIx) -> bool {
    descends(m, way) && way[0] == from && way.last() == to
}

/// The child, the one after `k` others, that the survey goes into.
pub open spec fn surveyed_child(m: SharedModel, j: FiberIx, k: int) -> bool {
    let c = m.fibers[j as int].children[k];
    0 <= k < m.fibers[j as int].children.len() && c > j && c < m.fibers.len()
        && m.fibers[c as int].held
}

proof fn order_below_goes_into_children(m: SharedModel, j: FiberIx, n: nat, x: FiberIx)
    requires
        m.has(j),
        n <= m.fibers[j as int].children.len(),
        m.order_below(j, n).contains(x),
    ensures
        exists|k: int|
            0 <= k < n && #[trigger] surveyed_child(m, j, k) && m.order(
                m.fibers[j as int].children[k],
            ).contains(x),
    decreases n,
{
    let c = m.fiber(j).children[n - 1];
    let rest = m.order_below(j, (n - 1) as nat);
    let at = choose|at: int| 0 <= at < m.order_below(j, n).len() && m.order_below(j, n)[at] == x;
    if c > j && m.has(c) && m.fiber(c).held && at < m.order(c).len() {
        assert(m.order(c)[at] == x);
        assert(surveyed_child(m, j, n - 1));
    } else {
        if c > j && m.has(c) && m.fiber(c).held {
            assert(rest[at - m.order(c).len()] == x);
        } else {
            assert(rest[at] == x);
        }
        order_below_goes_into_children(m, j, (n - 1) as nat, x);
    }
}

proof fn children_stand_in_the_order(m: SharedModel, j: FiberIx, n: nat, k: int) -> (at: int)
    requires
        m.has(j),
        0 <= k < n <= m.fibers[j as int].children.len(),
        surveyed_child(m, j, k),
    ensures
        ({
            let inner = m.order(m.fibers[j as int].children[k]);
            &&& 0 <= at
            &&& at + inner.len() <= m.order_below(j, n).len()
            &&& m.order_below(j, n).subrange(at, at + inner.len()) == inner
        }),
    decreases n,
{
    let c = m.fiber(j).children[n - 1];
    let inner = m.order(m.fibers[j as int].children[k]);
    let rest = m.order_below(j, (n - 1) as nat);
    if k == n - 1 {
        assert(m.order_below(j, n).subrange(0, inner.len() as int) =~= inner);
        0
    } else {
        let before = children_stand_in_the_order(m, j, (n - 1) as nat, k);
        if c > j && m.has(c) && m.fiber(c).held {
            let at = m.order(c).len() + before;
            assert(m.order_below(j, n).subrange(at, at + inner.len()) =~= rest.subrange(
                before,
                before + inner.len(),
            ));
            at
        } else {
            before
        }
    }
}

proof fn order_follows_ways(m: SharedModel, way: Seq<FiberIx>)
    requires
        descends(m, way),
    ensures
        m.order(way[0]).contains(way.last()),
    decreases way.len(),
{
    let j = way[0];
    if way.len() == 1 {
        assert(m.order(j)[0] == j);
    } else {
        let c = way[1];
        let tail = way.drop_first();
        assert forall|k: int, l: int|
            #![trigger tail[k], tail[l]]
            0 <= k < tail.len() && l == k + 1 && l < tail.len() implies m.fibers[tail[k] as int].children.contains(
            tail[l],
        ) && tail[l] > tail[k] && tail[l] < m.fibers.len() && m.fibers[tail[l] as int].held by {
            assert(tail[k] == way[k + 1]);
            assert(tail[l] == way[l + 1]);
        }
        order_follows_ways(m, tail);
        assert(m.fibers[way[0] as int].children.contains(way[1]));
        let list = m.fibers[j as int].children;
        let k = choose|k: int| 0 <= k < list.len() && list[k] == c;
        assert(surveyed_child(m, j, k));
        let at = children_stand_in_the_order(m, j, list.len(), k);
        let inner = m.order(c);
        let l = choose|l: int| 0 <= l < inner.len() && inner[l] == way.last();
        assert(m.order_below(j, list.len()).subrange(at, at + inner.len())[l] == way.last());
        assert(m.order(j)[1 + at + l] == way.last());
    }
}

proof fn ways_lead_through_the_order(m: SharedModel, j: FiberIx, x: FiberIx)
    requires
        m.has(j),
        m.order(j).contains(x),
    ensures
        exists|way: Seq<FiberIx>| #[trigger] descends_to(m, way, j, x),
    decreases m.fibers.len() - j,
{
    let list = m.fibers[j as int].children;
    let at = choose|at: int| 0 <= at < m.order(j).len() && m.order(j)[at] == x;
    if at == 0 {
        assert(descends_to(m, seq![j], j, x));
    } else {
        assert(m.order_below(j, list.len())[at - 1] == x);
        order_below_goes_into_children(m, j, list.len(), x);
        let k = choose|k: int|
            0 <= k < list.len() && #[trigger] surveyed_child(m, j, k) && m.order(list[k]).contains(x);
        let c = list[k];
        ways_lead_through_the_order(m, c, x);
        let tail = choose|way: Seq<FiberIx>| #[trigger] descends_to(m, way, c, x);
        let way = seq![j] + tail;
        assert(list.contains(c));
        assert forall|a: int, b: int|
            #![trigger way[a], way[b]]
            0 <= a < way.len() && b == a + 1 && b < way.len() implies m.fibers[way[a] as int].children.contains(
            way[b],
        ) && way[b] > way[a] && way[b] < m.fibers.len() && m.fibers[way[b] as int].held by {
            assert(way[b] == tail[b - 1]);
            if a > 0 {
                assert(way[a] == tail[a - 1]);
            }
        }
        assert(descends_to(m, way, j, x));
    }
}

/// The survey of a subtree begins with its top and holds exactly those fibers that a
/// way down from it leads to.
pub proof fn surveys_hold_every_fiber_below(m: SharedModel, j: FiberIx, x: FiberIx)
    requires
        m.has(j),
    ensures
        m.order(j).len() > 0,
        m.order(j)[0] == j,
        m.order(j).contains(x) <==> exists|way: Seq<FiberIx>| #[trigger] descends_to(m, way, j, x),
{
    if m.order(j).contains(x) {
        ways_lead_through_the_order(m, j, x);
    }
    if exists|way: Seq<FiberIx>| #[trigger] descends_to(m, way, j, x) {
        let way = choose|way: Seq<FiberIx>| #[trigger] descends_to(m, way, j, x);
        order_follows_ways(m, way);
    }
}

/// The list holds the other in one piece, from the place on.
pub open spec fn stands_at(list: Seq<FiberIx>, inner: Seq<FiberIx>, at: int) -> bool {
    0 <= at && at + inner.len() <= list.len() && list.subrange(at, at + inner.len()) == inner
}

proof fn later_children_stand_first(m: SharedModel, j: FiberIx, n: nat, a: int, b: int)
    requires
        m.has(j),
        0 <= a < b < n <= m.fibers[j as int].children.len(),
        surveyed_child(m, j, a),
        surveyed_child(m, j, b),
    ensures
        exists|p: int, q: int|
            #![trigger stands_at(m.order_below(j, n), m.order(m.fibers[j as int].children[b]), p),
                stands_at(m.order_below(j, n), m.order(m.fibers[j as int].children[a]), q)]
            stands_at(m.order_below(j, n), m.order(m.fibers[j as int].children[b]), p)
                && stands_at(m.order_below(j, n), m.order(m.fibers[j as int].children[a]), q) && p
                + m.order(m.fibers[j as int].children[b]).len() <= q,
    decreases n,
{
    let list = m.fibers[j as int].children;
    let c = m.fiber(j).children[n - 1];
    let rest = m.order_below(j, (n - 1) as nat);
    let all = m.order_below(j, n);
    let first = m.order(list[b]);
    let second = m.order(list[a]);
    if b == n - 1 {
        let at = children_stand_in_the_order(m, j, (n - 1) as nat, a);
        let q = first.len() + at;
        assert(all.subrange(0, first.len() as int) =~= first);
        assert(all.subrange(q, q + second.len()) =~= rest.subrange(at, at + second.len()));
        assert(stands_at(all, first, 0) && stands_at(all, second, q));
    } else {
        later_children_stand_first(m, j, (n - 1) as nat, a, b);
        let (p, q) = choose|p: int, q: int|
            #![trigger stands_at(rest, first, p), stands_at(rest, second, q)]
            stands_at(rest, first, p) && stands_at(rest, second, q) && p + first.len() <= q;
        let shift = if c > j && m.has(c) && m.fiber(c).held {
            m.order(c).len() as int
        } else {
            0int
        };
        assert(all.subrange(shift + p, shift + p + first.len()) =~= rest.subrange(
            p,
            p + first.len(),
        ));
        assert(all.subrange(shift + q, shift + q + second.len()) =~= rest.subrange(
            q,
            q + second.len(),
        ));
        assert(stands_at(all, first, shift + p) && stands_at(all, second, shift + q));
    }
}

/// Below a fiber the survey goes into the children one after the other, the last one
/// first, and holds each one's own survey in one piece.
pub proof fn surveys_go_into_the_last_child_first(m: SharedModel, j: FiberIx, a: int, b: int)
    requires
        m.has(j),
        0 <= a < b < m.fibers[j as int].children.len(),
        surveyed_child(m, j, a),
        surveyed_child(m, j, b),
    ensures
        exists|p: int, q: int|
            #![trigger stands_at(m.order(j), m.order(m.fibers[j as int].children[b]), p),
                stands_at(m.order(j), m.order(m.fibers[j as int].children[a]), q)]
            stands_at(m.order(j), m.order(m.fibers[j as int].children[b]), p) && stands_at(
                m.order(j),
                m.order(m.fibers[j as int].children[a]),
                q,
            ) && p + m.order(m.fibers[j as int].children[b]).len() <= q,
{
    let list = m.fibers[j as int].children;
    let first = m.order(list[b]);
    let second = m.order(list[a]);
    let rest = m.order_below(j, list.len());
    later_children_stand_first(m, j, list.len(), a, b);
    let (p, q) = choose|p: int, q: int|
        #![trigger stands_at(rest, first, p), stands_at(rest, second, q)]
        stands_at(rest, first, p) && stands_at(rest, second, q) && p + first.len() <= q;
    let all = m.order(j);
    assert(all.subrange(1 + p, 1 + p + first.len()) =~= rest.subrange(p, p + first.len()));
    assert(all.subrange(1 + q, 1 + q + second.len()) =~= rest.subrange(q, q + second.len()));
    assert(stands_at(all, first, 1 + p) && stands_at(all, second, 1 + q));
}

/// A survey tells of each fiber that it comes to, in its order, what the fiber is and
/// where it stands, what it asks for and in which scope, and what it has; and of every
/// binding, whose it is.
pub proof fn surveys_tell_each_fiber_as_it_is(
    m: SharedModel,
    out: RuntimeDiagnostics,
    k: int,
    n: int,
    s: int,
)
    requires
        m.wf(),
        m.is_survey(out),
    ensures
        out.shutting_down == m.closing,
        !m.fibers[0].held ==> out.plugins@.len() == 0,
        m.fibers[0].held ==> out.plugins@.len() == m.order(0).len(),
        m.fibers[0].held && 0 <= k < m.order(0).len() ==> {
            let j = m.order(0)[k];
            let f = m.fibers[j as int];
            let d = out.plugins@[k];
            &&& d.id == f.id
            &&& d.instance == m.nodes[j as int].instance
            &&& d.name@ == f.name
            &&& d.state == f.trans.state
            &&& d.generation == f.trans.generation
            &&& d.error == f.trans.error
            &&& d.accesses@ == f.accesses
            &&& d.injects@.len() == f.declared.len()
            &&& 0 <= n < f.declared.len() ==> d.injects@[n].key == f.declared[n]
                && d.injects@[n].scope == scope_seen(m.nodes[j as int].ctx, f.declared[n])
                && d.injects@[n].status == m.dependency(j, f.declared[n])
            &&& f.last_deps is None ==> d.resolved_dependencies@.len() == 0
            &&& f.last_deps matches Some(deps) ==> d.resolved_dependencies@.len() == deps.len() && (
            0 <= n < deps.len() ==> d.resolved_dependencies@[n].key == deps[n].key
                && d.resolved_dependencies@[n].scope == deps[n].scope
                && d.resolved_dependencies@[n].provider == deps[n].provider
                && d.resolved_dependencies@[n].generation == deps[n].generation)
            &&& m.nodes[j as int].parent is None ==> d.parent is None
            &&& m.nodes[j as int].parent matches Some(p) ==> (d.parent == (
            if p < m.fibers.len() && m.fibers[p as int].held {
                Some(m.fibers[p as int].id)
            } else {
                None
            }))
        },
        out.bindings@.len() == m.registry.slots.len(),
        0 <= s < m.registry.slots.len() ==> {
            let slot = m.registry.slots[s];
            let d = out.bindings@[s];
            &&& d.key == slot.key && d.scope == slot.scope
            &&& d.provider == slot.binding.provider_id
            &&& d.generation == slot.binding.provider_gen
            &&& d.removing == slot.binding.removing
        },
{
    if m.fibers[0].held && 0 <= k < m.order(0).len() {
        assert(m.surveyed(m.order(0)[k], out.plugins@[k]));
    }
}

/// Two entries of the account are the same exactly if they say the same in every
/// respect.
pub proof fn reads_are_compared_in_every_respect(a: ServiceAccess, b: ServiceAccess)
    ensures
        same_access(a, b) <==> a.key.identity() == b.key.identity() && same_scope(a.scope, b.scope)
            && a.provider == b.provider && a.generation == b.generation && a.declared == b.declared
            && a.external == b.external && a.out_of_scope == b.out_of_scope && a.strict == b.strict
            && a.failure == b.failure,
{
}

/// A refused read is answered with the key, the reader, where it was made and why, and
/// entered in the reader's account. A granted one gives the value and leaves no trace
/// until the interceptors have passed it.
pub proof fn refused_reads_are_entered(
    m: SharedModel,
    ctx: Ctx,
    key: TypeKey,
    wanted: TypeId,
    location: CallSite,
    result: Result<ReadGrant, ServiceReadError>,
    after: SharedModel,
)
    requires
        m.has(ctx.node.fiber),
        m.read_strictly(ctx, key, wanted, location, result, after),
    ensures
        ({
            let v = m.verdict(ctx, key, wanted);
            &&& v matches ReadVerdict::Granted { value, found, declared } ==> after == m && (
            result matches Ok(grant) && grant.value == value && grant.found == found
                && grant.declared == declared)
            &&& v matches ReadVerdict::Refused { reason, found, declared } ==> {
                &&& result matches Err(e)
                &&& e.key == key && e.plugin_id == ctx.node.plugin_id && e.instance
                    == ctx.node.instance && e.location == location && e.reason == reason
                &&& m.fibers[ctx.node.fiber as int].held ==> has_access(
                    after.fibers[ctx.node.fiber as int].accesses,
                    ServiceAccess {
                        key,
                        scope: scope_seen(ctx, key),
                        provider: if found is Some {
                            Some((found->0).0)
                        } else {
                            None
                        },
                        generation: if found is Some {
                            Some((found->0).1)
                        } else {
                            None
                        },
                        declared,
                        external: found is Some && (found->0).2,
                        out_of_scope: reason == ServiceReadFailure::OutOfScope,
                        strict: true,
                        failure: Some(reason),
                    },
                )
            }
        }),
{
    if let ReadVerdict::Refused { reason, found, declared } = m.verdict(ctx, key, wanted) {
        if m.fibers[ctx.node.fiber as int].held {
            let list = after.fibers[ctx.node.fiber as int].accesses;
            let before = m.fibers[ctx.node.fiber as int].accesses;
            if list.len() > before.len() {
                assert(same_access(list[before.len() as int], list[before.len() as int]));
            }
        }
    }
}

/// While a fiber is being assembled its optional reads are entered in its account: as
/// declared if the fiber itself declares the key, as out of scope if it may not use it,
/// and with the provider and its generation if there is one to see. At other times
/// they leave no trace.
pub proof fn reads_while_assembling_are_entered(m: SharedModel, ctx: Ctx, key: TypeKey, s: int)
    requires
        m.wf(),
        m.has(ctx.node.fiber),
        0 <= s < m.registry.slots.len(),
        m.registry.slots[s].key.identity() == key.identity(),
        same_scope(m.registry.slots[s].scope, scope_seen(ctx, key)),
    ensures
        ({
            let after = m.located_from(ctx, key);
            let f = m.fibers[ctx.node.fiber as int];
            let b = m.registry.slots[s].binding;
            let inside = m.in_instance_key(ctx.node.fiber, key);
            let seen = inside && b.provider < m.fibers.len() && m.fibers[b.provider as int].held;
            &&& !f.held || !(f.trans.state is Loading) ==> after == m
            &&& f.held && f.trans.state is Loading ==> has_access(
                after.fibers[ctx.node.fiber as int].accesses,
                ServiceAccess {
                    key,
                    scope: scope_seen(ctx, key),
                    provider: if seen {
                        Some(b.provider_id)
                    } else {
                        None
                    },
                    generation: if seen {
                        Some(b.provider_gen)
                    } else {
                        None
                    },
                    declared: asks_for(f, key),
                    external: seen && !m.within(ctx.node.fiber, b.provider),
                    out_of_scope: !inside,
                    strict: false,
                    failure: None,
                },
            )
        }),
{
    let f = m.fibers[ctx.node.fiber as int];
    keys_are_bound_by_their_slot(m.registry, key, scope_seen(ctx, key), s);
    assert(m.declares(ctx.node.fiber, key) == asks_for(f, key)) by {
        let i = ctx.node.fiber;
        if m.declares(i, key) {
            let k = choose|k: int|
                0 <= k < m.fiber(i).declared.len() && same_key(
                    #[trigger] m.fiber(i).declared[k],
                    key,
                );
            assert(f.declared[k].identity() == key.identity());
        }
        if asks_for(f, key) {
            let k = choose|k: int|
                0 <= k < f.declared.len() && (#[trigger] f.declared[k]).identity()
                    == key.identity();
            assert(same_key(m.fiber(i).declared[k], key));
        }
    }
    let list = m.located_from(ctx, key).fibers[ctx.node.fiber as int].accesses;
    if list.len() > f.accesses.len() {
        assert(same_access(list[f.accesses.len() as int], list[f.accesses.len() as int]));
    }
}

/// A way up a subtree: each fiber but the last is still there and a listed child of the
/// next, its parent.
pub open spec fn rises(m: SharedModel, way: Seq<FiberIx>) -> bool {
    &&& way.len() > 0
    &&& way.last() < m.fibers.len()
    &&& forall|k: int, l: int|
        #![trigger way[k], way[l]]
        0 <= k < way.len() && l == k + 1 && l < way.len() ==> way[k] < m.fibers.len()
            && m.fibers[way[k] as int].held && m.nodes[way[k] as int].parent == Some(way[l])
            && m.fibers[way[l] as int].children.contains(way[k])
}

pub open spec fn rises_to(m: SharedModel, way: Seq<FiberIx>, from: FiberIx, to: FiberIx) -> bool {
    rises(m, way) && way[0] == from && way.last() == to
}

proof fn trees_have_ways(m: SharedModel, top: FiberIx, j: FiberIx)
    requires
        m.in_tree(top, j),
    ensures
        exists|way: Seq<FiberIx>| #[trigger] rises_to(m, way, j, top),
    decreases j,
{
    if j == top {
        assert(rises_to(m, seq![j], j, top));
    } else {
        let p = m.nodes[j as int].parent->0;
        trees_have_ways(m, top, p);
        let above = choose|way: Seq<FiberIx>| #[trigger] rises_to(m, way, p, top);
        let way = seq![j] + above;
        assert forall|k: int, l: int|
            #![trigger way[k], way[l]]
            0 <= k < way.len() && l == k + 1 && l < way.len() implies way[k] < m.fibers.len()
            && m.fibers[way[k] as int].held && m.nodes[way[k] as int].parent == Some(way[l])
            && m.fibers[way[l] as int].children.contains(way[k]) by {
            assert(way[l] == above[l - 1]);
            if k > 0 {
                assert(way[k] == above[k - 1]);
            }
        }
        assert(rises_to(m, way, j, top));
    }
}

proof fn ways_stay_in_the_tree(m: SharedModel, top: FiberIx, way: Seq<FiberIx>)
    requires
        m.wf(),
        rises(m, way),
        way.last() == top,
    ensures
        m.in_tree(top, way[0]),
    decreases way.len(),
{
    if way.len() > 1 {
        let above = way.drop_first();
        assert forall|k: int, l: int|
            #![trigger above[k], above[l]]
            0 <= k < above.len() && l == k + 1 && l < above.len() implies above[k] < m.fibers.len()
            && m.fibers[above[k] as int].held && m.nodes[above[k] as int].parent == Some(above[l])
            && m.fibers[above[l] as int].children.contains(above[k]) by {
            assert(above[k] == way[k + 1]);
            assert(above[l] == way[l + 1]);
        }
        ways_stay_in_the_tree(m, top, above);
        let j = way[0];
        let p = way[1];
        assert(m.nodes[j as int].parent == Some(p));
        assert(j > 0);
        assert(p < j);
    }
}

/// A shutdown reaches exactly the fibers from which a way up leads to its top.
pub proof fn subtrees_are_reached_over_children(m: SharedModel, top: FiberIx, j: FiberIx)
    requires
        m.wf(),
        m.has(top),
    ensures
        m.in_tree(top, j) <==> exists|way: Seq<FiberIx>| #[trigger] rises_to(m, way, j, top),
{
    if m.in_tree(top, j) {
        trees_have_ways(m, top, j);
    }
    if exists|way: Seq<FiberIx>| #[trigger] rises_to(m, way, j, top) {
        let way = choose|way: Seq<FiberIx>| #[trigger] rises_to(m, way, j, top);
        ways_stay_in_the_tree(m, top, way);
    }
}

/// A fiber whose shutdown begins gets the task that everybody waits for. If its end was
/// asked for before, the shutdown waits for that one; otherwise it gets a task for its
/// own end and is asked to shut down, or is over at once if it takes no requests.
pub proof fn shutdowns_begin_with_their_tasks(m: SharedModel, j: FiberIx, i: FiberIx)
    requires
        m.has(j),
        m.has(i),
        m.tasks.len() + 2 <= usize::MAX,
    ensures
        ({
            let after = m.begun_one(j);
            let f = m.fibers[j as int];
            let g = after.fibers[j as int];
            let public = m.tasks.len() as usize;
            let inner = (m.tasks.len() + 1) as usize;
            &&& i != j ==> after.fibers[i as int] == m.fibers[i as int]
            &&& g.shutdown_task == Some(public)
            &&& after.tasks[public as int] == TaskDone::Running
            &&& forall|t: int| 0 <= t < m.tasks.len() ==> #[trigger] after.tasks[t] == m.tasks[t]
            &&& f.trans.terminal matches Some(t) ==> g == (FiberModel {
                shutdown_task: Some(public),
                shutdown_inner: Some(t),
                ..f
            }) && after.tasks.len() == m.tasks.len() + 1
            &&& f.trans.terminal is None ==> {
                &&& after.tasks.len() == m.tasks.len() + 2
                &&& g.shutdown_inner == Some(inner)
                &&& g.trans == (TransModel { terminal: Some(inner), ..f.trans })
                &&& f.alive ==> g.mailbox == f.mailbox.push(Intent::Shutdown(inner))
                    && after.tasks[inner as int] == TaskDone::Running
                &&& !f.alive ==> g.mailbox == f.mailbox && after.tasks[inner as int] is Done
                &&& !f.alive && f.trans.error is Some ==> after.tasks[inner as int]
                    == TaskDone::Done(f.trans.error)
                &&& g == (FiberModel {
                    shutdown_task: g.shutdown_task,
                    shutdown_inner: g.shutdown_inner,
                    trans: g.trans,
                    mailbox: g.mailbox,
                    ..f
                })
            }
        }),
{
}

/// A plan is that of its fiber's shutdown: it completes the task that everybody waits
/// for, after that of the fiber's own end and those of the children.
pub proof fn plans_are_those_of_their_fiber(m: SharedModel, plan: ShutdownPlan)
    ensures
        m.planned(plan) <==> plan.fiber < m.fibers.len() && m.fibers[plan.fiber as int].shutdown_task
            == Some(plan.public) && m.fibers[plan.fiber as int].shutdown_inner == Some(plan.inner)
            && plan.children@ == m.child_tasks(
            plan.fiber,
            m.fibers[plan.fiber as int].children.len(),
        ),
{
}

/// A shutdown waits, of the fibers below, for its children's shutdowns only, and only
/// for those of children that are still there.
pub proof fn shutdowns_wait_for_children_only(m: SharedModel, j: FiberIx, n: nat, task: TaskId)
    requires
        n <= m.fibers[j as int].children.len(),
        m.child_tasks(j, n).contains(task),
    ensures
        exists|k: int|
            0 <= k < n && {
                let c = #[trigger] m.fibers[j as int].children[k];
                c < m.fibers.len() && m.fibers[c as int].held && m.fibers[c as int].shutdown_task
                    == Some(task)
            },
    decreases n,
{
    let list = m.child_tasks(j, n);
    let before = m.child_tasks(j, (n - 1) as nat);
    let at = choose|at: int| 0 <= at < list.len() && list[at] == task;
    let c = m.fibers[j as int].children[n - 1];
    if at < before.len() {
        assert(before[at] == task);
        shutdowns_wait_for_children_only(m, j, (n - 1) as nat, task);
    } else {
        assert(m.fibers[c as int].shutdown_task == Some(task));
    }
}

/// What the feed tells of a binding: its key and scope, and its provider with its
/// instance and generation; and of a fiber, its parent.
pub proof fn changes_name_the_provider(
    m: SharedModel,
    key: TypeKey,
    scope: Option<ScopeId>,
    b: Binding,
    i: FiberIx,
)
    requires
        m.wf(),
        m.has(i),
        m.has(b.provider),
    ensures
        ({
            let change = m.change_of(key, scope, b);
            &&& change.key == key && change.scope == scope
            &&& change.provider == b.provider_id
            &&& change.instance == m.nodes[b.provider as int].instance
            &&& change.generation == b.provider_gen
        }),
        i == 0 <==> m.parent_id(i) is None,
        m.nodes[i as int].parent matches Some(p) ==> (m.parent_id(i) matches Some(id) && id.0 == p
            + 1),
{
    if i > 0 {
        assert(m.nodes[i as int].parent is Some);
        let p = m.nodes[i as int].parent->0;
        assert(m.placed(m.nodes[p as int], p as int));
    }
}

} // verus!
