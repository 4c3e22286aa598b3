//! What belongs to a fiber: its place below its parent, what it waits for, its effects
//! and their cleanups.

use std::sync::Arc;

use crate::ctx::{scope_seen, Ctx};
use crate::effect::{
    child_label, cleanups, cleanups_upto, describes, fresh_record, rephased, Cleanup, Effect, EffectMeta,
    EffectPhase, EffectStage, RecordModel,
};
use crate::endings::waits_for;
use crate::error::CordisError;
use crate::fiber::{FiberIx, FiberModel, FiberState, PluginId, RecordId};
use crate::key::{same_key, InstanceId, TypeKey};
use crate::list::{filter_empty, filter_step, other_than, whole};
use crate::reading::{closing_at, contexts_are_closed_from_above};
use crate::shared::{Node, SharedModel, TaskDone};
use crate::spawn::{newborn, node_below, PluginSpec};
use crate::text::decimal;
use vstd::prelude::*;

verus! {

/// A fiber is born closed exactly if the root, or a fiber above the context, is
/// closing, or the fiber of the context is gone.
pub proof fn fibers_are_born_closed_below_what_closes(m: SharedModel, ctx: Ctx)
    ensures
        m.barren(ctx) <==> m.closing || (exists|n: nat| #[trigger] closing_at(m, ctx, n))
            || ctx.node.fiber >= m.fibers.len() || !m.fibers[ctx.node.fiber as int].held,
{
    contexts_are_closed_from_above(m, ctx);
}

/// A fiber that is born closed is over from the start: it takes no requests, waits for
/// nothing, is nobody's child, and the task of its end says that it was closed.
pub proof fn fibers_born_closed_are_over(m: SharedModel, ctx: Ctx, node: Node, spec: PluginSpec)
    requires
        m.barren(ctx),
        m.tasks.len() < usize::MAX,
        m.fibers.len() < usize::MAX,
    ensures
        ({
            let after = m.born(ctx, node, spec);
            let g = after.fibers.last();
            &&& after.fibers.len() == m.fibers.len() + 1
            &&& forall|j: int| 0 <= j < m.fibers.len() ==> #[trigger] after.fibers[j] == m.fibers[j]
            &&& after.nodes == m.nodes.push(node)
            &&& after.registry == m.registry && after.records == m.records
            &&& after.tasks == m.tasks.push(TaskDone::Done(Some(Arc::new(CordisError::Closed))))
            &&& g.id.0 == m.fibers.len() + 1
            &&& g.trans.state is Disposed
            &&& g.trans.error == Some(Arc::new(CordisError::Closed))
            &&& g.trans.terminal == Some(m.tasks.len() as usize)
            &&& g.trans.generation == 0
            &&& g.closing && !g.alive && g.held
            &&& g.stage is Exited
            &&& g.declared.len() == 0 && g.mailbox.len() == 0 && g.effects.len() == 0
        }),
{
    assert(m.tasks.push(TaskDone::Running).update(
        m.tasks.len() as int,
        TaskDone::Done(Some(Arc::new(CordisError::Closed))),
    ) =~= m.tasks.push(TaskDone::Done(Some(Arc::new(CordisError::Closed)))));
}

proof fn injecting_registers(
    m: SharedModel,
    ix: FiberIx,
    n: nat,
    key: TypeKey,
    j: FiberIx,
)
    requires
        n <= m.fibers[ix as int].declared.len(),
    ensures
        ({
            let after = m.injecting(ix, n);
            &&& after == SharedModel { registry: after.registry, ..m }
            &&& after.registry.slots == m.registry.slots && after.registry.next == m.registry.next
            &&& j != ix ==> (waits_for(after, key, j) <==> waits_for(m, key, j))
            &&& waits_for(after, key, ix) <==> waits_for(m, key, ix) || exists|k: int|
                0 <= k < n && (#[trigger] m.fibers[ix as int].declared[k]).identity()
                    == key.identity() && m.in_instance_key(ix, m.fibers[ix as int].declared[k])
        }),
    decreases n,
{
    let list = m.fibers[ix as int].declared;
    if n > 0 {
        injecting_registers(m, ix, (n - 1) as nat, key, j);
        let before = m.injecting(ix, (n - 1) as nat);
        let after = m.injecting(ix, n);
        let new = list[n - 1];
        instances_go_by_the_tree(m, before, ix, new);
        let old_index = before.registry.index;
        let index = after.registry.index;
        assert forall|i: FiberIx| waits_for(before, key, i) implies #[trigger] waits_for(
            after,
            key,
            i,
        ) by {
            let k = choose|k: int|
                0 <= k < old_index.len() && (#[trigger] old_index[k]).0.identity()
                    == key.identity() && old_index[k].1 == i;
            assert(index[k] == old_index[k]);
        }
        assert forall|i: FiberIx| #[trigger] waits_for(after, key, i) && !waits_for(
            before,
            key,
            i,
        ) implies i == ix && new.identity() == key.identity() && m.in_instance_key(ix, new) by {
            let k = choose|k: int|
                0 <= k < index.len() && (#[trigger] index[k]).0.identity() == key.identity()
                    && index[k].1 == i;
            if k < old_index.len() {
                assert(index[k] == old_index[k]);
            }
        }
        if new.identity() == key.identity() && m.in_instance_key(ix, new) {
            if before.registry.waits(new, ix) {
                let k = choose|k: int|
                    0 <= k < old_index.len() && same_key(
                        (#[trigger] old_index[k]).0,
                        new,
                    ) && old_index[k].1 == ix;
                assert(old_index[k].0.identity() == key.identity());
                assert(waits_for(before, key, ix));
            } else {
                assert(index[old_index.len() as int] == (new, ix));
            }
            assert(waits_for(after, key, ix));
        }
        if exists|k: int|
            0 <= k < n && (#[trigger] list[k]).identity() == key.identity() && m.in_instance_key(
                ix,
                list[k],
            ) {
            let k = choose|k: int|
                0 <= k < n && (#[trigger] list[k]).identity() == key.identity()
                    && m.in_instance_key(ix, list[k]);
            if k < n - 1 {
                assert(waits_for(before, key, ix));
            }
        }
        if waits_for(after, key, ix) && !waits_for(m, key, ix) {
            if waits_for(before, key, ix) {
                let k = choose|k: int|
                    0 <= k < n - 1 && (#[trigger] list[k]).identity() == key.identity()
                        && m.in_instance_key(ix, list[k]);
                assert(0 <= k < n);
            } else {
                assert(list[n - 1].identity() == key.identity());
            }
        }
    }
}

proof fn instances_go_by_the_tree(a: SharedModel, b: SharedModel, i: FiberIx, key: TypeKey)
    requires
        a.fibers == b.fibers,
        a.nodes == b.nodes,
    ensures
        a.in_instance_key(i, key) == b.in_instance_key(i, key),
{
    if let Some(id) = key.identity().instance {
        instances_go_by_the_nodes(a, b, i, id);
    }
}

proof fn instances_go_by_the_nodes(a: SharedModel, b: SharedModel, i: FiberIx, id: InstanceId)
    requires
        a.fibers == b.fibers,
        a.nodes == b.nodes,
    ensures
        a.in_instance(i, id) == b.in_instance(i, id),
    decreases i,
{
    if a.has(i) && a.fiber(i).held {
        if let Some(p) = a.nodes[i as int].parent {
            if p < i {
                instances_go_by_the_nodes(a, b, p, id);
            }
        }
    }
}

/// A new fiber waits for its dependencies, takes requests, and has done nothing yet.
/// It is its parent's last child, and registered as waiting for exactly those of its
/// declarations that it may use. Nobody else changes.
pub proof fn new_fibers_wait_below_their_parent(
    m: SharedModel,
    ctx: Ctx,
    node: Node,
    spec: PluginSpec,
    key: TypeKey,
    j: FiberIx,
)
    requires
        m.wf(),
        m.has(ctx.node.fiber),
        !m.barren(ctx),
        m.fibers.len() < usize::MAX,
        j < m.fibers.len(),
    ensures
        ({
            let after = m.born(ctx, node, spec);
            let ix = m.fibers.len() as usize;
            let p = ctx.node.fiber;
            let g = after.fibers[ix as int];
            &&& after.fibers.len() == m.fibers.len() + 1
            &&& after.nodes == m.nodes.push(node)
            &&& after.tasks == m.tasks && after.records == m.records && after.registry.slots
                == m.registry.slots
            &&& g.id.0 == ix + 1
            &&& g.name == spec.name@ && g.source == spec.source && g.config == spec.config
                && g.declared == spec.injects@
            &&& g.trans.state is Pending && g.trans.generation == 0 && g.trans.error is None
                && g.trans.terminal is None && g.trans.seq == 0 && g.trans.queue.len() == 0
            &&& g.alive && g.held && !g.closing && !g.cancelled && g.flights == 0
            &&& g.stage is Idle && g.mailbox.len() == 0 && g.children.len() == 0
            &&& g.effects.len() == 0 && g.draining.len() == 0 && g.drained.len() == 0
            &&& g.provided.len() == 0 && g.last_deps is None && g.next_deps.len() == 0
            &&& g.accesses.len() == 0 && g.mount is None && g.shutdown_task is None
                && g.shutdown_inner is None && g.held_error is None
            &&& after.fibers[p as int] == (FiberModel {
                children: m.fibers[p as int].children.push(ix),
                ..m.fibers[p as int]
            })
            &&& j != p ==> after.fibers[j as int] == m.fibers[j as int]
            &&& waits_for(after, key, ix) <==> waits_for(m, key, ix) || exists|k: int|
                0 <= k < spec.injects@.len() && (#[trigger] spec.injects@[k]).identity()
                    == key.identity() && after.in_instance_key(ix, spec.injects@[k])
            &&& waits_for(after, key, j) <==> waits_for(m, key, j)
        }),
{
    let ix = m.fibers.len() as usize;
    let p = ctx.node.fiber;
    let placed = m.with_node(
        node,
        newborn(
            PluginId((m.fibers.len() + 1) as u64),
            spec.name@,
            spec.source,
            spec.config,
            spec.injects@,
            FiberState::Pending,
        ),
    ).put(p, FiberModel { children: m.fiber(p).children.push(ix), ..m.fiber(p) });
    let after = m.born(ctx, node, spec);
    assert(placed.fibers[ix as int].declared == spec.injects@);
    injecting_registers(placed, ix, spec.injects@.len(), key, j);
    assert(placed.registry == m.registry);
    assert forall|k: int| 0 <= k < spec.injects@.len() implies placed.in_instance_key(
        ix,
        #[trigger] spec.injects@[k],
    ) == after.in_instance_key(ix, spec.injects@[k]) by {
        instances_go_by_the_tree(placed, after, ix, spec.injects@[k]);
    }
}

/// A new fiber stands below the fiber of the context it was made from, and sees every
/// key in the scope in which that context does.
pub proof fn new_fibers_see_what_their_context_sees(
    node: Node,
    ctx: Ctx,
    ix: FiberIx,
    id: InstanceId,
    key: TypeKey,
)
    requires
        node_below(node, ctx, ix, id),
    ensures
        node.parent == Some(ctx.node.fiber),
        node.instance == id,
        node.ctx.node.fiber == ix,
        node.ctx.node.plugin_id.0 == (ix + 1) as u64,
        node.ctx.node.instance == id,
        node.ctx.node.generation == 0,
        scope_seen(node.ctx, key) == scope_seen(ctx, key),
{
}

/// A child is mounted exactly if nothing above the context and not the child itself is
/// closing, the child takes requests, and the parent could register something.
pub proof fn children_are_mounted_by_open_parents(m: SharedModel, ctx: Ctx, child: FiberIx)
    requires
        m.has(child),
    ensures
        ({
            let c = m.fibers[child as int];
            let above = m.closing || exists|n: nat| #[trigger] closing_at(m, ctx, n);
            &&& m.mount_refusal(ctx, child) is None <==> m.refusal(ctx) is None && !c.closing
                && c.alive
            &&& above || c.closing || !c.alive ==> m.mount_refusal(ctx, child) == Some(
                CordisError::Closed,
            )
            &&& !above && !c.closing && c.alive ==> m.mount_refusal(ctx, child) == m.refusal(ctx)
        }),
{
    contexts_are_closed_from_above(m, ctx);
}

/// A mounted child is known to its parent by an effect, the parent's last, and knows
/// it by the same record.
pub proof fn mounted_children_are_effects(
    m: SharedModel,
    ctx: Ctx,
    child: FiberIx,
    record: RecordModel,
    j: FiberIx,
)
    requires
        m.has(child),
        m.has(ctx.node.fiber),
        child != ctx.node.fiber,
        m.has(j),
        m.records.len() < usize::MAX,
    ensures
        ({
            let after = m.mounting(ctx, child, record);
            let p = ctx.node.fiber;
            let r = m.records.len() as usize;
            &&& after.records == m.records.push(record)
            &&& after.fibers[p as int] == (FiberModel {
                effects: m.fibers[p as int].effects.push(r),
                ..m.fibers[p as int]
            })
            &&& after.fibers[child as int] == (FiberModel {
                mount: Some(r),
                ..m.fibers[child as int]
            })
            &&& j != p && j != child ==> after.fibers[j as int] == m.fibers[j as int]
            &&& after == SharedModel { fibers: after.fibers, records: after.records, ..m }
        }),
{
}

/// An effect that is registered is the fiber's last, under a new record.
pub proof fn effects_are_registered_last(
    m: SharedModel,
    i: FiberIx,
    record: RecordModel,
    j: FiberIx,
)
    requires
        m.has(i),
        m.has(j),
        m.records.len() < usize::MAX,
    ensures
        ({
            let after = m.with_effect(i, record);
            &&& after.records == m.records.push(record)
            &&& after.fibers[i as int] == (FiberModel {
                effects: m.fibers[i as int].effects.push(m.records.len() as usize),
                ..m.fibers[i as int]
            })
            &&& j != i ==> after.fibers[j as int] == m.fibers[j as int]
            &&& after == SharedModel { fibers: after.fibers, records: after.records, ..m }
        }),
{
}

/// A record whose cleanups have run is done, with their error. If its owner still had
/// it among its effects it is taken out there, and the error is kept for the owner's
/// own unloading; otherwise nothing but the record changes.
pub proof fn finished_records_leave_their_owner(
    m: SharedModel,
    r: RecordId,
    error: Option<Arc<CordisError>>,
    other: RecordId,
)
    requires
        r < m.records.len(),
    ensures
        ({
            let after = m.record_done(r, error);
            let o = m.records[r as int].owner;
            let listed = o < m.fibers.len() && m.fibers[o as int].held
                && m.fibers[o as int].effects.contains(r);
            let g = after.fibers[o as int];
            &&& after.records == m.records.update(
                r as int,
                RecordModel { stage: EffectStage::Done(error), ..m.records[r as int] },
            )
            &&& !listed ==> after.fibers == m.fibers
            &&& listed ==> {
                &&& after.fibers.len() == m.fibers.len()
                &&& forall|j: int|
                    0 <= j < m.fibers.len() && j != o ==> #[trigger] after.fibers[j] == m.fibers[j]
                &&& !g.effects.contains(r)
                &&& other != r ==> (g.effects.contains(other)
                    <==> m.fibers[o as int].effects.contains(other))
                &&& error is None ==> g.drained == m.fibers[o as int].drained
                &&& error matches Some(e) ==> g.drained == m.fibers[o as int].drained.push(e)
                &&& g == (FiberModel {
                    effects: g.effects,
                    drained: g.drained,
                    ..m.fibers[o as int]
                })
            }
            &&& after == SharedModel { fibers: after.fibers, records: after.records, ..m }
        }),
{
    broadcast use vstd::seq_lib::group_filter_ensures;

    let o = m.records[r as int].owner;
    if m.has(o) {
        let list = m.fibers[o as int].effects;
        let keep = other_than(r);
        let kept = list.filter(keep);
        if kept.contains(r) {
            let k = choose|k: int| 0 <= k < kept.len() && kept[k] == r;
            assert(keep(kept[k]));
        }
        if kept.contains(other) {
            list.lemma_filter_contains_rev(keep, other);
        }
        if other != r && list.contains(other) {
            let k = choose|k: int| 0 <= k < list.len() && list[k] == other;
            assert(keep(list[k]));
            assert(kept.contains(list[k]));
        }
    }
}

/// A new record holds all cleanups of its effect, none of them taken, describes it
/// under its label, and is its owner's.
pub proof fn new_records_hold_every_cleanup(
    record: RecordModel,
    effect: Effect,
    label: Seq<char>,
    owner: FiberIx,
)
    requires
        fresh_record(record, effect, label, owner),
    ensures
        record.stage == EffectStage::Live(cleanups(effect)),
        record.owner == owner,
        record.meta.label@ == label,
        record.meta.phase is Live,
        describes(record.meta, effect, label),
{
}

/// The records of a fiber that are not done.
pub open spec fn unfinished(m: SharedModel, i: FiberIx) -> spec_fn(RecordId) -> bool {
    |r: RecordId|
        r < m.records.len() && m.records[r as int].owner == i && !(
        m.records[r as int].stage is Done)
}

proof fn listing_is_filtering(
    m: SharedModel,
    i: FiberIx,
    order: Seq<RecordId>,
    n: int,
    list: Seq<EffectMeta>,
)
    requires
        0 <= n <= order.len(),
        m.lists_upto(i, order, n, list),
    ensures
        list.len() == order.subrange(0, n).filter(unfinished(m, i)).len(),
        forall|k: int|
            0 <= k < list.len() ==> m.shown_as(
                order.subrange(0, n).filter(unfinished(m, i))[k],
                #[trigger] list[k],
            ),
    decreases n,
{
    let keep = unfinished(m, i);
    if n == 0 {
        filter_empty(order, keep);
    } else {
        filter_step(order, n - 1, keep);
        if m.shows(i, order[n - 1]) {
            listing_is_filtering(m, i, order, n - 1, list.drop_last());
            let kept = order.subrange(0, n - 1).filter(keep);
            assert forall|k: int| 0 <= k < list.len() implies m.shown_as(
                kept.push(order[n - 1])[k],
                #[trigger] list[k],
            ) by {
                if k < list.len() - 1 {
                    assert(list.drop_last()[k] == list[k]);
                }
            }
        } else {
            listing_is_filtering(m, i, order, n - 1, list);
        }
    }
}

/// The effects of a fiber are listed in the order of their registration, those that
/// are being cleaned up first, each that is the fiber's own and not done: as live while
/// its cleanups have not been taken, and as draining afterwards.
pub proof fn effects_are_listed_in_order(m: SharedModel, i: FiberIx, list: Seq<EffectMeta>)
    requires
        m.has(i),
        m.lists_effects(i, list),
    ensures
        ({
            let f = m.fibers[i as int];
            let ours = (f.draining.reverse() + f.effects).filter(unfinished(m, i));
            &&& list.len() == ours.len()
            &&& forall|k: int|
                0 <= k < list.len() ==> (#[trigger] list[k]).label@
                    == m.records[ours[k] as int].meta.label@ && list[k].children@.len()
                    == m.records[ours[k] as int].meta.children@.len() && (list[k].phase is Live
                    <==> m.records[ours[k] as int].stage is Live)
        }),
{
    let order = m.effect_order(i);
    listing_is_filtering(m, i, order, order.len() as int, list);
    whole(order);
    let ours = order.filter(unfinished(m, i));
    assert forall|k: int| 0 <= k < list.len() implies (#[trigger] list[k]).label@
        == m.records[ours[k] as int].meta.label@ && list[k].children@.len()
        == m.records[ours[k] as int].meta.children@.len() && (list[k].phase is Live
        <==> m.records[ours[k] as int].stage is Live) by {
        assert(m.shown_as(ours[k], list[k]));
    }
}

/// The part of an effect's description that a path of child numbers leads to.
pub open spec fn part(meta: EffectMeta, path: Seq<int>) -> Option<EffectMeta>
    decreases path.len(),
{
    if path.len() == 0 {
        Some(meta)
    } else if 0 <= path[0] < meta.children@.len() {
        part(meta.children@[path[0]], path.drop_first())
    } else {
        None
    }
}

/// A description in another phase has the same parts, with the same labels, and all of
/// them are in that phase.
pub proof fn phases_reach_every_part(
    before: EffectMeta,
    after: EffectMeta,
    phase: EffectPhase,
    path: Seq<int>,
)
    requires
        rephased(before, after, phase),
    ensures
        part(before, path) is Some <==> part(after, path) is Some,
        part(after, path) matches Some(a) ==> a.phase == phase && a.label@ == (part(
            before,
            path,
        )->0).label@,
    decreases path.len(),
{
    if path.len() > 0 && 0 <= path[0] < before.children@.len() {
        assert(rephased(before.children@[path[0]], after.children@[path[0]], phase));
        phases_reach_every_part(
            before.children@[path[0]],
            after.children@[path[0]],
            phase,
            path.drop_first(),
        );
    }
}

/// The parts of an effect are described in order, each by its number and its kind; a
/// plain effect has none.
pub proof fn parts_are_labelled_by_number_and_kind(
    meta: EffectMeta,
    effect: Effect,
    label: Seq<char>,
    i: int,
)
    requires
        describes(meta, effect, label),
    ensures
        meta.label@ == label,
        meta.phase is Live,
        !(effect is Many) ==> meta.children@.len() == 0,
        effect matches Effect::Many(v) ==> meta.children@.len() == v@.len(),
        (effect matches Effect::Many(v) && 0 <= i < v@.len()) ==> {
            let e = (effect->Many_0)@[i];
            let l = meta.children@[i].label@;
            &&& e is Done ==> l == decimal(i as nat) + ": "@ + "done"@
            &&& e is Disposer ==> l == decimal(i as nat) + ": "@ + "disposer"@
            &&& e is AsyncDisposer ==> l == decimal(i as nat) + ": "@
                + "async disposer"@
            &&& e is Many ==> l == decimal(i as nat) + ": "@ + "many"@
            &&& describes(meta.children@[i], e, l)
        },
{
    if let Effect::Many(v) = effect {
        if 0 <= i < v@.len() {
            assert(describes(meta.children@[i], v@[i], child_label(i as nat, v@[i])));
        }
    }
}

proof fn cleanups_of_a_part(a: Seq<Effect>, b: Seq<Effect>, n: nat)
    requires
        n <= a.len(),
        n <= b.len(),
        forall|k: int| 0 <= k < n ==> a[k] == b[k],
    ensures
        cleanups_upto(a, n) == cleanups_upto(b, n),
    decreases n,
{
    if n > 0 {
        cleanups_of_a_part(a, b, (n - 1) as nat);
    }
}

proof fn cleanups_behind_a_part(a: Seq<Effect>, b: Seq<Effect>, n: nat)
    requires
        n <= b.len(),
    ensures
        cleanups_upto(a + b, a.len() + n) == cleanups_upto(a, a.len()) + cleanups_upto(b, n),
    decreases n,
{
    if n == 0 {
        cleanups_of_a_part(a + b, a, a.len());
        assert(cleanups_upto(a, a.len()) + cleanups_upto(b, 0) =~= cleanups_upto(a, a.len()));
    } else {
        cleanups_behind_a_part(a, b, (n - 1) as nat);
        assert((a + b)[a.len() + n - 1] == b[n - 1]);
        assert(cleanups_upto(a, a.len()) + (cleanups_upto(b, (n - 1) as nat) + cleanups(b[n - 1]))
            =~= (cleanups_upto(a, a.len()) + cleanups_upto(b, (n - 1) as nat)) + cleanups(
            b[n - 1],
        ));
    }
}

/// Nothing is cleaned up for an effect that is done, one thing for a disposer, at once
/// or awaited as the disposer says; several effects have the cleanups of the first
/// ones, and then those of the rest.
pub proof fn cleanups_add_up(effect: Effect, first: Seq<Effect>, rest: Seq<Effect>)
    ensures
        effect is Done ==> cleanups(effect).len() == 0,
        effect matches Effect::Disposer(c) ==> cleanups(effect) == seq![Cleanup::Sync(c)],
        effect matches Effect::AsyncDisposer(c) ==> cleanups(effect) == seq![Cleanup::Async(c)],
        effect matches Effect::Many(v) && v@ == first + rest ==> cleanups(effect) == cleanups_upto(
            first,
            first.len(),
        ) + cleanups_upto(rest, rest.len()),
        cleanups_upto(seq![effect], 1) == cleanups(effect),
        cleanups_upto(Seq::empty(), 0).len() == 0,
{
    cleanups_behind_a_part(first, rest, rest.len());
    assert(seq![effect][0] == effect);
    reveal_with_fuel(cleanups_upto, 2);
    assert(Seq::<Cleanup>::empty() + cleanups(effect) =~= cleanups(effect));
}

} // verus!
