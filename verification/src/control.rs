//! What requests do to a fiber, and how the driver handles them.

use std::sync::Arc;

use crate::ctx::scope_seen;
use crate::effect::RecordModel;
use crate::error::CordisError;
use crate::fiber::{
    has_dep, same_dep, AfterDrain, Dep, FiberIx, FiberModel, FiberState, FiberStatusChanged, Intent,
    Stage, TaskId, TransModel,
};
use crate::gating::{
    all_served, dependencies_are_compared_as_sets,
    dependencies_are_ready_when_their_provider_is_active, fibers_are_ready_when_all_is_served,
    keys_are_bound_by_their_slot, listed, serves,
};
use crate::key::TypeKey;
use crate::registry::Slot;
use crate::shared::{SharedModel, TaskDone};
use vstd::prelude::*;

verus! {

/// A restart is refused only where the root or the fiber is closing, or where a fiber
/// other than the root has been asked to end or has lost its driver. In every other
/// case it is accepted, whatever the fiber's state, stage, dependencies or errors.
pub proof fn restarts_are_refused_only_at_the_end(m: SharedModel, i: FiberIx)
    requires
        m.has(i),
    ensures
        ({
            let f = m.fibers[i as int];
            let closing = m.closing || f.closing;
            let ending = i != 0 && (f.trans.terminal is Some || !f.alive);
            let r = m.restart_refusal(i);
            &&& !closing && !ending ==> r is None
            &&& closing ==> r == Some(CordisError::Closed)
            &&& !closing && ending ==> r == Some(CordisError::InactiveEffect)
        }),
{
}

/// Whether a restart is accepted does not depend on the fiber's state, generation or
/// error, nor on what its driver is doing or has in its mailbox.
pub proof fn restarts_are_accepted_in_every_state(
    m: SharedModel,
    i: FiberIx,
    state: FiberState,
    generation: u64,
    error: Option<Arc<CordisError>>,
    stage: Stage,
    mailbox: Seq<Intent>,
)
    requires
        m.has(i),
    ensures
        ({
            let f = m.fibers[i as int];
            let g = FiberModel {
                trans: TransModel { state, generation, error, ..f.trans },
                stage,
                mailbox,
                ..f
            };
            SharedModel { fibers: m.fibers.update(i as int, g), ..m }.restart_refusal(i)
                == m.restart_refusal(i)
        }),
{
}

/// The task that a request completes.
pub proof fn requests_name_their_task(task: TaskId)
    ensures
        Intent::RefreshDepsJoin(task).joined() == Some(task),
        Intent::Settle(task).joined() == Some(task),
        Intent::Restart(task).joined() == Some(task),
        Intent::Shutdown(task).joined() == Some(task),
        Intent::RefreshDeps.joined() is None,
        Intent::Dispose.joined() is None,
{
}

/// A task that ends tells its error to everybody who waits for it; no other task, and
/// nothing else, changes.
pub proof fn tasks_end_with_what_they_are_told(
    m: SharedModel,
    task: TaskId,
    error: Option<Arc<CordisError>>,
)
    ensures
        ({
            let after = m.completed(task, error);
            &&& after.tasks.len() == m.tasks.len()
            &&& task < m.tasks.len() ==> after.tasks[task as int] == TaskDone::Done(error)
            &&& forall|t: int|
                0 <= t < m.tasks.len() && t != task ==> #[trigger] after.tasks[t] == m.tasks[t]
            &&& after == SharedModel { tasks: after.tasks, ..m }
            &&& m.completed_opt(Some(task), error) == after
            &&& m.completed_opt(None, error) == m
        }),
{
}

/// A request goes to the end of the mailbox of a fiber whose driver takes requests, and
/// changes nothing else. Otherwise its task, if it has one, ends at once: with the
/// fiber's error, and without one as closed if the root is closing.
pub proof fn requests_are_mailed_or_answered(m: SharedModel, i: FiberIx, intent: Intent, j: FiberIx)
    requires
        m.has(i),
        m.has(j),
    ensures
        ({
            let after = m.posted(i, intent);
            let f = m.fibers[i as int];
            &&& f.alive ==> after.fibers[i as int] == (FiberModel {
                mailbox: f.mailbox.push(intent),
                ..f
            }) && after.tasks == m.tasks
            &&& !f.alive ==> after.fibers == m.fibers
            &&& j != i ==> after.fibers[j as int] == m.fibers[j as int]
            &&& after.fibers.len() == m.fibers.len()
            &&& after == SharedModel { fibers: after.fibers, tasks: after.tasks, ..m }
            &&& !f.alive && intent.joined() is None ==> after == m
            &&& !f.alive && (intent.joined() matches Some(t) && t < m.tasks.len()) ==> {
                let t = intent.joined()->0;
                &&& f.trans.error is Some ==> after.tasks[t as int] == TaskDone::Done(f.trans.error)
                &&& f.trans.error is None && m.closing ==> after.tasks[t as int] == TaskDone::Done(
                    Some(Arc::new(CordisError::Closed)),
                )
                &&& f.trans.error is None && !m.closing ==> after.tasks[t as int]
                    == TaskDone::Done(None)
            }
        }),
{
}

/// A restart that has been accepted cancels the current generation and is in the
/// mailbox, with a task that runs until the restart has been handled.
pub proof fn accepted_restarts_are_mailed(m: SharedModel, i: FiberIx, j: FiberIx)
    requires
        m.has(i),
        m.has(j),
        m.fibers[i as int].alive,
        m.tasks.len() < usize::MAX,
    ensures
        ({
            let after = m.restarting(i);
            let f = m.fibers[i as int];
            let task = m.tasks.len() as usize;
            &&& after.fibers[i as int] == (FiberModel {
                cancelled: true,
                mailbox: f.mailbox.push(Intent::Restart(task)),
                ..f
            })
            &&& j != i ==> after.fibers[j as int] == m.fibers[j as int]
            &&& after.tasks == m.tasks.push(TaskDone::Running)
            &&& after == SharedModel { fibers: after.fibers, tasks: after.tasks, ..m }
        }),
{
}

/// A fiber is asked to end once: the first request cancels it, goes to its mailbox and
/// opens the task of its end, which every later request shares. Where the driver no
/// longer takes requests the task is over at once.
pub proof fn fibers_end_once(m: SharedModel, i: FiberIx, j: FiberIx)
    requires
        m.has(i),
        m.has(j),
        m.tasks.len() < usize::MAX,
    ensures
        ({
            let after = m.disposing(i);
            let f = m.fibers[i as int];
            let g = after.fibers[i as int];
            let task = m.tasks.len() as usize;
            &&& g.trans == (TransModel { terminal: Some(task), ..f.trans })
            &&& g.cancelled
            &&& f.alive ==> g.mailbox == f.mailbox.push(Intent::Dispose)
            &&& !f.alive ==> g.mailbox == f.mailbox
            &&& g == (FiberModel {
                trans: g.trans,
                cancelled: g.cancelled,
                mailbox: g.mailbox,
                ..f
            })
            &&& j != i ==> after.fibers[j as int] == m.fibers[j as int]
            &&& after.tasks.len() == m.tasks.len() + 1
            &&& f.alive ==> after.tasks[task as int] == TaskDone::Running
            &&& !f.alive && f.trans.error is Some ==> after.tasks[task as int] == TaskDone::Done(
                f.trans.error,
            )
            &&& !f.alive && f.trans.error is None && m.closing ==> after.tasks[task as int]
                == TaskDone::Done(Some(Arc::new(CordisError::Closed)))
            &&& !f.alive && f.trans.error is None && !m.closing ==> after.tasks[task as int]
                == TaskDone::Done(None)
            &&& forall|t: int| 0 <= t < m.tasks.len() ==> #[trigger] after.tasks[t] == m.tasks[t]
            &&& !(i == 0 && m.closing && m.shutdown_task is Some) ==> after.end_task(i) == Some(
                task,
            )
        }),
{
}

/// The end of the root, once it is being shut down, is the end of the shutdown; any
/// other fiber's end is that which it was asked for, if it was.
pub proof fn ends_are_shared(m: SharedModel, i: FiberIx)
    requires
        m.has(i),
    ensures
        m.closing && m.shutdown_task is Some ==> m.end_task(0) == m.shutdown_task,
        i != 0 || !m.closing || m.shutdown_task is None ==> m.end_task(i)
            == m.fibers[i as int].trans.terminal,
{
}

/// A change of state is numbered and queued with what it was from and to; a fiber that
/// is in the state already is left alone. Nothing but the state and the queue changes.
pub proof fn changes_of_state_are_told(f: FiberModel, new: FiberState)
    requires
        f.trans.seq < u64::MAX,
    ensures
        ({
            let g = f.moved(new);
            &&& g.trans.state == new
            &&& f.trans.state == new ==> g == f
            &&& f.trans.state != new ==> g.trans.seq == f.trans.seq + 1 && g.trans.queue
                == f.trans.queue.push(
                FiberStatusChanged {
                    plugin_id: f.id,
                    seq: g.trans.seq,
                    generation: f.trans.generation,
                    from: f.trans.state,
                    to: new,
                },
            )
            &&& g.trans == (TransModel {
                state: g.trans.state,
                seq: g.trans.seq,
                queue: g.trans.queue,
                ..f.trans
            })
            &&& g == (FiberModel { trans: g.trans, ..f })
        }),
{
}

/// A fiber that is unloaded is cancelled and hands over all its effects, last to
/// first; what it depends on and provides stays until they have been cleaned up.
pub proof fn unloading_hands_over_last_to_first(f: FiberModel, stage: Stage, k: int)
    ensures
        ({
            let g = f.unloading(stage);
            &&& g.trans.state is Unloading
            &&& g.cancelled
            &&& g.effects.len() == 0
            &&& g.draining.len() == f.effects.len()
            &&& 0 <= k < f.effects.len() ==> g.draining[k] == f.effects[f.effects.len() - 1 - k]
            &&& g.stage == stage
            &&& g.trans.generation == f.trans.generation
            &&& g.trans.error == f.trans.error
            &&& g.trans.terminal == f.trans.terminal
            &&& g == (FiberModel {
                trans: g.trans,
                cancelled: true,
                effects: g.effects,
                draining: g.draining,
                stage,
                ..f
            })
        }),
{
}

/// The fibers that a step leaves as they are.
pub open spec fn others_stay(a: SharedModel, b: SharedModel, i: FiberIx) -> bool {
    &&& b.fibers.len() == a.fibers.len()
    &&& forall|j: int| 0 <= j < a.fibers.len() && j != i ==> #[trigger] b.fibers[j] == a.fibers[j]
}

/// The task, if there is one, has ended with the error, and no other task has changed.
pub open spec fn told(
    a: SharedModel,
    b: SharedModel,
    task: Option<TaskId>,
    error: Option<Arc<CordisError>>,
) -> bool {
    &&& b.tasks.len() == a.tasks.len()
    &&& forall|t: int|
        0 <= t < a.tasks.len() ==> #[trigger] b.tasks[t] == (if task == Some(t as usize) {
            TaskDone::Done(error)
        } else {
            a.tasks[t]
        })
}

/// A new generation: the next number, no error, no reads, not cancelled, being
/// assembled. It is not begun once the root or the fiber is closing; the request is
/// then over, with the fiber's error.
pub proof fn loading_begins_a_generation(m: SharedModel, i: FiberIx, join: Option<TaskId>)
    requires
        m.has(i),
        m.tasks.len() <= usize::MAX,
        m.fibers[i as int].trans.generation < u64::MAX,
        m.fibers[i as int].trans.seq < u64::MAX,
    ensures
        ({
            let after = m.loading(i, join);
            let f = m.fibers[i as int];
            let g = after.fibers[i as int];
            &&& others_stay(m, after, i)
            &&& after == SharedModel { fibers: after.fibers, tasks: after.tasks, ..m }
            &&& m.closing || f.closing ==> g == (FiberModel { stage: Stage::Idle, ..f }) && told(
                m,
                after,
                join,
                f.trans.error,
            )
            &&& !m.closing && !f.closing ==> {
                &&& after.tasks == m.tasks
                &&& g.trans.generation == f.trans.generation + 1
                &&& g.trans.state is Loading
                &&& g.trans.error is None
                &&& g.trans.terminal == f.trans.terminal
                &&& g.accesses.len() == 0
                &&& !g.cancelled
                &&& g.stage == (Stage::Building { join })
                &&& g == (FiberModel {
                    trans: g.trans,
                    accesses: g.accesses,
                    cancelled: false,
                    stage: g.stage,
                    ..f
                })
                &&& !(f.trans.state is Loading) ==> g.trans.queue.last() == (FiberStatusChanged {
                    plugin_id: f.id,
                    seq: g.trans.seq,
                    generation: g.trans.generation,
                    from: f.trans.state,
                    to: FiberState::Loading,
                }) && g.trans.queue.len() == f.trans.queue.len() + 1
            }
        }),
{
}

/// A fiber looks for its dependencies exactly if neither it nor the root is closing, it
/// has something to assemble and has not been disposed of. Otherwise the request is
/// over and nothing but its task changes.
pub proof fn dependencies_are_looked_for_while_open(
    m: SharedModel,
    i: FiberIx,
    join: Option<TaskId>,
)
    requires
        m.has(i),
        m.tasks.len() <= usize::MAX,
    ensures
        ({
            let after = m.refreshing(i, join);
            let f = m.fibers[i as int];
            let open = !m.closing && !f.closing && !(f.source is Nowhere)
                && !(f.trans.state is Disposed);
            &&& others_stay(m, after, i)
            &&& after == SharedModel { fibers: after.fibers, tasks: after.tasks, ..m }
            &&& open ==> after.fibers[i as int] == (FiberModel {
                stage: Stage::Resolving { join },
                ..f
            }) && after.tasks == m.tasks
            &&& !open ==> after.fibers[i as int] == (FiberModel { stage: Stage::Idle, ..f }) && told(
                m,
                after,
                join,
                f.trans.error,
            )
        }),
{
}

/// The same dependencies, in any order.
pub open spec fn equal_deps(a: Seq<Dep>, b: Seq<Dep>) -> bool {
    &&& forall|k: int| 0 <= k < a.len() ==> listed(b, #[trigger] a[k])
    &&& forall|k: int| 0 <= k < b.len() ==> listed(a, #[trigger] b[k])
}

/// What a fiber depends on: for each dependency found there is a declaration of its
/// key, ready, and it names the scope in which the fiber sees the key and the provider
/// and the generation of the service bound there.
pub proof fn found_dependencies_name_their_service(m: SharedModel, i: FiberIx, d: int)
    requires
        m.wf(),
        m.has(i),
        0 <= d < m.all_found(i).len(),
    ensures
        exists|k: int, s: int|
            0 <= k < m.fibers[i as int].declared.len() && 0 <= s < m.registry.slots.len()
                && names_service(
                m,
                i,
                m.all_found(i)[d],
                #[trigger] m.fibers[i as int].declared[k],
                #[trigger] m.registry.slots[s],
            ),
        forall|e: int|
            0 <= e < m.all_found(i).len() && e != d ==> !same_dep(
                m.all_found(i)[d],
                #[trigger] m.all_found(i)[e],
            ),
{
    let n = m.fibers[i as int].declared.len();
    found_dependencies_upto(m, i, n, d);
    assert forall|e: int| 0 <= e < m.all_found(i).len() && e != d implies !same_dep(
        m.all_found(i)[d],
        #[trigger] m.all_found(i)[e],
    ) by {
        dependencies_are_found_once(m, i, n, d, e);
    }
}

/// The dependency is on the service in the slot, by a declaration of its key.
pub open spec fn names_service(
    m: SharedModel,
    i: FiberIx,
    dep: Dep,
    key: TypeKey,
    slot: Slot,
) -> bool {
    let scope = scope_seen(m.nodes[i as int].ctx, key);
    &&& dep.key == key
    &&& dep.scope == scope
    &&& m.in_instance_key(i, key)
    &&& serves(m, slot, key, scope)
    &&& dep.provider == slot.binding.provider_id
    &&& dep.generation == slot.binding.provider_gen
}

proof fn found_dependencies_upto(m: SharedModel, i: FiberIx, n: nat, d: int)
    requires
        m.wf(),
        m.has(i),
        n <= m.fibers[i as int].declared.len(),
        0 <= d < m.found(i, n).len(),
    ensures
        exists|k: int, s: int|
            0 <= k < m.fibers[i as int].declared.len() && 0 <= s < m.registry.slots.len()
                && names_service(
                m,
                i,
                m.found(i, n)[d],
                #[trigger] m.fibers[i as int].declared[k],
                #[trigger] m.registry.slots[s],
            ),
    decreases n,
{
    let before = m.found(i, (n - 1) as nat);
    if d < before.len() {
        assert(m.found(i, n)[d] == before[d]);
        found_dependencies_upto(m, i, (n - 1) as nat, d);
    } else {
        let key = m.fibers[i as int].declared[n - 1];
        let scope = scope_seen(m.nodes[i as int].ctx, key);
        dependencies_are_ready_when_their_provider_is_active(m, i, key);
        let s = choose|s: int|
            0 <= s < m.registry.slots.len() && serves(m, #[trigger] m.registry.slots[s], key, scope);
        keys_are_bound_by_their_slot(m.registry, key, scope, s);
        assert(names_service(m, i, m.found(i, n)[d], key, m.registry.slots[s]));
    }
}

proof fn dependencies_are_found_once(m: SharedModel, i: FiberIx, n: nat, d: int, e: int)
    requires
        n <= m.fibers[i as int].declared.len(),
        0 <= d < m.found(i, n).len(),
        0 <= e < m.found(i, n).len(),
        d != e,
    ensures
        !same_dep(m.found(i, n)[d], m.found(i, n)[e]),
    decreases n,
{
    let before = m.found(i, (n - 1) as nat);
    if d < before.len() && e < before.len() {
        dependencies_are_found_once(m, i, (n - 1) as nat, d, e);
    } else if d < before.len() {
        assert(same_dep(before[d], m.found(i, n)[e]) ==> has_dep(before, m.found(i, n)[e]));
    } else {
        if same_dep(m.found(i, n)[d], before[e]) {
            assert(same_dep(before[e], m.found(i, n)[d]));
        }
    }
}

/// What becomes of a fiber that has looked at its dependencies. Where one is not
/// served it is unloaded if it runs, and stays as it is otherwise. Where all are served
/// by those it was assembled with it stays as it is. Where they are served by others
/// these are kept for the next assembly, which begins at once if the fiber is not
/// assembled, and after its cleanups otherwise.
pub proof fn fibers_follow_their_dependencies(m: SharedModel, i: FiberIx, join: Option<TaskId>)
    requires
        m.wf(),
        m.has(i),
        m.tasks.len() <= usize::MAX,
        m.fibers[i as int].trans.generation < u64::MAX,
        m.fibers[i as int].trans.seq < u64::MAX,
    ensures
        ({
            let after = m.resolved(i, join);
            let f = m.fibers[i as int];
            let g = after.fibers[i as int];
            let served = all_served(m, i);
            let same = f.last_deps is Some && equal_deps(f.last_deps->0, m.all_found(i));
            let runs = f.trans.state is Active || f.trans.state is Loading;
            let bare = f.trans.state is Pending || f.trans.state is Disposed;
            &&& others_stay(m, after, i)
            &&& after == SharedModel { fibers: after.fibers, tasks: after.tasks, ..m }
            &&& !served && runs ==> g.trans.state is Unloading && g.stage == (Stage::Draining {
                after: AfterDrain::Settle,
                join,
            }) && g.draining == f.effects.reverse() && g.effects.len() == 0 && g.cancelled
                && after.tasks == m.tasks
            &&& (!served && !runs) || (served && same) ==> g == (FiberModel {
                stage: Stage::Idle,
                ..f
            }) && told(m, after, join, f.trans.error)
            &&& served && !same ==> g.next_deps == m.all_found(i) && g.last_deps == f.last_deps
            &&& served && !same && bare && !m.closing && !f.closing ==> g.trans.state is Loading
                && g.trans.generation == f.trans.generation + 1 && g.stage == (Stage::Building {
                join,
            }) && after.tasks == m.tasks
            &&& served && !same && bare && (m.closing || f.closing) ==> g.trans == f.trans
                && g.stage is Idle && told(m, after, join, f.trans.error)
            &&& served && !same && !bare ==> g.trans.state is Unloading && g.stage == (
            Stage::Draining { after: AfterDrain::Load, join }) && g.draining == f.effects.reverse()
                && g.effects.len() == 0 && g.cancelled && after.tasks == m.tasks
        }),
{
    let f = m.fibers[i as int];
    if f.last_deps is Some {
        dependencies_are_compared_as_sets(f.last_deps->0, m.all_found(i));
    }
    fibers_are_ready_when_all_is_served(m, i);
}

/// An instance that has been built is assembled against the dependencies that were
/// found for it.
pub proof fn instances_are_assembled_against_what_was_found(
    m: SharedModel,
    i: FiberIx,
    join: Option<TaskId>,
)
    requires
        m.has(i),
    ensures
        ({
            let after = m.applying(i, join);
            let f = m.fibers[i as int];
            &&& others_stay(m, after, i)
            &&& after == SharedModel { fibers: after.fibers, ..m }
            &&& after.fibers[i as int] == (FiberModel {
                last_deps: Some(f.next_deps),
                next_deps: Seq::empty(),
                stage: Stage::Applying { join },
                ..f
            })
        }),
{
}

/// The effect of an assembly is recorded as the fiber's last. A fiber that was closed
/// meanwhile is unloaded again, that effect among the rest.
pub proof fn assemblies_are_recorded_last(
    m: SharedModel,
    i: FiberIx,
    record: RecordModel,
    join: Option<TaskId>,
)
    requires
        m.has(i),
        m.records.len() < usize::MAX,
    ensures
        ({
            let after = m.assembled(i, record, join);
            let f = m.fibers[i as int];
            let g = after.fibers[i as int];
            let r = m.records.len() as usize;
            &&& others_stay(m, after, i)
            &&& after.records == m.records.push(record)
            &&& after == SharedModel { fibers: after.fibers, records: after.records, ..m }
            &&& !f.closing ==> g == (FiberModel {
                effects: f.effects.push(r),
                stage: Stage::Adopting { join },
                ..f
            })
            &&& f.closing ==> g.trans.state is Unloading && g.draining.len() == f.effects.len() + 1
                && g.draining[0] == r && g.draining.drop_first() == f.effects.reverse()
                && g.stage == (Stage::Draining { after: AfterDrain::LateClose, join })
        }),
{
    let f = m.fibers[i as int];
    let r = m.records.len() as usize;
    assert(f.effects.push(r).reverse().drop_first() =~= f.effects.reverse());
}

/// A failed assembly is rolled back: the fiber hands over what it has registered, last
/// to first, and keeps the error until that is done.
pub proof fn failed_assemblies_are_rolled_back(
    m: SharedModel,
    i: FiberIx,
    error: Arc<CordisError>,
    join: Option<TaskId>,
)
    requires
        m.has(i),
    ensures
        ({
            let after = m.rolling_back(i, error, join);
            let f = m.fibers[i as int];
            let g = after.fibers[i as int];
            &&& others_stay(m, after, i)
            &&& after == SharedModel { fibers: after.fibers, ..m }
            &&& g.held_error == Some(error)
            &&& g.trans.state is Unloading
            &&& g.draining == f.effects.reverse()
            &&& g.effects.len() == 0
            &&& g.cancelled
            &&& g.stage == (Stage::RollingBack { join })
            &&& g.provided == f.provided
        }),
{
}

/// A fiber whose assembly was rolled back has failed, with the whole error; it depends
/// on nothing and provides nothing any more, the cleanups' errors are reported, and
/// whoever waits is told the whole error.
pub proof fn rolled_back_fibers_have_failed(
    m: SharedModel,
    i: FiberIx,
    errors: Seq<Arc<CordisError>>,
    total: Arc<CordisError>,
    join: Option<TaskId>,
)
    requires
        m.has(i),
        m.tasks.len() <= usize::MAX,
    ensures
        ({
            let after = m.rolled_back(i, errors, total, join);
            let f = m.fibers[i as int];
            let g = after.fibers[i as int];
            &&& others_stay(m, after, i)
            &&& after.reports == m.reports + errors
            &&& told(m, after, join, Some(total))
            &&& g.trans.state is Failed
            &&& g.trans.error == Some(total)
            &&& g.held_error is None
            &&& g.last_deps is None
            &&& g.provided.len() == 0
            &&& g.drained.len() == 0
            &&& g.stage is Idle
            &&& g.mailbox == f.mailbox
            &&& g.alive == f.alive
            &&& g.trans.generation == f.trans.generation
            &&& after.registry == m.registry && after.records == m.records
        }),
{
}

} // verus!
