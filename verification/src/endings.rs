//! How the driver takes its requests, and how fibers become active and end.

use std::sync::Arc;

use crate::control::{others_stay, told};
use crate::drive::{answer, Ending};
use crate::error::CordisError;
use crate::fiber::{
    AfterDrain, FiberIx, FiberModel, FiberState, Intent, Stage, TaskId, Terminal,
};
use crate::gating::changes_of_a_key_are_told_to_who_waits_for_it;
use crate::key::{ScopeId, TypeKey};
use crate::registry::of_others;
use crate::shared::{SharedModel, TaskDone};
use vstd::prelude::*;

verus! {

/// The fiber is registered as waiting for the key.
pub open spec fn waits_for(m: SharedModel, key: TypeKey, j: FiberIx) -> bool {
    exists|k: int|
        0 <= k < m.registry.index.len() && (#[trigger] m.registry.index[k]).0.identity()
            == key.identity() && m.registry.index[k].1 == j
}

/// How many of the first `n` keys a fiber that takes requests waits for.
pub open spec fn awaited(
    m: SharedModel,
    provided: Seq<(TypeKey, Option<ScopeId>)>,
    n: nat,
    j: FiberIx,
) -> nat
    decreases n,
{
    if n == 0 {
        0
    } else {
        awaited(m, provided, (n - 1) as nat, j) + if waits_for(m, provided[n - 1].0, j)
            && m.fibers[j as int].held && m.fibers[j as int].alive {
            1nat
        } else {
            0nat
        }
    }
}

proof fn notices_are_counted(
    m: SharedModel,
    provided: Seq<(TypeKey, Option<ScopeId>)>,
    n: nat,
    j: FiberIx,
)
    requires
        m.has(j),
        m.fibers.len() <= usize::MAX,
        n <= provided.len(),
    ensures
        ({
            let after = m.keys_changed(provided, n);
            let f = m.fibers[j as int];
            &&& after.fibers.len() == m.fibers.len()
            &&& after == SharedModel { fibers: after.fibers, ..m }
            &&& after.fibers[j as int] == (FiberModel {
                mailbox: f.mailbox + Seq::new(
                    awaited(m, provided, n, j),
                    |k: int| Intent::RefreshDeps,
                ),
                ..f
            })
        }),
    decreases n,
{
    let f = m.fibers[j as int];
    if n == 0 {
        assert(f.mailbox + Seq::new(0, |k: int| Intent::RefreshDeps) =~= f.mailbox);
    } else {
        notices_are_counted(m, provided, (n - 1) as nat, j);
        let before = m.keys_changed(provided, (n - 1) as nat);
        let key = provided[n - 1].0;
        changes_of_a_key_are_told_to_who_waits_for_it(before, key, j);
        let c = awaited(m, provided, (n - 1) as nat, j);
        assert((f.mailbox + Seq::new(c, |k: int| Intent::RefreshDeps)).push(Intent::RefreshDeps)
            =~= f.mailbox + Seq::new(c + 1, |k: int| Intent::RefreshDeps));
    }
}

/// When the services of a fiber change, each fiber that takes requests is asked to look
/// at its dependencies once for each of the keys that it waits for; nobody else hears
/// of it, and nothing else changes.
pub proof fn changed_services_are_told_to_who_waits(
    m: SharedModel,
    provided: Seq<(TypeKey, Option<ScopeId>)>,
    j: FiberIx,
)
    requires
        m.has(j),
        m.fibers.len() <= usize::MAX,
    ensures
        ({
            let after = m.keys_changed(provided, provided.len());
            let f = m.fibers[j as int];
            &&& after.fibers.len() == m.fibers.len()
            &&& after == SharedModel { fibers: after.fibers, ..m }
            &&& after.fibers[j as int] == (FiberModel {
                mailbox: f.mailbox + Seq::new(
                    awaited(m, provided, provided.len(), j),
                    |k: int| Intent::RefreshDeps,
                ),
                ..f
            })
        }),
{
    notices_are_counted(m, provided, provided.len(), j);
}

/// An assembled fiber becomes active, without an error and in its generation, its
/// driver is free again, whoever waits for the assembly is told that it succeeded, and
/// every fiber that waits for one of its services is asked to look again.
pub proof fn assembled_fibers_become_active(
    m: SharedModel,
    i: FiberIx,
    join: Option<TaskId>,
    j: FiberIx,
)
    requires
        m.has(i),
        m.has(j),
        m.fibers.len() <= usize::MAX,
        m.tasks.len() <= usize::MAX,
    ensures
        ({
            let after = m.activated(i, join);
            let f = m.fibers[i as int];
            let g = after.fibers[i as int];
            &&& g.trans.state is Active
            &&& g.trans.error is None
            &&& g.trans.generation == f.trans.generation
            &&& g.trans.terminal == f.trans.terminal
            &&& g.stage is Idle
            &&& g.provided == f.provided
            &&& g.effects == f.effects
            &&& g.cancelled == f.cancelled
            &&& g.last_deps == Some(m.all_found(i)) || g.last_deps == f.last_deps
            &&& m.all_ready(i) ==> g.last_deps == Some(m.all_found(i))
            &&& told(m, after, join, None)
            &&& after.registry == m.registry && after.nodes == m.nodes && after.records
                == m.records && after.reports == m.reports
            &&& after.fibers.len() == m.fibers.len()
            &&& j != i ==> after.fibers[j as int] == (FiberModel {
                mailbox: m.fibers[j as int].mailbox + Seq::new(
                    awaited(m, f.provided, f.provided.len(), j),
                    |k: int| Intent::RefreshDeps,
                ),
                ..m.fibers[j as int]
            })
        }),
{
    let f = m.fibers[i as int];
    let adopted = if m.all_ready(i) {
        FiberModel { last_deps: Some(m.all_found(i)), ..f }
    } else {
        f
    };
    let up = m.put(i, adopted.with_error(None).moved(FiberState::Active));
    notices_are_counted(up, f.provided, f.provided.len(), i);
    notices_are_counted(up, f.provided, f.provided.len(), j);
    if j != i {
        counting_goes_by_the_fiber(m, up, f.provided, f.provided.len(), j);
    }
    assert(up.keys_changed(f.provided, f.provided.len()).fiber(i).trans.error is None);
}

proof fn counting_goes_by_the_fiber(
    a: SharedModel,
    b: SharedModel,
    provided: Seq<(TypeKey, Option<ScopeId>)>,
    n: nat,
    j: FiberIx,
)
    requires
        a.registry == b.registry,
        a.fibers[j as int] == b.fibers[j as int],
    ensures
        awaited(a, provided, n, j) == awaited(b, provided, n, j),
    decreases n,
{
    if n > 0 {
        counting_goes_by_the_fiber(a, b, provided, (n - 1) as nat, j);
    }
}

/// The first request leaves the mailbox and the others stay, in order; no other fiber
/// and nothing but tasks changes. A request to end that is carried out at once may end
/// the driver, with all its mail.
pub proof fn the_first_request_is_taken(m: SharedModel, i: FiberIx)
    requires
        m.has(i),
        m.fibers[i as int].mailbox.len() > 0,
        m.tasks.len() <= usize::MAX,
        !(m.fibers[i as int].mailbox[0] is Dispose && !m.fibers[i as int].closing),
    ensures
        ({
            let after = m.took(i);
            let f = m.fibers[i as int];
            let g = after.fibers[i as int];
            &&& g.mailbox == f.mailbox.drop_first()
            &&& others_stay(m, after, i)
            &&& after == SharedModel { fibers: after.fibers, tasks: after.tasks, ..m }
        }),
{
}

/// Taking a request to look at the dependencies.
pub proof fn refreshes_are_taken(m: SharedModel, i: FiberIx, join: Option<TaskId>)
    requires
        m.has(i),
        m.fibers[i as int].mailbox.len() > 0,
        m.fibers[i as int].mailbox[0] == (match join {
            Some(t) => Intent::RefreshDepsJoin(t),
            None => Intent::RefreshDeps,
        }),
        m.tasks.len() <= usize::MAX,
    ensures
        ({
            let after = m.took(i);
            let f = m.fibers[i as int];
            let g = after.fibers[i as int];
            let open = !m.closing && !f.closing && !(f.source is Nowhere)
                && !(f.trans.state is Disposed);
            &&& open ==> g.stage == (Stage::Resolving { join }) && after.tasks == m.tasks
            &&& !open ==> g.stage is Idle && told(m, after, join, f.trans.error)
            &&& g.trans == f.trans && g.effects == f.effects
        }),
{
}

/// A request to settle is answered once it comes up: with the error of a fiber that
/// has failed, and without one otherwise. It changes nothing else.
pub proof fn settling_tells_of_failure(m: SharedModel, i: FiberIx, task: TaskId)
    requires
        m.has(i),
        m.fibers[i as int].mailbox.len() > 0,
        m.fibers[i as int].mailbox[0] == Intent::Settle(task),
        m.tasks.len() <= usize::MAX,
    ensures
        ({
            let after = m.took(i);
            let f = m.fibers[i as int];
            &&& after.fibers[i as int] == (FiberModel { mailbox: f.mailbox.drop_first(), ..f })
            &&& f.trans.state is Failed ==> told(m, after, Some(task), f.trans.error)
            &&& !(f.trans.state is Failed) ==> told(m, after, Some(task), None)
        }),
{
}

/// A restart that comes up. Once the root or the fiber is closing it is refused. A
/// fiber that waits looks for its dependencies; one that is assembled, being assembled
/// or has failed is unloaded first and looks for them afterwards. One that was disposed
/// of stays so, with its error, but for the root, which becomes active again.
pub proof fn restarts_are_carried_out(m: SharedModel, i: FiberIx, task: TaskId)
    requires
        m.has(i),
        m.fibers[i as int].mailbox.len() > 0,
        m.fibers[i as int].mailbox[0] == Intent::Restart(task),
        m.tasks.len() <= usize::MAX,
    ensures
        ({
            let after = m.took(i);
            let f = m.fibers[i as int];
            let g = after.fibers[i as int];
            let closed = m.closing || f.closing;
            &&& closed ==> g == (FiberModel { mailbox: f.mailbox.drop_first(), ..f }) && told(
                m,
                after,
                Some(task),
                Some(Arc::new(CordisError::Closed)),
            )
            &&& !closed && f.trans.state is Pending && !(f.source is Nowhere) ==> g.stage == (
            Stage::Resolving { join: Some(task) }) && after.tasks == m.tasks && g.trans == f.trans
            &&& !closed && (f.trans.state is Active || f.trans.state is Loading
                || f.trans.state is Failed || f.trans.state is Unloading) ==> g.trans.state
                is Unloading && g.stage == (Stage::Draining {
                after: AfterDrain::Refresh,
                join: Some(task),
            }) && g.draining == f.effects.reverse() && g.effects.len() == 0 && g.cancelled
                && after.tasks == m.tasks
            &&& !closed && f.trans.state is Disposed && i != 0 ==> g.trans == f.trans && told(
                m,
                after,
                Some(task),
                f.trans.error,
            )
            &&& !closed && f.trans.state is Disposed && i == 0 ==> g.trans.state is Active
                && g.trans.error is None && g.trans.terminal is None && !g.cancelled
                && g.trans.generation == f.trans.generation && told(m, after, Some(task), None)
        }),
{
}

/// A request to end. A fiber that somebody closes waits for its callbacks in flight
/// first, as every shutdown does; any other begins to end at once.
pub proof fn ends_wait_for_flights(m: SharedModel, i: FiberIx)
    requires
        m.has(i),
        m.fibers[i as int].mailbox.len() > 0,
        m.tasks.len() <= usize::MAX,
    ensures
        ({
            let after = m.took(i);
            let f = m.fibers[i as int];
            let g = after.fibers[i as int];
            &&& f.mailbox[0] is Dispose && f.closing ==> g.stage == Stage::Flights(
                Terminal::Dispose,
            ) && g.trans == f.trans && g.effects == f.effects && after.tasks == m.tasks
            &&& f.mailbox[0] is Dispose && !f.closing && !(f.trans.state is Disposed)
                ==> g.trans.state is Unloading && g.stage == (Stage::Draining {
                after: AfterDrain::End(Terminal::Dispose),
                join: None,
            }) && g.draining == f.effects.reverse()
            &&& f.mailbox[0] matches Intent::Shutdown(task) ==> g.stage == Stage::Flights(
                Terminal::Shutdown(task),
            ) && g.trans == f.trans && g.effects == f.effects && after.tasks == m.tasks
        }),
{
}

/// A fiber that ends is unloaded, if it has not been disposed of before. One that had
/// failed before a shutdown keeps its error for those who wait for the shutdown.
pub proof fn endings_unload_first(m: SharedModel, i: FiberIx, terminal: Terminal)
    requires
        m.has(i),
        !(m.fibers[i as int].trans.state is Disposed),
    ensures
        ({
            let after = m.ending(i, terminal);
            let f = m.fibers[i as int];
            let g = after.fibers[i as int];
            &&& others_stay(m, after, i)
            &&& after == SharedModel { fibers: after.fibers, ..m }
            &&& g.trans.state is Unloading
            &&& g.stage == (Stage::Draining { after: AfterDrain::End(terminal), join: None })
            &&& g.draining == f.effects.reverse()
            &&& g.effects.len() == 0
            &&& g.cancelled
            &&& terminal is Dispose ==> g.held_error == f.held_error
            &&& terminal is Shutdown && i != 0 && f.trans.state is Failed ==> g.held_error
                == f.trans.error
            &&& terminal is Shutdown && (i == 0 || !(f.trans.state is Failed)) ==> g.held_error
                is None
        }),
{
}

/// What a request that was still in the mailbox is told. Settling succeeds, unless the
/// driver broke down. A disposed fiber tells its error; one that was shut down tells
/// it to other shutdowns and refuses the rest; a breakdown is told to everybody.
pub proof fn requests_left_behind_are_answered(
    intent: Intent,
    error: Option<Arc<CordisError>>,
    failure: Arc<CordisError>,
)
    ensures
        answer(intent, Ending::Broken(failure)) == Some(failure),
        intent is Settle ==> answer(intent, Ending::Disposed(error)) is None && answer(
            intent,
            Ending::ShutDown(error),
        ) is None,
        !(intent is Settle) ==> answer(intent, Ending::Disposed(error)) == error,
        intent is Shutdown ==> answer(intent, Ending::ShutDown(error)) == error,
        !(intent is Settle) && !(intent is Shutdown) ==> answer(intent, Ending::ShutDown(error))
            == Some(Arc::new(CordisError::Closed)),
{
}

/// The last of the first `n` requests that completes the task.
pub open spec fn last_naming(mail: Seq<Intent>, n: nat, task: TaskId, k: int) -> bool {
    &&& 0 <= k < n
    &&& mail[k].joined() == Some(task)
    &&& forall|l: int| k < l < n ==> (#[trigger] mail[l]).joined() != Some(task)
}

proof fn answers_reach_tasks(
    m: SharedModel,
    mail: Seq<Intent>,
    ending: Ending,
    n: nat,
    task: TaskId,
    k: int,
)
    requires
        n <= mail.len(),
        task < m.tasks.len(),
    ensures
        ({
            let after = m.answered(mail, ending, n);
            &&& after == SharedModel { tasks: after.tasks, ..m }
            &&& after.tasks.len() == m.tasks.len()
            &&& last_naming(mail, n, task, k) ==> after.tasks[task as int] == TaskDone::Done(
                answer(mail[k], ending),
            )
            &&& (forall|l: int| 0 <= l < n ==> (#[trigger] mail[l]).joined() != Some(task))
                ==> after.tasks[task as int] == m.tasks[task as int]
        }),
    decreases n,
{
    if n > 0 {
        answers_reach_tasks(m, mail, ending, (n - 1) as nat, task, k);
        let before = m.answered(mail, ending, (n - 1) as nat);
        if last_naming(mail, n, task, k) && k < n - 1 {
            assert(mail[n - 1].joined() != Some(task));
            assert(last_naming(mail, (n - 1) as nat, task, k));
        }
    }
}

/// A driver that stops takes no more requests. Its mailbox is emptied, and each task
/// that a request in it names ends, with the answer to the last such request; no other
/// task changes.
pub proof fn stopped_drivers_answer_their_mail(
    m: SharedModel,
    i: FiberIx,
    ending: Ending,
    task: TaskId,
    k: int,
)
    requires
        m.has(i),
        task < m.tasks.len(),
    ensures
        ({
            let after = m.stopped_driver(i, ending);
            let f = m.fibers[i as int];
            &&& others_stay(m, after, i)
            &&& after == SharedModel { fibers: after.fibers, tasks: after.tasks, ..m }
            &&& after.fibers[i as int] == (FiberModel {
                alive: false,
                mailbox: Seq::empty(),
                ..f
            })
            &&& after.tasks.len() == m.tasks.len()
            &&& last_naming(f.mailbox, f.mailbox.len(), task, k) ==> after.tasks[task as int]
                == TaskDone::Done(answer(f.mailbox[k], ending))
            &&& (forall|l: int|
                0 <= l < f.mailbox.len() ==> (#[trigger] f.mailbox[l]).joined() != Some(task))
                ==> after.tasks[task as int] == m.tasks[task as int]
        }),
{
    let f = m.fibers[i as int];
    let quiet = m.put(i, FiberModel { alive: false, mailbox: Seq::empty(), ..f });
    answers_reach_tasks(quiet, f.mailbox, ending, f.mailbox.len(), task, k);
}

proof fn answers_change_tasks_only(m: SharedModel, mail: Seq<Intent>, ending: Ending, n: nat)
    ensures
        m.answered(mail, ending, n) == (SharedModel {
            tasks: m.answered(mail, ending, n).tasks,
            ..m
        }),
        m.answered(mail, ending, n).tasks.len() == m.tasks.len(),
    decreases n,
{
    if n > 0 {
        answers_change_tasks_only(m, mail, ending, (n - 1) as nat);
    }
}

/// A fiber that leaves is no longer registered as waiting for anything, hands the
/// record by which its parent keeps it over for draining, and waits for that.
pub proof fn leaving_fibers_wait_for_nothing(
    m: SharedModel,
    i: FiberIx,
    last: Option<TaskId>,
    j: FiberIx,
    key: TypeKey,
)
    requires
        m.has(i),
    ensures
        ({
            let after = m.releasing(i, last);
            let f = m.fibers[i as int];
            let g = after.fibers[i as int];
            &&& others_stay(m, after, i)
            &&& !waits_for(after, key, i)
            &&& j != i ==> (waits_for(after, key, j) <==> waits_for(m, key, j))
            &&& after.registry.slots == m.registry.slots && after.registry.next == m.registry.next
            &&& g.stage == (Stage::Releasing { last })
            &&& g.mount is None
            &&& f.mount matches Some(r) ==> g.draining == seq![r]
            &&& f.mount is None ==> g.draining.len() == 0
            &&& g == (FiberModel { mount: g.mount, draining: g.draining, stage: g.stage, ..f })
            &&& after.tasks == m.tasks && after.records == m.records
        }),
{
    broadcast use vstd::seq_lib::group_filter_ensures;

    let index = m.registry.index;
    let keep = of_others(i);
    let kept = index.filter(keep);
    let after = m.releasing(i, last);
    if waits_for(after, key, i) {
        let k = choose|k: int|
            0 <= k < kept.len() && (#[trigger] kept[k]).0.identity() == key.identity() && kept[k].1
                == i;
        assert(keep(kept[k]));
    }
    if j != i {
        if waits_for(after, key, j) {
            let k = choose|k: int|
                0 <= k < kept.len() && (#[trigger] kept[k]).0.identity() == key.identity()
                    && kept[k].1 == j;
            assert(kept.contains(kept[k]));
            index.lemma_filter_contains_rev(keep, kept[k]);
            let l = choose|l: int| 0 <= l < index.len() && index[l] == kept[k];
            assert(index[l].1 == j);
        }
        if waits_for(m, key, j) {
            let l = choose|l: int|
                0 <= l < index.len() && (#[trigger] index[l]).0.identity() == key.identity()
                    && index[l].1 == j;
            assert(keep(index[l]));
            assert(kept.contains(index[l]));
            let k = choose|k: int| 0 <= k < kept.len() && kept[k] == index[l];
            assert(kept[k].1 == j);
        }
    }
}

/// Whatever comes after the cleanups, the fiber then depends on nothing, provides
/// nothing and holds no errors of cleanups.
pub open spec fn cleared(g: FiberModel) -> bool {
    &&& g.last_deps is None
    &&& g.provided.len() == 0
    &&& g.drained.len() == 0
}

/// A fiber that lacks a dependency waits once it has been unloaded. The errors of its
/// cleanups are reported; the request that led there is told the fiber's own error.
pub proof fn unloaded_fibers_wait(
    m: SharedModel,
    i: FiberIx,
    join: Option<TaskId>,
    error: Option<Arc<CordisError>>,
    total: Option<Arc<CordisError>>,
)
    requires
        m.has(i),
        m.tasks.len() <= usize::MAX,
    ensures
        ({
            let after = m.unloaded(i, AfterDrain::Settle, join, error, total);
            let f = m.fibers[i as int];
            let g = after.fibers[i as int];
            &&& others_stay(m, after, i)
            &&& cleared(g)
            &&& g.trans.state is Pending && g.stage is Idle
            &&& g.trans.generation == f.trans.generation && g.trans.error == f.trans.error
            &&& g.mailbox == f.mailbox && g.alive == f.alive
            &&& told(m, after, join, f.trans.error)
            &&& error is None ==> after.reports == m.reports
            &&& error matches Some(e) ==> after.reports == m.reports.push(e)
        }),
{
}

/// A fiber that is unloaded to be assembled again begins its next generation, unless
/// it or the root has been closed meanwhile.
pub proof fn unloaded_fibers_are_loaded_again(
    m: SharedModel,
    i: FiberIx,
    join: Option<TaskId>,
    error: Option<Arc<CordisError>>,
    total: Option<Arc<CordisError>>,
)
    requires
        m.has(i),
        m.tasks.len() <= usize::MAX,
        m.fibers[i as int].trans.generation < u64::MAX,
    ensures
        ({
            let after = m.unloaded(i, AfterDrain::Load, join, error, total);
            let f = m.fibers[i as int];
            let g = after.fibers[i as int];
            let closed = m.closing || f.closing;
            &&& others_stay(m, after, i)
            &&& cleared(g)
            &&& g.next_deps == f.next_deps
            &&& !closed ==> g.trans.state is Loading && g.trans.generation == f.trans.generation
                + 1 && g.trans.error is None && g.stage == (Stage::Building { join })
                && !g.cancelled && after.tasks == m.tasks
            &&& closed ==> g.trans.state is Pending && g.trans.generation == f.trans.generation
                && g.stage is Idle && told(m, after, join, f.trans.error)
            &&& error is None ==> after.reports == m.reports
            &&& error matches Some(e) ==> after.reports == m.reports.push(e)
        }),
{
}

/// A fiber that is unloaded for a restart looks for its dependencies afterwards, unless
/// it or the root has been closed meanwhile or there is nothing to assemble.
pub proof fn unloaded_fibers_look_again(
    m: SharedModel,
    i: FiberIx,
    join: Option<TaskId>,
    error: Option<Arc<CordisError>>,
    total: Option<Arc<CordisError>>,
)
    requires
        m.has(i),
        m.tasks.len() <= usize::MAX,
    ensures
        ({
            let after = m.unloaded(i, AfterDrain::Refresh, join, error, total);
            let f = m.fibers[i as int];
            let g = after.fibers[i as int];
            let open = !m.closing && !f.closing && !(f.source is Nowhere);
            &&& others_stay(m, after, i)
            &&& cleared(g)
            &&& g.trans.state is Pending && g.trans.generation == f.trans.generation
            &&& open ==> g.stage == (Stage::Resolving { join }) && after.tasks == m.tasks
            &&& !open ==> g.stage is Idle && told(m, after, join, f.trans.error)
            &&& error is None ==> after.reports == m.reports
            &&& error matches Some(e) ==> after.reports == m.reports.push(e)
        }),
{
}

/// A fiber that was closed while it was being assembled is disposed of once what it had
/// assembled is cleaned up, with the error of the cleanups, which is told and not
/// reported. Its driver goes on, to handle the request to end.
pub proof fn late_closes_dispose(
    m: SharedModel,
    i: FiberIx,
    join: Option<TaskId>,
    error: Option<Arc<CordisError>>,
    total: Option<Arc<CordisError>>,
)
    requires
        m.has(i),
        m.tasks.len() <= usize::MAX,
    ensures
        ({
            let after = m.unloaded(i, AfterDrain::LateClose, join, error, total);
            let f = m.fibers[i as int];
            let g = after.fibers[i as int];
            &&& others_stay(m, after, i)
            &&& cleared(g)
            &&& g.trans.state is Disposed && g.trans.error == error && g.stage is Idle
            &&& g.alive == f.alive && g.mailbox == f.mailbox
            &&& told(m, after, join, error)
            &&& after.reports == m.reports
        }),
{
}

/// A fiber that has ended is disposed of, with the error of its cleanups. Any but the
/// root stops taking requests and leaves its parent; the root waits for the next
/// request and can be restarted.
pub proof fn ended_fibers_are_disposed_of(
    m: SharedModel,
    i: FiberIx,
    join: Option<TaskId>,
    error: Option<Arc<CordisError>>,
    total: Option<Arc<CordisError>>,
)
    requires
        m.has(i),
        m.tasks.len() <= usize::MAX,
    ensures
        ({
            let after = m.unloaded(i, AfterDrain::End(Terminal::Dispose), join, error, total);
            let f = m.fibers[i as int];
            let g = after.fibers[i as int];
            &&& others_stay(m, after, i)
            &&& cleared(g)
            &&& g.trans.state is Disposed && g.trans.error == error
            &&& g.trans.terminal == f.trans.terminal
            &&& i == 0 ==> g.stage is Idle && g.alive == f.alive && g.mailbox == f.mailbox && told(
                m,
                after,
                f.trans.terminal,
                error,
            )
            &&& i != 0 ==> !g.alive && g.mailbox.len() == 0 && g.stage == (Stage::Releasing {
                last: None,
            })
            &&& i != 0 && (f.trans.terminal matches Some(t) && t < m.tasks.len() && (forall|l: int|
                0 <= l < f.mailbox.len() ==> (#[trigger] f.mailbox[l]).joined() != Some(t)))
                ==> after.tasks[f.trans.terminal->0 as int] == TaskDone::Done(error)
            &&& after.reports == m.reports
        }),
{
    let f = m.fibers[i as int].emptied().with_error(error).moved(FiberState::Disposed);
    let ended = m.put(i, f);
    let said = ended.completed_opt(f.trans.terminal, f.trans.error);
    answers_change_tasks_only(
        said.put(i, FiberModel { alive: false, mailbox: Seq::empty(), ..f }),
        f.mailbox,
        Ending::Disposed(error),
        f.mailbox.len(),
    );
    if let Some(t) = f.trans.terminal {
        if t < m.tasks.len() {
            stopped_drivers_answer_their_mail(said, i, Ending::Disposed(error), t, 0);
        }
    }
}

/// A fiber that has been shut down is disposed of, with all that it was told to tell;
/// it takes no more requests, and whoever waits for the shutdown gets that error. Any
/// but the root then leaves its parent.
pub proof fn fibers_that_were_shut_down_are_over(
    m: SharedModel,
    i: FiberIx,
    join: Option<TaskId>,
    task: TaskId,
    error: Option<Arc<CordisError>>,
    total: Option<Arc<CordisError>>,
)
    requires
        m.has(i),
        task < m.tasks.len(),
    ensures
        ({
            let after = m.unloaded(
                i,
                AfterDrain::End(Terminal::Shutdown(task)),
                join,
                error,
                total,
            );
            let f = m.fibers[i as int];
            let g = after.fibers[i as int];
            &&& others_stay(m, after, i)
            &&& cleared(g)
            &&& g.trans.state is Disposed && g.trans.error == total && g.held_error is None
            &&& !g.alive && g.mailbox.len() == 0
            &&& after.tasks.len() == m.tasks.len()
            &&& after.tasks[task as int] == TaskDone::Done(total)
            &&& i == 0 ==> g.stage is Exited
            &&& i == 0 && (f.trans.terminal matches Some(t) && t < m.tasks.len())
                ==> after.tasks[f.trans.terminal->0 as int] == TaskDone::Done(total)
            &&& i != 0 ==> g.stage == (Stage::Releasing { last: Some(task) })
            &&& after.reports == m.reports
        }),
{
    let f = m.fibers[i as int].emptied().with_error(error).moved(FiberState::Disposed);
    let ended = m.put(i, f);
    let h = FiberModel { held_error: None, ..f.with_error(total) };
    answers_change_tasks_only(
        ended.put(i, h).put(i, FiberModel { alive: false, mailbox: Seq::empty(), ..h }),
        h.mailbox,
        Ending::ShutDown(total),
        h.mailbox.len(),
    );
}

/// A driver that breaks down hands its effects over for cleaning up, last to first,
/// and keeps the error and the task that it was working for.
pub proof fn breakdowns_are_cleaned_up(m: SharedModel, i: FiberIx, error: Arc<CordisError>)
    requires
        m.has(i),
    ensures
        ({
            let after = m.broken(i, error);
            let f = m.fibers[i as int];
            let g = after.fibers[i as int];
            &&& others_stay(m, after, i)
            &&& after == SharedModel { fibers: after.fibers, ..m }
            &&& g.held_error == Some(error)
            &&& g.trans.state is Unloading
            &&& g.cancelled
            &&& g.draining == f.effects.reverse()
            &&& g.effects.len() == 0
            &&& g.stage == (Stage::Recovering { task: f.stage.joined() })
        }),
{
}

/// The task that the driver is working for.
pub proof fn stages_name_their_task(join: Option<TaskId>, task: TaskId, after: AfterDrain)
    ensures
        (Stage::Resolving { join }).joined() == join,
        (Stage::Building { join }).joined() == join,
        (Stage::Applying { join }).joined() == join,
        (Stage::Adopting { join }).joined() == join,
        (Stage::RollingBack { join }).joined() == join,
        (Stage::Recovering { task: join }).joined() == join,
        (Stage::Releasing { last: join }).joined() == join,
        Stage::Flights(Terminal::Shutdown(task)).joined() == Some(task),
        Stage::Flights(Terminal::Dispose).joined() is None,
        Stage::Idle.joined() is None,
        Stage::Exited.joined() is None,
        (Stage::Draining { after: AfterDrain::End(Terminal::Shutdown(task)), join }).joined()
            == Some(task),
        !(after matches AfterDrain::End(Terminal::Shutdown(_))) ==> (Stage::Draining {
            after,
            join,
        }).joined() == join,
{
}

/// A fiber whose driver broke down has failed, with the whole error, which whoever
/// waits for it is told, and takes no more requests.
pub proof fn broken_drivers_are_over(
    m: SharedModel,
    i: FiberIx,
    errors: Seq<Arc<CordisError>>,
    total: Arc<CordisError>,
    task: Option<TaskId>,
    t: TaskId,
)
    requires
        m.has(i),
        t < m.tasks.len(),
        task == Some(t) || m.fibers[i as int].trans.terminal == Some(t) || exists|k: int|
            0 <= k < m.fibers[i as int].mailbox.len() && (
            #[trigger] m.fibers[i as int].mailbox[k]).joined() == Some(t),
    ensures
        ({
            let after = m.recovered(i, errors, total, task);
            let f = m.fibers[i as int];
            let g = after.fibers[i as int];
            &&& others_stay(m, after, i)
            &&& cleared(g)
            &&& g.trans.state is Failed && g.trans.error == Some(total) && g.held_error is None
            &&& !g.alive && g.mailbox.len() == 0
            &&& after.reports == m.reports + errors
            &&& after.tasks.len() == m.tasks.len()
            &&& after.tasks[t as int] == TaskDone::Done(Some(total))
            &&& i == 0 ==> g.stage is Exited
            &&& i != 0 ==> g.stage == (Stage::Releasing { last: None })
        }),
{
    let f0 = FiberModel { held_error: None, ..m.fibers[i as int].emptied() };
    let f = f0.with_error(Some(total)).moved(FiberState::Failed);
    let failed = (SharedModel { reports: m.reports + errors, ..m }).put(i, f).completed_opt(
        task,
        Some(total),
    ).completed_opt(f0.trans.terminal, Some(total));
    let quiet = failed.put(i, FiberModel { alive: false, mailbox: Seq::empty(), ..f });
    answers_change_tasks_only(quiet, f.mailbox, Ending::Broken(total), f.mailbox.len());
    if exists|k: int| 0 <= k < f.mailbox.len() && (#[trigger] f.mailbox[k]).joined() == Some(t) {
        let k = choose|k: int| 0 <= k < f.mailbox.len() && (#[trigger] f.mailbox[k]).joined() == Some(t);
        let l = last_request_naming(f.mailbox, f.mailbox.len(), t, k);
        answers_reach_tasks(quiet, f.mailbox, Ending::Broken(total), f.mailbox.len(), t, l);
    } else {
        answers_reach_tasks(quiet, f.mailbox, Ending::Broken(total), f.mailbox.len(), t, 0);
    }
}

proof fn last_request_naming(mail: Seq<Intent>, n: nat, task: TaskId, k: int) -> (l: int)
    requires
        0 <= k < n,
        mail[k].joined() == Some(task),
    ensures
        last_naming(mail, n, task, l),
    decreases n,
{
    if mail[n - 1].joined() == Some(task) {
        n - 1
    } else {
        last_request_naming(mail, (n - 1) as nat, task, k)
    }
}

/// A fiber that has left: its parent, if it is still there, keeps the other children
/// that are; the task of a shutdown, and that of the end which was asked for before,
/// are told the fiber's error.
pub proof fn children_leave_their_parent(m: SharedModel, i: FiberIx, c: FiberIx)
    requires
        m.wf(),
        m.has(i),
        m.fibers[i as int].stage is Releasing,
    ensures
        ({
            let after = m.released(i);
            let f = m.fibers[i as int];
            let last = f.stage->Releasing_last;
            &&& after.fibers.len() == m.fibers.len()
            &&& after.fibers[i as int].stage is Exited
            &&& m.nodes[i as int].parent matches Some(p) ==> {
                &&& m.fibers[p as int].held ==> (after.fibers[p as int].children.contains(c) <==> c
                    != i && c < m.fibers.len() && m.fibers[c as int].held
                    && m.fibers[p as int].children.contains(c))
                &&& after.fibers[p as int] == (FiberModel {
                    children: after.fibers[p as int].children,
                    ..m.fibers[p as int]
                })
            }
            &&& forall|j: int|
                0 <= j < m.fibers.len() && j != i && m.nodes[i as int].parent != Some(j as usize)
                    ==> #[trigger] after.fibers[j] == m.fibers[j]
            &&& (last matches Some(t) && t < m.tasks.len()) ==> after.tasks[last->0 as int]
                == TaskDone::Done(f.trans.error)
            &&& last is Some && (f.trans.terminal matches Some(t) && t < m.tasks.len())
                ==> after.tasks[f.trans.terminal->0 as int] == TaskDone::Done(f.trans.error)
            &&& last is None ==> after.tasks == m.tasks
        }),
{
    broadcast use vstd::seq_lib::group_filter_ensures;

    if let Some(p) = m.nodes[i as int].parent {
        assert(p < i);
        if m.fibers[p as int].held {
            let list = m.fibers[p as int].children;
            let keep = m.remains(i);
            let kept = list.filter(keep);
            if kept.contains(c) {
                list.lemma_filter_contains_rev(keep, c);
                let k = choose|k: int| 0 <= k < kept.len() && kept[k] == c;
                assert(keep(kept[k]));
            }
            if list.contains(c) && keep(c) {
                let k = choose|k: int| 0 <= k < list.len() && list[k] == c;
                assert(kept.contains(list[k]));
            }
        }
    }
}

/// Shutting the root down for a second time, and disposing of a disposed fiber: a fiber
/// that had ended before is not unloaded again.
pub proof fn ended_fibers_are_not_unloaded_again(m: SharedModel, i: FiberIx, terminal: Terminal)
    requires
        m.has(i),
        m.fibers[i as int].trans.state is Disposed,
        m.tasks.len() <= usize::MAX,
        terminal matches Terminal::Shutdown(t) ==> t < m.tasks.len(),
    ensures
        ({
            let after = m.ending(i, terminal);
            let f = m.fibers[i as int];
            let g = after.fibers[i as int];
            &&& others_stay(m, after, i)
            &&& g.trans == f.trans
            &&& g.effects == f.effects
            &&& terminal matches Terminal::Shutdown(t) ==> after.tasks[t as int]
                == TaskDone::Done(f.trans.error) && !g.alive && g.mailbox.len() == 0
            &&& terminal is Dispose && i == 0 ==> g == (FiberModel { stage: Stage::Idle, ..f })
                && told(m, after, f.trans.terminal, f.trans.error)
            &&& terminal is Dispose && i != 0 ==> !g.alive && g.mailbox.len() == 0 && g.stage == (
            Stage::Releasing { last: None })
        }),
{
    let f = m.fibers[i as int];
    let h = FiberModel { held_error: None, ..f.with_error(f.trans.error) };
    answers_change_tasks_only(
        m.put(i, h).put(i, FiberModel { alive: false, mailbox: Seq::empty(), ..h }),
        h.mailbox,
        Ending::ShutDown(f.trans.error),
        h.mailbox.len(),
    );
    let said = m.completed_opt(f.trans.terminal, f.trans.error);
    answers_change_tasks_only(
        said.put(i, FiberModel { alive: false, mailbox: Seq::empty(), ..f }),
        f.mailbox,
        Ending::Disposed(f.trans.error),
        f.mailbox.len(),
    );
}

} // verus!
