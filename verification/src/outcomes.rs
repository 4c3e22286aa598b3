//! Who completes which task: nothing but the end of a shutdown completes the
//! task that the shutdown was promised with.

use std::sync::Arc;

use crate::ctx::Ctx;
use crate::drive::{CheckReport, Ending};
use crate::effect::RecordModel;
use crate::error::CordisError;
use crate::fiber::{
    AfterDrain, Dep, FiberIx, FiberModel, FiberState, Intent, PluginId, TaskId, Terminal,
};
use crate::key::{ScopeId, TypeKey};
use crate::lifecycle::{answers_change_tasks_only, checks_change_the_registry_only};
use crate::shared::{Node, SharedModel};
use crate::spawn::{newborn, PluginSpec};
use vstd::prelude::*;

verus! {

/// The fiber will not complete the task: it is not that of its end, of what its
/// driver is at, or of a request in its mailbox.
pub open spec fn spares(f: FiberModel, task: TaskId) -> bool {
    &&& f.trans.terminal != Some(task)
    &&& f.stage.joined() != Some(task)
    &&& forall|k: int|
        0 <= k < f.mailbox.len() ==> (#[trigger] f.mailbox[k]).joined() != Some(task)
}

/// No fiber will complete the task.
pub open spec fn spared(m: SharedModel, task: TaskId) -> bool {
    forall|j: FiberIx| #[trigger] m.has(j) ==> spares(m.fiber(j), task)
}

/// Only tasks that have been opened are going to be completed.
pub open spec fn grounded(m: SharedModel) -> bool {
    forall|task: TaskId| task >= m.tasks.len() ==> #[trigger] spared(m, task)
}

/// A task that no fiber was to complete has not been completed, and still no fiber
/// is to complete it. Of the tasks that are opened on the way nothing is said.
pub open spec fn keeps(a: SharedModel, b: SharedModel, task: TaskId) -> bool {
    &&& a.tasks.len() <= b.tasks.len()
    &&& spared(a, task) && (task < a.tasks.len() || task >= b.tasks.len()) ==> {
        &&& spared(b, task)
        &&& task < a.tasks.len() ==> b.tasks[task as int] == a.tasks[task as int]
    }
}

/// The tree has moved on, and kept every task that no fiber was to complete.
pub open spec fn steady(a: SharedModel, b: SharedModel) -> bool {
    forall|task: TaskId| #[trigger] keeps(a, b, task)
}

/// Two fibers that are to complete the same tasks.
pub open spec fn aims_alike(f: FiberModel, g: FiberModel) -> bool {
    &&& f.trans.terminal == g.trans.terminal
    &&& f.stage.joined() == g.stage.joined()
    &&& f.mailbox == g.mailbox
}

/// Steady steps, one after the other, are steady, and only open tasks are going to
/// be completed after them if that was so before.
pub proof fn steadiness_adds_up(a: SharedModel, b: SharedModel, c: SharedModel)
    requires
        steady(a, b),
        steady(b, c),
    ensures
        steady(a, a),
        steady(a, c),
        grounded(a) ==> grounded(b),
{
    assert forall|task: TaskId| #[trigger] keeps(a, c, task) by {
        assert(keeps(a, b, task));
        assert(keeps(b, c, task));
    }
    if grounded(a) {
        assert forall|task: TaskId| task >= b.tasks.len() implies #[trigger] spared(b, task) by {
            assert(keeps(a, b, task));
            assert(spared(a, task));
        }
    }
}

/// In a new tree, of a root without requests, nothing is going to be completed.
pub proof fn new_trees_are_grounded(m: SharedModel)
    requires
        m.fibers.len() == 1,
        m.fiber(0) == newborn(
            m.fiber(0).id,
            m.fiber(0).name,
            m.fiber(0).source,
            m.fiber(0).config,
            m.fiber(0).declared,
            m.fiber(0).trans.state,
        ),
    ensures
        grounded(m),
{
    assert forall|task: TaskId| task >= m.tasks.len() implies #[trigger] spared(m, task) by {
        assert(spares(m.fiber(0), task));
    }
}

/// What changes neither the tasks nor what the fibers are to complete, such as a
/// service that is provided or read, an effect or an event, is steady.
pub proof fn other_changes_are_steady(a: SharedModel, b: SharedModel)
    requires
        a.tasks == b.tasks,
        a.fibers.len() == b.fibers.len(),
        forall|j: FiberIx| #[trigger] b.has(j) ==> aims_alike(a.fiber(j), b.fiber(j)),
    ensures
        steady(a, b),
{
    assert forall|task: TaskId| #[trigger] keeps(a, b, task) by {
        if spared(a, task) {
            assert forall|j: FiberIx| #[trigger] b.has(j) implies spares(b.fiber(j), task) by {
                assert(a.has(j));
            }
        }
    }
}

pub(crate) proof fn one_acts(a: SharedModel, b: SharedModel, i: FiberIx, task: TaskId)
    requires
        a.has(i),
        a.fibers.len() == b.fibers.len(),
        a.tasks.len() <= b.tasks.len(),
        forall|j: FiberIx| #[trigger] b.has(j) && j != i ==> aims_alike(a.fiber(j), b.fiber(j)),
        spares(a.fiber(i), task) && (task < a.tasks.len() || task >= b.tasks.len()) ==> {
            &&& spares(b.fiber(i), task)
            &&& task < a.tasks.len() ==> b.tasks[task as int] == a.tasks[task as int]
        },
    ensures
        keeps(a, b, task),
{
    if spared(a, task) && (task < a.tasks.len() || task >= b.tasks.len()) {
        assert forall|j: FiberIx| #[trigger] b.has(j) implies spares(b.fiber(j), task) by {
            assert(a.has(j));
        }
    }
}

pub(crate) proof fn more_mail(f: FiberModel, intent: Intent, task: TaskId)
    requires
        spares(f, task),
        intent.joined() != Some(task),
    ensures
        spares(f.posted(intent), task),
{
    let g = f.posted(intent);
    assert forall|k: int| 0 <= k < g.mailbox.len() implies (#[trigger] g.mailbox[k]).joined()
        != Some(task) by {
        if k < f.mailbox.len() {
            assert(g.mailbox[k] == f.mailbox[k]);
        }
    }
}

proof fn posting_keeps(m: SharedModel, i: FiberIx, intent: Intent, task: TaskId)
    requires
        m.has(i),
    ensures
        intent.joined() != Some(task) ==> keeps(m, m.posted(i, intent), task),
        m.posted(i, intent).tasks.len() == m.tasks.len(),
{
    if intent.joined() != Some(task) {
        if spares(m.fiber(i), task) {
            more_mail(m.fiber(i), intent, task);
        }
        one_acts(m, m.posted(i, intent), i, task);
    }
}

proof fn opening_keeps(m: SharedModel, task: TaskId)
    ensures
        keeps(m, m.with_task(), task),
{
    let n = m.with_task();
    if spared(m, task) {
        assert forall|j: FiberIx| #[trigger] n.has(j) implies spares(n.fiber(j), task) by {
            assert(m.has(j));
        }
    }
}

/// Requests are steady: they open tasks of their own, and have those completed.
pub proof fn requests_are_steady(m: SharedModel, i: FiberIx)
    requires
        m.has(i),
        m.tasks.len() < usize::MAX,
    ensures
        steady(m, m.posted(i, Intent::RefreshDeps)),
        steady(m, m.posted(i, Intent::Dispose)),
        steady(m, m.with_task().posted(i, Intent::Settle(m.tasks.len() as usize))),
        steady(m, m.disposing(i)),
        steady(m, m.restarting(i)),
{
    let fresh = m.tasks.len() as usize;
    assert forall|task: TaskId| #[trigger] keeps(m, m.posted(i, Intent::RefreshDeps), task) by {
        posting_keeps(m, i, Intent::RefreshDeps, task);
    }
    assert forall|task: TaskId| #[trigger] keeps(m, m.posted(i, Intent::Dispose), task) by {
        posting_keeps(m, i, Intent::Dispose, task);
    }
    assert forall|task: TaskId| #[trigger]
        keeps(m, m.with_task().posted(i, Intent::Settle(fresh)), task) by {
        opening_keeps(m, task);
        posting_keeps(m.with_task(), i, Intent::Settle(fresh), task);
    }
    assert forall|task: TaskId| #[trigger] keeps(m, m.disposing(i), task) by {
        let asked = m.with_task().cancelled(i).with_terminal(i, fresh);
        if spares(m.fiber(i), task) && task != fresh {
            assert(spares(asked.fiber(i), task));
            more_mail(asked.fiber(i), Intent::Dispose, task);
        }
        one_acts(m, m.disposing(i), i, task);
    }
    assert forall|task: TaskId| #[trigger] keeps(m, m.restarting(i), task) by {
        let asked = m.cancelled(i).with_task();
        if spares(m.fiber(i), task) && task != fresh {
            assert(spares(asked.fiber(i), task));
            more_mail(asked.fiber(i), Intent::Restart(fresh), task);
        }
        one_acts(m, m.restarting(i), i, task);
    }
}

proof fn telling_keeps(m: SharedModel, key: TypeKey, task: TaskId)
    ensures
        keeps(m, m.key_changed(key), task),
        m.key_changed(key).tasks == m.tasks,
{
    let n = m.key_changed(key);
    if spared(m, task) {
        assert forall|j: FiberIx| #[trigger] n.has(j) implies spares(n.fiber(j), task) by {
            assert(m.has(j));
            more_mail(m.fiber(j), Intent::RefreshDeps, task);
        }
    }
}

proof fn telling_all_keeps(
    m: SharedModel,
    provided: Seq<(TypeKey, Option<ScopeId>)>,
    n: nat,
    task: TaskId,
)
    ensures
        keeps(m, m.keys_changed(provided, n), task),
        m.keys_changed(provided, n).tasks == m.tasks,
        m.keys_changed(provided, n).fibers.len() == m.fibers.len(),
    decreases n,
{
    if n > 0 {
        telling_all_keeps(m, provided, (n - 1) as nat, task);
        telling_keeps(m.keys_changed(provided, (n - 1) as nat), provided[n - 1].0, task);
    }
}

/// Telling fibers that their dependencies changed is steady.
pub proof fn notices_are_steady(
    m: SharedModel,
    key: TypeKey,
    provided: Seq<(TypeKey, Option<ScopeId>)>,
    n: nat,
)
    ensures
        steady(m, m.key_changed(key)),
        steady(m, m.keys_changed(provided, n)),
{
    assert forall|task: TaskId| #[trigger] keeps(m, m.key_changed(key), task) by {
        telling_keeps(m, key, task);
    }
    assert forall|task: TaskId| #[trigger] keeps(m, m.keys_changed(provided, n), task) by {
        telling_all_keeps(m, provided, n, task);
    }
}

proof fn over_keeps(m: SharedModel, i: FiberIx, join: Option<TaskId>, task: TaskId)
    requires
        m.has(i),
        join != Some(task),
    ensures
        keeps(m, m.over(i, join), task),
        m.over(i, join).tasks.len() == m.tasks.len(),
{
    one_acts(m, m.over(i, join), i, task);
}

/// Looking for the dependencies and assembling are steady: they complete the task
/// of the request at hand.
pub proof fn loading_is_steady(
    m: SharedModel,
    i: FiberIx,
    reports: Seq<CheckReport>,
    record: RecordModel,
    error: Arc<CordisError>,
)
    requires
        m.has(i),
    ensures
        m.fiber(i).stage is Resolving ==> steady(
            m,
            m.noted(reports, reports.len()).resolved(i, m.fiber(i).stage.joined()),
        ),
        m.fiber(i).stage is Building ==> steady(m, m.applying(i, m.fiber(i).stage.joined())),
        m.fiber(i).stage is Building || m.fiber(i).stage is Applying ==> steady(
            m,
            m.rolling_back(i, error, m.fiber(i).stage.joined()),
        ),
        m.fiber(i).stage is Applying ==> steady(
            m,
            m.assembled(i, record, m.fiber(i).stage.joined()),
        ),
        m.fiber(i).stage is Adopting ==> steady(
            m,
            m.noted(reports, reports.len()).activated(i, m.fiber(i).stage.joined()),
        ),
{
    let f = m.fiber(i);
    let join = f.stage.joined();
    let n = m.noted(reports, reports.len());
    checks_change_the_registry_only(m, reports, reports.len());
    if f.stage is Resolving {
        assert forall|task: TaskId| #[trigger] keeps(m, n.resolved(i, join), task) by {
            one_acts(m, n.resolved(i, join), i, task);
        }
    }
    if f.stage is Building {
        assert forall|task: TaskId| #[trigger] keeps(m, m.applying(i, join), task) by {
            one_acts(m, m.applying(i, join), i, task);
        }
    }
    if f.stage is Building || f.stage is Applying {
        assert forall|task: TaskId| #[trigger] keeps(m, m.rolling_back(i, error, join), task) by {
            one_acts(m, m.rolling_back(i, error, join), i, task);
        }
    }
    if f.stage is Applying {
        assert forall|task: TaskId| #[trigger] keeps(m, m.assembled(i, record, join), task) by {
            one_acts(m, m.assembled(i, record, join), i, task);
        }
    }
    if f.stage is Adopting {
        let adopted = if n.all_ready(i) {
            FiberModel { last_deps: Some(n.all_found(i)), ..f }
        } else {
            f
        };
        let active = n.put(
            i,
            adopted.with_error(None).moved(FiberState::Active),
        );
        let told = active.keys_changed(f.provided, f.provided.len());
        assert forall|task: TaskId| #[trigger] keeps(m, n.activated(i, join), task) by {
            one_acts(m, active, i, task);
            telling_all_keeps(active, f.provided, f.provided.len(), task);
            if join != Some(task) {
                over_keeps(told, i, join, task);
            } else {
                assert(!spared(m, task)) by {
                    assert(m.has(i) && !spares(m.fiber(i), task));
                }
            }
        }
    }
}

proof fn answers_miss(m: SharedModel, mail: Seq<Intent>, ending: Ending, n: nat, task: TaskId)
    requires
        n <= mail.len(),
        forall|k: int| 0 <= k < mail.len() ==> (#[trigger] mail[k]).joined() != Some(task),
    ensures
        task < m.tasks.len() ==> m.answered(mail, ending, n).tasks[task as int]
            == m.tasks[task as int],
    decreases n,
{
    if n > 0 {
        answers_miss(m, mail, ending, (n - 1) as nat, task);
        answers_open_none(m, mail, ending, (n - 1) as nat);
        assert(mail[n - 1].joined() != Some(task));
    }
}

proof fn answers_open_none(m: SharedModel, mail: Seq<Intent>, ending: Ending, n: nat)
    ensures
        m.answered(mail, ending, n).tasks.len() == m.tasks.len(),
    decreases n,
{
    if n > 0 {
        answers_open_none(m, mail, ending, (n - 1) as nat);
    }
}

proof fn stopping_keeps(m: SharedModel, i: FiberIx, ending: Ending, task: TaskId)
    requires
        m.has(i),
    ensures
        m.stopped_driver(i, ending).tasks.len() == m.tasks.len(),
        m.stopped_driver(i, ending).fibers == m.fibers.update(
            i as int,
            FiberModel { alive: false, mailbox: Seq::empty(), ..m.fiber(i) },
        ),
        spares(m.fiber(i), task) && task < m.tasks.len() ==> m.stopped_driver(
            i,
            ending,
        ).tasks[task as int] == m.tasks[task as int],
{
    let f = m.fiber(i);
    let n = m.put(i, FiberModel { alive: false, mailbox: Seq::empty(), ..f });
    answers_change_tasks_only(n, f.mailbox, ending, f.mailbox.len());
    answers_open_none(n, f.mailbox, ending, f.mailbox.len());
    if spares(f, task) {
        answers_miss(n, f.mailbox, ending, f.mailbox.len(), task);
    }
}

proof fn disposed_keeps(m: SharedModel, i: FiberIx, task: TaskId)
    requires
        m.has(i),
    ensures
        keeps(m, m.disposed(i), task),
        m.disposed(i).tasks.len() == m.tasks.len(),
{
    let f = m.fiber(i);
    let told = m.completed_opt(f.trans.terminal, f.trans.error);
    stopping_keeps(told, i, Ending::Disposed(f.trans.error), task);
    one_acts(m, m.disposed(i), i, task);
}

proof fn shut_down_keeps(
    m: SharedModel,
    i: FiberIx,
    own: TaskId,
    error: Option<Arc<CordisError>>,
    task: TaskId,
)
    requires
        m.has(i),
    ensures
        own != task ==> keeps(m, m.shut_down(i, own, error), task),
        m.shut_down(i, own, error).tasks.len() == m.tasks.len(),
{
    let f = FiberModel { held_error: None, ..m.fiber(i).with_error(error) };
    stopping_keeps(m.put(i, f), i, Ending::ShutDown(error), task);
    if own != task {
        one_acts(m, m.shut_down(i, own, error), i, task);
    }
}

proof fn ending_keeps(m: SharedModel, i: FiberIx, terminal: Terminal, task: TaskId)
    requires
        m.has(i),
    ensures
        terminal != Terminal::Shutdown(task) ==> keeps(m, m.ending(i, terminal), task),
        m.ending(i, terminal).tasks.len() == m.tasks.len(),
{
    let f = m.fiber(i);
    if f.state() is Disposed {
        match terminal {
            Terminal::Dispose => disposed_keeps(m, i, task),
            Terminal::Shutdown(own) => shut_down_keeps(m, i, own, f.trans.error, task),
        }
    } else if terminal != Terminal::Shutdown(task) {
        one_acts(m, m.ending(i, terminal), i, task);
    }
}

/// The end of the callbacks in flight, of the cleanups and of the release of a
/// fiber is steady, and so is a driver's breakdown: they complete the task of the
/// request at hand, that of the fiber's end and those of its mailbox.
pub proof fn ends_are_steady(
    m: SharedModel,
    i: FiberIx,
    error: Option<Arc<CordisError>>,
    merged: Option<Arc<CordisError>>,
    errors: Seq<Arc<CordisError>>,
    total: Arc<CordisError>,
)
    requires
        m.has(i),
        m.wf(),
    ensures
        m.fiber(i).stage is Flights ==> steady(m, m.ending(i, m.fiber(i).stage->Flights_0)),
        m.fiber(i).stage is Draining ==> steady(
            m,
            m.unloaded(
                i,
                m.fiber(i).stage->Draining_after,
                m.fiber(i).stage->Draining_join,
                error,
                merged,
            ),
        ),
        m.fiber(i).stage is RollingBack ==> steady(
            m,
            m.rolled_back(i, errors, total, m.fiber(i).stage.joined()),
        ),
        m.fiber(i).stage is Recovering ==> steady(
            m,
            m.recovered(i, errors, total, m.fiber(i).stage.joined()),
        ),
        m.fiber(i).stage is Releasing ==> steady(m, m.released(i)),
        steady(m, m.broken(i, total)),
{
    let f = m.fiber(i);
    if f.stage is Flights {
        let terminal = f.stage->Flights_0;
        assert forall|task: TaskId| #[trigger] keeps(m, m.ending(i, terminal), task) by {
            ending_keeps(m, i, terminal, task);
            assert(m.has(i));
        }
    }
    if f.stage is Draining {
        draining_is_steady(m, i, error, merged);
    }
    if f.stage is RollingBack {
        let join = f.stage.joined();
        assert forall|task: TaskId| #[trigger]
            keeps(m, m.rolled_back(i, errors, total, join), task) by {
            one_acts(m, m.rolled_back(i, errors, total, join), i, task);
        }
    }
    if f.stage is Recovering {
        let own = f.stage.joined();
        let g = FiberModel { held_error: None, ..f.emptied() }.with_error(Some(total));
        let failed = SharedModel { reports: m.reports + errors, ..m }.put(
            i,
            g.moved(FiberState::Failed),
        ).completed_opt(own, Some(total)).completed_opt(g.trans.terminal, Some(total));
        assert forall|task: TaskId| #[trigger]
            keeps(m, m.recovered(i, errors, total, own), task) by {
            stopping_keeps(failed, i, Ending::Broken(total), task);
            one_acts(m, m.recovered(i, errors, total, own), i, task);
        }
    }
    if f.stage is Releasing {
        assert forall|task: TaskId| #[trigger] keeps(m, m.released(i), task) by {
            one_acts(m, m.released(i), i, task);
        }
    }
    assert forall|task: TaskId| #[trigger] keeps(m, m.broken(i, total), task) by {
        one_acts(m, m.broken(i, total), i, task);
    }
}

proof fn draining_is_steady(
    m: SharedModel,
    i: FiberIx,
    error: Option<Arc<CordisError>>,
    merged: Option<Arc<CordisError>>,
)
    requires
        m.has(i),
        m.fiber(i).stage is Draining,
    ensures
        steady(
            m,
            m.unloaded(
                i,
                m.fiber(i).stage->Draining_after,
                m.fiber(i).stage->Draining_join,
                error,
                merged,
            ),
        ),
{
    let after = m.fiber(i).stage->Draining_after;
    let join = m.fiber(i).stage->Draining_join;
    let f = m.fiber(i).emptied();
    let pending = m.reported(error).put(i, f.moved(FiberState::Pending));
    let ended = m.put(i, f.with_error(error).moved(FiberState::Disposed));
    let b = m.unloaded(i, after, join, error, merged);
    assert forall|task: TaskId| #[trigger] keeps(m, b, task) by {
        assert(m.has(i));
        one_acts(m, pending, i, task);
        one_acts(m, ended, i, task);
        match after {
            AfterDrain::End(Terminal::Dispose) => disposed_keeps(ended, i, task),
            AfterDrain::End(Terminal::Shutdown(own)) => {
                shut_down_keeps(ended, i, own, merged, task);
            },
            _ => {
                one_acts(m, b, i, task);
            },
        }
    }
}

/// Taking a request is steady.
pub proof fn taking_a_request_is_steady(m: SharedModel, i: FiberIx)
    requires
        m.has(i),
        m.fiber(i).stage is Idle,
        m.fiber(i).mailbox.len() > 0,
    ensures
        steady(m, m.took(i)),
{
    let f = m.fiber(i);
    let intent = f.mailbox[0];
    let n = m.put(i, FiberModel { mailbox: f.mailbox.drop_first(), ..f });
    assert forall|task: TaskId| #[trigger] keeps(m, m.took(i), task) by {
        if spares(f, task) {
            assert(f.mailbox[0].joined() != Some(task));
            assert forall|k: int| 0 <= k < n.fiber(i).mailbox.len() implies (
            #[trigger] n.fiber(i).mailbox[k]).joined() != Some(task) by {
                assert(n.fiber(i).mailbox[k] == f.mailbox[k + 1]);
            }
            assert(spares(n.fiber(i), task));
        }
        one_acts(m, n, i, task);
        match intent {
            Intent::Dispose => {
                if !f.closing {
                    ending_keeps(n, i, Terminal::Dispose, task);
                } else {
                    one_acts(m, m.took(i), i, task);
                }
            },
            _ => {
                one_acts(m, m.took(i), i, task);
            },
        }
    }
}

/// A birth is steady.
pub proof fn births_are_steady(m: SharedModel, ctx: Ctx, node: Node, spec: PluginSpec)
    requires
        m.has(ctx.node.fiber),
        m.tasks.len() < usize::MAX,
    ensures
        steady(m, m.born(ctx, node, spec)),
{
    let b = m.born(ctx, node, spec);
    let ix = m.fibers.len() as usize;
    if !m.barren(ctx) {
        let p = ctx.node.fiber;
        let placed = m.with_node(
            node,
            newborn(
                PluginId((m.fibers.len() + 1) as u64),
                spec.name@,
                spec.source,
                spec.config,
                spec.injects@,
                FiberState::Pending,
            ),
        ).put(p, FiberModel { children: m.fiber(p).children.push(ix), ..m.fiber(p) });
        injecting_changes_the_registry_only(placed, ix, spec.injects@.len());
    }
    assert forall|task: TaskId| #[trigger] keeps(m, b, task) by {
        if spared(m, task) && (task < m.tasks.len() || task >= b.tasks.len()) {
            assert forall|j: FiberIx| #[trigger] b.has(j) implies spares(b.fiber(j), task) by {
                if j < m.fibers.len() {
                    assert(m.has(j));
                }
            }
        }
    }
}

proof fn injecting_changes_the_registry_only(m: SharedModel, ix: FiberIx, n: nat)
    ensures
        m.injecting(ix, n) == (SharedModel { registry: m.injecting(ix, n).registry, ..m }),
    decreases n,
{
    if n > 0 {
        injecting_changes_the_registry_only(m, ix, (n - 1) as nat);
    }
}

/// Evicting the consumers of a service is steady.
pub proof fn evictions_are_steady(m: SharedModel, dep: Dep, n: nat)
    requires
        n <= m.fibers.len(),
        m.fibers.len() <= usize::MAX,
        m.tasks.len() + n <= usize::MAX,
    ensures
        steady(m, m.evicted(dep, n).0),
        m.evicted(dep, n).0.fibers.len() == m.fibers.len(),
        m.evicted(dep, n).0.tasks.len() <= m.tasks.len() + n,
    decreases n,
{
    if n > 0 {
        evictions_are_steady(m, dep, (n - 1) as nat);
        let before = m.evicted(dep, (n - 1) as nat).0;
        let after = m.evicted(dep, n).0;
        let j = (n - 1) as usize;
        let fresh = before.tasks.len() as usize;
        let cancelled = before.put(j, FiberModel { cancelled: true, ..before.fiber(j) });
        assert forall|task: TaskId| #[trigger] keeps(before, after, task) by {
            if spares(before.fiber(j), task) && task != fresh {
                assert(spares(cancelled.fiber(j), task));
                more_mail(cancelled.fiber(j), Intent::RefreshDepsJoin(fresh), task);
            }
            one_acts(before, after, j, task);
        }
        steadiness_adds_up(m, before, after);
    } else {
        other_changes_are_steady(m, m);
    }
}

/// The shutdown of the root is steady.
pub proof fn closing_the_root_is_steady(m: SharedModel, after: SharedModel)
    requires
        m.has(0),
        m.tasks.len() < usize::MAX,
        ({
            let task = m.tasks.len() as usize;
            let opened = SharedModel { closing: true, shutdown_task: Some(task), ..m.with_task() };
            after == if m.fiber(0).held {
                opened.cancelled(0).posted(0, Intent::Shutdown(task))
            } else {
                opened.completed(task, Some(Arc::new(CordisError::Closed)))
            }
        }),
    ensures
        steady(m, after),
{
    let fresh = m.tasks.len() as usize;
    let opened = SharedModel { closing: true, shutdown_task: Some(fresh), ..m.with_task() };
    assert forall|task: TaskId| #[trigger] keeps(m, after, task) by {
        if spares(m.fiber(0), task) && task != fresh {
            assert(spares(opened.cancelled(0).fiber(0), task));
            more_mail(opened.cancelled(0).fiber(0), Intent::Shutdown(fresh), task);
        }
        one_acts(m, after, 0, task);
    }
}

} // verus!
