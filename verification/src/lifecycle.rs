//! What holds of a fiber through all of its life.

use std::sync::Arc;

use crate::ctx::scope_seen;
use crate::diagnostics::DependencyStatus;
use crate::drive::{CheckReport, Ending};
use crate::effect::RecordModel;
use crate::error::CordisError;
use crate::fiber::{
    same_deps, AfterDrain, Dep, FiberIx, FiberModel, FiberState, FiberStatusChanged, Intent, Stage,
    TaskId, Terminal, TransModel,
};
use crate::key::{ScopeId, TypeKey};
use crate::shared::SharedModel;
use crate::spawn::{newborn, stillborn};
use vstd::prelude::*;

verus! {

/// The ways between the six states. Only the root comes back from being disposed
/// of.
pub open spec fn legal(from: FiberState, to: FiberState, root: bool) -> bool {
    match from {
        FiberState::Pending => to is Loading || to is Unloading,
        FiberState::Loading => to is Active || to is Unloading,
        FiberState::Active => to is Unloading,
        FiberState::Failed => to is Unloading,
        FiberState::Unloading => to is Pending || to is Failed || to is Disposed,
        FiberState::Disposed => root && to is Active,
    }
}

/// A change goes on from the one before it.
pub open spec fn goes_on(queue: Seq<FiberStatusChanged>, k: int) -> bool {
    queue[k].from == queue[k - 1].to && queue[k].seq == queue[k - 1].seq + 1
}

/// The changes that a fiber has queued: each is a legal one of this fiber, each
/// goes on from the one before it, and the last one led to where the fiber is.
pub open spec fn told(f: FiberModel, root: bool) -> bool {
    let queue = f.trans.queue;
    &&& forall|k: int|
        0 <= k < queue.len() ==> (#[trigger] queue[k]).plugin_id == f.id && legal(
            queue[k].from,
            queue[k].to,
            root,
        )
    &&& forall|k: int| 0 < k < queue.len() ==> #[trigger] goes_on(queue, k)
    &&& queue.len() > 0 ==> queue.last().to == f.trans.state && queue.last().seq == f.trans.seq
}

/// The states that a fiber can be in while its driver stands at a stage.
pub open spec fn fits(stage: Stage, state: FiberState) -> bool {
    match stage {
        Stage::Idle | Stage::Flights(_) => state is Pending || state is Active || state is Failed
            || state is Disposed,
        Stage::Resolving { .. } => state is Pending || state is Active || state is Failed,
        Stage::Building { .. } | Stage::Applying { .. } | Stage::Adopting { .. } => state is Loading,
        Stage::RollingBack { .. } | Stage::Draining { .. } | Stage::Recovering { .. } => state is Unloading,
        Stage::Releasing { .. } | Stage::Exited => state is Disposed || state is Failed,
    }
}

/// A fiber whose state fits the stage of its driver, and whose queued changes
/// tell how it got there.
pub open spec fn sound(f: FiberModel, root: bool) -> bool {
    fits(f.stage, f.trans.state) && told(f, root)
}

/// All fibers are sound.
pub open spec fn all_sound(m: SharedModel) -> bool {
    forall|j: FiberIx| #[trigger] m.has(j) ==> sound(m.fiber(j), j == 0)
}

/// Two fibers that stand at the same point of their lives.
pub open spec fn same_life(f: FiberModel, g: FiberModel) -> bool {
    f.id == g.id && f.stage == g.stage && f.trans.state == g.trans.state && f.trans.queue
        == g.trans.queue && f.trans.seq == g.trans.seq && f.trans.generation == g.trans.generation
}

/// Every fiber stands where it stood, and is where it was.
pub open spec fn undisturbed(a: SharedModel, b: SharedModel) -> bool {
    &&& a.nodes == b.nodes
    &&& a.fibers.len() == b.fibers.len()
    &&& forall|j: FiberIx| #[trigger] a.has(j) ==> same_life(a.fiber(j), b.fiber(j))
}

proof fn moving(f: FiberModel, new: FiberState, root: bool)
    requires
        told(f, root),
        f.trans.seq < u64::MAX,
        f.trans.state == new || legal(f.trans.state, new, root),
    ensures
        told(f.moved(new), root),
{
    if f.trans.state != new {
        let before = f.trans.queue;
        let queue = f.moved(new).trans.queue;
        assert forall|k: int| 0 <= k < queue.len() implies (#[trigger] queue[k]).plugin_id == f.id
            && legal(queue[k].from, queue[k].to, root) by {
            if k < before.len() {
                assert(queue[k] == before[k]);
            }
        }
        assert forall|k: int| 0 < k < queue.len() implies #[trigger] goes_on(queue, k) by {
            if k < before.len() {
                assert(goes_on(before, k));
            }
        }
    }
}

proof fn undisturbed_is_sound(a: SharedModel, b: SharedModel)
    requires
        all_sound(a),
        undisturbed(a, b),
    ensures
        all_sound(b),
{
    assert forall|j: FiberIx| #[trigger] b.has(j) implies sound(b.fiber(j), j == 0) by {
        assert(a.has(j));
    }
}

proof fn one_is_sound(a: SharedModel, b: SharedModel, i: FiberIx)
    requires
        all_sound(a),
        a.has(i),
        a.fibers.len() == b.fibers.len(),
        forall|j: FiberIx|
            #[trigger] b.has(j) && j != i ==> same_life(a.fiber(j), b.fiber(j)),
        sound(b.fiber(i), i == 0),
    ensures
        all_sound(b),
{
    assert forall|j: FiberIx| #[trigger] b.has(j) implies sound(b.fiber(j), j == 0) by {
        assert(a.has(j));
    }
}

pub(crate) proof fn answers_change_tasks_only(
    m: SharedModel,
    mail: Seq<Intent>,
    ending: Ending,
    n: nat,
)
    ensures
        m.answered(mail, ending, n) == (SharedModel {
            tasks: m.answered(mail, ending, n).tasks,
            ..m
        }),
    decreases n,
{
    if n > 0 {
        answers_change_tasks_only(m, mail, ending, (n - 1) as nat);
    }
}

proof fn notices_change_mailboxes_only(
    m: SharedModel,
    provided: Seq<(TypeKey, Option<ScopeId>)>,
    n: nat,
)
    ensures
        undisturbed(m, m.keys_changed(provided, n)),
    decreases n,
{
    if n > 0 {
        notices_change_mailboxes_only(m, provided, (n - 1) as nat);
        let before = m.keys_changed(provided, (n - 1) as nat);
        let after = m.keys_changed(provided, n);
        assert forall|j: FiberIx| #[trigger] m.has(j) implies same_life(
            m.fiber(j),
            after.fiber(j),
        ) by {
            assert(same_life(m.fiber(j), before.fiber(j)));
        }
    }
}

pub(crate) proof fn checks_change_the_registry_only(m: SharedModel, reports: Seq<CheckReport>, n: nat)
    ensures
        m.noted(reports, n) == (SharedModel { registry: m.noted(reports, n).registry, ..m }),
    decreases n,
{
    if n > 0 {
        checks_change_the_registry_only(m, reports, (n - 1) as nat);
    }
}

/// Fibers are born sound.
pub proof fn fibers_are_born_sound(f: FiberModel, task: TaskId, root: bool)
    requires
        f == newborn(f.id, f.name, f.source, f.config, f.declared, f.trans.state),
        f.trans.state is Pending || f.trans.state is Active,
    ensures
        sound(f, root),
        sound(stillborn(f.id, task), false),
{
}

/// Requests and notices change no fiber's state: only its driver does.
pub proof fn requests_change_no_state(
    m: SharedModel,
    i: FiberIx,
    intent: Intent,
    provided: Seq<(TypeKey, Option<ScopeId>)>,
)
    requires
        m.has(i),
    ensures
        undisturbed(m, m.posted(i, intent)),
        undisturbed(m, m.disposing(i)),
        undisturbed(m, m.restarting(i)),
        undisturbed(m, m.keys_changed(provided, provided.len())),
{
    notices_change_mailboxes_only(m, provided, provided.len());
}

proof fn refreshing_is_sound(m: SharedModel, i: FiberIx, join: Option<TaskId>)
    requires
        m.has(i),
        all_sound(m),
        m.fiber(i).state() is Pending || m.fiber(i).state() is Active || m.fiber(i).state() is Failed
            || m.fiber(i).state() is Disposed,
    ensures
        all_sound(m.refreshing(i, join)),
        m.refreshing(i, join).nodes == m.nodes,
{
    one_is_sound(m, m.refreshing(i, join), i);
}

proof fn loading_is_sound(m: SharedModel, i: FiberIx, join: Option<TaskId>)
    requires
        m.has(i),
        all_sound(m),
        m.fiber(i).state() is Pending,
        m.fiber(i).trans.seq < u64::MAX,
    ensures
        all_sound(m.loading(i, join)),
        m.loading(i, join).nodes == m.nodes,
{
    let f = m.fiber(i);
    let g = FiberModel {
        cancelled: false,
        accesses: Seq::empty(),
        trans: TransModel {
            generation: (f.trans.generation + 1) as u64,
            error: None,
            ..f.trans
        },
        ..f
    };
    moving(g, FiberState::Loading, i == 0);
    one_is_sound(m, m.loading(i, join), i);
}

proof fn unloading_is_sound(m: SharedModel, i: FiberIx, f: FiberModel, stage: Stage, b: SharedModel)
    requires
        m.has(i),
        all_sound(m),
        same_life(m.fiber(i), f),
        !(f.state() is Disposed),
        f.trans.seq < u64::MAX,
        fits(stage, FiberState::Unloading),
        b.fibers.len() == m.fibers.len(),
        same_life(b.fiber(i), f.unloading(stage)),
        forall|j: FiberIx| #[trigger] b.has(j) && j != i ==> same_life(m.fiber(j), b.fiber(j)),
    ensures
        all_sound(b),
{
    assert(told(f, i == 0));
    moving(f, FiberState::Unloading, i == 0);
    assert(told(b.fiber(i), i == 0));
    one_is_sound(m, b, i);
}

/// A fiber comes to be loaded only when all of its declared dependencies are
/// ready; without them one that is running is unloaded, and any other stays as
/// it is. With the dependencies that it has already nothing happens.
pub proof fn dependencies_gate_loading(m: SharedModel, i: FiberIx, join: Option<TaskId>)
    requires
        m.has(i),
        m.fiber(i).stage is Resolving,
        fits(m.fiber(i).stage, m.fiber(i).state()),
    ensures
        m.resolved(i, join).fiber(i).state() is Loading ==> m.all_ready(i),
        !m.all_ready(i) && m.fiber(i).state() is Active ==> m.resolved(i, join).fiber(
            i,
        ).state() is Unloading,
        !m.all_ready(i) && !(m.fiber(i).state() is Active) ==> m.resolved(i, join).fiber(
            i,
        ).trans == m.fiber(i).trans,
        m.fiber(i).last_deps matches Some(last) && same_deps(last, m.all_found(i)) && m.all_ready(i)
            ==> m.resolved(i, join).fiber(i).trans == m.fiber(i).trans,
{
}

/// Looking at the dependencies keeps all fibers sound.
pub proof fn resolving_keeps_fibers_sound(
    m: SharedModel,
    i: FiberIx,
    reports: Seq<CheckReport>,
    join: Option<TaskId>,
)
    requires
        m.has(i),
        all_sound(m),
        m.fiber(i).stage is Resolving,
        m.fiber(i).has_room(),
    ensures
        all_sound(m.noted(reports, reports.len()).resolved(i, join)),
        m.noted(reports, reports.len()).resolved(i, join).nodes == m.nodes,
{
    checks_change_the_registry_only(m, reports, reports.len());
    let n = m.noted(reports, reports.len());
    undisturbed_is_sound(m, n);
    let f = n.fiber(i);
    let after = n.resolved(i, join);
    if after.fiber(i).trans == f.trans {
        one_is_sound(n, after, i);
    } else if !n.all_ready(i) {
        unloading_is_sound(
            n,
            i,
            f,
            Stage::Draining { after: AfterDrain::Settle, join },
            after,
        );
    } else {
        let next = n.put(i, FiberModel { next_deps: n.all_found(i), ..f });
        undisturbed_is_sound(n, next);
        if f.state() is Pending {
            loading_is_sound(next, i, join);
        } else {
            unloading_is_sound(
                next,
                i,
                next.fiber(i),
                Stage::Draining { after: AfterDrain::Load, join },
                after,
            );
        }
    }
}

/// Assembling keeps all fibers sound, however it ends.
pub proof fn assembling_keeps_fibers_sound(
    m: SharedModel,
    i: FiberIx,
    error: Arc<CordisError>,
    record: RecordModel,
    reports: Seq<CheckReport>,
    join: Option<TaskId>,
)
    requires
        m.has(i),
        all_sound(m),
        m.fiber(i).has_room(),
    ensures
        m.fiber(i).stage is Building ==> all_sound(m.applying(i, join)) && all_sound(
            m.rolling_back(i, error, join),
        ),
        m.fiber(i).stage is Applying ==> all_sound(m.assembled(i, record, join)) && all_sound(
            m.rolling_back(i, error, join),
        ),
        m.fiber(i).stage is Adopting ==> all_sound(
            m.noted(reports, reports.len()).activated(i, join),
        ),
{
    let f = m.fiber(i);
    if f.stage is Building || f.stage is Applying {
        unloading_is_sound(
            m,
            i,
            f,
            Stage::RollingBack { join },
            m.rolling_back(i, error, join),
        );
        if f.stage is Building {
            one_is_sound(m, m.applying(i, join), i);
        } else {
            let after = m.assembled(i, record, join);
            if f.closing {
                unloading_is_sound(
                    m,
                    i,
                    f,
                    Stage::Draining { after: AfterDrain::LateClose, join },
                    after,
                );
            } else {
                one_is_sound(m, after, i);
            }
        }
    }
    if f.stage is Adopting {
        checks_change_the_registry_only(m, reports, reports.len());
        let n = m.noted(reports, reports.len());
        undisturbed_is_sound(m, n);
        let adopted = if n.all_ready(i) {
            FiberModel { last_deps: Some(n.all_found(i)), ..f }
        } else {
            f
        };
        let g = adopted.with_error(None);
        moving(g, FiberState::Active, i == 0);
        let active = n.put(i, g.moved(FiberState::Active));
        notices_change_mailboxes_only(active, f.provided, f.provided.len());
        let told_all = active.keys_changed(f.provided, f.provided.len());
        assert(active.has(i));
        assert forall|j: FiberIx| #[trigger] told_all.over(i, join).has(j) && j != i implies same_life(
            n.fiber(j),
            told_all.over(i, join).fiber(j),
        ) by {
            assert(active.has(j));
        }
        one_is_sound(n, told_all.over(i, join), i);
    }
}

proof fn stopping(m: SharedModel, i: FiberIx, ending: Ending)
    requires
        m.has(i),
    ensures
        m.stopped_driver(i, ending).fibers == m.fibers.update(
            i as int,
            FiberModel { alive: false, mailbox: Seq::empty(), ..m.fiber(i) },
        ),
        m.stopped_driver(i, ending).nodes == m.nodes,
{
    let f = m.fiber(i);
    answers_change_tasks_only(
        m.put(i, FiberModel { alive: false, mailbox: Seq::empty(), ..f }),
        f.mailbox,
        ending,
        f.mailbox.len(),
    );
}

proof fn ended_is_sound(m: SharedModel, i: FiberIx, task: TaskId, error: Option<Arc<CordisError>>)
    requires
        m.has(i),
        forall|j: FiberIx| #[trigger] m.has(j) && j != i ==> sound(m.fiber(j), j == 0),
        told(m.fiber(i), i == 0),
        m.fiber(i).state() is Disposed,
    ensures
        all_sound(m.disposed(i)),
        all_sound(m.shut_down(i, task, error)),
        m.disposed(i).nodes == m.nodes,
        m.shut_down(i, task, error).nodes == m.nodes,
{
    let f = m.fiber(i);
    let told_all = m.completed_opt(f.trans.terminal, f.trans.error);
    stopping(told_all, i, Ending::Disposed(f.trans.error));
    let closed = m.put(i, FiberModel { held_error: None, ..f.with_error(error) });
    stopping(closed, i, Ending::ShutDown(error));
    let a = m.disposed(i);
    let b = m.shut_down(i, task, error);
    assert(same_life(f.at(a.fiber(i).stage), a.fiber(i)));
    assert(same_life(f.at(b.fiber(i).stage), b.fiber(i)));
    assert(sound(a.fiber(i), i == 0));
    assert(sound(b.fiber(i), i == 0));
    assert forall|j: FiberIx| #[trigger] a.has(j) implies sound(a.fiber(j), j == 0) by {
        assert(m.has(j));
    }
    assert forall|j: FiberIx| #[trigger] b.has(j) implies sound(b.fiber(j), j == 0) by {
        assert(m.has(j));
    }
}

/// Unloading keeps all fibers sound, whatever comes after it.
pub proof fn unloading_keeps_fibers_sound(
    m: SharedModel,
    i: FiberIx,
    error: Option<Arc<CordisError>>,
    merged: Option<Arc<CordisError>>,
)
    requires
        m.has(i),
        all_sound(m),
        m.fiber(i).stage is Draining,
        m.fiber(i).has_room(),
    ensures
        all_sound(
            m.unloaded(
                i,
                m.fiber(i).stage->Draining_after,
                m.fiber(i).stage->Draining_join,
                error,
                merged,
            ),
        ),
{
    let after = m.fiber(i).stage->Draining_after;
    let join = m.fiber(i).stage->Draining_join;
    let f = m.fiber(i).emptied();
    let g = f.with_error(error);
    moving(f, FiberState::Pending, i == 0);
    moving(g, FiberState::Disposed, i == 0);
    let pending = m.reported(error).put(i, f.moved(FiberState::Pending));
    let ended = m.put(i, g.moved(FiberState::Disposed));
    let idle = pending.at(i, Stage::Idle);
    one_is_sound(m, idle, i);
    match after {
        AfterDrain::Settle => {
            one_is_sound(idle, pending.over(i, join), i);
        },
        AfterDrain::Load => {
            loading_is_sound(idle, i, join);
            let next = pending.loading(i, join);
            assert(same_life(idle.loading(i, join).fiber(i), next.fiber(i)));
            assert(idle.loading(i, join).has(i));
            one_is_sound(idle, pending.loading(i, join), i);
        },
        AfterDrain::Refresh => {
            refreshing_is_sound(idle, i, join);
            one_is_sound(idle, pending.refreshing(i, join), i);
        },
        AfterDrain::LateClose => {
            one_is_sound(m, ended.over(i, join), i);
        },
        AfterDrain::End(terminal) => {
            assert forall|j: FiberIx| #[trigger] ended.has(j) && j != i implies sound(
                ended.fiber(j),
                j == 0,
            ) by {
                assert(m.has(j));
            }
            match terminal {
                Terminal::Dispose => ended_is_sound(ended, i, 0, merged),
                Terminal::Shutdown(task) => ended_is_sound(ended, i, task, merged),
            }
        },
    }
}

proof fn ending_is_sound(m: SharedModel, i: FiberIx, terminal: Terminal)
    requires
        m.has(i),
        all_sound(m),
        m.fiber(i).stage is Idle || m.fiber(i).stage is Flights,
        m.fiber(i).has_room(),
    ensures
        all_sound(m.ending(i, terminal)),
{
    let f = m.fiber(i);
    if f.state() is Disposed {
        let task = match terminal {
            Terminal::Dispose => 0,
            Terminal::Shutdown(task) => task,
        };
        ended_is_sound(m, i, task, f.trans.error);
    } else {
        unloading_is_sound(
            m,
            i,
            f,
            Stage::Draining { after: AfterDrain::End(terminal), join: None },
            m.ending(i, terminal),
        );
    }
}

/// Ending keeps all fibers sound.
pub proof fn endings_keep_fibers_sound(m: SharedModel, i: FiberIx)
    requires
        m.has(i),
        all_sound(m),
        m.fiber(i).stage is Flights,
        m.fiber(i).has_room(),
    ensures
        all_sound(m.ending(i, m.fiber(i).stage->Flights_0)),
{
    ending_is_sound(m, i, m.fiber(i).stage->Flights_0);
}

/// Taking a request keeps all fibers sound.
pub proof fn requests_keep_fibers_sound(m: SharedModel, i: FiberIx)
    requires
        m.has(i),
        all_sound(m),
        m.fiber(i).stage is Idle,
        m.fiber(i).mailbox.len() > 0,
        m.fiber(i).has_room(),
    ensures
        all_sound(m.took(i)),
{
    let f = m.fiber(i);
    let n = m.put(i, FiberModel { mailbox: f.mailbox.drop_first(), ..f });
    undisturbed_is_sound(m, n);
    match f.mailbox[0] {
        Intent::RefreshDeps => refreshing_is_sound(n, i, None),
        Intent::RefreshDepsJoin(task) => refreshing_is_sound(n, i, Some(task)),
        Intent::Settle(task) => {
            undisturbed_is_sound(n, m.took(i));
        },
        Intent::Restart(task) => {
            if n.shut(i) {
                undisturbed_is_sound(n, m.took(i));
            } else if f.state() is Disposed {
                if i == 0 {
                    let g = FiberModel {
                        cancelled: false,
                        trans: TransModel {
                            error: None,
                            terminal: None,
                            ..f.trans
                        },
                        ..n.fiber(0)
                    };
                    moving(g, FiberState::Active, true);
                    one_is_sound(n, m.took(i), i);
                } else {
                    undisturbed_is_sound(n, m.took(i));
                }
            } else if f.state() is Pending {
                refreshing_is_sound(n, i, Some(task));
            } else {
                unloading_is_sound(
                    n,
                    i,
                    n.fiber(i),
                    Stage::Draining { after: AfterDrain::Refresh, join: Some(task) },
                    m.took(i),
                );
            }
        },
        Intent::Dispose => {
            if f.closing {
                one_is_sound(n, m.took(i), i);
            } else {
                ending_is_sound(n, i, Terminal::Dispose);
            }
        },
        Intent::Shutdown(task) => {
            one_is_sound(n, m.took(i), i);
        },
    }
}

/// A failed assembly that has been undone, and a broken driver that has been
/// cleared away, leave all fibers sound.
pub proof fn failures_keep_fibers_sound(
    m: SharedModel,
    i: FiberIx,
    errors: Seq<Arc<CordisError>>,
    total: Arc<CordisError>,
    join: Option<TaskId>,
)
    requires
        m.has(i),
        all_sound(m),
        m.fiber(i).has_room(),
    ensures
        m.fiber(i).stage is RollingBack ==> all_sound(m.rolled_back(i, errors, total, join)),
        m.fiber(i).stage is Recovering ==> all_sound(m.recovered(i, errors, total, join)),
        m.fiber(i).stage is Releasing && m.wf() ==> all_sound(m.released(i)),
{
    let f = m.fiber(i);
    if f.stage is RollingBack || f.stage is Recovering {
        let g = FiberModel { held_error: None, ..f.emptied() }.with_error(Some(total));
        moving(g, FiberState::Failed, i == 0);
        if f.stage is RollingBack {
            one_is_sound(m, m.rolled_back(i, errors, total, join), i);
        } else {
            let failed = SharedModel { reports: m.reports + errors, ..m }.put(
                i,
                g.moved(FiberState::Failed),
            ).completed_opt(join, Some(total)).completed_opt(g.trans.terminal, Some(total));
            stopping(failed, i, Ending::Broken(total));
            let after = m.recovered(i, errors, total, join);
            assert(same_life(g.moved(FiberState::Failed).at(after.fiber(i).stage), after.fiber(i)));
            one_is_sound(m, after, i);
        }
    }
    if f.stage is Releasing && m.wf() {
        one_is_sound(m, m.released(i), i);
    }
}

/// A driver that breaks down leaves all fibers sound. A fiber that has been
/// disposed of already is left out: its state goes back to unloading then.
pub proof fn breakdowns_keep_fibers_sound(m: SharedModel, i: FiberIx, error: Arc<CordisError>)
    requires
        m.has(i),
        all_sound(m),
        m.fiber(i).has_room(),
        !(m.fiber(i).state() is Disposed),
    ensures
        all_sound(m.broken(i, error)),
        m.broken(i, error).fiber(i).stage == (Stage::Recovering {
            task: m.fiber(i).stage.joined(),
        }),
{
    moving(m.fiber(i), FiberState::Unloading, i == 0);
    one_is_sound(m, m.broken(i, error), i);
}

/// A fiber that was disposed of stays so, whatever is asked of it. Only the root
/// can be restarted.
pub proof fn disposed_fibers_stay_disposed(m: SharedModel, i: FiberIx)
    requires
        m.has(i),
        i != 0,
        m.fiber(i).stage is Idle,
        m.fiber(i).state() is Disposed,
        m.fiber(i).mailbox.len() > 0,
    ensures
        m.took(i).fiber(i).state() is Disposed,
        m.took(i).fiber(i).trans.queue == m.fiber(i).trans.queue,
{
    let f = m.fiber(i);
    let n = m.put(i, FiberModel { mailbox: f.mailbox.drop_first(), ..f });
    let told_all = n.completed_opt(f.trans.terminal, f.trans.error);
    stopping(told_all, i, Ending::Disposed(f.trans.error));
}

/// Unloading hands over every cleanup of the fiber, once, the last registered
/// first, and leaves none behind.
pub proof fn unloading_hands_over_each_cleanup_once(f: FiberModel, stage: Stage)
    ensures
        f.unloading(stage).effects.len() == 0,
        f.unloading(stage).draining.len() == f.effects.len(),
        forall|k: int|
            0 <= k < f.effects.len() ==> #[trigger] f.unloading(stage).draining[k]
                == f.effects[f.effects.len() - 1 - k],
{
}

/// A failed fiber stays failed, with its error, when it is told to look at its
/// dependencies again while one of them is missing, or all are ready and the same
/// as at its last load.
pub proof fn failed_fibers_are_not_retried(m: SharedModel, i: FiberIx, join: Option<TaskId>)
    requires
        m.has(i),
        m.fiber(i).state() is Failed,
        !m.all_ready(i) || (m.fiber(i).last_deps matches Some(last) && same_deps(
            last,
            m.all_found(i),
        )),
    ensures
        m.resolved(i, join).fiber(i).state() is Failed,
        m.resolved(i, join).fiber(i).trans.error == m.fiber(i).trans.error,
{
}

/// A failed fiber whose dependencies are ready, and which holds none from an
/// earlier load or no longer the same ones, is loaded again when it is told to
/// look at them.
pub proof fn ready_dependencies_retry_a_failed_fiber(
    m: SharedModel,
    i: FiberIx,
    join: Option<TaskId>,
)
    requires
        m.has(i),
        m.fiber(i).state() is Failed,
        m.all_ready(i),
        m.fiber(i).last_deps matches Some(last) ==> !same_deps(last, m.all_found(i)),
    ensures
        m.resolved(i, join).fiber(i).state() is Unloading,
        m.resolved(i, join).fiber(i).stage == (Stage::Draining { after: AfterDrain::Load, join }),
        m.resolved(i, join).fiber(i).next_deps == m.all_found(i),
{
}

/// A dependency that is on its way out is not ready, so that whoever declares it
/// is not loaded, and is unloaded if it runs.
pub proof fn removed_dependencies_are_not_ready(m: SharedModel, i: FiberIx, key: TypeKey)
    requires
        m.has(i),
        m.registry.bound(key, scope_seen(m.nodes[i as int].ctx, key)) matches Some(b) && b.removing,
    ensures
        m.dependency(i, key) != DependencyStatus::Ready,
{
}

/// A fiber that runs is loaded anew once all of its dependencies are ready and
/// one of them is no longer what it was: another provider, or another generation
/// of it.
pub proof fn changed_dependencies_reload(m: SharedModel, i: FiberIx, join: Option<TaskId>)
    requires
        m.has(i),
        m.fiber(i).state() is Active,
        m.all_ready(i),
        m.fiber(i).last_deps matches Some(last) && !same_deps(last, m.all_found(i)),
    ensures
        m.resolved(i, join).fiber(i).state() is Unloading,
        m.resolved(i, join).fiber(i).stage == (Stage::Draining { after: AfterDrain::Load, join }),
        m.resolved(i, join).fiber(i).next_deps == m.all_found(i),
{
}

proof fn evicting(m: SharedModel, dep: Dep, n: nat, j: FiberIx)
    requires
        m.has(j),
        n <= m.fibers.len() <= usize::MAX,
    ensures
        m.evicted(dep, n).0.fibers.len() == m.fibers.len(),
        m.evicted(dep, n).0.registry == m.registry,
        j >= n ==> m.evicted(dep, n).0.fiber(j) == m.fiber(j),
        j < n && m.consumes(j, dep) ==> {
            let f = m.evicted(dep, n).0.fiber(j);
            &&& f.cancelled
            &&& m.fiber(j).closing || !m.fiber(j).alive || f.mailbox.last() is RefreshDepsJoin
        },
        j < n && !m.consumes(j, dep) ==> m.evicted(dep, n).0.fiber(j) == m.fiber(j),
    decreases n,
{
    if n > 0 {
        evicting(m, dep, (n - 1) as nat, j);
        let k = (n - 1) as usize;
        evicting(m, dep, (n - 1) as nat, k);
    }
}

/// When a service is taken away, everybody who depends on it is cancelled, and
/// is asked to look at its dependencies if it is not ending already. Nobody else
/// is disturbed.
pub proof fn eviction_reaches_every_consumer(m: SharedModel, dep: Dep, j: FiberIx)
    requires
        m.has(j),
        m.fibers.len() <= usize::MAX,
    ensures
        ({
            let f = m.evicted(dep, m.fibers.len()).0.fiber(j);
            if m.consumes(j, dep) {
                f.cancelled && (m.fiber(j).closing || !m.fiber(j).alive
                    || f.mailbox.last() is RefreshDepsJoin)
            } else {
                f == m.fiber(j)
            }
        }),
{
    evicting(m, dep, m.fibers.len(), j);
}

proof fn notices_keep_the_registry(
    m: SharedModel,
    provided: Seq<(TypeKey, Option<ScopeId>)>,
    n: nat,
    j: FiberIx,
)
    requires
        m.has(j),
    ensures
        m.keys_changed(provided, n).registry == m.registry,
        m.keys_changed(provided, n).has(j),
        m.keys_changed(provided, n).fiber(j).held == m.fiber(j).held,
        m.keys_changed(provided, n).fiber(j).alive == m.fiber(j).alive,
        (exists|k: int| 0 <= k < n && m.notified(#[trigger] provided[k].0, j)) ==> m.keys_changed(
            provided,
            n,
        ).fiber(j).mailbox.len() > 0 && m.keys_changed(provided, n).fiber(j).mailbox.last()
            == Intent::RefreshDeps,
    decreases n,
{
    if n > 0 {
        notices_keep_the_registry(m, provided, (n - 1) as nat, j);
        let before = m.keys_changed(provided, (n - 1) as nat);
        assert(before.notified(provided[n - 1].0, j) == m.notified(provided[n - 1].0, j));
    }
}

/// When a provider becomes active, every live fiber that waits for one of its
/// services is told to look at its dependencies again.
pub proof fn activation_tells_those_who_wait(
    m: SharedModel,
    provided: Seq<(TypeKey, Option<ScopeId>)>,
    k: int,
    j: FiberIx,
)
    requires
        m.has(j),
        0 <= k < provided.len(),
        m.registry.waits(provided[k].0, j),
        m.fiber(j).held,
        m.fiber(j).alive,
    ensures
        m.keys_changed(provided, provided.len()).fiber(j).mailbox.last() == Intent::RefreshDeps,
{
    assert(m.notified(provided[k].0, j));
    notices_keep_the_registry(m, provided, provided.len(), j);
}

} // verus!
