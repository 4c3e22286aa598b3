//! Shutting down a part of the tree for good.

use std::sync::Arc;

use crate::error::{aggregate_arcs, aggregated, CordisError};
use crate::fiber::{FiberIx, FiberModel, Intent, TaskId, TransModel};
use crate::list::contains;
use crate::outcomes::{
    grounded, keeps, more_mail, one_acts, other_changes_are_steady, spared, spares,
    steadiness_adds_up, steady,
};
use crate::shared::{Shared, SharedModel, TaskDone};
use vstd::prelude::*;

verus! {

broadcast use crate::shared::fiber_is_viewed;

/// What is to be waited for when a fiber is shut down.
pub struct ShutdownPlan {
    pub fiber: FiberIx,
    /// The task to complete when everything below is over.
    pub public: TaskId,
    /// The task of the fiber's own end.
    pub inner: TaskId,
    /// The tasks of the children's shutdowns.
    pub children: Vec<TaskId>,
}

impl SharedModel {
    /// `j` is `top` or reached from it over children that are still there.
    pub open spec fn in_tree(self, top: FiberIx, j: FiberIx) -> bool
        decreases j,
    {
        if j == top {
            self.has(j)
        } else {
            &&& self.has(j)
            &&& self.fiber(j).held
            &&& self.nodes[j as int].parent matches Some(p)
            &&& p < j
            &&& self.fiber(p).children.contains(j)
            &&& self.in_tree(top, p)
        }
    }

    /// Everything from `top` down, up to fiber `n`, is closed and cancelled.
    pub open spec fn closed_tree_upto(self, top: FiberIx, n: nat) -> SharedModel {
        SharedModel {
            fibers: Seq::new(
                self.fibers.len(),
                |j: int|
                    if j < n && self.in_tree(top, j as usize) {
                        FiberModel { closing: true, cancelled: true, ..self.fibers[j] }
                    } else {
                        self.fibers[j]
                    },
            ),
            ..self
        }
    }

    pub open spec fn closed_tree(self, top: FiberIx) -> SharedModel {
        self.closed_tree_upto(top, self.fibers.len())
    }

    /// The shutdown of one fiber has begun: it has a public task, and its own
    /// end has been asked for unless it was before.
    pub open spec fn begun_one(self, j: FiberIx) -> SharedModel {
        let public = self.tasks.len() as usize;
        let f = self.fiber(j);
        match f.trans.terminal {
            Some(inner) => self.with_task().put(
                j,
                FiberModel { shutdown_task: Some(public), shutdown_inner: Some(inner), ..f },
            ),
            None => {
                let inner = (self.tasks.len() + 1) as usize;
                self.with_task().with_task().put(
                    j,
                    FiberModel {
                        shutdown_task: Some(public),
                        shutdown_inner: Some(inner),
                        trans: TransModel { terminal: Some(inner), ..f.trans },
                        ..f
                    },
                ).posted(j, Intent::Shutdown(inner))
            },
        }
    }

    /// The shutdown of every fiber from `top` down, up to fiber `n`, has begun,
    /// where it had not before. `tree` says which fibers those are.
    pub open spec fn begun(self, tree: Seq<bool>, n: nat) -> SharedModel
        decreases n,
    {
        if n == 0 {
            self
        } else {
            let m = self.begun(tree, (n - 1) as nat);
            let j = (n - 1) as usize;
            if tree[j as int] && m.fiber(j).shutdown_task is None {
                m.begun_one(j)
            } else {
                m
            }
        }
    }

    /// Which fibers are in the tree below `top`.
    pub open spec fn tree(self, top: FiberIx) -> Seq<bool> {
        Seq::new(self.fibers.len(), |j: int| self.in_tree(top, j as usize))
    }

    /// The fibers from `top` down, up to fiber `n`, whose shutdown has not begun
    /// yet, each once.
    pub open spec fn begins(self, top: FiberIx, n: nat) -> Seq<FiberIx>
        decreases n,
    {
        if n == 0 {
            seq![]
        } else {
            let before = self.begins(top, (n - 1) as nat);
            let j = (n - 1) as usize;
            if self.tree(top)[j as int] && self.fiber(j).shutdown_task is None {
                before.push(j)
            } else {
                before
            }
        }
    }

    /// The shutdown of the fiber has begun, with a public task that was opened
    /// when there were `from` tasks or more.
    pub open spec fn began(self, j: FiberIx, from: nat) -> bool {
        &&& self.fiber(j).shutdown_task matches Some(t)
        &&& from <= t < self.tasks.len()
        &&& self.fiber(j).shutdown_inner is Some
    }

    /// The plan is that of its fiber: the fiber's tasks, and the shutdown tasks of
    /// the children that are still there.
    pub open spec fn planned(self, plan: ShutdownPlan) -> bool {
        &&& self.has(plan.fiber)
        &&& self.fiber(plan.fiber).shutdown_task == Some(plan.public)
        &&& self.fiber(plan.fiber).shutdown_inner == Some(plan.inner)
        &&& plan.children@ == self.child_tasks(
            plan.fiber,
            self.fiber(plan.fiber).children.len(),
        )
    }

    /// The public shutdown tasks of the first `n` children of a fiber.
    pub open spec fn child_tasks(self, j: FiberIx, n: nat) -> Seq<TaskId>
        decreases n,
    {
        if n == 0 {
            seq![]
        } else {
            let before = self.child_tasks(j, (n - 1) as nat);
            let c = self.fiber(j).children[n - 1];
            if self.has(c) && self.fiber(c).held && self.fiber(c).shutdown_task is Some {
                before.push(self.fiber(c).shutdown_task->0)
            } else {
                before
            }
        }
    }
}

/// The fibers of a list of plans.
pub open spec fn plan_fibers(plans: Seq<ShutdownPlan>) -> Seq<FiberIx> {
    Seq::new(plans.len(), |k: int| plans[k].fiber)
}

/// The public tasks of the plans were opened between the two numbers of tasks,
/// one after the other.
pub open spec fn opened_between(plans: Seq<ShutdownPlan>, from: nat, to: nat) -> bool {
    &&& forall|k: int| 0 <= k < plans.len() ==> from <= (#[trigger] plans[k]).public < to
    &&& forall|k: int, l: int|
        #![trigger plans[k], plans[l]]
        0 <= k < l < plans.len() ==> plans[k].public < plans[l].public
}

impl Shared {
    fn tree_below(&self, top: FiberIx) -> (tree: Vec<bool>)
        requires
            self@.wf(),
            self@.has(top),
        ensures
            tree@ == self@.tree(top),
    {
        let mut tree: Vec<bool> = Vec::new();
        let mut j: usize = 0;
        while j < self.fibers.len()
            invariant
                self@.wf(),
                self@.has(top),
                j <= self.fibers.len(),
                tree@.len() == j,
                forall|k: int| 0 <= k < j ==> #[trigger] tree@[k] == self@.in_tree(top, k as usize),
            decreases self.fibers.len() - j,
        {
            assert(self.fibers@[j as int]@ == self@.fiber(j));
            let member = if j == top {
                true
            } else if !self.fibers[j].held {
                false
            } else {
                match self.nodes[j].parent {
                    Some(p) => {
                        assert(p < j);
                        assert(self.fibers@[p as int]@ == self@.fiber(p));
                        assert(tree@[p as int] == self@.in_tree(top, p));
                        contains(&self.fibers[p].children, j) && tree[p]
                    },
                    None => false,
                }
            };
            tree.push(member);
            j += 1;
        }
        assert(tree@ =~= self@.tree(top));
        tree
    }

    fn close_tree(&mut self, top: FiberIx, tree: &Vec<bool>)
        requires
            tree@ == old(self)@.tree(top),
        ensures
            final(self)@ == old(self)@.closed_tree(top),
    {
        let ghost before = self@;
        let mut j: usize = 0;
        assert(self@.fibers =~= before.closed_tree_upto(top, 0).fibers);
        while j < self.fibers.len()
            invariant
                j <= before.fibers.len(),
                self@.fibers.len() == before.fibers.len(),
                tree@ == before.tree(top),
                self@ == before.closed_tree_upto(top, j as nat),
            decreases self.fibers.len() - j,
        {
            let ghost here = self@;
            assert(self.fibers@[j as int]@ == before.fibers[j as int]);
            assert(tree@[j as int] == before.in_tree(top, j));
            if tree[j] {
                self.fibers[j].closing = true;
                self.fibers[j].cancelled = true;
                assert(self@.fibers =~= here.fibers.update(
                    j as int,
                    FiberModel { closing: true, cancelled: true, ..before.fibers[j as int] },
                ));
            }
            j += 1;
            assert(self@.fibers =~= before.closed_tree_upto(top, j as nat).fibers);
        }
    }

    fn begin_one(&mut self, j: FiberIx)
        requires
            old(self)@.has(j),
        ensures
            final(self)@ == old(self)@.begun_one(j),
            final(self)@.fibers.len() == old(self)@.fibers.len(),
            final(self)@.fiber(j).shutdown_task matches Some(t) && t == old(self)@.tasks.len(),
            final(self)@.fiber(j).shutdown_inner is Some,
            final(self)@.tasks.len() > old(self)@.tasks.len(),
    {
        let ghost before = self@;
        let terminal = self.fibers[j].trans.terminal_task;
        let public = self.open_task();
        match terminal {
            Some(inner) => {
                let ghost m = self@;
                assert(self.fibers@.len() == m.fibers.len());
                self.fibers[j].shutdown_task = Some(public);
                self.fibers[j].shutdown_inner = Some(inner);
                assert(self@.fibers =~= before.begun_one(j).fibers);
            },
            None => {
                let inner = self.open_task();
                let ghost m = self@;
                assert(self.fibers@.len() == m.fibers.len());
                self.fibers[j].shutdown_task = Some(public);
                self.fibers[j].shutdown_inner = Some(inner);
                self.fibers[j].trans.terminal_task = Some(inner);
                assert(self@.fibers =~= m.put(
                    j,
                    FiberModel {
                        shutdown_task: Some(public),
                        shutdown_inner: Some(inner),
                        trans: TransModel { terminal: Some(inner), ..before.fiber(j).trans },
                        ..before.fiber(j)
                    },
                ).fibers);
                let _ = self.post(j, Intent::Shutdown(inner));
            },
        }
    }

    fn plan_shutdown(&self, j: FiberIx) -> (plan: Option<ShutdownPlan>)
        requires
            self@.has(j),
        ensures
            match (self@.fiber(j).shutdown_task, self@.fiber(j).shutdown_inner) {
                (Some(public), Some(inner)) => plan matches Some(p) && p.fiber == j && p.public
                    == public && p.inner == inner && p.children@ == self@.child_tasks(
                    j,
                    self@.fiber(j).children.len(),
                ),
                _ => plan is None,
            },
    {
        match (self.fibers[j].shutdown_task, self.fibers[j].shutdown_inner) {
            (Some(public), Some(inner)) => {
                let mut children: Vec<TaskId> = Vec::new();
                let mut k: usize = 0;
                while k < self.fibers[j].children.len()
                    invariant
                        self@.has(j),
                        k <= self@.fiber(j).children.len(),
                        children@ == self@.child_tasks(j, k as nat),
                    decreases self@.fiber(j).children.len() - k,
                {
                    let c: usize = self.fibers[j].children[k];
                    assert(c == self@.fiber(j).children[k as int]);
                    if c < self.fibers.len() && self.fibers[c].held {
                        assert(self.fibers@[c as int]@ == self@.fiber(c));
                        if let Some(task) = self.fibers[c].shutdown_task {
                            children.push(task);
                        }
                    }
                    k += 1;
                }
                Some(ShutdownPlan { fiber: j, public, inner, children })
            },
            _ => None,
        }
    }

    /// Shuts down a fiber other than the root, with everything below it. All of
    /// it is closed at once. Every call gets the same task. Each fiber whose
    /// shutdown begins with this call has one plan, the parents' ahead of the
    /// children's.
    pub fn shutdown(&mut self, top: FiberIx) -> (result: (TaskId, Vec<ShutdownPlan>))
        requires
            old(self)@.wf(),
            old(self)@.has(top),
            top != 0,
        ensures
            final(self)@.wf(),
            final(self)@ == shut(old(self)@, top),
            final(self)@.fiber(top).shutdown_task == Some(result.0),
            plan_fibers(result.1@) == old(self)@.begins(top, old(self)@.fibers.len()),
            forall|k: int|
                0 <= k < result.1@.len() ==> final(self)@.planned(#[trigger] result.1@[k]),
            opened_between(result.1@, old(self)@.tasks.len(), final(self)@.tasks.len()),
    {
        let ghost before = self@;
        let tree = self.tree_below(top);
        self.close_tree(top, &tree);
        let ghost closed = self@;
        let mut fresh: Vec<FiberIx> = Vec::new();
        let mut j: usize = 0;
        while j < self.fibers.len()
            invariant
                j <= before.fibers.len(),
                top < before.fibers.len(),
                self@.wf(),
                self@.fibers.len() == before.fibers.len(),
                closed == before.closed_tree(top),
                tree@ == before.tree(top),
                tree@[top as int],
                self@ == closed.begun(tree@, j as nat),
                fresh@ == before.begins(top, j as nat),
                before.tasks.len() <= self@.tasks.len(),
                forall|k: int|
                    j <= k < before.fibers.len() ==> #[trigger] self@.fibers[k] == closed.fibers[k],
                j > top ==> self@.fiber(top).shutdown_task is Some,
                forall|k: int|
                    0 <= k < fresh@.len() ==> (#[trigger] fresh@[k]) < j && self@.began(
                        fresh@[k],
                        before.tasks.len(),
                    ),
                forall|k: int, l: int|
                    #![trigger fresh@[k], fresh@[l]]
                    0 <= k < l < fresh@.len() ==> self@.fiber(fresh@[k]).shutdown_task->0
                        < self@.fiber(fresh@[l]).shutdown_task->0,
            decreases self.fibers.len() - j,
        {
            let ghost here = self@;
            assert(self.fibers@[j as int]@ == here.fiber(j));
            assert(here.fibers[j as int] == closed.fibers[j as int]);
            if tree[j] && self.fibers[j].shutdown_task.is_none() {
                self.begin_one(j);
                fresh.push(j);
                assert(forall|k: int|
                    0 <= k < before.fibers.len() && k != j ==> #[trigger] self@.fibers[k]
                        == here.fibers[k]);
                assert(self@.began(j, before.tasks.len()));
            }
            j += 1;
        }
        let mut plans: Vec<ShutdownPlan> = Vec::new();
        let mut k: usize = 0;
        while k < fresh.len()
            invariant
                k <= fresh.len(),
                self@.fibers.len() == before.fibers.len(),
                forall|l: int|
                    0 <= l < fresh@.len() ==> (#[trigger] fresh@[l]) < before.fibers.len()
                        && self@.began(fresh@[l], before.tasks.len()),
                plans@.len() == k,
                forall|l: int|
                    0 <= l < k ==> (#[trigger] plans@[l]).fiber == fresh@[l] && self@.planned(
                        plans@[l],
                    ),
            decreases fresh.len() - k,
        {
            assert(self@.began(fresh@[k as int], before.tasks.len()));
            if let Some(plan) = self.plan_shutdown(fresh[k]) {
                plans.push(plan);
            }
            k += 1;
        }
        assert(plan_fibers(plans@) =~= fresh@);
        assert(opened_between(plans@, before.tasks.len(), self@.tasks.len())) by {
            assert forall|l: int| 0 <= l < plans@.len() implies before.tasks.len() <= (
            #[trigger] plans@[l]).public < self@.tasks.len() by {
                assert(self@.began(fresh@[l], before.tasks.len()));
            }
            assert forall|a: int, b: int|
                #![trigger plans@[a], plans@[b]]
                0 <= a < b < plans@.len() implies plans@[a].public < plans@[b].public by {
                assert(fresh@[a] == plans@[a].fiber && fresh@[b] == plans@[b].fiber);
            }
        }
        assert(self.fibers@[top as int]@ == self@.fiber(top));
        let task = match self.fibers[top].shutdown_task {
            Some(task) => task,
            None => {
                assert(false);
                0
            },
        };
        (task, plans)
    }

    fn push_failure(&self, task: TaskId, errors: &mut Vec<Arc<CordisError>>)
        ensures
            final(errors)@ == self@.with_failure(task, old(errors)@),
    {
        if let Some(Err(e)) = self.joined(task) {
            errors.push(e);
        }
    }

    /// The shutdown of a fiber and of everything below it is over: its public
    /// task gets its own error, then that of its driver, if that was lost, and
    /// those of its children.
    pub fn finish_shutdown(&mut self, plan: &ShutdownPlan, driver: Option<Arc<CordisError>>)
        ensures
            old(self)@.wf() ==> final(self)@.wf(),
            old(self)@.finished(*plan, driver, final(self)@),
    {
        let mut errors: Vec<Arc<CordisError>> = Vec::new();
        self.push_failure(plan.inner, &mut errors);
        if let Some(e) = driver {
            errors.push(e);
        }
        let mut k: usize = 0;
        while k < plan.children.len()
            invariant
                k <= plan.children@.len(),
                self@ == old(self)@,
                errors@ == self@.shutdown_errors(*plan, driver, k as nat),
            decreases plan.children@.len() - k,
        {
            self.push_failure(plan.children[k], &mut errors);
            k += 1;
        }
        let ghost listed = errors@;
        let error = aggregate_arcs(errors);
        self.complete(plan.public, error);
        assert(aggregated(listed, error));
    }
}

impl SharedModel {
    /// The errors, with that of a task that is over behind them.
    pub open spec fn with_failure(self, task: TaskId, errors: Seq<Arc<CordisError>>) -> Seq<
        Arc<CordisError>,
    > {
        if task < self.tasks.len() {
            match self.tasks[task as int] {
                TaskDone::Done(Some(e)) => errors.push(e),
                _ => errors,
            }
        } else {
            errors
        }
    }

    /// The errors of a shutdown: the fiber's own, that of its driver, and those
    /// of the first `n` children.
    pub open spec fn shutdown_errors(
        self,
        plan: ShutdownPlan,
        driver: Option<Arc<CordisError>>,
        n: nat,
    ) -> Seq<Arc<CordisError>>
        decreases n,
    {
        if n == 0 {
            let own = self.with_failure(plan.inner, seq![]);
            match driver {
                Some(e) => own.push(e),
                None => own,
            }
        } else {
            self.with_failure(
                plan.children[n - 1],
                self.shutdown_errors(plan, driver, (n - 1) as nat),
            )
        }
    }
}

impl SharedModel {
    /// The shutdown of a plan's fiber is over in `after`: its public task is done
    /// with all the errors in one.
    pub open spec fn finished(
        self,
        plan: ShutdownPlan,
        driver: Option<Arc<CordisError>>,
        after: SharedModel,
    ) -> bool {
        exists|error: Option<Arc<CordisError>>| #[trigger]
            aggregated(self.shutdown_errors(plan, driver, plan.children@.len()), error) && after
                == self.completed(plan.public, error)
    }

    /// The task is over, with an error.
    pub open spec fn failed(self, task: TaskId) -> bool {
        &&& task < self.tasks.len()
        &&& self.tasks[task as int] matches TaskDone::Done(Some(_))
    }
}

/// A shutdown closes everything below the fiber at the very call, and nothing
/// else.
pub proof fn shutdown_closes_the_whole_subtree(m: SharedModel, top: FiberIx, j: FiberIx)
    requires
        m.wf(),
        m.has(top),
        m.has(j),
    ensures
        m.in_tree(top, j) ==> m.closed_tree(top).fiber(j).closing && m.closed_tree(top).fiber(
            j,
        ).cancelled,
        !m.in_tree(top, j) ==> m.closed_tree(top).fiber(j) == m.fiber(j),
{
}

/// What the beginning of the shutdowns leaves alone, and what it does.
proof fn begun_keeps(m: SharedModel, tree: Seq<bool>, n: nat)
    requires
        n <= m.fibers.len() <= usize::MAX,
        tree.len() == m.fibers.len(),
    ensures
        m.begun(tree, n).fibers.len() == m.fibers.len(),
        m.begun(tree, n).nodes == m.nodes,
        forall|j: int|
            0 <= j < m.fibers.len() ==> {
                let f = #[trigger] m.begun(tree, n).fibers[j];
                &&& f.held == m.fibers[j].held
                &&& f.closing == m.fibers[j].closing
                &&& f.cancelled == m.fibers[j].cancelled
                &&& f.children == m.fibers[j].children
                &&& m.fibers[j].shutdown_task is Some ==> f.shutdown_task
                    == m.fibers[j].shutdown_task
                &&& tree[j] && j < n ==> f.shutdown_task is Some
                &&& j >= n ==> f == m.fibers[j]
            },
    decreases n,
{
    if n > 0 {
        begun_keeps(m, tree, (n - 1) as nat);
        let before = m.begun(tree, (n - 1) as nat);
        let after = m.begun(tree, n);
        let j = (n - 1) as usize;
        assert(forall|k: int|
            0 <= k < m.fibers.len() && k != j ==> #[trigger] after.fibers[k] == before.fibers[k]);
        assert(before.fibers[j as int] == m.fibers[j as int]);
    }
}

/// The plans of a shutdown are for exactly those fibers from `top` down whose
/// shutdown had not begun, each once and a parent ahead of its children.
pub proof fn every_begun_shutdown_has_one_plan(m: SharedModel, top: FiberIx, n: nat)
    requires
        n <= m.fibers.len() <= usize::MAX,
    ensures
        forall|j: FiberIx| #[trigger]
            m.begins(top, n).contains(j) <==> j < n && m.in_tree(top, j) && m.fiber(
                j,
            ).shutdown_task is None,
        forall|k: int, l: int|
            #![trigger m.begins(top, n)[k], m.begins(top, n)[l]]
            0 <= k < l < m.begins(top, n).len() ==> m.begins(top, n)[k] < m.begins(top, n)[l],
    decreases n,
{
    if n > 0 {
        every_begun_shutdown_has_one_plan(m, top, (n - 1) as nat);
        let before = m.begins(top, (n - 1) as nat);
        let i = (n - 1) as usize;
        assert(m.tree(top)[i as int] == m.in_tree(top, i));
        assert forall|k: int| 0 <= k < before.len() implies #[trigger] before[k] < i by {
            assert(before.contains(before[k]));
        }
        assert forall|j: FiberIx| #[trigger]
            m.begins(top, n).contains(j) <==> j < n && m.in_tree(top, j) && m.fiber(
                j,
            ).shutdown_task is None by {
            if m.in_tree(top, i) && m.fiber(i).shutdown_task is None {
                assert(m.begins(top, n) == before.push(i));
                if before.contains(j) {
                    let k = before.index_of(j);
                    assert(before.push(i)[k] == j);
                }
                assert(before.push(i)[before.len() as int] == i);
                if before.push(i).contains(j) {
                    let k = before.push(i).index_of(j);
                    assert(k < before.len() ==> before[k] == j);
                }
            } else {
                assert(m.begins(top, n) == before);
            }
        }
    }
}

/// The state in which a call of `shutdown` leaves the tree.
pub open spec fn shut(m: SharedModel, top: FiberIx) -> SharedModel {
    m.closed_tree(top).begun(m.tree(top), m.fibers.len())
}

proof fn in_tree_agrees(a: SharedModel, b: SharedModel, top: FiberIx, j: FiberIx)
    requires
        a.fibers.len() == b.fibers.len(),
        a.nodes == b.nodes,
        forall|k: int|
            0 <= k < a.fibers.len() ==> (#[trigger] b.fibers[k]).held == a.fibers[k].held
                && b.fibers[k].children == a.fibers[k].children,
    ensures
        a.in_tree(top, j) == b.in_tree(top, j),
    decreases j,
{
    if a.has(j) && j != top {
        assert(b.fibers[j as int].held == a.fibers[j as int].held);
        if let Some(p) = a.nodes[j as int].parent {
            if p < j {
                assert(b.fibers[p as int].children == a.fibers[p as int].children);
                in_tree_agrees(a, b, top, p);
            }
        }
    }
}

/// All calls of `shutdown` share one task: a fiber that has one keeps it and gets
/// no further plan. A call behind another changes nothing and plans nothing.
pub proof fn shutdowns_share_one_task(m: SharedModel, top: FiberIx)
    requires
        m.has(top),
        m.fibers.len() <= usize::MAX,
    ensures
        m.fiber(top).shutdown_task is Some ==> shut(m, top).fiber(top).shutdown_task == m.fiber(
            top,
        ).shutdown_task && !m.begins(top, m.fibers.len()).contains(top),
        shut(m, top).fiber(top).shutdown_task is Some,
        shut(shut(m, top), top) == shut(m, top),
        shut(m, top).begins(top, m.fibers.len()) == Seq::<FiberIx>::empty(),
{
    let n = m.fibers.len();
    let after = shut(m, top);
    let closed = m.closed_tree(top);
    every_begun_shutdown_has_one_plan(m, top, n);
    begun_keeps(closed, m.tree(top), n);
    assert(m.tree(top)[top as int] == m.in_tree(top, top));
    assert forall|k: int| 0 <= k < n implies (#[trigger] after.fibers[k]).held == m.fibers[k].held
        && after.fibers[k].children == m.fibers[k].children by {
        assert(closed.fibers[k].held == m.fibers[k].held);
    }
    assert forall|k: int| 0 <= k < n implies #[trigger] after.tree(top)[k] == m.tree(top)[k] by {
        in_tree_agrees(m, after, top, k as usize);
    }
    assert(after.tree(top) =~= m.tree(top));
    every_begun_shutdown_has_one_plan(after, top, n);
    assert forall|k: int| 0 <= k < n && m.tree(top)[k] implies (
    #[trigger] after.fibers[k]).shutdown_task is Some && after.fibers[k].closing
        && after.fibers[k].cancelled by {
        assert(closed.fibers[k].closing && closed.fibers[k].cancelled);
    }
    if after.begins(top, n).len() > 0 {
        let j = after.begins(top, n)[0];
        assert(after.begins(top, n).contains(j));
        assert(after.tree(top)[j as int]);
        assert(after.fibers[j as int].shutdown_task is Some);
        assert(false);
    }
    assert(after.begins(top, n) =~= Seq::<FiberIx>::empty());
    assert(after.closed_tree(top).fibers =~= after.fibers) by {
        assert forall|k: int| 0 <= k < n implies #[trigger] after.closed_tree(top).fibers[k]
            == after.fibers[k] by {
            assert(after.tree(top)[k] == after.in_tree(top, k as usize));
        }
    }
    assert(after.closed_tree(top) == after);
    nothing_begins(after, after.tree(top), n);
}

proof fn nothing_begins(m: SharedModel, tree: Seq<bool>, n: nat)
    requires
        n <= m.fibers.len() <= usize::MAX,
        forall|k: int|
            0 <= k < m.fibers.len() && tree[k] ==> (#[trigger] m.fibers[k]).shutdown_task is Some,
    ensures
        m.begun(tree, n) == m,
    decreases n,
{
    if n > 0 {
        nothing_begins(m, tree, (n - 1) as nat);
        assert(tree[n - 1] ==> m.fibers[n - 1].shutdown_task is Some);
    }
}

/// A shutdown waits for the children: the plan of a fiber holds the task of every
/// child that is still there when the shutdown begins.
pub proof fn children_are_waited_for(m: SharedModel, top: FiberIx, j: FiberIx, c: FiberIx)
    requires
        m.wf(),
        m.fibers.len() <= usize::MAX,
        m.in_tree(top, j),
        m.has(c),
        c != top,
        m.fiber(c).held,
        m.nodes[c as int].parent == Some(j),
        m.fiber(j).children.contains(c),
    ensures
        shut(m, top).fiber(c).shutdown_task matches Some(task) && shut(m, top).child_tasks(
            j,
            shut(m, top).fiber(j).children.len(),
        ).contains(task),
{
    let after = shut(m, top);
    let closed = m.closed_tree(top);
    begun_keeps(closed, m.tree(top), m.fibers.len());
    assert(j < c) by {
        assert(m.nodes[c as int].parent is Some);
    }
    assert(m.in_tree(top, c));
    assert(m.tree(top)[c as int]);
    assert(closed.fibers[c as int].held && closed.fibers[j as int].children == m.fiber(j).children);
    assert(after.fibers[c as int].held && after.fibers[c as int].shutdown_task is Some);
    assert(after.fibers[j as int].children == m.fiber(j).children);
    let k = m.fiber(j).children.index_of(c);
    child_is_listed(after, j, after.fiber(j).children.len(), k);
}

proof fn child_is_listed(m: SharedModel, j: FiberIx, n: nat, k: int)
    requires
        0 <= k < n <= m.fiber(j).children.len(),
        m.has(m.fiber(j).children[k]),
        m.fiber(m.fiber(j).children[k]).held,
        m.fiber(m.fiber(j).children[k]).shutdown_task is Some,
    ensures
        m.child_tasks(j, n).contains(m.fiber(m.fiber(j).children[k]).shutdown_task->0),
    decreases n,
{
    let task = m.fiber(m.fiber(j).children[k]).shutdown_task->0;
    let before = m.child_tasks(j, (n - 1) as nat);
    if k == n - 1 {
        assert(m.child_tasks(j, n) == before.push(task));
        assert(before.push(task)[before.len() as int] == task);
    } else {
        child_is_listed(m, j, (n - 1) as nat, k);
        let at = before.index_of(task);
        assert(m.child_tasks(j, n)[at] == task);
    }
}

impl SharedModel {
    /// The task is over.
    pub open spec fn task_over(self, task: TaskId) -> bool {
        task < self.tasks.len() && self.tasks[task as int] is Done
    }

    /// Something of what a plan waits for went wrong: the fiber's own end, its
    /// driver, or the shutdown of a child.
    pub open spec fn plan_fails(
        self,
        plan: ShutdownPlan,
        driver: Option<Arc<CordisError>>,
    ) -> bool {
        ||| self.failed(plan.inner)
        ||| driver is Some
        ||| exists|k: int| 0 <= k < plan.children@.len() && self.failed(#[trigger] plan.children@[k])
    }
}

/// The error is the whole outcome, or one of the errors that the outcome gathers.
pub open spec fn holds_error(outcome: Option<Arc<CordisError>>, e: Arc<CordisError>) -> bool {
    ||| outcome == Some(e)
    ||| outcome matches Some(all) && *all matches CordisError::Aggregate { errors }
        && errors@.contains(e)
}

proof fn errors_are_gathered(
    m: SharedModel,
    plan: ShutdownPlan,
    driver: Option<Arc<CordisError>>,
    n: nat,
)
    requires
        n <= plan.children@.len(),
    ensures
        m.shutdown_errors(plan, driver, n).len() > 0 <==> (m.failed(plan.inner) || driver is Some
            || exists|k: int| 0 <= k < n && m.failed(#[trigger] plan.children@[k])),
        m.failed(plan.inner) ==> m.shutdown_errors(plan, driver, n).contains(
            m.tasks[plan.inner as int]->0->0,
        ),
        driver matches Some(e) ==> m.shutdown_errors(plan, driver, n).contains(e),
        forall|k: int|
            0 <= k < n && m.failed(#[trigger] plan.children@[k]) ==> m.shutdown_errors(
                plan,
                driver,
                n,
            ).contains(m.tasks[plan.children@[k] as int]->0->0),
    decreases n,
{
    let all = m.shutdown_errors(plan, driver, n);
    if n == 0 {
        let own = m.with_failure(plan.inner, seq![]);
        if m.failed(plan.inner) {
            assert(own[0] == m.tasks[plan.inner as int]->0->0);
            assert(all[0] == own[0]);
        }
        if let Some(e) = driver {
            assert(all[own.len() as int] == e);
        }
    } else {
        let before = m.shutdown_errors(plan, driver, (n - 1) as nat);
        let last = plan.children@[n - 1];
        errors_are_gathered(m, plan, driver, (n - 1) as nat);
        assert forall|e: Arc<CordisError>| before.contains(e) implies #[trigger] all.contains(e) by {
            assert(all[before.index_of(e)] == e);
        }
        if m.failed(last) {
            assert(all[before.len() as int] == m.tasks[last as int]->0->0);
        }
        if m.failed(plan.inner) {
            assert(before.contains(m.tasks[plan.inner as int]->0->0));
        }
        if let Some(e) = driver {
            assert(before.contains(e));
        }
        assert forall|k: int| 0 <= k < n && m.failed(#[trigger] plan.children@[k]) implies
            all.contains(m.tasks[plan.children@[k] as int]->0->0) by {
            if k < n - 1 {
                assert(before.contains(m.tasks[plan.children@[k] as int]->0->0));
            }
        }
    }
}

/// A finished shutdown has its public task over. That task holds an error exactly
/// if the fiber's own end, its driver or the shutdown of a child failed, and it
/// holds each of those errors. No other task changes.
pub proof fn finished_shutdowns_hold_every_error(
    m: SharedModel,
    plan: ShutdownPlan,
    driver: Option<Arc<CordisError>>,
    after: SharedModel,
)
    requires
        plan.public < m.tasks.len(),
        m.finished(plan, driver, after),
    ensures
        after.task_over(plan.public),
        after.failed(plan.public) <==> m.plan_fails(plan, driver),
        m.failed(plan.inner) ==> holds_error(
            after.tasks[plan.public as int]->0,
            m.tasks[plan.inner as int]->0->0,
        ),
        driver matches Some(e) ==> holds_error(after.tasks[plan.public as int]->0, e),
        forall|k: int|
            0 <= k < plan.children@.len() && m.failed(#[trigger] plan.children@[k])
                ==> holds_error(
                after.tasks[plan.public as int]->0,
                m.tasks[plan.children@[k] as int]->0->0,
            ),
        after.tasks.len() == m.tasks.len(),
        forall|t: int|
            0 <= t < m.tasks.len() && t != plan.public ==> #[trigger] after.tasks[t] == m.tasks[t],
{
    let errors = m.shutdown_errors(plan, driver, plan.children@.len());
    let error = choose|error: Option<Arc<CordisError>>| #[trigger]
        aggregated(errors, error) && after == m.completed(plan.public, error);
    errors_are_gathered(m, plan, driver, plan.children@.len());
    assert(after.tasks[plan.public as int] == TaskDone::Done(error));
    assert forall|e: Arc<CordisError>| errors.contains(e) implies #[trigger] holds_error(
        error,
        e,
    ) by {
        if errors.len() == 1 {
            assert(errors[0] == e);
        }
    }
    assert forall|k: int|
        0 <= k < plan.children@.len() && m.failed(#[trigger] plan.children@[k]) implies holds_error(
        error,
        m.tasks[plan.children@[k] as int]->0->0,
    ) by {
        assert(errors.contains(m.tasks[plan.children@[k] as int]->0->0));
    }
}

proof fn beginning_is_steady(m: SharedModel, j: FiberIx)
    requires
        m.has(j),
        m.tasks.len() + 2 <= usize::MAX,
    ensures
        steady(m, m.begun_one(j)),
        m.begun_one(j).tasks.len() <= m.tasks.len() + 2,
        m.begun_one(j).fibers.len() == m.fibers.len(),
        grounded(m) ==> m.begun_one(j).promised(j, m.tasks.len()),
{
    let after = m.begun_one(j);
    let public = m.tasks.len() as usize;
    let inner = (m.tasks.len() + 1) as usize;
    let f = m.fiber(j);
    let g = FiberModel {
        shutdown_task: Some(public),
        shutdown_inner: Some(inner),
        trans: TransModel { terminal: Some(inner), ..f.trans },
        ..f
    };
    assert forall|task: TaskId| spares(f, task) && task != inner implies #[trigger] spares(
        after.fiber(j),
        task,
    ) by {
        if f.trans.terminal is None {
            assert(spares(g, task));
            more_mail(g, Intent::Shutdown(inner), task);
        }
    }
    assert forall|task: TaskId| #[trigger] keeps(m, after, task) by {
        one_acts(m, after, j, task);
    }
    if grounded(m) {
        assert(spared(m, public));
        assert forall|k: FiberIx| #[trigger] after.has(k) implies spares(after.fiber(k), public) by {
            assert(m.has(k));
            if k == j {
                assert(spares(after.fiber(j), public));
            }
        }
    }
}

impl SharedModel {
    /// The fiber's shutdown has a public task that was opened when there were
    /// `from` tasks or more, is not over, and that no fiber is to complete.
    pub open spec fn promised(self, j: FiberIx, from: nat) -> bool {
        &&& self.fiber(j).shutdown_task matches Some(task)
        &&& from <= task < self.tasks.len()
        &&& self.tasks[task as int] is Running
        &&& spared(self, task)
    }
}

proof fn begun_promises(m: SharedModel, tree: Seq<bool>, n: nat)
    requires
        n <= m.fibers.len() <= usize::MAX,
        tree.len() == m.fibers.len(),
        m.tasks.len() + 2 * m.fibers.len() <= usize::MAX,
        grounded(m),
    ensures
        steady(m, m.begun(tree, n)),
        grounded(m.begun(tree, n)),
        m.begun(tree, n).tasks.len() <= m.tasks.len() + 2 * n,
        forall|j: FiberIx|
            j < n && tree[j as int] && (#[trigger] m.fiber(j)).shutdown_task is None ==> m.begun(
                tree,
                n,
            ).promised(j, m.tasks.len()),
    decreases n,
{
    if n == 0 {
        other_changes_are_steady(m, m);
    } else {
        begun_promises(m, tree, (n - 1) as nat);
        begun_keeps(m, tree, (n - 1) as nat);
        let before = m.begun(tree, (n - 1) as nat);
        let after = m.begun(tree, n);
        let i = (n - 1) as usize;
        if tree[i as int] && before.fiber(i).shutdown_task is None {
            beginning_is_steady(before, i);
        } else {
            other_changes_are_steady(before, after);
        }
        steadiness_adds_up(m, before, after);
        steadiness_adds_up(before, after, after);
        assert forall|j: FiberIx|
            j < n && tree[j as int] && (
            #[trigger] m.fiber(j)).shutdown_task is None implies after.promised(
            j,
            m.tasks.len(),
        ) by {
            if j < i {
                assert(before.promised(j, m.tasks.len()));
                assert(after.fibers[j as int] == before.fibers[j as int]);
                assert(keeps(before, after, before.fiber(j).shutdown_task->0));
            } else {
                assert(before.fibers[i as int] == m.fibers[i as int]);
                assert(keeps(m, before, 0));
                assert(after.promised(i, before.tasks.len()));
            }
        }
    }
}

/// A shutdown promises each fiber that it begins with a task that nothing else
/// completes: the task is new and not over, and no fiber is to complete it. What
/// was promised before stays so.
pub proof fn shutdown_tasks_are_left_to_their_plans(m: SharedModel, top: FiberIx)
    requires
        m.has(top),
        m.fibers.len() <= usize::MAX,
        m.tasks.len() + 2 * m.fibers.len() <= usize::MAX,
        grounded(m),
    ensures
        steady(m, shut(m, top)),
        grounded(shut(m, top)),
        forall|j: FiberIx|
            m.begins(top, m.fibers.len()).contains(j) ==> #[trigger] shut(m, top).promised(
                j,
                m.tasks.len(),
            ),
{
    let closed = m.closed_tree(top);
    other_changes_are_steady(m, closed);
    steadiness_adds_up(m, closed, closed);
    begun_promises(closed, m.tree(top), m.fibers.len());
    steadiness_adds_up(m, closed, shut(m, top));
    every_begun_shutdown_has_one_plan(m, top, m.fibers.len());
    assert forall|j: FiberIx| m.begins(top, m.fibers.len()).contains(j) implies #[trigger] shut(
        m,
        top,
    ).promised(j, m.tasks.len()) by {
        assert(m.tree(top)[j as int]);
        assert(closed.fiber(j).shutdown_task is None);
    }
}

/// The plans are finished one after the other, each behind those of its children:
/// `before[k]` is the tree when the shutdown of `run[k]` is about to be finished,
/// `after[k]` when it is. In between the tree moves on by steady steps. At the
/// start no fiber is to complete a task of the plans.
pub open spec fn finishes(
    run: Seq<ShutdownPlan>,
    drivers: Seq<Option<Arc<CordisError>>>,
    before: Seq<SharedModel>,
    after: Seq<SharedModel>,
) -> bool {
    &&& drivers.len() == run.len()
    &&& before.len() == run.len()
    &&& after.len() == run.len()
    &&& forall|k: int|
        0 <= k < run.len() ==> (#[trigger] run[k]).public < before[0].tasks.len() && spared(
            before[0],
            run[k].public,
        )
    &&& forall|k: int|
        0 <= k < run.len() ==> (#[trigger] before[k]).finished(run[k], drivers[k], after[k])
    &&& forall|k: int| 0 < k < run.len() ==> steady(after[k - 1], #[trigger] before[k])
    &&& forall|k: int, l: int|
        #![trigger run[k], run[l]]
        0 <= k < l < run.len() ==> run[k].public != run[l].public && !run[k].children@.contains(
            run[l].public,
        )
}

proof fn promises_last(
    run: Seq<ShutdownPlan>,
    drivers: Seq<Option<Arc<CordisError>>>,
    before: Seq<SharedModel>,
    after: Seq<SharedModel>,
    k: int,
    l: int,
)
    requires
        finishes(run, drivers, before, after),
        0 <= k < run.len(),
        0 <= l < run.len(),
    ensures
        run[k].public < before[l].tasks.len(),
        spared(before[l], run[k].public),
        before[l].finished(run[l], drivers[l], after[l]),
        after[l].tasks.len() == before[l].tasks.len(),
        spared(after[l], run[k].public),
        l != k ==> after[l].tasks[run[k].public as int] == before[l].tasks[run[k].public as int],
    decreases l,
{
    let task = run[k].public;
    assert(run[l].public < before[0].tasks.len());
    if l > 0 {
        promises_last(run, drivers, before, after, k, l - 1);
        promises_last(run, drivers, before, after, l, l - 1);
        assert(steady(after[l - 1], before[l]));
        assert(keeps(after[l - 1], before[l], task));
    }
    assert(before[l].finished(run[l], drivers[l], after[l]));
    finished_shutdowns_hold_every_error(before[l], run[l], drivers[l], after[l]);
    let error = choose|error: Option<Arc<CordisError>>| #[trigger]
        aggregated(
            before[l].shutdown_errors(run[l], drivers[l], run[l].children@.len()),
            error,
        ) && after[l] == before[l].completed(run[l].public, error);
    assert forall|j: FiberIx| #[trigger] after[l].has(j) implies spares(after[l].fiber(j), task) by {
        assert(before[l].has(j));
    }
    if k < l {
        assert(run[k].public != run[l].public);
    } else if l < k {
        assert(run[l].public != run[k].public);
    }
}

proof fn finished_stays(
    run: Seq<ShutdownPlan>,
    drivers: Seq<Option<Arc<CordisError>>>,
    before: Seq<SharedModel>,
    after: Seq<SharedModel>,
    k: int,
    l: int,
)
    requires
        finishes(run, drivers, before, after),
        0 <= k <= l < run.len(),
    ensures
        run[k].public < after[l].tasks.len(),
        after[l].tasks[run[k].public as int] == after[k].tasks[run[k].public as int],
        k < l ==> run[k].public < before[l].tasks.len(),
        k < l ==> before[l].tasks[run[k].public as int] == after[k].tasks[run[k].public as int],
    decreases l,
{
    promises_last(run, drivers, before, after, k, l);
    if k < l {
        finished_stays(run, drivers, before, after, k, l - 1);
        promises_last(run, drivers, before, after, k, l - 1);
        assert(steady(after[l - 1], before[l]));
        assert(keeps(after[l - 1], before[l], run[k].public));
    }
}

/// Once every plan is finished, every public task is over. It holds an error
/// exactly if something that its plan waits for failed: an error of a child, once
/// finished, is an error of its parent, and so on up to the top.
pub proof fn shutdown_errors_reach_the_top(
    run: Seq<ShutdownPlan>,
    drivers: Seq<Option<Arc<CordisError>>>,
    before: Seq<SharedModel>,
    after: Seq<SharedModel>,
    k: int,
)
    requires
        finishes(run, drivers, before, after),
        0 <= k < run.len(),
    ensures
        after.last().task_over(run[k].public),
        after.last().failed(run[k].public) <==> before[k].plan_fails(run[k], drivers[k]),
        forall|c: int|
            0 <= c < run.len() && run[k].children@.contains((#[trigger] run[c]).public)
                && after.last().failed(run[c].public) ==> after.last().failed(run[k].public),
{
    let end = (run.len() - 1) as int;
    finished_stays(run, drivers, before, after, k, end);
    promises_last(run, drivers, before, after, k, k);
    finished_shutdowns_hold_every_error(before[k], run[k], drivers[k], after[k]);
    assert forall|c: int|
        0 <= c < run.len() && run[k].children@.contains((#[trigger] run[c]).public)
            && after.last().failed(run[c].public) implies after.last().failed(run[k].public) by {
        finished_stays(run, drivers, before, after, c, end);
        if c < k {
            finished_stays(run, drivers, before, after, c, k);
            let at = run[k].children@.index_of(run[c].public);
            assert(before[k].failed(run[k].children@[at]));
        } else if c > k {
            assert(run[k] == run[k] && run[c] == run[c]);
            assert(false);
        }
    }
}

} // verus!
