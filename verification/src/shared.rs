//! The runtime: all fibers of one root, their tasks, their cleanup records and
//! the service registry.

use std::sync::Arc;

use crate::ctx::{scope_seen, Ctx};
use crate::diagnostics::DependencyStatus;
use crate::effect::{EffectRecord, RecordModel};
use crate::error::CordisError;
use crate::fiber::{Fiber, FiberIx, FiberModel, FiberState, Intent, TaskId};
use crate::key::{InstanceId, ScopeId, TypeKey};
use crate::registry::{binding_status, status_of, Binding, Registry, RegistryModel};
use vstd::prelude::*;

verus! {

/// How far a task is.
pub enum TaskDone {
    Running,
    /// Over, with the error that everybody who waits for it gets.
    Done(Option<Arc<CordisError>>),
}

/// What never changes about a fiber.
pub struct Node {
    pub instance: InstanceId,
    pub parent: Option<FiberIx>,
    /// The context from which the fiber's own declarations are resolved.
    pub ctx: Ctx,
}

pub struct Shared {
    pub nodes: Vec<Node>,
    pub fibers: Vec<Fiber>,
    pub tasks: Vec<TaskDone>,
    pub records: Vec<EffectRecord>,
    pub registry: Registry,
    /// The root has been shut down.
    pub closing: bool,
    /// The task of the root's shutdown.
    pub shutdown_task: Option<TaskId>,
    /// Errors for the error sink, oldest first.
    pub reports: Vec<Arc<CordisError>>,
}

/// `Shared`, with its lists as sequences.
pub struct SharedModel {
    pub nodes: Seq<Node>,
    pub fibers: Seq<FiberModel>,
    pub tasks: Seq<TaskDone>,
    pub records: Seq<RecordModel>,
    pub registry: RegistryModel,
    pub closing: bool,
    pub shutdown_task: Option<TaskId>,
    pub reports: Seq<Arc<CordisError>>,
}

impl View for Shared {
    type V = SharedModel;

    open spec fn view(&self) -> SharedModel {
        SharedModel {
            nodes: self.nodes@,
            fibers: Seq::new(self.fibers@.len(), |i: int| self.fibers@[i]@),
            tasks: self.tasks@,
            records: Seq::new(self.records@.len(), |i: int| self.records@[i]@),
            registry: self.registry@,
            closing: self.closing,
            shutdown_task: self.shutdown_task,
            reports: self.reports@,
        }
    }
}

impl SharedModel {
    /// Fiber 0 is the root; every other fiber has a parent that came before it.
    /// A fiber's id is one more than its position. The context of a fiber's own
    /// declarations is the fiber's, isolates nothing by itself, and hangs below a
    /// context of the parent.
    pub open spec fn wf(self) -> bool {
        &&& self.nodes.len() == self.fibers.len()
        &&& self.nodes.len() > 0
        &&& self.nodes[0].parent is None
        &&& forall|i: int|
            0 < i < self.nodes.len() ==> ((#[trigger] self.nodes[i]).parent matches Some(p) && p
                < i)
        &&& forall|i: int| 0 <= i < self.nodes.len() ==> self.placed(#[trigger] self.nodes[i], i)
        &&& self.registry.wf()
    }

    /// The node is that of fiber `i`.
    pub open spec fn placed(self, node: Node, i: int) -> bool {
        &&& self.fibers[i].id.0 == i + 1
        &&& node.ctx.node.fiber == i
        &&& node.ctx.node.plugin_id == self.fibers[i].id
        &&& node.ctx.node.instance == node.instance
        &&& node.ctx.node.isolate is None
        &&& match (node.parent, node.ctx.node.parent) {
            (None, None) => true,
            (Some(p), Some(above)) => above.node.fiber == p,
            _ => false,
        }
    }

    pub open spec fn has(self, i: FiberIx) -> bool {
        i < self.fibers.len()
    }

    pub open spec fn fiber(self, i: FiberIx) -> FiberModel {
        self.fibers[i as int]
    }

    pub open spec fn put(self, i: FiberIx, f: FiberModel) -> SharedModel {
        SharedModel { fibers: self.fibers.update(i as int, f), ..self }
    }

    /// The task is over, with this error.
    pub open spec fn completed(self, task: TaskId, error: Option<Arc<CordisError>>) -> SharedModel {
        if task < self.tasks.len() {
            SharedModel { tasks: self.tasks.update(task as int, TaskDone::Done(error)), ..self }
        } else {
            self
        }
    }

    pub open spec fn completed_opt(
        self,
        task: Option<TaskId>,
        error: Option<Arc<CordisError>>,
    ) -> SharedModel {
        match task {
            Some(t) => self.completed(t, error),
            None => self,
        }
    }

    /// With one more task, not over yet, at the end.
    pub open spec fn with_task(self) -> SharedModel {
        SharedModel { tasks: self.tasks.push(TaskDone::Running), ..self }
    }

    pub open spec fn reported(self, error: Option<Arc<CordisError>>) -> SharedModel {
        match error {
            Some(e) => SharedModel { reports: self.reports.push(e), ..self },
            None => self,
        }
    }

    /// What somebody is told who asks a fiber whose driver is gone: the error
    /// that the fiber ended with, or that the root is closed.
    pub open spec fn stopped(self, i: FiberIx) -> Option<Arc<CordisError>> {
        match self.fiber(i).trans.error {
            Some(e) => Some(e),
            None => if self.closing {
                Some(Arc::new(CordisError::Closed))
            } else {
                None
            },
        }
    }

    /// A request has been put to the driver, or answered in its place.
    pub open spec fn posted(self, i: FiberIx, intent: Intent) -> SharedModel {
        if self.fiber(i).alive {
            self.put(i, self.fiber(i).posted(intent))
        } else {
            self.completed_opt(intent.joined(), self.stopped(i))
        }
    }

    /// A fiber that is still there and waits for the key.
    pub open spec fn notified(self, key: TypeKey, i: FiberIx) -> bool {
        self.registry.waits(key, i) && self.fiber(i).held && self.fiber(i).alive
    }

    /// Every live fiber that waits for the key has been told to look at its
    /// dependencies again.
    pub open spec fn key_changed(self, key: TypeKey) -> SharedModel {
        self.key_changed_upto(key, self.fibers.len())
    }

    pub open spec fn key_changed_upto(self, key: TypeKey, n: nat) -> SharedModel {
        SharedModel {
            fibers: Seq::new(
                self.fibers.len(),
                |i: int|
                    if i < n && self.notified(key, i as usize) {
                        self.fibers[i].posted(Intent::RefreshDeps)
                    } else {
                        self.fibers[i]
                    },
            ),
            ..self
        }
    }

    /// The same for the first `n` of a list of keys, in order.
    pub open spec fn keys_changed(
        self,
        provided: Seq<(TypeKey, Option<ScopeId>)>,
        n: nat,
    ) -> SharedModel
        decreases n,
    {
        if n == 0 {
            self
        } else {
            self.keys_changed(provided, (n - 1) as nat).key_changed(provided[n - 1].0)
        }
    }

    /// `i` is a fiber whose way to the root, over fibers that are still there,
    /// passes the instance `id`.
    pub open spec fn in_instance(self, i: FiberIx, id: InstanceId) -> bool
        decreases i,
    {
        if !self.has(i) || !self.fiber(i).held {
            false
        } else if self.nodes[i as int].instance == id {
            true
        } else {
            match self.nodes[i as int].parent {
                Some(p) => p < i && self.in_instance(p, id),
                None => false,
            }
        }
    }

    /// The key may be used from fiber `i`: it belongs to no instance, or to one
    /// on the fiber's way to the root.
    pub open spec fn in_instance_key(self, i: FiberIx, key: TypeKey) -> bool {
        match key.identity().instance {
            Some(id) => self.in_instance(i, id),
            None => true,
        }
    }

    /// `other` is `i` itself or on its way to the root, over fibers that are
    /// still there.
    pub open spec fn within(self, i: FiberIx, other: FiberIx) -> bool
        decreases i,
    {
        if !self.has(i) || !self.fiber(i).held {
            false
        } else if i == other {
            true
        } else {
            match self.nodes[i as int].parent {
                Some(p) => p < i && self.within(p, other),
                None => false,
            }
        }
    }

    /// The state of the fiber behind a binding; a fiber that is gone counts as
    /// disposed of.
    pub open spec fn provider_state(self, binding: Binding) -> FiberState {
        if self.has(binding.provider) && self.fiber(binding.provider).held {
            self.fiber(binding.provider).state()
        } else {
            FiberState::Disposed
        }
    }

    /// What is known of a key in a scope.
    pub open spec fn bound_status(self, key: TypeKey, scope: Option<ScopeId>) -> DependencyStatus {
        match self.registry.bound(key, scope) {
            Some(b) => status_of(b, self.provider_state(b)),
            None => DependencyStatus::Missing,
        }
    }

    /// What is known of a dependency of fiber `i`.
    pub open spec fn dependency(self, i: FiberIx, key: TypeKey) -> DependencyStatus {
        if self.in_instance_key(i, key) {
            self.bound_status(key, scope_seen(self.nodes[i as int].ctx, key))
        } else {
            DependencyStatus::OutOfScope
        }
    }
}

/// A fiber as the runtime's model has it.
pub broadcast proof fn fiber_is_viewed(s: Shared, i: int)
    requires
        0 <= i < s.fibers@.len(),
    ensures
        #[trigger] s.fibers@[i]@ == s@.fibers[i],
{
}

impl Shared {
    /// Completes a task. What waits for it gets the error.
    pub fn complete(&mut self, task: TaskId, error: Option<Arc<CordisError>>)
        ensures
            old(self)@.wf() ==> final(self)@.wf(),
            final(self)@ == old(self)@.completed(task, error),
    {
        if task < self.tasks.len() {
            let ghost before = self@;
            self.tasks.set(task, TaskDone::Done(error));
            assert(self@ =~= before.completed(task, error));
        }
    }

    pub fn complete_opt(&mut self, task: Option<TaskId>, error: Option<Arc<CordisError>>)
        ensures
            old(self)@.wf() ==> final(self)@.wf(),
            final(self)@ == old(self)@.completed_opt(task, error),
    {
        if let Some(t) = task {
            self.complete(t, error);
        }
    }

    /// Opens a task.
    pub fn open_task(&mut self) -> (task: TaskId)
        ensures
            old(self)@.wf() ==> final(self)@.wf(),
            task == old(self)@.tasks.len(),
            final(self)@ == old(self)@.with_task(),
    {
        let task: usize = self.tasks.len();
        let ghost before = self@;
        self.tasks.push(TaskDone::Running);
        assert(self@ =~= before.with_task());
        task
    }

    /// The result of a task, once it is over.
    pub fn joined(&self, task: TaskId) -> (result: Option<Result<(), Arc<CordisError>>>)
        ensures
            task < self@.tasks.len() ==> match self@.tasks[task as int] {
                TaskDone::Running => result is None,
                TaskDone::Done(None) => result == Some(Ok::<(), Arc<CordisError>>(())),
                TaskDone::Done(Some(e)) => result == Some(Err::<(), Arc<CordisError>>(e)),
            },
            task >= self@.tasks.len() ==> result is None,
    {
        if task < self.tasks.len() {
            match &self.tasks[task] {
                TaskDone::Running => None,
                TaskDone::Done(None) => Some(Ok(())),
                TaskDone::Done(Some(e)) => Some(Err(e.clone())),
            }
        } else {
            None
        }
    }

    /// Puts an error in line for the error sink.
    pub fn report(&mut self, error: Option<Arc<CordisError>>)
        ensures
            old(self)@.wf() ==> final(self)@.wf(),
            final(self)@ == old(self)@.reported(error),
    {
        if let Some(e) = error {
            let ghost before = self@;
            self.reports.push(e);
            assert(self@ =~= before.reported(error));
        }
    }

    /// Takes the errors that are in line for the error sink.
    pub fn take_reports(&mut self) -> (reports: Vec<Arc<CordisError>>)
        ensures
            old(self)@.wf() ==> final(self)@.wf(),
            reports@ == old(self)@.reports,
            final(self)@ == (SharedModel { reports: Seq::empty(), ..old(self)@ }),
    {
        let ghost before = self@;
        let mut reports: Vec<Arc<CordisError>> = Vec::new();
        std::mem::swap(&mut self.reports, &mut reports);
        assert(self@ =~= (SharedModel { reports: Seq::empty(), ..before }));
        reports
    }

    pub fn stopped_error(&self, i: FiberIx) -> (error: Option<Arc<CordisError>>)
        requires
            self@.has(i),
        ensures
            error == self@.stopped(i),
    {
        match &self.fibers[i].trans.error {
            Some(e) => Some(e.clone()),
            None => if self.closing {
                Some(Arc::new(CordisError::Closed))
            } else {
                None
            },
        }
    }

    /// Puts a request to a fiber's driver. Where the driver is gone, the task
    /// that goes with the request is completed at once.
    pub fn post(&mut self, i: FiberIx, intent: Intent) -> (taken: bool)
        requires
            old(self)@.has(i),
        ensures
            old(self)@.wf() ==> final(self)@.wf(),
            final(self)@ == old(self)@.posted(i, intent),
            taken == old(self)@.fiber(i).alive,
    {
        let ghost before = self@;
        if !self.fibers[i].alive {
            let error = self.stopped_error(i);
            self.complete_opt(intent.task(), error);
            return false;
        }
        self.fibers[i].mailbox.push(intent);
        assert(self@.fibers =~= before.put(i, before.fiber(i).posted(intent)).fibers);
        assert(self@ =~= before.posted(i, intent));
        true
    }

    /// Tells every live fiber that waits for the key to look at its
    /// dependencies again.
    pub fn notify_key_changed(&mut self, key: &TypeKey)
        ensures
            old(self)@.wf() ==> final(self)@.wf(),
            final(self)@ == old(self)@.key_changed(*key),
    {
        let ghost before = self@;
        let mut i: usize = 0;
        assert(self@.fibers =~= before.key_changed_upto(*key, 0).fibers);
        while i < self.fibers.len()
            invariant
                i <= self.fibers.len(),
                self@.fibers.len() == before.fibers.len(),
                self@ == before.key_changed_upto(*key, i as nat),
            decreases self.fibers.len() - i,
        {
            if self.fibers[i].held && self.fibers[i].alive && self.registry.waiting(key, i) {
                let _ = self.post(i, Intent::RefreshDeps);
            }
            i += 1;
            assert(self@.fibers =~= before.key_changed_upto(*key, i as nat).fibers);
        }
    }

    /// Tells every live fiber that waits for anything to look at its
    /// dependencies again.
    pub fn refresh_all(&mut self)
        ensures
            old(self)@.wf() ==> final(self)@.wf(),
            final(self)@.fibers.len() == old(self)@.fibers.len(),
            final(self)@ == (SharedModel { fibers: final(self)@.fibers, ..old(self)@ }),
            forall|i: int|
                0 <= i < old(self)@.fibers.len() ==> #[trigger] final(self)@.fibers[i] == (if (exists|
                    j: int,
                |
                    0 <= j < old(self)@.registry.index.len() && (
                    #[trigger] old(self)@.registry.index[j]).1 == i) && old(self)@.fibers[i].held
                    && old(self)@.fibers[i].alive {
                    old(self)@.fibers[i].posted(Intent::RefreshDeps)
                } else {
                    old(self)@.fibers[i]
                }),
    {
        let ghost before = self@;
        let mut i: usize = 0;
        while i < self.fibers.len()
            invariant
                i <= self.fibers.len(),
                self@.fibers.len() == before.fibers.len(),
                self@ == (SharedModel { fibers: self@.fibers, ..before }),
                forall|k: int|
                    i <= k < before.fibers.len() ==> #[trigger] self@.fibers[k] == before.fibers[k],
                forall|k: int|
                    0 <= k < i ==> #[trigger] self@.fibers[k] == (if (exists|j: int|
                        0 <= j < before.registry.index.len() && (
                        #[trigger] before.registry.index[j]).1 == k) && before.fibers[k].held
                        && before.fibers[k].alive {
                        before.fibers[k].posted(Intent::RefreshDeps)
                    } else {
                        before.fibers[k]
                    }),
            decreases self.fibers.len() - i,
        {
            let mut waits = false;
            let mut j: usize = 0;
            while j < self.registry.inject_index.len()
                invariant
                    j <= self.registry.inject_index.len(),
                    self.registry@.index == before.registry.index,
                    waits == (exists|l: int|
                        0 <= l < j && (#[trigger] before.registry.index[l]).1 == i),
                decreases self.registry.inject_index.len() - j,
            {
                if self.registry.inject_index[j].1 == i {
                    waits = true;
                    assert(before.registry.index[j as int].1 == i);
                }
                j += 1;
            }
            assert(waits == (exists|l: int|
                0 <= l < before.registry.index.len() && (#[trigger] before.registry.index[l]).1
                    == i));
            let ghost here = self@;
            if waits && self.fibers[i].held && self.fibers[i].alive {
                let _ = self.post(i, Intent::RefreshDeps);
                assert(self@.fibers == here.fibers.update(
                    i as int,
                    here.fibers[i as int].posted(Intent::RefreshDeps),
                ));
            }
            assert(self.fibers@.len() == self@.fibers.len());
            i += 1;
        }
    }

    /// Whether a live ancestor of fiber `i`, or the fiber itself, is `id`.
    pub fn in_instance(&self, i: FiberIx, id: InstanceId) -> (yes: bool)
        requires
            self@.wf(),
        ensures
            yes == self@.in_instance(i, id),
        decreases i,
    {
        if i >= self.fibers.len() || !self.fibers[i].held {
            return false;
        }
        if self.nodes[i].instance == id {
            return true;
        }
        match self.nodes[i].parent {
            Some(p) => {
                assert(p < i);
                self.in_instance(p, id)
            },
            None => false,
        }
    }

    pub fn in_instance_key(&self, i: FiberIx, key: &TypeKey) -> (yes: bool)
        requires
            self@.wf(),
        ensures
            yes == self@.in_instance_key(i, *key),
    {
        match key.instance_id() {
            Some(id) => self.in_instance(i, id),
            None => true,
        }
    }

    /// Whether fiber `i` is `other` or lies below it.
    pub fn in_subtree_of(&self, i: FiberIx, other: FiberIx) -> (yes: bool)
        requires
            self@.wf(),
        ensures
            yes == self@.within(i, other),
        decreases i,
    {
        if i >= self.fibers.len() || !self.fibers[i].held {
            return false;
        }
        if i == other {
            return true;
        }
        match self.nodes[i].parent {
            Some(p) => {
                assert(p < i);
                self.in_subtree_of(p, other)
            },
            None => false,
        }
    }

    pub fn provider_state(&self, binding: &Binding) -> (state: FiberState)
        ensures
            state == self@.provider_state(*binding),
    {
        if binding.provider < self.fibers.len() && self.fibers[binding.provider].held {
            self.fibers[binding.provider].trans.state
        } else {
            FiberState::Disposed
        }
    }

    pub fn bound_status(&self, key: &TypeKey, scope: &Option<ScopeId>) -> (status: DependencyStatus)
        requires
            self@.wf(),
        ensures
            status == self@.bound_status(*key, *scope),
    {
        match self.registry.lookup(key, scope) {
            Some(b) => binding_status(&b, self.provider_state(&b)),
            None => DependencyStatus::Missing,
        }
    }

    /// What is known of a dependency of fiber `i`.
    pub fn dependency_status(&self, i: FiberIx, key: &TypeKey) -> (status: DependencyStatus)
        requires
            self@.wf(),
            self@.has(i),
        ensures
            status == self@.dependency(i, *key),
    {
        if !self.in_instance_key(i, key) {
            return DependencyStatus::OutOfScope;
        }
        let scope = self.nodes[i].ctx.scope_for(key);
        self.bound_status(key, &scope)
    }
}

} // verus!
