//! Fibers: the lifecycle containers of plugins.

use std::any::TypeId;
use std::sync::Arc;

use crate::diagnostics::ServiceAccess;
use crate::error::{clone_error, failure, plugin_failure, CordisError};
use crate::key::{clone_scope, same_key, same_scope, scope_eq, ScopeId, TypeKey};
use vstd::prelude::*;

verus! {

/// The six states of a fiber.
#[derive(Debug, Clone, Copy, PartialEq, Eq, Structural)]
pub enum FiberState {
    /// Waiting for the declared dependencies.
    Pending,
    /// Assembly in progress.
    Loading,
    /// Assembled and providing.
    Active,
    /// Validation or assembly failed.
    Failed,
    /// Removed. Only the root can be restarted from here.
    Disposed,
    /// Cleanup in progress.
    Unloading,
}

impl FiberState {
    /// The state's name.
    pub open spec fn text(&self) -> Seq<char> {
        match self {
            FiberState::Pending => "Pending"@,
            FiberState::Loading => "Loading"@,
            FiberState::Active => "Active"@,
            FiberState::Failed => "Failed"@,
            FiberState::Disposed => "Disposed"@,
            FiberState::Unloading => "Unloading"@,
        }
    }

    pub fn name(&self) -> (out: &'static str)
        ensures
            out@ == self.text(),
    {
        match self {
            FiberState::Pending => "Pending",
            FiberState::Loading => "Loading",
            FiberState::Active => "Active",
            FiberState::Failed => "Failed",
            FiberState::Disposed => "Disposed",
            FiberState::Unloading => "Unloading",
        }
    }

    /// Cleaning up, or done with it.
    pub open spec fn over(&self) -> bool {
        self is Unloading || self is Disposed
    }

    pub fn is_over(&self) -> (yes: bool)
        ensures
            yes == self.over(),
    {
        matches!(self, FiberState::Unloading | FiberState::Disposed)
    }
}

/// Plugin identity, handed out at registration.
#[derive(Debug, Clone, Copy, PartialEq, Eq, Hash, PartialOrd, Ord, Structural)]
pub struct PluginId(pub u64);

/// A change of a fiber's state. `seq` orders the changes of one fiber.
#[derive(Debug, Clone, Copy, PartialEq, Eq, Structural)]
pub struct FiberStatusChanged {
    pub plugin_id: PluginId,
    pub seq: u64,
    pub generation: u64,
    pub from: FiberState,
    pub to: FiberState,
}

/// A fiber's state at one moment.
pub struct Snapshot {
    pub generation: u64,
    pub state: FiberState,
    pub error: Option<Arc<CordisError>>,
}

/// Position of a fiber in the runtime.
pub type FiberIx = usize;

/// Position of a task in the runtime.
pub type TaskId = usize;

/// Position of a cleanup record in the runtime.
pub type RecordId = usize;

/// Handle of a configuration value that the surroundings keep.
pub type ConfigId = u64;

/// A request to a fiber's driver. The driver takes one at a time, in order.
#[derive(Debug, Clone, Copy, PartialEq, Eq, Structural)]
pub enum Intent {
    /// Look at the dependencies again.
    RefreshDeps,
    /// The same, completing a task afterwards.
    RefreshDepsJoin(TaskId),
    /// Completes its task once all earlier requests have been handled.
    Settle(TaskId),
    Restart(TaskId),
    Dispose,
    Shutdown(TaskId),
}

impl Intent {
    /// The task that is completed with the request.
    pub open spec fn joined(&self) -> Option<TaskId> {
        match self {
            Intent::RefreshDepsJoin(task) => Some(*task),
            Intent::Settle(task) => Some(*task),
            Intent::Restart(task) => Some(*task),
            Intent::Shutdown(task) => Some(*task),
            _ => None,
        }
    }

    pub fn task(&self) -> (task: Option<TaskId>)
        ensures
            task == self.joined(),
    {
        match self {
            Intent::RefreshDepsJoin(task) => Some(*task),
            Intent::Settle(task) => Some(*task),
            Intent::Restart(task) => Some(*task),
            Intent::Shutdown(task) => Some(*task),
            _ => None,
        }
    }
}

/// A request that ends a fiber.
#[derive(Debug, Clone, Copy, PartialEq, Eq, Structural)]
pub enum Terminal {
    Dispose,
    Shutdown(TaskId),
}

/// What a driver does once a fiber's cleanups have been drained.
#[derive(Debug, Clone, Copy, PartialEq, Eq, Structural)]
pub enum AfterDrain {
    /// Stay without the missing dependencies.
    Settle,
    /// Assemble again with the dependencies found.
    Load,
    /// Look for dependencies.
    Refresh,
    /// The fiber was closed while it was being assembled.
    LateClose,
    /// The fiber ends.
    End(Terminal),
}

/// What a driver is waiting for. `join` is the task to complete at the end of
/// the request that is being handled.
#[derive(Debug, Clone, Copy, PartialEq, Eq, Structural)]
pub enum Stage {
    /// The next request.
    Idle,
    /// The end of the callbacks in flight.
    Flights(Terminal),
    /// The readiness checks of the dependencies.
    Resolving { join: Option<TaskId> },
    /// The plugin instance.
    Building { join: Option<TaskId> },
    /// The end of the assembly.
    Applying { join: Option<TaskId> },
    /// The readiness checks after the assembly.
    Adopting { join: Option<TaskId> },
    /// The cleanups of a failed assembly.
    RollingBack { join: Option<TaskId> },
    /// The cleanups of an unloaded fiber.
    Draining { after: AfterDrain, join: Option<TaskId> },
    /// The cleanups after an unexpected panic of the driver.
    Recovering { task: Option<TaskId> },
    /// The release of what the parent keeps of the fiber.
    Releasing { last: Option<TaskId> },
    /// Nothing any more.
    Exited,
}

impl Stage {
    /// The task that is completed with the request that is being handled.
    pub open spec fn joined(&self) -> Option<TaskId> {
        match *self {
            Stage::Idle | Stage::Exited | Stage::Flights(Terminal::Dispose) => None,
            Stage::Flights(Terminal::Shutdown(task)) => Some(task),
            Stage::Resolving { join } => join,
            Stage::Building { join } => join,
            Stage::Applying { join } => join,
            Stage::Adopting { join } => join,
            Stage::RollingBack { join } => join,
            Stage::Draining { after: AfterDrain::End(Terminal::Shutdown(task)), .. } => Some(task),
            Stage::Draining { join, .. } => join,
            Stage::Recovering { task } => task,
            Stage::Releasing { last } => last,
        }
    }

    pub fn task(&self) -> (task: Option<TaskId>)
        ensures
            task == self.joined(),
    {
        match *self {
            Stage::Idle | Stage::Exited | Stage::Flights(Terminal::Dispose) => None,
            Stage::Flights(Terminal::Shutdown(task)) => Some(task),
            Stage::Resolving { join } => join,
            Stage::Building { join } => join,
            Stage::Applying { join } => join,
            Stage::Adopting { join } => join,
            Stage::RollingBack { join } => join,
            Stage::Draining { after: AfterDrain::End(Terminal::Shutdown(task)), .. } => Some(task),
            Stage::Draining { join, .. } => join,
            Stage::Recovering { task } => task,
            Stage::Releasing { last } => last,
        }
    }
}

/// A dependency as it was found: who provided it, in which generation, under
/// which key and scope.
pub struct Dep {
    pub provider: PluginId,
    pub generation: u64,
    pub key: TypeKey,
    pub scope: Option<ScopeId>,
}

pub open spec fn same_dep(a: Dep, b: Dep) -> bool {
    &&& a.provider == b.provider
    &&& a.generation == b.generation
    &&& same_key(a.key, b.key)
    &&& same_scope(a.scope, b.scope)
}

/// Whether a list holds a dependency.
pub open spec fn has_dep(list: Seq<Dep>, dep: Dep) -> bool {
    exists|i: int| 0 <= i < list.len() && same_dep(#[trigger] list[i], dep)
}

/// Whether two lists hold the same dependencies.
pub open spec fn same_deps(a: Seq<Dep>, b: Seq<Dep>) -> bool {
    &&& forall|i: int| 0 <= i < a.len() ==> has_dep(b, #[trigger] a[i])
    &&& forall|i: int| 0 <= i < b.len() ==> has_dep(a, #[trigger] b[i])
}

impl Dep {
    pub fn same(&self, other: &Dep) -> (same: bool)
        ensures
            same == same_dep(*self, *other),
    {
        self.provider == other.provider && self.generation == other.generation && self.key
            == other.key && scope_eq(&self.scope, &other.scope)
    }

    pub fn copied(&self) -> (copy: Dep)
        ensures
            copy == *self,
    {
        Dep {
            provider: self.provider,
            generation: self.generation,
            key: self.key.clone(),
            scope: clone_scope(&self.scope),
        }
    }
}

pub fn contains_dep(list: &Vec<Dep>, dep: &Dep) -> (found: bool)
    ensures
        found == has_dep(list@, *dep),
{
    let mut i: usize = 0;
    while i < list.len()
        invariant
            i <= list.len(),
            forall|j: int| 0 <= j < i ==> !same_dep(#[trigger] list@[j], *dep),
        decreases list.len() - i,
    {
        if list[i].same(dep) {
            return true;
        }
        i += 1;
    }
    false
}

pub fn deps_within(a: &Vec<Dep>, b: &Vec<Dep>) -> (all: bool)
    ensures
        all == (forall|i: int| 0 <= i < a@.len() ==> has_dep(b@, #[trigger] a@[i])),
{
    let mut i: usize = 0;
    while i < a.len()
        invariant
            i <= a.len(),
            forall|j: int| 0 <= j < i ==> has_dep(b@, #[trigger] a@[j]),
        decreases a.len() - i,
    {
        if !contains_dep(b, &a[i]) {
            assert(!has_dep(b@, a@[i as int]));
            return false;
        }
        i += 1;
    }
    true
}

/// Where a fiber's plugin instances come from.
#[derive(Clone, Copy)]
pub enum Source {
    /// Nowhere: the root and fibers that were closed at birth.
    Nowhere,
    /// One given instance for all generations.
    Static,
    /// A factory that builds one instance for each generation, out of a
    /// configuration of the given type.
    Factory(TypeId),
}

/// How the plugin instance of a generation is obtained.
pub enum PluginPlan {
    /// The given instance.
    Given,
    /// Built from a configuration.
    Build(ConfigId),
}

/// The part of a fiber that its state changes go through.
pub struct Trans {
    pub generation: u64,
    pub state: FiberState,
    pub error: Option<Arc<CordisError>>,
    pub seq: u64,
    pub status_queue: Vec<FiberStatusChanged>,
    pub terminal_task: Option<TaskId>,
}

/// A lifecycle container.
pub struct Fiber {
    pub id: PluginId,
    pub name: String,
    pub source: Source,
    pub config: Option<ConfigId>,
    pub children: Vec<FiberIx>,
    /// Closed for good, with everything below it.
    pub closing: bool,
    /// The driver takes requests.
    pub alive: bool,
    /// Somebody still holds the fiber.
    pub held: bool,
    /// Callbacks in flight that the end of the fiber waits for.
    pub flights: usize,
    /// The current generation has been cancelled.
    pub cancelled: bool,
    pub trans: Trans,
    pub effects: Vec<RecordId>,
    /// Cleanup records handed over for draining, in the order of draining.
    pub draining: Vec<RecordId>,
    /// Errors of cleanups that were drained ahead of the fiber's own unloading.
    pub drained_errors: Vec<Arc<CordisError>>,
    /// The record on the parent that disposes of this fiber.
    pub mount: Option<RecordId>,
    pub declared_injects: Vec<TypeKey>,
    pub mailbox: Vec<Intent>,
    pub provided: Vec<(TypeKey, Option<ScopeId>)>,
    /// The dependencies of the current assembly.
    pub last_deps: Option<Vec<Dep>>,
    /// The dependencies found for the next assembly.
    pub next_deps: Vec<Dep>,
    pub accesses: Vec<ServiceAccess>,
    pub shutdown_task: Option<TaskId>,
    pub shutdown_inner: Option<TaskId>,
    pub stage: Stage,
    /// Why an assembly is being rolled back, or what a fiber had failed with
    /// before it was shut down.
    pub held_error: Option<Arc<CordisError>>,
}

/// `Trans`, with its queue as a sequence.
pub struct TransModel {
    pub generation: u64,
    pub state: FiberState,
    pub error: Option<Arc<CordisError>>,
    pub seq: u64,
    pub queue: Seq<FiberStatusChanged>,
    pub terminal: Option<TaskId>,
}

/// `Fiber`, with its lists as sequences.
pub struct FiberModel {
    pub id: PluginId,
    pub name: Seq<char>,
    pub source: Source,
    pub config: Option<ConfigId>,
    pub children: Seq<FiberIx>,
    pub closing: bool,
    pub alive: bool,
    pub held: bool,
    pub flights: usize,
    pub cancelled: bool,
    pub trans: TransModel,
    pub effects: Seq<RecordId>,
    pub draining: Seq<RecordId>,
    pub drained: Seq<Arc<CordisError>>,
    pub mount: Option<RecordId>,
    pub declared: Seq<TypeKey>,
    pub mailbox: Seq<Intent>,
    pub provided: Seq<(TypeKey, Option<ScopeId>)>,
    pub last_deps: Option<Seq<Dep>>,
    pub next_deps: Seq<Dep>,
    pub accesses: Seq<ServiceAccess>,
    pub shutdown_task: Option<TaskId>,
    pub shutdown_inner: Option<TaskId>,
    pub stage: Stage,
    pub held_error: Option<Arc<CordisError>>,
}

impl View for Trans {
    type V = TransModel;

    open spec fn view(&self) -> TransModel {
        TransModel {
            generation: self.generation,
            state: self.state,
            error: self.error,
            seq: self.seq,
            queue: self.status_queue@,
            terminal: self.terminal_task,
        }
    }
}

impl View for Fiber {
    type V = FiberModel;

    open spec fn view(&self) -> FiberModel {
        FiberModel {
            id: self.id,
            name: self.name@,
            source: self.source,
            config: self.config,
            children: self.children@,
            closing: self.closing,
            alive: self.alive,
            held: self.held,
            flights: self.flights,
            cancelled: self.cancelled,
            trans: self.trans@,
            effects: self.effects@,
            draining: self.draining@,
            drained: self.drained_errors@,
            mount: self.mount,
            declared: self.declared_injects@,
            mailbox: self.mailbox@,
            provided: self.provided@,
            last_deps: match self.last_deps {
                Some(d) => Some(d@),
                None => None,
            },
            next_deps: self.next_deps@,
            accesses: self.accesses@,
            shutdown_task: self.shutdown_task,
            shutdown_inner: self.shutdown_inner,
            stage: self.stage,
            held_error: self.held_error,
        }
    }
}

impl FiberModel {
    /// The fiber's state.
    pub open spec fn state(self) -> FiberState {
        self.trans.state
    }

    /// The fiber in another state: a change is counted and queued, staying in
    /// the same state is not a change.
    pub open spec fn moved(self, new: FiberState) -> FiberModel {
        if self.trans.state == new {
            self
        } else {
            FiberModel {
                trans: TransModel {
                    state: new,
                    seq: (self.trans.seq + 1) as u64,
                    queue: self.trans.queue.push(
                        FiberStatusChanged {
                            plugin_id: self.id,
                            seq: (self.trans.seq + 1) as u64,
                            generation: self.trans.generation,
                            from: self.trans.state,
                            to: new,
                        },
                    ),
                    ..self.trans
                },
                ..self
            }
        }
    }

    pub open spec fn with_error(self, error: Option<Arc<CordisError>>) -> FiberModel {
        FiberModel { trans: TransModel { error, ..self.trans }, ..self }
    }

    pub open spec fn at(self, stage: Stage) -> FiberModel {
        FiberModel { stage, ..self }
    }

    /// The fiber in the course of unloading: its generation is cancelled and
    /// its cleanups have been handed over, the last registered first.
    pub open spec fn unloading(self, stage: Stage) -> FiberModel {
        FiberModel {
            cancelled: true,
            effects: Seq::empty(),
            draining: self.effects.reverse(),
            stage,
            ..self.moved(FiberState::Unloading)
        }
    }

    /// The fiber after all of its cleanups: nothing provided, no dependencies
    /// held, no errors kept back.
    pub open spec fn emptied(self) -> FiberModel {
        FiberModel { drained: Seq::empty(), last_deps: None, provided: Seq::empty(), ..self }
    }

    /// A new generation that starts to load.
    pub open spec fn loading(self, join: Option<TaskId>) -> FiberModel {
        FiberModel {
            cancelled: false,
            accesses: Seq::empty(),
            trans: TransModel {
                generation: (self.trans.generation + 1) as u64,
                error: None,
                ..self.trans
            },
            ..self
        }.moved(FiberState::Loading).at(Stage::Building { join })
    }

    /// Room for the counters of one more step.
    pub open spec fn has_room(self) -> bool {
        self.trans.seq < u64::MAX - 4 && self.trans.generation < u64::MAX
    }

    pub open spec fn posted(self, intent: Intent) -> FiberModel {
        FiberModel { mailbox: self.mailbox.push(intent), ..self }
    }
}

impl Fiber {
    /// Moves the fiber to another state.
    pub fn set_state(&mut self, new: FiberState)
        requires
            old(self)@.trans.seq < u64::MAX,
        ensures
            final(self)@ == old(self)@.moved(new),
    {
        let from = self.trans.state;
        if from == new {
            return;
        }
        self.trans.state = new;
        self.trans.seq = self.trans.seq + 1;
        self.trans.status_queue.push(
            FiberStatusChanged {
                plugin_id: self.id,
                seq: self.trans.seq,
                generation: self.trans.generation,
                from,
                to: new,
            },
        );
    }

    /// Takes the queued state changes, oldest first.
    pub fn flush_status(&mut self) -> (queue: Vec<FiberStatusChanged>)
        ensures
            queue@ == old(self)@.trans.queue,
            final(self)@ == (FiberModel {
                trans: TransModel { queue: Seq::empty(), ..old(self)@.trans },
                ..old(self)@
            }),
    {
        let mut queue: Vec<FiberStatusChanged> = Vec::new();
        std::mem::swap(&mut self.trans.status_queue, &mut queue);
        queue
    }

    pub fn state_snapshot(&self) -> (snapshot: Snapshot)
        ensures
            snapshot.generation == self@.trans.generation,
            snapshot.state == self@.trans.state,
            snapshot.error == self@.trans.error,
    {
        Snapshot {
            generation: self.trans.generation,
            state: self.trans.state,
            error: clone_error(&self.trans.error),
        }
    }

    /// Sets the fiber on its way to unload.
    pub fn begin_unload(&mut self, stage: Stage)
        requires
            old(self)@.trans.seq < u64::MAX,
        ensures
            final(self)@ == old(self)@.unloading(stage),
    {
        self.set_state(FiberState::Unloading);
        self.cancelled = true;
        self.stage = stage;
        let mut list: Vec<RecordId> = Vec::new();
        std::mem::swap(&mut self.effects, &mut list);
        let ghost all = list@;
        let mut records: Vec<RecordId> = Vec::new();
        while list.len() > 0
            invariant
                list@.len() + records@.len() == all.len(),
                list@ == all.subrange(0, list@.len() as int),
                records@ == all.subrange(list@.len() as int, all.len() as int).reverse(),
            decreases list.len(),
        {
            let n: usize = list.len();
            if let Some(r) = list.pop() {
                records.push(r);
                assert(records@ =~= all.subrange(n - 1, all.len() as int).reverse());
                assert(list@ =~= all.subrange(0, n - 1));
            }
        }
        assert(all.subrange(0, all.len() as int) =~= all);
        self.draining = records;
    }

    /// Takes the errors of the drained cleanups together with those kept back,
    /// and resets what the cleanups undid.
    pub fn end_drain(&mut self, errors: Vec<Arc<CordisError>>) -> (all: Vec<Arc<CordisError>>)
        ensures
            all@ == errors@ + old(self)@.drained,
            final(self)@ == old(self)@.emptied(),
    {
        let mut all = errors;
        all.append(&mut self.drained_errors);
        self.last_deps = None;
        self.provided.clear();
        all
    }

    /// Starts a new generation.
    pub fn begin_generation(&mut self, join: Option<TaskId>)
        requires
            old(self)@.trans.seq < u64::MAX,
            old(self)@.trans.generation < u64::MAX,
        ensures
            final(self)@ == old(self)@.loading(join),
    {
        self.cancelled = false;
        self.accesses.clear();
        self.trans.generation = self.trans.generation + 1;
        self.trans.error = None;
        self.set_state(FiberState::Loading);
        self.stage = Stage::Building { join };
    }

    /// How the instance of the current generation is obtained.
    pub fn current_plugin(&self) -> (plan: Result<PluginPlan, CordisError>)
        ensures
            match (self@.source, self@.config) {
                (Source::Static, _) => plan == Ok::<PluginPlan, CordisError>(PluginPlan::Given),
                (Source::Factory(_), Some(config)) => plan == Ok::<PluginPlan, CordisError>(
                    PluginPlan::Build(config),
                ),
                (Source::Factory(_), None) => plan matches Err(e) && failure(
                    e,
                    "factory fiber has no config"@,
                ),
                (Source::Nowhere, _) => plan matches Err(e) && failure(
                    e,
                    "fiber has no plugin or factory"@,
                ),
            },
    {
        match self.source {
            Source::Static => Ok(PluginPlan::Given),
            Source::Factory(_) => match self.config {
                Some(config) => Ok(PluginPlan::Build(config)),
                None => Err(plugin_failure("factory fiber has no config")),
            },
            Source::Nowhere => Err(plugin_failure("fiber has no plugin or factory")),
        }
    }

    /// One more callback in flight.
    pub fn begin_event(&mut self)
        requires
            old(self)@.flights < usize::MAX,
        ensures
            final(self)@ == (FiberModel { flights: (old(self)@.flights + 1) as usize, ..old(self)@ }),
    {
        self.flights = self.flights + 1;
    }

    /// One callback in flight less.
    pub fn finish_event(&mut self)
        requires
            old(self)@.flights > 0,
        ensures
            final(self)@ == (FiberModel { flights: (old(self)@.flights - 1) as usize, ..old(self)@ }),
    {
        self.flights = self.flights - 1;
    }

    pub fn cancel_current(&mut self)
        ensures
            final(self)@ == (FiberModel { cancelled: true, ..old(self)@ }),
    {
        self.cancelled = true;
    }

    /// Takes the errors of cleanups that were drained early.
    pub fn take_cleanup_errors(&mut self) -> (errors: Vec<Arc<CordisError>>)
        ensures
            errors@ == old(self)@.drained,
            final(self)@ == (FiberModel { drained: Seq::empty(), ..old(self)@ }),
    {
        let mut errors: Vec<Arc<CordisError>> = Vec::new();
        std::mem::swap(&mut self.drained_errors, &mut errors);
        errors
    }
}

} // verus!
