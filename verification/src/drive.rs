//! The driver of a fiber: one request at a time, with every wait as a stage at
//! which the driver stands until it is told how the wait ended.

use std::sync::Arc;

use crate::ctx::scope_seen;
use crate::diagnostics::DependencyStatus;
use crate::effect::{fresh_record, Effect, EffectRecord, RecordModel};
use crate::error::{aggregate_arcs, aggregated, clone_error, CordisError};
use crate::fiber::{
    contains_dep, deps_within, has_dep, same_deps, AfterDrain, Dep, FiberIx, FiberModel, FiberState,
    Intent, RecordId, Source, Stage, TaskId, Terminal, TransModel,
};
use crate::key::{ScopeId, TypeKey};
use crate::list::{filter_empty, filter_step, whole};
use crate::registry::{of_others, CheckOutcome, RegistryModel};
use crate::shared::{Shared, SharedModel};
use crate::text::joined;
use vstd::prelude::*;

verus! {

broadcast use crate::shared::fiber_is_viewed;

/// A readiness check to run for a dependency.
pub struct CheckRequest {
    pub key: TypeKey,
    pub scope: Option<ScopeId>,
    pub binding: u64,
}

/// How a readiness check ended.
pub struct CheckReport {
    pub request: CheckRequest,
    pub outcome: CheckOutcome,
}

impl SharedModel {
    /// The dependency that fiber `i` has under a key that is ready.
    pub open spec fn dep_of(self, i: FiberIx, key: TypeKey) -> Dep {
        let scope = scope_seen(self.nodes[i as int].ctx, key);
        let b = self.registry.bound(key, scope)->0;
        Dep { provider: b.provider_id, generation: b.provider_gen, key, scope }
    }

    /// The dependencies found for the first `n` declarations of fiber `i`, none
    /// twice.
    pub open spec fn found(self, i: FiberIx, n: nat) -> Seq<Dep>
        decreases n,
    {
        if n == 0 {
            seq![]
        } else {
            let before = self.found(i, (n - 1) as nat);
            let key = self.fiber(i).declared[n - 1];
            if self.dependency(i, key) == DependencyStatus::Ready && !has_dep(
                before,
                self.dep_of(i, key),
            ) {
                before.push(self.dep_of(i, key))
            } else {
                before
            }
        }
    }

    pub open spec fn all_found(self, i: FiberIx) -> Seq<Dep> {
        self.found(i, self.fiber(i).declared.len())
    }

    /// Every declared dependency of fiber `i` is ready.
    pub open spec fn all_ready(self, i: FiberIx) -> bool {
        forall|k: int|
            0 <= k < self.fiber(i).declared.len() ==> self.dependency(
                i,
                #[trigger] self.fiber(i).declared[k],
            ) == DependencyStatus::Ready
    }

    /// Whether a declared dependency of fiber `i` hangs on a readiness check.
    pub open spec fn asks_check(self, i: FiberIx, key: TypeKey) -> bool {
        &&& self.in_instance_key(i, key)
        &&& self.registry.bound(key, scope_seen(self.nodes[i as int].ctx, key)) matches Some(b)
        &&& b.has_check && !b.removing && self.provider_state(b) == FiberState::Active
    }

    /// The readiness checks to run for the first `n` declarations of fiber `i`.
    pub open spec fn checks(self, i: FiberIx, n: nat) -> Seq<CheckRequest>
        decreases n,
    {
        if n == 0 {
            seq![]
        } else {
            let before = self.checks(i, (n - 1) as nat);
            let key = self.fiber(i).declared[n - 1];
            if self.asks_check(i, key) {
                let scope = scope_seen(self.nodes[i as int].ctx, key);
                before.push(
                    CheckRequest { key, scope, binding: (self.registry.bound(key, scope)->0).id },
                )
            } else {
                before
            }
        }
    }

    /// The first `n` check results have been noted.
    pub open spec fn noted(self, reports: Seq<CheckReport>, n: nat) -> SharedModel
        decreases n,
    {
        if n == 0 {
            self
        } else {
            let before = self.noted(reports, (n - 1) as nat);
            let r = reports[n - 1];
            SharedModel {
                registry: before.registry.checked(
                    r.request.key,
                    r.request.scope,
                    r.request.binding,
                    r.outcome,
                ),
                ..before
            }
        }
    }

    pub open spec fn at(self, i: FiberIx, stage: Stage) -> SharedModel {
        self.put(i, self.fiber(i).at(stage))
    }

    /// The request is over: its task gets the fiber's error, and the driver is
    /// free.
    pub open spec fn over(self, i: FiberIx, join: Option<TaskId>) -> SharedModel {
        self.at(i, Stage::Idle).completed_opt(join, self.fiber(i).trans.error)
    }

    pub open spec fn unloading(self, i: FiberIx, after: AfterDrain, join: Option<TaskId>) -> SharedModel {
        self.put(i, self.fiber(i).unloading(Stage::Draining { after, join }))
    }

    /// The fiber, or everything, has been closed.
    pub open spec fn shut(self, i: FiberIx) -> bool {
        self.fiber(i).closing || self.closing
    }

    /// The driver looks for the dependencies, unless there is nothing to load.
    pub open spec fn refreshing(self, i: FiberIx, join: Option<TaskId>) -> SharedModel {
        let f = self.fiber(i);
        if self.shut(i) || f.source is Nowhere || f.state() == FiberState::Disposed {
            self.over(i, join)
        } else {
            self.at(i, Stage::Resolving { join })
        }
    }

    /// A new generation starts to load, unless the fiber has been closed.
    pub open spec fn loading(self, i: FiberIx, join: Option<TaskId>) -> SharedModel {
        if self.shut(i) {
            self.over(i, join)
        } else {
            self.put(i, self.fiber(i).loading(join))
        }
    }

    /// The dependencies have been looked at. Without all of them a fiber that
    /// runs is unloaded, and any other stays as it is; with the same ones as
    /// before nothing happens; with others the fiber is loaded anew.
    pub open spec fn resolved(self, i: FiberIx, join: Option<TaskId>) -> SharedModel {
        let f = self.fiber(i);
        if !self.all_ready(i) {
            if f.state() == FiberState::Active || f.state() == FiberState::Loading {
                self.unloading(i, AfterDrain::Settle, join)
            } else {
                self.over(i, join)
            }
        } else if f.last_deps matches Some(last) && same_deps(last, self.all_found(i)) {
            self.over(i, join)
        } else {
            let next = self.put(i, FiberModel { next_deps: self.all_found(i), ..f });
            if f.state() == FiberState::Pending || f.state() == FiberState::Disposed {
                next.loading(i, join)
            } else {
                next.unloading(i, AfterDrain::Load, join)
            }
        }
    }

    /// An assembly is being rolled back.
    pub open spec fn rolling_back(
        self,
        i: FiberIx,
        error: Arc<CordisError>,
        join: Option<TaskId>,
    ) -> SharedModel {
        self.put(
            i,
            FiberModel {
                held_error: Some(error),
                ..self.fiber(i).unloading(Stage::RollingBack { join })
            },
        )
    }

    /// An instance is there: the fiber depends on what was found for it.
    pub open spec fn applying(self, i: FiberIx, join: Option<TaskId>) -> SharedModel {
        let f = self.fiber(i);
        self.put(
            i,
            FiberModel {
                last_deps: Some(f.next_deps),
                next_deps: Seq::empty(),
                stage: Stage::Applying { join },
                ..f
            },
        )
    }

    /// The assembly ended well: its cleanup is the fiber's. A fiber that was
    /// closed meanwhile is unloaded for good.
    pub open spec fn assembled(self, i: FiberIx, record: RecordModel, join: Option<TaskId>) -> SharedModel {
        let f = self.fiber(i);
        let next = SharedModel { records: self.records.push(record), ..self }.put(
            i,
            FiberModel { effects: f.effects.push(self.records.len() as usize), ..f },
        );
        if f.closing {
            next.unloading(i, AfterDrain::LateClose, join)
        } else {
            next.at(i, Stage::Adopting { join })
        }
    }

    /// The fiber is active. If the dependencies are all there, they are what it
    /// depends on from now on, whatever changed while it was being assembled.
    /// Fibers that wait for what it provides are told.
    pub open spec fn activated(self, i: FiberIx, join: Option<TaskId>) -> SharedModel {
        let f = self.fiber(i);
        let adopted = if self.all_ready(i) {
            FiberModel { last_deps: Some(self.all_found(i)), ..f }
        } else {
            f
        };
        self.put(i, adopted.with_error(None).moved(FiberState::Active)).keys_changed(
            f.provided,
            f.provided.len(),
        ).over(i, join)
    }
}

impl Shared {
    /// The dependencies of fiber `i` that are ready, and whether all are.
    pub fn resolve_deps(&self, i: FiberIx) -> (result: (Vec<Dep>, bool))
        requires
            self@.wf(),
            self@.has(i),
        ensures
            result.0@ == self@.all_found(i),
            result.1 == self@.all_ready(i),
    {
        let mut deps: Vec<Dep> = Vec::new();
        let mut all = true;
        let mut k: usize = 0;
        while k < self.fibers[i].declared_injects.len()
            invariant
                self@.wf(),
                self@.has(i),
                k <= self@.fiber(i).declared.len(),
                deps@ == self@.found(i, k as nat),
                all == (forall|l: int|
                    0 <= l < k ==> self@.dependency(i, #[trigger] self@.fiber(i).declared[l])
                        == DependencyStatus::Ready),
            decreases self@.fiber(i).declared.len() - k,
        {
            let key = &self.fibers[i].declared_injects[k];
            assert(*key == self@.fiber(i).declared[k as int]);
            if self.dependency_status(i, key) == DependencyStatus::Ready {
                let scope = self.nodes[i].ctx.scope_for(key);
                if let Some(b) = self.registry.lookup(key, &scope) {
                    let dep = Dep {
                        provider: b.provider_id,
                        generation: b.provider_gen,
                        key: key.clone(),
                        scope,
                    };
                    assert(dep == self@.dep_of(i, *key));
                    if !contains_dep(&deps, &dep) {
                        deps.push(dep);
                    }
                }
            } else {
                all = false;
            }
            k += 1;
        }
        (deps, all)
    }

    /// The readiness checks that fiber `i` has to wait for.
    pub fn pending_checks(&self, i: FiberIx) -> (list: Vec<CheckRequest>)
        requires
            self@.wf(),
            self@.has(i),
        ensures
            list@ == self@.checks(i, self@.fiber(i).declared.len()),
    {
        let mut list: Vec<CheckRequest> = Vec::new();
        let mut k: usize = 0;
        while k < self.fibers[i].declared_injects.len()
            invariant
                self@.wf(),
                self@.has(i),
                k <= self@.fiber(i).declared.len(),
                list@ == self@.checks(i, k as nat),
            decreases self@.fiber(i).declared.len() - k,
        {
            let key = &self.fibers[i].declared_injects[k];
            assert(*key == self@.fiber(i).declared[k as int]);
            if self.in_instance_key(i, key) {
                let scope = self.nodes[i].ctx.scope_for(key);
                if let Some(b) = self.registry.lookup(key, &scope) {
                    if b.has_check && !b.removing && self.provider_state(&b) == FiberState::Active {
                        list.push(CheckRequest { key: key.clone(), scope, binding: b.id });
                    }
                }
            }
            k += 1;
        }
        list
    }

    fn note_checks(&mut self, reports: &Vec<CheckReport>)
        requires
            old(self)@.wf(),
        ensures
            final(self)@ == old(self)@.noted(reports@, reports@.len()),
            final(self)@.wf(),
            final(self)@.fibers == old(self)@.fibers,
    {
        let ghost before = self@;
        let mut k: usize = 0;
        while k < reports.len()
            invariant
                k <= reports.len(),
                self@ == before.noted(reports@, k as nat),
                self@.wf(),
                self@.fibers == before.fibers,
            decreases reports.len() - k,
        {
            let r = &reports[k];
            let ghost here = self@;
            self.registry.record_check(
                &r.request.key,
                &r.request.scope,
                r.request.binding,
                r.outcome,
            );
            k += 1;
            assert(self@ =~= before.noted(reports@, k as nat));
        }
    }

    fn set_stage(&mut self, i: FiberIx, stage: Stage)
        requires
            old(self)@.has(i),
        ensures
            old(self)@.wf() ==> final(self)@.wf(),
            final(self)@ == old(self)@.at(i, stage),
    {
        let ghost before = self@;
        self.fibers[i].stage = stage;
        assert(self@.fibers =~= before.at(i, stage).fibers);
    }

    fn end_request(&mut self, i: FiberIx, join: Option<TaskId>)
        requires
            old(self)@.has(i),
        ensures
            old(self)@.wf() ==> final(self)@.wf(),
            final(self)@ == old(self)@.over(i, join),
    {
        let error = clone_error(&self.fibers[i].trans.error);
        self.set_stage(i, Stage::Idle);
        self.complete_opt(join, error);
    }

    fn unload(&mut self, i: FiberIx, after: AfterDrain, join: Option<TaskId>)
        requires
            old(self)@.has(i),
            old(self)@.fiber(i).trans.seq < u64::MAX,
        ensures
            old(self)@.wf() ==> final(self)@.wf(),
            final(self)@ == old(self)@.unloading(i, after, join),
    {
        let ghost before = self@;
        self.fibers[i].begin_unload(Stage::Draining { after, join });
        assert(self@.fibers =~= before.unloading(i, after, join).fibers);
    }

    fn refresh_deps(&mut self, i: FiberIx, join: Option<TaskId>)
        requires
            old(self)@.has(i),
        ensures
            old(self)@.wf() ==> final(self)@.wf(),
            final(self)@ == old(self)@.refreshing(i, join),
    {
        if self.fibers[i].closing || self.closing || matches!(
            self.fibers[i].source,
            Source::Nowhere
        ) || self.fibers[i].trans.state == FiberState::Disposed {
            self.end_request(i, join);
        } else {
            self.set_stage(i, Stage::Resolving { join });
        }
    }

    fn start_load(&mut self, i: FiberIx, join: Option<TaskId>)
        requires
            old(self)@.has(i),
            old(self)@.fiber(i).trans.seq < u64::MAX,
            old(self)@.fiber(i).trans.generation < u64::MAX,
        ensures
            old(self)@.wf() ==> final(self)@.wf(),
            final(self)@ == old(self)@.loading(i, join),
    {
        let ghost before = self@;
        if self.fibers[i].closing || self.closing {
            self.end_request(i, join);
        } else {
            self.fibers[i].begin_generation(join);
            assert(self@.fibers =~= before.loading(i, join).fibers);
        }
    }

    /// The readiness checks of the dependencies are over.
    pub fn dependencies_checked(&mut self, i: FiberIx, reports: Vec<CheckReport>)
        requires
            old(self)@.wf(),
            old(self)@.has(i),
            old(self)@.fiber(i).stage is Resolving,
            old(self)@.fiber(i).has_room(),
        ensures
            final(self)@ == old(self)@.noted(reports@, reports@.len()).resolved(
                i,
                old(self)@.fiber(i).stage->Resolving_join,
            ),
            final(self)@.wf(),
    {
        let join = match self.fibers[i].stage {
            Stage::Resolving { join } => join,
            _ => None,
        };
        self.note_checks(&reports);
        let ghost m = self@;
        let (deps, all) = self.resolve_deps(i);
        let state = self.fibers[i].trans.state;
        if !all {
            if state == FiberState::Active || state == FiberState::Loading {
                self.unload(i, AfterDrain::Settle, join);
            } else {
                self.end_request(i, join);
            }
            return;
        }
        let unchanged = match &self.fibers[i].last_deps {
            Some(last) => deps_within(last, &deps) && deps_within(&deps, last),
            None => false,
        };
        assert(unchanged == (m.fiber(i).last_deps matches Some(last) && same_deps(
            last,
            m.all_found(i),
        )));
        if unchanged {
            self.end_request(i, join);
            return;
        }
        self.fibers[i].next_deps = deps;
        let ghost next = m.put(i, FiberModel { next_deps: m.all_found(i), ..m.fiber(i) });
        assert(self@.fibers =~= next.fibers);
        if state == FiberState::Pending || state == FiberState::Disposed {
            self.start_load(i, join);
        } else {
            self.unload(i, AfterDrain::Load, join);
        }
    }

    /// An instance for the new generation has been built and validated, or not.
    pub fn instance_built(&mut self, i: FiberIx, result: Result<(), CordisError>)
        requires
            old(self)@.has(i),
            old(self)@.fiber(i).stage is Building,
            old(self)@.fiber(i).has_room(),
        ensures
            old(self)@.wf() ==> final(self)@.wf(),
            final(self)@ == (match result {
                Ok(_) => old(self)@.applying(i, old(self)@.fiber(i).stage->Building_join),
                Err(e) => old(self)@.rolling_back(
                    i,
                    Arc::new(e),
                    old(self)@.fiber(i).stage->Building_join,
                ),
            }),
    {
        let ghost before = self@;
        let join = match self.fibers[i].stage {
            Stage::Building { join } => join,
            _ => None,
        };
        match result {
            Ok(_) => {
                let mut deps: Vec<Dep> = Vec::new();
                std::mem::swap(&mut self.fibers[i].next_deps, &mut deps);
                self.fibers[i].last_deps = Some(deps);
                self.fibers[i].stage = Stage::Applying { join };
                assert(self@.fibers =~= before.applying(i, join).fibers);
            },
            Err(e) => {
                self.fail_load(i, Arc::new(e), join);
            },
        }
    }

    fn fail_load(&mut self, i: FiberIx, error: Arc<CordisError>, join: Option<TaskId>)
        requires
            old(self)@.has(i),
            old(self)@.fiber(i).trans.seq < u64::MAX,
        ensures
            old(self)@.wf() ==> final(self)@.wf(),
            final(self)@ == old(self)@.rolling_back(i, error, join),
    {
        let ghost before = self@;
        self.fibers[i].begin_unload(Stage::RollingBack { join });
        self.fibers[i].held_error = Some(error);
        assert(self@.fibers =~= before.rolling_back(i, error, join).fibers);
    }

    /// The assembly has ended.
    pub fn assembly_ended(&mut self, i: FiberIx, result: Result<Effect, CordisError>)
        requires
            old(self)@.has(i),
            old(self)@.fiber(i).stage is Applying,
            old(self)@.fiber(i).has_room(),
        ensures
            old(self)@.wf() ==> final(self)@.wf(),
            match result {
                Ok(effect) => {
                    &&& final(self)@.records.len() == old(self)@.records.len() + 1
                    &&& fresh_record(
                        final(self)@.records.last(),
                        effect,
                        "plugin apply: "@ + old(self)@.fiber(i).name,
                        i,
                    )
                    &&& final(self)@ == old(self)@.assembled(
                        i,
                        final(self)@.records.last(),
                        old(self)@.fiber(i).stage->Applying_join,
                    )
                },
                Err(e) => final(self)@ == old(self)@.rolling_back(
                    i,
                    Arc::new(e),
                    old(self)@.fiber(i).stage->Applying_join,
                ),
            },
    {
        let ghost before = self@;
        let join = match self.fibers[i].stage {
            Stage::Applying { join } => join,
            _ => None,
        };
        match result {
            Ok(effect) => {
                let label = joined("plugin apply: ", self.fibers[i].name.as_str());
                let record = EffectRecord::new(&effect, label, i);
                let ghost model = record@;
                let id: usize = self.records.len();
                self.records.push(record);
                self.fibers[i].effects.push(id);
                let ghost next = SharedModel {
                    records: before.records.push(model),
                    ..before
                }.put(i, FiberModel { effects: before.fiber(i).effects.push(id), ..before.fiber(i) });
                assert(self@.fibers =~= next.fibers);
                assert(self@.records =~= next.records);
                if self.fibers[i].closing {
                    self.unload(i, AfterDrain::LateClose, join);
                } else {
                    self.set_stage(i, Stage::Adopting { join });
                }
            },
            Err(e) => {
                self.fail_load(i, Arc::new(e), join);
            },
        }
    }

    fn notify_provided(&mut self, i: FiberIx)
        requires
            old(self)@.has(i),
        ensures
            old(self)@.wf() ==> final(self)@.wf(),
            final(self)@ == old(self)@.keys_changed(
                old(self)@.fiber(i).provided,
                old(self)@.fiber(i).provided.len(),
            ),
            final(self)@.fibers.len() == old(self)@.fibers.len(),
    {
        let ghost before = self@;
        let ghost provided = before.fiber(i).provided;
        let mut k: usize = 0;
        while k < self.fibers[i].provided.len()
            invariant
                self@.fibers.len() == before.fibers.len(),
                before.has(i),
                self@.fiber(i).provided == provided,
                k <= provided.len(),
                self@ == before.keys_changed(provided, k as nat),
                before.wf() ==> self@.wf(),
            decreases provided.len() - k,
        {
            let key = self.fibers[i].provided[k].0.clone();
            self.notify_key_changed(&key);
            k += 1;
        }
    }

    /// The readiness checks after the assembly are over.
    pub fn assembly_checked(&mut self, i: FiberIx, reports: Vec<CheckReport>)
        requires
            old(self)@.wf(),
            old(self)@.has(i),
            old(self)@.fiber(i).stage is Adopting,
            old(self)@.fiber(i).has_room(),
        ensures
            final(self)@.wf(),
            final(self)@ == old(self)@.noted(reports@, reports@.len()).activated(
                i,
                old(self)@.fiber(i).stage->Adopting_join,
            ),
    {
        let join = match self.fibers[i].stage {
            Stage::Adopting { join } => join,
            _ => None,
        };
        self.note_checks(&reports);
        let ghost m = self@;
        let (deps, all) = self.resolve_deps(i);
        if all {
            self.fibers[i].last_deps = Some(deps);
        }
        self.fibers[i].trans.error = None;
        self.fibers[i].set_state(FiberState::Active);
        let ghost adopted = if m.all_ready(i) {
            FiberModel { last_deps: Some(m.all_found(i)), ..m.fiber(i) }
        } else {
            m.fiber(i)
        };
        assert(self@.fibers =~= m.put(
            i,
            adopted.with_error(None).moved(FiberState::Active),
        ).fibers);
        self.notify_provided(i);
        self.end_request(i, join);
    }
}

/// What is left of the requests of a fiber whose driver stops, and what those
/// get who made them.
pub enum Ending {
    /// The fiber has been disposed of: they get its error.
    Disposed(Option<Arc<CordisError>>),
    /// The fiber has been shut down: another shutdown gets its error, any other
    /// request is refused.
    ShutDown(Option<Arc<CordisError>>),
    /// The driver broke down: everybody gets the error.
    Broken(Arc<CordisError>),
}

/// What the maker of a left-over request gets. To be settled is to have nothing
/// left to do, so that is granted, except by a broken driver.
pub open spec fn answer(intent: Intent, ending: Ending) -> Option<Arc<CordisError>> {
    match ending {
        Ending::Disposed(error) => if intent is Settle {
            None
        } else {
            error
        },
        Ending::ShutDown(error) => match intent {
            Intent::Settle(_) => None,
            Intent::Shutdown(_) => error,
            _ => Some(Arc::new(CordisError::Closed)),
        },
        Ending::Broken(error) => Some(error),
    }
}

fn answer_for(intent: &Intent, ending: &Ending) -> (error: Option<Arc<CordisError>>)
    ensures
        error == answer(*intent, *ending),
{
    match ending {
        Ending::Disposed(error) => match intent {
            Intent::Settle(_) => None,
            _ => clone_error(error),
        },
        Ending::ShutDown(error) => match intent {
            Intent::Settle(_) => None,
            Intent::Shutdown(_) => clone_error(error),
            _ => Some(Arc::new(CordisError::Closed)),
        },
        Ending::Broken(error) => Some(error.clone()),
    }
}

/// The error of a fiber that is shut down: what it had failed with before comes
/// ahead of what its cleanups ended in.
pub open spec fn merged(
    prior: Option<Arc<CordisError>>,
    error: Option<Arc<CordisError>>,
    out: Option<Arc<CordisError>>,
) -> bool {
    match prior {
        None => out == error,
        Some(p) => match error {
            None => out == Some(p),
            Some(e) => aggregated(seq![p, e], out),
        },
    }
}

fn merge(prior: &Option<Arc<CordisError>>, error: &Option<Arc<CordisError>>) -> (out: Option<
    Arc<CordisError>,
>)
    ensures
        merged(*prior, *error, out),
{
    match prior {
        None => clone_error(error),
        Some(p) => match error {
            None => Some(p.clone()),
            Some(e) => {
                let mut list: Vec<Arc<CordisError>> = Vec::new();
                list.push(p.clone());
                list.push(e.clone());
                assert(list@ =~= seq![*p, *e]);
                aggregate_arcs(list)
            },
        },
    }
}

impl SharedModel {
    /// The first `n` left-over requests have been answered.
    pub open spec fn answered(self, mail: Seq<Intent>, ending: Ending, n: nat) -> SharedModel
        decreases n,
    {
        if n == 0 {
            self
        } else {
            let intent = mail[n - 1];
            self.answered(mail, ending, (n - 1) as nat).completed_opt(
                intent.joined(),
                answer(intent, ending),
            )
        }
    }

    /// The driver takes no more requests, and those left over have been
    /// answered.
    pub open spec fn stopped_driver(self, i: FiberIx, ending: Ending) -> SharedModel {
        let f = self.fiber(i);
        self.put(i, FiberModel { alive: false, mailbox: Seq::empty(), ..f }).answered(
            f.mailbox,
            ending,
            f.mailbox.len(),
        )
    }

    /// The fiber waits for nothing any more, and its mount record is handed over
    /// for draining.
    pub open spec fn releasing(self, i: FiberIx, last: Option<TaskId>) -> SharedModel {
        let f = self.fiber(i);
        SharedModel {
            registry: RegistryModel {
                index: self.registry.index.filter(of_others(i)),
                ..self.registry
            },
            ..self
        }.put(
            i,
            FiberModel {
                mount: None,
                draining: match f.mount {
                    Some(record) => seq![record],
                    None => seq![],
                },
                stage: Stage::Releasing { last },
                ..f
            },
        )
    }

    /// The fiber has been disposed of. The root can still be restarted; the
    /// driver of any other fiber stops.
    pub open spec fn disposed(self, i: FiberIx) -> SharedModel {
        let f = self.fiber(i);
        let told = self.completed_opt(f.trans.terminal, f.trans.error);
        if i == 0 {
            told.at(i, Stage::Idle)
        } else {
            told.stopped_driver(i, Ending::Disposed(f.trans.error)).releasing(i, None)
        }
    }

    /// The fiber has been shut down with `error`.
    pub open spec fn shut_down(
        self,
        i: FiberIx,
        task: TaskId,
        error: Option<Arc<CordisError>>,
    ) -> SharedModel {
        let f = FiberModel { held_error: None, ..self.fiber(i).with_error(error) };
        let stopped = self.put(i, f).stopped_driver(i, Ending::ShutDown(error));
        if i == 0 {
            stopped.completed_opt(f.trans.terminal, error).completed(task, error).at(
                i,
                Stage::Exited,
            )
        } else {
            stopped.completed(task, error).releasing(i, Some(task))
        }
    }

    /// All cleanups of an unloaded fiber have run, with `error` as the result;
    /// `merged` is that together with what the fiber had failed with before.
    pub open spec fn unloaded(
        self,
        i: FiberIx,
        after: AfterDrain,
        join: Option<TaskId>,
        error: Option<Arc<CordisError>>,
        merged: Option<Arc<CordisError>>,
    ) -> SharedModel {
        let f = self.fiber(i).emptied();
        let pending = self.reported(error).put(i, f.moved(FiberState::Pending));
        let ended = self.put(i, f.with_error(error).moved(FiberState::Disposed));
        match after {
            AfterDrain::Settle => pending.over(i, join),
            AfterDrain::Load => pending.loading(i, join),
            AfterDrain::Refresh => pending.refreshing(i, join),
            AfterDrain::LateClose => ended.over(i, join),
            AfterDrain::End(Terminal::Dispose) => ended.disposed(i),
            AfterDrain::End(Terminal::Shutdown(task)) => ended.shut_down(i, task, merged),
        }
    }

    /// The fiber ends: it is unloaded first, unless it has been already.
    pub open spec fn ending(self, i: FiberIx, terminal: Terminal) -> SharedModel {
        let f = self.fiber(i);
        let kept = match terminal {
            Terminal::Shutdown(_) => FiberModel {
                held_error: if i != 0 && f.state() == FiberState::Failed {
                    f.trans.error
                } else {
                    None
                },
                ..f
            },
            Terminal::Dispose => f,
        };
        if f.state() != FiberState::Disposed {
            self.put(i, kept).unloading(i, AfterDrain::End(terminal), None)
        } else {
            match terminal {
                Terminal::Dispose => self.disposed(i),
                Terminal::Shutdown(task) => self.shut_down(i, task, f.trans.error),
            }
        }
    }

    /// The driver has taken its oldest request.
    pub open spec fn took(self, i: FiberIx) -> SharedModel {
        let f = self.fiber(i);
        let intent = f.mailbox[0];
        let m = self.put(i, FiberModel { mailbox: f.mailbox.drop_first(), ..f });
        match intent {
            Intent::RefreshDeps => m.refreshing(i, None),
            Intent::RefreshDepsJoin(task) => m.refreshing(i, Some(task)),
            Intent::Settle(task) => m.completed(
                task,
                if f.state() == FiberState::Failed {
                    f.trans.error
                } else {
                    None
                },
            ),
            Intent::Restart(task) => if m.shut(i) {
                m.completed(task, Some(Arc::new(CordisError::Closed)))
            } else if f.state() == FiberState::Disposed {
                if i == 0 {
                    m.restarted_root().over(i, Some(task))
                } else {
                    m.over(i, Some(task))
                }
            } else if f.state() == FiberState::Pending {
                m.refreshing(i, Some(task))
            } else {
                m.unloading(i, AfterDrain::Refresh, Some(task))
            },
            Intent::Dispose => if f.closing {
                m.at(i, Stage::Flights(Terminal::Dispose))
            } else {
                m.ending(i, Terminal::Dispose)
            },
            Intent::Shutdown(task) => m.at(i, Stage::Flights(Terminal::Shutdown(task))),
        }
    }

    /// The disposed root is active again, and can be disposed of anew.
    pub open spec fn restarted_root(self) -> SharedModel {
        let f = self.fiber(0);
        self.put(
            0,
            FiberModel {
                cancelled: false,
                trans: TransModel { error: None, terminal: None, ..f.trans },
                ..f
            }.moved(FiberState::Active),
        )
    }

    /// A failed assembly has been undone, with `errors` on the way; `total` is
    /// the failure together with those.
    pub open spec fn rolled_back(
        self,
        i: FiberIx,
        errors: Seq<Arc<CordisError>>,
        total: Arc<CordisError>,
        join: Option<TaskId>,
    ) -> SharedModel {
        let f = FiberModel { held_error: None, ..self.fiber(i).emptied() };
        SharedModel { reports: self.reports + errors, ..self }.put(
            i,
            f.with_error(Some(total)).moved(FiberState::Failed),
        ).over(i, join)
    }

    /// The driver broke down: the fiber is on its way to unload, and the task of
    /// the request at hand is kept.
    pub open spec fn broken(self, i: FiberIx, error: Arc<CordisError>) -> SharedModel {
        let f = self.fiber(i);
        self.put(
            i,
            FiberModel {
                held_error: Some(error),
                ..f.unloading(Stage::Recovering { task: f.stage.joined() })
            },
        )
    }

    /// A broken driver has been cleared away, with `errors` on the way; `total`
    /// is the breakdown together with those.
    pub open spec fn recovered(
        self,
        i: FiberIx,
        errors: Seq<Arc<CordisError>>,
        total: Arc<CordisError>,
        task: Option<TaskId>,
    ) -> SharedModel {
        let f = FiberModel { held_error: None, ..self.fiber(i).emptied() };
        let failed = SharedModel { reports: self.reports + errors, ..self }.put(
            i,
            f.with_error(Some(total)).moved(FiberState::Failed),
        ).completed_opt(task, Some(total)).completed_opt(f.trans.terminal, Some(total));
        let stopped = failed.stopped_driver(i, Ending::Broken(total));
        if i == 0 {
            stopped.at(i, Stage::Exited)
        } else {
            stopped.releasing(i, None)
        }
    }

    /// A fiber other than `i` that is still there.
    pub open spec fn remains(self, i: FiberIx) -> spec_fn(FiberIx) -> bool {
        |c: FiberIx| c != i && self.has(c) && self.fiber(c).held
    }

    /// What the parent kept of the fiber has been released: it is not among the
    /// parent's children, and those of them that are gone are not either.
    pub open spec fn released(self, i: FiberIx) -> SharedModel {
        let f = self.fiber(i);
        let last = f.stage->Releasing_last;
        let left = match self.nodes[i as int].parent {
            Some(p) => if self.has(p) && self.fiber(p).held {
                self.put(
                    p,
                    FiberModel {
                        children: self.fiber(p).children.filter(self.remains(i)),
                        ..self.fiber(p)
                    },
                )
            } else {
                self
            },
            None => self,
        };
        left.completed_opt(
            if last is Some {
                f.trans.terminal
            } else {
                None
            },
            f.trans.error,
        ).completed_opt(last, f.trans.error).at(i, Stage::Exited)
    }
}

impl Shared {
    fn answer_all(&mut self, mail: &Vec<Intent>, ending: &Ending)
        ensures
            old(self)@.wf() ==> final(self)@.wf(),
            final(self)@ == old(self)@.answered(mail@, *ending, mail@.len()),
            final(self)@ == (SharedModel { tasks: final(self)@.tasks, ..old(self)@ }),
    {
        let ghost before = self@;
        let mut k: usize = 0;
        while k < mail.len()
            invariant
                k <= mail.len(),
                self@ == (SharedModel { tasks: self@.tasks, ..before }),
                self@ == before.answered(mail@, *ending, k as nat),
            decreases mail.len() - k,
        {
            let error = answer_for(&mail[k], ending);
            self.complete_opt(mail[k].task(), error);
            k += 1;
        }
    }

    fn stop_driver(&mut self, i: FiberIx, ending: Ending)
        requires
            old(self)@.has(i),
        ensures
            old(self)@.wf() ==> final(self)@.wf(),
            final(self)@ == old(self)@.stopped_driver(i, ending),
            final(self)@.fibers.len() == old(self)@.fibers.len(),
    {
        let ghost before = self@;
        self.fibers[i].alive = false;
        let mut mail: Vec<Intent> = Vec::new();
        std::mem::swap(&mut self.fibers[i].mailbox, &mut mail);
        assert(self@.fibers =~= before.put(
            i,
            FiberModel { alive: false, mailbox: Seq::empty(), ..before.fiber(i) },
        ).fibers);
        self.answer_all(&mail, &ending);
    }

    fn release_transient(&mut self, i: FiberIx, last: Option<TaskId>)
        requires
            old(self)@.has(i),
        ensures
            old(self)@.wf() ==> final(self)@.wf(),
            final(self)@ == old(self)@.releasing(i, last),
    {
        let ghost before = self@;
        self.registry.unregister_injects(i);
        let mut draining: Vec<RecordId> = Vec::new();
        if let Some(record) = self.fibers[i].mount {
            draining.push(record);
        }
        assert(draining@ =~= match before.fiber(i).mount {
            Some(record) => seq![record],
            None => seq![],
        });
        self.fibers[i].mount = None;
        self.fibers[i].draining = draining;
        self.fibers[i].stage = Stage::Releasing { last };
        assert(self@.fibers =~= before.releasing(i, last).fibers);
    }

    fn end_dispose(&mut self, i: FiberIx)
        requires
            old(self)@.has(i),
        ensures
            old(self)@.wf() ==> final(self)@.wf(),
            final(self)@ == old(self)@.disposed(i),
    {
        let error = clone_error(&self.fibers[i].trans.error);
        let terminal = self.fibers[i].trans.terminal_task;
        self.complete_opt(terminal, clone_error(&error));
        if i == 0 {
            self.set_stage(i, Stage::Idle);
        } else {
            self.stop_driver(i, Ending::Disposed(error));
            self.release_transient(i, None);
        }
    }

    fn end_shutdown(&mut self, i: FiberIx, task: TaskId, error: Option<Arc<CordisError>>)
        requires
            old(self)@.has(i),
        ensures
            old(self)@.wf() ==> final(self)@.wf(),
            final(self)@ == old(self)@.shut_down(i, task, error),
    {
        let ghost before = self@;
        self.fibers[i].trans.error = clone_error(&error);
        self.fibers[i].held_error = None;
        let terminal = self.fibers[i].trans.terminal_task;
        assert(self@.fibers =~= before.put(
            i,
            FiberModel { held_error: None, ..before.fiber(i).with_error(error) },
        ).fibers);
        self.stop_driver(i, Ending::ShutDown(clone_error(&error)));
        if i == 0 {
            self.complete_opt(terminal, clone_error(&error));
            self.complete(task, error);
            self.set_stage(i, Stage::Exited);
        } else {
            self.complete(task, error);
            self.release_transient(i, Some(task));
        }
    }

    /// The fiber's cleanups have been drained, last registered first, with these
    /// errors on the way.
    pub fn effects_drained(&mut self, i: FiberIx, errors: Vec<Arc<CordisError>>)
        requires
            old(self)@.has(i),
            old(self)@.fiber(i).stage is Draining,
            old(self)@.fiber(i).has_room(),
        ensures
            old(self)@.wf() ==> final(self)@.wf(),
            exists|error: Option<Arc<CordisError>>, total: Option<Arc<CordisError>>|
                #![trigger merged(old(self)@.fiber(i).held_error, error, total)]
                aggregated(errors@ + old(self)@.fiber(i).drained, error) && merged(
                    old(self)@.fiber(i).held_error,
                    error,
                    total,
                ) && final(self)@ == old(self)@.unloaded(
                    i,
                    old(self)@.fiber(i).stage->Draining_after,
                    old(self)@.fiber(i).stage->Draining_join,
                    error,
                    total,
                ),
    {
        let ghost before = self@;
        let (after, join) = match self.fibers[i].stage {
            Stage::Draining { after, join } => (after, join),
            _ => (AfterDrain::Settle, None),
        };
        let all = self.fibers[i].end_drain(errors);
        let ghost listed = all@;
        let error = aggregate_arcs(all);
        let total = merge(&self.fibers[i].held_error, &error);
        assert(aggregated(listed, error));
        assert(merged(before.fiber(i).held_error, error, total));
        let ghost f = before.fiber(i).emptied();
        assert(self@.fibers =~= before.put(i, f).fibers);
        match after {
            AfterDrain::Settle | AfterDrain::Load | AfterDrain::Refresh => {
                self.report(clone_error(&error));
                self.fibers[i].set_state(FiberState::Pending);
                assert(self@.fibers =~= before.reported(error).put(
                    i,
                    f.moved(FiberState::Pending),
                ).fibers);
                match after {
                    AfterDrain::Load => self.start_load(i, join),
                    AfterDrain::Refresh => self.refresh_deps(i, join),
                    _ => self.end_request(i, join),
                }
            },
            AfterDrain::LateClose | AfterDrain::End(_) => {
                self.fibers[i].trans.error = clone_error(&error);
                self.fibers[i].set_state(FiberState::Disposed);
                assert(self@.fibers =~= before.put(
                    i,
                    f.with_error(error).moved(FiberState::Disposed),
                ).fibers);
                match after {
                    AfterDrain::End(Terminal::Dispose) => self.end_dispose(i),
                    AfterDrain::End(Terminal::Shutdown(task)) => self.end_shutdown(
                        i,
                        task,
                        clone_error(&total),
                    ),
                    _ => self.end_request(i, join),
                }
            },
        }
        assert(self@ == before.unloaded(i, after, join, error, total));
    }

    fn begin_end(&mut self, i: FiberIx, terminal: Terminal)
        requires
            old(self)@.has(i),
            old(self)@.fiber(i).trans.seq < u64::MAX,
        ensures
            old(self)@.wf() ==> final(self)@.wf(),
            final(self)@ == old(self)@.ending(i, terminal),
    {
        let ghost before = self@;
        let state = self.fibers[i].trans.state;
        if state != FiberState::Disposed {
            if let Terminal::Shutdown(_) = terminal {
                let prior = if i != 0 && state == FiberState::Failed {
                    clone_error(&self.fibers[i].trans.error)
                } else {
                    None
                };
                self.fibers[i].held_error = prior;
                assert(self@.fibers =~= before.put(
                    i,
                    FiberModel { held_error: prior, ..before.fiber(i) },
                ).fibers);
            } else {
                assert(self@.fibers =~= before.put(i, before.fiber(i)).fibers);
            }
            self.unload(i, AfterDrain::End(terminal), None);
        } else {
            match terminal {
                Terminal::Dispose => self.end_dispose(i),
                Terminal::Shutdown(task) => {
                    let error = clone_error(&self.fibers[i].trans.error);
                    self.end_shutdown(i, task, error);
                },
            }
        }
    }

    /// No callback is in flight any more.
    pub fn flights_landed(&mut self, i: FiberIx)
        requires
            old(self)@.has(i),
            old(self)@.fiber(i).stage is Flights,
            old(self)@.fiber(i).flights == 0,
            old(self)@.fiber(i).has_room(),
        ensures
            old(self)@.wf() ==> final(self)@.wf(),
            final(self)@ == old(self)@.ending(i, old(self)@.fiber(i).stage->Flights_0),
    {
        if let Stage::Flights(terminal) = self.fibers[i].stage {
            self.begin_end(i, terminal);
        }
    }

    /// The driver takes its oldest request.
    pub fn take_intent(&mut self, i: FiberIx)
        requires
            old(self)@.has(i),
            old(self)@.fiber(i).stage is Idle,
            old(self)@.fiber(i).mailbox.len() > 0,
            old(self)@.fiber(i).has_room(),
        ensures
            old(self)@.wf() ==> final(self)@.wf(),
            final(self)@ == old(self)@.took(i),
    {
        let ghost before = self@;
        let intent = self.fibers[i].mailbox.remove(0);
        assert(self@.fibers =~= before.put(
            i,
            FiberModel { mailbox: before.fiber(i).mailbox.drop_first(), ..before.fiber(i) },
        ).fibers);
        let state = self.fibers[i].trans.state;
        match intent {
            Intent::RefreshDeps => self.refresh_deps(i, None),
            Intent::RefreshDepsJoin(task) => self.refresh_deps(i, Some(task)),
            Intent::Settle(task) => {
                let error = if state == FiberState::Failed {
                    clone_error(&self.fibers[i].trans.error)
                } else {
                    None
                };
                self.complete(task, error);
            },
            Intent::Restart(task) => {
                if self.fibers[i].closing || self.closing {
                    self.complete(task, Some(Arc::new(CordisError::Closed)));
                } else if state == FiberState::Disposed {
                    if i == 0 {
                        self.restart_root();
                    }
                    self.end_request(i, Some(task));
                } else if state == FiberState::Pending {
                    self.refresh_deps(i, Some(task));
                } else {
                    self.unload(i, AfterDrain::Refresh, Some(task));
                }
            },
            Intent::Dispose => {
                if self.fibers[i].closing {
                    self.set_stage(i, Stage::Flights(Terminal::Dispose));
                } else {
                    self.begin_end(i, Terminal::Dispose);
                }
            },
            Intent::Shutdown(task) => {
                self.set_stage(i, Stage::Flights(Terminal::Shutdown(task)));
            },
        }
    }

    fn restart_root(&mut self)
        requires
            old(self)@.has(0),
            old(self)@.fiber(0).trans.seq < u64::MAX,
        ensures
            old(self)@.wf() ==> final(self)@.wf(),
            final(self)@ == old(self)@.restarted_root(),
    {
        let ghost before = self@;
        self.fibers[0].cancelled = false;
        self.fibers[0].trans.error = None;
        self.fibers[0].trans.terminal_task = None;
        self.fibers[0].set_state(FiberState::Active);
        assert(self@.fibers =~= before.restarted_root().fibers);
    }

    fn report_all(&mut self, errors: &Vec<Arc<CordisError>>)
        ensures
            old(self)@.wf() ==> final(self)@.wf(),
            final(self)@ == (SharedModel { reports: old(self)@.reports + errors@, ..old(self)@ }),
    {
        let ghost before = self@;
        let mut k: usize = 0;
        assert(self@.reports =~= before.reports + errors@.subrange(0, 0));
        while k < errors.len()
            invariant
                k <= errors.len(),
                self@ == (SharedModel {
                    reports: before.reports + errors@.subrange(0, k as int),
                    ..before
                }),
            decreases errors.len() - k,
        {
            self.report(Some(errors[k].clone()));
            k += 1;
            assert(self@.reports =~= before.reports + errors@.subrange(0, k as int));
        }
        assert(errors@.subrange(0, errors@.len() as int) =~= errors@);
    }

    /// The cleanups of a failed assembly have been drained, last registered
    /// first, with these errors on the way.
    pub fn rollback_drained(&mut self, i: FiberIx, errors: Vec<Arc<CordisError>>)
        requires
            old(self)@.has(i),
            old(self)@.fiber(i).stage is RollingBack,
            old(self)@.fiber(i).held_error is Some,
            old(self)@.fiber(i).has_room(),
        ensures
            old(self)@.wf() ==> final(self)@.wf(),
            exists|total: Arc<CordisError>|
                #![trigger aggregated(
                    seq![old(self)@.fiber(i).held_error->0] + (errors@ + old(self)@.fiber(i).drained),
                    Some(total),
                )]
                aggregated(
                    seq![old(self)@.fiber(i).held_error->0] + (errors@ + old(self)@.fiber(
                        i,
                    ).drained),
                    Some(total),
                ) && final(self)@ == old(self)@.rolled_back(
                    i,
                    errors@ + old(self)@.fiber(i).drained,
                    total,
                    old(self)@.fiber(i).stage->RollingBack_join,
                ),
    {
        let ghost before = self@;
        let join = match self.fibers[i].stage {
            Stage::RollingBack { join } => join,
            _ => None,
        };
        let mut all = self.fibers[i].end_drain(errors);
        let ghost listed = all@;
        let total = match self.fibers[i].held_error.take() {
            Some(first) => total_error(first, &all),
            None => {
                assert(false);
                Arc::new(CordisError::Closed)
            },
        };
        let ghost f = FiberModel { held_error: None, ..before.fiber(i).emptied() };
        assert(self@.fibers =~= before.put(i, f).fibers);
        self.report_all(&all);
        assert(self.fibers@[i as int]@ == f);
        self.fibers[i].trans.error = Some(total.clone());
        self.fibers[i].set_state(FiberState::Failed);
        assert(self@.fibers =~= before.put(
            i,
            f.with_error(Some(total)).moved(FiberState::Failed),
        ).fibers);
        self.end_request(i, join);
        assert(self@ == before.rolled_back(i, listed, total, join));
    }

    /// The driver broke down with `error` at its stage. The fiber's cleanups are
    /// still to be drained.
    pub fn driver_broke(&mut self, i: FiberIx, error: CordisError)
        requires
            old(self)@.has(i),
            old(self)@.fiber(i).has_room(),
        ensures
            old(self)@.wf() ==> final(self)@.wf(),
            final(self)@ == old(self)@.broken(i, Arc::new(error)),
    {
        let ghost before = self@;
        let task = self.fibers[i].stage.task();
        self.fibers[i].begin_unload(Stage::Recovering { task });
        self.fibers[i].held_error = Some(Arc::new(error));
        assert(self@.fibers =~= before.broken(i, Arc::new(error)).fibers);
    }

    /// The cleanups of a fiber whose driver broke down have been drained.
    pub fn recovery_drained(&mut self, i: FiberIx, errors: Vec<Arc<CordisError>>)
        requires
            old(self)@.has(i),
            old(self)@.fiber(i).stage is Recovering,
            old(self)@.fiber(i).held_error is Some,
            old(self)@.fiber(i).has_room(),
        ensures
            old(self)@.wf() ==> final(self)@.wf(),
            exists|total: Arc<CordisError>|
                #![trigger aggregated(
                    seq![old(self)@.fiber(i).held_error->0] + (errors@ + old(self)@.fiber(i).drained),
                    Some(total),
                )]
                aggregated(
                    seq![old(self)@.fiber(i).held_error->0] + (errors@ + old(self)@.fiber(
                        i,
                    ).drained),
                    Some(total),
                ) && final(self)@ == old(self)@.recovered(
                    i,
                    errors@ + old(self)@.fiber(i).drained,
                    total,
                    old(self)@.fiber(i).stage->Recovering_task,
                ),
    {
        let ghost before = self@;
        let task = match self.fibers[i].stage {
            Stage::Recovering { task } => task,
            _ => None,
        };
        let all = self.fibers[i].end_drain(errors);
        let ghost listed = all@;
        let total = match self.fibers[i].held_error.take() {
            Some(first) => total_error(first, &all),
            None => {
                assert(false);
                Arc::new(CordisError::Closed)
            },
        };
        let ghost f = FiberModel { held_error: None, ..before.fiber(i).emptied() };
        assert(self@.fibers =~= before.put(i, f).fibers);
        self.report_all(&all);
        assert(self.fibers@[i as int]@ == f);
        self.fibers[i].trans.error = Some(total.clone());
        self.fibers[i].set_state(FiberState::Failed);
        assert(self@.fibers =~= before.put(
            i,
            f.with_error(Some(total)).moved(FiberState::Failed),
        ).fibers);
        let terminal = self.fibers[i].trans.terminal_task;
        self.complete_opt(task, Some(total.clone()));
        self.complete_opt(terminal, Some(total.clone()));
        self.stop_driver(i, Ending::Broken(total.clone()));
        if i == 0 {
            self.set_stage(i, Stage::Exited);
        } else {
            self.release_transient(i, None);
        }
        assert(self@ == before.recovered(i, listed, total, task));
    }

    /// The mount record of a fiber that has ended has been drained.
    pub fn transient_released(&mut self, i: FiberIx)
        requires
            old(self)@.wf(),
            old(self)@.has(i),
            old(self)@.fiber(i).stage is Releasing,
        ensures
            final(self)@.wf(),
            final(self)@ == old(self)@.released(i),
    {
        let ghost before = self@;
        let last = match self.fibers[i].stage {
            Stage::Releasing { last } => last,
            _ => None,
        };
        let error = clone_error(&self.fibers[i].trans.error);
        let terminal = self.fibers[i].trans.terminal_task;
        if let Some(p) = self.nodes[i].parent {
            if p < self.fibers.len() && self.fibers[p].held {
                let kept = self.kept_children(p, i);
                self.fibers[p].children = kept;
                assert(self@.fibers =~= before.put(
                    p,
                    FiberModel { children: kept@, ..before.fiber(p) },
                ).fibers);
            }
        }
        if last.is_some() {
            self.complete_opt(terminal, clone_error(&error));
        }
        self.complete_opt(last, error);
        self.set_stage(i, Stage::Exited);
    }

    fn kept_children(&self, p: FiberIx, i: FiberIx) -> (kept: Vec<FiberIx>)
        requires
            self@.has(p),
        ensures
            kept@ == self@.fiber(p).children.filter(self@.remains(i)),
    {
        let ghost all = self@.fiber(p).children;
        let ghost keep = self@.remains(i);
        let mut kept: Vec<FiberIx> = Vec::new();
        let mut k: usize = 0;
        proof {
            filter_empty(all, keep);
        }
        while k < self.fibers[p].children.len()
            invariant
                self@.has(p),
                k <= all.len(),
                all == self@.fiber(p).children,
                keep == self@.remains(i),
                kept@ == all.subrange(0, k as int).filter(keep),
            decreases all.len() - k,
        {
            proof {
                filter_step(all, k as int, keep);
            }
            let c: usize = self.fibers[p].children[k];
            if c != i && c < self.fibers.len() && self.fibers[c].held {
                kept.push(c);
            }
            k += 1;
        }
        proof {
            whole(all);
        }
        kept
    }
}

fn total_error(first: Arc<CordisError>, rest: &Vec<Arc<CordisError>>) -> (total: Arc<CordisError>)
    ensures
        aggregated(seq![first] + rest@, Some(total)),
{
    let mut all: Vec<Arc<CordisError>> = Vec::new();
    all.push(first);
    let mut k: usize = 0;
    assert(all@ =~= seq![first] + rest@.subrange(0, 0));
    while k < rest.len()
        invariant
            k <= rest.len(),
            all@ == seq![first] + rest@.subrange(0, k as int),
        decreases rest.len() - k,
    {
        all.push(rest[k].clone());
        k += 1;
        assert(all@ =~= seq![first] + rest@.subrange(0, k as int));
    }
    assert(rest@.subrange(0, rest@.len() as int) =~= rest@);
    match aggregate_arcs(all) {
        Some(total) => total,
        None => {
            assert(false);
            Arc::new(CordisError::Closed)
        },
    }
}

} // verus!
