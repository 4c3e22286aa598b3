use rutis::admission::EffectCommit;
use rutis::bus::{EventBus, ListenerSpec};
use rutis::ctx::Ctx;
use rutis::diagnostics::{DependencyStatus, PluginDiagnostics};
use rutis::dispatch::{
    emit_report, waterfall_result, waterfall_step, ListenerOutcome, ParallelRun, SerialRun,
    TaskOutcome, WaterfallStep,
};
use rutis::drive::CheckReport;
use rutis::effect::{Cleanup, CleanupRun, Effect, EffectPhase};
use rutis::error::{
    plugin_failure, CallSite, CordisError, JoinFailure, PanicPayload, ServiceReadFailure,
    ServiceWriteFailure,
};
use rutis::feed::{denial, transition, DiagnosticChangeKind, DiagnosticFeed};
use rutis::fiber::{FiberState, PluginPlan, Source, Stage};
use rutis::intercept::{
    HookKind, HookOutcome, InterceptRun, ReentryGuard, ServiceIntercept, ServiceInterceptors,
    ServiceWriter,
};
use rutis::key::{InstanceId, InstanceIds, TypeKey};
use rutis::observe::{DispatchAttempt, DispatchMode, DispatchObservers};
use rutis::reads::HookFailure;
use rutis::registry::CheckOutcome;
use rutis::services::Offer;
use rutis::shared::Shared;
use rutis::spawn::{Mounted, PluginSpec, Unmount};
use rutis::view::{DisposeWaitError, Elapsed};
use std::any::TypeId;
use std::collections::HashMap;
use std::rc::Rc;
use std::sync::Arc;

type Job = Box<dyn FnOnce(&mut World) -> Result<(), CordisError>>;
type Assembly = Rc<dyn Fn(&mut World, &Ctx) -> Result<Effect, CordisError>>;

const HERE: CallSite = CallSite {
    file: "tests/kernel.rs",
    line: 1,
    column: 1,
};

/// A kernel with everything around it, run to rest after each request.
struct World {
    ids: InstanceIds,
    shared: Shared,
    bus: EventBus,
    hooks: ServiceInterceptors,
    guard: ReentryGuard,
    jobs: HashMap<u64, Job>,
    next: u64,
    plugins: HashMap<usize, Assembly>,
    broken_builds: HashMap<u64, String>,
    built: Vec<(usize, Option<u64>)>,
    check: CheckOutcome,
    busy: Vec<usize>,
    seen: Vec<Ctx>,
    log: Vec<String>,
}

impl World {
    fn new() -> World {
        let mut ids = InstanceIds::new();
        let shared = Shared::new(&mut ids);
        let bus = EventBus::new(shared.nodes[0].instance);
        World {
            ids,
            shared,
            bus,
            hooks: ServiceInterceptors::new(),
            guard: ReentryGuard::new(),
            jobs: HashMap::new(),
            next: 0,
            plugins: HashMap::new(),
            broken_builds: HashMap::new(),
            built: Vec::new(),
            check: CheckOutcome::Passed,
            busy: Vec::new(),
            seen: Vec::new(),
            log: Vec::new(),
        }
    }

    fn root(&self) -> Ctx {
        self.shared.nodes[0].ctx.clone()
    }

    fn job(&mut self, job: Job) -> u64 {
        self.next += 1;
        self.jobs.insert(self.next, job);
        self.next
    }

    fn logging(&mut self, line: &'static str) -> u64 {
        self.job(Box::new(move |w| {
            w.log.push(line.to_string());
            Ok(())
        }))
    }

    fn failing(&mut self, line: &'static str) -> u64 {
        self.job(Box::new(move |w| {
            w.log.push(line.to_string());
            Err(plugin_failure(line))
        }))
    }

    fn offer<'a>(&mut self, type_id: TypeId, value: u64) -> Offer<'a> {
        Offer {
            value,
            type_id,
            label: "given",
            has_check: false,
            mutable: false,
            cleanup: 0,
        }
    }

    /// Offers a value; its cleanup evicts everybody who depends on it.
    fn provide_with(
        &mut self,
        ctx: &Ctx,
        key: TypeKey,
        mut offer: Offer,
    ) -> Result<(usize, u64), CordisError> {
        let provider = ctx.node.fiber;
        let scope = ctx.scope_for(&key);
        let evicted = key.clone();
        let id = self.shared.fibers[provider].id;
        let generation = self.shared.fibers[provider].trans.generation;
        offer.cleanup = self.job(Box::new(move |w| {
            let eviction = w.shared.begin_evict(id, generation, &evicted, &scope);
            w.run();
            for task in eviction.tasks {
                assert!(w.shared.joined(task).is_some());
            }
            w.shared
                .finish_evict(provider, &evicted, &scope, eviction.binding);
            Ok(())
        }));
        let result = self.shared.provide_inner(ctx, key, &offer);
        self.run();
        result
    }

    fn provide<T: 'static>(
        &mut self,
        ctx: &Ctx,
        key: TypeKey,
        value: u64,
    ) -> Result<usize, CordisError> {
        let offer = self.offer(TypeId::of::<T>(), value);
        self.provide_with(ctx, key, offer).map(|(record, _)| record)
    }

    fn mount(
        &mut self,
        ctx: &Ctx,
        name: &str,
        source: Source,
        config: Option<u64>,
        injects: Vec<TypeKey>,
        assembly: Assembly,
    ) -> usize {
        let spec = PluginSpec {
            name: name.to_string(),
            source,
            config,
            injects,
        };
        let ix = self.shared.spawn_fiber(&mut self.ids, ctx, spec);
        self.plugins.insert(ix, assembly);
        let cleanup = self.job(Box::new(move |w| {
            let unmount = w.shared.begin_unmount(ix);
            w.run();
            let (Unmount::Wait(task) | Unmount::Dispose { task, .. }) = unmount;
            let ended = w.shared.joined(task).and_then(Result::err);
            w.shared.finish_unmount(unmount, ended);
            Ok(())
        }));
        let mounted = self.shared.mount_fiber(ctx, ix, cleanup);
        if let Mounted::Orphaned = mounted {
            self.shared.shutdown(ix);
        }
        self.run();
        ix
    }

    fn plugin(
        &mut self,
        ctx: &Ctx,
        name: &str,
        injects: Vec<TypeKey>,
        assembly: Assembly,
    ) -> usize {
        self.mount(ctx, name, Source::Static, None, injects, assembly)
    }

    /// Runs the cleanups of a record, as its holder or its fiber does.
    fn drain(&mut self, record: usize) -> Result<(), Arc<CordisError>> {
        if let Some(list) = self.shared.claim_record(record) {
            let mut run = CleanupRun::new(list);
            while let Some(cleanup) = run.next() {
                let (Cleanup::Sync(callback) | Cleanup::Async(callback)) = cleanup;
                let job = self.jobs.remove(&callback).unwrap();
                run.ended(job(self));
            }
            let error = run.finish();
            self.shared.finish_record(record, error);
        }
        match self.shared.record_outcome(record) {
            Some(Some(e)) => Err(e),
            _ => Ok(()),
        }
    }

    fn drain_all(&mut self, i: usize) -> Vec<Arc<CordisError>> {
        let records = self.shared.fibers[i].draining.clone();
        let mut errors = Vec::new();
        for record in records {
            if let Err(e) = self.drain(record) {
                errors.push(e);
            }
        }
        errors
    }

    fn checks(&mut self, i: usize) -> Vec<CheckReport> {
        let outcome = self.check;
        self.shared
            .pending_checks(i)
            .into_iter()
            .map(|request| CheckReport { request, outcome })
            .collect()
    }

    /// One step of a fiber's driver; false where it has nothing to do.
    fn step(&mut self, i: usize) -> bool {
        match self.shared.fibers[i].stage {
            Stage::Idle => {
                if self.shared.fibers[i].mailbox.is_empty() {
                    return false;
                }
                self.shared.take_intent(i);
            }
            Stage::Flights(_) => {
                if self.shared.fibers[i].flights > 0 {
                    return false;
                }
                self.shared.flights_landed(i);
            }
            Stage::Resolving { .. } => {
                let reports = self.checks(i);
                self.shared.dependencies_checked(i, reports);
            }
            Stage::Building { .. } => {
                let result = match self.shared.fibers[i].current_plugin() {
                    Ok(PluginPlan::Given) => {
                        self.built.push((i, None));
                        Ok(())
                    }
                    Ok(PluginPlan::Build(config)) => {
                        self.built.push((i, Some(config)));
                        match self.broken_builds.get(&config) {
                            Some(message) => Err(plugin_failure(message)),
                            None => Ok(()),
                        }
                    }
                    Err(e) => Err(e),
                };
                self.shared.instance_built(i, result);
            }
            Stage::Applying { .. } => {
                let ctx = Ctx::of_generation(&self.shared, i);
                let assembly = self.plugins[&i].clone();
                self.busy.push(i);
                let result = assembly(self, &ctx);
                self.busy.pop();
                self.shared.assembly_ended(i, result);
            }
            Stage::Adopting { .. } => {
                let reports = self.checks(i);
                self.shared.assembly_checked(i, reports);
            }
            Stage::Draining { .. } => {
                self.busy.push(i);
                let errors = self.drain_all(i);
                self.busy.pop();
                self.shared.effects_drained(i, errors);
            }
            Stage::RollingBack { .. } => {
                self.busy.push(i);
                let errors = self.drain_all(i);
                self.busy.pop();
                self.shared.rollback_drained(i, errors);
            }
            Stage::Recovering { .. } => {
                self.busy.push(i);
                let errors = self.drain_all(i);
                self.busy.pop();
                self.shared.recovery_drained(i, errors);
            }
            Stage::Releasing { .. } => {
                // The mount record may be what is being drained right now.
                self.busy.push(i);
                let records = self.shared.fibers[i].draining.clone();
                for record in records {
                    let _ = self.drain(record);
                }
                self.busy.pop();
                self.shared.transient_released(i);
            }
            Stage::Exited => return false,
        }
        true
    }

    fn run(&mut self) {
        loop {
            let mut moved = false;
            for i in 0..self.shared.fibers.len() {
                while !self.busy.contains(&i) && self.step(i) {
                    moved = true;
                }
            }
            if !moved {
                return;
            }
        }
    }

    fn state(&self, i: usize) -> FiberState {
        self.shared.fibers[i].trans.state
    }

    fn dispose(&mut self, i: usize) -> Result<(), Arc<CordisError>> {
        let task = self.shared.dispose(i);
        self.run();
        self.shared.joined(task).unwrap()
    }

    fn restart(&mut self, i: usize) -> Result<(), Arc<CordisError>> {
        match self.shared.restart(i) {
            Ok(task) => {
                self.run();
                self.shared.joined(task).unwrap()
            }
            Err(e) => Err(Arc::new(e)),
        }
    }

    fn shutdown(&mut self, i: usize) -> Result<(), Arc<CordisError>> {
        let (task, plans) = self.shared.shutdown(i);
        self.run();
        for plan in plans.iter().rev() {
            self.shared.finish_shutdown(plan, None);
        }
        self.shared.joined(task).unwrap()
    }

    fn shutdown_root(&mut self) -> Result<(), Arc<CordisError>> {
        let task = self.shared.shutdown_root();
        self.run();
        self.shared.joined(task).unwrap()
    }

    fn settle(&mut self, i: usize) -> Result<(), Arc<CordisError>> {
        let task = self.shared.settle(i);
        self.run();
        self.shared.joined(task).unwrap()
    }

    fn effect(&mut self, ctx: &Ctx, label: &str, effect: Effect) -> Result<usize, CordisError> {
        self.shared.begin_effect(ctx)?;
        match self.shared.commit_effect(ctx, label.to_string(), &effect) {
            EffectCommit::Registered(record) => Ok(record),
            EffectCommit::Late(record) => {
                let _ = self.drain(record);
                Err(CordisError::InactiveEffect)
            }
        }
    }

    fn get<T: 'static>(&mut self, ctx: &Ctx, key: &TypeKey) -> Option<u64> {
        ctx.get_as::<T>(&mut self.shared, key)
    }

    /// A strict read through the interceptors; each is given as a function.
    fn require<T: 'static>(
        &mut self,
        ctx: &Ctx,
        key: &TypeKey,
        calls: &HashMap<u64, fn(u64) -> HookOutcome>,
    ) -> Result<u64, ServiceReadFailure> {
        let grant = ctx
            .require_as::<T>(&mut self.shared, key, HERE)
            .map_err(|e| e.reason)?;
        let outcome = self.intercept(HookKind::Read, ctx, key, grant.value, calls);
        self.shared
            .finish_require(ctx, key, &grant, outcome, HERE)
            .map_err(|e| e.reason)
    }

    fn intercept(
        &mut self,
        kind: HookKind,
        ctx: &Ctx,
        key: &TypeKey,
        value: u64,
        calls: &HashMap<u64, fn(u64) -> HookOutcome>,
    ) -> Result<u64, HookFailure> {
        let scope = ctx.scope_for(key);
        let selection = self
            .hooks
            .select(&mut self.shared, kind, key, &scope, ctx);
        let result = match InterceptRun::begin(
            &mut self.guard,
            selection.hooks,
            kind,
            key,
            &scope,
            value,
        ) {
            Ok(mut run) => {
                while let Some((hook, value)) = run.next_hook() {
                    run.ended(calls[&hook.call](value));
                }
                run.finish(&mut self.guard)
            }
            Err(e) => Err(e),
        };
        for i in selection.flight {
            self.shared.drop_lease(i);
        }
        result
    }

    fn write(
        &mut self,
        writer: &ServiceWriter,
        ctx: &Ctx,
        value: u64,
        calls: &HashMap<u64, fn(u64) -> HookOutcome>,
    ) -> Result<u64, ServiceWriteFailure> {
        writer
            .begin_set(&self.shared, ctx, HERE)
            .map_err(|e| e.reason)?;
        let key = writer.key.clone();
        let outcome = self.intercept(HookKind::Write, ctx, &key, value, calls);
        writer
            .finish_set(&mut self.shared, ctx, outcome, HERE)
            .map_err(|e| e.reason)
    }

    fn plugin_report(&self, i: usize) -> Option<PluginDiagnostics> {
        let id = self.shared.fibers[i].id;
        self.shared
            .diagnostics()
            .plugins
            .into_iter()
            .find(|p| p.id == id)
    }

    fn transitions(&mut self, i: usize) -> Vec<(FiberState, FiberState)> {
        self.shared.fibers[i]
            .flush_status()
            .into_iter()
            .map(|c| (c.from, c.to))
            .collect()
    }
}

fn u8_key() -> TypeKey {
    TypeKey::of::<u8>("u8")
}

fn u64_key() -> TypeKey {
    TypeKey::of::<u64>("u64")
}

fn idle() -> Assembly {
    Rc::new(|w, ctx| {
        w.seen.push(ctx.clone());
        Ok(Effect::Done)
    })
}

fn none() -> HashMap<u64, fn(u64) -> HookOutcome> {
    HashMap::new()
}

fn exercise() {
    let mut w = World::new();
    let root = w.root();
    let provider = w.provide::<u8>(&root, u8_key(), 1).unwrap();
    let view = w.plugin(&root, "generation-probe", vec![u8_key()], idle());
    assert!(w.settle(view).is_ok());
    let first = w.seen[0].clone();
    let isolated = first.isolate(u64_key(), "old-generation");
    w.drain(provider).unwrap();
    assert_eq!(w.state(view), FiberState::Pending);
    assert!(matches!(
        w.effect(&first, "late", Effect::Done),
        Err(CordisError::InactiveGeneration { .. })
    ));
    assert!(matches!(
        w.provide::<u64>(&first, u64_key(), 1),
        Err(CordisError::InactiveGeneration { .. })
    ));

    let replacement = w.provide::<u8>(&root, u8_key(), 2).unwrap();
    assert!(w.settle(view).is_ok());
    assert_eq!(w.state(view), FiberState::Active);
    assert_eq!(w.seen.len(), 2);
    assert!(matches!(
        w.provide::<u64>(&first, u64_key(), 77),
        Err(CordisError::StaleGeneration { .. })
    ));
    assert!(matches!(
        w.effect(&first, "late", Effect::Done),
        Err(CordisError::StaleGeneration { .. })
    ));
    assert!(matches!(
        w.effect(&isolated, "late", Effect::Done),
        Err(CordisError::StaleGeneration { .. })
    ));
    assert!(isolated.is_cancelled(&w.shared));
    let listener = ListenerSpec {
        call: 1,
        once: false,
        prepend: false,
        cleanup: 0,
    };
    assert!(matches!(
        w.bus
            .add_hook(&mut w.shared, &first, TypeKey::of::<u16>("ping"), listener),
        Err(CordisError::StaleGeneration { .. })
    ));
    let child = w.plugin(&first, "noop", vec![], idle());
    assert!(w.dispose(child).is_ok());
    assert_eq!(w.state(child), FiberState::Disposed);
    let current = w.seen[1].clone();
    w.provide::<u64>(&current, u64_key(), 55).unwrap();
    w.drain(replacement).unwrap();
    assert!(w.dispose(view).is_ok());
    assert!(w.shutdown_root().is_ok());
}

#[test]
fn rejects_late_registration_current_thread() {
    tokio::runtime::Builder::new_current_thread()
        .enable_all()
        .build()
        .unwrap()
        .block_on(async { exercise() });
}

#[test]
fn rejects_late_registration_multi_thread() {
    let runtime = tokio::runtime::Builder::new_multi_thread()
        .worker_threads(2)
        .enable_all()
        .build()
        .unwrap();
    runtime.block_on(async {
        let one = tokio::task::spawn_blocking(exercise);
        let two = tokio::task::spawn_blocking(exercise);
        one.await.unwrap();
        two.await.unwrap();
    });
}

#[test]
fn rejects_registration_after_failed_apply() {
    let mut w = World::new();
    let root = w.root();
    let view = w.plugin(
        &root,
        "fails",
        vec![],
        Rc::new(|w, ctx| {
            w.seen.push(ctx.clone());
            Err(plugin_failure("intentional failure"))
        }),
    );
    assert!(w.settle(view).is_err());
    assert_eq!(w.state(view), FiberState::Failed);
    let old = w.seen[0].clone();
    assert!(matches!(
        w.provide::<u64>(&old, u64_key(), 1),
        Err(CordisError::InactiveGeneration {
            state: FiberState::Failed,
            ..
        })
    ));
    assert!(w.dispose(view).is_ok());
    assert!(w.shutdown_root().is_ok());
}

#[test]
fn a_plugin_goes_through_its_states() {
    let mut w = World::new();
    let root = w.root();
    let view = w.plugin(&root, "plain", vec![], idle());
    assert_eq!(w.state(view), FiberState::Active);
    assert!(w.dispose(view).is_ok());
    assert_eq!(
        w.transitions(view),
        vec![
            (FiberState::Pending, FiberState::Loading),
            (FiberState::Loading, FiberState::Active),
            (FiberState::Active, FiberState::Unloading),
            (FiberState::Unloading, FiberState::Disposed),
        ]
    );
    assert_eq!(w.shared.fibers[view].trans.seq, 4);
    assert!(w.transitions(view).is_empty());
}

#[test]
fn dependencies_gate_the_assembly() {
    let mut w = World::new();
    let root = w.root();
    let view = w.plugin(&root, "needs", vec![u8_key(), u64_key()], idle());
    assert_eq!(w.state(view), FiberState::Pending);
    w.provide::<u8>(&root, u8_key(), 1).unwrap();
    assert_eq!(w.state(view), FiberState::Pending);
    let second = w.provide::<u64>(&root, u64_key(), 2).unwrap();
    assert_eq!(w.state(view), FiberState::Active);
    assert_eq!(w.shared.fibers[view].trans.generation, 1);
    w.drain(second).unwrap();
    assert_eq!(w.state(view), FiberState::Pending);
    w.provide::<u64>(&root, u64_key(), 3).unwrap();
    assert_eq!(w.state(view), FiberState::Active);
    assert_eq!(w.shared.fibers[view].trans.generation, 2);
}

#[test]
fn a_restarted_provider_reloads_its_consumers() {
    let mut w = World::new();
    let root = w.root();
    let provider = w.plugin(
        &root,
        "provider",
        vec![],
        Rc::new(|w, ctx| {
            w.provide::<u8>(ctx, u8_key(), 1)?;
            Ok(Effect::Done)
        }),
    );
    let consumer = w.plugin(&root, "consumer", vec![u8_key()], idle());
    assert_eq!(w.state(consumer), FiberState::Active);
    let bystander = w.plugin(&root, "bystander", vec![], idle());
    assert!(w.restart(provider).is_ok());
    assert_eq!(w.state(provider), FiberState::Active);
    assert_eq!(w.state(consumer), FiberState::Active);
    assert_eq!(w.shared.fibers[provider].trans.generation, 2);
    assert_eq!(w.shared.fibers[consumer].trans.generation, 2);
    assert_eq!(w.shared.fibers[bystander].trans.generation, 1);
    assert!(w.dispose(provider).is_ok());
    assert_eq!(w.state(consumer), FiberState::Pending);
}

#[test]
fn looking_again_at_the_same_dependencies_reloads_nothing() {
    let mut w = World::new();
    let root = w.root();
    w.provide::<u8>(&root, u8_key(), 1).unwrap();
    let view = w.plugin(&root, "steady", vec![u8_key(), u8_key()], idle());
    w.shared.refresh_all();
    w.run();
    assert_eq!(w.shared.fibers[view].trans.generation, 1);
    assert_eq!(w.state(view), FiberState::Active);
}

#[test]
fn failed_fibers_wait_for_a_restart() {
    let mut w = World::new();
    let root = w.root();
    w.provide::<u8>(&root, u8_key(), 1).unwrap();
    let view = w.plugin(
        &root,
        "flaky",
        vec![u8_key()],
        Rc::new(|w, _| {
            w.log.push("assembled".to_string());
            if w.log.len() == 1 {
                Err(plugin_failure("first time"))
            } else {
                Ok(Effect::Done)
            }
        }),
    );
    assert_eq!(w.state(view), FiberState::Failed);
    assert_eq!(
        w.settle(view).unwrap_err().message(),
        "plugin failed: first time"
    );
    assert!(w.restart(view).is_ok());
    assert_eq!(w.state(view), FiberState::Active);
}

#[test]
fn cleanups_run_last_to_first_and_once() {
    let mut w = World::new();
    let root = w.root();
    let view = w.plugin(
        &root,
        "tidy",
        vec![],
        Rc::new(|w, ctx| {
            let a = w.logging("a");
            let b = w.logging("b");
            let c = w.logging("c");
            let d = w.logging("d");
            w.effect(ctx, "one", Effect::Disposer(a))?;
            let early = w.effect(ctx, "two", Effect::AsyncDisposer(b))?;
            w.drain(early).unwrap();
            w.drain(early).unwrap();
            Ok(Effect::Many(vec![
                Effect::Disposer(c),
                Effect::Done,
                Effect::Disposer(d),
            ]))
        }),
    );
    assert_eq!(w.log, vec!["b"]);
    let labels: Vec<String> = w
        .shared
        .effects(view)
        .into_iter()
        .map(|m| {
            assert_eq!(m.phase, EffectPhase::Live);
            m.label
        })
        .collect();
    assert_eq!(labels, vec!["one", "plugin apply: tidy"]);
    assert!(w.dispose(view).is_ok());
    assert!(w.dispose(view).is_ok());
    assert_eq!(w.log, vec!["b", "d", "c", "a"]);
}

#[test]
fn errors_of_cleanups_are_kept_apart() {
    let mut w = World::new();
    let root = w.root();
    let view = w.plugin(
        &root,
        "untidy",
        vec![],
        Rc::new(|w, ctx| {
            let a = w.failing("a");
            let b = w.logging("b");
            let c = w.failing("c");
            w.effect(ctx, "a", Effect::Disposer(a))?;
            w.effect(ctx, "b", Effect::Disposer(b))?;
            let early = w.effect(ctx, "c", Effect::Disposer(c))?;
            assert!(w.drain(early).is_err());
            Ok(Effect::Done)
        }),
    );
    let error = w.dispose(view).unwrap_err();
    assert_eq!(w.log, vec!["c", "b", "a"]);
    match &*error {
        CordisError::Aggregate { errors } => {
            let texts: Vec<String> = errors.iter().map(|e| e.message()).collect();
            assert_eq!(texts, vec!["plugin failed: a", "plugin failed: c"]);
        }
        _ => panic!("no aggregate"),
    }
    let again = w.dispose(view).unwrap_err();
    assert!(Arc::ptr_eq(&error, &again));
}

#[test]
fn a_failed_assembly_is_undone() {
    let mut w = World::new();
    let root = w.root();
    let view = w.plugin(
        &root,
        "half",
        vec![],
        Rc::new(|w, ctx| {
            let a = w.failing("undo");
            w.effect(ctx, "a", Effect::Disposer(a))?;
            Err(plugin_failure("halfway"))
        }),
    );
    assert_eq!(w.state(view), FiberState::Failed);
    match &*w.settle(view).unwrap_err() {
        CordisError::Aggregate { errors } => {
            let texts: Vec<String> = errors.iter().map(|e| e.message()).collect();
            assert_eq!(texts, vec!["plugin failed: halfway", "plugin failed: undo"]);
        }
        _ => panic!("no aggregate"),
    }
    let reports: Vec<String> = w
        .shared
        .take_reports()
        .iter()
        .map(|e| e.message())
        .collect();
    assert_eq!(reports, vec!["plugin failed: undo"]);
    assert_eq!(
        w.transitions(view),
        vec![
            (FiberState::Pending, FiberState::Loading),
            (FiberState::Loading, FiberState::Unloading),
            (FiberState::Unloading, FiberState::Failed),
        ]
    );
}

#[test]
fn disposing_of_a_parent_disposes_of_its_children() {
    let mut w = World::new();
    let root = w.root();
    let parent = w.plugin(
        &root,
        "parent",
        vec![],
        Rc::new(|w, ctx| {
            let child = w.plugin(ctx, "child", vec![], idle());
            w.log.push(child.to_string());
            Ok(Effect::Done)
        }),
    );
    let child: usize = w.log[0].parse().unwrap();
    assert_eq!(w.state(child), FiberState::Active);
    assert_eq!(w.shared.effects(parent)[0].label, "plugin mount: child #3");
    assert!(w.dispose(parent).is_ok());
    assert_eq!(w.state(child), FiberState::Disposed);
    assert_eq!(w.state(parent), FiberState::Disposed);
    assert!(matches!(
        *w.restart(parent).unwrap_err(),
        CordisError::InactiveEffect
    ));
}

#[test]
fn the_root_can_be_restarted_but_not_after_shutdown() {
    let mut w = World::new();
    assert!(w.dispose(0).is_ok());
    assert_eq!(w.state(0), FiberState::Disposed);
    assert!(w.restart(0).is_ok());
    assert_eq!(w.state(0), FiberState::Active);
    assert!(w.shutdown_root().is_ok());
    assert!(matches!(*w.restart(0).unwrap_err(), CordisError::Closed));
    let root = w.root();
    assert!(matches!(
        w.provide::<u8>(&root, u8_key(), 1),
        Err(CordisError::Closed)
    ));
    let late = w.plugin(&root, "late", vec![], idle());
    assert_eq!(w.state(late), FiberState::Disposed);
    assert!(matches!(
        *w.dispose(late).unwrap_err(),
        CordisError::Closed
    ));
}

#[test]
fn a_shut_down_subtree_is_closed_for_good() {
    let mut w = World::new();
    let root = w.root();
    let parent = w.plugin(
        &root,
        "parent",
        vec![],
        Rc::new(|w, ctx| {
            w.seen.push(ctx.clone());
            w.plugin(ctx, "child", vec![], idle());
            Ok(Effect::Done)
        }),
    );
    let inside = w.seen[0].clone();
    assert!(w.shutdown(parent).is_ok());
    assert_eq!(w.state(parent), FiberState::Disposed);
    assert_eq!(w.state(parent + 1), FiberState::Disposed);
    assert!(matches!(
        w.effect(&inside, "late", Effect::Done),
        Err(CordisError::Closed)
    ));
    assert!(matches!(
        *w.restart(parent).unwrap_err(),
        CordisError::Closed
    ));
    assert_eq!(w.state(0), FiberState::Active);
}

#[test]
fn every_begun_shutdown_has_one_plan() {
    let mut w = World::new();
    let root = w.root();
    let parent = w.plugin(
        &root,
        "parent",
        vec![],
        Rc::new(|w, ctx| {
            w.plugin(ctx, "one", vec![], idle());
            w.plugin(ctx, "two", vec![], idle());
            Ok(Effect::Done)
        }),
    );
    let aside = w.plugin(&root, "aside", vec![], idle());
    let (two, plans) = w.shared.shutdown(parent + 2);
    assert_eq!(plans.len(), 1);
    assert_eq!(plans[0].fiber, parent + 2);
    assert_eq!(plans[0].public, two);
    let (task, more) = w.shared.shutdown(parent);
    let fibers: Vec<usize> = more.iter().map(|plan| plan.fiber).collect();
    assert_eq!(fibers, vec![parent, parent + 1]);
    assert_eq!(more[0].public, task);
    assert_eq!(more[0].children, vec![more[1].public, two]);
    assert!(more[0].public < more[1].public);
    assert!(w.shared.joined(task).is_none());

    let (again, none) = w.shared.shutdown(parent);
    assert_eq!(again, task);
    assert!(none.is_empty());
    w.run();
    assert!(w.shared.joined(task).is_none());
    for plan in plans.iter().chain(more.iter().rev()) {
        w.shared.finish_shutdown(plan, None);
    }
    for plan in plans.iter().chain(more.iter()) {
        assert!(w.shared.joined(plan.public).unwrap().is_ok());
    }
    assert_eq!(w.state(aside), FiberState::Active);
}

#[test]
fn an_error_below_reaches_everybody_who_waits_for_the_shutdown() {
    let mut w = World::new();
    let root = w.root();
    let parent = w.plugin(
        &root,
        "parent",
        vec![],
        Rc::new(|w, ctx| {
            w.plugin(
                ctx,
                "child",
                vec![],
                Rc::new(|w, _| {
                    let cleanup = w.failing("leak");
                    Ok(Effect::Disposer(cleanup))
                }),
            );
            Ok(Effect::Done)
        }),
    );
    let (task, plans) = w.shared.shutdown(parent);
    let (again, none) = w.shared.shutdown(parent);
    assert_eq!(again, task);
    assert!(none.is_empty());
    w.run();
    assert_eq!(w.log, vec!["leak"]);
    for plan in plans.iter().rev() {
        w.shared.finish_shutdown(plan, None);
    }
    let below = w.shared.joined(plans[1].public).unwrap().unwrap_err();
    let error = w.shared.joined(task).unwrap().unwrap_err();
    match &*error {
        CordisError::Aggregate { errors } => {
            assert!(errors.iter().any(|e| Arc::ptr_eq(e, &below)))
        }
        _ => assert!(Arc::ptr_eq(&error, &below)),
    }
    let same = w.shared.joined(again).unwrap().unwrap_err();
    assert!(Arc::ptr_eq(&error, &same));
    assert!(matches!(
        *w.restart(parent).unwrap_err(),
        CordisError::Closed
    ));
}

#[test]
fn a_driver_that_was_lost_is_an_error_of_the_shutdown() {
    let mut w = World::new();
    let root = w.root();
    let view = w.plugin(&root, "alone", vec![], idle());
    let (task, plans) = w.shared.shutdown(view);
    w.run();
    let lost = Arc::new(plugin_failure("driver"));
    w.shared.finish_shutdown(&plans[0], Some(lost.clone()));
    let error = w.shared.joined(task).unwrap().unwrap_err();
    assert!(Arc::ptr_eq(&error, &lost));
}

#[test]
fn listeners_observers_and_interceptors_are_numbered() {
    let mut w = World::new();
    let root = w.root();
    let key = TypeKey::of::<u8>("u8");
    let spec = |prepend: bool| ListenerSpec {
        call: 1,
        once: false,
        prepend,
        cleanup: 0,
    };
    let (_, a) = w
        .bus
        .add_hook(&mut w.shared, &root, key.clone(), spec(false))
        .unwrap();
    let (_, b) = w
        .bus
        .add_wf_hook(&mut w.shared, &root, key.clone(), spec(false))
        .unwrap();
    w.bus.remove_call_hook(&key, a);
    let (_, c) = w
        .bus
        .add_hook(&mut w.shared, &root, key.clone(), spec(true))
        .unwrap();
    assert_eq!((a, b, c), (0, 1, 2));

    let mut observers = DispatchObservers::new();
    let (_, first) = observers
        .observe_dispatch(&mut w.shared, &root, 1, 0)
        .unwrap();
    observers.remove(first);
    let (_, second) = observers
        .observe_dispatch(&mut w.shared, &root, 1, 0)
        .unwrap();
    assert_eq!((first, second), (0, 1));

    let mut ids = Vec::new();
    for kind in [HookKind::Read, HookKind::Write] {
        let (_, id) = w
            .hooks
            .register_service_interceptor(
                &mut w.shared,
                &root,
                key.clone(),
                &TypeId::of::<u8>(),
                kind,
                1,
                0,
            )
            .unwrap();
        w.hooks.remove(id);
        ids.push(id);
    }
    assert_eq!(ids, vec![0, 1]);
}

#[test]
fn a_failed_fiber_keeps_its_error_when_shut_down() {
    let mut w = World::new();
    let root = w.root();
    let view = w.plugin(
        &root,
        "fails",
        vec![],
        Rc::new(|_, _| Err(plugin_failure("why"))),
    );
    let error = w.shutdown(view).unwrap_err();
    assert_eq!(error.message(), "plugin failed: why");
}

#[test]
fn a_new_configuration_is_taken_only_after_its_trial() {
    let mut w = World::new();
    let root = w.root();
    let source = Source::Factory(TypeId::of::<u32>());
    let view = w.mount(&root, "tuned", source, Some(10), vec![], idle());
    assert_eq!(w.built, vec![(view, Some(10))]);
    assert_eq!(
        w.shared.current_config(view, &TypeId::of::<u32>()),
        Some(10)
    );
    assert_eq!(w.shared.current_config(view, &TypeId::of::<u8>()), None);

    let wrong = w.shared.update_guard(view, &TypeId::of::<u8>());
    assert!(matches!(wrong, Err(CordisError::Validation { .. })));
    assert!(w.shared.update_guard(view, &TypeId::of::<u32>()).is_ok());
    let refused = w.shared.update(view, 11, Err(plugin_failure("port in use")));
    assert_eq!(
        refused.err().unwrap().message(),
        "plugin failed: port in use"
    );
    w.run();
    assert_eq!(w.shared.current_config(view, &TypeId::of::<u32>()), Some(10));
    assert_eq!(w.shared.fibers[view].trans.generation, 1);

    let task = match w.shared.update(view, 12, Ok(())) {
        Ok(task) => task,
        Err(_) => panic!("refused"),
    };
    w.run();
    assert!(w.shared.joined(task).unwrap().is_ok());
    assert_eq!(w.built, vec![(view, Some(10)), (view, Some(12))]);
    assert_eq!(w.state(view), FiberState::Active);

    let fixed = w.plugin(&root, "fixed", vec![], idle());
    match w.shared.update_guard(fixed, &TypeId::of::<u32>()) {
        Err(CordisError::Validation { issues }) => assert_eq!(
            issues,
            vec!["fiber has no factory (static plugin cannot update)"]
        ),
        _ => panic!("taken"),
    }
}

#[test]
fn a_build_that_fails_leaves_the_fiber_failed() {
    let mut w = World::new();
    let root = w.root();
    w.broken_builds.insert(5, "bad config".to_string());
    let source = Source::Factory(TypeId::of::<u32>());
    let view = w.mount(&root, "tuned", source, Some(5), vec![], idle());
    assert_eq!(w.state(view), FiberState::Failed);
    assert!(w.seen.is_empty());
    assert_eq!(
        w.settle(view).unwrap_err().message(),
        "plugin failed: bad config"
    );
}

#[test]
fn services_are_unique_in_their_scope_and_typed() {
    let mut w = World::new();
    let root = w.root();
    w.provide::<u8>(&root, u8_key(), 1).unwrap();
    match w.provide::<u8>(&root, u8_key(), 2) {
        Err(CordisError::ServiceExists(name)) => assert_eq!(name, "u8"),
        _ => panic!("taken twice"),
    }
    let left = root.isolate(u8_key(), "left");
    let right = root.isolate(u8_key(), "right");
    let left_again = root.isolate(u8_key(), "left");
    w.provide::<u8>(&left, u8_key(), 10).unwrap();
    w.provide::<u8>(&right, u8_key(), 20).unwrap();
    assert_eq!(w.get::<u8>(&root, &u8_key()), Some(1));
    assert_eq!(w.get::<u8>(&left, &u8_key()), Some(10));
    assert_eq!(w.get::<u8>(&left_again, &u8_key()), Some(10));
    assert_eq!(w.get::<u8>(&right, &u8_key()), Some(20));
    match w.provide::<u16>(&root, TypeKey::keyed::<u8>("u8", "x"), 3) {
        Err(CordisError::Validation { issues }) => assert_eq!(
            issues,
            vec!["service key u8#x expects value of type u8, got given"]
        ),
        _ => panic!("mistyped"),
    }
    assert_eq!(w.get::<u16>(&root, &u8_key()), None);
}

#[test]
fn self_and_ancestor_declarations_respect_isolate_scope() {
    let mut w = World::new();
    let root = w.root();
    w.provide::<u64>(&root, u64_key(), 3).unwrap();
    w.plugin(&root, "parent", vec![u64_key()], idle());
    let parent = w.seen[0].clone();
    w.plugin(&parent, "descendant", vec![], idle());
    let descendant = w.seen[1].clone();
    assert_eq!(w.require::<u64>(&descendant, &u64_key(), &none()), Ok(3));
    let isolate = parent.isolate(u64_key(), "other");
    w.plugin(&isolate, "scoped", vec![], idle());
    let scoped = w.seen[2].clone();
    assert_eq!(
        w.require::<u64>(&scoped, &u64_key(), &none()),
        Err(ServiceReadFailure::Undeclared)
    );
    assert_eq!(w.get::<u64>(&scoped, &u64_key()), None);
}

#[test]
fn a_new_root_isolates_nothing() {
    let mut ids = InstanceIds::new();
    let shared = Shared::new(&mut ids);
    let root = shared.nodes[0].ctx.clone();
    assert_eq!(root.scope_for(&u64_key()), None);
    assert!(root.node.parent.is_none());
    assert!(root.node.isolate.is_none());
    assert_eq!(root.node.fiber, 0);
    assert_eq!(root.node.plugin_id, shared.fibers[0].id);
    assert_eq!(root.instance(), shared.nodes[0].instance);
    assert_eq!(root.node.generation, 0);
}

#[test]
fn strict_reads_need_a_declaration() {
    let mut w = World::new();
    let root = w.root();
    let service = w.provide::<u8>(&root, u8_key(), 1).unwrap();
    let undeclared = w.plugin(&root, "undeclared", vec![], idle());
    let declared = w.plugin(&root, "declared", vec![u8_key()], idle());
    let (a, b) = (w.seen[0].clone(), w.seen[1].clone());
    assert_eq!(
        w.require::<u8>(&a, &u8_key(), &none()),
        Err(ServiceReadFailure::Undeclared)
    );
    assert_eq!(w.require::<u8>(&b, &u8_key(), &none()), Ok(1));
    assert_eq!(
        w.require::<u16>(&b, &u8_key(), &none()),
        Err(ServiceReadFailure::TypeMismatch)
    );
    assert_eq!(w.require::<u8>(&root, &u8_key(), &none()), Ok(1));
    w.drain(service).unwrap();
    assert_eq!(w.state(declared), FiberState::Pending);
    assert!(matches!(
        w.require::<u8>(&b, &u8_key(), &none()),
        Err(ServiceReadFailure::Unavailable(_)) | Err(ServiceReadFailure::Inactive)
    ));
    let report = w.plugin_report(undeclared).unwrap();
    assert!(report
        .accesses
        .iter()
        .any(|x| x.failure == Some(ServiceReadFailure::Undeclared) && x.strict));
}

#[test]
fn keys_of_an_instance_stay_in_its_subtree() {
    let mut w = World::new();
    let root = w.root();
    w.plugin(&root, "a", vec![], idle());
    w.plugin(&root, "b", vec![], idle());
    let (a, b) = (w.seen[0].clone(), w.seen[1].clone());
    let key = TypeKey::instance::<u64>("u64", a.instance());
    w.provide::<u64>(&a, key.clone(), 5).unwrap();
    assert_eq!(w.require::<u64>(&a, &key, &none()), Ok(5));
    assert_eq!(
        w.require::<u64>(&b, &key, &none()),
        Err(ServiceReadFailure::OutOfScope)
    );
    assert_eq!(w.get::<u64>(&b, &key), None);
    assert_eq!(w.get::<u64>(&root, &key), None);
    assert!(matches!(
        w.provide::<u64>(&b, key, 6),
        Err(CordisError::InstanceOutOfScope { .. })
    ));
}

#[test]
fn readiness_checks_hold_consumers_back() {
    let mut w = World::new();
    let root = w.root();
    w.check = CheckOutcome::Rejected;
    let mut offer = w.offer(TypeId::of::<u8>(), 1);
    offer.has_check = true;
    w.provide_with(&root, u8_key(), offer).map(|_| ()).unwrap();
    let view = w.plugin(&root, "careful", vec![u8_key()], idle());
    assert_eq!(w.state(view), FiberState::Pending);
    let report = w.plugin_report(view).unwrap();
    assert_eq!(report.injects[0].status, DependencyStatus::CheckRejected);
    w.check = CheckOutcome::Passed;
    w.shared.refresh_all();
    w.run();
    assert_eq!(w.state(view), FiberState::Active);
    w.check = CheckOutcome::Panicked;
    w.shared.refresh_all();
    w.run();
    assert_eq!(w.state(view), FiberState::Pending);
}

#[test]
fn reads_go_through_interceptors() {
    let mut w = World::new();
    let root = w.root();
    let key = TypeKey::keyed::<u64>("u64", "read");
    w.provide::<u64>(&root, key.clone(), 10).unwrap();
    w.plugin(&root, "reader", vec![key.clone()], idle());
    let reader = w.seen[0].clone();
    let mut calls = none();
    calls.insert(1, |v| HookOutcome::Decided(ServiceIntercept::Replace(v + 1)));
    calls.insert(2, |_| HookOutcome::Decided(ServiceIntercept::Deny));
    calls.insert(3, |_| HookOutcome::Panicked);
    let u64_type = TypeId::of::<u64>();
    let register = |w: &mut World, ctx: &Ctx, call: u64| {
        let cleanup = w.logging("gone");
        w.hooks.register_service_interceptor(
            &mut w.shared,
            ctx,
            key.clone(),
            &u64_type,
            HookKind::Read,
            call,
            cleanup,
        )
    };
    let (record, replace) = match register(&mut w, &root, 1) {
        Ok(found) => found,
        Err(_) => panic!("refused"),
    };
    assert_eq!(
        w.shared.effects(0).last().unwrap().label,
        "service read interceptor: u64#read"
    );
    assert_eq!(w.get::<u64>(&reader, &key), Some(10));
    assert_eq!(w.require::<u64>(&reader, &key, &calls), Ok(11));
    let deny = match register(&mut w, &root, 2) {
        Ok((_, id)) => id,
        Err(_) => panic!("refused"),
    };
    assert_eq!(
        w.require::<u64>(&reader, &key, &calls),
        Err(ServiceReadFailure::InterceptDenied)
    );
    w.hooks.remove(deny);
    let broken = match register(&mut w, &root, 3) {
        Ok((_, id)) => id,
        Err(_) => panic!("refused"),
    };
    assert_eq!(
        w.require::<u64>(&reader, &key, &calls),
        Err(ServiceReadFailure::InterceptPanicked)
    );
    w.hooks.remove(broken);
    w.guard
        .enter(HookKind::Read, &key, &None)
        .map_err(|_| ())
        .unwrap();
    assert_eq!(
        w.require::<u64>(&reader, &key, &calls),
        Err(ServiceReadFailure::InterceptReentrant)
    );
    w.guard.leave();
    w.hooks.remove(replace);
    w.drain(record).unwrap();
    assert_eq!(w.require::<u64>(&reader, &key, &calls), Ok(10));

    let wrong = w.hooks.register_service_interceptor(
        &mut w.shared,
        &root,
        key.clone(),
        &TypeId::of::<u8>(),
        HookKind::Read,
        1,
        0,
    );
    match wrong {
        Err(CordisError::Validation { issues }) => {
            assert_eq!(issues, vec!["interceptor type does not match u64#read"])
        }
        _ => panic!("mistyped"),
    }
}

#[test]
fn interceptors_work_for_their_owner_and_below() {
    let mut w = World::new();
    let root = w.root();
    let key = TypeKey::keyed::<u64>("u64", "shared");
    w.provide::<u64>(&root, key.clone(), 1).unwrap();
    w.plugin(&root, "a", vec![key.clone()], idle());
    w.plugin(&root, "b", vec![key.clone()], idle());
    let (a, b) = (w.seen[0].clone(), w.seen[1].clone());
    let mut calls = none();
    calls.insert(1, |_| HookOutcome::Decided(ServiceIntercept::Replace(2)));
    let registered = w.hooks.register_service_interceptor(
        &mut w.shared,
        &a,
        key.clone(),
        &TypeId::of::<u64>(),
        HookKind::Read,
        1,
        0,
    );
    assert!(registered.is_ok());
    assert_eq!(w.require::<u64>(&a, &key, &calls), Ok(2));
    assert_eq!(w.require::<u64>(&b, &key, &calls), Ok(1));
    assert_eq!(w.require::<u64>(&root, &key, &calls), Ok(1));
}

#[test]
fn only_the_provider_updates_its_service() {
    let mut w = World::new();
    let root = w.root();
    let key = TypeKey::keyed::<u64>("u64", "mutable");
    let mut offer = w.offer(TypeId::of::<u64>(), 1);
    offer.mutable = true;
    let (record, binding) = match w.provide_with(&root, key.clone(), offer) {
        Ok(made) => made,
        Err(_) => panic!("refused"),
    };
    let writer = ServiceWriter::new(&w.shared, &root, key.clone(), binding);
    let view = w.plugin(&root, "reader", vec![key.clone()], idle());
    let reader = w.seen[0].clone();
    assert_eq!(
        w.write(&writer, &reader, 2, &none()),
        Err(ServiceWriteFailure::WrongOwner)
    );
    assert_eq!(w.write(&writer, &root, 2, &none()), Ok(1));
    assert_eq!(w.require::<u64>(&reader, &key, &none()), Ok(2));
    assert_eq!(w.state(view), FiberState::Active);
    assert_eq!(w.shared.fibers[view].trans.generation, 1);

    let mut calls = none();
    calls.insert(1, |v| HookOutcome::Decided(ServiceIntercept::Replace(v + 10)));
    calls.insert(2, |_| HookOutcome::Decided(ServiceIntercept::Deny));
    let u64_type = TypeId::of::<u64>();
    let replace = w.hooks.register_service_interceptor(
        &mut w.shared,
        &root,
        key.clone(),
        &u64_type,
        HookKind::Write,
        1,
        0,
    );
    assert!(replace.is_ok());
    assert_eq!(w.write(&writer, &root, 3, &calls), Ok(2));
    assert_eq!(w.get::<u64>(&reader, &key), Some(13));
    let deny = w.hooks.register_service_interceptor(
        &mut w.shared,
        &root,
        key.clone(),
        &u64_type,
        HookKind::Write,
        2,
        0,
    );
    assert!(deny.is_ok());
    assert_eq!(
        w.write(&writer, &root, 4, &calls),
        Err(ServiceWriteFailure::InterceptDenied)
    );
    assert_eq!(w.get::<u64>(&reader, &key), Some(13));

    w.drain(record).unwrap();
    let mut offer = w.offer(TypeId::of::<u64>(), 50);
    offer.mutable = true;
    let (_, newer) = match w.provide_with(&root, key.clone(), offer) {
        Ok(made) => made,
        Err(_) => panic!("refused"),
    };
    assert_eq!(
        writer
            .finish_set(&mut w.shared, &root, Ok(99), HERE)
            .err()
            .unwrap()
            .reason,
        ServiceWriteFailure::Stale
    );
    let current = ServiceWriter::new(&w.shared, &root, key.clone(), newer);
    assert_eq!(
        current
            .finish_set(&mut w.shared, &root, Ok(51), HERE)
            .map_err(|e| e.reason),
        Ok(50)
    );
    assert_eq!(w.get::<u64>(&root, &key), Some(51));

    let mut other = World::new();
    let stranger = other.root();
    other
        .provide::<u64>(&stranger, key, 1)
        .map(|_| ())
        .unwrap();
    let mut foreign = ServiceWriter::new(&w.shared, &root, u64_key(), 0);
    let mut ids = InstanceIds::new();
    let _ = InstanceId::allocate(&mut ids);
    foreign.root = InstanceId::allocate(&mut ids);
    assert_eq!(
        foreign
            .begin_set(&other.shared, &stranger, HERE)
            .err()
            .unwrap()
            .reason,
        ServiceWriteFailure::WrongOwner
    );
}

fn listen(w: &mut World, ctx: &Ctx, key: &TypeKey, call: u64, once: bool, prepend: bool) -> u64 {
    let cleanup = w.logging("unheard");
    let listener = ListenerSpec {
        call,
        once,
        prepend,
        cleanup,
    };
    match w.bus.add_hook(&mut w.shared, ctx, key.clone(), listener) {
        Ok((_, id)) => id,
        Err(_) => panic!("refused"),
    }
}

fn dispatch(w: &mut World, ctx: &Ctx, key: &TypeKey) -> Vec<u64> {
    match w.bus.begin_dispatch(&mut w.shared, ctx, key) {
        Ok(dispatch) => {
            for i in dispatch.flight {
                w.shared.drop_lease(i);
            }
            dispatch.hooks.iter().map(|h| h.call).collect()
        }
        Err(_) => panic!("refused"),
    }
}

#[test]
fn listeners_are_called_in_order_and_once_if_asked() {
    let mut w = World::new();
    let root = w.root();
    let key = TypeKey::of::<u16>("ping");
    listen(&mut w, &root, &key, 1, false, false);
    listen(&mut w, &root, &key, 2, true, false);
    let third = listen(&mut w, &root, &key, 3, false, true);
    listen(&mut w, &root, &TypeKey::of::<u32>("pong"), 4, false, false);
    assert_eq!(dispatch(&mut w, &root, &key), vec![3, 1, 2]);
    assert_eq!(dispatch(&mut w, &root, &key), vec![3, 1]);
    w.bus.remove_call_hook(&key, third);
    assert_eq!(dispatch(&mut w, &root, &key), vec![1]);
    assert_eq!(
        w.shared.effects(0)[0].label,
        "event listener: ping"
    );
}

#[test]
fn named_events_reach_their_name_only() {
    let mut w = World::new();
    let root = w.root();
    let fixed = TypeKey::keyed::<u16>("ping", "session/event");
    let made = TypeKey::keyed_dynamic::<u16>("ping", "session/event".to_string());
    listen(&mut w, &root, &fixed, 1, false, false);
    assert_eq!(dispatch(&mut w, &root, &made), vec![1]);
    let other = TypeKey::keyed::<u16>("ping", "agent/turn");
    assert!(dispatch(&mut w, &root, &other).is_empty());
    assert!(dispatch(&mut w, &root, &TypeKey::of::<u16>("ping")).is_empty());
}

#[test]
fn events_of_an_instance_stay_in_its_subtree() {
    let mut w = World::new();
    let root = w.root();
    w.plugin(&root, "a", vec![], idle());
    w.plugin(&root, "b", vec![], idle());
    let (a, b) = (w.seen[0].clone(), w.seen[1].clone());
    let key = TypeKey::instance::<u16>("ping", a.instance());
    listen(&mut w, &a, &key, 1, false, false);
    assert_eq!(dispatch(&mut w, &a, &key), vec![1]);
    assert!(matches!(
        w.bus.begin_dispatch(&mut w.shared, &b, &key),
        Err(CordisError::InstanceOutOfScope { .. })
    ));
    let owner = a.node.fiber;
    assert!(w.shutdown(owner).is_ok());
    assert!(matches!(
        w.bus.begin_dispatch(&mut w.shared, &a, &key),
        Err(CordisError::Closed)
    ));
}

#[test]
fn dispatches_of_a_key_wait_for_each_other() {
    let mut w = World::new();
    let key = TypeKey::of::<u16>("ping");
    let other = TypeKey::of::<u32>("pong");
    assert_eq!(w.bus.enqueue(key.clone(), 7), (0, None));
    assert_eq!(w.bus.enqueue(key.clone(), 8), (1, Some(7)));
    assert_eq!(w.bus.enqueue(other, 9), (0, None));
    w.bus.dequeue(&key, 0);
    assert_eq!(w.bus.enqueue(key.clone(), 10), (2, Some(8)));
    w.bus.dequeue(&key, 2);
    assert_eq!(w.bus.enqueue(key, 11), (0, None));
}

#[test]
fn serial_dispatch_stops_at_the_first_answer() {
    let mut w = World::new();
    let root = w.root();
    let key = TypeKey::of::<u16>("ask");
    for call in [1, 2, 3] {
        listen(&mut w, &root, &key, call, false, false);
    }
    let hooks = match w.bus.begin_dispatch(&mut w.shared, &root, &key) {
        Ok(d) => d.hooks,
        Err(_) => panic!("refused"),
    };
    let mut run = SerialRun::new(hooks);
    let mut asked = Vec::new();
    while let Some(hook) = run.next_hook() {
        asked.push(hook.call);
        run.ended(if hook.call == 2 {
            ListenerOutcome::Value(42)
        } else {
            ListenerOutcome::Pass
        });
    }
    assert_eq!(asked, vec![1, 2]);
    assert!(matches!(run.finish(), Ok(Some(42))));
}

#[test]
fn the_end_waits_for_callbacks_in_flight() {
    let mut w = World::new();
    let root = w.root();
    let view = w.plugin(&root, "busy", vec![], idle());
    let ctx = w.seen[0].clone();
    let key = TypeKey::instance::<u16>("ping", ctx.instance());
    listen(&mut w, &ctx, &key, 1, false, false);
    let flight = match w.bus.begin_dispatch(&mut w.shared, &ctx, &key) {
        Ok(d) => d.flight,
        Err(_) => panic!("refused"),
    };
    assert!(flight.contains(&view));
    let (task, _) = w.shared.shutdown(view);
    w.run();
    assert!(w.shared.joined(task).is_none());
    assert!(matches!(w.shared.fibers[view].stage, Stage::Flights(_)));
    for i in flight {
        w.shared.drop_lease(i);
    }
    w.run();
    assert_eq!(w.state(view), FiberState::Disposed);
}

#[test]
fn waiting_for_the_end_can_be_given_up() {
    let mut w = World::new();
    let root = w.root();
    let view = w.plugin(&root, "slow", vec![], idle());
    let elapsed = Elapsed { secs: 0, nanos: 5 };
    match w.shared.wait_result(view, None, elapsed) {
        Err(DisposeWaitError::TimedOut {
            plugin_id,
            generation,
            state,
            ..
        }) => {
            assert_eq!(plugin_id, w.shared.fibers[view].id);
            assert_eq!(generation, 1);
            assert_eq!(state, FiberState::Active);
        }
        _ => panic!("not timed out"),
    }
    assert!(w.shared.wait_result(view, Some(Ok(())), elapsed).is_ok());
    let failed = Some(Err(Arc::new(CordisError::Closed)));
    assert!(matches!(
        w.shared.wait_result(view, failed, elapsed),
        Err(DisposeWaitError::Failed(_))
    ));
}

#[test]
fn a_broken_driver_is_cleared_away() {
    let mut w = World::new();
    let root = w.root();
    let view = w.plugin(
        &root,
        "broken",
        vec![],
        Rc::new(|w, _| {
            let a = w.logging("cleaned");
            Ok(Effect::Disposer(a))
        }),
    );
    w.shared.driver_broke(view, plugin_failure("driver panicked"));
    w.run();
    assert_eq!(w.log, vec!["cleaned"]);
    assert_eq!(w.state(view), FiberState::Failed);
    assert_eq!(
        w.dispose(view).unwrap_err().message(),
        "plugin failed: driver panicked"
    );
}

#[test]
fn diagnostics_list_the_tree_and_the_bindings() {
    let mut w = World::new();
    let root = w.root();
    w.provide::<u8>(&root, u8_key(), 1).unwrap();
    let parent = w.plugin(
        &root,
        "parent",
        vec![u8_key()],
        Rc::new(|w, ctx| {
            w.plugin(ctx, "child", vec![u64_key()], idle());
            Ok(Effect::Done)
        }),
    );
    let d = w.shared.diagnostics();
    assert!(!d.shutting_down);
    let names: Vec<String> = d.plugins.iter().map(|p| p.name.clone()).collect();
    assert_eq!(names, vec!["root", "parent", "child"]);
    assert_eq!(d.plugins[0].parent, None);
    assert_eq!(d.plugins[1].parent, Some(d.plugins[0].id));
    assert_eq!(d.plugins[2].parent, Some(d.plugins[1].id));
    assert_eq!(d.plugins[1].injects[0].status, DependencyStatus::Ready);
    assert_eq!(d.plugins[1].resolved_dependencies.len(), 1);
    assert_eq!(d.plugins[2].injects[0].status, DependencyStatus::Missing);
    assert_eq!(d.plugins[2].state, FiberState::Pending);
    assert_eq!(d.bindings.len(), 1);
    assert_eq!(d.bindings[0].provider, d.plugins[0].id);
    assert!(!d.bindings[0].removing);
    assert!(w.dispose(parent).is_ok());
    assert_eq!(w.shared.diagnostics().plugins.len(), 1);
    assert!(w.shutdown_root().is_ok());
    assert!(w.shared.diagnostics().shutting_down);
}

#[test]
fn a_child_that_fails_to_end_is_reported_once() {
    let mut w = World::new();
    let root = w.root();
    let parent = w.plugin(
        &root,
        "parent",
        vec![],
        Rc::new(|w, ctx| {
            w.plugin(
                ctx,
                "child",
                vec![],
                Rc::new(|w, _| {
                    let cleanup = w.failing("stuck");
                    Ok(Effect::Disposer(cleanup))
                }),
            );
            Ok(Effect::Done)
        }),
    );
    assert!(w.dispose(parent).is_ok());
    let reports: Vec<String> = w
        .shared
        .take_reports()
        .iter()
        .map(|e| e.message())
        .collect();
    assert_eq!(reports, vec!["plugin failed: stuck"]);
    let child = w.plugin(
        &root,
        "alone",
        vec![],
        Rc::new(|w, _| {
            let cleanup = w.failing("stuck");
            Ok(Effect::Disposer(cleanup))
        }),
    );
    assert!(w.dispose(child).is_err());
    assert!(w.shared.take_reports().is_empty());
}

fn told(w: &mut World, observers: &DispatchObservers, ctx: &Ctx) -> Vec<u64> {
    let audience = observers.select(&mut w.shared, ctx);
    for i in audience.flight {
        w.shared.drop_lease(i);
    }
    audience.hooks.iter().map(|hook| hook.call).collect()
}

#[test]
fn observers_are_told_of_their_own_part_of_the_tree() {
    let mut w = World::new();
    let root = w.root();
    let a_view = w.plugin(&root, "a", vec![], idle());
    w.plugin(&root, "b", vec![], idle());
    let (a, b) = (w.seen[0].clone(), w.seen[1].clone());
    let mut observers = DispatchObservers::new();
    for (call, owner) in [(1, &root), (2, &a), (3, &b)] {
        let cleanup = w.logging("observer");
        observers
            .observe_dispatch(&mut w.shared, owner, call, cleanup)
            .unwrap();
    }
    assert_eq!(told(&mut w, &observers, &a), vec![1, 2]);
    assert_eq!(told(&mut w, &observers, &b), vec![1, 3]);
    assert_eq!(told(&mut w, &observers, &root), vec![1]);
    assert!(w.shutdown(a_view).is_ok());
    assert_eq!(told(&mut w, &observers, &b), vec![1, 3]);
    assert_eq!(told(&mut w, &observers, &a), vec![1]);
    assert!(matches!(
        observers.observe_dispatch(&mut w.shared, &a, 4, 0),
        Err(CordisError::Closed)
    ));
    let key = u8_key();
    let attempt = DispatchAttempt::new(DispatchMode::Serial, &key, &b);
    assert_eq!(attempt.mode, DispatchMode::Serial);
    assert!(attempt.key == key);
    assert_eq!(attempt.emitter, b.node.plugin_id);
    assert_eq!(attempt.emitter_instance, b.instance());
}

#[test]
fn observers_go_when_they_are_taken_away() {
    let mut w = World::new();
    let root = w.root();
    let mut observers = DispatchObservers::new();
    for _ in 0..1000 {
        let (_, id) = observers
            .observe_dispatch(&mut w.shared, &root, 7, 0)
            .unwrap();
        assert_eq!(observers.observer_count(), 1);
        observers.remove(id);
        assert_eq!(observers.observer_count(), 0);
    }
    assert!(told(&mut w, &observers, &root).is_empty());
}

#[test]
fn a_restarted_fiber_is_still_observed_through_its_old_context() {
    let mut w = World::new();
    let root = w.root();
    let view = w.plugin(&root, "child", vec![], idle());
    let old = w.seen[0].clone();
    assert!(w.restart(view).is_ok());
    let mut observers = DispatchObservers::new();
    observers
        .observe_dispatch(&mut w.shared, &root, 1, 0)
        .unwrap();
    assert_eq!(told(&mut w, &observers, &old), vec![1]);
}

#[test]
fn the_end_waits_for_an_observer() {
    let mut w = World::new();
    let root = w.root();
    let view = w.plugin(&root, "observer", vec![], idle());
    let ctx = w.seen[0].clone();
    let mut observers = DispatchObservers::new();
    let cleanup = w.logging("observer");
    observers
        .observe_dispatch(&mut w.shared, &ctx, 1, cleanup)
        .unwrap();
    let key = TypeKey::instance::<u8>("u8", ctx.instance());
    let audience = observers.select(&mut w.shared, &ctx);
    assert_eq!(audience.flight, vec![view]);
    let (task, plans) = w.shared.shutdown(view);
    w.run();
    assert!(w.shared.joined(task).is_none());
    assert!(matches!(
        w.bus.begin_dispatch(&mut w.shared, &ctx, &key),
        Err(CordisError::Closed)
    ));
    for i in audience.flight {
        w.shared.drop_lease(i);
    }
    w.run();
    for plan in plans.iter().rev() {
        w.shared.finish_shutdown(plan, None);
    }
    assert!(w.shared.joined(task).unwrap().is_ok());
}

#[test]
fn listeners_of_an_instance_need_its_own_bus() {
    let mut w = World::new();
    let root = w.root();
    let mut other = EventBus::new(InstanceId::allocate(&mut w.ids));
    let key = TypeKey::instance::<u8>("u8", root.instance());
    let spec = || ListenerSpec {
        call: 1,
        once: false,
        prepend: false,
        cleanup: 0,
    };
    assert!(matches!(
        other.add_hook(&mut w.shared, &root, key.clone(), spec()),
        Err(CordisError::InstanceOutOfScope { .. })
    ));
    assert!(other
        .add_hook(&mut w.shared, &root, u8_key(), spec())
        .is_ok());
    assert!(w.bus.add_hook(&mut w.shared, &root, key, spec()).is_ok());
}

#[test]
fn the_feed_numbers_its_changes_from_the_cursor_on() {
    let mut w = World::new();
    let root = w.root();
    let mut feed = DiagnosticFeed::new();
    let start = feed.subscribe_diagnostics(&w.shared).unwrap();
    assert_eq!(start.cursor, 0);
    assert_eq!(start.initial.plugins.len(), 1);

    let view = w.plugin(&root, "child", vec![], idle());
    let registered = feed.publish(w.shared.registration(view)).unwrap();
    assert_eq!(registered.seq, 1);
    assert!(matches!(
        registered.kind,
        DiagnosticChangeKind::PluginRegistered { plugin, parent: Some(_), ref name, .. }
            if plugin == w.shared.fibers[view].id && name == "child"
    ));
    let steps = w.shared.fibers[view].flush_status();
    let step = feed.publish(transition(&steps[1])).unwrap();
    assert_eq!(step.seq, 2);
    assert!(matches!(
        step.kind,
        DiagnosticChangeKind::StateChanged {
            from: FiberState::Loading,
            to: FiberState::Active,
            generation: 1,
            ..
        }
    ));

    let ctx = w.seen[0].clone();
    w.provide::<u8>(&ctx, u8_key(), 7).unwrap();
    let change = w.shared.binding_change(&u8_key(), &None).unwrap();
    assert_eq!(change.provider, w.shared.fibers[view].id);
    assert_eq!(change.instance, ctx.instance());
    assert_eq!(change.generation, 1);
    assert!(w.shared.binding_change(&u64_key(), &None).is_none());
    let provided = feed
        .publish(DiagnosticChangeKind::BindingRegistered(change))
        .unwrap();
    assert_eq!(provided.seq, 3);

    let error = match root.require_as::<u64>(&mut w.shared, &u64_key(), HERE) {
        Err(e) => e,
        Ok(_) => panic!("nobody provides the key"),
    };
    let denied = feed.publish(denial(&error)).unwrap();
    assert!(matches!(
        denied.kind,
        DiagnosticChangeKind::StrictReadDenied {
            reason: ServiceReadFailure::Undeclared,
            ..
        }
    ));
    let later = feed.subscribe_diagnostics(&w.shared).unwrap();
    assert_eq!(later.cursor, 4);
    assert_eq!(later.initial.plugins.len(), 2);

    let ended = feed.publish(w.shared.termination(0)).unwrap();
    assert_eq!(ended.seq, later.cursor + 1);
    assert!(matches!(
        ended.kind,
        DiagnosticChangeKind::PluginTerminated { parent: None, .. }
    ));
    feed.close();
    assert!(feed.publish(w.shared.termination(0)).is_none());
    assert!(matches!(
        feed.subscribe_diagnostics(&w.shared),
        Err(CordisError::Closed)
    ));
}

#[test]
fn waterfall_listeners_are_chained_in_order() {
    let mut w = World::new();
    let root = w.root();
    let key = TypeKey::of::<u16>("ping");
    let mut ids = Vec::new();
    for (call, prepend) in [(1, false), (2, false), (3, true)] {
        let spec = ListenerSpec {
            call,
            once: false,
            prepend,
            cleanup: 0,
        };
        let (_, id) = w
            .bus
            .add_wf_hook(&mut w.shared, &root, key.clone(), spec)
            .unwrap();
        ids.push(id);
    }
    assert_eq!(w.shared.effects(0)[0].label, "waterfall listener: ping");
    w.bus.remove_wf_hook(&key, ids[0]);
    let chain = w.bus.take_wf_hooks(&key);
    let mut called = Vec::new();
    let mut index = 0;
    while let WaterfallStep::Listener(hook, next) = waterfall_step(&chain, index) {
        called.push(hook.call);
        index = next;
    }
    assert_eq!(called, vec![3, 2]);
    assert!(dispatch(&mut w, &root, &key).is_empty());
    assert!(matches!(waterfall_result(Ok(Some(7))), Ok(7)));
    let mistyped = waterfall_result(Ok(None)).err().unwrap();
    assert_eq!(
        mistyped.message(),
        "plugin failed: waterfall value type mismatch"
    );
    assert!(matches!(
        waterfall_result(Err(CordisError::Closed)),
        Err(CordisError::Closed)
    ));
}

#[test]
fn parallel_dispatch_keeps_all_errors() {
    assert!(ParallelRun::new().finish().is_ok());
    let mut one = ParallelRun::new();
    one.ended(TaskOutcome::Returned(Ok(())));
    one.ended(TaskOutcome::Returned(Err(CordisError::InactiveEffect)));
    assert!(matches!(one.finish(), Err(CordisError::InactiveEffect)));
    let mut three = ParallelRun::new();
    three.ended(TaskOutcome::Returned(Err(plugin_failure("first"))));
    three.ended(TaskOutcome::Lost(JoinFailure::Cancelled));
    three.ended(TaskOutcome::Lost(JoinFailure::Panicked(
        PanicPayload::Opaque,
    )));
    match three.finish() {
        Err(CordisError::Aggregate { errors }) => {
            let texts: Vec<String> = errors.iter().map(|e| e.message()).collect();
            assert_eq!(
                texts,
                vec![
                    "plugin failed: first",
                    "plugin failed: task cancelled before completion",
                    "plugin failed: panic in task",
                ]
            );
        }
        _ => panic!("three errors make an aggregate"),
    }
}

#[test]
fn failures_of_emitted_listeners_are_reported() {
    assert!(emit_report(ListenerOutcome::Pass).is_none());
    assert!(emit_report(ListenerOutcome::Value(1)).is_none());
    assert!(matches!(
        emit_report(ListenerOutcome::Failed(CordisError::Closed)),
        Some(CordisError::Closed)
    ));
    let panicked = PanicPayload::Text("boom".to_string());
    assert_eq!(
        emit_report(ListenerOutcome::Panicked(panicked))
            .map(|e| e.message())
            .unwrap(),
        "plugin failed: boom"
    );
}

#[test]
fn early_cleanup_errors_are_taken_once() {
    let mut w = World::new();
    let root = w.root();
    let view = w.plugin(&root, "early", vec![], idle());
    let ctx = w.seen[0].clone();
    let (first, second) = (w.failing("first"), w.failing("second"));
    let one = w.effect(&ctx, "one", Effect::Disposer(first)).unwrap();
    let two = w.effect(&ctx, "two", Effect::Disposer(second)).unwrap();
    let early = w.drain(one).unwrap_err();
    let taken = w.shared.fibers[view].take_cleanup_errors();
    assert_eq!(taken.len(), 1);
    assert!(Arc::ptr_eq(&taken[0], &early));
    assert!(w.shared.fibers[view].take_cleanup_errors().is_empty());
    let late = w.drain(two).unwrap_err();
    let ended = w.dispose(view).unwrap_err();
    assert!(Arc::ptr_eq(&ended, &late));
}

#[test]
fn a_fiber_that_nobody_holds_is_out_of_reach() {
    let mut w = World::new();
    let root = w.root();
    let view = w.plugin(&root, "gone", vec![], idle());
    let ctx = w.seen[0].clone();
    w.provide::<u8>(&ctx, u8_key(), 1).unwrap();
    assert_eq!(w.get::<u8>(&root, &u8_key()), Some(1));
    w.shared.forget(view);
    assert_eq!(w.get::<u8>(&root, &u8_key()), None);
    assert!(ctx.is_cancelled(&w.shared));
    assert!(matches!(
        w.effect(&ctx, "late", Effect::Done),
        Err(CordisError::InactiveEffect)
    ));
}
