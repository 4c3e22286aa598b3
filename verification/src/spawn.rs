//! Bringing fibers into being and hanging them into the tree.

use std::sync::Arc;

use crate::ctx::{Ctx, CtxNode};
use crate::effect::{fresh_record, Callback, Effect, RecordModel};
use crate::error::CordisError;
use crate::fiber::{
    ConfigId, Fiber, FiberIx, FiberModel, FiberState, Intent, PluginId, RecordId, Source, Stage,
    TaskId, Trans, TransModel,
};
use crate::key::{InstanceId, InstanceIds, TypeKey};
use crate::registry::{Registry, RegistryModel};
use crate::shared::{Node, Shared, SharedModel};
use crate::text::{decimal, decimal_text, joined};
use vstd::prelude::*;

verus! {

broadcast use crate::shared::fiber_is_viewed;

/// A fiber at its birth.
pub open spec fn newborn(
    id: PluginId,
    name: Seq<char>,
    source: Source,
    config: Option<ConfigId>,
    declared: Seq<TypeKey>,
    state: FiberState,
) -> FiberModel {
    FiberModel {
        id,
        name,
        source,
        config,
        children: Seq::empty(),
        closing: false,
        alive: true,
        held: true,
        flights: 0,
        cancelled: false,
        trans: TransModel {
            generation: 0,
            state,
            error: None,
            seq: 0,
            queue: Seq::empty(),
            terminal: None,
        },
        effects: Seq::empty(),
        draining: Seq::empty(),
        drained: Seq::empty(),
        mount: None,
        declared,
        mailbox: Seq::empty(),
        provided: Seq::empty(),
        last_deps: None,
        next_deps: Seq::empty(),
        accesses: Seq::empty(),
        shutdown_task: None,
        shutdown_inner: None,
        stage: Stage::Idle,
        held_error: None,
    }
}

/// A fiber that was born into a closed part of the tree: disposed of from the
/// start, with nothing of the plugin in it, and with a task that says so.
pub open spec fn stillborn(id: PluginId, task: TaskId) -> FiberModel {
    let f = newborn(id, "closed"@, Source::Nowhere, None, Seq::empty(), FiberState::Disposed);
    FiberModel {
        closing: true,
        alive: false,
        stage: Stage::Exited,
        trans: TransModel {
            error: Some(Arc::new(CordisError::Closed)),
            terminal: Some(task),
            ..f.trans
        },
        ..f
    }
}

fn new_fiber(
    id: PluginId,
    name: String,
    source: Source,
    config: Option<ConfigId>,
    declared_injects: Vec<TypeKey>,
    state: FiberState,
) -> (fiber: Fiber)
    ensures
        fiber@ == newborn(id, name@, source, config, declared_injects@, state),
{
    Fiber {
        id,
        name,
        source,
        config,
        children: Vec::new(),
        closing: false,
        alive: true,
        held: true,
        flights: 0,
        cancelled: false,
        trans: Trans {
            generation: 0,
            state,
            error: None,
            seq: 0,
            status_queue: Vec::new(),
            terminal_task: None,
        },
        effects: Vec::new(),
        draining: Vec::new(),
        drained_errors: Vec::new(),
        mount: None,
        declared_injects,
        mailbox: Vec::new(),
        provided: Vec::new(),
        last_deps: None,
        next_deps: Vec::new(),
        accesses: Vec::new(),
        shutdown_task: None,
        shutdown_inner: None,
        stage: Stage::Idle,
        held_error: None,
    }
}

/// What a fiber is made from.
pub struct PluginSpec {
    pub name: String,
    pub source: Source,
    pub config: Option<ConfigId>,
    pub injects: Vec<TypeKey>,
}

impl SharedModel {
    /// Nothing can be mounted through the context: everything is closed, or the
    /// context's part of the tree is, or its fiber is gone.
    pub open spec fn barren(self, ctx: Ctx) -> bool {
        self.closed_for(ctx) || !self.present(ctx)
    }

    /// The fiber `ix` waits for those of its first `n` declarations that are in
    /// its reach.
    pub open spec fn injecting(self, ix: FiberIx, n: nat) -> SharedModel
        decreases n,
    {
        if n == 0 {
            self
        } else {
            let m = self.injecting(ix, (n - 1) as nat);
            let key = self.fiber(ix).declared[n - 1];
            if m.in_instance_key(ix, key) {
                SharedModel { registry: m.registry.with_waiter(key, ix), ..m }
            } else {
                m
            }
        }
    }

    /// The place in the tree of a fiber with the given context.
    pub open spec fn with_node(self, node: Node, fiber: FiberModel) -> SharedModel {
        SharedModel { nodes: self.nodes.push(node), fibers: self.fibers.push(fiber), ..self }
    }

    /// A fiber has been born below the context.
    pub open spec fn born(self, ctx: Ctx, node: Node, spec: PluginSpec) -> SharedModel {
        let ix = self.fibers.len() as usize;
        let id = PluginId((self.fibers.len() + 1) as u64);
        if self.barren(ctx) {
            let m = self.with_task();
            m.completed(
                self.tasks.len() as usize,
                Some(Arc::new(CordisError::Closed)),
            ).with_node(node, stillborn(id, self.tasks.len() as usize))
        } else {
            let p = ctx.node.fiber;
            self.with_node(
                node,
                newborn(
                    id,
                    spec.name@,
                    spec.source,
                    spec.config,
                    spec.injects@,
                    FiberState::Pending,
                ),
            ).put(
                p,
                FiberModel { children: self.fiber(p).children.push(ix), ..self.fiber(p) },
            ).injecting(ix, spec.injects@.len())
        }
    }
}

/// `node` is the place of the fiber at `ix` below `ctx`, with the identity `id`.
pub open spec fn node_below(node: Node, ctx: Ctx, ix: FiberIx, id: InstanceId) -> bool {
    &&& node.instance == id
    &&& node.parent == Some(ctx.node.fiber)
    &&& *node.ctx.node == (CtxNode {
        parent: Some(ctx),
        fiber: ix,
        plugin_id: PluginId((ix + 1) as u64),
        instance: id,
        generation: 0,
        isolate: None,
    })
}

impl Shared {
    /// A runtime that holds an active root and nothing else.
    pub fn new(ids: &mut InstanceIds) -> (shared: Shared)
        requires
            old(ids).upcoming() < u64::MAX,
        ensures
            shared@.wf(),
            final(ids).upcoming() == old(ids).upcoming() + 1,
            shared@.nodes.len() == 1,
            shared@.nodes[0].instance.number() == old(ids).upcoming(),
            shared@.nodes[0].parent is None,
            *shared@.nodes[0].ctx.node == (CtxNode {
                parent: None,
                fiber: 0,
                plugin_id: PluginId(1),
                instance: shared@.nodes[0].instance,
                generation: 0,
                isolate: None,
            }),
            shared@ == (SharedModel {
                nodes: shared@.nodes,
                fibers: seq![
                    newborn(
                        PluginId(1),
                        "root"@,
                        Source::Nowhere,
                        None,
                        Seq::empty(),
                        FiberState::Active,
                    ),
                ],
                tasks: Seq::empty(),
                records: Seq::empty(),
                registry: RegistryModel { slots: Seq::empty(), index: Seq::empty(), next: 0 },
                closing: false,
                shutdown_task: None,
                reports: Seq::empty(),
            }),
    {
        let instance = InstanceId::allocate(ids);
        let ctx = Ctx::new_child(None, 0, PluginId(1), instance, 0);
        let mut nodes: Vec<Node> = Vec::new();
        nodes.push(Node { instance, parent: None, ctx });
        let root = new_fiber(
            PluginId(1),
            "root".to_owned(),
            Source::Nowhere,
            None,
            Vec::new(),
            FiberState::Active,
        );
        let ghost model = root@;
        let mut fibers: Vec<Fiber> = Vec::new();
        fibers.push(root);
        let shared = Shared {
            nodes,
            fibers,
            tasks: Vec::new(),
            records: Vec::new(),
            registry: Registry::new(),
            closing: false,
            shutdown_task: None,
            reports: Vec::new(),
        };
        assert(shared@.fibers =~= seq![model]);
        assert(shared@.records =~= Seq::empty());
        shared
    }

    /// Whether a plugin mounted through the context would be closed from the
    /// start, so that there is no need to look at it.
    pub fn is_barren(&self, ctx: &Ctx) -> (yes: bool)
        ensures
            yes == self@.barren(*ctx),
    {
        let i: usize = ctx.node.fiber;
        if self.closing || ctx.subtree_closing(self) {
            return true;
        }
        i >= self.fibers.len() || !self.fibers[i].held
    }

    /// Brings a fiber into being below the context.
    pub fn spawn_fiber(&mut self, ids: &mut InstanceIds, ctx: &Ctx, spec: PluginSpec) -> (ix: FiberIx)
        requires
            old(self)@.wf(),
            old(ids).upcoming() < u64::MAX,
            old(self)@.fibers.len() < usize::MAX,
            old(self)@.has(ctx.node.fiber),
        ensures
            ix == old(self)@.fibers.len(),
            final(self)@.wf(),
            final(self)@.has(ix),
            final(ids).upcoming() == old(ids).upcoming() + 1,
            final(self)@.nodes[ix as int].instance.number() == old(ids).upcoming(),
            node_below(
                final(self)@.nodes[ix as int],
                *ctx,
                ix,
                final(self)@.nodes[ix as int].instance,
            ),
            final(self)@ == old(self)@.born(*ctx, final(self)@.nodes[ix as int], spec),
    {
        let ghost before = self@;
        let closed = self.is_barren(ctx);
        let ix: usize = self.fibers.len();
        let id = PluginId(ix as u64 + 1);
        let instance = InstanceId::allocate(ids);
        let own = Ctx::new_child(Some(ctx), ix, id, instance, 0);
        let node = Node { instance, parent: Some(ctx.node.fiber), ctx: own };
        let ghost place = node;
        if closed {
            let task = self.open_task();
            self.complete(task, Some(Arc::new(CordisError::Closed)));
            let mut fiber = new_fiber(
                id,
                "closed".to_owned(),
                Source::Nowhere,
                None,
                Vec::new(),
                FiberState::Disposed,
            );
            fiber.closing = true;
            fiber.alive = false;
            fiber.stage = Stage::Exited;
            fiber.trans.error = Some(Arc::new(CordisError::Closed));
            fiber.trans.terminal_task = Some(task);
            let ghost m = self@;
            self.nodes.push(node);
            self.fibers.push(fiber);
            assert(self@.fibers =~= m.fibers.push(stillborn(id, task)));
            return ix;
        }
        let fiber = new_fiber(
            id,
            spec.name,
            spec.source,
            spec.config,
            spec.injects,
            FiberState::Pending,
        );
        let ghost model = fiber@;
        self.nodes.push(node);
        self.fibers.push(fiber);
        let p: usize = ctx.node.fiber;
        assert(self@.fibers =~= before.fibers.push(model));
        self.fibers[p].children.push(ix);
        let ghost hung = before.with_node(place, model).put(
            p,
            FiberModel { children: before.fiber(p).children.push(ix), ..before.fiber(p) },
        );
        assert(self@.fibers =~= hung.fibers);
        assert(self@ == hung);
        let mut k: usize = 0;
        while k < self.fibers[ix].declared_injects.len()
            invariant
                hung.has(ix),
                self@.wf(),
                self@.fibers == hung.fibers,
                self@.nodes == hung.nodes,
                self@ == hung.injecting(ix, k as nat),
                k <= hung.fiber(ix).declared.len(),
            decreases hung.fiber(ix).declared.len() - k,
        {
            let key = self.fibers[ix].declared_injects[k].clone();
            assert(key == hung.fiber(ix).declared[k as int]);
            if self.in_instance_key(ix, &key) {
                self.registry.register_inject(key, ix);
            }
            k += 1;
        }
        ix
    }

    /// Forgets a fiber that nobody holds any more.
    pub fn forget(&mut self, i: FiberIx)
        requires
            old(self)@.has(i),
        ensures
            old(self)@.wf() ==> final(self)@.wf(),
            final(self)@ == old(self)@.put(i, FiberModel { held: false, ..old(self)@.fiber(i) }),
    {
        let ghost before = self@;
        self.fibers[i].held = false;
        assert(self@.fibers =~= before.put(
            i,
            FiberModel { held: false, ..before.fiber(i) },
        ).fibers);
    }
}

/// How a fiber's mounting ended.
pub enum Mounted {
    /// Its parent owns it, and it has been asked to look at its dependencies.
    Ready(RecordId),
    /// It was closed from the start, or is being closed by somebody else.
    Closed,
    /// The root is being shut down: the fiber has to be shut down as well.
    Orphaned,
    /// Its parent could not take it: it has been asked to end.
    Rejected,
}

impl SharedModel {
    /// Why a child is not mounted.
    pub open spec fn mount_refusal(self, ctx: Ctx, child: FiberIx) -> Option<CordisError> {
        if self.closed_for(ctx) || self.fiber(child).closing || !self.fiber(child).alive {
            Some(CordisError::Closed)
        } else {
            self.inactivity(ctx)
        }
    }

    /// The parent owns the child through a record that disposes of it.
    pub open spec fn mounting(self, ctx: Ctx, child: FiberIx, record: RecordModel) -> SharedModel {
        let m = self.with_effect(ctx.node.fiber, record);
        m.put(child, FiberModel { mount: Some(self.records.len() as usize), ..m.fiber(child) })
    }
}

impl Shared {
    /// Makes the context's fiber the owner of a child.
    pub fn register_mount_effect(&mut self, ctx: &Ctx, child: FiberIx, cleanup: Callback) -> (result:
        Result<RecordId, CordisError>)
        requires
            old(self)@.has(child),
        ensures
            old(self)@.wf() ==> final(self)@.wf(),
            match old(self)@.mount_refusal(*ctx, child) {
                Some(e) => result == Err::<RecordId, CordisError>(e) && final(self)@ == old(self)@,
                None => {
                    &&& result == Ok::<RecordId, CordisError>(old(self)@.records.len() as usize)
                    &&& final(self)@.records.len() == old(self)@.records.len() + 1
                    &&& fresh_record(
                        final(self)@.records.last(),
                        Effect::AsyncDisposer(cleanup),
                        "plugin mount: "@ + old(self)@.fiber(child).name + " #"@ + decimal(
                            old(self)@.fiber(child).id.0 as nat,
                        ),
                        ctx.node.fiber,
                    )
                    &&& final(self)@ == old(self)@.mounting(
                        *ctx,
                        child,
                        final(self)@.records.last(),
                    )
                },
            },
    {
        let ghost before = self@;
        if self.closing || ctx.subtree_closing(self) || self.fibers[child].closing
            || !self.fibers[child].alive {
            return Err(CordisError::Closed);
        }
        match ctx.active(self) {
            Ok(()) => {},
            Err(e) => {
                return Err(e);
            },
        }
        let mut label = joined("plugin mount: ", self.fibers[child].name.as_str());
        label.push_str(" #");
        label.push_str(decimal_text(self.fibers[child].id.0).as_str());
        let record = self.push_effect(ctx.node.fiber, &Effect::AsyncDisposer(cleanup), label);
        let ghost m = self@;
        assert(self.fibers@.len() == m.fibers.len());
        self.fibers[child].mount = Some(record);
        assert(self@.fibers =~= m.put(
            child,
            FiberModel { mount: Some(record), ..m.fiber(child) },
        ).fibers);
        Ok(record)
    }

    /// Mounts a newborn fiber: its parent becomes its owner, and it starts to
    /// look for its dependencies. A fiber that cannot be mounted ends without
    /// ever being assembled.
    pub fn mount_fiber(&mut self, ctx: &Ctx, child: FiberIx, cleanup: Callback) -> (result: Mounted)
        requires
            old(self)@.has(child),
        ensures
            old(self)@.wf() ==> final(self)@.wf(),
            if !old(self)@.fiber(child).alive {
                result is Closed && final(self)@ == old(self)@
            } else if old(self)@.mount_refusal(*ctx, child) is None {
                &&& result == Mounted::Ready(old(self)@.records.len() as usize)
                &&& fresh_record(
                    final(self)@.records.last(),
                    Effect::AsyncDisposer(cleanup),
                    "plugin mount: "@ + old(self)@.fiber(child).name + " #"@ + decimal(
                        old(self)@.fiber(child).id.0 as nat,
                    ),
                    ctx.node.fiber,
                )
                &&& final(self)@ == old(self)@.mounting(
                    *ctx,
                    child,
                    final(self)@.records.last(),
                ).posted(child, Intent::RefreshDeps)
            } else if old(self)@.fiber(child).closing {
                result is Closed && final(self)@ == old(self)@
            } else if old(self)@.closing {
                result is Orphaned && final(self)@ == old(self)@
            } else {
                result is Rejected && final(self)@ == old(self)@.posted(child, Intent::Dispose)
            },
    {
        if !self.fibers[child].alive {
            return Mounted::Closed;
        }
        match self.register_mount_effect(ctx, child, cleanup) {
            Ok(record) => {
                let _ = self.post(child, Intent::RefreshDeps);
                Mounted::Ready(record)
            },
            Err(_) => {
                if self.fibers[child].closing {
                    Mounted::Closed
                } else if self.closing {
                    Mounted::Orphaned
                } else {
                    let _ = self.post(child, Intent::Dispose);
                    Mounted::Rejected
                }
            },
        }
    }
}

/// How a child is cleared away when its mount record is drained.
#[derive(Debug, Clone, Copy, PartialEq, Eq, Structural)]
pub enum Unmount {
    /// The child is being shut down: its own end is waited for, and whoever asked
    /// for the shutdown gets the error.
    Wait(TaskId),
    /// The child's end is asked for. Its error is reported, unless the child had
    /// ended before and whoever asked for that got the error.
    Dispose { task: TaskId, report: bool },
}

impl Shared {
    /// Starts to clear a child away.
    pub fn begin_unmount(&mut self, child: FiberIx) -> (unmount: Unmount)
        requires
            old(self)@.has(child),
        ensures
            old(self)@.wf() ==> final(self)@.wf(),
            match old(self)@.fiber(child).shutdown_inner {
                Some(task) => unmount == Unmount::Wait(task) && final(self)@ == old(self)@,
                None => {
                    &&& unmount == (Unmount::Dispose {
                        task: match old(self)@.end_task(child) {
                            Some(t) => t,
                            None => old(self)@.tasks.len() as usize,
                        },
                        report: old(self)@.fiber(child).state() != FiberState::Disposed,
                    })
                    &&& final(self)@ == (match old(self)@.end_task(child) {
                        Some(_) => old(self)@,
                        None => old(self)@.disposing(child),
                    })
                },
            },
    {
        if let Some(task) = self.fibers[child].shutdown_inner {
            return Unmount::Wait(task);
        }
        let report = self.fibers[child].trans.state != FiberState::Disposed;
        let task = self.dispose(child);
        Unmount::Dispose { task, report }
    }

    /// The child has been cleared away.
    pub fn finish_unmount(&mut self, unmount: Unmount, ended: Option<Arc<CordisError>>)
        ensures
            old(self)@.wf() ==> final(self)@.wf(),
            final(self)@ == (match unmount {
                Unmount::Dispose { report: true, .. } => old(self)@.reported(ended),
                _ => old(self)@,
            }),
    {
        if let Unmount::Dispose { report: true, .. } = unmount {
            self.report(ended);
        }
    }
}

/// A fiber below a closed context is closed, disposed of, and takes no
/// requests; nothing of its plugin is in it.
pub proof fn nothing_grows_below_a_closed_context(m: SharedModel, ctx: Ctx, node: Node, spec: PluginSpec)
    requires
        m.wf(),
        m.barren(ctx),
        m.fibers.len() < usize::MAX,
    ensures
        ({
            let f = m.born(ctx, node, spec).fibers.last();
            &&& f.closing && !f.alive && f.state() == FiberState::Disposed
            &&& f.source is Nowhere && f.declared.len() == 0
            &&& f.trans.error == Some(Arc::new(CordisError::Closed))
        }),
{
}

} // verus!
