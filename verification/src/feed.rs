//! The feed of diagnostic changes: a numbered stream of what happens in a
//! runtime, and the place in it from which a subscriber reads.

use crate::diagnostics::RuntimeDiagnostics;
use crate::error::{CordisError, ServiceReadError, ServiceReadFailure};
use crate::fiber::{FiberIx, FiberState, FiberStatusChanged, PluginId};
use crate::key::{clone_scope, InstanceId, ScopeId, TypeKey};
use crate::registry::Binding;
use crate::shared::{Shared, SharedModel};
use vstd::prelude::*;

verus! {

broadcast use crate::shared::fiber_is_viewed;

/// A service binding, as the feed speaks of it.
pub struct BindingChange {
    pub key: TypeKey,
    pub scope: Option<ScopeId>,
    pub provider: PluginId,
    /// The instance of the provider.
    pub instance: InstanceId,
    pub generation: u64,
}

/// What happened.
pub enum DiagnosticChangeKind {
    PluginRegistered {
        plugin: PluginId,
        instance: InstanceId,
        parent: Option<PluginId>,
        name: String,
    },
    StateChanged { plugin: PluginId, generation: u64, from: FiberState, to: FiberState },
    BindingRegistered(BindingChange),
    BindingRemoving(BindingChange),
    BindingRemoved(BindingChange),
    StrictReadDenied {
        plugin: PluginId,
        instance: InstanceId,
        key: TypeKey,
        reason: ServiceReadFailure,
    },
    PluginTerminated { plugin: PluginId, instance: InstanceId, parent: Option<PluginId> },
}

/// One entry of the feed.
pub struct DiagnosticChange {
    pub seq: u64,
    pub kind: DiagnosticChangeKind,
}

/// The feed of one root.
pub struct DiagnosticFeed {
    /// The number of the last change.
    pub seq: u64,
    /// The root has ended, and nothing more is told.
    pub closed: bool,
}

/// Where a subscriber starts: the state of things, and the number of the last
/// change that it accounts for.
pub struct DiagnosticSubscription {
    pub initial: RuntimeDiagnostics,
    pub cursor: u64,
}

impl SharedModel {
    /// The identity of fiber `i`'s parent.
    pub open spec fn parent_id(self, i: FiberIx) -> Option<PluginId> {
        match self.nodes[i as int].parent {
            Some(p) => Some(self.fiber(p).id),
            None => None,
        }
    }
}

impl Shared {
    fn parent_of(&self, i: FiberIx) -> (parent: Option<PluginId>)
        requires
            self@.wf(),
            self@.has(i),
        ensures
            parent == self@.parent_id(i),
    {
        match self.nodes[i].parent {
            Some(p) => {
                assert(p < self.fibers@.len());
                Some(self.fibers[p].id)
            },
            None => None,
        }
    }

    /// The change that a new fiber is.
    pub fn registration(&self, i: FiberIx) -> (kind: DiagnosticChangeKind)
        requires
            self@.wf(),
            self@.has(i),
        ensures
            kind matches DiagnosticChangeKind::PluginRegistered { plugin, instance, parent, name }
                && plugin == self@.fiber(i).id && instance == self@.nodes[i as int].instance
                && parent == self@.parent_id(i) && name@ == self@.fiber(i).name,
    {
        DiagnosticChangeKind::PluginRegistered {
            plugin: self.fibers[i].id,
            instance: self.nodes[i].instance,
            parent: self.parent_of(i),
            name: self.fibers[i].name.clone(),
        }
    }

    /// The change that the end of a fiber's driver is.
    pub fn termination(&self, i: FiberIx) -> (kind: DiagnosticChangeKind)
        requires
            self@.wf(),
            self@.has(i),
        ensures
            kind == (DiagnosticChangeKind::PluginTerminated {
                plugin: self@.fiber(i).id,
                instance: self@.nodes[i as int].instance,
                parent: self@.parent_id(i),
            }),
    {
        DiagnosticChangeKind::PluginTerminated {
            plugin: self.fibers[i].id,
            instance: self.nodes[i].instance,
            parent: self.parent_of(i),
        }
    }

    /// A binding that is there, as the feed speaks of it.
    pub fn binding_change(&self, key: &TypeKey, scope: &Option<ScopeId>) -> (change: Option<
        BindingChange,
    >)
        requires
            self@.wf(),
        ensures
            change == (match self@.registry.bound(*key, *scope) {
                Some(b) => if self@.has(b.provider) {
                    Some(self@.change_of(*key, *scope, b))
                } else {
                    None
                },
                None => None,
            }),
    {
        match self.registry.lookup(key, scope) {
            Some(b) => if b.provider < self.fibers.len() {
                Some(
                    BindingChange {
                        key: key.clone(),
                        scope: clone_scope(scope),
                        provider: b.provider_id,
                        instance: self.nodes[b.provider].instance,
                        generation: b.provider_gen,
                    },
                )
            } else {
                None
            },
            None => None,
        }
    }
}

impl SharedModel {
    pub open spec fn change_of(
        self,
        key: TypeKey,
        scope: Option<ScopeId>,
        binding: Binding,
    ) -> BindingChange {
        BindingChange {
            key,
            scope,
            provider: binding.provider_id,
            instance: self.nodes[binding.provider as int].instance,
            generation: binding.provider_gen,
        }
    }
}

/// The change that a fiber's step to another state is.
pub fn transition(event: &FiberStatusChanged) -> (kind: DiagnosticChangeKind)
    ensures
        kind == (DiagnosticChangeKind::StateChanged {
            plugin: event.plugin_id,
            generation: event.generation,
            from: event.from,
            to: event.to,
        }),
{
    DiagnosticChangeKind::StateChanged {
        plugin: event.plugin_id,
        generation: event.generation,
        from: event.from,
        to: event.to,
    }
}

/// The change that a rejected strict read is.
pub fn denial(error: &ServiceReadError) -> (kind: DiagnosticChangeKind)
    ensures
        kind == (DiagnosticChangeKind::StrictReadDenied {
            plugin: error.plugin_id,
            instance: error.instance,
            key: error.key,
            reason: error.reason,
        }),
{
    DiagnosticChangeKind::StrictReadDenied {
        plugin: error.plugin_id,
        instance: error.instance,
        key: error.key.clone(),
        reason: error.reason,
    }
}

impl DiagnosticFeed {
    pub fn new() -> (feed: Self)
        ensures
            feed == (DiagnosticFeed { seq: 0, closed: false }),
    {
        DiagnosticFeed { seq: 0, closed: false }
    }

    /// Numbers a change: one more than the change before. A closed feed tells
    /// nothing.
    pub fn publish(&mut self, kind: DiagnosticChangeKind) -> (change: Option<DiagnosticChange>)
        requires
            old(self).seq < u64::MAX,
        ensures
            if old(self).closed {
                change is None && *final(self) == *old(self)
            } else {
                &&& change == Some(DiagnosticChange { seq: (old(self).seq + 1) as u64, kind })
                &&& *final(self) == (DiagnosticFeed {
                    seq: (old(self).seq + 1) as u64,
                    closed: false,
                })
            },
    {
        if self.closed {
            return None;
        }
        self.seq = self.seq + 1;
        Some(DiagnosticChange { seq: self.seq, kind })
    }

    /// Ends the feed.
    pub fn close(&mut self)
        ensures
            *final(self) == (DiagnosticFeed { closed: true, ..*old(self) }),
    {
        self.closed = true;
    }

    /// Starts a subscription, unless the feed has ended. Everything up to the
    /// cursor is in the initial survey; what comes is numbered from the cursor
    /// on.
    pub fn subscribe_diagnostics(&self, shared: &Shared) -> (result: Result<
        DiagnosticSubscription,
        CordisError,
    >)
        requires
            shared@.wf(),
        ensures
            if self.closed {
                result == Err::<DiagnosticSubscription, CordisError>(CordisError::Closed)
            } else {
                result matches Ok(s) && s.cursor == self.seq && shared@.is_survey(s.initial)
            },
    {
        if self.closed {
            return Err(CordisError::Closed);
        }
        Ok(DiagnosticSubscription { initial: shared.diagnostics(), cursor: self.seq })
    }
}

} // verus!
