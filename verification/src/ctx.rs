//! Contexts: what a fiber's code holds to reach the runtime.

use std::sync::Arc;

use crate::fiber::{FiberIx, PluginId};
use crate::key::{same_key, InstanceId, ScopeId, TypeKey};
use vstd::prelude::*;

verus! {

/// The data behind a context.
pub struct CtxNode {
    pub parent: Option<Ctx>,
    pub fiber: FiberIx,
    pub plugin_id: PluginId,
    pub instance: InstanceId,
    /// The generation of the fiber for which the context was made.
    pub generation: u64,
    /// A key and the scope that it is resolved in from here on.
    pub isolate: Option<(TypeKey, ScopeId)>,
}

/// A context. Copies share their data.
pub struct Ctx {
    pub node: Arc<CtxNode>,
}

impl Clone for Ctx {
    fn clone(&self) -> (copy: Self)
        ensures
            copy == *self,
    {
        Ctx { node: self.node.clone() }
    }
}

/// The scope of a key as seen from a context: that of the nearest isolation of
/// the key on the way to the root.
pub open spec fn scope_seen(ctx: Ctx, key: TypeKey) -> Option<ScopeId>
    decreases ctx,
{
    if ctx.node.isolate matches Some((k, _)) && same_key(k, key) {
        Some((ctx.node.isolate->0).1)
    } else {
        match ctx.node.parent {
            Some(parent) => scope_seen(parent, key),
            None => None,
        }
    }
}

impl Ctx {
    /// The context of a fiber below `parent`, or of the root.
    pub fn new_child(
        parent: Option<&Ctx>,
        fiber: FiberIx,
        plugin_id: PluginId,
        instance: InstanceId,
        generation: u64,
    ) -> (ctx: Ctx)
        ensures
            *ctx.node == (CtxNode {
                parent: match parent {
                    Some(p) => Some(*p),
                    None => None,
                },
                fiber,
                plugin_id,
                instance,
                generation,
                isolate: None,
            }),
    {
        let parent = match parent {
            Some(p) => Some(p.clone()),
            None => None,
        };
        Ctx {
            node: Arc::new(
                CtxNode { parent, fiber, plugin_id, instance, generation, isolate: None },
            ),
        }
    }

    /// Identity of the fiber that owns the context.
    pub fn instance(&self) -> (id: InstanceId)
        ensures
            id == self.node.instance,
    {
        self.node.instance
    }

    /// The scope in which a key is resolved from here.
    pub fn scope_for(&self, key: &TypeKey) -> (scope: Option<ScopeId>)
        ensures
            scope == scope_seen(*self, *key),
        decreases *self,
    {
        if let Some((k, scope)) = &self.node.isolate {
            if *k == *key {
                return Some(scope.clone());
            }
        }
        match &self.node.parent {
            Some(parent) => parent.scope_for(key),
            None => None,
        }
    }

    /// A context of the same fiber and generation in which `key` is resolved in
    /// the scope named `label`.
    pub fn isolate(&self, key: TypeKey, label: &str) -> (ctx: Ctx)
        ensures
            ctx.node.parent == Some(*self),
            ctx.node.fiber == self.node.fiber,
            ctx.node.plugin_id == self.node.plugin_id,
            ctx.node.instance == self.node.instance,
            ctx.node.generation == self.node.generation,
            ctx.node.isolate matches Some((k, s)) && k == key && s@ == label@,
    {
        Ctx {
            node: Arc::new(
                CtxNode {
                    parent: Some(self.clone()),
                    fiber: self.node.fiber,
                    plugin_id: self.node.plugin_id,
                    instance: self.node.instance,
                    generation: self.node.generation,
                    isolate: Some((key, label.to_owned())),
                },
            ),
        }
    }
}

/// An isolated key is resolved in its scope, and no other key is affected.
pub proof fn isolation_touches_one_key(outer: Ctx, inner: Ctx, key: TypeKey, other: TypeKey)
    requires
        inner.node.parent == Some(outer),
        inner.node.isolate matches Some((k, _)) && same_key(k, key),
        !same_key(key, other),
    ensures
        scope_seen(inner, key) == Some((inner.node.isolate->0).1),
        scope_seen(inner, other) == scope_seen(outer, other),
{
}

} // verus!
