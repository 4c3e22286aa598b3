//! A survey of the runtime for diagnostics.

use crate::ctx::scope_seen;
use crate::diagnostics::{
    BindingDiagnostics, DependencyDiagnostics, PluginDiagnostics, ResolvedDependency,
    RuntimeDiagnostics, ServiceAccess,
};
use crate::error::clone_error;
use crate::fiber::FiberIx;
use crate::key::clone_scope;
use crate::shared::{Shared, SharedModel};
use vstd::prelude::*;

verus! {

broadcast use crate::shared::fiber_is_viewed;

impl SharedModel {
    /// The fibers from `j` down in the order of the survey: a fiber, then its
    /// children with everything below them, the youngest first.
    pub open spec fn order(self, j: FiberIx) -> Seq<FiberIx>
        decreases self.fibers.len() - j, 0nat,
    {
        if self.has(j) {
            seq![j] + self.order_below(j, self.fiber(j).children.len())
        } else {
            seq![]
        }
    }

    /// The first `n` children of `j` with everything below them.
    pub open spec fn order_below(self, j: FiberIx, n: nat) -> Seq<FiberIx>
        decreases self.fibers.len() - j - 1, n,
    {
        if n == 0 || !self.has(j) {
            seq![]
        } else {
            let c = self.fiber(j).children[n - 1];
            let rest = self.order_below(j, (n - 1) as nat);
            if c > j && self.has(c) && self.fiber(c).held {
                self.order(c) + rest
            } else {
                rest
            }
        }
    }

    /// `d` is what there is to say of fiber `j`.
    pub open spec fn surveyed(self, j: FiberIx, d: PluginDiagnostics) -> bool {
        let f = self.fiber(j);
        &&& d.id == f.id
        &&& d.instance == self.nodes[j as int].instance
        &&& d.parent == (match self.nodes[j as int].parent {
            Some(p) => if self.has(p) && self.fiber(p).held {
                Some(self.fiber(p).id)
            } else {
                None
            },
            None => None,
        })
        &&& d.name@ == f.name
        &&& d.state == f.state()
        &&& d.generation == f.trans.generation
        &&& d.error == f.trans.error
        &&& d.injects@ == Seq::new(
            f.declared.len(),
            |k: int|
                DependencyDiagnostics {
                    key: f.declared[k],
                    scope: scope_seen(self.nodes[j as int].ctx, f.declared[k]),
                    status: self.dependency(j, f.declared[k]),
                },
        )
        &&& d.resolved_dependencies@ == (match f.last_deps {
            Some(deps) => Seq::new(
                deps.len(),
                |k: int|
                    ResolvedDependency {
                        key: deps[k].key,
                        scope: deps[k].scope,
                        provider: deps[k].provider,
                        generation: deps[k].generation,
                    },
            ),
            None => Seq::empty(),
        })
        &&& d.accesses@ == f.accesses
    }

    /// `out` is everything there is to see.
    pub open spec fn is_survey(self, out: RuntimeDiagnostics) -> bool {
        &&& out.shutting_down == self.closing
        &&& self.fiber(0).held ==> out.plugins@.len() == self.order(0).len()
        &&& self.fiber(0).held ==> forall|k: int|
            0 <= k < self.order(0).len() ==> self.surveyed(
                #[trigger] self.order(0)[k],
                out.plugins@[k],
            )
        &&& !self.fiber(0).held ==> out.plugins@.len() == 0
        &&& out.bindings@ == Seq::new(
            self.registry.slots.len(),
            |k: int|
                BindingDiagnostics {
                    key: self.registry.slots[k].key,
                    scope: self.registry.slots[k].scope,
                    provider: self.registry.slots[k].binding.provider_id,
                    generation: self.registry.slots[k].binding.provider_gen,
                    removing: self.registry.slots[k].binding.removing,
                },
        )
    }
}

impl ServiceAccess {
    pub fn copied(&self) -> (copy: ServiceAccess)
        ensures
            copy == *self,
    {
        ServiceAccess {
            key: self.key.clone(),
            scope: clone_scope(&self.scope),
            provider: self.provider,
            generation: self.generation,
            declared: self.declared,
            external: self.external,
            out_of_scope: self.out_of_scope,
            strict: self.strict,
            failure: self.failure,
        }
    }
}

impl Shared {
    fn survey_injects(&self, j: FiberIx) -> (list: Vec<DependencyDiagnostics>)
        requires
            self@.wf(),
            self@.has(j),
        ensures
            list@ == Seq::new(
                self@.fiber(j).declared.len(),
                |k: int|
                    DependencyDiagnostics {
                        key: self@.fiber(j).declared[k],
                        scope: scope_seen(self@.nodes[j as int].ctx, self@.fiber(j).declared[k]),
                        status: self@.dependency(j, self@.fiber(j).declared[k]),
                    },
            ),
    {
        let mut list: Vec<DependencyDiagnostics> = Vec::new();
        let mut k: usize = 0;
        while k < self.fibers[j].declared_injects.len()
            invariant
                self@.wf(),
                self@.has(j),
                k <= self@.fiber(j).declared.len(),
                list@.len() == k,
                forall|l: int|
                    0 <= l < k ==> #[trigger] list@[l] == (DependencyDiagnostics {
                        key: self@.fiber(j).declared[l],
                        scope: scope_seen(self@.nodes[j as int].ctx, self@.fiber(j).declared[l]),
                        status: self@.dependency(j, self@.fiber(j).declared[l]),
                    }),
            decreases self@.fiber(j).declared.len() - k,
        {
            let key = &self.fibers[j].declared_injects[k];
            assert(*key == self@.fiber(j).declared[k as int]);
            list.push(
                DependencyDiagnostics {
                    key: key.clone(),
                    scope: self.nodes[j].ctx.scope_for(key),
                    status: self.dependency_status(j, key),
                },
            );
            k += 1;
        }
        assert(list@ =~= Seq::new(
            self@.fiber(j).declared.len(),
            |k: int|
                DependencyDiagnostics {
                    key: self@.fiber(j).declared[k],
                    scope: scope_seen(self@.nodes[j as int].ctx, self@.fiber(j).declared[k]),
                    status: self@.dependency(j, self@.fiber(j).declared[k]),
                },
        ));
        list
    }

    fn survey_fiber(&self, j: FiberIx) -> (d: PluginDiagnostics)
        requires
            self@.wf(),
            self@.has(j),
        ensures
            self@.surveyed(j, d),
    {
        let f = &self.fibers[j];
        assert(f@ == self@.fiber(j));
        let injects = self.survey_injects(j);
        let mut resolved_dependencies: Vec<ResolvedDependency> = Vec::new();
        if let Some(deps) = &f.last_deps {
            let mut k: usize = 0;
            while k < deps.len()
                invariant
                    k <= deps.len(),
                    resolved_dependencies@.len() == k,
                    forall|l: int|
                        0 <= l < k ==> #[trigger] resolved_dependencies@[l] == (ResolvedDependency {
                            key: deps@[l].key,
                            scope: deps@[l].scope,
                            provider: deps@[l].provider,
                            generation: deps@[l].generation,
                        }),
                decreases deps.len() - k,
            {
                resolved_dependencies.push(
                    ResolvedDependency {
                        key: deps[k].key.clone(),
                        scope: clone_scope(&deps[k].scope),
                        provider: deps[k].provider,
                        generation: deps[k].generation,
                    },
                );
                k += 1;
            }
        }
        assert(resolved_dependencies@ =~= match self@.fiber(j).last_deps {
            Some(deps) => Seq::new(
                deps.len(),
                |k: int|
                    ResolvedDependency {
                        key: deps[k].key,
                        scope: deps[k].scope,
                        provider: deps[k].provider,
                        generation: deps[k].generation,
                    },
            ),
            None => Seq::empty(),
        });
        let mut accesses: Vec<ServiceAccess> = Vec::new();
        let mut k: usize = 0;
        while k < f.accesses.len()
            invariant
                k <= f.accesses.len(),
                accesses@.len() == k,
                forall|l: int| 0 <= l < k ==> #[trigger] accesses@[l] == f.accesses@[l],
            decreases f.accesses.len() - k,
        {
            accesses.push(f.accesses[k].copied());
            k += 1;
        }
        assert(accesses@ =~= f.accesses@);
        let parent = match self.nodes[j].parent {
            Some(p) => if p < self.fibers.len() && self.fibers[p].held {
                Some(self.fibers[p].id)
            } else {
                None
            },
            None => None,
        };
        PluginDiagnostics {
            id: f.id,
            instance: self.nodes[j].instance,
            parent,
            name: f.name.clone(),
            state: f.trans.state,
            generation: f.trans.generation,
            error: clone_error(&f.trans.error),
            injects,
            resolved_dependencies,
            accesses,
        }
    }

    fn survey_from(&self, j: FiberIx, out: &mut Vec<PluginDiagnostics>)
        requires
            self@.wf(),
            self@.has(j),
        ensures
            final(out)@.len() == old(out)@.len() + self@.order(j).len(),
            forall|k: int| 0 <= k < old(out)@.len() ==> #[trigger] final(out)@[k] == old(out)@[k],
            forall|k: int|
                0 <= k < self@.order(j).len() ==> self@.surveyed(
                    #[trigger] self@.order(j)[k],
                    final(out)@[old(out)@.len() + k],
                ),
        decreases self@.fibers.len() - j,
    {
        let ghost start = out@;
        out.push(self.survey_fiber(j));
        let ghost total = self@.fiber(j).children.len();
        let mut n: usize = self.fibers[j].children.len();
        let ghost mut done = seq![j];
        while n > 0
            invariant
                self@.wf(),
                self@.has(j),
                total == self@.fiber(j).children.len(),
                n <= total,
                self@.order(j) == done + self@.order_below(j, n as nat),
                out@.len() == start.len() + done.len(),
                forall|k: int| 0 <= k < start.len() ==> #[trigger] out@[k] == start[k],
                forall|k: int|
                    0 <= k < done.len() ==> self@.surveyed(
                        #[trigger] done[k],
                        out@[start.len() + k],
                    ),
            decreases n,
        {
            let c: usize = self.fibers[j].children[n - 1];
            assert(c == self@.fiber(j).children[n - 1]);
            if c > j && c < self.fibers.len() && self.fibers[c].held {
                assert(self.fibers@[c as int]@ == self@.fiber(c));
                let ghost before = out@;
                self.survey_from(c, out);
                proof {
                    let old_done = done;
                    done = old_done + self@.order(c);
                    assert(self@.order(j) =~= done + self@.order_below(j, (n - 1) as nat));
                    assert forall|k: int| 0 <= k < done.len() implies self@.surveyed(
                        #[trigger] done[k],
                        out@[start.len() + k],
                    ) by {
                        if k < old_done.len() {
                            assert(done[k] == old_done[k]);
                            assert(out@[start.len() + k] == before[start.len() + k]);
                        } else {
                            assert(done[k] == self@.order(c)[k - old_done.len()]);
                        }
                    }
                    assert forall|k: int| 0 <= k < start.len() implies #[trigger] out@[k]
                        == start[k] by {
                        assert(out@[k] == before[k]);
                    }
                }
            }
            n -= 1;
        }
        assert(self@.order(j) =~= done);
    }

    /// Everything there is to see: whether the root is closing, the fibers from
    /// the root down, and the bindings. No callback of a plugin is made.
    pub fn diagnostics(&self) -> (out: RuntimeDiagnostics)
        requires
            self@.wf(),
        ensures
            self@.is_survey(out),
    {
        let mut plugins: Vec<PluginDiagnostics> = Vec::new();
        assert(self.fibers@.len() == self@.fibers.len());
        if self.fibers[0].held {
            self.survey_from(0, &mut plugins);
        }
        let bindings = self.registry.bindings_snapshot();
        assert(bindings@ =~= Seq::new(
            self@.registry.slots.len(),
            |k: int|
                BindingDiagnostics {
                    key: self@.registry.slots[k].key,
                    scope: self@.registry.slots[k].scope,
                    provider: self@.registry.slots[k].binding.provider_id,
                    generation: self@.registry.slots[k].binding.provider_gen,
                    removing: self@.registry.slots[k].binding.removing,
                },
        ));
        RuntimeDiagnostics { shutting_down: self.closing, plugins, bindings }
    }
}

} // verus!
