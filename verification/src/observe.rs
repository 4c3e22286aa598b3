//! Observers of dispatches: callbacks that are told of every dispatch from
//! their part of the tree before its listeners are chosen.

use crate::bus::{any_owner, owns_one, picked_list, Hook};
use crate::ctx::Ctx;
use crate::effect::{fresh_record, Callback, Effect};
use crate::error::CordisError;
use crate::fiber::{FiberIx, PluginId, RecordId};
use crate::key::{InstanceId, TypeKey};
use crate::list::{
    adding_takes_a_number, filter_empty, filter_step, filtering_keeps_numbers, numbered,
    shrink_if_sparse, whole,
};
use crate::shared::{Shared, SharedModel};
use vstd::prelude::*;

verus! {

broadcast use crate::shared::fiber_is_viewed;

/// How an event is dispatched.
#[derive(Debug, Clone, Copy, PartialEq, Eq, Structural)]
pub enum DispatchMode {
    Emit,
    Parallel,
    Serial,
    Waterfall,
}

/// What an observer is told of a dispatch.
pub struct DispatchAttempt {
    pub mode: DispatchMode,
    pub key: TypeKey,
    /// The fiber of the context that dispatches.
    pub emitter: PluginId,
    pub emitter_instance: InstanceId,
}

impl DispatchAttempt {
    pub fn new(mode: DispatchMode, key: &TypeKey, ctx: &Ctx) -> (attempt: Self)
        ensures
            attempt == (DispatchAttempt {
                mode,
                key: *key,
                emitter: ctx.node.plugin_id,
                emitter_instance: ctx.node.instance,
            }),
    {
        DispatchAttempt {
            mode,
            key: key.clone(),
            emitter: ctx.node.plugin_id,
            emitter_instance: ctx.node.instance,
        }
    }
}

/// The observers of one root, in the order in which they are told.
pub struct DispatchObservers {
    pub entries: Vec<Hook>,
    pub next_id: u64,
}

/// `DispatchObservers`, with its list as a sequence.
pub struct ObserverModel {
    pub entries: Seq<Hook>,
    pub next: u64,
}

impl View for DispatchObservers {
    type V = ObserverModel;

    open spec fn view(&self) -> ObserverModel {
        ObserverModel { entries: self.entries@, next: self.next_id }
    }
}

/// The id of an observer.
pub open spec fn observer_id() -> spec_fn(Hook) -> u64 {
    |h: Hook| h.id
}

impl ObserverModel {
    /// No two observers have the same id, and that of the next is above all.
    pub open spec fn wf(self) -> bool {
        numbered(self.entries, observer_id(), self.next)
    }
}

/// All observers but one.
pub open spec fn other_observer(id: u64) -> spec_fn(Hook) -> bool {
    |h: Hook| h.id != id
}

impl SharedModel {
    /// The observer is told of what the context dispatches: its owner can hear,
    /// and is the context's fiber or on its way to the root.
    pub open spec fn watches(self, ctx: Ctx, hook: Hook) -> bool {
        self.hearing(hook) && self.within(ctx.node.fiber, hook.owner)
    }

    /// The observers that are told, among the first `n`.
    pub open spec fn watchers(self, entries: Seq<Hook>, ctx: Ctx, n: nat) -> Seq<Hook>
        decreases n,
    {
        if n == 0 {
            seq![]
        } else {
            let before = self.watchers(entries, ctx, (n - 1) as nat);
            if self.watches(ctx, entries[n - 1]) {
                before.push(entries[n - 1])
            } else {
                before
            }
        }
    }

    /// The end of fiber `j` waits for the observers: it owns one of them.
    pub open spec fn watching(self, hooks: Seq<Hook>, j: FiberIx) -> bool {
        self.has(j) && self.fiber(j).held && owns_one(hooks, j)
    }
}

/// The observers chosen for one dispatch.
pub struct Audience {
    /// In the order of telling.
    pub hooks: Vec<Hook>,
    /// The fibers whose end waits for them.
    pub flight: Vec<FiberIx>,
}

impl DispatchObservers {
    pub fn new() -> (all: Self)
        ensures
            all@ == (ObserverModel { entries: Seq::empty(), next: 0 }),
            all@.wf(),
    {
        DispatchObservers { entries: Vec::new(), next_id: 0 }
    }

    pub fn observer_count(&self) -> (n: usize)
        ensures
            n == self@.entries.len(),
    {
        self.entries.len()
    }

    /// Registers an observer, owned by the context's fiber.
    pub fn observe_dispatch(
        &mut self,
        shared: &mut Shared,
        ctx: &Ctx,
        call: Callback,
        cleanup: Callback,
    ) -> (result: Result<(RecordId, u64), CordisError>)
        requires
            old(self)@.next < u64::MAX,
        ensures
            old(shared)@.wf() ==> final(shared)@.wf(),
            old(self)@.wf() ==> final(self)@.wf(),
            match old(shared)@.refusal(*ctx) {
                Some(e) => {
                    &&& result == Err::<(RecordId, u64), CordisError>(e)
                    &&& final(self)@ == old(self)@
                    &&& final(shared)@ == old(shared)@
                },
                None => {
                    let hook = Hook {
                        id: old(self)@.next,
                        call,
                        once: false,
                        owner: ctx.node.fiber,
                    };
                    &&& result == Ok::<(RecordId, u64), CordisError>(
                        (old(shared)@.records.len() as usize, old(self)@.next),
                    )
                    &&& final(self)@ == (ObserverModel {
                        entries: old(self)@.entries.push(hook),
                        next: (old(self)@.next + 1) as u64,
                    })
                    &&& fresh_record(
                        final(shared)@.records.last(),
                        Effect::AsyncDisposer(cleanup),
                        "dispatch observer"@,
                        ctx.node.fiber,
                    )
                    &&& final(shared)@ == old(shared)@.with_effect(
                        ctx.node.fiber,
                        final(shared)@.records.last(),
                    )
                },
            },
    {
        match ctx.registration_preflight(shared) {
            Ok(()) => {},
            Err(e) => {
                return Err(e);
            },
        }
        let id: u64 = self.next_id;
        self.next_id = id + 1;
        let hook = Hook { id, call, once: false, owner: ctx.node.fiber };
        self.entries.push(hook);
        proof {
            if old(self)@.wf() {
                adding_takes_a_number(old(self)@.entries, hook, observer_id(), old(self)@.next);
            }
        }
        let record = shared.push_effect(
            ctx.node.fiber,
            &Effect::AsyncDisposer(cleanup),
            "dispatch observer".to_owned(),
        );
        Ok((record, id))
    }

    /// Takes an observer away.
    pub fn remove(&mut self, id: u64)
        ensures
            old(self)@.wf() ==> final(self)@.wf(),
            final(self)@ == (ObserverModel {
                entries: old(self)@.entries.filter(other_observer(id)),
                ..old(self)@
            }),
    {
        let ghost all = self.entries@;
        let ghost keep = other_observer(id);
        let mut kept: Vec<Hook> = Vec::new();
        let mut i: usize = 0;
        proof {
            filter_empty(all, keep);
        }
        while i < self.entries.len()
            invariant
                i <= self.entries.len(),
                self.entries@ == all,
                self@ == old(self)@,
                keep == other_observer(id),
                kept@ == all.subrange(0, i as int).filter(keep),
            decreases self.entries.len() - i,
        {
            proof {
                filter_step(all, i as int, keep);
            }
            let hook = self.entries[i];
            if hook.id != id {
                kept.push(hook);
            }
            i += 1;
        }
        proof {
            whole(all);
            if old(self)@.wf() {
                filtering_keeps_numbers(all, keep, observer_id(), old(self)@.next);
            }
        }
        shrink_if_sparse(&mut kept);
        self.entries = kept;
    }

    /// Chooses the observers of a dispatch through the context, and lets the
    /// ends of their fibers wait for them.
    pub fn select(&self, shared: &mut Shared, ctx: &Ctx) -> (audience: Audience)
        requires
            old(shared)@.wf(),
            old(shared)@.flight_room(),
        ensures
            final(shared)@.wf(),
            audience.hooks@ == old(shared)@.watchers(self@.entries, *ctx, self@.entries.len()),
            ({
                let picked = Seq::new(
                    old(shared)@.fibers.len(),
                    |j: int| old(shared)@.watching(audience.hooks@, j as usize),
                );
                audience.flight@ == picked_list(picked, picked.len()) && final(shared)@
                    == old(shared)@.airborne(picked, picked.len())
            }),
    {
        let ghost before = shared@;
        let mut hooks: Vec<Hook> = Vec::new();
        let mut i: usize = 0;
        while i < self.entries.len()
            invariant
                i <= self.entries.len(),
                shared@ == before,
                shared@.wf(),
                hooks@ == before.watchers(self@.entries, *ctx, i as nat),
            decreases self.entries.len() - i,
        {
            let hook = self.entries[i];
            let o: usize = hook.owner;
            if o < shared.fibers.len() {
                assert(shared.fibers@[o as int]@ == before.fiber(o));
            }
            if o < shared.fibers.len() && shared.fibers[o].held && shared.fibers[o].alive
                && !shared.fibers[o].closing && shared.in_subtree_of(ctx.node.fiber, o) {
                hooks.push(hook);
            }
            i += 1;
        }
        let mut picked: Vec<bool> = Vec::new();
        let mut j: usize = 0;
        while j < shared.fibers.len()
            invariant
                shared@ == before,
                j <= shared.fibers.len(),
                picked@.len() == j,
                forall|k: int|
                    0 <= k < j ==> #[trigger] picked@[k] == before.watching(hooks@, k as usize),
            decreases shared.fibers.len() - j,
        {
            assert(shared.fibers@[j as int]@ == before.fiber(j));
            picked.push(shared.fibers[j].held && any_owner(&hooks, j));
            j += 1;
        }
        assert(picked@ =~= Seq::new(
            before.fibers.len(),
            |j: int| before.watching(hooks@, j as usize),
        ));
        let flight = shared.take_off(&picked);
        Audience { hooks, flight }
    }
}

/// Only observers on the way from the emitter to the root are told of a
/// dispatch, and none that was not registered.
pub proof fn observers_stay_in_their_subtree(
    m: SharedModel,
    entries: Seq<Hook>,
    ctx: Ctx,
    n: nat,
    i: int,
)
    requires
        n <= entries.len(),
        0 <= i < m.watchers(entries, ctx, n).len(),
    ensures
        m.within(ctx.node.fiber, m.watchers(entries, ctx, n)[i].owner),
        exists|j: int| 0 <= j < n && #[trigger] entries[j] == m.watchers(entries, ctx, n)[i],
    decreases n,
{
    let before = m.watchers(entries, ctx, (n - 1) as nat);
    if i < before.len() {
        observers_stay_in_their_subtree(m, entries, ctx, (n - 1) as nat, i);
    } else {
        assert(entries[n - 1] == m.watchers(entries, ctx, n)[i]);
    }
}

/// An observer that was taken away is told of no later dispatch.
pub proof fn removed_observers_are_not_told(m: SharedModel, entries: Seq<Hook>, id: u64, ctx: Ctx)
    ensures
        ({
            let left = entries.filter(other_observer(id));
            let told = m.watchers(left, ctx, left.len());
            forall|i: int| 0 <= i < told.len() ==> (#[trigger] told[i]).id != id
        }),
{
    let left = entries.filter(other_observer(id));
    let told = m.watchers(left, ctx, left.len());
    assert forall|i: int| 0 <= i < told.len() implies (#[trigger] told[i]).id != id by {
        observers_stay_in_their_subtree(m, left, ctx, left.len(), i);
        let j = choose|j: int| 0 <= j < left.len() && #[trigger] left[j] == told[i];
        entries.lemma_filter_pred(other_observer(id), j);
    }
}

} // verus!
