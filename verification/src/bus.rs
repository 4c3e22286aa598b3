//! The event bus: who listens to what, and in which order listeners are called.

use crate::ctx::Ctx;
use crate::effect::{fresh_record, Callback, Effect};
use crate::error::CordisError;
use crate::fiber::{FiberIx, FiberModel, RecordId};
use crate::key::{same_key, InstanceId, TypeKey};
use crate::list::{
    adding_takes_a_number, filter_empty, filter_step, filtering_keeps_numbers, numbered,
    shrink_if_sparse, whole,
};
use crate::shared::{Shared, SharedModel};
use crate::text::joined;
use vstd::prelude::*;

verus! {

broadcast use crate::shared::fiber_is_viewed;

/// A registered listener. No two registrations share an id.
#[derive(Debug, Clone, Copy, PartialEq, Eq, Structural)]
pub struct Hook {
    pub id: u64,
    pub call: Callback,
    pub once: bool,
    pub owner: FiberIx,
}

/// A list of listeners with their keys. Listeners of one key are called in the
/// order of the list.
pub struct HookTable {
    pub entries: Vec<(TypeKey, Hook)>,
}

impl View for HookTable {
    type V = Seq<(TypeKey, Hook)>;

    open spec fn view(&self) -> Seq<(TypeKey, Hook)> {
        self.entries@
    }
}

/// The entries of a key.
pub open spec fn of_key(key: TypeKey) -> spec_fn((TypeKey, Hook)) -> bool {
    |e: (TypeKey, Hook)| same_key(e.0, key)
}

/// The listeners of a key, in order.
pub open spec fn listeners(entries: Seq<(TypeKey, Hook)>, key: TypeKey) -> Seq<(TypeKey, Hook)> {
    entries.filter(of_key(key))
}

/// The entries that a dispatch of the key leaves in the table.
pub open spec fn survives_dispatch(key: TypeKey) -> spec_fn((TypeKey, Hook)) -> bool {
    |e: (TypeKey, Hook)| !(same_key(e.0, key) && e.1.once)
}

/// All entries but one listener of the key.
pub open spec fn other_hook(key: TypeKey, id: u64) -> spec_fn((TypeKey, Hook)) -> bool {
    |e: (TypeKey, Hook)| !(same_key(e.0, key) && e.1.id == id)
}

/// The hooks of a list of entries.
pub open spec fn hooks_of(entries: Seq<(TypeKey, Hook)>) -> Seq<Hook> {
    Seq::new(entries.len(), |i: int| entries[i].1)
}

impl HookTable {
    pub fn new() -> (table: Self)
        ensures
            table@ == Seq::<(TypeKey, Hook)>::empty(),
    {
        HookTable { entries: Vec::new() }
    }

    /// Adds a listener behind all others, or ahead of them.
    pub fn insert_hook(&mut self, key: TypeKey, hook: Hook, prepend: bool)
        ensures
            final(self)@ == (if prepend {
                seq![(key, hook)] + old(self)@
            } else {
                old(self)@.push((key, hook))
            }),
    {
        let ghost before = self@;
        if prepend {
            self.entries.insert(0, (key, hook));
            assert(self@ =~= seq![(key, hook)] + before);
        } else {
            self.entries.push((key, hook));
        }
    }

    /// Takes a listener of a key out.
    pub fn remove_hook(&mut self, key: &TypeKey, id: u64)
        ensures
            final(self)@ == old(self)@.filter(other_hook(*key, id)),
    {
        let ghost all = self@;
        let ghost keep = other_hook(*key, id);
        let mut kept: Vec<(TypeKey, Hook)> = Vec::new();
        let mut i: usize = 0;
        proof {
            filter_empty(all, keep);
        }
        while i < self.entries.len()
            invariant
                i <= self.entries.len(),
                self@ == all,
                keep == other_hook(*key, id),
                kept@ == all.subrange(0, i as int).filter(keep),
            decreases self.entries.len() - i,
        {
            proof {
                filter_step(all, i as int, keep);
            }
            let hook = self.entries[i].1;
            if !(self.entries[i].0 == *key && hook.id == id) {
                kept.push((self.entries[i].0.clone(), hook));
            }
            i += 1;
        }
        proof {
            whole(all);
        }
        shrink_if_sparse(&mut kept);
        self.entries = kept;
    }

    /// Takes the listeners of a key for one dispatch, in order. Those that are
    /// to be called once leave the table.
    pub fn claim(&mut self, key: &TypeKey) -> (taken: Vec<Hook>)
        ensures
            taken@ == hooks_of(listeners(old(self)@, *key)),
            final(self)@ == old(self)@.filter(survives_dispatch(*key)),
    {
        let ghost all = self@;
        let ghost keep = survives_dispatch(*key);
        let ghost pick = of_key(*key);
        let mut kept: Vec<(TypeKey, Hook)> = Vec::new();
        let mut taken: Vec<Hook> = Vec::new();
        let mut i: usize = 0;
        proof {
            filter_empty(all, keep);
            filter_empty(all, pick);
        }
        assert(taken@ =~= hooks_of(all.subrange(0, 0).filter(pick)));
        while i < self.entries.len()
            invariant
                i <= self.entries.len(),
                self@ == all,
                keep == survives_dispatch(*key),
                pick == of_key(*key),
                kept@ == all.subrange(0, i as int).filter(keep),
                taken@ == hooks_of(all.subrange(0, i as int).filter(pick)),
            decreases self.entries.len() - i,
        {
            proof {
                filter_step(all, i as int, keep);
                filter_step(all, i as int, pick);
            }
            let hook = self.entries[i].1;
            let ghost picked = all.subrange(0, i as int).filter(pick);
            let mine = self.entries[i].0 == *key;
            if mine {
                taken.push(hook);
                assert(taken@ =~= hooks_of(picked.push(all[i as int])));
            }
            if !(mine && hook.once) {
                kept.push((self.entries[i].0.clone(), hook));
            }
            i += 1;
        }
        proof {
            whole(all);
        }
        shrink_if_sparse(&mut kept);
        self.entries = kept;
        taken
    }
}

/// A running dispatch of a key that later ones queue up behind.
pub struct Tail {
    pub key: TypeKey,
    pub generation: u64,
    /// The task of the dispatch.
    pub task: u64,
}

/// The event bus of one root.
pub struct EventBus {
    /// The root that the bus belongs to.
    pub root: InstanceId,
    pub hooks: HookTable,
    pub wf_hooks: HookTable,
    /// The last dispatch of each key, while it is not over.
    pub tails: Vec<Tail>,
    pub next_hook: u64,
}

/// `EventBus`, with its lists as sequences.
pub struct BusModel {
    pub root: InstanceId,
    pub hooks: Seq<(TypeKey, Hook)>,
    pub wf_hooks: Seq<(TypeKey, Hook)>,
    pub tails: Seq<Tail>,
    pub next: u64,
}

impl View for EventBus {
    type V = BusModel;

    open spec fn view(&self) -> BusModel {
        BusModel {
            root: self.root,
            hooks: self.hooks@,
            wf_hooks: self.wf_hooks@,
            tails: self.tails@,
            next: self.next_hook,
        }
    }
}

/// The id of a listener in a table.
pub open spec fn entry_id() -> spec_fn((TypeKey, Hook)) -> u64 {
    |e: (TypeKey, Hook)| e.1.id
}

impl BusModel {
    /// No key has two tails, and no two listeners, of whatever kind, have the same
    /// id. The id of the next listener is above all of theirs.
    pub open spec fn wf(self) -> bool {
        &&& forall|i: int, j: int|
            #![trigger self.tails[i], self.tails[j]]
            0 <= i < j < self.tails.len() ==> !same_key(self.tails[i].key, self.tails[j].key)
        &&& self.ids_differ()
    }

    pub open spec fn ids_differ(self) -> bool {
        &&& numbered(self.hooks, entry_id(), self.next)
        &&& numbered(self.wf_hooks, entry_id(), self.next)
        &&& forall|i: int, j: int|
            #![trigger self.hooks[i], self.wf_hooks[j]]
            0 <= i < self.hooks.len() && 0 <= j < self.wf_hooks.len() ==> self.hooks[i].1.id
                != self.wf_hooks[j].1.id
    }

    pub open spec fn has_tail(self, i: int, key: TypeKey) -> bool {
        0 <= i < self.tails.len() && same_key(self.tails[i].key, key)
    }

    pub open spec fn queued(self, key: TypeKey) -> bool {
        exists|i: int| #[trigger] self.has_tail(i, key)
    }

    /// The last dispatch of a key.
    pub open spec fn tail(self, key: TypeKey) -> Tail {
        self.tails[choose|i: int| #[trigger] self.has_tail(i, key)]
    }
}

/// The key has the same last dispatch in both, or none in either.
pub open spec fn same_tail(a: BusModel, b: BusModel, key: TypeKey) -> bool {
    a.queued(key) == b.queued(key) && (a.queued(key) ==> a.tail(key) == b.tail(key))
}

/// A key has at most one tail.
pub proof fn tail_is_unique(m: BusModel, key: TypeKey, i: int)
    requires
        m.wf(),
        m.has_tail(i, key),
    ensures
        m.queued(key),
        m.tail(key) == m.tails[i],
{
    let p = choose|p: int| #[trigger] m.has_tail(p, key);
    assert(m.has_tail(p, key));
    if p < i {
        assert(same_key(m.tails[p].key, m.tails[i].key));
    } else if i < p {
        assert(same_key(m.tails[i].key, m.tails[p].key));
    }
}

/// A listener to register.
pub struct ListenerSpec {
    pub call: Callback,
    pub once: bool,
    pub prepend: bool,
    /// The cleanup that takes the listener away again.
    pub cleanup: Callback,
}

/// A dispatch that has been accepted.
pub struct Dispatch {
    /// The listeners to call, in order.
    pub hooks: Vec<Hook>,
    /// The fibers whose end waits for the dispatch.
    pub flight: Vec<FiberIx>,
}

impl SharedModel {
    /// The listener's owner is there, takes requests, and is not closing.
    pub open spec fn hearing(self, hook: Hook) -> bool {
        self.has(hook.owner) && self.fiber(hook.owner).held && self.fiber(hook.owner).alive
            && !self.fiber(hook.owner).closing
    }

    /// Those of the first `n` listeners that are to be called: all of them, or,
    /// for the key of an instance, those that can hear.
    pub open spec fn called(self, taken: Seq<Hook>, instance: bool, n: nat) -> Seq<Hook>
        decreases n,
    {
        if n == 0 {
            seq![]
        } else {
            let before = self.called(taken, instance, (n - 1) as nat);
            if !instance || self.hearing(taken[n - 1]) {
                before.push(taken[n - 1])
            } else {
                before
            }
        }
    }

    /// The end of fiber `j` waits for a dispatch to the instance `id`: it is the
    /// instance's, the emitter's, or that of a listener.
    pub open spec fn involved(self, ctx: Ctx, id: InstanceId, hooks: Seq<Hook>, j: FiberIx) -> bool {
        &&& self.has(j)
        &&& self.fiber(j).held
        &&& {
            ||| self.owner_of(ctx.node.fiber, id) == Some(j)
            ||| ctx.node.fiber == j
            ||| owns_one(hooks, j)
        }
    }

    /// One more callback in flight on each of the first `n` fibers that `held`
    /// picks.
    pub open spec fn airborne(self, picked: Seq<bool>, n: nat) -> SharedModel {
        SharedModel {
            fibers: Seq::new(
                self.fibers.len(),
                |j: int|
                    if j < n && picked[j] {
                        FiberModel {
                            flights: (self.fibers[j].flights + 1) as usize,
                            ..self.fibers[j]
                        }
                    } else {
                        self.fibers[j]
                    },
            ),
            ..self
        }
    }

    /// Room to count one more callback on every fiber.
    pub open spec fn flight_room(self) -> bool {
        forall|j: int| 0 <= j < self.fibers.len() ==> (#[trigger] self.fibers[j]).flights < usize::MAX
    }
}

/// One of the listeners is owned by fiber `j`.
pub open spec fn owns_one(hooks: Seq<Hook>, j: FiberIx) -> bool {
    exists|k: int| 0 <= k < hooks.len() && (#[trigger] hooks[k]).owner == j
}

/// The positions that are picked, in ascending order.
pub open spec fn picked_list(picked: Seq<bool>, n: nat) -> Seq<FiberIx>
    decreases n,
{
    if n == 0 {
        seq![]
    } else if picked[n - 1] {
        picked_list(picked, (n - 1) as nat).push((n - 1) as usize)
    } else {
        picked_list(picked, (n - 1) as nat)
    }
}

pub fn any_owner(hooks: &Vec<Hook>, j: FiberIx) -> (yes: bool)
    ensures
        yes == owns_one(hooks@, j),
{
    let mut k: usize = 0;
    while k < hooks.len()
        invariant
            k <= hooks.len(),
            forall|l: int| 0 <= l < k ==> (#[trigger] hooks@[l]).owner != j,
        decreases hooks.len() - k,
    {
        if hooks[k].owner == j {
            assert(hooks@[k as int].owner == j);
            return true;
        }
        k += 1;
    }
    false
}

impl Shared {
    /// Counts one more callback on each picked fiber, and lists those.
    pub fn take_off(&mut self, picked: &Vec<bool>) -> (flight: Vec<FiberIx>)
        requires
            picked@.len() == old(self)@.fibers.len(),
            old(self)@.flight_room(),
        ensures
            old(self)@.wf() ==> final(self)@.wf(),
            flight@ == picked_list(picked@, picked@.len()),
            final(self)@ == old(self)@.airborne(picked@, picked@.len()),
    {
        let ghost before = self@;
        let mut flight: Vec<FiberIx> = Vec::new();
        let mut j: usize = 0;
        assert(self@.fibers =~= before.airborne(picked@, 0).fibers);
        while j < picked.len()
            invariant
                j <= picked@.len(),
                picked@.len() == before.fibers.len(),
                before.flight_room(),
                self@.fibers.len() == before.fibers.len(),
                self@ == before.airborne(picked@, j as nat),
                flight@ == picked_list(picked@, j as nat),
            decreases picked.len() - j,
        {
            let ghost here = self@;
            assert(self.fibers@.len() == here.fibers.len());
            assert(self.fibers@[j as int]@ == before.fibers[j as int]);
            if picked[j] {
                self.fibers[j].begin_event();
                flight.push(j);
                assert(self@.fibers =~= here.fibers.update(
                    j as int,
                    FiberModel {
                        flights: (before.fibers[j as int].flights + 1) as usize,
                        ..before.fibers[j as int]
                    },
                ));
            }
            j += 1;
            assert(self@.fibers =~= before.airborne(picked@, j as nat).fibers);
        }
        flight
    }

    fn pick_involved(&self, ctx: &Ctx, id: InstanceId, hooks: &Vec<Hook>) -> (picked: Vec<bool>)
        requires
            self@.wf(),
        ensures
            picked@ == Seq::new(
                self@.fibers.len(),
                |j: int| self@.involved(*ctx, id, hooks@, j as usize),
            ),
    {
        let owner = ctx.instance_owner(self, id);
        let mut picked: Vec<bool> = Vec::new();
        let mut j: usize = 0;
        while j < self.fibers.len()
            invariant
                self@.wf(),
                j <= self.fibers.len(),
                owner == self@.owner_of(ctx.node.fiber, id),
                picked@.len() == j,
                forall|k: int|
                    0 <= k < j ==> #[trigger] picked@[k] == self@.involved(
                        *ctx,
                        id,
                        hooks@,
                        k as usize,
                    ),
            decreases self.fibers.len() - j,
        {
            assert(self.fibers@[j as int]@ == self@.fiber(j));
            let owns = match owner {
                Some(o) => o == j,
                None => false,
            };
            picked.push(
                self.fibers[j].held && (owns || ctx.node.fiber == j || any_owner(hooks, j)),
            );
            j += 1;
        }
        assert(picked@ =~= Seq::new(
            self@.fibers.len(),
            |j: int| self@.involved(*ctx, id, hooks@, j as usize),
        ));
        picked
    }

    fn hearing_hooks(&self, taken: &Vec<Hook>, instance: bool) -> (hooks: Vec<Hook>)
        ensures
            hooks@ == self@.called(taken@, instance, taken@.len()),
    {
        let mut hooks: Vec<Hook> = Vec::new();
        let mut k: usize = 0;
        while k < taken.len()
            invariant
                k <= taken.len(),
                hooks@ == self@.called(taken@, instance, k as nat),
            decreases taken.len() - k,
        {
            let hook = taken[k];
            let o: usize = hook.owner;
            let hears = o < self.fibers.len() && self.fibers[o].held && self.fibers[o].alive
                && !self.fibers[o].closing;
            if o < self.fibers.len() {
                assert(self.fibers@[o as int]@ == self@.fiber(o));
            }
            assert(hears == self@.hearing(hook));
            if !instance || hears {
                hooks.push(hook);
            }
            k += 1;
        }
        hooks
    }
}

impl EventBus {
    pub fn new(root: InstanceId) -> (bus: Self)
        ensures
            bus@.wf(),
            bus@ == (BusModel {
                root,
                hooks: Seq::empty(),
                wf_hooks: Seq::empty(),
                tails: Seq::empty(),
                next: 0,
            }),
    {
        EventBus {
            root,
            hooks: HookTable::new(),
            wf_hooks: HookTable::new(),
            tails: Vec::new(),
            next_hook: 0,
        }
    }

    /// Registers a listener for a key, owned by the context's fiber. The key of an
    /// instance belongs to the bus of the instance's own runtime.
    pub fn add_hook(
        &mut self,
        shared: &mut Shared,
        ctx: &Ctx,
        key: TypeKey,
        listener: ListenerSpec,
    ) -> (result: Result<(RecordId, u64), CordisError>)
        requires
            old(shared)@.wf(),
            old(self)@.next < u64::MAX,
        ensures
            final(shared)@.wf(),
            old(self)@.wf() ==> final(self)@.wf(),
            match old(self)@.hook_refusal(old(shared)@, *ctx, key) {
                Some(e) => {
                    &&& result == Err::<(RecordId, u64), CordisError>(e)
                    &&& final(self)@ == old(self)@
                    &&& final(shared)@ == old(shared)@
                },
                None => {
                    let hook = Hook {
                        id: old(self)@.next,
                        call: listener.call,
                        once: listener.once,
                        owner: ctx.node.fiber,
                    };
                    &&& result == Ok::<(RecordId, u64), CordisError>(
                        (old(shared)@.records.len() as usize, old(self)@.next),
                    )
                    &&& final(self)@ == (BusModel {
                        hooks: if listener.prepend {
                            seq![(key, hook)] + old(self)@.hooks
                        } else {
                            old(self)@.hooks.push((key, hook))
                        },
                        next: (old(self)@.next + 1) as u64,
                        ..old(self)@
                    })
                    &&& fresh_record(
                        final(shared)@.records.last(),
                        if key.identity().instance is Some {
                            Effect::AsyncDisposer(listener.cleanup)
                        } else {
                            Effect::Disposer(listener.cleanup)
                        },
                        "event listener: "@ + key.description(),
                        ctx.node.fiber,
                    )
                    &&& final(shared)@ == old(shared)@.with_effect(
                        ctx.node.fiber,
                        final(shared)@.records.last(),
                    )
                },
            },
    {
        match ctx.key_preflight(shared, &key) {
            Ok(()) => {},
            Err(e) => {
                return Err(e);
            },
        }
        if let Some(instance) = key.instance_id() {
            if self.root != shared.nodes[0].instance {
                return Err(CordisError::InstanceOutOfScope { instance });
            }
        }
        let id: u64 = self.next_hook;
        self.next_hook = id + 1;
        let hook = Hook { id, call: listener.call, once: listener.once, owner: ctx.node.fiber };
        let label = joined("event listener: ", key.describe().as_str());
        let effect = match key.instance_id() {
            Some(_) => Effect::AsyncDisposer(listener.cleanup),
            None => Effect::Disposer(listener.cleanup),
        };
        let ghost entry = (key, hook);
        self.hooks.insert_hook(key, hook, listener.prepend);
        proof {
            if old(self)@.wf() {
                listener_takes_an_id(old(self)@, self@, entry, listener.prepend);
            }
        }
        let record = shared.push_effect(ctx.node.fiber, &effect, label);
        Ok((record, id))
    }

    /// Registers a waterfall listener for a key, owned by the context's fiber.
    pub fn add_wf_hook(
        &mut self,
        shared: &mut Shared,
        ctx: &Ctx,
        key: TypeKey,
        listener: ListenerSpec,
    ) -> (result: Result<(RecordId, u64), CordisError>)
        requires
            old(self)@.next < u64::MAX,
        ensures
            old(shared)@.wf() ==> final(shared)@.wf(),
            old(self)@.wf() ==> final(self)@.wf(),
            match old(shared)@.refusal(*ctx) {
                Some(e) => {
                    &&& result == Err::<(RecordId, u64), CordisError>(e)
                    &&& final(self)@ == old(self)@
                    &&& final(shared)@ == old(shared)@
                },
                None => {
                    let hook = Hook {
                        id: old(self)@.next,
                        call: listener.call,
                        once: listener.once,
                        owner: ctx.node.fiber,
                    };
                    &&& result == Ok::<(RecordId, u64), CordisError>(
                        (old(shared)@.records.len() as usize, old(self)@.next),
                    )
                    &&& final(self)@ == (BusModel {
                        wf_hooks: if listener.prepend {
                            seq![(key, hook)] + old(self)@.wf_hooks
                        } else {
                            old(self)@.wf_hooks.push((key, hook))
                        },
                        next: (old(self)@.next + 1) as u64,
                        ..old(self)@
                    })
                    &&& fresh_record(
                        final(shared)@.records.last(),
                        Effect::Disposer(listener.cleanup),
                        "waterfall listener: "@ + key.description(),
                        ctx.node.fiber,
                    )
                    &&& final(shared)@ == old(shared)@.with_effect(
                        ctx.node.fiber,
                        final(shared)@.records.last(),
                    )
                },
            },
    {
        match ctx.registration_preflight(shared) {
            Ok(()) => {},
            Err(e) => {
                return Err(e);
            },
        }
        let id: u64 = self.next_hook;
        self.next_hook = id + 1;
        let hook = Hook { id, call: listener.call, once: listener.once, owner: ctx.node.fiber };
        let label = joined("waterfall listener: ", key.describe().as_str());
        let ghost entry = (key, hook);
        self.wf_hooks.insert_hook(key, hook, listener.prepend);
        proof {
            if old(self)@.wf() {
                wf_listener_takes_an_id(old(self)@, self@, entry, listener.prepend);
            }
        }
        let record = shared.push_effect(
            ctx.node.fiber,
            &Effect::Disposer(listener.cleanup),
            label,
        );
        Ok((record, id))
    }

    /// Takes a listener away.
    pub fn remove_call_hook(&mut self, key: &TypeKey, id: u64)
        ensures
            old(self)@.wf() ==> final(self)@.wf(),
            final(self)@ == (BusModel {
                hooks: old(self)@.hooks.filter(other_hook(*key, id)),
                ..old(self)@
            }),
    {
        self.hooks.remove_hook(key, id);
        proof {
            if old(self)@.wf() {
                fewer_listeners(old(self)@, self@, other_hook(*key, id));
            }
        }
    }

    /// Takes a waterfall listener away.
    pub fn remove_wf_hook(&mut self, key: &TypeKey, id: u64)
        ensures
            old(self)@.wf() ==> final(self)@.wf(),
            final(self)@ == (BusModel {
                wf_hooks: old(self)@.wf_hooks.filter(other_hook(*key, id)),
                ..old(self)@
            }),
    {
        self.wf_hooks.remove_hook(key, id);
        proof {
            if old(self)@.wf() {
                fewer_wf_listeners(old(self)@, self@, other_hook(*key, id));
            }
        }
    }

    /// Takes the listeners of a key for one dispatch: in order, those to be
    /// called once for the last time, and, for the key of an instance, without
    /// those whose fiber is closing or gone.
    pub fn take_hooks(&mut self, shared: &Shared, key: &TypeKey) -> (hooks: Vec<Hook>)
        ensures
            old(self)@.wf() ==> final(self)@.wf(),
            ({
                let taken = hooks_of(listeners(old(self)@.hooks, *key));
                hooks@ == shared@.called(taken, key.identity().instance is Some, taken.len())
            }),
            final(self)@ == (BusModel {
                hooks: old(self)@.hooks.filter(survives_dispatch(*key)),
                ..old(self)@
            }),
    {
        let taken = self.hooks.claim(key);
        proof {
            if old(self)@.wf() {
                fewer_listeners(old(self)@, self@, survives_dispatch(*key));
            }
        }
        let instance = match key.instance_id() {
            Some(_) => true,
            None => false,
        };
        shared.hearing_hooks(&taken, instance)
    }

    /// Takes the waterfall listeners of a key for one dispatch.
    pub fn take_wf_hooks(&mut self, key: &TypeKey) -> (hooks: Vec<Hook>)
        ensures
            old(self)@.wf() ==> final(self)@.wf(),
            hooks@ == hooks_of(listeners(old(self)@.wf_hooks, *key)),
            final(self)@ == (BusModel {
                wf_hooks: old(self)@.wf_hooks.filter(survives_dispatch(*key)),
                ..old(self)@
            }),
    {
        let taken = self.wf_hooks.claim(key);
        proof {
            if old(self)@.wf() {
                fewer_wf_listeners(old(self)@, self@, survives_dispatch(*key));
            }
        }
        taken
    }

    /// Whether a dispatch to an instance is admitted: nothing is closed, the
    /// context's fiber is not on its way out, the bus is the one of the runtime,
    /// and the instance is on the context's way to the root.
    pub fn ensure_instance_ctx(&self, shared: &Shared, ctx: &Ctx, key: &TypeKey) -> (result: Result<
        (),
        CordisError,
    >)
        requires
            shared@.wf(),
            key.identity().instance is Some,
        ensures
            result == (match self@.dispatch_refusal(shared@, *ctx, *key) {
                Some(e) => Err::<(), CordisError>(e),
                None => Ok(()),
            }),
    {
        if shared.closing || ctx.subtree_closing(shared) {
            return Err(CordisError::Closed);
        }
        if ctx.is_asleep(shared) {
            return Err(CordisError::InactiveEffect);
        }
        if let Some(id) = key.instance_id() {
            if self.root != shared.nodes[0].instance {
                return Err(CordisError::InstanceOutOfScope { instance: id });
            }
        }
        ctx.check_instance(shared, key)
    }

    /// Accepts a dispatch. One to an instance is admitted as
    /// `ensure_instance_ctx` says, and the ends of the fibers that are involved
    /// wait for it; any other is always accepted.
    pub fn begin_dispatch(&mut self, shared: &mut Shared, ctx: &Ctx, key: &TypeKey) -> (result: Result<
        Dispatch,
        CordisError,
    >)
        requires
            old(shared)@.wf(),
            old(shared)@.flight_room(),
        ensures
            final(shared)@.wf(),
            old(self)@.wf() ==> final(self)@.wf(),
            final(shared)@.fibers.len() == old(shared)@.fibers.len(),
            match key.identity().instance {
                Some(id) => match old(self)@.dispatch_refusal(old(shared)@, *ctx, *key) {
                    Some(e) => {
                        &&& result == Err::<Dispatch, CordisError>(e)
                        &&& final(self)@ == old(self)@
                        &&& final(shared)@ == old(shared)@
                    },
                    None => {
                        &&& result matches Ok(d)
                        &&& final(self)@ == old(self)@.dispatched(*key)
                        &&& d.hooks@ == old(self)@.callees(old(shared)@, *key)
                        &&& ({
                            let picked = Seq::new(
                                old(shared)@.fibers.len(),
                                |j: int| old(shared)@.involved(*ctx, id, d.hooks@, j as usize),
                            );
                            d.flight@ == picked_list(picked, picked.len()) && final(shared)@
                                == old(shared)@.airborne(picked, picked.len())
                        })
                    },
                },
                None => {
                    &&& result matches Ok(d)
                    &&& final(self)@ == old(self)@.dispatched(*key)
                    &&& d.hooks@ == old(self)@.callees(old(shared)@, *key)
                    &&& d.flight@.len() == 0
                    &&& final(shared)@ == old(shared)@
                },
            },
    {
        match key.instance_id() {
            Some(id) => {
                match self.ensure_instance_ctx(shared, ctx, key) {
                    Ok(()) => {},
                    Err(e) => {
                        return Err(e);
                    },
                }
                let hooks = self.take_hooks(shared, key);
                let picked = shared.pick_involved(ctx, id, &hooks);
                let flight = shared.take_off(&picked);
                Ok(Dispatch { hooks, flight })
            },
            None => {
                let hooks = self.take_hooks(shared, key);
                Ok(Dispatch { hooks, flight: Vec::new() })
            },
        }
    }

    fn find_tail(&self, key: &TypeKey) -> (at: Option<usize>)
        requires
            self@.wf(),
        ensures
            match at {
                Some(i) => self@.has_tail(i as int, *key) && self@.queued(*key) && self@.tail(*key)
                    == self@.tails[i as int],
                None => !self@.queued(*key),
            },
    {
        let mut i: usize = 0;
        while i < self.tails.len()
            invariant
                self@.wf(),
                i <= self.tails.len(),
                forall|j: int| 0 <= j < i ==> !#[trigger] self@.has_tail(j, *key),
            decreases self.tails.len() - i,
        {
            if self.tails[i].key == *key {
                proof {
                    tail_is_unique(self@, *key, i as int);
                }
                return Some(i);
            }
            i += 1;
        }
        None
    }

    /// Queues a dispatch up behind the last one of its key: gives the generation
    /// of the new one and the task of the one to wait for.
    pub fn enqueue(&mut self, key: TypeKey, task: u64) -> (result: (u64, Option<u64>))
        requires
            old(self)@.wf(),
            old(self)@.queued(key) ==> old(self)@.tail(key).generation < u64::MAX,
        ensures
            final(self)@.wf(),
            final(self)@ == (BusModel { tails: final(self)@.tails, ..old(self)@ }),
            result == (if old(self)@.queued(key) {
                (
                    (old(self)@.tail(key).generation + 1) as u64,
                    Some(old(self)@.tail(key).task),
                )
            } else {
                (0, None)
            }),
            final(self)@.queued(key),
            final(self)@.tail(key) == (Tail { key, generation: result.0, task }),
            forall|other: TypeKey|
                !same_key(other, key) ==> #[trigger] same_tail(old(self)@, final(self)@, other),
    {
        let ghost before = self@;
        let (generation, prev) = match self.find_tail(&key) {
            Some(i) => {
                let generation: u64 = self.tails[i].generation;
                let task: u64 = self.tails[i].task;
                let _ = self.tails.remove(i);
                proof {
                    removed_tail(before, self@, i as int);
                }
                (generation + 1, Some(task))
            },
            None => (0u64, None),
        };
        let ghost mid = self@;
        self.tails.push(Tail { key, generation, task });
        proof {
            added_tail(mid, self@, Tail { key, generation, task });
            assert forall|other: TypeKey| !same_key(other, key) implies #[trigger] same_tail(
                before,
                self@,
                other,
            ) by {
                assert(same_tail(before, mid, other));
                assert(same_tail(mid, self@, other));
            }
        }
        (generation, prev)
    }

    /// A dispatch is over. Its entry goes, unless a later dispatch of the key
    /// has taken its place.
    pub fn dequeue(&mut self, key: &TypeKey, generation: u64)
        requires
            old(self)@.wf(),
        ensures
            final(self)@.wf(),
            final(self)@ == (BusModel { tails: final(self)@.tails, ..old(self)@ }),
            if old(self)@.queued(*key) && old(self)@.tail(*key).generation == generation {
                !final(self)@.queued(*key)
            } else {
                final(self)@ == old(self)@
            },
            forall|other: TypeKey|
                !same_key(other, *key) ==> #[trigger] same_tail(old(self)@, final(self)@, other),
    {
        let ghost before = self@;
        if let Some(i) = self.find_tail(key) {
            if self.tails[i].generation == generation {
                let _ = self.tails.remove(i);
                proof {
                    removed_tail(before, self@, i as int);
                }
                shrink_if_sparse(&mut self.tails);
            }
        }
    }
}

impl BusModel {
    /// Why a listener is refused: closure, inactivity, then the instance.
    pub open spec fn hook_refusal(self, m: SharedModel, ctx: Ctx, key: TypeKey) -> Option<
        CordisError,
    > {
        if m.key_refusal(ctx, key) is Some {
            m.key_refusal(ctx, key)
        } else if key.identity().instance is Some && self.root != m.nodes[0].instance {
            Some(CordisError::InstanceOutOfScope { instance: key.identity().instance->0 })
        } else {
            None
        }
    }

    /// Why a dispatch to an instance is refused: closure, inactivity, then the
    /// instance.
    pub open spec fn dispatch_refusal(self, m: SharedModel, ctx: Ctx, key: TypeKey) -> Option<
        CordisError,
    > {
        if m.closed_for(ctx) {
            Some(CordisError::Closed)
        } else if m.asleep(ctx) {
            Some(CordisError::InactiveEffect)
        } else if self.root != m.nodes[0].instance || !m.in_instance_key(ctx.node.fiber, key) {
            Some(CordisError::InstanceOutOfScope { instance: key.identity().instance->0 })
        } else {
            None
        }
    }

    /// The listeners that a dispatch of the key calls, in order.
    pub open spec fn callees(self, m: SharedModel, key: TypeKey) -> Seq<Hook> {
        let taken = hooks_of(listeners(self.hooks, key));
        m.called(taken, key.identity().instance is Some, taken.len())
    }

    /// The bus after a dispatch of the key has taken its listeners.
    pub open spec fn dispatched(self, key: TypeKey) -> BusModel {
        BusModel { hooks: self.hooks.filter(survives_dispatch(key)), ..self }
    }
}

proof fn listener_takes_an_id(
    before: BusModel,
    after: BusModel,
    entry: (TypeKey, Hook),
    prepend: bool,
)
    requires
        before.wf(),
        before.next < u64::MAX,
        entry.1.id == before.next,
        after == (BusModel {
            hooks: if prepend {
                seq![entry] + before.hooks
            } else {
                before.hooks.push(entry)
            },
            next: (before.next + 1) as u64,
            ..before
        }),
    ensures
        after.wf(),
{
    adding_takes_a_number(before.hooks, entry, entry_id(), before.next);
    assert forall|i: int, j: int|
        #![trigger after.hooks[i], after.wf_hooks[j]]
        0 <= i < after.hooks.len() && 0 <= j < after.wf_hooks.len() implies after.hooks[i].1.id
        != after.wf_hooks[j].1.id by {
        let other = before.wf_hooks[j];
        assert(entry_id()(other) < before.next);
        if prepend && i > 0 {
            assert(after.hooks[i] == before.hooks[i - 1]);
        } else if !prepend && i < before.hooks.len() {
            assert(after.hooks[i] == before.hooks[i]);
        } else {
            assert(after.hooks[i] == entry);
        }
    }
    assert(numbered(after.wf_hooks, entry_id(), after.next)) by {
        assert forall|i: int| 0 <= i < after.wf_hooks.len() implies entry_id()(
            #[trigger] after.wf_hooks[i],
        ) < after.next by {
            assert(entry_id()(before.wf_hooks[i]) < before.next);
        }
    }
}

proof fn wf_listener_takes_an_id(
    before: BusModel,
    after: BusModel,
    entry: (TypeKey, Hook),
    prepend: bool,
)
    requires
        before.wf(),
        before.next < u64::MAX,
        entry.1.id == before.next,
        after == (BusModel {
            wf_hooks: if prepend {
                seq![entry] + before.wf_hooks
            } else {
                before.wf_hooks.push(entry)
            },
            next: (before.next + 1) as u64,
            ..before
        }),
    ensures
        after.wf(),
{
    let turned = BusModel { hooks: before.wf_hooks, wf_hooks: before.hooks, ..before };
    let turned_after = BusModel { hooks: after.wf_hooks, wf_hooks: after.hooks, ..after };
    turning_keeps_ids(before);
    listener_takes_an_id(turned, turned_after, entry, prepend);
    turning_keeps_ids(turned_after);
}

/// Which table a listener is in does not matter for the ids.
proof fn turning_keeps_ids(m: BusModel)
    requires
        m.wf(),
    ensures
        (BusModel { hooks: m.wf_hooks, wf_hooks: m.hooks, ..m }).wf(),
{
    let turned = BusModel { hooks: m.wf_hooks, wf_hooks: m.hooks, ..m };
    assert forall|i: int, j: int|
        #![trigger turned.hooks[i], turned.wf_hooks[j]]
        0 <= i < turned.hooks.len() && 0 <= j < turned.wf_hooks.len() implies turned.hooks[i].1.id
        != turned.wf_hooks[j].1.id by {
        assert(m.hooks[j].1.id != m.wf_hooks[i].1.id);
    }
    assert forall|i: int, j: int|
        #![trigger turned.tails[i], turned.tails[j]]
        0 <= i < j < turned.tails.len() implies !same_key(
        turned.tails[i].key,
        turned.tails[j].key,
    ) by {
        assert(!same_key(m.tails[i].key, m.tails[j].key));
    }
}

proof fn fewer_listeners(
    before: BusModel,
    after: BusModel,
    keep: spec_fn((TypeKey, Hook)) -> bool,
)
    requires
        before.wf(),
        after == (BusModel { hooks: before.hooks.filter(keep), ..before }),
    ensures
        after.wf(),
{
    filtering_keeps_numbers(before.hooks, keep, entry_id(), before.next);
    assert forall|i: int, j: int|
        #![trigger after.hooks[i], after.wf_hooks[j]]
        0 <= i < after.hooks.len() && 0 <= j < after.wf_hooks.len() implies after.hooks[i].1.id
        != after.wf_hooks[j].1.id by {
        assert(before.hooks.contains(before.hooks.filter(keep)[i]));
        let p = before.hooks.index_of(after.hooks[i]);
        assert(before.hooks[p].1.id != before.wf_hooks[j].1.id);
    }
}

proof fn fewer_wf_listeners(
    before: BusModel,
    after: BusModel,
    keep: spec_fn((TypeKey, Hook)) -> bool,
)
    requires
        before.wf(),
        after == (BusModel { wf_hooks: before.wf_hooks.filter(keep), ..before }),
    ensures
        after.wf(),
{
    let turned = BusModel { hooks: before.wf_hooks, wf_hooks: before.hooks, ..before };
    let turned_after = BusModel { hooks: after.wf_hooks, wf_hooks: after.hooks, ..after };
    turning_keeps_ids(before);
    fewer_listeners(turned, turned_after, keep);
    turning_keeps_ids(turned_after);
}

proof fn removed_tail(before: BusModel, after: BusModel, i: int)
    requires
        before.wf(),
        0 <= i < before.tails.len(),
        after == (BusModel { tails: before.tails.remove(i), ..before }),
    ensures
        after.wf(),
        !after.queued(before.tails[i].key),
        forall|other: TypeKey|
            !same_key(other, before.tails[i].key) ==> #[trigger] same_tail(before, after, other),
{
    let key = before.tails[i].key;
    let from = |j: int| if j < i { j } else { j + 1 };
    assert forall|a: int, b: int|
        #![trigger after.tails[a], after.tails[b]]
        0 <= a < b < after.tails.len() implies !same_key(after.tails[a].key, after.tails[b].key) by {
        assert(after.tails[a] == before.tails[from(a)]);
        assert(after.tails[b] == before.tails[from(b)]);
    }
    assert forall|a: int| !#[trigger] after.has_tail(a, key) by {
        if after.has_tail(a, key) {
            assert(after.tails[a] == before.tails[from(a)]);
            assert(before.has_tail(from(a), key));
            if from(a) < i {
                assert(same_key(before.tails[from(a)].key, before.tails[i].key));
            } else {
                assert(same_key(before.tails[i].key, before.tails[from(a)].key));
            }
        }
    }
    assert forall|other: TypeKey| !same_key(other, key) implies #[trigger] same_tail(
        before,
        after,
        other,
    ) by {
        if after.queued(other) {
            let a = choose|a: int| #[trigger] after.has_tail(a, other);
            assert(after.tails[a] == before.tails[from(a)]);
            assert(before.has_tail(from(a), other));
        }
        if before.queued(other) {
            let p = choose|p: int| #[trigger] before.has_tail(p, other);
            assert(p != i);
            let q = if p < i {
                p
            } else {
                p - 1
            };
            assert(after.tails[q] == before.tails[p]);
            assert(after.has_tail(q, other));
            tail_is_unique(after, other, q);
            tail_is_unique(before, other, p);
        }
    }
}

proof fn added_tail(before: BusModel, after: BusModel, tail: Tail)
    requires
        before.wf(),
        !before.queued(tail.key),
        after == (BusModel { tails: before.tails.push(tail), ..before }),
    ensures
        after.wf(),
        after.queued(tail.key),
        after.tail(tail.key) == tail,
        forall|other: TypeKey|
            !same_key(other, tail.key) ==> #[trigger] same_tail(before, after, other),
{
    let n = before.tails.len() as int;
    assert forall|a: int, b: int|
        #![trigger after.tails[a], after.tails[b]]
        0 <= a < b < after.tails.len() implies !same_key(after.tails[a].key, after.tails[b].key) by {
        if b == n {
            assert(!before.has_tail(a, tail.key));
        }
    }
    assert(after.has_tail(n, tail.key));
    tail_is_unique(after, tail.key, n);
    assert forall|other: TypeKey| !same_key(other, tail.key) implies #[trigger] same_tail(
        before,
        after,
        other,
    ) by {
        if after.queued(other) {
            let a = choose|a: int| #[trigger] after.has_tail(a, other);
            assert(a != n);
            assert(before.has_tail(a, other));
        }
        if before.queued(other) {
            let p = choose|p: int| #[trigger] before.has_tail(p, other);
            assert(after.has_tail(p, other));
            tail_is_unique(after, other, p);
            tail_is_unique(before, other, p);
        }
    }
}

} // verus!
