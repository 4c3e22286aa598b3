//! Who may register what: the rules that every registration passes, and the
//! registrations themselves.

use crate::ctx::Ctx;
use crate::effect::{fresh_record, Effect, EffectRecord};
use crate::error::CordisError;
use crate::fiber::{FiberIx, FiberModel, FiberState, RecordId};
use crate::key::{InstanceId, TypeKey};
use crate::shared::{Shared, SharedModel};
use vstd::prelude::*;

verus! {

broadcast use crate::shared::fiber_is_viewed;

impl SharedModel {
    /// The fiber with the instance `id` on the way from fiber `i` to the root,
    /// over fibers that are still there.
    pub open spec fn owner_of(self, i: FiberIx, id: InstanceId) -> Option<FiberIx>
        decreases i,
    {
        if !self.has(i) || !self.fiber(i).held {
            None
        } else if self.nodes[i as int].instance == id {
            Some(i)
        } else {
            match self.nodes[i as int].parent {
                Some(p) => if p < i {
                    self.owner_of(p, id)
                } else {
                    None
                },
                None => None,
            }
        }
    }

    /// The fiber of the context or of one of the contexts it was made from has
    /// been closed.
    pub open spec fn closed_above(self, ctx: Ctx) -> bool
        decreases ctx,
    {
        ||| self.has(ctx.node.fiber) && self.fiber(ctx.node.fiber).closing
        ||| ctx.node.parent matches Some(parent) && self.closed_above(parent)
    }

    /// Everything has been closed, or the part that the context is in.
    pub open spec fn closed_for(self, ctx: Ctx) -> bool {
        self.closing || self.closed_above(ctx)
    }

    /// The fiber of the context is still there.
    pub open spec fn present(self, ctx: Ctx) -> bool {
        self.has(ctx.node.fiber) && self.fiber(ctx.node.fiber).held
    }

    /// The context's fiber is gone or on its way out.
    pub open spec fn asleep(self, ctx: Ctx) -> bool {
        !self.present(ctx) || self.fiber(ctx.node.fiber).state().over()
    }

    /// The state of the context's fiber forbids registrations, closure aside.
    pub open spec fn inactivity(self, ctx: Ctx) -> Option<CordisError> {
        if self.asleep(ctx) {
            Some(CordisError::InactiveEffect)
        } else {
            let f = self.fiber(ctx.node.fiber);
            if f.trans.generation != ctx.node.generation {
                Some(
                    CordisError::StaleGeneration {
                        generation: ctx.node.generation,
                        current: f.trans.generation,
                    },
                )
            } else if f.state() != FiberState::Loading && f.state() != FiberState::Active {
                Some(
                    CordisError::InactiveGeneration {
                        generation: ctx.node.generation,
                        state: f.state(),
                    },
                )
            } else {
                None
            }
        }
    }

    /// Why a registration through the context is refused: closure comes first,
    /// then inactivity.
    pub open spec fn refusal(self, ctx: Ctx) -> Option<CordisError> {
        if self.closed_for(ctx) {
            Some(CordisError::Closed)
        } else {
            self.inactivity(ctx)
        }
    }

    /// Why an operation on an instance's key is refused: closure, inactivity,
    /// then the instance.
    pub open spec fn key_refusal(self, ctx: Ctx, key: TypeKey) -> Option<CordisError> {
        if self.refusal(ctx) is Some {
            self.refusal(ctx)
        } else if !self.in_instance_key(ctx.node.fiber, key) {
            Some(CordisError::InstanceOutOfScope { instance: key.identity().instance->0 })
        } else {
            None
        }
    }

    /// Why a cleanup factory is not run: as `refusal`, except that a fiber that
    /// is being assembled can still register cleanups after it was closed.
    pub open spec fn effect_refusal(self, ctx: Ctx) -> Option<CordisError> {
        if self.closing || (self.closed_above(ctx) && !(self.present(ctx) && self.fiber(
            ctx.node.fiber,
        ).state() == FiberState::Loading)) {
            Some(CordisError::Closed)
        } else {
            self.inactivity(ctx)
        }
    }
}

impl Ctx {
    pub fn subtree_closing(&self, shared: &Shared) -> (yes: bool)
        ensures
            yes == shared@.closed_above(*self),
        decreases *self,
    {
        let i: usize = self.node.fiber;
        if i < shared.fibers.len() && shared.fibers[i].closing {
            return true;
        }
        match &self.node.parent {
            Some(parent) => parent.subtree_closing(shared),
            None => false,
        }
    }

    pub fn registration_open(&self, shared: &Shared) -> (result: Result<(), CordisError>)
        ensures
            result == (if shared@.closed_for(*self) {
                Err::<(), CordisError>(CordisError::Closed)
            } else {
                Ok(())
            }),
    {
        if shared.closing || self.subtree_closing(shared) {
            Err(CordisError::Closed)
        } else {
            Ok(())
        }
    }

    /// Whether the context's fiber is there and not on its way out.
    pub fn is_asleep(&self, shared: &Shared) -> (yes: bool)
        ensures
            yes == shared@.asleep(*self),
    {
        let i: usize = self.node.fiber;
        if i >= shared.fibers.len() || !shared.fibers[i].held {
            return true;
        }
        assert(shared@.fibers[i as int] == shared.fibers@[i as int]@);
        shared.fibers[i].trans.state.is_over()
    }

    /// Whether the context's fiber takes registrations, closure aside.
    pub fn active(&self, shared: &Shared) -> (result: Result<(), CordisError>)
        ensures
            result == (match shared@.inactivity(*self) {
                Some(e) => Err::<(), CordisError>(e),
                None => Ok(()),
            }),
    {
        if self.is_asleep(shared) {
            return Err(CordisError::InactiveEffect);
        }
        let i: usize = self.node.fiber;
        assert(shared@.fibers[i as int] == shared.fibers@[i as int]@);
        let state = shared.fibers[i].trans.state;
        let current: u64 = shared.fibers[i].trans.generation;
        if current != self.node.generation {
            return Err(CordisError::StaleGeneration { generation: self.node.generation, current });
        }
        if state != FiberState::Loading && state != FiberState::Active {
            return Err(CordisError::InactiveGeneration { generation: self.node.generation, state });
        }
        Ok(())
    }

    /// Whether anything can be registered through the context.
    pub fn registration_preflight(&self, shared: &Shared) -> (result: Result<(), CordisError>)
        ensures
            result == (match shared@.refusal(*self) {
                Some(e) => Err::<(), CordisError>(e),
                None => Ok(()),
            }),
    {
        if shared.closing || self.subtree_closing(shared) {
            return Err(CordisError::Closed);
        }
        self.active(shared)
    }

    /// Whether the key's instance, if it has one, is on the context's way to the
    /// root.
    pub fn check_instance(&self, shared: &Shared, key: &TypeKey) -> (result: Result<(), CordisError>)
        requires
            shared@.wf(),
        ensures
            result == (if shared@.in_instance_key(self.node.fiber, *key) {
                Ok::<(), CordisError>(())
            } else {
                Err(CordisError::InstanceOutOfScope { instance: key.identity().instance->0 })
            }),
    {
        if let Some(id) = key.instance_id() {
            if !shared.in_instance(self.node.fiber, id) {
                return Err(CordisError::InstanceOutOfScope { instance: id });
            }
        }
        Ok(())
    }

    /// The preflight of an operation on a key.
    pub fn key_preflight(&self, shared: &Shared, key: &TypeKey) -> (result: Result<(), CordisError>)
        requires
            shared@.wf(),
        ensures
            result == (match shared@.key_refusal(*self, *key) {
                Some(e) => Err::<(), CordisError>(e),
                None => Ok(()),
            }),
    {
        match self.registration_preflight(shared) {
            Ok(()) => self.check_instance(shared, key),
            Err(e) => Err(e),
        }
    }

    /// The owner of an instance on the context's way to the root.
    pub fn instance_owner(&self, shared: &Shared, id: InstanceId) -> (owner: Option<FiberIx>)
        requires
            shared@.wf(),
        ensures
            owner == shared@.owner_of(self.node.fiber, id),
    {
        shared.instance_owner(self.node.fiber, id)
    }

    /// The context in which the current generation of fiber `i` is assembled.
    pub fn of_generation(shared: &Shared, i: FiberIx) -> (ctx: Ctx)
        requires
            shared@.has(i),
            shared@.wf(),
        ensures
            ctx.node.parent == Some(shared@.nodes[i as int].ctx),
            ctx.node.fiber == i,
            ctx.node.plugin_id == shared@.fiber(i).id,
            ctx.node.instance == shared@.nodes[i as int].instance,
            ctx.node.generation == shared@.fiber(i).trans.generation,
            ctx.node.isolate is None,
    {
        Ctx::new_child(
            Some(&shared.nodes[i].ctx),
            i,
            shared.fibers[i].id,
            shared.nodes[i].instance,
            shared.fibers[i].trans.generation,
        )
    }

    /// Whether the generation that the context was made for has been cancelled:
    /// by request, by a later generation, or by the end of the fiber.
    pub fn is_cancelled(&self, shared: &Shared) -> (yes: bool)
        ensures
            yes == (!shared@.present(*self) || shared@.fiber(self.node.fiber).trans.generation
                != self.node.generation || shared@.fiber(self.node.fiber).cancelled),
    {
        let i: usize = self.node.fiber;
        if i >= shared.fibers.len() || !shared.fibers[i].held {
            return true;
        }
        assert(shared@.fibers[i as int] == shared.fibers@[i as int]@);
        shared.fibers[i].trans.generation != self.node.generation || shared.fibers[i].cancelled
    }
}

/// How a cleanup factory's result was taken.
pub enum EffectCommit {
    /// The fiber owns the record.
    Registered(RecordId),
    /// The fiber went on to unload while the factory ran: the record is to be
    /// drained at once, and the registration has failed.
    Late(RecordId),
}

impl Shared {
    fn instance_owner(&self, i: FiberIx, id: InstanceId) -> (owner: Option<FiberIx>)
        requires
            self@.wf(),
        ensures
            owner == self@.owner_of(i, id),
        decreases i,
    {
        if i >= self.fibers.len() || !self.fibers[i].held {
            return None;
        }
        assert(self.fibers@[i as int]@ == self@.fiber(i));
        if self.nodes[i].instance == id {
            return Some(i);
        }
        match self.nodes[i].parent {
            Some(p) => {
                assert(p < i);
                self.instance_owner(p, id)
            },
            None => None,
        }
    }

    /// Asks for the run of a cleanup factory. Until `commit_effect` or
    /// `drop_lease`, the end of the fiber waits for it.
    pub fn begin_effect(&mut self, ctx: &Ctx) -> (result: Result<(), CordisError>)
        requires
            old(self)@.present(*ctx) ==> old(self)@.fiber(ctx.node.fiber).flights < usize::MAX,
        ensures
            old(self)@.wf() ==> final(self)@.wf(),
            match old(self)@.effect_refusal(*ctx) {
                Some(e) => result == Err::<(), CordisError>(e) && final(self)@ == old(self)@,
                None => result is Ok && final(self)@ == old(self)@.put(
                    ctx.node.fiber,
                    FiberModel {
                        flights: (old(self)@.fiber(ctx.node.fiber).flights + 1) as usize,
                        ..old(self)@.fiber(ctx.node.fiber)
                    },
                ),
            },
    {
        let ghost before = self@;
        let i: usize = ctx.node.fiber;
        let loading = i < self.fibers.len() && self.fibers[i].held && self.fibers[i].trans.state
            == FiberState::Loading;
        if self.closing || (ctx.subtree_closing(self) && !loading) {
            return Err(CordisError::Closed);
        }
        match ctx.active(self) {
            Ok(()) => {},
            Err(e) => {
                return Err(e);
            },
        }
        self.fibers[i].begin_event();
        assert(self@.fibers =~= before.put(
            i,
            FiberModel {
                flights: (before.fiber(i).flights + 1) as usize,
                ..before.fiber(i)
            },
        ).fibers);
        Ok(())
    }

    /// Takes the result of a cleanup factory that was asked for through `ctx`.
    pub fn commit_effect(&mut self, ctx: &Ctx, label: String, effect: &Effect) -> (result: EffectCommit)
        requires
            old(self)@.has(ctx.node.fiber),
            old(self)@.fiber(ctx.node.fiber).flights > 0,
        ensures
            old(self)@.wf() ==> final(self)@.wf(),
            final(self)@.records.len() == old(self)@.records.len() + 1,
            fresh_record(final(self)@.records.last(), *effect, label@, ctx.node.fiber),
            if old(self)@.fiber(ctx.node.fiber).state().over() {
                &&& result == EffectCommit::Late(old(self)@.records.len() as usize)
                &&& final(self)@ == (SharedModel {
                    records: old(self)@.records.push(final(self)@.records.last()),
                    ..old(self)@
                })
            } else {
                let i = ctx.node.fiber;
                &&& result == EffectCommit::Registered(old(self)@.records.len() as usize)
                &&& final(self)@ == old(self)@.with_effect(i, final(self)@.records.last()).landed(i)
            },
    {
        let ghost before = self@;
        let i: usize = ctx.node.fiber;
        if self.fibers[i].trans.state.is_over() {
            let record = EffectRecord::new(effect, label, i);
            let id: usize = self.records.len();
            let ghost model = record@;
            self.records.push(record);
            assert(self@.records =~= before.records.push(model));
            assert(self@.fibers =~= before.fibers);
            return EffectCommit::Late(id);
        }
        let id = self.push_effect(i, effect, label);
        self.drop_lease(i);
        EffectCommit::Registered(id)
    }

    /// One callback less in flight.
    pub fn drop_lease(&mut self, i: FiberIx)
        requires
            old(self)@.has(i),
            old(self)@.fiber(i).flights > 0,
        ensures
            old(self)@.wf() ==> final(self)@.wf(),
            final(self)@ == old(self)@.landed(i),
    {
        let ghost before = self@;
        self.fibers[i].finish_event();
        assert(self@.fibers =~= before.landed(i).fibers);
    }

    /// Registers a cleanup of the runtime's own, at one point in time.
    pub fn register_internal_effect_named(
        &mut self,
        ctx: &Ctx,
        label: String,
        effect: &Effect,
    ) -> (result: Result<RecordId, CordisError>)
        ensures
            old(self)@.wf() ==> final(self)@.wf(),
            match old(self)@.refusal(*ctx) {
                Some(e) => result == Err::<RecordId, CordisError>(e) && final(self)@ == old(self)@,
                None => {
                    &&& result == Ok::<RecordId, CordisError>(old(self)@.records.len() as usize)
                    &&& final(self)@.records.len() == old(self)@.records.len() + 1
                    &&& fresh_record(final(self)@.records.last(), *effect, label@, ctx.node.fiber)
                    &&& final(self)@ == old(self)@.with_effect(
                        ctx.node.fiber,
                        final(self)@.records.last(),
                    )
                },
            },
    {
        match ctx.registration_preflight(self) {
            Ok(()) => {},
            Err(e) => {
                return Err(e);
            },
        }
        Ok(self.push_effect(ctx.node.fiber, effect, label))
    }
}

impl SharedModel {
    /// One callback less in flight on fiber `i`.
    pub open spec fn landed(self, i: FiberIx) -> SharedModel {
        self.put(
            i,
            FiberModel { flights: (self.fiber(i).flights - 1) as usize, ..self.fiber(i) },
        )
    }
}

/// A closed context is told so, whatever else is wrong with it; an inactive one
/// is told so, whatever the key.
pub proof fn refusals_have_one_precedence(m: SharedModel, ctx: Ctx, key: TypeKey)
    ensures
        m.closed_for(ctx) ==> m.key_refusal(ctx, key) == Some(CordisError::Closed),
        !m.closed_for(ctx) && m.inactivity(ctx) is Some ==> m.key_refusal(ctx, key)
            == m.inactivity(ctx),
        m.key_refusal(ctx, key) matches Some(CordisError::InstanceOutOfScope { .. }) ==> m.refusal(
            ctx,
        ) is None,
{
}

/// A context of an earlier generation registers nothing any more.
pub proof fn earlier_generations_register_nothing(m: SharedModel, ctx: Ctx)
    requires
        m.present(ctx),
        m.fiber(ctx.node.fiber).trans.generation != ctx.node.generation,
    ensures
        m.refusal(ctx) is Some,
        m.effect_refusal(ctx) is Some,
{
}

} // verus!
