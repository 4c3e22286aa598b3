//! The service registry: which value is bound to a key in a scope, and which
//! fibers wait for which keys.

use crate::diagnostics::{BindingDiagnostics, DependencyStatus};
use crate::error::CordisError;
use crate::fiber::{FiberIx, FiberState, PluginId};
use crate::key::{clone_scope, same_key, same_scope, scope_eq, ScopeId, TypeKey};
use crate::list::{filter_empty, filter_step, whole};
use vstd::prelude::*;

verus! {

/// Handle of a service value that the surroundings keep.
pub type ValueId = u64;

/// How the last readiness check of a binding ended.
#[derive(Debug, Clone, Copy, PartialEq, Eq, Structural)]
pub enum CheckOutcome {
    Passed,
    Rejected,
    Panicked,
}

/// One registration of a value. No two registrations share an id.
#[derive(Debug, Clone, Copy, PartialEq, Eq, Structural)]
pub struct Binding {
    pub id: u64,
    pub value: ValueId,
    pub mutable: bool,
    pub provider: FiberIx,
    pub provider_id: PluginId,
    pub provider_gen: u64,
    pub has_check: bool,
    pub check_status: Option<CheckOutcome>,
    pub removing: bool,
}

/// A key and scope with what is bound to them.
pub struct Slot {
    pub key: TypeKey,
    pub scope: Option<ScopeId>,
    pub binding: Binding,
}

pub struct Registry {
    pub slots: Vec<Slot>,
    /// Which fiber waits for which key.
    pub inject_index: Vec<(TypeKey, FiberIx)>,
    pub next_binding: u64,
}

/// `Registry`, with its lists as sequences.
pub struct RegistryModel {
    pub slots: Seq<Slot>,
    pub index: Seq<(TypeKey, FiberIx)>,
    pub next: u64,
}

impl View for Registry {
    type V = RegistryModel;

    open spec fn view(&self) -> RegistryModel {
        RegistryModel {
            slots: self.slots@,
            index: self.inject_index@,
            next: self.next_binding,
        }
    }
}

/// The slot at `i` is the one of the key and scope.
pub open spec fn is_slot(slots: Seq<Slot>, i: int, key: TypeKey, scope: Option<ScopeId>) -> bool {
    &&& 0 <= i < slots.len()
    &&& same_key(slots[i].key, key)
    &&& same_scope(slots[i].scope, scope)
}

impl RegistryModel {
    /// A key and scope have at most one slot, and ids of bindings are not used
    /// twice.
    pub open spec fn wf(self) -> bool {
        &&& forall|i: int, j: int|
            #![trigger self.slots[i], self.slots[j]]
            0 <= i < j < self.slots.len() ==> !(same_key(self.slots[i].key, self.slots[j].key)
                && same_scope(self.slots[i].scope, self.slots[j].scope))
        &&& forall|i: int|
            0 <= i < self.slots.len() ==> (#[trigger] self.slots[i]).binding.id < self.next
        &&& forall|i: int, j: int|
            #![trigger self.slots[i], self.slots[j]]
            0 <= i < j < self.slots.len() ==> self.slots[i].binding.id != self.slots[j].binding.id
    }

    /// Whether anything is bound to the key in the scope.
    pub open spec fn occupied(self, key: TypeKey, scope: Option<ScopeId>) -> bool {
        exists|i: int| #[trigger] is_slot(self.slots, i, key, scope)
    }

    /// Where the key and scope have their slot.
    pub open spec fn place(self, key: TypeKey, scope: Option<ScopeId>) -> int {
        choose|i: int| #[trigger] is_slot(self.slots, i, key, scope)
    }

    /// What is bound to the key in the scope.
    pub open spec fn bound(self, key: TypeKey, scope: Option<ScopeId>) -> Option<Binding> {
        if self.occupied(key, scope) {
            Some(self.slots[self.place(key, scope)].binding)
        } else {
            None
        }
    }

    /// The binding with this id is the one bound to the key in the scope.
    pub open spec fn is_current(self, key: TypeKey, scope: Option<ScopeId>, id: u64) -> bool {
        self.bound(key, scope) matches Some(b) && b.id == id
    }

    /// The registry with another binding in the slot of the key and scope.
    pub open spec fn rebound(
        self,
        key: TypeKey,
        scope: Option<ScopeId>,
        binding: Binding,
    ) -> RegistryModel {
        let i = self.place(key, scope);
        RegistryModel {
            slots: self.slots.update(i, Slot { binding, ..self.slots[i] }),
            ..self
        }
    }

    /// A readiness check of the binding `id` has ended; only the binding that is
    /// bound to the key in the scope takes note.
    pub open spec fn checked(
        self,
        key: TypeKey,
        scope: Option<ScopeId>,
        id: u64,
        outcome: CheckOutcome,
    ) -> RegistryModel {
        if self.is_current(key, scope, id) {
            self.rebound(
                key,
                scope,
                Binding { check_status: Some(outcome), ..self.bound(key, scope)->0 },
            )
        } else {
            self
        }
    }

    /// Whether a fiber waits for a key.
    pub open spec fn waits(self, key: TypeKey, ix: FiberIx) -> bool {
        exists|i: int|
            0 <= i < self.index.len() && same_key((#[trigger] self.index[i]).0, key)
                && self.index[i].1 == ix
    }
}

impl RegistryModel {
    /// With a fresh binding in the slot of the key and scope.
    pub open spec fn inserted(
        self,
        key: TypeKey,
        scope: Option<ScopeId>,
        binding: Binding,
    ) -> RegistryModel {
        let fresh = Binding { id: self.next, ..binding };
        let bumped = RegistryModel { next: (self.next + 1) as u64, ..self };
        if self.occupied(key, scope) {
            bumped.rebound(key, scope, fresh)
        } else {
            RegistryModel { slots: self.slots.push(Slot { key, scope, binding: fresh }), ..bumped }
        }
    }

    /// Something that is not on its way out is bound to the key in the scope.
    pub open spec fn taken(self, key: TypeKey, scope: Option<ScopeId>) -> bool {
        self.bound(key, scope) matches Some(b) && !b.removing
    }

    /// With a fiber waiting for a key.
    pub open spec fn with_waiter(self, key: TypeKey, ix: FiberIx) -> RegistryModel {
        if self.waits(key, ix) {
            self
        } else {
            RegistryModel { index: self.index.push((key, ix)), ..self }
        }
    }
}

/// In a well-formed registry the slot of a key and scope is unique.
pub proof fn slot_is_unique(m: RegistryModel, key: TypeKey, scope: Option<ScopeId>, i: int)
    requires
        m.wf(),
        is_slot(m.slots, i, key, scope),
    ensures
        m.occupied(key, scope),
        m.place(key, scope) == i,
{
    let p = m.place(key, scope);
    assert(is_slot(m.slots, p, key, scope));
    if p < i {
        assert(same_key(m.slots[p].key, m.slots[i].key));
    } else if i < p {
        assert(same_key(m.slots[i].key, m.slots[p].key));
    }
}

/// What a binding is good for while its provider is in the given state, by what
/// is known without asking its readiness check again.
pub open spec fn status_of(binding: Binding, provider: FiberState) -> DependencyStatus {
    if binding.removing {
        DependencyStatus::Removing
    } else if provider != FiberState::Active {
        DependencyStatus::ProviderInactive(provider)
    } else if !binding.has_check {
        DependencyStatus::Ready
    } else {
        match binding.check_status {
            None => DependencyStatus::CheckPending,
            Some(CheckOutcome::Rejected) => DependencyStatus::CheckRejected,
            Some(CheckOutcome::Panicked) => DependencyStatus::CheckPanicked,
            Some(CheckOutcome::Passed) => DependencyStatus::Ready,
        }
    }
}

pub fn binding_status(binding: &Binding, provider: FiberState) -> (status: DependencyStatus)
    ensures
        status == status_of(*binding, provider),
{
    if binding.removing {
        DependencyStatus::Removing
    } else if provider != FiberState::Active {
        DependencyStatus::ProviderInactive(provider)
    } else if !binding.has_check {
        DependencyStatus::Ready
    } else {
        match binding.check_status {
            None => DependencyStatus::CheckPending,
            Some(CheckOutcome::Rejected) => DependencyStatus::CheckRejected,
            Some(CheckOutcome::Panicked) => DependencyStatus::CheckPanicked,
            Some(CheckOutcome::Passed) => DependencyStatus::Ready,
        }
    }
}

/// Everything in the index but what the fiber waits for.
pub open spec fn of_others(ix: FiberIx) -> spec_fn((TypeKey, FiberIx)) -> bool {
    |entry: (TypeKey, FiberIx)| entry.1 != ix
}

impl Registry {
    pub fn new() -> (registry: Self)
        ensures
            registry@.wf(),
            registry@ == (RegistryModel { slots: Seq::empty(), index: Seq::empty(), next: 0 }),
    {
        Registry { slots: Vec::new(), inject_index: Vec::new(), next_binding: 0 }
    }

    fn find(&self, key: &TypeKey, scope: &Option<ScopeId>) -> (at: Option<usize>)
        requires
            self@.wf(),
        ensures
            match at {
                Some(i) => is_slot(self@.slots, i as int, *key, *scope) && self@.occupied(*key, *scope)
                    && self@.place(*key, *scope) == i,
                None => !self@.occupied(*key, *scope),
            },
    {
        let mut i: usize = 0;
        while i < self.slots.len()
            invariant
                i <= self.slots.len(),
                self@.wf(),
                forall|j: int| 0 <= j < i ==> !#[trigger] is_slot(self@.slots, j, *key, *scope),
            decreases self.slots.len() - i,
        {
            if self.slots[i].key == *key && scope_eq(&self.slots[i].scope, scope) {
                proof {
                    slot_is_unique(self@, *key, *scope, i as int);
                }
                return Some(i);
            }
            i += 1;
        }
        None
    }

    /// What is bound to the key in the scope.
    pub fn lookup(&self, key: &TypeKey, scope: &Option<ScopeId>) -> (binding: Option<Binding>)
        requires
            self@.wf(),
        ensures
            binding == self@.bound(*key, *scope),
    {
        match self.find(key, scope) {
            Some(i) => Some(self.slots[i].binding),
            None => None,
        }
    }

    /// Binds a value. A slot that is taken by a binding which is not on its way
    /// out is left alone, and the attempt fails. The binding gets a fresh id.
    pub fn insert_binding(
        &mut self,
        key: TypeKey,
        scope: Option<ScopeId>,
        binding: Binding,
    ) -> (result: Result<u64, CordisError>)
        requires
            old(self)@.wf(),
            old(self)@.next < u64::MAX,
        ensures
            final(self)@.wf(),
            if old(self)@.taken(key, scope) {
                &&& final(self)@ == old(self)@
                &&& result matches Err(CordisError::ServiceExists(name))
                &&& name@ == key.description()
            } else {
                &&& result == Ok::<u64, CordisError>(old(self)@.next)
                &&& final(self)@ == old(self)@.inserted(key, scope, binding)
            },
            result is Ok ==> final(self)@.bound(key, scope) == Some(
                Binding { id: old(self)@.next, ..binding },
            ),
    {
        let id: u64 = self.next_binding;
        let fresh = Binding { id, ..binding };
        match self.find(&key, &scope) {
            Some(i) => {
                if !self.slots[i].binding.removing {
                    return Err(CordisError::ServiceExists(key.describe()));
                }
                self.next_binding = id + 1;
                let ghost before = self@;
                self.slots[i].binding = fresh;
                assert(self@.slots =~= before.slots.update(
                    i as int,
                    Slot { binding: fresh, ..before.slots[i as int] },
                ));
                proof {
                    slot_is_unique(self@, key, scope, i as int);
                }
            },
            None => {
                self.next_binding = id + 1;
                let ghost before = self@;
                self.slots.push(Slot { key, scope, binding: fresh });
                let ghost n = before.slots.len() as int;
                proof {
                    assert forall|i: int, j: int|
                        #![trigger self@.slots[i], self@.slots[j]]
                        0 <= i < j < self@.slots.len() implies !(same_key(
                        self@.slots[i].key,
                        self@.slots[j].key,
                    ) && same_scope(self@.slots[i].scope, self@.slots[j].scope)) by {
                        if j == n {
                            assert(!is_slot(before.slots, i, key, scope));
                        }
                    }
                    assert(is_slot(self@.slots, n, key, scope));
                    slot_is_unique(self@, key, scope, n);
                }
            },
        }
        Ok(id)
    }

    /// Marks the binding `id` as on its way out, if it is still the one bound
    /// to the key in the scope.
    pub fn mark_removing_if(&mut self, key: &TypeKey, scope: &Option<ScopeId>, id: u64)
        requires
            old(self)@.wf(),
        ensures
            final(self)@.wf(),
            old(self)@.is_current(*key, *scope, id) ==> final(self)@ == old(self)@.rebound(
                *key,
                *scope,
                Binding { removing: true, ..old(self)@.bound(*key, *scope)->0 },
            ),
            !old(self)@.is_current(*key, *scope, id) ==> final(self)@ == old(self)@,
    {
        if let Some(i) = self.find(key, scope) {
            if self.slots[i].binding.id == id {
                let ghost before = self@;
                self.slots[i].binding.removing = true;
                assert(self@.slots =~= before.slots.update(
                    i as int,
                    Slot {
                        binding: Binding { removing: true, ..before.slots[i as int].binding },
                        ..before.slots[i as int]
                    },
                ));
            }
        }
    }

    /// Takes the binding `id` out, if it is still the one bound to the key in
    /// the scope.
    pub fn finalize_binding_if(&mut self, key: &TypeKey, scope: &Option<ScopeId>, id: u64)
        requires
            old(self)@.wf(),
        ensures
            final(self)@.wf(),
            old(self)@.is_current(*key, *scope, id) ==> final(self)@ == (RegistryModel {
                slots: old(self)@.slots.remove(old(self)@.place(*key, *scope)),
                ..old(self)@
            }) && !final(self)@.occupied(*key, *scope),
            !old(self)@.is_current(*key, *scope, id) ==> final(self)@ == old(self)@,
    {
        if let Some(i) = self.find(key, scope) {
            if self.slots[i].binding.id == id {
                let ghost before = self@;
                let _ = self.slots.remove(i);
                proof {
                    let after = self@.slots;
                    assert(after =~= before.slots.remove(i as int));
                    let from = |j: int| if j < i { j } else { j + 1 };
                    assert forall|a: int, b: int|
                        #![trigger after[a], after[b]]
                        0 <= a < b < after.len() implies !(same_key(after[a].key, after[b].key)
                        && same_scope(after[a].scope, after[b].scope)) && after[a].binding.id
                        != after[b].binding.id by {
                        assert(after[a] == before.slots[from(a)]);
                        assert(after[b] == before.slots[from(b)]);
                    }
                    assert forall|a: int| 0 <= a < after.len() implies (
                    #[trigger] after[a]).binding.id < before.next by {
                        assert(after[a] == before.slots[from(a)]);
                    }
                    assert forall|a: int| !#[trigger] is_slot(after, a, *key, *scope) by {
                        if is_slot(after, a, *key, *scope) {
                            assert(after[a] == before.slots[from(a)]);
                            assert(is_slot(before.slots, from(a), *key, *scope));
                            slot_is_unique(before, *key, *scope, from(a));
                        }
                    }
                }
            }
        }
    }

    /// Replaces the value of the mutable binding `id`, if it is still the one
    /// bound to the key in the scope and not on its way out, and hands back the
    /// old value.
    pub fn replace_mutable_if_current(
        &mut self,
        key: &TypeKey,
        scope: &Option<ScopeId>,
        id: u64,
        value: ValueId,
    ) -> (old_value: Option<ValueId>)
        requires
            old(self)@.wf(),
        ensures
            final(self)@.wf(),
            match old(self)@.bound(*key, *scope) {
                Some(b) if b.id == id && b.mutable && !b.removing => {
                    &&& old_value == Some(b.value)
                    &&& final(self)@ == old(self)@.rebound(*key, *scope, Binding { value, ..b })
                },
                _ => old_value is None && final(self)@ == old(self)@,
            },
    {
        if let Some(i) = self.find(key, scope) {
            let b = self.slots[i].binding;
            if b.id == id && b.mutable && !b.removing {
                let ghost before = self@;
                self.slots[i].binding.value = value;
                assert(self@.slots =~= before.slots.update(
                    i as int,
                    Slot { binding: Binding { value, ..b }, ..before.slots[i as int] },
                ));
                return Some(b.value);
            }
        }
        None
    }

    /// Stores how the readiness check of the binding `id` ended, if that binding
    /// is still the one bound to the key in the scope.
    pub fn record_check(
        &mut self,
        key: &TypeKey,
        scope: &Option<ScopeId>,
        id: u64,
        outcome: CheckOutcome,
    )
        requires
            old(self)@.wf(),
        ensures
            final(self)@.wf(),
            final(self)@ == old(self)@.checked(*key, *scope, id, outcome),
    {
        if let Some(i) = self.find(key, scope) {
            if self.slots[i].binding.id == id {
                let ghost before = self@;
                self.slots[i].binding.check_status = Some(outcome);
                assert(self@.slots =~= before.slots.update(
                    i as int,
                    Slot {
                        binding: Binding {
                            check_status: Some(outcome),
                            ..before.slots[i as int].binding
                        },
                        ..before.slots[i as int]
                    },
                ));
            }
        }
    }

    /// Whether a fiber waits for a key.
    pub fn waiting(&self, key: &TypeKey, ix: FiberIx) -> (yes: bool)
        ensures
            yes == self@.waits(*key, ix),
    {
        let mut i: usize = 0;
        while i < self.inject_index.len()
            invariant
                i <= self.inject_index.len(),
                forall|j: int|
                    0 <= j < i ==> !(same_key((#[trigger] self@.index[j]).0, *key)
                        && self@.index[j].1 == ix),
            decreases self.inject_index.len() - i,
        {
            if self.inject_index[i].0 == *key && self.inject_index[i].1 == ix {
                assert(same_key(self@.index[i as int].0, *key));
                return true;
            }
            i += 1;
        }
        false
    }

    /// Lets a fiber wait for a key.
    pub fn register_inject(&mut self, key: TypeKey, ix: FiberIx)
        ensures
            final(self)@ == old(self)@.with_waiter(key, ix),
            final(self)@.waits(key, ix),
    {
        if !self.waiting(&key, ix) {
            self.inject_index.push((key, ix));
            assert(same_key(self@.index[self@.index.len() - 1].0, key));
        }
    }

    /// Lets a fiber wait for nothing any more.
    pub fn unregister_injects(&mut self, ix: FiberIx)
        ensures
            final(self)@ == (RegistryModel {
                index: old(self)@.index.filter(of_others(ix)),
                ..old(self)@
            }),
    {
        let ghost all = self.inject_index@;
        let ghost keep = of_others(ix);
        let mut kept: Vec<(TypeKey, FiberIx)> = Vec::new();
        let mut i: usize = 0;
        proof {
            filter_empty(all, keep);
        }
        while i < self.inject_index.len()
            invariant
                i <= self.inject_index.len(),
                self.inject_index@ == all,
                self@ == old(self)@,
                keep == of_others(ix),
                kept@ == all.subrange(0, i as int).filter(keep),
            decreases self.inject_index.len() - i,
        {
            proof {
                filter_step(all, i as int, keep);
            }
            if self.inject_index[i].1 != ix {
                kept.push((self.inject_index[i].0.clone(), self.inject_index[i].1));
            }
            i += 1;
        }
        proof {
            whole(all);
        }
        self.inject_index = kept;
    }

    /// All bindings, as diagnostics see them.
    pub fn bindings_snapshot(&self) -> (list: Vec<BindingDiagnostics>)
        ensures
            list@.len() == self@.slots.len(),
            forall|i: int|
                0 <= i < list@.len() ==> (#[trigger] list@[i]) == (BindingDiagnostics {
                    key: self@.slots[i].key,
                    scope: self@.slots[i].scope,
                    provider: self@.slots[i].binding.provider_id,
                    generation: self@.slots[i].binding.provider_gen,
                    removing: self@.slots[i].binding.removing,
                }),
    {
        let mut list: Vec<BindingDiagnostics> = Vec::new();
        let mut i: usize = 0;
        while i < self.slots.len()
            invariant
                i <= self.slots.len(),
                list@.len() == i,
                forall|j: int|
                    0 <= j < i ==> (#[trigger] list@[j]) == (BindingDiagnostics {
                        key: self@.slots[j].key,
                        scope: self@.slots[j].scope,
                        provider: self@.slots[j].binding.provider_id,
                        generation: self@.slots[j].binding.provider_gen,
                        removing: self@.slots[j].binding.removing,
                    }),
            decreases self.slots.len() - i,
        {
            let slot = &self.slots[i];
            list.push(
                BindingDiagnostics {
                    key: slot.key.clone(),
                    scope: clone_scope(&slot.scope),
                    provider: slot.binding.provider_id,
                    generation: slot.binding.provider_gen,
                    removing: slot.binding.removing,
                },
            );
            i += 1;
        }
        list
    }
}

/// What a fiber waits for does not outlive its own withdrawal.
pub proof fn withdrawn_fibers_wait_for_nothing(m: RegistryModel, key: TypeKey, ix: FiberIx)
    ensures
        !(RegistryModel {
            index: m.index.filter(of_others(ix)),
            ..m
        }).waits(key, ix),
{
    let keep = of_others(ix);
    let rest = m.index.filter(keep);
    assert forall|i: int| 0 <= i < rest.len() implies (#[trigger] rest[i]).1 != ix by {
        m.index.lemma_filter_pred(keep, i);
    }
}

/// Once a binding has been taken out or replaced, no write meant for it can
/// reach what is bound in its place: the new binding has another id.
pub proof fn replaced_bindings_are_out_of_reach(m: RegistryModel, id: u64, fresh: Binding)
    requires
        m.wf(),
        id < m.next,
        fresh.id == m.next,
    ensures
        fresh.id != id,
{
}

} // verus!
