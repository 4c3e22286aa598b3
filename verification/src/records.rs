//! Cleanup records in the runtime: claiming them, finishing them, listing them.

use std::sync::Arc;

use crate::effect::{
    fresh_record, rephased, Cleanup, Effect, EffectMeta, EffectPhase, EffectRecord, EffectStage,
    RecordModel,
};
use crate::error::CordisError;
use crate::fiber::{FiberIx, FiberModel, RecordId};
use crate::list::{contains, other_than, remove_all};
use crate::shared::{Shared, SharedModel};
use vstd::prelude::*;

verus! {

broadcast use crate::shared::fiber_is_viewed;

impl SharedModel {
    pub open spec fn put_record(self, r: RecordId, record: RecordModel) -> SharedModel {
        SharedModel { records: self.records.update(r as int, record), ..self }
    }

    /// The cleanups of a record have run. A record that its fiber still lists is
    /// taken off the list, and its error is kept for the fiber; a record that
    /// was handed over before is not the list's any more, and its error goes to
    /// whoever drains it.
    pub open spec fn record_done(self, r: RecordId, error: Option<Arc<CordisError>>) -> SharedModel {
        let record = self.records[r as int];
        let done = self.put_record(r, RecordModel { stage: EffectStage::Done(error), ..record });
        let o = record.owner;
        if self.has(o) && self.fiber(o).held && self.fiber(o).effects.contains(r) {
            let f = self.fiber(o);
            done.put(
                o,
                FiberModel {
                    effects: f.effects.filter(other_than(r)),
                    drained: match error {
                        Some(e) => f.drained.push(e),
                        None => f.drained,
                    },
                    ..f
                },
            )
        } else {
            done
        }
    }

    /// With a record at the end of all records and of the fiber's.
    pub open spec fn with_effect(self, i: FiberIx, record: RecordModel) -> SharedModel {
        let f = self.fiber(i);
        SharedModel { records: self.records.push(record), ..self }.put(
            i,
            FiberModel { effects: f.effects.push(self.records.len() as usize), ..f },
        )
    }
}

impl Shared {
    /// Takes the cleanups of a record for running. Only the first call gets
    /// them; any other waits for the result.
    pub fn claim_record(&mut self, r: RecordId) -> (taken: Option<Vec<Cleanup>>)
        requires
            r < old(self)@.records.len(),
        ensures
            old(self)@.wf() ==> final(self)@.wf(),
            match old(self)@.records[r as int].stage {
                EffectStage::Live(list) => taken matches Some(v) && v@ == list && final(self)@
                    == old(self)@.put_record(
                    r,
                    RecordModel { stage: EffectStage::Draining, ..old(self)@.records[r as int] },
                ),
                _ => taken is None && final(self)@ == old(self)@,
            },
    {
        let ghost before = self@;
        let taken = self.records[r].claim();
        proof {
            let model = self@.records[r as int];
            assert(self@.records =~= before.put_record(r, model).records);
            assert(before.put_record(r, before.records[r as int]).records =~= before.records);
        }
        taken
    }

    /// The cleanups of a record have run, with this result.
    pub fn finish_record(&mut self, r: RecordId, error: Option<Arc<CordisError>>)
        requires
            r < old(self)@.records.len(),
            old(self)@.records[r as int].stage is Draining,
        ensures
            old(self)@.wf() ==> final(self)@.wf(),
            final(self)@ == old(self)@.record_done(r, error),
    {
        let ghost before = self@;
        let o: usize = self.records[r].owner();
        let kept = match &error {
            Some(e) => Some(e.clone()),
            None => None,
        };
        self.records[r].finish(error);
        assert(self@.records =~= before.put_record(
            r,
            RecordModel { stage: EffectStage::Done(error), ..before.records[r as int] },
        ).records);
        if o < self.fibers.len() && self.fibers[o].held && contains(&self.fibers[o].effects, r) {
            remove_all(&mut self.fibers[o].effects, r);
            if let Some(e) = kept {
                self.fibers[o].drained_errors.push(e);
            }
            assert(self@.fibers =~= before.record_done(r, error).fibers);
        }
    }

    /// The result of a record's cleanups, once they have run.
    pub fn record_outcome(&self, r: RecordId) -> (out: Option<Option<Arc<CordisError>>>)
        requires
            r < self@.records.len(),
        ensures
            match self@.records[r as int].stage {
                EffectStage::Done(e) => out == Some(e),
                _ => out is None,
            },
    {
        self.records[r].outcome()
    }

    /// Gives a fiber a cleanup record.
    pub fn push_effect(&mut self, i: FiberIx, effect: &Effect, label: String) -> (id: RecordId)
        requires
            old(self)@.has(i),
        ensures
            old(self)@.wf() ==> final(self)@.wf(),
            id == old(self)@.records.len(),
            final(self)@.records.len() == id + 1,
            fresh_record(final(self)@.records.last(), *effect, label@, i),
            final(self)@ == old(self)@.with_effect(i, final(self)@.records.last()),
    {
        let ghost before = self@;
        let record = EffectRecord::new(effect, label, i);
        let ghost model = record@;
        let id: usize = self.records.len();
        self.records.push(record);
        self.fibers[i].effects.push(id);
        assert(self@.records =~= before.with_effect(i, model).records);
        assert(self@.fibers =~= before.with_effect(i, model).fibers);
        id
    }

    /// The cleanups that a fiber owns and that have not run to their end, as
    /// diagnostics see them: those handed over for draining, in the order of
    /// registration, then the others.
    pub fn effects(&self, i: FiberIx) -> (list: Vec<EffectMeta>)
        requires
            self@.has(i),
        ensures
            self@.lists_effects(i, list@),
    {
        let ghost order = self@.effect_order(i);
        let mut list: Vec<EffectMeta> = Vec::new();
        let mut k: usize = self.fibers[i].draining.len();
        while k > 0
            invariant
                self@.has(i),
                order == self@.effect_order(i),
                k <= self@.fiber(i).draining.len(),
                self@.lists_upto(i, order, self@.fiber(i).draining.len() - k, list@),
            decreases k,
        {
            k -= 1;
            let r: usize = self.fibers[i].draining[k];
            assert(r == order[self@.fiber(i).draining.len() - 1 - k]);
            self.list_effect(i, r, &mut list);
        }
        let mut j: usize = 0;
        while j < self.fibers[i].effects.len()
            invariant
                self@.has(i),
                order == self@.effect_order(i),
                j <= self@.fiber(i).effects.len(),
                self@.lists_upto(i, order, self@.fiber(i).draining.len() + j, list@),
            decreases self@.fiber(i).effects.len() - j,
        {
            let r: usize = self.fibers[i].effects[j];
            assert(r == order[self@.fiber(i).draining.len() + j]);
            self.list_effect(i, r, &mut list);
            j += 1;
        }
        list
    }

    fn list_effect(&self, i: FiberIx, r: RecordId, list: &mut Vec<EffectMeta>)
        ensures
            if self@.shows(i, r) {
                final(list)@.len() == old(list)@.len() + 1 && final(list)@.drop_last() == old(list)@
                    && self@.shown_as(r, final(list)@.last())
            } else {
                final(list)@ == old(list)@
            },
    {
        if r < self.records.len() && self.records[r].owner() == i {
            let ghost before = list@;
            assert(self@.records[r as int] == self.records@[r as int]@);
            if let Some(meta) = self.records[r].snapshot() {
                list.push(meta);
                assert(list@.drop_last() =~= before);
            }
        }
    }
}

impl SharedModel {
    /// The records of a fiber in the order of registration.
    pub open spec fn effect_order(self, i: FiberIx) -> Seq<RecordId> {
        self.fiber(i).draining.reverse() + self.fiber(i).effects
    }

    /// The record is the fiber's, and its cleanups have not run to their end.
    pub open spec fn shows(self, i: FiberIx, r: RecordId) -> bool {
        r < self.records.len() && self.records[r as int].owner == i
            && !(self.records[r as int].stage is Done)
    }

    pub open spec fn shown_as(self, r: RecordId, meta: EffectMeta) -> bool {
        rephased(
            self.records[r as int].meta,
            meta,
            if self.records[r as int].stage is Live {
                EffectPhase::Live
            } else {
                EffectPhase::Draining
            },
        )
    }

    /// `list` shows those of the first `n` records of an order that are to be
    /// shown, in that order.
    pub open spec fn lists_upto(
        self,
        i: FiberIx,
        order: Seq<RecordId>,
        n: int,
        list: Seq<EffectMeta>,
    ) -> bool
        decreases n,
    {
        if n <= 0 {
            list.len() == 0
        } else if self.shows(i, order[n - 1]) {
            list.len() > 0 && self.shown_as(order[n - 1], list.last()) && self.lists_upto(
                i,
                order,
                n - 1,
                list.drop_last(),
            )
        } else {
            self.lists_upto(i, order, n - 1, list)
        }
    }

    pub open spec fn lists_effects(self, i: FiberIx, list: Seq<EffectMeta>) -> bool {
        self.lists_upto(i, self.effect_order(i), self.effect_order(i).len() as int, list)
    }
}

/// An error of a cleanup that ran ahead of its fiber's unloading has one owner:
/// the record's fiber keeps it if and only if it still lists the record, and in
/// that case nobody is handed the record for draining again.
pub proof fn early_errors_have_one_owner(m: SharedModel, r: RecordId, e: Arc<CordisError>)
    requires
        r < m.records.len(),
        m.has(m.records[r as int].owner),
        m.fiber(m.records[r as int].owner).held,
    ensures
        ({
            let o = m.records[r as int].owner;
            let after = m.record_done(r, Some(e));
            if m.fiber(o).effects.contains(r) {
                after.fiber(o).drained == m.fiber(o).drained.push(e) && !after.fiber(
                    o,
                ).effects.contains(r)
            } else {
                after.fiber(o).drained == m.fiber(o).drained
            }
        }),
{
    let o = m.records[r as int].owner;
    let keep = other_than(r);
    if m.fiber(o).effects.contains(r) {
        let rest = m.fiber(o).effects.filter(keep);
        assert forall|k: int| 0 <= k < rest.len() implies rest[k] != r by {
            m.fiber(o).effects.lemma_filter_pred(keep, k);
        }
    }
}

} // verus!
