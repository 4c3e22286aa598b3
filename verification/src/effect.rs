//! Cleanups: what a plugin hands back for its removal, and how it is run.

use std::sync::Arc;

use crate::error::{aggregate_arcs, aggregated, clone_error, CordisError};
use crate::text::{decimal, decimal_text};
use vstd::prelude::*;

verus! {

/// Handle of a callback that the surroundings keep and run.
pub type Callback = u64;

/// The cleanup that assembling a plugin hands back.
pub enum Effect {
    /// Nothing to clean up.
    Done,
    /// A cleanup that runs to its end at once.
    Disposer(Callback),
    /// A cleanup that is awaited.
    AsyncDisposer(Callback),
    /// Several cleanups, run last to first.
    Many(Vec<Effect>),
}

/// A single cleanup to run.
#[derive(Clone, Copy, Debug, PartialEq, Eq, Structural)]
pub enum Cleanup {
    Sync(Callback),
    Async(Callback),
}

/// Whether a cleanup record waits or is being drained.
#[derive(Debug, Clone, Copy, PartialEq, Eq, Structural)]
pub enum EffectPhase {
    Live,
    Draining,
}

/// Read-only form of a cleanup record. Children share the phase of the record.
pub struct EffectMeta {
    pub label: String,
    pub phase: EffectPhase,
    pub children: Vec<EffectMeta>,
}

/// `after` is `before` with every phase, at any depth, replaced by `phase`.
pub open spec fn rephased(before: EffectMeta, after: EffectMeta, phase: EffectPhase) -> bool
    decreases before,
{
    &&& after.label@ == before.label@
    &&& after.phase == phase
    &&& after.children@.len() == before.children@.len()
    &&& forall|i: int|
        #![trigger before.children@[i]]
        #![trigger after.children@[i]]
        0 <= i < before.children@.len() ==> rephased(before.children@[i], after.children@[i], phase)
}

impl EffectMeta {
    /// Puts the whole tree into one phase.
    pub fn set_phase(&mut self, phase: EffectPhase)
        ensures
            rephased(*old(self), *final(self), phase),
    {
        let next = self.in_phase(phase);
        *self = next;
    }

    /// A copy of the tree, all of it in the given phase.
    pub fn in_phase(&self, phase: EffectPhase) -> (out: EffectMeta)
        ensures
            rephased(*self, out, phase),
        decreases *self,
    {
        let mut children: Vec<EffectMeta> = Vec::new();
        let mut i: usize = 0;
        while i < self.children.len()
            invariant
                i <= self.children.len(),
                children@.len() == i,
                forall|j: int|
                    #![trigger self.children@[j]]
                    #![trigger children@[j]]
                    0 <= j < i ==> rephased(self.children@[j], children@[j], phase),
            decreases self.children.len() - i,
        {
            children.push(self.children[i].in_phase(phase));
            i += 1;
        }
        EffectMeta { label: self.label.clone(), phase, children }
    }
}

impl Effect {
    /// The word for the effect in labels.
    pub open spec fn kind_text(&self) -> Seq<char> {
        match self {
            Effect::Done => "done"@,
            Effect::Disposer(_) => "disposer"@,
            Effect::AsyncDisposer(_) => "async disposer"@,
            Effect::Many(_) => "many"@,
        }
    }

    pub fn kind(&self) -> (out: &'static str)
        ensures
            out@ == self.kind_text(),
    {
        match self {
            Effect::Done => "done",
            Effect::Disposer(_) => "disposer",
            Effect::AsyncDisposer(_) => "async disposer",
            Effect::Many(_) => "many",
        }
    }
}

/// The single cleanups of an effect, in declaration order.
pub open spec fn cleanups(effect: Effect) -> Seq<Cleanup>
    decreases effect, 0nat,
{
    match effect {
        Effect::Done => seq![],
        Effect::Disposer(f) => seq![Cleanup::Sync(f)],
        Effect::AsyncDisposer(f) => seq![Cleanup::Async(f)],
        Effect::Many(v) => cleanups_upto(v@, v@.len()),
    }
}

/// The single cleanups of the first `n` effects of a list.
pub open spec fn cleanups_upto(list: Seq<Effect>, n: nat) -> Seq<Cleanup>
    decreases list, n,
{
    if n == 0 || n > list.len() {
        seq![]
    } else {
        cleanups_upto(list, (n - 1) as nat) + cleanups(list[n - 1])
    }
}

/// The label of the child at `index`.
pub open spec fn child_label(index: nat, effect: Effect) -> Seq<char> {
    decimal(index) + ": "@ + effect.kind_text()
}

/// `meta` describes `effect` under `label`, waiting: one child for each member
/// of a list, labelled by its position and kind.
pub open spec fn describes(meta: EffectMeta, effect: Effect, label: Seq<char>) -> bool
    decreases effect,
{
    &&& meta.label@ == label
    &&& meta.phase == EffectPhase::Live
    &&& match effect {
        Effect::Many(v) => {
            &&& meta.children@.len() == v@.len()
            &&& forall|i: int|
                #![trigger meta.children@[i]]
                #![trigger v@[i]]
                0 <= i < v@.len() ==> describes(
                    meta.children@[i],
                    v@[i],
                    child_label(i as nat, v@[i]),
                )
        },
        _ => meta.children@.len() == 0,
    }
}

/// Splits an effect into its single cleanups, put behind `out`, and the tree
/// that describes it.
pub fn into_cleanups(effect: &Effect, label: String, out: &mut Vec<Cleanup>) -> (meta: EffectMeta)
    ensures
        final(out)@ == old(out)@ + cleanups(*effect),
        describes(meta, *effect, label@),
    decreases *effect,
{
    let mut children: Vec<EffectMeta> = Vec::new();
    let ghost start = out@;
    match effect {
        Effect::Done => {
            assert(out@ =~= start + cleanups(*effect));
        },
        Effect::Disposer(f) => {
            out.push(Cleanup::Sync(*f));
            assert(out@ =~= start + cleanups(*effect));
        },
        Effect::AsyncDisposer(f) => {
            out.push(Cleanup::Async(*f));
            assert(out@ =~= start + cleanups(*effect));
        },
        Effect::Many(v) => {
            let mut i: usize = 0;
            assert(out@ =~= start + cleanups_upto(v@, 0));
            while i < v.len()
                invariant
                    i <= v.len(),
                    *effect == Effect::Many(*v),
                    out@ == start + cleanups_upto(v@, i as nat),
                    children@.len() == i,
                    forall|j: int|
                        #![trigger children@[j]]
                        #![trigger v@[j]]
                        0 <= j < i ==> describes(
                            children@[j],
                            v@[j],
                            child_label(j as nat, v@[j]),
                        ),
                decreases v.len() - i,
            {
                let mut child = decimal_text(i as u64);
                child.push_str(": ");
                child.push_str(v[i].kind());
                assert(*v == effect->Many_0);
                assert(decreases_to!(*effect => effect->Many_0@[i as int]));
                let meta = into_cleanups(&v[i], child, out);
                children.push(meta);
                i += 1;
                assert(out@ =~= start + cleanups_upto(v@, i as nat));
            }
        },
    }
    EffectMeta { label, phase: EffectPhase::Live, children }
}

enum EffectState {
    Live(Vec<Cleanup>),
    Draining,
    Done(Option<Arc<CordisError>>),
}

/// Where a cleanup record stands.
pub enum EffectStage {
    /// Its cleanups, in declaration order, have not been taken.
    Live(Seq<Cleanup>),
    /// Its cleanups are being run.
    Draining,
    /// They have been run, with this result.
    Done(Option<Arc<CordisError>>),
}

/// Nothing that happens to a record leads from `a` to `b` unless this holds: a
/// record never takes a step back, and a result never changes.
pub open spec fn follows(a: EffectStage, b: EffectStage) -> bool {
    match a {
        EffectStage::Live(_) => b is Live ==> b == a,
        EffectStage::Draining => b !is Live,
        EffectStage::Done(_) => b == a,
    }
}

/// A cleanup record: cleanups that are run exactly once, whoever asks first.
pub struct EffectRecord {
    state: EffectState,
    metadata: EffectMeta,
    owner: usize,
}

/// `EffectRecord` as the runtime's contracts see it.
pub struct RecordModel {
    pub stage: EffectStage,
    pub meta: EffectMeta,
    pub owner: usize,
}

impl View for EffectRecord {
    type V = RecordModel;

    open spec fn view(&self) -> RecordModel {
        RecordModel { stage: self.stage(), meta: self.meta(), owner: self.owned_by() }
    }
}

/// `record` is a fresh record of `effect`.
pub open spec fn fresh_record(
    record: RecordModel,
    effect: Effect,
    label: Seq<char>,
    owner: usize,
) -> bool {
    &&& record.stage == EffectStage::Live(cleanups(effect))
    &&& describes(record.meta, effect, label)
    &&& record.owner == owner
}

impl EffectRecord {
    pub closed spec fn stage(&self) -> EffectStage {
        match self.state {
            EffectState::Live(v) => EffectStage::Live(v@),
            EffectState::Draining => EffectStage::Draining,
            EffectState::Done(e) => EffectStage::Done(e),
        }
    }

    pub closed spec fn meta(&self) -> EffectMeta {
        self.metadata
    }

    /// Position of the fiber that owns the record.
    pub closed spec fn owned_by(&self) -> usize {
        self.owner
    }

    pub fn new(effect: &Effect, label: String, owner: usize) -> (record: Self)
        ensures
            record.stage() == EffectStage::Live(cleanups(*effect)),
            describes(record.meta(), *effect, label@),
            record.owned_by() == owner,
    {
        let mut list: Vec<Cleanup> = Vec::new();
        let metadata = into_cleanups(effect, label, &mut list);
        assert(list@ =~= cleanups(*effect));
        EffectRecord { state: EffectState::Live(list), metadata, owner }
    }

    pub fn owner(&self) -> (owner: usize)
        ensures
            owner == self.owned_by(),
    {
        self.owner
    }

    /// The record as diagnostics see it; nothing once it has been drained.
    pub fn snapshot(&self) -> (out: Option<EffectMeta>)
        ensures
            match self.stage() {
                EffectStage::Live(_) => out matches Some(m) && rephased(
                    self.meta(),
                    m,
                    EffectPhase::Live,
                ),
                EffectStage::Draining => out matches Some(m) && rephased(
                    self.meta(),
                    m,
                    EffectPhase::Draining,
                ),
                EffectStage::Done(_) => out is None,
            },
    {
        match &self.state {
            EffectState::Live(_) => Some(self.metadata.in_phase(EffectPhase::Live)),
            EffectState::Draining => Some(self.metadata.in_phase(EffectPhase::Draining)),
            EffectState::Done(_) => None,
        }
    }

    /// Takes the cleanups for running. Only the first call gets them.
    pub fn claim(&mut self) -> (taken: Option<Vec<Cleanup>>)
        ensures
            match old(self).stage() {
                EffectStage::Live(list) => taken matches Some(v) && v@ == list
                    && final(self).stage() == EffectStage::Draining,
                _ => taken is None && final(self).stage() == old(self).stage(),
            },
            final(self).meta() == old(self).meta(),
            final(self).owned_by() == old(self).owned_by(),
            follows(old(self).stage(), final(self).stage()),
    {
        let mut list: Vec<Cleanup> = Vec::new();
        match &mut self.state {
            EffectState::Live(v) => {
                std::mem::swap(v, &mut list);
            },
            _ => {
                return None;
            },
        }
        self.state = EffectState::Draining;
        Some(list)
    }

    /// Stores the result of running the cleanups.
    pub fn finish(&mut self, error: Option<Arc<CordisError>>)
        requires
            old(self).stage() is Draining,
        ensures
            final(self).stage() == EffectStage::Done(error),
            final(self).meta() == old(self).meta(),
            final(self).owned_by() == old(self).owned_by(),
            follows(old(self).stage(), final(self).stage()),
    {
        self.state = EffectState::Done(error);
    }

    /// The result, once there is one. Every call gives the same.
    pub fn outcome(&self) -> (out: Option<Option<Arc<CordisError>>>)
        ensures
            match self.stage() {
                EffectStage::Done(e) => out == Some(e),
                _ => out is None,
            },
    {
        match &self.state {
            EffectState::Done(e) => Some(clone_error(e)),
            _ => None,
        }
    }
}

/// A record's cleanups are handed out at most once: after any steps that follow
/// a claim, there is nothing to claim.
pub proof fn cleanups_are_handed_out_once(claimed: EffectStage, later: EffectStage)
    requires
        claimed is Draining,
        follows(claimed, later),
    ensures
        later !is Live,
{
}

/// A record's steps add up: what may follow what may follow a stage, may follow
/// the stage.
pub proof fn follows_is_transitive(a: EffectStage, b: EffectStage, c: EffectStage)
    requires
        follows(a, b),
        follows(b, c),
    ensures
        follows(a, c),
{
}

/// One run of a list of cleanups: last to first, each once, whatever the others
/// end in.
pub struct CleanupRun {
    remaining: Vec<Cleanup>,
    errors: Vec<Arc<CordisError>>,
}

impl CleanupRun {
    /// The cleanups still to run, in declaration order.
    pub closed spec fn left(&self) -> Seq<Cleanup> {
        self.remaining@
    }

    /// The errors met so far, in the order in which they came.
    pub closed spec fn met(&self) -> Seq<Arc<CordisError>> {
        self.errors@
    }

    pub fn new(list: Vec<Cleanup>) -> (run: Self)
        ensures
            run.left() == list@,
            run.met() == Seq::<Arc<CordisError>>::empty(),
    {
        CleanupRun { remaining: list, errors: Vec::new() }
    }

    /// The next cleanup: the last one left.
    pub fn next(&mut self) -> (cleanup: Option<Cleanup>)
        ensures
            final(self).met() == old(self).met(),
            old(self).left().len() == 0 ==> cleanup is None && final(self).left() == old(self).left(),
            old(self).left().len() > 0 ==> cleanup == Some(old(self).left().last())
                && final(self).left() == old(self).left().drop_last(),
    {
        self.remaining.pop()
    }

    /// Takes note of how a cleanup ended.
    pub fn ended(&mut self, result: Result<(), CordisError>)
        ensures
            final(self).left() == old(self).left(),
            final(self).met() == (match result {
                Ok(_) => old(self).met(),
                Err(e) => old(self).met().push(Arc::new(e)),
            }),
    {
        if let Err(e) = result {
            self.errors.push(Arc::new(e));
        }
    }

    /// The result of the whole run.
    pub fn finish(self) -> (out: Option<Arc<CordisError>>)
        ensures
            aggregated(self.met(), out),
    {
        aggregate_arcs(self.errors)
    }
}

/// The order in which a run hands out its cleanups.
pub open spec fn run_order(left: Seq<Cleanup>) -> Seq<Cleanup>
    decreases left.len(),
{
    if left.len() == 0 {
        seq![]
    } else {
        seq![left.last()] + run_order(left.drop_last())
    }
}

/// Cleanups run in the reverse of their declaration order, each exactly once.
pub proof fn cleanups_run_last_to_first(left: Seq<Cleanup>)
    ensures
        run_order(left) == left.reverse(),
    decreases left.len(),
{
    if left.len() > 0 {
        cleanups_run_last_to_first(left.drop_last());
    }
    assert(run_order(left) =~= left.reverse());
}

} // verus!
