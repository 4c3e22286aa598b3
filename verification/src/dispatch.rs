//! How the results of listeners make up the result of a dispatch.

use crate::bus::{listeners, of_key, other_hook, survives_dispatch, BusModel, Hook};
use crate::error::{
    aggregate_errors, failure, join_panic_error, panic_error, plugin_failure, CordisError,
    JoinFailure, PanicPayload,
};
use crate::key::{same_key, TypeKey};
use crate::registry::ValueId;
use vstd::prelude::*;

verus! {

/// What became of calling a listener.
pub enum ListenerOutcome {
    /// It has nothing to say.
    Pass,
    /// It gave a value.
    Value(ValueId),
    /// It gave a value of another type than the event's.
    Mistyped,
    Failed(CordisError),
    Panicked(PanicPayload),
}

/// The text of a panic's payload.
pub open spec fn panic_text(payload: PanicPayload) -> Seq<char> {
    match payload {
        PanicPayload::Text(text) => text@,
        PanicPayload::Opaque => "panic in task"@,
    }
}

/// A serial dispatch: listeners are called one after the other until one of
/// them decides the result.
pub struct SerialRun {
    hooks: Vec<Hook>,
    next: usize,
    decided: Option<Result<Option<ValueId>, CordisError>>,
}

impl SerialRun {
    pub closed spec fn wf(&self) -> bool {
        self.next <= self.hooks@.len()
    }

    /// The listeners not called yet.
    pub closed spec fn left(&self) -> Seq<Hook> {
        self.hooks@.subrange(self.next as int, self.hooks@.len() as int)
    }

    /// The result, once a listener has decided it.
    pub closed spec fn decision(&self) -> Option<Result<Option<ValueId>, CordisError>> {
        self.decided
    }

    pub fn new(hooks: Vec<Hook>) -> (run: Self)
        ensures
            run.wf(),
            run.left() == hooks@,
            run.decision() is None,
    {
        assert(hooks@.subrange(0, hooks@.len() as int) =~= hooks@);
        SerialRun { hooks, next: 0, decided: None }
    }

    /// The listener to call next: the first one left, unless the result has been
    /// decided.
    pub fn next_hook(&mut self) -> (hook: Option<Hook>)
        requires
            old(self).wf(),
        ensures
            final(self).wf(),
            final(self).decision() == old(self).decision(),
            if old(self).decision() is Some || old(self).left().len() == 0 {
                hook is None && final(self).left() == old(self).left()
            } else {
                hook == Some(old(self).left()[0]) && final(self).left()
                    == old(self).left().drop_first()
            },
    {
        if self.decided.is_some() || self.next >= self.hooks.len() {
            return None;
        }
        let ghost before = self.left();
        let hook = self.hooks[self.next];
        self.next = self.next + 1;
        assert(self.left() =~= before.drop_first());
        Some(hook)
    }

    /// Takes note of what became of the listener called last.
    pub fn ended(&mut self, outcome: ListenerOutcome)
        requires
            old(self).wf(),
            old(self).decision() is None,
        ensures
            final(self).wf(),
            final(self).left() == old(self).left(),
            match outcome {
                ListenerOutcome::Pass => final(self).decision() is None,
                ListenerOutcome::Value(v) => final(self).decision() == Some(
                    Ok::<Option<ValueId>, CordisError>(Some(v)),
                ),
                ListenerOutcome::Mistyped => final(self).decision() matches Some(Err(e)) && failure(
                    e,
                    "serial value type mismatch"@,
                ),
                ListenerOutcome::Failed(e) => final(self).decision() == Some(
                    Err::<Option<ValueId>, CordisError>(e),
                ),
                ListenerOutcome::Panicked(p) => final(self).decision() matches Some(Err(e))
                    && failure(e, panic_text(p)),
            },
    {
        match outcome {
            ListenerOutcome::Pass => {},
            ListenerOutcome::Value(v) => {
                self.decided = Some(Ok(Some(v)));
            },
            ListenerOutcome::Mistyped => {
                self.decided = Some(Err(plugin_failure("serial value type mismatch")));
            },
            ListenerOutcome::Failed(e) => {
                self.decided = Some(Err(e));
            },
            ListenerOutcome::Panicked(p) => {
                self.decided = Some(Err(panic_error(p)));
            },
        }
    }

    /// The result: what was decided, or nothing.
    pub fn finish(self) -> (result: Result<Option<ValueId>, CordisError>)
        ensures
            result == (match self.decision() {
                Some(r) => r,
                None => Ok::<Option<ValueId>, CordisError>(None),
            }),
    {
        match self.decided {
            Some(r) => r,
            None => Ok(None),
        }
    }
}

/// What the error sink is told of a listener that was called by an emit.
pub fn emit_report(outcome: ListenerOutcome) -> (report: Option<CordisError>)
    ensures
        match outcome {
            ListenerOutcome::Failed(e) => report == Some(e),
            ListenerOutcome::Panicked(p) => report matches Some(e) && failure(e, panic_text(p)),
            _ => report is None,
        },
{
    match outcome {
        ListenerOutcome::Failed(e) => Some(e),
        ListenerOutcome::Panicked(p) => Some(panic_error(p)),
        _ => None,
    }
}

/// How the task of a listener ended.
pub enum TaskOutcome {
    Returned(Result<(), CordisError>),
    Lost(JoinFailure),
}

/// A parallel dispatch: all listeners are called, and all errors are kept.
pub struct ParallelRun {
    errors: Vec<CordisError>,
}

impl ParallelRun {
    /// The errors met so far, in the order in which the listeners ended.
    pub closed spec fn met(&self) -> Seq<CordisError> {
        self.errors@
    }

    pub fn new() -> (run: Self)
        ensures
            run.met() == Seq::<CordisError>::empty(),
    {
        ParallelRun { errors: Vec::new() }
    }

    pub fn ended(&mut self, outcome: TaskOutcome)
        ensures
            match outcome {
                TaskOutcome::Returned(Ok(_)) => final(self).met() == old(self).met(),
                TaskOutcome::Returned(Err(e)) => final(self).met() == old(self).met().push(e),
                TaskOutcome::Lost(join) => {
                    &&& final(self).met().len() == old(self).met().len() + 1
                    &&& final(self).met().drop_last() == old(self).met()
                    &&& failure(
                        final(self).met().last(),
                        match join {
                            JoinFailure::Panicked(p) => panic_text(p),
                            JoinFailure::Cancelled => "task cancelled before completion"@,
                        },
                    )
                },
            },
    {
        let ghost before = self.met();
        match outcome {
            TaskOutcome::Returned(Ok(_)) => {},
            TaskOutcome::Returned(Err(e)) => {
                self.errors.push(e);
            },
            TaskOutcome::Lost(join) => {
                self.errors.push(join_panic_error(join));
                assert(self.met().drop_last() =~= before);
            },
        }
    }

    /// The result: no error, the only one, or all of them.
    pub fn finish(self) -> (result: Result<(), CordisError>)
        ensures
            self.met().len() == 0 ==> result is Ok,
            self.met().len() == 1 ==> result == Err::<(), CordisError>(self.met()[0]),
            self.met().len() > 1 ==> (result matches Err(CordisError::Aggregate { errors })
                && errors@.len() == self.met().len() && (forall|i: int|
                0 <= i < errors@.len() ==> *#[trigger] errors@[i] == self.met()[i])),
    {
        match aggregate_errors(self.errors) {
            Some(e) => Err(e),
            None => Ok(()),
        }
    }
}

/// What a continuation of a waterfall leads to.
pub enum WaterfallStep {
    /// A listener, which gets the continuation at the given position.
    Listener(Hook, usize),
    /// The caller's own end of the chain.
    Terminal,
}

/// The continuation at `index`: the listener there, or the end of the chain
/// behind the last one.
pub fn waterfall_step(chain: &Vec<Hook>, index: usize) -> (step: WaterfallStep)
    ensures
        step == (if index < chain@.len() {
            WaterfallStep::Listener(chain@[index as int], (index + 1) as usize)
        } else {
            WaterfallStep::Terminal
        }),
{
    if index < chain.len() {
        WaterfallStep::Listener(chain[index], index + 1)
    } else {
        WaterfallStep::Terminal
    }
}

/// The result of a waterfall, from the value that came out of the chain.
pub fn waterfall_result(outcome: Result<Option<ValueId>, CordisError>) -> (result: Result<
    ValueId,
    CordisError,
>)
    ensures
        match outcome {
            Ok(Some(v)) => result == Ok::<ValueId, CordisError>(v),
            Ok(None) => result matches Err(e) && failure(e, "waterfall value type mismatch"@),
            Err(e) => result == Err::<ValueId, CordisError>(e),
        },
{
    match outcome {
        Ok(Some(v)) => Ok(v),
        Ok(None) => Err(plugin_failure("waterfall value type mismatch")),
        Err(e) => Err(e),
    }
}

/// Filtering twice is filtering once where the first filter keeps all that the
/// second one keeps.
proof fn filter_twice<A>(list: Seq<A>, first: spec_fn(A) -> bool, second: spec_fn(A) -> bool)
    requires
        forall|i: int|
            0 <= i < list.len() && #[trigger] second(list[i]) ==> first(list[i]),
    ensures
        list.filter(first).filter(second) == list.filter(second),
    decreases list.len(),
{
    reveal(Seq::filter);
    if list.len() > 0 {
        let rest = list.drop_last();
        assert forall|i: int| 0 <= i < rest.len() && #[trigger] second(rest[i]) implies first(
            rest[i],
        ) by {
            assert(second(list[i]));
        }
        filter_twice(rest, first, second);
        if first(list.last()) {
            assert(list.filter(first).drop_last() =~= rest.filter(first));
        }
        assert(second(list.last()) ==> first(list.last())) by {
            assert(list.last() == list[list.len() - 1]);
        }
    }
}

/// A dispatch of one key leaves the listeners of every other key alone.
pub proof fn dispatch_leaves_other_keys_alone(bus: BusModel, key: TypeKey, other: TypeKey)
    requires
        !same_key(key, other),
    ensures
        listeners(bus.dispatched(key).hooks, other) == listeners(bus.hooks, other),
{
    filter_twice(bus.hooks, survives_dispatch(key), of_key(other));
}

/// A listener that is to be called once is called by one dispatch at most: the
/// dispatch that takes it leaves none of its kind behind.
pub proof fn once_means_once(bus: BusModel, key: TypeKey, i: int)
    requires
        0 <= i < listeners(bus.dispatched(key).hooks, key).len(),
    ensures
        !listeners(bus.dispatched(key).hooks, key)[i].1.once,
{
    let left = bus.dispatched(key).hooks;
    let mine = listeners(left, key);
    left.lemma_filter_pred(of_key(key), i);
    assert(mine.contains(mine[i]));
    left.lemma_filter_contains_rev(of_key(key), mine[i]);
    let p = choose|p: int| 0 <= p < left.len() && left[p] == mine[i];
    bus.hooks.lemma_filter_pred(survives_dispatch(key), p);
}

/// A listener that was taken away is called by no later dispatch.
pub proof fn removed_listeners_are_not_called(bus: BusModel, key: TypeKey, id: u64, i: int)
    requires
        0 <= i < listeners(bus.hooks.filter(other_hook(key, id)), key).len(),
    ensures
        listeners(bus.hooks.filter(other_hook(key, id)), key)[i].1.id != id,
{
    let left = bus.hooks.filter(other_hook(key, id));
    let mine = listeners(left, key);
    left.lemma_filter_pred(of_key(key), i);
    assert(mine.contains(mine[i]));
    left.lemma_filter_contains_rev(of_key(key), mine[i]);
    let p = choose|p: int| 0 <= p < left.len() && left[p] == mine[i];
    bus.hooks.lemma_filter_pred(other_hook(key, id), p);
}

/// A new listener comes behind all others of its key, or, if asked for, ahead of
/// them.
pub proof fn listeners_keep_their_order(bus: BusModel, key: TypeKey, hook: Hook)
    ensures
        listeners(bus.hooks.push((key, hook)), key) == listeners(bus.hooks, key).push((key, hook)),
        listeners(seq![(key, hook)] + bus.hooks, key) == seq![(key, hook)] + listeners(
            bus.hooks,
            key,
        ),
{
    reveal(Seq::filter);
    assert(bus.hooks.push((key, hook)).drop_last() =~= bus.hooks);
    let one = seq![(key, hook)];
    Seq::filter_distributes_over_add(one, bus.hooks, of_key(key));
    assert(one.drop_last() =~= Seq::<(TypeKey, Hook)>::empty());
    assert(one.filter(of_key(key)) =~= one);
}

} // verus!
