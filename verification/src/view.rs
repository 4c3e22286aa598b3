//! What the holder of a fiber can ask of it.

use std::any::TypeId;
use std::sync::Arc;

use crate::error::{message_of, single_issue, validation_issue, CordisError};
use crate::fiber::{
    ConfigId, FiberIx, FiberModel, FiberState, Intent, PluginId, Source, TaskId, TransModel,
};
use crate::key::same_type;
use crate::shared::{Shared, SharedModel};
use crate::text::{decimal, decimal_text, joined};
use vstd::prelude::*;

verus! {

broadcast use crate::shared::fiber_is_viewed;

impl SharedModel {
    pub open spec fn cancelled(self, i: FiberIx) -> SharedModel {
        self.put(i, FiberModel { cancelled: true, ..self.fiber(i) })
    }

    pub open spec fn with_terminal(self, i: FiberIx, task: TaskId) -> SharedModel {
        let f = self.fiber(i);
        self.put(i, FiberModel { trans: TransModel { terminal: Some(task), ..f.trans }, ..f })
    }

    /// The task that disposing of the fiber is already under way with.
    pub open spec fn end_task(self, i: FiberIx) -> Option<TaskId> {
        if i == 0 && self.closing && self.shutdown_task is Some {
            self.shutdown_task
        } else {
            self.fiber(i).trans.terminal
        }
    }

    /// Disposing of the fiber has been asked for, for the first time.
    pub open spec fn disposing(self, i: FiberIx) -> SharedModel {
        let task = self.tasks.len() as usize;
        let m = self.with_task().cancelled(i).with_terminal(i, task).posted(i, Intent::Dispose);
        if self.fiber(i).alive {
            m
        } else {
            m.completed(task, self.stopped(i))
        }
    }

    /// Why a fiber is not restarted or updated.
    pub open spec fn restart_refusal(self, i: FiberIx) -> Option<CordisError> {
        if self.closing || self.fiber(i).closing {
            Some(CordisError::Closed)
        } else if i != 0 && (self.fiber(i).trans.terminal is Some || !self.fiber(i).alive) {
            Some(CordisError::InactiveEffect)
        } else {
            None
        }
    }

    /// A restart has been asked for.
    pub open spec fn restarting(self, i: FiberIx) -> SharedModel {
        let task = self.tasks.len() as usize;
        self.cancelled(i).with_task().posted(i, Intent::Restart(task))
    }
}

impl Shared {
    /// Asks for the end of a fiber. Every call gets the same task.
    pub fn dispose(&mut self, i: FiberIx) -> (task: TaskId)
        requires
            old(self)@.has(i),
        ensures
            old(self)@.wf() ==> final(self)@.wf(),
            match old(self)@.end_task(i) {
                Some(t) => task == t && final(self)@ == old(self)@,
                None => task == old(self)@.tasks.len() && final(self)@ == old(self)@.disposing(i),
            },
    {
        let ghost before = self@;
        if i == 0 && self.closing {
            if let Some(task) = self.shutdown_task {
                return task;
            }
        }
        if let Some(task) = self.fibers[i].trans.terminal_task {
            return task;
        }
        let alive = self.fibers[i].alive;
        let error = self.stopped_error(i);
        let task = self.open_task();
        let ghost m = self@;
        assert(self.fibers@.len() == m.fibers.len());
        self.fibers[i].cancelled = true;
        self.fibers[i].trans.terminal_task = Some(task);
        assert(self@.fibers =~= m.cancelled(i).with_terminal(i, task).fibers);
        let _ = self.post(i, Intent::Dispose);
        if !alive {
            self.complete(task, error);
        }
        task
    }

    /// Whether a fiber can be restarted or updated.
    pub fn restart_guard(&self, i: FiberIx) -> (result: Result<(), CordisError>)
        requires
            self@.has(i),
        ensures
            result == (match self@.restart_refusal(i) {
                Some(e) => Err::<(), CordisError>(e),
                None => Ok(()),
            }),
    {
        if self.closing || self.fibers[i].closing {
            return Err(CordisError::Closed);
        }
        if i != 0 && (self.fibers[i].trans.terminal_task.is_some() || !self.fibers[i].alive) {
            return Err(CordisError::InactiveEffect);
        }
        Ok(())
    }

    fn post_restart(&mut self, i: FiberIx) -> (task: TaskId)
        requires
            old(self)@.has(i),
        ensures
            task == old(self)@.tasks.len(),
            final(self)@ == old(self)@.restarting(i),
    {
        let ghost before = self@;
        self.fibers[i].cancel_current();
        assert(self@.fibers =~= before.cancelled(i).fibers);
        let task = self.open_task();
        let _ = self.post(i, Intent::Restart(task));
        task
    }

    /// Asks for a clean unloading and a new assembly.
    pub fn restart(&mut self, i: FiberIx) -> (result: Result<TaskId, CordisError>)
        requires
            old(self)@.has(i),
        ensures
            old(self)@.wf() ==> final(self)@.wf(),
            match old(self)@.restart_refusal(i) {
                Some(e) => result == Err::<TaskId, CordisError>(e) && final(self)@ == old(self)@,
                None => result == Ok::<TaskId, CordisError>(old(self)@.tasks.len() as usize)
                    && final(self)@ == old(self)@.restarting(i),
            },
    {
        match self.restart_guard(i) {
            Ok(()) => Ok(self.post_restart(i)),
            Err(e) => Err(e),
        }
    }

    /// Whether a fiber takes a configuration of type `given` at all. A fiber
    /// that does is then tried with it: the configuration is validated, an
    /// instance is built from it and validated, and both are dropped.
    pub fn update_guard(&self, i: FiberIx, given: &TypeId) -> (result: Result<(), CordisError>)
        requires
            self@.has(i),
        ensures
            match self@.restart_refusal(i) {
                Some(e) => result == Err::<(), CordisError>(e),
                None => match self@.fiber(i).source {
                    Source::Factory(taken) => if taken == *given {
                        result is Ok
                    } else {
                        result matches Err(e) && single_issue(e, "config type mismatch"@)
                    },
                    _ => result matches Err(e) && single_issue(
                        e,
                        "fiber has no factory (static plugin cannot update)"@,
                    ),
                },
            },
    {
        match self.restart_guard(i) {
            Ok(()) => {},
            Err(e) => {
                return Err(e);
            },
        }
        match &self.fibers[i].source {
            Source::Factory(taken) => if same_type(taken, given) {
                Ok(())
            } else {
                Err(validation_issue("config type mismatch".to_owned()))
            },
            _ => Err(
                validation_issue("fiber has no factory (static plugin cannot update)".to_owned()),
            ),
        }
    }

    /// Takes a new configuration after it has been tried. Where the trial
    /// failed, or the fiber has ended meanwhile, nothing changes; otherwise the
    /// configuration is stored and the fiber restarted.
    pub fn update(&mut self, i: FiberIx, config: ConfigId, trial: Result<(), CordisError>) -> (result:
        Result<TaskId, CordisError>)
        requires
            old(self)@.has(i),
        ensures
            old(self)@.wf() ==> final(self)@.wf(),
            match trial {
                Err(e) => result == Err::<TaskId, CordisError>(e) && final(self)@ == old(self)@,
                Ok(_) => match old(self)@.restart_refusal(i) {
                    Some(e) => result == Err::<TaskId, CordisError>(e) && final(self)@ == old(self)@,
                    None => {
                        &&& result == Ok::<TaskId, CordisError>(old(self)@.tasks.len() as usize)
                        &&& final(self)@ == old(self)@.put(
                            i,
                            FiberModel { config: Some(config), ..old(self)@.fiber(i) },
                        ).restarting(i)
                    },
                },
            },
    {
        let ghost before = self@;
        match trial {
            Ok(()) => {},
            Err(e) => {
                return Err(e);
            },
        }
        match self.restart_guard(i) {
            Ok(()) => {},
            Err(e) => {
                return Err(e);
            },
        }
        self.fibers[i].config = Some(config);
        assert(self@.fibers =~= before.put(
            i,
            FiberModel { config: Some(config), ..before.fiber(i) },
        ).fibers);
        Ok(self.post_restart(i))
    }

    /// The current configuration of a fiber whose factory takes configurations
    /// of type `wanted`.
    pub fn current_config(&self, i: FiberIx, wanted: &TypeId) -> (config: Option<ConfigId>)
        requires
            self@.has(i),
        ensures
            config == (match self@.fiber(i).source {
                Source::Factory(taken) => if taken == *wanted {
                    self@.fiber(i).config
                } else {
                    None
                },
                _ => None,
            }),
    {
        match &self.fibers[i].source {
            Source::Factory(taken) => if same_type(taken, wanted) {
                self.fibers[i].config
            } else {
                None
            },
            _ => None,
        }
    }

    /// Asks to be told when all requests made so far have been handled.
    pub fn settle(&mut self, i: FiberIx) -> (task: TaskId)
        requires
            old(self)@.has(i),
        ensures
            old(self)@.wf() ==> final(self)@.wf(),
            task == old(self)@.tasks.len(),
            final(self)@ == old(self)@.with_task().posted(i, Intent::Settle(task)),
    {
        let task = self.open_task();
        let _ = self.post(i, Intent::Settle(task));
        task
    }

    /// Closes everything for good. Every call gets the same task.
    pub fn shutdown_root(&mut self) -> (task: TaskId)
        requires
            old(self)@.wf(),
        ensures
            final(self)@.wf(),
            final(self)@.closing || old(self)@.shutdown_task is Some,
            match old(self)@.shutdown_task {
                Some(t) => task == t && final(self)@ == old(self)@,
                None => {
                    let opened = SharedModel {
                        closing: true,
                        shutdown_task: Some(task),
                        ..old(self)@.with_task()
                    };
                    &&& task == old(self)@.tasks.len()
                    &&& final(self)@ == (if old(self)@.fiber(0).held {
                        opened.cancelled(0).posted(0, Intent::Shutdown(task))
                    } else {
                        opened.completed(task, Some(Arc::new(CordisError::Closed)))
                    })
                },
            },
    {
        if let Some(task) = self.shutdown_task {
            return task;
        }
        let ghost before = self@;
        let task = self.open_task();
        self.closing = true;
        self.shutdown_task = Some(task);
        let ghost opened = SharedModel {
            closing: true,
            shutdown_task: Some(task),
            ..before.with_task()
        };
        assert(self@.fibers =~= opened.fibers);
        assert(self@ == opened);
        assert(self.fibers@.len() == opened.fibers.len());
        assert(self.fibers@[0]@ == opened.fiber(0));
        if self.fibers[0].held {
            self.fibers[0].cancelled = true;
            assert(self@.fibers =~= opened.cancelled(0).fibers);
            let _ = self.post(0, Intent::Shutdown(task));
        } else {
            self.complete(task, Some(Arc::new(CordisError::Closed)));
        }
        task
    }
}

/// Why waiting for the end of a fiber was given up.
pub enum DisposeWaitError {
    /// The time was over; the end goes on in the background.
    TimedOut { plugin_id: PluginId, generation: u64, state: FiberState, elapsed: Elapsed },
    Failed(Arc<CordisError>),
}

/// A time that has gone by, in seconds and billionths of a second.
#[derive(Debug, Clone, Copy, PartialEq, Eq, Structural)]
pub struct Elapsed {
    pub secs: u64,
    pub nanos: u32,
}

/// The diagnostic form of a `std::time::Duration` of so many seconds and
/// billionths.
pub uninterp spec fn duration_shown(secs: u64, nanos: u32) -> Seq<char>;

/// `format!("{:?}")` on a `std::time::Duration`, a function of its length alone.
#[verifier::external_body]
fn duration_text(secs: u64, nanos: u32) -> (text: String)
    requires
        nanos < 1_000_000_000,
    ensures
        text@ == duration_shown(secs, nanos),
{
    format!("{:?}", std::time::Duration::new(secs, nanos))
}

impl DisposeWaitError {
    pub open spec fn text(&self) -> Seq<char> {
        match *self {
            DisposeWaitError::TimedOut { plugin_id, generation, state, elapsed } =>
                "fiber PluginId("@ + decimal(plugin_id.0 as nat) + ") generation "@ + decimal(
                generation as nat,
            ) + " still "@ + state.text() + " after "@ + duration_shown(
                elapsed.secs,
                elapsed.nanos,
            ),
            DisposeWaitError::Failed(e) => "fiber disposal failed: "@ + message_of(*e),
        }
    }

    /// The message of the error.
    pub fn to_text(&self) -> (out: String)
        requires
            self matches DisposeWaitError::TimedOut { elapsed, .. } ==> elapsed.nanos
                < 1_000_000_000,
        ensures
            out@ == self.text(),
    {
        match self {
            DisposeWaitError::TimedOut { plugin_id, generation, state, elapsed } => {
                let mut out = joined("fiber PluginId(", decimal_text(plugin_id.0).as_str());
                out.push_str(") generation ");
                out.push_str(decimal_text(*generation).as_str());
                out.push_str(" still ");
                out.push_str(state.name());
                out.push_str(" after ");
                out.push_str(duration_text(elapsed.secs, elapsed.nanos).as_str());
                out
            },
            DisposeWaitError::Failed(e) => {
                joined("fiber disposal failed: ", e.message().as_str())
            },
        }
    }
}

impl Shared {
    /// What somebody is told who waited for the end of a fiber for a limited
    /// time. `ended` is how it ended, unless the time was over before.
    pub fn wait_result(
        &self,
        i: FiberIx,
        ended: Option<Result<(), Arc<CordisError>>>,
        elapsed: Elapsed,
    ) -> (result: Result<(), DisposeWaitError>)
        requires
            self@.has(i),
        ensures
            result == (match ended {
                Some(Ok(_)) => Ok::<(), DisposeWaitError>(()),
                Some(Err(e)) => Err(DisposeWaitError::Failed(e)),
                None => Err(
                    DisposeWaitError::TimedOut {
                        plugin_id: self@.fiber(i).id,
                        generation: self@.fiber(i).trans.generation,
                        state: self@.fiber(i).state(),
                        elapsed,
                    },
                ),
            }),
    {
        match ended {
            Some(Ok(())) => Ok(()),
            Some(Err(e)) => Err(DisposeWaitError::Failed(e)),
            None => {
                let snapshot = self.fibers[i].state_snapshot();
                Err(
                    DisposeWaitError::TimedOut {
                        plugin_id: self.fibers[i].id,
                        generation: snapshot.generation,
                        state: snapshot.state,
                        elapsed,
                    },
                )
            },
        }
    }
}

/// A dispose that is asked for twice is one and the same: the second call gets
/// the task of the first and changes nothing.
pub proof fn disposal_is_joined(m: SharedModel, i: FiberIx)
    requires
        m.has(i),
        m.end_task(i) is None,
    ensures
        m.disposing(i).end_task(i) == Some(m.tasks.len() as usize),
{
}

/// Once its end has been asked for, a fiber other than the root is neither
/// restarted nor updated.
pub proof fn ending_fibers_are_not_restarted(m: SharedModel, i: FiberIx)
    requires
        m.has(i),
        i != 0,
        m.end_task(i) is None,
    ensures
        m.disposing(i).restart_refusal(i) is Some,
{
}

} // verus!
