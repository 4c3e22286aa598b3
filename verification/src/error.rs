//! Error types, their aggregation and their readable forms.

use std::sync::Arc;

use crate::diagnostics::DependencyStatus;
use crate::fiber::{FiberState, PluginId};
use crate::key::{InstanceId, TypeKey};
use crate::order::models;
use crate::text::{
    debug_list, debug_list_text, debug_text, debugged, decimal, decimal_text, joined, spaces,
};
use vstd::prelude::*;

verus! {

/// Why a strict service read was rejected.
#[derive(Debug, Clone, Copy, PartialEq, Eq, Structural)]
pub enum ServiceReadFailure {
    Undeclared,
    Unavailable(DependencyStatus),
    OutOfScope,
    Inactive,
    TypeMismatch,
    InterceptDenied,
    InterceptPanicked,
    InterceptReentrant,
}

impl ServiceReadFailure {
    pub open spec fn text(&self) -> Seq<char> {
        match self {
            ServiceReadFailure::Undeclared => "dependency not declared"@,
            ServiceReadFailure::Unavailable(status) => "declared dependency unavailable ("@
                + status.variant() + ")"@,
            ServiceReadFailure::OutOfScope => "instance outside caller's fiber ancestry"@,
            ServiceReadFailure::Inactive => "caller context inactive"@,
            ServiceReadFailure::TypeMismatch => "service key has a different value type"@,
            ServiceReadFailure::InterceptDenied => "denied by an interceptor"@,
            ServiceReadFailure::InterceptPanicked => "an interceptor panicked"@,
            ServiceReadFailure::InterceptReentrant => "interceptor re-entered for the same key"@,
        }
    }

    /// Readable form of the failure.
    pub fn to_text(&self) -> (out: String)
        ensures
            out@ == self.text(),
    {
        match self {
            ServiceReadFailure::Undeclared => "dependency not declared".to_owned(),
            ServiceReadFailure::Unavailable(status) => {
                let mut out = joined(
                    "declared dependency unavailable (",
                    status.variant_text().as_str(),
                );
                out.push_str(")");
                out
            },
            ServiceReadFailure::OutOfScope => "instance outside caller's fiber ancestry".to_owned(),
            ServiceReadFailure::Inactive => "caller context inactive".to_owned(),
            ServiceReadFailure::TypeMismatch => "service key has a different value type".to_owned(),
            ServiceReadFailure::InterceptDenied => "denied by an interceptor".to_owned(),
            ServiceReadFailure::InterceptPanicked => "an interceptor panicked".to_owned(),
            ServiceReadFailure::InterceptReentrant => "interceptor re-entered for the same key".to_owned(),
        }
    }
}

/// Why an update of a mutable service was rejected.
#[derive(Debug, Clone, Copy, PartialEq, Eq, Structural)]
pub enum ServiceWriteFailure {
    WrongOwner,
    Stale,
    InterceptDenied,
    InterceptPanicked,
    InterceptReentrant,
}

/// A place in source text from which an operation was called.
#[derive(Debug, Clone, Copy)]
pub struct CallSite {
    pub file: &'static str,
    pub line: u32,
    pub column: u32,
}

impl CallSite {
    pub open spec fn text(&self) -> Seq<char> {
        self.file@.push(':') + decimal(self.line as nat).push(':') + decimal(self.column as nat)
    }

    /// `file:line:column`.
    pub fn to_text(&self) -> (out: String)
        ensures
            out@ == self.text(),
    {
        let mut out = self.file.to_owned();
        out.push(':');
        let mut line = decimal_text(self.line as u64);
        line.push(':');
        out.push_str(line.as_str());
        out.push_str(decimal_text(self.column as u64).as_str());
        out
    }
}

/// A rejected strict read: the key, who read it, from where, and why it failed.
#[derive(Debug)]
pub struct ServiceReadError {
    pub key: TypeKey,
    pub plugin_id: PluginId,
    pub instance: InstanceId,
    pub location: CallSite,
    pub reason: ServiceReadFailure,
}

impl ServiceReadError {
    pub open spec fn text(&self) -> Seq<char> {
        "strict service read "@ + self.key.description() + " by fiber PluginId("@ + decimal(
            self.plugin_id.0 as nat,
        ) + ") instance "@ + decimal(self.instance.number() as nat) + " at "@ + self.location.text()
            + ": "@ + self.reason.text()
    }

    /// Readable form of the error.
    pub fn to_text(&self) -> (out: String)
        ensures
            out@ == self.text(),
    {
        let mut out = joined("strict service read ", self.key.describe().as_str());
        out.push_str(" by fiber PluginId(");
        out.push_str(decimal_text(self.plugin_id.0).as_str());
        out.push_str(") instance ");
        out.push_str(self.instance.to_text().as_str());
        out.push_str(" at ");
        out.push_str(self.location.to_text().as_str());
        out.push_str(": ");
        out.push_str(self.reason.to_text().as_str());
        out
    }
}

/// A rejected update of a mutable service.
#[derive(Debug)]
pub struct ServiceWriteError {
    pub key: TypeKey,
    pub provider: PluginId,
    pub generation: u64,
    pub location: CallSite,
    pub reason: ServiceWriteFailure,
}

/// What a plugin failure was caused by: an error of this library, or a foreign
/// error with its message, its diagnostic form and its own cause.
#[derive(Debug)]
pub enum ErrorSource {
    Cordis(Box<CordisError>),
    Foreign { message: String, debug: String, source: Option<Box<ErrorSource>> },
}

/// The errors of the kernel.
#[derive(Debug)]
pub enum CordisError {
    ServiceRead(ServiceReadError),
    ServiceNotFound(String),
    /// A failure from outside the kernel, met while assembling or cleaning up.
    PluginFailed(ErrorSource),
    /// Several errors, each kept as it was.
    Aggregate { errors: Vec<Arc<CordisError>> },
    InactiveEffect,
    /// The context's generation is current, but its fiber is in a state that
    /// takes no registrations.
    InactiveGeneration { generation: u64, state: FiberState },
    /// The context belongs to an earlier generation of its fiber.
    StaleGeneration { generation: u64, current: u64 },
    Closed,
    Validation { issues: Vec<String> },
    InjectUnsatisfied(Vec<String>),
    /// A second registration under one key and scope.
    ServiceExists(String),
    InstanceOutOfScope { instance: InstanceId },
}

/// A plugin failure that carries `message` alone. Its diagnostic form is the
/// message in quotes.
pub open spec fn failure(e: CordisError, message: Seq<char>) -> bool {
    e matches CordisError::PluginFailed(ErrorSource::Foreign { message: m, debug, source: None })
        && m@ == message && debug@ == debugged(message)
}

pub fn plugin_failure(message: &str) -> (e: CordisError)
    ensures
        failure(e, message@),
{
    CordisError::PluginFailed(
        ErrorSource::Foreign {
            message: message.to_owned(),
            debug: debug_text(message),
            source: None,
        },
    )
}

/// A validation failure with one issue.
pub open spec fn single_issue(e: CordisError, issue: Seq<char>) -> bool {
    e matches CordisError::Validation { issues } && issues@.len() == 1 && issues@[0]@ == issue
}

pub fn validation_issue(issue: String) -> (e: CordisError)
    ensures
        single_issue(e, issue@),
{
    let mut issues: Vec<String> = Vec::new();
    issues.push(issue);
    CordisError::Validation { issues }
}

/// What a task boundary caught from a panicking callback.
pub enum PanicPayload {
    /// A payload that was text.
    Text(String),
    /// Any other payload.
    Opaque,
}

/// A caught panic as a plugin failure, with the panic's text where it had one.
pub fn panic_error(payload: PanicPayload) -> (e: CordisError)
    ensures
        failure(e, match payload {
            PanicPayload::Text(text) => text@,
            PanicPayload::Opaque => "panic in task"@,
        }),
{
    match payload {
        PanicPayload::Text(text) => plugin_failure(text.as_str()),
        PanicPayload::Opaque => plugin_failure("panic in task"),
    }
}

/// How a task ended that gave no result.
pub enum JoinFailure {
    Panicked(PanicPayload),
    Cancelled,
}

/// A task without a result as a plugin failure: cancellation is not a panic.
pub fn join_panic_error(join: JoinFailure) -> (e: CordisError)
    ensures
        failure(e, match join {
            JoinFailure::Panicked(PanicPayload::Text(text)) => text@,
            JoinFailure::Panicked(PanicPayload::Opaque) => "panic in task"@,
            JoinFailure::Cancelled => "task cancelled before completion"@,
        }),
{
    match join {
        JoinFailure::Panicked(payload) => panic_error(payload),
        JoinFailure::Cancelled => plugin_failure("task cancelled before completion"),
    }
}

/// The error that a list of errors stands for: none for none, the error itself
/// for one, and an aggregate of all of them, in order and unflattened, for more.
pub open spec fn aggregated(errors: Seq<Arc<CordisError>>, out: Option<Arc<CordisError>>) -> bool {
    if errors.len() == 0 {
        out is None
    } else if errors.len() == 1 {
        out == Some(errors[0])
    } else {
        out matches Some(e) && *e matches CordisError::Aggregate { errors: members }
            && members@ == errors
    }
}

pub fn aggregate_arcs(errors: Vec<Arc<CordisError>>) -> (out: Option<Arc<CordisError>>)
    ensures
        aggregated(errors@, out),
{
    if errors.len() == 0 {
        None
    } else if errors.len() == 1 {
        Some(errors[0].clone())
    } else {
        Some(Arc::new(CordisError::Aggregate { errors }))
    }
}

/// As `aggregate_arcs`, of errors that are not shared yet.
pub fn aggregate_errors(errors: Vec<CordisError>) -> (out: Option<CordisError>)
    ensures
        errors@.len() == 0 ==> out is None,
        errors@.len() == 1 ==> out == Some(errors@[0]),
        errors@.len() > 1 ==> (out matches Some(CordisError::Aggregate { errors: members })
            && members@.len() == errors@.len() && (forall|i: int|
            0 <= i < errors@.len() ==> *#[trigger] members@[i] == errors@[i])),
{
    let mut rest = errors;
    if rest.len() == 0 {
        return None;
    }
    if rest.len() == 1 {
        return rest.pop();
    }
    let ghost all = rest@;
    let mut members: Vec<Arc<CordisError>> = Vec::new();
    let mut backwards: Vec<CordisError> = Vec::new();
    while rest.len() > 0
        invariant
            rest@.len() + backwards@.len() == all.len(),
            rest@ == all.subrange(0, rest@.len() as int),
            forall|i: int|
                0 <= i < backwards@.len() ==> #[trigger] backwards@[i] == all[all.len() - 1 - i],
        decreases rest.len(),
    {
        let ghost before = rest@;
        match rest.pop() {
            Some(e) => {
                assert(e == before.last());
                backwards.push(e);
            },
            None => {},
        }
    }
    while backwards.len() > 0
        invariant
            members@.len() + backwards@.len() == all.len(),
            forall|i: int|
                0 <= i < backwards@.len() ==> #[trigger] backwards@[i] == all[all.len() - 1 - i],
            forall|i: int| 0 <= i < members@.len() ==> *#[trigger] members@[i] == all[i],
        decreases backwards.len(),
    {
        match backwards.pop() {
            Some(e) => {
                members.push(Arc::new(e));
            },
            None => {},
        }
    }
    Some(CordisError::Aggregate { errors: members })
}

pub fn clone_error(error: &Option<Arc<CordisError>>) -> (copy: Option<Arc<CordisError>>)
    ensures
        copy == *error,
{
    match error {
        Some(e) => Some(e.clone()),
        None => None,
    }
}

impl CordisError {
    /// The message of an error that is neither an aggregate nor a plugin
    /// failure.
    pub open spec fn leaf_text(&self) -> Seq<char> {
        match self {
            CordisError::ServiceRead(e) => e.text(),
            CordisError::ServiceNotFound(name) => "service "@ + debugged(name@)
                + " not found in scope"@,
            CordisError::InactiveEffect => "fiber disposed"@,
            CordisError::InactiveGeneration { generation, state } => "fiber generation "@ + decimal(
                *generation as nat,
            ) + " takes no registrations while "@ + state.text(),
            CordisError::StaleGeneration { generation, current } => "fiber generation "@ + decimal(
                *generation as nat,
            ) + " was replaced by generation "@ + decimal(*current as nat),
            CordisError::Closed => "root has been shut down"@,
            CordisError::Validation { issues } => "config validation failed: "@ + debug_list(
                models(issues@),
            ),
            CordisError::InjectUnsatisfied(keys) => "dependency unsatisfied: "@ + debug_list(
                models(keys@),
            ),
            CordisError::ServiceExists(name) => "service "@ + debugged(name@)
                + " already registered in scope"@,
            CordisError::InstanceOutOfScope { instance } => "instance "@ + decimal(
                instance.number() as nat,
            ) + " is outside the caller's fiber subtree"@,
            CordisError::PluginFailed(_) => "plugin failed: "@,
            CordisError::Aggregate { .. } => "multiple errors:"@,
        }
    }

    /// The fixed head of the message: all of it, except that an aggregate's
    /// members and a plugin failure's cause are still to follow.
    pub fn leaf_message(&self) -> (out: String)
        ensures
            out@ == self.leaf_text(),
    {
        match self {
            CordisError::ServiceRead(e) => e.to_text(),
            CordisError::ServiceNotFound(name) => {
                let mut out = joined("service ", debug_text(name.as_str()).as_str());
                out.push_str(" not found in scope");
                out
            },
            CordisError::InactiveEffect => "fiber disposed".to_owned(),
            CordisError::InactiveGeneration { generation, state } => {
                let mut out = joined("fiber generation ", decimal_text(*generation).as_str());
                out.push_str(" takes no registrations while ");
                out.push_str(state.name());
                out
            },
            CordisError::StaleGeneration { generation, current } => {
                let mut out = joined("fiber generation ", decimal_text(*generation).as_str());
                out.push_str(" was replaced by generation ");
                out.push_str(decimal_text(*current).as_str());
                out
            },
            CordisError::Closed => "root has been shut down".to_owned(),
            CordisError::Validation { issues } => {
                joined("config validation failed: ", debug_list_text(issues).as_str())
            },
            CordisError::InjectUnsatisfied(keys) => {
                joined("dependency unsatisfied: ", debug_list_text(keys).as_str())
            },
            CordisError::ServiceExists(name) => {
                let mut out = joined("service ", debug_text(name.as_str()).as_str());
                out.push_str(" already registered in scope");
                out
            },
            CordisError::InstanceOutOfScope { instance } => {
                let mut out = joined("instance ", instance.to_text().as_str());
                out.push_str(" is outside the caller's fiber subtree");
                out
            },
            CordisError::PluginFailed(_) => "plugin failed: ".to_owned(),
            CordisError::Aggregate { .. } => "multiple errors:".to_owned(),
        }
    }
}

impl ServiceReadFailure {
    /// The name of the case.
    pub open spec fn variant(&self) -> Seq<char> {
        match self {
            ServiceReadFailure::Undeclared => "Undeclared"@,
            ServiceReadFailure::Unavailable(status) => "Unavailable("@ + status.variant() + ")"@,
            ServiceReadFailure::OutOfScope => "OutOfScope"@,
            ServiceReadFailure::Inactive => "Inactive"@,
            ServiceReadFailure::TypeMismatch => "TypeMismatch"@,
            ServiceReadFailure::InterceptDenied => "InterceptDenied"@,
            ServiceReadFailure::InterceptPanicked => "InterceptPanicked"@,
            ServiceReadFailure::InterceptReentrant => "InterceptReentrant"@,
        }
    }

    fn variant_text(&self) -> (out: String)
        ensures
            out@ == self.variant(),
    {
        match self {
            ServiceReadFailure::Undeclared => "Undeclared".to_owned(),
            ServiceReadFailure::Unavailable(status) => {
                let mut out = joined("Unavailable(", status.variant_text().as_str());
                out.push_str(")");
                out
            },
            ServiceReadFailure::OutOfScope => "OutOfScope".to_owned(),
            ServiceReadFailure::Inactive => "Inactive".to_owned(),
            ServiceReadFailure::TypeMismatch => "TypeMismatch".to_owned(),
            ServiceReadFailure::InterceptDenied => "InterceptDenied".to_owned(),
            ServiceReadFailure::InterceptPanicked => "InterceptPanicked".to_owned(),
            ServiceReadFailure::InterceptReentrant => "InterceptReentrant".to_owned(),
        }
    }
}

impl ServiceReadError {
    /// The parts of the error, each by its name.
    pub open spec fn diagnosed(&self) -> Seq<char> {
        "ServiceReadError { key: "@ + self.key.description() + ", plugin_id: PluginId("@ + decimal(
            self.plugin_id.0 as nat,
        ) + "), instance: InstanceId("@ + decimal(self.instance.number() as nat)
            + "), location: Location { file: "@ + debugged(self.location.file@) + ", line: "@
            + decimal(self.location.line as nat) + ", column: "@ + decimal(
            self.location.column as nat,
        ) + " }, reason: "@ + self.reason.variant() + " }"@
    }

    fn diagnosis(&self) -> (out: String)
        ensures
            out@ == self.diagnosed(),
    {
        let mut out = joined("ServiceReadError { key: ", self.key.describe().as_str());
        out.push_str(", plugin_id: PluginId(");
        out.push_str(decimal_text(self.plugin_id.0).as_str());
        out.push_str("), instance: InstanceId(");
        out.push_str(self.instance.to_text().as_str());
        out.push_str("), location: Location { file: ");
        out.push_str(debug_text(self.location.file).as_str());
        out.push_str(", line: ");
        out.push_str(decimal_text(self.location.line as u64).as_str());
        out.push_str(", column: ");
        out.push_str(decimal_text(self.location.column as u64).as_str());
        out.push_str(" }, reason: ");
        out.push_str(self.reason.variant_text().as_str());
        out.push_str(" }");
        out
    }
}

/// The diagnostic form of an error: the name of its case with all that it holds,
/// a foreign error by the diagnostic form that it gave of itself.
pub open spec fn diagnosed(error: CordisError) -> Seq<char>
    decreases error, 0nat,
{
    match error {
        CordisError::ServiceRead(e) => "ServiceRead("@ + e.diagnosed() + ")"@,
        CordisError::ServiceNotFound(name) => "ServiceNotFound("@ + debugged(name@) + ")"@,
        CordisError::PluginFailed(ErrorSource::Cordis(inner)) => "PluginFailed("@ + diagnosed(
            *inner,
        ) + ")"@,
        CordisError::PluginFailed(ErrorSource::Foreign { debug, .. }) => "PluginFailed("@ + debug@
            + ")"@,
        CordisError::Aggregate { errors } => "Aggregate { errors: ["@ + diagnosed_members(
            errors@,
            0,
        ) + "] }"@,
        CordisError::InactiveEffect => "InactiveEffect"@,
        CordisError::InactiveGeneration { generation, state } => "InactiveGeneration { generation: "@
            + decimal(generation as nat) + ", state: "@ + state.text() + " }"@,
        CordisError::StaleGeneration { generation, current } => "StaleGeneration { generation: "@
            + decimal(generation as nat) + ", current: "@ + decimal(current as nat) + " }"@,
        CordisError::Closed => "Closed"@,
        CordisError::Validation { issues } => "Validation { issues: "@ + debug_list(models(issues@))
            + " }"@,
        CordisError::InjectUnsatisfied(keys) => "InjectUnsatisfied("@ + debug_list(models(keys@))
            + ")"@,
        CordisError::ServiceExists(name) => "ServiceExists("@ + debugged(name@) + ")"@,
        CordisError::InstanceOutOfScope { instance } => "InstanceOutOfScope { instance: InstanceId("@
            + decimal(instance.number() as nat) + ") }"@,
    }
}

/// The diagnostic forms of the members of an aggregate, from the given one on.
pub open spec fn diagnosed_members(errors: Seq<Arc<CordisError>>, from: nat) -> Seq<char>
    decreases errors, errors.len() - from,
{
    if from >= errors.len() {
        seq![]
    } else if from + 1 == errors.len() {
        diagnosed(*errors[from as int])
    } else {
        diagnosed(*errors[from as int]) + ", "@ + diagnosed_members(errors, from + 1)
    }
}

fn diagnose_members(errors: &Vec<Arc<CordisError>>, from: usize) -> (out: String)
    requires
        from <= errors.len(),
    ensures
        out@ == diagnosed_members(errors@, from as nat),
    decreases errors@, errors.len() - from,
{
    if from == errors.len() {
        let out = String::new();
        assert(out@ =~= diagnosed_members(errors@, from as nat));
        return out;
    }
    let mut out = diagnose(&errors[from]);
    if from + 1 < errors.len() {
        out.push_str(", ");
        out.push_str(diagnose_members(errors, from + 1).as_str());
    }
    out
}

fn diagnose(error: &CordisError) -> (out: String)
    ensures
        out@ == diagnosed(*error),
    decreases *error, 0nat,
{
    match error {
        CordisError::ServiceRead(e) => {
            let mut out = joined("ServiceRead(", e.diagnosis().as_str());
            out.push_str(")");
            out
        },
        CordisError::ServiceNotFound(name) => {
            let mut out = joined("ServiceNotFound(", debug_text(name.as_str()).as_str());
            out.push_str(")");
            out
        },
        CordisError::PluginFailed(ErrorSource::Cordis(inner)) => {
            let mut out = joined("PluginFailed(", diagnose(inner).as_str());
            out.push_str(")");
            out
        },
        CordisError::PluginFailed(ErrorSource::Foreign { debug, .. }) => {
            let mut out = joined("PluginFailed(", debug.as_str());
            out.push_str(")");
            out
        },
        CordisError::Aggregate { errors } => {
            let mut out = joined("Aggregate { errors: [", diagnose_members(errors, 0).as_str());
            out.push_str("] }");
            out
        },
        CordisError::InactiveEffect => "InactiveEffect".to_owned(),
        CordisError::InactiveGeneration { generation, state } => {
            let mut out = joined(
                "InactiveGeneration { generation: ",
                decimal_text(*generation).as_str(),
            );
            out.push_str(", state: ");
            out.push_str(state.name());
            out.push_str(" }");
            out
        },
        CordisError::StaleGeneration { generation, current } => {
            let mut out = joined(
                "StaleGeneration { generation: ",
                decimal_text(*generation).as_str(),
            );
            out.push_str(", current: ");
            out.push_str(decimal_text(*current).as_str());
            out.push_str(" }");
            out
        },
        CordisError::Closed => "Closed".to_owned(),
        CordisError::Validation { issues } => {
            let mut out = joined("Validation { issues: ", debug_list_text(issues).as_str());
            out.push_str(" }");
            out
        },
        CordisError::InjectUnsatisfied(keys) => {
            let mut out = joined("InjectUnsatisfied(", debug_list_text(keys).as_str());
            out.push_str(")");
            out
        },
        CordisError::ServiceExists(name) => {
            let mut out = joined("ServiceExists(", debug_text(name.as_str()).as_str());
            out.push_str(")");
            out
        },
        CordisError::InstanceOutOfScope { instance } => {
            let mut out = joined(
                "InstanceOutOfScope { instance: InstanceId(",
                instance.to_text().as_str(),
            );
            out.push_str(") }");
            out
        },
    }
}

/// The message of an error: that of a plugin failure ends with its cause's
/// message, and that of an aggregate lists the diagnostic forms of its members.
pub open spec fn message_of(error: CordisError) -> Seq<char>
    decreases error,
{
    match error {
        CordisError::Aggregate { errors } => error.leaf_text() + " ["@ + diagnosed_members(
            errors@,
            0,
        ) + "]"@,
        CordisError::PluginFailed(ErrorSource::Foreign { message, .. }) => error.leaf_text()
            + message@,
        CordisError::PluginFailed(ErrorSource::Cordis(inner)) => error.leaf_text() + message_of(
            *inner,
        ),
        _ => error.leaf_text(),
    }
}

impl CordisError {
    /// The message of the error.
    pub fn message(&self) -> (out: String)
        ensures
            out@ == message_of(*self),
        decreases *self,
    {
        let mut out = self.leaf_message();
        match self {
            CordisError::Aggregate { errors } => {
                out.push_str(" [");
                out.push_str(diagnose_members(errors, 0).as_str());
                out.push_str("]");
            },
            CordisError::PluginFailed(ErrorSource::Foreign { message, .. }) => {
                out.push_str(message.as_str());
            },
            CordisError::PluginFailed(ErrorSource::Cordis(inner)) => {
                out.push_str(inner.message().as_str());
            },
            _ => {},
        }
        out
    }
}

/// How an error is shown to the error sink, indented by `indent` columns: a
/// plugin failure is followed by its cause, an aggregate by one numbered line
/// for each member.
pub open spec fn shown(error: CordisError, indent: nat) -> Seq<char>
    decreases error, 0nat,
{
    match error {
        CordisError::Aggregate { errors } => error.leaf_text() + shown_members(errors@, 0, indent),
        CordisError::PluginFailed(source) => error.leaf_text() + shown_source(source, indent),
        _ => error.leaf_text(),
    }
}

/// The lines of the members of an aggregate, from the given one on.
pub open spec fn shown_members(errors: Seq<Arc<CordisError>>, from: nat, indent: nat) -> Seq<char>
    decreases errors, errors.len() - from,
{
    if from >= errors.len() {
        seq![]
    } else {
        seq!['\n'] + spaces(indent) + decimal(from + 1) + ". "@ + shown(
            *errors[from as int],
            indent + 3,
        ) + shown_members(errors, from + 1, indent)
    }
}

/// A cause: an error of the kernel is shown as one, a foreign error by its
/// message and, on a line of its own, what it was caused by in turn.
pub open spec fn shown_source(source: ErrorSource, indent: nat) -> Seq<char>
    decreases source, 0nat,
{
    match source {
        ErrorSource::Cordis(error) => shown(*error, indent),
        ErrorSource::Foreign { message, source, .. } => match source {
            None => message@,
            Some(next) => message@ + seq!['\n'] + spaces(indent + 2) + "caused by: "@
                + shown_source(*next, indent + 2),
        },
    }
}

fn deeper(indent: &String, by: usize, Ghost(n): Ghost<nat>) -> (out: String)
    requires
        indent@ == spaces(n),
        by == 2 || by == 3,
    ensures
        out@ == spaces(n + by as nat),
{
    let mut out = indent.clone();
    out.push(' ');
    out.push(' ');
    if by == 3 {
        out.push(' ');
    }
    assert(out@ =~= spaces(n + by as nat));
    out
}

fn write_source(source: &ErrorSource, out: &mut String, indent: &String, Ghost(n): Ghost<nat>)
    requires
        indent@ == spaces(n),
    ensures
        final(out)@ == old(out)@ + shown_source(*source, n),
    decreases *source, 0nat,
{
    match source {
        ErrorSource::Cordis(error) => {
            write_error(error, out, indent, Ghost(n));
        },
        ErrorSource::Foreign { message, source, .. } => {
            let ghost start = out@;
            out.push_str(message.as_str());
            match source {
                None => {},
                Some(next) => {
                    out.push('\n');
                    let inner = deeper(indent, 2, Ghost(n));
                    out.push_str(inner.as_str());
                    out.push_str("caused by: ");
                    write_source(next, out, &inner, Ghost(n + 2));
                    assert(out@ =~= start + (message@ + seq!['\n'] + spaces(n + 2) + "caused by: "@
                        + shown_source(**next, n + 2)));
                },
            }
        },
    }
}

fn write_members(
    errors: &Vec<Arc<CordisError>>,
    from: usize,
    out: &mut String,
    indent: &String,
    Ghost(n): Ghost<nat>,
)
    requires
        indent@ == spaces(n),
        from <= errors.len(),
    ensures
        final(out)@ == old(out)@ + shown_members(errors@, from as nat, n),
    decreases errors@, errors.len() - from,
{
    if from < errors.len() {
        let ghost start = out@;
        out.push('\n');
        out.push_str(indent.as_str());
        out.push_str(decimal_text((from + 1) as u64).as_str());
        out.push_str(". ");
        let inner = deeper(indent, 3, Ghost(n));
        write_error(&errors[from], out, &inner, Ghost(n + 3));
        write_members(errors, from + 1, out, indent, Ghost(n));
        assert(out@ =~= start + (seq!['\n'] + spaces(n) + decimal((from + 1) as nat) + ". "@ + shown(
            *errors@[from as int],
            n + 3,
        ) + shown_members(errors@, (from + 1) as nat, n)));
    } else {
        assert(out@ =~= out@ + shown_members(errors@, from as nat, n));
    }
}

fn write_error(error: &CordisError, out: &mut String, indent: &String, Ghost(n): Ghost<nat>)
    requires
        indent@ == spaces(n),
    ensures
        final(out)@ == old(out)@ + shown(*error, n),
    decreases *error, 0nat,
{
    let ghost start = out@;
    out.push_str(error.leaf_message().as_str());
    match error {
        CordisError::Aggregate { errors } => {
            write_members(errors, 0, out, indent, Ghost(n));
            assert(out@ =~= start + (error.leaf_text() + shown_members(errors@, 0, n)));
        },
        CordisError::PluginFailed(source) => {
            write_source(source, out, indent, Ghost(n));
            assert(out@ =~= start + (error.leaf_text() + shown_source(*source, n)));
        },
        _ => {},
    }
}

/// The text that the default error sink prints for `error`.
pub fn format_for_sink(error: &CordisError) -> (out: String)
    ensures
        out@ == shown(*error, 0),
{
    let mut out = String::new();
    let indent = String::new();
    assert(indent@ =~= spaces(0));
    write_error(error, &mut out, &indent, Ghost(0));
    assert(out@ =~= shown(*error, 0));
    out
}

} // verus!
