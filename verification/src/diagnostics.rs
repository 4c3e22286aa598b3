//! Read-only snapshots of fiber ownership and service resolution.

use std::sync::Arc;

use crate::error::{CordisError, ServiceReadFailure};
use crate::fiber::{FiberState, PluginId};
use crate::key::{InstanceId, TypeKey};
use crate::text::joined;
use vstd::prelude::*;

verus! {

/// What keeps a declared dependency from being usable, or that it is.
#[derive(Debug, Clone, Copy, PartialEq, Eq, Structural)]
pub enum DependencyStatus {
    OutOfScope,
    Missing,
    Removing,
    ProviderInactive(FiberState),
    CheckPending,
    CheckRejected,
    CheckPanicked,
    Ready,
}

impl DependencyStatus {
    pub open spec fn text(&self) -> Seq<char> {
        match self {
            DependencyStatus::OutOfScope => "instance out of scope"@,
            DependencyStatus::Missing => "service missing"@,
            DependencyStatus::Removing => "service being removed"@,
            DependencyStatus::ProviderInactive(state) => "provider inactive ("@ + state.text() + ")"@,
            DependencyStatus::CheckPending => "check pending"@,
            DependencyStatus::CheckRejected => "check rejected"@,
            DependencyStatus::CheckPanicked => "check panicked"@,
            DependencyStatus::Ready => "ready"@,
        }
    }

    /// Readable form of the status.
    pub fn to_text(&self) -> (out: String)
        ensures
            out@ == self.text(),
    {
        match self {
            DependencyStatus::OutOfScope => "instance out of scope".to_owned(),
            DependencyStatus::Missing => "service missing".to_owned(),
            DependencyStatus::Removing => "service being removed".to_owned(),
            DependencyStatus::ProviderInactive(state) => {
                let mut out = joined("provider inactive (", state.name());
                out.push_str(")");
                out
            },
            DependencyStatus::CheckPending => "check pending".to_owned(),
            DependencyStatus::CheckRejected => "check rejected".to_owned(),
            DependencyStatus::CheckPanicked => "check panicked".to_owned(),
            DependencyStatus::Ready => "ready".to_owned(),
        }
    }

    /// The variant's name, with its argument in brackets.
    pub open spec fn variant(&self) -> Seq<char> {
        match self {
            DependencyStatus::OutOfScope => "OutOfScope"@,
            DependencyStatus::Missing => "Missing"@,
            DependencyStatus::Removing => "Removing"@,
            DependencyStatus::ProviderInactive(state) => "ProviderInactive("@ + state.text() + ")"@,
            DependencyStatus::CheckPending => "CheckPending"@,
            DependencyStatus::CheckRejected => "CheckRejected"@,
            DependencyStatus::CheckPanicked => "CheckPanicked"@,
            DependencyStatus::Ready => "Ready"@,
        }
    }

    pub fn variant_text(&self) -> (out: String)
        ensures
            out@ == self.variant(),
    {
        match self {
            DependencyStatus::OutOfScope => "OutOfScope".to_owned(),
            DependencyStatus::Missing => "Missing".to_owned(),
            DependencyStatus::Removing => "Removing".to_owned(),
            DependencyStatus::ProviderInactive(state) => {
                let mut out = joined("ProviderInactive(", state.name());
                out.push_str(")");
                out
            },
            DependencyStatus::CheckPending => "CheckPending".to_owned(),
            DependencyStatus::CheckRejected => "CheckRejected".to_owned(),
            DependencyStatus::CheckPanicked => "CheckPanicked".to_owned(),
            DependencyStatus::Ready => "Ready".to_owned(),
        }
    }
}

/// A view of live fibers and service bindings at one moment.
pub struct RuntimeDiagnostics {
    pub shutting_down: bool,
    pub plugins: Vec<PluginDiagnostics>,
    pub bindings: Vec<BindingDiagnostics>,
}

pub struct PluginDiagnostics {
    pub id: PluginId,
    pub instance: InstanceId,
    pub parent: Option<PluginId>,
    pub name: String,
    pub state: FiberState,
    pub generation: u64,
    pub error: Option<Arc<CordisError>>,
    pub injects: Vec<DependencyDiagnostics>,
    pub resolved_dependencies: Vec<ResolvedDependency>,
    pub accesses: Vec<ServiceAccess>,
}

pub struct DependencyDiagnostics {
    pub key: TypeKey,
    pub scope: Option<String>,
    pub status: DependencyStatus,
}

pub struct ResolvedDependency {
    pub key: TypeKey,
    pub scope: Option<String>,
    pub provider: PluginId,
    pub generation: u64,
}

/// One service read made by a fiber.
pub struct ServiceAccess {
    pub key: TypeKey,
    pub scope: Option<String>,
    pub provider: Option<PluginId>,
    pub generation: Option<u64>,
    pub declared: bool,
    pub external: bool,
    pub out_of_scope: bool,
    /// Whether this was a strict read.
    pub strict: bool,
    /// Why a strict read was rejected; absent on success and on optional reads.
    pub failure: Option<ServiceReadFailure>,
}

pub struct BindingDiagnostics {
    pub key: TypeKey,
    pub scope: Option<String>,
    pub provider: PluginId,
    pub generation: u64,
    pub removing: bool,
}

} // verus!
