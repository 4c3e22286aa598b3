//! What a plugin's manifest claims, and whether the host accepts it.

use vstd::prelude::*;

use crate::boot::{is_hash_text, is_sha256, SdkIdentity};
use crate::paths::{is_filename, is_plain_filename};
use crate::text::str_eq;
use crate::versions::{requirement_met, requirement_parsed, version_parsed, Requirement, Version};

verus! {

pub struct PluginManifest {
    pub id: String,
    pub version: String,
    pub library: String,
    pub library_sha256: String,
}

pub struct SdkManifest {
    pub version: String,
    pub id: String,
    pub artifact_sha256: String,
}

pub struct BuildManifest {
    pub target: String,
    pub rustc: String,
    pub lock_sha256: String,
}

pub struct Manifest {
    pub plugin: PluginManifest,
    pub sdk: SdkManifest,
    /// The interfaces required, each with what its version must meet, in the
    /// order in which they are looked at.
    pub interfaces: Vec<(String, String)>,
    pub build: BuildManifest,
}

/// An interface that the host offers.
pub struct Interface {
    pub name: String,
    pub version: Version,
}

#[derive(Debug)]
pub struct LoadError {
    pub plugin: String,
    pub version: String,
    pub step: &'static str,
    pub reason: String,
}

/// The step at which a load fails, and why.
pub struct Fault {
    pub step: Seq<char>,
    pub reason: Seq<char>,
}

impl LoadError {
    /// The error is about that plugin and says that of it.
    pub open spec fn tells(self, plugin: Seq<char>, version: Seq<char>, fault: Fault) -> bool {
        &&& self.plugin@ == plugin
        &&& self.version@ == version
        &&& self.step@ == fault.step
        &&& self.reason@ == fault.reason
    }

    pub fn new(plugin: &str, version: &str, step: &'static str, reason: String) -> (e: LoadError)
        ensures
            e.tells(plugin@, version@, Fault { step: step@, reason: reason@ }),
    {
        LoadError { plugin: plugin.to_owned(), version: version.to_owned(), step, reason }
    }

    /// The error of a manifest that could not be read or parsed.
    pub fn unreadable(reason: String) -> (e: LoadError)
        ensures
            e.tells("<unknown>"@, ""@, Fault { step: "manifest"@, reason: reason@ }),
    {
        LoadError::new("<unknown>", "", "manifest", reason)
    }

    pub fn to_text(&self) -> (text: String)
        ensures
            text@ == "plugin "@ + self.plugin@ + " "@ + self.version@ + ": "@ + self.step@ + ": "@
                + self.reason@,
    {
        let mut text = String::new();
        text.push_str("plugin ");
        text.push_str(self.plugin.as_str());
        text.push_str(" ");
        text.push_str(self.version.as_str());
        text.push_str(": ");
        text.push_str(self.step);
        text.push_str(": ");
        text.push_str(self.reason.as_str());
        assert(text@ =~= "plugin "@ + self.plugin@ + " "@ + self.version@ + ": "@ + self.step@
            + ": "@ + self.reason@);
        text
    }
}

impl Manifest {
    /// The error is about this plugin.
    pub open spec fn blames(self, e: LoadError, fault: Fault) -> bool {
        e.tells(self.plugin.id@, self.plugin.version@, fault)
    }

    pub fn fail(&self, step: &'static str, reason: String) -> (e: LoadError)
        ensures
            self.blames(e, Fault { step: step@, reason: reason@ }),
    {
        LoadError::new(self.plugin.id.as_str(), self.plugin.version.as_str(), step, reason)
    }
}

/// Where the interface of that name stands among the first `n`.
pub open spec fn place_of(have: Seq<Interface>, name: Seq<char>, n: nat) -> Option<int>
    decreases n,
{
    if n == 0 {
        None
    } else {
        match place_of(have, name, (n - 1) as nat) {
            Some(i) => Some(i),
            None => if have[n - 1].name@ == name {
                Some(n - 1)
            } else {
                None
            },
        }
    }
}

/// What is wrong with a requirement, given what the host offers.
pub open spec fn interface_fault(
    have: Seq<Interface>,
    name: Seq<char>,
    requirement: Seq<char>,
) -> Option<Seq<char>> {
    match requirement_parsed(requirement) {
        Err(message) => Some(message),
        Ok(shown) => match place_of(have, name, have.len()) {
            None => Some("missing interface "@ + name),
            Some(i) => if requirement_met(requirement, have[i].version.source()) {
                None
            } else {
                Some(
                    name + " "@ + version_parsed(have[i].version.source())->Ok_0
                        + " does not meet "@ + shown,
                )
            },
        },
    }
}

/// The first thing that is wrong with the first `n` requirements.
pub open spec fn interfaces_fault(
    have: Seq<Interface>,
    wanted: Seq<(String, String)>,
    n: nat,
) -> Option<Seq<char>>
    decreases n,
{
    if n == 0 {
        None
    } else {
        match interfaces_fault(have, wanted, (n - 1) as nat) {
            Some(reason) => Some(reason),
            None => interface_fault(have, wanted[n - 1].0@, wanted[n - 1].1@),
        }
    }
}

/// The first thing for which a host rejects a manifest. `artifact` is the hash
/// of the host's kit.
pub open spec fn manifest_fault(
    sdk: SdkIdentity,
    artifact: Seq<char>,
    have: Seq<Interface>,
    m: Manifest,
) -> Option<Fault> {
    let fault = |reason: Seq<char>| Some(Fault { step: "manifest"@, reason });
    if m.plugin.id@.len() == 0 || m.plugin.version@.len() == 0 {
        fault("plugin id and version must be nonempty"@)
    } else if m.build.target@ != sdk.target@ {
        fault("target mismatch: "@ + m.build.target@)
    } else if m.build.rustc@ != sdk.rustc@ {
        fault("rustc mismatch: "@ + m.build.rustc@)
    } else if m.sdk.id@ != sdk.id@ || m.sdk.artifact_sha256@ != artifact {
        fault(
            "SDK mismatch: manifest id="@ + m.sdk.id@ + " artifact="@ + m.sdk.artifact_sha256@
                + ", host id="@ + sdk.id@ + " artifact="@ + artifact,
        )
    } else if m.sdk.version@ != sdk.version@ {
        fault("SDK version mismatch: "@ + m.sdk.version@)
    } else if !is_hash_text(m.plugin.library_sha256@) || !is_hash_text(m.build.lock_sha256@) {
        fault("invalid SHA-256 field"@)
    } else {
        match interfaces_fault(have, m.interfaces@, m.interfaces@.len()) {
            Some(reason) => Some(Fault { step: "interfaces"@, reason }),
            None => if !is_filename(m.plugin.library@) {
                fault("library must be a filename"@)
            } else {
                None
            },
        }
    }
}

proof fn faults_persist(have: Seq<Interface>, wanted: Seq<(String, String)>, n: nat, m: nat)
    requires
        n <= m,
    ensures
        interfaces_fault(have, wanted, n) is Some ==> interfaces_fault(have, wanted, m)
            == interfaces_fault(have, wanted, n),
    decreases m,
{
    if n < m {
        faults_persist(have, wanted, n, (m - 1) as nat);
    }
}

fn find_interface(have: &Vec<Interface>, name: &str) -> (found: Option<usize>)
    ensures
        match (found, place_of(have@, name@, have@.len())) {
            (Some(i), Some(p)) => i == p && i < have@.len(),
            (None, None) => true,
            _ => false,
        },
{
    let mut found: Option<usize> = None;
    let mut i: usize = 0;
    while i < have.len()
        invariant
            i <= have@.len(),
            match (found, place_of(have@, name@, i as nat)) {
                (Some(f), Some(p)) => f == p && f < have@.len(),
                (None, None) => true,
                _ => false,
            },
        decreases have@.len() - i,
    {
        if found.is_none() && str_eq(have[i].name.as_str(), name) {
            found = Some(i);
        }
        i += 1;
    }
    found
}

/// Checks what a plugin requires of one interface.
pub fn check_interface(have: &Vec<Interface>, name: &str, requirement: &str) -> (result: Result<
    (),
    String,
>)
    ensures
        match interface_fault(have@, name@, requirement@) {
            None => result == Ok::<(), String>(()),
            Some(reason) => result matches Err(e) && e@ == reason,
        },
{
    let parsed = match Requirement::parse(requirement) {
        Ok(parsed) => parsed,
        Err(message) => {
            return Err(message);
        },
    };
    match find_interface(have, name) {
        None => Err(crate::text::joined("missing interface ", name)),
        Some(i) => {
            let actual = &have[i].version;
            if parsed.matches(actual) {
                return Ok(());
            }
            let mut text = name.to_owned();
            text.push_str(" ");
            text.push_str(actual.to_text());
            text.push_str(" does not meet ");
            text.push_str(parsed.to_text());
            Err(text)
        },
    }
}

/// Decides whether the host accepts a manifest.
pub fn check_manifest(
    sdk: &SdkIdentity,
    artifact: &str,
    have: &Vec<Interface>,
    m: &Manifest,
) -> (result: Result<(), LoadError>)
    ensures
        match manifest_fault(*sdk, artifact@, have@, *m) {
            None => result == Ok::<(), LoadError>(()),
            Some(fault) => result matches Err(e) && m.blames(e, fault),
        },
{
    if m.plugin.id.as_str().is_empty() || m.plugin.version.as_str().is_empty() {
        return Err(m.fail("manifest", "plugin id and version must be nonempty".to_owned()));
    }
    if !str_eq(m.build.target.as_str(), sdk.target.as_str()) {
        return Err(
            m.fail("manifest", crate::text::joined("target mismatch: ", m.build.target.as_str())),
        );
    }
    if !str_eq(m.build.rustc.as_str(), sdk.rustc.as_str()) {
        return Err(
            m.fail("manifest", crate::text::joined("rustc mismatch: ", m.build.rustc.as_str())),
        );
    }
    if !str_eq(m.sdk.id.as_str(), sdk.id.as_str()) || !str_eq(
        m.sdk.artifact_sha256.as_str(),
        artifact,
    ) {
        let mut text = "SDK mismatch: manifest id=".to_owned();
        text.push_str(m.sdk.id.as_str());
        text.push_str(" artifact=");
        text.push_str(m.sdk.artifact_sha256.as_str());
        text.push_str(", host id=");
        text.push_str(sdk.id.as_str());
        text.push_str(" artifact=");
        text.push_str(artifact);
        return Err(m.fail("manifest", text));
    }
    if !str_eq(m.sdk.version.as_str(), sdk.version.as_str()) {
        return Err(
            m.fail("manifest", crate::text::joined("SDK version mismatch: ", m.sdk.version.as_str())),
        );
    }
    if !is_sha256(m.plugin.library_sha256.as_str()) || !is_sha256(m.build.lock_sha256.as_str()) {
        return Err(m.fail("manifest", "invalid SHA-256 field".to_owned()));
    }
    let mut i: usize = 0;
    while i < m.interfaces.len()
        invariant
            i <= m.interfaces@.len(),
            interfaces_fault(have@, m.interfaces@, i as nat) is None,
            interfaces_fault(have@, m.interfaces@, m.interfaces@.len()) matches Some(reason)
                ==> manifest_fault(*sdk, artifact@, have@, *m) == Some(
                Fault { step: "interfaces"@, reason },
            ),
        decreases m.interfaces@.len() - i,
    {
        match check_interface(have, m.interfaces[i].0.as_str(), m.interfaces[i].1.as_str()) {
            Ok(()) => {},
            Err(reason) => {
                proof {
                    faults_persist(
                        have@,
                        m.interfaces@,
                        (i + 1) as nat,
                        m.interfaces@.len(),
                    );
                }
                return Err(m.fail("interfaces", reason));
            },
        }
        i += 1;
    }
    if !is_plain_filename(m.plugin.library.as_str()) {
        return Err(m.fail("manifest", "library must be a filename".to_owned()));
    }
    Ok(())
}

} // verus!
