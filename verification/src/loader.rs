//! The libraries that a host has mapped, and the decisions on the way from a
//! plugin's directory to a module.

use std::sync::Arc;
use std::time::SystemTime;

use vstd::prelude::*;
use vstd::utf8::encode_utf8;

use crate::boot::{
    is_hash_text, is_sha256, starts_with, BootMeta, BootModel, PluginMeta, SdkIdentity,
};
use crate::digest::{sha256_hex, sha_bytes};
use crate::elf::{boot_of, parse_boot};
use crate::error::{single_issue, validation_issue, CordisError};
use crate::key::{same_key, TypeKey};
use crate::manifest::{check_manifest, manifest_fault, Fault, Interface, LoadError, Manifest};
use crate::text::{decimal, decimal_text, str_eq};

verus! {

#[verifier::external_type_specification]
#[verifier::external_body]
pub struct ExSystemTime(std::time::SystemTime);

/// A factory that a loaded library handed out; the host keeps it.
pub type FactoryId = u64;

/// A plugin that was loaded from a library.
pub struct Module {
    pub id: String,
    pub version: String,
    pub library_sha256: String,
    pub name: String,
    pub injects: Vec<TypeKey>,
    pub factory: FactoryId,
}

/// A library that was mapped. It stays mapped, also where no module came of it.
pub struct Retained {
    pub id: String,
    pub version: String,
    pub hash: String,
    pub bytes: u64,
    pub loaded_at: SystemTime,
    pub module: Option<Arc<Module>>,
}

#[derive(Debug)]
pub struct ModuleDiagnostic {
    pub id: String,
    pub version: String,
    pub library_sha256: String,
    pub mapped_bytes: u64,
    pub loaded_at: SystemTime,
    /// Counts the loader's own reference, and those of callers and fibers.
    pub strong_references: usize,
    pub usable: bool,
}

impl Clone for ModuleDiagnostic {
    fn clone(&self) -> (copy: Self)
        ensures
            copy == *self,
    {
        ModuleDiagnostic {
            id: self.id.clone(),
            version: self.version.clone(),
            library_sha256: self.library_sha256.clone(),
            mapped_bytes: self.mapped_bytes,
            loaded_at: self.loaded_at,
            strong_references: self.strong_references,
            usable: self.usable,
        }
    }
}

/// The loader of a host.
pub struct Loader {
    pub sdk: SdkIdentity,
    pub sdk_artifact_sha256: String,
    pub interfaces: Vec<Interface>,
    pub max_versions: usize,
    pub retained: Vec<Retained>,
}

/// The file that the kit was loaded from.
pub struct SdkFile {
    pub path: String,
    pub bytes: Vec<u8>,
}

/// What the host finds of the kit when it starts.
pub struct Startup {
    /// The buffer that the kit's identity was written to, and the length that
    /// the kit gave.
    pub boot_id: Vec<u8>,
    pub boot_id_len: usize,
    /// The kit's file, or why it could not be found or read.
    pub file: Result<SdkFile, String>,
}

/// The first thing for which a host refuses to start.
pub open spec fn startup_fault(
    artifact: Seq<char>,
    sdk: SdkIdentity,
    found: Startup,
) -> Option<Seq<char>> {
    if !is_hash_text(artifact) {
        Some("invalid embedded SDK artifact SHA-256"@)
    } else if found.boot_id_len != encode_utf8(sdk.id@).len() || !encode_utf8(
        sdk.id@,
    ).is_prefix_of(found.boot_id@) {
        Some("loaded SDK identity differs from host"@)
    } else {
        match found.file {
            Err(e) => Some(e@),
            Ok(file) => if sha256_hex(file.bytes@) != artifact {
                Some(
                    "loaded SDK artifact mismatch at "@ + file.path@ + ": expected "@ + artifact
                        + ", got "@ + sha256_hex(file.bytes@),
                )
            } else {
                None
            },
        }
    }
}

/// Where a library goes.
pub enum Place {
    /// It is loaded.
    Loaded(Arc<Module>),
    /// It is mapped, but no module came of it yet.
    Mapped(usize),
    /// It is to be mapped.
    Unmapped,
}

/// A library that may be loaded.
pub struct Admission {
    pub boot: BootMeta,
    pub hash: String,
    pub place: Place,
}

/// The retained library with that id and hash.
pub open spec fn is_retained(r: Retained, id: Seq<char>, hash: Seq<char>) -> bool {
    r.id@ == id && r.hash@ == hash
}

/// The first of the first `n` retained libraries with that id and hash.
pub open spec fn slot_of(retained: Seq<Retained>, id: Seq<char>, hash: Seq<char>, n: nat) -> Option<
    int,
>
    decreases n,
{
    if n == 0 {
        None
    } else {
        match slot_of(retained, id, hash, (n - 1) as nat) {
            Some(i) => Some(i),
            None => if is_retained(retained[n - 1], id, hash) {
                Some(n - 1)
            } else {
                None
            },
        }
    }
}

/// How many of the first `n` retained libraries are of that plugin.
pub open spec fn versions_of(retained: Seq<Retained>, id: Seq<char>, n: nat) -> nat
    decreases n,
{
    if n == 0 {
        0
    } else {
        versions_of(retained, id, (n - 1) as nat) + if retained[n - 1].id@ == id {
            1nat
        } else {
            0nat
        }
    }
}

/// No two of them are of the same plugin and have the same hash.
pub open spec fn each_mapped_once(retained: Seq<Retained>) -> bool {
    forall|i: int, j: int|
        #![trigger retained[i], retained[j]]
        0 <= i < j < retained.len() ==> !is_retained(
            retained[j],
            retained[i].id@,
            retained[i].hash@,
        )
}

/// The module that came of a library is of the plugin and has the hash that the
/// library is retained under.
pub open spec fn module_agrees(r: Retained) -> bool {
    r.module matches Some(module) ==> is_retained(r, module.id@, module.library_sha256@)
}

/// What is retained stays in its slot, and a module that came of it stays its
/// module.
pub open spec fn grown(before: Seq<Retained>, after: Seq<Retained>) -> bool {
    &&& before.len() <= after.len()
    &&& forall|i: int|
        0 <= i < before.len() ==> {
            let r = #[trigger] after[i];
            &&& r.id == before[i].id
            &&& r.version == before[i].version
            &&& r.hash == before[i].hash
            &&& r.bytes == before[i].bytes
            &&& r.loaded_at == before[i].loaded_at
            &&& before[i].module is Some ==> r.module == before[i].module
        }
}

/// The blob of a library names the plugin of the manifest and the host's kit.
pub open spec fn boot_agrees(loader: Loader, m: Manifest, boot: BootModel) -> bool {
    &&& boot.sdk_id == loader.sdk.id@
    &&& boot.sdk_artifact == loader.sdk_artifact_sha256@
    &&& boot.sdk_id == m.sdk.id@
    &&& boot.sdk_artifact == m.sdk.artifact_sha256@
    &&& boot.id == m.plugin.id@
    &&& boot.version == m.plugin.version@
}

/// The first thing for which a library is rejected before it is mapped.
pub open spec fn library_fault(loader: Loader, m: Manifest, bytes: Seq<u8>) -> Option<Fault> {
    let hash = sha256_hex(bytes);
    let retained = loader.retained@;
    if hash != m.plugin.library_sha256@ {
        Some(Fault { step: "binary"@, reason: "library SHA-256 mismatch: "@ + hash })
    } else {
        match boot_of(bytes) {
            Err(reason) => Some(Fault { step: "boot metadata"@, reason }),
            Ok(boot) => if !boot_agrees(loader, m, boot) {
                Some(
                    Fault {
                        step: "boot metadata"@,
                        reason: "binary identity differs from manifest or host"@,
                    },
                )
            } else if slot_of(retained, m.plugin.id@, hash, retained.len()) is None && versions_of(
                retained,
                m.plugin.id@,
                retained.len(),
            ) >= loader.max_versions {
                Some(
                    Fault {
                        step: "retention"@,
                        reason: "version limit "@ + decimal(loader.max_versions as nat)
                            + " reached; restart the host to reclaim code"@,
                    },
                )
            } else {
                None
            },
        }
    }
}

/// What came of asking a mapped library for its metadata.
pub enum MetaOutcome {
    /// The symbol is missing, for the given reason.
    Missing(String),
    Panicked,
    Returned(PluginMeta),
}

/// The metadata of a library name the plugin of the manifest and of the blob,
/// and the host's kit.
pub open spec fn meta_agrees(
    loader: Loader,
    m: Manifest,
    boot: BootModel,
    meta: PluginMeta,
) -> bool {
    &&& meta.sdk_id@ == loader.sdk.id@
    &&& meta.sdk_artifact_sha256@ == loader.sdk_artifact_sha256@
    &&& meta.sdk_id@ == boot.sdk_id
    &&& meta.sdk_artifact_sha256@ == boot.sdk_artifact
    &&& meta.id@ == m.plugin.id@
    &&& meta.version@ == m.plugin.version@
}

pub open spec fn meta_fault(
    loader: Loader,
    m: Manifest,
    boot: BootModel,
    outcome: MetaOutcome,
) -> Option<Fault> {
    let fault = |reason: Seq<char>| Some(Fault { step: "metadata"@, reason });
    match outcome {
        MetaOutcome::Missing(reason) => fault(reason@),
        MetaOutcome::Panicked => fault("metadata function panicked"@),
        MetaOutcome::Returned(meta) => if meta_agrees(loader, m, boot, meta) {
            None
        } else {
            fault("runtime identity differs from boot metadata or manifest"@)
        },
    }
}

/// What came of asking a mapped library for its factory.
pub enum EntryOutcome {
    /// The symbol is missing, for the given reason.
    Missing(String),
    Panicked,
    /// The library refused, with the given message.
    Refused(String),
    /// The factory panicked when asked for its name and dependencies.
    MetadataPanicked,
    Built { name: String, injects: Vec<TypeKey>, factory: FactoryId },
}

pub open spec fn entry_fault(outcome: EntryOutcome) -> Option<Fault> {
    let fault = |reason: Seq<char>| Some(Fault { step: "entry"@, reason });
    match outcome {
        EntryOutcome::Missing(reason) => fault(reason@),
        EntryOutcome::Panicked => fault("factory entry panicked"@),
        EntryOutcome::Refused(reason) => fault(reason@),
        EntryOutcome::MetadataPanicked => fault("factory metadata panicked"@),
        EntryOutcome::Built { .. } => None,
    }
}

/// `Arc::strong_count`: as many strong references as there are; the one that is
/// asked is among them.
#[verifier::external_body]
fn strong_count(module: &Arc<Module>) -> (count: usize)
    ensures
        count >= 1,
{
    Arc::strong_count(module)
}

impl Module {
    pub fn id(&self) -> (id: &str)
        ensures
            id@ == self.id@,
    {
        self.id.as_str()
    }

    pub fn version(&self) -> (version: &str)
        ensures
            version@ == self.version@,
    {
        self.version.as_str()
    }

    pub fn library_sha256(&self) -> (hash: &str)
        ensures
            hash@ == self.library_sha256@,
    {
        self.library_sha256.as_str()
    }
}

/// The keys are the same, one by one.
pub open spec fn same_keys(a: Seq<TypeKey>, b: Seq<TypeKey>) -> bool {
    a.len() == b.len() && forall|i: int| 0 <= i < a.len() ==> same_key(#[trigger] a[i], b[i])
}

/// One module can take the place of the other in a fiber.
pub open spec fn interchangeable(a: Module, b: Module) -> bool {
    a.id@ == b.id@ && a.name@ == b.name@ && same_keys(a.injects@, b.injects@)
}

/// The complaint about a module that cannot take another one's place.
pub open spec fn identity_complaint() -> Seq<char> {
    "plugin identity or dependency declaration changed; dispose and spawn a new fiber"@
}

fn keys_eq(a: &Vec<TypeKey>, b: &Vec<TypeKey>) -> (same: bool)
    ensures
        same == same_keys(a@, b@),
{
    if a.len() != b.len() {
        return false;
    }
    let mut i: usize = 0;
    while i < a.len()
        invariant
            a@.len() == b@.len(),
            forall|j: int| 0 <= j < i ==> same_key(#[trigger] a@[j], b@[j]),
        decreases a@.len() - i,
    {
        if !(a[i] == b[i]) {
            assert(!same_key(a@[i as int], b@[i as int]));
            return false;
        }
        i += 1;
    }
    true
}

/// A fiber made for one module accepts another only if that is the same plugin,
/// by id, name and declared dependencies.
pub fn check_module(expected: &Module, module: &Module) -> (result: Result<(), CordisError>)
    ensures
        if interchangeable(*expected, *module) {
            result == Ok::<(), CordisError>(())
        } else {
            result matches Err(e) && single_issue(e, identity_complaint())
        },
{
    if !str_eq(expected.id.as_str(), module.id.as_str()) || !str_eq(
        expected.name.as_str(),
        module.name.as_str(),
    ) || !keys_eq(&expected.injects, &module.injects) {
        return Err(
            validation_issue(
                "plugin identity or dependency declaration changed; dispose and spawn a new fiber".to_owned(),
            ),
        );
    }
    Ok(())
}

/// Decides whether a fiber can go over to a module. `current` is the module of
/// the fiber, if it has one.
pub fn check_swap(current: &Option<Arc<Module>>, module: &Module) -> (result: Result<
    (),
    CordisError,
>)
    ensures
        match *current {
            None => result matches Err(e) && single_issue(e, "fiber is not a dylib plugin"@),
            Some(c) => if interchangeable(*c, *module) {
                result == Ok::<(), CordisError>(())
            } else {
                result matches Err(e) && single_issue(e, identity_complaint())
            },
        },
{
    match current {
        None => Err(validation_issue("fiber is not a dylib plugin".to_owned())),
        Some(c) => check_module(c, module),
    }
}

impl Loader {
    /// Each library is mapped once, a module is that of the library it came of,
    /// and no plugin has more libraries mapped than the limit.
    pub open spec fn wf(&self) -> bool {
        &&& each_mapped_once(self.retained@)
        &&& forall|i: int|
            0 <= i < self.retained@.len() ==> module_agrees(#[trigger] self.retained@[i])
        &&& forall|id: Seq<char>| #[trigger]
            versions_of(self.retained@, id, self.retained@.len()) <= self.max_versions
    }

    /// Another library is mapped, in the slot behind the others.
    pub open spec fn has_mapped(
        &self,
        before: Loader,
        m: Manifest,
        hash: Seq<char>,
        bytes: u64,
        now: SystemTime,
    ) -> bool {
        &&& self.same_host(before)
        &&& self.retained@.len() == before.retained@.len() + 1
        &&& self.retained@.drop_last() == before.retained@
        &&& self.retained@.last().id@ == m.plugin.id@
        &&& self.retained@.last().version@ == m.plugin.version@
        &&& self.retained@.last().hash@ == hash
        &&& self.retained@.last().bytes == bytes
        &&& self.retained@.last().loaded_at == now
        &&& self.retained@.last().module is None
    }

    /// A loader, once the kit that is loaded has proved to be the one that the
    /// host was built with.
    pub fn new(
        sdk_artifact_sha256: String,
        sdk: SdkIdentity,
        found: &Startup,
        interfaces: Vec<Interface>,
        max_versions: usize,
    ) -> (result: Result<Loader, LoadError>)
        ensures
            match startup_fault(sdk_artifact_sha256@, sdk, *found) {
                Some(reason) => result matches Err(e) && e.tells(
                    "<host>"@,
                    ""@,
                    Fault { step: "startup"@, reason },
                ),
                None => {
                    &&& result matches Ok(loader)
                    &&& loader.sdk_artifact_sha256@ == sdk_artifact_sha256@
                    &&& loader.sdk == sdk
                    &&& loader.interfaces@ == interfaces@
                    &&& loader.max_versions == max_versions
                    &&& loader.retained@ == Seq::<Retained>::empty()
                    &&& loader.wf()
                },
            },
    {
        if !is_sha256(sdk_artifact_sha256.as_str()) {
            return Err(
                LoadError::new(
                    "<host>",
                    "",
                    "startup",
                    "invalid embedded SDK artifact SHA-256".to_owned(),
                ),
            );
        }
        let own = sdk.id.as_str().as_bytes();
        if found.boot_id_len != own.len() || !starts_with(found.boot_id.as_slice(), own) {
            return Err(
                LoadError::new(
                    "<host>",
                    "",
                    "startup",
                    "loaded SDK identity differs from host".to_owned(),
                ),
            );
        }
        match &found.file {
            Err(e) => Err(LoadError::new("<host>", "", "startup", e.clone())),
            Ok(file) => {
                let actual = sha_bytes(file.bytes.as_slice());
                if !str_eq(actual.as_str(), sdk_artifact_sha256.as_str()) {
                    let mut text = "loaded SDK artifact mismatch at ".to_owned();
                    text.push_str(file.path.as_str());
                    text.push_str(": expected ");
                    text.push_str(sdk_artifact_sha256.as_str());
                    text.push_str(", got ");
                    text.push_str(actual.as_str());
                    return Err(LoadError::new("<host>", "", "startup", text));
                }
                Ok(
                    Loader {
                        sdk,
                        sdk_artifact_sha256,
                        interfaces,
                        max_versions,
                        retained: Vec::new(),
                    },
                )
            },
        }
    }

    /// Decides whether this host accepts a manifest.
    pub fn admit_manifest(&self, m: &Manifest) -> (result: Result<(), LoadError>)
        ensures
            match manifest_fault(self.sdk, self.sdk_artifact_sha256@, self.interfaces@, *m) {
                None => result == Ok::<(), LoadError>(()),
                Some(fault) => result matches Err(e) && m.blames(e, fault),
            },
    {
        check_manifest(&self.sdk, self.sdk_artifact_sha256.as_str(), &self.interfaces, m)
    }

    fn find_slot(&self, id: &str, hash: &str) -> (slot: Option<usize>)
        ensures
            match (slot, slot_of(self.retained@, id@, hash@, self.retained@.len())) {
                (Some(i), Some(p)) => i == p && i < self.retained@.len(),
                (None, None) => true,
                _ => false,
            },
    {
        let mut slot: Option<usize> = None;
        let mut i: usize = 0;
        while i < self.retained.len()
            invariant
                i <= self.retained@.len(),
                match (slot, slot_of(self.retained@, id@, hash@, i as nat)) {
                    (Some(s), Some(p)) => s == p && s < self.retained@.len(),
                    (None, None) => true,
                    _ => false,
                },
            decreases self.retained@.len() - i,
        {
            if slot.is_none() && str_eq(self.retained[i].id.as_str(), id) && str_eq(
                self.retained[i].hash.as_str(),
                hash,
            ) {
                slot = Some(i);
            }
            i += 1;
        }
        slot
    }

    fn count_versions(&self, id: &str) -> (count: usize)
        ensures
            count == versions_of(self.retained@, id@, self.retained@.len()),
    {
        let mut count: usize = 0;
        let mut i: usize = 0;
        while i < self.retained.len()
            invariant
                count <= i <= self.retained@.len(),
                count == versions_of(self.retained@, id@, i as nat),
            decreases self.retained@.len() - i,
        {
            if str_eq(self.retained[i].id.as_str(), id) {
                count += 1;
            }
            i += 1;
        }
        count
    }

    /// Decides what to do with the library of a manifest that was accepted: a
    /// library that is mapped is never mapped again, and a plugin may have only
    /// so many of them.
    pub fn admit_library(&self, m: &Manifest, bytes: &[u8]) -> (result: Result<
        Admission,
        LoadError,
    >)
        requires
            self.wf(),
        ensures
            match library_fault(*self, *m, bytes@) {
                Some(fault) => result matches Err(e) && m.blames(e, fault),
                None => {
                    &&& result matches Ok(admission)
                    &&& Ok::<BootModel, Seq<char>>(admission.boot@) == boot_of(bytes@)
                    &&& admission.hash@ == sha256_hex(bytes@)
                    &&& match slot_of(
                        self.retained@,
                        m.plugin.id@,
                        sha256_hex(bytes@),
                        self.retained@.len(),
                    ) {
                        None => admission.place is Unmapped,
                        Some(i) => match self.retained@[i].module {
                            Some(module) => {
                                &&& admission.place == Place::Loaded(module)
                                &&& module.id@ == m.plugin.id@
                                &&& module.library_sha256@ == admission.hash@
                            },
                            None => {
                                &&& admission.place == Place::Mapped(i as usize)
                                &&& i < self.retained@.len()
                                &&& is_retained(self.retained@[i], m.plugin.id@, admission.hash@)
                            },
                        },
                    }
                },
            },
    {
        let hash = sha_bytes(bytes);
        if !str_eq(hash.as_str(), m.plugin.library_sha256.as_str()) {
            return Err(
                m.fail("binary", crate::text::joined("library SHA-256 mismatch: ", hash.as_str())),
            );
        }
        let boot = match parse_boot(bytes) {
            Ok(boot) => boot,
            Err(reason) => {
                return Err(m.fail("boot metadata", reason));
            },
        };
        if !str_eq(boot.sdk_id.as_str(), self.sdk.id.as_str()) || !str_eq(
            boot.sdk_artifact.as_str(),
            self.sdk_artifact_sha256.as_str(),
        ) || !str_eq(boot.sdk_id.as_str(), m.sdk.id.as_str()) || !str_eq(
            boot.sdk_artifact.as_str(),
            m.sdk.artifact_sha256.as_str(),
        ) || !str_eq(boot.id.as_str(), m.plugin.id.as_str()) || !str_eq(
            boot.version.as_str(),
            m.plugin.version.as_str(),
        ) {
            return Err(
                m.fail(
                    "boot metadata",
                    "binary identity differs from manifest or host".to_owned(),
                ),
            );
        }
        match self.find_slot(m.plugin.id.as_str(), hash.as_str()) {
            Some(slot) => {
                proof {
                    a_slot_is_that_of_its_library(
                        self.retained@,
                        m.plugin.id@,
                        hash@,
                        self.retained@.len(),
                    );
                    assert(module_agrees(self.retained@[slot as int]));
                }
                let place = match &self.retained[slot].module {
                    Some(module) => Place::Loaded(Arc::clone(module)),
                    None => Place::Mapped(slot),
                };
                Ok(Admission { boot, hash, place })
            },
            None => {
                if self.count_versions(m.plugin.id.as_str()) >= self.max_versions {
                    let mut text = "version limit ".to_owned();
                    text.push_str(decimal_text(self.max_versions as u64).as_str());
                    text.push_str(" reached; restart the host to reclaim code");
                    return Err(m.fail("retention", text));
                }
                Ok(Admission { boot, hash, place: Place::Unmapped })
            },
        }
    }

    /// Takes note of a library that has just been mapped, and says in which
    /// slot.
    pub fn retain(&mut self, m: &Manifest, hash: String, bytes: u64, now: SystemTime) -> (slot:
        usize)
        requires
            old(self).wf(),
            slot_of(
                old(self).retained@,
                m.plugin.id@,
                hash@,
                old(self).retained@.len(),
            ) is None,
            versions_of(old(self).retained@, m.plugin.id@, old(self).retained@.len())
                < old(self).max_versions,
        ensures
            slot == old(self).retained@.len(),
            final(self).has_mapped(*old(self), *m, hash@, bytes, now),
            final(self).wf(),
            grown(old(self).retained@, final(self).retained@),
    {
        let slot: usize = self.retained.len();
        let ghost hash_text = hash@;
        self.retained.push(
            Retained {
                id: m.plugin.id.clone(),
                version: m.plugin.version.clone(),
                hash,
                bytes,
                loaded_at: now,
                module: None,
            },
        );
        assert(self.retained@.drop_last() =~= old(self).retained@);
        proof {
            mapping_keeps_the_order(*old(self), *self, *m, hash_text);
        }
        slot
    }

    /// All but what is retained is the same.
    pub open spec fn same_host(&self, other: Loader) -> bool {
        &&& self.sdk == other.sdk
        &&& self.sdk_artifact_sha256 == other.sdk_artifact_sha256
        &&& self.interfaces == other.interfaces
        &&& self.max_versions == other.max_versions
    }

    /// Checks what a mapped library says of itself.
    pub fn admit_meta(&self, m: &Manifest, boot: &BootMeta, outcome: &MetaOutcome) -> (result:
        Result<(), LoadError>)
        ensures
            match meta_fault(*self, *m, boot@, *outcome) {
                None => result == Ok::<(), LoadError>(()),
                Some(fault) => result matches Err(e) && m.blames(e, fault),
            },
    {
        match outcome {
            MetaOutcome::Missing(reason) => Err(m.fail("metadata", reason.clone())),
            MetaOutcome::Panicked => Err(
                m.fail("metadata", "metadata function panicked".to_owned()),
            ),
            MetaOutcome::Returned(meta) => {
                if !str_eq(meta.sdk_id, self.sdk.id.as_str()) || !str_eq(
                    meta.sdk_artifact_sha256,
                    self.sdk_artifact_sha256.as_str(),
                ) || !str_eq(meta.sdk_id, boot.sdk_id.as_str()) || !str_eq(
                    meta.sdk_artifact_sha256,
                    boot.sdk_artifact.as_str(),
                ) || !str_eq(meta.id, m.plugin.id.as_str()) || !str_eq(
                    meta.version,
                    m.plugin.version.as_str(),
                ) {
                    return Err(
                        m.fail(
                            "metadata",
                            "runtime identity differs from boot metadata or manifest".to_owned(),
                        ),
                    );
                }
                Ok(())
            },
        }
    }

    /// Makes the module of a mapped library from what came of its entry.
    pub fn install(&mut self, m: &Manifest, slot: usize, hash: String, outcome: EntryOutcome) -> (
    result: Result<Arc<Module>, LoadError>)
        requires
            old(self).wf(),
            slot < old(self).retained@.len(),
            is_retained(old(self).retained@[slot as int], m.plugin.id@, hash@),
            old(self).retained@[slot as int].module is None,
        ensures
            final(self).wf(),
            final(self).same_host(*old(self)),
            grown(old(self).retained@, final(self).retained@),
            match entry_fault(outcome) {
                Some(fault) => {
                    &&& result matches Err(e)
                    &&& m.blames(e, fault)
                    &&& final(self).retained@ == old(self).retained@
                },
                None => {
                    &&& result matches Ok(module)
                    &&& module.id@ == m.plugin.id@
                    &&& module.version@ == m.plugin.version@
                    &&& module.library_sha256@ == hash@
                    &&& outcome == (EntryOutcome::Built {
                        name: module.name,
                        injects: module.injects,
                        factory: module.factory,
                    })
                    &&& final(self).retained@ == old(self).retained@.update(
                        slot as int,
                        Retained {
                            module: Some(module),
                            ..old(self).retained@[slot as int]
                        },
                    )
                },
            },
    {
        match outcome {
            EntryOutcome::Missing(reason) => Err(m.fail("entry", reason)),
            EntryOutcome::Panicked => Err(m.fail("entry", "factory entry panicked".to_owned())),
            EntryOutcome::Refused(reason) => Err(m.fail("entry", reason)),
            EntryOutcome::MetadataPanicked => Err(
                m.fail("entry", "factory metadata panicked".to_owned()),
            ),
            EntryOutcome::Built { name, injects, factory } => {
                let module = Arc::new(
                    Module {
                        id: m.plugin.id.clone(),
                        version: m.plugin.version.clone(),
                        library_sha256: hash,
                        name,
                        injects,
                        factory,
                    },
                );
                self.retained[slot].module = Some(Arc::clone(&module));
                assert(self.retained@ =~= old(self).retained@.update(
                    slot as int,
                    Retained { module: Some(module), ..old(self).retained@[slot as int] },
                ));
                proof {
                    installing_keeps_the_order(*old(self), *self, slot as int);
                }
                Ok(module)
            },
        }
    }

    /// What is retained, in the order of mapping.
    pub fn diagnostics(&self) -> (list: Vec<ModuleDiagnostic>)
        ensures
            list@.len() == self.retained@.len(),
            forall|i: int|
                0 <= i < list@.len() ==> reports(#[trigger] list@[i], self.retained@[i]),
    {
        let mut list: Vec<ModuleDiagnostic> = Vec::new();
        let mut i: usize = 0;
        while i < self.retained.len()
            invariant
                i <= self.retained@.len(),
                list@.len() == i,
                forall|j: int| 0 <= j < i ==> reports(#[trigger] list@[j], self.retained@[j]),
            decreases self.retained@.len() - i,
        {
            let entry = &self.retained[i];
            let (strong_references, usable): (usize, bool) = match &entry.module {
                Some(module) => (strong_count(module), true),
                None => (0, false),
            };
            list.push(
                ModuleDiagnostic {
                    id: entry.id.clone(),
                    version: entry.version.clone(),
                    library_sha256: entry.hash.clone(),
                    mapped_bytes: entry.bytes,
                    loaded_at: entry.loaded_at,
                    strong_references,
                    usable,
                },
            );
            i += 1;
        }
        list
    }
}

/// The report on a retained library. How many others refer to its module is
/// left open.
pub open spec fn reports(d: ModuleDiagnostic, r: Retained) -> bool {
    &&& d.id@ == r.id@
    &&& d.version@ == r.version@
    &&& d.library_sha256@ == r.hash@
    &&& d.mapped_bytes == r.bytes
    &&& d.loaded_at == r.loaded_at
    &&& d.usable == (r.module is Some)
    &&& (d.strong_references > 0) == d.usable
}

proof fn earlier_slots(a: Seq<Retained>, b: Seq<Retained>, id: Seq<char>, hash: Seq<char>, n: nat)
    requires
        n <= a.len() <= b.len(),
        forall|i: int|
            0 <= i < n ==> (#[trigger] a[i]).id@ == b[i].id@ && a[i].hash@ == b[i].hash@,
    ensures
        slot_of(a, id, hash, n) == slot_of(b, id, hash, n),
        versions_of(a, id, n) == versions_of(b, id, n),
    decreases n,
{
    if n > 0 {
        earlier_slots(a, b, id, hash, (n - 1) as nat);
        assert(a[n - 1].id@ == b[n - 1].id@);
    }
}

proof fn a_slot_is_that_of_its_library(
    retained: Seq<Retained>,
    id: Seq<char>,
    hash: Seq<char>,
    n: nat,
)
    requires
        n <= retained.len(),
    ensures
        match slot_of(retained, id, hash, n) {
            Some(i) => 0 <= i < n && is_retained(retained[i], id, hash),
            None => forall|i: int| 0 <= i < n ==> !is_retained(#[trigger] retained[i], id, hash),
        },
    decreases n,
{
    if n > 0 {
        a_slot_is_that_of_its_library(retained, id, hash, (n - 1) as nat);
    }
}

/// The slot of a library is the only entry for its plugin and its hash.
pub proof fn a_library_has_one_slot(loader: Loader, i: int)
    requires
        loader.wf(),
        0 <= i < loader.retained@.len(),
    ensures
        slot_of(
            loader.retained@,
            loader.retained@[i].id@,
            loader.retained@[i].hash@,
            loader.retained@.len(),
        ) == Some(i),
        forall|j: int|
            0 <= j < loader.retained@.len() && j != i ==> !is_retained(
                #[trigger] loader.retained@[j],
                loader.retained@[i].id@,
                loader.retained@[i].hash@,
            ),
{
    let all = loader.retained@;
    a_slot_is_that_of_its_library(all, all[i].id@, all[i].hash@, all.len());
    assert(is_retained(all[i], all[i].id@, all[i].hash@));
    assert forall|j: int| 0 <= j < all.len() && j != i implies !is_retained(
        #[trigger] all[j],
        all[i].id@,
        all[i].hash@,
    ) by {
        if j < i {
            assert(!is_retained(all[i], all[j].id@, all[j].hash@));
        }
    }
}

proof fn mapping_keeps_the_order(before: Loader, after: Loader, m: Manifest, hash: Seq<char>)
    requires
        before.wf(),
        slot_of(before.retained@, m.plugin.id@, hash, before.retained@.len()) is None,
        versions_of(before.retained@, m.plugin.id@, before.retained@.len()) < before.max_versions,
        after.same_host(before),
        after.retained@.len() == before.retained@.len() + 1,
        after.retained@.drop_last() == before.retained@,
        is_retained(after.retained@.last(), m.plugin.id@, hash),
        after.retained@.last().module is None,
    ensures
        after.wf(),
        grown(before.retained@, after.retained@),
{
    let old_list = before.retained@;
    let list = after.retained@;
    let n = old_list.len();
    assert forall|i: int| 0 <= i < n implies #[trigger] list[i] == old_list[i] by {
        assert(list.drop_last()[i] == list[i]);
    }
    a_slot_is_that_of_its_library(old_list, m.plugin.id@, hash, n);
    assert forall|i: int, j: int|
        #![trigger list[i], list[j]]
        0 <= i < j < list.len() implies !is_retained(list[j], list[i].id@, list[i].hash@) by {
        assert(list[i] == old_list[i]);
        if j < n {
            assert(list[j] == old_list[j]);
        } else {
            assert(!is_retained(old_list[i], m.plugin.id@, hash));
        }
    }
    assert forall|i: int| 0 <= i < list.len() implies module_agrees(#[trigger] list[i]) by {
        if i < n {
            assert(module_agrees(old_list[i]));
        }
    }
    assert forall|id: Seq<char>| #[trigger]
        versions_of(list, id, list.len()) <= after.max_versions by {
        earlier_slots(old_list, list, id, hash, n);
        assert(versions_of(old_list, id, n) <= before.max_versions);
    }
}

proof fn installing_keeps_the_order(before: Loader, after: Loader, slot: int)
    requires
        before.wf(),
        after.same_host(before),
        0 <= slot < before.retained@.len(),
        before.retained@[slot].module is None,
        after.retained@ == before.retained@.update(
            slot,
            Retained { module: after.retained@[slot].module, ..before.retained@[slot] },
        ),
        module_agrees(after.retained@[slot]),
    ensures
        after.wf(),
        grown(before.retained@, after.retained@),
{
    let old_list = before.retained@;
    let list = after.retained@;
    assert forall|i: int, j: int|
        #![trigger list[i], list[j]]
        0 <= i < j < list.len() implies !is_retained(list[j], list[i].id@, list[i].hash@) by {
        assert(!is_retained(old_list[j], old_list[i].id@, old_list[i].hash@));
    }
    assert forall|i: int| 0 <= i < list.len() implies module_agrees(#[trigger] list[i]) by {
        assert(module_agrees(old_list[i]));
    }
    assert forall|id: Seq<char>| #[trigger]
        versions_of(list, id, list.len()) <= after.max_versions by {
        earlier_slots(old_list, list, id, Seq::empty(), list.len());
        assert(versions_of(old_list, id, old_list.len()) <= before.max_versions);
    }
}

/// Whatever is mapped or installed later, one call after the other, leaves what
/// was retained before.
pub proof fn growth_adds_up(a: Seq<Retained>, b: Seq<Retained>, c: Seq<Retained>)
    requires
        grown(a, b),
        grown(b, c),
    ensures
        grown(a, a),
        grown(a, c),
{
    assert forall|i: int| 0 <= i < a.len() implies {
        let r = #[trigger] c[i];
        &&& r.id == a[i].id
        &&& r.version == a[i].version
        &&& r.hash == a[i].hash
        &&& r.bytes == a[i].bytes
        &&& r.loaded_at == a[i].loaded_at
        &&& a[i].module is Some ==> r.module == a[i].module
    } by {
        assert(b[i].id == a[i].id);
    }
}

/// A plugin that is loaded again, from the same manifest and the same bytes, is
/// found loaded, with the same module, however much was mapped in between and
/// also at the version limit. Nothing is mapped for it.
pub proof fn repeated_loads_give_the_same_module(
    first: Loader,
    later: Loader,
    m: Manifest,
    bytes: Seq<u8>,
    slot: int,
    module: Arc<Module>,
)
    requires
        first.wf(),
        later.wf(),
        later.same_host(first),
        grown(first.retained@, later.retained@),
        library_fault(first, m, bytes) is None,
        0 <= slot < first.retained@.len(),
        is_retained(first.retained@[slot], m.plugin.id@, sha256_hex(bytes)),
        first.retained@[slot].module == Some(module),
    ensures
        library_fault(later, m, bytes) is None,
        slot_of(
            later.retained@,
            m.plugin.id@,
            sha256_hex(bytes),
            later.retained@.len(),
        ) == Some(slot),
        later.retained@[slot].module == Some(module),
{
    assert(later.retained@[slot].id == first.retained@[slot].id);
    a_library_has_one_slot(later, slot);
}

/// All manifests under which the same bytes are admitted name the same plugin, in
/// the same version and with the same hash, so that a module that was made under
/// one of them is what another one asks for.
pub proof fn one_library_is_one_version(
    first: Loader,
    later: Loader,
    m: Manifest,
    again: Manifest,
    bytes: Seq<u8>,
    module: Module,
)
    requires
        library_fault(first, m, bytes) is None,
        library_fault(later, again, bytes) is None,
        module.id@ == m.plugin.id@,
        module.version@ == m.plugin.version@,
        module.library_sha256@ == sha256_hex(bytes),
    ensures
        module.id@ == again.plugin.id@,
        module.version@ == again.plugin.version@,
        module.library_sha256@ == again.plugin.library_sha256@,
{
}

/// A library whose metadata or entry failed after it was mapped has exactly one
/// entry, without a module. A retry, from the same manifest and bytes, finds that
/// entry, also at the version limit, so that nothing is mapped again.
pub proof fn failed_loads_keep_one_entry(
    before: Loader,
    after: Loader,
    m: Manifest,
    bytes: Seq<u8>,
    size: u64,
    now: SystemTime,
)
    requires
        before.wf(),
        after.wf(),
        library_fault(before, m, bytes) is None,
        after.has_mapped(before, m, sha256_hex(bytes), size, now),
    ensures
        ({
            let slot = before.retained@.len() as int;
            &&& is_retained(after.retained@[slot], m.plugin.id@, sha256_hex(bytes))
            &&& after.retained@[slot].module is None
            &&& forall|j: int|
                0 <= j < after.retained@.len() && j != slot ==> !is_retained(
                    #[trigger] after.retained@[j],
                    m.plugin.id@,
                    sha256_hex(bytes),
                )
            &&& slot_of(
                after.retained@,
                m.plugin.id@,
                sha256_hex(bytes),
                after.retained@.len(),
            ) == Some(slot)
            &&& library_fault(after, m, bytes) is None
        }),
{
    a_library_has_one_slot(after, before.retained@.len() as int);
}

/// A library that was mapped keeps its slot, whatever is mapped later, so that
/// it is never mapped a second time.
pub proof fn mapped_libraries_keep_their_slot(
    retained: Seq<Retained>,
    next: Retained,
    id: Seq<char>,
    hash: Seq<char>,
)
    ensures
        slot_of(retained, id, hash, retained.len()) matches Some(i) ==> slot_of(
            retained.push(next),
            id,
            hash,
            retained.len() + 1,
        ) == Some(i),
        slot_of(retained, id, hash, retained.len()) is None && is_retained(next, id, hash)
            ==> slot_of(retained.push(next), id, hash, retained.len() + 1) == Some(
            retained.len() as int,
        ),
{
    earlier_slots(retained, retained.push(next), id, hash, retained.len());
}

/// Giving a mapped library its module changes no slot and no number of versions.
pub proof fn modules_take_no_slot(
    retained: Seq<Retained>,
    slot: int,
    module: Arc<Module>,
    id: Seq<char>,
    hash: Seq<char>,
)
    requires
        0 <= slot < retained.len(),
    ensures
        ({
            let after = retained.update(
                slot,
                Retained { module: Some(module), ..retained[slot] },
            );
            &&& slot_of(after, id, hash, after.len()) == slot_of(
                retained,
                id,
                hash,
                retained.len(),
            )
            &&& versions_of(after, id, after.len()) == versions_of(retained, id, retained.len())
        }),
{
    let after = retained.update(slot, Retained { module: Some(module), ..retained[slot] });
    earlier_slots(retained, after, id, hash, retained.len());
}

/// No plugin comes to have more libraries mapped than the limit, if each is
/// admitted before it is mapped.
pub proof fn the_version_limit_holds(
    loader: Loader,
    m: Manifest,
    bytes: Seq<u8>,
    next: Retained,
    id: Seq<char>,
)
    requires
        versions_of(loader.retained@, id, loader.retained@.len()) <= loader.max_versions,
        library_fault(loader, m, bytes) is None,
        slot_of(
            loader.retained@,
            m.plugin.id@,
            sha256_hex(bytes),
            loader.retained@.len(),
        ) is None,
        next.id@ == m.plugin.id@,
    ensures
        versions_of(loader.retained@.push(next), id, loader.retained@.len() + 1)
            <= loader.max_versions,
{
    earlier_slots(
        loader.retained@,
        loader.retained@.push(next),
        id,
        sha256_hex(bytes),
        loader.retained@.len(),
    );
}

} // verus!
