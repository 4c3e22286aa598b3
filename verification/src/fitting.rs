//! What fits the host: manifests, libraries, bundles and file names.

use std::time::SystemTime;

use vstd::prelude::*;
use vstd::utf8::encode_utf8;

use crate::boot::{is_hash_text, BootModel, SdkIdentity};
use crate::bundle::{
    all_changed, file_fault, launch_changes, name_fault, own_environment,
    the_host_sees_only_the_bundle, unbound, value_in, Bound, BundledFile, EnvValue, FileState,
};
use crate::digest::{holds, sha256_hex};
use crate::elf::boot_of;
use crate::key::same_key;
use crate::list::{filter_empty, filter_step, whole};
use crate::loader::{
    entry_fault, grown, interchangeable, library_fault, meta_fault, reports, same_keys,
    slot_of, startup_fault, versions_of, EntryOutcome, Loader, MetaOutcome, Module, ModuleDiagnostic,
    Retained, Startup,
};
use crate::manifest::{
    interface_fault, interfaces_fault, manifest_fault, place_of, Fault, Interface, LoadError,
    Manifest,
};
use crate::paths::{components_among, is_filename, is_single, starts_component};
use crate::versions::{requirement_met, requirement_parsed};

verus! {

/// Another part of the path begins there: behind a slash, with neither a second slash
/// nor a lone dot.
pub open spec fn goes_on_at(path: Seq<char>, i: int) -> bool {
    &&& 0 < i < path.len()
    &&& path[i - 1] == '/'
    &&& path[i] != '/'
    &&& !(path[i] == '.' && (i + 1 == path.len() || path[i + 1] == '/'))
}

proof fn parts_are_counted(path: Seq<char>, n: nat)
    requires
        n <= path.len(),
    ensures
        n > 0 ==> components_among(path, n) >= 1,
        components_among(path, n) == 1 <==> n > 0 && forall|i: int|
            0 < i < n ==> !#[trigger] goes_on_at(path, i),
    decreases n,
{
    if n == 1 {
        assert(components_among(path, 0) == 0);
        assert(starts_component(path, 0));
    } else if n > 1 {
        parts_are_counted(path, (n - 1) as nat);
        assert(starts_component(path, n - 1) == goes_on_at(path, n - 1));
        if components_among(path, n) == 1 {
            assert forall|i: int| 0 < i < n implies !#[trigger] goes_on_at(path, i) by {}
        }
    }
}

/// A path is of one part exactly if it is not empty and no other part begins in it.
pub proof fn single_parts_do_not_go_on(path: Seq<char>)
    ensures
        is_single(path) <==> path.len() > 0 && forall|i: int| !#[trigger] goes_on_at(path, i),
{
    parts_are_counted(path, path.len());
}

/// The path names a file in the directory itself: one part, which is not the root, the
/// directory or the one above.
pub open spec fn plain_name(path: Seq<char>) -> bool {
    &&& path.len() > 0
    &&& path[0] != '/'
    &&& forall|i: int| !#[trigger] goes_on_at(path, i)
    &&& !(path[0] == '.' && (path.len() == 1 || path[1] == '/'))
    &&& !(path.len() >= 2 && path[0] == '.' && path[1] == '.' && (path.len() == 2 || path[2]
        == '/'))
}

/// A path is a file name exactly if it is a plain name; without any slash that is any
/// text but the empty one, `.` and `..`.
pub proof fn file_names_stay_in_the_directory(path: Seq<char>)
    ensures
        is_filename(path) <==> plain_name(path),
        !path.contains('/') ==> (is_filename(path) <==> path.len() > 0 && path != seq!['.'] && path
            != seq!['.', '.']),
{
    single_parts_do_not_go_on(path);
    if !path.contains('/') {
        assert forall|i: int| !#[trigger] goes_on_at(path, i) by {
            if goes_on_at(path, i) {
                assert(path.contains(path[i - 1]));
            }
        }
        assert forall|i: int| 0 <= i < path.len() implies #[trigger] path[i] != '/' by {
            assert(path.contains(path[i]));
        }
        if path.len() == 1 && path[0] == '.' {
            assert(path =~= seq!['.']);
        }
        if path.len() == 2 && path[0] == '.' && path[1] == '.' {
            assert(path =~= seq!['.', '.']);
        }
    }
}

/// A hash as text: sixty-four digits, of those that hexadecimal numbers have, none in
/// upper case.
pub open spec fn hex64(text: Seq<char>) -> bool {
    &&& text.len() == 64
    &&& forall|i: int|
        0 <= i < 64 ==> ('0' <= #[trigger] text[i] && text[i] <= '9') || ('a' <= text[i] && text[i]
            <= 'f')
}

/// A text is a hash exactly if it is sixty-four digits of a hexadecimal number.
pub proof fn hashes_are_hexadecimal(text: Seq<char>)
    ensures
        is_hash_text(text) <==> hex64(text),
{
    if hex64(text) {
        assert forall|i: int| 0 <= i < text.len() implies crate::boot::is_hash_digit(
            #[trigger] text[i],
        ) by {}
    }
}

/// The interface is the first of its name.
pub open spec fn first_named(have: Seq<Interface>, name: Seq<char>, i: int) -> bool {
    &&& 0 <= i < have.len()
    &&& have[i].name@ == name
    &&& forall|j: int| 0 <= j < i ==> (#[trigger] have[j]).name@ != name
}

proof fn places_are_first(have: Seq<Interface>, name: Seq<char>, n: nat)
    requires
        n <= have.len(),
    ensures
        place_of(have, name, n) matches Some(i) ==> 0 <= i < n && first_named(have, name, i),
        place_of(have, name, n) is None ==> forall|j: int|
            0 <= j < n ==> (#[trigger] have[j]).name@ != name,
    decreases n,
{
    if n > 0 {
        places_are_first(have, name, (n - 1) as nat);
    }
}

/// The host has the interface, in a version that meets what is asked of it.
pub open spec fn provides(have: Seq<Interface>, name: Seq<char>, requirement: Seq<char>) -> bool {
    &&& requirement_parsed(requirement) is Ok
    &&& exists|i: int| #[trigger]
        first_named(have, name, i) && requirement_met(requirement, have[i].version.source())
}

proof fn interfaces_are_provided(have: Seq<Interface>, name: Seq<char>, requirement: Seq<char>)
    ensures
        interface_fault(have, name, requirement) is None <==> provides(have, name, requirement),
{
    places_are_first(have, name, have.len());
    if provides(have, name, requirement) {
        let i = choose|i: int| #[trigger]
            first_named(have, name, i) && requirement_met(requirement, have[i].version.source());
        match place_of(have, name, have.len()) {
            Some(k) => {
                if k < i {
                    assert(have[k].name@ != name);
                }
                if i < k {
                    assert(have[i].name@ != name);
                }
            },
            None => {
                assert(have[i].name@ != name);
            },
        }
    }
}

proof fn all_interfaces_are_provided(have: Seq<Interface>, wanted: Seq<(String, String)>, n: nat)
    requires
        n <= wanted.len(),
    ensures
        interfaces_fault(have, wanted, n) is None <==> forall|k: int|
            0 <= k < n ==> provides(have, (#[trigger] wanted[k]).0@, wanted[k].1@),
    decreases n,
{
    if n > 0 {
        all_interfaces_are_provided(have, wanted, (n - 1) as nat);
        interfaces_are_provided(have, wanted[n - 1].0@, wanted[n - 1].1@);
        if interfaces_fault(have, wanted, n) is None {
            assert forall|k: int| 0 <= k < n implies provides(
                have,
                (#[trigger] wanted[k]).0@,
                wanted[k].1@,
            ) by {
                if k == n - 1 {
                    assert(provides(have, wanted[n - 1].0@, wanted[n - 1].1@));
                }
            }
        } else if forall|k: int|
            0 <= k < n ==> provides(have, (#[trigger] wanted[k]).0@, wanted[k].1@) {
            assert(provides(have, wanted[n - 1].0@, wanted[n - 1].1@));
            assert(false);
        }
    }
}

/// The plugin names itself, was built for this host's target, by its compiler and
/// against its kit, gives two hashes, asks for interfaces that the host provides, and
/// its library is a file beside the manifest.
pub open spec fn fits(
    sdk: SdkIdentity,
    artifact: Seq<char>,
    have: Seq<Interface>,
    m: Manifest,
) -> bool {
    &&& m.plugin.id@.len() > 0
    &&& m.plugin.version@.len() > 0
    &&& m.build.target@ == sdk.target@
    &&& m.build.rustc@ == sdk.rustc@
    &&& m.sdk.id@ == sdk.id@
    &&& m.sdk.version@ == sdk.version@
    &&& m.sdk.artifact_sha256@ == artifact
    &&& hex64(m.plugin.library_sha256@)
    &&& hex64(m.build.lock_sha256@)
    &&& forall|k: int|
        0 <= k < m.interfaces@.len() ==> provides(
            have,
            (#[trigger] m.interfaces@[k]).0@,
            m.interfaces@[k].1@,
        )
    &&& plain_name(m.plugin.library@)
}

/// A manifest is admitted exactly if it fits the host.
pub proof fn manifests_that_fit_are_admitted(
    sdk: SdkIdentity,
    artifact: Seq<char>,
    have: Seq<Interface>,
    m: Manifest,
)
    ensures
        manifest_fault(sdk, artifact, have, m) is None <==> fits(sdk, artifact, have, m),
{
    hashes_are_hexadecimal(m.plugin.library_sha256@);
    hashes_are_hexadecimal(m.build.lock_sha256@);
    all_interfaces_are_provided(have, m.interfaces@, m.interfaces@.len());
    file_names_stay_in_the_directory(m.plugin.library@);
}

/// A load error names the plugin and its version, the step that failed and why.
pub proof fn load_errors_name_the_plugin_and_the_step(
    e: LoadError,
    m: Manifest,
    plugin: Seq<char>,
    version: Seq<char>,
    fault: Fault,
)
    ensures
        e.tells(plugin, version, fault) <==> e.plugin@ == plugin && e.version@ == version && e.step@
            == fault.step && e.reason@ == fault.reason,
        m.blames(e, fault) <==> e.plugin@ == m.plugin.id@ && e.version@ == m.plugin.version@
            && e.step@ == fault.step && e.reason@ == fault.reason,
{
}

/// A library that is retained under the id and the hash.
pub open spec fn retained_as(
    retained: Seq<Retained>,
    id: Seq<char>,
    hash: Seq<char>,
    i: int,
) -> bool {
    0 <= i < retained.len() && retained[i].id@ == id && retained[i].hash@ == hash
}

proof fn slots_are_first(retained: Seq<Retained>, id: Seq<char>, hash: Seq<char>, n: nat)
    requires
        n <= retained.len(),
    ensures
        slot_of(retained, id, hash, n) matches Some(i) ==> i < n && retained_as(
            retained,
            id,
            hash,
            i,
        ) && forall|j: int| 0 <= j < i ==> !#[trigger] retained_as(retained, id, hash, j),
        slot_of(retained, id, hash, n) is None ==> forall|j: int|
            0 <= j < n ==> !#[trigger] retained_as(retained, id, hash, j),
    decreases n,
{
    if n > 0 {
        slots_are_first(retained, id, hash, (n - 1) as nat);
    }
}

/// A library is found in the first slot that holds its id and its hash, if there is
/// one.
pub proof fn libraries_are_found_by_id_and_hash(
    retained: Seq<Retained>,
    id: Seq<char>,
    hash: Seq<char>,
)
    ensures
        slot_of(retained, id, hash, retained.len()) is Some <==> exists|i: int| #[trigger]
            retained_as(retained, id, hash, i),
        slot_of(retained, id, hash, retained.len()) matches Some(i) ==> retained_as(
            retained,
            id,
            hash,
            i,
        ) && forall|j: int| 0 <= j < i ==> !#[trigger] retained_as(retained, id, hash, j),
{
    slots_are_first(retained, id, hash, retained.len());
}

/// The libraries that are retained for a plugin.
pub open spec fn of_plugin(id: Seq<char>) -> spec_fn(Retained) -> bool {
    |r: Retained| r.id@ == id
}

proof fn counting_is_filtering(retained: Seq<Retained>, id: Seq<char>, n: nat)
    requires
        n <= retained.len(),
    ensures
        versions_of(retained, id, n) == retained.subrange(0, n as int).filter(of_plugin(id)).len(),
    decreases n,
{
    if n == 0 {
        filter_empty(retained, of_plugin(id));
    } else {
        counting_is_filtering(retained, id, (n - 1) as nat);
        filter_step(retained, n - 1, of_plugin(id));
    }
}

/// What a library says of itself is what its manifest and the host say.
pub open spec fn says_the_same(loader: Loader, m: Manifest, boot: BootModel) -> bool {
    &&& boot.sdk_id == loader.sdk.id@ && boot.sdk_id == m.sdk.id@
    &&& boot.sdk_artifact == loader.sdk_artifact_sha256@ && boot.sdk_artifact
        == m.sdk.artifact_sha256@
    &&& boot.id == m.plugin.id@
    &&& boot.version == m.plugin.version@
}

/// A library is admitted exactly if it has the hash that its manifest gives, says the
/// same of itself as the manifest and the host do, and either is retained already or
/// is not one too many of its plugin. Each of these has a step of its own.
pub proof fn libraries_that_fit_are_admitted(loader: Loader, m: Manifest, bytes: Seq<u8>)
    ensures
        ({
            let fault = library_fault(loader, m, bytes);
            let hash = sha256_hex(bytes);
            let whole_file = hash == m.plugin.library_sha256@;
            let agrees = boot_of(bytes) is Ok && says_the_same(loader, m, boot_of(bytes)->Ok_0);
            let known = exists|i: int| #[trigger]
                retained_as(loader.retained@, m.plugin.id@, hash, i);
            let room = loader.retained@.filter(of_plugin(m.plugin.id@)).len()
                < loader.max_versions;
            &&& fault is None <==> whole_file && agrees && (known || room)
            &&& !whole_file ==> fault is Some && (fault->0).step == "binary"@
            &&& whole_file && !agrees ==> fault is Some && (fault->0).step == "boot metadata"@
            &&& whole_file && agrees && !known && !room ==> fault is Some && (fault->0).step
                == "retention"@
        }),
{
    let hash = sha256_hex(bytes);
    libraries_are_found_by_id_and_hash(loader.retained@, m.plugin.id@, hash);
    counting_is_filtering(loader.retained@, m.plugin.id@, loader.retained@.len());
    whole(loader.retained@);
}

/// What a mapped library says of itself is accepted exactly if it could be asked, did
/// not panic, and says what the host, the blob in its file and the manifest do.
pub proof fn metadata_that_agrees_is_accepted(
    loader: Loader,
    m: Manifest,
    boot: BootModel,
    outcome: MetaOutcome,
)
    ensures
        meta_fault(loader, m, boot, outcome) is None <==> (outcome matches MetaOutcome::Returned(
            meta,
        ) && meta.sdk_id@ == loader.sdk.id@ && meta.sdk_id@ == boot.sdk_id
            && meta.sdk_artifact_sha256@ == loader.sdk_artifact_sha256@
            && meta.sdk_artifact_sha256@ == boot.sdk_artifact && meta.id@ == m.plugin.id@
            && meta.version@ == m.plugin.version@),
        meta_fault(loader, m, boot, outcome) matches Some(f) ==> f.step == "metadata"@,
        outcome matches MetaOutcome::Missing(reason) ==> (meta_fault(loader, m, boot, outcome)->0).reason
            == reason@,
{
}

/// A library gives a module exactly if its entry could be called and built one. What
/// it refuses with, and why it could not be called, is told.
pub proof fn entries_that_build_are_accepted(outcome: EntryOutcome)
    ensures
        entry_fault(outcome) is None <==> outcome is Built,
        entry_fault(outcome) matches Some(f) ==> f.step == "entry"@,
        outcome matches EntryOutcome::Missing(reason) ==> (entry_fault(outcome)->0).reason
            == reason@,
        outcome matches EntryOutcome::Refused(reason) ==> (entry_fault(outcome)->0).reason
            == reason@,
{
}

/// The host starts exactly if the hash that it was built with is one, the kit that was
/// loaded gives the identity that it was built with, all of it and no more, and the
/// kit's file could be read and has that hash.
pub proof fn hosts_start_with_their_own_kit(artifact: Seq<char>, sdk: SdkIdentity, found: Startup)
    ensures
        startup_fault(artifact, sdk, found) is None <==> hex64(artifact) && found.boot_id_len
            == encode_utf8(sdk.id@).len() && found.boot_id@.len() >= encode_utf8(sdk.id@).len() && (
        forall|i: int|
            0 <= i < encode_utf8(sdk.id@).len() ==> #[trigger] found.boot_id@[i] == encode_utf8(
                sdk.id@,
            )[i]) && (found.file matches Ok(file) && sha256_hex(file.bytes@) == artifact),
{
    hashes_are_hexadecimal(artifact);
    let id = encode_utf8(sdk.id@);
    if id.is_prefix_of(found.boot_id@) {
        assert forall|i: int| 0 <= i < id.len() implies #[trigger] found.boot_id@[i] == id[i] by {
            assert(found.boot_id@.subrange(0, id.len() as int)[i] == id[i]);
        }
    }
    if found.boot_id@.len() >= id.len() && forall|i: int|
        0 <= i < id.len() ==> #[trigger] found.boot_id@[i] == id[i] {
        assert(found.boot_id@.subrange(0, id.len() as int) =~= id);
    }
}

/// One module can stand for another exactly if it has the same id and name and
/// declares the same dependencies in the same order, whatever its version.
pub proof fn modules_are_swapped_for_their_likes(a: Module, b: Module)
    ensures
        interchangeable(a, b) <==> a.id@ == b.id@ && a.name@ == b.name@ && a.injects@.len()
            == b.injects@.len() && forall|i: int|
            0 <= i < a.injects@.len() ==> (#[trigger] a.injects@[i]).identity()
                == b.injects@[i].identity(),
{
    if same_keys(a.injects@, b.injects@) {
        assert forall|i: int| 0 <= i < a.injects@.len() implies (#[trigger] a.injects@[i]).identity()
            == b.injects@[i].identity() by {
            assert(same_key(a.injects@[i], b.injects@[i]));
        }
    }
}

/// A launcher has a bundle exactly if it was bound to all three files and their
/// hashes.
pub proof fn bundles_are_bound_to_every_file(b: Bound)
    ensures
        unbound(b) is None <==> b.host_file is Some && b.host_hash is Some && b.sdk_file is Some
            && b.sdk_hash is Some && b.std_file is Some && b.std_hash is Some,
{
}

/// A bundled file is accepted exactly if its hash is one, its name is of one part, and
/// it is a regular file that could be read and has that hash.
pub proof fn bundled_files_have_their_hash(file: BundledFile, path: Seq<char>, found: FileState)
    ensures
        name_fault(file) is None <==> hex64(file.hash@) && file.name@.len() > 0 && forall|i: int|
            !#[trigger] goes_on_at(file.name@, i),
        file_fault(file, path, found) is None <==> name_fault(file) is None && (
        found matches FileState::Regular(Ok(bytes)) && sha256_hex(bytes@) == file.hash@),
{
    hashes_are_hexadecimal(file.hash@);
    single_parts_do_not_go_on(file.name@);
}

/// What the host finds in its environment: the bundle's directory where libraries are
/// looked for, that it was launched, and nothing else that steers the linker. What
/// steered the launcher's own linker is handed on under another name, which stands for
/// nothing else; every other variable is as the launcher had it.
pub proof fn the_environment_is_handed_on(
    names: Seq<Seq<char>>,
    name: Seq<char>,
    rest: Seq<char>,
)
    requires
        names.len() <= usize::MAX,
        names.no_duplicates(),
    ensures
        ({
            let env = all_changed(own_environment(names), names, launch_changes(names));
            let steering = "LD_"@ + rest;
            let saved = "RUTIS_ORIG_LD_"@ + rest;
            let own = |n: Seq<char>|
                if names.contains(n) {
                    Some(EnvValue::Variable(names.index_of(n) as usize))
                } else {
                    None
                };
            &&& value_in(env, "LD_LIBRARY_PATH"@) == Some(EnvValue::Directory)
            &&& value_in(env, "RUTIS_DYLIB_LAUNCHER"@) == Some(EnvValue::One)
            &&& steering != "LD_LIBRARY_PATH"@ ==> value_in(env, steering) is None
            &&& value_in(env, saved) == own(steering)
            &&& !"LD_"@.is_prefix_of(name) && !"RUTIS_ORIG_LD_"@.is_prefix_of(name) && name
                != "RUTIS_DYLIB_LAUNCHER"@ ==> value_in(env, name) == own(name)
        }),
{
    let steering = "LD_"@ + rest;
    let saved = "RUTIS_ORIG_LD_"@ + rest;
    reveal_strlit("LD_");
    reveal_strlit("RUTIS_ORIG_LD_");
    reveal_strlit("LD_LIBRARY_PATH");
    reveal_strlit("RUTIS_DYLIB_LAUNCHER");
    the_host_sees_only_the_bundle(names, "LD_LIBRARY_PATH"@);
    the_host_sees_only_the_bundle(names, "RUTIS_DYLIB_LAUNCHER"@);
    the_host_sees_only_the_bundle(names, steering);
    the_host_sees_only_the_bundle(names, saved);
    the_host_sees_only_the_bundle(names, name);
    assert("LD_LIBRARY_PATH"@[0] != "RUTIS_DYLIB_LAUNCHER"@[0]);
    assert(steering.subrange(0, 3) =~= "LD_"@);
    assert(steering[0] == 'L');
    assert("RUTIS_DYLIB_LAUNCHER"@[0] == 'R');
    assert(saved.subrange(0, 14) =~= "RUTIS_ORIG_LD_"@);
    assert(saved[0] == 'R' && saved[6] == 'O');
    assert("RUTIS_DYLIB_LAUNCHER"@[6] == 'D');
    assert("LD_LIBRARY_PATH"@[0] == 'L');
    assert(!"LD_"@.is_prefix_of(saved)) by {
        if "LD_"@.is_prefix_of(saved) {
            assert(saved.subrange(0, 3)[0] == "LD_"@[0]);
        }
    }
    assert(saved.skip(11) =~= steering) by {
        assert forall|i: int| 0 <= i < 3 implies saved[11 + i] == steering[i] by {
            assert(saved[11 + i] == "RUTIS_ORIG_LD_"@[11 + i]);
        }
    }
}

/// A library that has been mapped is retained behind the others, under its plugin's id
/// and version, with its hash, its size and the time, and without a module; the host
/// and what was retained before stay as they were.
pub proof fn mapped_libraries_are_retained_last(
    after: Loader,
    before: Loader,
    m: Manifest,
    hash: Seq<char>,
    bytes: u64,
    now: SystemTime,
)
    ensures
        after.has_mapped(before, m, hash, bytes, now) <==> after.retained@.len()
            == before.retained@.len() + 1 && after.retained@.drop_last() == before.retained@
            && after.retained@.last().id@ == m.plugin.id@ && after.retained@.last().version@
            == m.plugin.version@ && after.retained@.last().hash@ == hash
            && after.retained@.last().bytes == bytes && after.retained@.last().loaded_at == now
            && after.retained@.last().module is None && after.sdk == before.sdk
            && after.sdk_artifact_sha256 == before.sdk_artifact_sha256 && after.interfaces
            == before.interfaces && after.max_versions == before.max_versions,
{
}

/// What is retained stays: nothing is lost or moved, only a module can still be added.
pub proof fn retained_libraries_stay(before: Seq<Retained>, after: Seq<Retained>, i: int)
    requires
        grown(before, after),
        0 <= i < before.len(),
    ensures
        i < after.len(),
        after[i].id@ == before[i].id@,
        after[i].version@ == before[i].version@,
        after[i].hash@ == before[i].hash@,
        after[i].bytes == before[i].bytes,
        after[i].loaded_at == before[i].loaded_at,
        before[i].module is Some ==> after[i].module == before[i].module,
{
}

/// What is told of a library is what is retained of it; it can be used exactly if a
/// module came of it.
pub proof fn libraries_are_reported_as_retained(d: ModuleDiagnostic, r: Retained)
    ensures
        reports(d, r) <==> d.id@ == r.id@ && d.version@ == r.version@ && d.library_sha256@
            == r.hash@ && d.mapped_bytes == r.bytes && d.loaded_at == r.loaded_at && d.usable == (
        r.module is Some) && (d.strong_references > 0 <==> r.module is Some),
{
}

/// A cached file is current exactly if it is there and has the hash.
pub proof fn caches_are_current_by_hash(found: Option<Vec<u8>>, hash: Seq<char>)
    ensures
        holds(found, hash) <==> found is Some && sha256_hex((found->0)@) == hash,
{
}

} // verus!
