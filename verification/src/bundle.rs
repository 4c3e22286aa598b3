//! The launcher's checks on a host bundle, and the environment it hands on.

use vstd::prelude::*;

use crate::boot::{is_hash_text, is_sha256};
use crate::digest::{sha256_hex, sha_bytes};
use crate::order::models;
use crate::paths::{is_single, is_single_component};
use crate::text::{chars_of, has_prefix, joined, str_eq};

verus! {

/// The files that a launcher was built for, as far as they were given.
pub struct Bound {
    pub host_file: Option<String>,
    pub host_hash: Option<String>,
    pub sdk_file: Option<String>,
    pub sdk_hash: Option<String>,
    pub std_file: Option<String>,
    pub std_hash: Option<String>,
}

/// One file of a bundle.
pub struct BundledFile {
    pub name: String,
    pub hash: String,
}

/// The files of a bundle.
pub struct Bundle {
    pub host: BundledFile,
    pub sdk: BundledFile,
    pub std_lib: BundledFile,
}

/// What a launcher lacks, if it lacks anything.
pub open spec fn unbound(b: Bound) -> Option<Seq<char>> {
    if b.host_file is None {
        Some("launcher was not bound to a host artifact"@)
    } else if b.host_hash is None {
        Some("launcher was not bound to a host hash"@)
    } else if b.sdk_file is None {
        Some("launcher was not bound to an SDK artifact"@)
    } else if b.sdk_hash is None {
        Some("launcher was not bound to an SDK hash"@)
    } else if b.std_file is None {
        Some("launcher was not bound to libstd"@)
    } else if b.std_hash is None {
        Some("launcher was not bound to a libstd hash"@)
    } else {
        None
    }
}

/// The bundle of a launcher that lacks nothing.
pub fn bundle_of(b: Bound) -> (result: Result<Bundle, String>)
    ensures
        match unbound(b) {
            Some(reason) => result matches Err(e) && e@ == reason,
            None => result == Ok::<Bundle, String>(
                Bundle {
                    host: BundledFile { name: b.host_file->0, hash: b.host_hash->0 },
                    sdk: BundledFile { name: b.sdk_file->0, hash: b.sdk_hash->0 },
                    std_lib: BundledFile { name: b.std_file->0, hash: b.std_hash->0 },
                },
            ),
        },
{
    let host_file = match b.host_file {
        Some(name) => name,
        None => {
            return Err("launcher was not bound to a host artifact".to_owned());
        },
    };
    let host_hash = match b.host_hash {
        Some(hash) => hash,
        None => {
            return Err("launcher was not bound to a host hash".to_owned());
        },
    };
    let sdk_file = match b.sdk_file {
        Some(name) => name,
        None => {
            return Err("launcher was not bound to an SDK artifact".to_owned());
        },
    };
    let sdk_hash = match b.sdk_hash {
        Some(hash) => hash,
        None => {
            return Err("launcher was not bound to an SDK hash".to_owned());
        },
    };
    let std_file = match b.std_file {
        Some(name) => name,
        None => {
            return Err("launcher was not bound to libstd".to_owned());
        },
    };
    let std_hash = match b.std_hash {
        Some(hash) => hash,
        None => {
            return Err("launcher was not bound to a libstd hash".to_owned());
        },
    };
    Ok(
        Bundle {
            host: BundledFile { name: host_file, hash: host_hash },
            sdk: BundledFile { name: sdk_file, hash: sdk_hash },
            std_lib: BundledFile { name: std_file, hash: std_hash },
        },
    )
}

/// What was found in the place of a bundled file.
pub enum FileState {
    /// It could not be looked at, for the given reason.
    Unknown(String),
    /// It is no regular file.
    Irregular,
    /// It is a regular file, with its contents or the reason why they could not
    /// be read.
    Regular(Result<Vec<u8>, String>),
}

/// What is wrong with a bundled file, before it is looked at.
pub open spec fn name_fault(file: BundledFile) -> Option<Seq<char>> {
    if !is_hash_text(file.hash@) {
        Some("invalid embedded hash for "@ + file.name@)
    } else if !is_single(file.name@) {
        Some("invalid bundled filename: "@ + file.name@)
    } else {
        None
    }
}

/// What is wrong with a bundled file.
pub open spec fn file_fault(file: BundledFile, path: Seq<char>, found: FileState) -> Option<
    Seq<char>,
> {
    match name_fault(file) {
        Some(reason) => Some(reason),
        None => match found {
            FileState::Unknown(e) => Some(path + ": "@ + e@),
            FileState::Irregular => Some(path + " is not a regular file"@),
            FileState::Regular(Err(e)) => Some(path + ": "@ + e@),
            FileState::Regular(Ok(bytes)) => if sha256_hex(bytes@) != file.hash@ {
                Some(
                    path + " SHA-256 mismatch: expected "@ + file.hash@ + ", got "@ + sha256_hex(
                        bytes@,
                    ),
                )
            } else {
                None
            },
        },
    }
}

/// Checks what the launcher was built with, so that the file may be looked for.
pub fn check_name(file: &BundledFile) -> (result: Result<(), String>)
    ensures
        match name_fault(*file) {
            None => result == Ok::<(), String>(()),
            Some(reason) => result matches Err(e) && e@ == reason,
        },
{
    if !is_sha256(file.hash.as_str()) {
        return Err(joined("invalid embedded hash for ", file.name.as_str()));
    }
    if !is_single_component(file.name.as_str()) {
        return Err(joined("invalid bundled filename: ", file.name.as_str()));
    }
    Ok(())
}

/// Checks one file of a bundle.
pub fn verify(file: &BundledFile, path: &str, found: &FileState) -> (result: Result<(), String>)
    ensures
        match file_fault(*file, path@, *found) {
            None => result == Ok::<(), String>(()),
            Some(reason) => result matches Err(e) && e@ == reason,
        },
{
    match check_name(file) {
        Ok(()) => {},
        Err(e) => {
            return Err(e);
        },
    }
    match found {
        FileState::Unknown(e) => {
            let mut text = joined(path, ": ");
            text.push_str(e.as_str());
            Err(text)
        },
        FileState::Irregular => Err(joined(path, " is not a regular file")),
        FileState::Regular(Err(e)) => {
            let mut text = joined(path, ": ");
            text.push_str(e.as_str());
            Err(text)
        },
        FileState::Regular(Ok(bytes)) => {
            let actual = sha_bytes(bytes.as_slice());
            if !str_eq(actual.as_str(), file.hash.as_str()) {
                let mut text = joined(path, " SHA-256 mismatch: expected ");
                text.push_str(file.hash.as_str());
                text.push_str(", got ");
                text.push_str(actual.as_str());
                return Err(text);
            }
            Ok(())
        },
    }
}

/// A value of a variable in the environment of the host.
#[derive(Debug, Clone, Copy, PartialEq, Eq, Structural)]
pub enum EnvValue {
    /// That of a variable of the launcher's own environment, by its place.
    Variable(usize),
    /// The text `1`.
    One,
    /// The directory of the bundle.
    Directory,
}

/// A change to the environment.
#[derive(Debug)]
pub enum EnvChange {
    /// The variable of the launcher's environment at that place is taken out.
    Remove(usize),
    Put { name: String, value: EnvValue },
}

/// `EnvChange`, with its text as a sequence.
pub enum Change {
    Remove(usize),
    Put { name: Seq<char>, value: EnvValue },
}

impl View for EnvChange {
    type V = Change;

    open spec fn view(&self) -> Change {
        match *self {
            EnvChange::Remove(i) => Change::Remove(i),
            EnvChange::Put { name, value } => Change::Put { name: name@, value },
        }
    }
}

/// The changes, each with its text as a sequence.
pub open spec fn changes(list: Seq<EnvChange>) -> Seq<Change> {
    Seq::new(list.len(), |i: int| list[i]@)
}

/// A variable that steers the dynamic linker.
pub open spec fn steers_linker(name: Seq<char>) -> bool {
    "LD_"@.is_prefix_of(name)
}

/// A variable under which an outer launcher handed such a variable on.
pub open spec fn is_handed_on(name: Seq<char>) -> bool {
    "RUTIS_ORIG_LD_"@.is_prefix_of(name)
}

/// Takes out what an outer launcher handed on, among the first `n` variables.
pub open spec fn forgotten(names: Seq<Seq<char>>, n: nat) -> Seq<Change>
    decreases n,
{
    if n == 0 {
        seq![]
    } else {
        let before = forgotten(names, (n - 1) as nat);
        if is_handed_on(names[n - 1]) {
            before.push(Change::Remove((n - 1) as usize))
        } else {
            before
        }
    }
}

/// Hands on what steers the linker under another name, among the first `n`
/// variables.
pub open spec fn handed_on(names: Seq<Seq<char>>, n: nat) -> Seq<Change>
    decreases n,
{
    if n == 0 {
        seq![]
    } else {
        let before = handed_on(names, (n - 1) as nat);
        if steers_linker(names[n - 1]) {
            before.push(
                Change::Put {
                    name: "RUTIS_ORIG_"@ + names[n - 1],
                    value: EnvValue::Variable((n - 1) as usize),
                },
            ).push(Change::Remove((n - 1) as usize))
        } else {
            before
        }
    }
}

/// All changes that the launcher makes.
pub open spec fn launch_changes(names: Seq<Seq<char>>) -> Seq<Change> {
    (forgotten(names, names.len()) + handed_on(names, names.len())).push(
        Change::Put { name: "RUTIS_DYLIB_LAUNCHER"@, value: EnvValue::One },
    ).push(Change::Put { name: "LD_LIBRARY_PATH"@, value: EnvValue::Directory })
}

/// The changes from the launcher's environment to that of the host, in order.
/// Only the bundle's directory may supply libraries to the host; what steered
/// the linker before is handed on under another name.
pub fn launch_environment(names: &Vec<String>) -> (list: Vec<EnvChange>)
    ensures
        changes(list@) == launch_changes(models(names@)),
{
    let ghost all = models(names@);
    let mut list: Vec<EnvChange> = Vec::new();
    let mut i: usize = 0;
    assert(changes(list@) =~= forgotten(all, 0));
    while i < names.len()
        invariant
            i <= names@.len(),
            all == models(names@),
            changes(list@) == forgotten(all, i as nat),
        decreases names@.len() - i,
    {
        let chars = chars_of(names[i].as_str());
        if has_prefix(&chars, "RUTIS_ORIG_LD_") {
            list.push(EnvChange::Remove(i));
        }
        i += 1;
        assert(changes(list@) =~= forgotten(all, i as nat));
    }
    let ghost first = forgotten(all, all.len());
    let mut j: usize = 0;
    assert(changes(list@) =~= first + handed_on(all, 0));
    while j < names.len()
        invariant
            j <= names@.len(),
            all == models(names@),
            changes(list@) == first + handed_on(all, j as nat),
        decreases names@.len() - j,
    {
        let chars = chars_of(names[j].as_str());
        if has_prefix(&chars, "LD_") {
            let ghost before = changes(list@);
            list.push(
                EnvChange::Put {
                    name: joined("RUTIS_ORIG_", names[j].as_str()),
                    value: EnvValue::Variable(j),
                },
            );
            let ghost put = Change::Put {
                name: "RUTIS_ORIG_"@ + all[j as int],
                value: EnvValue::Variable(j),
            };
            assert(changes(list@) =~= before.push(put));
            list.push(EnvChange::Remove(j));
            assert(changes(list@) =~= before.push(put).push(Change::Remove(j)));
            assert(handed_on(all, (j + 1) as nat) == handed_on(all, j as nat).push(put).push(
                Change::Remove(j),
            ));
        }
        j += 1;
        assert(changes(list@) =~= first + handed_on(all, j as nat));
    }
    list.push(
        EnvChange::Put { name: "RUTIS_DYLIB_LAUNCHER".to_owned(), value: EnvValue::One },
    );
    list.push(EnvChange::Put { name: "LD_LIBRARY_PATH".to_owned(), value: EnvValue::Directory });
    assert(changes(list@) =~= launch_changes(all));
    list
}

/// The environment after a change.
pub open spec fn changed(
    env: Map<Seq<char>, EnvValue>,
    names: Seq<Seq<char>>,
    c: Change,
) -> Map<Seq<char>, EnvValue> {
    match c {
        Change::Remove(i) => env.remove(names[i as int]),
        Change::Put { name, value } => env.insert(name, value),
    }
}

/// The environment after the changes.
pub open spec fn all_changed(
    env: Map<Seq<char>, EnvValue>,
    names: Seq<Seq<char>>,
    list: Seq<Change>,
) -> Map<Seq<char>, EnvValue>
    decreases list.len(),
{
    if list.len() == 0 {
        env
    } else {
        changed(all_changed(env, names, list.drop_last()), names, list.last())
    }
}

/// The launcher's own environment.
pub open spec fn own_environment(names: Seq<Seq<char>>) -> Map<Seq<char>, EnvValue> {
    Map::new(
        |name: Seq<char>| names.contains(name),
        |name: Seq<char>| EnvValue::Variable(names.index_of(name) as usize),
    )
}

/// What the host finds under a name: the launcher's two variables; what steered
/// the launcher's own linker, under its other name; nothing else that steers the
/// linker; and all other variables as they were.
pub open spec fn host_value(names: Seq<Seq<char>>, name: Seq<char>) -> Option<EnvValue> {
    if name == "LD_LIBRARY_PATH"@ {
        Some(EnvValue::Directory)
    } else if name == "RUTIS_DYLIB_LAUNCHER"@ {
        Some(EnvValue::One)
    } else if steers_linker(name) {
        None
    } else if is_handed_on(name) {
        if names.contains(name.skip(11)) {
            Some(EnvValue::Variable(names.index_of(name.skip(11)) as usize))
        } else {
            None
        }
    } else if names.contains(name) {
        Some(EnvValue::Variable(names.index_of(name) as usize))
    } else {
        None
    }
}

/// What an environment has under a name.
pub open spec fn value_in(env: Map<Seq<char>, EnvValue>, name: Seq<char>) -> Option<EnvValue> {
    if env.dom().contains(name) {
        Some(env[name])
    } else {
        None
    }
}

proof fn changes_append(
    env: Map<Seq<char>, EnvValue>,
    names: Seq<Seq<char>>,
    a: Seq<Change>,
    b: Seq<Change>,
)
    ensures
        all_changed(env, names, a + b) == all_changed(all_changed(env, names, a), names, b),
    decreases b.len(),
{
    if b.len() == 0 {
        assert(a + b =~= a);
    } else {
        changes_append(env, names, a, b.drop_last());
        assert((a + b).drop_last() =~= a + b.drop_last());
    }
}

proof fn forgetting(names: Seq<Seq<char>>, n: nat, name: Seq<char>)
    requires
        n <= names.len() <= usize::MAX,
        names.no_duplicates(),
    ensures
        value_in(all_changed(own_environment(names), names, forgotten(names, n)), name) == (
        if names.contains(name) && !(is_handed_on(name) && names.index_of(name) < n) {
            Some(EnvValue::Variable(names.index_of(name) as usize))
        } else {
            None
        }),
    decreases n,
{
    if n > 0 {
        forgetting(names, (n - 1) as nat, name);
        let before = forgotten(names, (n - 1) as nat);
        if is_handed_on(names[n - 1]) {
            assert(forgotten(names, n).drop_last() =~= before);
        }
        assert(names.contains(names[n - 1]));
        if names.contains(name) && names.index_of(name) == n - 1 {
            assert(name == names[n - 1]);
        }
        if name == names[n - 1] {
            assert(names.index_of(name) == n - 1);
        }
    }
}

proof fn handing_on(names: Seq<Seq<char>>, n: nat, name: Seq<char>)
    requires
        n <= names.len() <= usize::MAX,
        names.no_duplicates(),
    ensures
        ({
            let start = all_changed(
                own_environment(names),
                names,
                forgotten(names, names.len()),
            );
            value_in(all_changed(start, names, handed_on(names, n)), name) == (
            if is_handed_on(name) {
                if names.contains(name.skip(11)) && names.index_of(name.skip(11)) < n {
                    Some(EnvValue::Variable(names.index_of(name.skip(11)) as usize))
                } else {
                    None
                }
            } else if names.contains(name) && !(steers_linker(name) && names.index_of(name) < n) {
                Some(EnvValue::Variable(names.index_of(name) as usize))
            } else {
                None
            })
        }),
    decreases n,
{
    let start = all_changed(own_environment(names), names, forgotten(names, names.len()));
    if n == 0 {
        forgetting(names, names.len(), name);
    } else {
        handing_on(names, (n - 1) as nat, name);
        let own = names[n - 1];
        let before = handed_on(names, (n - 1) as nat);
        assert(names.contains(own));
        if names.contains(name) && names.index_of(name) == n - 1 {
            assert(name == own);
        }
        if name == own {
            assert(names.index_of(name) == n - 1);
        }
        if names.contains(name.skip(11)) && names.index_of(name.skip(11)) == n - 1 {
            assert(name.skip(11) == own);
        }
        if name.skip(11) == own {
            assert(names.index_of(name.skip(11)) == n - 1);
        }
        prefixes_differ(own);
        prefixes_differ(name);
        if steers_linker(own) {
            let put = Change::Put {
                name: "RUTIS_ORIG_"@ + own,
                value: EnvValue::Variable((n - 1) as usize),
            };
            let full = handed_on(names, n);
            assert(full == before.push(put).push(Change::Remove((n - 1) as usize)));
            assert(full.drop_last() =~= before.push(put));
            assert(before.push(put).drop_last() =~= before);
            assert(all_changed(start, names, before.push(put)) == changed(
                all_changed(start, names, before),
                names,
                put,
            ));
            assert(all_changed(start, names, full) == all_changed(start, names, before).insert(
                "RUTIS_ORIG_"@ + own,
                EnvValue::Variable((n - 1) as usize),
            ).remove(own));
            if is_handed_on(name) && name.skip(11) == own {
                handed_name(name);
            }
        } else if is_handed_on(name) && name.skip(11) == own {
            handed_name(name);
        }
    }
}

proof fn prefixes_differ(name: Seq<char>)
    ensures
        !(steers_linker(name) && is_handed_on(name)),
        steers_linker(name) ==> is_handed_on("RUTIS_ORIG_"@ + name) && ("RUTIS_ORIG_"@
            + name).skip(11) == name && "RUTIS_ORIG_"@ + name != name && !steers_linker(
            "RUTIS_ORIG_"@ + name,
        ),
{
    reveal_strlit("LD_");
    reveal_strlit("RUTIS_ORIG_LD_");
    reveal_strlit("RUTIS_ORIG_");
    let other = "RUTIS_ORIG_"@ + name;
    if steers_linker(name) {
        assert(name.subrange(0, 3) == "LD_"@);
        assert(name[0] == name.subrange(0, 3)[0] && name[1] == name.subrange(0, 3)[1] && name[2]
            == name.subrange(0, 3)[2]);
        if is_handed_on(name) {
            assert(name.subrange(0, 14)[0] == 'R');
            assert(name[0] == name.subrange(0, 14)[0]);
        }
        assert(other.subrange(0, 14) =~= "RUTIS_ORIG_LD_"@);
        assert(other.skip(11) =~= name);
        assert(other.len() != name.len());
        assert(other[0] == 'R');
        if steers_linker(other) {
            assert(other.subrange(0, 3)[0] == 'L');
        }
    }
}

proof fn handed_name(name: Seq<char>)
    requires
        is_handed_on(name),
    ensures
        steers_linker(name.skip(11)),
        "RUTIS_ORIG_"@ + name.skip(11) == name,
{
    reveal_strlit("LD_");
    reveal_strlit("RUTIS_ORIG_LD_");
    reveal_strlit("RUTIS_ORIG_");
    let head = name.subrange(0, 14);
    assert(head == "RUTIS_ORIG_LD_"@);
    assert forall|i: int| 0 <= i < 14 implies name[i] == "RUTIS_ORIG_LD_"@[i] by {
        assert(name[i] == head[i]);
    }
    assert(name.skip(11).subrange(0, 3) =~= "LD_"@);
    assert("RUTIS_ORIG_"@ + name.skip(11) =~= name);
}

/// The environment of the host is as `host_value` says, whatever the launcher's
/// environment was.
pub proof fn the_host_sees_only_the_bundle(names: Seq<Seq<char>>, name: Seq<char>)
    requires
        names.len() <= usize::MAX,
        names.no_duplicates(),
    ensures
        value_in(all_changed(own_environment(names), names, launch_changes(names)), name)
            == host_value(names, name),
{
    let own = own_environment(names);
    let first = forgotten(names, names.len());
    let second = handed_on(names, names.len());
    let list = launch_changes(names);
    let flag = Change::Put { name: "RUTIS_DYLIB_LAUNCHER"@, value: EnvValue::One };
    changes_append(own, names, first, second);
    assert(list.drop_last() =~= (first + second).push(flag));
    assert((first + second).push(flag).drop_last() =~= first + second);
    let handed = all_changed(own, names, first + second);
    assert(all_changed(own, names, list.drop_last()) == changed(handed, names, flag));
    assert(all_changed(own, names, list) == handed.insert(
        "RUTIS_DYLIB_LAUNCHER"@,
        EnvValue::One,
    ).insert("LD_LIBRARY_PATH"@, EnvValue::Directory));
    handing_on(names, names.len(), name);
    prefixes_differ(name);
    reveal_strlit("RUTIS_DYLIB_LAUNCHER");
    reveal_strlit("LD_LIBRARY_PATH");
}

} // verus!
