use rutis::boot::{
    boot_meta, is_sha256, loaded_sdk_id, read_blob, rutis_sdk_boot_id, PluginMeta, SdkIdentity,
    BOOT_SIZE,
};
use rutis::bundle::{
    bundle_of, check_name, launch_environment, verify, Bound, BundledFile, EnvChange, EnvValue,
    FileState,
};
use rutis::digest::{cache_is_current, check_replaced};
use rutis::elf::{elf_section, parse_boot};
use rutis::error::CordisError;
use rutis::key::TypeKey;
use rutis::loader::{
    check_module, check_swap, EntryOutcome, Loader, MetaOutcome, Module, Place, SdkFile, Startup,
};
use rutis::manifest::{
    check_interface, BuildManifest, Interface, LoadError, Manifest, PluginManifest, SdkManifest,
};
use rutis::paths::{is_plain_filename, is_single_component};
use rutis::versions::{Requirement, Version};
use sha2::Digest;
use std::sync::Arc;
use std::time::SystemTime;

const ABC: &str = "ba7816bf8f01cfea414140de5dae2223b00361a396177a9cb410ff61f20015ad";
const EMPTY: &str = "e3b0c44298fc1c149afbf4c8996fb92427ae41e4649b934ca495991b7852b855";
const SDK: &str = "sdk-identity";

fn sdk() -> SdkIdentity {
    SdkIdentity {
        id: SDK.to_string(),
        version: "0.1.0".to_string(),
        rustc: "rustc 1.90.0".to_string(),
        target: "x86_64-unknown-linux-gnu".to_string(),
    }
}

fn put(bytes: &mut Vec<u8>, at: usize, value: u64, width: usize) {
    for i in 0..width {
        bytes[at + i] = (value >> (8 * i)) as u8;
    }
}

/// An ELF file with the named sections behind a section of names.
fn elf(sections: &[(&str, &[u8])]) -> Vec<u8> {
    let mut names: Vec<u8> = vec![0];
    let mut at: Vec<usize> = Vec::new();
    for (name, _) in sections {
        at.push(names.len());
        names.extend_from_slice(name.as_bytes());
        names.push(0);
    }
    let count = sections.len() + 1;
    let table = 64;
    let mut data = table + 64 * count;
    let mut bytes = vec![0u8; data];
    bytes[..6].copy_from_slice(&[0x7f, 0x45, 0x4c, 0x46, 2, 1]);
    put(&mut bytes, 40, table as u64, 8);
    put(&mut bytes, 58, 64, 2);
    put(&mut bytes, 60, count as u64, 2);
    put(&mut bytes, 62, 0, 2);
    put(&mut bytes, table + 24, data as u64, 8);
    put(&mut bytes, table + 32, names.len() as u64, 8);
    bytes.extend_from_slice(&names);
    data += names.len();
    for (i, (_, contents)) in sections.iter().enumerate() {
        let base = table + 64 * (i + 1);
        put(&mut bytes, base, at[i] as u64, 4);
        put(&mut bytes, base + 24, data as u64, 8);
        put(&mut bytes, base + 32, contents.len() as u64, 8);
        bytes.extend_from_slice(contents);
        data += contents.len();
    }
    bytes
}

fn library(id: &str, version: &str) -> Vec<u8> {
    let blob = boot_meta(SDK, ABC, id, version);
    elf(&[(".text", b"code"), (".note.rutis.meta", &blob)])
}

fn hash_of(bytes: &[u8]) -> String {
    sha2::Sha256::digest(bytes)
        .iter()
        .map(|b| format!("{:02x}", b))
        .collect()
}

fn manifest(id: &str, version: &str, library_sha256: &str) -> Manifest {
    Manifest {
        plugin: PluginManifest {
            id: id.to_string(),
            version: version.to_string(),
            library: "libgreeter.so".to_string(),
            library_sha256: library_sha256.to_string(),
        },
        sdk: SdkManifest {
            version: "0.1.0".to_string(),
            id: SDK.to_string(),
            artifact_sha256: ABC.to_string(),
        },
        interfaces: vec![],
        build: BuildManifest {
            target: "x86_64-unknown-linux-gnu".to_string(),
            rustc: "rustc 1.90.0".to_string(),
            lock_sha256: EMPTY.to_string(),
        },
    }
}

fn startup() -> Startup {
    Startup {
        boot_id: b"sdk-identity----".to_vec(),
        boot_id_len: SDK.len(),
        file: Ok(SdkFile {
            path: "/lib/sdk.so".to_string(),
            bytes: b"abc".to_vec(),
        }),
    }
}

fn loader(max_versions: usize) -> Loader {
    let interfaces = vec![Interface {
        name: "chat".to_string(),
        version: Version::parse("1.4.2").unwrap(),
    }];
    match Loader::new(ABC.to_string(), sdk(), &startup(), interfaces, max_versions) {
        Ok(loader) => loader,
        Err(e) => panic!("{}", e.to_text()),
    }
}

fn reason(result: Result<(), LoadError>) -> (String, String) {
    let e = result.unwrap_err();
    (e.step.to_string(), e.reason)
}

fn meta(id: &'static str, version: &'static str) -> PluginMeta {
    PluginMeta {
        sdk_id: SDK,
        sdk_artifact_sha256: ABC,
        id,
        version,
    }
}

fn built(factory: u64) -> EntryOutcome {
    EntryOutcome::Built {
        name: "greeter".to_string(),
        injects: vec![TypeKey::of::<u8>("u8")],
        factory,
    }
}

#[test]
fn hashes_are_64_lower_case_digits() {
    assert!(is_sha256(ABC));
    assert!(!is_sha256(&ABC[1..]));
    assert!(!is_sha256(&format!("{}0", ABC)));
    assert!(!is_sha256(&ABC.to_uppercase()));
    assert!(!is_sha256(&format!("g{}", &ABC[1..])));
    assert!(!is_sha256(&format!("ä{}", &ABC[2..])));
}

#[test]
fn the_loaded_kit_tells_its_identity() {
    let kit = sdk();
    assert_eq!(loaded_sdk_id(&kit), SDK);
    let mut buf = vec![9u8; 16];
    assert_eq!(rutis_sdk_boot_id(&kit, &mut buf), 12);
    assert_eq!(&buf[..12], SDK.as_bytes());
    assert_eq!(&buf[12..], &[9, 9, 9, 9]);
    let mut short = vec![9u8; 11];
    assert_eq!(rutis_sdk_boot_id(&kit, &mut short), 12);
    assert_eq!(short, vec![9u8; 11]);
}

#[test]
fn blobs_are_read_back() {
    let blob = boot_meta("sdk", ABC, "greeter", "1.0.0-é");
    assert_eq!(blob.len(), BOOT_SIZE);
    assert_eq!(&blob[..21], b"RUTIS_PLUGIN_BOOT_V1\0");
    assert_eq!(&blob[21..26], &[3, 0, b's', b'd', b'k']);
    let read = read_blob(&blob).unwrap();
    assert_eq!(read.sdk_id, "sdk");
    assert_eq!(read.sdk_artifact, ABC);
    assert_eq!(read.id, "greeter");
    assert_eq!(read.version, "1.0.0-é");
}

#[test]
fn long_fields_take_both_length_bytes() {
    let long = "x".repeat(300);
    let blob = boot_meta("s", "a", &long, "v");
    assert_eq!(&blob[27..29], &[44, 1]);
    assert_eq!(read_blob(&blob).unwrap().id, long);
}

#[test]
fn blobs_that_are_wrong_are_refused() {
    let good = boot_meta("sdk", ABC, "greeter", "1.0.0");
    assert_eq!(read_blob(&good[1..]).unwrap_err(), "invalid plugin boot section");
    let mut other = good.clone();
    other[0] = b'X';
    assert_eq!(read_blob(&other).unwrap_err(), "invalid plugin boot section");
    let mut long = good.clone();
    long[21] = 0xff;
    long[22] = 0xff;
    assert_eq!(read_blob(&long).unwrap_err(), "truncated boot field");
    let mut filled = good.clone();
    filled[21] = 0xe9;
    filled[22] = 1;
    assert_eq!(read_blob(&filled).unwrap_err(), "truncated boot field length");
    let mut text = good;
    text[23] = 0xff;
    assert_eq!(
        read_blob(&text).unwrap_err(),
        "invalid utf-8 sequence of 1 bytes from index 0"
    );
}

#[test]
fn sections_are_found_by_name() {
    let bytes = elf(&[(".text", b"code"), (".note.rutis.meta", b"blob"), (".data", b"")]);
    assert_eq!(elf_section(&bytes, b".note.rutis.meta").unwrap(), b"blob");
    assert_eq!(elf_section(&bytes, b".text").unwrap(), b"code");
    assert_eq!(elf_section(&bytes, b".data").unwrap(), b"");
    assert_eq!(
        elf_section(&bytes, b".bss").unwrap_err(),
        "plugin boot section missing"
    );
    let twice = elf(&[(".a", b"1"), (".a", b"2")]);
    assert_eq!(
        elf_section(&twice, b".a").unwrap_err(),
        "duplicate plugin boot section"
    );
}

#[test]
fn damaged_files_are_refused() {
    let good = elf(&[(".a", b"1234")]);
    let names = 64 + 128;
    let check = |change: &dyn Fn(&mut Vec<u8>), expected: &str| {
        let mut bytes = good.clone();
        change(&mut bytes);
        assert_eq!(elf_section(&bytes, b".a").unwrap_err(), expected);
    };
    check(&|b| b[4] = 1, "expected little-endian ELF64");
    check(&|b| b.truncate(5), "expected little-endian ELF64");
    check(&|b| b.truncate(47), "truncated ELF section");
    check(&|b| b.truncate(63), "truncated ELF header");
    check(&|b| put(b, 58, 63, 2), "unsupported ELF section table");
    check(&|b| put(b, 60, 0, 2), "unsupported ELF section table");
    check(&|b| put(b, 62, 2, 2), "unsupported ELF section table");
    check(&|b| put(b, 40, u64::MAX, 8), "truncated ELF section table");
    check(
        &|b| {
            put(b, 40, u64::MAX, 8);
            put(b, 62, 1, 2);
        },
        "ELF section overflow",
    );
    check(&|b| b.truncate(100), "truncated ELF section table");
    check(&|b| put(b, 64 + 32, 9999, 8), "truncated ELF name table");
    check(&|b| put(b, 64 + 32, u64::MAX, 8), "ELF name table overflow");
    check(&|b| put(b, 128, 77, 4), "bad ELF section name");
    check(&|b| b[names + 3] = b'x', "unterminated ELF section name");
    check(&|b| put(b, 128 + 32, 9999, 8), "truncated plugin boot section");
    check(&|b| put(b, 128 + 32, u64::MAX, 8), "ELF section overflow");
}

#[test]
fn the_blob_of_a_library_is_in_its_section() {
    let bytes = library("greeter", "1.0.0");
    let boot = parse_boot(&bytes).unwrap();
    assert_eq!(boot.id, "greeter");
    assert_eq!(
        parse_boot(&elf(&[(".text", b"")])).unwrap_err(),
        "plugin boot section missing"
    );
    assert_eq!(
        parse_boot(&elf(&[(".note.rutis.meta", b"short")])).unwrap_err(),
        "invalid plugin boot section"
    );
}

#[test]
fn filenames_are_one_name() {
    for good in ["a", "libx.so", "a/", "a/.", "a//./", "..a", ".a", "a..", "ä"] {
        assert!(is_plain_filename(good), "{}", good);
        assert!(is_single_component(good), "{}", good);
    }
    for single in ["/", ".", "..", "./", "../", "/.", "//"] {
        assert!(!is_plain_filename(single), "{}", single);
        assert!(is_single_component(single), "{}", single);
    }
    for bad in ["", "a/b", "/a", "./a", "../a", "a/..", "a/../b"] {
        assert!(!is_plain_filename(bad), "{}", bad);
        assert!(!is_single_component(bad), "{}", bad);
    }
    for path in ["", "a", "/", "a/b", "./a", "a/.", "a//b", "/a/../b", "...", "a/./b", "."] {
        assert_eq!(
            is_single_component(path),
            std::path::Path::new(path).components().count() == 1,
            "{}",
            path
        );
    }
}

#[test]
fn requirements_are_met_or_not() {
    let version = Version::parse("1.4.2").unwrap();
    assert_eq!(version.to_text(), "1.4.2");
    assert!(Requirement::parse("^1.2").unwrap().matches(&version));
    assert!(!Requirement::parse("^2").unwrap().matches(&version));
    assert_eq!(Requirement::parse(">=1.2,<2").unwrap().to_text(), ">=1.2, <2");
    assert!(Version::parse("one").is_err());
    assert_eq!(
        Requirement::parse("nope").err().unwrap(),
        semver::VersionReq::parse("nope").unwrap_err().to_string()
    );
}

#[test]
fn interfaces_are_checked_by_name_and_version() {
    let have = vec![Interface {
        name: "chat".to_string(),
        version: Version::parse("1.4.2").unwrap(),
    }];
    assert!(check_interface(&have, "chat", "^1.4").is_ok());
    assert_eq!(
        check_interface(&have, "chat", "^2").unwrap_err(),
        "chat 1.4.2 does not meet ^2"
    );
    assert_eq!(
        check_interface(&have, "voice", "*").unwrap_err(),
        "missing interface voice"
    );
    assert!(check_interface(&have, "voice", "?").is_err());
}

#[test]
fn hosts_start_only_with_their_own_kit() {
    let start = |artifact: &str, found: &Startup| match Loader::new(
        artifact.to_string(),
        sdk(),
        found,
        vec![],
        1,
    ) {
        Ok(_) => "started".to_string(),
        Err(e) => {
            assert_eq!(e.plugin, "<host>");
            assert_eq!(e.version, "");
            assert_eq!(e.step, "startup");
            e.reason
        }
    };
    assert_eq!(start(ABC, &startup()), "started");
    assert_eq!(start("abc", &startup()), "invalid embedded SDK artifact SHA-256");
    let mut other = startup();
    other.boot_id[0] = b'x';
    assert_eq!(start(ABC, &other), "loaded SDK identity differs from host");
    let mut longer = startup();
    longer.boot_id_len = 13;
    assert_eq!(start(ABC, &longer), "loaded SDK identity differs from host");
    let mut lost = startup();
    lost.file = Err("dladdr failed".to_string());
    assert_eq!(start(ABC, &lost), "dladdr failed");
    assert_eq!(
        start(EMPTY, &startup()),
        format!(
            "loaded SDK artifact mismatch at /lib/sdk.so: expected {}, got {}",
            EMPTY, ABC
        )
    );
}

#[test]
fn manifests_are_refused_for_the_first_fault() {
    let loader = loader(2);
    let m = manifest("greeter", "1.0.0", EMPTY);
    assert!(loader.admit_manifest(&m).is_ok());

    let mut m = manifest("", "1.0.0", EMPTY);
    m.build.target = "other".to_string();
    assert_eq!(
        reason(loader.admit_manifest(&m)),
        (
            "manifest".to_string(),
            "plugin id and version must be nonempty".to_string()
        )
    );
    let mut m = manifest("greeter", "1.0.0", EMPTY);
    m.build.target = "other".to_string();
    assert_eq!(reason(loader.admit_manifest(&m)).1, "target mismatch: other");
    let mut m = manifest("greeter", "1.0.0", EMPTY);
    m.build.rustc = "rustc 1".to_string();
    assert_eq!(reason(loader.admit_manifest(&m)).1, "rustc mismatch: rustc 1");
    let mut m = manifest("greeter", "1.0.0", EMPTY);
    m.sdk.id = "x".to_string();
    assert_eq!(
        reason(loader.admit_manifest(&m)).1,
        format!(
            "SDK mismatch: manifest id=x artifact={}, host id={} artifact={}",
            ABC, SDK, ABC
        )
    );
    let mut m = manifest("greeter", "1.0.0", EMPTY);
    m.sdk.version = "9".to_string();
    assert_eq!(reason(loader.admit_manifest(&m)).1, "SDK version mismatch: 9");
    let m = manifest("greeter", "1.0.0", "nohash");
    assert_eq!(reason(loader.admit_manifest(&m)).1, "invalid SHA-256 field");
    let mut m = manifest("greeter", "1.0.0", EMPTY);
    m.interfaces = vec![
        ("chat".to_string(), "^1".to_string()),
        ("voice".to_string(), "^1".to_string()),
        ("video".to_string(), "^1".to_string()),
    ];
    assert_eq!(
        reason(loader.admit_manifest(&m)),
        ("interfaces".to_string(), "missing interface voice".to_string())
    );
    let mut m = manifest("greeter", "1.0.0", EMPTY);
    m.plugin.library = "../libgreeter.so".to_string();
    let e = loader.admit_manifest(&m).unwrap_err();
    assert_eq!(
        e.to_text(),
        "plugin greeter 1.0.0: manifest: library must be a filename"
    );
}

#[test]
fn unreadable_manifests_name_no_plugin() {
    let e = LoadError::unreadable("no such file".to_string());
    assert_eq!(e.to_text(), "plugin <unknown> : manifest: no such file");
}

#[test]
fn libraries_are_mapped_once_and_counted() {
    let mut loader = loader(2);
    let one = library("greeter", "1.0.0");
    let m = manifest("greeter", "1.0.0", &hash_of(&one));
    let admission = loader.admit_library(&m, &one).unwrap();
    assert_eq!(admission.hash, hash_of(&one));
    assert!(matches!(admission.place, Place::Unmapped));

    let slot = loader.retain(&m, admission.hash.clone(), one.len() as u64, SystemTime::now());
    assert_eq!(slot, 0);
    assert!(matches!(
        loader.admit_library(&m, &one).unwrap().place,
        Place::Mapped(0)
    ));
    assert!(!loader.diagnostics()[0].usable);
    assert_eq!(loader.diagnostics()[0].strong_references, 0);

    let refused = loader.install(&m, slot, admission.hash.clone(), EntryOutcome::Panicked);
    assert_eq!(refused.err().unwrap().reason, "factory entry panicked");
    assert!(matches!(
        loader.admit_library(&m, &one).unwrap().place,
        Place::Mapped(0)
    ));
    let module = loader
        .install(&m, slot, admission.hash.clone(), built(7))
        .unwrap_or_else(|e| panic!("{}", e.to_text()));
    assert_eq!(module.id(), "greeter");
    assert_eq!(module.version(), "1.0.0");
    assert_eq!(module.library_sha256(), hash_of(&one));
    assert_eq!(module.factory, 7);
    match loader.admit_library(&m, &one).unwrap().place {
        Place::Loaded(same) => assert!(Arc::ptr_eq(&same, &module)),
        _ => panic!("not loaded"),
    }
    let report = &loader.diagnostics()[0];
    assert!(report.usable);
    assert_eq!(report.strong_references, 2);
    assert_eq!(report.mapped_bytes, one.len() as u64);

    let two = library("greeter", "2.0.0");
    let m2 = manifest("greeter", "2.0.0", &hash_of(&two));
    assert!(matches!(
        loader.admit_library(&m2, &two).unwrap().place,
        Place::Unmapped
    ));
    loader.retain(&m2, hash_of(&two), 0, SystemTime::now());
    let three = library("greeter", "3.0.0");
    let m3 = manifest("greeter", "3.0.0", &hash_of(&three));
    let e = loader.admit_library(&m3, &three).err().unwrap();
    assert_eq!(e.step, "retention");
    assert_eq!(
        e.reason,
        "version limit 2 reached; restart the host to reclaim code"
    );
    let other = library("echo", "1.0.0");
    let m4 = manifest("echo", "1.0.0", &hash_of(&other));
    assert!(loader.admit_library(&m4, &other).is_ok());
}

#[test]
fn repeated_loads_find_the_same_module_at_the_limit() {
    let mut loader = loader(2);
    let one = library("greeter", "1.0.0");
    let m = manifest("greeter", "1.0.0", &hash_of(&one));
    let slot = loader.retain(&m, hash_of(&one), 0, SystemTime::now());
    let module = loader
        .install(&m, slot, hash_of(&one), built(1))
        .unwrap_or_else(|e| panic!("{}", e.to_text()));
    let two = library("greeter", "2.0.0");
    let m2 = manifest("greeter", "2.0.0", &hash_of(&two));
    loader.retain(&m2, hash_of(&two), 0, SystemTime::now());
    for _ in 0..3 {
        match loader.admit_library(&m, &one).unwrap().place {
            Place::Loaded(same) => {
                assert!(Arc::ptr_eq(&same, &module));
                assert_eq!(same.id(), "greeter");
                assert_eq!(same.library_sha256(), hash_of(&one));
            }
            _ => panic!("not loaded"),
        }
    }
    assert_eq!(loader.diagnostics().len(), 2);
}

#[test]
fn failed_loads_keep_one_entry_and_retries_use_it() {
    let mut loader = loader(1);
    let one = library("greeter", "1.0.0");
    let m = manifest("greeter", "1.0.0", &hash_of(&one));
    let early = manifest("greeter", "1.0.0", EMPTY);
    assert!(loader.admit_library(&early, &one).is_err());
    assert_eq!(loader.diagnostics().len(), 0);

    let slot = loader.retain(&m, hash_of(&one), 0, SystemTime::now());
    let boot = loader.admit_library(&m, &one).unwrap().boot;
    assert!(loader.admit_meta(&m, &boot, &MetaOutcome::Panicked).is_err());
    for _ in 0..2 {
        let place = loader.admit_library(&m, &one).unwrap().place;
        assert!(matches!(place, Place::Mapped(at) if at == slot));
        let refused = loader.install(&m, slot, hash_of(&one), EntryOutcome::Panicked);
        assert!(refused.is_err());
        let list = loader.diagnostics();
        assert_eq!(list.len(), 1);
        assert!(!list[0].usable);
        assert_eq!(list[0].library_sha256, hash_of(&one));
    }
    assert!(loader.install(&m, slot, hash_of(&one), built(1)).is_ok());
    assert_eq!(loader.diagnostics().len(), 1);
    assert!(loader.diagnostics()[0].usable);
}

#[test]
fn libraries_must_be_what_the_manifest_says() {
    let loader = loader(2);
    let bytes = library("greeter", "1.0.0");
    let e = loader
        .admit_library(&manifest("greeter", "1.0.0", EMPTY), &bytes)
        .err()
        .unwrap();
    assert_eq!(e.step, "binary");
    assert_eq!(
        e.reason,
        format!("library SHA-256 mismatch: {}", hash_of(&bytes))
    );
    let e = loader
        .admit_library(&manifest("other", "1.0.0", &hash_of(&bytes)), &bytes)
        .err()
        .unwrap();
    assert_eq!(e.step, "boot metadata");
    assert_eq!(e.reason, "binary identity differs from manifest or host");
    let e = loader
        .admit_library(&manifest("greeter", "1.0.0", ABC), b"abc")
        .err()
        .unwrap();
    assert_eq!(e.reason, "expected little-endian ELF64");
}

#[test]
fn metadata_must_agree_with_everything_else() {
    let loader = loader(2);
    let bytes = library("greeter", "1.0.0");
    let m = manifest("greeter", "1.0.0", &hash_of(&bytes));
    let boot = loader.admit_library(&m, &bytes).unwrap().boot;
    let good = MetaOutcome::Returned(meta("greeter", "1.0.0"));
    assert!(loader.admit_meta(&m, &boot, &good).is_ok());
    let bad = MetaOutcome::Returned(meta("greeter", "1.0.1"));
    assert_eq!(
        reason(loader.admit_meta(&m, &boot, &bad)),
        (
            "metadata".to_string(),
            "runtime identity differs from boot metadata or manifest".to_string()
        )
    );
    assert_eq!(
        reason(loader.admit_meta(&m, &boot, &MetaOutcome::Panicked)).1,
        "metadata function panicked"
    );
    let missing = MetaOutcome::Missing("undefined symbol".to_string());
    assert_eq!(reason(loader.admit_meta(&m, &boot, &missing)).1, "undefined symbol");
}

#[test]
fn entries_that_fail_give_no_module() {
    let mut loader = loader(1);
    let m = manifest("greeter", "1.0.0", EMPTY);
    let slot = loader.retain(&m, EMPTY.to_string(), 0, SystemTime::now());
    let cases = vec![
        (EntryOutcome::Missing("gone".to_string()), "gone"),
        (EntryOutcome::Refused("no".to_string()), "no"),
        (EntryOutcome::MetadataPanicked, "factory metadata panicked"),
    ];
    for (outcome, expected) in cases {
        let e = loader.install(&m, slot, EMPTY.to_string(), outcome).err().unwrap();
        assert_eq!(e.step, "entry");
        assert_eq!(e.reason, expected);
    }
    assert!(!loader.diagnostics()[0].usable);
}

fn module(id: &str, name: &str, injects: Vec<TypeKey>) -> Module {
    Module {
        id: id.to_string(),
        version: "1".to_string(),
        library_sha256: EMPTY.to_string(),
        name: name.to_string(),
        injects,
        factory: 0,
    }
}

#[test]
fn a_fiber_goes_over_only_to_the_same_plugin() {
    let issue = |result: Result<(), CordisError>| match result {
        Ok(()) => "fine".to_string(),
        Err(CordisError::Validation { issues }) => issues[0].clone(),
        Err(_) => "another error".to_string(),
    };
    let key = || TypeKey::of::<u8>("u8");
    let old = module("a", "n", vec![key()]);
    let changed =
        "plugin identity or dependency declaration changed; dispose and spawn a new fiber";
    assert_eq!(issue(check_module(&old, &module("a", "n", vec![key()]))), "fine");
    assert_eq!(issue(check_module(&old, &module("b", "n", vec![key()]))), changed);
    assert_eq!(issue(check_module(&old, &module("a", "m", vec![key()]))), changed);
    assert_eq!(issue(check_module(&old, &module("a", "n", vec![]))), changed);
    let other = vec![TypeKey::of::<u16>("u16")];
    assert_eq!(issue(check_module(&old, &module("a", "n", other))), changed);
    assert_eq!(
        issue(check_swap(&None, &module("a", "n", vec![]))),
        "fiber is not a dylib plugin"
    );
    let current = Some(Arc::new(old));
    assert_eq!(issue(check_swap(&current, &module("a", "n", vec![key()]))), "fine");
    assert_eq!(issue(check_swap(&current, &module("a", "x", vec![key()]))), changed);
}

#[test]
fn cached_copies_are_checked_by_hash() {
    let abc = Some(b"abc".to_vec());
    assert!(cache_is_current(&abc, ABC));
    assert!(!cache_is_current(&abc, EMPTY));
    assert!(!cache_is_current(&None, ABC));
    assert!(cache_is_current(&Some(vec![]), EMPTY));
    assert!(check_replaced(&abc, ABC).is_ok());
    assert_eq!(
        check_replaced(&None, ABC).unwrap_err(),
        "cached library SHA-256 mismatch after atomic replacement"
    );
}

fn text(value: &str) -> Option<String> {
    Some(value.to_string())
}

fn bound() -> Bound {
    Bound {
        host_file: text("host"),
        host_hash: text(ABC),
        sdk_file: text("sdk.so"),
        sdk_hash: text(ABC),
        std_file: text("std.so"),
        std_hash: text(EMPTY),
    }
}

#[test]
fn launchers_must_be_bound() {
    let bundle = bundle_of(bound()).unwrap_or_else(|e| panic!("{}", e));
    assert_eq!(bundle.host.name, "host");
    assert_eq!(bundle.std_lib.hash, EMPTY);
    let lacking = |change: &dyn Fn(&mut Bound)| {
        let mut b = bound();
        change(&mut b);
        bundle_of(b).err().unwrap()
    };
    assert_eq!(
        lacking(&|b| b.host_file = None),
        "launcher was not bound to a host artifact"
    );
    assert_eq!(
        lacking(&|b| b.host_hash = None),
        "launcher was not bound to a host hash"
    );
    assert_eq!(
        lacking(&|b| b.sdk_file = None),
        "launcher was not bound to an SDK artifact"
    );
    assert_eq!(
        lacking(&|b| b.sdk_hash = None),
        "launcher was not bound to an SDK hash"
    );
    assert_eq!(lacking(&|b| b.std_file = None), "launcher was not bound to libstd");
    assert_eq!(
        lacking(&|b| b.std_hash = None),
        "launcher was not bound to a libstd hash"
    );
}

#[test]
fn bundled_files_are_verified() {
    let file = BundledFile {
        name: "host".to_string(),
        hash: ABC.to_string(),
    };
    let abc = FileState::Regular(Ok(b"abc".to_vec()));
    assert!(verify(&file, "/b/host", &abc).is_ok());
    assert_eq!(
        verify(&file, "/b/host", &FileState::Regular(Ok(vec![]))).unwrap_err(),
        format!("/b/host SHA-256 mismatch: expected {}, got {}", ABC, EMPTY)
    );
    assert_eq!(
        verify(&file, "/b/host", &FileState::Irregular).unwrap_err(),
        "/b/host is not a regular file"
    );
    assert_eq!(
        verify(&file, "/b/host", &FileState::Unknown("gone".to_string())).unwrap_err(),
        "/b/host: gone"
    );
    assert_eq!(
        verify(&file, "/b/host", &FileState::Regular(Err("denied".to_string()))).unwrap_err(),
        "/b/host: denied"
    );
    let no_hash = BundledFile {
        name: "host".to_string(),
        hash: "x".to_string(),
    };
    assert_eq!(check_name(&no_hash).unwrap_err(), "invalid embedded hash for host");
    let path = BundledFile {
        name: "a/b".to_string(),
        hash: ABC.to_string(),
    };
    assert_eq!(check_name(&path).unwrap_err(), "invalid bundled filename: a/b");
    assert_eq!(
        verify(&path, "/b/a/b", &abc).unwrap_err(),
        "invalid bundled filename: a/b"
    );
}

#[test]
fn the_host_gets_a_clean_environment() {
    let names: Vec<String> = ["HOME", "LD_PRELOAD", "RUTIS_ORIG_LD_DEBUG", "LD_LIBRARY_PATH", "OLD_LD_"]
        .iter()
        .map(|n| n.to_string())
        .collect();
    let mut env: std::collections::BTreeMap<String, String> =
        names.iter().map(|n| (n.clone(), format!("<{}>", n))).collect();
    for change in launch_environment(&names) {
        match change {
            EnvChange::Remove(i) => {
                env.remove(&names[i]);
            }
            EnvChange::Put { name, value } => {
                let value = match value {
                    EnvValue::Variable(i) => format!("<{}>", names[i]),
                    EnvValue::One => "1".to_string(),
                    EnvValue::Directory => "/bundle".to_string(),
                };
                env.insert(name, value);
            }
        }
    }
    let shown: Vec<(String, String)> = env.into_iter().collect();
    let expected: Vec<(String, String)> = [
        ("HOME", "<HOME>"),
        ("LD_LIBRARY_PATH", "/bundle"),
        ("OLD_LD_", "<OLD_LD_>"),
        ("RUTIS_DYLIB_LAUNCHER", "1"),
        ("RUTIS_ORIG_LD_LIBRARY_PATH", "<LD_LIBRARY_PATH>"),
        ("RUTIS_ORIG_LD_PRELOAD", "<LD_PRELOAD>"),
    ]
    .iter()
    .map(|(a, b)| (a.to_string(), b.to_string()))
    .collect();
    assert_eq!(shown, expected);
}
