use rutis::boot::{is_sha256, loaded_sdk_id};
use rutis::flags::{canonical_rustflags, split};
use rutis::identity::{identity_source, sdk_identity, BuildInput};
use rutis::lockfile::{locked_sdk_tree, needed_names, read_lock};
use rutis::order::sorted;
use sha2::Digest;

const LOCK: &str = r#"
version = 4

[[package]]
name = "left-pad"
version = "1.0.0"

[[package]]
name = "rutis-sdk"
version = "0.1.0"
dependencies = [
 "serde",
 "tokio 1.2.3 (registry+https://example)",
]

[[package]]
name = "serde"
version = "1.0.2"
source = "registry"
checksum = "aa"
dependencies = [
 "rutis-sdk",
]

[[package]]
name = "serde"
version = "0.9.0"
source = "registry"
checksum = "bb"

[[package]]
name = "tokio"
version = "1.2.3"
source = "registry"
checksum = "cc"
"#;

fn flags(parts: &[&str]) -> Result<Vec<String>, String> {
    canonical_rustflags(&parts.join("\u{1f}"))
}

#[test]
fn texts_are_split_at_every_separator() {
    assert_eq!(split("a,b,,c,", ','), vec!["a", "b", "", "c", ""]);
    assert_eq!(split("", ','), vec![""]);
    assert_eq!(split("abc", ','), vec!["abc"]);
}

#[test]
fn lists_are_put_in_order() {
    let list = ["b", "", "ab", "a", "b", "ä", "B"];
    let mut expected: Vec<String> = list.iter().map(|s| s.to_string()).collect();
    let got = sorted(expected.clone());
    expected.sort();
    assert_eq!(got, expected);
    let pairs = vec![
        ("b".to_string(), "1".to_string()),
        ("a".to_string(), "2".to_string()),
        ("a".to_string(), "1".to_string()),
    ];
    let mut expected = pairs.clone();
    expected.sort();
    assert_eq!(sorted(pairs), expected);
}

#[test]
fn flags_that_matter_are_kept_in_order() {
    let kept = flags(&[
        "-Ctarget-cpu=native",
        "",
        "--cfg",
        "tokio_unstable",
        "-A",
        "dead_code",
        "-Wunused",
        "--cap-lints=warn",
        "-C",
        "panic=unwind",
        "-Copt-level=3",
        "-C",
        "link-arg=-s",
        "-L",
        "/usr/lib",
        "-lssl",
        "-Zsanitizer=address",
        "--cfg=extra",
        "--remap-path-prefix=/a=/b",
        "-Coverflow-checks",
        "-Ctarget-feature=+a=b",
    ])
    .unwrap();
    assert_eq!(
        kept,
        vec![
            "--cfgextra",
            "--cfgtokio_unstable",
            "-Coverflow-checks=",
            "-Cpanic=unwind",
            "-Ctarget-cpu=native",
            "-Ctarget-feature=+a=b",
            "-Zsanitizer=address",
        ]
    );
    assert!(canonical_rustflags("").unwrap().is_empty());
}

#[test]
fn unknown_flags_are_refused() {
    assert_eq!(flags(&["-D"]).unwrap_err(), "missing lint value for -D");
    assert_eq!(flags(&["-C"]).unwrap_err(), "missing value for -C");
    assert_eq!(
        flags(&["--test"]).unwrap_err(),
        "unclassified RUSTFLAGS argument: --test"
    );
    assert_eq!(
        flags(&["-Clto=fat", "--test"]).unwrap_err(),
        "unclassified RUSTFLAGS codegen option: lto"
    );
    assert!(flags(&["-D", "warnings"]).unwrap().is_empty());
}

#[test]
fn the_packages_of_a_kit_are_found() {
    let packages = read_lock(LOCK).map_err(|e| panic!("{}", e)).unwrap_or_default();
    assert_eq!(packages.len(), 5);
    assert_eq!(packages[1].deps, vec!["serde", "tokio"]);
    assert_eq!(packages[2].checksum, "aa");
    let mut names = needed_names(&packages).unwrap();
    names.sort();
    assert_eq!(names, vec!["rutis-sdk", "serde", "tokio"]);
    assert_eq!(
        locked_sdk_tree(LOCK).unwrap(),
        vec![
            "rutis-sdk 0.1.0  ",
            "serde 0.9.0 registry bb",
            "serde 1.0.2 registry aa",
            "tokio 1.2.3 registry cc",
        ]
    );
}

#[test]
fn packages_that_are_missing_are_named() {
    assert_eq!(
        locked_sdk_tree("").unwrap_err(),
        "rutis-sdk missing from Cargo.lock"
    );
    let cut = &LOCK[..LOCK.rfind("[[package]]").unwrap()];
    assert_eq!(
        locked_sdk_tree(cut).unwrap_err(),
        "tokio missing from Cargo.lock"
    );
    let blank = "[[package]]\nname = \"a\"\ndependencies = [\n\" \",\n]\n";
    assert_eq!(
        locked_sdk_tree(blank).unwrap_err(),
        "dependency without a name in Cargo.lock"
    );
}

fn input(lock: Option<&str>) -> BuildInput {
    BuildInput {
        version: "0.1.0".to_string(),
        rustc: "rustc 1.90.0\r\nhost: x\n".to_string(),
        target: "x86_64".to_string(),
        panic: "unwind".to_string(),
        debug_assertions: "".to_string(),
        profile: "release".to_string(),
        rustflags: "-Cpanic=unwind".to_string(),
        lock: lock.map(str::to_string),
        variables: vec![
            ("CARGO_FEATURE_B".to_string(), "1".to_string()),
            ("HOME".to_string(), "/root".to_string()),
            ("CARGO_FEATURE_A".to_string(), "1".to_string()),
        ],
    }
}

fn expected_id(packages: &str) -> String {
    let mut digest = sha2::Sha256::new();
    for field in [
        "0.1.0",
        "rustc 1.90.0\r\nhost: x\n",
        "x86_64",
        "unwind",
        "",
        "release",
        "-Cpanic=unwind",
        packages,
        "A",
        "1",
        "B",
        "1",
    ] {
        digest.update((field.len() as u64).to_le_bytes());
        digest.update(field.as_bytes());
    }
    digest
        .finalize()
        .iter()
        .map(|b| format!("{:02x}", b))
        .collect()
}

#[test]
fn identities_hash_everything_that_matters() {
    let plain = sdk_identity(&input(None)).unwrap_or_else(|e| panic!("{}", e));
    assert_eq!(plain.sdk.id, expected_id(""));
    assert!(is_sha256(loaded_sdk_id(&plain.sdk)));
    assert_eq!(plain.sdk.rustc, "rustc 1.90.0");
    assert!(plain.packages.is_empty());
    let locked = sdk_identity(&input(Some(LOCK))).unwrap_or_else(|e| panic!("{}", e));
    assert_eq!(locked.sdk.id, expected_id(&locked.packages.join("\n")));
    assert_eq!(locked.packages.len(), 4);

    let mut silent = input(None);
    silent.rustc = "".to_string();
    assert_eq!(
        sdk_identity(&silent).err().unwrap(),
        "the compiler gave no version"
    );
    let mut strange = input(None);
    strange.rustflags = "--test".to_string();
    assert_eq!(
        sdk_identity(&strange).err().unwrap(),
        "unclassified RUSTFLAGS argument: --test"
    );
    assert_eq!(
        sdk_identity(&input(Some(""))).err().unwrap(),
        "rutis-sdk missing from Cargo.lock"
    );
}

#[test]
fn identities_are_written_as_constants() {
    let mut identity = sdk_identity(&input(None)).unwrap_or_else(|e| panic!("{}", e));
    identity.packages = vec!["a \"1\"".to_string(), "b 2".to_string()];
    assert_eq!(
        identity_source(&identity),
        format!(
            "pub const SDK_ID: &str = \"{}\";\npub const SDK_RUSTC_VERSION: &str = \"rustc 1.90.0\";\npub const SDK_TARGET: &str = \"x86_64\";\npub const SDK_PACKAGES: &[&str] = &[\"a \\\"1\\\"\",\"b 2\"];\n",
            identity.sdk.id
        )
    );
}

#[test]
fn the_first_missing_package_of_the_walk_is_named() {
    let kit = "[[package]]\nname = \"rutis-sdk\"\ndependencies = [\n\"a\",\n\"b\",\n]\n";
    assert_eq!(
        locked_sdk_tree(kit).unwrap_err(),
        "b missing from Cargo.lock"
    );
    let below = format!("{kit}[[package]]\nname = \"b\"\ndependencies = [\n\"c\",\n\"b\",\n]\n");
    assert_eq!(
        locked_sdk_tree(&below).unwrap_err(),
        "c missing from Cargo.lock"
    );
    let again = format!("{below}[[package]]\nname = \"c\"\n");
    assert_eq!(
        locked_sdk_tree(&again).unwrap_err(),
        "a missing from Cargo.lock"
    );
    assert_eq!(
        sdk_identity(&input(Some(&again))).err().unwrap(),
        "a missing from Cargo.lock"
    );
}

#[test]
fn blanks_are_the_white_space_of_unicode() {
    let mut blanks: Vec<u32> = (0x9..=0xd).chain(0x2000..=0x200a).collect();
    blanks.extend([
        0x20, 0x85, 0xa0, 0x1680, 0x2028, 0x2029, 0x202f, 0x205f, 0x3000,
    ]);
    for code in 0..=0x10ffff {
        let c = match char::from_u32(code) {
            Some(c) => c,
            None => continue,
        };
        assert_eq!(c.is_whitespace(), blanks.contains(&code));
        if c == '\n' || code > 0x3100 {
            continue;
        }
        let lock = format!("{c}[[package]]{c}\nname = \"rutis-sdk\"\n");
        assert_eq!(locked_sdk_tree(&lock).is_ok(), blanks.contains(&code));
    }
}

#[test]
fn blanks_around_lines_and_behind_names_do_not_count() {
    let lock = "\u{a0}[[package]]\r\n\tname = \"rutis-sdk\"  \nversion = \"0.1.0\"\n dependencies = [\n  \"leaf 1.0.0 (registry)\",\n ]\u{3000}\n[[package]]\nname = \"leaf\"\nversion = \"1.0.0\"\n";
    assert_eq!(
        rutis::lockfile::locked_sdk_tree(lock).unwrap(),
        vec!["leaf 1.0.0  ", "rutis-sdk 0.1.0  "]
    );
    let nameless = "[[package]]\nname = \"rutis-sdk\"\ndependencies = [\n\"  \",\n]\n";
    assert_eq!(
        rutis::lockfile::locked_sdk_tree(nameless).unwrap_err(),
        "dependency without a name in Cargo.lock"
    );
}
