//! The identity of a kit: a hash over everything that its binary layout hangs on.

use vstd::prelude::*;
use vstd::utf8::encode_utf8;

use crate::boot::{is_hash_text, SdkIdentity};
use crate::digest::{sha256_hex, sha_bytes};
use crate::flags::{arguments, canonical_rustflags, flags_from, strip, stripped};
use crate::lockfile::{
    first_missing, is_needed, lines_of, locked_sdk_tree, missing_complaint, packages_in,
};
use crate::order::{models, sorted, sorting_of};
use crate::text::{chars_of, debug_text, debugged, text_between};

verus! {

/// What a kit is built with.
pub struct BuildInput {
    /// The kit's own version.
    pub version: String,
    /// What the compiler says of itself.
    pub rustc: String,
    pub target: String,
    pub panic: String,
    pub debug_assertions: String,
    pub profile: String,
    /// The compiler's flags in their encoded form.
    pub rustflags: String,
    /// The lock file, where there is one.
    pub lock: Option<String>,
    /// The variables of the environment.
    pub variables: Vec<(String, String)>,
}

/// The identity of a kit, and the packages that it is built from.
pub struct Identity {
    pub sdk: SdkIdentity,
    pub packages: Vec<String>,
}

/// The lowest `k` bytes of a number, the lowest first.
pub open spec fn low_bytes(n: nat, k: nat) -> Seq<u8>
    decreases k,
{
    if k == 0 {
        seq![]
    } else {
        seq![(n % 256) as u8] + low_bytes(n / 256, (k - 1) as nat)
    }
}

/// A text behind its length in eight bytes.
pub open spec fn counted(text: Seq<char>) -> Seq<u8> {
    low_bytes(encode_utf8(text).len(), 8) + encode_utf8(text)
}

/// The first `n` texts, each behind its length.
pub open spec fn all_counted(texts: Seq<Seq<char>>, n: nat) -> Seq<u8>
    decreases n,
{
    if n == 0 {
        seq![]
    } else {
        all_counted(texts, (n - 1) as nat) + counted(texts[n - 1])
    }
}

/// The first `n` pairs of texts, each text behind its length.
pub open spec fn pairs_counted(pairs: Seq<(Seq<char>, Seq<char>)>, n: nat) -> Seq<u8>
    decreases n,
{
    if n == 0 {
        seq![]
    } else {
        pairs_counted(pairs, (n - 1) as nat) + counted(pairs[n - 1].0) + counted(pairs[n - 1].1)
    }
}

/// The first `n` texts with the separator between them.
pub open spec fn joined_with(texts: Seq<Seq<char>>, separator: Seq<char>, n: nat) -> Seq<char>
    decreases n,
{
    if n == 0 {
        seq![]
    } else if n == 1 {
        texts[0]
    } else {
        joined_with(texts, separator, (n - 1) as nat) + separator + texts[n - 1]
    }
}

/// The first line of a text that is not empty.
pub open spec fn first_line(text: Seq<char>) -> Option<Seq<char>> {
    if text.len() == 0 {
        None
    } else {
        match text.index_of_first('\n') {
            None => Some(text),
            Some(k) => if k > 0 && text[k - 1] == '\r' {
                Some(text.take(k - 1))
            } else {
                Some(text.take(k))
            },
        }
    }
}

/// The features that are switched on, among the first `n` variables.
pub open spec fn features_among(variables: Seq<(String, String)>, n: nat) -> Seq<
    (Seq<char>, Seq<char>),
>
    decreases n,
{
    if n == 0 {
        seq![]
    } else {
        let before = features_among(variables, (n - 1) as nat);
        match stripped(variables[n - 1].0@, "CARGO_FEATURE_"@) {
            Some(name) => before.push((name, variables[n - 1].1@)),
            None => before,
        }
    }
}

/// The texts that the hash goes over, ahead of the features.
pub open spec fn hashed_texts(
    input: BuildInput,
    flags: Seq<Seq<char>>,
    packages: Seq<Seq<char>>,
) -> Seq<Seq<char>> {
    seq![
        input.version@,
        input.rustc@,
        input.target@,
        input.panic@,
        input.debug_assertions@,
        input.profile@,
        joined_with(flags, "\n"@, flags.len()),
        joined_with(packages, "\n"@, packages.len()),
    ]
}

/// The identity that a kit has.
pub open spec fn identity_of(
    input: BuildInput,
    flags: Seq<Seq<char>>,
    packages: Seq<Seq<char>>,
    features: Seq<(Seq<char>, Seq<char>)>,
) -> Seq<char> {
    let texts = hashed_texts(input, flags, packages);
    sha256_hex(all_counted(texts, texts.len()) + pairs_counted(features, features.len()))
}

fn push_counted(out: &mut Vec<u8>, text: &str)
    ensures
        final(out)@ == old(out)@ + counted(text@),
{
    let bytes = text.as_bytes();
    let ghost start = out@;
    let mut n: usize = bytes.len();
    let mut k: usize = 0;
    let ghost whole = low_bytes(bytes@.len(), 8);
    assert(seq![] + whole =~= whole);
    while k < 8
        invariant
            k <= 8,
            whole == low_bytes(bytes@.len(), 8),
            start.len() <= out@.len(),
            out@.subrange(0, start.len() as int) == start,
            whole == out@.skip(start.len() as int) + low_bytes(n as nat, (8 - k) as nat),
        decreases 8 - k,
    {
        let ghost before = out@;
        let b: u8 = (n % 256) as u8;
        out.push(b);
        proof {
            assert(out@.subrange(0, start.len() as int) =~= start);
            assert(out@.skip(start.len() as int) =~= before.skip(start.len() as int).push(b));
            let rest = low_bytes(n as nat / 256, (8 - k - 1) as nat);
            assert(before.skip(start.len() as int) + (seq![b] + rest) =~= before.skip(
                start.len() as int,
            ).push(b) + rest);
        }
        n = n / 256;
        k += 1;
    }
    assert(out@ =~= start + whole) by {
        assert(out@ =~= out@.subrange(0, start.len() as int) + out@.skip(start.len() as int));
        assert(out@.skip(start.len() as int) + Seq::<u8>::empty() =~= out@.skip(
            start.len() as int,
        ));
    }
    let mut i: usize = 0;
    while i < bytes.len()
        invariant
            i <= bytes@.len(),
            out@ == start + whole + bytes@.take(i as int),
        decreases bytes@.len() - i,
    {
        out.push(bytes[i]);
        i += 1;
        assert(out@ =~= start + whole + bytes@.take(i as int));
    }
    assert(bytes@.take(i as int) =~= bytes@);
    assert(out@ =~= start + counted(text@));
}

fn join_texts(texts: &Vec<String>, separator: &str) -> (out: String)
    ensures
        out@ == joined_with(models(texts@), separator@, texts@.len()),
{
    let mut out = String::new();
    let mut i: usize = 0;
    assert(out@ =~= seq![]);
    while i < texts.len()
        invariant
            i <= texts@.len(),
            out@ == joined_with(models(texts@), separator@, i as nat),
        decreases texts@.len() - i,
    {
        let ghost before = out@;
        if i > 0 {
            out.push_str(separator);
        }
        out.push_str(texts[i].as_str());
        assert(models(texts@)[i as int] == texts@[i as int]@);
        assert(i == 0 ==> out@ =~= texts@[0]@);
        i += 1;
    }
    out
}

fn line_of(text: &str) -> (line: Option<String>)
    ensures
        match (line, first_line(text@)) {
            (Some(l), Some(expected)) => l@ == expected,
            (None, None) => true,
            _ => false,
        },
{
    let chars = chars_of(text);
    if chars.len() == 0 {
        return None;
    }
    let mut i: usize = 0;
    while i < chars.len()
        invariant
            i <= chars@.len(),
            chars@ == text@,
            chars@.len() > 0,
            forall|j: int| 0 <= j < i ==> chars@[j] != '\n',
        decreases chars@.len() - i,
    {
        if chars[i] == '\n' {
            proof {
                assert(text@[i as int] == '\n');
                text@.index_of_first_ensures('\n');
                assert(text@.index_of_first('\n') == Some(i as int));
            }
            if i > 0 && chars[i - 1] == '\r' {
                assert(text@.take(i - 1) =~= chars@.subrange(0, i - 1));
                return Some(text_between(&chars, 0, i - 1));
            }
            assert(text@.take(i as int) =~= chars@.subrange(0, i as int));
            return Some(text_between(&chars, 0, i));
        }
        i += 1;
    }
    proof {
        text@.index_of_first_ensures('\n');
        assert(!text@.contains('\n'));
        assert(chars@.subrange(0, chars@.len() as int) =~= text@);
    }
    Some(text_between(&chars, 0, chars.len()))
}

fn features_of(variables: &Vec<(String, String)>) -> (features: Vec<(String, String)>)
    ensures
        models(features@) == features_among(variables@, variables@.len()),
{
    let mut features: Vec<(String, String)> = Vec::new();
    let mut i: usize = 0;
    assert(models(features@) =~= seq![]);
    while i < variables.len()
        invariant
            i <= variables@.len(),
            models(features@) == features_among(variables@, i as nat),
        decreases variables@.len() - i,
    {
        let ghost before = models(features@);
        if let Some(name) = strip(variables[i].0.as_str(), "CARGO_FEATURE_") {
            let ghost shown = name@;
            features.push((name, variables[i].1.clone()));
            assert(models(features@) =~= before.push((shown, variables@[i as int].1@)));
        }
        i += 1;
    }
    features
}

/// What keeps a kit from having an identity.
pub open spec fn input_fault(input: BuildInput) -> Option<Seq<char>> {
    if first_line(input.rustc@) is None {
        Some("the compiler gave no version"@)
    } else {
        match flags_from(arguments(input.rustflags@), 0) {
            Err(reason) => Some(reason),
            Ok(_) => lock_fault(input),
        }
    }
}

/// What is wrong with the lock file, if there is one: it cannot be read, or a
/// package is missing from it.
pub open spec fn lock_fault(input: BuildInput) -> Option<Seq<char>> {
    match input.lock {
        None => None,
        Some(lock) => match packages_in(lock@) {
            Err(reason) => Some(reason),
            Ok(packages) => match first_missing(packages) {
                Some(name) => Some(missing_complaint(name)),
                None => None,
            },
        },
    }
}

/// The lines of the packages that a kit is built from, in any order.
pub open spec fn package_lines(input: BuildInput) -> Seq<Seq<char>> {
    match input.lock {
        None => seq![],
        Some(lock) => {
            let packages = packages_in(lock@)->Ok_0;
            lines_of(packages.filter(is_needed(packages)))
        },
    }
}

/// The identity over these flags and features, which are those of the input, in
/// order.
pub open spec fn is_hash_of(
    input: BuildInput,
    flags: Seq<Seq<char>>,
    packages: Seq<Seq<char>>,
    features: Seq<(Seq<char>, Seq<char>)>,
    id: Seq<char>,
) -> bool {
    &&& sorting_of::<String>(flags, flags_from(arguments(input.rustflags@), 0)->Ok_0)
    &&& sorting_of::<(String, String)>(
        features,
        features_among(input.variables@, input.variables@.len()),
    )
    &&& id == identity_of(input, flags, packages, features)
}

/// The identity of a kit that is built from these packages.
pub open spec fn identifies(input: BuildInput, packages: Seq<Seq<char>>, id: Seq<char>) -> bool {
    exists|flags: Seq<Seq<char>>, features: Seq<(Seq<char>, Seq<char>)>| #[trigger]
        is_hash_of(input, flags, packages, features, id)
}

fn hash_input(
    input: &BuildInput,
    flags: &Vec<String>,
    packages: &Vec<String>,
    features: &Vec<(String, String)>,
) -> (id: String)
    ensures
        id@ == identity_of(*input, models(flags@), models(packages@), models(features@)),
        is_hash_text(id@),
{
    let mut bytes: Vec<u8> = Vec::new();
    let ghost texts = hashed_texts(*input, models(flags@), models(packages@));
    assert(bytes@ =~= all_counted(texts, 0));
    push_counted(&mut bytes, input.version.as_str());
    assert(bytes@ == all_counted(texts, 1));
    push_counted(&mut bytes, input.rustc.as_str());
    assert(bytes@ == all_counted(texts, 2));
    push_counted(&mut bytes, input.target.as_str());
    assert(bytes@ == all_counted(texts, 3));
    push_counted(&mut bytes, input.panic.as_str());
    assert(bytes@ == all_counted(texts, 4));
    push_counted(&mut bytes, input.debug_assertions.as_str());
    assert(bytes@ == all_counted(texts, 5));
    push_counted(&mut bytes, input.profile.as_str());
    assert(bytes@ == all_counted(texts, 6));
    push_counted(&mut bytes, join_texts(flags, "\n").as_str());
    assert(bytes@ == all_counted(texts, 7));
    push_counted(&mut bytes, join_texts(packages, "\n").as_str());
    assert(bytes@ == all_counted(texts, 8));
    let ghost head = bytes@;
    let mut i: usize = 0;
    assert(bytes@ =~= head + pairs_counted(models(features@), 0));
    while i < features.len()
        invariant
            i <= features@.len(),
            bytes@ == head + pairs_counted(models(features@), i as nat),
        decreases features@.len() - i,
    {
        push_counted(&mut bytes, features[i].0.as_str());
        push_counted(&mut bytes, features[i].1.as_str());
        assert(models(features@)[i as int] == features@[i as int]@);
        i += 1;
        assert(bytes@ =~= head + pairs_counted(models(features@), i as nat));
    }
    sha_bytes(bytes.as_slice())
}

fn packages_of(input: &BuildInput) -> (result: Result<Vec<String>, String>)
    ensures
        match lock_fault(*input) {
            Some(reason) => result matches Err(e) && e@ == reason,
            None => result matches Ok(packages) && sorting_of::<String>(
                models(packages@),
                package_lines(*input),
            ),
        },
{
    match &input.lock {
        None => {
            let packages: Vec<String> = Vec::new();
            assert(models(packages@) =~= package_lines(*input));
            Ok(packages)
        },
        Some(lock) => locked_sdk_tree(lock.as_str()),
    }
}

/// The identity of a kit, or why it has none.
pub fn sdk_identity(input: &BuildInput) -> (result: Result<Identity, String>)
    ensures
        match input_fault(*input) {
            Some(reason) => result matches Err(e) && e@ == reason,
            None => {
                &&& result matches Ok(identity)
                &&& identity.sdk.version@ == input.version@
                &&& identity.sdk.target@ == input.target@
                &&& first_line(input.rustc@) == Some(identity.sdk.rustc@)
                &&& sorting_of::<String>(models(identity.packages@), package_lines(*input))
                &&& identifies(*input, models(identity.packages@), identity.sdk.id@)
                &&& is_hash_text(identity.sdk.id@)
            },
        },
{
    let rustc = match line_of(input.rustc.as_str()) {
        Some(line) => line,
        None => {
            return Err("the compiler gave no version".to_owned());
        },
    };
    let flags = match canonical_rustflags(input.rustflags.as_str()) {
        Ok(flags) => flags,
        Err(e) => {
            return Err(e);
        },
    };
    let packages = match packages_of(input) {
        Ok(packages) => packages,
        Err(e) => {
            return Err(e);
        },
    };
    let features = sorted(features_of(&input.variables));
    let id = hash_input(input, &flags, &packages, &features);
    assert(is_hash_of(*input, models(flags@), models(packages@), models(features@), id@));
    let sdk = SdkIdentity {
        id,
        version: input.version.clone(),
        rustc,
        target: input.target.clone(),
    };
    Ok(Identity { sdk, packages })
}

/// The texts in their quoted and escaped form.
pub open spec fn all_debugged(texts: Seq<Seq<char>>) -> Seq<Seq<char>> {
    Seq::new(texts.len(), |i: int| debugged(texts[i]))
}

/// The constants that a kit is compiled with, as source text.
pub open spec fn constants_of(
    id: Seq<char>,
    rustc: Seq<char>,
    target: Seq<char>,
    packages: Seq<Seq<char>>,
) -> Seq<char> {
    "pub const SDK_ID: &str = "@ + debugged(id) + ";\npub const SDK_RUSTC_VERSION: &str = "@
        + debugged(rustc) + ";\npub const SDK_TARGET: &str = "@ + debugged(target)
        + ";\npub const SDK_PACKAGES: &[&str] = &["@ + joined_with(
        all_debugged(packages),
        ","@,
        packages.len(),
    ) + "];\n"@
}

/// Writes the constants that a kit is compiled with.
pub fn identity_source(identity: &Identity) -> (text: String)
    ensures
        text@ == constants_of(
            identity.sdk.id@,
            identity.sdk.rustc@,
            identity.sdk.target@,
            models(identity.packages@),
        ),
{
    let ghost all = models(identity.packages@);
    let mut quoted: Vec<String> = Vec::new();
    let mut i: usize = 0;
    while i < identity.packages.len()
        invariant
            i <= identity.packages@.len(),
            all == models(identity.packages@),
            quoted@.len() == i,
            forall|j: int| 0 <= j < i ==> (#[trigger] quoted@[j])@ == debugged(all[j]),
        decreases identity.packages@.len() - i,
    {
        quoted.push(debug_text(identity.packages[i].as_str()));
        i += 1;
    }
    assert(models(quoted@) =~= all_debugged(all));
    let mut text = "pub const SDK_ID: &str = ".to_owned();
    text.push_str(debug_text(identity.sdk.id.as_str()).as_str());
    text.push_str(";\npub const SDK_RUSTC_VERSION: &str = ");
    text.push_str(debug_text(identity.sdk.rustc.as_str()).as_str());
    text.push_str(";\npub const SDK_TARGET: &str = ");
    text.push_str(debug_text(identity.sdk.target.as_str()).as_str());
    text.push_str(";\npub const SDK_PACKAGES: &[&str] = &[");
    text.push_str(join_texts(&quoted, ",").as_str());
    text.push_str("];\n");
    text
}

} // verus!
