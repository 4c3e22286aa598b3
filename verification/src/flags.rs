//! Compiler flags as far as they bear on binary compatibility.

use vstd::prelude::*;

use crate::order::{models, sorted, sorting_of};
use crate::text::{chars_of, has_prefix, joined, str_eq, text_between};

verus! {

/// The pieces of a text between the separators.
pub open spec fn pieces(text: Seq<char>, separator: char) -> Seq<Seq<char>>
    decreases text.len(),
{
    match text.index_of_first(separator) {
        Some(k) => if 0 <= k < text.len() {
            seq![text.take(k)] + pieces(text.skip(k + 1), separator)
        } else {
            seq![text]
        },
        None => seq![text],
    }
}

/// The pieces of a text between the separators.
pub fn split(text: &str, separator: char) -> (out: Vec<String>)
    ensures
        models(out@) == pieces(text@, separator),
{
    let chars = chars_of(text);
    let mut out: Vec<String> = Vec::new();
    let mut start: usize = 0;
    let mut i: usize = 0;
    assert(chars@.skip(0) =~= text@);
    assert(models(out@) =~= seq![]);
    assert(seq![] + pieces(text@, separator) =~= pieces(text@, separator));
    while i < chars.len()
        invariant
            start <= i <= chars@.len(),
            chars@ == text@,
            forall|j: int| start <= j < i ==> chars@[j] != separator,
            pieces(text@, separator) == models(out@) + pieces(
                chars@.skip(start as int),
                separator,
            ),
        decreases chars@.len() - i,
    {
        if chars[i] == separator {
            let ghost rest = chars@.skip(start as int);
            let ghost before = models(out@);
            proof {
                assert(rest[i - start] == separator);
                rest.index_of_first_ensures(separator);
                assert(rest.index_of_first(separator) == Some((i - start) as int)) by {
                    let k = rest.index_of_first(separator)->0;
                    if k < i - start {
                        assert(rest[k] == chars@[start + k]);
                    }
                }
                assert(rest.take((i - start) as int) =~= chars@.subrange(start as int, i as int));
                assert(rest.skip((i - start) + 1) =~= chars@.skip(i + 1));
            }
            out.push(text_between(&chars, start, i));
            proof {
                let piece = chars@.subrange(start as int, i as int);
                assert(models(out@) =~= before.push(piece));
                assert(before + (seq![piece] + pieces(chars@.skip(i + 1), separator))
                    =~= before.push(piece) + pieces(chars@.skip(i + 1), separator));
            }
            start = i + 1;
        }
        i += 1;
    }
    let ghost rest = chars@.skip(start as int);
    let ghost before = models(out@);
    proof {
        rest.index_of_first_ensures(separator);
        assert(!rest.contains(separator)) by {
            if rest.contains(separator) {
                let k = choose|k: int| 0 <= k < rest.len() && rest[k] == separator;
                assert(chars@[start + k] == separator);
            }
        }
        assert(pieces(rest, separator) == seq![rest]);
        assert(rest =~= chars@.subrange(start as int, chars@.len() as int));
    }
    out.push(text_between(&chars, start, chars.len()));
    assert(models(out@) =~= before + seq![rest]);
    out
}

/// A flag on lints, whose value is the next argument.
pub open spec fn is_lint_word(arg: Seq<char>) -> bool {
    arg == "-A"@ || arg == "-W"@ || arg == "-D"@ || arg == "-F"@ || arg == "--allow"@ || arg
        == "--warn"@ || arg == "--deny"@ || arg == "--forbid"@ || arg == "--cap-lints"@ || arg
        == "--force-warn"@
}

/// A flag on lints with its value.
pub open spec fn is_lint_flag(arg: Seq<char>) -> bool {
    "-A"@.is_prefix_of(arg) || "-W"@.is_prefix_of(arg) || "-D"@.is_prefix_of(arg)
        || "-F"@.is_prefix_of(arg) || "--allow="@.is_prefix_of(arg) || "--warn="@.is_prefix_of(arg)
        || "--deny="@.is_prefix_of(arg) || "--forbid="@.is_prefix_of(arg)
        || "--cap-lints="@.is_prefix_of(arg) || "--force-warn="@.is_prefix_of(arg)
}

/// A flag whose value is the next argument.
pub open spec fn takes_value(arg: Seq<char>) -> bool {
    arg == "-C"@ || arg == "--cfg"@ || arg == "-Z"@ || arg == "-L"@ || arg == "-l"@ || arg
        == "--remap-path-prefix"@
}

/// The kind and the value of a flag that carries its value.
pub open spec fn attached(arg: Seq<char>) -> Option<(Seq<char>, Seq<char>)> {
    if "-C"@.is_prefix_of(arg) {
        Some(("-C"@, arg.skip("-C"@.len() as int)))
    } else if "-Z"@.is_prefix_of(arg) {
        Some(("-Z"@, arg.skip("-Z"@.len() as int)))
    } else if "--cfg="@.is_prefix_of(arg) {
        Some(("--cfg"@, arg.skip("--cfg="@.len() as int)))
    } else if "--remap-path-prefix="@.is_prefix_of(arg) {
        Some(("--remap-path-prefix"@, arg.skip("--remap-path-prefix="@.len() as int)))
    } else if "-L"@.is_prefix_of(arg) {
        Some(("-L"@, arg.skip("-L"@.len() as int)))
    } else if "-l"@.is_prefix_of(arg) {
        Some(("-l"@, arg.skip("-l"@.len() as int)))
    } else {
        None
    }
}

/// The name of a code generation option: what stands before the first `=`.
pub open spec fn option_name(value: Seq<char>) -> Seq<char> {
    pieces(value, '=')[0]
}

/// The value of a code generation option: what stands behind the first `=`.
pub open spec fn option_value(value: Seq<char>) -> Seq<char> {
    if value.contains('=') {
        value.skip(option_name(value).len() as int + 1)
    } else {
        seq![]
    }
}

/// A code generation option that bears on binary compatibility.
pub open spec fn is_kept_option(name: Seq<char>) -> bool {
    name == "target-cpu"@ || name == "target-feature"@ || name == "panic"@ || name
        == "debug-assertions"@ || name == "overflow-checks"@
}

/// A code generation option that does not.
pub open spec fn is_ignored_option(name: Seq<char>) -> bool {
    name == "link-arg"@ || name == "link-args"@ || name == "linker"@ || name == "debuginfo"@ || name
        == "opt-level"@ || name == "incremental"@ || name == "codegen-units"@ || name == "metadata"@
        || name == "extra-filename"@ || name == "embed-bitcode"@ || name == "strip"@
}

/// What is kept of a flag, if anything; or what is wrong with it.
pub open spec fn kept_of(kind: Seq<char>, value: Seq<char>) -> Result<Option<Seq<char>>, Seq<char>> {
    if kind == "--cfg"@ || kind == "-Z"@ {
        Ok(Some(kind + value))
    } else if kind == "-C"@ {
        let name = option_name(value);
        if is_kept_option(name) {
            Ok(Some("-C"@ + name + "="@ + option_value(value)))
        } else if is_ignored_option(name) {
            Ok(None)
        } else {
            Err("unclassified RUSTFLAGS codegen option: "@ + name)
        }
    } else {
        Ok(None)
    }
}

/// What is kept of the flag at a place, and how many arguments it takes; or what
/// is wrong with it.
pub open spec fn flag_at(args: Seq<Seq<char>>, i: int) -> Result<(Option<Seq<char>>, int), Seq<char>> {
    let arg = args[i];
    if is_lint_word(arg) {
        if i + 2 <= args.len() {
            Ok((None, 2))
        } else {
            Err("missing lint value for "@ + arg)
        }
    } else if is_lint_flag(arg) {
        Ok((None, 1))
    } else if takes_value(arg) {
        if i + 1 < args.len() {
            match kept_of(arg, args[i + 1]) {
                Ok(kept) => Ok((kept, 2)),
                Err(e) => Err(e),
            }
        } else {
            Err("missing value for "@ + arg)
        }
    } else {
        match attached(arg) {
            Some((kind, value)) => match kept_of(kind, value) {
                Ok(kept) => Ok((kept, 1)),
                Err(e) => Err(e),
            },
            None => Err("unclassified RUSTFLAGS argument: "@ + arg),
        }
    }
}

/// What is kept of the flags from a place on, or the first thing that is wrong.
pub open spec fn flags_from(args: Seq<Seq<char>>, i: int) -> Result<Seq<Seq<char>>, Seq<char>>
    decreases args.len() - i,
{
    if i < 0 || i >= args.len() {
        Ok(seq![])
    } else {
        match flag_at(args, i) {
            Err(e) => Err(e),
            Ok((kept, n)) => if n < 1 {
                Ok(seq![])
            } else {
                match flags_from(args, i + n) {
                    Err(e) => Err(e),
                    Ok(rest) => match kept {
                        Some(text) => Ok(seq![text] + rest),
                        None => Ok(rest),
                    },
                }
            },
        }
    }
}

/// The arguments in the encoded form: the pieces that are not empty.
pub open spec fn not_empty() -> spec_fn(Seq<char>) -> bool {
    |piece: Seq<char>| piece.len() > 0
}

pub open spec fn arguments(raw: Seq<char>) -> Seq<Seq<char>> {
    pieces(raw, '\u{1f}').filter(not_empty())
}

fn lint_word(arg: &str) -> (yes: bool)
    ensures
        yes == is_lint_word(arg@),
{
    str_eq(arg, "-A") || str_eq(arg, "-W") || str_eq(arg, "-D") || str_eq(arg, "-F") || str_eq(
        arg,
        "--allow",
    ) || str_eq(arg, "--warn") || str_eq(arg, "--deny") || str_eq(arg, "--forbid") || str_eq(
        arg,
        "--cap-lints",
    ) || str_eq(arg, "--force-warn")
}

fn lint_flag(arg: &Vec<char>) -> (yes: bool)
    ensures
        yes == is_lint_flag(arg@),
{
    has_prefix(arg, "-A") || has_prefix(arg, "-W") || has_prefix(arg, "-D") || has_prefix(arg, "-F")
        || has_prefix(arg, "--allow=") || has_prefix(arg, "--warn=") || has_prefix(arg, "--deny=")
        || has_prefix(arg, "--forbid=") || has_prefix(arg, "--cap-lints=") || has_prefix(
        arg,
        "--force-warn=",
    )
}

fn value_taken(arg: &str) -> (yes: bool)
    ensures
        yes == takes_value(arg@),
{
    str_eq(arg, "-C") || str_eq(arg, "--cfg") || str_eq(arg, "-Z") || str_eq(arg, "-L") || str_eq(
        arg,
        "-l",
    ) || str_eq(arg, "--remap-path-prefix")
}

/// What stands behind a prefix, if the text has it.
pub open spec fn stripped(text: Seq<char>, prefix: Seq<char>) -> Option<Seq<char>> {
    if prefix.is_prefix_of(text) {
        Some(text.skip(prefix.len() as int))
    } else {
        None
    }
}

/// What stands behind a prefix, if the text has it.
pub fn strip(text: &str, prefix: &str) -> (rest: Option<String>)
    ensures
        match (rest, stripped(text@, prefix@)) {
            (Some(r), Some(expected)) => r@ == expected,
            (None, None) => true,
            _ => false,
        },
{
    let chars = chars_of(text);
    if !has_prefix(&chars, prefix) {
        return None;
    }
    let p = chars_of(prefix);
    assert(chars@.subrange(p@.len() as int, chars@.len() as int) =~= text@.skip(
        prefix@.len() as int,
    ));
    Some(text_between(&chars, p.len(), chars.len()))
}

fn attached_parts(arg: &str) -> (parts: Option<(&'static str, String)>)
    ensures
        match (parts, attached(arg@)) {
            (Some((kind, value)), Some((k, v))) => kind@ == k && value@ == v,
            (None, None) => true,
            _ => false,
        },
{
    if let Some(value) = strip(arg, "-C") {
        return Some(("-C", value));
    }
    if let Some(value) = strip(arg, "-Z") {
        return Some(("-Z", value));
    }
    if let Some(value) = strip(arg, "--cfg=") {
        return Some(("--cfg", value));
    }
    if let Some(value) = strip(arg, "--remap-path-prefix=") {
        return Some(("--remap-path-prefix", value));
    }
    if let Some(value) = strip(arg, "-L") {
        return Some(("-L", value));
    }
    if let Some(value) = strip(arg, "-l") {
        return Some(("-l", value));
    }
    None
}

fn option_parts(value: &str) -> (parts: (String, String))
    ensures
        parts.0@ == option_name(value@),
        parts.1@ == option_value(value@),
{
    let chars = chars_of(value);
    let mut i: usize = 0;
    while i < chars.len()
        invariant
            i <= chars@.len(),
            chars@ == value@,
            forall|j: int| 0 <= j < i ==> chars@[j] != '=',
        decreases chars@.len() - i,
    {
        if chars[i] == '=' {
            proof {
                assert(value@.contains('=')) by {
                    assert(value@[i as int] == '=');
                }
                value@.index_of_first_ensures('=');
                assert(value@.index_of_first('=') == Some(i as int));
                assert(value@.take(i as int) =~= chars@.subrange(0, i as int));
                assert(value@.skip(i + 1) =~= chars@.subrange(i + 1, chars@.len() as int));
                assert(pieces(value@, '=')[0] == value@.take(i as int));
            }
            return (text_between(&chars, 0, i), text_between(&chars, i + 1, chars.len()));
        }
        i += 1;
    }
    proof {
        value@.index_of_first_ensures('=');
        assert(!value@.contains('='));
        assert(pieces(value@, '=')[0] == value@);
        assert(chars@.subrange(0, chars@.len() as int) =~= value@);
    }
    (text_between(&chars, 0, chars.len()), String::new())
}

fn keep(kind: &str, value: &str) -> (result: Result<Option<String>, String>)
    ensures
        match (result, kept_of(kind@, value@)) {
            (Ok(Some(text)), Ok(Some(expected))) => text@ == expected,
            (Ok(None), Ok(None)) => true,
            (Err(e), Err(expected)) => e@ == expected,
            _ => false,
        },
{
    if str_eq(kind, "--cfg") || str_eq(kind, "-Z") {
        return Ok(Some(joined(kind, value)));
    }
    if !str_eq(kind, "-C") {
        return Ok(None);
    }
    let (name, rest) = option_parts(value);
    let n = name.as_str();
    if str_eq(n, "target-cpu") || str_eq(n, "target-feature") || str_eq(n, "panic") || str_eq(
        n,
        "debug-assertions",
    ) || str_eq(n, "overflow-checks") {
        let mut text = joined("-C", n);
        text.push_str("=");
        text.push_str(rest.as_str());
        return Ok(Some(text));
    }
    if str_eq(n, "link-arg") || str_eq(n, "link-args") || str_eq(n, "linker") || str_eq(
        n,
        "debuginfo",
    ) || str_eq(n, "opt-level") || str_eq(n, "incremental") || str_eq(n, "codegen-units") || str_eq(
        n,
        "metadata",
    ) || str_eq(n, "extra-filename") || str_eq(n, "embed-bitcode") || str_eq(n, "strip") {
        return Ok(None);
    }
    Err(joined("unclassified RUSTFLAGS codegen option: ", n))
}

/// A list put ahead of what is still to come.
pub open spec fn ahead(
    list: Seq<Seq<char>>,
    rest: Result<Seq<Seq<char>>, Seq<char>>,
) -> Result<Seq<Seq<char>>, Seq<char>> {
    match rest {
        Ok(more) => Ok(list + more),
        Err(e) => Err(e),
    }
}

fn arguments_of(raw: &str) -> (args: Vec<String>)
    ensures
        models(args@) == arguments(raw@),
{
    let all = split(raw, '\u{1f}');
    let ghost list = models(all@);
    let ghost keep = not_empty();
    let mut args: Vec<String> = Vec::new();
    let mut i: usize = 0;
    proof {
        crate::list::filter_empty(list, keep);
    }
    assert(models(args@) =~= seq![]);
    while i < all.len()
        invariant
            i <= all@.len(),
            list == models(all@),
            keep == not_empty(),
            models(args@) == list.subrange(0, i as int).filter(keep),
        decreases all@.len() - i,
    {
        proof {
            crate::list::filter_step(list, i as int, keep);
        }
        let ghost before = models(args@);
        if !all[i].as_str().is_empty() {
            args.push(all[i].clone());
            assert(models(args@) =~= before.push(list[i as int]));
        }
        i += 1;
    }
    proof {
        crate::list::whole(list);
    }
    args
}

/// The flags that bear on binary compatibility, in order, out of those that the
/// compiler is called with. A flag that is not known is refused.
pub fn canonical_rustflags(raw: &str) -> (result: Result<Vec<String>, String>)
    ensures
        match flags_from(arguments(raw@), 0) {
            Ok(kept) => result matches Ok(list) && sorting_of::<String>(models(list@), kept),
            Err(reason) => result matches Err(e) && e@ == reason,
        },
{
    let args = arguments_of(raw);
    let ghost all = models(args@);
    let mut out: Vec<String> = Vec::new();
    let mut i: usize = 0;
    assert(ahead(models(out@), flags_from(all, 0)) == flags_from(all, 0)) by {
        assert(models(out@) =~= seq![]);
        if let Ok(more) = flags_from(all, 0) {
            assert(seq![] + more =~= more);
        }
    }
    while i < args.len()
        invariant
            i <= args@.len(),
            all == models(args@),
            all == arguments(raw@),
            flags_from(all, 0) == ahead(models(out@), flags_from(all, i as int)),
        decreases args@.len() - i,
    {
        let arg = args[i].as_str();
        let chars = chars_of(arg);
        let ghost before = models(out@);
        assert(all[i as int] == arg@);
        let (kept, taken): (Option<String>, usize) = if lint_word(arg) {
            if args.len() - i < 2 {
                return Err(joined("missing lint value for ", arg));
            }
            (None, 2)
        } else if lint_flag(&chars) {
            (None, 1)
        } else if value_taken(arg) {
            if args.len() - i < 2 {
                return Err(joined("missing value for ", arg));
            }
            assert(all[i + 1] == args@[i + 1]@);
            match keep(arg, args[i + 1].as_str()) {
                Ok(kept) => (kept, 2),
                Err(e) => {
                    return Err(e);
                },
            }
        } else {
            match attached_parts(arg) {
                Some((kind, value)) => match keep(kind, value.as_str()) {
                    Ok(kept) => (kept, 1),
                    Err(e) => {
                        return Err(e);
                    },
                },
                None => {
                    return Err(joined("unclassified RUSTFLAGS argument: ", arg));
                },
            }
        };
        let ghost rest = flags_from(all, i + taken);
        match kept {
            Some(text) => {
                let ghost shown = text@;
                out.push(text);
                proof {
                    assert(models(out@) =~= before.push(shown));
                    if let Ok(more) = rest {
                        assert(before + (seq![shown] + more) =~= before.push(shown) + more);
                    }
                }
            },
            None => {},
        }
        i = i + taken;
    }
    assert(models(out@) + seq![] =~= models(out@));
    Ok(sorted(out))
}

} // verus!
