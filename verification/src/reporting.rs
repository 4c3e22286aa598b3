//! What is told of errors, and which compiler flags count.

use std::sync::Arc;

use vstd::prelude::*;

use crate::dispatch::panic_text;
use crate::drive::merged;
use crate::error::{
    aggregated, diagnosed, diagnosed_members, failure, message_of, shown, shown_members,
    shown_source, single_issue, CordisError, ErrorSource, PanicPayload,
};
use crate::flags::{
    attached, flag_at, flags_from, is_lint_flag, is_lint_word, kept_of, option_name, option_value,
    takes_value,
};
use crate::host_events::{
    dropped_line, shown_option, shown_origin, EventOrigin, NotifyParams,
};
use crate::text::{cut, debugged, decimal, spaces};
use crate::wording::options_are_split_at_the_first_sign;

verus! {

/// Several errors become one that holds each of them, in order; a single one stays what
/// it is, and of none nothing comes.
pub proof fn aggregates_lose_no_error(
    errors: Seq<Arc<CordisError>>,
    out: Option<Arc<CordisError>>,
    k: int,
)
    requires
        aggregated(errors, out),
    ensures
        out is None <==> errors.len() == 0,
        errors.len() == 1 ==> out == Some(errors[0]),
        errors.len() > 1 ==> (out matches Some(e) && *e matches CordisError::Aggregate {
            errors: members,
        } && members@.len() == errors.len() && (0 <= k < errors.len() ==> members@[k] == errors[k])),
{
}

/// Of an earlier error and a new one whichever there is is kept, and of two both, the
/// earlier one first.
pub proof fn merging_keeps_both_errors(
    prior: Option<Arc<CordisError>>,
    error: Option<Arc<CordisError>>,
    out: Option<Arc<CordisError>>,
)
    requires
        merged(prior, error, out),
    ensures
        prior is None ==> out == error,
        error is None ==> out == prior,
        prior is Some && error is Some ==> (out matches Some(e) && *e
            matches CordisError::Aggregate { errors: members } && members@.len() == 2 && members@[0]
            == prior->0 && members@[1] == error->0),
{
}

/// The part stands in the text, from the place on.
pub open spec fn stands_in(text: Seq<char>, part: Seq<char>, at: int) -> bool {
    0 <= at && at + part.len() <= text.len() && text.subrange(at, at + part.len()) == part
}

/// What an error is, in full.
pub open spec fn diagnosis(error: Arc<CordisError>) -> Seq<char> {
    diagnosed(*error)
}

proof fn members_stand_in_the_list(errors: Seq<Arc<CordisError>>, from: nat, k: int) -> (at: int)
    requires
        from <= k < errors.len(),
    ensures
        stands_in(diagnosed_members(errors, from), diagnosis(errors[k]), at),
    decreases errors.len() - from,
{
    let all = diagnosed_members(errors, from);
    let first = diagnosis(errors[from as int]);
    if from == k {
        assert(all.subrange(0, first.len() as int) =~= first);
        0
    } else {
        let rest = diagnosed_members(errors, from + 1);
        let inner = members_stand_in_the_list(errors, from + 1, k);
        let at = first.len() + ", "@.len() + inner;
        let part = diagnosis(errors[k]);
        assert(all == first + ", "@ + rest);
        assert(all.subrange(at, at + part.len()) =~= rest.subrange(inner, inner + part.len()));
        at
    }
}

/// The message of several errors holds what each of them is.
pub proof fn messages_hold_every_error(errors: Vec<Arc<CordisError>>, k: int)
    requires
        0 <= k < errors@.len(),
    ensures
        exists|at: int| #[trigger]
            stands_in(message_of(CordisError::Aggregate { errors }), diagnosis(errors@[k]), at),
{
    let inner = members_stand_in_the_list(errors@, 0, k);
    let whole = CordisError::Aggregate { errors };
    let head = whole.leaf_text() + " ["@;
    let list = diagnosed_members(errors@, 0);
    let part = diagnosis(errors@[k]);
    let at = head.len() + inner;
    assert(message_of(whole) == head + list + "]"@);
    assert(message_of(whole).subrange(at, at + part.len()) =~= list.subrange(
        inner,
        inner + part.len(),
    ));
    assert(stands_in(message_of(whole), part, at));
}

/// The message of a plugin's failure is that of what it failed with, behind the same
/// words.
pub proof fn failures_tell_their_cause(message: String, debug: String, inner: Box<CordisError>)
    ensures
        message_of(
            CordisError::PluginFailed(ErrorSource::Foreign { message, debug, source: None }),
        ) == "plugin failed: "@ + message@,
        message_of(CordisError::PluginFailed(ErrorSource::Cordis(inner))) == "plugin failed: "@
            + message_of(*inner),
{
}

/// One error of several, as the report lists it: on a line of its own, under its
/// number, with what belongs to it further in.
pub open spec fn listed_error(error: Arc<CordisError>, number: nat, indent: nat) -> Seq<char> {
    seq!['\n'] + spaces(indent) + decimal(number) + ". "@ + shown(*error, indent + 3)
}

proof fn members_stand_in_the_report(
    errors: Seq<Arc<CordisError>>,
    from: nat,
    indent: nat,
    k: int,
) -> (at: int)
    requires
        from <= k < errors.len(),
    ensures
        stands_in(
            shown_members(errors, from, indent),
            listed_error(errors[k], (k + 1) as nat, indent),
            at,
        ),
    decreases errors.len() - from,
{
    let all = shown_members(errors, from, indent);
    let first = listed_error(errors[from as int], from + 1, indent);
    let rest = shown_members(errors, from + 1, indent);
    assert(all =~= first + rest);
    if from == k {
        assert(all.subrange(0, first.len() as int) =~= first);
        0
    } else {
        let inner = members_stand_in_the_report(errors, from + 1, indent, k);
        let part = listed_error(errors[k], (k + 1) as nat, indent);
        let at = first.len() + inner;
        assert(all.subrange(at, at + part.len()) =~= rest.subrange(inner, inner + part.len()));
        at
    }
}

/// The report of several errors lists each of them, numbered from one, at the depth of
/// the list.
pub proof fn reports_list_every_error(errors: Vec<Arc<CordisError>>, indent: nat, k: int)
    requires
        0 <= k < errors@.len(),
    ensures
        exists|at: int| #[trigger]
            stands_in(
                shown(CordisError::Aggregate { errors }, indent),
                listed_error(errors@[k], (k + 1) as nat, indent),
                at,
            ),
{
    let whole = CordisError::Aggregate { errors };
    let inner = members_stand_in_the_report(errors@, 0, indent, k);
    let head = whole.leaf_text();
    let list = shown_members(errors@, 0, indent);
    let part = listed_error(errors@[k], (k + 1) as nat, indent);
    let at = head.len() + inner;
    assert(shown(whole, indent) == head + list);
    assert(shown(whole, indent).subrange(at, at + part.len()) =~= list.subrange(
        inner,
        inner + part.len(),
    ));
    assert(stands_in(shown(whole, indent), part, at));
}

/// The report of a foreign error goes on with its cause, on the next line and further
/// in, to the end of the chain; one of the kernel's own is reported as by itself.
pub proof fn reports_follow_the_causes(
    message: String,
    debug: String,
    next: Box<ErrorSource>,
    own: Box<CordisError>,
    indent: nat,
)
    ensures
        shown_source(ErrorSource::Foreign { message, debug, source: None }, indent) == message@,
        shown_source(ErrorSource::Foreign { message, debug, source: Some(next) }, indent)
            == message@ + seq!['\n'] + spaces(indent + 2) + "caused by: "@ + shown_source(
            *next,
            indent + 2,
        ),
        shown_source(ErrorSource::Cordis(own), indent) == shown(*own, indent),
        shown(CordisError::PluginFailed(*next), indent) == "plugin failed: "@ + shown_source(
            *next,
            indent,
        ),
{
}

proof fn flags_behind_others(first: Seq<Seq<char>>, rest: Seq<Seq<char>>, i: int)
    requires
        0 <= i,
    ensures
        flags_from(first + rest, first.len() + i) == flags_from(rest, i),
    decreases rest.len() - i,
{
    let all = first + rest;
    if i < rest.len() {
        assert(all[first.len() + i] == rest[i]);
        if i + 1 < rest.len() {
            assert(all[first.len() + i + 1] == rest[i + 1]);
        }
        assert(flag_at(all, first.len() + i) == flag_at(rest, i));
        if let Ok((_, n)) = flag_at(rest, i) {
            if n >= 1 {
                flags_behind_others(first, rest, i + n);
                assert(first.len() + i + n == first.len() + (i + n));
            }
        }
    }
}

/// The second sign of an argument tells it from the lint settings.
proof fn second_signs_tell_lints_apart(arg: Seq<char>)
    requires
        arg.len() >= 2,
        arg[0] == '-',
        arg[1] == 'C' || arg[1] == 'Z' || arg[1] == 'L' || arg[1] == 'l',
    ensures
        !is_lint_word(arg),
        !is_lint_flag(arg),
{
    reveal_strlit("-A");
    reveal_strlit("-W");
    reveal_strlit("-D");
    reveal_strlit("-F");
    reveal_strlit("--allow");
    reveal_strlit("--warn");
    reveal_strlit("--deny");
    reveal_strlit("--forbid");
    reveal_strlit("--cap-lints");
    reveal_strlit("--force-warn");
    reveal_strlit("--allow=");
    reveal_strlit("--warn=");
    reveal_strlit("--deny=");
    reveal_strlit("--forbid=");
    reveal_strlit("--cap-lints=");
    reveal_strlit("--force-warn=");
    prefixes_share_their_second_sign("-A"@, arg);
    prefixes_share_their_second_sign("-W"@, arg);
    prefixes_share_their_second_sign("-D"@, arg);
    prefixes_share_their_second_sign("-F"@, arg);
    prefixes_share_their_second_sign("--allow="@, arg);
    prefixes_share_their_second_sign("--warn="@, arg);
    prefixes_share_their_second_sign("--deny="@, arg);
    prefixes_share_their_second_sign("--forbid="@, arg);
    prefixes_share_their_second_sign("--cap-lints="@, arg);
    prefixes_share_their_second_sign("--force-warn="@, arg);
}

proof fn prefixes_share_their_second_sign(prefix: Seq<char>, text: Seq<char>)
    requires
        prefix.len() >= 2,
    ensures
        prefix.is_prefix_of(text) ==> text.len() >= 2 && text[1] == prefix[1],
{
    if prefix.is_prefix_of(text) {
        assert(text.subrange(0, prefix.len() as int)[1] == prefix[1]);
    }
}

/// A code generation option is attached to its flag: it reads as if it stood behind it.
proof fn attached_options_are_parted(value: Seq<char>)
    requires
        value.len() > 0,
    ensures
        ({
            let arg = "-C"@ + value;
            &&& !is_lint_word(arg) && !is_lint_flag(arg) && !takes_value(arg)
            &&& attached(arg) == Some(("-C"@, value))
            &&& !is_lint_word("-C"@) && !is_lint_flag("-C"@) && takes_value("-C"@)
        }),
{
    let arg = "-C"@ + value;
    reveal_strlit("-C");
    reveal_strlit("--cfg");
    reveal_strlit("-Z");
    reveal_strlit("-L");
    reveal_strlit("-l");
    reveal_strlit("--remap-path-prefix");
    assert(arg[0] == '-' && arg[1] == 'C');
    second_signs_tell_lints_apart(arg);
    second_signs_tell_lints_apart("-C"@);
    assert(arg.subrange(0, 2) =~= "-C"@);
    assert(arg.skip(2) =~= value);
    assert(arg.len() > 2);
    assert("-Z"@[1] == 'Z' && "-L"@[1] == 'L' && "-l"@[1] == 'l' && "--cfg"@[1] == '-'
        && "--remap-path-prefix"@[1] == '-');
}

/// A code generation option counts the same behind its flag and attached to it.
pub proof fn attached_options_count_the_same(value: Seq<char>, rest: Seq<Seq<char>>)
    requires
        value.len() > 0,
    ensures
        flags_from(seq!["-C"@ + value] + rest, 0) == flags_from(seq!["-C"@, value] + rest, 0),
{
    let one = seq!["-C"@ + value];
    let two = seq!["-C"@, value];
    attached_options_are_parted(value);
    flags_behind_others(one, rest, 0);
    flags_behind_others(two, rest, 0);
    assert((one + rest)[0] == "-C"@ + value);
    assert((two + rest)[0] == "-C"@);
    assert((two + rest)[1] == value);
    let a = flag_at(one + rest, 0);
    let b = flag_at(two + rest, 0);
    match kept_of("-C"@, value) {
        Ok(kept) => {
            assert(a == Ok::<(Option<Seq<char>>, int), Seq<char>>((kept, 1)));
            assert(b == Ok::<(Option<Seq<char>>, int), Seq<char>>((kept, 2)));
            assert(flags_from(one + rest, 1) == flags_from(rest, 0));
            assert(flags_from(two + rest, 2) == flags_from(rest, 0));
        },
        Err(e) => {},
    }
}

/// The names of the options that make code fit or not.
pub open spec fn counts(name: Seq<char>) -> bool {
    name == "target-cpu"@ || name == "target-feature"@ || name == "panic"@ || name
        == "debug-assertions"@ || name == "overflow-checks"@
}

/// The names of the options that make no difference.
pub open spec fn makes_no_difference(name: Seq<char>) -> bool {
    name == "link-arg"@ || name == "link-args"@ || name == "linker"@ || name == "debuginfo"@ || name
        == "opt-level"@ || name == "incremental"@ || name == "codegen-units"@ || name == "metadata"@
        || name == "extra-filename"@ || name == "embed-bitcode"@ || name == "strip"@
}

/// Of the code generation options those that make code fit or not are kept as they are
/// written, those that make no difference are left out, and any other is refused by its
/// name.
pub proof fn options_are_kept_by_name(name: Seq<char>, value: Seq<char>, rest: Seq<Seq<char>>)
    requires
        name.len() > 0,
        !name.contains('='),
    ensures
        ({
            let option = "-C"@ + (name.push('=') + value);
            let all = flags_from(seq![option] + rest, 0);
            &&& counts(name) && flags_from(rest, 0) is Ok ==> all == Ok::<
                Seq<Seq<char>>,
                Seq<char>,
            >(seq![option] + flags_from(rest, 0)->Ok_0)
            &&& counts(name) && flags_from(rest, 0) is Err ==> all == flags_from(rest, 0)
            &&& makes_no_difference(name) && !counts(name) ==> all == flags_from(rest, 0)
            &&& !counts(name) && !makes_no_difference(name) ==> all == Err::<
                Seq<Seq<char>>,
                Seq<char>,
            >("unclassified RUSTFLAGS codegen option: "@ + name)
        }),
{
    let inner = name.push('=') + value;
    let option = "-C"@ + inner;
    let one = seq![option];
    attached_options_are_parted(inner);
    options_are_split_at_the_first_sign(name, value);
    flags_behind_others(one, rest, 0);
    assert((one + rest)[0] == option);
    assert(option_name(inner) == name && option_value(inner) == value);
    reveal_strlit("=");
    reveal_strlit("-C");
    reveal_strlit("--cfg");
    reveal_strlit("-Z");
    assert("-C"@[1] == 'C' && "-Z"@[1] == 'Z');
    assert("-C"@.len() != "--cfg"@.len());
    assert("-C"@ + name + "="@ + value =~= option);
    assert(flags_from(one + rest, 1) == flags_from(rest, 0));
}

/// Lint settings make no difference, whether the level and the lint stand together or
/// one behind the other.
pub proof fn lint_settings_make_no_difference(
    level: Seq<char>,
    lint: Seq<char>,
    rest: Seq<Seq<char>>,
)
    requires
        level == "-A"@ || level == "-W"@ || level == "-D"@ || level == "-F"@,
        lint.len() > 0,
    ensures
        flags_from(seq![level, lint] + rest, 0) == flags_from(rest, 0),
        flags_from(seq![level + lint] + rest, 0) == flags_from(rest, 0),
{
    let one = seq![level + lint];
    let two = seq![level, lint];
    reveal_strlit("-A");
    reveal_strlit("-W");
    reveal_strlit("-D");
    reveal_strlit("-F");
    reveal_strlit("--allow");
    reveal_strlit("--warn");
    reveal_strlit("--deny");
    reveal_strlit("--forbid");
    reveal_strlit("--cap-lints");
    reveal_strlit("--force-warn");
    flags_behind_others(one, rest, 0);
    flags_behind_others(two, rest, 0);
    let arg = level + lint;
    assert((one + rest)[0] == arg);
    assert((two + rest)[0] == level);
    assert(arg.subrange(0, 2) =~= level);
    assert(arg.len() > 2);
    assert(arg[1] == level[1]);
    assert(!is_lint_word(arg)) by {
        assert("--allow"@[1] == '-' && "--warn"@[1] == '-' && "--deny"@[1] == '-' && "--forbid"@[1]
            == '-' && "--cap-lints"@[1] == '-' && "--force-warn"@[1] == '-');
    }
    assert(is_lint_flag(arg));
    assert(flags_from(one + rest, 1) == flags_from(rest, 0));
    assert(flags_from(two + rest, 2) == flags_from(rest, 0));
}

/// The other levels of lints make no difference either, written out, with the lint
/// behind them or after an equals sign.
pub proof fn lint_levels_in_words_make_no_difference(
    level: Seq<char>,
    lint: Seq<char>,
    rest: Seq<Seq<char>>,
)
    requires
        level == "--allow"@ || level == "--warn"@ || level == "--deny"@ || level == "--forbid"@
            || level == "--cap-lints"@ || level == "--force-warn"@,
    ensures
        flags_from(seq![level, lint] + rest, 0) == flags_from(rest, 0),
        flags_from(seq![level.push('=') + lint] + rest, 0) == flags_from(rest, 0),
{
    let arg = level.push('=') + lint;
    let one = seq![arg];
    let two = seq![level, lint];
    reveal_strlit("-A");
    reveal_strlit("-W");
    reveal_strlit("-D");
    reveal_strlit("-F");
    reveal_strlit("--allow");
    reveal_strlit("--warn");
    reveal_strlit("--deny");
    reveal_strlit("--forbid");
    reveal_strlit("--cap-lints");
    reveal_strlit("--force-warn");
    reveal_strlit("--allow=");
    reveal_strlit("--warn=");
    reveal_strlit("--deny=");
    reveal_strlit("--forbid=");
    reveal_strlit("--cap-lints=");
    reveal_strlit("--force-warn=");
    flags_behind_others(one, rest, 0);
    flags_behind_others(two, rest, 0);
    assert((one + rest)[0] == arg);
    assert((two + rest)[0] == level);
    assert("--allow"@.push('=') =~= "--allow="@);
    assert("--warn"@.push('=') =~= "--warn="@);
    assert("--deny"@.push('=') =~= "--deny="@);
    assert("--forbid"@.push('=') =~= "--forbid="@);
    assert("--cap-lints"@.push('=') =~= "--cap-lints="@);
    assert("--force-warn"@.push('=') =~= "--force-warn="@);
    assert(arg.subrange(0, level.len() as int + 1) =~= level.push('='));
    assert(arg[level.len() as int] == '=');
    assert(is_lint_flag(arg));
    assert(!is_lint_word(arg)) by {
        if is_lint_word(arg) {
            assert(arg[level.len() as int] == '=');
            assert(false);
        }
    }
    assert(flags_from(one + rest, 1) == flags_from(rest, 0));
    assert(flags_from(two + rest, 2) == flags_from(rest, 0));
}

/// Configuration and unstable flags are kept as they are; what only concerns linking
/// and paths makes no difference.
pub proof fn other_flags_are_kept_by_kind(kind: Seq<char>, value: Seq<char>, rest: Seq<Seq<char>>)
    requires
        kind == "--cfg"@ || kind == "-Z"@ || kind == "-L"@ || kind == "-l"@ || kind
            == "--remap-path-prefix"@,
    ensures
        ({
            let all = flags_from(seq![kind, value] + rest, 0);
            let kept = kind == "--cfg"@ || kind == "-Z"@;
            &&& kept && flags_from(rest, 0) is Ok ==> all == Ok::<Seq<Seq<char>>, Seq<char>>(
                seq![kind + value] + flags_from(rest, 0)->Ok_0,
            )
            &&& !kept || flags_from(rest, 0) is Err ==> all == flags_from(rest, 0)
        }),
{
    let two = seq![kind, value];
    reveal_strlit("-A");
    reveal_strlit("-W");
    reveal_strlit("-D");
    reveal_strlit("-F");
    reveal_strlit("--allow");
    reveal_strlit("--warn");
    reveal_strlit("--deny");
    reveal_strlit("--forbid");
    reveal_strlit("--cap-lints");
    reveal_strlit("--force-warn");
    reveal_strlit("--allow=");
    reveal_strlit("--warn=");
    reveal_strlit("--deny=");
    reveal_strlit("--forbid=");
    reveal_strlit("--cap-lints=");
    reveal_strlit("--force-warn=");
    reveal_strlit("-C");
    reveal_strlit("--cfg");
    reveal_strlit("-Z");
    reveal_strlit("-L");
    reveal_strlit("-l");
    reveal_strlit("--remap-path-prefix");
    flags_behind_others(two, rest, 0);
    assert((two + rest)[0] == kind);
    assert((two + rest)[1] == value);
    assert("-C"@[1] == 'C' && "-Z"@[1] == 'Z' && "-L"@[1] == 'L' && "-l"@[1] == 'l');
    assert(!is_lint_word(kind) && !is_lint_flag(kind)) by {
        if kind == "-Z"@ || kind == "-L"@ || kind == "-l"@ {
            second_signs_tell_lints_apart(kind);
        } else {
            third_signs_tell_lints_apart(kind);
        }
    }
    assert(flags_from(two + rest, 2) == flags_from(rest, 0));
}

/// The signs behind two dashes tell an argument from the lint settings.
proof fn third_signs_tell_lints_apart(arg: Seq<char>)
    requires
        arg == "--cfg"@ || arg == "--remap-path-prefix"@,
    ensures
        !is_lint_word(arg),
        !is_lint_flag(arg),
{
    reveal_strlit("-A");
    reveal_strlit("-W");
    reveal_strlit("-D");
    reveal_strlit("-F");
    reveal_strlit("--allow");
    reveal_strlit("--warn");
    reveal_strlit("--deny");
    reveal_strlit("--forbid");
    reveal_strlit("--cap-lints");
    reveal_strlit("--force-warn");
    reveal_strlit("--allow=");
    reveal_strlit("--warn=");
    reveal_strlit("--deny=");
    reveal_strlit("--forbid=");
    reveal_strlit("--cap-lints=");
    reveal_strlit("--force-warn=");
    reveal_strlit("--cfg");
    reveal_strlit("--remap-path-prefix");
    prefixes_share_their_second_sign("-A"@, arg);
    prefixes_share_their_second_sign("-W"@, arg);
    prefixes_share_their_second_sign("-D"@, arg);
    prefixes_share_their_second_sign("-F"@, arg);
    prefixes_share_a_sign("--allow="@, arg, 2);
    prefixes_share_a_sign("--warn="@, arg, 2);
    prefixes_share_a_sign("--deny="@, arg, 2);
    prefixes_share_a_sign("--forbid="@, arg, 2);
    prefixes_share_a_sign("--cap-lints="@, arg, 3);
    prefixes_share_a_sign("--cap-lints="@, arg, 2);
    prefixes_share_a_sign("--force-warn="@, arg, 2);
    assert(arg[1] == '-');
    assert(arg[2] == 'c' || arg[2] == 'r');
    assert(arg[3] == 'f' || arg[3] == 'e');
    assert("--allow"@[2] == 'a' && "--warn"@[2] == 'w' && "--deny"@[2] == 'd' && "--forbid"@[2]
        == 'f' && "--force-warn"@[2] == 'f' && "--cap-lints"@[3] == 'a');
}

proof fn prefixes_share_a_sign(prefix: Seq<char>, text: Seq<char>, i: int)
    requires
        0 <= i < prefix.len(),
    ensures
        prefix.is_prefix_of(text) ==> text.len() > i && text[i] == prefix[i],
{
    if prefix.is_prefix_of(text) {
        assert(text.subrange(0, prefix.len() as int)[i] == prefix[i]);
    }
}

/// A complaint is a validation error with that one issue; a failure is one of the
/// plugin, with the message and nothing behind it.
pub proof fn complaints_hold_one_issue(e: CordisError, text: Seq<char>)
    ensures
        single_issue(e, text) <==> e is Validation && e->Validation_issues@.len() == 1
            && e->Validation_issues@[0]@ == text,
        failure(e, text) ==> message_of(e) == "plugin failed: "@ + text && shown(e, 0)
            == "plugin failed: "@ + text,
{
}

/// A panic is told by its text where it has one, and by the same words everywhere else.
pub proof fn panics_are_told_by_their_text(payload: PanicPayload)
    ensures
        payload matches PanicPayload::Text(text) ==> panic_text(payload) == text@,
        payload is Opaque ==> panic_text(payload) == "panic in task"@,
{
}

/// A notice that is dropped is shown with where it came from and the beginning of what
/// it said, so much of it that the line stays short.
pub proof fn dropped_notices_show_their_beginning(p: NotifyParams, o: EventOrigin)
    ensures
        ({
            let line = dropped_line(p, o);
            let shown = shown_origin(o);
            exists|at: int| #[trigger]
                stands_in(line, shown + ": "@ + cut(p.summary@, 200), at) && at + shown.len()
                    + ": "@.len() + cut(p.summary@, 200).len() == line.len()
        }),
        cut(p.summary@, 200).len() <= 201,
        shown_option(o.scope_id) == (match o.scope_id {
            Some(text) => "Some("@ + debugged(text@) + ")"@,
            None => "None"@,
        }),
        shown_origin(o) == "EventOrigin { scope_id: "@ + shown_option(o.scope_id)
            + ", session_id: "@ + shown_option(o.session_id) + ", turn_id: "@ + shown_option(
            o.turn_id,
        ) + " }"@,
{
    let line = dropped_line(p, o);
    let head = "[rutis-cordis] malformed evt/emit dropped (no string event field) origin="@;
    let part = shown_origin(o) + ": "@ + cut(p.summary@, 200);
    assert(line =~= head + part);
    assert(line.subrange(head.len() as int, (head.len() + part.len()) as int) =~= part);
    assert(stands_in(line, part, head.len() as int));
}

} // verus!
