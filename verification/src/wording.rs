//! How texts are written, compared, taken apart and read back.

use vstd::prelude::*;
use vstd::utf8::encode_utf8;

use crate::digest::sha256_hex;
use crate::elf::{elf64_magic, header_of, number_at, table_of};
use crate::flags::{arguments, flags_from, not_empty, option_name, option_value, pieces, stripped};
use crate::identity::{
    all_counted, counted, features_among, first_line, hashed_texts, identifies, identity_of,
    input_fault, is_hash_of, joined_with, low_bytes, package_lines, pairs_counted, BuildInput,
};
use crate::list::filters_agree;
use crate::lockfile::{
    depends, field_value, first_word, is_locked, is_needed, leads, lines_of, lock_after, needed,
    packages_in, steps, the_first_missing_package_is_needed, trimmed, trimmed_end, trimmed_start,
    up_to_blank, white, LockModel, PackageModel,
};
use crate::order::{in_order, sorting_of, text_le, text_order_is_strict, Ranked};
use crate::text::{cut, debug_items, debug_list, debugged, decimal, digit};

verus! {

/// The number that a text of digits stands for.
pub open spec fn number_of(text: Seq<char>) -> int
    decreases text.len(),
{
    if text.len() == 0 {
        0
    } else {
        10 * number_of(text.drop_last()) + (text.last() as int - 48)
    }
}

/// A number is written in digits from which it is read back, without a zero in front.
pub proof fn numbers_read_back(n: nat)
    ensures
        number_of(decimal(n)) == n,
        decimal(n).len() > 0,
        forall|i: int| 0 <= i < decimal(n).len() ==> '0' <= #[trigger] decimal(n)[i] <= '9',
        decimal(n)[0] == '0' ==> n == 0,
    decreases n,
{
    if n < 10 {
        assert(decimal(n).drop_last() =~= Seq::<char>::empty());
        assert(number_of(decimal(n).drop_last()) == 0);
        assert(decimal(n).last() == digit(n));
    } else {
        numbers_read_back(n / 10);
        let front = decimal(n / 10);
        assert(decimal(n).drop_last() =~= front);
        assert(decimal(n).last() == digit(n % 10));
        assert(decimal(n)[0] == front[0]);
    }
}

/// Different numbers are written differently.
pub proof fn numbers_are_told_apart(a: nat, b: nat)
    ensures
        decimal(a) == decimal(b) ==> a == b,
{
    numbers_read_back(a);
    numbers_read_back(b);
}

/// A text that is short enough is left as it is; of a longer one the beginning is kept,
/// and one sign stands for the rest.
pub proof fn long_texts_are_cut(text: Seq<char>, max: nat, i: int)
    ensures
        text.len() <= max ==> cut(text, max) == text,
        text.len() > max ==> cut(text, max).len() == max + 1 && cut(text, max)[max as int] == '…'
            && (0 <= i < max ==> cut(text, max)[i] == text[i]),
{
}

proof fn items_follow(a: Seq<Seq<char>>, b: Seq<Seq<char>>, n: nat)
    requires
        a.len() > 0,
        0 < n <= b.len(),
    ensures
        debug_items(a + b, a.len() + n) == debug_items(a, a.len()) + ", "@ + debug_items(b, n),
    decreases n,
{
    let all = a + b;
    assert(all[a.len() + n - 1] == b[n - 1]);
    if n == 1 {
        items_go_by_the_list(all, a, a.len());
        assert(debug_items(b, 1) == debugged(b[0]));
    } else {
        items_follow(a, b, (n - 1) as nat);
        assert(debug_items(a, a.len()) + ", "@ + (debug_items(b, (n - 1) as nat) + ", "@ + debugged(
            b[n - 1],
        )) =~= (debug_items(a, a.len()) + ", "@ + debug_items(b, (n - 1) as nat)) + ", "@
            + debugged(b[n - 1]));
    }
}

proof fn items_go_by_the_list(a: Seq<Seq<char>>, b: Seq<Seq<char>>, n: nat)
    requires
        n <= a.len(),
        n <= b.len(),
        forall|k: int| 0 <= k < n ==> a[k] == b[k],
    ensures
        debug_items(a, n) == debug_items(b, n),
    decreases n,
{
    if n > 1 {
        items_go_by_the_list(a, b, (n - 1) as nat);
    }
}

/// A list is shown in square brackets, its items in order, each as it is shown by
/// itself, with a comma and a blank between any two.
pub proof fn lists_are_shown_item_by_item(a: Seq<Seq<char>>, b: Seq<Seq<char>>, item: Seq<char>)
    requires
        a.len() > 0,
        b.len() > 0,
    ensures
        debug_list(Seq::empty()) == seq!['[', ']'],
        debug_list(seq![item]) == seq!['['] + debugged(item) + seq![']'],
        debug_items(a + b, (a + b).len()) == debug_items(a, a.len()) + ", "@ + debug_items(
            b,
            b.len(),
        ),
{
    items_follow(a, b, b.len());
    assert(seq!['['] + Seq::<char>::empty() + seq![']'] =~= seq!['[', ']']);
    assert(seq![item][0] == item);
}

/// The texts differ at the place, and not before.
pub open spec fn first_difference(a: Seq<char>, b: Seq<char>, k: int) -> bool {
    &&& 0 <= k < a.len()
    &&& k < b.len()
    &&& a[k] != b[k]
    &&& forall|i: int| 0 <= i < k ==> #[trigger] a[i] == b[i]
}

/// Texts are ordered by the first sign in which they differ; one that the other goes on
/// from comes first.
pub proof fn texts_are_ordered_by_their_first_difference(a: Seq<char>, b: Seq<char>, k: int)
    ensures
        first_difference(a, b, k) ==> (text_le(a, b) <==> a[k] < b[k]),
        a.len() <= b.len() && (forall|i: int| 0 <= i < a.len() ==> #[trigger] a[i] == b[i])
            ==> text_le(a, b),
        b.len() < a.len() && (forall|i: int| 0 <= i < b.len() ==> #[trigger] a[i] == b[i])
            ==> !text_le(a, b),
    decreases a.len(),
{
    if a.len() > 0 && b.len() > 0 && a[0] == b[0] {
        let c = a.drop_first();
        let d = b.drop_first();
        texts_are_ordered_by_their_first_difference(c, d, k - 1);
        if first_difference(a, b, k) {
            assert forall|i: int| 0 <= i < k - 1 implies #[trigger] c[i] == d[i] by {
                assert(a[i + 1] == b[i + 1]);
            }
        }
        if a.len() <= b.len() && forall|i: int| 0 <= i < a.len() ==> #[trigger] a[i] == b[i] {
            assert forall|i: int| 0 <= i < c.len() implies #[trigger] c[i] == d[i] by {
                assert(a[i + 1] == b[i + 1]);
            }
        }
        if b.len() < a.len() && forall|i: int| 0 <= i < b.len() ==> #[trigger] a[i] == b[i] {
            assert forall|i: int| 0 <= i < d.len() implies #[trigger] c[i] == d[i] by {
                assert(a[i + 1] == b[i + 1]);
            }
        }
    } else if a.len() > 0 && b.len() > 0 {
        if first_difference(a, b, k) && k > 0 {
            assert(a[0] == b[0]);
        }
    }
}

/// Pairs of texts are ordered by the first one, and by the second where the first ones
/// are the same.
pub proof fn pairs_are_ordered_by_the_first(a: (Seq<char>, Seq<char>), b: (Seq<char>, Seq<char>))
    ensures
        a.0 == b.0 ==> (<(String, String) as Ranked>::le(a, b) <==> text_le(a.1, b.1)),
        a.0 != b.0 ==> (<(String, String) as Ranked>::le(a, b) <==> text_le(a.0, b.0)),
        <String as Ranked>::le(a.0, b.0) <==> text_le(a.0, b.0),
{
}

/// The pieces, put together again with the separator between any two.
pub open spec fn put_together(list: Seq<Seq<char>>, separator: char) -> Seq<char>
    decreases list.len(),
{
    if list.len() == 0 {
        seq![]
    } else if list.len() == 1 {
        list[0]
    } else {
        list[0].push(separator) + put_together(list.drop_first(), separator)
    }
}

/// A text is taken apart at every separator and nowhere else: no piece holds one, and
/// together with them the pieces make up the text.
pub proof fn pieces_make_up_the_text(text: Seq<char>, separator: char)
    ensures
        pieces(text, separator).len() > 0,
        put_together(pieces(text, separator), separator) == text,
        forall|k: int|
            0 <= k < pieces(text, separator).len() ==> !(#[trigger] pieces(
                text,
                separator,
            )[k]).contains(separator),
    decreases text.len(),
{
    text.index_of_first_ensures(separator);
    match text.index_of_first(separator) {
        Some(k) => {
            let rest = text.skip(k + 1);
            let tail = pieces(rest, separator);
            let list = pieces(text, separator);
            pieces_make_up_the_text(rest, separator);
            assert(list == seq![text.take(k)] + tail);
            assert(list.drop_first() =~= tail);
            assert(text.take(k).push(separator) + rest =~= text);
            assert forall|i: int| 0 <= i < list.len() implies !(#[trigger] list[i]).contains(
                separator,
            ) by {
                if i == 0 {
                    if text.take(k).contains(separator) {
                        let j = choose|j: int|
                            0 <= j < text.take(k).len() && text.take(k)[j] == separator;
                        assert(text[j] == separator);
                    }
                } else {
                    assert(list[i] == tail[i - 1]);
                }
            }
        },
        None => {
            assert(pieces(text, separator) == seq![text]);
        },
    }
}

/// A prefix is taken off exactly where it stands, and leaves what is behind it.
pub proof fn prefixes_are_taken_off(text: Seq<char>, prefix: Seq<char>, rest: Seq<char>)
    ensures
        stripped(text, prefix) == Some(rest) <==> text == prefix + rest,
{
    if stripped(text, prefix) == Some(rest) {
        assert(text.subrange(0, prefix.len() as int) =~= prefix);
        assert(text =~= prefix + rest);
    }
    if text == prefix + rest {
        assert(text.subrange(0, prefix.len() as int) =~= prefix);
        assert(text.skip(prefix.len() as int) =~= rest);
    }
}

/// An option is split at its first equals sign; without one it has no value.
pub proof fn options_are_split_at_the_first_sign(name: Seq<char>, value: Seq<char>)
    requires
        !name.contains('='),
    ensures
        option_name(name.push('=') + value) == name,
        option_value(name.push('=') + value) == value,
        option_name(name) == name,
        option_value(name).len() == 0,
{
    let text = name.push('=') + value;
    text.index_of_first_ensures('=');
    name.index_of_first_ensures('=');
    assert(text[name.len() as int] == '=');
    assert(text.contains('='));
    let k = text.index_of_first('=')->0;
    if k < name.len() {
        assert(name[k] == '=');
        assert(name.contains('='));
    }
    if k > name.len() {
        assert(text[name.len() as int] != '=');
    }
    assert(text.take(name.len() as int) =~= name);
    assert(pieces(text, '=')[0] == name);
    assert(text.skip(name.len() as int + 1) =~= value);
    assert(pieces(name, '=')[0] == name);
}

/// The texts, put together with the separator between any two, the first ones first.
pub proof fn joined_texts_follow_each_other(
    texts: Seq<Seq<char>>,
    last: Seq<char>,
    separator: Seq<char>,
)
    ensures
        joined_with(seq![last], separator, 1) == last,
        texts.len() > 0 ==> joined_with(texts.push(last), separator, texts.len() + 1)
            == joined_with(texts, separator, texts.len()) + separator + last,
        joined_with(texts, separator, 0).len() == 0,
{
    joining_goes_by_the_list(texts.push(last), texts, separator, texts.len());
    assert(seq![last][0] == last);
}

proof fn joining_goes_by_the_list(
    a: Seq<Seq<char>>,
    b: Seq<Seq<char>>,
    separator: Seq<char>,
    n: nat,
)
    requires
        n <= a.len(),
        n <= b.len(),
        forall|k: int| 0 <= k < n ==> a[k] == b[k],
    ensures
        joined_with(a, separator, n) == joined_with(b, separator, n),
    decreases n,
{
    if n > 1 {
        joining_goes_by_the_list(a, b, separator, (n - 1) as nat);
    }
}

/// The first line of a text: it holds no line feed, the text begins with it, and ends
/// there or goes on with a line feed, of which a carriage return in front is a part.
pub proof fn the_first_line_ends_at_the_line_feed(text: Seq<char>)
    ensures
        first_line(text) is None <==> text.len() == 0,
        first_line(text) matches Some(line) ==> {
            &&& line.len() <= text.len()
            &&& text.take(line.len() as int) == line
            &&& !line.contains('\n')
            &&& line == text || text[line.len() as int] == '\n' || (line.len() + 1 < text.len()
                && text[line.len() as int] == '\r' && text[line.len() as int + 1] == '\n')
            &&& line != text && text[line.len() as int] == '\n' ==> line.len() == 0 || line.last()
                != '\r'
        },
{
    text.index_of_first_ensures('\n');
    if let Some(line) = first_line(text) {
        assert(text.take(line.len() as int) =~= line);
        if line.contains('\n') {
            let j = choose|j: int| 0 <= j < line.len() && line[j] == '\n';
            assert(text[j] == '\n');
            assert(text.contains('\n'));
        }
    }
}

/// Nothing but blanks is trimmed off, and none is left at either end.
pub proof fn only_blanks_are_trimmed(text: Seq<char>)
    ensures
        exists|a: int, b: int| #[trigger] trims(text, a, b),
{
    let a = trimming_the_start(text);
    let rest = trimmed_start(text);
    let b = trimming_the_end(rest);
    assert(rest.subrange(0, b) =~= text.subrange(a, a + b));
    assert forall|i: int| 0 <= i < text.len() && !(a <= i < a + b) implies white(
        #[trigger] text[i],
    ) by {
        if i >= a + b {
            assert(rest[i - a] == text[i]);
        }
    }
    if b > 0 {
        assert(trimmed(text)[0] == rest[0] == text[a]);
        assert(trimmed(text).last() == rest[b - 1] == text[a + b - 1]);
    }
    assert(trims(text, a, a + b));
}

/// The text without blanks around it is its part between the places.
pub open spec fn trims(text: Seq<char>, a: int, b: int) -> bool {
    &&& 0 <= a <= b <= text.len()
    &&& trimmed(text) == text.subrange(a, b)
    &&& forall|i: int| 0 <= i < text.len() && !(a <= i < b) ==> white(#[trigger] text[i])
    &&& a < b ==> !white(text[a]) && !white(text[b - 1])
}

proof fn trimming_the_start(text: Seq<char>) -> (a: int)
    ensures
        0 <= a <= text.len(),
        trimmed_start(text) == text.skip(a),
        forall|i: int| 0 <= i < a ==> white(#[trigger] text[i]),
        a < text.len() ==> !white(text[a]),
    decreases text.len(),
{
    if text.len() > 0 && white(text[0]) {
        let b = trimming_the_start(text.drop_first());
        assert(text.drop_first().skip(b) =~= text.skip(b + 1));
        assert forall|i: int| 0 <= i < b + 1 implies white(#[trigger] text[i]) by {
            if i > 0 {
                assert(text.drop_first()[i - 1] == text[i]);
            }
        }
        b + 1
    } else {
        assert(text.skip(0) =~= text);
        0
    }
}

proof fn trimming_the_end(text: Seq<char>) -> (b: int)
    ensures
        0 <= b <= text.len(),
        trimmed_end(text) == text.subrange(0, b),
        forall|i: int| b <= i < text.len() ==> white(#[trigger] text[i]),
        b > 0 ==> !white(text[b - 1]),
    decreases text.len(),
{
    if text.len() > 0 && white(text.last()) {
        let b = trimming_the_end(text.drop_last());
        assert(text.drop_last().subrange(0, b) =~= text.subrange(0, b));
        assert forall|i: int| b <= i < text.len() implies white(#[trigger] text[i]) by {
            if i < text.len() - 1 {
                assert(text.drop_last()[i] == text[i]);
            }
        }
        b
    } else {
        assert(text.subrange(0, text.len() as int) =~= text);
        text.len() as int
    }
}

proof fn words_end_at_a_blank(text: Seq<char>)
    ensures
        up_to_blank(text).len() <= text.len(),
        text.take(up_to_blank(text).len() as int) == up_to_blank(text),
        forall|i: int| 0 <= i < up_to_blank(text).len() ==> !white(#[trigger] up_to_blank(text)[i]),
        up_to_blank(text).len() < text.len() ==> white(text[up_to_blank(text).len() as int]),
    decreases text.len(),
{
    let word = up_to_blank(text);
    if text.len() == 0 || white(text[0]) {
        assert(text.take(0) =~= word);
    } else {
        let rest = up_to_blank(text.drop_first());
        words_end_at_a_blank(text.drop_first());
        assert(word == seq![text[0]] + rest);
        assert(text.take(word.len() as int) =~= word) by {
            assert forall|i: int| 0 <= i < word.len() implies text.take(word.len() as int)[i]
                == word[i] by {
                if i > 0 {
                    assert(word[i] == rest[i - 1] == text.drop_first().take(rest.len() as int)[i
                        - 1]);
                }
            }
        }
        assert forall|i: int| 0 <= i < word.len() implies !white(#[trigger] word[i]) by {
            if i > 0 {
                assert(word[i] == rest[i - 1]);
            }
        }
        if word.len() < text.len() {
            assert(text.drop_first()[rest.len() as int] == text[word.len() as int]);
        }
    }
}

/// The first word of a text: blanks stand before it, none in it, and one behind it if
/// the text goes on. A text of blanks has none.
pub proof fn the_first_word_stands_between_blanks(text: Seq<char>)
    ensures
        first_word(text) is None <==> forall|i: int|
            0 <= i < text.len() ==> white(#[trigger] text[i]),
        first_word(text) matches Some(word) ==> exists|a: int| #[trigger] word_at(text, word, a),
{
    let a = trimming_the_start(text);
    let rest = trimmed_start(text);
    words_end_at_a_blank(rest);
    if let Some(word) = first_word(text) {
        assert(rest.take(word.len() as int) =~= text.subrange(a, a + word.len()));
        assert(!white(text[a]));
        assert(rest[0] == text[a]);
        if a + word.len() < text.len() {
            assert(rest[word.len() as int] == text[a + word.len()]);
        }
        assert(word.len() > 0);
        assert(word_at(text, word, a));
    } else {
        assert(a == text.len());
    }
}

/// The word stands at the place, behind blanks, and ends with the text or at a blank.
pub open spec fn word_at(text: Seq<char>, word: Seq<char>, a: int) -> bool {
    &&& 0 <= a && a + word.len() <= text.len()
    &&& word.len() > 0
    &&& text.subrange(a, a + word.len()) == word
    &&& forall|i: int| 0 <= i < a ==> white(#[trigger] text[i])
    &&& forall|i: int| 0 <= i < word.len() ==> !white(#[trigger] word[i])
    &&& a + word.len() < text.len() ==> white(text[a + word.len()])
}

/// A line gives a field its value exactly if it is the field's name, an equals sign
/// between blanks, and the value in quotes.
pub proof fn fields_are_written_in_quotes(line: Seq<char>, key: Seq<char>, value: Seq<char>)
    ensures
        field_value(line, key) == Some(value) <==> line == key + " = \""@ + value.push('"'),
{
    if let Some(rest) = stripped(line, key) {
        prefixes_are_taken_off(line, key, rest);
        if let Some(quoted) = stripped(rest, " = \""@) {
            prefixes_are_taken_off(rest, " = \""@, quoted);
            if field_value(line, key) == Some(value) {
                assert(quoted =~= value.push('"'));
                assert(key + (" = \""@ + value.push('"')) =~= key + " = \""@ + value.push('"'));
            }
        }
    }
    if line == key + " = \""@ + value.push('"') {
        assert(line =~= key + (" = \""@ + value.push('"')));
        prefixes_are_taken_off(line, key, " = \""@ + value.push('"'));
        prefixes_are_taken_off(" = \""@ + value.push('"'), " = \""@, value.push('"'));
        assert(value.push('"').drop_last() =~= value);
    }
}

/// A package begins at its heading: the one before it is complete, and nothing is known
/// of the new one yet.
pub proof fn packages_begin_at_their_heading(m: LockModel)
    ensures
        ({
            let after = m.after_line("[[package]]"@);
            &&& after is Ok
            &&& after->Ok_0.current is Some
            &&& !after->Ok_0.in_deps
            &&& (after->Ok_0.current->0).name.len() == 0
            &&& (after->Ok_0.current->0).version.len() == 0
            &&& (after->Ok_0.current->0).source.len() == 0
            &&& (after->Ok_0.current->0).checksum.len() == 0
            &&& (after->Ok_0.current->0).deps.len() == 0
            &&& m.current matches Some(p) ==> after->Ok_0.packages == m.packages.push(p)
            &&& m.current is None ==> after->Ok_0.packages == m.packages
        }),
        m.current matches Some(p) ==> m.closed() == m.packages.push(p),
        m.current is None ==> m.closed() == m.packages,
{
}

/// Before the first package a line says nothing; a list of dependencies begins and
/// ends at lines of its own.
pub proof fn dependencies_stand_between_their_lines(m: LockModel, line: Seq<char>)
    requires
        line != "[[package]]"@,
    ensures
        m.current is None ==> m.after_line(line) == Ok::<LockModel, Seq<char>>(m),
        m.current is Some && line == "dependencies = ["@ ==> m.after_line(line) == Ok::<
            LockModel,
            Seq<char>,
        >(LockModel { in_deps: true, ..m }),
        m.current is Some && m.in_deps && line == "]"@ ==> m.after_line(line) == Ok::<
            LockModel,
            Seq<char>,
        >(LockModel { in_deps: false, ..m }),
{
    reveal_strlit("]");
    reveal_strlit("dependencies = [");
    assert("]"@.len() != "dependencies = ["@.len());
}

/// In a package, and outside its list of dependencies, a line gives a field its value
/// if it is written as that field, and changes no other.
pub proof fn lines_give_fields_their_value(
    m: LockModel,
    line: Seq<char>,
    key: Seq<char>,
    value: Seq<char>,
)
    requires
        m.current is Some,
        !m.in_deps,
        line == key + " = \""@ + value.push('"'),
        key == "name"@ || key == "version"@ || key == "source"@ || key == "checksum"@,
    ensures
        ({
            let p = m.current->0;
            let q = PackageModel {
                name: if key == "name"@ {
                    value
                } else {
                    p.name
                },
                version: if key == "version"@ {
                    value
                } else {
                    p.version
                },
                source: if key == "source"@ {
                    value
                } else {
                    p.source
                },
                checksum: if key == "checksum"@ {
                    value
                } else {
                    p.checksum
                },
                deps: p.deps,
            };
            m.after_line(line) == Ok::<LockModel, Seq<char>>(LockModel { current: Some(q), ..m })
        }),
{
    reveal_strlit("name");
    reveal_strlit("version");
    reveal_strlit("source");
    reveal_strlit("checksum");
    reveal_strlit("[[package]]");
    reveal_strlit("dependencies = [");
    fields_are_written_in_quotes(line, key, value);
    assert(line[0] == key[0]);
    other_fields_do_not_match(line, key, "name"@);
    other_fields_do_not_match(line, key, "version"@);
    other_fields_do_not_match(line, key, "source"@);
    other_fields_do_not_match(line, key, "checksum"@);
}

proof fn other_fields_do_not_match(line: Seq<char>, key: Seq<char>, other: Seq<char>)
    requires
        key.len() > 0,
        other.len() > 0,
        line.len() > 0,
        line[0] == key[0],
        key[0] != other[0] || key == other,
    ensures
        key != other ==> field_value(line, other) is None,
{
    if key != other {
        if let Some(rest) = stripped(line, other) {
            prefixes_are_taken_off(line, other, rest);
            assert(line[0] == other[0]);
        }
    }
}

/// In a list of dependencies a quoted line names a package by its first word; what
/// follows the word or the closing quote does not matter.
pub proof fn dependencies_are_named_by_their_first_word(
    m: LockModel,
    name: Seq<char>,
    version: Seq<char>,
    behind: Seq<char>,
)
    requires
        m.current is Some,
        m.in_deps,
        name.len() > 0,
        !name.contains('"'),
        !version.contains('"'),
        forall|i: int| 0 <= i < name.len() ==> !white(#[trigger] name[i]),
        version.len() > 0 ==> white(version[0]),
    ensures
        ({
            let p = m.current->0;
            let line = seq!['"'] + name + version + seq!['"'] + behind;
            m.after_line(line) == Ok::<LockModel, Seq<char>>(
                LockModel {
                    current: Some(PackageModel { deps: p.deps.push(name), ..p }),
                    ..m
                },
            )
        }),
{
    let line = seq!['"'] + name + version + seq!['"'] + behind;
    let inner = name + version;
    let rest = inner + seq!['"'] + behind;
    reveal_strlit("\"");
    reveal_strlit("[[package]]");
    reveal_strlit("dependencies = [");
    reveal_strlit("]");
    assert("\""@ =~= seq!['"']);
    assert(line =~= "\""@ + rest);
    assert(line[0] == '"');
    prefixes_are_taken_off(line, "\""@, rest);
    rest.index_of_first_ensures('"');
    assert(rest[inner.len() as int] == '"');
    assert(rest.contains('"'));
    let k = rest.index_of_first('"')->0;
    if k < inner.len() {
        assert(rest[k] == inner[k]);
        if k < name.len() {
            assert(name[k] == '"');
            assert(name.contains('"'));
        } else {
            assert(version[k - name.len()] == '"');
            assert(version.contains('"'));
        }
    }
    if k > inner.len() {
        assert(rest[inner.len() as int] != '"');
    }
    assert(rest.take(inner.len() as int) =~= inner);
    assert(pieces(rest, '"')[0] == inner);
    assert(inner[0] == name[0]);
    assert(!white(name[0]));
    assert(trimmed_start(inner) == inner);
    words_are_what_precedes_a_blank(name, version);
}

proof fn words_are_what_precedes_a_blank(name: Seq<char>, tail: Seq<char>)
    requires
        forall|i: int| 0 <= i < name.len() ==> !white(#[trigger] name[i]),
        tail.len() > 0 ==> white(tail[0]),
    ensures
        up_to_blank(name + tail) == name,
    decreases name.len(),
{
    let all = name + tail;
    if name.len() == 0 {
        assert(all =~= tail);
        assert(up_to_blank(all) =~= name);
    } else {
        assert(!white(name[0]));
        assert(all[0] == name[0]);
        assert(all.drop_first() =~= name.drop_first() + tail);
        assert forall|i: int| 0 <= i < name.drop_first().len() implies !white(
            #[trigger] name.drop_first()[i],
        ) by {
            assert(name.drop_first()[i] == name[i + 1]);
        }
        words_are_what_precedes_a_blank(name.drop_first(), tail);
        assert(seq![name[0]] + name.drop_first() =~= name);
    }
}

/// How many numbers fit in so many bytes.
pub open spec fn span_of(k: nat) -> nat
    decreases k,
{
    if k == 0 {
        1
    } else {
        256 * span_of((k - 1) as nat)
    }
}

proof fn low_bytes_count(n: nat, k: nat)
    ensures
        low_bytes(n, k).len() == k,
    decreases k,
{
    if k > 0 {
        low_bytes_count(n / 256, (k - 1) as nat);
    }
}

/// A number is read from the bytes at its place, wherever they stand.
pub proof fn numbers_go_by_their_bytes(a: Seq<u8>, b: Seq<u8>, p: int, q: int, k: nat)
    requires
        forall|i: int| 0 <= i < k ==> #[trigger] a[p + i] == b[q + i],
    ensures
        number_at(a, p, k) == number_at(b, q, k),
    decreases k,
{
    if k > 0 {
        assert(a[p + 0] == b[q + 0]);
        assert forall|i: int| 0 <= i < k - 1 implies #[trigger] a[p + 1 + i] == b[q + 1 + i] by {
            assert(a[p + (i + 1)] == b[q + (i + 1)]);
        }
        numbers_go_by_their_bytes(a, b, p + 1, q + 1, (k - 1) as nat);
    }
}

/// A number that fits in the bytes is read back from them, the lowest byte first.
pub proof fn numbers_are_written_lowest_byte_first(n: nat, k: nat)
    requires
        n < span_of(k),
    ensures
        low_bytes(n, k).len() == k,
        number_at(low_bytes(n, k), 0, k) == n,
    decreases k,
{
    low_bytes_count(n, k);
    if k > 0 {
        let rest = low_bytes(n / 256, (k - 1) as nat);
        let all = low_bytes(n, k);
        assert(n / 256 < span_of((k - 1) as nat)) by (nonlinear_arith)
            requires
                n < 256 * span_of((k - 1) as nat),
        ;
        numbers_are_written_lowest_byte_first(n / 256, (k - 1) as nat);
        assert forall|i: int| 0 <= i < k - 1 implies #[trigger] all[1 + i] == rest[0 + i] by {}
        numbers_go_by_their_bytes(all, rest, 1, 0, (k - 1) as nat);
        assert(all[0] == (n % 256) as u8);
    }
}

/// Texts that are counted before they are put one behind the other are told apart: the
/// same bytes come of the same first text and the same bytes behind it.
pub proof fn counted_texts_are_told_apart(
    a: Seq<char>,
    b: Seq<char>,
    x: Seq<u8>,
    y: Seq<u8>,
)
    requires
        counted(a) + x == counted(b) + y,
        encode_utf8(a).len() < span_of(8),
        encode_utf8(b).len() < span_of(8),
    ensures
        a == b,
        x == y,
{
    let p = encode_utf8(a);
    let q = encode_utf8(b);
    let all = counted(a) + x;
    numbers_are_written_lowest_byte_first(p.len(), 8);
    numbers_are_written_lowest_byte_first(q.len(), 8);
    let h = low_bytes(p.len(), 8);
    let g = low_bytes(q.len(), 8);
    assert forall|i: int| 0 <= i < 8 implies #[trigger] h[0 + i] == g[0 + i] by {
        assert(all[i] == h[i]);
        assert((counted(b) + y)[i] == g[i]);
    }
    numbers_go_by_their_bytes(h, g, 0, 0, 8);
    assert(p.len() == q.len());
    assert(p =~= q) by {
        assert forall|i: int| 0 <= i < p.len() implies p[i] == q[i] by {
            assert(all[8 + i] == p[i]);
            assert((counted(b) + y)[8 + i] == q[i]);
        }
    }
    vstd::utf8::encode_utf8_decode_utf8(a);
    vstd::utf8::encode_utf8_decode_utf8(b);
    assert(x =~= y) by {
        assert(all.len() == 8 + p.len() + x.len());
        assert((counted(b) + y).len() == 8 + q.len() + y.len());
        assert(x.len() == y.len());
        assert forall|i: int| 0 <= i < x.len() implies x[i] == y[i] by {
            assert(all[8 + p.len() + i] == x[i]);
            assert((counted(b) + y)[8 + p.len() + i] == y[i]);
        }
    }
}

/// The signs that count as blank are those that Unicode calls white space.
pub proof fn blanks_are_white_space(c: char)
    ensures
        white(c) <==> {
            let code = c as u32;
            ||| 9 <= code <= 13
            ||| code == 32
            ||| code == 133
            ||| code == 160
            ||| code == 5760
            ||| 8192 <= code <= 8202
            ||| code == 8232
            ||| code == 8233
            ||| code == 8239
            ||| code == 8287
            ||| code == 12288
        },
{
}

/// A package is in the lock file exactly if one of the packages there bears the name,
/// and depends on another exactly if one of that name says so.
pub proof fn packages_are_locked_by_name(
    packages: Seq<PackageModel>,
    p: PackageModel,
    name: Seq<char>,
    other: Seq<char>,
)
    ensures
        !is_locked(Seq::empty(), name),
        is_locked(packages.push(p), name) <==> is_locked(packages, name) || p.name == name,
        !depends(Seq::empty(), name, other),
        depends(packages.push(p), name, other) <==> depends(packages, name, other) || (p.name
            == name && p.deps.contains(other)),
{
    let more = packages.push(p);
    assert(more[packages.len() as int] == p);
    if is_locked(packages, name) {
        let k = choose|k: int| 0 <= k < packages.len() && (#[trigger] packages[k]).name == name;
        assert(more[k] == packages[k]);
    }
    if depends(packages, name, other) {
        let k = choose|k: int|
            0 <= k < packages.len() && (#[trigger] packages[k]).name == name
                && packages[k].deps.contains(other);
        assert(more[k] == packages[k]);
    }
    if is_locked(more, name) && p.name != name {
        let k = choose|k: int| 0 <= k < more.len() && (#[trigger] more[k]).name == name;
        assert(packages[k].name == name);
    }
    if depends(more, name, other) && !(p.name == name && p.deps.contains(other)) {
        let k = choose|k: int|
            0 <= k < more.len() && (#[trigger] more[k]).name == name && more[k].deps.contains(
                other,
            );
        assert(packages[k].name == name);
    }
}

/// The kit itself is needed, and so is what something needed depends on.
pub proof fn dependencies_of_the_kit_are_needed(
    packages: Seq<PackageModel>,
    name: Seq<char>,
    other: Seq<char>,
)
    ensures
        needed(packages, "rutis-sdk"@),
        needed(packages, name) && depends(packages, name, other) ==> needed(packages, other),
{
    assert(leads(packages, seq!["rutis-sdk"@], "rutis-sdk"@));
    if needed(packages, name) && depends(packages, name, other) {
        let way = choose|way: Seq<Seq<char>>| #[trigger] leads(packages, way, name);
        let more = way.push(other);
        assert forall|k: int| 0 <= k < more.len() - 1 implies #[trigger] steps(
            packages,
            more,
            k,
        ) by {
            if k < way.len() - 1 {
                assert(steps(packages, way, k));
                assert(more[k] == way[k] && more[k + 1] == way[k + 1]);
            } else {
                assert(more[k] == name && more[k + 1] == other);
            }
        }
        assert(leads(packages, more, other));
    }
}

/// Nothing else is needed: whatever holds of the kit, and goes from a package to those
/// that it depends on, holds of everything that is needed.
pub proof fn only_dependencies_of_the_kit_are_needed(
    packages: Seq<PackageModel>,
    property: spec_fn(Seq<char>) -> bool,
    name: Seq<char>,
)
    requires
        property("rutis-sdk"@),
        forall|a: Seq<char>, b: Seq<char>|
            property(a) && #[trigger] depends(packages, a, b) ==> property(b),
        needed(packages, name),
    ensures
        property(name),
{
    let way = choose|way: Seq<Seq<char>>| #[trigger] leads(packages, way, name);
    properties_go_along(packages, property, way, way.len() - 1);
}

proof fn properties_go_along(
    packages: Seq<PackageModel>,
    property: spec_fn(Seq<char>) -> bool,
    way: Seq<Seq<char>>,
    k: int,
)
    requires
        property("rutis-sdk"@),
        forall|a: Seq<char>, b: Seq<char>|
            property(a) && #[trigger] depends(packages, a, b) ==> property(b),
        leads(packages, way, way.last()),
        0 <= k < way.len(),
    ensures
        property(way[k]),
    decreases k,
{
    if k > 0 {
        properties_go_along(packages, property, way, k - 1);
        assert(steps(packages, way, k - 1));
        assert(depends(packages, way[k - 1], way[k]));
    }
}

/// An identity can be made exactly if the compiler said something of itself, every flag
/// is one that is known, and the lock file, if there is one, can be read and holds
/// everything that the kit needs; the packages are then those that it needs.
pub proof fn identities_are_made_of_sound_inputs(input: BuildInput)
    ensures
        ({
            let said = input.rustc@.len() > 0;
            let known = flags_from(arguments(input.rustflags@), 0) is Ok;
            let sound = input.lock matches Some(lock) ==> (packages_in(lock@) matches Ok(packages)
                && forall|name: Seq<char>| #[trigger]
                needed(packages, name) ==> is_locked(packages, name));
            &&& input_fault(input) is None <==> said && known && sound
            &&& input.lock is None ==> package_lines(input).len() == 0
            &&& input.lock is Some && input_fault(input) is None ==> package_lines(input)
                == lines_of(
                packages_in((input.lock->0)@)->Ok_0.filter(
                    is_needed(packages_in((input.lock->0)@)->Ok_0),
                ),
            )
            &&& said && flags_from(arguments(input.rustflags@), 0) is Err ==> input_fault(input)
                == Some(flags_from(arguments(input.rustflags@), 0)->Err_0)
        }),
{
    the_first_line_ends_at_the_line_feed(input.rustc@);
    if let Some(lock) = input.lock {
        if let Ok(packages) = packages_in(lock@) {
            the_first_missing_package_is_needed(packages);
        }
    }
}

/// The line of a package tells its name, its version, its source and its checksum, in
/// that order and with blanks between them; there is one line for each package.
pub proof fn packages_are_told_in_one_line(packages: Seq<PackageModel>, k: int)
    ensures
        lines_of(packages).len() == packages.len(),
        0 <= k < packages.len() ==> lines_of(packages)[k] == packages[k].name + " "@
            + packages[k].version + " "@ + packages[k].source + " "@ + packages[k].checksum,
{
}

proof fn reading_goes_by_the_lines(a: Seq<Seq<char>>, b: Seq<Seq<char>>, n: nat)
    requires
        n <= a.len(),
        n <= b.len(),
        forall|k: int| 0 <= k < n ==> a[k] == b[k],
    ensures
        lock_after(a, n) == lock_after(b, n),
    decreases n,
{
    if n > 0 {
        reading_goes_by_the_lines(a, b, (n - 1) as nat);
    }
}

/// A lock file is read line by line, each without the blanks around it, from nothing
/// known at all; the first line that cannot be read ends it.
pub proof fn lock_files_are_read_line_by_line(lines: Seq<Seq<char>>, line: Seq<char>)
    ensures
        lock_after(lines, 0) matches Ok(m) && m.packages.len() == 0 && m.current is None
            && !m.in_deps,
        lock_after(lines, lines.len()) matches Ok(m) ==> lock_after(
            lines.push(line),
            lines.len() + 1,
        ) == m.after_line(trimmed(line)),
        lock_after(lines, lines.len()) matches Err(e) ==> lock_after(
            lines.push(line),
            lines.len() + 1,
        ) == Err::<LockModel, Seq<char>>(e),
{
    reading_goes_by_the_lines(lines.push(line), lines, lines.len());
}

/// The packages of a lock file are those that its lines, taken apart at the line feeds,
/// lead to, the last one among them.
pub proof fn the_last_package_is_read_too(lock: Seq<char>)
    ensures
        ({
            let lines = pieces(lock, '\n');
            let end = lock_after(lines, lines.len());
            &&& end matches Err(e) ==> packages_in(lock) == Err::<Seq<PackageModel>, Seq<char>>(e)
            &&& (end matches Ok(m) && m.current is None) ==> packages_in(lock) == Ok::<
                Seq<PackageModel>,
                Seq<char>,
            >(end->Ok_0.packages)
            &&& (end matches Ok(m) && m.current is Some) ==> packages_in(lock) == Ok::<
                Seq<PackageModel>,
                Seq<char>,
            >(end->Ok_0.packages.push(end->Ok_0.current->0))
        }),
{
}

/// The pieces with something in them.
pub open spec fn with_text() -> spec_fn(Seq<char>) -> bool {
    |piece: Seq<char>| piece.len() != 0
}

/// The arguments are the pieces between the separators that hold something, in order.
pub proof fn empty_arguments_are_left_out(raw: Seq<char>)
    ensures
        arguments(raw) == pieces(raw, '\u{1f}').filter(with_text()),
{
    filters_agree(pieces(raw, '\u{1f}'), not_empty(), with_text());
}

proof fn the_last_is_the_highest(list: Seq<Seq<char>>, x: Seq<char>)
    requires
        in_order::<String>(list),
        list.contains(x),
    ensures
        text_le(x, list.last()),
{
    let i = choose|i: int| 0 <= i < list.len() && list[i] == x;
    texts_are_ordered_by_their_first_difference(x, x, 0);
    if i < list.len() - 1 {
        assert(<String as Ranked>::le(list[i], list[list.len() - 1]));
    }
}

/// Sorting leaves nothing open: two sorted lists of the same texts are the same.
pub proof fn sorted_texts_are_unique(a: Seq<Seq<char>>, b: Seq<Seq<char>>, items: Seq<Seq<char>>)
    requires
        sorting_of::<String>(a, items),
        sorting_of::<String>(b, items),
    ensures
        a == b,
        a.len() == items.len(),
        forall|x: Seq<char>| #[trigger] a.contains(x) <==> items.contains(x),
{
    broadcast use vstd::seq_lib::group_to_multiset_ensures;

    ordered_texts_are_unique(a, b);
    assert(a.to_multiset().len() == a.len() && items.to_multiset().len() == items.len());
    assert forall|x: Seq<char>| #[trigger] a.contains(x) <==> items.contains(x) by {
        assert(a.to_multiset().count(x) == items.to_multiset().count(x));
    }
}

proof fn ordered_texts_are_unique(a: Seq<Seq<char>>, b: Seq<Seq<char>>)
    requires
        in_order::<String>(a),
        in_order::<String>(b),
        a.to_multiset() == b.to_multiset(),
    ensures
        a == b,
    decreases a.len(),
{
    broadcast use vstd::seq_lib::group_to_multiset_ensures;

    assert(a.to_multiset().len() == a.len() && b.to_multiset().len() == b.len());
    if a.len() > 0 {
        let x = a.last();
        let y = b.last();
        assert(a[a.len() - 1] == x && a.contains(x));
        assert(b[b.len() - 1] == y && b.contains(y));
        assert(a.to_multiset().count(x) > 0 && b.to_multiset().count(y) > 0);
        assert(b.contains(x) && a.contains(y));
        the_last_is_the_highest(b, x);
        the_last_is_the_highest(a, y);
        text_order_is_strict(x, y);
        let c = a.drop_last();
        let d = b.drop_last();
        assert(a =~= c.push(x) && b =~= d.push(y));
        assert(c.to_multiset() =~= a.to_multiset().remove(x));
        assert(d.to_multiset() =~= b.to_multiset().remove(y));
        assert forall|i: int, j: int| 0 <= i < j < c.len() implies <String as Ranked>::le(
            #[trigger] c[i],
            #[trigger] c[j],
        ) by {
            assert(c[i] == a[i] && c[j] == a[j]);
        }
        assert forall|i: int, j: int| 0 <= i < j < d.len() implies <String as Ranked>::le(
            #[trigger] d[i],
            #[trigger] d[j],
        ) by {
            assert(d[i] == b[i] && d[j] == b[j]);
        }
        ordered_texts_are_unique(c, d);
    } else {
        assert(a =~= b);
    }
}

proof fn counting_begins_with_the_first(texts: Seq<Seq<char>>, n: nat)
    requires
        0 < n <= texts.len(),
    ensures
        all_counted(texts, n) == counted(texts[0]) + all_counted(
            texts.drop_first(),
            (n - 1) as nat,
        ),
    decreases n,
{
    let rest = texts.drop_first();
    if n == 1 {
        assert(all_counted(texts, 0) + counted(texts[0]) =~= counted(texts[0]) + all_counted(
            rest,
            0,
        ));
    } else {
        counting_begins_with_the_first(texts, (n - 1) as nat);
        assert(rest[n - 2] == texts[n - 1]);
        assert((counted(texts[0]) + all_counted(rest, (n - 2) as nat)) + counted(texts[n - 1])
            =~= counted(texts[0]) + (all_counted(rest, (n - 2) as nat) + counted(rest[n - 2])));
    }
}

proof fn pairs_begin_with_the_first(pairs: Seq<(Seq<char>, Seq<char>)>, n: nat)
    requires
        0 < n <= pairs.len(),
    ensures
        pairs_counted(pairs, n) == counted(pairs[0].0) + (counted(pairs[0].1) + pairs_counted(
            pairs.drop_first(),
            (n - 1) as nat,
        )),
    decreases n,
{
    let rest = pairs.drop_first();
    if n == 1 {
        assert(pairs_counted(pairs, 0) + counted(pairs[0].0) + counted(pairs[0].1) =~= counted(
            pairs[0].0,
        ) + (counted(pairs[0].1) + pairs_counted(rest, 0)));
    } else {
        pairs_begin_with_the_first(pairs, (n - 1) as nat);
        assert(rest[n - 2] == pairs[n - 1]);
        let inner = pairs_counted(rest, (n - 2) as nat);
        assert((counted(pairs[0].0) + (counted(pairs[0].1) + inner)) + counted(pairs[n - 1].0)
            + counted(pairs[n - 1].1) =~= counted(pairs[0].0) + (counted(pairs[0].1) + (inner
            + counted(rest[n - 2].0) + counted(rest[n - 2].1))));
    }
}

/// A text is short enough for its length to be written before it.
pub open spec fn countable(text: Seq<char>) -> bool {
    encode_utf8(text).len() < span_of(8)
}

proof fn counted_lists_are_told_apart(
    a: Seq<Seq<char>>,
    b: Seq<Seq<char>>,
    x: Seq<u8>,
    y: Seq<u8>,
)
    requires
        a.len() == b.len(),
        all_counted(a, a.len()) + x == all_counted(b, b.len()) + y,
        forall|k: int| 0 <= k < a.len() ==> countable(#[trigger] a[k]),
        forall|k: int| 0 <= k < b.len() ==> countable(#[trigger] b[k]),
    ensures
        a == b,
        x == y,
    decreases a.len(),
{
    if a.len() == 0 {
        assert(all_counted(a, 0) + x =~= x);
        assert(all_counted(b, 0) + y =~= y);
        assert(a =~= b);
    } else {
        let c = a.drop_first();
        let d = b.drop_first();
        counting_begins_with_the_first(a, a.len());
        counting_begins_with_the_first(b, b.len());
        let s = all_counted(c, c.len()) + x;
        let t = all_counted(d, d.len()) + y;
        assert(all_counted(a, a.len()) + x =~= counted(a[0]) + s);
        assert(all_counted(b, b.len()) + y =~= counted(b[0]) + t);
        assert(countable(a[0]) && countable(b[0]));
        counted_texts_are_told_apart(a[0], b[0], s, t);
        assert forall|k: int| 0 <= k < c.len() implies countable(#[trigger] c[k]) by {
            assert(c[k] == a[k + 1]);
        }
        assert forall|k: int| 0 <= k < d.len() implies countable(#[trigger] d[k]) by {
            assert(d[k] == b[k + 1]);
        }
        counted_lists_are_told_apart(c, d, x, y);
        assert(a =~= seq![a[0]] + c);
        assert(b =~= seq![b[0]] + d);
    }
}

proof fn counted_pairs_are_told_apart(
    a: Seq<(Seq<char>, Seq<char>)>,
    b: Seq<(Seq<char>, Seq<char>)>,
)
    requires
        pairs_counted(a, a.len()) == pairs_counted(b, b.len()),
        forall|k: int| 0 <= k < a.len() ==> countable((#[trigger] a[k]).0) && countable(a[k].1),
        forall|k: int| 0 <= k < b.len() ==> countable((#[trigger] b[k]).0) && countable(b[k].1),
    ensures
        a == b,
    decreases a.len(),
{
    if a.len() == 0 {
        if b.len() > 0 {
            pairs_begin_with_the_first(b, b.len());
            low_bytes_count(encode_utf8(b[0].0).len(), 8);
            assert(pairs_counted(b, b.len()).len() >= 8);
        }
        assert(a =~= b);
    } else if b.len() == 0 {
        pairs_begin_with_the_first(a, a.len());
        low_bytes_count(encode_utf8(a[0].0).len(), 8);
        assert(pairs_counted(a, a.len()).len() >= 8);
    } else {
        let c = a.drop_first();
        let d = b.drop_first();
        pairs_begin_with_the_first(a, a.len());
        pairs_begin_with_the_first(b, b.len());
        assert(countable(a[0].0) && countable(b[0].0));
        let s = counted(a[0].1) + pairs_counted(c, c.len());
        let t = counted(b[0].1) + pairs_counted(d, d.len());
        counted_texts_are_told_apart(a[0].0, b[0].0, s, t);
        counted_texts_are_told_apart(
            a[0].1,
            b[0].1,
            pairs_counted(c, c.len()),
            pairs_counted(d, d.len()),
        );
        assert forall|k: int| 0 <= k < c.len() implies countable((#[trigger] c[k]).0) && countable(
            c[k].1,
        ) by {
            assert(c[k] == a[k + 1]);
        }
        assert forall|k: int| 0 <= k < d.len() implies countable((#[trigger] d[k]).0) && countable(
            d[k].1,
        ) by {
            assert(d[k] == b[k + 1]);
        }
        counted_pairs_are_told_apart(c, d);
        assert(a =~= seq![a[0]] + c);
        assert(b =~= seq![b[0]] + d);
    }
}

/// The bytes that an identity is the hash of.
pub open spec fn hashed_bytes(
    input: BuildInput,
    flags: Seq<Seq<char>>,
    packages: Seq<Seq<char>>,
    features: Seq<(Seq<char>, Seq<char>)>,
) -> Seq<u8> {
    let texts = hashed_texts(input, flags, packages);
    all_counted(texts, texts.len()) + pairs_counted(features, features.len())
}

/// An identity takes in everything that a build depends on: where the hashed bytes are
/// the same, so are the kit's version, the compiler and its version, the target, how
/// panics and assertions are dealt with, the profile, the flags and the packages, each
/// as one text, and the features.
pub proof fn identities_take_in_every_input(
    a: BuildInput,
    b: BuildInput,
    flags: Seq<Seq<char>>,
    other_flags: Seq<Seq<char>>,
    packages: Seq<Seq<char>>,
    other_packages: Seq<Seq<char>>,
    features: Seq<(Seq<char>, Seq<char>)>,
    other_features: Seq<(Seq<char>, Seq<char>)>,
)
    requires
        hashed_bytes(a, flags, packages, features) == hashed_bytes(
            b,
            other_flags,
            other_packages,
            other_features,
        ),
        forall|k: int|
            0 <= k < hashed_texts(a, flags, packages).len() ==> countable(
                #[trigger] hashed_texts(a, flags, packages)[k],
            ),
        forall|k: int|
            0 <= k < hashed_texts(b, other_flags, other_packages).len() ==> countable(
                #[trigger] hashed_texts(b, other_flags, other_packages)[k],
            ),
        forall|k: int|
            0 <= k < features.len() ==> countable((#[trigger] features[k]).0) && countable(
                features[k].1,
            ),
        forall|k: int|
            0 <= k < other_features.len() ==> countable((#[trigger] other_features[k]).0)
                && countable(other_features[k].1),
    ensures
        a.version@ == b.version@,
        a.rustc@ == b.rustc@,
        a.target@ == b.target@,
        a.panic@ == b.panic@,
        a.debug_assertions@ == b.debug_assertions@,
        a.profile@ == b.profile@,
        joined_with(flags, "\n"@, flags.len()) == joined_with(
            other_flags,
            "\n"@,
            other_flags.len(),
        ),
        joined_with(packages, "\n"@, packages.len()) == joined_with(
            other_packages,
            "\n"@,
            other_packages.len(),
        ),
        features == other_features,
        identity_of(a, flags, packages, features) == sha256_hex(
            hashed_bytes(a, flags, packages, features),
        ),
{
    let s = hashed_texts(a, flags, packages);
    let t = hashed_texts(b, other_flags, other_packages);
    counted_lists_are_told_apart(
        s,
        t,
        pairs_counted(features, features.len()),
        pairs_counted(other_features, other_features.len()),
    );
    counted_pairs_are_told_apart(features, other_features);
    assert(s[0] == t[0] && s[1] == t[1] && s[2] == t[2] && s[3] == t[3]);
    assert(s[4] == t[4] && s[5] == t[5] && s[6] == t[6] && s[7] == t[7]);
}

/// An identity is the hash of the inputs with the flags and the features in order.
pub proof fn identities_hash_sorted_inputs(
    input: BuildInput,
    packages: Seq<Seq<char>>,
    id: Seq<char>,
)
    requires
        identifies(input, packages, id),
    ensures
        exists|flags: Seq<Seq<char>>, features: Seq<(Seq<char>, Seq<char>)>|
            #![trigger hashed_bytes(input, flags, packages, features)]
            id == sha256_hex(hashed_bytes(input, flags, packages, features)) && sorting_of::<
                String,
            >(flags, flags_from(arguments(input.rustflags@), 0)->Ok_0) && sorting_of::<
                (String, String),
            >(features, features_among(input.variables@, input.variables@.len())),
{
    let (flags, features) = choose|
        flags: Seq<Seq<char>>,
        features: Seq<(Seq<char>, Seq<char>)>,
    | #[trigger] is_hash_of(input, flags, packages, features, id);
    assert(id == sha256_hex(hashed_bytes(input, flags, packages, features)));
}

/// A feature is a variable whose name begins as features do; its name is the rest.
pub proof fn features_are_told_by_their_prefix(
    variables: Seq<(String, String)>,
    n: nat,
    name: Seq<char>,
    value: Seq<char>,
)
    requires
        n <= variables.len(),
    ensures
        features_among(variables, n).contains((name, value)) <==> exists|k: int|
            0 <= k < n && (#[trigger] variables[k]).0@ == "CARGO_FEATURE_"@ + name
                && variables[k].1@ == value,
    decreases n,
{
    if n > 0 {
        features_are_told_by_their_prefix(variables, (n - 1) as nat, name, value);
        let before = features_among(variables, (n - 1) as nat);
        let all = features_among(variables, n);
        let v = variables[n - 1];
        prefixes_are_taken_off(v.0@, "CARGO_FEATURE_"@, name);
        if before.contains((name, value)) {
            let i = choose|i: int| 0 <= i < before.len() && before[i] == (name, value);
            assert(all[i] == (name, value));
        }
        if v.0@ == "CARGO_FEATURE_"@ + name && v.1@ == value {
            assert(all[before.len() as int] == (name, value));
        }
        if all.contains((name, value)) && !before.contains((name, value)) {
            let i = choose|i: int| 0 <= i < all.len() && all[i] == (name, value);
            if i < before.len() {
                assert(before[i] == (name, value));
            }
            assert(variables[n - 1].0@ == "CARGO_FEATURE_"@ + name);
        }
    }
}

/// The table of sections stands where the header of the file says, and so does what it
/// says of each section: the places are those of the 64-bit format.
pub proof fn sections_stand_where_the_file_says(bytes: Seq<u8>, i: int)
    requires
        bytes.len() <= usize::MAX,
        bytes.len() >= 64,
        bytes[0] == 127 && bytes[1] == 69 && bytes[2] == 76 && bytes[3] == 70,
        bytes[4] == 2 && bytes[5] == 1,
        number_at(bytes, 58, 2) >= 64,
        0 <= i < number_at(bytes, 60, 2),
        number_at(bytes, 62, 2) < number_at(bytes, 60, 2),
        number_at(bytes, 40, 8) + number_at(bytes, 60, 2) * number_at(bytes, 58, 2) <= bytes.len(),
    ensures
        table_of(bytes) matches Ok(t) && t.offset == number_at(bytes, 40, 8) && t.size == number_at(
            bytes,
            58,
            2,
        ) && t.count == number_at(bytes, 60, 2) && t.names == number_at(bytes, 62, 2),
        ({
            let base = number_at(bytes, 40, 8) + i * number_at(bytes, 58, 2);
            let h = header_of(bytes, table_of(bytes)->Ok_0, i);
            number_at(bytes, base + 24, 8) <= usize::MAX && number_at(bytes, base + 32, 8)
                <= usize::MAX && number_at(bytes, base, 4) <= usize::MAX ==> (h matches Ok(found)
                && found.name == number_at(bytes, base, 4) && found.offset == number_at(
                bytes,
                base + 24,
                8,
            ) && found.size == number_at(bytes, base + 32, 8))
        }),
{
    assert(bytes.subrange(0, 6) =~= elf64_magic());
    let size = number_at(bytes, 58, 2);
    let count = number_at(bytes, 60, 2);
    let offset = number_at(bytes, 40, 8);
    assert(0 <= i * size && i * size + size <= count * size && 0 <= count * size && size <= count
        * size && count <= count * size) by (nonlinear_arith)
        requires
            0 <= i < count,
            size >= 64,
    ;
}

} // verus!
