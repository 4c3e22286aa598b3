//! Text building blocks used by diagnostics and error messages.

use vstd::prelude::*;

verus! {

/// `String::push`: the character goes behind the text.
pub assume_specification[ String::push ](s: &mut String, c: char)
    ensures
        final(s)@ == old(s)@.push(c),
;

/// `String::push_str`: the given text goes behind the text.
pub assume_specification[ String::push_str ](s: &mut String, other: &str)
    ensures
        final(s)@ == old(s)@ + other@,
;

/// `str`'s equality: true exactly when both hold the same text.
#[verifier::external_body]
pub(crate) fn str_eq(a: &str, b: &str) -> (same: bool)
    ensures
        same == (a@ == b@),
{
    a == b
}

/// The decimal digits of `n`, most significant first, `"0"` for zero.
pub open spec fn decimal(n: nat) -> Seq<char>
    decreases n,
{
    if n < 10 {
        seq![digit(n)]
    } else {
        decimal(n / 10).push(digit(n % 10))
    }
}

/// The character of one decimal digit.
pub open spec fn digit(d: nat) -> char {
    (48 + d) as char
}

fn digit_char(d: u64) -> (c: char)
    requires
        d < 10,
    ensures
        c == digit(d as nat),
{
    (48u8 + d as u8) as char
}

/// Decimal text of `n`, as the standard integer formatting writes it.
pub fn decimal_text(n: u64) -> (out: String)
    ensures
        out@ == decimal(n as nat),
    decreases n,
{
    if n < 10 {
        let mut out = String::new();
        out.push(digit_char(n));
        assert(out@ =~= decimal(n as nat));
        out
    } else {
        let mut out = decimal_text(n / 10);
        out.push(digit_char(n % 10));
        out
    }
}

/// `a` followed by `b`.
pub fn joined(a: &str, b: &str) -> (out: String)
    ensures
        out@ == a@ + b@,
{
    let mut out = a.to_owned();
    out.push_str(b);
    out
}

/// The quoted and escaped form that `{:?}` gives of a text.
pub uninterp spec fn debugged(text: Seq<char>) -> Seq<char>;

/// `format!("{:?}")` on a `str`: its quoted and escaped form, a function of the
/// text alone.
#[verifier::external_body]
pub(crate) fn debug_text(text: &str) -> (out: String)
    ensures
        out@ == debugged(text@),
{
    format!("{:?}", text)
}

/// The `{:?}` form of a list of texts: quoted, separated by commas, in square
/// brackets.
pub open spec fn debug_list(list: Seq<Seq<char>>) -> Seq<char> {
    seq!['['] + debug_items(list, list.len()) + seq![']']
}

/// The first `n` items of `debug_list`, without the brackets.
pub open spec fn debug_items(list: Seq<Seq<char>>, n: nat) -> Seq<char>
    decreases n,
{
    if n == 0 {
        seq![]
    } else if n == 1 {
        debugged(list[0])
    } else {
        debug_items(list, (n - 1) as nat) + ", "@ + debugged(list[n - 1])
    }
}

pub fn debug_list_text(list: &Vec<String>) -> (out: String)
    ensures
        out@ == debug_list(Seq::new(list@.len(), |i: int| list@[i]@)),
{
    let ghost items = Seq::new(list@.len(), |i: int| list@[i]@);
    let mut out = String::new();
    out.push('[');
    let mut i: usize = 0;
    assert(out@ =~= seq!['['] + debug_items(items, 0));
    while i < list.len()
        invariant
            i <= list.len(),
            items == Seq::new(list@.len(), |i: int| list@[i]@),
            out@ == seq!['['] + debug_items(items, i as nat),
        decreases list.len() - i,
    {
        if i > 0 {
            out.push_str(", ");
        }
        out.push_str(debug_text(list[i].as_str()).as_str());
        i += 1;
        assert(out@ =~= seq!['['] + debug_items(items, i as nat));
    }
    out.push(']');
    assert(out@ =~= debug_list(items));
    out
}

/// `n` spaces.
pub open spec fn spaces(n: nat) -> Seq<char> {
    Seq::new(n, |i: int| ' ')
}

/// The characters of a text.
pub fn chars_of(text: &str) -> (out: Vec<char>)
    ensures
        out@ == text@,
{
    let mut out: Vec<char> = Vec::new();
    for c in it: text.chars()
        invariant
            it.seq() == text@,
            out@ == text@.take(it.index()),
    {
        out.push(c);
        assert(out@ =~= text@.take(it.index() + 1));
    }
    assert(text@.take(text@.len() as int) =~= text@);
    out
}

/// The text of the characters from one place up to another.
pub fn text_between(chars: &Vec<char>, from: usize, to: usize) -> (out: String)
    requires
        from <= to <= chars@.len(),
    ensures
        out@ == chars@.subrange(from as int, to as int),
{
    let mut out = String::new();
    let mut i: usize = from;
    while i < to
        invariant
            from <= i <= to <= chars@.len(),
            out@ == chars@.subrange(from as int, i as int),
        decreases to - i,
    {
        out.push(chars[i]);
        i += 1;
        assert(out@ =~= chars@.subrange(from as int, i as int));
    }
    out
}

/// The characters begin with the prefix.
pub fn has_prefix(chars: &Vec<char>, prefix: &str) -> (yes: bool)
    ensures
        yes == prefix@.is_prefix_of(chars@),
{
    let p = chars_of(prefix);
    if p.len() > chars.len() {
        return false;
    }
    let mut i: usize = 0;
    while i < p.len()
        invariant
            p@ == prefix@,
            i <= p@.len() <= chars@.len(),
            forall|j: int| 0 <= j < i ==> p@[j] == chars@[j],
        decreases p@.len() - i,
    {
        if p[i] != chars[i] {
            assert(prefix@[i as int] != chars@.subrange(0, prefix@.len() as int)[i as int]);
            return false;
        }
        i += 1;
    }
    assert(prefix@ =~= chars@.subrange(0, prefix@.len() as int));
    true
}

/// The text, cut to so many characters; an ellipsis stands for what was cut.
pub open spec fn cut(text: Seq<char>, max_chars: nat) -> Seq<char> {
    if text.len() <= max_chars {
        text
    } else {
        text.take(max_chars as int).push('…')
    }
}

pub fn truncate(s: &str, max_chars: usize) -> (out: String)
    ensures
        out@ == cut(s@, max_chars as nat),
{
    let chars = chars_of(s);
    if chars.len() <= max_chars {
        return s.to_owned();
    }
    let mut out = text_between(&chars, 0, max_chars);
    out.push('…');
    out
}

} // verus!
