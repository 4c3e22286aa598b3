//! The locked packages that a kit is built from.

use vstd::prelude::*;

use crate::flags::{pieces, split, strip, stripped};
use crate::order::{models, sorted, sorting_of};
use crate::text::{chars_of, joined, str_eq, text_between};

verus! {

/// A character with Unicode's `White_Space` property.
pub open spec fn white(c: char) -> bool {
    ||| '\u{9}' <= c <= '\u{d}'
    ||| c == ' '
    ||| c == '\u{85}'
    ||| c == '\u{a0}'
    ||| c == '\u{1680}'
    ||| '\u{2000}' <= c <= '\u{200a}'
    ||| c == '\u{2028}'
    ||| c == '\u{2029}'
    ||| c == '\u{202f}'
    ||| c == '\u{205f}'
    ||| c == '\u{3000}'
}

/// `char::is_whitespace`: whether the character has Unicode's `White_Space`
/// property.
#[verifier::external_body]
fn is_white(c: char) -> (yes: bool)
    ensures
        yes == white(c),
{
    c.is_whitespace()
}

/// The text without the blanks it begins with.
pub open spec fn trimmed_start(text: Seq<char>) -> Seq<char>
    decreases text.len(),
{
    if text.len() > 0 && white(text[0]) {
        trimmed_start(text.drop_first())
    } else {
        text
    }
}

/// The text without the blanks it ends with.
pub open spec fn trimmed_end(text: Seq<char>) -> Seq<char>
    decreases text.len(),
{
    if text.len() > 0 && white(text.last()) {
        trimmed_end(text.drop_last())
    } else {
        text
    }
}

/// The text without the blanks around it.
pub open spec fn trimmed(text: Seq<char>) -> Seq<char> {
    trimmed_end(trimmed_start(text))
}

/// The text up to the first blank.
pub open spec fn up_to_blank(text: Seq<char>) -> Seq<char>
    decreases text.len(),
{
    if text.len() == 0 || white(text[0]) {
        seq![]
    } else {
        seq![text[0]] + up_to_blank(text.drop_first())
    }
}

/// The first word of a text, if there is one.
pub open spec fn first_word(text: Seq<char>) -> Option<Seq<char>> {
    let rest = trimmed_start(text);
    if rest.len() == 0 {
        None
    } else {
        Some(up_to_blank(rest))
    }
}

/// Where the first character that is no blank stands.
fn blanks_before(chars: &Vec<char>) -> (at: usize)
    ensures
        at <= chars@.len(),
        trimmed_start(chars@) == chars@.skip(at as int),
{
    let mut at: usize = 0;
    assert(chars@.skip(0) =~= chars@);
    while at < chars.len() && is_white(chars[at])
        invariant
            at <= chars@.len(),
            trimmed_start(chars@) == trimmed_start(chars@.skip(at as int)),
        ensures
            at <= chars@.len(),
            trimmed_start(chars@) == trimmed_start(chars@.skip(at as int)),
            at < chars@.len() ==> !white(chars@[at as int]),
        decreases chars@.len() - at,
    {
        assert(chars@.skip(at as int).drop_first() =~= chars@.skip(at + 1));
        at += 1;
    }
    at
}

fn trim(text: &str) -> (rest: String)
    ensures
        rest@ == trimmed(text@),
{
    let chars = chars_of(text);
    let from = blanks_before(&chars);
    let mut to: usize = chars.len();
    assert(chars@.subrange(from as int, to as int) =~= chars@.skip(from as int));
    while to > from && is_white(chars[to - 1])
        invariant
            from <= to <= chars@.len(),
            trimmed(text@) == trimmed_end(chars@.subrange(from as int, to as int)),
        ensures
            from <= to <= chars@.len(),
            trimmed(text@) == trimmed_end(chars@.subrange(from as int, to as int)),
            from < to ==> !white(chars@[to - 1]),
        decreases to,
    {
        assert(chars@.subrange(from as int, to as int).drop_last() =~= chars@.subrange(
            from as int,
            to - 1,
        ));
        to -= 1;
    }
    text_between(&chars, from, to)
}

fn word(text: &str) -> (first: Option<String>)
    ensures
        match (first, first_word(text@)) {
            (Some(w), Some(expected)) => w@ == expected,
            (None, None) => true,
            _ => false,
        },
{
    let chars = chars_of(text);
    let from = blanks_before(&chars);
    if from == chars.len() {
        return None;
    }
    let mut to: usize = from;
    assert(chars@.subrange(from as int, from as int) + up_to_blank(chars@.skip(from as int))
        =~= up_to_blank(chars@.skip(from as int)));
    while to < chars.len() && !is_white(chars[to])
        invariant
            from <= to <= chars@.len(),
            up_to_blank(chars@.skip(from as int)) == chars@.subrange(from as int, to as int)
                + up_to_blank(chars@.skip(to as int)),
        ensures
            from <= to <= chars@.len(),
            up_to_blank(chars@.skip(from as int)) == chars@.subrange(from as int, to as int)
                + up_to_blank(chars@.skip(to as int)),
            to < chars@.len() ==> white(chars@[to as int]),
        decreases chars@.len() - to,
    {
        assert(chars@.skip(to as int).drop_first() =~= chars@.skip(to + 1));
        assert(chars@.subrange(from as int, to as int) + (seq![chars@[to as int]] + up_to_blank(
            chars@.skip(to + 1),
        )) =~= chars@.subrange(from as int, to + 1) + up_to_blank(chars@.skip(to + 1)));
        to += 1;
    }
    assert(chars@.subrange(from as int, to as int) + seq![] =~= chars@.subrange(
        from as int,
        to as int,
    ));
    Some(text_between(&chars, from, to))
}

/// A package of a lock file.
pub struct LockedPackage {
    pub name: String,
    pub version: String,
    pub source: String,
    pub checksum: String,
    /// The names of the packages it depends on.
    pub deps: Vec<String>,
}

/// `LockedPackage`, with its texts as sequences.
pub struct PackageModel {
    pub name: Seq<char>,
    pub version: Seq<char>,
    pub source: Seq<char>,
    pub checksum: Seq<char>,
    pub deps: Seq<Seq<char>>,
}

impl View for LockedPackage {
    type V = PackageModel;

    open spec fn view(&self) -> PackageModel {
        PackageModel {
            name: self.name@,
            version: self.version@,
            source: self.source@,
            checksum: self.checksum@,
            deps: models(self.deps@),
        }
    }
}

/// How far a lock file has been read.
pub struct LockReader {
    pub packages: Vec<LockedPackage>,
    pub current: Option<LockedPackage>,
    pub in_deps: bool,
}

/// `LockReader`, with its packages as models.
pub struct LockModel {
    pub packages: Seq<PackageModel>,
    pub current: Option<PackageModel>,
    pub in_deps: bool,
}

impl View for LockReader {
    type V = LockModel;

    open spec fn view(&self) -> LockModel {
        LockModel {
            packages: models(self.packages@),
            current: match self.current {
                Some(p) => Some(p@),
                None => None,
            },
            in_deps: self.in_deps,
        }
    }
}

/// The value of a field, if the line gives it one: `key = "value"`.
pub open spec fn field_value(line: Seq<char>, key: Seq<char>) -> Option<Seq<char>> {
    match stripped(line, key) {
        None => None,
        Some(rest) => match stripped(rest, " = \""@) {
            None => None,
            Some(value) => if value.len() > 0 && value.last() == '"' {
                Some(value.drop_last())
            } else {
                None
            },
        },
    }
}

/// The given value, where there is one, in place of the old one.
pub open spec fn replaced_by(old_value: Seq<char>, given: Option<Seq<char>>) -> Seq<char> {
    match given {
        Some(value) => value,
        None => old_value,
    }
}

impl PackageModel {
    pub open spec fn blank() -> PackageModel {
        PackageModel {
            name: seq![],
            version: seq![],
            source: seq![],
            checksum: seq![],
            deps: seq![],
        }
    }

    /// With the fields that the line gives.
    pub open spec fn with_fields(self, line: Seq<char>) -> PackageModel {
        PackageModel {
            name: replaced_by(self.name, field_value(line, "name"@)),
            version: replaced_by(self.version, field_value(line, "version"@)),
            source: replaced_by(self.source, field_value(line, "source"@)),
            checksum: replaced_by(self.checksum, field_value(line, "checksum"@)),
            ..self
        }
    }

    /// The line of the package among all that a kit is built from.
    pub open spec fn line(self) -> Seq<char> {
        self.name + " "@ + self.version + " "@ + self.source + " "@ + self.checksum
    }
}

impl LockModel {
    /// The package that is being read is complete.
    pub open spec fn closed(self) -> Seq<PackageModel> {
        match self.current {
            Some(p) => self.packages.push(p),
            None => self.packages,
        }
    }

    /// One more line, without the blanks around it, has been read.
    pub open spec fn after_line(self, line: Seq<char>) -> Result<LockModel, Seq<char>> {
        if line == "[[package]]"@ {
            Ok(
                LockModel {
                    packages: self.closed(),
                    current: Some(PackageModel::blank()),
                    in_deps: false,
                },
            )
        } else {
            match self.current {
                None => Ok(self),
                Some(p) => if line == "dependencies = ["@ {
                    Ok(LockModel { in_deps: true, ..self })
                } else if !self.in_deps {
                    Ok(LockModel { current: Some(p.with_fields(line)), ..self })
                } else if line == "]"@ {
                    Ok(LockModel { in_deps: false, ..self })
                } else {
                    match stripped(line, "\""@) {
                        None => Ok(self),
                        Some(rest) => match first_word(pieces(rest, '"')[0]) {
                            None => Err("dependency without a name in Cargo.lock"@),
                            Some(name) => Ok(
                                LockModel {
                                    current: Some(
                                        PackageModel { deps: p.deps.push(name), ..p },
                                    ),
                                    ..self
                                },
                            ),
                        },
                    }
                },
            }
        }
    }
}

/// The first `n` lines have been read.
pub open spec fn lock_after(lines: Seq<Seq<char>>, n: nat) -> Result<LockModel, Seq<char>>
    decreases n,
{
    if n == 0 {
        Ok(LockModel { packages: seq![], current: None, in_deps: false })
    } else {
        match lock_after(lines, (n - 1) as nat) {
            Err(e) => Err(e),
            Ok(m) => m.after_line(trimmed(lines[n - 1])),
        }
    }
}

/// The packages of a lock file.
pub open spec fn packages_in(lock: Seq<char>) -> Result<Seq<PackageModel>, Seq<char>> {
    let lines = pieces(lock, '\n');
    match lock_after(lines, lines.len()) {
        Ok(m) => Ok(m.closed()),
        Err(e) => Err(e),
    }
}

fn blank_package() -> (p: LockedPackage)
    ensures
        p@ == PackageModel::blank(),
{
    let p = LockedPackage {
        name: String::new(),
        version: String::new(),
        source: String::new(),
        checksum: String::new(),
        deps: Vec::new(),
    };
    assert(p@.name =~= seq![] && p@.version =~= seq![] && p@.source =~= seq![] && p@.checksum
        =~= seq![] && p@.deps =~= seq![]);
    p
}

fn field(line: &str, key: &str) -> (value: Option<String>)
    ensures
        match (value, field_value(line@, key@)) {
            (Some(v), Some(expected)) => v@ == expected,
            (None, None) => true,
            _ => false,
        },
{
    match strip(line, key) {
        None => None,
        Some(rest) => match strip(rest.as_str(), " = \"") {
            None => None,
            Some(value) => {
                let chars = chars_of(value.as_str());
                let n: usize = chars.len();
                if n > 0 && chars[n - 1] == '"' {
                    assert(chars@.subrange(0, n - 1) =~= value@.drop_last());
                    Some(text_between(&chars, 0, n - 1))
                } else {
                    None
                }
            },
        },
    }
}

impl LockReader {
    fn close_package(&mut self)
        ensures
            final(self)@ == (LockModel {
                packages: old(self)@.closed(),
                current: None,
                ..old(self)@
            }),
    {
        let ghost before = self@;
        let mut current: Option<LockedPackage> = None;
        std::mem::swap(&mut self.current, &mut current);
        if let Some(p) = current {
            let ghost model = p@;
            self.packages.push(p);
            assert(self@.packages =~= before.packages.push(model));
        }
    }

    /// Reads one more line, without the blanks around it.
    pub fn take_line(&mut self, line: &str) -> (result: Result<(), String>)
        ensures
            match old(self)@.after_line(line@) {
                Ok(m) => result is Ok && final(self)@ == m,
                Err(reason) => result matches Err(e) && e@ == reason,
            },
    {
        let ghost before = self@;
        if str_eq(line, "[[package]]") {
            self.close_package();
            self.current = Some(blank_package());
            self.in_deps = false;
            return Ok(());
        }
        let mut current: Option<LockedPackage> = None;
        std::mem::swap(&mut self.current, &mut current);
        let mut p = match current {
            Some(p) => p,
            None => {
                return Ok(());
            },
        };
        let ghost model = p@;
        if str_eq(line, "dependencies = [") {
            self.in_deps = true;
        } else if !self.in_deps {
            if let Some(v) = field(line, "name") {
                p.name = v;
            }
            if let Some(v) = field(line, "version") {
                p.version = v;
            }
            if let Some(v) = field(line, "source") {
                p.source = v;
            }
            if let Some(v) = field(line, "checksum") {
                p.checksum = v;
            }
            assert(p@ == model.with_fields(line@));
        } else if str_eq(line, "]") {
            self.in_deps = false;
        } else if let Some(rest) = strip(line, "\"") {
            let parts = split(rest.as_str(), '"');
            proof {
                assert(models(parts@).len() > 0) by {
                    assert(pieces(rest@, '"').len() > 0);
                }
            }
            assert(models(parts@)[0] == parts@[0]@);
            match word(parts[0].as_str()) {
                None => {
                    return Err("dependency without a name in Cargo.lock".to_owned());
                },
                Some(name) => {
                    let ghost shown = name@;
                    p.deps.push(name);
                    assert(p@.deps =~= model.deps.push(shown));
                },
            }
        }
        self.current = Some(p);
        Ok(())
    }
}

/// Reads a lock file.
pub fn read_lock(lock: &str) -> (result: Result<Vec<LockedPackage>, String>)
    ensures
        match packages_in(lock@) {
            Ok(list) => result matches Ok(packages) && models(packages@) == list,
            Err(reason) => result matches Err(e) && e@ == reason,
        },
{
    let lines = split(lock, '\n');
    let ghost all = models(lines@);
    let mut reader = LockReader { packages: Vec::new(), current: None, in_deps: false };
    assert(reader@.packages =~= seq![]);
    let mut i: usize = 0;
    while i < lines.len()
        invariant
            i <= lines@.len(),
            all == models(lines@),
            all == pieces(lock@, '\n'),
            lock_after(all, i as nat) == Ok::<LockModel, Seq<char>>(reader@),
        decreases lines@.len() - i,
    {
        assert(all[i as int] == lines@[i as int]@);
        match reader.take_line(trim(lines[i].as_str()).as_str()) {
            Ok(()) => {},
            Err(e) => {
                proof {
                    faults_stay(all, (i + 1) as nat, all.len());
                }
                return Err(e);
            },
        }
        i += 1;
    }
    reader.close_package();
    Ok(reader.packages)
}

proof fn faults_stay(lines: Seq<Seq<char>>, n: nat, m: nat)
    requires
        n <= m,
    ensures
        lock_after(lines, n) is Err ==> lock_after(lines, m) == lock_after(lines, n),
    decreases m,
{
    if n < m {
        faults_stay(lines, n, (m - 1) as nat);
    }
}

/// A package of that name depends on one of the other name.
pub open spec fn depends(packages: Seq<PackageModel>, name: Seq<char>, other: Seq<char>) -> bool {
    exists|k: int|
        0 <= k < packages.len() && (#[trigger] packages[k]).name == name
            && packages[k].deps.contains(other)
}

/// There is a package of that name.
pub open spec fn is_locked(packages: Seq<PackageModel>, name: Seq<char>) -> bool {
    exists|k: int| 0 <= k < packages.len() && (#[trigger] packages[k]).name == name
}

/// One step of a way from package to package.
pub open spec fn steps(packages: Seq<PackageModel>, way: Seq<Seq<char>>, k: int) -> bool {
    depends(packages, way[k], way[k + 1])
}

/// A way from the kit to a package over what each one depends on.
pub open spec fn leads(packages: Seq<PackageModel>, way: Seq<Seq<char>>, name: Seq<char>) -> bool {
    &&& way.len() > 0
    &&& way[0] == "rutis-sdk"@
    &&& way.last() == name
    &&& forall|k: int| 0 <= k < way.len() - 1 ==> #[trigger] steps(packages, way, k)
}

/// The kit is built from the package of that name.
pub open spec fn needed(packages: Seq<PackageModel>, name: Seq<char>) -> bool {
    exists|way: Seq<Seq<char>>| #[trigger] leads(packages, way, name)
}

/// A package that the kit is built from.
pub open spec fn is_needed(packages: Seq<PackageModel>) -> spec_fn(PackageModel) -> bool {
    |p: PackageModel| needed(packages, p.name)
}

/// The lines of the packages.
pub open spec fn lines_of(packages: Seq<PackageModel>) -> Seq<Seq<char>> {
    Seq::new(packages.len(), |k: int| packages[k].line())
}

/// Everything that the kit is built from is in the lock file.
pub open spec fn complete(packages: Seq<PackageModel>) -> bool {
    forall|name: Seq<char>| #[trigger] needed(packages, name) ==> is_locked(packages, name)
}

proof fn the_kit_is_needed(packages: Seq<PackageModel>)
    ensures
        needed(packages, "rutis-sdk"@),
{
    let way = seq!["rutis-sdk"@];
    assert(leads(packages, way, "rutis-sdk"@));
}

proof fn what_is_needed_needs(packages: Seq<PackageModel>, name: Seq<char>, other: Seq<char>)
    requires
        needed(packages, name),
        depends(packages, name, other),
    ensures
        needed(packages, other),
{
    let way = choose|way: Seq<Seq<char>>| #[trigger] leads(packages, way, name);
    let longer = way.push(other);
    assert forall|k: int| 0 <= k < longer.len() - 1 implies #[trigger] steps(
        packages,
        longer,
        k,
    ) by {
        if k < way.len() - 1 {
            assert(steps(packages, way, k));
        }
    }
    assert(leads(packages, longer, other));
}

proof fn closed_lists_hold_what_is_needed(
    packages: Seq<PackageModel>,
    seen: Seq<Seq<char>>,
    way: Seq<Seq<char>>,
    name: Seq<char>,
)
    requires
        leads(packages, way, name),
        seen.contains("rutis-sdk"@),
        forall|a: Seq<char>, b: Seq<char>|
            seen.contains(a) && #[trigger] depends(packages, a, b) ==> seen.contains(b),
    ensures
        seen.contains(name),
    decreases way.len(),
{
    if way.len() > 1 {
        let shorter = way.drop_last();
        assert forall|k: int| 0 <= k < shorter.len() - 1 implies #[trigger] steps(
            packages,
            shorter,
            k,
        ) by {
            assert(steps(packages, way, k));
        }
        closed_lists_hold_what_is_needed(packages, seen, shorter, shorter.last());
        assert(steps(packages, way, way.len() - 2));
        assert(depends(packages, shorter.last(), name));
    } else {
        assert(way.last() == way[0]);
    }
}

fn holds(list: &Vec<String>, name: &str) -> (yes: bool)
    ensures
        yes == models(list@).contains(name@),
{
    let mut i: usize = 0;
    while i < list.len()
        invariant
            i <= list@.len(),
            forall|j: int| 0 <= j < i ==> models(list@)[j] != name@,
        decreases list@.len() - i,
    {
        if str_eq(list[i].as_str(), name) {
            assert(models(list@)[i as int] == name@);
            return true;
        }
        i += 1;
    }
    false
}

proof fn names_are_bounded(packages: Seq<PackageModel>, seen: Seq<Seq<char>>)
    requires
        seen.no_duplicates(),
        forall|k: int| 0 <= k < seen.len() ==> is_locked(packages, #[trigger] seen[k]),
    ensures
        seen.len() <= packages.len(),
{
    let names = Seq::new(packages.len(), |k: int| packages[k].name);
    assert forall|a: Seq<char>| seen.to_set().contains(a) implies names.to_set().contains(a) by {
        let k = choose|k: int| 0 <= k < seen.len() && seen[k] == a;
        assert(is_locked(packages, seen[k]));
        let j = choose|j: int| 0 <= j < packages.len() && (#[trigger] packages[j]).name == a;
        assert(names[j] == a);
    }
    seen.unique_seq_to_set();
    names.lemma_cardinality_of_set();
    vstd::set_lib::lemma_len_subset(seen.to_set(), names.to_set());
}

/// What the packages of that name, among the first `n`, depend on, in the order
/// of the lock file.
pub open spec fn deps_of(packages: Seq<PackageModel>, name: Seq<char>, n: nat) -> Seq<Seq<char>>
    decreases n,
{
    if n == 0 {
        seq![]
    } else {
        let before = deps_of(packages, name, (n - 1) as nat);
        if packages[n - 1].name == name {
            before + packages[n - 1].deps
        } else {
            before
        }
    }
}

/// A walk from the kit over what each package depends on.
pub struct Walk {
    /// The names to visit, the next one last.
    pub pending: Seq<Seq<char>>,
    /// The names that were visited.
    pub seen: Seq<Seq<char>>,
    /// The name that was to be visited, and is not in the lock file. It ends the
    /// walk.
    pub missing: Option<Seq<char>>,
}

impl Walk {
    pub open spec fn next(self, packages: Seq<PackageModel>) -> Walk {
        if self.pending.len() == 0 || self.missing is Some {
            self
        } else {
            let name = self.pending.last();
            let rest = self.pending.drop_last();
            if self.seen.contains(name) {
                Walk { pending: rest, ..self }
            } else if !is_locked(packages, name) {
                Walk { pending: rest, missing: Some(name), ..self }
            } else {
                Walk {
                    pending: rest + deps_of(packages, name, packages.len()),
                    seen: self.seen.push(name),
                    ..self
                }
            }
        }
    }

    pub open spec fn over(self) -> bool {
        self.pending.len() == 0 || self.missing is Some
    }
}

/// The walk after `n` steps.
pub open spec fn walk(packages: Seq<PackageModel>, n: nat) -> Walk
    decreases n,
{
    if n == 0 {
        Walk { pending: seq!["rutis-sdk"@], seen: seq![], missing: None }
    } else {
        walk(packages, (n - 1) as nat).next(packages)
    }
}

/// The walk finds after `n` steps that a package is missing.
pub open spec fn stops(packages: Seq<PackageModel>, n: nat) -> bool {
    walk(packages, n).missing is Some
}

/// The first name that the walk finds missing from the lock file.
pub open spec fn first_missing(packages: Seq<PackageModel>) -> Option<Seq<char>> {
    if exists|n: nat| #[trigger] stops(packages, n) {
        walk(packages, choose|n: nat| #[trigger] stops(packages, n)).missing
    } else {
        None
    }
}

/// The complaint about a package that is missing.
pub open spec fn missing_complaint(name: Seq<char>) -> Seq<char> {
    name + " missing from Cargo.lock"@
}

proof fn walks_that_are_over_stay(packages: Seq<PackageModel>, n: nat, m: nat)
    requires
        n <= m,
        walk(packages, n).over(),
    ensures
        walk(packages, m) == walk(packages, n),
    decreases m,
{
    if n < m {
        walks_that_are_over_stay(packages, n, (m - 1) as nat);
    }
}

proof fn the_end_of_the_walk_decides(packages: Seq<PackageModel>, n: nat)
    requires
        walk(packages, n).over(),
    ensures
        first_missing(packages) == walk(packages, n).missing,
{
    if exists|k: nat| #[trigger] stops(packages, k) {
        let k = choose|k: nat| #[trigger] stops(packages, k);
        if k <= n {
            walks_that_are_over_stay(packages, k, n);
        } else {
            walks_that_are_over_stay(packages, n, k);
        }
    } else {
        assert(!stops(packages, n));
    }
}

proof fn deps_are_what_is_depended_on(
    packages: Seq<PackageModel>,
    name: Seq<char>,
    n: nat,
    other: Seq<char>,
)
    requires
        n <= packages.len(),
    ensures
        deps_of(packages, name, n).contains(other) <==> exists|k: int|
            0 <= k < n && (#[trigger] packages[k]).name == name && packages[k].deps.contains(other),
    decreases n,
{
    if n > 0 {
        deps_are_what_is_depended_on(packages, name, (n - 1) as nat, other);
        let before = deps_of(packages, name, (n - 1) as nat);
        let last = packages[n - 1];
        let all = deps_of(packages, name, n);
        if last.name == name {
            if before.contains(other) {
                assert(all[before.index_of(other)] == other);
            }
            if last.deps.contains(other) {
                assert(all[before.len() + last.deps.index_of(other)] == other);
            }
            if all.contains(other) {
                let x = all.index_of(other);
                if x < before.len() {
                    assert(before[x] == other);
                } else {
                    assert(last.deps[x - before.len()] == other);
                }
            }
        }
    }
}

/// What holds all along the walk: only what is needed is visited, and what a
/// visited package depends on is visited or to be visited.
pub open spec fn on_the_way(packages: Seq<PackageModel>, w: Walk) -> bool {
    &&& w.seen.no_duplicates()
    &&& forall|k: int|
        0 <= k < w.seen.len() ==> is_locked(packages, #[trigger] w.seen[k]) && needed(
            packages,
            w.seen[k],
        )
    &&& forall|k: int| 0 <= k < w.pending.len() ==> needed(packages, #[trigger] w.pending[k])
    &&& w.missing matches Some(name) ==> needed(packages, name) && !is_locked(packages, name)
    &&& w.missing is None ==> {
        &&& w.seen.contains("rutis-sdk"@) || w.pending.contains("rutis-sdk"@)
        &&& forall|a: Seq<char>, b: Seq<char>|
            w.seen.contains(a) && #[trigger] depends(packages, a, b) ==> w.seen.contains(b)
                || w.pending.contains(b)
    }
}

proof fn one_step_on_the_way(packages: Seq<PackageModel>, w: Walk)
    requires
        on_the_way(packages, w),
        !w.over(),
    ensures
        on_the_way(packages, w.next(packages)),
        w.next(packages).seen.len() <= packages.len(),
{
    let name = w.pending.last();
    let rest = w.pending.drop_last();
    let after = w.next(packages);
    assert(needed(packages, w.pending[w.pending.len() - 1]));
    assert forall|b: Seq<char>| #[trigger] w.pending.contains(b) implies b == name || rest.contains(
        b,
    ) by {
        let x = w.pending.index_of(b);
        if x < rest.len() {
            assert(rest[x] == b);
        }
    }
    assert forall|k: int| 0 <= k < rest.len() implies needed(packages, #[trigger] rest[k]) by {
        assert(rest[k] == w.pending[k]);
    }
    names_are_bounded(packages, w.seen);
    if !w.seen.contains(name) && is_locked(packages, name) {
        let more = deps_of(packages, name, packages.len());
        assert forall|b: Seq<char>| #[trigger] w.seen.contains(b) implies after.seen.contains(b) by {
            assert(after.seen[w.seen.index_of(b)] == b);
        }
        assert(after.seen[w.seen.len() as int] == name);
        assert(after.seen.contains(name));
        assert forall|b: Seq<char>| #[trigger] rest.contains(b) implies after.pending.contains(b) by {
            assert(after.pending[rest.index_of(b)] == b);
        }
        assert forall|b: Seq<char>| #[trigger] more.contains(b) implies after.pending.contains(b) by {
            assert(after.pending[rest.len() + more.index_of(b)] == b);
        }
        assert forall|k: int| 0 <= k < after.seen.len() implies is_locked(
            packages,
            #[trigger] after.seen[k],
        ) && needed(packages, after.seen[k]) by {
            if k < w.seen.len() {
                assert(after.seen[k] == w.seen[k]);
            }
        }
        assert forall|k: int| 0 <= k < after.pending.len() implies needed(
            packages,
            #[trigger] after.pending[k],
        ) by {
            if k < rest.len() {
                assert(after.pending[k] == rest[k]);
            } else {
                let b = after.pending[k];
                assert(more[k - rest.len()] == b);
                deps_are_what_is_depended_on(packages, name, packages.len(), b);
                assert(depends(packages, name, b));
                what_is_needed_needs(packages, name, b);
            }
        }
        assert forall|a: Seq<char>, b: Seq<char>|
            after.seen.contains(a) && #[trigger] depends(packages, a, b) implies after.seen.contains(
            b,
        ) || after.pending.contains(b) by {
            if a == name {
                deps_are_what_is_depended_on(packages, name, packages.len(), b);
                assert(more.contains(b));
            } else {
                let x = after.seen.index_of(a);
                assert(w.seen[x] == a);
                assert(w.seen.contains(a));
            }
        }
        names_are_bounded(packages, after.seen);
    }
}

proof fn the_walk_keeps_its_way(packages: Seq<PackageModel>, n: nat)
    ensures
        on_the_way(packages, walk(packages, n)),
        walk(packages, n).seen.len() <= packages.len(),
    decreases n,
{
    if n == 0 {
        the_kit_is_needed(packages);
        assert(walk(packages, 0).pending[0] == "rutis-sdk"@);
    } else {
        the_walk_keeps_its_way(packages, (n - 1) as nat);
        if !walk(packages, (n - 1) as nat).over() {
            one_step_on_the_way(packages, walk(packages, (n - 1) as nat));
        }
    }
}

proof fn a_whole_walk_visits_what_is_needed(packages: Seq<PackageModel>, w: Walk)
    requires
        on_the_way(packages, w),
        w.pending.len() == 0,
        w.missing is None,
    ensures
        forall|name: Seq<char>| w.seen.contains(name) <==> #[trigger] needed(packages, name),
        complete(packages),
{
    assert forall|name: Seq<char>| w.seen.contains(name) <==> #[trigger] needed(packages, name) by {
        if needed(packages, name) {
            let way = choose|way: Seq<Seq<char>>| #[trigger] leads(packages, way, name);
            closed_lists_hold_what_is_needed(packages, w.seen, way, name);
        }
        if w.seen.contains(name) {
            assert(needed(packages, w.seen[w.seen.index_of(name)]));
        }
    }
    assert forall|name: Seq<char>| #[trigger] needed(packages, name) implies is_locked(
        packages,
        name,
    ) by {
        assert(w.seen.contains(name));
        assert(is_locked(packages, w.seen[w.seen.index_of(name)]));
    }
}

proof fn the_walk_ends(packages: Seq<PackageModel>, n: nat) -> (m: nat)
    ensures
        walk(packages, m).over(),
    decreases packages.len() - walk(packages, n).seen.len(), walk(packages, n).pending.len(),
{
    let w = walk(packages, n);
    the_walk_keeps_its_way(packages, n);
    if w.over() {
        n
    } else {
        the_walk_keeps_its_way(packages, n + 1);
        if walk(packages, n + 1).over() {
            n + 1
        } else {
            the_walk_ends(packages, n + 1)
        }
    }
}

/// The walk finds a package missing exactly if one that the kit is built from is
/// not in the lock file, and it is one of those that it finds.
pub proof fn the_first_missing_package_is_needed(packages: Seq<PackageModel>)
    ensures
        first_missing(packages) is None <==> complete(packages),
        first_missing(packages) matches Some(name) ==> needed(packages, name) && !is_locked(
            packages,
            name,
        ),
{
    let n = the_walk_ends(packages, 0);
    the_end_of_the_walk_decides(packages, n);
    the_walk_keeps_its_way(packages, n);
    if walk(packages, n).missing is None {
        a_whole_walk_visits_what_is_needed(packages, walk(packages, n));
    }
}

/// Adds what the packages of that name depend on to the list, and says whether
/// there is one.
fn push_deps(packages: &Vec<LockedPackage>, name: &str, pending: &mut Vec<String>) -> (found: bool)
    ensures
        found == is_locked(models(packages@), name@),
        models(final(pending)@) == models(old(pending)@) + deps_of(
            models(packages@),
            name@,
            packages@.len(),
        ),
{
    let ghost all = models(packages@);
    let ghost start = models(pending@);
    let mut found = false;
    let mut i: usize = 0;
    assert(start =~= start + deps_of(all, name@, 0));
    while i < packages.len()
        invariant
            i <= packages@.len(),
            all == models(packages@),
            found == (exists|k: int| 0 <= k < i && (#[trigger] all[k]).name == name@),
            models(pending@) == start + deps_of(all, name@, i as nat),
        decreases packages@.len() - i,
    {
        let p = &packages[i];
        assert(all[i as int] == p@);
        let ghost before = models(pending@);
        if str_eq(p.name.as_str(), name) {
            found = true;
            let mut j: usize = 0;
            assert(before =~= before + p@.deps.take(0));
            while j < p.deps.len()
                invariant
                    j <= p.deps@.len(),
                    models(pending@) == before + p@.deps.take(j as int),
                decreases p.deps@.len() - j,
            {
                let ghost now = models(pending@);
                let dep = p.deps[j].clone();
                let ghost shown = dep@;
                pending.push(dep);
                assert(p@.deps[j as int] == shown);
                assert(models(pending@) =~= now.push(shown));
                assert(models(pending@) =~= before + p@.deps.take(j + 1));
                j += 1;
            }
            assert(p@.deps.take(j as int) =~= p@.deps);
        }
        i += 1;
        assert(models(pending@) =~= start + deps_of(all, name@, i as nat));
    }
    found
}

/// The names of all packages that the kit is built from, each once, or the first
/// one that turns out to be missing on a walk from the kit, the dependency listed
/// last first.
pub fn needed_names(packages: &Vec<LockedPackage>) -> (result: Result<Vec<String>, String>)
    ensures
        match first_missing(models(packages@)) {
            Some(name) => result matches Err(e) && e@ == missing_complaint(name),
            None => {
                &&& result matches Ok(names)
                &&& models(names@).no_duplicates()
                &&& forall|name: Seq<char>|
                    models(names@).contains(name) <==> #[trigger] needed(models(packages@), name)
            },
        },
{
    let ghost all = models(packages@);
    let ghost mut n: nat = 0;
    let mut pending: Vec<String> = Vec::new();
    let mut seen: Vec<String> = Vec::new();
    pending.push("rutis-sdk".to_owned());
    assert(models(pending@) =~= seq!["rutis-sdk"@]);
    assert(models(seen@) =~= seq![]);
    proof {
        the_walk_keeps_its_way(all, 0);
    }
    while pending.len() > 0
        invariant
            all == models(packages@),
            walk(all, n) == (Walk {
                pending: models(pending@),
                seen: models(seen@),
                missing: None,
            }),
            seen@.len() <= all.len(),
        decreases all.len() - seen@.len(), pending@.len(),
    {
        let ghost w = walk(all, n);
        let name = match pending.pop() {
            Some(name) => name,
            None => {
                assert(false);
                String::new()
            },
        };
        proof {
            n = n + 1;
            the_walk_keeps_its_way(all, n);
            assert(w.pending.last() == name@);
            assert(models(pending@) =~= w.pending.drop_last());
        }
        if holds(&seen, name.as_str()) {
            continue;
        }
        if !push_deps(packages, name.as_str(), &mut pending) {
            proof {
                the_end_of_the_walk_decides(all, n);
            }
            return Err(joined(name.as_str(), " missing from Cargo.lock"));
        }
        let ghost shown = name@;
        seen.push(name);
        assert(models(seen@) =~= w.seen.push(shown));
    }
    proof {
        the_end_of_the_walk_decides(all, n);
        the_walk_keeps_its_way(all, n);
        a_whole_walk_visits_what_is_needed(all, walk(all, n));
    }
    Ok(seen)
}

/// The lines of all locked packages that the kit is built from, in order.
pub fn locked_sdk_tree(lock: &str) -> (result: Result<Vec<String>, String>)
    ensures
        match packages_in(lock@) {
            Err(reason) => result matches Err(e) && e@ == reason,
            Ok(packages) => match first_missing(packages) {
                Some(name) => result matches Err(e) && e@ == missing_complaint(name),
                None => result matches Ok(list) && sorting_of::<String>(
                    models(list@),
                    lines_of(packages.filter(is_needed(packages))),
                ),
            },
        },
{
    let packages = match read_lock(lock) {
        Ok(packages) => packages,
        Err(e) => {
            return Err(e);
        },
    };
    let names = match needed_names(&packages) {
        Ok(names) => names,
        Err(e) => {
            return Err(e);
        },
    };
    let ghost all = models(packages@);
    let ghost keep = is_needed(all);
    let mut lines: Vec<String> = Vec::new();
    let mut i: usize = 0;
    proof {
        crate::list::filter_empty(all, keep);
    }
    assert(models(lines@) =~= lines_of(all.subrange(0, 0).filter(keep)));
    while i < packages.len()
        invariant
            i <= packages@.len(),
            all == models(packages@),
            keep == is_needed(all),
            forall|name: Seq<char>| models(names@).contains(name) <==> #[trigger] needed(all, name),
            models(lines@) == lines_of(all.subrange(0, i as int).filter(keep)),
        decreases packages@.len() - i,
    {
        let p = &packages[i];
        assert(all[i as int] == p@);
        proof {
            crate::list::filter_step(all, i as int, keep);
        }
        let ghost kept = all.subrange(0, i as int).filter(keep);
        let ghost before = models(lines@);
        if holds(&names, p.name.as_str()) {
            assert(needed(all, p@.name));
            let mut line = joined(p.name.as_str(), " ");
            line.push_str(p.version.as_str());
            line.push_str(" ");
            line.push_str(p.source.as_str());
            line.push_str(" ");
            line.push_str(p.checksum.as_str());
            assert(line@ == p@.line());
            lines.push(line);
            assert(models(lines@) =~= before.push(p@.line()));
            assert(lines_of(kept.push(p@)) =~= lines_of(kept).push(p@.line()));
        } else {
            assert(!needed(all, p@.name));
        }
        i += 1;
    }
    proof {
        crate::list::whole(all);
    }
    Ok(sorted(lines))
}

} // verus!
