//! Finding a named section in a little-endian ELF64 file.

use vstd::prelude::*;
use vstd::slice::slice_subrange;

use crate::boot::{fields_of, read_blob, reads_as, starts_with, BootMeta, BootModel};

verus! {

/// The number in the `n` bytes at a place, the low byte first.
pub open spec fn number_at(bytes: Seq<u8>, pos: int, n: nat) -> nat
    decreases n,
{
    if n == 0 {
        0
    } else {
        bytes[pos] as nat + 256 * number_at(bytes, pos + 1, (n - 1) as nat)
    }
}

/// The number in the `n` bytes at a place, which can fail to be there or, where
/// it is an offset, be too large for the machine.
pub open spec fn word_at(bytes: Seq<u8>, pos: int, n: nat, missing: Seq<char>) -> Result<
    int,
    Seq<char>,
> {
    if pos + n > bytes.len() {
        Err(missing)
    } else if number_at(bytes, pos, n) > usize::MAX {
        Err("ELF offset too large"@)
    } else {
        Ok(number_at(bytes, pos, n) as int)
    }
}

/// The table of sections.
pub struct SectionTable {
    pub offset: usize,
    pub size: usize,
    pub count: usize,
    /// The section that holds the names.
    pub names: usize,
}

/// A section's header: where its name begins in the table of names, and where
/// its contents are in the file.
pub struct SectionHeader {
    pub name: usize,
    pub offset: usize,
    pub size: usize,
}

/// The first bytes of a file that is read here.
pub open spec fn elf64_magic() -> Seq<u8> {
    seq![0x7fu8, 0x45, 0x4c, 0x46, 2, 1]
}

pub open spec fn table_of(bytes: Seq<u8>) -> Result<SectionTable, Seq<char>> {
    if !elf64_magic().is_prefix_of(bytes) {
        Err("expected little-endian ELF64"@)
    } else {
        match word_at(bytes, 40, 8, "truncated ELF section"@) {
            Err(e) => Err(e),
            Ok(offset) => if bytes.len() < 64 {
                Err("truncated ELF header"@)
            } else {
                let size = number_at(bytes, 58, 2);
                let count = number_at(bytes, 60, 2);
                let names = number_at(bytes, 62, 2);
                if size < 64 || count == 0 || names >= count {
                    Err("unsupported ELF section table"@)
                } else {
                    Ok(
                        SectionTable {
                            offset: offset as usize,
                            size: size as usize,
                            count: count as usize,
                            names: names as usize,
                        },
                    )
                }
            },
        }
    }
}

/// Where the header of a section begins.
pub open spec fn header_place(t: SectionTable, index: int) -> int {
    t.offset + index * t.size
}

pub open spec fn header_of(bytes: Seq<u8>, t: SectionTable, index: int) -> Result<
    SectionHeader,
    Seq<char>,
> {
    let base = header_place(t, index);
    if base > usize::MAX {
        Err("ELF section overflow"@)
    } else if base + 64 > bytes.len() {
        Err("truncated ELF section table"@)
    } else {
        let name = number_at(bytes, base, 4);
        let offset = number_at(bytes, base + 24, 8);
        let size = number_at(bytes, base + 32, 8);
        if offset > usize::MAX || size > usize::MAX {
            Err("ELF offset too large"@)
        } else {
            Ok(
                SectionHeader {
                    name: name as usize,
                    offset: offset as usize,
                    size: size as usize,
                },
            )
        }
    }
}

/// The contents of a section, where they are in the file.
pub open spec fn extent(
    bytes: Seq<u8>,
    h: SectionHeader,
    overflow: Seq<char>,
    missing: Seq<char>,
) -> Result<Seq<u8>, Seq<char>> {
    if h.offset + h.size > usize::MAX {
        Err(overflow)
    } else if h.offset + h.size > bytes.len() {
        Err(missing)
    } else {
        Ok(bytes.subrange(h.offset as int, h.offset + h.size))
    }
}

/// The name that begins at a place of the table of names, up to the first zero.
pub open spec fn name_at(names: Seq<u8>, start: int) -> Result<Seq<u8>, Seq<char>> {
    if start > names.len() {
        Err("bad ELF section name"@)
    } else if !names.skip(start).contains(0) {
        Err("unterminated ELF section name"@)
    } else {
        Ok(names.skip(start).take(names.skip(start).index_of_first(0)->0))
    }
}

/// What is found among the first `n` sections: the contents of the one of that
/// name. The first thing that is wrong decides.
pub open spec fn found_among(
    bytes: Seq<u8>,
    t: SectionTable,
    names: Seq<u8>,
    wanted: Seq<u8>,
    n: nat,
) -> Result<Option<Seq<u8>>, Seq<char>>
    decreases n,
{
    if n == 0 {
        Ok(None)
    } else {
        match found_among(bytes, t, names, wanted, (n - 1) as nat) {
            Err(e) => Err(e),
            Ok(found) => match header_of(bytes, t, n - 1) {
                Err(e) => Err(e),
                Ok(h) => match name_at(names, h.name as int) {
                    Err(e) => Err(e),
                    Ok(name) => if name != wanted {
                        Ok(found)
                    } else if found is Some {
                        Err("duplicate plugin boot section"@)
                    } else {
                        match extent(
                            bytes,
                            h,
                            "ELF section overflow"@,
                            "truncated plugin boot section"@,
                        ) {
                            Err(e) => Err(e),
                            Ok(data) => Ok(Some(data)),
                        }
                    },
                },
            },
        }
    }
}

/// The contents of the section of that name.
pub open spec fn section_named(bytes: Seq<u8>, wanted: Seq<u8>) -> Result<Seq<u8>, Seq<char>> {
    match table_of(bytes) {
        Err(e) => Err(e),
        Ok(t) => match header_of(bytes, t, t.names as int) {
            Err(e) => Err(e),
            Ok(h) => match extent(
                bytes,
                h,
                "ELF name table overflow"@,
                "truncated ELF name table"@,
            ) {
                Err(e) => Err(e),
                Ok(names) => match found_among(bytes, t, names, wanted, t.count as nat) {
                    Err(e) => Err(e),
                    Ok(None) => Err("plugin boot section missing"@),
                    Ok(Some(data)) => Ok(data),
                },
            },
        },
    }
}

proof fn numbers_step(bytes: Seq<u8>, pos: int, n: nat)
    ensures
        number_at(bytes, pos, n + 1) == bytes[pos] as nat + 256 * number_at(bytes, pos + 1, n),
{
}

fn u16_at(bytes: &[u8], pos: usize) -> (value: usize)
    requires
        pos + 2 <= bytes@.len(),
    ensures
        value == number_at(bytes@, pos as int, 2),
{
    proof {
        reveal_with_fuel(number_at, 3);
    }
    bytes[pos] as usize + 256 * bytes[pos + 1] as usize
}

fn u32_at(bytes: &[u8], pos: usize) -> (value: u64)
    requires
        pos + 4 <= bytes@.len(),
    ensures
        value == number_at(bytes@, pos as int, 4) <= u32::MAX,
{
    proof {
        reveal_with_fuel(number_at, 5);
    }
    bytes[pos] as u64 + 256 * (bytes[pos + 1] as u64 + 256 * (bytes[pos + 2] as u64 + 256 * (
    bytes[pos + 3] as u64)))
}

fn u64_at(bytes: &[u8], pos: usize) -> (value: u64)
    requires
        pos + 8 <= bytes@.len(),
    ensures
        value == number_at(bytes@, pos as int, 8),
{
    assert(pos + 8 <= bytes.len());
    let low: u64 = u32_at(bytes, pos);
    let high: u64 = u32_at(bytes, pos + 4);
    proof {
        reveal_with_fuel(number_at, 5);
        numbers_step(bytes@, pos as int, 7);
        numbers_step(bytes@, pos + 1, 6);
        numbers_step(bytes@, pos + 2, 5);
        numbers_step(bytes@, pos + 3, 4);
        assert(number_at(bytes@, pos as int, 8) == low + 0x1_0000_0000 * high);
    }
    low + 0x1_0000_0000 * high
}

fn offset_at(bytes: &[u8], pos: usize) -> (result: Result<usize, String>)
    requires
        pos + 8 <= bytes@.len(),
    ensures
        if number_at(bytes@, pos as int, 8) > usize::MAX {
            result matches Err(e) && e@ == "ELF offset too large"@
        } else {
            result == Ok::<usize, String>(number_at(bytes@, pos as int, 8) as usize)
        },
{
    let value: u64 = u64_at(bytes, pos);
    if value > usize::MAX as u64 {
        return Err("ELF offset too large".to_owned());
    }
    Ok(value as usize)
}

/// The outcome of looking something up, with its text as a sequence.
pub open spec fn gives<T>(result: Result<T, String>, expected: Result<T, Seq<char>>) -> bool {
    match (result, expected) {
        (Ok(t), Ok(v)) => t == v,
        (Err(e), Err(text)) => e@ == text,
        _ => false,
    }
}

/// The same of bytes.
pub open spec fn gives_bytes(
    result: Result<&[u8], String>,
    expected: Result<Seq<u8>, Seq<char>>,
) -> bool {
    match (result, expected) {
        (Ok(t), Ok(v)) => t@ == v,
        (Err(e), Err(text)) => e@ == text,
        _ => false,
    }
}

fn section_table(bytes: &[u8]) -> (result: Result<SectionTable, String>)
    ensures
        gives(result, table_of(bytes@)),
{
    let magic: [u8; 6] = [0x7f, 0x45, 0x4c, 0x46, 2, 1];
    assert(magic@ =~= elf64_magic());
    if !starts_with(bytes, &magic) {
        return Err("expected little-endian ELF64".to_owned());
    }
    if bytes.len() < 48 {
        return Err("truncated ELF section".to_owned());
    }
    let offset: usize = match offset_at(bytes, 40) {
        Ok(offset) => offset,
        Err(e) => {
            return Err(e);
        },
    };
    if bytes.len() < 64 {
        return Err("truncated ELF header".to_owned());
    }
    let size: usize = u16_at(bytes, 58);
    let count: usize = u16_at(bytes, 60);
    let names: usize = u16_at(bytes, 62);
    if size < 64 || count == 0 || names >= count {
        return Err("unsupported ELF section table".to_owned());
    }
    Ok(SectionTable { offset, size, count, names })
}

fn section_header(bytes: &[u8], t: &SectionTable, index: usize) -> (result: Result<
    SectionHeader,
    String,
>)
    ensures
        gives(result, header_of(bytes@, *t, index as int)),
{
    assert(index * t.size >= 0) by (nonlinear_arith);
    let base: usize = match index.checked_mul(t.size) {
        Some(distance) => match t.offset.checked_add(distance) {
            Some(base) => base,
            None => {
                return Err("ELF section overflow".to_owned());
            },
        },
        None => {
            return Err("ELF section overflow".to_owned());
        },
    };
    if bytes.len() < 64 || base > bytes.len() - 64 {
        return Err("truncated ELF section table".to_owned());
    }
    let name: usize = u32_at(bytes, base) as usize;
    let offset: usize = match offset_at(bytes, base + 24) {
        Ok(offset) => offset,
        Err(e) => {
            return Err(e);
        },
    };
    let size: usize = match offset_at(bytes, base + 32) {
        Ok(size) => size,
        Err(e) => {
            return Err(e);
        },
    };
    Ok(SectionHeader { name, offset, size })
}

fn contents<'a>(bytes: &'a [u8], h: &SectionHeader, overflow: &str, missing: &str) -> (result:
    Result<&'a [u8], String>)
    ensures
        gives_bytes(result, extent(bytes@, *h, overflow@, missing@)),
{
    match h.offset.checked_add(h.size) {
        None => Err(overflow.to_owned()),
        Some(end) => if end > bytes.len() {
            Err(missing.to_owned())
        } else {
            Ok(slice_subrange(bytes, h.offset, end))
        },
    }
}

fn section_name(names: &[u8], start: usize) -> (result: Result<&[u8], String>)
    ensures
        gives_bytes(result, name_at(names@, start as int)),
{
    if start > names.len() {
        return Err("bad ELF section name".to_owned());
    }
    let ghost rest = names@.skip(start as int);
    let mut end: usize = start;
    while end < names.len()
        invariant
            start <= end <= names@.len(),
            rest == names@.skip(start as int),
            forall|i: int| 0 <= i < end - start ==> rest[i] != 0,
        decreases names@.len() - end,
    {
        assert(rest[end - start] == names@[end as int]);
        if names[end] == 0 {
            proof {
                assert(rest.contains(0)) by {
                    assert(rest[end - start] == 0);
                }
                rest.index_of_first_ensures(0);
                assert(rest.index_of_first(0) == Some((end - start) as int));
                assert(rest.take((end - start) as int) =~= names@.subrange(
                    start as int,
                    end as int,
                ));
            }
            return Ok(slice_subrange(names, start, end));
        }
        end += 1;
    }
    assert(!rest.contains(0));
    Err("unterminated ELF section name".to_owned())
}

/// The section of that name.
pub fn elf_section<'a>(bytes: &'a [u8], wanted: &[u8]) -> (result: Result<&'a [u8], String>)
    ensures
        gives_bytes(result, section_named(bytes@, wanted@)),
{
    let t = match section_table(bytes) {
        Ok(t) => t,
        Err(e) => {
            return Err(e);
        },
    };
    let names_header = match section_header(bytes, &t, t.names) {
        Ok(h) => h,
        Err(e) => {
            return Err(e);
        },
    };
    let names = match contents(
        bytes,
        &names_header,
        "ELF name table overflow",
        "truncated ELF name table",
    ) {
        Ok(names) => names,
        Err(e) => {
            return Err(e);
        },
    };
    let mut found: Option<&'a [u8]> = None;
    let mut index: usize = 0;
    while index < t.count
        invariant
            index <= t.count,
            table_of(bytes@) == Ok::<SectionTable, Seq<char>>(t),
            header_of(bytes@, t, t.names as int) == Ok::<SectionHeader, Seq<char>>(names_header),
            extent(
                bytes@,
                names_header,
                "ELF name table overflow"@,
                "truncated ELF name table"@,
            ) == Ok::<Seq<u8>, Seq<char>>(names@),
            found_among(bytes@, t, names@, wanted@, index as nat) == Ok::<
                Option<Seq<u8>>,
                Seq<char>,
            >(
                match found {
                    Some(data) => Some(data@),
                    None => None,
                },
            ),
        decreases t.count - index,
    {
        proof {
            errors_persist(bytes@, t, names@, wanted@, (index + 1) as nat, t.count as nat);
        }
        let h = match section_header(bytes, &t, index) {
            Ok(h) => h,
            Err(e) => {
                return Err(e);
            },
        };
        let name = match section_name(names, h.name) {
            Ok(name) => name,
            Err(e) => {
                return Err(e);
            },
        };
        if name.len() == wanted.len() && starts_with(name, wanted) {
            assert(name@ =~= wanted@);
            if found.is_some() {
                return Err("duplicate plugin boot section".to_owned());
            }
            match contents(
                bytes,
                &h,
                "ELF section overflow",
                "truncated plugin boot section",
            ) {
                Ok(data) => {
                    found = Some(data);
                },
                Err(e) => {
                    return Err(e);
                },
            }
        } else {
            assert(name@ != wanted@) by {
                if name@ == wanted@ {
                    assert(wanted@.is_prefix_of(name@)) by {
                        assert(name@.subrange(0, wanted@.len() as int) =~= wanted@);
                    }
                }
            }
        }
        index += 1;
    }
    match found {
        Some(data) => Ok(data),
        None => Err("plugin boot section missing".to_owned()),
    }
}

proof fn errors_persist(
    bytes: Seq<u8>,
    t: SectionTable,
    names: Seq<u8>,
    wanted: Seq<u8>,
    n: nat,
    m: nat,
)
    requires
        n <= m,
    ensures
        found_among(bytes, t, names, wanted, n) is Err ==> found_among(bytes, t, names, wanted, m)
            == found_among(bytes, t, names, wanted, n),
    decreases m,
{
    if n < m {
        errors_persist(bytes, t, names, wanted, n, (m - 1) as nat);
    }
}

/// The blob of the library in a file.
pub open spec fn boot_of(bytes: Seq<u8>) -> Result<BootModel, Seq<char>> {
    match section_named(bytes, vstd::utf8::encode_utf8(".note.rutis.meta"@)) {
        Err(e) => Err(e),
        Ok(blob) => fields_of(blob),
    }
}

/// Reads the blob of the library in a file. The compiler embeds another copy of
/// it elsewhere, so that only its section tells it.
pub fn parse_boot(bytes: &[u8]) -> (result: Result<BootMeta, String>)
    ensures
        reads_as(result, boot_of(bytes@)),
{
    match elf_section(bytes, ".note.rutis.meta".as_bytes()) {
        Ok(blob) => read_blob(blob),
        Err(e) => Err(e),
    }
}

/// A section among the first `n` has that name.
pub open spec fn is_named(
    bytes: Seq<u8>,
    t: SectionTable,
    names: Seq<u8>,
    wanted: Seq<u8>,
    i: int,
) -> bool {
    header_of(bytes, t, i) matches Ok(h) && name_at(names, h.name as int) == Ok::<
        Seq<u8>,
        Seq<char>,
    >(wanted)
}

proof fn found_is_named(
    bytes: Seq<u8>,
    t: SectionTable,
    names: Seq<u8>,
    wanted: Seq<u8>,
    n: nat,
)
    ensures
        match found_among(bytes, t, names, wanted, n) {
            Ok(None) => forall|i: int| 0 <= i < n ==> !is_named(bytes, t, names, wanted, i),
            Ok(Some(data)) => exists|i: int|
                {
                    &&& 0 <= i < n
                    &&& #[trigger] is_named(bytes, t, names, wanted, i)
                    &&& data == bytes.subrange(
                        header_of(bytes, t, i)->Ok_0.offset as int,
                        header_of(bytes, t, i)->Ok_0.offset + header_of(bytes, t, i)->Ok_0.size,
                    )
                    &&& forall|j: int|
                        0 <= j < n && j != i ==> !is_named(bytes, t, names, wanted, j)
                },
            Err(_) => true,
        },
    decreases n,
{
    if n > 0 {
        found_is_named(bytes, t, names, wanted, (n - 1) as nat);
        if found_among(bytes, t, names, wanted, n) is Ok {
            let before = found_among(bytes, t, names, wanted, (n - 1) as nat);
            if is_named(bytes, t, names, wanted, n - 1) {
                assert(before == Ok::<Option<Seq<u8>>, Seq<char>>(None));
            } else if before->Ok_0 is Some {
                let i = choose|i: int|
                    {
                        &&& 0 <= i < n - 1
                        &&& #[trigger] is_named(bytes, t, names, wanted, i)
                        &&& before->Ok_0->0 == bytes.subrange(
                            header_of(bytes, t, i)->Ok_0.offset as int,
                            header_of(bytes, t, i)->Ok_0.offset + header_of(
                                bytes,
                                t,
                                i,
                            )->Ok_0.size,
                        )
                        &&& forall|j: int|
                            0 <= j < n - 1 && j != i ==> !is_named(bytes, t, names, wanted, j)
                    };
                assert(is_named(bytes, t, names, wanted, i));
            }
        }
    }
}

/// What is found is the contents of the only section of that name in the file.
pub proof fn the_section_found_is_the_only_one(bytes: Seq<u8>, wanted: Seq<u8>)
    requires
        section_named(bytes, wanted) is Ok,
    ensures
        ({
            let t = table_of(bytes)->Ok_0;
            let h = header_of(bytes, t, t.names as int)->Ok_0;
            let names = bytes.subrange(h.offset as int, h.offset + h.size);
            exists|i: int|
                {
                    &&& 0 <= i < t.count
                    &&& #[trigger] is_named(bytes, t, names, wanted, i)
                    &&& section_named(bytes, wanted)->Ok_0 == bytes.subrange(
                        header_of(bytes, t, i)->Ok_0.offset as int,
                        header_of(bytes, t, i)->Ok_0.offset + header_of(bytes, t, i)->Ok_0.size,
                    )
                    &&& forall|j: int|
                        0 <= j < t.count && j != i ==> !is_named(bytes, t, names, wanted, j)
                }
        }),
{
    let t = table_of(bytes)->Ok_0;
    let h = header_of(bytes, t, t.names as int)->Ok_0;
    let names = bytes.subrange(h.offset as int, h.offset + h.size);
    found_is_named(bytes, t, names, wanted, t.count as nat);
}

} // verus!
