//! The identity blob that a plugin library carries, and what the loaded kit says
//! of itself.

use vstd::prelude::*;
use vstd::slice::slice_subrange;
use vstd::string::StringSliceAdditionalSpecFns;
use vstd::utf8::{decode_utf8, encode_utf8, is_ascii_chars, valid_utf8};

verus! {

/// The first bytes of the blob.
pub const BOOT_MAGIC: &'static str = "RUTIS_PLUGIN_BOOT_V1\0";

pub const BOOT_SIZE: usize = 512;

/// The identity of the kit that host and plugins are linked against.
pub struct SdkIdentity {
    pub id: String,
    pub version: String,
    pub rustc: String,
    pub target: String,
}

/// What a loaded plugin says of itself.
#[derive(Clone, Debug)]
pub struct PluginMeta {
    pub sdk_id: &'static str,
    pub sdk_artifact_sha256: &'static str,
    pub id: &'static str,
    pub version: &'static str,
}

/// The fields of the blob.
#[derive(Debug)]
pub struct BootMeta {
    pub sdk_id: String,
    pub sdk_artifact: String,
    pub id: String,
    pub version: String,
}

/// A digit of a hash in its written form.
pub open spec fn is_hash_digit(c: char) -> bool {
    '0' <= c <= '9' || 'a' <= c <= 'f'
}

/// A SHA-256 hash in its written form: 64 hexadecimal digits in lower case.
pub open spec fn is_hash_text(text: Seq<char>) -> bool {
    text.len() == 64 && forall|i: int| 0 <= i < text.len() ==> is_hash_digit(#[trigger] text[i])
}

/// The identity of the kit that is loaded: a hash in its written form, where the
/// kit was given one.
pub fn loaded_sdk_id(sdk: &SdkIdentity) -> (id: &str)
    ensures
        id@ == sdk.id@,
        is_hash_text(sdk.id@) ==> is_hash_text(id@),
{
    sdk.id.as_str()
}

/// Writes the kit's identity into the buffer, where it fits, and says how long
/// it is.
pub fn rutis_sdk_boot_id(sdk: &SdkIdentity, buf: &mut Vec<u8>) -> (len: usize)
    ensures
        len == encode_utf8(sdk.id@).len(),
        final(buf)@ == (if len <= old(buf)@.len() {
            encode_utf8(sdk.id@) + old(buf)@.skip(len as int)
        } else {
            old(buf)@
        }),
{
    let bytes = sdk.id.as_str().as_bytes();
    let ghost before = buf@;
    if buf.len() >= bytes.len() {
        let mut i: usize = 0;
        while i < bytes.len()
            invariant
                i <= bytes@.len() <= before.len(),
                buf@ == bytes@.take(i as int) + before.skip(i as int),
            decreases bytes@.len() - i,
        {
            buf.set(i, bytes[i]);
            i += 1;
            assert(buf@ =~= bytes@.take(i as int) + before.skip(i as int));
        }
        assert(bytes@.take(i as int) =~= bytes@);
    }
    bytes.len()
}

pub fn is_sha256(value: &str) -> (yes: bool)
    ensures
        yes == is_hash_text(value@),
{
    if !value.is_ascii() {
        proof {
            if is_hash_text(value@) {
                assert(is_ascii_chars(value@));
            }
        }
        return false;
    }
    let bytes = value.as_bytes();
    assert(bytes@ =~= Seq::new(value@.len(), |i: int| value@[i] as u8));
    if bytes.len() != 64 {
        return false;
    }
    let mut i: usize = 0;
    while i < bytes.len()
        invariant
            bytes@.len() == 64,
            is_ascii_chars(value@),
            bytes@ == Seq::new(value@.len(), |i: int| value@[i] as u8),
            forall|j: int| 0 <= j < i ==> is_hash_digit(#[trigger] value@[j]),
        decreases bytes@.len() - i,
    {
        let b: u8 = bytes[i];
        assert(b == value@[i as int] as u8);
        if !((b >= 48 && b <= 57) || (b >= 97 && b <= 102)) {
            assert(!is_hash_digit(value@[i as int]));
            return false;
        }
        i += 1;
    }
    true
}

/// A length in two bytes, the low one first.
pub open spec fn le16(n: nat) -> Seq<u8> {
    seq![(n % 256) as u8, (n / 256) as u8]
}

/// A text with its length before it.
pub open spec fn framed(text: Seq<char>) -> Seq<u8> {
    le16(encode_utf8(text).len()) + encode_utf8(text)
}

/// The blob up to the padding.
pub open spec fn boot_fields(
    sdk_id: Seq<char>,
    artifact: Seq<char>,
    id: Seq<char>,
    version: Seq<char>,
) -> Seq<u8> {
    BOOT_MAGIC.spec_bytes() + framed(sdk_id) + framed(artifact) + framed(id) + framed(version)
}

/// How many bytes the blob takes up to the padding: the magic, four lengths and
/// the texts.
pub open spec fn boot_len(
    sdk_id: Seq<char>,
    artifact: Seq<char>,
    id: Seq<char>,
    version: Seq<char>,
) -> nat {
    21 + 8 + encode_utf8(sdk_id).len() + encode_utf8(artifact).len() + encode_utf8(id).len()
        + encode_utf8(version).len()
}

proof fn boot_len_is_exact(
    sdk_id: Seq<char>,
    artifact: Seq<char>,
    id: Seq<char>,
    version: Seq<char>,
)
    ensures
        boot_fields(sdk_id, artifact, id, version).len() == boot_len(sdk_id, artifact, id, version),
{
    reveal_strlit("RUTIS_PLUGIN_BOOT_V1\0");
    assert(is_ascii_chars(BOOT_MAGIC@));
    vstd::utf8::is_ascii_chars_encode_utf8(BOOT_MAGIC@);
}

/// The bytes, followed by zeros up to the size of a blob.
pub open spec fn padded(bytes: Seq<u8>) -> Seq<u8> {
    bytes + Seq::new((BOOT_SIZE - bytes.len()) as nat, |i: int| 0u8)
}

fn append(out: &mut Vec<u8>, text: &str)
    requires
        old(out)@.len() + framed(text@).len() <= BOOT_SIZE,
    ensures
        final(out)@ == old(out)@ + framed(text@),
{
    let bytes = text.as_bytes();
    let len: usize = bytes.len();
    let ghost before = out@;
    let low: u8 = (len % 256) as u8;
    let high: u8 = (len / 256) as u8;
    out.push(low);
    out.push(high);
    assert(out@ =~= before + le16(len as nat));
    let mut i: usize = 0;
    while i < len
        invariant
            i <= len == bytes@.len(),
            out@ == before + le16(len as nat) + bytes@.take(i as int),
        decreases len - i,
    {
        out.push(bytes[i]);
        i += 1;
        assert(out@ =~= before + le16(len as nat) + bytes@.take(i as int));
    }
    assert(bytes@.take(len as int) =~= bytes@);
    assert(out@ =~= before + framed(text@));
}

/// The blob of a plugin.
pub fn boot_meta(sdk_id: &str, artifact: &str, id: &str, version: &str) -> (out: Vec<u8>)
    requires
        boot_len(sdk_id@, artifact@, id@, version@) <= BOOT_SIZE,
    ensures
        out@ == padded(boot_fields(sdk_id@, artifact@, id@, version@)),
        out@.len() == BOOT_SIZE,
{
    proof {
        boot_len_is_exact(sdk_id@, artifact@, id@, version@);
    }
    let mut out: Vec<u8> = Vec::new();
    let magic = BOOT_MAGIC.as_bytes();
    let mut i: usize = 0;
    while i < magic.len()
        invariant
            i <= magic@.len(),
            out@ == magic@.take(i as int),
        decreases magic@.len() - i,
    {
        out.push(magic[i]);
        i += 1;
        assert(out@ =~= magic@.take(i as int));
    }
    assert(magic@.take(i as int) =~= magic@);
    append(&mut out, sdk_id);
    append(&mut out, artifact);
    append(&mut out, id);
    append(&mut out, version);
    let ghost fields = out@;
    while out.len() < BOOT_SIZE
        invariant
            fields.len() <= out@.len() <= BOOT_SIZE,
            out@ == fields + Seq::new((out@.len() - fields.len()) as nat, |i: int| 0u8),
        decreases BOOT_SIZE - out@.len(),
    {
        out.push(0);
        assert(out@ =~= fields + Seq::new((out@.len() - fields.len()) as nat, |i: int| 0u8));
    }
    out
}

/// What `std::str::from_utf8` says against bytes that are not UTF-8.
pub uninterp spec fn utf8_complaint(bytes: Seq<u8>) -> Seq<char>;

/// `std::str::from_utf8`: the text that the bytes encode, where they are UTF-8,
/// and the message of its error elsewhere.
#[verifier::external_body]
fn utf8_text(bytes: &[u8]) -> (result: Result<String, String>)
    ensures
        result is Ok <==> valid_utf8(bytes@),
        result matches Ok(text) ==> text@ == decode_utf8(bytes@),
        result matches Err(message) ==> message@ == utf8_complaint(bytes@),
{
    std::str::from_utf8(bytes).map(str::to_string).map_err(|e| e.to_string())
}

/// The length written at a place.
pub open spec fn length_at(blob: Seq<u8>, pos: int) -> int {
    blob[pos] + 256 * blob[pos + 1]
}

/// The field at a place of a blob, and the place after it; or what is wrong with
/// it.
pub open spec fn field_at(blob: Seq<u8>, pos: int) -> Result<(Seq<char>, int), Seq<char>> {
    if pos + 2 > blob.len() {
        Err("truncated boot field length"@)
    } else {
        let end = pos + 2 + length_at(blob, pos);
        if end > blob.len() {
            Err("truncated boot field"@)
        } else if !valid_utf8(blob.subrange(pos + 2, end)) {
            Err(utf8_complaint(blob.subrange(pos + 2, end)))
        } else {
            Ok((decode_utf8(blob.subrange(pos + 2, end)), end))
        }
    }
}

/// The texts of the four fields.
pub struct BootModel {
    pub sdk_id: Seq<char>,
    pub sdk_artifact: Seq<char>,
    pub id: Seq<char>,
    pub version: Seq<char>,
}

impl View for BootMeta {
    type V = BootModel;

    open spec fn view(&self) -> BootModel {
        BootModel {
            sdk_id: self.sdk_id@,
            sdk_artifact: self.sdk_artifact@,
            id: self.id@,
            version: self.version@,
        }
    }
}

/// The fields of a blob, or what is wrong with the first one that is wrong.
pub open spec fn fields_of(blob: Seq<u8>) -> Result<BootModel, Seq<char>> {
    let magic = BOOT_MAGIC.spec_bytes();
    if blob.len() != BOOT_SIZE || !magic.is_prefix_of(blob) {
        Err("invalid plugin boot section"@)
    } else {
        match field_at(blob, magic.len() as int) {
            Err(e) => Err(e),
            Ok((sdk_id, second)) => match field_at(blob, second) {
                Err(e) => Err(e),
                Ok((sdk_artifact, third)) => match field_at(blob, third) {
                    Err(e) => Err(e),
                    Ok((id, fourth)) => match field_at(blob, fourth) {
                        Err(e) => Err(e),
                        Ok((version, _)) => Ok(BootModel { sdk_id, sdk_artifact, id, version }),
                    },
                },
            },
        }
    }
}

/// The outcome of reading, with its text as a sequence.
pub open spec fn reads_as<T: View>(
    result: Result<T, String>,
    expected: Result<T::V, Seq<char>>,
) -> bool {
    match (result, expected) {
        (Ok(t), Ok(v)) => t@ == v,
        (Err(e), Err(text)) => e@ == text,
        _ => false,
    }
}

fn read_field(blob: &[u8], pos: usize) -> (result: Result<(String, usize), String>)
    requires
        pos <= blob@.len() == BOOT_SIZE,
    ensures
        match (result, field_at(blob@, pos as int)) {
            (Ok((text, next)), Ok((expected, end))) => text@ == expected && next == end <= blob@.len(),
            (Err(e), Err(text)) => e@ == text,
            _ => false,
        },
{
    if pos + 2 > blob.len() {
        return Err("truncated boot field length".to_owned());
    }
    let len: usize = blob[pos] as usize + 256 * blob[pos + 1] as usize;
    let start: usize = pos + 2;
    if start + len > blob.len() {
        return Err("truncated boot field".to_owned());
    }
    match utf8_text(slice_subrange(blob, start, start + len)) {
        Ok(text) => Ok((text, start + len)),
        Err(e) => Err(e),
    }
}

/// Reads a blob.
pub fn read_blob(blob: &[u8]) -> (result: Result<BootMeta, String>)
    ensures
        reads_as(result, fields_of(blob@)),
{
    let magic = BOOT_MAGIC.as_bytes();
    if blob.len() != BOOT_SIZE || !starts_with(blob, magic) {
        return Err("invalid plugin boot section".to_owned());
    }
    let (sdk_id, second) = match read_field(blob, magic.len()) {
        Ok(read) => read,
        Err(e) => {
            return Err(e);
        },
    };
    let (sdk_artifact, third) = match read_field(blob, second) {
        Ok(read) => read,
        Err(e) => {
            return Err(e);
        },
    };
    let (id, fourth) = match read_field(blob, third) {
        Ok(read) => read,
        Err(e) => {
            return Err(e);
        },
    };
    let (version, _) = match read_field(blob, fourth) {
        Ok(read) => read,
        Err(e) => {
            return Err(e);
        },
    };
    Ok(BootMeta { sdk_id, sdk_artifact, id, version })
}

/// The bytes begin with the prefix.
pub fn starts_with(bytes: &[u8], prefix: &[u8]) -> (yes: bool)
    ensures
        yes == prefix@.is_prefix_of(bytes@),
{
    if prefix.len() > bytes.len() {
        return false;
    }
    let mut i: usize = 0;
    while i < prefix.len()
        invariant
            prefix@.len() <= bytes@.len(),
            forall|j: int| 0 <= j < i ==> prefix@[j] == bytes@[j],
        decreases prefix@.len() - i,
    {
        if prefix[i] != bytes[i] {
            assert(prefix@ != bytes@.subrange(0, prefix@.len() as int)) by {
                assert(prefix@[i as int] != bytes@.subrange(0, prefix@.len() as int)[i as int]);
            }
            return false;
        }
        i += 1;
    }
    assert(prefix@ =~= bytes@.subrange(0, prefix@.len() as int));
    true
}

proof fn frames_read_back(blob: Seq<u8>, pos: int, text: Seq<char>)
    requires
        0 <= pos,
        pos + framed(text).len() <= blob.len() == BOOT_SIZE,
        blob.subrange(pos, pos + framed(text).len()) == framed(text),
    ensures
        field_at(blob, pos) == Ok::<(Seq<char>, int), Seq<char>>(
            (text, pos + framed(text).len()),
        ),
{
    let bytes = encode_utf8(text);
    let n = bytes.len();
    let frame = blob.subrange(pos, pos + framed(text).len());
    assert(framed(text).len() == 2 + n);
    assert(blob[pos] == frame[0] == (n % 256) as u8);
    assert(blob[pos + 1] == frame[1] == (n / 256) as u8);
    assert(length_at(blob, pos) == n);
    assert(blob.subrange(pos + 2, pos + 2 + n) =~= bytes) by {
        assert forall|i: int| 0 <= i < n implies blob.subrange(pos + 2, pos + 2 + n)[i]
            == bytes[i] by {
            assert(frame[2 + i] == framed(text)[2 + i]);
        }
    }
    vstd::utf8::encode_utf8_valid_utf8(text);
    vstd::utf8::encode_utf8_decode_utf8(text);
}

/// A blob is read back as the four texts that it was made from.
pub proof fn blobs_read_back(
    sdk_id: Seq<char>,
    artifact: Seq<char>,
    id: Seq<char>,
    version: Seq<char>,
)
    requires
        boot_len(sdk_id, artifact, id, version) <= BOOT_SIZE,
    ensures
        fields_of(padded(boot_fields(sdk_id, artifact, id, version))) == Ok::<
            BootModel,
            Seq<char>,
        >(BootModel { sdk_id, sdk_artifact: artifact, id, version }),
{
    boot_len_is_exact(sdk_id, artifact, id, version);
    let magic = BOOT_MAGIC.spec_bytes();
    let blob = padded(boot_fields(sdk_id, artifact, id, version));
    let first = magic.len() as int;
    let second = first + framed(sdk_id).len();
    let third = second + framed(artifact).len();
    let fourth = third + framed(id).len();
    assert(blob.len() == BOOT_SIZE);
    assert(blob.subrange(0, first) =~= magic);
    assert(blob.subrange(first, second) =~= framed(sdk_id));
    assert(blob.subrange(second, third) =~= framed(artifact));
    assert(blob.subrange(third, fourth) =~= framed(id));
    assert(blob.subrange(fourth, fourth + framed(version).len()) =~= framed(version));
    frames_read_back(blob, first, sdk_id);
    frames_read_back(blob, second, artifact);
    frames_read_back(blob, third, id);
    frames_read_back(blob, fourth, version);
}

} // verus!
