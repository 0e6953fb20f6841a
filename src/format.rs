//! The container layout: magic token, version byte, then two sections, each
//! a little-endian `u32` length followed by that many bytes.
use vstd::prelude::*;
use vstd::utf8::{encode_utf8, valid_utf8};

verus! {

/// The largest section length that the 4-byte length field can hold.
pub const MAX_SECTION_LEN: u64 = 0xFFFF_FFFF;

/// The only version this library reads and writes.
pub const FORMAT_VERSION: u8 = 1;

/// The magic token `BQMODEL` that opens every container.
pub open spec fn magic() -> Seq<u8> {
    seq![66u8, 81u8, 77u8, 79u8, 68u8, 69u8, 76u8]
}

/// The four little-endian bytes of `n`.
pub open spec fn le32(n: nat) -> Seq<u8> {
    seq![
        (n % 256) as u8,
        ((n / 256) % 256) as u8,
        ((n / 65536) % 256) as u8,
        ((n / 16777216) % 256) as u8,
    ]
}

/// The number that four little-endian bytes stand for.
pub open spec fn le32_value(b: Seq<u8>) -> nat {
    (b[0] as nat) + 256 * (b[1] as nat) + 65536 * (b[2] as nat) + 16777216 * (b[3] as nat)
}

/// Reading back the bytes of a number below 2^32 gives that number.
pub proof fn lemma_le32_value_of_le32(n: nat)
    requires
        n <= MAX_SECTION_LEN,
    ensures
        le32(n).len() == 4,
        le32_value(le32(n)) == n,
{
    let b = le32(n);
    assert(b[0] as nat == n % 256);
    assert(b[1] as nat == (n / 256) % 256);
    assert(b[2] as nat == (n / 65536) % 256);
    assert(b[3] as nat == (n / 16777216) % 256);
    assert((n % 256) + 256 * ((n / 256) % 256) + 65536 * ((n / 65536) % 256) + 16777216 * (
    (n / 16777216) % 256) == n) by (nonlinear_arith)
        requires
            n <= 0xFFFF_FFFF,
    ;
}

/// The bytes that encoding `metadata` and `artifact` gives.
pub open spec fn container(metadata: Seq<u8>, artifact: Seq<u8>) -> Seq<u8> {
    magic() + seq![FORMAT_VERSION] + le32(metadata.len()) + metadata + le32(artifact.len())
        + artifact
}

/// Why packing or unpacking a container failed.
#[derive(Clone, Copy, Debug, PartialEq, Eq, Structural)]
pub enum ContainerError {
    /// A section is longer than the 4-byte length field can hold.
    TooLarge,
    /// The buffer is shorter than the fixed header, or its magic token is wrong.
    Format,
    /// The version byte is not one this library reads; it carries that byte.
    UnsupportedVersion(u8),
    /// A declared section length runs past the end of the buffer.
    Truncated,
    /// The metadata section is not valid UTF-8.
    Encoding,
    /// The metadata text does not describe a model; reported by callers
    /// that parse the text `read_metadata` returns.
    Schema,
}

/// Appends `src` to `out`.
fn append(out: &mut Vec<u8>, src: &[u8])
    ensures
        final(out)@ == old(out)@ + src@,
{
    let mut i: usize = 0;
    while i < src.len()
        invariant
            i <= src@.len(),
            out@ == old(out)@ + src@.subrange(0, i as int),
        decreases src@.len() - i,
    {
        out.push(src[i]);
        i = i + 1;
        assert(src@.subrange(0, i as int) == src@.subrange(0, i - 1) + seq![src@[i - 1]]);
    }
    assert(src@.subrange(0, i as int) == src@);
}

/// Appends the four little-endian bytes of `n`.
fn append_le32(out: &mut Vec<u8>, n: u32)
    ensures
        final(out)@ == old(out)@ + le32(n as nat),
{
    out.push((n % 256) as u8);
    out.push(((n / 256) % 256) as u8);
    out.push(((n / 65536) % 256) as u8);
    out.push(((n / 16777216) % 256) as u8);
    assert(out@ == old(out)@ + le32(n as nat));
}

/// Packs a metadata document and a model artifact into one container:
/// magic token, version, then each section behind its length.
///
/// Fails with `TooLarge` exactly when a section does not fit a `u32` length.
pub fn encode(metadata: &[u8], artifact: &[u8]) -> (r: Result<Vec<u8>, ContainerError>)
    ensures
        r is Ok <==> (metadata@.len() <= MAX_SECTION_LEN && artifact@.len() <= MAX_SECTION_LEN),
        r matches Ok(v) ==> v@ == container(metadata@, artifact@),
        r matches Err(e) ==> e == ContainerError::TooLarge,
{
    if metadata.len() as u64 > MAX_SECTION_LEN || artifact.len() as u64 > MAX_SECTION_LEN {
        return Err(ContainerError::TooLarge);
    }
    let mut out: Vec<u8> = Vec::new();
    out.push(66u8);
    out.push(81u8);
    out.push(77u8);
    out.push(79u8);
    out.push(68u8);
    out.push(69u8);
    out.push(76u8);
    out.push(FORMAT_VERSION);
    assert(out@ == magic() + seq![FORMAT_VERSION]);
    append_le32(&mut out, metadata.len() as u32);
    append(&mut out, metadata);
    append_le32(&mut out, artifact.len() as u32);
    append(&mut out, artifact);
    Ok(out)
}

/// The length that the metadata section declares.
pub open spec fn metadata_len(b: Seq<u8>) -> nat {
    le32_value(b.subrange(8, 12))
}

/// Where the metadata section ends and the artifact length begins.
pub open spec fn metadata_end(b: Seq<u8>) -> nat {
    12 + metadata_len(b)
}

/// The bytes of the metadata section.
pub open spec fn metadata_section(b: Seq<u8>) -> Seq<u8> {
    b.subrange(12, metadata_end(b) as int)
}

/// The length that the artifact section declares.
pub open spec fn artifact_len(b: Seq<u8>) -> nat {
    le32_value(b.subrange(metadata_end(b) as int, metadata_end(b) + 4int))
}

/// Where the artifact section ends.
pub open spec fn artifact_end(b: Seq<u8>) -> nat {
    metadata_end(b) + 4 + artifact_len(b)
}

/// The bytes of the artifact section.
pub open spec fn artifact_section(b: Seq<u8>) -> Seq<u8> {
    b.subrange(metadata_end(b) + 4int, artifact_end(b) as int)
}

/// What unpacking the metadata section of `b` gives: its bytes, or the first
/// gate that `b` fails (header length, magic, version, section bounds, UTF-8).
pub open spec fn metadata_result(b: Seq<u8>) -> Result<Seq<u8>, ContainerError> {
    if b.len() < 12 || b.subrange(0, 7) != magic() {
        Err(ContainerError::Format)
    } else if b[7] != FORMAT_VERSION {
        Err(ContainerError::UnsupportedVersion(b[7]))
    } else if b.len() < metadata_end(b) {
        Err(ContainerError::Truncated)
    } else if !valid_utf8(metadata_section(b)) {
        Err(ContainerError::Encoding)
    } else {
        Ok(metadata_section(b))
    }
}

/// What unpacking all of `b` gives: the metadata and artifact sections, or
/// the first gate that `b` fails. Bytes after the artifact are ignored.
pub open spec fn decode_result(b: Seq<u8>) -> Result<(Seq<u8>, Seq<u8>), ContainerError> {
    match metadata_result(b) {
        Err(e) => Err(e),
        Ok(m) => if b.len() < metadata_end(b) + 4 || b.len() < artifact_end(b) {
            Err(ContainerError::Truncated)
        } else {
            Ok((m, artifact_section(b)))
        },
    }
}

/// A metadata document and a model artifact, unpacked from a container.
pub struct Package {
    pub metadata: String,
    pub artifact: Vec<u8>,
}

/// Relies on `String::from_utf8`: it succeeds exactly when the bytes are
/// valid UTF-8, and the string then holds those very bytes.
#[verifier::external_body]
fn utf8_text(bytes: Vec<u8>) -> (r: Option<String>)
    ensures
        r is Some <==> valid_utf8(bytes@),
        r matches Some(s) ==> encode_utf8(s@) == bytes@,
{
    String::from_utf8(bytes).ok()
}

/// Copies `buf[start..end]` into a new vector.
fn copy_range(buf: &[u8], start: usize, end: usize) -> (r: Vec<u8>)
    requires
        start <= end <= buf@.len(),
    ensures
        r@ == buf@.subrange(start as int, end as int),
{
    let mut out: Vec<u8> = Vec::new();
    let mut i: usize = start;
    while i < end
        invariant
            start <= i <= end <= buf@.len(),
            out@ == buf@.subrange(start as int, i as int),
        decreases end - i,
    {
        out.push(buf[i]);
        i = i + 1;
        assert(buf@.subrange(start as int, i as int) == buf@.subrange(start as int, i - 1) + seq![
            buf@[i - 1],
        ]);
    }
    out
}

/// Checks the header of `buf` and the bounds of its metadata section, and
/// returns where that section ends.
fn check_metadata_bounds(buf: &[u8]) -> (r: Result<usize, ContainerError>)
    ensures
        match r {
            Ok(end) => {
                &&& buf@.len() >= 12
                &&& buf@.subrange(0, 7) == magic()
                &&& buf@[7] == FORMAT_VERSION
                &&& end == metadata_end(buf@)
                &&& end <= buf@.len()
            },
            Err(e) => metadata_result(buf@) == Err::<Seq<u8>, ContainerError>(e),
        },
{
    if buf.len() < 12 {
        return Err(ContainerError::Format);
    }
    let mut i: usize = 0;
    while i < 7
        invariant
            i <= 7 <= buf@.len(),
            forall|j: int| 0 <= j < i ==> buf@[j] == magic()[j],
        decreases 7 - i,
    {
        let expected: u8 = if i == 0 {
            66u8
        } else if i == 1 {
            81u8
        } else if i == 2 {
            77u8
        } else if i == 3 {
            79u8
        } else if i == 4 {
            68u8
        } else if i == 5 {
            69u8
        } else {
            76u8
        };
        if buf[i] != expected {
            assert(buf@.subrange(0, 7)[i as int] != magic()[i as int]);
            return Err(ContainerError::Format);
        }
        i = i + 1;
    }
    assert(buf@.subrange(0, 7) == magic());
    if buf[7] != FORMAT_VERSION {
        return Err(ContainerError::UnsupportedVersion(buf[7]));
    }
    let len = read_le32(buf, 8) as usize;
    if buf.len() - 12 < len {
        return Err(ContainerError::Truncated);
    }
    Ok(12 + len)
}

/// Unpacks the metadata section of a container as text.
///
/// The gates run in order: at least 12 bytes and the magic token (`Format`),
/// the version byte (`UnsupportedVersion`), the declared metadata length
/// (`Truncated`), then UTF-8 (`Encoding`). The artifact is not looked at.
pub fn read_metadata(buf: &[u8]) -> (r: Result<String, ContainerError>)
    ensures
        match metadata_result(buf@) {
            Ok(m) => r matches Ok(s) && encode_utf8(s@) == m,
            Err(e) => r == Err::<String, ContainerError>(e),
        },
{
    let end = match check_metadata_bounds(buf) {
        Ok(end) => end,
        Err(e) => return Err(e),
    };
    let bytes = copy_range(buf, 12, end);
    match utf8_text(bytes) {
        Some(s) => Ok(s),
        None => Err(ContainerError::Encoding),
    }
}

/// Unpacks a container into its metadata text and its artifact bytes.
///
/// Fails as `read_metadata` does, then with `Truncated` where the artifact
/// length or the artifact itself runs past the end of `buf`. Bytes after the
/// artifact are ignored.
pub fn decode(buf: &[u8]) -> (r: Result<Package, ContainerError>)
    ensures
        match decode_result(buf@) {
            Ok((m, a)) => r matches Ok(p) && encode_utf8(p.metadata@) == m && p.artifact@ == a,
            Err(e) => r matches Err(f) && f == e,
        },
{
    let end = match check_metadata_bounds(buf) {
        Ok(end) => end,
        Err(e) => return Err(e),
    };
    let bytes = copy_range(buf, 12, end);
    let metadata = match utf8_text(bytes) {
        Some(s) => s,
        None => return Err(ContainerError::Encoding),
    };
    if buf.len() - end < 4 {
        return Err(ContainerError::Truncated);
    }
    let len = read_le32(buf, end) as usize;
    if buf.len() - end - 4 < len {
        return Err(ContainerError::Truncated);
    }
    let artifact = copy_range(buf, end + 4, end + 4 + len);
    Ok(Package { metadata, artifact })
}

/// Reads the little-endian `u32` that starts at `at`.
fn read_le32(buf: &[u8], at: usize) -> (r: u32)
    requires
        at + 4 <= buf@.len(),
    ensures
        r as nat == le32_value(buf@.subrange(at as int, at + 4)),
{
    let v = (buf[at] as u32) + 256 * (buf[at + 1] as u32) + 65536 * (buf[at + 2] as u32)
        + 16777216 * (buf[at + 3] as u32);
    v
}

} // verus!
