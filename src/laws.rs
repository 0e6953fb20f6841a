//! What holds of encoding and decoding taken together.
use vstd::prelude::*;
use vstd::utf8::valid_utf8;

use crate::format::{
    artifact_end, artifact_len, artifact_section, container, decode_result, le32, magic,
    metadata_end, metadata_len, metadata_result, metadata_section, lemma_le32_value_of_le32,
    ContainerError, FORMAT_VERSION, MAX_SECTION_LEN,
};

verus! {

/// Where each field of an encoded container stands, as the decoder reads it.
proof fn lemma_container_fields(m: Seq<u8>, a: Seq<u8>)
    requires
        m.len() <= MAX_SECTION_LEN,
        a.len() <= MAX_SECTION_LEN,
    ensures
        ({
            let c = container(m, a);
            &&& c.len() == 16 + m.len() + a.len()
            &&& c.subrange(0, 7) == magic()
            &&& c[7] == FORMAT_VERSION
            &&& metadata_len(c) == m.len()
            &&& metadata_end(c) == 12 + m.len()
            &&& metadata_section(c) == m
            &&& artifact_len(c) == a.len()
            &&& artifact_end(c) == c.len()
            &&& artifact_section(c) == a
        }),
{
    let c = container(m, a);
    lemma_le32_value_of_le32(m.len());
    lemma_le32_value_of_le32(a.len());
    assert(c.subrange(0, 7) == magic());
    assert(c.subrange(8, 12) == le32(m.len()));
    assert(metadata_section(c) == m);
    let e = 12 + m.len();
    assert(c.subrange(e as int, e + 4int) == le32(a.len()));
    assert(artifact_section(c) == a);
}

/// Decoding what `encode` made of a UTF-8 metadata document and any artifact
/// gives back both, byte for byte.
pub proof fn lemma_round_trip(m: Seq<u8>, a: Seq<u8>)
    requires
        valid_utf8(m),
        m.len() <= MAX_SECTION_LEN,
        a.len() <= MAX_SECTION_LEN,
    ensures
        decode_result(container(m, a)) == Ok::<(Seq<u8>, Seq<u8>), ContainerError>((m, a)),
        metadata_result(container(m, a)) == Ok::<Seq<u8>, ContainerError>(m),
{
    lemma_container_fields(m, a);
}

/// A buffer that does not open with the magic token is refused as not being
/// a container, whatever follows.
pub proof fn lemma_magic_rejected(b: Seq<u8>)
    requires
        b.len() < 7 || b.subrange(0, 7) != magic(),
    ensures
        metadata_result(b) == Err::<Seq<u8>, ContainerError>(ContainerError::Format),
        decode_result(b) == Err::<(Seq<u8>, Seq<u8>), ContainerError>(ContainerError::Format),
{
}

/// A full header with the right magic token but another version byte is
/// refused for its version, which the error carries, whatever follows.
pub proof fn lemma_version_rejected(b: Seq<u8>)
    requires
        b.len() >= 12,
        b.subrange(0, 7) == magic(),
        b[7] != FORMAT_VERSION,
    ensures
        metadata_result(b) == Err::<Seq<u8>, ContainerError>(
            ContainerError::UnsupportedVersion(b[7]),
        ),
        decode_result(b) == Err::<(Seq<u8>, Seq<u8>), ContainerError>(
            ContainerError::UnsupportedVersion(b[7]),
        ),
{
}

/// Cutting an encoded container anywhere before its end makes decoding fail
/// with `Format` or `Truncated`, never succeed.
pub proof fn lemma_truncation_detected(m: Seq<u8>, a: Seq<u8>, k: nat)
    requires
        valid_utf8(m),
        m.len() <= MAX_SECTION_LEN,
        a.len() <= MAX_SECTION_LEN,
        k < container(m, a).len(),
    ensures
        decode_result(container(m, a).subrange(0, k as int)) == Err::<
            (Seq<u8>, Seq<u8>),
            ContainerError,
        >(ContainerError::Format) || decode_result(container(m, a).subrange(0, k as int))
            == Err::<(Seq<u8>, Seq<u8>), ContainerError>(ContainerError::Truncated),
{
    let c = container(m, a);
    let t = c.subrange(0, k as int);
    lemma_container_fields(m, a);
    if k >= 12 {
        assert(t.subrange(0, 7) == c.subrange(0, 7));
        assert(t[7] == c[7]);
        assert(t.subrange(8, 12) == c.subrange(8, 12));
        assert(metadata_len(t) == m.len());
        if k >= 12 + m.len() {
            assert(metadata_section(t) == metadata_section(c));
            if k >= 16 + m.len() {
                let e = 12 + m.len();
                assert(t.subrange(e as int, e + 4int) == c.subrange(e as int, e + 4int));
                assert(artifact_len(t) == a.len());
            }
        }
    }
}

/// Bytes appended after a container that decodes are ignored: decoding gives
/// the same metadata and artifact.
pub proof fn lemma_trailing_bytes_ignored(b: Seq<u8>, extra: Seq<u8>)
    requires
        decode_result(b) is Ok,
    ensures
        decode_result(b + extra) == decode_result(b),
{
    let c = b + extra;
    assert(c.subrange(0, 7) == b.subrange(0, 7));
    assert(c[7] == b[7]);
    assert(c.subrange(8, 12) == b.subrange(8, 12));
    assert(metadata_section(c) == metadata_section(b));
    let e = metadata_end(b);
    assert(c.subrange(e as int, e + 4int) == b.subrange(e as int, e + 4int));
    assert(artifact_section(c) == artifact_section(b));
}

/// An empty artifact is written with a zero length field and decodes back
/// to an empty artifact, not to an error.
pub proof fn lemma_empty_artifact(m: Seq<u8>)
    requires
        valid_utf8(m),
        m.len() <= MAX_SECTION_LEN,
    ensures
        artifact_len(container(m, Seq::<u8>::empty())) == 0,
        container(m, Seq::<u8>::empty()).subrange(
            12 + m.len() as int,
            16 + m.len() as int,
        ) == seq![0u8, 0u8, 0u8, 0u8],
        decode_result(container(m, Seq::<u8>::empty())) == Ok::<(Seq<u8>, Seq<u8>), ContainerError>(
            (m, Seq::<u8>::empty()),
        ),
{
    let c = container(m, Seq::<u8>::empty());
    lemma_container_fields(m, Seq::<u8>::empty());
    assert(c.subrange(12 + m.len() as int, 16 + m.len() as int) == le32(0));
}

} // verus!
