use bqmodel::format::{decode, encode, read_metadata, ContainerError};

const SAMPLE_JSON: &str = "{\"name\":\"m\",\"version\":1.0,\"input_width\":224,\"input_height\":224,\"description\":\"d\",\"color_code\":\"#fff\",\"task\":\"classification\",\"post_processing\":[\"softmax\"],\"classes\":[\"cat\",\"dog\"]}";

fn sample_container() -> Vec<u8> {
    encode(SAMPLE_JSON.as_bytes(), &[0xDE, 0xAD, 0xBE, 0xEF]).unwrap()
}

#[test]
fn encode_lays_out_the_sample() {
    let out = sample_container();
    let json = SAMPLE_JSON.as_bytes();
    let n = json.len();
    assert_eq!(&out[..8], b"BQMODEL\x01");
    assert_eq!(&out[8..12], &(n as u32).to_le_bytes());
    assert_eq!(&out[12..12 + n], json);
    assert_eq!(&out[12 + n..16 + n], &[4, 0, 0, 0]);
    assert_eq!(&out[16 + n..], &[0xDE, 0xAD, 0xBE, 0xEF]);
    assert_eq!(out.len(), 20 + n);
}

#[test]
fn decode_reproduces_the_sample() {
    let p = decode(&sample_container()).unwrap();
    assert_eq!(p.artifact, vec![0xDE, 0xAD, 0xBE, 0xEF]);
    assert_eq!(p.metadata, SAMPLE_JSON);
    let doc: serde_json::Value = serde_json::from_str(&p.metadata).unwrap();
    let classes: Vec<&str> = doc["classes"]
        .as_array()
        .unwrap()
        .iter()
        .map(|c| c.as_str().unwrap())
        .collect();
    assert_eq!(classes, vec!["cat", "dog"]);
}

#[test]
fn encode_exact_bytes_of_small_input() {
    let out = encode(b"ab", &[7]).unwrap();
    assert_eq!(
        out,
        vec![b'B', b'Q', b'M', b'O', b'D', b'E', b'L', 1, 2, 0, 0, 0, b'a', b'b', 1, 0, 0, 0, 7]
    );
}

#[test]
fn round_trip_keeps_both_sections() {
    let meta = "{\"k\":\"värde ✓\"}";
    let artifact: Vec<u8> = (0..=255u8).chain(0..=255u8).collect();
    let out = encode(meta.as_bytes(), &artifact).unwrap();
    let p = decode(&out).unwrap();
    assert_eq!(p.metadata, meta);
    assert_eq!(p.artifact, artifact);
    assert_eq!(read_metadata(&out).unwrap(), meta);
}

#[test]
fn length_field_above_one_byte() {
    let artifact = vec![9u8; 70000];
    let out = encode(b"{}", &artifact).unwrap();
    assert_eq!(&out[14..18], &[0x70, 0x11, 0x01, 0x00]);
    assert_eq!(decode(&out).unwrap().artifact, artifact);
}

#[test]
fn empty_artifact_round_trips() {
    let out = encode(b"{}", &[]).unwrap();
    assert_eq!(&out[14..18], &[0, 0, 0, 0]);
    assert_eq!(out.len(), 18);
    let p = decode(&out).unwrap();
    assert!(p.artifact.is_empty());
    assert_eq!(p.metadata, "{}");
}

#[test]
fn empty_sections_round_trip() {
    let out = encode(&[], &[]).unwrap();
    assert_eq!(out.len(), 16);
    let p = decode(&out).unwrap();
    assert_eq!(p.metadata, "");
    assert!(p.artifact.is_empty());
}

#[test]
fn wrong_magic_is_a_format_error() {
    let mut out = sample_container();
    out[0] = b'b';
    assert_eq!(decode(&out).err(), Some(ContainerError::Format));
    let mut out = sample_container();
    out[6] = b'X';
    assert_eq!(decode(&out).err(), Some(ContainerError::Format));
    assert_eq!(read_metadata(&out).err(), Some(ContainerError::Format));
    assert_eq!(decode(b"NOTAMODEL\x01\x00\x00\x00\x00").err(), Some(ContainerError::Format));
}

#[test]
fn short_buffer_is_a_format_error() {
    assert_eq!(decode(&[]).err(), Some(ContainerError::Format));
    assert_eq!(decode(b"BQMODEL\x01\x00\x00\x00").err(), Some(ContainerError::Format));
    assert_eq!(read_metadata(b"BQM").err(), Some(ContainerError::Format));
}

#[test]
fn other_version_is_refused_with_its_value() {
    let mut out = sample_container();
    out[7] = 2;
    assert_eq!(decode(&out).err(), Some(ContainerError::UnsupportedVersion(2)));
    out[7] = 0;
    assert_eq!(read_metadata(&out).err(), Some(ContainerError::UnsupportedVersion(0)));
}

#[test]
fn every_truncation_fails() {
    let out = sample_container();
    for k in 0..out.len() {
        let e = decode(&out[..k]).err();
        assert!(
            e == Some(ContainerError::Format) || e == Some(ContainerError::Truncated),
            "cut at {} gave {:?}",
            k,
            e
        );
        if k < 12 {
            assert_eq!(e, Some(ContainerError::Format));
        } else {
            assert_eq!(e, Some(ContainerError::Truncated));
        }
    }
}

#[test]
fn metadata_reads_without_the_artifact() {
    let out = sample_container();
    let cut = 12 + SAMPLE_JSON.len();
    assert_eq!(read_metadata(&out[..cut]).unwrap(), SAMPLE_JSON);
    assert_eq!(read_metadata(&out[..cut - 1]).err(), Some(ContainerError::Truncated));
}

#[test]
fn trailing_bytes_are_ignored() {
    let mut out = sample_container();
    out.extend_from_slice(&[1, 2, 3, 0xFF]);
    let p = decode(&out).unwrap();
    assert_eq!(p.metadata, SAMPLE_JSON);
    assert_eq!(p.artifact, vec![0xDE, 0xAD, 0xBE, 0xEF]);
}

#[test]
fn invalid_utf8_metadata_is_an_encoding_error() {
    let out = encode(&[b'{', 0xFF, b'}'], &[1, 2]).unwrap();
    assert_eq!(decode(&out).err(), Some(ContainerError::Encoding));
    assert_eq!(read_metadata(&out).err(), Some(ContainerError::Encoding));
}

#[test]
fn encoding_error_comes_before_artifact_truncation() {
    let out = encode(&[0xC3], &[1, 2, 3]).unwrap();
    assert_eq!(decode(&out[..out.len() - 1]).err(), Some(ContainerError::Encoding));
}

#[test]
fn declared_lengths_past_the_end_are_truncations() {
    let mut buf = b"BQMODEL\x01".to_vec();
    buf.extend_from_slice(&[0xFF, 0xFF, 0xFF, 0xFF]);
    buf.extend_from_slice(b"{}");
    assert_eq!(decode(&buf).err(), Some(ContainerError::Truncated));
    let mut buf = b"BQMODEL\x01".to_vec();
    buf.extend_from_slice(&[2, 0, 0, 0]);
    buf.extend_from_slice(b"{}");
    buf.extend_from_slice(&[0xFF, 0xFF, 0xFF, 0xFF, 1, 2]);
    assert_eq!(decode(&buf).err(), Some(ContainerError::Truncated));
}

#[test]
fn metadata_document_survives_intact() {
    let out = sample_container();
    let p = decode(&out).unwrap();
    let before: serde_json::Value = serde_json::from_str(SAMPLE_JSON).unwrap();
    let after: serde_json::Value = serde_json::from_str(&p.metadata).unwrap();
    assert_eq!(before, after);
    assert_eq!(after["name"], "m");
    assert_eq!(after["input_width"], 224);
    assert_eq!(after["post_processing"][0], "softmax");
}
