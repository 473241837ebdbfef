use larql::gguf::{parse_header, skip_gguf_value, GgufError, KeyMode};
use larql::inspect;
use larql::invert;

fn u32le(out: &mut Vec<u8>, v: u32) {
    out.extend_from_slice(&v.to_le_bytes());
}

fn u64le(out: &mut Vec<u8>, v: u64) {
    out.extend_from_slice(&v.to_le_bytes());
}

fn string(out: &mut Vec<u8>, s: &[u8]) {
    u64le(out, s.len() as u64);
    out.extend_from_slice(s);
}

fn header(n_tensors: u64, n_kv: u64) -> Vec<u8> {
    let mut out = b"GGUF".to_vec();
    u32le(&mut out, 3);
    u64le(&mut out, n_tensors);
    u64le(&mut out, n_kv);
    out
}

fn tensor(out: &mut Vec<u8>, name: &[u8], dims: &[u64], ty: u32, offset: u64) {
    string(out, name);
    u32le(out, dims.len() as u32);
    for d in dims {
        u64le(out, *d);
    }
    u32le(out, ty);
    u64le(out, offset);
}

/// A header with three metadata pairs (u32, string, array of u16) and two tensors.
fn sample() -> Vec<u8> {
    let mut d = header(2, 3);
    string(&mut d, b"general.alignment");
    u32le(&mut d, 4);
    u32le(&mut d, 32);
    string(&mut d, b"general.name");
    u32le(&mut d, 8);
    string(&mut d, b"gemma");
    string(&mut d, b"tokens");
    u32le(&mut d, 9);
    u32le(&mut d, 2);
    u64le(&mut d, 3);
    d.extend_from_slice(&[1, 0, 2, 0, 3, 0]);
    tensor(&mut d, b"blk.0.ffn_gate.weight", &[2560, 10240], 12, 0);
    tensor(&mut d, b"token_embd.weight", &[2560], 0, 4096);
    d
}

#[test]
fn walks_metadata_and_tensors() {
    let d = sample();
    let h = inspect::parse_gguf(&d).unwrap();
    assert_eq!(h.metadata.len(), 3);
    assert_eq!(h.metadata[0].key, b"general.alignment".to_vec());
    assert_eq!(h.metadata[0].value_type, 4);
    assert_eq!(h.metadata[1].key, b"general.name".to_vec());
    assert_eq!(h.metadata[2].value_type, 9);
    assert_eq!(h.tensors.len(), 2);
    assert_eq!(h.tensors[0].name, b"blk.0.ffn_gate.weight".to_vec());
    assert_eq!(h.tensors[0].dims, vec![2560, 10240]);
    assert_eq!(h.tensors[0].tensor_type, 12);
    assert_eq!(h.tensors[1].dims, vec![2560]);
    assert_eq!(h.tensors[1].offset, 4096);
    let end = d.len() as u64;
    assert_eq!(h.data_offset, (end + 31) / 32 * 32);
}

#[test]
fn inverter_walk_agrees_with_inspector_walk() {
    let d = sample();
    let a = inspect::parse_gguf(&d).unwrap();
    let b = invert::parse_gguf(&d).unwrap();
    assert!(b.metadata.is_empty());
    assert_eq!(b.tensors.len(), a.tensors.len());
    for (x, y) in a.tensors.iter().zip(b.tensors.iter()) {
        assert_eq!(x.name, y.name);
        assert_eq!(x.dims, y.dims);
        assert_eq!(x.tensor_type, y.tensor_type);
        assert_eq!(x.offset, y.offset);
    }
    let end = d.len() as u64;
    assert_eq!(b.data_offset, (end + 31) / 32 * 32);
    assert_eq!(a.data_offset, b.data_offset);
    assert_eq!(a.data_offset % 32, 0);
}

#[test]
fn inverter_walk_gives_aligned_data_start() {
    let d = header(0, 0);
    assert_eq!(d.len(), 24);
    let h = invert::parse_gguf(&d).unwrap();
    assert!(h.tensors.is_empty());
    assert!(h.metadata.is_empty());
    assert_eq!(h.data_offset, 32);
    assert_eq!(parse_header(&d, KeyMode::Skip).unwrap().data_offset, 24);
    let mut e = header(0, 0);
    e.extend_from_slice(&[0u8; 8]);
    assert_eq!(invert::parse_gguf(&e).unwrap().data_offset, 32);
}

#[test]
fn truncated_header_is_eof() {
    let d = sample();
    for cut in [0usize, 7, 16, 23, 40, d.len() - 1] {
        let r = parse_header(&d[..cut], KeyMode::Read);
        assert_eq!(r.err(), Some(GgufError::UnexpectedEof), "cut at {}", cut);
    }
}

#[test]
fn unknown_value_type_is_reported() {
    let mut d = header(0, 1);
    string(&mut d, b"k");
    u32le(&mut d, 13);
    assert_eq!(
        parse_header(&d, KeyMode::Skip).err(),
        Some(GgufError::UnsupportedValueType(13))
    );
}

#[test]
fn invalid_utf8_key_only_matters_when_read() {
    let mut d = header(0, 1);
    string(&mut d, &[0x66, 0xC0, 0x80]);
    u32le(&mut d, 0);
    d.push(1);
    assert_eq!(parse_header(&d, KeyMode::Read).err(), Some(GgufError::InvalidUtf8));
    let h = parse_header(&d, KeyMode::Skip).unwrap();
    assert_eq!(h.data_offset, d.len() as u64);
    assert_eq!(inspect::parse_gguf(&d).err(), Some(GgufError::InvalidUtf8));
    let end = d.len() as u64;
    assert_eq!(invert::parse_gguf(&d).unwrap().data_offset, (end + 31) / 32 * 32);
}

#[test]
fn invalid_utf8_tensor_name_is_reported() {
    let mut d = header(1, 0);
    tensor(&mut d, &[0xED, 0xA0, 0x80], &[4], 0, 0);
    assert_eq!(parse_header(&d, KeyMode::Skip).err(), Some(GgufError::InvalidUtf8));
}

#[test]
fn utf8_names_are_kept() {
    let mut d = header(1, 0);
    tensor(&mut d, "h\u{e9}llo\u{1F600}".as_bytes(), &[4], 1, 8);
    let h = parse_header(&d, KeyMode::Read).unwrap();
    assert_eq!(h.tensors[0].name, "h\u{e9}llo\u{1F600}".as_bytes().to_vec());
}

#[test]
fn huge_string_length_is_a_seek_error() {
    let mut d = header(0, 1);
    string(&mut d, b"k");
    u32le(&mut d, 8);
    u64le(&mut d, u64::MAX);
    assert_eq!(parse_header(&d, KeyMode::Read).err(), Some(GgufError::SeekOutOfRange));
}

#[test]
fn skips_past_the_end_until_a_read() {
    // A string value that runs past the end of the data is skipped; with no
    // tensors following, the walk ends past the end.
    let mut d = header(0, 1);
    string(&mut d, b"k");
    u32le(&mut d, 8);
    u64le(&mut d, 100);
    let h = parse_header(&d, KeyMode::Read).unwrap();
    assert_eq!(h.data_offset, d.len() as u64 + 100);
    // With a tensor following, its read fails.
    let mut d = header(1, 1);
    string(&mut d, b"k");
    u32le(&mut d, 8);
    u64le(&mut d, 100);
    assert_eq!(parse_header(&d, KeyMode::Read).err(), Some(GgufError::UnexpectedEof));
}

#[test]
fn skip_scalar_string_and_nested_array() {
    let data = vec![0u8; 4];
    assert_eq!(skip_gguf_value(&data, 2, 7), Ok(3));
    assert_eq!(skip_gguf_value(&data, 2, 3), Ok(4));
    assert_eq!(skip_gguf_value(&data, 0, 6), Ok(4));
    assert_eq!(skip_gguf_value(&data, 0, 12), Ok(8));
    assert_eq!(skip_gguf_value(&data, 0, 8), Err(GgufError::UnexpectedEof));
    assert_eq!(skip_gguf_value(&data, 0, 20), Err(GgufError::UnsupportedValueType(20)));

    // array of 2 arrays of 3 u8
    let mut a = Vec::new();
    u32le(&mut a, 9);
    u64le(&mut a, 2);
    for _ in 0..2 {
        u32le(&mut a, 0);
        u64le(&mut a, 3);
        a.extend_from_slice(&[1, 2, 3]);
    }
    assert_eq!(skip_gguf_value(&a, 0, 9), Ok(a.len() as u64));

    // array of 2 strings
    let mut s = Vec::new();
    u32le(&mut s, 8);
    u64le(&mut s, 2);
    string(&mut s, b"ab");
    string(&mut s, b"cde");
    assert_eq!(skip_gguf_value(&s, 0, 9), Ok(s.len() as u64));

    // a huge array of u64 runs past the largest offset
    let mut h = Vec::new();
    u32le(&mut h, 10);
    u64le(&mut h, u64::MAX);
    assert_eq!(skip_gguf_value(&h, 0, 9), Err(GgufError::SeekOutOfRange));
}

#[test]
fn names_of_a_walk_are_strings_and_the_walk_moves_forward() {
    let d = sample();
    let h = inspect::parse_gguf(&d).unwrap();
    for t in &h.tensors {
        assert!(String::from_utf8(t.name.clone()).is_ok());
    }
    for kv in &h.metadata {
        assert!(String::from_utf8(kv.key.clone()).is_ok());
    }
    assert!(h.data_offset >= 24);
    let empty = header(0, 0);
    assert_eq!(parse_header(&empty, KeyMode::Skip).unwrap().data_offset, 24);
}
