use larql::bytes::{bytes_eq, contains, is_valid_utf8, push_decimal, read_u32_le, read_u64_le, starts_with};
use larql::gguf::align_data_offset;
use larql::inspect::is_inspected_tensor;
use larql::names::{ffn_tensor_name, find_tensor, FfnTensor};
use larql::gguf::TensorInfo;

#[test]
fn little_endian_reads() {
    let d = [1u8, 2, 3, 4, 5, 6, 7, 8, 9];
    assert_eq!(read_u32_le(&d, 0), Some(0x04030201));
    assert_eq!(read_u32_le(&d, 5), Some(0x09080706));
    assert_eq!(read_u32_le(&d, 6), None);
    assert_eq!(read_u64_le(&d, 1), Some(0x0908070605040302));
    assert_eq!(read_u64_le(&d, 2), None);
    assert_eq!(read_u64_le(&d, 100), None);
}

#[test]
fn utf8_validation_matches_std() {
    let cases: Vec<Vec<u8>> = vec![
        b"plain".to_vec(),
        "caf\u{e9}".as_bytes().to_vec(),
        "\u{20AC}\u{10348}".as_bytes().to_vec(),
        vec![0xC0, 0x80],
        vec![0xE0, 0x80, 0x80],
        vec![0xED, 0xA0, 0x80],
        vec![0xF4, 0x90, 0x80, 0x80],
        vec![0xF0, 0x9F, 0x98],
        vec![0x80],
        vec![0xFF],
        vec![],
    ];
    for c in cases {
        assert_eq!(is_valid_utf8(&c, 0, c.len()), std::str::from_utf8(&c).is_ok(), "{:?}", c);
    }
    let s = "ab\u{e9}".as_bytes();
    assert!(!is_valid_utf8(s, 0, 3));
    assert!(is_valid_utf8(s, 2, 4));
}

#[test]
fn byte_comparisons() {
    assert!(bytes_eq(b"abc", b"abc"));
    assert!(!bytes_eq(b"abc", b"abd"));
    assert!(!bytes_eq(b"abc", b"ab"));
    assert!(starts_with(b"blk.0.attn", b"blk.0."));
    assert!(!starts_with(b"blk.", b"blk.0."));
    assert!(contains(b"per_layer_token_embd", b"token_embd"));
    assert!(!contains(b"output.weight", b"token_embd"));
    assert!(contains(b"x", b""));
}

#[test]
fn decimal_rendering() {
    for n in [0usize, 7, 10, 99, 12345, usize::MAX] {
        let mut out = b"x".to_vec();
        push_decimal(&mut out, n);
        assert_eq!(out, format!("x{}", n).into_bytes());
    }
}

#[test]
fn ffn_names() {
    assert_eq!(ffn_tensor_name(12, FfnTensor::Gate), b"blk.12.ffn_gate.weight".to_vec());
    assert_eq!(ffn_tensor_name(0, FfnTensor::Up), b"blk.0.ffn_up.weight".to_vec());
    assert_eq!(ffn_tensor_name(35, FfnTensor::Down), b"blk.35.ffn_down.weight".to_vec());
}

fn info(name: &str, offset: u64) -> TensorInfo {
    TensorInfo { name: name.as_bytes().to_vec(), dims: vec![1], tensor_type: 0, offset }
}

#[test]
fn find_tensor_takes_the_first_match() {
    let ts = vec![info("a", 0), info("b", 1), info("b", 2)];
    assert_eq!(find_tensor(&ts, b"b"), Some(1));
    assert_eq!(find_tensor(&ts, b"a"), Some(0));
    assert_eq!(find_tensor(&ts, b"c"), None);
}

#[test]
fn inspected_tensor_selection() {
    assert!(is_inspected_tensor(b"blk.0.attn_q.weight"));
    assert!(!is_inspected_tensor(b"blk.10.attn_q.weight"));
    assert!(is_inspected_tensor(b"per_layer_token_embd.weight"));
    assert!(is_inspected_tensor(b"token_embd.weight"));
    assert!(is_inspected_tensor(b"blk.3.per_layer_proj.weight"));
    assert!(!is_inspected_tensor(b"output_norm.weight"));
}

#[test]
fn alignment() {
    assert_eq!(align_data_offset(0), 0);
    assert_eq!(align_data_offset(1), 32);
    assert_eq!(align_data_offset(32), 32);
    assert_eq!(align_data_offset(33), 64);
    assert_eq!(align_data_offset(1000), 1024);
}

#[test]
fn ffn_names_of_different_pairs_differ() {
    let kinds = [FfnTensor::Gate, FfnTensor::Up, FfnTensor::Down];
    let mut names = Vec::new();
    for layer in [0usize, 1, 10, 11, 100] {
        for kind in kinds {
            names.push(ffn_tensor_name(layer, kind));
        }
    }
    for i in 0..names.len() {
        for j in 0..names.len() {
            assert_eq!(i == j, names[i] == names[j]);
        }
    }
}
