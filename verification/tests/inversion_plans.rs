use larql::ablate::PlanFault;
use larql::gguf::TensorInfo;
use larql::invert::{check_inversion, flip_scale_sign, plan_inversion, tensor_data_size, InvertPlan, InvertRow};

fn t(dims: Vec<u64>, ty: u32, offset: u64) -> TensorInfo {
    TensorInfo { name: b"blk.0.ffn_down.weight".to_vec(), dims, tensor_type: ty, offset }
}

#[test]
fn inversion_size_table() {
    assert_eq!(tensor_data_size(0, 3), 12);
    assert_eq!(tensor_data_size(1, 3), 6);
    assert_eq!(tensor_data_size(2, 64), 36);
    assert_eq!(tensor_data_size(3, 64), 40);
    assert_eq!(tensor_data_size(6, 64), 44);
    assert_eq!(tensor_data_size(7, 64), 48);
    assert_eq!(tensor_data_size(8, 64), 68);
    assert_eq!(tensor_data_size(10, 256), 84);
    assert_eq!(tensor_data_size(11, 256), 110);
    assert_eq!(tensor_data_size(12, 256), 144);
    assert_eq!(tensor_data_size(13, 256), 176);
    assert_eq!(tensor_data_size(14, 256), 210);
}

#[test]
fn inversion_finds_block_scales() {
    let tensor = t(vec![4, 64], 8, 100);
    match plan_inversion(&tensor, 28, &[1, 4, 0]) {
        InvertPlan::Rows(rows) => {
            assert_eq!(rows.len(), 3);
            match &rows[0] {
                InvertRow::Blocks { feature, offsets } => {
                    assert_eq!(*feature, 1);
                    assert_eq!(offsets, &vec![128 + 68, 128 + 68 + 34]);
                    // every scale lies inside the row of 68 bytes
                    for o in offsets {
                        assert!(*o + 2 <= 128 + 68 + 68);
                    }
                }
                _ => panic!(),
            }
            match &rows[1] {
                InvertRow::OutOfBounds { feature, rows } => assert_eq!((*feature, *rows), (4, 4)),
                _ => panic!(),
            }
            match &rows[2] {
                InvertRow::Blocks { feature, offsets } => {
                    assert_eq!(*feature, 0);
                    assert_eq!(offsets, &vec![128, 162]);
                }
                _ => panic!(),
            }
        }
        _ => panic!("expected rows"),
    }
}

#[test]
fn inversion_skips_empty_shapes() {
    match plan_inversion(&t(vec![], 8, 0), 0, &[0]) {
        InvertPlan::BadDims { rows, cols } => assert_eq!((rows, cols), (0, 1)),
        _ => panic!(),
    }
    match plan_inversion(&t(vec![3, 0], 8, 0), 0, &[0]) {
        InvertPlan::BadDims { rows, cols } => assert_eq!((rows, cols), (3, 0)),
        _ => panic!(),
    }
    // a single dimension gives one column: no whole block
    match plan_inversion(&t(vec![3], 8, 0), 0, &[2]) {
        InvertPlan::Rows(rows) => match &rows[0] {
            InvertRow::Blocks { offsets, .. } => assert!(offsets.is_empty()),
            _ => panic!(),
        },
        _ => panic!(),
    }
}

#[test]
fn inversion_faults() {
    assert_eq!(check_inversion(&t(vec![4, 64], 9, 0), 0, &[0]), Err(PlanFault::UnknownType(9)));
    assert_eq!(check_inversion(&t(vec![0, 64], 9, 0), 0, &[0]), Ok(()));
    assert_eq!(check_inversion(&t(vec![4, 64], 8, u64::MAX - 33), 0, &[0]), Err(PlanFault::Overflow));
    assert_eq!(check_inversion(&t(vec![4, 64], 8, u64::MAX - 34), 0, &[0]), Ok(()));
}

#[test]
fn sign_flip() {
    // 1.0 as f16 is 0x3C00
    assert_eq!(flip_scale_sign([0x00, 0x3C]), [0x00, 0xBC]);
    assert_eq!(flip_scale_sign([0x12, 0xBC]), [0x12, 0x3C]);
    for s in [[0u8, 0], [0x55, 0x7F], [0xFF, 0xFF]] {
        assert_eq!(flip_scale_sign(flip_scale_sign(s)), s);
    }
}

fn flip_all(file: &mut Vec<u8>, offsets: &[u64]) {
    for &o in offsets {
        let o = o as usize;
        let flipped = flip_scale_sign([file[o], file[o + 1]]);
        file[o] = flipped[0];
        file[o + 1] = flipped[1];
    }
}

fn planned_offsets(file: &[u8], features: &[usize]) -> Vec<u64> {
    let h = larql::invert::parse_gguf(file).unwrap();
    let i = larql::names::find_tensor(&h.tensors, &b"blk.0.ffn_down.weight"[..]).unwrap();
    let mut out = Vec::new();
    match plan_inversion(&h.tensors[i], h.data_offset, features) {
        InvertPlan::Rows(rows) => {
            for r in rows {
                if let InvertRow::Blocks { offsets, .. } = r {
                    out.extend(offsets);
                }
            }
        }
        _ => panic!("expected rows"),
    }
    out
}

#[test]
fn inverting_twice_restores_the_file() {
    let mut file = b"GGUF".to_vec();
    file.extend_from_slice(&3u32.to_le_bytes());
    file.extend_from_slice(&1u64.to_le_bytes());
    file.extend_from_slice(&0u64.to_le_bytes());
    let name = b"blk.0.ffn_down.weight";
    file.extend_from_slice(&(name.len() as u64).to_le_bytes());
    file.extend_from_slice(name);
    file.extend_from_slice(&2u32.to_le_bytes());
    file.extend_from_slice(&2u64.to_le_bytes());
    file.extend_from_slice(&64u64.to_le_bytes());
    file.extend_from_slice(&8u32.to_le_bytes());
    file.extend_from_slice(&0u64.to_le_bytes());
    let start = (file.len() + 31) / 32 * 32;
    file.resize(start, 0);
    for i in 0..(2 * 68) {
        file.push((i * 7 % 251) as u8);
    }
    let original = file.clone();
    // feature 1 twice in one patch: its scales are flipped back within the run
    let features = [1usize, 0, 1];
    let first = planned_offsets(&file, &features);
    assert_eq!(first, vec![start as u64 + 68, start as u64 + 102, start as u64, start as u64 + 34,
        start as u64 + 68, start as u64 + 102]);
    flip_all(&mut file, &first);
    assert_ne!(file, original);
    assert_eq!(file[start + 1], original[start + 1] ^ 0x80);
    assert_eq!(file[start + 69], original[start + 69]);
    let second = planned_offsets(&file, &features);
    assert_eq!(second, first);
    flip_all(&mut file, &second);
    assert_eq!(file, original);
}
