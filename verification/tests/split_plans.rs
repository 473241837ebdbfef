use larql::ablate::PlanFault;
use larql::split::{
    check_entry, plan_entry, select_embed_and_lm_head, weight_file_name, Destination, Encoding,
    EntryLoad, ShapeFault, SplitError, TensorRole, WeightEntry,
};

fn entry(key: &str, kind: &str, shape: Vec<usize>, offset: u64, length: u64) -> WeightEntry {
    WeightEntry {
        key: key.as_bytes().to_vec(),
        kind: kind.as_bytes().to_vec(),
        shape,
        offset,
        length,
        file: Vec::new(),
    }
}

const EMBED: &[u8] = b"embed_tokens.weight";

#[test]
fn default_weight_file() {
    assert_eq!(weight_file_name(b""), b"model_weights.bin".to_vec());
    assert_eq!(weight_file_name(b"attn.bin"), b"attn.bin".to_vec());
}

#[test]
fn f32_tensor_entry() {
    let e = entry("layers.0.w", "tensor", vec![2, 3], 8, 24);
    let r = plan_entry(&e, Some(100), EMBED);
    match r {
        Ok(Some(load)) => assert_eq!(
            load,
            EntryLoad {
                start: 8,
                end: 32,
                encoding: Encoding::F32,
                count: 6,
                dest: Destination::Tensor { rows: 2, cols: 3, role: TensorRole::Other },
            }
        ),
        _ => panic!("expected a load"),
    }
}

#[test]
fn f16_vector_and_ignored_entries() {
    match plan_entry(&entry("norm", "vector", vec![4], 0, 8), Some(8), EMBED) {
        Ok(Some(load)) => {
            assert_eq!(load.encoding, Encoding::F16);
            assert_eq!(load.dest, Destination::Vector);
            assert_eq!((load.start, load.end, load.count), (0, 8, 4));
        }
        _ => panic!(),
    }
    match plan_entry(&entry("x", "bias", vec![2], 0, 8), Some(8), EMBED) {
        Ok(Some(load)) => assert_eq!(load.dest, Destination::Ignored),
        _ => panic!(),
    }
}

#[test]
fn roles_of_matrices() {
    let lm = plan_entry(&entry("lm_head.weight", "tensor", vec![2, 2], 0, 16), Some(16), EMBED);
    let em = plan_entry(&entry("embed_tokens.weight", "tensor", vec![2, 2], 0, 16), Some(16), EMBED);
    match (lm, em) {
        (Ok(Some(a)), Ok(Some(b))) => {
            assert_eq!(a.dest, Destination::Tensor { rows: 2, cols: 2, role: TensorRole::LmHead });
            assert_eq!(b.dest, Destination::Tensor { rows: 2, cols: 2, role: TensorRole::Embed });
        }
        _ => panic!(),
    }
}

#[test]
fn missing_file_skips_the_entry() {
    assert!(matches!(plan_entry(&entry("a", "tensor", vec![1, 1], 0, 4), None, EMBED), Ok(None)));
}

#[test]
fn entry_errors() {
    match plan_entry(&entry("a", "tensor", vec![2, 2], 8, 16), Some(20), EMBED) {
        Err(SplitError::OffsetOutOfBounds { key }) => assert_eq!(key, b"a".to_vec()),
        _ => panic!(),
    }
    match plan_entry(&entry("b", "tensor", vec![2, 2], 0, 12), Some(20), EMBED) {
        Err(SplitError::SizeMismatch { key }) => assert_eq!(key, b"b".to_vec()),
        _ => panic!(),
    }
    match plan_entry(&entry("c", "tensor", vec![2, 3, 2], 0, 48), Some(48), EMBED) {
        Err(SplitError::Shape(f)) => assert_eq!(f, ShapeFault::IncompatibleShape),
        _ => panic!(),
    }
    match plan_entry(&entry("e", "tensor", vec![2, 3, 0], 0, 0), Some(0), EMBED) {
        Err(SplitError::Shape(f)) => assert_eq!(f, ShapeFault::OutOfBounds),
        _ => panic!(),
    }
    match plan_entry(&entry("f", "tensor", vec![1usize << 63, 1, 0], 0, 0), Some(0), EMBED) {
        Err(SplitError::Shape(f)) => assert_eq!(f, ShapeFault::Overflow),
        _ => panic!(),
    }
    match plan_entry(&entry("d", "tensor", vec![0, 3], 0, 0), Some(0), EMBED) {
        Ok(Some(load)) => assert_eq!(load.count, 0),
        _ => panic!(),
    }
}

#[test]
fn entry_faults() {
    assert_eq!(check_entry(&entry("a", "tensor", vec![1], 0, 4), Some(4)), Err(PlanFault::NoDims));
    assert_eq!(check_entry(&entry("a", "vector", vec![1], 0, 4), Some(4)), Ok(()));
    assert_eq!(check_entry(&entry("a", "tensor", vec![1], 0, 4), None), Ok(()));
    assert_eq!(check_entry(&entry("a", "tensor", vec![1], u64::MAX, 4), Some(4)), Err(PlanFault::Overflow));
    assert_eq!(
        check_entry(&entry("a", "tensor", vec![usize::MAX, 2, 0], 0, 0), Some(4)),
        Err(PlanFault::Overflow)
    );
    // out of bounds entries stop before their shape is looked at
    assert_eq!(check_entry(&entry("a", "tensor", vec![], 0, 8), Some(4)), Ok(()));
}

fn tensor_load(role: TensorRole) -> Option<EntryLoad> {
    Some(EntryLoad {
        start: 0,
        end: 4,
        encoding: Encoding::F32,
        count: 1,
        dest: Destination::Tensor { rows: 1, cols: 1, role },
    })
}

#[test]
fn embed_and_head_selection() {
    let plans = vec![
        tensor_load(TensorRole::Embed),
        None,
        tensor_load(TensorRole::Other),
        tensor_load(TensorRole::Embed),
    ];
    assert!(matches!(select_embed_and_lm_head(&plans, EMBED), Ok((3, 3))));
    let plans = vec![tensor_load(TensorRole::LmHead), tensor_load(TensorRole::Embed), tensor_load(TensorRole::LmHead)];
    assert!(matches!(select_embed_and_lm_head(&plans, EMBED), Ok((1, 2))));
    let plans = vec![tensor_load(TensorRole::LmHead), tensor_load(TensorRole::Other)];
    match select_embed_and_lm_head(&plans, EMBED) {
        Err(SplitError::MissingTensor { key }) => assert_eq!(key, EMBED.to_vec()),
        _ => panic!(),
    }
}
