use larql::ablate::{
    check_row_ablation, check_tensor_zeroing, plan_row_ablation, plan_tensor_zeroing, tensor_data_size,
    PlanFault, RowAblation, RowStep,
};
use larql::gguf::TensorInfo;
use larql::patch::{collect_deletions, PatchOp};

fn t(dims: Vec<u64>, ty: u32, offset: u64) -> TensorInfo {
    TensorInfo { name: b"blk.3.ffn_gate.weight".to_vec(), dims, tensor_type: ty, offset }
}

#[test]
fn ablation_size_table() {
    assert_eq!(tensor_data_size(0, 10), 40);
    assert_eq!(tensor_data_size(1, 10), 20);
    assert_eq!(tensor_data_size(2, 64), 36);
    assert_eq!(tensor_data_size(3, 64), 40);
    assert_eq!(tensor_data_size(8, 64), 44);
    assert_eq!(tensor_data_size(9, 64), 48);
    assert_eq!(tensor_data_size(6, 64), 68);
    assert_eq!(tensor_data_size(12, 2560), 1440);
    assert_eq!(tensor_data_size(14, 512), 420);
    assert_eq!(tensor_data_size(10, 256), 84);
    assert_eq!(tensor_data_size(11, 256), 110);
    assert_eq!(tensor_data_size(13, 255), 0);
    assert_eq!(tensor_data_size(2, 31), 0);
}

#[test]
fn row_ablation_zeroes_in_bound_rows() {
    let tensor = t(vec![2560, 10240], 12, 1000);
    let plan = plan_row_ablation(&tensor, 64, &[0, 5, 20000, 10239]);
    match plan {
        RowAblation::Rows(steps) => {
            assert_eq!(
                steps,
                vec![
                    RowStep::Zero { offset: 1064, len: 1440 },
                    RowStep::Zero { offset: 1064 + 5 * 1440, len: 1440 },
                    RowStep::OutOfBounds { feature: 20000, rows: 10240 },
                    RowStep::Zero { offset: 1064 + 10239 * 1440, len: 1440 },
                ]
            );
            // distinct rows never overlap
            if let (RowStep::Zero { offset: a, len }, RowStep::Zero { offset: b, .. }) = (steps[0], steps[1]) {
                assert!(a + len as u64 <= b);
            }
        }
        _ => panic!("expected rows"),
    }
}

#[test]
fn row_ablation_reports_other_shapes() {
    let tensor = t(vec![2560], 12, 0);
    match plan_row_ablation(&tensor, 0, &[1]) {
        RowAblation::UnexpectedDims { cols, rows } => assert_eq!((cols, rows), (2560, 1)),
        _ => panic!("expected unexpected dims"),
    }
    let tensor = t(vec![10240, 2560], 12, 0);
    match plan_row_ablation(&tensor, 0, &[1]) {
        RowAblation::UnexpectedDims { cols, rows } => assert_eq!((cols, rows), (10240, 2560)),
        _ => panic!("expected unexpected dims"),
    }
}

#[test]
fn row_ablation_faults() {
    assert_eq!(check_row_ablation(&t(vec![], 12, 0), 0, &[1]), Err(PlanFault::NoDims));
    assert_eq!(check_row_ablation(&t(vec![2560, 10240], 7, 0), 0, &[1]), Err(PlanFault::UnknownType(7)));
    // an unknown type is harmless when the shape does not match
    assert_eq!(check_row_ablation(&t(vec![5, 5], 7, 0), 0, &[1]), Ok(()));
    assert_eq!(
        check_row_ablation(&t(vec![2560, 10240], 12, u64::MAX - 10), 0, &[1]),
        Err(PlanFault::Overflow)
    );
    // row 0 adds nothing, and out-of-bound rows are never computed
    assert_eq!(check_row_ablation(&t(vec![2560, 10240], 12, u64::MAX - 10), 0, &[0, 50000]), Ok(()));
}

#[test]
fn bulk_zeroing_covers_the_whole_tensor() {
    let tensor = t(vec![2560, 10240], 8, 500);
    assert_eq!(check_tensor_zeroing(&tensor, 96), Ok(()));
    assert_eq!(plan_tensor_zeroing(&tensor, 96), (596, 10240 * 2560 / 32 * 22));
    let vector = t(vec![2560], 0, 0);
    assert_eq!(plan_tensor_zeroing(&vector, 0), (0, 2560 * 4));
    assert_eq!(check_tensor_zeroing(&t(vec![], 0, 0), 0), Err(PlanFault::NoDims));
    assert_eq!(check_tensor_zeroing(&t(vec![4], 4, 0), 0), Err(PlanFault::UnknownType(4)));
    assert_eq!(check_tensor_zeroing(&t(vec![4], 0, u64::MAX), 1), Err(PlanFault::Overflow));
}

#[test]
fn deletions_are_grouped_by_layer_in_order() {
    let ops = vec![
        PatchOp::Delete { layer: 3, feature: 10 },
        PatchOp::Insert { layer: 3, feature: 11, target: String::from("x") },
        PatchOp::Delete { layer: 1, feature: 7 },
        PatchOp::Update { layer: 1, feature: 8 },
        PatchOp::Delete { layer: 3, feature: 2 },
        PatchOp::InsertKnn { layer: 1 },
        PatchOp::DeleteKnn,
        PatchOp::Other,
        PatchOp::Delete { layer: 3, feature: 10 },
    ];
    let d = collect_deletions(&ops);
    assert_eq!(d.total, 4);
    assert_eq!(d.groups.len(), 2);
    assert_eq!(d.groups[0].layer, 3);
    assert_eq!(d.groups[0].features, vec![10, 2, 10]);
    assert_eq!(d.groups[1].layer, 1);
    assert_eq!(d.groups[1].features, vec![7]);
    let sum: usize = d.groups.iter().map(|g| g.features.len()).sum();
    assert_eq!(sum, d.total);
}

#[test]
fn no_deletions() {
    let ops = vec![PatchOp::Update { layer: 1, feature: 2 }, PatchOp::Other];
    let d = collect_deletions(&ops);
    assert_eq!(d.total, 0);
    assert!(d.groups.is_empty());
    assert_eq!(collect_deletions(&[]).total, 0);
}
