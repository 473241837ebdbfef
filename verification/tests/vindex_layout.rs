use larql::vindex::{
    embedding_layout, feature_batches, find_indexed_tensor, gate_layout, normalize_key,
    set_feature_meta, tensor_extent, tensor_matrix_shape, GateLayer, DOWN_BATCH_SIZE,
};

#[test]
fn normalize_strips_the_first_matching_prefix() {
    let prefixes = vec![b"model.".to_vec(), b"model.language_model.".to_vec()];
    assert_eq!(
        normalize_key(b"model.language_model.layers.0.mlp", &prefixes),
        b"language_model.layers.0.mlp".to_vec()
    );
    let prefixes = vec![b"model.language_model.".to_vec(), b"model.".to_vec()];
    assert_eq!(normalize_key(b"model.language_model.layers.0.mlp", &prefixes), b"layers.0.mlp".to_vec());
    assert_eq!(normalize_key(b"lm_head.weight", &prefixes), b"lm_head.weight".to_vec());
    assert_eq!(normalize_key(b"x", &[]), b"x".to_vec());
}

#[test]
fn indexed_lookup_keeps_the_last() {
    let keys = vec![b"a".to_vec(), b"b".to_vec(), b"a".to_vec()];
    assert_eq!(find_indexed_tensor(&keys, b"a"), Some(2));
    assert_eq!(find_indexed_tensor(&keys, b"b"), Some(1));
    assert_eq!(find_indexed_tensor(&keys, b"c"), None);
}

#[test]
fn gate_layers_lie_end_to_end() {
    let layers = vec![
        GateLayer { layer: 0, num_features: 4, length: 100 },
        GateLayer { layer: 2, num_features: 8, length: 50 },
        GateLayer { layer: 3, num_features: 1, length: 7 },
    ];
    let infos = gate_layout(&layers);
    assert_eq!(infos.len(), 3);
    assert_eq!(infos.iter().map(|i| i.offset).collect::<Vec<_>>(), vec![0, 100, 150]);
    assert_eq!(infos[1].layer, 2);
    assert_eq!(infos[1].num_features, 8);
    assert_eq!(infos[2].length, 7);
    assert!(infos.iter().all(|i| i.num_experts.is_none() && i.num_features_per_expert.is_none()));
    assert!(gate_layout(&[]).is_empty());
}

#[test]
fn down_batches() {
    assert_eq!(
        feature_batches(2500, DOWN_BATCH_SIZE),
        vec![(0, 1024), (1024, 2048), (2048, 2500)]
    );
    assert_eq!(feature_batches(2048, 1024), vec![(0, 1024), (1024, 2048)]);
    assert_eq!(feature_batches(1, 1024), vec![(0, 1)]);
    assert!(feature_batches(0, 1024).is_empty());
}

#[test]
fn feature_meta_slots() {
    let mut metas: Vec<Option<&str>> = Vec::new();
    set_feature_meta(&mut metas, 2, "c");
    assert_eq!(metas, vec![None, None, Some("c")]);
    set_feature_meta(&mut metas, 0, "a");
    assert_eq!(metas, vec![Some("a"), None, Some("c")]);
    set_feature_meta(&mut metas, 2, "z");
    assert_eq!(metas, vec![Some("a"), None, Some("z")]);
}

#[test]
fn matrix_shapes() {
    assert_eq!(tensor_matrix_shape(2, &[2560, 10240]), Ok((10240, 2560)));
    assert_eq!(tensor_matrix_shape(1, &[2560]), Ok((2560, 1)));
    assert_eq!(tensor_matrix_shape(3, &[1, 2, 3]), Err(3));
    assert_eq!(tensor_extent(64, 100, &[2560, 10240]), (164, 2560 * 10240));
    assert_eq!(tensor_extent(0, 0, &[]), (0, 1));
}

#[test]
fn embedding_orientation() {
    let l = embedding_layout(2560, 262144);
    assert!(l.transpose);
    assert_eq!((l.vocab_size, l.hidden_size), (262144, 2560));
    let l = embedding_layout(262144, 2560);
    assert!(!l.transpose);
    assert_eq!((l.vocab_size, l.hidden_size), (262144, 2560));
}
