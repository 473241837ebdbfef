//! Patch files: a list of operations on (layer, feature) pairs, of which the
//! ablation and inversion tools act on the deletions only.

use vstd::prelude::*;

verus! {

/// One operation of a patch.
pub enum PatchOp {
    Insert { layer: usize, feature: usize, target: String },
    Update { layer: usize, feature: usize },
    Delete { layer: usize, feature: usize },
    InsertKnn { layer: usize },
    DeleteKnn,
    /// Any operation the tools do not name.
    Other,
}

/// The features deleted in one layer, in patch order.
pub struct LayerDeletions {
    pub layer: usize,
    pub features: Vec<usize>,
}

/// The deletions of a patch, grouped by layer.
pub struct Deletions {
    /// One group per layer that has a deletion (in no promised order).
    pub groups: Vec<LayerDeletions>,
    /// The number of delete operations.
    pub total: usize,
}

/// The features that the delete operations of `ops` name for `layer`, in order.
pub open spec fn layer_features(ops: Seq<PatchOp>, layer: usize) -> Seq<usize>
    decreases ops.len(),
{
    if ops.len() == 0 {
        Seq::empty()
    } else {
        let rest = layer_features(ops.drop_last(), layer);
        match ops.last() {
            PatchOp::Delete { layer: l, feature: f } => if l == layer {
                rest.push(f)
            } else {
                rest
            },
            _ => rest,
        }
    }
}

/// The number of delete operations in `ops`.
pub open spec fn delete_count(ops: Seq<PatchOp>) -> nat
    decreases ops.len(),
{
    if ops.len() == 0 {
        0
    } else {
        delete_count(ops.drop_last()) + match ops.last() {
            PatchOp::Delete { .. } => 1nat,
            _ => 0nat,
        }
    }
}

/// The sum of the group sizes.
pub open spec fn group_total(groups: Seq<LayerDeletions>) -> nat
    decreases groups.len(),
{
    if groups.len() == 0 {
        0
    } else {
        group_total(groups.drop_last()) + groups.last().features@.len()
    }
}

/// `groups` holds exactly the deletions of `ops`, one group per layer.
pub open spec fn groups_match(groups: Seq<LayerDeletions>, ops: Seq<PatchOp>) -> bool {
    &&& forall|i: int, j: int|
        0 <= i < j < groups.len() ==> #[trigger] groups[i].layer != #[trigger] groups[j].layer
    &&& forall|i: int|
        0 <= i < groups.len() ==> #[trigger] groups[i].features@ == layer_features(
            ops,
            groups[i].layer,
        ) && groups[i].features@.len() > 0
    &&& forall|layer: usize|
        #![trigger layer_features(ops, layer)]
        layer_features(ops, layer).len() > 0 ==> exists|i: int|
            0 <= i < groups.len() && groups[i].layer == layer
}

proof fn lemma_group_total_grow(groups: Seq<LayerDeletions>, i: int, g: LayerDeletions)
    requires
        0 <= i < groups.len(),
        g.features@.len() == groups[i].features@.len() + 1,
    ensures
        group_total(groups.update(i, g)) == group_total(groups) + 1,
    decreases groups.len(),
{
    if i == groups.len() - 1 {
        assert(groups.update(i, g).drop_last() =~= groups.drop_last());
    } else {
        lemma_group_total_grow(groups.drop_last(), i, g);
        assert(groups.update(i, g).drop_last() =~= groups.drop_last().update(i, g));
    }
}

/// Groups the delete operations of `ops` by layer.
pub fn collect_deletions(ops: &[PatchOp]) -> (d: Deletions)
    ensures
        groups_match(d.groups@, ops@),
        d.total == delete_count(ops@),
        d.total == group_total(d.groups@),
{
    let mut groups: Vec<LayerDeletions> = Vec::new();
    let mut total: usize = 0;
    let n = ops.len();
    let mut k: usize = 0;
    while k < n
        invariant
            n == ops@.len(),
            k <= ops@.len(),
            groups_match(groups@, ops@.subrange(0, k as int)),
            total == delete_count(ops@.subrange(0, k as int)),
            total == group_total(groups@),
            total <= k,
        decreases ops@.len() - k,
    {
        let ghost prefix = ops@.subrange(0, k as int);
        let ghost next = ops@.subrange(0, k + 1);
        assert(next.drop_last() =~= prefix);
        assert(next.last() == ops@[k as int]);
        match &ops[k] {
            PatchOp::Delete { layer, feature } => {
                let layer = *layer;
                let feature = *feature;
                let mut idx: usize = 0;
                while idx < groups.len()
                    invariant
                        idx <= groups@.len(),
                        forall|i: int| 0 <= i < idx ==> groups@[i].layer != layer,
                    ensures
                        idx <= groups@.len(),
                        forall|i: int| 0 <= i < idx ==> groups@[i].layer != layer,
                        idx < groups@.len() ==> groups@[idx as int].layer == layer,
                    decreases groups@.len() - idx,
                {
                    if groups[idx].layer == layer {
                        break;
                    }
                    idx = idx + 1;
                }
                let ghost old_groups = groups@;
                if idx < groups.len() {
                    groups[idx].features.push(feature);
                    assert(groups@[idx as int].layer == layer);
                    assert(forall|i: int| 0 <= i < groups@.len() && i != idx ==> groups@[i] == old_groups[i]);
                    proof {
                        assert forall|i: int| 0 <= i < groups@.len() implies #[trigger] groups@[i].features@
                            == layer_features(next, groups@[i].layer) && groups@[i].features@.len()
                            > 0 by {
                            if i != idx {
                                assert(groups@[i] == old_groups[i]);
                            }
                        }
                        assert forall|i: int, j: int|
                            0 <= i < j < groups@.len() implies #[trigger] groups@[i].layer
                            != #[trigger] groups@[j].layer by {
                            assert(old_groups[i].layer != old_groups[j].layer);
                        }
                        lemma_group_total_grow(old_groups, idx as int, groups@[idx as int]);
                        assert(groups@ =~= old_groups.update(idx as int, groups@[idx as int]));
                        assert forall|layer2: usize|
                            #![trigger layer_features(next, layer2)]
                            layer_features(next, layer2).len() > 0 implies exists|i: int|
                                0 <= i < groups@.len() && groups@[i].layer == layer2 by {
                            if layer2 != layer {
                                assert(layer_features(prefix, layer2).len() > 0);
                            } else {
                                assert(groups@[idx as int].layer == layer2);
                            }
                        }
                    }
                } else {
                    let mut features: Vec<usize> = Vec::new();
                    features.push(feature);
                    groups.push(LayerDeletions { layer, features });
                    assert(forall|i: int| 0 <= i < old_groups.len() ==> groups@[i] == old_groups[i]);
                    proof {
                        assert(layer_features(prefix, layer).len() == 0);
                        assert forall|i: int| 0 <= i < old_groups.len() implies old_groups[i].layer
                            != layer by {
                            assert(old_groups[i].features@ == layer_features(prefix, old_groups[i].layer));
                        }
                        assert forall|i: int| 0 <= i < groups@.len() implies #[trigger] groups@[i].features@
                            == layer_features(next, groups@[i].layer) && groups@[i].features@.len()
                            > 0 by {
                            if i < old_groups.len() {
                                assert(groups@[i] == old_groups[i]);
                            } else {
                                assert(layer_features(prefix, layer).push(feature) =~= seq![feature]);
                            }
                        }
                        assert forall|i: int, j: int|
                            0 <= i < j < groups@.len() implies #[trigger] groups@[i].layer
                            != #[trigger] groups@[j].layer by {
                            if j < old_groups.len() {
                                assert(old_groups[i].layer != old_groups[j].layer);
                            }
                        }
                        assert(group_total(groups@.drop_last()) == group_total(old_groups)) by {
                            assert(groups@.drop_last() =~= old_groups);
                        }
                        assert forall|layer2: usize|
                            #![trigger layer_features(next, layer2)]
                            layer_features(next, layer2).len() > 0 implies exists|i: int|
                                0 <= i < groups@.len() && groups@[i].layer == layer2 by {
                            if layer2 != layer {
                                assert(layer_features(prefix, layer2).len() > 0);
                            } else {
                                assert(groups@[idx as int].layer == layer2);
                            }
                        }
                    }
                }
                total = total + 1;
            },
            _ => {
                assert forall|i: int| 0 <= i < groups@.len() implies #[trigger] groups@[i].features@
                    == layer_features(next, groups@[i].layer) && groups@[i].features@.len() > 0 by {
                    assert(groups@[i].features@ == layer_features(prefix, groups@[i].layer));
                }
                assert forall|layer2: usize|
                    #![trigger layer_features(next, layer2)]
                    layer_features(next, layer2).len() > 0 implies exists|i: int|
                        0 <= i < groups@.len() && groups@[i].layer == layer2 by {
                    assert(layer_features(prefix, layer2).len() > 0);
                }
            },
        }
        k = k + 1;
    }
    assert(ops@.subrange(0, k as int) =~= ops@);
    Deletions { groups, total }
}

} // verus!
