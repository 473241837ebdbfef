//! The integer side of streaming vindex extraction from a GGUF model: tensor
//! name normalization and lookup, the offsets of the layers in the vector store, the
//! batching of down-projection features, the per-feature metadata slots,
//! and the matrix shapes of GGUF tensors.

use vstd::prelude::*;
use crate::bytes::{bytes_eq, has_prefix, starts_with};

verus! {

broadcast use vstd::seq_lib::group_seq_properties;

/// The prefixes as byte strings.
pub open spec fn prefix_seqs(prefixes: Seq<Vec<u8>>) -> Seq<Seq<u8>> {
    prefixes.map_values(|p: Vec<u8>| p@)
}

/// `s` without the first of `prefixes` that it starts with, or `s` itself.
pub open spec fn strip_first_prefix(s: Seq<u8>, prefixes: Seq<Seq<u8>>) -> Seq<u8>
    decreases prefixes.len(),
{
    if prefixes.len() == 0 {
        s
    } else if has_prefix(s, prefixes[0]) {
        s.subrange(prefixes[0].len() as int, s.len() as int)
    } else {
        strip_first_prefix(s, prefixes.drop_first())
    }
}

/// Strips from an already normalized GGUF tensor name the first of the
/// architecture's key prefixes that it starts with.
pub fn normalize_key(normalized: &[u8], prefixes: &[Vec<u8>]) -> (key: Vec<u8>)
    ensures
        key@ == strip_first_prefix(normalized@, prefix_seqs(prefixes@)),
{
    let mut i: usize = 0;
    assert(prefix_seqs(prefixes@).subrange(0, prefixes@.len() as int) =~= prefix_seqs(prefixes@));
    while i < prefixes.len()
        invariant
            i <= prefixes@.len(),
            strip_first_prefix(normalized@, prefix_seqs(prefixes@)) == strip_first_prefix(
                normalized@,
                prefix_seqs(prefixes@).subrange(i as int, prefixes@.len() as int),
            ),
        decreases prefixes@.len() - i,
    {
        let ghost rest = prefix_seqs(prefixes@).subrange(i as int, prefixes@.len() as int);
        assert(rest[0] == prefixes@[i as int]@);
        assert(rest.drop_first() =~= prefix_seqs(prefixes@).subrange(i + 1, prefixes@.len() as int));
        if starts_with(normalized, prefixes[i].as_slice()) {
            let start = prefixes[i].len();
            let out = crate::bytes::copy_range(normalized, start, normalized.len());
            return out;
        }
        i = i + 1;
    }
    let out = crate::bytes::copy_range(normalized, 0, normalized.len());
    assert(out@ =~= normalized@);
    assert(prefix_seqs(prefixes@).subrange(i as int, prefixes@.len() as int).len() == 0);
    out
}

/// `i` is the last of `keys` equal to `key`.
pub open spec fn is_last_key(keys: Seq<Vec<u8>>, key: Seq<u8>, i: int) -> bool {
    0 <= i < keys.len() && keys[i]@ == key && forall|j: int|
        i < j < keys.len() ==> (#[trigger] keys[j])@ != key
}

/// The descriptor indexed under `key` when the descriptors are indexed by
/// their normalized keys in order, a later one replacing an earlier one.
pub fn find_indexed_tensor(keys: &[Vec<u8>], key: &[u8]) -> (r: Option<usize>)
    ensures
        match r {
            Some(i) => is_last_key(keys@, key@, i as int),
            None => forall|j: int| 0 <= j < keys@.len() ==> (#[trigger] keys@[j])@ != key@,
        },
{
    let mut found: Option<usize> = None;
    let mut i: usize = 0;
    while i < keys.len()
        invariant
            i <= keys@.len(),
            match found {
                Some(f) => f < i && keys@[f as int]@ == key@ && forall|j: int|
                    f < j < i ==> (#[trigger] keys@[j])@ != key@,
                None => forall|j: int| 0 <= j < i ==> (#[trigger] keys@[j])@ != key@,
            },
        decreases keys@.len() - i,
    {
        if bytes_eq(keys[i].as_slice(), key) {
            found = Some(i);
        }
        i = i + 1;
    }
    found
}

/// One layer of up-projection selectors as stored: its feature count and byte length.
#[derive(Clone, Copy, Debug, PartialEq, Eq, Structural)]
pub struct GateLayer {
    pub layer: usize,
    pub num_features: usize,
    pub length: u64,
}

/// Where a layer's gate vectors lie in `gate_vectors.bin`.
#[derive(Clone, Copy, Debug, PartialEq, Eq, Structural)]
pub struct VindexLayerInfo {
    pub layer: usize,
    pub num_features: usize,
    pub offset: u64,
    pub length: u64,
    pub num_experts: Option<usize>,
    pub num_features_per_expert: Option<usize>,
}

/// The bytes written before layer entry `k`.
pub open spec fn offset_before(layers: Seq<GateLayer>, k: int) -> int
    decreases k,
{
    if k <= 0 {
        0
    } else {
        offset_before(layers, k - 1) + layers[k - 1].length
    }
}

proof fn lemma_offset_monotone(layers: Seq<GateLayer>, i: int, k: int)
    requires
        0 <= i <= k,
    ensures
        offset_before(layers, i) <= offset_before(layers, k),
    decreases k,
{
    if i < k {
        lemma_offset_monotone(layers, i, k - 1);
    }
}

/// Lays the written gate matrices end to end from offset 0, in order.
pub fn gate_layout(layers: &[GateLayer]) -> (infos: Vec<VindexLayerInfo>)
    requires
        offset_before(layers@, layers@.len() as int) <= u64::MAX,
    ensures
        infos@.len() == layers@.len(),
        forall|k: int|
            0 <= k < layers@.len() ==> {
                &&& (#[trigger] infos@[k]).layer == layers@[k].layer
                &&& infos@[k].num_features == layers@[k].num_features
                &&& infos@[k].length == layers@[k].length
                &&& infos@[k].offset == offset_before(layers@, k)
                &&& infos@[k].num_experts is None
                &&& infos@[k].num_features_per_expert is None
            },
        infos@.len() > 0 ==> infos@[0].offset == 0,
        forall|k: int|
            0 <= k < infos@.len() - 1 ==> #[trigger] infos@[k + 1].offset == infos@[k].offset
                + infos@[k].length,
{
    let mut infos: Vec<VindexLayerInfo> = Vec::new();
    let mut offset: u64 = 0;
    let mut k: usize = 0;
    while k < layers.len()
        invariant
            k <= layers@.len(),
            offset_before(layers@, layers@.len() as int) <= u64::MAX,
            offset == offset_before(layers@, k as int),
            infos@.len() == k,
            forall|j: int|
                0 <= j < k ==> {
                    &&& (#[trigger] infos@[j]).layer == layers@[j].layer
                    &&& infos@[j].num_features == layers@[j].num_features
                    &&& infos@[j].length == layers@[j].length
                    &&& infos@[j].offset == offset_before(layers@, j)
                    &&& infos@[j].num_experts is None
                    &&& infos@[j].num_features_per_expert is None
                },
        decreases layers@.len() - k,
    {
        let g = layers[k];
        proof {
            lemma_offset_monotone(layers@, k + 1, layers@.len() as int);
        }
        infos.push(
            VindexLayerInfo {
                layer: g.layer,
                num_features: g.num_features,
                offset,
                length: g.length,
                num_experts: None,
                num_features_per_expert: None,
            },
        );
        offset = offset + g.length;
        k = k + 1;
    }
    infos
}

/// The features per down-projection batch.
pub const DOWN_BATCH_SIZE: usize = 1024;

/// The batch that starts at `start`: `start..min(start + size, n)`.
pub open spec fn batch(start: int, size: int, n: int) -> (usize, usize) {
    (start as usize, (if start + size < n {
        start + size
    } else {
        n
    }) as usize)
}

/// Number of batches of `size` over `n` features.
pub open spec fn batch_count(n: int, size: int) -> int {
    (n + size - 1) / size
}

/// Splits features `0..n` into consecutive batches of `size`, the last one
/// possibly shorter.
pub fn feature_batches(n: usize, size: usize) -> (batches: Vec<(usize, usize)>)
    requires
        size > 0,
        n > 0 ==> (n - 1) / (size as int) * size + size <= usize::MAX,
    ensures
        batches@.len() == batch_count(n as int, size as int),
        forall|i: int|
            0 <= i < batches@.len() ==> #[trigger] batches@[i] == batch(i * size, size as int, n as int),
{
    let mut batches: Vec<(usize, usize)> = Vec::new();
    let mut start: usize = 0;
    let ghost mut i: int = 0;
    while start < n
        invariant
            size > 0,
            n > 0 ==> (n - 1) / (size as int) * size + size <= usize::MAX,
            0 <= i,
            start == i * size,
            i == 0 || (i - 1) * size < n,
            batches@.len() == i,
            forall|j: int| 0 <= j < i ==> #[trigger] batches@[j] == batch(j * size, size as int, n as int),
        decreases n + size - start,
    {
        assert(start + size <= usize::MAX) by (nonlinear_arith)
            requires
                start == i * size,
                0 <= i,
                start < n,
                size > 0,
                (n - 1) / (size as int) * size + size <= usize::MAX,
        {
            assert(i <= (n - 1) / (size as int));
            assert(i * size <= (n - 1) / (size as int) * size);
        }
        let end = if start + size < n {
            start + size
        } else {
            n
        };
        batches.push((start, end));
        proof {
            assert((i + 1) * size == i * size + size) by (nonlinear_arith);
            i = i + 1;
        }
        start = start + size;
    }
    assert(i == batch_count(n as int, size as int)) by (nonlinear_arith)
        requires
            size > 0,
            0 <= i,
            i * size >= n,
            i == 0 || (i - 1) * size < n,
    {
        if i == 0 {
            assert(n == 0);
        } else {
            assert((n + size - 1) / (size as int) >= i);
            assert((n + size - 1) / (size as int) <= i);
        }
    }
    batches
}

/// Stores `meta` as the metadata of feature `feat`, first growing the slots
/// with empty ones until there is one for it.
pub fn set_feature_meta<T>(metas: &mut Vec<Option<T>>, feat: usize, meta: T)
    requires
        feat < usize::MAX,
    ensures
        final(metas)@.len() == if feat < old(metas)@.len() {
            old(metas)@.len()
        } else {
            (feat + 1) as nat
        },
        final(metas)@[feat as int] == Some(meta),
        forall|i: int|
            0 <= i < old(metas)@.len() && i != feat ==> #[trigger] final(metas)@[i] == old(
                metas,
            )@[i],
        forall|i: int|
            old(metas)@.len() <= i < feat ==> #[trigger] final(metas)@[i] == None::<T>,
{
    let ghost start = metas@;
    while metas.len() <= feat
        invariant
            feat < usize::MAX,
            start.len() <= metas@.len(),
            metas@.len() <= if feat < start.len() {
                start.len()
            } else {
                (feat + 1) as nat
            },
            forall|i: int| 0 <= i < start.len() ==> #[trigger] metas@[i] == start[i],
            forall|i: int| start.len() <= i < metas@.len() ==> #[trigger] metas@[i] == None::<T>,
        decreases feat + 1 - metas@.len(),
    {
        metas.push(None);
    }
    metas.set(feat, Some(meta));
}

/// Rows and columns of a GGUF tensor as a matrix: dims are innermost first,
/// so a 2-d tensor is `dims[1]` rows of `dims[0]`, a 1-d one a column.
pub open spec fn matrix_shape(n_dims: u32, dims: Seq<u64>) -> Result<(usize, usize), u32> {
    if n_dims == 2 {
        Ok((dims[1] as usize, dims[0] as usize))
    } else if n_dims == 1 {
        Ok((dims[0] as usize, 1))
    } else {
        Err(n_dims)
    }
}

/// The matrix shape of a GGUF tensor, or the dimension count it cannot take.
pub fn tensor_matrix_shape(n_dims: u32, dims: &[u64]) -> (r: Result<(usize, usize), u32>)
    requires
        n_dims == 2 ==> dims@.len() >= 2,
        n_dims == 1 ==> dims@.len() >= 1,
    ensures
        r == matrix_shape(n_dims, dims@),
{
    if n_dims == 2 {
        Ok((dims[1] as usize, dims[0] as usize))
    } else if n_dims == 1 {
        Ok((dims[0] as usize, 1))
    } else {
        Err(n_dims)
    }
}

/// Product of the first `k` dimensions.
pub open spec fn dims_product(dims: Seq<u64>, k: int) -> int
    decreases k,
{
    if k <= 0 {
        1
    } else {
        dims_product(dims, k - 1) * dims[k - 1]
    }
}

/// Where a GGUF tensor's data starts and how many elements it holds.
pub fn tensor_extent(data_offset: u64, offset: u64, dims: &[u64]) -> (r: (u64, u64))
    requires
        data_offset + offset <= u64::MAX,
        forall|k: int| 0 <= k <= dims@.len() ==> #[trigger] dims_product(dims@, k) <= u64::MAX,
    ensures
        r.0 == data_offset + offset,
        r.1 == dims_product(dims@, dims@.len() as int),
{
    let mut n: u64 = 1;
    let mut i: usize = 0;
    while i < dims.len()
        invariant
            i <= dims@.len(),
            forall|k: int| 0 <= k <= dims@.len() ==> #[trigger] dims_product(dims@, k) <= u64::MAX,
            n == dims_product(dims@, i as int),
        decreases dims@.len() - i,
    {
        assert(dims_product(dims@, i + 1) <= u64::MAX);
        n = n * dims[i];
        i = i + 1;
    }
    (data_offset + offset, n)
}

/// How the embedding matrix is read: GGUF may store it hidden-major, and it
/// is transposed when it has fewer rows than columns.
#[derive(Clone, Copy, Debug, PartialEq, Eq, Structural)]
pub struct EmbedLayout {
    pub transpose: bool,
    pub vocab_size: usize,
    pub hidden_size: usize,
}

/// The layout of an embedding matrix of `rows` by `cols` as stored.
pub fn embedding_layout(rows: usize, cols: usize) -> (l: EmbedLayout)
    ensures
        l.transpose == (rows < cols),
        l.transpose ==> l.vocab_size == cols && l.hidden_size == rows,
        !l.transpose ==> l.vocab_size == rows && l.hidden_size == cols,
        l.vocab_size >= l.hidden_size,
{
    if rows < cols {
        EmbedLayout { transpose: true, vocab_size: cols, hidden_size: rows }
    } else {
        EmbedLayout { transpose: false, vocab_size: rows, hidden_size: cols }
    }
}

} // verus!
