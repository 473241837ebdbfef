//! Inversion of feed-forward down-projection rows stored as Q8_0: the byte
//! size table of the inversion tool, its header walk, where the block scales
//! of a row lie, and the sign flip of an f16 scale.

use vstd::prelude::*;
use crate::ablate::PlanFault;
use crate::gguf::{align32, align_data_offset, header_spec, parse_header, GgufError, GgufHeader, KeyMode, TensorInfo, TensorRecord, MAX_POS};

verus! {

/// Whether the inversion tool knows the byte size of a GGML tensor type.
pub open spec fn is_known_type(tensor_type: u32) -> bool {
    tensor_type == 0 || tensor_type == 1 || tensor_type == 2 || tensor_type == 3
        || tensor_type == 6 || tensor_type == 7 || tensor_type == 8 || tensor_type == 10
        || tensor_type == 11 || tensor_type == 12 || tensor_type == 13 || tensor_type == 14
}

/// Byte size of `n` elements of a GGML tensor type, by the GGML type codes
/// (Q5_0 = 6, Q5_1 = 7, Q8_0 = 8).
pub open spec fn data_size(tensor_type: u32, n: int) -> int {
    if tensor_type == 0 { n * 4 }
    else if tensor_type == 1 { n * 2 }
    else if tensor_type == 2 { n / 32 * 18 }
    else if tensor_type == 3 { n / 32 * 20 }
    else if tensor_type == 6 { n / 32 * 22 }
    else if tensor_type == 7 { n / 32 * 24 }
    else if tensor_type == 8 { n / 32 * 34 }
    else if tensor_type == 10 { n / 256 * 84 }
    else if tensor_type == 11 { n / 256 * 110 }
    else if tensor_type == 12 { n / 256 * 144 }
    else if tensor_type == 13 { n / 256 * 176 }
    else { n / 256 * 210 }
}

/// Compute the byte size of a tensor given its GGML type and element count.
pub fn tensor_data_size(tensor_type: u32, n_elements: usize) -> (size: usize)
    requires
        is_known_type(tensor_type),
        data_size(tensor_type, n_elements as int) <= usize::MAX,
    ensures
        size == data_size(tensor_type, n_elements as int),
{
    match tensor_type {
        0 => n_elements * 4,
        1 => n_elements * 2,
        2 => n_elements / 32 * 18,
        3 => n_elements / 32 * 20,
        6 => n_elements / 32 * 22,
        7 => n_elements / 32 * 24,
        8 => n_elements / 32 * 34,
        10 => n_elements / 256 * 84,
        11 => n_elements / 256 * 110,
        12 => n_elements / 256 * 144,
        13 => n_elements / 256 * 176,
        _ => n_elements / 256 * 210,
    }
}

/// Walks the GGUF header, skipping metadata keys, to locate the tensor
/// descriptors and the start of the data section: where the last descriptor
/// ends, rounded up to the 32-byte alignment.
pub fn parse_gguf(data: &[u8]) -> (r: Result<GgufHeader, GgufError>)
    requires
        data@.len() <= MAX_POS,
    ensures
        match header_spec(data@, KeyMode::Skip) {
            Ok(h) => r is Ok && r.unwrap()@.metadata == h.metadata && r.unwrap()@.tensors
                == h.tensors && r.unwrap().data_offset == align32(h.data_offset),
            Err(e) => r == Err::<GgufHeader, GgufError>(e),
        },
{
    match parse_header(data, KeyMode::Skip) {
        Ok(h) => {
            let data_offset = align_data_offset(h.data_offset);
            Ok(GgufHeader { metadata: h.metadata, tensors: h.tensors, data_offset })
        },
        Err(e) => Err(e),
    }
}

/// Bytes of one Q8_0 block: a 2-byte f16 scale and 32 one-byte weights.
pub const BLOCK_SIZE: usize = 34;

/// Rows of a down-projection descriptor: its first dimension, 0 without one.
pub open spec fn rows_of(t: TensorRecord) -> usize {
    if t.dims.len() > 0 {
        t.dims[0] as usize
    } else {
        0
    }
}

/// Columns of a down-projection descriptor: its second dimension, or 1.
pub open spec fn cols_of(t: TensorRecord) -> usize {
    if t.dims.len() > 1 {
        t.dims[1] as usize
    } else {
        1
    }
}

/// Bytes of one row of the descriptor.
pub open spec fn row_bytes(t: TensorRecord) -> int {
    data_size(t.tensor_type, cols_of(t) as int)
}

/// Blocks of one row: columns / 32.
pub open spec fn blocks_per_row(t: TensorRecord) -> int {
    cols_of(t) as int / 32
}

/// Absolute file offset of row `feature`.
pub open spec fn row_start(data_offset: u64, t: TensorRecord, feature: int) -> int {
    data_offset + t.offset + feature * row_bytes(t)
}

/// Offset of the last block scale from the start of a row (0 without blocks).
pub open spec fn last_block_offset(t: TensorRecord) -> int {
    if blocks_per_row(t) > 0 {
        (blocks_per_row(t) - 1) * BLOCK_SIZE
    } else {
        0
    }
}

/// The descriptor and features meet what inversion needs: a known type for
/// a non-empty shape, and block offsets that fit.
pub open spec fn inversion_defined(t: TensorRecord, data_offset: u64, features: Seq<usize>) -> bool {
    rows_of(t) != 0 && cols_of(t) != 0 ==> {
        &&& is_known_type(t.tensor_type)
        &&& row_bytes(t) <= usize::MAX
        &&& last_block_offset(t) <= usize::MAX
        &&& forall|k: int|
            0 <= k < features.len() && features[k] < rows_of(t) ==> row_start(
                data_offset,
                t,
                #[trigger] features[k] as int,
            ) + last_block_offset(t) <= u64::MAX
    }
}

/// What inversion does for one feature.
pub enum InvertRow {
    /// The feature is not a row of the tensor; it is reported and skipped.
    OutOfBounds { feature: usize, rows: usize },
    /// The absolute file offsets of the block scales of the feature's row.
    Blocks { feature: usize, offsets: Vec<u64> },
}

/// What inversion does for one down-projection tensor.
pub enum InvertPlan {
    /// A zero dimension; the tensor is reported and skipped.
    BadDims { rows: usize, cols: usize },
    /// One entry per feature, in order.
    Rows(Vec<InvertRow>),
}

/// The block scale offsets of row `feature`.
pub open spec fn block_offsets(data_offset: u64, t: TensorRecord, feature: int) -> Seq<u64> {
    Seq::new(
        blocks_per_row(t) as nat,
        |b: int| (row_start(data_offset, t, feature) + b * BLOCK_SIZE) as u64,
    )
}

/// The entry inversion plans for `feature`.
pub open spec fn invert_row_matches(r: InvertRow, t: TensorRecord, data_offset: u64, feature: usize) -> bool {
    if feature >= rows_of(t) {
        r == InvertRow::OutOfBounds { feature, rows: rows_of(t) }
    } else {
        r matches InvertRow::Blocks { feature: f, offsets } && f == feature && offsets@
            == block_offsets(data_offset, t, feature as int)
    }
}

/// Offsets of the block scales of a row whose first byte is at `row`.
fn row_blocks(row: u64, blocks: usize) -> (offsets: Vec<u64>)
    requires
        blocks > 0 ==> (blocks - 1) * BLOCK_SIZE <= usize::MAX,
        blocks > 0 ==> row + (blocks - 1) * BLOCK_SIZE <= u64::MAX,
    ensures
        offsets@ == Seq::new(blocks as nat, |b: int| (row + b * BLOCK_SIZE) as u64),
{
    let mut offsets: Vec<u64> = Vec::new();
    let mut b: usize = 0;
    while b < blocks
        invariant
            b <= blocks,
            blocks > 0 ==> (blocks - 1) * BLOCK_SIZE <= usize::MAX,
            blocks > 0 ==> row + (blocks - 1) * BLOCK_SIZE <= u64::MAX,
            offsets@ == Seq::new(b as nat, |i: int| (row + i * BLOCK_SIZE) as u64),
        decreases blocks - b,
    {
        assert(b * BLOCK_SIZE <= (blocks - 1) * BLOCK_SIZE) by (nonlinear_arith)
            requires
                b < blocks,
        ;
        offsets.push(row + (b * BLOCK_SIZE) as u64);
        b = b + 1;
        assert(offsets@ =~= Seq::new(b as nat, |i: int| (row + i * BLOCK_SIZE) as u64));
    }
    offsets
}

/// Plans the inversion of rows `features` of down-projection tensor `t`.
pub fn plan_inversion(t: &TensorInfo, data_offset: u64, features: &[usize]) -> (r: InvertPlan)
    requires
        inversion_defined(t@, data_offset, features@),
    ensures
        rows_of(t@) == 0 || cols_of(t@) == 0 ==> r == (InvertPlan::BadDims {
            rows: rows_of(t@),
            cols: cols_of(t@),
        }),
        rows_of(t@) != 0 && cols_of(t@) != 0 ==> r is Rows && r->Rows_0@.len() == features@.len()
            && forall|k: int|
            0 <= k < features@.len() ==> invert_row_matches(
                #[trigger] r->Rows_0@[k],
                t@,
                data_offset,
                features@[k],
            ),
{
    let rows: usize = if t.dims.len() > 0 {
        t.dims[0] as usize
    } else {
        0
    };
    let cols: usize = if t.dims.len() > 1 {
        t.dims[1] as usize
    } else {
        1
    };
    if rows == 0 || cols == 0 {
        return InvertPlan::BadDims { rows, cols };
    }
    let bpr = tensor_data_size(t.tensor_type, cols);
    let blocks = cols / 32;
    let mut out: Vec<InvertRow> = Vec::new();
    let mut k: usize = 0;
    while k < features.len()
        invariant
            inversion_defined(t@, data_offset, features@),
            rows == rows_of(t@) && rows != 0,
            cols == cols_of(t@) && cols != 0,
            bpr == row_bytes(t@),
            blocks == blocks_per_row(t@),
            k <= features@.len(),
            out@.len() == k,
            forall|j: int| 0 <= j < k ==> invert_row_matches(#[trigger] out@[j], t@, data_offset, features@[j]),
        decreases features@.len() - k,
    {
        let feature = features[k];
        if feature >= rows {
            out.push(InvertRow::OutOfBounds { feature, rows });
        } else {
            assert(row_start(data_offset, t@, features@[k as int] as int) + last_block_offset(t@)
                <= u64::MAX);
            assert(last_block_offset(t@) >= 0) by (nonlinear_arith)
                requires
                    blocks >= 0,
                    last_block_offset(t@) == (if blocks > 0 { (blocks - 1) * BLOCK_SIZE } else { 0 }),
            ;
            let row = data_offset + t.offset + feature as u64 * bpr as u64;
            let offsets = row_blocks(row, blocks);
            out.push(InvertRow::Blocks { feature, offsets });
        }
        k = k + 1;
    }
    InvertPlan::Rows(out)
}

/// The scale bytes with the sign bit of the little-endian f16 toggled.
pub open spec fn sign_flipped(scale: Seq<u8>) -> Seq<u8> {
    seq![scale[0] ^ 0u8, scale[1] ^ 0x80u8]
}

/// The file with the f16 scale at offset `o` replaced by its sign flip.
pub open spec fn flip_scale_at(file: Seq<u8>, o: int) -> Seq<u8> {
    file.subrange(0, o) + sign_flipped(file.subrange(o, o + 2)) + file.subrange(
        o + 2,
        file.len() as int,
    )
}

/// The file after the scales at `offsets` are flipped one after another, in order.
pub open spec fn flip_scales(file: Seq<u8>, offsets: Seq<u64>) -> Seq<u8>
    decreases offsets.len(),
{
    if offsets.len() == 0 {
        file
    } else {
        flip_scale_at(flip_scales(file, offsets.drop_last()), offsets.last() as int)
    }
}

/// Whether every scale at `offsets` lies whole inside a file of `len` bytes.
pub open spec fn scales_in_file(len: int, offsets: Seq<u64>) -> bool {
    forall|k: int| 0 <= k < offsets.len() ==> #[trigger] offsets[k] + 2 <= len
}

/// Toggles the sign of a little-endian f16 block scale.
pub fn flip_scale_sign(scale: [u8; 2]) -> (r: [u8; 2])
    ensures
        r@ == sign_flipped(scale@),
{
    let r = [scale[0] ^ 0x00, scale[1] ^ 0x80];
    assert(r@ =~= sign_flipped(scale@));
    r
}

/// Whether the inversion table knows a tensor type.
pub fn is_known_type_code(tensor_type: u32) -> (r: bool)
    ensures
        r == is_known_type(tensor_type),
{
    tensor_type == 0 || tensor_type == 1 || tensor_type == 2 || tensor_type == 3
        || tensor_type == 6 || tensor_type == 7 || tensor_type == 8 || tensor_type == 10
        || tensor_type == 11 || tensor_type == 12 || tensor_type == 13 || tensor_type == 14
}

/// Checks what `plan_inversion` needs; the fault is the first the inversion
/// tool would stop on.
pub fn check_inversion(t: &TensorInfo, data_offset: u64, features: &[usize]) -> (r: Result<
    (),
    PlanFault,
>)
    ensures
        r is Ok == inversion_defined(t@, data_offset, features@),
        rows_of(t@) != 0 && cols_of(t@) != 0 && !is_known_type(t.tensor_type) ==> r == Err::<
            (),
            PlanFault,
        >(PlanFault::UnknownType(t.tensor_type)),
        is_known_type(t.tensor_type) && r is Err ==> r == Err::<(), PlanFault>(PlanFault::Overflow),
{
    let rows: usize = if t.dims.len() > 0 {
        t.dims[0] as usize
    } else {
        0
    };
    let cols: usize = if t.dims.len() > 1 {
        t.dims[1] as usize
    } else {
        1
    };
    if rows == 0 || cols == 0 {
        return Ok(());
    }
    if !is_known_type_code(t.tensor_type) {
        return Err(PlanFault::UnknownType(t.tensor_type));
    }
    let size: u128 = match t.tensor_type {
        0 => cols as u128 * 4,
        1 => cols as u128 * 2,
        2 => (cols / 32) as u128 * 18,
        3 => (cols / 32) as u128 * 20,
        6 => (cols / 32) as u128 * 22,
        7 => (cols / 32) as u128 * 24,
        8 => (cols / 32) as u128 * 34,
        10 => (cols / 256) as u128 * 84,
        11 => (cols / 256) as u128 * 110,
        12 => (cols / 256) as u128 * 144,
        13 => (cols / 256) as u128 * 176,
        _ => (cols / 256) as u128 * 210,
    };
    assert(size == row_bytes(t@));
    if size > usize::MAX as u128 {
        return Err(PlanFault::Overflow);
    }
    let blocks = cols / 32;
    let last: u128 = if blocks > 0 {
        (blocks - 1) as u128 * 34
    } else {
        0
    };
    assert(last == last_block_offset(t@));
    if last > usize::MAX as u128 {
        return Err(PlanFault::Overflow);
    }
    let mut k: usize = 0;
    while k < features.len()
        invariant
            rows == rows_of(t@) && rows != 0,
            cols == cols_of(t@) && cols != 0,
            is_known_type(t.tensor_type),
            size == row_bytes(t@),
            size <= usize::MAX,
            last == last_block_offset(t@),
            last <= usize::MAX,
            k <= features@.len(),
            forall|j: int|
                0 <= j < k && features@[j] < rows_of(t@) ==> row_start(
                    data_offset,
                    t@,
                    #[trigger] features@[j] as int,
                ) + last_block_offset(t@) <= u64::MAX,
        decreases features@.len() - k,
    {
        let f = features[k];
        if f < rows {
            assert((f as u128) * size <= 0xffff_ffff_ffff_ffffu128 * 0xffff_ffff_ffff_ffffu128)
                by (nonlinear_arith)
                requires
                    f <= 0xffff_ffff_ffff_ffffu64,
                    size <= 0xffff_ffff_ffff_ffffu128,
            ;
            let prod = (f as u128) * size;
            if prod > 0xffff_ffff_ffff_ffffu128 {
                return Err(PlanFault::Overflow);
            }
            if (data_offset as u128) + (t.offset as u128) + prod + last > 0xffff_ffff_ffff_ffffu128 {
                return Err(PlanFault::Overflow);
            }
        }
        k = k + 1;
    }
    Ok(())
}

} // verus!
