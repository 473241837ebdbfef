//! Ablation of feed-forward features in a GGUF file: the byte size table
//! the ablation tools use, and where the bytes to zero lie.

use vstd::prelude::*;
use crate::gguf::{TensorInfo, TensorRecord};

verus! {

/// Whether the ablation tools know the byte size of a GGML tensor type.
pub open spec fn is_known_type(tensor_type: u32) -> bool {
    tensor_type == 0 || tensor_type == 1 || tensor_type == 2 || tensor_type == 3
        || tensor_type == 6 || tensor_type == 8 || tensor_type == 9 || tensor_type == 10
        || tensor_type == 11 || tensor_type == 12 || tensor_type == 13 || tensor_type == 14
}

/// Byte size of `n` elements of a GGML tensor type, by the table of the ablation tools.
pub open spec fn data_size(tensor_type: u32, n: int) -> int {
    if tensor_type == 0 { n * 4 }
    else if tensor_type == 1 { n * 2 }
    else if tensor_type == 2 { n / 32 * 18 }
    else if tensor_type == 3 { n / 32 * 20 }
    else if tensor_type == 8 { n / 32 * 22 }
    else if tensor_type == 9 { n / 32 * 24 }
    else if tensor_type == 6 { n / 32 * 34 }
    else if tensor_type == 12 { n / 256 * 144 }
    else if tensor_type == 14 { n / 256 * 210 }
    else if tensor_type == 10 { n / 256 * 84 }
    else if tensor_type == 11 { n / 256 * 110 }
    else { n / 256 * 176 }
}

/// Byte size of `n_elements` elements stored as GGML type `tensor_type`.
pub fn tensor_data_size(tensor_type: u32, n_elements: usize) -> (size: usize)
    requires
        is_known_type(tensor_type),
        data_size(tensor_type, n_elements as int) <= usize::MAX,
    ensures
        size == data_size(tensor_type, n_elements as int),
{
    match tensor_type {
        0 => n_elements * 4,
        1 => n_elements * 2,
        2 => n_elements / 32 * 18,
        3 => n_elements / 32 * 20,
        8 => n_elements / 32 * 22,
        9 => n_elements / 32 * 24,
        6 => n_elements / 32 * 34,
        12 => n_elements / 256 * 144,
        14 => n_elements / 256 * 210,
        10 => n_elements / 256 * 84,
        11 => n_elements / 256 * 110,
        _ => n_elements / 256 * 176,
    }
}

/// The only gate/up shape that row ablation touches: rows by columns.
pub const ABLATION_ROWS: usize = 10240;
pub const ABLATION_COLS: usize = 2560;

/// The first and last layer whose gate and up weights bulk ablation zeroes.
pub const BULK_FIRST_LAYER: usize = 15;
pub const BULK_LAST_LAYER: usize = 35;

/// Columns of a descriptor: its first dimension.
pub open spec fn cols_of(t: TensorRecord) -> usize {
    t.dims[0] as usize
}

/// Rows of a descriptor: its second dimension, or 1 when it has one dimension.
pub open spec fn rows_of(t: TensorRecord) -> usize {
    if t.dims.len() > 1 {
        t.dims[1] as usize
    } else {
        1
    }
}

/// The descriptor has the shape that row ablation touches.
pub open spec fn has_ablation_shape(t: TensorRecord) -> bool {
    rows_of(t) == ABLATION_ROWS && cols_of(t) == ABLATION_COLS
}

/// Absolute file offset of row `feature` of a tensor whose rows are `bpr` bytes.
pub open spec fn row_offset(data_offset: u64, t: TensorRecord, feature: int, bpr: int) -> int {
    data_offset + t.offset + feature * bpr
}

/// The descriptor and features meet what row ablation needs: a first
/// dimension, a known type where the shape matches, and row offsets that fit in u64.
pub open spec fn row_ablation_defined(t: TensorRecord, data_offset: u64, features: Seq<usize>) -> bool {
    &&& t.dims.len() >= 1
    &&& has_ablation_shape(t) ==> {
        &&& is_known_type(t.tensor_type)
        &&& forall|k: int|
            0 <= k < features.len() && features[k] < rows_of(t) ==> row_offset(
                data_offset,
                t,
                #[trigger] features[k] as int,
                data_size(t.tensor_type, cols_of(t) as int),
            ) <= u64::MAX
    }
}

/// What row ablation does for one feature.
#[derive(Clone, Copy, Debug, PartialEq, Eq, Structural)]
pub enum RowStep {
    /// The feature is not a row of the tensor; it is reported and skipped.
    OutOfBounds { feature: usize, rows: usize },
    /// `len` bytes at absolute file offset `offset` are set to zero.
    Zero { offset: u64, len: usize },
}

/// What row ablation does for one tensor.
pub enum RowAblation {
    /// The tensor's shape is not the one ablation touches; it is reported.
    UnexpectedDims { cols: usize, rows: usize },
    /// One step per feature, in order.
    Rows(Vec<RowStep>),
}

/// The step row ablation takes for `feature` of tensor `t`.
pub open spec fn row_step(t: TensorRecord, data_offset: u64, feature: usize) -> RowStep {
    let bpr = data_size(t.tensor_type, cols_of(t) as int);
    if feature >= rows_of(t) {
        RowStep::OutOfBounds { feature, rows: rows_of(t) }
    } else {
        RowStep::Zero {
            offset: row_offset(data_offset, t, feature as int, bpr) as u64,
            len: bpr as usize,
        }
    }
}

/// Plans the zeroing of the rows `features` of tensor `t`, whose data starts
/// `t.offset` bytes after `data_offset`.
pub fn plan_row_ablation(t: &TensorInfo, data_offset: u64, features: &[usize]) -> (r: RowAblation)
    requires
        row_ablation_defined(t@, data_offset, features@),
    ensures
        !has_ablation_shape(t@) ==> r == (RowAblation::UnexpectedDims {
            cols: cols_of(t@),
            rows: rows_of(t@),
        }),
        has_ablation_shape(t@) ==> r is Rows && r->Rows_0@.len() == features@.len() && forall|k: int|
            0 <= k < features@.len() ==> #[trigger] r->Rows_0@[k] == row_step(
                t@,
                data_offset,
                features@[k],
            ),
{
    let cols = t.dims[0] as usize;
    let rows: usize = if t.dims.len() > 1 {
        t.dims[1] as usize
    } else {
        1
    };
    if !(rows == ABLATION_ROWS && cols == ABLATION_COLS) {
        return RowAblation::UnexpectedDims { cols, rows };
    }
    let bpr = tensor_data_size(t.tensor_type, cols);
    let mut steps: Vec<RowStep> = Vec::new();
    let mut k: usize = 0;
    while k < features.len()
        invariant
            row_ablation_defined(t@, data_offset, features@),
            has_ablation_shape(t@),
            rows == rows_of(t@),
            cols == cols_of(t@),
            bpr == data_size(t.tensor_type, cols as int),
            k <= features@.len(),
            steps@.len() == k,
            forall|j: int| 0 <= j < k ==> #[trigger] steps@[j] == row_step(t@, data_offset, features@[j]),
        decreases features@.len() - k,
    {
        let feature = features[k];
        if feature >= rows {
            steps.push(RowStep::OutOfBounds { feature, rows });
        } else {
            assert(row_offset(data_offset, t@, features@[k as int] as int, bpr as int) <= u64::MAX);
            assert(feature as int * bpr as int <= u64::MAX - data_offset - t.offset);
            let offset = data_offset + t.offset + feature as u64 * bpr as u64;
            steps.push(RowStep::Zero { offset, len: bpr });
        }
        k = k + 1;
    }
    RowAblation::Rows(steps)
}

/// The descriptor meets what bulk ablation needs: a first dimension, a known
/// type, and a data range whose start and length fit in u64.
pub open spec fn tensor_zeroing_defined(t: TensorRecord, data_offset: u64) -> bool {
    &&& t.dims.len() >= 1
    &&& is_known_type(t.tensor_type)
    &&& data_size(t.tensor_type, cols_of(t) as int) <= usize::MAX
    &&& rows_of(t) * data_size(t.tensor_type, cols_of(t) as int) <= u64::MAX
    &&& data_offset + t.offset <= u64::MAX
}

/// The absolute file offset and the byte length of the whole data of tensor `t`.
pub fn plan_tensor_zeroing(t: &TensorInfo, data_offset: u64) -> (r: (u64, u64))
    requires
        tensor_zeroing_defined(t@, data_offset),
    ensures
        r.0 == data_offset + t.offset,
        r.1 == rows_of(t@) * data_size(t.tensor_type, cols_of(t@) as int),
{
    let cols = t.dims[0] as usize;
    let rows: usize = if t.dims.len() > 1 {
        t.dims[1] as usize
    } else {
        1
    };
    let bpr = tensor_data_size(t.tensor_type, cols);
    let total = rows as u64 * bpr as u64;
    (data_offset + t.offset, total)
}

/// Why a plan cannot be made for a descriptor: the cases in which the tools
/// stop with a panic.
#[derive(Clone, Copy, Debug, PartialEq, Eq, Structural)]
pub enum PlanFault {
    /// The descriptor has no first dimension.
    NoDims,
    /// The byte size table does not know the tensor type.
    UnknownType(u32),
    /// An offset or length does not fit its integer type.
    Overflow,
}

/// Whether the ablation table knows a tensor type.
pub fn is_known_type_code(tensor_type: u32) -> (r: bool)
    ensures
        r == is_known_type(tensor_type),
{
    tensor_type == 0 || tensor_type == 1 || tensor_type == 2 || tensor_type == 3
        || tensor_type == 6 || tensor_type == 8 || tensor_type == 9 || tensor_type == 10
        || tensor_type == 11 || tensor_type == 12 || tensor_type == 13 || tensor_type == 14
}

/// Whether `data_offset + t.offset + feature * bpr` fits in u64.
fn row_offset_fits(data_offset: u64, t: &TensorInfo, feature: usize, bpr: usize) -> (r: bool)
    ensures
        r == (row_offset(data_offset, t@, feature as int, bpr as int) <= u64::MAX),
{
    assert((feature as u128) * (bpr as u128) <= 0xffff_ffff_ffff_ffffu128 * 0xffff_ffff_ffff_ffffu128)
        by (nonlinear_arith)
        requires
            feature <= 0xffff_ffff_ffff_ffffu64,
            bpr <= 0xffff_ffff_ffff_ffffu64,
    ;
    let prod = (feature as u128) * (bpr as u128);
    if prod > 0xffff_ffff_ffff_ffffu128 {
        return false;
    }
    (data_offset as u128) + (t.offset as u128) + prod <= 0xffff_ffff_ffff_ffffu128
}

/// Checks what `plan_row_ablation` needs; the fault is the first the
/// ablation tool would stop on.
pub fn check_row_ablation(t: &TensorInfo, data_offset: u64, features: &[usize]) -> (r: Result<
    (),
    PlanFault,
>)
    ensures
        r is Ok == row_ablation_defined(t@, data_offset, features@),
        t.dims@.len() == 0 ==> r == Err::<(), PlanFault>(PlanFault::NoDims),
        t.dims@.len() >= 1 && has_ablation_shape(t@) && !is_known_type(t.tensor_type) ==> r
            == Err::<(), PlanFault>(PlanFault::UnknownType(t.tensor_type)),
        t.dims@.len() >= 1 && (has_ablation_shape(t@) ==> is_known_type(t.tensor_type)) && r is Err
            ==> r == Err::<(), PlanFault>(PlanFault::Overflow),
{
    if t.dims.len() == 0 {
        return Err(PlanFault::NoDims);
    }
    let cols = t.dims[0] as usize;
    let rows: usize = if t.dims.len() > 1 {
        t.dims[1] as usize
    } else {
        1
    };
    if !(rows == ABLATION_ROWS && cols == ABLATION_COLS) {
        return Ok(());
    }
    if !is_known_type_code(t.tensor_type) {
        return Err(PlanFault::UnknownType(t.tensor_type));
    }
    let bpr = tensor_data_size(t.tensor_type, cols);
    let mut k: usize = 0;
    while k < features.len()
        invariant
            t.dims@.len() >= 1,
            has_ablation_shape(t@),
            is_known_type(t.tensor_type),
            rows == rows_of(t@),
            cols == cols_of(t@),
            bpr == data_size(t.tensor_type, cols as int),
            k <= features@.len(),
            forall|j: int|
                0 <= j < k && features@[j] < rows_of(t@) ==> row_offset(
                    data_offset,
                    t@,
                    #[trigger] features@[j] as int,
                    bpr as int,
                ) <= u64::MAX,
        decreases features@.len() - k,
    {
        if features[k] < rows && !row_offset_fits(data_offset, t, features[k], bpr) {
            return Err(PlanFault::Overflow);
        }
        k = k + 1;
    }
    Ok(())
}

/// Checks what `plan_tensor_zeroing` needs; the fault is the first the bulk
/// ablation tool would stop on.
pub fn check_tensor_zeroing(t: &TensorInfo, data_offset: u64) -> (r: Result<(), PlanFault>)
    ensures
        r is Ok == tensor_zeroing_defined(t@, data_offset),
        t.dims@.len() == 0 ==> r == Err::<(), PlanFault>(PlanFault::NoDims),
        t.dims@.len() >= 1 && !is_known_type(t.tensor_type) ==> r == Err::<(), PlanFault>(
            PlanFault::UnknownType(t.tensor_type),
        ),
        t.dims@.len() >= 1 && is_known_type(t.tensor_type) && r is Err ==> r == Err::<
            (),
            PlanFault,
        >(PlanFault::Overflow),
{
    if t.dims.len() == 0 {
        return Err(PlanFault::NoDims);
    }
    let cols = t.dims[0] as usize;
    let rows: usize = if t.dims.len() > 1 {
        t.dims[1] as usize
    } else {
        1
    };
    if !is_known_type_code(t.tensor_type) {
        return Err(PlanFault::UnknownType(t.tensor_type));
    }
    let size: u128 = match t.tensor_type {
        0 => cols as u128 * 4,
        1 => cols as u128 * 2,
        2 => (cols / 32) as u128 * 18,
        3 => (cols / 32) as u128 * 20,
        8 => (cols / 32) as u128 * 22,
        9 => (cols / 32) as u128 * 24,
        6 => (cols / 32) as u128 * 34,
        12 => (cols / 256) as u128 * 144,
        14 => (cols / 256) as u128 * 210,
        10 => (cols / 256) as u128 * 84,
        11 => (cols / 256) as u128 * 110,
        _ => (cols / 256) as u128 * 176,
    };
    assert(size == data_size(t.tensor_type, cols as int));
    if size > usize::MAX as u128 {
        return Err(PlanFault::Overflow);
    }
    assert((rows as u128) * size <= 0xffff_ffff_ffff_ffffu128 * 0xffff_ffff_ffff_ffffu128)
        by (nonlinear_arith)
        requires
            rows <= 0xffff_ffff_ffff_ffffu64,
            size <= 0xffff_ffff_ffff_ffffu128,
    ;
    if (rows as u128) * size > 0xffff_ffff_ffff_ffffu128 {
        return Err(PlanFault::Overflow);
    }
    if (data_offset as u128) + (t.offset as u128) > 0xffff_ffff_ffff_ffffu128 {
        return Err(PlanFault::Overflow);
    }
    Ok(())
}

} // verus!
