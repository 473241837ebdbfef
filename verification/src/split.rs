//! Loading of the split model format: a list of weight entries, each a
//! byte range of a weight file holding f32 or f16 values, to be read as a
//! matrix ("tensor") or a vector. This module decides, entry by entry, which
//! bytes are read, how they are decoded and where they go.

use vstd::prelude::*;
use crate::ablate::PlanFault;
use crate::bytes::bytes_eq;

verus! {

/// One entry of the weight list of a split model directory.
pub struct WeightEntry {
    pub key: Vec<u8>,
    pub kind: Vec<u8>,
    pub shape: Vec<usize>,
    pub offset: u64,
    pub length: u64,
    /// The weight file; empty for the default file.
    pub file: Vec<u8>,
}

/// The bytes of `model_weights.bin`.
pub open spec fn default_weight_file() -> Seq<u8> {
    seq![109u8, 111u8, 100u8, 101u8, 108u8, 95u8, 119u8, 101u8, 105u8, 103u8, 104u8, 116u8,
        115u8, 46u8, 98u8, 105u8, 110u8]
}

/// The bytes of `lm_head.weight`.
pub open spec fn lm_head_key() -> Seq<u8> {
    seq![108u8, 109u8, 95u8, 104u8, 101u8, 97u8, 100u8, 46u8, 119u8, 101u8, 105u8, 103u8,
        104u8, 116u8]
}

/// The bytes of `tensor`.
pub open spec fn tensor_kind() -> Seq<u8> {
    seq![116u8, 101u8, 110u8, 115u8, 111u8, 114u8]
}

/// The bytes of `vector`.
pub open spec fn vector_kind() -> Seq<u8> {
    seq![118u8, 101u8, 99u8, 116u8, 111u8, 114u8]
}

/// The file an entry reads from.
pub fn weight_file_name(file: &[u8]) -> (name: Vec<u8>)
    ensures
        name@ == (if file@.len() == 0 {
            default_weight_file()
        } else {
            file@
        }),
{
    if file.len() == 0 {
        let name: Vec<u8> = vec![109u8, 111u8, 100u8, 101u8, 108u8, 95u8, 119u8, 101u8, 105u8,
            103u8, 104u8, 116u8, 115u8, 46u8, 98u8, 105u8, 110u8];
        assert(name@ =~= default_weight_file());
        name
    } else {
        let mut name: Vec<u8> = Vec::new();
        let mut i: usize = 0;
        while i < file.len()
            invariant
                i <= file@.len(),
                name@ == file@.subrange(0, i as int),
            decreases file@.len() - i,
        {
            name.push(file[i]);
            i = i + 1;
        }
        assert(name@ =~= file@);
        name
    }
}

/// How the bytes of an entry are decoded.
#[derive(Clone, Copy, Debug, PartialEq, Eq, Structural)]
pub enum Encoding {
    /// Little-endian f32, 4 bytes per value.
    F32,
    /// Little-endian f16, 2 bytes per value.
    F16,
}

/// What a matrix entry is to the model.
#[derive(Clone, Copy, Debug, PartialEq, Eq, Structural)]
pub enum TensorRole {
    /// The output head (`lm_head.weight`); kept apart from the other matrices.
    LmHead,
    /// The token embedding; kept among the matrices and as the embedding.
    Embed,
    /// Any other matrix.
    Other,
}

/// Where the decoded values of an entry go.
#[derive(Clone, Copy, Debug, PartialEq, Eq, Structural)]
pub enum Destination {
    /// A `rows` by `cols` matrix.
    Tensor { rows: usize, cols: usize, role: TensorRole },
    /// A vector.
    Vector,
    /// Nowhere: the kind is neither `tensor` nor `vector`.
    Ignored,
}

/// The reading of one entry: bytes `start..end` of its file, holding
/// `count` values in `encoding`.
#[derive(Clone, Copy, Debug, PartialEq, Eq, Structural)]
pub struct EntryLoad {
    pub start: usize,
    pub end: usize,
    pub encoding: Encoding,
    pub count: usize,
    pub dest: Destination,
}

/// Why building a `rows` by `cols` matrix from the decoded values fails.
#[derive(Clone, Copy, Debug, PartialEq, Eq, Structural)]
pub enum ShapeFault {
    /// The product of the non-zero dimensions exceeds `isize::MAX`.
    Overflow,
    /// The shape holds more elements than there are values.
    OutOfBounds,
    /// The shape holds fewer elements than there are values.
    IncompatibleShape,
}

/// Why a split model cannot be loaded.
pub enum SplitError {
    /// The entry's byte range ends past the end of its file.
    OffsetOutOfBounds { key: Vec<u8> },
    /// The entry's length is neither 4 nor 2 bytes per element of its shape.
    SizeMismatch { key: Vec<u8> },
    /// The values cannot form the matrix.
    Shape(ShapeFault),
    /// No entry gives the token embedding.
    MissingTensor { key: Vec<u8> },
}

/// Product of the first `k` dimensions.
pub open spec fn shape_product(shape: Seq<usize>, k: int) -> int
    decreases k,
{
    if k <= 0 {
        1
    } else {
        shape_product(shape, k - 1) * shape[k - 1]
    }
}

/// Every partial product of the dimensions fits in usize.
pub open spec fn product_fits(shape: Seq<usize>) -> bool {
    forall|k: int| 0 <= k <= shape.len() ==> #[trigger] shape_product(shape, k) <= usize::MAX
}

/// The first byte of the entry and the byte after it.
pub open spec fn entry_start(e: &WeightEntry) -> int {
    e.offset as usize as int
}

pub open spec fn entry_end(e: &WeightEntry) -> int {
    e.offset as usize + e.length as usize
}

/// The matrix check of building a `rows` by `cols` matrix from `len` values.
pub open spec fn shape_fault(rows: usize, cols: usize, len: int) -> Option<ShapeFault> {
    let nz = (if rows != 0 {
        rows as int
    } else {
        1
    }) * (if cols != 0 {
        cols as int
    } else {
        1
    });
    if nz > isize::MAX {
        Some(ShapeFault::Overflow)
    } else if rows * cols > len {
        Some(ShapeFault::OutOfBounds)
    } else if rows * cols != len {
        Some(ShapeFault::IncompatibleShape)
    } else {
        None
    }
}

/// The entry meets what loading needs where its file exists: its range end,
/// the partial products of its shape and 4 bytes per element fit in usize,
/// and a matrix entry of matching size has two dimensions.
pub open spec fn entry_defined(e: &WeightEntry, file_len: Option<usize>) -> bool {
    file_len is Some ==> {
        &&& entry_end(e) <= usize::MAX
        &&& entry_end(e) <= file_len.unwrap() ==> {
            &&& product_fits(e.shape@)
            &&& shape_product(e.shape@, e.shape@.len() as int) * 4 <= usize::MAX
            &&& e.kind@ == tensor_kind() && (e.length as usize == shape_product(
                e.shape@,
                e.shape@.len() as int,
            ) * 4 || e.length as usize == shape_product(e.shape@, e.shape@.len() as int) * 2)
                ==> e.shape@.len() >= 2
        }
    }
}

/// The role of a matrix entry with key `key`.
pub open spec fn role_of(key: Seq<u8>, embed_key: Seq<u8>) -> TensorRole {
    if key == lm_head_key() {
        TensorRole::LmHead
    } else if key == embed_key {
        TensorRole::Embed
    } else {
        TensorRole::Other
    }
}

/// Product of all dimensions of `shape`.
fn product(shape: &[usize]) -> (p: usize)
    requires
        product_fits(shape@),
    ensures
        p == shape_product(shape@, shape@.len() as int),
{
    let mut p: usize = 1;
    let mut i: usize = 0;
    while i < shape.len()
        invariant
            i <= shape@.len(),
            product_fits(shape@),
            p == shape_product(shape@, i as int),
        decreases shape@.len() - i,
    {
        assert(shape_product(shape@, i + 1) <= usize::MAX);
        p = p * shape[i];
        i = i + 1;
    }
    p
}

/// The matrix check of building a `rows` by `cols` matrix from `len` values.
fn check_shape(rows: usize, cols: usize, len: usize) -> (r: Option<ShapeFault>)
    ensures
        r == shape_fault(rows, cols, len as int),
{
    let nr: u128 = if rows != 0 {
        rows as u128
    } else {
        1
    };
    let nc: u128 = if cols != 0 {
        cols as u128
    } else {
        1
    };
    assert(nr * nc <= 0xffff_ffff_ffff_ffffu128 * 0xffff_ffff_ffff_ffffu128) by (nonlinear_arith)
        requires
            nr <= 0xffff_ffff_ffff_ffffu128,
            nc <= 0xffff_ffff_ffff_ffffu128,
    ;
    let nz = nr * nc;
    if nz > isize::MAX as u128 {
        return Some(ShapeFault::Overflow);
    }
    assert((rows as u128) * (cols as u128) <= 0xffff_ffff_ffff_ffffu128 * 0xffff_ffff_ffff_ffffu128)
        by (nonlinear_arith)
        requires
            rows <= 0xffff_ffff_ffff_ffffu64,
            cols <= 0xffff_ffff_ffff_ffffu64,
    ;
    let size = (rows as u128) * (cols as u128);
    if size > len as u128 {
        return Some(ShapeFault::OutOfBounds);
    }
    if size != len as u128 {
        return Some(ShapeFault::IncompatibleShape);
    }
    None
}

/// What loading does with one entry, `file_len` being the length of its
/// file or `None` when the file does not exist.
pub open spec fn entry_outcome_matches(
    r: Result<Option<EntryLoad>, SplitError>,
    e: &WeightEntry,
    file_len: Option<usize>,
    embed_key: Seq<u8>,
) -> bool {
    match file_len {
        None => r == Ok::<Option<EntryLoad>, SplitError>(None),
        Some(flen) => {
            let start = entry_start(e);
            let end = entry_end(e);
            let len = e.length as usize as int;
            let expected = shape_product(e.shape@, e.shape@.len() as int);
            if end > flen {
                r matches Err(SplitError::OffsetOutOfBounds { key }) && key@ == e.key@
            } else if len != expected * 4 && len != expected * 2 {
                r matches Err(SplitError::SizeMismatch { key }) && key@ == e.key@
            } else {
                let encoding = if len == expected * 4 {
                    Encoding::F32
                } else {
                    Encoding::F16
                };
                let load = |dest: Destination|
                    EntryLoad {
                        start: start as usize,
                        end: end as usize,
                        encoding,
                        count: expected as usize,
                        dest,
                    };
                if e.kind@ == tensor_kind() {
                    let rows = e.shape@[0];
                    let cols = e.shape@[1];
                    match shape_fault(rows, cols, expected) {
                        Some(f) => r matches Err(SplitError::Shape(g)) && g == f,
                        None => r == Ok::<Option<EntryLoad>, SplitError>(
                            Some(
                                load(
                                    Destination::Tensor {
                                        rows,
                                        cols,
                                        role: role_of(e.key@, embed_key),
                                    },
                                ),
                            ),
                        ),
                    }
                } else if e.kind@ == vector_kind() {
                    r == Ok::<Option<EntryLoad>, SplitError>(Some(load(Destination::Vector)))
                } else {
                    r == Ok::<Option<EntryLoad>, SplitError>(Some(load(Destination::Ignored)))
                }
            }
        },
    }
}

/// Decides how entry `e` is loaded: skipped (`None`) when its file does not
/// exist, else the byte range, encoding and destination of its values, or
/// the error that stops the load.
pub fn plan_entry(e: &WeightEntry, file_len: Option<usize>, embed_key: &[u8]) -> (r: Result<
    Option<EntryLoad>,
    SplitError,
>)
    requires
        entry_defined(e, file_len),
    ensures
        entry_outcome_matches(r, e, file_len, embed_key@),
{
    let flen = match file_len {
        None => return Ok(None),
        Some(n) => n,
    };
    let start = e.offset as usize;
    let len = e.length as usize;
    let end = start + len;
    if end > flen {
        let key = e.key.clone();
        assert(key@ == e.key@);
        return Err(SplitError::OffsetOutOfBounds { key });
    }
    let expected = product(e.shape.as_slice());
    let encoding = if len == expected * 4 {
        Encoding::F32
    } else if len == expected * 2 {
        Encoding::F16
    } else {
        let key = e.key.clone();
        assert(key@ == e.key@);
        return Err(SplitError::SizeMismatch { key });
    };
    let tensor: Vec<u8> = vec![116u8, 101u8, 110u8, 115u8, 111u8, 114u8];
    let vector: Vec<u8> = vec![118u8, 101u8, 99u8, 116u8, 111u8, 114u8];
    assert(tensor@ =~= tensor_kind());
    assert(vector@ =~= vector_kind());
    let dest = if bytes_eq(e.kind.as_slice(), tensor.as_slice()) {
        let rows = e.shape[0];
        let cols = e.shape[1];
        match check_shape(rows, cols, expected) {
            Some(f) => return Err(SplitError::Shape(f)),
            None => {},
        }
        let lm_head: Vec<u8> = vec![108u8, 109u8, 95u8, 104u8, 101u8, 97u8, 100u8, 46u8, 119u8,
            101u8, 105u8, 103u8, 104u8, 116u8];
        assert(lm_head@ =~= lm_head_key());
        let role = if bytes_eq(e.key.as_slice(), lm_head.as_slice()) {
            TensorRole::LmHead
        } else if bytes_eq(e.key.as_slice(), embed_key) {
            TensorRole::Embed
        } else {
            TensorRole::Other
        };
        Destination::Tensor { rows, cols, role }
    } else if bytes_eq(e.kind.as_slice(), vector.as_slice()) {
        Destination::Vector
    } else {
        Destination::Ignored
    };
    Ok(Some(EntryLoad { start, end, encoding, count: expected, dest }))
}

/// Entry `i` of the plans is a matrix with role `role`.
pub open spec fn has_role(plans: Seq<Option<EntryLoad>>, i: int, role: TensorRole) -> bool {
    plans[i] matches Some(load) && load.dest matches Destination::Tensor { role: r, .. } && r
        == role
}

/// `i` is the last entry with role `role`.
pub open spec fn is_last_with_role(plans: Seq<Option<EntryLoad>>, role: TensorRole, i: int) -> bool {
    0 <= i < plans.len() && has_role(plans, i, role) && forall|j: int|
        i < j < plans.len() ==> !#[trigger] has_role(plans, j, role)
}

/// The load of the last entry with role `role`, if any.
pub open spec fn last_role_load(plans: Seq<Option<EntryLoad>>, role: TensorRole) -> Option<EntryLoad>
    decreases plans.len(),
{
    if plans.len() == 0 {
        None
    } else if has_role(plans, plans.len() - 1, role) {
        plans.last()
    } else {
        last_role_load(plans.drop_last(), role)
    }
}

/// No entry has role `role`.
pub open spec fn no_role(plans: Seq<Option<EntryLoad>>, role: TensorRole) -> bool {
    forall|j: int| 0 <= j < plans.len() ==> !#[trigger] has_role(plans, j, role)
}

/// The index of the last entry with role `role`.
fn last_with_role(plans: &[Option<EntryLoad>], role: TensorRole) -> (r: Option<usize>)
    ensures
        match r {
            Some(i) => is_last_with_role(plans@, role, i as int),
            None => no_role(plans@, role),
        },
{
    let mut found: Option<usize> = None;
    let mut i: usize = 0;
    while i < plans.len()
        invariant
            i <= plans@.len(),
            match found {
                Some(f) => f < i && has_role(plans@, f as int, role) && forall|j: int|
                    f < j < i ==> !#[trigger] has_role(plans@, j, role),
                None => forall|j: int| 0 <= j < i ==> !#[trigger] has_role(plans@, j, role),
            },
        decreases plans@.len() - i,
    {
        let is_role = match plans[i] {
            Some(load) => match load.dest {
                Destination::Tensor { role: r, .. } => r == role,
                _ => false,
            },
            None => false,
        };
        if is_role {
            found = Some(i);
        }
        i = i + 1;
    }
    found
}

/// Picks the embedding and the output head among the planned entries: the
/// last embedding entry, and the last `lm_head.weight` entry or else the
/// embedding again.
pub fn select_embed_and_lm_head(plans: &[Option<EntryLoad>], embed_key: &[u8]) -> (r: Result<
    (usize, usize),
    SplitError,
>)
    ensures
        no_role(plans@, TensorRole::Embed) ==> (r matches Err(SplitError::MissingTensor { key })
            && key@ == embed_key@),
        !no_role(plans@, TensorRole::Embed) ==> (r matches Ok((e, h)) && is_last_with_role(
            plans@,
            TensorRole::Embed,
            e as int,
        ) && if no_role(plans@, TensorRole::LmHead) {
            h == e
        } else {
            is_last_with_role(plans@, TensorRole::LmHead, h as int)
        }),
{
    let embed = match last_with_role(plans, TensorRole::Embed) {
        Some(i) => i,
        None => {
            let mut key: Vec<u8> = Vec::new();
            crate::bytes::push_all(&mut key, embed_key);
            assert(key@ =~= embed_key@);
            return Err(SplitError::MissingTensor { key });
        },
    };
    let head = match last_with_role(plans, TensorRole::LmHead) {
        Some(i) => i,
        None => embed,
    };
    Ok((embed, head))
}

/// Whether every partial product of `shape` fits in usize, and the full product.
fn checked_product(shape: &[usize]) -> (r: Option<usize>)
    ensures
        r is Some == product_fits(shape@),
        r matches Some(p) ==> p == shape_product(shape@, shape@.len() as int),
{
    let mut p: usize = 1;
    let mut i: usize = 0;
    while i < shape.len()
        invariant
            i <= shape@.len(),
            p == shape_product(shape@, i as int),
            forall|k: int| 0 <= k <= i ==> #[trigger] shape_product(shape@, k) <= usize::MAX,
        decreases shape@.len() - i,
    {
        assert((p as u128) * (shape[i as int] as u128) <= 0xffff_ffff_ffff_ffffu128
            * 0xffff_ffff_ffff_ffffu128) by (nonlinear_arith)
            requires
                p <= 0xffff_ffff_ffff_ffffu64,
                shape[i as int] <= 0xffff_ffff_ffff_ffffu64,
        ;
        let next = (p as u128) * (shape[i] as u128);
        if next > usize::MAX as u128 {
            assert(!(shape_product(shape@, i + 1) <= usize::MAX));
            return None;
        }
        p = next as usize;
        i = i + 1;
    }
    Some(p)
}

/// Checks what `plan_entry` needs; the fault is the first the loader would
/// stop on.
pub fn check_entry(e: &WeightEntry, file_len: Option<usize>) -> (r: Result<(), PlanFault>)
    ensures
        r is Ok == entry_defined(e, file_len),
        r matches Err(PlanFault::NoDims) ==> file_len is Some && entry_end(e) <= usize::MAX
            && product_fits(e.shape@) && shape_product(e.shape@, e.shape@.len() as int) * 4
            <= usize::MAX,
        r matches Err(PlanFault::Overflow) ==> file_len is Some && !(entry_end(e) <= usize::MAX
            && (entry_end(e) <= file_len.unwrap() ==> product_fits(e.shape@) && shape_product(
            e.shape@,
            e.shape@.len() as int,
        ) * 4 <= usize::MAX)),
        !(r matches Err(PlanFault::UnknownType(_))),
{
    let flen = match file_len {
        None => return Ok(()),
        Some(n) => n,
    };
    let start = e.offset as usize;
    let len = e.length as usize;
    if start > usize::MAX - len {
        return Err(PlanFault::Overflow);
    }
    if start + len > flen {
        return Ok(());
    }
    let expected = match checked_product(e.shape.as_slice()) {
        Some(p) => p,
        None => return Err(PlanFault::Overflow),
    };
    if expected > usize::MAX / 4 {
        return Err(PlanFault::Overflow);
    }
    let tensor: Vec<u8> = vec![116u8, 101u8, 110u8, 115u8, 111u8, 114u8];
    assert(tensor@ =~= tensor_kind());
    if bytes_eq(e.kind.as_slice(), tensor.as_slice()) && (len == expected * 4 || len == expected
        * 2) && e.shape.len() < 2 {
        return Err(PlanFault::NoDims);
    }
    Ok(())
}

} // verus!
