//! The GGUF header as the command-line tools walk it: 8 bytes of magic and
//! version, the tensor and metadata counts, the metadata key/value pairs,
//! then the tensor descriptors. The walk follows a file cursor that may be
//! moved past the end of the data by a skip; only reads need the bytes.

use vstd::prelude::*;
use vstd::utf8::valid_utf8;
use crate::bytes::{copy_range, in_bounds, is_valid_utf8, le_u32, le_u64, read_u32_le, read_u64_le};

verus! {

broadcast use vstd::seq_lib::group_seq_properties;

/// The largest cursor position a skip may reach (the largest file offset).
pub const MAX_POS: u64 = 0x7fff_ffff_ffff_ffff;

/// Why a GGUF header could not be walked.
#[derive(Clone, Copy, Debug, PartialEq, Eq, Structural)]
pub enum GgufError {
    /// A read needed bytes past the end of the data.
    UnexpectedEof,
    /// A skip would move the cursor past the largest file offset.
    SeekOutOfRange,
    /// A key or tensor name is not well-formed UTF-8.
    InvalidUtf8,
    /// A metadata value has a type code the format does not define.
    UnsupportedValueType(u32),
}

/// How the walk treats metadata keys.
#[derive(Clone, Copy, Debug, PartialEq, Eq, Structural)]
pub enum KeyMode {
    /// Read each key, check that it is UTF-8 and keep it.
    Read,
    /// Skip over each key without reading it.
    Skip,
}

/// One tensor descriptor of the header.
pub struct TensorInfo {
    pub name: Vec<u8>,
    pub dims: Vec<u64>,
    pub tensor_type: u32,
    pub offset: u64,
}

/// The mathematical value of a tensor descriptor.
pub struct TensorRecord {
    pub name: Seq<u8>,
    pub dims: Seq<u64>,
    pub tensor_type: u32,
    pub offset: u64,
}

impl View for TensorInfo {
    type V = TensorRecord;

    open spec fn view(&self) -> TensorRecord {
        TensorRecord {
            name: self.name@,
            dims: self.dims@,
            tensor_type: self.tensor_type,
            offset: self.offset,
        }
    }
}

/// One metadata key with the type code of its value.
pub struct MetadataKv {
    pub key: Vec<u8>,
    pub value_type: u32,
}

/// The mathematical value of a metadata key/value pair.
pub struct KvRecord {
    pub key: Seq<u8>,
    pub value_type: u32,
}

impl View for MetadataKv {
    type V = KvRecord;

    open spec fn view(&self) -> KvRecord {
        KvRecord { key: self.key@, value_type: self.value_type }
    }
}

/// What a walk of the header yields.
pub struct GgufHeader {
    /// The metadata keys read (none when keys are skipped).
    pub metadata: Vec<MetadataKv>,
    /// The tensor descriptors, in file order.
    pub tensors: Vec<TensorInfo>,
    /// The cursor position after the last descriptor.
    pub data_offset: u64,
}

/// The mathematical value of a walked header.
pub struct HeaderRecord {
    pub metadata: Seq<KvRecord>,
    pub tensors: Seq<TensorRecord>,
    pub data_offset: int,
}

pub open spec fn kv_records(s: Seq<MetadataKv>) -> Seq<KvRecord> {
    s.map_values(|kv: MetadataKv| kv@)
}

pub open spec fn tensor_records(s: Seq<TensorInfo>) -> Seq<TensorRecord> {
    s.map_values(|t: TensorInfo| t@)
}

impl View for GgufHeader {
    type V = HeaderRecord;

    open spec fn view(&self) -> HeaderRecord {
        HeaderRecord {
            metadata: kv_records(self.metadata@),
            tensors: tensor_records(self.tensors@),
            data_offset: self.data_offset as int,
        }
    }
}

/// Bytes left in `data` from `pos` on (0 past the end).
pub open spec fn rem(data: Seq<u8>, pos: int) -> nat {
    if pos < data.len() {
        (data.len() - pos) as nat
    } else {
        0
    }
}

/// Byte width of a fixed-size metadata value type, 0 for the other codes.
pub open spec fn scalar_width(vt: u32) -> int {
    if vt == 0 || vt == 1 || vt == 7 {
        1
    } else if vt == 2 || vt == 3 {
        2
    } else if vt == 4 || vt == 5 || vt == 6 {
        4
    } else if vt == 10 || vt == 11 || vt == 12 {
        8
    } else {
        0
    }
}

/// A skip of `n` bytes from `pos`.
pub open spec fn skip(pos: int, n: int) -> Result<nat, GgufError> {
    if pos + n <= MAX_POS {
        Ok(n as nat)
    } else {
        Err(GgufError::SeekOutOfRange)
    }
}

/// How far the cursor moves past one metadata value of type `vt` at `pos`:
/// a fixed-size value is skipped; a string is its u64 length then a skip of
/// that many bytes; an array is its u32 element type, its u64 count, then
/// each element in turn.
pub open spec fn value_extent(data: Seq<u8>, pos: int, vt: u32) -> Result<nat, GgufError>
    decreases rem(data, pos), 0nat,
{
    if scalar_width(vt) > 0 {
        skip(pos, scalar_width(vt))
    } else if vt == 8 {
        if !in_bounds(data, pos, 8) {
            Err(GgufError::UnexpectedEof)
        } else {
            match skip(pos + 8, le_u64(data, pos)) {
                Ok(n) => Ok(8 + n),
                Err(e) => Err(e),
            }
        }
    } else if vt == 9 {
        if !in_bounds(data, pos, 12) {
            Err(GgufError::UnexpectedEof)
        } else {
            match elems_extent(
                data,
                pos + 12,
                le_u32(data, pos) as u32,
                le_u64(data, pos + 4) as nat,
            ) {
                Ok(m) => Ok(12 + m),
                Err(e) => Err(e),
            }
        }
    } else {
        Err(GgufError::UnsupportedValueType(vt))
    }
}

/// How far the cursor moves past `count` values of type `et` at `pos`.
pub open spec fn elems_extent(data: Seq<u8>, pos: int, et: u32, count: nat) -> Result<
    nat,
    GgufError,
>
    decreases rem(data, pos), count + 1,
{
    if count == 0 {
        Ok(0)
    } else {
        match value_extent(data, pos, et) {
            Ok(n) => match elems_extent(data, pos + n, et, (count - 1) as nat) {
                Ok(m) => Ok(n + m),
                Err(e) => Err(e),
            },
            Err(e) => Err(e),
        }
    }
}

/// `count` fixed-size values move the cursor by `count` times their width.
proof fn lemma_scalar_elems(data: Seq<u8>, pos: int, et: u32, count: nat)
    requires
        scalar_width(et) > 0,
        0 <= pos <= MAX_POS,
    ensures
        elems_extent(data, pos, et, count) == (if pos + count * scalar_width(et) <= MAX_POS {
            Ok::<nat, GgufError>((count * scalar_width(et)) as nat)
        } else {
            Err::<nat, GgufError>(GgufError::SeekOutOfRange)
        }),
    decreases count,
{
    let w = scalar_width(et);
    if count > 0 {
        assert(count * w == w + (count - 1) * w) by (nonlinear_arith);
        assert(count * w >= w) by (nonlinear_arith)
            requires
                count >= 1,
                w > 0,
        ;
        assert((count - 1) * w >= 0) by (nonlinear_arith)
            requires
                count >= 1,
                w > 0,
        ;
        assert(value_extent(data, pos, et) == skip(pos, w));
        if pos + w <= MAX_POS {
            lemma_scalar_elems(data, pos + w, et, (count - 1) as nat);
        }
    }
}

/// Skips one metadata value of type `vt` at `pos` and returns the new cursor.
pub fn skip_gguf_value(data: &[u8], pos: u64, vt: u32) -> (r: Result<u64, GgufError>)
    requires
        data@.len() <= MAX_POS,
        pos <= MAX_POS,
    ensures
        match value_extent(data@, pos as int, vt) {
            Ok(n) => pos + n <= MAX_POS && r == Ok::<u64, GgufError>((pos + n) as u64),
            Err(e) => r == Err::<u64, GgufError>(e),
        },
    decreases rem(data@, pos as int),
{
    let width: u64 = if vt == 0 || vt == 1 || vt == 7 {
        1
    } else if vt == 2 || vt == 3 {
        2
    } else if vt == 4 || vt == 5 || vt == 6 {
        4
    } else if vt == 10 || vt == 11 || vt == 12 {
        8
    } else {
        0
    };
    if width > 0 {
        if MAX_POS - pos < width {
            return Err(GgufError::SeekOutOfRange);
        }
        return Ok(pos + width);
    }
    if vt == 8 {
        let slen = match read_u64_le(data, pos) {
            Some(v) => v,
            None => return Err(GgufError::UnexpectedEof),
        };
        let p = pos + 8;
        if slen > MAX_POS - p {
            return Err(GgufError::SeekOutOfRange);
        }
        return Ok(p + slen);
    }
    if vt == 9 {
        let et = match read_u32_le(data, pos) {
            Some(v) => v,
            None => return Err(GgufError::UnexpectedEof),
        };
        let count = match read_u64_le(data, pos + 4) {
            Some(v) => v,
            None => return Err(GgufError::UnexpectedEof),
        };
        let base = pos + 12;
        let ghost ext = elems_extent(data@, base as int, et, count as nat);
        assert(value_extent(data@, pos as int, vt) == match ext {
            Ok(m) => Ok::<nat, GgufError>(12 + m),
            Err(e) => Err::<nat, GgufError>(e),
        });
        let ew: u64 = if et == 0 || et == 1 || et == 7 {
            1
        } else if et == 2 || et == 3 {
            2
        } else if et == 4 || et == 5 || et == 6 {
            4
        } else if et == 10 || et == 11 || et == 12 {
            8
        } else {
            0
        };
        if ew > 0 {
            proof {
                lemma_scalar_elems(data@, base as int, et, count as nat);
            }
            assert((count as u128) * (ew as u128) <= 0xffff_ffff_ffff_ffffu128 * 8)
                by (nonlinear_arith)
                requires
                    count <= 0xffff_ffff_ffff_ffffu64,
                    ew <= 8,
            ;
            let total: u128 = (count as u128) * (ew as u128);
            if total > (MAX_POS - base) as u128 {
                return Err(GgufError::SeekOutOfRange);
            }
            return Ok(base + total as u64);
        }
        let mut p = base;
        let mut i: u64 = 0;
        while i < count
            invariant
                data@.len() <= MAX_POS,
                pos + 12 <= data@.len(),
                base == pos + 12,
                base <= p <= MAX_POS,
                i <= count,
                ext == elems_extent(data@, base as int, et, count as nat),
                value_extent(data@, pos as int, vt) == match ext {
                    Ok(m) => Ok::<nat, GgufError>(12 + m),
                    Err(e) => Err::<nat, GgufError>(e),
                },
                ext == match elems_extent(data@, p as int, et, (count - i) as nat) {
                    Ok(m) => Ok::<nat, GgufError>((p - base + m) as nat),
                    Err(e) => Err::<nat, GgufError>(e),
                },
            decreases count - i,
        {
            let ghost rest = elems_extent(data@, p as int, et, (count - i) as nat);
            match skip_gguf_value(data, p, et) {
                Ok(q) => {
                    let ghost n = (q - p) as nat;
                    assert(rest == match elems_extent(data@, q as int, et, (count - i - 1) as nat) {
                        Ok(m) => Ok::<nat, GgufError>(n + m),
                        Err(e) => Err::<nat, GgufError>(e),
                    });
                    p = q;
                    i = i + 1;
                },
                Err(e) => {
                    assert(rest == Err::<nat, GgufError>(e));
                    return Err(e);
                },
            }
        }
        assert(elems_extent(data@, p as int, et, 0) == Ok::<nat, GgufError>(0));
        return Ok(p);
    }
    Err(GgufError::UnsupportedValueType(vt))
}

/// Prepends `head` to the items of a successful walk.
pub open spec fn then_seq<T>(head: Seq<T>, r: Result<(Seq<T>, int), GgufError>) -> Result<
    (Seq<T>, int),
    GgufError,
> {
    match r {
        Ok((s, q)) => Ok((head + s, q)),
        Err(e) => Err(e),
    }
}

proof fn lemma_then_seq_assoc<T>(a: Seq<T>, b: Seq<T>, r: Result<(Seq<T>, int), GgufError>)
    ensures
        then_seq(a, then_seq(b, r)) == then_seq(a + b, r),
{
    if let Ok((s, q)) = r {
        assert(a + (b + s) =~= (a + b) + s);
    }
}

/// The cursor after the key of a metadata pair whose key length sits at `pos`.
pub open spec fn key_end(data: Seq<u8>, pos: int, mode: KeyMode) -> Result<int, GgufError> {
    let p = pos + 8;
    match mode {
        KeyMode::Read => {
            let k = (le_u64(data, pos) as u64) as usize as int;
            if !in_bounds(data, p, k) {
                Err(GgufError::UnexpectedEof)
            } else if !valid_utf8(data.subrange(p, p + k)) {
                Err(GgufError::InvalidUtf8)
            } else {
                Ok(p + k)
            }
        },
        KeyMode::Skip => match skip(p, le_u64(data, pos)) {
            Ok(k) => Ok(p + k),
            Err(e) => Err(e),
        },
    }
}

/// One metadata pair at `pos`: its record (when keys are read) and the cursor after it.
pub open spec fn kv_step(data: Seq<u8>, pos: int, mode: KeyMode) -> Result<
    (Seq<KvRecord>, int),
    GgufError,
> {
    if !in_bounds(data, pos, 8) {
        Err(GgufError::UnexpectedEof)
    } else {
        match key_end(data, pos, mode) {
            Err(e) => Err(e),
            Ok(p2) => if !in_bounds(data, p2, 4) {
                Err(GgufError::UnexpectedEof)
            } else {
                let vt = le_u32(data, p2) as u32;
                match value_extent(data, p2 + 4, vt) {
                    Err(e) => Err(e),
                    Ok(m) => Ok(
                        (
                            if mode == KeyMode::Read {
                                seq![KvRecord { key: data.subrange(pos + 8, p2), value_type: vt }]
                            } else {
                                Seq::<KvRecord>::empty()
                            },
                            p2 + 4 + m,
                        ),
                    ),
                }
            },
        }
    }
}

/// `n` metadata pairs from `pos`.
pub open spec fn metadata_spec(data: Seq<u8>, pos: int, n: nat, mode: KeyMode) -> Result<
    (Seq<KvRecord>, int),
    GgufError,
>
    decreases n,
{
    if n == 0 {
        Ok((Seq::empty(), pos))
    } else {
        match kv_step(data, pos, mode) {
            Err(e) => Err(e),
            Ok((kv, q)) => then_seq(kv, metadata_spec(data, q, (n - 1) as nat, mode)),
        }
    }
}

/// Whether every key length met by the skipping walk over `n` metadata pairs
/// from `pos` fits in `usize`, so that reading a key takes it whole.
pub open spec fn key_lengths_fit(data: Seq<u8>, pos: int, n: nat) -> bool
    decreases n,
{
    n == 0 || !in_bounds(data, pos, 8) || (le_u64(data, pos) <= usize::MAX && match kv_step(
        data,
        pos,
        KeyMode::Skip,
    ) {
        Ok((_, q)) => key_lengths_fit(data, q, (n - 1) as nat),
        Err(_) => true,
    })
}

/// Whether every metadata key length of the header fits in `usize`.
pub open spec fn header_keys_fit(data: Seq<u8>) -> bool {
    !in_bounds(data, 8, 16) || key_lengths_fit(data, 24, le_u64(data, 16) as nat)
}

/// `n` little-endian u64 dimensions from `pos`.
pub open spec fn dims_spec(data: Seq<u8>, pos: int, n: nat) -> Result<(Seq<u64>, int), GgufError>
    decreases n,
{
    if n == 0 {
        Ok((Seq::empty(), pos))
    } else if !in_bounds(data, pos, 8) {
        Err(GgufError::UnexpectedEof)
    } else {
        then_seq(seq![le_u64(data, pos) as u64], dims_spec(data, pos + 8, (n - 1) as nat))
    }
}

/// One tensor descriptor at `pos`: u64 name length, the UTF-8 name, u32
/// dimension count, the u64 dimensions, u32 type and u64 offset.
pub open spec fn tensor_step(data: Seq<u8>, pos: int) -> Result<(TensorRecord, int), GgufError> {
    if !in_bounds(data, pos, 8) {
        Err(GgufError::UnexpectedEof)
    } else {
        let k = (le_u64(data, pos) as u64) as usize as int;
        let p = pos + 8;
        if !in_bounds(data, p, k) {
            Err(GgufError::UnexpectedEof)
        } else if !valid_utf8(data.subrange(p, p + k)) {
            Err(GgufError::InvalidUtf8)
        } else if !in_bounds(data, p + k, 4) {
            Err(GgufError::UnexpectedEof)
        } else {
            match dims_spec(data, p + k + 4, le_u32(data, p + k) as nat) {
                Err(e) => Err(e),
                Ok((dims, p3)) => if !in_bounds(data, p3, 12) {
                    Err(GgufError::UnexpectedEof)
                } else {
                    Ok(
                        (
                            TensorRecord {
                                name: data.subrange(p, p + k),
                                dims,
                                tensor_type: le_u32(data, p3) as u32,
                                offset: le_u64(data, p3 + 4) as u64,
                            },
                            p3 + 12,
                        ),
                    )
                },
            }
        }
    }
}

/// `n` tensor descriptors from `pos`.
pub open spec fn tensor_infos_spec(data: Seq<u8>, pos: int, n: nat) -> Result<
    (Seq<TensorRecord>, int),
    GgufError,
>
    decreases n,
{
    if n == 0 {
        Ok((Seq::empty(), pos))
    } else {
        match tensor_step(data, pos) {
            Err(e) => Err(e),
            Ok((t, q)) => then_seq(seq![t], tensor_infos_spec(data, q, (n - 1) as nat)),
        }
    }
}

/// The walk of a whole header: the tensor count at 8, the metadata count at
/// 16, the metadata pairs from 24, then the tensor descriptors.
pub open spec fn header_spec(data: Seq<u8>, mode: KeyMode) -> Result<HeaderRecord, GgufError> {
    if !in_bounds(data, 8, 16) {
        Err(GgufError::UnexpectedEof)
    } else {
        match metadata_spec(data, 24, le_u64(data, 16) as nat, mode) {
            Err(e) => Err(e),
            Ok((kvs, p)) => match tensor_infos_spec(data, p, le_u64(data, 8) as nat) {
                Err(e) => Err(e),
                Ok((ts, q)) => Ok(HeaderRecord { metadata: kvs, tensors: ts, data_offset: q }),
            },
        }
    }
}

/// Reads one metadata pair at `pos`.
fn read_metadata_kv(data: &[u8], pos: u64, mode: KeyMode) -> (r: Result<
    (Option<MetadataKv>, u64),
    GgufError,
>)
    requires
        data@.len() <= MAX_POS,
        pos <= data@.len(),
    ensures
        match kv_step(data@, pos as int, mode) {
            Ok((kvs, q)) => r is Ok && q <= MAX_POS && r.unwrap().1 == q && kvs == match r.unwrap().0 {
                Some(kv) => seq![kv@],
                None => Seq::<KvRecord>::empty(),
            },
            Err(e) => r == Err::<(Option<MetadataKv>, u64), GgufError>(e),
        },
{
    let klen = match read_u64_le(data, pos) {
        Some(v) => v,
        None => return Err(GgufError::UnexpectedEof),
    };
    let p1 = pos + 8;
    let mut key: Option<Vec<u8>> = None;
    let p2: u64 = match mode {
        KeyMode::Read => {
            let k = klen as usize;
            let start = p1 as usize;
            if data.len() - start < k {
                return Err(GgufError::UnexpectedEof);
            }
            if !is_valid_utf8(data, start, start + k) {
                return Err(GgufError::InvalidUtf8);
            }
            key = Some(copy_range(data, start, start + k));
            p1 + k as u64
        },
        KeyMode::Skip => {
            if klen > MAX_POS - p1 {
                return Err(GgufError::SeekOutOfRange);
            }
            p1 + klen
        },
    };
    assert(key_end(data@, pos as int, mode) == Ok::<int, GgufError>(p2 as int));
    let vt = match read_u32_le(data, p2) {
        Some(v) => v,
        None => return Err(GgufError::UnexpectedEof),
    };
    let q = match skip_gguf_value(data, p2 + 4, vt) {
        Ok(q) => q,
        Err(e) => return Err(e),
    };
    let kv = match key {
        Some(k) => Some(MetadataKv { key: k, value_type: vt }),
        None => None,
    };
    Ok((kv, q))
}

/// Reads `n` little-endian u64 values from `pos`.
fn read_dims(data: &[u8], pos: u64, n: u32) -> (r: Result<(Vec<u64>, u64), GgufError>)
    requires
        data@.len() <= MAX_POS,
        pos <= data@.len(),
    ensures
        match dims_spec(data@, pos as int, n as nat) {
            Ok((dims, q)) => r is Ok && r.unwrap().0@ == dims && r.unwrap().1 == q && q
                <= data@.len(),
            Err(e) => r == Err::<(Vec<u64>, u64), GgufError>(e),
        },
{
    let mut dims: Vec<u64> = Vec::new();
    let mut q = pos;
    let mut j: u32 = 0;
    while j < n
        invariant
            data@.len() <= MAX_POS,
            pos <= q <= data@.len(),
            j <= n,
            dims_spec(data@, pos as int, n as nat) == then_seq(
                dims@,
                dims_spec(data@, q as int, (n - j) as nat),
            ),
        decreases n - j,
    {
        let d = match read_u64_le(data, q) {
            Some(v) => v,
            None => return Err(GgufError::UnexpectedEof),
        };
        proof {
            lemma_then_seq_assoc(dims@, seq![d], dims_spec(data@, q + 8, (n - j - 1) as nat));
        }
        assert(dims_spec(data@, q as int, (n - j) as nat) == then_seq(
            seq![d],
            dims_spec(data@, q + 8, (n - j - 1) as nat),
        ));
        assert(dims@.push(d) =~= dims@ + seq![d]);
        dims.push(d);
        q = q + 8;
        j = j + 1;
    }
    assert(dims@ + Seq::<u64>::empty() =~= dims@);
    Ok((dims, q))
}

/// Reads one tensor descriptor at `pos`.
fn read_tensor_info(data: &[u8], pos: u64) -> (r: Result<(TensorInfo, u64), GgufError>)
    requires
        data@.len() <= MAX_POS,
        pos <= data@.len(),
    ensures
        match tensor_step(data@, pos as int) {
            Ok((t, q)) => r is Ok && r.unwrap().0@ == t && r.unwrap().1 == q && q <= data@.len(),
            Err(e) => r == Err::<(TensorInfo, u64), GgufError>(e),
        },
{
    let nlen = match read_u64_le(data, pos) {
        Some(v) => v,
        None => return Err(GgufError::UnexpectedEof),
    };
    let k = nlen as usize;
    let start = (pos + 8) as usize;
    if data.len() - start < k {
        return Err(GgufError::UnexpectedEof);
    }
    if !is_valid_utf8(data, start, start + k) {
        return Err(GgufError::InvalidUtf8);
    }
    let name = copy_range(data, start, start + k);
    let p2 = (start + k) as u64;
    let n_dims = match read_u32_le(data, p2) {
        Some(v) => v,
        None => return Err(GgufError::UnexpectedEof),
    };
    let (dims, p3) = match read_dims(data, p2 + 4, n_dims) {
        Ok(v) => v,
        Err(e) => return Err(e),
    };
    let tensor_type = match read_u32_le(data, p3) {
        Some(v) => v,
        None => return Err(GgufError::UnexpectedEof),
    };
    let offset = match read_u64_le(data, p3 + 4) {
        Some(v) => v,
        None => return Err(GgufError::UnexpectedEof),
    };
    Ok((TensorInfo { name, dims, tensor_type, offset }, p3 + 12))
}

/// Walks the GGUF header in `data`, reading or skipping metadata keys by `mode`.
pub fn parse_header(data: &[u8], mode: KeyMode) -> (r: Result<GgufHeader, GgufError>)
    requires
        data@.len() <= MAX_POS,
    ensures
        match header_spec(data@, mode) {
            Ok(h) => r is Ok && r.unwrap()@ == h,
            Err(e) => r == Err::<GgufHeader, GgufError>(e),
        },
        r matches Ok(h) ==> h.data_offset <= MAX_POS,
{
    let n_tensors = match read_u64_le(data, 8) {
        Some(v) => v,
        None => return Err(GgufError::UnexpectedEof),
    };
    let n_metadata = match read_u64_le(data, 16) {
        Some(v) => v,
        None => return Err(GgufError::UnexpectedEof),
    };
    let mut metadata: Vec<MetadataKv> = Vec::new();
    let mut p: u64 = 24;
    let mut i: u64 = 0;
    while i < n_metadata
        invariant
            data@.len() <= MAX_POS,
            24 <= data@.len(),
            p <= MAX_POS,
            i <= n_metadata,
            n_metadata == le_u64(data@, 16),
            metadata_spec(data@, 24, n_metadata as nat, mode) == then_seq(
                kv_records(metadata@),
                metadata_spec(data@, p as int, (n_metadata - i) as nat, mode),
            ),
        decreases n_metadata - i,
    {
        if p > data.len() as u64 {
            assert(!in_bounds(data@, p as int, 8));
            return Err(GgufError::UnexpectedEof);
        }
        let ghost old_md = kv_records(metadata@);
        match read_metadata_kv(data, p, mode) {
            Ok((kv, q)) => {
                let ghost step = match &kv {
                    Some(x) => seq![x@],
                    None => Seq::<KvRecord>::empty(),
                };
                proof {
                    lemma_then_seq_assoc(
                        old_md,
                        step,
                        metadata_spec(data@, q as int, (n_metadata - i - 1) as nat, mode),
                    );
                }
                match kv {
                    Some(x) => {
                        metadata.push(x);
                        assert(kv_records(metadata@) =~= old_md + step);
                    },
                    None => {
                        assert(kv_records(metadata@) =~= old_md + step);
                    },
                }
                p = q;
                i = i + 1;
            },
            Err(e) => return Err(e),
        }
    }
    assert(kv_records(metadata@) + Seq::<KvRecord>::empty() =~= kv_records(metadata@));
    let ghost md = kv_records(metadata@);
    assert(metadata_spec(data@, 24, n_metadata as nat, mode) == Ok::<(Seq<KvRecord>, int), GgufError>((md, p as int)));
    let mut tensors: Vec<TensorInfo> = Vec::new();
    let ghost p0 = p;
    let mut j: u64 = 0;
    while j < n_tensors
        invariant
            data@.len() <= MAX_POS,
            p <= MAX_POS,
            j <= n_tensors,
            n_tensors == le_u64(data@, 8),
            header_spec(data@, mode) == match tensor_infos_spec(data@, p0 as int, n_tensors as nat) {
                Err(e) => Err(e),
                Ok((ts, q)) => Ok(HeaderRecord { metadata: md, tensors: ts, data_offset: q }),
            },
            tensor_infos_spec(data@, p0 as int, n_tensors as nat) == then_seq(
                tensor_records(tensors@),
                tensor_infos_spec(data@, p as int, (n_tensors - j) as nat),
            ),
        decreases n_tensors - j,
    {
        if p > data.len() as u64 {
            assert(!in_bounds(data@, p as int, 8));
            return Err(GgufError::UnexpectedEof);
        }
        let ghost old_ts = tensor_records(tensors@);
        match read_tensor_info(data, p) {
            Ok((t, q)) => {
                proof {
                    lemma_then_seq_assoc(
                        old_ts,
                        seq![t@],
                        tensor_infos_spec(data@, q as int, (n_tensors - j - 1) as nat),
                    );
                }
                assert(tensor_infos_spec(data@, p as int, (n_tensors - j) as nat) == then_seq(
                    seq![t@],
                    tensor_infos_spec(data@, q as int, (n_tensors - j - 1) as nat),
                ));
                tensors.push(t);
                assert(tensor_records(tensors@) =~= old_ts + seq![t@]);
                p = q;
                j = j + 1;
            },
            Err(e) => return Err(e),
        }
    }
    assert(tensor_records(tensors@) + Seq::<TensorRecord>::empty() =~= tensor_records(tensors@));
    Ok(GgufHeader { metadata, tensors, data_offset: p })
}

/// `x` rounded up to a multiple of 32: the start of the data section of a
/// header whose tensor descriptors end at `x`.
pub open spec fn align32(x: int) -> int {
    (x + 31) / 32 * 32
}

/// Rounds `x` up to a multiple of 32.
pub fn align_data_offset(x: u64) -> (r: u64)
    requires
        x <= MAX_POS,
    ensures
        r == align32(x as int),
        r % 32 == 0,
        x <= r < x + 32,
{
    let y = x + 31;
    let r = y & !31u64;
    assert(r == (y / 32) * 32) by (bit_vector)
        requires
            r == y & !31u64,
    ;
    r
}

} // verus!
