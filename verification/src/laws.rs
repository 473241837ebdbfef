//! Properties that span the functions of the library.

use vstd::prelude::*;
use crate::ablate;
use crate::bytes::{decimal, has_prefix, in_bounds};
use crate::names::{ffn_name, ffn_suffix, block_prefix, FfnTensor};
use vstd::utf8::valid_utf8;
use crate::gguf::{
    header_spec, header_keys_fit, key_end, key_lengths_fit, kv_step, elems_extent, rem, scalar_width, value_extent, metadata_spec, tensor_infos_spec, tensor_step, dims_spec,
    align32, GgufError, HeaderRecord, KeyMode, KvRecord, TensorRecord, MAX_POS,
};
use crate::invert;
use crate::split::{
    entry_outcome_matches, has_role, shape_product, tensor_kind, vector_kind, Destination, is_last_with_role, last_role_load, no_role, Encoding,
    EntryLoad, SplitError, TensorRole, WeightEntry,
};
use crate::vindex::{batch, batch_count, strip_first_prefix};

verus! {

proof fn lemma_kv_step_agree(data: Seq<u8>, pos: int)
    requires
        data.len() <= MAX_POS,
        in_bounds(data, pos, 8) ==> crate::bytes::le_u64(data, pos) <= usize::MAX,
        0 <= pos,
    ensures
        kv_step(data, pos, KeyMode::Read) matches Ok((_, q)) ==> kv_step(data, pos, KeyMode::Skip)
            == Ok::<(Seq<KvRecord>, int), GgufError>((Seq::empty(), q)),
{
    if in_bounds(data, pos, 8) {
        if let Ok(p2) = key_end(data, pos, KeyMode::Read) {
            assert(key_end(data, pos, KeyMode::Skip) == Ok::<int, GgufError>(p2));
        }
    }
}

proof fn lemma_metadata_agree(data: Seq<u8>, pos: int, n: nat)
    requires
        data.len() <= MAX_POS,
        key_lengths_fit(data, pos, n),
        0 <= pos,
    ensures
        metadata_spec(data, pos, n, KeyMode::Read) matches Ok((_, q)) ==> metadata_spec(
            data,
            pos,
            n,
            KeyMode::Skip,
        ) == Ok::<(Seq<KvRecord>, int), GgufError>((Seq::empty(), q)),
    decreases n,
{
    if n > 0 {
        lemma_kv_step_agree(data, pos);
        if let Ok((kv, q)) = kv_step(data, pos, KeyMode::Read) {
            lemma_kv_step_forward(data, pos, KeyMode::Read);
            lemma_metadata_agree(data, q, (n - 1) as nat);
            if let Ok((rest, q2)) = metadata_spec(data, q, (n - 1) as nat, KeyMode::Read) {
                assert(Seq::<KvRecord>::empty() + Seq::<KvRecord>::empty() =~= Seq::<KvRecord>::empty());
            }
        }
    }
}

proof fn lemma_kv_step_skip_to_read(data: Seq<u8>, pos: int)
    requires
        data.len() <= MAX_POS,
        in_bounds(data, pos, 8) ==> crate::bytes::le_u64(data, pos) <= usize::MAX,
        0 <= pos,
    ensures
        kv_step(data, pos, KeyMode::Skip) matches Ok((_, q)) ==> (kv_step(data, pos, KeyMode::Read)
            matches Ok((_, q2)) && q2 == q) || kv_step(data, pos, KeyMode::Read) == Err::<
            (Seq<KvRecord>, int),
            GgufError,
        >(GgufError::InvalidUtf8),
{
    if in_bounds(data, pos, 8) {
        if let Ok(p2) = key_end(data, pos, KeyMode::Skip) {
            if in_bounds(data, p2, 4) {
                assert(in_bounds(data, pos + 8, crate::bytes::le_u64(data, pos)));
            }
        }
    }
}

proof fn lemma_metadata_skip_to_read(data: Seq<u8>, pos: int, n: nat)
    requires
        data.len() <= MAX_POS,
        key_lengths_fit(data, pos, n),
        0 <= pos,
    ensures
        metadata_spec(data, pos, n, KeyMode::Skip) matches Ok((_, q)) ==> (metadata_spec(
            data,
            pos,
            n,
            KeyMode::Read,
        ) matches Ok((_, q2)) && q2 == q) || metadata_spec(data, pos, n, KeyMode::Read) == Err::<
            (Seq<KvRecord>, int),
            GgufError,
        >(GgufError::InvalidUtf8),
    decreases n,
{
    if n > 0 {
        lemma_kv_step_skip_to_read(data, pos);
        if let Ok((kv, q)) = kv_step(data, pos, KeyMode::Skip) {
            lemma_kv_step_forward(data, pos, KeyMode::Skip);
            lemma_metadata_skip_to_read(data, q, (n - 1) as nat);
        }
    }
}

/// The inspector's walk (keys read) and the inverter's walk (keys skipped)
/// of the same GGUF data agree. Where the reading walk succeeds, so does the
/// skipping walk, with the same tensor descriptors and the same end of the
/// descriptors, hence the same start of the data section. Where the skipping
/// walk succeeds, the reading walk either succeeds in the same way or fails
/// only because a metadata key is not UTF-8. Stated where every key length
/// fits in `usize` (always so on 64-bit targets): a longer one is cut short
/// when the key is read but skipped whole.
pub proof fn lemma_walks_agree(data: Seq<u8>)
    requires
        data.len() <= MAX_POS,
        header_keys_fit(data),
    ensures
        header_spec(data, KeyMode::Read) matches Ok(h) ==> (header_spec(data, KeyMode::Skip) matches Ok(h2)
            && h2.tensors == h.tensors && h2.data_offset == h.data_offset && align32(h2.data_offset)
            == align32(h.data_offset)),
        header_spec(data, KeyMode::Skip) matches Ok(h2) ==> (header_spec(data, KeyMode::Read) matches Ok(h)
            && h2.tensors == h.tensors && h2.data_offset == h.data_offset) || header_spec(
            data,
            KeyMode::Read,
        ) == Err::<HeaderRecord, GgufError>(GgufError::InvalidUtf8),
{
    if in_bounds(data, 8, 16) {
        lemma_metadata_agree(data, 24, crate::bytes::le_u64(data, 16) as nat);
        lemma_metadata_skip_to_read(data, 24, crate::bytes::le_u64(data, 16) as nat);
    }
}

/// How many of `offsets` put a scale's sign byte at `i`.
spec fn sign_hits(offsets: Seq<u64>, i: int) -> nat
    decreases offsets.len(),
{
    if offsets.len() == 0 {
        0
    } else {
        sign_hits(offsets.drop_last(), i) + if offsets.last() + 1 == i {
            1nat
        } else {
            0nat
        }
    }
}

proof fn lemma_flip_scales_bytes(file: Seq<u8>, offsets: Seq<u64>)
    requires
        invert::scales_in_file(file.len() as int, offsets),
    ensures
        invert::flip_scales(file, offsets).len() == file.len(),
        forall|i: int|
            0 <= i < file.len() ==> #[trigger] invert::flip_scales(file, offsets)[i] == if sign_hits(
                offsets,
                i,
            ) % 2 == 1 {
                file[i] ^ 0x80u8
            } else {
                file[i]
            },
    decreases offsets.len(),
{
    if offsets.len() > 0 {
        let rest = offsets.drop_last();
        assert forall|k: int| 0 <= k < rest.len() implies #[trigger] rest[k] + 2 <= file.len() by {
            assert(rest[k] == offsets[k]);
        }
        lemma_flip_scales_bytes(file, rest);
        let g = invert::flip_scales(file, rest);
        let o = offsets.last() as int;
        assert(offsets[offsets.len() - 1] + 2 <= file.len());
        let h = invert::flip_scale_at(g, o);
        assert(h.len() == file.len());
        assert forall|i: int| 0 <= i < file.len() implies #[trigger] invert::flip_scales(file, offsets)[i]
            == if sign_hits(offsets, i) % 2 == 1 {
            file[i] ^ 0x80u8
        } else {
            file[i]
        } by {
            assert(invert::flip_scales(file, offsets) == h);
            let b = file[i];
            assert(b ^ 0u8 == b && (b ^ 0x80u8) ^ 0x80u8 == b) by (bit_vector);
            let gb = g[i];
            assert(gb ^ 0u8 == gb) by (bit_vector);
            if i < o {
                assert(h[i] == g[i]);
            } else if i == o {
                assert(h[i] == g[i] ^ 0u8);
            } else if i == o + 1 {
                assert(h[i] == g[i] ^ 0x80u8);
            } else {
                assert(h[i] == g[i]);
            }
        }
    }
}

/// Flipping the scale signs at the same offsets twice gives the file back,
/// whatever the order of the offsets and however often one repeats: each
/// flip toggles one sign bit, and a bit toggled an even number of times is
/// unchanged.
pub proof fn lemma_flip_scales_twice(file: Seq<u8>, offsets: Seq<u64>)
    requires
        invert::scales_in_file(file.len() as int, offsets),
    ensures
        invert::flip_scales(invert::flip_scales(file, offsets), offsets) == file,
{
    lemma_flip_scales_bytes(file, offsets);
    let once = invert::flip_scales(file, offsets);
    lemma_flip_scales_bytes(once, offsets);
    let twice = invert::flip_scales(once, offsets);
    assert forall|i: int| 0 <= i < file.len() implies twice[i] == file[i] by {
        let b = file[i];
        assert((b ^ 0x80u8) ^ 0x80u8 == b) by (bit_vector);
        assert(twice[i] == if sign_hits(offsets, i) % 2 == 1 { once[i] ^ 0x80u8 } else { once[i] });
        assert(once[i] == if sign_hits(offsets, i) % 2 == 1 { file[i] ^ 0x80u8 } else { file[i] });
    }
    assert(twice =~= file);
}

/// `a` and `b` have one length and the same bytes below `e`.
spec fn same_below(a: Seq<u8>, b: Seq<u8>, e: int) -> bool {
    &&& a.len() == b.len()
    &&& forall|i: int| 0 <= i < e && i < a.len() ==> #[trigger] a[i] == b[i]
}

proof fn lemma_le_below(a: Seq<u8>, b: Seq<u8>, e: int, pos: int, n: int)
    requires
        same_below(a, b, e),
        0 <= pos,
        n == 4 || n == 8,
        pos + n <= e,
        pos + n <= a.len(),
    ensures
        crate::bytes::le_u32(a, pos) == crate::bytes::le_u32(b, pos),
        n == 8 ==> crate::bytes::le_u64(a, pos) == crate::bytes::le_u64(b, pos),
{
    assert(a[pos] == b[pos] && a[pos + 1] == b[pos + 1] && a[pos + 2] == b[pos + 2] && a[pos + 3]
        == b[pos + 3]);
    if n == 8 {
        assert(a[pos + 4] == b[pos + 4] && a[pos + 5] == b[pos + 5] && a[pos + 6] == b[pos + 6]
            && a[pos + 7] == b[pos + 7]);
    }
}

proof fn lemma_value_extent_below(a: Seq<u8>, b: Seq<u8>, e: int, pos: int, vt: u32)
    requires
        same_below(a, b, e),
        0 <= pos,
    ensures
        value_extent(a, pos, vt) matches Ok(n) && pos + n <= e ==> value_extent(b, pos, vt)
            == value_extent(a, pos, vt),
    decreases rem(a, pos), 0nat,
{
    if scalar_width(vt) == 0 {
        if vt == 8 {
            if in_bounds(a, pos, 8) && pos + 8 <= e {
                lemma_le_below(a, b, e, pos, 8);
            }
        } else if vt == 9 {
            if in_bounds(a, pos, 12) && pos + 12 <= e {
                lemma_le_below(a, b, e, pos, 4);
                lemma_le_below(a, b, e, pos + 4, 8);
                lemma_elems_extent_below(
                    a,
                    b,
                    e,
                    pos + 12,
                    crate::bytes::le_u32(a, pos) as u32,
                    crate::bytes::le_u64(a, pos + 4) as nat,
                );
            }
        }
    }
}

proof fn lemma_elems_extent_below(a: Seq<u8>, b: Seq<u8>, e: int, pos: int, et: u32, count: nat)
    requires
        same_below(a, b, e),
        0 <= pos,
    ensures
        elems_extent(a, pos, et, count) matches Ok(m) && pos + m <= e ==> elems_extent(
            b,
            pos,
            et,
            count,
        ) == elems_extent(a, pos, et, count),
    decreases rem(a, pos), count + 1,
{
    if count > 0 {
        lemma_value_extent_below(a, b, e, pos, et);
        if let Ok(n) = value_extent(a, pos, et) {
            lemma_elems_extent_below(a, b, e, pos + n, et, (count - 1) as nat);
        }
    }
}

proof fn lemma_kv_skip_below(a: Seq<u8>, b: Seq<u8>, e: int, pos: int)
    requires
        same_below(a, b, e),
        0 <= pos,
    ensures
        kv_step(a, pos, KeyMode::Skip) matches Ok((_, q)) && q <= e ==> kv_step(b, pos, KeyMode::Skip)
            == kv_step(a, pos, KeyMode::Skip),
{
    if let Ok((_, q)) = kv_step(a, pos, KeyMode::Skip) {
        if q <= e {
            let p2 = pos + 8 + crate::bytes::le_u64(a, pos);
            lemma_le_below(a, b, e, pos, 8);
            lemma_le_below(a, b, e, p2, 4);
            lemma_value_extent_below(a, b, e, p2 + 4, crate::bytes::le_u32(a, p2) as u32);
        }
    }
}

proof fn lemma_metadata_skip_below(a: Seq<u8>, b: Seq<u8>, e: int, pos: int, n: nat)
    requires
        same_below(a, b, e),
        0 <= pos,
    ensures
        metadata_spec(a, pos, n, KeyMode::Skip) matches Ok((_, q)) && q <= e ==> metadata_spec(
            b,
            pos,
            n,
            KeyMode::Skip,
        ) == metadata_spec(a, pos, n, KeyMode::Skip),
    decreases n,
{
    if n > 0 {
        if let Ok((_, q1)) = kv_step(a, pos, KeyMode::Skip) {
            lemma_kv_step_forward(a, pos, KeyMode::Skip);
            lemma_metadata_forward(a, q1, (n - 1) as nat, KeyMode::Skip);
            lemma_kv_skip_below(a, b, e, pos);
            lemma_metadata_skip_below(a, b, e, q1, (n - 1) as nat);
        }
    }
}

proof fn lemma_dims_below(a: Seq<u8>, b: Seq<u8>, e: int, pos: int, n: nat)
    requires
        same_below(a, b, e),
        0 <= pos,
    ensures
        dims_spec(a, pos, n) matches Ok((_, q)) && q <= e ==> dims_spec(b, pos, n) == dims_spec(
            a,
            pos,
            n,
        ),
    decreases n,
{
    if n > 0 && in_bounds(a, pos, 8) {
        lemma_dims_forward(a, pos + 8, (n - 1) as nat);
        lemma_dims_below(a, b, e, pos + 8, (n - 1) as nat);
        if let Ok((_, q)) = dims_spec(a, pos, n) {
            if q <= e {
                lemma_le_below(a, b, e, pos, 8);
            }
        }
    }
}

proof fn lemma_tensor_step_below(a: Seq<u8>, b: Seq<u8>, e: int, pos: int)
    requires
        same_below(a, b, e),
        0 <= pos,
    ensures
        tensor_step(a, pos) matches Ok((_, q)) && q <= e ==> tensor_step(b, pos) == tensor_step(a, pos),
{
    if let Ok((_, q)) = tensor_step(a, pos) {
        if q <= e {
            let k = (crate::bytes::le_u64(a, pos) as u64) as usize as int;
            let p = pos + 8;
            let c = crate::bytes::le_u32(a, p + k) as nat;
            lemma_dims_forward(a, p + k + 4, c);
            lemma_le_below(a, b, e, pos, 8);
            assert(a.subrange(p, p + k) =~= b.subrange(p, p + k));
            lemma_le_below(a, b, e, p + k, 4);
            lemma_dims_below(a, b, e, p + k + 4, c);
            if let Ok((_, p3)) = dims_spec(a, p + k + 4, c) {
                lemma_le_below(a, b, e, p3, 4);
                lemma_le_below(a, b, e, p3 + 4, 8);
            }
        }
    }
}

proof fn lemma_tensors_below(a: Seq<u8>, b: Seq<u8>, e: int, pos: int, n: nat)
    requires
        same_below(a, b, e),
        0 <= pos,
    ensures
        tensor_infos_spec(a, pos, n) matches Ok((_, q)) && q <= e ==> tensor_infos_spec(b, pos, n)
            == tensor_infos_spec(a, pos, n),
    decreases n,
{
    if n > 0 {
        if let Ok((_, q1)) = tensor_step(a, pos) {
            lemma_tensors_forward(a, pos, 1);
            assert(tensor_infos_spec(a, pos, 1) matches Ok((_, q)) && q == q1) by {
                assert(tensor_infos_spec(a, q1, 0) == Ok::<(Seq<TensorRecord>, int), GgufError>(
                    (Seq::empty(), q1),
                ));
            }
            lemma_tensors_forward(a, q1, (n - 1) as nat);
            lemma_tensor_step_below(a, b, e, pos);
            lemma_tensors_below(a, b, e, q1, (n - 1) as nat);
        }
    }
}

/// A skipping header walk reads only the bytes before the end of the tensor
/// descriptors: data that agrees with `a` there walks to the same result.
proof fn lemma_header_below(a: Seq<u8>, b: Seq<u8>)
    requires
        header_spec(a, KeyMode::Skip) is Ok,
        same_below(a, b, header_spec(a, KeyMode::Skip)->Ok_0.data_offset),
    ensures
        header_spec(b, KeyMode::Skip) == header_spec(a, KeyMode::Skip),
{
    let e = header_spec(a, KeyMode::Skip)->Ok_0.data_offset;
    lemma_walk_moves_forward(a, KeyMode::Skip);
    lemma_le_below(a, b, e, 8, 8);
    lemma_le_below(a, b, e, 16, 8);
    let n = crate::bytes::le_u64(a, 16) as nat;
    if let Ok((_, p)) = metadata_spec(a, 24, n, KeyMode::Skip) {
        lemma_tensors_forward(a, p, crate::bytes::le_u64(a, 8) as nat);
        lemma_metadata_skip_below(a, b, e, 24, n);
        lemma_tensors_below(a, b, e, p, crate::bytes::le_u64(a, 8) as nat);
    }
}

proof fn lemma_no_sign_hits_below(offsets: Seq<u64>, d: int, i: int)
    requires
        forall|k: int| 0 <= k < offsets.len() ==> d <= #[trigger] offsets[k],
        i <= d,
    ensures
        sign_hits(offsets, i) == 0,
    decreases offsets.len(),
{
    if offsets.len() > 0 {
        let rest = offsets.drop_last();
        assert forall|k: int| 0 <= k < rest.len() implies d <= #[trigger] rest[k] by {
            assert(rest[k] == offsets[k]);
        }
        assert(d <= offsets[offsets.len() - 1]);
        lemma_no_sign_hits_below(rest, d, i);
    }
}

/// Inverting twice with the same patch gives the file back. The scales a
/// run flips lie in the data section, which starts past the tensor
/// descriptors; so the second run walks the same header, plans the same
/// offsets from the same patch, and flipping those scales again toggles each
/// sign bit back.
pub proof fn lemma_invert_twice(file: Seq<u8>, offsets: Seq<u64>)
    requires
        header_spec(file, KeyMode::Skip) is Ok,
        forall|k: int|
            0 <= k < offsets.len() ==> align32(header_spec(file, KeyMode::Skip)->Ok_0.data_offset)
                <= #[trigger] offsets[k],
        invert::scales_in_file(file.len() as int, offsets),
    ensures
        header_spec(invert::flip_scales(file, offsets), KeyMode::Skip) == header_spec(
            file,
            KeyMode::Skip,
        ),
        invert::flip_scales(invert::flip_scales(file, offsets), offsets) == file,
{
    let end = header_spec(file, KeyMode::Skip)->Ok_0.data_offset;
    lemma_walk_moves_forward(file, KeyMode::Skip);
    assert(end <= align32(end)) by (nonlinear_arith)
        requires
            end >= 0,
            align32(end) == (end + 31) / 32 * 32,
    ;
    lemma_flip_scales_bytes(file, offsets);
    let flipped = invert::flip_scales(file, offsets);
    assert forall|i: int| 0 <= i < end && i < file.len() implies #[trigger] file[i] == flipped[i] by {
        lemma_no_sign_hits_below(offsets, end, i);
    }
    lemma_header_below(file, flipped);
    lemma_flip_scales_twice(file, offsets);
}

proof fn lemma_kv_step_forward(data: Seq<u8>, pos: int, mode: KeyMode)
    requires
        0 <= pos,
    ensures
        kv_step(data, pos, mode) matches Ok((_, q)) ==> q >= pos + 12,
{
}

proof fn lemma_metadata_forward(data: Seq<u8>, pos: int, n: nat, mode: KeyMode)
    requires
        0 <= pos,
    ensures
        metadata_spec(data, pos, n, mode) matches Ok((_, q)) ==> q >= pos,
    decreases n,
{
    if n > 0 {
        lemma_kv_step_forward(data, pos, mode);
        if let Ok((_, q)) = kv_step(data, pos, mode) {
            lemma_metadata_forward(data, q, (n - 1) as nat, mode);
        }
    }
}

proof fn lemma_dims_forward(data: Seq<u8>, pos: int, n: nat)
    ensures
        dims_spec(data, pos, n) matches Ok((_, q)) ==> q >= pos,
    decreases n,
{
    if n > 0 {
        lemma_dims_forward(data, pos + 8, (n - 1) as nat);
    }
}

proof fn lemma_tensors_forward(data: Seq<u8>, pos: int, n: nat)
    ensures
        tensor_infos_spec(data, pos, n) matches Ok((_, q)) ==> q >= pos,
    decreases n,
{
    if n > 0 {
        if let Ok((_, q)) = tensor_step(data, pos) {
            if in_bounds(data, pos, 8) {
                let k = (crate::bytes::le_u64(data, pos) as u64) as usize as int;
                lemma_dims_forward(
                    data,
                    pos + 8 + k + 4,
                    crate::bytes::le_u32(data, pos + 8 + k) as nat,
                );
            }
            lemma_tensors_forward(data, q, (n - 1) as nat);
        }
    }
}

/// A header walk only moves forward: the data offset of a successful walk
/// lies past the 24 bytes of magic, version and counts.
pub proof fn lemma_walk_moves_forward(data: Seq<u8>, mode: KeyMode)
    ensures
        header_spec(data, mode) matches Ok(h) ==> h.data_offset >= 24,
{
    if in_bounds(data, 8, 16) {
        lemma_metadata_forward(data, 24, crate::bytes::le_u64(data, 16) as nat, mode);
        if let Ok((_, p)) = metadata_spec(data, 24, crate::bytes::le_u64(data, 16) as nat, mode) {
            lemma_tensors_forward(data, p, crate::bytes::le_u64(data, 8) as nat);
        }
    }
}

/// Row ablation of two different features zeroes disjoint byte ranges, and
/// each range lies inside the tensor's data.
pub proof fn lemma_zeroed_rows_disjoint(t: TensorRecord, data_offset: u64, f1: usize, f2: usize)
    requires
        ablate::row_ablation_defined(t, data_offset, seq![f1, f2]),
        ablate::has_ablation_shape(t),
        f1 < ablate::rows_of(t),
        f2 < ablate::rows_of(t),
        f1 != f2,
    ensures
        ({
            let s1 = ablate::row_step(t, data_offset, f1);
            let s2 = ablate::row_step(t, data_offset, f2);
            let base = data_offset + t.offset;
            let total = ablate::rows_of(t) * ablate::data_size(
                t.tensor_type,
                ablate::cols_of(t) as int,
            );
            s1 matches ablate::RowStep::Zero { offset: o1, len: l1 } && s2 matches ablate::RowStep::Zero {
                offset: o2,
                len: l2,
            } && (o1 + l1 <= o2 || o2 + l2 <= o1) && base <= o1 && o1 + l1 <= base + total
        }),
{
    let bpr = ablate::data_size(t.tensor_type, ablate::cols_of(t) as int);
    let rows = ablate::rows_of(t) as int;
    assert(seq![f1, f2][0] == f1 && seq![f1, f2][1] == f2);
    assert(bpr >= 0);
    assert(f1 * bpr + bpr <= rows * bpr) by (nonlinear_arith)
        requires
            f1 < rows,
            bpr >= 0,
    ;
    if f1 < f2 {
        assert(f1 * bpr + bpr <= f2 * bpr) by (nonlinear_arith)
            requires
                f1 < f2,
                bpr >= 0,
        ;
    } else {
        assert(f2 * bpr + bpr <= f1 * bpr) by (nonlinear_arith)
            requires
                f2 < f1,
                bpr >= 0,
        ;
    }
    assert(f1 * bpr >= 0) by (nonlinear_arith)
        requires
            bpr >= 0,
    ;
    assert(f2 * bpr >= 0) by (nonlinear_arith)
        requires
            bpr >= 0,
    ;
}

/// Flipping the sign of a block scale twice gives back the scale.
pub proof fn lemma_flip_twice(scale: Seq<u8>)
    requires
        scale.len() == 2,
    ensures
        invert::sign_flipped(invert::sign_flipped(scale)) == scale,
{
    let b0 = scale[0];
    let b1 = scale[1];
    assert((b0 ^ 0u8) ^ 0u8 == b0) by (bit_vector);
    assert((b1 ^ 0x80u8) ^ 0x80u8 == b1) by (bit_vector);
    assert(invert::sign_flipped(invert::sign_flipped(scale)) =~= scale);
}

/// For a Q8_0 down-projection, the 2 scale bytes of every block that
/// inversion rewrites lie inside the row of their feature, and the row lies
/// at or past the start of the data section.
pub proof fn lemma_scales_in_row(t: TensorRecord, data_offset: u64, feature: int, b: int)
    requires
        t.tensor_type == 8,
        0 <= feature,
        0 <= b < invert::blocks_per_row(t),
    ensures
        data_offset <= invert::row_start(data_offset, t, feature),
        invert::row_start(data_offset, t, feature) <= invert::row_start(data_offset, t, feature)
            + b * invert::BLOCK_SIZE,
        invert::row_start(data_offset, t, feature) + b * invert::BLOCK_SIZE + 2
            <= invert::row_start(data_offset, t, feature) + invert::row_bytes(t),
{
    let blocks = invert::blocks_per_row(t);
    assert(invert::row_bytes(t) == blocks * 34);
    assert(b * 34 + 34 <= blocks * 34) by (nonlinear_arith)
        requires
            b < blocks,
    ;
    assert(b * 34 >= 0) by (nonlinear_arith)
        requires
            b >= 0,
    ;
    assert(feature * (blocks * 34) >= 0) by (nonlinear_arith)
        requires
            feature >= 0,
            blocks >= 0,
    ;
}

/// A read that loading plans for an entry stays inside the entry's file and
/// covers exactly its values: 4 bytes per value for f32, 2 for f16.
pub proof fn lemma_planned_read_in_file(
    r: Result<Option<EntryLoad>, SplitError>,
    e: &WeightEntry,
    file_len: Option<usize>,
    embed_key: Seq<u8>,
)
    requires
        entry_outcome_matches(r, e, file_len, embed_key),
    ensures
        r matches Ok(Some(load)) ==> {
            &&& file_len is Some
            &&& load.start <= load.end <= file_len.unwrap()
            &&& load.end - load.start == load.count * match load.encoding {
                Encoding::F32 => 4int,
                Encoding::F16 => 2int,
            }
        },
{
}

/// The down-projection batches split the features `0..n` into consecutive,
/// non-empty ranges: the first starts at 0, each starts where the previous
/// one ends, and the last ends at `n`.
pub proof fn lemma_batches_partition(n: nat, size: nat)
    requires
        size > 0,
        n <= usize::MAX,
        n > 0 ==> (n - 1) / (size as int) * size + size <= usize::MAX,
    ensures
        ({
            let c = batch_count(n as int, size as int);
            &&& n > 0 ==> c > 0 && batch(0, size as int, n as int).0 == 0
            &&& forall|i: int|
                0 <= i < c ==> #[trigger] batch(i * size, size as int, n as int).0 < batch(
                    i * size,
                    size as int,
                    n as int,
                ).1
            &&& forall|i: int|
                0 <= i < c - 1 ==> #[trigger] batch(i * size, size as int, n as int).1 == batch(
                    (i + 1) * size,
                    size as int,
                    n as int,
                ).0
            &&& n > 0 ==> batch((c - 1) * size, size as int, n as int).1 == n
        }),
{
    let c = batch_count(n as int, size as int);
    let s = size as int;
    let m = n as int;
    assert forall|i: int| 0 <= i < c implies #[trigger] batch(i * size, s, m).0 < batch(
        i * size,
        s,
        m,
    ).1 by {
        assert(i * s < m) by (nonlinear_arith)
            requires
                0 <= i < (m + s - 1) / s,
                s > 0,
        ;
        assert(i * s >= 0) by (nonlinear_arith)
            requires
                i >= 0,
                s > 0,
        ;
        assert(i * s + s <= usize::MAX) by (nonlinear_arith)
            requires
                0 <= i,
                i * s < m,
                s > 0,
                m > 0,
                (m - 1) / s * s + s <= usize::MAX,
        {
            assert(i <= (m - 1) / s);
            assert(i * s <= (m - 1) / s * s);
        }
    }
    assert forall|i: int| 0 <= i < c - 1 implies #[trigger] batch(i * size, s, m).1 == batch(
        (i + 1) * size,
        s,
        m,
    ).0 by {
        assert((i + 1) * s == i * s + s) by (nonlinear_arith);
        assert((i + 1) * s < m) by (nonlinear_arith)
            requires
                0 <= i + 1 < (m + s - 1) / s,
                s > 0,
        ;
        assert(i * s >= 0) by (nonlinear_arith)
            requires
                i >= 0,
                s > 0,
        ;
    }
    if m > 0 {
        assert(c > 0) by (nonlinear_arith)
            requires
                m > 0,
                s > 0,
                c == (m + s - 1) / s,
        ;
        assert((c - 1) * s < m && c * s >= m) by (nonlinear_arith)
            requires
                m > 0,
                s > 0,
                c == (m + s - 1) / s,
        ;
        assert((c - 1) * s + s == c * s) by (nonlinear_arith);
        assert((c - 1) * s >= 0) by (nonlinear_arith)
            requires
                c >= 1,
                s > 0,
        ;
    }
}

/// Normalising a key only removes a prefix: the result is a suffix of the
/// name, and the name itself when no prefix matches.
pub proof fn lemma_normalize_is_suffix(s: Seq<u8>, prefixes: Seq<Seq<u8>>)
    ensures
        ({
            let r = strip_first_prefix(s, prefixes);
            &&& r.len() <= s.len()
            &&& s.subrange(s.len() - r.len(), s.len() as int) == r
            &&& (forall|i: int| 0 <= i < prefixes.len() ==> !has_prefix(s, #[trigger] prefixes[i]))
                ==> r == s
        }),
    decreases prefixes.len(),
{
    if prefixes.len() == 0 {
        assert(s.subrange(0, s.len() as int) =~= s);
    } else if has_prefix(s, prefixes[0]) {
        let r = strip_first_prefix(s, prefixes);
        assert(s.subrange(s.len() - r.len(), s.len() as int) =~= r);
    } else {
        lemma_normalize_is_suffix(s, prefixes.drop_first());
        if forall|i: int| 0 <= i < prefixes.len() ==> !has_prefix(s, #[trigger] prefixes[i]) {
            assert forall|i: int| 0 <= i < prefixes.drop_first().len() implies !has_prefix(
                s,
                #[trigger] prefixes.drop_first()[i],
            ) by {
                assert(prefixes.drop_first()[i] == prefixes[i + 1]);
            }
        }
    }
}

proof fn lemma_metadata_keys_utf8(data: Seq<u8>, pos: int, n: nat)
    ensures
        metadata_spec(data, pos, n, KeyMode::Read) matches Ok((kvs, _)) ==> forall|i: int|
            0 <= i < kvs.len() ==> valid_utf8(#[trigger] kvs[i].key),
    decreases n,
{
    if n > 0 {
        if let Ok((kv, q)) = kv_step(data, pos, KeyMode::Read) {
            lemma_metadata_keys_utf8(data, q, (n - 1) as nat);
            if let Ok((rest, q2)) = metadata_spec(data, q, (n - 1) as nat, KeyMode::Read) {
                let all = kv + rest;
                assert forall|i: int| 0 <= i < all.len() implies valid_utf8(#[trigger] all[i].key) by {
                    if i >= kv.len() {
                        assert(all[i] == rest[i - kv.len()]);
                    }
                }
            }
        }
    }
}

proof fn lemma_tensor_names_utf8(data: Seq<u8>, pos: int, n: nat)
    ensures
        tensor_infos_spec(data, pos, n) matches Ok((ts, _)) ==> forall|i: int|
            0 <= i < ts.len() ==> valid_utf8(#[trigger] ts[i].name),
    decreases n,
{
    if n > 0 {
        if let Ok((t, q)) = tensor_step(data, pos) {
            lemma_tensor_names_utf8(data, q, (n - 1) as nat);
            if let Ok((rest, q2)) = tensor_infos_spec(data, q, (n - 1) as nat) {
                let all = seq![t] + rest;
                assert forall|i: int| 0 <= i < all.len() implies valid_utf8(#[trigger] all[i].name) by {
                    if i >= 1 {
                        assert(all[i] == rest[i - 1]);
                    }
                }
            }
        }
    }
}

/// Every tensor name of a successful header walk, and every metadata key
/// the walk reads, is well-formed UTF-8 (so it is a valid string).
pub proof fn lemma_walk_names_utf8(data: Seq<u8>, mode: KeyMode)
    ensures
        header_spec(data, mode) matches Ok(h) ==> {
            &&& forall|i: int| 0 <= i < h.tensors.len() ==> valid_utf8(#[trigger] h.tensors[i].name)
            &&& mode == KeyMode::Read ==> forall|i: int|
                0 <= i < h.metadata.len() ==> valid_utf8(#[trigger] h.metadata[i].key)
        },
{
    if in_bounds(data, 8, 16) {
        let nm = crate::bytes::le_u64(data, 16) as nat;
        if mode == KeyMode::Read {
            lemma_metadata_keys_utf8(data, 24, nm);
        }
        if let Ok((_, p)) = metadata_spec(data, 24, nm, mode) {
            lemma_tensor_names_utf8(data, p, crate::bytes::le_u64(data, 8) as nat);
        }
    }
}

proof fn lemma_decimal_nonempty(n: nat)
    ensures
        decimal(n).len() >= 1,
    decreases n,
{
    if n >= 10 {
        lemma_decimal_nonempty(n / 10);
    }
}

#[verifier::spinoff_prover]
proof fn lemma_decimal_injective(n: nat, m: nat)
    requires
        decimal(n) == decimal(m),
    ensures
        n == m,
    decreases n,
{
    if n < 10 && m < 10 {
        assert(decimal(n)[0] == decimal(m)[0]);
        assert(decimal(n)[0] == 48 + n);
        assert(decimal(m)[0] == 48 + m);
    } else if n < 10 {
        lemma_decimal_nonempty(m / 10);
        assert(decimal(n).len() == 1);
        assert(decimal(m).len() == decimal(m / 10).len() + 1);
    } else if m < 10 {
        lemma_decimal_nonempty(n / 10);
        assert(decimal(m).len() == 1);
        assert(decimal(n).len() == decimal(n / 10).len() + 1);
    } else {
        let a = decimal(n);
        let b = decimal(m);
        assert(a.last() == b.last());
        assert(a.drop_last() =~= decimal(n / 10));
        assert(b.drop_last() =~= decimal(m / 10));
        lemma_decimal_injective(n / 10, m / 10);
        assert(a.last() == 48 + n % 10);
        assert(b.last() == 48 + m % 10);
        assert(n % 10 == m % 10);
        assert(n / 10 == m / 10);
        assert(n == m) by (nonlinear_arith)
            requires
                n % 10 == m % 10,
                n / 10 == m / 10,
        ;
    }
}

/// The feed-forward tensor names of two different (layer, weight) pairs
/// differ, so the tools never address one tensor for two of them.
pub proof fn lemma_ffn_names_distinct(l1: nat, k1: FfnTensor, l2: nat, k2: FfnTensor)
    requires
        l1 != l2 || k1 != k2,
    ensures
        ffn_name(l1, k1) != ffn_name(l2, k2),
{
    let a = ffn_name(l1, k1);
    let b = ffn_name(l2, k2);
    let d1 = decimal(l1);
    let d2 = decimal(l2);
    let s1 = ffn_suffix(k1);
    let s2 = ffn_suffix(k2);
    assert(a =~= block_prefix() + (d1 + s1));
    assert(b =~= block_prefix() + (d2 + s2));
    if a == b {
        assert(s1.len() >= 9 && s2.len() >= 9);
        assert(a[a.len() - 9] == s1[s1.len() - 9]);
        assert(b[b.len() - 9] == s2[s2.len() - 9]);
        if k1 != k2 {
            assert(s1[s1.len() - 9] != s2[s2.len() - 9]);
        } else {
            assert(d1.len() == d2.len());
            assert(d1 =~= a.subrange(4, 4 + d1.len() as int));
            assert(d2 =~= b.subrange(4, 4 + d2.len() as int));
            lemma_decimal_injective(l1, l2);
        }
    }
}

proof fn lemma_drop_last_roles(plans: Seq<Option<EntryLoad>>, role: TensorRole, j: int)
    requires
        plans.len() > 0,
        0 <= j < plans.len() - 1,
    ensures
        has_role(plans.drop_last(), j, role) == has_role(plans, j, role),
{
    assert(plans.drop_last()[j] == plans[j]);
}

proof fn lemma_no_role_load(plans: Seq<Option<EntryLoad>>, role: TensorRole)
    ensures
        no_role(plans, role) <==> last_role_load(plans, role) is None,
    decreases plans.len(),
{
    if plans.len() > 0 {
        let n = plans.len() - 1;
        let d = plans.drop_last();
        lemma_no_role_load(d, role);
        if !has_role(plans, n, role) {
            if no_role(d, role) {
                assert forall|j: int| 0 <= j < plans.len() implies !#[trigger] has_role(
                    plans,
                    j,
                    role,
                ) by {
                    if j < n {
                        lemma_drop_last_roles(plans, role, j);
                    }
                }
            }
            if no_role(plans, role) {
                assert forall|j: int| 0 <= j < d.len() implies !#[trigger] has_role(d, j, role) by {
                    lemma_drop_last_roles(plans, role, j);
                }
            }
        } else {
            assert(!no_role(plans, role));
        }
    }
}

proof fn lemma_last_with_role_load(plans: Seq<Option<EntryLoad>>, role: TensorRole, i: int)
    requires
        is_last_with_role(plans, role, i),
    ensures
        last_role_load(plans, role) == plans[i],
    decreases plans.len(),
{
    let n = plans.len() - 1;
    if i < n {
        assert(!has_role(plans, n, role));
        let d = plans.drop_last();
        lemma_drop_last_roles(plans, role, i);
        assert forall|j: int| i < j < d.len() implies !#[trigger] has_role(d, j, role) by {
            lemma_drop_last_roles(plans, role, j);
        }
        lemma_last_with_role_load(d, role, i);
        assert(d[i] == plans[i]);
    }
}

proof fn lemma_insert_skipped(plans: Seq<Option<EntryLoad>>, k: int, role: TensorRole)
    requires
        0 <= k <= plans.len(),
    ensures
        last_role_load(plans.insert(k, None), role) == last_role_load(plans, role),
    decreases plans.len(),
{
    let q = plans.insert(k, None);
    let n = q.len() - 1;
    if k == plans.len() {
        assert(!has_role(q, n, role));
        assert(q.drop_last() =~= plans);
    } else {
        assert(q.last() == plans.last());
        assert(has_role(q, n, role) == has_role(plans, plans.len() - 1, role));
        assert(q.drop_last() =~= plans.drop_last().insert(k, None));
        lemma_insert_skipped(plans.drop_last(), k, role);
    }
}

/// A load skips an entry whose weight file is missing without effect on the
/// rest: `plan_entry` plans nothing for it, and a skipped entry placed
/// anywhere among the planned entries changes neither which loads are the
/// last embedding and the last output head, nor whether there are any.
pub proof fn lemma_skipped_entry_no_effect(
    r: Result<Option<EntryLoad>, SplitError>,
    e: &WeightEntry,
    embed_key: Seq<u8>,
    plans: Seq<Option<EntryLoad>>,
    k: int,
    role: TensorRole,
)
    requires
        entry_outcome_matches(r, e, None, embed_key),
        0 <= k <= plans.len(),
    ensures
        r == Ok::<Option<EntryLoad>, SplitError>(None),
        no_role(plans.insert(k, None), role) == no_role(plans, role),
        last_role_load(plans.insert(k, None), role) == last_role_load(plans, role),
        forall|i: int|
            is_last_with_role(plans, role, i) ==> last_role_load(plans, role) == plans[i],
{
    lemma_insert_skipped(plans, k, role);
    lemma_no_role_load(plans, role);
    lemma_no_role_load(plans.insert(k, None), role);
    assert forall|i: int| is_last_with_role(plans, role, i) implies last_role_load(plans, role)
        == plans[i] by {
        lemma_last_with_role_load(plans, role, i);
    }
}


proof fn lemma_fixed_elems(data: Seq<u8>, pos: int, et: u32, count: nat, w: int)
    requires
        w > 0,
        0 <= pos,
        forall|p: int| 0 <= p ==> #[trigger] value_extent(data, p, et) == crate::gguf::skip(p, w),
    ensures
        pos + count * w <= MAX_POS ==> elems_extent(data, pos, et, count) == Ok::<nat, GgufError>(
            (count * w) as nat,
        ),
    decreases count,
{
    if count > 0 {
        assert(count * w == w + (count - 1) * w) by (nonlinear_arith);
        assert((count - 1) * w >= 0) by (nonlinear_arith)
            requires
                count >= 1,
                w > 0,
        ;
        assert(value_extent(data, pos, et) == crate::gguf::skip(pos, w));
        lemma_fixed_elems(data, pos + w, et, (count - 1) as nat, w);
        if pos + count * w <= MAX_POS {
            assert(value_extent(data, pos, et) == Ok::<nat, GgufError>(w as nat));
            assert(elems_extent(data, pos + w, et, (count - 1) as nat) == Ok::<nat, GgufError>(
                ((count - 1) * w) as nat,
            ));
            assert(elems_extent(data, pos, et, count) == Ok::<nat, GgufError>(
                (w + (count - 1) * w) as nat,
            ));
        }
    } else {
        assert(count * w == 0) by (nonlinear_arith)
            requires
                count == 0,
        ;
    }
}

/// Skipping a metadata value moves the cursor by the width the GGUF format
/// gives its type: 1 byte for u8, i8 and bool (codes 0, 1, 7); 2 for u16 and
/// i16 (2, 3); 4 for u32, i32 and f32 (4, 5, 6); 8 for u64, i64 and f64
/// (10, 11, 12). An array of `count` such values spans its 12-byte head
/// (element type and count) and `count` times the element width.
pub proof fn lemma_value_widths(data: Seq<u8>, pos: int)
    requires
        0 <= pos,
        pos + 8 <= MAX_POS,
    ensures
        value_extent(data, pos, 0) == Ok::<nat, GgufError>(1),
        value_extent(data, pos, 1) == Ok::<nat, GgufError>(1),
        value_extent(data, pos, 7) == Ok::<nat, GgufError>(1),
        value_extent(data, pos, 2) == Ok::<nat, GgufError>(2),
        value_extent(data, pos, 3) == Ok::<nat, GgufError>(2),
        value_extent(data, pos, 4) == Ok::<nat, GgufError>(4),
        value_extent(data, pos, 5) == Ok::<nat, GgufError>(4),
        value_extent(data, pos, 6) == Ok::<nat, GgufError>(4),
        value_extent(data, pos, 10) == Ok::<nat, GgufError>(8),
        value_extent(data, pos, 11) == Ok::<nat, GgufError>(8),
        value_extent(data, pos, 12) == Ok::<nat, GgufError>(8),
        in_bounds(data, pos, 8) && pos + 8 + crate::bytes::le_u64(data, pos) <= MAX_POS
            ==> value_extent(data, pos, 8) == Ok::<nat, GgufError>(
            (8 + crate::bytes::le_u64(data, pos)) as nat,
        ),
        forall|vt: u32| 12 < vt ==> #[trigger] value_extent(data, pos, vt) == Err::<nat, GgufError>(
            GgufError::UnsupportedValueType(vt),
        ),
        ({
            let et = crate::bytes::le_u32(data, pos);
            let count = crate::bytes::le_u64(data, pos + 4);
            let w = if et == 0 || et == 1 || et == 7 {
                1int
            } else if et == 2 || et == 3 {
                2int
            } else if et == 4 || et == 5 || et == 6 {
                4int
            } else {
                8int
            };
            in_bounds(data, pos, 12) && (et == 0 || et == 1 || et == 7 || et == 2 || et == 3 || et
                == 4 || et == 5 || et == 6 || et == 10 || et == 11 || et == 12) && pos + 12 + count
                * w <= MAX_POS ==> value_extent(data, pos, 9) == Ok::<nat, GgufError>(
                (12 + count * w) as nat,
            )
        }),
{
    let et = crate::bytes::le_u32(data, pos);
    let count = crate::bytes::le_u64(data, pos + 4);
    if in_bounds(data, pos, 12) && (et == 0 || et == 1 || et == 7 || et == 2 || et == 3 || et == 4
        || et == 5 || et == 6 || et == 10 || et == 11 || et == 12) {
        let w = if et == 0 || et == 1 || et == 7 {
            1int
        } else if et == 2 || et == 3 {
            2int
        } else if et == 4 || et == 5 || et == 6 {
            4int
        } else {
            8int
        };
        assert(0 <= et < 0x1_0000_0000);
        let e = et as u32;
        assert forall|p: int| 0 <= p implies #[trigger] value_extent(data, p, e) == crate::gguf::skip(
            p,
            w,
        ) by {}
        lemma_fixed_elems(data, pos + 12, e, count as nat, w);
    }
}

/// The byte sizes of the ablation tools' table, type by type, for whole
/// blocks: F32 4 bytes per value, F16 2; per 32 values Q4_0 (2) 18 bytes,
/// Q4_1 (3) 20, code 8 22, code 9 24, code 6 34; per 256 values Q2_K (10)
/// 84, Q3_K (11) 110, Q4_K (12) 144, Q5_K (13) 176, Q6_K (14) 210. Exactly
/// these twelve codes are known to the tools.
pub proof fn lemma_ablation_size_table(k: int, tensor_type: u32)
    requires
        k >= 0,
    ensures
        ablate::data_size(0, k) == 4 * k,
        ablate::data_size(1, k) == 2 * k,
        ablate::data_size(2, 32 * k) == 18 * k,
        ablate::data_size(3, 32 * k) == 20 * k,
        ablate::data_size(8, 32 * k) == 22 * k,
        ablate::data_size(9, 32 * k) == 24 * k,
        ablate::data_size(6, 32 * k) == 34 * k,
        ablate::data_size(10, 256 * k) == 84 * k,
        ablate::data_size(11, 256 * k) == 110 * k,
        ablate::data_size(12, 256 * k) == 144 * k,
        ablate::data_size(13, 256 * k) == 176 * k,
        ablate::data_size(14, 256 * k) == 210 * k,
        ablate::is_known_type(tensor_type) <==> (tensor_type == 0 || tensor_type == 1 || tensor_type
            == 2 || tensor_type == 3 || tensor_type == 6 || tensor_type == 8 || tensor_type == 9
            || tensor_type == 10 || tensor_type == 11 || tensor_type == 12 || tensor_type == 13
            || tensor_type == 14),
{
    assert((32 * k) / 32 == k) by (nonlinear_arith);
    assert((256 * k) / 256 == k) by (nonlinear_arith);
}

/// The byte sizes of the inversion tool's table, type by type, for whole
/// blocks, by the GGML codes: F32 (0) 4 bytes per value, F16 (1) 2; per 32
/// values Q4_0 (2) 18, Q4_1 (3) 20, Q5_0 (6) 22, Q5_1 (7) 24, Q8_0 (8) 34;
/// per 256 values Q2_K (10) 84, Q3_K (11) 110, Q4_K (12) 144, Q5_K (13)
/// 176, Q6_K (14) 210. Exactly these twelve codes are known to the tool.
pub proof fn lemma_inversion_size_table(k: int, tensor_type: u32)
    requires
        k >= 0,
    ensures
        invert::data_size(0, k) == 4 * k,
        invert::data_size(1, k) == 2 * k,
        invert::data_size(2, 32 * k) == 18 * k,
        invert::data_size(3, 32 * k) == 20 * k,
        invert::data_size(6, 32 * k) == 22 * k,
        invert::data_size(7, 32 * k) == 24 * k,
        invert::data_size(8, 32 * k) == 34 * k,
        invert::data_size(10, 256 * k) == 84 * k,
        invert::data_size(11, 256 * k) == 110 * k,
        invert::data_size(12, 256 * k) == 144 * k,
        invert::data_size(13, 256 * k) == 176 * k,
        invert::data_size(14, 256 * k) == 210 * k,
        invert::is_known_type(tensor_type) <==> (tensor_type == 0 || tensor_type == 1 || tensor_type
            == 2 || tensor_type == 3 || tensor_type == 6 || tensor_type == 7 || tensor_type == 8
            || tensor_type == 10 || tensor_type == 11 || tensor_type == 12 || tensor_type == 13
            || tensor_type == 14),
{
    assert((32 * k) / 32 == k) by (nonlinear_arith);
    assert((256 * k) / 256 == k) by (nonlinear_arith);
}

/// Bulk ablation handles every type of its size table: a descriptor with a
/// first dimension and one of the twelve listed types, whose sizes fit, can
/// be zeroed whole (`check_tensor_zeroing` gives `Ok`).
pub proof fn lemma_listed_types_zeroable(t: TensorRecord, data_offset: u64)
    requires
        t.dims.len() >= 1,
        t.tensor_type == 0 || t.tensor_type == 1 || t.tensor_type == 2 || t.tensor_type == 3
            || t.tensor_type == 6 || t.tensor_type == 8 || t.tensor_type == 9 || t.tensor_type == 10
            || t.tensor_type == 11 || t.tensor_type == 12 || t.tensor_type == 13 || t.tensor_type
            == 14,
        ablate::data_size(t.tensor_type, ablate::cols_of(t) as int) <= usize::MAX,
        ablate::rows_of(t) * ablate::data_size(t.tensor_type, ablate::cols_of(t) as int) <= u64::MAX,
        data_offset + t.offset <= u64::MAX,
    ensures
        ablate::tensor_zeroing_defined(t, data_offset),
{
}

/// Normalising strips the first prefix of the list that the name starts
/// with, wherever it stands in the list: if `prefixes[i]` is a prefix of
/// `s` and none before it is, the result is `s` without `prefixes[i]`.
pub proof fn lemma_normalize_strips_first_match(s: Seq<u8>, prefixes: Seq<Seq<u8>>, i: int)
    requires
        0 <= i < prefixes.len(),
        prefixes[i].len() <= s.len(),
        s.subrange(0, prefixes[i].len() as int) == prefixes[i],
        forall|j: int| 0 <= j < i ==> !has_prefix(s, #[trigger] prefixes[j]),
    ensures
        strip_first_prefix(s, prefixes) == s.subrange(prefixes[i].len() as int, s.len() as int),
    decreases i,
{
    if i > 0 {
        assert(!has_prefix(s, prefixes[0]));
        let rest = prefixes.drop_first();
        assert(rest[i - 1] == prefixes[i]);
        assert forall|j: int| 0 <= j < i - 1 implies !has_prefix(s, #[trigger] rest[j]) by {
            assert(rest[j] == prefixes[j + 1]);
        }
        lemma_normalize_strips_first_match(s, rest, i - 1);
    }
}

/// Loading a split entry whose file exists and whose byte range fits: a
/// length of 4 bytes per element of its shape decodes as f32, else one of 2
/// bytes per element as f16, whatever the entry's kind, with one value per
/// element, read from `offset` to `offset + length`. A `tensor` entry whose
/// two nonzero dimensions multiply to the element count goes to a matrix of
/// those rows and columns; a `vector` entry goes to a vector.
pub proof fn lemma_entry_encoding(
    r: Result<Option<EntryLoad>, SplitError>,
    e: &WeightEntry,
    file_len: usize,
    embed_key: Seq<u8>,
)
    requires
        entry_outcome_matches(r, e, Some(file_len), embed_key),
        e.offset as usize + e.length as usize <= file_len,
        e.length as usize == 4 * shape_product(e.shape@, e.shape@.len() as int) || e.length
            as usize == 2 * shape_product(e.shape@, e.shape@.len() as int),
    ensures
        e.kind@ != tensor_kind() || r is Ok ==> (r matches Ok(Some(load)) && load.start
            == e.offset as usize && load.end == e.offset as usize + e.length as usize && load.count
            == shape_product(e.shape@, e.shape@.len() as int) && load.encoding == (if e.length as usize
            == 4 * shape_product(e.shape@, e.shape@.len() as int) {
            Encoding::F32
        } else {
            Encoding::F16
        })),
        e.kind@ == tensor_kind() && e.shape@.len() >= 2 && 0 < e.shape@[0] && 0 < e.shape@[1]
            && e.shape@[0] * e.shape@[1] == shape_product(e.shape@, e.shape@.len() as int)
            && shape_product(e.shape@, e.shape@.len() as int) <= isize::MAX ==> (r matches Ok(
            Some(load),
        ) && load.dest matches Destination::Tensor { rows, cols, .. } && rows == e.shape@[0]
            && cols == e.shape@[1]),
        e.kind@ == vector_kind() ==> (r matches Ok(Some(load)) && load.dest == Destination::Vector),
{
    assert(tensor_kind() != vector_kind()) by {
        assert(tensor_kind()[0] != vector_kind()[0]);
    }
}

/// Row ablation zeroes whole rows laid end to end: row 0 starts at the
/// tensor's data, and each row starts where the row before it ends, with the
/// same length.
pub proof fn lemma_ablation_rows_consecutive(t: TensorRecord, data_offset: u64, f: usize)
    requires
        ablate::has_ablation_shape(t),
        ablate::is_known_type(t.tensor_type),
        f + 1 < ablate::rows_of(t),
        ablate::row_offset(
            data_offset,
            t,
            f + 1,
            ablate::data_size(t.tensor_type, ablate::cols_of(t) as int),
        ) <= u64::MAX,
    ensures
        (ablate::row_step(t, data_offset, 0) matches ablate::RowStep::Zero { offset, .. } && offset
            == data_offset + t.offset),
        (ablate::row_step(t, data_offset, f) matches ablate::RowStep::Zero { offset: o1, len: l1 }
            && ablate::row_step(t, data_offset, (f + 1) as usize) matches ablate::RowStep::Zero {
            offset: o2,
            len: l2,
        } && l1 == l2 && o2 == o1 + l1),
{
    let bpr = ablate::data_size(t.tensor_type, ablate::cols_of(t) as int);
    assert(0 <= bpr <= 2560 * 4);
    assert((f + 1) * bpr == f * bpr + bpr) by (nonlinear_arith);
    assert(f * bpr >= 0) by (nonlinear_arith)
        requires
            f >= 0,
            bpr >= 0,
    ;
}

/// Inversion rewrites the block scales of a Q8_0 row 34 bytes apart, from
/// the row's first byte on; row 0 starts at the tensor's data and each row
/// starts where the row before it ends, 34 bytes per block further on.
pub proof fn lemma_inversion_blocks_consecutive(t: TensorRecord, data_offset: u64, f: int, b: int)
    requires
        t.tensor_type == 8,
        0 <= f,
        0 <= b,
        b + 1 < invert::blocks_per_row(t),
        invert::row_start(data_offset, t, f + 1) + invert::last_block_offset(t) <= u64::MAX,
    ensures
        invert::block_offsets(data_offset, t, 0)[0] == data_offset + t.offset,
        invert::block_offsets(data_offset, t, f)[b + 1] == invert::block_offsets(data_offset, t, f)[b]
            + 34,
        invert::block_offsets(data_offset, t, f + 1)[0] == invert::block_offsets(data_offset, t, f)[0]
            + 34 * invert::blocks_per_row(t),
{
    let blocks = invert::blocks_per_row(t);
    assert(invert::row_bytes(t) == blocks * 34);
    assert((f + 1) * (blocks * 34) == f * (blocks * 34) + blocks * 34) by (nonlinear_arith);
    assert(f * (blocks * 34) >= 0) by (nonlinear_arith)
        requires
            f >= 0,
            blocks >= 0,
    ;
    assert(0 * (blocks * 34) == 0) by (nonlinear_arith);
    assert((b + 1) * 34 <= (blocks - 1) * 34) by (nonlinear_arith)
        requires
            b + 1 < blocks,
    ;
    assert(invert::last_block_offset(t) == (blocks - 1) * 34);
}

} // verus!
