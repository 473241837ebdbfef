//! The weight inspector: its header walk, which reads every metadata key and
//! rounds the data offset up to the 32-byte alignment, and which tensors it shows.

use vstd::prelude::*;
use crate::bytes::{contains, contains_bytes, has_prefix, starts_with};
use crate::gguf::{align32, align_data_offset, header_spec, parse_header, GgufError, GgufHeader, KeyMode, MAX_POS};

verus! {

/// Walks the GGUF header, reading and checking every metadata key; the data
/// offset is the start of the data section: where the last tensor descriptor
/// ends, rounded up to the 32-byte alignment.
pub fn parse_gguf(data: &[u8]) -> (r: Result<GgufHeader, GgufError>)
    requires
        data@.len() <= MAX_POS,
    ensures
        match header_spec(data@, KeyMode::Read) {
            Ok(h) => r is Ok && r.unwrap()@.metadata == h.metadata && r.unwrap()@.tensors
                == h.tensors && r.unwrap().data_offset == align32(h.data_offset),
            Err(e) => r == Err::<GgufHeader, GgufError>(e),
        },
{
    match parse_header(data, KeyMode::Read) {
        Ok(h) => {
            let data_offset = align_data_offset(h.data_offset);
            Ok(GgufHeader { metadata: h.metadata, tensors: h.tensors, data_offset })
        },
        Err(e) => Err(e),
    }
}

/// The bytes of `blk.0.`.
pub open spec fn first_block_prefix() -> Seq<u8> {
    seq![98u8, 108u8, 107u8, 46u8, 48u8, 46u8]
}

/// The bytes of `per_layer`.
pub open spec fn per_layer() -> Seq<u8> {
    seq![112u8, 101u8, 114u8, 95u8, 108u8, 97u8, 121u8, 101u8, 114u8]
}

/// The bytes of `token_embd`.
pub open spec fn token_embd() -> Seq<u8> {
    seq![116u8, 111u8, 107u8, 101u8, 110u8, 95u8, 101u8, 109u8, 98u8, 100u8]
}

/// Whether the inspector shows a tensor: those of block 0 and the
/// per-layer or token embedding tensors.
pub fn is_inspected_tensor(name: &[u8]) -> (r: bool)
    ensures
        r == (has_prefix(name@, first_block_prefix()) || contains_bytes(name@, per_layer())
            || contains_bytes(name@, token_embd())),
{
    let blk0: Vec<u8> = vec![98u8, 108u8, 107u8, 46u8, 48u8, 46u8];
    let ple: Vec<u8> = vec![112u8, 101u8, 114u8, 95u8, 108u8, 97u8, 121u8, 101u8, 114u8];
    let embd: Vec<u8> = vec![116u8, 111u8, 107u8, 101u8, 110u8, 95u8, 101u8, 109u8, 98u8, 100u8];
    assert(blk0@ =~= first_block_prefix());
    assert(ple@ =~= per_layer());
    assert(embd@ =~= token_embd());
    starts_with(name, blk0.as_slice()) || contains(name, ple.as_slice()) || contains(
        name,
        embd.as_slice(),
    )
}

} // verus!
