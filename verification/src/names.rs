//! GGUF tensor names of the feed-forward weights, and lookup by name.

use vstd::prelude::*;
use crate::bytes::{bytes_eq, decimal, push_all, push_decimal};
use crate::gguf::TensorInfo;

verus! {

/// The feed-forward weight matrices of a transformer block.
#[derive(Clone, Copy, Debug, PartialEq, Eq, Structural)]
pub enum FfnTensor {
    Gate,
    Up,
    Down,
}

/// The bytes of `blk.`.
pub open spec fn block_prefix() -> Seq<u8> {
    seq![98u8, 108u8, 107u8, 46u8]
}

/// The bytes of `.ffn_gate.weight`, `.ffn_up.weight` or `.ffn_down.weight`.
pub open spec fn ffn_suffix(kind: FfnTensor) -> Seq<u8> {
    let ffn = seq![46u8, 102u8, 102u8, 110u8, 95u8];
    let weight = seq![46u8, 119u8, 101u8, 105u8, 103u8, 104u8, 116u8];
    match kind {
        FfnTensor::Gate => ffn + seq![103u8, 97u8, 116u8, 101u8] + weight,
        FfnTensor::Up => ffn + seq![117u8, 112u8] + weight,
        FfnTensor::Down => ffn + seq![100u8, 111u8, 119u8, 110u8] + weight,
    }
}

/// `blk.{layer}.ffn_{gate,up,down}.weight`.
pub open spec fn ffn_name(layer: nat, kind: FfnTensor) -> Seq<u8> {
    block_prefix() + decimal(layer) + ffn_suffix(kind)
}

/// The GGUF name of a feed-forward weight of block `layer`.
pub fn ffn_tensor_name(layer: usize, kind: FfnTensor) -> (name: Vec<u8>)
    ensures
        name@ == ffn_name(layer as nat, kind),
{
    let mut name: Vec<u8> = vec![98u8, 108u8, 107u8, 46u8];
    push_decimal(&mut name, layer);
    let ffn: Vec<u8> = vec![46u8, 102u8, 102u8, 110u8, 95u8];
    let part: Vec<u8> = match kind {
        FfnTensor::Gate => vec![103u8, 97u8, 116u8, 101u8],
        FfnTensor::Up => vec![117u8, 112u8],
        FfnTensor::Down => vec![100u8, 111u8, 119u8, 110u8],
    };
    let weight: Vec<u8> = vec![46u8, 119u8, 101u8, 105u8, 103u8, 104u8, 116u8];
    push_all(&mut name, ffn.as_slice());
    push_all(&mut name, part.as_slice());
    push_all(&mut name, weight.as_slice());
    assert(name@ =~= ffn_name(layer as nat, kind));
    name
}

/// `i` is the first descriptor named `name`.
pub open spec fn is_first_named(ts: Seq<TensorInfo>, name: Seq<u8>, i: int) -> bool {
    0 <= i < ts.len() && ts[i].name@ == name && forall|j: int|
        0 <= j < i ==> (#[trigger] ts[j]).name@ != name
}

/// No descriptor is named `name`.
pub open spec fn none_named(ts: Seq<TensorInfo>, name: Seq<u8>) -> bool {
    forall|j: int| 0 <= j < ts.len() ==> (#[trigger] ts[j]).name@ != name
}

/// The index of the first descriptor named `name`.
pub fn find_tensor(tensors: &[TensorInfo], name: &[u8]) -> (r: Option<usize>)
    ensures
        match r {
            Some(i) => is_first_named(tensors@, name@, i as int),
            None => none_named(tensors@, name@),
        },
{
    let mut i: usize = 0;
    while i < tensors.len()
        invariant
            i <= tensors@.len(),
            forall|j: int| 0 <= j < i ==> (#[trigger] tensors@[j]).name@ != name@,
        decreases tensors@.len() - i,
    {
        if bytes_eq(tensors[i].name.as_slice(), name) {
            return Some(i);
        }
        i = i + 1;
    }
    None
}

} // verus!
