//! Verified core of the larql GGUF tooling: header parsing, ablation and
//! inversion planning, split-model loading plans and vindex layout helpers.

pub mod ablate;
pub mod bytes;
pub mod gguf;
pub mod inspect;
pub mod invert;
pub mod laws;
pub mod names;
pub mod patch;
pub mod split;
pub mod vindex;
