//! Verified planning logic for latent video diffusion pipelines.

use vstd::prelude::*;

pub mod adapters;
pub mod chunk;
pub mod conditioning;
pub mod convert;
pub mod error;
pub mod layouts;
pub mod memory;
pub mod merges;
pub mod model;
pub mod names;
pub mod needs;
pub mod numeric;
pub mod patchify;
pub mod pipeline;
pub mod refusals;
pub mod scheduler;
pub mod svd;
pub mod tensor;
pub mod text;
pub mod training;
pub mod transformer;
pub mod vae;
pub mod vae_common;
pub mod weights;

verus! {

} // verus!
