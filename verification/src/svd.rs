//! Stable video diffusion: an image to video model with a spatial and temporal denoiser.

use vstd::prelude::*;

pub mod config;
pub mod pipeline;
pub mod transformer;
pub mod unet;

verus! {

} // verus!
