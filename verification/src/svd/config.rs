//! The shapes of the components. Numbers with a fraction are held as the bits of a 32-bit float.

use vstd::prelude::*;

verus! {

/// The denoiser's shape.
#[derive(Debug, Clone, PartialEq, Eq)]
pub struct UnetConfig {
    pub block_out_channels: Vec<usize>,
    pub layers_per_block: usize,
    pub num_attention_heads: Vec<usize>,
    pub transformer_layers_per_block: usize,
    /// Each of the three numbers that steer the motion is embedded in so many dimensions.
    pub addition_time_embed_dim: usize,
}

impl Default for UnetConfig {
    fn default() -> (r: UnetConfig)
        ensures
            r.block_out_channels@ == seq![320usize, 640, 1280, 1280],
            r.layers_per_block == 2,
            r.num_attention_heads@ == seq![5usize, 10, 20, 20],
            r.transformer_layers_per_block == 1,
            r.addition_time_embed_dim == 256,
    {
        let block_out_channels: Vec<usize> = vec![320, 640, 1280, 1280];
        let num_attention_heads: Vec<usize> = vec![5, 10, 20, 20];
        assert(block_out_channels@ =~= seq![320usize, 640, 1280, 1280]);
        assert(num_attention_heads@ =~= seq![5usize, 10, 20, 20]);
        UnetConfig {
            block_out_channels,
            layers_per_block: 2,
            num_attention_heads,
            transformer_layers_per_block: 1,
            addition_time_embed_dim: 256,
        }
    }
}

/// The autoencoder's shape; latents are scaled by 0.18215.
#[derive(Debug, Clone, PartialEq, Eq)]
pub struct VaeConfig {
    pub block_out_channels: Vec<usize>,
    pub layers_per_block: usize,
    pub scaling_factor_bits: u32,
}

impl Default for VaeConfig {
    fn default() -> (r: VaeConfig)
        ensures
            r.block_out_channels@ == seq![128usize, 256, 512, 512],
            r.layers_per_block == 2,
            r.scaling_factor_bits == 0x3e3a_8588,
    {
        let block_out_channels: Vec<usize> = vec![128, 256, 512, 512];
        assert(block_out_channels@ =~= seq![128usize, 256, 512, 512]);
        VaeConfig { block_out_channels, layers_per_block: 2, scaling_factor_bits: 0x3e3a_8588 }
    }
}

/// The image encoder's shape; its norms have an epsilon of 0.00001.
#[derive(Debug, Clone, Copy, PartialEq, Eq, Structural)]
pub struct ImageEncoderConfig {
    pub hidden_size: usize,
    pub intermediate_size: usize,
    pub num_hidden_layers: usize,
    pub num_attention_heads: usize,
    pub patch_size: usize,
    pub image_size: usize,
    /// The dimensions of the image's embedding, which the denoiser attends to.
    pub projection_dim: usize,
    pub layer_norm_eps_bits: u32,
}

impl Default for ImageEncoderConfig {
    fn default() -> (r: ImageEncoderConfig)
        ensures
            r == (ImageEncoderConfig {
                hidden_size: 1280,
                intermediate_size: 5120,
                num_hidden_layers: 32,
                num_attention_heads: 16,
                patch_size: 14,
                image_size: 224,
                projection_dim: 1024,
                layer_norm_eps_bits: 0x3727_c5ac,
            }),
    {
        ImageEncoderConfig {
            hidden_size: 1280,
            intermediate_size: 5120,
            num_hidden_layers: 32,
            num_attention_heads: 16,
            patch_size: 14,
            image_size: 224,
            projection_dim: 1024,
            layer_norm_eps_bits: 0x3727_c5ac,
        }
    }
}

/// The noise schedule's shape: levels from 700 down to 0.002, with an exponent of 7.
#[derive(Debug, Clone, Copy, PartialEq, Eq, Structural)]
pub struct SchedulerConfig {
    pub sigma_min_bits: u32,
    pub sigma_max_bits: u32,
    pub rho_bits: u32,
}

impl Default for SchedulerConfig {
    fn default() -> (r: SchedulerConfig)
        ensures
            r == (SchedulerConfig {
                sigma_min_bits: 0x3b03_126f,
                sigma_max_bits: 0x442f_0000,
                rho_bits: 0x40e0_0000,
            }),
    {
        SchedulerConfig {
            sigma_min_bits: 0x3b03_126f,
            sigma_max_bits: 0x442f_0000,
            rho_bits: 0x40e0_0000,
        }
    }
}

} // verus!
