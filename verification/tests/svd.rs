use video_diffusion::error::Error;
use video_diffusion::svd::config::{ImageEncoderConfig, SchedulerConfig, UnetConfig, VaeConfig};
use video_diffusion::svd::pipeline::{decode, fps_id, guidance_schedule, SvdParams};
use video_diffusion::svd::transformer::{
    frame_positions, regroup, split_halves, temporal_context_rows, transformer_names,
};
use video_diffusion::svd::unet::{
    repeat_interleave_2d, repeat_interleave_3d, skip_for, SvdUnet,
};
use video_diffusion::tensor::Tensor;

#[test]
fn geglu_split_matches_index_gather() {
    let p = Tensor { shape: vec![2, 6], data: (0..12).map(|i| i as f32).collect() };
    let (two_inner, inner) = (6, 3);
    let (value, gate) = split_halves(&p).unwrap();
    assert_eq!(value, p.slice_axis(1, 0, inner));
    assert_eq!(gate, p.slice_axis(1, inner, two_inner));
    assert_eq!(value.data, vec![0., 1., 2., 6., 7., 8.]);
    assert_eq!(gate.data, vec![3., 4., 5., 9., 10., 11.]);
}

#[test]
fn an_odd_axis_has_no_halves() {
    assert!(split_halves(&Tensor { shape: vec![1, 3], data: vec![1u8, 2, 3] }).is_none());
}

#[test]
fn regrouping_twice_gives_the_tensor_back() {
    let x = Tensor { shape: vec![4, 3, 1], data: (0u8..12).collect() };
    let y = regroup(&x, 2).unwrap();
    assert_eq!(y.shape, vec![6, 2, 1]);
    assert_eq!(y.data, vec![0, 3, 1, 4, 2, 5, 6, 9, 7, 10, 8, 11]);
    let back = regroup(&y, 3).unwrap();
    assert_eq!(back, x);
    assert!(regroup(&x, 3).is_none());
}

#[test]
fn frames_have_their_places() {
    assert_eq!(frame_positions(2, 3), vec![0, 1, 2, 0, 1, 2]);
    assert_eq!(temporal_context_rows(2, 3, 2), vec![0, 0, 3, 3]);
}

#[test]
fn windows_hold_every_frame() {
    assert_eq!(decode(1, 10, 4).unwrap(), vec![(0, 4), (4, 4), (8, 2)]);
    assert_eq!(decode(1, 3, 0).unwrap(), vec![(0, 1), (1, 1), (2, 1)]);
    assert_eq!(decode(1, 0, 4).unwrap(), vec![]);
    let err = decode(2, 10, 4).unwrap_err();
    assert!(matches!(err, Error::Msg(_)));
    assert!(err.message().contains('2'), "got: {}", err.message());
}

#[test]
fn settings_have_their_defaults() {
    let p = SvdParams::default();
    assert_eq!((p.num_frames, p.num_inference_steps, p.fps, p.decode_chunk_size), (25, 25, 7, 25));
    assert_eq!(f32::from_bits(p.min_guidance_scale_bits), 1.0);
    assert_eq!(f32::from_bits(p.max_guidance_scale_bits), 3.0);
    assert_eq!(f32::from_bits(p.motion_bucket_id_bits), 127.0);
    assert_eq!(f32::from_bits(p.noise_aug_strength_bits), 0.02);
    assert_eq!(fps_id(&p), 6);
    let u = UnetConfig::default();
    assert_eq!(u.block_out_channels, vec![320, 640, 1280, 1280]);
    assert_eq!(u.num_attention_heads, vec![5, 10, 20, 20]);
    assert_eq!((u.layers_per_block, u.addition_time_embed_dim), (2, 256));
    let v = VaeConfig::default();
    assert_eq!(f32::from_bits(v.scaling_factor_bits), 0.18215);
    let e = ImageEncoderConfig::default();
    assert_eq!((e.hidden_size, e.num_hidden_layers, e.image_size), (1280, 32, 224));
    let s = SchedulerConfig::default();
    assert_eq!(f32::from_bits(s.sigma_min_bits), 0.002);
    assert_eq!(f32::from_bits(s.sigma_max_bits), 700.0);
}

#[test]
fn a_network_needs_its_tensors() {
    match SvdUnet::from_weights(&vec![], &UnetConfig::default()) {
        Err(Error::MissingTensor(_)) => {}
        Err(other) => panic!("got {}", other.message()),
        Ok(_) => panic!("a missing tensor must be an error"),
    }
    let names = transformer_names("down_blocks.0.attentions.0", 1);
    assert!(names.iter().all(|n| n.starts_with("down_blocks.0.attentions.0.")));
    assert!(!names.is_empty());
}

#[test]
fn skips_are_taken_from_the_end() {
    assert_eq!(skip_for(12, 0), 11);
    assert_eq!(skip_for(12, 11), 0);
}

#[test]
fn rows_are_repeated_side_by_side() {
    let x = Tensor { shape: vec![2, 1], data: vec![1u8, 2] };
    let r = repeat_interleave_2d(&x, 2);
    assert_eq!(r.shape, vec![4, 1]);
    assert_eq!(r.data, vec![1, 1, 2, 2]);
    let y = Tensor { shape: vec![2, 1, 1], data: vec![1u8, 2] };
    assert_eq!(repeat_interleave_3d(&y, 3).data, vec![1, 1, 1, 2, 2, 2]);
}

#[test]
fn guidance_rises_from_frame_to_frame() {
    assert_eq!(guidance_schedule(4), vec![(0, 3), (1, 3), (2, 3), (3, 3)]);
    assert_eq!(guidance_schedule(2), vec![(0, 1), (1, 1)]);
    assert_eq!(guidance_schedule(1), vec![(0, 1)]);
    assert_eq!(guidance_schedule(0), vec![(0, 1)]);
}
