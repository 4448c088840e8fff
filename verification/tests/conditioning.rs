use video_diffusion::conditioning::{
    build_i2v_mask, build_ti2v_keyframe_z, build_ti2v_mask, build_ti2v_multi_mask, cover_fit, crop_chw,
    frames_to_images, image_to_frame, latent_channels_first, plan_i2v_y, ti2v_blend_init,
    token_timesteps, video_to_frames, Image,
};
use video_diffusion::tensor::Tensor;

#[test]
fn build_i2v_mask_is_one_at_first_latent_frame() {
    let m = build_i2v_mask(2, 1, 1, 1.0f32, 0.0);
    assert_eq!(m.shape, &[4, 2, 1, 1]);
    assert_eq!(m.data, &[1., 0., 1., 0., 1., 0., 1., 0.]);
}

#[test]
fn build_ti2v_mask_freezes_first_frame() {
    let (mask, tokens) = build_ti2v_mask(2, 2, 2, 2, (1, 2, 2), 1.0f32, 0.0);
    assert_eq!(mask.shape, &[2, 2, 2, 2]);
    assert_eq!(
        mask.data,
        &[0., 0., 0., 0., 1., 1., 1., 1., 0., 0., 0., 0., 1., 1., 1., 1.]
    );
    assert_eq!(tokens.shape, &[1, 2]);
    assert_eq!(tokens.data, &[0., 1.]);
}

#[test]
fn build_ti2v_multi_mask_freezes_first_and_last() {
    let (mask, tokens) = build_ti2v_multi_mask(&vec![0, 2], 1, 3, 2, 2, (1, 2, 2), 1.0f32, 0.0);
    assert_eq!(mask.shape, &[1, 3, 2, 2]);
    assert_eq!(mask.data, &[0., 0., 0., 0., 1., 1., 1., 1., 0., 0., 0., 0.]);
    assert_eq!(tokens.data, &[0., 1., 0.]);
    let (m1, t1) = build_ti2v_multi_mask(&vec![0], 2, 2, 2, 2, (1, 2, 2), 1.0f32, 0.0);
    let (m0, t0) = build_ti2v_mask(2, 2, 2, 2, (1, 2, 2), 1.0f32, 0.0);
    assert_eq!(m1.data, m0.data);
    assert_eq!(t1.data, t0.data);
}

#[test]
fn only_the_set_of_pinned_frames_matters() {
    let masks = |v: &[usize]| build_ti2v_multi_mask(&v.to_vec(), 2, 5, 2, 2, (2, 2, 2), 1u8, 0);
    let (mask, tokens) = masks(&[0, 3]);
    for other in [&[3, 0][..], &[0, 0, 3, 3], &[3, 9, 0, 5]] {
        assert_eq!(masks(other).0.data, mask.data);
        assert_eq!(masks(other).1.data, tokens.data);
    }
    assert_eq!(tokens.data, &[0, 0]);
}

#[test]
fn build_ti2v_keyframe_z_scatters_frames() {
    let a = Tensor { shape: vec![1, 1, 1, 1], data: vec![7.0f32] };
    let b = Tensor { shape: vec![1, 1, 1, 1], data: vec![9.0f32] };
    let z = build_ti2v_keyframe_z(&vec![(a, 0), (b, 2)], 1, 3, 1, 1, 0.0).unwrap();
    assert_eq!(z.shape, &[1, 3, 1, 1]);
    assert_eq!(z.data, &[7.0, 0.0, 9.0]);
}

#[test]
fn ti2v_blend_init_freezes_first_frame() {
    let z_img = Tensor { shape: vec![1, 1, 1, 1], data: vec![9.0f32] };
    let mask = Tensor { shape: vec![1, 2, 1, 1], data: vec![false, true] };
    let noise = Tensor { shape: vec![1, 2, 1, 1], data: vec![5.0f32, 7.0] };
    let out = ti2v_blend_init(&z_img, &mask, &noise);
    assert_eq!(out.data, &[9.0, 7.0]);
}

#[test]
fn pinned_frames_stay_however_often_they_are_blended() {
    let (mask, tokens) = build_ti2v_multi_mask(&vec![0, 2], 1, 3, 2, 2, (1, 2, 2), true, false);
    let z = Tensor { shape: vec![1, 3, 2, 2], data: (100u32..112).collect() };
    let denoised = Tensor { shape: vec![1, 3, 2, 2], data: (0u32..12).collect() };
    let once = ti2v_blend_init(&z, &mask, &denoised);
    assert_eq!(once.data, vec![100, 101, 102, 103, 4, 5, 6, 7, 108, 109, 110, 111]);
    assert_eq!(ti2v_blend_init(&z, &mask, &once), once);
    assert_eq!(token_timesteps(&tokens.data, 875), vec![0, 875, 0]);
}

#[test]
fn channels_change_places() {
    let video = Tensor { shape: vec![1, 2, 1, 1, 3], data: vec![1u8, 2, 3, 4, 5, 6] };
    let frames = video_to_frames(&video);
    assert_eq!(frames.shape, vec![1, 1, 3, 2]);
    assert_eq!(frames.data, vec![1, 4, 2, 5, 3, 6]);
    let chw = Tensor { shape: vec![2, 1, 3], data: vec![1u8, 2, 3, 4, 5, 6] };
    let frame = image_to_frame(&chw);
    assert_eq!(frame.shape, vec![1, 1, 1, 3, 2]);
    assert_eq!(frame.data, vec![1, 4, 2, 5, 3, 6]);
    let back = latent_channels_first(&frame);
    assert_eq!(back.shape, vec![2, 1, 1, 3]);
    assert_eq!(back.data, vec![1, 2, 3, 4, 5, 6]);
}

fn image(width: u32, height: u32) -> Image {
    Image { width, height, pixels: vec![0; (width * height * 3) as usize] }
}

#[test]
fn an_image_covers_the_frame_and_is_cut_in_the_middle() {
    let fit = cover_fit(&image(8, 4), 4, 4).unwrap();
    assert_eq!((fit.width, fit.height), (8, 4));
    assert!(!fit.resize);
    assert_eq!((fit.left, fit.top), (2, 0));
    let up = cover_fit(&image(4, 4), 8, 8).unwrap();
    assert_eq!((up.width, up.height, up.resize), (8, 8, true));
    let mut short = image(4, 4);
    short.pixels.pop();
    assert!(cover_fit(&short, 4, 4).is_err());
}

#[test]
fn a_crop_has_its_channels_first() {
    let pixels: Vec<u8> = vec![1, 2, 3, 4, 5, 6, 7, 8, 9, 10, 11, 12];
    let c = crop_chw(&pixels, 2, 2, 1, 0, 1, 2);
    assert_eq!(c.shape, vec![3, 2, 1]);
    assert_eq!(c.data, vec![4, 10, 5, 11, 6, 12]);
}

#[test]
fn frames_hold_every_byte() {
    let bytes: Vec<u8> = (0..24).collect();
    let images = frames_to_images(&bytes, 2, 2, 2, 3);
    assert_eq!(images.len(), 2);
    assert_eq!((images[0].width, images[0].height), (2, 2));
    assert_eq!(images[0].pixels, bytes[..12].to_vec());
    assert_eq!(images[1].pixels, bytes[12..].to_vec());
}

#[test]
fn the_condition_of_a_video_starts_with_the_image() {
    let p = plan_i2v_y(81, 480, 832, (4, 8, 8)).unwrap();
    assert_eq!(p.empty_frames, 80);
    assert_eq!((p.t_lat, p.h_lat, p.w_lat), (21, 60, 104));
    assert!(plan_i2v_y(0, 480, 832, (4, 8, 8)).is_err());
}
