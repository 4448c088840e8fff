use video_diffusion::error::Error;
use video_diffusion::patchify::{patchify, unpatchify, unpatchify_batch};
use video_diffusion::tensor::{checked_volume, Tensor};
use video_diffusion::vae::{
    cache_slots, causal_pad, decoder_layers, encoder_layers, interleave_frames, plan_keep, time_step, TimeStep, WanVae,
};
use video_diffusion::vae_common::{
    axis_shape, last_t_axis, place_tile, tile_next, AxisTile, FeatCache, TileAction, TilePlan,
};

#[test]
fn patchify_shapes_5b() {
    let x = Tensor { shape: vec![48, 21, 44, 80], data: vec![0u8; 48 * 21 * 44 * 80] };
    let (tokens, grid) = patchify(&x, (1, 2, 2)).unwrap();
    assert_eq!(grid, (21, 22, 40));
    assert_eq!(tokens.shape, &[18480, 48 * 2 * 2]);
}

#[test]
fn patchify_packs_c_pt_ph_pw_order() {
    let x = Tensor { shape: vec![1, 1, 2, 4], data: vec![0.0_f32, 1., 2., 3., 4., 5., 6., 7.] };
    let (tokens, grid) = patchify(&x, (1, 2, 2)).unwrap();
    assert_eq!(grid, (1, 1, 2));
    assert_eq!(tokens.shape, &[2, 4]);
    assert_eq!(tokens.data, &[0., 1., 4., 5., 2., 3., 6., 7.]);
}

#[test]
fn single_channel_round_trips() {
    let x = Tensor { shape: vec![1, 1, 2, 4], data: vec![0.0_f32, 1., 2., 3., 4., 5., 6., 7.] };
    let (tokens, grid) = patchify(&x, (1, 2, 2)).unwrap();
    let back = unpatchify(&tokens, grid, 1, (1, 2, 2)).unwrap();
    assert_eq!(back.shape, &[1, 1, 2, 4]);
    let diff: f32 = back.data.iter().zip(&x.data).map(|(a, b)| (a - b).abs()).sum();
    assert_eq!(diff, 0.0, "C=1 round trip changed values");
}

#[test]
fn patches_of_one_position_round_trip() {
    let x = Tensor { shape: vec![3, 2, 1, 2], data: (0u8..12).collect() };
    let (tokens, grid) = patchify(&x, (1, 1, 1)).unwrap();
    assert_eq!(grid, (2, 1, 2));
    assert_eq!(tokens.data, vec![0, 4, 8, 1, 5, 9, 2, 6, 10, 3, 7, 11]);
    assert_eq!(unpatchify(&tokens, grid, 3, (1, 1, 1)).unwrap(), x);
}

#[test]
fn a_latent_that_does_not_divide_is_refused() {
    let x = Tensor { shape: vec![1, 1, 3, 4], data: vec![0u8; 12] };
    assert!(patchify(&x, (1, 2, 2)).is_none());
}

fn unit() -> AxisTile<f32> {
    AxisTile { start: 0, end: 2, out_start: 0, out_stop: 2, mask: vec![1.0; 2] }
}

fn half(start: usize) -> AxisTile<f32> {
    AxisTile { start, end: start + 2, out_start: start, out_stop: start + 2, mask: vec![1.0; 2] }
}

fn two_halves() -> TilePlan<f32> {
    TilePlan {
        t: vec![half(0), half(2)],
        h: vec![unit()],
        w: vec![unit()],
        out_f: 4,
        out_h: 2,
        out_w: 2,
    }
}

fn roundtrip(denorm: &Tensor<f32>, axes: [usize; 3]) -> Vec<f32> {
    let plan = two_halves();
    let outs = [plan.out_f, plan.out_h, plan.out_w];
    let mut acc: Vec<f32> = vec![0.0; denorm.data.len()];
    let mut done = 0;
    loop {
        let (t, h, w) = match tile_next(&plan, done, false).unwrap() {
            TileAction::Decode { t, h, w } => (t, h, w),
            TileAction::Finish => return acc,
        };
        let tiles = [&plan.t[t], &plan.h[h], &plan.w[w]];
        let mut tile = denorm.slice_axis(axes[0], tiles[0].start, tiles[0].end);
        tile = tile.slice_axis(axes[1], tiles[1].start, tiles[1].end);
        tile = tile.slice_axis(axes[2], tiles[2].start, tiles[2].end);
        let mut pads: Vec<(usize, usize)> = vec![(0, 0); 5];
        for k in 0..3 {
            let p = place_tile(tiles[k], tile.shape[axes[k]], outs[k]);
            tile = tile.slice_axis(axes[k], 0, p.kept);
            pads[axes[k]] = (p.before, p.after);
        }
        let placed = tile.pad(&pads, 0.0);
        assert_eq!(placed.shape, denorm.shape);
        for (a, b) in acc.iter_mut().zip(&placed.data) {
            *a += b;
        }
        done += 1;
    }
}

#[test]
fn identity_roundtrip_ncthw() {
    let vals: Vec<f32> = (0..16).map(|i| i as f32).collect();
    let denorm = Tensor { shape: vec![1, 1, 4, 2, 2], data: vals.clone() };
    assert_eq!(roundtrip(&denorm, [2, 3, 4]), vals);
}

#[test]
fn identity_roundtrip_channels_last() {
    let vals: Vec<f32> = (0..16).map(|i| i as f32).collect();
    let denorm = Tensor { shape: vec![1, 4, 2, 2, 1], data: vals.clone() };
    assert_eq!(roundtrip(&denorm, [1, 2, 3]), vals);
}

/// The tiles of an axis: so many latents long, overlapping by so many, each repeated `scale` times. The
/// weights rise and fall over the overlaps.
fn overlapping(n: usize, len: usize, overlap: usize, scale: usize) -> Vec<AxisTile<f32>> {
    let mut tiles = Vec::new();
    let mut start = 0;
    loop {
        let end = (start + len).min(n);
        let (size, ramp) = ((end - start) * scale, overlap * scale);
        let mask = (0..size)
            .map(|i| {
                let rise = if start > 0 { (i + 1) as f32 / (ramp + 1) as f32 } else { 1.0 };
                let fall = if end < n { (size - i) as f32 / (ramp + 1) as f32 } else { 1.0 };
                rise.min(fall).min(1.0)
            })
            .collect();
        tiles.push(AxisTile { start, end, out_start: start * scale, out_stop: end * scale, mask });
        if end == n {
            return tiles;
        }
        start += len - overlap;
    }
}

/// Every place along an axis so many times in a row.
fn repeat(x: &Tensor<f32>, axis: usize, times: usize) -> Tensor<f32> {
    let inner: usize = x.shape[axis + 1..].iter().product();
    let mut shape = x.shape.clone();
    shape[axis] *= times;
    let mut data = Vec::with_capacity(x.data.len() * times);
    for row in x.data.chunks(inner) {
        for _ in 0..times {
            data.extend_from_slice(row);
        }
    }
    Tensor { shape, data }
}

fn upsample(x: &Tensor<f32>, axes: [usize; 3], scales: [usize; 3]) -> Tensor<f32> {
    let mut y = repeat(x, axes[0], scales[0]);
    y = repeat(&y, axes[1], scales[1]);
    repeat(&y, axes[2], scales[2])
}

fn assert_combined_reconstructs(shape: [usize; 5], axes: [usize; 3], tiles: [usize; 3], label: &str) {
    let scales = [4, 8, 8];
    let plan = TilePlan {
        t: overlapping(shape[axes[0]], 4, 2, scales[0]),
        h: overlapping(shape[axes[1]], 8, 4, scales[1]),
        w: overlapping(shape[axes[2]], 8, 4, scales[2]),
        out_f: shape[axes[0]] * scales[0],
        out_h: shape[axes[1]] * scales[1],
        out_w: shape[axes[2]] * scales[2],
    };
    assert_eq!([plan.t.len(), plan.h.len(), plan.w.len()], tiles, "{label}");
    let outs = [plan.out_f, plan.out_h, plan.out_w];
    let n: usize = shape.iter().product();
    let vals: Vec<f32> = (0..n).map(|i| (i as f32 * 0.137).sin()).collect();
    let denorm = Tensor { shape: shape.to_vec(), data: vals };
    let expected = upsample(&denorm, axes, scales);
    let mut sum = vec![0.0f32; expected.data.len()];
    let mut weights = vec![0.0f32; expected.data.len()];
    let mut done = 0;
    loop {
        let (t, h, w) = match tile_next(&plan, done, false).unwrap() {
            TileAction::Decode { t, h, w } => (t, h, w),
            TileAction::Finish => break,
        };
        let tiles = [&plan.t[t], &plan.h[h], &plan.w[w]];
        let mut tile = denorm.slice_axis(axes[0], tiles[0].start, tiles[0].end);
        tile = tile.slice_axis(axes[1], tiles[1].start, tiles[1].end);
        tile = tile.slice_axis(axes[2], tiles[2].start, tiles[2].end);
        let mut decoded = upsample(&tile, axes, scales);
        let mut pads: Vec<(usize, usize)> = vec![(0, 0); 5];
        let mut blend = vec![1.0f32; decoded.data.len()];
        for k in 0..3 {
            let p = place_tile(tiles[k], decoded.shape[axes[k]], outs[k]);
            assert_eq!(p.kept, decoded.shape[axes[k]], "{label}");
            pads[axes[k]] = (p.before, p.after);
            let inner: usize = decoded.shape[axes[k] + 1..].iter().product();
            for (i, b) in blend.iter_mut().enumerate() {
                *b *= tiles[k].mask[i / inner % p.kept];
            }
        }
        for (d, b) in decoded.data.iter_mut().zip(&blend) {
            *d *= b;
        }
        let blend = Tensor { shape: decoded.shape.clone(), data: blend };
        let placed = decoded.pad(&pads, 0.0);
        assert_eq!(placed.shape, expected.shape, "{label}");
        for (a, b) in sum.iter_mut().zip(&placed.data) {
            *a += b;
        }
        for (a, b) in weights.iter_mut().zip(&blend.pad(&pads, 0.0).data) {
            *a += b;
        }
        done += 1;
    }
    for ((s, w), e) in sum.iter().zip(&weights).zip(&expected.data) {
        assert!(*w > 0.0, "{label}: a place lies in no tile");
        assert!((s / w.max(1e-8) - e).abs() < 1e-4, "{label}: {s} over {w} is not {e}");
    }
}

#[test]
fn combined_axes_reconstruct_ncthw() {
    assert_combined_reconstructs([1, 2, 6, 8, 12], [2, 3, 4], [2, 1, 2], "asym t+w (h single)");
    assert_combined_reconstructs([1, 2, 6, 12, 8], [2, 3, 4], [2, 2, 1], "asym t+h (w single)");
    assert_combined_reconstructs([1, 2, 6, 12, 12], [2, 3, 4], [2, 2, 2], "symmetric t+h+w");
    assert_combined_reconstructs([1, 2, 7, 13, 13], [2, 3, 4], [3, 3, 3], "ragged 3x3x3");
}

#[test]
fn combined_axes_reconstruct_channels_last() {
    assert_combined_reconstructs([1, 6, 8, 12, 2], [1, 2, 3], [2, 1, 2], "cl asym t+w (h single)");
    assert_combined_reconstructs([1, 6, 12, 12, 2], [1, 2, 3], [2, 2, 2], "cl symmetric t+h+w");
    assert_combined_reconstructs([1, 7, 13, 13, 2], [1, 2, 3], [3, 3, 3], "cl ragged 3x3x3");
}

#[test]
fn tile_decode_honors_pretripped_cancel() {
    let res = tile_next(&two_halves(), 0, true);
    assert!(
        matches!(res, Err(Error::Canceled)),
        "a pre-tripped cancel must abort the tiled decode with Error::Canceled"
    );
}

#[test]
fn tiles_are_taken_row_by_row() {
    assert_eq!(
        tile_next(&two_halves(), 1, false).unwrap(),
        TileAction::Decode { t: 1, h: 0, w: 0 }
    );
    assert_eq!(tile_next(&two_halves(), 2, true).unwrap(), TileAction::Finish);
}

#[test]
fn a_short_tile_is_padded_and_a_long_one_cut() {
    let tile = AxisTile { start: 0, end: 2, out_start: 4, out_stop: 8, mask: vec![1u8; 4] };
    let p = place_tile(&tile, 4, 10);
    assert_eq!((p.kept, p.before, p.after), (4, 4, 2));
    let long = place_tile(&tile, 6, 10);
    assert_eq!((long.kept, long.before, long.after), (4, 4, 2));
}

#[test]
fn a_cache_hands_back_what_it_held() {
    let mut cache: FeatCache<u8> = FeatCache::new(2);
    assert_eq!(cache.exchange(1), None);
    assert_eq!(cache.exchange(2), None);
    cache.rewind();
    assert_eq!(cache.exchange(3), Some(1));
    assert_eq!(cache.exchange(4), Some(2));
}

#[test]
fn the_last_frames_are_kept() {
    let x = Tensor { shape: vec![1, 1, 3, 1], data: vec![1u8, 2, 3] };
    assert_eq!(last_t_axis(&x, 2, 2).data, vec![2, 3]);
    assert_eq!(axis_shape(2, 7), vec![1, 1, 7, 1, 1]);
    let k = plan_keep(1, true);
    assert_eq!((k.from_chunk, k.last_of_before), (1, true));
    let k = plan_keep(4, true);
    assert_eq!((k.from_chunk, k.last_of_before), (2, false));
}

#[test]
fn frames_are_encoded_in_chunks() {
    let vae = WanVae { encoder_slots: Some(cache_slots(&encoder_layers())) };
    let (chunks, slots) = vae.encode(9).unwrap();
    assert_eq!(chunks, vec![(0, 1), (1, 5), (5, 9)]);
    assert!(slots > 0);
    assert_eq!(vae.decode(3, 4, 5), (12, 32, 40));
    let bare = WanVae { encoder_slots: None };
    assert!(bare.encode(9).is_err());
    assert!(cache_slots(&decoder_layers()) > 0);
}

#[test]
fn an_autoencoder_without_weights_is_refused() {
    match WanVae::from_weights(&vec![]) {
        Err(Error::MissingTensor(_)) => {}
        _ => panic!("a missing tensor must be an error"),
    }
}

#[test]
fn a_convolution_looks_back_in_time() {
    let p = causal_pad(3, 1, None);
    assert_eq!((p.use_cache, p.pad), (false, 2));
    let p = causal_pad(3, 1, Some(2));
    assert_eq!((p.use_cache, p.pad), (true, 0));
    let p = causal_pad(3, 1, Some(1));
    assert_eq!((p.use_cache, p.pad), (true, 1));
    assert_eq!(time_step(false), TimeStep::Pass);
    assert_eq!(time_step(true), TimeStep::Halve);
}

#[test]
fn tensors_move_their_elements() {
    let x = Tensor { shape: vec![2, 3], data: vec![1u8, 2, 3, 4, 5, 6] };
    assert_eq!(x.get(&vec![1, 0]), 4);
    assert_eq!(x.transpose_axes(&vec![1, 0]).data, vec![1, 4, 2, 5, 3, 6]);
    assert_eq!(x.reshape(vec![3, 2]).unwrap().shape, vec![3, 2]);
    assert!(x.reshape(vec![4, 2]).is_none());
    let y = Tensor { shape: vec![2, 1], data: vec![7u8, 8] };
    assert_eq!(x.concat_axis(&y, 1).unwrap().data, vec![1, 2, 3, 7, 4, 5, 6, 8]);
    assert!(x.concat_axis(&y, 0).is_none());
    assert_eq!(checked_volume(&vec![2, 3, 4]), Some(24));
    assert_eq!(checked_volume(&vec![usize::MAX, 2]), None);
}

#[test]
fn every_member_of_a_batch_is_a_latent() {
    let x = Tensor { shape: vec![2, 2, 4], data: (0u8..16).collect() };
    let out = unpatchify_batch(&x, (1, 1, 2), 1, (1, 2, 2)).unwrap();
    assert_eq!(out.len(), 2);
    assert_eq!(out[0].shape, vec![1, 1, 2, 4]);
    assert_eq!(out[0].data, vec![0, 1, 4, 5, 2, 3, 6, 7]);
    assert_eq!(out[1].data, vec![8, 9, 12, 13, 10, 11, 14, 15]);
    assert!(unpatchify_batch(&x, (1, 1, 3), 1, (1, 2, 2)).is_none());
    let alone = Tensor { shape: vec![1, 2, 4], data: (0u8..8).collect() };
    let rows = Tensor { shape: vec![2, 4], data: (0u8..8).collect() };
    assert_eq!(
        unpatchify_batch(&alone, (1, 1, 2), 1, (1, 2, 2)).unwrap()[0],
        unpatchify(&rows, (1, 1, 2), 1, (1, 2, 2)).unwrap()
    );
}

#[test]
fn halves_of_the_channels_become_frames() {
    let x = Tensor { shape: vec![1, 4, 2, 1, 1], data: vec![1u8, 2, 3, 4, 5, 6, 7, 8] };
    let y = interleave_frames(&x).unwrap();
    assert_eq!(y.shape, vec![1, 2, 4, 1, 1]);
    assert_eq!(y.data, vec![1, 5, 2, 6, 3, 7, 4, 8]);
    let odd = Tensor { shape: vec![1, 3, 1, 1, 1], data: vec![1u8, 2, 3] };
    assert!(interleave_frames(&odd).is_none());
}
