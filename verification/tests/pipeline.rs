use video_diffusion::adapters::MoeExpert;
use video_diffusion::error::Error;
use video_diffusion::memory::{
    estimated_denoise_peak, estimated_vae22_decode_peak, estimated_z16_decode_peak,
    auto_tiling_budgeted, auto_tiling_budgeted_z16, plan_vae22_tiling, plan_z16_tiling,
    preflight_denoise_memory_guard, tile_candidates, wan_budget_error, Tiling, TilingBudgetError,
};
use video_diffusion::numeric::{integer_root, py_round, ratio_less};
use video_diffusion::pipeline::{
    align_dim, best_output_size, denoise_next, forward_batch, latent_shape, prepend1,
    resolve_sampler_knobs, seq_len, DenoiseAction, DenoiseRun,
};
use video_diffusion::scheduler::{SolverKind, StepPlan};

fn gib(bytes: u128) -> f64 {
    bytes as f64 / (1024.0 * 1024.0 * 1024.0)
}

#[test]
fn denoise_peak_estimate_matches_5b_measurements() {
    let weights = (11.5 * 1024.0 * 1024.0 * 1024.0) as u64;
    for (tokens, measured_peak) in [(1760usize, 11.2_f64), (16720, 17.5), (32560, 24.9)] {
        let est = gib(estimated_denoise_peak(weights, tokens, 3072, true));
        assert!(
            (est - measured_peak).abs() < 2.0,
            "L={tokens}: estimate {est:.1} GiB vs measured {measured_peak:.1} GiB"
        );
    }
}

#[test]
fn denoise_peak_scales_with_cfg_and_tokens() {
    let w = 10u64 << 30;
    let on = gib(estimated_denoise_peak(w, 32560, 3072, true));
    let off = gib(estimated_denoise_peak(w, 32560, 3072, false));
    assert!(on - 10.0 > 1.9 * (off - 10.0), "CFG should ~2× the activation term");
    assert!(gib(estimated_denoise_peak(w, 40000, 3072, true)) > on);
}

#[test]
fn guard_rejects_over_budget_and_passes_under() {
    let limit = 32u64 << 30;
    let res = preflight_denoise_memory_guard("wan_test", 56 << 30, 1024, 5120, true, limit);
    let ok = preflight_denoise_memory_guard("wan_test", 10 << 30, 5280, 3072, true, limit);
    assert!(res.is_err(), "56 GiB resident must be rejected under a 32 GiB budget");
    assert!(ok.is_ok(), "11.5 GiB peak must pass under a 32 GiB budget");
}

#[test]
fn resolve_sampler_knobs_falls_back_to_defaults_then_request() {
    let k = resolve_sampler_knobs(None, None, &None, None, 40, 5.0f32, 7);
    assert_eq!(k.steps, 40);
    assert_eq!(k.shift, 5.0);
    assert_eq!(k.kind, SolverKind::UniPC);
    assert_eq!(k.seed, 7);

    let k = resolve_sampler_knobs(
        Some(12),
        Some(3.5f32),
        &Some("euler".to_string()),
        Some(99),
        40,
        5.0,
        7,
    );
    assert_eq!((k.steps, k.shift, k.kind, k.seed), (12, 3.5, SolverKind::Euler, 99));
}

#[test]
fn vae22_decode_peak_matches_wedge_anchors() {
    let a = gib(estimated_vae22_decode_peak(97, 576, 1024, 64, 512, 512, false));
    assert!((a - 60.0).abs() < 6.0, "anchor A estimate {a:.1} GiB vs 60");
    let b = gib(estimated_vae22_decode_peak(145, 704, 1280, 32, 256, 256, false));
    assert!((b - 12.6).abs() < 2.0, "anchor B estimate {b:.1} GiB vs 12.6");
    let bf16_768 = gib(estimated_vae22_decode_peak(97, 576, 1024, 64, 576, 768, true));
    let f32_768 = gib(estimated_vae22_decode_peak(97, 576, 1024, 64, 576, 768, false));
    assert!(bf16_768 < f32_768, "bf16 peak must be below f32");
    assert!(bf16_768 >= 79.7, "bf16 768/64 estimate {bf16_768:.1} under-shoots 79.7");
    let bf16_640 = gib(estimated_vae22_decode_peak(97, 576, 1024, 48, 576, 640, true));
    assert!(bf16_640 >= 55.1, "bf16 640/48 estimate {bf16_640:.1} under-shoots 55.1");
}

#[test]
fn z16_decode_peak_matches_sweep_anchors() {
    let anchors = [
        (16, 512, 512, 16, 512, 512, 25.39),
        (16, 768, 768, 16, 768, 768, 56.35),
        (32, 512, 512, 32, 512, 512, 50.12),
        (16, 768, 768, 16, 384, 384, 14.46),
        (16, 1024, 1024, 16, 512, 512, 25.66),
    ];
    for (of, oh, ow, tf, th, tw, measured) in anchors {
        let est = gib(estimated_z16_decode_peak(of, oh, ow, tf, th, tw));
        assert!(est >= measured, "z16 model {est:.2} GiB UNDER-shoots measured {measured}");
        assert!(
            est <= measured * 1.10,
            "z16 model {est:.2} GiB over-conservative vs measured {measured} (>10 %)"
        );
    }
}

#[test]
fn budget_errors_name_the_size_and_the_label() {
    let e = wan_budget_error(
        "z16",
        1920,
        1088,
        97,
        TilingBudgetError::SmallestTileExceedsBudget { projected_gib: 70, safe_gib: 54 },
    );
    let m = e.message();
    assert!(m.contains("1920") && m.contains("1088") && m.contains("97"), "got: {m}");
    let a = wan_budget_error(
        "z16",
        1920,
        1088,
        97,
        TilingBudgetError::AccumulatorsExceedBudget { projected_gib: 70, safe_gib: 54 },
    );
    assert_ne!(m, a.message());
}

#[test]
fn tile_candidates_go_from_large_to_small() {
    let c = tile_candidates();
    assert!(!c.spatial_px.is_empty() && !c.temporal.is_empty());
    assert!(c.spatial_px.windows(2).all(|w| w[0] > w[1]));
}

#[test]
fn align_dim_rounds_down_to_tile() {
    assert_eq!(align_dim(1280, 2, 8), 1280);
    assert_eq!(align_dim(1281, 2, 8), 1280);
    assert_eq!(align_dim(1295, 2, 8), 1280);
    assert_eq!(align_dim(1296, 2, 8), 1296);
}

#[test]
fn latent_shape_and_seq_len_match_reference_formulas() {
    let ls = latent_shape(49, 512, 512, 16, (4, 8, 8)).unwrap();
    assert_eq!(ls, [16, 13, 64, 64]);
    let sl = seq_len(ls, (1, 2, 2));
    assert_eq!(sl, 13312);
}

#[test]
fn latent_shape_rejects_zero_frames() {
    assert!(latent_shape(0, 512, 512, 16, (4, 8, 8)).is_err());
    assert!(latent_shape(1, 512, 512, 16, (4, 8, 8)).is_ok());
}

#[test]
fn py_round_is_half_to_even() {
    assert_eq!(py_round(192, 10), 19);
    assert_eq!(py_round(16, 1), 16);
    assert_eq!(py_round(1, 2), 0);
    assert_eq!(py_round(3, 2), 2);
    assert_eq!(py_round(5, 2), 2);
    assert_eq!(py_round(2_500_001, 1_000_000), 3);
}

#[test]
fn best_output_size_caps_area_and_aligns() {
    let (w, h) = best_output_size(1280, 720, 16, 16, 704 * 1280);
    assert_eq!((w, h), (1264, 704));
    assert!((w * h) as usize <= 704 * 1280, "must fit within max_area");
    assert_eq!(w % 16, 0);
    assert_eq!(h % 16, 0);
}

#[test]
fn best_output_size_clamps_degenerate_area_to_one_grid_cell() {
    let (w, h) = best_output_size(8, 8, 16, 16, 100);
    assert!(w >= 16 && h >= 16, "got {w}x{h}");
    assert_eq!((w % 16, h % 16), (0, 0));
    let (w2, h2) = best_output_size(4096, 1, 16, 16, 16 * 16);
    assert!(w2 >= 16 && h2 >= 16, "got {w2}x{h2}");
}

#[test]
fn the_size_that_fits_wins_over_the_one_that_does_not() {
    assert_eq!(best_output_size(4096, 1, 16, 16, 16 * 16), (16, 16));
    assert_eq!(best_output_size(1, 4096, 16, 16, 16 * 16), (16, 16));
    for (w, h, area) in [(3000, 7, 5000), (7, 3000, 5000), (100, 90, 300), (1, 1, 256)] {
        let (a, b) = best_output_size(w, h, 16, 16, area);
        assert!((a * b) as usize <= area, "{a}x{b} over {area}");
    }
}

#[test]
fn roots_and_ratios_are_exact() {
    assert_eq!(integer_root(0), 0);
    assert_eq!(integer_root(15), 3);
    assert_eq!(integer_root(16), 4);
    assert!(ratio_less(1, 3, 1, 2));
    assert!(!ratio_less(2, 4, 1, 2));
}

#[test]
fn a_run_changes_experts_once_and_then_finishes() {
    let mut run = DenoiseRun::new(SolverKind::Euler, 1000, vec![999, 900, 500], vec![true; 3], 900);
    let experts = [MoeExpert::High, MoeExpert::High, MoeExpert::Low];
    for (i, want) in experts.iter().enumerate() {
        match run.next(false).unwrap() {
            DenoiseAction::Predict { step, expert } => {
                assert_eq!(step, i);
                assert_eq!(expert, *want);
            }
            DenoiseAction::Finish => panic!("finished after {i} steps"),
        }
        assert_eq!(run.advance().unwrap(), StepPlan::Euler { from: i, to: i + 1 });
    }
    assert_eq!(run.next(true).unwrap(), DenoiseAction::Finish);
    let err = run.advance().unwrap_err();
    assert!(err.message().contains("over-stepped"), "got: {}", err.message());
}

#[test]
fn a_run_stops_before_a_step_when_asked_to() {
    assert!(matches!(denoise_next(1, &vec![9, 8], 0, true), Err(Error::Canceled)));
    assert_eq!(denoise_next(2, &vec![9, 8], 0, true).unwrap(), DenoiseAction::Finish);
}

#[test]
fn guidance_predicts_twice() {
    assert_eq!(forward_batch(true), 2);
    assert_eq!(forward_batch(false), 1);
    assert_eq!(prepend1(&vec![3, 4]), vec![1, 3, 4]);
}

/// A budget in GiB as hundredths of a byte.
fn budget(gib: u128) -> u128 {
    gib * 100 * (1 << 30)
}

/// The extents of a tiling's largest tile: time, rows and columns.
fn largest_tile(cfg: &Tiling, h: u32, w: u32, f: u32) -> (u32, u32, u32) {
    (
        cfg.temporal.map(|t| t.0.min(f)).unwrap_or(f),
        cfg.spatial.map(|s| s.0.min(h)).unwrap_or(h),
        cfg.spatial.map(|s| s.0.min(w)).unwrap_or(w),
    )
}

fn chosen_peak_gib(cfg: &Tiling, h: u32, w: u32, f: u32, bf16: bool) -> f64 {
    let (tf, th, tw) = largest_tile(cfg, h, w, f);
    gib(estimated_vae22_decode_peak(f, h, w, tf, th, tw, bf16))
}

/// What may be used of 64 GiB, in hundredths of a byte and in GiB.
const SAFE_64: u128 = 64 * 85 * (1 << 30);
const SAFE_64_GIB: f64 = 64.0 * 0.85;

#[test]
fn vae22_tiling_single_pass_when_small() {
    let plan = plan_vae22_tiling(256, 256, 33, budget(40), false).unwrap();
    assert!(plan.is_none(), "small clip should not need tiling: {plan:?}");
}

#[test]
fn vae22_tiling_bounds_moderate_res_peak() {
    let cfg = plan_vae22_tiling(576, 1024, 97, SAFE_64, false).unwrap().expect("moderate res must tile");
    let peak = chosen_peak_gib(&cfg, 576, 1024, 97, false);
    assert!(peak <= SAFE_64_GIB, "chosen peak {peak:.1} GiB over safe {SAFE_64_GIB:.1}");
    assert!(peak < 60.0, "chosen peak {peak:.1} GiB not below the 60 GB blow-up");
    assert_eq!(cfg, Tiling { spatial: Some((384, 64)), temporal: None });
}

#[test]
fn vae22_bf16_tiling_stays_under_budget_and_below_f32_peak() {
    let bf16 = plan_vae22_tiling(576, 1024, 97, SAFE_64, true).unwrap().expect("bf16 still needs tiling at 64 GiB");
    let bf16_peak = chosen_peak_gib(&bf16, 576, 1024, 97, true);
    assert!(bf16_peak <= SAFE_64_GIB, "bf16 chosen peak {bf16_peak:.1} GiB over safe {SAFE_64_GIB:.1}");
    let f32_same = chosen_peak_gib(&bf16, 576, 1024, 97, false);
    assert!(
        bf16_peak < f32_same,
        "bf16 peak {bf16_peak:.1} not below f32 {f32_same:.1} for the same tile"
    );
    assert_eq!(bf16, plan_vae22_tiling(576, 1024, 97, SAFE_64, false).unwrap().unwrap());
}

#[test]
fn vae22_tiling_bounds_peak_across_output_sizes() {
    for (h, w, f) in
        [(576, 1024, 49), (576, 1024, 97), (576, 1024, 145), (704, 1280, 145), (1088, 1920, 97)]
    {
        let peak = match plan_vae22_tiling(h, w, f, SAFE_64, false).unwrap() {
            Some(cfg) => chosen_peak_gib(&cfg, h, w, f, false),
            None => gib(estimated_vae22_decode_peak(f, h, w, f, h, w, false)),
        };
        assert!(
            peak <= SAFE_64_GIB && peak < 60.0,
            "{w}×{h}×{f}: peak {peak:.1} GiB not bounded under safe {SAFE_64_GIB:.1} / 60 GB spike"
        );
    }
}

#[test]
fn vae22_tiling_errors_when_unfittable() {
    let err = plan_vae22_tiling(1088, 1920, 241, budget(8), false);
    assert!(err.is_err(), "over-budget decode must error, got {err:?}");
}

#[test]
fn z16_tiling_single_pass_when_small() {
    let plan = plan_z16_tiling(256, 256, 16, budget(60)).unwrap();
    assert!(plan.is_none(), "small z16 clip should not tile: {plan:?}");
}

#[test]
fn z16_tiling_bounds_moderate_res_peak() {
    let cfg = plan_z16_tiling(720, 1280, 80, SAFE_64).unwrap().expect("moderate-res z16 must tile");
    let (tf, th, tw) = largest_tile(&cfg, 720, 1280, 80);
    let peak = gib(estimated_z16_decode_peak(80, 720, 1280, tf, th, tw));
    assert!(peak <= SAFE_64_GIB, "z16 chosen peak {peak:.1} GiB over safe {SAFE_64_GIB:.1}");
}

#[test]
fn z16_tiling_errors_when_unfittable() {
    let err = plan_z16_tiling(2160, 3840, 240, budget(8));
    assert!(err.is_err(), "over-budget z16 decode must error, got {err:?}");
}

#[test]
fn vae22_tiling_budgeted_reads_memory_limit() {
    let cfg = auto_tiling_budgeted(576, 1024, 97, false, 64 << 30).unwrap().expect("moderate res tiles at 64 GiB");
    assert!(cfg.spatial.is_some() || cfg.temporal.is_some());
    assert_eq!(Some(cfg), plan_vae22_tiling(576, 1024, 97, SAFE_64, false).unwrap());
}

#[test]
fn a_larger_limit_never_cuts_finer() {
    let mut before: u64 = 0;
    for limit in 16u64..=640 {
        let Ok(plan) = auto_tiling_budgeted_z16(720, 1280, 80, limit << 30) else {
            assert_eq!(before, 0, "a larger limit refused what a smaller one took");
            continue;
        };
        let (f, h, w) = match plan {
            Some(cfg) => largest_tile(&cfg, 720, 1280, 80),
            None => (80, 720, 1280),
        };
        let voxels = f as u64 * h as u64 * w as u64;
        assert!(voxels >= before, "{limit} GiB: {voxels} after {before}");
        before = voxels;
    }
    assert_eq!(before, 80 * 720 * 1280);
}

#[test]
fn refused_decodes_say_what_is_too_large() {
    let buffers = plan_z16_tiling(2160, 3840, 240, budget(8)).unwrap_err().message();
    assert!(buffers.contains("z16 vae") && buffers.contains("output buffers"), "got: {buffers}");
    assert!(buffers.contains("~119 GB") && buffers.contains("~8 GB safe budget"), "got: {buffers}");
    let tile = plan_vae22_tiling(576, 1024, 97, budget(4), false).unwrap_err().message();
    assert!(tile.contains("z48 vae22") && tile.contains("smallest tile"), "got: {tile}");
    assert!(tile.contains("~6 GB") && tile.contains("~4 GB safe budget"), "got: {tile}");
}
