use video_diffusion::conditioning::Image;
use video_diffusion::error::Error;
use video_diffusion::model::{WanModelConfig, MODEL_ID, MODEL_ID_I2V_14B, MODEL_ID_T2V_14B};
use video_diffusion::scheduler::SolverKind;
use video_diffusion::training::{
    absolute_loss, check_cached, check_config_matches, expert_filename, expert_seed, expert_suffix, file_parts,
    group_block_targets, load_trainer, load_trainer_i2v_14b, load_trainer_ti2v_5b, plan_expert,
    plan_sample, preflight_memory_guard, preview_count, preview_frame, primary_file,
    projected_dense_peak, resolve_target_paths, sample_seed, save_names, second_seed, target_suffixes,
    timestep_bias, timestep_kind, trainer_descriptor, training_tokens, use_checkpoint,
    without_weight_decay, Band, NetworkType, TimestepBias, TimestepKind, TrainLoop, TrainSettings,
    PEAK_UNITS,
};

fn texts(list: &[&str]) -> Vec<String> {
    list.iter().map(|s| s.to_string()).collect()
}

fn config(model_type: &str, dual: bool, in_dim: usize, z: usize) -> WanModelConfig<f32> {
    WanModelConfig {
        model_type: model_type.to_string(),
        dual_model: dual,
        is_ti2v: model_type == "ti2v",
        is_i2v_concat: model_type == "i2v" && in_dim == 36,
        in_dim,
        dim: if dual { 5120 } else { 3072 },
        frame_num: 81,
        patch_size: (1, 2, 2),
        vae_stride: (4, 8, 8),
        vae_z_dim: z,
        max_area: 0,
        quantization: None,
        sample_steps: 40,
        sample_shift: 5.0,
        sample_fps: 16,
        sample_neg_prompt: String::new(),
    }
}

fn peak(tokens: u32, dim: usize, layers: usize, experts: usize) -> f64 {
    projected_dense_peak(tokens, dim, layers, experts) as f64 / PEAK_UNITS as f64
}

#[test]
fn projection_matches_measured_curve() {
    let p = peak(1024, 5120, 40, 1);
    assert!((p - 55.4).abs() < 1.0, "A14B L=1024 projection = {p:.1} GB, expected ≈55.4");
    assert!((peak(256, 5120, 40, 1) - 41.8).abs() < 1.5);
    assert!((peak(576, 5120, 40, 1) - 47.6).abs() < 1.5);
    assert!((peak(256, 5120, 40, 1) - 41.80).abs() < 1.0);
    assert!((peak(576, 5120, 40, 1) - 47.58).abs() < 1.0);
    assert!((peak(1024, 5120, 40, 1) - 55.41).abs() < 1.0);
    assert!((peak(64, 3072, 30, 1) - 13.66).abs() < 2.0);
    assert!((peak(144, 3072, 30, 1) - 14.56).abs() < 2.0);
    assert!((peak(256, 3072, 30, 1) - 15.88).abs() < 2.0);
    assert!(peak(1024, 3072, 30, 1) > 15.88);
    assert!(peak(256, 5120, 40, 1) < peak(1024, 5120, 40, 1));
    assert!(peak(1024, 5120, 40, 2) > peak(1024, 5120, 40, 1));
    assert!(peak(1024, 3072, 30, 1) < peak(1024, 5120, 40, 1));
}

#[test]
fn the_guard_refuses_what_does_not_fit() {
    let cfg = config("t2v", true, 16, 16);
    assert!(preflight_memory_guard(&cfg, 40, 512, 2, "t", 64 << 30).is_err());
    assert!(preflight_memory_guard(&cfg, 40, 512, 1, "t", 128 << 30).is_ok());
    assert_eq!(training_tokens((1, 2, 2), 512), 1024);
}

#[test]
fn trainers_are_laid_out_by_their_configuration() {
    let t2v = load_trainer(true, &config("t2v", true, 16, 16)).unwrap();
    assert_eq!((t2v.z48, t2v.experts, t2v.y_channels), (false, 2, 0));
    assert_eq!(t2v.id, MODEL_ID_T2V_14B);
    let i2v = load_trainer_i2v_14b(true, &config("i2v", true, 36, 16)).unwrap();
    assert_eq!((i2v.experts, i2v.y_channels), (2, 20));
    let ti2v = load_trainer_ti2v_5b(true, &config("ti2v", false, 48, 48)).unwrap();
    assert_eq!((ti2v.z48, ti2v.experts, ti2v.y_channels), (true, 1, 0));
    assert!(load_trainer(false, &config("t2v", true, 16, 16)).is_err());
    assert!(load_trainer(true, &config("ti2v", false, 48, 48)).is_err());
    assert!(check_config_matches(MODEL_ID_I2V_14B, &config("t2v", true, 16, 16)).is_err());
    assert!(check_config_matches(MODEL_ID, &config("ti2v", false, 48, 48)).is_ok());
    let d = trainer_descriptor(MODEL_ID);
    assert_eq!((d.family.as_str(), d.backend.as_str()), ("wan", "mlx"));
    assert!(d.supports_lora && d.supports_lokr);
}

#[test]
fn training_requests_are_checked() {
    let t = load_trainer(true, &config("t2v", true, 16, 16)).unwrap();
    assert!(t.validate(1, 8, 100, "adamw", true).is_ok());
    assert!(t.validate(0, 8, 100, "adamw", true).unwrap_err().message().contains("dataset is empty"));
    assert!(t.validate(1, 0, 100, "adamw", true).unwrap_err().message().contains("rank"));
    assert!(t.validate(1, 8, 0, "adamw", true).unwrap_err().message().contains("steps"));
    assert!(t.validate(1, 8, 100, "sgd", false).unwrap_err().message().contains("'sgd'"));
}

#[test]
fn files_carry_step_and_expert() {
    assert_eq!(expert_filename("a", ".safetensors", "", None), "a.safetensors");
    assert_eq!(
        expert_filename("a", ".safetensors", "high_noise", Some(50)),
        "a-step000050.high_noise.safetensors"
    );
    let names = save_names("a", ".safetensors", true, None);
    assert_eq!(names.len(), 2);
    assert_ne!(names[0], names[1]);
    assert_eq!(names[primary_file(true)], "a.high_noise.safetensors");
    assert_eq!(save_names("a", ".st", false, None), vec!["a.st".to_string()]);
    assert_eq!(primary_file(false), 0);
    assert_eq!(expert_suffix(true, 0), "low_noise");
    assert_eq!(expert_suffix(true, 1), "high_noise");
    assert_eq!(expert_suffix(false, 0), "");
}

#[test]
fn targets_are_picked_by_their_ending_and_grouped_by_block() {
    let paths = texts(&["blocks.0.self_attn.q", "blocks.1.ffn.fc1", "blocks.1.cross_attn.q"]);
    let q = resolve_target_paths(&paths, &texts(&["q"]));
    assert_eq!(q, texts(&["blocks.0.self_attn.q", "blocks.1.cross_attn.q"]));
    assert_eq!(target_suffixes(&vec![]), texts(&["q", "k", "v", "o"]));
    assert_eq!(target_suffixes(&texts(&["fc1"])), texts(&["fc1"]));
    let groups = group_block_targets(&q, 2);
    assert_eq!(groups.len(), 2);
    assert_eq!(groups[0].len(), 1);
    assert_eq!(groups[0][0].local, texts(&["self_attn", "q"]));
    assert_eq!(groups[1][0].local, texts(&["cross_attn", "q"]));
    assert_ne!(groups[1][0].a_key, groups[1][0].b_key);
}

#[test]
fn settings_select_by_name() {
    assert_eq!(timestep_kind("uniform"), TimestepKind::Uniform);
    assert_eq!(timestep_kind("weighted"), TimestepKind::Weighted);
    assert_eq!(timestep_kind("sigmoid"), TimestepKind::Sigmoid);
    assert_eq!(timestep_bias("high_noise"), TimestepBias::High);
    assert_eq!(timestep_bias("low_noise"), TimestepBias::Low);
    assert_eq!(timestep_bias("none"), TimestepBias::Unbiased);
    assert!(absolute_loss("mae"));
    assert!(!absolute_loss("mse"));
    assert!(without_weight_decay("Adam"));
    assert!(!without_weight_decay("adamw"));
    assert!(use_checkpoint(true, NetworkType::Lora));
    assert!(!use_checkpoint(true, NetworkType::Lokr));
    assert!(!use_checkpoint(false, NetworkType::Lora));
}

fn settings(steps: u32, dual: bool) -> TrainSettings {
    TrainSettings {
        steps,
        gradient_accumulation: 2,
        save_every: 3,
        sample_every: 2,
        previews: 1,
        seed: 7,
        items: 3,
        dual,
    }
}

#[test]
fn experts_alternate_and_updates_follow_accumulation() {
    let mut run = TrainLoop::new(settings(5, true));
    let mut seen = vec![];
    while let Some(s) = run.next_step(false) {
        seen.push((s.step, s.expert, s.item, s.update, s.checkpoint, s.previews));
    }
    assert_eq!(
        seen,
        vec![
            (1, 1, 0, None, false, false),
            (2, 0, 1, None, false, true),
            (3, 1, 2, Some(0), true, false),
            (4, 0, 0, Some(0), false, true),
            (5, 1, 1, Some(1), false, false),
        ]
    );
    assert_eq!(run.finish().unwrap(), 5);
}

#[test]
fn a_run_that_is_stopped_before_it_starts_saves_nothing() {
    let mut run = TrainLoop::new(settings(5, false));
    assert!(run.next_step(true).is_none());
    assert!(matches!(run.finish(), Err(Error::Canceled)));
    assert!(run.next_step(false).is_some());
    assert!(run.next_step(true).is_none());
    assert_eq!(run.finish().unwrap(), 1);
}

#[test]
fn seeds_wrap_and_differ() {
    let mut run = TrainLoop::new(settings(2, false));
    let a = run.next_step(false).unwrap();
    let b = run.next_step(false).unwrap();
    assert_ne!(a.timestep_seed, b.timestep_seed);
    assert_ne!(a.noise_seed, b.noise_seed);
    assert_eq!(a.timestep_seed, 7u64.wrapping_mul(0x9E37_79B9).wrapping_add(1));
    assert_eq!(expert_seed(u64::MAX, 1), 0x9E37_79B8);
    assert_eq!(expert_seed(5, 0), 5);
    assert_eq!(sample_seed(1, 1, 2), 2u64.wrapping_mul(0xA24B_AED4_4AC9_5F2D).wrapping_add(2));
    assert_eq!(second_seed(0), 0x9E37_79B9);
}

#[test]
fn an_expert_is_trained_in_its_band() {
    let s = settings(5, true);
    let targets = texts(&["blocks.0.self_attn.q"]);
    let low = plan_expert("t", &targets, &s, 0, true).unwrap();
    let high = plan_expert("t", &targets, &s, 1, false).unwrap();
    assert_eq!(low.band, Band::BelowBoundary);
    assert_eq!(high.band, Band::FromBoundary);
    assert_eq!((low.micro_steps, high.micro_steps), (2, 2));
    assert!(!low.sdpa_checkpoint && high.sdpa_checkpoint);
    let alone = plan_expert("t", &targets, &settings(5, false), 0, true).unwrap();
    assert_eq!((alone.band, alone.micro_steps), (Band::Full, 5));
    assert!(plan_expert("t", &vec![], &s, 0, true).is_err());
}

#[test]
fn previews_are_capped_and_unguided() {
    assert_eq!(preview_count(10, 9, false), 4);
    assert_eq!(preview_count(10, 2, false), 2);
    assert_eq!(preview_count(0, 9, false), 0);
    assert_eq!(preview_count(10, 9, true), 0);
    let p = plan_sample(2, 0);
    assert_eq!((p.dual, p.kind, p.steps), (true, SolverKind::UniPC, 1));
    assert_eq!(plan_sample(1, 8).steps, 8);
    let image = |n: u8| Image { width: 1, height: 1, pixels: vec![n, n, n] };
    assert_eq!(preview_frame(vec![image(1), image(2)]).unwrap().pixels, vec![1, 1, 1]);
    assert!(preview_frame(vec![]).is_err());
}

#[test]
fn a_run_without_items_ends() {
    assert!(check_cached("t", 1, false).is_ok());
    assert!(matches!(check_cached("t", 0, true), Err(Error::Canceled)));
    assert!(matches!(check_cached("t", 0, false), Err(Error::Msg(_))));
}

#[test]
fn a_file_name_gives_stem_and_ending() {
    let parts = |n: &str| file_parts(&Some(n.to_string()));
    assert_eq!(parts("my.lora.safetensors"), ("my.lora".to_string(), ".safetensors".to_string()));
    assert_eq!(parts("plain"), ("plain".to_string(), ".safetensors".to_string()));
    assert_eq!(parts(".hidden"), (".hidden".to_string(), ".safetensors".to_string()));
    assert_eq!(parts("dot."), ("dot".to_string(), ".".to_string()));
    assert_eq!(file_parts(&None), ("lora".to_string(), ".safetensors".to_string()));
}
