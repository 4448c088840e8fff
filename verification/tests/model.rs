use video_diffusion::adapters::{AdapterFile, AdapterKind, Delta, LycorisModule, MoeExpert};
use video_diffusion::error::Error;
use video_diffusion::model::{
    descriptor, descriptor_i2v_14b, descriptor_t2v_14b, dit_resident_bytes, i2v_reference,
    is_wan_curated, keyframe_indices, load, load_i2v_14b, load_t2v_14b, resolve_capped_dims,
    resolve_load_time_quant, trim_frames, wan_native_samplers, wan_samplers, Conditioning,
    ConditioningKind, DenoiseRoute, LoadSpec, Quant, Request, Stage, Wan, Wan14b, WanModelConfig,
    MODEL_ID, MODEL_ID_I2V_14B, MODEL_ID_T2V_14B,
};
use video_diffusion::scheduler::SolverKind;
use video_diffusion::transformer::{HostSurface, WanQuant};

fn config(model_type: &str, dual: bool, in_dim: usize, z: usize, stride: (usize, usize, usize), area: usize) -> WanModelConfig<f32> {
    WanModelConfig {
        model_type: model_type.to_string(),
        dual_model: dual,
        is_ti2v: model_type == "ti2v",
        is_i2v_concat: model_type == "i2v" && in_dim == 36,
        in_dim,
        dim: if dual { 5120 } else { 3072 },
        frame_num: if dual { 81 } else { 121 },
        patch_size: (1, 2, 2),
        vae_stride: stride,
        vae_z_dim: z,
        max_area: area,
        quantization: None,
        sample_steps: if dual { 40 } else { 50 },
        sample_shift: 5.0,
        sample_fps: if dual { 16 } else { 24 },
        sample_neg_prompt: "bad".to_string(),
    }
}

fn t2v_14b() -> WanModelConfig<f32> {
    config("t2v", true, 16, 16, (4, 8, 8), 0)
}

fn i2v_14b() -> WanModelConfig<f32> {
    config("i2v", true, 36, 16, (4, 8, 8), 704 * 1280)
}

fn ti2v_5b() -> WanModelConfig<f32> {
    config("ti2v", false, 48, 48, (4, 16, 16), 704 * 1280)
}

fn request(width: u32, height: u32) -> Request<f32> {
    Request {
        width,
        height,
        frames: None,
        trim_first_frames: None,
        steps: None,
        scheduler_shift: None,
        sampler: None,
        seed: None,
        negative_prompt: None,
        fps: None,
        conditioning: vec![],
        keyframes: vec![],
    }
}

#[test]
fn resolve_capped_dims_aligns_down_without_cap() {
    let cfg = t2v_14b();
    assert_eq!(cfg.max_area, 0);
    assert_eq!(resolve_capped_dims(130, 130, &cfg), (128, 128));
    assert_eq!(resolve_capped_dims(128, 256, &cfg), (128, 256));
}

#[test]
fn resolve_capped_dims_enforces_max_area_cap() {
    let cfg = ti2v_5b();
    let align = (cfg.patch_size.1 * cfg.vae_stride.1) as u32;
    let (w, h) = resolve_capped_dims(2048, 2048, &cfg);
    assert!(
        (w as usize) * (h as usize) <= cfg.max_area,
        "capped {w}x{h} must fit max_area {}",
        cfg.max_area
    );
    assert_eq!((w % align, h % align), (0, 0), "capped dims stay grid-aligned");
    assert!(w < 2048 && h < 2048, "over-area request must shrink");
    assert_eq!(resolve_capped_dims(512, 512, &cfg), (512, 512));
}

fn tiny_lora(name: &str, dim: usize, rank: usize) -> AdapterFile {
    AdapterFile {
        path: name.to_string(),
        kind: AdapterKind::Lora,
        moe_expert: None,
        lokr_stamp: false,
        lokr_keys: false,
        loha_keys: false,
        keys: vec![
            "diffusion_model.blocks.0.self_attn.q.lora_A.weight".to_string(),
            "diffusion_model.blocks.0.self_attn.q.lora_B.weight".to_string(),
        ],
        shapes: vec![vec![rank, dim], vec![dim, rank]],
        modules: vec![],
    }
}

fn tiny_lokr(name: &str) -> AdapterFile {
    AdapterFile {
        path: name.to_string(),
        kind: AdapterKind::Lokr,
        moe_expert: None,
        lokr_stamp: true,
        lokr_keys: true,
        loha_keys: false,
        keys: vec![],
        shapes: vec![],
        modules: vec![LycorisModule { raw: "blocks.0.self_attn.q".to_string(), resolved: None }],
    }
}

fn loha(name: &str) -> AdapterFile {
    AdapterFile {
        path: name.to_string(),
        kind: AdapterKind::Lora,
        moe_expert: None,
        lokr_stamp: false,
        lokr_keys: false,
        loha_keys: true,
        keys: vec![],
        shapes: vec![],
        modules: vec![],
    }
}

fn packed(mut cfg: WanModelConfig<f32>) -> WanModelConfig<f32> {
    cfg.quantization = Some(WanQuant { bits: 8, group_size: 64 });
    cfg
}

fn wan_5b_prequant(adapters: Vec<AdapterFile>) -> Wan<f32> {
    Wan { config: packed(ti2v_5b()), adapters, quant: None }
}

fn wan_14b_prequant(adapters: Vec<AdapterFile>) -> Wan14b<f32> {
    Wan14b {
        id: MODEL_ID_T2V_14B.to_string(),
        config: packed(t2v_14b()),
        adapters,
        quant: None,
    }
}

#[test]
fn site_5b_packed_lora_installs_additively_no_error() {
    let model = wan_5b_prequant(vec![tiny_lora("site5b.safetensors", 64, 8)]);
    let applied = model.install_adapters_additive(HostSurface::Blocks(1)).unwrap().unwrap();
    assert_eq!(applied.folds.len(), 1);
    assert_eq!(applied.folds[0].path, "blocks.0.self_attn.q");
    let stages = model.stages(&request(512, 512), false, 0).unwrap();
    assert!(stages.contains(&Stage::InstallAdapters));
    assert!(!stages.contains(&Stage::FoldAdapters), "packed weights stay packed");
}

#[test]
fn site_5b_packed_lokr_installs_structurally_no_error() {
    let model = wan_5b_prequant(vec![tiny_lokr("site5b_lokr.safetensors")]);
    let applied = model.install_adapters_additive(HostSurface::Blocks(1)).unwrap().unwrap();
    assert_eq!(applied.folds[0].delta, Delta::Lokr { module: 0 });
}

#[test]
fn site_14b_packed_lora_installs_on_both_experts() {
    let model = wan_14b_prequant(vec![tiny_lora("site14b.safetensors", 64, 8)]);
    let applied = model
        .install_adapters_additive(HostSurface::Blocks(1), HostSurface::Blocks(1))
        .unwrap()
        .unwrap();
    assert_eq!((applied.low.len(), applied.high.len()), (1, 1));
    assert!(!model.stages(&request(512, 512), 0).contains(&Stage::FoldAdapters));
}

#[test]
fn site_14b_packed_lokr_installs_structurally_no_error() {
    let model = wan_14b_prequant(vec![tiny_lokr("site14b_lokr.safetensors")]);
    let applied = model
        .install_adapters_additive(HostSurface::Blocks(1), HostSurface::Blocks(1))
        .unwrap()
        .unwrap();
    assert_eq!(applied.low[0].delta, Delta::Lokr { module: 0 });
    assert_eq!(applied.high[0].delta, Delta::Lokr { module: 0 });
}

#[test]
fn site_5b_packed_loha_is_explicit_typed_error() {
    let model = wan_5b_prequant(vec![loha("linear.safetensors")]);
    let err = match model.install_adapters_additive(HostSurface::Blocks(1)) {
        Ok(_) => panic!("LoHa on a packed model must be refused"),
        Err(e) => e,
    };
    assert!(matches!(err, Error::Unsupported(_)));
    let msg = err.message();
    assert!(
        msg.contains("bf16") && msg.contains("sc-10051") && msg.contains("LoHa"),
        "got: {msg}"
    );
    assert!(!msg.contains("not yet wired"), "got: {msg}");
}

#[test]
fn site_14b_dense_fold_still_works() {
    let mut model = wan_14b_prequant(vec![tiny_lora("site14b_dense.safetensors", 64, 8)]);
    model.config.quantization = None;
    let weights = || vec!["blocks.0.self_attn.q.weight".to_string()];
    let applied = model.merge_adapters(weights(), weights()).unwrap().unwrap();
    assert_eq!(applied.low[0].path, "blocks.0.self_attn.q");
    assert_eq!(applied.high[0].path, "blocks.0.self_attn.q");
}

#[test]
fn adapters_that_meet_no_module_are_an_error() {
    let mut model = wan_5b_prequant(vec![tiny_lora("none.safetensors", 64, 8)]);
    model.config.quantization = None;
    let err = match model.merge_adapters(vec!["head.head.weight".to_string()]) {
        Ok(_) => panic!("nothing matched"),
        Err(e) => e,
    };
    assert!(err.message().contains("matched no module"), "got: {}", err.message());
    model.adapters.clear();
    assert!(model.merge_adapters(vec![]).unwrap().is_none());
    model.adapters.push(tiny_lora("t.safetensors", 64, 8));
    model.adapters[0].moe_expert = Some(MoeExpert::High);
    assert!(model.merge_adapters(vec!["blocks.0.self_attn.q.weight".to_string()]).is_err());
}

#[test]
fn descriptors_name_their_models() {
    assert_eq!(descriptor().id, MODEL_ID);
    assert_eq!(descriptor_t2v_14b().id, MODEL_ID_T2V_14B);
    assert_eq!(descriptor_i2v_14b().id, MODEL_ID_I2V_14B);
    assert_eq!(descriptor().conditioning, vec![ConditioningKind::Reference, ConditioningKind::Keyframe]);
    assert!(descriptor_t2v_14b().conditioning.is_empty());
    assert_eq!(descriptor().family, "wan");
    assert_eq!(descriptor().samplers, wan_samplers());
}

#[test]
fn native_samplers_are_not_curated() {
    for s in wan_native_samplers() {
        assert!(!is_wan_curated(&Some(s)));
    }
    assert!(!is_wan_curated(&None));
    assert!(is_wan_curated(&Some("heun".to_string())));
    assert_eq!(SolverKind::from_name("dpmpp_2m"), SolverKind::Dpmpp2m);
}

fn load_spec(weights_dir: bool, quantize: Option<Quant>) -> LoadSpec {
    LoadSpec { weights_dir, bf16: true, quantize, adapters: vec![] }
}

#[test]
fn loading_checks_the_spec_and_the_configuration() {
    assert!(load(load_spec(true, None), ti2v_5b()).is_ok());
    assert!(load(load_spec(false, None), ti2v_5b()).is_err());
    assert!(load(load_spec(true, None), t2v_14b()).is_err());
    assert!(load_t2v_14b(load_spec(true, None), t2v_14b()).is_ok());
    assert!(load_t2v_14b(load_spec(true, None), ti2v_5b()).is_err());
    assert!(load_i2v_14b(load_spec(true, None), i2v_14b()).is_ok());
    assert!(load_i2v_14b(load_spec(true, None), t2v_14b()).is_err());
    let mut f32_spec = load_spec(true, None);
    f32_spec.bf16 = false;
    assert!(load(f32_spec, ti2v_5b()).is_err());
    let model = load(load_spec(true, Some(Quant::Q4)), ti2v_5b()).unwrap();
    assert_eq!(model.quant, Some(Quant::Q4));
    assert_eq!(model.config().in_dim, 48);
}

#[test]
fn packed_weights_keep_their_width() {
    let stored = Some(WanQuant { bits: 4, group_size: 64 });
    assert_eq!(resolve_load_time_quant("m", None, Some(Quant::Q8)).unwrap(), Some(Quant::Q8));
    assert_eq!(resolve_load_time_quant("m", stored, Some(Quant::Q4)).unwrap(), None);
    assert_eq!(resolve_load_time_quant("m", stored, None).unwrap(), None);
    let err = resolve_load_time_quant("m", stored, Some(Quant::Q8)).unwrap_err();
    assert!(err.message().starts_with("m"), "got: {}", err.message());
}

#[test]
fn requests_are_checked_one_by_one() {
    let model = wan_5b_prequant(vec![]);
    assert!(model.validate(&request(512, 512)).is_ok());
    let mut r = request(512, 512);
    r.frames = Some(8);
    assert!(model.validate(&r).is_err());
    r.frames = Some(9);
    assert!(model.validate(&r).is_ok());
    r.conditioning = vec![Conditioning::Reference];
    assert!(model.validate(&r).is_ok());
    r.keyframes = vec![0];
    assert!(model.validate(&r).unwrap_err().message().contains("cannot be combined"));
    r.keyframes = vec![];
    r.sampler = Some("heun".to_string());
    assert!(model.validate(&r).unwrap_err().message().contains("curated samplers"));
    r.sampler = None;
    r.trim_first_frames = Some(1);
    assert!(model.validate(&r).unwrap_err().message().contains("trim_first_frames"));
}

#[test]
fn an_image_model_asks_for_its_image() {
    let model = Wan14b {
        id: MODEL_ID_I2V_14B.to_string(),
        config: i2v_14b(),
        adapters: vec![],
        quant: None,
    };
    let mut r = request(512, 512);
    assert!(model.validate(&r).unwrap_err().message().contains("requires a Reference"));
    r.conditioning = vec![Conditioning::Other, Conditioning::Reference];
    assert_eq!(i2v_reference(&r.conditioning), Some(1));
    assert!(model.validate(&r).is_ok());
    assert!(model.stages(&r, 0).contains(&Stage::EncodeImageVideo));
    r.trim_first_frames = Some(2);
    assert!(model.validate(&r).is_err());
}

#[test]
fn a_generation_is_prepared_from_request_and_settings() {
    let model = Wan { config: ti2v_5b(), adapters: vec![], quant: None };
    let mut r = request(1280, 704);
    r.frames = Some(49);
    r.seed = Some(3);
    r.trim_first_frames = Some(2);
    let p = model.prepare(&r, Some(10 << 30), false, 128 << 30, 11).unwrap();
    assert_eq!((p.width, p.height), (1280, 704));
    assert_eq!((p.frames, p.trim_out, p.gen_frames), (49, 8, 57));
    assert_eq!(p.latent, [48, 15, 44, 80]);
    assert_eq!(p.tokens, 15 * 22 * 40);
    assert_eq!(p.knobs.seed, 3);
    assert_eq!(p.knobs.steps, 50);
    assert_eq!(p.negative_prompt, "bad");
    let err = match model.prepare(&r, Some(200 << 30), false, 64 << 30, 11) {
        Ok(_) => panic!("must not fit"),
        Err(e) => e,
    };
    assert!(err.message().contains(MODEL_ID), "got: {}", err.message());
}

#[test]
fn quantized_weights_take_their_share() {
    assert_eq!(dit_resident_bytes(&vec![Some(100), None, Some(100)], None), 200);
    assert_eq!(dit_resident_bytes(&vec![Some(100)], Some(Quant::Q4)), 30);
    assert_eq!(dit_resident_bytes(&vec![Some(100)], Some(Quant::Q8)), 55);
}

#[test]
fn keyframes_count_from_either_end() {
    assert_eq!(keyframe_indices(&vec![0, -1, 2], 5).unwrap(), vec![0, 4, 2]);
    assert!(keyframe_indices(&vec![5], 5).is_err());
    assert!(keyframe_indices(&vec![-6], 5).is_err());
}

#[test]
fn a_trimmed_video_has_the_frames_asked_for() {
    assert_eq!(trim_frames(vec![1, 2, 3, 4, 5], 2), vec![3, 4, 5]);
    assert_eq!(trim_frames(vec![1, 2], 0), vec![1, 2]);
    assert_eq!(trim_frames(vec![1, 2], 5), Vec::<i32>::new());
}

#[test]
fn stages_follow_the_request() {
    let model = Wan { config: ti2v_5b(), adapters: vec![], quant: Some(Quant::Q4) };
    let mut r = request(512, 512);
    r.keyframes = vec![0];
    let stages = model.stages(&r, true, 4).unwrap();
    assert_eq!(
        stages,
        vec![
            Stage::EncodeText { negative: false },
            Stage::EncodeKeyframes,
            Stage::LoadWeights,
            Stage::FoldAdapters,
            Stage::Build,
            Stage::Quantize { bits: 4 },
            Stage::Denoise { route: DenoiseRoute::MaskBlend },
            Stage::Decode,
            Stage::Trim { frames: 4 },
        ]
    );
    r.sampler = Some("ddim".to_string());
    assert!(model.stages(&r, true, 0).is_err());
    r.keyframes = vec![];
    let free = model.stages(&r, false, 0).unwrap();
    assert!(free.contains(&Stage::Denoise { route: DenoiseRoute::Curated }));
}
