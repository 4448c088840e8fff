use video_diffusion::convert::{
    apply_plan, assemble_bernini_renderer_snapshot, assemble_wan_vace_fun_snapshot,
    assemble_wan_vace_snapshot, bernini_renderer_knobs, choose_vae, expert_conversions,
    extract_bernini_expert, is_shard, place_component, quantize_wan_transformer, renderer_knobs,
    sanitize_wan22_vae, sanitize_wan_t5, sanitize_wan_transformer, sanitize_wan_transformer_diffusers,
    sanitize_wan_vae_weights, shard_order, squeeze_all, wan_quantize_predicate, BaseDir, Clearing, Entry,
    KnobReadings, Part, Placing, Planned, SharedFiles, TransformerDir, VaeSource,
    DEFAULT_BOUNDARY_BITS, DEFAULT_FLOW_SHIFT_BITS, DEFAULT_SHIFT_BITS,
};
use video_diffusion::tensor::Tensor;

fn entries(list: &[(&str, &[usize])]) -> Vec<Entry> {
    list.iter()
        .map(|(k, s)| Entry { key: k.to_string(), shape: s.to_vec() })
        .collect()
}

fn sorted_keys(plan: &[Planned]) -> Vec<String> {
    let mut keys: Vec<String> = plan.iter().map(|p| p.key.clone()).collect();
    keys.sort();
    keys
}

fn has(plan: &[Planned], key: &str) -> bool {
    plan.iter().any(|p| p.key == key)
}

fn find<'a>(plan: &'a [Planned], key: &str) -> &'a Planned {
    plan.iter().find(|p| p.key == key).unwrap()
}

fn ones(shape: &[usize]) -> Tensor<f32> {
    Tensor { shape: shape.to_vec(), data: vec![1.0; shape.iter().product()] }
}

#[test]
fn bernini_diffusers_key_map() {
    let raw = entries(&[
        ("patch_embedding.weight", &[8, 16, 1, 2, 2]),
        ("patch_embedding.bias", &[8]),
        ("scale_shift_table", &[1, 2, 8]),
        ("proj_out.weight", &[64, 8]),
        ("proj_out.bias", &[64]),
        ("condition_embedder.text_embedder.linear_1.weight", &[8, 4096]),
        ("condition_embedder.text_embedder.linear_2.weight", &[8, 8]),
        ("condition_embedder.time_embedder.linear_1.weight", &[8, 256]),
        ("condition_embedder.time_embedder.linear_2.weight", &[8, 8]),
        ("condition_embedder.time_proj.weight", &[48, 8]),
        ("blocks.0.attn1.to_q.weight", &[8, 8]),
        ("blocks.0.attn1.to_out.0.weight", &[8, 8]),
        ("blocks.0.attn1.norm_q.weight", &[8]),
        ("blocks.0.attn2.to_k.weight", &[8, 8]),
        ("blocks.0.ffn.net.0.proj.weight", &[32, 8]),
        ("blocks.0.ffn.net.2.weight", &[8, 32]),
        ("blocks.0.norm2.weight", &[8]),
        ("blocks.0.scale_shift_table", &[1, 6, 8]),
    ]);
    let out = sanitize_wan_transformer_diffusers(&raw);
    assert_eq!(
        sorted_keys(&out),
        vec![
            "blocks.0.cross_attn.k.weight",
            "blocks.0.ffn.fc1.weight",
            "blocks.0.ffn.fc2.weight",
            "blocks.0.modulation",
            "blocks.0.norm3.weight",
            "blocks.0.self_attn.norm_q.weight",
            "blocks.0.self_attn.o.weight",
            "blocks.0.self_attn.q.weight",
            "head.head.bias",
            "head.head.weight",
            "head.modulation",
            "patch_embedding_proj.bias",
            "patch_embedding_proj.weight",
            "text_embedding_0.weight",
            "text_embedding_1.weight",
            "time_embedding_0.weight",
            "time_embedding_1.weight",
            "time_projection.weight",
        ]
    );
    let patch = apply_plan(&ones(&[8, 16, 1, 2, 2]), find(&out, "patch_embedding_proj.weight")).unwrap();
    assert_eq!(patch.shape, [8, 64]);
}

#[test]
fn vae_key_renames() {
    let s = sanitize_wan22_vae(
        &entries(&[
            ("decoder.middle.0.residual.0.weight", &[2, 2, 1, 1, 1]),
            ("decoder.middle.0.residual.6.bias", &[2]),
            ("decoder.head.0.gamma", &[4, 1, 1, 1]),
            ("decoder.head.2.weight", &[2, 2, 1, 1, 1]),
            ("decoder.upsamples.0.upsamples.0.resample.1.weight", &[2, 2, 3, 3]),
            ("decoder.middle.0.to_qkv.weight", &[6, 2, 1, 1]),
            ("decoder.middle.0.proj.bias", &[2]),
        ]),
        true,
    );
    assert_eq!(
        sorted_keys(&s),
        vec![
            "decoder.head.layer_0.gamma",
            "decoder.head.layer_2.weight",
            "decoder.middle.0.proj_bias",
            "decoder.middle.0.residual.layer_0.weight",
            "decoder.middle.0.residual.layer_6.bias",
            "decoder.middle.0.to_qkv_weight",
            "decoder.upsamples.0.upsamples.0.resample_weight",
        ]
    );
}

#[test]
fn vae_encoder_gating() {
    let list = entries(&[
        ("encoder.conv1.weight", &[2, 2, 1, 1, 1]),
        ("conv1.weight", &[2, 2, 1, 1, 1]),
        ("conv2.weight", &[2, 2, 1, 1, 1]),
        ("decoder.conv1.weight", &[2, 2, 1, 1, 1]),
    ]);
    let dec_only = sanitize_wan22_vae(&list, false);
    assert!(!dec_only
        .iter()
        .any(|p| p.key.starts_with("encoder.") || p.key.starts_with("conv1.")));
    assert!(has(&dec_only, "conv2.weight"));
    assert!(has(&dec_only, "decoder.conv1.weight"));
    let with_enc = sanitize_wan22_vae(&list, true);
    assert!(has(&with_enc, "conv1.weight"));
    assert!(has(&with_enc, "encoder.conv1.weight"));
}

#[test]
fn vae_transpose_and_squeeze() {
    let v = Tensor { shape: vec![1, 2, 1, 1, 2], data: vec![0.0f32, 1.0, 2.0, 3.0] };
    let s = sanitize_wan22_vae(
        &entries(&[
            ("conv2.weight", &[1, 2, 1, 1, 2]),
            ("decoder.middle.0.norm.gamma", &[3, 1, 1, 1]),
        ]),
        true,
    );
    let conv = apply_plan(&v, find(&s, "conv2.weight")).unwrap();
    assert_eq!(conv, Tensor { shape: vec![1, 1, 1, 2, 2], data: vec![0.0f32, 2.0, 1.0, 3.0] });
    let gamma = apply_plan(&ones(&[3, 1, 1, 1]), find(&s, "decoder.middle.0.norm.gamma")).unwrap();
    assert_eq!(gamma.shape, &[3]);
}

#[test]
fn transformer_renames() {
    let s = sanitize_wan_transformer(&entries(&[
        ("patch_embedding.weight", &[2, 3, 1, 2, 2]),
        ("patch_embedding.bias", &[2]),
        ("text_embedding.0.weight", &[2, 4]),
        ("text_embedding.2.bias", &[2]),
        ("time_embedding.0.weight", &[2, 4]),
        ("time_embedding.2.weight", &[2, 2]),
        ("time_projection.1.weight", &[12, 2]),
        ("blocks.0.ffn.0.weight", &[8, 2]),
        ("blocks.0.ffn.2.weight", &[2, 8]),
        ("blocks.0.self_attn.q.weight", &[2, 2]),
        ("blocks.0.modulation", &[1, 6, 2]),
        ("freqs", &[2, 2]),
    ]));
    assert_eq!(
        sorted_keys(&s),
        vec![
            "blocks.0.ffn.fc1.weight",
            "blocks.0.ffn.fc2.weight",
            "blocks.0.modulation",
            "blocks.0.self_attn.q.weight",
            "patch_embedding_proj.bias",
            "patch_embedding_proj.weight",
            "text_embedding_0.weight",
            "text_embedding_1.bias",
            "time_embedding_0.weight",
            "time_embedding_1.weight",
            "time_projection.weight",
        ]
    );
    let patch = apply_plan(&ones(&[2, 3, 1, 2, 2]), find(&s, "patch_embedding_proj.weight")).unwrap();
    assert_eq!(patch.shape, &[2, 12]);
    assert!(!has(&s, "freqs"));
}

#[test]
fn t5_gate_rename() {
    let s = sanitize_wan_t5(&entries(&[
        ("blocks.0.ffn.gate.0.weight", &[4, 2]),
        ("blocks.0.ffn.fc1.weight", &[4, 2]),
        ("blocks.0.attn.q.weight", &[2, 2]),
        ("token_embedding.weight", &[5, 2]),
    ]));
    assert!(has(&s, "blocks.0.ffn.gate_proj.weight"));
    assert!(!s.iter().any(|p| p.key.contains("gate.0")));
    assert!(has(&s, "blocks.0.ffn.fc1.weight"));
    assert!(has(&s, "blocks.0.attn.q.weight"));
    assert!(has(&s, "token_embedding.weight"));
}

#[test]
fn z16_vae_transpose_only() {
    let s = sanitize_wan_vae_weights(&entries(&[
        ("decoder.conv1.weight", &[1, 2, 2, 1]),
        ("decoder.middle.0.residual.0.bias", &[3]),
    ]));
    assert!(has(&s, "decoder.conv1.weight"));
    assert!(has(&s, "decoder.middle.0.residual.0.bias"));
    let conv = apply_plan(
        &Tensor { shape: vec![1, 2, 2, 1], data: vec![0.0f32, 1.0, 2.0, 3.0] },
        find(&s, "decoder.conv1.weight"),
    )
    .unwrap();
    assert_eq!(conv, Tensor { shape: vec![1, 2, 1, 2], data: vec![0.0f32, 2.0, 1.0, 3.0] });
}

#[test]
fn wan_quant_predicate() {
    for k in [
        "blocks.0.self_attn.q.weight",
        "blocks.5.cross_attn.o.weight",
        "blocks.0.ffn.fc1.weight",
        "blocks.0.ffn.fc2.weight",
    ] {
        assert!(wan_quantize_predicate(k), "should quantize: {k}");
    }
    for k in [
        "blocks.0.self_attn.q.bias",
        "blocks.0.self_attn.norm_q.weight",
        "blocks.0.modulation",
        "patch_embedding_proj.weight",
        "head.head.weight",
    ] {
        assert!(!wan_quantize_predicate(k), "should stay dense: {k}");
    }
}

#[test]
fn quantize_wan_transformer_packs() {
    let keys: Vec<String> = [
        "blocks.0.self_attn.q.weight",
        "blocks.0.self_attn.q.bias",
        "blocks.0.norm1.weight",
    ]
    .iter()
    .map(|k| k.to_string())
    .collect();
    let q = quantize_wan_transformer(&keys);
    let part = |k: &str| q.iter().find(|s| s.key == k).map(|s| s.part);
    assert_eq!(part("blocks.0.self_attn.q.scales"), Some(Part::Scales));
    assert_eq!(part("blocks.0.self_attn.q.biases"), Some(Part::Biases));
    assert_eq!(part("blocks.0.self_attn.q.bias"), Some(Part::Whole));
    assert_eq!(part("blocks.0.self_attn.q.weight"), Some(Part::Packed));
    assert_eq!(part("blocks.0.norm1.weight"), Some(Part::Whole));
    assert_eq!(part("blocks.0.norm1.scales"), None);
}

fn full_base() -> BaseDir {
    BaseDir {
        path: "base_wan".to_string(),
        files: SharedFiles { t5_encoder: true, vae: true, tokenizer: true },
    }
}

fn transformer_dir(path: &str, has_config: bool) -> TransformerDir {
    TransformerDir { path: path.to_string(), has_config, has_shard: true }
}

#[test]
fn assemble_wan_vace_snapshot_links_components() {
    let tf = transformer_dir("vace_repo/transformer", true);
    let placed = assemble_wan_vace_snapshot(&tf, &full_base()).unwrap();
    let to: Vec<&str> = placed.iter().map(|p| p.to.as_str()).collect();
    assert_eq!(
        to,
        vec!["transformer", "t5_encoder.safetensors", "vae.safetensors", "tokenizer.json"]
    );
    assert_eq!(placed[0].from, "vace_repo/transformer");
    for p in &placed[1..] {
        assert!(p.from.starts_with("base_wan") && p.from.ends_with(p.to.as_str()));
    }
    // What an earlier run left is replaced.
    assert_eq!(
        place_component(true, true, false, true, true),
        (Clearing::RemoveFile, Placing::Link)
    );
    let mut base = full_base();
    base.files.vae = false;
    let err = assemble_wan_vace_snapshot(&tf, &base).unwrap_err();
    assert!(err.message().contains("vae.safetensors"), "got: {}", err.message());
}

#[test]
fn assemble_wan_vace_fun_snapshot_links_both_experts() {
    let high = transformer_dir("vace_fun_repo/transformer", true);
    let low = transformer_dir("vace_fun_repo/transformer_2", true);
    let placed = assemble_wan_vace_fun_snapshot(&high, &low, &full_base()).unwrap();
    let to: Vec<&str> = placed.iter().map(|p| p.to.as_str()).collect();
    assert_eq!(
        to,
        vec![
            "transformer",
            "transformer_2",
            "t5_encoder.safetensors",
            "vae.safetensors",
            "tokenizer.json"
        ]
    );
    let bare = transformer_dir("vace_fun_repo/transformer_2", false);
    let err = assemble_wan_vace_fun_snapshot(&high, &bare, &full_base()).unwrap_err();
    assert!(err.message().contains("transformer_2"), "got: {}", err.message());
}

#[test]
fn a_component_is_cleared_and_placed_by_what_is_there() {
    assert_eq!(
        place_component(false, false, false, false, true),
        (Clearing::Nothing, Placing::CopyDir)
    );
    assert_eq!(
        place_component(false, true, true, false, false),
        (Clearing::RemoveDir, Placing::CopyFile)
    );
    assert_eq!(
        place_component(false, true, false, true, false),
        (Clearing::RemoveFile, Placing::Link)
    );
}

fn default_readings() -> KnobReadings {
    KnobReadings {
        switch_dit_boundary: None,
        shift: None,
        use_src_id_rotary_emb: None,
        interpolate_src_id: None,
        max_trained_src_id: None,
        max_sequence_length: None,
        flow_shift: None,
    }
}

#[test]
fn knobs_fall_back_one_by_one() {
    let d = renderer_knobs(default_readings());
    assert_eq!(f64::from_bits(d.switch_dit_boundary), 0.875);
    assert_eq!(f64::from_bits(d.shift), 3.0);
    assert_eq!(f64::from_bits(d.flow_shift), 5.0);
    assert!(d.use_src_id_rotary_emb);
    let k = renderer_knobs(KnobReadings { max_sequence_length: Some(77), ..default_readings() });
    assert_eq!(k.max_sequence_length, 77);
    assert_eq!(k.shift, DEFAULT_SHIFT_BITS);
}

#[test]
fn knobs_are_read_from_a_configuration() {
    let bytes = br#"{"switch_dit_boundary": 0.9, "shift": 4, "use_src_id_rotary_emb": false,
        "interpolate_src_id": true, "max_trained_src_id": 7, "max_sequence_length": 128,
        "flow_shift": 2.5}"#
        .to_vec();
    let k = bernini_renderer_knobs(&Some(bytes));
    assert_eq!(f64::from_bits(k.switch_dit_boundary), 0.9);
    assert_eq!(f64::from_bits(k.shift), 4.0);
    assert!(!k.use_src_id_rotary_emb);
    assert!(k.interpolate_src_id);
    assert_eq!(k.max_trained_src_id, 7);
    assert_eq!(k.max_sequence_length, 128);
    assert_eq!(f64::from_bits(k.flow_shift), 2.5);
}

#[test]
fn knobs_of_an_unreadable_configuration_are_the_defaults() {
    let d = renderer_knobs(default_readings());
    assert_eq!(bernini_renderer_knobs(&None), d);
    assert_eq!(bernini_renderer_knobs(&Some(b"not json".to_vec())), d);
    assert_eq!(bernini_renderer_knobs(&Some(br#"{"shift": "3"}"#.to_vec())), d);
    assert_eq!(d.switch_dit_boundary, DEFAULT_BOUNDARY_BITS);
    assert_eq!(d.flow_shift, DEFAULT_FLOW_SHIFT_BITS);
}

#[test]
fn an_expert_is_picked_by_its_prefix() {
    let keys: Vec<String> =
        ["high.blocks.0.w", "low.blocks.0.w", "high.head"].iter().map(|s| s.to_string()).collect();
    assert_eq!(
        extract_bernini_expert("dir", 1, &keys, "high.").unwrap(),
        vec![(0, "blocks.0.w".to_string()), (2, "head".to_string())]
    );
    assert!(extract_bernini_expert("dir", 0, &keys, "high.").is_err());
    assert!(extract_bernini_expert("dir", 1, &keys, "mid.").is_err());
}

#[test]
fn shards_are_found_and_sorted() {
    assert!(is_shard("model-00002-of-00002.safetensors"));
    assert!(!is_shard("model.safetensors.index.json"));
    let names: Vec<String> = ["b.safetensors", "config.json", "a.safetensors"]
        .iter()
        .map(|s| s.to_string())
        .collect();
    assert_eq!(shard_order(&names), vec!["a.safetensors".to_string(), "b.safetensors".to_string()]);
}

#[test]
fn a_renderer_snapshot_needs_its_index_and_its_files() {
    let plan = assemble_bernini_renderer_snapshot("pkg", true, &full_base()).unwrap();
    assert_eq!(plan.experts.len(), 2);
    assert_eq!(plan.shared.len(), 3);
    assert!(assemble_bernini_renderer_snapshot("pkg", false, &full_base()).is_err());
    let mut base = full_base();
    base.files.tokenizer = false;
    let err = match assemble_bernini_renderer_snapshot("pkg", true, &base) {
        Ok(_) => panic!("a missing tokenizer must be an error"),
        Err(e) => e,
    };
    assert!(err.message().contains("tokenizer.json"), "got: {}", err.message());
}

#[test]
fn conversions_name_what_is_missing() {
    assert_eq!(choose_vae("d", true, true).unwrap(), VaeSource::Z16);
    assert_eq!(choose_vae("d", false, true).unwrap(), VaeSource::Z48);
    assert!(choose_vae("d", false, false).is_err());
    assert_eq!(expert_conversions("d", true, true).unwrap().len(), 2);
    assert!(expert_conversions("d", true, false).is_err());
    assert!(expert_conversions("d", false, true).is_err());
}

#[test]
fn axes_of_one_are_squeezed() {
    assert_eq!(squeeze_all(&vec![3, 1, 1, 1]), vec![3]);
    assert_eq!(squeeze_all(&vec![1, 2, 1, 4]), vec![2, 4]);
    assert_eq!(squeeze_all(&vec![1, 1]), Vec::<usize>::new());
}
