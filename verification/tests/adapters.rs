use video_diffusion::adapters::{
    apply_wan_adapters_additive, classify_family, group_factors, host_module_table, lokr_form,
    lora_scaling, merge_order, merge_vace_adapters, merge_vace_adapters_expert, merge_wan_adapters,
    normalize_vace_key, normalize_wan_key, reject_loha_on_packed, resolve_wan_thirdparty, show_shape,
    split_factor, wan_module_table, AdapterFile, AdapterKind, Delta, KeyLayout, LokrForm,
    LycorisModule, MoeExpert, Role, Route, WanAdapterFamily,
};
use video_diffusion::convert::{sanitize_wan_transformer_diffusers, Entry};
use video_diffusion::error::Error;
use video_diffusion::transformer::HostSurface;

fn texts(list: &[&str]) -> Vec<String> {
    list.iter().map(|s| s.to_string()).collect()
}

fn lora_file(name: &str, stems: &[(&str, usize, usize)], rank: usize, expert: Option<MoeExpert>) -> AdapterFile {
    let mut keys: Vec<String> = Vec::new();
    let mut shapes: Vec<Vec<usize>> = Vec::new();
    for (stem, out, inp) in stems {
        keys.push(format!("diffusion_model.{stem}.lora_A.weight"));
        shapes.push(vec![rank, *inp]);
        keys.push(format!("diffusion_model.{stem}.lora_B.weight"));
        shapes.push(vec![*out, rank]);
    }
    AdapterFile {
        path: name.to_string(),
        kind: AdapterKind::Lora,
        moe_expert: expert,
        lokr_stamp: false,
        lokr_keys: false,
        loha_keys: false,
        keys,
        shapes,
        modules: vec![],
    }
}

fn lycoris_file(name: &str, stamp: bool, lokr: bool, loha: bool, modules: Vec<LycorisModule>) -> AdapterFile {
    AdapterFile {
        path: name.to_string(),
        kind: if stamp { AdapterKind::Lokr } else { AdapterKind::Lora },
        moe_expert: None,
        lokr_stamp: stamp,
        lokr_keys: lokr,
        loha_keys: loha,
        keys: vec![],
        shapes: vec![],
        modules,
    }
}

fn synthetic_weights() -> Vec<String> {
    texts(&["blocks.0.self_attn.q.weight", "blocks.0.ffn.fc1.weight"])
}

fn synthetic_vace_weights() -> Vec<String> {
    texts(&[
        "blocks.0.attn1.to_q.weight",
        "blocks.0.ffn.net.0.proj.weight",
        "vace_blocks.0.proj_in.weight",
    ])
}

fn tiny_host() -> HostSurface {
    HostSurface::Listed(texts(&["blocks.0.self_attn.q", "blocks.0.ffn.fc1"]))
}

#[test]
fn normalize_strips_prefix_and_renames() {
    assert_eq!(
        normalize_wan_key("diffusion_model.blocks.0.self_attn.q"),
        "blocks.0.self_attn.q"
    );
    assert_eq!(
        normalize_wan_key("diffusion_model.blocks.7.cross_attn.o"),
        "blocks.7.cross_attn.o"
    );
    assert_eq!(
        normalize_wan_key("diffusion_model.blocks.0.ffn.0"),
        "blocks.0.ffn.fc1"
    );
    assert_eq!(
        normalize_wan_key("diffusion_model.blocks.3.ffn.2"),
        "blocks.3.ffn.fc2"
    );
    assert_eq!(
        normalize_wan_key("model.diffusion_model.text_embedding.0"),
        "text_embedding_0"
    );
    assert_eq!(
        normalize_wan_key("base_model.model.text_embedding.2"),
        "text_embedding_1"
    );
    assert_eq!(normalize_wan_key("time_embedding.0"), "time_embedding_0");
    assert_eq!(
        normalize_wan_key("diffusion_model.time_projection.1"),
        "time_projection"
    );
    assert_eq!(
        normalize_wan_key("diffusion_model.patch_embedding"),
        "patch_embedding_proj"
    );
}

#[test]
fn normalize_vace_passes_diffusers_and_renames_native() {
    for (raw, want) in [
        ("diffusion_model.blocks.0.attn1.to_q", "blocks.0.attn1.to_q"),
        (
            "diffusion_model.blocks.3.attn2.to_out.0",
            "blocks.3.attn2.to_out.0",
        ),
        (
            "diffusion_model.blocks.0.ffn.net.0.proj",
            "blocks.0.ffn.net.0.proj",
        ),
        ("blocks.2.ffn.net.2", "blocks.2.ffn.net.2"),
        (
            "diffusion_model.vace_blocks.0.attn1.to_v",
            "vace_blocks.0.attn1.to_v",
        ),
        (
            "diffusion_model.vace_blocks.0.proj_in",
            "vace_blocks.0.proj_in",
        ),
        (
            "diffusion_model.vace_blocks.7.proj_out",
            "vace_blocks.7.proj_out",
        ),
    ] {
        assert_eq!(normalize_vace_key(raw), want, "passthrough {raw}");
    }
    for (raw, want) in [
        (
            "diffusion_model.blocks.0.self_attn.q",
            "blocks.0.attn1.to_q",
        ),
        (
            "diffusion_model.blocks.5.self_attn.o",
            "blocks.5.attn1.to_out.0",
        ),
        (
            "diffusion_model.blocks.0.cross_attn.k",
            "blocks.0.attn2.to_k",
        ),
        ("diffusion_model.blocks.0.ffn.0", "blocks.0.ffn.net.0.proj"),
        ("diffusion_model.blocks.2.ffn.2", "blocks.2.ffn.net.2"),
        (
            "diffusion_model.vace_blocks.0.before_proj",
            "vace_blocks.0.proj_in",
        ),
        (
            "diffusion_model.vace_blocks.3.after_proj",
            "vace_blocks.3.proj_out",
        ),
        (
            "diffusion_model.vace_blocks.1.self_attn.v",
            "vace_blocks.1.attn1.to_v",
        ),
        (
            "diffusion_model.time_projection.1",
            "condition_embedder.time_proj",
        ),
        ("model.diffusion_model.head.head", "proj_out"),
        (
            "base_model.model.text_embedding.0",
            "condition_embedder.text_embedder.linear_1",
        ),
        (
            "diffusion_model.time_embedding.2",
            "condition_embedder.time_embedder.linear_2",
        ),
    ] {
        assert_eq!(normalize_vace_key(raw), want, "rename {raw}");
    }
}

#[test]
fn merge_plans_each_module_once() {
    let lora = lora_file(
        "merge.safetensors",
        &[("blocks.0.self_attn.q", 16, 8), ("blocks.0.ffn.0", 24, 8)],
        4,
        None,
    );
    let (folds, report) = merge_wan_adapters(synthetic_weights(), &vec![lora], MoeExpert::High);
    assert_eq!(report.applied, 2);
    assert!(report.skipped.is_empty());
    assert!(folds.iter().any(|f| f.path == "blocks.0.ffn.fc1"));
    let q = folds.iter().find(|f| f.path == "blocks.0.self_attn.q").unwrap();
    assert_eq!(q.delta, Delta::Lora { down: 0, up: 1, alpha: None });
    assert_eq!(q.file, 0);
}

#[test]
fn scaling_prefers_the_tensor_then_the_metadata() {
    let lora = lora_file("merge_meta_alpha.safetensors", &[("blocks.0.self_attn.q", 16, 8)], 8, None);
    let (folds, report) = merge_wan_adapters(synthetic_weights(), &vec![lora], MoeExpert::High);
    assert_eq!(report.applied, 1);
    assert_eq!(folds[0].delta, Delta::Lora { down: 0, up: 1, alpha: None });
    let (alpha, rank) = lora_scaling(None, Some(16.0f32), Some(8), 8);
    assert_eq!(alpha.unwrap() / rank as f32, 2.0);
    let (none, rank) = lora_scaling::<f32>(None, None, None, 8);
    assert_eq!(none, None);
    assert_eq!(rank, 8);
    assert_eq!(lora_scaling(Some(4u8), Some(16), None, 2), (Some(4), 2));
}

#[test]
fn the_low_noise_expert_takes_shared_files() {
    let lora = lora_file("zero.safetensors", &[("blocks.0.self_attn.q", 16, 8)], 4, None);
    let (_, report) = merge_wan_adapters(synthetic_weights(), &vec![lora], MoeExpert::Low);
    assert_eq!(report.applied, 1);
}

#[test]
fn high_low_filter_selects_shared_plus_expert() {
    let files = vec![
        lora_file("shared.safetensors", &[("blocks.0.self_attn.q", 16, 8)], 4, None),
        lora_file("highonly.safetensors", &[("blocks.0.ffn.0", 24, 8)], 4, Some(MoeExpert::High)),
    ];
    let (low, low_rep) = merge_wan_adapters(synthetic_weights(), &files, MoeExpert::Low);
    assert_eq!(low_rep.applicable, 1, "only the shared spec applies to low");
    assert_eq!(low_rep.applied, 1);

    let (high, high_rep) = merge_wan_adapters(synthetic_weights(), &files, MoeExpert::High);
    assert_eq!(high_rep.applicable, 2, "shared + high-only apply to high");
    assert_eq!(high_rep.applied, 2);

    assert!(low.iter().any(|f| f.path == "blocks.0.self_attn.q"));
    assert!(!low.iter().any(|f| f.path == "blocks.0.ffn.fc1"));
    assert!(high.iter().any(|f| f.path == "blocks.0.ffn.fc1"));
}

#[test]
fn files_on_one_module_keep_their_order() {
    let files = vec![
        lora_file("acc1.safetensors", &[("blocks.0.self_attn.q", 16, 8)], 4, None),
        lora_file("acc2.safetensors", &[("blocks.0.self_attn.q", 16, 8)], 4, None),
    ];
    let (folds, _) = merge_wan_adapters(synthetic_weights(), &files, MoeExpert::High);
    let order: Vec<(usize, &str)> = folds.iter().map(|f| (f.file, f.path.as_str())).collect();
    assert_eq!(order, vec![(0, "blocks.0.self_attn.q"), (1, "blocks.0.self_attn.q")]);
}

#[test]
fn merge_vace_takes_diffusers_names_as_they_are() {
    let stems = [
        ("blocks.0.attn1.to_q", 16, 8),
        ("blocks.0.ffn.net.0.proj", 24, 8),
        ("vace_blocks.0.proj_in", 16, 8),
    ];
    let lora = lora_file("vace_diff.safetensors", &stems, 4, None);
    let (folds, report) = merge_vace_adapters(synthetic_vace_weights(), &vec![lora]);
    assert_eq!(report.applied, 3);
    assert!(report.skipped.is_empty());
    for (stem, _, _) in stems {
        assert!(folds.iter().any(|f| f.path == stem));
    }
}

#[test]
fn merge_vace_renames_native_named_lora_to_diffusers_host() {
    let lora = lora_file(
        "vace_native.safetensors",
        &[("blocks.0.self_attn.q", 16, 8), ("blocks.0.ffn.0", 24, 8)],
        4,
        None,
    );
    let (folds, report) = merge_vace_adapters(synthetic_vace_weights(), &vec![lora]);
    assert_eq!(report.applied, 2, "native names must resolve to the diffusers host");
    assert!(report.skipped.is_empty());
    assert!(folds.iter().any(|f| f.path == "blocks.0.attn1.to_q"));
    assert!(!folds.iter().any(|f| f.path == "blocks.0.self_attn.q"));
    assert!(folds.iter().any(|f| f.path == "blocks.0.ffn.net.0.proj"));
}

#[test]
fn merge_vace_reports_skipped_target_never_fatal() {
    let lora = lora_file(
        "vace_skip.safetensors",
        &[("blocks.0.attn1.to_q", 16, 8), ("blocks.99.attn1.to_q", 16, 8)],
        4,
        None,
    );
    let (_, report) = merge_vace_adapters(synthetic_vace_weights(), &vec![lora]);
    assert_eq!(report.applied, 1);
    assert_eq!(report.skipped, vec!["blocks.99.attn1.to_q".to_string()]);
}

#[test]
fn merge_vace_expert_takes_its_own_files() {
    let files = vec![lora_file(
        "low.safetensors",
        &[("vace_blocks.0.before_proj", 16, 8)],
        4,
        Some(MoeExpert::Low),
    )];
    let (folds, low) = merge_vace_adapters_expert(synthetic_vace_weights(), &files, MoeExpert::Low);
    assert_eq!((low.applied, low.applicable), (1, 1));
    assert_eq!(folds[0].path, "vace_blocks.0.proj_in");
    let (_, high) = merge_vace_adapters_expert(synthetic_vace_weights(), &files, MoeExpert::High);
    assert_eq!((high.applied, high.applicable), (0, 0));
}

#[test]
fn stamped_kronecker_file_merges_by_module() {
    let module = LycorisModule { raw: "blocks.0.self_attn.q".to_string(), resolved: None };
    let file = lycoris_file("lokr.safetensors", true, false, false, vec![module]);
    assert_eq!(file.route(), Route::Lokr);
    let (folds, report) = merge_wan_adapters(synthetic_weights(), &vec![file], MoeExpert::High);
    assert_eq!(report.applied, 1);
    assert_eq!(folds[0].delta, Delta::Lokr { module: 0 });
}

#[test]
fn thirdparty_modules_resolve_by_table_or_by_name() {
    let resolved = LycorisModule {
        raw: "lycoris_blocks_0_self_attn_q".to_string(),
        resolved: Some("blocks.0.self_attn.q".to_string()),
    };
    assert_eq!(resolve_wan_thirdparty(KeyLayout::Native, &resolved), "blocks.0.self_attn.q");
    let raw = LycorisModule { raw: "diffusion_model.blocks.0.ffn.0".to_string(), resolved: None };
    assert_eq!(resolve_wan_thirdparty(KeyLayout::Native, &raw), "blocks.0.ffn.fc1");
    let file = lycoris_file("tp.safetensors", false, true, false, vec![resolved]);
    assert_eq!(file.route(), Route::ThirdPartyLokr);
    let loha = lycoris_file("tp.safetensors", false, false, true, vec![]);
    assert_eq!(loha.route(), Route::ThirdPartyLoha);
    assert_eq!(lora_file("l", &[], 1, None).route(), Route::Lora);
}

#[test]
fn reject_loha_on_packed_passes_plain_lora_and_lokr() {
    let files = vec![
        lora_file("packroute_lora1.safetensors", &[("blocks.0.self_attn.q", 16, 8)], 4, None),
        lora_file(
            "packroute_lora2.safetensors",
            &[("blocks.0.ffn.0", 24, 8)],
            4,
            Some(MoeExpert::High),
        ),
    ];
    assert!(reject_loha_on_packed("wan2_2_t2v_14b", &files).is_ok());
    let lokr = vec![lycoris_file("packroute_lokr.safetensors", true, false, false, vec![])];
    assert!(reject_loha_on_packed("wan2_2_t2v_14b", &lokr).is_ok());
    let tp_lokr = vec![lycoris_file("linear_w1full_w2lr.safetensors", false, true, false, vec![])];
    assert!(reject_loha_on_packed("wan2_2_i2v_14b", &tp_lokr).is_ok());
}

#[test]
fn reject_loha_on_packed_errors_on_thirdparty_loha() {
    let files = vec![lycoris_file("linear.safetensors", false, false, true, vec![])];
    let err = reject_loha_on_packed("wan2_2_i2v_14b", &files).unwrap_err();
    assert!(matches!(err, Error::Unsupported(_)), "got: {err:?}");
    let msg = err.message();
    assert!(msg.contains("bf16") && msg.contains("sc-10051"), "got: {msg}");
    assert!(msg.contains("LoHa"), "got: {msg}");
    assert!(msg.contains("Hadamard"), "got: {msg}");
    assert!(msg.contains("bf16 tier"), "got: {msg}");
    assert!(!msg.contains("not yet wired"), "got: {msg}");
    assert!(msg.starts_with("wan2_2_i2v_14b: "));
    assert!(msg.ends_with("linear.safetensors"));
}

#[test]
fn reject_loha_on_packed_is_unsupported() {
    let files = vec![lycoris_file("linear.safetensors", false, false, true, vec![])];
    match reject_loha_on_packed("wan2_2_t2v_14b", &files) {
        Err(Error::Unsupported(s)) => {
            assert!(s.contains("bf16 tier") && s.contains("LoHa"), "{s}");
        }
        other => panic!("LoHa-on-packed degraded to {other:?}"),
    }
}

#[test]
fn kronecker_takes_precedence_over_hadamard() {
    assert_eq!(
        classify_family(&lycoris_file("a", false, true, true, vec![])),
        WanAdapterFamily::Lokr
    );
    assert_eq!(
        classify_family(&lycoris_file("a", false, false, true, vec![])),
        WanAdapterFamily::Loha
    );
    assert_eq!(classify_family(&lora_file("a", &[], 1, None)), WanAdapterFamily::Lora);
}

#[test]
fn additive_skips_target_absent_from_host() {
    let lora = lora_file(
        "additive_skip.safetensors",
        &[("blocks.0.self_attn.q", 16, 8), ("blocks.99.self_attn.q", 16, 8)],
        4,
        None,
    );
    let (_, report) =
        apply_wan_adapters_additive(tiny_host(), &vec![lora], MoeExpert::High).unwrap();
    assert_eq!(report.applied, 1, "the present target installs");
    assert_eq!(report.skipped, vec!["blocks.99.self_attn.q".to_string()]);
}

#[test]
fn additive_without_files_installs_nothing() {
    let (folds, report) =
        apply_wan_adapters_additive(tiny_host(), &vec![], MoeExpert::High).unwrap();
    assert!(folds.is_empty());
    assert_eq!(report.applied, 0);
}

#[test]
fn additive_installs_on_listed_modules() {
    let lora = lora_file("azero.safetensors", &[("blocks.0.self_attn.q", 16, 8)], 4, None);
    let (_, report) =
        apply_wan_adapters_additive(tiny_host(), &vec![lora], MoeExpert::High).unwrap();
    assert_eq!(report.applied, 1);
}

#[test]
fn additive_refuses_factors_that_are_no_matrices() {
    let mut lora = lora_file("bad.safetensors", &[("blocks.0.self_attn.q", 16, 8)], 4, None);
    lora.shapes[0] = vec![4, 8, 1];
    let err = apply_wan_adapters_additive(tiny_host(), &vec![lora], MoeExpert::High).unwrap_err();
    assert!(matches!(err, Error::Msg(_)));
    assert!(err.message().contains("blocks.0.self_attn.q"), "got: {}", err.message());
    let mut zero = lora_file("zero.safetensors", &[("blocks.0.self_attn.q", 16, 8)], 4, None);
    zero.shapes[0] = vec![0, 8];
    zero.shapes[1] = vec![16, 0];
    assert!(apply_wan_adapters_additive(tiny_host(), &vec![zero], MoeExpert::High).is_err());
}

#[test]
fn kronecker_factors_stay_factors_on_packed_weights() {
    assert_eq!(lokr_form("blocks.0.self_attn.q", true, true).unwrap(), LokrForm::Structured);
    assert_eq!(lokr_form("blocks.0.self_attn.q", false, true).unwrap(), LokrForm::Materialized);
    assert_eq!(lokr_form("blocks.0.self_attn.q", false, false).unwrap(), LokrForm::Materialized);
    let err = lokr_form("blocks.0.self_attn.q", true, false).unwrap_err();
    assert!(err.message().contains("LoKr at 'blocks.0.self_attn.q'"));
}

#[test]
fn factors_are_split_and_grouped_by_module() {
    assert_eq!(
        split_factor("diffusion_model.blocks.0.ffn.0.lora_A.weight"),
        Some(("diffusion_model.blocks.0.ffn.0".to_string(), Role::Down))
    );
    assert_eq!(split_factor("x.lora_up.weight"), Some(("x".to_string(), Role::Up)));
    assert_eq!(split_factor("x.alpha"), Some(("x".to_string(), Role::Alpha)));
    assert_eq!(split_factor("x.weight"), None);
    let groups = group_factors(
        KeyLayout::Native,
        &texts(&["b.lora_B.weight", "a.lora_A.weight", "b.lora_A.weight", "b.alpha"]),
    );
    assert_eq!(groups.len(), 2);
    assert_eq!(groups[0].path, "a");
    assert_eq!((groups[0].down, groups[0].up, groups[0].alpha), (Some(1), None, None));
    assert_eq!(groups[1].path, "b");
    assert_eq!((groups[1].down, groups[1].up, groups[1].alpha), (Some(2), Some(0), Some(3)));
}

#[test]
fn files_of_the_expert_come_after_the_shared_ones() {
    let files = vec![
        lora_file("h", &[], 1, Some(MoeExpert::High)),
        lora_file("s", &[], 1, None),
        lora_file("l", &[], 1, Some(MoeExpert::Low)),
    ];
    assert_eq!(merge_order(&files, MoeExpert::High), vec![1, 0]);
    assert_eq!(merge_order(&files, MoeExpert::Low), vec![1, 2]);
}

#[test]
fn module_tables_flatten_the_paths() {
    assert_eq!(
        wan_module_table(&texts(&["blocks.0.ffn.fc1.weight", "blocks.0.modulation"])),
        vec![("blocks_0_ffn_fc1".to_string(), "blocks.0.ffn.fc1".to_string())]
    );
    assert_eq!(
        host_module_table(&texts(&["blocks.0.self_attn.q"])),
        vec![("blocks_0_self_attn_q".to_string(), "blocks.0.self_attn.q".to_string())]
    );
}

#[test]
fn a_flattened_name_stands_for_the_last_module_that_has_it() {
    let table = wan_module_table(&texts(&["x.weight", "a.b_c.weight", "a_b.c.weight", "a_b.c.bias"]));
    assert_eq!(
        table,
        vec![("a_b_c".to_string(), "a_b.c".to_string()), ("x".to_string(), "x".to_string())]
    );
    let table = host_module_table(&texts(&["a_b.c", "z", "a.b_c"]));
    assert_eq!(
        table,
        vec![("a_b_c".to_string(), "a.b_c".to_string()), ("z".to_string(), "z".to_string())]
    );
}

#[test]
fn shapes_are_shown_in_brackets() {
    assert_eq!(show_shape(&vec![4, 8]), "[4, 8]");
    assert_eq!(show_shape(&vec![]), "[]");
}

#[test]
fn names_agree_across_checkpoints() {
    let blocks = [
        ("self_attn.q", "attn1.to_q", "self_attn.q"),
        ("self_attn.k", "attn1.to_k", "self_attn.k"),
        ("self_attn.v", "attn1.to_v", "self_attn.v"),
        ("self_attn.o", "attn1.to_out.0", "self_attn.o"),
        ("cross_attn.q", "attn2.to_q", "cross_attn.q"),
        ("cross_attn.o", "attn2.to_out.0", "cross_attn.o"),
        ("ffn.0", "ffn.net.0.proj", "ffn.fc1"),
        ("ffn.2", "ffn.net.2", "ffn.fc2"),
    ];
    let roots = [
        ("text_embedding.0", "condition_embedder.text_embedder.linear_1", "text_embedding_0"),
        ("text_embedding.2", "condition_embedder.text_embedder.linear_2", "text_embedding_1"),
        ("time_embedding.0", "condition_embedder.time_embedder.linear_1", "time_embedding_0"),
        ("time_embedding.2", "condition_embedder.time_embedder.linear_2", "time_embedding_1"),
        ("time_projection.1", "condition_embedder.time_proj", "time_projection"),
        ("head.head", "proj_out", "head.head"),
    ];
    let mut names: Vec<(String, String, String)> =
        roots.iter().map(|(a, b, c)| (a.to_string(), b.to_string(), c.to_string())).collect();
    for n in [0, 7, 20] {
        for (a, b, c) in blocks {
            names.push((format!("blocks.{n}.{a}"), format!("blocks.{n}.{b}"), format!("blocks.{n}.{c}")));
        }
    }
    for (native, diffusers, converted) in &names {
        assert_eq!(&normalize_vace_key(native), diffusers);
        assert_eq!(normalize_vace_key(&format!("{native}.weight")), format!("{diffusers}.weight"));
        assert_eq!(&normalize_wan_key(native), converted);
        assert_eq!(&normalize_wan_key(converted), converted);
        let stored = vec![Entry { key: format!("{diffusers}.weight"), shape: vec![2, 2] }];
        let plan = sanitize_wan_transformer_diffusers(&stored);
        assert_eq!(plan.len(), 1);
        assert_eq!(plan[0].key, format!("{converted}.weight"));
        assert!(plan[0].perm.is_none() && plan[0].shape.is_none());
    }
    for stem in ["blocks.3.attn1.to_out.0", "vace_blocks.0.ffn.net.0.proj", "vace_blocks.2.proj_in"] {
        for p in ["", "model.diffusion_model.", "diffusion_model.", "base_model.model.", "model."] {
            assert_eq!(normalize_vace_key(&format!("{p}{stem}")), stem);
        }
    }
    assert_eq!(normalize_vace_key("vace_blocks.1.after_proj"), "vace_blocks.1.proj_out");
    assert_eq!(normalize_wan_key("diffusion_model.patch_embedding"), "patch_embedding_proj");
    assert_eq!(normalize_wan_key("patch_embedding_proj"), "patch_embedding_proj");
}
