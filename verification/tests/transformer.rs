use video_diffusion::error::Error;
use video_diffusion::transformer::{
    adaptable_paths, block_adaptable, checkpoint_plan, compile_glue, load_linear, model_adaptable,
    patch_grid, set_compile_glue, text_padding, BlockLoraRef, BlockSite, CompileGlue, CompileGlueGuard,
    HostSurface, LinearSource, Projection, WanQuant, WanTransformer,
};

fn texts(list: &[&str]) -> Vec<String> {
    list.iter().map(|s| s.to_string()).collect()
}

#[test]
fn the_switch_is_put_back_where_it_was() {
    let mut glue = CompileGlue::new();
    assert!(!compile_glue(&glue));
    let guard = CompileGlueGuard::enable(&mut glue);
    assert!(compile_glue(&glue));
    guard.restore(&mut glue);
    assert!(!compile_glue(&glue));
    set_compile_glue(&mut glue, true);
    let guard = CompileGlueGuard::enable(&mut glue);
    guard.restore(&mut glue);
    assert!(compile_glue(&glue));
}

#[test]
fn paths_lead_to_the_layers_of_a_block() {
    assert_eq!(
        block_adaptable(&texts(&["self_attn", "q"])),
        Some(BlockSite::SelfAttn(Projection::Q))
    );
    assert_eq!(block_adaptable(&texts(&["ffn", "fc2"])), Some(BlockSite::Fc2));
    assert_eq!(block_adaptable(&texts(&["norm3"])), None);
    assert_eq!(
        model_adaptable(2, &texts(&["blocks", "1", "cross_attn", "o"])),
        Some((1, BlockSite::CrossAttn(Projection::O)))
    );
    assert_eq!(model_adaptable(2, &texts(&["blocks", "2", "cross_attn", "o"])), None);
}

#[test]
fn every_listed_path_resolves() {
    let paths = adaptable_paths(2);
    assert_eq!(paths.len(), 20);
    let host = HostSurface::Blocks(2);
    for p in &paths {
        assert!(host.adaptable(p), "{p}");
    }
    assert!(!host.adaptable("blocks.2.self_attn.q"));
}

#[test]
fn a_layer_is_packed_where_it_has_scales() {
    let q = Some(WanQuant { bits: 4, group_size: 64 });
    let dense = texts(&["a.weight", "a.bias"]);
    assert_eq!(load_linear(&dense, "a", None).unwrap(), LinearSource::Dense);
    let packed = texts(&["a.weight", "a.scales", "a.biases"]);
    assert_eq!(
        load_linear(&packed, "a", q).unwrap(),
        LinearSource::Packed { quant: WanQuant { bits: 4, group_size: 64 }, has_bias: false }
    );
    match load_linear(&texts(&["a.bias"]), "a", None) {
        Err(Error::MissingTensor(k)) => assert_eq!(k, "a.weight"),
        other => panic!("got {other:?}"),
    }
}

fn block_keys(n: usize) -> Vec<String> {
    let mut keys = texts(&["head.modulation"]);
    for name in [
        "patch_embedding_proj",
        "text_embedding_0",
        "text_embedding_1",
        "time_embedding_0",
        "time_embedding_1",
        "time_projection",
        "head.head",
    ] {
        keys.push(format!("{name}.weight"));
        keys.push(format!("{name}.bias"));
    }
    for b in 0..n {
        keys.push(format!("blocks.{b}.modulation"));
        for attn in ["self_attn", "cross_attn"] {
            for p in ["q", "k", "v", "o"] {
                keys.push(format!("blocks.{b}.{attn}.{p}.weight"));
                keys.push(format!("blocks.{b}.{attn}.{p}.bias"));
            }
            keys.push(format!("blocks.{b}.{attn}.norm_q.weight"));
            keys.push(format!("blocks.{b}.{attn}.norm_k.weight"));
        }
        keys.push(format!("blocks.{b}.norm3.weight"));
        keys.push(format!("blocks.{b}.norm3.bias"));
        for f in ["fc1", "fc2"] {
            keys.push(format!("blocks.{b}.ffn.{f}.weight"));
            keys.push(format!("blocks.{b}.ffn.{f}.bias"));
        }
    }
    keys
}

#[test]
fn a_transformer_needs_all_its_tensors() {
    let t = match WanTransformer::from_weights(&block_keys(2), 2, None) {
        Ok(t) => t,
        Err(e) => panic!("{}", e.message()),
    };
    assert_eq!(t.num_blocks(), 2);
    match WanTransformer::from_weights(&block_keys(1), 2, None) {
        Err(Error::MissingTensor(k)) => assert!(k.starts_with("blocks.1."), "got {k}"),
        _ => panic!("a missing block must be an error"),
    }
}

#[test]
fn a_latent_is_cut_into_whole_patches() {
    assert_eq!(patch_grid((48, 21, 44, 80), (1, 2, 2)), (21, 22, 40));
    assert_eq!(text_padding(10, 512), Some(502));
    assert_eq!(text_padding(513, 512), None);
}

#[test]
fn a_checkpointed_block_takes_its_factors_in_pairs() {
    let target = BlockLoraRef {
        local: texts(&["self_attn", "q"]),
        a_key: "a".to_string(),
        b_key: "b".to_string(),
    };
    let targets = vec![vec![target]];
    let plan = match checkpoint_plan(&targets, 0, &texts(&["b", "a"])) {
        Ok(p) => p,
        Err(e) => panic!("{}", e.message()),
    };
    assert_eq!(plan.inputs, texts(&["a", "b"]));
    assert_eq!(plan.sites, vec![BlockSite::SelfAttn(Projection::Q)]);
    match checkpoint_plan(&targets, 0, &texts(&["a"])) {
        Err(e) => assert_eq!(e.message(), "LoRA param missing: b"),
        Ok(_) => panic!("a missing factor must be an error"),
    }
    assert!(matches!(checkpoint_plan(&targets, 7, &vec![]), Ok(p) if p.inputs.is_empty()));
}
