//! The generators: what they advertise, which snapshots and requests they take, and the stages of a
//! generation.

use vstd::prelude::*;
use crate::adapters::{
    all_left_out,
    all_taken,
    apply_wan_adapters_additive,
    file_order,
    first_file_fault,
    fold_views,
    first_loha,
    loha_refusal,
    merge_wan_adapters,
    reject_loha_on_packed,
    AdapterFile,
    Fold,
    KeyLayout,
    MoeExpert,
    Target,
    WanAdapterFamily,
    WanLoraReport,
};
use crate::error::Error;
use crate::memory::{
    auto_tiling_budgeted, auto_tiling_budgeted_z16, denoise_peak, fits, is_planned, over_budget,
    preflight_denoise_memory_guard, Decoder, Extent, Tiling,
};
use crate::numeric::smaller;
use crate::pipeline::{
    align_dim,
    best_output_size,
    best_size,
    latent_frames,
    latent_shape,
    law_align_dim,
    law_best_size_fits_the_area,
    law_best_size_is_on_the_grid,
    lemma_best_size_is_a_word,
    resolve_sampler_knobs,
    seq_len,
    word,
    SamplerKnobs,
};
use crate::scheduler::{solver_named, SolverKind};
use crate::text::{
    ascii_lowered,
    decimal,
    decimal_wide,
    join2,
    list_contains,
    signed,
    signed_text,
    sort_unique,
    sorted_set,
    views,
};
use crate::transformer::{HostSurface, WanQuant};

verus! {

/// The name of the dense text and image to video model.
pub const MODEL_ID: &'static str = "wan2_2_ti2v_5b";

/// The name of the two-expert text to video model.
pub const MODEL_ID_T2V_14B: &'static str = "wan2_2_t2v_14b";

/// The name of the two-expert image to video model.
pub const MODEL_ID_I2V_14B: &'static str = "wan2_2_i2v_14b";

/// The solvers of the library's own scheduler.
pub open spec fn native_samplers() -> Seq<Seq<char>> {
    seq!["uni_pc"@, "euler"@, "dpmpp_2m"@]
}

/// The solvers that an outside sampler runs.
pub open spec fn curated_samplers() -> Seq<Seq<char>> {
    seq!["euler_ancestral"@, "heun"@, "dpmpp_sde"@, "ddim"@]
}

/// Older spellings of the library's own solvers.
pub open spec fn legacy_samplers() -> Seq<Seq<char>> {
    seq!["unipc"@, "dpmpp2m"@]
}

/// Every sampler that a generator advertises.
pub fn wan_samplers() -> (r: Vec<String>)
    ensures
        views(r@) == native_samplers() + curated_samplers() + legacy_samplers(),
{
    let r: Vec<String> = vec![
        "uni_pc".to_owned(),
        "euler".to_owned(),
        "dpmpp_2m".to_owned(),
        "euler_ancestral".to_owned(),
        "heun".to_owned(),
        "dpmpp_sde".to_owned(),
        "ddim".to_owned(),
        "unipc".to_owned(),
        "dpmpp2m".to_owned(),
    ];
    assert(views(r@) =~= native_samplers() + curated_samplers() + legacy_samplers());
    r
}

/// The samplers of the library's own scheduler alone.
pub fn wan_native_samplers() -> (r: Vec<String>)
    ensures
        views(r@) == native_samplers() + legacy_samplers(),
{
    let r: Vec<String> = vec![
        "uni_pc".to_owned(),
        "euler".to_owned(),
        "dpmpp_2m".to_owned(),
        "unipc".to_owned(),
        "dpmpp2m".to_owned(),
    ];
    assert(views(r@) =~= native_samplers() + legacy_samplers());
    r
}

/// Whether a request's sampler is one that an outside sampler runs.
pub open spec fn curated(sampler: Option<String>) -> bool {
    match sampler {
        Some(name) => curated_samplers().contains(name@),
        None => false,
    }
}

/// Whether a request's sampler is one that an outside sampler runs.
pub fn is_wan_curated(sampler: &Option<String>) -> (r: bool)
    ensures
        r == curated(*sampler),
{
    match sampler {
        Some(name) => {
            let menu: Vec<String> = vec![
                "euler_ancestral".to_owned(),
                "heun".to_owned(),
                "dpmpp_sde".to_owned(),
                "ddim".to_owned(),
            ];
            assert(views(menu@) =~= curated_samplers());
            list_contains(&menu, name.as_str())
        },
        None => false,
    }
}

/// Each of the library's own samplers, under its present and its older spelling, selects its solver.
pub proof fn law_native_samplers_select_their_solver()
    ensures
        solver_named("uni_pc"@) == SolverKind::UniPC,
        solver_named("unipc"@) == SolverKind::UniPC,
        solver_named("euler"@) == SolverKind::Euler,
        solver_named("dpmpp_2m"@) == SolverKind::Dpmpp2m,
        solver_named("dpmpp2m"@) == SolverKind::Dpmpp2m,
{
    reveal_strlit("uni_pc");
    reveal_strlit("unipc");
    reveal_strlit("euler");
    reveal_strlit("dpmpp_2m");
    reveal_strlit("dpmpp2m");
    reveal_strlit("dpm++");
    reveal_strlit("dpmpp");
    reveal_strlit("dpm++2m");
    assert(ascii_lowered("uni_pc"@) =~= "uni_pc"@);
    assert(ascii_lowered("unipc"@) =~= "unipc"@);
    assert(ascii_lowered("euler"@) =~= "euler"@);
    assert(ascii_lowered("dpmpp_2m"@) =~= "dpmpp_2m"@);
    assert(ascii_lowered("dpmpp2m"@) =~= "dpmpp2m"@);
    assert("uni_pc"@[0] != "euler"@[0]);
    assert("unipc"@[0] != "euler"@[0]);
    assert("uni_pc"@[0] != "dpm++"@[0]);
    assert("unipc"@[0] != "dpm++"@[0]);
    assert("uni_pc"@[0] != "dpmpp"@[0]);
    assert("unipc"@[0] != "dpmpp"@[0]);
    assert("uni_pc"@[0] != "dpmpp2m"@[0]);
    assert("unipc"@[0] != "dpmpp2m"@[0]);
    assert("uni_pc"@[0] != "dpm++2m"@[0]);
    assert("unipc"@[0] != "dpm++2m"@[0]);
    assert("uni_pc"@[0] != "dpmpp_2m"@[0]);
    assert("unipc"@[0] != "dpmpp_2m"@[0]);
    assert("dpmpp_2m"@[0] != "euler"@[0]);
    assert("dpmpp2m"@[0] != "euler"@[0]);
}

/// A width that weights can be packed to.
#[derive(Debug, Clone, Copy, PartialEq, Eq, Structural)]
pub enum Quant {
    Q4,
    Q8,
}

/// The bits of a weight.
pub open spec fn bits_of(q: Quant) -> i32 {
    match q {
        Quant::Q4 => 4,
        Quant::Q8 => 8,
    }
}

impl Quant {
    /// The bits of a weight.
    pub fn bits(self) -> (r: i32)
        ensures
            r == bits_of(self),
    {
        match self {
            Quant::Q4 => 4,
            Quant::Q8 => 8,
        }
    }
}

/// What a request can be conditioned on besides its prompt.
#[derive(Debug, Clone, Copy, PartialEq, Eq, Structural)]
pub enum ConditioningKind {
    Reference,
    Keyframe,
}

/// What a generator advertises.
#[derive(Debug, PartialEq, Eq)]
pub struct ModelDescriptor {
    pub id: String,
    pub family: String,
    pub backend: String,
    pub supports_negative_prompt: bool,
    pub supports_guidance: bool,
    pub supports_true_cfg: bool,
    pub conditioning: Vec<ConditioningKind>,
    pub supports_lora: bool,
    pub supports_lokr: bool,
    pub samplers: Vec<String>,
    pub min_size: u32,
    pub max_size: u32,
    pub max_count: u32,
    pub mac_only: bool,
    pub supported_quants: Vec<Quant>,
    pub supports_kv_cache: bool,
    pub requires_sigma_shift: bool,
    pub supports_sequential_offload: bool,
}

/// Whether a descriptor is that of a generator: all have in common all but the name, the conditioning
/// and the smallest size.
pub open spec fn describes(
    d: ModelDescriptor,
    id: Seq<char>,
    conditioning: Seq<ConditioningKind>,
    min_size: int,
) -> bool {
    &&& d.id@ == id
    &&& d.family@ == "wan"@
    &&& d.backend@ == "mlx"@
    &&& d.supports_negative_prompt
    &&& d.supports_guidance
    &&& !d.supports_true_cfg
    &&& d.conditioning@ == conditioning
    &&& d.supports_lora
    &&& d.supports_lokr
    &&& views(d.samplers@) == native_samplers() + curated_samplers() + legacy_samplers()
    &&& d.min_size == min_size
    &&& d.max_size == 1280
    &&& d.max_count == 1
    &&& d.mac_only
    &&& d.supported_quants@ == seq![Quant::Q4, Quant::Q8]
    &&& d.supports_kv_cache
    &&& !d.requires_sigma_shift
    &&& !d.supports_sequential_offload
}

/// The descriptor of a generator.
fn describe(id: &str, conditioning: Vec<ConditioningKind>, min_size: u32) -> (r: ModelDescriptor)
    ensures
        describes(r, id@, conditioning@, min_size as int),
{
    let supported_quants: Vec<Quant> = vec![Quant::Q4, Quant::Q8];
    assert(supported_quants@ =~= seq![Quant::Q4, Quant::Q8]);
    ModelDescriptor {
        id: id.to_owned(),
        family: "wan".to_owned(),
        backend: "mlx".to_owned(),
        supports_negative_prompt: true,
        supports_guidance: true,
        supports_true_cfg: false,
        conditioning,
        supports_lora: true,
        supports_lokr: true,
        samplers: wan_samplers(),
        min_size,
        max_size: 1280,
        max_count: 1,
        mac_only: true,
        supported_quants,
        supports_kv_cache: true,
        requires_sigma_shift: false,
        supports_sequential_offload: false,
    }
}

/// Whether a descriptor is the dense model's.
pub open spec fn describes_dense(d: ModelDescriptor) -> bool {
    describes(
        d,
        MODEL_ID@,
        seq![ConditioningKind::Reference, ConditioningKind::Keyframe],
        32,
    )
}

/// Whether a descriptor is that of the two-expert text to video model.
pub open spec fn describes_t2v(d: ModelDescriptor) -> bool {
    describes(d, MODEL_ID_T2V_14B@, seq![], 16)
}

/// Whether a descriptor is that of the two-expert image to video model.
pub open spec fn describes_i2v(d: ModelDescriptor) -> bool {
    describes(d, MODEL_ID_I2V_14B@, seq![ConditioningKind::Reference], 16)
}

/// The models differ in what they take beside a prompt and in their smallest side, which is a cell of their
/// grid; a largest side, the widths that they can be packed to, and what else they offer, they share.
pub proof fn law_models_share_all_but_their_conditioning(
    dense: ModelDescriptor,
    t2v: ModelDescriptor,
    i2v: ModelDescriptor,
)
    requires
        describes_dense(dense),
        describes_t2v(t2v),
        describes_i2v(i2v),
    ensures
        dense.conditioning@.contains(ConditioningKind::Reference),
        dense.conditioning@.contains(ConditioningKind::Keyframe),
        t2v.conditioning@.len() == 0,
        i2v.conditioning@ == seq![ConditioningKind::Reference],
        dense.min_size == 2 * 16,
        t2v.min_size == 2 * 8,
        i2v.min_size == t2v.min_size,
        dense.max_size == 1280 && t2v.max_size == 1280 && i2v.max_size == 1280,
        dense.max_count == 1 && t2v.max_count == 1 && i2v.max_count == 1,
        dense.supported_quants@ == seq![Quant::Q4, Quant::Q8],
        t2v.supported_quants@ == dense.supported_quants@,
        i2v.supported_quants@ == dense.supported_quants@,
        views(t2v.samplers@) == views(dense.samplers@),
        views(i2v.samplers@) == views(dense.samplers@),
        views(dense.samplers@).len() == 9,
        dense.supports_lora && dense.supports_lokr && t2v.supports_lora && t2v.supports_lokr
            && i2v.supports_lora && i2v.supports_lokr,
        dense.supports_negative_prompt && dense.supports_guidance && !dense.supports_true_cfg,
        t2v.supports_negative_prompt && t2v.supports_guidance && !t2v.supports_true_cfg,
        i2v.supports_negative_prompt && i2v.supports_guidance && !i2v.supports_true_cfg,
{
    let kinds = dense.conditioning@;
    assert(kinds[0] == ConditioningKind::Reference && kinds[1] == ConditioningKind::Keyframe);
}

/// What the dense text and image to video model advertises: a reference image or keyframes, and sides
/// that are multiples of 32.
pub fn descriptor() -> (r: ModelDescriptor)
    ensures
        describes(
            r,
            MODEL_ID@,
            seq![ConditioningKind::Reference, ConditioningKind::Keyframe],
            32,
        ),
        describes_dense(r),
{
    let kinds: Vec<ConditioningKind> = vec![ConditioningKind::Reference, ConditioningKind::Keyframe];
    assert(kinds@ =~= seq![ConditioningKind::Reference, ConditioningKind::Keyframe]);
    describe(MODEL_ID, kinds, 32)
}

/// What the two-expert text to video model advertises: no conditioning.
pub fn descriptor_t2v_14b() -> (r: ModelDescriptor)
    ensures
        describes(r, MODEL_ID_T2V_14B@, seq![], 16),
        describes_t2v(r),
{
    describe(MODEL_ID_T2V_14B, Vec::new(), 16)
}

/// What the two-expert image to video model advertises: a reference image.
pub fn descriptor_i2v_14b() -> (r: ModelDescriptor)
    ensures
        describes(r, MODEL_ID_I2V_14B@, seq![ConditioningKind::Reference], 16),
        describes_i2v(r),
{
    let kinds: Vec<ConditioningKind> = vec![ConditioningKind::Reference];
    assert(kinds@ =~= seq![ConditioningKind::Reference]);
    describe(MODEL_ID_I2V_14B, kinds, 16)
}

/// What a snapshot's configuration says. `S` holds the numbers with a fraction, which are only carried
/// along.
#[derive(Debug)]
pub struct WanModelConfig<S> {
    pub model_type: String,
    pub dual_model: bool,
    pub is_ti2v: bool,
    pub is_i2v_concat: bool,
    pub in_dim: usize,
    pub dim: usize,
    pub frame_num: usize,
    pub patch_size: (usize, usize, usize),
    pub vae_stride: (usize, usize, usize),
    pub vae_z_dim: usize,
    pub max_area: usize,
    pub quantization: Option<WanQuant>,
    pub sample_steps: usize,
    pub sample_shift: S,
    pub sample_fps: u32,
    pub sample_neg_prompt: String,
}

/// What a generator is loaded with.
#[derive(Debug)]
pub struct LoadSpec {
    /// The weights are a directory, not a file.
    pub weights_dir: bool,
    /// The precision is the default one.
    pub bf16: bool,
    pub quantize: Option<Quant>,
    pub adapters: Vec<AdapterFile>,
}

/// What a request to pack a snapshot that is packed otherwise is answered.
pub open spec fn quant_conflict(id: Seq<char>, stored: int, requested: int) -> Seq<char> {
    id + ": snapshot is pre-quantized "@ + signed(stored)
        + "-bit (config.json quantization block), but spec.quantize requested "@ + signed(requested)
        + "-bit — the on-disk manifest is authoritative; drop the precision override or convert a snapshot at the requested width"@
}

/// How the weights are to be packed once they are loaded: as requested, and not at all where the
/// snapshot is packed already. A request for another width than the snapshot's is an error.
pub fn resolve_load_time_quant(id: &str, stored: Option<WanQuant>, requested: Option<Quant>) -> (r:
    Result<Option<Quant>, Error>)
    ensures
        match r {
            Ok(q) => match stored {
                None => q == requested,
                Some(s) => q is None && (requested matches Some(want) ==> bits_of(want) == s.bits),
            },
            Err(e) => stored matches Some(s) && requested matches Some(want) && s.bits != bits_of(
                want,
            ) && e is Msg && e.text() == quant_conflict(id@, s.bits as int, bits_of(want) as int),
        },
        is_load_time_quant(r, stored, requested),
{
    match stored {
        None => Ok(requested),
        Some(s) => match requested {
            None => Ok(None),
            Some(want) => {
                if s.bits == want.bits() {
                    return Ok(None);
                }
                Err(
                    Error::Msg(
                        id.to_owned().concat(": snapshot is pre-quantized ").concat(
                            signed_text(s.bits).as_str(),
                        ).concat(
                            "-bit (config.json quantization block), but spec.quantize requested ",
                        ).concat(signed_text(want.bits()).as_str()).concat(
                            "-bit — the on-disk manifest is authoritative; drop the precision override or convert a snapshot at the requested width",
                        ),
                    ),
                )
            },
        },
    }
}

/// What a file in place of a directory is answered.
pub open spec fn not_a_directory(id: Seq<char>) -> Seq<char> {
    id + ": expected a model directory (converted MLX snapshot), not a single file"@
}

/// What another precision is answered.
pub open spec fn precision_fixed(id: Seq<char>, who: Seq<char>) -> Seq<char> {
    id + ": precision override is not wired ("@ + who
        + " bf16 GEMMs over an f32 residual stream — the parity regime)"@
}

/// The first objection to a load, before the configuration is read.
pub open spec fn spec_fault(spec: LoadSpec, id: Seq<char>, who: Seq<char>) -> Option<Seq<char>> {
    if !spec.weights_dir {
        Some(not_a_directory(id))
    } else if !spec.bf16 {
        Some(precision_fixed(id, who))
    } else {
        None
    }
}

/// Checks a load, before the configuration is read.
fn check_spec(spec: &LoadSpec, id: &str, who: &str) -> (r: Result<(), Error>)
    ensures
        match r {
            Ok(()) => spec_fault(*spec, id@, who@) is None,
            Err(e) => e is Msg && spec_fault(*spec, id@, who@) == Some(e.text()),
        },
{
    if !spec.weights_dir {
        return Err(
            Error::Msg(
                join2(id, ": expected a model directory (converted MLX snapshot), not a single file"),
            ),
        );
    }
    if !spec.bf16 {
        return Err(
            Error::Msg(
                id.to_owned().concat(": precision override is not wired (").concat(who).concat(
                    " bf16 GEMMs over an f32 residual stream — the parity regime)",
                ),
            ),
        );
    }
    Ok(())
}

/// A truth value as written in messages.
pub open spec fn bool_text(b: bool) -> Seq<char> {
    if b {
        "true"@
    } else {
        "false"@
    }
}

/// A truth value as written in messages.
fn show_bool(b: bool) -> (r: &'static str)
    ensures
        r@ == bool_text(b),
{
    if b {
        "true"
    } else {
        "false"
    }
}

/// The dense text and image to video model, loaded.
#[derive(Debug)]
pub struct Wan<S> {
    pub config: WanModelConfig<S>,
    pub adapters: Vec<AdapterFile>,
    pub quant: Option<Quant>,
}

/// The objection to a configuration that is not the dense model's.
pub open spec fn dense_config_fault<S>(c: WanModelConfig<S>) -> Option<Seq<char>> {
    if c.dual_model || !c.is_ti2v {
        Some(
            "wan2_2_ti2v_5b: config.json is not the dense TI2V-5B (model_type="@ + c.model_type@
                + ", dual_model="@ + bool_text(c.dual_model)
                + "); expected the converted Wan2.2 TI2V-5B checkpoint (model_type=ti2v, dual_model=false)"@,
        )
    } else {
        None
    }
}

/// Whether a load ends in an error, and with which text, where the checks before it find `before`.
pub open spec fn load_answer(
    before: Option<Seq<char>>,
    id: Seq<char>,
    stored: Option<WanQuant>,
    requested: Option<Quant>,
) -> Option<Seq<char>> {
    match before {
        Some(t) => Some(t),
        None => match (stored, requested) {
            (Some(s), Some(want)) => if s.bits != bits_of(want) {
                Some(quant_conflict(id, s.bits as int, bits_of(want) as int))
            } else {
                None
            },
            _ => None,
        },
    }
}

/// How the weights of a load that succeeds are packed.
pub open spec fn load_quant(stored: Option<WanQuant>, requested: Option<Quant>) -> Option<Quant> {
    match stored {
        Some(_) => None,
        None => requested,
    }
}

/// The first of two objections.
pub open spec fn first_fault(a: Option<Seq<char>>, b: Option<Seq<char>>) -> Option<Seq<char>> {
    match a {
        Some(_) => a,
        None => b,
    }
}

/// Whether a width to pack to at load is settled.
pub open spec fn is_load_time_quant(
    r: Result<Option<Quant>, Error>,
    stored: Option<WanQuant>,
    requested: Option<Quant>,
) -> bool {
    match r {
        Ok(q) => match stored {
            None => q == requested,
            Some(s) => q is None && (requested matches Some(want) ==> bits_of(want) == s.bits),
        },
        Err(e) => stored matches Some(s) && requested matches Some(want) && s.bits != bits_of(want),
    }
}

/// Whether the dense model is loaded, or why it is not.
pub open spec fn is_dense_load<S>(r: Result<Wan<S>, Error>, spec: LoadSpec, config: WanModelConfig<S>) -> bool {
    let answer = load_answer(
        first_fault(spec_fault(spec, MODEL_ID@, "the DiT runs"@), dense_config_fault(config)),
        MODEL_ID@,
        config.quantization,
        spec.quantize,
    );
    match r {
        Ok(m) => {
            &&& answer is None
            &&& m.config == config
            &&& m.adapters == spec.adapters
            &&& m.quant == load_quant(config.quantization, spec.quantize)
        },
        Err(e) => e is Msg && answer == Some(e.text()),
    }
}

/// Whether a two-expert model with a given objection to its configuration is loaded, or why it is not.
pub open spec fn is_dual_load<S>(
    r: Result<Wan14b<S>, Error>,
    id: Seq<char>,
    misfit: Option<Seq<char>>,
    spec: LoadSpec,
    config: WanModelConfig<S>,
) -> bool {
    let answer = load_answer(
        first_fault(spec_fault(spec, id, "the experts run"@), misfit),
        id,
        config.quantization,
        spec.quantize,
    );
    match r {
        Ok(m) => {
            &&& answer is None
            &&& m.id@ == id
            &&& m.config == config
            &&& m.adapters == spec.adapters
            &&& m.quant == load_quant(config.quantization, spec.quantize)
        },
        Err(e) => e is Msg && answer == Some(e.text()),
    }
}

/// Whether the two-expert text to video model is loaded, or why it is not.
pub open spec fn is_t2v_load<S>(r: Result<Wan14b<S>, Error>, spec: LoadSpec, config: WanModelConfig<S>) -> bool {
    is_dual_load(r, MODEL_ID_T2V_14B@, t2v_config_fault(config), spec, config)
}

/// Whether the two-expert image to video model is loaded, or why it is not.
pub open spec fn is_i2v_load<S>(r: Result<Wan14b<S>, Error>, spec: LoadSpec, config: WanModelConfig<S>) -> bool {
    is_dual_load(r, MODEL_ID_I2V_14B@, i2v_config_fault(config), spec, config)
}

/// Loads the dense model with the configuration of its snapshot.
pub fn load<S>(spec: LoadSpec, config: WanModelConfig<S>) -> (r: Result<Wan<S>, Error>)
    ensures
        ({
            let answer = load_answer(
                first_fault(spec_fault(spec, MODEL_ID@, "the DiT runs"@), dense_config_fault(config)),
                MODEL_ID@,
                config.quantization,
                spec.quantize,
            );
            match r {
                Ok(m) => {
                    &&& answer is None
                    &&& m.config == config
                    &&& m.adapters == spec.adapters
                    &&& m.quant == load_quant(config.quantization, spec.quantize)
                },
                Err(e) => e is Msg && answer == Some(e.text()),
            }
        }),
        is_dense_load(r, spec, config),
{
    match check_spec(&spec, MODEL_ID, "the DiT runs") {
        Err(e) => {
            return Err(e);
        },
        Ok(()) => {},
    }
    if config.dual_model || !config.is_ti2v {
        return Err(
            Error::Msg(
                "wan2_2_ti2v_5b: config.json is not the dense TI2V-5B (model_type=".to_owned().concat(
                    config.model_type.as_str(),
                ).concat(", dual_model=").concat(show_bool(config.dual_model)).concat(
                    "); expected the converted Wan2.2 TI2V-5B checkpoint (model_type=ti2v, dual_model=false)",
                ),
            ),
        );
    }
    match resolve_load_time_quant(MODEL_ID, config.quantization, spec.quantize) {
        Err(e) => Err(e),
        Ok(quant) => Ok(Wan { config, adapters: spec.adapters, quant }),
    }
}

/// A two-expert model, loaded.
#[derive(Debug)]
pub struct Wan14b<S> {
    pub id: String,
    pub config: WanModelConfig<S>,
    pub adapters: Vec<AdapterFile>,
    pub quant: Option<Quant>,
}

/// The objection to a configuration that is not the two-expert text to video model's.
pub open spec fn t2v_config_fault<S>(c: WanModelConfig<S>) -> Option<Seq<char>> {
    if !c.dual_model {
        Some(
            "wan2_2_t2v_14b: config.json is not a dual-expert model (dual_model=false, model_type="@
                + c.model_type@ + "); expected the converted Wan2.2 A14B MoE checkpoint"@,
        )
    } else {
        None
    }
}

/// Loads the two-expert text to video model with the configuration of its snapshot.
pub fn load_t2v_14b<S>(spec: LoadSpec, config: WanModelConfig<S>) -> (r: Result<Wan14b<S>, Error>)
    ensures
        ({
            let answer = load_answer(
                first_fault(
                    spec_fault(spec, MODEL_ID_T2V_14B@, "the experts run"@),
                    t2v_config_fault(config),
                ),
                MODEL_ID_T2V_14B@,
                config.quantization,
                spec.quantize,
            );
            match r {
                Ok(m) => {
                    &&& answer is None
                    &&& m.id@ == MODEL_ID_T2V_14B@
                    &&& m.config == config
                    &&& m.adapters == spec.adapters
                    &&& m.quant == load_quant(config.quantization, spec.quantize)
                },
                Err(e) => e is Msg && answer == Some(e.text()),
            }
        }),
        is_t2v_load(r, spec, config),
{
    match check_spec(&spec, MODEL_ID_T2V_14B, "the experts run") {
        Err(e) => {
            return Err(e);
        },
        Ok(()) => {},
    }
    if !config.dual_model {
        return Err(
            Error::Msg(
                "wan2_2_t2v_14b: config.json is not a dual-expert model (dual_model=false, model_type=".to_owned().concat(
                    config.model_type.as_str(),
                ).concat("); expected the converted Wan2.2 A14B MoE checkpoint"),
            ),
        );
    }
    match resolve_load_time_quant(MODEL_ID_T2V_14B, config.quantization, spec.quantize) {
        Err(e) => Err(e),
        Ok(quant) => Ok(
            Wan14b { id: MODEL_ID_T2V_14B.to_owned(), config, adapters: spec.adapters, quant },
        ),
    }
}

/// The first objection to a configuration that is not the two-expert image to video model's.
pub open spec fn i2v_config_fault<S>(c: WanModelConfig<S>) -> Option<Seq<char>> {
    if !c.is_i2v_concat {
        Some(
            "wan2_2_i2v_14b: config.json is not a channel-concat I2V model (model_type="@
                + c.model_type@ + ", in_dim="@ + decimal(c.in_dim as nat)
                + "); expected the converted Wan2.2 I2V-A14B checkpoint (model_type=i2v, in_dim=36)"@,
        )
    } else if !c.dual_model {
        Some(
            "wan2_2_i2v_14b: config.json is not a dual-expert model (dual_model=false); expected the converted Wan2.2 I2V-A14B MoE checkpoint"@,
        )
    } else {
        None
    }
}

/// Loads the two-expert image to video model with the configuration of its snapshot.
pub fn load_i2v_14b<S>(spec: LoadSpec, config: WanModelConfig<S>) -> (r: Result<Wan14b<S>, Error>)
    ensures
        ({
            let answer = load_answer(
                first_fault(
                    spec_fault(spec, MODEL_ID_I2V_14B@, "the experts run"@),
                    i2v_config_fault(config),
                ),
                MODEL_ID_I2V_14B@,
                config.quantization,
                spec.quantize,
            );
            match r {
                Ok(m) => {
                    &&& answer is None
                    &&& m.id@ == MODEL_ID_I2V_14B@
                    &&& m.config == config
                    &&& m.adapters == spec.adapters
                    &&& m.quant == load_quant(config.quantization, spec.quantize)
                },
                Err(e) => e is Msg && answer == Some(e.text()),
            }
        }),
        is_i2v_load(r, spec, config),
{
    match check_spec(&spec, MODEL_ID_I2V_14B, "the experts run") {
        Err(e) => {
            return Err(e);
        },
        Ok(()) => {},
    }
    if !config.is_i2v_concat {
        return Err(
            Error::Msg(
                "wan2_2_i2v_14b: config.json is not a channel-concat I2V model (model_type=".to_owned().concat(
                    config.model_type.as_str(),
                ).concat(", in_dim=").concat(decimal_wide(config.in_dim as u128).as_str()).concat(
                    "); expected the converted Wan2.2 I2V-A14B checkpoint (model_type=i2v, in_dim=36)",
                ),
            ),
        );
    }
    if !config.dual_model {
        return Err(
            Error::Msg(
                "wan2_2_i2v_14b: config.json is not a dual-expert model (dual_model=false); expected the converted Wan2.2 I2V-A14B MoE checkpoint".to_owned(),
            ),
        );
    }
    match resolve_load_time_quant(MODEL_ID_I2V_14B, config.quantization, spec.quantize) {
        Err(e) => Err(e),
        Ok(quant) => Ok(
            Wan14b { id: MODEL_ID_I2V_14B.to_owned(), config, adapters: spec.adapters, quant },
        ),
    }
}

/// An entry of a request's conditioning.
#[derive(Debug, Clone, Copy, PartialEq, Eq, Structural)]
pub enum Conditioning {
    /// An image that the video is to start from.
    Reference,
    /// Anything else.
    Other,
}

/// A request. `S` holds the numbers with a fraction, which are only carried along.
#[derive(Debug)]
pub struct Request<S> {
    pub width: u32,
    pub height: u32,
    pub frames: Option<u32>,
    pub trim_first_frames: Option<u32>,
    pub steps: Option<u32>,
    pub scheduler_shift: Option<S>,
    pub sampler: Option<String>,
    pub seed: Option<u64>,
    pub negative_prompt: Option<String>,
    pub fps: Option<u32>,
    pub conditioning: Vec<Conditioning>,
    /// The latent frames that keyframes pin, the last one being minus one.
    pub keyframes: Vec<i32>,
}

/// The first reference image among the conditioning.
pub open spec fn reference_at(conditioning: Seq<Conditioning>) -> Option<int>
    decreases conditioning.len(),
{
    if conditioning.len() == 0 {
        None
    } else {
        match reference_at(conditioning.drop_last()) {
            Some(i) => Some(i),
            None => if conditioning.last() == Conditioning::Reference {
                Some(conditioning.len() - 1)
            } else {
                None
            },
        }
    }
}

/// The place of the first reference image among the conditioning.
pub fn i2v_reference(conditioning: &Vec<Conditioning>) -> (r: Option<usize>)
    ensures
        match r {
            Some(i) => reference_at(conditioning@) == Some(i as int),
            None => reference_at(conditioning@) is None,
        },
{
    let mut found: Option<usize> = None;
    let mut i: usize = 0;
    while i < conditioning.len()
        invariant
            i <= conditioning.len(),
            match found {
                Some(k) => reference_at(conditioning@.take(i as int)) == Some(k as int),
                None => reference_at(conditioning@.take(i as int)) is None,
            },
        decreases conditioning.len() - i,
    {
        proof {
            assert(conditioning@.take(i + 1).drop_last() =~= conditioning@.take(i as int));
        }
        if found.is_none() && conditioning[i] == Conditioning::Reference {
            found = Some(i);
        }
        i += 1;
    }
    assert(conditioning@.take(i as int) =~= conditioning@);
    found
}

/// So many latent frames are to be generated in front and thrown away.
pub open spec fn trim_of<S>(req: Request<S>) -> int {
    match req.trim_first_frames {
        Some(n) => n as int,
        None => 0,
    }
}

/// What a number of frames that the autoencoder cannot make is answered.
pub open spec fn frames_text(id: Seq<char>, frames: int) -> Seq<char> {
    id + ": num_frames must be 1 + 4·k (got "@ + decimal(frames as nat) + ")"@
}

/// The objection to a number of frames.
pub open spec fn frames_fault(id: Seq<char>, frames: Option<u32>) -> Option<Seq<char>> {
    match frames {
        Some(n) => if n % 4 != 1 {
            Some(frames_text(id, n as int))
        } else {
            None
        },
        None => None,
    }
}

/// Checks that the number of frames is one and a multiple of four.
fn check_frames(id: &str, frames: Option<u32>) -> (r: Result<(), Error>)
    ensures
        match r {
            Ok(()) => frames_fault(id@, frames) is None,
            Err(e) => e is Msg && frames_fault(id@, frames) == Some(e.text()),
        },
{
    match frames {
        Some(n) => {
            if n % 4 != 1 {
                return Err(
                    Error::Msg(
                        id.to_owned().concat(": num_frames must be 1 + 4·k (got ").concat(
                            decimal_wide(n as u128).as_str(),
                        ).concat(")"),
                    ),
                );
            }
        },
        None => {},
    }
    Ok(())
}

/// Whether a request pins frames to images.
pub open spec fn image_conditioned<S>(req: Request<S>) -> bool {
    req.keyframes@.len() > 0 || reference_at(req.conditioning@) is Some
}

/// The first objection of the dense model to a request.
pub open spec fn dense_request_fault<S>(req: Request<S>) -> Option<Seq<char>> {
    if frames_fault(MODEL_ID@, req.frames) is Some {
        frames_fault(MODEL_ID@, req.frames)
    } else if reference_at(req.conditioning@) is Some && req.keyframes@.len() > 0 {
        Some(
            "wan2_2_ti2v_5b: Reference and Keyframe conditioning cannot be combined (the keyframe path would silently drop the Reference) — express the first frame as a Keyframe with frame_idx 0"@,
        )
    } else if curated(req.sampler) && image_conditioned(req) {
        Some(
            "wan2_2_ti2v_5b: curated samplers (euler_ancestral/heun/dpmpp_sde/ddim) are not supported with image-conditioned TI2V mask-blend — use unipc/euler/dpmpp2m"@,
        )
    } else if trim_of(req) > 0 && image_conditioned(req) {
        Some(
            "wan2_2_ti2v_5b: trim_first_frames is not supported with Reference/Keyframe conditioning (the pinned frame would be trimmed off, and keyframe positions would shift vs the delivered video)"@,
        )
    } else {
        None
    }
}

/// The first objection of a two-expert model to a request.
pub open spec fn dual_request_fault<S>(id: Seq<char>, concat: bool, req: Request<S>) -> Option<Seq<char>> {
    if frames_fault(id, req.frames) is Some {
        frames_fault(id, req.frames)
    } else if concat && reference_at(req.conditioning@) is None {
        Some(id + ": image-to-video requires a Reference conditioning image"@)
    } else if concat && trim_of(req) > 0 {
        Some(
            id
                + ": trim_first_frames is not supported for I2V (the conditioning `y` is built from num_frames)"@,
        )
    } else {
        None
    }
}

impl<S> Request<S> {
    /// So many latent frames are to be generated in front and thrown away.
    fn trim(&self) -> (r: u32)
        ensures
            r == trim_of(*self),
    {
        match self.trim_first_frames {
            Some(n) => n,
            None => 0,
        }
    }
}

impl<S> Wan<S> {
    /// The model's settings.
    pub fn config(&self) -> (r: &WanModelConfig<S>)
        ensures
            *r == self.config,
    {
        &self.config
    }

    /// Checks what the dense model asks of a request beyond its advertised capabilities.
    pub fn validate(&self, req: &Request<S>) -> (r: Result<(), Error>)
        ensures
            match r {
                Ok(()) => dense_request_fault(*req) is None,
                Err(e) => e is Msg && dense_request_fault(*req) == Some(e.text()),
            },
    {
        match check_frames(MODEL_ID, req.frames) {
            Err(e) => {
                return Err(e);
            },
            Ok(()) => {},
        }
        let reference = i2v_reference(&req.conditioning).is_some();
        let keyframes = req.keyframes.len() > 0;
        if reference && keyframes {
            return Err(
                Error::Msg(
                    "wan2_2_ti2v_5b: Reference and Keyframe conditioning cannot be combined (the keyframe path would silently drop the Reference) — express the first frame as a Keyframe with frame_idx 0".to_owned(),
                ),
            );
        }
        if is_wan_curated(&req.sampler) && (reference || keyframes) {
            return Err(
                Error::Msg(
                    "wan2_2_ti2v_5b: curated samplers (euler_ancestral/heun/dpmpp_sde/ddim) are not supported with image-conditioned TI2V mask-blend — use unipc/euler/dpmpp2m".to_owned(),
                ),
            );
        }
        if req.trim() > 0 && (reference || keyframes) {
            return Err(
                Error::Msg(
                    "wan2_2_ti2v_5b: trim_first_frames is not supported with Reference/Keyframe conditioning (the pinned frame would be trimmed off, and keyframe positions would shift vs the delivered video)".to_owned(),
                ),
            );
        }
        Ok(())
    }
}

impl<S> Wan14b<S> {
    /// The model's settings.
    pub fn config(&self) -> (r: &WanModelConfig<S>)
        ensures
            *r == self.config,
    {
        &self.config
    }

    /// Checks what a two-expert model asks of a request beyond its advertised capabilities.
    pub fn validate(&self, req: &Request<S>) -> (r: Result<(), Error>)
        ensures
            match r {
                Ok(()) => dual_request_fault(self.id@, self.config.is_i2v_concat, *req) is None,
                Err(e) => e is Msg && dual_request_fault(self.id@, self.config.is_i2v_concat, *req)
                    == Some(e.text()),
            },
    {
        match check_frames(self.id.as_str(), req.frames) {
            Err(e) => {
                return Err(e);
            },
            Ok(()) => {},
        }
        if self.config.is_i2v_concat {
            if i2v_reference(&req.conditioning).is_none() {
                return Err(
                    Error::Msg(
                        join2(
                            self.id.as_str(),
                            ": image-to-video requires a Reference conditioning image",
                        ),
                    ),
                );
            }
            if req.trim() > 0 {
                return Err(
                    Error::Msg(
                        join2(
                            self.id.as_str(),
                            ": trim_first_frames is not supported for I2V (the conditioning `y` is built from num_frames)",
                        ),
                    ),
                );
            }
        }
        Ok(())
    }
}

/// The grid of a configuration: the patch times the stride, across and down.
pub open spec fn grid_of<S>(c: WanModelConfig<S>) -> (int, int) {
    (c.patch_size.2 * c.vae_stride.2, c.patch_size.1 * c.vae_stride.1)
}

/// A configuration whose grid can be worked with.
pub open spec fn grid_ok<S>(c: WanModelConfig<S>) -> bool {
    &&& 0 < grid_of(c).0 <= u32::MAX
    &&& 0 < grid_of(c).1 <= u32::MAX
}

/// A size on the grid, and within the largest area where there is one.
pub open spec fn capped_dims<S>(width: int, height: int, c: WanModelConfig<S>) -> (int, int) {
    let (dw, dh) = grid_of(c);
    let w = width / dw * dw;
    let h = height / dh * dh;
    if c.max_area > 0 && w * h > c.max_area {
        let best = best_size(w, h, dw, dh, c.max_area as int);
        (word(best.0), word(best.1))
    } else {
        (w, h)
    }
}

/// The size of the video: the requested one rounded down to the grid, and made smaller with its aspect
/// ratio kept where it is over the model's largest area.
pub fn resolve_capped_dims<S>(width: u32, height: u32, cfg: &WanModelConfig<S>) -> (r: (u32, u32))
    requires
        grid_ok(*cfg),
    ensures
        (r.0 as int, r.1 as int) == capped_dims(width as int, height as int, *cfg),
{
    let w = align_dim(width, cfg.patch_size.2, cfg.vae_stride.2);
    let h = align_dim(height, cfg.patch_size.1, cfg.vae_stride.1);
    proof {
        assert(0 <= w * h <= 0xffff_ffff * 0xffff_ffff) by (nonlinear_arith)
            requires
                0 <= w <= 0xffff_ffff,
                0 <= h <= 0xffff_ffff,
        ;
    }
    if cfg.max_area > 0 && (w as u64) * (h as u64) > cfg.max_area as u64 {
        let dw: u32 = (cfg.patch_size.2 * cfg.vae_stride.2) as u32;
        let dh: u32 = (cfg.patch_size.1 * cfg.vae_stride.1) as u32;
        proof {
            assert(w > 0 && h > 0) by (nonlinear_arith)
                requires
                    w * h > 0,
                    w >= 0,
                    h >= 0,
            ;
        }
        best_output_size(w, h, dw, dh, cfg.max_area)
    } else {
        (w, h)
    }
}

/// The size of the video lies on the grid, is no larger than what was asked for where no area is
/// exceeded, and is within the largest area wherever a cell of the grid is.
pub proof fn law_capped_dims<S>(width: int, height: int, c: WanModelConfig<S>)
    requires
        grid_ok(c),
        0 <= width <= u32::MAX,
        0 <= height <= u32::MAX,
        c.max_area <= u32::MAX,
    ensures
        ({
            let (dw, dh) = grid_of(c);
            let (w, h) = (width / dw * dw, height / dh * dh);
            let r = capped_dims(width, height, c);
            &&& r.0 % dw == 0
            &&& r.1 % dh == 0
            &&& c.max_area == 0 || w * h <= c.max_area ==> r == (w, h) && r.0 <= width && r.1 <= height
            &&& c.max_area > 0 && dw * dh <= c.max_area ==> r.0 * r.1 <= c.max_area
        }),
{
    let (dw, dh) = grid_of(c);
    let (w, h) = (width / dw * dw, height / dh * dh);
    let area = c.max_area as int;
    law_align_dim(width, dw);
    law_align_dim(height, dh);
    if area > 0 && w * h > area {
        assert(w >= 0 && h >= 0) by (nonlinear_arith)
            requires
                w == width / dw * dw,
                h == height / dh * dh,
                width >= 0,
                height >= 0,
                dw > 0,
                dh > 0,
        ;
        assert(w > 0 && h > 0) by (nonlinear_arith)
            requires
                w * h > 0,
                w >= 0,
                h >= 0,
        ;
        law_best_size_is_on_the_grid(w, h, dw, dh, area);
        lemma_best_size_is_a_word(w, h, dw, dh, area);
        if dw * dh <= area {
            law_best_size_fits_the_area(w, h, dw, dh, area);
        }
    }
}

/// The bytes of the first `n` files; a file that is missing has none.
pub open spec fn bytes_before(files: Seq<Option<u64>>, n: nat) -> nat
    decreases n,
{
    if n == 0 {
        0
    } else {
        bytes_before(files, (n - 1) as nat) + match files[n - 1] {
            Some(b) => b as nat,
            None => 0,
        }
    }
}

/// What is left of a hundred bytes when weights are packed.
pub open spec fn packed_percent(quant: Option<Quant>) -> int {
    match quant {
        Some(Quant::Q4) => 30,
        Some(Quant::Q8) => 55,
        None => 100,
    }
}

/// More files have no fewer bytes.
proof fn lemma_bytes_grow(files: Seq<Option<u64>>, m: nat, n: nat)
    requires
        m <= n,
    ensures
        bytes_before(files, m) <= bytes_before(files, n),
    decreases n,
{
    if m < n {
        lemma_bytes_grow(files, m, (n - 1) as nat);
    }
}

/// The estimated bytes of the transformer in memory: what its files hold, less what packing at load
/// saves.
pub fn dit_resident_bytes(files: &Vec<Option<u64>>, quant: Option<Quant>) -> (r: u64)
    requires
        bytes_before(files@, files@.len()) <= u64::MAX,
    ensures
        r == bytes_before(files@, files@.len()) * packed_percent(quant) / 100,
{
    let mut total: u64 = 0;
    let mut i: usize = 0;
    while i < files.len()
        invariant
            i <= files.len(),
            total == bytes_before(files@, i as nat),
            bytes_before(files@, files@.len()) <= u64::MAX,
        decreases files.len() - i,
    {
        proof {
            lemma_bytes_grow(files@, (i + 1) as nat, files@.len());
        }
        match files[i] {
            Some(b) => {
                total = total + b;
            },
            None => {},
        }
        i += 1;
    }
    let wide: u128 = total as u128;
    let left: u128 = match quant {
        Some(Quant::Q4) => wide * 30 / 100,
        Some(Quant::Q8) => wide * 55 / 100,
        None => wide,
    };
    left as u64
}

/// How many frames are asked for.
pub open spec fn frames_of<S>(req: Request<S>, c: WanModelConfig<S>) -> int {
    match req.frames {
        Some(n) => n as int,
        None => c.frame_num as int,
    }
}

/// How many frames are generated: those asked for and those that are thrown away.
pub open spec fn gen_frames_of<S>(req: Request<S>, c: WanModelConfig<S>) -> int {
    frames_of(req, c) + trim_of(req) * c.vae_stride.0
}

/// The extents of the latent.
pub open spec fn latent_extent<S>(req: Request<S>, c: WanModelConfig<S>) -> (int, int, int) {
    let (w, h) = capped_dims(req.width as int, req.height as int, c);
    (
        latent_frames(gen_frames_of(req, c), c.vae_stride.0 as int),
        h / c.vae_stride.1 as int,
        w / c.vae_stride.2 as int,
    )
}

/// How many tokens the transformer takes.
pub open spec fn token_count<S>(req: Request<S>, c: WanModelConfig<S>) -> int {
    let (t, h, w) = latent_extent(req, c);
    let cell = c.patch_size.1 * c.patch_size.2;
    (h * w * t + cell - 1) / cell
}

/// A request whose numbers machine words can hold.
pub open spec fn workable<S>(req: Request<S>, c: WanModelConfig<S>) -> bool {
    let (t, h, w) = latent_extent(req, c);
    &&& grid_ok(c)
    &&& c.vae_stride.0 > 0
    &&& c.vae_stride.1 > 0
    &&& c.vae_stride.2 > 0
    &&& 0 < c.patch_size.1 * c.patch_size.2 <= usize::MAX
    &&& c.vae_z_dim <= i32::MAX
    &&& trim_of(req) * c.vae_stride.0 <= usize::MAX
    &&& gen_frames_of(req, c) <= usize::MAX
    &&& gen_frames_of(req, c) > 0 ==> t <= i32::MAX
    &&& h <= i32::MAX
    &&& w <= i32::MAX
    &&& h * w <= usize::MAX
    &&& h * w * t <= usize::MAX
    &&& token_count(req, c) * c.dim <= 0xffff_ffff_ffff_ffff_ffff_ffff
}

/// What a generation works with.
#[derive(Debug)]
pub struct Prepared<S> {
    pub frames: usize,
    pub trim_out: usize,
    pub gen_frames: usize,
    pub width: u32,
    pub height: u32,
    pub knobs: SamplerKnobs<S>,
    pub negative_prompt: String,
    pub latent: [i32; 4],
    pub tokens: usize,
    pub fps: u32,
}

/// The objection to a request that has no frame, or does not fit.
pub open spec fn preparation_fault<S>(
    id: Seq<char>,
    req: Request<S>,
    c: WanModelConfig<S>,
    resident: int,
    guided: bool,
    limit: int,
) -> Option<Seq<char>> {
    if gen_frames_of(req, c) == 0 {
        Some("wan latent_shape: frames must be >= 1"@)
    } else if !fits(denoise_peak(resident, token_count(req, c), c.dim as int, guided), limit) {
        Some(over_budget(id, resident, token_count(req, c), c.dim as int, guided, limit))
    } else {
        None
    }
}

/// Whether a generation is prepared as a request and a configuration say.
pub open spec fn is_prepared<S>(
    p: Prepared<S>,
    req: Request<S>,
    c: WanModelConfig<S>,
    fresh_seed: u64,
) -> bool {
    let (t, h, w) = latent_extent(req, c);
    &&& p.frames == frames_of(req, c)
    &&& p.trim_out == trim_of(req) * c.vae_stride.0
    &&& p.gen_frames == gen_frames_of(req, c)
    &&& (p.width as int, p.height as int) == capped_dims(req.width as int, req.height as int, c)
    &&& p.knobs.steps == match req.steps {
        Some(n) => n as int,
        None => c.sample_steps as int,
    }
    &&& p.knobs.shift == match req.scheduler_shift {
        Some(x) => x,
        None => c.sample_shift,
    }
    &&& p.knobs.kind == match req.sampler {
        Some(name) => solver_named(name@),
        None => SolverKind::UniPC,
    }
    &&& p.knobs.seed == match req.seed {
        Some(x) => x,
        None => fresh_seed,
    }
    &&& p.negative_prompt@ == match req.negative_prompt {
        Some(text) => text@,
        None => c.sample_neg_prompt@,
    }
    &&& p.latent@[0] == c.vae_z_dim
    &&& p.latent@[1] == t
    &&& p.latent@[2] == h
    &&& p.latent@[3] == w
    &&& p.tokens == token_count(req, c)
    &&& p.fps == match req.fps {
        Some(n) => n,
        None => c.sample_fps,
    }
}

/// Settles what a generation works with, and refuses what does not fit before anything is loaded.
fn prepare<S: Copy>(
    id: &str,
    req: &Request<S>,
    cfg: &WanModelConfig<S>,
    resident: u64,
    guided: bool,
    memory_limit: u64,
    fresh_seed: u64,
) -> (r: Result<Prepared<S>, Error>)
    requires
        workable(*req, *cfg),
    ensures
        ({
            let fault = preparation_fault(
                id@,
                *req,
                *cfg,
                resident as int,
                guided,
                memory_limit as int,
            );
            match r {
                Ok(p) => fault is None && is_prepared(p, *req, *cfg, fresh_seed),
                Err(e) => e is Msg && fault == Some(e.text()),
            }
        }),
{
    let frames: usize = match req.frames {
        Some(n) => n as usize,
        None => cfg.frame_num,
    };
    let trim: usize = req.trim() as usize;
    let trim_out: usize = trim * cfg.vae_stride.0;
    proof {
        assert(trim_of(*req) * cfg.vae_stride.0 >= 0) by (nonlinear_arith)
            requires
                trim_of(*req) >= 0,
                cfg.vae_stride.0 >= 0,
        ;
    }
    let gen_frames: usize = frames + trim_out;
    let (width, height) = resolve_capped_dims(req.width, req.height, cfg);
    let knobs = resolve_sampler_knobs(
        req.steps,
        req.scheduler_shift,
        &req.sampler,
        req.seed,
        cfg.sample_steps,
        cfg.sample_shift,
        fresh_seed,
    );
    let negative_prompt = match &req.negative_prompt {
        Some(text) => text.clone(),
        None => cfg.sample_neg_prompt.clone(),
    };
    let latent = match latent_shape(gen_frames, height, width, cfg.vae_z_dim, cfg.vae_stride) {
        Ok(s) => s,
        Err(e) => {
            return Err(e);
        },
    };
    proof {
        assert(width as int / cfg.vae_stride.2 as int >= 0) by (nonlinear_arith)
            requires
                width >= 0,
                cfg.vae_stride.2 > 0,
        ;
        assert(height as int / cfg.vae_stride.1 as int >= 0) by (nonlinear_arith)
            requires
                height >= 0,
                cfg.vae_stride.1 > 0,
        ;
        assert((gen_frames - 1) / cfg.vae_stride.0 as int >= 0) by (nonlinear_arith)
            requires
                gen_frames >= 1,
                cfg.vae_stride.0 > 0,
        ;
    }
    let tokens = seq_len(latent, cfg.patch_size);
    match preflight_denoise_memory_guard(id, resident, tokens, cfg.dim, guided, memory_limit) {
        Err(e) => {
            return Err(e);
        },
        Ok(()) => {},
    }
    Ok(
        Prepared {
            frames,
            trim_out,
            gen_frames,
            width,
            height,
            knobs,
            negative_prompt,
            latent,
            tokens,
            fps: match req.fps {
                Some(n) => n,
                None => cfg.sample_fps,
            },
        },
    )
}

/// Whether the dense model answers a request as it does once the request and what it needs are known.
pub open spec fn is_dense_preparation<S>(
    m: Wan<S>,
    req: Request<S>,
    model_bytes: Option<u64>,
    cfg_disabled: bool,
    memory_limit: int,
    fresh_seed: u64,
    r: Result<Prepared<S>, Error>,
) -> bool {
    let resident = bytes_before(seq![model_bytes], 1) * packed_percent(m.quant) / 100;
    let fault = first_fault(
        dense_request_fault(req),
        preparation_fault(MODEL_ID@, req, m.config, resident, !cfg_disabled, memory_limit),
    );
    match r {
        Ok(p) => fault is None && is_prepared(p, req, m.config, fresh_seed),
        Err(e) => e is Msg && fault == Some(e.text()),
    }
}

/// Whether a two-expert model answers a request as it does once the request and what it needs are known.
pub open spec fn is_dual_preparation<S>(
    m: Wan14b<S>,
    req: Request<S>,
    low_bytes: Option<u64>,
    high_bytes: Option<u64>,
    memory_limit: int,
    fresh_seed: u64,
    r: Result<Prepared<S>, Error>,
) -> bool {
    let resident = bytes_before(seq![low_bytes, high_bytes], 2) * packed_percent(m.quant) / 100;
    let fault = first_fault(
        dual_request_fault(m.id@, m.config.is_i2v_concat, req),
        preparation_fault(m.id@, req, m.config, resident, true, memory_limit),
    );
    match r {
        Ok(p) => fault is None && is_prepared(p, req, m.config, fresh_seed),
        Err(e) => e is Msg && fault == Some(e.text()),
    }
}

impl<S: Copy> Wan<S> {
    /// Checks a request and settles what its generation works with. `model_bytes` is the size of the
    /// transformer's file, where there is one.
    pub fn prepare(
        &self,
        req: &Request<S>,
        model_bytes: Option<u64>,
        cfg_disabled: bool,
        memory_limit: u64,
        fresh_seed: u64,
    ) -> (r: Result<Prepared<S>, Error>)
        requires
            workable(*req, self.config),
        ensures
            ({
                let resident = bytes_before(seq![model_bytes], 1) * packed_percent(self.quant) / 100;
                let fault = first_fault(
                    dense_request_fault(*req),
                    preparation_fault(
                        MODEL_ID@,
                        *req,
                        self.config,
                        resident,
                        !cfg_disabled,
                        memory_limit as int,
                    ),
                );
                match r {
                    Ok(p) => fault is None && is_prepared(p, *req, self.config, fresh_seed),
                    Err(e) => e is Msg && fault == Some(e.text()),
                }
            }),
            is_dense_preparation(*self, *req, model_bytes, cfg_disabled, memory_limit as int, fresh_seed, r),
    {
        match self.validate(req) {
            Err(e) => {
                return Err(e);
            },
            Ok(()) => {},
        }
        let files: Vec<Option<u64>> = vec![model_bytes];
        proof {
            assert(files@ =~= seq![model_bytes]);
            reveal_with_fuel(bytes_before, 2);
        }
        let resident = dit_resident_bytes(&files, self.quant);
        prepare(MODEL_ID, req, &self.config, resident, !cfg_disabled, memory_limit, fresh_seed)
    }
}

impl<S: Copy> Wan14b<S> {
    /// Checks a request and settles what its generation works with. Both experts stay in memory, and
    /// every step is guided.
    pub fn prepare(
        &self,
        req: &Request<S>,
        low_bytes: Option<u64>,
        high_bytes: Option<u64>,
        memory_limit: u64,
        fresh_seed: u64,
    ) -> (r: Result<Prepared<S>, Error>)
        requires
            workable(*req, self.config),
            bytes_before(seq![low_bytes, high_bytes], 2) <= u64::MAX,
        ensures
            ({
                let resident = bytes_before(seq![low_bytes, high_bytes], 2) * packed_percent(
                    self.quant,
                ) / 100;
                let fault = first_fault(
                    dual_request_fault(self.id@, self.config.is_i2v_concat, *req),
                    preparation_fault(
                        self.id@,
                        *req,
                        self.config,
                        resident,
                        true,
                        memory_limit as int,
                    ),
                );
                match r {
                    Ok(p) => fault is None && is_prepared(p, *req, self.config, fresh_seed),
                    Err(e) => e is Msg && fault == Some(e.text()),
                }
            }),
            is_dual_preparation(*self, *req, low_bytes, high_bytes, memory_limit as int, fresh_seed, r),
    {
        match self.validate(req) {
            Err(e) => {
                return Err(e);
            },
            Ok(()) => {},
        }
        let files: Vec<Option<u64>> = vec![low_bytes, high_bytes];
        assert(files@ =~= seq![low_bytes, high_bytes]);
        let resident = dit_resident_bytes(&files, self.quant);
        prepare(self.id.as_str(), req, &self.config, resident, true, memory_limit, fresh_seed)
    }
}

/// Whether a decode of the dense model is cut as it is planned: in half precision, over all frames that
/// are generated.
pub open spec fn is_dense_tiling<S>(
    p: Prepared<S>,
    memory_limit: int,
    r: Result<Option<Tiling>, Error>,
) -> bool {
    is_planned(
        "z48 vae22"@,
        Decoder::Z48 { bf16: true },
        (Extent { frames: p.gen_frames as u32, height: p.height, width: p.width }),
        85 * memory_limit,
        r,
    )
}

/// Whether a decode of a two-expert model is cut as it is planned: over as many frames as the stride for
/// every latent frame.
pub open spec fn is_dual_tiling<S>(
    p: Prepared<S>,
    stride: int,
    memory_limit: int,
    r: Result<Option<Tiling>, Error>,
) -> bool {
    is_planned(
        "z16 vae"@,
        Decoder::Z16,
        (Extent { frames: (p.latent@[1] * stride) as u32, height: p.height, width: p.width }),
        85 * memory_limit,
        r,
    )
}

/// A decode of the dense model that is planned takes at most 85 percent of the memory, in half precision and
/// over all frames that are generated; in one pass where that takes no more.
pub proof fn law_dense_decode_stays_within_the_memory<S>(
    p: Prepared<S>,
    memory_limit: int,
    r: Result<Option<Tiling>, Error>,
)
    requires
        p.gen_frames <= u32::MAX,
        is_dense_tiling(p, memory_limit, r),
    ensures
        ({
            let all = p.gen_frames * p.height * p.width;
            let out = Extent { frames: p.gen_frames as u32, height: p.height, width: p.width };
            &&& 100 * (3440 * all) <= 85 * memory_limit <==> r == Ok::<Option<Tiling>, Error>(None)
            &&& r matches Ok(Some(t)) ==> 100 * (40 * all + 3400 * t.tile_voxels(out)) <= 85
                * memory_limit
        }),
{
    let out = Extent { frames: p.gen_frames as u32, height: p.height, width: p.width };
    let d = Decoder::Z48 { bf16: true };
    let (c, q) = choose|
        c: crate::memory::TileCandidates,
        q: Result<Option<Tiling>, crate::memory::TilingBudgetError>,
    |
        {
            &&& c.are_standard()
            &&& #[trigger] crate::memory::is_budgeted_plan(c, d, out, 85 * memory_limit, q)
            &&& match (q, r) {
                (Ok(a), Ok(b)) => a == b,
                (Err(e), Err(f)) => f is Msg && f.text() == crate::memory::budget_error_text(
                    "z48 vae22"@,
                    out.width as int,
                    out.height as int,
                    out.frames as int,
                    e,
                ),
                _ => false,
            }
        };
    crate::memory::law_the_largest_tile_that_fits_is_chosen(
        c,
        d,
        out,
        85 * memory_limit,
        q,
        None,
        None,
    );
    crate::memory::law_planned_decode_fits(c, d, out, 85 * memory_limit, q);
}

/// A decode of a two-expert model that is planned takes at most 85 percent of the memory, over as many frames
/// as the stride for every latent frame; in one pass where that takes no more.
pub proof fn law_dual_decode_stays_within_the_memory<S>(
    p: Prepared<S>,
    stride: int,
    memory_limit: int,
    r: Result<Option<Tiling>, Error>,
)
    requires
        0 <= p.latent@[1] * stride <= u32::MAX,
        is_dual_tiling(p, stride, memory_limit, r),
    ensures
        ({
            let frames = p.latent@[1] * stride;
            let all = frames * p.height * p.width;
            let out = Extent { frames: frames as u32, height: p.height, width: p.width };
            &&& 100 * (6564 * all) <= 85 * memory_limit <==> r == Ok::<Option<Tiling>, Error>(None)
            &&& r matches Ok(Some(t)) ==> 100 * (64 * all + 6500 * t.tile_voxels(out)) <= 85
                * memory_limit
        }),
{
    let out = Extent { frames: (p.latent@[1] * stride) as u32, height: p.height, width: p.width };
    let d = Decoder::Z16;
    let (c, q) = choose|
        c: crate::memory::TileCandidates,
        q: Result<Option<Tiling>, crate::memory::TilingBudgetError>,
    |
        {
            &&& c.are_standard()
            &&& #[trigger] crate::memory::is_budgeted_plan(c, d, out, 85 * memory_limit, q)
            &&& match (q, r) {
                (Ok(a), Ok(b)) => a == b,
                (Err(e), Err(f)) => f is Msg && f.text() == crate::memory::budget_error_text(
                    "z16 vae"@,
                    out.width as int,
                    out.height as int,
                    out.frames as int,
                    e,
                ),
                _ => false,
            }
        };
    crate::memory::law_the_largest_tile_that_fits_is_chosen(
        c,
        d,
        out,
        85 * memory_limit,
        q,
        None,
        None,
    );
    crate::memory::law_planned_decode_fits(c, d, out, 85 * memory_limit, q);
}

impl<S: Copy> Wan<S> {
    /// Plans how the decode is cut, in half precision, before anything is loaded.
    pub fn decode_tiling(&self, p: &Prepared<S>, memory_limit: u64) -> (r: Result<
        Option<Tiling>,
        Error,
    >)
        requires
            p.gen_frames <= u32::MAX,
        ensures
            is_planned(
                "z48 vae22"@,
                Decoder::Z48 { bf16: true },
                (Extent { frames: p.gen_frames as u32, height: p.height, width: p.width }),
                85 * memory_limit,
                r,
            ),
            is_dense_tiling(*p, memory_limit as int, r),
    {
        auto_tiling_budgeted(p.height, p.width, p.gen_frames as u32, true, memory_limit)
    }
}

impl<S: Copy> Wan14b<S> {
    /// Plans how the decode is cut. Every latent frame becomes as many frames as the stride has.
    pub fn decode_tiling(&self, p: &Prepared<S>, memory_limit: u64) -> (r: Result<
        Option<Tiling>,
        Error,
    >)
        requires
            p.latent@[1] >= 0,
            p.latent@[1] * self.config.vae_stride.0 <= u32::MAX,
        ensures
            is_planned(
                "z16 vae"@,
                Decoder::Z16,
                (Extent {
                    frames: (p.latent@[1] * self.config.vae_stride.0) as u32,
                    height: p.height,
                    width: p.width,
                }),
                85 * memory_limit,
                r,
            ),
            is_dual_tiling(*p, self.config.vae_stride.0 as int, memory_limit as int, r),
    {
        let (t, per) = (p.latent[1] as u128, self.config.vae_stride.0 as u128);
        proof {
            assert(0 <= p.latent@[1] * self.config.vae_stride.0) by (nonlinear_arith)
                requires
                    p.latent@[1] >= 0,
            ;
        }
        auto_tiling_budgeted_z16(p.height, p.width, (t * per) as u32, memory_limit)
    }
}

/// The latent frame of a keyframe: counted from the end where it is negative.
pub open spec fn keyframe_at(frame_idx: int, t_lat: int) -> int {
    if frame_idx < 0 {
        t_lat + frame_idx
    } else {
        frame_idx
    }
}

/// Whether a keyframe's latent frame exists.
pub open spec fn keyframe_ok(frame_idx: int, t_lat: int) -> bool {
    0 <= keyframe_at(frame_idx, t_lat) < t_lat
}

/// What a keyframe without a latent frame is answered.
pub open spec fn keyframe_text(frame_idx: int, t_lat: int) -> Seq<char> {
    "wan2_2_ti2v_5b: keyframe latent frame index "@ + signed(frame_idx) + " out of bounds for "@
        + decimal(t_lat as nat) + " latent frames"@
}

/// Whether keyframe `i` is the first without a latent frame.
pub open spec fn first_bad_keyframe(keyframes: Seq<i32>, t_lat: int, i: int) -> bool {
    &&& 0 <= i < keyframes.len()
    &&& !keyframe_ok(keyframes[i] as int, t_lat)
    &&& forall|k: int| 0 <= k < i ==> keyframe_ok(#[trigger] keyframes[k] as int, t_lat)
}

/// Whether keyframes have their latent frames, or one of them has none.
pub open spec fn are_keyframe_indices(
    r: Result<Vec<usize>, Error>,
    keyframes: Seq<i32>,
    t_lat: int,
) -> bool {
    match r {
        Ok(v) => {
            &&& v@.len() == keyframes.len()
            &&& forall|k: int|
                0 <= k < v@.len() ==> keyframe_ok(keyframes[k] as int, t_lat) && #[trigger] v@[k]
                    == keyframe_at(keyframes[k] as int, t_lat)
        },
        Err(_) => exists|i: int| #[trigger] first_bad_keyframe(keyframes, t_lat, i),
    }
}

/// Keyframes have their latent frames exactly where each counts from the first latent frame on or from the
/// last one back without going past the other end. One that counts back has as many latent frames added.
pub proof fn law_keyframes_find_their_frames(
    r: Result<Vec<usize>, Error>,
    keyframes: Seq<i32>,
    t_lat: int,
    k: int,
)
    requires
        t_lat > 0,
        0 <= k < keyframes.len(),
        are_keyframe_indices(r, keyframes, t_lat),
    ensures
        r is Ok <==> forall|j: int| 0 <= j < keyframes.len() ==> -t_lat <= #[trigger] keyframes[j] < t_lat,
        r matches Ok(v) ==> v@.len() == keyframes.len() && 0 <= v@[k] < t_lat,
        r matches Ok(v) ==> (keyframes[k] >= 0 ==> v@[k] == keyframes[k]),
        r matches Ok(v) ==> (keyframes[k] < 0 ==> v@[k] == keyframes[k] + t_lat),
{
    match r {
        Ok(v) => {
            assert(v@[k] == keyframe_at(keyframes[k] as int, t_lat));
            assert forall|j: int| 0 <= j < keyframes.len() implies -t_lat <= #[trigger] keyframes[j]
                < t_lat by {
                assert(v@[j] == keyframe_at(keyframes[j] as int, t_lat));
            }
        },
        Err(_) => {
            let i = choose|i: int| #[trigger] first_bad_keyframe(keyframes, t_lat, i);
            assert(!(-t_lat <= keyframes[i] < t_lat));
        },
    }
}

/// The latent frames of keyframes.
pub fn keyframe_indices(keyframes: &Vec<i32>, t_lat: usize) -> (r: Result<Vec<usize>, Error>)
    requires
        t_lat <= i32::MAX,
    ensures
        match r {
            Ok(v) => {
                &&& v@.len() == keyframes@.len()
                &&& forall|k: int|
                    0 <= k < v@.len() ==> keyframe_ok(keyframes@[k] as int, t_lat as int)
                        && #[trigger] v@[k] == keyframe_at(keyframes@[k] as int, t_lat as int)
            },
            Err(e) => e is Msg && exists|i: int| #[trigger]
                first_bad_keyframe(keyframes@, t_lat as int, i) && e.text() == keyframe_text(
                    keyframes@[i] as int,
                    t_lat as int,
                ),
        },
        are_keyframe_indices(r, keyframes@, t_lat as int),
{
    let mut out: Vec<usize> = Vec::new();
    let mut i: usize = 0;
    while i < keyframes.len()
        invariant
            i <= keyframes.len(),
            t_lat <= i32::MAX,
            out.len() == i,
            forall|k: int|
                0 <= k < i ==> keyframe_ok(#[trigger] keyframes@[k] as int, t_lat as int),
            forall|k: int|
                0 <= k < i ==> #[trigger] out@[k] == keyframe_at(keyframes@[k] as int, t_lat as int),
        decreases keyframes.len() - i,
    {
        let frame_idx: i32 = keyframes[i];
        let at: i64 = if frame_idx < 0 {
            t_lat as i64 + frame_idx as i64
        } else {
            frame_idx as i64
        };
        if at < 0 || at >= t_lat as i64 {
            proof {
                assert(first_bad_keyframe(keyframes@, t_lat as int, i as int));
            }
            return Err(
                Error::Msg(
                    "wan2_2_ti2v_5b: keyframe latent frame index ".to_owned().concat(
                        signed_text(frame_idx).as_str(),
                    ).concat(" out of bounds for ").concat(
                        decimal_wide(t_lat as u128).as_str(),
                    ).concat(" latent frames"),
                ),
            );
        }
        out.push(at as usize);
        i += 1;
    }
    Ok(out)
}

/// Whether the first frames of a video are thrown away.
pub open spec fn is_trimmed<T>(r: Seq<T>, frames: Seq<T>, trim_out: int) -> bool {
    r == frames.skip(smaller(trim_out, frames.len() as int))
}

/// The frames that are kept are the last ones, in their order: what was frame `trim_out` comes first. Where
/// there are no more frames than are thrown away, none is kept.
pub proof fn law_first_frames_are_thrown_away<T>(r: Seq<T>, frames: Seq<T>, trim_out: int, i: int)
    requires
        trim_out >= 0,
        is_trimmed(r, frames, trim_out),
    ensures
        trim_out <= frames.len() ==> r.len() == frames.len() - trim_out,
        trim_out >= frames.len() ==> r.len() == 0,
        0 <= i < r.len() ==> r[i] == frames[trim_out + i],
{
}

/// Throws the first frames of a video away.
pub fn trim_frames<T>(frames: Vec<T>, trim_out: usize) -> (r: Vec<T>)
    ensures
        r@ == frames@.skip(smaller(trim_out as int, frames@.len() as int)),
        is_trimmed(r@, frames@, trim_out as int),
{
    let mut frames = frames;
    let n: usize = if trim_out <= frames.len() {
        trim_out
    } else {
        frames.len()
    };
    let ghost all = frames@;
    let r = frames.split_off(n);
    assert(r@ =~= all.skip(n as int));
    r
}

/// How many deltas the adapters have for one expert.
pub open spec fn taken_count(target: Target, files: Seq<AdapterFile>, expert: MoeExpert) -> nat {
    all_taken(target, files, KeyLayout::Native, file_order(files, expert)).len()
}

/// What adapters do to a model: a delta for each module that is met, and the module paths that the model
/// does not have.
#[derive(Debug)]
pub struct Applied {
    pub folds: Vec<Fold>,
    pub skipped: Vec<String>,
}

/// Whether deltas and left-out module paths are what the adapters have for one expert.
pub open spec fn is_applied(
    target: Target,
    files: Seq<AdapterFile>,
    expert: MoeExpert,
    folds: Seq<Fold>,
    skipped: Seq<Seq<char>>,
) -> bool {
    let order = file_order(files, expert);
    &&& fold_views(folds) == all_taken(target, files, KeyLayout::Native, order)
    &&& skipped == all_left_out(target, files, KeyLayout::Native, order)
}

/// What adapters that are tagged for an expert are answered by the dense model.
pub open spec fn tagged_text() -> Seq<char> {
    MODEL_ID@
        + ": `moe_expert` (high/low) tagging is only for the dual-expert A14B — the dense 5B takes shared (untagged) adapters"@
}

/// What adapters that meet no module are answered.
pub open spec fn no_module_text(count: int) -> Seq<char> {
    MODEL_ID@ + ": "@ + decimal(count as nat)
        + " adapter file(s) matched no module — check the format (PEFT `lora_A/B` or kohya `lora_down/up`, `diffusion_model.`-prefixed Wan module names)"@
}

/// What adapters that meet no module of either expert are answered.
pub open spec fn no_module_dual_text(id: Seq<char>, count: int) -> Seq<char> {
    id + ": "@ + decimal(count as nat)
        + " LoRA file(s) matched no module across either expert — check the format (expected PEFT `lora_A/B` or kohya `lora_down/up`, `diffusion_model.`-prefixed Wan module names)"@
}

/// Whether a file is tagged for an expert.
pub open spec fn any_tagged(files: Seq<AdapterFile>) -> bool {
    exists|k: int| 0 <= k < files.len() && (#[trigger] files[k]).moe_expert is Some
}

impl<S> Wan<S> {
    /// Checks that no adapter is tagged for an expert.
    fn check_dense_specs(&self) -> (r: Result<(), Error>)
        ensures
            match r {
                Ok(()) => !any_tagged(self.adapters@),
                Err(e) => any_tagged(self.adapters@) && e is Msg && e.text() == tagged_text(),
            },
    {
        let mut i: usize = 0;
        while i < self.adapters.len()
            invariant
                i <= self.adapters.len(),
                forall|k: int| 0 <= k < i ==> (#[trigger] self.adapters@[k]).moe_expert is None,
            decreases self.adapters.len() - i,
        {
            if self.adapters[i].moe_expert.is_some() {
                assert(self.adapters@[i as int].moe_expert is Some);
                return Err(
                    Error::Msg(
                        join2(
                            MODEL_ID,
                            ": `moe_expert` (high/low) tagging is only for the dual-expert A14B — the dense 5B takes shared (untagged) adapters",
                        ),
                    ),
                );
            }
            i += 1;
        }
        Ok(())
    }

    /// Adapters that meet no module are an error; module paths that the model lacks are not.
    fn finalize_report(&self, folds: Vec<Fold>, report: WanLoraReport) -> (r: Result<Applied, Error>)
        ensures
            match r {
                Ok(a) => report.applied > 0 && a.folds == folds && a.skipped == report.skipped,
                Err(e) => report.applied == 0 && e is Msg && e.text() == no_module_text(
                    self.adapters@.len() as int,
                ),
            },
    {
        if report.applied == 0 {
            return Err(
                Error::Msg(
                    MODEL_ID.to_owned().concat(": ").concat(
                        decimal_wide(self.adapters.len() as u128).as_str(),
                    ).concat(
                        " adapter file(s) matched no module — check the format (PEFT `lora_A/B` or kohya `lora_down/up`, `diffusion_model.`-prefixed Wan module names)",
                    ),
                ),
            );
        }
        Ok(Applied { folds, skipped: report.skipped })
    }

    /// Plans the deltas that are folded into the weights of the dense model. Without adapters there is
    /// nothing to do.
    pub fn merge_adapters(&self, weights: Vec<String>) -> (r: Result<Option<Applied>, Error>)
        ensures
            ({
                let target = Target::Weights(weights);
                let count = taken_count(target, self.adapters@, MoeExpert::High);
                match r {
                    Ok(None) => self.adapters@.len() == 0,
                    Ok(Some(a)) => {
                        &&& self.adapters@.len() > 0
                        &&& !any_tagged(self.adapters@)
                        &&& count > 0
                        &&& is_applied(
                            target,
                            self.adapters@,
                            MoeExpert::High,
                            a.folds@,
                            views(a.skipped@),
                        )
                    },
                    Err(e) => {
                        &&& self.adapters@.len() > 0
                        &&& e is Msg
                        &&& any_tagged(self.adapters@) ==> e.text() == tagged_text()
                        &&& !any_tagged(self.adapters@) ==> count == 0 && e.text()
                            == no_module_text(self.adapters@.len() as int)
                    },
                }
            }),
    {
        if self.adapters.len() == 0 {
            return Ok(None);
        }
        match self.check_dense_specs() {
            Err(e) => {
                return Err(e);
            },
            Ok(()) => {},
        }
        let ghost target = Target::Weights(weights);
        let (folds, report) = merge_wan_adapters(weights, &self.adapters, MoeExpert::High);
        proof {
            assert(fold_views(folds@).len() == folds@.len());
        }
        match self.finalize_report(folds, report) {
            Ok(a) => Ok(Some(a)),
            Err(e) => Err(e),
        }
    }
}

impl<S> Wan<S> {
    /// Plans the deltas that a packed dense model carries beside its weights. Without adapters there is
    /// nothing to do. A Hadamard file has no such form.
    pub fn install_adapters_additive(&self, host: HostSurface) -> (r: Result<Option<Applied>, Error>)
        requires
            shapes_given(self.adapters@),
        ensures
            ({
                let target = Target::Host(host);
                let files = self.adapters@;
                match r {
                    Ok(None) => files.len() == 0,
                    Ok(Some(a)) => {
                        &&& files.len() > 0
                        &&& !any_tagged(files)
                        &&& !any_loha(files)
                        &&& order_fault(files, MoeExpert::High) is None
                        &&& taken_count(target, files, MoeExpert::High) > 0
                        &&& is_applied(
                            target,
                            files,
                            MoeExpert::High,
                            a.folds@,
                            views(a.skipped@),
                        )
                    },
                    Err(e) => {
                        &&& files.len() > 0
                        &&& any_tagged(files) ==> e is Msg && e.text() == tagged_text()
                        &&& !any_tagged(files) && any_loha(files) ==> e is Unsupported && loha_answer(
                            MODEL_ID@,
                            files,
                            e.text(),
                        )
                        &&& !any_tagged(files) && !any_loha(files) && order_fault(
                            files,
                            MoeExpert::High,
                        ) is Some ==> e is Msg && order_fault(files, MoeExpert::High) == Some(
                            e.text(),
                        )
                        &&& !any_tagged(files) && !any_loha(files) && order_fault(
                            files,
                            MoeExpert::High,
                        ) is None ==> e is Msg && taken_count(target, files, MoeExpert::High) == 0
                            && e.text() == no_module_text(files.len() as int)
                    },
                }
            }),
    {
        if self.adapters.len() == 0 {
            return Ok(None);
        }
        match self.check_dense_specs() {
            Err(e) => {
                return Err(e);
            },
            Ok(()) => {},
        }
        match refuse_loha(MODEL_ID, &self.adapters) {
            Err(e) => {
                return Err(e);
            },
            Ok(()) => {},
        }
        match apply_wan_adapters_additive(host, &self.adapters, MoeExpert::High) {
            Err(e) => Err(e),
            Ok((folds, report)) => {
                proof {
                    assert(fold_views(folds@).len() == folds@.len());
                }
                match self.finalize_report(folds, report) {
                    Ok(a) => Ok(Some(a)),
                    Err(e) => Err(e),
                }
            },
        }
    }
}

/// Each file gives the shapes of its tensors.
pub open spec fn shapes_given(files: Seq<AdapterFile>) -> bool {
    forall|k: int| 0 <= k < files.len() ==> (#[trigger] files[k]).shapes@.len() == files[k].keys@.len()
}

/// Whether a file is a Hadamard file.
pub open spec fn any_loha(files: Seq<AdapterFile>) -> bool {
    exists|k: int|
        0 <= k < files.len() && (#[trigger] files[k]).family() == WanAdapterFamily::Loha
}

/// Whether a text is what the first Hadamard file is answered.
pub open spec fn loha_answer(id: Seq<char>, files: Seq<AdapterFile>, text: Seq<char>) -> bool {
    exists|i: int| #[trigger] first_loha(files, i) && text == loha_refusal(id, files[i].path@)
}

/// The first objection to the factors of the files for an expert.
pub open spec fn order_fault(files: Seq<AdapterFile>, expert: MoeExpert) -> Option<Seq<char>> {
    let order = file_order(files, expert);
    first_file_fault(KeyLayout::Native, files, order, order.len())
}

/// Refuses Hadamard files.
fn refuse_loha(id: &str, files: &Vec<AdapterFile>) -> (r: Result<(), Error>)
    ensures
        match r {
            Ok(()) => !any_loha(files@),
            Err(e) => any_loha(files@) && e is Unsupported && loha_answer(id@, files@, e.text()),
        },
{
    reject_loha_on_packed(id, files)
}

/// What adapters do to both experts: deltas for each, and the module paths that either lacks, each once
/// and in order.
#[derive(Debug)]
pub struct AppliedDual {
    pub low: Vec<Fold>,
    pub high: Vec<Fold>,
    pub skipped: Vec<String>,
}

impl<S> Wan14b<S> {
    /// Adapters that meet no module of either expert are an error; module paths that a model lacks are
    /// not, and are told once each, in order.
    fn finalize_dual_report(
        &self,
        low_folds: Vec<Fold>,
        low: WanLoraReport,
        high_folds: Vec<Fold>,
        high: WanLoraReport,
    ) -> (r: Result<AppliedDual, Error>)
        ensures
            match r {
                Ok(a) => {
                    &&& low.applied > 0 || high.applied > 0
                    &&& a.low == low_folds
                    &&& a.high == high_folds
                    &&& views(a.skipped@) == sorted_set(views(low.skipped@) + views(high.skipped@))
                },
                Err(e) => low.applied == 0 && high.applied == 0 && e is Msg && e.text()
                    == no_module_dual_text(self.id@, self.adapters@.len() as int),
            },
    {
        if low.applied == 0 && high.applied == 0 {
            return Err(
                Error::Msg(
                    self.id.clone().concat(": ").concat(
                        decimal_wide(self.adapters.len() as u128).as_str(),
                    ).concat(
                        " LoRA file(s) matched no module across either expert — check the format (expected PEFT `lora_A/B` or kohya `lora_down/up`, `diffusion_model.`-prefixed Wan module names)",
                    ),
                ),
            );
        }
        let mut skipped = low.skipped;
        let mut more = high.skipped;
        let ghost a = skipped@;
        let ghost b = more@;
        skipped.append(&mut more);
        assert(views(skipped@) =~= views(a) + views(b));
        Ok(AppliedDual { low: low_folds, high: high_folds, skipped: sort_unique(&skipped) })
    }

    /// Plans the deltas that are folded into the weights of both experts. Without adapters there is
    /// nothing to do.
    pub fn merge_adapters(&self, low_weights: Vec<String>, high_weights: Vec<String>) -> (r: Result<
        Option<AppliedDual>,
        Error,
    >)
        ensures
            ({
                let files = self.adapters@;
                let low = Target::Weights(low_weights);
                let high = Target::Weights(high_weights);
                match r {
                    Ok(None) => files.len() == 0,
                    Ok(Some(a)) => files.len() > 0 && is_applied_dual(low, high, files, a),
                    Err(e) => {
                        &&& files.len() > 0
                        &&& none_taken(low, high, files)
                        &&& e is Msg
                        &&& e.text() == no_module_dual_text(self.id@, files.len() as int)
                    },
                }
            }),
    {
        if self.adapters.len() == 0 {
            return Ok(None);
        }
        let (low_folds, low) = merge_wan_adapters(low_weights, &self.adapters, MoeExpert::Low);
        let (high_folds, high) = merge_wan_adapters(high_weights, &self.adapters, MoeExpert::High);
        proof {
            assert(fold_views(low_folds@).len() == low_folds@.len());
            assert(fold_views(high_folds@).len() == high_folds@.len());
        }
        match self.finalize_dual_report(low_folds, low, high_folds, high) {
            Ok(a) => Ok(Some(a)),
            Err(e) => Err(e),
        }
    }

    /// Plans the deltas that both packed experts carry beside their weights. Without adapters there is
    /// nothing to do. A Hadamard file has no such form.
    pub fn install_adapters_additive(&self, low_host: HostSurface, high_host: HostSurface) -> (r: Result<
        Option<AppliedDual>,
        Error,
    >)
        requires
            shapes_given(self.adapters@),
        ensures
            ({
                let files = self.adapters@;
                let low = Target::Host(low_host);
                let high = Target::Host(high_host);
                let fault = first_fault(
                    order_fault(files, MoeExpert::Low),
                    order_fault(files, MoeExpert::High),
                );
                match r {
                    Ok(None) => files.len() == 0,
                    Ok(Some(a)) => {
                        &&& files.len() > 0
                        &&& !any_loha(files)
                        &&& fault is None
                        &&& is_applied_dual(low, high, files, a)
                    },
                    Err(e) => {
                        &&& files.len() > 0
                        &&& any_loha(files) ==> e is Unsupported && loha_answer(
                            self.id@,
                            files,
                            e.text(),
                        )
                        &&& !any_loha(files) && fault is Some ==> e is Msg && fault == Some(e.text())
                        &&& !any_loha(files) && fault is None ==> e is Msg && none_taken(
                            low,
                            high,
                            files,
                        ) && e.text() == no_module_dual_text(self.id@, files.len() as int)
                    },
                }
            }),
    {
        if self.adapters.len() == 0 {
            return Ok(None);
        }
        match refuse_loha(self.id.as_str(), &self.adapters) {
            Err(e) => {
                return Err(e);
            },
            Ok(()) => {},
        }
        let (low_folds, low) = match apply_wan_adapters_additive(
            low_host,
            &self.adapters,
            MoeExpert::Low,
        ) {
            Ok(plan) => plan,
            Err(e) => {
                return Err(e);
            },
        };
        let (high_folds, high) = match apply_wan_adapters_additive(
            high_host,
            &self.adapters,
            MoeExpert::High,
        ) {
            Ok(plan) => plan,
            Err(e) => {
                return Err(e);
            },
        };
        proof {
            assert(fold_views(low_folds@).len() == low_folds@.len());
            assert(fold_views(high_folds@).len() == high_folds@.len());
        }
        match self.finalize_dual_report(low_folds, low, high_folds, high) {
            Ok(a) => Ok(Some(a)),
            Err(e) => Err(e),
        }
    }
}

/// Whether the adapters have no delta for either expert.
pub open spec fn none_taken(low: Target, high: Target, files: Seq<AdapterFile>) -> bool {
    taken_count(low, files, MoeExpert::Low) == 0 && taken_count(high, files, MoeExpert::High) == 0
}

/// Whether deltas for both experts are what the adapters have, with at least one, and the left-out module
/// paths are those of both, each once and in order.
pub open spec fn is_applied_dual(low: Target, high: Target, files: Seq<AdapterFile>, a: AppliedDual) -> bool {
    let low_order = file_order(files, MoeExpert::Low);
    let high_order = file_order(files, MoeExpert::High);
    &&& !none_taken(low, high, files)
    &&& fold_views(a.low@) == all_taken(low, files, KeyLayout::Native, low_order)
    &&& fold_views(a.high@) == all_taken(high, files, KeyLayout::Native, high_order)
    &&& views(a.skipped@) == sorted_set(
        all_left_out(low, files, KeyLayout::Native, low_order) + all_left_out(
            high,
            files,
            KeyLayout::Native,
            high_order,
        ),
    )
}

/// Which loop denoises.
#[derive(Debug, Clone, Copy, PartialEq, Eq, Structural)]
pub enum DenoiseRoute {
    /// The library's own solvers, from noise.
    Native,
    /// The library's own solvers, with pinned frames blended in after every step.
    MaskBlend,
    /// An outside sampler.
    Curated,
}

/// A stage of a generation. Each loads what it needs and lets go of it.
#[derive(Debug, Clone, Copy, PartialEq, Eq, Structural)]
pub enum Stage {
    /// Encode the prompt, and the negative prompt where `negative`.
    EncodeText { negative: bool },
    /// Encode the images of the keyframes, and pin their frames.
    EncodeKeyframes,
    /// Encode the reference image, and pin the first frame.
    EncodeReference,
    /// Encode the reference image followed by empty frames, to go beside the noise.
    EncodeImageVideo,
    /// Read the weights of the transformer.
    LoadWeights,
    /// Fold the adapters into the weights.
    FoldAdapters,
    /// Build the transformer from the weights.
    Build,
    /// Pack the built transformer.
    Quantize { bits: i32 },
    /// Let the built transformer carry the adapters beside its weights.
    InstallAdapters,
    /// Denoise.
    Denoise { route: DenoiseRoute },
    /// Decode the latents to frames.
    Decode,
    /// Throw the first frames away.
    Trim { frames: usize },
}

/// A stage, where it takes place.
pub open spec fn stage_if(when: bool, stage: Stage) -> Seq<Stage> {
    if when {
        seq![stage]
    } else {
        seq![]
    }
}

/// How the transformer is made: adapters are folded into dense weights before it is built, and carried
/// beside packed weights after; packing at load comes in between.
pub open spec fn build_stages(prequantized: bool, quant: Option<Quant>) -> Seq<Stage> {
    seq![Stage::LoadWeights] + stage_if(!prequantized, Stage::FoldAdapters) + seq![Stage::Build]
        + match quant {
        Some(q) => seq![Stage::Quantize { bits: bits_of(q) }],
        None => seq![],
    } + stage_if(prequantized, Stage::InstallAdapters)
}

/// The loop that denoises for the dense model.
pub open spec fn dense_route<S>(req: Request<S>) -> DenoiseRoute {
    if image_conditioned(req) {
        DenoiseRoute::MaskBlend
    } else if curated(req.sampler) {
        DenoiseRoute::Curated
    } else {
        DenoiseRoute::Native
    }
}

/// The stages of a generation with the dense model.
pub open spec fn dense_stages<S>(m: Wan<S>, req: Request<S>, cfg_disabled: bool, trim_out: usize) -> Seq<Stage> {
    let conditioning = if req.keyframes@.len() > 0 {
        seq![Stage::EncodeKeyframes]
    } else {
        stage_if(reference_at(req.conditioning@) is Some, Stage::EncodeReference)
    };
    seq![Stage::EncodeText { negative: !cfg_disabled }] + conditioning + build_stages(
        m.config.quantization is Some,
        m.quant,
    ) + seq![Stage::Denoise { route: dense_route(req) }, Stage::Decode] + stage_if(
        trim_out > 0,
        Stage::Trim { frames: trim_out },
    )
}

/// The stages of a generation with a two-expert model.
pub open spec fn dual_stages<S>(m: Wan14b<S>, req: Request<S>, trim_out: usize) -> Seq<Stage> {
    let route = if curated(req.sampler) {
        DenoiseRoute::Curated
    } else {
        DenoiseRoute::Native
    };
    seq![Stage::EncodeText { negative: true }] + stage_if(
        m.config.is_i2v_concat,
        Stage::EncodeImageVideo,
    ) + build_stages(m.config.quantization is Some, m.quant) + seq![
        Stage::Denoise { route },
        Stage::Decode,
    ] + stage_if(trim_out > 0, Stage::Trim { frames: trim_out })
}

/// Appends how the transformer is made.
fn push_build(out: &mut Vec<Stage>, prequantized: bool, quant: Option<Quant>)
    ensures
        final(out)@ == old(out)@ + build_stages(prequantized, quant),
{
    out.push(Stage::LoadWeights);
    if !prequantized {
        out.push(Stage::FoldAdapters);
    }
    out.push(Stage::Build);
    match quant {
        Some(q) => {
            out.push(Stage::Quantize { bits: q.bits() });
        },
        None => {},
    }
    if prequantized {
        out.push(Stage::InstallAdapters);
    }
    assert(out@ =~= old(out)@ + build_stages(prequantized, quant));
}

impl<S> Wan<S> {
    /// The stages of a generation. An outside sampler cannot blend pinned frames in.
    pub fn stages(&self, req: &Request<S>, cfg_disabled: bool, trim_out: usize) -> (r: Result<
        Vec<Stage>,
        Error,
    >)
        ensures
            match r {
                Ok(v) => {
                    &&& !(image_conditioned(*req) && curated(req.sampler))
                    &&& v@ == dense_stages(*self, *req, cfg_disabled, trim_out)
                },
                Err(e) => {
                    &&& image_conditioned(*req)
                    &&& curated(req.sampler)
                    &&& e is Msg
                    &&& e.text()
                        == "wan: curated samplers (euler_ancestral/heun/dpmpp_sde/ddim) are not supported with image-conditioned TI2V mask-blend — use unipc/euler/dpmpp2m"@
                },
            },
    {
        let keyframes = req.keyframes.len() > 0;
        let reference = i2v_reference(&req.conditioning).is_some();
        let outside = is_wan_curated(&req.sampler);
        if (keyframes || reference) && outside {
            return Err(
                Error::Msg(
                    "wan: curated samplers (euler_ancestral/heun/dpmpp_sde/ddim) are not supported with image-conditioned TI2V mask-blend — use unipc/euler/dpmpp2m".to_owned(),
                ),
            );
        }
        let mut out: Vec<Stage> = Vec::new();
        out.push(Stage::EncodeText { negative: !cfg_disabled });
        if keyframes {
            out.push(Stage::EncodeKeyframes);
        } else if reference {
            out.push(Stage::EncodeReference);
        }
        let ghost conditioning = if req.keyframes@.len() > 0 {
            seq![Stage::EncodeKeyframes]
        } else {
            stage_if(reference_at(req.conditioning@) is Some, Stage::EncodeReference)
        };
        assert(out@ =~= seq![Stage::EncodeText { negative: !cfg_disabled }] + conditioning);
        push_build(&mut out, self.config.quantization.is_some(), self.quant);
        let route = if keyframes || reference {
            DenoiseRoute::MaskBlend
        } else if outside {
            DenoiseRoute::Curated
        } else {
            DenoiseRoute::Native
        };
        let ghost built = out@;
        out.push(Stage::Denoise { route });
        out.push(Stage::Decode);
        let ghost decoded = built + seq![Stage::Denoise { route }, Stage::Decode];
        assert(out@ =~= decoded);
        if trim_out > 0 {
            out.push(Stage::Trim { frames: trim_out });
        }
        assert(out@ =~= decoded + stage_if(trim_out > 0, Stage::Trim { frames: trim_out }));
        Ok(out)
    }
}

impl<S> Wan14b<S> {
    /// The stages of a generation.
    pub fn stages(&self, req: &Request<S>, trim_out: usize) -> (r: Vec<Stage>)
        ensures
            r@ == dual_stages(*self, *req, trim_out),
    {
        let mut out: Vec<Stage> = Vec::new();
        out.push(Stage::EncodeText { negative: true });
        if self.config.is_i2v_concat {
            out.push(Stage::EncodeImageVideo);
        }
        assert(out@ =~= seq![Stage::EncodeText { negative: true }] + stage_if(
            self.config.is_i2v_concat,
            Stage::EncodeImageVideo,
        ));
        push_build(&mut out, self.config.quantization.is_some(), self.quant);
        let route = if is_wan_curated(&req.sampler) {
            DenoiseRoute::Curated
        } else {
            DenoiseRoute::Native
        };
        let ghost built = out@;
        out.push(Stage::Denoise { route });
        out.push(Stage::Decode);
        let ghost decoded = built + seq![Stage::Denoise { route }, Stage::Decode];
        assert(out@ =~= decoded);
        if trim_out > 0 {
            out.push(Stage::Trim { frames: trim_out });
        }
        assert(out@ =~= decoded + stage_if(trim_out > 0, Stage::Trim { frames: trim_out }));
        out
    }
}

/// A request that the dense model accepts has stages: no outside sampler is asked to blend pinned frames
/// in. And where frames are pinned, none is thrown away.
pub proof fn law_accepted_requests_have_stages<S>(req: Request<S>)
    requires
        dense_request_fault(req) is None,
    ensures
        !(image_conditioned(req) && curated(req.sampler)),
        image_conditioned(req) ==> trim_of(req) == 0,
        !(req.keyframes@.len() > 0 && reference_at(req.conditioning@) is Some),
{
}

/// Adapters reach the transformer exactly once: folded in before it is built, or carried after, never
/// both. A model that was loaded packs at load only what the snapshot does not hold packed.
pub proof fn law_adapters_reach_the_model_once(stored: Option<WanQuant>, requested: Option<Quant>)
    ensures
        ({
            let s = build_stages(stored is Some, load_quant(stored, requested));
            &&& s.contains(Stage::FoldAdapters) <==> !s.contains(Stage::InstallAdapters)
            &&& s.contains(Stage::FoldAdapters) <==> stored is None
            &&& stored is Some ==> s == seq![Stage::LoadWeights, Stage::Build, Stage::InstallAdapters]
            &&& stored is None && requested is None ==> s == seq![
                Stage::LoadWeights,
                Stage::FoldAdapters,
                Stage::Build,
            ]
        }),
{
    let s = build_stages(stored is Some, load_quant(stored, requested));
    match stored {
        Some(_) => {
            assert(s =~= seq![Stage::LoadWeights, Stage::Build, Stage::InstallAdapters]);
            assert(s[2] == Stage::InstallAdapters);
        },
        None => {
            match requested {
                Some(q) => {
                    assert(s =~= seq![
                        Stage::LoadWeights,
                        Stage::FoldAdapters,
                        Stage::Build,
                        Stage::Quantize { bits: bits_of(q) },
                    ]);
                },
                None => {
                    assert(s =~= seq![Stage::LoadWeights, Stage::FoldAdapters, Stage::Build]);
                },
            }
            assert(s[1] == Stage::FoldAdapters);
        },
    }
}

/// The frames that a video keeps are those asked for: what was generated less what is thrown away.
pub proof fn law_trimmed_video_has_the_frames_asked_for<T, S>(
    req: Request<S>,
    c: WanModelConfig<S>,
    generated: Seq<T>,
)
    requires
        generated.len() == gen_frames_of(req, c),
        trim_of(req) * c.vae_stride.0 >= 0,
    ensures
        generated.skip(
            smaller(trim_of(req) * c.vae_stride.0, generated.len() as int),
        ).len() == frames_of(req, c),
{
}

/// A decode that makes as many frames of every latent frame as the stride has keeps, of the frames asked
/// for, those of whole strides. With a number of frames that the model accepts, these are three more
/// than were asked for.
pub proof fn law_trimmed_video_of_whole_strides<T, S>(
    req: Request<S>,
    c: WanModelConfig<S>,
    generated: Seq<T>,
)
    requires
        c.vae_stride.0 > 0,
        frames_of(req, c) >= 1,
        generated.len() == latent_extent(req, c).0 * c.vae_stride.0,
    ensures
        ({
            let kept = generated.skip(
                smaller(trim_of(req) * c.vae_stride.0, generated.len() as int),
            ).len();
            &&& kept == latent_frames(frames_of(req, c), c.vae_stride.0 as int) * c.vae_stride.0
            &&& frames_of(req, c) % 4 == 1 && c.vae_stride.0 == 4 ==> kept == frames_of(req, c) + 3
        }),
{
    let (n, k, st) = (frames_of(req, c), trim_of(req), c.vae_stride.0 as int);
    let t = latent_frames(n, st);
    assert(latent_frames(n + k * st, st) == t + k) by (nonlinear_arith)
        requires
            t == (n - 1) / st + 1,
            latent_frames(n + k * st, st) == (n + k * st - 1) / st + 1,
            st > 0,
    ;
    assert((t + k) * st == t * st + k * st) by (nonlinear_arith);
    assert(t * st >= 0 && k * st >= 0) by (nonlinear_arith)
        requires
            t == (n - 1) / st + 1,
            n >= 1,
            k >= 0,
            st > 0,
    ;
    if n % 4 == 1 && st == 4 {
        assert(t * st == n + 3) by (nonlinear_arith)
            requires
                t == (n - 1) / 4 + 1,
                n % 4 == 1,
                st == 4,
        ;
    }
}

/// With a number of frames that the model accepts, trimming keeps it one and a multiple of four where
/// the stride in time is four, so that the latent has a whole number of chunks.
pub proof fn law_generated_frames_stay_whole<S>(req: Request<S>, c: WanModelConfig<S>)
    requires
        frames_of(req, c) % 4 == 1,
        c.vae_stride.0 == 4,
    ensures
        gen_frames_of(req, c) % 4 == 1,
{
}

/// What a generation works with. The size is a whole number of patches of latent cells, and the requested
/// one less than a patch smaller where the model has no largest area or the size is within it. The latent has
/// a cell for every stride of the video, and reaches over every frame that is generated: those asked for and
/// those that are thrown away. There is a token for every patch of the latent.
pub proof fn law_prepared_sizes_agree<S>(
    p: Prepared<S>,
    req: Request<S>,
    c: WanModelConfig<S>,
    fresh_seed: u64,
)
    requires
        workable(req, c),
        c.max_area <= u32::MAX,
        gen_frames_of(req, c) > 0,
        is_prepared(p, req, c, fresh_seed),
    ensures
        ({
            let (dw, dh) = (c.patch_size.2 * c.vae_stride.2, c.patch_size.1 * c.vae_stride.1);
            let (w, h) = (req.width - req.width as int % dw, req.height - req.height as int % dh);
            let skipped = match req.trim_first_frames {
                Some(n) => n as int,
                None => 0,
            };
            &&& p.width as int % dw == 0
            &&& p.height as int % dh == 0
            &&& c.max_area == 0 || w * h <= c.max_area ==> p.width == w && p.height == h
            &&& c.max_area > 0 && dw * dh <= c.max_area ==> p.width * p.height <= c.max_area
            &&& p.frames == match req.frames {
                Some(n) => n as int,
                None => c.frame_num as int,
            }
            &&& p.gen_frames == p.frames + p.trim_out
            &&& p.trim_out == skipped * c.vae_stride.0
            &&& p.latent@[0] == c.vae_z_dim
            &&& (p.latent@[1] - 1) * c.vae_stride.0 < p.gen_frames <= p.latent@[1] * c.vae_stride.0
            &&& p.latent@[2] * c.vae_stride.1 == p.height
            &&& p.latent@[3] * c.vae_stride.2 == p.width
            &&& p.tokens * (c.patch_size.1 * c.patch_size.2) == p.latent@[1] * p.latent@[2]
                * p.latent@[3]
        }),
{
    let (dw, dh) = grid_of(c);
    let (ph, pw) = (c.patch_size.1 as int, c.patch_size.2 as int);
    let (sh, sw) = (c.vae_stride.1 as int, c.vae_stride.2 as int);
    law_capped_dims(req.width as int, req.height as int, c);
    lemma_aligned(req.width as int, dw);
    lemma_aligned(req.height as int, dh);
    crate::pipeline::law_latent_frames_reach_over_the_video(
        gen_frames_of(req, c),
        c.vae_stride.0 as int,
    );
    let (w, h) = (p.width as int, p.height as int);
    lemma_cells(w, pw, sw);
    lemma_cells(h, ph, sh);
    let (t, a, b) = (p.latent@[1] as int, h / sh, w / sw);
    lemma_patches(a, b, t, ph, pw);
}

/// Rounding down to a whole number of cells takes off what is left over.
proof fn lemma_aligned(n: int, cell: int)
    requires
        n >= 0,
        cell > 0,
    ensures
        n / cell * cell == n - n % cell,
{
    assert(n / cell * cell == n - n % cell) by (nonlinear_arith)
        requires
            cell > 0,
    ;
}

/// A whole number of patches of cells is a whole number of cells, and of patches of them.
proof fn lemma_cells(n: int, patch: int, stride: int)
    requires
        n >= 0,
        patch * stride > 0,
        patch >= 0,
        stride > 0,
        n % (patch * stride) == 0,
    ensures
        (n / stride) * stride == n,
        patch > 0,
        (n / stride) % patch == 0,
{
    let m = patch * stride;
    let q = n / m;
    assert(n == q * m) by (nonlinear_arith)
        requires
            m > 0,
            n % m == 0,
            q == n / m,
    ;
    assert(patch > 0) by (nonlinear_arith)
        requires
            patch * stride > 0,
            stride > 0,
    ;
    let k = q * patch;
    assert(n == k * stride) by (nonlinear_arith)
        requires
            n == q * m,
            m == patch * stride,
            k == q * patch,
    ;
    assert(n / stride == k) by (nonlinear_arith)
        requires
            n == k * stride,
            stride > 0,
    ;
    assert(k % patch == 0) by (nonlinear_arith)
        requires
            k == q * patch,
            patch > 0,
    ;
}

/// A latent that is a whole number of patches has one token for each.
proof fn lemma_patches(a: int, b: int, t: int, ph: int, pw: int)
    requires
        ph > 0,
        pw > 0,
        a % ph == 0,
        b % pw == 0,
    ensures
        ((a * b * t + ph * pw - 1) / (ph * pw)) * (ph * pw) == t * a * b,
{
    let (x, y, cell) = (a / ph, b / pw, ph * pw);
    assert(a == x * ph && b == y * pw && cell > 0) by (nonlinear_arith)
        requires
            ph > 0,
            pw > 0,
            a % ph == 0,
            b % pw == 0,
            x == a / ph,
            y == b / pw,
            cell == ph * pw,
    ;
    let m = x * y * t;
    let n = a * b * t;
    assert(a * b == (x * y) * cell) by (nonlinear_arith)
        requires
            a == x * ph,
            b == y * pw,
            cell == ph * pw,
    ;
    let z = x * y;
    assert(n == m * cell) by (nonlinear_arith)
        requires
            n == a * b * t,
            a * b == z * cell,
            m == z * t,
    ;
    assert((n + cell - 1) / cell == m) by (nonlinear_arith)
        requires
            n == m * cell,
            cell > 0,
    ;
    assert(t * a * b == n) by (nonlinear_arith)
        requires
            n == a * b * t,
    ;
}

/// What a request sets is what a generation works with; what it leaves open is the model's own setting, the
/// default solver, and the fresh seed.
pub proof fn law_request_comes_before_the_model<S>(
    p: Prepared<S>,
    req: Request<S>,
    c: WanModelConfig<S>,
    fresh_seed: u64,
)
    requires
        is_prepared(p, req, c, fresh_seed),
    ensures
        req.steps matches Some(n) ==> p.knobs.steps == n,
        req.steps is None ==> p.knobs.steps == c.sample_steps,
        req.scheduler_shift matches Some(x) ==> p.knobs.shift == x,
        req.scheduler_shift is None ==> p.knobs.shift == c.sample_shift,
        req.seed matches Some(x) ==> p.knobs.seed == x,
        req.seed is None ==> p.knobs.seed == fresh_seed,
        req.sampler is None ==> p.knobs.kind == SolverKind::UniPC,
        req.negative_prompt matches Some(x) ==> p.negative_prompt@ == x@,
        req.negative_prompt is None ==> p.negative_prompt@ == c.sample_neg_prompt@,
        req.fps matches Some(n) ==> p.fps == n,
        req.fps is None ==> p.fps == c.sample_fps,
{
}

/// The reference image is the first among the conditioning, where there is one.
pub proof fn law_first_reference_counts(conditioning: Seq<Conditioning>)
    ensures
        match reference_at(conditioning) {
            Some(i) => 0 <= i < conditioning.len() && conditioning[i] == Conditioning::Reference
                && forall|k: int| 0 <= k < i ==> #[trigger] conditioning[k] != Conditioning::Reference,
            None => forall|k: int|
                0 <= k < conditioning.len() ==> #[trigger] conditioning[k]
                    != Conditioning::Reference,
        },
    decreases conditioning.len(),
{
    if conditioning.len() > 0 {
        let head = conditioning.drop_last();
        law_first_reference_counts(head);
        assert forall|k: int| 0 <= k < head.len() implies #[trigger] conditioning[k] == head[k] by {}
    }
}

/// A keyframe counts its frame from the first where it is not negative, and back from the end where it is,
/// the last frame being minus one; frames before the first and after the last there are none.
pub proof fn law_keyframes_count_from_either_end(k: int, t_lat: int)
    requires
        0 <= k < t_lat,
    ensures
        keyframe_at(k, t_lat) == k,
        keyframe_at(k - t_lat, t_lat) == k,
        keyframe_ok(k, t_lat),
        keyframe_ok(k - t_lat, t_lat),
        !keyframe_ok(k + t_lat, t_lat),
        !keyframe_ok(k - 2 * t_lat, t_lat),
{
}

/// A number of frames is accepted where it is one more than a multiple of four, or left open, and only there.
pub proof fn law_frames_are_one_and_fours(id: Seq<char>, k: u32, n: u32)
    requires
        4 * k + 1 <= u32::MAX,
    ensures
        frames_fault(id, None) is None,
        frames_fault(id, Some((4 * k + 1) as u32)) is None,
        frames_fault(id, Some(n)) is None ==> (n - 1) % 4 == 0 && n > 0,
{
}

/// What the transformer takes in memory: all the bytes of its files, of which packing to four bits leaves
/// three tenths and packing to eight bits eleven twentieths.
pub proof fn law_packing_leaves_its_share(files: Seq<Option<u64>>, n: nat, more: u64)
    requires
        n < files.len(),
    ensures
        bytes_before(files, 0) == 0,
        files[n as int] == Some(more) ==> bytes_before(files, n + 1) == bytes_before(files, n) + more,
        files[n as int] is None ==> bytes_before(files, n + 1) == bytes_before(files, n),
        10 * packed_percent(Some(Quant::Q4)) == 3 * packed_percent(None),
        20 * packed_percent(Some(Quant::Q8)) == 11 * packed_percent(None),
        packed_percent(None) == 100,
{
}

/// The text is encoded first, and the latents are decoded after they are denoised, which is after the
/// transformer is built. Frames are pinned exactly where keyframes or a reference image are encoded, and only
/// then are pinned frames blended in. Frames are thrown away last, where there are any to throw away.
pub proof fn law_stages_of_the_dense_model<S>(
    m: Wan<S>,
    req: Request<S>,
    cfg_disabled: bool,
    trim_out: usize,
)
    ensures
        ({
            let s = dense_stages(m, req, cfg_disabled, trim_out);
            let pinned = req.keyframes@.len() > 0 || exists|k: int|
                0 <= k < req.conditioning@.len() && #[trigger] req.conditioning@[k]
                    == Conditioning::Reference;
            let end = if trim_out > 0 {
                s.len() - 2
            } else {
                s.len() - 1
            };
            &&& s[0] == (Stage::EncodeText { negative: !cfg_disabled })
            &&& end >= 2
            &&& s[end] == Stage::Decode
            &&& trim_out > 0 ==> s.last() == (Stage::Trim { frames: trim_out })
            &&& s[end - 1] is Denoise
            &&& s[end - 1]->route == DenoiseRoute::MaskBlend <==> pinned
            &&& s[end - 1]->route == DenoiseRoute::Curated ==> curated(req.sampler)
            &&& !pinned && curated(req.sampler) ==> s[end - 1]->route == DenoiseRoute::Curated
            &&& req.keyframes@.len() > 0 ==> s[1] == Stage::EncodeKeyframes
            &&& req.keyframes@.len() == 0 && pinned ==> s[1] == Stage::EncodeReference
            &&& !pinned ==> s[1] == Stage::LoadWeights
        }),
{
    law_first_reference_counts(req.conditioning@);
    let s = dense_stages(m, req, cfg_disabled, trim_out);
    let first = seq![Stage::EncodeText { negative: !cfg_disabled }];
    let conditioning = if req.keyframes@.len() > 0 {
        seq![Stage::EncodeKeyframes]
    } else {
        stage_if(reference_at(req.conditioning@) is Some, Stage::EncodeReference)
    };
    let build = build_stages(m.config.quantization is Some, m.quant);
    let last = seq![Stage::Denoise { route: dense_route(req) }, Stage::Decode];
    let trim = stage_if(trim_out > 0, Stage::Trim { frames: trim_out });
    assert(s == first + conditioning + build + last + trim);
    assert(build[0] == Stage::LoadWeights);
    if let Some(i) = reference_at(req.conditioning@) {
        assert(req.conditioning@[i] == Conditioning::Reference);
    }
}

/// The stages of a two-expert model: the negative prompt is always encoded, the reference image is encoded
/// where the model takes it beside the noise, and no frame is pinned.
pub proof fn law_stages_of_two_experts<S>(m: Wan14b<S>, req: Request<S>, trim_out: usize)
    ensures
        ({
            let s = dual_stages(m, req, trim_out);
            let end = if trim_out > 0 {
                s.len() - 2
            } else {
                s.len() - 1
            };
            &&& s[0] == (Stage::EncodeText { negative: true })
            &&& s[1] == if m.config.is_i2v_concat {
                Stage::EncodeImageVideo
            } else {
                Stage::LoadWeights
            }
            &&& end >= 2
            &&& s[end] == Stage::Decode
            &&& trim_out > 0 ==> s.last() == (Stage::Trim { frames: trim_out })
            &&& s[end - 1] == (Stage::Denoise {
                route: if curated(req.sampler) {
                    DenoiseRoute::Curated
                } else {
                    DenoiseRoute::Native
                },
            })
        }),
{
    let s = dual_stages(m, req, trim_out);
    let build = build_stages(m.config.quantization is Some, m.quant);
    assert(build[0] == Stage::LoadWeights);
}

/// A request's sampler is one that an outside sampler runs where it is one of these four, and only there.
pub proof fn law_outside_samplers_are_four(sampler: Option<String>)
    ensures
        curated(sampler) <==> match sampler {
            Some(name) => name@ == "euler_ancestral"@ || name@ == "heun"@ || name@ == "dpmpp_sde"@
                || name@ == "ddim"@,
            None => false,
        },
{
    if let Some(name) = sampler {
        let c = curated_samplers();
        assert(c[0] == "euler_ancestral"@ && c[1] == "heun"@ && c[2] == "dpmpp_sde"@ && c[3]
            == "ddim"@);
        assert(c.contains(c[0]) && c.contains(c[1]) && c.contains(c[2]) && c.contains(c[3]));
    }
}

} // verus!
