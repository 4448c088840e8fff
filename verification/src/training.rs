//! Training adapters: which targets are trained, in which order the experts take their steps, and when
//! the factors are updated, saved and previewed.

use vstd::prelude::*;
use crate::chunk::opt_text;
use crate::conditioning::Image;
use crate::error::Error;
use crate::memory::{safe_gib, GIB};
use crate::model::{
    bool_text,
    WanModelConfig,
    MODEL_ID,
    MODEL_ID_I2V_14B,
    MODEL_ID_T2V_14B,
};
use crate::numeric::{larger, py_round, ratio_less, rounded, smaller};
use crate::scheduler::SolverKind;
use crate::text::{
    ascii_lowered,
    chars_of,
    decimal,
    decimal_text,
    decimal_wide,
    ends_with,
    has_suffix,
    join2,
    pad_zeros,
    parse_usize,
    parsed_usize,
    replace,
    replaced,
    same_text,
    split,
    split_text,
    text_of,
    to_ascii_lower,
    trim,
    trimmed,
    views,
    zero_padded,
};
use crate::transformer::BlockLoraRef;

verus! {

/// What an adapter is made of.
#[derive(Debug, Clone, Copy, PartialEq, Eq, Structural)]
pub enum NetworkType {
    Lora,
    Lokr,
}

/// Whether a configuration is one that a trainer is for.
pub open spec fn config_fits<S>(id: Seq<char>, c: WanModelConfig<S>) -> bool {
    if id == MODEL_ID@ {
        !c.dual_model && c.vae_z_dim == 48
    } else if id == MODEL_ID_I2V_14B@ {
        c.dual_model && c.is_i2v_concat
    } else if id == MODEL_ID_T2V_14B@ {
        c.dual_model && !c.is_i2v_concat
    } else {
        true
    }
}

/// What a configuration that a trainer is not for is answered.
pub open spec fn config_misfit<S>(id: Seq<char>, c: WanModelConfig<S>) -> Seq<char> {
    id + " trainer: config.json does not match (model_type="@ + c.model_type@ + ", in_dim="@ + decimal(
        c.in_dim as nat,
    ) + ", dual_model="@ + bool_text(c.dual_model) + ", vae_z_dim="@ + decimal(c.vae_z_dim as nat)
        + ")"@
}

/// Checks that a configuration is one that a trainer is for.
pub fn check_config_matches<S>(id: &str, cfg: &WanModelConfig<S>) -> (r: Result<(), Error>)
    ensures
        match r {
            Ok(()) => config_fits(id@, *cfg),
            Err(e) => !config_fits(id@, *cfg) && e is Msg && e.text() == config_misfit(id@, *cfg),
        },
{
    let ok = if same_text(id, MODEL_ID) {
        !cfg.dual_model && cfg.vae_z_dim == 48
    } else if same_text(id, MODEL_ID_I2V_14B) {
        cfg.dual_model && cfg.is_i2v_concat
    } else if same_text(id, MODEL_ID_T2V_14B) {
        cfg.dual_model && !cfg.is_i2v_concat
    } else {
        true
    };
    if !ok {
        let text = id.to_owned().concat(
            " trainer: config.json does not match (model_type=",
        ).concat(cfg.model_type.as_str()).concat(", in_dim=").concat(
            decimal_text(cfg.in_dim).as_str(),
        ).concat(", dual_model=").concat(
            if cfg.dual_model {
                "true"
            } else {
                "false"
            },
        ).concat(", vae_z_dim=").concat(decimal_text(cfg.vae_z_dim).as_str()).concat(")");
        return Err(Error::Msg(text));
    }
    Ok(())
}

/// What a trainer offers.
#[derive(Debug, PartialEq, Eq)]
pub struct TrainerDescriptor {
    pub id: String,
    pub family: String,
    pub backend: String,
    pub supports_lora: bool,
    pub supports_lokr: bool,
}

/// The descriptor of the trainer of a name.
pub fn trainer_descriptor(id: &str) -> (r: TrainerDescriptor)
    ensures
        r.id@ == id@,
        r.family@ == "wan"@,
        r.backend@ == "mlx"@,
        r.supports_lora,
        r.supports_lokr,
{
    TrainerDescriptor {
        id: id.to_owned(),
        family: "wan".to_owned(),
        backend: "mlx".to_owned(),
        supports_lora: true,
        supports_lokr: true,
    }
}

/// A trainer: its name, the autoencoder of its latents, and its experts.
#[derive(Debug, PartialEq, Eq)]
pub struct WanMoeTrainer {
    pub id: String,
    /// The latents are those of the z48 autoencoder, not of the z16 one.
    pub z48: bool,
    /// The low-noise and the high-noise expert, or one alone.
    pub experts: usize,
    /// How many empty channels go beside a latent.
    pub y_channels: usize,
}

/// What a file in place of a directory is answered.
pub open spec fn trainer_needs_directory(id: Seq<char>) -> Seq<char> {
    id
        + " trainer expects a converted snapshot directory (model/expert safetensors + t5_encoder + vae + tokenizer.json), not a single file"@
}

/// The objection to what a trainer is built from.
pub open spec fn trainer_fault<S>(id: Seq<char>, weights_dir: bool, c: WanModelConfig<S>) -> Option<
    Seq<char>,
> {
    if !weights_dir {
        Some(trainer_needs_directory(id))
    } else if !config_fits(id, c) {
        Some(config_misfit(id, c))
    } else {
        None
    }
}

/// Whether a trainer is laid out as a configuration says.
pub open spec fn is_trainer<S>(t: WanMoeTrainer, id: Seq<char>, c: WanModelConfig<S>) -> bool {
    &&& t.id@ == id
    &&& t.z48 == (c.vae_z_dim == 48)
    &&& t.experts == if c.dual_model {
        2int
    } else {
        1
    }
    &&& t.y_channels == if c.in_dim > c.vae_z_dim {
        c.in_dim - c.vae_z_dim
    } else {
        0
    }
}

/// Lays a trainer out.
fn build_trainer<S>(id: &str, weights_dir: bool, cfg: &WanModelConfig<S>) -> (r: Result<
    WanMoeTrainer,
    Error,
>)
    ensures
        match r {
            Ok(t) => trainer_fault(id@, weights_dir, *cfg) is None && is_trainer(t, id@, *cfg),
            Err(e) => e is Msg && trainer_fault(id@, weights_dir, *cfg) == Some(e.text()),
        },
{
    if !weights_dir {
        return Err(
            Error::Msg(
                join2(
                    id,
                    " trainer expects a converted snapshot directory (model/expert safetensors + t5_encoder + vae + tokenizer.json), not a single file",
                ),
            ),
        );
    }
    match check_config_matches(id, cfg) {
        Err(e) => {
            return Err(e);
        },
        Ok(()) => {},
    }
    Ok(
        WanMoeTrainer {
            id: id.to_owned(),
            z48: cfg.vae_z_dim == 48,
            experts: if cfg.dual_model {
                2
            } else {
                1
            },
            y_channels: if cfg.in_dim > cfg.vae_z_dim {
                cfg.in_dim - cfg.vae_z_dim
            } else {
                0
            },
        },
    )
}

/// Lays the trainer of the two-expert text to video model out.
pub fn load_trainer<S>(weights_dir: bool, cfg: &WanModelConfig<S>) -> (r: Result<
    WanMoeTrainer,
    Error,
>)
    ensures
        match r {
            Ok(t) => trainer_fault(MODEL_ID_T2V_14B@, weights_dir, *cfg) is None && is_trainer(
                t,
                MODEL_ID_T2V_14B@,
                *cfg,
            ),
            Err(e) => e is Msg && trainer_fault(MODEL_ID_T2V_14B@, weights_dir, *cfg) == Some(
                e.text(),
            ),
        },
{
    build_trainer(MODEL_ID_T2V_14B, weights_dir, cfg)
}

/// Lays the trainer of the two-expert image to video model out.
pub fn load_trainer_i2v_14b<S>(weights_dir: bool, cfg: &WanModelConfig<S>) -> (r: Result<
    WanMoeTrainer,
    Error,
>)
    ensures
        match r {
            Ok(t) => trainer_fault(MODEL_ID_I2V_14B@, weights_dir, *cfg) is None && is_trainer(
                t,
                MODEL_ID_I2V_14B@,
                *cfg,
            ),
            Err(e) => e is Msg && trainer_fault(MODEL_ID_I2V_14B@, weights_dir, *cfg) == Some(
                e.text(),
            ),
        },
{
    build_trainer(MODEL_ID_I2V_14B, weights_dir, cfg)
}

/// Lays the trainer of the dense text and image to video model out.
pub fn load_trainer_ti2v_5b<S>(weights_dir: bool, cfg: &WanModelConfig<S>) -> (r: Result<
    WanMoeTrainer,
    Error,
>)
    ensures
        match r {
            Ok(t) => trainer_fault(MODEL_ID@, weights_dir, *cfg) is None && is_trainer(
                t,
                MODEL_ID@,
                *cfg,
            ),
            Err(e) => e is Msg && trainer_fault(MODEL_ID@, weights_dir, *cfg) == Some(e.text()),
        },
{
    build_trainer(MODEL_ID, weights_dir, cfg)
}

/// The first objection to a training request.
pub open spec fn request_fault(
    id: Seq<char>,
    items: int,
    rank: int,
    steps: int,
    optimizer: Seq<char>,
    supported: bool,
) -> Option<Seq<char>> {
    if items == 0 {
        Some(id + " trainer: dataset is empty"@)
    } else if rank == 0 {
        Some(id + " trainer: rank must be > 0"@)
    } else if steps == 0 {
        Some(id + " trainer: steps must be > 0"@)
    } else if !supported {
        Some(
            id + " trainer: optimizer '"@ + optimizer
                + "' is not available on MLX training (supported: adamw, adam, rose, prodigy)"@,
        )
    } else {
        None
    }
}

impl WanMoeTrainer {
    /// Checks a training request; `supported` says whether the optimizer exists.
    pub fn validate(
        &self,
        items: usize,
        rank: u32,
        steps: u32,
        optimizer: &str,
        supported: bool,
    ) -> (r: Result<(), Error>)
        ensures
            ({
                let fault = request_fault(
                    self.id@,
                    items as int,
                    rank as int,
                    steps as int,
                    optimizer@,
                    supported,
                );
                match r {
                    Ok(()) => fault is None,
                    Err(e) => e is Msg && fault == Some(e.text()),
                }
            }),
    {
        if items == 0 {
            return Err(Error::Msg(join2(self.id.as_str(), " trainer: dataset is empty")));
        }
        if rank == 0 {
            return Err(Error::Msg(join2(self.id.as_str(), " trainer: rank must be > 0")));
        }
        if steps == 0 {
            return Err(Error::Msg(join2(self.id.as_str(), " trainer: steps must be > 0")));
        }
        if !supported {
            return Err(
                Error::Msg(
                    self.id.clone().concat(" trainer: optimizer '").concat(optimizer).concat(
                        "' is not available on MLX training (supported: adamw, adam, rose, prodigy)",
                    ),
                ),
            );
        }
        Ok(())
    }
}

/// The larger of a number and one.
pub open spec fn at_least_one(n: int) -> int {
    if n > 1 {
        n
    } else {
        1
    }
}

/// How many tokens a training image of a given edge has, at eight pixels per latent cell.
pub open spec fn tokens_of(patch: (usize, usize, usize), edge: int) -> int {
    let le = at_least_one(edge / 8);
    (le / at_least_one(patch.1 as int)) * (le / at_least_one(patch.2 as int))
}

/// How many tokens a training image of a given edge has. Every autoencoder is taken for one that makes
/// eight pixels a latent cell, so that for the coarser one this is too many and never too few.
pub fn training_tokens(patch_size: (usize, usize, usize), edge: u32) -> (r: u64)
    ensures
        r == tokens_of(patch_size, edge as int),
        r < 0x400_0000_0000_0000,
{
    let le: u64 = if edge / 8 > 1 {
        (edge / 8) as u64
    } else {
        1
    };
    let ph: u64 = if patch_size.1 > 1 {
        patch_size.1 as u64
    } else {
        1
    };
    let pw: u64 = if patch_size.2 > 1 {
        patch_size.2 as u64
    } else {
        1
    };
    proof {
        let (a, b, c) = (le as int, ph as int, pw as int);
        assert(0 <= a / b <= a) by (nonlinear_arith)
            requires
                a >= 0,
                b > 0,
        ;
        assert(0 <= a / c <= a) by (nonlinear_arith)
            requires
                a >= 0,
                c > 0,
        ;
        let (x, y) = (a / b, a / c);
        assert(0 <= x * y <= 0x1fff_ffff * 0x1fff_ffff) by (nonlinear_arith)
            requires
                0 <= x <= 0x1fff_ffff,
                0 <= y <= 0x1fff_ffff,
        ;
    }
    (le / ph) * (le / pw)
}

/// So many units make a GiB in the projection of a training step's peak.
pub const PEAK_UNITS: u128 = 10_485_760_000_000;

/// The projected peak of a dense first training step, in units: 27 GiB for each expert that stays in
/// memory, and 10.3 GiB and 0.0177 GiB a token for the forward, at 40 layers of 5120 channels. The
/// weights scale with the square of the channels, the forward with the channels, and both with the
/// layers.
pub open spec fn peak_units(tokens: int, dim: int, n_layers: int, n_experts: int) -> int {
    270_000 * (n_experts * (dim * dim * n_layers)) + 5120 * ((103_000 + 177 * tokens) * (dim * n_layers))
}

/// The projected peak of a dense first training step, in units.
pub fn projected_dense_peak(tokens: u32, dim: usize, n_layers: usize, n_experts: usize) -> (r: u128)
    requires
        dim * dim <= usize::MAX,
        dim * dim * n_layers <= usize::MAX,
        dim * n_layers <= usize::MAX,
        n_experts <= u32::MAX,
    ensures
        r == peak_units(tokens as int, dim as int, n_layers as int, n_experts as int),
        r < 0x100_0000_0000_0000_0000_0000_0000_0000,
{
    let square: u128 = (dim * dim * n_layers) as u128;
    let line: u128 = (dim * n_layers) as u128;
    proof {
        let (n, s) = (n_experts as int, square as int);
        assert(0 <= n * s <= 0xffff_ffff * 0xffff_ffff_ffff_ffff) by (nonlinear_arith)
            requires
                0 <= n <= 0xffff_ffff,
                0 <= s <= 0xffff_ffff_ffff_ffff,
        ;
        let (k, l) = (103_000 + 177 * tokens as int, line as int);
        assert(0 <= k * l <= 0x100_0000_0000 * 0xffff_ffff_ffff_ffff) by (nonlinear_arith)
            requires
                0 <= k <= 0x100_0000_0000,
                0 <= l <= 0xffff_ffff_ffff_ffff,
        ;
    }
    270_000 * (n_experts as u128 * square) + 5120 * ((103_000 + 177 * tokens as u128) * line)
}

/// Whether a projected peak fits: it is at most 85 percent of the limit.
pub open spec fn peak_fits(units: int, limit: int) -> bool {
    units * (100 * GIB) <= (85 * limit) * PEAK_UNITS
}

/// What a training step that does not fit is answered.
pub open spec fn training_over_budget(
    id: Seq<char>,
    edge: int,
    units: int,
    n_experts: int,
    limit: int,
) -> Seq<char> {
    id + " trainer: a dense first training step at resolution "@ + decimal(edge as nat)
        + " needs ~"@ + decimal(rounded(units, PEAK_UNITS as int) as nat) + " GB ("@ + decimal(
        n_experts as nat,
    )
        + " resident expert(s) + the forward working set, materialized in one allocation), exceeding this machine's ~"@
        + safe_gib(limit) + " GB safe budget ("@ + decimal(rounded(limit, GIB as int) as nat)
        + " GB MLX limit × 0.85). Without mitigation the OS would hard-kill the worker (SIGKILL) at the first step with no recoverable error (sc-4874/sc-4942). Enable Gradient Checkpointing (recomputes block activations in the backward) or reduce the training resolution."@
}

/// Refuses a run whose dense first step would not fit.
pub fn preflight_memory_guard<S>(
    cfg: &WanModelConfig<S>,
    num_layers: usize,
    edge: u32,
    n_experts: usize,
    id: &str,
    memory_limit: u64,
) -> (r: Result<(), Error>)
    requires
        cfg.dim * cfg.dim <= usize::MAX,
        cfg.dim * cfg.dim * num_layers <= usize::MAX,
        cfg.dim * num_layers <= usize::MAX,
        n_experts <= u32::MAX,
        tokens_of(cfg.patch_size, edge as int) <= u32::MAX,
    ensures
        ({
            let units = peak_units(
                tokens_of(cfg.patch_size, edge as int),
                cfg.dim as int,
                num_layers as int,
                n_experts as int,
            );
            match r {
                Ok(()) => peak_fits(units, memory_limit as int),
                Err(e) => {
                    &&& !peak_fits(units, memory_limit as int)
                    &&& e is Msg
                    &&& e.text() == training_over_budget(
                        id@,
                        edge as int,
                        units,
                        n_experts as int,
                        memory_limit as int,
                    )
                },
            }
        }),
{
    let tokens: u32 = training_tokens(cfg.patch_size, edge) as u32;
    let units = projected_dense_peak(tokens, cfg.dim, num_layers, n_experts);
    let limit: u128 = memory_limit as u128;
    if ratio_less(85 * limit, 100 * GIB, units, PEAK_UNITS) {
        let safe = decimal_wide(py_round(85 * limit, 100 * GIB));
        let text = id.to_owned().concat(
            " trainer: a dense first training step at resolution ",
        ).concat(decimal_wide(edge as u128).as_str()).concat(" needs ~").concat(
            decimal_wide(py_round(units, PEAK_UNITS)).as_str(),
        ).concat(" GB (").concat(decimal_text(n_experts).as_str()).concat(
            " resident expert(s) + the forward working set, materialized in one allocation), exceeding this machine's ~",
        ).concat(safe.as_str()).concat(" GB safe budget (").concat(
            decimal_wide(py_round(limit, GIB)).as_str(),
        ).concat(
            " GB MLX limit × 0.85). Without mitigation the OS would hard-kill the worker (SIGKILL) at the first step with no recoverable error (sc-4874/sc-4942). Enable Gradient Checkpointing (recomputes block activations in the backward) or reduce the training resolution.",
        );
        return Err(Error::Msg(text));
    }
    Ok(())
}

/// The projection grows with the tokens, and with the experts that stay in memory.
pub proof fn law_projection_grows(
    tokens: int,
    more: int,
    dim: int,
    n_layers: int,
    n_experts: int,
    more_experts: int,
)
    requires
        0 <= tokens < more,
        dim > 0,
        n_layers > 0,
        0 <= n_experts < more_experts,
    ensures
        peak_units(tokens, dim, n_layers, n_experts) < peak_units(more, dim, n_layers, n_experts),
        peak_units(tokens, dim, n_layers, n_experts) < peak_units(
            tokens,
            dim,
            n_layers,
            more_experts,
        ),
{
    let line = dim * n_layers;
    let square = dim * dim * n_layers;
    assert(line > 0 && square > 0) by (nonlinear_arith)
        requires
            line == dim * n_layers,
            square == dim * dim * n_layers,
            dim > 0,
            n_layers > 0,
    ;
    assert((103_000 + 177 * tokens) * line < (103_000 + 177 * more) * line) by (nonlinear_arith)
        requires
            tokens < more,
            line > 0,
    ;
    assert(n_experts * square < more_experts * square) by (nonlinear_arith)
        requires
            n_experts < more_experts,
            square > 0,
    ;
}

/// The name of an adapter file: of a checkpoint where a step is given, and for one expert where there is
/// a suffix.
pub open spec fn filename_of(stem: Seq<char>, ext: Seq<char>, suffix: Seq<char>, step: Option<u32>) -> Seq<
    char,
> {
    let base = match step {
        Some(s) => stem + "-step"@ + zero_padded(decimal(s as nat), 6),
        None => stem,
    };
    if suffix.len() == 0 {
        base + ext
    } else {
        base + "."@ + suffix + ext
    }
}

/// The last full stop of a name that is not its first character.
pub open spec fn dot_of(name: Seq<char>, n: int) -> Option<int>
    decreases n,
{
    if n <= 1 {
        None
    } else if name[n - 1] == '.' {
        Some(n - 1)
    } else {
        dot_of(name, n - 1)
    }
}

/// The stem and the ending that the files of a run are named by.
pub open spec fn parts_of(name: Option<Seq<char>>) -> (Seq<char>, Seq<char>) {
    match name {
        None => ("lora"@, ".safetensors"@),
        Some(n) => match dot_of(n, n.len() as int) {
            Some(d) => (n.take(d), n.skip(d)),
            None => (n, ".safetensors"@),
        },
    }
}

/// Splits the file name of a request, where its path has one, into stem and ending.
pub fn file_parts(name: &Option<String>) -> (r: (String, String))
    ensures
        (r.0@, r.1@) == parts_of(opt_text(*name)),
{
    match name {
        None => ("lora".to_owned(), ".safetensors".to_owned()),
        Some(text) => {
            let chars = chars_of(text.as_str());
            let mut n: usize = chars.len();
            while n > 1 && chars[n - 1] != '.'
                invariant
                    n <= chars.len(),
                    chars@ == text@,
                    dot_of(text@, n as int) == dot_of(text@, text@.len() as int),
                decreases n,
            {
                n -= 1;
            }
            if n <= 1 {
                return (text.clone(), ".safetensors".to_owned());
            }
            let mut stem = chars;
            let ending = stem.split_off(n - 1);
            proof {
                assert(stem@ =~= text@.take(n - 1));
                assert(ending@ =~= text@.skip(n - 1));
            }
            (text_of(&stem), text_of(&ending))
        },
    }
}

/// The name of an adapter file.
pub fn expert_filename(stem: &str, ext: &str, suffix: &str, step: Option<u32>) -> (r: String)
    ensures
        r@ == filename_of(stem@, ext@, suffix@, step),
{
    let base = match step {
        Some(s) => stem.to_owned().concat("-step").concat(
            pad_zeros(decimal_wide(s as u128).as_str(), 6).as_str(),
        ),
        None => stem.to_owned(),
    };
    if suffix.is_empty() {
        base.concat(ext)
    } else {
        base.concat(".").concat(suffix).concat(ext)
    }
}

/// Whether a path is a target: its last parts are one of the suffixes.
pub open spec fn is_target(path: Seq<char>, suffixes: Seq<Seq<char>>) -> bool {
    exists|k: int|
        0 <= k < suffixes.len() && (path == #[trigger] suffixes[k] || has_suffix(
            path,
            "."@ + suffixes[k],
        ))
}

/// The targets among paths, in their order.
pub open spec fn targets_of(paths: Seq<Seq<char>>, suffixes: Seq<Seq<char>>) -> Seq<Seq<char>>
    decreases paths.len(),
{
    if paths.len() == 0 {
        seq![]
    } else {
        let before = targets_of(paths.drop_last(), suffixes);
        if is_target(paths.last(), suffixes) {
            before.push(paths.last())
        } else {
            before
        }
    }
}

/// Whether a path is a target.
fn target(path: &str, suffixes: &Vec<String>) -> (r: bool)
    ensures
        r == is_target(path@, views(suffixes@)),
{
    let mut k: usize = 0;
    while k < suffixes.len()
        invariant
            k <= suffixes.len(),
            forall|j: int|
                0 <= j < k ==> path@ != #[trigger] views(suffixes@)[j] && !has_suffix(
                    path@,
                    "."@ + views(suffixes@)[j],
                ),
        decreases suffixes.len() - k,
    {
        assert(views(suffixes@)[k as int] == suffixes@[k as int]@);
        if same_text(path, suffixes[k].as_str()) || ends_with(
            path,
            join2(".", suffixes[k].as_str()).as_str(),
        ) {
            return true;
        }
        k += 1;
    }
    false
}

/// The targets among the paths that take adapters.
pub fn resolve_target_paths(paths: &Vec<String>, suffixes: &Vec<String>) -> (r: Vec<String>)
    ensures
        views(r@) == targets_of(views(paths@), views(suffixes@)),
{
    let mut out: Vec<String> = Vec::new();
    let mut i: usize = 0;
    assert(views(paths@).take(0) =~= Seq::<Seq<char>>::empty());
    assert(views(out@) =~= Seq::<Seq<char>>::empty());
    while i < paths.len()
        invariant
            i <= paths.len(),
            views(out@) == targets_of(views(paths@).take(i as int), views(suffixes@)),
        decreases paths.len() - i,
    {
        let ghost before = views(out@);
        proof {
            assert(views(paths@).take(i + 1).drop_last() =~= views(paths@).take(i as int));
            assert(views(paths@)[i as int] == paths@[i as int]@);
        }
        if target(paths[i].as_str(), suffixes) {
            out.push(paths[i].clone());
            assert(views(out@) =~= before.push(paths@[i as int]@));
        }
        i += 1;
    }
    assert(views(paths@).take(i as int) =~= views(paths@));
    out
}

/// The suffixes that are trained: those of a request, or all projections of the attentions.
pub open spec fn suffixes_of(requested: Seq<Seq<char>>) -> Seq<Seq<char>> {
    if requested.len() == 0 {
        seq!["q"@, "k"@, "v"@, "o"@]
    } else {
        requested
    }
}

/// The suffixes that are trained.
pub fn target_suffixes(requested: &Vec<String>) -> (r: Vec<String>)
    ensures
        views(r@) == suffixes_of(views(requested@)),
{
    if requested.len() == 0 {
        let r: Vec<String> = vec![
            "q".to_owned(),
            "k".to_owned(),
            "v".to_owned(),
            "o".to_owned(),
        ];
        assert(views(r@) =~= seq!["q"@, "k"@, "v"@, "o"@]);
        return r;
    }
    let mut out: Vec<String> = Vec::new();
    let mut i: usize = 0;
    while i < requested.len()
        invariant
            i <= requested.len(),
            out.len() == i,
            forall|j: int| 0 <= j < i ==> (#[trigger] out@[j])@ == requested@[j]@,
        decreases requested.len() - i,
    {
        out.push(requested[i].clone());
        i += 1;
    }
    assert(views(out@) =~= views(requested@));
    out
}

/// The block of a target path, where it names one of the blocks.
pub open spec fn block_of(path: Seq<char>, n_blocks: int) -> Option<int> {
    let parts = split_text(path, '.');
    if parts.len() < 3 || parts[0] != "blocks"@ {
        None
    } else {
        match parsed_usize(parts[1]) {
            Some(i) => if i < n_blocks {
                Some(i as int)
            } else {
                None
            },
            None => None,
        }
    }
}

/// Whether a reference is that of a path: its place in the block, and the names of its factors.
pub open spec fn is_ref(r: BlockLoraRef, path: Seq<char>) -> bool {
    &&& views(r.local@) == split_text(path, '.').skip(2)
    &&& r.a_key@ == path + ".lora_a"@
    &&& r.b_key@ == path + ".lora_b"@
}

/// The paths of one block, in their order.
pub open spec fn paths_in_block(paths: Seq<Seq<char>>, n_blocks: int, b: int) -> Seq<Seq<char>>
    decreases paths.len(),
{
    if paths.len() == 0 {
        seq![]
    } else {
        let before = paths_in_block(paths.drop_last(), n_blocks, b);
        if block_of(paths.last(), n_blocks) == Some(b) {
            before.push(paths.last())
        } else {
            before
        }
    }
}

/// Whether references are those of paths, one for each.
pub open spec fn refs_match(refs: Seq<BlockLoraRef>, paths: Seq<Seq<char>>) -> bool {
    refs.len() == paths.len() && forall|k: int|
        0 <= k < refs.len() ==> is_ref(#[trigger] refs[k], paths[k])
}

/// The block of a target path and the reference to it.
fn block_ref(path: &str, n_blocks: usize) -> (r: Option<(usize, BlockLoraRef)>)
    ensures
        match r {
            Some(p) => block_of(path@, n_blocks as int) == Some(p.0 as int) && is_ref(p.1, path@),
            None => block_of(path@, n_blocks as int) is None,
        },
{
    let parts = split(path, '.');
    let ghost sv = views(parts@);
    if parts.len() < 3 {
        return None;
    }
    assert(sv[0] == parts@[0]@ && sv[1] == parts@[1]@);
    if !same_text(parts[0].as_str(), "blocks") {
        return None;
    }
    let i: usize = match parse_usize(parts[1].as_str()) {
        Some(i) => i,
        None => {
            return None;
        },
    };
    if i >= n_blocks {
        return None;
    }
    let mut local: Vec<String> = Vec::new();
    let mut k: usize = 2;
    while k < parts.len()
        invariant
            2 <= k <= parts.len(),
            local.len() == k - 2,
            forall|j: int| 0 <= j < k - 2 ==> (#[trigger] local@[j])@ == parts@[j + 2]@,
        decreases parts.len() - k,
    {
        local.push(parts[k].clone());
        k += 1;
    }
    assert(views(local@) =~= sv.skip(2));
    Some((i, BlockLoraRef { local, a_key: join2(path, ".lora_a"), b_key: join2(path, ".lora_b") }))
}

/// Groups target paths by the block they are in. Paths that are in none are left out.
pub fn group_block_targets(target_paths: &Vec<String>, n_blocks: usize) -> (r: Vec<Vec<BlockLoraRef>>)
    ensures
        r.len() == n_blocks,
        forall|b: int|
            0 <= b < n_blocks ==> refs_match(
                (#[trigger] r@[b])@,
                paths_in_block(views(target_paths@), n_blocks as int, b),
            ),
{
    let mut out: Vec<Vec<BlockLoraRef>> = Vec::new();
    let ghost all = views(target_paths@);
    let mut b: usize = 0;
    while b < n_blocks
        invariant
            b <= n_blocks,
            out.len() == b,
            forall|j: int| 0 <= j < b ==> (#[trigger] out@[j])@.len() == 0,
        decreases n_blocks - b,
    {
        out.push(Vec::new());
        b += 1;
    }
    let mut i: usize = 0;
    assert(all.take(0) =~= Seq::<Seq<char>>::empty());
    while i < target_paths.len()
        invariant
            i <= target_paths.len(),
            all == views(target_paths@),
            out.len() == n_blocks,
            forall|j: int|
                0 <= j < n_blocks ==> refs_match(
                    (#[trigger] out@[j])@,
                    paths_in_block(all.take(i as int), n_blocks as int, j),
                ),
        decreases target_paths.len() - i,
    {
        let ghost before = out@;
        proof {
            assert(all.take(i + 1).drop_last() =~= all.take(i as int));
            assert(all.take(i + 1).last() == target_paths@[i as int]@);
        }
        match block_ref(target_paths[i].as_str(), n_blocks) {
            Some(p) => {
                let (at, r) = p;
                let mut list: Vec<BlockLoraRef> = Vec::new();
                std::mem::swap(&mut list, &mut out[at]);
                list.push(r);
                std::mem::swap(&mut list, &mut out[at]);
                proof {
                    assert(out@[at as int]@ =~= before[at as int]@.push(r));
                    assert forall|j: int| 0 <= j < n_blocks implies refs_match(
                        (#[trigger] out@[j])@,
                        paths_in_block(all.take(i + 1), n_blocks as int, j),
                    ) by {
                        assert(refs_match(
                            before[j]@,
                            paths_in_block(all.take(i as int), n_blocks as int, j),
                        ));
                        if j != at {
                            assert(out@[j] == before[j]);
                        }
                    }
                }
            },
            None => {
                proof {
                    assert forall|j: int| 0 <= j < n_blocks implies refs_match(
                        (#[trigger] out@[j])@,
                        paths_in_block(all.take(i + 1), n_blocks as int, j),
                    ) by {
                        assert(refs_match(
                            before[j]@,
                            paths_in_block(all.take(i as int), n_blocks as int, j),
                        ));
                    }
                }
            },
        }
        i += 1;
    }
    assert(all.take(i as int) =~= all);
    out
}

/// Every target path of a block is grouped, once, under that block and no other.
pub proof fn law_grouping_is_exhaustive(paths: Seq<Seq<char>>, n_blocks: int, k: int, b: int)
    requires
        0 <= k < paths.len(),
        block_of(paths[k], n_blocks) == Some(b),
    ensures
        paths_in_block(paths, n_blocks, b).contains(paths[k]),
        forall|c: int|
            c != b ==> !(#[trigger] paths_in_block(paths, n_blocks, c)).contains(paths[k]),
    decreases paths.len(),
{
    let here = paths_in_block(paths, n_blocks, b);
    let head = paths_in_block(paths.drop_last(), n_blocks, b);
    if k == paths.len() - 1 {
        assert(here == head.push(paths[k]));
        assert(here[here.len() - 1] == paths[k]);
    } else {
        assert(paths.drop_last()[k] == paths[k]);
        law_grouping_is_exhaustive(paths.drop_last(), n_blocks, k, b);
        let j = choose|j: int| 0 <= j < head.len() && head[j] == paths[k];
        assert(here[j] == paths[k]);
    }
    assert forall|c: int| c != b implies !(#[trigger] paths_in_block(paths, n_blocks, c)).contains(
        paths[k],
    ) by {
        lemma_grouped_belong(paths, n_blocks, c);
        if paths_in_block(paths, n_blocks, c).contains(paths[k]) {
            let j = choose|j: int|
                0 <= j < paths_in_block(paths, n_blocks, c).len() && paths_in_block(
                    paths,
                    n_blocks,
                    c,
                )[j] == paths[k];
            assert(block_of(paths_in_block(paths, n_blocks, c)[j], n_blocks) == Some(c));
        }
    }
}

/// The paths that are grouped under a block are in it.
proof fn lemma_grouped_belong(paths: Seq<Seq<char>>, n_blocks: int, c: int)
    ensures
        forall|j: int|
            0 <= j < paths_in_block(paths, n_blocks, c).len() ==> block_of(
                #[trigger] paths_in_block(paths, n_blocks, c)[j],
                n_blocks,
            ) == Some(c),
    decreases paths.len(),
{
    if paths.len() > 0 {
        lemma_grouped_belong(paths.drop_last(), n_blocks, c);
    }
}

/// How the timestep of a training step is drawn.
#[derive(Debug, Clone, Copy, PartialEq, Eq, Structural)]
pub enum TimestepKind {
    /// Evenly.
    Uniform,
    /// The mean of an even and a centred draw.
    Weighted,
    /// Centred: a normal draw, squashed.
    Sigmoid,
}

/// Where the timestep of a training step is shifted.
#[derive(Debug, Clone, Copy, PartialEq, Eq, Structural)]
pub enum TimestepBias {
    /// Towards high noise: its square root.
    High,
    /// Towards low noise: its square.
    Low,
    /// Nowhere.
    Unbiased,
}

/// A setting without space around it, in lower case, with underscores for dashes.
pub open spec fn setting_text(s: Seq<char>) -> Seq<char> {
    replaced(ascii_lowered(trimmed(s)), "-"@, "_"@)
}

/// How the timestep is drawn that a setting asks for.
pub open spec fn timestep_kind_of(s: Seq<char>) -> TimestepKind {
    let t = setting_text(s);
    if t == "linear"@ || t == "uniform"@ {
        TimestepKind::Uniform
    } else if t == "weighted"@ {
        TimestepKind::Weighted
    } else {
        TimestepKind::Sigmoid
    }
}

/// How the timestep is drawn that a setting asks for.
pub fn timestep_kind(setting: &str) -> (r: TimestepKind)
    ensures
        r == timestep_kind_of(setting@),
{
    proof {
        reveal_strlit("-");
    }
    let t = replace(to_ascii_lower(trim(setting).as_str()).as_str(), "-", "_");
    let t = t.as_str();
    if same_text(t, "linear") || same_text(t, "uniform") {
        TimestepKind::Uniform
    } else if same_text(t, "weighted") {
        TimestepKind::Weighted
    } else {
        TimestepKind::Sigmoid
    }
}

/// The shift of the timestep that a setting asks for; spaces are underscores too.
pub open spec fn timestep_bias_of(s: Seq<char>) -> TimestepBias {
    let t = replaced(replaced(ascii_lowered(trimmed(s)), " "@, "_"@), "-"@, "_"@);
    if t == "high"@ || t == "high_noise"@ || t == "favor_high_noise"@ {
        TimestepBias::High
    } else if t == "low"@ || t == "low_noise"@ || t == "favor_low_noise"@ {
        TimestepBias::Low
    } else {
        TimestepBias::Unbiased
    }
}

/// The shift of the timestep that a setting asks for.
pub fn timestep_bias(setting: &str) -> (r: TimestepBias)
    ensures
        r == timestep_bias_of(setting@),
{
    proof {
        reveal_strlit("-");
        reveal_strlit(" ");
    }
    let lower = to_ascii_lower(trim(setting).as_str());
    let t = replace(replace(lower.as_str(), " ", "_").as_str(), "-", "_");
    let t = t.as_str();
    if same_text(t, "high") || same_text(t, "high_noise") || same_text(t, "favor_high_noise") {
        TimestepBias::High
    } else if same_text(t, "low") || same_text(t, "low_noise") || same_text(t, "favor_low_noise") {
        TimestepBias::Low
    } else {
        TimestepBias::Unbiased
    }
}

/// Whether the loss is the mean of absolute differences, not of squares.
pub open spec fn absolute_loss_of(loss_type: Seq<char>) -> bool {
    ascii_lowered(loss_type) == "mae"@ || ascii_lowered(loss_type) == "l1"@
}

/// Whether the loss is the mean of absolute differences, not of squares.
pub fn absolute_loss(loss_type: &str) -> (r: bool)
    ensures
        r == absolute_loss_of(loss_type@),
{
    let lt = to_ascii_lower(loss_type);
    same_text(lt.as_str(), "mae") || same_text(lt.as_str(), "l1")
}

/// Whether an optimizer takes no weight decay.
pub fn without_weight_decay(optimizer: &str) -> (r: bool)
    ensures
        r == (ascii_lowered(optimizer@) == ascii_lowered("adam"@)),
{
    let a = to_ascii_lower(optimizer);
    let b = to_ascii_lower("adam");
    same_text(a.as_str(), b.as_str())
}

/// What decides how a run goes.
#[derive(Debug, Clone, Copy, PartialEq, Eq, Structural)]
pub struct TrainSettings {
    pub steps: u32,
    /// Gradients of so many steps of an expert make an update; zero counts as one.
    pub gradient_accumulation: u32,
    /// A checkpoint every so many steps; none for zero.
    pub save_every: u32,
    /// Previews every so many steps; none for zero.
    pub sample_every: u32,
    /// How many prompts are previewed.
    pub previews: usize,
    pub seed: u64,
    /// How many training items there are.
    pub items: usize,
    /// There are two experts.
    pub dual: bool,
}

/// The expert that takes a step, steps counting from one: of two experts the high-noise one the odd
/// steps and the low-noise one the even ones.
pub open spec fn expert_of(dual: bool, step: int) -> int {
    if dual && step % 2 == 1 {
        1
    } else {
        0
    }
}

/// How many of the first `n` steps an expert takes.
pub open spec fn micro_of(dual: bool, e: int, n: nat) -> nat
    decreases n,
{
    if n == 0 {
        0
    } else {
        micro_of(dual, e, (n - 1) as nat) + if expert_of(dual, n as int) == e {
            1nat
        } else {
            0nat
        }
    }
}

/// So many steps of an expert make an update.
pub open spec fn accum_of(s: TrainSettings) -> int {
    at_least_one(s.gradient_accumulation as int)
}

/// Whether a step ends with an update: its expert has gradients enough, or it is the last.
pub open spec fn updates_at(s: TrainSettings, n: nat) -> bool {
    micro_of(s.dual, expert_of(s.dual, n as int), n) as int % accum_of(s) == 0 || n == s.steps
}

/// How many updates an expert has after the first `n` steps.
pub open spec fn updates_of(s: TrainSettings, e: int, n: nat) -> nat
    decreases n,
{
    if n == 0 {
        0
    } else {
        updates_of(s, e, (n - 1) as nat) + if expert_of(s.dual, n as int) == e && updates_at(s, n) {
            1nat
        } else {
            0nat
        }
    }
}

/// Whether a checkpoint is written after a step: every so many steps, but not after the last, which is
/// saved anyway.
pub open spec fn checkpoint_at(s: TrainSettings, n: int) -> bool {
    s.save_every > 0 && n % (s.save_every as int) == 0 && n != s.steps
}

/// Whether previews are made after a step.
pub open spec fn previews_at(s: TrainSettings, n: int) -> bool {
    s.sample_every > 0 && s.previews > 0 && n % (s.sample_every as int) == 0
}

/// How many seeds there are.
#[verifier::inline]
pub open spec fn seeds() -> int {
    0x1_0000_0000_0000_0000
}

/// The seed of a step's timestep.
pub open spec fn timestep_seed(seed: int, n: int) -> int {
    (seed * 0x9E37_79B9 % seeds() + n) % seeds()
}

/// The seed of a step's noise.
pub open spec fn noise_seed(seed: int, n: int) -> int {
    (seed + n) % seeds() * 2 % seeds() + 1
}

/// The seed of an expert's first factors.
pub open spec fn factor_seed(seed: int, e: int) -> int {
    (seed + e * 0x9E37_79B9) % seeds()
}

/// The seed of a preview's noise.
pub open spec fn preview_seed(seed: int, n: int, i: int) -> int {
    ((seed + n) % seeds() * 0xA24B_AED4_4AC9_5F2D % seeds() + i) % seeds()
}

/// What one training step does.
#[derive(Debug, Clone, Copy, PartialEq, Eq, Structural)]
pub struct TrainStep {
    pub step: u32,
    pub expert: usize,
    pub item: usize,
    pub timestep_seed: u64,
    pub noise_seed: u64,
    /// The number of the update that follows, where one does.
    pub update: Option<u32>,
    pub checkpoint: bool,
    pub previews: bool,
}

/// Whether a step is what the settings say of step `n`.
pub open spec fn is_step(t: TrainStep, s: TrainSettings, n: nat) -> bool {
    &&& t.step == n
    &&& t.expert == expert_of(s.dual, n as int)
    &&& t.item == (n - 1) % (s.items as int)
    &&& t.timestep_seed == timestep_seed(s.seed as int, n as int)
    &&& t.noise_seed == noise_seed(s.seed as int, n as int)
    &&& match t.update {
        Some(k) => updates_at(s, n) && k == updates_of(s, expert_of(s.dual, n as int), (n - 1) as nat),
        None => !updates_at(s, n),
    }
    &&& t.checkpoint == checkpoint_at(s, n as int)
    &&& t.previews == previews_at(s, n as int)
}

/// A run: how far it is, and for the low-noise and the high-noise expert how many steps and updates it
/// has.
#[derive(Debug)]
pub struct TrainLoop {
    settings: TrainSettings,
    done: u32,
    micro: (u32, u32),
    updates: (u32, u32),
}

/// The wrapped product and sum of two numbers.
fn mix(a: u64, b: u64, c: u64) -> (r: u64)
    ensures
        r == (a * b % seeds() + c) % seeds(),
{
    a.wrapping_mul(b).wrapping_add(c)
}

/// The seed of a step's noise.
fn noise_of(seed: u64, step: u32) -> (r: u64)
    ensures
        r == noise_seed(seed as int, step as int),
{
    let even: u64 = seed.wrapping_add(step as u64).wrapping_mul(2);
    assert(even % 2 == 0);
    even + 1
}

/// The seed of an expert's first factors.
pub fn expert_seed(seed: u64, expert: usize) -> (r: u64)
    requires
        expert < 2,
    ensures
        r == factor_seed(seed as int, expert as int),
{
    seed.wrapping_add(expert as u64 * 0x9E37_79B9)
}

/// The seed of the noise of preview `i` after a step.
pub fn sample_seed(seed: u64, step: u32, i: usize) -> (r: u64)
    ensures
        r == preview_seed(seed as int, step as int, i as int),
{
    mix(seed.wrapping_add(step as u64), 0xA24B_AED4_4AC9_5F2D, i as u64)
}

/// The seed of the second draw of a weighted timestep.
pub fn second_seed(seed: u64) -> (r: u64)
    ensures
        r == seed ^ 0x9E37_79B9u64,
{
    seed ^ 0x9E37_79B9
}

impl TrainLoop {
    /// The settings of the run.
    pub closed spec fn settings(&self) -> TrainSettings {
        self.settings
    }

    /// How many steps are done.
    pub closed spec fn done(&self) -> nat {
        self.done as nat
    }

    /// The counts are those of the steps that are done.
    pub closed spec fn wf(&self) -> bool {
        let s = self.settings;
        &&& s.items > 0
        &&& self.done <= s.steps
        &&& self.micro.0 == micro_of(s.dual, 0, self.done as nat)
        &&& self.micro.1 == micro_of(s.dual, 1, self.done as nat)
        &&& self.updates.0 == updates_of(s, 0, self.done as nat)
        &&& self.updates.1 == updates_of(s, 1, self.done as nat)
        &&& self.micro.0 <= self.done
        &&& self.micro.1 <= self.done
        &&& self.updates.0 <= self.done
        &&& self.updates.1 <= self.done
    }

    /// A run of which nothing is done.
    pub fn new(settings: TrainSettings) -> (r: TrainLoop)
        requires
            settings.items > 0,
        ensures
            r.wf(),
            r.settings() == settings,
            r.done() == 0,
    {
        TrainLoop { settings, done: 0, micro: (0, 0), updates: (0, 0) }
    }

    /// Plans the next step and counts it as done. A run ends after its last step, and before a step
    /// where the caller asked to stop.
    pub fn next_step(&mut self, cancelled: bool) -> (r: Option<TrainStep>)
        requires
            old(self).wf(),
        ensures
            final(self).wf(),
            final(self).settings() == old(self).settings(),
            match r {
                Some(t) => {
                    &&& !cancelled
                    &&& old(self).done() < old(self).settings().steps
                    &&& final(self).done() == old(self).done() + 1
                    &&& is_step(t, old(self).settings(), final(self).done())
                },
                None => {
                    &&& cancelled || old(self).done() == old(self).settings().steps
                    &&& final(self).done() == old(self).done()
                },
            },
    {
        let s: TrainSettings = self.settings;
        if cancelled || self.done >= s.steps {
            return None;
        }
        let step: u32 = self.done + 1;
        let ghost n = step as nat;
        let expert: usize = if s.dual && step % 2 == 1 {
            1
        } else {
            0
        };
        let accum: u32 = if s.gradient_accumulation > 1 {
            s.gradient_accumulation
        } else {
            1
        };
        let micro: u32 = if expert == 1 {
            self.micro.1 + 1
        } else {
            self.micro.0 + 1
        };
        let fires = micro % accum == 0 || step == s.steps;
        let count: u32 = if expert == 1 {
            self.updates.1
        } else {
            self.updates.0
        };
        let update: Option<u32> = if fires {
            Some(count)
        } else {
            None
        };
        let after: u32 = if fires {
            count + 1
        } else {
            count
        };
        assert(fires == updates_at(s, n));
        if expert == 1 {
            self.micro = (self.micro.0, micro);
            self.updates = (self.updates.0, after);
        } else {
            self.micro = (micro, self.micro.1);
            self.updates = (after, self.updates.1);
        }
        self.done = step;
        Some(
            TrainStep {
                step,
                expert,
                item: (step - 1) as usize % s.items,
                timestep_seed: mix(s.seed, 0x9E37_79B9, step as u64),
                noise_seed: noise_of(s.seed, step),
                update,
                checkpoint: s.save_every > 0 && step % s.save_every == 0 && step != s.steps,
                previews: s.sample_every > 0 && s.previews > 0 && step % s.sample_every == 0,
            },
        )
    }

    /// Ends the run: with no step done there is nothing to save, and it counts as stopped.
    pub fn finish(&self) -> (r: Result<u32, Error>)
        requires
            self.wf(),
        ensures
            match r {
                Ok(n) => n == self.done() && n > 0,
                Err(e) => e is Canceled && self.done() == 0,
            },
    {
        if self.done == 0 {
            return Err(Error::Canceled);
        }
        Ok(self.done)
    }
}

/// The experts alternate: of `n` steps the high-noise expert takes the odd half and the low-noise expert
/// the even half. An expert alone takes all.
pub proof fn law_experts_alternate(n: nat)
    ensures
        micro_of(true, 1, n) == (n + 1) / 2,
        micro_of(true, 0, n) == n / 2,
        micro_of(false, 0, n) == n,
        micro_of(false, 1, n) == 0,
    decreases n,
{
    if n > 0 {
        law_experts_alternate((n - 1) as nat);
    }
}

/// Before the last step, an expert has an update for every so many steps it took.
pub proof fn law_updates_follow_accumulation(s: TrainSettings, e: int, n: nat)
    requires
        n < s.steps,
    ensures
        updates_of(s, e, n) as int == micro_of(s.dual, e, n) as int / accum_of(s),
    decreases n,
{
    let a = accum_of(s);
    if n == 0 {
        assert(0int / a == 0) by (nonlinear_arith)
            requires
                a > 0,
        ;
    } else {
        law_updates_follow_accumulation(s, e, (n - 1) as nat);
        let m = micro_of(s.dual, e, (n - 1) as nat) as int;
        if expert_of(s.dual, n as int) == e {
            assert((m + 1) % a == 0 ==> (m + 1) / a == m / a + 1) by (nonlinear_arith)
                requires
                    a > 0,
                    m >= 0,
            ;
            assert((m + 1) % a != 0 ==> (m + 1) / a == m / a) by (nonlinear_arith)
                requires
                    a > 0,
                    m >= 0,
            ;
        }
    }
}

/// The last step always ends with an update, and never with a checkpoint.
pub proof fn law_last_step_updates(s: TrainSettings)
    requires
        s.steps > 0,
    ensures
        updates_at(s, s.steps as nat),
        !checkpoint_at(s, s.steps as int),
{
}

/// The items take turns: a step has the item of the step so many items later, and in as many steps as
/// there are items each has its turn.
pub proof fn law_items_take_turns(items: int, n: int, k: int)
    requires
        items > 0,
        n >= 1,
        0 <= k < items,
    ensures
        (n + items - 1) % items == (n - 1) % items,
        exists|m: int| n <= m < n + items && #[trigger] ((m - 1) % items) == k,
{
    let r = (n - 1) % items;
    assert((n + items - 1) % items == (n - 1) % items) by (nonlinear_arith)
        requires
            items > 0,
            n >= 1,
    ;
    let m = if k >= r {
        n + (k - r)
    } else {
        n + items + (k - r)
    };
    assert((m - 1) % items == k && 0 <= r < items) by (nonlinear_arith)
        requires
            items > 0,
            n >= 1,
            0 <= k < items,
            r == (n - 1) % items,
            m == if k >= r {
                n + (k - r)
            } else {
                n + items + (k - r)
            },
    ;
}

/// No two steps of a run draw the same noise, and the two experts start from different factors.
pub proof fn law_seeds_differ(seed: u64, n: u32, m: u32)
    requires
        n != m,
    ensures
        noise_seed(seed as int, n as int) != noise_seed(seed as int, m as int),
        factor_seed(seed as int, 0) != factor_seed(seed as int, 1),
{
    let (s, i, j, all) = (seed as int, n as int, m as int, seeds());
    let a = (s + i) % all;
    let b = (s + j) % all;
    assert(a == s + i || a == s + i - all);
    assert(b == s + j || b == s + j - all);
    let c = a * 2 % all;
    let d = b * 2 % all;
    assert(c == a * 2 || c == a * 2 - all);
    assert(d == b * 2 || d == b * 2 - all);
    assert(c != d);
    let step: int = 0x9E37_79B9;
    assert(factor_seed(s, 0) == s);
    assert((s + step) % all == s + step || (s + step) % all == s + step - all);
}

/// The noise levels that an expert is trained on.
#[derive(Debug, Clone, Copy, PartialEq, Eq, Structural)]
pub enum Band {
    /// All.
    Full,
    /// Those below the boundary.
    BelowBoundary,
    /// Those from the boundary.
    FromBoundary,
}

/// How one expert is trained.
#[derive(Debug, Clone, Copy, PartialEq, Eq, Structural)]
pub struct ExpertPlan {
    pub band: Band,
    pub seed: u64,
    /// How many steps its learning rate is laid out for.
    pub micro_steps: u32,
    /// The attention is recomputed by segments, which a recomputation by blocks makes needless.
    pub sdpa_checkpoint: bool,
}

/// The noise levels of an expert.
pub open spec fn band_of(dual: bool, e: int) -> Band {
    if !dual {
        Band::Full
    } else if e == 0 {
        Band::BelowBoundary
    } else {
        Band::FromBoundary
    }
}

/// The suffix of an expert's files.
pub open spec fn suffix_of(dual: bool, e: int) -> Seq<char> {
    if !dual {
        ""@
    } else if e == 0 {
        "low_noise"@
    } else {
        "high_noise"@
    }
}

/// The suffix of an expert's files.
pub fn expert_suffix(dual: bool, expert: usize) -> (r: &'static str)
    ensures
        r@ == suffix_of(dual, expert as int),
{
    if !dual {
        ""
    } else if expert == 0 {
        "low_noise"
    } else {
        "high_noise"
    }
}

/// Whether blocks are recomputed in place of kept: where it is asked for, and the adapter is a low-rank
/// one.
pub fn use_checkpoint(gradient_checkpointing: bool, network: NetworkType) -> (r: bool)
    ensures
        r == (gradient_checkpointing && network == NetworkType::Lora),
{
    gradient_checkpointing && network == NetworkType::Lora
}

/// What no target is answered.
pub open spec fn no_targets(id: Seq<char>) -> Seq<char> {
    id + " trainer: no LoRA targets resolved (check lora_target_modules)"@
}

/// Whether an expert is trained as planned.
pub open spec fn is_expert_plan(
    p: ExpertPlan,
    s: TrainSettings,
    expert: int,
    checkpointing: bool,
) -> bool {
    &&& p.band == band_of(s.dual, expert)
    &&& p.seed == factor_seed(s.seed as int, expert)
    &&& p.micro_steps == at_least_one(
        s.steps as int / if s.dual {
            2
        } else {
            1
        },
    )
    &&& p.sdpa_checkpoint == !checkpointing
}

/// Two experts share the steps, each half of them but at least one; a single one has them all. What one
/// recomputation makes needless the other does not do.
pub proof fn law_experts_share_the_steps(
    p: ExpertPlan,
    s: TrainSettings,
    expert: int,
    checkpointing: bool,
)
    requires
        is_expert_plan(p, s, expert, checkpointing),
    ensures
        p.micro_steps >= 1,
        s.dual && s.steps >= 2 ==> s.steps - 1 <= 2 * p.micro_steps <= s.steps,
        !s.dual && s.steps >= 1 ==> p.micro_steps == s.steps,
        p.sdpa_checkpoint != checkpointing,
        !s.dual ==> p.band == Band::Full,
        s.dual && expert == 0 ==> p.band == Band::BelowBoundary,
        s.dual && expert == 1 ==> p.band == Band::FromBoundary,
{
}

/// Plans how an expert is trained. Without a target there is nothing to train.
pub fn plan_expert(
    id: &str,
    targets: &Vec<String>,
    s: &TrainSettings,
    expert: usize,
    checkpointing: bool,
) -> (r: Result<ExpertPlan, Error>)
    requires
        expert < 2,
    ensures
        match r {
            Ok(p) => {
                &&& targets@.len() > 0
                &&& p.band == band_of(s.dual, expert as int)
                &&& p.seed == factor_seed(s.seed as int, expert as int)
                &&& p.micro_steps == at_least_one(
                    s.steps as int / if s.dual {
                        2
                    } else {
                        1
                    },
                )
                &&& p.sdpa_checkpoint == !checkpointing
                &&& is_expert_plan(p, *s, expert as int, checkpointing)
            },
            Err(e) => targets@.len() == 0 && e is Msg && e.text() == no_targets(id@),
        },
{
    if targets.len() == 0 {
        return Err(
            Error::Msg(
                join2(id, " trainer: no LoRA targets resolved (check lora_target_modules)"),
            ),
        );
    }
    let share: u32 = if s.dual {
        s.steps / 2
    } else {
        s.steps
    };
    Ok(
        ExpertPlan {
            band: if !s.dual {
                Band::Full
            } else if expert == 0 {
                Band::BelowBoundary
            } else {
                Band::FromBoundary
            },
            seed: expert_seed(s.seed, expert),
            micro_steps: if share > 1 {
                share
            } else {
                1
            },
            sdpa_checkpoint: !checkpointing,
        },
    )
}

/// At most so many prompts are previewed.
pub const SAMPLE_PROMPT_CAP: usize = 4;

/// Whether so many prompts are previewed.
pub open spec fn is_preview_count(r: int, sample_every: int, prompts: int, cancelled: bool) -> bool {
    r == if sample_every > 0 && !cancelled {
        smaller(prompts, 4)
    } else {
        0
    }
}

/// Of the prompts no more than four are previewed, and all where there are no more. A run without a cadence
/// previews none, and neither does one that is to stop.
pub proof fn law_few_prompts_are_previewed(r: int, sample_every: int, prompts: int, cancelled: bool)
    requires
        sample_every >= 0,
        prompts >= 0,
        is_preview_count(r, sample_every, prompts, cancelled),
    ensures
        0 <= r <= prompts,
        r <= 4,
        cancelled || sample_every == 0 ==> r == 0,
        !cancelled && sample_every > 0 && prompts <= 4 ==> r == prompts,
        !cancelled && sample_every > 0 && prompts >= 4 ==> r == 4,
{
}

/// How many prompts are previewed: none without a cadence, or where the caller asked to stop.
pub fn preview_count(sample_every: u32, prompts: usize, cancelled: bool) -> (r: usize)
    ensures
        r == if sample_every > 0 && !cancelled {
            smaller(prompts as int, 4)
        } else {
            0
        },
        is_preview_count(r as int, sample_every as int, prompts as int, cancelled),
{
    if sample_every > 0 && !cancelled {
        if prompts <= SAMPLE_PROMPT_CAP {
            prompts
        } else {
            SAMPLE_PROMPT_CAP
        }
    } else {
        0
    }
}

/// How a preview is denoised: by which loop, by which solver, and in how many steps. It is not guided.
#[derive(Debug, Clone, Copy, PartialEq, Eq, Structural)]
pub struct SamplePlan {
    /// Both experts take part and change over at the boundary.
    pub dual: bool,
    pub kind: SolverKind,
    pub steps: usize,
}

/// Plans a preview, which has at least one step.
pub fn plan_sample(experts: usize, steps: usize) -> (r: SamplePlan)
    ensures
        r.dual == (experts == 2),
        r.kind == SolverKind::UniPC,
        r.steps == larger(steps as int, 1),
{
    SamplePlan {
        dual: experts == 2,
        kind: SolverKind::UniPC,
        steps: if steps > 1 {
            steps
        } else {
            1
        },
    }
}

/// The first frame of a preview.
pub fn preview_frame(frames: Vec<Image>) -> (r: Result<Image, Error>)
    ensures
        match r {
            Ok(image) => frames@.len() > 0 && image == frames@[0],
            Err(e) => frames@.len() == 0 && e is Msg && e.text()
                == "wan trainer: preview produced no frames"@,
        },
{
    let mut frames = frames;
    if frames.len() == 0 {
        return Err(Error::Msg("wan trainer: preview produced no frames".to_owned()));
    }
    Ok(frames.remove(0))
}

/// Decides whether a run goes on once the items are encoded: without one it does not, because the caller
/// asked to stop or because there is none.
pub fn check_cached(id: &str, cached: usize, cancelled: bool) -> (r: Result<(), Error>)
    ensures
        match r {
            Ok(()) => cached > 0,
            Err(e) => {
                &&& cached == 0
                &&& cancelled ==> e is Canceled
                &&& !cancelled ==> e is Msg && e.text() == id@ + " trainer: no usable dataset items"@
            },
        },
{
    if cached == 0 {
        if cancelled {
            return Err(Error::Canceled);
        }
        return Err(Error::Msg(join2(id, " trainer: no usable dataset items")));
    }
    Ok(())
}

/// The files of a save, one for each expert.
pub fn save_names(stem: &str, ext: &str, dual: bool, step: Option<u32>) -> (r: Vec<String>)
    ensures
        views(r@) == Seq::new(
            if dual {
                2
            } else {
                1
            },
            |e: int| filename_of(stem@, ext@, suffix_of(dual, e), step),
        ),
{
    let mut out: Vec<String> = Vec::new();
    out.push(expert_filename(stem, ext, expert_suffix(dual, 0), step));
    if dual {
        out.push(expert_filename(stem, ext, expert_suffix(dual, 1), step));
    }
    assert(views(out@) =~= Seq::new(
        if dual {
            2
        } else {
            1
        },
        |e: int| filename_of(stem@, ext@, suffix_of(dual, e), step),
    ));
    out
}

/// The file that stands for a save: the high-noise expert's, or the only one.
pub fn primary_file(dual: bool) -> (r: usize)
    ensures
        r < if dual {
            2int
        } else {
            1
        },
        suffix_of(dual, r as int) == if dual {
            "high_noise"@
        } else {
            ""@
        },
{
    if dual {
        1
    } else {
        0
    }
}

/// The files of two experts have different names.
pub proof fn law_expert_files_differ(stem: Seq<char>, ext: Seq<char>, step: Option<u32>)
    ensures
        filename_of(stem, ext, suffix_of(true, 0), step) != filename_of(
            stem,
            ext,
            suffix_of(true, 1),
            step,
        ),
{
    reveal_strlit("low_noise");
    reveal_strlit("high_noise");
    reveal_strlit(".");
    let a = filename_of(stem, ext, suffix_of(true, 0), step);
    let b = filename_of(stem, ext, suffix_of(true, 1), step);
    assert(a.len() != b.len());
}

/// What a training step does, in terms of its number. With two experts the odd steps train the high-noise
/// expert, which is the second, and the even steps the low-noise one; an expert alone is the first. The items
/// take turns. The expert's factors are updated when it has taken a whole number of times as many steps as
/// gradients are gathered, and at the last step; updates are numbered by the expert, from zero. A checkpoint
/// and previews come every so many steps, a checkpoint not after the last. The seeds of the timestep and of
/// the noise go by one and by two from step to step.
pub proof fn law_training_step(t: TrainStep, s: TrainSettings, n: nat)
    requires
        s.items > 0,
        1 <= n <= s.steps,
        is_step(t, s, n),
    ensures
        t.step == n,
        t.expert == if s.dual {
            n % 2
        } else {
            0
        },
        t.item < s.items,
        (n - 1 - t.item) % (s.items as int) == 0,
        ({
            let taken = if s.dual {
                (n + n % 2) / 2
            } else {
                n
            };
            let gathered = if s.gradient_accumulation == 0 {
                1int
            } else {
                s.gradient_accumulation as int
            };
            &&& t.update is Some <==> taken as int % gathered == 0 || n == s.steps
            &&& t.update matches Some(k) ==> k == (taken - 1) / gathered
        }),
        t.checkpoint <==> n < s.steps && s.save_every > 0 && n as int % (s.save_every as int) == 0,
        t.previews <==> s.previews > 0 && s.sample_every > 0 && n as int % (s.sample_every as int)
            == 0,
        t.timestep_seed == (s.seed * 0x9E37_79B9 + n) % 0x1_0000_0000_0000_0000,
        t.noise_seed == (2 * (s.seed + n) + 1) % 0x1_0000_0000_0000_0000,
{
    lemma_updates(s, n);
    lemma_turn((n - 1) as int, s.items as int);
    lemma_wrapped(s.seed * 0x9E37_79B9, n as int);
    lemma_odd(s.seed + n);
}

/// When an expert's factors are updated, and how often they were before.
proof fn lemma_updates(s: TrainSettings, n: nat)
    requires
        1 <= n <= s.steps,
    ensures
        ({
            let e = expert_of(s.dual, n as int);
            let taken = if s.dual {
                (n + n % 2) / 2
            } else {
                n
            };
            &&& e == if s.dual {
                n % 2
            } else {
                0
            }
            &&& micro_of(s.dual, e, n) == taken
            &&& updates_of(s, e, (n - 1) as nat) as int == (taken - 1) / accum_of(s)
        }),
{
    let e = expert_of(s.dual, n as int);
    let m = (n - 1) as nat;
    law_experts_alternate(n);
    law_experts_alternate(m);
    law_updates_follow_accumulation(s, e, m);
}

/// Whose turn it is.
proof fn lemma_turn(k: int, items: int)
    requires
        items > 0,
        k >= 0,
    ensures
        0 <= k % items < items,
        (k - k % items) % items == 0,
{
    assert(0 <= k % items < items && (k - k % items) % items == 0) by (nonlinear_arith)
        requires
            items > 0,
            k >= 0,
    ;
}

/// A wrapped number wraps again as the number does.
proof fn lemma_wrapped(p: int, n: int)
    ensures
        (p % 0x1_0000_0000_0000_0000 + n) % 0x1_0000_0000_0000_0000 == (p + n)
            % 0x1_0000_0000_0000_0000,
{
}

/// Twice a wrapped number and one more is what twice the number and one more wraps to.
proof fn lemma_odd(q: int)
    requires
        0 <= q < 0x2_0000_0000_0000_0000,
    ensures
        q % 0x1_0000_0000_0000_0000 * 2 % 0x1_0000_0000_0000_0000 + 1 == (2 * q + 1)
            % 0x1_0000_0000_0000_0000,
{
    let all = 0x1_0000_0000_0000_0000int;
    let a = if q < all {
        q
    } else {
        q - all
    };
    assert(q % all == a);
    let b = if 2 * a < all {
        2 * a
    } else {
        2 * a - all
    };
    assert(2 * a % all == b);
    let k = (2 * q - b) / all;
    assert(2 * q + 1 == all * k + (b + 1));
    vstd::arithmetic::div_mod::lemma_mod_multiples_vanish(k, b + 1, all);
    assert((b + 1) % all == b + 1);
}

/// The experts' first factors are drawn from seeds a fixed distance apart, and the previews of a step from
/// seeds in a row.
pub proof fn law_seeds_are_spaced(seed: u64, n: u32, i: u32)
    ensures
        factor_seed(seed as int, 0) == seed,
        factor_seed(seed as int, 1) == (seed + 0x9E37_79B9) % 0x1_0000_0000_0000_0000,
        preview_seed(seed as int, n as int, i as int) == (preview_seed(seed as int, n as int, 0) + i)
            % 0x1_0000_0000_0000_0000,
        preview_seed(seed as int, n as int, 0) == ((seed + n) * 0xA24B_AED4_4AC9_5F2D)
            % 0x1_0000_0000_0000_0000,
{
    let all = seeds();
    let k: int = 0xA24B_AED4_4AC9_5F2D;
    let q = seed + n;
    let a = q % all;
    assert(q == a || q == a + all);
    assert(a * k % all == q * k % all) by {
        if q == a + all {
            assert(q * k == a * k + k * all) by (nonlinear_arith)
                requires
                    q == a + all,
            ;
            let x = a * k;
            assert(k * all == all * k) by (nonlinear_arith);
            vstd::arithmetic::div_mod::lemma_mod_multiples_vanish(k, x, all);
        }
    }
    let b = a * k % all;
    assert((b + i) % all == (b % all + i) % all);
}

/// A dense first step takes, at 40 layers of 5120 channels, 27 GiB for every expert, 10.3 GiB for the
/// forward, and 0.0177 GiB for every token. What an expert takes grows as the square of the channels, what
/// the forward takes as the channels, and both as the layers.
pub proof fn law_projection_is_the_measured_one(
    tokens: int,
    dim: int,
    n_layers: int,
    n_experts: int,
)
    ensures
        10_000 * peak_units(tokens, 5120, 40, n_experts) == 10_485_760_000_000 * (270_000 * n_experts
            + (103_000 + 177 * tokens)),
        peak_units(tokens, dim, n_layers, n_experts + 1) == peak_units(
            tokens,
            dim,
            n_layers,
            n_experts,
        ) + 270_000 * (dim * dim * n_layers),
        peak_units(tokens + 1, dim, n_layers, n_experts) == peak_units(
            tokens,
            dim,
            n_layers,
            n_experts,
        ) + 906_240 * (dim * n_layers),
{
    let (square, line) = (dim * dim * n_layers, dim * n_layers);
    assert((n_experts + 1) * square == n_experts * square + square) by (nonlinear_arith);
    let k = 103_000 + 177 * tokens;
    assert((k + 177) * line == k * line + 177 * line) by (nonlinear_arith);
    assert(103_000 + 177 * (tokens + 1) == k + 177);
    let rest = 270_000 * (n_experts * square);
    assert(peak_units(tokens + 1, dim, n_layers, n_experts) == rest + 5120 * ((k + 177) * line));
    assert(peak_units(tokens, dim, n_layers, n_experts) == rest + 5120 * (k * line));
    assert(5120int * 5120 * 40 == 1_048_576_000) by (nonlinear_arith);
    assert(n_experts * 1_048_576_000 == 1_048_576_000 * n_experts) by (nonlinear_arith);
    assert(k * (5120 * 40) == 204_800 * k) by (nonlinear_arith);
}

/// Of the memory, fifteen hundredths are left alone.
pub proof fn law_training_keeps_a_reserve(units: int, limit: int)
    ensures
        peak_fits(units, limit) <==> 21_474_836_480 * units <= 178_257_920_000_000 * limit,
{
    assert(100 * GIB == 107_374_182_400);
    assert(units * (100 * GIB) == units * 107_374_182_400);
    assert((85 * limit) * PEAK_UNITS == (85 * limit) * 10_485_760_000_000);
}

/// An image whose edge is a whole number of patches has a token for every patch of its latent, which has a
/// cell for every eight pixels.
pub proof fn law_image_has_a_token_for_every_patch(patch: (usize, usize, usize), rows: int, columns: int)
    requires
        patch.1 > 0,
        patch.2 > 0,
        rows > 0,
        columns > 0,
        patch.1 * rows == patch.2 * columns,
    ensures
        tokens_of(patch, 8 * (patch.1 * rows)) == rows * columns,
{
    let (p, q) = (patch.1 as int, patch.2 as int);
    let le = p * rows;
    assert(le >= 1 && le / p == rows) by (nonlinear_arith)
        requires
            p > 0,
            rows > 0,
            le == p * rows,
    ;
    assert(le / q == columns) by (nonlinear_arith)
        requires
            q > 0,
            le == q * columns,
    ;
}

/// The name of an expert's file is made of the stem, the step where it is a checkpoint, the expert and the
/// ending, in this order. The step has six digits or more, and they stand for it.
pub proof fn law_file_name_spells_step_and_expert(
    stem: Seq<char>,
    ext: Seq<char>,
    suffix: Seq<char>,
    step: u32,
)
    ensures
        filename_of(stem, ext, seq![], None) == stem + ext,
        suffix.len() > 0 ==> filename_of(stem, ext, suffix, None) == stem + "."@ + suffix + ext,
        exists|digits: Seq<char>|
            {
                &&& digits.len() >= 6
                &&& digits.len() > 6 ==> digits[0] != '0'
                &&& crate::text::digits_value(digits) == step
                &&& filename_of(stem, ext, seq![], Some(step)) == stem + "-step"@ + digits + ext
                &&& suffix.len() > 0 ==> filename_of(stem, ext, suffix, Some(step)) == stem
                    + "-step"@ + #[trigger] (digits + seq![]) + "."@ + suffix + ext
            },
{
    let d = decimal(step as nat);
    let digits = zero_padded(d, 6);
    crate::text::lemma_decimal(step as nat);
    lemma_padded_value(d, 6);
    if d.len() >= 6 {
        lemma_leading_digit(step as nat);
    }
    assert(digits + seq![] =~= digits);
    assert(stem + "-step"@ + (digits + seq![]) =~= stem + "-step"@ + digits);
}

/// Zeros in front do not change what digits stand for.
proof fn lemma_padded_value(d: Seq<char>, width: nat)
    ensures
        crate::text::digits_value(zero_padded(d, width)) == crate::text::digits_value(d),
    decreases d.len(),
{
    let p = zero_padded(d, width);
    if d.len() < width {
        let zeros = Seq::new((width - d.len()) as nat, |i: int| '0');
        lemma_zeros_in_front(zeros, d);
    }
}

/// Zeros in front of digits.
proof fn lemma_zeros_in_front(zeros: Seq<char>, d: Seq<char>)
    requires
        forall|i: int| 0 <= i < zeros.len() ==> zeros[i] == '0',
    ensures
        crate::text::digits_value(zeros + d) == crate::text::digits_value(d),
    decreases zeros.len() + d.len(),
{
    let s = zeros + d;
    if d.len() > 0 {
        assert(s.drop_last() =~= zeros + d.drop_last());
        assert(s.last() == d.last());
        lemma_zeros_in_front(zeros, d.drop_last());
    } else if zeros.len() > 0 {
        let none = Seq::<char>::empty();
        assert(s =~= zeros);
        assert(d =~= none);
        assert(zeros.drop_last() + none =~= zeros.drop_last());
        lemma_zeros_in_front(zeros.drop_last(), none);
    } else {
        assert(s =~= d);
    }
}

/// A number of two digits or more does not begin with a zero.
proof fn lemma_leading_digit(n: nat)
    ensures
        n > 0 ==> decimal(n)[0] != '0',
        n == 0 ==> decimal(n).len() == 1,
    decreases n,
{
    if n >= 10 {
        lemma_leading_digit(n / 10);
        crate::text::lemma_decimal(n / 10);
        assert(decimal(n)[0] == decimal(n / 10)[0]);
    }
}

/// The stem and the ending of a name that has an ending, put together, are the name; the ending begins with
/// the name's last full stop, and the stem is not empty. A name without an ending is the stem.
pub proof fn law_file_parts_are_the_name(name: Seq<char>)
    ensures
        ({
            let (stem, ext) = parts_of(Some(name));
            ||| {
                &&& stem + ext == name
                &&& stem.len() > 0
                &&& ext.len() > 0
                &&& ext[0] == '.'
                &&& forall|k: int| 1 <= k < ext.len() ==> #[trigger] ext[k] != '.'
            }
            ||| {
                &&& stem == name
                &&& ext == ".safetensors"@
                &&& forall|k: int| 1 <= k < name.len() ==> #[trigger] name[k] != '.'
            }
        }),
{
    lemma_dot(name, name.len() as int);
    match dot_of(name, name.len() as int) {
        Some(d) => {
            assert(name.take(d) + name.skip(d) =~= name);
            let ext = name.skip(d);
            assert forall|k: int| 1 <= k < ext.len() implies #[trigger] ext[k] != '.' by {
                assert(ext[k] == name[d + k]);
            }
        },
        None => {},
    }
}

/// The last full stop is one, with none behind it.
proof fn lemma_dot(name: Seq<char>, n: int)
    requires
        0 <= n <= name.len(),
    ensures
        match dot_of(name, n) {
            Some(d) => 0 < d < n && name[d] == '.' && forall|k: int|
                d < k < n ==> #[trigger] name[k] != '.',
            None => forall|k: int| 1 <= k < n ==> #[trigger] name[k] != '.',
        },
    decreases n,
{
    if n > 1 && name[n - 1] != '.' {
        lemma_dot(name, n - 1);
    }
}

/// The targets are the paths that are a suffix, or end with a full stop and one, and no others, in the order
/// of the paths.
pub proof fn law_targets_end_with_a_suffix(paths: Seq<Seq<char>>, suffixes: Seq<Seq<char>>, p: Seq<char>)
    ensures
        targets_of(paths, suffixes).contains(p) <==> paths.contains(p) && exists|k: int|
            0 <= k < suffixes.len() && (p == #[trigger] suffixes[k] || exists|head: Seq<char>|
                p == #[trigger] (head + ("."@ + suffixes[k]))),
        targets_of(paths, suffixes) == paths.filter(|q: Seq<char>| is_target(q, suffixes)),
{
    lemma_targets_filter(paths, suffixes);
    let all = targets_of(paths, suffixes);
    let pick = |q: Seq<char>| is_target(q, suffixes);
    assert(is_target(p, suffixes) <==> exists|k: int|
        0 <= k < suffixes.len() && (p == #[trigger] suffixes[k] || exists|head: Seq<char>|
            p == #[trigger] (head + ("."@ + suffixes[k])))) by {
        if is_target(p, suffixes) {
            let k = choose|k: int|
                0 <= k < suffixes.len() && (p == #[trigger] suffixes[k] || has_suffix(
                    p,
                    "."@ + suffixes[k],
                ));
            let end = "."@ + suffixes[k];
            if has_suffix(p, end) {
                let head = p.subrange(0, p.len() - end.len());
                assert(p =~= head + end);
            }
            assert(p == suffixes[k] || exists|head: Seq<char>|
                p == #[trigger] (head + ("."@ + suffixes[k])));
        }
        assert forall|k: int, head: Seq<char>|
            0 <= k < suffixes.len() && p == #[trigger] (head + ("."@ + #[trigger] suffixes[k])) implies has_suffix(
            p,
            "."@ + suffixes[k],
        ) by {
            let end = "."@ + suffixes[k];
            assert(p.subrange(p.len() - end.len(), p.len() as int) =~= end);
        }
    }
    if all.contains(p) {
        let j = choose|j: int| 0 <= j < all.len() && all[j] == p;
        paths.lemma_filter_contains_rev(pick, p);
        lemma_filter_has(paths, pick, j);
    }
    if paths.contains(p) && is_target(p, suffixes) {
        let j = choose|j: int| 0 <= j < paths.len() && paths[j] == p;
        assert(pick(paths[j]));
        lemma_filter_keeps(paths, pick, j);
    }
}

/// What a filter lets through passes it.
proof fn lemma_filter_has(s: Seq<Seq<char>>, pick: spec_fn(Seq<char>) -> bool, j: int)
    requires
        0 <= j < s.filter(pick).len(),
    ensures
        pick(s.filter(pick)[j]),
    decreases s.len(),
{
    reveal(Seq::filter);
    if s.len() > 0 {
        let head = s.drop_last().filter(pick);
        if j < head.len() {
            lemma_filter_has(s.drop_last(), pick, j);
        }
    }
}

/// What passes a filter is let through.
proof fn lemma_filter_keeps(s: Seq<Seq<char>>, pick: spec_fn(Seq<char>) -> bool, i: int)
    requires
        0 <= i < s.len(),
        pick(s[i]),
    ensures
        s.filter(pick).contains(s[i]),
    decreases s.len(),
{
    reveal(Seq::filter);
    let all = s.filter(pick);
    let head = s.drop_last().filter(pick);
    if i < s.len() - 1 {
        assert(s.drop_last()[i] == s[i]);
        lemma_filter_keeps(s.drop_last(), pick, i);
        let k = choose|k: int| 0 <= k < head.len() && head[k] == s[i];
        assert(all[k] == s[i]);
    } else {
        assert(all[head.len() as int] == s[i]);
    }
}

/// The targets are the paths that are targets.
proof fn lemma_targets_filter(paths: Seq<Seq<char>>, suffixes: Seq<Seq<char>>)
    ensures
        targets_of(paths, suffixes) == paths.filter(|q: Seq<char>| is_target(q, suffixes)),
    decreases paths.len(),
{
    reveal(Seq::filter);
    if paths.len() > 0 {
        lemma_targets_filter(paths.drop_last(), suffixes);
    } else {
        assert(targets_of(paths, suffixes) =~= paths.filter(
            |q: Seq<char>| is_target(q, suffixes),
        ));
    }
}

/// A path that names a block and what is in it is grouped under that block. What it refers to is the rest of
/// the path, part by part, with the first factor and the second under the names of the path.
pub proof fn law_path_is_grouped_under_its_block(
    n: usize,
    rest: Seq<char>,
    path: Seq<char>,
    n_blocks: int,
    r: BlockLoraRef,
)
    requires
        path == "blocks"@ + seq!['.'] + (decimal(n as nat) + seq!['.'] + rest),
    ensures
        block_of(path, n_blocks) == if n < n_blocks {
            Some(n as int)
        } else {
            None
        },
        is_ref(r, path) ==> views(r.local@) == split_text(rest, '.') && r.a_key@ == path
            + ".lora_a"@ && r.b_key@ == path + ".lora_b"@,
{
    reveal_strlit("blocks");
    let b = "blocks"@;
    let d = decimal(n as nat);
    crate::text::lemma_decimal(n as nat);
    crate::text::law_decimal_reads_back(n);
    assert(!b.contains('.'));
    assert(!d.contains('.')) by {
        if d.contains('.') {
            let k = choose|k: int| 0 <= k < d.len() && d[k] == '.';
            assert(crate::text::is_digit(d[k]));
        }
    }
    crate::text::lemma_split_single(b, '.');
    crate::text::lemma_split_single(d, '.');
    crate::text::lemma_split_join(d, '.', rest);
    crate::text::lemma_split_join(b, '.', d + seq!['.'] + rest);
    crate::text::lemma_split_nonempty(rest, '.');
    let parts = split_text(path, '.');
    assert(parts =~= seq![b] + (seq![d] + split_text(rest, '.')));
    assert(parts[0] == b && parts[1] == d);
    assert(parts.skip(2) =~= split_text(rest, '.'));
}

/// A path that does not begin with the blocks, or that ends with the block, or whose block is no number, is
/// in no block.
pub proof fn law_other_paths_are_in_no_block(path: Seq<char>, n_blocks: int)
    ensures
        split_text(path, '.').len() < 3 ==> block_of(path, n_blocks) is None,
        split_text(path, '.')[0] != "blocks"@ ==> block_of(path, n_blocks) is None,
        parsed_usize(split_text(path, '.')[1]) is None ==> block_of(path, n_blocks) is None,
{
}

} // verus!
