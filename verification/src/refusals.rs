//! What is refused and what is taken: snapshots, requests, adapters and training runs.

use vstd::prelude::*;
use crate::adapters::{
    first_loha, loha_refusal, AdapterFile, KeyLayout, MoeExpert, WanAdapterFamily,
};
use crate::convert::{
    bernini_fault, expert_fault, extract_fault, extracted, vace_fault, vace_fun_fault, BaseDir,
    TransformerDir,
};
use crate::error::Error;
use crate::merges::{are_factors, is_for, is_low_rank, law_carried_factors_are_matrices};
use crate::model::{
    any_loha, any_tagged, bytes_before, curated, dense_config_fault, dense_request_fault,
    dual_request_fault, first_bad_keyframe, gen_frames_of, i2v_config_fault,
    is_dense_load, is_dense_preparation, is_dual_preparation, is_i2v_load, is_load_time_quant,
    is_t2v_load, load_answer, loha_answer, order_fault, packed_percent,
    reference_at, spec_fault, t2v_config_fault, token_count, LoadSpec, Prepared, Quant, Request, Wan,
    Wan14b, WanModelConfig, MODEL_ID, MODEL_ID_I2V_14B, MODEL_ID_T2V_14B,
};
use crate::text::{ascii_lowered, has_prefix, has_text, lemma_replaced_absent, occurs_at, trimmed};
use crate::training::{
    absolute_loss_of, band_of, config_fits, is_trainer, request_fault, suffix_of, suffixes_of,
    timestep_bias_of, timestep_kind_of, trainer_fault, Band, TimestepBias, TimestepKind, WanMoeTrainer,
};
use crate::transformer::WanQuant;
use crate::weights::absent_at;

verus! {

/// A snapshot is a directory and is loaded in half precision, and no other is. One that holds packed weights
/// is loaded only at the width that it holds, unless no width is asked for.
pub proof fn law_snapshots_that_are_loaded(
    spec: LoadSpec,
    id: Seq<char>,
    who: Seq<char>,
    before: Option<Seq<char>>,
    stored: WanQuant,
)
    ensures
        spec_fault(spec, id, who) is None <==> spec.weights_dir && spec.bf16,
        before is Some ==> load_answer(before, id, Some(stored), spec.quantize) == before,
        load_answer(None, id, None, spec.quantize) is None,
        load_answer(None, id, Some(stored), None) is None,
        load_answer(None, id, Some(stored), Some(Quant::Q4)) is None <==> stored.bits == 4,
        load_answer(None, id, Some(stored), Some(Quant::Q8)) is None <==> stored.bits == 8,
{
}

/// The dense model takes a configuration with one expert that is made for text and images, and a two-expert
/// model one with two; of those, the one for images takes a configuration that joins an image to the latents.
/// No configuration is for both.
pub proof fn law_each_model_takes_its_own_configuration<S>(c: WanModelConfig<S>)
    ensures
        dense_config_fault(c) is None <==> c.is_ti2v && !c.dual_model,
        t2v_config_fault(c) is None <==> c.dual_model,
        i2v_config_fault(c) is None <==> c.dual_model && c.is_i2v_concat,
        dense_config_fault(c) is None ==> t2v_config_fault(c) is Some && i2v_config_fault(c) is Some,
{
}

/// The dense model takes a request with a frame and fours of them or none named, with a reference image or
/// keyframes but not both. Where it has either, no sampler from outside may be asked for, and no frame thrown
/// away.
pub proof fn law_requests_to_the_dense_model<S>(req: Request<S>)
    ensures
        dense_request_fault(req) is None <==> {
            let frames = match req.frames {
                Some(n) => n % 4 == 1,
                None => true,
            };
            let trims = match req.trim_first_frames {
                Some(n) => n > 0,
                None => false,
            };
            let reference = reference_at(req.conditioning@) is Some;
            let keyframes = req.keyframes@.len() > 0;
            frames && !(reference && keyframes) && (reference || keyframes ==> !curated(req.sampler)
                && !trims)
        },
{
}

/// A two-expert model takes a request with a frame and fours of them or none named. One for images takes it
/// only with a reference image and with no frame thrown away.
pub proof fn law_requests_to_two_experts<S>(id: Seq<char>, concat: bool, req: Request<S>)
    ensures
        dual_request_fault(id, concat, req) is None <==> {
            let frames = match req.frames {
                Some(n) => n % 4 == 1,
                None => true,
            };
            let trims = match req.trim_first_frames {
                Some(n) => n > 0,
                None => false,
            };
            frames && (concat ==> reference_at(req.conditioning@) is Some && !trims)
        },
{
}

/// The dense model prepares a generation where it takes the request, a frame is generated, and the share of
/// the transformer's file that is resident fits in the memory less its reserve, with what a step needs, which
/// guidance doubles. Otherwise it refuses.
pub proof fn law_dense_generation_is_prepared<S>(
    m: Wan<S>,
    req: Request<S>,
    bytes: u64,
    cfg_disabled: bool,
    memory_limit: int,
    fresh_seed: u64,
    r: Result<Prepared<S>, Error>,
)
    requires
        is_dense_preparation(m, req, Some(bytes), cfg_disabled, memory_limit, fresh_seed, r),
    ensures
        r is Ok <==> {
            let resident = bytes as int * packed_percent(m.quant) / 100;
            let work = token_count(req, m.config) * m.config.dim;
            let step = if cfg_disabled {
                72 * work
            } else {
                144 * work
            };
            dense_request_fault(req) is None && gen_frames_of(req, m.config) != 0 && 20 * (resident
                + step) <= 17 * memory_limit
        },
{
    reveal_with_fuel(bytes_before, 2);
    let files = seq![Some(bytes)];
    assert(files[0] == Some(bytes));
    assert(bytes_before(files, 1) == bytes);
}

/// A two-expert model prepares a generation where it takes the request, a frame is generated, and the share
/// of both experts' files that is resident fits in the memory less its reserve, with what a guided step needs.
/// Otherwise it refuses.
pub proof fn law_generation_with_two_experts_is_prepared<S>(
    m: Wan14b<S>,
    req: Request<S>,
    low: u64,
    high: u64,
    memory_limit: int,
    fresh_seed: u64,
    r: Result<Prepared<S>, Error>,
)
    requires
        is_dual_preparation(m, req, Some(low), Some(high), memory_limit, fresh_seed, r),
    ensures
        r is Ok <==> {
            let resident = (low + high) * packed_percent(m.quant) / 100;
            let work = token_count(req, m.config) * m.config.dim;
            dual_request_fault(m.id@, m.config.is_i2v_concat, req) is None && gen_frames_of(
                req,
                m.config,
            ) != 0 && 20 * (resident + 144 * work) <= 17 * memory_limit
        },
{
    reveal_with_fuel(bytes_before, 3);
    let files = seq![Some(low), Some(high)];
    assert(files[0] == Some(low) && files[1] == Some(high));
    assert(bytes_before(files, 1) == low);
    assert(bytes_before(files, 2) == low + high);
}

/// The keyframe that is refused is past either end of the latent frames, and those before it are not.
pub proof fn law_refused_keyframe_is_past_an_end(keyframes: Seq<i32>, t_lat: int, i: int, k: int)
    requires
        t_lat > 0,
        first_bad_keyframe(keyframes, t_lat, i),
        0 <= k < i,
    ensures
        keyframes[i] >= t_lat || keyframes[i] < -t_lat,
        -t_lat <= keyframes[k] < t_lat,
{
    assert(keyframes[k] == keyframes[k]);
}

/// A file that is tagged makes the files tagged, and a Hadamard file makes them hold one. Of Hadamard files
/// the first is told, behind the name of the model.
pub proof fn law_refused_adapters_are_told(
    id: Seq<char>,
    files: Seq<AdapterFile>,
    k: int,
    text: Seq<char>,
) -> (first: int)
    requires
        0 <= k < files.len(),
        loha_answer(id, files, text),
    ensures
        files[k].moe_expert is Some ==> any_tagged(files),
        any_tagged(files) ==> exists|j: int|
            0 <= j < files.len() && (#[trigger] files[j]).moe_expert is Some,
        any_loha(files),
        0 <= first < files.len(),
        files[first].family() == WanAdapterFamily::Loha,
        k < first ==> files[k].family() != WanAdapterFamily::Loha,
        text.len() > id.len() + files[first].path@.len(),
        text.take(id.len() as int) == id,
        text.skip(text.len() - files[first].path@.len()) == files[first].path@,
{
    let first = choose|i: int|
        #[trigger] first_loha(files, i) && text == loha_refusal(id, files[i].path@);
    let path = files[first].path@;
    lemma_refusal_surrounds(id, path);
    first
}

/// The refusal of a Hadamard file begins with the model and ends with the file.
proof fn lemma_refusal_surrounds(id: Seq<char>, path: Seq<char>)
    ensures
        loha_refusal(id, path).len() > id.len() + path.len(),
        loha_refusal(id, path).take(id.len() as int) == id,
        loha_refusal(id, path).skip(loha_refusal(id, path).len() - path.len()) == path,
{
    let text = loha_refusal(id, path);
    reveal_strlit(
        ": this is a LoHa (LyCORIS Hadamard) adapter, which cannot run on a quantized (packed Q4/Q8) Wan tier. LoHa's delta is a Hadamard product of two low-rank branches, ΔW = (B₁A₁) ⊙ (B₂A₂); the element-wise product entangles the factors so there is no deferred/additive form — applying it would have to materialize the full dense weight-sized delta (~28 GB/expert on a 14B tier) on top of the packed weights, defeating the quantized tier's memory savings. Use the bf16 tier for this adapter (where LoHa merges into the dense weight in place), or pick a plain LoRA / LoKr adapter (which apply additively on any tier, sc-10050). Tracked in sc-10051 (epic 10043). Offending file: ",
    );
    assert(text.take(id.len() as int) =~= id);
    assert(text.skip(text.len() - path.len()) =~= path);
}

/// Where the files for an expert are not objected to, the factors that a built model carries for it are
/// matrices of a rank above zero.
pub proof fn law_files_without_objection_have_matrices(
    files: Seq<AdapterFile>,
    expert: MoeExpert,
    f: int,
    path: Seq<char>,
    down: usize,
    up: usize,
    alpha: Option<usize>,
)
    requires
        files.len() <= usize::MAX,
        order_fault(files, expert) is None,
        0 <= f < files.len(),
        files[f].shapes@.len() == files[f].keys@.len(),
        is_for(files[f], expert),
        is_low_rank(files[f]),
        are_factors(KeyLayout::Native, files[f].keys@, path, Some(down), Some(up), alpha),
    ensures
        files[f].shapes@[down as int]@.len() == 2,
        files[f].shapes@[up as int]@.len() == 2,
        files[f].shapes@[down as int]@[0] > 0,
{
    law_carried_factors_are_matrices(files, KeyLayout::Native, expert, f, path, down, up, alpha);
}

/// The tensor that is told to be missing is one that is needed and that is not there; every one that is
/// needed before it is there. Where all are there, none is told.
pub proof fn law_missing_tensor_is_the_first(
    names: Seq<Seq<char>>,
    keys: Seq<Seq<char>>,
    name: Seq<char>,
)
    ensures
        absent_at(names, keys, name) ==> names.contains(name) && !keys.contains(name),
        absent_at(names, keys, name) && names.len() > 0 && names[0] != name ==> keys.contains(names[0]),
        (forall|i: int| 0 <= i < names.len() ==> keys.contains(#[trigger] names[i])) ==> !absent_at(
            names,
            keys,
            name,
        ),
{
    if absent_at(names, keys, name) {
        let i = choose|i: int|
            0 <= i < names.len() && #[trigger] names[i] == name && !keys.contains(name) && forall|j: int|
                0 <= j < i ==> keys.contains(#[trigger] names[j]);
        assert(names[i] == name);
        assert(names[0] == names[0]);
    }
}

/// A directory is put together from a transformer with its configuration and its weights and from a base
/// model with all three shared files, for each expert where there are two, and from nothing less.
pub proof fn law_directories_that_are_put_together(
    high: TransformerDir,
    low: TransformerDir,
    base: BaseDir,
    label: Seq<char>,
    package: Seq<char>,
    has_index: bool,
)
    ensures
        ({
            let complete = base.files.t5_encoder && base.files.vae && base.files.tokenizer;
            &&& expert_fault(label, high) is None <==> high.has_config && high.has_shard
            &&& vace_fault(high, base) is None <==> high.has_config && high.has_shard && complete
            &&& vace_fun_fault(high, low, base) is None <==> high.has_config && high.has_shard
                && low.has_config && low.has_shard && complete
            &&& bernini_fault(package, has_index, base) is None <==> has_index && complete
        }),
{
}

/// Weights are taken out of a package where it has a tensor file and a key with the prefix.
pub proof fn law_packages_that_are_taken_apart(
    dir: Seq<char>,
    shards: nat,
    keys: Seq<Seq<char>>,
    prefix: Seq<char>,
    i: int,
)
    requires
        0 <= i < keys.len(),
    ensures
        shards == 0 ==> extract_fault(dir, shards, keys, prefix) is Some,
        shards > 0 && has_prefix(keys[i], prefix) ==> extract_fault(dir, shards, keys, prefix) is None,
        shards > 0 && (forall|k: int|
            0 <= k < keys.len() ==> !has_prefix(#[trigger] keys[k], prefix)) ==> extract_fault(
            dir,
            shards,
            keys,
            prefix,
        ) is Some,
{
    lemma_some_extracted(keys, prefix, keys.len(), i);
    if forall|k: int| 0 <= k < keys.len() ==> !has_prefix(#[trigger] keys[k], prefix) {
        lemma_none_extracted(keys, prefix, keys.len());
    }
}

/// A key with the prefix is extracted.
proof fn lemma_some_extracted(keys: Seq<Seq<char>>, prefix: Seq<char>, n: nat, i: int)
    requires
        0 <= i < n <= keys.len(),
    ensures
        has_prefix(keys[i], prefix) ==> extracted(keys, prefix, n).len() > 0,
    decreases n,
{
    if i < n - 1 {
        lemma_some_extracted(keys, prefix, (n - 1) as nat, i);
    }
}

/// Without a key with the prefix nothing is extracted.
proof fn lemma_none_extracted(keys: Seq<Seq<char>>, prefix: Seq<char>, n: nat)
    requires
        n <= keys.len(),
        forall|k: int| 0 <= k < keys.len() ==> !has_prefix(#[trigger] keys[k], prefix),
    ensures
        extracted(keys, prefix, n).len() == 0,
    decreases n,
{
    if n > 0 {
        lemma_none_extracted(keys, prefix, (n - 1) as nat);
    }
}

/// A configuration fits at most one of the three trainers: with one expert the dense one, where its latents
/// have 48 channels, and with two the one for images exactly where it joins an image to the latents.
pub proof fn law_a_configuration_fits_one_trainer<S>(c: WanModelConfig<S>)
    ensures
        config_fits(MODEL_ID@, c) <==> !c.dual_model && c.vae_z_dim == 48,
        config_fits(MODEL_ID_I2V_14B@, c) || config_fits(MODEL_ID_T2V_14B@, c) <==> c.dual_model,
        !(config_fits(MODEL_ID_I2V_14B@, c) && config_fits(MODEL_ID_T2V_14B@, c)),
        config_fits(MODEL_ID_I2V_14B@, c) ==> c.is_i2v_concat,
        config_fits(MODEL_ID_T2V_14B@, c) ==> !c.is_i2v_concat,
{
    reveal_strlit("wan2_2_ti2v_5b");
    reveal_strlit("wan2_2_t2v_14b");
    reveal_strlit("wan2_2_i2v_14b");
    assert(MODEL_ID@[8] == 'i');
    assert(MODEL_ID_T2V_14B@[8] == '2' && MODEL_ID_T2V_14B@[7] == 't');
    assert(MODEL_ID_I2V_14B@[8] == '2' && MODEL_ID_I2V_14B@[7] == 'i');
}

/// A trainer is made of a directory whose configuration fits. It trains as many experts as the model has, and
/// the channels of the latents and those beside them are what the transformer takes in.
pub proof fn law_trainer_is_made_for_its_model<S>(
    t: WanMoeTrainer,
    id: Seq<char>,
    weights_dir: bool,
    c: WanModelConfig<S>,
)
    requires
        is_trainer(t, id, c),
    ensures
        trainer_fault(id, weights_dir, c) is None <==> weights_dir && config_fits(id, c),
        c.dual_model ==> t.experts == 2,
        !c.dual_model ==> t.experts == 1,
        c.in_dim >= c.vae_z_dim ==> c.vae_z_dim + t.y_channels == c.in_dim,
        c.in_dim < c.vae_z_dim ==> t.y_channels == 0,
        t.z48 <==> c.vae_z_dim == 48,
        t.id@ == id,
{
}

/// A training run needs something to learn from, a rank, a step and an optimizer that there is.
pub proof fn law_training_runs_that_are_taken(
    id: Seq<char>,
    items: int,
    rank: int,
    steps: int,
    optimizer: Seq<char>,
    supported: bool,
)
    ensures
        request_fault(id, items, rank, steps, optimizer, supported) is None <==> items != 0 && rank != 0
            && steps != 0 && supported,
{
}

/// Of two experts the one whose files are named for low noise learns the levels below the boundary, and the
/// other those from it; a single expert learns them all.
pub proof fn law_experts_learn_what_they_are_named_for(dual: bool, e: int)
    ensures
        band_of(dual, e) == Band::BelowBoundary <==> suffix_of(dual, e) == "low_noise"@,
        band_of(dual, e) == Band::FromBoundary <==> suffix_of(dual, e) == "high_noise"@,
        band_of(dual, e) == Band::Full <==> !dual,
        dual ==> band_of(dual, 0) != band_of(dual, 1),
        dual ==> suffix_of(dual, 0) == "low_noise"@,
{
    reveal_strlit("");
    reveal_strlit("low_noise");
    reveal_strlit("high_noise");
    assert("low_noise"@[0] == 'l' && "high_noise"@[0] == 'h');
    assert(""@.len() == 0 && "low_noise"@.len() == 9 && "high_noise"@.len() == 10);
}

/// Where no target is asked for, the four projections of the attention are trained; otherwise what is asked
/// for is.
pub proof fn law_attention_is_trained_where_nothing_is_asked_for(requested: Seq<Seq<char>>)
    ensures
        requested.len() > 0 ==> suffixes_of(requested) == requested,
        requested.len() == 0 ==> ({
            let s = suffixes_of(requested);
            s.len() == 4 && s.contains("q"@) && s.contains("k"@) && s.contains("v"@) && s.contains("o"@)
        }),
{
    if requested.len() == 0 {
        let s = suffixes_of(requested);
        assert(s[0] == "q"@ && s[1] == "k"@ && s[2] == "v"@ && s[3] == "o"@);
    }
}

/// A text without a character has no text of that character alone.
proof fn lemma_lacks(s: Seq<char>, p: Seq<char>)
    requires
        p.len() == 1,
        !s.contains(p[0]),
    ensures
        !has_text(s, p),
{
    if has_text(s, p) {
        let i = choose|i: int| #[trigger] occurs_at(s, p, i);
        assert(s.subrange(i, i + 1)[0] == p[0]);
        assert(s[i] == p[0]);
    }
}

/// How training draws its noise levels is settled by a word in whatever case and with whatever space around
/// it: a linear or uniform draw, a weighted one, and for any other word one along a sigmoid. What it leans to
/// and how it measures the loss is settled in the same way.
pub proof fn law_words_settle_the_training(s: Seq<char>)
    ensures
        ({
            let w = ascii_lowered(trimmed(s));
            &&& w == "linear"@ || w == "uniform"@ ==> timestep_kind_of(s) == TimestepKind::Uniform
            &&& w == "weighted"@ ==> timestep_kind_of(s) == TimestepKind::Weighted
            &&& !w.contains('-') && w != "linear"@ && w != "uniform"@ && w != "weighted"@
                ==> timestep_kind_of(s) == TimestepKind::Sigmoid
            &&& w == "high"@ || w == "high_noise"@ || w == "favor_high_noise"@ ==> timestep_bias_of(s)
                == TimestepBias::High
            &&& w == "low"@ || w == "low_noise"@ || w == "favor_low_noise"@ ==> timestep_bias_of(s)
                == TimestepBias::Low
            &&& !w.contains('-') && !w.contains(' ') && w != "high"@ && w != "high_noise"@ && w
                != "favor_high_noise"@ && w != "low"@ && w != "low_noise"@ && w != "favor_low_noise"@
                ==> timestep_bias_of(s) == TimestepBias::Unbiased
        }),
        absolute_loss_of(s) <==> ascii_lowered(s) == "mae"@ || ascii_lowered(s) == "l1"@,
{
    let w = ascii_lowered(trimmed(s));
    reveal_strlit("-");
    reveal_strlit(" ");
    reveal_strlit("linear");
    reveal_strlit("uniform");
    reveal_strlit("weighted");
    reveal_strlit("high");
    reveal_strlit("high_noise");
    reveal_strlit("favor_high_noise");
    reveal_strlit("low");
    reveal_strlit("low_noise");
    reveal_strlit("favor_low_noise");
    if !w.contains('-') {
        lemma_lacks(w, "-"@);
        lemma_replaced_absent(w, "-"@, "_"@);
        if !w.contains(' ') {
            lemma_lacks(w, " "@);
            lemma_replaced_absent(w, " "@, "_"@);
        }
    }
    assert("linear"@[0] == 'l' && "uniform"@[0] == 'u' && "weighted"@[0] == 'w');
    assert("high"@[0] == 'h' && "high_noise"@[0] == 'h' && "favor_high_noise"@[6] == 'h');
    assert("low"@[0] == 'l' && "low_noise"@[0] == 'l' && "favor_low_noise"@[6] == 'l');
    assert("favor_high_noise"@[0] == 'f' && "favor_low_noise"@[0] == 'f');
}

/// Weights that are held packed are packed no further, and only their own width may be asked for; others are
/// packed as is asked for.
pub proof fn law_packed_weights_keep_their_width(
    r: Result<Option<Quant>, Error>,
    stored: Option<WanQuant>,
    requested: Option<Quant>,
    s: WanQuant,
)
    requires
        is_load_time_quant(r, stored, requested),
    ensures
        stored is None ==> r == Ok::<Option<Quant>, Error>(requested),
        stored is Some && requested is None ==> r == Ok::<Option<Quant>, Error>(None),
        stored == Some(s) && requested == Some(Quant::Q4) ==> (r is Ok <==> s.bits == 4),
        stored == Some(s) && requested == Some(Quant::Q8) ==> (r is Ok <==> s.bits == 8),
        stored is Some && r is Ok ==> r->Ok_0 is None,
{
}

/// Whether a snapshot can be loaded with a specification, whatever model it is of.
pub open spec fn loadable<S>(spec: LoadSpec, config: WanModelConfig<S>) -> bool {
    &&& spec.weights_dir
    &&& spec.bf16
    &&& match config.quantization {
        Some(s) => match spec.quantize {
            Some(want) => s.bits == if want == Quant::Q4 {
                4int
            } else {
                8
            },
            None => true,
        },
        None => true,
    }
}

/// A model is loaded exactly where the snapshot can be and is its own. It has the configuration of the
/// snapshot and the adapters that were asked for, and is packed as asked for where it is not held packed.
pub proof fn law_models_are_loaded<S>(
    dense: Result<Wan<S>, Error>,
    t2v: Result<Wan14b<S>, Error>,
    i2v: Result<Wan14b<S>, Error>,
    spec: LoadSpec,
    c: WanModelConfig<S>,
)
    requires
        is_dense_load(dense, spec, c),
        is_t2v_load(t2v, spec, c),
        is_i2v_load(i2v, spec, c),
    ensures
        dense is Ok <==> loadable(spec, c) && c.is_ti2v && !c.dual_model,
        t2v is Ok <==> loadable(spec, c) && c.dual_model,
        i2v is Ok <==> loadable(spec, c) && c.dual_model && c.is_i2v_concat,
        dense matches Ok(m) ==> m.config == c && m.adapters == spec.adapters && (c.quantization is None
            ==> m.quant == spec.quantize) && (c.quantization is Some ==> m.quant is None),
        t2v matches Ok(m) ==> m.config == c && m.adapters == spec.adapters && (c.quantization is None
            ==> m.quant == spec.quantize) && (c.quantization is Some ==> m.quant is None) && m.id@
            == "wan2_2_t2v_14b"@,
        i2v matches Ok(m) ==> m.config == c && m.adapters == spec.adapters && (c.quantization is None
            ==> m.quant == spec.quantize) && (c.quantization is Some ==> m.quant is None) && m.id@
            == "wan2_2_i2v_14b"@,
{
}

} // verus!
