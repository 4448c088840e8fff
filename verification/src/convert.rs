//! Checkpoint conversion: how stored tensors are renamed, turned and reshaped, which of them are
//! quantized, and how a model directory is put together.

use vstd::prelude::*;
use crate::error::Error;
use crate::tensor::{
    checked_volume, in_bounds, is_permutation, lemma_volume_permuted, permuted, permuted_index, volume,
    Tensor,
};
use crate::transformer::{listed_paths, site_parts, sites_in_order};
use crate::text::{
    contains_text, ends_with, has_prefix, has_suffix, has_text, join2, replace,
    replaced, same_text, sort_unique, sorted_set, starts_with, strip_prefix, strip_suffix, views,
    without_prefix, without_suffix,
};

verus! {

/// A stored tensor: its key and its shape.
#[derive(Debug)]
pub struct Entry {
    pub key: String,
    pub shape: Vec<usize>,
}

/// What becomes of a stored tensor: its new key, then its axes reordered, then its shape replaced,
/// as far as each is asked for.
#[derive(Debug)]
pub struct Planned {
    /// The position of the tensor among the stored ones.
    pub source: usize,
    pub key: String,
    pub perm: Option<Vec<usize>>,
    pub shape: Option<Vec<usize>>,
}

/// A list of machine words that may be absent, by its contents.
pub open spec fn opt_view(v: Option<Vec<usize>>) -> Option<Seq<usize>> {
    match v {
        Some(x) => Some(x@),
        None => None,
    }
}

/// What becomes of a tensor, by its contents.
pub open spec fn plan_view(p: Planned) -> (usize, Seq<char>, Option<Seq<usize>>, Option<Seq<usize>>) {
    (p.source, p.key@, opt_view(p.perm), opt_view(p.shape))
}

/// The order of axes that puts the channels of a convolution weight last: `[O, I, D, H, W]` becomes
/// `[O, D, H, W, I]`, and `[O, I, H, W]` becomes `[O, H, W, I]`. Other ranks stay as they are.
pub open spec fn channels_last(rank: nat) -> Option<Seq<usize>> {
    if rank == 5 {
        Some(seq![0usize, 2, 3, 4, 1])
    } else if rank == 4 {
        Some(seq![0usize, 2, 3, 1])
    } else {
        None
    }
}

/// The shape without its axes of extent one.
pub open spec fn squeezed(shape: Seq<usize>) -> Seq<usize>
    decreases shape.len(),
{
    if shape.len() == 0 {
        seq![]
    } else if shape.last() != 1 {
        squeezed(shape.drop_last()).push(shape.last())
    } else {
        squeezed(shape.drop_last())
    }
}

/// The shape with its axes in the order of `perm`, where there is one.
pub open spec fn turned(shape: Seq<usize>, perm: Option<Seq<usize>>) -> Seq<usize> {
    match perm {
        Some(p) => permuted(shape, p),
        None => shape,
    }
}

/// The sequential layers of the second video autoencoder under their names.
pub open spec fn vae22_layers(k: Seq<char>) -> Seq<char> {
    let a = replaced(k, ".residual.0."@, ".residual.layer_0."@);
    let b = replaced(a, ".residual.2."@, ".residual.layer_2."@);
    let c = replaced(b, ".residual.3."@, ".residual.layer_3."@);
    let d = replaced(c, ".residual.6."@, ".residual.layer_6."@);
    let e = replaced(d, ".head.0."@, ".head.layer_0."@);
    replaced(e, ".head.2."@, ".head.layer_2."@)
}

/// The convolution of a resampling layer under its name.
pub open spec fn vae22_resample(k: Seq<char>) -> Seq<char> {
    if has_text(k, ".resample.1.weight"@) {
        replaced(k, ".resample.1.weight"@, ".resample_weight"@)
    } else if has_text(k, ".resample.1.bias"@) {
        replaced(k, ".resample.1.bias"@, ".resample_bias"@)
    } else {
        k
    }
}

/// The convolutions of an attention block under their names: the first of the four that occurs.
pub open spec fn vae22_attention(k: Seq<char>) -> Seq<char> {
    if has_text(k, ".to_qkv.weight"@) {
        replaced(k, ".to_qkv.weight"@, ".to_qkv_weight"@)
    } else if has_text(k, ".to_qkv.bias"@) {
        replaced(k, ".to_qkv.bias"@, ".to_qkv_bias"@)
    } else if has_text(k, ".proj.weight"@) && !has_text(k, "time_projection"@) {
        replaced(k, ".proj.weight"@, ".proj_weight"@)
    } else if has_text(k, ".proj.bias"@) && !has_text(k, "time_projection"@) {
        replaced(k, ".proj.bias"@, ".proj_bias"@)
    } else {
        k
    }
}

/// The key of a tensor of the second video autoencoder.
pub open spec fn vae22_key(k: Seq<char>) -> Seq<char> {
    vae22_attention(vae22_resample(vae22_layers(k)))
}

/// Whether the tensor belongs to the encoder alone.
pub open spec fn vae22_encoder_only(k: Seq<char>) -> bool {
    has_prefix(k, "encoder."@) || has_prefix(k, "conv1."@)
}

/// The new key of a native transformer tensor; `None` for the buffer that is dropped.
pub open spec fn transformer_key(k: Seq<char>) -> Option<Seq<char>> {
    if k == "patch_embedding.weight"@ {
        Some("patch_embedding_proj.weight"@)
    } else if k == "patch_embedding.bias"@ {
        Some("patch_embedding_proj.bias"@)
    } else if has_prefix(k, "text_embedding.0."@) {
        Some("text_embedding_0."@ + without_prefix(k, "text_embedding.0."@))
    } else if has_prefix(k, "text_embedding.2."@) {
        Some("text_embedding_1."@ + without_prefix(k, "text_embedding.2."@))
    } else if has_prefix(k, "time_embedding.0."@) {
        Some("time_embedding_0."@ + without_prefix(k, "time_embedding.0."@))
    } else if has_prefix(k, "time_embedding.2."@) {
        Some("time_embedding_1."@ + without_prefix(k, "time_embedding.2."@))
    } else if has_prefix(k, "time_projection.1."@) {
        Some("time_projection."@ + without_prefix(k, "time_projection.1."@))
    } else if k == "freqs"@ {
        None
    } else {
        Some(replaced(replaced(k, ".ffn.0."@, ".ffn.fc1."@), ".ffn.2."@, ".ffn.fc2."@))
    }
}

/// The condition embedder of a diffusers transformer under its native names.
pub open spec fn condition_renamed(k: Seq<char>) -> Seq<char> {
    let a = replaced(k, "condition_embedder.text_embedder.linear_1"@, "text_embedding_0"@);
    let b = replaced(a, "condition_embedder.text_embedder.linear_2"@, "text_embedding_1"@);
    let c = replaced(b, "condition_embedder.time_embedder.linear_1"@, "time_embedding_0"@);
    let d = replaced(c, "condition_embedder.time_embedder.linear_2"@, "time_embedding_1"@);
    replaced(d, "condition_embedder.time_proj"@, "time_projection"@)
}

/// One attention of a diffusers block under its native names.
pub open spec fn block_attention_renamed(k: Seq<char>, from: Seq<char>, to: Seq<char>) -> Seq<char> {
    let a = replaced(k, from + ".to_out.0"@, to + ".o"@);
    let b = replaced(a, from + ".to_q"@, to + ".q"@);
    let c = replaced(b, from + ".to_k"@, to + ".k"@);
    let d = replaced(c, from + ".to_v"@, to + ".v"@);
    let e = replaced(d, from + ".norm_q"@, to + ".norm_q"@);
    replaced(e, from + ".norm_k"@, to + ".norm_k"@)
}

/// A diffusers block under its native names.
pub open spec fn block_renamed(k: Seq<char>) -> Seq<char> {
    let a = block_attention_renamed(k, ".attn1"@, ".self_attn"@);
    let b = block_attention_renamed(a, ".attn2"@, ".cross_attn"@);
    let c = replaced(b, ".ffn.net.0.proj"@, ".ffn.fc1"@);
    let d = replaced(c, ".ffn.net.2"@, ".ffn.fc2"@);
    let e = replaced(d, ".norm2."@, ".norm3."@);
    replaced(e, ".scale_shift_table"@, ".modulation"@)
}

/// The new key of a diffusers transformer tensor.
pub open spec fn diffusers_key(k: Seq<char>) -> Seq<char> {
    if k == "patch_embedding.weight"@ {
        "patch_embedding_proj.weight"@
    } else if k == "patch_embedding.bias"@ {
        "patch_embedding_proj.bias"@
    } else if k == "scale_shift_table"@ {
        "head.modulation"@
    } else if has_prefix(k, "proj_out."@) {
        "head.head."@ + without_prefix(k, "proj_out."@)
    } else {
        let t = condition_renamed(k);
        if has_prefix(t, "blocks."@) {
            block_renamed(t)
        } else {
            t
        }
    }
}

/// The new key of a text encoder tensor.
pub open spec fn t5_key(k: Seq<char>) -> Seq<char> {
    replaced(k, ".ffn.gate.0."@, ".ffn.gate_proj."@)
}

/// What kind of checkpoint a tensor comes from.
#[derive(Debug, Clone, Copy, PartialEq, Eq, Structural)]
pub enum Source {
    Vae22 { include_encoder: bool },
    Vae16,
    Transformer,
    Diffusers,
    T5,
}

/// The convolution kernel that embeds the patches, flattened to a matrix.
pub open spec fn patch_matrix(shape: Seq<usize>) -> Seq<usize> {
    seq![shape[0], volume(shape.skip(1)) as usize]
}

/// What becomes of stored tensor `i`; `None` where it is dropped.
pub open spec fn planned_entry(from: Source, i: usize, e: Entry) -> Option<
    (usize, Seq<char>, Option<Seq<usize>>, Option<Seq<usize>>),
> {
    let k = e.key@;
    let s = e.shape@;
    match from {
        Source::Vae22 { include_encoder } => if !include_encoder && vae22_encoder_only(k) {
            None
        } else {
            let new = vae22_key(k);
            let perm = if (has_suffix(new, ".weight"@) || has_suffix(new, "_weight"@)) && s.len()
                >= 4 {
                channels_last(s.len())
            } else {
                None
            };
            let shape = if has_text(new, "gamma"@) {
                Some(squeezed(turned(s, perm)))
            } else {
                None
            };
            Some((i, new, perm, shape))
        },
        Source::Vae16 => Some(
            (
                i,
                k,
                if has_text(k, "weight"@) {
                    channels_last(s.len())
                } else {
                    None
                },
                None,
            ),
        ),
        Source::Transformer => match transformer_key(k) {
            Some(new) => Some(
                (
                    i,
                    new,
                    None,
                    if k == "patch_embedding.weight"@ {
                        Some(patch_matrix(s))
                    } else {
                        None
                    },
                ),
            ),
            None => None,
        },
        Source::Diffusers => Some(
            (
                i,
                diffusers_key(k),
                None,
                if k == "patch_embedding.weight"@ {
                    Some(patch_matrix(s))
                } else {
                    None
                },
            ),
        ),
        Source::T5 => Some((i, t5_key(k), None, None)),
    }
}

/// What becomes of the first `n` stored tensors, in their order.
pub open spec fn planned_entries(from: Source, entries: Seq<Entry>, n: nat) -> Seq<
    (usize, Seq<char>, Option<Seq<usize>>, Option<Seq<usize>>),
>
    decreases n,
{
    if n == 0 {
        seq![]
    } else {
        let head = planned_entries(from, entries, (n - 1) as nat);
        match planned_entry(from, (n - 1) as usize, entries[n - 1]) {
            Some(p) => head.push(p),
            None => head,
        }
    }
}

/// What the plan is, by its contents.
pub open spec fn plan_views(v: Seq<Planned>) -> Seq<
    (usize, Seq<char>, Option<Seq<usize>>, Option<Seq<usize>>),
> {
    v.map_values(|p: Planned| plan_view(p))
}

/// Whether the shape of the patch embedding can be flattened: it has an axis, and its volume fits
/// into a machine word.
pub open spec fn entry_ok(e: Entry) -> bool {
    e.key@ == "patch_embedding.weight"@ ==> e.shape@.len() > 0 && volume(e.shape@.skip(1))
        <= usize::MAX
}

/// Whether a conversion flattens the patch embedding.
pub open spec fn flattens_patch(from: Source) -> bool {
    from is Transformer || from is Diffusers
}

/// The order of axes that puts the channels last.
fn channels_last_axes(rank: usize) -> (r: Option<Vec<usize>>)
    ensures
        opt_view(r) == channels_last(rank as nat),
{
    if rank == 5 {
        let v: Vec<usize> = vec![0, 2, 3, 4, 1];
        assert(v@ =~= seq![0usize, 2, 3, 4, 1]);
        Some(v)
    } else if rank == 4 {
        let v: Vec<usize> = vec![0, 2, 3, 1];
        assert(v@ =~= seq![0usize, 2, 3, 1]);
        Some(v)
    } else {
        None
    }
}

/// The shape without its axes of extent one.
pub fn squeeze_all(shape: &Vec<usize>) -> (r: Vec<usize>)
    ensures
        r@ == squeezed(shape@),
{
    let mut out: Vec<usize> = Vec::new();
    let mut i: usize = 0;
    assert(shape@.take(0) =~= Seq::<usize>::empty());
    while i < shape.len()
        invariant
            i <= shape.len(),
            out@ == squeezed(shape@.take(i as int)),
        decreases shape.len() - i,
    {
        assert(shape@.take(i + 1).drop_last() =~= shape@.take(i as int));
        assert(shape@.take(i + 1).last() == shape@[i as int]);
        if shape[i] != 1 {
            out.push(shape[i]);
        }
        i += 1;
    }
    assert(shape@.take(i as int) =~= shape@);
    out
}

/// The shape with its axes reordered, where an order is given.
fn turn(shape: &Vec<usize>, perm: &Option<Vec<usize>>) -> (r: Vec<usize>)
    requires
        opt_view(*perm) matches Some(p) ==> is_permutation(p, shape@.len()),
    ensures
        r@ == turned(shape@, opt_view(*perm)),
{
    match perm {
        None => {
            let mut out: Vec<usize> = Vec::new();
            let mut i: usize = 0;
            while i < shape.len()
                invariant
                    i <= shape.len(),
                    out@ == shape@.take(i as int),
                decreases shape.len() - i,
            {
                out.push(shape[i]);
                assert(shape@.take(i + 1) =~= shape@.take(i as int).push(shape@[i as int]));
                i += 1;
            }
            assert(shape@.take(i as int) =~= shape@);
            out
        },
        Some(p) => {
            let mut out: Vec<usize> = Vec::new();
            let mut i: usize = 0;
            while i < p.len()
                invariant
                    i <= p.len(),
                    is_permutation(p@, shape@.len()),
                    out@ == permuted(shape@, p@).take(i as int),
                decreases p.len() - i,
            {
                out.push(shape[p[i]]);
                assert(permuted(shape@, p@).take(i + 1) =~= permuted(shape@, p@).take(
                    i as int,
                ).push(shape@[p@[i as int] as int]));
                i += 1;
            }
            assert(permuted(shape@, p@).take(i as int) =~= permuted(shape@, p@));
            out
        },
    }
}

/// The order that puts the channels last is an order of the axes.
proof fn lemma_channels_last(rank: nat)
    ensures
        channels_last(rank) matches Some(p) ==> is_permutation(p, rank),
{
}

/// The key of a tensor of the second video autoencoder.
fn rename_vae22(k: &str) -> (r: String)
    ensures
        r@ == vae22_key(k@),
{
    proof {
        reveal_strlit(".residual.0.");
        reveal_strlit(".residual.2.");
        reveal_strlit(".residual.3.");
        reveal_strlit(".residual.6.");
        reveal_strlit(".head.0.");
        reveal_strlit(".head.2.");
        reveal_strlit(".resample.1.weight");
        reveal_strlit(".resample.1.bias");
        reveal_strlit(".to_qkv.weight");
        reveal_strlit(".to_qkv.bias");
        reveal_strlit(".proj.weight");
        reveal_strlit(".proj.bias");
    }
    let t = replace(k, ".residual.0.", ".residual.layer_0.");
    let t = replace(t.as_str(), ".residual.2.", ".residual.layer_2.");
    let t = replace(t.as_str(), ".residual.3.", ".residual.layer_3.");
    let t = replace(t.as_str(), ".residual.6.", ".residual.layer_6.");
    let t = replace(t.as_str(), ".head.0.", ".head.layer_0.");
    let t = replace(t.as_str(), ".head.2.", ".head.layer_2.");
    let t = if contains_text(t.as_str(), ".resample.1.weight") {
        replace(t.as_str(), ".resample.1.weight", ".resample_weight")
    } else if contains_text(t.as_str(), ".resample.1.bias") {
        replace(t.as_str(), ".resample.1.bias", ".resample_bias")
    } else {
        t
    };
    if contains_text(t.as_str(), ".to_qkv.weight") {
        replace(t.as_str(), ".to_qkv.weight", ".to_qkv_weight")
    } else if contains_text(t.as_str(), ".to_qkv.bias") {
        replace(t.as_str(), ".to_qkv.bias", ".to_qkv_bias")
    } else if contains_text(t.as_str(), ".proj.weight") && !contains_text(
        t.as_str(),
        "time_projection",
    ) {
        replace(t.as_str(), ".proj.weight", ".proj_weight")
    } else if contains_text(t.as_str(), ".proj.bias") && !contains_text(
        t.as_str(),
        "time_projection",
    ) {
        replace(t.as_str(), ".proj.bias", ".proj_bias")
    } else {
        t
    }
}

/// `to` followed by what comes behind `from` in `k`, where `k` begins with it.
fn swap_prefix(k: &str, from: &str, to: &str) -> (r: Option<String>)
    ensures
        r is Some <==> has_prefix(k@, from@),
        r matches Some(t) ==> t@ == to@ + without_prefix(k@, from@),
{
    match strip_prefix(k, from) {
        Some(rest) => Some(join2(to, rest.as_str())),
        None => None,
    }
}

/// The new key of a native transformer tensor.
fn rename_transformer(k: &str) -> (r: Option<String>)
    ensures
        match r {
            Some(t) => transformer_key(k@) == Some(t@),
            None => transformer_key(k@) is None,
        },
{
    proof {
        reveal_strlit(".ffn.0.");
        reveal_strlit(".ffn.2.");
    }
    if same_text(k, "patch_embedding.weight") {
        return Some("patch_embedding_proj.weight".to_owned());
    }
    if same_text(k, "patch_embedding.bias") {
        return Some("patch_embedding_proj.bias".to_owned());
    }
    if let Some(t) = swap_prefix(k, "text_embedding.0.", "text_embedding_0.") {
        return Some(t);
    }
    if let Some(t) = swap_prefix(k, "text_embedding.2.", "text_embedding_1.") {
        return Some(t);
    }
    if let Some(t) = swap_prefix(k, "time_embedding.0.", "time_embedding_0.") {
        return Some(t);
    }
    if let Some(t) = swap_prefix(k, "time_embedding.2.", "time_embedding_1.") {
        return Some(t);
    }
    if let Some(t) = swap_prefix(k, "time_projection.1.", "time_projection.") {
        return Some(t);
    }
    if same_text(k, "freqs") {
        return None;
    }
    let t = replace(k, ".ffn.0.", ".ffn.fc1.");
    Some(replace(t.as_str(), ".ffn.2.", ".ffn.fc2."))
}

/// One attention of a diffusers block under its native names.
fn rename_block_attention(k: &str, from: &str, to: &str) -> (r: String)
    ensures
        r@ == block_attention_renamed(k@, from@, to@),
{
    proof {
        reveal_strlit(".to_out.0");
        reveal_strlit(".to_q");
        reveal_strlit(".to_k");
        reveal_strlit(".to_v");
        reveal_strlit(".norm_q");
        reveal_strlit(".norm_k");
    }
    let t = replace(k, join2(from, ".to_out.0").as_str(), join2(to, ".o").as_str());
    let t = replace(t.as_str(), join2(from, ".to_q").as_str(), join2(to, ".q").as_str());
    let t = replace(t.as_str(), join2(from, ".to_k").as_str(), join2(to, ".k").as_str());
    let t = replace(t.as_str(), join2(from, ".to_v").as_str(), join2(to, ".v").as_str());
    let t = replace(t.as_str(), join2(from, ".norm_q").as_str(), join2(to, ".norm_q").as_str());
    replace(t.as_str(), join2(from, ".norm_k").as_str(), join2(to, ".norm_k").as_str())
}

/// The new key of a diffusers transformer tensor.
fn rename_diffusers(k: &str) -> (r: String)
    ensures
        r@ == diffusers_key(k@),
{
    proof {
        reveal_strlit("condition_embedder.text_embedder.linear_1");
        reveal_strlit("condition_embedder.text_embedder.linear_2");
        reveal_strlit("condition_embedder.time_embedder.linear_1");
        reveal_strlit("condition_embedder.time_embedder.linear_2");
        reveal_strlit("condition_embedder.time_proj");
        reveal_strlit(".ffn.net.0.proj");
        reveal_strlit(".ffn.net.2");
        reveal_strlit(".norm2.");
        reveal_strlit(".scale_shift_table");
    }
    if same_text(k, "patch_embedding.weight") {
        return "patch_embedding_proj.weight".to_owned();
    }
    if same_text(k, "patch_embedding.bias") {
        return "patch_embedding_proj.bias".to_owned();
    }
    if same_text(k, "scale_shift_table") {
        return "head.modulation".to_owned();
    }
    if let Some(t) = swap_prefix(k, "proj_out.", "head.head.") {
        return t;
    }
    let t = replace(k, "condition_embedder.text_embedder.linear_1", "text_embedding_0");
    let t = replace(t.as_str(), "condition_embedder.text_embedder.linear_2", "text_embedding_1");
    let t = replace(t.as_str(), "condition_embedder.time_embedder.linear_1", "time_embedding_0");
    let t = replace(t.as_str(), "condition_embedder.time_embedder.linear_2", "time_embedding_1");
    let t = replace(t.as_str(), "condition_embedder.time_proj", "time_projection");
    if !starts_with(t.as_str(), "blocks.") {
        return t;
    }
    let t = rename_block_attention(t.as_str(), ".attn1", ".self_attn");
    let t = rename_block_attention(t.as_str(), ".attn2", ".cross_attn");
    let t = replace(t.as_str(), ".ffn.net.0.proj", ".ffn.fc1");
    let t = replace(t.as_str(), ".ffn.net.2", ".ffn.fc2");
    let t = replace(t.as_str(), ".norm2.", ".norm3.");
    replace(t.as_str(), ".scale_shift_table", ".modulation")
}

/// The patch embedding flattened to a matrix.
fn flatten_patch(shape: &Vec<usize>) -> (r: Vec<usize>)
    requires
        shape@.len() > 0,
        volume(shape@.skip(1)) <= usize::MAX,
    ensures
        r@ == patch_matrix(shape@),
{
    let mut rest: Vec<usize> = Vec::new();
    let mut i: usize = 1;
    while i < shape.len()
        invariant
            1 <= i <= shape.len(),
            rest@ == shape@.subrange(1, i as int),
        decreases shape.len() - i,
    {
        rest.push(shape[i]);
        assert(shape@.subrange(1, i + 1) =~= shape@.subrange(1, i as int).push(shape@[i as int]));
        i += 1;
    }
    assert(rest@ =~= shape@.skip(1));
    let mut out: Vec<usize> = Vec::new();
    out.push(shape[0]);
    match checked_volume(&rest) {
        Some(v) => {
            out.push(v);
        },
        None => {},
    }
    assert(out@ =~= patch_matrix(shape@));
    out
}

/// What becomes of one stored tensor.
pub fn plan_entry(from: Source, i: usize, e: &Entry) -> (r: Option<Planned>)
    requires
        flattens_patch(from) ==> entry_ok(*e),
    ensures
        match r {
            Some(p) => planned_entry(from, i, *e) == Some(plan_view(p)),
            None => planned_entry(from, i, *e) is None,
        },
{
    proof {
        lemma_channels_last(e.shape@.len());
    }
    let k = e.key.as_str();
    match from {
        Source::Vae22 { include_encoder } => {
            if !include_encoder && (starts_with(k, "encoder.") || starts_with(k, "conv1.")) {
                return None;
            }
            let key = rename_vae22(k);
            let conv = ends_with(key.as_str(), ".weight") || ends_with(key.as_str(), "_weight");
            let perm = if conv && e.shape.len() >= 4 {
                channels_last_axes(e.shape.len())
            } else {
                None
            };
            let shape = if contains_text(key.as_str(), "gamma") {
                Some(squeeze_all(&turn(&e.shape, &perm)))
            } else {
                None
            };
            Some(Planned { source: i, key, perm, shape })
        },
        Source::Vae16 => {
            let perm = if contains_text(k, "weight") {
                channels_last_axes(e.shape.len())
            } else {
                None
            };
            Some(Planned { source: i, key: e.key.clone(), perm, shape: None })
        },
        Source::Transformer => match rename_transformer(k) {
            Some(key) => {
                let shape = if same_text(k, "patch_embedding.weight") {
                    Some(flatten_patch(&e.shape))
                } else {
                    None
                };
                Some(Planned { source: i, key, perm: None, shape })
            },
            None => None,
        },
        Source::Diffusers => {
            let key = rename_diffusers(k);
            let shape = if same_text(k, "patch_embedding.weight") {
                Some(flatten_patch(&e.shape))
            } else {
                None
            };
            Some(Planned { source: i, key, perm: None, shape })
        },
        Source::T5 => {
            proof {
                reveal_strlit(".ffn.gate.0.");
            }
            let key = replace(k, ".ffn.gate.0.", ".ffn.gate_proj.");
            Some(Planned { source: i, key, perm: None, shape: None })
        },
    }
}

/// What becomes of all stored tensors, in their order.
pub fn plan_entries(from: Source, entries: &Vec<Entry>) -> (r: Vec<Planned>)
    requires
        flattens_patch(from) ==> forall|i: int|
            0 <= i < entries.len() ==> entry_ok(#[trigger] entries@[i]),
    ensures
        plan_views(r@) == planned_entries(from, entries@, entries@.len()),
{
    let mut out: Vec<Planned> = Vec::new();
    let mut i: usize = 0;
    assert(plan_views(out@) =~= planned_entries(from, entries@, 0));
    while i < entries.len()
        invariant
            i <= entries.len(),
            flattens_patch(from) ==> forall|i: int|
                0 <= i < entries.len() ==> entry_ok(#[trigger] entries@[i]),
            plan_views(out@) == planned_entries(from, entries@, i as nat),
        decreases entries.len() - i,
    {
        let ghost before = plan_views(out@);
        match plan_entry(from, i, &entries[i]) {
            Some(p) => {
                out.push(p);
                assert(plan_views(out@) =~= before.push(plan_view(p)));
            },
            None => {},
        }
        i += 1;
    }
    out
}

/// Maps the second video autoencoder to the names and layouts of the model. Without the encoder its
/// tensors are dropped.
pub fn sanitize_wan22_vae(entries: &Vec<Entry>, include_encoder: bool) -> (r: Vec<Planned>)
    ensures
        plan_views(r@) == planned_entries(
            Source::Vae22 { include_encoder },
            entries@,
            entries@.len(),
        ),
{
    plan_entries(Source::Vae22 { include_encoder }, entries)
}

/// Maps the first video autoencoder: convolution weights get their channels last, names stay.
pub fn sanitize_wan_vae_weights(entries: &Vec<Entry>) -> (r: Vec<Planned>)
    ensures
        plan_views(r@) == planned_entries(Source::Vae16, entries@, entries@.len()),
{
    plan_entries(Source::Vae16, entries)
}

/// Maps a native transformer: the patch embedding becomes a matrix, numbered layers get names, and
/// the frequency buffer is dropped.
pub fn sanitize_wan_transformer(entries: &Vec<Entry>) -> (r: Vec<Planned>)
    requires
        forall|i: int| 0 <= i < entries.len() ==> entry_ok(#[trigger] entries@[i]),
    ensures
        plan_views(r@) == planned_entries(Source::Transformer, entries@, entries@.len()),
{
    plan_entries(Source::Transformer, entries)
}

/// Maps a diffusers transformer to native names.
pub fn sanitize_wan_transformer_diffusers(entries: &Vec<Entry>) -> (r: Vec<Planned>)
    requires
        forall|i: int| 0 <= i < entries.len() ==> entry_ok(#[trigger] entries@[i]),
    ensures
        plan_views(r@) == planned_entries(Source::Diffusers, entries@, entries@.len()),
{
    plan_entries(Source::Diffusers, entries)
}

/// Maps the text encoder: the gating layer of each feed-forward network gets its name.
pub fn sanitize_wan_t5(entries: &Vec<Entry>) -> (r: Vec<Planned>)
    ensures
        plan_views(r@) == planned_entries(Source::T5, entries@, entries@.len()),
{
    plan_entries(Source::T5, entries)
}

/// Dropping axes of extent one keeps the volume.
proof fn lemma_squeezed_volume(shape: Seq<usize>)
    ensures
        volume(squeezed(shape)) == volume(shape),
    decreases shape.len(),
{
    if shape.len() > 0 {
        lemma_squeezed_volume(shape.drop_last());
        if shape.last() != 1 {
            let s = squeezed(shape.drop_last()).push(shape.last());
            assert(s.drop_last() =~= squeezed(shape.drop_last()));
        } else {
            let v = volume(shape.drop_last());
            assert(v * 1 == v);
        }
    }
}

/// The volume of a single extent is that extent.
proof fn lemma_volume_single(shape: Seq<usize>)
    requires
        shape.len() == 1,
    ensures
        volume(shape) == shape[0],
{
    let head = volume(shape.drop_last());
    let last = shape.last() as nat;
    assert(shape.drop_last() =~= Seq::<usize>::empty());
    assert(head == 1);
    assert(head * last == last) by (nonlinear_arith)
        requires
            head == 1,
    ;
}

/// The first extent times the volume of the others is the volume.
proof fn lemma_volume_first(shape: Seq<usize>)
    requires
        shape.len() > 0,
    ensures
        volume(shape) == shape[0] * volume(shape.skip(1)),
    decreases shape.len(),
{
    if shape.len() == 1 {
        lemma_volume_single(shape);
        assert(shape.skip(1) =~= Seq::<usize>::empty());
        assert(volume(shape.skip(1)) == 1);
        assert(shape[0] * 1 == shape[0]);
    } else {
        lemma_volume_first(shape.drop_last());
        assert(shape.drop_last().skip(1) =~= shape.skip(1).drop_last());
        let a = shape[0] as int;
        let b = volume(shape.skip(1).drop_last()) as int;
        let c = shape.last() as int;
        assert((a * b) * c == a * (b * c)) by (nonlinear_arith);
    }
}

/// Conversion loses no element: whatever a tensor is turned and reshaped to has as many elements
/// as it was stored with, and the order that its axes are put in lists each of them once.
pub proof fn law_plan_keeps_elements(from: Source, i: usize, e: Entry)
    requires
        flattens_patch(from) ==> entry_ok(e),
    ensures
        planned_entry(from, i, e) matches Some(p) ==> (p.2 matches Some(perm) ==> is_permutation(
            perm,
            e.shape@.len(),
        )) && (p.3 matches Some(shape) ==> volume(shape) == volume(e.shape@)),
{
    let s = e.shape@;
    lemma_channels_last(s.len());
    if let Some(p) = planned_entry(from, i, e) {
        if let Some(perm) = p.2 {
            lemma_volume_permuted(s, perm);
        }
        lemma_squeezed_volume(turned(s, p.2));
        if flattens_patch(from) && e.key@ == "patch_embedding.weight"@ {
            lemma_volume_first(s);
            let m = patch_matrix(s);
            assert(m.drop_last() =~= seq![s[0]]);
            lemma_volume_single(m.drop_last());
            assert(m.last() == volume(s.skip(1)));
        }
    }
}

/// Whether a tensor is another one, turned and reshaped as planned.
pub open spec fn is_applied<T>(out: Tensor<T>, t: Tensor<T>, p: Planned) -> bool {
    &&& out.wf()
    &&& match opt_view(p.shape) {
        Some(shape) => out.shape@ == shape,
        None => out.shape@ == turned(t.shape@, opt_view(p.perm)),
    }
    &&& p.perm is None ==> out.data@ == t.data@
    &&& opt_view(p.perm) matches Some(perm) ==> forall|idx: Seq<int>| #[trigger]
        in_bounds(t.shape@, idx) ==> out.data@[crate::tensor::ravel(
            permuted(t.shape@, perm),
            permuted_index(idx, perm),
        )] == t.at(idx)
}

/// Turns and reshapes a tensor as planned.
pub fn apply_plan<T: Copy>(t: &Tensor<T>, p: &Planned) -> (r: Option<Tensor<T>>)
    requires
        t.wf(),
        opt_view(p.perm) matches Some(perm) ==> is_permutation(perm, t.shape@.len()),
    ensures
        r is Some <==> (opt_view(p.shape) matches Some(shape) ==> volume(shape) == volume(
            t.shape@,
        )),
        r matches Some(out) ==> out.wf() && (match opt_view(p.shape) {
            Some(shape) => out.shape@ == shape,
            None => out.shape@ == turned(t.shape@, opt_view(p.perm)),
        }),
        r matches Some(out) ==> (p.perm is None ==> out.data@ == t.data@),
        r matches Some(out) ==> is_applied(out, *t, *p),
        r matches Some(out) ==> (opt_view(p.perm) matches Some(perm) ==> forall|idx: Seq<int>|
            #[trigger]
            in_bounds(t.shape@, idx) ==> out.data@[crate::tensor::ravel(
                permuted(t.shape@, perm),
                permuted_index(idx, perm),
            )] == t.at(idx)),
{
    match &p.perm {
        Some(perm) => {
            proof {
                lemma_volume_permuted(t.shape@, perm@);
            }
            let turned_t = t.transpose_axes(perm);
            match &p.shape {
                Some(shape) => turned_t.reshape(copy_list(shape)),
                None => Some(turned_t),
            }
        },
        None => {
            match &p.shape {
                Some(shape) => t.reshape(copy_list(shape)),
                None => t.reshape(copy_list(&t.shape)),
            }
        },
    }
}

/// The same list of machine words.
fn copy_list(v: &Vec<usize>) -> (r: Vec<usize>)
    ensures
        r@ == v@,
{
    let mut out: Vec<usize> = Vec::new();
    let mut i: usize = 0;
    while i < v.len()
        invariant
            i <= v.len(),
            out@ == v@.take(i as int),
        decreases v.len() - i,
    {
        out.push(v[i]);
        assert(v@.take(i + 1) =~= v@.take(i as int).push(v@[i as int]));
        i += 1;
    }
    assert(v@.take(i as int) =~= v@);
    out
}

/// The endings of the layers whose weights are quantized: the projections of both attentions and
/// the two layers of the feed-forward network.
pub open spec fn quant_endings() -> Seq<Seq<char>> {
    seq![
        ".self_attn.q"@,
        ".self_attn.k"@,
        ".self_attn.v"@,
        ".self_attn.o"@,
        ".cross_attn.q"@,
        ".cross_attn.k"@,
        ".cross_attn.v"@,
        ".cross_attn.o"@,
        ".ffn.fc1"@,
        ".ffn.fc2"@,
    ]
}

/// Whether the tensor is the weight of a layer that is quantized.
pub open spec fn is_quantized_key(k: Seq<char>) -> bool {
    has_suffix(k, ".weight"@) && exists|i: int|
        0 <= i < quant_endings().len() && has_suffix(
            without_suffix(k, ".weight"@),
            #[trigger] quant_endings()[i],
        )
}

/// Decides [`is_quantized_key`].
pub fn wan_quantize_predicate(key: &str) -> (r: bool)
    ensures
        r == is_quantized_key(key@),
{
    let ghost q = quant_endings();
    match strip_suffix(key, ".weight") {
        None => false,
        Some(base) => {
            let b = base.as_str();
            assert(q[0] == ".self_attn.q"@ && q[1] == ".self_attn.k"@ && q[2] == ".self_attn.v"@);
            assert(q[3] == ".self_attn.o"@ && q[4] == ".cross_attn.q"@ && q[5] == ".cross_attn.k"@);
            assert(q[6] == ".cross_attn.v"@ && q[7] == ".cross_attn.o"@ && q[8] == ".ffn.fc1"@);
            assert(q[9] == ".ffn.fc2"@);
            let r = ends_with(b, ".self_attn.q") || ends_with(b, ".self_attn.k") || ends_with(
                b,
                ".self_attn.v",
            ) || ends_with(b, ".self_attn.o") || ends_with(b, ".cross_attn.q") || ends_with(
                b,
                ".cross_attn.k",
            ) || ends_with(b, ".cross_attn.v") || ends_with(b, ".cross_attn.o") || ends_with(
                b,
                ".ffn.fc1",
            ) || ends_with(b, ".ffn.fc2");
            r
        },
    }
}

/// Which part of a tensor is stored.
#[derive(Debug, Clone, Copy, PartialEq, Eq, Structural)]
pub enum Part {
    /// The tensor as it is.
    Whole,
    /// Its packed values.
    Packed,
    /// The scales of its groups.
    Scales,
    /// The offsets of its groups.
    Biases,
}

/// A tensor that is stored after quantization.
#[derive(Debug)]
pub struct Stored {
    /// The position of the tensor that it comes from.
    pub source: usize,
    pub key: String,
    pub part: Part,
}

/// What is stored of tensor `i`: a quantized weight as its packed values, scales and offsets, any
/// other tensor as it is.
pub open spec fn stored_parts(i: usize, k: Seq<char>) -> Seq<(usize, Seq<char>, Part)> {
    if is_quantized_key(k) {
        let base = without_suffix(k, ".weight"@);
        seq![
            (i, base + ".weight"@, Part::Packed),
            (i, base + ".scales"@, Part::Scales),
            (i, base + ".biases"@, Part::Biases),
        ]
    } else {
        seq![(i, k, Part::Whole)]
    }
}

/// What is stored of the first `n` tensors.
pub open spec fn stored_all(keys: Seq<Seq<char>>, n: nat) -> Seq<(usize, Seq<char>, Part)>
    decreases n,
{
    if n == 0 {
        seq![]
    } else {
        stored_all(keys, (n - 1) as nat) + stored_parts((n - 1) as usize, keys[n - 1])
    }
}

/// What is stored, by its contents.
pub open spec fn stored_views(v: Seq<Stored>) -> Seq<(usize, Seq<char>, Part)> {
    v.map_values(|s: Stored| (s.source, s.key@, s.part))
}

/// Plans the quantization of a transformer.
pub fn quantize_wan_transformer(keys: &Vec<String>) -> (r: Vec<Stored>)
    ensures
        stored_views(r@) == stored_all(views(keys@), keys@.len()),
{
    let mut out: Vec<Stored> = Vec::new();
    let mut i: usize = 0;
    assert(stored_views(out@) =~= stored_all(views(keys@), 0));
    while i < keys.len()
        invariant
            i <= keys.len(),
            stored_views(out@) == stored_all(views(keys@), i as nat),
        decreases keys.len() - i,
    {
        let ghost before = stored_views(out@);
        let k = keys[i].as_str();
        assert(views(keys@)[i as int] == k@);
        let mut packed = false;
        if wan_quantize_predicate(k) {
            if let Some(base) = strip_suffix(k, ".weight") {
                packed = true;
                out.push(Stored { source: i, key: join2(base.as_str(), ".weight"), part: Part::Packed });
                out.push(Stored { source: i, key: join2(base.as_str(), ".scales"), part: Part::Scales });
                out.push(Stored { source: i, key: join2(base.as_str(), ".biases"), part: Part::Biases });
                assert(stored_views(out@) =~= before + stored_parts(i, k@));
            }
        }
        if !packed {
            out.push(Stored { source: i, key: keys[i].clone(), part: Part::Whole });
            assert(stored_views(out@) =~= before + stored_parts(i, k@));
        }
        i += 1;
    }
    out
}

/// The layers that are quantized are those that take adapters: the weight of every layer that the
/// model lists is quantized.
pub proof fn law_listed_layers_are_quantized(blocks: nat, k: int)
    requires
        0 <= k < blocks * 10,
    ensures
        is_quantized_key(listed_paths(blocks)[k] + ".weight"@),
{
    reveal_strlit(".");
    reveal_strlit("self_attn");
    reveal_strlit("cross_attn");
    reveal_strlit("ffn");
    reveal_strlit("fc1");
    reveal_strlit("fc2");
    reveal_strlit("q");
    reveal_strlit("k");
    reveal_strlit("v");
    reveal_strlit("o");
    reveal_strlit(".self_attn.q");
    reveal_strlit(".self_attn.k");
    reveal_strlit(".self_attn.v");
    reveal_strlit(".self_attn.o");
    reveal_strlit(".cross_attn.q");
    reveal_strlit(".cross_attn.k");
    reveal_strlit(".cross_attn.v");
    reveal_strlit(".cross_attn.o");
    reveal_strlit(".ffn.fc1");
    reveal_strlit(".ffn.fc2");
    let m = k % 10;
    let site = sites_in_order()[m];
    let i = (k / 10) as nat;
    let path = listed_paths(blocks)[k];
    let key = path + ".weight"@;
    let head = "blocks."@ + crate::text::decimal(i);
    let tail = "."@ + site_parts(site)[0] + "."@ + site_parts(site)[1];
    assert(path =~= head + tail);
    assert(tail =~= quant_endings()[m]);
    assert(key.subrange(key.len() - ".weight"@.len(), key.len() as int) =~= ".weight"@);
    assert(without_suffix(key, ".weight"@) =~= path);
    assert(path.subrange(path.len() - tail.len(), path.len() as int) =~= tail);
    assert(has_suffix(path, quant_endings()[m]));
}

/// The three files that every model directory shares with its base model.
pub open spec fn shared_names() -> Seq<Seq<char>> {
    seq!["t5_encoder.safetensors"@, "vae.safetensors"@, "tokenizer.json"@]
}

/// Which of the shared files are there.
#[derive(Debug, Clone, Copy, PartialEq, Eq, Structural)]
pub struct SharedFiles {
    pub t5_encoder: bool,
    pub vae: bool,
    pub tokenizer: bool,
}

impl SharedFiles {
    /// The first shared file that is missing.
    pub open spec fn missing(self) -> Option<Seq<char>> {
        if !self.t5_encoder {
            Some(shared_names()[0])
        } else if !self.vae {
            Some(shared_names()[1])
        } else if !self.tokenizer {
            Some(shared_names()[2])
        } else {
            None
        }
    }

    /// The first shared file that is missing.
    fn find_missing(self) -> (r: Option<String>)
        ensures
            match r {
                Some(n) => self.missing() == Some(n@),
                None => self.missing() is None,
            },
    {
        if !self.t5_encoder {
            Some("t5_encoder.safetensors".to_owned())
        } else if !self.vae {
            Some("vae.safetensors".to_owned())
        } else if !self.tokenizer {
            Some("tokenizer.json".to_owned())
        } else {
            None
        }
    }
}

/// What was found in a transformer directory.
#[derive(Debug)]
pub struct TransformerDir {
    pub path: String,
    pub has_config: bool,
    pub has_shard: bool,
}

/// What was found in the directory of the base model.
#[derive(Debug)]
pub struct BaseDir {
    pub path: String,
    pub files: SharedFiles,
}

/// One entry of a model directory: where it goes and what it is taken from.
#[derive(Debug)]
pub struct Placement {
    pub to: String,
    pub from: String,
}

/// The entries, by their contents.
pub open spec fn placement_views(v: Seq<Placement>) -> Seq<(Seq<char>, Seq<char>)> {
    v.map_values(|p: Placement| (p.to@, p.from@))
}

/// The entries that come from the base model.
pub open spec fn shared_placements(base: Seq<char>) -> Seq<(Seq<char>, Seq<char>)> {
    shared_names().map_values(|n: Seq<char>| (n, base + "/"@ + n))
}

/// Appends the entries that come from the base model.
fn place_shared(out: &mut Vec<Placement>, base: &str)
    ensures
        placement_views(final(out)@) == placement_views(old(out)@) + shared_placements(base@),
{
    let ghost before = out@;
    let dir = join2(base, "/");
    out.push(
        Placement {
            to: "t5_encoder.safetensors".to_owned(),
            from: join2(dir.as_str(), "t5_encoder.safetensors"),
        },
    );
    out.push(
        Placement {
            to: "vae.safetensors".to_owned(),
            from: join2(dir.as_str(), "vae.safetensors"),
        },
    );
    out.push(
        Placement {
            to: "tokenizer.json".to_owned(),
            from: join2(dir.as_str(), "tokenizer.json"),
        },
    );
    assert(placement_views(out@) =~= placement_views(before) + shared_placements(base@));
}

/// Why a dense controllable-video directory cannot be put together.
pub open spec fn vace_fault(tf: TransformerDir, base: BaseDir) -> Option<Seq<char>> {
    if !tf.has_config {
        Some(
            "assemble_wan_vace_snapshot: no config.json under "@ + tf.path@
                + " (expected the diffusers VACE `transformer/` dir)"@,
        )
    } else if !tf.has_shard {
        Some("assemble_wan_vace_snapshot: no .safetensors shards under "@ + tf.path@)
    } else {
        match base.files.missing() {
            Some(n) => Some(
                "assemble_wan_vace_snapshot: base snapshot "@ + base.path@ + " is missing "@ + n
                    + " (point at a converted base-Wan dir, e.g. a convert_t2v_14b/convert_i2v_14b output)"@,
            ),
            None => None,
        }
    }
}

/// Whether entries are those of a directory: the given ones, and the files that are shared with the base
/// model.
pub open spec fn is_layout(
    v: Seq<Placement>,
    own: Seq<(Seq<char>, Seq<char>)>,
    base: Seq<char>,
) -> bool {
    placement_views(v) == own + shared_placements(base)
}

/// Whether entries are those of the directory of a dense controllable-video model.
pub open spec fn is_vace_layout(v: Seq<Placement>, transformer: Seq<char>, base: Seq<char>) -> bool {
    is_layout(v, seq![("transformer"@, transformer)], base)
}

/// Whether entries are those of the directory of a dual controllable-video model.
pub open spec fn is_vace_fun_layout(
    v: Seq<Placement>,
    high: Seq<char>,
    low: Seq<char>,
    base: Seq<char>,
) -> bool {
    is_layout(v, seq![("transformer"@, high), ("transformer_2"@, low)], base)
}

/// Plans the directory of a dense controllable-video model: its transformer, and the files that it
/// shares with the base model. Nothing is planned where a part is missing.
pub fn assemble_wan_vace_snapshot(tf: &TransformerDir, base: &BaseDir) -> (r: Result<
    Vec<Placement>,
    Error,
>)
    ensures
        match r {
            Ok(v) => {
                &&& vace_fault(*tf, *base) is None
                &&& placement_views(v@) == seq![("transformer"@, tf.path@)] + shared_placements(
                    base.path@,
                )
                &&& is_vace_layout(v@, tf.path@, base.path@)
            },
            Err(e) => e is Msg && vace_fault(*tf, *base) == Some(e.text()),
        },
{
    if !tf.has_config {
        return Err(
            Error::Msg(
                join2("assemble_wan_vace_snapshot: no config.json under ", tf.path.as_str()).concat(
                    " (expected the diffusers VACE `transformer/` dir)",
                ),
            ),
        );
    }
    if !tf.has_shard {
        return Err(
            Error::Msg(
                join2(
                    "assemble_wan_vace_snapshot: no .safetensors shards under ",
                    tf.path.as_str(),
                ),
            ),
        );
    }
    if let Some(n) = base.files.find_missing() {
        return Err(
            Error::Msg(
                join2("assemble_wan_vace_snapshot: base snapshot ", base.path.as_str()).concat(
                    " is missing ",
                ).concat(n.as_str()).concat(
                    " (point at a converted base-Wan dir, e.g. a convert_t2v_14b/convert_i2v_14b output)",
                ),
            ),
        );
    }
    let mut out: Vec<Placement> = Vec::new();
    out.push(Placement { to: "transformer".to_owned(), from: tf.path.clone() });
    assert(placement_views(out@) =~= seq![("transformer"@, tf.path@)]);
    place_shared(&mut out, base.path.as_str());
    Ok(out)
}

/// Why one expert of a dual controllable-video directory cannot be used.
pub open spec fn expert_fault(label: Seq<char>, tf: TransformerDir) -> Option<Seq<char>> {
    if !tf.has_config {
        Some(
            "assemble_wan_vace_fun_snapshot: no config.json under "@ + tf.path@
                + " (expected the diffusers VACE-Fun `"@ + label + "/` expert dir)"@,
        )
    } else if !tf.has_shard {
        Some("assemble_wan_vace_fun_snapshot: no .safetensors shards under "@ + tf.path@)
    } else {
        None
    }
}

/// Why a dual controllable-video directory cannot be put together.
pub open spec fn vace_fun_fault(
    high: TransformerDir,
    low: TransformerDir,
    base: BaseDir,
) -> Option<Seq<char>> {
    match expert_fault("transformer"@, high) {
        Some(e) => Some(e),
        None => match expert_fault("transformer_2"@, low) {
            Some(e) => Some(e),
            None => match base.files.missing() {
                Some(n) => Some(
                    "assemble_wan_vace_fun_snapshot: base snapshot "@ + base.path@
                        + " is missing "@ + n
                        + " (point at a converted base-Wan dir, e.g. a convert_t2v_14b/convert_i2v_14b output)"@,
                ),
                None => None,
            },
        },
    }
}

/// Checks one expert of a dual controllable-video directory.
fn check_expert(label: &str, tf: &TransformerDir) -> (r: Result<(), Error>)
    ensures
        match r {
            Ok(()) => expert_fault(label@, *tf) is None,
            Err(e) => e is Msg && expert_fault(label@, *tf) == Some(e.text()),
        },
{
    if !tf.has_config {
        return Err(
            Error::Msg(
                join2(
                    "assemble_wan_vace_fun_snapshot: no config.json under ",
                    tf.path.as_str(),
                ).concat(" (expected the diffusers VACE-Fun `").concat(label).concat(
                    "/` expert dir)",
                ),
            ),
        );
    }
    if !tf.has_shard {
        return Err(
            Error::Msg(
                join2(
                    "assemble_wan_vace_fun_snapshot: no .safetensors shards under ",
                    tf.path.as_str(),
                ),
            ),
        );
    }
    Ok(())
}

/// Plans the directory of a dual controllable-video model: both experts, and the files that it
/// shares with the base model.
pub fn assemble_wan_vace_fun_snapshot(
    high: &TransformerDir,
    low: &TransformerDir,
    base: &BaseDir,
) -> (r: Result<Vec<Placement>, Error>)
    ensures
        match r {
            Ok(v) => {
                &&& vace_fun_fault(*high, *low, *base) is None
                &&& placement_views(v@) == seq![
                    ("transformer"@, high.path@),
                    ("transformer_2"@, low.path@),
                ] + shared_placements(base.path@)
                &&& is_vace_fun_layout(v@, high.path@, low.path@, base.path@)
            },
            Err(e) => e is Msg && vace_fun_fault(*high, *low, *base) == Some(e.text()),
        },
{
    match check_expert("transformer", high) {
        Ok(()) => {},
        Err(e) => {
            return Err(e);
        },
    }
    match check_expert("transformer_2", low) {
        Ok(()) => {},
        Err(e) => {
            return Err(e);
        },
    }
    if let Some(n) = base.files.find_missing() {
        return Err(
            Error::Msg(
                join2("assemble_wan_vace_fun_snapshot: base snapshot ", base.path.as_str()).concat(
                    " is missing ",
                ).concat(n.as_str()).concat(
                    " (point at a converted base-Wan dir, e.g. a convert_t2v_14b/convert_i2v_14b output)",
                ),
            ),
        );
    }
    let mut out: Vec<Placement> = Vec::new();
    out.push(Placement { to: "transformer".to_owned(), from: high.path.clone() });
    out.push(Placement { to: "transformer_2".to_owned(), from: low.path.clone() });
    assert(placement_views(out@) =~= seq![
        ("transformer"@, high.path@),
        ("transformer_2"@, low.path@),
    ]);
    place_shared(&mut out, base.path.as_str());
    Ok(out)
}

/// What is done with an entry that already stands where a component goes.
#[derive(Debug, Clone, Copy, PartialEq, Eq, Structural)]
pub enum Clearing {
    Nothing,
    RemoveDir,
    RemoveFile,
}

/// How a component gets to its place.
#[derive(Debug, Clone, Copy, PartialEq, Eq, Structural)]
pub enum Placing {
    Link,
    CopyDir,
    CopyFile,
}

/// Whether what stands at a component's place is cleared and the component placed as it is to be.
pub open spec fn is_placing(
    r: (Clearing, Placing),
    is_symlink: bool,
    present: bool,
    is_dir: bool,
    link: bool,
    source_is_dir: bool,
) -> bool {
    &&& r.0 == if !is_symlink && !present {
        Clearing::Nothing
    } else if is_dir && !is_symlink {
        Clearing::RemoveDir
    } else {
        Clearing::RemoveFile
    }
    &&& r.1 == if link {
        Placing::Link
    } else if source_is_dir {
        Placing::CopyDir
    } else {
        Placing::CopyFile
    }
}

/// Nothing is removed where nothing stands, and something always is where something does. A link is removed
/// as a file, whatever it leads to, and only a real directory is removed as one. A component that is not
/// linked is copied as what it is.
pub proof fn law_links_are_not_followed(
    r: (Clearing, Placing),
    is_symlink: bool,
    present: bool,
    is_dir: bool,
    link: bool,
    source_is_dir: bool,
)
    requires
        is_placing(r, is_symlink, present, is_dir, link, source_is_dir),
    ensures
        r.0 == Clearing::Nothing <==> !(is_symlink || present),
        is_symlink ==> r.0 == Clearing::RemoveFile,
        r.0 == Clearing::RemoveDir <==> present && is_dir && !is_symlink,
        link <==> r.1 == Placing::Link,
        r.1 == Placing::CopyDir ==> source_is_dir,
        r.1 == Placing::CopyFile ==> !source_is_dir,
{
}

/// Decides how a component replaces what stands at its place. A link is never followed: only a real
/// directory is removed as one.
pub fn place_component(
    is_symlink: bool,
    present: bool,
    is_dir: bool,
    link: bool,
    source_is_dir: bool,
) -> (r: (Clearing, Placing))
    ensures
        r.0 == if !is_symlink && !present {
            Clearing::Nothing
        } else if is_dir && !is_symlink {
            Clearing::RemoveDir
        } else {
            Clearing::RemoveFile
        },
        r.1 == if link {
            Placing::Link
        } else if source_is_dir {
            Placing::CopyDir
        } else {
            Placing::CopyFile
        },
        is_placing(r, is_symlink, present, is_dir, link, source_is_dir),
{
    let clearing = if is_symlink || present {
        if is_dir && !is_symlink {
            Clearing::RemoveDir
        } else {
            Clearing::RemoveFile
        }
    } else {
        Clearing::Nothing
    };
    let placing = if link {
        Placing::Link
    } else if source_is_dir {
        Placing::CopyDir
    } else {
        Placing::CopyFile
    };
    (clearing, placing)
}

/// What `serde_json` reads of the member `key` of the JSON object that `text` holds: the member as
/// a truth value, as a signed integer and as a double-precision number in its IEEE bits, each where
/// it can be read so. `None` where the text is no JSON, or no object that has the member.
pub uninterp spec fn json_member(text: Seq<u8>, key: Seq<char>) -> Option<
    (Option<bool>, Option<i64>, Option<u64>),
>;

/// `serde_json::from_slice` into a `Value`, then `Value::get`, then `Value::as_bool`, `Value::as_i64`
/// and `Value::as_f64` on the member. What they give depends on the text and the key alone, and that
/// result has the name [`json_member`].
#[verifier::external_body]
fn read_member(text: &Vec<u8>, key: &str) -> (r: Option<(Option<bool>, Option<i64>, Option<u64>)>)
    ensures
        r == json_member(text@, key@),
{
    let value: serde_json::Value = serde_json::from_slice(text.as_slice()).ok()?;
    let member = value.get(key)?;
    Some((member.as_bool(), member.as_i64(), member.as_f64().map(|x| x.to_bits())))
}

/// The knobs of a renderer. A double-precision number is held by its IEEE bits.
#[derive(Debug, Clone, Copy, PartialEq, Eq, Structural)]
pub struct RendererKnobs {
    pub switch_dit_boundary: u64,
    pub shift: u64,
    pub use_src_id_rotary_emb: bool,
    pub interpolate_src_id: bool,
    pub max_trained_src_id: i64,
    pub max_sequence_length: i64,
    pub flow_shift: u64,
}

/// What the configuration says of each knob, where it says anything.
#[derive(Debug, Clone, Copy, PartialEq, Eq, Structural)]
pub struct KnobReadings {
    pub switch_dit_boundary: Option<u64>,
    pub shift: Option<u64>,
    pub use_src_id_rotary_emb: Option<bool>,
    pub interpolate_src_id: Option<bool>,
    pub max_trained_src_id: Option<i64>,
    pub max_sequence_length: Option<i64>,
    pub flow_shift: Option<u64>,
}

/// The IEEE bits of seven eighths.
pub const DEFAULT_BOUNDARY_BITS: u64 = 0x3FEC_0000_0000_0000;

/// The IEEE bits of three.
pub const DEFAULT_SHIFT_BITS: u64 = 0x4008_0000_0000_0000;

/// The IEEE bits of five.
pub const DEFAULT_FLOW_SHIFT_BITS: u64 = 0x4014_0000_0000_0000;

/// `v`, or `d` without it.
pub open spec fn or_default<A>(v: Option<A>, d: A) -> A {
    match v {
        Some(x) => x,
        None => d,
    }
}

/// The knobs that the readings give, with the default of each that is not said.
pub open spec fn knobs_of(c: KnobReadings) -> RendererKnobs {
    RendererKnobs {
        switch_dit_boundary: or_default(c.switch_dit_boundary, DEFAULT_BOUNDARY_BITS),
        shift: or_default(c.shift, DEFAULT_SHIFT_BITS),
        use_src_id_rotary_emb: or_default(c.use_src_id_rotary_emb, true),
        interpolate_src_id: or_default(c.interpolate_src_id, true),
        max_trained_src_id: or_default(c.max_trained_src_id, 5),
        max_sequence_length: or_default(c.max_sequence_length, 512),
        flow_shift: or_default(c.flow_shift, DEFAULT_FLOW_SHIFT_BITS),
    }
}

/// The knobs that the readings give, with the default of each that is not said.
pub fn renderer_knobs(c: KnobReadings) -> (r: RendererKnobs)
    ensures
        r == knobs_of(c),
{
    RendererKnobs {
        switch_dit_boundary: match c.switch_dit_boundary {
            Some(x) => x,
            None => DEFAULT_BOUNDARY_BITS,
        },
        shift: match c.shift {
            Some(x) => x,
            None => DEFAULT_SHIFT_BITS,
        },
        use_src_id_rotary_emb: match c.use_src_id_rotary_emb {
            Some(x) => x,
            None => true,
        },
        interpolate_src_id: match c.interpolate_src_id {
            Some(x) => x,
            None => true,
        },
        max_trained_src_id: match c.max_trained_src_id {
            Some(x) => x,
            None => 5,
        },
        max_sequence_length: match c.max_sequence_length {
            Some(x) => x,
            None => 512,
        },
        flow_shift: match c.flow_shift {
            Some(x) => x,
            None => DEFAULT_FLOW_SHIFT_BITS,
        },
    }
}

/// A member of the configuration as a truth value.
pub open spec fn bool_member(text: Option<Seq<u8>>, key: Seq<char>) -> Option<bool> {
    match text {
        Some(t) => match json_member(t, key) {
            Some(m) => m.0,
            None => None,
        },
        None => None,
    }
}

/// A member of the configuration as a signed integer.
pub open spec fn int_member(text: Option<Seq<u8>>, key: Seq<char>) -> Option<i64> {
    match text {
        Some(t) => match json_member(t, key) {
            Some(m) => m.1,
            None => None,
        },
        None => None,
    }
}

/// A member of the configuration as the bits of a double-precision number.
pub open spec fn float_member(text: Option<Seq<u8>>, key: Seq<char>) -> Option<u64> {
    match text {
        Some(t) => match json_member(t, key) {
            Some(m) => m.2,
            None => None,
        },
        None => None,
    }
}

/// What a configuration text says of each knob.
pub open spec fn readings_of(text: Option<Seq<u8>>) -> KnobReadings {
    KnobReadings {
        switch_dit_boundary: float_member(text, "switch_dit_boundary"@),
        shift: float_member(text, "shift"@),
        use_src_id_rotary_emb: bool_member(text, "use_src_id_rotary_emb"@),
        interpolate_src_id: bool_member(text, "interpolate_src_id"@),
        max_trained_src_id: int_member(text, "max_trained_src_id"@),
        max_sequence_length: int_member(text, "max_sequence_length"@),
        flow_shift: float_member(text, "flow_shift"@),
    }
}

/// The contents of a configuration file, where there is one.
pub open spec fn text_view(text: Option<Vec<u8>>) -> Option<Seq<u8>> {
    match text {
        Some(t) => Some(t@),
        None => None,
    }
}

/// The knobs of a renderer, read from its configuration where it has one. A knob that the
/// configuration does not say, or says with another type, has its default.
pub fn bernini_renderer_knobs(config: &Option<Vec<u8>>) -> (r: RendererKnobs)
    ensures
        r == knobs_of(readings_of(text_view(*config))),
{
    let mut c = KnobReadings {
        switch_dit_boundary: None,
        shift: None,
        use_src_id_rotary_emb: None,
        interpolate_src_id: None,
        max_trained_src_id: None,
        max_sequence_length: None,
        flow_shift: None,
    };
    if let Some(text) = config {
        if let Some(m) = read_member(text, "switch_dit_boundary") {
            c.switch_dit_boundary = m.2;
        }
        if let Some(m) = read_member(text, "shift") {
            c.shift = m.2;
        }
        if let Some(m) = read_member(text, "use_src_id_rotary_emb") {
            c.use_src_id_rotary_emb = m.0;
        }
        if let Some(m) = read_member(text, "interpolate_src_id") {
            c.interpolate_src_id = m.0;
        }
        if let Some(m) = read_member(text, "max_trained_src_id") {
            c.max_trained_src_id = m.1;
        }
        if let Some(m) = read_member(text, "max_sequence_length") {
            c.max_sequence_length = m.1;
        }
        if let Some(m) = read_member(text, "flow_shift") {
            c.flow_shift = m.2;
        }
    }
    renderer_knobs(c)
}

/// A renderer without a configuration has the default knobs.
pub proof fn law_knobs_default_without_config()
    ensures
        knobs_of(readings_of(None)) == (RendererKnobs {
            switch_dit_boundary: DEFAULT_BOUNDARY_BITS,
            shift: DEFAULT_SHIFT_BITS,
            use_src_id_rotary_emb: true,
            interpolate_src_id: true,
            max_trained_src_id: 5,
            max_sequence_length: 512,
            flow_shift: DEFAULT_FLOW_SHIFT_BITS,
        }),
{
}

/// The keys that begin with `prefix`, without it, each with its position.
pub open spec fn extracted(keys: Seq<Seq<char>>, prefix: Seq<char>, n: nat) -> Seq<
    (usize, Seq<char>),
>
    decreases n,
{
    if n == 0 {
        seq![]
    } else if has_prefix(keys[n - 1], prefix) {
        extracted(keys, prefix, (n - 1) as nat).push(
            ((n - 1) as usize, without_prefix(keys[n - 1], prefix)),
        )
    } else {
        extracted(keys, prefix, (n - 1) as nat)
    }
}

/// Numbered texts, by their contents.
pub open spec fn numbered_views(v: Seq<(usize, String)>) -> Seq<(usize, Seq<char>)> {
    v.map_values(|p: (usize, String)| (p.0, p.1@))
}

/// Why an expert cannot be taken out of the combined index.
pub open spec fn extract_fault(
    dir: Seq<char>,
    shards: nat,
    keys: Seq<Seq<char>>,
    prefix: Seq<char>,
) -> Option<Seq<char>> {
    if shards == 0 {
        Some("assemble_bernini_renderer_snapshot: no .safetensors shards under "@ + dir)
    } else if extracted(keys, prefix, keys.len()).len() == 0 {
        Some(
            "assemble_bernini_renderer_snapshot: no keys with prefix '"@ + prefix + "' under "@
                + dir + " (expected a ByteDance/Bernini-Diffusers `bernini/` index)"@,
        )
    } else {
        None
    }
}

/// Takes the tensors of one expert out of a combined index: those whose keys begin with `prefix`,
/// without it. An index without shards, or without such a key, is an error.
pub fn extract_bernini_expert(dir: &str, shards: usize, keys: &Vec<String>, prefix: &str) -> (r:
    Result<Vec<(usize, String)>, Error>)
    ensures
        match r {
            Ok(v) => {
                &&& extract_fault(dir@, shards as nat, views(keys@), prefix@) is None
                &&& numbered_views(v@) == extracted(views(keys@), prefix@, keys@.len())
            },
            Err(e) => e is Msg && extract_fault(dir@, shards as nat, views(keys@), prefix@) == Some(
                e.text(),
            ),
        },
{
    if shards == 0 {
        return Err(
            Error::Msg(
                join2("assemble_bernini_renderer_snapshot: no .safetensors shards under ", dir),
            ),
        );
    }
    let mut out: Vec<(usize, String)> = Vec::new();
    let mut i: usize = 0;
    assert(numbered_views(out@) =~= extracted(views(keys@), prefix@, 0));
    while i < keys.len()
        invariant
            i <= keys.len(),
            numbered_views(out@) == extracted(views(keys@), prefix@, i as nat),
        decreases keys.len() - i,
    {
        let ghost before = numbered_views(out@);
        assert(views(keys@)[i as int] == keys@[i as int]@);
        if let Some(rest) = strip_prefix(keys[i].as_str(), prefix) {
            out.push((i, rest));
            assert(numbered_views(out@) =~= before.push((i, rest@)));
        }
        i += 1;
    }
    assert(numbered_views(out@).len() == out@.len());
    if out.len() == 0 {
        return Err(
            Error::Msg(
                join2(
                    "assemble_bernini_renderer_snapshot: no keys with prefix '",
                    prefix,
                ).concat("' under ").concat(dir).concat(
                    " (expected a ByteDance/Bernini-Diffusers `bernini/` index)",
                ),
            ),
        );
    }
    Ok(out)
}

/// Whether a file name has the extension of a tensor file: what stands behind its last dot, which is
/// not its first character.
pub open spec fn is_shard_name(name: Seq<char>) -> bool {
    has_suffix(name, ".safetensors"@) && name.len() > ".safetensors"@.len()
}

/// The tensor files among the names.
pub open spec fn shard_names(names: Seq<Seq<char>>) -> Seq<Seq<char>>
    decreases names.len(),
{
    if names.len() == 0 {
        seq![]
    } else if is_shard_name(names.last()) {
        shard_names(names.drop_last()).push(names.last())
    } else {
        shard_names(names.drop_last())
    }
}

/// Decides [`is_shard_name`].
pub fn is_shard(name: &str) -> (r: bool)
    ensures
        r == is_shard_name(name@),
{
    match strip_suffix(name, ".safetensors") {
        Some(stem) => !stem.as_str().is_empty(),
        None => false,
    }
}

/// The tensor files of a directory, in ascending order.
pub fn shard_order(names: &Vec<String>) -> (r: Vec<String>)
    ensures
        views(r@) == sorted_set(shard_names(views(names@))),
{
    let mut out: Vec<String> = Vec::new();
    let mut i: usize = 0;
    assert(views(out@) =~= shard_names(views(names@).take(0)));
    while i < names.len()
        invariant
            i <= names.len(),
            views(out@) == shard_names(views(names@).take(i as int)),
        decreases names.len() - i,
    {
        let ghost before = views(out@);
        proof {
            let next = views(names@).take(i + 1);
            assert(next.drop_last() =~= views(names@).take(i as int));
            assert(next.last() == names@[i as int]@);
        }
        if is_shard(names[i].as_str()) {
            out.push(names[i].clone());
            assert(views(out@) =~= before.push(names@[i as int]@));
        }
        i += 1;
    }
    assert(views(names@).take(i as int) =~= views(names@));
    sort_unique(&out)
}

/// The plan of a renderer's directory.
#[derive(Debug)]
pub struct RendererPlan {
    /// For each expert the prefix of its tensors and the file that it goes to.
    pub experts: Vec<(String, String)>,
    /// The file of the model configuration.
    pub config: String,
    /// The file of the renderer's knobs.
    pub sidecar: String,
    /// What is shared with the base model.
    pub shared: Vec<Placement>,
}

/// Why a renderer's directory cannot be put together.
pub open spec fn bernini_fault(package: Seq<char>, has_index: bool, base: BaseDir) -> Option<
    Seq<char>,
> {
    if !has_index {
        Some(
            "assemble_bernini_renderer_snapshot: no `bernini/` dir under "@ + package
                + " (point at a ByteDance/Bernini-Diffusers snapshot root)"@,
        )
    } else {
        match base.files.missing() {
            Some(n) => Some(
                "assemble_bernini_renderer_snapshot: base snapshot "@ + base.path@ + " is missing "@
                    + n
                    + " (point at a convert_t2v_14b output — Bernini-R reuses the stock Wan2.2 T5/VAE/tokenizer)"@,
            ),
            None => None,
        }
    }
}

/// Whether a plan is that of a renderer's directory.
pub open spec fn is_renderer_plan(p: RendererPlan, base: Seq<char>) -> bool {
    &&& crate::adapters::pair_views(p.experts@) == seq![
        ("diff_dec.transformer."@, "high_noise_model.safetensors"@),
        ("diff_dec_low.transformer_2."@, "low_noise_model.safetensors"@),
    ]
    &&& placement_views(p.shared@) == shared_placements(base)
}

/// Whether conversions are those of the two experts of a native checkpoint.
pub open spec fn are_expert_conversions(v: Seq<(String, String)>) -> bool {
    crate::adapters::pair_views(v) == seq![
        ("low_noise_model"@, "low_noise_model.safetensors"@),
        ("high_noise_model"@, "high_noise_model.safetensors"@),
    ]
}

/// Plans the directory of a renderer: its two experts out of the combined index, its configuration
/// and knobs, and the files that it shares with the base model.
pub fn assemble_bernini_renderer_snapshot(package: &str, has_index: bool, base: &BaseDir) -> (r:
    Result<RendererPlan, Error>)
    ensures
        match r {
            Ok(p) => {
                &&& bernini_fault(package@, has_index, *base) is None
                &&& crate::adapters::pair_views(p.experts@) == seq![
                    ("diff_dec.transformer."@, "high_noise_model.safetensors"@),
                    ("diff_dec_low.transformer_2."@, "low_noise_model.safetensors"@),
                ]
                &&& p.config@ == "config.json"@
                &&& p.sidecar@ == "bernini_renderer.json"@
                &&& placement_views(p.shared@) == shared_placements(base.path@)
                &&& is_renderer_plan(p, base.path@)
            },
            Err(e) => e is Msg && bernini_fault(package@, has_index, *base) == Some(e.text()),
        },
{
    if !has_index {
        return Err(
            Error::Msg(
                join2(
                    "assemble_bernini_renderer_snapshot: no `bernini/` dir under ",
                    package,
                ).concat(" (point at a ByteDance/Bernini-Diffusers snapshot root)"),
            ),
        );
    }
    if let Some(n) = base.files.find_missing() {
        return Err(
            Error::Msg(
                join2(
                    "assemble_bernini_renderer_snapshot: base snapshot ",
                    base.path.as_str(),
                ).concat(" is missing ").concat(n.as_str()).concat(
                    " (point at a convert_t2v_14b output — Bernini-R reuses the stock Wan2.2 T5/VAE/tokenizer)",
                ),
            ),
        );
    }
    let mut experts: Vec<(String, String)> = Vec::new();
    experts.push(("diff_dec.transformer.".to_owned(), "high_noise_model.safetensors".to_owned()));
    experts.push(
        ("diff_dec_low.transformer_2.".to_owned(), "low_noise_model.safetensors".to_owned()),
    );
    assert(crate::adapters::pair_views(experts@) =~= seq![
        ("diff_dec.transformer."@, "high_noise_model.safetensors"@),
        ("diff_dec_low.transformer_2."@, "low_noise_model.safetensors"@),
    ]);
    let mut shared: Vec<Placement> = Vec::new();
    place_shared(&mut shared, base.path.as_str());
    assert(placement_views(shared@) =~= shared_placements(base.path@));
    Ok(
        RendererPlan {
            experts,
            config: "config.json".to_owned(),
            sidecar: "bernini_renderer.json".to_owned(),
            shared,
        },
    )
}

/// Which autoencoder of a checkpoint is converted.
#[derive(Debug, Clone, Copy, PartialEq, Eq, Structural)]
pub enum VaeSource {
    /// The first one, with sixteen latent channels.
    Z16,
    /// The second one, with its encoder.
    Z48,
}

/// Chooses the autoencoder of a dual-expert checkpoint: the first one where it is there, else the
/// second.
pub fn choose_vae(dir: &str, has_z16: bool, has_z48: bool) -> (r: Result<VaeSource, Error>)
    ensures
        match r {
            Ok(v) => (has_z16 || has_z48) && v == if has_z16 {
                VaeSource::Z16
            } else {
                VaeSource::Z48
            },
            Err(e) => !has_z16 && !has_z48 && e is Msg && e.text() == "no VAE (.pth) found in "@
                + dir@ + " — provide Wan2.1_VAE.pth or Wan2.2_VAE.pth"@,
        },
        is_vae_choice(r, has_z16, has_z48),
{
    if has_z16 {
        Ok(VaeSource::Z16)
    } else if has_z48 {
        Ok(VaeSource::Z48)
    } else {
        Err(
            Error::Msg(
                join2("no VAE (.pth) found in ", dir).concat(
                    " — provide Wan2.1_VAE.pth or Wan2.2_VAE.pth",
                ),
            ),
        )
    }
}

/// The directories of the two experts of a native checkpoint with the files that they are converted
/// to, low noise first; an expert that is missing is an error.
pub fn expert_conversions(dir: &str, has_low: bool, has_high: bool) -> (r: Result<
    Vec<(String, String)>,
    Error,
>)
    ensures
        match r {
            Ok(v) => has_low && has_high && crate::adapters::pair_views(v@) == seq![
                ("low_noise_model"@, "low_noise_model.safetensors"@),
                ("high_noise_model"@, "high_noise_model.safetensors"@),
            ] && are_expert_conversions(v@),
            Err(e) => !(has_low && has_high) && e is Msg && e.text() == "missing expert dir: "@
                + dir@ + "/"@ + (if !has_low {
                "low_noise_model"@
            } else {
                "high_noise_model"@
            }),
        },
{
    if !has_low || !has_high {
        let name = if !has_low {
            "low_noise_model"
        } else {
            "high_noise_model"
        };
        return Err(Error::Msg(join2("missing expert dir: ", dir).concat("/").concat(name)));
    }
    let mut out: Vec<(String, String)> = Vec::new();
    out.push(("low_noise_model".to_owned(), "low_noise_model.safetensors".to_owned()));
    out.push(("high_noise_model".to_owned(), "high_noise_model.safetensors".to_owned()));
    assert(crate::adapters::pair_views(out@) =~= seq![
        ("low_noise_model"@, "low_noise_model.safetensors"@),
        ("high_noise_model"@, "high_noise_model.safetensors"@),
    ]);
    Ok(out)
}

/// Whether an autoencoder is chosen of those that there are.
pub open spec fn is_vae_choice(r: Result<VaeSource, Error>, has_z16: bool, has_z48: bool) -> bool {
    match r {
        Ok(v) => (has_z16 || has_z48) && v == if has_z16 {
            VaeSource::Z16
        } else {
            VaeSource::Z48
        },
        Err(_) => !has_z16 && !has_z48,
    }
}

/// An autoencoder that is not there is never chosen, one is where there is any, and of both the one with 16
/// channels is.
pub proof fn law_an_autoencoder_that_is_there_is_chosen(
    r: Result<VaeSource, Error>,
    has_z16: bool,
    has_z48: bool,
)
    requires
        is_vae_choice(r, has_z16, has_z48),
    ensures
        r is Ok <==> has_z16 || has_z48,
        r is Ok && !has_z16 ==> r->Ok_0 == VaeSource::Z48,
        r is Ok && !has_z48 ==> r->Ok_0 == VaeSource::Z16,
        has_z16 && has_z48 ==> r->Ok_0 == VaeSource::Z16,
{
}

} // verus!
