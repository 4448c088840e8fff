//! What converting a checkpoint comes to: where every element of a tensor goes, which tensors are kept,
//! and what is stored of a quantized one.

use vstd::prelude::*;
use crate::convert::{
    is_shard_name, shard_names,
    t5_key, transformer_key, vae22_attention, vae22_key, vae22_layers, vae22_resample,
    are_expert_conversions, extracted, is_renderer_plan, is_vace_fun_layout, is_vace_layout,
    knobs_of, placement_views, shared_placements, KnobReadings, Placement, RendererPlan, is_applied, is_quantized_key, opt_view, plan_view, planned_entries, planned_entry, quant_endings,
    squeezed, stored_all, stored_parts, stored_views, Entry, Part, Planned, Source, Stored,
};
use crate::tensor::{in_bounds, permuted, permuted_index, volume, Tensor};
use crate::adapters::pair_views;
use crate::names::lemma_replaced_once;
use crate::text::{lemma_replaced_absent, occurs_at, replaced, has_prefix, has_suffix, has_text, views, without_suffix};

verus! {

/// Whether a conversion of a video autoencoder takes a stored tensor for the weight of a layer. The first
/// autoencoder goes by the name alone; the second goes by how the new name ends.
pub open spec fn is_layer_weight(from: Source, e: Entry, p: Planned) -> bool {
    match from {
        Source::Vae16 => has_text(e.key@, "weight"@),
        Source::Vae22 { include_encoder: _ } => has_suffix(p.key@, ".weight"@) || has_suffix(
            p.key@,
            "_weight"@,
        ),
        _ => false,
    }
}

/// Whether a plan is that of a stored tensor for a conversion of a video autoencoder.
pub open spec fn is_vae_plan(from: Source, i: usize, e: Entry, p: Planned) -> bool {
    &&& from is Vae16 || from is Vae22
    &&& planned_entry(from, i, e) == Some(plan_view(p))
}

/// The weight of a convolution over time, rows and columns is stored with its input channels last: the
/// element of an output channel, an input channel and a place in the kernel is found at the output
/// channel, the place, and then the input channel.
pub proof fn law_video_kernel_has_its_channels_last<T>(
    from: Source,
    i: usize,
    e: Entry,
    p: Planned,
    t: Tensor<T>,
    out: Tensor<T>,
    at: (int, int, int, int, int),
)
    requires
        is_vae_plan(from, i, e, p),
        is_layer_weight(from, e, p),
        from is Vae22 ==> !has_text(p.key@, "gamma"@),
        t.wf(),
        t.shape@ == e.shape@,
        t.shape@.len() == 5,
        is_applied(out, t, p),
        0 <= at.0 < t.shape@[0],
        0 <= at.1 < t.shape@[1],
        0 <= at.2 < t.shape@[2],
        0 <= at.3 < t.shape@[3],
        0 <= at.4 < t.shape@[4],
    ensures
        ({
            let (o, c, d, h, w) = at;
            let s = t.shape@;
            &&& out.shape@ == seq![s[0], s[2], s[3], s[4], s[1]]
            &&& out.at(seq![o, d, h, w, c]) == t.at(seq![o, c, d, h, w])
        }),
{
    let (o, c, d, h, w) = at;
    let s = t.shape@;
    let perm = opt_view(p.perm)->Some_0;
    let idx = seq![o, c, d, h, w];
    assert(in_bounds(s, idx));
    assert(permuted_index(idx, perm) =~= seq![o, d, h, w, c]);
    assert(permuted(s, perm) =~= seq![s[0], s[2], s[3], s[4], s[1]]);
}

/// The weight of a convolution over rows and columns is stored with its input channels last.
pub proof fn law_image_kernel_has_its_channels_last<T>(
    from: Source,
    i: usize,
    e: Entry,
    p: Planned,
    t: Tensor<T>,
    out: Tensor<T>,
    at: (int, int, int, int),
)
    requires
        is_vae_plan(from, i, e, p),
        is_layer_weight(from, e, p),
        from is Vae22 ==> !has_text(p.key@, "gamma"@),
        t.wf(),
        t.shape@ == e.shape@,
        t.shape@.len() == 4,
        is_applied(out, t, p),
        0 <= at.0 < t.shape@[0],
        0 <= at.1 < t.shape@[1],
        0 <= at.2 < t.shape@[2],
        0 <= at.3 < t.shape@[3],
    ensures
        ({
            let (o, c, h, w) = at;
            let s = t.shape@;
            &&& out.shape@ == seq![s[0], s[2], s[3], s[1]]
            &&& out.at(seq![o, h, w, c]) == t.at(seq![o, c, h, w])
        }),
{
    let (o, c, h, w) = at;
    let s = t.shape@;
    let perm = opt_view(p.perm)->Some_0;
    let idx = seq![o, c, h, w];
    assert(in_bounds(s, idx));
    assert(permuted_index(idx, perm) =~= seq![o, h, w, c]);
    assert(permuted(s, perm) =~= seq![s[0], s[2], s[3], s[1]]);
}

/// What is no kernel of a convolution keeps the order of its elements: a tensor of the autoencoders that
/// is no weight, or has another number of axes, and every tensor of a transformer and of the text encoder.
pub proof fn law_other_tensors_keep_their_order<T>(
    from: Source,
    i: usize,
    e: Entry,
    p: Planned,
    t: Tensor<T>,
    out: Tensor<T>,
)
    requires
        planned_entry(from, i, e) == Some(plan_view(p)),
        t.wf(),
        t.shape@ == e.shape@,
        is_applied(out, t, p),
        !is_layer_weight(from, e, p) || t.shape@.len() < 4 || t.shape@.len() > 5,
    ensures
        out.data@ == t.data@,
        from is Vae16 || from is T5 ==> out.shape@ == t.shape@,
{
}

/// Dropping axes of extent one keeps the other extents, in their order.
pub proof fn law_squeezing_keeps_the_other_extents(shape: Seq<usize>)
    ensures
        squeezed(shape) == shape.filter(|n: usize| n != 1),
    decreases shape.len(),
{
    reveal(Seq::filter);
    if shape.len() > 0 {
        law_squeezing_keeps_the_other_extents(shape.drop_last());
    } else {
        assert(squeezed(shape) =~= shape.filter(|n: usize| n != 1));
    }
}

/// The scales of a norm of the second autoencoder lose their axes of extent one, and nothing else is
/// reshaped.
pub proof fn law_norm_scales_are_squeezed<T>(
    include_encoder: bool,
    i: usize,
    e: Entry,
    p: Planned,
    t: Tensor<T>,
    out: Tensor<T>,
)
    requires
        planned_entry(Source::Vae22 { include_encoder }, i, e) == Some(plan_view(p)),
        t.wf(),
        t.shape@ == e.shape@,
        is_applied(out, t, p),
        !has_suffix(p.key@, ".weight"@) && !has_suffix(p.key@, "_weight"@),
    ensures
        out.data@ == t.data@,
        out.shape@ == if has_text(p.key@, "gamma"@) {
            t.shape@.filter(|n: usize| n != 1)
        } else {
            t.shape@
        },
{
    law_squeezing_keeps_the_other_extents(t.shape@);
}

/// The kernel that embeds the patches becomes a matrix: a row for every output channel, which holds the
/// rest of its elements in their order. No other tensor of a transformer is reshaped.
pub proof fn law_patch_embedding_becomes_a_matrix<T>(
    from: Source,
    i: usize,
    e: Entry,
    p: Planned,
    t: Tensor<T>,
    out: Tensor<T>,
)
    requires
        from is Transformer || from is Diffusers,
        planned_entry(from, i, e) == Some(plan_view(p)),
        t.wf(),
        t.shape@ == e.shape@,
        t.shape@.len() > 0,
        volume(t.shape@.skip(1)) <= usize::MAX,
        is_applied(out, t, p),
    ensures
        out.data@ == t.data@,
        e.key@ == "patch_embedding.weight"@ ==> p.key@ == "patch_embedding_proj.weight"@
            && out.shape@.len() == 2 && out.shape@[0] == t.shape@[0] && out.shape@[1] == volume(
            t.shape@.skip(1),
        ),
        e.key@ != "patch_embedding.weight"@ ==> out.shape@ == t.shape@,
{
}

/// Whether a conversion drops a stored tensor: the buffer of frequencies of a native transformer, and
/// what only the encoder of the second autoencoder has, where the encoder is not asked for.
pub open spec fn is_dropped(from: Source, key: Seq<char>) -> bool {
    match from {
        Source::Transformer => key == "freqs"@,
        Source::Vae22 { include_encoder } => !include_encoder && (has_prefix(key, "encoder."@)
            || has_prefix(key, "conv1."@)),
        _ => false,
    }
}

/// No text begins with a longer text.
proof fn lemma_short(s: Seq<char>, p: Seq<char>)
    requires
        s.len() < p.len(),
    ensures
        !has_prefix(s, p),
{
}

/// A tensor is planned where it is not dropped, under its own number.
proof fn lemma_planned(from: Source, i: usize, e: Entry)
    ensures
        planned_entry(from, i, e) is None <==> is_dropped(from, e.key@),
        planned_entry(from, i, e) matches Some(p) ==> p.0 == i,
{
    if from is Transformer && e.key@ == "freqs"@ {
        let k = e.key@;
        reveal_strlit("freqs");
        reveal_strlit("patch_embedding.weight");
        reveal_strlit("patch_embedding.bias");
        reveal_strlit("text_embedding.0.");
        reveal_strlit("text_embedding.2.");
        reveal_strlit("time_embedding.0.");
        reveal_strlit("time_embedding.2.");
        reveal_strlit("time_projection.1.");
        lemma_short(k, "text_embedding.0."@);
        lemma_short(k, "text_embedding.2."@);
        lemma_short(k, "time_embedding.0."@);
        lemma_short(k, "time_embedding.2."@);
        lemma_short(k, "time_projection.1."@);
    }
}

/// A conversion plans every stored tensor that it does not drop, once and in the stored order, and plans
/// no other.
pub proof fn law_every_kept_tensor_is_planned(from: Source, entries: Seq<Entry>, n: nat)
    requires
        n <= entries.len(),
        entries.len() <= usize::MAX,
    ensures
        ({
            let p = planned_entries(from, entries, n);
            &&& forall|k: int|
                0 <= k < p.len() ==> (#[trigger] p[k]).0 < n && !is_dropped(
                    from,
                    entries[p[k].0 as int].key@,
                ) && planned_entry(from, p[k].0, entries[p[k].0 as int]) == Some(p[k])
            &&& forall|j: int, k: int|
                0 <= j < k < p.len() ==> (#[trigger] p[j]).0 < (#[trigger] p[k]).0
            &&& forall|i: int|
                0 <= i < n && !is_dropped(from, (#[trigger] entries[i]).key@) ==> exists|k: int|
                    0 <= k < p.len() && (#[trigger] p[k]).0 == i
        }),
    decreases n,
{
    if n > 0 {
        let m = (n - 1) as nat;
        law_every_kept_tensor_is_planned(from, entries, m);
        let h = planned_entries(from, entries, m);
        let p = planned_entries(from, entries, n);
        lemma_planned(from, m as usize, entries[n - 1]);
        assert forall|k: int| 0 <= k < p.len() implies (#[trigger] p[k]).0 < n && !is_dropped(
            from,
            entries[p[k].0 as int].key@,
        ) && planned_entry(from, p[k].0, entries[p[k].0 as int]) == Some(p[k]) by {
            if k < h.len() {
                assert(p[k] == h[k]);
            }
        }
        assert forall|j: int, k: int| 0 <= j < k < p.len() implies (#[trigger] p[j]).0 < (
        #[trigger] p[k]).0 by {
            assert(p[j] == h[j]);
            if k < h.len() {
                assert(p[k] == h[k]);
            }
        }
        assert forall|i: int|
            0 <= i < n && !is_dropped(from, (#[trigger] entries[i]).key@) implies exists|k: int|
            0 <= k < p.len() && (#[trigger] p[k]).0 == i by {
            if i < m {
                let k = choose|k: int| 0 <= k < h.len() && (#[trigger] h[k]).0 == i;
                assert(p[k].0 == i);
            } else {
                assert(p[h.len() as int].0 == i);
            }
        }
    }
}

/// A text with an ending has it.
proof fn lemma_ends(stem: Seq<char>, ending: Seq<char>)
    ensures
        has_suffix(stem + ending, ending),
        without_suffix(stem + ending, ending) == stem,
{
    let s = stem + ending;
    assert(s.subrange(s.len() - ending.len(), s.len() as int) =~= ending);
    assert(s.subrange(0, s.len() - ending.len()) =~= stem);
}

/// Where a layer is one of those that are quantized, its weight is.
proof fn lemma_quantized(stem: Seq<char>, ending: Seq<char>, k: int)
    requires
        0 <= k < quant_endings().len(),
        ending == quant_endings()[k],
    ensures
        is_quantized_key(stem + ending + ".weight"@),
{
    lemma_ends(stem, ending);
    lemma_ends(stem + ending, ".weight"@);
    assert(has_suffix(without_suffix(stem + ending + ".weight"@, ".weight"@), quant_endings()[k]));
}

/// The weights that are quantized are those of the four projections of either attention and of the two
/// layers of the feed-forward network, whatever block they are in.
pub proof fn law_projections_are_quantized(block: Seq<char>)
    ensures
        is_quantized_key(block + ".self_attn.q"@ + ".weight"@),
        is_quantized_key(block + ".self_attn.k"@ + ".weight"@),
        is_quantized_key(block + ".self_attn.v"@ + ".weight"@),
        is_quantized_key(block + ".self_attn.o"@ + ".weight"@),
        is_quantized_key(block + ".cross_attn.q"@ + ".weight"@),
        is_quantized_key(block + ".cross_attn.k"@ + ".weight"@),
        is_quantized_key(block + ".cross_attn.v"@ + ".weight"@),
        is_quantized_key(block + ".cross_attn.o"@ + ".weight"@),
        is_quantized_key(block + ".ffn.fc1"@ + ".weight"@),
        is_quantized_key(block + ".ffn.fc2"@ + ".weight"@),
{
    lemma_quantized(block, ".self_attn.q"@, 0);
    lemma_quantized(block, ".self_attn.k"@, 1);
    lemma_quantized(block, ".self_attn.v"@, 2);
    lemma_quantized(block, ".self_attn.o"@, 3);
    lemma_quantized(block, ".cross_attn.q"@, 4);
    lemma_quantized(block, ".cross_attn.k"@, 5);
    lemma_quantized(block, ".cross_attn.v"@, 6);
    lemma_quantized(block, ".cross_attn.o"@, 7);
    lemma_quantized(block, ".ffn.fc1"@, 8);
    lemma_quantized(block, ".ffn.fc2"@, 9);
}

/// Only weights of these layers are quantized: what ends otherwise stays as it is.
pub proof fn law_only_projections_are_quantized(key: Seq<char>)
    requires
        is_quantized_key(key),
    ensures
        has_suffix(key, ".weight"@),
        ({
            let base = without_suffix(key, ".weight"@);
            ||| has_suffix(base, ".self_attn.q"@)
            ||| has_suffix(base, ".self_attn.k"@)
            ||| has_suffix(base, ".self_attn.v"@)
            ||| has_suffix(base, ".self_attn.o"@)
            ||| has_suffix(base, ".cross_attn.q"@)
            ||| has_suffix(base, ".cross_attn.k"@)
            ||| has_suffix(base, ".cross_attn.v"@)
            ||| has_suffix(base, ".cross_attn.o"@)
            ||| has_suffix(base, ".ffn.fc1"@)
            ||| has_suffix(base, ".ffn.fc2"@)
        }),
{
}

/// What is stored of a tensor is among what is stored of all.
proof fn lemma_stored_has(keys: Seq<Seq<char>>, n: nat, i: int, t: (usize, Seq<char>, Part))
    requires
        0 <= i < n <= keys.len(),
        stored_parts(i as usize, keys[i]).contains(t),
    ensures
        stored_all(keys, n).contains(t),
    decreases n,
{
    let m = (n - 1) as nat;
    let h = stored_all(keys, m);
    let own = stored_parts(m as usize, keys[n - 1]);
    let all = stored_all(keys, n);
    assert(all == h + own);
    if i < m {
        lemma_stored_has(keys, m, i, t);
        let k = choose|k: int| 0 <= k < h.len() && h[k] == t;
        assert(all[k] == t);
    } else {
        let k = choose|k: int| 0 <= k < own.len() && own[k] == t;
        assert(all[h.len() + k] == t);
    }
}

/// What is stored of all is stored of one of them.
proof fn lemma_stored_from(keys: Seq<Seq<char>>, n: nat, j: int)
    requires
        n <= keys.len() <= usize::MAX,
        0 <= j < stored_all(keys, n).len(),
    ensures
        stored_all(keys, n)[j].0 < n,
        stored_parts(
            stored_all(keys, n)[j].0,
            keys[stored_all(keys, n)[j].0 as int],
        ).contains(stored_all(keys, n)[j]),
    decreases n,
{
    let m = (n - 1) as nat;
    let h = stored_all(keys, m);
    let own = stored_parts(m as usize, keys[n - 1]);
    let all = stored_all(keys, n);
    assert(all == h + own);
    if j < h.len() {
        assert(all[j] == h[j]);
        lemma_stored_from(keys, m, j);
    } else {
        assert(all[j] == own[j - h.len()]);
        assert(own[j - h.len()].0 == m as usize);
        assert(own.contains(own[j - h.len()]));
    }
}

/// A weight that is quantized is stored in three parts, its packed values under its own name, its scales
/// and its offsets under the layer's; any other tensor is stored as it is.
pub proof fn law_quantized_weight_has_three_parts(keys: Seq<String>, stored: Seq<Stored>, i: int)
    requires
        keys.len() <= usize::MAX,
        stored_views(stored) == stored_all(views(keys), keys.len()),
        0 <= i < keys.len(),
    ensures
        ({
            let k = keys[i]@;
            let base = without_suffix(k, ".weight"@);
            let all = stored_views(stored);
            if is_quantized_key(k) {
                &&& all.contains((i as usize, k, Part::Packed))
                &&& all.contains((i as usize, base + ".scales"@, Part::Scales))
                &&& all.contains((i as usize, base + ".biases"@, Part::Biases))
                &&& !all.contains((i as usize, k, Part::Whole))
            } else {
                &&& all.contains((i as usize, k, Part::Whole))
                &&& forall|j: int|
                    0 <= j < stored.len() && (#[trigger] stored[j]).source == i
                        ==> stored[j].key@ == k && stored[j].part == Part::Whole
            }
        }),
{
    let k = keys[i]@;
    let kv = views(keys);
    let n = keys.len();
    let all = stored_all(kv, n);
    let own = stored_parts(i as usize, k);
    assert(kv[i] == k);
    let base = without_suffix(k, ".weight"@);
    if is_quantized_key(k) {
        assert(base + ".weight"@ =~= k) by {
            assert(k.subrange(k.len() - ".weight"@.len(), k.len() as int) == ".weight"@);
            assert(k =~= base + k.subrange(k.len() - ".weight"@.len(), k.len() as int));
        }
        assert(own[0] == (i as usize, k, Part::Packed));
        assert(own[1] == (i as usize, base + ".scales"@, Part::Scales));
        assert(own[2] == (i as usize, base + ".biases"@, Part::Biases));
        lemma_stored_has(kv, n, i, own[0]);
        lemma_stored_has(kv, n, i, own[1]);
        lemma_stored_has(kv, n, i, own[2]);
        if all.contains((i as usize, k, Part::Whole)) {
            let j = choose|j: int| 0 <= j < all.len() && all[j] == (i as usize, k, Part::Whole);
            lemma_stored_from(kv, n, j);
            assert(own.contains((i as usize, k, Part::Whole)));
        }
    } else {
        assert(own[0] == (i as usize, k, Part::Whole));
        lemma_stored_has(kv, n, i, own[0]);
        assert forall|j: int|
            0 <= j < stored.len() && (#[trigger] stored[j]).source == i implies stored[j].key@ == k
            && stored[j].part == Part::Whole by {
            assert(stored_views(stored)[j] == (stored[j].source, stored[j].key@, stored[j].part));
            lemma_stored_from(kv, n, j);
        }
    }
}

/// The files that every directory shares come from the base model, each under its own name.
proof fn lemma_shared(base: Seq<char>)
    ensures
        shared_placements(base).len() == 3,
        shared_placements(base)[0] == (
            "t5_encoder.safetensors"@,
            base + "/"@ + "t5_encoder.safetensors"@,
        ),
        shared_placements(base)[1] == ("vae.safetensors"@, base + "/"@ + "vae.safetensors"@),
        shared_placements(base)[2] == ("tokenizer.json"@, base + "/"@ + "tokenizer.json"@),
{
}

/// The directory of a dense controllable-video model has the given transformer, and the text encoder, the
/// autoencoder and the tokenizer of the base model under their own names.
pub proof fn law_dense_directory_has_its_parts(
    v: Seq<Placement>,
    transformer: Seq<char>,
    base: Seq<char>,
)
    requires
        is_vace_layout(v, transformer, base),
    ensures
        v.len() == 4,
        v[0].to@ == "transformer"@ && v[0].from@ == transformer,
        v[1].to@ == "t5_encoder.safetensors"@ && v[1].from@ == base + "/"@ + v[1].to@,
        v[2].to@ == "vae.safetensors"@ && v[2].from@ == base + "/"@ + v[2].to@,
        v[3].to@ == "tokenizer.json"@ && v[3].from@ == base + "/"@ + v[3].to@,
{
    lemma_shared(base);
    let p = placement_views(v);
    assert(p.len() == v.len());
    assert(p[0] == (v[0].to@, v[0].from@) && p[1] == (v[1].to@, v[1].from@));
    assert(p[2] == (v[2].to@, v[2].from@) && p[3] == (v[3].to@, v[3].from@));
}

/// The directory of a dual controllable-video model has the high-noise expert as its first transformer and
/// the low-noise expert as its second, and shares the rest with the base model.
pub proof fn law_dual_directory_has_its_parts(
    v: Seq<Placement>,
    high: Seq<char>,
    low: Seq<char>,
    base: Seq<char>,
)
    requires
        is_vace_fun_layout(v, high, low, base),
    ensures
        v.len() == 5,
        v[0].to@ == "transformer"@ && v[0].from@ == high,
        v[1].to@ == "transformer_2"@ && v[1].from@ == low,
        v[2].to@ == "t5_encoder.safetensors"@ && v[2].from@ == base + "/"@ + v[2].to@,
        v[3].to@ == "vae.safetensors"@ && v[3].from@ == base + "/"@ + v[3].to@,
        v[4].to@ == "tokenizer.json"@ && v[4].from@ == base + "/"@ + v[4].to@,
{
    lemma_shared(base);
    let p = placement_views(v);
    assert(p.len() == v.len());
    assert(p[0] == (v[0].to@, v[0].from@) && p[1] == (v[1].to@, v[1].from@));
    assert(p[2] == (v[2].to@, v[2].from@) && p[3] == (v[3].to@, v[3].from@));
    assert(p[4] == (v[4].to@, v[4].from@));
}

/// Of a renderer, the first transformer of the package becomes the high-noise expert, and the second, which
/// is the low one's, the low-noise expert; the rest is shared with the base model.
pub proof fn law_renderer_has_its_experts(p: RendererPlan, base: Seq<char>)
    requires
        is_renderer_plan(p, base),
    ensures
        p.experts@.len() == 2,
        p.experts@[0].0@ == "diff_dec.transformer."@,
        p.experts@[0].1@ == "high_noise_model.safetensors"@,
        p.experts@[1].0@ == "diff_dec_low.transformer_2."@,
        p.experts@[1].1@ == "low_noise_model.safetensors"@,
        p.shared@.len() == 3,
        p.shared@[0].to@ == "t5_encoder.safetensors"@,
        p.shared@[1].to@ == "vae.safetensors"@,
        p.shared@[2].to@ == "tokenizer.json"@,
        forall|k: int|
            0 <= k < 3 ==> (#[trigger] p.shared@[k]).from@ == base + "/"@ + p.shared@[k].to@,
{
    lemma_shared(base);
    let e = pair_views(p.experts@);
    assert(e.len() == p.experts@.len());
    assert(e[0] == (p.experts@[0].0@, p.experts@[0].1@));
    assert(e[1] == (p.experts@[1].0@, p.experts@[1].1@));
    let v = placement_views(p.shared@);
    assert(v.len() == p.shared@.len());
    assert forall|k: int| 0 <= k < 3 implies (#[trigger] p.shared@[k]).from@ == base + "/"@
        + p.shared@[k].to@ by {
        assert(v[k] == (p.shared@[k].to@, p.shared@[k].from@));
    }
    assert(v[0] == (p.shared@[0].to@, p.shared@[0].from@));
    assert(v[1] == (p.shared@[1].to@, p.shared@[1].from@));
    assert(v[2] == (p.shared@[2].to@, p.shared@[2].from@));
}

/// Each expert of a native checkpoint is converted to the file of its own name.
pub proof fn law_experts_keep_their_names(v: Seq<(String, String)>)
    requires
        are_expert_conversions(v),
    ensures
        v.len() == 2,
        v[0].0@ == "low_noise_model"@,
        v[1].0@ == "high_noise_model"@,
        forall|k: int| 0 <= k < 2 ==> (#[trigger] v[k]).1@ == v[k].0@ + ".safetensors"@,
{
    reveal_strlit("low_noise_model");
    reveal_strlit("high_noise_model");
    reveal_strlit("low_noise_model.safetensors");
    reveal_strlit("high_noise_model.safetensors");
    reveal_strlit(".safetensors");
    let e = pair_views(v);
    assert(e.len() == v.len());
    assert(e[0] == (v[0].0@, v[0].1@) && e[1] == (v[1].0@, v[1].1@));
    assert("low_noise_model"@ + ".safetensors"@ =~= "low_noise_model.safetensors"@);
    assert("high_noise_model"@ + ".safetensors"@ =~= "high_noise_model.safetensors"@);
}

/// Taking an expert out of a combined index takes every key that begins with the prefix, in order, and no
/// other; the prefix in front of what is left is the key.
pub proof fn law_extracted_keys_had_the_prefix(keys: Seq<Seq<char>>, prefix: Seq<char>, n: nat)
    requires
        n <= keys.len() <= usize::MAX,
    ensures
        ({
            let v = extracted(keys, prefix, n);
            &&& forall|j: int|
                0 <= j < v.len() ==> (#[trigger] v[j]).0 < n && keys[v[j].0 as int] == prefix
                    + v[j].1
            &&& forall|j: int, k: int|
                0 <= j < k < v.len() ==> (#[trigger] v[j]).0 < (#[trigger] v[k]).0
            &&& forall|i: int, rest: Seq<char>|
                0 <= i < n && #[trigger] keys[i] == #[trigger] (prefix + rest) ==> v.contains(
                    (i as usize, rest),
                )
        }),
    decreases n,
{
    let v = extracted(keys, prefix, n);
    if n > 0 {
        let m = (n - 1) as nat;
        let h = extracted(keys, prefix, m);
        law_extracted_keys_had_the_prefix(keys, prefix, m);
        let key = keys[n - 1];
        if has_prefix(key, prefix) {
            let rest = key.subrange(prefix.len() as int, key.len() as int);
            assert(key =~= key.subrange(0, prefix.len() as int) + rest);
            assert forall|j: int| 0 <= j < v.len() implies (#[trigger] v[j]).0 < n
                && keys[v[j].0 as int] == prefix + v[j].1 by {
                if j < h.len() {
                    assert(v[j] == h[j]);
                }
            }
            assert forall|j: int, k: int| 0 <= j < k < v.len() implies (#[trigger] v[j]).0 < (
            #[trigger] v[k]).0 by {
                assert(v[j] == h[j]);
                if k < h.len() {
                    assert(v[k] == h[k]);
                }
            }
        }
        assert forall|i: int, rest: Seq<char>|
            0 <= i < n && #[trigger] keys[i] == #[trigger] (prefix + rest) implies v.contains(
            (i as usize, rest),
        ) by {
            if i < m {
                assert(h.contains((i as usize, rest)));
                let j = choose|j: int| 0 <= j < h.len() && h[j] == (i as usize, rest);
                assert(v[j] == (i as usize, rest));
            } else {
                assert(key.subrange(0, prefix.len() as int) =~= prefix);
                assert(key.subrange(prefix.len() as int, key.len() as int) =~= rest);
                assert(v[h.len() as int] == (i as usize, rest));
            }
        }
    }
}

/// A knob that a configuration gives is what it gives; the others have their defaults, each on its own.
pub proof fn law_knobs_are_settled_one_by_one(c: KnobReadings)
    ensures
        ({
            let k = knobs_of(c);
            &&& c.switch_dit_boundary matches Some(x) ==> k.switch_dit_boundary == x
            &&& c.shift matches Some(x) ==> k.shift == x
            &&& c.use_src_id_rotary_emb matches Some(x) ==> k.use_src_id_rotary_emb == x
            &&& c.interpolate_src_id matches Some(x) ==> k.interpolate_src_id == x
            &&& c.max_trained_src_id matches Some(x) ==> k.max_trained_src_id == x
            &&& c.max_sequence_length matches Some(x) ==> k.max_sequence_length == x
            &&& c.flow_shift matches Some(x) ==> k.flow_shift == x
            &&& c.switch_dit_boundary is None ==> k.switch_dit_boundary == 0x3FEC_0000_0000_0000
            &&& c.shift is None ==> k.shift == 0x4008_0000_0000_0000
            &&& c.use_src_id_rotary_emb is None ==> k.use_src_id_rotary_emb
            &&& c.interpolate_src_id is None ==> k.interpolate_src_id
            &&& c.max_trained_src_id is None ==> k.max_trained_src_id == 5
            &&& c.max_sequence_length is None ==> k.max_sequence_length == 512
            &&& c.flow_shift is None ==> k.flow_shift == 0x4014_0000_0000_0000
        }),
{
}

/// The spellings of the second autoencoder, each with the name that takes its place.
pub open spec fn vae22_names() -> Seq<(Seq<char>, Seq<char>)> {
    seq![
        (".residual.0."@, ".residual.layer_0."@),
        (".residual.2."@, ".residual.layer_2."@),
        (".residual.3."@, ".residual.layer_3."@),
        (".residual.6."@, ".residual.layer_6."@),
        (".head.0."@, ".head.layer_0."@),
        (".head.2."@, ".head.layer_2."@),
        (".resample.1.weight"@, ".resample_weight"@),
        (".resample.1.bias"@, ".resample_bias"@),
        (".to_qkv.weight"@, ".to_qkv_weight"@),
        (".to_qkv.bias"@, ".to_qkv_bias"@),
        (".proj.weight"@, ".proj_weight"@),
        (".proj.bias"@, ".proj_bias"@),
    ]
}

/// Replaces a spelling that stands in one place.
proof fn lemma_replaced_here(pre: Seq<char>, from: Seq<char>, to: Seq<char>, post: Seq<char>)
    requires
        from.len() > 0,
        forall|i: int| #[trigger] occurs_at(pre + (from + post), from, i) ==> i == pre.len(),
    ensures
        replaced(pre + (from + post), from, to) == pre + (to + post),
        has_text(pre + (from + post), from),
{
    let key = pre + (from + post);
    assert(key.subrange(pre.len() as int, (pre.len() + from.len()) as int) =~= from);
    assert(occurs_at(key, from, pre.len() as int));
    assert(!has_text(post, from)) by {
        if has_text(post, from) {
            let i = choose|i: int| occurs_at(post, from, i);
            let at = pre.len() + from.len() + i;
            assert(key.subrange(at, at + from.len()) =~= post.subrange(i, i + from.len()));
            assert(occurs_at(key, from, at));
        }
    }
    lemma_replaced_once(pre, from, post, to);
}

/// A tensor of the second autoencoder whose key has one of the spellings, in one place, and none of the
/// others, gets the name that takes the place of that spelling; the rest of its key stays.
pub proof fn law_vae_spelling_gets_its_name(pre: Seq<char>, post: Seq<char>, k: int)
    requires
        0 <= k < vae22_names().len(),
        ({
            let (from, to) = vae22_names()[k];
            let (key, new) = (pre + (from + post), pre + (to + post));
            &&& forall|i: int| #[trigger] occurs_at(key, from, i) ==> i == pre.len()
            &&& !has_text(key, "time_projection"@)
            &&& !has_text(new, "time_projection"@)
            &&& forall|j: int|
                0 <= j < vae22_names().len() && j != k ==> !has_text(
                    key,
                    (#[trigger] vae22_names()[j]).0,
                ) && !has_text(new, vae22_names()[j].0)
        }),
    ensures
        vae22_key(pre + (vae22_names()[k].0 + post)) == pre + (vae22_names()[k].1 + post),
{
    let n = vae22_names();
    let (from, to) = n[k];
    let (key, new) = (pre + (from + post), pre + (to + post));
    lemma_spellings_have_letters();
    lemma_replaced_here(pre, from, to, post);
    assert forall|j: int| 0 <= j < n.len() && j != k implies replaced(
        key,
        (#[trigger] n[j]).0,
        n[j].1,
    ) == key && replaced(new, n[j].0, n[j].1) == new by {
        lemma_replaced_absent(key, n[j].0, n[j].1);
        lemma_replaced_absent(new, n[j].0, n[j].1);
    }
    assert(n[0].0 == ".residual.0."@ && n[1].0 == ".residual.2."@ && n[2].0 == ".residual.3."@);
    assert(n[3].0 == ".residual.6."@ && n[4].0 == ".head.0."@ && n[5].0 == ".head.2."@);
    assert(n[6].0 == ".resample.1.weight"@ && n[7].0 == ".resample.1.bias"@);
    assert(n[8].0 == ".to_qkv.weight"@ && n[9].0 == ".to_qkv.bias"@);
    assert(n[10].0 == ".proj.weight"@ && n[11].0 == ".proj.bias"@);
    let a = if k < 6 {
        new
    } else {
        key
    };
    assert(vae22_layers(key) == a);
    let b = if k < 8 {
        new
    } else {
        key
    };
    assert(vae22_resample(a) == b);
    assert(vae22_attention(b) == new);
}

/// No spelling is empty.
proof fn lemma_spellings_have_letters()
    ensures
        forall|j: int| 0 <= j < vae22_names().len() ==> (#[trigger] vae22_names()[j]).0.len() > 0,
{
    reveal_strlit(".residual.0.");
    reveal_strlit(".residual.2.");
    reveal_strlit(".residual.3.");
    reveal_strlit(".residual.6.");
    reveal_strlit(".head.0.");
    reveal_strlit(".head.2.");
    reveal_strlit(".resample.1.weight");
    reveal_strlit(".resample.1.bias");
    reveal_strlit(".to_qkv.weight");
    reveal_strlit(".to_qkv.bias");
    reveal_strlit(".proj.weight");
    reveal_strlit(".proj.bias");
}

/// Two texts that differ in a letter do not begin the same text.
proof fn lemma_other_beginning(p: Seq<char>, rest: Seq<char>, q: Seq<char>, i: int)
    requires
        0 <= i < p.len(),
        i < q.len(),
        p[i] != q[i],
    ensures
        !has_prefix(p + rest, q),
{
    let s = p + rest;
    if has_prefix(s, q) {
        assert(s.subrange(0, q.len() as int)[i] == q[i]);
    }
}

/// A text that begins a text is in front of the rest.
proof fn lemma_begins(p: Seq<char>, rest: Seq<char>)
    ensures
        has_prefix(p + rest, p),
        crate::text::without_prefix(p + rest, p) == rest,
{
    let s = p + rest;
    assert(s.subrange(0, p.len() as int) =~= p);
    assert(s.subrange(p.len() as int, s.len() as int) =~= rest);
}

/// The embeddings of a native transformer get their names, whatever stands behind: the layers that are
/// numbered nought and two become the first and the second, and the projection of the time loses its number.
pub proof fn law_native_embeddings_get_their_names(rest: Seq<char>)
    ensures
        transformer_key("text_embedding.0."@ + rest) == Some("text_embedding_0."@ + rest),
        transformer_key("text_embedding.2."@ + rest) == Some("text_embedding_1."@ + rest),
        transformer_key("time_embedding.0."@ + rest) == Some("time_embedding_0."@ + rest),
        transformer_key("time_embedding.2."@ + rest) == Some("time_embedding_1."@ + rest),
        transformer_key("time_projection.1."@ + rest) == Some("time_projection."@ + rest),
        transformer_key("patch_embedding.weight"@) == Some("patch_embedding_proj.weight"@),
        transformer_key("patch_embedding.bias"@) == Some("patch_embedding_proj.bias"@),
{
    reveal_strlit("text_embedding.0.");
    reveal_strlit("text_embedding.2.");
    reveal_strlit("time_embedding.0.");
    reveal_strlit("time_embedding.2.");
    reveal_strlit("time_projection.1.");
    reveal_strlit("patch_embedding.weight");
    reveal_strlit("patch_embedding.bias");
    let (a, b) = ("text_embedding.0."@, "text_embedding.2."@);
    let (c, d, e) = ("time_embedding.0."@, "time_embedding.2."@, "time_projection.1."@);
    lemma_begins(a, rest);
    lemma_begins(b, rest);
    lemma_begins(c, rest);
    lemma_begins(d, rest);
    lemma_begins(e, rest);
    lemma_other_beginning(b, rest, a, 15);
    lemma_other_beginning(c, rest, a, 1);
    lemma_other_beginning(c, rest, b, 1);
    lemma_other_beginning(d, rest, a, 1);
    lemma_other_beginning(d, rest, b, 1);
    lemma_other_beginning(d, rest, c, 15);
    lemma_other_beginning(e, rest, a, 1);
    lemma_other_beginning(e, rest, b, 1);
    lemma_other_beginning(e, rest, c, 5);
    lemma_other_beginning(e, rest, d, 5);
    let (p, q) = ("patch_embedding.weight"@, "patch_embedding.bias"@);
    assert((a + rest)[0] == 't' && (b + rest)[0] == 't' && (c + rest)[0] == 't');
    assert((d + rest)[0] == 't' && (e + rest)[0] == 't' && p[0] == 'p' && q[0] == 'p');
    assert(p.len() != q.len());
}

/// The gating layer of the text encoder gets its name, and the rest of its key stays.
pub proof fn law_gate_gets_its_name(pre: Seq<char>, post: Seq<char>)
    requires
        forall|i: int| #[trigger]
            occurs_at(pre + (".ffn.gate.0."@ + post), ".ffn.gate.0."@, i) ==> i == pre.len(),
    ensures
        t5_key(pre + (".ffn.gate.0."@ + post)) == pre + (".ffn.gate_proj."@ + post),
{
    reveal_strlit(".ffn.gate.0.");
    lemma_replaced_here(pre, ".ffn.gate.0."@, ".ffn.gate_proj."@, post);
}

/// A file is a tensor file where its name is something followed by the ending of one, and the tensor files
/// of a directory are those of its files, each as often as it is there.
pub proof fn law_tensor_files_have_the_ending(names: Seq<Seq<char>>, stem: Seq<char>)
    ensures
        is_shard_name(stem + ".safetensors"@) <==> stem.len() > 0,
        shard_names(names) == names.filter(|n: Seq<char>| is_shard_name(n)),
    decreases names.len(),
{
    lemma_ends(stem, ".safetensors"@);
    reveal(Seq::filter);
    if names.len() > 0 {
        law_tensor_files_have_the_ending(names.drop_last(), stem);
    } else {
        assert(shard_names(names) =~= names.filter(|n: Seq<char>| is_shard_name(n)));
    }
}

} // verus!
