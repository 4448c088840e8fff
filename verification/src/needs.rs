//! Which tensors the autoencoder and the denoiser over space and time cannot do without.

use vstd::prelude::*;
use crate::svd::config::UnetConfig;
use crate::svd::transformer::{
    embedding_tensors, numbered, spatial_tensors, temporal_tensors, transformer_tensors,
};
use crate::svd::unet::{
    attentions_tensors, block_tensors, blocks_tensors, down_blocks, mid_pairs, mid_tensors,
    resnet_tensors, resnets_tensors, temporal_resnet_tensors, unet_tensors, up_blocks, BlockPlan,
};
use crate::text::decimal;
use crate::transformer::{has_all, lemma_part, needs_dense};
use crate::vae::{
    attention_tensors, decoder_layout, encoder_layout, frame_tensors, has_encoder, layer_tensors,
    layers_tensors, residual_tensors, vae_tensors, Layer,
};

verus! {

/// A list has what a list in it has.
proof fn lemma_has_dense(all: Seq<Seq<char>>, some: Seq<Seq<char>>, prefix: Seq<char>)
    requires
        has_all(all, some),
        needs_dense(some, prefix),
    ensures
        needs_dense(all, prefix),
{
    assert(some.contains(prefix + ".weight"@) && some.contains(prefix + ".bias"@));
}

/// What is at a place of a list is in the list.
proof fn lemma_at(s: Seq<Seq<char>>, k: int)
    requires
        0 <= k < s.len(),
    ensures
        s.contains(s[k]),
{
}

/// A residual block of the autoencoder needs two norms and two convolutions, and those of a shortcut where
/// the weights have one.
pub proof fn law_residual_block_needs(keys: Seq<Seq<char>>, prefix: Seq<char>)
    ensures
        ({
            let t = residual_tensors(keys, prefix);
            &&& t.contains(prefix + ".residual.0.gamma"@)
            &&& needs_dense(t, prefix + ".residual.2"@)
            &&& t.contains(prefix + ".residual.3.gamma"@)
            &&& needs_dense(t, prefix + ".residual.6"@)
            &&& keys.contains(prefix + ".shortcut.weight"@) ==> needs_dense(
                t,
                prefix + ".shortcut"@,
            )
        }),
{
    let t = residual_tensors(keys, prefix);
    let n: int = if keys.contains(prefix + ".shortcut.weight"@) {
        2
    } else {
        0
    };
    assert(t.len() == n + 6);
    assert(t[n] == prefix + ".residual.0.gamma"@);
    assert(t[n + 1] == prefix + ".residual.2"@ + ".weight"@);
    assert(t[n + 2] == prefix + ".residual.2"@ + ".bias"@);
    assert(t[n + 3] == prefix + ".residual.3.gamma"@);
    assert(t[n + 4] == prefix + ".residual.6"@ + ".weight"@);
    assert(t[n + 5] == prefix + ".residual.6"@ + ".bias"@);
    if n == 2 {
        assert(t[0] == prefix + ".shortcut"@ + ".weight"@);
        assert(t[1] == prefix + ".shortcut"@ + ".bias"@);
    }
}

/// A layer that changes the resolution needs its convolution, and one in time too where it does so in time;
/// the other layers are residual blocks.
pub proof fn law_layer_needs(keys: Seq<Seq<char>>, prefix: Seq<char>, layer: Layer)
    ensures
        ({
            let t = layer_tensors(keys, prefix, layer);
            match layer {
                Layer::Residual => t == residual_tensors(keys, prefix),
                Layer::Resample { temporal } => needs_dense(t, prefix + ".resample.1"@) && (temporal
                    ==> needs_dense(t, prefix + ".time_conv"@)),
            }
        }),
{
    if let Layer::Resample { temporal } = layer {
        let t = layer_tensors(keys, prefix, layer);
        let n: int = if temporal {
            2
        } else {
            0
        };
        assert(t[n] == prefix + ".resample.1"@ + ".weight"@);
        assert(t[n + 1] == prefix + ".resample.1"@ + ".bias"@);
        if temporal {
            assert(t[0] == prefix + ".time_conv"@ + ".weight"@);
            assert(t[1] == prefix + ".time_conv"@ + ".bias"@);
        }
    }
}

/// The attention of the autoencoder needs its norm, its joint projection and its output projection.
pub proof fn law_autoencoder_attention_needs(prefix: Seq<char>)
    ensures
        attention_tensors(prefix).contains(prefix + ".norm.gamma"@),
        needs_dense(attention_tensors(prefix), prefix + ".to_qkv"@),
        needs_dense(attention_tensors(prefix), prefix + ".proj"@),
{
    let t = attention_tensors(prefix);
    assert(t[0] == prefix + ".norm.gamma"@);
    assert(t[1] == prefix + ".to_qkv"@ + ".weight"@ && t[2] == prefix + ".to_qkv"@ + ".bias"@);
    assert(t[3] == prefix + ".proj"@ + ".weight"@ && t[4] == prefix + ".proj"@ + ".bias"@);
}

/// The tensors of a layer are among those of the layers.
proof fn lemma_layer_is_needed(
    keys: Seq<Seq<char>>,
    prefix: Seq<char>,
    layers: Seq<Layer>,
    n: nat,
    i: nat,
)
    requires
        i < n,
    ensures
        has_all(
            layers_tensors(keys, prefix, layers, n),
            layer_tensors(keys, prefix + decimal(i), layers[i as int]),
        ),
    decreases n,
{
    let m = (n - 1) as nat;
    let h = layers_tensors(keys, prefix, layers, m);
    let own = layer_tensors(keys, prefix + decimal(m), layers[m as int]);
    lemma_part(h, own, seq![]);
    lemma_part(seq![], h, own);
    if i < m {
        lemma_layer_is_needed(keys, prefix, layers, m, i);
    }
}

/// A half of the autoencoder needs its first convolution, a residual block, an attention and another residual
/// block in the middle, and the norm and the convolution of its head.
pub proof fn law_half_needs(keys: Seq<Seq<char>>, p: Seq<char>)
    ensures
        ({
            let t = frame_tensors(keys, p);
            &&& needs_dense(t, p + ".conv1"@)
            &&& has_all(t, residual_tensors(keys, p + ".middle.0"@))
            &&& has_all(t, attention_tensors(p + ".middle.1"@))
            &&& has_all(t, residual_tensors(keys, p + ".middle.2"@))
            &&& t.contains(p + ".head.0.gamma"@)
            &&& needs_dense(t, p + ".head.2"@)
        }),
{
    let t = frame_tensors(keys, p);
    let a = seq![p + ".conv1"@ + ".weight"@, p + ".conv1"@ + ".bias"@];
    let b = residual_tensors(keys, p + ".middle.0"@);
    let c = attention_tensors(p + ".middle.1"@);
    let d = residual_tensors(keys, p + ".middle.2"@);
    let e = seq![p + ".head.0.gamma"@];
    let f = seq![p + ".head.2"@ + ".weight"@, p + ".head.2"@ + ".bias"@];
    lemma_part(seq![], a, b + c + d + e + f);
    assert(seq![] + a + (b + c + d + e + f) =~= t);
    lemma_part(a, b, c + d + e + f);
    assert(a + b + (c + d + e + f) =~= t);
    lemma_part(a + b, c, d + e + f);
    assert(a + b + c + (d + e + f) =~= t);
    lemma_part(a + b + c, d, e + f);
    assert(a + b + c + d + (e + f) =~= t);
    lemma_part(a + b + c + d, e, f);
    assert(a + b + c + d + e + f =~= t);
    lemma_part(a + b + c + d + e, f, seq![]);
    lemma_at(a, 0);
    lemma_at(a, 1);
    lemma_at(e, 0);
    lemma_at(f, 0);
    lemma_at(f, 1);
}

/// The autoencoder needs the convolution in front of the decoder, all layers of the decoder, and the frame
/// around them; and of an encoder, which the weights have where they have its first convolution, the
/// convolution behind it, all its layers, and the frame around them.
pub proof fn law_autoencoder_needs(keys: Seq<Seq<char>>, i: nat, j: nat)
    requires
        i < decoder_layout().len(),
        j < encoder_layout().len(),
    ensures
        ({
            let all = vae_tensors(keys);
            &&& needs_dense(all, "conv2"@)
            &&& has_all(
                all,
                layer_tensors(
                    keys,
                    "decoder.upsamples."@ + decimal(i),
                    decoder_layout()[i as int],
                ),
            )
            &&& has_all(all, frame_tensors(keys, "decoder"@))
            &&& has_encoder(keys) <==> keys.contains("encoder.conv1.weight"@)
            &&& keys.contains("encoder.conv1.weight"@) ==> {
                &&& needs_dense(all, "conv1"@)
                &&& has_all(
                    all,
                    layer_tensors(
                        keys,
                        "encoder.downsamples."@ + decimal(j),
                        encoder_layout()[j as int],
                    ),
                )
                &&& has_all(all, frame_tensors(keys, "encoder"@))
            }
        }),
{
    let all = vae_tensors(keys);
    let (dl, el) = (decoder_layout(), encoder_layout());
    let x = layers_tensors(keys, "decoder.upsamples."@, dl, dl.len());
    let y = frame_tensors(keys, "decoder"@);
    let w = seq!["conv2"@ + ".weight"@, "conv2"@ + ".bias"@];
    let a = seq!["conv1"@ + ".weight"@, "conv1"@ + ".bias"@];
    let b = layers_tensors(keys, "encoder.downsamples."@, el, el.len());
    let c = frame_tensors(keys, "encoder"@);
    lemma_layer_is_needed(keys, "decoder.upsamples."@, dl, dl.len(), i);
    lemma_layer_is_needed(keys, "encoder.downsamples."@, el, el.len(), j);
    let e = if has_encoder(keys) {
        a + b + c
    } else {
        seq![]
    };
    assert(all =~= e + w + x + y);
    lemma_part(e, w, x + y);
    assert(e + w + (x + y) =~= all);
    lemma_part(e + w, x, y);
    lemma_part(e + w + x, y, seq![]);
    lemma_at(w, 0);
    lemma_at(w, 1);
    if has_encoder(keys) {
        let rest = w + x + y;
        lemma_part(seq![], a, b + c + rest);
        assert(seq![] + a + (b + c + rest) =~= all);
        lemma_part(a, b, c + rest);
        assert(a + b + (c + rest) =~= all);
        lemma_part(a + b, c, rest);
        assert(a + b + c + rest =~= all);
        lemma_at(a, 0);
        lemma_at(a, 1);
    }
}

/// An attention of the denoiser over space and time needs three projections without a bias, and the output
/// projection with one.
pub proof fn law_denoiser_attention_needs(p: Seq<char>)
    ensures
        ({
            let t = crate::svd::transformer::attention_tensors(p);
            &&& t.contains(p + ".to_q.weight"@)
            &&& t.contains(p + ".to_k.weight"@)
            &&& t.contains(p + ".to_v.weight"@)
            &&& needs_dense(t, p + ".to_out.0"@)
        }),
{
    let t = crate::svd::transformer::attention_tensors(p);
    assert(t[0] == p + ".to_q.weight"@ && t[1] == p + ".to_k.weight"@ && t[2] == p
        + ".to_v.weight"@);
    assert(t[3] == p + ".to_out.0"@ + ".weight"@ && t[4] == p + ".to_out.0"@ + ".bias"@);
}

/// A block that attends over space needs three norms, two attentions and a feed-forward network; one that
/// attends over time needs a norm and a feed-forward network in front beside these.
pub proof fn law_attending_block_needs(p: Seq<char>)
    ensures
        ({
            let t = spatial_tensors(p);
            &&& needs_dense(t, p + ".norm1"@)
            &&& has_all(t, crate::svd::transformer::attention_tensors(p + ".attn1"@))
            &&& needs_dense(t, p + ".norm2"@)
            &&& has_all(t, crate::svd::transformer::attention_tensors(p + ".attn2"@))
            &&& needs_dense(t, p + ".norm3"@)
            &&& needs_dense(t, p + ".ff.net.0.proj"@)
            &&& needs_dense(t, p + ".ff.net.2"@)
        }),
        ({
            let t = temporal_tensors(p);
            &&& needs_dense(t, p + ".norm_in"@)
            &&& needs_dense(t, p + ".ff_in.net.0.proj"@)
            &&& needs_dense(t, p + ".ff_in.net.2"@)
            &&& has_all(t, spatial_tensors(p))
        }),
{
    let t = spatial_tensors(p);
    let x = crate::svd::transformer::attention_tensors(p + ".attn1"@);
    let y = crate::svd::transformer::attention_tensors(p + ".attn2"@);
    assert(x.len() == 5 && y.len() == 5 && t.len() == 20);
    assert(t[0] == p + ".norm1"@ + ".weight"@ && t[1] == p + ".norm1"@ + ".bias"@);
    assert(t[7] == p + ".norm2"@ + ".weight"@ && t[8] == p + ".norm2"@ + ".bias"@);
    assert(t[14] == p + ".norm3"@ + ".weight"@ && t[15] == p + ".norm3"@ + ".bias"@);
    assert(t[16] == p + ".ff.net.0.proj"@ + ".weight"@);
    assert(t[17] == p + ".ff.net.0.proj"@ + ".bias"@);
    assert(t[18] == p + ".ff.net.2"@ + ".weight"@ && t[19] == p + ".ff.net.2"@ + ".bias"@);
    assert forall|n: Seq<char>| x.contains(n) implies #[trigger] t.contains(n) by {
        let k = choose|k: int| 0 <= k < x.len() && x[k] == n;
        assert(t[2 + k] == n);
    }
    assert forall|n: Seq<char>| y.contains(n) implies #[trigger] t.contains(n) by {
        let k = choose|k: int| 0 <= k < y.len() && y[k] == n;
        assert(t[9 + k] == n);
    }
    let u = temporal_tensors(p);
    assert(u[0] == p + ".norm_in"@ + ".weight"@ && u[1] == p + ".norm_in"@ + ".bias"@);
    assert(u[2] == p + ".ff_in.net.0.proj"@ + ".weight"@);
    assert(u[3] == p + ".ff_in.net.0.proj"@ + ".bias"@);
    assert(u[4] == p + ".ff_in.net.2"@ + ".weight"@ && u[5] == p + ".ff_in.net.2"@ + ".bias"@);
    assert forall|n: Seq<char>| t.contains(n) implies #[trigger] u.contains(n) by {
        let k = choose|k: int| 0 <= k < t.len() && t[k] == n;
        assert(u[6 + k] == n);
    }
}

/// The tensors of a numbered block are among those of the blocks.
proof fn lemma_numbered_is_needed(prefix: Seq<char>, temporal: bool, n: nat, i: nat)
    requires
        i < n,
    ensures
        has_all(
            numbered(prefix, temporal, n),
            if temporal {
                temporal_tensors(prefix + decimal(i))
            } else {
                spatial_tensors(prefix + decimal(i))
            },
        ),
    decreases n,
{
    let m = (n - 1) as nat;
    let h = numbered(prefix, temporal, m);
    let own = if temporal {
        temporal_tensors(prefix + decimal(m))
    } else {
        spatial_tensors(prefix + decimal(m))
    };
    lemma_part(h, own, seq![]);
    lemma_part(seq![], h, own);
    if i < m {
        lemma_numbered_is_needed(prefix, temporal, m, i);
    }
}

/// A transformer over space and time needs, for each of its layers, a block over space and a block over time;
/// and a norm, its two projections, the embedding of the frame's place, and the factor that mixes the two.
pub proof fn law_transformer_over_space_and_time_needs(p: Seq<char>, layers: nat, i: nat)
    requires
        i < layers,
    ensures
        ({
            let t = transformer_tensors(p, layers);
            &&& needs_dense(t, p + ".norm"@)
            &&& needs_dense(t, p + ".proj_in"@)
            &&& needs_dense(t, p + ".proj_out"@)
            &&& needs_dense(t, p + ".time_pos_embed"@ + ".linear_1"@)
            &&& needs_dense(t, p + ".time_pos_embed"@ + ".linear_2"@)
            &&& t.contains(p + ".time_mixer.mix_factor"@)
            &&& has_all(t, spatial_tensors(p + ".transformer_blocks."@ + decimal(i)))
            &&& has_all(t, temporal_tensors(p + ".temporal_transformer_blocks."@ + decimal(i)))
        }),
{
    let t = transformer_tensors(p, layers);
    let a = seq![p + ".norm"@ + ".weight"@, p + ".norm"@ + ".bias"@];
    let b = numbered(p + ".transformer_blocks."@, false, layers);
    let c = numbered(p + ".temporal_transformer_blocks."@, true, layers);
    let d = seq![p + ".proj_in"@ + ".weight"@, p + ".proj_in"@ + ".bias"@];
    let e = embedding_tensors(p + ".time_pos_embed"@);
    let f = seq![p + ".time_mixer.mix_factor"@];
    let g = seq![p + ".proj_out"@ + ".weight"@, p + ".proj_out"@ + ".bias"@];
    assert(t =~= a + b + c + d + e + f + g);
    lemma_part(seq![], a, b + c + d + e + f + g);
    assert(seq![] + a + (b + c + d + e + f + g) =~= t);
    lemma_part(a, b, c + d + e + f + g);
    assert(a + b + (c + d + e + f + g) =~= t);
    lemma_part(a + b, c, d + e + f + g);
    assert(a + b + c + (d + e + f + g) =~= t);
    lemma_part(a + b + c, d, e + f + g);
    assert(a + b + c + d + (e + f + g) =~= t);
    lemma_part(a + b + c + d, e, f + g);
    assert(a + b + c + d + e + (f + g) =~= t);
    lemma_part(a + b + c + d + e, f, g);
    assert(a + b + c + d + e + f + g =~= t);
    lemma_part(a + b + c + d + e + f, g, seq![]);
    lemma_at(a, 0);
    lemma_at(a, 1);
    lemma_at(d, 0);
    lemma_at(d, 1);
    lemma_at(f, 0);
    lemma_at(g, 0);
    lemma_at(g, 1);
    lemma_embedding(p + ".time_pos_embed"@);
    lemma_has_dense(t, e, p + ".time_pos_embed"@ + ".linear_1"@);
    lemma_has_dense(t, e, p + ".time_pos_embed"@ + ".linear_2"@);
    lemma_numbered_is_needed(p + ".transformer_blocks."@, false, layers, i);
    lemma_numbered_is_needed(p + ".temporal_transformer_blocks."@, true, layers, i);
}

/// The embedding of a number has two layers.
proof fn lemma_embedding(p: Seq<char>)
    ensures
        needs_dense(embedding_tensors(p), p + ".linear_1"@),
        needs_dense(embedding_tensors(p), p + ".linear_2"@),
{
    let t = embedding_tensors(p);
    assert(t[0] == p + ".linear_1"@ + ".weight"@ && t[1] == p + ".linear_1"@ + ".bias"@);
    assert(t[2] == p + ".linear_2"@ + ".weight"@ && t[3] == p + ".linear_2"@ + ".bias"@);
}

/// A residual block over space and time needs the tensors of both parts, two norms, two convolutions and the
/// embedding of the time for each, and the factor that mixes the two; and the shortcut's where the weights
/// have one.
pub proof fn law_residual_block_over_space_and_time_needs(keys: Seq<Seq<char>>, p: Seq<char>)
    ensures
        ({
            let t = resnet_tensors(keys, p);
            let (s, u) = (p + ".spatial_res_block"@, p + ".temporal_res_block"@);
            &&& t.contains(p + ".time_mixer.mix_factor"@)
            &&& has_all(t, temporal_resnet_tensors(s))
            &&& has_all(t, temporal_resnet_tensors(u))
            &&& keys.contains(s + ".conv_shortcut.weight"@) ==> needs_dense(
                t,
                s + ".conv_shortcut"@,
            )
        }),
        ({
            let t = temporal_resnet_tensors(p);
            &&& needs_dense(t, p + ".norm1"@)
            &&& needs_dense(t, p + ".conv1"@)
            &&& needs_dense(t, p + ".time_emb_proj"@)
            &&& needs_dense(t, p + ".norm2"@)
            &&& needs_dense(t, p + ".conv2"@)
        }),
{
    let (s, u) = (p + ".spatial_res_block"@, p + ".temporal_res_block"@);
    let t = resnet_tensors(keys, p);
    let a = if keys.contains(s + ".conv_shortcut.weight"@) {
        seq![s + ".conv_shortcut"@ + ".weight"@, s + ".conv_shortcut"@ + ".bias"@]
    } else {
        seq![]
    };
    let b = temporal_resnet_tensors(s);
    let c = temporal_resnet_tensors(u);
    let d = seq![p + ".time_mixer.mix_factor"@];
    assert(t =~= a + b + c + d);
    lemma_part(seq![], a, b + c + d);
    assert(seq![] + a + (b + c + d) =~= t);
    lemma_part(a, b, c + d);
    assert(a + b + (c + d) =~= t);
    lemma_part(a + b, c, d);
    assert(a + b + c + d =~= t);
    lemma_part(a + b + c, d, seq![]);
    lemma_at(d, 0);
    if keys.contains(s + ".conv_shortcut.weight"@) {
        lemma_at(a, 0);
        lemma_at(a, 1);
    }
    let v = temporal_resnet_tensors(p);
    assert(v[0] == p + ".norm1"@ + ".weight"@ && v[1] == p + ".norm1"@ + ".bias"@);
    assert(v[2] == p + ".conv1"@ + ".weight"@ && v[3] == p + ".conv1"@ + ".bias"@);
    assert(v[4] == p + ".time_emb_proj"@ + ".weight"@ && v[5] == p + ".time_emb_proj"@ + ".bias"@);
    assert(v[6] == p + ".norm2"@ + ".weight"@ && v[7] == p + ".norm2"@ + ".bias"@);
    assert(v[8] == p + ".conv2"@ + ".weight"@ && v[9] == p + ".conv2"@ + ".bias"@);
}

/// The tensors of a residual block, and of the transformer behind it, are among those of the block.
proof fn lemma_resnet_is_needed(keys: Seq<Seq<char>>, p: Seq<char>, n: nat, j: nat)
    requires
        j < n,
    ensures
        has_all(
            resnets_tensors(keys, p, n),
            resnet_tensors(keys, p + ".resnets."@ + decimal(j)),
        ),
        has_all(
            attentions_tensors(p, n),
            transformer_tensors(p + ".attentions."@ + decimal(j), 1),
        ),
    decreases n,
{
    let m = (n - 1) as nat;
    let (h, k) = (resnets_tensors(keys, p, m), attentions_tensors(p, m));
    let own = resnet_tensors(keys, p + ".resnets."@ + decimal(m));
    let own_too = transformer_tensors(p + ".attentions."@ + decimal(m), 1);
    lemma_part(h, own, seq![]);
    lemma_part(seq![], h, own);
    lemma_part(k, own_too, seq![]);
    lemma_part(seq![], k, own_too);
    if j < m {
        lemma_resnet_is_needed(keys, p, m, j);
    }
}

/// A block on the way down or up needs its residual blocks, a transformer for each where it attends, and the
/// convolution of its change of resolution where it has one.
pub proof fn law_block_over_space_and_time_needs(
    keys: Seq<Seq<char>>,
    p: Seq<char>,
    plan: BlockPlan,
    sampler: Seq<char>,
    j: nat,
)
    requires
        j < plan.resnets,
    ensures
        ({
            let t = block_tensors(keys, p, plan, sampler);
            &&& has_all(t, resnet_tensors(keys, p + ".resnets."@ + decimal(j)))
            &&& plan.heads is Some ==> has_all(
                t,
                transformer_tensors(p + ".attentions."@ + decimal(j), 1),
            )
            &&& plan.resample ==> needs_dense(t, p + sampler)
        }),
{
    let t = block_tensors(keys, p, plan, sampler);
    let a = resnets_tensors(keys, p, plan.resnets as nat);
    let b = if plan.heads is Some {
        attentions_tensors(p, plan.resnets as nat)
    } else {
        seq![]
    };
    let c = if plan.resample {
        seq![p + sampler + ".weight"@, p + sampler + ".bias"@]
    } else {
        seq![]
    };
    assert(t =~= a + b + c);
    lemma_part(seq![], a, b + c);
    assert(seq![] + a + (b + c) =~= t);
    lemma_part(a, b, c);
    lemma_part(a + b, c, seq![]);
    lemma_resnet_is_needed(keys, p, plan.resnets as nat, j);
    if plan.resample {
        lemma_at(c, 0);
        lemma_at(c, 1);
    }
}

/// The tensors of a block are among those of the blocks.
proof fn lemma_block_is_needed(
    keys: Seq<Seq<char>>,
    prefix: Seq<char>,
    plans: Seq<BlockPlan>,
    sampler: Seq<char>,
    n: nat,
    i: nat,
)
    requires
        i < n,
    ensures
        has_all(
            blocks_tensors(keys, prefix, plans, sampler, n),
            block_tensors(keys, prefix + decimal(i), plans[i as int], sampler),
        ),
    decreases n,
{
    let m = (n - 1) as nat;
    let h = blocks_tensors(keys, prefix, plans, sampler, m);
    let own = block_tensors(keys, prefix + decimal(m), plans[m as int], sampler);
    lemma_part(h, own, seq![]);
    lemma_part(seq![], h, own);
    if i < m {
        lemma_block_is_needed(keys, prefix, plans, sampler, m, i);
    }
}

/// The tensors of a pair in the middle are among those of the pairs.
proof fn lemma_pair_is_needed(keys: Seq<Seq<char>>, n: nat, i: nat)
    requires
        i < n,
    ensures
        has_all(
            mid_pairs(keys, n),
            transformer_tensors("mid_block.attentions."@ + decimal(i), 1),
        ),
        has_all(
            mid_pairs(keys, n),
            resnet_tensors(keys, "mid_block.resnets."@ + decimal(i + 1)),
        ),
    decreases n,
{
    let m = (n - 1) as nat;
    let h = mid_pairs(keys, m);
    let a = transformer_tensors("mid_block.attentions."@ + decimal(m), 1);
    let b = resnet_tensors(keys, "mid_block.resnets."@ + decimal(n));
    assert(mid_pairs(keys, n) =~= h + a + b);
    lemma_part(h, a, b);
    lemma_part(h + a, b, seq![]);
    lemma_part(seq![], h, a + b);
    assert(seq![] + h + (a + b) =~= h + a + b);
    if i < m {
        lemma_pair_is_needed(keys, m, i);
    }
}

/// The parts of a list put together of eight are in it.
proof fn lemma_eight_parts(
    a: Seq<Seq<char>>,
    b: Seq<Seq<char>>,
    c: Seq<Seq<char>>,
    d: Seq<Seq<char>>,
    e: Seq<Seq<char>>,
    f: Seq<Seq<char>>,
    g: Seq<Seq<char>>,
    h: Seq<Seq<char>>,
)
    ensures
        ({
            let all = a + b + c + d + e + f + g + h;
            &&& has_all(all, a)
            &&& has_all(all, b)
            &&& has_all(all, c)
            &&& has_all(all, d)
            &&& has_all(all, e)
            &&& has_all(all, f)
            &&& has_all(all, g)
            &&& has_all(all, h)
        }),
{
    let none = Seq::<Seq<char>>::empty();
    let ab = a + b;
    let abc = ab + c;
    let abcd = abc + d;
    let abcde = abcd + e;
    let abcdef = abcde + f;
    let most = abcdef + g;
    let all = most + h;
    lemma_part(most, h, none);
    lemma_part(none, most, h);
    lemma_part(abcdef, g, none);
    lemma_part(none, abcdef, g);
    lemma_part(abcde, f, none);
    lemma_part(none, abcde, f);
    lemma_part(abcd, e, none);
    lemma_part(none, abcd, e);
    lemma_part(abc, d, none);
    lemma_part(none, abc, d);
    lemma_part(ab, c, none);
    lemma_part(none, ab, c);
    lemma_part(a, b, none);
    lemma_part(none, a, b);
    assert(has_all(all, most) && has_all(most, abcdef) && has_all(abcdef, abcde));
    assert(has_all(abcde, abcd) && has_all(abcd, abc) && has_all(abc, ab));
    lemma_within(all, most, abcdef);
    lemma_within(all, abcdef, abcde);
    lemma_within(all, abcde, abcd);
    lemma_within(all, abcd, abc);
    lemma_within(all, abc, ab);
    lemma_within(all, ab, a);
    lemma_within(all, ab, b);
    lemma_within(all, abc, c);
    lemma_within(all, abcd, d);
    lemma_within(all, abcde, e);
    lemma_within(all, abcdef, f);
    lemma_within(all, most, g);
}

/// A list has what a list in it has in it.
proof fn lemma_within(all: Seq<Seq<char>>, some: Seq<Seq<char>>, few: Seq<Seq<char>>)
    requires
        has_all(all, some),
        has_all(some, few),
    ensures
        has_all(all, few),
{
    assert forall|n: Seq<char>| few.contains(n) implies #[trigger] all.contains(n) by {
        assert(some.contains(n));
    }
}

/// The denoiser needs every block on the way down and on the way up, a residual block in the middle and
/// behind it a transformer and a residual block for each of its layers, its first and last convolution and
/// the norm before the last, and the embeddings of the time and of the motion.
#[verifier::spinoff_prover]
#[verifier::rlimit(40)]
pub proof fn law_denoiser_needs(keys: Seq<Seq<char>>, cfg: UnetConfig, i: nat, k: nat)
    requires
        i < cfg.num_attention_heads@.len(),
        k < cfg.transformer_layers_per_block,
    ensures
        ({
            let all = unet_tensors(keys, cfg);
            &&& has_all(
                all,
                block_tensors(
                    keys,
                    "down_blocks."@ + decimal(i),
                    down_blocks(cfg)[i as int],
                    ".downsamplers.0.conv"@,
                ),
            )
            &&& has_all(
                all,
                block_tensors(
                    keys,
                    "up_blocks."@ + decimal(i),
                    up_blocks(cfg)[i as int],
                    ".upsamplers.0.conv"@,
                ),
            )
            &&& has_all(all, resnet_tensors(keys, "mid_block.resnets.0"@))
            &&& has_all(all, transformer_tensors("mid_block.attentions."@ + decimal(k), 1))
            &&& has_all(all, resnet_tensors(keys, "mid_block.resnets."@ + decimal(k + 1)))
            &&& needs_dense(all, "conv_in"@)
            &&& needs_dense(all, "conv_norm_out"@)
            &&& needs_dense(all, "conv_out"@)
            &&& needs_dense(all, "time_embedding"@ + ".linear_1"@)
            &&& needs_dense(all, "time_embedding"@ + ".linear_2"@)
            &&& needs_dense(all, "add_embedding"@ + ".linear_1"@)
            &&& needs_dense(all, "add_embedding"@ + ".linear_2"@)
        }),
{
    let all = unet_tensors(keys, cfg);
    let (dp, up) = (down_blocks(cfg), up_blocks(cfg));
    let a = blocks_tensors(keys, "down_blocks."@, dp, ".downsamplers.0.conv"@, dp.len());
    let b = mid_tensors(keys, cfg.transformer_layers_per_block as nat);
    let c = blocks_tensors(keys, "up_blocks."@, up, ".upsamplers.0.conv"@, up.len());
    let d = seq!["conv_in"@ + ".weight"@, "conv_in"@ + ".bias"@];
    let e = embedding_tensors("time_embedding"@);
    let f = embedding_tensors("add_embedding"@);
    let g = seq!["conv_norm_out"@ + ".weight"@, "conv_norm_out"@ + ".bias"@];
    let h = seq!["conv_out"@ + ".weight"@, "conv_out"@ + ".bias"@];
    assert(all =~= a + b + c + d + e + f + g + h);
    lemma_eight_parts(a, b, c, d, e, f, g, h);
    lemma_at(d, 0);
    lemma_at(d, 1);
    lemma_at(g, 0);
    lemma_at(g, 1);
    lemma_at(h, 0);
    lemma_at(h, 1);
    lemma_embedding("time_embedding"@);
    lemma_embedding("add_embedding"@);
    lemma_has_dense(all, e, "time_embedding"@ + ".linear_1"@);
    lemma_has_dense(all, e, "time_embedding"@ + ".linear_2"@);
    lemma_has_dense(all, f, "add_embedding"@ + ".linear_1"@);
    lemma_has_dense(all, f, "add_embedding"@ + ".linear_2"@);
    lemma_block_is_needed(keys, "down_blocks."@, dp, ".downsamplers.0.conv"@, dp.len(), i);
    lemma_block_is_needed(keys, "up_blocks."@, up, ".upsamplers.0.conv"@, up.len(), i);
    let n = cfg.transformer_layers_per_block as nat;
    lemma_pair_is_needed(keys, n, k);
    let r = resnet_tensors(keys, "mid_block.resnets.0"@);
    lemma_part(seq![], r, mid_pairs(keys, n));
    lemma_part(r, mid_pairs(keys, n), seq![]);
    lemma_within(all, b, r);
    lemma_within(all, b, mid_pairs(keys, n));
    lemma_within(
        all,
        mid_pairs(keys, n),
        transformer_tensors("mid_block.attentions."@ + decimal(k), 1),
    );
    lemma_within(
        all,
        mid_pairs(keys, n),
        resnet_tensors(keys, "mid_block.resnets."@ + decimal(k + 1)),
    );
}

} // verus!
