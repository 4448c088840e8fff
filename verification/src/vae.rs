//! The z16 video autoencoder: how it is laid out, which tensors it needs, and how an encode is chunked.

use vstd::prelude::*;
use crate::error::Error;
use crate::numeric::smaller;
use crate::pipeline::latent_frames;
use crate::tensor::{in_bounds, index_view, lemma_volume5, tabulate, Tensor};
use crate::text::{decimal, decimal_text, join2, list_contains, views};
use crate::weights::{absent_at, check_present, conv_names, conv_tensors, extend, one_name};

verus! {

/// How many frames a convolution keeps of the chunk before.
pub const CACHE_T: usize = 2;

/// A layer of the encoder or of the decoder.
#[derive(Debug, Clone, Copy, PartialEq, Eq, Structural)]
pub enum Layer {
    /// A residual block.
    Residual,
    /// A change of the spatial resolution by two, and of the resolution in time by two where it is
    /// `temporal`.
    Resample { temporal: bool },
}

/// The layers of four stages of `blocks` residual blocks each, with a resample after each but the
/// last, up to the first `stages` stages.
pub open spec fn stage_layers(blocks: nat, temporal: Seq<bool>, stages: nat) -> Seq<Layer>
    decreases stages,
{
    if stages == 0 {
        seq![]
    } else {
        let i = (stages - 1) as nat;
        let before = stage_layers(blocks, temporal, i) + Seq::new(blocks, |k: int| Layer::Residual);
        if i < temporal.len() {
            before.push(Layer::Resample { temporal: temporal[i as int] })
        } else {
            before
        }
    }
}

/// Lays out four stages of `blocks` residual blocks each.
fn lay_out(blocks: usize, temporal: &Vec<bool>) -> (r: Vec<Layer>)
    ensures
        r@ == stage_layers(blocks as nat, temporal@, 4),
{
    let mut out: Vec<Layer> = Vec::new();
    let mut i: usize = 0;
    while i < 4
        invariant
            i <= 4,
            out@ == stage_layers(blocks as nat, temporal@, i as nat),
        decreases 4 - i,
    {
        let ghost before = out@;
        let mut k: usize = 0;
        while k < blocks
            invariant
                k <= blocks,
                out@ == before + Seq::new(k as nat, |j: int| Layer::Residual),
            decreases blocks - k,
        {
            out.push(Layer::Residual);
            k += 1;
            assert(out@ =~= before + Seq::new(k as nat, |j: int| Layer::Residual));
        }
        assert(out@ =~= before + Seq::new(blocks as nat, |j: int| Layer::Residual));
        if i < temporal.len() {
            out.push(Layer::Resample { temporal: temporal[i] });
        }
        i += 1;
    }
    out
}

/// The decoder's layers: three residual blocks a stage, and time doubled after the first two stages.
pub open spec fn decoder_layout() -> Seq<Layer> {
    stage_layers(3, seq![true, true, false], 4)
}

/// The encoder's layers: two residual blocks a stage, and time halved after the second and third
/// stage.
pub open spec fn encoder_layout() -> Seq<Layer> {
    stage_layers(2, seq![false, true, true], 4)
}

/// The decoder's layers.
pub fn decoder_layers() -> (r: Vec<Layer>)
    ensures
        r@ == decoder_layout(),
{
    let flags: Vec<bool> = vec![true, true, false];
    assert(flags@ =~= seq![true, true, false]);
    lay_out(3, &flags)
}

/// The encoder's layers.
pub fn encoder_layers() -> (r: Vec<Layer>)
    ensures
        r@ == encoder_layout(),
{
    let flags: Vec<bool> = vec![false, true, true];
    assert(flags@ =~= seq![false, true, true]);
    lay_out(2, &flags)
}

/// The decoder doubles the resolution after its first, second and third stage of three residual blocks, in
/// time too after the first two. The encoder has stages of two, and undoes the decoder's changes of
/// resolution in reverse.
pub proof fn law_encoder_undoes_the_decoder()
    ensures
        forall|k: int|
            0 <= k < 15 ==> (#[trigger] decoder_layout()[k] is Residual <==> k % 4 != 3),
        forall|k: int|
            0 <= k < 11 ==> (#[trigger] encoder_layout()[k] is Residual <==> k % 3 != 2),
        decoder_layout()[3]->temporal,
        decoder_layout()[7]->temporal,
        !decoder_layout()[11]->temporal,
        encoder_layout()[8] == decoder_layout()[3],
        encoder_layout()[5] == decoder_layout()[7],
        encoder_layout()[2] == decoder_layout()[11],
{
    reveal_with_fuel(stage_layers, 5);
    let d = decoder_layout();
    let e = encoder_layout();
    let r = Layer::Residual;
    let f = Layer::Resample { temporal: false };
    let t = Layer::Resample { temporal: true };
    assert(d =~= seq![r, r, r, t, r, r, r, t, r, r, r, f, r, r, r]);
    assert(e =~= seq![r, r, f, r, r, t, r, r, t, r, r]);
}

/// How many cached convolutions the first `n` layers have: two in a residual block, one in a resample
/// in time.
pub open spec fn cached_in(layers: Seq<Layer>, n: nat) -> nat
    decreases n,
{
    if n == 0 {
        0
    } else {
        cached_in(layers, (n - 1) as nat) + match layers[n - 1] {
            Layer::Residual => 2nat,
            Layer::Resample { temporal } => if temporal {
                1nat
            } else {
                0nat
            },
        }
    }
}

/// How many cached convolutions an encoder of these layers has: those of the layers, the first
/// convolution, four in the middle and the head.
pub open spec fn cache_slots_of(layers: Seq<Layer>) -> nat {
    1 + cached_in(layers, layers.len()) + 4 + 1
}

/// How many slots the feature cache of an encoder of these layers has.
pub fn cache_slots(layers: &Vec<Layer>) -> (r: usize)
    requires
        2 * layers@.len() + 6 <= usize::MAX,
    ensures
        r == cache_slots_of(layers@),
{
    let mut slots: usize = 1;
    let mut i: usize = 0;
    while i < layers.len()
        invariant
            i <= layers.len(),
            2 * layers@.len() + 6 <= usize::MAX,
            slots == 1 + cached_in(layers@, i as nat),
            slots <= 1 + 2 * i,
        decreases layers.len() - i,
    {
        match layers[i] {
            Layer::Residual => {
                slots += 2;
            },
            Layer::Resample { temporal } => {
                if temporal {
                    slots += 1;
                }
            },
        }
        i += 1;
    }
    slots + 4 + 1
}

/// Whether layer `i` of these changes the resolution, in time where `temporal`.
pub open spec fn resamples(layers: Seq<Layer>, temporal: bool, n: nat) -> nat
    decreases n,
{
    if n == 0 {
        0
    } else {
        resamples(layers, temporal, (n - 1) as nat) + match layers[n - 1] {
            Layer::Residual => 0nat,
            Layer::Resample { temporal: t } => if !temporal || t {
                1nat
            } else {
                0nat
            },
        }
    }
}

/// Both halves change the resolution three times, twice in time too: by eight in space and four in
/// time. The encoder has 24 cached convolutions.
pub proof fn law_layouts()
    ensures
        decoder_layout().len() == 15,
        encoder_layout().len() == 11,
        resamples(decoder_layout(), false, 15) == 3,
        resamples(decoder_layout(), true, 15) == 2,
        resamples(encoder_layout(), false, 11) == 3,
        resamples(encoder_layout(), true, 11) == 2,
        cache_slots_of(encoder_layout()) == 24,
{
    reveal_with_fuel(stage_layers, 5);
    reveal_with_fuel(resamples, 16);
    reveal_with_fuel(cached_in, 16);
    let r = Layer::Residual;
    let f = Layer::Resample { temporal: false };
    let t = Layer::Resample { temporal: true };
    assert(decoder_layout() =~= seq![r, r, r, t, r, r, r, t, r, r, r, f, r, r, r]);
    assert(encoder_layout() =~= seq![r, r, f, r, r, t, r, r, t, r, r]);
}

/// The tensors of a residual block; the shortcut's where the weights have one.
pub open spec fn residual_tensors(keys: Seq<Seq<char>>, prefix: Seq<char>) -> Seq<Seq<char>> {
    let shortcut = if keys.contains(prefix + ".shortcut.weight"@) {
        conv_tensors(prefix + ".shortcut"@)
    } else {
        seq![]
    };
    shortcut + seq![prefix + ".residual.0.gamma"@] + conv_tensors(prefix + ".residual.2"@) + seq![
        prefix + ".residual.3.gamma"@,
    ] + conv_tensors(prefix + ".residual.6"@)
}

/// The tensors of a residual block.
fn residual_names(keys: &Vec<String>, prefix: &str) -> (r: Vec<String>)
    ensures
        views(r@) == residual_tensors(views(keys@), prefix@),
{
    let mut out: Vec<String> = if list_contains(keys, join2(prefix, ".shortcut.weight").as_str()) {
        conv_names(join2(prefix, ".shortcut").as_str())
    } else {
        let none: Vec<String> = Vec::new();
        assert(views(none@) =~= Seq::<Seq<char>>::empty());
        none
    };
    extend(&mut out, one_name(join2(prefix, ".residual.0.gamma")));
    extend(&mut out, conv_names(join2(prefix, ".residual.2").as_str()));
    extend(&mut out, one_name(join2(prefix, ".residual.3.gamma")));
    extend(&mut out, conv_names(join2(prefix, ".residual.6").as_str()));
    out
}

/// The tensors of an attention block.
pub open spec fn attention_tensors(prefix: Seq<char>) -> Seq<Seq<char>> {
    seq![prefix + ".norm.gamma"@] + conv_tensors(prefix + ".to_qkv"@) + conv_tensors(
        prefix + ".proj"@,
    )
}

/// The tensors of an attention block.
fn attention_names(prefix: &str) -> (r: Vec<String>)
    ensures
        views(r@) == attention_tensors(prefix@),
{
    let mut out = one_name(join2(prefix, ".norm.gamma"));
    extend(&mut out, conv_names(join2(prefix, ".to_qkv").as_str()));
    extend(&mut out, conv_names(join2(prefix, ".proj").as_str()));
    out
}

/// The tensors of a layer.
pub open spec fn layer_tensors(keys: Seq<Seq<char>>, prefix: Seq<char>, layer: Layer) -> Seq<Seq<char>> {
    match layer {
        Layer::Residual => residual_tensors(keys, prefix),
        Layer::Resample { temporal } => (if temporal {
            conv_tensors(prefix + ".time_conv"@)
        } else {
            seq![]
        }) + conv_tensors(prefix + ".resample.1"@),
    }
}

/// The tensors of a layer.
fn layer_names(keys: &Vec<String>, prefix: &str, layer: Layer) -> (r: Vec<String>)
    ensures
        views(r@) == layer_tensors(views(keys@), prefix@, layer),
{
    match layer {
        Layer::Residual => residual_names(keys, prefix),
        Layer::Resample { temporal } => {
            let mut out: Vec<String> = if temporal {
                conv_names(join2(prefix, ".time_conv").as_str())
            } else {
                let none: Vec<String> = Vec::new();
                assert(views(none@) =~= Seq::<Seq<char>>::empty());
                none
            };
            extend(&mut out, conv_names(join2(prefix, ".resample.1").as_str()));
            out
        },
    }
}

/// The tensors of the first `n` layers, numbered under a prefix.
pub open spec fn layers_tensors(
    keys: Seq<Seq<char>>,
    prefix: Seq<char>,
    layers: Seq<Layer>,
    n: nat,
) -> Seq<Seq<char>>
    decreases n,
{
    if n == 0 {
        seq![]
    } else {
        layers_tensors(keys, prefix, layers, (n - 1) as nat) + layer_tensors(
            keys,
            prefix + decimal((n - 1) as nat),
            layers[n - 1],
        )
    }
}

/// The tensors of layers, numbered under a prefix.
fn layers_names(keys: &Vec<String>, prefix: &str, layers: &Vec<Layer>) -> (r: Vec<String>)
    ensures
        views(r@) == layers_tensors(views(keys@), prefix@, layers@, layers@.len()),
{
    let mut out: Vec<String> = Vec::new();
    let mut i: usize = 0;
    assert(views(out@) =~= Seq::<Seq<char>>::empty());
    while i < layers.len()
        invariant
            i <= layers.len(),
            views(out@) == layers_tensors(views(keys@), prefix@, layers@, i as nat),
        decreases layers.len() - i,
    {
        let name = join2(prefix, decimal_text(i).as_str());
        extend(&mut out, layer_names(keys, name.as_str(), layers[i]));
        i += 1;
    }
    out
}

/// The tensors of the first convolution, the middle and the head of a half.
pub open spec fn frame_tensors(keys: Seq<Seq<char>>, p: Seq<char>) -> Seq<Seq<char>> {
    conv_tensors(p + ".conv1"@) + residual_tensors(keys, p + ".middle.0"@) + attention_tensors(
        p + ".middle.1"@,
    ) + residual_tensors(keys, p + ".middle.2"@) + seq![p + ".head.0.gamma"@] + conv_tensors(
        p + ".head.2"@,
    )
}

/// The tensors of the first convolution, the middle and the head of a half.
fn frame_names(keys: &Vec<String>, p: &str) -> (r: Vec<String>)
    ensures
        views(r@) == frame_tensors(views(keys@), p@),
{
    let mut out = conv_names(join2(p, ".conv1").as_str());
    extend(&mut out, residual_names(keys, join2(p, ".middle.0").as_str()));
    extend(&mut out, attention_names(join2(p, ".middle.1").as_str()));
    extend(&mut out, residual_names(keys, join2(p, ".middle.2").as_str()));
    extend(&mut out, one_name(join2(p, ".head.0.gamma")));
    extend(&mut out, conv_names(join2(p, ".head.2").as_str()));
    out
}

/// Whether the weights have an encoder.
pub open spec fn has_encoder(keys: Seq<Seq<char>>) -> bool {
    keys.contains("encoder.conv1.weight"@)
}

/// The tensors that the autoencoder reads, in the order it reads them: the encoder's where the weights
/// have one, then the decoder's.
pub open spec fn vae_tensors(keys: Seq<Seq<char>>) -> Seq<Seq<char>> {
    let encoder = if has_encoder(keys) {
        conv_tensors("conv1"@) + layers_tensors(
            keys,
            "encoder.downsamples."@,
            encoder_layout(),
            encoder_layout().len(),
        ) + frame_tensors(keys, "encoder"@)
    } else {
        seq![]
    };
    encoder + conv_tensors("conv2"@) + layers_tensors(
        keys,
        "decoder.upsamples."@,
        decoder_layout(),
        decoder_layout().len(),
    ) + frame_tensors(keys, "decoder"@)
}

/// The tensors that the autoencoder reads.
fn vae_names(keys: &Vec<String>) -> (r: Vec<String>)
    ensures
        views(r@) == vae_tensors(views(keys@)),
{
    let mut out: Vec<String> = if list_contains(keys, "encoder.conv1.weight") {
        let mut e = conv_names("conv1");
        let layers = encoder_layers();
        extend(&mut e, layers_names(keys, "encoder.downsamples.", &layers));
        extend(&mut e, frame_names(keys, "encoder"));
        e
    } else {
        let none: Vec<String> = Vec::new();
        assert(views(none@) =~= Seq::<Seq<char>>::empty());
        none
    };
    extend(&mut out, conv_names("conv2"));
    let layers = decoder_layers();
    extend(&mut out, layers_names(keys, "decoder.upsamples.", &layers));
    extend(&mut out, frame_names(keys, "decoder"));
    out
}

/// An autoencoder whose weights are complete: a decoder, and an encoder with so many cached
/// convolutions where the weights have one.
#[derive(Debug)]
pub struct WanVae {
    pub encoder_slots: Option<usize>,
}

/// How many chunks an encode of `t` frames has.
pub open spec fn chunk_count(t: int) -> int {
    1 + (t - 1) / 4
}

/// The frames of chunk `i`: the first alone, then four at a time.
pub open spec fn chunk_range(i: int) -> (int, int) {
    if i == 0 {
        (0, 1)
    } else {
        (1 + 4 * (i - 1), 1 + 4 * i)
    }
}

impl WanVae {
    /// Checks that the weights hold every tensor of the decoder, and of the encoder where they have
    /// one, or names the first that is missing.
    pub fn from_weights(keys: &Vec<String>) -> (r: Result<WanVae, Error>)
        ensures
            match r {
                Ok(v) => {
                    &&& forall|n: Seq<char>|
                        vae_tensors(views(keys@)).contains(n) ==> #[trigger] views(keys@).contains(n)
                    &&& v.encoder_slots == if has_encoder(views(keys@)) {
                        Some(24usize)
                    } else {
                        None
                    }
                },
                Err(e) => e matches Error::MissingTensor(k) && absent_at(
                    vae_tensors(views(keys@)),
                    views(keys@),
                    k@,
                ),
            },
    {
        let names = vae_names(keys);
        match check_present(&names, keys) {
            Err(e) => {
                return Err(e);
            },
            Ok(()) => {},
        }
        let encoder_slots: Option<usize> = if list_contains(keys, "encoder.conv1.weight") {
            proof {
                law_layouts();
            }
            let layers = encoder_layers();
            Some(cache_slots(&layers))
        } else {
            None
        };
        Ok(WanVae { encoder_slots })
    }

    /// Plans a chunked encode of `t` frames: the frames of each chunk, and the slots of the feature
    /// cache. An autoencoder without an encoder cannot encode.
    pub fn encode(&self, t: usize) -> (r: Result<(Vec<(usize, usize)>, usize), Error>)
        requires
            t > 0,
        ensures
            match r {
                Ok((chunks, slots)) => {
                    &&& self.encoder_slots == Some(slots)
                    &&& chunks@.len() == chunk_count(t as int)
                    &&& forall|i: int|
                        0 <= i < chunks@.len() ==> ((#[trigger] chunks@[i]).0 as int, chunks@[i].1 as int)
                            == chunk_range(i)
                    &&& forall|i: int| 0 <= i < chunks@.len() ==> (#[trigger] chunks@[i]).1 <= t
                },
                Err(e) => self.encoder_slots is None && e is Msg && e.text()
                    == "WanVae: encode requires encoder weights"@,
            },
    {
        let slots: usize = match self.encoder_slots {
            Some(n) => n,
            None => {
                return Err(Error::Msg("WanVae: encode requires encoder weights".to_owned()));
            },
        };
        let count: usize = 1 + (t - 1) / 4;
        let mut chunks: Vec<(usize, usize)> = Vec::new();
        chunks.push((0, 1));
        let mut i: usize = 1;
        while i < count
            invariant
                1 <= i <= count,
                count == 1 + (t - 1) as int / 4,
                t > 0,
                chunks.len() == i,
                forall|j: int|
                    0 <= j < i ==> ((#[trigger] chunks@[j]).0 as int, chunks@[j].1 as int)
                        == chunk_range(j),
                forall|j: int| 0 <= j < i ==> (#[trigger] chunks@[j]).1 <= t,
            decreases count - i,
        {
            chunks.push((1 + 4 * (i - 1), 1 + 4 * i));
            i += 1;
        }
        Ok((chunks, slots))
    }

    /// The extents of the video that a latent decodes to.
    pub fn decode(&self, t: usize, h: usize, w: usize) -> (r: (usize, usize, usize))
        requires
            4 * t <= usize::MAX,
            8 * h <= usize::MAX,
            8 * w <= usize::MAX,
        ensures
            r.0 == 4 * t,
            r.1 == 8 * h,
            r.2 == 8 * w,
            is_decoded(r, t, h, w),
    {
        (4 * t, 8 * h, 8 * w)
    }
}

/// The chunks of a video of one and a multiple of four frames follow each other and hold every frame,
/// and there are as many as the latent has frames.
pub proof fn law_chunks_hold_every_frame(t: int)
    requires
        t > 0,
        (t - 1) % 4 == 0,
    ensures
        chunk_range(0).0 == 0,
        chunk_range(chunk_count(t) - 1).1 == t,
        forall|i: int|
            0 <= i < chunk_count(t) - 1 ==> (#[trigger] chunk_range(i)).1 == chunk_range(i + 1).0,
        chunk_count(t) == latent_frames(t, 4),
{
}

/// Every chunk but the first, which is the first frame alone, is the four frames after the chunk before,
/// and a video of so many whole chunks has one latent frame for each.
pub proof fn law_chunks_are_four_frames(i: int)
    requires
        i >= 0,
    ensures
        chunk_range(0) == (0int, 1int),
        chunk_range(i + 1).0 == chunk_range(i).1,
        chunk_range(i + 1).1 == chunk_range(i).1 + 4,
        chunk_count(chunk_range(i).1) == i + 1,
{
}

/// What a convolution pads in front in time: `kt - st` less the frames it is given of the chunk before.
#[derive(Debug, Clone, Copy, PartialEq, Eq, Structural)]
pub struct CausalPad {
    pub use_cache: bool,
    pub pad: usize,
}

/// Whether a plan is what a convolution sees in front of a chunk.
pub open spec fn is_causal_pad(p: CausalPad, kt: int, st: int, cached: Option<usize>) -> bool {
    &&& p.use_cache == (cached is Some && kt > st)
    &&& p.pad == match cached {
        Some(n) => if n <= kt - st {
            kt - st - n
        } else {
            0
        },
        None => kt - st,
    }
}

/// What stands in front of a chunk, kept frames and zeros together, is the convolution's extent in time
/// less its stride, wherever no more frames are kept; the zeros make up for what is not kept. Where it looks
/// back no frame, kept frames are not used.
pub proof fn law_front_is_the_extent_less_the_stride(
    p: CausalPad,
    kt: int,
    st: int,
    cached: Option<usize>,
)
    requires
        st <= kt,
        is_causal_pad(p, kt, st, cached),
    ensures
        cached matches Some(n) ==> if n <= kt - st {
            p.pad + n == kt - st
        } else {
            p.pad == 0
        },
        cached is None ==> p.pad == kt - st && !p.use_cache,
        cached is Some ==> p.use_cache == (st < kt),
{
}

/// Plans what a convolution of extent `kt` and stride `st` in time sees in front of a chunk: the
/// frames that are kept of the chunk before, where it looks back at all, and zeros for the rest.
pub fn causal_pad(kt: usize, st: usize, cached: Option<usize>) -> (r: CausalPad)
    requires
        st <= kt,
    ensures
        r.use_cache == (cached is Some && kt > st),
        r.pad == match cached {
            Some(n) => if n <= kt - st {
                kt - st - n
            } else {
                0
            },
            None => kt - st,
        },
        is_causal_pad(r, kt as int, st as int, cached),
{
    let causal: usize = kt - st;
    match cached {
        Some(n) => {
            if causal > 0 {
                CausalPad {
                    use_cache: true,
                    pad: if n <= causal {
                        causal - n
                    } else {
                        0
                    },
                }
            } else {
                CausalPad { use_cache: false, pad: 0 }
            }
        },
        None => CausalPad { use_cache: false, pad: causal },
    }
}

/// How many frames a convolution gives for `t` frames behind `front` frames.
pub open spec fn conv_frames(t: int, front: int, kt: int, st: int) -> int {
    (t + front - kt) / st + 1
}

/// A causal convolution of stride one gives as many frames as it takes, with or without a chunk before.
pub proof fn law_causal_conv_keeps_frames(t: int, kt: int, cached: Option<usize>, p: CausalPad)
    requires
        t > 0,
        kt > 0,
        cached matches Some(n) ==> n <= kt - 1,
        p.use_cache == (cached is Some && kt > 1),
        p.pad == match cached {
            Some(n) => if n <= kt - 1 {
                kt - 1 - n
            } else {
                0
            },
            None => kt - 1,
        },
    ensures
        conv_frames(
            t,
            p.pad + match cached {
                Some(n) => if p.use_cache {
                    n as int
                } else {
                    0
                },
                None => 0,
            },
            kt,
            1,
        ) == t,
{
}

/// What a convolution keeps for the next chunk: so many of the last frames of this one, and the last
/// frame of what it kept before in front of them where those are too few.
#[derive(Debug, Clone, Copy, PartialEq, Eq, Structural)]
pub struct Keep {
    pub from_chunk: usize,
    pub last_of_before: bool,
}

/// Whether a plan is what a convolution keeps of a chunk of `t` frames.
pub open spec fn is_keep(p: Keep, t: int, kept_before: bool) -> bool {
    &&& p.from_chunk == smaller(t, 2)
    &&& p.last_of_before == (t < 2 && kept_before)
}

/// After any number of chunks a convolution has kept the last two frames of all that it has seen: if it had
/// before a chunk, it has after.
pub proof fn law_chunk_by_chunk_the_last_frames_are_kept<A>(seen: Seq<A>, chunk: Seq<A>, plan: Keep)
    requires
        chunk.len() > 0,
        is_keep(plan, chunk.len() as int, seen.len() > 0),
    ensures
        ({
            let all = seen + chunk;
            let before = if seen.len() <= 2 {
                seen
            } else {
                seen.skip(seen.len() - 2)
            };
            kept(plan, before, chunk) == if all.len() <= 2 {
                all
            } else {
                all.skip(all.len() - 2)
            }
        }),
{
    let all = seen + chunk;
    law_kept_frames_are_the_last(seen, chunk, plan);
    if seen.len() > 2 {
        assert(last_frames(seen, 2) =~= seen.skip(seen.len() - 2));
    }
    if all.len() > 2 {
        assert(last_frames(all, 2) =~= all.skip(all.len() - 2));
    }
}

/// Plans what a convolution keeps of a chunk of `t` frames.
pub fn plan_keep(t: usize, kept_before: bool) -> (r: Keep)
    ensures
        r.from_chunk == smaller(t as int, 2),
        r.last_of_before == (t < 2 && kept_before),
        is_keep(r, t as int, kept_before),
{
    if t < CACHE_T {
        Keep { from_chunk: t, last_of_before: kept_before }
    } else {
        Keep { from_chunk: CACHE_T, last_of_before: false }
    }
}

/// The last frames of a sequence, at most `n`.
pub open spec fn last_frames<A>(s: Seq<A>, n: int) -> Seq<A> {
    if s.len() <= n {
        s
    } else {
        s.subrange(s.len() - n, s.len() as int)
    }
}

/// What a plan keeps.
pub open spec fn kept<A>(plan: Keep, before: Seq<A>, chunk: Seq<A>) -> Seq<A> {
    let own = last_frames(chunk, plan.from_chunk as int);
    if plan.last_of_before {
        seq![before.last()] + own
    } else {
        own
    }
}

/// A convolution that keeps the last two frames of all it has seen still does after the next chunk, so
/// that a chunked encode sees what an encode in one go sees.
pub proof fn law_kept_frames_are_the_last<A>(seen: Seq<A>, chunk: Seq<A>, plan: Keep)
    requires
        chunk.len() > 0,
        plan.from_chunk == smaller(chunk.len() as int, 2),
        plan.last_of_before == (chunk.len() < 2 && seen.len() > 0),
    ensures
        kept(plan, last_frames(seen, 2), chunk) == last_frames(seen + chunk, 2),
{
    let before = last_frames(seen, 2);
    let all = seen + chunk;
    if seen.len() > 0 {
        assert(before.last() == seen.last());
    }
    assert(kept(plan, before, chunk) =~= last_frames(all, 2));
}

/// What the resample in time does with a chunk.
#[derive(Debug, Clone, Copy, PartialEq, Eq, Structural)]
pub enum TimeStep {
    /// The first chunk passes, and is kept.
    Pass,
    /// A later chunk is halved behind the last frame of what was kept, and its last frame is kept.
    Halve,
}

/// Decides what the resample in time does with a chunk.
pub fn time_step(kept_before: bool) -> (r: TimeStep)
    ensures
        r == if kept_before {
            TimeStep::Halve
        } else {
            TimeStep::Pass
        },
{
    if kept_before {
        TimeStep::Halve
    } else {
        TimeStep::Pass
    }
}

/// Behind one kept frame, the resample in time halves an even number of frames, so that four frames
/// become one after two of them.
pub proof fn law_time_halves(t: int)
    requires
        t > 0,
        t % 2 == 0,
    ensures
        conv_frames(t, 1, 3, 2) == t / 2,
        t % 4 == 0 ==> conv_frames(conv_frames(t, 1, 3, 2), 1, 3, 2) == t / 4,
{
}

/// The two extents of an upsampled video hold what the channels held before.
proof fn lemma_interleaved(b: int, c: int, t: int, h: int, w: int)
    ensures
        b * (2 * c) * t * h * w == b * c * (2 * t) * h * w,
{
    assert(b * (2 * c) * t == b * c * (2 * t)) by (nonlinear_arith);
}

/// Whether a video has twice the frames of another in place of twice the channels.
pub open spec fn is_interleaved<T>(y: Tensor<T>, x: Tensor<T>) -> bool {
    let c = x.shape@[1] as int / 2;
    &&& y.wf()
    &&& y.shape@ == seq![
        x.shape@[0],
        c as usize,
        (2 * x.shape@[2]) as usize,
        x.shape@[3],
        x.shape@[4],
    ]
    &&& forall|idx: Seq<int>| #[trigger]
        in_bounds(y.shape@, idx) ==> y.at(idx) == x.at(
            seq![idx[0], idx[2] % 2 * c + idx[1], idx[2] / 2, idx[3], idx[4]],
        )
}

/// Every frame becomes two, one right after the other: the first has the first half of its channels and the
/// second the second half, at the same row and column.
pub proof fn law_frame_becomes_two<T>(
    y: Tensor<T>,
    x: Tensor<T>,
    c: int,
    b: int,
    ch: int,
    t: int,
    h: int,
    w: int,
)
    requires
        x.shape@.len() == 5,
        x.shape@[1] == 2 * c,
        2 * x.shape@[2] <= usize::MAX,
        is_interleaved(y, x),
        0 <= b < x.shape@[0],
        0 <= ch < c,
        0 <= t < x.shape@[2],
        0 <= h < x.shape@[3],
        0 <= w < x.shape@[4],
    ensures
        y.shape@[1] == c,
        y.shape@[2] == 2 * x.shape@[2],
        y.at(seq![b, ch, 2 * t, h, w]) == x.at(seq![b, ch, t, h, w]),
        y.at(seq![b, ch, 2 * t + 1, h, w]) == x.at(seq![b, c + ch, t, h, w]),
{
    let i = seq![b, ch, 2 * t, h, w];
    let j = seq![b, ch, 2 * t + 1, h, w];
    assert(in_bounds(y.shape@, i));
    assert(in_bounds(y.shape@, j));
    assert(0 * c == 0 && 1 * c == c);
    assert(seq![i[0], i[2] % 2 * c + i[1], i[2] / 2, i[3], i[4]] =~= seq![b, ch, t, h, w]);
    assert(seq![j[0], j[2] % 2 * c + j[1], j[2] / 2, j[3], j[4]] =~= seq![b, c + ch, t, h, w]);
}

/// Turns twice the channels into twice the frames: frame `t` becomes frames `2t` and `2t + 1`, the first
/// from the first half of its channels and the second from the second half. An odd number of channels
/// has no halves.
pub fn interleave_frames<T: Copy>(x: &Tensor<T>) -> (r: Option<Tensor<T>>)
    requires
        x.wf(),
        x.shape@.len() == 5,
        2 * x.shape@[2] <= usize::MAX,
    ensures
        r is Some <==> x.shape@[1] % 2 == 0,
        r matches Some(y) ==> {
            let c = x.shape@[1] as int / 2;
            &&& y.wf()
            &&& y.shape@ == seq![
                x.shape@[0],
                c as usize,
                (2 * x.shape@[2]) as usize,
                x.shape@[3],
                x.shape@[4],
            ]
            &&& forall|idx: Seq<int>| #[trigger]
                in_bounds(y.shape@, idx) ==> y.at(idx) == x.at(
                    seq![idx[0], idx[2] % 2 * c + idx[1], idx[2] / 2, idx[3], idx[4]],
                )
        },
        r matches Some(y) ==> is_interleaved(y, *x),
{
    let (b, cc, t, h, w): (usize, usize, usize, usize, usize) = (
        x.shape[0],
        x.shape[1],
        x.shape[2],
        x.shape[3],
        x.shape[4],
    );
    if cc % 2 != 0 {
        return None;
    }
    let c: usize = cc / 2;
    let t2: usize = 2 * t;
    let len: usize = x.data.len();
    let shape: Vec<usize> = vec![b, c, t2, h, w];
    assert(shape@ =~= seq![b, c, t2, h, w]);
    proof {
        assert(x.shape@ =~= seq![b, cc, t, h, w]);
        lemma_volume5(b, cc, t, h, w);
        lemma_volume5(b, c, t2, h, w);
        lemma_interleaved(b as int, c as int, t as int, h as int, w as int);
    }
    let ghost g = |idx: Seq<int>|
        x.at(seq![idx[0], idx[2] % 2 * (c as int) + idx[1], idx[2] / 2, idx[3], idx[4]]);
    let f = |v: &Vec<usize>| -> (out: T)
        requires
            in_bounds(seq![b, c, t2, h, w], index_view(v@)),
            x.wf(),
            x.shape@ == seq![b, cc, t, h, w],
            cc == 2 * c,
            t2 == 2 * t,
        ensures
            out == g(index_view(v@)),
        {
            proof {
                let iv = index_view(v@);
                let sh = seq![b, c, t2, h, w];
                assert(0 <= iv[0] < sh[0]);
                assert(0 <= iv[1] < sh[1]);
                assert(0 <= iv[2] < sh[2]);
                assert(0 <= iv[3] < sh[3]);
                assert(0 <= iv[4] < sh[4]);
            }
            let channel: usize = if v[2] % 2 == 0 {
                v[1]
            } else {
                c + v[1]
            };
            let at: Vec<usize> = vec![v[0], channel, v[2] / 2, v[3], v[4]];
            proof {
                let iv = index_view(v@);
                let to = seq![iv[0], iv[2] % 2 * (c as int) + iv[1], iv[2] / 2, iv[3], iv[4]];
                assert(iv[2] % 2 == 0 || iv[2] % 2 == 1);
                assert(0 * (c as int) == 0 && 1 * (c as int) == c);
                assert(index_view(at@) =~= to);
                assert(in_bounds(x.shape@, to));
            }
            x.get(&at)
        };
    Some(tabulate(shape, f, Ghost(g)))
}

/// Whether latents are decoded to so many frames, rows and columns.
pub open spec fn is_decoded(r: (usize, usize, usize), t: usize, h: usize, w: usize) -> bool {
    &&& r.0 == 4 * t
    &&& r.1 == 8 * h
    &&& r.2 == 8 * w
}

/// One latent frame more gives four frames more, one row more eight rows, and one column more eight columns.
pub proof fn law_decoding_scales_each_axis(
    r: (usize, usize, usize),
    more: (usize, usize, usize),
    a: (usize, usize, usize),
    b: (usize, usize, usize),
)
    requires
        is_decoded(r, a.0, a.1, a.2),
        is_decoded(more, b.0, b.1, b.2),
        b.0 == a.0 + 1,
        b.1 == a.1 + 1,
        b.2 == a.2 + 1,
    ensures
        more.0 == r.0 + 4,
        more.1 == r.1 + 8,
        more.2 == r.2 + 8,
        a.0 == 0 ==> r.0 == 0,
        a.1 == 0 ==> r.1 == 0,
        a.2 == 0 ==> r.2 == 0,
{
}

} // verus!
