//! The denoiser over space and time: how its blocks are laid out, which tensors it has, and which skip
//! each block takes.

use vstd::prelude::*;
use crate::error::Error;
use crate::svd::config::UnetConfig;
use crate::svd::transformer::{
    embedding_names,
    embedding_tensors,
    transformer_names,
    transformer_tensors,
};
use crate::tensor::{
    in_bounds,
    index_view,
    lemma_volume2,
    lemma_volume3,
    tabulate,
    Tensor,
};
use crate::text::{decimal, decimal_text, join2, list_contains, views};
use crate::weights::{absent_at, check_present, conv_names, conv_tensors, extend, one_name};

verus! {

/// The epsilon of a block's norms.
#[derive(Debug, Clone, Copy, PartialEq, Eq, Structural)]
pub enum NormEps {
    /// 0.000001, in the blocks that attend on the way down.
    CrossDown,
    /// 0.00001, everywhere else.
    Other,
}

/// A block on the way down or up: so many residual blocks, each followed by a transformer with so many
/// heads where it attends, and a change of resolution at the end where `resample`.
#[derive(Debug, Clone, Copy, PartialEq, Eq, Structural)]
pub struct BlockPlan {
    pub resnets: usize,
    pub heads: Option<usize>,
    pub resample: bool,
    pub eps: NormEps,
}

/// Block `i` on the way down: all but the last attend and halve the resolution.
pub open spec fn down_block(cfg: UnetConfig, i: int) -> BlockPlan {
    let last = i == cfg.block_out_channels@.len() - 1;
    BlockPlan {
        resnets: cfg.layers_per_block,
        heads: if last {
            None
        } else {
            Some(cfg.num_attention_heads@[i])
        },
        resample: !last,
        eps: if last {
            NormEps::Other
        } else {
            NormEps::CrossDown
        },
    }
}

/// Block `i` on the way up, with one residual block more, and the heads in reverse: all but the first
/// attend, and all but the last double the resolution.
pub open spec fn up_block(cfg: UnetConfig, i: int) -> BlockPlan {
    let heads = cfg.num_attention_heads@;
    BlockPlan {
        resnets: (cfg.layers_per_block + 1) as usize,
        heads: if i == 0 {
            None
        } else {
            Some(heads[heads.len() - 1 - i])
        },
        resample: i != cfg.block_out_channels@.len() - 1,
        eps: NormEps::Other,
    }
}

/// The blocks on the way down.
pub open spec fn down_blocks(cfg: UnetConfig) -> Seq<BlockPlan> {
    Seq::new(cfg.num_attention_heads@.len(), |i: int| down_block(cfg, i))
}

/// The blocks on the way up.
pub open spec fn up_blocks(cfg: UnetConfig) -> Seq<BlockPlan> {
    Seq::new(cfg.num_attention_heads@.len(), |i: int| up_block(cfg, i))
}

/// The way up mirrors the way down: the block on the way up that works at the resolution of a block on the
/// way down attends where that one does, with as many heads, and has one residual block more. On the way
/// down every block but the last attends with its own heads and halves the resolution; on the way up every
/// block but the last doubles it. Only blocks that attend on the way down have the smaller epsilon.
pub proof fn law_way_up_mirrors_the_way_down(cfg: UnetConfig, i: int)
    requires
        cfg.num_attention_heads@.len() == cfg.block_out_channels@.len(),
        cfg.layers_per_block < usize::MAX,
        0 <= i < cfg.block_out_channels@.len(),
    ensures
        ({
            let n = cfg.block_out_channels@.len();
            let down = down_blocks(cfg)[i];
            let up = up_blocks(cfg)[n - 1 - i];
            &&& down_blocks(cfg).len() == n
            &&& up_blocks(cfg).len() == n
            &&& up.heads == down.heads
            &&& up.resnets == down.resnets + 1
            &&& down.resnets == cfg.layers_per_block
            &&& i < n - 1 ==> down.heads == Some(cfg.num_attention_heads@[i])
            &&& i == n - 1 ==> down.heads is None
            &&& down.resample == (i < n - 1)
            &&& up.resample == (i > 0)
            &&& down.eps == NormEps::CrossDown <==> down.heads is Some
            &&& up.eps == NormEps::Other
        }),
{
}

/// The tensors of the residual block over space; the shortcut's where the weights have one.
pub open spec fn spatial_resnet_tensors(keys: Seq<Seq<char>>, prefix: Seq<char>) -> Seq<Seq<char>> {
    let shortcut = if keys.contains(prefix + ".conv_shortcut.weight"@) {
        conv_tensors(prefix + ".conv_shortcut"@)
    } else {
        seq![]
    };
    shortcut + temporal_resnet_tensors(prefix)
}

/// The tensors of the residual block over time.
pub open spec fn temporal_resnet_tensors(prefix: Seq<char>) -> Seq<Seq<char>> {
    conv_tensors(prefix + ".norm1"@) + conv_tensors(prefix + ".conv1"@) + conv_tensors(
        prefix + ".time_emb_proj"@,
    ) + conv_tensors(prefix + ".norm2"@) + conv_tensors(prefix + ".conv2"@)
}

/// The tensors of a residual block over space and time.
pub open spec fn resnet_tensors(keys: Seq<Seq<char>>, prefix: Seq<char>) -> Seq<Seq<char>> {
    spatial_resnet_tensors(keys, prefix + ".spatial_res_block"@) + temporal_resnet_tensors(
        prefix + ".temporal_res_block"@,
    ) + seq![prefix + ".time_mixer.mix_factor"@]
}

/// The tensors of the residual block over time.
fn temporal_resnet_names(prefix: &str) -> (r: Vec<String>)
    ensures
        views(r@) == temporal_resnet_tensors(prefix@),
{
    let mut out = conv_names(join2(prefix, ".norm1").as_str());
    extend(&mut out, conv_names(join2(prefix, ".conv1").as_str()));
    extend(&mut out, conv_names(join2(prefix, ".time_emb_proj").as_str()));
    extend(&mut out, conv_names(join2(prefix, ".norm2").as_str()));
    extend(&mut out, conv_names(join2(prefix, ".conv2").as_str()));
    out
}

/// The tensors of a residual block over space and time.
fn resnet_names(keys: &Vec<String>, prefix: &str) -> (r: Vec<String>)
    ensures
        views(r@) == resnet_tensors(views(keys@), prefix@),
{
    let spatial = join2(prefix, ".spatial_res_block");
    let mut out: Vec<String> = if list_contains(
        keys,
        join2(spatial.as_str(), ".conv_shortcut.weight").as_str(),
    ) {
        conv_names(join2(spatial.as_str(), ".conv_shortcut").as_str())
    } else {
        let none: Vec<String> = Vec::new();
        assert(views(none@) =~= Seq::<Seq<char>>::empty());
        none
    };
    extend(&mut out, temporal_resnet_names(spatial.as_str()));
    extend(&mut out, temporal_resnet_names(join2(prefix, ".temporal_res_block").as_str()));
    extend(&mut out, one_name(join2(prefix, ".time_mixer.mix_factor")));
    out
}

/// The tensors of the first `n` residual blocks of a block.
pub open spec fn resnets_tensors(keys: Seq<Seq<char>>, prefix: Seq<char>, n: nat) -> Seq<Seq<char>>
    decreases n,
{
    if n == 0 {
        seq![]
    } else {
        resnets_tensors(keys, prefix, (n - 1) as nat) + resnet_tensors(
            keys,
            prefix + ".resnets."@ + decimal((n - 1) as nat),
        )
    }
}

/// The tensors of the first `n` transformers of a block.
pub open spec fn attentions_tensors(prefix: Seq<char>, n: nat) -> Seq<Seq<char>>
    decreases n,
{
    if n == 0 {
        seq![]
    } else {
        attentions_tensors(prefix, (n - 1) as nat) + transformer_tensors(
            prefix + ".attentions."@ + decimal((n - 1) as nat),
            1,
        )
    }
}

/// The tensors of a block on the way down or up; `sampler` names its change of resolution.
pub open spec fn block_tensors(
    keys: Seq<Seq<char>>,
    prefix: Seq<char>,
    plan: BlockPlan,
    sampler: Seq<char>,
) -> Seq<Seq<char>> {
    resnets_tensors(keys, prefix, plan.resnets as nat) + (if plan.heads is Some {
        attentions_tensors(prefix, plan.resnets as nat)
    } else {
        seq![]
    }) + if plan.resample {
        conv_tensors(prefix + sampler)
    } else {
        seq![]
    }
}

/// The tensors of a block on the way down or up.
fn block_names(keys: &Vec<String>, prefix: &str, plan: BlockPlan, sampler: &str) -> (r: Vec<String>)
    ensures
        views(r@) == block_tensors(views(keys@), prefix@, plan, sampler@),
{
    let mut out: Vec<String> = Vec::new();
    assert(views(out@) =~= Seq::<Seq<char>>::empty());
    let mut j: usize = 0;
    while j < plan.resnets
        invariant
            j <= plan.resnets,
            views(out@) == resnets_tensors(views(keys@), prefix@, j as nat),
        decreases plan.resnets - j,
    {
        let name = join2(join2(prefix, ".resnets.").as_str(), decimal_text(j).as_str());
        extend(&mut out, resnet_names(keys, name.as_str()));
        j += 1;
    }
    if plan.heads.is_some() {
        let mut attentions: Vec<String> = Vec::new();
        assert(views(attentions@) =~= Seq::<Seq<char>>::empty());
        let mut a: usize = 0;
        while a < plan.resnets
            invariant
                a <= plan.resnets,
                views(attentions@) == attentions_tensors(prefix@, a as nat),
            decreases plan.resnets - a,
        {
            let name = join2(join2(prefix, ".attentions.").as_str(), decimal_text(a).as_str());
            extend(&mut attentions, transformer_names(name.as_str(), 1));
            a += 1;
        }
        extend(&mut out, attentions);
    }
    if plan.resample {
        extend(&mut out, conv_names(join2(prefix, sampler).as_str()));
    }
    proof {
        let v = views(out@);
        assert(v =~= block_tensors(views(keys@), prefix@, plan, sampler@));
    }
    out
}

/// The tensors of the first `n` blocks, numbered under a prefix.
pub open spec fn blocks_tensors(
    keys: Seq<Seq<char>>,
    prefix: Seq<char>,
    plans: Seq<BlockPlan>,
    sampler: Seq<char>,
    n: nat,
) -> Seq<Seq<char>>
    decreases n,
{
    if n == 0 {
        seq![]
    } else {
        blocks_tensors(keys, prefix, plans, sampler, (n - 1) as nat) + block_tensors(
            keys,
            prefix + decimal((n - 1) as nat),
            plans[n - 1],
            sampler,
        )
    }
}

/// The tensors of blocks, numbered under a prefix.
fn blocks_names(keys: &Vec<String>, prefix: &str, plans: &Vec<BlockPlan>, sampler: &str) -> (r: Vec<
    String,
>)
    ensures
        views(r@) == blocks_tensors(views(keys@), prefix@, plans@, sampler@, plans@.len()),
{
    let mut out: Vec<String> = Vec::new();
    assert(views(out@) =~= Seq::<Seq<char>>::empty());
    let mut i: usize = 0;
    while i < plans.len()
        invariant
            i <= plans.len(),
            views(out@) == blocks_tensors(views(keys@), prefix@, plans@, sampler@, i as nat),
        decreases plans.len() - i,
    {
        let name = join2(prefix, decimal_text(i).as_str());
        extend(&mut out, block_names(keys, name.as_str(), plans[i], sampler));
        i += 1;
    }
    out
}

/// The tensors of the first `n` pairs of a transformer and a residual block in the middle.
pub open spec fn mid_pairs(keys: Seq<Seq<char>>, n: nat) -> Seq<Seq<char>>
    decreases n,
{
    if n == 0 {
        seq![]
    } else {
        mid_pairs(keys, (n - 1) as nat) + transformer_tensors(
            "mid_block.attentions."@ + decimal((n - 1) as nat),
            1,
        ) + resnet_tensors(keys, "mid_block.resnets."@ + decimal(n))
    }
}

/// The tensors of the middle: a residual block, then pairs.
pub open spec fn mid_tensors(keys: Seq<Seq<char>>, layers: nat) -> Seq<Seq<char>> {
    resnet_tensors(keys, "mid_block.resnets.0"@) + mid_pairs(keys, layers)
}

/// The tensors of the middle.
fn mid_names(keys: &Vec<String>, layers: usize) -> (r: Vec<String>)
    requires
        layers < usize::MAX,
    ensures
        views(r@) == mid_tensors(views(keys@), layers as nat),
{
    let mut out = resnet_names(keys, "mid_block.resnets.0");
    let mut pairs: Vec<String> = Vec::new();
    assert(views(pairs@) =~= Seq::<Seq<char>>::empty());
    let mut i: usize = 0;
    while i < layers
        invariant
            i <= layers,
            layers < usize::MAX,
            views(pairs@) == mid_pairs(views(keys@), i as nat),
        decreases layers - i,
    {
        let attention = join2("mid_block.attentions.", decimal_text(i).as_str());
        extend(&mut pairs, transformer_names(attention.as_str(), 1));
        let resnet = join2("mid_block.resnets.", decimal_text(i + 1).as_str());
        extend(&mut pairs, resnet_names(keys, resnet.as_str()));
        i += 1;
    }
    extend(&mut out, pairs);
    out
}

/// The tensors that the denoiser reads, in the order it reads them.
pub open spec fn unet_tensors(keys: Seq<Seq<char>>, cfg: UnetConfig) -> Seq<Seq<char>> {
    blocks_tensors(
        keys,
        "down_blocks."@,
        down_blocks(cfg),
        ".downsamplers.0.conv"@,
        down_blocks(cfg).len(),
    ) + mid_tensors(keys, cfg.transformer_layers_per_block as nat) + blocks_tensors(
        keys,
        "up_blocks."@,
        up_blocks(cfg),
        ".upsamplers.0.conv"@,
        up_blocks(cfg).len(),
    ) + conv_tensors("conv_in"@) + embedding_tensors("time_embedding"@) + embedding_tensors(
        "add_embedding"@,
    ) + conv_tensors("conv_norm_out"@) + conv_tensors("conv_out"@)
}

/// The denoiser, laid out.
#[derive(Debug)]
pub struct SvdUnet {
    pub down_blocks: Vec<BlockPlan>,
    pub mid_heads: usize,
    pub mid_layers: usize,
    pub up_blocks: Vec<BlockPlan>,
    pub time_proj_dim: usize,
    pub add_time_proj_dim: usize,
}

/// Lays the blocks on the way down out.
fn lay_down(cfg: &UnetConfig) -> (r: Vec<BlockPlan>)
    requires
        cfg.block_out_channels@.len() > 0,
    ensures
        r@ == down_blocks(*cfg),
{
    let n: usize = cfg.block_out_channels.len();
    let mut out: Vec<BlockPlan> = Vec::new();
    let mut i: usize = 0;
    while i < cfg.num_attention_heads.len()
        invariant
            i <= cfg.num_attention_heads.len(),
            n == cfg.block_out_channels@.len(),
            n > 0,
            out@ == down_blocks(*cfg).take(i as int),
        decreases cfg.num_attention_heads.len() - i,
    {
        let last = i == n - 1;
        let plan = BlockPlan {
            resnets: cfg.layers_per_block,
            heads: if last {
                None
            } else {
                Some(cfg.num_attention_heads[i])
            },
            resample: !last,
            eps: if last {
                NormEps::Other
            } else {
                NormEps::CrossDown
            },
        };
        out.push(plan);
        assert(down_blocks(*cfg).take(i + 1) =~= down_blocks(*cfg).take(i as int).push(plan));
        i += 1;
    }
    assert(down_blocks(*cfg).take(i as int) =~= down_blocks(*cfg));
    out
}

/// Lays the blocks on the way up out.
fn lay_up(cfg: &UnetConfig) -> (r: Vec<BlockPlan>)
    requires
        cfg.block_out_channels@.len() > 0,
        cfg.layers_per_block < usize::MAX,
    ensures
        r@ == up_blocks(*cfg),
{
    let n: usize = cfg.block_out_channels.len();
    let count: usize = cfg.num_attention_heads.len();
    let mut out: Vec<BlockPlan> = Vec::new();
    let mut i: usize = 0;
    while i < count
        invariant
            i <= count,
            count == cfg.num_attention_heads@.len(),
            n == cfg.block_out_channels@.len(),
            n > 0,
            cfg.layers_per_block < usize::MAX,
            out@ == up_blocks(*cfg).take(i as int),
        decreases count - i,
    {
        let plan = BlockPlan {
            resnets: cfg.layers_per_block + 1,
            heads: if i == 0 {
                None
            } else {
                Some(cfg.num_attention_heads[count - 1 - i])
            },
            resample: i != n - 1,
            eps: NormEps::Other,
        };
        out.push(plan);
        assert(up_blocks(*cfg).take(i + 1) =~= up_blocks(*cfg).take(i as int).push(plan));
        i += 1;
    }
    assert(up_blocks(*cfg).take(i as int) =~= up_blocks(*cfg));
    out
}

impl SvdUnet {
    /// Lays the denoiser out and checks that the weights hold every tensor of it, or names the first
    /// that is missing.
    pub fn from_weights(keys: &Vec<String>, cfg: &UnetConfig) -> (r: Result<SvdUnet, Error>)
        requires
            cfg.block_out_channels@.len() > 0,
            cfg.num_attention_heads@.len() > 0,
            cfg.layers_per_block < usize::MAX,
            cfg.transformer_layers_per_block < usize::MAX,
        ensures
            match r {
                Ok(u) => {
                    &&& forall|n: Seq<char>|
                        unet_tensors(views(keys@), *cfg).contains(n) ==> #[trigger] views(
                            keys@,
                        ).contains(n)
                    &&& u.down_blocks@ == down_blocks(*cfg)
                    &&& u.mid_heads == cfg.num_attention_heads@.last()
                    &&& u.mid_layers == cfg.transformer_layers_per_block
                    &&& u.up_blocks@ == up_blocks(*cfg)
                    &&& u.time_proj_dim == cfg.block_out_channels@[0]
                    &&& u.add_time_proj_dim == cfg.addition_time_embed_dim
                },
                Err(e) => e matches Error::MissingTensor(k) && absent_at(
                    unet_tensors(views(keys@), *cfg),
                    views(keys@),
                    k@,
                ),
            },
    {
        let down = lay_down(cfg);
        let up = lay_up(cfg);
        let mut names = blocks_names(keys, "down_blocks.", &down, ".downsamplers.0.conv");
        extend(&mut names, mid_names(keys, cfg.transformer_layers_per_block));
        extend(&mut names, blocks_names(keys, "up_blocks.", &up, ".upsamplers.0.conv"));
        extend(&mut names, conv_names("conv_in"));
        extend(&mut names, embedding_names("time_embedding"));
        extend(&mut names, embedding_names("add_embedding"));
        extend(&mut names, conv_names("conv_norm_out"));
        extend(&mut names, conv_names("conv_out"));
        match check_present(&names, keys) {
            Err(e) => {
                return Err(e);
            },
            Ok(()) => {},
        }
        Ok(
            SvdUnet {
                down_blocks: down,
                mid_heads: cfg.num_attention_heads[cfg.num_attention_heads.len() - 1],
                mid_layers: cfg.transformer_layers_per_block,
                up_blocks: up,
                time_proj_dim: cfg.block_out_channels[0],
                add_time_proj_dim: cfg.addition_time_embed_dim,
            },
        )
    }
}

/// How many skips the first `n` blocks on the way down leave: one for each residual block, and one for a
/// change of resolution.
pub open spec fn skips_left(plans: Seq<BlockPlan>, n: nat) -> int
    decreases n,
{
    if n == 0 {
        0
    } else {
        skips_left(plans, (n - 1) as nat) + plans[n - 1].resnets + if plans[n - 1].resample {
            1int
        } else {
            0
        }
    }
}

/// How many skips the first `n` blocks on the way up take: one for each residual block.
pub open spec fn skips_taken(plans: Seq<BlockPlan>, n: nat) -> int
    decreases n,
{
    if n == 0 {
        0
    } else {
        skips_taken(plans, (n - 1) as nat) + plans[n - 1].resnets
    }
}

/// What the first blocks on the way down leave.
proof fn lemma_skips_left(cfg: UnetConfig, n: nat)
    requires
        n <= cfg.num_attention_heads@.len(),
        cfg.num_attention_heads@.len() == cfg.block_out_channels@.len(),
    ensures
        skips_left(down_blocks(cfg), n) == n * cfg.layers_per_block + if n
            == cfg.block_out_channels@.len() && n > 0 {
            n - 1
        } else {
            n as int
        },
    decreases n,
{
    if n > 0 {
        lemma_skips_left(cfg, (n - 1) as nat);
        let l = cfg.layers_per_block as int;
        assert(n * l == (n - 1) * l + l) by (nonlinear_arith);
    } else {
        assert(0 * cfg.layers_per_block == 0);
    }
}

/// What the first blocks on the way up take.
proof fn lemma_skips_taken(cfg: UnetConfig, n: nat)
    requires
        n <= cfg.num_attention_heads@.len(),
        cfg.layers_per_block < usize::MAX,
    ensures
        skips_taken(up_blocks(cfg), n) == n * (cfg.layers_per_block + 1),
    decreases n,
{
    if n > 0 {
        lemma_skips_taken(cfg, (n - 1) as nat);
        let l = cfg.layers_per_block + 1;
        assert(n * l == (n - 1) * l + l) by (nonlinear_arith);
    } else {
        assert(0 * (cfg.layers_per_block + 1) == 0);
    }
}

/// With as many heads as blocks, the blocks on the way up take as many skips as the first convolution and
/// the blocks on the way down leave: none is missing and none is left.
pub proof fn law_skips_balance(cfg: UnetConfig)
    requires
        cfg.num_attention_heads@.len() == cfg.block_out_channels@.len(),
        cfg.block_out_channels@.len() > 0,
        cfg.layers_per_block < usize::MAX,
    ensures
        1 + skips_left(down_blocks(cfg), down_blocks(cfg).len()) == skips_taken(
            up_blocks(cfg),
            up_blocks(cfg).len(),
        ),
{
    let n = cfg.num_attention_heads@.len();
    lemma_skips_left(cfg, n);
    lemma_skips_taken(cfg, n);
    let l = cfg.layers_per_block as int;
    let m = n as int;
    assert(m * (l + 1) == m * l + m) by (nonlinear_arith);
}

/// The skip that a residual block on the way up takes, as a number in the order they were left: the last
/// one that was not taken.
pub fn skip_for(left: usize, taken: usize) -> (r: usize)
    requires
        taken < left,
    ensures
        r == left - 1 - taken,
{
    left - 1 - taken
}

/// Whether a tensor is another one with each of its rows repeated `f` times in a row.
pub open spec fn is_repeated<T>(r: Tensor<T>, x: Tensor<T>, f: int) -> bool {
    &&& r.shape@ == x.shape@.update(0, (x.shape@[0] * f) as usize)
    &&& forall|idx: Seq<int>| #[trigger]
        in_bounds(r.shape@, idx) ==> r.at(idx) == x.at(idx.update(0, idx[0] / f))
}

/// All copies of a row stand together: copy `k` of row `i` is row `f * i + k`, and is the same at every
/// other position.
pub proof fn law_copies_stand_together<T>(r: Tensor<T>, x: Tensor<T>, f: int, idx: Seq<int>, k: int)
    requires
        x.shape@.len() > 0,
        0 < f,
        x.shape@[0] * f <= usize::MAX,
        is_repeated(r, x, f),
        in_bounds(x.shape@, idx),
        0 <= k < f,
    ensures
        r.shape@[0] == x.shape@[0] * f,
        r.at(idx.update(0, f * idx[0] + k)) == x.at(idx),
{
    let i = idx[0];
    let n = x.shape@[0] as int;
    assert(0 <= idx[0] < x.shape@[0]);
    assert(0 <= f * i + k < n * f && (f * i + k) / f == i && n * f >= 0) by (nonlinear_arith)
        requires
            0 <= i < n,
            0 <= k < f,
    ;
    let to = idx.update(0, f * i + k);
    assert(in_bounds(r.shape@, to)) by {
        assert forall|a: int| 0 <= a < r.shape@.len() implies 0 <= #[trigger] to[a] < r.shape@[a] by {
            if a != 0 {
                assert(0 <= idx[a] < x.shape@[a]);
            }
        }
    }
    assert(to.update(0, to[0] / f) =~= idx);
}

/// Repeats each row `f` times in a row.
pub fn repeat_interleave_2d<T: Copy>(x: &Tensor<T>, f: usize) -> (r: Tensor<T>)
    requires
        x.wf(),
        x.shape@.len() == 2,
        x.shape@[0] * f <= usize::MAX,
        x.shape@[0] * f * x.shape@[1] <= usize::MAX,
    ensures
        r.wf(),
        r.shape@ == seq![(x.shape@[0] * f) as usize, x.shape@[1]],
        forall|idx: Seq<int>| #[trigger]
            in_bounds(r.shape@, idx) ==> r.at(idx) == x.at(idx.update(0, idx[0] / (f as int))),
        is_repeated(r, *x, f as int),
{
    let b: usize = x.shape[0];
    let d: usize = x.shape[1];
    let rows: usize = b * f;
    let shape: Vec<usize> = vec![rows, d];
    assert(shape@ =~= seq![rows, d]);
    assert(x.shape@ =~= seq![b, d]);
    proof {
        lemma_volume2(rows, d);
    }
    assert(shape@ =~= x.shape@.update(0, rows));
    let ghost g = |idx: Seq<int>| x.at(idx.update(0, idx[0] / (f as int)));
    let row = |v: &Vec<usize>| -> (out: T)
        requires
            in_bounds(seq![rows, d], index_view(v@)),
            x.wf(),
            x.shape@ == seq![b, d],
            rows == b * f,
        ensures
            out == g(index_view(v@)),
        {
            proof {
                let iv = index_view(v@);
                let sh = seq![rows, d];
                assert(0 <= iv[0] < sh[0]);
                assert(0 <= iv[1] < sh[1]);
                lemma_row(iv[0], b as int, f as int);
            }
            let at: Vec<usize> = vec![v[0] / f, v[1]];
            proof {
                let iv = index_view(v@);
                assert(index_view(at@) =~= iv.update(0, iv[0] / (f as int)));
            }
            x.get(&at)
        };
    tabulate(shape, row, Ghost(g))
}

/// Repeats each matrix `f` times in a row.
pub fn repeat_interleave_3d<T: Copy>(x: &Tensor<T>, f: usize) -> (r: Tensor<T>)
    requires
        x.wf(),
        x.shape@.len() == 3,
        x.shape@[0] * f <= usize::MAX,
        x.shape@[0] * f * x.shape@[1] * x.shape@[2] <= usize::MAX,
    ensures
        r.wf(),
        r.shape@ == seq![(x.shape@[0] * f) as usize, x.shape@[1], x.shape@[2]],
        forall|idx: Seq<int>| #[trigger]
            in_bounds(r.shape@, idx) ==> r.at(idx) == x.at(idx.update(0, idx[0] / (f as int))),
        is_repeated(r, *x, f as int),
{
    let b: usize = x.shape[0];
    let s: usize = x.shape[1];
    let d: usize = x.shape[2];
    let rows: usize = b * f;
    let shape: Vec<usize> = vec![rows, s, d];
    assert(shape@ =~= seq![rows, s, d]);
    assert(x.shape@ =~= seq![b, s, d]);
    proof {
        lemma_volume3(rows, s, d);
    }
    assert(shape@ =~= x.shape@.update(0, rows));
    let ghost g = |idx: Seq<int>| x.at(idx.update(0, idx[0] / (f as int)));
    let row = |v: &Vec<usize>| -> (out: T)
        requires
            in_bounds(seq![rows, s, d], index_view(v@)),
            x.wf(),
            x.shape@ == seq![b, s, d],
            rows == b * f,
        ensures
            out == g(index_view(v@)),
        {
            proof {
                let iv = index_view(v@);
                let sh = seq![rows, s, d];
                assert(0 <= iv[0] < sh[0]);
                assert(0 <= iv[1] < sh[1]);
                assert(0 <= iv[2] < sh[2]);
                lemma_row(iv[0], b as int, f as int);
            }
            let at: Vec<usize> = vec![v[0] / f, v[1], v[2]];
            proof {
                let iv = index_view(v@);
                assert(index_view(at@) =~= iv.update(0, iv[0] / (f as int)));
            }
            x.get(&at)
        };
    tabulate(shape, row, Ghost(g))
}

/// A repeated row comes from a row.
proof fn lemma_row(i: int, b: int, f: int)
    requires
        0 <= i < b * f,
        b >= 0,
        f >= 0,
    ensures
        f > 0,
        0 <= i / f < b,
{
    assert(f > 0 && 0 <= i / f < b) by (nonlinear_arith)
        requires
            0 <= i < b * f,
            b >= 0,
            f >= 0,
    ;
}

} // verus!
