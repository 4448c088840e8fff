//! The diffusion transformer: which of its linear layers take adapters or quantized weights, which
//! tensors it loads, and what is threaded through a checkpointed training step.

use vstd::prelude::*;
use crate::error::Error;
use crate::weights::{absent_at, check_present, extend};
use crate::text::{
    join_with, joined, decimal, decimal_text, is_digit, join2, lemma_decimal, lemma_split_join,
    lemma_split_single, law_decimal_reads_back, list_contains, parse_usize, parsed_usize,
    same_text, split, split_text, views,
};

verus! {

/// Whether the elementwise operations between the matrix products run as one fused kernel.
#[derive(Debug, Clone, Copy, PartialEq, Eq, Structural)]
pub struct CompileGlue {
    pub on: bool,
}

impl CompileGlue {
    /// Off, so that the eager form runs unless it is asked for otherwise.
    pub fn new() -> (r: CompileGlue)
        ensures
            !r.on,
    {
        CompileGlue { on: false }
    }
}

/// Turns the fused form on or off.
pub fn set_compile_glue(glue: &mut CompileGlue, on: bool)
    ensures
        final(glue).on == on,
{
    glue.on = on;
}

/// Whether the fused form is on.
pub fn compile_glue(glue: &CompileGlue) -> (r: bool)
    ensures
        r == glue.on,
{
    glue.on
}

/// Remembers the setting that held before a render turned the fused form on.
#[must_use]
pub struct CompileGlueGuard {
    prev: bool,
}

impl CompileGlueGuard {
    /// The setting that [`CompileGlueGuard::restore`] brings back.
    pub closed spec fn previous(self) -> bool {
        self.prev
    }

    /// Turns the fused form on and remembers what was set before.
    pub fn enable(glue: &mut CompileGlue) -> (r: CompileGlueGuard)
        ensures
            final(glue).on,
            r.previous() == old(glue).on,
    {
        let prev = glue.on;
        glue.on = true;
        CompileGlueGuard { prev }
    }

    /// Brings back the remembered setting.
    pub fn restore(self, glue: &mut CompileGlue)
        ensures
            final(glue).on == self.previous(),
    {
        glue.on = self.prev;
    }
}

/// How a pre-quantized checkpoint was packed.
#[derive(Debug, Clone, Copy, PartialEq, Eq, Structural)]
pub struct WanQuant {
    pub bits: i32,
    pub group_size: i32,
}

/// One projection of an attention.
#[derive(Debug, Clone, Copy, PartialEq, Eq, Structural)]
pub enum Projection {
    Q,
    K,
    V,
    O,
}

/// A linear layer of a block that takes adapters and quantized weights.
#[derive(Debug, Clone, Copy, PartialEq, Eq, Structural)]
pub enum BlockSite {
    SelfAttn(Projection),
    CrossAttn(Projection),
    Fc1,
    Fc2,
}

/// A trainable adapter target of one block: its path inside the block and the names of its two
/// factors.
#[derive(Debug)]
pub struct BlockLoraRef {
    pub local: Vec<String>,
    pub a_key: String,
    pub b_key: String,
}

/// The name of a projection.
pub open spec fn projection_name(p: Projection) -> Seq<char> {
    match p {
        Projection::Q => "q"@,
        Projection::K => "k"@,
        Projection::V => "v"@,
        Projection::O => "o"@,
    }
}

/// The path of a layer inside its block.
pub open spec fn site_parts(site: BlockSite) -> Seq<Seq<char>> {
    match site {
        BlockSite::SelfAttn(p) => seq!["self_attn"@, projection_name(p)],
        BlockSite::CrossAttn(p) => seq!["cross_attn"@, projection_name(p)],
        BlockSite::Fc1 => seq!["ffn"@, "fc1"@],
        BlockSite::Fc2 => seq!["ffn"@, "fc2"@],
    }
}

/// The projection that has this name.
pub open spec fn projection_of(name: Seq<char>) -> Option<Projection> {
    if name == "q"@ {
        Some(Projection::Q)
    } else if name == "k"@ {
        Some(Projection::K)
    } else if name == "v"@ {
        Some(Projection::V)
    } else if name == "o"@ {
        Some(Projection::O)
    } else {
        None
    }
}

/// The layer of a block that a path inside the block leads to.
pub open spec fn block_site(parts: Seq<Seq<char>>) -> Option<BlockSite> {
    if parts.len() != 2 {
        None
    } else if parts[0] == "self_attn"@ {
        match projection_of(parts[1]) {
            Some(p) => Some(BlockSite::SelfAttn(p)),
            None => None,
        }
    } else if parts[0] == "cross_attn"@ {
        match projection_of(parts[1]) {
            Some(p) => Some(BlockSite::CrossAttn(p)),
            None => None,
        }
    } else if parts == seq!["ffn"@, "fc1"@] {
        Some(BlockSite::Fc1)
    } else if parts == seq!["ffn"@, "fc2"@] {
        Some(BlockSite::Fc2)
    } else {
        None
    }
}

/// The block and the layer that a path through the whole model leads to, where the model has
/// `blocks` blocks.
pub open spec fn model_site(blocks: nat, parts: Seq<Seq<char>>) -> Option<(usize, BlockSite)> {
    if parts.len() < 2 || parts[0] != "blocks"@ {
        None
    } else {
        match (parsed_usize(parts[1]), block_site(parts.skip(2))) {
            (Some(i), Some(site)) => if i < blocks {
                Some((i, site))
            } else {
                None
            },
            _ => None,
        }
    }
}

/// The ten layers of a block, in the order in which they are listed.
pub open spec fn sites_in_order() -> Seq<BlockSite> {
    seq![
        BlockSite::SelfAttn(Projection::Q),
        BlockSite::SelfAttn(Projection::K),
        BlockSite::SelfAttn(Projection::V),
        BlockSite::SelfAttn(Projection::O),
        BlockSite::CrossAttn(Projection::Q),
        BlockSite::CrossAttn(Projection::K),
        BlockSite::CrossAttn(Projection::V),
        BlockSite::CrossAttn(Projection::O),
        BlockSite::Fc1,
        BlockSite::Fc2,
    ]
}

/// The name of a layer of block `i` in the checkpoint.
pub open spec fn site_path(i: nat, site: BlockSite) -> Seq<char> {
    let parts = site_parts(site);
    "blocks."@ + decimal(i) + "."@ + parts[0] + "."@ + parts[1]
}

/// The name of block `i` in the checkpoint.
pub open spec fn block_name(i: nat) -> Seq<char> {
    "blocks."@ + decimal(i)
}

/// The paths that [`adaptable_paths`] lists.
pub open spec fn listed_paths(blocks: nat) -> Seq<Seq<char>> {
    Seq::new(blocks * 10, |k: int| site_path((k / 10) as nat, sites_in_order()[k % 10]))
}

/// The projection that has this name.
fn find_projection(name: &str) -> (r: Option<Projection>)
    ensures
        r == projection_of(name@),
{
    if same_text(name, "q") {
        Some(Projection::Q)
    } else if same_text(name, "k") {
        Some(Projection::K)
    } else if same_text(name, "v") {
        Some(Projection::V)
    } else if same_text(name, "o") {
        Some(Projection::O)
    } else {
        None
    }
}

/// The layer of a block that the parts of `path` from `start` on lead to.
fn site_from(path: &Vec<String>, start: usize) -> (r: Option<BlockSite>)
    requires
        start <= path.len(),
    ensures
        r == block_site(views(path@).skip(start as int)),
{
    let ghost parts = views(path@).skip(start as int);
    if path.len() - start != 2 {
        return None;
    }
    let head = path[start].as_str();
    let tail = path[start + 1].as_str();
    assert(parts[0] == head@ && parts[1] == tail@);
    if same_text(head, "self_attn") {
        return match find_projection(tail) {
            Some(p) => Some(BlockSite::SelfAttn(p)),
            None => None,
        };
    }
    if same_text(head, "cross_attn") {
        return match find_projection(tail) {
            Some(p) => Some(BlockSite::CrossAttn(p)),
            None => None,
        };
    }
    if same_text(head, "ffn") && same_text(tail, "fc1") {
        assert(parts =~= seq!["ffn"@, "fc1"@]);
        return Some(BlockSite::Fc1);
    }
    assert(parts != seq!["ffn"@, "fc1"@]) by {
        if parts == seq!["ffn"@, "fc1"@] {
            assert(parts[0] == "ffn"@ && parts[1] == "fc1"@);
        }
    }
    if same_text(head, "ffn") && same_text(tail, "fc2") {
        assert(parts =~= seq!["ffn"@, "fc2"@]);
        return Some(BlockSite::Fc2);
    }
    assert(parts != seq!["ffn"@, "fc2"@]) by {
        if parts == seq!["ffn"@, "fc2"@] {
            assert(parts[0] == "ffn"@ && parts[1] == "fc2"@);
        }
    }
    None
}

/// The layer of a block that a path inside the block leads to.
pub fn block_adaptable(path: &Vec<String>) -> (r: Option<BlockSite>)
    ensures
        r == block_site(views(path@)),
{
    assert(views(path@).skip(0) =~= views(path@));
    site_from(path, 0)
}

/// The block and the layer that a path through the whole model leads to.
pub fn model_adaptable(blocks: usize, path: &Vec<String>) -> (r: Option<(usize, BlockSite)>)
    ensures
        r == model_site(blocks as nat, views(path@)),
{
    if path.len() < 2 {
        return None;
    }
    assert(views(path@)[0] == path@[0]@ && views(path@)[1] == path@[1]@);
    if !same_text(path[0].as_str(), "blocks") {
        return None;
    }
    match parse_usize(path[1].as_str()) {
        Some(i) => match site_from(path, 2) {
            Some(site) => if i < blocks {
                Some((i, site))
            } else {
                None
            },
            None => None,
        },
        None => None,
    }
}

/// The name of a layer of block `i` in the checkpoint.
fn site_text(i: usize, head: &str, tail: &str) -> (r: String)
    ensures
        r@ == "blocks."@ + decimal(i as nat) + "."@ + head@ + "."@ + tail@,
{
    let block = join2("blocks.", decimal_text(i).as_str());
    block.concat(".").concat(head).concat(".").concat(tail)
}

/// The paths of every layer that takes adapters, block by block.
pub fn adaptable_paths(blocks: usize) -> (r: Vec<String>)
    ensures
        views(r@) == listed_paths(blocks as nat),
{
    let mut out: Vec<String> = Vec::new();
    let mut i: usize = 0;
    assert(views(out@) =~= listed_paths(0));
    while i < blocks
        invariant
            i <= blocks,
            views(out@) == listed_paths(i as nat),
        decreases blocks - i,
    {
        let ghost before = views(out@);
        let names = site_list(i);
        let ghost nv = views(names@);
        extend(&mut out, names);
        proof {
            let after = views(out@);
            let want = listed_paths((i + 1) as nat);
            assert(before.len() == i * 10);
            assert(want.len() == (i + 1) * 10);
            assert forall|k: int| 0 <= k < after.len() implies after[k] == want[k] by {
                if k < before.len() {
                    assert(after[k] == before[k]);
                    assert(before[k] == listed_paths(i as nat)[k]);
                } else {
                    let m = k - i * 10;
                    assert(0 <= m < 10);
                    assert(k / 10 == i && k % 10 == m);
                    assert(after[k] == nv[m]);
                    assert(names@[m]@ == site_path(i as nat, sites_in_order()[m]));
                }
            }
            assert(after =~= want);
        }
        i += 1;
    }
    out
}

/// A row of digits holds no dot.
proof fn lemma_no_dot(d: Seq<char>)
    requires
        forall|i: int| 0 <= i < d.len() ==> is_digit(#[trigger] d[i]),
    ensures
        !d.contains('.'),
{
    if d.contains('.') {
        let k = choose|k: int| 0 <= k < d.len() && d[k] == '.';
        assert(is_digit(d[k]));
    }
}

/// The parts of a layer's name between the dots.
proof fn lemma_site_path_parts(i: nat, site: BlockSite)
    ensures
        split_text(site_path(i, site), '.') == seq!["blocks"@, decimal(i)] + site_parts(site),
{
    reveal_strlit("blocks");
    reveal_strlit("blocks.");
    reveal_strlit(".");
    reveal_strlit("self_attn");
    reveal_strlit("cross_attn");
    reveal_strlit("ffn");
    reveal_strlit("fc1");
    reveal_strlit("fc2");
    reveal_strlit("q");
    reveal_strlit("k");
    reveal_strlit("v");
    reveal_strlit("o");
    let parts = site_parts(site);
    let d = decimal(i);
    let dot = seq!['.'];
    lemma_decimal(i);
    lemma_no_dot(d);
    assert(!"blocks"@.contains('.'));
    assert(!parts[0].contains('.'));
    assert(!parts[1].contains('.'));
    let rest1 = parts[0] + dot + parts[1];
    let rest2 = d + dot + rest1;
    assert(site_path(i, site) =~= "blocks"@ + dot + rest2);
    lemma_split_join("blocks"@, '.', rest2);
    lemma_split_join(d, '.', rest1);
    lemma_split_join(parts[0], '.', parts[1]);
    lemma_split_single("blocks"@, '.');
    lemma_split_single(d, '.');
    lemma_split_single(parts[0], '.');
    lemma_split_single(parts[1], '.');
    assert(split_text(site_path(i, site), '.') =~= seq!["blocks"@, d] + parts);
}

/// The name of each of a block's layers leads back to that layer.
proof fn lemma_block_site_names(site: BlockSite)
    ensures
        block_site(site_parts(site)) == Some(site),
{
    reveal_strlit("self_attn");
    reveal_strlit("cross_attn");
    reveal_strlit("ffn");
    reveal_strlit("fc1");
    reveal_strlit("fc2");
    reveal_strlit("q");
    reveal_strlit("k");
    reveal_strlit("v");
    reveal_strlit("o");
    let a = "self_attn"@;
    let b = "cross_attn"@;
    let f = "ffn"@;
    assert(a.len() != b.len() && a.len() != f.len() && b.len() != f.len());
    assert("q"@[0] != "k"@[0] && "q"@[0] != "v"@[0] && "q"@[0] != "o"@[0]);
    assert("k"@[0] != "v"@[0] && "k"@[0] != "o"@[0] && "v"@[0] != "o"@[0]);
    assert("fc1"@[2] != "fc2"@[2]);
    match site {
        BlockSite::SelfAttn(p) => {
            assert(projection_of(projection_name(p)) == Some(p));
        },
        BlockSite::CrossAttn(p) => {
            assert(projection_of(projection_name(p)) == Some(p));
        },
        BlockSite::Fc1 => {},
        BlockSite::Fc2 => {
            assert(site_parts(site)[1] != seq!["ffn"@, "fc1"@][1]);
        },
    }
}

/// Every path that the model lists leads to the layer that it is listed for: block by block, ten
/// layers each, in the listed order.
pub proof fn law_listed_paths_resolve(blocks: nat, k: int)
    requires
        0 <= k < blocks * 10,
        blocks <= usize::MAX,
    ensures
        model_site(blocks, split_text(listed_paths(blocks)[k], '.')) == Some(
            ((k / 10) as usize, sites_in_order()[k % 10]),
        ),
{
    let i = (k / 10) as nat;
    let site = sites_in_order()[k % 10];
    lemma_site_path_parts(i, site);
    lemma_block_site_names(site);
    let parts = split_text(listed_paths(blocks)[k], '.');
    assert(parts.skip(2) =~= site_parts(site));
    assert(parts[0] == "blocks"@ && parts[1] == decimal(i));
    law_decimal_reads_back(i as usize);
}

/// What carries adapters: a listed set of paths, or a transformer with a number of blocks.
#[derive(Debug)]
pub enum HostSurface {
    Listed(Vec<String>),
    Blocks(usize),
}

impl HostSurface {
    /// Whether a module path leads to a layer that takes adapters.
    pub open spec fn holds(&self, path: Seq<char>) -> bool {
        match self {
            HostSurface::Listed(paths) => views(paths@).contains(path),
            HostSurface::Blocks(n) => model_site(*n as nat, split_text(path, '.')) is Some,
        }
    }

    /// Decides [`HostSurface::holds`].
    pub fn adaptable(&self, path: &str) -> (r: bool)
        ensures
            r == self.holds(path@),
    {
        match self {
            HostSurface::Listed(paths) => list_contains(paths, path),
            HostSurface::Blocks(n) => model_adaptable(*n, &split(path, '.')).is_some(),
        }
    }
}

/// How a linear layer is built from the stored tensors.
#[derive(Debug, Clone, Copy, PartialEq, Eq, Structural)]
pub enum LinearSource {
    /// From a weight and a bias.
    Dense,
    /// From packed weights with their scales and offsets, as they are stored.
    Packed { quant: WanQuant, has_bias: bool },
}

/// Whether the layer is stored packed: the checkpoint says that it was quantized, and the layer
/// has scales.
pub open spec fn is_packed(
    keys: Seq<Seq<char>>,
    prefix: Seq<char>,
    quant: Option<WanQuant>,
) -> bool {
    quant is Some && keys.contains(prefix + ".scales"@)
}

/// The tensors that the layer cannot do without, in the order in which they are read.
pub open spec fn linear_tensors(
    keys: Seq<Seq<char>>,
    prefix: Seq<char>,
    quant: Option<WanQuant>,
) -> Seq<Seq<char>> {
    if is_packed(keys, prefix, quant) {
        seq![prefix + ".weight"@, prefix + ".biases"@]
    } else {
        seq![prefix + ".weight"@, prefix + ".bias"@]
    }
}

/// How the layer is built.
pub open spec fn linear_source(
    keys: Seq<Seq<char>>,
    prefix: Seq<char>,
    quant: Option<WanQuant>,
) -> LinearSource {
    if is_packed(keys, prefix, quant) {
        LinearSource::Packed { quant: quant->0, has_bias: keys.contains(prefix + ".bias"@) }
    } else {
        LinearSource::Dense
    }
}

/// The tensors of one attention, in the order in which they are read.
pub open spec fn attention_tensors(
    keys: Seq<Seq<char>>,
    prefix: Seq<char>,
    quant: Option<WanQuant>,
) -> Seq<Seq<char>> {
    linear_tensors(keys, prefix + ".q"@, quant) + linear_tensors(keys, prefix + ".k"@, quant)
        + linear_tensors(keys, prefix + ".v"@, quant) + linear_tensors(keys, prefix + ".o"@, quant)
        + seq![prefix + ".norm_q.weight"@, prefix + ".norm_k.weight"@]
}

/// The tensors of one block, in the order in which they are read.
pub open spec fn block_tensors(
    keys: Seq<Seq<char>>,
    i: nat,
    quant: Option<WanQuant>,
) -> Seq<Seq<char>> {
    let p = block_name(i);
    seq![p + ".modulation"@] + attention_tensors(keys, p + ".self_attn"@, quant)
        + attention_tensors(keys, p + ".cross_attn"@, quant) + seq![
        p + ".norm3.weight"@,
        p + ".norm3.bias"@,
    ] + linear_tensors(keys, p + ".ffn.fc1"@, quant) + linear_tensors(
        keys,
        p + ".ffn.fc2"@,
        quant,
    )
}

/// The tensors of the first `layers` blocks.
pub open spec fn all_block_tensors(
    keys: Seq<Seq<char>>,
    layers: nat,
    quant: Option<WanQuant>,
) -> Seq<Seq<char>>
    decreases layers,
{
    if layers == 0 {
        seq![]
    } else {
        all_block_tensors(keys, (layers - 1) as nat, quant) + block_tensors(
            keys,
            (layers - 1) as nat,
            quant,
        )
    }
}

/// The tensors of the embeddings and of the head, which are never stored packed.
pub open spec fn outer_tensors(keys: Seq<Seq<char>>) -> Seq<Seq<char>> {
    linear_tensors(keys, "patch_embedding_proj"@, None) + linear_tensors(
        keys,
        "text_embedding_0"@,
        None,
    ) + linear_tensors(keys, "text_embedding_1"@, None) + linear_tensors(
        keys,
        "time_embedding_0"@,
        None,
    ) + linear_tensors(keys, "time_embedding_1"@, None) + linear_tensors(
        keys,
        "time_projection"@,
        None,
    ) + seq!["head.modulation"@] + linear_tensors(keys, "head.head"@, None)
}

/// Every tensor that the model cannot do without, in the order in which they are read.
pub open spec fn model_tensors(
    keys: Seq<Seq<char>>,
    layers: nat,
    quant: Option<WanQuant>,
) -> Seq<Seq<char>> {
    all_block_tensors(keys, layers, quant) + outer_tensors(keys)
}

/// The tensors that a linear layer cannot do without.
fn linear_names(keys: &Vec<String>, prefix: &str, quant: Option<WanQuant>) -> (r: Vec<String>)
    ensures
        views(r@) == linear_tensors(views(keys@), prefix@, quant),
{
    let packed = quant.is_some() && list_contains(keys, join2(prefix, ".scales").as_str());
    let mut out: Vec<String> = Vec::new();
    out.push(join2(prefix, ".weight"));
    if packed {
        out.push(join2(prefix, ".biases"));
    } else {
        out.push(join2(prefix, ".bias"));
    }
    assert(views(out@) =~= linear_tensors(views(keys@), prefix@, quant));
    out
}

/// Decides how a linear layer is built, or names the first tensor that it lacks.
pub fn load_linear(keys: &Vec<String>, prefix: &str, quant: Option<WanQuant>) -> (r: Result<
    LinearSource,
    Error,
>)
    ensures
        match r {
            Ok(source) => {
                &&& source == linear_source(views(keys@), prefix@, quant)
                &&& forall|n: Seq<char>|
                    linear_tensors(views(keys@), prefix@, quant).contains(n)
                        ==> #[trigger] views(keys@).contains(n)
            },
            Err(e) => e matches Error::MissingTensor(k) && absent_at(
                linear_tensors(views(keys@), prefix@, quant),
                views(keys@),
                k@,
            ),
        },
{
    let names = linear_names(keys, prefix, quant);
    match check_present(&names, keys) {
        Err(e) => Err(e),
        Ok(()) => match quant {
            Some(q) => {
                if list_contains(keys, join2(prefix, ".scales").as_str()) {
                    let has_bias = list_contains(keys, join2(prefix, ".bias").as_str());
                    Ok(LinearSource::Packed { quant: q, has_bias })
                } else {
                    Ok(LinearSource::Dense)
                }
            },
            None => Ok(LinearSource::Dense),
        },
    }
}

/// The tensors of one attention.
fn attention_names(keys: &Vec<String>, prefix: &str, quant: Option<WanQuant>) -> (r: Vec<String>)
    ensures
        views(r@) == attention_tensors(views(keys@), prefix@, quant),
{
    let mut out = linear_names(keys, join2(prefix, ".q").as_str(), quant);
    extend(&mut out, linear_names(keys, join2(prefix, ".k").as_str(), quant));
    extend(&mut out, linear_names(keys, join2(prefix, ".v").as_str(), quant));
    extend(&mut out, linear_names(keys, join2(prefix, ".o").as_str(), quant));
    let ghost before = views(out@);
    out.push(join2(prefix, ".norm_q.weight"));
    out.push(join2(prefix, ".norm_k.weight"));
    assert(views(out@) =~= before + seq![prefix@ + ".norm_q.weight"@, prefix@ + ".norm_k.weight"@]);
    out
}

/// The tensors of one block.
fn block_names(keys: &Vec<String>, i: usize, quant: Option<WanQuant>) -> (r: Vec<String>)
    ensures
        views(r@) == block_tensors(views(keys@), i as nat, quant),
{
    let p = join2("blocks.", decimal_text(i).as_str());
    let mut out: Vec<String> = Vec::new();
    out.push(join2(p.as_str(), ".modulation"));
    assert(views(out@) =~= seq![p@ + ".modulation"@]);
    extend(&mut out, attention_names(keys, join2(p.as_str(), ".self_attn").as_str(), quant));
    extend(&mut out, attention_names(keys, join2(p.as_str(), ".cross_attn").as_str(), quant));
    let ghost before = views(out@);
    out.push(join2(p.as_str(), ".norm3.weight"));
    out.push(join2(p.as_str(), ".norm3.bias"));
    assert(views(out@) =~= before + seq![p@ + ".norm3.weight"@, p@ + ".norm3.bias"@]);
    extend(&mut out, linear_names(keys, join2(p.as_str(), ".ffn.fc1").as_str(), quant));
    extend(&mut out, linear_names(keys, join2(p.as_str(), ".ffn.fc2").as_str(), quant));
    out
}

/// The tensors of the embeddings and of the head.
fn outer_names(keys: &Vec<String>) -> (r: Vec<String>)
    ensures
        views(r@) == outer_tensors(views(keys@)),
{
    let mut out = linear_names(keys, "patch_embedding_proj", None);
    extend(&mut out, linear_names(keys, "text_embedding_0", None));
    extend(&mut out, linear_names(keys, "text_embedding_1", None));
    extend(&mut out, linear_names(keys, "time_embedding_0", None));
    extend(&mut out, linear_names(keys, "time_embedding_1", None));
    extend(&mut out, linear_names(keys, "time_projection", None));
    let ghost before = views(out@);
    out.push("head.modulation".to_owned());
    assert(views(out@) =~= before + seq!["head.modulation"@]);
    extend(&mut out, linear_names(keys, "head.head", None));
    out
}

/// The sources of the ten layers of a block, in their listed order.
pub open spec fn block_sources(
    keys: Seq<Seq<char>>,
    i: nat,
    quant: Option<WanQuant>,
) -> Seq<LinearSource> {
    Seq::new(10, |k: int| linear_source(keys, site_path(i, sites_in_order()[k]), quant))
}

/// How one linear layer of the model is built, without a check of its tensors.
fn source_of(keys: &Vec<String>, prefix: &str, quant: Option<WanQuant>) -> (r: LinearSource)
    ensures
        r == linear_source(views(keys@), prefix@, quant),
{
    match quant {
        Some(q) => {
            if list_contains(keys, join2(prefix, ".scales").as_str()) {
                let has_bias = list_contains(keys, join2(prefix, ".bias").as_str());
                LinearSource::Packed { quant: q, has_bias }
            } else {
                LinearSource::Dense
            }
        },
        None => LinearSource::Dense,
    }
}

/// The sources of the ten layers of a block, in their listed order.
fn source_list(keys: &Vec<String>, i: usize, quant: Option<WanQuant>) -> (r: Vec<LinearSource>)
    ensures
        r@ == block_sources(views(keys@), i as nat, quant),
{
    let mut out: Vec<LinearSource> = Vec::new();
    let paths = site_list(i);
    let mut k: usize = 0;
    while k < 10
        invariant
            k <= 10,
            paths.len() == 10,
            forall|j: int|
                0 <= j < 10 ==> (#[trigger] paths@[j])@ == site_path(
                    i as nat,
                    sites_in_order()[j],
                ),
            out@ == block_sources(views(keys@), i as nat, quant).take(k as int),
        decreases 10 - k,
    {
        let ghost all = block_sources(views(keys@), i as nat, quant);
        out.push(source_of(keys, paths[k].as_str(), quant));
        assert(paths@[k as int]@ == site_path(i as nat, sites_in_order()[k as int]));
        assert(all.take(k + 1) =~= all.take(k as int).push(all[k as int]));
        k += 1;
    }
    assert(out@ =~= block_sources(views(keys@), i as nat, quant));
    out
}

/// The names of the ten layers of a block, in their listed order.
fn site_list(i: usize) -> (r: Vec<String>)
    ensures
        r.len() == 10,
        forall|k: int|
            0 <= k < 10 ==> (#[trigger] r@[k])@ == site_path(i as nat, sites_in_order()[k]),
{
    let mut out: Vec<String> = Vec::new();
    out.push(site_text(i, "self_attn", "q"));
    out.push(site_text(i, "self_attn", "k"));
    out.push(site_text(i, "self_attn", "v"));
    out.push(site_text(i, "self_attn", "o"));
    out.push(site_text(i, "cross_attn", "q"));
    out.push(site_text(i, "cross_attn", "k"));
    out.push(site_text(i, "cross_attn", "v"));
    out.push(site_text(i, "cross_attn", "o"));
    out.push(site_text(i, "ffn", "fc1"));
    out.push(site_text(i, "ffn", "fc2"));
    out
}

/// How the layers of every block are built. The embeddings and the head are always dense.
#[derive(Debug)]
pub struct WanTransformer {
    pub blocks: Vec<Vec<LinearSource>>,
}

impl WanTransformer {
    /// Checks that the weights hold every tensor of a model with `num_layers` blocks and decides
    /// how each layer is built, or names the first tensor that is missing.
    pub fn from_weights(keys: &Vec<String>, num_layers: usize, quant: Option<WanQuant>) -> (r:
        Result<WanTransformer, Error>)
        ensures
            match r {
                Ok(m) => {
                    &&& forall|n: Seq<char>|
                        model_tensors(views(keys@), num_layers as nat, quant).contains(n)
                            ==> #[trigger] views(keys@).contains(n)
                    &&& m.blocks.len() == num_layers
                    &&& forall|i: int|
                        0 <= i < num_layers ==> (#[trigger] m.blocks@[i])@ == block_sources(
                            views(keys@),
                            i as nat,
                            quant,
                        )
                },
                Err(e) => e matches Error::MissingTensor(k) && absent_at(
                    model_tensors(views(keys@), num_layers as nat, quant),
                    views(keys@),
                    k@,
                ),
            },
    {
        let mut names: Vec<String> = Vec::new();
        let mut i: usize = 0;
        assert(views(names@) =~= all_block_tensors(views(keys@), 0, quant));
        while i < num_layers
            invariant
                i <= num_layers,
                views(names@) == all_block_tensors(views(keys@), i as nat, quant),
            decreases num_layers - i,
        {
            extend(&mut names, block_names(keys, i, quant));
            i += 1;
        }
        extend(&mut names, outer_names(keys));
        match check_present(&names, keys) {
            Err(e) => {
                return Err(e);
            },
            Ok(()) => {},
        }
        let mut blocks: Vec<Vec<LinearSource>> = Vec::new();
        let mut b: usize = 0;
        while b < num_layers
            invariant
                b <= num_layers,
                blocks.len() == b,
                forall|i: int|
                    0 <= i < b ==> (#[trigger] blocks@[i])@ == block_sources(
                        views(keys@),
                        i as nat,
                        quant,
                    ),
            decreases num_layers - b,
        {
            let sources = source_list(keys, b, quant);
            blocks.push(sources);
            b += 1;
        }
        Ok(WanTransformer { blocks })
    }

    /// How many blocks the model has.
    pub fn num_blocks(&self) -> (r: usize)
        ensures
            r == self.blocks@.len(),
    {
        self.blocks.len()
    }
}

/// The patch grid of a latent `[C, F, H, W]`: each extent divided by the patch's.
pub fn patch_grid(latent: (usize, usize, usize, usize), patch: (usize, usize, usize)) -> (r: (
    usize,
    usize,
    usize,
))
    requires
        patch.0 > 0,
        patch.1 > 0,
        patch.2 > 0,
    ensures
        r.0 == latent.1 / patch.0,
        r.1 == latent.2 / patch.1,
        r.2 == latent.3 / patch.2,
        is_patch_grid(r, latent, patch),
{
    (latent.1 / patch.0, latent.2 / patch.1, latent.3 / patch.2)
}

/// How many rows of zeros a prompt embedding of `rows` rows gets so that it has `text_len` rows. A
/// longer one cannot be used.
pub fn text_padding(rows: usize, text_len: usize) -> (r: Option<usize>)
    ensures
        r is Some <==> rows <= text_len,
        r matches Some(pad) ==> rows + pad == text_len,
{
    if rows <= text_len {
        Some(text_len - rows)
    } else {
        None
    }
}

/// What one block of a checkpointed training step is run with: the names of the factors behind the
/// hidden state, and the layer that each pair belongs to.
#[derive(Debug)]
pub struct CheckpointPlan {
    pub inputs: Vec<String>,
    pub sites: Vec<BlockSite>,
}

/// The targets of block `i`; none where the list is too short.
pub open spec fn targets_of(targets: Seq<Vec<BlockLoraRef>>, i: int) -> Seq<BlockLoraRef> {
    if 0 <= i < targets.len() {
        targets[i]@
    } else {
        seq![]
    }
}

/// The names of the factors of `refs`, the A factor of each before its B factor.
pub open spec fn factor_names(refs: Seq<BlockLoraRef>) -> Seq<Seq<char>> {
    Seq::new(
        2 * refs.len(),
        |k: int| if k % 2 == 0 {
            refs[k / 2].a_key@
        } else {
            refs[k / 2].b_key@
        },
    )
}

/// The first name that is not among the parameters.
pub open spec fn first_absent(names: Seq<Seq<char>>, params: Seq<Seq<char>>, i: int) -> bool {
    &&& 0 <= i < names.len()
    &&& !params.contains(names[i])
    &&& forall|k: int| 0 <= k < i ==> params.contains(#[trigger] names[k])
}

/// The first target that leads to no layer of the block.
pub open spec fn first_unresolved(refs: Seq<BlockLoraRef>, i: int) -> bool {
    &&& 0 <= i < refs.len()
    &&& block_site(views(refs[i].local@)) is None
    &&& forall|k: int| 0 <= k < i ==> block_site(views((#[trigger] refs[k]).local@)) is Some
}

/// Whether a plan has the factors and the layers of targets.
pub open spec fn is_checkpoint_plan(plan: CheckpointPlan, refs: Seq<BlockLoraRef>) -> bool {
    &&& views(plan.inputs@) == factor_names(refs)
    &&& plan.sites@.len() == refs.len()
    &&& forall|j: int|
        0 <= j < refs.len() ==> block_site(views((#[trigger] refs[j]).local@)) == Some(
            plan.sites@[j],
        )
}

/// The factors of a target stand side by side among the inputs, the first factor first, in the order of the
/// targets, and its layer stands at the target's own place.
pub proof fn law_factors_stand_in_pairs(plan: CheckpointPlan, refs: Seq<BlockLoraRef>, j: int)
    requires
        is_checkpoint_plan(plan, refs),
        0 <= j < refs.len(),
    ensures
        plan.inputs@.len() == 2 * refs.len(),
        plan.inputs@[2 * j]@ == refs[j].a_key@,
        plan.inputs@[2 * j + 1]@ == refs[j].b_key@,
        plan.sites@.len() == refs.len(),
        block_site(views(refs[j].local@)) == Some(plan.sites@[j]),
{
    let v = views(plan.inputs@);
    assert(v.len() == plan.inputs@.len());
    assert(v[2 * j] == plan.inputs@[2 * j]@);
    assert(v[2 * j + 1] == plan.inputs@[2 * j + 1]@);
}

/// Collects what block `block` of a checkpointed training step is run with. The hidden state is
/// input 0; the factors of target `j` are inputs `1 + 2 * j` and `2 + 2 * j`. A factor that is not
/// among the parameters is an error; so is, once all factors are there, a target that leads to no
/// layer.
pub fn checkpoint_plan(
    block_targets: &Vec<Vec<BlockLoraRef>>,
    block: usize,
    params: &Vec<String>,
) -> (r: Result<CheckpointPlan, Error>)
    requires
        targets_of(block_targets@, block as int).len() <= usize::MAX / 2,
    ensures
        ({
            let refs = targets_of(block_targets@, block as int);
            let names = factor_names(refs);
            match r {
                Ok(plan) => {
                    &&& views(plan.inputs@) == names
                    &&& forall|k: int|
                        0 <= k < names.len() ==> views(params@).contains(#[trigger] names[k])
                    &&& plan.sites.len() == refs.len()
                    &&& forall|j: int|
                        0 <= j < refs.len() ==> block_site(views((#[trigger] refs[j]).local@))
                            == Some(plan.sites@[j])
                    &&& is_checkpoint_plan(plan, refs)
                },
                Err(e) => e is Msg && ((exists|i: int| #[trigger]
                    first_absent(names, views(params@), i) && e.text() == "LoRA param missing: "@
                        + names[i]) || ((forall|k: int|
                    0 <= k < names.len() ==> views(params@).contains(#[trigger] names[k]))
                    && exists|i: int| #[trigger]
                    first_unresolved(refs, i) && e.text() == "checkpoint LoRA target not found: "@
                        + joined(views(refs[i].local@), "."@))),
            }
        }),
{
    let ghost refs = targets_of(block_targets@, block as int);
    let ghost names = factor_names(refs);
    let mut inputs: Vec<String> = Vec::new();
    let mut sites: Vec<BlockSite> = Vec::new();
    if block >= block_targets.len() {
        assert(views(inputs@) =~= names);
        return Ok(CheckpointPlan { inputs, sites });
    }
    let list = &block_targets[block];
    let mut j: usize = 0;
    while j < list.len()
        invariant
            j <= list.len(),
            list@ == refs,
            refs == targets_of(block_targets@, block as int),
            names == factor_names(refs),
            views(inputs@) == names.take(2 * j),
            forall|k: int| 0 <= k < 2 * j ==> views(params@).contains(#[trigger] names[k]),
        decreases list.len() - j,
    {
        let ghost before = views(inputs@);
        assert(names[2 * j] == refs[j as int].a_key@);
        assert(names[2 * j + 1] == refs[j as int].b_key@);
        if !list_contains(params, list[j].a_key.as_str()) {
            let e = Error::Msg(join2("LoRA param missing: ", list[j].a_key.as_str()));
            assert(first_absent(names, views(params@), 2 * j as int));
            return Err(e);
        }
        if !list_contains(params, list[j].b_key.as_str()) {
            let e = Error::Msg(join2("LoRA param missing: ", list[j].b_key.as_str()));
            assert(first_absent(names, views(params@), 2 * j + 1));
            return Err(e);
        }
        inputs.push(list[j].a_key.clone());
        inputs.push(list[j].b_key.clone());
        assert(views(inputs@) =~= before.push(names[2 * j]).push(names[2 * j + 1]));
        assert(names.take(2 * (j + 1)) =~= names.take(2 * j).push(names[2 * j]).push(
            names[2 * j + 1],
        ));
        j += 1;
    }
    assert(names.take(2 * j) =~= names);
    let mut t: usize = 0;
    while t < list.len()
        invariant
            t <= list.len(),
            list@ == refs,
            refs == targets_of(block_targets@, block as int),
            sites.len() == t,
            names == factor_names(refs),
            views(inputs@) == names,
            forall|k: int| 0 <= k < names.len() ==> views(params@).contains(#[trigger] names[k]),
            forall|k: int|
                0 <= k < t ==> block_site(views((#[trigger] refs[k]).local@)) == Some(sites@[k]),
        decreases list.len() - t,
    {
        match block_adaptable(&list[t].local) {
            Some(site) => {
                sites.push(site);
            },
            None => {
                let path = join_with(&list[t].local, ".");
                let e = Error::Msg(join2("checkpoint LoRA target not found: ", path.as_str()));
                assert(first_unresolved(refs, t as int));
                return Err(e);
            },
        }
        t += 1;
    }
    Ok(CheckpointPlan { inputs, sites })
}

/// The layer that a path names is the one it spells: the projections of either attention by their letters,
/// and the two layers of the feed-forward network by their numbers. In the list of paths the ten layers of a
/// block follow each other in this order, block by block.
pub proof fn law_listed_paths_spell_their_layers(blocks: nat, i: nat)
    requires
        i < blocks <= usize::MAX,
    ensures
        ({
            let p = listed_paths(blocks);
            let b = "blocks."@ + decimal(i);
            let n = 10 * i as int;
            &&& p.len() == 10 * blocks
            &&& p[n] == b + "."@ + "self_attn"@ + "."@ + "q"@
            &&& p[n + 1] == b + "."@ + "self_attn"@ + "."@ + "k"@
            &&& p[n + 2] == b + "."@ + "self_attn"@ + "."@ + "v"@
            &&& p[n + 3] == b + "."@ + "self_attn"@ + "."@ + "o"@
            &&& p[n + 4] == b + "."@ + "cross_attn"@ + "."@ + "q"@
            &&& p[n + 5] == b + "."@ + "cross_attn"@ + "."@ + "k"@
            &&& p[n + 6] == b + "."@ + "cross_attn"@ + "."@ + "v"@
            &&& p[n + 7] == b + "."@ + "cross_attn"@ + "."@ + "o"@
            &&& p[n + 8] == b + "."@ + "ffn"@ + "."@ + "fc1"@
            &&& p[n + 9] == b + "."@ + "ffn"@ + "."@ + "fc2"@
            &&& named_site(blocks, p[n]) == Some((i as usize, BlockSite::SelfAttn(Projection::Q)))
            &&& named_site(blocks, p[n + 1]) == Some(
                (i as usize, BlockSite::SelfAttn(Projection::K)),
            )
            &&& named_site(blocks, p[n + 2]) == Some(
                (i as usize, BlockSite::SelfAttn(Projection::V)),
            )
            &&& named_site(blocks, p[n + 3]) == Some(
                (i as usize, BlockSite::SelfAttn(Projection::O)),
            )
            &&& named_site(blocks, p[n + 4]) == Some(
                (i as usize, BlockSite::CrossAttn(Projection::Q)),
            )
            &&& named_site(blocks, p[n + 5]) == Some(
                (i as usize, BlockSite::CrossAttn(Projection::K)),
            )
            &&& named_site(blocks, p[n + 6]) == Some(
                (i as usize, BlockSite::CrossAttn(Projection::V)),
            )
            &&& named_site(blocks, p[n + 7]) == Some(
                (i as usize, BlockSite::CrossAttn(Projection::O)),
            )
            &&& named_site(blocks, p[n + 8]) == Some((i as usize, BlockSite::Fc1))
            &&& named_site(blocks, p[n + 9]) == Some((i as usize, BlockSite::Fc2))
        }),
{
    let n = 10 * i as int;
    assert forall|k: int| 0 <= k < 10 implies (#[trigger] (n + k)) / 10 == i && (n + k) % 10 == k by {}
    law_listed_paths_resolve(blocks, n);
    law_listed_paths_resolve(blocks, n + 1);
    law_listed_paths_resolve(blocks, n + 2);
    law_listed_paths_resolve(blocks, n + 3);
    law_listed_paths_resolve(blocks, n + 4);
    law_listed_paths_resolve(blocks, n + 5);
    law_listed_paths_resolve(blocks, n + 6);
    law_listed_paths_resolve(blocks, n + 7);
    law_listed_paths_resolve(blocks, n + 8);
    law_listed_paths_resolve(blocks, n + 9);
    assert(n + 0 == n);
}

/// The block and the layer that a path leads to.
pub open spec fn named_site(blocks: nat, path: Seq<char>) -> Option<(usize, BlockSite)> {
    model_site(blocks, split_text(path, '.'))
}

/// Whether a list has every text of another.
pub open spec fn has_all(all: Seq<Seq<char>>, some: Seq<Seq<char>>) -> bool {
    forall|n: Seq<char>| some.contains(n) ==> #[trigger] all.contains(n)
}

/// A part of a list put together of three is in it.
pub proof fn lemma_part(a: Seq<Seq<char>>, b: Seq<Seq<char>>, c: Seq<Seq<char>>)
    ensures
        has_all(a + b + c, b),
        has_all(a + b, b),
        has_all(b + c, b),
{
    assert forall|n: Seq<char>| b.contains(n) implies #[trigger] (a + b + c).contains(n) by {
        let k = choose|k: int| 0 <= k < b.len() && b[k] == n;
        assert((a + b + c)[a.len() + k] == n);
    }
    assert forall|n: Seq<char>| b.contains(n) implies #[trigger] (a + b).contains(n) by {
        let k = choose|k: int| 0 <= k < b.len() && b[k] == n;
        assert((a + b)[a.len() + k] == n);
    }
    assert forall|n: Seq<char>| b.contains(n) implies #[trigger] (b + c).contains(n) by {
        let k = choose|k: int| 0 <= k < b.len() && b[k] == n;
        assert((b + c)[k] == n);
    }
}

/// The tensors of a block are among those of the blocks.
proof fn lemma_block_is_needed(keys: Seq<Seq<char>>, layers: nat, quant: Option<WanQuant>, i: nat)
    requires
        i < layers,
    ensures
        has_all(all_block_tensors(keys, layers, quant), block_tensors(keys, i, quant)),
    decreases layers,
{
    let m = (layers - 1) as nat;
    let (h, own) = (all_block_tensors(keys, m, quant), block_tensors(keys, m, quant));
    lemma_part(h, own, seq![]);
    lemma_part(seq![], h, own);
    if i < m {
        lemma_block_is_needed(keys, m, quant, i);
        assert(Seq::<Seq<char>>::empty() + h + own =~= h + own);
    }
}

/// A layer needs its weight and its bias, or, where it is stored packed, its weight and its offsets. It is
/// stored packed where the checkpoint was quantized and the layer has scales, and only there.
pub proof fn law_layer_needs_its_tensors(
    keys: Seq<Seq<char>>,
    prefix: Seq<char>,
    quant: Option<WanQuant>,
)
    ensures
        ({
            let t = linear_tensors(keys, prefix, quant);
            let packed = quant is Some && keys.contains(prefix + ".scales"@);
            &&& t.len() == 2
            &&& t[0] == prefix + ".weight"@
            &&& packed ==> t[1] == prefix + ".biases"@
            &&& !packed ==> t[1] == prefix + ".bias"@
            &&& linear_source(keys, prefix, quant) is Packed <==> packed
            &&& packed ==> linear_source(keys, prefix, quant)->Packed_quant == quant->0
                && linear_source(keys, prefix, quant)->has_bias == keys.contains(prefix + ".bias"@)
        }),
{
}

/// A model needs, of each of its blocks, the modulation, the norm before the cross attention, the norms of
/// the queries and keys of either attention, and the tensors of all ten layers; and of what is around the
/// blocks, the embeddings and the head.
pub proof fn law_model_needs_its_tensors(
    keys: Seq<Seq<char>>,
    layers: nat,
    quant: Option<WanQuant>,
    i: nat,
)
    requires
        i < layers,
    ensures
        ({
            let all = model_tensors(keys, layers, quant);
            let b = "blocks."@ + decimal(i);
            let (s, c) = (b + ".self_attn"@, b + ".cross_attn"@);
            &&& all.contains(b + ".modulation"@)
            &&& all.contains(b + ".norm3.weight"@)
            &&& all.contains(b + ".norm3.bias"@)
            &&& all.contains(s + ".norm_q.weight"@)
            &&& all.contains(s + ".norm_k.weight"@)
            &&& all.contains(c + ".norm_q.weight"@)
            &&& all.contains(c + ".norm_k.weight"@)
            &&& has_all(all, linear_tensors(keys, s + ".q"@, quant))
            &&& has_all(all, linear_tensors(keys, s + ".k"@, quant))
            &&& has_all(all, linear_tensors(keys, s + ".v"@, quant))
            &&& has_all(all, linear_tensors(keys, s + ".o"@, quant))
            &&& has_all(all, linear_tensors(keys, c + ".q"@, quant))
            &&& has_all(all, linear_tensors(keys, c + ".k"@, quant))
            &&& has_all(all, linear_tensors(keys, c + ".v"@, quant))
            &&& has_all(all, linear_tensors(keys, c + ".o"@, quant))
            &&& has_all(all, linear_tensors(keys, b + ".ffn.fc1"@, quant))
            &&& has_all(all, linear_tensors(keys, b + ".ffn.fc2"@, quant))
        }),
{
    let all = model_tensors(keys, layers, quant);
    let b = block_name(i);
    let t = block_tensors(keys, i, quant);
    lemma_block_is_needed(keys, layers, quant, i);
    lemma_part(seq![], all_block_tensors(keys, layers, quant), outer_tensors(keys));
    lemma_block_parts(keys, i, quant);
    lemma_attention_parts(keys, b + ".self_attn"@, quant);
    lemma_attention_parts(keys, b + ".cross_attn"@, quant);
    assert(has_all(all, t));
    let norms = seq![b + ".norm3.weight"@, b + ".norm3.bias"@];
    assert(norms.contains(norms[0]) && norms.contains(norms[1]));
    let one = seq![b + ".modulation"@];
    assert(one.contains(one[0]));
}

/// The parts of a block's tensors.
proof fn lemma_block_parts(keys: Seq<Seq<char>>, i: nat, quant: Option<WanQuant>)
    ensures
        ({
            let t = block_tensors(keys, i, quant);
            let b = block_name(i);
            &&& has_all(t, seq![b + ".modulation"@])
            &&& has_all(t, attention_tensors(keys, b + ".self_attn"@, quant))
            &&& has_all(t, attention_tensors(keys, b + ".cross_attn"@, quant))
            &&& has_all(t, seq![b + ".norm3.weight"@, b + ".norm3.bias"@])
            &&& has_all(t, linear_tensors(keys, b + ".ffn.fc1"@, quant))
            &&& has_all(t, linear_tensors(keys, b + ".ffn.fc2"@, quant))
        }),
{
    let b = block_name(i);
    let t = block_tensors(keys, i, quant);
    let m = seq![b + ".modulation"@];
    let x = attention_tensors(keys, b + ".self_attn"@, quant);
    let y = attention_tensors(keys, b + ".cross_attn"@, quant);
    let n = seq![b + ".norm3.weight"@, b + ".norm3.bias"@];
    let f = linear_tensors(keys, b + ".ffn.fc1"@, quant);
    let g = linear_tensors(keys, b + ".ffn.fc2"@, quant);
    lemma_part(seq![], m, x + y + n + f + g);
    assert(seq![] + m + (x + y + n + f + g) =~= t);
    lemma_part(m, x, y + n + f + g);
    assert(m + x + (y + n + f + g) =~= t);
    lemma_part(m + x, y, n + f + g);
    assert(m + x + y + (n + f + g) =~= t);
    lemma_part(m + x + y, n, f + g);
    assert(m + x + y + n + (f + g) =~= t);
    lemma_part(m + x + y + n, f, g);
    lemma_part(m + x + y + n + f, g, seq![]);
}

/// The parts of an attention's tensors.
proof fn lemma_attention_parts(keys: Seq<Seq<char>>, p: Seq<char>, quant: Option<WanQuant>)
    ensures
        ({
            let t = attention_tensors(keys, p, quant);
            &&& has_all(t, linear_tensors(keys, p + ".q"@, quant))
            &&& has_all(t, linear_tensors(keys, p + ".k"@, quant))
            &&& has_all(t, linear_tensors(keys, p + ".v"@, quant))
            &&& has_all(t, linear_tensors(keys, p + ".o"@, quant))
            &&& t.contains(p + ".norm_q.weight"@)
            &&& t.contains(p + ".norm_k.weight"@)
        }),
{
    let t = attention_tensors(keys, p, quant);
    let q = linear_tensors(keys, p + ".q"@, quant);
    let k = linear_tensors(keys, p + ".k"@, quant);
    let v = linear_tensors(keys, p + ".v"@, quant);
    let o = linear_tensors(keys, p + ".o"@, quant);
    let n = seq![p + ".norm_q.weight"@, p + ".norm_k.weight"@];
    lemma_part(seq![], q, k + v + o + n);
    assert(seq![] + q + (k + v + o + n) =~= t);
    lemma_part(q, k, v + o + n);
    assert(q + k + (v + o + n) =~= t);
    lemma_part(q + k, v, o + n);
    assert(q + k + v + (o + n) =~= t);
    lemma_part(q + k + v, o, n);
    lemma_part(q + k + v + o, n, seq![]);
    assert(n.contains(n[0]) && n.contains(n[1]));
}

/// What is around the blocks is needed as well, and never stored packed.
pub proof fn law_model_needs_its_embeddings_and_head(
    keys: Seq<Seq<char>>,
    layers: nat,
    quant: Option<WanQuant>,
)
    ensures
        ({
            let all = model_tensors(keys, layers, quant);
            &&& all.contains("head.modulation"@)
            &&& needs_dense(all, "patch_embedding_proj"@)
            &&& needs_dense(all, "text_embedding_0"@)
            &&& needs_dense(all, "text_embedding_1"@)
            &&& needs_dense(all, "time_embedding_0"@)
            &&& needs_dense(all, "time_embedding_1"@)
            &&& needs_dense(all, "time_projection"@)
            &&& needs_dense(all, "head.head"@)
        }),
{
    let all = model_tensors(keys, layers, quant);
    let before = all_block_tensors(keys, layers, quant);
    let t = outer_tensors(keys);
    lemma_part(before, t, seq![]);
    let a = linear_tensors(keys, "patch_embedding_proj"@, None);
    let b = linear_tensors(keys, "text_embedding_0"@, None);
    let c = linear_tensors(keys, "text_embedding_1"@, None);
    let d = linear_tensors(keys, "time_embedding_0"@, None);
    let e = linear_tensors(keys, "time_embedding_1"@, None);
    let f = linear_tensors(keys, "time_projection"@, None);
    let g = seq!["head.modulation"@];
    let h = linear_tensors(keys, "head.head"@, None);
    assert(t[0] == a[0] && t[1] == a[1] && t[2] == b[0] && t[3] == b[1]);
    assert(t[4] == c[0] && t[5] == c[1] && t[6] == d[0] && t[7] == d[1]);
    assert(t[8] == e[0] && t[9] == e[1] && t[10] == f[0] && t[11] == f[1]);
    assert(t[12] == g[0] && t[13] == h[0] && t[14] == h[1]);
    assert forall|k: int| 0 <= k < t.len() implies #[trigger] all.contains(t[k]) by {
        assert(t.contains(t[k]));
    }
    assert(all.contains(t[0]) && all.contains(t[1]) && all.contains(t[2]) && all.contains(t[3]));
    assert(all.contains(t[4]) && all.contains(t[5]) && all.contains(t[6]) && all.contains(t[7]));
    assert(all.contains(t[8]) && all.contains(t[9]) && all.contains(t[10]) && all.contains(t[11]));
    assert(all.contains(t[12]) && all.contains(t[13]) && all.contains(t[14]));
}

/// Whether a list has the weight and the bias of a layer.
pub open spec fn needs_dense(all: Seq<Seq<char>>, prefix: Seq<char>) -> bool {
    all.contains(prefix + ".weight"@) && all.contains(prefix + ".bias"@)
}

/// Whether latents are cut into a grid of patches.
pub open spec fn is_patch_grid(
    r: (usize, usize, usize),
    latent: (usize, usize, usize, usize),
    patch: (usize, usize, usize),
) -> bool {
    &&& r.0 == latent.1 / patch.0
    &&& r.1 == latent.2 / patch.1
    &&& r.2 == latent.3 / patch.2
}

/// As many patches as go in whole lie along the frames, the rows and the columns of latents: what is left
/// over is less than a patch.
pub proof fn law_whole_patches_lie_along_each_axis(
    r: (usize, usize, usize),
    latent: (usize, usize, usize, usize),
    patch: (usize, usize, usize),
)
    requires
        patch.0 > 0,
        patch.1 > 0,
        patch.2 > 0,
        is_patch_grid(r, latent, patch),
    ensures
        r.0 * patch.0 <= latent.1 < r.0 * patch.0 + patch.0,
        r.1 * patch.1 <= latent.2 < r.1 * patch.1 + patch.1,
        r.2 * patch.2 <= latent.3 < r.2 * patch.2 + patch.2,
{
    lemma_whole(latent.1 as int, patch.0 as int);
    lemma_whole(latent.2 as int, patch.1 as int);
    lemma_whole(latent.3 as int, patch.2 as int);
}

/// As many parts as go in whole leave less than a part.
proof fn lemma_whole(n: int, part: int)
    requires
        n >= 0,
        part > 0,
    ensures
        (n / part) * part <= n < (n / part) * part + part,
{
    assert((n / part) * part <= n < (n / part) * part + part) by (nonlinear_arith)
        requires
            part > 0,
    ;
}

} // verus!
