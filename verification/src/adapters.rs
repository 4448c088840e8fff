//! Low-rank adapters: which tensor of an adapter file belongs to which module of the model, which
//! files apply to which expert, and what is left out.

use vstd::prelude::*;
use crate::error::Error;
use crate::transformer::{listed_paths, site_parts, site_path, sites_in_order, BlockSite, HostSurface};
use crate::text::{
    ascending, decimal, decimal_text, inserted, lemma_inserted, lemma_inserted_at, lemma_same_texts,
    is_digit, join_with, joined, lemma_decimal, lemma_text_lt_irreflexive, list_contains, same_text, text_less, text_lt, views,
    has_prefix, has_suffix, has_text, replaced, without_prefix, without_suffix, strip_prefix,
    strip_suffix, replace, contains_text, join2, lemma_replaced_absent, occurs_at,
};

verus! {

/// The namespaces that adapter files put in front of a module path, longest first.
pub open spec fn key_prefixes() -> Seq<Seq<char>> {
    seq!["model.diffusion_model."@, "diffusion_model."@, "base_model.model."@, "model."@]
}

/// `key` without the first known namespace that it begins with.
pub open spec fn unprefixed(key: Seq<char>) -> Seq<char> {
    let p = key_prefixes();
    if has_prefix(key, p[0]) {
        without_prefix(key, p[0])
    } else if has_prefix(key, p[1]) {
        without_prefix(key, p[1])
    } else if has_prefix(key, p[2]) {
        without_prefix(key, p[2])
    } else if has_prefix(key, p[3]) {
        without_prefix(key, p[3])
    } else {
        key
    }
}

/// `s` with `to` in place of `from` at its end, where it ends so.
pub open spec fn tail_renamed(s: Seq<char>, from: Seq<char>, to: Seq<char>) -> Seq<char> {
    if has_suffix(s, from) {
        without_suffix(s, from) + to
    } else {
        s
    }
}

/// A module that has two numbered layers: both are renamed where they stand inside the path, then
/// where the path ends with them.
pub open spec fn pair_renamed(
    s: Seq<char>,
    from0: Seq<char>,
    to0: Seq<char>,
    from2: Seq<char>,
    to2: Seq<char>,
) -> Seq<char> {
    let inner = replaced(replaced(s, from0 + "."@, to0 + "."@), from2 + "."@, to2 + "."@);
    tail_renamed(tail_renamed(inner, from0, to0), from2, to2)
}

/// A module that is renamed inside the path, then at its end.
pub open spec fn renamed(s: Seq<char>, from: Seq<char>, to: Seq<char>) -> Seq<char> {
    tail_renamed(replaced(s, from + "."@, to + "."@), from, to)
}

/// The patch embedding's name, unless the key already has the long form.
pub open spec fn patch_renamed(s: Seq<char>) -> Seq<char> {
    if has_text(s, "patch_embedding"@) && !has_text(s, "patch_embedding_proj"@) {
        replaced(s, "patch_embedding"@, "patch_embedding_proj"@)
    } else {
        s
    }
}

/// The layers outside of the blocks under the names of the converted checkpoint.
pub open spec fn wan_roots_renamed(s: Seq<char>) -> Seq<char> {
    let t2 = pair_renamed(
        s,
        "text_embedding.0"@,
        "text_embedding_0"@,
        "text_embedding.2"@,
        "text_embedding_1"@,
    );
    let t3 = pair_renamed(
        t2,
        "time_embedding.0"@,
        "time_embedding_0"@,
        "time_embedding.2"@,
        "time_embedding_1"@,
    );
    let t4 = renamed(t3, "time_projection.1"@, "time_projection"@);
    patch_renamed(t4)
}

/// The module path in the native checkpoint that an adapter's module path stands for.
pub open spec fn wan_key(key: Seq<char>) -> Seq<char> {
    wan_roots_renamed(
        pair_renamed(unprefixed(key), ".ffn.0"@, ".ffn.fc1"@, ".ffn.2"@, ".ffn.fc2"@),
    )
}

/// The four projections of one attention, renamed in the order q, k, v, o.
pub open spec fn attention_renamed(s: Seq<char>, from: Seq<char>, to: Seq<char>) -> Seq<char> {
    let q = renamed(s, from + ".q"@, to + ".to_q"@);
    let k = renamed(q, from + ".k"@, to + ".to_k"@);
    let v = renamed(k, from + ".v"@, to + ".to_v"@);
    renamed(v, from + ".o"@, to + ".to_out.0"@)
}

/// The layers of the blocks under the names of the diffusers checkpoint.
pub open spec fn vace_blocks_renamed(s: Seq<char>) -> Seq<char> {
    let t1 = pair_renamed(s, ".before_proj"@, ".proj_in"@, ".after_proj"@, ".proj_out"@);
    let t2 = attention_renamed(t1, ".self_attn"@, ".attn1"@);
    let t3 = attention_renamed(t2, ".cross_attn"@, ".attn2"@);
    pair_renamed(t3, ".ffn.0"@, ".ffn.net.0.proj"@, ".ffn.2"@, ".ffn.net.2"@)
}

/// The layers outside of the blocks under the names of the diffusers checkpoint.
pub open spec fn vace_roots_renamed(s: Seq<char>) -> Seq<char> {
    let t5 = renamed(s, "time_projection.1"@, "condition_embedder.time_proj"@);
    let t6 = renamed(t5, "head.head"@, "proj_out"@);
    let t7 = pair_renamed(
        t6,
        "text_embedding.0"@,
        "condition_embedder.text_embedder.linear_1"@,
        "text_embedding.2"@,
        "condition_embedder.text_embedder.linear_2"@,
    );
    pair_renamed(
        t7,
        "time_embedding.0"@,
        "condition_embedder.time_embedder.linear_1"@,
        "time_embedding.2"@,
        "condition_embedder.time_embedder.linear_2"@,
    )
}

/// The module path in the diffusers checkpoint that an adapter's module path stands for.
pub open spec fn vace_key(key: Seq<char>) -> Seq<char> {
    vace_roots_renamed(vace_blocks_renamed(unprefixed(key)))
}

/// The key without the first known namespace that it begins with.
fn strip_namespace(key: &str) -> (r: String)
    ensures
        r@ == unprefixed(key@),
{
    if let Some(t) = strip_prefix(key, "model.diffusion_model.") {
        return t;
    }
    if let Some(t) = strip_prefix(key, "diffusion_model.") {
        return t;
    }
    if let Some(t) = strip_prefix(key, "base_model.model.") {
        return t;
    }
    if let Some(t) = strip_prefix(key, "model.") {
        return t;
    }
    key.to_owned()
}

/// `s` with `to` in place of `from` at its end, where it ends so.
fn rename_tail(s: String, from: &str, to: &str) -> (r: String)
    ensures
        r@ == tail_renamed(s@, from@, to@),
{
    match strip_suffix(s.as_str(), from) {
        Some(h) => h.concat(to),
        None => s,
    }
}

/// A module renamed inside the path, then at its end.
fn rename(s: String, from: &str, to: &str) -> (r: String)
    ensures
        r@ == renamed(s@, from@, to@),
{
    proof {
        reveal_strlit(".");
    }
    let inner = replace(s.as_str(), join2(from, ".").as_str(), join2(to, ".").as_str());
    rename_tail(inner, from, to)
}

/// Two numbered layers renamed inside the path, then at its end.
fn rename_pair(s: String, from0: &str, to0: &str, from2: &str, to2: &str) -> (r: String)
    ensures
        r@ == pair_renamed(s@, from0@, to0@, from2@, to2@),
{
    proof {
        reveal_strlit(".");
    }
    let a = replace(s.as_str(), join2(from0, ".").as_str(), join2(to0, ".").as_str());
    let b = replace(a.as_str(), join2(from2, ".").as_str(), join2(to2, ".").as_str());
    rename_tail(rename_tail(b, from0, to0), from2, to2)
}

/// The four projections of one attention.
fn rename_attention(s: String, from: &str, to: &str) -> (r: String)
    ensures
        r@ == attention_renamed(s@, from@, to@),
{
    let q = rename(s, join2(from, ".q").as_str(), join2(to, ".to_q").as_str());
    let k = rename(q, join2(from, ".k").as_str(), join2(to, ".to_k").as_str());
    let v = rename(k, join2(from, ".v").as_str(), join2(to, ".to_v").as_str());
    rename(v, join2(from, ".o").as_str(), join2(to, ".to_out.0").as_str())
}

/// Maps an adapter's module path to the naming of the native checkpoint: a known namespace is
/// stripped, and the numbered layers of the feed-forward network and of the embeddings get the
/// names that the converted checkpoint gives them.
pub fn normalize_wan_key(key: &str) -> (r: String)
    ensures
        r@ == wan_key(key@),
{
    let t = strip_namespace(key);
    let t = rename_pair(t, ".ffn.0", ".ffn.fc1", ".ffn.2", ".ffn.fc2");
    let t = rename_pair(
        t,
        "text_embedding.0",
        "text_embedding_0",
        "text_embedding.2",
        "text_embedding_1",
    );
    let t = rename_pair(
        t,
        "time_embedding.0",
        "time_embedding_0",
        "time_embedding.2",
        "time_embedding_1",
    );
    let t = rename(t, "time_projection.1", "time_projection");
    if contains_text(t.as_str(), "patch_embedding") && !contains_text(
        t.as_str(),
        "patch_embedding_proj",
    ) {
        proof {
            reveal_strlit("patch_embedding");
        }
        return replace(t.as_str(), "patch_embedding", "patch_embedding_proj");
    }
    t
}

/// Maps an adapter's module path to the naming of the diffusers checkpoint: a known namespace is
/// stripped, native spellings are renamed, and a path that is already spelt the diffusers way
/// passes through.
pub fn normalize_vace_key(key: &str) -> (r: String)
    ensures
        r@ == vace_key(key@),
{
    let t = strip_namespace(key);
    let t = rename_pair(t, ".before_proj", ".proj_in", ".after_proj", ".proj_out");
    let t = rename_attention(t, ".self_attn", ".attn1");
    let t = rename_attention(t, ".cross_attn", ".attn2");
    let t = rename_pair(t, ".ffn.0", ".ffn.net.0.proj", ".ffn.2", ".ffn.net.2");
    let t = rename(t, "time_projection.1", "condition_embedder.time_proj");
    let t = rename(t, "head.head", "proj_out");
    let t = rename_pair(
        t,
        "text_embedding.0",
        "condition_embedder.text_embedder.linear_1",
        "text_embedding.2",
        "condition_embedder.text_embedder.linear_2",
    );
    rename_pair(
        t,
        "time_embedding.0",
        "condition_embedder.time_embedder.linear_1",
        "time_embedding.2",
        "condition_embedder.time_embedder.linear_2",
    )
}

/// Where `from` does not occur, renaming it changes nothing.
pub proof fn lemma_rename_absent(s: Seq<char>, from: Seq<char>, to: Seq<char>)
    requires
        !has_text(s, from),
    ensures
        replaced(s, from + "."@, to + "."@) == s,
        tail_renamed(s, from, to) == s,
        renamed(s, from, to) == s,
{
    let dotted = from + "."@;
    assert(!has_text(s, dotted)) by {
        if has_text(s, dotted) {
            let i = choose|i: int| occurs_at(s, dotted, i);
            assert(s.subrange(i, i + from.len()) =~= dotted.subrange(0, from.len() as int)) by {
                assert(s.subrange(i, i + dotted.len()) == dotted);
                assert forall|k: int| 0 <= k < from.len() implies s[i + k] == dotted[k] by {
                    assert(s.subrange(i, i + dotted.len())[k] == dotted[k]);
                }
            }
            assert(dotted.subrange(0, from.len() as int) =~= from);
            assert(occurs_at(s, from, i));
        }
    }
    lemma_replaced_absent(s, dotted, to + "."@);
    assert(!has_suffix(s, from));
}

/// Where neither layer occurs, renaming the pair changes nothing.
pub proof fn lemma_pair_absent(
    s: Seq<char>,
    from0: Seq<char>,
    to0: Seq<char>,
    from2: Seq<char>,
    to2: Seq<char>,
)
    requires
        !has_text(s, from0),
        !has_text(s, from2),
    ensures
        pair_renamed(s, from0, to0, from2, to2) == s,
{
    lemma_rename_absent(s, from0, to0);
    lemma_rename_absent(s, from2, to2);
}

/// The spellings that [`wan_key`] renames.
pub open spec fn wan_spellings() -> Seq<Seq<char>> {
    seq![
        ".ffn.0"@,
        ".ffn.2"@,
        "text_embedding.0"@,
        "text_embedding.2"@,
        "time_embedding.0"@,
        "time_embedding.2"@,
        "time_projection.1"@,
        "patch_embedding"@,
    ]
}

/// The spellings that [`vace_key`] renames.
pub open spec fn vace_spellings() -> Seq<Seq<char>> {
    seq![
        ".before_proj"@,
        ".after_proj"@,
        ".self_attn"@ + ".q"@,
        ".self_attn"@ + ".k"@,
        ".self_attn"@ + ".v"@,
        ".self_attn"@ + ".o"@,
        ".cross_attn"@ + ".q"@,
        ".cross_attn"@ + ".k"@,
        ".cross_attn"@ + ".v"@,
        ".cross_attn"@ + ".o"@,
        ".ffn.0"@,
        ".ffn.2"@,
        "time_projection.1"@,
        "head.head"@,
        "text_embedding.0"@,
        "text_embedding.2"@,
        "time_embedding.0"@,
        "time_embedding.2"@,
    ]
}

/// A key that, behind its namespace, holds none of the spellings that are renamed keeps its name.
pub proof fn law_wan_key_passes_through(key: Seq<char>)
    requires
        forall|i: int|
            0 <= i < wan_spellings().len() ==> !has_text(
                unprefixed(key),
                #[trigger] wan_spellings()[i],
            ),
    ensures
        wan_key(key) == unprefixed(key),
{
    let s = unprefixed(key);
    let w = wan_spellings();
    assert(w[0] == ".ffn.0"@ && w[1] == ".ffn.2"@ && w[2] == "text_embedding.0"@);
    assert(w[3] == "text_embedding.2"@ && w[4] == "time_embedding.0"@);
    assert(w[5] == "time_embedding.2"@ && w[6] == "time_projection.1"@);
    assert(w[7] == "patch_embedding"@);
    lemma_pair_absent(s, w[0], ".ffn.fc1"@, w[1], ".ffn.fc2"@);
    lemma_pair_absent(s, w[2], "text_embedding_0"@, w[3], "text_embedding_1"@);
    lemma_pair_absent(s, w[4], "time_embedding_0"@, w[5], "time_embedding_1"@);
    lemma_rename_absent(s, w[6], "time_projection"@);
}

/// A key that, behind its namespace, holds no native spelling keeps its name.
pub proof fn law_vace_key_passes_through(key: Seq<char>)
    requires
        forall|i: int|
            0 <= i < vace_spellings().len() ==> !has_text(
                unprefixed(key),
                #[trigger] vace_spellings()[i],
            ),
    ensures
        vace_key(key) == unprefixed(key),
{
    let s = unprefixed(key);
    let w = vace_spellings();
    assert(w[0] == ".before_proj"@ && w[1] == ".after_proj"@);
    assert(w[2] == ".self_attn"@ + ".q"@ && w[3] == ".self_attn"@ + ".k"@);
    assert(w[4] == ".self_attn"@ + ".v"@ && w[5] == ".self_attn"@ + ".o"@);
    assert(w[6] == ".cross_attn"@ + ".q"@ && w[7] == ".cross_attn"@ + ".k"@);
    assert(w[8] == ".cross_attn"@ + ".v"@ && w[9] == ".cross_attn"@ + ".o"@);
    assert(w[10] == ".ffn.0"@ && w[11] == ".ffn.2"@ && w[12] == "time_projection.1"@);
    assert(w[13] == "head.head"@ && w[14] == "text_embedding.0"@ && w[15] == "text_embedding.2"@);
    assert(w[16] == "time_embedding.0"@ && w[17] == "time_embedding.2"@);
    lemma_pair_absent(s, w[0], ".proj_in"@, w[1], ".proj_out"@);
    lemma_rename_absent(s, w[2], ".attn1"@ + ".to_q"@);
    lemma_rename_absent(s, w[3], ".attn1"@ + ".to_k"@);
    lemma_rename_absent(s, w[4], ".attn1"@ + ".to_v"@);
    lemma_rename_absent(s, w[5], ".attn1"@ + ".to_out.0"@);
    lemma_rename_absent(s, w[6], ".attn2"@ + ".to_q"@);
    lemma_rename_absent(s, w[7], ".attn2"@ + ".to_k"@);
    lemma_rename_absent(s, w[8], ".attn2"@ + ".to_v"@);
    lemma_rename_absent(s, w[9], ".attn2"@ + ".to_out.0"@);
    lemma_pair_absent(s, w[10], ".ffn.net.0.proj"@, w[11], ".ffn.net.2"@);
    lemma_rename_absent(s, w[12], "condition_embedder.time_proj"@);
    lemma_rename_absent(s, w[13], "proj_out"@);
    lemma_pair_absent(
        s,
        w[14],
        "condition_embedder.text_embedder.linear_1"@,
        w[15],
        "condition_embedder.text_embedder.linear_2"@,
    );
    lemma_pair_absent(
        s,
        w[16],
        "condition_embedder.time_embedder.linear_1"@,
        w[17],
        "condition_embedder.time_embedder.linear_2"@,
    );
}

/// Which known namespace stands in front of a module path makes no difference to the module that
/// the key stands for.
pub proof fn law_namespace_is_irrelevant(path: Seq<char>, i: int)
    requires
        0 <= i < key_prefixes().len(),
        unprefixed(path) == path,
    ensures
        wan_key(key_prefixes()[i] + path) == wan_key(path),
        vace_key(key_prefixes()[i] + path) == vace_key(path),
{
    reveal_strlit("model.diffusion_model.");
    reveal_strlit("diffusion_model.");
    reveal_strlit("base_model.model.");
    reveal_strlit("model.");
    let p = key_prefixes();
    let key = p[i] + path;
    assert(p[0] == "model.diffusion_model."@ && p[1] == "diffusion_model."@);
    assert(p[2] == "base_model.model."@ && p[3] == "model."@);
    assert(key.subrange(0, p[i].len() as int) =~= p[i]);
    assert(without_prefix(key, p[i]) =~= path);
    assert forall|j: int| 0 <= j < i implies !has_prefix(key, #[trigger] p[j]) by {
        if has_prefix(key, p[j]) {
            assert(key.subrange(0, p[j].len() as int) == p[j]);
            assert(key[0] == p[j][0]) by {
                assert(key.subrange(0, p[j].len() as int)[0] == p[j][0]);
            }
            if i == 3 && j == 0 {
                assert(path.subrange(0, p[1].len() as int) =~= p[1]) by {
                    assert(path.len() >= p[1].len());
                    assert forall|k: int| 0 <= k < p[1].len() implies path[k] == p[1][k] by {
                        assert(key[k + 6] == path[k]);
                        assert(key.subrange(0, p[0].len() as int)[k + 6] == p[0][k + 6]);
                        assert(p[0][k + 6] == p[1][k]);
                    }
                }
                assert(has_prefix(path, p[1]));
                assert(unprefixed(path).len() < path.len());
            }
        }
    }
    assert(unprefixed(key) == path);
}

/// How the modules of the model that takes the adapters are named.
#[derive(Debug, Clone, Copy, PartialEq, Eq, Structural)]
pub enum KeyLayout {
    Native,
    Diffusers,
}

/// The module that a raw module path stands for under the given naming.
pub open spec fn module_key(layout: KeyLayout, key: Seq<char>) -> Seq<char> {
    match layout {
        KeyLayout::Native => wan_key(key),
        KeyLayout::Diffusers => vace_key(key),
    }
}

/// The module that a raw module path stands for under the given naming.
pub fn normalize_key(layout: KeyLayout, key: &str) -> (r: String)
    ensures
        r@ == module_key(layout, key@),
{
    match layout {
        KeyLayout::Native => normalize_wan_key(key),
        KeyLayout::Diffusers => normalize_vace_key(key),
    }
}

/// What a tensor of a low-rank adapter is.
#[derive(Debug, Clone, Copy, PartialEq, Eq, Structural)]
pub enum Role {
    /// The factor that maps the input down to the rank.
    Down,
    /// The factor that maps the rank up to the output.
    Up,
    /// The scaling numerator.
    Alpha,
}

/// The endings that mark the tensors of a low-rank adapter, in the order in which they are tried.
pub open spec fn factor_endings() -> Seq<(Seq<char>, Role)> {
    seq![
        (".lora_A.weight"@, Role::Down),
        (".lora_B.weight"@, Role::Up),
        (".lora_down.weight"@, Role::Down),
        (".lora_up.weight"@, Role::Up),
        (".alpha"@, Role::Alpha),
    ]
}

/// The module path and the role that a tensor key spells, from ending `i` on.
pub open spec fn factor_from(key: Seq<char>, i: int) -> Option<(Seq<char>, Role)>
    decreases factor_endings().len() - i,
{
    if i < 0 || i >= factor_endings().len() {
        None
    } else if has_suffix(key, factor_endings()[i].0) {
        Some((without_suffix(key, factor_endings()[i].0), factor_endings()[i].1))
    } else {
        factor_from(key, i + 1)
    }
}

/// The module path and the role that a tensor key spells; `None` for any other tensor.
pub open spec fn factor_of(key: Seq<char>) -> Option<(Seq<char>, Role)> {
    factor_from(key, 0)
}

/// The module path and the role that a tensor key spells.
pub fn split_factor(key: &str) -> (r: Option<(String, Role)>)
    ensures
        match r {
            Some((stem, role)) => factor_of(key@) == Some((stem@, role)),
            None => factor_of(key@) is None,
        },
{
    proof {
        reveal_with_fuel(factor_from, 6);
    }
    if let Some(stem) = strip_suffix(key, ".lora_A.weight") {
        return Some((stem, Role::Down));
    }
    if let Some(stem) = strip_suffix(key, ".lora_B.weight") {
        return Some((stem, Role::Up));
    }
    if let Some(stem) = strip_suffix(key, ".lora_down.weight") {
        return Some((stem, Role::Down));
    }
    if let Some(stem) = strip_suffix(key, ".lora_up.weight") {
        return Some((stem, Role::Up));
    }
    if let Some(stem) = strip_suffix(key, ".alpha") {
        return Some((stem, Role::Alpha));
    }
    None
}

/// The tensors of one module in an adapter file, each by its position in the file's key list.
#[derive(Debug)]
pub struct FactorGroup {
    pub path: String,
    pub down: Option<usize>,
    pub up: Option<usize>,
    pub alpha: Option<usize>,
}

/// The module that a tensor of the file belongs to, where it is a factor at all.
pub open spec fn factor_path(layout: KeyLayout, key: Seq<char>) -> Option<Seq<char>> {
    match factor_of(key) {
        Some((stem, role)) => Some(module_key(layout, stem)),
        None => None,
    }
}

/// Whether `key` is the tensor of module `path` in the given role.
pub open spec fn is_factor(layout: KeyLayout, key: Seq<char>, path: Seq<char>, role: Role) -> bool {
    match factor_of(key) {
        Some((stem, r)) => module_key(layout, stem) == path && r == role,
        None => false,
    }
}

/// The last tensor of module `path` in the given role.
pub open spec fn last_factor(
    layout: KeyLayout,
    keys: Seq<Seq<char>>,
    path: Seq<char>,
    role: Role,
) -> Option<usize>
    decreases keys.len(),
{
    if keys.len() == 0 {
        None
    } else if is_factor(layout, keys.last(), path, role) {
        Some((keys.len() - 1) as usize)
    } else {
        last_factor(layout, keys.drop_last(), path, role)
    }
}

/// The modules that the file has tensors for, ascending, each one once.
pub open spec fn factor_paths(layout: KeyLayout, keys: Seq<Seq<char>>) -> Seq<Seq<char>>
    decreases keys.len(),
{
    if keys.len() == 0 {
        seq![]
    } else {
        let head = factor_paths(layout, keys.drop_last());
        match factor_path(layout, keys.last()) {
            Some(p) => inserted(head, p),
            None => head,
        }
    }
}

/// Whether the group holds the tensors of its module.
pub open spec fn is_group(layout: KeyLayout, keys: Seq<Seq<char>>, g: FactorGroup) -> bool {
    &&& g.down == last_factor(layout, keys, g.path@, Role::Down)
    &&& g.up == last_factor(layout, keys, g.path@, Role::Up)
    &&& g.alpha == last_factor(layout, keys, g.path@, Role::Alpha)
}

/// The module paths of the groups.
pub open spec fn group_paths(groups: Seq<FactorGroup>) -> Seq<Seq<char>> {
    groups.map_values(|g: FactorGroup| g.path@)
}

/// Whether the groups are the modules of the file, ascending, with the tensors of each.
pub open spec fn is_grouping(
    layout: KeyLayout,
    keys: Seq<Seq<char>>,
    groups: Seq<FactorGroup>,
) -> bool {
    &&& group_paths(groups) == factor_paths(layout, keys)
    &&& forall|i: int| 0 <= i < groups.len() ==> is_group(layout, keys, #[trigger] groups[i])
}

/// The modules of a file are listed in ascending order, and a module is listed if and only if the
/// file has a tensor for it.
pub proof fn law_factor_paths(layout: KeyLayout, keys: Seq<Seq<char>>)
    ensures
        ascending(factor_paths(layout, keys)),
        forall|p: Seq<char>|
            #[trigger] factor_paths(layout, keys).contains(p) <==> exists|k: int|
                0 <= k < keys.len() && factor_path(layout, #[trigger] keys[k]) == Some(p),
    decreases keys.len(),
{
    let paths = factor_paths(layout, keys);
    if keys.len() > 0 {
        let head = keys.drop_last();
        let before = factor_paths(layout, head);
        law_factor_paths(layout, head);
        if let Some(q) = factor_path(layout, keys.last()) {
            lemma_inserted(before, q);
        }
        assert forall|p: Seq<char>| #[trigger] paths.contains(p) <==> exists|k: int|
            0 <= k < keys.len() && factor_path(layout, #[trigger] keys[k]) == Some(p) by {
            if paths.contains(p) {
                if before.contains(p) {
                    let k = choose|k: int|
                        0 <= k < head.len() && factor_path(layout, #[trigger] head[k]) == Some(p);
                    assert(keys[k] == head[k]);
                } else {
                    assert(factor_path(layout, keys[keys.len() - 1]) == Some(p));
                }
            }
            if exists|k: int|
                0 <= k < keys.len() && factor_path(layout, #[trigger] keys[k]) == Some(p) {
                let k = choose|k: int|
                    0 <= k < keys.len() && factor_path(layout, #[trigger] keys[k]) == Some(p);
                if k < head.len() {
                    assert(head[k] == keys[k]);
                    assert(before.contains(p));
                }
            }
        }
    }
}

/// A module that is not listed has no tensor in any role.
proof fn lemma_unlisted(layout: KeyLayout, keys: Seq<Seq<char>>, path: Seq<char>, role: Role)
    requires
        !factor_paths(layout, keys).contains(path),
    ensures
        last_factor(layout, keys, path, role) is None,
    decreases keys.len(),
{
    if keys.len() > 0 {
        let head = keys.drop_last();
        law_factor_paths(layout, keys);
        law_factor_paths(layout, head);
        if factor_path(layout, keys.last()) == Some(path) {
            assert(factor_path(layout, keys[keys.len() - 1]) == Some(path));
        }
        if factor_paths(layout, head).contains(path) {
            let k = choose|k: int|
                0 <= k < head.len() && factor_path(layout, #[trigger] head[k]) == Some(path);
            assert(keys[k] == head[k]);
        }
        lemma_unlisted(layout, head, path, role);
    }
}

/// The first group whose module does not come before `path`.
fn group_position(groups: &Vec<FactorGroup>, path: &str) -> (r: usize)
    ensures
        r <= groups.len(),
        forall|k: int| 0 <= k < r ==> text_lt(#[trigger] group_paths(groups@)[k], path@),
        r < groups.len() ==> !text_lt(group_paths(groups@)[r as int], path@),
{
    let mut i: usize = 0;
    while i < groups.len() && text_less(groups[i].path.as_str(), path)
        invariant
            i <= groups.len(),
            forall|k: int| 0 <= k < i ==> text_lt(#[trigger] group_paths(groups@)[k], path@),
        decreases groups.len() - i,
    {
        i += 1;
    }
    i
}

/// What a module's tensors are once the next key of the file has been read.
proof fn lemma_next_factor(
    layout: KeyLayout,
    keys: Seq<Seq<char>>,
    i: int,
    path: Seq<char>,
    role: Role,
)
    requires
        0 <= i < keys.len(),
    ensures
        last_factor(layout, keys.take(i + 1), path, role) == if is_factor(
            layout,
            keys[i],
            path,
            role,
        ) {
            Some(i as usize)
        } else {
            last_factor(layout, keys.take(i), path, role)
        },
{
    assert(keys.take(i + 1).drop_last() =~= keys.take(i));
    assert(keys.take(i + 1).last() == keys[i]);
}

/// Groups the tensors of an adapter file by module. A tensor whose key has none of the known
/// endings belongs to no module; where two keys spell the same tensor, the later one counts.
pub fn group_factors(layout: KeyLayout, keys: &Vec<String>) -> (r: Vec<FactorGroup>)
    ensures
        is_grouping(layout, views(keys@), r@),
{
    let ghost kv = views(keys@);
    let mut groups: Vec<FactorGroup> = Vec::new();
    let mut i: usize = 0;
    assert(group_paths(groups@) =~= factor_paths(layout, kv.take(0)));
    while i < keys.len()
        invariant
            i <= keys.len(),
            kv == views(keys@),
            is_grouping(layout, kv.take(i as int), groups@),
        decreases keys.len() - i,
    {
        let ghost before = groups@;
        proof {
            assert(kv.take(i + 1).drop_last() =~= kv.take(i as int));
            assert(kv.take(i + 1).last() == keys@[i as int]@);
            assert(kv[i as int] == keys@[i as int]@);
        }
        match split_factor(keys[i].as_str()) {
            None => {
                proof {
                    assert forall|g: int| 0 <= g < groups.len() implies is_group(
                        layout,
                        kv.take(i + 1),
                        #[trigger] groups@[g],
                    ) by {
                        assert(is_group(layout, kv.take(i as int), groups@[g]));
                        let p = groups@[g].path@;
                        lemma_next_factor(layout, kv, i as int, p, Role::Down);
                        lemma_next_factor(layout, kv, i as int, p, Role::Up);
                        lemma_next_factor(layout, kv, i as int, p, Role::Alpha);
                    }
                }
            },
            Some((stem, role)) => {
                let path = normalize_key(layout, stem.as_str());
                let at = group_position(&groups, path.as_str());
                proof {
                    lemma_inserted_at(group_paths(groups@), path@, at as int);
                    law_factor_paths(layout, kv.take(i as int));
                }
                let known = at < groups.len() && same_text(
                    groups[at].path.as_str(),
                    path.as_str(),
                );
                let ghost new_path = path@;
                if !known {
                    proof {
                        let paths = group_paths(groups@);
                        assert(!paths.contains(path@)) by {
                            if paths.contains(path@) {
                                let k = choose|k: int| 0 <= k < paths.len() && paths[k] == path@;
                                lemma_text_lt_irreflexive(path@);
                                if k > at {
                                    assert(text_lt(paths[at as int], paths[k]));
                                }
                                assert(k != at);
                            }
                        }
                        lemma_unlisted(layout, kv.take(i as int), path@, Role::Down);
                        lemma_unlisted(layout, kv.take(i as int), path@, Role::Up);
                        lemma_unlisted(layout, kv.take(i as int), path@, Role::Alpha);
                    }
                    groups.insert(at, FactorGroup { path, down: None, up: None, alpha: None });
                    assert(group_paths(groups@) =~= group_paths(before).insert(
                        at as int,
                        new_path,
                    ));
                }
                let ghost mid = groups@;
                proof {
                    assert(group_paths(mid) == factor_paths(layout, kv.take(i + 1)));
                    assert forall|g: int| 0 <= g < mid.len() implies is_group(
                        layout,
                        kv.take(i as int),
                        #[trigger] mid[g],
                    ) by {
                        if !known {
                            if g < at {
                                assert(mid[g] == before[g]);
                            } else if g > at {
                                assert(mid[g] == before[g - 1]);
                            }
                        }
                    }
                }
                match role {
                    Role::Down => {
                        groups[at].down = Some(i);
                    },
                    Role::Up => {
                        groups[at].up = Some(i);
                    },
                    Role::Alpha => {
                        groups[at].alpha = Some(i);
                    },
                }
                proof {
                    let paths = group_paths(mid);
                    law_factor_paths(layout, kv.take(i + 1));
                    assert(group_paths(groups@) =~= paths);
                    assert forall|g: int| 0 <= g < groups.len() implies is_group(
                        layout,
                        kv.take(i + 1),
                        #[trigger] groups@[g],
                    ) by {
                        assert(is_group(layout, kv.take(i as int), mid[g]));
                        let p = groups@[g].path@;
                        assert(paths[g] == p);
                        if g != at {
                            lemma_text_lt_irreflexive(p);
                            if g < at {
                                assert(text_lt(paths[g], paths[at as int]));
                            } else {
                                assert(text_lt(paths[at as int], paths[g]));
                            }
                            assert(p != new_path);
                        }
                        lemma_next_factor(layout, kv, i as int, p, Role::Down);
                        lemma_next_factor(layout, kv, i as int, p, Role::Up);
                        lemma_next_factor(layout, kv, i as int, p, Role::Alpha);
                    }
                }
            },
        }
        i += 1;
    }
    assert(kv.take(i as int) =~= kv);
    groups
}

/// Outcome of putting adapters onto one expert.
#[derive(Debug, PartialEq, Eq)]
pub struct WanLoraReport {
    /// Modules that took a delta, once for every file that hit them.
    pub applied: usize,
    /// Files that apply to this expert.
    pub applicable: usize,
    /// Module paths that the model does not have.
    pub skipped: Vec<String>,
}

impl Default for WanLoraReport {
    fn default() -> (r: WanLoraReport)
        ensures
            r.applied == 0,
            r.applicable == 0,
            r.skipped@.len() == 0,
    {
        WanLoraReport { applied: 0, applicable: 0, skipped: Vec::new() }
    }
}

/// The kind of an adapter file.
#[derive(Debug, Clone, Copy, PartialEq, Eq, Structural)]
pub enum WanAdapterFamily {
    /// Low-rank factors.
    Lora,
    /// Kronecker factors.
    Lokr,
    /// Hadamard factors.
    Loha,
}

/// The kind that a request declares a file to be.
#[derive(Debug, Clone, Copy, PartialEq, Eq, Structural)]
pub enum AdapterKind {
    Lora,
    Lokr,
}

/// One of the two experts of a mixture model.
#[derive(Debug, Clone, Copy, PartialEq, Eq, Structural)]
pub enum MoeExpert {
    High,
    Low,
}

/// A module of a Kronecker or Hadamard file: the path that the file writes, and the module that a
/// flattened path was resolved to.
#[derive(Debug)]
pub struct LycorisModule {
    pub raw: String,
    pub resolved: Option<String>,
}

/// An adapter file of a request, with what was read from its header.
#[derive(Debug)]
pub struct AdapterFile {
    /// Where the file lies.
    pub path: String,
    /// The kind that the request declares.
    pub kind: AdapterKind,
    /// The one expert that the file is for; both without it.
    pub moe_expert: Option<MoeExpert>,
    /// The metadata says that it is a Kronecker file.
    pub lokr_stamp: bool,
    /// It has Kronecker keys.
    pub lokr_keys: bool,
    /// It has Hadamard keys.
    pub loha_keys: bool,
    /// Its tensor keys.
    pub keys: Vec<String>,
    /// The shapes of its tensors.
    pub shapes: Vec<Vec<usize>>,
    /// The modules of a Kronecker or Hadamard file.
    pub modules: Vec<LycorisModule>,
}

/// How a file is read.
#[derive(Debug, Clone, Copy, PartialEq, Eq, Structural)]
pub enum Route {
    Lora,
    Lokr,
    ThirdPartyLokr,
    ThirdPartyLoha,
}

impl AdapterFile {
    /// How the file is read: a declared or stamped Kronecker file first, then one that has
    /// Kronecker keys, then one that has Hadamard keys, and any other as low-rank factors.
    pub open spec fn route_of(&self) -> Route {
        if self.kind == AdapterKind::Lokr || self.lokr_stamp {
            Route::Lokr
        } else if self.lokr_keys {
            Route::ThirdPartyLokr
        } else if self.loha_keys {
            Route::ThirdPartyLoha
        } else {
            Route::Lora
        }
    }

    /// The kind that the file turns out to be.
    pub open spec fn family(&self) -> WanAdapterFamily {
        match self.route_of() {
            Route::Lora => WanAdapterFamily::Lora,
            Route::Lokr => WanAdapterFamily::Lokr,
            Route::ThirdPartyLokr => WanAdapterFamily::Lokr,
            Route::ThirdPartyLoha => WanAdapterFamily::Loha,
        }
    }

    /// Decides [`AdapterFile::route_of`].
    pub fn route(&self) -> (r: Route)
        ensures
            r == self.route_of(),
    {
        if self.kind == AdapterKind::Lokr || self.lokr_stamp {
            Route::Lokr
        } else if self.lokr_keys {
            Route::ThirdPartyLokr
        } else if self.loha_keys {
            Route::ThirdPartyLoha
        } else {
            Route::Lora
        }
    }

    /// Whether the file applies to an expert: it is for both, or for this one.
    pub open spec fn applies_to(&self, expert: MoeExpert) -> bool {
        self.moe_expert is None || self.moe_expert == Some(expert)
    }
}

/// The kind that a file turns out to be. Kronecker takes precedence over Hadamard, and what is
/// neither is low-rank.
pub fn classify_family(file: &AdapterFile) -> (r: WanAdapterFamily)
    ensures
        r == file.family(),
{
    match file.route() {
        Route::Lora => WanAdapterFamily::Lora,
        Route::Lokr => WanAdapterFamily::Lokr,
        Route::ThirdPartyLokr => WanAdapterFamily::Lokr,
        Route::ThirdPartyLoha => WanAdapterFamily::Loha,
    }
}

/// The explanation that a Hadamard file gets on a packed model.
pub open spec fn loha_refusal(model_id: Seq<char>, path: Seq<char>) -> Seq<char> {
    model_id + ": this is a LoHa (LyCORIS Hadamard) adapter, which cannot run on a quantized (packed Q4/Q8) Wan tier. LoHa's delta is a Hadamard product of two low-rank branches, ΔW = (B₁A₁) ⊙ (B₂A₂); the element-wise product entangles the factors so there is no deferred/additive form — applying it would have to materialize the full dense weight-sized delta (~28 GB/expert on a 14B tier) on top of the packed weights, defeating the quantized tier's memory savings. Use the bf16 tier for this adapter (where LoHa merges into the dense weight in place), or pick a plain LoRA / LoKr adapter (which apply additively on any tier, sc-10050). Tracked in sc-10051 (epic 10043). Offending file: "@
        + path
}

/// Whether file `i` is the first Hadamard file.
pub open spec fn first_loha(files: Seq<AdapterFile>, i: int) -> bool {
    &&& 0 <= i < files.len()
    &&& files[i].family() == WanAdapterFamily::Loha
    &&& forall|k: int|
        0 <= k < i ==> (#[trigger] files[k]).family() != WanAdapterFamily::Loha
}

/// Refuses the first Hadamard file: its delta has no form that leaves packed weights packed.
/// Low-rank and Kronecker files pass.
pub fn reject_loha_on_packed(model_id: &str, files: &Vec<AdapterFile>) -> (r: Result<(), Error>)
    ensures
        r is Ok <==> forall|k: int|
            0 <= k < files.len() ==> (#[trigger] files@[k]).family() != WanAdapterFamily::Loha,
        r matches Err(e) ==> e is Unsupported && exists|i: int| #[trigger]
            first_loha(files@, i) && e.text() == loha_refusal(model_id@, files@[i].path@),
{
    let mut i: usize = 0;
    while i < files.len()
        invariant
            i <= files.len(),
            forall|k: int|
                0 <= k < i ==> (#[trigger] files@[k]).family() != WanAdapterFamily::Loha,
        decreases files.len() - i,
    {
        if classify_family(&files[i]) == WanAdapterFamily::Loha {
            assert(first_loha(files@, i as int));
            return Err(
                Error::Unsupported(
                    join2(
                        model_id,
                        ": this is a LoHa (LyCORIS Hadamard) adapter, which cannot run on a quantized (packed Q4/Q8) Wan tier. LoHa's delta is a Hadamard product of two low-rank branches, ΔW = (B₁A₁) ⊙ (B₂A₂); the element-wise product entangles the factors so there is no deferred/additive form — applying it would have to materialize the full dense weight-sized delta (~28 GB/expert on a 14B tier) on top of the packed weights, defeating the quantized tier's memory savings. Use the bf16 tier for this adapter (where LoHa merges into the dense weight in place), or pick a plain LoRA / LoKr adapter (which apply additively on any tier, sc-10050). Tracked in sc-10051 (epic 10043). Offending file: ",
                    ).concat(files[i].path.as_str()),
                ),
            );
        }
        i += 1;
    }
    Ok(())
}

/// What takes the adapters: a map of weights that deltas are folded into, or a built model that
/// carries them beside its weights.
#[derive(Debug)]
pub enum Target {
    Weights(Vec<String>),
    Host(HostSurface),
}

impl Target {
    /// Whether the target has the module.
    pub open spec fn has_module(&self, path: Seq<char>) -> bool {
        match self {
            Target::Weights(keys) => views(keys@).contains(path + ".weight"@),
            Target::Host(host) => host.holds(path),
        }
    }

    /// Decides [`Target::has_module`].
    pub fn takes(&self, path: &str) -> (r: bool)
        ensures
            r == self.has_module(path@),
    {
        match self {
            Target::Weights(keys) => list_contains(keys, join2(path, ".weight").as_str()),
            Target::Host(host) => host.adaptable(path),
        }
    }
}

/// Where a delta comes from: positions in the file's key list, or in its module list.
#[derive(Debug, Clone, Copy, PartialEq, Eq, Structural)]
pub enum Delta {
    Lora { down: usize, up: usize, alpha: Option<usize> },
    Lokr { module: usize },
    Loha { module: usize },
}

/// One delta for one module.
#[derive(Debug)]
pub struct Fold {
    /// The file's position in the request.
    pub file: usize,
    /// The module.
    pub path: String,
    /// The delta.
    pub delta: Delta,
}

/// A group, by its contents.
pub open spec fn group_view(g: FactorGroup) -> (
    Seq<char>,
    Option<usize>,
    Option<usize>,
    Option<usize>,
) {
    (g.path@, g.down, g.up, g.alpha)
}

/// The groups of a file, by their contents.
pub open spec fn groups_of(layout: KeyLayout, keys: Seq<Seq<char>>) -> Seq<
    (Seq<char>, Option<usize>, Option<usize>, Option<usize>),
> {
    factor_paths(layout, keys).map_values(
        |p: Seq<char>|
            (
                p,
                last_factor(layout, keys, p, Role::Down),
                last_factor(layout, keys, p, Role::Up),
                last_factor(layout, keys, p, Role::Alpha),
            ),
    )
}

/// The modules of a file, each with its delta where it has one: a low-rank module needs both of
/// its factors.
pub open spec fn offers(layout: KeyLayout, file: AdapterFile) -> Seq<(Seq<char>, Option<Delta>)> {
    match file.route_of() {
        Route::Lora => groups_of(layout, views(file.keys@)).map_values(
            |g: (Seq<char>, Option<usize>, Option<usize>, Option<usize>)|
                (
                    g.0,
                    match (g.1, g.2) {
                        (Some(down), Some(up)) => Some(Delta::Lora { down, up, alpha: g.3 }),
                        _ => None,
                    },
                ),
        ),
        Route::Lokr => Seq::new(
            file.modules@.len(),
            |m: int|
                (
                    module_key(layout, file.modules@[m].raw@),
                    Some(Delta::Lokr { module: m as usize }),
                ),
        ),
        Route::ThirdPartyLokr => Seq::new(
            file.modules@.len(),
            |m: int|
                (
                    thirdparty_path(layout, file.modules@[m]),
                    Some(Delta::Lokr { module: m as usize }),
                ),
        ),
        Route::ThirdPartyLoha => Seq::new(
            file.modules@.len(),
            |m: int|
                (
                    thirdparty_path(layout, file.modules@[m]),
                    Some(Delta::Loha { module: m as usize }),
                ),
        ),
    }
}

/// The module of a third-party file: what its flattened path was resolved to, else what its dotted
/// path stands for.
pub open spec fn thirdparty_path(layout: KeyLayout, m: LycorisModule) -> Seq<char> {
    match m.resolved {
        Some(p) => p@,
        None => module_key(layout, m.raw@),
    }
}

/// The deltas of the offered modules that the target has.
pub open spec fn taken(target: Target, file: usize, offered: Seq<(Seq<char>, Option<Delta>)>) -> Seq<
    (usize, Seq<char>, Delta),
>
    decreases offered.len(),
{
    if offered.len() == 0 {
        seq![]
    } else {
        let head = taken(target, file, offered.drop_last());
        let (path, delta) = offered.last();
        match delta {
            Some(d) => if target.has_module(path) {
                head.push((file, path, d))
            } else {
                head
            },
            None => head,
        }
    }
}

/// The offered modules that are left out: those without a delta, and those that the target lacks.
pub open spec fn left_out(target: Target, offered: Seq<(Seq<char>, Option<Delta>)>) -> Seq<
    Seq<char>,
>
    decreases offered.len(),
{
    if offered.len() == 0 {
        seq![]
    } else {
        let head = left_out(target, offered.drop_last());
        let (path, delta) = offered.last();
        if delta is Some && target.has_module(path) {
            head
        } else {
            head.push(path)
        }
    }
}

/// The folds, by their contents.
pub open spec fn fold_views(folds: Seq<Fold>) -> Seq<(usize, Seq<char>, Delta)> {
    folds.map_values(|f: Fold| (f.file, f.path@, f.delta))
}

/// The module of a third-party file.
pub fn resolve_wan_thirdparty(layout: KeyLayout, m: &LycorisModule) -> (r: String)
    ensures
        r@ == thirdparty_path(layout, *m),
{
    match &m.resolved {
        Some(p) => p.clone(),
        None => normalize_key(layout, m.raw.as_str()),
    }
}

/// Gives one offered module to the target, or leaves it out.
fn give(
    target: &Target,
    file: usize,
    path: String,
    delta: Option<Delta>,
    folds: &mut Vec<Fold>,
    skipped: &mut Vec<String>,
)
    ensures
        match delta {
            Some(d) if target.has_module(path@) => fold_views(final(folds)@) == fold_views(
                old(folds)@,
            ).push((file, path@, d)) && views(final(skipped)@) == views(old(skipped)@),
            _ => fold_views(final(folds)@) == fold_views(old(folds)@) && views(final(skipped)@)
                == views(old(skipped)@).push(path@),
        },
{
    let ghost f0 = folds@;
    let ghost s0 = skipped@;
    match delta {
        Some(d) => {
            if target.takes(path.as_str()) {
                folds.push(Fold { file, path, delta: d });
                assert(fold_views(folds@) =~= fold_views(f0).push((file, path@, d)));
                return ;
            }
        },
        None => {},
    }
    skipped.push(path);
    assert(views(skipped@) =~= views(s0).push(path@));
}

/// Plans the deltas of one file, module by module, appending to what earlier files gave. A module
/// that the target lacks, and a low-rank module without both factors, is left out.
pub fn merge_one(
    target: &Target,
    index: usize,
    file: &AdapterFile,
    layout: KeyLayout,
    folds: &mut Vec<Fold>,
    skipped: &mut Vec<String>,
)
    ensures
        fold_views(final(folds)@) == fold_views(old(folds)@) + taken(
            *target,
            index,
            offers(layout, *file),
        ),
        views(final(skipped)@) == views(old(skipped)@) + left_out(*target, offers(layout, *file)),
{
    let ghost f0 = fold_views(folds@);
    let ghost s0 = views(skipped@);
    let ghost all = offers(layout, *file);
    let route = file.route();
    assert(f0 =~= f0 + taken(*target, index, all.take(0)));
    assert(s0 =~= s0 + left_out(*target, all.take(0)));
    if route == Route::Lora {
        let groups = group_factors(layout, &file.keys);
        proof {
            let kv = views(file.keys@);
            let gv = groups_of(layout, kv);
            assert(group_paths(groups@).len() == groups@.len());
            assert forall|k: int| 0 <= k < groups@.len() implies group_view(#[trigger] groups@[k])
                == gv[k] by {
                assert(group_paths(groups@)[k] == groups@[k].path@);
                assert(is_group(layout, kv, groups@[k]));
            }
        }
        let mut i: usize = 0;
        while i < groups.len()
            invariant
                i <= groups.len(),
                route == Route::Lora,
                route == file.route_of(),
                all == offers(layout, *file),
                all.len() == groups.len(),
                forall|k: int|
                    0 <= k < groups@.len() ==> group_view(#[trigger] groups@[k]) == groups_of(
                        layout,
                        views(file.keys@),
                    )[k],
                fold_views(folds@) == f0 + taken(*target, index, all.take(i as int)),
                views(skipped@) == s0 + left_out(*target, all.take(i as int)),
            decreases groups.len() - i,
        {
            let g = &groups[i];
            let delta = match (g.down, g.up) {
                (Some(down), Some(up)) => Some(Delta::Lora { down, up, alpha: g.alpha }),
                _ => None,
            };
            proof {
                assert(group_view(groups@[i as int]) == groups_of(layout, views(file.keys@))[i as int]);
                assert(all[i as int] == (g.path@, delta));
                assert(all.take(i + 1).drop_last() =~= all.take(i as int));
                assert(all.take(i + 1).last() == all[i as int]);
            }
            give(target, index, g.path.clone(), delta, folds, skipped);
            proof {
                assert(fold_views(folds@) =~= f0 + taken(*target, index, all.take(i + 1)));
                assert(views(skipped@) =~= s0 + left_out(*target, all.take(i + 1)));
            }
            i += 1;
        }
        assert(all.take(i as int) =~= all);
        return ;
    }
    let mut m: usize = 0;
    while m < file.modules.len()
        invariant
            m <= file.modules.len(),
            route != Route::Lora,
            route == file.route_of(),
            all == offers(layout, *file),
            fold_views(folds@) == f0 + taken(*target, index, all.take(m as int)),
            views(skipped@) == s0 + left_out(*target, all.take(m as int)),
        decreases file.modules.len() - m,
    {
        let module = &file.modules[m];
        let path = if route == Route::Lokr {
            normalize_key(layout, module.raw.as_str())
        } else {
            resolve_wan_thirdparty(layout, module)
        };
        let delta = if route == Route::ThirdPartyLoha {
            Some(Delta::Loha { module: m })
        } else {
            Some(Delta::Lokr { module: m })
        };
        proof {
            assert(all[m as int] == (path@, delta));
            assert(all.take(m + 1).drop_last() =~= all.take(m as int));
            assert(all.take(m + 1).last() == all[m as int]);
        }
        give(target, index, path, delta, folds, skipped);
        proof {
            assert(fold_views(folds@) =~= f0 + taken(*target, index, all.take(m + 1)));
            assert(views(skipped@) =~= s0 + left_out(*target, all.take(m + 1)));
        }
        m += 1;
    }
    assert(all.take(m as int) =~= all);
}

/// The positions from `from` on of the files that are for both experts (`tag` is `None`), or for
/// one.
pub open spec fn tagged(files: Seq<AdapterFile>, tag: Option<MoeExpert>, n: nat) -> Seq<usize>
    decreases n,
{
    if n == 0 {
        seq![]
    } else if files[n - 1].moe_expert == tag {
        tagged(files, tag, (n - 1) as nat).push((n - 1) as usize)
    } else {
        tagged(files, tag, (n - 1) as nat)
    }
}

/// The files that apply to an expert, in the order in which they are applied: those for both
/// experts first, then those for this one, each set in the order of the request.
pub open spec fn file_order(files: Seq<AdapterFile>, expert: MoeExpert) -> Seq<usize> {
    tagged(files, None, files.len()) + tagged(files, Some(expert), files.len())
}

/// The positions of the files with the given tag.
fn with_tag(files: &Vec<AdapterFile>, tag: Option<MoeExpert>) -> (r: Vec<usize>)
    ensures
        r@ == tagged(files@, tag, files@.len()),
{
    let mut out: Vec<usize> = Vec::new();
    let mut i: usize = 0;
    while i < files.len()
        invariant
            i <= files.len(),
            out@ == tagged(files@, tag, i as nat),
        decreases files.len() - i,
    {
        let same = match (files[i].moe_expert, tag) {
            (None, None) => true,
            (Some(a), Some(b)) => a == b,
            _ => false,
        };
        if same {
            out.push(i);
        }
        i += 1;
    }
    out
}

/// The files that apply to an expert, in the order in which they are applied.
pub fn merge_order(files: &Vec<AdapterFile>, expert: MoeExpert) -> (r: Vec<usize>)
    ensures
        r@ == file_order(files@, expert),
{
    let mut out = with_tag(files, None);
    let mut own = with_tag(files, Some(expert));
    out.append(&mut own);
    out
}

/// What the files in `order` give to the target.
pub open spec fn all_taken(
    target: Target,
    files: Seq<AdapterFile>,
    layout: KeyLayout,
    order: Seq<usize>,
) -> Seq<(usize, Seq<char>, Delta)>
    decreases order.len(),
{
    if order.len() == 0 {
        seq![]
    } else {
        all_taken(target, files, layout, order.drop_last()) + taken(
            target,
            order.last(),
            offers(layout, files[order.last() as int]),
        )
    }
}

/// What the files in `order` offer and the target leaves out.
pub open spec fn all_left_out(
    target: Target,
    files: Seq<AdapterFile>,
    layout: KeyLayout,
    order: Seq<usize>,
) -> Seq<Seq<char>>
    decreases order.len(),
{
    if order.len() == 0 {
        seq![]
    } else {
        all_left_out(target, files, layout, order.drop_last()) + left_out(
            target,
            offers(layout, files[order.last() as int]),
        )
    }
}

/// Whether the folds and the report are those of the files that apply to `expert`.
pub open spec fn is_merge(
    target: Target,
    files: Seq<AdapterFile>,
    layout: KeyLayout,
    expert: MoeExpert,
    folds: Seq<Fold>,
    report: WanLoraReport,
) -> bool {
    let order = file_order(files, expert);
    &&& fold_views(folds) == all_taken(target, files, layout, order)
    &&& report.applied == folds.len()
    &&& report.applicable == order.len()
    &&& views(report.skipped@) == all_left_out(target, files, layout, order)
}

/// The listed positions are positions.
proof fn lemma_tagged_bounds(files: Seq<AdapterFile>, tag: Option<MoeExpert>, n: nat)
    requires
        n <= files.len(),
        files.len() <= usize::MAX,
    ensures
        forall|k: int|
            0 <= k < tagged(files, tag, n).len() ==> (#[trigger] tagged(files, tag, n)[k]) < n
                && files[tagged(files, tag, n)[k] as int].moe_expert == tag,
        forall|i: int, j: int|
            0 <= i < j < tagged(files, tag, n).len() ==> (#[trigger] tagged(files, tag, n)[i]) < (
            #[trigger] tagged(files, tag, n)[j]),
        forall|f: int|
            0 <= f < n && (#[trigger] files[f]).moe_expert == tag ==> tagged(
                files,
                tag,
                n,
            ).contains(f as usize),
    decreases n,
{
    let r = tagged(files, tag, n);
    if n > 0 {
        let h = tagged(files, tag, (n - 1) as nat);
        lemma_tagged_bounds(files, tag, (n - 1) as nat);
        if files[n - 1].moe_expert == tag {
            assert(r == h.push((n - 1) as usize));
            assert forall|k: int| 0 <= k < r.len() implies (#[trigger] r[k]) < n && files[r[k] as int].moe_expert
                == tag by {
                if k < h.len() {
                    assert(r[k] == h[k]);
                }
            }
            assert forall|i: int, j: int| 0 <= i < j < r.len() implies (#[trigger] r[i]) < (
            #[trigger] r[j]) by {
                assert(r[i] == h[i]);
                if j < h.len() {
                    assert(r[j] == h[j]);
                }
            }
            assert forall|f: int|
                0 <= f < n && (#[trigger] files[f]).moe_expert == tag implies r.contains(
                f as usize,
            ) by {
                if f < n - 1 {
                    assert(h.contains(f as usize));
                    let k = choose|k: int| 0 <= k < h.len() && h[k] == f as usize;
                    assert(r[k] == f as usize);
                } else {
                    assert(r[h.len() as int] == f as usize);
                }
            }
        }
    }
}

/// Every file that applies to an expert is applied to it exactly once, no other file is, and the
/// files for both experts come before those for one.
pub proof fn law_file_order(files: Seq<AdapterFile>, expert: MoeExpert)
    requires
        files.len() <= usize::MAX,
    ensures
        forall|k: int|
            0 <= k < file_order(files, expert).len() ==> (#[trigger] file_order(files, expert)[k])
                < files.len() && files[file_order(files, expert)[k] as int].applies_to(expert),
        forall|f: int|
            0 <= f < files.len() && (#[trigger] files[f]).applies_to(expert) ==> file_order(
                files,
                expert,
            ).contains(f as usize),
        forall|i: int, j: int|
            0 <= i < j < file_order(files, expert).len() ==> #[trigger] file_order(files, expert)[i]
                != #[trigger] file_order(files, expert)[j],
        forall|i: int, j: int|
            #![trigger file_order(files, expert)[i], file_order(files, expert)[j]]
            0 <= i < j < file_order(files, expert).len()
                && files[file_order(files, expert)[j] as int].moe_expert is None
                ==> files[file_order(files, expert)[i] as int].moe_expert is None,
{
    let n = files.len();
    let a = tagged(files, None, n);
    let b = tagged(files, Some(expert), n);
    let r = file_order(files, expert);
    lemma_tagged_bounds(files, None, n);
    lemma_tagged_bounds(files, Some(expert), n);
    assert forall|k: int| 0 <= k < r.len() implies (#[trigger] r[k]) < n && files[r[k] as int].applies_to(
        expert,
    ) && (files[r[k] as int].moe_expert is None <==> k < a.len()) by {
        if k < a.len() {
            assert(r[k] == a[k]);
        } else {
            assert(r[k] == b[k - a.len()]);
        }
    }
    assert forall|f: int| 0 <= f < n && (#[trigger] files[f]).applies_to(expert) implies r.contains(
        f as usize,
    ) by {
        if files[f].moe_expert is None {
            assert(a.contains(f as usize));
            let k = choose|k: int| 0 <= k < a.len() && a[k] == f as usize;
            assert(r[k] == f as usize);
        } else {
            assert(b.contains(f as usize));
            let k = choose|k: int| 0 <= k < b.len() && b[k] == f as usize;
            assert(r[a.len() + k] == f as usize);
        }
    }
    assert forall|i: int, j: int| 0 <= i < j < r.len() implies #[trigger] r[i] != #[trigger] r[j] by {
        if j < a.len() {
            assert(r[i] == a[i] && r[j] == a[j]);
        } else if i >= a.len() {
            assert(r[i] == b[i - a.len()] && r[j] == b[j - a.len()]);
        } else {
            assert(r[i] == a[i] && r[j] == b[j - a.len()]);
        }
    }
}

/// Plans what the files that apply to `expert` give to the target.
pub fn merge_adapters_into(
    target: &Target,
    files: &Vec<AdapterFile>,
    expert: MoeExpert,
    layout: KeyLayout,
) -> (r: (Vec<Fold>, WanLoraReport))
    ensures
        is_merge(*target, files@, layout, expert, r.0@, r.1),
{
    let order = merge_order(files, expert);
    let mut folds: Vec<Fold> = Vec::new();
    let mut skipped: Vec<String> = Vec::new();
    let mut i: usize = 0;
    let count: usize = files.len();
    proof {
        assert(files@.len() == count);
        law_file_order(files@, expert);
        assert(fold_views(folds@) =~= all_taken(*target, files@, layout, order@.take(0)));
        assert(views(skipped@) =~= all_left_out(*target, files@, layout, order@.take(0)));
    }
    while i < order.len()
        invariant
            i <= order.len(),
            forall|k: int| 0 <= k < order.len() ==> #[trigger] order@[k] < files.len(),
            fold_views(folds@) == all_taken(*target, files@, layout, order@.take(i as int)),
            views(skipped@) == all_left_out(*target, files@, layout, order@.take(i as int)),
        decreases order.len() - i,
    {
        let f = order[i];
        proof {
            assert(order@.take(i + 1).drop_last() =~= order@.take(i as int));
            assert(order@.take(i + 1).last() == f);
        }
        merge_one(target, f, &files[f], layout, &mut folds, &mut skipped);
        i += 1;
    }
    assert(order@.take(i as int) =~= order@);
    let report = WanLoraReport { applied: folds.len(), applicable: order.len(), skipped };
    (folds, report)
}

/// Plans the deltas that the weights of one expert of a native model take.
pub fn merge_wan_adapters(weights: Vec<String>, files: &Vec<AdapterFile>, expert: MoeExpert) -> (r: (
    Vec<Fold>,
    WanLoraReport,
))
    ensures
        is_merge(Target::Weights(weights), files@, KeyLayout::Native, expert, r.0@, r.1),
{
    merge_adapters_into(&Target::Weights(weights), files, expert, KeyLayout::Native)
}

/// Plans the deltas that the weights of a dense diffusers model take. Such a model has one expert:
/// files that are for both apply.
pub fn merge_vace_adapters(weights: Vec<String>, files: &Vec<AdapterFile>) -> (r: (
    Vec<Fold>,
    WanLoraReport,
))
    ensures
        is_merge(
            Target::Weights(weights),
            files@,
            KeyLayout::Diffusers,
            MoeExpert::High,
            r.0@,
            r.1,
        ),
{
    merge_adapters_into(
        &Target::Weights(weights),
        files,
        MoeExpert::High,
        KeyLayout::Diffusers,
    )
}

/// Plans the deltas that the weights of one expert of a diffusers model take.
pub fn merge_vace_adapters_expert(
    weights: Vec<String>,
    files: &Vec<AdapterFile>,
    expert: MoeExpert,
) -> (r: (Vec<Fold>, WanLoraReport))
    ensures
        is_merge(Target::Weights(weights), files@, KeyLayout::Diffusers, expert, r.0@, r.1),
{
    merge_adapters_into(&Target::Weights(weights), files, expert, KeyLayout::Diffusers)
}

/// A shape as it is written in messages.
pub open spec fn shape_text(shape: Seq<usize>) -> Seq<char> {
    "["@ + joined(shape.map_values(|n: usize| decimal(n as nat)), ", "@) + "]"@
}

/// A shape as it is written in messages.
pub fn show_shape(shape: &Vec<usize>) -> (r: String)
    ensures
        r@ == shape_text(shape@),
{
    let mut parts: Vec<String> = Vec::new();
    let mut i: usize = 0;
    while i < shape.len()
        invariant
            i <= shape.len(),
            views(parts@) == shape@.map_values(|n: usize| decimal(n as nat)).take(i as int),
        decreases shape.len() - i,
    {
        let ghost before = views(parts@);
        parts.push(decimal_text(shape[i]));
        let ghost all = shape@.map_values(|n: usize| decimal(n as nat));
        assert(views(parts@) =~= before.push(all[i as int]));
        assert(all.take(i + 1) =~= all.take(i as int).push(all[i as int]));
        i += 1;
    }
    assert(views(parts@) =~= shape@.map_values(|n: usize| decimal(n as nat)));
    let list = join_with(&parts, ", ");
    join2("[", list.as_str()).concat("]")
}

/// The shape of a tensor of the file.
pub open spec fn shape_at(file: AdapterFile, k: usize) -> Seq<usize> {
    file.shapes@[k as int]@
}

/// Why a module's factors cannot be carried beside the weights: a factor that is no matrix, or one
/// of rank zero. `None` where they can, and for a module without both factors.
pub open spec fn factor_fault(
    file: AdapterFile,
    g: (Seq<char>, Option<usize>, Option<usize>, Option<usize>),
) -> Option<Seq<char>> {
    match (g.1, g.2) {
        (Some(down), Some(up)) => if shape_at(file, down).len() != 2 || shape_at(file, up).len()
            != 2 {
            Some(
                "wan additive LoRA at '"@ + g.0 + "' has non-2-D factors (down "@ + shape_text(
                    shape_at(file, down),
                ) + ", up "@ + shape_text(shape_at(file, up)) + ")"@,
            )
        } else if shape_at(file, down)[0] == 0 {
            Some("wan additive LoRA at '"@ + g.0 + "' has zero rank"@)
        } else {
            None
        },
        _ => None,
    }
}

/// The fault of the first of the first `n` groups that has one.
pub open spec fn first_fault(
    file: AdapterFile,
    groups: Seq<(Seq<char>, Option<usize>, Option<usize>, Option<usize>)>,
    n: nat,
) -> Option<Seq<char>>
    decreases n,
{
    if n == 0 {
        None
    } else {
        match first_fault(file, groups, (n - 1) as nat) {
            Some(e) => Some(e),
            None => factor_fault(file, groups[n - 1]),
        }
    }
}

/// The fault of a file: a low-rank file has that of its first faulty module.
pub open spec fn file_fault(layout: KeyLayout, file: AdapterFile) -> Option<Seq<char>> {
    if file.route_of() == Route::Lora {
        let groups = groups_of(layout, views(file.keys@));
        first_fault(file, groups, groups.len())
    } else {
        None
    }
}

/// The fault of the first of the first `n` files in `order` that has one.
pub open spec fn first_file_fault(
    layout: KeyLayout,
    files: Seq<AdapterFile>,
    order: Seq<usize>,
    n: nat,
) -> Option<Seq<char>>
    decreases n,
{
    if n == 0 {
        None
    } else {
        match first_file_fault(layout, files, order, (n - 1) as nat) {
            Some(e) => Some(e),
            None => file_fault(layout, files[order[n - 1] as int]),
        }
    }
}

/// A position that [`last_factor`] gives is one of the list.
proof fn lemma_last_factor_bound(
    layout: KeyLayout,
    keys: Seq<Seq<char>>,
    path: Seq<char>,
    role: Role,
)
    requires
        keys.len() <= usize::MAX,
    ensures
        last_factor(layout, keys, path, role) matches Some(i) ==> i < keys.len() && is_factor(
            layout,
            keys[i as int],
            path,
            role,
        ),
    decreases keys.len(),
{
    if keys.len() > 0 {
        lemma_last_factor_bound(layout, keys.drop_last(), path, role);
        if let Some(i) = last_factor(layout, keys.drop_last(), path, role) {
            assert(keys[i as int] == keys.drop_last()[i as int]);
        }
    }
}

/// Looks for a faulty module in a low-rank file.
fn check_factors(layout: KeyLayout, file: &AdapterFile) -> (r: Result<(), Error>)
    requires
        file.shapes@.len() == file.keys@.len(),
    ensures
        match r {
            Ok(()) => file_fault(layout, *file) is None,
            Err(e) => e is Msg && file_fault(layout, *file) == Some(e.text()),
        },
{
    if file.route() != Route::Lora {
        return Ok(());
    }
    let groups = group_factors(layout, &file.keys);
    let ghost gv = groups_of(layout, views(file.keys@));
    let count: usize = file.keys.len();
    proof {
        let kv = views(file.keys@);
        assert(kv.len() == count);
        assert(group_paths(groups@).len() == groups@.len());
        assert forall|k: int| 0 <= k < groups@.len() implies group_view(#[trigger] groups@[k])
            == gv[k] && (groups@[k].down matches Some(d) ==> d < count) && (
        groups@[k].up matches Some(u) ==> u < count) by {
            assert(group_paths(groups@)[k] == groups@[k].path@);
            assert(is_group(layout, kv, groups@[k]));
            lemma_last_factor_bound(layout, kv, groups@[k].path@, Role::Down);
            lemma_last_factor_bound(layout, kv, groups@[k].path@, Role::Up);
        }
    }
    let mut i: usize = 0;
    while i < groups.len()
        invariant
            i <= groups.len(),
            file.route_of() == Route::Lora,
            gv == groups_of(layout, views(file.keys@)),
            gv.len() == groups.len(),
            count == file.keys@.len(),
            file.shapes@.len() == count,
            forall|k: int|
                0 <= k < groups@.len() ==> group_view(#[trigger] groups@[k]) == gv[k] && (
                groups@[k].down matches Some(d) ==> d < count) && (groups@[k].up matches Some(u)
                    ==> u < count),
            first_fault(*file, gv, i as nat) is None,
        decreases groups.len() - i,
    {
        let g = &groups[i];
        let ghost view = group_view(groups@[i as int]);
        proof {
            assert(view == gv[i as int]);
            lemma_fault_stays(*file, gv, i as nat + 1, gv.len());
        }
        match (g.down, g.up) {
            (Some(down), Some(up)) => {
                let ds = &file.shapes[down];
                let us = &file.shapes[up];
                if ds.len() != 2 || us.len() != 2 {
                    let text = join2("wan additive LoRA at '", g.path.as_str()).concat(
                        "' has non-2-D factors (down ",
                    ).concat(show_shape(ds).as_str()).concat(", up ").concat(
                        show_shape(us).as_str(),
                    ).concat(")");
                    return Err(Error::Msg(text));
                }
                if ds[0] == 0 {
                    let text = join2("wan additive LoRA at '", g.path.as_str()).concat(
                        "' has zero rank",
                    );
                    return Err(Error::Msg(text));
                }
            },
            _ => {},
        }
        i += 1;
    }
    Ok(())
}

/// Once a group is faulty, the first fault does not change.
proof fn lemma_fault_stays(
    file: AdapterFile,
    groups: Seq<(Seq<char>, Option<usize>, Option<usize>, Option<usize>)>,
    m: nat,
    n: nat,
)
    requires
        m <= n,
    ensures
        first_fault(file, groups, m) is Some ==> first_fault(file, groups, n) == first_fault(
            file,
            groups,
            m,
        ),
    decreases n - m,
{
    if m < n {
        lemma_fault_stays(file, groups, m, (n - 1) as nat);
    }
}

/// Once a file is faulty, the first fault does not change.
proof fn lemma_file_fault_stays(
    layout: KeyLayout,
    files: Seq<AdapterFile>,
    order: Seq<usize>,
    m: nat,
    n: nat,
)
    requires
        m <= n,
    ensures
        first_file_fault(layout, files, order, m) is Some ==> first_file_fault(
            layout,
            files,
            order,
            n,
        ) == first_file_fault(layout, files, order, m),
    decreases n - m,
{
    if m < n {
        lemma_file_fault_stays(layout, files, order, m, (n - 1) as nat);
    }
}

/// Plans the deltas that one expert of a built model carries beside its weights, which stay as they
/// are. Factors that are no matrices, or have rank zero, are an error; a module that the model
/// lacks is left out.
pub fn apply_wan_adapters_additive(
    host: HostSurface,
    files: &Vec<AdapterFile>,
    expert: MoeExpert,
) -> (r: Result<(Vec<Fold>, WanLoraReport), Error>)
    requires
        forall|k: int|
            0 <= k < files.len() ==> (#[trigger] files@[k]).shapes@.len() == files@[k].keys@.len(),
    ensures
        ({
            let order = file_order(files@, expert);
            let fault = first_file_fault(KeyLayout::Native, files@, order, order.len());
            match r {
                Ok(plan) => {
                    &&& fault is None
                    &&& is_merge(
                        Target::Host(host),
                        files@,
                        KeyLayout::Native,
                        expert,
                        plan.0@,
                        plan.1,
                    )
                },
                Err(e) => e is Msg && fault == Some(e.text()),
            }
        }),
{
    let order = merge_order(files, expert);
    let count: usize = files.len();
    proof {
        assert(files@.len() == count);
        law_file_order(files@, expert);
    }
    let mut i: usize = 0;
    while i < order.len()
        invariant
            i <= order.len(),
            order@ == file_order(files@, expert),
            forall|k: int| 0 <= k < order.len() ==> #[trigger] order@[k] < files.len(),
            forall|k: int|
                0 <= k < files.len() ==> (#[trigger] files@[k]).shapes@.len()
                    == files@[k].keys@.len(),
            first_file_fault(KeyLayout::Native, files@, order@, i as nat) is None,
        decreases order.len() - i,
    {
        proof {
            lemma_file_fault_stays(
                KeyLayout::Native,
                files@,
                order@,
                i as nat + 1,
                order@.len(),
            );
        }
        match check_factors(KeyLayout::Native, &files[order[i]]) {
            Ok(()) => {},
            Err(e) => {
                return Err(e);
            },
        }
        i += 1;
    }
    Ok(merge_adapters_into(&Target::Host(host), files, expert, KeyLayout::Native))
}

/// How a Kronecker delta is carried.
#[derive(Debug, Clone, Copy, PartialEq, Eq, Structural)]
pub enum LokrForm {
    /// By its factors, so that packed weights stay packed and no full delta is formed.
    Structured,
    /// As a full delta beside dense weights.
    Materialized,
}

/// The explanation that a Kronecker delta without a factored form gets on packed weights.
pub open spec fn lokr_refusal(path: Seq<char>) -> Seq<char> {
    "LoKr at '"@ + path
        + "' uses a tucker/CP (conv) factorization that cannot be applied on a quantized (packed Q4/Q8) Wan tier without materializing the full delta — use the bf16 tier (where it merges into the dense weight). This form does not occur for the Wan DiT's Linear adapter targets (sc-10050 / epic 10043)."@
}

/// Chooses how a Kronecker delta is carried: by its factors on packed weights, where they have a
/// factored form, and in full on dense weights.
pub fn lokr_form(path: &str, packed: bool, deferrable: bool) -> (r: Result<LokrForm, Error>)
    ensures
        match r {
            Ok(form) => (packed ==> deferrable) && form == if packed {
                LokrForm::Structured
            } else {
                LokrForm::Materialized
            },
            Err(e) => packed && !deferrable && e is Msg && e.text() == lokr_refusal(path@),
        },
        is_lokr_form(r, packed, deferrable),
{
    if !packed {
        return Ok(LokrForm::Materialized);
    }
    if deferrable {
        return Ok(LokrForm::Structured);
    }
    Err(
        Error::Msg(
            join2("LoKr at '", path).concat(
                "' uses a tucker/CP (conv) factorization that cannot be applied on a quantized (packed Q4/Q8) Wan tier without materializing the full delta — use the bf16 tier (where it merges into the dense weight). This form does not occur for the Wan DiT's Linear adapter targets (sc-10050 / epic 10043).",
            ),
        ),
    )
}

/// The numerator and the denominator that scale a low-rank delta. The file's own `alpha` tensor
/// comes before the metadata's; without either the delta is not scaled. The metadata's rank comes
/// before the factor's.
pub fn lora_scaling<A: Copy>(
    tensor_alpha: Option<A>,
    meta_alpha: Option<A>,
    meta_rank: Option<u64>,
    factor_rank: u64,
) -> (r: (Option<A>, u64))
    ensures
        r.0 == if tensor_alpha is Some {
            tensor_alpha
        } else {
            meta_alpha
        },
        r.1 == match meta_rank {
            Some(n) => n,
            None => factor_rank,
        },
        is_scaling(r, tensor_alpha, meta_alpha, meta_rank, factor_rank),
{
    let alpha = match tensor_alpha {
        Some(a) => Some(a),
        None => meta_alpha,
    };
    let rank: u64 = match meta_rank {
        Some(n) => n,
        None => factor_rank,
    };
    (alpha, rank)
}

/// A module path as files write it that flatten module paths.
pub open spec fn flattened(path: Seq<char>) -> Seq<char> {
    replaced(path, "."@, "_"@)
}

/// The module that each flattened name stands for. Of the modules with one flattened name it stands
/// for the last.
pub open spec fn module_map(paths: Seq<Seq<char>>) -> Map<Seq<char>, Seq<char>>
    decreases paths.len(),
{
    if paths.len() == 0 {
        Map::empty()
    } else {
        module_map(paths.drop_last()).insert(flattened(paths.last()), paths.last())
    }
}

/// The modules of a weight map: what stands before `.weight` in the keys that end so, in the order of
/// the keys.
pub open spec fn weight_paths(keys: Seq<Seq<char>>) -> Seq<Seq<char>>
    decreases keys.len(),
{
    if keys.len() == 0 {
        seq![]
    } else {
        let head = weight_paths(keys.drop_last());
        if has_suffix(keys.last(), ".weight"@) {
            head.push(without_suffix(keys.last(), ".weight"@))
        } else {
            head
        }
    }
}

/// The entries of a table, by their contents.
pub open spec fn pair_views(v: Seq<(String, String)>) -> Seq<(Seq<char>, Seq<char>)> {
    v.map_values(|p: (String, String)| (p.0@, p.1@))
}

/// The names of a table's entries.
pub open spec fn entry_names(t: Seq<(Seq<char>, Seq<char>)>) -> Seq<Seq<char>> {
    Seq::new(t.len(), |k: int| t[k].0)
}

/// Whether a list holds the entries of a map in the order of their names, each name once.
pub open spec fn is_table(
    t: Seq<(Seq<char>, Seq<char>)>,
    m: Map<Seq<char>, Seq<char>>,
) -> bool {
    &&& ascending(entry_names(t))
    &&& forall|k: int|
        0 <= k < t.len() ==> m.contains_key((#[trigger] t[k]).0) && m[t[k].0] == t[k].1
    &&& forall|name: Seq<char>| #[trigger] m.contains_key(name) ==> entry_names(t).contains(name)
}

/// The first entry whose name does not come before `name`.
fn entry_position(table: &Vec<(String, String)>, name: &str) -> (r: usize)
    ensures
        r <= table.len(),
        forall|k: int|
            0 <= k < r ==> text_lt(#[trigger] entry_names(pair_views(table@))[k], name@),
        r < table.len() ==> !text_lt(entry_names(pair_views(table@))[r as int], name@),
{
    let mut i: usize = 0;
    while i < table.len() && text_less(table[i].0.as_str(), name)
        invariant
            i <= table.len(),
            forall|k: int|
                0 <= k < i ==> text_lt(#[trigger] entry_names(pair_views(table@))[k], name@),
        decreases table.len() - i,
    {
        i += 1;
    }
    i
}

/// Puts a module into the table under its flattened name, in place of the one that was there.
fn put_module(table: &mut Vec<(String, String)>, path: String, Ghost(paths): Ghost<Seq<Seq<char>>>)
    requires
        is_table(pair_views(old(table)@), module_map(paths)),
    ensures
        is_table(pair_views(final(table)@), module_map(paths.push(path@))),
{
    proof {
        reveal_strlit(".");
        assert(paths.push(path@).drop_last() =~= paths);
    }
    let name = replace(path.as_str(), ".", "_");
    let ghost (n, p) = (name@, path@);
    let at = entry_position(table, name.as_str());
    let ghost before = pair_views(table@);
    let ghost names = entry_names(before);
    proof {
        lemma_inserted_at(names, n, at as int);
        lemma_inserted(names, n);
    }
    let known = at < table.len() && same_text(table[at].0.as_str(), name.as_str());
    if known {
        table.set(at, (name, path));
        assert(pair_views(table@) =~= before.update(at as int, (n, p)));
    } else {
        table.insert(at, (name, path));
        assert(pair_views(table@) =~= before.insert(at as int, (n, p)));
    }
    proof {
        let after = pair_views(table@);
        let m = module_map(paths.push(p));
        assert(entry_names(after) =~= inserted(names, n));
        assert forall|k: int| 0 <= k < after.len() implies m.contains_key((#[trigger] after[k]).0)
            && m[after[k].0] == after[k].1 by {
            if k != at {
                let o = if known || k < at {
                    k
                } else {
                    k - 1
                };
                assert(after[k] == before[o]);
                assert(entry_names(after)[k] == after[k].0);
                assert(entry_names(after)[at as int] == n);
                lemma_text_lt_irreflexive(n);
            }
        }
        assert forall|q: Seq<char>| #[trigger] m.contains_key(q) implies entry_names(
            after,
        ).contains(q) by {
            if q != n {
                assert(module_map(paths).contains_key(q));
            }
        }
    }
}

/// The modules of a weight map by their flattened names.
pub fn wan_module_table(keys: &Vec<String>) -> (r: Vec<(String, String)>)
    ensures
        is_table(pair_views(r@), module_map(weight_paths(views(keys@)))),
{
    let mut out: Vec<(String, String)> = Vec::new();
    let mut i: usize = 0;
    while i < keys.len()
        invariant
            i <= keys.len(),
            is_table(pair_views(out@), module_map(weight_paths(views(keys@).take(i as int)))),
        decreases keys.len() - i,
    {
        let ghost paths = weight_paths(views(keys@).take(i as int));
        proof {
            let next = views(keys@).take(i + 1);
            assert(next.drop_last() =~= views(keys@).take(i as int));
            assert(next.last() == keys@[i as int]@);
        }
        if let Some(path) = strip_suffix(keys[i].as_str(), ".weight") {
            put_module(&mut out, path, Ghost(paths));
        }
        i += 1;
    }
    assert(views(keys@).take(i as int) =~= views(keys@));
    out
}

/// The modules of a built model by their flattened names.
pub fn host_module_table(paths: &Vec<String>) -> (r: Vec<(String, String)>)
    ensures
        is_table(pair_views(r@), module_map(views(paths@))),
{
    let mut out: Vec<(String, String)> = Vec::new();
    let mut i: usize = 0;
    while i < paths.len()
        invariant
            i <= paths.len(),
            is_table(pair_views(out@), module_map(views(paths@).take(i as int))),
        decreases paths.len() - i,
    {
        let ghost before = views(paths@).take(i as int);
        put_module(&mut out, paths[i].clone(), Ghost(before));
        assert(views(paths@).take(i + 1) =~= before.push(paths@[i as int]@));
        i += 1;
    }
    assert(views(paths@).take(i as int) =~= views(paths@));
    out
}

/// A flattened name stands for the last of the modules that have it, and only names of modules stand
/// for one.
pub proof fn law_last_module_stays(paths: Seq<Seq<char>>, name: Seq<char>)
    ensures
        module_map(paths).contains_key(name) <==> exists|i: int|
            0 <= i < paths.len() && flattened(#[trigger] paths[i]) == name,
        forall|i: int|
            0 <= i < paths.len() && flattened(#[trigger] paths[i]) == name && (forall|j: int|
                i < j < paths.len() ==> flattened(#[trigger] paths[j]) != name)
                ==> module_map(paths)[name] == paths[i],
    decreases paths.len(),
{
    if paths.len() > 0 {
        let head = paths.drop_last();
        let last = paths.len() - 1;
        law_last_module_stays(head, name);
        if flattened(paths[last]) != name {
            if module_map(head).contains_key(name) {
                let i = choose|i: int| 0 <= i < head.len() && flattened(#[trigger] head[i]) == name;
                assert(flattened(paths[i]) == name);
            }
            assert forall|i: int|
                0 <= i < paths.len() && flattened(#[trigger] paths[i]) == name && (forall|j: int|
                    i < j < paths.len() ==> flattened(#[trigger] paths[j])
                        != name) implies module_map(paths)[name] == paths[i] by {
                assert(head[i] == paths[i]);
                assert forall|j: int| i < j < head.len() implies flattened(#[trigger] head[j])
                    != name by {
                    assert(head[j] == paths[j]);
                }
            }
            assert forall|i: int| 0 <= i < paths.len() && flattened(#[trigger] paths[i])
                == name implies module_map(paths).contains_key(name) by {
                assert(head[i] == paths[i]);
            }
        } else {
            assert(flattened(paths[last]) == name);
        }
    }
}

/// A table holds no flattened name twice, and the lists of two tables of one map are the same list.
pub proof fn law_table_is_determined(
    a: Seq<(Seq<char>, Seq<char>)>,
    b: Seq<(Seq<char>, Seq<char>)>,
    m: Map<Seq<char>, Seq<char>>,
)
    requires
        is_table(a, m),
        is_table(b, m),
    ensures
        forall|i: int, j: int| 0 <= i < j < a.len() ==> (#[trigger] a[i]).0 != (#[trigger] a[j]).0,
        a == b,
{
    assert forall|i: int, j: int| 0 <= i < j < a.len() implies (#[trigger] a[i]).0 != (
    #[trigger] a[j]).0 by {
        assert(text_lt(entry_names(a)[i], entry_names(a)[j]));
        lemma_text_lt_irreflexive(a[i].0);
    }
    let (an, bn) = (entry_names(a), entry_names(b));
    assert forall|q: Seq<char>| an.contains(q) <==> bn.contains(q) by {
        if an.contains(q) {
            let k = choose|k: int| 0 <= k < an.len() && an[k] == q;
            assert(m.contains_key(a[k].0));
        }
        if bn.contains(q) {
            let k = choose|k: int| 0 <= k < bn.len() && bn[k] == q;
            assert(m.contains_key(b[k].0));
        }
    }
    lemma_same_texts(an, bn);
    assert(entry_names(a).len() == a.len() && entry_names(b).len() == b.len());
    assert forall|k: int| 0 <= k < a.len() implies a[k] == b[k] by {
        assert(entry_names(a)[k] == entry_names(b)[k]);
    }
    assert(a =~= b);
}

/// No module that a file offers goes missing: each is either taken or reported as left out.
pub proof fn law_no_module_is_dropped(
    target: Target,
    file: usize,
    offered: Seq<(Seq<char>, Option<Delta>)>,
)
    ensures
        taken(target, file, offered).len() + left_out(target, offered).len() == offered.len(),
    decreases offered.len(),
{
    if offered.len() > 0 {
        law_no_module_is_dropped(target, file, offered.drop_last());
    }
}

/// A weight map and a built model that have the same modules take the same deltas from a file and
/// leave out the same modules.
pub proof fn law_fold_and_additive_agree(
    a: Target,
    b: Target,
    file: usize,
    offered: Seq<(Seq<char>, Option<Delta>)>,
)
    requires
        forall|p: Seq<char>| a.has_module(p) == #[trigger] b.has_module(p),
    ensures
        taken(a, file, offered) == taken(b, file, offered),
        left_out(a, offered) == left_out(b, offered),
    decreases offered.len(),
{
    if offered.len() > 0 {
        law_fold_and_additive_agree(a, b, file, offered.drop_last());
        assert(a.has_module(offered.last().0) == b.has_module(offered.last().0));
    }
}

/// The names of a block's layers hold no `m` and no `x`, and behind an `n` and a dot comes no digit.
proof fn lemma_site_path_letters(i: nat, site: BlockSite)
    ensures
        forall|j: int|
            0 <= j < site_path(i, site).len() ==> (#[trigger] site_path(i, site)[j]) != 'm'
                && site_path(i, site)[j] != 'x',
        forall|j: int|
            0 <= j && j + 2 < site_path(i, site).len() && #[trigger] site_path(i, site)[j] == 'n'
                && site_path(i, site)[j + 1] == '.' ==> site_path(i, site)[j + 2] != '0'
                && site_path(i, site)[j + 2] != '2',
        site_path(i, site).len() > 1,
        site_path(i, site)[0] == 'b',
        site_path(i, site)[1] == 'l',
{
    reveal_strlit("blocks.");
    reveal_strlit(".");
    reveal_strlit("self_attn");
    reveal_strlit("cross_attn");
    reveal_strlit("ffn");
    reveal_strlit("fc1");
    reveal_strlit("fc2");
    reveal_strlit("q");
    reveal_strlit("k");
    reveal_strlit("v");
    reveal_strlit("o");
    let d = decimal(i);
    lemma_decimal(i);
    let a = site_parts(site)[0];
    let b = site_parts(site)[1];
    let head = "blocks."@ + d + "."@;
    let path = site_path(i, site);
    let n = head.len();
    let m = a.len() as int;
    assert(path =~= head + a + "."@ + b);
    assert forall|j: int| 0 <= j < n implies #[trigger] path[j] == head[j] by {}
    assert forall|j: int| 0 <= j < m implies #[trigger] path[n + j] == a[j] by {}
    assert(path[n + m] == '.');
    assert forall|j: int| 0 <= j < b.len() implies #[trigger] path[n + m + 1 + j] == b[j] by {}
    assert forall|j: int| 0 <= j < n implies (#[trigger] head[j]) != 'm' && head[j] != 'x'
        && head[j] != 'n' by {
        if 7 <= j < 7 + d.len() {
            assert(head[j] == d[j - 7]);
            assert(is_digit(d[j - 7]));
        }
    }
    assert forall|j: int| 0 <= j < m implies (#[trigger] a[j]) != 'm' && a[j] != 'x' && (a[j] == 'n'
        ==> j == m - 1) by {}
    assert forall|j: int| 0 <= j < b.len() implies (#[trigger] b[j]) != 'm' && b[j] != 'x' && b[j]
        != 'n' by {}
    assert(b[0] != '0' && b[0] != '2');
    assert forall|j: int| 0 <= j < path.len() implies (#[trigger] path[j]) != 'm' && path[j] != 'x'
        && (path[j] == 'n' ==> j == n + m - 1) by {
        if j < n {
            assert(path[j] == head[j]);
        } else if j < n + m {
            assert(path[n + (j - n)] == a[j - n]);
        } else if j > n + m {
            assert(path[n + m + 1 + (j - n - m - 1)] == b[j - n - m - 1]);
        }
    }
    assert(path[n + m + 1 + 0] == b[0]);
    assert(path[0] == head[0] && path[1] == head[1]);
}

/// A text without the letter `c` holds no text that has it.
proof fn lemma_letter_absent(s: Seq<char>, pat: Seq<char>, c: char, k: int)
    requires
        forall|j: int| 0 <= j < s.len() ==> #[trigger] s[j] != c,
        0 <= k < pat.len(),
        pat[k] == c,
    ensures
        !has_text(s, pat),
{
    if has_text(s, pat) {
        let i = choose|i: int| occurs_at(s, pat, i);
        assert(s.subrange(i, i + pat.len())[k] == pat[k]);
        assert(s[i + k] == c);
    }
}

/// The names that the model lists for its layers are native names: the key map leaves them as they
/// are, so that an adapter that was saved under them finds its modules again.
pub proof fn law_listed_paths_are_native(blocks: nat, k: int)
    requires
        0 <= k < blocks * 10,
    ensures
        wan_key(listed_paths(blocks)[k]) == listed_paths(blocks)[k],
{
    let s = listed_paths(blocks)[k];
    let i = (k / 10) as nat;
    let site = sites_in_order()[k % 10];
    lemma_site_path_letters(i, site);
    reveal_strlit("model.diffusion_model.");
    reveal_strlit("diffusion_model.");
    reveal_strlit("base_model.model.");
    reveal_strlit("model.");
    reveal_strlit(".ffn.0");
    reveal_strlit(".ffn.2");
    reveal_strlit("text_embedding.0");
    reveal_strlit("text_embedding.2");
    reveal_strlit("time_embedding.0");
    reveal_strlit("time_embedding.2");
    reveal_strlit("time_projection.1");
    reveal_strlit("patch_embedding");
    let p = key_prefixes();
    assert forall|j: int| 0 <= j < 4 implies !has_prefix(s, #[trigger] p[j]) by {
        if has_prefix(s, p[j]) {
            assert(s.subrange(0, p[j].len() as int)[0] == p[j][0]);
            assert(s.subrange(0, p[j].len() as int)[1] == p[j][1]);
        }
    }
    assert(unprefixed(s) == s);
    let w = wan_spellings();
    assert forall|j: int| 0 <= j < w.len() implies !has_text(unprefixed(s), #[trigger] w[j]) by {
        if j < 2 {
            if has_text(s, w[j]) {
                let at = choose|at: int| occurs_at(s, w[j], at);
                assert(s.subrange(at, at + w[j].len())[3] == w[j][3]);
                assert(s.subrange(at, at + w[j].len())[4] == w[j][4]);
                assert(s.subrange(at, at + w[j].len())[5] == w[j][5]);
                assert(s[at + 3] == 'n' && s[at + 3 + 1] == '.');
            }
        } else if j < 4 {
            assert(w[j][2] == 'x');
            lemma_letter_absent(s, w[j], 'x', 2);
        } else if j < 7 {
            assert(w[j][2] == 'm');
            lemma_letter_absent(s, w[j], 'm', 2);
        } else {
            assert(w[j][7] == 'm');
            lemma_letter_absent(s, w[j], 'm', 7);
        }
    }
    law_wan_key_passes_through(s);
}

/// Whether a delta is scaled by its alpha over its rank.
pub open spec fn is_scaling<A>(
    r: (Option<A>, u64),
    tensor_alpha: Option<A>,
    meta_alpha: Option<A>,
    meta_rank: Option<u64>,
    factor_rank: u64,
) -> bool {
    &&& r.0 == if tensor_alpha is Some {
        tensor_alpha
    } else {
        meta_alpha
    }
    &&& r.1 == match meta_rank {
        Some(n) => n,
        None => factor_rank,
    }
}

/// The alpha of a module comes before that of its file, and the rank that the file tells before that of the
/// factors.
pub proof fn law_alpha_of_the_module_comes_first<A>(
    r: (Option<A>, u64),
    tensor_alpha: Option<A>,
    meta_alpha: Option<A>,
    meta_rank: Option<u64>,
    factor_rank: u64,
    a: A,
    n: u64,
)
    requires
        is_scaling(r, tensor_alpha, meta_alpha, meta_rank, factor_rank),
    ensures
        tensor_alpha == Some(a) ==> r.0 == Some(a),
        tensor_alpha is None ==> r.0 == meta_alpha,
        meta_rank == Some(n) ==> r.1 == n,
        meta_rank is None ==> r.1 == factor_rank,
{
}

/// Whether a Kronecker delta has its form.
pub open spec fn is_lokr_form(r: Result<LokrForm, Error>, packed: bool, deferrable: bool) -> bool {
    match r {
        Ok(form) => (packed ==> deferrable) && form == if packed {
            LokrForm::Structured
        } else {
            LokrForm::Materialized
        },
        Err(_) => packed && !deferrable,
    }
}

/// A Kronecker delta is never materialized beside packed weights: it is kept in its factors, or refused where
/// it cannot be. Into other weights it is folded whatever its form.
pub proof fn law_kronecker_deltas_stay_small_beside_packed_weights(
    r: Result<LokrForm, Error>,
    packed: bool,
    deferrable: bool,
)
    requires
        is_lokr_form(r, packed, deferrable),
    ensures
        packed ==> (r is Ok <==> deferrable),
        packed && r is Ok ==> r->Ok_0 == LokrForm::Structured,
        !packed ==> r is Ok && r->Ok_0 == LokrForm::Materialized,
{
}

} // verus!
