//! The names of a transformer's layers in the checkpoints: native, diffusers, and converted. The laws say
//! how the maps between these names agree.

use vstd::prelude::*;
use crate::adapters::{
    attention_renamed, key_prefixes, law_namespace_is_irrelevant, lemma_pair_absent, lemma_rename_absent, pair_renamed, patch_renamed, renamed,
    unprefixed, vace_blocks_renamed, vace_key, vace_roots_renamed, wan_key, wan_roots_renamed,
};
use crate::convert::{
    block_attention_renamed, block_renamed, condition_renamed, diffusers_key, planned_entry, Entry,
    Source,
};
use crate::text::{
    decimal, has_prefix, has_suffix, has_text, is_digit, lemma_decimal, lemma_replaced_absent,
    occurs_at, replaced, without_suffix,
};

verus! {

/// What stands behind the name of a layer: nothing, or the name of its weight.
pub open spec fn ending(weight: bool) -> Seq<char> {
    if weight {
        ".weight"@
    } else {
        seq![]
    }
}

/// Whether every dot in front of a layer's name has a digit behind it, as in `blocks.7`.
spec fn numbered(pre: Seq<char>) -> bool {
    forall|i: int|
        0 <= i < pre.len() && #[trigger] pre[i] == '.' ==> i + 1 < pre.len() && is_digit(pre[i + 1])
}

/// Whether a spelling begins a new part of a path that is no number.
spec fn dotted(p: Seq<char>) -> bool {
    p.len() >= 2 && p[0] == '.' && !is_digit(p[1])
}

/// Whether a spelling neither reaches into `.weight` nor is a part of it.
spec fn plain(p: Seq<char>) -> bool {
    &&& p.len() >= 2
    &&& p.contains('.')
    &&& !p.contains('w')
    &&& p.last() != '.'
    &&& p.last() != 't'
}

/// A character of a spelling that a text lacks.
proof fn lemma_lacking(s: Seq<char>, p: Seq<char>, c: char)
    requires
        p.contains(c),
        !s.contains(c),
    ensures
        !has_text(s, p),
{
    if has_text(s, p) {
        let i = choose|i: int| occurs_at(s, p, i);
        let k = choose|k: int| 0 <= k < p.len() && p[k] == c;
        assert(s.subrange(i, i + p.len())[k] == s[i + k]);
        assert(s.contains(s[i + k]));
    }
}

/// Of two different texts that are as long, neither holds the other.
proof fn lemma_as_long(s: Seq<char>, p: Seq<char>)
    requires
        s.len() == p.len(),
        s != p,
    ensures
        !has_text(s, p),
{
    if has_text(s, p) {
        let i = choose|i: int| occurs_at(s, p, i);
        assert(s.subrange(i, i + p.len()) =~= s);
    }
}

/// An ending adds no spelling that the stem does not hold.
proof fn lemma_absent_ending(stem: Seq<char>, weight: bool, p: Seq<char>)
    requires
        plain(p),
        !has_text(stem, p),
    ensures
        !has_text(stem + ending(weight), p),
{
    reveal_strlit(".weight");
    let s = stem + ending(weight);
    if has_text(s, p) {
        let i = choose|i: int| occurs_at(s, p, i);
        assert forall|k: int| 0 <= k < p.len() implies s[i + k] == #[trigger] p[k] by {
            assert(s.subrange(i, i + p.len())[k] == s[i + k]);
        }
        if i + p.len() <= stem.len() {
            assert(stem.subrange(i, i + p.len()) =~= s.subrange(i, i + p.len()));
            assert(occurs_at(stem, p, i));
        } else if i > stem.len() {
            let k = choose|k: int| 0 <= k < p.len() && p[k] == '.';
            assert(s[i + k] == p[k]);
            assert(s[i + k] == ".weight"@[i + k - stem.len()]);
            assert(false);
        } else {
            let k = stem.len() - i;
            assert(s[i + k] == p[k]);
            if k + 1 < p.len() {
                assert(s[i + (k + 1)] == p[k + 1]);
                assert(p.contains('w'));
            } else {
                assert(p.last() == '.');
            }
            assert(false);
        }
    }
}

/// A spelling that begins a part stands behind the number.
proof fn lemma_behind(pre: Seq<char>, rest: Seq<char>, p: Seq<char>, i: int)
    requires
        numbered(pre),
        dotted(p) || pre.len() == 0,
        occurs_at(pre + rest, p, i),
    ensures
        i >= pre.len(),
        occurs_at(rest, p, i - pre.len()),
{
    let s = pre + rest;
    if pre.len() > 0 && i < pre.len() {
        assert(s.subrange(i, i + p.len())[0] == s[i]);
        assert(s.subrange(i, i + p.len())[1] == s[i + 1]);
        assert(pre[i] == '.');
        assert(pre[i + 1] == s[i + 1]);
    }
    assert(rest.subrange(i - pre.len(), i - pre.len() + p.len()) =~= s.subrange(i, i + p.len()));
}

/// A spelling that a layer's name does not hold does not stand in its key.
proof fn lemma_absent(pre: Seq<char>, stem: Seq<char>, weight: bool, p: Seq<char>)
    requires
        numbered(pre),
        dotted(p) || pre.len() == 0,
        plain(p),
        !has_text(stem, p),
    ensures
        !has_text(pre + (stem + ending(weight)), p),
{
    lemma_absent_ending(stem, weight, p);
    let rest = stem + ending(weight);
    if has_text(pre + rest, p) {
        let i = choose|i: int| occurs_at(pre + rest, p, i);
        lemma_behind(pre, rest, p, i);
    }
}

/// Replacing a text that occurs once.
pub proof fn lemma_replaced_once(pre: Seq<char>, from: Seq<char>, post: Seq<char>, to: Seq<char>)
    requires
        from.len() > 0,
        forall|i: int| 0 <= i < pre.len() ==> !occurs_at(pre + (from + post), from, i),
        !has_text(post, from),
    ensures
        replaced(pre + (from + post), from, to) == pre + (to + post),
    decreases pre.len(),
{
    let s = pre + (from + post);
    if pre.len() == 0 {
        assert(s =~= from + post);
        assert(s.subrange(0, from.len() as int) =~= from);
        assert(s.skip(from.len() as int) =~= post);
        lemma_replaced_absent(post, from, to);
        assert(pre + (to + post) =~= to + post);
    } else {
        let rest = pre.skip(1);
        let t = rest + (from + post);
        assert(s.skip(1) =~= t);
        assert forall|i: int| 0 <= i < rest.len() implies !occurs_at(t, from, i) by {
            if occurs_at(t, from, i) {
                assert(s.subrange(i + 1, i + 1 + from.len()) =~= t.subrange(i, i + from.len()));
                assert(occurs_at(s, from, i + 1));
            }
        }
        lemma_replaced_once(rest, from, post, to);
        assert(!occurs_at(s, from, 0));
        assert(seq![s[0]] + (rest + (to + post)) =~= pre + (to + post));
    }
}

/// A layer under its key is renamed, with its weight's name behind it or without.
proof fn lemma_hit(pre: Seq<char>, weight: bool, from: Seq<char>, to: Seq<char>)
    requires
        numbered(pre),
        dotted(from) || pre.len() == 0,
        plain(from),
    ensures
        renamed(pre + (from + ending(weight)), from, to) == pre + (to + ending(weight)),
        replaced(pre + (from + ending(weight)), from + "."@, to + "."@) == if weight {
            pre + (to + ending(weight))
        } else {
            pre + (from + ending(weight))
        },
{
    reveal_strlit(".");
    reveal_strlit(".weight");
    reveal_strlit("weight");
    let s = pre + (from + ending(weight));
    let f = from + "."@;
    let t = to + "."@;
    let r = pre + (to + ending(weight));
    if weight {
        assert(from + ".weight"@ =~= f + "weight"@);
        assert(to + ".weight"@ =~= t + "weight"@);
        assert forall|i: int| 0 <= i < pre.len() implies !occurs_at(pre + (f + "weight"@), f, i) by {
            if occurs_at(pre + (f + "weight"@), f, i) {
                lemma_behind(pre, f + "weight"@, f, i);
            }
        }
        assert(f[from.len() as int] == '.');
        lemma_lacking("weight"@, f, '.');
        lemma_replaced_once(pre, f, "weight"@, t);
        assert(r.last() == 't');
        if has_suffix(r, from) {
            assert(r.subrange(r.len() - from.len(), r.len() as int).last() == r.last());
        }
    } else {
        assert(s =~= pre + from);
        assert(from + ending(weight) =~= from);
        if has_text(s, f) {
            let i = choose|i: int| occurs_at(s, f, i);
            assert(dotted(from) ==> dotted(f));
            lemma_behind(pre, from + ending(weight), f, i);
        }
        lemma_replaced_absent(s, f, t);
        assert(s.subrange(s.len() - from.len(), s.len() as int) =~= from);
        assert(without_suffix(s, from) =~= pre);
        assert(r =~= pre + to);
    }
}

/// The first of two layers is renamed.
proof fn lemma_first(
    pre: Seq<char>,
    weight: bool,
    f0: Seq<char>,
    t0: Seq<char>,
    f2: Seq<char>,
    t2: Seq<char>,
)
    requires
        numbered(pre),
        dotted(f0) && dotted(f2) || pre.len() == 0,
        plain(f0),
        plain(f2),
        !has_text(f0, f2),
        !has_text(t0, f2),
    ensures
        pair_renamed(pre + (f0 + ending(weight)), f0, t0, f2, t2) == pre + (t0 + ending(weight)),
{
    let s = pre + (f0 + ending(weight));
    let r = pre + (t0 + ending(weight));
    lemma_hit(pre, weight, f0, t0);
    lemma_absent(pre, f0, weight, f2);
    lemma_absent(pre, t0, weight, f2);
    let a = replaced(s, f0 + "."@, t0 + "."@);
    lemma_rename_absent(a, f2, t2);
    lemma_rename_absent(r, f2, t2);
}

/// The second of two layers is renamed.
proof fn lemma_second(
    pre: Seq<char>,
    weight: bool,
    f0: Seq<char>,
    t0: Seq<char>,
    f2: Seq<char>,
    t2: Seq<char>,
)
    requires
        numbered(pre),
        dotted(f0) && dotted(f2) || pre.len() == 0,
        plain(f0),
        plain(f2),
        !has_text(f2, f0),
        !has_text(t2, f0),
    ensures
        pair_renamed(pre + (f2 + ending(weight)), f0, t0, f2, t2) == pre + (t2 + ending(weight)),
{
    let s = pre + (f2 + ending(weight));
    lemma_hit(pre, weight, f2, t2);
    lemma_absent(pre, f2, weight, f0);
    lemma_absent(pre, t2, weight, f0);
    lemma_rename_absent(s, f0, t0);
    let b = replaced(s, f2 + "."@, t2 + "."@);
    lemma_rename_absent(b, f0, t0);
}

/// A projection of an attention.
#[derive(Debug, Clone, Copy, PartialEq, Eq, Structural)]
pub enum Projection {
    Query,
    Key,
    Value,
    Output,
}

/// A layer of a block. The last two stand in control blocks only.
#[derive(Debug, Clone, Copy, PartialEq, Eq, Structural)]
pub enum BlockLayer {
    SelfAttention { of: Projection },
    CrossAttention { of: Projection },
    FeedForwardIn,
    FeedForwardOut,
    ControlIn,
    ControlOut,
}

/// A projection's native name.
pub open spec fn native_projection(p: Projection) -> Seq<char> {
    match p {
        Projection::Query => ".q"@,
        Projection::Key => ".k"@,
        Projection::Value => ".v"@,
        Projection::Output => ".o"@,
    }
}

/// A projection's name in a diffusers checkpoint.
pub open spec fn diffusers_projection(p: Projection) -> Seq<char> {
    match p {
        Projection::Query => ".to_q"@,
        Projection::Key => ".to_k"@,
        Projection::Value => ".to_v"@,
        Projection::Output => ".to_out.0"@,
    }
}

/// A block layer's native name.
pub open spec fn native_layer(l: BlockLayer) -> Seq<char> {
    match l {
        BlockLayer::SelfAttention { of } => ".self_attn"@ + native_projection(of),
        BlockLayer::CrossAttention { of } => ".cross_attn"@ + native_projection(of),
        BlockLayer::FeedForwardIn => ".ffn.0"@,
        BlockLayer::FeedForwardOut => ".ffn.2"@,
        BlockLayer::ControlIn => ".before_proj"@,
        BlockLayer::ControlOut => ".after_proj"@,
    }
}

/// A block layer's name in a diffusers checkpoint.
pub open spec fn diffusers_layer(l: BlockLayer) -> Seq<char> {
    match l {
        BlockLayer::SelfAttention { of } => ".attn1"@ + diffusers_projection(of),
        BlockLayer::CrossAttention { of } => ".attn2"@ + diffusers_projection(of),
        BlockLayer::FeedForwardIn => ".ffn.net.0.proj"@,
        BlockLayer::FeedForwardOut => ".ffn.net.2"@,
        BlockLayer::ControlIn => ".proj_in"@,
        BlockLayer::ControlOut => ".proj_out"@,
    }
}

/// A block: one of the main stack, or one of the control stack.
pub open spec fn block(control: bool, n: nat) -> Seq<char> {
    if control {
        "vace_blocks."@ + decimal(n)
    } else {
        "blocks."@ + decimal(n)
    }
}

/// The spellings of a block's native layers are parts of a path that no ending completes.
proof fn lemma_block_spellings()
    ensures
        dotted(".self_attn"@) && plain(".self_attn"@),
        dotted(".cross_attn"@) && plain(".cross_attn"@),
        dotted(".ffn.0"@) && plain(".ffn.0"@),
        dotted(".ffn.2"@) && plain(".ffn.2"@),
        dotted(".before_proj"@) && plain(".before_proj"@),
        dotted(".after_proj"@) && plain(".after_proj"@),
{
    reveal_strlit(".self_attn");
    reveal_strlit(".cross_attn");
    reveal_strlit(".ffn.0");
    reveal_strlit(".ffn.2");
    reveal_strlit(".before_proj");
    reveal_strlit(".after_proj");
    assert(".self_attn"@[0] == '.');
    assert(".cross_attn"@[0] == '.');
    assert(".ffn.0"@[0] == '.');
    assert(".ffn.2"@[0] == '.');
    assert(".before_proj"@[0] == '.');
    assert(".after_proj"@[0] == '.');
}

/// What follows a spelling makes it no more likely to occur.
proof fn lemma_longer(s: Seq<char>, p: Seq<char>, more: Seq<char>)
    requires
        !has_text(s, p),
    ensures
        !has_text(s, p + more),
{
    if has_text(s, p + more) {
        let i = choose|i: int| occurs_at(s, p + more, i);
        assert(s.subrange(i, i + p.len()) =~= (p + more).subrange(0, p.len() as int)) by {
            assert forall|k: int| 0 <= k < p.len() implies s[i + k] == (p + more)[k] by {
                assert(s.subrange(i, i + (p + more).len())[k] == s[i + k]);
            }
        }
        assert((p + more).subrange(0, p.len() as int) =~= p);
        assert(occurs_at(s, p, i));
    }
}

/// A key without an attention keeps its name.
proof fn lemma_attention_absent(s: Seq<char>, from: Seq<char>, to: Seq<char>)
    requires
        !has_text(s, from),
    ensures
        attention_renamed(s, from, to) == s,
{
    lemma_longer(s, from, ".q"@);
    lemma_longer(s, from, ".k"@);
    lemma_longer(s, from, ".v"@);
    lemma_longer(s, from, ".o"@);
    lemma_rename_absent(s, from + ".q"@, to + ".to_q"@);
    lemma_rename_absent(s, from + ".k"@, to + ".to_k"@);
    lemma_rename_absent(s, from + ".v"@, to + ".to_v"@);
    lemma_rename_absent(s, from + ".o"@, to + ".to_out.0"@);
}

/// The spelling of a projection is a part of a path that no ending completes.
proof fn lemma_projection_spelling(from: Seq<char>, p: Projection)
    requires
        dotted(from),
        plain(from),
    ensures
        dotted(from + native_projection(p)),
        plain(from + native_projection(p)),
        native_projection(p).len() == 2,
{
    reveal_strlit(".q");
    reveal_strlit(".k");
    reveal_strlit(".v");
    reveal_strlit(".o");
    let s = from + native_projection(p);
    assert(s[0] == '.');
    assert(!s.contains('w')) by {
        if s.contains('w') {
            let k = choose|k: int| 0 <= k < s.len() && s[k] == 'w';
            if k < from.len() {
                assert(from.contains(from[k]));
            }
        }
    }
}

/// Another projection's rename leaves a native key, and a key that is renamed, as they are.
#[verifier::spinoff_prover]
proof fn lemma_other_projection(
    pre: Seq<char>,
    weight: bool,
    from: Seq<char>,
    to: Seq<char>,
    p: Projection,
    other: Projection,
    new: Seq<char>,
)
    requires
        numbered(pre),
        dotted(from),
        plain(from),
        from.contains('s'),
        !to.contains('s'),
        p != other,
    ensures
        ({
            let s = pre + (from + native_projection(p) + ending(weight));
            renamed(s, from + native_projection(other), new) == s
        }),
        ({
            let s = pre + (to + diffusers_projection(p) + ending(weight));
            renamed(s, from + native_projection(other), new) == s
        }),
{
    reveal_strlit(".q");
    reveal_strlit(".k");
    reveal_strlit(".v");
    reveal_strlit(".o");
    reveal_strlit(".to_q");
    reveal_strlit(".to_k");
    reveal_strlit(".to_v");
    reveal_strlit(".to_out.0");
    let x = from + native_projection(other);
    let a = from + native_projection(p);
    let b = to + diffusers_projection(p);
    lemma_projection_spelling(from, p);
    lemma_projection_spelling(from, other);
    assert(a.last() == native_projection(p)[1] && x.last() == native_projection(other)[1]);
    lemma_as_long(a, x);
    lemma_absent(pre, a, weight, x);
    lemma_rename_absent(pre + (a + ending(weight)), x, new);
    let k = choose|k: int| 0 <= k < from.len() && from[k] == 's';
    assert(x[k] == 's');
    assert(!b.contains('s')) by {
        if b.contains('s') {
            let j = choose|j: int| 0 <= j < b.len() && b[j] == 's';
            if j < to.len() {
                assert(to.contains(to[j]));
            } else {
                assert(b[j] == diffusers_projection(p)[j - to.len()]);
            }
        }
    }
    lemma_lacking(b, x, 's');
    lemma_absent(pre, b, weight, x);
    lemma_rename_absent(pre + (b + ending(weight)), x, new);
}

/// A projection's key is renamed.
proof fn lemma_attention_hit(
    pre: Seq<char>,
    weight: bool,
    from: Seq<char>,
    to: Seq<char>,
    p: Projection,
)
    requires
        numbered(pre),
        dotted(from),
        plain(from),
        from.contains('s'),
        !to.contains('s'),
    ensures
        attention_renamed(pre + (from + native_projection(p) + ending(weight)), from, to) == pre + (to
            + diffusers_projection(p) + ending(weight)),
{
    lemma_projection_spelling(from, p);
    lemma_hit(pre, weight, from + native_projection(p), to + diffusers_projection(p));
    if p != Projection::Query {
        lemma_other_projection(pre, weight, from, to, p, Projection::Query, to + ".to_q"@);
    }
    if p != Projection::Key {
        lemma_other_projection(pre, weight, from, to, p, Projection::Key, to + ".to_k"@);
    }
    if p != Projection::Value {
        lemma_other_projection(pre, weight, from, to, p, Projection::Value, to + ".to_v"@);
    }
    if p != Projection::Output {
        lemma_other_projection(pre, weight, from, to, p, Projection::Output, to + ".to_out.0"@);
    }
}

/// A text made of two lacks a character that both lack.
proof fn lemma_both_lack(a: Seq<char>, b: Seq<char>, c: char)
    requires
        !a.contains(c),
        !b.contains(c),
    ensures
        !(a + b).contains(c),
{
    let s = a + b;
    if s.contains(c) {
        let j = choose|j: int| 0 <= j < s.len() && s[j] == c;
        if j < a.len() {
            assert(a.contains(a[j]));
        } else {
            assert(b.contains(b[j - a.len()]));
        }
    }
}

/// Characters that the names of block layers lack, by which spellings are told apart.
#[verifier::spinoff_prover]
proof fn lemma_layer_letters(l: BlockLayer)
    ensures
        ({
            let (a, b) = (native_layer(l), diffusers_layer(l));
            &&& !(l is ControlIn) && !(l is ControlOut) ==> !a.contains('j')
            &&& !(l is SelfAttention) ==> !a.contains('l')
            &&& !(l is CrossAttention) ==> !a.contains('c')
            &&& !b.contains('l')
            &&& !b.contains('c')
            &&& !(l is FeedForwardIn) && !(l is FeedForwardOut) ==> !b.contains('f')
            &&& !a.contains('m') && !a.contains('d')
            &&& !b.contains('m') && !b.contains('d')
            &&& !b.contains('s')
            &&& !b.contains('b')
            &&& l is SelfAttention || l is CrossAttention ==> !a.contains('0') && !a.contains('2')
        }),
{
    reveal_strlit(".self_attn");
    reveal_strlit(".cross_attn");
    reveal_strlit(".attn1");
    reveal_strlit(".attn2");
    reveal_strlit(".ffn.0");
    reveal_strlit(".ffn.2");
    reveal_strlit(".before_proj");
    reveal_strlit(".after_proj");
    reveal_strlit(".ffn.net.0.proj");
    reveal_strlit(".ffn.net.2");
    reveal_strlit(".proj_in");
    reveal_strlit(".proj_out");
    reveal_strlit(".q");
    reveal_strlit(".k");
    reveal_strlit(".v");
    reveal_strlit(".o");
    reveal_strlit(".to_q");
    reveal_strlit(".to_k");
    reveal_strlit(".to_v");
    reveal_strlit(".to_out.0");
}

/// A block's path has its number behind its dot.
proof fn lemma_block(control: bool, n: nat)
    ensures
        numbered(block(control, n)),
        !block(control, n).contains('m'),
        !block(control, n).contains('d'),
        block(control, n).len() >= 2,
        block(control, n)[0] == if control {
            'v'
        } else {
            'b'
        },
        !control ==> block(control, n)[1] == 'l',
        !control ==> has_prefix(block(control, n), "blocks."@),
{
    reveal_strlit("blocks.");
    reveal_strlit("vace_blocks.");
    lemma_decimal(n);
    let head = if control {
        "vace_blocks."@
    } else {
        "blocks."@
    };
    let pre = block(control, n);
    assert(pre == head + decimal(n));
    assert forall|i: int| 0 <= i < pre.len() && #[trigger] pre[i] == '.' implies i + 1 < pre.len()
        && is_digit(pre[i + 1]) by {
        if i < head.len() {
            assert(head[i] == '.');
            assert(i == head.len() - 1);
            assert(pre[i + 1] == decimal(n)[0]);
        } else {
            assert(pre[i] == decimal(n)[i - head.len()]);
            assert(is_digit(decimal(n)[i - head.len()]));
        }
    }
    assert forall|c: char| !is_digit(c) && !head.contains(c) implies !#[trigger] pre.contains(c) by {
        if pre.contains(c) {
            let j = choose|j: int| 0 <= j < pre.len() && pre[j] == c;
            if j < head.len() {
                assert(head.contains(head[j]));
            } else {
                assert(is_digit(decimal(n)[j - head.len()]));
            }
        }
    }
    assert(pre.subrange(0, head.len() as int) =~= head);
}

/// A text that begins otherwise has none of the known namespaces.
proof fn lemma_no_namespace(s: Seq<char>)
    requires
        s.len() >= 2,
        s[0] != 'm',
        s[0] != 'd',
        s[0] == 'b' ==> s[1] != 'a',
    ensures
        unprefixed(s) == s,
{
    reveal_strlit("model.diffusion_model.");
    reveal_strlit("diffusion_model.");
    reveal_strlit("base_model.model.");
    reveal_strlit("model.");
    let p = key_prefixes();
    assert forall|i: int| 0 <= i < 4 implies !has_prefix(s, #[trigger] p[i]) by {
        if has_prefix(s, p[i]) {
            assert(s.subrange(0, p[i].len() as int)[0] == s[0]);
            assert(s.subrange(0, p[i].len() as int)[1] == s[1]);
        }
    }
}

/// A key in which neither an `m` nor a `d` occurs names no layer outside of the blocks.
proof fn lemma_no_roots(s: Seq<char>)
    requires
        !s.contains('m'),
        !s.contains('d'),
    ensures
        vace_roots_renamed(s) == s,
        wan_roots_renamed(s) == s,
{
    reveal_strlit("time_projection.1");
    reveal_strlit("head.head");
    reveal_strlit("text_embedding.0");
    reveal_strlit("text_embedding.2");
    reveal_strlit("time_embedding.0");
    reveal_strlit("time_embedding.2");
    reveal_strlit("patch_embedding");
    assert("time_projection.1"@[2] == 'm' && "head.head"@[3] == 'd');
    assert("text_embedding.0"@[6] == 'm' && "text_embedding.2"@[6] == 'm');
    assert("time_embedding.0"@[2] == 'm' && "time_embedding.2"@[2] == 'm');
    assert("patch_embedding"@[7] == 'm');
    lemma_lacking(s, "time_projection.1"@, 'm');
    lemma_lacking(s, "head.head"@, 'd');
    lemma_lacking(s, "text_embedding.0"@, 'm');
    lemma_lacking(s, "text_embedding.2"@, 'm');
    lemma_lacking(s, "time_embedding.0"@, 'm');
    lemma_lacking(s, "time_embedding.2"@, 'm');
    lemma_lacking(s, "patch_embedding"@, 'm');
    lemma_rename_absent(s, "time_projection.1"@, "condition_embedder.time_proj"@);
    lemma_rename_absent(s, "time_projection.1"@, "time_projection"@);
    lemma_rename_absent(s, "head.head"@, "proj_out"@);
    lemma_pair_absent(
        s,
        "text_embedding.0"@,
        "condition_embedder.text_embedder.linear_1"@,
        "text_embedding.2"@,
        "condition_embedder.text_embedder.linear_2"@,
    );
    lemma_pair_absent(
        s,
        "time_embedding.0"@,
        "condition_embedder.time_embedder.linear_1"@,
        "time_embedding.2"@,
        "condition_embedder.time_embedder.linear_2"@,
    );
    lemma_pair_absent(
        s,
        "text_embedding.0"@,
        "text_embedding_0"@,
        "text_embedding.2"@,
        "text_embedding_1"@,
    );
    lemma_pair_absent(
        s,
        "time_embedding.0"@,
        "time_embedding_0"@,
        "time_embedding.2"@,
        "time_embedding_1"@,
    );
}

/// A block layer's key lacks the letters of the layers outside of the blocks.
proof fn lemma_block_key_letters(control: bool, n: nat, stem: Seq<char>, weight: bool)
    requires
        !stem.contains('m'),
        !stem.contains('d'),
    ensures
        ({
            let s = block(control, n) + (stem + ending(weight));
            !s.contains('m') && !s.contains('d') && unprefixed(s) == s
        }),
{
    reveal_strlit(".weight");
    lemma_block(control, n);
    let pre = block(control, n);
    lemma_both_lack(stem, ending(weight), 'm');
    lemma_both_lack(stem, ending(weight), 'd');
    lemma_both_lack(pre, stem + ending(weight), 'm');
    lemma_both_lack(pre, stem + ending(weight), 'd');
    lemma_no_namespace(pre + (stem + ending(weight)));
}

/// The control projections of a key, renamed.
proof fn lemma_control_step(pre: Seq<char>, weight: bool, l: BlockLayer)
    requires
        numbered(pre),
    ensures
        pair_renamed(
            pre + (native_layer(l) + ending(weight)),
            ".before_proj"@,
            ".proj_in"@,
            ".after_proj"@,
            ".proj_out"@,
        ) == pre + (if l is ControlIn || l is ControlOut {
            diffusers_layer(l)
        } else {
            native_layer(l)
        } + ending(weight)),
{
    reveal_strlit(".before_proj");
    reveal_strlit(".after_proj");
    reveal_strlit(".proj_in");
    reveal_strlit(".proj_out");
    let (f0, f2) = (".before_proj"@, ".after_proj"@);
    let (t0, t2) = (".proj_in"@, ".proj_out"@);
    lemma_block_spellings();
    lemma_layer_letters(l);
    assert(f0[1] == 'b' && f2[1] == 'a' && f0[11] == 'j' && f2[10] == 'j');
    match l {
        BlockLayer::ControlIn => {
            lemma_lacking(f0, f2, 'a');
            lemma_lacking(t0, f2, 'a');
            lemma_first(pre, weight, f0, t0, f2, t2);
        },
        BlockLayer::ControlOut => {
            lemma_lacking(f2, f0, 'b');
            lemma_lacking(t2, f0, 'b');
            lemma_second(pre, weight, f0, t0, f2, t2);
        },
        _ => {
            let a = native_layer(l);
            assert(f0.contains(f0[11]) && f2.contains(f2[10]));
            lemma_lacking(a, f0, 'j');
            lemma_lacking(a, f2, 'j');
            lemma_absent(pre, a, weight, f0);
            lemma_absent(pre, a, weight, f2);
            lemma_pair_absent(pre + (a + ending(weight)), f0, t0, f2, t2);
        },
    }
}

/// How an attention is spelt, natively and in a diffusers checkpoint.
spec fn attention(cross: bool) -> (Seq<char>, Seq<char>) {
    if cross {
        (".cross_attn"@, ".attn2"@)
    } else {
        (".self_attn"@, ".attn1"@)
    }
}

/// The spelling of an attention.
proof fn lemma_attention(cross: bool)
    ensures
        dotted(attention(cross).0),
        plain(attention(cross).0),
        attention(cross).0.contains('s'),
        attention(cross).0.contains(
            if cross {
                'c'
            } else {
                'l'
            },
        ),
        !attention(cross).1.contains('s'),
{
    reveal_strlit(".self_attn");
    reveal_strlit(".cross_attn");
    reveal_strlit(".attn1");
    reveal_strlit(".attn2");
    lemma_block_spellings();
    assert(".cross_attn"@[1] == 'c' && ".self_attn"@[3] == 'l');
    assert(".cross_attn"@[4] == 's' && ".self_attn"@[1] == 's');
}

/// A layer that is none of an attention's keeps its name.
proof fn lemma_attention_skip(pre: Seq<char>, weight: bool, stem: Seq<char>, cross: bool)
    requires
        numbered(pre),
        !stem.contains(
            if cross {
                'c'
            } else {
                'l'
            },
        ),
    ensures
        attention_renamed(
            pre + (stem + ending(weight)),
            attention(cross).0,
            attention(cross).1,
        ) == pre + (stem + ending(weight)),
{
    lemma_attention(cross);
    let (from, to) = attention(cross);
    lemma_lacking(
        stem,
        from,
        if cross {
            'c'
        } else {
            'l'
        },
    );
    lemma_absent(pre, stem, weight, from);
    lemma_attention_absent(pre + (stem + ending(weight)), from, to);
}

/// The feed-forward layers of a key, renamed.
proof fn lemma_ffn_step(
    pre: Seq<char>,
    weight: bool,
    stem: Seq<char>,
    t0: Seq<char>,
    t2: Seq<char>,
)
    requires
        numbered(pre),
        t0 == ".ffn.net.0.proj"@ && t2 == ".ffn.net.2"@ || t0 == ".ffn.fc1"@ && t2 == ".ffn.fc2"@,
    ensures
        ({
            let r = pair_renamed(pre + (stem + ending(weight)), ".ffn.0"@, t0, ".ffn.2"@, t2);
            &&& stem == ".ffn.0"@ ==> r == pre + (t0 + ending(weight))
            &&& stem == ".ffn.2"@ ==> r == pre + (t2 + ending(weight))
            &&& !has_text(stem, ".ffn.0"@) && !has_text(stem, ".ffn.2"@) ==> r == pre + (stem
                + ending(weight))
        }),
{
    reveal_strlit(".ffn.0");
    reveal_strlit(".ffn.2");
    reveal_strlit(".ffn.net.0.proj");
    reveal_strlit(".ffn.net.2");
    reveal_strlit(".ffn.fc1");
    reveal_strlit(".ffn.fc2");
    let (f0, f2) = (".ffn.0"@, ".ffn.2"@);
    lemma_block_spellings();
    assert(f0[5] == '0' && f2[5] == '2');
    assert(f0.subrange(0, 6) =~= f0 && f2.subrange(0, 6) =~= f2);
    assert(occurs_at(f0, f0, 0) && occurs_at(f2, f2, 0));
    if stem == f0 {
        lemma_lacking(f0, f2, '2');
        lemma_lacking(t0, f2, '2');
        lemma_first(pre, weight, f0, t0, f2, t2);
    } else if stem == f2 {
        lemma_lacking(f2, f0, '0');
        lemma_lacking(t2, f0, '0');
        lemma_second(pre, weight, f0, t0, f2, t2);
    } else if !has_text(stem, f0) && !has_text(stem, f2) {
        lemma_absent(pre, stem, weight, f0);
        lemma_absent(pre, stem, weight, f2);
        lemma_pair_absent(pre + (stem + ending(weight)), f0, t0, f2, t2);
    }
}

/// A block layer's native key, renamed to the diffusers spelling.
proof fn lemma_vace_block(pre: Seq<char>, weight: bool, l: BlockLayer)
    requires
        numbered(pre),
    ensures
        vace_blocks_renamed(pre + (native_layer(l) + ending(weight))) == pre + (diffusers_layer(l)
            + ending(weight)),
{
    let (a, b) = (native_layer(l), diffusers_layer(l));
    lemma_layer_letters(l);
    lemma_attention(false);
    lemma_attention(true);
    lemma_control_step(pre, weight, l);
    lemma_ffn_step(pre, weight, a, ".ffn.net.0.proj"@, ".ffn.net.2"@);
    lemma_ffn_step(pre, weight, b, ".ffn.net.0.proj"@, ".ffn.net.2"@);
    match l {
        BlockLayer::SelfAttention { of } => {
            lemma_attention_hit(pre, weight, ".self_attn"@, ".attn1"@, of);
            lemma_attention_skip(pre, weight, b, true);
            lemma_no_ffn(b);
        },
        BlockLayer::CrossAttention { of } => {
            lemma_attention_skip(pre, weight, a, false);
            lemma_attention_hit(pre, weight, ".cross_attn"@, ".attn2"@, of);
            lemma_no_ffn(b);
        },
        BlockLayer::ControlIn | BlockLayer::ControlOut => {
            lemma_attention_skip(pre, weight, b, false);
            lemma_attention_skip(pre, weight, b, true);
            lemma_no_ffn(b);
        },
        _ => {
            lemma_attention_skip(pre, weight, a, false);
            lemma_attention_skip(pre, weight, a, true);
        },
    }
}

/// A layer without an `f` is no feed-forward layer.
proof fn lemma_no_ffn(stem: Seq<char>)
    requires
        !stem.contains('f'),
    ensures
        !has_text(stem, ".ffn.0"@),
        !has_text(stem, ".ffn.2"@),
{
    reveal_strlit(".ffn.0");
    reveal_strlit(".ffn.2");
    assert(".ffn.0"@[1] == 'f' && ".ffn.2"@[1] == 'f');
    lemma_lacking(stem, ".ffn.0"@, 'f');
    lemma_lacking(stem, ".ffn.2"@, 'f');
}

/// A block layer's diffusers key stays as it is.
#[verifier::spinoff_prover]
proof fn lemma_vace_block_stays(pre: Seq<char>, weight: bool, l: BlockLayer)
    requires
        numbered(pre),
    ensures
        vace_blocks_renamed(pre + (diffusers_layer(l) + ending(weight))) == pre + (diffusers_layer(l)
            + ending(weight)),
{
    reveal_strlit(".before_proj");
    reveal_strlit(".after_proj");
    reveal_strlit(".ffn.0");
    reveal_strlit(".ffn.2");
    reveal_strlit(".ffn.net.0.proj");
    reveal_strlit(".ffn.net.2");
    let b = diffusers_layer(l);
    let s = pre + (b + ending(weight));
    lemma_layer_letters(l);
    lemma_block_spellings();
    assert(".before_proj"@[1] == 'b' && ".after_proj"@[1] == 'a' && ".after_proj"@[2] == 'f');
    lemma_lacking(b, ".before_proj"@, 'b');
    if l is FeedForwardIn || l is FeedForwardOut {
        assert(!b.contains('a'));
        lemma_lacking(b, ".after_proj"@, 'a');
        assert(".ffn.0"@[5] == '0' && ".ffn.2"@[5] == '2');
        if has_text(b, ".ffn.0"@) {
            let i = choose|i: int| occurs_at(b, ".ffn.0"@, i);
            assert(b.subrange(i, i + 6)[1] == b[i + 1]);
            assert(b.subrange(i, i + 6)[5] == b[i + 5]);
        }
        if has_text(b, ".ffn.2"@) {
            let i = choose|i: int| occurs_at(b, ".ffn.2"@, i);
            assert(b.subrange(i, i + 6)[1] == b[i + 1]);
            assert(b.subrange(i, i + 6)[5] == b[i + 5]);
        }
    } else {
        lemma_lacking(b, ".after_proj"@, 'f');
        lemma_no_ffn(b);
    }
    lemma_absent(pre, b, weight, ".before_proj"@);
    lemma_absent(pre, b, weight, ".after_proj"@);
    lemma_pair_absent(s, ".before_proj"@, ".proj_in"@, ".after_proj"@, ".proj_out"@);
    lemma_attention_skip(pre, weight, b, false);
    lemma_attention_skip(pre, weight, b, true);
    lemma_ffn_step(pre, weight, b, ".ffn.net.0.proj"@, ".ffn.net.2"@);
}

/// A block layer's name in a converted checkpoint, for the layers that the main stack has.
pub open spec fn converted_layer(l: BlockLayer) -> Seq<char> {
    match l {
        BlockLayer::FeedForwardIn => ".ffn.fc1"@,
        BlockLayer::FeedForwardOut => ".ffn.fc2"@,
        _ => native_layer(l),
    }
}

/// Whether a layer stands in the blocks of the main stack.
pub open spec fn in_main_stack(l: BlockLayer) -> bool {
    !(l is ControlIn) && !(l is ControlOut)
}

/// A key of a block that is renamed there is renamed nowhere else.
proof fn lemma_vace_of(control: bool, n: nat, stem: Seq<char>, new: Seq<char>, weight: bool)
    requires
        !stem.contains('m') && !stem.contains('d'),
        !new.contains('m') && !new.contains('d'),
        vace_blocks_renamed(block(control, n) + (stem + ending(weight))) == block(control, n) + (new
            + ending(weight)),
    ensures
        vace_key(block(control, n) + (stem + ending(weight))) == block(control, n) + (new + ending(
            weight,
        )),
{
    lemma_block_key_letters(control, n, stem, weight);
    lemma_block_key_letters(control, n, new, weight);
    lemma_no_roots(block(control, n) + (new + ending(weight)));
}

/// A key of a block whose feed-forward layer is renamed is renamed nowhere else.
proof fn lemma_wan_of(n: nat, stem: Seq<char>, new: Seq<char>)
    requires
        !stem.contains('m') && !stem.contains('d'),
        !new.contains('m') && !new.contains('d'),
        pair_renamed(
            block(false, n) + (stem + ending(false)),
            ".ffn.0"@,
            ".ffn.fc1"@,
            ".ffn.2"@,
            ".ffn.fc2"@,
        ) == block(false, n) + (new + ending(false)),
    ensures
        wan_key(block(false, n) + stem) == block(false, n) + new,
{
    lemma_block_key_letters(false, n, stem, false);
    lemma_block_key_letters(false, n, new, false);
    lemma_no_roots(block(false, n) + (new + ending(false)));
    assert(block(false, n) + (stem + ending(false)) =~= block(false, n) + stem);
    assert(block(false, n) + (new + ending(false)) =~= block(false, n) + new);
}

/// A block layer's native key becomes its diffusers key, and its weight's name behind it makes no
/// difference.
#[verifier::spinoff_prover]
pub proof fn law_native_block_keys(control: bool, n: nat, l: BlockLayer)
    ensures
        vace_key(block(control, n) + native_layer(l)) == block(control, n) + diffusers_layer(l),
        vace_key(block(control, n) + native_layer(l) + ".weight"@) == vace_key(
            block(control, n) + native_layer(l),
        ) + ".weight"@,
{
    lemma_vace_native(control, n, l, false);
    lemma_vace_native(control, n, l, true);
    lemma_regroup(block(control, n), native_layer(l));
    lemma_regroup(block(control, n), diffusers_layer(l));
}

/// A block layer's native key, with an ending or without.
proof fn lemma_vace_native(control: bool, n: nat, l: BlockLayer, weight: bool)
    ensures
        vace_key(block(control, n) + (native_layer(l) + ending(weight))) == block(control, n) + (
        diffusers_layer(l) + ending(weight)),
{
    lemma_block(control, n);
    lemma_layer_letters(l);
    lemma_vace_block(block(control, n), weight, l);
    lemma_vace_of(control, n, native_layer(l), diffusers_layer(l), weight);
}

/// A key with and without its ending, put together the other way.
proof fn lemma_regroup(pre: Seq<char>, stem: Seq<char>)
    ensures
        pre + (stem + ending(false)) == pre + stem,
        pre + (stem + ending(true)) == pre + stem + ".weight"@,
{
    assert(pre + (stem + ending(false)) =~= pre + stem);
    assert(pre + (stem + ending(true)) =~= pre + stem + ".weight"@);
}

/// A block layer's diffusers key stays as it is, behind any known namespace, so that mapping a key twice
/// is mapping it once.
pub proof fn law_diffusers_block_keys_stay(control: bool, n: nat, l: BlockLayer, i: int)
    requires
        0 <= i < key_prefixes().len(),
    ensures
        vace_key(block(control, n) + diffusers_layer(l)) == block(control, n) + diffusers_layer(l),
        vace_key(key_prefixes()[i] + (block(control, n) + diffusers_layer(l))) == block(control, n)
            + diffusers_layer(l),
{
    let pre = block(control, n);
    let s = pre + diffusers_layer(l);
    lemma_block(control, n);
    lemma_layer_letters(l);
    lemma_vace_block_stays(pre, false, l);
    lemma_block_key_letters(control, n, diffusers_layer(l), false);
    assert(pre + (diffusers_layer(l) + ending(false)) =~= s);
    lemma_no_roots(s);
    law_namespace_is_irrelevant(s, i);
}

/// A block layer's native key becomes its converted key, which stays as it is.
#[verifier::spinoff_prover]
pub proof fn law_converted_block_keys(n: nat, l: BlockLayer)
    requires
        in_main_stack(l),
    ensures
        wan_key(block(false, n) + native_layer(l)) == block(false, n) + converted_layer(l),
        wan_key(block(false, n) + converted_layer(l)) == block(false, n) + converted_layer(l),
        wan_key(wan_key(block(false, n) + native_layer(l))) == wan_key(
            block(false, n) + native_layer(l),
        ),
{
    let (a, c) = (native_layer(l), converted_layer(l));
    lemma_block(false, n);
    lemma_layer_letters(l);
    lemma_converted_letters(l);
    lemma_not_numbered_ffn(l);
    lemma_ffn_step(block(false, n), false, a, ".ffn.fc1"@, ".ffn.fc2"@);
    lemma_ffn_step(block(false, n), false, c, ".ffn.fc1"@, ".ffn.fc2"@);
    lemma_wan_of(n, a, c);
    lemma_wan_of(n, c, c);
}

/// The converted names of block layers hold no numbered feed-forward layer.
proof fn lemma_not_numbered_ffn(l: BlockLayer)
    requires
        in_main_stack(l),
    ensures
        !has_text(converted_layer(l), ".ffn.0"@),
        !has_text(converted_layer(l), ".ffn.2"@),
{
    reveal_strlit(".ffn.0");
    reveal_strlit(".ffn.2");
    reveal_strlit(".ffn.fc1");
    reveal_strlit(".ffn.fc2");
    let c = converted_layer(l);
    lemma_converted_letters(l);
    assert(".ffn.0"@[5] == '0' && ".ffn.2"@[5] == '2');
    lemma_lacking(c, ".ffn.0"@, '0');
    if l is FeedForwardOut {
        if has_text(c, ".ffn.2"@) {
            let i = choose|i: int| occurs_at(c, ".ffn.2"@, i);
            assert(c.subrange(i, i + 6)[0] == c[i]);
            assert(c.subrange(i, i + 6)[5] == c[i + 5]);
        }
    } else {
        lemma_lacking(c, ".ffn.2"@, '2');
    }
}

/// Characters that the converted names of block layers lack.
proof fn lemma_converted_letters(l: BlockLayer)
    requires
        in_main_stack(l),
    ensures
        ({
            let c = converted_layer(l);
            &&& !c.contains('m') && !c.contains('d')
            &&& !c.contains('j') && !c.contains('b')
            &&& !c.contains('1') || l is FeedForwardIn
            &&& !c.contains('2') || l is FeedForwardOut
            &&& !c.contains('0')
        }),
{
    reveal_strlit(".self_attn");
    reveal_strlit(".cross_attn");
    reveal_strlit(".ffn.fc1");
    reveal_strlit(".ffn.fc2");
    reveal_strlit(".q");
    reveal_strlit(".k");
    reveal_strlit(".v");
    reveal_strlit(".o");
}

/// A layer outside of the blocks.
#[derive(Debug, Clone, Copy, PartialEq, Eq, Structural)]
pub enum RootLayer {
    TextIn,
    TextOut,
    TimeIn,
    TimeOut,
    TimeProjection,
    Head,
}

/// The native name of a layer outside of the blocks.
pub open spec fn native_root(l: RootLayer) -> Seq<char> {
    match l {
        RootLayer::TextIn => "text_embedding.0"@,
        RootLayer::TextOut => "text_embedding.2"@,
        RootLayer::TimeIn => "time_embedding.0"@,
        RootLayer::TimeOut => "time_embedding.2"@,
        RootLayer::TimeProjection => "time_projection.1"@,
        RootLayer::Head => "head.head"@,
    }
}

/// The name of a layer outside of the blocks in a diffusers checkpoint.
pub open spec fn diffusers_root(l: RootLayer) -> Seq<char> {
    match l {
        RootLayer::TextIn => "condition_embedder.text_embedder.linear_1"@,
        RootLayer::TextOut => "condition_embedder.text_embedder.linear_2"@,
        RootLayer::TimeIn => "condition_embedder.time_embedder.linear_1"@,
        RootLayer::TimeOut => "condition_embedder.time_embedder.linear_2"@,
        RootLayer::TimeProjection => "condition_embedder.time_proj"@,
        RootLayer::Head => "proj_out"@,
    }
}

/// The name of a layer outside of the blocks in a converted checkpoint.
pub open spec fn converted_root(l: RootLayer) -> Seq<char> {
    match l {
        RootLayer::TextIn => "text_embedding_0"@,
        RootLayer::TextOut => "text_embedding_1"@,
        RootLayer::TimeIn => "time_embedding_0"@,
        RootLayer::TimeOut => "time_embedding_1"@,
        RootLayer::TimeProjection => "time_projection"@,
        RootLayer::Head => "head.head"@,
    }
}

/// The native spellings outside of the blocks are completed by no ending.
proof fn lemma_root_spelling(l: RootLayer)
    ensures
        plain(native_root(l)),
{
    reveal_strlit("text_embedding.0");
    reveal_strlit("text_embedding.2");
    reveal_strlit("time_embedding.0");
    reveal_strlit("time_embedding.2");
    reveal_strlit("time_projection.1");
    reveal_strlit("head.head");
    let s = native_root(l);
    match l {
        RootLayer::Head => {
            assert(s[4] == '.');
        },
        RootLayer::TimeProjection => {
            assert(s[15] == '.');
        },
        _ => {
            assert(s[14] == '.');
        },
    }
}

/// A native spelling outside of the blocks does not occur in the native, the diffusers or the converted
/// name of another such layer.
#[verifier::spinoff_prover]
proof fn lemma_roots_differ(l: RootLayer, p: RootLayer)
    requires
        l != p,
    ensures
        !has_text(native_root(l), native_root(p)),
        p != RootLayer::Head ==> !has_text(diffusers_root(l), native_root(p)),
        l == RootLayer::TimeProjection ==> !has_text(diffusers_root(l), native_root(p)),
        !has_text(converted_root(l), native_root(p)),
{
    reveal_strlit("text_embedding.0");
    reveal_strlit("text_embedding.2");
    reveal_strlit("time_embedding.0");
    reveal_strlit("time_embedding.2");
    reveal_strlit("time_projection.1");
    reveal_strlit("head.head");
    reveal_strlit("condition_embedder.text_embedder.linear_1");
    reveal_strlit("condition_embedder.text_embedder.linear_2");
    reveal_strlit("condition_embedder.time_embedder.linear_1");
    reveal_strlit("condition_embedder.time_embedder.linear_2");
    reveal_strlit("condition_embedder.time_proj");
    reveal_strlit("proj_out");
    reveal_strlit("text_embedding_0");
    reveal_strlit("text_embedding_1");
    reveal_strlit("time_embedding_0");
    reveal_strlit("time_embedding_1");
    reveal_strlit("time_projection");
    let (a, b, c, x) = (native_root(l), diffusers_root(l), converted_root(l), native_root(p));
    match p {
        RootLayer::Head => {
            assert(x[0] == 'h');
            lemma_lacking(a, x, 'h');
            lemma_lacking(c, x, 'h');
            if l == RootLayer::TimeProjection {
                lemma_lacking(b, x, 'h');
            }
        },
        RootLayer::TimeProjection => {
            assert(x[8] == 'j' && x[9] == 'e');
            lemma_lacking(a, x, 'j');
            lemma_lacking(c, x, 'j');
            assert(x[2] == 'm');
            if l == RootLayer::Head {
                lemma_lacking(b, x, 'm');
            } else {
                lemma_lacking(b, x, 'j');
            }
        },
        RootLayer::TextIn | RootLayer::TextOut => {
            assert(x[2] == 'x' && x[13] == 'g' && x[14] == '.');
            lemma_lacking(b, x, 'g');
            if l == RootLayer::TextIn || l == RootLayer::TextOut {
                assert(a[15] != x[15]);
                lemma_as_long(a, x);
                lemma_lacking(c, x, '.');
            } else {
                lemma_lacking(a, x, 'x');
                lemma_lacking(c, x, 'x');
            }
        },
        _ => {
            assert(x[2] == 'm' && x[13] == 'g' && x[14] == '.');
            lemma_lacking(b, x, 'g');
            match l {
                RootLayer::TextIn | RootLayer::TextOut => {
                    assert(a[1] != x[1]);
                    lemma_as_long(a, x);
                    lemma_lacking(c, x, '.');
                },
                RootLayer::TimeIn | RootLayer::TimeOut => {
                    assert(a[15] != x[15]);
                    lemma_as_long(a, x);
                    lemma_lacking(c, x, '.');
                },
                _ => {
                    lemma_lacking(a, x, 'g');
                    lemma_lacking(c, x, 'g');
                },
            }
        },
    }
}

/// A layer outside of the blocks under its key is renamed.
proof fn lemma_root_hit(weight: bool, l: RootLayer, to: Seq<char>)
    ensures
        renamed(native_root(l) + ending(weight), native_root(l), to) == to + ending(weight),
{
    let from = native_root(l);
    let none = Seq::<char>::empty();
    lemma_root_spelling(l);
    lemma_hit(none, weight, from, to);
    assert(none + (from + ending(weight)) =~= from + ending(weight));
    assert(none + (to + ending(weight)) =~= to + ending(weight));
}

/// Another layer's rename leaves a key as it is.
proof fn lemma_root_skip(stem: Seq<char>, weight: bool, p: RootLayer, to: Seq<char>)
    requires
        !has_text(stem, native_root(p)),
    ensures
        !has_text(stem + ending(weight), native_root(p)),
        renamed(stem + ending(weight), native_root(p), to) == stem + ending(weight),
{
    lemma_root_spelling(p);
    lemma_absent_ending(stem, weight, native_root(p));
    lemma_rename_absent(stem + ending(weight), native_root(p), to);
}

/// Two layers outside of the blocks that are renamed together.
proof fn lemma_root_pair(
    weight: bool,
    l: RootLayer,
    first: RootLayer,
    t0: Seq<char>,
    second: RootLayer,
    t2: Seq<char>,
)
    requires
        l == first || l == second,
        first != second,
        !has_text(t0, native_root(second)),
        !has_text(t2, native_root(first)),
    ensures
        pair_renamed(
            native_root(l) + ending(weight),
            native_root(first),
            t0,
            native_root(second),
            t2,
        ) == if l == first {
            t0
        } else {
            t2
        } + ending(weight),
{
    let none = Seq::<char>::empty();
    let (f0, f2) = (native_root(first), native_root(second));
    lemma_root_spelling(first);
    lemma_root_spelling(second);
    lemma_roots_differ(first, second);
    lemma_roots_differ(second, first);
    if l == first {
        lemma_first(none, weight, f0, t0, f2, t2);
        assert(none + (t0 + ending(weight)) =~= t0 + ending(weight));
    } else {
        lemma_second(none, weight, f0, t0, f2, t2);
        assert(none + (t2 + ending(weight)) =~= t2 + ending(weight));
    }
    assert(none + (native_root(l) + ending(weight)) =~= native_root(l) + ending(weight));
}

/// Two other layers' renames leave a key as it is.
proof fn lemma_root_pair_skip(
    stem: Seq<char>,
    weight: bool,
    first: RootLayer,
    t0: Seq<char>,
    second: RootLayer,
    t2: Seq<char>,
)
    requires
        !has_text(stem, native_root(first)),
        !has_text(stem, native_root(second)),
    ensures
        pair_renamed(stem + ending(weight), native_root(first), t0, native_root(second), t2) == stem
            + ending(weight),
{
    lemma_root_skip(stem, weight, first, t0);
    lemma_root_skip(stem, weight, second, t2);
    lemma_pair_absent(stem + ending(weight), native_root(first), t0, native_root(second), t2);
}

/// A native key outside of the blocks, renamed to the diffusers spelling.
proof fn lemma_vace_root(l: RootLayer, weight: bool)
    ensures
        vace_roots_renamed(native_root(l) + ending(weight)) == diffusers_root(l) + ending(weight),
{
    let (a, b) = (native_root(l), diffusers_root(l));
    let (x0, x2) = (diffusers_root(RootLayer::TextIn), diffusers_root(RootLayer::TextOut));
    let (y0, y2) = (diffusers_root(RootLayer::TimeIn), diffusers_root(RootLayer::TimeOut));
    let tp = diffusers_root(RootLayer::TimeProjection);
    let out = diffusers_root(RootLayer::Head);
    if l == RootLayer::TimeProjection {
        lemma_root_hit(weight, l, tp);
    } else {
        lemma_roots_differ(l, RootLayer::TimeProjection);
        lemma_root_skip(a, weight, RootLayer::TimeProjection, tp);
    }
    let t5 = if l == RootLayer::TimeProjection {
        b
    } else {
        a
    };
    if l == RootLayer::Head {
        lemma_root_hit(weight, l, out);
    } else {
        lemma_roots_differ(l, RootLayer::Head);
        lemma_root_skip(t5, weight, RootLayer::Head, out);
    }
    let t6 = if l == RootLayer::TimeProjection || l == RootLayer::Head {
        b
    } else {
        a
    };
    if l == RootLayer::TextIn || l == RootLayer::TextOut {
        lemma_roots_differ(RootLayer::TextIn, RootLayer::TextOut);
        lemma_roots_differ(RootLayer::TextOut, RootLayer::TextIn);
        lemma_root_pair(weight, l, RootLayer::TextIn, x0, RootLayer::TextOut, x2);
    } else {
        lemma_roots_differ(l, RootLayer::TextIn);
        lemma_roots_differ(l, RootLayer::TextOut);
        lemma_root_pair_skip(t6, weight, RootLayer::TextIn, x0, RootLayer::TextOut, x2);
    }
    if l == RootLayer::TimeIn || l == RootLayer::TimeOut {
        lemma_roots_differ(RootLayer::TimeIn, RootLayer::TimeOut);
        lemma_roots_differ(RootLayer::TimeOut, RootLayer::TimeIn);
        lemma_root_pair(weight, l, RootLayer::TimeIn, y0, RootLayer::TimeOut, y2);
    } else {
        lemma_roots_differ(l, RootLayer::TimeIn);
        lemma_roots_differ(l, RootLayer::TimeOut);
        lemma_root_pair_skip(b, weight, RootLayer::TimeIn, y0, RootLayer::TimeOut, y2);
    }
}

/// A key in which neither an `f` nor an `s` occurs names no layer of a block.
proof fn lemma_no_blocks(s: Seq<char>)
    requires
        !s.contains('f'),
        !s.contains('s'),
    ensures
        vace_blocks_renamed(s) == s,
        pair_renamed(s, ".ffn.0"@, ".ffn.fc1"@, ".ffn.2"@, ".ffn.fc2"@) == s,
{
    reveal_strlit(".before_proj");
    reveal_strlit(".after_proj");
    assert(".before_proj"@[3] == 'f' && ".after_proj"@[2] == 'f');
    lemma_lacking(s, ".before_proj"@, 'f');
    lemma_lacking(s, ".after_proj"@, 'f');
    lemma_pair_absent(s, ".before_proj"@, ".proj_in"@, ".after_proj"@, ".proj_out"@);
    lemma_attention(false);
    lemma_attention(true);
    lemma_lacking(s, ".self_attn"@, 's');
    lemma_lacking(s, ".cross_attn"@, 's');
    lemma_attention_absent(s, ".self_attn"@, ".attn1"@);
    lemma_attention_absent(s, ".cross_attn"@, ".attn2"@);
    lemma_no_ffn(s);
    lemma_pair_absent(s, ".ffn.0"@, ".ffn.net.0.proj"@, ".ffn.2"@, ".ffn.net.2"@);
    lemma_pair_absent(s, ".ffn.0"@, ".ffn.fc1"@, ".ffn.2"@, ".ffn.fc2"@);
}

/// Keys outside of the blocks have no namespace and no letter of the blocks' layers.
proof fn lemma_root_letters(l: RootLayer, weight: bool)
    ensures
        ({
            let (s, t) = (native_root(l) + ending(weight), converted_root(l) + ending(weight));
            &&& !s.contains('f') && !s.contains('s')
            &&& !t.contains('f') && !t.contains('s')
            &&& unprefixed(s) == s
            &&& unprefixed(t) == t
        }),
{
    reveal_strlit("text_embedding.0");
    reveal_strlit("text_embedding.2");
    reveal_strlit("time_embedding.0");
    reveal_strlit("time_embedding.2");
    reveal_strlit("time_projection.1");
    reveal_strlit("head.head");
    reveal_strlit("text_embedding_0");
    reveal_strlit("text_embedding_1");
    reveal_strlit("time_embedding_0");
    reveal_strlit("time_embedding_1");
    reveal_strlit("time_projection");
    reveal_strlit(".weight");
    lemma_both_lack(native_root(l), ending(weight), 'f');
    lemma_both_lack(native_root(l), ending(weight), 's');
    lemma_both_lack(converted_root(l), ending(weight), 'f');
    lemma_both_lack(converted_root(l), ending(weight), 's');
    lemma_no_namespace(native_root(l) + ending(weight));
    lemma_no_namespace(converted_root(l) + ending(weight));
}

/// A native key outside of the blocks becomes its diffusers key, and its weight's name behind it makes
/// no difference.
pub proof fn law_native_root_keys(l: RootLayer)
    ensures
        vace_key(native_root(l)) == diffusers_root(l),
        vace_key(native_root(l) + ".weight"@) == vace_key(native_root(l)) + ".weight"@,
{
    lemma_root_letters(l, false);
    lemma_root_letters(l, true);
    lemma_no_blocks(native_root(l) + ending(false));
    lemma_no_blocks(native_root(l) + ending(true));
    lemma_vace_root(l, false);
    lemma_vace_root(l, true);
    assert(native_root(l) + ending(false) =~= native_root(l));
    assert(diffusers_root(l) + ending(false) =~= diffusers_root(l));
}

/// A native key outside of the blocks and its converted key, under the renames of the converted
/// checkpoint.
proof fn lemma_wan_root(l: RootLayer, stem: Seq<char>)
    requires
        stem == native_root(l) || stem == converted_root(l),
    ensures
        wan_roots_renamed(stem) == converted_root(l),
{
    let c = converted_root(l);
    let (x0, x2) = (converted_root(RootLayer::TextIn), converted_root(RootLayer::TextOut));
    let (y0, y2) = (converted_root(RootLayer::TimeIn), converted_root(RootLayer::TimeOut));
    let tp = converted_root(RootLayer::TimeProjection);
    assert(stem + ending(false) =~= stem);
    assert(c + ending(false) =~= c);
    lemma_converted_root(l);
    let new = l != RootLayer::Head && stem == c;
    if (l == RootLayer::TextIn || l == RootLayer::TextOut) && !new {
        lemma_roots_differ(RootLayer::TextIn, RootLayer::TextOut);
        lemma_roots_differ(RootLayer::TextOut, RootLayer::TextIn);
        lemma_root_pair(false, l, RootLayer::TextIn, x0, RootLayer::TextOut, x2);
    } else {
        lemma_root_lacks(l, stem, RootLayer::TextIn);
        lemma_root_lacks(l, stem, RootLayer::TextOut);
        lemma_root_pair_skip(stem, false, RootLayer::TextIn, x0, RootLayer::TextOut, x2);
    }
    let t2 = if l == RootLayer::TextIn || l == RootLayer::TextOut {
        c
    } else {
        stem
    };
    if (l == RootLayer::TimeIn || l == RootLayer::TimeOut) && !new {
        lemma_roots_differ(RootLayer::TimeIn, RootLayer::TimeOut);
        lemma_roots_differ(RootLayer::TimeOut, RootLayer::TimeIn);
        lemma_root_pair(false, l, RootLayer::TimeIn, y0, RootLayer::TimeOut, y2);
    } else {
        lemma_root_lacks(l, t2, RootLayer::TimeIn);
        lemma_root_lacks(l, t2, RootLayer::TimeOut);
        assert(t2 + ending(false) =~= t2);
        lemma_root_pair_skip(t2, false, RootLayer::TimeIn, y0, RootLayer::TimeOut, y2);
    }
    if l == RootLayer::TimeProjection && !new {
        lemma_root_hit(false, l, tp);
    } else {
        lemma_root_lacks(l, c, RootLayer::TimeProjection);
        lemma_root_skip(c, false, RootLayer::TimeProjection, tp);
    }
}

/// A key outside of the blocks holds another layer's native spelling neither before nor after it is
/// renamed, and its own no longer after.
proof fn lemma_root_lacks(l: RootLayer, stem: Seq<char>, p: RootLayer)
    requires
        p != RootLayer::Head,
        l != p && stem == native_root(l) || stem == converted_root(l),
    ensures
        !has_text(stem, native_root(p)),
{
    if l != p {
        lemma_roots_differ(l, p);
    } else {
        lemma_converted_root(l);
        lemma_root_spelling(p);
        lemma_lacking(stem, native_root(p), '.');
    }
}

/// The converted names outside of the blocks have no dot, but for the head's, and none is the patch
/// embedding's.
proof fn lemma_converted_root(l: RootLayer)
    ensures
        l != RootLayer::Head ==> !converted_root(l).contains('.'),
        !has_text(converted_root(l), "patch_embedding"@),
{
    reveal_strlit("text_embedding_0");
    reveal_strlit("text_embedding_1");
    reveal_strlit("time_embedding_0");
    reveal_strlit("time_embedding_1");
    reveal_strlit("time_projection");
    reveal_strlit("head.head");
    reveal_strlit("patch_embedding");
    let x = "patch_embedding"@;
    assert(x[1] == 'a' && x[7] == 'm');
    if l == RootLayer::Head {
        lemma_lacking(converted_root(l), x, 'm');
    } else {
        lemma_lacking(converted_root(l), x, 'a');
    }
}

/// A native key outside of the blocks becomes its converted key, which stays as it is.
pub proof fn law_converted_root_keys(l: RootLayer)
    ensures
        wan_key(native_root(l)) == converted_root(l),
        wan_key(converted_root(l)) == converted_root(l),
        wan_key(wan_key(native_root(l))) == wan_key(native_root(l)),
{
    lemma_root_letters(l, false);
    assert(native_root(l) + ending(false) =~= native_root(l));
    assert(converted_root(l) + ending(false) =~= converted_root(l));
    lemma_no_blocks(native_root(l));
    lemma_no_blocks(converted_root(l));
    lemma_wan_root(l, native_root(l));
    lemma_wan_root(l, converted_root(l));
}

/// A key without a dot is renamed by no layer outside of the blocks but the patch embedding.
proof fn lemma_no_dotted_root(s: Seq<char>)
    requires
        !s.contains('.'),
    ensures
        wan_roots_renamed(s) == patch_renamed(s),
{
    lemma_root_spelling(RootLayer::TextIn);
    lemma_root_spelling(RootLayer::TextOut);
    lemma_root_spelling(RootLayer::TimeIn);
    lemma_root_spelling(RootLayer::TimeOut);
    lemma_root_spelling(RootLayer::TimeProjection);
    let (x0, x2) = (native_root(RootLayer::TextIn), native_root(RootLayer::TextOut));
    let (y0, y2) = (native_root(RootLayer::TimeIn), native_root(RootLayer::TimeOut));
    let tp = native_root(RootLayer::TimeProjection);
    lemma_lacking(s, x0, '.');
    lemma_lacking(s, x2, '.');
    lemma_lacking(s, y0, '.');
    lemma_lacking(s, y2, '.');
    lemma_lacking(s, tp, '.');
    lemma_pair_absent(s, x0, "text_embedding_0"@, x2, "text_embedding_1"@);
    lemma_pair_absent(s, y0, "time_embedding_0"@, y2, "time_embedding_1"@);
    lemma_rename_absent(s, tp, "time_projection"@);
}

/// A key of one part is renamed as the patch embedding is.
proof fn lemma_one_part(s: Seq<char>)
    requires
        s.len() >= 2,
        s[0] == 'p',
        !s.contains('.'),
        !s.contains('f'),
        !s.contains('s'),
    ensures
        wan_key(s) == patch_renamed(s),
{
    lemma_no_namespace(s);
    lemma_no_blocks(s);
    lemma_no_dotted_root(s);
}

/// The patch embedding's short name becomes the long one, which stays.
proof fn lemma_patch_renamed(a: Seq<char>, b: Seq<char>)
    requires
        a == "patch_embedding"@,
        b == "patch_embedding_proj"@,
        0 < a.len() < b.len(),
    ensures
        patch_renamed(a) == b,
        patch_renamed(b) == b,
{
    let none = Seq::<char>::empty();
    assert(a.subrange(0, a.len() as int) =~= a);
    assert(b.subrange(0, b.len() as int) =~= b);
    assert(occurs_at(a, a, 0) && occurs_at(b, b, 0));
    assert(!has_text(a, b));
    assert(!has_text(none, a));
    lemma_replaced_once(none, a, none, b);
    assert(none + (a + none) =~= a);
    assert(none + (b + none) =~= b);
}

/// The patch embedding gets its long name, which stays as it is and does not grow.
#[verifier::spinoff_prover]
pub proof fn law_patch_embedding_key()
    ensures
        wan_key("patch_embedding"@) == "patch_embedding_proj"@,
        wan_key("patch_embedding_proj"@) == "patch_embedding_proj"@,
{
    lemma_patch_letters();
    lemma_patch_renamed("patch_embedding"@, "patch_embedding_proj"@);
    lemma_one_part("patch_embedding"@);
    lemma_one_part("patch_embedding_proj"@);
}

/// The patch embedding's names are of one part and name no layer of a block.
proof fn lemma_patch_letters()
    ensures
        ({
            let (a, b) = ("patch_embedding"@, "patch_embedding_proj"@);
            &&& 2 <= a.len() < b.len()
            &&& a[0] == 'p' && b[0] == 'p'
            &&& !a.contains('.') && !a.contains('f') && !a.contains('s')
            &&& !b.contains('.') && !b.contains('f') && !b.contains('s')
        }),
{
    reveal_strlit("patch_embedding");
    reveal_strlit("patch_embedding_proj");
}

/// Replacing a layer's name in the key of its weight.
proof fn lemma_swap(pre: Seq<char>, from: Seq<char>, to: Seq<char>)
    requires
        numbered(pre),
        dotted(from) || pre.len() == 0,
        from.len() >= 2,
        from.contains('.'),
        !from.contains('w'),
        from.last() != '.',
    ensures
        replaced(pre + (from + ".weight"@), from, to) == pre + (to + ".weight"@),
{
    reveal_strlit(".weight");
    assert forall|i: int| 0 <= i < pre.len() implies !occurs_at(
        pre + (from + ".weight"@),
        from,
        i,
    ) by {
        if occurs_at(pre + (from + ".weight"@), from, i) {
            lemma_behind(pre, from + ".weight"@, from, i);
        }
    }
    let w = ".weight"@;
    if has_text(w, from) {
        let i = choose|i: int| occurs_at(w, from, i);
        let k = choose|k: int| 0 <= k < from.len() && from[k] == '.';
        assert(w.subrange(i, i + from.len())[k] == w[i + k]);
        assert(w.subrange(i, i + from.len())[k + 1] == w[i + (k + 1)]);
        assert(k + 1 < from.len());
        assert(from[k + 1] == 'w');
    }
    lemma_replaced_once(pre, from, w, to);
}

/// A spelling that a layer's name does not hold is not replaced in the key of its weight.
proof fn lemma_no_swap(pre: Seq<char>, stem: Seq<char>, p: Seq<char>, to: Seq<char>)
    requires
        numbered(pre),
        dotted(p) || pre.len() == 0,
        plain(p),
        !has_text(stem, p),
    ensures
        replaced(pre + (stem + ".weight"@), p, to) == pre + (stem + ".weight"@),
{
    lemma_absent(pre, stem, true, p);
    lemma_replaced_absent(pre + (stem + ending(true)), p, to);
}

/// The diffusers spellings of the attentions.
proof fn lemma_diffusers_attention(cross: bool)
    ensures
        dotted(attention(cross).1),
        attention(cross).1.len() == 6,
        attention(cross).1.contains('a'),
        attention(cross).1.contains(
            if cross {
                '2'
            } else {
                '1'
            },
        ),
        plain(attention(cross).1),
{
    reveal_strlit(".attn1");
    reveal_strlit(".attn2");
    assert(".attn1"@[0] == '.' && ".attn1"@[1] == 'a' && ".attn1"@[5] == '1');
    assert(".attn2"@[0] == '.' && ".attn2"@[1] == 'a' && ".attn2"@[5] == '2');
}

/// A key without an attention's diffusers spelling keeps its name.
proof fn lemma_block_attention_absent(s: Seq<char>, from: Seq<char>, to: Seq<char>)
    requires
        !has_text(s, from),
    ensures
        block_attention_renamed(s, from, to) == s,
{
    lemma_longer(s, from, ".to_out.0"@);
    lemma_longer(s, from, ".to_q"@);
    lemma_longer(s, from, ".to_k"@);
    lemma_longer(s, from, ".to_v"@);
    lemma_longer(s, from, ".norm_q"@);
    lemma_longer(s, from, ".norm_k"@);
    lemma_replaced_absent(s, from + ".to_out.0"@, to + ".o"@);
    lemma_replaced_absent(s, from + ".to_q"@, to + ".q"@);
    lemma_replaced_absent(s, from + ".to_k"@, to + ".k"@);
    lemma_replaced_absent(s, from + ".to_v"@, to + ".v"@);
    lemma_replaced_absent(s, from + ".norm_q"@, to + ".norm_q"@);
    lemma_replaced_absent(s, from + ".norm_k"@, to + ".norm_k"@);
}

/// A key without an attention's diffusers spelling keeps its name.
proof fn lemma_block_attention_skip(pre: Seq<char>, stem: Seq<char>, cross: bool, c: char)
    requires
        numbered(pre),
        attention(cross).1.contains(c),
        !stem.contains(c),
    ensures
        block_attention_renamed(pre + (stem + ".weight"@), attention(cross).1, attention(cross).0)
            == pre + (stem + ".weight"@),
{
    let (to, from) = attention(cross);
    lemma_diffusers_attention(cross);
    lemma_lacking(stem, from, c);
    lemma_absent(pre, stem, true, from);
    lemma_block_attention_absent(pre + (stem + ending(true)), from, to);
}

/// The letter by which a projection's diffusers name is told from the others.
spec fn mark(p: Projection) -> char {
    match p {
        Projection::Query => 'q',
        Projection::Key => 'k',
        Projection::Value => 'v',
        Projection::Output => 'u',
    }
}

/// A projection's diffusers spelling in a key: the key's own is replaced, another's is not.
#[verifier::spinoff_prover]
proof fn lemma_projection_swap(pre: Seq<char>, cross: bool, p: Projection, other: Projection)
    requires
        numbered(pre),
    ensures
        ({
            let (to, from) = attention(cross);
            let s = pre + (from + diffusers_projection(p) + ".weight"@);
            let r = pre + (to + native_projection(p) + ".weight"@);
            let x = from + diffusers_projection(other);
            let y = to + native_projection(other);
            &&& replaced(s, x, y) == if p == other {
                r
            } else {
                s
            }
            &&& replaced(r, x, y) == r
        }),
{
    reveal_strlit(".self_attn");
    reveal_strlit(".cross_attn");
    reveal_strlit(".attn1");
    reveal_strlit(".attn2");
    reveal_strlit(".q");
    reveal_strlit(".k");
    reveal_strlit(".v");
    reveal_strlit(".o");
    reveal_strlit(".to_q");
    reveal_strlit(".to_k");
    reveal_strlit(".to_v");
    reveal_strlit(".to_out.0");
    let (to, from) = attention(cross);
    let a = from + diffusers_projection(p);
    let b = to + native_projection(p);
    let x = from + diffusers_projection(other);
    let y = to + native_projection(other);
    assert(x[0] == '.' && x[1] == 'a');
    assert(!x.contains('w'));
    let d = if cross {
        '2'
    } else {
        '1'
    };
    assert(x[5] == d);
    assert(!b.contains(d));
    lemma_lacking(b, x, d);
    lemma_absent_end(pre, b, x);
    lemma_replaced_absent(pre + (b + ".weight"@), x, y);
    if p == other {
        lemma_swap(pre, x, y);
    } else {
        assert(diffusers_projection(other).contains(mark(other))) by {
            let m = diffusers_projection(other);
            assert(m[4] == mark(other) || m[5] == mark(other));
        }
        let k = choose|k: int|
            0 <= k < diffusers_projection(other).len() && diffusers_projection(other)[k] == mark(other);
        assert(x[6 + k] == mark(other));
        assert(!a.contains(mark(other)));
        lemma_lacking(a, x, mark(other));
        lemma_absent_end(pre, a, x);
        lemma_replaced_absent(pre + (a + ".weight"@), x, y);
    }
}

/// A spelling that a layer's name does not hold does not stand in the key of its weight.
proof fn lemma_absent_end(pre: Seq<char>, stem: Seq<char>, p: Seq<char>)
    requires
        numbered(pre),
        dotted(p),
        p.last() != '.',
        p.last() != 't',
        !p.contains('w'),
        !has_text(stem, p),
    ensures
        !has_text(pre + (stem + ".weight"@), p),
{
    assert(p[0] == '.');
    lemma_absent(pre, stem, true, p);
}

/// A projection's diffusers key of its weight, under its native name.
proof fn lemma_block_attention_hit(pre: Seq<char>, cross: bool, p: Projection)
    requires
        numbered(pre),
        !pre.contains('m'),
    ensures
        block_attention_renamed(
            pre + (attention(cross).1 + diffusers_projection(p) + ".weight"@),
            attention(cross).1,
            attention(cross).0,
        ) == pre + (attention(cross).0 + native_projection(p) + ".weight"@),
{
    let (to, from) = attention(cross);
    let r = pre + (to + native_projection(p) + ".weight"@);
    lemma_projection_swap(pre, cross, p, Projection::Output);
    lemma_projection_swap(pre, cross, p, Projection::Query);
    lemma_projection_swap(pre, cross, p, Projection::Key);
    lemma_projection_swap(pre, cross, p, Projection::Value);
    lemma_no_norm(pre, cross, p);
    lemma_replaced_absent(r, from + ".norm_q"@, to + ".norm_q"@);
    lemma_replaced_absent(r, from + ".norm_k"@, to + ".norm_k"@);
}

/// A projection's native key holds no norm of an attention.
proof fn lemma_no_norm(pre: Seq<char>, cross: bool, p: Projection)
    requires
        !pre.contains('m'),
    ensures
        ({
            let (to, from) = attention(cross);
            let r = pre + (to + native_projection(p) + ".weight"@);
            !has_text(r, from + ".norm_q"@) && !has_text(r, from + ".norm_k"@)
        }),
{
    reveal_strlit(".self_attn");
    reveal_strlit(".cross_attn");
    reveal_strlit(".attn1");
    reveal_strlit(".attn2");
    reveal_strlit(".q");
    reveal_strlit(".k");
    reveal_strlit(".v");
    reveal_strlit(".o");
    reveal_strlit(".norm_q");
    reveal_strlit(".norm_k");
    reveal_strlit(".weight");
    let (to, from) = attention(cross);
    let b = to + native_projection(p);
    lemma_both_lack(to, native_projection(p), 'm');
    lemma_both_lack(b, ".weight"@, 'm');
    lemma_both_lack(pre, b + ".weight"@, 'm');
    assert((from + ".norm_q"@)[10] == 'm' && (from + ".norm_k"@)[10] == 'm');
    lemma_lacking(pre + (b + ".weight"@), from + ".norm_q"@, 'm');
    lemma_lacking(pre + (b + ".weight"@), from + ".norm_k"@, 'm');
}

/// The layers of a block's feed-forward network, and what has no other name, in a diffusers key.
spec fn block_rest_renamed(k: Seq<char>) -> Seq<char> {
    let c = replaced(k, ".ffn.net.0.proj"@, ".ffn.fc1"@);
    let d = replaced(c, ".ffn.net.2"@, ".ffn.fc2"@);
    let e = replaced(d, ".norm2."@, ".norm3."@);
    replaced(e, ".scale_shift_table"@, ".modulation"@)
}

/// The feed-forward step of a diffusers key of a weight.
proof fn lemma_block_rest(pre: Seq<char>, stem: Seq<char>, l: BlockLayer)
    requires
        numbered(pre),
        !pre.contains('m'),
        in_main_stack(l),
        stem == if l is FeedForwardIn || l is FeedForwardOut {
            diffusers_layer(l)
        } else {
            converted_layer(l)
        },
    ensures
        block_rest_renamed(pre + (stem + ".weight"@)) == pre + (converted_layer(l) + ".weight"@),
{
    let c = converted_layer(l);
    let r = pre + (c + ".weight"@);
    lemma_rest_spellings();
    lemma_converted_letters(l);
    let (f0, f2) = (".ffn.net.0.proj"@, ".ffn.net.2"@);
    if l is FeedForwardIn {
        lemma_swap(pre, f0, c);
        lemma_lacking(c, f2, '2');
        lemma_no_swap(pre, c, f2, ".ffn.fc2"@);
    } else if l is FeedForwardOut {
        lemma_lacking(f2, f0, 'j');
        lemma_no_swap(pre, f2, f0, ".ffn.fc1"@);
        lemma_swap(pre, f2, c);
    } else {
        lemma_lacking(c, f0, 'j');
        lemma_no_swap(pre, c, f0, ".ffn.fc1"@);
        lemma_lacking(c, f2, '2');
        lemma_no_swap(pre, c, f2, ".ffn.fc2"@);
    }
    lemma_both_lack(c, ".weight"@, 'm');
    lemma_both_lack(pre, c + ".weight"@, 'm');
    lemma_lacking(r, ".norm2."@, 'm');
    lemma_replaced_absent(r, ".norm2."@, ".norm3."@);
    lemma_lacking(c, ".scale_shift_table"@, 'b');
    lemma_no_swap(pre, c, ".scale_shift_table"@, ".modulation"@);
}

/// The spellings of the feed-forward step.
proof fn lemma_rest_spellings()
    ensures
        dotted(".ffn.net.0.proj"@) && plain(".ffn.net.0.proj"@),
        dotted(".ffn.net.2"@) && plain(".ffn.net.2"@),
        dotted(".scale_shift_table"@) && plain(".scale_shift_table"@),
        ".ffn.net.0.proj"@.contains('j'),
        !".ffn.net.2"@.contains('j'),
        ".ffn.net.2"@.contains('2'),
        ".norm2."@.contains('m'),
        ".scale_shift_table"@.contains('b'),
        !".weight"@.contains('m'),
{
    reveal_strlit(".ffn.net.0.proj");
    reveal_strlit(".ffn.net.2");
    reveal_strlit(".scale_shift_table");
    reveal_strlit(".norm2.");
    reveal_strlit(".weight");
    assert(".ffn.net.0.proj"@[0] == '.' && ".ffn.net.0.proj"@[14] == 'j');
    assert(".ffn.net.2"@[0] == '.' && ".ffn.net.2"@[9] == '2');
    assert(".norm2."@[4] == 'm');
    assert(".scale_shift_table"@[0] == '.' && ".scale_shift_table"@[15] == 'b');
}

/// A block layer's diffusers key of its weight, under its converted name.
proof fn lemma_diffusers_block(pre: Seq<char>, l: BlockLayer)
    requires
        numbered(pre),
        !pre.contains('m'),
        in_main_stack(l),
    ensures
        block_renamed(pre + (diffusers_layer(l) + ".weight"@)) == pre + (converted_layer(l)
            + ".weight"@),
{
    let b = diffusers_layer(l);
    lemma_diffusers_attention(false);
    lemma_diffusers_attention(true);
    lemma_diffusers_letters(l);
    lemma_converted_letters(l);
    match l {
        BlockLayer::SelfAttention { of } => {
            lemma_block_attention_hit(pre, false, of);
            lemma_block_attention_skip(pre, converted_layer(l), true, '2');
            lemma_block_rest(pre, converted_layer(l), l);
        },
        BlockLayer::CrossAttention { of } => {
            lemma_block_attention_skip(pre, b, false, '1');
            lemma_block_attention_hit(pre, true, of);
            lemma_block_rest(pre, converted_layer(l), l);
        },
        _ => {
            lemma_block_attention_skip(pre, b, false, 'a');
            lemma_block_attention_skip(pre, b, true, 'a');
            lemma_block_rest(pre, b, l);
        },
    }
}

/// Characters that the diffusers names of block layers lack.
proof fn lemma_diffusers_letters(l: BlockLayer)
    ensures
        l is CrossAttention ==> !diffusers_layer(l).contains('1'),
        l is FeedForwardIn || l is FeedForwardOut ==> !diffusers_layer(l).contains('a'),
{
    reveal_strlit(".attn2");
    reveal_strlit(".ffn.net.0.proj");
    reveal_strlit(".ffn.net.2");
    reveal_strlit(".to_q");
    reveal_strlit(".to_k");
    reveal_strlit(".to_v");
    reveal_strlit(".to_out.0");
}

/// A key in which no `m` occurs is no condition embedder's.
proof fn lemma_no_condition(s: Seq<char>)
    requires
        !s.contains('m'),
    ensures
        condition_renamed(s) == s,
{
    lemma_condition_spelling(RootLayer::TextIn);
    lemma_condition_spelling(RootLayer::TextOut);
    lemma_condition_spelling(RootLayer::TimeIn);
    lemma_condition_spelling(RootLayer::TimeOut);
    lemma_condition_spelling(RootLayer::TimeProjection);
    let x = diffusers_root(RootLayer::TextIn);
    let y = diffusers_root(RootLayer::TextOut);
    let z = diffusers_root(RootLayer::TimeIn);
    let v = diffusers_root(RootLayer::TimeOut);
    let u = diffusers_root(RootLayer::TimeProjection);
    lemma_lacking(s, x, 'm');
    lemma_lacking(s, y, 'm');
    lemma_lacking(s, z, 'm');
    lemma_lacking(s, v, 'm');
    lemma_lacking(s, u, 'm');
    lemma_replaced_absent(s, x, "text_embedding_0"@);
    lemma_replaced_absent(s, y, "text_embedding_1"@);
    lemma_replaced_absent(s, z, "time_embedding_0"@);
    lemma_replaced_absent(s, v, "time_embedding_1"@);
    lemma_replaced_absent(s, u, "time_projection"@);
}

/// The condition embedder's spellings.
proof fn lemma_condition_spelling(l: RootLayer)
    requires
        l != RootLayer::Head,
    ensures
        plain(diffusers_root(l)),
        diffusers_root(l).contains('m'),
        diffusers_root(l).contains('c'),
{
    reveal_strlit("condition_embedder.text_embedder.linear_1");
    reveal_strlit("condition_embedder.text_embedder.linear_2");
    reveal_strlit("condition_embedder.time_embedder.linear_1");
    reveal_strlit("condition_embedder.time_embedder.linear_2");
    reveal_strlit("condition_embedder.time_proj");
    let s = diffusers_root(l);
    assert(s[0] == 'c' && s[11] == 'm' && s[18] == '.');
}

/// A key that begins with a block's path is none of the single keys, and is renamed as a block's.
proof fn lemma_block_branch(s: Seq<char>)
    requires
        s.len() > 0,
        s[0] == 'b',
        has_prefix(s, "blocks."@),
        !s.contains('m'),
    ensures
        diffusers_key(s) == block_renamed(s),
{
    reveal_strlit("patch_embedding.weight");
    reveal_strlit("patch_embedding.bias");
    reveal_strlit("scale_shift_table");
    reveal_strlit("proj_out.");
    if has_prefix(s, "proj_out."@) {
        assert(s.subrange(0, "proj_out."@.len() as int)[0] == s[0]);
    }
    lemma_no_condition(s);
}

/// The diffusers key of a block layer's weight, converted.
proof fn lemma_diffusers_block_key(n: nat, l: BlockLayer)
    requires
        in_main_stack(l),
    ensures
        diffusers_key(block(false, n) + diffusers_layer(l) + ".weight"@) == block(false, n)
            + converted_layer(l) + ".weight"@,
        (block(false, n) + diffusers_layer(l) + ".weight"@)[0] == 'b',
{
    let pre = block(false, n);
    let s = pre + (diffusers_layer(l) + ".weight"@);
    lemma_block(false, n);
    lemma_layer_letters(l);
    lemma_block_key_letters(false, n, diffusers_layer(l), true);
    lemma_diffusers_block(pre, l);
    lemma_regroup(pre, diffusers_layer(l));
    lemma_regroup(pre, converted_layer(l));
    lemma_prefix_of(pre, diffusers_layer(l) + ".weight"@, "blocks."@);
    lemma_block_branch(s);
}

/// What a text begins with, a longer one does too.
proof fn lemma_prefix_of(a: Seq<char>, b: Seq<char>, p: Seq<char>)
    requires
        has_prefix(a, p),
    ensures
        has_prefix(a + b, p),
{
    assert((a + b).subrange(0, p.len() as int) =~= a.subrange(0, p.len() as int));
}

/// Native names become diffusers names become converted names, as they become converted names at once,
/// and the tensor stays what it is: a block layer's weight.
pub proof fn law_block_names_agree(n: nat, l: BlockLayer, i: usize, e: Entry)
    requires
        in_main_stack(l),
        e.key@ == vace_key(block(false, n) + native_layer(l)) + ".weight"@,
    ensures
        planned_entry(Source::Diffusers, i, e) == Some(
            (
                i,
                wan_key(block(false, n) + native_layer(l)) + ".weight"@,
                None::<Seq<usize>>,
                None::<Seq<usize>>,
            ),
        ),
{
    law_native_block_keys(false, n, l);
    law_converted_block_keys(n, l);
    lemma_diffusers_block_key(n, l);
    reveal_strlit("patch_embedding.weight");
}

/// The condition embedder's steps: a layer's own spelling is replaced, another's is not.
proof fn lemma_condition_step(l: RootLayer, p: RootLayer)
    requires
        l != RootLayer::Head,
        p != RootLayer::Head,
    ensures
        replaced(diffusers_root(l) + ".weight"@, diffusers_root(p), converted_root(p)) == if l == p {
            converted_root(l) + ".weight"@
        } else {
            diffusers_root(l) + ".weight"@
        },
        replaced(converted_root(l) + ".weight"@, diffusers_root(p), converted_root(p))
            == converted_root(l) + ".weight"@,
{
    let none = Seq::<char>::empty();
    let (a, c) = (diffusers_root(l), converted_root(l));
    let (x, y) = (diffusers_root(p), converted_root(p));
    lemma_condition_spelling(p);
    lemma_condition_differ(l, p);
    lemma_no_swap(none, c, x, y);
    if l == p {
        lemma_swap(none, x, y);
    } else {
        lemma_no_swap(none, a, x, y);
    }
    assert(none + (a + ".weight"@) =~= a + ".weight"@);
    assert(none + (c + ".weight"@) =~= c + ".weight"@);
}

/// The condition embedder's spellings do not occur in one another, nor in converted names.
#[verifier::spinoff_prover]
proof fn lemma_condition_differ(l: RootLayer, p: RootLayer)
    requires
        l != RootLayer::Head,
        p != RootLayer::Head,
    ensures
        l != p ==> !has_text(diffusers_root(l), diffusers_root(p)),
        !has_text(converted_root(l), diffusers_root(p)),
{
    reveal_strlit("condition_embedder.text_embedder.linear_1");
    reveal_strlit("condition_embedder.text_embedder.linear_2");
    reveal_strlit("condition_embedder.time_embedder.linear_1");
    reveal_strlit("condition_embedder.time_embedder.linear_2");
    reveal_strlit("condition_embedder.time_proj");
    reveal_strlit("text_embedding_0");
    reveal_strlit("text_embedding_1");
    reveal_strlit("time_embedding_0");
    reveal_strlit("time_embedding_1");
    reveal_strlit("time_projection");
    let (a, c, x) = (diffusers_root(l), converted_root(l), diffusers_root(p));
    assert(x[18] == '.');
    lemma_lacking(c, x, '.');
    if l != p {
        if p == RootLayer::TimeProjection {
            assert(x[27] == 'j');
            lemma_lacking(a, x, 'j');
        } else if l == RootLayer::TimeProjection {
            assert(x[33] == 'l');
            lemma_lacking(a, x, 'l');
        } else {
            assert(a[20] != x[20] || a[40] != x[40]);
            lemma_as_long(a, x);
        }
    }
}

/// A diffusers key outside of the blocks that the condition embedder has is none of the single keys.
proof fn lemma_condition_branch(s: Seq<char>)
    requires
        s.len() > 0,
        s[0] == 'c',
        condition_renamed(s).len() > 0,
        condition_renamed(s)[0] == 't',
    ensures
        diffusers_key(s) == condition_renamed(s),
{
    reveal_strlit("patch_embedding.weight");
    reveal_strlit("patch_embedding.bias");
    reveal_strlit("scale_shift_table");
    reveal_strlit("proj_out.");
    reveal_strlit("blocks.");
    if has_prefix(s, "proj_out."@) {
        assert(s.subrange(0, "proj_out."@.len() as int)[0] == s[0]);
    }
    let t = condition_renamed(s);
    if has_prefix(t, "blocks."@) {
        assert(t.subrange(0, "blocks."@.len() as int)[0] == t[0]);
    }
}

/// The first characters of the names outside of the blocks.
proof fn lemma_root_begins(l: RootLayer)
    ensures
        diffusers_root(l).len() > 1,
        converted_root(l).len() > 1,
        l != RootLayer::Head ==> diffusers_root(l)[0] == 'c' && converted_root(l)[0] == 't',
{
    reveal_strlit("condition_embedder.text_embedder.linear_1");
    reveal_strlit("condition_embedder.text_embedder.linear_2");
    reveal_strlit("condition_embedder.time_embedder.linear_1");
    reveal_strlit("condition_embedder.time_embedder.linear_2");
    reveal_strlit("condition_embedder.time_proj");
    reveal_strlit("proj_out");
    reveal_strlit("text_embedding_0");
    reveal_strlit("text_embedding_1");
    reveal_strlit("time_embedding_0");
    reveal_strlit("time_embedding_1");
    reveal_strlit("time_projection");
    reveal_strlit("head.head");
}

/// The diffusers key of the head's weight, converted.
proof fn lemma_head_key()
    ensures
        diffusers_key("proj_out"@ + ".weight"@) == "head.head"@ + ".weight"@,
        ("proj_out"@ + ".weight"@) != "patch_embedding.weight"@,
{
    reveal_strlit("patch_embedding.weight");
    reveal_strlit("patch_embedding.bias");
    reveal_strlit("scale_shift_table");
    reveal_strlit("proj_out.");
    reveal_strlit("proj_out");
    reveal_strlit("head.head.");
    reveal_strlit("head.head");
    reveal_strlit(".weight");
    let s = "proj_out"@ + ".weight"@;
    assert(s[1] == 'r' && s[0] == 'p');
    assert(s.subrange(0, 9) =~= "proj_out."@);
    assert("head.head."@ + s.subrange(9, s.len() as int) =~= "head.head"@ + ".weight"@);
}

/// The diffusers key of a weight outside of the blocks, converted.
proof fn lemma_diffusers_root_key(l: RootLayer)
    ensures
        diffusers_key(diffusers_root(l) + ".weight"@) == converted_root(l) + ".weight"@,
        diffusers_root(l) + ".weight"@ != "patch_embedding.weight"@,
{
    lemma_root_begins(l);
    if l == RootLayer::Head {
        lemma_head_key();
    } else {
        lemma_condition_step(l, RootLayer::TextIn);
        lemma_condition_step(l, RootLayer::TextOut);
        lemma_condition_step(l, RootLayer::TimeIn);
        lemma_condition_step(l, RootLayer::TimeOut);
        lemma_condition_step(l, RootLayer::TimeProjection);
        let s = diffusers_root(l) + ".weight"@;
        assert(condition_renamed(s) == converted_root(l) + ".weight"@);
        lemma_condition_branch(s);
        reveal_strlit("patch_embedding.weight");
    }
}

/// Native names become diffusers names become converted names, as they become converted names at once,
/// and the tensor stays what it is: the weight of a layer outside of the blocks.
pub proof fn law_root_names_agree(l: RootLayer, i: usize, e: Entry)
    requires
        e.key@ == vace_key(native_root(l)) + ".weight"@,
    ensures
        planned_entry(Source::Diffusers, i, e) == Some(
            (
                i,
                wan_key(native_root(l)) + ".weight"@,
                None::<Seq<usize>>,
                None::<Seq<usize>>,
            ),
        ),
{
    law_native_root_keys(l);
    law_converted_root_keys(l);
    lemma_diffusers_root_key(l);
}

} // verus!
