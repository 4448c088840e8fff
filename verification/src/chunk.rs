//! Bounds on the activations of a transformer step: which of them are on, and how a sequence is
//! split into row blocks and put together again.

use vstd::prelude::*;
use crate::error::Error;
use crate::tensor::{
    in_bounds, is_pair, is_slice, lemma_tensor_ext, lemma_volume_remove, same_but, volume, Tensor,
};
use crate::text::{
    ascii_lowered, parse_usize, parsed_usize, same_text, to_ascii_lower, trim, trimmed,
};

verus! {

/// The knobs that bound the activations of one step.
#[derive(Debug, Clone, Copy, PartialEq, Eq, Structural)]
pub struct DitMemoryConfig {
    /// The most tokens that the feed-forward network takes at once; all without it.
    pub ffn_seq_chunk: Option<usize>,
    /// The most query tokens that attention takes at once; all without it.
    pub attn_query_chunk: Option<usize>,
    /// Evaluate each block before the next one starts.
    pub eval_per_block: bool,
}

/// What a setting that was read means for a chunk knob: a positive number turns it on, zero turns it
/// off, and anything else leaves it as it was.
pub open spec fn chunk_setting(value: Option<Seq<char>>, base: Option<usize>) -> Option<usize> {
    match value {
        Some(s) => match parsed_usize(trimmed(s)) {
            Some(n) => if n == 0 {
                None
            } else {
                Some(n)
            },
            None => base,
        },
        None => base,
    }
}

/// What a setting that was read means for a switch, whatever its case: `1`, `true` and `on` turn it on,
/// `0`, `false` and `off` turn it off, and anything else leaves it as it was.
pub open spec fn bool_setting(value: Option<Seq<char>>, base: bool) -> bool {
    match value {
        Some(s) => {
            let t = ascii_lowered(trimmed(s));
            if t == "1"@ || t == "true"@ || t == "on"@ {
                true
            } else if t == "0"@ || t == "false"@ || t == "off"@ {
                false
            } else {
                base
            }
        },
        None => base,
    }
}

/// A text that may be absent, by its contents.
pub open spec fn opt_text(v: Option<String>) -> Option<Seq<char>> {
    match v {
        Some(s) => Some(s@),
        None => None,
    }
}

/// A chunk knob from a setting that was read; `None` where it is not set.
pub fn env_chunk(value: &Option<String>, base: Option<usize>) -> (r: Option<usize>)
    ensures
        r == chunk_setting(opt_text(*value), base),
{
    match value {
        Some(s) => match parse_usize(trim(s.as_str()).as_str()) {
            Some(n) => if n == 0 {
                None
            } else {
                Some(n)
            },
            None => base,
        },
        None => base,
    }
}

/// A switch from a setting that was read; `None` where it is not set.
pub fn env_bool(value: &Option<String>, base: bool) -> (r: bool)
    ensures
        r == bool_setting(opt_text(*value), base),
{
    match value {
        Some(s) => {
            let t = to_ascii_lower(trim(s.as_str()).as_str());
            let t = t.as_str();
            if same_text(t, "1") || same_text(t, "true") || same_text(t, "on") {
                true
            } else if same_text(t, "0") || same_text(t, "false") || same_text(t, "off") {
                false
            } else {
                base
            }
        },
        None => base,
    }
}

/// The settings that a deployment made, as they were read; `None` where one is not set.
#[derive(Debug)]
pub struct EnvSettings {
    pub ffn_seq_chunk: Option<String>,
    pub attn_query_chunk: Option<String>,
    pub eval_per_block: Option<String>,
}

impl DitMemoryConfig {
    /// No bound at all.
    pub fn off() -> (r: DitMemoryConfig)
        ensures
            r == (DitMemoryConfig {
                ffn_seq_chunk: None,
                attn_query_chunk: None,
                eval_per_block: false,
            }),
    {
        DitMemoryConfig { ffn_seq_chunk: None, attn_query_chunk: None, eval_per_block: false }
    }

    /// Whether no bound is on.
    pub fn is_off(&self) -> (r: bool)
        ensures
            r == (*self == (DitMemoryConfig {
                ffn_seq_chunk: None,
                attn_query_chunk: None,
                eval_per_block: false,
            })),
    {
        self.ffn_seq_chunk.is_none() && self.attn_query_chunk.is_none() && !self.eval_per_block
    }

    /// `base` with the settings that a deployment made laid over it.
    pub fn from_env(base: DitMemoryConfig, env: &EnvSettings) -> (r: DitMemoryConfig)
        ensures
            r.ffn_seq_chunk == chunk_setting(opt_text(env.ffn_seq_chunk), base.ffn_seq_chunk),
            r.attn_query_chunk == chunk_setting(
                opt_text(env.attn_query_chunk),
                base.attn_query_chunk,
            ),
            r.eval_per_block == bool_setting(opt_text(env.eval_per_block), base.eval_per_block),
            is_overlaid(r, base, *env),
    {
        DitMemoryConfig {
            ffn_seq_chunk: env_chunk(&env.ffn_seq_chunk, base.ffn_seq_chunk),
            attn_query_chunk: env_chunk(&env.attn_query_chunk, base.attn_query_chunk),
            eval_per_block: env_bool(&env.eval_per_block, base.eval_per_block),
        }
    }
}

impl Default for DitMemoryConfig {
    fn default() -> (r: DitMemoryConfig)
        ensures
            r == (DitMemoryConfig {
                ffn_seq_chunk: None,
                attn_query_chunk: None,
                eval_per_block: false,
            }),
    {
        DitMemoryConfig { ffn_seq_chunk: None, attn_query_chunk: None, eval_per_block: false }
    }
}

/// A chunk knob never asks for chunks of zero tokens, unless it was made so to begin with.
pub proof fn law_chunk_setting_is_positive(value: Option<Seq<char>>, base: Option<usize>)
    requires
        base != Some(0usize),
    ensures
        chunk_setting(value, base) != Some(0usize),
{
}

/// How many tokens a row block has: the chunk where it is positive and shorter than the sequence,
/// else all.
pub open spec fn block_len(l: int, chunk: Option<usize>) -> int {
    match chunk {
        Some(c) => if 0 < c < l {
            c as int
        } else {
            l
        },
        None => l,
    }
}

/// How many row blocks the sequence has. An empty sequence is one block.
pub open spec fn block_count(l: int, chunk: Option<usize>) -> int {
    let c = block_len(l, chunk);
    if c == l {
        1
    } else {
        (l + c - 1) / c
    }
}

/// Where row block `i` starts.
pub open spec fn block_start(l: int, chunk: Option<usize>, i: int) -> int {
    i * block_len(l, chunk)
}

/// Where row block `i` ends.
pub open spec fn block_end(l: int, chunk: Option<usize>, i: int) -> int {
    let e = (i + 1) * block_len(l, chunk);
    if e < l {
        e
    } else {
        l
    }
}

/// The row blocks of a sequence of `l` tokens, each by its start and its length.
pub fn seq_chunks(l: usize, chunk: Option<usize>) -> (r: Vec<(usize, usize)>)
    ensures
        r.len() == block_count(l as int, chunk),
        forall|i: int|
            0 <= i < r.len() ==> (#[trigger] r@[i]).0 == block_start(l as int, chunk, i) && r@[i].0
                + r@[i].1 == block_end(l as int, chunk, i),
{
    let c: usize = match chunk {
        Some(c) => if 0 < c && c < l {
            c
        } else {
            l
        },
        None => l,
    };
    let mut out: Vec<(usize, usize)> = Vec::new();
    if c == l {
        out.push((0, l));
        assert(0 * block_len(l as int, chunk) == 0);
        assert(1 * block_len(l as int, chunk) == l);
        return out;
    }
    let mut start: usize = 0;
    assert(0 * c == 0);
    while start < l
        invariant
            0 < c < l,
            c == block_len(l as int, chunk),
            start <= l,
            start == if out.len() * c < l {
                out.len() * c
            } else {
                l as int
            },
            out.len() > 0 ==> (out.len() - 1) * c < l,
            forall|i: int|
                0 <= i < out.len() ==> (#[trigger] out@[i]).0 == block_start(l as int, chunk, i)
                    && out@[i].0 + out@[i].1 == block_end(l as int, chunk, i),
        decreases l - start,
    {
        let rest: usize = l - start;
        let len: usize = if c < rest {
            c
        } else {
            rest
        };
        proof {
            let k = out.len() as int;
            assert((k + 1) * c == k * c + c) by (nonlinear_arith);
        }
        out.push((start, len));
        start = start + len;
    }
    proof {
        let k = out.len() as int;
        assert((l + c - 1) / c as int == k) by (nonlinear_arith)
            requires
                0 < c < l,
                (k - 1) * c < l,
                l <= k * c,
        ;
    }
    out
}

/// The row blocks follow one another without a gap or an overlap, from the first token to the last,
/// and none is longer than the chunk.
pub proof fn law_blocks_partition_the_sequence(l: int, chunk: Option<usize>)
    requires
        l >= 0,
    ensures
        block_count(l, chunk) >= 1,
        block_start(l, chunk, 0) == 0,
        block_end(l, chunk, block_count(l, chunk) - 1) == l,
        forall|i: int|
            0 <= i < block_count(l, chunk) - 1 ==> #[trigger] block_end(l, chunk, i)
                == block_start(l, chunk, i + 1),
        forall|i: int|
            0 <= i < block_count(l, chunk) ==> #[trigger] block_start(l, chunk, i) <= block_end(
                l,
                chunk,
                i,
            ) <= block_start(l, chunk, i) + block_len(l, chunk),
{
    let c = block_len(l, chunk);
    let n = block_count(l, chunk);
    assert(0 * c == 0);
    assert(1 * c == c);
    if c != l {
        assert(n >= 1 && (n - 1) * c < l && l <= n * c) by (nonlinear_arith)
            requires
                0 < c < l,
                n == (l + c - 1) / c,
        ;
    }
    assert forall|i: int| 0 <= i < n - 1 implies #[trigger] block_end(l, chunk, i) == block_start(
        l,
        chunk,
        i + 1,
    ) by {
        assert((i + 1) * c <= (n - 1) * c) by (nonlinear_arith)
            requires
                i + 1 <= n - 1,
                c >= 0,
        ;
    }
    assert forall|i: int| 0 <= i < n implies #[trigger] block_start(l, chunk, i) <= block_end(
        l,
        chunk,
        i,
    ) <= block_start(l, chunk, i) + c by {
        assert((i + 1) * c == i * c + c) by (nonlinear_arith);
        assert(i * c <= (n - 1) * c) by (nonlinear_arith)
            requires
                i <= n - 1,
                c >= 0,
        ;
    }
}

/// How many tokens the first `n` parts have together.
pub open spec fn tokens_before<T>(parts: Seq<Tensor<T>>, n: int) -> int
    decreases n,
{
    if n <= 0 {
        0
    } else {
        tokens_before(parts, n - 1) + parts[n - 1].shape@[1]
    }
}

/// How many elements the first `n` parts have together.
pub open spec fn elements_before<T>(parts: Seq<Tensor<T>>, n: int) -> int
    decreases n,
{
    if n <= 0 {
        0
    } else {
        elements_before(parts, n - 1) + parts[n - 1].data@.len()
    }
}

/// Whether the parts can be put together along the sequence axis: there is one, they have that axis and
/// agree on all others, and the result fits.
pub open spec fn joinable<T>(parts: Seq<Tensor<T>>) -> bool {
    &&& parts.len() > 0
    &&& parts[0].shape@.len() >= 2
    &&& forall|i: int|
        0 <= i < parts.len() ==> same_but(parts[0].shape@, (#[trigger] parts[i]).shape@, 1)
    &&& tokens_before(parts, parts.len() as int) <= usize::MAX
    &&& elements_before(parts, parts.len() as int) <= usize::MAX
}

/// Whether `out` is the parts in a row along the sequence axis.
pub open spec fn is_join<T>(out: Tensor<T>, parts: Seq<Tensor<T>>) -> bool {
    &&& out.wf()
    &&& same_but(parts[0].shape@, out.shape@, 1)
    &&& out.shape@[1] == tokens_before(parts, parts.len() as int)
    &&& forall|i: int, idx: Seq<int>|
        0 <= i < parts.len() && #[trigger] in_bounds((#[trigger] parts[i]).shape@, idx) ==> out.at(
            idx.update(1, idx[1] + tokens_before(parts, i)),
        ) == parts[i].at(idx)
}

/// The sums over the first parts grow.
proof fn lemma_sums_grow<T>(parts: Seq<Tensor<T>>, m: int, n: int)
    requires
        0 <= m <= n <= parts.len(),
    ensures
        0 <= tokens_before(parts, m) <= tokens_before(parts, n),
        0 <= elements_before(parts, m) <= elements_before(parts, n),
    decreases n,
{
    if m < n {
        lemma_sums_grow(parts, m, n - 1);
    } else if n > 0 {
        lemma_sums_grow(parts, m - 1, n - 1);
    }
}

/// The sums over the first parts depend on those parts alone.
proof fn lemma_sums_prefix<T>(parts: Seq<Tensor<T>>, k: int, n: int)
    requires
        0 <= n <= k <= parts.len(),
    ensures
        tokens_before(parts.take(k), n) == tokens_before(parts, n),
        elements_before(parts.take(k), n) == elements_before(parts, n),
    decreases n,
{
    if n > 0 {
        lemma_sums_prefix(parts, k, n - 1);
        assert(parts.take(k)[n - 1] == parts[n - 1]);
    }
}

/// Puts one more part behind what was put together so far.
proof fn lemma_join_step<T>(out: Tensor<T>, acc: Tensor<T>, parts: Seq<Tensor<T>>, k: int)
    requires
        1 <= k < parts.len(),
        parts[0].shape@.len() >= 2,
        is_join(acc, parts.take(k)),
        is_pair(out, acc, parts[k], 1),
        same_but(acc.shape@, parts[k].shape@, 1),
        acc.shape@[1] + parts[k].shape@[1] <= usize::MAX,
        forall|i: int|
            0 <= i < k ==> same_but(parts[0].shape@, (#[trigger] parts[i]).shape@, 1),
    ensures
        is_join(out, parts.take(k + 1)),
{
    let p = parts.take(k);
    let q = parts.take(k + 1);
    assert(q[0] == parts[0] && p[0] == parts[0]);
    lemma_sums_prefix(parts, k, k);
    lemma_sums_prefix(parts, k + 1, k + 1);
    assert forall|a: int| 0 <= a < parts[0].shape@.len() && a != 1 implies #[trigger] parts[0].shape@[a]
        == out.shape@[a] by {
        assert(parts[0].shape@[a] == acc.shape@[a]);
    }
    assert forall|i: int, idx: Seq<int>|
        0 <= i < q.len() && #[trigger] in_bounds((#[trigger] q[i]).shape@, idx) implies out.at(
        idx.update(1, idx[1] + tokens_before(q, i)),
    ) == q[i].at(idx) by {
        assert(q[i] == parts[i]);
        lemma_sums_prefix(parts, k + 1, i);
        if i < k {
            assert(p[i] == parts[i]);
            lemma_sums_prefix(parts, k, i);
            let o = idx.update(1, idx[1] + tokens_before(parts, i));
            assert(acc.at(o) == parts[i].at(idx));
            assert(in_bounds(acc.shape@, o)) by {
                lemma_sums_grow(parts, i + 1, k);
                lemma_sums_grow(parts, 0, i);
                assert(0 <= idx[1] < parts[i].shape@[1]);
                assert forall|a: int| 0 <= a < acc.shape@.len() implies 0 <= #[trigger] o[a]
                    < acc.shape@[a] by {
                    if a != 1 {
                        assert(0 <= idx[a] < parts[i].shape@[a]);
                        assert(parts[0].shape@[a] == parts[i].shape@[a]);
                        assert(parts[0].shape@[a] == acc.shape@[a]);
                    }
                }
            }
        } else {
            assert(tokens_before(q, i) == acc.shape@[1]);
        }
    }
}

/// The same tensor.
fn copy_tensor<T: Copy>(t: &Tensor<T>) -> (r: Tensor<T>)
    requires
        t.wf(),
        t.shape@.len() >= 2,
    ensures
        r.wf(),
        r.shape@ == t.shape@,
        r.data@ == t.data@,
{
    let n: usize = t.shape[1];
    let r = t.slice_axis(1, 0, n);
    proof {
        assert(t.shape@.update(1, n) =~= t.shape@);
        assert forall|idx: Seq<int>| #[trigger] in_bounds(r.shape@, idx) implies r.at(idx) == t.at(
            idx,
        ) by {
            assert(idx.update(1, idx[1] + 0) =~= idx);
        }
        lemma_tensor_ext(r, *t);
    }
    r
}

/// So many positions from `start` along the first axis, as a block of queries takes its rows of the
/// rotation tables.
pub fn slice_axis0<T: Copy>(x: &Tensor<T>, start: usize, len: usize) -> (r: Tensor<T>)
    requires
        x.wf(),
        x.shape@.len() > 0,
        start + len <= x.shape@[0],
    ensures
        is_slice(r, *x, 0, start as int, start + len),
{
    x.slice_axis(0, start, start + len)
}

/// Puts parts together along the sequence axis. `None` where they do not fit together.
pub fn join_seq<T: Copy>(parts: &Vec<Tensor<T>>) -> (r: Option<Tensor<T>>)
    requires
        forall|i: int| 0 <= i < parts@.len() ==> (#[trigger] parts@[i]).wf(),
    ensures
        r is Some <==> joinable(parts@),
        r matches Some(out) ==> is_join(out, parts@),
{
    if parts.len() == 0 || parts[0].shape.len() < 2 {
        return None;
    }
    assert(parts@[0].wf());
    let mut acc = copy_tensor(&parts[0]);
    let n0: usize = acc.data.len();
    let mut k: usize = 1;
    proof {
        let p = parts@.take(1);
        assert(p[0] == parts@[0]);
        reveal_with_fuel(tokens_before, 3);
        reveal_with_fuel(elements_before, 3);
        assert forall|i: int, idx: Seq<int>|
            0 <= i < p.len() && #[trigger] in_bounds((#[trigger] p[i]).shape@, idx) implies acc.at(
            idx.update(1, idx[1] + tokens_before(p, i)),
        ) == p[i].at(idx) by {
            assert(idx.update(1, idx[1] + 0) =~= idx);
        }
        assert(is_join(acc, p));
    }
    while k < parts.len()
        invariant
            1 <= k <= parts.len(),
            forall|i: int| 0 <= i < parts@.len() ==> (#[trigger] parts@[i]).wf(),
            parts@[0].shape@.len() >= 2,
            is_join(acc, parts@.take(k as int)),
            acc.data@.len() == elements_before(parts@, k as int),
            acc.data@.len() <= usize::MAX,
            forall|i: int|
                0 <= i < k ==> same_but(parts@[0].shape@, (#[trigger] parts@[i]).shape@, 1),
        decreases parts.len() - k,
    {
        proof {
            assert(parts@.take(k as int)[0] == parts@[0]);
            lemma_sums_prefix(parts@, k as int, k as int);
            lemma_sums_grow(parts@, k + 1, parts@.len() as int);
            assert(parts@[k as int].wf());
        }
        match acc.concat_axis(&parts[k], 1) {
            Some(next) => {
                proof {
                    lemma_join_step(next, acc, parts@, k as int);
                    assert(same_but(parts@[0].shape@, parts@[k as int].shape@, 1)) by {
                        assert forall|a: int|
                            0 <= a < parts@[0].shape@.len() && a
                                != 1 implies #[trigger] parts@[0].shape@[a]
                            == parts@[k as int].shape@[a] by {
                            assert(parts@[0].shape@[a] == acc.shape@[a]);
                        }
                    }
                    lemma_pair_elements(next, acc, parts@[k as int]);
                }
                acc = next;
                let fits: usize = acc.data.len();
            },
            None => {
                proof {
                    if joinable(parts@) {
                        assert(same_but(parts@[0].shape@, parts@[k as int].shape@, 1));
                        assert forall|a: int| 0 <= a < acc.shape@.len() && a != 1 implies #[trigger] acc.shape@[a]
                            == parts@[k as int].shape@[a] by {
                            assert(parts@[0].shape@[a] == acc.shape@[a]);
                            assert(parts@[0].shape@[a] == parts@[k as int].shape@[a]);
                        }
                        assert(false);
                    }
                }
                return None;
            },
        }
        k += 1;
    }
    proof {
        assert(parts@.take(k as int) =~= parts@);
    }
    Some(acc)
}

/// A tensor put together of two has as many elements as both.
proof fn lemma_pair_elements<T>(out: Tensor<T>, a: Tensor<T>, b: Tensor<T>)
    requires
        a.wf(),
        b.wf(),
        a.shape@.len() >= 2,
        is_pair(out, a, b, 1),
        same_but(a.shape@, b.shape@, 1),
        a.shape@[1] + b.shape@[1] <= usize::MAX,
    ensures
        out.data@.len() == a.data@.len() + b.data@.len(),
{
    let c = (a.shape@[1] + b.shape@[1]) as usize;
    crate::tensor::lemma_volume_sum(a.shape@, 1, a.shape@[1], b.shape@[1], c);
    assert(a.shape@.update(1, a.shape@[1]) =~= a.shape@);
    assert(a.shape@.update(1, b.shape@[1]) =~= b.shape@);
}

/// Whether part `i` is row block `i` of `x`.
pub open spec fn is_block<T>(part: Tensor<T>, x: Tensor<T>, chunk: Option<usize>, i: int) -> bool {
    let l = x.shape@[1] as int;
    is_slice(part, x, 1, block_start(l, chunk, i), block_end(l, chunk, i))
}

/// Putting the row blocks of a sequence together gives the sequence.
pub proof fn law_joined_blocks_are_the_whole<T>(
    x: Tensor<T>,
    chunk: Option<usize>,
    parts: Seq<Tensor<T>>,
    out: Tensor<T>,
)
    requires
        x.wf(),
        x.shape@.len() >= 2,
        parts.len() == block_count(x.shape@[1] as int, chunk),
        forall|i: int| 0 <= i < parts.len() ==> #[trigger] is_block(parts[i], x, chunk, i),
        is_join(out, parts),
    ensures
        out.shape@ == x.shape@,
        out.data@ == x.data@,
{
    let l = x.shape@[1] as int;
    law_blocks_partition_the_sequence(l, chunk);
    let n = parts.len() as int;
    lemma_tokens_are_starts(x, chunk, parts, n);
    assert(is_block(parts[0], x, chunk, 0));
    assert(out.shape@ =~= x.shape@) by {
        assert forall|a: int| 0 <= a < x.shape@.len() implies out.shape@[a] == x.shape@[a] by {
            if a != 1 {
                assert(parts[0].shape@[a] == out.shape@[a]);
            }
        }
    }
    assert forall|idx: Seq<int>| #[trigger] in_bounds(out.shape@, idx) implies out.at(idx) == x.at(
        idx,
    ) by {
        let t = idx[1];
        assert(0 <= idx[1] < out.shape@[1]);
        let i = lemma_block_of(l, chunk, t);
        assert(is_block(parts[i], x, chunk, i));
        lemma_tokens_are_starts(x, chunk, parts, i);
        let local = idx.update(1, t - block_start(l, chunk, i));
        assert(in_bounds(parts[i].shape@, local)) by {
            assert forall|a: int| 0 <= a < parts[i].shape@.len() implies 0 <= #[trigger] local[a]
                < parts[i].shape@[a] by {
                if a != 1 {
                    assert(0 <= idx[a] < out.shape@[a]);
                }
            }
        }
        assert(out.at(local.update(1, local[1] + tokens_before(parts, i))) == parts[i].at(local));
        assert(local.update(1, local[1] + tokens_before(parts, i)) =~= idx);
        assert(local.update(1, local[1] + block_start(l, chunk, i)) =~= idx);
    }
    lemma_tensor_ext(out, x);
}

/// The row block that a token lies in.
proof fn lemma_block_of(l: int, chunk: Option<usize>, t: int) -> (i: int)
    requires
        0 <= t < l,
    ensures
        0 <= i < block_count(l, chunk),
        block_start(l, chunk, i) <= t < block_end(l, chunk, i),
{
    let c = block_len(l, chunk);
    let n = block_count(l, chunk);
    let i = t / c;
    assert(i * c <= t < (i + 1) * c && i >= 0) by (nonlinear_arith)
        requires
            i == t / c,
            c > 0,
            t >= 0,
    ;
    if c == l {
        assert(i == 0) by (nonlinear_arith)
            requires
                i * c <= t,
                t < c,
                i >= 0,
                c > 0,
        ;
    } else {
        assert(i < n) by (nonlinear_arith)
            requires
                n == (l + c - 1) / c,
                i * c <= t,
                t < l,
                c > 0,
        ;
    }
    i
}

/// The tokens before part `i` are those before row block `i`.
proof fn lemma_tokens_are_starts<T>(
    x: Tensor<T>,
    chunk: Option<usize>,
    parts: Seq<Tensor<T>>,
    i: int,
)
    requires
        x.shape@.len() >= 2,
        parts.len() == block_count(x.shape@[1] as int, chunk),
        forall|i: int| 0 <= i < parts.len() ==> #[trigger] is_block(parts[i], x, chunk, i),
        0 <= i <= parts.len(),
    ensures
        tokens_before(parts, i) == if i < parts.len() {
            block_start(x.shape@[1] as int, chunk, i)
        } else {
            x.shape@[1] as int
        },
    decreases i,
{
    let l = x.shape@[1] as int;
    law_blocks_partition_the_sequence(l, chunk);
    if i > 0 {
        lemma_tokens_are_starts(x, chunk, parts, i - 1);
        assert(is_block(parts[i - 1], x, chunk, i - 1));
        assert(block_start(l, chunk, i - 1) <= block_end(l, chunk, i - 1));
        if i < parts.len() {
            assert(block_end(l, chunk, i - 1) == block_start(l, chunk, i - 1 + 1));
        }
    }
}

/// Whether `out` is what `f` can give for row block `i` of `x`.
pub open spec fn block_gives<T, F: Fn(&Tensor<T>, usize) -> Result<Tensor<T>, Error>>(
    x: Tensor<T>,
    chunk: Option<usize>,
    f: F,
    i: int,
    out: Result<Tensor<T>, Error>,
) -> bool {
    exists|part: Tensor<T>| #[trigger]
        is_block(part, x, chunk, i) && f.ensures(
            (&part, block_start(x.shape@[1] as int, chunk, i) as usize),
            out,
        )
}

/// Whether `outs` are what `f` gave for the first row blocks of `x`.
pub open spec fn is_mapped<T, F: Fn(&Tensor<T>, usize) -> Result<Tensor<T>, Error>>(
    x: Tensor<T>,
    chunk: Option<usize>,
    f: F,
    outs: Seq<Tensor<T>>,
) -> bool {
    forall|i: int| 0 <= i < outs.len() ==> block_gives(x, chunk, f, i, Ok(#[trigger] outs[i]))
}

/// Whether applying `f` to the row blocks of `x` comes to `r`: a sequence that is one block is handed to
/// `f` as it is. Otherwise the outputs of all blocks are put together. An error is that of the first
/// block that gives one, or that the outputs do not fit together.
pub open spec fn maps_to<T, F: Fn(&Tensor<T>, usize) -> Result<Tensor<T>, Error>>(
    x: Tensor<T>,
    chunk: Option<usize>,
    f: F,
    r: Result<Tensor<T>, Error>,
) -> bool {
    let n = block_count(x.shape@[1] as int, chunk);
    if n == 1 {
        f.ensures((&x, 0usize), r)
    } else {
        match r {
            Ok(out) => exists|outs: Seq<Tensor<T>>|
                outs.len() == n && #[trigger] is_mapped(x, chunk, f, outs) && is_join(out, outs),
            Err(e) => {
                ||| exists|outs: Seq<Tensor<T>>|
                    outs.len() < n && #[trigger] is_mapped(x, chunk, f, outs) && block_gives(
                        x,
                        chunk,
                        f,
                        outs.len() as int,
                        Err(e),
                    )
                ||| exists|outs: Seq<Tensor<T>>|
                    outs.len() == n && #[trigger] is_mapped(x, chunk, f, outs) && !joinable(outs)
                        && e is Msg && e.text() == "row blocks do not fit together"@
            },
        }
    }
}

/// Whether a mapping over the row blocks of `x` hands `p` over as what starts at `s`.
pub open spec fn is_handed<T>(p: Tensor<T>, s: usize, x: Tensor<T>, chunk: Option<usize>) -> bool {
    let l = x.shape@[1] as int;
    if block_count(l, chunk) == 1 {
        p == x && s == 0
    } else {
        exists|i: int|
            0 <= i < block_count(l, chunk) && #[trigger] is_block(p, x, chunk, i) && s
                == block_start(l, chunk, i)
    }
}

/// Applies `f` to the row blocks of a sequence `[B, L, ..]`, each with the place that it starts at,
/// and puts the results together along the sequence axis. A sequence that is one block is handed to
/// `f` as it is. The first error that `f` gives is handed on; results that do not fit together are an
/// error too.
pub fn map_seq_chunks<T: Copy, F: Fn(&Tensor<T>, usize) -> Result<Tensor<T>, Error>>(
    x: &Tensor<T>,
    chunk: Option<usize>,
    f: F,
) -> (r: Result<Tensor<T>, Error>)
    requires
        x.wf(),
        x.shape@.len() >= 2,
        forall|p: Tensor<T>, s: usize|
            is_handed(p, s, *x, chunk) ==> #[trigger] f.requires((&p, s)),
        block_count(x.shape@[1] as int, chunk) > 1 ==> forall|
            p: Tensor<T>,
            s: usize,
            out: Tensor<T>,
        | #[trigger]
            f.ensures((&p, s), Ok(out)) && is_handed(p, s, *x, chunk) ==> out.wf(),
    ensures
        maps_to(*x, chunk, f, r),
{
    let l: usize = x.shape[1];
    let blocks = seq_chunks(l, chunk);
    proof {
        law_blocks_partition_the_sequence(l as int, chunk);
    }
    if blocks.len() == 1 {
        return f(x, 0);
    }
    let mut outs: Vec<Tensor<T>> = Vec::new();
    let mut i: usize = 0;
    while i < blocks.len()
        invariant
            i <= blocks.len(),
            x.wf(),
            x.shape@.len() >= 2,
            l == x.shape@[1],
            blocks.len() == block_count(l as int, chunk),
            blocks.len() > 1,
            forall|i: int|
                0 <= i < blocks.len() ==> (#[trigger] blocks@[i]).0 == block_start(
                    l as int,
                    chunk,
                    i,
                ) && blocks@[i].0 + blocks@[i].1 == block_end(l as int, chunk, i),
            forall|p: Tensor<T>, s: usize|
                is_handed(p, s, *x, chunk) ==> #[trigger] f.requires((&p, s)),
            forall|p: Tensor<T>, s: usize, out: Tensor<T>| #[trigger]
                f.ensures((&p, s), Ok(out)) && is_handed(p, s, *x, chunk) ==> out.wf(),
            outs.len() == i,
            is_mapped(*x, chunk, f, outs@),
            forall|k: int| 0 <= k < i ==> (#[trigger] outs@[k]).wf(),
        decreases blocks.len() - i,
    {
        let (start, len) = blocks[i];
        assert(blocks@[i as int].0 + blocks@[i as int].1 == block_end(l as int, chunk, i as int));
        let part = x.slice_axis(1, start, start + len);
        assert(is_block(part, *x, chunk, i as int));
        assert(is_handed(part, start, *x, chunk));
        match f(&part, start) {
            Ok(out) => {
                let ghost before = outs@;
                outs.push(out);
                proof {
                    assert(block_gives(*x, chunk, f, i as int, Ok(out)));
                    assert forall|k: int| 0 <= k < outs@.len() implies block_gives(
                        *x,
                        chunk,
                        f,
                        k,
                        Ok(#[trigger] outs@[k]),
                    ) by {
                        if k < i {
                            assert(outs@[k] == before[k]);
                        }
                    }
                }
            },
            Err(e) => {
                assert(block_gives(*x, chunk, f, i as int, Err(e)));
                assert(is_mapped(*x, chunk, f, outs@));
                return Err(e);
            },
        }
        i += 1;
    }
    match join_seq(&outs) {
        Some(out) => Ok(out),
        None => Err(Error::Msg("row blocks do not fit together".to_owned())),
    }
}

/// Whether token `j` of `y` holds what token `i` of `x` does.
pub open spec fn same_token<T>(x: Tensor<T>, i: int, y: Tensor<T>, j: int) -> bool {
    forall|idx: Seq<int>| #[trigger]
        in_bounds(x.shape@, idx) && idx[1] == i ==> x.at(idx) == y.at(idx.update(1, j))
}

/// Sequences that a per-token function takes.
pub open spec fn is_sequence<T>(x: Tensor<T>) -> bool {
    x.wf() && x.shape@.len() >= 2
}

/// Whether `g` treats every token on its own: it keeps their number, sequences that agree on all other
/// axes give sequences that do, and what becomes of a token depends on what it holds and on its place.
/// `g` is given the place that a sequence starts at.
pub open spec fn per_token<T>(g: spec_fn(Tensor<T>, int) -> Tensor<T>) -> bool {
    &&& forall|x: Tensor<T>, s: int|
        is_sequence(x) ==> is_sequence(#[trigger] g(x, s)) && g(x, s).shape@[1] == x.shape@[1]
    &&& forall|x: Tensor<T>, s: int, y: Tensor<T>, t: int|
        is_sequence(x) && is_sequence(y) && same_but(x.shape@, y.shape@, 1) ==> same_but(
            (#[trigger] g(x, s)).shape@,
            (#[trigger] g(y, t)).shape@,
            1,
        )
    &&& forall|x: Tensor<T>, s: int, i: int, y: Tensor<T>, t: int, j: int|
        is_sequence(x) && is_sequence(y) && same_but(x.shape@, y.shape@, 1) && 0 <= i < x.shape@[1]
            && 0 <= j < y.shape@[1] && s + i == t + j && #[trigger] same_token(x, i, y, j)
            ==> #[trigger] same_token(g(x, s), i, g(y, t), j)
}

/// A per-token function gives, on a row block, the row block of what it gives on the whole.
proof fn lemma_per_token_block<T>(
    g: spec_fn(Tensor<T>, int) -> Tensor<T>,
    x: Tensor<T>,
    chunk: Option<usize>,
    part: Tensor<T>,
    i: int,
)
    requires
        per_token(g),
        is_sequence(x),
        0 <= i < block_count(x.shape@[1] as int, chunk),
        is_block(part, x, chunk, i),
    ensures
        is_block(g(part, block_start(x.shape@[1] as int, chunk, i)), g(x, 0), chunk, i),
{
    let l = x.shape@[1] as int;
    law_blocks_partition_the_sequence(l, chunk);
    let start = block_start(l, chunk, i);
    let end = block_end(l, chunk, i);
    let out = g(part, start);
    let whole = g(x, 0);
    assert(0 <= start <= end <= l);
    assert(same_but(part.shape@, x.shape@, 1));
    assert(same_but(out.shape@, whole.shape@, 1));
    assert(out.shape@ =~= whole.shape@.update(1, (end - start) as usize));
    assert forall|idx: Seq<int>| #[trigger] in_bounds(out.shape@, idx) implies out.at(idx)
        == whole.at(idx.update(1, idx[1] + start)) by {
        let j = idx[1];
        assert(same_token(part, j, x, j + start));
        assert(same_token(out, j, whole, j + start));
    }
}

/// The parts of a sequence have as many elements as their tokens say.
proof fn lemma_block_elements<T>(
    x: Tensor<T>,
    chunk: Option<usize>,
    parts: Seq<Tensor<T>>,
    n: int,
)
    requires
        is_sequence(x),
        parts.len() == block_count(x.shape@[1] as int, chunk),
        forall|i: int| 0 <= i < parts.len() ==> #[trigger] is_block(parts[i], x, chunk, i),
        0 <= n <= parts.len(),
    ensures
        elements_before(parts, n) == volume(x.shape@.remove(1)) * tokens_before(parts, n),
    decreases n,
{
    let row = volume(x.shape@.remove(1)) as int;
    if n > 0 {
        lemma_block_elements(x, chunk, parts, n - 1);
        let p = parts[n - 1];
        assert(is_block(p, x, chunk, n - 1));
        lemma_volume_remove(p.shape@, 1);
        assert(p.shape@.remove(1) =~= x.shape@.remove(1));
        let (a, b) = (tokens_before(parts, n - 1), p.shape@[1] as int);
        assert(row * a + row * b == row * (a + b)) by (nonlinear_arith);
    } else {
        assert(row * 0 == 0);
    }
}

/// A function that treats every token on its own gives the same for every chunk: what it gives on the
/// whole sequence.
pub proof fn law_chunks_do_not_show<T, F: Fn(&Tensor<T>, usize) -> Result<Tensor<T>, Error>>(
    x: Tensor<T>,
    chunk: Option<usize>,
    f: F,
    g: spec_fn(Tensor<T>, int) -> Tensor<T>,
    r: Result<Tensor<T>, Error>,
)
    requires
        is_sequence(x),
        per_token(g),
        forall|p: Tensor<T>, s: usize, o: Result<Tensor<T>, Error>| #[trigger]
            f.ensures((&p, s), o) && is_sequence(p) ==> o == Ok::<Tensor<T>, Error>(g(p, s as int)),
        maps_to(x, chunk, f, r),
    ensures
        r matches Ok(out) && out.shape@ == g(x, 0).shape@ && out.data@ == g(x, 0).data@,
{
    let l = x.shape@[1] as int;
    let n = block_count(l, chunk);
    let whole = g(x, 0);
    law_blocks_partition_the_sequence(l, chunk);
    if n != 1 {
        assert forall|i: int, o: Result<Tensor<T>, Error>|
            0 <= i < n && #[trigger] block_gives(x, chunk, f, i, o) implies o is Ok && is_block(
            o->Ok_0,
            whole,
            chunk,
            i,
        ) by {
            let part = choose|part: Tensor<T>| #[trigger]
                is_block(part, x, chunk, i) && f.ensures(
                    (&part, block_start(l, chunk, i) as usize),
                    o,
                );
            assert(0 <= block_start(l, chunk, i) <= block_end(l, chunk, i) <= l);
            lemma_per_token_block(g, x, chunk, part, i);
        }
        match r {
            Ok(out) => {
                let outs = choose|outs: Seq<Tensor<T>>|
                    outs.len() == n && #[trigger] is_mapped(x, chunk, f, outs) && is_join(out, outs);
                assert forall|i: int| 0 <= i < outs.len() implies #[trigger] is_block(
                    outs[i],
                    whole,
                    chunk,
                    i,
                ) by {
                    assert(block_gives(x, chunk, f, i, Ok(outs[i])));
                }
                law_joined_blocks_are_the_whole(whole, chunk, outs, out);
            },
            Err(e) => {
                if exists|outs: Seq<Tensor<T>>|
                    outs.len() < n && #[trigger] is_mapped(x, chunk, f, outs) && block_gives(
                        x,
                        chunk,
                        f,
                        outs.len() as int,
                        Err(e),
                    ) {
                    assert(false);
                }
                let outs = choose|outs: Seq<Tensor<T>>|
                    outs.len() == n && #[trigger] is_mapped(x, chunk, f, outs) && !joinable(outs)
                        && e is Msg && e.text() == "row blocks do not fit together"@;
                assert forall|i: int| 0 <= i < outs.len() implies #[trigger] is_block(
                    outs[i],
                    whole,
                    chunk,
                    i,
                ) by {
                    assert(block_gives(x, chunk, f, i, Ok(outs[i])));
                }
                lemma_tokens_are_starts(whole, chunk, outs, n);
                lemma_block_elements(whole, chunk, outs, n);
                lemma_volume_remove(whole.shape@, 1);
                assert(whole.data.len() == whole.data@.len());
                assert(is_block(outs[0], whole, chunk, 0));
                assert forall|i: int| 0 <= i < outs.len() implies same_but(
                    outs[0].shape@,
                    (#[trigger] outs[i]).shape@,
                    1,
                ) by {
                    assert(is_block(outs[i], whole, chunk, i));
                }
                assert(joinable(outs));
            },
        }
    }
}

/// With a chunk that is positive and shorter than the sequence every row block has as many tokens, but for
/// the last, which has what is left; otherwise the sequence is one block.
pub proof fn law_blocks_are_chunks(l: int, chunk: Option<usize>, i: int)
    requires
        l >= 0,
        0 <= i < block_count(l, chunk),
    ensures
        chunk matches Some(c) ==> (0 < c < l ==> {
            &&& block_start(l, chunk, i) == c * i
            &&& i < block_count(l, chunk) - 1 ==> block_end(l, chunk, i) == c * (i + 1)
            &&& i == block_count(l, chunk) - 1 ==> block_end(l, chunk, i) == l && 0 < l - c * i <= c
        }),
        (chunk matches Some(c) ==> c == 0 || c >= l) ==> block_count(l, chunk) == 1 && block_start(
            l,
            chunk,
            0,
        ) == 0 && block_end(l, chunk, 0) == l,
{
    law_blocks_partition_the_sequence(l, chunk);
    let n = block_count(l, chunk);
    let k = block_len(l, chunk);
    assert(i * k == k * i && (i + 1) * k == k * (i + 1)) by (nonlinear_arith);
    if k != l {
        assert((n - 1) * k < l && l <= n * k) by (nonlinear_arith)
            requires
                0 < k < l,
                n == (l + k - 1) / k,
        ;
        assert((i + 1) * k == i * k + k) by (nonlinear_arith);
        if i < n - 1 {
            assert((i + 1) * k <= (n - 1) * k) by (nonlinear_arith)
                requires
                    i + 1 <= n - 1,
                    k > 0,
            ;
        }
    }
}

/// Whether a configuration is another one with settings laid over it.
pub open spec fn is_overlaid(r: DitMemoryConfig, base: DitMemoryConfig, env: EnvSettings) -> bool {
    &&& r.ffn_seq_chunk == chunk_setting(opt_text(env.ffn_seq_chunk), base.ffn_seq_chunk)
    &&& r.attn_query_chunk == chunk_setting(opt_text(env.attn_query_chunk), base.attn_query_chunk)
    &&& r.eval_per_block == bool_setting(opt_text(env.eval_per_block), base.eval_per_block)
}

/// A knob that no setting was made for stays as it was, whatever the others are set to. A number, with or
/// without space around it, is the chunk, and zero turns it off; a switch is turned by its words.
pub proof fn law_settings_turn_their_own_knobs(
    r: DitMemoryConfig,
    base: DitMemoryConfig,
    env: EnvSettings,
    n: usize,
)
    requires
        is_overlaid(r, base, env),
    ensures
        env.ffn_seq_chunk is None ==> r.ffn_seq_chunk == base.ffn_seq_chunk,
        env.attn_query_chunk is None ==> r.attn_query_chunk == base.attn_query_chunk,
        env.eval_per_block is None ==> r.eval_per_block == base.eval_per_block,
        env.ffn_seq_chunk matches Some(t) ==> (trimmed(t@) == crate::text::decimal(n as nat)
            ==> r.ffn_seq_chunk == if n == 0 {
            None
        } else {
            Some(n)
        }),
        env.attn_query_chunk matches Some(t) ==> (trimmed(t@) == crate::text::decimal(n as nat)
            ==> r.attn_query_chunk == if n == 0 {
            None
        } else {
            Some(n)
        }),
        env.eval_per_block matches Some(t) ==> ({
            let w = ascii_lowered(trimmed(t@));
            &&& w == "1"@ || w == "true"@ || w == "on"@ ==> r.eval_per_block
            &&& w == "0"@ || w == "false"@ || w == "off"@ ==> !r.eval_per_block
        }),
{
    crate::text::law_decimal_reads_back(n);
    reveal_strlit("1");
    reveal_strlit("true");
    reveal_strlit("on");
    reveal_strlit("0");
    reveal_strlit("false");
    reveal_strlit("off");
    assert("0"@[0] == '0' && "1"@[0] == '1' && "true"@[0] == 't' && "on"@[1] == 'n');
    assert("false"@[0] == 'f' && "off"@[1] == 'f' && "on"@[0] == 'o' && "off"@[0] == 'o');
}

} // verus!
