//! The transformer that attends over space and time: which tensors it has, and how tokens are regrouped
//! between the two.

use vstd::prelude::*;
use crate::tensor::{
    in_bounds,
    index_view,
    is_slice,
    lemma_tensor_ext,
    lemma_volume3,
    tabulate,
    volume,
    Tensor,
};
use crate::text::{decimal, decimal_text, join2, views};
use crate::weights::{conv_names, conv_tensors, extend, one_name};

verus! {

/// The tensors of an attention: three projections without a bias and one with.
pub open spec fn attention_tensors(prefix: Seq<char>) -> Seq<Seq<char>> {
    seq![prefix + ".to_q.weight"@, prefix + ".to_k.weight"@, prefix + ".to_v.weight"@]
        + conv_tensors(prefix + ".to_out.0"@)
}

/// The tensors of an attention.
fn attention_names(prefix: &str) -> (r: Vec<String>)
    ensures
        views(r@) == attention_tensors(prefix@),
{
    let mut out: Vec<String> = Vec::new();
    out.push(join2(prefix, ".to_q.weight"));
    out.push(join2(prefix, ".to_k.weight"));
    out.push(join2(prefix, ".to_v.weight"));
    assert(views(out@) =~= seq![
        prefix@ + ".to_q.weight"@,
        prefix@ + ".to_k.weight"@,
        prefix@ + ".to_v.weight"@,
    ]);
    extend(&mut out, conv_names(join2(prefix, ".to_out.0").as_str()));
    out
}

/// The tensors of a block that attends over space.
pub open spec fn spatial_tensors(prefix: Seq<char>) -> Seq<Seq<char>> {
    conv_tensors(prefix + ".norm1"@) + attention_tensors(prefix + ".attn1"@) + conv_tensors(
        prefix + ".norm2"@,
    ) + attention_tensors(prefix + ".attn2"@) + conv_tensors(prefix + ".norm3"@) + conv_tensors(
        prefix + ".ff.net.0.proj"@,
    ) + conv_tensors(prefix + ".ff.net.2"@)
}

/// The tensors of a block that attends over space.
fn spatial_names(prefix: &str) -> (r: Vec<String>)
    ensures
        views(r@) == spatial_tensors(prefix@),
{
    let mut out = conv_names(join2(prefix, ".norm1").as_str());
    extend(&mut out, attention_names(join2(prefix, ".attn1").as_str()));
    extend(&mut out, conv_names(join2(prefix, ".norm2").as_str()));
    extend(&mut out, attention_names(join2(prefix, ".attn2").as_str()));
    extend(&mut out, conv_names(join2(prefix, ".norm3").as_str()));
    extend(&mut out, conv_names(join2(prefix, ".ff.net.0.proj").as_str()));
    extend(&mut out, conv_names(join2(prefix, ".ff.net.2").as_str()));
    out
}

/// The tensors of a block that attends over time.
pub open spec fn temporal_tensors(prefix: Seq<char>) -> Seq<Seq<char>> {
    conv_tensors(prefix + ".norm_in"@) + conv_tensors(prefix + ".ff_in.net.0.proj"@) + conv_tensors(
        prefix + ".ff_in.net.2"@,
    ) + spatial_tensors(prefix)
}

/// The tensors of a block that attends over time.
fn temporal_names(prefix: &str) -> (r: Vec<String>)
    ensures
        views(r@) == temporal_tensors(prefix@),
{
    let mut out = conv_names(join2(prefix, ".norm_in").as_str());
    extend(&mut out, conv_names(join2(prefix, ".ff_in.net.0.proj").as_str()));
    extend(&mut out, conv_names(join2(prefix, ".ff_in.net.2").as_str()));
    extend(&mut out, spatial_names(prefix));
    out
}

/// The tensors of the embedding of a number.
pub open spec fn embedding_tensors(prefix: Seq<char>) -> Seq<Seq<char>> {
    conv_tensors(prefix + ".linear_1"@) + conv_tensors(prefix + ".linear_2"@)
}

/// The tensors of the embedding of a number.
pub(crate) fn embedding_names(prefix: &str) -> (r: Vec<String>)
    ensures
        views(r@) == embedding_tensors(prefix@),
{
    let mut out = conv_names(join2(prefix, ".linear_1").as_str());
    extend(&mut out, conv_names(join2(prefix, ".linear_2").as_str()));
    out
}

/// The tensors of the first `n` numbered blocks.
pub open spec fn numbered(prefix: Seq<char>, temporal: bool, n: nat) -> Seq<Seq<char>>
    decreases n,
{
    if n == 0 {
        seq![]
    } else {
        let name = prefix + decimal((n - 1) as nat);
        numbered(prefix, temporal, (n - 1) as nat) + if temporal {
            temporal_tensors(name)
        } else {
            spatial_tensors(name)
        }
    }
}

/// The tensors of the first `n` numbered blocks.
fn numbered_names(prefix: &str, temporal: bool, n: usize) -> (r: Vec<String>)
    ensures
        views(r@) == numbered(prefix@, temporal, n as nat),
{
    let mut out: Vec<String> = Vec::new();
    let mut i: usize = 0;
    assert(views(out@) =~= Seq::<Seq<char>>::empty());
    while i < n
        invariant
            i <= n,
            views(out@) == numbered(prefix@, temporal, i as nat),
        decreases n - i,
    {
        let name = join2(prefix, decimal_text(i).as_str());
        let more = if temporal {
            temporal_names(name.as_str())
        } else {
            spatial_names(name.as_str())
        };
        extend(&mut out, more);
        i += 1;
    }
    out
}

/// The tensors of a transformer of so many layers, in the order they are read.
pub open spec fn transformer_tensors(prefix: Seq<char>, layers: nat) -> Seq<Seq<char>> {
    conv_tensors(prefix + ".norm"@) + numbered(prefix + ".transformer_blocks."@, false, layers)
        + numbered(prefix + ".temporal_transformer_blocks."@, true, layers) + conv_tensors(
        prefix + ".proj_in"@,
    ) + embedding_tensors(prefix + ".time_pos_embed"@) + seq![prefix + ".time_mixer.mix_factor"@]
        + conv_tensors(prefix + ".proj_out"@)
}

/// The tensors of a transformer of so many layers, in the order they are read.
pub fn transformer_names(prefix: &str, layers: usize) -> (r: Vec<String>)
    ensures
        views(r@) == transformer_tensors(prefix@, layers as nat),
{
    let mut out = conv_names(join2(prefix, ".norm").as_str());
    extend(
        &mut out,
        numbered_names(join2(prefix, ".transformer_blocks.").as_str(), false, layers),
    );
    extend(
        &mut out,
        numbered_names(join2(prefix, ".temporal_transformer_blocks.").as_str(), true, layers),
    );
    extend(&mut out, conv_names(join2(prefix, ".proj_in").as_str()));
    extend(&mut out, embedding_names(join2(prefix, ".time_pos_embed").as_str()));
    extend(&mut out, one_name(join2(prefix, ".time_mixer.mix_factor")));
    extend(&mut out, conv_names(join2(prefix, ".proj_out").as_str()));
    out
}

/// Splits the last axis into its two halves, the values and their gates. An odd extent has none.
pub fn split_halves<T: Copy>(p: &Tensor<T>) -> (r: Option<(Tensor<T>, Tensor<T>)>)
    requires
        p.wf(),
        p.shape@.len() > 0,
    ensures
        ({
            let last = p.shape@.len() - 1;
            let extent = p.shape@[last] as int;
            match r {
                Some(h) => {
                    &&& extent % 2 == 0
                    &&& is_slice(h.0, *p, last, 0, extent / 2)
                    &&& is_slice(h.1, *p, last, extent / 2, extent)
                },
                None => extent % 2 == 1,
            }
        }),
{
    let last: usize = p.shape.len() - 1;
    let extent: usize = p.shape[last];
    if extent % 2 == 1 {
        return None;
    }
    let inner: usize = extent / 2;
    Some((p.slice_axis(last, 0, inner), p.slice_axis(last, inner, extent)))
}

/// Whether rows that go by group, then member, are regrouped to go by group, then column, with the
/// members across: what was in row `group * members + member` at column `column` is in row
/// `group * columns + column` at place `member`.
pub open spec fn is_regrouped<T>(out: Tensor<T>, x: Tensor<T>, members: int) -> bool {
    let columns = x.shape@[1] as int;
    let groups = x.shape@[0] as int / members;
    &&& out.wf()
    &&& out.shape@ == seq![(groups * columns) as usize, members as usize, x.shape@[2]]
    &&& forall|g: int, m: int, c: int, d: int| #[trigger]
        regroup_cell(x.shape@, members, g, m, c, d) ==> out.at(seq![g * columns + c, m, d]) == x.at(
            seq![g * members + m, c, d],
        )
}

/// Whether a group, member, column and channel exist.
pub open spec fn regroup_cell(
    shape: Seq<usize>,
    members: int,
    g: int,
    m: int,
    c: int,
    d: int,
) -> bool {
    &&& 0 <= g < shape[0] as int / members
    &&& 0 <= m < members
    &&& 0 <= c < shape[1]
    &&& 0 <= d < shape[2]
}

/// A quotient and a remainder make a number below the product, and are its quotient and remainder.
proof fn lemma_pair(q: int, r: int, a: int, b: int)
    requires
        0 <= q < a,
        0 <= r < b,
    ensures
        0 <= q * b,
        0 <= q * b + r < a * b,
        (q * b + r) / b == q,
        (q * b + r) % b == r,
{
    assert(0 <= q * b && 0 <= q * b + r < a * b) by (nonlinear_arith)
        requires
            0 <= q < a,
            0 <= r < b,
    ;
    assert((q * b + r) / b == q && (q * b + r) % b == r) by (nonlinear_arith)
        requires
            0 <= r < b,
    ;
}

/// A number below a product has a quotient and a remainder.
proof fn lemma_unpair(n: int, a: int, b: int)
    requires
        0 <= n < a * b,
        a >= 0,
        b >= 0,
    ensures
        b > 0,
        0 <= n / b < a,
        0 <= n % b < b,
        n == (n / b) * b + n % b,
{
    assert(b > 0 && 0 <= n / b < a && 0 <= n % b < b && n == (n / b) * b + n % b) by (nonlinear_arith)
        requires
            0 <= n < a * b,
            a >= 0,
            b >= 0,
    ;
}

/// The volume of rows that are regrouped stays what it was.
proof fn lemma_regrouped_volume(groups: int, members: int, columns: int, depth: int)
    ensures
        (groups * columns) * members * depth == (groups * members) * columns * depth,
{
    assert((groups * columns) * members == (groups * members) * columns) by (nonlinear_arith);
}

/// Regroups rows that go by group, then member, to go by group, then column. Attending over frames takes
/// the frames as members; the rows of a frame's tokens become the rows of a token's frames. Rows that do
/// not fall into whole groups are nothing.
pub fn regroup<T: Copy>(x: &Tensor<T>, members: usize) -> (r: Option<Tensor<T>>)
    requires
        x.wf(),
        x.shape@.len() == 3,
        members > 0,
        (x.shape@[0] as int / members as int) * x.shape@[1] <= usize::MAX,
    ensures
        match r {
            Some(out) => x.shape@[0] as int % members as int == 0 && is_regrouped(
                out,
                *x,
                members as int,
            ),
            None => x.shape@[0] as int % members as int != 0,
        },
{
    let rows: usize = x.shape[0];
    let columns: usize = x.shape[1];
    let depth: usize = x.shape[2];
    if rows % members != 0 {
        return None;
    }
    let groups: usize = rows / members;
    let len: usize = x.data.len();
    proof {
        let (n, m) = (rows as int, members as int);
        assert((n / m) * m == n) by (nonlinear_arith)
            requires
                n % m == 0,
                m > 0,
        ;
        assert(groups * columns >= 0) by (nonlinear_arith)
            requires
                groups >= 0,
                columns >= 0,
        ;
    }
    let out_rows: usize = groups * columns;
    let shape: Vec<usize> = vec![out_rows, members, depth];
    assert(shape@ =~= seq![out_rows, members, depth]);
    proof {
        assert(x.shape@ =~= seq![rows, columns, depth]);
        lemma_volume3(rows, columns, depth);
        lemma_volume3(out_rows, members, depth);
        lemma_regrouped_volume(groups as int, members as int, columns as int, depth as int);
    }
    let ghost g = |idx: Seq<int>|
        x.at(seq![(idx[0] / (columns as int)) * members + idx[1], idx[0] % (columns as int), idx[2]]);
    let f = |v: &Vec<usize>| -> (out: T)
        requires
            in_bounds(seq![out_rows, members, depth], index_view(v@)),
            x.wf(),
            x.shape@ == seq![rows, columns, depth],
            out_rows == groups * columns,
            rows == groups * members,
        ensures
            out == g(index_view(v@)),
        {
            proof {
                let iv = index_view(v@);
                let sh = seq![out_rows, members, depth];
                assert(0 <= iv[0] < sh[0]);
                assert(0 <= iv[1] < sh[1]);
                assert(0 <= iv[2] < sh[2]);
                lemma_unpair(iv[0], groups as int, columns as int);
                lemma_pair(iv[0] / (columns as int), iv[1], groups as int, members as int);
            }
            let at: Vec<usize> = vec![(v[0] / columns) * members + v[1], v[0] % columns, v[2]];
            proof {
                let iv = index_view(v@);
                assert(index_view(at@) =~= seq![
                    (iv[0] / (columns as int)) * members + iv[1],
                    iv[0] % (columns as int),
                    iv[2],
                ]);
            }
            x.get(&at)
        };
    let out = tabulate(shape, f, Ghost(g));
    proof {
        assert forall|gr: int, m: int, c: int, d: int| #[trigger]
            regroup_cell(x.shape@, members as int, gr, m, c, d) implies out.at(
            seq![gr * columns + c, m, d],
        ) == x.at(seq![gr * members + m, c, d]) by {
            lemma_pair(gr, c, groups as int, columns as int);
            let idx = seq![gr * columns + c, m, d];
            assert(in_bounds(out.shape@, idx));
        }
    }
    Some(out)
}

/// Regrouping back gives the rows as they were, so that attending over frames leaves every token at its
/// place.
pub proof fn law_regrouping_back<T>(x: Tensor<T>, over: Tensor<T>, back: Tensor<T>, members: int)
    requires
        x.wf(),
        x.shape@.len() == 3,
        0 < members <= usize::MAX,
        x.shape@[0] as int % members == 0,
        (x.shape@[0] as int / members) * x.shape@[1] <= usize::MAX,
        x.shape@[1] > 0,
        is_regrouped(over, x, members),
        is_regrouped(back, over, x.shape@[1] as int),
    ensures
        back.shape@ == x.shape@,
        back.data@ == x.data@,
{
    let rows = x.shape@[0] as int;
    let columns = x.shape@[1] as int;
    let groups = rows / members;
    assert(groups * members == rows && groups >= 0) by (nonlinear_arith)
        requires
            rows % members == 0,
            members > 0,
            rows >= 0,
            groups == rows / members,
    ;
    assert(groups * columns >= 0 && (groups * columns) / columns == groups) by (nonlinear_arith)
        requires
            groups >= 0,
            columns > 0,
    ;
    assert(over.shape@[0] == groups * columns);
    assert(back.shape@ =~= x.shape@);
    assert forall|idx: Seq<int>| #[trigger] in_bounds(x.shape@, idx) implies back.at(idx) == x.at(
        idx,
    ) by {
        assert(0 <= idx[0] < x.shape@[0]);
        assert(0 <= idx[1] < x.shape@[1]);
        assert(0 <= idx[2] < x.shape@[2]);
        lemma_unpair(idx[0], groups, members);
        let g = idx[0] / members;
        let m = idx[0] % members;
        assert(regroup_cell(x.shape@, members, g, m, idx[1], idx[2]));
        assert(regroup_cell(over.shape@, columns, g, idx[1], m, idx[2]));
        assert(seq![g * members + m, idx[1], idx[2]] =~= idx);
    }
    lemma_tensor_ext(back, x);
}

/// The number of each row's frame: rows go by video, then frame.
pub fn frame_positions(videos: usize, frames: usize) -> (r: Vec<usize>)
    requires
        videos * frames <= usize::MAX,
    ensures
        r.len() == videos * frames,
        forall|i: int| 0 <= i < r.len() ==> #[trigger] r@[i] == i % (frames as int),
        are_frame_positions(r@, videos as int, frames as int),
{
    let n: usize = videos * frames;
    let mut out: Vec<usize> = Vec::new();
    let mut i: usize = 0;
    while i < n
        invariant
            i <= n,
            n == videos * frames,
            out.len() == i,
            forall|j: int| 0 <= j < i ==> #[trigger] out@[j] == j % (frames as int),
        decreases n - i,
    {
        proof {
            assert(frames > 0) by (nonlinear_arith)
                requires
                    0 <= i < videos * frames,
                    frames >= 0,
                    videos >= 0,
            ;
        }
        out.push(i % frames);
        i += 1;
    }
    out
}

/// The row of the image's embedding that each token attends to over time: that of its video's first
/// frame. Rows of the embedding go by video, then frame; tokens go by video, then place.
pub fn temporal_context_rows(videos: usize, frames: usize, places: usize) -> (r: Vec<usize>)
    requires
        videos * frames <= usize::MAX,
        videos * places <= usize::MAX,
    ensures
        r.len() == videos * places,
        forall|i: int| 0 <= i < r.len() ==> #[trigger] r@[i] == (i / (places as int)) * frames,
        are_context_rows(r@, videos as int, frames as int, places as int),
{
    let n: usize = videos * places;
    let mut out: Vec<usize> = Vec::new();
    let mut i: usize = 0;
    while i < n
        invariant
            i <= n,
            n == videos * places,
            videos * frames <= usize::MAX,
            out.len() == i,
            forall|j: int| 0 <= j < i ==> #[trigger] out@[j] == (j / (places as int)) * frames,
        decreases n - i,
    {
        proof {
            lemma_unpair(i as int, videos as int, places as int);
            let (q, v, f) = (i as int / (places as int), videos as int, frames as int);
            assert(0 <= q * f <= v * f) by (nonlinear_arith)
                requires
                    0 <= q < v,
                    f >= 0,
            ;
        }
        out.push((i / places) * frames);
        i += 1;
    }
    out
}

/// Whether the frames of the videos have their positions.
pub open spec fn are_frame_positions(r: Seq<usize>, videos: int, frames: int) -> bool {
    &&& r.len() == videos * frames
    &&& forall|i: int| 0 <= i < r.len() ==> #[trigger] r[i] == i % frames
}

/// Whether the places of the videos have their rows of context.
pub open spec fn are_context_rows(r: Seq<usize>, videos: int, frames: int, places: int) -> bool {
    &&& r.len() == videos * places
    &&& forall|i: int| 0 <= i < r.len() ==> #[trigger] r[i] == (i / places) * frames
}

/// A member of a group has its place behind the members of the groups before.
proof fn lemma_member(groups: int, members: int, g: int, m: int)
    requires
        0 <= g < groups,
        0 <= m < members,
    ensures
        0 <= g * members + m < groups * members,
        (g * members + m) % members == m,
        (g * members + m) / members == g,
{
    let i = g * members + m;
    assert(g * members >= 0 && g * members + members <= groups * members) by (nonlinear_arith)
        requires
            0 <= g,
            g + 1 <= groups,
            members > 0,
    ;
    assert(i / members == g && i % members == m) by (nonlinear_arith)
        requires
            i == g * members + m,
            0 <= m < members,
    ;
}

/// The frames of every video are counted from its own first one.
pub proof fn law_frames_are_counted_in_their_video(
    r: Seq<usize>,
    videos: int,
    frames: int,
    v: int,
    f: int,
)
    requires
        are_frame_positions(r, videos, frames),
        0 <= v < videos,
        0 <= f < frames,
    ensures
        r.len() == videos * frames,
        r[v * frames + f] == f,
{
    lemma_member(videos, frames, v, f);
}

/// Every place of a video attends over time to the context of that video's first frame.
pub proof fn law_places_attend_to_the_first_frame(
    r: Seq<usize>,
    videos: int,
    frames: int,
    places: int,
    v: int,
    p: int,
)
    requires
        are_context_rows(r, videos, frames, places),
        0 <= v < videos,
        0 <= p < places,
    ensures
        r.len() == videos * places,
        r[v * places + p] == v * frames,
{
    lemma_member(videos, places, v, p);
}

} // verus!
