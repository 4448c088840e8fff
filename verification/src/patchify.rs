//! Cutting a latent video into patch tokens, and putting tokens together again.

use vstd::prelude::*;
use crate::tensor::{
    checked_volume,
    in_bounds,
    index_view,
    lemma_tensor_ext,
    lemma_volume2,
    lemma_volume3,
    lemma_volume4,
    ravel,
    tabulate,
    volume,
    Tensor,
};

verus! {

/// The token of a patch: patches are counted by frame, then row, then column of the patch grid.
pub open spec fn token_of(grid: (usize, usize, usize), f: int, h: int, w: int) -> int {
    (f * grid.1 + h) * grid.2 + w
}

/// The place in a token of a channel at a position in the patch, the channel counting slowest.
pub open spec fn channel_first(patch: (usize, usize, usize), c: int, a: int, b: int, d: int) -> int {
    ((c * patch.0 + a) * patch.1 + b) * patch.2 + d
}

/// The place in a token of a channel at a position in the patch, the channel counting fastest.
pub open spec fn channel_last(
    patch: (usize, usize, usize),
    channels: int,
    c: int,
    a: int,
    b: int,
    d: int,
) -> int {
    ((a * patch.1 + b) * patch.2 + d) * channels + c
}

/// Whether a channel, a patch and a position in it exist.
pub open spec fn cell_exists(
    channels: int,
    grid: (usize, usize, usize),
    patch: (usize, usize, usize),
    c: int,
    g: (int, int, int),
    p: (int, int, int),
) -> bool {
    &&& 0 <= c < channels
    &&& 0 <= g.0 < grid.0
    &&& 0 <= g.1 < grid.1
    &&& 0 <= g.2 < grid.2
    &&& 0 <= p.0 < patch.0
    &&& 0 <= p.1 < patch.1
    &&& 0 <= p.2 < patch.2
}

/// The position in the video of a channel of a position in a patch.
pub open spec fn cell_position(
    patch: (usize, usize, usize),
    c: int,
    g: (int, int, int),
    p: (int, int, int),
) -> Seq<int> {
    seq![c, g.0 * patch.0 + p.0, g.1 * patch.1 + p.1, g.2 * patch.2 + p.2]
}

/// The patch grid of a video.
pub open spec fn patch_grid_of(shape: Seq<usize>, patch: (usize, usize, usize)) -> (
    usize,
    usize,
    usize,
) {
    (
        (shape[1] as int / patch.0 as int) as usize,
        (shape[2] as int / patch.1 as int) as usize,
        (shape[3] as int / patch.2 as int) as usize,
    )
}

/// How many positions a patch has.
pub open spec fn patch_volume(patch: (usize, usize, usize)) -> int {
    patch.0 * patch.1 * patch.2
}

/// How many patches a grid has.
pub open spec fn grid_volume(grid: (usize, usize, usize)) -> int {
    grid.0 * grid.1 * grid.2
}

/// Whether tokens hold a video's patches, channels first.
pub open spec fn is_patchified<T>(
    tokens: Tensor<T>,
    x: Tensor<T>,
    grid: (usize, usize, usize),
    patch: (usize, usize, usize),
) -> bool {
    &&& tokens.wf()
    &&& tokens.shape@.len() == 2
    &&& tokens.shape@[0] == grid_volume(grid)
    &&& tokens.shape@[1] == x.shape@[0] * patch_volume(patch)
    &&& forall|c: int, g: (int, int, int), p: (int, int, int)| #[trigger]
        cell_exists(x.shape@[0] as int, grid, patch, c, g, p) ==> tokens.at(
            seq![token_of(grid, g.0, g.1, g.2), channel_first(patch, c, p.0, p.1, p.2)],
        ) == x.at(cell_position(patch, c, g, p))
}

/// Whether a video holds the patches of tokens, channels last.
pub open spec fn is_unpatchified<T>(
    x: Tensor<T>,
    tokens: Seq<T>,
    grid: (usize, usize, usize),
    channels: int,
    patch: (usize, usize, usize),
) -> bool {
    &&& x.wf()
    &&& x.shape@ == seq![
        channels as usize,
        (grid.0 * patch.0) as usize,
        (grid.1 * patch.1) as usize,
        (grid.2 * patch.2) as usize,
    ]
    &&& forall|c: int, g: (int, int, int), p: (int, int, int)| #[trigger]
        cell_exists(channels, grid, patch, c, g, p) ==> x.at(cell_position(patch, c, g, p))
            == tokens[token_of(grid, g.0, g.1, g.2) * (patch_volume(patch) * channels)
            + channel_last(patch, channels, c, p.0, p.1, p.2)]
}

/// A number below a product has a quotient and a remainder.
proof fn lemma_split(n: int, a: int, b: int)
    requires
        0 <= n < a * b,
        a >= 0,
        b >= 0,
    ensures
        b > 0,
        0 <= n / b < a,
        0 <= n % b < b,
        n == (n / b) * b + n % b,
{
    assert(b > 0 && 0 <= n / b < a && 0 <= n % b < b && n == (n / b) * b + n % b) by (nonlinear_arith)
        requires
            0 <= n < a * b,
            a >= 0,
            b >= 0,
    ;
}

/// A quotient and a remainder make a number below the product.
proof fn lemma_make(q: int, r: int, a: int, b: int)
    requires
        0 <= q < a,
        0 <= r < b,
    ensures
        0 <= q * b,
        0 <= q * b + r < a * b,
        (q * b + r) / b == q,
        (q * b + r) % b == r,
{
    assert(0 <= q * b && 0 <= q * b + r < a * b) by (nonlinear_arith)
        requires
            0 <= q < a,
            0 <= r < b,
    ;
    assert((q * b + r) / b == q && (q * b + r) % b == r) by (nonlinear_arith)
        requires
            0 <= r < b,
    ;
}

/// What the token and the place in it say of a patch and a position in it.
proof fn lemma_cell(
    channels: int,
    grid: (usize, usize, usize),
    patch: (usize, usize, usize),
    c: int,
    g: (int, int, int),
    p: (int, int, int),
)
    requires
        cell_exists(channels, grid, patch, c, g, p),
    ensures
        ({
            let l = token_of(grid, g.0, g.1, g.2);
            let k = channel_first(patch, c, p.0, p.1, p.2);
            &&& 0 <= l < grid_volume(grid)
            &&& 0 <= k < channels * patch_volume(patch)
            &&& l % (grid.2 as int) == g.2
            &&& (l / (grid.2 as int)) % (grid.1 as int) == g.1
            &&& (l / (grid.2 as int)) / (grid.1 as int) == g.0
            &&& k % (patch.2 as int) == p.2
            &&& (k / (patch.2 as int)) % (patch.1 as int) == p.1
            &&& ((k / (patch.2 as int)) / (patch.1 as int)) % (patch.0 as int) == p.0
            &&& ((k / (patch.2 as int)) / (patch.1 as int)) / (patch.0 as int) == c
        }),
{
    let (g0, g1, g2) = (grid.0 as int, grid.1 as int, grid.2 as int);
    let (p0, p1, p2) = (patch.0 as int, patch.1 as int, patch.2 as int);
    lemma_make(g.0, g.1, g0, g1);
    lemma_make(g.0 * g1 + g.1, g.2, g0 * g1, g2);
    lemma_make(c, p.0, channels, p0);
    lemma_make(c * p0 + p.0, p.1, channels * p0, p1);
    lemma_make((c * p0 + p.0) * p1 + p.1, p.2, channels * p0 * p1, p2);
    assert(channels * p0 * p1 * p2 == channels * (p0 * p1 * p2)) by (nonlinear_arith);
}

/// The product of three numbers, where it fits into a machine word.
fn product3(a: usize, b: usize, c: usize) -> (r: Option<usize>)
    ensures
        match r {
            Some(n) => n == a * b * c,
            None => a * b * c > usize::MAX,
        },
{
    let v: Vec<usize> = vec![a, b, c];
    proof {
        assert(v@ =~= seq![a, b, c]);
        lemma_volume3(a, b, c);
    }
    checked_volume(&v)
}

/// The product of four numbers, where it fits into a machine word.
fn product4(a: usize, b: usize, c: usize, d: usize) -> (r: Option<usize>)
    ensures
        match r {
            Some(n) => n == a * (b * c * d),
            None => a * (b * c * d) > usize::MAX,
        },
{
    let v: Vec<usize> = vec![a, b, c, d];
    proof {
        assert(v@ =~= seq![a, b, c, d]);
        lemma_volume4(a, b, c, d);
        let (w, x, y, z) = (a as int, b as int, c as int, d as int);
        assert(w * x * y * z == w * (x * y * z)) by (nonlinear_arith);
    }
    checked_volume(&v)
}

/// The patch of a token, and the position in it and channel of a place, lie in the video.
proof fn lemma_source(
    channels: int,
    extent: (int, int, int),
    grid: (usize, usize, usize),
    patch: (usize, usize, usize),
    l: int,
    k: int,
)
    requires
        channels >= 0,
        patch.0 > 0,
        patch.1 > 0,
        patch.2 > 0,
        grid.0 == extent.0 / patch.0 as int,
        grid.1 == extent.1 / patch.1 as int,
        grid.2 == extent.2 / patch.2 as int,
        extent.0 >= 0,
        extent.1 >= 0,
        extent.2 >= 0,
        0 <= l < grid_volume(grid),
        0 <= k < channels * patch_volume(patch),
    ensures
        grid.2 > 0,
        grid.1 > 0,
        0 <= ((k / (patch.2 as int)) / (patch.1 as int)) / (patch.0 as int) < channels,
        0 <= ((l / (grid.2 as int)) / (grid.1 as int)) * patch.0 + ((k / (patch.2 as int)) / (
        patch.1 as int)) % (patch.0 as int) < extent.0,
        0 <= ((l / (grid.2 as int)) % (grid.1 as int)) * patch.1 + (k / (patch.2 as int)) % (
        patch.1 as int) < extent.1,
        0 <= (l % (grid.2 as int)) * patch.2 + k % (patch.2 as int) < extent.2,
        0 <= ((l / (grid.2 as int)) / (grid.1 as int)) * patch.0,
        0 <= ((l / (grid.2 as int)) % (grid.1 as int)) * patch.1,
        0 <= (l % (grid.2 as int)) * patch.2,
{
    let (g0, g1, g2) = (grid.0 as int, grid.1 as int, grid.2 as int);
    let (p0, p1, p2) = (patch.0 as int, patch.1 as int, patch.2 as int);
    assert(g0 * g1 >= 0) by (nonlinear_arith)
        requires
            g0 >= 0,
            g1 >= 0,
    ;
    lemma_split(l, g0 * g1, g2);
    lemma_split(l / g2, g0, g1);
    assert(channels * (p0 * p1 * p2) == channels * p0 * p1 * p2) by (nonlinear_arith);
    assert(channels * p0 >= 0) by (nonlinear_arith)
        requires
            channels >= 0,
            p0 > 0,
    ;
    assert(channels * p0 * p1 >= 0) by (nonlinear_arith)
        requires
            channels * p0 >= 0,
            p1 > 0,
    ;
    lemma_split(k, channels * p0 * p1, p2);
    lemma_split(k / p2, channels * p0, p1);
    lemma_split((k / p2) / p1, channels, p0);
    lemma_make((l / g2) / g1, ((k / p2) / p1) % p0, g0, p0);
    lemma_make((l / g2) % g1, (k / p2) % p1, g1, p1);
    lemma_make(l % g2, k % p2, g2, p2);
    lemma_fills(extent.0, p0);
    lemma_fills(extent.1, p1);
    lemma_fills(extent.2, p2);
}

/// Whole patches fit an extent.
proof fn lemma_fills(n: int, p: int)
    requires
        n >= 0,
        p > 0,
    ensures
        0 <= (n / p) * p <= n,
{
    assert(0 <= (n / p) * p <= n) by (nonlinear_arith)
        requires
            n >= 0,
            p > 0,
    ;
}

/// The position in the video of a place in a token.
pub open spec fn source_position(
    grid: (usize, usize, usize),
    patch: (usize, usize, usize),
    l: int,
    k: int,
) -> Seq<int> {
    seq![
        ((k / (patch.2 as int)) / (patch.1 as int)) / (patch.0 as int),
        ((l / (grid.2 as int)) / (grid.1 as int)) * patch.0 + ((k / (patch.2 as int)) / (
        patch.1 as int)) % (patch.0 as int),
        ((l / (grid.2 as int)) % (grid.1 as int)) * patch.1 + (k / (patch.2 as int)) % (
        patch.1 as int),
        (l % (grid.2 as int)) * patch.2 + k % (patch.2 as int),
    ]
}

/// Cuts a video over channels, frames, rows and columns into patch tokens, channels first, and says
/// what the patch grid is. A video that the patches do not fill is nothing, and so is one whose tokens
/// a machine word cannot count.
pub fn patchify<T: Copy>(x: &Tensor<T>, patch_size: (usize, usize, usize)) -> (r: Option<
    (Tensor<T>, (usize, usize, usize)),
>)
    requires
        x.wf(),
        x.shape@.len() == 4,
        patch_size.0 > 0,
        patch_size.1 > 0,
        patch_size.2 > 0,
    ensures
        ({
            let grid = patch_grid_of(x.shape@, patch_size);
            match r {
                Some(t) => {
                    &&& grid_volume(grid) * (x.shape@[0] * patch_volume(patch_size)) == volume(
                        x.shape@,
                    )
                    &&& t.1 == grid
                    &&& is_patchified(t.0, *x, grid, patch_size)
                },
                None => grid_volume(grid) * (x.shape@[0] * patch_volume(patch_size)) != volume(
                    x.shape@,
                ) || grid_volume(grid) > usize::MAX || x.shape@[0] * patch_volume(patch_size)
                    > usize::MAX,
            }
        }),
{
    let (pt, ph, pw) = patch_size;
    let c: usize = x.shape[0];
    let gf: usize = x.shape[1] / pt;
    let gh: usize = x.shape[2] / ph;
    let gw: usize = x.shape[3] / pw;
    let grid: (usize, usize, usize) = (gf, gh, gw);
    let count: usize = match product3(gf, gh, gw) {
        Some(n) => n,
        None => {
            return None;
        },
    };
    let width: usize = match product4(c, pt, ph, pw) {
        Some(n) => n,
        None => {
            return None;
        },
    };
    let len: usize = x.data.len();
    match count.checked_mul(width) {
        Some(n) => {
            if n != len {
                return None;
            }
        },
        None => {
            return None;
        },
    }
    let shape: Vec<usize> = vec![count, width];
    assert(shape@ =~= seq![count, width]);
    proof {
        lemma_volume2(count, width);
    }
    let ghost g = |idx: Seq<int>| x.at(source_position(grid, patch_size, idx[0], idx[1]));
    let f = |v: &Vec<usize>| -> (out: T)
        requires
            in_bounds(seq![count, width], index_view(v@)),
            x.wf(),
            x.shape@.len() == 4,
            c == x.shape@[0],
            pt > 0,
            ph > 0,
            pw > 0,
            (pt, ph, pw) == patch_size,
            grid == (gf, gh, gw),
            gf == x.shape@[1] as int / pt as int,
            gh == x.shape@[2] as int / ph as int,
            gw == x.shape@[3] as int / pw as int,
            count == grid_volume(grid),
            width == c * patch_volume(patch_size),
        ensures
            out == g(index_view(v@)),
        {
            let l: usize = v[0];
            let k: usize = v[1];
            proof {
                let iv = index_view(v@);
                let sh = seq![count, width];
                assert(0 <= iv[0] < sh[0]);
                assert(0 <= iv[1] < sh[1]);
                lemma_source(
                    c as int,
                    (x.shape@[1] as int, x.shape@[2] as int, x.shape@[3] as int),
                    grid,
                    patch_size,
                    l as int,
                    k as int,
                );
            }
            let at: Vec<usize> = vec![
                ((k / pw) / ph) / pt,
                ((l / gw) / gh) * pt + ((k / pw) / ph) % pt,
                ((l / gw) % gh) * ph + (k / pw) % ph,
                (l % gw) * pw + k % pw,
            ];
            assert(index_view(at@) =~= source_position(grid, patch_size, l as int, k as int));
            x.get(&at)
        };
    let tokens = tabulate(shape, f, Ghost(g));
    proof {
        assert forall|c2: int, gg: (int, int, int), p: (int, int, int)| #[trigger]
            cell_exists(x.shape@[0] as int, grid, patch_size, c2, gg, p) implies tokens.at(
            seq![token_of(grid, gg.0, gg.1, gg.2), channel_first(patch_size, c2, p.0, p.1, p.2)],
        ) == x.at(cell_position(patch_size, c2, gg, p)) by {
            lemma_cell(c as int, grid, patch_size, c2, gg, p);
            let l = token_of(grid, gg.0, gg.1, gg.2);
            let k = channel_first(patch_size, c2, p.0, p.1, p.2);
            let idx = seq![l, k];
            assert(in_bounds(tokens.shape@, idx));
            assert(source_position(grid, patch_size, l, k) =~= cell_position(patch_size, c2, gg, p));
        }
    }
    Some((tokens, grid))
}

/// A position in the video, split into its patch and the position in it, has a place in the tokens.
proof fn lemma_target(
    channels: int,
    grid: (usize, usize, usize),
    patch: (usize, usize, usize),
    c: int,
    y: (int, int, int),
)
    requires
        0 <= c < channels,
        0 <= y.0 < grid.0 * patch.0,
        0 <= y.1 < grid.1 * patch.1,
        0 <= y.2 < grid.2 * patch.2,
    ensures
        patch.0 > 0,
        patch.1 > 0,
        patch.2 > 0,
        ({
            let g = (y.0 / (patch.0 as int), y.1 / (patch.1 as int), y.2 / (patch.2 as int));
            let p = (y.0 % (patch.0 as int), y.1 % (patch.1 as int), y.2 % (patch.2 as int));
            cell_exists(channels, grid, patch, c, g, p)
        }),
{
    lemma_split(y.0, grid.0 as int, patch.0 as int);
    lemma_split(y.1, grid.1 as int, patch.1 as int);
    lemma_split(y.2, grid.2 as int, patch.2 as int);
}

/// A product with a positive number is no less.
proof fn lemma_no_less(a: int, b: int)
    requires
        a >= 0,
        b > 0,
    ensures
        a <= a * b,
{
    assert(a <= a * b) by (nonlinear_arith)
        requires
            a >= 0,
            b > 0,
    ;
}

/// The place in the tokens of a cell, channels last, and the parts it is reckoned from.
proof fn lemma_last_place(
    channels: int,
    grid: (usize, usize, usize),
    patch: (usize, usize, usize),
    c: int,
    g: (int, int, int),
    p: (int, int, int),
)
    requires
        cell_exists(channels, grid, patch, c, g, p),
    ensures
        ({
            let l = token_of(grid, g.0, g.1, g.2);
            let k = channel_last(patch, channels, c, p.0, p.1, p.2);
            &&& 0 <= g.0 * grid.1
            &&& 0 <= g.0 * grid.1 + g.1 <= (g.0 * grid.1 + g.1) * grid.2
            &&& 0 <= l < grid_volume(grid)
            &&& 0 <= p.0 * patch.1
            &&& 0 <= p.0 * patch.1 + p.1 <= (p.0 * patch.1 + p.1) * patch.2
            &&& patch.0 * patch.1 <= patch_volume(patch)
            &&& 0 <= (p.0 * patch.1 + p.1) * patch.2 + p.2 < patch_volume(patch)
            &&& 0 <= ((p.0 * patch.1 + p.1) * patch.2 + p.2) * channels
            &&& 0 <= k < patch_volume(patch) * channels
            &&& 0 <= l * (patch_volume(patch) * channels)
            &&& 0 <= l * (patch_volume(patch) * channels) + k < grid_volume(grid) * (patch_volume(
                patch,
            ) * channels)
        }),
{
    let (g0, g1, g2) = (grid.0 as int, grid.1 as int, grid.2 as int);
    let (p0, p1, p2) = (patch.0 as int, patch.1 as int, patch.2 as int);
    lemma_make(g.0, g.1, g0, g1);
    lemma_make(g.0 * g1 + g.1, g.2, g0 * g1, g2);
    lemma_make(p.0, p.1, p0, p1);
    lemma_make(p.0 * p1 + p.1, p.2, p0 * p1, p2);
    lemma_no_less(g.0 * g1 + g.1, g2);
    lemma_no_less(p.0 * p1 + p.1, p2);
    lemma_no_less(p0 * p1, p2);
    lemma_make((p.0 * p1 + p.1) * p2 + p.2, c, patch_volume(patch), channels);
    lemma_make(
        token_of(grid, g.0, g.1, g.2),
        channel_last(patch, channels, c, p.0, p.1, p.2),
        grid_volume(grid),
        patch_volume(patch) * channels,
    );
}

/// Puts tokens, channels last, together to a video over channels, frames, rows and columns. Tokens
/// that are too many or too few for the grid are nothing, and so is a video whose extents a machine
/// word cannot count.
pub fn unpatchify<T: Copy>(
    tokens: &Tensor<T>,
    grid: (usize, usize, usize),
    out_dim: usize,
    patch_size: (usize, usize, usize),
) -> (r: Option<Tensor<T>>)
    requires
        tokens.wf(),
    ensures
        match r {
            Some(x) => {
                &&& grid_volume(grid) * (patch_volume(patch_size) * out_dim) == tokens.data@.len()
                &&& is_unpatchified(x, tokens.data@, grid, out_dim as int, patch_size)
            },
            None => grid_volume(grid) * (patch_volume(patch_size) * out_dim) != tokens.data@.len()
                || grid.0 * patch_size.0 > usize::MAX || grid.1 * patch_size.1 > usize::MAX || grid.2
                * patch_size.2 > usize::MAX,
        },
{
    let (gf, gh, gw) = grid;
    let (pt, ph, pw) = patch_size;
    let f_out: usize = match gf.checked_mul(pt) {
        Some(n) => n,
        None => {
            return None;
        },
    };
    let h_out: usize = match gh.checked_mul(ph) {
        Some(n) => n,
        None => {
            return None;
        },
    };
    let w_out: usize = match gw.checked_mul(pw) {
        Some(n) => n,
        None => {
            return None;
        },
    };
    let shape: Vec<usize> = vec![out_dim, f_out, h_out, w_out];
    assert(shape@ =~= seq![out_dim, f_out, h_out, w_out]);
    proof {
        lemma_volume4(out_dim, f_out, h_out, w_out);
        lemma_regroup(
            out_dim as int,
            (gf as int, gh as int, gw as int),
            (pt as int, ph as int, pw as int),
        );
    }
    let len: usize = tokens.data.len();
    match checked_volume(&shape) {
        Some(n) => {
            if n != len {
                return None;
            }
        },
        None => {
            return None;
        },
    }
    let data: &Vec<T> = &tokens.data;
    let ghost g = |idx: Seq<int>|
        data@[token_of(
            grid,
            idx[1] / (pt as int),
            idx[2] / (ph as int),
            idx[3] / (pw as int),
        ) * (patch_volume(patch_size) * out_dim) + channel_last(
            patch_size,
            out_dim as int,
            idx[0],
            idx[1] % (pt as int),
            idx[2] % (ph as int),
            idx[3] % (pw as int),
        )];
    let f = |v: &Vec<usize>| -> (out: T)
        requires
            in_bounds(seq![out_dim, f_out, h_out, w_out], index_view(v@)),
            data@.len() == grid_volume(grid) * (patch_volume(patch_size) * out_dim),
            grid == (gf, gh, gw),
            patch_size == (pt, ph, pw),
            f_out == gf * pt,
            h_out == gh * ph,
            w_out == gw * pw,
        ensures
            out == g(index_view(v@)),
        {
            proof {
                let iv = index_view(v@);
                let sh = seq![out_dim, f_out, h_out, w_out];
                assert(0 <= iv[0] < sh[0]);
                assert(0 <= iv[1] < sh[1]);
                assert(0 <= iv[2] < sh[2]);
                assert(0 <= iv[3] < sh[3]);
                let y = (iv[1], iv[2], iv[3]);
                lemma_target(out_dim as int, grid, patch_size, iv[0], y);
                let gg = (y.0 / (pt as int), y.1 / (ph as int), y.2 / (pw as int));
                let pp = (y.0 % (pt as int), y.1 % (ph as int), y.2 % (pw as int));
                lemma_last_place(out_dim as int, grid, patch_size, iv[0], gg, pp);
                lemma_bounded(
                    grid_volume(grid),
                    patch_volume(patch_size),
                    out_dim as int,
                    data@.len() as int,
                );
            }
            let c: usize = v[0];
            let inside: usize = ((v[1] % pt) * ph + v[2] % ph) * pw + v[3] % pw;
            let token: usize = ((v[1] / pt) * gh + v[2] / ph) * gw + v[3] / pw;
            let width: usize = pt * ph * pw * out_dim;
            data[token * width + (inside * out_dim + c)]
        };
    let x = tabulate(shape, f, Ghost(g));
    proof {
        assert forall|c: int, gg: (int, int, int), p: (int, int, int)| #[trigger]
            cell_exists(out_dim as int, grid, patch_size, c, gg, p) implies x.at(
            cell_position(patch_size, c, gg, p),
        ) == tokens.data@[token_of(grid, gg.0, gg.1, gg.2) * (patch_volume(patch_size) * out_dim)
            + channel_last(patch_size, out_dim as int, c, p.0, p.1, p.2)] by {
            let idx = cell_position(patch_size, c, gg, p);
            lemma_make(gg.0, p.0, gf as int, pt as int);
            lemma_make(gg.1, p.1, gh as int, ph as int);
            lemma_make(gg.2, p.2, gw as int, pw as int);
            assert(in_bounds(x.shape@, idx));
        }
    }
    Some(x)
}

/// The product of four with two times two, taken pair by pair.
proof fn lemma_swap(a: int, b: int, c: int, d: int)
    ensures
        (a * b) * (c * d) == (a * c) * (b * d),
{
    assert((a * b) * (c * d) == (a * c) * (b * d)) by (nonlinear_arith);
}

/// The extents of a video, multiplied, are its patches times what a patch holds.
proof fn lemma_regroup(o: int, g: (int, int, int), p: (int, int, int))
    ensures
        o * (g.0 * p.0) * (g.1 * p.1) * (g.2 * p.2) == (g.0 * g.1 * g.2) * ((p.0 * p.1 * p.2) * o),
{
    let (x, y, z) = (g.0 * p.0, g.1 * p.1, g.2 * p.2);
    lemma_swap(g.0, p.0, g.1, p.1);
    lemma_swap(g.0 * g.1, p.0 * p.1, g.2, p.2);
    assert(o * x * y * z == ((x * y) * z) * o) by (nonlinear_arith);
    let (m, n) = (g.0 * g.1 * g.2, p.0 * p.1 * p.2);
    assert((m * n) * o == m * (n * o)) by (nonlinear_arith);
}

/// The parts of a product that is a length are lengths, where there is something.
proof fn lemma_bounded(cells: int, patch: int, channels: int, len: int)
    requires
        cells > 0,
        patch > 0,
        channels > 0,
        len == cells * (patch * channels),
    ensures
        patch <= patch * channels <= len,
        cells <= len,
{
    assert(patch <= patch * channels && patch * channels > 0) by (nonlinear_arith)
        requires
            patch > 0,
            channels > 0,
    ;
    let m = patch * channels;
    assert(m <= cells * m && cells <= cells * m) by (nonlinear_arith)
        requires
            cells > 0,
            m > 0,
    ;
}

/// Where the channel counting slowest and the channel counting fastest come to the same, which is with
/// one channel or with patches of one position, putting together what a video was cut into gives the
/// video.
pub proof fn law_patches_round_trip<T>(
    x: Tensor<T>,
    tokens: Tensor<T>,
    back: Tensor<T>,
    patch: (usize, usize, usize),
)
    requires
        x.wf(),
        x.shape@.len() == 4,
        x.shape@[0] == 1 || patch == (1usize, 1usize, 1usize),
        patch.0 > 0,
        patch.1 > 0,
        patch.2 > 0,
        x.shape@[1] as int % patch.0 as int == 0,
        x.shape@[2] as int % patch.1 as int == 0,
        x.shape@[3] as int % patch.2 as int == 0,
        is_patchified(tokens, x, patch_grid_of(x.shape@, patch), patch),
        is_unpatchified(
            back,
            tokens.data@,
            patch_grid_of(x.shape@, patch),
            x.shape@[0] as int,
            patch,
        ),
    ensures
        back.shape@ == x.shape@,
        back.data@ == x.data@,
{
    let grid = patch_grid_of(x.shape@, patch);
    lemma_whole(x.shape@[1] as int, patch.0 as int);
    lemma_whole(x.shape@[2] as int, patch.1 as int);
    lemma_whole(x.shape@[3] as int, patch.2 as int);
    assert(back.shape@ =~= x.shape@);
    assert forall|idx: Seq<int>| #[trigger] in_bounds(x.shape@, idx) implies back.at(idx) == x.at(
        idx,
    ) by {
        assert(0 <= idx[0] < x.shape@[0]);
        assert(0 <= idx[1] < x.shape@[1]);
        assert(0 <= idx[2] < x.shape@[2]);
        assert(0 <= idx[3] < x.shape@[3]);
        let (p0, p1, p2) = (patch.0 as int, patch.1 as int, patch.2 as int);
        let g = (idx[1] / p0, idx[2] / p1, idx[3] / p2);
        let p = (idx[1] % p0, idx[2] % p1, idx[3] % p2);
        let (c, n) = (idx[0], x.shape@[0] as int);
        lemma_target(n, grid, patch, c, (idx[1], idx[2], idx[3]));
        lemma_split(idx[1], grid.0 as int, p0);
        lemma_split(idx[2], grid.1 as int, p1);
        lemma_split(idx[3], grid.2 as int, p2);
        assert(cell_exists(n, grid, patch, c, g, p));
        assert(cell_position(patch, c, g, p) =~= idx);
        lemma_cell(n, grid, patch, c, g, p);
        let l = token_of(grid, g.0, g.1, g.2);
        let k = channel_first(patch, c, p.0, p.1, p.2);
        let place = channel_last(patch, n, c, p.0, p.1, p.2);
        if n == 1 {
            assert(k == place) by (nonlinear_arith)
                requires
                    c == 0,
                    k == ((c * p0 + p.0) * p1 + p.1) * p2 + p.2,
                    place == ((p.0 * p1 + p.1) * p2 + p.2) * 1 + c,
            ;
        } else {
            assert(k == place) by (nonlinear_arith)
                requires
                    p0 == 1,
                    p1 == 1,
                    p2 == 1,
                    p.0 == 0,
                    p.1 == 0,
                    p.2 == 0,
                    k == ((c * p0 + p.0) * p1 + p.1) * p2 + p.2,
                    place == ((p.0 * p1 + p.1) * p2 + p.2) * n + c,
            ;
        }
        let at = seq![l, k];
        let width = patch_volume(patch);
        assert(n * width == width * n) by (nonlinear_arith);
        lemma_matrix_place(tokens.shape@, l, k);
        assert(tokens.at(at) == tokens.data@[l * (width * n) + k]);
    }
    lemma_tensor_ext(back, x);
}

/// An extent that patches fill is its patches times their extent.
proof fn lemma_whole(n: int, p: int)
    requires
        n >= 0,
        p > 0,
        n % p == 0,
    ensures
        0 <= n / p <= n,
        (n / p) * p == n,
{
    assert(0 <= n / p <= n && (n / p) * p == n) by (nonlinear_arith)
        requires
            n >= 0,
            p > 0,
            n % p == 0,
    ;
}

/// The place of a position in a matrix.
proof fn lemma_matrix_place(shape: Seq<usize>, l: int, k: int)
    requires
        shape.len() == 2,
    ensures
        ravel(shape, seq![l, k]) == l * shape[1] + k,
{
    let s1 = shape.drop_last();
    let i1 = seq![l, k].drop_last();
    assert(s1.drop_last() =~= Seq::<usize>::empty());
    assert(ravel(s1.drop_last(), i1.drop_last()) == 0);
    assert(ravel(s1, i1) == 0 * s1.last() + l);
    assert(ravel(s1, i1) == l);
}

/// Whether predictions are the latents of a batch of tokens, one for each of its members, in order.
pub open spec fn is_unpatchified_batch<T>(
    out: Seq<Tensor<T>>,
    x: Tensor<T>,
    grid: (usize, usize, usize),
    out_dim: int,
    patch: (usize, usize, usize),
) -> bool {
    let n = x.shape@[1] * x.shape@[2];
    &&& out.len() == x.shape@[0]
    &&& forall|i: int|
        0 <= i < out.len() ==> is_unpatchified(
            #[trigger] out[i],
            x.data@.subrange(i * n, (i + 1) * n),
            grid,
            out_dim,
            patch,
        )
}

/// The end of a member of a batch does not lie past the end of the batch.
proof fn lemma_member(i: int, b: int, n: int)
    requires
        0 <= i < b,
        0 <= n,
    ensures
        0 <= i * n,
        i * n + n == (i + 1) * n,
        (i + 1) * n <= b * n,
{
    assert(0 <= i * n) by (nonlinear_arith)
        requires
            0 <= i,
            0 <= n,
    ;
    assert(i * n + n == (i + 1) * n) by (nonlinear_arith);
    assert((i + 1) * n <= b * n) by (nonlinear_arith)
        requires
            i + 1 <= b,
            0 <= n,
    ;
}

/// Puts the latents of a batch of tokens together again, one for each of its members: with guidance on,
/// the conditional prediction comes first and the unconditional one second. Like [`unpatchify`] it gives
/// none where the tokens do not fit.
pub fn unpatchify_batch<T: Copy>(
    x: &Tensor<T>,
    grid: (usize, usize, usize),
    out_dim: usize,
    patch_size: (usize, usize, usize),
) -> (r: Option<Vec<Tensor<T>>>)
    requires
        x.wf(),
        x.shape@.len() == 3,
    ensures
        ({
            let n = x.shape@[1] * x.shape@[2];
            match r {
                Some(v) => {
                    &&& x.shape@[0] > 0 ==> grid_volume(grid) * (patch_volume(patch_size) * out_dim)
                        == n
                    &&& is_unpatchified_batch(v@, *x, grid, out_dim as int, patch_size)
                },
                None => x.shape@[0] > 0 && (grid_volume(grid) * (patch_volume(patch_size) * out_dim)
                    != n || grid.0 * patch_size.0 > usize::MAX || grid.1 * patch_size.1 > usize::MAX
                    || grid.2 * patch_size.2 > usize::MAX),
            }
        }),
{
    let (b, l, k): (usize, usize, usize) = (x.shape[0], x.shape[1], x.shape[2]);
    let mut out: Vec<Tensor<T>> = Vec::new();
    if b == 0 {
        return Some(out);
    }
    let all: usize = x.data.len();
    let ghost n = l * k;
    proof {
        assert(x.shape@ =~= seq![b, l, k]);
        lemma_volume3(b, l, k);
        let (bi, li, ki) = (b as int, l as int, k as int);
        assert(bi * li * ki == bi * n) by (nonlinear_arith)
            requires
                n == li * ki,
        ;
        assert(0 <= n) by (nonlinear_arith)
            requires
                n == li * ki,
                0 <= li,
                0 <= ki,
        ;
        lemma_member(0, bi, n);
    }
    let size: usize = l * k;
    let mut i: usize = 0;
    while i < b
        invariant
            i <= b,
            x.wf(),
            x.shape@ == seq![b, l, k],
            all == x.data.len(),
            all == b * size,
            size == l * k,
            out.len() == i,
            i > 0 ==> grid_volume(grid) * (patch_volume(patch_size) * out_dim) == size,
            forall|j: int|
                0 <= j < i ==> is_unpatchified(
                    #[trigger] out@[j],
                    x.data@.subrange(j * size, (j + 1) * size),
                    grid,
                    out_dim as int,
                    patch_size,
                ),
        decreases b - i,
    {
        proof {
            lemma_member(i as int, b as int, size as int);
        }
        let start: usize = i * size;
        let mut data: Vec<T> = Vec::new();
        let mut j: usize = 0;
        while j < size
            invariant
                j <= size,
                start + size <= all,
                all == x.data.len(),
                data.len() == j,
                data@ == x.data@.subrange(start as int, start + j),
            decreases size - j,
        {
            data.push(x.data[start + j]);
            assert(data@ =~= x.data@.subrange(start as int, start + j + 1));
            j += 1;
        }
        proof {
            lemma_volume2(l, k);
        }
        let rows = Tensor { shape: vec![l, k], data };
        assert(rows.shape@ =~= seq![l, k]);
        match unpatchify(&rows, grid, out_dim, patch_size) {
            Some(latent) => {
                out.push(latent);
            },
            None => {
                return None;
            },
        }
        i += 1;
    }
    Some(out)
}

/// A prediction that is alone in its batch is the latent of its tokens.
pub proof fn law_batch_of_one<T>(
    out: Seq<Tensor<T>>,
    x: Tensor<T>,
    grid: (usize, usize, usize),
    out_dim: int,
    patch: (usize, usize, usize),
)
    requires
        x.wf(),
        x.shape@.len() == 3,
        x.shape@[0] == 1,
        is_unpatchified_batch(out, x, grid, out_dim, patch),
    ensures
        out.len() == 1,
        is_unpatchified(out[0], x.data@, grid, out_dim, patch),
{
    let (l, k) = (x.shape@[1], x.shape@[2]);
    assert(x.shape@ =~= seq![1usize, l, k]);
    lemma_volume3(1, l, k);
    let n = l * k;
    let whole = x.data@;
    assert(whole.len() == n) by {
        let (li, ki) = (l as int, k as int);
        assert(1 * li * ki == li * ki) by (nonlinear_arith);
    }
    assert(0 * n == 0 && (0 + 1) * n == n) by (nonlinear_arith);
    assert(whole.subrange(0 * n, (0 + 1) * n) =~= whole);
    assert(out[0] == out[0]);
}

/// Where the pieces of a video go. A token stands for a patch; tokens go frame by frame, row by row and
/// column by column of the patches. In a token the channels follow each other, each as the whole patch,
/// again frame by frame, row by row and column by column.
pub proof fn law_token_holds_channel_after_channel<T>(
    tokens: Tensor<T>,
    x: Tensor<T>,
    grid: (usize, usize, usize),
    patch: (usize, usize, usize),
    c: int,
    g: (int, int, int),
    p: (int, int, int),
)
    requires
        is_patchified(tokens, x, grid, patch),
        0 <= c < x.shape@[0],
        0 <= g.0 < grid.0,
        0 <= g.1 < grid.1,
        0 <= g.2 < grid.2,
        0 <= p.0 < patch.0,
        0 <= p.1 < patch.1,
        0 <= p.2 < patch.2,
    ensures
        tokens.shape@.len() == 2,
        tokens.shape@[0] == grid.0 * grid.1 * grid.2,
        tokens.shape@[1] == x.shape@[0] * (patch.0 * patch.1 * patch.2),
        tokens.at(
            seq![
                grid.1 * grid.2 * g.0 + grid.2 * g.1 + g.2,
                patch.0 * patch.1 * patch.2 * c + patch.1 * patch.2 * p.0 + patch.2 * p.1 + p.2,
            ],
        ) == x.at(
            seq![c, patch.0 * g.0 + p.0, patch.1 * g.1 + p.1, patch.2 * g.2 + p.2],
        ),
{
    assert(cell_exists(x.shape@[0] as int, grid, patch, c, g, p));
    lemma_places(grid, patch, x.shape@[0] as int, c, g, p);
    let from = seq![
        token_of(grid, g.0, g.1, g.2),
        channel_first(patch, c, p.0, p.1, p.2),
    ];
    assert(from =~= seq![
        grid.1 * grid.2 * g.0 + grid.2 * g.1 + g.2,
        patch.0 * patch.1 * patch.2 * c + patch.1 * patch.2 * p.0 + patch.2 * p.1 + p.2,
    ]);
    assert(cell_position(patch, c, g, p) =~= seq![
        c,
        patch.0 * g.0 + p.0,
        patch.1 * g.1 + p.1,
        patch.2 * g.2 + p.2,
    ]);
}

/// The places of a piece, multiplied out.
proof fn lemma_places(
    grid: (usize, usize, usize),
    patch: (usize, usize, usize),
    n: int,
    c: int,
    g: (int, int, int),
    p: (int, int, int),
)
    ensures
        token_of(grid, g.0, g.1, g.2) == grid.1 * grid.2 * g.0 + grid.2 * g.1 + g.2,
        channel_first(patch, c, p.0, p.1, p.2) == patch.0 * patch.1 * patch.2 * c + patch.1
            * patch.2 * p.0 + patch.2 * p.1 + p.2,
        channel_last(patch, n, c, p.0, p.1, p.2) == n * (patch.1 * patch.2 * p.0 + patch.2 * p.1
            + p.2) + c,
        g.0 * patch.0 == patch.0 * g.0,
        g.1 * patch.1 == patch.1 * g.1,
        g.2 * patch.2 == patch.2 * g.2,
{
    let (g1, g2) = (grid.1 as int, grid.2 as int);
    let (p0, p1, p2) = (patch.0 as int, patch.1 as int, patch.2 as int);
    let (a, b, d) = (p.0, p.1, p.2);
    let (e, f, h) = g;
    assert((e * g1 + f) * g2 + h == g1 * g2 * e + g2 * f + h) by (nonlinear_arith);
    let (m, u) = (p1 * p2, c * p0 + a);
    assert((u * p1 + b) * p2 + d == m * u + p2 * b + d) by (nonlinear_arith)
        requires
            m == p1 * p2,
    ;
    assert(p0 * p1 * p2 == p0 * m) by (nonlinear_arith)
        requires
            m == p1 * p2,
    ;
    assert(m * u == (p0 * m) * c + m * a) by (nonlinear_arith)
        requires
            u == c * p0 + a,
    ;
    assert((a * p1 + b) * p2 + d == p1 * p2 * a + p2 * b + d) by (nonlinear_arith);
    let q = p1 * p2 * a + p2 * b + d;
    assert(q * n == n * q) by (nonlinear_arith);
    assert(e * p0 == p0 * e && f * p1 == p1 * f && h * p2 == p2 * h) by (nonlinear_arith);
}

/// Where the pieces of tokens go when they are put together. Tokens stand for the patches, frame by frame,
/// row by row and column by column. In a token the positions of the patch follow each other in that order,
/// each as all its channels.
pub proof fn law_token_is_read_position_after_position<T>(
    x: Tensor<T>,
    tokens: Seq<T>,
    grid: (usize, usize, usize),
    channels: int,
    patch: (usize, usize, usize),
    c: int,
    g: (int, int, int),
    p: (int, int, int),
)
    requires
        is_unpatchified(x, tokens, grid, channels, patch),
        0 <= c < channels,
        0 <= g.0 < grid.0,
        0 <= g.1 < grid.1,
        0 <= g.2 < grid.2,
        0 <= p.0 < patch.0,
        0 <= p.1 < patch.1,
        0 <= p.2 < patch.2,
    ensures
        x.at(seq![c, patch.0 * g.0 + p.0, patch.1 * g.1 + p.1, patch.2 * g.2 + p.2])
            == tokens[(grid.1 * grid.2 * g.0 + grid.2 * g.1 + g.2) * (patch.0 * patch.1 * patch.2
            * channels) + (channels * (patch.1 * patch.2 * p.0 + patch.2 * p.1 + p.2) + c)],
{
    assert(cell_exists(channels, grid, patch, c, g, p));
    lemma_places(grid, patch, channels, c, g, p);
    assert(cell_position(patch, c, g, p) =~= seq![
        c,
        patch.0 * g.0 + p.0,
        patch.1 * g.1 + p.1,
        patch.2 * g.2 + p.2,
    ]);
}

} // verus!
