//! What the video autoencoders share: the feature cache of a chunked encode, and the order and places
//! of the tiles of a tiled decode.

use vstd::prelude::*;
use crate::error::Error;
use crate::numeric::smaller;
use crate::tensor::{
    in_bounds,
    in_window,
    is_padded,
    is_slice,
    window_index,
    Tensor,
};

verus! {

/// The last `n` frames along the axis of time.
pub fn last_t_axis<T: Copy>(x: &Tensor<T>, n: usize, t_axis: usize) -> (r: Tensor<T>)
    requires
        x.wf(),
        t_axis < x.shape@.len(),
        n <= x.shape@[t_axis as int],
    ensures
        is_slice(
            r,
            *x,
            t_axis as int,
            x.shape@[t_axis as int] - n,
            x.shape@[t_axis as int] as int,
        ),
{
    let t: usize = x.shape[t_axis];
    x.slice_axis(t_axis, t - n, t)
}

/// What each convolution keeps of the chunk before: one slot for each, visited in the same order for
/// every chunk.
#[derive(Debug)]
pub struct FeatCache<A> {
    pub slots: Vec<Option<A>>,
    pub idx: usize,
}

impl<A> FeatCache<A> {
    /// The next slot to visit is one of them, or all are visited.
    pub open spec fn wf(&self) -> bool {
        self.idx <= self.slots@.len()
    }

    /// A cache of `n` empty slots.
    pub fn new(n: usize) -> (r: FeatCache<A>)
        ensures
            r.wf(),
            r.idx == 0,
            r.slots@.len() == n,
            forall|i: int| 0 <= i < n ==> #[trigger] r.slots@[i] is None,
    {
        let mut slots: Vec<Option<A>> = Vec::new();
        let mut i: usize = 0;
        while i < n
            invariant
                i <= n,
                slots.len() == i,
                forall|j: int| 0 <= j < i ==> #[trigger] slots@[j] is None,
            decreases n - i,
        {
            slots.push(None);
            i += 1;
        }
        FeatCache { slots, idx: 0 }
    }

    /// Starts the next chunk: the slots keep what they hold, and are visited from the first again.
    pub fn rewind(&mut self)
        ensures
            final(self).wf(),
            final(self).idx == 0,
            final(self).slots@ == old(self).slots@,
    {
        self.idx = 0;
    }

    /// Puts a value into the next slot, hands back what was there, and goes on to the slot after it.
    pub fn exchange(&mut self, value: A) -> (r: Option<A>)
        requires
            old(self).idx < old(self).slots@.len(),
        ensures
            final(self).wf(),
            final(self).idx == old(self).idx + 1,
            r == old(self).slots@[old(self).idx as int],
            final(self).slots@ == old(self).slots@.update(old(self).idx as int, Some(value)),
    {
        let i: usize = self.idx;
        let n: usize = self.slots.len();
        assert(i < n);
        self.idx = i + 1;
        let mut fresh: Option<A> = Some(value);
        std::mem::swap(&mut fresh, &mut self.slots[i]);
        fresh
    }
}

/// Five extents, all one but that of `axis`.
pub fn axis_shape(axis: usize, len: usize) -> (r: Vec<usize>)
    requires
        axis < 5,
    ensures
        r@ == seq![1usize, 1, 1, 1, 1].update(axis as int, len),
{
    let mut s: Vec<usize> = vec![1, 1, 1, 1, 1];
    assert(s@ =~= seq![1usize, 1, 1, 1, 1]);
    s[axis] = len;
    s
}

/// A tile along one axis: the latent it is cut from, the output it goes to, and its blend weights.
#[derive(Debug)]
pub struct AxisTile<M> {
    pub start: usize,
    pub end: usize,
    pub out_start: usize,
    pub out_stop: usize,
    pub mask: Vec<M>,
}

/// The tiles of a decode along time, rows and columns, and the extents of the output.
#[derive(Debug)]
pub struct TilePlan<M> {
    pub t: Vec<AxisTile<M>>,
    pub h: Vec<AxisTile<M>>,
    pub w: Vec<AxisTile<M>>,
    pub out_f: usize,
    pub out_h: usize,
    pub out_w: usize,
}

/// How many tiles a plan has.
pub open spec fn tile_count<M>(plan: TilePlan<M>) -> nat {
    plan.t@.len() * plan.h@.len() * plan.w@.len()
}

/// What a tiled decode does next.
#[derive(Debug, Clone, Copy, PartialEq, Eq, Structural)]
pub enum TileAction {
    /// Decode the tile with these indices along time, rows and columns, and blend it in.
    Decode { t: usize, h: usize, w: usize },
    /// Divide the sum by the weights and hand it back.
    Finish,
}

/// Whether a tile is the one that comes after `done` others.
pub open spec fn is_tile_after<M>(plan: TilePlan<M>, done: int, t: int, h: int, w: int) -> bool {
    &&& 0 <= t < plan.t@.len()
    &&& 0 <= h < plan.h@.len()
    &&& 0 <= w < plan.w@.len()
    &&& done == (t * plan.h@.len() + h) * plan.w@.len() + w
}

/// Tiles go column by column, then row by row, then in time: behind a tile comes the next column of its row,
/// behind the last column the first of the next row, and behind the last row the first of the next in time.
/// No two tiles come after as many others.
pub proof fn law_tiles_go_column_by_column<M>(
    plan: TilePlan<M>,
    done: int,
    t: int,
    h: int,
    w: int,
    t2: int,
    h2: int,
    w2: int,
)
    requires
        is_tile_after(plan, done, t, h, w),
        is_tile_after(plan, done + 1, t2, h2, w2),
    ensures
        w + 1 < plan.w@.len() ==> (t2, h2, w2) == (t, h, w + 1),
        w + 1 == plan.w@.len() && h + 1 < plan.h@.len() ==> (t2, h2, w2) == (t, h + 1, 0int),
        w + 1 == plan.w@.len() && h + 1 == plan.h@.len() ==> (t2, h2, w2) == (t + 1, 0int, 0int),
{
    let (nh, nw) = (plan.h@.len() as int, plan.w@.len() as int);
    let (a, b) = (t * nh + h, t2 * nh + h2);
    lemma_digits(a, w, b, w2, nw);
    if w + 1 < nw {
        lemma_unique(t, h, t2, h2, nh);
    } else {
        lemma_digits(t, h, t2, h2, nh);
        if h + 1 < nh {
            lemma_unique(t, h + 1, t2, h2, nh);
        }
    }
}

/// A number in two digits is followed by the next last digit, or by the next first digit with none behind it.
proof fn lemma_digits(a: int, x: int, b: int, y: int, n: int)
    requires
        0 <= x < n,
        0 <= y < n,
        a * n + x + 1 == b * n + y,
    ensures
        x + 1 < n ==> a == b && y == x + 1,
        x + 1 == n ==> b == a + 1 && y == 0,
{
    if x + 1 < n {
        lemma_unique(a, x + 1, b, y, n);
    } else {
        assert((a + 1) * n == a * n + n) by (nonlinear_arith);
        lemma_unique(a + 1, 0, b, y, n);
    }
}

/// A number has one first and one last digit.
proof fn lemma_unique(a: int, x: int, b: int, y: int, n: int)
    requires
        0 <= x < n,
        0 <= y < n,
        a * n + x == b * n + y,
    ensures
        a == b,
        x == y,
{
    if a < b {
        assert(b * n >= a * n + n) by (nonlinear_arith)
            requires
                b >= a + 1,
                n > 0,
        ;
    }
    if b < a {
        assert(a * n >= b * n + n) by (nonlinear_arith)
            requires
                a >= b + 1,
                n > 0,
        ;
    }
}

/// Decides what a tiled decode does once `done` tiles are done. Tiles go by time, then rows, then
/// columns. A request to stop is honoured before every tile. A plan without a tile is an error.
pub fn tile_next<M>(plan: &TilePlan<M>, done: usize, cancelled: bool) -> (r: Result<TileAction, Error>)
    requires
        plan.h@.len() * plan.w@.len() <= usize::MAX,
        tile_count(*plan) <= usize::MAX,
    ensures
        match r {
            Ok(TileAction::Decode { t, h, w }) => {
                &&& done < tile_count(*plan)
                &&& !cancelled
                &&& t < plan.t@.len()
                &&& h < plan.h@.len()
                &&& w < plan.w@.len()
                &&& done == (t * plan.h@.len() + h) * plan.w@.len() + w
                &&& is_tile_after(*plan, done as int, t as int, h as int, w as int)
            },
            Ok(TileAction::Finish) => done >= tile_count(*plan) > 0,
            Err(e) => {
                ||| e is Canceled && cancelled && done < tile_count(*plan)
                ||| e is Msg && tile_count(*plan) == 0 && e.text()
                    == "wan vae: tile-decode plan had no tiles"@
            },
        },
{
    let (nt, nh, nw): (usize, usize, usize) = (plan.t.len(), plan.h.len(), plan.w.len());
    proof {
        let (a, b, c) = (nt as int, nh as int, nw as int);
        assert(a * b * c == a * (b * c) && b * c >= 0 && a * (b * c) >= 0) by (nonlinear_arith)
            requires
                a >= 0,
                b >= 0,
                c >= 0,
        ;
    }
    let plane: usize = nh * nw;
    let total: usize = nt * plane;
    if total == 0 {
        return Err(Error::Msg("wan vae: tile-decode plan had no tiles".to_owned()));
    }
    if done >= total {
        return Ok(TileAction::Finish);
    }
    if cancelled {
        return Err(Error::Canceled);
    }
    proof {
        lemma_tile_order(nt as int, nh as int, nw as int, done as int);
    }
    Ok(TileAction::Decode { t: done / plane, h: (done % plane) / nw, w: done % nw })
}

/// The indices of a tile by its number.
proof fn lemma_tile_order(nt: int, nh: int, nw: int, k: int)
    requires
        nt >= 0,
        nh >= 0,
        nw >= 0,
        0 <= k < nt * (nh * nw),
    ensures
        nh * nw > 0,
        nw > 0,
        0 <= k / (nh * nw) < nt,
        0 <= (k % (nh * nw)) / nw < nh,
        0 <= k % nw < nw,
        k == (k / (nh * nw) * nh + (k % (nh * nw)) / nw) * nw + k % nw,
{
    let m = nh * nw;
    assert(m >= 0) by (nonlinear_arith)
        requires
            m == nh * nw,
            nh >= 0,
            nw >= 0,
    ;
    assert(m > 0 && 0 <= k / m < nt && 0 <= k % m < m && k == (k / m) * m + k % m)
        by (nonlinear_arith)
        requires
            0 <= k < nt * m,
            m >= 0,
            nt >= 0,
    ;
    let t = k / m;
    let r = k % m;
    assert(nw > 0 && 0 <= r / nw < nh && 0 <= r % nw < nw && r == (r / nw) * nw + r % nw)
        by (nonlinear_arith)
        requires
            0 <= r < nh * nw,
            nh >= 0,
            nw >= 0,
    ;
    let h = r / nw;
    let w = r % nw;
    assert(k == (t * nh + h) * nw + w) by (nonlinear_arith)
        requires
            k == t * m + r,
            m == nh * nw,
            r == h * nw + w,
    ;
    let q = t * nh + h;
    assert((q * nw + w) % nw == w) by (nonlinear_arith)
        requires
            0 <= w < nw,
    ;
}

/// Where a decoded tile goes along one axis: so much of it is kept, with so much empty output in front
/// and behind.
#[derive(Debug, Clone, Copy, PartialEq, Eq, Structural)]
pub struct Placement {
    pub kept: usize,
    pub before: usize,
    pub after: usize,
}

/// A tile that ends within the output and has a weight for each place it may fill.
pub open spec fn tile_fits<M>(tile: AxisTile<M>, out: int) -> bool {
    tile.out_start <= tile.out_stop <= out && tile.mask@.len() >= tile.out_stop - tile.out_start
}

/// Whether a decoded tile is placed along one axis.
pub open spec fn is_placed<M>(p: Placement, tile: AxisTile<M>, decoded: int, out: int) -> bool {
    &&& p.kept == smaller(decoded, tile.out_stop - tile.out_start)
    &&& p.before == tile.out_start
    &&& p.before + p.kept + p.after == out
}

/// A tile that was decoded to its full extent goes exactly over its part of the output; what is decoded past
/// the end of that part is cut off, and what is short of it is left empty behind.
pub proof fn law_tile_goes_over_its_part<M>(
    p: Placement,
    tile: AxisTile<M>,
    decoded: int,
    out: int,
)
    requires
        tile_fits(tile, out),
        decoded >= 0,
        is_placed(p, tile, decoded, out),
    ensures
        p.before == tile.out_start,
        decoded >= tile.out_stop - tile.out_start ==> p.before + p.kept == tile.out_stop,
        decoded < tile.out_stop - tile.out_start ==> p.kept == decoded,
        p.after == out - (tile.out_start + p.kept),
{
}

/// Places a decoded tile of a given extent along one axis: what goes past the end of the tile is cut
/// off.
pub fn place_tile<M>(tile: &AxisTile<M>, decoded: usize, out: usize) -> (r: Placement)
    requires
        tile_fits(*tile, out as int),
    ensures
        r.kept == smaller(decoded as int, tile.out_stop - tile.out_start),
        r.before == tile.out_start,
        r.before + r.kept + r.after == out,
        r.kept <= tile.mask@.len(),
        is_placed(r, *tile, decoded as int, out as int),
{
    let room: usize = tile.out_stop - tile.out_start;
    let kept: usize = if decoded <= room {
        decoded
    } else {
        room
    };
    Placement { kept, before: tile.out_start, after: out - (tile.out_start + kept) }
}

/// Whether a tile goes over a place of the output.
pub open spec fn covers<M>(tile: AxisTile<M>, p: int) -> bool {
    tile.out_start <= p < tile.out_stop
}

/// Tiles that leave no gap in the output: the first starts at its start, the last stops at its end, and
/// each starts no later than the one before stops. They may overlap.
pub open spec fn without_gap<M>(tiles: Seq<AxisTile<M>>, out: int) -> bool {
    &&& tiles.len() > 0
    &&& tiles[0].out_start == 0
    &&& tiles.last().out_stop == out
    &&& forall|i: int|
        0 <= i < tiles.len() - 1 ==> tiles[i + 1].out_start <= (#[trigger] tiles[i]).out_stop
}

/// Tiles that lie side by side and fill the output: they start where the one before stops.
pub open spec fn side_by_side<M>(tiles: Seq<AxisTile<M>>, out: int) -> bool {
    &&& without_gap(tiles, out)
    &&& forall|i: int|
        0 <= i < tiles.len() - 1 ==> (#[trigger] tiles[i]).out_stop == tiles[i + 1].out_start
    &&& forall|i: int| 0 <= i < tiles.len() ==> (#[trigger] tiles[i]).out_start <= tiles[i].out_stop
}

/// A tile among the first `n` that covers a place before the end of the last of them.
proof fn lemma_tile_at<M>(tiles: Seq<AxisTile<M>>, out: int, p: int, n: int) -> (k: int)
    requires
        without_gap(tiles, out),
        0 < n <= tiles.len(),
        0 <= p < tiles[n - 1].out_stop,
    ensures
        0 <= k < n,
        covers(tiles[k], p),
    decreases n,
{
    if tiles[n - 1].out_start <= p {
        n - 1
    } else {
        assert(n > 1) by {
            if n == 1 {
                assert(tiles[0].out_start == 0);
            }
        }
        assert(tiles[n - 2 + 1].out_start <= tiles[n - 2].out_stop);
        lemma_tile_at(tiles, out, p, n - 1)
    }
}

/// Tiles without a gap, overlapping or not, cover every place of the output.
pub proof fn law_tiles_cover<M>(tiles: Seq<AxisTile<M>>, out: int, p: int)
    requires
        without_gap(tiles, out),
        0 <= p < out,
    ensures
        exists|i: int| 0 <= i < tiles.len() && covers(#[trigger] tiles[i], p),
{
    let k = lemma_tile_at(tiles, out, p, tiles.len() as int);
    assert(covers(tiles[k], p));
}

/// A plan whose tiles leave no gap along any axis decodes a tile over every place of the video: there
/// is a tile for it among those that are counted.
pub proof fn law_plan_covers_the_video<M>(plan: TilePlan<M>, f: int, y: int, x: int)
    requires
        without_gap(plan.t@, plan.out_f as int),
        without_gap(plan.h@, plan.out_h as int),
        without_gap(plan.w@, plan.out_w as int),
        0 <= f < plan.out_f,
        0 <= y < plan.out_h,
        0 <= x < plan.out_w,
    ensures
        exists|t: int, h: int, w: int|
            {
                &&& 0 <= t < plan.t@.len() && covers(#[trigger] plan.t@[t], f)
                &&& 0 <= h < plan.h@.len() && covers(#[trigger] plan.h@[h], y)
                &&& 0 <= w < plan.w@.len() && covers(#[trigger] plan.w@[w], x)
                &&& 0 <= (t * plan.h@.len() + h) * plan.w@.len() + w < tile_count(plan)
            },
{
    let t = lemma_tile_at(plan.t@, plan.out_f as int, f, plan.t@.len() as int);
    let h = lemma_tile_at(plan.h@, plan.out_h as int, y, plan.h@.len() as int);
    let w = lemma_tile_at(plan.w@, plan.out_w as int, x, plan.w@.len() as int);
    let (a, b, c) = (plan.t@.len() as int, plan.h@.len() as int, plan.w@.len() as int);
    let row = t * b + h;
    assert(0 <= row < a * b) by (nonlinear_arith)
        requires
            row == t * b + h,
            0 <= t < a,
            0 <= h < b,
    ;
    assert(0 <= row * c + w < (a * b) * c) by (nonlinear_arith)
        requires
            0 <= row < a * b,
            0 <= w < c,
    ;
    assert(covers(plan.t@[t], f) && covers(plan.h@[h], y) && covers(plan.w@[w], x));
}

/// The tiles before one stop no later than it starts.
proof fn lemma_tiles_ascend<M>(tiles: Seq<AxisTile<M>>, out: int, i: int, j: int)
    requires
        side_by_side(tiles, out),
        0 <= i < j < tiles.len(),
    ensures
        tiles[i].out_stop <= tiles[j].out_start,
    decreases j,
{
    assert(tiles[j - 1].out_stop == tiles[j].out_start);
    if i < j - 1 {
        lemma_tiles_ascend(tiles, out, i, j - 1);
        assert(tiles[j - 1].out_start <= tiles[j - 1].out_stop);
    }
}

/// Tiles that lie side by side cover every place of the output exactly once.
pub proof fn law_tiles_cover_once<M>(tiles: Seq<AxisTile<M>>, out: int, p: int)
    requires
        side_by_side(tiles, out),
        0 <= p < out,
    ensures
        exists|i: int| 0 <= i < tiles.len() && covers(#[trigger] tiles[i], p),
        forall|i: int, j: int|
            #![trigger tiles[i], tiles[j]]
            0 <= i < tiles.len() && 0 <= j < tiles.len() && covers(tiles[i], p) && covers(
                tiles[j],
                p,
            ) ==> i == j,
{
    law_tiles_cover(tiles, out, p);
    assert forall|i: int, j: int|
        #![trigger tiles[i], tiles[j]]
        0 <= i < tiles.len() && 0 <= j < tiles.len() && covers(tiles[i], p) && covers(
            tiles[j],
            p,
        ) implies i == j by {
        if i < j {
            lemma_tiles_ascend(tiles, out, i, j);
        }
        if j < i {
            lemma_tiles_ascend(tiles, out, j, i);
        }
    }
}

/// A window cut out along one axis and put back where it was cut holds what was there, and nothing
/// elsewhere.
pub proof fn law_cut_and_placed_back<T>(
    x: Tensor<T>,
    cut: Tensor<T>,
    placed: Tensor<T>,
    axis: int,
    start: int,
    end: int,
    pads: Seq<(usize, usize)>,
    fill: T,
)
    requires
        x.wf(),
        0 <= axis < x.shape@.len(),
        0 <= start <= end <= x.shape@[axis],
        is_slice(cut, x, axis, start, end),
        pads.len() == x.shape@.len(),
        forall|a: int|
            0 <= a < pads.len() ==> #[trigger] pads[a] == if a == axis {
                (start as usize, (x.shape@[axis] - end) as usize)
            } else {
                (0usize, 0usize)
            },
        is_padded(placed, cut, pads, fill),
    ensures
        placed.shape@ == x.shape@,
        forall|idx: Seq<int>| #[trigger]
            in_bounds(x.shape@, idx) ==> placed.at(idx) == if start <= idx[axis] < end {
                x.at(idx)
            } else {
                fill
            },
{
    assert(placed.shape@ =~= x.shape@) by {
        assert forall|a: int| 0 <= a < x.shape@.len() implies #[trigger] placed.shape@[a]
            == x.shape@[a] by {
            assert(pads[a].0 + cut.shape@[a] + pads[a].1 == x.shape@[a]);
        }
    }
    assert forall|idx: Seq<int>| #[trigger] in_bounds(x.shape@, idx) implies placed.at(idx) == if start
        <= idx[axis] < end {
        x.at(idx)
    } else {
        fill
    } by {
        assert(in_bounds(placed.shape@, idx));
        let w = window_index(pads, idx);
        if start <= idx[axis] < end {
            assert(in_window(cut.shape@, pads, idx)) by {
                assert forall|a: int| 0 <= a < cut.shape@.len() implies pads[a].0 <= #[trigger] idx[a]
                    < pads[a].0 + cut.shape@[a] by {
                    assert(0 <= idx[a] < x.shape@[a]);
                    assert(pads[a] == if a == axis {
                        (start as usize, (x.shape@[axis] - end) as usize)
                    } else {
                        (0usize, 0usize)
                    });
                }
            }
            assert(in_bounds(cut.shape@, w)) by {
                assert forall|a: int| 0 <= a < cut.shape@.len() implies 0 <= #[trigger] w[a]
                    < cut.shape@[a] by {
                    assert(pads[a].0 <= idx[a] < pads[a].0 + cut.shape@[a]);
                }
            }
            assert(w.update(axis, w[axis] + start) =~= idx);
        } else {
            assert(pads[axis].0 == start);
            assert(!(pads[axis].0 <= idx[axis] < pads[axis].0 + cut.shape@[axis]));
            assert(!in_window(cut.shape@, pads, idx));
        }
    }
}

} // verus!
