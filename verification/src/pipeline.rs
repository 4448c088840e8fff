//! The geometry of a video: sizes that fit the model's grid, latent shapes, token counts, and which
//! expert denoises which step.

use vstd::prelude::*;
use crate::adapters::MoeExpert;
use crate::error::Error;
use crate::numeric::{floor_root, integer_root, larger, lemma_floor_root, ratio_less, smaller};
use crate::scheduler::{
    make_scheduler,
    order_of,
    over_stepped,
    Scheduler,
    SolverKind,
    StepPlan,
    WanScheduler,
};

verus! {

/// Rounds a pixel count down to a multiple of the patch times the stride.
pub fn align_dim(value: u32, patch: usize, stride: usize) -> (r: u32)
    requires
        0 < patch * stride <= u32::MAX,
    ensures
        r == value as int / (patch * stride) * (patch * stride),
        is_aligned(r as int, value as int, patch as int, stride as int),
{
    proof {
        let p = patch as int;
        let s = stride as int;
        assert(p * s <= usize::MAX);
    }
    let align: u32 = (patch * stride) as u32;
    let cells: u32 = value / align;
    proof {
        let v = value as int;
        let a = align as int;
        assert(0 <= (v / a) * a <= v) by (nonlinear_arith)
            requires
                a > 0,
                v >= 0,
        ;
    }
    cells * align
}

/// An aligned pixel count is a multiple of the grid, no larger than what was asked for and less than
/// one cell below it, and aligning it again changes nothing.
pub proof fn law_align_dim(value: int, align: int)
    requires
        value >= 0,
        align > 0,
    ensures
        (value / align * align) % align == 0,
        value - align < value / align * align <= value,
        (value / align * align) / align * align == value / align * align,
{
    let q = value / align;
    assert((q * align) % align == 0 && (q * align) / align == q) by (nonlinear_arith)
        requires
            align > 0,
    ;
    assert(value - align < q * align <= value) by (nonlinear_arith)
        requires
            align > 0,
            q == value / align,
    ;
}

/// The knobs of a denoise loop.
#[derive(Debug)]
pub struct SamplerKnobs<S> {
    pub steps: usize,
    pub shift: S,
    pub kind: SolverKind,
    pub seed: u64,
}

/// Settles the knobs of a denoise loop: what the request sets, else the model's default, the default
/// solver, and a fresh seed.
pub fn resolve_sampler_knobs<S: Copy>(
    steps: Option<u32>,
    shift: Option<S>,
    sampler: &Option<String>,
    seed: Option<u64>,
    steps_default: usize,
    shift_default: S,
    fresh_seed: u64,
) -> (r: SamplerKnobs<S>)
    ensures
        r.steps == match steps {
            Some(n) => n as int,
            None => steps_default as int,
        },
        r.shift == match shift {
            Some(s) => s,
            None => shift_default,
        },
        r.kind == match sampler {
            Some(name) => crate::scheduler::solver_named(name@),
            None => SolverKind::UniPC,
        },
        r.seed == match seed {
            Some(s) => s,
            None => fresh_seed,
        },
{
    SamplerKnobs {
        steps: match steps {
            Some(n) => n as usize,
            None => steps_default,
        },
        shift: match shift {
            Some(s) => s,
            None => shift_default,
        },
        kind: match sampler {
            Some(name) => SolverKind::from_name(name.as_str()),
            None => SolverKind::UniPC,
        },
        seed: match seed {
            Some(s) => s,
            None => fresh_seed,
        },
    }
}

/// How many latent frames `frames` frames have.
pub open spec fn latent_frames(frames: int, stride: int) -> int {
    (frames - 1) / stride + 1
}

/// The latent shape `[channels, frames, height, width]` of a video. A video without a frame is an
/// error.
pub fn latent_shape(
    frames: usize,
    height: u32,
    width: u32,
    z_dim: usize,
    vae_stride: (usize, usize, usize),
) -> (r: Result<[i32; 4], Error>)
    requires
        vae_stride.0 > 0,
        vae_stride.1 > 0,
        vae_stride.2 > 0,
        z_dim <= i32::MAX,
        frames > 0 ==> latent_frames(frames as int, vae_stride.0 as int) <= i32::MAX,
        height as int / vae_stride.1 as int <= i32::MAX,
        width as int / vae_stride.2 as int <= i32::MAX,
    ensures
        match r {
            Ok(s) => {
                &&& frames > 0
                &&& s@[0] == z_dim
                &&& s@[1] == latent_frames(frames as int, vae_stride.0 as int)
                &&& s@[2] == height as int / vae_stride.1 as int
                &&& s@[3] == width as int / vae_stride.2 as int
                &&& is_latent_shape(
                    s@,
                    frames as int,
                    height as int,
                    width as int,
                    z_dim as int,
                    vae_stride,
                )
            },
            Err(e) => frames == 0 && e is Msg && e.text()
                == "wan latent_shape: frames must be >= 1"@,
        },
{
    if frames == 0 {
        return Err(Error::Msg("wan latent_shape: frames must be >= 1".to_owned()));
    }
    let (st, sh, sw) = vae_stride;
    let t: usize = (frames - 1) / st + 1;
    let h: usize = height as usize / sh;
    let w: usize = width as usize / sw;
    Ok([z_dim as i32, t as i32, h as i32, w as i32])
}

/// How many tokens the transformer takes for a latent: the spatial and temporal positions divided by
/// the spatial patch, rounded up.
pub fn seq_len(latent: [i32; 4], patch_size: (usize, usize, usize)) -> (r: usize)
    requires
        latent@[1] >= 0,
        latent@[2] >= 0,
        latent@[3] >= 0,
        latent@[2] * latent@[3] <= usize::MAX,
        latent@[2] * latent@[3] * latent@[1] <= usize::MAX,
        0 < patch_size.1 * patch_size.2 <= usize::MAX,
    ensures
        r == (latent@[2] * latent@[3] * latent@[1] + patch_size.1 * patch_size.2 - 1) / (
        patch_size.1 * patch_size.2),
        is_token_count(
            r as int,
            latent@[1] as int,
            latent@[2] as int,
            latent@[3] as int,
            patch_size.1 as int,
            patch_size.2 as int,
        ),
{
    let t: usize = latent[1] as usize;
    let h: usize = latent[2] as usize;
    let w: usize = latent[3] as usize;
    let tokens: usize = h * w * t;
    let cell: usize = patch_size.1 * patch_size.2;
    let q: usize = tokens / cell;
    proof {
        let n = tokens as int;
        let c = cell as int;
        let d = q as int;
        if n % c == 0 {
            assert((n + c - 1) / c == d) by (nonlinear_arith)
                requires
                    c > 0,
                    n % c == 0,
                    d == n / c,
            ;
        } else {
            assert((n + c - 1) / c == d + 1 && d < n) by (nonlinear_arith)
                requires
                    c > 0,
                    n >= 0,
                    n % c != 0,
                    d == n / c,
            ;
        }
    }
    if tokens % cell == 0 {
        q
    } else {
        q + 1
    }
}

/// The largest whole side of a rectangle of area `area` whose sides are as `a` to `b`, the side that
/// goes with `a`.
pub open spec fn ideal_side(area: int, a: int, b: int) -> int {
    floor_root((area * a / b) as nat) as int
}

/// `side` rounded down to the grid, but at least one cell.
pub open spec fn on_grid(side: int, cell: int) -> int {
    larger(side / cell * cell, cell)
}

/// How far `w` to `h` is from `width` to `height`, as the fraction of the larger cross product over
/// the smaller.
pub open spec fn distortion(width: int, height: int, w: int, h: int) -> (int, int) {
    let p = width * h;
    let q = height * w;
    (larger(p, q), smaller(p, q))
}

/// The size whose width is put on the grid first.
pub open spec fn width_first(width: int, height: int, dw: int, dh: int, area: int) -> (int, int) {
    let w = on_grid(ideal_side(area, width, height), dw);
    (w, on_grid(area / w, dh))
}

/// The size whose height is put on the grid first.
pub open spec fn height_first(width: int, height: int, dw: int, dh: int, area: int) -> (int, int) {
    let h = on_grid(ideal_side(area, height, width), dh);
    (on_grid(area / h, dw), h)
}

/// Whether a size has at most `area` pixels.
pub open spec fn within(size: (int, int), area: int) -> bool {
    size.0 * size.1 <= area
}

/// The better of the two sizes: the one that fits the area where the other does not, else width first
/// where it distorts the aspect ratio less.
pub open spec fn best_size(width: int, height: int, dw: int, dh: int, area: int) -> (int, int) {
    let a = width_first(width, height, dw, dh, area);
    let b = height_first(width, height, dw, dh, area);
    let da = distortion(width, height, a.0, a.1);
    let db = distortion(width, height, b.0, b.1);
    if within(a, area) != within(b, area) {
        if within(a, area) {
            a
        } else {
            b
        }
    } else if da.0 * db.1 < db.0 * da.1 {
        a
    } else {
        b
    }
}

/// A number as a 32-bit word, or the largest such word.
pub open spec fn word(n: int) -> int {
    smaller(n, u32::MAX as int)
}

/// The side `s` on the grid.
fn snap(side: u128, cell: u32) -> (r: u128)
    requires
        cell > 0,
        side <= 0xffff_ffff_ffff_ffff,
    ensures
        r == on_grid(side as int, cell as int),
        0 < r,
        r <= side || r == cell,
{
    let c: u128 = cell as u128;
    let cells: u128 = side / c;
    proof {
        let s = side as int;
        let d = c as int;
        assert(0 <= (s / d) * d <= s) by (nonlinear_arith)
            requires
                d > 0,
                s >= 0,
        ;
    }
    let aligned: u128 = cells * c;
    if aligned >= c {
        aligned
    } else {
        c
    }
}

/// The side that goes with `a`.
fn side_of(area: u64, a: u32, b: u32) -> (r: u128)
    requires
        b > 0,
    ensures
        r == ideal_side(area as int, a as int, b as int),
        r < 0x1_0000_0000_0000,
{
    proof {
        let (x, y, z) = (area as int, a as int, b as int);
        assert(0 <= x * y <= 0xffff_ffff_ffff_ffff * 0xffff_ffff) by (nonlinear_arith)
            requires
                0 <= x <= 0xffff_ffff_ffff_ffff,
                0 <= y <= 0xffff_ffff,
        ;
        assert((x * y) / z <= x * y) by (nonlinear_arith)
            requires
                z > 0,
                x * y >= 0,
        ;
    }
    let n: u128 = area as u128 * a as u128 / b as u128;
    integer_root(n) as u128
}

/// The two sides of a candidate size, the first one put on the grid, the second from the area that is
/// left.
fn sides(area: u64, a: u32, b: u32, da: u32, db: u32) -> (r: (u128, u128))
    requires
        b > 0,
        da > 0,
        db > 0,
    ensures
        r.0 == on_grid(ideal_side(area as int, a as int, b as int), da as int),
        r.1 == on_grid(area as int / r.0 as int, db as int),
        0 < r.0 <= 0xffff_ffff_ffff_ffff,
        0 < r.1 <= 0xffff_ffff_ffff_ffff,
{
    let s = side_of(area, a, b);
    let first = snap(s, da);
    let left: u128 = area as u128 / first;
    proof {
        let (x, f) = (area as int, first as int);
        assert(0 <= x / f <= x) by (nonlinear_arith)
            requires
                f > 0,
                x >= 0,
        ;
    }
    let second = snap(left, db);
    (first, second)
}

/// The distortion of a candidate size.
fn distortion_of(width: u32, height: u32, w: u128, h: u128) -> (r: (u128, u128))
    requires
        width > 0,
        height > 0,
        0 < w <= 0xffff_ffff_ffff_ffff,
        0 < h <= 0xffff_ffff_ffff_ffff,
    ensures
        (r.0 as int, r.1 as int) == distortion(width as int, height as int, w as int, h as int),
        r.0 > 0,
        r.1 > 0,
{
    proof {
        let (a, b, c, d) = (width as int, height as int, w as int, h as int);
        assert(0 < a * d <= 0xffff_ffff * 0xffff_ffff_ffff_ffff) by (nonlinear_arith)
            requires
                0 < a <= 0xffff_ffff,
                0 < d <= 0xffff_ffff_ffff_ffff,
        ;
        assert(0 < b * c <= 0xffff_ffff * 0xffff_ffff_ffff_ffff) by (nonlinear_arith)
            requires
                0 < b <= 0xffff_ffff,
                0 < c <= 0xffff_ffff_ffff_ffff,
        ;
    }
    let p: u128 = width as u128 * h;
    let q: u128 = height as u128 * w;
    if p >= q {
        (p, q)
    } else {
        (q, p)
    }
}

/// A number as a 32-bit word, or the largest such word.
fn to_word(n: u128) -> (r: u32)
    ensures
        r == word(n as int),
{
    if n <= 0xffff_ffff {
        n as u32
    } else {
        0xffff_ffff
    }
}

/// Whether a size has at most `area` pixels.
fn is_within(w: u128, h: u128, area: u64) -> (r: bool)
    requires
        w <= 0xffff_ffff_ffff_ffff,
        h <= 0xffff_ffff_ffff_ffff,
    ensures
        r == within((w as int, h as int), area as int),
{
    proof {
        let (a, b) = (w as int, h as int);
        assert(0 <= a * b <= 0xffff_ffff_ffff_ffff * 0xffff_ffff_ffff_ffff) by (nonlinear_arith)
            requires
                0 <= a <= 0xffff_ffff_ffff_ffff,
                0 <= b <= 0xffff_ffff_ffff_ffff,
        ;
    }
    w * h <= area as u128
}

/// The size of at most `max_area` pixels that keeps the aspect ratio of `width` to `height` and lies on
/// the `dw` by `dh` grid: the width put on the grid first and the height from the area that is left,
/// or the other way round, whichever distorts the aspect ratio less, and the one that fits where the
/// other does not. Each side has at least one cell, so that nothing fits less than one cell.
pub fn best_output_size(width: u32, height: u32, dw: u32, dh: u32, max_area: usize) -> (r: (
    u32,
    u32,
))
    requires
        width > 0,
        height > 0,
        dw > 0,
        dh > 0,
    ensures
        ({
            let best = best_size(
                width as int,
                height as int,
                dw as int,
                dh as int,
                max_area as int,
            );
            r.0 == word(best.0) && r.1 == word(best.1)
        }),
{
    let area: u64 = max_area as u64;
    let (w1, h1) = sides(area, width, height, dw, dh);
    let (h2, w2) = sides(area, height, width, dh, dw);
    let d1 = distortion_of(width, height, w1, h1);
    let d2 = distortion_of(width, height, w2, h2);
    let fits1 = is_within(w1, h1, area);
    let fits2 = is_within(w2, h2, area);
    let first = if fits1 != fits2 {
        fits1
    } else {
        ratio_less(d1.0, d1.1, d2.0, d2.1)
    };
    if first {
        (to_word(w1), to_word(h1))
    } else {
        (to_word(w2), to_word(h2))
    }
}

/// A side on the grid is a multiple of its cell and at least one cell.
proof fn lemma_on_grid(side: int, cell: int)
    requires
        side >= 0,
        cell > 0,
    ensures
        on_grid(side, cell) % cell == 0,
        on_grid(side, cell) >= cell,
        side >= cell ==> on_grid(side, cell) <= side,
        on_grid(side, cell) <= larger(side, cell),
{
    let q = side / cell;
    assert((q * cell) % cell == 0 && q * cell <= side) by (nonlinear_arith)
        requires
            cell > 0,
            q == side / cell,
            side >= 0,
    ;
    assert(cell % cell == 0) by (nonlinear_arith)
        requires
            cell > 0,
    ;
}

/// Both sides of the chosen size are multiples of their cells, and at least one cell.
pub proof fn law_best_size_is_on_the_grid(width: int, height: int, dw: int, dh: int, area: int)
    requires
        width > 0,
        height > 0,
        dw > 0,
        dh > 0,
        area >= 0,
    ensures
        ({
            let b = best_size(width, height, dw, dh, area);
            b.0 % dw == 0 && b.0 >= dw && b.1 % dh == 0 && b.1 >= dh
        }),
{
    let (w1, h1) = width_first(width, height, dw, dh, area);
    let (w2, h2) = height_first(width, height, dw, dh, area);
    lemma_on_grid(ideal_side(area, width, height), dw);
    lemma_on_grid(ideal_side(area, height, width), dh);
    assert(area / w1 >= 0) by (nonlinear_arith)
        requires
            area >= 0,
            w1 > 0,
    ;
    assert(area / h2 >= 0) by (nonlinear_arith)
        requires
            area >= 0,
            h2 > 0,
    ;
    lemma_on_grid(area / w1, dh);
    lemma_on_grid(area / h2, dw);
}

/// The product of the two ideal sides is at most the area.
proof fn lemma_ideal_sides(width: int, height: int, area: int)
    requires
        width > 0,
        height > 0,
        area >= 0,
    ensures
        ideal_side(area, width, height) * ideal_side(area, height, width) <= area,
        ideal_side(area, width, height) >= 0,
        ideal_side(area, height, width) >= 0,
{
    let x = area * width / height;
    let y = area * height / width;
    assert(x >= 0 && x * height <= area * width) by (nonlinear_arith)
        requires
            x == area * width / height,
            height > 0,
            width > 0,
            area >= 0,
    ;
    assert(y >= 0 && y * width <= area * height) by (nonlinear_arith)
        requires
            y == area * height / width,
            height > 0,
            width > 0,
            area >= 0,
    ;
    lemma_floor_root(x as nat);
    lemma_floor_root(y as nat);
    let s = floor_root(x as nat) as int;
    let t = floor_root(y as nat) as int;
    assert(s * s * height <= area * width) by (nonlinear_arith)
        requires
            s * s <= x,
            x * height <= area * width,
            height > 0,
    ;
    assert(t * t * width <= area * height) by (nonlinear_arith)
        requires
            t * t <= y,
            y * width <= area * height,
            width > 0,
    ;
    let p = s * t;
    assert((s * s * height) * (t * t * width) <= (area * width) * (area * height)) by (nonlinear_arith)
        requires
            0 <= s * s * height <= area * width,
            0 <= t * t * width <= area * height,
    ;
    assert((s * s * height) * (t * t * width) == (p * p) * (width * height)) by (nonlinear_arith)
        requires
            p == s * t,
    ;
    assert((area * width) * (area * height) == (area * area) * (width * height)) by (nonlinear_arith);
    let c = width * height;
    assert(c > 0) by (nonlinear_arith)
        requires
            width > 0,
            height > 0,
            c == width * height,
    ;
    assert(p * p <= area * area) by (nonlinear_arith)
        requires
            (p * p) * c <= (area * area) * c,
            c > 0,
    ;
    assert(p >= 0) by (nonlinear_arith)
        requires
            p == s * t,
            s >= 0,
            t >= 0,
    ;
    assert(p <= area) by (nonlinear_arith)
        requires
            p * p <= area * area,
            p >= 0,
            area >= 0,
    ;
}

/// A candidate size fits the area where its first side leaves room for a cell.
proof fn lemma_candidate_fits(side: int, cell: int, other_cell: int, area: int)
    requires
        side >= 0,
        cell > 0,
        other_cell > 0,
        area >= 0,
        on_grid(side, cell) * other_cell <= area,
    ensures
        on_grid(side, cell) * on_grid(area / on_grid(side, cell), other_cell) <= area,
{
    lemma_on_grid(side, cell);
    let w = on_grid(side, cell);
    let left = area / w;
    assert(left >= other_cell && w * left <= area) by (nonlinear_arith)
        requires
            left == area / w,
            w > 0,
            w * other_cell <= area,
    ;
    lemma_on_grid(left, other_cell);
    let h = on_grid(left, other_cell);
    assert(w * h <= w * left) by (nonlinear_arith)
        requires
            h <= left,
            w > 0,
    ;
}

/// The chosen size has at most `max_area` pixels, wherever a single cell has.
pub proof fn law_best_size_fits_the_area(width: int, height: int, dw: int, dh: int, area: int)
    requires
        width > 0,
        height > 0,
        dw > 0,
        dh > 0,
        dw * dh <= area,
    ensures
        within(best_size(width, height, dw, dh, area), area),
{
    assert(area >= 0) by (nonlinear_arith)
        requires
            dw > 0,
            dh > 0,
            dw * dh <= area,
    ;
    lemma_ideal_sides(width, height, area);
    let s = ideal_side(area, width, height);
    let t = ideal_side(area, height, width);
    lemma_on_grid(s, dw);
    lemma_on_grid(t, dh);
    let w = on_grid(s, dw);
    let h = on_grid(t, dh);
    if s < dw || t >= dh {
        if s >= dw {
            assert(w * dh <= area) by (nonlinear_arith)
                requires
                    0 < w <= s,
                    0 < dh <= t,
                    s * t <= area,
            ;
        } else {
            assert(s / dw == 0 && 0 * dw == 0) by (nonlinear_arith)
                requires
                    0 <= s < dw,
            ;
        }
        lemma_candidate_fits(s, dw, dh, area);
        assert(within(width_first(width, height, dw, dh, area), area));
    } else {
        assert(t / dh == 0 && 0 * dh == 0) by (nonlinear_arith)
            requires
                0 <= t < dh,
        ;
        assert(h * dw == dw * dh) by (nonlinear_arith)
            requires
                h == dh,
        ;
        lemma_candidate_fits(t, dh, dw, area);
        let (w2, h2) = height_first(width, height, dw, dh, area);
        assert(w2 * h2 == h2 * w2) by (nonlinear_arith);
        assert(within(height_first(width, height, dw, dh, area), area));
    }
}

/// A side on the grid is the side less what is left over a whole number of cells, or one cell.
proof fn lemma_on_grid_is(side: int, cell: int)
    requires
        side >= 0,
        cell > 0,
    ensures
        on_grid(side, cell) == if side < cell {
            cell
        } else {
            side - side % cell
        },
{
    let q = side / cell;
    assert(side == q * cell + side % cell && 0 <= side % cell < cell) by (nonlinear_arith)
        requires
            cell > 0,
            q == side / cell,
    ;
    if side < cell {
        assert(q == 0) by (nonlinear_arith)
            requires
                0 <= side < cell,
                q == side / cell,
        ;
        assert(q * cell == 0) by (nonlinear_arith)
            requires
                q == 0,
        ;
    } else {
        assert(q * cell >= cell) by (nonlinear_arith)
            requires
                side >= cell,
                q == side / cell,
                cell > 0,
        ;
    }
}

/// The ideal side is the largest whole number whose square, `b` times, is at most `a` times the area.
proof fn lemma_ideal_is(area: int, a: int, b: int, s: int)
    requires
        area >= 0,
        a > 0,
        b > 0,
        s >= 0,
        s * s * b <= area * a < (s + 1) * (s + 1) * b,
    ensures
        ideal_side(area, a, b) == s,
{
    let x = area * a / b;
    assert(area * a >= 0) by (nonlinear_arith)
        requires
            area >= 0,
            a > 0,
    ;
    let n = area * a;
    let (lo, hi) = (s * s, (s + 1) * (s + 1));
    assert(lo <= x < hi && x >= 0) by (nonlinear_arith)
        requires
            x == n / b,
            n >= 0,
            lo * b <= n < hi * b,
            b > 0,
    ;
    crate::numeric::lemma_floor_root_unique(x as nat, s as nat);
}

/// The chosen size keeps the aspect ratio as well as the grid lets it. The ideal sides `s` and `t` are
/// whole numbers as `width` to `height`, as long as the area allows. One candidate has `s` on the grid as
/// its width and what the area then leaves as its height; the other has `t` on the grid as its height and
/// what the area then leaves as its width. The chosen size is one of the two. Where one alone has at most
/// `area` pixels, it is that one; otherwise neither of the two is closer to `width` to `height`, and of two
/// that are as close it is the second.
pub proof fn law_best_size_keeps_the_aspect_ratio(
    width: int,
    height: int,
    dw: int,
    dh: int,
    area: int,
    s: int,
    t: int,
)
    requires
        width > 0,
        height > 0,
        dw > 0,
        dh > 0,
        area >= 0,
        s >= 0,
        s * s * height <= area * width < (s + 1) * (s + 1) * height,
        t >= 0,
        t * t * width <= area * height < (t + 1) * (t + 1) * width,
    ensures
        ({
            let w1 = if s < dw {
                dw
            } else {
                s - s % dw
            };
            let h1 = if area / w1 < dh {
                dh
            } else {
                area / w1 - area / w1 % dh
            };
            let h2 = if t < dh {
                dh
            } else {
                t - t % dh
            };
            let w2 = if area / h2 < dw {
                dw
            } else {
                area / h2 - area / h2 % dw
            };
            let (w, h) = best_size(width, height, dw, dh, area);
            &&& (w, h) == (w1, h1) || (w, h) == (w2, h2)
            &&& w1 * h1 <= area && w2 * h2 > area ==> (w, h) == (w1, h1)
            &&& w2 * h2 <= area && w1 * h1 > area ==> (w, h) == (w2, h2)
            &&& (w1 * h1 <= area <==> w2 * h2 <= area) ==> {
                &&& no_farther(width, height, w, h, w1, h1)
                &&& no_farther(width, height, w, h, w2, h2)
                &&& no_farther(width, height, w2, h2, w1, h1) ==> (w, h) == (w2, h2)
            }
        }),
{
    lemma_ideal_is(area, width, height, s);
    lemma_ideal_is(area, height, width, t);
    lemma_on_grid_is(s, dw);
    lemma_on_grid_is(t, dh);
    let (w1, h2) = (on_grid(s, dw), on_grid(t, dh));
    lemma_on_grid(s, dw);
    lemma_on_grid(t, dh);
    assert(area / w1 >= 0) by (nonlinear_arith)
        requires
            area >= 0,
            w1 > 0,
    ;
    assert(area / h2 >= 0) by (nonlinear_arith)
        requires
            area >= 0,
            h2 > 0,
    ;
    lemma_on_grid_is(area / w1, dh);
    lemma_on_grid_is(area / h2, dw);
}

/// Whether a size `w` by `h` is no farther from the ratio of `width` to `height` than another size is.
/// A size is as far as the larger of its two cross products with `width` and `height` is over the smaller.
pub open spec fn no_farther(width: int, height: int, w: int, h: int, other_w: int, other_h: int) -> bool {
    let (p, q) = (width * h, height * w);
    let (x, y) = (width * other_h, height * other_w);
    (if p >= q {
        p
    } else {
        q
    }) * (if x >= y {
        y
    } else {
        x
    }) <= (if x >= y {
        x
    } else {
        y
    }) * (if p >= q {
        q
    } else {
        p
    })
}

/// A request that is turned on its side, and the grid with it, gets the size turned on its side, or one
/// that is exactly as far from the aspect ratio.
pub proof fn law_best_size_turns_with_the_request(
    width: int,
    height: int,
    dw: int,
    dh: int,
    area: int,
)
    requires
        width > 0,
        height > 0,
        dw > 0,
        dh > 0,
        area >= 0,
    ensures
        ({
            let (w, h) = best_size(width, height, dw, dh, area);
            let (b, a) = best_size(height, width, dh, dw, area);
            (w, h) == (a, b) || no_farther(width, height, w, h, a, b) && no_farther(
                width,
                height,
                a,
                b,
                w,
                h,
            )
        }),
{
    let wide = width_first(width, height, dw, dh, area);
    let tall = height_first(width, height, dw, dh, area);
    assert(width_first(height, width, dh, dw, area) == (tall.1, tall.0));
    assert(height_first(height, width, dh, dw, area) == (wide.1, wide.0));
    assert(wide.0 * wide.1 == wide.1 * wide.0) by (nonlinear_arith);
    assert(tall.0 * tall.1 == tall.1 * tall.0) by (nonlinear_arith);
    assert(distortion(height, width, tall.1, tall.0) == distortion(width, height, tall.0, tall.1));
    assert(distortion(height, width, wide.1, wide.0) == distortion(width, height, wide.0, wide.1));
}

/// A video has one latent frame for its first frame and one for every stride of frames that is begun
/// after it: the latent frames reach over all frames, and one fewer would not.
pub proof fn law_latent_frames_reach_over_the_video(frames: int, stride: int)
    requires
        frames > 0,
        stride > 0,
    ensures
        (latent_frames(frames, stride) - 1) * stride < frames <= latent_frames(frames, stride)
            * stride,
        latent_frames(frames + stride, stride) == latent_frames(frames, stride) + 1,
        latent_frames(1, stride) == 1,
{
    let n = latent_frames(frames, stride);
    let q = (frames - 1) / stride;
    assert(q * stride <= frames - 1 < q * stride + stride && (q + 1) * stride == q * stride + stride
        && (frames - 1 + stride) / stride == q + 1) by (nonlinear_arith)
        requires
            q == (frames - 1) / stride,
            stride > 0,
    ;
    assert(0int / stride == 0) by (nonlinear_arith)
        requires
            stride > 0,
    ;
}

/// Where area and grid are words, so are the sides of the chosen size.
pub(crate) proof fn lemma_best_size_is_a_word(width: int, height: int, dw: int, dh: int, area: int)
    requires
        0 < width,
        0 < height,
        0 < dw <= u32::MAX,
        0 < dh <= u32::MAX,
        0 <= area <= u32::MAX,
        width * height > area,
        width <= u32::MAX,
        height <= u32::MAX,
    ensures
        ({
            let b = best_size(width, height, dw, dh, area);
            0 <= b.0 <= u32::MAX && 0 <= b.1 <= u32::MAX
        }),
{
    lemma_ideal_below(width, height, area);
    assert(height * width == width * height) by (nonlinear_arith);
    lemma_ideal_below(height, width, area);
    let w1 = on_grid(ideal_side(area, width, height), dw);
    let h2 = on_grid(ideal_side(area, height, width), dh);
    lemma_on_grid(ideal_side(area, width, height), dw);
    lemma_on_grid(ideal_side(area, height, width), dh);
    assert(0 <= area / w1 <= area) by (nonlinear_arith)
        requires
            area >= 0,
            w1 > 0,
    ;
    assert(0 <= area / h2 <= area) by (nonlinear_arith)
        requires
            area >= 0,
            h2 > 0,
    ;
    lemma_on_grid(area / w1, dh);
    lemma_on_grid(area / h2, dw);
}

/// The ideal side for a smaller area is no longer than the side.
proof fn lemma_ideal_below(width: int, height: int, area: int)
    requires
        0 < width,
        0 < height,
        0 <= area < width * height,
    ensures
        0 <= ideal_side(area, width, height) <= width,
{
    let x = area * width / height;
    assert(0 <= x <= width * width) by (nonlinear_arith)
        requires
            x == area * width / height,
            0 <= area < width * height,
            height > 0,
            width > 0,
    ;
    lemma_floor_root(x as nat);
    let r = floor_root(x as nat) as int;
    assert(r <= width) by (nonlinear_arith)
        requires
            r * r <= width * width,
            r >= 0,
            width > 0,
    ;
}

/// What a denoise loop does next.
#[derive(Debug, Clone, Copy, PartialEq, Eq, Structural)]
pub enum DenoiseAction {
    /// Predict with an expert at a step, move the latents one step on, and report the step.
    Predict { step: usize, expert: MoeExpert },
    /// Hand back the latents.
    Finish,
}

/// The expert for a timestep: the high-noise expert at the boundary and above, the low-noise expert
/// below.
pub open spec fn expert_at(timestep: int, boundary: int) -> MoeExpert {
    if timestep >= boundary {
        MoeExpert::High
    } else {
        MoeExpert::Low
    }
}

/// Whether a denoise loop does what comes next once `done` steps are done.
pub open spec fn is_denoise_action(
    r: Result<DenoiseAction, Error>,
    done: int,
    timesteps: Seq<u32>,
    boundary: int,
    cancelled: bool,
) -> bool {
    match r {
        Ok(DenoiseAction::Finish) => done >= timesteps.len(),
        Ok(DenoiseAction::Predict { step, expert }) => done < timesteps.len() && !cancelled && step == done
            && expert == expert_at(timesteps[done] as int, boundary),
        Err(e) => e is Canceled && cancelled && done < timesteps.len(),
    }
}

/// Every step is predicted in its turn, by the high-noise expert from the boundary on and by the low-noise
/// expert below it, until all are done. A loop that is to stop stops before its next step, and finishes where
/// there is none.
pub proof fn law_steps_are_predicted_in_turn(
    r: Result<DenoiseAction, Error>,
    done: int,
    timesteps: Seq<u32>,
    boundary: int,
    cancelled: bool,
)
    requires
        0 <= done,
        is_denoise_action(r, done, timesteps, boundary, cancelled),
    ensures
        done >= timesteps.len() ==> r == Ok::<DenoiseAction, Error>(DenoiseAction::Finish),
        done < timesteps.len() && cancelled ==> r is Err && r->Err_0 is Canceled,
        done < timesteps.len() && !cancelled ==> ({
            &&& r matches Ok(DenoiseAction::Predict { step, expert })
            &&& step == done
            &&& expert == MoeExpert::High <==> timesteps[done] >= boundary
            &&& expert == MoeExpert::Low <==> timesteps[done] < boundary
        }),
{
}

/// Decides what a denoise loop does once `done` steps are done. A request to stop is honoured before
/// every step, and no longer once all steps are done.
pub fn denoise_next(done: usize, timesteps: &Vec<u32>, boundary: u32, cancelled: bool) -> (r: Result<
    DenoiseAction,
    Error,
>)
    ensures
        match r {
            Ok(DenoiseAction::Finish) => done >= timesteps@.len(),
            Ok(DenoiseAction::Predict { step, expert }) => done < timesteps@.len() && !cancelled
                && step == done && expert == expert_at(
                timesteps@[done as int] as int,
                boundary as int,
            ),
            Err(e) => e is Canceled && cancelled && done < timesteps@.len(),
        },
        is_denoise_action(r, done as int, timesteps@, boundary as int, cancelled),
{
    if done >= timesteps.len() {
        return Ok(DenoiseAction::Finish);
    }
    if cancelled {
        return Err(Error::Canceled);
    }
    let expert = if timesteps[done] >= boundary {
        MoeExpert::High
    } else {
        MoeExpert::Low
    };
    Ok(DenoiseAction::Predict { step: done, expert })
}

/// Along timesteps that never rise, the loop changes from the high-noise expert to the low-noise one
/// at most once and never back.
pub proof fn law_expert_switches_once(timesteps: Seq<u32>, boundary: u32, i: int, j: int)
    requires
        0 <= i <= j < timesteps.len(),
        forall|a: int, b: int|
            0 <= a <= b < timesteps.len() ==> #[trigger] timesteps[a] >= #[trigger] timesteps[b],
    ensures
        expert_at(timesteps[i] as int, boundary as int) == MoeExpert::Low ==> expert_at(
            timesteps[j] as int,
            boundary as int,
        ) == MoeExpert::Low,
{
}

/// A denoise loop under way: the solver, the timesteps of its steps, and the timestep from which on the
/// high-noise expert predicts. With a single expert the boundary does not matter.
#[derive(Debug)]
pub struct DenoiseRun {
    pub scheduler: Scheduler,
    pub timesteps: Vec<u32>,
    pub boundary: u32,
    pub done: usize,
}

impl DenoiseRun {
    /// Whether the solver stands where the loop stands.
    pub open spec fn wf(&self) -> bool {
        &&& self.scheduler.wf()
        &&& self.scheduler.done() == self.done
        &&& self.scheduler.levels().len() == self.timesteps@.len() + 1
        &&& self.done <= self.timesteps@.len()
    }

    /// A loop before its first step. `noisy` says for every step whether the level that it starts
    /// from has noise.
    pub fn new(
        kind: SolverKind,
        num_train_timesteps: usize,
        timesteps: Vec<u32>,
        noisy: Vec<bool>,
        boundary: u32,
    ) -> (r: DenoiseRun)
        requires
            noisy@.len() == timesteps@.len(),
        ensures
            r.wf(),
            r.done == 0,
            r.timesteps@ == timesteps@,
            r.boundary == boundary,
            r.scheduler.kind() == kind,
            r.scheduler.levels() == noisy@.push(false),
            r.scheduler.settings() == (num_train_timesteps as int, order_of(kind)),
    {
        let mut scheduler = make_scheduler(kind, num_train_timesteps);
        scheduler.set_timesteps(noisy);
        DenoiseRun { scheduler, timesteps, boundary, done: 0 }
    }

    /// What to do next: predict at the next step with the expert of its timestep, stop where that is
    /// asked for, or finish.
    pub fn next(&self, cancelled: bool) -> (r: Result<DenoiseAction, Error>)
        requires
            self.wf(),
        ensures
            match r {
                Ok(DenoiseAction::Finish) => self.done == self.timesteps@.len(),
                Ok(DenoiseAction::Predict { step, expert }) => {
                    &&& self.done < self.timesteps@.len()
                    &&& !cancelled
                    &&& step == self.done
                    &&& expert == expert_at(
                        self.timesteps@[self.done as int] as int,
                        self.boundary as int,
                    )
                },
                Err(e) => e is Canceled && cancelled && self.done < self.timesteps@.len(),
            },
            is_denoise_action(r, self.done as int, self.timesteps@, self.boundary as int, cancelled),
    {
        denoise_next(self.done, &self.timesteps, self.boundary, cancelled)
    }

    /// Plans how the latent moves once the prediction of the step is there, and counts the step as done.
    /// After the last step it is an error and nothing changes.
    pub fn advance(&mut self) -> (r: Result<StepPlan, Error>)
        requires
            old(self).wf(),
        ensures
            final(self).wf(),
            final(self).timesteps@ == old(self).timesteps@,
            final(self).boundary == old(self).boundary,
            final(self).scheduler.kind() == old(self).scheduler.kind(),
            final(self).scheduler.levels() == old(self).scheduler.levels(),
            final(self).scheduler.settings() == old(self).scheduler.settings(),
            match r {
                Ok(plan) => {
                    &&& old(self).done < old(self).timesteps@.len()
                    &&& final(self).done == old(self).done + 1
                    &&& old(self).scheduler.next_is(plan)
                },
                Err(e) => {
                    &&& old(self).done == old(self).timesteps@.len()
                    &&& final(self).done == old(self).done
                    &&& e is Msg
                    &&& e.text() == over_stepped(
                        old(self).done as int,
                        (old(self).timesteps@.len() + 1) as int,
                    )
                },
            },
    {
        let steps: usize = self.timesteps.len();
        match self.scheduler.step() {
            Ok(plan) => {
                assert(self.done < steps);
                self.done = self.done + 1;
                Ok(plan)
            },
            Err(e) => Err(e),
        }
    }
}

/// How many predictions one forward makes: the conditional one, and beside it the unconditional one
/// where guidance is on.
pub fn forward_batch(guided: bool) -> (r: usize)
    ensures
        r == if guided {
            2int
        } else {
            1
        },
{
    if guided {
        2
    } else {
        1
    }
}

/// A shape with a batch axis of extent one in front.
pub fn prepend1(shape: &Vec<usize>) -> (r: Vec<usize>)
    ensures
        r@ == seq![1usize] + shape@,
{
    let mut out: Vec<usize> = Vec::new();
    out.push(1);
    let mut i: usize = 0;
    while i < shape.len()
        invariant
            i <= shape.len(),
            out@ == seq![1usize] + shape@.take(i as int),
        decreases shape.len() - i,
    {
        out.push(shape[i]);
        assert(shape@.take(i + 1) =~= shape@.take(i as int).push(shape@[i as int]));
        i += 1;
    }
    assert(shape@.take(i as int) =~= shape@);
    out
}

/// Whether a side is cut to the grid.
pub open spec fn is_aligned(r: int, value: int, patch: int, stride: int) -> bool {
    r == value / (patch * stride) * (patch * stride)
}

/// A side that is cut to the grid is as many whole cells as go into it: no longer, and short of it by less
/// than a cell. A side on the grid is not cut.
pub proof fn law_side_is_whole_cells(r: int, value: int, patch: int, stride: int, cells: int)
    requires
        value >= 0,
        patch * stride > 0,
        is_aligned(r, value, patch, stride),
    ensures
        r <= value < r + patch * stride,
        r % (patch * stride) == 0,
        value == cells * (patch * stride) ==> r == value,
{
    let c = patch * stride;
    law_align_dim(value, c);
    if value == cells * c {
        assert(value / c == cells) by (nonlinear_arith)
            requires
                value == cells * c,
                c > 0,
        ;
    }
}

/// Whether latents have so many tokens.
pub open spec fn is_token_count(r: int, t: int, h: int, w: int, ph: int, pw: int) -> bool {
    r == (h * w * t + ph * pw - 1) / (ph * pw)
}

/// The tokens hold every place of the latents, and one less would not.
pub proof fn law_tokens_hold_every_place(r: int, t: int, h: int, w: int, ph: int, pw: int)
    requires
        t >= 0,
        h >= 0,
        w >= 0,
        ph * pw > 0,
        is_token_count(r, t, h, w, ph, pw),
    ensures
        h * w * t <= r * (ph * pw) < h * w * t + ph * pw,
{
    let c = ph * pw;
    let n = h * w * t;
    assert(n <= r * c < n + c) by (nonlinear_arith)
        requires
            c > 0,
            r == (n + c - 1) / c,
    ;
}

/// Whether latents have the shape that a video is encoded to.
pub open spec fn is_latent_shape(
    s: Seq<i32>,
    frames: int,
    height: int,
    width: int,
    z_dim: int,
    stride: (usize, usize, usize),
) -> bool {
    &&& s[0] == z_dim
    &&& s[1] == latent_frames(frames, stride.0 as int)
    &&& s[2] == height / stride.1 as int
    &&& s[3] == width / stride.2 as int
}

/// Latents have their channels first, then frames, rows and columns. The first frame has a latent frame of
/// its own, and each stride of frames after it, begun or not, needs no more than one; rows and columns are as
/// many whole strides as go in.
pub proof fn law_latents_shrink_by_the_strides(
    s: Seq<i32>,
    frames: int,
    height: int,
    width: int,
    z_dim: int,
    stride: (usize, usize, usize),
)
    requires
        frames > 0,
        height >= 0,
        width >= 0,
        stride.0 > 0,
        stride.1 > 0,
        stride.2 > 0,
        is_latent_shape(s, frames, height, width, z_dim, stride),
    ensures
        s[0] == z_dim,
        (s[1] - 1) * stride.0 < frames <= s[1] * stride.0,
        s[2] * stride.1 <= height < s[2] * stride.1 + stride.1,
        s[3] * stride.2 <= width < s[3] * stride.2 + stride.2,
{
    let (a, b, c) = (stride.0 as int, stride.1 as int, stride.2 as int);
    let t = s[1] as int;
    assert((t - 1) * a < frames <= t * a) by (nonlinear_arith)
        requires
            a > 0,
            frames > 0,
            t == (frames - 1) / a + 1,
    ;
    law_align_dim(height, b);
    law_align_dim(width, c);
}

} // verus!
