//! How much memory a request will take, in bytes, and whether it fits.
//!
//! The estimates are fits to measured peaks; each is a whole number of bytes per element or voxel.

use vstd::prelude::*;
use crate::error::Error;
use crate::numeric::{py_round, rounded};
use crate::text::{decimal, decimal_wide};

verus! {

/// Bytes in a GiB.
pub const GIB: u128 = 0x4000_0000;

/// The activations of one forward: 72 bytes per token and channel, twice that with guidance, which
/// makes two predictions per forward.
pub open spec fn activation_bytes(tokens: int, dim: int, cfg_enabled: bool) -> int {
    if cfg_enabled {
        144 * (tokens * dim)
    } else {
        72 * (tokens * dim)
    }
}

/// The peak of a denoise step: the weights and the activations of one forward.
pub open spec fn denoise_peak(dit_resident_bytes: int, tokens: int, dim: int, cfg_enabled: bool) -> int {
    dit_resident_bytes + activation_bytes(tokens, dim, cfg_enabled)
}

/// The estimated peak of a denoise step, in bytes.
pub fn estimated_denoise_peak(
    dit_resident_bytes: u64,
    tokens: usize,
    dim: usize,
    cfg_enabled: bool,
) -> (r: u128)
    requires
        tokens * dim <= 0xffff_ffff_ffff_ffff_ffff_ffff,
    ensures
        r == denoise_peak(dit_resident_bytes as int, tokens as int, dim as int, cfg_enabled),
{
    let elems: u128 = tokens as u128 * dim as u128;
    proof {
        assert(0 <= tokens * dim) by (nonlinear_arith);
    }
    let activations: u128 = if cfg_enabled {
        144 * elems
    } else {
        72 * elems
    };
    dit_resident_bytes as u128 + activations
}

/// A number of bytes in GiB, rounded.
pub open spec fn gib(bytes: int) -> Seq<char> {
    decimal(rounded(bytes, GIB as int) as nat)
}

/// The memory that may be used of a limit, in GiB, rounded: 85 percent of it.
pub open spec fn safe_gib(limit: int) -> Seq<char> {
    decimal(rounded(85 * limit, 100 * GIB) as nat)
}

/// A number of bytes in GiB, rounded.
fn gib_text(bytes: u128) -> (r: String)
    ensures
        r@ == gib(bytes as int),
{
    decimal_wide(py_round(bytes, GIB))
}

/// What a request that does not fit is answered.
pub open spec fn over_budget(
    model_id: Seq<char>,
    weights: int,
    tokens: int,
    dim: int,
    cfg_enabled: bool,
    limit: int,
) -> Seq<char> {
    let peak = denoise_peak(weights, tokens, dim, cfg_enabled);
    model_id + ": a denoise step at this resolution/frame-count needs ~"@ + gib(peak)
        + " GB (transformer ~"@ + gib(weights) + " GB resident + ~"@ + gib(peak - weights)
        + " GB activations for "@ + decimal(tokens as nat) + " attention tokens"@ + if cfg_enabled {
        ", ×2 for CFG"@
    } else {
        ""@
    } + "), exceeding this machine's ~"@ + safe_gib(limit) + " GB safe budget ("@ + gib(limit)
        + " GB MLX limit × 0.85). Unmitigated, the OS hard-kills the worker (SIGKILL) or the Metal command buffer aborts (sc-4986). Reduce the resolution or frame count, or load a Q8/Q4 snapshot."@
}

/// Whether a peak fits: it is at most 85 percent of the limit.
pub open spec fn fits(peak: int, limit: int) -> bool {
    100 * peak <= 85 * limit
}

/// Refuses, before anything is loaded, a request whose denoise step would not fit.
pub fn preflight_denoise_memory_guard(
    model_id: &str,
    dit_resident_bytes: u64,
    tokens: usize,
    dim: usize,
    cfg_enabled: bool,
    memory_limit: u64,
) -> (r: Result<(), Error>)
    requires
        tokens * dim <= 0xffff_ffff_ffff_ffff_ffff_ffff,
    ensures
        match r {
            Ok(()) => fits(
                denoise_peak(dit_resident_bytes as int, tokens as int, dim as int, cfg_enabled),
                memory_limit as int,
            ),
            Err(e) => {
                &&& !fits(
                    denoise_peak(dit_resident_bytes as int, tokens as int, dim as int, cfg_enabled),
                    memory_limit as int,
                )
                &&& e is Msg
                &&& e.text() == over_budget(
                    model_id@,
                    dit_resident_bytes as int,
                    tokens as int,
                    dim as int,
                    cfg_enabled,
                    memory_limit as int,
                )
            },
        },
        is_guarded(
            r is Ok,
            dit_resident_bytes as int,
            tokens as int,
            dim as int,
            cfg_enabled,
            memory_limit as int,
        ),
{
    let peak = estimated_denoise_peak(dit_resident_bytes, tokens, dim, cfg_enabled);
    let limit: u128 = memory_limit as u128;
    let weights: u128 = dit_resident_bytes as u128;
    proof {
        let elems = tokens * dim;
        assert(elems >= 0) by (nonlinear_arith)
            requires
                elems == tokens * dim,
        ;
    }
    if 100 * peak <= 85 * limit {
        return Ok(());
    }
    let head = model_id.to_owned().concat(
        ": a denoise step at this resolution/frame-count needs ~",
    ).concat(gib_text(peak).as_str()).concat(" GB (transformer ~").concat(
        gib_text(weights).as_str(),
    ).concat(" GB resident + ~").concat(gib_text(peak - weights).as_str()).concat(
        " GB activations for ",
    ).concat(decimal_wide(tokens as u128).as_str()).concat(" attention tokens").concat(
        if cfg_enabled {
            ", ×2 for CFG"
        } else {
            ""
        },
    );
    let safe = decimal_wide(py_round(85 * limit, 100 * GIB));
    Err(
        Error::Msg(
            head.concat("), exceeding this machine's ~").concat(safe.as_str()).concat(
                " GB safe budget (",
            ).concat(gib_text(limit).as_str()).concat(
                " GB MLX limit × 0.85). Unmitigated, the OS hard-kills the worker (SIGKILL) or the Metal command buffer aborts (sc-4986). Reduce the resolution or frame count, or load a Q8/Q4 snapshot.",
            ),
        ),
    )
}

/// How many voxels a block has.
pub open spec fn voxels(f: int, h: int, w: int) -> int {
    f * h * w
}

/// The peak of a z48 decode: 40 bytes per voxel for the output buffers, and per voxel of the largest
/// tile 3800 bytes, or 3400 in half precision.
pub open spec fn vae22_peak(out: int, tile: int, bf16: bool) -> int {
    if bf16 {
        40 * out + 3400 * tile
    } else {
        40 * out + 3800 * tile
    }
}

/// The peak of a z16 decode: 64 bytes per voxel for the output buffers, and 6500 bytes per voxel of
/// the largest tile.
pub open spec fn z16_peak(out: int, tile: int) -> int {
    64 * out + 6500 * tile
}

/// How many voxels a block has.
fn voxel_count(f: u32, h: u32, w: u32) -> (r: u128)
    ensures
        r == voxels(f as int, h as int, w as int),
        r < 0x1_0000_0000_0000_0000_0000_0000,
{
    proof {
        let (a, b, c) = (f as int, h as int, w as int);
        assert(0 <= a * b <= 0xffff_fffe_0000_0001) by (nonlinear_arith)
            requires
                0 <= a <= 0xffff_ffff,
                0 <= b <= 0xffff_ffff,
        ;
        assert(0 <= (a * b) * c <= 0xffff_fffe_0000_0001 * 0xffff_ffff) by (nonlinear_arith)
            requires
                0 <= a * b <= 0xffff_fffe_0000_0001,
                0 <= c <= 0xffff_ffff,
        ;
    }
    f as u128 * h as u128 * w as u128
}

/// The estimated peak, in bytes, of a z48 decode of a video whose largest tile has the given extents.
/// A decode in one pass has one tile, the video; an empty tile gives what the output buffers take.
pub fn estimated_vae22_decode_peak(
    out_f: u32,
    out_h: u32,
    out_w: u32,
    tile_f: u32,
    tile_h: u32,
    tile_w: u32,
    bf16: bool,
) -> (r: u128)
    ensures
        r == vae22_peak(
            voxels(out_f as int, out_h as int, out_w as int),
            voxels(tile_f as int, tile_h as int, tile_w as int),
            bf16,
        ),
        r < 0x8000_0000_0000_0000_0000_0000_0000,
{
    let out = voxel_count(out_f, out_h, out_w);
    let tile = voxel_count(tile_f, tile_h, tile_w);
    if bf16 {
        40 * out + 3400 * tile
    } else {
        40 * out + 3800 * tile
    }
}

/// The estimated peak, in bytes, of a z16 decode of a video whose largest tile has the given extents.
pub fn estimated_z16_decode_peak(
    out_f: u32,
    out_h: u32,
    out_w: u32,
    tile_f: u32,
    tile_h: u32,
    tile_w: u32,
) -> (r: u128)
    ensures
        r == z16_peak(
            voxels(out_f as int, out_h as int, out_w as int),
            voxels(tile_f as int, tile_h as int, tile_w as int),
        ),
        r < 0x8000_0000_0000_0000_0000_0000_0000,
{
    let out = voxel_count(out_f, out_h, out_w);
    let tile = voxel_count(tile_f, tile_h, tile_w);
    64 * out + 6500 * tile
}

/// The tiles that a decode may be cut into: sides and their overlap in pixels, and extents in time
/// with their overlaps in frames. Larger tiles come first.
#[derive(Debug, PartialEq, Eq)]
pub struct TileCandidates {
    pub spatial_px: Vec<u32>,
    pub spatial_overlap_px: u32,
    pub temporal: Vec<(u32, u32)>,
}

impl TileCandidates {
    /// Whether they are the tiles that the decodes of both latent spaces may be cut into.
    pub open spec fn are_standard(self) -> bool {
        &&& self.spatial_px@ == seq![768u32, 640, 512, 448, 384, 320, 256, 192]
        &&& self.spatial_overlap_px == 64
        &&& self.temporal@ == seq![(96u32, 24u32), (64, 24), (48, 16), (32, 8)]
    }
}

/// The tiles that the decodes of both latent spaces may be cut into.
pub fn tile_candidates() -> (r: TileCandidates)
    ensures
        r.are_standard(),
{
    TileCandidates {
        spatial_px: vec![768, 640, 512, 448, 384, 320, 256, 192],
        spatial_overlap_px: 64,
        temporal: vec![(96, 24), (64, 24), (48, 16), (32, 8)],
    }
}

/// Why no tiling fits a budget; the sizes are whole GiB.
#[derive(Debug, Clone, Copy, PartialEq, Eq, Structural)]
pub enum TilingBudgetError {
    /// The output buffers alone are too large.
    AccumulatorsExceedBudget { projected_gib: u128, safe_gib: u128 },
    /// The smallest tile is too large.
    SmallestTileExceedsBudget { projected_gib: u128, safe_gib: u128 },
}

/// A video's size, as written in messages.
pub open spec fn size_text(width: int, height: int, frames: int) -> Seq<char> {
    decimal(width as nat) + "×"@ + decimal(height as nat) + "×"@ + decimal(frames as nat)
}

/// What a decode that no tiling fits is answered.
pub open spec fn budget_error_text(
    label: Seq<char>,
    width: int,
    height: int,
    out_frames: int,
    e: TilingBudgetError,
) -> Seq<char> {
    let size = size_text(width, height, out_frames);
    match e {
        TilingBudgetError::AccumulatorsExceedBudget { projected_gib, safe_gib } => "wan "@ + label
            + " decode: assembling a "@ + size + " video needs ~"@ + decimal(projected_gib as nat)
            + " GB just for the output buffers, over this machine's ~"@ + decimal(safe_gib as nat)
            + " GB safe budget. Reduce the resolution or frame count."@,
        TilingBudgetError::SmallestTileExceedsBudget { projected_gib, safe_gib } => "wan "@ + label
            + " decode: a "@ + size + " video peaks at ~"@ + decimal(projected_gib as nat)
            + " GB even with the smallest tile, over this machine's ~"@ + decimal(safe_gib as nat)
            + " GB safe budget. Reduce the resolution or frame count."@,
    }
}

/// The error for a decode that no tiling fits.
pub fn wan_budget_error(
    label: &str,
    width: u32,
    height: u32,
    out_frames: u32,
    e: TilingBudgetError,
) -> (r: Error)
    ensures
        r is Msg,
        r.text() == budget_error_text(
            label@,
            width as int,
            height as int,
            out_frames as int,
            e,
        ),
{
    let size = decimal_wide(width as u128).concat("×").concat(
        decimal_wide(height as u128).as_str(),
    ).concat("×").concat(decimal_wide(out_frames as u128).as_str());
    let head = "wan ".to_owned().concat(label);
    let text = match e {
        TilingBudgetError::AccumulatorsExceedBudget { projected_gib, safe_gib } => head.concat(
            " decode: assembling a ",
        ).concat(size.as_str()).concat(" video needs ~").concat(
            decimal_wide(projected_gib).as_str(),
        ).concat(" GB just for the output buffers, over this machine's ~").concat(
            decimal_wide(safe_gib).as_str(),
        ).concat(" GB safe budget. Reduce the resolution or frame count."),
        TilingBudgetError::SmallestTileExceedsBudget { projected_gib, safe_gib } => head.concat(
            " decode: a ",
        ).concat(size.as_str()).concat(" video peaks at ~").concat(
            decimal_wide(projected_gib).as_str(),
        ).concat(" GB even with the smallest tile, over this machine's ~").concat(
            decimal_wide(safe_gib).as_str(),
        ).concat(" GB safe budget. Reduce the resolution or frame count."),
    };
    Error::Msg(text)
}

/// Whether tiling `(k, l)` is one of those before `(i, j)`, row by row.
spec fn is_before(k: int, l: int, i: int, j: int) -> bool {
    k < i || (k == i && l < j)
}

/// Whether a search that has come to tiling `(i, j)` holds the best of those before: where it is, what
/// it is, and its peak.
spec fn found_before(
    c: TileCandidates,
    d: Decoder,
    out: Extent,
    safe: int,
    i: int,
    j: int,
    best: Option<Tiling>,
    most: int,
    at: (int, int),
) -> bool {
    match best {
        None => forall|k: int, l: int|
            c.has(k, l) && is_before(k, l, i, j) ==> !#[trigger] c.fits(d, out, safe, k, l),
        Some(t) => {
            &&& c.has(at.0, at.1)
            &&& is_before(at.0, at.1, i, j)
            &&& t == c.tiling(at.0, at.1)
            &&& c.fits(d, out, safe, at.0, at.1)
            &&& most == decode_peak(d, out.voxels(), c.volume(at.0, at.1, out))
            &&& forall|k: int, l: int|
                c.has(k, l) && is_before(k, l, i, j) && #[trigger] c.fits(d, out, safe, k, l)
                    ==> c.volume(k, l, out) < c.volume(at.0, at.1, out) || (c.volume(k, l, out)
                    == c.volume(at.0, at.1, out) && (at.0 < k || (at.0 == k && at.1 <= l)))
        },
    }
}

/// Of two tiles, the one with more voxels has the higher peak.
proof fn lemma_peaks_order(d: Decoder, out: int, a: int, b: int)
    ensures
        decode_peak(d, out, a) < decode_peak(d, out, b) <==> a < b,
{
}

/// The latent spaces that a video is decoded from.
#[derive(Debug, Clone, Copy, PartialEq, Eq, Structural)]
pub enum Decoder {
    Z16,
    Z48 { bf16: bool },
}

/// A video's extents.
#[derive(Debug, Clone, Copy, PartialEq, Eq, Structural)]
pub struct Extent {
    pub frames: u32,
    pub height: u32,
    pub width: u32,
}

impl Extent {
    /// How many voxels the video has.
    pub open spec fn voxels(self) -> int {
        voxels(self.frames as int, self.height as int, self.width as int)
    }
}

/// How a decode is cut: the side of a tile with its overlap in pixels, and its extent in time with its
/// overlap in frames. An axis without either is not cut.
#[derive(Debug, Clone, Copy, PartialEq, Eq)]
pub struct Tiling {
    pub spatial: Option<(u32, u32)>,
    pub temporal: Option<(u32, u32)>,
}

/// The smaller of two numbers.
pub open spec fn lesser(a: int, b: int) -> int {
    if a <= b {
        a
    } else {
        b
    }
}

/// How far a tile reaches along an axis: a side where the axis is cut, and never beyond the video.
pub open spec fn reach(cut: Option<(u32, u32)>, extent: int) -> int {
    match cut {
        Some((side, _)) => lesser(side as int, extent),
        None => extent,
    }
}

impl Tiling {
    /// How many voxels the largest tile has.
    pub open spec fn tile_voxels(self, out: Extent) -> int {
        voxels(
            reach(self.temporal, out.frames as int),
            reach(self.spatial, out.height as int),
            reach(self.spatial, out.width as int),
        )
    }
}

/// The peak of a decode whose output and whose largest tile have the given voxels.
pub open spec fn decode_peak(d: Decoder, out: int, tile: int) -> int {
    match d {
        Decoder::Z16 => z16_peak(out, tile),
        Decoder::Z48 { bf16 } => vae22_peak(out, tile, bf16),
    }
}

/// Whether a decode fits. `safe` is in hundredths of a byte.
pub open spec fn decode_fits(d: Decoder, out: Extent, tile: int, safe: int) -> bool {
    100 * decode_peak(d, out.voxels(), tile) <= safe
}

impl TileCandidates {
    /// The tiling that leaves both axes whole where `i` or `j` is 0, and otherwise cuts them by
    /// candidate `i - 1` for the sides and candidate `j - 1` for the time.
    pub open spec fn tiling(self, i: int, j: int) -> Tiling {
        Tiling {
            spatial: if i == 0 {
                None
            } else {
                Some((self.spatial_px@[i - 1], self.spatial_overlap_px))
            },
            temporal: if j == 0 {
                None
            } else {
                Some(self.temporal@[j - 1])
            },
        }
    }

    /// Whether there is a tiling `(i, j)`.
    pub open spec fn has(self, i: int, j: int) -> bool {
        0 <= i <= self.spatial_px@.len() && 0 <= j <= self.temporal@.len()
    }

    /// How many voxels the largest tile of tiling `(i, j)` has.
    pub open spec fn volume(self, i: int, j: int, out: Extent) -> int {
        self.tiling(i, j).tile_voxels(out)
    }

    /// Whether tiling `(i, j)` fits.
    pub open spec fn fits(self, d: Decoder, out: Extent, safe: int, i: int, j: int) -> bool {
        decode_fits(d, out, self.volume(i, j, out), safe)
    }

    /// Whether tiling `(i, j)` has the largest tile of all that fit, and comes before the others whose
    /// tile is as large.
    pub open spec fn is_best(self, d: Decoder, out: Extent, safe: int, i: int, j: int) -> bool {
        &&& self.has(i, j)
        &&& self.fits(d, out, safe, i, j)
        &&& forall|k: int, l: int|
            self.has(k, l) && #[trigger] self.fits(d, out, safe, k, l) ==> self.volume(k, l, out)
                < self.volume(i, j, out) || (self.volume(k, l, out) == self.volume(i, j, out) && (i
                < k || (i == k && j <= l)))
    }
}

/// What a budget allows: one pass where it fits, else the largest tile that does. Where no tile does, it
/// is the output buffers that are too large, or else the smallest tile.
pub open spec fn is_budgeted_plan(
    c: TileCandidates,
    d: Decoder,
    out: Extent,
    safe: int,
    r: Result<Option<Tiling>, TilingBudgetError>,
) -> bool {
    let buffers = decode_peak(d, out.voxels(), 0);
    let least = decode_peak(
        d,
        out.voxels(),
        c.volume(c.spatial_px@.len() as int, c.temporal@.len() as int, out),
    );
    let budget = rounded(safe, 100 * GIB);
    match r {
        Ok(None) => decode_fits(d, out, out.voxels(), safe),
        Ok(Some(t)) => !decode_fits(d, out, out.voxels(), safe) && exists|i: int, j: int| #[trigger]
            c.is_best(d, out, safe, i, j) && t == c.tiling(i, j),
        Err(e) => {
            &&& !decode_fits(d, out, out.voxels(), safe)
            &&& forall|k: int, l: int| c.has(k, l) ==> !#[trigger] c.fits(d, out, safe, k, l)
            &&& e == if 100 * buffers > safe {
                TilingBudgetError::AccumulatorsExceedBudget {
                    projected_gib: rounded(buffers, GIB as int) as u128,
                    safe_gib: budget as u128,
                }
            } else {
                TilingBudgetError::SmallestTileExceedsBudget {
                    projected_gib: rounded(least, GIB as int) as u128,
                    safe_gib: budget as u128,
                }
            }
        },
    }
}

/// How far a tile reaches along an axis.
fn reach_of(cut: Option<(u32, u32)>, extent: u32) -> (r: u32)
    ensures
        r == reach(cut, extent as int),
{
    match cut {
        Some((side, _)) => if side <= extent {
            side
        } else {
            extent
        },
        None => extent,
    }
}

/// The estimated peak of a decode, in bytes.
fn estimated_decode_peak(d: Decoder, out: Extent, t: Tiling) -> (r: u128)
    ensures
        r == decode_peak(d, out.voxels(), t.tile_voxels(out)),
        r < 0x8000_0000_0000_0000_0000_0000_0000,
{
    let (f, h, w) = (
        reach_of(t.temporal, out.frames),
        reach_of(t.spatial, out.height),
        reach_of(t.spatial, out.width),
    );
    match d {
        Decoder::Z16 => estimated_z16_decode_peak(out.frames, out.height, out.width, f, h, w),
        Decoder::Z48 { bf16 } => estimated_vae22_decode_peak(
            out.frames,
            out.height,
            out.width,
            f,
            h,
            w,
            bf16,
        ),
    }
}

/// The estimated peak of the output buffers alone, in bytes.
fn estimated_buffers(d: Decoder, out: Extent) -> (r: u128)
    ensures
        r == decode_peak(d, out.voxels(), 0),
        r < 0x8000_0000_0000_0000_0000_0000_0000,
{
    let all = voxel_count(out.frames, out.height, out.width);
    match d {
        Decoder::Z16 => 64 * all,
        Decoder::Z48 { bf16: _ } => 40 * all,
    }
}

/// Chooses how a decode is cut so that it stays within a budget, given in hundredths of a byte: not at
/// all where one pass fits, else into the largest tiles that fit.
pub fn budgeted_plan(c: &TileCandidates, d: Decoder, out: Extent, safe: u128) -> (r: Result<
    Option<Tiling>,
    TilingBudgetError,
>)
    requires
        c.spatial_px@.len() < usize::MAX,
        c.temporal@.len() < usize::MAX,
    ensures
        is_budgeted_plan(*c, d, out, safe as int, r),
{
    let whole = Tiling { spatial: None, temporal: None };
    if 100 * estimated_decode_peak(d, out, whole) <= safe {
        return Ok(None);
    }
    let (ni, nj) = (c.spatial_px.len(), c.temporal.len());
    let mut best: Option<Tiling> = None;
    let mut most: u128 = 0;
    let ghost mut at: (int, int) = (0, 0);
    let mut last = whole;
    let mut i: usize = 0;
    while i <= ni
        invariant
            ni == c.spatial_px@.len() < usize::MAX,
            nj == c.temporal@.len() < usize::MAX,
            i <= ni + 1,
            i > 0 ==> last == c.tiling(i - 1, nj as int),
            found_before(*c, d, out, safe as int, i as int, 0, best, most as int, at),
        decreases ni + 1 - i,
    {
        let spatial = if i == 0 {
            None
        } else {
            Some((c.spatial_px[i - 1], c.spatial_overlap_px))
        };
        let mut j: usize = 0;
        while j <= nj
            invariant
                ni == c.spatial_px@.len() < usize::MAX,
                nj == c.temporal@.len() < usize::MAX,
                i <= ni,
                j <= nj + 1,
                spatial == c.tiling(i as int, 0).spatial,
                j > 0 ==> last == c.tiling(i as int, j - 1),
                found_before(*c, d, out, safe as int, i as int, j as int, best, most as int, at),
            decreases nj + 1 - j,
        {
            let temporal = if j == 0 {
                None
            } else {
                Some(c.temporal[j - 1])
            };
            last = Tiling { spatial, temporal };
            let peak = estimated_decode_peak(d, out, last);
            assert(last == c.tiling(i as int, j as int));
            proof {
                lemma_peaks_order(
                    d,
                    out.voxels(),
                    c.volume(at.0, at.1, out),
                    c.volume(i as int, j as int, out),
                );
            }
            if 100 * peak <= safe && (best.is_none() || peak > most) {
                best = Some(last);
                most = peak;
                proof {
                    at = (i as int, j as int);
                }
            }
            j += 1;
        }
        i += 1;
    }
    if let Some(t) = best {
        assert(c.is_best(d, out, safe as int, at.0, at.1));
        return Ok(Some(t));
    }
    let buffers = estimated_buffers(d, out);
    let safe_gib = py_round(safe, 100 * GIB);
    if 100 * buffers > safe {
        return Err(
            TilingBudgetError::AccumulatorsExceedBudget {
                projected_gib: py_round(buffers, GIB),
                safe_gib,
            },
        );
    }
    let least = estimated_decode_peak(d, out, last);
    Err(
        TilingBudgetError::SmallestTileExceedsBudget {
            projected_gib: py_round(least, GIB),
            safe_gib,
        },
    )
}

/// Whether a decode is cut as a budget allows, or refused with what is wrong.
pub open spec fn is_planned(
    label: Seq<char>,
    d: Decoder,
    out: Extent,
    safe: int,
    r: Result<Option<Tiling>, Error>,
) -> bool {
    exists|c: TileCandidates, p: Result<Option<Tiling>, TilingBudgetError>|
        {
            &&& c.are_standard()
            &&& #[trigger] is_budgeted_plan(c, d, out, safe, p)
            &&& match (p, r) {
                (Ok(a), Ok(b)) => a == b,
                (Err(e), Err(f)) => f is Msg && f.text() == budget_error_text(
                    label,
                    out.width as int,
                    out.height as int,
                    out.frames as int,
                    e,
                ),
                _ => false,
            }
        }
}

/// Plans a decode, and says what is wrong where none fits.
fn plan_tiling(label: &str, d: Decoder, out: Extent, safe: u128) -> (r: Result<
    Option<Tiling>,
    Error,
>)
    ensures
        is_planned(label@, d, out, safe as int, r),
{
    let c = tile_candidates();
    let p = budgeted_plan(&c, d, out, safe);
    let r = match p {
        Ok(t) => Ok(t),
        Err(e) => Err(wan_budget_error(label, out.width, out.height, out.frames, e)),
    };
    assert(is_budgeted_plan(c, d, out, safe as int, p));
    r
}

/// Plans how a z48 decode is cut. `safe` is in hundredths of a byte.
pub fn plan_vae22_tiling(height: u32, width: u32, out_frames: u32, safe: u128, bf16: bool) -> (r:
    Result<Option<Tiling>, Error>)
    ensures
        is_planned(
            "z48 vae22"@,
            Decoder::Z48 { bf16 },
            (Extent { frames: out_frames, height, width }),
            safe as int,
            r,
        ),
{
    plan_tiling(
        "z48 vae22",
        Decoder::Z48 { bf16 },
        Extent { frames: out_frames, height, width },
        safe,
    )
}

/// Plans how a z16 decode is cut. `safe` is in hundredths of a byte.
pub fn plan_z16_tiling(height: u32, width: u32, out_frames: u32, safe: u128) -> (r: Result<
    Option<Tiling>,
    Error,
>)
    ensures
        is_planned(
            "z16 vae"@,
            Decoder::Z16,
            (Extent { frames: out_frames, height, width }),
            safe as int,
            r,
        ),
{
    plan_tiling("z16 vae", Decoder::Z16, Extent { frames: out_frames, height, width }, safe)
}

/// Plans how a z48 decode is cut so that it takes at most 85 percent of a memory limit.
pub fn auto_tiling_budgeted(
    height: u32,
    width: u32,
    out_frames: u32,
    bf16: bool,
    memory_limit: u64,
) -> (r: Result<Option<Tiling>, Error>)
    ensures
        is_planned(
            "z48 vae22"@,
            Decoder::Z48 { bf16 },
            (Extent { frames: out_frames, height, width }),
            85 * memory_limit,
            r,
        ),
{
    plan_vae22_tiling(height, width, out_frames, 85 * memory_limit as u128, bf16)
}

/// Plans how a z16 decode is cut so that it takes at most 85 percent of a memory limit.
pub fn auto_tiling_budgeted_z16(height: u32, width: u32, out_frames: u32, memory_limit: u64) -> (r:
    Result<Option<Tiling>, Error>)
    ensures
        is_planned(
            "z16 vae"@,
            Decoder::Z16,
            (Extent { frames: out_frames, height, width }),
            85 * memory_limit,
            r,
        ),
{
    plan_z16_tiling(height, width, out_frames, 85 * memory_limit as u128)
}

/// How many voxels the largest tile of a plan has: those of the video where it is not cut.
pub open spec fn planned_voxels(out: Extent, t: Option<Tiling>) -> int {
    match t {
        Some(t) => t.tile_voxels(out),
        None => out.voxels(),
    }
}

/// No tile has more voxels than the video.
proof fn lemma_tile_within_video(t: Tiling, out: Extent)
    ensures
        0 <= t.tile_voxels(out) <= out.voxels(),
{
    let (f, h, w) = (out.frames as int, out.height as int, out.width as int);
    let (a, b, c) = (reach(t.temporal, f), reach(t.spatial, h), reach(t.spatial, w));
    assert(0 <= a * b <= f * h) by (nonlinear_arith)
        requires
            0 <= a <= f,
            0 <= b <= h,
    ;
    assert(0 <= (a * b) * c <= (f * h) * w) by (nonlinear_arith)
        requires
            0 <= a * b <= f * h,
            0 <= c <= w,
    ;
}

/// A planned decode stays within its budget, whatever the video.
pub proof fn law_planned_decode_fits(
    c: TileCandidates,
    d: Decoder,
    out: Extent,
    safe: int,
    r: Result<Option<Tiling>, TilingBudgetError>,
)
    requires
        is_budgeted_plan(c, d, out, safe, r),
    ensures
        r matches Ok(t) ==> decode_fits(d, out, planned_voxels(out, t), safe),
{
}

/// A larger budget refuses no decode that a smaller one allows, and cuts it no finer.
pub proof fn law_more_budget_cuts_no_finer(
    c: TileCandidates,
    d: Decoder,
    out: Extent,
    safe: int,
    more: int,
    r: Result<Option<Tiling>, TilingBudgetError>,
    s: Result<Option<Tiling>, TilingBudgetError>,
)
    requires
        safe <= more,
        is_budgeted_plan(c, d, out, safe, r),
        is_budgeted_plan(c, d, out, more, s),
    ensures
        r matches Ok(t) ==> s matches Ok(u) && planned_voxels(out, t) <= planned_voxels(out, u),
{
    if let Ok(Some(t)) = r {
        lemma_tile_within_video(t, out);
        let (i, j) = choose|i: int, j: int| #[trigger]
            c.is_best(d, out, safe, i, j) && t == c.tiling(i, j);
        assert(c.fits(d, out, more, i, j));
        if let Ok(Some(u)) = s {
            let (k, l) = choose|k: int, l: int| #[trigger]
                c.is_best(d, out, more, k, l) && u == c.tiling(k, l);
            assert(c.volume(i, j, out) <= c.volume(k, l, out));
        }
    }
}

/// Guidance doubles the activations, and more tokens take no less memory.
pub proof fn law_denoise_peak_scales(weights: int, tokens: int, more: int, dim: int, cfg_enabled: bool)
    requires
        0 <= tokens <= more,
        dim >= 0,
    ensures
        denoise_peak(weights, tokens, dim, true) - weights == 2 * (denoise_peak(
            weights,
            tokens,
            dim,
            false,
        ) - weights),
        denoise_peak(weights, tokens, dim, cfg_enabled) <= denoise_peak(
            weights,
            more,
            dim,
            cfg_enabled,
        ),
        tokens < more && dim > 0 ==> denoise_peak(weights, tokens, dim, cfg_enabled) < denoise_peak(
            weights,
            more,
            dim,
            cfg_enabled,
        ),
{
    assert(tokens * dim <= more * dim) by (nonlinear_arith)
        requires
            0 <= tokens <= more,
            dim >= 0,
    ;
    if tokens < more && dim > 0 {
        assert(tokens * dim < more * dim) by (nonlinear_arith)
            requires
                0 <= tokens < more,
                dim > 0,
        ;
    }
}

/// What fits still fits with fewer tokens, fewer weights, or a larger limit.
pub proof fn law_guard_is_monotone(
    weights: int,
    less_weights: int,
    tokens: int,
    fewer: int,
    dim: int,
    cfg_enabled: bool,
    limit: int,
    more: int,
)
    requires
        0 <= fewer <= tokens,
        less_weights <= weights,
        dim >= 0,
        limit <= more,
        fits(denoise_peak(weights, tokens, dim, cfg_enabled), limit),
    ensures
        fits(denoise_peak(less_weights, fewer, dim, cfg_enabled), more),
{
    law_denoise_peak_scales(weights, fewer, tokens, dim, cfg_enabled);
}

/// A decode's peak grows with the video and with the tile, half precision takes no more than full
/// precision, and no tiling takes less than the output buffers.
pub proof fn law_decode_peaks_grow(out: int, more_out: int, tile: int, more_tile: int, bf16: bool)
    requires
        0 <= out <= more_out,
        0 <= tile <= more_tile,
    ensures
        vae22_peak(out, tile, bf16) <= vae22_peak(more_out, more_tile, bf16),
        tile < more_tile ==> vae22_peak(out, tile, bf16) < vae22_peak(out, more_tile, bf16),
        vae22_peak(out, tile, true) <= vae22_peak(out, tile, false),
        tile > 0 ==> vae22_peak(out, tile, true) < vae22_peak(out, tile, false),
        vae22_peak(out, 0, bf16) <= vae22_peak(out, tile, bf16),
        z16_peak(out, tile) <= z16_peak(more_out, more_tile),
        tile < more_tile ==> z16_peak(out, tile) < z16_peak(out, more_tile),
        z16_peak(out, 0) <= z16_peak(out, tile),
{
}

/// A forward takes 72 bytes for every channel of a token, twice that with guidance, beside the weights.
pub proof fn law_tokens_take_their_bytes(weights: int, tokens: int, dim: int)
    ensures
        denoise_peak(weights, 0, dim, true) == weights,
        denoise_peak(weights, 0, dim, false) == weights,
        denoise_peak(weights, tokens + 1, dim, false) == denoise_peak(weights, tokens, dim, false)
            + 72 * dim,
        denoise_peak(weights, tokens + 1, dim, true) == denoise_peak(weights, tokens, dim, true)
            + 144 * dim,
{
    assert((tokens + 1) * dim == tokens * dim + dim) by (nonlinear_arith);
    assert(0 * dim == 0) by (nonlinear_arith);
}

/// Fifteen hundredths of the memory are left alone: a peak fits where twenty times it is at most seventeen
/// times the limit.
pub proof fn law_a_reserve_is_kept(peak: int, limit: int)
    ensures
        fits(peak, limit) <==> 20 * peak <= 17 * limit,
{
}

/// A voxel of the output takes 64 bytes in the first latent space and 40 in the second; a voxel of the
/// largest tile takes 6500 bytes in the first, and 3800 in the second, or 3400 in half precision.
pub proof fn law_voxels_take_their_bytes(out: int, tile: int, bf16: bool)
    ensures
        decode_peak(Decoder::Z16, 0, 0) == 0,
        decode_peak(Decoder::Z48 { bf16 }, 0, 0) == 0,
        decode_peak(Decoder::Z16, out + 1, tile) == decode_peak(Decoder::Z16, out, tile) + 64,
        decode_peak(Decoder::Z16, out, tile + 1) == decode_peak(Decoder::Z16, out, tile) + 6500,
        decode_peak(Decoder::Z48 { bf16 }, out + 1, tile) == decode_peak(
            Decoder::Z48 { bf16 },
            out,
            tile,
        ) + 40,
        decode_peak(Decoder::Z48 { bf16: false }, out, tile + 1) == decode_peak(
            Decoder::Z48 { bf16: false },
            out,
            tile,
        ) + 3800,
        decode_peak(Decoder::Z48 { bf16: true }, out, tile + 1) == decode_peak(
            Decoder::Z48 { bf16: true },
            out,
            tile,
        ) + 3400,
{
}

/// The bytes that a decode takes.
pub open spec fn decode_bytes(d: Decoder, out: int, tile: int) -> int {
    match d {
        Decoder::Z16 => 64 * out + 6500 * tile,
        Decoder::Z48 { bf16: true } => 40 * out + 3400 * tile,
        Decoder::Z48 { bf16: false } => 40 * out + 3800 * tile,
    }
}

/// The voxels of the largest tile of a video: it reaches as far as a side along rows and columns, and as
/// far as an extent in time, and no farther than the video. Without a side or an extent it is not cut there.
pub open spec fn largest_tile(out: Extent, side: Option<u32>, time: Option<u32>) -> int {
    let cut = |n: u32, by: Option<u32>| match by {
        Some(m) => if m < n {
            m as int
        } else {
            n as int
        },
        None => n as int,
    };
    cut(out.frames, time) * cut(out.height, side) * cut(out.width, side)
}

/// A decode goes in one pass exactly where that fits. Otherwise the chosen tile fits, and is the largest of
/// all that do: no other choice of a side, of an extent in time, or of both, fits and has more voxels. It is
/// refused exactly where nothing fits, on account of the output buffers where they alone are too large.
pub proof fn law_the_largest_tile_that_fits_is_chosen(
    c: TileCandidates,
    d: Decoder,
    out: Extent,
    safe: int,
    r: Result<Option<Tiling>, TilingBudgetError>,
    i: Option<int>,
    j: Option<int>,
)
    requires
        is_budgeted_plan(c, d, out, safe, r),
        i matches Some(k) ==> 0 <= k < c.spatial_px@.len(),
        j matches Some(k) ==> 0 <= k < c.temporal@.len(),
    ensures
        ({
            let all = out.frames * out.height * out.width;
            let side = match i {
                Some(k) => Some(c.spatial_px@[k]),
                None => None,
            };
            let time = match j {
                Some(k) => Some(c.temporal@[k].0),
                None => None,
            };
            let other = largest_tile(out, side, time);
            let other_fits = 100 * decode_bytes(d, all, other) <= safe;
            &&& 100 * decode_bytes(d, all, all) <= safe <==> r == Ok::<
                Option<Tiling>,
                TilingBudgetError,
            >(None)
            &&& r matches Ok(Some(t)) ==> {
                let chosen = largest_tile(
                    out,
                    match t.spatial {
                        Some((px, _)) => Some(px),
                        None => None,
                    },
                    match t.temporal {
                        Some((f, _)) => Some(f),
                        None => None,
                    },
                );
                &&& 100 * decode_bytes(d, all, chosen) <= safe
                &&& other_fits ==> other <= chosen
                &&& t.spatial matches Some((px, overlap)) ==> c.spatial_px@.contains(px) && overlap
                    == c.spatial_overlap_px
                &&& t.temporal matches Some(cut) ==> c.temporal@.contains(cut)
            }
            &&& r matches Err(e) ==> {
                &&& !other_fits
                &&& e is AccumulatorsExceedBudget <==> 100 * decode_bytes(d, all, 0) > safe
            }
        }),
{
    let k = match i {
        Some(k) => k + 1,
        None => 0,
    };
    let l = match j {
        Some(l) => l + 1,
        None => 0,
    };
    assert(c.has(k, l));
    let all = out.frames * out.height * out.width;
    assert(out.voxels() == all);
    assert forall|tile: int| #[trigger] decode_peak(d, all, tile) == decode_bytes(d, all, tile) by {}
    let side = match i {
        Some(k) => Some(c.spatial_px@[k]),
        None => None,
    };
    let time = match j {
        Some(k) => Some(c.temporal@[k].0),
        None => None,
    };
    assert(c.volume(k, l, out) == largest_tile(out, side, time));
    assert(c.fits(d, out, safe, k, l) == (100 * decode_bytes(
        d,
        all,
        largest_tile(out, side, time),
    ) <= safe));
    assert(largest_tile(out, None, None) == all);
    match r {
        Ok(Some(t)) => {
            let (a, b) = choose|a: int, b: int| #[trigger]
                c.is_best(d, out, safe, a, b) && t == c.tiling(a, b);
            assert(c.is_best(d, out, safe, a, b));
            assert(c.volume(a, b, out) == t.tile_voxels(out));
        },
        Ok(None) => {},
        Err(_) => {
            assert(c.has(0, 0));
            assert(!c.fits(d, out, safe, k, l));
        },
    }
}

/// The sides that a tile may have, from the largest to the smallest, and how far it may reach in time, each
/// with its overlap.
pub proof fn law_standard_tiles(c: TileCandidates)
    requires
        c.are_standard(),
    ensures
        c.spatial_px@.len() == 8,
        c.spatial_px@[0] == 768,
        c.spatial_px@[1] == 640,
        c.spatial_px@[2] == 512,
        forall|k: int| 2 <= k < 7 ==> (#[trigger] c.spatial_px@[k]) == c.spatial_px@[k + 1] + 64,
        c.spatial_overlap_px == 64,
        c.temporal@.len() == 4,
        c.temporal@[0] == (96u32, 24u32),
        c.temporal@[1] == (64u32, 24u32),
        c.temporal@[2] == (48u32, 16u32),
        c.temporal@[3] == (32u32, 8u32),
{
    let s = c.spatial_px@;
    assert(s[2] == 512 && s[3] == 448 && s[4] == 384 && s[5] == 320 && s[6] == 256 && s[7] == 192);
}

/// Whether a denoise step is let through exactly where it fits.
pub open spec fn is_guarded(
    through: bool,
    weights: int,
    tokens: int,
    dim: int,
    cfg_enabled: bool,
    limit: int,
) -> bool {
    through == fits(denoise_peak(weights, tokens, dim, cfg_enabled), limit)
}

/// A step is let through where the weights and what its tokens need, twice that with guidance, leave fifteen
/// hundredths of the memory alone, and nowhere else.
pub proof fn law_a_step_that_fits_is_let_through(
    through: bool,
    weights: int,
    tokens: int,
    dim: int,
    cfg_enabled: bool,
    limit: int,
)
    requires
        is_guarded(through, weights, tokens, dim, cfg_enabled, limit),
    ensures
        cfg_enabled ==> (through <==> 20 * (weights + 144 * (tokens * dim)) <= 17 * limit),
        !cfg_enabled ==> (through <==> 20 * (weights + 72 * (tokens * dim)) <= 17 * limit),
{
}

} // verus!
