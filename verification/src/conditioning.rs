//! Conditioning on images: how an image is fitted to a video, the masks that pin frames of the latent,
//! and the frames of a decoded video.

use vstd::prelude::*;
use crate::error::Error;
use crate::numeric::{larger, py_round, rounded};
use crate::pipeline::latent_frames;
use crate::tensor::{
    in_bounds,
    index_view,
    lemma_tensor_ext,
    lemma_volume2,
    lemma_volume3,
    lemma_volume4,
    lemma_volume5,
    tabulate,
    Tensor,
};
use crate::text::{decimal, decimal_wide};

verus! {

/// An image with three bytes per pixel, row by row.
#[derive(Debug, PartialEq, Eq)]
pub struct Image {
    pub width: u32,
    pub height: u32,
    pub pixels: Vec<u8>,
}

/// Whether a tensor over channels, frames, rows and columns holds `inside` at the given frames and
/// `outside` at the others.
pub open spec fn is_frame_mask<T>(
    m: Tensor<T>,
    shape: Seq<usize>,
    frames: spec_fn(int) -> bool,
    inside: T,
    outside: T,
) -> bool {
    &&& m.wf()
    &&& m.shape@ == shape
    &&& forall|idx: Seq<int>| #[trigger]
        in_bounds(shape, idx) ==> m.at(idx) == if frames(idx[1]) {
            inside
        } else {
            outside
        }
}

/// Whether a row of tokens, `per_frame` for each frame in turn, holds `inside` for the given frames
/// and `outside` for the others.
pub open spec fn is_token_mask<T>(
    m: Tensor<T>,
    frame_count: int,
    per_frame: int,
    frames: spec_fn(int) -> bool,
    inside: T,
    outside: T,
) -> bool {
    &&& m.wf()
    &&& m.shape@.len() == 2
    &&& m.shape@[0] == 1
    &&& m.shape@[1] == frame_count * per_frame
    &&& forall|idx: Seq<int>| #[trigger]
        in_bounds(m.shape@, idx) ==> m.at(idx) == if frames(idx[1] / per_frame) {
            inside
        } else {
            outside
        }
}

/// Whether dividing an index in the list by `step` gives `frame`.
pub open spec fn listed(indices: Seq<usize>, step: int, frame: int) -> bool {
    exists|k: int| 0 <= k < indices.len() && #[trigger] indices[k] as int / step == frame
}

/// How many tokens the patch grid has for one frame of patches.
pub open spec fn tokens_per_frame(
    h_lat: usize,
    w_lat: usize,
    patch_size: (usize, usize, usize),
) -> int {
    (h_lat as int / patch_size.1 as int) * (w_lat as int / patch_size.2 as int)
}

/// How many tokens the patch grid of a latent has.
pub open spec fn token_count(
    t_lat: usize,
    h_lat: usize,
    w_lat: usize,
    patch_size: (usize, usize, usize),
) -> int {
    (t_lat as int / patch_size.0 as int) * tokens_per_frame(h_lat, w_lat, patch_size)
}

/// Whether two masks, over a latent and over the tokens of its patch grid, pin the listed frames.
pub open spec fn are_pinning_masks<T>(
    masks: (Tensor<T>, Tensor<T>),
    indices: Seq<usize>,
    z_dim: usize,
    t_lat: usize,
    h_lat: usize,
    w_lat: usize,
    patch_size: (usize, usize, usize),
    one: T,
    zero: T,
) -> bool {
    &&& is_frame_mask(
        masks.0,
        seq![z_dim, t_lat, h_lat, w_lat],
        |t: int| listed(indices, 1, t),
        zero,
        one,
    )
    &&& is_token_mask(
        masks.1,
        t_lat as int / patch_size.0 as int,
        tokens_per_frame(h_lat, w_lat, patch_size),
        |t: int| listed(indices, patch_size.0 as int, t),
        zero,
        one,
    )
}

/// Whether two masks, over a latent and over the tokens of its patch grid, pin the first frame.
pub open spec fn are_first_frame_masks<T>(
    masks: (Tensor<T>, Tensor<T>),
    z_dim: usize,
    t_lat: usize,
    h_lat: usize,
    w_lat: usize,
    patch_size: (usize, usize, usize),
    one: T,
    zero: T,
) -> bool {
    &&& is_frame_mask(masks.0, seq![z_dim, t_lat, h_lat, w_lat], |t: int| t == 0, zero, one)
    &&& is_token_mask(
        masks.1,
        t_lat as int / patch_size.0 as int,
        tokens_per_frame(h_lat, w_lat, patch_size),
        |t: int| t == 0,
        zero,
        one,
    )
}

/// The mask that pins frames: `one` where the frame's entry is `pinned`, `zero` elsewhere.
fn frame_mask<T: Copy>(
    z: usize,
    pinned: &Vec<bool>,
    h: usize,
    w: usize,
    inside: T,
    outside: T,
) -> (r: Tensor<T>)
    requires
        z * pinned.len() * h * w <= usize::MAX,
    ensures
        is_frame_mask(
            r,
            seq![z, pinned.len(), h, w],
            |t: int| 0 <= t < pinned.len() && pinned@[t],
            inside,
            outside,
        ),
{
    let t: usize = pinned.len();
    let shape: Vec<usize> = vec![z, t, h, w];
    assert(shape@ =~= seq![z, t, h, w]);
    proof {
        lemma_volume4(z, t, h, w);
    }
    let ghost g = |idx: Seq<int>| if pinned@[idx[1]] {
        inside
    } else {
        outside
    };
    let f = |v: &Vec<usize>| -> (out: T)
        requires
            in_bounds(seq![z, t, h, w], index_view(v@)),
            t == pinned.len(),
        ensures
            out == g(index_view(v@)),
        {
            assert(index_view(v@)[1] < seq![z, t, h, w][1]);
            if pinned[v[1]] {
                inside
            } else {
                outside
            }
        };
    let r = tabulate(shape, f, Ghost(g));
    proof {
        let sh = seq![z, t, h, w];
        assert forall|idx: Seq<int>| #[trigger] in_bounds(sh, idx) implies 0 <= idx[1] < t by {
            assert(0 <= idx[1] < sh[1]);
        }
    }
    r
}

/// The mask over tokens, `per_frame` for each entry of `pinned` in turn.
fn token_mask<T: Copy>(pinned: &Vec<bool>, per_frame: usize, inside: T, outside: T) -> (r: Tensor<T>)
    requires
        pinned.len() * per_frame <= usize::MAX,
    ensures
        is_token_mask(
            r,
            pinned.len() as int,
            per_frame as int,
            |t: int| 0 <= t < pinned.len() && pinned@[t],
            inside,
            outside,
        ),
{
    let n: usize = pinned.len() * per_frame;
    let shape: Vec<usize> = vec![1, n];
    assert(shape@ =~= seq![1usize, n]);
    proof {
        lemma_volume2(1, n);
    }
    let ghost g = |idx: Seq<int>| if pinned@[idx[1] / per_frame as int] {
        inside
    } else {
        outside
    };
    proof {
        assert forall|i: int| 0 <= i < n implies per_frame > 0 && 0 <= #[trigger] (i
            / per_frame as int) < pinned.len() by {
            let (a, b) = (pinned.len() as int, per_frame as int);
            assert(b > 0 && 0 <= i / b < a) by (nonlinear_arith)
                requires
                    0 <= i < a * b,
                    a >= 0,
                    b >= 0,
            ;
        }
    }
    let f = |v: &Vec<usize>| -> (out: T)
        requires
            in_bounds(seq![1usize, n], index_view(v@)),
            forall|i: int|
                0 <= i < n ==> per_frame > 0 && 0 <= #[trigger] (i / per_frame as int)
                    < pinned.len(),
        ensures
            out == g(index_view(v@)),
        {
            assert(index_view(v@)[1] < seq![1usize, n][1]);
            assert(0 <= index_view(v@)[1] / per_frame as int);
            if pinned[v[1] / per_frame] {
                inside
            } else {
                outside
            }
        };
    let r = tabulate(shape, f, Ghost(g));
    proof {
        let sh = seq![1usize, n];
        assert forall|idx: Seq<int>| #[trigger] in_bounds(sh, idx) implies 0 <= (idx[1] / (
        per_frame as int)) < pinned.len() by {
            assert(0 <= idx[1] < sh[1]);
        }
    }
    r
}

/// For each of `count` frames, whether an index in the list, divided by `step`, gives it.
fn pinned_frames(indices: &Vec<usize>, step: usize, count: usize) -> (r: Vec<bool>)
    requires
        step > 0,
    ensures
        r.len() == count,
        forall|t: int| 0 <= t < count ==> #[trigger] r@[t] == listed(indices@, step as int, t),
{
    let mut out: Vec<bool> = vec![false; count];
    let mut k: usize = 0;
    while k < indices.len()
        invariant
            k <= indices.len(),
            step > 0,
            out.len() == count,
            forall|t: int|
                0 <= t < count ==> #[trigger] out@[t] == listed(
                    indices@.take(k as int),
                    step as int,
                    t,
                ),
        decreases indices.len() - k,
    {
        let ghost before = out@;
        let i: usize = indices[k] / step;
        if i < count {
            out[i] = true;
        }
        proof {
            let old_list = indices@.take(k as int);
            let new_list = indices@.take(k + 1);
            assert forall|t: int| 0 <= t < count implies #[trigger] out@[t] == listed(
                new_list,
                step as int,
                t,
            ) by {
                if listed(old_list, step as int, t) {
                    let j = choose|j: int|
                        0 <= j < old_list.len() && #[trigger] old_list[j] as int / step as int == t;
                    assert(new_list[j] as int / step as int == t);
                }
                if t == i {
                    assert(new_list[k as int] as int / step as int == t);
                }
                if listed(new_list, step as int, t) && t != i {
                    let j = choose|j: int|
                        0 <= j < new_list.len() && #[trigger] new_list[j] as int / step as int == t;
                    assert(j != k);
                    assert(old_list[j] as int / step as int == t);
                }
                assert(before[t] == listed(old_list, step as int, t));
            }
        }
        k += 1;
    }
    assert(indices@.take(k as int) =~= indices@);
    out
}

/// The mask of the image-to-video model over four channels: `one` at the first latent frame, `zero`
/// at the others.
pub fn build_i2v_mask<T: Copy>(t_lat: usize, h_lat: usize, w_lat: usize, one: T, zero: T) -> (r: Tensor<T>)
    requires
        4 * t_lat * h_lat * w_lat <= usize::MAX,
    ensures
        is_frame_mask(r, seq![4usize, t_lat, h_lat, w_lat], |t: int| t == 0, one, zero),
{
    let first: Vec<usize> = vec![0];
    let pinned = pinned_frames(&first, 1, t_lat);
    proof {
        assert(first@ =~= seq![0usize]);
        lemma_first_listed(first@, t_lat as int, pinned@);
    }
    let r = frame_mask(4, &pinned, h_lat, w_lat, one, zero);
    proof {
        lemma_frame_mask_same(
            r,
            seq![4usize, t_lat, h_lat, w_lat],
            |t: int| 0 <= t < pinned.len() && pinned@[t],
            |t: int| t == 0,
            one,
            zero,
        );
    }
    r
}

/// A list of the frame zero alone pins that frame alone.
proof fn lemma_first_listed(first: Seq<usize>, count: int, pinned: Seq<bool>)
    requires
        first == seq![0usize],
        pinned.len() == count,
        forall|t: int| 0 <= t < count ==> #[trigger] pinned[t] == listed(first, 1, t),
    ensures
        forall|t: int| 0 <= t < count ==> #[trigger] pinned[t] == (t == 0),
{
    assert forall|t: int| 0 <= t < count implies #[trigger] pinned[t] == (t == 0) by {
        assert(first[0] as int / 1 == 0);
    }
}

/// Two ways to say which frames a mask pins, where they agree on its frames.
proof fn lemma_frame_mask_same<T>(
    m: Tensor<T>,
    shape: Seq<usize>,
    a: spec_fn(int) -> bool,
    b: spec_fn(int) -> bool,
    inside: T,
    outside: T,
)
    requires
        shape.len() == 4,
        is_frame_mask(m, shape, a, inside, outside),
        forall|t: int| 0 <= t < shape[1] ==> #[trigger] a(t) == b(t),
    ensures
        is_frame_mask(m, shape, b, inside, outside),
{
    assert forall|idx: Seq<int>| #[trigger] in_bounds(shape, idx) implies m.at(idx) == if b(
        idx[1],
    ) {
        inside
    } else {
        outside
    } by {
        assert(0 <= idx[1] < shape[1]);
        assert(a(idx[1]) == b(idx[1]));
    }
}

/// Two ways to say which frames a token mask pins, where they agree on its frames.
proof fn lemma_token_mask_same<T>(
    m: Tensor<T>,
    frame_count: int,
    per_frame: int,
    a: spec_fn(int) -> bool,
    b: spec_fn(int) -> bool,
    inside: T,
    outside: T,
)
    requires
        frame_count >= 0,
        per_frame >= 0,
        is_token_mask(m, frame_count, per_frame, a, inside, outside),
        forall|t: int| 0 <= t < frame_count ==> #[trigger] a(t) == b(t),
    ensures
        is_token_mask(m, frame_count, per_frame, b, inside, outside),
{
    assert forall|idx: Seq<int>| #[trigger] in_bounds(m.shape@, idx) implies m.at(idx) == if b(
        idx[1] / per_frame,
    ) {
        inside
    } else {
        outside
    } by {
        assert(0 <= idx[1] < m.shape@[1]);
        let i = idx[1];
        assert(per_frame > 0 && 0 <= i / per_frame < frame_count) by (nonlinear_arith)
            requires
                0 <= i < frame_count * per_frame,
                frame_count >= 0,
                per_frame >= 0,
        ;
        assert(a(i / per_frame) == b(i / per_frame));
    }
}

/// The masks that pin the first latent frame: one over the latent, and one over the tokens of its
/// patch grid. Pinned is `zero`, free is `one`.
pub fn build_ti2v_mask<T: Copy>(
    z_dim: usize,
    t_lat: usize,
    h_lat: usize,
    w_lat: usize,
    patch_size: (usize, usize, usize),
    one: T,
    zero: T,
) -> (r: (Tensor<T>, Tensor<T>))
    requires
        patch_size.0 > 0,
        patch_size.1 > 0,
        patch_size.2 > 0,
        z_dim * t_lat * h_lat * w_lat <= usize::MAX,
        h_lat * w_lat <= usize::MAX,
        token_count(t_lat, h_lat, w_lat, patch_size) <= usize::MAX,
    ensures
        are_first_frame_masks(r, z_dim, t_lat, h_lat, w_lat, patch_size, one, zero),
{
    let first: Vec<usize> = vec![0];
    let r = build_ti2v_multi_mask(&first, z_dim, t_lat, h_lat, w_lat, patch_size, one, zero);
    proof {
        let (pt, ph, pw) = (patch_size.0 as int, patch_size.1 as int, patch_size.2 as int);
        lemma_grid(t_lat as int, h_lat as int, w_lat as int, pt, ph, pw);
        assert forall|t: int, step: int| step > 0 implies #[trigger] listed(first@, step, t) == (t
            == 0) by {
            assert(first@[0] as int / step == 0) by (nonlinear_arith)
                requires
                    step > 0,
                    first@[0] == 0,
            ;
        }
        lemma_frame_mask_same(
            r.0,
            seq![z_dim, t_lat, h_lat, w_lat],
            |t: int| listed(first@, 1, t),
            |t: int| t == 0,
            zero,
            one,
        );
        lemma_token_mask_same(
            r.1,
            t_lat as int / pt,
            tokens_per_frame(h_lat, w_lat, patch_size),
            |t: int| listed(first@, pt, t),
            |t: int| t == 0,
            zero,
            one,
        );
    }
    r
}

/// The patch grid is no larger than the latent.
proof fn lemma_grid(t: int, h: int, w: int, pt: int, ph: int, pw: int)
    requires
        0 <= t,
        0 <= h,
        0 <= w,
        pt > 0,
        ph > 0,
        pw > 0,
    ensures
        0 <= t / pt <= t,
        0 <= h / ph <= h,
        0 <= w / pw <= w,
        0 <= (h / ph) * (w / pw) <= h * w,
        0 <= (t / pt) * ((h / ph) * (w / pw)) <= t * (h * w),
{
    assert(0 <= t / pt <= t) by (nonlinear_arith)
        requires
            0 <= t,
            pt > 0,
    ;
    assert(0 <= h / ph <= h) by (nonlinear_arith)
        requires
            0 <= h,
            ph > 0,
    ;
    assert(0 <= w / pw <= w) by (nonlinear_arith)
        requires
            0 <= w,
            pw > 0,
    ;
    let (a, b, c) = (t / pt, h / ph, w / pw);
    assert(0 <= b * c <= h * w) by (nonlinear_arith)
        requires
            0 <= b <= h,
            0 <= c <= w,
    ;
    let (d, e) = (b * c, h * w);
    assert(0 <= a * d <= t * e) by (nonlinear_arith)
        requires
            0 <= a <= t,
            0 <= d <= e,
    ;
}

/// The masks that pin the latent frames in a list: one over the latent, and one over the tokens of
/// its patch grid. Indices past the last frame pin nothing. Pinned is `zero`, free is `one`.
pub fn build_ti2v_multi_mask<T: Copy>(
    indices: &Vec<usize>,
    z_dim: usize,
    t_lat: usize,
    h_lat: usize,
    w_lat: usize,
    patch_size: (usize, usize, usize),
    one: T,
    zero: T,
) -> (r: (Tensor<T>, Tensor<T>))
    requires
        patch_size.0 > 0,
        patch_size.1 > 0,
        patch_size.2 > 0,
        z_dim * t_lat * h_lat * w_lat <= usize::MAX,
        h_lat * w_lat <= usize::MAX,
        token_count(t_lat, h_lat, w_lat, patch_size) <= usize::MAX,
    ensures
        are_pinning_masks(r, indices@, z_dim, t_lat, h_lat, w_lat, patch_size, one, zero),
{
    let (pt, ph, pw) = patch_size;
    proof {
        lemma_grid(
            t_lat as int,
            h_lat as int,
            w_lat as int,
            pt as int,
            ph as int,
            pw as int,
        );
    }
    let pinned = pinned_frames(indices, 1, t_lat);
    let mask = frame_mask(z_dim, &pinned, h_lat, w_lat, zero, one);
    let frames: usize = t_lat / pt;
    let per_frame: usize = (h_lat / ph) * (w_lat / pw);
    let pinned_tokens = pinned_frames(indices, pt, frames);
    let tokens = token_mask(&pinned_tokens, per_frame, zero, one);
    proof {
        lemma_frame_mask_same(
            mask,
            seq![z_dim, t_lat, h_lat, w_lat],
            |t: int| 0 <= t < pinned.len() && pinned@[t],
            |t: int| listed(indices@, 1, t),
            zero,
            one,
        );
        lemma_token_mask_same(
            tokens,
            frames as int,
            per_frame as int,
            |t: int| 0 <= t < pinned_tokens.len() && pinned_tokens@[t],
            |t: int| listed(indices@, pt as int, t),
            zero,
            one,
        );
    }
    (mask, tokens)
}

/// The frames of a latent that a list pins.
pub open spec fn pinned_set(indices: Seq<usize>, t_lat: usize) -> Set<int> {
    Set::new(|i: int| 0 <= i < t_lat && indices.contains(i as usize))
}

/// A frame of patches is listed where a pinned frame lies in it.
proof fn lemma_listed_in_set(indices: Seq<usize>, t_lat: usize, step: int, t: int)
    requires
        step > 0,
        0 <= t < t_lat as int / step,
    ensures
        listed(indices, step, t) <==> exists|i: int| #[trigger]
            pinned_set(indices, t_lat).contains(i) && i / step == t,
{
    let n = t_lat as int;
    if listed(indices, step, t) {
        let k = choose|k: int| 0 <= k < indices.len() && #[trigger] indices[k] as int / step == t;
        let i = indices[k] as int;
        assert(i < n) by (nonlinear_arith)
            requires
                i / step == t,
                t < n / step,
                step > 0,
        ;
        assert(indices.contains(indices[k]));
        assert(pinned_set(indices, t_lat).contains(i));
    }
    if exists|i: int| #[trigger] pinned_set(indices, t_lat).contains(i) && i / step == t {
        let i = choose|i: int| #[trigger]
            pinned_set(indices, t_lat).contains(i) && i / step == t;
        let k = choose|k: int| 0 <= k < indices.len() && indices[k] == i as usize;
        assert(indices[k] as int / step == t);
    }
}

/// The masks show exactly the frames of the latent that the list pins. The latent's mask is `zero` in
/// those frames and `one` in the others. The tokens' mask has a place for every token of the patch grid,
/// frame by frame; a place is `zero` where a pinned frame lies in its frame of patches, and `one`
/// elsewhere.
pub proof fn law_masks_show_the_pinned_frames<T>(
    masks: (Tensor<T>, Tensor<T>),
    indices: Seq<usize>,
    z_dim: usize,
    t_lat: usize,
    h_lat: usize,
    w_lat: usize,
    patch_size: (usize, usize, usize),
    one: T,
    zero: T,
)
    requires
        patch_size.0 > 0,
        patch_size.1 > 0,
        patch_size.2 > 0,
        are_pinning_masks(masks, indices, z_dim, t_lat, h_lat, w_lat, patch_size, one, zero),
    ensures
        masks.0.shape@ == seq![z_dim, t_lat, h_lat, w_lat],
        forall|idx: Seq<int>| #[trigger]
            in_bounds(masks.0.shape@, idx) ==> masks.0.at(idx) == if pinned_set(
                indices,
                t_lat,
            ).contains(idx[1]) {
                zero
            } else {
                one
            },
        masks.1.shape@.len() == 2,
        masks.1.shape@[0] == 1,
        masks.1.shape@[1] == token_count(t_lat, h_lat, w_lat, patch_size),
        forall|idx: Seq<int>| #[trigger]
            in_bounds(masks.1.shape@, idx) ==> masks.1.at(idx) == if exists|i: int| #[trigger]
                pinned_set(indices, t_lat).contains(i) && i / patch_size.0 as int == idx[1]
                    / tokens_per_frame(h_lat, w_lat, patch_size) {
                zero
            } else {
                one
            },
{
    let set = pinned_set(indices, t_lat);
    let shape = seq![z_dim, t_lat, h_lat, w_lat];
    assert forall|idx: Seq<int>| #[trigger] in_bounds(shape, idx) implies masks.0.at(idx) == if set.contains(
        idx[1],
    ) {
        zero
    } else {
        one
    } by {
        let t = idx[1];
        assert(0 <= idx[1] < shape[1]);
        assert(t_lat as int / 1 == t_lat);
        lemma_listed_in_set(indices, t_lat, 1, t);
        if set.contains(t) {
            assert(t / 1 == t);
        }
    }
    let (pt, ph, pw) = (patch_size.0 as int, patch_size.1 as int, patch_size.2 as int);
    lemma_grid(t_lat as int, h_lat as int, w_lat as int, pt, ph, pw);
    let g = tokens_per_frame(h_lat, w_lat, patch_size);
    let frames = t_lat as int / pt;
    assert forall|idx: Seq<int>| #[trigger] in_bounds(masks.1.shape@, idx) implies masks.1.at(idx)
        == if exists|i: int| #[trigger] set.contains(i) && i / pt == idx[1] / g {
        zero
    } else {
        one
    } by {
        let j = idx[1];
        assert(0 <= idx[1] < masks.1.shape@[1]);
        assert(g > 0 && 0 <= j / g < frames) by (nonlinear_arith)
            requires
                0 <= j < frames * g,
                frames >= 0,
                g >= 0,
        ;
        lemma_listed_in_set(indices, t_lat, pt, j / g);
    }
}

/// Only which frames a list holds shows in the masks: not their order, not that one is repeated, and not
/// a frame past the last.
pub proof fn law_only_the_set_of_frames_matters<T>(
    a: Seq<usize>,
    b: Seq<usize>,
    first: (Tensor<T>, Tensor<T>),
    second: (Tensor<T>, Tensor<T>),
    z_dim: usize,
    t_lat: usize,
    h_lat: usize,
    w_lat: usize,
    patch_size: (usize, usize, usize),
    one: T,
    zero: T,
)
    requires
        patch_size.0 > 0,
        patch_size.1 > 0,
        patch_size.2 > 0,
        pinned_set(a, t_lat) == pinned_set(b, t_lat),
        are_pinning_masks(first, a, z_dim, t_lat, h_lat, w_lat, patch_size, one, zero),
        are_pinning_masks(second, b, z_dim, t_lat, h_lat, w_lat, patch_size, one, zero),
    ensures
        first.0.shape@ == second.0.shape@,
        first.0.data@ == second.0.data@,
        first.1.shape@ == second.1.shape@,
        first.1.data@ == second.1.data@,
{
    let (pt, ph, pw) = (patch_size.0 as int, patch_size.1 as int, patch_size.2 as int);
    let g = tokens_per_frame(h_lat, w_lat, patch_size);
    lemma_grid(t_lat as int, h_lat as int, w_lat as int, pt, ph, pw);
    assert forall|s: int, t: int| s > 0 && 0 <= t < t_lat as int / s implies #[trigger] listed(
        a,
        s,
        t,
    ) == listed(b, s, t) by {
        lemma_listed_in_set(a, t_lat, s, t);
        lemma_listed_in_set(b, t_lat, s, t);
    }
    assert(t_lat as int / 1 == t_lat);
    lemma_frame_mask_same(
        first.0,
        seq![z_dim, t_lat, h_lat, w_lat],
        |t: int| listed(a, 1, t),
        |t: int| listed(b, 1, t),
        zero,
        one,
    );
    lemma_token_mask_same(
        first.1,
        t_lat as int / pt,
        g,
        |t: int| listed(a, pt, t),
        |t: int| listed(b, pt, t),
        zero,
        one,
    );
    lemma_tensor_ext(first.0, second.0);
    assert(first.1.shape@ =~= second.1.shape@);
    lemma_tensor_ext(first.1, second.1);
}

/// The first frame alone is listed by a list of it alone.
proof fn lemma_first_alone(step: int, t: int)
    requires
        step > 0,
    ensures
        listed(seq![0usize], step, t) == (t == 0),
{
    let first = seq![0usize];
    assert(first[0] as int / step == 0) by (nonlinear_arith)
        requires
            step > 0,
            first[0] == 0,
    ;
}

/// A list of the first frame alone gives the masks of the first frame.
pub proof fn law_first_frame_alone<T>(
    many: (Tensor<T>, Tensor<T>),
    one_frame: (Tensor<T>, Tensor<T>),
    z_dim: usize,
    t_lat: usize,
    h_lat: usize,
    w_lat: usize,
    patch_size: (usize, usize, usize),
    one: T,
    zero: T,
)
    requires
        patch_size.0 > 0,
        patch_size.1 > 0,
        patch_size.2 > 0,
        are_pinning_masks(many, seq![0usize], z_dim, t_lat, h_lat, w_lat, patch_size, one, zero),
        are_first_frame_masks(one_frame, z_dim, t_lat, h_lat, w_lat, patch_size, one, zero),
    ensures
        many.0.shape@ == one_frame.0.shape@,
        many.0.data@ == one_frame.0.data@,
        many.1.shape@ == one_frame.1.shape@,
        many.1.data@ == one_frame.1.data@,
{
    let (pt, ph, pw) = (patch_size.0 as int, patch_size.1 as int, patch_size.2 as int);
    lemma_grid(t_lat as int, h_lat as int, w_lat as int, pt, ph, pw);
    assert forall|t: int, s: int| s > 0 implies #[trigger] listed(seq![0usize], s, t) == (t
        == 0) by {
        lemma_first_alone(s, t);
    }
    lemma_frame_mask_same(
        many.0,
        seq![z_dim, t_lat, h_lat, w_lat],
        |t: int| listed(seq![0usize], 1, t),
        |t: int| t == 0,
        zero,
        one,
    );
    lemma_token_mask_same(
        many.1,
        t_lat as int / pt,
        tokens_per_frame(h_lat, w_lat, patch_size),
        |t: int| listed(seq![0usize], pt, t),
        |t: int| t == 0,
        zero,
        one,
    );
    lemma_tensor_ext(many.0, one_frame.0);
    assert(many.1.shape@ =~= one_frame.1.shape@);
    lemma_tensor_ext(many.1, one_frame.1);
}

/// The last entry of a list for a frame.
pub open spec fn last_for<T>(frames: Seq<(Tensor<T>, usize)>, t: int) -> Option<int>
    decreases frames.len(),
{
    if frames.len() == 0 {
        None
    } else if frames.last().1 == t {
        Some(frames.len() - 1)
    } else {
        last_for(frames.drop_last(), t)
    }
}

/// An entry that the list gives for a frame is in the list and is for that frame.
proof fn lemma_last_for<T>(frames: Seq<(Tensor<T>, usize)>, t: int)
    ensures
        match last_for(frames, t) {
            Some(k) => 0 <= k < frames.len() && frames[k].1 == t,
            None => true,
        },
    decreases frames.len(),
{
    if frames.len() > 0 && frames.last().1 != t {
        lemma_last_for(frames.drop_last(), t);
    }
}

/// Whether a latent holds the latents of single frames at their places, the later entry where two are for
/// one frame, and `zero` elsewhere.
pub open spec fn holds_keyframes<T>(
    z: Tensor<T>,
    frames: Seq<(Tensor<T>, usize)>,
    shape: Seq<usize>,
    zero: T,
) -> bool {
    &&& z.wf()
    &&& z.shape@ == shape
    &&& forall|idx: Seq<int>| #[trigger]
        in_bounds(z.shape@, idx) ==> z.at(idx) == match last_for(frames, idx[1]) {
            Some(k) => frames[k].0.at(idx.update(1, 0)),
            None => zero,
        }
}

/// A keyframe is found in the latent at its frame, at the same channel, row and column, unless a later
/// keyframe is for the same frame; a frame without a keyframe is empty.
pub proof fn law_keyframes_are_at_their_frames<T>(
    z: Tensor<T>,
    frames: Seq<(Tensor<T>, usize)>,
    shape: Seq<usize>,
    zero: T,
    c: int,
    t: int,
    y: int,
    x: int,
)
    requires
        shape.len() == 4,
        holds_keyframes(z, frames, shape, zero),
        0 <= c < shape[0],
        0 <= t < shape[1],
        0 <= y < shape[2],
        0 <= x < shape[3],
    ensures
        z.shape@ == shape,
        forall|k: int|
            0 <= k < frames.len() && (#[trigger] frames[k]).1 == t && (forall|m: int|
                k < m < frames.len() ==> (#[trigger] frames[m]).1 != t) ==> z.at(seq![c, t, y, x])
                == frames[k].0.at(seq![c, 0, y, x]),
        (forall|k: int| 0 <= k < frames.len() ==> (#[trigger] frames[k]).1 != t) ==> z.at(
            seq![c, t, y, x],
        ) == zero,
{
    let idx = seq![c, t, y, x];
    assert(in_bounds(z.shape@, idx));
    assert(idx.update(1, 0) =~= seq![c, 0, y, x]);
    lemma_last_for(frames, t);
    assert forall|k: int|
        0 <= k < frames.len() && (#[trigger] frames[k]).1 == t && (forall|m: int|
            k < m < frames.len() ==> (#[trigger] frames[m]).1 != t) implies z.at(seq![c, t, y, x])
        == frames[k].0.at(seq![c, 0, y, x]) by {
        lemma_last_is(frames, t, k);
    }
}

/// The last entry for a frame is the one that none behind it is for.
proof fn lemma_last_is<T>(frames: Seq<(Tensor<T>, usize)>, t: int, k: int)
    requires
        0 <= k < frames.len(),
        frames[k].1 == t,
        forall|m: int| k < m < frames.len() ==> (#[trigger] frames[m]).1 != t,
    ensures
        last_for(frames, t) == Some(k),
    decreases frames.len(),
{
    if k < frames.len() - 1 {
        let head = frames.drop_last();
        assert forall|m: int| k < m < head.len() implies (#[trigger] head[m]).1 != t by {
            assert(head[m] == frames[m]);
        }
        assert(frames[frames.len() - 1].1 != t);
        lemma_last_is(head, t, k);
    }
}

/// Puts the latents of single frames at their places in a latent of `t_lat` frames, the later entry
/// where two are for one frame. Entries past the last frame are left out, and the other frames are
/// `zero`. A latent without a frame is nothing.
pub fn build_ti2v_keyframe_z<T: Copy>(
    frames: &Vec<(Tensor<T>, usize)>,
    z_dim: usize,
    t_lat: usize,
    h_lat: usize,
    w_lat: usize,
    zero: T,
) -> (r: Option<Tensor<T>>)
    requires
        z_dim * t_lat * h_lat * w_lat <= usize::MAX,
        forall|k: int|
            0 <= k < frames.len() ==> (#[trigger] frames@[k]).0.wf() && frames@[k].0.shape@
                == seq![z_dim, 1usize, h_lat, w_lat],
    ensures
        match r {
            None => t_lat == 0,
            Some(z) => {
                &&& t_lat > 0
                &&& z.wf()
                &&& z.shape@ == seq![z_dim, t_lat, h_lat, w_lat]
                &&& forall|idx: Seq<int>| #[trigger]
                    in_bounds(z.shape@, idx) ==> z.at(idx) == match last_for(frames@, idx[1]) {
                        Some(k) => frames@[k].0.at(idx.update(1, 0)),
                        None => zero,
                    }
                &&& holds_keyframes(z, frames@, seq![z_dim, t_lat, h_lat, w_lat], zero)
            },
        },
{
    if t_lat == 0 {
        return None;
    }
    let mut source: Vec<Option<usize>> = Vec::new();
    let mut t: usize = 0;
    while t < t_lat
        invariant
            t <= t_lat,
            source.len() == t,
            forall|j: int| 0 <= j < t ==> #[trigger] source@[j] is None,
        decreases t_lat - t,
    {
        source.push(None);
        t += 1;
    }
    let mut k: usize = 0;
    while k < frames.len()
        invariant
            k <= frames.len(),
            source.len() == t_lat,
            forall|j: int|
                0 <= j < t_lat ==> match last_for(frames@.take(k as int), j) {
                    Some(e) => #[trigger] source@[j] == Some(e as usize),
                    None => source@[j] is None,
                },
        decreases frames.len() - k,
    {
        let at: usize = frames[k].1;
        proof {
            assert(frames@.take(k + 1).drop_last() =~= frames@.take(k as int));
            assert(frames@.take(k + 1).last() == frames@[k as int]);
        }
        if at < t_lat {
            source[at] = Some(k);
        }
        k += 1;
    }
    assert(frames@.take(k as int) =~= frames@);
    let shape: Vec<usize> = vec![z_dim, t_lat, h_lat, w_lat];
    let ghost sh = seq![z_dim, t_lat, h_lat, w_lat];
    assert(shape@ =~= sh);
    proof {
        lemma_volume4(z_dim, t_lat, h_lat, w_lat);
        assert forall|j: int| 0 <= j < t_lat implies match #[trigger] source@[j] {
            Some(e) => e < frames.len() && last_for(frames@, j) == Some(e as int),
            None => last_for(frames@, j) is None,
        } by {
            lemma_last_for(frames@, j);
        }
    }
    let ghost g = |idx: Seq<int>|
        match last_for(frames@, idx[1]) {
            Some(k) => frames@[k].0.at(idx.update(1, 0)),
            None => zero,
        };
    let f = |v: &Vec<usize>| -> (out: T)
        requires
            in_bounds(seq![z_dim, t_lat, h_lat, w_lat], index_view(v@)),
            source.len() == t_lat,
            forall|j: int|
                0 <= j < t_lat ==> match #[trigger] source@[j] {
                    Some(e) => e < frames.len() && last_for(frames@, j) == Some(e as int),
                    None => last_for(frames@, j) is None,
                },
            forall|k: int|
                0 <= k < frames.len() ==> (#[trigger] frames@[k]).0.wf() && frames@[k].0.shape@
                    == seq![z_dim, 1usize, h_lat, w_lat],
        ensures
            out == g(index_view(v@)),
        {
            let ghost iv = index_view(v@);
            proof {
                let sh = seq![z_dim, t_lat, h_lat, w_lat];
                assert(0 <= iv[0] < sh[0]);
                assert(0 <= iv[1] < sh[1]);
                assert(0 <= iv[2] < sh[2]);
                assert(0 <= iv[3] < sh[3]);
            }
            match source[v[1]] {
                Some(e) => {
                    let at: Vec<usize> = vec![v[0], 0, v[2], v[3]];
                    proof {
                        assert(index_view(at@) =~= iv.update(1, 0));
                        assert(in_bounds(frames@[e as int].0.shape@, index_view(at@)));
                    }
                    frames[e].0.get(&at)
                },
                None => zero,
            }
        };
    Some(tabulate(shape, f, Ghost(g)))
}

/// The smallest size that covers the target and keeps the aspect ratio of the image, each side rounded
/// to the nearest whole pixel, and never below the target.
pub open spec fn cover_size(iw: int, ih: int, tw: int, th: int) -> (int, int) {
    if tw * ih >= th * iw {
        (tw, larger(rounded(ih * tw, iw), th))
    } else {
        (larger(rounded(iw * th, ih), tw), th)
    }
}

/// How an image is fitted to a target size: resized to cover it, unless it has that size already, then
/// cropped at its centre.
#[derive(Debug, Clone, Copy, PartialEq, Eq, Structural)]
pub struct CoverFit {
    pub width: u64,
    pub height: u64,
    pub resize: bool,
    pub left: u64,
    pub top: u64,
}

/// Whether an image of `iw` by `ih` pixels is fitted so that it covers `tw` by `th`, and is cut there.
pub open spec fn is_cover(f: CoverFit, iw: int, ih: int, tw: int, th: int) -> bool {
    let size = cover_size(iw, ih, tw, th);
    &&& f.width == size.0
    &&& f.height == size.1
    &&& f.resize == (f.width != iw || f.height != ih)
    &&& f.left == (f.width - tw) / 2
    &&& f.top == (f.height - th) / 2
}

/// What a pixel buffer of the wrong size is answered.
pub open spec fn wrong_buffer(len: int, iw: int, ih: int) -> Seq<char> {
    "i2v image pixel buffer "@ + decimal(len as nat) + " != "@ + decimal(iw as nat) + "x"@ + decimal(
        ih as nat,
    ) + "x3"@
}

/// Plans how an image is fitted to a target size.
pub fn cover_fit(image: &Image, width: u32, height: u32) -> (r: Result<CoverFit, Error>)
    requires
        image.width > 0,
        image.height > 0,
    ensures
        match r {
            Ok(f) => {
                let size = cover_size(
                    image.width as int,
                    image.height as int,
                    width as int,
                    height as int,
                );
                &&& image.pixels@.len() == image.width * image.height * 3
                &&& size.0 <= 0xffff_ffff_ffff_ffff && size.1 <= 0xffff_ffff_ffff_ffff
                &&& f.width == size.0
                &&& f.height == size.1
                &&& f.resize == (f.width != image.width || f.height != image.height)
                &&& f.left == (f.width - width) / 2
                &&& f.top == (f.height - height) / 2
                &&& f.left + width <= f.width
                &&& f.top + height <= f.height
                &&& is_cover(
                    f,
                    image.width as int,
                    image.height as int,
                    width as int,
                    height as int,
                )
                &&& width * image.height >= height * image.width ==> f.width == width && 2
                    * image.height * width - image.width <= 2 * f.height * image.width <= 2
                    * image.height * width + image.width
                &&& width * image.height < height * image.width ==> f.height == height && 2
                    * image.width * height - image.height <= 2 * f.width * image.height <= 2
                    * image.width * height + image.height
            },
            Err(e) => image.pixels@.len() != image.width * image.height * 3 && e is Msg && e.text()
                == wrong_buffer(
                image.pixels@.len() as int,
                image.width as int,
                image.height as int,
            ),
        },
{
    let (iw, ih) = (image.width as u128, image.height as u128);
    let (tw, th) = (width as u128, height as u128);
    proof {
        let (a, b) = (iw as int, ih as int);
        assert(0 <= a * b <= 0xffff_ffff * 0xffff_ffff) by (nonlinear_arith)
            requires
                0 <= a <= 0xffff_ffff,
                0 <= b <= 0xffff_ffff,
        ;
        lemma_cover(iw as int, ih as int, tw as int, th as int);
    }
    if image.pixels.len() as u128 != iw * ih * 3 {
        let text = "i2v image pixel buffer ".to_owned().concat(
            decimal_wide(image.pixels.len() as u128).as_str(),
        ).concat(" != ").concat(decimal_wide(iw).as_str()).concat("x").concat(
            decimal_wide(ih).as_str(),
        ).concat("x3");
        return Err(Error::Msg(text));
    }
    let (nw, nh): (u128, u128) = if tw * ih >= th * iw {
        let side = py_round(ih * tw, iw);
        (
            tw,
            if side >= th {
                side
            } else {
                th
            },
        )
    } else {
        let side = py_round(iw * th, ih);
        (
            if side >= tw {
                side
            } else {
                tw
            },
            th,
        )
    };
    proof {
        law_cover_keeps_the_aspect_ratio(
            CoverFit {
                width: nw as u64,
                height: nh as u64,
                resize: nw != iw || nh != ih,
                left: ((nw - tw) / 2) as u64,
                top: ((nh - th) / 2) as u64,
            },
            iw as int,
            ih as int,
            tw as int,
            th as int,
        );
    }
    Ok(
        CoverFit {
            width: nw as u64,
            height: nh as u64,
            resize: nw != iw || nh != ih,
            left: ((nw - tw) / 2) as u64,
            top: ((nh - th) / 2) as u64,
        },
    )
}

/// An image that is fitted keeps its aspect ratio, each side to the nearest pixel. One side is that of the
/// target: the width where the image is relatively taller than the target, the height where it is
/// relatively wider. The other side is the target's or longer, and what is longer is cut off in the
/// middle: what goes on the left and at the top is as much as on the right and at the bottom, or one pixel
/// less. An image is resized where its size changes, and only there.
pub proof fn law_cover_keeps_the_aspect_ratio(f: CoverFit, iw: int, ih: int, tw: int, th: int)
    requires
        iw > 0,
        ih > 0,
        tw >= 0,
        th >= 0,
        is_cover(f, iw, ih, tw, th),
    ensures
        tw * ih >= th * iw ==> f.width == tw && 2 * ih * tw - iw <= 2 * f.height * iw <= 2 * ih * tw
            + iw,
        tw * ih < th * iw ==> f.height == th && 2 * iw * th - ih <= 2 * f.width * ih <= 2 * iw * th
            + ih,
        f.width >= tw,
        f.height >= th,
        0 <= (f.width - tw - f.left) - f.left <= 1,
        0 <= (f.height - th - f.top) - f.top <= 1,
        f.resize <==> !(f.width == iw && f.height == ih),
{
    assert(ih * tw == tw * ih && iw * th == th * iw) by (nonlinear_arith);
    assert(ih * tw >= 0 && iw * th >= 0) by (nonlinear_arith)
        requires
            iw > 0,
            ih > 0,
            tw >= 0,
            th >= 0,
    ;
    lemma_rounded_reaches(ih * tw, iw, th);
    lemma_rounded_reaches(iw * th, ih, tw);
    crate::numeric::law_rounding_is_nearest(ih * tw, iw);
    crate::numeric::law_rounding_is_nearest(iw * th, ih);
    assert(2 * ih * tw == 2 * (ih * tw)) by (nonlinear_arith);
    assert(2 * iw * th == 2 * (iw * th)) by (nonlinear_arith);
    let (a, b) = (rounded(ih * tw, iw), rounded(iw * th, ih));
    assert(2 * a * iw == 2 * (a * iw)) by (nonlinear_arith);
    assert(2 * b * ih == 2 * (b * ih)) by (nonlinear_arith);
}

/// A fraction that is at least a whole number is so when it is rounded.
proof fn lemma_rounded_reaches(num: int, den: int, n: int)
    requires
        num >= 0,
        den > 0,
        n >= 0,
    ensures
        num >= n * den ==> rounded(num, den) >= n,
{
    if num >= n * den {
        assert(num / den >= n) by (nonlinear_arith)
            requires
                num >= n * den,
                den > 0,
        ;
    }
}

/// The covering size fits into a machine word.
proof fn lemma_cover(iw: int, ih: int, tw: int, th: int)
    requires
        0 < iw <= 0xffff_ffff,
        0 < ih <= 0xffff_ffff,
        0 <= tw <= 0xffff_ffff,
        0 <= th <= 0xffff_ffff,
    ensures
        0 <= tw * ih <= 0xffff_fffe_0000_0001,
        0 <= th * iw <= 0xffff_fffe_0000_0001,
        0 <= ih * tw <= 0xffff_fffe_0000_0001,
        0 <= iw * th <= 0xffff_fffe_0000_0001,
        0 <= rounded(ih * tw, iw) <= 0xffff_ffff_ffff_fffe,
        0 <= rounded(iw * th, ih) <= 0xffff_ffff_ffff_fffe,
{
    assert(0 <= tw * ih <= 0xffff_fffe_0000_0001 && 0 <= ih * tw <= 0xffff_fffe_0000_0001)
        by (nonlinear_arith)
        requires
            0 <= ih <= 0xffff_ffff,
            0 <= tw <= 0xffff_ffff,
    ;
    assert(0 <= th * iw <= 0xffff_fffe_0000_0001 && 0 <= iw * th <= 0xffff_fffe_0000_0001)
        by (nonlinear_arith)
        requires
            0 <= iw <= 0xffff_ffff,
            0 <= th <= 0xffff_ffff,
    ;
    let (a, b) = (ih * tw, iw * th);
    assert(0 <= a / iw <= a) by (nonlinear_arith)
        requires
            a >= 0,
            iw > 0,
    ;
    assert(0 <= b / ih <= b) by (nonlinear_arith)
        requires
            b >= 0,
            ih > 0,
    ;
}

/// The place of a channel of a pixel in an image of `width` columns, row by row with three channels
/// per pixel.
pub open spec fn pixel_place(width: int, y: int, x: int, c: int) -> int {
    (y * width + x) * 3 + c
}

/// A pixel of an image lies in its buffer.
proof fn lemma_pixel_place(width: int, height: int, y: int, x: int, c: int)
    requires
        0 <= y < height,
        0 <= x < width,
        0 <= c < 3,
    ensures
        0 <= y * width,
        0 <= y * width + x < height * width,
        0 <= pixel_place(width, y, x, c) < height * width * 3,
{
    assert(0 <= y * width && y * width + x < height * width) by (nonlinear_arith)
        requires
            0 <= y < height,
            0 <= x < width,
    ;
}

/// Whether a tensor is a window of an image with its channels first.
pub open spec fn is_crop<T>(
    r: Tensor<T>,
    pixels: Seq<T>,
    width: int,
    left: int,
    top: int,
    crop_width: usize,
    crop_height: usize,
) -> bool {
    &&& r.wf()
    &&& r.shape@ == seq![3usize, crop_height, crop_width]
    &&& forall|idx: Seq<int>| #[trigger]
        in_bounds(r.shape@, idx) ==> r.at(idx) == pixels[pixel_place(
            width,
            top + idx[1],
            left + idx[2],
            idx[0],
        )]
}

/// A window shows at a row and a column what the image shows so many rows below the top of the window and
/// so many columns right of its left, whatever the channel. The image is stored row by row, three channels
/// to a pixel.
pub proof fn law_crop_shows_the_window<T>(
    r: Tensor<T>,
    pixels: Seq<T>,
    width: int,
    left: int,
    top: int,
    crop_width: usize,
    crop_height: usize,
    c: int,
    y: int,
    x: int,
)
    requires
        is_crop(r, pixels, width, left, top, crop_width, crop_height),
        0 <= c < 3,
        0 <= y < crop_height,
        0 <= x < crop_width,
    ensures
        r.at(seq![c, y, x]) == pixels[3 * (width * (top + y) + (left + x)) + c],
{
    let idx = seq![c, y, x];
    assert(in_bounds(r.shape@, idx));
    assert((top + y) * width == width * (top + y)) by (nonlinear_arith);
}

/// Cuts a window out of an image and puts its channels first.
pub fn crop_chw<T: Copy>(
    pixels: &Vec<T>,
    width: usize,
    height: usize,
    left: usize,
    top: usize,
    crop_width: usize,
    crop_height: usize,
) -> (r: Tensor<T>)
    requires
        pixels.len() == height * width * 3,
        left + crop_width <= width,
        top + crop_height <= height,
        3 * crop_height * crop_width <= usize::MAX,
    ensures
        r.wf(),
        r.shape@ == seq![3usize, crop_height, crop_width],
        forall|idx: Seq<int>| #[trigger]
            in_bounds(r.shape@, idx) ==> r.at(idx) == pixels@[pixel_place(
                width as int,
                top + idx[1],
                left + idx[2],
                idx[0],
            )],
        is_crop(r, pixels@, width as int, left as int, top as int, crop_width, crop_height),
{
    let shape: Vec<usize> = vec![3, crop_height, crop_width];
    assert(shape@ =~= seq![3usize, crop_height, crop_width]);
    proof {
        lemma_volume3(3, crop_height, crop_width);
    }
    let ghost g = |idx: Seq<int>|
        pixels@[pixel_place(width as int, top + idx[1], left + idx[2], idx[0])];
    let f = |v: &Vec<usize>| -> (out: T)
        requires
            in_bounds(seq![3usize, crop_height, crop_width], index_view(v@)),
            pixels.len() == height * width * 3,
            left + crop_width <= width,
            top + crop_height <= height,
        ensures
            out == g(index_view(v@)),
        {
            proof {
                let iv = index_view(v@);
                let sh = seq![3usize, crop_height, crop_width];
                assert(0 <= iv[0] < sh[0]);
                assert(0 <= iv[1] < sh[1]);
                assert(0 <= iv[2] < sh[2]);
                lemma_pixel_place(
                    width as int,
                    height as int,
                    top + iv[1],
                    left + iv[2],
                    iv[0],
                );
            }
            let y: usize = top + v[1];
            let x: usize = left + v[2];
            pixels[(y * width + x) * 3 + v[0]]
        };
    tabulate(shape, f, Ghost(g))
}

/// Whether images are the frames of a video, one after the other.
pub open spec fn are_frames(
    images: Seq<Image>,
    bytes: Seq<u8>,
    frames: int,
    height: int,
    width: int,
    channels: int,
) -> bool {
    &&& images.len() == frames
    &&& forall|i: int|
        0 <= i < frames ==> {
            &&& (#[trigger] images[i]).width == width
            &&& images[i].height == height
            &&& images[i].pixels@ == bytes.subrange(
                i * (height * width * channels),
                (i + 1) * (height * width * channels),
            )
        }
}

/// A frame shows at a row and a column what the video holds there: the video is stored frame by frame, a
/// frame row by row, and a row pixel by pixel. A frame has the rows and columns of the video.
pub proof fn law_frames_show_the_video(
    images: Seq<Image>,
    bytes: Seq<u8>,
    frames: int,
    height: int,
    width: int,
    channels: int,
    i: int,
    y: int,
    x: int,
    c: int,
)
    requires
        are_frames(images, bytes, frames, height, width, channels),
        bytes.len() == frames * (height * width * channels),
        0 <= i < frames,
        0 <= y < height,
        0 <= x < width,
        0 <= c < channels,
    ensures
        images[i].width == width,
        images[i].height == height,
        images[i].pixels@.len() == height * width * channels,
        images[i].pixels@[channels * (images[i].width * y + x) + c] == bytes[channels * (width * (
        height * i + y) + x) + c],
{
    let per = height * width * channels;
    let p = channels * (width * y + x) + c;
    assert(0 <= width * y + x < height * width) by (nonlinear_arith)
        requires
            0 <= y < height,
            0 <= x < width,
    ;
    let (m, q) = (height * width, width * y + x);
    assert(0 <= channels * q + c < m * channels) by (nonlinear_arith)
        requires
            0 <= q < m,
            0 <= c < channels,
    ;
    assert(0 <= i * per && (i + 1) * per == i * per + per && (i + 1) * per <= frames * per)
        by (nonlinear_arith)
        requires
            0 <= i < frames,
            per >= 0,
    ;
    assert(images[i].pixels@[p] == bytes[i * per + p]);
    assert(width * (height * i + y) + x == m * i + q) by (nonlinear_arith)
        requires
            m == height * width,
            q == width * y + x,
    ;
    assert(channels * (m * i + q) + c == i * per + (channels * q + c)) by (nonlinear_arith)
        requires
            per == m * channels,
    ;
}

/// Splits a video of `frames` frames, each row by row with `channels` bytes per pixel, into its frames.
pub fn frames_to_images(
    bytes: &Vec<u8>,
    frames: usize,
    height: usize,
    width: usize,
    channels: usize,
) -> (r: Vec<Image>)
    requires
        height <= u32::MAX,
        width <= u32::MAX,
        height * width <= usize::MAX,
        height * width * channels <= usize::MAX,
        bytes.len() == frames * (height * width * channels),
    ensures
        r.len() == frames,
        forall|i: int|
            0 <= i < frames ==> {
                &&& (#[trigger] r@[i]).width == width
                &&& r@[i].height == height
                &&& r@[i].pixels@ == bytes@.subrange(
                    i * (height * width * channels),
                    (i + 1) * (height * width * channels),
                )
            },
        are_frames(
            r@,
            bytes@,
            frames as int,
            height as int,
            width as int,
            channels as int,
        ),
{
    let per: usize = height * width * channels;
    let mut out: Vec<Image> = Vec::new();
    let mut i: usize = 0;
    while i < frames
        invariant
            i <= frames,
            per == height * width * channels,
            bytes.len() == frames * per,
            height <= u32::MAX,
            width <= u32::MAX,
            out.len() == i,
            forall|j: int|
                0 <= j < i ==> {
                    &&& (#[trigger] out@[j]).width == width
                    &&& out@[j].height == height
                    &&& out@[j].pixels@ == bytes@.subrange(j * per, (j + 1) * per)
                },
        decreases frames - i,
    {
        proof {
            assert(i * per + per <= frames * per && (i + 1) * per == i * per + per && 0 <= i * per)
                by (nonlinear_arith)
                requires
                    0 <= i < frames,
                    per >= 0,
            ;
        }
        let start: usize = i * per;
        let pixels = copy_bytes(bytes, start, start + per);
        out.push(Image { width: width as u32, height: height as u32, pixels });
        i += 1;
    }
    out
}

/// The bytes from `start` up to `end`.
fn copy_bytes(bytes: &Vec<u8>, start: usize, end: usize) -> (r: Vec<u8>)
    requires
        start <= end <= bytes.len(),
    ensures
        r@ == bytes@.subrange(start as int, end as int),
{
    let mut out: Vec<u8> = Vec::new();
    let mut k: usize = start;
    while k < end
        invariant
            start <= k <= end,
            end <= bytes.len(),
            out@ == bytes@.subrange(start as int, k as int),
        decreases end - k,
    {
        out.push(bytes[k]);
        k += 1;
        assert(out@ =~= bytes@.subrange(start as int, k as int));
    }
    out
}

/// Every byte of a video is in the frame that its place says, at the place that is left.
pub proof fn law_frames_hold_every_byte(bytes: Seq<u8>, images: Seq<Image>, per: int, k: int)
    requires
        per > 0,
        bytes.len() == images.len() * per,
        forall|i: int|
            0 <= i < images.len() ==> (#[trigger] images[i]).pixels@ == bytes.subrange(
                i * per,
                (i + 1) * per,
            ),
        0 <= k < bytes.len(),
    ensures
        0 <= k / per < images.len(),
        images[k / per].pixels@[k % per] == bytes[k],
{
    let n = images.len() as int;
    let i = k / per;
    let j = k % per;
    assert(0 <= i < n && 0 <= j < per && i * per + j == k && (i + 1) * per == i * per + per && (i + 1)
        * per <= n * per && i * per >= 0) by (nonlinear_arith)
        requires
            per > 0,
            0 <= k < n * per,
            i == k / per,
            j == k % per,
    ;
    assert(images[i].pixels@[j] == bytes[i * per + j]);
}

/// The conditioning video of the image-to-video model: the image, then so many empty frames. The latent
/// mask has the given extents.
#[derive(Debug, Clone, Copy, PartialEq, Eq, Structural)]
pub struct I2vPlan {
    pub empty_frames: usize,
    pub t_lat: usize,
    pub h_lat: usize,
    pub w_lat: usize,
}

/// Plans the conditioning video of the image-to-video model. A video without a frame is an error.
pub fn plan_i2v_y(frames: usize, height: u32, width: u32, vae_stride: (usize, usize, usize)) -> (r: Result<
    I2vPlan,
    Error,
>)
    requires
        vae_stride.0 > 0,
        vae_stride.1 > 0,
        vae_stride.2 > 0,
    ensures
        match r {
            Ok(p) => {
                &&& frames > 0
                &&& p.empty_frames == frames - 1
                &&& p.t_lat == latent_frames(frames as int, vae_stride.0 as int)
                &&& p.h_lat == height as int / vae_stride.1 as int
                &&& p.w_lat == width as int / vae_stride.2 as int
                &&& is_i2v_plan(p, frames as int, height as int, width as int, vae_stride)
            },
            Err(e) => frames == 0 && e is Msg && e.text()
                == "wan build_i2v_y: frames must be >= 1"@,
        },
{
    if frames == 0 {
        return Err(Error::Msg("wan build_i2v_y: frames must be >= 1".to_owned()));
    }
    let (st, sh, sw) = vae_stride;
    proof {
        let (n, s) = (frames - 1, st as int);
        assert(0 <= n / s <= n) by (nonlinear_arith)
            requires
                n >= 0,
                s > 0,
        ;
    }
    Ok(
        I2vPlan {
            empty_frames: frames - 1,
            t_lat: (frames - 1) / st + 1,
            h_lat: height as usize / sh,
            w_lat: width as usize / sw,
        },
    )
}

/// The frame of a latent of single frames that stands for frame `t`: itself, or the only one.
pub open spec fn source_frame(frames: int, t: int) -> int {
    if frames == 1 {
        0
    } else {
        t
    }
}

/// Whether `out` has the pinned frames of `z` and the free places of `free`: free where the mask says so.
pub open spec fn is_blend<T>(out: Tensor<T>, z: Tensor<T>, mask: Tensor<bool>, free: Tensor<T>) -> bool {
    &&& out.wf()
    &&& out.shape@ == free.shape@
    &&& forall|idx: Seq<int>| #[trigger]
        in_bounds(free.shape@, idx) ==> out.at(idx) == if mask.at(idx) {
            free.at(idx)
        } else {
            z.at(idx.update(1, source_frame(z.shape@[1] as int, idx[1])))
        }
}

/// Blends the latent of an image, or of keyframes, with noise: what the mask frees is noise, and the rest
/// is the image's. After every step the same is done with what was denoised.
pub fn ti2v_blend_init<T: Copy>(z_img: &Tensor<T>, mask: &Tensor<bool>, noise: &Tensor<T>) -> (r: Tensor<
    T,
>)
    requires
        z_img.wf(),
        mask.wf(),
        noise.wf(),
        noise.shape@.len() == 4,
        mask.shape@ == noise.shape@,
        z_img.shape@.len() == 4,
        z_img.shape@[0] == noise.shape@[0],
        z_img.shape@[1] == 1 || z_img.shape@[1] == noise.shape@[1],
        z_img.shape@[2] == noise.shape@[2],
        z_img.shape@[3] == noise.shape@[3],
    ensures
        is_blend(r, *z_img, *mask, *noise),
{
    let (z, t, h, w): (usize, usize, usize, usize) = (
        noise.shape[0],
        noise.shape[1],
        noise.shape[2],
        noise.shape[3],
    );
    let frames: usize = z_img.shape[1];
    let len: usize = noise.data.len();
    let shape: Vec<usize> = vec![z, t, h, w];
    assert(shape@ =~= noise.shape@);
    let ghost g = |idx: Seq<int>|
        if mask.at(idx) {
            noise.at(idx)
        } else {
            z_img.at(idx.update(1, source_frame(frames as int, idx[1])))
        };
    let f = |v: &Vec<usize>| -> (out: T)
        requires
            in_bounds(noise.shape@, index_view(v@)),
            z_img.wf(),
            mask.wf(),
            noise.wf(),
            noise.shape@.len() == 4,
            mask.shape@ == noise.shape@,
            z_img.shape@.len() == 4,
            z_img.shape@[0] == noise.shape@[0],
            z_img.shape@[1] == 1 || z_img.shape@[1] == noise.shape@[1],
            z_img.shape@[2] == noise.shape@[2],
            z_img.shape@[3] == noise.shape@[3],
            frames == z_img.shape@[1],
        ensures
            out == g(index_view(v@)),
        {
            proof {
                let iv = index_view(v@);
                assert(0 <= iv[0] < noise.shape@[0]);
                assert(0 <= iv[1] < noise.shape@[1]);
                assert(0 <= iv[2] < noise.shape@[2]);
                assert(0 <= iv[3] < noise.shape@[3]);
            }
            if mask.get(v) {
                noise.get(v)
            } else {
                let at: Vec<usize> = vec![
                    v[0],
                    if frames == 1 {
                        0
                    } else {
                        v[1]
                    },
                    v[2],
                    v[3],
                ];
                proof {
                    let iv = index_view(v@);
                    let to = iv.update(1, source_frame(frames as int, iv[1]));
                    assert(index_view(at@) =~= to);
                    assert(in_bounds(z_img.shape@, to));
                }
                z_img.get(&at)
            }
        };
    tabulate(shape, f, Ghost(g))
}

/// However often a latent is blended, and whatever is done to it in between, a pinned frame is the
/// image's; and blending what is blended already changes nothing.
pub proof fn law_pinned_frames_stay<T>(
    z: Tensor<T>,
    mask: Tensor<bool>,
    frames: spec_fn(int) -> bool,
    denoised: Tensor<T>,
    once: Tensor<T>,
    twice: Tensor<T>,
    idx: Seq<int>,
)
    requires
        denoised.shape@.len() == 4,
        is_frame_mask(mask, denoised.shape@, frames, false, true),
        is_blend(once, z, mask, denoised),
        is_blend(twice, z, mask, once),
        in_bounds(denoised.shape@, idx),
    ensures
        frames(idx[1]) ==> once.at(idx) == z.at(
            idx.update(1, source_frame(z.shape@[1] as int, idx[1])),
        ),
        !frames(idx[1]) ==> once.at(idx) == denoised.at(idx),
        twice.at(idx) == once.at(idx),
{
}

/// A blended latent is the free one where the mask frees it. Elsewhere it is the image's at the same channel,
/// row and column: of the image's only frame, or of the same frame where the image has as many.
pub proof fn law_blend_takes_each_place_from_one<T>(
    out: Tensor<T>,
    z: Tensor<T>,
    mask: Tensor<bool>,
    free: Tensor<T>,
    c: int,
    t: int,
    y: int,
    x: int,
)
    requires
        is_blend(out, z, mask, free),
        free.shape@.len() == 4,
        0 <= c < free.shape@[0],
        0 <= t < free.shape@[1],
        0 <= y < free.shape@[2],
        0 <= x < free.shape@[3],
    ensures
        out.shape@ == free.shape@,
        mask.at(seq![c, t, y, x]) ==> out.at(seq![c, t, y, x]) == free.at(seq![c, t, y, x]),
        !mask.at(seq![c, t, y, x]) && z.shape@[1] == 1 ==> out.at(seq![c, t, y, x]) == z.at(
            seq![c, 0, y, x],
        ),
        !mask.at(seq![c, t, y, x]) && z.shape@[1] != 1 ==> out.at(seq![c, t, y, x]) == z.at(
            seq![c, t, y, x],
        ),
{
    let idx = seq![c, t, y, x];
    assert(in_bounds(free.shape@, idx));
    assert(idx.update(1, 0) =~= seq![c, 0, y, x]);
    assert(idx.update(1, t) =~= idx);
}

/// Whether frames with their channels last are those of a video with its channels first.
pub open spec fn are_video_frames<T>(r: Tensor<T>, video: Tensor<T>) -> bool {
    &&& r.shape@ == seq![video.shape@[2], video.shape@[3], video.shape@[4], video.shape@[1]]
    &&& forall|idx: Seq<int>| #[trigger]
        in_bounds(r.shape@, idx) ==> r.at(idx) == video.at(
            seq![0, idx[3], idx[0], idx[1], idx[2]],
        )
}

/// Whether a frame with its channels last is an image with its channels first.
pub open spec fn is_image_frame<T>(r: Tensor<T>, chw: Tensor<T>) -> bool {
    &&& r.shape@ == seq![1usize, 1usize, chw.shape@[1], chw.shape@[2], chw.shape@[0]]
    &&& forall|idx: Seq<int>| #[trigger]
        in_bounds(r.shape@, idx) ==> r.at(idx) == chw.at(seq![idx[4], idx[2], idx[3]])
}

/// Whether a latent with its channels first is one with its channels last.
pub open spec fn is_channels_first<T>(r: Tensor<T>, z: Tensor<T>) -> bool {
    &&& r.shape@ == seq![z.shape@[4], z.shape@[1], z.shape@[2], z.shape@[3]]
    &&& forall|idx: Seq<int>| #[trigger]
        in_bounds(r.shape@, idx) ==> r.at(idx) == z.at(seq![0, idx[1], idx[2], idx[3], idx[0]])
}

/// A decoded video shows at a frame, a row and a column, channel by channel, what it showed with its
/// channels first.
pub proof fn law_video_frames_show_the_video<T>(
    r: Tensor<T>,
    video: Tensor<T>,
    t: int,
    y: int,
    x: int,
    c: int,
)
    requires
        video.shape@.len() == 5,
        are_video_frames(r, video),
        0 <= t < video.shape@[2],
        0 <= y < video.shape@[3],
        0 <= x < video.shape@[4],
        0 <= c < video.shape@[1],
    ensures
        r.shape@ == seq![video.shape@[2], video.shape@[3], video.shape@[4], video.shape@[1]],
        r.at(seq![t, y, x, c]) == video.at(seq![0, c, t, y, x]),
{
    let idx = seq![t, y, x, c];
    assert(in_bounds(r.shape@, idx));
    assert(seq![0, idx[3], idx[0], idx[1], idx[2]] =~= seq![0, c, t, y, x]);
}

/// An image that becomes a frame with its channels last, and then has its channels put first again, is the
/// image: at every channel, row and column.
pub proof fn law_channels_go_last_and_come_first<T>(
    chw: Tensor<T>,
    frame: Tensor<T>,
    back: Tensor<T>,
    c: int,
    y: int,
    x: int,
)
    requires
        chw.shape@.len() == 3,
        is_image_frame(frame, chw),
        is_channels_first(back, frame),
        0 <= c < chw.shape@[0],
        0 <= y < chw.shape@[1],
        0 <= x < chw.shape@[2],
    ensures
        frame.shape@ == seq![1usize, 1usize, chw.shape@[1], chw.shape@[2], chw.shape@[0]],
        frame.at(seq![0, 0, y, x, c]) == chw.at(seq![c, y, x]),
        back.shape@ == seq![chw.shape@[0], 1usize, chw.shape@[1], chw.shape@[2]],
        back.at(seq![c, 0, y, x]) == chw.at(seq![c, y, x]),
{
    let i = seq![0, 0, y, x, c];
    assert(in_bounds(frame.shape@, i));
    assert(seq![i[4], i[2], i[3]] =~= seq![c, y, x]);
    let j = seq![c, 0, y, x];
    assert(in_bounds(back.shape@, j));
    assert(seq![0, j[1], j[2], j[3], j[0]] =~= i);
}

/// A latent of several frames keeps them, with its channels first: at every channel, frame, row and column.
pub proof fn law_channels_come_first<T>(r: Tensor<T>, z: Tensor<T>, c: int, t: int, y: int, x: int)
    requires
        z.shape@.len() == 5,
        is_channels_first(r, z),
        0 <= t < z.shape@[1],
        0 <= y < z.shape@[2],
        0 <= x < z.shape@[3],
        0 <= c < z.shape@[4],
    ensures
        r.shape@ == seq![z.shape@[4], z.shape@[1], z.shape@[2], z.shape@[3]],
        r.at(seq![c, t, y, x]) == z.at(seq![0, t, y, x, c]),
{
    let j = seq![c, t, y, x];
    assert(in_bounds(r.shape@, j));
    assert(seq![0, j[1], j[2], j[3], j[0]] =~= seq![0, t, y, x, c]);
}

/// The mask of the image-to-video model marks the first latent frame, whatever the channel, row and column,
/// and no other.
pub proof fn law_i2v_mask_marks_the_first_frame<T>(
    mask: Tensor<T>,
    t_lat: usize,
    h_lat: usize,
    w_lat: usize,
    one: T,
    zero: T,
    c: int,
    t: int,
    y: int,
    x: int,
)
    requires
        is_frame_mask(mask, seq![4usize, t_lat, h_lat, w_lat], |t: int| t == 0, one, zero),
        0 <= c < 4,
        0 <= t < t_lat,
        0 <= y < h_lat,
        0 <= x < w_lat,
    ensures
        mask.shape@ == seq![4usize, t_lat, h_lat, w_lat],
        mask.at(seq![c, t, y, x]) == if t == 0 {
            one
        } else {
            zero
        },
{
    assert(in_bounds(seq![4usize, t_lat, h_lat, w_lat], seq![c, t, y, x]));
}

/// The frames of a decoded video, which has its channels first, with their channels last.
pub fn video_to_frames<T: Copy>(video: &Tensor<T>) -> (r: Tensor<T>)
    requires
        video.wf(),
        video.shape@.len() == 5,
        video.shape@[0] == 1,
    ensures
        r.wf(),
        r.shape@ == seq![video.shape@[2], video.shape@[3], video.shape@[4], video.shape@[1]],
        forall|idx: Seq<int>| #[trigger]
            in_bounds(r.shape@, idx) ==> r.at(idx) == video.at(
                seq![0, idx[3], idx[0], idx[1], idx[2]],
            ),
        are_video_frames(r, *video),
{
    let (c, t, h, w): (usize, usize, usize, usize) = (
        video.shape[1],
        video.shape[2],
        video.shape[3],
        video.shape[4],
    );
    let len: usize = video.data.len();
    let shape: Vec<usize> = vec![t, h, w, c];
    assert(shape@ =~= seq![t, h, w, c]);
    proof {
        assert(video.shape@ =~= seq![1usize, c, t, h, w]);
        lemma_volume5(1, c, t, h, w);
        lemma_volume4(t, h, w, c);
        lemma_rotate(c as int, t as int, h as int, w as int);
    }
    let ghost g = |idx: Seq<int>| video.at(seq![0, idx[3], idx[0], idx[1], idx[2]]);
    let f = |v: &Vec<usize>| -> (out: T)
        requires
            in_bounds(seq![t, h, w, c], index_view(v@)),
            video.wf(),
            video.shape@ == seq![1usize, c, t, h, w],
        ensures
            out == g(index_view(v@)),
        {
            proof {
                let iv = index_view(v@);
                let sh = seq![t, h, w, c];
                assert(0 <= iv[0] < sh[0]);
                assert(0 <= iv[1] < sh[1]);
                assert(0 <= iv[2] < sh[2]);
                assert(0 <= iv[3] < sh[3]);
            }
            let at: Vec<usize> = vec![0, v[3], v[0], v[1], v[2]];
            proof {
                let iv = index_view(v@);
                assert(index_view(at@) =~= seq![0int, iv[3], iv[0], iv[1], iv[2]]);
            }
            video.get(&at)
        };
    tabulate(shape, f, Ghost(g))
}

/// A product with its first factor moved to the end.
proof fn lemma_rotate(c: int, t: int, h: int, w: int)
    ensures
        1 * c * t * h * w == t * h * w * c,
{
    let m = t * h * w;
    assert(1 * c * t * h * w == c * m) by (nonlinear_arith)
        requires
            m == t * h * w,
    ;
    assert(c * m == m * c) by (nonlinear_arith);
}

/// An image with its channels first, as one frame of one video with its channels last.
pub fn image_to_frame<T: Copy>(chw: &Tensor<T>) -> (r: Tensor<T>)
    requires
        chw.wf(),
        chw.shape@.len() == 3,
    ensures
        r.wf(),
        r.shape@ == seq![1usize, 1usize, chw.shape@[1], chw.shape@[2], chw.shape@[0]],
        forall|idx: Seq<int>| #[trigger]
            in_bounds(r.shape@, idx) ==> r.at(idx) == chw.at(seq![idx[4], idx[2], idx[3]]),
        is_image_frame(r, *chw),
{
    let (c, h, w): (usize, usize, usize) = (chw.shape[0], chw.shape[1], chw.shape[2]);
    let len: usize = chw.data.len();
    let shape: Vec<usize> = vec![1, 1, h, w, c];
    assert(shape@ =~= seq![1usize, 1usize, h, w, c]);
    proof {
        assert(chw.shape@ =~= seq![c, h, w]);
        lemma_volume3(c, h, w);
        lemma_volume5(1, 1, h, w, c);
        let (x, y, z) = (c as int, h as int, w as int);
        assert(1 * 1 * y * z * x == x * y * z) by (nonlinear_arith);
    }
    let ghost g = |idx: Seq<int>| chw.at(seq![idx[4], idx[2], idx[3]]);
    let f = |v: &Vec<usize>| -> (out: T)
        requires
            in_bounds(seq![1usize, 1usize, h, w, c], index_view(v@)),
            chw.wf(),
            chw.shape@ == seq![c, h, w],
        ensures
            out == g(index_view(v@)),
        {
            proof {
                let iv = index_view(v@);
                let sh = seq![1usize, 1usize, h, w, c];
                assert(0 <= iv[2] < sh[2]);
                assert(0 <= iv[3] < sh[3]);
                assert(0 <= iv[4] < sh[4]);
            }
            let at: Vec<usize> = vec![v[4], v[2], v[3]];
            proof {
                let iv = index_view(v@);
                assert(index_view(at@) =~= seq![iv[4], iv[2], iv[3]]);
            }
            chw.get(&at)
        };
    tabulate(shape, f, Ghost(g))
}

/// The latent of one frame of one video with its channels last, with its channels first.
pub fn latent_channels_first<T: Copy>(z: &Tensor<T>) -> (r: Tensor<T>)
    requires
        z.wf(),
        z.shape@.len() == 5,
        z.shape@[0] == 1,
    ensures
        r.wf(),
        r.shape@ == seq![z.shape@[4], z.shape@[1], z.shape@[2], z.shape@[3]],
        forall|idx: Seq<int>| #[trigger]
            in_bounds(r.shape@, idx) ==> r.at(idx) == z.at(
                seq![0, idx[1], idx[2], idx[3], idx[0]],
            ),
        is_channels_first(r, *z),
{
    let (t, h, w, c): (usize, usize, usize, usize) = (
        z.shape[1],
        z.shape[2],
        z.shape[3],
        z.shape[4],
    );
    let len: usize = z.data.len();
    let shape: Vec<usize> = vec![c, t, h, w];
    assert(shape@ =~= seq![c, t, h, w]);
    proof {
        assert(z.shape@ =~= seq![1usize, t, h, w, c]);
        lemma_volume5(1, t, h, w, c);
        lemma_volume4(c, t, h, w);
        lemma_rotate(c as int, t as int, h as int, w as int);
    }
    let ghost g = |idx: Seq<int>| z.at(seq![0, idx[1], idx[2], idx[3], idx[0]]);
    let f = |v: &Vec<usize>| -> (out: T)
        requires
            in_bounds(seq![c, t, h, w], index_view(v@)),
            z.wf(),
            z.shape@ == seq![1usize, t, h, w, c],
        ensures
            out == g(index_view(v@)),
        {
            proof {
                let iv = index_view(v@);
                let sh = seq![c, t, h, w];
                assert(0 <= iv[0] < sh[0]);
                assert(0 <= iv[1] < sh[1]);
                assert(0 <= iv[2] < sh[2]);
                assert(0 <= iv[3] < sh[3]);
            }
            let at: Vec<usize> = vec![0, v[1], v[2], v[3], v[0]];
            proof {
                let iv = index_view(v@);
                assert(index_view(at@) =~= seq![0int, iv[1], iv[2], iv[3], iv[0]]);
            }
            z.get(&at)
        };
    tabulate(shape, f, Ghost(g))
}

/// The timestep of every token: none for a pinned frame's, and the step's for the others.
pub fn token_timesteps(free: &Vec<bool>, t: u32) -> (r: Vec<u32>)
    ensures
        r@.len() == free@.len(),
        forall|i: int|
            0 <= i < r@.len() ==> #[trigger] r@[i] == if free@[i] {
                t
            } else {
                0
            },
        are_timesteps(r@, free@, t),
{
    let mut out: Vec<u32> = Vec::new();
    let mut i: usize = 0;
    while i < free.len()
        invariant
            i <= free.len(),
            out.len() == i,
            forall|j: int|
                0 <= j < i ==> #[trigger] out@[j] == if free@[j] {
                    t
                } else {
                    0
                },
        decreases free.len() - i,
    {
        out.push(
            if free[i] {
                t
            } else {
                0
            },
        );
        i += 1;
    }
    out
}

/// Whether every token has its timestep.
pub open spec fn are_timesteps(r: Seq<u32>, free: Seq<bool>, t: u32) -> bool {
    &&& r.len() == free.len()
    &&& forall|i: int|
        0 <= i < r.len() ==> #[trigger] r[i] == if free[i] {
            t
        } else {
            0
        }
}

/// A token that is pinned is clean, whatever the step; one that is free is as noisy as the step.
pub proof fn law_pinned_tokens_are_clean(r: Seq<u32>, free: Seq<bool>, t: u32, i: int)
    requires
        are_timesteps(r, free, t),
        0 <= i < free.len(),
    ensures
        r.len() == free.len(),
        !free[i] ==> r[i] == 0,
        free[i] ==> r[i] == t,
{
}

/// Whether a conditioning video is planned for a video.
pub open spec fn is_i2v_plan(
    p: I2vPlan,
    frames: int,
    height: int,
    width: int,
    stride: (usize, usize, usize),
) -> bool {
    &&& p.empty_frames == frames - 1
    &&& p.t_lat == latent_frames(frames, stride.0 as int)
    &&& p.h_lat == height / stride.1 as int
    &&& p.w_lat == width / stride.2 as int
}

/// The image and the empty frames behind it are as many as the video has frames, and the latent mask has the
/// frames, rows and columns of the video's latents.
pub proof fn law_conditioning_video_is_as_long(
    p: I2vPlan,
    frames: int,
    height: int,
    width: int,
    stride: (usize, usize, usize),
)
    requires
        frames > 0,
        height >= 0,
        width >= 0,
        stride.0 > 0,
        stride.1 > 0,
        stride.2 > 0,
        is_i2v_plan(p, frames, height, width, stride),
    ensures
        1 + p.empty_frames == frames,
        (p.t_lat - 1) * stride.0 < frames <= p.t_lat * stride.0,
        p.h_lat * stride.1 <= height < p.h_lat * stride.1 + stride.1,
        p.w_lat * stride.2 <= width < p.w_lat * stride.2 + stride.2,
{
    let (a, b, c) = (stride.0 as int, stride.1 as int, stride.2 as int);
    let (t, h, w) = (p.t_lat as int, p.h_lat as int, p.w_lat as int);
    assert((t - 1) * a < frames <= t * a) by (nonlinear_arith)
        requires
            a > 0,
            frames > 0,
            t == (frames - 1) / a + 1,
    ;
    assert(h * b <= height < h * b + b) by (nonlinear_arith)
        requires
            b > 0,
            h == height / b,
    ;
    assert(w * c <= width < w * c + c) by (nonlinear_arith)
        requires
            c > 0,
            w == width / c,
    ;
}

} // verus!
