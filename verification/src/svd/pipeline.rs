//! The knobs of a generation, and how its frames are decoded.

use vstd::prelude::*;
use crate::error::Error;
use crate::numeric::larger;
use crate::text::{signed, signed_text};

verus! {

/// The knobs of a generation. Numbers with a fraction are held as the bits of a 32-bit float.
#[derive(Debug, Clone, Copy, PartialEq, Eq, Structural)]
pub struct SvdParams {
    pub num_frames: i32,
    pub num_inference_steps: usize,
    pub min_guidance_scale_bits: u32,
    pub max_guidance_scale_bits: u32,
    pub fps: i32,
    pub motion_bucket_id_bits: u32,
    pub noise_aug_strength_bits: u32,
    /// So many frames are decoded at a time.
    pub decode_chunk_size: i32,
}

impl Default for SvdParams {
    /// 25 frames in 25 steps, guidance from 1 to 3, 7 frames a second, motion 127, 0.02 of noise on the
    /// image, and all frames decoded at once.
    fn default() -> (r: SvdParams)
        ensures
            r == (SvdParams {
                num_frames: 25,
                num_inference_steps: 25,
                min_guidance_scale_bits: 0x3f80_0000,
                max_guidance_scale_bits: 0x4040_0000,
                fps: 7,
                motion_bucket_id_bits: 0x42fe_0000,
                noise_aug_strength_bits: 0x3ca3_d70a,
                decode_chunk_size: 25,
            }),
    {
        SvdParams {
            num_frames: 25,
            num_inference_steps: 25,
            min_guidance_scale_bits: 0x3f80_0000,
            max_guidance_scale_bits: 0x4040_0000,
            fps: 7,
            motion_bucket_id_bits: 0x42fe_0000,
            noise_aug_strength_bits: 0x3ca3_d70a,
            decode_chunk_size: 25,
        }
    }
}

/// The first of the numbers that steer the motion: one less than the frames a second, as the model was
/// trained.
pub fn fps_id(params: &SvdParams) -> (r: i32)
    requires
        params.fps > i32::MIN,
    ensures
        r == params.fps - 1,
{
    params.fps - 1
}

/// How many frames have a guidance of their own: at least one.
pub open spec fn guided_frames(num_frames: int) -> int {
    larger(num_frames, 1)
}

/// How far each frame is on the way from the smallest guidance to the largest, as a numerator and a
/// denominator: from the first frame to the last in equal steps. A frame that is alone has the smallest.
pub fn guidance_schedule(num_frames: i32) -> (r: Vec<(i32, i32)>)
    ensures
        r@.len() == guided_frames(num_frames as int),
        forall|i: int|
            0 <= i < r@.len() ==> (#[trigger] r@[i]).0 == i && r@[i].1 == larger(r@.len() - 1, 1),
        is_ramp(r@, num_frames as int),
{
    let f: i32 = if num_frames > 1 {
        num_frames
    } else {
        1
    };
    let den: i32 = if f > 2 {
        f - 1
    } else {
        1
    };
    let mut out: Vec<(i32, i32)> = Vec::new();
    let mut i: i32 = 0;
    while i < f
        invariant
            0 <= i <= f,
            f == guided_frames(num_frames as int),
            den == larger(f - 1, 1),
            out.len() == i,
            forall|j: int| 0 <= j < i ==> (#[trigger] out@[j]).0 == j && out@[j].1 == den,
        decreases f - i,
    {
        out.push((i, den));
        i += 1;
    }
    out
}

/// The guidance rises from the smallest at the first frame to the largest at the last, and no frame has
/// less than the one before.
pub proof fn law_guidance_rises(ramp: Seq<(i32, i32)>, i: int, j: int)
    requires
        ramp.len() > 1,
        forall|k: int|
            0 <= k < ramp.len() ==> (#[trigger] ramp[k]).0 == k && ramp[k].1 == larger(
                ramp.len() - 1,
                1,
            ),
        0 <= i < j < ramp.len(),
    ensures
        ramp[0].0 == 0,
        ramp[ramp.len() - 1].0 == ramp[ramp.len() - 1].1,
        ramp[i].1 == ramp[j].1,
        ramp[i].0 < ramp[j].0,
{
}

/// How many frames are decoded at a time: at least one.
pub open spec fn window(chunk: int) -> int {
    if chunk > 1 {
        chunk
    } else {
        1
    }
}

/// What more than one video at a time is answered.
pub open spec fn batch_text(batch: int) -> Seq<char> {
    "svd decode: batch size must be 1 (got "@ + signed(batch) + ")"@
}

/// Whether windows follow each other from `from` up to `to`, each full but the last.
pub open spec fn windows_from(w: Seq<(i32, i32)>, chunk: int, to: int) -> bool {
    forall|i: int|
        0 <= i < w.len() ==> {
            &&& (#[trigger] w[i]).0 == i * window(chunk)
            &&& w[i].1 == if to - i * window(chunk) < window(chunk) {
                to - i * window(chunk)
            } else {
                window(chunk)
            }
            &&& w[i].1 > 0
        }
}

/// Plans the decode of a video: the first frame and the number of frames of each window. Only one video
/// can be decoded at a time, because the frames of several would be taken for those of one.
pub fn decode(batch: i32, num_frames: i32, chunk: i32) -> (r: Result<Vec<(i32, i32)>, Error>)
    ensures
        match r {
            Ok(w) => {
                &&& batch == 1
                &&& windows_from(w@, chunk as int, num_frames as int)
                &&& num_frames <= 0 ==> w@.len() == 0
                &&& num_frames > 0 ==> (w@.len() - 1) * window(chunk as int) < num_frames
                    <= w@.len() * window(chunk as int)
            },
            Err(e) => batch != 1 && e is Msg && e.text() == batch_text(batch as int),
        },
        is_decode_plan(r, batch as int, num_frames as int, chunk as int),
{
    if batch != 1 {
        return Err(
            Error::Msg(
                "svd decode: batch size must be 1 (got ".to_owned().concat(
                    signed_text(batch).as_str(),
                ).concat(")"),
            ),
        );
    }
    let chunk_len: i32 = if chunk > 1 {
        chunk
    } else {
        1
    };
    let mut out: Vec<(i32, i32)> = Vec::new();
    let mut start: i32 = 0;
    assert(0 * window(chunk as int) == 0);
    while start < num_frames
        invariant
            0 <= start,
            start <= num_frames || start == 0,
            chunk_len == window(chunk as int),
            chunk_len >= 1,
            windows_from(out@, chunk as int, num_frames as int),
            start < num_frames ==> start == out@.len() * chunk_len,
            out@.len() == 0 ==> start == 0,
            num_frames <= 0 ==> out@.len() == 0,
            out@.len() > 0 ==> (out@.len() - 1) * chunk_len < start <= out@.len() * chunk_len,
        decreases num_frames - start,
    {
        let left: i32 = num_frames - start;
        let n: i32 = if chunk_len <= left {
            chunk_len
        } else {
            left
        };
        proof {
            let k = out@.len() as int;
            let c = chunk_len as int;
            assert((k + 1) * c == k * c + c) by (nonlinear_arith);
        }
        out.push((start, n));
        start = start + n;
    }
    Ok(out)
}

/// The windows hold every frame: a frame is in the window that its number says.
pub proof fn law_windows_hold_every_frame(w: Seq<(i32, i32)>, chunk: int, num_frames: int, f: int)
    requires
        windows_from(w, chunk, num_frames),
        (w.len() - 1) * window(chunk) < num_frames <= w.len() * window(chunk),
        0 <= f < num_frames,
    ensures
        0 <= f / window(chunk) < w.len(),
        w[f / window(chunk)].0 <= f < w[f / window(chunk)].0 + w[f / window(chunk)].1,
{
    let c = window(chunk);
    let n = w.len() as int;
    let i = f / c;
    assert(0 <= i < n && i * c <= f < i * c + c) by (nonlinear_arith)
        requires
            c >= 1,
            0 <= f < n * c,
            i == f / c,
    ;
    assert(w[i].0 == i * c);
}

/// The windows follow each other.
pub proof fn law_windows_follow_each_other(w: Seq<(i32, i32)>, chunk: int, num_frames: int, i: int)
    requires
        windows_from(w, chunk, num_frames),
        (w.len() - 1) * window(chunk) < num_frames <= w.len() * window(chunk),
        0 <= i < w.len() - 1,
    ensures
        w[i].0 + w[i].1 == w[i + 1].0,
{
    let c = window(chunk);
    let n = w.len() as int;
    assert((i + 1) * c == i * c + c && (i + 1) * c <= (n - 1) * c) by (nonlinear_arith)
        requires
            c >= 1,
            i + 1 <= n - 1,
    ;
    assert(w[i].0 == i * c);
    assert(w[i + 1].0 == (i + 1) * c);
}

/// Whether the frames have their guidance.
pub open spec fn is_ramp(ramp: Seq<(i32, i32)>, num_frames: int) -> bool {
    &&& ramp.len() == guided_frames(num_frames)
    &&& forall|i: int|
        0 <= i < ramp.len() ==> (#[trigger] ramp[i]).0 == i && ramp[i].1 == larger(ramp.len() - 1, 1)
}

/// Each frame has a guidance. The first has the smallest and, of several, the last the largest; each frame is
/// farther on the way than the one before by one and the same part of it.
pub proof fn law_each_frame_is_guided(ramp: Seq<(i32, i32)>, num_frames: int, i: int)
    requires
        num_frames > 0,
        is_ramp(ramp, num_frames),
        0 <= i < num_frames,
    ensures
        ramp.len() == num_frames,
        ramp[0].0 == 0,
        num_frames > 1 ==> ramp[num_frames - 1].0 == ramp[num_frames - 1].1,
        ramp[i].1 > 0,
        ramp[i].1 == ramp[0].1,
        i + 1 < num_frames ==> ramp[i + 1].0 == ramp[i].0 + 1,
{
}

/// Whether the decode of a video is planned, or refused.
pub open spec fn is_decode_plan(
    r: Result<Vec<(i32, i32)>, Error>,
    batch: int,
    num_frames: int,
    chunk: int,
) -> bool {
    match r {
        Ok(w) => {
            &&& batch == 1
            &&& windows_from(w@, chunk, num_frames)
            &&& num_frames <= 0 ==> w@.len() == 0
            &&& num_frames > 0 ==> (w@.len() - 1) * window(chunk) < num_frames <= w@.len() * window(
                chunk,
            )
        },
        Err(e) => batch != 1,
    }
}

/// One video is decoded at a time, and never more. Its windows begin with the first frame and end with the
/// last; each has as many frames as are decoded at a time, but for the last, which has what is left.
pub proof fn law_video_is_decoded_window_by_window(
    r: Result<Vec<(i32, i32)>, Error>,
    batch: int,
    num_frames: int,
    chunk: int,
    i: int,
)
    requires
        num_frames > 0,
        is_decode_plan(r, batch, num_frames, chunk),
    ensures
        r is Ok <==> batch == 1,
        r matches Ok(w) ==> w@.len() > 0 && w@[0].0 == 0 && w@.last().0 + w@.last().1 == num_frames,
        r matches Ok(w) ==> (0 <= i < w@.len() - 1 && chunk >= 1 ==> w@[i].1 == chunk),
        r matches Ok(w) ==> (0 <= i < w@.len() && chunk < 1 ==> w@[i].1 == 1),
        r matches Ok(w) ==> (0 <= i < w@.len() && chunk >= 1 ==> 0 < w@[i].1 <= chunk),
{
    if let Ok(w) = r {
        let c = window(chunk);
        let n = w@.len() as int;
        if n == 0 {
            assert((n - 1) * c == -c) by (nonlinear_arith)
                requires
                    n == 0,
            ;
            assert(n * c == 0) by (nonlinear_arith)
                requires
                    n == 0,
            ;
        } else {
            assert(w@[0].0 == 0 * c);
            assert(w@[n - 1].0 == (n - 1) * c);
            assert(n * c == (n - 1) * c + c) by (nonlinear_arith);
            if 0 <= i < n {
                assert(w@[i].0 == i * c);
            }
            if 0 <= i < n - 1 {
                assert(i * c + c <= (n - 1) * c) by (nonlinear_arith)
                    requires
                        i + 1 <= n - 1,
                        c >= 1,
                ;
            }
        }
    }
}

} // verus!
