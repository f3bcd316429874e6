//! Temporal difference between two frames: the thresholded per-channel
//! absolute difference that isolates motion between a previous and a
//! current frame.

use crate::frame::blank_bytes;
use crate::frame::frame_wf;
use crate::frame::FrameBuffer;
use crate::frame::FrameView;
use vstd::prelude::*;

verus! {

/// One channel of the delta: the absolute difference `d` of the two source
/// channels, kept only when it lies in `[low, high]`; differences below the
/// low threshold (noise) or above the high one (saturation artifacts)
/// become 0.
pub open spec fn delta_channel(c1: u8, c2: u8, low: u8, high: u8) -> u8 {
    let d = if c1 >= c2 {
        c1 - c2
    } else {
        c2 - c1
    };
    if d > high || d < low {
        0u8
    } else {
        d as u8
    }
}

/// Byte `n` of the delta of two same-sized frames. A pixel is compared only
/// where both frames are fully opaque at it; anywhere else it becomes
/// transparent black, signalling "no comparable data here".
pub open spec fn delta_byte(f1: FrameView, f2: FrameView, low: u8, high: u8, n: int) -> u8 {
    let i = n / 4;
    let c = n % 4;
    if f1.pixels[4 * i + 3] == 255 && f2.pixels[4 * i + 3] == 255 {
        if c == 3 {
            255u8
        } else {
            delta_channel(f1.pixels[n], f2.pixels[n], low, high)
        }
    } else {
        0u8
    }
}

/// The delta's full byte sequence. Frames of unequal dimensions fall back
/// to an opaque black frame of the first frame's size; this is a defined
/// result, not an error.
pub open spec fn delta_bytes(f1: FrameView, f2: FrameView, low: u8, high: u8) -> Seq<u8> {
    if f1.width == f2.width && f1.height == f2.height {
        Seq::new((f1.width * f1.height * 4) as nat, |n: int| delta_byte(f1, f2, low, high, n))
    } else {
        blank_bytes(f1.width, f1.height)
    }
}

/// The delta as a whole frame, at the first frame's dimensions.
pub open spec fn delta_frame(f1: FrameView, f2: FrameView, low: u8, high: u8) -> FrameView {
    FrameView { width: f1.width, height: f1.height, pixels: delta_bytes(f1, f2, low, high) }
}

/// Computes the thresholded difference of two frames, pixel by pixel.
pub fn compute_delta(prev: &FrameBuffer, curr: &FrameBuffer, low_threshold: u8, high_threshold: u8) -> (out: FrameBuffer)
    requires
        frame_wf(prev@),
        frame_wf(curr@),
    ensures
        out@ == delta_frame(prev@, curr@, low_threshold, high_threshold),
        frame_wf(out@),
{
    let len = prev.pixels.len();
    if prev.width != curr.width || prev.height != curr.height {
        return FrameBuffer::blank(prev.width, prev.height);
    }
    let count = len / 4;
    let mut pixels: Vec<u8> = Vec::new();
    for i in 0..count
        invariant
            frame_wf(prev@),
            frame_wf(curr@),
            prev@.width == curr@.width,
            prev@.height == curr@.height,
            count == prev@.width * prev@.height,
            4 * count == prev@.pixels.len(),
            4 * count <= usize::MAX,
            pixels@.len() == 4 * i,
            forall|n: int| 0 <= n < 4 * i ==> pixels@[n] == delta_byte(
                prev@,
                curr@,
                low_threshold,
                high_threshold,
                n,
            ),
    {
        let i4 = 4 * i;
        if prev.pixels[i4 + 3] == 255 && curr.pixels[i4 + 3] == 255 {
            pixels.push(delta_channel_exec(prev.pixels[i4], curr.pixels[i4], low_threshold, high_threshold));
            pixels.push(delta_channel_exec(prev.pixels[i4 + 1], curr.pixels[i4 + 1], low_threshold, high_threshold));
            pixels.push(delta_channel_exec(prev.pixels[i4 + 2], curr.pixels[i4 + 2], low_threshold, high_threshold));
            pixels.push(255);
        } else {
            pixels.push(0);
            pixels.push(0);
            pixels.push(0);
            pixels.push(0);
        }
        proof {
            assert forall|n: int| 4 * i <= n < 4 * (i + 1) implies pixels@[n] == delta_byte(
                prev@,
                curr@,
                low_threshold,
                high_threshold,
                n,
            ) by {
                assert(n / 4 == i && n % 4 == n - 4 * i) by (nonlinear_arith)
                    requires 4 * i <= n < 4 * (i + 1);
            }
        }
    }
    let out = FrameBuffer { width: prev.width, height: prev.height, pixels };
    proof {
        assert(out@.pixels =~= delta_bytes(prev@, curr@, low_threshold, high_threshold));
    }
    out
}

/// Exec counterpart of `delta_channel`.
fn delta_channel_exec(c1: u8, c2: u8, low: u8, high: u8) -> (r: u8)
    ensures
        r == delta_channel(c1, c2, low, high),
{
    let d = if c1 >= c2 {
        c1 - c2
    } else {
        c2 - c1
    };
    if d > high || d < low {
        0
    } else {
        d
    }
}

/// Delta identity: the delta of any fully opaque frame with itself is the
/// opaque black frame, whatever the thresholds — every channel difference
/// is 0 and is discarded, while alpha stays opaque.
pub proof fn lemma_delta_identity(f: FrameView, low: u8, high: u8)
    requires
        frame_wf(f),
        forall|i: int| 0 <= i < f.width * f.height ==> #[trigger] f.pixels[4 * i + 3] == 255,
    ensures
        delta_bytes(f, f, low, high) == blank_bytes(f.width, f.height),
{
    assert forall|n: int| 0 <= n < f.width * f.height * 4 implies delta_byte(f, f, low, high, n)
        == (if n % 4 == 3 { 255u8 } else { 0u8 }) by {
        assert(0 <= n / 4 < f.width * f.height && 0 <= n % 4 < 4) by (nonlinear_arith)
            requires 0 <= n < f.width * f.height * 4;
        assert(f.pixels[4 * (n / 4) + 3] == 255);
    }
    assert(delta_bytes(f, f, low, high) =~= blank_bytes(f.width, f.height));
}

/// Delta transparency on mismatched alpha: where one frame is fully opaque
/// at a pixel and the other fully transparent, the delta pixel is exactly
/// transparent black.
pub proof fn lemma_delta_alpha_mismatch(f1: FrameView, f2: FrameView, low: u8, high: u8, i: int)
    requires
        frame_wf(f1),
        frame_wf(f2),
        f1.width == f2.width,
        f1.height == f2.height,
        0 <= i < f1.width * f1.height,
        f1.pixels[4 * i + 3] == 255,
        f2.pixels[4 * i + 3] == 0,
    ensures
        forall|c: int| 0 <= c < 4 ==> #[trigger] delta_bytes(f1, f2, low, high)[4 * i + c] == 0,
{
    assert forall|c: int| 0 <= c < 4 implies #[trigger] delta_bytes(f1, f2, low, high)[4 * i + c]
        == 0 by {
        assert(0 <= 4 * i + c < f1.width * f1.height * 4 && (4 * i + c) / 4 == i) by (nonlinear_arith)
            requires 0 <= i < f1.width * f1.height, 0 <= c < 4;
    }
}

/// Delta dimension fallback: frames of unequal width (or height) give the
/// opaque black frame of the first frame's size, not an error.
pub proof fn lemma_delta_dim_fallback(f1: FrameView, f2: FrameView, low: u8, high: u8)
    requires
        f1.width != f2.width || f1.height != f2.height,
    ensures
        delta_bytes(f1, f2, low, high) == blank_bytes(f1.width, f1.height),
{
}

} // verus!
