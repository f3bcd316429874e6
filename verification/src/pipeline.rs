//! The stateful orchestrator: retains the previous and current frame plus
//! the active kernel, channel mask and delta thresholds, and composes the
//! delta engine with the convolution engine on each ingested frame.

use crate::convolve::conv_frame;
use crate::convolve::convolve;
use crate::convolve::kernel_wf;
use crate::convolve::ChannelMask;
use crate::convolve::Kernel;
use crate::delta::compute_delta;
use crate::delta::delta_frame;
use crate::frame::blank_bytes;
use crate::frame::frame_wf;
use crate::frame::FrameBuffer;
use crate::PixelError;
use vstd::prelude::*;

verus! {

/// The pixel pipeline. It owns exactly two retained frames — any frame not
/// yet ingested implicitly reads as opaque black — and the active
/// configuration; it is used by a single caller at a time.
pub struct Pipeline {
    pub previous: FrameBuffer,
    pub current: FrameBuffer,
    pub kernel: Kernel,
    pub mask: ChannelMask,
    pub width: u32,
    pub height: u32,
    pub low_threshold: u8,
    pub high_threshold: u8,
}

impl Pipeline {
    /// Structural invariant: both retained frames and the kernel are
    /// well formed.
    pub open spec fn wf(self) -> bool {
        frame_wf(self.previous@) && frame_wf(self.current@) && kernel_wf(self.kernel@)
    }

    /// Builds a pipeline whose two retained frames start as opaque black
    /// at the given size, with the default delta thresholds.
    pub fn new(width: u32, height: u32, kernel: Kernel, mask: ChannelMask) -> (p: Pipeline)
        requires
            width * height * 4 <= usize::MAX,
            kernel_wf(kernel@),
        ensures
            p.wf(),
            p.width == width,
            p.height == height,
            p.previous@.width == width && p.previous@.height == height,
            p.previous@.pixels == blank_bytes(width as int, height as int),
            p.current@.width == width && p.current@.height == height,
            p.current@.pixels == blank_bytes(width as int, height as int),
            p.kernel == kernel,
            p.mask == mask,
            p.low_threshold == 150,
            p.high_threshold == 250,
    {
        Pipeline {
            previous: FrameBuffer::blank(width, height),
            current: FrameBuffer::blank(width, height),
            kernel,
            mask,
            width,
            height,
            low_threshold: 150,
            high_threshold: 250,
        }
    }

    /// Ingests one frame: the retained current frame becomes the previous
    /// one, the new frame becomes current, and the returned output is the
    /// convolved delta of the new frame against the frame it replaced.
    /// The ingested frame itself is stored unchanged.
    pub fn ingest(&mut self, new_frame: FrameBuffer) -> (out: FrameBuffer)
        requires
            old(self).wf(),
            frame_wf(new_frame@),
        ensures
            final(self).wf(),
            final(self).current == new_frame,
            final(self).previous == old(self).current,
            final(self).kernel == old(self).kernel,
            final(self).mask == old(self).mask,
            final(self).width == old(self).width,
            final(self).height == old(self).height,
            final(self).low_threshold == old(self).low_threshold,
            final(self).high_threshold == old(self).high_threshold,
            out@ == conv_frame(
                delta_frame(
                    new_frame@,
                    old(self).current@,
                    old(self).low_threshold,
                    old(self).high_threshold,
                ),
                old(self).kernel@,
                old(self).mask,
            ),
            frame_wf(out@),
    {
        let delta = compute_delta(&new_frame, &self.current, self.low_threshold, self.high_threshold);
        let out = convolve(&delta, &self.kernel, self.mask);
        let mut rotated = new_frame;
        core::mem::swap(&mut self.current, &mut rotated);
        core::mem::swap(&mut self.previous, &mut rotated);
        out
    }

    /// Replaces the active kernel, validating the weight sequence first:
    /// a sequence whose length is not a perfect square with an odd side is
    /// rejected and the previously active kernel stays in place.
    pub fn set_kernel(&mut self, weights: Vec<i32>) -> (r: Result<(), PixelError>)
        requires
            old(self).wf(),
        ensures
            final(self).wf(),
            r is Ok <==> (exists|s: int| 0 <= s && #[trigger] (s * s) == weights@.len() && s % 2
                == 1),
            r is Ok ==> final(self).kernel@.weights == weights@,
            r is Err ==> final(self).kernel == old(self).kernel,
            r matches Err(e) ==> e == PixelError::InvalidKernel,
            final(self).previous == old(self).previous,
            final(self).current == old(self).current,
            final(self).mask == old(self).mask,
            final(self).width == old(self).width,
            final(self).height == old(self).height,
            final(self).low_threshold == old(self).low_threshold,
            final(self).high_threshold == old(self).high_threshold,
    {
        match Kernel::new(weights) {
            Ok(k) => {
                self.kernel = k;
                Ok(())
            },
            Err(e) => Err(e),
        }
    }

    /// Replaces the active channel mask; every mask value is legal.
    pub fn set_mask(&mut self, mask: ChannelMask)
        requires
            old(self).wf(),
        ensures
            final(self).wf(),
            final(self).mask == mask,
            final(self).previous == old(self).previous,
            final(self).current == old(self).current,
            final(self).kernel == old(self).kernel,
            final(self).width == old(self).width,
            final(self).height == old(self).height,
            final(self).low_threshold == old(self).low_threshold,
            final(self).high_threshold == old(self).high_threshold,
    {
        self.mask = mask;
    }

    /// Replaces the delta thresholds; differences outside `[low, high]`
    /// are discarded by subsequent ingests.
    pub fn set_thresholds(&mut self, low: u8, high: u8)
        requires
            old(self).wf(),
        ensures
            final(self).wf(),
            final(self).low_threshold == low,
            final(self).high_threshold == high,
            final(self).previous == old(self).previous,
            final(self).current == old(self).current,
            final(self).kernel == old(self).kernel,
            final(self).mask == old(self).mask,
            final(self).width == old(self).width,
            final(self).height == old(self).height,
    {
        self.low_threshold = low;
        self.high_threshold = high;
    }
}

} // verus!
