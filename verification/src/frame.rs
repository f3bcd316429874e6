//! Raster frames: an interleaved 8-bit RGBA byte buffer with its dimensions.

use crate::PixelError;
use vstd::prelude::*;

verus! {

/// One raster image. Bytes are row-major, four per pixel, in the order
/// R, G, B, A. Alpha acts as a binary opacity flag: 255 marks a pixel as
/// present, 0 as absent; other values are tolerated on input.
#[derive(Debug)]
pub struct FrameBuffer {
    pub width: u32,
    pub height: u32,
    pub pixels: Vec<u8>,
}

/// Mathematical image of a `FrameBuffer`: its dimensions and byte sequence.
#[verifier::ext_equal]
pub ghost struct FrameView {
    pub width: int,
    pub height: int,
    pub pixels: Seq<u8>,
}

impl View for FrameBuffer {
    type V = FrameView;

    open spec fn view(&self) -> FrameView {
        FrameView { width: self.width as int, height: self.height as int, pixels: self.pixels@ }
    }
}

/// Dimensional invariant: exactly four bytes per pixel.
pub open spec fn frame_wf(f: FrameView) -> bool {
    0 <= f.width && 0 <= f.height && f.pixels.len() == f.width * f.height * 4
}

/// The bytes of an opaque black frame: RGB zero, alpha 255, everywhere.
pub open spec fn blank_bytes(width: int, height: int) -> Seq<u8> {
    Seq::new((width * height * 4) as nat, |n: int| if n % 4 == 3 { 255u8 } else { 0u8 })
}

/// Decomposes a pixel index `i` of a raster of `w * h` pixels into its
/// row-major coordinates `i % w` and `i / w`.
pub proof fn lemma_pixel_coords(i: int, w: int, h: int)
    requires
        0 <= w,
        0 <= h,
        0 <= i < w * h,
    ensures
        w > 0,
        0 <= i % w < w,
        0 <= i / w < h,
        (i / w) * w + (i % w) == i,
{
    assert(w > 0) by (nonlinear_arith)
        requires
            0 <= w,
            0 <= i < w * h,
    ;
    vstd::arithmetic::div_mod::lemma_fundamental_div_mod(i, w);
    vstd::arithmetic::div_mod::lemma_mod_pos_bound(i, w);
    assert(0 <= i / w < h) by (nonlinear_arith)
        requires
            0 <= i < w * h,
            i == w * (i / w) + (i % w),
            0 <= i % w < w,
    ;
    assert((i / w) * w + (i % w) == i) by (nonlinear_arith)
        requires
            i == w * (i / w) + (i % w),
    ;
}

/// Decomposes a byte index `n` of a raster of `w * h` pixels into its
/// pixel index `n / 4`, channel `n % 4`, and pixel coordinates.
pub proof fn lemma_raster_index(n: int, w: int, h: int)
    requires
        0 <= w,
        0 <= h,
        0 <= n < w * h * 4,
    ensures
        w > 0,
        0 <= n % 4 < 4,
        n == 4 * (n / 4) + (n % 4),
        0 <= n / 4 < w * h,
        0 <= (n / 4) % w < w,
        0 <= (n / 4) / w < h,
        ((n / 4) / w) * w + ((n / 4) % w) == n / 4,
{
    vstd::arithmetic::div_mod::lemma_fundamental_div_mod(n, 4);
    vstd::arithmetic::div_mod::lemma_mod_pos_bound(n, 4);
    let i = n / 4;
    assert(0 <= i < w * h) by (nonlinear_arith)
        requires
            0 <= w,
            0 <= h,
            0 <= n < w * h * 4,
            n == 4 * i + (n % 4),
            0 <= n % 4 < 4,
    ;
    lemma_pixel_coords(i, w, h);
}

impl FrameBuffer {
    /// Builds a frame from a raw interleaved RGBA byte buffer, rejecting any
    /// buffer whose length does not match the dimensions.
    pub fn from_raw(bytes: Vec<u8>, width: u32, height: u32) -> (r: Result<FrameBuffer, PixelError>)
        ensures
            r is Ok <==> bytes@.len() == width * height * 4,
            r matches Ok(f) ==> f@ == (FrameView {
                width: width as int,
                height: height as int,
                pixels: bytes@,
            }) && frame_wf(f@),
            r matches Err(e) ==> e == PixelError::InvalidLength,
    {
        proof {
            assert((width as int) * (height as int) * 4 < u128::MAX) by (nonlinear_arith);
        }
        let expected: u128 = (width as u128) * (height as u128) * 4;
        if (bytes.len() as u128) == expected {
            Ok(FrameBuffer { width, height, pixels: bytes })
        } else {
            Err(PixelError::InvalidLength)
        }
    }

    /// The canonical initial frame: opaque black at the given size.
    pub fn blank(width: u32, height: u32) -> (f: FrameBuffer)
        requires
            width * height * 4 <= usize::MAX,
        ensures
            f@ == (FrameView {
                width: width as int,
                height: height as int,
                pixels: blank_bytes(width as int, height as int),
            }),
            frame_wf(f@),
    {
        let count: usize = (width as usize) * (height as usize);
        let mut pixels: Vec<u8> = Vec::new();
        for i in 0..count
            invariant
                count == width * height,
                4 * count <= usize::MAX,
                pixels@.len() == 4 * i,
                forall|n: int| 0 <= n < 4 * i ==> pixels@[n] == (if n % 4 == 3 { 255u8 } else { 0u8 }),
        {
            pixels.push(0);
            pixels.push(0);
            pixels.push(0);
            pixels.push(255);
        }
        let f = FrameBuffer { width, height, pixels };
        proof {
            assert(f@.pixels =~= blank_bytes(width as int, height as int));
        }
        f
    }
}

} // verus!
