//! Spatial convolution: a sliding-window weighted sum over a square
//! neighborhood of each pixel, used for edge and feature enhancement.
//!
//! Channel sums whose magnitude exceeds the channel range are
//! saturate-clamped (here to 255, in the HSV analogue to the unit value);
//! this single narrowing policy is applied everywhere.

use crate::frame::frame_wf;
use crate::frame::FrameBuffer;
use crate::frame::FrameView;
use crate::PixelError;
use vstd::arithmetic::div_mod::lemma_fundamental_div_mod_converse;
use vstd::prelude::*;

verus! {

/// A square convolution kernel: `side * side` signed weights, row-major,
/// with an odd side so that the window centers on a pixel.
#[derive(Debug)]
pub struct Kernel {
    pub weights: Vec<i32>,
    pub side: usize,
}

/// Mathematical image of a `Kernel`.
#[verifier::ext_equal]
pub ghost struct KernelView {
    pub weights: Seq<i32>,
    pub side: int,
}

impl View for Kernel {
    type V = KernelView;

    open spec fn view(&self) -> KernelView {
        KernelView { weights: self.weights@, side: self.side as int }
    }
}

/// Kernel invariant: a perfect square of weights with an odd side.
pub open spec fn kernel_wf(k: KernelView) -> bool {
    k.side % 2 == 1 && k.side * k.side == k.weights.len()
}

/// Half-width of the kernel window.
pub open spec fn radius(k: KernelView) -> int {
    (k.side - 1) / 2
}

/// A pixel is a border pixel when its window would reach past an edge.
pub open spec fn in_border(width: int, height: int, k: KernelView, x: int, y: int) -> bool {
    x < radius(k) || x + radius(k) >= width || y < radius(k) || y + radius(k) >= height
}

/// Selects which of R, G, B survive a convolution. Alpha is never masked:
/// it is always propagated from the source frame.
#[derive(Clone, Copy, Debug, PartialEq, Eq, Structural)]
pub struct ChannelMask {
    pub red: bool,
    pub green: bool,
    pub blue: bool,
}

impl ChannelMask {
    /// Reads the mask from the low three bits of a word: bit 0 is red,
    /// bit 1 green, bit 2 blue.
    pub fn from_bits(bits: u32) -> (m: ChannelMask)
        ensures
            m.red == (bits & 1 == 1),
            m.green == (bits >> 1 & 1 == 1),
            m.blue == (bits >> 2 & 1 == 1),
    {
        ChannelMask { red: bits & 1 == 1, green: bits >> 1 & 1 == 1, blue: bits >> 2 & 1 == 1 }
    }
}

/// Whether channel `c` (0 = red, 1 = green, 2 = blue) passes the mask.
pub open spec fn mask_on(m: ChannelMask, c: int) -> bool {
    if c == 0 {
        m.red
    } else if c == 1 {
        m.green
    } else {
        m.blue
    }
}

/// The weighted sum of the first `t` kernel entries (row-major) against the
/// window centered on `(x, y)`, for channel `c`.
pub open spec fn conv_sum(f: FrameView, k: KernelView, x: int, y: int, c: int, t: int) -> int
    decreases t,
{
    if t <= 0 {
        0
    } else {
        conv_sum(f, k, x, y, c, t - 1) + k.weights[t - 1] * (f.pixels[4 * ((y - radius(k) + (t - 1)
            / k.side) * f.width + (x - radius(k) + (t - 1) % k.side)) + c] as int)
    }
}

/// Absolute value of a channel sum, saturate-clamped to the 8-bit range.
pub open spec fn clamp_mag(s: int) -> u8 {
    let m = if s < 0 {
        -s
    } else {
        s
    };
    if m > 255 {
        255u8
    } else {
        m as u8
    }
}

/// Byte `n` of the convolved frame. Border pixels get zero RGB with the
/// source alpha; interior pixels get the clamped magnitude of the window
/// sum on each unmasked channel; alpha is always copied from the source.
pub open spec fn conv_byte(f: FrameView, k: KernelView, m: ChannelMask, n: int) -> u8 {
    let i = n / 4;
    let c = n % 4;
    let x = i % f.width;
    let y = i / f.width;
    if c == 3 {
        f.pixels[n]
    } else if in_border(f.width, f.height, k, x, y) {
        0u8
    } else if !mask_on(m, c) {
        0u8
    } else {
        clamp_mag(conv_sum(f, k, x, y, c, k.side * k.side))
    }
}

/// The convolved frame's full byte sequence.
pub open spec fn conv_bytes(f: FrameView, k: KernelView, m: ChannelMask) -> Seq<u8> {
    Seq::new((f.width * f.height * 4) as nat, |n: int| conv_byte(f, k, m, n))
}

/// The convolution as a whole frame, at the source frame's dimensions.
pub open spec fn conv_frame(f: FrameView, k: KernelView, m: ChannelMask) -> FrameView {
    FrameView { width: f.width, height: f.height, pixels: conv_bytes(f, k, m) }
}

impl Kernel {
    /// Validates a weight sequence as a kernel: its length must be a
    /// perfect square with an odd side. Rejected sequences are never
    /// silently truncated.
    pub fn new(weights: Vec<i32>) -> (r: Result<Kernel, PixelError>)
        ensures
            r is Ok <==> (exists|s: int| 0 <= s && #[trigger] (s * s) == weights@.len() && s % 2
                == 1),
            r matches Ok(k) ==> k@.weights == weights@ && kernel_wf(k@),
            r matches Err(e) ==> e == PixelError::InvalidKernel,
    {
        let n = weights.len();
        let mut s: usize = 0;
        loop
            invariant
                s * s <= n,
            ensures
                s * s <= n < (s + 1) * (s + 1),
            decreases n - s,
        {
            proof {
                assert(s + 1 <= usize::MAX) by (nonlinear_arith)
                    requires
                        s * s <= n,
                        n <= usize::MAX,
                ;
            }
            let t = s + 1;
            match t.checked_mul(t) {
                Some(sq) => {
                    if sq <= n {
                        proof {
                            assert(t <= n) by (nonlinear_arith)
                                requires
                                    1 <= t,
                                    t * t <= n,
                            ;
                        }
                        s = t;
                    } else {
                        break ;
                    }
                },
                None => {
                    break ;
                },
            }
        }
        if s % 2 == 1 && s * s == n {
            Ok(Kernel { weights, side: s })
        } else {
            proof {
                assert forall|t: int|
                    0 <= t && #[trigger] (t * t) == weights@.len() && t % 2 == 1 implies false by {
                    lemma_isqrt_unique(n as int, s as int, t);
                }
            }
            Err(PixelError::InvalidKernel)
        }
    }
}

/// An integer square root is unique: only one `t` can satisfy `t * t == n`
/// once `n` is bracketed between consecutive squares.
proof fn lemma_isqrt_unique(n: int, s: int, t: int)
    by (nonlinear_arith)
    requires
        0 <= s,
        0 <= t,
        s * s <= n,
        n < (s + 1) * (s + 1),
        t * t == n,
    ensures
        t == s,
{
}

/// Row-major pixel indices stay inside the raster.
pub(crate) proof fn lemma_px_index(x: int, y: int, w: int, h: int)
    by (nonlinear_arith)
    requires
        0 <= x < w,
        0 <= y < h,
    ensures
        0 <= y * w + x < w * h,
        (y * w + x) % w == x,
        (y * w + x) / w == y,
{
    lemma_fundamental_div_mod_converse(y * w + x, w, y, x);
}

/// Convolves a frame with a kernel under a channel mask.
pub fn convolve(frame: &FrameBuffer, kernel: &Kernel, mask: ChannelMask) -> (out: FrameBuffer)
    requires
        frame_wf(frame@),
        kernel_wf(kernel@),
    ensures
        out@ == conv_frame(frame@, kernel@, mask),
        frame_wf(out@),
{
    let len = frame.pixels.len();
    let w = frame.width as usize;
    let h = frame.height as usize;
    let side = kernel.side;
    let nw = kernel.weights.len();
    let r = side / 2;
    let mut pixels: Vec<u8> = Vec::new();
    proof {
        assert(0 * w == 0) by (nonlinear_arith);
    }
    for y in 0..h
        invariant
            frame_wf(frame@),
            kernel_wf(kernel@),
            w == frame@.width,
            h == frame@.height,
            side == kernel@.side,
            nw == side * side,
            r == radius(kernel@),
            len == frame@.pixels.len(),
            w * h * 4 == len,
            pixels@.len() == 4 * (y * w),
            forall|n: int|
                0 <= n < pixels@.len() ==> pixels@[n] == conv_byte(frame@, kernel@, mask, n),
    {
        for x in 0..w
            invariant
                frame_wf(frame@),
                kernel_wf(kernel@),
                w == frame@.width,
                h == frame@.height,
                side == kernel@.side,
                nw == side * side,
                r == radius(kernel@),
                len == frame@.pixels.len(),
                w * h * 4 == len,
                y < h,
                pixels@.len() == 4 * (y * w + x),
                forall|n: int|
                    0 <= n < pixels@.len() ==> pixels@[n] == conv_byte(frame@, kernel@, mask, n),
        {
            proof {
                lemma_px_index(x as int, y as int, w as int, h as int);
                assert(side == 2 * r + 1);
                assert(x + r <= usize::MAX) by (nonlinear_arith)
                    requires
                        0 <= x < w,
                        0 <= y < h,
                        w * h * 4 <= usize::MAX,
                        0 <= 2 * r < side <= usize::MAX,
                ;
            }
            let i4 = 4 * (y * w + x);
            let border = x < r || x + r >= w || y < r || y + r >= h;
            if border {
                pixels.push(0);
                pixels.push(0);
                pixels.push(0);
                pixels.push(frame.pixels[i4 + 3]);
            } else {
                let pr = conv_channel(frame, kernel, x, y, 0);
                let pg = conv_channel(frame, kernel, x, y, 1);
                let pb = conv_channel(frame, kernel, x, y, 2);
                pixels.push(if mask.red { pr } else { 0 });
                pixels.push(if mask.green { pg } else { 0 });
                pixels.push(if mask.blue { pb } else { 0 });
                pixels.push(frame.pixels[i4 + 3]);
            }
            proof {
                let i = (y * w + x) as int;
                assert forall|n: int| 4 * i <= n < 4 * (i + 1) implies pixels@[n] == conv_byte(
                    frame@,
                    kernel@,
                    mask,
                    n,
                ) by {
                    lemma_fundamental_div_mod_converse(n, 4, i, n - 4 * i);
                    lemma_px_index(x as int, y as int, w as int, h as int);
                }
            }
        }
        proof {
            assert(4 * ((y as int) * w + w) == 4 * ((y + 1) * w)) by (nonlinear_arith);
        }
    }
    let out = FrameBuffer { width: frame.width, height: frame.height, pixels };
    proof {
        assert(4 * ((h as int) * (w as int)) == (w as int) * (h as int) * 4) by (nonlinear_arith);
        assert(out@.pixels =~= conv_bytes(frame@, kernel@, mask));
    }
    out
}

/// The window sum for one channel of one interior pixel, reduced to the
/// clamped magnitude that the output frame stores.
fn conv_channel(frame: &FrameBuffer, kernel: &Kernel, x: usize, y: usize, c: usize) -> (v: u8)
    requires
        frame_wf(frame@),
        kernel_wf(kernel@),
        c < 3,
        x < frame@.width,
        y < frame@.height,
        !in_border(frame@.width, frame@.height, kernel@, x as int, y as int),
    ensures
        v == clamp_mag(
            conv_sum(frame@, kernel@, x as int, y as int, c as int, kernel@.side * kernel@.side),
        ),
{
    let w = frame.width as usize;
    let h = frame.height as usize;
    let len = frame.pixels.len();
    let side = kernel.side;
    let nw = kernel.weights.len();
    let r = side / 2;
    let ghost per_term: int = 255int * 0x8000_0000;
    let mut acc: i128 = 0;
    proof {
        assert(side == 2 * r + 1);
        assert(conv_sum(frame@, kernel@, x as int, y as int, c as int, 0) == 0);
        assert(0 * side == 0 && 0 * per_term == 0) by (nonlinear_arith);
    }
    for j in 0..side
        invariant
            frame_wf(frame@),
            kernel_wf(kernel@),
            w == frame@.width,
            h == frame@.height,
            side == kernel@.side,
            nw == side * side,
            r == radius(kernel@),
            len == frame@.pixels.len(),
            w * h * 4 == len,
            c < 3,
            r <= x < w,
            r <= y < h,
            x + r < w,
            y + r < h,
            per_term == 255 * 0x8000_0000,
            acc == conv_sum(frame@, kernel@, x as int, y as int, c as int, j * side),
            -(j * side * per_term) <= acc <= j * side * per_term,
    {
        for kk in 0..side
            invariant
                frame_wf(frame@),
                kernel_wf(kernel@),
                w == frame@.width,
                h == frame@.height,
                side == kernel@.side,
                nw == side * side,
                r == radius(kernel@),
                len == frame@.pixels.len(),
                w * h * 4 == len,
                c < 3,
                r <= x < w,
                r <= y < h,
                x + r < w,
                y + r < h,
                j < side,
                per_term == 255 * 0x8000_0000,
                acc == conv_sum(frame@, kernel@, x as int, y as int, c as int, j * side + kk),
                -((j * side + kk) * per_term) <= acc <= (j * side + kk) * per_term,
        {
            let ghost t: int = (j * side + kk) as int;
            proof {
                assert(j * side + kk < nw && (j * side + kk) + 1 <= nw) by (nonlinear_arith)
                    requires
                        0 <= j < side,
                        0 <= kk < side,
                        nw == side * side,
                ;
                lemma_fundamental_div_mod_converse(t, side as int, j as int, kk as int);
            }
            let yy = y - r + j;
            let xx = x - r + kk;
            proof {
                lemma_px_index(xx as int, yy as int, w as int, h as int);
            }
            let idx = 4 * (yy * w + xx) + c;
            let widx = j * side + kk;
            let pix = frame.pixels[idx] as i128;
            let wt = kernel.weights[widx] as i128;
            proof {
                assert(-per_term <= pix * wt <= per_term) by (nonlinear_arith)
                    requires
                        0 <= pix <= 255,
                        -0x8000_0000 <= wt <= 0x7fff_ffff,
                        per_term == 255 * 0x8000_0000,
                ;
                assert((t + 1) * per_term <= nw * per_term && nw * per_term < i128::MAX
                    && t * per_term + per_term == (t + 1) * per_term) by (nonlinear_arith)
                    requires
                        0 <= t,
                        t + 1 <= nw,
                        nw <= usize::MAX,
                        per_term == 255 * 0x8000_0000,
                ;
            }
            acc = acc + pix * wt;
        }
        proof {
            assert(j * side + side == (j + 1) * side) by (nonlinear_arith);
        }
    }
    let m = if acc < 0 {
        -acc
    } else {
        acc
    };
    if m > 255 {
        255
    } else {
        m as u8
    }
}

/// Convolution border policy: with any kernel, every pixel whose window
/// would reach past an edge gets zero RGB and keeps the source alpha.
pub proof fn lemma_convolve_border(
    f: FrameView,
    k: KernelView,
    m: ChannelMask,
    x: int,
    y: int,
    c: int,
)
    requires
        frame_wf(f),
        kernel_wf(k),
        0 <= x < f.width,
        0 <= y < f.height,
        0 <= c < 4,
        in_border(f.width, f.height, k, x, y),
    ensures
        c < 3 ==> conv_bytes(f, k, m)[4 * (y * f.width + x) + c] == 0,
        c == 3 ==> conv_bytes(f, k, m)[4 * (y * f.width + x) + c] == f.pixels[4 * (y * f.width + x)
            + 3],
{
    lemma_px_index(x, y, f.width, f.height);
    let i = y * f.width + x;
    assert(0 <= 4 * i + c < f.width * f.height * 4);
    lemma_fundamental_div_mod_converse(4 * i + c, 4, i, c);
}

/// Convolution identity: the one-element kernel `[1]` under a full channel
/// mask reproduces the source frame exactly — every pixel is interior, the
/// window sum is the pixel's own channel value, and clamping leaves it
/// unchanged.
pub proof fn lemma_convolve_identity(f: FrameView, k: KernelView, m: ChannelMask)
    requires
        frame_wf(f),
        k.side == 1,
        k.weights.len() == 1,
        k.weights[0] == 1,
        m.red && m.green && m.blue,
    ensures
        conv_bytes(f, k, m) == f.pixels,
{
    assert forall|n: int| 0 <= n < f.width * f.height * 4 implies conv_bytes(f, k, m)[n]
        == f.pixels[n] by {
        crate::frame::lemma_raster_index(n, f.width, f.height);
        let i = n / 4;
        let c = n % 4;
        let x = i % f.width;
        let y = i / f.width;
        assert(radius(k) == 0);
        assert(!in_border(f.width, f.height, k, x, y));
        if c < 3 {
            assert(conv_sum(f, k, x, y, c, 0) == 0);
            assert(conv_sum(f, k, x, y, c, 1) == 1 * (f.pixels[4 * (y * f.width + x) + c] as int));
            assert(conv_byte(f, k, m, n) == clamp_mag(f.pixels[n] as int));
        }
    }
    assert(conv_bytes(f, k, m) =~= f.pixels);
}

} // verus!
