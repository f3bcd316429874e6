//! Hue–saturation–value color space: bidirectional conversion with RGBA,
//! plus the HSV-domain analogues of the temporal delta and the spatial
//! convolution.
//!
//! Components are unit-interval values held in fixed point: the value 1.0
//! is `HSV_UNIT`, and a component `c` stands for the real `c / HSV_UNIT`.
//! The scale is fine enough that converting a pixel to HSVA and back
//! reproduces the original bytes.

use crate::convolve::in_border;
use crate::convolve::kernel_wf;
use crate::convolve::radius;
use crate::convolve::Kernel;
use crate::convolve::KernelView;
use crate::convolve::lemma_px_index;
use crate::frame::frame_wf;
use crate::frame::FrameBuffer;
use crate::frame::FrameView;
use vstd::arithmetic::div_mod::lemma_fundamental_div_mod;
use vstd::arithmetic::div_mod::lemma_fundamental_div_mod_converse;
use vstd::arithmetic::div_mod::lemma_mod_pos_bound;
use vstd::prelude::*;

verus! {

/// Fixed-point representation of 1.0; components live in `[0, HSV_UNIT]`.
pub const HSV_UNIT: u32 = 1048576;

/// One pixel in hue/saturation/value/alpha form, each component a
/// fixed-point fraction of `HSV_UNIT`.
#[derive(Clone, Copy, Debug, PartialEq, Eq, Structural)]
pub struct Hsva {
    pub h: u32,
    pub s: u32,
    pub v: u32,
    pub a: u32,
}

/// Component invariant: every channel lies in the unit interval.
pub open spec fn hsva_wf(p: Hsva) -> bool {
    p.h <= HSV_UNIT && p.s <= HSV_UNIT && p.v <= HSV_UNIT && p.a <= HSV_UNIT
}

/// One raster image in HSVA form: one `Hsva` value per pixel, row-major.
#[derive(Debug)]
pub struct HsvaFrame {
    pub width: u32,
    pub height: u32,
    pub pixels: Vec<Hsva>,
}

/// Mathematical image of an `HsvaFrame`.
#[verifier::ext_equal]
pub ghost struct HsvaFrameView {
    pub width: int,
    pub height: int,
    pub pixels: Seq<Hsva>,
}

impl View for HsvaFrame {
    type V = HsvaFrameView;

    open spec fn view(&self) -> HsvaFrameView {
        HsvaFrameView { width: self.width as int, height: self.height as int, pixels: self.pixels@ }
    }
}

/// Dimensional invariant (one entry per pixel) plus per-pixel ranges.
pub open spec fn hsva_frame_wf(f: HsvaFrameView) -> bool {
    &&& 0 <= f.width
    &&& 0 <= f.height
    &&& f.pixels.len() == f.width * f.height
    &&& forall|i: int| 0 <= i < f.pixels.len() ==> hsva_wf(#[trigger] f.pixels[i])
}

/// The HSVA image of one RGBA pixel: value is the largest normalized
/// channel, saturation the normalized spread over the value, and hue the
/// standard sextant formula keyed on which channel attains the maximum
/// (red first, then green, then blue).
pub open spec fn hsva_of_rgba(r: u8, g: u8, b: u8, a: u8) -> Hsva {
    let u = HSV_UNIT as int;
    let mx = if r >= g && r >= b {
        r as int
    } else if g >= b {
        g as int
    } else {
        b as int
    };
    let mn = if r <= g && r <= b {
        r as int
    } else if g <= b {
        g as int
    } else {
        b as int
    };
    let d = mx - mn;
    let v = mx * u / 255;
    let s = if mx == 0 {
        0int
    } else {
        d * u / mx
    };
    let h = if d == 0 {
        0int
    } else if mx == r as int {
        if g >= b {
            (g - b) * u / (6 * d)
        } else {
            (6 * d - (b - g)) * u / (6 * d)
        }
    } else if mx == g as int {
        (b - r + 2 * d) * u / (6 * d)
    } else {
        (r - g + 4 * d) * u / (6 * d)
    };
    Hsva { h: h as u32, s: s as u32, v: v as u32, a: (a * u / 255) as u32 }
}

/// A whole RGBA frame re-expressed in HSVA, pixel by pixel.
pub open spec fn hsva_frame_of_rgba(f: FrameView) -> HsvaFrameView {
    HsvaFrameView {
        width: f.width,
        height: f.height,
        pixels: Seq::new(
            (f.width * f.height) as nat,
            |i: int|
                hsva_of_rgba(
                    f.pixels[4 * i],
                    f.pixels[4 * i + 1],
                    f.pixels[4 * i + 2],
                    f.pixels[4 * i + 3],
                ),
        ),
    }
}

/// The (R, G, B) of one HSVA pixel, still in fixed point: the standard
/// inverse keyed on the sextant `floor(6h) mod 6`, selecting among the
/// value and the intermediate products `p`, `q`, `t`.
pub open spec fn rgb_of_hsva(p: Hsva) -> (int, int, int) {
    let u = HSV_UNIT as int;
    let v = p.v as int;
    let s = p.s as int;
    let j = (6 * p.h / u) % 6;
    let f = (6 * p.h) % u;
    let pp = v * (u - s) / u;
    let q = v * (u - f * s / u) / u;
    let t = v * (u - (u - f) * s / u) / u;
    if j == 0 {
        (v, t, pp)
    } else if j == 1 {
        (q, v, pp)
    } else if j == 2 {
        (pp, v, t)
    } else if j == 3 {
        (pp, q, v)
    } else if j == 4 {
        (t, pp, v)
    } else {
        (v, pp, q)
    }
}

/// A unit-interval fixed-point value scaled back to one 8-bit channel,
/// rounded to the nearest integer.
pub open spec fn denorm(x: int) -> u8 {
    ((x * 255 + (HSV_UNIT as int) / 2) / (HSV_UNIT as int)) as u8
}

/// The RGBA bytes of a whole HSVA frame.
pub open spec fn rgba_bytes_of_hsva(f: HsvaFrameView) -> Seq<u8> {
    Seq::new(
        (f.width * f.height * 4) as nat,
        |n: int|
            {
                let p = f.pixels[n / 4];
                let c = n % 4;
                if c == 0 {
                    denorm(rgb_of_hsva(p).0)
                } else if c == 1 {
                    denorm(rgb_of_hsva(p).1)
                } else if c == 2 {
                    denorm(rgb_of_hsva(p).2)
                } else {
                    denorm(p.a as int)
                }
            },
    )
}

/// Bounds a quotient: if `num < den * (cap + 1)` then `num / den <= cap`.
proof fn lemma_frac_le(num: int, den: int, cap: int)
    requires
        den > 0,
        0 <= num,
        0 <= cap,
        num < den * (cap + 1),
    ensures
        0 <= num / den <= cap,
{
    lemma_fundamental_div_mod(num, den);
    lemma_mod_pos_bound(num, den);
    assert(0 <= num / den <= cap) by (nonlinear_arith)
        requires
            den > 0,
            0 <= cap,
            num == den * (num / den) + (num % den),
            0 <= num % den < den,
            0 <= num,
            num < den * (cap + 1),
    ;
}

/// Converts one RGBA pixel to fixed-point HSVA.
fn hsva_from_rgba(r: u8, g: u8, b: u8, a: u8) -> (p: Hsva)
    ensures
        p == hsva_of_rgba(r, g, b, a),
        hsva_wf(p),
{
    let u: u64 = HSV_UNIT as u64;
    let mx: u8 = if r >= g && r >= b {
        r
    } else if g >= b {
        g
    } else {
        b
    };
    let mn: u8 = if r <= g && r <= b {
        r
    } else if g <= b {
        g
    } else {
        b
    };
    let d: u64 = (mx - mn) as u64;
    let v: u64 = (mx as u64) * u / 255;
    let s: u64 = if mx == 0 {
        0
    } else {
        d * u / (mx as u64)
    };
    let h: u64 = if d == 0 {
        0
    } else if mx == r {
        if g >= b {
            ((g - b) as u64) * u / (6 * d)
        } else {
            (6 * d - ((b - g) as u64)) * u / (6 * d)
        }
    } else if mx == g {
        ((b as u64) + 2 * d - (r as u64)) * u / (6 * d)
    } else {
        ((r as u64) + 4 * d - (g as u64)) * u / (6 * d)
    };
    let al: u64 = (a as u64) * u / 255;
    proof {
        let ui = HSV_UNIT as int;
        lemma_frac_le((mx as int) * ui, 255, ui);
        lemma_frac_le((a as int) * ui, 255, ui);
        if mx != 0 {
            lemma_frac_le((mx as int - mn as int) * ui, mx as int, ui);
        }
        if d != 0 {
            let di = mx as int - mn as int;
            if mx == r {
                if g >= b {
                    lemma_frac_le((g as int - b as int) * ui, 6 * di, ui);
                } else {
                    lemma_frac_le((6 * di - (b as int - g as int)) * ui, 6 * di, ui);
                }
            } else if mx == g {
                lemma_frac_le((b as int - r as int + 2 * di) * ui, 6 * di, ui);
            } else {
                lemma_frac_le((r as int - g as int + 4 * di) * ui, 6 * di, ui);
            }
        }
    }
    Hsva { h: h as u32, s: s as u32, v: v as u32, a: al as u32 }
}

/// Re-expresses a frame in HSVA, normalizing every channel to the unit
/// interval.
pub fn rgba_to_hsva(frame: &FrameBuffer) -> (out: HsvaFrame)
    requires
        frame_wf(frame@),
    ensures
        out@ == hsva_frame_of_rgba(frame@),
        hsva_frame_wf(out@),
{
    let len = frame.pixels.len();
    let count = len / 4;
    let mut pixels: Vec<Hsva> = Vec::new();
    for i in 0..count
        invariant
            frame_wf(frame@),
            len == frame@.pixels.len(),
            count == frame@.width * frame@.height,
            4 * count == len,
            pixels@.len() == i,
            forall|k: int|
                0 <= k < i ==> #[trigger] pixels@[k] == hsva_frame_of_rgba(frame@).pixels[k]
                    && hsva_wf(pixels@[k]),
    {
        let i4 = 4 * i;
        pixels.push(
            hsva_from_rgba(
                frame.pixels[i4],
                frame.pixels[i4 + 1],
                frame.pixels[i4 + 2],
                frame.pixels[i4 + 3],
            ),
        );
    }
    let out = HsvaFrame { width: frame.width, height: frame.height, pixels };
    proof {
        assert(out@.pixels =~= hsva_frame_of_rgba(frame@).pixels);
    }
    out
}

/// Scales a unit-interval fixed-point value back to one 8-bit channel.
fn denorm_exec(x: u64) -> (b: u8)
    requires
        x <= HSV_UNIT,
    ensures
        b == denorm(x as int),
{
    proof {
        let ui = HSV_UNIT as int;
        lemma_frac_le(x as int * 255 + ui / 2, ui, 255);
    }
    ((x * 255 + (HSV_UNIT as u64) / 2) / (HSV_UNIT as u64)) as u8
}

/// Converts one fixed-point HSVA pixel back to RGB bytes.
fn rgb_from_hsva(p: Hsva) -> (rgb: (u8, u8, u8))
    requires
        hsva_wf(p),
    ensures
        rgb.0 == denorm(rgb_of_hsva(p).0),
        rgb.1 == denorm(rgb_of_hsva(p).1),
        rgb.2 == denorm(rgb_of_hsva(p).2),
{
    let u: u64 = HSV_UNIT as u64;
    let h6: u64 = 6 * (p.h as u64);
    let j: u64 = (h6 / u) % 6;
    let f: u64 = h6 % u;
    let s: u64 = p.s as u64;
    let v: u64 = p.v as u64;
    proof {
        let ui = HSV_UNIT as int;
        lemma_mod_pos_bound(h6 as int, ui);
        let fi = h6 as int % ui;
        let si = p.s as int;
        let vi = p.v as int;
        assert(0 <= fi * si < ui * (si + 1) && 0 <= (ui - fi) * si < ui * (si + 1))
            by (nonlinear_arith)
            requires
                0 <= fi < ui,
                0 <= si,
        ;
        lemma_frac_le(fi * si, ui, si);
        lemma_frac_le((ui - fi) * si, ui, si);
        assert(0 <= vi * (ui - si) < ui * (ui + 1)) by (nonlinear_arith)
            requires
                0 < ui,
                0 <= vi <= ui,
                0 <= si <= ui,
        ;
        lemma_frac_le(vi * (ui - si), ui, ui);
        assert(0 <= vi * (ui - fi * si / ui) < ui * (ui + 1)) by (nonlinear_arith)
            requires
                0 < ui,
                0 <= vi <= ui,
                0 <= fi * si / ui <= ui,
        ;
        lemma_frac_le(vi * (ui - fi * si / ui), ui, ui);
        assert(0 <= vi * (ui - (ui - fi) * si / ui) < ui * (ui + 1)) by (nonlinear_arith)
            requires
                0 < ui,
                0 <= vi <= ui,
                0 <= (ui - fi) * si / ui <= ui,
        ;
        lemma_frac_le(vi * (ui - (ui - fi) * si / ui), ui, ui);
    }
    let fs: u64 = f * s / u;
    let gs: u64 = (u - f) * s / u;
    let pp: u64 = v * (u - s) / u;
    let q: u64 = v * (u - fs) / u;
    let t: u64 = v * (u - gs) / u;
    let (red, green, blue): (u64, u64, u64) = if j == 0 {
        (v, t, pp)
    } else if j == 1 {
        (q, v, pp)
    } else if j == 2 {
        (pp, v, t)
    } else if j == 3 {
        (pp, q, v)
    } else if j == 4 {
        (t, pp, v)
    } else {
        (v, pp, q)
    };
    (denorm_exec(red), denorm_exec(green), denorm_exec(blue))
}

/// Converts an HSVA frame back to interleaved RGBA bytes, rounding each
/// channel to the nearest 8-bit value.
pub fn hsva_to_rgba(frame: &HsvaFrame) -> (out: FrameBuffer)
    requires
        hsva_frame_wf(frame@),
        frame@.width * frame@.height * 4 <= usize::MAX,
    ensures
        out@ == (FrameView {
            width: frame@.width,
            height: frame@.height,
            pixels: rgba_bytes_of_hsva(frame@),
        }),
        frame_wf(out@),
{
    let count = frame.pixels.len();
    let mut bytes: Vec<u8> = Vec::new();
    for i in 0..count
        invariant
            hsva_frame_wf(frame@),
            count == frame@.pixels.len(),
            count == frame@.width * frame@.height,
            4 * count <= usize::MAX,
            bytes@.len() == 4 * i,
            forall|n: int|
                0 <= n < 4 * i ==> #[trigger] bytes@[n] == rgba_bytes_of_hsva(frame@)[n],
    {
        let px = frame.pixels[i];
        let (red, green, blue) = rgb_from_hsva(px);
        bytes.push(red);
        bytes.push(green);
        bytes.push(blue);
        bytes.push(denorm_exec(px.a as u64));
        proof {
            assert forall|n: int| 4 * i <= n < 4 * (i + 1) implies #[trigger] bytes@[n]
                == rgba_bytes_of_hsva(frame@)[n] by {
                lemma_fundamental_div_mod_converse(n, 4, i as int, n - 4 * i);
            }
        }
    }
    let out = FrameBuffer { width: frame.width, height: frame.height, pixels: bytes };
    proof {
        assert(out@.pixels =~= rgba_bytes_of_hsva(frame@));
    }
    out
}

/// The HSVA delta of two pixels: where both alphas are exactly 1.0 the
/// componentwise absolute difference with alpha 1.0, and the all-zero
/// pixel anywhere else. Unlike the RGBA delta there is no threshold
/// gating, and the absolute value is applied uniformly to h, s and v.
pub open spec fn hsv_delta_px(p1: Hsva, p2: Hsva) -> Hsva {
    if p1.a == HSV_UNIT && p2.a == HSV_UNIT {
        Hsva {
            h: absdiff(p1.h, p2.h),
            s: absdiff(p1.s, p2.s),
            v: absdiff(p1.v, p2.v),
            a: HSV_UNIT,
        }
    } else {
        Hsva { h: 0, s: 0, v: 0, a: 0 }
    }
}

/// Absolute difference of two fixed-point components.
pub open spec fn absdiff(x: u32, y: u32) -> u32 {
    if x >= y {
        (x - y) as u32
    } else {
        (y - x) as u32
    }
}

/// The HSVA delta of two RGBA frames: both are converted to HSVA and
/// differenced pixel by pixel. Frames of unequal dimensions give the
/// all-zero HSVA frame of the first frame's size.
pub open spec fn hsv_delta_view(f1: FrameView, f2: FrameView) -> HsvaFrameView {
    if f1.width == f2.width && f1.height == f2.height {
        HsvaFrameView {
            width: f1.width,
            height: f1.height,
            pixels: Seq::new(
                (f1.width * f1.height) as nat,
                |i: int|
                    hsv_delta_px(
                        hsva_frame_of_rgba(f1).pixels[i],
                        hsva_frame_of_rgba(f2).pixels[i],
                    ),
            ),
        }
    } else {
        HsvaFrameView {
            width: f1.width,
            height: f1.height,
            pixels: Seq::new(
                (f1.width * f1.height) as nat,
                |i: int| Hsva { h: 0, s: 0, v: 0, a: 0 },
            ),
        }
    }
}

/// Computes the HSV-domain delta of two frames.
pub fn hsv_delta(f1: &FrameBuffer, f2: &FrameBuffer) -> (out: HsvaFrame)
    requires
        frame_wf(f1@),
        frame_wf(f2@),
    ensures
        out@ == hsv_delta_view(f1@, f2@),
        hsva_frame_wf(out@),
{
    let len = f1.pixels.len();
    let count = len / 4;
    let mut pixels: Vec<Hsva> = Vec::new();
    if f1.width == f2.width && f1.height == f2.height {
        let h1 = rgba_to_hsva(f1);
        let h2 = rgba_to_hsva(f2);
        for i in 0..count
            invariant
                frame_wf(f1@),
                frame_wf(f2@),
                f1@.width == f2@.width,
                f1@.height == f2@.height,
                count == f1@.width * f1@.height,
                h1@ == hsva_frame_of_rgba(f1@),
                h2@ == hsva_frame_of_rgba(f2@),
                hsva_frame_wf(h1@),
                hsva_frame_wf(h2@),
                h1@.pixels.len() == count,
                h2@.pixels.len() == count,
                pixels@.len() == i,
                forall|k: int|
                    0 <= k < i ==> #[trigger] pixels@[k] == hsv_delta_view(f1@, f2@).pixels[k]
                        && hsva_wf(pixels@[k]),
        {
            let p1 = h1.pixels[i];
            let p2 = h2.pixels[i];
            if p1.a == HSV_UNIT && p2.a == HSV_UNIT {
                pixels.push(
                    Hsva {
                        h: absdiff_exec(p1.h, p2.h),
                        s: absdiff_exec(p1.s, p2.s),
                        v: absdiff_exec(p1.v, p2.v),
                        a: HSV_UNIT,
                    },
                );
            } else {
                pixels.push(Hsva { h: 0, s: 0, v: 0, a: 0 });
            }
        }
    } else {
        for i in 0..count
            invariant
                frame_wf(f1@),
                !(f1@.width == f2@.width && f1@.height == f2@.height),
                count == f1@.width * f1@.height,
                pixels@.len() == i,
                forall|k: int|
                    0 <= k < i ==> #[trigger] pixels@[k] == hsv_delta_view(f1@, f2@).pixels[k]
                        && hsva_wf(pixels@[k]),
        {
            pixels.push(Hsva { h: 0, s: 0, v: 0, a: 0 });
        }
    }
    let out = HsvaFrame { width: f1.width, height: f1.height, pixels };
    proof {
        assert(out@.pixels =~= hsv_delta_view(f1@, f2@).pixels);
    }
    out
}

/// Exec counterpart of `absdiff`.
fn absdiff_exec(x: u32, y: u32) -> (r: u32)
    ensures
        r == absdiff(x, y),
{
    if x >= y {
        x - y
    } else {
        y - x
    }
}

/// HSV delta masking: a pixel that is not fully opaque in the first frame
/// normalizes to an alpha below 1.0, so the HSV delta there is the
/// all-zero pixel, whatever its hue, saturation or value.
pub proof fn lemma_hsv_delta_mask(f1: FrameView, f2: FrameView, i: int)
    requires
        frame_wf(f1),
        frame_wf(f2),
        f1.width == f2.width,
        f1.height == f2.height,
        0 <= i < f1.width * f1.height,
        f1.pixels[4 * i + 3] != 255,
    ensures
        hsv_delta_view(f1, f2).pixels[i] == (Hsva { h: 0, s: 0, v: 0, a: 0 }),
{
    let a = f1.pixels[4 * i + 3];
    let ui = HSV_UNIT as int;
    lemma_frac_le((a as int) * ui, 255, ui - 1);
    assert(hsva_frame_of_rgba(f1).pixels[i].a < HSV_UNIT);
}

/// The weighted sum of the first `t` kernel entries against the HSVA
/// window centered on `(x, y)`, for component `c` (0 = h, 1 = s, 2 = v).
pub open spec fn hsv_conv_sum(
    f: HsvaFrameView,
    k: KernelView,
    x: int,
    y: int,
    c: int,
    t: int,
) -> int
    decreases t,
{
    if t <= 0 {
        0
    } else {
        hsv_conv_sum(f, k, x, y, c, t - 1) + k.weights[t - 1] * hsva_comp(
            f.pixels[(y - radius(k) + (t - 1) / k.side) * f.width + (x - radius(k) + (t - 1)
                % k.side)],
            c,
        )
    }
}

/// Component `c` of an HSVA pixel (0 = h, 1 = s, 2 = v).
pub open spec fn hsva_comp(p: Hsva, c: int) -> int {
    if c == 0 {
        p.h as int
    } else if c == 1 {
        p.s as int
    } else {
        p.v as int
    }
}

/// Absolute value of a component sum, saturate-clamped to the unit
/// interval — the same narrowing policy as the RGBA convolution, scaled
/// to fixed point.
pub open spec fn clamp_unit(s: int) -> u32 {
    let m = if s < 0 {
        -s
    } else {
        s
    };
    if m > HSV_UNIT as int {
        HSV_UNIT
    } else {
        m as u32
    }
}

/// Pixel `i` of the HSV convolution. Border pixels pass through unchanged
/// — zeroing hue or saturation at the border would manufacture color data
/// — and alpha is always copied from the source.
pub open spec fn hsv_conv_px(f: HsvaFrameView, k: KernelView, i: int) -> Hsva {
    let x = i % f.width;
    let y = i / f.width;
    if in_border(f.width, f.height, k, x, y) {
        f.pixels[i]
    } else {
        Hsva {
            h: clamp_unit(hsv_conv_sum(f, k, x, y, 0, k.side * k.side)),
            s: clamp_unit(hsv_conv_sum(f, k, x, y, 1, k.side * k.side)),
            v: clamp_unit(hsv_conv_sum(f, k, x, y, 2, k.side * k.side)),
            a: f.pixels[i].a,
        }
    }
}

/// The HSV convolution of a whole frame.
pub open spec fn hsv_conv_view(f: HsvaFrameView, k: KernelView) -> HsvaFrameView {
    HsvaFrameView {
        width: f.width,
        height: f.height,
        pixels: Seq::new((f.width * f.height) as nat, |i: int| hsv_conv_px(f, k, i)),
    }
}

/// Convolves the h, s and v planes of a frame with a kernel; alpha is
/// never convolved.
pub fn hsv_convolve(frame: &HsvaFrame, kernel: &Kernel) -> (out: HsvaFrame)
    requires
        hsva_frame_wf(frame@),
        kernel_wf(kernel@),
    ensures
        out@ == hsv_conv_view(frame@, kernel@),
        hsva_frame_wf(out@),
{
    let count = frame.pixels.len();
    let w = frame.width as usize;
    let h = frame.height as usize;
    let side = kernel.side;
    let nw = kernel.weights.len();
    let r = side / 2;
    let mut pixels: Vec<Hsva> = Vec::new();
    proof {
        assert(0 * w == 0) by (nonlinear_arith);
    }
    for y in 0..h
        invariant
            hsva_frame_wf(frame@),
            kernel_wf(kernel@),
            w == frame@.width,
            h == frame@.height,
            side == kernel@.side,
            nw == side * side,
            r == radius(kernel@),
            count == frame@.pixels.len(),
            count == w * h,
            pixels@.len() == y * w,
            forall|i: int|
                0 <= i < pixels@.len() ==> #[trigger] pixels@[i] == hsv_conv_px(
                    frame@,
                    kernel@,
                    i,
                ),
    {
        for x in 0..w
            invariant
                hsva_frame_wf(frame@),
                kernel_wf(kernel@),
                w == frame@.width,
                h == frame@.height,
                side == kernel@.side,
                nw == side * side,
                r == radius(kernel@),
                count == frame@.pixels.len(),
                count == w * h,
                y < h,
                pixels@.len() == y * w + x,
                forall|i: int|
                    0 <= i < pixels@.len() ==> #[trigger] pixels@[i] == hsv_conv_px(
                        frame@,
                        kernel@,
                        i,
                    ),
        {
            proof {
                lemma_px_index(x as int, y as int, w as int, h as int);
                assert(side == 2 * r + 1);
            }
            let i = y * w + x;
            let border = y < r || h - y <= r || x < r || w - x <= r;
            if border {
                pixels.push(frame.pixels[i]);
            } else {
                let ch = hsv_conv_channel(frame, kernel, x, y, 0);
                let cs = hsv_conv_channel(frame, kernel, x, y, 1);
                let cv = hsv_conv_channel(frame, kernel, x, y, 2);
                pixels.push(Hsva { h: ch, s: cs, v: cv, a: frame.pixels[i].a });
            }
        }
        proof {
            assert((y as int) * w + w == (y + 1) * w) by (nonlinear_arith);
        }
    }
    let out = HsvaFrame { width: frame.width, height: frame.height, pixels };
    proof {
        assert((h as int) * (w as int) == (w as int) * (h as int)) by (nonlinear_arith);
        assert(out@.pixels =~= hsv_conv_view(frame@, kernel@).pixels);
        assert forall|i: int| 0 <= i < out@.pixels.len() implies hsva_wf(
            #[trigger] out@.pixels[i],
        ) by {
            assert(out@.pixels[i] == hsv_conv_px(frame@, kernel@, i));
        }
    }
    out
}

/// The window sum for one component of one interior pixel, reduced to the
/// clamped magnitude that the output frame stores.
fn hsv_conv_channel(frame: &HsvaFrame, kernel: &Kernel, x: usize, y: usize, c: usize) -> (v: u32)
    requires
        hsva_frame_wf(frame@),
        kernel_wf(kernel@),
        c < 3,
        x < frame@.width,
        y < frame@.height,
        !in_border(frame@.width, frame@.height, kernel@, x as int, y as int),
    ensures
        v == clamp_unit(
            hsv_conv_sum(
                frame@,
                kernel@,
                x as int,
                y as int,
                c as int,
                kernel@.side * kernel@.side,
            ),
        ),
{
    let count = frame.pixels.len();
    let w = frame.width as usize;
    let h = frame.height as usize;
    let side = kernel.side;
    let nw = kernel.weights.len();
    let r = side / 2;
    let ghost per_term: int = (HSV_UNIT as int) * 0x8000_0000;
    let mut acc: i128 = 0;
    proof {
        assert(side == 2 * r + 1);
        assert(hsv_conv_sum(frame@, kernel@, x as int, y as int, c as int, 0) == 0);
        assert(0 * side == 0 && 0 * per_term == 0) by (nonlinear_arith);
    }
    for j in 0..side
        invariant
            hsva_frame_wf(frame@),
            kernel_wf(kernel@),
            w == frame@.width,
            h == frame@.height,
            side == kernel@.side,
            nw == side * side,
            r == radius(kernel@),
            count == frame@.pixels.len(),
            count == w * h,
            c < 3,
            r <= x < w,
            r <= y < h,
            x + r < w,
            y + r < h,
            per_term == (HSV_UNIT as int) * 0x8000_0000,
            acc == hsv_conv_sum(frame@, kernel@, x as int, y as int, c as int, j * side),
            -(j * side * per_term) <= acc <= j * side * per_term,
    {
        for kk in 0..side
            invariant
                hsva_frame_wf(frame@),
                kernel_wf(kernel@),
                w == frame@.width,
                h == frame@.height,
                side == kernel@.side,
                nw == side * side,
                r == radius(kernel@),
                count == frame@.pixels.len(),
                count == w * h,
                c < 3,
                r <= x < w,
                r <= y < h,
                x + r < w,
                y + r < h,
                j < side,
                side == 2 * r + 1,
                per_term == (HSV_UNIT as int) * 0x8000_0000,
                acc == hsv_conv_sum(frame@, kernel@, x as int, y as int, c as int, j * side + kk),
                -((j * side + kk) * per_term) <= acc <= (j * side + kk) * per_term,
        {
            let ghost t: int = (j * side + kk) as int;
            proof {
                assert(j * side + kk < nw && (j * side + kk) + 1 <= nw) by (nonlinear_arith)
                    requires
                        0 <= j < side,
                        0 <= kk < side,
                        nw == side * side,
                ;
                lemma_fundamental_div_mod_converse(t, side as int, j as int, kk as int);
            }
            let yy = y - r + j;
            let xx = x - r + kk;
            proof {
                lemma_px_index(xx as int, yy as int, w as int, h as int);
            }
            let idx = yy * w + xx;
            let widx = j * side + kk;
            let px = frame.pixels[idx];
            let comp: i128 = if c == 0 {
                px.h as i128
            } else if c == 1 {
                px.s as i128
            } else {
                px.v as i128
            };
            let wt = kernel.weights[widx] as i128;
            proof {
                assert(-per_term <= wt * comp <= per_term) by (nonlinear_arith)
                    requires
                        0 <= comp <= HSV_UNIT,
                        -0x8000_0000 <= wt <= 0x7fff_ffff,
                        per_term == (HSV_UNIT as int) * 0x8000_0000,
                ;
                assert((t + 1) * per_term <= nw * per_term && nw * per_term < i128::MAX && t
                    * per_term + per_term == (t + 1) * per_term) by (nonlinear_arith)
                    requires
                        0 <= t,
                        t + 1 <= nw,
                        nw <= usize::MAX,
                        per_term == (HSV_UNIT as int) * 0x8000_0000,
                ;
            }
            proof {
                assert(hsv_conv_sum(frame@, kernel@, x as int, y as int, c as int, t + 1)
                    == hsv_conv_sum(frame@, kernel@, x as int, y as int, c as int, t)
                    + kernel@.weights[t] * hsva_comp(frame@.pixels[idx as int], c as int)) by {
                    assert((y - radius(kernel@) + t / kernel@.side) * frame@.width + (x - radius(
                        kernel@,
                    ) + t % kernel@.side) == idx as int);
                }
            }
            acc = acc + wt * comp;
        }
        proof {
            assert(j * side + side == (j + 1) * side) by (nonlinear_arith);
        }
    }
    proof {
        assert(side * side * per_term < i128::MAX) by (nonlinear_arith)
            requires
                side * side == nw,
                nw <= usize::MAX,
                per_term == (HSV_UNIT as int) * 0x8000_0000,
        ;
    }
    let m = if acc < 0 {
        -acc
    } else {
        acc
    };
    if m > HSV_UNIT as i128 {
        HSV_UNIT
    } else {
        m as u32
    }
}

} // verus!
