//! The color round-trip law: converting an RGBA pixel to fixed-point HSVA
//! and back reproduces the original bytes.
//!
//! The fixed-point scale is fine enough that every truncation error stays
//! a few thousand parts of `HSV_UNIT`, while the final rounding back to
//! 8 bits tolerates errors up to half of `HSV_UNIT / 255`; the round trip
//! is therefore exact, well within the one-unit tolerance it is asked for.

use crate::colorspace::denorm;
use crate::colorspace::hsva_frame_of_rgba;
use crate::colorspace::hsva_of_rgba;
use crate::colorspace::rgb_of_hsva;
use crate::colorspace::rgba_bytes_of_hsva;
use crate::colorspace::HSV_UNIT;
use crate::frame::frame_wf;
use crate::frame::lemma_raster_index;
use crate::frame::FrameView;
use vstd::arithmetic::div_mod::lemma_fundamental_div_mod;
use vstd::arithmetic::div_mod::lemma_fundamental_div_mod_converse;
use vstd::arithmetic::div_mod::lemma_mod_pos_bound;
use vstd::prelude::*;

verus! {

/// Bounds a quotient: if `num < den * (cap + 1)` then `num / den <= cap`.
proof fn lemma_quot_le(num: int, den: int, cap: int)
    requires
        den > 0,
        0 <= num,
        0 <= cap,
        num < den * (cap + 1),
    ensures
        0 <= num / den <= cap,
{
    lemma_fundamental_div_mod(num, den);
    lemma_mod_pos_bound(num, den);
    assert(0 <= num / den <= cap) by (nonlinear_arith)
        requires
            den > 0,
            0 <= cap,
            num == den * (num / den) + (num % den),
            0 <= num % den < den,
            0 <= num,
            num < den * (cap + 1),
    ;
}

/// A channel scaled into fixed point and rounded back is itself: the
/// truncation error of `c * HSV_UNIT / 255` is under 255, far below the
/// half-unit that the rounding tolerates.
proof fn lemma_norm_denorm(c: u8)
    ensures
        denorm((c as int) * (HSV_UNIT as int) / 255) == c,
{
    let u = HSV_UNIT as int;
    let x = (c as int) * u / 255;
    lemma_fundamental_div_mod((c as int) * u, 255);
    lemma_mod_pos_bound((c as int) * u, 255);
    // 255 * x lies in (c*u - 255, c*u], so x*255 + u/2 stays in [c*u, (c+1)*u).
    lemma_fundamental_div_mod_converse(x * 255 + u / 2, u, c as int, x * 255 + u / 2 - (c as int)
        * u);
}

/// The workhorse: a channel reconstructed through the `q`-shaped product
/// `v * (u - f * s / u) / u` rounds back to `c` whenever the hue fraction
/// `f` encodes `(mx - c) / d` up to a few trailing parts.
proof fn lemma_denorm_q(mx: int, mn: int, c: int, f: int)
    requires
        1 <= mx <= 255,
        0 <= mn <= c <= mx,
        mn < mx,
        0 <= f <= HSV_UNIT,
        -8 * (mx - mn) <= (mx - mn) * f - (mx - c) * (HSV_UNIT as int),
        (mx - mn) * f - (mx - c) * (HSV_UNIT as int) <= 8 * (mx - mn),
    ensures
        denorm((mx * (HSV_UNIT as int) / 255) * ((HSV_UNIT as int) - f * ((mx - mn) * (HSV_UNIT
            as int) / mx) / (HSV_UNIT as int)) / (HSV_UNIT as int)) == c,
{
    let u = HSV_UNIT as int;
    let d = mx - mn;
    let dev = d * f - (mx - c) * u;
    let v = mx * u / 255;
    let s = d * u / mx;
    let inner = f * s / u;
    let q = v * (u - inner) / u;

    lemma_fundamental_div_mod(mx * u, 255);
    lemma_mod_pos_bound(mx * u, 255);
    let ev = (mx * u) % 255;

    lemma_fundamental_div_mod(d * u, mx);
    lemma_mod_pos_bound(d * u, mx);
    let es = (d * u) % mx;
    lemma_quot_le(d * u, mx, u);

    assert(0 <= f * s < u * (u + 1)) by (nonlinear_arith)
        requires
            0 <= f <= u,
            0 <= s <= u,
            u == 1048576,
    ;
    lemma_fundamental_div_mod(f * s, u);
    lemma_mod_pos_bound(f * s, u);
    let ei = (f * s) % u;
    lemma_quot_le(f * s, u, u);

    assert(0 <= v * (u - inner) < u * (u + 1)) by (nonlinear_arith)
        requires
            0 <= v <= u,
            0 <= inner <= u,
            u == 1048576,
    ;
    lemma_quot_le(mx * u, 255, u);
    lemma_fundamental_div_mod(v * (u - inner), u);
    lemma_mod_pos_bound(v * (u - inner), u);
    let eq = (v * (u - inner)) % u;

    // Clear the divisions one product at a time: each step is a small
    // ring fact, and the remainder bounds keep every error term under a
    // few thousand parts of the unit.
    let cuu = c * (u * u);
    let muu = mx * (u * u);
    assert(mx * (u * (u - inner)) == mx * (u * u) - mx * (u * inner)) by (nonlinear_arith);
    assert(mx * (u * inner) == mx * (f * s) - mx * ei) by (nonlinear_arith)
        requires
            u * inner == f * s - ei,
    ;
    assert(mx * (f * s) == f * (mx * s)) by (nonlinear_arith);
    assert(f * (mx * s) == f * (d * u) - f * es) by (nonlinear_arith)
        requires
            mx * s == d * u - es,
    ;
    assert(f * (d * u) == (mx - c) * (u * u) + dev * u) by (nonlinear_arith)
        requires
            d * f == (mx - c) * u + dev,
    ;
    assert(mx * (u * u) - (mx - c) * (u * u) == c * (u * u)) by (nonlinear_arith);
    let av = mx * (u * (u - inner));
    assert(av == cuu - dev * u + f * es + mx * ei);

    // Bound the error terms of `av` around `c * u * u`.
    assert(-8 * (d * u) <= dev * u <= 8 * (d * u)) by (nonlinear_arith)
        requires
            -8 * d <= dev <= 8 * d,
            0 < u,
    ;
    assert(d * u <= mx * u) by (nonlinear_arith)
        requires
            d <= mx,
            0 < u,
    ;
    assert(0 <= f * es <= u * mx) by (nonlinear_arith)
        requires
            0 <= f <= u,
            0 <= es <= mx,
    ;
    assert(0 <= mx * ei <= mx * u) by (nonlinear_arith)
        requires
            0 <= ei <= u,
            0 <= mx,
    ;
    assert(u * mx == mx * u) by (nonlinear_arith);
    assert(cuu - 10 * (mx * u) <= av <= cuu + 10 * (mx * u));

    // Multiply through by v and replace 255 * v by mx * u - ev.
    let bv = v * (u - inner);
    assert((mx * u) * bv == v * av) by (nonlinear_arith)
        requires
            bv == v * (u - inner),
            av == mx * (u * (u - inner)),
    ;
    assert(v * (cuu - 10 * (mx * u)) <= v * av <= v * (cuu + 10 * (mx * u))) by (nonlinear_arith)
        requires
            cuu - 10 * (mx * u) <= av <= cuu + 10 * (mx * u),
            0 <= v,
    ;
    assert(v * (cuu + 10 * (mx * u)) == v * cuu + 10 * (v * (mx * u))) by (nonlinear_arith);
    assert(v * (cuu - 10 * (mx * u)) == v * cuu - 10 * (v * (mx * u))) by (nonlinear_arith);
    assert(0 <= v * (mx * u) <= u * (mx * u)) by (nonlinear_arith)
        requires
            0 <= v <= u,
            0 <= mx,
            0 < u,
    ;
    assert(u * (mx * u) == muu) by (nonlinear_arith)
        requires
            muu == mx * (u * u),
    ;
    assert(v * cuu - 10 * muu <= (mx * u) * bv <= v * cuu + 10 * muu);
    assert(255 * (v * cuu) == cuu * (mx * u) - cuu * ev) by (nonlinear_arith)
        requires
            255 * v == mx * u - ev,
    ;
    assert(0 <= cuu * ev <= 255 * muu) by (nonlinear_arith)
        requires
            0 <= c <= mx,
            0 <= ev <= 255,
            0 < u,
            cuu == c * (u * u),
            muu == mx * (u * u),
    ;
    assert(cuu * (mx * u) - 255 * muu - 2550 * muu <= 255 * ((mx * u) * bv) <= cuu * (mx * u)
        + 2550 * muu);

    // Split `bv` into quotient and remainder and cancel the shared factor.
    assert(255 * ((mx * u) * bv) == 255 * ((mx * u) * (u * q)) + 255 * ((mx * u) * eq)) by (nonlinear_arith)
        requires
            bv == u * q + eq,
    ;
    assert((mx * u) * (u * q) == q * muu) by (nonlinear_arith)
        requires
            muu == mx * (u * u),
    ;
    assert(0 <= (mx * u) * eq <= muu) by (nonlinear_arith)
        requires
            0 <= eq <= u,
            0 <= mx,
            0 < u,
            muu == mx * (u * u),
    ;
    assert(cuu * (mx * u) == (c * u) * muu) by (nonlinear_arith)
        requires
            cuu == c * (u * u),
            muu == mx * (u * u),
    ;
    assert((c * u) * muu - 4000 * muu <= (255 * q) * muu <= (c * u) * muu + 4000 * muu) by (nonlinear_arith)
        requires
            (c * u) * muu - 3060 * muu <= 255 * (q * muu) <= (c * u) * muu + 3060 * muu,
    ;
    assert(c * u - 4000 <= 255 * q <= c * u + 4000) by (nonlinear_arith)
        requires
            (c * u) * muu - 4000 * muu <= (255 * q) * muu <= (c * u) * muu + 4000 * muu,
            0 < muu,
    ;
    lemma_fundamental_div_mod_converse(q * 255 + u / 2, u, c, q * 255 + u / 2 - c * u);
}

/// Brackets the sextant of a reconstructed hue: with `h = w*u/(6d)` the
/// sextant index `j6 = 6h/u` satisfies `j6*d <= w <= (j6+1)*d`, and the
/// fraction `6h mod u` encodes `(w - j6*d)/d` up to the hue remainder.
proof fn lemma_hue_sextant(w: int, d: int)
    requires
        1 <= d <= 255,
        0 <= w < 6 * d,
    ensures
        ({
            let u = HSV_UNIT as int;
            let hh = w * u / (6 * d);
            let j6 = 6 * hh / u;
            let eh = (w * u) % (6 * d);
            &&& 0 <= hh < u
            &&& 0 <= j6 <= 5
            &&& j6 * d <= w <= (j6 + 1) * d
            &&& (6 * hh) % u == 6 * hh - j6 * u
            &&& 0 <= 6 * hh - j6 * u < u
            &&& 0 <= eh < 6 * d
            &&& d * (6 * hh - j6 * u) == (w - j6 * d) * u - eh
        }),
{
    let u = HSV_UNIT as int;
    let hh = w * u / (6 * d);
    lemma_fundamental_div_mod(w * u, 6 * d);
    lemma_mod_pos_bound(w * u, 6 * d);
    let eh = (w * u) % (6 * d);
    lemma_quot_le(w * u, 6 * d, u);
    assert(hh < u) by (nonlinear_arith)
        requires
            (6 * d) * hh == w * u - eh,
            0 <= eh,
            w <= 6 * d - 1,
            1 <= d,
            u == 1048576,
    ;
    let j6 = 6 * hh / u;
    lemma_fundamental_div_mod(6 * hh, u);
    lemma_mod_pos_bound(6 * hh, u);
    lemma_quot_le(6 * hh, u, 5);
    assert(j6 * d <= w) by (nonlinear_arith)
        requires
            (6 * d) * hh == w * u - eh,
            0 <= eh,
            u * j6 <= 6 * hh,
            0 < d,
            u == 1048576,
    ;
    assert(w <= (j6 + 1) * d) by (nonlinear_arith)
        requires
            (6 * d) * hh == w * u - eh,
            eh < 6 * d,
            6 * hh < u * j6 + u,
            1 <= d <= 255,
            u == 1048576,
    ;
    assert(d * (6 * hh - j6 * u) == (w - j6 * d) * u - eh) by (nonlinear_arith)
        requires
            (6 * d) * hh == w * u - eh,
    ;
}

/// Color round trip: any RGBA pixel with positive alpha converted to
/// fixed-point HSVA and back reproduces R, G and B exactly — well within
/// the one-unit rounding tolerance — and alpha exactly.
pub proof fn lemma_color_round_trip(r: u8, g: u8, b: u8, a: u8)
    requires
        a > 0,
    ensures
        denorm(rgb_of_hsva(hsva_of_rgba(r, g, b, a)).0) == r,
        denorm(rgb_of_hsva(hsva_of_rgba(r, g, b, a)).1) == g,
        denorm(rgb_of_hsva(hsva_of_rgba(r, g, b, a)).2) == b,
        denorm(hsva_of_rgba(r, g, b, a).a as int) == a,
{
    let u = HSV_UNIT as int;
    let p = hsva_of_rgba(r, g, b, a);
    let mx: int = if r >= g && r >= b {
        r as int
    } else if g >= b {
        g as int
    } else {
        b as int
    };
    let mn: int = if r <= g && r <= b {
        r as int
    } else if g <= b {
        g as int
    } else {
        b as int
    };
    let d = mx - mn;

    lemma_quot_le((a as int) * u, 255, u);
    lemma_norm_denorm(a);
    assert(denorm(p.a as int) == a);

    lemma_quot_le(mx * u, 255, u);
    let vv = p.v as int;
    assert(vv == mx * u / 255);

    if d == 0 {
        // Gray: hue and saturation vanish and every output channel is
        // the shared value.
        if mx > 0 {
            lemma_quot_le(d * u, mx, 0);
        }
        assert(p.h == 0 && p.s == 0);
        vstd::arithmetic::div_mod::lemma_div_multiples_vanish(vv, u);
        lemma_quot_le(0, u, 0);
        lemma_fundamental_div_mod(0, u);
        assert(vv * u == u * vv) by (nonlinear_arith);
        assert(((6 * p.h) % u) * (p.s as int) == 0) by (nonlinear_arith)
            requires
                (p.s as int) == 0,
        ;
        assert((u - (6 * p.h) % u) * (p.s as int) == 0) by (nonlinear_arith)
            requires
                (p.s as int) == 0,
        ;
        assert(rgb_of_hsva(p).0 == vv && rgb_of_hsva(p).1 == vv && rgb_of_hsva(p).2 == vv);
        lemma_norm_denorm(r);
        lemma_norm_denorm(g);
        lemma_norm_denorm(b);
    } else {
        lemma_quot_le(d * u, mx, u);
        let sv = p.s as int;
        assert(sv == d * u / mx);
        vstd::arithmetic::div_mod::lemma_div_multiples_vanish(sv, u);

        if mx == r as int {
            if g >= b {
                // Red is the maximum and the hue sits in the first
                // sextant (or at its upper edge when g == r).
                let w: int = g - b;
                lemma_hue_sextant(w, d);
                let hh = w * u / (6 * d);
                let j6 = 6 * hh / u;
                let ff = 6 * hh - j6 * u;
                let eh = (w * u) % (6 * d);
                assert(p.h as int == hh);
                lemma_fundamental_div_mod_converse(j6, 6, 0, j6);
                assert(d * (u - ff) == d * u - d * ff) by (nonlinear_arith);
                assert(j6 <= 1) by (nonlinear_arith)
                    requires
                        j6 * d <= w,
                        w <= d,
                        1 <= d,
                        0 <= j6,
                ;
                lemma_norm_denorm(r);
                if j6 == 0 {
                    assert(j6 * d == 0) by (nonlinear_arith)
                        requires
                            j6 == 0,
                    ;
                    assert(d * ff == w * u - eh);
                    assert(-8 * d <= d * (u - ff) - (mx - (g as int)) * u <= 8 * d);
                    lemma_denorm_q(mx, mn, g as int, u - ff);
                    lemma_denorm_q(mx, mn, mn, u);
                } else {
                    // Only w == d reaches the next sextant; then g == r.
                    assert(j6 * d == d) by (nonlinear_arith)
                        requires
                            j6 == 1,
                    ;
                    assert(w == d);
                    assert(d * ff == (w - j6 * d) * u - eh);
                    assert(-8 * d <= d * ff - (mx - (r as int)) * u <= 8 * d);
                    lemma_denorm_q(mx, mn, r as int, ff);
                    lemma_norm_denorm(g);
                    lemma_denorm_q(mx, mn, mn, u);
                }
            } else {
                // Red is the maximum, blue above green: the hue sits in
                // the last sextant (or at its lower edge when b == r).
                let w: int = 6 * d - ((b as int) - (g as int));
                assert(5 * d <= w < 6 * d);
                lemma_hue_sextant(w, d);
                let hh = w * u / (6 * d);
                let j6 = 6 * hh / u;
                let ff = 6 * hh - j6 * u;
                let eh = (w * u) % (6 * d);
                assert(p.h as int == hh);
                lemma_fundamental_div_mod_converse(j6, 6, 0, j6);
                assert(d * (u - ff) == d * u - d * ff) by (nonlinear_arith);
                assert(4 <= j6) by (nonlinear_arith)
                    requires
                        w <= (j6 + 1) * d,
                        5 * d <= w,
                        1 <= d,
                        0 <= j6,
                ;
                lemma_norm_denorm(r);
                if j6 == 5 {
                    assert(j6 * d == 5 * d) by (nonlinear_arith)
                        requires
                            j6 == 5,
                    ;
                    assert(d * ff == (w - 5 * d) * u - eh);
                    assert(-8 * d <= d * ff - (mx - (b as int)) * u <= 8 * d);
                    lemma_denorm_q(mx, mn, mn, u);
                    lemma_denorm_q(mx, mn, b as int, ff);
                } else {
                    // Only w == 5d lands here; then b == r.
                    assert(j6 * d == 4 * d) by (nonlinear_arith)
                        requires
                            j6 == 4,
                    ;
                    assert(w == 5 * d);
                    assert(d * ff == (w - 4 * d) * u - eh);
                    assert(-8 * d <= d * (u - ff) - (mx - (r as int)) * u <= 8 * d);
                    lemma_denorm_q(mx, mn, r as int, u - ff);
                    lemma_denorm_q(mx, mn, mn, u);
                    lemma_norm_denorm(b);
                }
            }
        } else if mx == g as int {
            // Green is the maximum: sextants one through three.
            let w: int = (b as int) - (r as int) + 2 * d;
            assert(d + 1 <= w <= 3 * d);
            lemma_hue_sextant(w, d);
            let hh = w * u / (6 * d);
            let j6 = 6 * hh / u;
            let ff = 6 * hh - j6 * u;
            let eh = (w * u) % (6 * d);
            assert(p.h as int == hh);
            lemma_fundamental_div_mod_converse(j6, 6, 0, j6);
            assert(d * (u - ff) == d * u - d * ff) by (nonlinear_arith);
            assert(1 <= j6 && j6 <= 3) by (nonlinear_arith)
                requires
                    j6 * d <= w,
                    w <= (j6 + 1) * d,
                    d + 1 <= w <= 3 * d,
                    1 <= d,
                    0 <= j6 <= 5,
            ;
            lemma_norm_denorm(g);
            if j6 == 1 {
                // w <= 2d, so blue is the minimum channel.
                assert(j6 * d == d) by (nonlinear_arith)
                    requires
                        j6 == 1,
                ;
                assert(d * ff == (w - d) * u - eh);
                assert(-8 * d <= d * ff - (mx - (r as int)) * u <= 8 * d);
                lemma_denorm_q(mx, mn, r as int, ff);
                lemma_denorm_q(mx, mn, mn, u);
            } else if j6 == 2 {
                // w >= 2d, so red is the minimum channel.
                assert(j6 * d == 2 * d) by (nonlinear_arith)
                    requires
                        j6 == 2,
                ;
                assert(d * ff == (w - 2 * d) * u - eh);
                assert(-8 * d <= d * (u - ff) - (mx - (b as int)) * u <= 8 * d);
                lemma_denorm_q(mx, mn, mn, u);
                lemma_denorm_q(mx, mn, b as int, u - ff);
            } else {
                // Only w == 3d lands here; then b == g.
                assert(j6 * d == 3 * d) by (nonlinear_arith)
                    requires
                        j6 == 3,
                ;
                assert(w == 3 * d);
                assert(d * ff == (w - 3 * d) * u - eh);
                assert(-8 * d <= d * ff - (mx - (g as int)) * u <= 8 * d);
                lemma_denorm_q(mx, mn, mn, u);
                lemma_denorm_q(mx, mn, g as int, ff);
                lemma_norm_denorm(b);
            }
        } else {
            // Blue is the maximum: sextants three and four.
            let w: int = (r as int) - (g as int) + 4 * d;
            assert(3 * d + 1 <= w <= 5 * d - 1);
            lemma_hue_sextant(w, d);
            let hh = w * u / (6 * d);
            let j6 = 6 * hh / u;
            let ff = 6 * hh - j6 * u;
            let eh = (w * u) % (6 * d);
            assert(p.h as int == hh);
            lemma_fundamental_div_mod_converse(j6, 6, 0, j6);
            assert(d * (u - ff) == d * u - d * ff) by (nonlinear_arith);
            assert(3 <= j6 && j6 <= 4) by (nonlinear_arith)
                requires
                    j6 * d <= w,
                    w <= (j6 + 1) * d,
                    3 * d + 1 <= w <= 5 * d - 1,
                    1 <= d,
                    0 <= j6 <= 5,
            ;
            lemma_norm_denorm(b);
            if j6 == 3 {
                // w <= 4d, so red is the minimum channel.
                assert(j6 * d == 3 * d) by (nonlinear_arith)
                    requires
                        j6 == 3,
                ;
                assert(d * ff == (w - 3 * d) * u - eh);
                assert(-8 * d <= d * ff - (mx - (g as int)) * u <= 8 * d);
                lemma_denorm_q(mx, mn, mn, u);
                lemma_denorm_q(mx, mn, g as int, ff);
            } else {
                // w >= 4d, so green is the minimum channel.
                assert(j6 * d == 4 * d) by (nonlinear_arith)
                    requires
                        j6 == 4,
                ;
                assert(d * ff == (w - 4 * d) * u - eh);
                assert(-8 * d <= d * (u - ff) - (mx - (r as int)) * u <= 8 * d);
                lemma_denorm_q(mx, mn, r as int, u - ff);
                lemma_denorm_q(mx, mn, mn, u);
            }
        }
    }
}

/// The round trip lifted to whole frames: re-expressing a frame whose
/// pixels all carry positive alpha in HSVA and converting back yields the
/// original byte sequence.
pub proof fn lemma_frame_round_trip(f: FrameView)
    requires
        frame_wf(f),
        forall|i: int| 0 <= i < f.width * f.height ==> #[trigger] f.pixels[4 * i + 3] > 0,
    ensures
        rgba_bytes_of_hsva(hsva_frame_of_rgba(f)) == f.pixels,
{
    let hv = hsva_frame_of_rgba(f);
    assert forall|n: int| 0 <= n < f.width * f.height * 4 implies rgba_bytes_of_hsva(hv)[n]
        == f.pixels[n] by {
        lemma_raster_index(n, f.width, f.height);
        let i = n / 4;
        lemma_color_round_trip(
            f.pixels[4 * i],
            f.pixels[4 * i + 1],
            f.pixels[4 * i + 2],
            f.pixels[4 * i + 3],
        );
    }
    assert(rgba_bytes_of_hsva(hv) =~= f.pixels);
}

} // verus!
