use pixelpipe::colorspace::hsv_convolve;
use pixelpipe::colorspace::hsv_delta;
use pixelpipe::colorspace::hsva_to_rgba;
use pixelpipe::colorspace::rgba_to_hsva;
use pixelpipe::colorspace::Hsva;
use pixelpipe::colorspace::HSV_UNIT;
use pixelpipe::convolve::convolve;
use pixelpipe::delta::compute_delta;
use pixelpipe::ChannelMask;
use pixelpipe::FrameBuffer;
use pixelpipe::Kernel;
use pixelpipe::Pipeline;
use pixelpipe::PixelError;

fn frame(bytes: Vec<u8>, w: u32, h: u32) -> FrameBuffer {
    FrameBuffer::from_raw(bytes, w, h).unwrap()
}

fn full_mask() -> ChannelMask {
    ChannelMask { red: true, green: true, blue: true }
}

#[test]
fn from_raw_accepts_matching_length() {
    let f = frame(vec![1, 2, 3, 4, 5, 6, 7, 8], 2, 1);
    assert_eq!(f.width, 2);
    assert_eq!(f.height, 1);
    assert_eq!(f.pixels, vec![1, 2, 3, 4, 5, 6, 7, 8]);
}

#[test]
fn from_raw_rejects_wrong_length() {
    let r = FrameBuffer::from_raw(vec![0; 7], 2, 1);
    assert_eq!(r.unwrap_err(), PixelError::InvalidLength);
    let r = FrameBuffer::from_raw(vec![0; 9], 2, 1);
    assert_eq!(r.unwrap_err(), PixelError::InvalidLength);
}

#[test]
fn blank_is_opaque_black() {
    let f = FrameBuffer::blank(2, 2);
    assert_eq!(f.pixels, vec![0, 0, 0, 255, 0, 0, 0, 255, 0, 0, 0, 255, 0, 0, 0, 255]);
}

#[test]
fn delta_identity_is_opaque_black() {
    let f = frame(vec![10, 200, 77, 255, 130, 0, 255, 255, 9, 9, 9, 255, 1, 2, 3, 255], 2, 2);
    let d = compute_delta(&f, &f, 150, 250);
    assert_eq!(d.pixels, FrameBuffer::blank(2, 2).pixels);
}

#[test]
fn delta_mismatched_alpha_is_transparent() {
    let f1 = frame(vec![200, 100, 50, 255], 1, 1);
    let f2 = frame(vec![10, 20, 30, 0], 1, 1);
    let d = compute_delta(&f1, &f2, 150, 250);
    assert_eq!(d.pixels, vec![0, 0, 0, 0]);
}

#[test]
fn delta_dimension_fallback_is_blank() {
    let f1 = frame(vec![9, 9, 9, 255, 9, 9, 9, 255], 2, 1);
    let f2 = frame(vec![9, 9, 9, 255], 1, 1);
    let d = compute_delta(&f1, &f2, 150, 250);
    assert_eq!(d.width, 2);
    assert_eq!(d.height, 1);
    assert_eq!(d.pixels, vec![0, 0, 0, 255, 0, 0, 0, 255]);
}

#[test]
fn delta_keeps_mid_band_and_drops_the_rest() {
    // One channel difference of 160 survives; 0 is below the low
    // threshold; a difference above the high threshold is dropped too.
    let prev = frame(vec![200, 50, 10, 255, 255, 0, 0, 255, 5, 5, 5, 255, 0, 0, 0, 255], 2, 2);
    let curr = frame(vec![40, 50, 10, 255, 1, 0, 0, 255, 5, 5, 5, 255, 0, 0, 0, 255], 2, 2);
    let d = compute_delta(&prev, &curr, 150, 250);
    assert_eq!(&d.pixels[0..4], &[160, 0, 0, 255]);
    // 255 - 1 = 254 > 250: saturation artifact, dropped.
    assert_eq!(&d.pixels[4..8], &[0, 0, 0, 255]);
    assert_eq!(&d.pixels[8..12], &[0, 0, 0, 255]);
}

#[test]
fn kernel_validation() {
    assert!(Kernel::new(vec![1]).is_ok());
    let k = Kernel::new(vec![0, 1, 0, 1, 4, 1, 0, 1, 0]).unwrap();
    assert_eq!(k.side, 3);
    // A perfect square with an even side is rejected.
    assert_eq!(Kernel::new(vec![1, 1, 1, 1]).unwrap_err(), PixelError::InvalidKernel);
    // A length that is no perfect square is rejected.
    assert_eq!(Kernel::new(vec![0; 10]).unwrap_err(), PixelError::InvalidKernel);
    assert_eq!(Kernel::new(vec![0; 8]).unwrap_err(), PixelError::InvalidKernel);
}

#[test]
fn mask_from_bits() {
    let m = ChannelMask::from_bits(7);
    assert!(m.red && m.green && m.blue);
    let m = ChannelMask::from_bits(2);
    assert!(!m.red && m.green && !m.blue);
    let m = ChannelMask::from_bits(5);
    assert!(m.red && !m.green && m.blue);
    let m = ChannelMask::from_bits(0);
    assert!(!m.red && !m.green && !m.blue);
}

#[test]
fn convolve_identity_kernel_reproduces_frame() {
    let f = frame(vec![10, 200, 77, 255, 130, 0, 255, 0, 9, 9, 9, 3, 1, 2, 3, 255], 2, 2);
    let k = Kernel::new(vec![1]).unwrap();
    let out = convolve(&f, &k, full_mask());
    assert_eq!(out.pixels, f.pixels);
}

#[test]
fn convolve_border_zeroes_rgb_and_keeps_alpha() {
    let mut bytes = Vec::new();
    for i in 0..9u8 {
        bytes.extend_from_slice(&[100 + i, 50, 25, 200 + i]);
    }
    let f = frame(bytes, 3, 3);
    let k = Kernel::new(vec![1, 1, 1, 1, 1, 1, 1, 1, 1]).unwrap();
    let out = convolve(&f, &k, full_mask());
    for i in 0..9 {
        if i == 4 {
            continue; // the center is the only interior pixel
        }
        assert_eq!(&out.pixels[4 * i..4 * i + 3], &[0, 0, 0]);
        assert_eq!(out.pixels[4 * i + 3], f.pixels[4 * i + 3]);
    }
}

#[test]
fn convolve_interior_weighted_sum() {
    // 3x3 box kernel on a 3x3 frame: the center output is the sum of all
    // nine pixels per channel, clamped to 255.
    let mut bytes = Vec::new();
    for i in 0..9u8 {
        bytes.extend_from_slice(&[i, 2 * i, 100, 255]);
    }
    let f = frame(bytes, 3, 3);
    let k = Kernel::new(vec![1, 1, 1, 1, 1, 1, 1, 1, 1]).unwrap();
    let out = convolve(&f, &k, full_mask());
    // Red: 0+1+...+8 = 36; green: 72; blue: 9*100 = 900, clamped to 255.
    assert_eq!(&out.pixels[16..20], &[36, 72, 255, 255]);
}

#[test]
fn convolve_negative_sum_takes_magnitude() {
    // Kernel [-1] makes every channel sum negative; the output stores the
    // magnitude.
    let f = frame(vec![200, 100, 50, 255], 1, 1);
    let k = Kernel::new(vec![-1]).unwrap();
    let out = convolve(&f, &k, full_mask());
    assert_eq!(out.pixels, vec![200, 100, 50, 255]);
    // Kernel [2] doubles and saturates instead of wrapping.
    let k = Kernel::new(vec![2]).unwrap();
    let out = convolve(&f, &k, full_mask());
    assert_eq!(out.pixels, vec![255, 200, 100, 255]);
}

#[test]
fn convolve_mask_gates_channels() {
    let f = frame(vec![10, 20, 30, 255], 1, 1);
    let k = Kernel::new(vec![1]).unwrap();
    let green_only = ChannelMask { red: false, green: true, blue: false };
    let out = convolve(&f, &k, green_only);
    assert_eq!(out.pixels, vec![0, 20, 0, 255]);
}

#[test]
fn color_round_trip_is_within_one_unit() {
    // Sample the RGB cube; alpha > 0 must round-trip exactly and each
    // channel within one unit of the original.
    let mut bytes = Vec::new();
    let mut count: u32 = 0;
    let mut c: u32 = 0;
    while c < 256 * 256 {
        let r = (c / 256) as u8;
        let g = (c % 256) as u8;
        for b in [0u8, 1, 77, 128, 254, 255] {
            bytes.extend_from_slice(&[r, g, b, 255]);
            count += 1;
        }
        c += 257; // diagonal stride through the (r, g) plane
    }
    for (r, g, b, a) in [(255, 0, 0, 1), (0, 255, 0, 128), (12, 200, 254, 37)] {
        bytes.extend_from_slice(&[r, g, b, a]);
        count += 1;
    }
    let f = frame(bytes, count, 1);
    let back = hsva_to_rgba(&rgba_to_hsva(&f));
    for i in 0..count as usize {
        for c in 0..3 {
            let orig = f.pixels[4 * i + c] as i32;
            let got = back.pixels[4 * i + c] as i32;
            assert!(
                (orig - got).abs() <= 1,
                "channel {} of pixel {} was {} and came back {}",
                c,
                i,
                orig,
                got
            );
        }
        assert_eq!(f.pixels[4 * i + 3], back.pixels[4 * i + 3]);
    }
}

#[test]
fn hsv_delta_masks_non_opaque_pixels() {
    let f1 = frame(vec![200, 100, 50, 255, 10, 10, 10, 200], 2, 1);
    let f2 = frame(vec![200, 100, 50, 255, 90, 90, 90, 255], 2, 1);
    let d = hsv_delta(&f1, &f2);
    // Equal opaque pixels difference to zero with full alpha.
    assert_eq!(d.pixels[0], Hsva { h: 0, s: 0, v: 0, a: HSV_UNIT });
    // The second pixel is not fully opaque in f1: masked out entirely.
    assert_eq!(d.pixels[1], Hsva { h: 0, s: 0, v: 0, a: 0 });
}

#[test]
fn hsv_delta_takes_componentwise_magnitude() {
    let f1 = frame(vec![255, 0, 0, 255], 1, 1);
    let f2 = frame(vec![0, 0, 255, 255], 1, 1);
    let d12 = hsv_delta(&f1, &f2);
    let d21 = hsv_delta(&f2, &f1);
    // abs is applied uniformly, so the delta is symmetric.
    assert_eq!(d12.pixels[0], d21.pixels[0]);
    assert_eq!(d12.pixels[0].a, HSV_UNIT);
    // Red is hue 0, blue is hue 4/6.
    assert_eq!(d12.pixels[0].h, 4 * HSV_UNIT / 6);
}

#[test]
fn hsv_delta_dimension_fallback_is_all_zero() {
    let f1 = frame(vec![9, 9, 9, 255, 9, 9, 9, 255], 2, 1);
    let f2 = frame(vec![9, 9, 9, 255], 1, 1);
    let d = hsv_delta(&f1, &f2);
    assert_eq!(d.width, 2);
    assert_eq!(d.height, 1);
    assert_eq!(d.pixels, vec![Hsva { h: 0, s: 0, v: 0, a: 0 }; 2]);
}

#[test]
fn hsv_convolve_border_passes_through() {
    let mut bytes = Vec::new();
    for i in 0..9u8 {
        bytes.extend_from_slice(&[100 + i, 20 + i, 5 * i, 255]);
    }
    let f = rgba_to_hsva(&frame(bytes, 3, 3));
    let k = Kernel::new(vec![-1, -1, -1, -1, 8, -1, -1, -1, -1]).unwrap();
    let out = hsv_convolve(&f, &k);
    for i in 0..9 {
        if i == 4 {
            continue;
        }
        assert_eq!(out.pixels[i], f.pixels[i], "border pixel {} must pass through", i);
    }
    // Alpha of the interior pixel is still copied, never convolved.
    assert_eq!(out.pixels[4].a, f.pixels[4].a);
}

#[test]
fn hsv_convolve_identity_kernel_reproduces_frame() {
    let f = rgba_to_hsva(&frame(vec![10, 200, 77, 255, 130, 0, 255, 0, 9, 9, 9, 3, 1, 2, 3, 255], 2, 2));
    let k = Kernel::new(vec![1]).unwrap();
    let out = hsv_convolve(&f, &k);
    assert_eq!(out.pixels, f.pixels);
}

#[test]
fn pipeline_ingest_rotates_and_convolves() {
    let k = Kernel::new(vec![1]).unwrap();
    let mut p = Pipeline::new(1, 1, k, full_mask());
    assert_eq!(p.current.pixels, vec![0, 0, 0, 255]);

    // First frame against the implicit opaque black: 200 lies in the band.
    let out = p.ingest(frame(vec![200, 0, 0, 255], 1, 1));
    assert_eq!(out.pixels, vec![200, 0, 0, 255]);
    assert_eq!(p.previous.pixels, vec![0, 0, 0, 255]);
    assert_eq!(p.current.pixels, vec![200, 0, 0, 255]);

    // Second frame: dR = 160 is kept, the other channels fall below the
    // low threshold.
    let out = p.ingest(frame(vec![40, 50, 10, 255], 1, 1));
    assert_eq!(out.pixels, vec![160, 0, 0, 255]);
    assert_eq!(p.previous.pixels, vec![200, 0, 0, 255]);
    assert_eq!(p.current.pixels, vec![40, 50, 10, 255]);
}

#[test]
fn pipeline_rejects_invalid_kernel_and_keeps_old_one() {
    let k = Kernel::new(vec![0, 1, 0, 1, 4, 1, 0, 1, 0]).unwrap();
    let mut p = Pipeline::new(2, 2, k, full_mask());
    let r = p.set_kernel(vec![1; 10]);
    assert_eq!(r.unwrap_err(), PixelError::InvalidKernel);
    assert_eq!(p.kernel.side, 3);
    assert_eq!(p.kernel.weights, vec![0, 1, 0, 1, 4, 1, 0, 1, 0]);
    // A valid replacement is installed.
    assert!(p.set_kernel(vec![1]).is_ok());
    assert_eq!(p.kernel.side, 1);
}

#[test]
fn pipeline_set_mask_and_thresholds() {
    let k = Kernel::new(vec![1]).unwrap();
    let mut p = Pipeline::new(1, 1, k, full_mask());
    p.set_mask(ChannelMask { red: false, green: false, blue: true });
    assert!(!p.mask.red && !p.mask.green && p.mask.blue);
    p.set_mask(full_mask());
    p.set_thresholds(10, 240);
    assert_eq!(p.low_threshold, 10);
    assert_eq!(p.high_threshold, 240);
    // With a lower threshold, a difference of 30 now survives.
    let out = p.ingest(frame(vec![30, 0, 0, 255], 1, 1));
    assert_eq!(out.pixels, vec![30, 0, 0, 255]);
    // A masked-out channel is forced to zero even when its delta survives.
    p.set_mask(ChannelMask { red: false, green: false, blue: true });
    let out = p.ingest(frame(vec![130, 0, 0, 255], 1, 1));
    assert_eq!(out.pixels, vec![0, 0, 0, 255]);
}

#[test]
fn empty_frame_flows_through() {
    let f = frame(vec![], 0, 0);
    let d = compute_delta(&f, &f, 150, 250);
    assert_eq!(d.pixels.len(), 0);
    let k = Kernel::new(vec![1]).unwrap();
    let out = convolve(&d, &k, full_mask());
    assert_eq!(out.pixels.len(), 0);
    let hv = rgba_to_hsva(&f);
    assert_eq!(hv.pixels.len(), 0);
    let back = hsva_to_rgba(&hv);
    assert_eq!(back.pixels.len(), 0);
}

#[test]
fn convolve_frame_thinner_than_kernel_is_all_border() {
    // A single row cannot hold a 3x3 window anywhere: every pixel takes
    // the border policy.
    let f = frame(vec![10, 20, 30, 200, 40, 50, 60, 100, 70, 80, 90, 255], 3, 1);
    let k = Kernel::new(vec![1, 1, 1, 1, 1, 1, 1, 1, 1]).unwrap();
    let out = convolve(&f, &k, full_mask());
    assert_eq!(out.pixels, vec![0, 0, 0, 200, 0, 0, 0, 100, 0, 0, 0, 255]);
}
