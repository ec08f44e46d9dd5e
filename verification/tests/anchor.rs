use monsterbook::color::Color;
use monsterbook::crop::pad_image;
use monsterbook::gray::to_grayscale;
use monsterbook::locate::correlation_peak;
use monsterbook::raster::Image;
use rustfft::num_complex::Complex;
use rustfft::FftPlanner;

#[test]
fn correlation_peak_picks_maximum() {
    let surface = vec![1, 5, 3, 2, 4, 0];
    assert_eq!(correlation_peak(&surface, 3, 2), (1, 0));
    let surface = vec![1, 2, 3, 2, 9, 0];
    assert_eq!(correlation_peak(&surface, 3, 2), (1, 1));
}

#[test]
fn correlation_peak_breaks_ties_row_major() {
    let surface = vec![7, 7, 7, 7];
    assert_eq!(correlation_peak(&surface, 2, 2), (0, 0));
    let surface = vec![1, 8, 3, 8];
    assert_eq!(correlation_peak(&surface, 2, 2), (1, 0));
}

fn fft_2d(data: &mut Vec<Complex<f32>>, width: usize, height: usize, inverse: bool) {
    let mut planner = FftPlanner::<f32>::new();
    let row_fft = if inverse {
        planner.plan_fft_inverse(width)
    } else {
        planner.plan_fft_forward(width)
    };
    for row in data.chunks_exact_mut(width) {
        row_fft.process(row);
    }
    let mut transposed = vec![Complex::new(0.0f32, 0.0f32); width * height];
    for y in 0..height {
        for x in 0..width {
            transposed[x * height + y] = data[y * width + x];
        }
    }
    let col_fft = if inverse {
        planner.plan_fft_inverse(height)
    } else {
        planner.plan_fft_forward(height)
    };
    for col in transposed.chunks_exact_mut(height) {
        col_fft.process(col);
    }
    for x in 0..width {
        for y in 0..height {
            data[y * width + x] = transposed[x * height + y];
        }
    }
}

/// Phase correlation in the frequency domain, then the verified peak
/// readout: the strongest cell gives the anchor's pixel offset.
fn locate(screenshot: &Image, anchor: &Image) -> (u32, u32) {
    let padded = pad_image(anchor, screenshot);
    let gray_ref = to_grayscale(&padded);
    let gray_img = to_grayscale(screenshot);
    let w = screenshot.width() as usize;
    let h = screenshot.height() as usize;
    let mut signal: Vec<Complex<f32>> =
        gray_img.values().iter().map(|&v| Complex::new(v as f32, 0.0)).collect();
    let mut reference: Vec<Complex<f32>> =
        gray_ref.values().iter().map(|&v| Complex::new(v as f32, 0.0)).collect();
    fft_2d(&mut signal, w, h, false);
    fft_2d(&mut reference, w, h, false);
    for (a, b) in signal.iter_mut().zip(reference.iter()) {
        let cross = *a * b.conj();
        let magnitude = cross.norm();
        // Guard the degenerate exact-zero magnitude instead of dividing.
        *a = if magnitude > 0.0 { cross / magnitude } else { Complex::new(0.0, 0.0) };
    }
    fft_2d(&mut signal, w, h, true);
    let keys: Vec<u32> = signal
        .iter()
        .map(|c| {
            let n = c.norm();
            if n.is_finite() {
                n.to_bits()
            } else {
                0
            }
        })
        .collect();
    correlation_peak(&keys, w as u32, h as u32)
}

fn glyph_value(x: u32, y: u32) -> u8 {
    ((x * 7 + y * 13) % 251) as u8
}

fn glyph(width: u32, height: u32) -> Image {
    let mut data = Vec::new();
    for y in 0..height {
        for x in 0..width {
            let v = glyph_value(x, y);
            data.extend_from_slice(&[v, v, v, 255]);
        }
    }
    Image::from_raw(width, height, data).unwrap()
}

fn screenshot_with_glyph(
    width: u32,
    height: u32,
    at_x: u32,
    at_y: u32,
    glyph_w: u32,
    glyph_h: u32,
) -> Image {
    let canvas = Image::filled(width, height, Color { r: 0, g: 0, b: 0, a: 255 });
    canvas.overlay(&glyph(glyph_w, glyph_h), at_x, at_y)
}

#[test]
fn locate_anchor_finds_offset_in_large_screenshot() {
    let anchor = glyph(32, 32);
    let screenshot = screenshot_with_glyph(1200, 1200, 300, 450, 32, 32);
    assert_eq!(locate(&screenshot, &anchor), (300, 450));
}

#[test]
fn locate_anchor_orientation_is_x_then_y() {
    // An asymmetric fixture: the offsets differ on the two axes, so a
    // swapped readout would be caught.
    let anchor = glyph(16, 12);
    let screenshot = screenshot_with_glyph(160, 120, 40, 70, 16, 12);
    assert_eq!(locate(&screenshot, &anchor), (40, 70));
}
