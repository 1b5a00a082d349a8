use dithering::buffer::ErrorBuffer;
use dithering::dither::{atkinson, atkinson_kernel, floyd_steinberg, floyd_steinberg_kernel, quantize};
use dithering::grid::{BitGrid, PixelGrid};
use dithering::pixel::{luminosity, Rgba};
use dithering::{LUMA_HALF, LUMA_ONE};

fn px(r: u8, g: u8, b: u8, a: u8) -> Rgba {
    Rgba { r, g, b, a }
}

fn solid(w: usize, h: usize, p: Rgba) -> PixelGrid {
    let pixels = vec![p; w * h];
    PixelGrid::new(w, h, pixels).expect("valid grid")
}

fn column_major(w: usize, h: usize, cells: &[Rgba]) -> PixelGrid {
    assert_eq!(cells.len(), w * h);
    PixelGrid::new(w, h, cells.to_vec()).expect("valid grid")
}

#[test]
fn luminosity_red_weight() {
    // 0.2126 * 255 = 54.213, i.e. 542_130 in 1/10_000 units.
    let l = luminosity(&px(255, 0, 0, 0));
    assert_eq!(l, 542_130);
    assert!((l as f64 / 10_000.0 - 54.213).abs() < 1e-9);
}

#[test]
fn luminosity_green_weight() {
    // 0.7152 * 255 = 182.376.
    let l = luminosity(&px(0, 255, 0, 77));
    assert_eq!(l, 1_823_760);
    assert!((l as f64 / 10_000.0 - 182.376).abs() < 1e-9);
}

#[test]
fn luminosity_blue_weight() {
    // 0.0722 * 255 = 18.411.
    let l = luminosity(&px(0, 0, 255, 255));
    assert_eq!(l, 184_110);
    assert!((l as f64 / 10_000.0 - 18.411).abs() < 1e-9);
}

#[test]
fn luminosity_ignores_alpha() {
    let l0 = luminosity(&px(12, 200, 34, 0));
    let l1 = luminosity(&px(12, 200, 34, 128));
    let l2 = luminosity(&px(12, 200, 34, 255));
    assert_eq!(l0, l1);
    assert_eq!(l1, l2);
}

#[test]
fn luminosity_white_is_full_scale() {
    // (2126 + 7152 + 722) * 255 = 2_550_000: a normalized luminance of 1.0.
    assert_eq!(luminosity(&px(255, 255, 255, 255)), LUMA_ONE);
    assert_eq!(luminosity(&px(0, 0, 0, 255)), 0);
}

#[test]
fn quantize_threshold_is_strict() {
    // Exactly one half quantizes to black; the least value above it to white.
    assert!(!quantize(LUMA_HALF));
    assert!(quantize(LUMA_HALF + 1));
    assert!(!quantize(0));
    assert!(!quantize(-5_000_000));
    assert!(quantize(LUMA_ONE));
}

#[test]
fn grid_new_checks_length() {
    assert!(PixelGrid::new(2, 2, vec![px(0, 0, 0, 0); 3]).is_none());
    assert!(PixelGrid::new(2, 2, vec![px(0, 0, 0, 0); 4]).is_some());
    assert!(PixelGrid::new(0, 0, Vec::new()).is_some());
}

#[test]
fn buffer_initialized_to_luminance() {
    let g = column_major(2, 1, &[px(255, 0, 0, 255), px(0, 0, 255, 255)]);
    let buf = ErrorBuffer::from_grid(&g);
    assert_eq!(buf.get(0, 0), 542_130);
    assert_eq!(buf.get(1, 0), 184_110);
}

#[test]
fn deposit_discards_out_of_bounds() {
    // On a 1x1 image every kernel offset leaves the grid: the single cell is
    // never mutated by the diffusion step.
    let g = solid(1, 1, px(100, 100, 100, 255));
    let mut buf = ErrorBuffer::from_grid(&g);
    let before = buf.get(0, 0);
    for (dx, dy) in [(-1, 1), (0, 1), (0, 2), (1, 1), (1, 0)] {
        buf.deposit(0, 0, dx, dy, 123_456);
    }
    assert_eq!(buf.get(0, 0), before);
}

#[test]
fn deposit_adds_in_bounds() {
    let g = solid(2, 2, px(0, 0, 0, 255));
    let mut buf = ErrorBuffer::from_grid(&g);
    buf.deposit(0, 0, 1, 0, 7_000);
    buf.deposit(0, 0, 0, 1, -3_000);
    buf.deposit(0, 0, 1, 1, 11);
    assert_eq!(buf.get(1, 0), 7_000);
    assert_eq!(buf.get(0, 1), -3_000);
    assert_eq!(buf.get(1, 1), 11);
    assert_eq!(buf.get(0, 0), 0);
}

#[test]
fn floyd_weights_sum_to_full_error() {
    // (7 + 3 + 5 + 1) / 16 = 1: Floyd-Steinberg conserves the full error.
    let k = floyd_steinberg_kernel();
    assert_eq!(k.den, 16);
    assert_eq!(k.taps.len(), 4);
    let sum: i64 = k.taps.iter().map(|t| t.num).sum();
    assert_eq!(sum, k.den);
}

#[test]
fn atkinson_weights_sum_aliased() {
    // The aliased Atkinson table distributes 6/8, not 8/8: two of its six
    // slots repeat the two straight-down offsets.
    let k = atkinson_kernel();
    assert_eq!(k.den, 8);
    assert_eq!(k.taps.len(), 6);
    let sum: i64 = k.taps.iter().map(|t| t.num).sum();
    assert_eq!(sum, 6);
    let down_one = k.taps.iter().filter(|t| t.dx == 0 && t.dy == 1).count();
    let down_two = k.taps.iter().filter(|t| t.dx == 0 && t.dy == 2).count();
    assert_eq!(down_one, 2);
    assert_eq!(down_two, 2);
}

#[test]
fn single_pixel_depends_on_own_luminance_only() {
    // Gray 127 normalizes to 0.498 <= 0.5: black. Gray 128 to 0.502: white.
    for (v, white) in [(127u8, false), (128u8, true)] {
        let g = solid(1, 1, px(v, v, v, 255));
        let a = atkinson(&g);
        let f = floyd_steinberg(&g);
        assert_eq!(a.get(0, 0), white);
        assert_eq!(f.get(0, 0), white);
    }
}

#[test]
fn uniform_midgray_first_pixel() {
    // The first pixel of a pass has received no error yet, so on a uniform
    // input it is decided by the plain threshold rule.
    let below = solid(3, 3, px(127, 127, 127, 255));
    let above = solid(3, 3, px(128, 128, 128, 255));
    assert!(!atkinson(&below).get(0, 0));
    assert!(!floyd_steinberg(&below).get(0, 0));
    assert!(atkinson(&above).get(0, 0));
    assert!(floyd_steinberg(&above).get(0, 0));
}

#[test]
fn column_of_gray_diffuses_downward() {
    // 1x2 uniform gray 128: luminance 1_280_000 > 1_275_000, so the first
    // pixel is white and leaves error 1_280_000 - 2_550_000 = -1_270_000.
    // Floyd-Steinberg deposits floor(1_270_000 * 5 / 16) = 396_875 downward:
    // 1_280_000 - 396_875 = 883_125 <= threshold, so the second pixel is
    // black. Atkinson deposits floor(1_270_000 / 8) = 158_750 twice:
    // 1_280_000 - 317_500 = 962_500, black as well.
    let g = solid(1, 2, px(128, 128, 128, 255));
    let a = atkinson(&g);
    let f = floyd_steinberg(&g);
    assert!(a.get(0, 0));
    assert!(!a.get(0, 1));
    assert!(f.get(0, 0));
    assert!(!f.get(0, 1));
}

#[test]
fn kernels_disagree_on_gray_column_of_three() {
    // 1x3 uniform gray 128, worked by hand. Floyd-Steinberg: white, black,
    // then 1_280_000 + floor(883_125 * 5 / 16) = 1_555_976 > threshold:
    // white. Atkinson: white, black, then 1_280_000 - 317_500 + 2 *
    // floor(962_500 / 8) = 1_203_124 <= threshold: black.
    let g = solid(1, 3, px(128, 128, 128, 255));
    let f = floyd_steinberg(&g);
    assert!(f.get(0, 0));
    assert!(!f.get(0, 1));
    assert!(f.get(0, 2));
    let a = atkinson(&g);
    assert!(a.get(0, 0));
    assert!(!a.get(0, 1));
    assert!(!a.get(0, 2));
}

fn assert_pure_black_white(g: &BitGrid, w: usize, h: usize) {
    for x in 0..w {
        for y in 0..h {
            let v = g.gray_at(x, y);
            assert!(v == 0 || v == 255);
        }
    }
}

#[test]
fn checkerboard_end_to_end() {
    // 2x2 input [white, black; black, white], fully opaque. Both kernels
    // keep the dimensions, emit only pure black/white, and the top-left
    // pixel is white: its luminance normalizes to 1.0 > 0.5.
    let w = px(255, 255, 255, 255);
    let b = px(0, 0, 0, 255);
    // Column-major: (0,0), (0,1), (1,0), (1,1).
    let g = column_major(2, 2, &[w, b, b, w]);
    for out in [atkinson(&g), floyd_steinberg(&g)] {
        assert_eq!(out.width, 2);
        assert_eq!(out.height, 2);
        assert_pure_black_white(&out, 2, 2);
        assert!(out.get(0, 0));
    }
}

fn to_gray_image(g: &BitGrid, w: u32, h: u32) -> image::GrayImage {
    let mut img = image::GrayImage::new(w, h);
    for x in 0..w {
        for y in 0..h {
            img.put_pixel(x, y, image::Luma([g.gray_at(x as usize, y as usize)]));
        }
    }
    img
}

#[test]
fn png_round_trip_keeps_two_colors() {
    // Encoding a produced 1-bit grid and decoding it back yields exactly the
    // two emitted gray levels, no intermediate grays, and the same pixels.
    let g = column_major(
        2,
        2,
        &[
            px(255, 255, 255, 255),
            px(0, 0, 0, 255),
            px(0, 0, 0, 255),
            px(255, 255, 255, 255),
        ],
    );
    for out in [atkinson(&g), floyd_steinberg(&g)] {
        let img = to_gray_image(&out, 2, 2);
        let mut bytes: Vec<u8> = Vec::new();
        img.write_to(&mut std::io::Cursor::new(&mut bytes), image::ImageFormat::Png)
            .expect("png encode");
        let back = image::load_from_memory(&bytes).expect("png decode").to_luma8();
        assert_eq!(back.width(), 2);
        assert_eq!(back.height(), 2);
        for x in 0..2u32 {
            for y in 0..2u32 {
                let v = back.get_pixel(x, y).0[0];
                assert!(v == 0 || v == 255);
                assert_eq!(v, out.gray_at(x as usize, y as usize));
            }
        }
    }
}

#[test]
fn passes_are_independent() {
    // Running both kernels on the same input gives each pass a fresh
    // buffer: repeating a pass yields identical output.
    let g = column_major(
        2,
        2,
        &[
            px(200, 10, 30, 255),
            px(90, 90, 90, 0),
            px(5, 250, 120, 17),
            px(128, 128, 128, 255),
        ],
    );
    let a1 = atkinson(&g);
    let f1 = floyd_steinberg(&g);
    let a2 = atkinson(&g);
    let f2 = floyd_steinberg(&g);
    for x in 0..2 {
        for y in 0..2 {
            assert_eq!(a1.get(x, y), a2.get(x, y));
            assert_eq!(f1.get(x, y), f2.get(x, y));
        }
    }
}

#[test]
fn pure_black_white_input_is_unchanged() {
    // A grid that is already pure black/white is a fixed point of both
    // kernels: every pixel quantizes exactly and leaves zero error.
    let w = px(255, 255, 255, 255);
    let b = px(0, 0, 0, 255);
    let g = column_major(2, 2, &[w, b, b, w]);
    for out in [atkinson(&g), floyd_steinberg(&g)] {
        assert!(out.get(0, 0));
        assert!(!out.get(0, 1));
        assert!(!out.get(1, 0));
        assert!(out.get(1, 1));
    }
}
