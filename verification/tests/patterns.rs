use testcard::card::{draw_crosshair, draw_rect_outline, draw_viewing_card, clamp_rect, fill_rect};
use testcard::patterns::{
    draw_checkerboard, draw_gradient, draw_motion_bar, draw_patches, gradient_value, solid_color,
    GradMode,
};
use testcard::raster::{fill_rgb, put_rgb};

const SENTINEL: u8 = 0xAA;

fn staging(stride: usize, h: usize) -> Vec<u8> {
    vec![SENTINEL; stride * h]
}

fn px(buf: &[u8], stride: usize, x: usize, y: usize) -> (u8, u8, u8, u8) {
    let o = y * stride + 4 * x;
    (buf[o + 2], buf[o + 1], buf[o], buf[o + 3])
}

fn assert_no_sentinel_in_raster(buf: &[u8], stride: usize, w: usize, h: usize) {
    // every written pixel carries full alpha, so a surviving sentinel in
    // the alpha byte means the pixel was never painted
    for y in 0..h {
        for x in 0..w {
            let o = y * stride + 4 * x;
            assert_eq!(buf[o + 3], 0xff, "pixel ({}, {}) was not painted", x, y);
        }
    }
}

#[test]
fn palette_holds_the_six_fixed_colors() {
    assert_eq!(solid_color(0), (255, 0, 0));
    assert_eq!(solid_color(1), (0, 255, 0));
    assert_eq!(solid_color(2), (0, 0, 255));
    assert_eq!(solid_color(3), (255, 255, 255));
    assert_eq!(solid_color(4), (128, 128, 128));
    assert_eq!(solid_color(5), (0, 0, 0));
}

#[test]
fn ramp_formula_exact_values() {
    // value = (t * 255) / (len - 1)
    assert_eq!(gradient_value(0, 3), 0);
    assert_eq!(gradient_value(1, 3), 127);
    assert_eq!(gradient_value(2, 3), 255);
    assert_eq!(gradient_value(0, 1), 0);
    assert_eq!(gradient_value(50, 101), 127);
    assert_eq!(gradient_value(319, 320), 255);
}

#[test]
fn put_rgb_writes_one_pixel() {
    let stride = 16;
    let mut buf = staging(stride, 2);
    put_rgb(&mut buf, stride, 1, 1, 10, 20, 30);
    assert_eq!(px(&buf, stride, 1, 1), (10, 20, 30, 0xff));
    assert_eq!(buf[0], SENTINEL);
    assert_eq!(buf[stride + 3], SENTINEL);
}

#[test]
fn fill_overwrites_every_pixel() {
    let (w, h) = (7, 5);
    let stride = 4 * w + 8;
    let mut buf = staging(stride, h);
    fill_rgb(&mut buf, stride, w, h, 1, 2, 3);
    assert_no_sentinel_in_raster(&buf, stride, w, h);
    for y in 0..h {
        for x in 0..w {
            assert_eq!(px(&buf, stride, x, y), (1, 2, 3, 0xff));
        }
    }
    // row padding keeps the sentinel
    assert_eq!(buf[4 * w], SENTINEL);
}

#[test]
fn every_pattern_overwrites_the_full_raster() {
    let (w, h) = (200, 200);
    let stride = 4 * w;
    let mut buf = staging(stride, h);
    fill_rgb(&mut buf, stride, w, h, 9, 9, 9);
    assert_no_sentinel_in_raster(&buf, stride, w, h);

    let mut buf = staging(stride, h);
    draw_gradient(&mut buf, stride, w, h, GradMode::Luma, false);
    assert_no_sentinel_in_raster(&buf, stride, w, h);

    let mut buf = staging(stride, h);
    draw_gradient(&mut buf, stride, w, h, GradMode::Blue, true);
    assert_no_sentinel_in_raster(&buf, stride, w, h);

    let mut buf = staging(stride, h);
    draw_checkerboard(&mut buf, stride, w, h, 8);
    assert_no_sentinel_in_raster(&buf, stride, w, h);

    let mut buf = staging(stride, h);
    draw_motion_bar(&mut buf, stride, w, h, 40, 8);
    assert_no_sentinel_in_raster(&buf, stride, w, h);

    let mut buf = staging(stride, h);
    draw_patches(&mut buf, stride, w, h);
    assert_no_sentinel_in_raster(&buf, stride, w, h);

    let mut buf = staging(stride, h);
    draw_viewing_card(&mut buf, stride, w, h);
    assert_no_sentinel_in_raster(&buf, stride, w, h);
}

#[test]
fn gradient_identity_ramp() {
    // with 256 columns the horizontal ramp is exactly the column index
    let (w, h) = (256, 2);
    let stride = 4 * w;
    let mut buf = staging(stride, h);
    draw_gradient(&mut buf, stride, w, h, GradMode::Luma, false);
    for x in 0..w {
        let v = x as u8;
        assert_eq!(px(&buf, stride, x, 0), (v, v, v, 0xff));
        assert_eq!(px(&buf, stride, x, 1), (v, v, v, 0xff));
    }
}

#[test]
fn gradient_endpoints_and_monotonicity() {
    for &w in &[2usize, 3, 17, 100, 320] {
        let stride = 4 * w;
        let mut buf = staging(stride, 1);
        draw_gradient(&mut buf, stride, w, 1, GradMode::Red, false);
        let first = px(&buf, stride, 0, 0);
        let last = px(&buf, stride, w - 1, 0);
        assert_eq!(first, (0, 0, 0, 0xff));
        assert_eq!(last, (255, 0, 0, 0xff));
        let mut prev = 0u8;
        for x in 0..w {
            let (r, g, b, _) = px(&buf, stride, x, 0);
            assert_eq!((g, b), (0, 0));
            assert!(r >= prev, "ramp decreased at {}", x);
            prev = r;
        }
    }
}

#[test]
fn gradient_vertical_uses_height() {
    let (w, h) = (3, 52);
    let stride = 4 * w;
    let mut buf = staging(stride, h);
    draw_gradient(&mut buf, stride, w, h, GradMode::Green, true);
    assert_eq!(px(&buf, stride, 0, 0), (0, 0, 0, 0xff));
    assert_eq!(px(&buf, stride, 2, h - 1), (0, 255, 0, 0xff));
    // value depends on the row only
    assert_eq!(px(&buf, stride, 0, 20), px(&buf, stride, 2, 20));
}

#[test]
fn checkerboard_cells_alternate() {
    let (w, h) = (32, 32);
    let stride = 4 * w;
    let mut buf = staging(stride, h);
    draw_checkerboard(&mut buf, stride, w, h, 4);
    let white = (255, 255, 255, 0xff);
    let black = (0, 0, 0, 0xff);
    assert_eq!(px(&buf, stride, 0, 0), white);
    assert_eq!(px(&buf, stride, 3, 3), white);
    assert_eq!(px(&buf, stride, 4, 0), black);
    assert_eq!(px(&buf, stride, 0, 4), black);
    assert_eq!(px(&buf, stride, 4, 4), white);
    // stepping one cell size along x toggles the color, for several cells
    for &cell in &[1usize, 2, 3, 8] {
        let mut buf = staging(stride, h);
        draw_checkerboard(&mut buf, stride, w, h, cell);
        for y in 0..h {
            for x in 0..(w - cell) {
                let a = px(&buf, stride, x, y);
                let b = px(&buf, stride, x + cell, y);
                assert_ne!(a, b, "cell {} at ({}, {})", cell, x, y);
            }
        }
    }
}

#[test]
fn checkerboard_cell_zero_acts_as_one() {
    let (w, h) = (4, 2);
    let stride = 4 * w;
    let mut a = staging(stride, h);
    let mut b = staging(stride, h);
    draw_checkerboard(&mut a, stride, w, h, 0);
    draw_checkerboard(&mut b, stride, w, h, 1);
    assert_eq!(a, b);
}

#[test]
fn motion_bar_on_gray_background() {
    let (w, h) = (320, 4);
    let stride = 4 * w;
    let mut buf = staging(stride, h);
    draw_motion_bar(&mut buf, stride, w, h, 100, 8);
    let gray = (128, 128, 128, 0xff);
    let bright = (230, 230, 230, 0xff);
    for x in 0..w {
        let want = if (100..108).contains(&x) { bright } else { gray };
        assert_eq!(px(&buf, stride, x, 2), want, "column {}", x);
    }
}

#[test]
fn motion_bar_truncates_at_right_edge() {
    let (w, h) = (20, 1);
    let stride = 4 * w;
    let mut buf = staging(stride, h);
    draw_motion_bar(&mut buf, stride, w, h, 16, 8);
    let bright = (230, 230, 230, 0xff);
    let gray = (128, 128, 128, 0xff);
    assert_eq!(px(&buf, stride, 15, 0), gray);
    assert_eq!(px(&buf, stride, 16, 0), bright);
    assert_eq!(px(&buf, stride, 19, 0), bright);
}

#[test]
fn patches_steps_and_background() {
    let (w, h) = (200, 200);
    let stride = 4 * w;
    let mut buf = staging(stride, h);
    draw_patches(&mut buf, stride, w, h);
    // area = max(200/5, 64) = 64, cell = 12
    // near-black steps: rows [12*i, 12*(i+1)) of columns [0, 64) hold i+1
    assert_eq!(px(&buf, stride, 0, 0), (1, 1, 1, 0xff));
    assert_eq!(px(&buf, stride, 63, 13), (2, 2, 2, 0xff));
    assert_eq!(px(&buf, stride, 10, 59), (5, 5, 5, 0xff));
    // background
    assert_eq!(px(&buf, stride, 100, 100), (32, 32, 32, 0xff));
    // near-white steps fill the bottom-right corner: columns [136, 200),
    // step i spans rows [136 + 12*i, 136 + 12*(i+1)) with value 250 + i
    assert_eq!(px(&buf, stride, 136, 136), (250, 250, 250, 0xff));
    assert_eq!(px(&buf, stride, 150, 150), (251, 251, 251, 0xff));
    assert_eq!(px(&buf, stride, 199, 195), (254, 254, 254, 0xff));
    // below the last step and left of the block the background remains
    assert_eq!(px(&buf, stride, 140, 197), (32, 32, 32, 0xff));
    assert_eq!(px(&buf, stride, 100, 150), (32, 32, 32, 0xff));
}

#[test]
fn patches_bright_steps_cover_darks_on_a_tiny_display() {
    // w = h = 64: area = 64, cell = 12, so both corner blocks span the
    // whole width and the near-white steps, painted second, win
    let (w, h) = (64, 64);
    let stride = 4 * w;
    let mut buf = staging(stride, h);
    draw_patches(&mut buf, stride, w, h);
    assert_eq!(px(&buf, stride, 0, 0), (250, 250, 250, 0xff));
    assert_eq!(px(&buf, stride, 30, 12), (251, 251, 251, 0xff));
    assert_eq!(px(&buf, stride, 63, 59), (254, 254, 254, 0xff));
    // rows past the five steps keep the background
    assert_eq!(px(&buf, stride, 5, 60), (32, 32, 32, 0xff));
}

#[test]
fn clamp_rect_clips_to_display() {
    // a negative origin is floored at zero; the size is cut only at the
    // far display edge
    assert_eq!(clamp_rect(-5, -5, 10, 10, 20, 20), (0, 0, 10, 10));
    assert_eq!(clamp_rect(18, 2, 10, 4, 20, 20), (18, 2, 2, 4));
    assert_eq!(clamp_rect(25, 0, 10, 10, 20, 20), (0, 0, 0, 10));
    assert_eq!(clamp_rect(0, 30, 10, 10, 20, 20), (0, 0, 10, 0));
    assert_eq!(clamp_rect(3, 4, 5, 6, 20, 20), (3, 4, 5, 6));
}

#[test]
fn fill_rect_clips_and_paints() {
    let (w, h) = (8, 8);
    let stride = 4 * w;
    let mut buf = staging(stride, h);
    fill_rect(&mut buf, stride, w, h, -2, -2, 4, 4, 7, 8, 9);
    // the clamped rectangle starts at the origin and keeps its 4 x 4 size
    assert_eq!(px(&buf, stride, 0, 0), (7, 8, 9, 0xff));
    assert_eq!(px(&buf, stride, 3, 3), (7, 8, 9, 0xff));
    assert_eq!(buf[1 * stride + 4 * 4], SENTINEL);
    assert_eq!(buf[4 * stride], SENTINEL);
}

#[test]
fn rect_outline_frames_the_rect() {
    let (w, h) = (16, 12);
    let stride = 4 * w;
    let mut buf = staging(stride, h);
    draw_rect_outline(&mut buf, stride, w, h, 0, 0, w, h, 2, 5, 6, 7);
    let c = (5, 6, 7, 0xff);
    assert_eq!(px(&buf, stride, 0, 0), c);
    assert_eq!(px(&buf, stride, w - 1, h - 1), c);
    assert_eq!(px(&buf, stride, 8, 1), c);
    assert_eq!(px(&buf, stride, 1, 6), c);
    assert_eq!(px(&buf, stride, w - 2, 6), c);
    // interior untouched
    assert_eq!(buf[6 * stride + 4 * 8], SENTINEL);
}

#[test]
fn crosshair_paints_center_lines() {
    let (w, h) = (11, 7);
    let stride = 4 * w;
    let mut buf = staging(stride, h);
    draw_crosshair(&mut buf, stride, w, h, 255, 255, 0);
    let c = (255, 255, 0, 0xff);
    for x in 0..w {
        assert_eq!(px(&buf, stride, x, 3), c);
    }
    for y in 0..h {
        assert_eq!(px(&buf, stride, 5, y), c);
    }
    assert_eq!(buf[0], SENTINEL);
}

#[test]
fn viewing_card_landmarks() {
    let (w, h) = (400, 300);
    let stride = 4 * w;
    let mut buf = staging(stride, h);
    draw_viewing_card(&mut buf, stride, w, h);
    // t = 2, box_w = 80, box_h = 80, seg = 26
    let white = (255, 255, 255, 0xff);
    let yellow = (255, 255, 0, 0xff);
    // border
    assert_eq!(px(&buf, stride, 0, 0), white);
    assert_eq!(px(&buf, stride, w - 1, h - 1), white);
    // crosshair
    assert_eq!(px(&buf, stride, w / 2, 10), yellow);
    assert_eq!(px(&buf, stride, 10, h / 2), yellow);
    // top-left white box starts at (4, 4)
    assert_eq!(px(&buf, stride, 10, 10), white);
    // top-right checker: its first cell is white
    assert_eq!(px(&buf, stride, w - 80 - 4, 4), white);
    // color bars: first bar red, second green, third blue
    let bar_y = h - 4 - 40;
    assert_eq!(px(&buf, stride, 4 + 13, bar_y), (255, 0, 0, 0xff));
    assert_eq!(px(&buf, stride, 4 + 26 + 13, bar_y), (0, 255, 0, 0xff));
    assert_eq!(px(&buf, stride, 4 + 52 + 13, bar_y), (0, 0, 255, 0xff));
    // black background between the corner boxes, off the crosshair
    assert_eq!(px(&buf, stride, 150, 20), (0, 0, 0, 0xff));
}
