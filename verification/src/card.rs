//! Rectangle helpers and the full alignment/viewing card.
//!
//! Rectangles given in signed coordinates are clamped to the display before
//! painting; clipping happens here, never in the pixel primitive. The
//! viewing card composes a border, corner probes, color bars and a center
//! crosshair out of these helpers, and its contract pins every pixel.

use vstd::prelude::*;

verus! {

use vstd::arithmetic::div_mod::lemma_div_nonincreasing;
use vstd::arithmetic::mul::{lemma_mul_inequality, lemma_mul_left_inequality};
use crate::raster::{
    fill_rect_px,
    fill_rgb,
    in_rect_bytes,
    lemma_off_locate,
    lemma_put_keeps_others,
    lemma_rows_fit,
    put_rgb,
    px_off,
    px_same,
    rgb3_at,
    rgb_at,
};

/// The rectangle at (x, y) with size w x h, clamped to a ww x hh display:
/// start coordinates floored at zero, sizes cut at the display edge, and a
/// rectangle starting past the edge collapsed to an empty one at the origin.
pub open spec fn clamp_spec(x: int, y: int, w: int, h: int, ww: int, hh: int) -> (
    int,
    int,
    int,
    int,
) {
    let cx = if x >= 0 {
        x
    } else {
        0
    };
    let cy = if y >= 0 {
        y
    } else {
        0
    };
    let aw = if ww >= cx {
        ww - cx
    } else {
        0
    };
    let ah = if hh >= cy {
        hh - cy
    } else {
        0
    };
    let rw = if w <= aw {
        w
    } else {
        aw
    };
    let rh = if h <= ah {
        h
    } else {
        ah
    };
    let fx = if cx >= ww {
        0
    } else {
        cx
    };
    let fw = if cx >= ww {
        0
    } else {
        rw
    };
    let fy = if cy >= hh {
        0
    } else {
        cy
    };
    let fh = if cy >= hh {
        0
    } else {
        rh
    };
    (fx, fy, fw, fh)
}

/// Pixel (px, py) lies inside the clamped rectangle.
pub open spec fn in_clamped(
    x: int,
    y: int,
    w: int,
    h: int,
    ww: int,
    hh: int,
    px: int,
    py: int,
) -> bool {
    let c = clamp_spec(x, y, w, h, ww, hh);
    &&& c.0 <= px < c.0 + c.2
    &&& c.1 <= py < c.1 + c.3
}

/// Clamps a signed rectangle to the display, returning its start and size.
pub fn clamp_rect(x: isize, y: isize, w: usize, h: usize, ww: usize, hh: usize) -> (r: (
    usize,
    usize,
    usize,
    usize,
))
    ensures
        (r.0 as int, r.1 as int, r.2 as int, r.3 as int)
            == clamp_spec(x as int, y as int, w as int, h as int, ww as int, hh as int),
        r.0 + r.2 <= ww,
        r.1 + r.3 <= hh,
{
    let cx: usize = if x >= 0 {
        x as usize
    } else {
        0
    };
    let cy: usize = if y >= 0 {
        y as usize
    } else {
        0
    };
    let aw: usize = if ww >= cx {
        ww - cx
    } else {
        0
    };
    let ah: usize = if hh >= cy {
        hh - cy
    } else {
        0
    };
    let rw: usize = if w <= aw {
        w
    } else {
        aw
    };
    let rh: usize = if h <= ah {
        h
    } else {
        ah
    };
    let mut fx: usize = cx;
    let mut fw: usize = rw;
    let mut fy: usize = cy;
    let mut fh: usize = rh;
    if cx >= ww {
        fx = 0;
        fw = 0;
    }
    if cy >= hh {
        fy = 0;
        fh = 0;
    }
    (fx, fy, fw, fh)
}

/// Fills the clamped rectangle with one color. Pixels outside it, and all
/// bytes outside its byte region, keep their values.
pub fn fill_rect(
    buf: &mut Vec<u8>,
    stride: usize,
    ww: usize,
    hh: usize,
    x: isize,
    y: isize,
    w: usize,
    h: usize,
    r: u8,
    g: u8,
    b: u8,
)
    requires
        stride >= 1,
        4 * (ww as int) <= stride as int,
        (hh as int) * (stride as int) <= old(buf)@.len(),
    ensures
        final(buf)@.len() == old(buf)@.len(),
        forall|px: int, py: int|
            in_clamped(x as int, y as int, w as int, h as int, ww as int, hh as int, px, py)
                ==> rgb_at(final(buf)@, stride as int, px, py, r, g, b),
        forall|px: int, py: int|
            0 <= px && 0 <= py && 4 * px + 4 <= stride as int
                && (py + 1) * (stride as int) <= old(buf)@.len()
                && !in_clamped(x as int, y as int, w as int, h as int, ww as int, hh as int, px, py)
                ==> px_same(final(buf)@, old(buf)@, stride as int, px, py),
        forall|i: int|
            0 <= i < old(buf)@.len()
                && !in_rect_bytes(stride as int, 0, 0, ww as int, hh as int, i)
                ==> final(buf)@[i] == old(buf)@[i],
{
    let (cx, cy, cw, ch) = clamp_rect(x, y, w, h, ww, hh);
    proof {
        lemma_mul_inequality(cy as int + ch as int, hh as int, stride as int);
    }
    fill_rect_px(buf, stride, cx, cy, cx + cw, cy + ch, r, g, b);
    proof {
        let st = stride as int;
        assert forall|i: int|
            0 <= i < old(buf)@.len() && !in_rect_bytes(st, 0, 0, ww as int, hh as int, i)
            implies buf@[i] == old(buf)@[i]
        by {
            assert(!in_rect_bytes(st, cx as int, cy as int, cx as int + cw as int, cy as int + ch as int, i));
        }
    }
}

/// Pixel (px, py) lies on the rectangle outline: in one of its four
/// t-thick edge strips, each clamped to the display.
pub open spec fn in_outline(
    x: int,
    y: int,
    w: int,
    h: int,
    t: int,
    ww: int,
    hh: int,
    px: int,
    py: int,
) -> bool {
    ||| in_clamped(x, y, w, t, ww, hh, px, py)
    ||| in_clamped(x, y + h - t, w, t, ww, hh, px, py)
    ||| in_clamped(x, y, t, h, ww, hh, px, py)
    ||| in_clamped(x + w - t, y, t, h, ww, hh, px, py)
}

/// Draws a t-thick rectangle outline: top and bottom strips of width w,
/// left and right strips of height h, each clamped to the display.
pub fn draw_rect_outline(
    buf: &mut Vec<u8>,
    stride: usize,
    ww: usize,
    hh: usize,
    x: isize,
    y: isize,
    w: usize,
    h: usize,
    t: usize,
    r: u8,
    g: u8,
    b: u8,
)
    requires
        stride >= 1,
        4 * (ww as int) <= stride as int,
        (hh as int) * (stride as int) <= old(buf)@.len(),
        isize::MIN as int <= (y as int) + (h as int) - (t as int) <= isize::MAX as int,
        isize::MIN as int <= (x as int) + (w as int) - (t as int) <= isize::MAX as int,
        (h as int) <= isize::MAX as int,
        (w as int) <= isize::MAX as int,
        (t as int) <= isize::MAX as int,
    ensures
        final(buf)@.len() == old(buf)@.len(),
        forall|px: int, py: int|
            in_outline(
                x as int,
                y as int,
                w as int,
                h as int,
                t as int,
                ww as int,
                hh as int,
                px,
                py,
            ) ==> rgb_at(final(buf)@, stride as int, px, py, r, g, b),
        forall|px: int, py: int|
            0 <= px && 0 <= py && 4 * px + 4 <= stride as int
                && (py + 1) * (stride as int) <= old(buf)@.len()
                && !in_outline(
                    x as int,
                    y as int,
                    w as int,
                    h as int,
                    t as int,
                    ww as int,
                    hh as int,
                    px,
                    py,
                ) ==> px_same(final(buf)@, old(buf)@, stride as int, px, py),
        forall|i: int|
            0 <= i < old(buf)@.len()
                && !in_rect_bytes(stride as int, 0, 0, ww as int, hh as int, i)
                ==> final(buf)@[i] == old(buf)@[i],
{
    let ghost st = stride as int;
    let ghost s0 = old(buf)@;
    fill_rect(buf, stride, ww, hh, x, y, w, t, r, g, b);
    let ghost s1 = buf@;
    fill_rect(buf, stride, ww, hh, x, y + (h as isize - t as isize), w, t, r, g, b);
    let ghost s2 = buf@;
    fill_rect(buf, stride, ww, hh, x, y, t, h, r, g, b);
    let ghost s3 = buf@;
    fill_rect(buf, stride, ww, hh, x + (w as isize - t as isize), y, t, h, r, g, b);
    proof {
        let xi = x as int;
        let yi = y as int;
        let wi = w as int;
        let hi = h as int;
        let ti = t as int;
        let wwi = ww as int;
        let hhi = hh as int;
        assert forall|px: int, py: int|
            in_outline(xi, yi, wi, hi, ti, wwi, hhi, px, py)
            implies rgb_at(buf@, st, px, py, r, g, b)
        by {
            let c = clamp_spec(xi, yi, wi, ti, wwi, hhi);
            let cb = clamp_spec(xi, yi + hi - ti, wi, ti, wwi, hhi);
            let cl = clamp_spec(xi, yi, ti, hi, wwi, hhi);
            let cr = clamp_spec(xi + wi - ti, yi, ti, hi, wwi, hhi);
            assert(0 <= px < wwi && 0 <= py < hhi);
            lemma_rows_fit(st, hhi, s0.len() as int);
            assert((py + 1) * st <= s0.len());
            if in_clamped(xi + wi - ti, yi, ti, hi, wwi, hhi, px, py) {
            } else if in_clamped(xi, yi, ti, hi, wwi, hhi, px, py) {
                assert(rgb_at(s3, st, px, py, r, g, b));
                assert(px_same(buf@, s3, st, px, py));
            } else if in_clamped(xi, yi + hi - ti, wi, ti, wwi, hhi, px, py) {
                assert(rgb_at(s2, st, px, py, r, g, b));
                assert(px_same(s3, s2, st, px, py));
                assert(px_same(buf@, s3, st, px, py));
            } else {
                assert(rgb_at(s1, st, px, py, r, g, b));
                assert(px_same(s2, s1, st, px, py));
                assert(px_same(s3, s2, st, px, py));
                assert(px_same(buf@, s3, st, px, py));
            }
        }
        assert forall|px: int, py: int|
            0 <= px && 0 <= py && 4 * px + 4 <= st && (py + 1) * st <= s0.len()
                && !in_outline(xi, yi, wi, hi, ti, wwi, hhi, px, py)
            implies px_same(buf@, s0, st, px, py)
        by {
            assert(px_same(s1, s0, st, px, py));
            assert(px_same(s2, s1, st, px, py));
            assert(px_same(s3, s2, st, px, py));
            assert(px_same(buf@, s3, st, px, py));
        }
    }
}

/// Draws a one-pixel crosshair through the display center: the full middle
/// row and the full middle column.
pub fn draw_crosshair(buf: &mut Vec<u8>, stride: usize, w: usize, h: usize, r: u8, g: u8, b: u8)
    requires
        stride >= 1,
        w >= 1,
        h >= 1,
        4 * (w as int) <= stride as int,
        (h as int) * (stride as int) <= old(buf)@.len(),
    ensures
        final(buf)@.len() == old(buf)@.len(),
        forall|px: int, py: int|
            0 <= px < w && 0 <= py < h && (px == w as int / 2 || py == h as int / 2)
                ==> rgb_at(final(buf)@, stride as int, px, py, r, g, b),
        forall|px: int, py: int|
            0 <= px && 0 <= py && 4 * px + 4 <= stride as int
                && (py + 1) * (stride as int) <= old(buf)@.len()
                && px != w as int / 2 && py != h as int / 2
                ==> px_same(final(buf)@, old(buf)@, stride as int, px, py),
        forall|i: int|
            0 <= i < old(buf)@.len()
                && !in_rect_bytes(stride as int, 0, 0, w as int, h as int, i)
                ==> final(buf)@[i] == old(buf)@[i],
{
    let ghost st = stride as int;
    let ghost s0 = old(buf)@;
    let cx: usize = w / 2;
    let cy: usize = h / 2;
    proof {
        lemma_mul_inequality(cy as int + 1, h as int, st);
    }
    fill_rect_px(buf, stride, 0, cy, w, cy + 1, r, g, b);
    let ghost s1 = buf@;
    fill_rect_px(buf, stride, cx, 0, cx + 1, h, r, g, b);
    proof {
        assert forall|px: int, py: int|
            0 <= px < w && 0 <= py < h && (px == w as int / 2 || py == h as int / 2)
            implies rgb_at(buf@, st, px, py, r, g, b)
        by {
            lemma_rows_fit(st, h as int, s0.len() as int);
            assert((py + 1) * st <= s0.len());
            if px != cx as int {
                assert(rgb_at(s1, st, px, py, r, g, b));
                assert(px_same(buf@, s1, st, px, py));
            }
        }
        assert forall|px: int, py: int|
            0 <= px && 0 <= py && 4 * px + 4 <= st && (py + 1) * st <= s0.len()
                && px != w as int / 2 && py != h as int / 2
            implies px_same(buf@, s0, st, px, py)
        by {
            assert(px_same(s1, s0, st, px, py));
            assert(px_same(buf@, s1, st, px, py));
        }
    }
}

/// Border thickness of the viewing card.
pub open spec fn card_t(w: int, h: int) -> int {
    let m = (if w <= h {
        w
    } else {
        h
    }) / 200;
    if m >= 2 {
        m
    } else {
        2
    }
}

/// Width of the card's corner boxes.
pub open spec fn card_box_w(w: int) -> int {
    if w / 5 >= 80 {
        w / 5
    } else {
        80
    }
}

/// Height of the card's corner boxes.
pub open spec fn card_box_h(h: int) -> int {
    if h / 5 >= 80 {
        h / 5
    } else {
        80
    }
}

/// Cell size of the card's fine checker probe.
pub open spec fn card_cell(w: int) -> int {
    let c = card_box_w(w) / 12;
    if c >= 2 {
        c
    } else {
        2
    }
}

/// Width of one of the card's three color bars.
pub open spec fn card_seg(w: int) -> int {
    let s = card_box_w(w) / 3;
    if s >= 8 {
        s
    } else {
        8
    }
}

/// Fine-checker pixel color at box-relative coordinates.
pub open spec fn checker_box_rgb(cell: int, xr: int, yr: int) -> (u8, u8, u8) {
    if (xr / cell + yr / cell) % 2 == 0 {
        (255u8, 255u8, 255u8)
    } else {
        (0u8, 0u8, 0u8)
    }
}

/// Diagonal-stripe pixel color at box-relative coordinates.
pub open spec fn stripe_box_rgb(xr: int, yr: int) -> (u8, u8, u8) {
    if ((xr + yr) / 8) % 2 == 0 {
        (220u8, 220u8, 220u8)
    } else {
        (30u8, 30u8, 30u8)
    }
}

/// Card pixel color after background and border.
pub open spec fn card_base(w: int, h: int, x: int, y: int) -> (u8, u8, u8) {
    if in_outline(0, 0, w, h, card_t(w, h), w, h, x, y) {
        (255u8, 255u8, 255u8)
    } else {
        (0u8, 0u8, 0u8)
    }
}

/// Card pixel color after the top-left white box.
pub open spec fn card_after_tl(w: int, h: int, x: int, y: int) -> (u8, u8, u8) {
    let t = card_t(w, h);
    if 2 * t <= x < 2 * t + card_box_w(w) && 2 * t <= y < 2 * t + card_box_h(h) {
        (255u8, 255u8, 255u8)
    } else {
        card_base(w, h, x, y)
    }
}

/// Card pixel color after the top-right fine-checker box.
pub open spec fn card_after_tr(w: int, h: int, x: int, y: int) -> (u8, u8, u8) {
    let t = card_t(w, h);
    let bw = card_box_w(w);
    if w - bw - 2 * t <= x < w - 2 * t && 2 * t <= y < 2 * t + card_box_h(h) {
        checker_box_rgb(card_cell(w), x - (w - bw - 2 * t), y - 2 * t)
    } else {
        card_after_tl(w, h, x, y)
    }
}

/// Card pixel color after the three bottom-left color bars.
pub open spec fn card_after_bars(w: int, h: int, x: int, y: int) -> (u8, u8, u8) {
    let t = card_t(w, h);
    let s = card_seg(w);
    let in_rows = h - card_box_h(h) - 2 * t <= y < h - 2 * t;
    if in_rows && 2 * t + 2 * s <= x < 2 * t + 3 * s {
        (0u8, 0u8, 255u8)
    } else if in_rows && 2 * t + s <= x < 2 * t + 2 * s {
        (0u8, 255u8, 0u8)
    } else if in_rows && 2 * t <= x < 2 * t + s {
        (255u8, 0u8, 0u8)
    } else {
        card_after_tr(w, h, x, y)
    }
}

/// Card pixel color after the bottom-right diagonal-stripe box.
pub open spec fn card_after_stripes(w: int, h: int, x: int, y: int) -> (u8, u8, u8) {
    let t = card_t(w, h);
    let bw = card_box_w(w);
    let bh = card_box_h(h);
    if w - bw - 2 * t <= x < w - 2 * t && h - bh - 2 * t <= y < h - 2 * t {
        stripe_box_rgb(x - (w - bw - 2 * t), y - (h - bh - 2 * t))
    } else {
        card_after_bars(w, h, x, y)
    }
}

/// Final card pixel color: the yellow center crosshair over everything else.
pub open spec fn card_rgb(w: int, h: int, x: int, y: int) -> (u8, u8, u8) {
    if x == w / 2 || y == h / 2 {
        (255u8, 255u8, 0u8)
    } else {
        card_after_stripes(w, h, x, y)
    }
}

/// Paints the fine checker probe into the box at (bx, by).
#[verifier::loop_isolation(false)]
fn draw_checker_box(
    buf: &mut Vec<u8>,
    stride: usize,
    bx: usize,
    by: usize,
    bw: usize,
    bh: usize,
    cell: usize,
)
    requires
        stride >= 1,
        cell >= 1,
        4 * (bx as int + bw as int) <= stride as int,
        (by as int + bh as int) * (stride as int) <= old(buf)@.len(),
    ensures
        final(buf)@.len() == old(buf)@.len(),
        forall|px: int, py: int|
            #![trigger px_off(stride as int, px, py)]
            bx <= px < bx as int + bw as int && by <= py < by as int + bh as int
                ==> rgb3_at(
                    final(buf)@,
                    stride as int,
                    px,
                    py,
                    checker_box_rgb(cell as int, px - bx as int, py - by as int),
                ),
        forall|px: int, py: int|
            0 <= px && 0 <= py && 4 * px + 4 <= stride as int
                && (py + 1) * (stride as int) <= old(buf)@.len()
                && !(bx <= px < bx as int + bw as int && by <= py < by as int + bh as int)
                ==> px_same(final(buf)@, old(buf)@, stride as int, px, py),
        forall|i: int|
            0 <= i < old(buf)@.len()
                && !in_rect_bytes(
                    stride as int,
                    bx as int,
                    by as int,
                    bx as int + bw as int,
                    by as int + bh as int,
                    i,
                ) ==> final(buf)@[i] == old(buf)@[i],
{
    let ghost st = stride as int;
    let ghost bxi = bx as int;
    let ghost byi = by as int;
    let ghost x1i = bx as int + bw as int;
    let ghost y1i = by as int + bh as int;
    let ghost ci = cell as int;
    let n: usize = buf.len();
    proof {
        assert(old(buf)@.len() == n as int);
    }
    let mut yy: usize = 0;
    while yy < bh
        invariant
            yy <= bh,
            buf@.len() == old(buf)@.len(),
            forall|px: int, py: int|
                #![trigger px_off(st, px, py)]
                bxi <= px < x1i && byi <= py < byi + yy as int
                    ==> rgb3_at(buf@, st, px, py, checker_box_rgb(ci, px - bxi, py - byi)),
            forall|i: int|
                0 <= i < old(buf)@.len()
                    && !in_rect_bytes(st, bxi, byi, x1i, byi + yy as int, i)
                    ==> buf@[i] == old(buf)@[i],
        decreases bh - yy,
    {
        let mut xx: usize = 0;
        while xx < bw
            invariant
                yy < bh,
                xx <= bw,
                buf@.len() == old(buf)@.len(),
                forall|px: int, py: int|
                    #![trigger px_off(st, px, py)]
                    bxi <= px < x1i && byi <= py < byi + yy as int
                        ==> rgb3_at(buf@, st, px, py, checker_box_rgb(ci, px - bxi, py - byi)),
                forall|px: int, py: int|
                    #![trigger px_off(st, px, py)]
                    bxi <= px < bxi + xx as int && py == byi + yy as int
                        ==> rgb3_at(buf@, st, px, py, checker_box_rgb(ci, px - bxi, py - byi)),
                forall|i: int|
                    0 <= i < old(buf)@.len()
                        && !(in_rect_bytes(st, bxi, byi, x1i, byi + yy as int, i)
                            || in_rect_bytes(st, bxi, byi + yy as int, bxi + xx as int, byi + yy as int + 1, i))
                        ==> buf@[i] == old(buf)@[i],
            decreases bw - xx,
        {
            proof {
                lemma_mul_left_inequality(y1i, 4, st);
                lemma_div_nonincreasing(xx as int, ci);
                lemma_div_nonincreasing(yy as int, ci);
            }
            let on: bool = (xx / cell + yy / cell) % 2 == 0;
            let v: u8 = if on {
                255
            } else {
                0
            };
            proof {
                lemma_mul_left_inequality(y1i, 1, st);
            }
            let x = bx + xx;
            let y = by + yy;
            proof {
                assert((v, v, v) == checker_box_rgb(ci, xx as int, yy as int));
                lemma_mul_inequality(y as int + 1, y1i, st);
                assert((y as int + 1) * st == y as int * st + st) by (nonlinear_arith);
            }
            let ghost pre = buf@;
            put_rgb(buf, stride, x, y, v, v, v);
            proof {
                let xi = x as int;
                let yi = y as int;
                let o = px_off(st, xi, yi);
                assert forall|px: int, py: int|
                    #![trigger px_off(st, px, py)]
                    (bxi <= px < x1i && byi <= py < yi) || (bxi <= px < xi && py == yi)
                    implies rgb3_at(buf@, st, px, py, checker_box_rgb(ci, px - bxi, py - byi))
                by {
                    lemma_mul_inequality(py + 1, y1i, st);
                    lemma_put_keeps_others(buf@, pre, st, xi, yi, px, py);
                    assert(rgb3_at(pre, st, px, py, checker_box_rgb(ci, px - bxi, py - byi)));
                }
                assert forall|i: int|
                    0 <= i < old(buf)@.len()
                        && !(in_rect_bytes(st, bxi, byi, x1i, yi, i)
                            || in_rect_bytes(st, bxi, yi, xi + 1, yi + 1, i))
                    implies buf@[i] == old(buf)@[i]
                by {
                    if o <= i < o + 4 {
                        lemma_off_locate(st, xi, yi, i - o);
                    }
                }
            }
            xx += 1;
        }
        yy += 1;
    }
    proof {
        assert forall|px: int, py: int|
            0 <= px && 0 <= py && 4 * px + 4 <= st && (py + 1) * st <= old(buf)@.len()
                && !(bxi <= px < x1i && byi <= py < y1i)
            implies px_same(buf@, old(buf)@, st, px, py)
        by {
            let o = px_off(st, px, py);
            assert(0 <= py * st && (py + 1) * st == py * st + st) by (nonlinear_arith)
                requires
                    st >= 1,
                    0 <= py,
            ;
            lemma_off_locate(st, px, py, 0);
            lemma_off_locate(st, px, py, 1);
            lemma_off_locate(st, px, py, 2);
            lemma_off_locate(st, px, py, 3);
            assert(buf@[o] == old(buf)@[o]);
            assert(buf@[o + 1] == old(buf)@[o + 1]);
            assert(buf@[o + 2] == old(buf)@[o + 2]);
            assert(buf@[o + 3] == old(buf)@[o + 3]);
        }
    }
}

/// Paints the diagonal-stripe probe into the box at (bx, by).
#[verifier::loop_isolation(false)]
fn draw_stripe_box(buf: &mut Vec<u8>, stride: usize, bx: usize, by: usize, bw: usize, bh: usize)
    requires
        stride >= 1,
        4 * (bx as int + bw as int) <= stride as int,
        (by as int + bh as int) * (stride as int) <= old(buf)@.len(),
    ensures
        final(buf)@.len() == old(buf)@.len(),
        forall|px: int, py: int|
            #![trigger px_off(stride as int, px, py)]
            bx <= px < bx as int + bw as int && by <= py < by as int + bh as int
                ==> rgb3_at(
                    final(buf)@,
                    stride as int,
                    px,
                    py,
                    stripe_box_rgb(px - bx as int, py - by as int),
                ),
        forall|px: int, py: int|
            0 <= px && 0 <= py && 4 * px + 4 <= stride as int
                && (py + 1) * (stride as int) <= old(buf)@.len()
                && !(bx <= px < bx as int + bw as int && by <= py < by as int + bh as int)
                ==> px_same(final(buf)@, old(buf)@, stride as int, px, py),
        forall|i: int|
            0 <= i < old(buf)@.len()
                && !in_rect_bytes(
                    stride as int,
                    bx as int,
                    by as int,
                    bx as int + bw as int,
                    by as int + bh as int,
                    i,
                ) ==> final(buf)@[i] == old(buf)@[i],
{
    let ghost st = stride as int;
    let ghost bxi = bx as int;
    let ghost byi = by as int;
    let ghost x1i = bx as int + bw as int;
    let ghost y1i = by as int + bh as int;
    let n: usize = buf.len();
    proof {
        assert(old(buf)@.len() == n as int);
    }
    let mut yy: usize = 0;
    while yy < bh
        invariant
            yy <= bh,
            buf@.len() == old(buf)@.len(),
            forall|px: int, py: int|
                #![trigger px_off(st, px, py)]
                bxi <= px < x1i && byi <= py < byi + yy as int
                    ==> rgb3_at(buf@, st, px, py, stripe_box_rgb(px - bxi, py - byi)),
            forall|i: int|
                0 <= i < old(buf)@.len()
                    && !in_rect_bytes(st, bxi, byi, x1i, byi + yy as int, i)
                    ==> buf@[i] == old(buf)@[i],
        decreases bh - yy,
    {
        let mut xx: usize = 0;
        while xx < bw
            invariant
                yy < bh,
                xx <= bw,
                buf@.len() == old(buf)@.len(),
                forall|px: int, py: int|
                    #![trigger px_off(st, px, py)]
                    bxi <= px < x1i && byi <= py < byi + yy as int
                        ==> rgb3_at(buf@, st, px, py, stripe_box_rgb(px - bxi, py - byi)),
                forall|px: int, py: int|
                    #![trigger px_off(st, px, py)]
                    bxi <= px < bxi + xx as int && py == byi + yy as int
                        ==> rgb3_at(buf@, st, px, py, stripe_box_rgb(px - bxi, py - byi)),
                forall|i: int|
                    0 <= i < old(buf)@.len()
                        && !(in_rect_bytes(st, bxi, byi, x1i, byi + yy as int, i)
                            || in_rect_bytes(st, bxi, byi + yy as int, bxi + xx as int, byi + yy as int + 1, i))
                        ==> buf@[i] == old(buf)@[i],
            decreases bw - xx,
        {
            proof {
                lemma_mul_left_inequality(y1i, 1, st);
                lemma_mul_left_inequality(y1i, 4, st);
            }
            let v: u8 = if ((xx + yy) / 8) % 2 == 0 {
                220
            } else {
                30
            };
            let x = bx + xx;
            let y = by + yy;
            proof {
                assert((v, v, v) == stripe_box_rgb(xx as int, yy as int));
                lemma_mul_inequality(y as int + 1, y1i, st);
                assert((y as int + 1) * st == y as int * st + st) by (nonlinear_arith);
            }
            let ghost pre = buf@;
            put_rgb(buf, stride, x, y, v, v, v);
            proof {
                let xi = x as int;
                let yi = y as int;
                let o = px_off(st, xi, yi);
                assert forall|px: int, py: int|
                    #![trigger px_off(st, px, py)]
                    (bxi <= px < x1i && byi <= py < yi) || (bxi <= px < xi && py == yi)
                    implies rgb3_at(buf@, st, px, py, stripe_box_rgb(px - bxi, py - byi))
                by {
                    lemma_mul_inequality(py + 1, y1i, st);
                    lemma_put_keeps_others(buf@, pre, st, xi, yi, px, py);
                    assert(rgb3_at(pre, st, px, py, stripe_box_rgb(px - bxi, py - byi)));
                }
                assert forall|i: int|
                    0 <= i < old(buf)@.len()
                        && !(in_rect_bytes(st, bxi, byi, x1i, yi, i)
                            || in_rect_bytes(st, bxi, yi, xi + 1, yi + 1, i))
                    implies buf@[i] == old(buf)@[i]
                by {
                    if o <= i < o + 4 {
                        lemma_off_locate(st, xi, yi, i - o);
                    }
                }
            }
            xx += 1;
        }
        yy += 1;
    }
    proof {
        assert forall|px: int, py: int|
            0 <= px && 0 <= py && 4 * px + 4 <= st && (py + 1) * st <= old(buf)@.len()
                && !(bxi <= px < x1i && byi <= py < y1i)
            implies px_same(buf@, old(buf)@, st, px, py)
        by {
            let o = px_off(st, px, py);
            assert(0 <= py * st && (py + 1) * st == py * st + st) by (nonlinear_arith)
                requires
                    st >= 1,
                    0 <= py,
            ;
            lemma_off_locate(st, px, py, 0);
            lemma_off_locate(st, px, py, 1);
            lemma_off_locate(st, px, py, 2);
            lemma_off_locate(st, px, py, 3);
            assert(buf@[o] == old(buf)@[o]);
            assert(buf@[o + 1] == old(buf)@[o + 1]);
            assert(buf@[o + 2] == old(buf)@[o + 2]);
            assert(buf@[o + 3] == old(buf)@[o + 3]);
        }
    }
}

/// Paints the full alignment/viewing card: black background, white border,
/// a white top-left box, a fine checker probe top-right, three color bars
/// bottom-left, diagonal luminance stripes bottom-right, and a yellow
/// center crosshair.
#[verifier::rlimit(100)]
pub fn draw_viewing_card(buf: &mut Vec<u8>, stride: usize, w: usize, h: usize)
    requires
        stride >= 1,
        4 * (w as int) <= stride as int,
        (h as int) * (stride as int) <= old(buf)@.len(),
        (w as int) >= card_box_w(w as int) + 2 * card_t(w as int, h as int),
        (h as int) >= card_box_h(h as int) + 2 * card_t(w as int, h as int),
    ensures
        final(buf)@.len() == old(buf)@.len(),
        forall|px: int, py: int|
            #![trigger px_off(stride as int, px, py)]
            0 <= px < w && 0 <= py < h
                ==> rgb3_at(final(buf)@, stride as int, px, py, card_rgb(w as int, h as int, px, py)),
        forall|i: int|
            0 <= i < old(buf)@.len()
                && !in_rect_bytes(stride as int, 0, 0, w as int, h as int, i)
                ==> final(buf)@[i] == old(buf)@[i],
{
    let ghost st = stride as int;
    let ghost wi = w as int;
    let ghost hi = h as int;
    let n: usize = buf.len();
    proof {
        assert(old(buf)@.len() == n as int);
        lemma_rows_fit(st, hi, old(buf)@.len() as int);
        lemma_mul_left_inequality(hi, 2, st);
    }
    let mn: usize = if w <= h {
        w
    } else {
        h
    };
    let t0: usize = mn / 200;
    let t: usize = if t0 >= 2 {
        t0
    } else {
        2
    };
    let bw0: usize = w / 5;
    let bxw: usize = if bw0 >= 80 {
        bw0
    } else {
        80
    };
    let bh0: usize = h / 5;
    let bxh: usize = if bh0 >= 80 {
        bh0
    } else {
        80
    };
    let cell0: usize = bxw / 12;
    let cellc: usize = if cell0 >= 2 {
        cell0
    } else {
        2
    };
    let seg0: usize = bxw / 3;
    let seg: usize = if seg0 >= 8 {
        seg0
    } else {
        8
    };
    let ghost ti = t as int;
    let ghost bwi = bxw as int;
    let ghost bhi = bxh as int;
    let ghost segi = seg as int;
    proof {
        assert(ti == card_t(wi, hi));
        assert(bwi == card_box_w(wi));
        assert(bhi == card_box_h(hi));
        assert(cellc as int == card_cell(wi));
        assert(segi == card_seg(wi));
        vstd::arithmetic::div_mod::lemma_fundamental_div_mod(bwi, 3);
        assert(3 * segi <= bwi);
    }
    fill_rgb(buf, stride, w, h, 0, 0, 0);
    let ghost g1 = buf@;
    draw_rect_outline(buf, stride, w, h, 0, 0, w, h, t, 255, 255, 255);
    let ghost g2 = buf@;
    proof {
        assert forall|px: int, py: int|
            #![trigger px_off(st, px, py)]
            0 <= px < wi && 0 <= py < hi
            implies rgb3_at(g2, st, px, py, card_base(wi, hi, px, py))
        by {
            assert((py + 1) * st <= old(buf)@.len());
            if !in_outline(0, 0, wi, hi, ti, wi, hi, px, py) {
                assert(px_same(g2, g1, st, px, py));
                assert(rgb_at(g1, st, px, py, 0u8, 0u8, 0u8));
            }
        }
    }
    let t2: usize = t * 2;
    proof {
        lemma_mul_inequality(t2 as int + bhi, hi, st);
    }
    fill_rect_px(buf, stride, t2, t2, t2 + bxw, t2 + bxh, 255, 255, 255);
    let ghost g3 = buf@;
    proof {
        assert forall|px: int, py: int|
            #![trigger px_off(st, px, py)]
            0 <= px < wi && 0 <= py < hi
            implies rgb3_at(g3, st, px, py, card_after_tl(wi, hi, px, py))
        by {
            assert((py + 1) * st <= old(buf)@.len());
            if !(t2 <= px < t2 as int + bwi && t2 <= py < t2 as int + bhi) {
                assert(px_same(g3, g2, st, px, py));
                assert(rgb3_at(g2, st, px, py, card_base(wi, hi, px, py)));
            }
        }
    }
    let cbx: usize = w - bxw - t2;
    draw_checker_box(buf, stride, cbx, t2, bxw, bxh, cellc);
    let ghost g4 = buf@;
    proof {
        assert forall|px: int, py: int|
            #![trigger px_off(st, px, py)]
            0 <= px < wi && 0 <= py < hi
            implies rgb3_at(g4, st, px, py, card_after_tr(wi, hi, px, py))
        by {
            assert((py + 1) * st <= old(buf)@.len());
            if !(cbx <= px < cbx as int + bwi && t2 <= py < t2 as int + bhi) {
                assert(px_same(g4, g3, st, px, py));
                assert(rgb3_at(g3, st, px, py, card_after_tl(wi, hi, px, py)));
            }
        }
    }
    let bary: usize = h - bxh - t2;
    let barb: usize = h - t2;
    proof {
        lemma_mul_inequality(barb as int, hi, st);
    }
    fill_rect_px(buf, stride, t2, bary, t2 + seg, barb, 255, 0, 0);
    let ghost b1 = buf@;
    fill_rect_px(buf, stride, t2 + seg, bary, t2 + 2 * seg, barb, 0, 255, 0);
    let ghost b2 = buf@;
    fill_rect_px(buf, stride, t2 + 2 * seg, bary, t2 + 3 * seg, barb, 0, 0, 255);
    let ghost g5 = buf@;
    proof {
        assert forall|px: int, py: int|
            #![trigger px_off(st, px, py)]
            0 <= px < wi && 0 <= py < hi
            implies rgb3_at(g5, st, px, py, card_after_bars(wi, hi, px, py))
        by {
            assert((py + 1) * st <= old(buf)@.len());
            let in_rows = bary <= py < barb;
            if in_rows && t2 as int + 2 * segi <= px < t2 as int + 3 * segi {
            } else if in_rows && t2 as int + segi <= px < t2 as int + 2 * segi {
                assert(rgb_at(b2, st, px, py, 0u8, 255u8, 0u8));
                assert(px_same(g5, b2, st, px, py));
            } else if in_rows && t2 <= px < t2 as int + segi {
                assert(rgb_at(b1, st, px, py, 255u8, 0u8, 0u8));
                assert(px_same(b2, b1, st, px, py));
                assert(px_same(g5, b2, st, px, py));
            } else {
                assert(rgb3_at(g4, st, px, py, card_after_tr(wi, hi, px, py)));
                assert(px_same(b1, g4, st, px, py));
                assert(px_same(b2, b1, st, px, py));
                assert(px_same(g5, b2, st, px, py));
            }
        }
    }
    draw_stripe_box(buf, stride, cbx, bary, bxw, bxh);
    let ghost g6 = buf@;
    proof {
        assert forall|px: int, py: int|
            #![trigger px_off(st, px, py)]
            0 <= px < wi && 0 <= py < hi
            implies rgb3_at(g6, st, px, py, card_after_stripes(wi, hi, px, py))
        by {
            assert((py + 1) * st <= old(buf)@.len());
            if !(cbx <= px < cbx as int + bwi && bary <= py < bary as int + bhi) {
                assert(px_same(g6, g5, st, px, py));
                assert(rgb3_at(g5, st, px, py, card_after_bars(wi, hi, px, py)));
            }
        }
    }
    draw_crosshair(buf, stride, w, h, 255, 255, 0);
    proof {
        assert forall|px: int, py: int|
            #![trigger px_off(st, px, py)]
            0 <= px < wi && 0 <= py < hi
            implies rgb3_at(buf@, st, px, py, card_rgb(wi, hi, px, py))
        by {
            assert((py + 1) * st <= old(buf)@.len());
            if !(px == wi / 2 || py == hi / 2) {
                assert(px_same(buf@, g6, st, px, py));
                assert(rgb3_at(g6, st, px, py, card_after_stripes(wi, hi, px, py)));
            }
        }
        assert forall|i: int|
            0 <= i < old(buf)@.len() && !in_rect_bytes(st, 0, 0, wi, hi, i)
            implies buf@[i] == old(buf)@[i]
        by {
            assert(g1[i] == old(buf)@[i]);
            assert(g2[i] == g1[i]);
            assert(g3[i] == g2[i]);
            assert(g4[i] == g3[i]);
            assert(b1[i] == g4[i]);
            assert(b2[i] == b1[i]);
            assert(g5[i] == b2[i]);
            assert(g6[i] == g5[i]);
            assert(buf@[i] == g6[i]);
        }
    }
}

} // verus!
