//! The stateless pattern renderers: solid colors, gradients, checkerboards,
//! the moving bar and the clipping patches.
//!
//! Each renderer paints the whole w x h raster of a staging buffer. Its
//! contract pins the color of every pixel inside the raster and leaves every
//! byte outside the raster band unchanged.

use vstd::prelude::*;

verus! {

use vstd::arithmetic::div_mod::{
    lemma_div_by_multiple,
    lemma_div_is_ordered,
    lemma_div_plus_one,
    lemma_div_pos_is_pos,
    lemma_fundamental_div_mod,
    lemma_fundamental_div_mod_converse,
};
use vstd::arithmetic::mul::lemma_mul_inequality;
use crate::raster::{
    fill_rect_px,
    fill_rgb,
    in_rect_bytes,
    lemma_off_locate,
    lemma_put_keeps_others,
    lemma_rows_fit,
    put_rgb,
    px_off,
    px_same,
    rgb3_at,
    rgb_at,
};

/// The pattern families of the scripted test sequence.
#[derive(Clone, Copy, Debug, PartialEq, Eq, Structural)]
pub enum PatternKind {
    Solid,
    Gradient,
    Checker,
    Motion,
    Patches,
    Viewing,
}

/// Channel selection for the gradient ramp: equal channels or one isolated
/// primary.
#[derive(Clone, Copy, Debug, PartialEq, Eq, Structural)]
pub enum GradMode {
    Luma,
    Red,
    Green,
    Blue,
}

/// The fixed six-entry solid palette: red, green, blue, white, mid-gray,
/// black.
pub open spec fn solid_rgb(idx: int) -> (u8, u8, u8) {
    if idx == 0 {
        (255u8, 0u8, 0u8)
    } else if idx == 1 {
        (0u8, 255u8, 0u8)
    } else if idx == 2 {
        (0u8, 0u8, 255u8)
    } else if idx == 3 {
        (255u8, 255u8, 255u8)
    } else if idx == 4 {
        (128u8, 128u8, 128u8)
    } else {
        (0u8, 0u8, 0u8)
    }
}

/// Number of palette entries.
pub open spec fn solid_count() -> int {
    6
}

/// Looks up one palette entry.
pub fn solid_color(idx: usize) -> (c: (u8, u8, u8))
    requires
        idx < solid_count(),
    ensures
        c == solid_rgb(idx as int),
{
    if idx == 0 {
        (255, 0, 0)
    } else if idx == 1 {
        (0, 255, 0)
    } else if idx == 2 {
        (0, 0, 255)
    } else if idx == 3 {
        (255, 255, 255)
    } else if idx == 4 {
        (128, 128, 128)
    } else {
        (0, 0, 0)
    }
}

/// Divisor of the gradient ramp: one less than the axis length, floored at 1.
pub open spec fn grad_denom(len: int) -> int {
    if len - 1 >= 1 {
        len - 1
    } else {
        1
    }
}

/// The gradient ramp: position t on an axis of the given length scales
/// linearly to 0..=255 by integer division.
pub open spec fn grad_val(t: int, len: int) -> int {
    (t * 255) / grad_denom(len)
}

/// The ramp stays within a byte for every position on the axis.
pub proof fn lemma_grad_val_bounds(t: int, len: int)
    requires
        0 <= t < len,
    ensures
        0 <= grad_val(t, len) <= 255,
{
    let d = grad_denom(len);
    lemma_div_pos_is_pos(t * 255, d);
    lemma_div_is_ordered(t * 255, d * 255, d);
    lemma_div_by_multiple(255, d);
}

/// The ramp is monotonically non-decreasing along the axis.
pub proof fn lemma_grad_monotone(len: int, p1: int, p2: int)
    requires
        len > 1,
        0 <= p1 <= p2 < len,
    ensures
        grad_val(p1, len) <= grad_val(p2, len),
{
    lemma_div_is_ordered(p1 * 255, p2 * 255, grad_denom(len));
}

/// The ramp lands exactly on 0 at the first position and on 255 at the last.
pub proof fn lemma_grad_endpoints(len: int)
    requires
        len > 1,
    ensures
        grad_val(0, len) == 0,
        grad_val(len - 1, len) == 255,
{
    let d = grad_denom(len);
    lemma_div_pos_is_pos(0, d);
    lemma_div_is_ordered(0, 0, d);
    lemma_div_by_multiple(255, d);
}

/// The ramp position of pixel (x, y): its coordinate along the chosen axis.
pub open spec fn grad_axis_t(vertical: bool, x: int, y: int) -> int {
    if vertical {
        y
    } else {
        x
    }
}

/// The length of the chosen gradient axis.
pub open spec fn grad_axis_len(vertical: bool, w: int, h: int) -> int {
    if vertical {
        h
    } else {
        w
    }
}

/// Gradient pixel color: the ramp value on the selected channels.
pub open spec fn grad_rgb(mode: GradMode, t: int, len: int) -> (u8, u8, u8) {
    let v = grad_val(t, len) as u8;
    match mode {
        GradMode::Luma => (v, v, v),
        GradMode::Red => (v, 0u8, 0u8),
        GradMode::Green => (0u8, v, 0u8),
        GradMode::Blue => (0u8, 0u8, v),
    }
}

/// Computes the ramp byte for position t on an axis of the given length.
pub fn gradient_value(t: usize, len: usize) -> (v: u8)
    requires
        t < len,
    ensures
        v as int == grad_val(t as int, len as int),
{
    let denom: usize = if len > 1 {
        len - 1
    } else {
        1
    };
    let q: u128 = (t as u128) * 255 / (denom as u128);
    proof {
        lemma_grad_val_bounds(t as int, len as int);
    }
    q as u8
}

/// Paints a 0..=255 ramp along the chosen axis on the chosen channels over
/// the whole raster.
#[verifier::loop_isolation(false)]
pub fn draw_gradient(
    buf: &mut Vec<u8>,
    stride: usize,
    w: usize,
    h: usize,
    mode: GradMode,
    vertical: bool,
)
    requires
        stride >= 1,
        4 * (w as int) <= stride as int,
        (h as int) * (stride as int) <= old(buf)@.len(),
    ensures
        final(buf)@.len() == old(buf)@.len(),
        forall|xx: int, yy: int|
            0 <= xx < w && 0 <= yy < h
                ==> rgb3_at(
                    final(buf)@,
                    stride as int,
                    xx,
                    yy,
                    grad_rgb(
                        mode,
                        grad_axis_t(vertical, xx, yy),
                        grad_axis_len(vertical, w as int, h as int),
                    ),
                ),
        forall|i: int|
            0 <= i < old(buf)@.len()
                && !in_rect_bytes(stride as int, 0, 0, w as int, h as int, i)
                ==> final(buf)@[i] == old(buf)@[i],
{
    let ghost st = stride as int;
    let ghost wi = w as int;
    let ghost hi = h as int;
    let ghost alen = grad_axis_len(vertical, wi, hi);
    proof {
        lemma_rows_fit(st, hi, old(buf)@.len() as int);
    }
    let mut y: usize = 0;
    while y < h
        invariant
            y <= h,
            buf@.len() == old(buf)@.len(),
            forall|xx: int, yy: int|
                0 <= xx < wi && 0 <= yy < y as int
                    ==> rgb3_at(buf@, st, xx, yy, grad_rgb(mode, grad_axis_t(vertical, xx, yy), alen)),
            forall|i: int|
                0 <= i < old(buf)@.len() && !in_rect_bytes(st, 0, 0, wi, y as int, i)
                    ==> buf@[i] == old(buf)@[i],
        decreases h - y,
    {
        let mut x: usize = 0;
        while x < w
            invariant
                y < h,
                x <= w,
                buf@.len() == old(buf)@.len(),
                forall|xx: int, yy: int|
                    0 <= xx < wi && 0 <= yy < y as int
                        ==> rgb3_at(buf@, st, xx, yy, grad_rgb(mode, grad_axis_t(vertical, xx, yy), alen)),
                forall|xx: int|
                    0 <= xx < x as int
                        ==> rgb3_at(buf@, st, xx, y as int, grad_rgb(mode, grad_axis_t(vertical, xx, y as int), alen)),
                forall|i: int|
                    0 <= i < old(buf)@.len()
                        && !(in_rect_bytes(st, 0, 0, wi, y as int, i)
                            || in_rect_bytes(st, 0, y as int, x as int, y as int + 1, i))
                        ==> buf@[i] == old(buf)@[i],
            decreases w - x,
        {
            let t: usize = if vertical {
                y
            } else {
                x
            };
            let vb: u8 = gradient_value(t, if vertical {
                h
            } else {
                w
            });
            let (cr, cg, cb): (u8, u8, u8) = match mode {
                GradMode::Luma => (vb, vb, vb),
                GradMode::Red => (vb, 0, 0),
                GradMode::Green => (0, vb, 0),
                GradMode::Blue => (0, 0, vb),
            };
            proof {
                assert((cr, cg, cb) == grad_rgb(mode, grad_axis_t(vertical, x as int, y as int), alen));
                assert((y as int + 1) * st == y as int * st + st) by (nonlinear_arith);
            }
            let ghost pre = buf@;
            put_rgb(buf, stride, x, y, cr, cg, cb);
            proof {
                let xi = x as int;
                let yi = y as int;
                let o = px_off(st, xi, yi);
                assert forall|xx: int, yy: int|
                    (0 <= xx < wi && 0 <= yy < yi) || (0 <= xx < xi && yy == yi)
                    implies rgb3_at(buf@, st, xx, yy, grad_rgb(mode, grad_axis_t(vertical, xx, yy), alen))
                by {
                    assert((yy + 1) * st <= old(buf)@.len());
                    lemma_put_keeps_others(buf@, pre, st, xi, yi, xx, yy);
                    assert(rgb3_at(pre, st, xx, yy, grad_rgb(mode, grad_axis_t(vertical, xx, yy), alen)));
                }
                assert forall|i: int|
                    0 <= i < old(buf)@.len()
                        && !(in_rect_bytes(st, 0, 0, wi, yi, i)
                            || in_rect_bytes(st, 0, yi, xi + 1, yi + 1, i))
                    implies buf@[i] == old(buf)@[i]
                by {
                    if o <= i < o + 4 {
                        lemma_off_locate(st, xi, yi, i - o);
                    }
                }
            }
            x += 1;
        }
        y += 1;
    }
}

/// Cell size actually used by the checkerboard: the given size, floored at 1.
pub open spec fn eff_cell(cell: int) -> int {
    if cell >= 1 {
        cell
    } else {
        1
    }
}

/// A checkerboard cell is white when its cell coordinates have equal parity.
pub open spec fn checker_white(cell: int, x: int, y: int) -> bool {
    (x / eff_cell(cell) + y / eff_cell(cell)) % 2 == 0
}

/// Checkerboard pixel color: white or black by cell parity.
pub open spec fn checker_rgb(cell: int, x: int, y: int) -> (u8, u8, u8) {
    if checker_white(cell, x, y) {
        (255u8, 255u8, 255u8)
    } else {
        (0u8, 0u8, 0u8)
    }
}

/// Stepping one cell size along the x axis toggles the cell color.
pub proof fn lemma_checker_flip(cell: int, x: int, y: int)
    requires
        cell >= 1,
        0 <= x,
        0 <= y,
    ensures
        checker_white(cell, x + cell, y) == !checker_white(cell, x, y),
{
    lemma_div_plus_one(x, cell);
}

/// Paints alternating black/white square cells of the given size (floored
/// at 1) over the whole raster.
#[verifier::loop_isolation(false)]
pub fn draw_checkerboard(buf: &mut Vec<u8>, stride: usize, w: usize, h: usize, cell: usize)
    requires
        stride >= 1,
        4 * (w as int) <= stride as int,
        (h as int) * (stride as int) <= old(buf)@.len(),
    ensures
        final(buf)@.len() == old(buf)@.len(),
        forall|xx: int, yy: int|
            0 <= xx < w && 0 <= yy < h
                ==> rgb3_at(final(buf)@, stride as int, xx, yy, checker_rgb(cell as int, xx, yy)),
        forall|i: int|
            0 <= i < old(buf)@.len()
                && !in_rect_bytes(stride as int, 0, 0, w as int, h as int, i)
                ==> final(buf)@[i] == old(buf)@[i],
{
    let ghost st = stride as int;
    let ghost wi = w as int;
    let ghost hi = h as int;
    let ghost ci = cell as int;
    proof {
        lemma_rows_fit(st, hi, old(buf)@.len() as int);
    }
    let cellc: usize = if cell >= 1 {
        cell
    } else {
        1
    };
    let mut y: usize = 0;
    while y < h
        invariant
            y <= h,
            buf@.len() == old(buf)@.len(),
            forall|xx: int, yy: int|
                0 <= xx < wi && 0 <= yy < y as int
                    ==> rgb3_at(buf@, st, xx, yy, checker_rgb(ci, xx, yy)),
            forall|i: int|
                0 <= i < old(buf)@.len() && !in_rect_bytes(st, 0, 0, wi, y as int, i)
                    ==> buf@[i] == old(buf)@[i],
        decreases h - y,
    {
        let by: usize = (y / cellc) % 2;
        let mut x: usize = 0;
        while x < w
            invariant
                y < h,
                x <= w,
                by as int == (y as int / eff_cell(ci)) % 2,
                buf@.len() == old(buf)@.len(),
                forall|xx: int, yy: int|
                    0 <= xx < wi && 0 <= yy < y as int
                        ==> rgb3_at(buf@, st, xx, yy, checker_rgb(ci, xx, yy)),
                forall|xx: int|
                    0 <= xx < x as int ==> rgb3_at(buf@, st, xx, y as int, checker_rgb(ci, xx, y as int)),
                forall|i: int|
                    0 <= i < old(buf)@.len()
                        && !(in_rect_bytes(st, 0, 0, wi, y as int, i)
                            || in_rect_bytes(st, 0, y as int, x as int, y as int + 1, i))
                        ==> buf@[i] == old(buf)@[i],
            decreases w - x,
        {
            let bx: usize = (x / cellc) % 2;
            let v: u8 = if bx == by {
                255
            } else {
                0
            };
            proof {
                assert((v, v, v) == checker_rgb(ci, x as int, y as int));
                assert((y as int + 1) * st == y as int * st + st) by (nonlinear_arith);
            }
            let ghost pre = buf@;
            put_rgb(buf, stride, x, y, v, v, v);
            proof {
                let xi = x as int;
                let yi = y as int;
                let o = px_off(st, xi, yi);
                assert forall|xx: int, yy: int|
                    (0 <= xx < wi && 0 <= yy < yi) || (0 <= xx < xi && yy == yi)
                    implies rgb3_at(buf@, st, xx, yy, checker_rgb(ci, xx, yy))
                by {
                    assert((yy + 1) * st <= old(buf)@.len());
                    lemma_put_keeps_others(buf@, pre, st, xi, yi, xx, yy);
                    assert(rgb3_at(pre, st, xx, yy, checker_rgb(ci, xx, yy)));
                }
                assert forall|i: int|
                    0 <= i < old(buf)@.len()
                        && !(in_rect_bytes(st, 0, 0, wi, yi, i)
                            || in_rect_bytes(st, 0, yi, xi + 1, yi + 1, i))
                    implies buf@[i] == old(buf)@[i]
                by {
                    if o <= i < o + 4 {
                        lemma_off_locate(st, xi, yi, i - o);
                    }
                }
            }
            x += 1;
        }
        y += 1;
    }
}

/// First bar column: the bar position, capped at the last column.
pub open spec fn bar_lo(x_pos: int, w: int) -> int {
    let e = if w >= 1 {
        w - 1
    } else {
        0
    };
    if x_pos <= e {
        x_pos
    } else {
        e
    }
}

/// One past the last bar column: the bar end, capped at the display width.
pub open spec fn bar_hi(x_pos: int, bar_w: int, w: int) -> int {
    if x_pos + bar_w <= w {
        x_pos + bar_w
    } else {
        w
    }
}

/// Motion pixel color: a bright bar over a mid-gray background.
pub open spec fn motion_rgb(x_pos: int, bar_w: int, w: int, x: int) -> (u8, u8, u8) {
    if bar_lo(x_pos, w) <= x < bar_hi(x_pos, bar_w, w) {
        (230u8, 230u8, 230u8)
    } else {
        (128u8, 128u8, 128u8)
    }
}

/// Paints a mid-gray background with one bright vertical bar at the given
/// position.
pub fn draw_motion_bar(
    buf: &mut Vec<u8>,
    stride: usize,
    w: usize,
    h: usize,
    x_pos: usize,
    bar_w: usize,
)
    requires
        stride >= 1,
        4 * (w as int) <= stride as int,
        (h as int) * (stride as int) <= old(buf)@.len(),
        x_pos as int + bar_w as int <= usize::MAX as int,
    ensures
        final(buf)@.len() == old(buf)@.len(),
        forall|xx: int, yy: int|
            0 <= xx < w && 0 <= yy < h
                ==> rgb3_at(
                    final(buf)@,
                    stride as int,
                    xx,
                    yy,
                    motion_rgb(x_pos as int, bar_w as int, w as int, xx),
                ),
        forall|i: int|
            0 <= i < old(buf)@.len()
                && !in_rect_bytes(stride as int, 0, 0, w as int, h as int, i)
                ==> final(buf)@[i] == old(buf)@[i],
{
    let ghost st = stride as int;
    let ghost wi = w as int;
    let ghost hi = h as int;
    proof {
        lemma_rows_fit(st, hi, old(buf)@.len() as int);
    }
    fill_rgb(buf, stride, w, h, 128, 128, 128);
    let ghost mid = buf@;
    let e: usize = if w >= 1 {
        w - 1
    } else {
        0
    };
    let x0: usize = if x_pos <= e {
        x_pos
    } else {
        e
    };
    let hi_raw: usize = x_pos + bar_w;
    let x1: usize = if hi_raw <= w {
        hi_raw
    } else {
        w
    };
    fill_rect_px(buf, stride, x0, 0, x1, h, 230, 230, 230);
    proof {
        let x0i = x0 as int;
        let x1i = x1 as int;
        assert forall|xx: int, yy: int|
            0 <= xx < wi && 0 <= yy < hi
            implies rgb3_at(buf@, st, xx, yy, motion_rgb(x_pos as int, bar_w as int, wi, xx))
        by {
            if !(x0i <= xx < x1i && 0 <= yy < hi) {
                assert((yy + 1) * st <= old(buf)@.len());
                assert(px_same(buf@, mid, st, xx, yy));
                assert(rgb_at(mid, st, xx, yy, 128u8, 128u8, 128u8));
            }
        }
    }
}

/// Side length of the square corner areas holding the clipping patches.
pub open spec fn patches_area(w: int, h: int) -> int {
    let m = if w <= h {
        w
    } else {
        h
    };
    if m / 5 >= 64 {
        m / 5
    } else {
        64
    }
}

/// Height of one luminance step within a corner area.
pub open spec fn patch_cell(w: int, h: int) -> int {
    patches_area(w, h) / 5
}

/// Width of the near-black patch column, capped at the display width.
pub open spec fn dark_w(w: int, h: int) -> int {
    let a = patches_area(w, h);
    if a <= w {
        a
    } else {
        w
    }
}

/// Pixel color after the background and the first k near-black steps:
/// step band i (rows i*cell..(i+1)*cell) holds luminance i+1.
pub open spec fn darks_upto(w: int, h: int, k: int, x: int, y: int) -> (u8, u8, u8) {
    let cell = patch_cell(w, h);
    if 0 <= x < dark_w(w, h) && 0 <= y < k * cell {
        let v = (y / cell + 1) as u8;
        (v, v, v)
    } else {
        (32u8, 32u8, 32u8)
    }
}

/// First column of the near-white patch block.
pub open spec fn bright_x0(w: int, h: int) -> int {
    let a = patches_area(w, h);
    if w >= a {
        w - a
    } else {
        0
    }
}

/// First row of near-white step i.
pub open spec fn bright_y0(w: int, h: int, i: int) -> int {
    let a = patches_area(w, h);
    let base = if h >= a {
        h - a
    } else {
        0
    };
    base + i * patch_cell(w, h)
}

/// One past the last row of near-white step i: one step height below its
/// first row, cut at the display edge.
pub open spec fn bright_y1(w: int, h: int, i: int) -> int {
    let t = bright_y0(w, h, i) + patch_cell(w, h);
    if t <= h {
        t
    } else {
        h
    }
}

/// Pixel (x, y) lies in near-white step i.
pub open spec fn in_bright(w: int, h: int, i: int, x: int, y: int) -> bool {
    &&& bright_x0(w, h) <= x < w
    &&& bright_y0(w, h, i) <= y < bright_y1(w, h, i)
}

/// Pixel color after the near-black steps and the first k near-white steps,
/// in paint order: a later step wins where two overlap.
pub open spec fn brights_upto(w: int, h: int, k: nat, x: int, y: int) -> (u8, u8, u8)
    decreases k,
{
    if k == 0 {
        darks_upto(w, h, 5, x, y)
    } else if in_bright(w, h, k - 1, x, y) {
        let v = (249 + k) as u8;
        (v, v, v)
    } else {
        brights_upto(w, h, (k - 1) as nat, x, y)
    }
}

/// Final patches pixel color: dark background, five near-black steps in the
/// top-left corner, five near-white steps toward the bottom-right corner.
pub open spec fn patches_rgb(w: int, h: int, x: int, y: int) -> (u8, u8, u8) {
    brights_upto(w, h, 5, x, y)
}

/// Paints the clipping-probe patches: near-black luminance steps in the
/// top-left corner and near-white steps toward the bottom-right corner over
/// a dark background.
#[verifier::loop_isolation(false)]
pub fn draw_patches(buf: &mut Vec<u8>, stride: usize, w: usize, h: usize)
    requires
        stride >= 1,
        4 * (w as int) <= stride as int,
        (h as int) * (stride as int) <= old(buf)@.len(),
        5 * patch_cell(w as int, h as int) <= h as int,
    ensures
        final(buf)@.len() == old(buf)@.len(),
        forall|xx: int, yy: int|
            0 <= xx < w && 0 <= yy < h
                ==> rgb3_at(final(buf)@, stride as int, xx, yy, patches_rgb(w as int, h as int, xx, yy)),
        forall|i: int|
            0 <= i < old(buf)@.len()
                && !in_rect_bytes(stride as int, 0, 0, w as int, h as int, i)
                ==> final(buf)@[i] == old(buf)@[i],
{
    let ghost st = stride as int;
    let ghost wi = w as int;
    let ghost hi = h as int;
    proof {
        lemma_rows_fit(st, hi, old(buf)@.len() as int);
    }
    let mw: usize = if w <= h {
        w
    } else {
        h
    };
    let a0: usize = mw / 5;
    let area: usize = if a0 >= 64 {
        a0
    } else {
        64
    };
    let cell: usize = area / 5;
    let ghost celli = cell as int;
    fill_rgb(buf, stride, w, h, 32, 32, 32);
    let dw: usize = if area <= w {
        area
    } else {
        w
    };
    let ghost dwi = dw as int;
    let mut i: usize = 0;
    while i < 5
        invariant
            i <= 5,
            buf@.len() == old(buf)@.len(),
            forall|xx: int, yy: int|
                0 <= xx < wi && 0 <= yy < hi
                    ==> rgb3_at(buf@, st, xx, yy, darks_upto(wi, hi, i as int, xx, yy)),
            forall|j: int|
                0 <= j < old(buf)@.len() && !in_rect_bytes(st, 0, 0, wi, hi, j)
                    ==> buf@[j] == old(buf)@[j],
        decreases 5 - i,
    {
        proof {
            lemma_mul_inequality(i as int, 5, celli);
            lemma_mul_inequality(i as int + 1, 5, celli);
            assert((i as int + 1) * celli == i as int * celli + celli) by (nonlinear_arith);
        }
        let y0: usize = i * cell;
        let y1: usize = y0 + cell;
        proof {
            lemma_mul_inequality(y1 as int, hi, st);
        }
        let v: u8 = (i + 1) as u8;
        let ghost pre = buf@;
        fill_rect_px(buf, stride, 0, y0, dw, y1, v, v, v);
        proof {
            let ii = i as int;
            let k = ii + 1;
            assert forall|xx: int, yy: int|
                0 <= xx < wi && 0 <= yy < hi
                implies rgb3_at(buf@, st, xx, yy, darks_upto(wi, hi, k, xx, yy))
            by {
                if 0 <= xx < dwi && ii * celli <= yy < (ii + 1) * celli {
                    lemma_fundamental_div_mod_converse(yy, celli, ii, yy - ii * celli);
                } else {
                    assert((yy + 1) * st <= old(buf)@.len());
                    assert(px_same(buf@, pre, st, xx, yy));
                    assert(rgb3_at(pre, st, xx, yy, darks_upto(wi, hi, ii, xx, yy)));
                }
            }
        }
        i += 1;
    }
    let bx0: usize = if w >= area {
        w - area
    } else {
        0
    };
    let base: usize = if h >= area {
        h - area
    } else {
        0
    };
    let ghost bx0i = bx0 as int;
    let mut i: usize = 0;
    while i < 5
        invariant
            i <= 5,
            buf@.len() == old(buf)@.len(),
            forall|xx: int, yy: int|
                0 <= xx < wi && 0 <= yy < hi
                    ==> rgb3_at(buf@, st, xx, yy, brights_upto(wi, hi, i as nat, xx, yy)),
            forall|j: int|
                0 <= j < old(buf)@.len() && !in_rect_bytes(st, 0, 0, wi, hi, j)
                    ==> buf@[j] == old(buf)@[j],
        decreases 5 - i,
    {
        proof {
            lemma_mul_inequality(i as int, 4, celli);
            lemma_mul_inequality(i as int + 1, 5, celli);
            assert((i as int + 1) * celli == i as int * celli + celli) by (nonlinear_arith);
            lemma_fundamental_div_mod(area as int, 5);
            assert(5 * celli <= area as int);
            assert(base as int + i as int * celli + celli <= hi);
        }
        let y0: usize = base + i * cell;
        let t1: usize = y0 + cell;
        let y1: usize = if t1 <= h {
            t1
        } else {
            h
        };
        let v: u8 = 250 + (i as u8);
        let ghost pre = buf@;
        let ghost ii = i as int;
        proof {
            lemma_mul_inequality(y1 as int, hi, st);
        }
        fill_rect_px(buf, stride, bx0, y0, w, y1, v, v, v);
        proof {
            assert(y0 as int == bright_y0(wi, hi, ii));
            assert(y1 as int == bright_y1(wi, hi, ii));
            let k = (ii + 1) as nat;
            assert forall|xx: int, yy: int|
                0 <= xx < wi && 0 <= yy < hi
                implies rgb3_at(buf@, st, xx, yy, brights_upto(wi, hi, k, xx, yy))
            by {
                if in_bright(wi, hi, ii, xx, yy) {
                } else {
                    assert((yy + 1) * st <= old(buf)@.len());
                    assert(px_same(buf@, pre, st, xx, yy));
                    assert(rgb3_at(pre, st, xx, yy, brights_upto(wi, hi, ii as nat, xx, yy)));
                }
            }
        }
        i += 1;
    }
}

} // verus!
