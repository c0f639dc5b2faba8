//! Bounds-checked raster primitives over a flat byte buffer.
//!
//! A buffer models one frame: `stride` bytes per row and four bytes per
//! pixel, laid out blue, green, red, alpha. Every pattern renderer goes
//! through `put_rgb`, which pins the four bytes it writes and leaves every
//! other byte unchanged, so whole-frame contracts follow by composition.

use vstd::prelude::*;

verus! {

use vstd::arithmetic::div_mod::lemma_fundamental_div_mod_converse;
use vstd::arithmetic::mul::lemma_mul_inequality;

/// Byte offset of pixel (x, y) in a buffer with row pitch `stride`.
pub open spec fn px_off(stride: int, x: int, y: int) -> int {
    y * stride + 4 * x
}

/// The four bytes of pixel (x, y) hold the color (r, g, b) with full alpha.
pub open spec fn rgb_at(s: Seq<u8>, stride: int, x: int, y: int, r: u8, g: u8, b: u8) -> bool {
    let o = px_off(stride, x, y);
    &&& s[o] == b
    &&& s[o + 1] == g
    &&& s[o + 2] == r
    &&& s[o + 3] == 0xffu8
}

/// `rgb_at` over a packed (r, g, b) triple.
pub open spec fn rgb3_at(s: Seq<u8>, stride: int, x: int, y: int, c: (u8, u8, u8)) -> bool {
    rgb_at(s, stride, x, y, c.0, c.1, c.2)
}

/// The four bytes of pixel (x, y) are equal in the two buffers.
pub open spec fn px_same(a: Seq<u8>, b: Seq<u8>, stride: int, x: int, y: int) -> bool {
    let o = px_off(stride, x, y);
    &&& a[o] == b[o]
    &&& a[o + 1] == b[o + 1]
    &&& a[o + 2] == b[o + 2]
    &&& a[o + 3] == b[o + 3]
}

/// Byte index `i` lies inside the byte region of the pixel rectangle
/// [x0, x1) x [y0, y1).
pub open spec fn in_rect_bytes(stride: int, x0: int, y0: int, x1: int, y1: int, i: int) -> bool {
    &&& y0 <= i / stride < y1
    &&& 4 * x0 <= i % stride < 4 * x1
}

/// Every row of an h-row raster ends within the buffer.
pub proof fn lemma_rows_fit(stride: int, h: int, len: int)
    requires
        stride >= 1,
        0 <= h,
        h * stride <= len,
    ensures
        forall|yy: int| 0 <= yy < h ==> #[trigger] ((yy + 1) * stride) <= len,
{
    assert forall|yy: int| 0 <= yy < h implies #[trigger] ((yy + 1) * stride) <= len by {
        lemma_mul_inequality(yy + 1, h, stride);
    }
}

/// The four bytes of a pixel whose horizontal index fits in the row
/// (4x + 4 <= stride) sit in row y of the buffer: byte c of the pixel has
/// row number y and row offset 4x + c.
pub proof fn lemma_off_locate(stride: int, x: int, y: int, c: int)
    requires
        stride >= 1,
        0 <= x,
        0 <= y,
        0 <= c < 4,
        4 * x + 4 <= stride,
    ensures
        (px_off(stride, x, y) + c) / stride == y,
        (px_off(stride, x, y) + c) % stride == 4 * x + c,
{
    lemma_fundamental_div_mod_converse(y * stride + (4 * x + c), stride, y, 4 * x + c);
}

/// Distinct pixels that both fit in a row occupy disjoint byte ranges.
pub proof fn lemma_px_disjoint(stride: int, xa: int, ya: int, xb: int, yb: int)
    requires
        stride >= 1,
        0 <= xa,
        0 <= ya,
        0 <= xb,
        0 <= yb,
        4 * xa + 4 <= stride,
        4 * xb + 4 <= stride,
        xa != xb || ya != yb,
    ensures
        px_off(stride, xa, ya) + 4 <= px_off(stride, xb, yb)
            || px_off(stride, xb, yb) + 4 <= px_off(stride, xa, ya),
{
    if ya == yb {
    } else if ya < yb {
        lemma_mul_inequality(ya + 1, yb, stride);
        assert((ya + 1) * stride == ya * stride + stride) by (nonlinear_arith);
    } else {
        lemma_mul_inequality(yb + 1, ya, stride);
        assert((yb + 1) * stride == yb * stride + stride) by (nonlinear_arith);
    }
}

/// After a write that changed only the four bytes of pixel (x, y) — the
/// frame `put_rgb` guarantees — every other row-fitting pixel whose row
/// ends within the buffer keeps its four bytes.
pub proof fn lemma_put_keeps_others(
    post: Seq<u8>,
    pre: Seq<u8>,
    stride: int,
    x: int,
    y: int,
    x2: int,
    y2: int,
)
    requires
        stride >= 1,
        post.len() == pre.len(),
        0 <= x,
        0 <= y,
        4 * x + 4 <= stride,
        0 <= x2,
        0 <= y2,
        4 * x2 + 4 <= stride,
        x2 != x || y2 != y,
        (y2 + 1) * stride <= pre.len(),
        forall|i: int|
            0 <= i < pre.len() && !(px_off(stride, x, y) <= i < px_off(stride, x, y) + 4)
                ==> post[i] == pre[i],
    ensures
        px_same(post, pre, stride, x2, y2),
{
    assert(0 <= y2 * stride && (y2 + 1) * stride == y2 * stride + stride) by (nonlinear_arith)
        requires
            stride >= 1,
            0 <= y2,
    ;
    lemma_px_disjoint(stride, x2, y2, x, y);
    let o = px_off(stride, x2, y2);
    assert(post[o] == pre[o]);
    assert(post[o + 1] == pre[o + 1]);
    assert(post[o + 2] == pre[o + 2]);
    assert(post[o + 3] == pre[o + 3]);
}

/// Sets one pixel. The four bytes at its offset take the color; every
/// other byte of the buffer keeps its value.
pub fn put_rgb(buf: &mut Vec<u8>, stride: usize, x: usize, y: usize, r: u8, g: u8, b: u8)
    requires
        stride >= 1,
        4 * (x as int) + 4 <= stride as int,
        px_off(stride as int, x as int, y as int) + 4 <= old(buf)@.len(),
    ensures
        final(buf)@.len() == old(buf)@.len(),
        rgb_at(final(buf)@, stride as int, x as int, y as int, r, g, b),
        forall|i: int|
            0 <= i < old(buf)@.len()
                && !(px_off(stride as int, x as int, y as int) <= i
                    < px_off(stride as int, x as int, y as int) + 4)
                ==> final(buf)@[i] == old(buf)@[i],
{
    let n: usize = buf.len();
    proof {
        assert(old(buf)@.len() == n as int);
    }
    let off: usize = y * stride + x * 4;
    buf[off] = b;
    buf[off + 1] = g;
    buf[off + 2] = r;
    buf[off + 3] = 0xff;
}

/// Fills the pixel rectangle [x0, x1) x [y0, y1) with one color and leaves
/// every byte outside its byte region unchanged.
#[verifier::loop_isolation(false)]
pub fn fill_rect_px(
    buf: &mut Vec<u8>,
    stride: usize,
    x0: usize,
    y0: usize,
    x1: usize,
    y1: usize,
    r: u8,
    g: u8,
    b: u8,
)
    requires
        stride >= 1,
        x0 <= x1,
        y0 <= y1,
        4 * (x1 as int) <= stride as int,
        (y1 as int) * (stride as int) <= old(buf)@.len(),
    ensures
        final(buf)@.len() == old(buf)@.len(),
        forall|xx: int, yy: int|
            x0 <= xx < x1 && y0 <= yy < y1
                ==> rgb_at(final(buf)@, stride as int, xx, yy, r, g, b),
        forall|i: int|
            0 <= i < old(buf)@.len()
                && !in_rect_bytes(stride as int, x0 as int, y0 as int, x1 as int, y1 as int, i)
                ==> final(buf)@[i] == old(buf)@[i],
        forall|xx: int, yy: int|
            0 <= xx && 0 <= yy && 4 * xx + 4 <= stride as int
                && (yy + 1) * (stride as int) <= old(buf)@.len()
                && !(x0 <= xx < x1 && y0 <= yy < y1)
                ==> px_same(final(buf)@, old(buf)@, stride as int, xx, yy),
{
    let ghost st = stride as int;
    let ghost x0i = x0 as int;
    let ghost y0i = y0 as int;
    let ghost x1i = x1 as int;
    let ghost y1i = y1 as int;
    let mut y = y0;
    while y < y1
        invariant
            y0 <= y <= y1,
            buf@.len() == old(buf)@.len(),
            forall|xx: int, yy: int|
                x0i <= xx < x1i && y0i <= yy < y as int
                    ==> rgb_at(buf@, st, xx, yy, r, g, b),
            forall|i: int|
                0 <= i < old(buf)@.len()
                    && !in_rect_bytes(st, x0i, y0i, x1i, y as int, i)
                    ==> buf@[i] == old(buf)@[i],
        decreases y1 - y,
    {
        let mut x = x0;
        while x < x1
            invariant
                y0 <= y < y1,
                x0 <= x <= x1,
                buf@.len() == old(buf)@.len(),
                forall|xx: int, yy: int|
                    x0i <= xx < x1i && y0i <= yy < y as int
                        ==> rgb_at(buf@, st, xx, yy, r, g, b),
                forall|xx: int|
                    x0i <= xx < x as int ==> rgb_at(buf@, st, xx, y as int, r, g, b),
                forall|i: int|
                    0 <= i < old(buf)@.len()
                        && !(in_rect_bytes(st, x0i, y0i, x1i, y as int, i)
                            || in_rect_bytes(st, x0i, y as int, x as int, y as int + 1, i))
                        ==> buf@[i] == old(buf)@[i],
            decreases x1 - x,
        {
            proof {
                lemma_mul_inequality(y as int + 1, y1 as int, st);
                assert((y as int + 1) * st == y as int * st + st) by (nonlinear_arith);
            }
            let ghost pre = buf@;
            put_rgb(buf, stride, x, y, r, g, b);
            proof {
                let xi = x as int;
                let yi = y as int;
                let o = px_off(st, xi, yi);
                assert forall|xx: int, yy: int|
                    (x0i <= xx < x1i && y0i <= yy < yi) || (x0i <= xx < xi && yy == yi)
                    implies rgb_at(buf@, st, xx, yy, r, g, b)
                by {
                    lemma_mul_inequality(yy + 1, y1i, st);
                    lemma_put_keeps_others(buf@, pre, st, xi, yi, xx, yy);
                    assert(rgb_at(pre, st, xx, yy, r, g, b));
                }
                assert forall|i: int|
                    0 <= i < old(buf)@.len()
                        && !(in_rect_bytes(st, x0i, y0i, x1i, yi, i)
                            || in_rect_bytes(st, x0i, yi, xi + 1, yi + 1, i))
                    implies buf@[i] == old(buf)@[i]
                by {
                    if o <= i < o + 4 {
                        lemma_off_locate(st, xi, yi, i - o);
                    }
                }
            }
            x += 1;
        }
        y += 1;
    }
    proof {
        assert forall|xx: int, yy: int|
            0 <= xx && 0 <= yy && 4 * xx + 4 <= st && (yy + 1) * st <= old(buf)@.len()
                && !(x0i <= xx < x1i && y0i <= yy < y1i)
            implies px_same(buf@, old(buf)@, st, xx, yy)
        by {
            let o = px_off(st, xx, yy);
            assert(0 <= yy * st && (yy + 1) * st == yy * st + st) by (nonlinear_arith)
                requires
                    st >= 1,
                    0 <= yy,
            ;
            lemma_off_locate(st, xx, yy, 0);
            lemma_off_locate(st, xx, yy, 1);
            lemma_off_locate(st, xx, yy, 2);
            lemma_off_locate(st, xx, yy, 3);
            assert(buf@[o] == old(buf)@[o]);
            assert(buf@[o + 1] == old(buf)@[o + 1]);
            assert(buf@[o + 2] == old(buf)@[o + 2]);
            assert(buf@[o + 3] == old(buf)@[o + 3]);
        }
    }
}

/// Fills the whole w x h raster with one color; bytes outside the raster
/// band (row padding and rows at or past h) keep their values.
pub fn fill_rgb(buf: &mut Vec<u8>, stride: usize, w: usize, h: usize, r: u8, g: u8, b: u8)
    requires
        stride >= 1,
        4 * (w as int) <= stride as int,
        (h as int) * (stride as int) <= old(buf)@.len(),
    ensures
        final(buf)@.len() == old(buf)@.len(),
        forall|xx: int, yy: int|
            0 <= xx < w && 0 <= yy < h ==> rgb_at(final(buf)@, stride as int, xx, yy, r, g, b),
        forall|i: int|
            0 <= i < old(buf)@.len()
                && !in_rect_bytes(stride as int, 0, 0, w as int, h as int, i)
                ==> final(buf)@[i] == old(buf)@[i],
{
    fill_rect_px(buf, stride, 0, 0, w, h, r, g, b);
}

} // verus!
