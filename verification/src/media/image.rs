//! Pixel-level operations on interleaved `u8` images (row-major, `height x
//! width x channels`): nearest-neighbour resize and rectangle borders.
use vstd::prelude::*;
use vstd::arithmetic::div_mod::{lemma_fundamental_div_mod_converse, lemma_multiply_divide_lt, lemma_div_pos_is_pos};
use vstd::arithmetic::mul::lemma_mul_strict_inequality;

verus! {

/// Source row (or column) sampled for destination row `d` when scaling `src_len` to `dst_len`.
pub open spec fn nearest(d: int, src_len: int, dst_len: int) -> int {
    d * src_len / dst_len
}

/// Byte `i` of the nearest-neighbour resize of a `sh x sw x c` image to `dh x dw x c`.
pub open spec fn resized_byte(src: Seq<u8>, sh: int, sw: int, c: int, dh: int, dw: int, i: int) -> u8 {
    let p = i / c;
    let k = i % c;
    let y = p / dw;
    let x = p % dw;
    src[(nearest(y, sh, dh) * sw + nearest(x, sw, dw)) * c + k]
}

/// Nearest-neighbour resize of a `sh x sw x c` image to `dh x dw x c`.
pub open spec fn resize_nearest_spec(src: Seq<u8>, sh: int, sw: int, c: int, dh: int, dw: int) -> Seq<u8> {
    Seq::new((dh * dw * c) as nat, |i: int| resized_byte(src, sh, sw, c, dh, dw, i))
}

pub proof fn lemma_pixel_index_bound(a: int, b: int, la: int, lb: int, c: int, k: int)
    requires
        0 <= a < la,
        0 <= b < lb,
        0 <= k < c,
    ensures
        0 <= (a * lb + b) * c + k < la * lb * c,
        0 <= a * lb + b < la * lb,
        (a * lb + b) * c <= (a * lb + b) * c + k,
{
    assert(0 <= a * lb) by (nonlinear_arith)
        requires
            0 <= a,
            0 <= lb,
    ;
    assert(a * lb + b < la * lb) by (nonlinear_arith)
        requires
            0 <= a < la,
            0 <= b < lb,
    ;
    assert((a * lb + b) * c + k < la * lb * c) by (nonlinear_arith)
        requires
            0 <= a * lb + b < la * lb,
            0 <= k < c,
    ;
    assert(0 <= (a * lb + b) * c) by (nonlinear_arith)
        requires
            0 <= a * lb + b,
            0 <= c,
    ;
}

pub proof fn lemma_nearest_bound(d: int, src_len: int, dst_len: int)
    requires
        0 <= d < dst_len,
        0 < src_len,
    ensures
        0 <= nearest(d, src_len, dst_len) < src_len,
{
    lemma_mul_strict_inequality(d, dst_len, src_len);
    assert(d * src_len < dst_len * src_len);
    assert(dst_len * src_len == src_len * dst_len) by (nonlinear_arith);
    assert(0 <= d * src_len) by (nonlinear_arith)
        requires
            0 <= d,
            0 < src_len,
    ;
    lemma_multiply_divide_lt(d * src_len, dst_len, src_len);
    lemma_div_pos_is_pos(d * src_len, dst_len);
}

pub proof fn lemma_pixel_decompose(i: int, a: int, b: int, lb: int, c: int, k: int)
    requires
        i == (a * lb + b) * c + k,
        0 <= b < lb,
        0 <= k < c,
        0 <= a,
    ensures
        i / c == a * lb + b,
        i % c == k,
        (i / c) / lb == a,
        (i / c) % lb == b,
{
    lemma_fundamental_div_mod_converse(i, c, a * lb + b, k);
    assert(a * lb + b == a * lb + b);
    lemma_fundamental_div_mod_converse(a * lb + b, lb, a, b);
}

/// Resizing an image to its own dimensions leaves it unchanged.
pub proof fn lemma_resize_same_size_is_identity(src: Seq<u8>, h: int, w: int, c: int)
    requires
        h > 0,
        w > 0,
        c > 0,
        src.len() == h * w * c,
    ensures
        resize_nearest_spec(src, h, w, c, h, w) == src,
{
    let out = resize_nearest_spec(src, h, w, c, h, w);
    assert forall|i: int| 0 <= i < src.len() implies out[i] == src[i] by {
        let p = i / c;
        let k = i % c;
        let y = p / w;
        let x = p % w;
        assert(p * c + k == i && 0 <= k < c && p >= 0) by (nonlinear_arith)
            requires
                c > 0,
                i >= 0,
                p == i / c,
                k == i % c,
        ;
        assert(y * w + x == p && 0 <= x < w && y >= 0) by (nonlinear_arith)
            requires
                w > 0,
                p >= 0,
                y == p / w,
                x == p % w,
        ;
        assert(nearest(y, h, h) == y) by (nonlinear_arith)
            requires
                h > 0,
                y >= 0,
        ;
        assert(nearest(x, w, w) == x) by (nonlinear_arith)
            requires
                w > 0,
                x >= 0,
        ;
    }
    assert(out =~= src);
}

/// Shrinking an image back after enlarging it by a whole factor `k` in both
/// directions gives back the original image.
pub proof fn lemma_downscale_undoes_upscale(src: Seq<u8>, h: int, w: int, c: int, k: int)
    requires
        h > 0,
        w > 0,
        c > 0,
        k > 0,
        src.len() == h * w * c,
    ensures
        resize_nearest_spec(resize_nearest_spec(src, h, w, c, k * h, k * w), k * h, k * w, c, h, w) == src,
{
    let up = resize_nearest_spec(src, h, w, c, k * h, k * w);
    let down = resize_nearest_spec(up, k * h, k * w, c, h, w);
    assert(k * h > 0 && k * w > 0) by (nonlinear_arith)
        requires
            k > 0,
            h > 0,
            w > 0,
    ;
    assert forall|i: int| 0 <= i < src.len() implies down[i] == src[i] by {
        let p = i / c;
        let ch = i % c;
        let y = p / w;
        let x = p % w;
        assert(p * c + ch == i && 0 <= ch < c && p >= 0) by (nonlinear_arith)
            requires
                c > 0,
                i >= 0,
                p == i / c,
                ch == i % c,
        ;
        assert(y * w + x == p && 0 <= x < w && 0 <= y) by (nonlinear_arith)
            requires
                w > 0,
                p >= 0,
                y == p / w,
                x == p % w,
        ;
        assert(y < h) by (nonlinear_arith)
            requires
                y * w + x == p,
                0 <= x < w,
                p * c + ch == i,
                0 <= ch < c,
                i < h * w * c,
                y >= 0,
        ;
        let uy = nearest(y, k * h, h);
        let ux = nearest(x, k * w, w);
        assert(uy == k * y) by (nonlinear_arith)
            requires
                uy == y * (k * h) / h,
                h > 0,
                y >= 0,
                k > 0,
        ;
        assert(ux == k * x) by (nonlinear_arith)
            requires
                ux == x * (k * w) / w,
                w > 0,
                x >= 0,
                k > 0,
        ;
        assert(nearest(uy, h, k * h) == y) by (nonlinear_arith)
            requires
                uy == k * y,
                h > 0,
                k > 0,
                y >= 0,
        ;
        assert(nearest(ux, w, k * w) == x) by (nonlinear_arith)
            requires
                ux == k * x,
                w > 0,
                k > 0,
                x >= 0,
        ;
        let j = (uy * (k * w) + ux) * c + ch;
        assert(0 <= uy < k * h && 0 <= ux < k * w) by (nonlinear_arith)
            requires
                uy == k * y,
                ux == k * x,
                0 <= y < h,
                0 <= x < w,
                k > 0,
        ;
        lemma_pixel_index_bound(uy, ux, k * h, k * w, c, ch);
        lemma_pixel_decompose(j, uy, ux, k * w, c, ch);
        assert(up[j] == resized_byte(src, h, w, c, k * h, k * w, j));
    }
    assert(down =~= src);
}

/// Nearest-neighbour resize of an interleaved `u8` image.
pub fn resize_nearest(src: &[u8], sh: usize, sw: usize, c: usize, dh: usize, dw: usize) -> (r: Vec<u8>)
    requires
        src@.len() == sh * sw * c,
        sh * sw <= usize::MAX,
        sh > 0,
        sw > 0,
        dh > 0,
        dw > 0,
        dh * dw * c <= usize::MAX,
        dh * sh <= usize::MAX,
        dw * sw <= usize::MAX,
    ensures
        r@ == resize_nearest_spec(src@, sh as int, sw as int, c as int, dh as int, dw as int),
{
    let src_len = src.len();
    let ghost spec = resize_nearest_spec(src@, sh as int, sw as int, c as int, dh as int, dw as int);
    let mut dst: Vec<u8> = Vec::new();
    let mut dy: usize = 0;
    assert((dy * dw) * c == 0) by (nonlinear_arith)
        requires
            dy == 0,
    ;
    while dy < dh
        invariant
            src@.len() == sh * sw * c,
            src@.len() <= usize::MAX,
            sh * sw <= usize::MAX,
            sh > 0 && sw > 0 && dh > 0 && dw > 0,
            dh * dw * c <= usize::MAX,
            dh * sh <= usize::MAX,
            dw * sw <= usize::MAX,
            spec == resize_nearest_spec(src@, sh as int, sw as int, c as int, dh as int, dw as int),
            dy <= dh,
            dst@.len() == (dy * dw) * c,
            dst@ == spec.take(dst@.len() as int),
        decreases dh - dy,
    {
        proof {
            assert(dy * sh <= dh * sh) by (nonlinear_arith)
                requires
                    dy <= dh,
                    0 <= sh,
            ;
            lemma_nearest_bound(dy as int, sh as int, dh as int);
        }
        let sy = dy * sh / dh;
        let mut dx: usize = 0;
        while dx < dw
            invariant
                src@.len() == sh * sw * c,
                src@.len() <= usize::MAX,
            src@.len() <= usize::MAX,
                sh * sw <= usize::MAX,
            sh * sw <= usize::MAX,
                sh > 0 && sw > 0 && dh > 0 && dw > 0,
                dh * dw * c <= usize::MAX,
                dw * sw <= usize::MAX,
                spec == resize_nearest_spec(src@, sh as int, sw as int, c as int, dh as int, dw as int),
                dy < dh,
                sy == nearest(dy as int, sh as int, dh as int),
                0 <= sy < sh,
                dx <= dw,
                dst@.len() == (dy * dw + dx) * c,
                dst@ == spec.take(dst@.len() as int),
            decreases dw - dx,
        {
            proof {
                assert(dx * sw <= dw * sw) by (nonlinear_arith)
                    requires
                        dx <= dw,
                        0 <= sw,
                ;
                lemma_nearest_bound(dx as int, sw as int, dw as int);
            }
            let sx = dx * sw / dw;
            proof {
                if c > 0 {
                    lemma_pixel_index_bound(sy as int, sx as int, sh as int, sw as int, c as int, 0);
                    assert((sy * sw + sx) * c < sh * sw * c);
                } else {
                    assert((sy * sw + sx) * c == 0) by (nonlinear_arith)
                        requires
                            c == 0,
                    ;
                }
                assert(sy * sw + sx < sh * sw) by (nonlinear_arith)
                    requires
                        0 <= sy < sh,
                        0 <= sx < sw,
                ;
            }
            let base = (sy * sw + sx) * c;
            let mut k: usize = 0;
            while k < c
                invariant
                    src@.len() == sh * sw * c,
                    src@.len() <= usize::MAX,
                src@.len() <= usize::MAX,
            src@.len() <= usize::MAX,
                    sh * sw <= usize::MAX,
                sh * sw <= usize::MAX,
            sh * sw <= usize::MAX,
                    sh > 0 && sw > 0 && dh > 0 && dw > 0,
                    dh * dw * c <= usize::MAX,
                    spec == resize_nearest_spec(src@, sh as int, sw as int, c as int, dh as int, dw as int),
                    dy < dh,
                    dx < dw,
                    sy == nearest(dy as int, sh as int, dh as int),
                    sx == nearest(dx as int, sw as int, dw as int),
                    0 <= sy < sh,
                    0 <= sx < sw,
                    base == (sy * sw + sx) * c,
                    k <= c,
                    dst@.len() == (dy * dw + dx) * c + k,
                    dst@ == spec.take(dst@.len() as int),
                decreases c - k,
            {
                let ghost i = dst@.len() as int;
                proof {
                    lemma_pixel_index_bound(sy as int, sx as int, sh as int, sw as int, c as int, k as int);
                    lemma_pixel_index_bound(dy as int, dx as int, dh as int, dw as int, c as int, k as int);
                    lemma_pixel_decompose(i, dy as int, dx as int, dw as int, c as int, k as int);
                    assert(spec[i] == src@[base + k]);
                }
                dst.push(src[base + k]);
                proof {
                    assert(dst@ =~= spec.take(i + 1));
                }
                k += 1;
            }
            proof {
                assert((dy * dw + dx) * c + c == (dy * dw + (dx + 1)) * c) by (nonlinear_arith);
            }
            dx += 1;
        }
        proof {
            assert((dy * dw + dw) * c == ((dy + 1) * dw) * c) by (nonlinear_arith);
        }
        dy += 1;
    }
    proof {
        assert(dh * dw * c == (dh * dw) * c) by (nonlinear_arith);
        assert(spec.len() == dh * dw * c);
        assert(dst@ =~= spec);
    }
    dst
}

/// Rectangle overlay drawn on images, in pixel coordinates.
#[derive(Clone, Copy, Debug, PartialEq, Eq, Structural)]
pub struct OsdBox {
    pub x: usize,
    pub y: usize,
    pub width: usize,
    pub height: usize,
}

/// Exclusive right edge of a box, clipped to the image.
pub open spec fn box_x_end(b: OsdBox, w: int) -> int {
    if b.x + b.width < w {
        b.x + b.width
    } else {
        w
    }
}

/// Exclusive bottom edge of a box, clipped to the image.
pub open spec fn box_y_end(b: OsdBox, h: int) -> int {
    if b.y + b.height < h {
        b.y + b.height
    } else {
        h
    }
}

/// Pixel `(x, y)` lies on the `t`-pixel-thick border of the clipped box.
pub open spec fn on_border(b: OsdBox, x: int, y: int, w: int, h: int, t: int) -> bool {
    let xe = box_x_end(b, w);
    let ye = box_y_end(b, h);
    &&& b.x <= x < xe
    &&& b.y <= y < ye
    &&& (y < b.y + t || y + t >= ye || x < b.x + t || x + t >= xe)
}

/// Column of the pixel that byte `i` belongs to.
pub open spec fn px(i: int, w: int, c: int) -> int {
    (i / c) % w
}

/// Row of the pixel that byte `i` belongs to.
pub open spec fn py(i: int, w: int, c: int) -> int {
    (i / c) / w
}

/// Pixel `(x, y)` lies in the rectangle from `(x0, y0)` up to, not
/// including, `(x1, y1)`.
pub open spec fn in_rect(x: int, y: int, x0: int, y0: int, x1: int, y1: int) -> bool {
    x0 <= x < x1 && y0 <= y < y1
}

/// A border `t` pixels thick is the box (clipped to the image) less the box
/// shrunk by `t` pixels on every side; so a thicker border paints every
/// pixel a thinner one does, and nothing outside the box is painted.
pub proof fn lemma_border_is_box_less_interior(b: OsdBox, x: int, y: int, w: int, h: int, t: int, t2: int)
    ensures
        on_border(b, x, y, w, h, t) <==> in_rect(x, y, b.x as int, b.y as int, box_x_end(b, w), box_y_end(b, h))
            && !in_rect(x, y, b.x + t, b.y + t, box_x_end(b, w) - t, box_y_end(b, h) - t),
        t <= t2 && on_border(b, x, y, w, h, t) ==> on_border(b, x, y, w, h, t2),
        !in_rect(x, y, b.x as int, b.y as int, box_x_end(b, w), box_y_end(b, h)) ==> !on_border(b, x, y, w, h, t),
{
}

/// The image `s` with the border of box `b` painted in `color`.
pub open spec fn paint_box(s: Seq<u8>, b: OsdBox, w: int, h: int, c: int, color: Seq<u8>, t: int) -> Seq<u8> {
    Seq::new(
        s.len(),
        |i: int|
            if on_border(b, px(i, w, c), py(i, w, c), w, h, t) {
                color[i % c]
            } else {
                s[i]
            },
    )
}

/// The image `s` with the borders of `boxes` painted in order.
pub open spec fn paint_boxes(s: Seq<u8>, boxes: Seq<OsdBox>, w: int, h: int, c: int, color: Seq<u8>, t: int) -> Seq<u8>
    decreases boxes.len(),
{
    if boxes.len() == 0 {
        s
    } else {
        paint_box(paint_boxes(s, boxes.drop_last(), w, h, c, color, t), boxes.last(), w, h, c, color, t)
    }
}

/// Pixel byte `(y, x, k)` comes before the cursor `(cy, cx, ck)` in row-major order.
spec fn before(y: int, x: int, k: int, cy: int, cx: int, ck: int) -> bool {
    y < cy || (y == cy && (x < cx || (x == cx && k < ck)))
}

spec fn painted_upto(s: Seq<u8>, b: OsdBox, w: int, h: int, c: int, color: Seq<u8>, t: int, cy: int, cx: int, ck: int) -> Seq<u8> {
    Seq::new(
        s.len(),
        |i: int|
            if on_border(b, px(i, w, c), py(i, w, c), w, h, t) && before(py(i, w, c), px(i, w, c), i % c, cy, cx, ck) {
                color[i % c]
            } else {
                s[i]
            },
    )
}

proof fn lemma_coords(i: int, w: int, c: int)
    requires
        0 <= i,
        w > 0,
        c > 0,
    ensures
        i == (py(i, w, c) * w + px(i, w, c)) * c + i % c,
        0 <= px(i, w, c) < w,
        0 <= i % c < c,
        0 <= py(i, w, c),
{
    vstd::arithmetic::div_mod::lemma_fundamental_div_mod(i, c);
    vstd::arithmetic::div_mod::lemma_fundamental_div_mod(i / c, w);
    lemma_div_pos_is_pos(i, c);
    lemma_div_pos_is_pos(i / c, w);
    vstd::arithmetic::div_mod::lemma_mod_pos_bound(i, c);
    vstd::arithmetic::div_mod::lemma_mod_pos_bound(i / c, w);
    assert(i / c == w * ((i / c) / w) + (i / c) % w);
    assert(i == c * (i / c) + i % c);
    assert(i == ((i / c) / w * w + (i / c) % w) * c + i % c) by (nonlinear_arith)
        requires
            i / c == w * ((i / c) / w) + (i / c) % w,
            i == c * (i / c) + i % c,
    ;
}

/// Paints the border of one box into an interleaved `h x w x c` image.
fn draw_box(bytes: &mut Vec<u8>, w: usize, h: usize, c: usize, b: OsdBox, color: &[u8], t: usize)
    requires
        old(bytes)@.len() == h * w * c,
        color@.len() == c,
        t >= 1,
        b.x + b.width <= usize::MAX,
        b.y + b.height <= usize::MAX,
        b.x + t <= usize::MAX,
        b.y + t <= usize::MAX,
        w + t <= usize::MAX,
        h + t <= usize::MAX,
    ensures
        final(bytes)@ == paint_box(old(bytes)@, b, w as int, h as int, c as int, color@, t as int),
{
    let n = bytes.len();
    let ghost s = bytes@;
    let ghost len = bytes@.len();
    let x_end = if b.x + b.width < w { b.x + b.width } else { w };
    let y_end = if b.y + b.height < h { b.y + b.height } else { h };
    if b.x >= x_end || b.y >= y_end || c == 0 {
        proof {
            assert(bytes@ =~= paint_box(s, b, w as int, h as int, c as int, color@, t as int)) by {
                assert forall|i: int| 0 <= i < len implies !on_border(b, px(i, w as int, c as int), py(i, w as int, c as int), w as int, h as int, t as int) by {
                    if c == 0 {
                        assert(h * w * c == 0) by (nonlinear_arith) requires c == 0;
                    }
                }
            }
        }
        return;
    }
    proof {
        assert(w > 0 && h > 0);
        assert(len <= usize::MAX);
        assert forall|i: int| 0 <= i < len implies #[trigger] painted_upto(s, b, w as int, h as int, c as int, color@, t as int, b.y as int, b.x as int, 0)[i] == s[i] by {
            lemma_coords(i, w as int, c as int);
        }
        assert(bytes@ =~= painted_upto(s, b, w as int, h as int, c as int, color@, t as int, b.y as int, b.x as int, 0));
    }
    let mut y: usize = b.y;
    while y < y_end
        invariant
            s.len() == len,
            len == h * w * c,
            len <= usize::MAX,
            w > 0 && h > 0 && c > 0,
            color@.len() == c,
            t >= 1,
            x_end == box_x_end(b, w as int),
            y_end == box_y_end(b, h as int),
            b.x < x_end <= w,
            b.y < y_end <= h,
            w + t <= usize::MAX,
            h + t <= usize::MAX,
            b.x + t <= usize::MAX,
            b.y + t <= usize::MAX,
            b.y <= y <= y_end,
            bytes@ == painted_upto(s, b, w as int, h as int, c as int, color@, t as int, y as int, b.x as int, 0),
        decreases y_end - y,
    {
        let mut x: usize = b.x;
        while x < x_end
            invariant
                s.len() == len,
                len == h * w * c,
                len <= usize::MAX,
                w > 0 && h > 0 && c > 0,
                color@.len() == c,
                t >= 1,
                x_end == box_x_end(b, w as int),
                y_end == box_y_end(b, h as int),
                b.x < x_end <= w,
                b.y < y_end <= h,
                w + t <= usize::MAX,
                h + t <= usize::MAX,
                b.x + t <= usize::MAX,
                b.y + t <= usize::MAX,
                b.y <= y < y_end,
                b.x <= x <= x_end,
                bytes@ == painted_upto(s, b, w as int, h as int, c as int, color@, t as int, y as int, x as int, 0),
            decreases x_end - x,
        {
            let border = y < b.y + t || y + t >= y_end || x < b.x + t || x + t >= x_end;
            if border {
                proof {
                    lemma_pixel_index_bound(y as int, x as int, h as int, w as int, c as int, 0);
                    assert(y * w + x <= (y * w + x) * c) by (nonlinear_arith)
                        requires
                            c >= 1,
                            y * w + x >= 0,
                    ;
                }
                let offset = (y * w + x) * c;
                let mut k: usize = 0;
                while k < c
                    invariant
                        s.len() == len,
                        len == h * w * c,
                        len <= usize::MAX,
                        w > 0 && h > 0 && c > 0,
                        color@.len() == c,
                        x_end == box_x_end(b, w as int),
                        y_end == box_y_end(b, h as int),
                        b.y <= y < y_end,
                        b.x <= x < x_end,
                        x_end <= w,
                        y_end <= h,
                        on_border(b, x as int, y as int, w as int, h as int, t as int),
                        offset == (y * w + x) * c,
                        k <= c,
                        bytes@ == painted_upto(s, b, w as int, h as int, c as int, color@, t as int, y as int, x as int, k as int),
                    decreases c - k,
                {
                    let ghost i0 = offset + k;
                    proof {
                        lemma_pixel_index_bound(y as int, x as int, h as int, w as int, c as int, k as int);
                        lemma_pixel_decompose(i0, y as int, x as int, w as int, c as int, k as int);
                    }
                    bytes[offset + k] = color[k];
                    proof {
                        let next = painted_upto(s, b, w as int, h as int, c as int, color@, t as int, y as int, x as int, k + 1);
                        assert forall|i: int| 0 <= i < len implies #[trigger] bytes@[i] == next[i] by {
                            lemma_coords(i, w as int, c as int);
                            if i != i0 {
                                if py(i, w as int, c as int) == y && px(i, w as int, c as int) == x && i % (c as int) == k {
                                    assert(false);
                                }
                            }
                        }
                        assert(bytes@ =~= next);
                    }
                    k += 1;
                }
                proof {
                    let cur = painted_upto(s, b, w as int, h as int, c as int, color@, t as int, y as int, x as int, c as int);
                    let next = painted_upto(s, b, w as int, h as int, c as int, color@, t as int, y as int, x + 1, 0);
                    assert forall|i: int| 0 <= i < len implies #[trigger] cur[i] == next[i] by {
                        lemma_coords(i, w as int, c as int);
                    }
                    assert(cur =~= next);
                }
            } else {
                proof {
                    let cur = painted_upto(s, b, w as int, h as int, c as int, color@, t as int, y as int, x as int, 0);
                    let next = painted_upto(s, b, w as int, h as int, c as int, color@, t as int, y as int, x + 1, 0);
                    assert forall|i: int| 0 <= i < len implies #[trigger] cur[i] == next[i] by {
                        lemma_coords(i, w as int, c as int);
                    }
                    assert(cur =~= next);
                }
            }
            x += 1;
        }
        proof {
            let cur = painted_upto(s, b, w as int, h as int, c as int, color@, t as int, y as int, x_end as int, 0);
            let next = painted_upto(s, b, w as int, h as int, c as int, color@, t as int, y + 1, b.x as int, 0);
            assert forall|i: int| 0 <= i < len implies #[trigger] cur[i] == next[i] by {
                lemma_coords(i, w as int, c as int);
            }
            assert(cur =~= next);
        }
        y += 1;
    }
    proof {
        let cur = painted_upto(s, b, w as int, h as int, c as int, color@, t as int, y_end as int, b.x as int, 0);
        let fin = paint_box(s, b, w as int, h as int, c as int, color@, t as int);
        assert forall|i: int| 0 <= i < len implies #[trigger] cur[i] == fin[i] by {
            lemma_coords(i, w as int, c as int);
        }
        assert(cur =~= fin);
    }
}

/// Every box, thickness and image extent can be added without overflow.
pub open spec fn osd_fits(boxes: Seq<OsdBox>, w: int, h: int, t: int) -> bool {
    &&& w + t <= usize::MAX
    &&& h + t <= usize::MAX
    &&& forall|j: int| 0 <= j < boxes.len() ==> {
        &&& #[trigger] boxes[j].x + boxes[j].width <= usize::MAX
        &&& boxes[j].y + boxes[j].height <= usize::MAX
        &&& boxes[j].x + t <= usize::MAX
        &&& boxes[j].y + t <= usize::MAX
    }
}

/// Paints the borders of `boxes`, in order, into an interleaved `h x w x c`
/// image, `t` pixels thick, in `color` (one component per channel).
pub fn draw_osd_boxes(bytes: &mut Vec<u8>, w: usize, h: usize, c: usize, boxes: &[OsdBox], color: &[u8], t: usize)
    requires
        old(bytes)@.len() == h * w * c,
        color@.len() == c,
        t >= 1,
        osd_fits(boxes@, w as int, h as int, t as int),
    ensures
        final(bytes)@.len() == old(bytes)@.len(),
        final(bytes)@ == paint_boxes(old(bytes)@, boxes@, w as int, h as int, c as int, color@, t as int),
{
    let ghost s = bytes@;
    let mut j: usize = 0;
    assert(boxes@.take(0) =~= Seq::<OsdBox>::empty());
    while j < boxes.len()
        invariant
            s.len() == h * w * c,
            bytes@.len() == h * w * c,
            color@.len() == c,
            t >= 1,
            osd_fits(boxes@, w as int, h as int, t as int),
            j <= boxes@.len(),
            bytes@ == paint_boxes(s, boxes@.take(j as int), w as int, h as int, c as int, color@, t as int),
        decreases boxes@.len() - j,
    {
        let b = boxes[j];
        assert(boxes@[j as int] == b);
        draw_box(bytes, w, h, c, b, color, t);
        proof {
            assert(boxes@.take(j + 1).drop_last() =~= boxes@.take(j as int));
            assert(boxes@.take(j + 1).last() == b);
        }
        j += 1;
    }
    assert(boxes@.take(boxes@.len() as int) =~= boxes@);
}

} // verus!
