//! Pixel bookkeeping of detector input: which layout an image tensor has,
//! moving between channel-first and channel-last order, and placing a
//! scaled image in the middle of a padded canvas (letterboxing).
use crate::graph::error::GraphError;
use crate::types::DataFormat;
use vstd::prelude::*;

verus! {

/// The position of (row `y`, column `x`, channel `c`) in a channel-last
/// image `w` pixels wide with `cs` channels.
pub open spec fn hwc_at(cs: int, w: int, y: int, x: int, c: int) -> int {
    (y * w + x) * cs + c
}

/// The position of (row `y`, column `x`, channel `c`) in a channel-first
/// image `h` pixels high and `w` pixels wide.
pub open spec fn chw_at(h: int, w: int, y: int, x: int, c: int) -> int {
    (c * h + y) * w + x
}

/// `a * m + b` stays below `n * m` for `a < n` and `b < m`.
proof fn lemma_mixed_bound(a: int, b: int, n: int, m: int)
    requires
        0 <= a < n,
        0 <= b < m,
    ensures
        0 <= a * m + b < n * m,
{
    assert(0 <= a * m + b < n * m) by (nonlinear_arith)
        requires
            0 <= a < n,
            0 <= b < m,
    ;
}

/// Splitting `t` by `d`: the quotient and remainder `t == q * d + r`.
proof fn lemma_split(t: int, d: int, q: int, r: int)
    requires
        d > 0,
        0 <= r < d,
        t == q * d + r,
    ensures
        t / d == q,
        t % d == r,
{
    vstd::arithmetic::div_mod::lemma_fundamental_div_mod_converse(t, d, q, r);
}

/// The quotient and remainder of `t` by `d` put `t` back together.
proof fn lemma_parts(t: int, d: int)
    requires
        d > 0,
        t >= 0,
    ensures
        t == (t / d) * d + t % d,
        0 <= t % d < d,
        t / d >= 0,
{
    vstd::arithmetic::div_mod::lemma_fundamental_div_mod(t, d);
    vstd::arithmetic::div_mod::lemma_mod_bound(t, d);
    vstd::arithmetic::mul::lemma_mul_is_commutative(t / d, d);
    vstd::arithmetic::div_mod::lemma_div_pos_is_pos(t, d);
}

/// Below `n * d`, the quotient by `d` is below `n`.
proof fn lemma_quotient_below(t: int, d: int, n: int)
    requires
        d > 0,
        0 <= t < n * d,
    ensures
        t / d < n,
{
    lemma_parts(t, d);
    let q = t / d;
    assert(q < n) by (nonlinear_arith)
        requires
            t == q * d + t % d,
            0 <= t % d,
            t < n * d,
            d > 0,
    ;
}

/// The channel-first position of the pixel at channel-last position `t`.
pub open spec fn chw_source(cs: int, h: int, w: int, t: int) -> int {
    chw_at(h, w, (t / cs) / w, (t / cs) % w, t % cs)
}

/// The channel-last position of the pixel at channel-first position `t`.
pub open spec fn hwc_source(cs: int, h: int, w: int, t: int) -> int {
    hwc_at(cs, w, (t / w) % h, t % w, (t / w) / h)
}

/// A channel-last position names one pixel and channel, and its
/// channel-first counterpart lies in the image.
proof fn lemma_hwc_position(cs: int, h: int, w: int, y: int, x: int, c: int)
    requires
        0 <= y < h,
        0 <= x < w,
        0 <= c < cs,
    ensures
        0 <= hwc_at(cs, w, y, x, c) < cs * h * w,
        chw_source(cs, h, w, hwc_at(cs, w, y, x, c)) == chw_at(h, w, y, x, c),
        0 <= chw_at(h, w, y, x, c) < cs * h * w,
{
    let t = hwc_at(cs, w, y, x, c);
    lemma_mixed_bound(y, x, h, w);
    lemma_mixed_bound(y * w + x, c, h * w, cs);
    lemma_split(t, cs, y * w + x, c);
    lemma_split(y * w + x, w, y, x);
    lemma_mixed_bound(c, y, cs, h);
    lemma_mixed_bound(c * h + y, x, cs * h, w);
    assert(h * w * cs == cs * h * w) by (nonlinear_arith);
}

/// A channel-first position names one pixel and channel, and its
/// channel-last counterpart lies in the image.
proof fn lemma_chw_position(cs: int, h: int, w: int, y: int, x: int, c: int)
    requires
        0 <= y < h,
        0 <= x < w,
        0 <= c < cs,
    ensures
        0 <= chw_at(h, w, y, x, c) < cs * h * w,
        hwc_source(cs, h, w, chw_at(h, w, y, x, c)) == hwc_at(cs, w, y, x, c),
        0 <= hwc_at(cs, w, y, x, c) < cs * h * w,
{
    let t = chw_at(h, w, y, x, c);
    lemma_mixed_bound(c, y, cs, h);
    lemma_mixed_bound(c * h + y, x, cs * h, w);
    lemma_split(t, w, c * h + y, x);
    lemma_split(c * h + y, h, c, y);
    lemma_mixed_bound(y, x, h, w);
    lemma_mixed_bound(y * w + x, c, h * w, cs);
    assert(h * w * cs == cs * h * w) by (nonlinear_arith);
}

/// A position of an image splits into a row, a column and a channel in
/// range.
proof fn lemma_hwc_parts(cs: int, h: int, w: int, t: int)
    requires
        cs > 0,
        h > 0,
        w > 0,
        0 <= t < cs * h * w,
    ensures
        0 <= (t / cs) / w < h,
        0 <= (t / cs) % w < w,
        0 <= t % cs < cs,
        t == hwc_at(cs, w, (t / cs) / w, (t / cs) % w, t % cs),
{
    lemma_parts(t, cs);
    lemma_parts(t / cs, w);
    assert(cs * h * w == (h * w) * cs) by (nonlinear_arith);
    lemma_quotient_below(t, cs, h * w);
    lemma_quotient_below(t / cs, w, h);
}

/// A position of an image splits into a channel, a row and a column in
/// range.
proof fn lemma_chw_parts(cs: int, h: int, w: int, t: int)
    requires
        cs > 0,
        h > 0,
        w > 0,
        0 <= t < cs * h * w,
    ensures
        0 <= (t / w) % h < h,
        0 <= t % w < w,
        0 <= (t / w) / h < cs,
        t == chw_at(h, w, (t / w) % h, t % w, (t / w) / h),
{
    lemma_parts(t, w);
    lemma_parts(t / w, h);
    lemma_quotient_below(t, w, cs * h);
    lemma_quotient_below(t / w, h, cs);
}

/// A channel-first image rearranged channel-last.
pub open spec fn channels_last<T>(v: Seq<T>, cs: int, h: int, w: int) -> Seq<T> {
    Seq::new(v.len(), |t: int| v[chw_source(cs, h, w, t)])
}

/// A channel-last image rearranged channel-first.
pub open spec fn channels_first<T>(v: Seq<T>, cs: int, h: int, w: int) -> Seq<T> {
    Seq::new(v.len(), |t: int| v[hwc_source(cs, h, w, t)])
}

/// Rearranges a channel-first image of `channels` planes `height` by
/// `width` into channel-last order: the value of each pixel and channel
/// moves to its channel-last position.
pub fn to_channels_last<T: Copy>(values: &Vec<T>, channels: usize, height: usize, width: usize) -> (r: Vec<T>)
    requires
        values@.len() == channels * height * width,
    ensures
        r@ == channels_last(values@, channels as int, height as int, width as int),
        forall|y: int, x: int, c: int|
            #![trigger hwc_at(channels as int, width as int, y, x, c)]
            0 <= y < height && 0 <= x < width && 0 <= c < channels ==> r@[hwc_at(
                channels as int,
                width as int,
                y,
                x,
                c,
            )] == values@[chw_at(height as int, width as int, y, x, c)],
{
    let ghost (cs, h, w) = (channels as int, height as int, width as int);
    let n = values.len();
    let mut out: Vec<T> = Vec::new();
    let mut t: usize = 0;
    while t < n
        invariant
            n == values@.len(),
            n == cs * h * w,
            cs == channels as int,
            h == height as int,
            w == width as int,
            t <= n,
            out@.len() == t,
            forall|i: int| 0 <= i < t ==> out@[i] == values@[chw_source(cs, h, w, i)],
        decreases n - t,
    {
        proof {
            if channels == 0 || height == 0 || width == 0 {
                assert(cs * h * w == 0) by (nonlinear_arith)
                    requires
                        cs == 0 || h == 0 || w == 0,
                ;
            }
            lemma_hwc_parts(cs, h, w, t as int);
        }
        let c = t % channels;
        let q = t / channels;
        let x = q % width;
        let y = q / width;
        proof {
            lemma_hwc_position(cs, h, w, y as int, x as int, c as int);
            lemma_mixed_bound(c as int, y as int, cs, h);
            assert(cs * h <= cs * h * w) by (nonlinear_arith)
                requires
                    w >= 1,
                    cs * h >= 0,
            ;
        }
        let source = (c * height + y) * width + x;
        out.push(values[source]);
        t += 1;
    }
    proof {
        assert(out@ =~= channels_last(values@, cs, h, w));
        assert forall|y: int, x: int, c: int|
            #![trigger hwc_at(cs, w, y, x, c)]
            0 <= y < h && 0 <= x < w && 0 <= c < cs implies out@[hwc_at(cs, w, y, x, c)] == values@[chw_at(
                h,
                w,
                y,
                x,
                c,
            )] by {
            lemma_hwc_position(cs, h, w, y, x, c);
        }
    }
    out
}

/// Rearranges a channel-last image of `height` by `width` pixels with
/// `channels` channels into channel-first order: the value of each pixel and
/// channel moves to its channel-first position.
pub fn to_channels_first<T: Copy>(values: &Vec<T>, channels: usize, height: usize, width: usize) -> (r: Vec<T>)
    requires
        values@.len() == channels * height * width,
    ensures
        r@ == channels_first(values@, channels as int, height as int, width as int),
        forall|y: int, x: int, c: int|
            #![trigger chw_at(height as int, width as int, y, x, c)]
            0 <= y < height && 0 <= x < width && 0 <= c < channels ==> r@[chw_at(
                height as int,
                width as int,
                y,
                x,
                c,
            )] == values@[hwc_at(channels as int, width as int, y, x, c)],
{
    let ghost (cs, h, w) = (channels as int, height as int, width as int);
    let n = values.len();
    let mut out: Vec<T> = Vec::new();
    let mut t: usize = 0;
    while t < n
        invariant
            n == values@.len(),
            n == cs * h * w,
            cs == channels as int,
            h == height as int,
            w == width as int,
            t <= n,
            out@.len() == t,
            forall|i: int| 0 <= i < t ==> out@[i] == values@[hwc_source(cs, h, w, i)],
        decreases n - t,
    {
        proof {
            if channels == 0 || height == 0 || width == 0 {
                assert(cs * h * w == 0) by (nonlinear_arith)
                    requires
                        cs == 0 || h == 0 || w == 0,
                ;
            }
            lemma_chw_parts(cs, h, w, t as int);
        }
        let x = t % width;
        let q = t / width;
        let y = q % height;
        let c = q / height;
        proof {
            lemma_chw_position(cs, h, w, y as int, x as int, c as int);
            lemma_mixed_bound(y as int, x as int, h, w);
            lemma_mixed_bound(y as int * w + x as int, c as int, h * w, cs);
            assert(h * w <= cs * h * w) by (nonlinear_arith)
                requires
                    cs >= 1,
                    h * w >= 0,
            ;
            assert(h * w * cs == cs * h * w) by (nonlinear_arith);
            assert((y * width + x) * channels <= cs * h * w) by (nonlinear_arith)
                requires
                    y * width + x < h * w,
                    channels == cs,
                    h * w * cs == cs * h * w,
                    y * width + x >= 0,
            ;
        }
        let source = (y * width + x) * channels + c;
        out.push(values[source]);
        t += 1;
    }
    proof {
        assert(out@ =~= channels_first(values@, cs, h, w));
        assert forall|y: int, x: int, c: int|
            #![trigger chw_at(h, w, y, x, c)]
            0 <= y < h && 0 <= x < w && 0 <= c < cs implies out@[chw_at(h, w, y, x, c)] == values@[hwc_at(
                cs,
                w,
                y,
                x,
                c,
            )] by {
            lemma_chw_position(cs, h, w, y, x, c);
        }
    }
    out
}

/// Rearranging an image channel-last and back channel-first gives it
/// unchanged, and so does the other way round.
pub proof fn lemma_layout_round_trip<T>(v: Seq<T>, cs: int, h: int, w: int)
    requires
        cs >= 0,
        h >= 0,
        w >= 0,
        v.len() == cs * h * w,
    ensures
        channels_first(channels_last(v, cs, h, w), cs, h, w) == v,
        channels_last(channels_first(v, cs, h, w), cs, h, w) == v,
{
    let l = channels_last(v, cs, h, w);
    let f = channels_first(v, cs, h, w);
    if cs == 0 || h == 0 || w == 0 {
        assert(cs * h * w == 0) by (nonlinear_arith)
            requires
                cs == 0 || h == 0 || w == 0,
        ;
        assert(channels_first(l, cs, h, w) =~= v);
        assert(channels_last(f, cs, h, w) =~= v);
    } else {
        assert forall|t: int| 0 <= t < v.len() implies #[trigger] channels_first(l, cs, h, w)[t] == v[t] by {
            lemma_chw_parts(cs, h, w, t);
            let (y, x, c) = ((t / w) % h, t % w, (t / w) / h);
            lemma_chw_position(cs, h, w, y, x, c);
            lemma_hwc_position(cs, h, w, y, x, c);
        }
        assert forall|t: int| 0 <= t < v.len() implies #[trigger] channels_last(f, cs, h, w)[t] == v[t] by {
            lemma_hwc_parts(cs, h, w, t);
            let (y, x, c) = ((t / cs) / w, (t / cs) % w, t % cs);
            lemma_hwc_position(cs, h, w, y, x, c);
            lemma_chw_position(cs, h, w, y, x, c);
        }
        assert(channels_first(l, cs, h, w) =~= v);
        assert(channels_last(f, cs, h, w) =~= v);
    }
}

/// The channels, height, width and channel order of an image tensor of
/// layout `format` and shape `dims`: `NCHW` as `[1, C, H, W]` or
/// `[C, H, W]`, `NHWC` as `[1, H, W, C]` or `[H, W, C]`.
pub open spec fn image_layout(format: DataFormat, dims: Seq<usize>) -> Option<(usize, usize, usize, bool)> {
    if format == DataFormat::NCHW && dims.len() == 4 && dims[0] == 1 {
        Some((dims[1], dims[2], dims[3], true))
    } else if format == DataFormat::NCHW && dims.len() == 3 {
        Some((dims[0], dims[1], dims[2], true))
    } else if format == DataFormat::NHWC && dims.len() == 4 && dims[0] == 1 {
        Some((dims[3], dims[1], dims[2], false))
    } else if format == DataFormat::NHWC && dims.len() == 3 {
        Some((dims[2], dims[0], dims[1], false))
    } else {
        None
    }
}

/// The layout of a detector's input image, as (channels, height, width,
/// channels first): one of the layouts `image_layout` knows, with three
/// channels.
pub fn detector_input_layout(format: DataFormat, dims: &Vec<usize>) -> (r: Result<
    (usize, usize, usize, bool),
    GraphError,
>)
    ensures
        match image_layout(format, dims@) {
            None => r matches Err(GraphError::Config(m)) && m@ == "yolo preprocess expects NCHW or NHWC rank 3/4 input"@,
            Some(l) => if l.0 == 3 {
                r == Ok::<(usize, usize, usize, bool), GraphError>(l)
            } else {
                r matches Err(GraphError::Config(m)) && m@ == "yolo preprocess currently expects three channels"@
            },
        },
{
    let layout = if format == DataFormat::NCHW && dims.len() == 4 && dims[0] == 1 {
        (dims[1], dims[2], dims[3], true)
    } else if format == DataFormat::NCHW && dims.len() == 3 {
        (dims[0], dims[1], dims[2], true)
    } else if format == DataFormat::NHWC && dims.len() == 4 && dims[0] == 1 {
        (dims[3], dims[1], dims[2], false)
    } else if format == DataFormat::NHWC && dims.len() == 3 {
        (dims[2], dims[0], dims[1], false)
    } else {
        return Err(GraphError::Config("yolo preprocess expects NCHW or NHWC rank 3/4 input".to_string()));
    };
    if layout.0 != 3 {
        return Err(GraphError::Config("yolo preprocess currently expects three channels".to_string()));
    }
    Ok(layout)
}

/// The layout of a classifier's input image, as (channels, height, width):
/// channel-first (`NCHW` as `[1, C, H, W]` or `[C, H, W]`) with three
/// channels.
pub fn classifier_input_layout(format: DataFormat, dims: &Vec<usize>) -> (r: Result<(usize, usize, usize), GraphError>)
    ensures
        match image_layout(format, dims@) {
            Some(l) if l.3 => if l.0 == 3 {
                r == Ok::<(usize, usize, usize), GraphError>((l.0, l.1, l.2))
            } else {
                r matches Err(GraphError::Config(m)) && m@ == "resnet expects three channels"@
            },
            _ => r matches Err(GraphError::Config(m)) && m@ == "resnet preprocess expects NCHW rank 3/4 input"@,
        },
{
    let layout = if format == DataFormat::NCHW && dims.len() == 4 && dims[0] == 1 {
        (dims[1], dims[2], dims[3])
    } else if format == DataFormat::NCHW && dims.len() == 3 {
        (dims[0], dims[1], dims[2])
    } else {
        return Err(GraphError::Config("resnet preprocess expects NCHW rank 3/4 input".to_string()));
    };
    if layout.0 != 3 {
        return Err(GraphError::Config("resnet expects three channels".to_string()));
    }
    Ok(layout)
}

/// The number of values of a `channels` by `height` by `width` image, when
/// it is counted without overflow in that order.
pub open spec fn counted(channels: int, height: int, width: int) -> Option<int> {
    if channels * height > usize::MAX || channels * height * width > usize::MAX {
        None
    } else {
        Some(channels * height * width)
    }
}

/// The values of an image of the given layout in channel-last order, once
/// their count matches the layout.
pub fn channel_last_values<T: Copy>(
    values: &Vec<T>,
    channels: usize,
    height: usize,
    width: usize,
    channel_first: bool,
) -> (r: Result<Vec<T>, GraphError>)
    ensures
        match counted(channels as int, height as int, width as int) {
            None => r matches Err(GraphError::Runtime(m)) && m@ == "input dimensions overflow"@,
            Some(n) => if values@.len() != n {
                r matches Err(GraphError::Runtime(m)) && m@ == "input tensor size does not match its descriptor"@
            } else {
                r matches Ok(v) && v@ == if channel_first {
                    channels_last(values@, channels as int, height as int, width as int)
                } else {
                    values@
                }
            },
        },
{
    let expected = match channels.checked_mul(height) {
        Some(size) => size.checked_mul(width),
        None => None,
    };
    let expected = match expected {
        Some(e) => e,
        None => {
            return Err(GraphError::Runtime("input dimensions overflow".to_string()));
        },
    };
    if values.len() != expected {
        return Err(GraphError::Runtime("input tensor size does not match its descriptor".to_string()));
    }
    if channel_first {
        Ok(to_channels_last(values, channels, height, width))
    } else {
        let mut copy: Vec<T> = Vec::new();
        let mut i: usize = 0;
        while i < values.len()
            invariant
                i <= values@.len(),
                copy@ == values@.take(i as int),
            decreases values@.len() - i,
        {
            copy.push(values[i]);
            assert(copy@ =~= values@.take(i + 1));
            i += 1;
        }
        assert(values@.take(values@.len() as int) =~= values@);
        Ok(copy)
    }
}

/// `a * b` where it fits a `usize`, and `usize::MAX` where it does not.
pub open spec fn saturating_product(a: int, b: int) -> int {
    if a * b > usize::MAX {
        usize::MAX as int
    } else {
        a * b
    }
}

/// The source pixel (row or column) that position `i` of a side scaled
/// from `size` to `scaled` pixels shows: the nearest below `i * size /
/// scaled`.
pub open spec fn source_at(i: int, size: int, scaled: int) -> int {
    saturating_product(i, size) / scaled
}

/// What the canvas shows at (row `y`, column `x`, channel `c`): inside the
/// centred `rw` by `rh` window, the source pixel it scales from; elsewhere
/// `pad`.
pub open spec fn canvas_value<T>(
    source: Seq<T>,
    cs: int,
    sw: int,
    sh: int,
    tw: int,
    th: int,
    rw: int,
    rh: int,
    pad: T,
    y: int,
    x: int,
    c: int,
) -> T {
    let px = (tw - rw) / 2;
    let py = (th - rh) / 2;
    if py <= y < py + rh && px <= x < px + rw {
        source[hwc_at(cs, sw, source_at(y - py, sh, rh), source_at(x - px, sw, rw), c)]
    } else {
        pad
    }
}

/// Checks the sizes of an image to letterbox: channels, a source of the
/// stated size, and non-empty sides.
pub fn letterbox_check(len: usize, channels: usize, sw: usize, sh: usize, tw: usize, th: usize) -> (r: Result<
    (),
    String,
>)
    ensures
        channels == 0 ==> (r matches Err(m) && m@ == "resize channels must be non-zero"@),
        channels != 0 && sw * sh * channels > usize::MAX ==> (r matches Err(m) && m@ == "resize source size overflow"@),
        channels != 0 && sw * sh * channels <= usize::MAX && len != sw * sh * channels ==> (r matches Err(m) && m@
            == "resize source length does not match dimensions"@),
        channels != 0 && len == sw * sh * channels && (sw == 0 || sh == 0 || tw == 0 || th == 0) ==> (r matches Err(m)
            && m@ == "letterbox dimensions must be non-zero"@),
        channels != 0 && len == sw * sh * channels && sw != 0 && sh != 0 && tw != 0 && th != 0 ==> r is Ok,
{
    if channels == 0 {
        return Err("resize channels must be non-zero".to_string());
    }
    let expected = match sw.checked_mul(sh) {
        Some(size) => size.checked_mul(channels),
        None => {
            assert(sw * sh * channels >= sw * sh) by (nonlinear_arith)
                requires
                    channels >= 1,
                    sw * sh >= 0,
            ;
            None
        },
    };
    match expected {
        None => Err("resize source size overflow".to_string()),
        Some(e) => if len != e {
            Err("resize source length does not match dimensions".to_string())
        } else if sw == 0 || sh == 0 || tw == 0 || th == 0 {
            Err("letterbox dimensions must be non-zero".to_string())
        } else {
            Ok(())
        },
    }
}

/// The scaled position `i` on a side scaled from `size` to `scaled` pixels
/// names a source pixel.
proof fn lemma_source_in_range(i: int, size: int, scaled: int)
    requires
        0 <= i < scaled,
        size > 0,
    ensures
        0 <= source_at(i, size, scaled) < size,
{
    let v = saturating_product(i, size);
    assert(0 <= i * size < scaled * size) by (nonlinear_arith)
        requires
            0 <= i < scaled,
            size > 0,
    ;
    assert(v < size * scaled) by (nonlinear_arith)
        requires
            v <= i * size,
            i * size < scaled * size,
    ;
    lemma_quotient_below(v, scaled, size);
    vstd::arithmetic::div_mod::lemma_div_pos_is_pos(v, scaled);
}

/// A `tw` by `th` canvas of `channels` channels, filled with `pad`, with
/// the source image (`sw` by `sh`, channel-last) scaled to `rw` by `rh` by
/// nearest pixels and centred on it; the canvas is channel-last too.
pub fn place_letterboxed<T: Copy>(
    source: &Vec<T>,
    channels: usize,
    sw: usize,
    sh: usize,
    tw: usize,
    th: usize,
    rw: usize,
    rh: usize,
    pad: T,
) -> (r: Result<Vec<T>, String>)
    requires
        channels > 0,
        sw > 0,
        sh > 0,
        source@.len() == sw * sh * channels,
        1 <= rw <= tw,
        1 <= rh <= th,
    ensures
        tw * th * channels > usize::MAX ==> (r matches Err(m) && m@ == "resize target size overflow"@),
        tw * th * channels <= usize::MAX ==> (r matches Ok(out) && out@.len() == tw * th * channels && forall|
            y: int,
            x: int,
            c: int,
        |
            #![trigger hwc_at(channels as int, tw as int, y, x, c)]
            0 <= y < th && 0 <= x < tw && 0 <= c < channels ==> out@[hwc_at(channels as int, tw as int, y, x, c)]
                == canvas_value(
                source@,
                channels as int,
                sw as int,
                sh as int,
                tw as int,
                th as int,
                rw as int,
                rh as int,
                pad,
                y,
                x,
                c,
            )),
{
    let ghost (cs, w, h) = (channels as int, tw as int, th as int);
    let n = match tw.checked_mul(th) {
        Some(size) => size.checked_mul(channels),
        None => {
            assert(tw * th * channels >= tw * th) by (nonlinear_arith)
                requires
                    channels >= 1,
                    tw * th >= 0,
            ;
            None
        },
    };
    let n = match n {
        Some(n) => n,
        None => {
            return Err("resize target size overflow".to_string());
        },
    };
    assert(tw * th * channels == cs * h * w) by (nonlinear_arith)
        requires
            cs == channels as int,
            w == tw as int,
            h == th as int,
    ;
    let pad_x = (tw - rw) / 2;
    let pad_y = (th - rh) / 2;
    let source_len = source.len();
    let mut out: Vec<T> = Vec::new();
    let mut t: usize = 0;
    while t < n
        invariant
            n == cs * h * w,
            cs == channels as int,
            w == tw as int,
            h == th as int,
            channels > 0,
            sw > 0,
            sh > 0,
            source@.len() == sw * sh * channels,
            source_len == source@.len(),
            1 <= rw <= tw,
            1 <= rh <= th,
            pad_x == (tw - rw) / 2,
            pad_y == (th - rh) / 2,
            t <= n,
            out@.len() == t,
            forall|i: int|
                0 <= i < t ==> out@[i] == canvas_value(
                    source@,
                    cs,
                    sw as int,
                    sh as int,
                    w,
                    h,
                    rw as int,
                    rh as int,
                    pad,
                    (i / cs) / w,
                    (i / cs) % w,
                    i % cs,
                ),
        decreases n - t,
    {
        proof {
            lemma_hwc_parts(cs, h, w, t as int);
        }
        let c = t % channels;
        let p = t / channels;
        let x = p % tw;
        let y = p / tw;
        let inside = pad_y <= y && y < pad_y + rh && pad_x <= x && x < pad_x + rw;
        if inside {
            let sy = match (y - pad_y).checked_mul(sh) {
                Some(v) => v / rh,
                None => usize::MAX / rh,
            };
            let sx = match (x - pad_x).checked_mul(sw) {
                Some(v) => v / rw,
                None => usize::MAX / rw,
            };
            proof {
                lemma_source_in_range((y - pad_y) as int, sh as int, rh as int);
                lemma_source_in_range((x - pad_x) as int, sw as int, rw as int);
                lemma_hwc_position(cs, sh as int, sw as int, sy as int, sx as int, c as int);
                assert(cs * sh * sw == sw * sh * channels) by (nonlinear_arith)
                    requires
                        cs == channels as int,
                ;
                lemma_mixed_bound(sy as int, sx as int, sh as int, sw as int);
                lemma_mixed_bound(sy as int * sw + sx as int, c as int, sh * sw, cs);
                assert(sh * sw <= sw * sh * channels) by (nonlinear_arith)
                    requires
                        channels >= 1,
                        sh * sw >= 0,
                ;
                assert((sy * sw + sx) * channels <= sw * sh * channels) by (nonlinear_arith)
                    requires
                        sy * sw + sx < sh * sw,
                        sy * sw + sx >= 0,
                        channels > 0,
                ;
            }
            let index = (sy * sw + sx) * channels + c;
            out.push(source[index]);
        } else {
            out.push(pad);
        }
        t += 1;
    }
    proof {
        assert forall|y: int, x: int, c: int|
            #![trigger hwc_at(cs, w, y, x, c)]
            0 <= y < h && 0 <= x < w && 0 <= c < cs implies out@[hwc_at(cs, w, y, x, c)] == canvas_value(
                source@,
                cs,
                sw as int,
                sh as int,
                w,
                h,
                rw as int,
                rh as int,
                pad,
                y,
                x,
                c,
            ) by {
            lemma_hwc_position(cs, h, w, y, x, c);
            let t = hwc_at(cs, w, y, x, c);
            lemma_mixed_bound(y, x, h, w);
            lemma_split(t, cs, y * w + x, c);
            lemma_split(y * w + x, w, y, x);
        }
    }
    Ok(out)
}

} // verus!
