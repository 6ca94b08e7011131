//! Integer BT.601 conversion between packed RGB24 and planar I420.
//!
//! I420 holds a full-resolution luma plane followed by two chroma planes at
//! half resolution in each direction (rounded up). Each chroma sample averages
//! the chroma of the (up to four) pixels of its 2x2 block.
use crate::error::Error;
use vstd::prelude::*;

verus! {

/// `v` clamped to `0..=255`.
pub open spec fn clamp_byte(v: int) -> u8 {
    if v < 0 {
        0
    } else if v > 255 {
        255
    } else {
        v as u8
    }
}

/// Saturates an `i32` into a byte.
pub fn clamp_u8(value: i32) -> (r: u8)
    ensures
        r == clamp_byte(value as int),
{
    if value < 0 {
        0
    } else if value > 255 {
        255
    } else {
        value as u8
    }
}

/// `x` divided by 256, rounded down (an arithmetic shift right by eight).
fn shr8(x: i32) -> (r: i32)
    ensures
        r == x / 256,
{
    match x.checked_div_euclid(256) {
        Some(q) => q,
        None => 0,
    }
}

/// Luma of one RGB pixel.
pub open spec fn luma(r: int, g: int, b: int) -> u8 {
    clamp_byte((66 * r + 129 * g + 25 * b + 128) / 256 + 16)
}

/// Blue-difference chroma of one RGB pixel, before averaging.
pub open spec fn u_term(r: int, g: int, b: int) -> int {
    (-38 * r - 74 * g + 112 * b + 128) / 256 + 128
}

/// Red-difference chroma of one RGB pixel, before averaging.
pub open spec fn v_term(r: int, g: int, b: int) -> int {
    (112 * r - 94 * g - 18 * b + 128) / 256 + 128
}

/// Chroma planes are half the width and height, rounded up.
pub open spec fn half_up(n: int) -> int {
    (n + 1) / 2
}

/// The three components of pixel `p` of a packed RGB24 image.
pub open spec fn rgb_at(rgb: Seq<u8>, p: int) -> (int, int, int) {
    (rgb[3 * p] as int, rgb[3 * p + 1] as int, rgb[3 * p + 2] as int)
}

/// The average of `term` over the pixels of chroma block `(row, col)`.
pub open spec fn block_average(rgb: Seq<u8>, w: int, h: int, row: int, col: int, use_u: bool) -> int {
    let term = |p: int|
        if use_u {
            u_term(rgb_at(rgb, p).0, rgb_at(rgb, p).1, rgb_at(rgb, p).2)
        } else {
            v_term(rgb_at(rgb, p).0, rgb_at(rgb, p).1, rgb_at(rgb, p).2)
        };
    let right = 2 * col + 1 < w;
    let below = 2 * row + 1 < h;
    let top = 2 * row * w + 2 * col;
    let bottom = (2 * row + 1) * w + 2 * col;
    let sum = term(top) + (if right { term(top + 1) } else { 0 }) + (if below { term(bottom) } else { 0 })
        + (if right && below { term(bottom + 1) } else { 0 });
    let samples = 1 + (if right { 1int } else { 0 }) + (if below { 1int } else { 0 }) + (if right && below { 1int } else { 0 });
    sum / samples
}

/// The I420 image of a `w x h` RGB24 image.
pub open spec fn i420_of(rgb: Seq<u8>, w: int, h: int) -> Seq<u8> {
    let pixels = w * h;
    let cw = half_up(w);
    let chroma = cw * half_up(h);
    Seq::new(
        (pixels + 2 * chroma) as nat,
        |i: int|
            if i < pixels {
                luma(rgb_at(rgb, i).0, rgb_at(rgb, i).1, rgb_at(rgb, i).2)
            } else if i < pixels + chroma {
                clamp_byte(block_average(rgb, w, h, (i - pixels) / cw, (i - pixels) % cw, true))
            } else {
                clamp_byte(block_average(rgb, w, h, (i - pixels - chroma) / cw, (i - pixels - chroma) % cw, false))
            },
    )
}

/// Red, green and blue of one pixel from its luma and chroma samples.
pub open spec fn rgb_from_yuv(y: int, u: int, v: int) -> (u8, u8, u8) {
    let c = y - 16;
    let d = u - 128;
    let e = v - 128;
    (
        clamp_byte((298 * c + 409 * e + 128) / 256),
        clamp_byte((298 * c - 100 * d - 208 * e + 128) / 256),
        clamp_byte((298 * c + 516 * d + 128) / 256),
    )
}

/// Chroma sample offset of pixel `p` in a plane `cw` samples wide.
pub open spec fn chroma_offset(p: int, w: int, cw: int) -> int {
    (p / w / 2) * cw + (p % w) / 2
}

/// The RGB of pixel `p` of a `w x h` I420 image.
pub open spec fn pixel_rgb(i420: Seq<u8>, w: int, h: int, p: int) -> (u8, u8, u8) {
    let pixels = w * h;
    let chroma = half_up(w) * half_up(h);
    let co = chroma_offset(p, w, half_up(w));
    rgb_from_yuv(i420[p] as int, i420[pixels + co] as int, i420[pixels + chroma + co] as int)
}

/// Byte `i` of the RGB24 image of a `w x h` I420 image.
pub open spec fn rgb_byte(i420: Seq<u8>, w: int, h: int, i: int) -> u8 {
    let px = pixel_rgb(i420, w, h, i / 3);
    if i % 3 == 0 {
        px.0
    } else if i % 3 == 1 {
        px.1
    } else {
        px.2
    }
}

/// The RGB24 image of a `w x h` I420 image.
pub open spec fn rgb_of(i420: Seq<u8>, w: int, h: int) -> Seq<u8> {
    Seq::new((3 * (w * h)) as nat, |i: int| rgb_byte(i420, w, h, i))
}

proof fn lemma_rgb_bytes_of_pixel(i420: Seq<u8>, w: int, h: int, p: int)
    requires
        p >= 0,
    ensures
        rgb_byte(i420, w, h, 3 * p) == pixel_rgb(i420, w, h, p).0,
        rgb_byte(i420, w, h, 3 * p + 1) == pixel_rgb(i420, w, h, p).1,
        rgb_byte(i420, w, h, 3 * p + 2) == pixel_rgb(i420, w, h, p).2,
{
    let b = 3 * p;
    assert(b / 3 == p && b % 3 == 0 && (b + 1) / 3 == p && (b + 1) % 3 == 1 && (b + 2) / 3 == p && (b + 2) % 3 == 2);
}

/// `(n + 1) / 2` without overflow.
fn half_up_exec(n: usize) -> (r: usize)
    ensures
        r == half_up(n as int),
{
    n / 2 + n % 2
}

fn luma_exec(r: u8, g: u8, b: u8) -> (y: u8)
    ensures
        y == luma(r as int, g as int, b as int),
{
    let y = shr8(66 * (r as i32) + 129 * (g as i32) + 25 * (b as i32) + 128) + 16;
    clamp_u8(y)
}

fn u_exec(r: u8, g: u8, b: u8) -> (u: i32)
    ensures
        u == u_term(r as int, g as int, b as int),
        16 <= u <= 240,
{
    let (r, g, b) = (r as i32, g as i32, b as i32);
    let x = 112 * b + 128 - 38 * r - 74 * g;
    let q = shr8(x);
    assert(-112 <= q <= 112) by (nonlinear_arith)
        requires
            q == x / 256,
            -28432 <= x <= 28688,
    ;
    q + 128
}

fn v_exec(r: u8, g: u8, b: u8) -> (v: i32)
    ensures
        v == v_term(r as int, g as int, b as int),
        16 <= v <= 240,
{
    let (r, g, b) = (r as i32, g as i32, b as i32);
    let x = 112 * r + 128 - 94 * g - 18 * b;
    let q = shr8(x);
    assert(-112 <= q <= 112) by (nonlinear_arith)
        requires
            q == x / 256,
            -28462 <= x <= 28688,
    ;
    q + 128
}

/// Chroma block `(row, col)` of chroma index `ci` lies inside the image.
proof fn lemma_block_inside(w: int, h: int, ci: int)
    requires
        w >= 1,
        h >= 1,
        0 <= ci < half_up(w) * half_up(h),
    ensures
        0 <= ci / half_up(w) < half_up(h),
        0 <= ci % half_up(w) < half_up(w),
        2 * (ci / half_up(w)) < h,
        2 * (ci % half_up(w)) < w,
        2 * (ci / half_up(w)) * w + 2 * (ci % half_up(w)) < w * h,
        2 * (ci / half_up(w)) + 1 < h ==> (2 * (ci / half_up(w)) + 1) * w + 2 * (ci % half_up(w)) < w * h,
        2 * (ci % half_up(w)) + 1 < w ==> 2 * (ci / half_up(w)) * w + 2 * (ci % half_up(w)) + 1 < w * h,
        (2 * (ci / half_up(w)) + 1) * w == 2 * (ci / half_up(w)) * w + w,
{
    let cw = half_up(w);
    let ch = half_up(h);
    let row = ci / cw;
    let col = ci % cw;
    assert(cw >= 1);
    assert(0 <= row < ch && 0 <= col < cw) by (nonlinear_arith)
        requires
            cw >= 1,
            0 <= ci < cw * ch,
            row == ci / cw,
            col == ci % cw,
    ;
    assert(2 * row < h && 2 * col < w);
    assert(2 * row * w + 2 * col < w * h && (2 * row + 1 < h ==> (2 * row + 1) * w + 2 * col < w * h)
        && (2 * col + 1 < w ==> 2 * row * w + 2 * col + 1 < w * h) && (2 * row + 1) * w == 2 * row * w + w) by (nonlinear_arith)
        requires
            0 <= 2 * row < h,
            0 <= 2 * col < w,
    ;
}

/// The chroma average of one 2x2 block (fewer pixels at the right and
/// bottom edges).
fn block_exec(rgb: &[u8], w: usize, h: usize, row: usize, col: usize, use_u: bool) -> (r: u8)
    requires
        rgb@.len() == 3 * w * h,
        3 * w * h <= usize::MAX,
        2 * row < h,
        2 * col < w,
        2 * row * w + 2 * col < w * h,
        2 * row + 1 < h ==> (2 * row + 1) * w + 2 * col < w * h,
        2 * col + 1 < w ==> 2 * row * w + 2 * col + 1 < w * h,
        (2 * row + 1) * w == 2 * row * w + w,
    ensures
        r == clamp_byte(block_average(rgb@, w as int, h as int, row as int, col as int, use_u)),
{
    let ghost s = rgb@;
    proof {
        assert(2 * row * w <= w * h) by (nonlinear_arith)
            requires
                2 * row < h,
        ;
        assert(3 * (w * h) == 3 * w * h) by (nonlinear_arith);
    }
    let top = 2 * row * w + 2 * col;
    let right = 2 * col + 1 < w;
    let below = 2 * row + 1 < h;
    let mut sum: i32 = 0;
    let mut samples: i32 = 0;
    let t0 = if use_u {
        u_exec(rgb[3 * top], rgb[3 * top + 1], rgb[3 * top + 2])
    } else {
        v_exec(rgb[3 * top], rgb[3 * top + 1], rgb[3 * top + 2])
    };
    sum = sum + t0;
    samples = samples + 1;
    let mut t1: i32 = 0;
    if right {
        let p = top + 1;
        t1 = if use_u {
            u_exec(rgb[3 * p], rgb[3 * p + 1], rgb[3 * p + 2])
        } else {
            v_exec(rgb[3 * p], rgb[3 * p + 1], rgb[3 * p + 2])
        };
        sum = sum + t1;
        samples = samples + 1;
    }
    let mut t2: i32 = 0;
    if below {
        assert(top + w < w * h);
        let p = top + w;
        assert(3 * p + 2 < 3 * w * h);
        t2 = if use_u {
            u_exec(rgb[3 * p], rgb[3 * p + 1], rgb[3 * p + 2])
        } else {
            v_exec(rgb[3 * p], rgb[3 * p + 1], rgb[3 * p + 2])
        };
        sum = sum + t2;
        samples = samples + 1;
    }
    let mut t3: i32 = 0;
    if right && below {
        assert(top + w + 1 < w * h) by (nonlinear_arith)
            requires
                top == 2 * row * w + 2 * col,
                2 * row + 1 < h,
                2 * col + 1 < w,
        ;
        let p = top + w + 1;
        assert(3 * p + 2 < 3 * w * h);
        t3 = if use_u {
            u_exec(rgb[3 * p], rgb[3 * p + 1], rgb[3 * p + 2])
        } else {
            v_exec(rgb[3 * p], rgb[3 * p + 1], rgb[3 * p + 2])
        };
        sum = sum + t3;
        samples = samples + 1;
    }
    let avg = match sum.checked_div_euclid(samples) {
        Some(q) => q,
        None => 0,
    };
    clamp_u8(avg)
}

/// The sizes an RGB24 to I420 conversion needs fit in `usize`.
pub open spec fn i420_sizes_fit(w: int, h: int) -> bool {
    &&& w * h * 3 <= usize::MAX
    &&& w * h + 2 * (half_up(w) * half_up(h)) <= usize::MAX
}

fn overflow_error() -> (r: Error)
    ensures
        r matches Error::Media(_),
{
    Error::Media("image dimensions overflow".to_string())
}

/// Converts a packed `width x height` RGB24 image to planar I420.
pub fn rgb_to_i420(rgb: &[u8], width: usize, height: usize) -> (r: Result<Vec<u8>, Error>)
    ensures
        width * height * 3 > usize::MAX ==> r matches Err(Error::Media(_)),
        width * height * 3 <= usize::MAX && rgb@.len() != width * height * 3 ==> r matches Err(Error::Media(_)),
        width * height * 3 <= usize::MAX && rgb@.len() == width * height * 3 && !i420_sizes_fit(width as int, height as int)
            ==> r matches Err(Error::Media(_)),
        rgb@.len() == width * height * 3 && i420_sizes_fit(width as int, height as int)
            ==> (r matches Ok(out) && out@ == i420_of(rgb@, width as int, height as int)),
{
    let pixel_count = match width.checked_mul(height) {
        Some(n) => n,
        None => {
            assert(width * height * 3 > usize::MAX) by (nonlinear_arith)
                requires
                    width * height > usize::MAX,
            ;
            return Err(overflow_error());
        },
    };
    let expected = match pixel_count.checked_mul(3) {
        Some(n) => n,
        None => return Err(overflow_error()),
    };
    if rgb.len() != expected {
        return Err(
            Error::Media(
                "RGB24 buffer must contain ".to_owned().concat(expected.to_string().as_str()).concat(
                    " bytes, got ",
                ).concat(rgb.len().to_string().as_str()),
            ),
        );
    }
    let chroma_width = half_up_exec(width);
    let chroma_height = half_up_exec(height);
    let chroma_len = match chroma_width.checked_mul(chroma_height) {
        Some(n) => n,
        None => return Err(overflow_error()),
    };
    let total = match pixel_count.checked_add(chroma_len) {
        Some(n) => match n.checked_add(chroma_len) {
            Some(t) => t,
            None => return Err(overflow_error()),
        },
        None => return Err(overflow_error()),
    };
    let ghost spec = i420_of(rgb@, width as int, height as int);
    proof {
        assert(3 * width * height == width * height * 3) by (nonlinear_arith);
    }
    let mut out: Vec<u8> = Vec::new();
    let mut p: usize = 0;
    while p < pixel_count
        invariant
            pixel_count == width * height,
            rgb@.len() == pixel_count * 3,
            pixel_count * 3 <= usize::MAX,
            chroma_width == half_up(width as int),
            chroma_len == half_up(width as int) * half_up(height as int),
            total == pixel_count + 2 * chroma_len,
            spec == i420_of(rgb@, width as int, height as int),
            p <= pixel_count,
            out@ == spec.take(p as int),
        decreases pixel_count - p,
    {
        let y = luma_exec(rgb[3 * p], rgb[3 * p + 1], rgb[3 * p + 2]);
        out.push(y);
        p += 1;
        assert(out@ =~= spec.take(p as int));
    }
    let mut pass: usize = 0;
    while pass < 2
        invariant
            pixel_count == width * height,
            rgb@.len() == pixel_count * 3,
            3 * width * height == width * height * 3,
            pixel_count * 3 <= usize::MAX,
            chroma_width == half_up(width as int),
            chroma_len == half_up(width as int) * half_up(height as int),
            total == pixel_count + 2 * chroma_len,
            spec == i420_of(rgb@, width as int, height as int),
            pass <= 2,
            out@ == spec.take(pixel_count + pass * chroma_len),
        decreases 2 - pass,
    {
        let mut ci: usize = 0;
        while ci < chroma_len
            invariant
                pixel_count == width * height,
                rgb@.len() == pixel_count * 3,
                3 * width * height == width * height * 3,
                pixel_count * 3 <= usize::MAX,
                chroma_width == half_up(width as int),
                chroma_len == half_up(width as int) * half_up(height as int),
                total == pixel_count + 2 * chroma_len,
                spec == i420_of(rgb@, width as int, height as int),
                pass < 2,
                ci <= chroma_len,
                out@ == spec.take(pixel_count + pass * chroma_len + ci),
            decreases chroma_len - ci,
        {
            proof {
                assert(width >= 1 && height >= 1) by (nonlinear_arith)
                    requires
                        ci < chroma_len,
                        chroma_len == half_up(width as int) * half_up(height as int),
                ;
                lemma_block_inside(width as int, height as int, ci as int);
            }
            let row = ci / chroma_width;
            let col = ci % chroma_width;
            let c = block_exec(rgb, width, height, row, col, pass == 0);
            out.push(c);
            ci += 1;
            assert(out@ =~= spec.take(pixel_count + pass * chroma_len + ci));
        }
        assert(pass * chroma_len + chroma_len == (pass + 1) * chroma_len) by (nonlinear_arith);
        pass += 1;
    }
    assert(out@ =~= spec);
    Ok(out)
}

/// Red, green and blue of pixel `p` of an I420 image.
fn pixel_exec(i420: &[u8], width: usize, height: usize, pixel_count: usize, chroma_width: usize, chroma_len: usize, p: usize) -> (r: (u8, u8, u8))
    requires
        pixel_count == width * height,
        chroma_width == half_up(width as int),
        chroma_len == half_up(width as int) * half_up(height as int),
        i420@.len() == pixel_count + 2 * chroma_len,
        i420@.len() <= usize::MAX,
        p < pixel_count,
    ensures
        r == pixel_rgb(i420@, width as int, height as int, p as int),
{
    proof {
        assert(width >= 1) by (nonlinear_arith)
            requires
                p < pixel_count,
                pixel_count == width * height,
        ;
    }
    let row = p / width;
    let column = p % width;
    proof {
        assert(0 <= row < height && 0 <= column < width) by (nonlinear_arith)
            requires
                p < width * height,
                row == p / width,
                column == p % width,
                width >= 1,
        ;
        assert((row / 2) * chroma_width + column / 2 < chroma_len) by (nonlinear_arith)
            requires
                0 <= row < height,
                0 <= column < width,
                chroma_width == (width + 1) / 2,
                chroma_len == chroma_width * ((height + 1) / 2),
        ;
    }
    let chroma_offset = (row / 2) * chroma_width + column / 2;
    let y = i420[p] as i32 - 16;
    let u = i420[pixel_count + chroma_offset] as i32 - 128;
    let v = i420[pixel_count + chroma_len + chroma_offset] as i32 - 128;
    let red = shr8(298 * y + 409 * v + 128);
    let green = shr8(298 * y - 100 * u - 208 * v + 128);
    let blue = shr8(298 * y + 516 * u + 128);
    (clamp_u8(red), clamp_u8(green), clamp_u8(blue))
}

/// Converts a planar `width x height` I420 image to packed RGB24.
pub fn i420_to_rgb(i420: &[u8], width: usize, height: usize) -> (r: Result<Vec<u8>, Error>)
    ensures
        !i420_sizes_fit(width as int, height as int) ==> r matches Err(Error::Media(_)),
        i420_sizes_fit(width as int, height as int) && i420@.len() != width * height + 2 * (half_up(width as int) * half_up(height as int))
            ==> r matches Err(Error::Media(_)),
        i420_sizes_fit(width as int, height as int) && i420@.len() == width * height + 2 * (half_up(width as int) * half_up(height as int))
            ==> (r matches Ok(out) && out@ == rgb_of(i420@, width as int, height as int)),
{
    let pixel_count = match width.checked_mul(height) {
        Some(n) => n,
        None => return Err(overflow_error()),
    };
    let chroma_width = half_up_exec(width);
    let chroma_height = half_up_exec(height);
    let chroma_len = match chroma_width.checked_mul(chroma_height) {
        Some(n) => n,
        None => {
            assert(!i420_sizes_fit(width as int, height as int));
            return Err(overflow_error());
        },
    };
    let expected = match pixel_count.checked_add(chroma_len) {
        Some(n) => match n.checked_add(chroma_len) {
            Some(t) => t,
            None => return Err(overflow_error()),
        },
        None => return Err(overflow_error()),
    };
    if i420.len() != expected {
        return Err(
            Error::Media(
                "I420 buffer must contain ".to_owned().concat(expected.to_string().as_str()).concat(
                    " bytes, got ",
                ).concat(i420.len().to_string().as_str()),
            ),
        );
    }
    let rgb_len = match pixel_count.checked_mul(3) {
        Some(n) => n,
        None => return Err(overflow_error()),
    };
    let ghost spec = rgb_of(i420@, width as int, height as int);
    let mut out: Vec<u8> = Vec::new();
    let mut p: usize = 0;
    while p < pixel_count
        invariant
            pixel_count == width * height,
            rgb_len == pixel_count * 3,
            chroma_width == half_up(width as int),
            chroma_len == half_up(width as int) * half_up(height as int),
            i420@.len() == pixel_count + 2 * chroma_len,
            i420@.len() <= usize::MAX,
            spec == rgb_of(i420@, width as int, height as int),
            p <= pixel_count,
            out@ == spec.take(3 * p),
            spec.len() == 3 * pixel_count,
        decreases pixel_count - p,
    {
        let (red, green, blue) = pixel_exec(i420, width, height, pixel_count, chroma_width, chroma_len, p);
        out.push(red);
        out.push(green);
        out.push(blue);
        proof {
            lemma_rgb_bytes_of_pixel(i420@, width as int, height as int, p as int);
        }
        let ghost before = p;
        p += 1;
        assert(out@ =~= spec.take(3 * p)) by {
            assert forall|i: int| 0 <= i < 3 * p implies #[trigger] out@[i] == spec[i] by {
                if i >= 3 * before {
                    assert(i == 3 * before || i == 3 * before + 1 || i == 3 * before + 2);
                }
            }
        }
    }
    assert(out@ =~= spec);
    Ok(out)
}

/// `x / 256` is the floor of the quotient.
proof fn lemma_div256(x: int)
    ensures
        256 * (x / 256) <= x < 256 * (x / 256) + 256,
{
    assert(256 * (x / 256) <= x < 256 * (x / 256) + 256) by (nonlinear_arith);
}

/// `a` and `b` differ by at most `t`.
pub open spec fn within(a: int, b: int, t: int) -> bool {
    a - t <= b <= a + t
}

/// Encoding one RGB pixel to Y, U and V and decoding it again gives back
/// each of red, green and blue to within 3.
#[verifier::rlimit(100)]
proof fn lemma_pixel_round_trip(r: u8, g: u8, b: u8)
    ensures
        ({
            let back = rgb_from_yuv(
                luma(r as int, g as int, b as int) as int,
                clamp_byte(u_term(r as int, g as int, b as int)) as int,
                clamp_byte(v_term(r as int, g as int, b as int)) as int,
            );
            within(r as int, back.0 as int, 3) && within(g as int, back.1 as int, 3) && within(
                b as int,
                back.2 as int,
                3,
            )
        }),
{
    let (r, g, b) = (r as int, g as int, b as int);
    let xy = 66 * r + 129 * g + 25 * b + 128;
    let xu = -38 * r - 74 * g + 112 * b + 128;
    let xv = 112 * r - 94 * g - 18 * b + 128;
    lemma_div256(xy);
    lemma_div256(xu);
    lemma_div256(xv);
    let y = xy / 256 + 16;
    let u = xu / 256 + 128;
    let v = xv / 256 + 128;
    assert(16 <= y <= 235 && 16 <= u <= 240 && 16 <= v <= 240);
    let c = y - 16;
    let d = u - 128;
    let e = v - 128;
    let xr = 298 * c + 409 * e + 128;
    let xg = 298 * c - 100 * d - 208 * e + 128;
    let xb = 298 * c + 516 * d + 128;
    lemma_div256(xr);
    lemma_div256(xg);
    lemma_div256(xb);
    assert(within(r, clamp_byte(xr / 256) as int, 3));
    assert(within(g, clamp_byte(xg / 256) as int, 3));
    assert(within(b, clamp_byte(xb / 256) as int, 3));
}

/// A colour round trip keeps colours: converting a one-pixel RGB24 image to
/// I420 (`rgb_to_i420`) and back (`i420_to_rgb`) gives red, green and blue
/// back to within 3 each.
pub proof fn lemma_rgb_i420_round_trip(rgb: Seq<u8>)
    requires
        rgb.len() == 3,
    ensures
        i420_of(rgb, 1, 1).len() == 3,
        rgb_of(i420_of(rgb, 1, 1), 1, 1).len() == 3,
        forall|k: int|
            0 <= k < 3 ==> within(rgb[k] as int, #[trigger] rgb_of(i420_of(rgb, 1, 1), 1, 1)[k] as int, 3),
{
    let yuv = i420_of(rgb, 1, 1);
    let (r, g, b) = rgb_at(rgb, 0);
    assert(half_up(1) == 1);
    assert(yuv[0] == luma(r, g, b));
    let ut = u_term(r, g, b);
    let vt = v_term(r, g, b);
    assert(ut / 1 == ut && (ut + 0 + 0 + 0) == ut) by (nonlinear_arith);
    assert(vt / 1 == vt && (vt + 0 + 0 + 0) == vt) by (nonlinear_arith);
    assert(block_average(rgb, 1, 1, 0, 0, true) == u_term(r, g, b));
    assert(block_average(rgb, 1, 1, 0, 0, false) == v_term(r, g, b));
    assert(yuv[1] == clamp_byte(u_term(r, g, b)));
    assert(yuv[2] == clamp_byte(v_term(r, g, b)));
    lemma_pixel_round_trip(rgb[0], rgb[1], rgb[2]);
    assert(chroma_offset(0, 1, 1) == 0);
    lemma_rgb_bytes_of_pixel(yuv, 1, 1, 0);
    let back = rgb_of(yuv, 1, 1);
    assert(back[0] == pixel_rgb(yuv, 1, 1, 0).0);
    assert(back[1] == pixel_rgb(yuv, 1, 1, 0).1);
    assert(back[2] == pixel_rgb(yuv, 1, 1, 0).2);
}

/// What each component means when encoding: luma never falls as red, green
/// or blue rise; the red-difference chroma (V) rises with red and falls with
/// green and blue; the blue-difference chroma (U) rises with blue and falls
/// with red and green.
pub proof fn lemma_encode_channel_roles(r: int, g: int, b: int, r2: int, g2: int, b2: int)
    ensures
        r <= r2 && g <= g2 && b <= b2 ==> luma(r, g, b) <= luma(r2, g2, b2),
        r <= r2 ==> v_term(r, g, b) <= v_term(r2, g, b) && u_term(r2, g, b) <= u_term(r, g, b),
        g <= g2 ==> v_term(r, g2, b) <= v_term(r, g, b) && u_term(r, g2, b) <= u_term(r, g, b),
        b <= b2 ==> u_term(r, g, b) <= u_term(r, g, b2) && v_term(r, g, b2) <= v_term(r, g, b),
{
    if r <= r2 && g <= g2 && b <= b2 {
        vstd::arithmetic::div_mod::lemma_div_is_ordered(66 * r + 129 * g + 25 * b + 128, 66 * r2 + 129 * g2 + 25 * b2 + 128, 256);
    }
    if r <= r2 {
        vstd::arithmetic::div_mod::lemma_div_is_ordered(112 * r - 94 * g - 18 * b + 128, 112 * r2 - 94 * g - 18 * b + 128, 256);
        vstd::arithmetic::div_mod::lemma_div_is_ordered(-38 * r2 - 74 * g + 112 * b + 128, -38 * r - 74 * g + 112 * b + 128, 256);
    }
    if g <= g2 {
        vstd::arithmetic::div_mod::lemma_div_is_ordered(112 * r - 94 * g2 - 18 * b + 128, 112 * r - 94 * g - 18 * b + 128, 256);
        vstd::arithmetic::div_mod::lemma_div_is_ordered(-38 * r - 74 * g2 + 112 * b + 128, -38 * r - 74 * g + 112 * b + 128, 256);
    }
    if b <= b2 {
        vstd::arithmetic::div_mod::lemma_div_is_ordered(-38 * r - 74 * g + 112 * b + 128, -38 * r - 74 * g + 112 * b2 + 128, 256);
        vstd::arithmetic::div_mod::lemma_div_is_ordered(112 * r - 94 * g - 18 * b2 + 128, 112 * r - 94 * g - 18 * b + 128, 256);
    }
}

/// What each component means when decoding: red depends on luma and V
/// alone and rises with V; blue depends on luma and U alone and rises with
/// U; green falls as either chroma rises; no channel falls as luma rises.
pub proof fn lemma_decode_channel_roles(y: int, u: int, v: int, y2: int, u2: int, v2: int)
    ensures
        rgb_from_yuv(y, u, v).0 == rgb_from_yuv(y, u2, v).0,
        rgb_from_yuv(y, u, v).2 == rgb_from_yuv(y, u, v2).2,
        v <= v2 ==> rgb_from_yuv(y, u, v).0 <= rgb_from_yuv(y, u, v2).0,
        u <= u2 ==> rgb_from_yuv(y, u, v).2 <= rgb_from_yuv(y, u2, v).2,
        u <= u2 && v <= v2 ==> rgb_from_yuv(y, u2, v2).1 <= rgb_from_yuv(y, u, v).1,
        y <= y2 ==> rgb_from_yuv(y, u, v).0 <= rgb_from_yuv(y2, u, v).0 && rgb_from_yuv(y, u, v).1
            <= rgb_from_yuv(y2, u, v).1 && rgb_from_yuv(y, u, v).2 <= rgb_from_yuv(y2, u, v).2,
{
    let (c, d, e) = (y - 16, u - 128, v - 128);
    let (c2, d2, e2) = (y2 - 16, u2 - 128, v2 - 128);
    if v <= v2 {
        vstd::arithmetic::div_mod::lemma_div_is_ordered(298 * c + 409 * e + 128, 298 * c + 409 * e2 + 128, 256);
    }
    if u <= u2 {
        vstd::arithmetic::div_mod::lemma_div_is_ordered(298 * c + 516 * d + 128, 298 * c + 516 * d2 + 128, 256);
    }
    if u <= u2 && v <= v2 {
        vstd::arithmetic::div_mod::lemma_div_is_ordered(298 * c - 100 * d2 - 208 * e2 + 128, 298 * c - 100 * d - 208 * e + 128, 256);
    }
    if y <= y2 {
        vstd::arithmetic::div_mod::lemma_div_is_ordered(298 * c + 409 * e + 128, 298 * c2 + 409 * e + 128, 256);
        vstd::arithmetic::div_mod::lemma_div_is_ordered(298 * c - 100 * d - 208 * e + 128, 298 * c2 - 100 * d - 208 * e + 128, 256);
        vstd::arithmetic::div_mod::lemma_div_is_ordered(298 * c + 516 * d + 128, 298 * c2 + 516 * d + 128, 256);
    }
}

} // verus!
