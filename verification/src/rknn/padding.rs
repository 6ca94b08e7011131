//! Padded physical layouts: RKNN tensors whose rows are padded to a stride.
//!
//! A layout is a shape with one element stride per axis; the innermost stride
//! is one, so each innermost row ("run") is contiguous in both layouts. Runs
//! are visited in row-major order of the outer axes.
use crate::error::Error;
use crate::shape::{dims_product, product_fits, Shape, Strides};
use vstd::arithmetic::div_mod::lemma_fundamental_div_mod_converse;
use vstd::arithmetic::mul::lemma_mul_nonnegative;
use vstd::prelude::*;

verus! {

/// The layout can be walked: same rank as the strides, no empty axis, and a
/// unit innermost stride.
pub open spec fn valid_layout(dims: Seq<usize>, strides: Seq<usize>) -> bool {
    &&& dims.len() > 0
    &&& dims.len() == strides.len()
    &&& forall|i: int| 0 <= i < dims.len() ==> #[trigger] dims[i] != 0
    &&& strides[dims.len() - 1] == 1
}

/// Element offset of the last element over axes `0..k`: the sum of
/// `(dims[i] - 1) * strides[i]`.
pub open spec fn last_offset(dims: Seq<usize>, strides: Seq<usize>, k: int) -> int
    decreases k,
{
    if k <= 0 {
        0
    } else {
        last_offset(dims, strides, k - 1) + (dims[k - 1] - 1) * strides[k - 1]
    }
}

/// Bytes of the padded layout: one past the last element.
pub open spec fn padded_len(dims: Seq<usize>, strides: Seq<usize>, elem_bytes: int) -> int {
    (last_offset(dims, strides, dims.len() as int) + 1) * elem_bytes
}

/// Element offset, over axes `0..k`, of the `t`-th index in row-major order.
pub open spec fn outer_offset(dims: Seq<usize>, strides: Seq<usize>, k: int, t: int) -> int
    decreases k,
{
    if k <= 0 {
        0
    } else {
        (t % (dims[k - 1] as int)) * strides[k - 1] + outer_offset(dims, strides, k - 1, t / (dims[k - 1] as int))
    }
}

/// The padded layout's offsets and byte size fit in `usize`.
pub open spec fn padded_fits(dims: Seq<usize>, strides: Seq<usize>, elem_bytes: int) -> bool {
    &&& last_offset(dims, strides, dims.len() as int) + 1 <= usize::MAX
    &&& padded_len(dims, strides, elem_bytes) <= usize::MAX
}

/// Number of runs: the product of the outer dimensions.
pub open spec fn run_count(dims: Seq<usize>) -> int {
    dims_product(dims.take(dims.len() - 1))
}

/// Bytes of one run.
pub open spec fn run_bytes(dims: Seq<usize>, elem_bytes: int) -> int {
    dims.last() * elem_bytes
}

/// Byte offset of run `t` in the padded layout.
pub open spec fn run_start(dims: Seq<usize>, strides: Seq<usize>, elem_bytes: int, t: int) -> int {
    outer_offset(dims, strides, dims.len() - 1, t) * elem_bytes
}

proof fn lemma_last_offset_nonneg(dims: Seq<usize>, strides: Seq<usize>, k: int)
    requires
        0 <= k <= dims.len(),
        dims.len() == strides.len(),
        forall|i: int| 0 <= i < dims.len() ==> #[trigger] dims[i] != 0,
    ensures
        last_offset(dims, strides, k) >= 0,
        forall|j: int| 0 <= j <= k ==> #[trigger] last_offset(dims, strides, j) <= last_offset(dims, strides, k),
        forall|j: int| 0 <= j <= k ==> #[trigger] last_offset(dims, strides, j) >= 0,
    decreases k,
{
    if k > 0 {
        lemma_last_offset_nonneg(dims, strides, k - 1);
        lemma_mul_nonnegative(dims[k - 1] - 1, strides[k - 1] as int);
    }
}

fn validate_layout(dims: &[usize], strides: &[usize]) -> (r: Result<(), Error>)
    ensures
        valid_layout(dims@, strides@) ==> r is Ok,
        !valid_layout(dims@, strides@) ==> r matches Err(Error::Backend(_)),
{
    if dims.len() == 0 || dims.len() != strides.len() {
        return Err(
            Error::Backend(
                "stride rank ".to_owned().concat(strides.len().to_string().as_str()).concat(
                    " does not match shape rank ",
                ).concat(dims.len().to_string().as_str()),
            ),
        );
    }
    let mut i: usize = 0;
    while i < dims.len()
        invariant
            i <= dims@.len(),
            forall|k: int| 0 <= k < i ==> #[trigger] dims@[k] != 0,
        decreases dims@.len() - i,
    {
        if dims[i] == 0 {
            return Err(Error::Backend("padded layout with empty shape".to_string()));
        }
        i += 1;
    }
    let innermost = strides[dims.len() - 1];
    if innermost != 1 {
        return Err(
            Error::Backend(
                "unsupported innermost stride: ".to_owned().concat(innermost.to_string().as_str()),
            ),
        );
    }
    Ok(())
}

/// Byte size of the padded physical layout described by element `strides`.
pub fn padded_byte_len(shape: &Shape, strides: &Strides, elem_bytes: usize) -> (r: Result<usize, Error>)
    requires
        valid_layout(shape@, strides@) ==> padded_fits(shape@, strides@, elem_bytes as int),
    ensures
        valid_layout(shape@, strides@) ==> r == Ok::<usize, Error>(
            padded_len(shape@, strides@, elem_bytes as int) as usize,
        ),
        !valid_layout(shape@, strides@) ==> r matches Err(Error::Backend(_)),
{
    let dims = shape.dims();
    let values = strides.values();
    validate_layout(dims, values)?;
    proof {
        lemma_last_offset_nonneg(dims@, values@, dims@.len() as int);
    }
    let mut last: usize = 0;
    let mut i: usize = 0;
    while i < dims.len()
        invariant
            dims@ == shape@,
            values@ == strides@,
            valid_layout(dims@, values@),
            padded_fits(dims@, values@, elem_bytes as int),
            i <= dims@.len(),
            last == last_offset(dims@, values@, i as int),
            last_offset(dims@, values@, dims@.len() as int) + 1 <= usize::MAX,
            forall|j: int| 0 <= j <= dims@.len() ==> #[trigger] last_offset(dims@, values@, j) <= last_offset(dims@, values@, dims@.len() as int),
            forall|j: int| 0 <= j <= dims@.len() ==> #[trigger] last_offset(dims@, values@, j) >= 0,
        decreases dims@.len() - i,
    {
        assert(last_offset(dims@, values@, i + 1) <= last_offset(dims@, values@, dims@.len() as int));
        proof {
            lemma_mul_nonnegative(dims@[i as int] - 1, values@[i as int] as int);
        }
        last = last + (dims[i] - 1) * values[i];
        i += 1;
    }
    Ok((last + 1) * elem_bytes)
}

proof fn lemma_product_take_step(dims: Seq<usize>, k: int)
    requires
        0 < k <= dims.len(),
    ensures
        dims_product(dims.take(k)) == dims_product(dims.take(k - 1)) * dims[k - 1],
{
    assert(dims.take(k).drop_last() =~= dims.take(k - 1));
}

proof fn lemma_product_take_nonneg(dims: Seq<usize>, k: int)
    requires
        0 <= k <= dims.len(),
    ensures
        dims_product(dims.take(k)) >= 0,
    decreases k,
{
    if k > 0 {
        lemma_product_take_step(dims, k);
        lemma_product_take_nonneg(dims, k - 1);
        lemma_mul_nonnegative(dims_product(dims.take(k - 1)), dims[k - 1] as int);
    }
}

/// The `t`-th row-major index over axes `0..k` lies between offset zero and
/// the offset of the last element over those axes.
proof fn lemma_outer_offset_bound(dims: Seq<usize>, strides: Seq<usize>, k: int, t: int)
    requires
        0 <= k <= dims.len(),
        dims.len() == strides.len(),
        forall|i: int| 0 <= i < dims.len() ==> #[trigger] dims[i] != 0,
        0 <= t < dims_product(dims.take(k)),
    ensures
        0 <= outer_offset(dims, strides, k, t) <= last_offset(dims, strides, k),
    decreases k,
{
    if k > 0 {
        let d = dims[k - 1] as int;
        let s = strides[k - 1] as int;
        let p = dims_product(dims.take(k - 1));
        lemma_product_take_step(dims, k);
        lemma_product_take_nonneg(dims, k - 1);
        let q = t / d;
        let rem = t % d;
        assert(0 <= rem < d && q * d + rem == t) by (nonlinear_arith)
            requires
                d > 0,
                t >= 0,
                q == t / d,
                rem == t % d,
        ;
        assert(0 <= q < p) by (nonlinear_arith)
            requires
                d > 0,
                0 <= rem < d,
                q * d + rem == t,
                t < p * d,
                t >= 0,
        ;
        assert(0 <= rem * s <= (d - 1) * s) by (nonlinear_arith)
            requires
                0 <= rem <= d - 1,
                s >= 0,
        ;
        lemma_outer_offset_bound(dims, strides, k - 1, q);
    }
}

/// Element offset of run `t` (the row-major index of the outer axes).
fn run_offset(dims: &[usize], strides: &[usize], t: usize) -> (r: usize)
    requires
        valid_layout(dims@, strides@),
        padded_fits(dims@, strides@, 0),
        t < dims_product(dims@.take(dims@.len() - 1)),
    ensures
        r == outer_offset(dims@, strides@, dims@.len() - 1, t as int),
        r <= last_offset(dims@, strides@, dims@.len() - 1),
{
    let n = dims.len();
    proof {
        lemma_outer_offset_bound(dims@, strides@, n - 1, t as int);
        lemma_last_offset_nonneg(dims@, strides@, n as int);
    }
    let ghost total = outer_offset(dims@, strides@, n - 1, t as int);
    let mut acc: usize = 0;
    let mut rest: usize = t;
    let mut k: usize = n - 1;
    while k > 0
        invariant
            n == dims@.len(),
            valid_layout(dims@, strides@),
            k <= n - 1,
            0 <= total <= last_offset(dims@, strides@, n - 1),
            last_offset(dims@, strides@, n - 1) <= last_offset(dims@, strides@, n as int),
            last_offset(dims@, strides@, n as int) + 1 <= usize::MAX,
            rest < dims_product(dims@.take(k as int)),
            acc + outer_offset(dims@, strides@, k as int, rest as int) == total,
        decreases k,
    {
        let d = dims[k - 1];
        let s = strides[k - 1];
        proof {
            lemma_outer_offset_bound(dims@, strides@, k as int, rest as int);
            lemma_product_take_step(dims@, k as int);
            lemma_product_take_nonneg(dims@, k - 1);
            assert((rest / d) < dims_product(dims@.take(k - 1))) by (nonlinear_arith)
                requires
                    d > 0,
                    rest < dims_product(dims@.take(k - 1)) * d,
            ;
            lemma_outer_offset_bound(dims@, strides@, k - 1, (rest / d) as int);
            assert(0 <= (rest % d) * s) by (nonlinear_arith)
                requires
                    d > 0,
            ;
        }
        acc = acc + (rest % d) * s;
        rest = rest / d;
        k -= 1;
    }
    acc
}

/// The outer axes' product (the number of runs).
fn count_runs(dims: &[usize]) -> (r: usize)
    requires
        dims@.len() > 0,
        product_fits(dims@),
    ensures
        r == run_count(dims@),
{
    let n = dims.len();
    let mut acc: usize = 1;
    let mut i: usize = 0;
    assert(dims@.take(0) =~= Seq::<usize>::empty());
    while i < n - 1
        invariant
            n == dims@.len(),
            n > 0,
            product_fits(dims@),
            i <= n - 1,
            acc == dims_product(dims@.take(i as int)),
        decreases n - 1 - i,
    {
        proof {
            lemma_product_take_step(dims@, i + 1);
            assert(dims_product(dims@.take(i + 1)) <= usize::MAX);
            lemma_product_take_nonneg(dims@, i + 1);
        }
        acc = acc * dims[i];
        i += 1;
    }
    acc
}

fn zeroed(len: usize) -> (r: Vec<u8>)
    ensures
        r@ == Seq::new(len as nat, |i: int| 0u8),
{
    let mut v: Vec<u8> = Vec::new();
    let mut i: usize = 0;
    while i < len
        invariant
            i <= len,
            v@ == Seq::new(i as nat, |k: int| 0u8),
        decreases len - i,
    {
        v.push(0);
        i += 1;
        assert(v@ =~= Seq::new(i as nat, |k: int| 0u8));
    }
    v
}

/// `buf` with `src` written over it from byte `at` on (same length as `buf`).
pub open spec fn write_run(buf: Seq<u8>, at: int, src: Seq<u8>) -> Seq<u8> {
    Seq::new(buf.len(), |i: int| if at <= i < at + src.len() { src[i - at] } else { buf[i] })
}

/// The padded buffer after the first `n` runs of `c` are written over zeroes.
pub open spec fn padded_after(c: Seq<u8>, dims: Seq<usize>, strides: Seq<usize>, e: int, n: int) -> Seq<u8>
    decreases n,
{
    if n <= 0 {
        Seq::new(padded_len(dims, strides, e) as nat, |i: int| 0u8)
    } else {
        write_run(
            padded_after(c, dims, strides, e, n - 1),
            run_start(dims, strides, e, n - 1),
            c.subrange((n - 1) * run_bytes(dims, e), n * run_bytes(dims, e)),
        )
    }
}

/// The padded layout of contiguous bytes `c`: every run copied to its padded
/// position, in row-major order, over a zeroed buffer.
pub open spec fn pad_spec(c: Seq<u8>, dims: Seq<usize>, strides: Seq<usize>, e: int) -> Seq<u8> {
    padded_after(c, dims, strides, e, run_count(dims))
}

/// The contiguous bytes read back from a padded buffer `p`: byte `j` of run
/// `t` comes from byte `j` at run `t`'s padded position.
pub open spec fn depad_spec(p: Seq<u8>, dims: Seq<usize>, strides: Seq<usize>, e: int) -> Seq<u8> {
    Seq::new(
        (dims_product(dims) * e) as nat,
        |i: int|
            p[run_start(dims, strides, e, i / run_bytes(dims, e)) + i % run_bytes(dims, e)],
    )
}

proof fn lemma_product_take_positive(dims: Seq<usize>, k: int)
    requires
        0 <= k <= dims.len(),
        forall|i: int| 0 <= i < dims.len() ==> #[trigger] dims[i] != 0,
    ensures
        dims_product(dims.take(k)) >= 1,
    decreases k,
{
    if k > 0 {
        lemma_product_take_step(dims, k);
        lemma_product_take_positive(dims, k - 1);
        let p = dims_product(dims.take(k - 1));
        let d = dims[k - 1] as int;
        assert(p * d >= 1) by (nonlinear_arith)
            requires
                p >= 1,
                d >= 1,
        ;
    }
}

/// Run `t` lies inside both buffers.
proof fn lemma_run_fits(dims: Seq<usize>, strides: Seq<usize>, e: int, t: int)
    requires
        valid_layout(dims, strides),
        e >= 0,
        0 <= t < run_count(dims),
    ensures
        dims_product(dims) == run_count(dims) * dims.last(),
        run_count(dims) >= 1,
        0 <= run_bytes(dims, e) <= dims_product(dims) * e,
        0 <= run_start(dims, strides, e, t),
        run_start(dims, strides, e, t) + run_bytes(dims, e) <= padded_len(dims, strides, e),
        0 <= t * run_bytes(dims, e),
        (t + 1) * run_bytes(dims, e) <= dims_product(dims) * e,
        t * run_bytes(dims, e) + run_bytes(dims, e) == (t + 1) * run_bytes(dims, e),
{
    let n = dims.len() as int;
    assert(dims.take(n) =~= dims);
    lemma_product_take_step(dims, n);
    lemma_product_take_positive(dims, n - 1);
    lemma_outer_offset_bound(dims, strides, n - 1, t);
    let o = outer_offset(dims, strides, n - 1, t);
    let l = last_offset(dims, strides, n - 1);
    let d = dims.last() as int;
    let cnt = run_count(dims);
    assert(last_offset(dims, strides, n) == l + d - 1);
    assert(o * e + d * e <= (l + d - 1 + 1) * e) by (nonlinear_arith)
        requires
            0 <= o <= l,
            e >= 0,
            d >= 1,
    ;
    assert(0 <= o * e) by (nonlinear_arith)
        requires
            0 <= o,
            e >= 0,
    ;
    assert(0 <= d * e <= cnt * d * e && 0 <= t * (d * e) && (t + 1) * (d * e) <= cnt * d * e && t * (d * e) + d * e == (t + 1) * (d * e)) by (nonlinear_arith)
        requires
            d >= 1,
            e >= 0,
            0 <= t < cnt,
    ;
}

proof fn lemma_padded_after_len(c: Seq<u8>, dims: Seq<usize>, strides: Seq<usize>, e: int, n: int)
    ensures
        padded_after(c, dims, strides, e, n).len() == padded_len(dims, strides, e) as nat,
    decreases n,
{
    if n > 0 {
        lemma_padded_after_len(c, dims, strides, e, n - 1);
    }
}

/// Expands contiguous row-major bytes into the padded layout described by
/// `strides` (padding bytes are zeroed).
pub fn pad_bytes(contiguous: &[u8], shape: &Shape, strides: &Strides, elem_bytes: usize) -> (r: Result<Vec<u8>, Error>)
    requires
        valid_layout(shape@, strides@) ==> padded_fits(shape@, strides@, elem_bytes as int),
        product_fits(shape@) ==> dims_product(shape@) * elem_bytes <= usize::MAX,
    ensures
        !valid_layout(shape@, strides@) ==> r matches Err(Error::Backend(_)),
        valid_layout(shape@, strides@) && !product_fits(shape@) ==> r matches Err(Error::Shape(_)),
        valid_layout(shape@, strides@) && product_fits(shape@) && contiguous@.len() != dims_product(shape@) * elem_bytes
            ==> r matches Err(Error::Backend(_)),
        valid_layout(shape@, strides@) && product_fits(shape@) && contiguous@.len() == dims_product(shape@) * elem_bytes
            ==> (r matches Ok(v) && v@ == pad_spec(contiguous@, shape@, strides@, elem_bytes as int)),
{
    let len = padded_byte_len(shape, strides, elem_bytes)?;
    let dims = shape.dims();
    let values = strides.values();
    let count = shape.element_count()?;
    proof {
        crate::shape::lemma_product_fits_bound(shape@);
    }
    let logical = count * elem_bytes;
    if contiguous.len() != logical {
        return Err(
            Error::Backend(
                "contiguous buffer size mismatch: ".to_owned().concat(
                    contiguous.len().to_string().as_str(),
                ).concat(" != ").concat(logical.to_string().as_str()),
            ),
        );
    }
    let ghost c = contiguous@;
    let ghost e = elem_bytes as int;
    let n = dims.len();
    let outer = count_runs(dims);
    proof {
        lemma_product_take_positive(dims@, n - 1);
        lemma_run_fits(dims@, values@, e, 0);
    }
    let run = dims[n - 1] * elem_bytes;
    let mut padded = zeroed(len);
    let mut t: usize = 0;
    while t < outer
        invariant
            dims@ == shape@,
            values@ == strides@,
            n == dims@.len(),
            valid_layout(dims@, values@),
            padded_fits(dims@, values@, e),
            product_fits(dims@),
            e == elem_bytes,
            c == contiguous@,
            c.len() == dims_product(dims@) * e,
            dims_product(dims@) * e <= usize::MAX,
            outer == run_count(dims@),
            run == run_bytes(dims@, e),
            len == padded_len(dims@, values@, e),
            t <= outer,
            padded@ == padded_after(c, dims@, values@, e, t as int),
        decreases outer - t,
    {
        proof {
            lemma_run_fits(dims@, values@, e, t as int);
            assert(padded_fits(dims@, values@, 0));
        }
        let ghost prev = padded@;
        proof {
            lemma_padded_after_len(c, dims@, values@, e, t as int);
        }
        let start = run_offset(dims, values, t) * elem_bytes;
        let base = t * run;
        let mut j: usize = 0;
        while j < run
            invariant
                c == contiguous@,
                c.len() == dims_product(dims@) * e,
                c.len() <= usize::MAX,
                start + run <= len,
                base + run <= c.len(),
                prev.len() == len,
                j <= run,
                padded@ == Seq::new(
                    len as nat,
                    |i: int| if start <= i < start + j { c[base + i - start] } else { prev[i] },
                ),
            decreases run - j,
        {
            padded.set(start + j, contiguous[base + j]);
            j += 1;
            assert(padded@ =~= Seq::new(
                len as nat,
                |i: int| if start <= i < start + j { c[base + i - start] } else { prev[i] },
            ));
        }
        assert(padded@ =~= write_run(prev, start as int, c.subrange(base as int, base + run)));
        t += 1;
    }
    Ok(padded)
}

/// Collapses bytes in the padded layout described by `strides` into
/// contiguous row-major bytes.
pub fn depad_bytes(padded: &[u8], shape: &Shape, strides: &Strides, elem_bytes: usize) -> (r: Result<Vec<u8>, Error>)
    requires
        valid_layout(shape@, strides@) ==> padded_fits(shape@, strides@, elem_bytes as int),
        product_fits(shape@) ==> dims_product(shape@) * elem_bytes <= usize::MAX,
    ensures
        !valid_layout(shape@, strides@) ==> r matches Err(Error::Backend(_)),
        valid_layout(shape@, strides@) && padded@.len() < padded_len(shape@, strides@, elem_bytes as int)
            ==> r matches Err(Error::Backend(_)),
        valid_layout(shape@, strides@) && padded@.len() >= padded_len(shape@, strides@, elem_bytes as int)
            && !product_fits(shape@) ==> r matches Err(Error::Shape(_)),
        valid_layout(shape@, strides@) && padded@.len() >= padded_len(shape@, strides@, elem_bytes as int)
            && product_fits(shape@) ==> (r matches Ok(v) && v@ == depad_spec(padded@, shape@, strides@, elem_bytes as int)),
{
    let needed = padded_byte_len(shape, strides, elem_bytes)?;
    proof {
        lemma_last_offset_nonneg(shape@, strides@, shape@.len() as int);
        let l = last_offset(shape@, strides@, shape@.len() as int);
        assert((l + 1) * elem_bytes >= 0) by (nonlinear_arith)
            requires
                l >= 0,
        ;
    }
    let plen = padded.len();
    if plen < needed {
        return Err(
            Error::Backend(
                "padded buffer too small: ".to_owned().concat(padded.len().to_string().as_str()).concat(
                    " < ",
                ).concat(needed.to_string().as_str()),
            ),
        );
    }
    let dims = shape.dims();
    let values = strides.values();
    let count = shape.element_count()?;
    proof {
        crate::shape::lemma_product_fits_bound(shape@);
    }
    let ghost p = padded@;
    let ghost e = elem_bytes as int;
    let n = dims.len();
    let outer = count_runs(dims);
    proof {
        lemma_product_take_positive(dims@, n - 1);
        lemma_run_fits(dims@, values@, e, 0);
    }
    let run = dims[n - 1] * elem_bytes;
    let mut out: Vec<u8> = Vec::new();
    let mut t: usize = 0;
    while t < outer
        invariant
            dims@ == shape@,
            values@ == strides@,
            n == dims@.len(),
            valid_layout(dims@, values@),
            padded_fits(dims@, values@, e),
            product_fits(dims@),
            e == elem_bytes,
            p == padded@,
            p.len() >= padded_len(dims@, values@, e),
            p.len() <= usize::MAX,
            dims_product(dims@) * e <= usize::MAX,
            outer == run_count(dims@),
            run == run_bytes(dims@, e),
            t <= outer,
            out@.len() == t * run,
            forall|i: int| 0 <= i < out@.len() ==> #[trigger] out@[i] == p[run_start(dims@, values@, e, i / run as int) + i % run as int],
        decreases outer - t,
    {
        proof {
            lemma_run_fits(dims@, values@, e, t as int);
            assert(padded_fits(dims@, values@, 0));
        }
        let start = run_offset(dims, values, t) * elem_bytes;
        let mut j: usize = 0;
        while j < run
            invariant
                p == padded@,
                p.len() <= usize::MAX,
                start + run <= p.len(),
                start == run_start(dims@, values@, e, t as int),
                run == run_bytes(dims@, e),
                t * run + run <= usize::MAX,
                j <= run,
                out@.len() == t * run + j,
                forall|i: int| 0 <= i < out@.len() ==> #[trigger] out@[i] == p[run_start(dims@, values@, e, i / run as int) + i % run as int],
            decreases run - j,
        {
            proof {
                lemma_fundamental_div_mod_converse(t * run + j, run as int, t as int, j as int);
            }
            out.push(padded[start + j]);
            j += 1;
        }
        t += 1;
    }
    proof {
        assert(outer * run == dims_product(dims@) * e) by (nonlinear_arith)
            requires
                dims_product(dims@) == outer * dims@.last(),
                run == dims@.last() * e,
        ;
    }
    assert(out@ =~= depad_spec(p, dims@, values@, e));
    Ok(out)
}

/// No two runs overlap in the padded layout.
pub open spec fn runs_disjoint(dims: Seq<usize>, strides: Seq<usize>, e: int) -> bool {
    forall|t1: int, t2: int|
        0 <= t1 < run_count(dims) && 0 <= t2 < run_count(dims) && t1 != t2 ==> run_start(dims, strides, e, t1)
            + run_bytes(dims, e) <= #[trigger] run_start(dims, strides, e, t2) || run_start(dims, strides, e, t2)
            + run_bytes(dims, e) <= #[trigger] run_start(dims, strides, e, t1)
}

proof fn lemma_padded_after_holds_run(c: Seq<u8>, dims: Seq<usize>, strides: Seq<usize>, e: int, n: int, t: int, j: int)
    requires
        valid_layout(dims, strides),
        e >= 0,
        runs_disjoint(dims, strides, e),
        c.len() == dims_product(dims) * e,
        0 <= t < n <= run_count(dims),
        0 <= j < run_bytes(dims, e),
    ensures
        padded_after(c, dims, strides, e, n)[run_start(dims, strides, e, t) + j] == c[t * run_bytes(dims, e) + j],
    decreases n,
{
    let run = run_bytes(dims, e);
    lemma_padded_after_len(c, dims, strides, e, n - 1);
    lemma_run_fits(dims, strides, e, t);
    lemma_run_fits(dims, strides, e, n - 1);
    let prev = padded_after(c, dims, strides, e, n - 1);
    let src = c.subrange((n - 1) * run, n * run);
    assert(src.len() == run);
    if t == n - 1 {
        assert(src[j] == c[t * run + j]);
    } else {
        lemma_padded_after_holds_run(c, dims, strides, e, n - 1, t, j);
        let pos = run_start(dims, strides, e, t) + j;
        assert(!(run_start(dims, strides, e, n - 1) <= pos < run_start(dims, strides, e, n - 1) + run));
    }
}

/// Padding contiguous bytes and reading them back gives the same bytes,
/// whenever no two runs of the layout overlap.
pub proof fn lemma_pad_depad_round_trip(c: Seq<u8>, dims: Seq<usize>, strides: Seq<usize>, e: int)
    requires
        valid_layout(dims, strides),
        e >= 0,
        runs_disjoint(dims, strides, e),
        c.len() == dims_product(dims) * e,
    ensures
        depad_spec(pad_spec(c, dims, strides, e), dims, strides, e) == c,
{
    let run = run_bytes(dims, e);
    let cnt = run_count(dims);
    lemma_product_take_positive(dims, dims.len() - 1);
    lemma_run_fits(dims, strides, e, 0);
    let out = depad_spec(pad_spec(c, dims, strides, e), dims, strides, e);
    assert forall|i: int| 0 <= i < c.len() implies out[i] == c[i] by {
        let t = i / run;
        let j = i % run;
        assert(run > 0 && 0 <= t < cnt && 0 <= j < run && t * run + j == i) by (nonlinear_arith)
            requires
                0 <= i < cnt * dims.last() * e,
                run == dims.last() * e,
                dims.last() >= 1,
                e >= 0,
                t == i / run,
                j == i % run,
        ;
        lemma_padded_after_holds_run(c, dims, strides, e, cnt, t, j);
    }
    assert(out =~= c);
}

} // verus!
