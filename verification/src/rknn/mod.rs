//! Hardware-independent RKNN I/O helpers: the zero-copy versus staging path
//! decision and the padded-width (`w_stride`) layout.
use crate::shape::{Shape, Strides};
use crate::types::DataFormat;
use vstd::prelude::*;

pub mod padding;

verus! {

/// Raw `rknn_tensor_qnt_type` values from `rknn_api.h`.
pub const RKNN_QNT_NONE: u32 = 0;

pub const RKNN_QNT_DFP: u32 = 1;

pub const RKNN_QNT_AFFINE_ASYMMETRIC: u32 = 2;

/// Data-movement path used between host tensors and the NPU.
#[derive(Clone, Copy, Debug, PartialEq, Eq, Structural)]
pub enum IoPath {
    /// NPU-allocated buffers bound once via `rknn_set_io_mem`.
    ZeroCopy,
    /// Per-run host copies via `rknn_inputs_set` / `rknn_outputs_get`.
    Staging,
}

impl IoPath {
    pub fn as_str(self) -> (r: &'static str)
        ensures
            self == IoPath::ZeroCopy ==> r@ == "zero_copy"@,
            self == IoPath::Staging ==> r@ == "staging"@,
    {
        match self {
            IoPath::ZeroCopy => "zero_copy",
            IoPath::Staging => "staging",
        }
    }
}

/// Selects the I/O path: zero-copy only when requested and the SDK memory API
/// is usable; otherwise the explicit host-staging fallback.
pub fn select_io_path(zero_copy_requested: bool, mem_api_available: bool) -> (r: IoPath)
    ensures
        r == (if zero_copy_requested && mem_api_available {
            IoPath::ZeroCopy
        } else {
            IoPath::Staging
        }),
{
    if zero_copy_requested && mem_api_available {
        IoPath::ZeroCopy
    } else {
        IoPath::Staging
    }
}

/// Element strides of RKNN's padded-width layout, or `None` when the layout is
/// contiguous (a zero `w_stride`, a `w_stride` equal to the width, a rank other
/// than four, or a layout other than NCHW / NHWC).
pub open spec fn w_stride_strides(dims: Seq<usize>, layout: DataFormat, w_stride: usize) -> Option<
    Seq<int>,
> {
    if w_stride == 0 || dims.len() != 4 {
        None
    } else {
        match layout {
            DataFormat::NCHW => if w_stride == dims[3] {
                None
            } else {
                Some(seq![dims[1] * dims[2] * w_stride, dims[2] * w_stride, w_stride as int, 1int])
            },
            DataFormat::NHWC => if w_stride == dims[2] {
                None
            } else {
                Some(seq![dims[1] * w_stride * dims[3], w_stride * dims[3], dims[3] as int, 1int])
            },
            _ => None,
        }
    }
}

/// The padded strides of a four-dimensional shape fit in `usize`.
pub open spec fn w_stride_fits(dims: Seq<usize>, layout: DataFormat, w_stride: usize) -> bool {
    dims.len() == 4 ==> match layout {
        DataFormat::NCHW => {
            &&& dims[1] * dims[2] <= usize::MAX
            &&& dims[1] * dims[2] * w_stride <= usize::MAX
            &&& dims[2] * w_stride <= usize::MAX
        },
        DataFormat::NHWC => {
            &&& dims[1] * w_stride <= usize::MAX
            &&& dims[1] * w_stride * dims[3] <= usize::MAX
            &&& w_stride * dims[3] <= usize::MAX
        },
        _ => true,
    }
}

/// Derives element strides for RKNN's padded-width layout.
pub fn strides_from_w_stride(shape: &Shape, layout: DataFormat, w_stride: usize) -> (r: Option<
    Strides,
>)
    requires
        w_stride_fits(shape@, layout, w_stride),
    ensures
        w_stride_strides(shape@, layout, w_stride) is None ==> r is None,
        w_stride_strides(shape@, layout, w_stride) matches Some(s) ==> (r matches Some(st) && st@.len()
            == 4 && forall|i: int| 0 <= i < 4 ==> st@[i] == s[i]),
{
    if w_stride == 0 || shape.rank() != 4 {
        return None;
    }
    let dims = shape.dims();
    match layout {
        DataFormat::NCHW => {
            let c = dims[1];
            let h = dims[2];
            let w = dims[3];
            if w_stride == w {
                return None;
            }
            let ch = c * h;
            let first = ch * w_stride;
            let second = h * w_stride;
            let mut v: Vec<usize> = Vec::new();
            v.push(first);
            v.push(second);
            v.push(w_stride);
            v.push(1);
            Some(Strides::new(v))
        },
        DataFormat::NHWC => {
            let h = dims[1];
            let w = dims[2];
            let c = dims[3];
            if w_stride == w {
                return None;
            }
            let hw = h * w_stride;
            let first = hw * c;
            let second = w_stride * c;
            let mut v: Vec<usize> = Vec::new();
            v.push(first);
            v.push(second);
            v.push(c);
            v.push(1);
            Some(Strides::new(v))
        },
        _ => None,
    }
}

/// Returns `false`: the RKNN runtime is not compiled into this library.
pub fn backend_enabled() -> (r: bool)
    ensures
        !r,
{
    false
}

} // verus!
