//! Tensor descriptors and tensors backed by shared buffers.
use crate::buffer::{Buffer, BufferDesc};
use crate::datatype::{bytes_for_bits, DataType};
use crate::device::Device;
use crate::error::Error;
use crate::shape::{contiguous_strides_spec, dims_product, product_fits, Shape, Strides};
use crate::types::{DataFormat, DeviceKind, QuantizationScheme};
use vstd::prelude::*;

verus! {

/// Per-tensor or per-axis quantization metadata. Scales are kept as the bit
/// patterns of their `f32` values.
#[derive(Clone, Debug, PartialEq)]
pub struct Quantization {
    pub scheme: QuantizationScheme,
    pub scale_bits: Vec<u32>,
    pub zero_point: Vec<i32>,
    pub axis: Option<usize>,
}

impl Quantization {
    /// No quantization.
    pub fn none() -> (r: Self)
        ensures
            r.scheme == QuantizationScheme::Unquantized,
            r.scale_bits@.len() == 0,
            r.zero_point@.len() == 0,
            r.axis is None,
    {
        Quantization { scheme: QuantizationScheme::Unquantized, scale_bits: Vec::new(), zero_point: Vec::new(), axis: None }
    }
}

impl Default for Quantization {
    fn default() -> (r: Self)
        ensures
            r.scheme == QuantizationScheme::Unquantized,
            r.scale_bits@.len() == 0,
            r.zero_point@.len() == 0,
            r.axis is None,
    {
        Quantization::none()
    }
}

/// Bytes a densely packed tensor of `dtype` and `shape` occupies, when that
/// fits in `usize`.
pub open spec fn storage_size(dtype: DataType, shape: Seq<usize>) -> Option<int> {
    if product_fits(shape) && dtype.spec_size_in_bits() * dims_product(shape) <= usize::MAX {
        Some(bytes_for_bits(dtype.spec_size_in_bits() * dims_product(shape)))
    } else {
        None
    }
}

proof fn lemma_storage_size_bounds(dtype: DataType, shape: Seq<usize>)
    ensures
        storage_size(dtype, shape) matches Some(n) ==> 0 <= n <= usize::MAX,
{
    if storage_size(dtype, shape) is Some {
        crate::shape::lemma_product_fits_bound(shape);
        let b = dtype.spec_size_in_bits() * dims_product(shape);
        let bits = dtype.spec_size_in_bits();
        assert(bits >= 0) by (nonlinear_arith)
            requires
                bits == dtype.bits * dtype.lanes,
                dtype.bits >= 0,
                dtype.lanes >= 0,
        ;
        assert(b >= 0) by (nonlinear_arith)
            requires
                b == bits * dims_product(shape),
                bits >= 0,
                dims_product(shape) >= 0,
        ;
    }
}

/// What a tensor descriptor describes, as seen by contracts.
pub ghost struct TensorDescView {
    pub name: Option<Seq<char>>,
    pub shape: Seq<usize>,
    pub strides: Option<Seq<usize>>,
    pub dtype: DataType,
    pub format: DataFormat,
    pub quant: Quantization,
    pub device: DeviceKind,
}

/// Tensor descriptor with layout metadata.
#[derive(Clone, Debug, PartialEq)]
pub struct TensorDesc {
    name: Option<String>,
    shape: Shape,
    strides: Option<Strides>,
    dtype: DataType,
    format: DataFormat,
    quant: Quantization,
    device: DeviceKind,
}

impl View for TensorDesc {
    type V = TensorDescView;

    closed spec fn view(&self) -> TensorDescView {
        TensorDescView {
            name: match self.name {
                Some(n) => Some(n@),
                None => None,
            },
            shape: self.shape@,
            strides: match self.strides {
                Some(s) => Some(s@),
                None => None,
            },
            dtype: self.dtype,
            format: self.format,
            quant: self.quant,
            device: self.device,
        }
    }
}

impl TensorDesc {
    pub fn new(shape: Shape, dtype: DataType, format: DataFormat, device: DeviceKind) -> (r: Self)
        ensures
            r@.name is None,
            r@.shape == shape@,
            r@.strides is None,
            r@.dtype == dtype,
            r@.format == format,
            r@.quant.scheme == QuantizationScheme::Unquantized,
            r@.device == device,
    {
        TensorDesc { name: None, shape, strides: None, dtype, format, quant: Quantization::none(), device }
    }

    pub fn with_name(self, name: String) -> (r: Self)
        ensures
            r@ == (TensorDescView { name: Some(name@), ..self@ }),
    {
        TensorDesc { name: Some(name), ..self }
    }

    pub fn with_strides(self, strides: Strides) -> (r: Self)
        ensures
            r@ == (TensorDescView { strides: Some(strides@), ..self@ }),
    {
        TensorDesc { strides: Some(strides), ..self }
    }

    pub fn with_quantization(self, quant: Quantization) -> (r: Self)
        ensures
            r@ == (TensorDescView { quant, ..self@ }),
    {
        TensorDesc { quant, ..self }
    }

    pub fn name(&self) -> (r: Option<&str>)
        ensures
            r matches Some(n) ==> self@.name == Some(n@),
            r is None ==> self@.name is None,
    {
        match &self.name {
            Some(n) => Some(n.as_str()),
            None => None,
        }
    }

    pub fn shape(&self) -> (r: &Shape)
        ensures
            r@ == self@.shape,
    {
        &self.shape
    }

    pub fn strides(&self) -> (r: Option<&Strides>)
        ensures
            r matches Some(s) ==> self@.strides == Some(s@),
            r is None ==> self@.strides is None,
    {
        match &self.strides {
            Some(s) => Some(s),
            None => None,
        }
    }

    pub fn dtype(&self) -> (r: DataType)
        ensures
            r == self@.dtype,
    {
        self.dtype
    }

    pub fn format(&self) -> (r: DataFormat)
        ensures
            r == self@.format,
    {
        self.format
    }

    pub fn quantization(&self) -> (r: &Quantization)
        ensures
            *r == self@.quant,
    {
        &self.quant
    }

    pub fn device(&self) -> (r: DeviceKind)
        ensures
            r == self@.device,
    {
        self.device
    }

    pub fn element_count(&self) -> (r: Result<usize, Error>)
        ensures
            product_fits(self@.shape) ==> r == Ok::<usize, Error>(dims_product(self@.shape) as usize),
            !product_fits(self@.shape) ==> r matches Err(Error::Shape(_)),
    {
        self.shape.element_count()
    }

    /// Bytes the tensor's elements occupy when densely packed.
    pub fn storage_bytes(&self) -> (r: Result<usize, Error>)
        ensures
            storage_size(self@.dtype, self@.shape) matches Some(n) ==> r == Ok::<usize, Error>(n as usize),
            !product_fits(self@.shape) ==> (r matches Err(Error::Shape(m)) && m@
                == "shape element count overflow"@),
            product_fits(self@.shape) && storage_size(self@.dtype, self@.shape) is None ==> (r matches Err(
                Error::InvalidArgument(m),
            ) && m@ == "datatype size overflow"@),
    {
        self.dtype.storage_bytes_for_shape(&self.shape)
    }

    /// The buffer a tensor of this descriptor asks its device for: the
    /// storage size, byte aligned.
    pub fn allocation_request(&self) -> (r: Result<BufferDesc, Error>)
        ensures
            storage_size(self@.dtype, self@.shape) matches Some(n) ==> r == Ok::<BufferDesc, Error>(
                BufferDesc { size_bytes: n as usize, align: 1 },
            ),
            !product_fits(self@.shape) ==> (r matches Err(Error::Shape(m)) && m@
                == "shape element count overflow"@),
            product_fits(self@.shape) && storage_size(self@.dtype, self@.shape) is None ==> (r matches Err(
                Error::InvalidArgument(m),
            ) && m@ == "datatype size overflow"@),
    {
        let size = self.storage_bytes()?;
        Ok(BufferDesc::new(size, 1))
    }
}

/// Tensor value backed by a shared buffer on the descriptor's device.
pub struct Tensor {
    desc: TensorDesc,
    buffer: Buffer,
}

impl Tensor {
    pub closed spec fn spec_desc(&self) -> TensorDescView {
        self.desc@
    }

    pub closed spec fn spec_buffer(&self) -> Buffer {
        self.buffer
    }

    /// Allocates a buffer of the descriptor's storage size on `device`. The
    /// descriptor's own overflow errors come before any call to the device;
    /// otherwise the device is asked for `desc.allocation_request()`, its
    /// error is passed on, and what it hands back goes through
    /// `Tensor::adopt_allocated`.
    pub fn allocate<D: Device>(device: &D, desc: TensorDesc) -> (r: Result<Self, Error>)
        ensures
            !product_fits(desc@.shape) ==> (r matches Err(Error::Shape(m)) && m@
                == "shape element count overflow"@),
            product_fits(desc@.shape) && storage_size(desc@.dtype, desc@.shape) is None ==> (r matches Err(
                Error::InvalidArgument(m),
            ) && m@ == "datatype size overflow"@),
            r matches Ok(t) ==> t.spec_desc() == desc@ && t.spec_buffer()@.device == desc@.device
                && Some(t.spec_buffer()@.desc.size_bytes as int) == storage_size(desc@.dtype, desc@.shape)
                && t.spec_buffer()@.desc.align == 1,
    {
        proof {
            lemma_storage_size_bounds(desc@.dtype, desc@.shape);
        }
        let request = desc.allocation_request()?;
        let buffer = device.alloc_buffer(request)?;
        Tensor::adopt_allocated(desc, buffer)
    }

    /// Takes a buffer that a device allocated for `desc`: it is accepted
    /// exactly when it lies on the descriptor's device.
    pub fn adopt_allocated(desc: TensorDesc, buffer: Buffer) -> (r: Result<Self, Error>)
        ensures
            r is Ok <==> buffer@.device == desc@.device,
            r matches Ok(t) ==> t.spec_desc() == desc@ && t.spec_buffer() == buffer,
            buffer@.device != desc@.device ==> (r matches Err(Error::Tensor(m)) && m@
                == "allocated buffer device does not match tensor device"@),
    {
        if buffer.device() != desc.device() {
            return Err(Error::Tensor("allocated buffer device does not match tensor device".to_string()));
        }
        Ok(Tensor { desc, buffer })
    }

    /// Wraps a buffer whose size and device match the descriptor.
    pub fn from_buffer(desc: TensorDesc, buffer: Buffer) -> (r: Result<Self, Error>)
        ensures
            storage_size(desc@.dtype, desc@.shape) is None ==> r is Err,
            storage_size(desc@.dtype, desc@.shape) matches Some(n) && buffer@.desc.size_bytes != n
                ==> r matches Err(Error::Tensor(_)),
            storage_size(desc@.dtype, desc@.shape) matches Some(n) && buffer@.desc.size_bytes == n
                && buffer@.device != desc@.device ==> r matches Err(Error::Tensor(_)),
            storage_size(desc@.dtype, desc@.shape) matches Some(n) && buffer@.desc.size_bytes == n
                && buffer@.device == desc@.device ==> (r matches Ok(t) && t.spec_desc() == desc@
                && t.spec_buffer() == buffer),
    {
        proof {
            lemma_storage_size_bounds(desc@.dtype, desc@.shape);
        }
        if buffer.len() != desc.storage_bytes()? {
            return Err(Error::Tensor("buffer size does not match tensor descriptor".to_string()));
        }
        if buffer.device() != desc.device() {
            return Err(Error::Tensor("buffer device does not match tensor descriptor".to_string()));
        }
        Ok(Tensor { desc, buffer })
    }

    pub fn desc(&self) -> (r: &TensorDesc)
        ensures
            r@ == self.spec_desc(),
    {
        &self.desc
    }

    pub fn buffer(&self) -> (r: &Buffer)
        ensures
            *r == self.spec_buffer(),
    {
        &self.buffer
    }

    /// Changes the shape, keeping the element count; the strides become the
    /// contiguous strides of the new shape. Tensors with non-contiguous
    /// strides cannot be reshaped.
    pub fn reshape(&mut self, shape: Shape) -> (r: Result<(), Error>)
        ensures
            final(self).spec_buffer() == old(self).spec_buffer(),
            !product_fits(old(self).spec_desc().shape) || !product_fits(shape@) ==> (r matches Err(Error::Shape(_))
                && final(self).spec_desc() == old(self).spec_desc()),
            product_fits(old(self).spec_desc().shape) && product_fits(shape@) && dims_product(old(self).spec_desc().shape)
                != dims_product(shape@) ==> (r matches Err(Error::Shape(_)) && final(self).spec_desc() == old(self).spec_desc()),
            product_fits(old(self).spec_desc().shape) && product_fits(shape@) && dims_product(old(self).spec_desc().shape)
                == dims_product(shape@) ==> match old(self).spec_desc().strides {
                Some(s) if s != contiguous_strides_spec(old(self).spec_desc().shape) => r matches Err(Error::Shape(_))
                    && final(self).spec_desc() == old(self).spec_desc(),
                _ => r is Ok && final(self).spec_desc() == reshaped(old(self).spec_desc(), shape@),
            },
    {
        proof {
            crate::shape::lemma_product_fits_bound(self.desc.shape@);
            crate::shape::lemma_product_fits_bound(shape@);
        }
        let old_elements = self.desc.shape.element_count()?;
        let new_elements = shape.element_count()?;
        if old_elements != new_elements {
            return Err(Error::Shape("reshape must preserve logical element count".to_string()));
        }
        let contiguous = match &self.desc.strides {
            Some(strides) => strides.is_contiguous_for(&self.desc.shape),
            None => true,
        };
        if !contiguous {
            return Err(Error::Shape("cannot reshape a tensor with non-contiguous strides".to_string()));
        }
        let strides = shape.contiguous_strides();
        self.desc.shape = shape;
        self.desc.strides = Some(strides);
        Ok(())
    }

    /// Copies this tensor's bytes into `dst`'s buffer.
    pub fn copy_to(&self, dst: &mut Tensor) -> (r: Result<(), Error>)
        ensures
            final(dst).spec_desc() == old(dst).spec_desc(),
            final(dst).spec_buffer() == old(dst).spec_buffer(),
            self.spec_buffer()@.desc.size_bytes != old(dst).spec_buffer()@.desc.size_bytes ==> r matches Err(Error::Tensor(_)),
            self.spec_buffer()@.desc.size_bytes == old(dst).spec_buffer()@.desc.size_bytes ==> (
                (!self.spec_buffer()@.external_only && !old(dst).spec_buffer()@.external_only ==> r is Ok)
                && (self.spec_buffer()@.external_only || old(dst).spec_buffer()@.external_only ==> r matches Err(Error::Buffer(_)))),
    {
        if self.buffer.len() != dst.buffer.len() {
            return Err(Error::Tensor("tensor byte sizes differ".to_string()));
        }
        self.buffer.copy_to(&dst.buffer)
    }
}

/// A descriptor with a new shape and that shape's contiguous strides.
pub open spec fn reshaped(d: TensorDescView, shape: Seq<usize>) -> TensorDescView {
    TensorDescView { shape, strides: Some(contiguous_strides_spec(shape)), ..d }
}

/// Reshaping to another shape and back restores the shape, with contiguous
/// strides, and changes nothing else.
pub proof fn lemma_reshape_round_trip(d: TensorDescView, there: Seq<usize>)
    ensures
        reshaped(reshaped(d, there), d.shape) == reshaped(d, d.shape),
        reshaped(reshaped(d, there), d.shape).shape == d.shape,
        reshaped(reshaped(d, there), d.shape).name == d.name,
        reshaped(reshaped(d, there), d.shape).dtype == d.dtype,
        reshaped(reshaped(d, there), d.shape).format == d.format,
        reshaped(reshaped(d, there), d.shape).quant == d.quant,
        reshaped(reshaped(d, there), d.shape).device == d.device,
{
}

} // verus!
