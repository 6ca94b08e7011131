use dg::buffer::{Buffer, BufferDesc};
use dg::datatype::DataType;
use dg::device::CpuDevice;
use dg::error::Error;
use dg::shape::{Shape, Strides};
use dg::tensor::{Quantization, Tensor, TensorDesc};
use dg::types::{DataFormat, DeviceKind, QuantizationScheme};

fn desc(dims: Vec<usize>) -> TensorDesc {
    TensorDesc::new(Shape::new(dims), DataType::U8(), DataFormat::NCHW, DeviceKind::Cpu)
}

#[test]
fn tensor_descriptor_builders_and_storage() {
    let d = desc(vec![1, 3, 2, 2])
        .with_name("image".to_string())
        .with_quantization(Quantization {
            scheme: QuantizationScheme::AffineAsymmetric,
            scale_bits: vec![0.5f32.to_bits()],
            zero_point: vec![-12],
            axis: None,
        });
    assert_eq!(d.name(), Some("image"));
    assert_eq!(d.element_count().expect("count"), 12);
    assert_eq!(d.storage_bytes().expect("bytes"), 12);
    assert_eq!(d.quantization().zero_point, vec![-12]);
    assert_eq!(f32::from_bits(d.quantization().scale_bits[0]), 0.5);
    assert!(d.strides().is_none());
    let int4 = TensorDesc::new(Shape::new(vec![3]), DataType::I4(), DataFormat::N, DeviceKind::Cpu);
    assert_eq!(int4.storage_bytes().expect("bytes"), 2);
    assert_eq!(Quantization::default().scheme, QuantizationScheme::Unquantized);
}

#[test]
fn tensor_allocation_on_the_cpu() {
    let device = CpuDevice::new();
    let tensor = Tensor::allocate(&device, desc(vec![2, 3])).expect("allocate");
    assert_eq!(tensor.buffer().len(), 6);
    assert_eq!(tensor.desc().shape().dims(), &[2, 3]);
    let elsewhere = TensorDesc::new(Shape::new(vec![2]), DataType::U8(), DataFormat::N, DeviceKind::CudaGpu);
    assert!(matches!(Tensor::allocate(&device, elsewhere), Err(Error::Tensor(_))));
}

#[test]
fn tensor_from_buffer_checks_size_and_device() {
    let ok = Tensor::from_buffer(desc(vec![4]), Buffer::allocate_host(DeviceKind::Cpu, 4));
    assert!(ok.is_ok());
    let small = Tensor::from_buffer(desc(vec![4]), Buffer::allocate_host(DeviceKind::Cpu, 3));
    assert!(matches!(small, Err(Error::Tensor(_))));
    let other = Tensor::from_buffer(desc(vec![4]), Buffer::allocate_host(DeviceKind::IntelGpu, 4));
    assert!(matches!(other, Err(Error::Tensor(_))));
}

#[test]
fn reshape_keeps_element_count_and_makes_strides_contiguous() {
    let mut tensor = Tensor::from_buffer(desc(vec![2, 6]), Buffer::allocate_host(DeviceKind::Cpu, 12)).expect("tensor");
    tensor.reshape(Shape::new(vec![3, 4])).expect("reshape");
    assert_eq!(tensor.desc().shape().dims(), &[3, 4]);
    assert_eq!(tensor.desc().strides().expect("strides").values(), &[4, 1]);
    assert!(matches!(tensor.reshape(Shape::new(vec![5])), Err(Error::Shape(_))));
    tensor.reshape(Shape::new(vec![2, 6])).expect("reshape back");
    assert_eq!(tensor.desc().shape().dims(), &[2, 6]);
}

#[test]
fn reshape_rejects_padded_strides() {
    let padded = desc(vec![2, 3]).with_strides(Strides::new(vec![4, 1]));
    let mut tensor = Tensor::from_buffer(padded, Buffer::allocate_host(DeviceKind::Cpu, 6)).expect("tensor");
    assert!(matches!(tensor.reshape(Shape::new(vec![6])), Err(Error::Shape(_))));
}

#[test]
fn tensor_copy_moves_bytes_between_buffers() {
    let source = Tensor::from_buffer(desc(vec![3]), Buffer::from_host_bytes(DeviceKind::Cpu, BufferDesc::new(3, 1), vec![7, 8, 9]).expect("bytes")).expect("source");
    let mut target = Tensor::from_buffer(desc(vec![3]), Buffer::allocate_host(DeviceKind::Cpu, 3)).expect("target");
    source.copy_to(&mut target).expect("copy");
    assert_eq!(target.buffer().read_bytes(), vec![7, 8, 9]);
    let mut short = Tensor::from_buffer(desc(vec![2]), Buffer::allocate_host(DeviceKind::Cpu, 2)).expect("short");
    assert!(matches!(source.copy_to(&mut short), Err(Error::Tensor(_))));
}
