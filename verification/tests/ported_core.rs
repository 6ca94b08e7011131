use dg::buffer::BufferDesc;
use dg::datatype::{pack_float4, pack_int4, unpack_float4, unpack_int4, DataType};
use dg::device::{CpuDevice, Device};
use dg::error::Error;
use dg::graph::pool::WorkQueues;
use dg::graph::spec::ConnectionSpec;
use dg::media::frame::{MediaFrame, MediaFrameKind};
use dg::media::ops::DecodeCore;
use dg::shape::{Shape, Strides};
use dg::tensor::{Tensor, TensorDesc};
use dg::types::{DataFormat, DeviceKind};

#[test]
fn cpu_tensor_allocate_copy_and_reshape() {
    let device = CpuDevice::new();
    let shape = Shape::new(vec![2, 2]);
    let desc = TensorDesc::new(shape.clone(), DataType::U8(), DataFormat::NCHW, DeviceKind::Cpu);
    let mut tensor = Tensor::allocate(&device, desc).expect("allocate tensor");
    tensor.buffer().write_from_slice(&[1, 2, 3, 4]).expect("write tensor");

    let other_desc = TensorDesc::new(shape.clone(), DataType::U8(), DataFormat::NCHW, DeviceKind::Cpu);
    let mut other = Tensor::allocate(&device, other_desc).expect("allocate other tensor");
    tensor.copy_to(&mut other).expect("copy tensor");
    assert_eq!(other.buffer().read_bytes(), vec![1, 2, 3, 4]);

    tensor.reshape(Shape::new(vec![4])).expect("reshape");
    assert_eq!(tensor.desc().shape().dims(), &[4]);
}

#[test]
fn tensor_reshape_rejects_non_contiguous_strides() {
    let device = CpuDevice::new();
    let desc = TensorDesc::new(Shape::new(vec![2, 2]), DataType::U8(), DataFormat::NCHW, DeviceKind::Cpu)
        .with_strides(Strides::new(vec![3, 1]));
    let mut tensor = Tensor::allocate(&device, desc).expect("allocate tensor");
    let err = tensor.reshape(Shape::new(vec![4])).expect_err("reshape should fail");
    assert!(matches!(err, Error::Shape(message) if message.contains("non-contiguous strides")));
}

#[test]
fn buffer_refcount_and_copy_semantics() {
    let device = CpuDevice::new();
    let buffer = device.alloc_buffer(BufferDesc::new(4, 1)).expect("allocate buffer");
    assert_eq!(buffer.ref_count(), 1);

    let cloned = buffer.clone();
    assert_eq!(buffer.ref_count(), 2);

    cloned.write_from_slice(&[9, 8, 7, 6]).expect("write");
    let mut dst = [0; 4];
    buffer.copy_into(&mut dst).expect("copy into");
    assert_eq!(dst, [9, 8, 7, 6]);
}

#[test]
fn packed_int4_and_float4_round_trip() {
    let int4 = [-8, -1, 0, 3, 7];
    let packed_int4 = pack_int4(&int4).expect("pack int4");
    assert_eq!(unpack_int4(&packed_int4, int4.len()).expect("unpack int4"), int4);

    let float4 = [0, 1, 2, 15, 7];
    let packed_float4 = pack_float4(&float4).expect("pack float4");
    assert_eq!(unpack_float4(&packed_float4, float4.len()).expect("unpack float4"), float4);
}

#[test]
fn graph_spec_connection_parse_round_trips() {
    let parsed = ConnectionSpec::parse("decode.out -> infer.in").expect("parse connection");
    assert_eq!(parsed.text(), "decode.out -> infer.in");
}

#[test]
fn decode_pipeline_rejects_wrong_payload_size() {
    let mut decode = DecodeCore::new(4, 4, 3);
    let frame = MediaFrame::from_host_bytes(
        MediaFrameKind::Tensor,
        DataType::U8(),
        DataFormat::N,
        vec![7],
        DeviceKind::Cpu,
        vec![0; 7],
    )
    .expect("recorded frame");
    let err = decode.submit_packet(frame).expect_err("expected decode failure");
    assert!(matches!(&err, Error::Media(message) if message.contains("media_decode")));
    assert!(matches!(
        err,
        Error::Media(message) if message == "media_decode: recorded frame has 7 bytes, expected 48 (4x4x3)"
    ));
}

#[test]
fn rejects_zero_workers() {
    assert!(WorkQueues::<u32>::new(0).is_err());
}
